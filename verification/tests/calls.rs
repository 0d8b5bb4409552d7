use nix_varlink_client::client::interpret_reply;
use nix_varlink_client::client::parse_reply;
use nix_varlink_client::client::ReplyStep;
use nix_varlink_client::client::VarlinkClient;
use nix_varlink_client::client::INTERFACE;
use nix_varlink_client::client::SOCKET_ENV;
use nix_varlink_client::error::VarlinkError;
use nix_varlink_client::json::Json;
use nix_varlink_client::store_path::StorePath;
use nix_varlink_client::wire::MAX_REPLY_BYTES;

use harmonia_store_core::derivation::{Derivation, DerivationOutput};

const PATH: &str = "/nix/store/55xkmqns51sw7nrgykp5vnz36w4fr3cw-nix-2.1.3";

fn receive(client: &mut VarlinkClient, stream: &[u8]) -> Result<Json, VarlinkError> {
    client.start_reply();
    for byte in stream {
        match client.read_reply(Some(*byte)) {
            ReplyStep::More => {}
            ReplyStep::Done(result) => return result,
        }
    }
    match client.read_reply(None) {
        ReplyStep::More => unreachable!(),
        ReplyStep::Done(result) => result,
    }
}

fn protocol_text<T: std::fmt::Debug>(result: Result<T, VarlinkError>) -> String {
    match result {
        Err(VarlinkError::Protocol(text)) => text,
        other => panic!("{:?}", other),
    }
}

fn text(frame: &[u8]) -> &str {
    assert_eq!(frame.last(), Some(&0));
    assert_eq!(frame.iter().filter(|b| **b == 0).count(), 1);
    std::str::from_utf8(&frame[..frame.len() - 1]).unwrap()
}

#[test]
fn names_of_the_interface() {
    assert_eq!(SOCKET_ENV, "NIX_VARLINK_REMOTE");
    assert_eq!(INTERFACE, "org.nix.derivation-builder");
}

#[test]
fn add_to_store_request() {
    let frame = VarlinkClient::add_to_store_nar_request("out\u{0}").unwrap();
    assert_eq!(
        text(&frame),
        r#"{"method":"org.nix.derivation-builder.AddToStore","parameters":{"descriptor":0,"method":"nar","name":"out\u0000"}}"#
    );
}

#[test]
fn submit_output_request() {
    let path = StorePath::parse("/nix/store", PATH).unwrap();
    let frame = VarlinkClient::submit_output_request("/nix/store", "out", &path).unwrap();
    assert_eq!(
        text(&frame),
        "{\"method\":\"org.nix.derivation-builder.SubmitOutput\",\"parameters\":{\"name\":\"out\",\"path\":\"/nix/store/55xkmqns51sw7nrgykp5vnz36w4fr3cw-nix-2.1.3\"}}"
    );
}

#[test]
fn add_derivation_request_from_a_document() {
    let drv = Json::parse(br#"{"outputs":{"out":{"method":"nar"}}}"#).unwrap();
    let frame = VarlinkClient::add_derivation_json_request(drv).unwrap();
    assert_eq!(
        text(&frame),
        r#"{"method":"org.nix.derivation-builder.AddDerivation","parameters":{"derivation":{"outputs":{"out":{"method":"nar"}}}}}"#
    );
}

#[test]
fn add_derivation_request_from_a_derivation() {
    let mut drv = Derivation::new("hello".parse().unwrap(), "sys".into(), "/bin/sh".into());
    drv.outputs.insert(
        "out".parse().unwrap(),
        DerivationOutput::CAFloating("r:sha256".parse().unwrap()),
    );
    let frame = VarlinkClient::add_derivation_request(&drv).unwrap();
    let request = Json::parse(text(&frame).as_bytes()).unwrap();
    assert_eq!(request.get_str("method"), Some("org.nix.derivation-builder.AddDerivation"));
    let sent = request.get("parameters").unwrap().get("derivation").unwrap();
    assert_eq!(sent.get_str("name"), Some("hello"));
    assert_eq!(
        sent.get("outputs").unwrap().get("out").unwrap().get_str("method"),
        Some("nar")
    );
}

#[test]
fn add_derivation_request_needs_text() {
    let drv = Derivation::new("hello".parse().unwrap(), vec![0xffu8].into(), "/bin/sh".into());
    assert!(matches!(VarlinkClient::add_derivation_request(&drv), Err(VarlinkError::Json(_))));
}

#[test]
fn requests_are_understood() {
    let frame = VarlinkClient::add_to_store_nar_request("n\"\u{e9}").unwrap();
    let request = Json::parse(text(&frame).as_bytes()).unwrap();
    let parameters = request.get("parameters").unwrap();
    assert_eq!(parameters.get_str("name"), Some("n\"\u{e9}"));
    assert_eq!(parameters.get_str("method"), Some("nar"));
    assert_eq!(parameters.get("descriptor"), Some(&Json::Number(0u64.into())));
    // A frame is one message, whatever comes after it.
    let mut stream = frame.clone();
    stream.extend_from_slice(b"more");
    let mut client = VarlinkClient::new();
    assert_eq!(receive(&mut client, &stream).unwrap(), request.into_member("parameters").unwrap());
}

#[test]
fn request_beyond_the_cap_of_replies_is_one_message() {
    let name = "n\u{0}".repeat(MAX_REPLY_BYTES);
    let frame = VarlinkClient::add_to_store_nar_request(&name).unwrap();
    assert!(frame.len() > MAX_REPLY_BYTES);
    let mut stream = frame.clone();
    stream.extend_from_slice(b"more");
    let end = stream.iter().position(|byte| *byte == 0).unwrap();
    assert_eq!(end + 1, frame.len());
    let request = Json::parse(&stream[..end]).unwrap();
    assert_eq!(request.get("parameters").unwrap().get_str("name"), Some(name.as_str()));
}

#[test]
fn negative_numbers_in_a_derivation_are_understood() {
    let drv = || Json::parse(br#"{"env":{"n":-9223372036854775808}}"#).unwrap();
    let frame = VarlinkClient::add_derivation_json_request(drv()).unwrap();
    let request = Json::parse(text(&frame).as_bytes()).unwrap();
    assert_eq!(request.get("parameters").unwrap().get("derivation"), Some(&drv()));
}

#[test]
fn parameters_reach_the_caller() {
    let mut client = VarlinkClient::new();
    let reply = receive(&mut client, b"{\"parameters\":{\"path\":\"p\"},\"continues\":false}\0junk");
    assert_eq!(reply.unwrap().get_str("path"), Some("p"));
    let reply = receive(&mut client, b"{}\0");
    assert_eq!(reply.unwrap(), Json::object(vec![]));
}

#[test]
fn refusal_reaches_the_caller() {
    let mut client = VarlinkClient::new();
    let mut refused = |name: &str| {
        let reply = format!("{{\"parameters\":{{\"path\":\"p\"}},\"error\":\"{}\"}}\0", name);
        receive(&mut client, reply.as_bytes()).unwrap_err()
    };
    assert!(matches!(
        refused("org.nix.derivation-builder.NoFileDescriptor"),
        VarlinkError::NoFileDescriptor
    ));
    assert!(matches!(refused("InvalidNar"), VarlinkError::InvalidNar));
    assert!(matches!(refused("a.InvalidPath"), VarlinkError::InvalidPath));
    assert!(matches!(refused("b.DuplicateOutput"), VarlinkError::DuplicateOutput));
    assert!(matches!(refused("b.C"), VarlinkError::Other(name) if name == "b.C"));
}

#[test]
fn error_that_is_no_text_is_passed_over() {
    let reply = parse_reply(br#"{"error":null,"parameters":7}"#).unwrap();
    assert_eq!(reply, Json::Number(7u64.into()));
    assert_eq!(parse_reply(b"5").unwrap(), Json::object(vec![]));
    assert_eq!(interpret_reply(Json::Null).unwrap(), Json::object(vec![]));
}

#[test]
fn reply_that_is_not_json() {
    let mut client = VarlinkClient::new();
    assert!(matches!(receive(&mut client, b"\0"), Err(VarlinkError::Json(_))));
    assert!(matches!(receive(&mut client, b"{]\0"), Err(VarlinkError::Json(_))));
}

#[test]
fn reply_that_is_cut_short() {
    let mut client = VarlinkClient::new();
    assert_eq!(protocol_text(receive(&mut client, b"{\"par")), "server closed connection");
    assert_eq!(protocol_text(receive(&mut client, b"")), "server closed connection");
}

#[test]
fn reply_without_terminator() {
    let mut client = VarlinkClient::new();
    let flood = vec![b' '; MAX_REPLY_BYTES + 10];
    assert_eq!(
        protocol_text(receive(&mut client, &flood)),
        "reply exceeded 1048576 bytes without null terminator"
    );
    assert_eq!(receive(&mut client, b"{}\0").unwrap(), Json::object(vec![]));
}

#[test]
fn longest_reply() {
    let mut client = VarlinkClient::new();
    let mut stream = vec![b' '; MAX_REPLY_BYTES - 3];
    stream.extend_from_slice(b"{}\0");
    assert_eq!(receive(&mut client, &stream).unwrap(), Json::object(vec![]));
}

#[test]
fn path_in_a_reply() {
    let parameters = Json::object(vec![("path".to_string(), Json::text(PATH))]);
    let path = VarlinkClient::add_to_store_nar_reply("/nix/store", &parameters).unwrap();
    assert_eq!(path.display("/nix/store"), PATH);
    let path = VarlinkClient::add_derivation_reply("/nix/store", &parameters).unwrap();
    assert_eq!(path.base(), "55xkmqns51sw7nrgykp5vnz36w4fr3cw-nix-2.1.3");
}

#[test]
fn missing_path_in_a_reply() {
    let none = Json::object(vec![]);
    assert_eq!(
        protocol_text(VarlinkClient::add_to_store_nar_reply("/nix/store", &none)),
        "missing path in AddToStore reply"
    );
    let number = Json::object(vec![("path".to_string(), Json::Bool(true))]);
    assert_eq!(
        protocol_text(VarlinkClient::add_derivation_reply("/nix/store", &number)),
        "missing path in AddDerivation reply"
    );
}

#[test]
fn invalid_path_in_a_reply() {
    let parameters = Json::object(vec![("path".to_string(), Json::text("/tmp/x"))]);
    assert_eq!(
        protocol_text(VarlinkClient::add_derivation_reply("/nix/store", &parameters)),
        "invalid store path '/tmp/x': parse error /tmp/x, path \"/tmp/x\" is not in store"
    );
}

#[test]
fn returned_path_is_submitted() {
    let reply = format!("{{\"parameters\":{{\"path\":\"{}\"}}}}\0", PATH);
    let parameters = receive(&mut VarlinkClient::new(), reply.as_bytes()).unwrap();
    let path = VarlinkClient::add_to_store_nar_reply("/nix/store", &parameters).unwrap();
    let frame = VarlinkClient::submit_output_request("/nix/store", "out", &path).unwrap();
    let request = Json::parse(text(&frame).as_bytes()).unwrap();
    let submitted = request.get("parameters").unwrap();
    assert_eq!(submitted.get_str("path"), parameters.get_str("path"));
    assert_eq!(submitted.get_str("name"), Some("out"));
}
