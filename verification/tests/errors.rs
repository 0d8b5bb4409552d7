use nix_varlink_client::error::map_error;
use nix_varlink_client::error::VarlinkError;
use nix_varlink_client::json::Json;

#[test]
fn map_error_strips_interface_prefix() {
    assert!(matches!(
        map_error("org.nix.derivation-builder.InvalidNar"),
        VarlinkError::InvalidNar
    ));
    assert!(matches!(
        map_error("DuplicateOutput"),
        VarlinkError::DuplicateOutput
    ));
    assert!(matches!(
        map_error("Something.Unknown"),
        VarlinkError::Other(_)
    ));
}

#[test]
fn map_error_knows_four_names() {
    assert!(matches!(map_error("a.b.NoFileDescriptor"), VarlinkError::NoFileDescriptor));
    assert!(matches!(map_error("NoFileDescriptor"), VarlinkError::NoFileDescriptor));
    assert!(matches!(map_error(".InvalidNar"), VarlinkError::InvalidNar));
    assert!(matches!(map_error("x.InvalidPath"), VarlinkError::InvalidPath));
    assert!(matches!(map_error("\u{e9}.DuplicateOutput"), VarlinkError::DuplicateOutput));
}

#[test]
fn map_error_keeps_unknown_names_in_full() {
    for name in ["Something.Unknown", "", ".", "InvalidNar.", "invalidnar", "InvalidNar.x", "\u{e9}t\u{e9}"] {
        match map_error(name) {
            VarlinkError::Other(kept) => assert_eq!(kept, name),
            other => panic!("{:?}", other),
        }
    }
}

#[test]
fn map_error_strips_any_prefix() {
    for name in ["InvalidPath", "a.InvalidPath", ".InvalidPath", "InvalidNar.InvalidPath"] {
        assert!(matches!(map_error(name), VarlinkError::InvalidPath));
        assert!(matches!(map_error(&format!("x..y.{}", name)), VarlinkError::InvalidPath));
    }
}

#[test]
fn messages_of_own_errors() {
    assert_eq!(VarlinkError::NoFileDescriptor.message(), "server returned NoFileDescriptor");
    assert_eq!(VarlinkError::InvalidNar.message(), "server returned InvalidNar");
    assert_eq!(VarlinkError::InvalidPath.message(), "server returned InvalidPath");
    assert_eq!(VarlinkError::DuplicateOutput.message(), "server returned DuplicateOutput");
    assert_eq!(
        VarlinkError::Other("a.B".to_string()).message(),
        "server returned unknown error: a.B"
    );
    assert_eq!(VarlinkError::Protocol("odd".to_string()).message(), "malformed reply: odd");
}

#[test]
fn messages_of_errors_of_other_layers() {
    let io = || std::io::Error::new(std::io::ErrorKind::Other, "torn");
    assert_eq!(VarlinkError::from(io()).message(), "transport error: torn");
    assert!(matches!(VarlinkError::from(io()), VarlinkError::Transport(_)));

    let errno = nix::errno::Errno::EPIPE;
    assert_eq!(VarlinkError::from(errno).message(), format!("nix syscall error: {}", errno));
    assert!(matches!(VarlinkError::from(errno), VarlinkError::Nix(nix::errno::Errno::EPIPE)));

    let json = Json::parse(b"{").unwrap_err();
    let text = json.to_string();
    let wrapped = VarlinkError::from(json);
    assert_eq!(wrapped.message(), text);
    assert!(matches!(wrapped, VarlinkError::Json(_)));
}
