//! The three calls of the `org.nix.derivation-builder` interface, and their replies.
//!
//! Nothing here touches a socket. A request is the frame to send; a reply is taken
//! in byte by byte, as it is read.

use vstd::prelude::*;

use crate::derivation::derivation_doc;
use crate::derivation::derivation_json;
use crate::derivation::normalized;
use crate::error::ErrorView;
use crate::error::VarlinkError;
use crate::error::map_error;
use crate::error::named_error;
use crate::json::Json;
use crate::json::JsonView;
use crate::json::canonical;
use crate::json::entry;
use crate::json::entry_views;
use crate::json::keys_of;
use crate::json::law_member_is_the_first_entry;
use crate::json::law_members_and_text_of_other_documents;
use crate::json::law_no_member_without_an_entry;
use crate::json::member;
use crate::json::member_text;
use crate::json::text_before;
use crate::store_path::StorePath;
use crate::store_path::base_of;
use crate::store_path::in_store;
use crate::store_path::invalid_store_path;
use crate::store_path::is_base;
use crate::store_path::is_store_path;
use crate::store_path::law_store_paths;
use crate::store_path::refusal;
use crate::text::appended;
use crate::value::MAX_NESTING;
use crate::value::json_number;
use crate::value::json_parse;
use crate::value::json_text;
use crate::value::number;
use crate::value::number_integer;
use crate::value::plain;
use crate::wire::MAX_REPLY_BYTES;
use crate::wire::Progress;
use crate::wire::Reading;
use crate::wire::ReplyBuffer;
use crate::wire::after_read;
use crate::wire::after_stream;
use crate::wire::frame;
use crate::wire::framed;
use crate::wire::kept;
use crate::wire::law_framed_message_is_read_back;
use crate::wire::law_messages_on_the_wire;
use crate::wire::no_zero;

verus! {

/// Environment variable that holds the path of the socket inside a build sandbox.
/// It is set when the derivation has the `builder-rpc-v1` system feature.
pub const SOCKET_ENV: &'static str = "NIX_VARLINK_REMOTE";

/// The interface that the three methods belong to.
pub const INTERFACE: &'static str = "org.nix.derivation-builder";

/// The full name of a method of the interface.
pub open spec fn method_name(method: Seq<char>) -> Seq<char> {
    INTERFACE@ + "."@ + method
}

/// A call of `method` with these parameters.
pub open spec fn request(method: Seq<char>, parameters: JsonView) -> JsonView {
    JsonView::Object(
        seq![
            ("method"@, JsonView::Text(method_name(method))),
            ("parameters"@, parameters),
        ],
    )
}

/// The call that adds what is streamed over the first descriptor, as a NAR, under
/// `name`.
pub open spec fn add_to_store_call(name: Seq<char>) -> JsonView {
    request(
        "AddToStore"@,
        JsonView::Object(
            seq![
                ("descriptor"@, JsonView::Number(json_number(0))),
                ("method"@, JsonView::Text("nar"@)),
                ("name"@, JsonView::Text(name)),
            ],
        ),
    )
}

/// The call that registers a derivation.
pub open spec fn add_derivation_call(drv: JsonView) -> JsonView {
    request("AddDerivation"@, JsonView::Object(seq![("derivation"@, drv)]))
}

/// The call that declares `path` to be the output `name`.
pub open spec fn submit_output_call(name: Seq<char>, path: Seq<char>) -> JsonView {
    request(
        "SubmitOutput"@,
        JsonView::Object(
            seq![("name"@, JsonView::Text(name)), ("path"@, JsonView::Text(path))],
        ),
    )
}

proof fn lemma_request_canonical(method: Seq<char>, parameters: JsonView)
    requires
        canonical(parameters),
    ensures
        canonical(request(method, parameters)),
{
    reveal_strlit("method");
    reveal_strlit("parameters");
    let entries = request(method, parameters)->Object_0;
    let keys = keys_of(entries);
    assert(keys[0] == "method"@ && keys[1] == "parameters"@);
    assert(text_before(keys[0], keys[1]));
    assert(canonical(entries[0].1));
}

proof fn lemma_add_to_store_call(name: Seq<char>)
    requires
        number_integer(json_number(0)) is Some,
    ensures
        canonical(add_to_store_call(name)),
        plain(add_to_store_call(name), MAX_NESTING as nat),
{
    reveal_strlit("descriptor");
    reveal_strlit("method");
    reveal_strlit("name");
    let call = add_to_store_call(name);
    let parameters = call->Object_0[1].1;
    let entries = parameters->Object_0;
    let keys = keys_of(entries);
    assert(keys =~= seq!["descriptor"@, "method"@, "name"@]);
    assert(text_before(keys[0], keys[1]));
    assert(text_before(keys[1], keys[2]));
    assert(canonical(entries[0].1) && canonical(entries[1].1) && canonical(entries[2].1));
    assert(canonical(parameters));
    lemma_request_canonical("AddToStore"@, parameters);
    let inner = (MAX_NESTING - 2) as nat;
    assert(plain(entries[0].1, inner) && plain(entries[1].1, inner) && plain(entries[2].1, inner));
    assert(plain(parameters, (MAX_NESTING - 1) as nat));
    assert(plain(call->Object_0[0].1, (MAX_NESTING - 1) as nat));
}

proof fn lemma_submit_output_call(name: Seq<char>, path: Seq<char>)
    ensures
        canonical(submit_output_call(name, path)),
        plain(submit_output_call(name, path), MAX_NESTING as nat),
{
    reveal_strlit("name");
    reveal_strlit("path");
    let call = submit_output_call(name, path);
    let parameters = call->Object_0[1].1;
    let entries = parameters->Object_0;
    let keys = keys_of(entries);
    assert(keys =~= seq!["name"@, "path"@]);
    assert(text_before(keys[0], keys[1]));
    assert(canonical(entries[0].1) && canonical(entries[1].1));
    assert(canonical(parameters));
    lemma_request_canonical("SubmitOutput"@, parameters);
    let inner = (MAX_NESTING - 2) as nat;
    assert(plain(entries[0].1, inner) && plain(entries[1].1, inner));
    assert(plain(parameters, (MAX_NESTING - 1) as nat));
    assert(plain(call->Object_0[0].1, (MAX_NESTING - 1) as nat));
}

proof fn lemma_add_derivation_call(drv: JsonView)
    requires
        canonical(drv),
    ensures
        canonical(add_derivation_call(drv)),
        plain(drv, (MAX_NESTING - 2) as nat) ==> plain(
            add_derivation_call(drv),
            MAX_NESTING as nat,
        ),
{
    let call = add_derivation_call(drv);
    let parameters = call->Object_0[1].1;
    assert(parameters->Object_0[0].1 == drv);
    assert(keys_of(parameters->Object_0).len() == 1);
    assert(canonical(parameters));
    lemma_request_canonical("AddDerivation"@, parameters);
    if plain(drv, (MAX_NESTING - 2) as nat) {
        assert(plain(parameters, (MAX_NESTING - 1) as nat));
        assert(plain(call->Object_0[0].1, (MAX_NESTING - 1) as nat));
    }
}

/// A call of `method` with these parameters.
fn call(method: &str, parameters: Json) -> (r: Json)
    ensures
        r@ == request(method@, parameters@),
{
    let prefix = appended(INTERFACE, ".");
    let full_name = appended(prefix.as_str(), method);
    let mut entries: Vec<(String, Json)> = Vec::new();
    entries.push(("method".to_owned(), Json::text(full_name.as_str())));
    entries.push(("parameters".to_owned(), parameters));
    assert(entry_views(entries@) =~= request(method@, parameters@)->Object_0);
    Json::object(entries)
}

/// The frame carries the call `doc`: one text, in which no byte is zero, and the
/// terminator behind it.
pub open spec fn carries(frame: Seq<u8>, doc: JsonView) -> bool {
    &&& frame == framed(json_text(doc))
    &&& no_zero(json_text(doc))
}

/// A peer that reads the text in front of the terminator finds the call `doc`.
pub open spec fn is_understood(frame: Seq<u8>, doc: JsonView) -> bool {
    json_parse(frame.drop_last()) == Ok::<JsonView, serde_json::Error>(doc)
}

/// The frame that carries a call.
fn call_frame(doc: Json) -> (r: Result<Vec<u8>, VarlinkError>)
    requires
        canonical(doc@),
    ensures
        r is Ok,
        r matches Ok(bytes) ==> carries(bytes@, doc@),
        r matches Ok(bytes) ==> (plain(doc@, MAX_NESTING as nat) ==> is_understood(
            bytes@,
            doc@,
        )),
        r matches Ok(bytes) ==> bytes@ == json_text(doc@) + seq![0u8],
        r matches Ok(bytes) ==> forall|i: int|
            0 <= i < bytes@.len() - 1 ==> (#[trigger] bytes@[i]) != 0,
        r matches Ok(bytes) ==> (plain(doc@, 127) ==> json_parse(bytes@.take(bytes@.len() - 1))
            == Ok::<JsonView, serde_json::Error>(doc@)),
{
    match doc.to_vec() {
        Ok(text) => {
            assert(framed(text@).drop_last() =~= text@);
            assert(framed(text@).take(framed(text@).len() - 1) =~= text@);
            assert(framed(text@) =~= text@ + seq![0u8]);
            Ok(frame(text))
        },
        Err(e) => Err(VarlinkError::Json(e)),
    }
}

/// The result of an operation, by its views.
pub open spec fn outcome<T: View>(r: Result<T, VarlinkError>) -> Result<T::V, ErrorView> {
    match r {
        Ok(value) => Ok(value@),
        Err(e) => Err(e@),
    }
}

/// What a reply comes to: the error that the server names, or else the parameters
/// that it returns, which are none where it returns none.
pub open spec fn reply_outcome(reply: JsonView) -> Result<JsonView, ErrorView> {
    match member_text(reply, "error"@) {
        Some(error) => Err(named_error(error)),
        None => Ok(
            match member(reply, "parameters"@) {
                Some(parameters) => parameters,
                None => JsonView::Object(Seq::empty()),
            },
        ),
    }
}

/// What the text of a reply comes to.
pub open spec fn reply_text_outcome(text: Seq<u8>) -> Result<JsonView, ErrorView> {
    match json_parse(text) {
        Ok(reply) => reply_outcome(reply),
        Err(e) => Err(ErrorView::Json(e)),
    }
}

/// The reply grew beyond the cap.
pub open spec fn reply_too_long() -> ErrorView {
    ErrorView::Protocol("reply exceeded 1048576 bytes without null terminator"@)
}

/// The server went away within a reply.
pub open spec fn reply_cut_short() -> ErrorView {
    ErrorView::Protocol("server closed connection"@)
}

/// What the parameters of a reply to `method` come to, where they are to hold a
/// store path of the directory `dir`.
pub open spec fn path_outcome(
    dir: Seq<char>,
    method: Seq<char>,
    parameters: JsonView,
) -> Result<Seq<char>, ErrorView> {
    match member_text(parameters, "path"@) {
        None => Err(ErrorView::Protocol("missing path in "@ + method + " reply"@)),
        Some(path) => if is_store_path(dir, path) {
            Ok(base_of(dir, path))
        } else {
            Err(invalid_store_path(path, refusal(dir, path)))
        },
    }
}

/// Takes the parameters out of a reply, or the error.
pub fn interpret_reply(reply: Json) -> (r: Result<Json, VarlinkError>)
    ensures
        outcome(r) == reply_outcome(reply@),
        match reply {
            Json::Object(entries) => {
                &&& forall|i: int|
                    0 <= i < entries@.len() && (#[trigger] entries@[i]).0@ == "error"@
                        && entries@[i].1 is Text && (forall|j: int|
                        0 <= j < i ==> (#[trigger] entries@[j]).0@ != "error"@) ==> r is Err
                        && r->Err_0@ == named_error(entries@[i].1->Text_0@)
                &&& (forall|i: int|
                    0 <= i < entries@.len() && (#[trigger] entries@[i]).0@ == "error"@ && (forall|
                        j: int,
                    |
                        0 <= j < i ==> (#[trigger] entries@[j]).0@ != "error"@) ==> !(
                    entries@[i].1 is Text)) ==> {
                    &&& r is Ok
                    &&& forall|k: int|
                        0 <= k < entries@.len() && (#[trigger] entries@[k]).0@ == "parameters"@ && (
                        forall|j: int|
                            0 <= j < k ==> (#[trigger] entries@[j]).0@ != "parameters"@) ==> r->Ok_0
                            == entries@[k].1
                    &&& (forall|j: int|
                        0 <= j < entries@.len() ==> (#[trigger] entries@[j]).0@ != "parameters"@)
                        ==> (r->Ok_0 matches Json::Object(none) && none@.len() == 0)
                }
            },
            _ => r matches Ok(Json::Object(none)) && none@.len() == 0,
        },
{
    proof {
        lemma_error_or_none(reply);
    }
    match reply.get_str("error") {
        Some(error) => {
            return Err(map_error(error));
        },
        None => {},
    }
    match reply.into_member("parameters") {
        Some(parameters) => Ok(parameters),
        None => {
            let none: Vec<(String, Json)> = Vec::new();
            assert(entry_views(none@) =~= Seq::empty());
            Ok(Json::object(none))
        },
    }
}

/// Takes the parameters out of the text of a reply, or the error.
pub fn parse_reply(text: &[u8]) -> (r: Result<Json, VarlinkError>)
    ensures
        outcome(r) == reply_text_outcome(text@),
{
    match Json::parse(text) {
        Ok(reply) => interpret_reply(reply),
        Err(e) => Err(VarlinkError::Json(e)),
    }
}

/// Takes the store path out of the parameters of a reply to `method`.
fn reply_path(dir: &str, method: &str, parameters: &Json) -> (r: Result<StorePath, VarlinkError>)
    ensures
        outcome(r) == path_outcome(dir@, method@, parameters@),
{
    match parameters.get_str("path") {
        Some(path) => StorePath::parse(dir, path),
        None => {
            let missing = appended("missing path in ", method);
            Err(VarlinkError::Protocol(appended(missing.as_str(), " reply")))
        },
    }
}

/// What one read does to the reply that is being taken in.
#[derive(Debug)]
pub enum ReplyStep {
    /// Another byte has to be read.
    More,
    /// The reply is over, and this is what it comes to.
    Done(Result<Json, VarlinkError>),
}

/// One end of a connection to the derivation builder.
pub struct VarlinkClient {
    buf: ReplyBuffer,
}

impl View for VarlinkClient {
    type V = Seq<u8>;

    /// The bytes of the current reply that have come.
    closed spec fn view(&self) -> Seq<u8> {
        self.buf@
    }
}

impl VarlinkClient {
    /// A client that has read nothing yet.
    pub fn new() -> (r: VarlinkClient)
        ensures
            r@ == Seq::<u8>::empty(),
    {
        VarlinkClient { buf: ReplyBuffer::new() }
    }

    /// The request of `AddToStore(name, "nar")`; the NAR is streamed over the
    /// descriptor that goes with it.
    pub fn add_to_store_nar_request(name: &str) -> (r: Result<Vec<u8>, VarlinkError>)
        ensures
            r is Ok,
            r matches Ok(bytes) ==> carries(bytes@, add_to_store_call(name@)),
            r matches Ok(bytes) ==> is_understood(bytes@, add_to_store_call(name@)),
            r matches Ok(bytes) ==> bytes@ == json_text(add_to_store_call(name@)) + seq![0u8],
            r matches Ok(bytes) ==> forall|i: int|
                0 <= i < bytes@.len() - 1 ==> (#[trigger] bytes@[i]) != 0,
            r matches Ok(bytes) ==> json_parse(bytes@.take(bytes@.len() - 1)) == Ok::<
                JsonView,
                serde_json::Error,
            >(add_to_store_call(name@)),
    {
        let mut entries: Vec<(String, Json)> = Vec::new();
        entries.push(("descriptor".to_owned(), Json::Number(number(0))));
        entries.push(("method".to_owned(), Json::text("nar")));
        entries.push(("name".to_owned(), Json::text(name)));
        proof {
            let parameters = add_to_store_call(name@)->Object_0[1].1;
            assert(entry_views(entries@) =~= parameters->Object_0);
            lemma_add_to_store_call(name@);
        }
        call_frame(call("AddToStore", Json::object(entries)))
    }

    /// The store path in the parameters of a reply to `AddToStore`.
    pub fn add_to_store_nar_reply(store_dir: &str, parameters: &Json) -> (r: Result<
        StorePath,
        VarlinkError,
    >)
        ensures
            outcome(r) == path_outcome(store_dir@, "AddToStore"@, parameters@),
    {
        reply_path(store_dir, "AddToStore", parameters)
    }

    /// The request of `AddDerivation` for a derivation that is a document already,
    /// in the spelling of the interface. It is understood where the document is plain.
    pub fn add_derivation_json_request(drv: Json) -> (r: Result<Vec<u8>, VarlinkError>)
        requires
            canonical(drv@),
        ensures
            r is Ok,
            r matches Ok(bytes) ==> carries(bytes@, add_derivation_call(drv@)),
            r matches Ok(bytes) ==> (plain(drv@, (MAX_NESTING - 2) as nat) ==> is_understood(
                bytes@,
                add_derivation_call(drv@),
            )),
            r matches Ok(bytes) ==> bytes@ == json_text(add_derivation_call(drv@)) + seq![0u8],
            r matches Ok(bytes) ==> forall|i: int|
                0 <= i < bytes@.len() - 1 ==> (#[trigger] bytes@[i]) != 0,
            r matches Ok(bytes) ==> (plain(drv@, 125) ==> json_parse(bytes@.take(bytes@.len() - 1))
                == Ok::<JsonView, serde_json::Error>(add_derivation_call(drv@))),
    {
        proof {
            lemma_add_derivation_call(drv@);
        }
        let ghost parameters = JsonView::Object(seq![("derivation"@, drv@)]);
        let mut entries: Vec<(String, Json)> = Vec::new();
        entries.push(("derivation".to_owned(), drv));
        assert(entry_views(entries@) =~= parameters->Object_0);
        call_frame(call("AddDerivation", Json::object(entries)))
    }

    /// The request of `AddDerivation`. The derivation goes over the wire in version 4
    /// of its JSON format, with the methods of its outputs in the spelling of the
    /// interface.
    pub fn add_derivation_request(drv: &harmonia_store_core::derivation::Derivation) -> (r: Result<
        Vec<u8>,
        VarlinkError,
    >)
        ensures
            match derivation_doc(*drv) {
                Ok(doc) => {
                    &&& r is Ok
                    &&& carries(r->Ok_0@, add_derivation_call(normalized(doc)))
                    &&& plain(normalized(doc), (MAX_NESTING - 2) as nat) ==> is_understood(
                        r->Ok_0@,
                        add_derivation_call(normalized(doc)),
                    )
                    &&& r->Ok_0@ == json_text(add_derivation_call(normalized(doc))) + seq![0u8]
                    &&& forall|i: int|
                        0 <= i < r->Ok_0@.len() - 1 ==> (#[trigger] r->Ok_0@[i]) != 0
                    &&& plain(normalized(doc), 125) ==> json_parse(
                        r->Ok_0@.take(r->Ok_0@.len() - 1),
                    ) == Ok::<JsonView, serde_json::Error>(add_derivation_call(normalized(doc)))
                },
                Err(e) => r is Err && r->Err_0@ == ErrorView::Json(e),
            },
    {
        match derivation_json(drv) {
            Ok(json) => VarlinkClient::add_derivation_json_request(json),
            Err(e) => Err(VarlinkError::Json(e)),
        }
    }

    /// The store path in the parameters of a reply to `AddDerivation`.
    pub fn add_derivation_reply(store_dir: &str, parameters: &Json) -> (r: Result<
        StorePath,
        VarlinkError,
    >)
        ensures
            outcome(r) == path_outcome(store_dir@, "AddDerivation"@, parameters@),
    {
        reply_path(store_dir, "AddDerivation", parameters)
    }

    /// The request of `SubmitOutput(name, path)`.
    pub fn submit_output_request(store_dir: &str, name: &str, path: &StorePath) -> (r: Result<
        Vec<u8>,
        VarlinkError,
    >)
        ensures
            r is Ok,
            r matches Ok(bytes) ==> carries(
                bytes@,
                submit_output_call(name@, in_store(store_dir@, path@)),
            ),
            r matches Ok(bytes) ==> is_understood(
                bytes@,
                submit_output_call(name@, in_store(store_dir@, path@)),
            ),
            r matches Ok(bytes) ==> bytes@ == json_text(submit_output_call(name@, store_dir@ + "/"@ + path@)) + seq![0u8],
            r matches Ok(bytes) ==> forall|i: int|
                0 <= i < bytes@.len() - 1 ==> (#[trigger] bytes@[i]) != 0,
            r matches Ok(bytes) ==> json_parse(bytes@.take(bytes@.len() - 1)) == Ok::<
                JsonView,
                serde_json::Error,
            >(submit_output_call(name@, store_dir@ + "/"@ + path@)),
    {
        let full_path = path.display(store_dir);
        let mut entries: Vec<(String, Json)> = Vec::new();
        entries.push(("name".to_owned(), Json::text(name)));
        entries.push(("path".to_owned(), Json::text(full_path.as_str())));
        proof {
            let parameters = submit_output_call(name@, full_path@)->Object_0[1].1;
            assert(entry_views(entries@) =~= parameters->Object_0);
            lemma_submit_output_call(name@, full_path@);
        }
        call_frame(call("SubmitOutput", Json::object(entries)))
    }

    /// Gets ready for the next reply.
    pub fn start_reply(&mut self)
        ensures
            final(self)@ == Seq::<u8>::empty(),
    {
        self.buf.clear();
    }

    /// Takes in what one read of the socket gave: a byte, or nothing where the server
    /// closed the connection.
    pub fn read_reply(&mut self, read: Option<u8>) -> (r: ReplyStep)
        ensures
            final(self)@ == kept(old(self)@, read),
            final(self)@.len() <= MAX_REPLY_BYTES,
            match after_read(old(self)@, read) {
                Reading::Open(more) => r is More && final(self)@ == more,
                Reading::Complete(text) => r is Done && outcome(r->Done_0) == reply_text_outcome(
                    text,
                ),
                Reading::TooLong => r is Done && outcome(r->Done_0) == Err::<JsonView, ErrorView>(
                    reply_too_long(),
                ),
                Reading::Closed => r is Done && outcome(r->Done_0) == Err::<JsonView, ErrorView>(
                    reply_cut_short(),
                ),
            },
    {
        match self.buf.feed(read) {
            Progress::More => ReplyStep::More,
            Progress::Complete => ReplyStep::Done(parse_reply(self.buf.as_slice())),
            Progress::TooLong => ReplyStep::Done(
                Err(
                    VarlinkError::Protocol(
                        "reply exceeded 1048576 bytes without null terminator".to_owned(),
                    ),
                ),
            ),
            Progress::Closed => ReplyStep::Done(
                Err(VarlinkError::Protocol("server closed connection".to_owned())),
            ),
        }
    }
}

/// A request is one message on the wire, however long: who reads up to the first zero
/// byte has its whole text, and whatever is sent after it is not part of it. A reader
/// with the cap of this client reads it back where it is shorter than the cap.
pub proof fn law_request_is_one_message(frame: Seq<u8>, doc: JsonView, rest: Seq<u8>)
    requires
        carries(frame, doc),
    ensures
        ({
            let text = json_text(doc);
            let stream = frame + rest;
            &&& stream.len() > text.len()
            &&& forall|i: int| 0 <= i < text.len() ==> stream[i] != 0
            &&& stream[text.len() as int] == 0
            &&& stream.take(text.len() as int) == text
            &&& stream.skip(text.len() as int + 1) == rest
            &&& text.len() < MAX_REPLY_BYTES ==> after_stream(Seq::empty(), stream)
                == Reading::Complete(text)
        }),
{
    let text = json_text(doc);
    let stream = frame + rest;
    assert(stream.take(text.len() as int) =~= text);
    assert(stream.skip(text.len() as int + 1) =~= rest);
    assert forall|i: int| 0 <= i < text.len() implies stream[i] != 0 by {
        assert(stream[i] == text[i]);
    }
    if text.len() < MAX_REPLY_BYTES {
        law_framed_message_is_read_back(text, rest);
    }
}

/// A refusal reaches the caller: where the server sends a reply that names an error,
/// that reply is taken in as it was sent and comes to that error, whatever else it
/// holds and whatever follows it.
pub proof fn law_refusal_reaches_the_caller(
    text: Seq<u8>,
    rest: Seq<u8>,
    reply: JsonView,
    error: Seq<char>,
)
    requires
        no_zero(text),
        text.len() < MAX_REPLY_BYTES,
        json_parse(text) == Ok::<JsonView, serde_json::Error>(reply),
        member_text(reply, "error"@) == Some(error),
    ensures
        after_stream(Seq::empty(), framed(text) + rest) == Reading::Complete(text),
        reply_text_outcome(text) == Err::<JsonView, ErrorView>(named_error(error)),
{
    law_framed_message_is_read_back(text, rest);
}

/// What the server returns reaches the caller: where it sends a reply that names no
/// error, the parameters in it are what the call comes to.
pub proof fn law_parameters_reach_the_caller(
    text: Seq<u8>,
    rest: Seq<u8>,
    reply: JsonView,
    parameters: JsonView,
)
    requires
        no_zero(text),
        text.len() < MAX_REPLY_BYTES,
        json_parse(text) == Ok::<JsonView, serde_json::Error>(reply),
        member_text(reply, "error"@) is None,
        member(reply, "parameters"@) == Some(parameters),
    ensures
        after_stream(Seq::empty(), framed(text) + rest) == Reading::Complete(text),
        reply_text_outcome(text) == Ok::<JsonView, ErrorView>(parameters),
{
    law_framed_message_is_read_back(text, rest);
}

/// The path that is submitted as an output is, letter for letter, the path that the
/// server returned when the output was added to the store.
pub proof fn law_returned_path_is_submitted(
    dir: Seq<char>,
    method: Seq<char>,
    parameters: JsonView,
    name: Seq<char>,
)
    requires
        path_outcome(dir, method, parameters) is Ok,
    ensures
        ({
            let base = path_outcome(dir, method, parameters)->Ok_0;
            let call = submit_output_call(name, in_store(dir, base));
            &&& member(call, "parameters"@) is Some
            &&& member_text(member(call, "parameters"@)->0, "path"@) == member_text(
                parameters,
                "path"@,
            )
            &&& member_text(member(call, "parameters"@)->0, "name"@) == Some(name)
        }),
{
    let base = path_outcome(dir, method, parameters)->Ok_0;
    lemma_submit_output_members(name, in_store(dir, base));
}

proof fn lemma_submit_output_members(name: Seq<char>, path: Seq<char>)
    ensures
        ({
            let call = submit_output_call(name, path);
            &&& member(call, "parameters"@) is Some
            &&& member_text(member(call, "parameters"@)->0, "path"@) == Some(path)
            &&& member_text(member(call, "parameters"@)->0, "name"@) == Some(name)
        }),
{
    reveal_strlit("method");
    reveal_strlit("parameters");
    reveal_strlit("name");
    reveal_strlit("path");
    let call = submit_output_call(name, path);
    let entries = call->Object_0;
    let inner = entries[1].1->Object_0;
    assert("method"@.len() != "parameters"@.len());
    assert("name"@[0] != "path"@[0]);
    assert(entries.drop_first()[0] == entries[1]);
    assert(inner.drop_first()[0] == inner[1]);
    reveal_with_fuel(entry, 3);
}

proof fn lemma_error_or_none(reply: Json)
    ensures
        reply matches Json::Object(entries) ==> {
            ||| forall|j: int| 0 <= j < entries@.len() ==> (#[trigger] entries@[j]).0@ != "error"@
            ||| exists|i: int|
                0 <= i < entries@.len() && (#[trigger] entries@[i]).0@ == "error"@ && (forall|
                    j: int,
                |
                    0 <= j < i ==> (#[trigger] entries@[j]).0@ != "error"@)
        },
{
    if let Json::Object(entries) = reply {
        lemma_first_or_none(entries@, "error"@, entries@.len() as int);
    }
}

proof fn lemma_first_or_none(entries: Seq<(String, Json)>, key: Seq<char>, upto: int)
    requires
        0 <= upto <= entries.len(),
    ensures
        ({
            ||| forall|j: int| 0 <= j < upto ==> (#[trigger] entries[j]).0@ != key
            ||| exists|i: int|
                0 <= i < entries.len() && (#[trigger] entries[i]).0@ == key && (forall|j: int|
                    0 <= j < i ==> (#[trigger] entries[j]).0@ != key)
        }),
    decreases upto,
{
    if upto > 0 {
        lemma_first_or_none(entries, key, upto - 1);
        if forall|j: int| 0 <= j < upto - 1 ==> (#[trigger] entries[j]).0@ != key {
            if entries[upto - 1].0@ == key {
                assert(entries[upto - 1].0@ == key && (forall|j: int|
                    0 <= j < upto - 1 ==> (#[trigger] entries[j]).0@ != key));
            }
        }
    }
}

/// The names by which the interface and its socket are found.
pub proof fn law_names_of_the_interface(method: Seq<char>)
    ensures
        SOCKET_ENV@ == "NIX_VARLINK_REMOTE"@,
        INTERFACE@ == "org.nix.derivation-builder"@,
        method_name(method) == "org.nix.derivation-builder."@ + method,
{
    reveal_strlit("org.nix.derivation-builder");
    reveal_strlit("org.nix.derivation-builder.");
    reveal_strlit(".");
    assert(INTERFACE@ + "."@ =~= "org.nix.derivation-builder."@);
}

/// A call has two members and no more: the full name of the method, and the parameters.
pub proof fn law_members_of_a_call(method: Seq<char>, parameters: JsonView, key: Seq<char>)
    ensures
        ({
            let call = request(method, parameters);
            &&& call is Object
            &&& call->Object_0.len() == 2
            &&& member(call, "method"@) == Some(
                JsonView::Text("org.nix.derivation-builder."@ + method),
            )
            &&& member(call, "parameters"@) == Some(parameters)
            &&& key != "method"@ && key != "parameters"@ ==> member(call, key) is None
        }),
{
    law_names_of_the_interface(method);
    reveal_strlit("method");
    reveal_strlit("parameters");
    assert("method"@.len() != "parameters"@.len());
    let entries = request(method, parameters)->Object_0;
    law_member_is_the_first_entry(entries, "method"@, 0);
    law_member_is_the_first_entry(entries, "parameters"@, 1);
    if key != "method"@ && key != "parameters"@ {
        law_no_member_without_an_entry(entries, key);
    }
}

/// For every name, the call that adds a NAR to the store asks for `AddToStore`, and its
/// parameters are the descriptor 0, the method `nar` and that name, and nothing else.
pub proof fn law_add_to_store_call(name: Seq<char>, key: Seq<char>)
    ensures
        ({
            let call = add_to_store_call(name);
            let parameters = member(call, "parameters"@)->0;
            &&& call is Object
            &&& call->Object_0.len() == 2
            &&& member(call, "method"@) == Some(
                JsonView::Text("org.nix.derivation-builder."@ + "AddToStore"@),
            )
            &&& member(call, "parameters"@) is Some
            &&& key != "method"@ && key != "parameters"@ ==> member(call, key) is None
            &&& parameters is Object
            &&& parameters->Object_0.len() == 3
            &&& member(parameters, "descriptor"@) == Some(JsonView::Number(json_number(0)))
            &&& member(parameters, "method"@) == Some(JsonView::Text("nar"@))
            &&& member(parameters, "name"@) == Some(JsonView::Text(name))
            &&& key != "descriptor"@ && key != "method"@ && key != "name"@ ==> member(
                parameters,
                key,
            ) is None
        }),
{
    let parameters = add_to_store_call(name)->Object_0[1].1;
    law_members_of_a_call("AddToStore"@, parameters, key);
    reveal_strlit("descriptor");
    reveal_strlit("method");
    reveal_strlit("name");
    assert("descriptor"@.len() == 10 && "method"@.len() == 6 && "name"@.len() == 4);
    let entries = parameters->Object_0;
    law_member_is_the_first_entry(entries, "descriptor"@, 0);
    law_member_is_the_first_entry(entries, "method"@, 1);
    law_member_is_the_first_entry(entries, "name"@, 2);
    if key != "descriptor"@ && key != "method"@ && key != "name"@ {
        law_no_member_without_an_entry(entries, key);
    }
}

/// For every derivation, the call that registers it asks for `AddDerivation`, and its only
/// parameter is that derivation.
pub proof fn law_add_derivation_call(drv: JsonView, key: Seq<char>)
    ensures
        ({
            let call = add_derivation_call(drv);
            let parameters = member(call, "parameters"@)->0;
            &&& call is Object
            &&& call->Object_0.len() == 2
            &&& member(call, "method"@) == Some(
                JsonView::Text("org.nix.derivation-builder."@ + "AddDerivation"@),
            )
            &&& member(call, "parameters"@) is Some
            &&& key != "method"@ && key != "parameters"@ ==> member(call, key) is None
            &&& parameters is Object
            &&& parameters->Object_0.len() == 1
            &&& member(parameters, "derivation"@) == Some(drv)
            &&& key != "derivation"@ ==> member(parameters, key) is None
        }),
{
    let parameters = add_derivation_call(drv)->Object_0[1].1;
    law_members_of_a_call("AddDerivation"@, parameters, key);
    let entries = parameters->Object_0;
    law_member_is_the_first_entry(entries, "derivation"@, 0);
    if key != "derivation"@ {
        law_no_member_without_an_entry(entries, key);
    }
}

/// For every name and path, the call that submits an output asks for `SubmitOutput`, and
/// its parameters are that name and that path, and nothing else.
pub proof fn law_submit_output_call(name: Seq<char>, path: Seq<char>, key: Seq<char>)
    ensures
        ({
            let call = submit_output_call(name, path);
            let parameters = member(call, "parameters"@)->0;
            &&& call is Object
            &&& call->Object_0.len() == 2
            &&& member(call, "method"@) == Some(
                JsonView::Text("org.nix.derivation-builder."@ + "SubmitOutput"@),
            )
            &&& member(call, "parameters"@) is Some
            &&& key != "method"@ && key != "parameters"@ ==> member(call, key) is None
            &&& parameters is Object
            &&& parameters->Object_0.len() == 2
            &&& member(parameters, "name"@) == Some(JsonView::Text(name))
            &&& member(parameters, "path"@) == Some(JsonView::Text(path))
            &&& key != "name"@ && key != "path"@ ==> member(parameters, key) is None
        }),
{
    let parameters = submit_output_call(name, path)->Object_0[1].1;
    law_members_of_a_call("SubmitOutput"@, parameters, key);
    reveal_strlit("name");
    reveal_strlit("path");
    assert("name"@[0] != "path"@[0]);
    let entries = parameters->Object_0;
    law_member_is_the_first_entry(entries, "name"@, 0);
    law_member_is_the_first_entry(entries, "path"@, 1);
    if key != "name"@ && key != "path"@ {
        law_no_member_without_an_entry(entries, key);
    }
}

/// A frame carries a call, and is understood as it, exactly where it is the text of the call
/// and one zero byte behind it, the first one, and where that text is read as the call.
pub proof fn law_frames_of_calls(frame: Seq<u8>, doc: JsonView)
    ensures
        carries(frame, doc) <==> {
            &&& frame == json_text(doc) + seq![0u8]
            &&& forall|i: int| 0 <= i < json_text(doc).len() ==> json_text(doc)[i] != 0
        },
        frame.len() > 0 ==> (is_understood(frame, doc) <==> json_parse(
            frame.take(frame.len() - 1),
        ) == Ok::<JsonView, serde_json::Error>(doc)),
{
    law_messages_on_the_wire(json_text(doc));
    if frame.len() > 0 {
        assert(frame.take(frame.len() - 1) =~= frame.drop_last());
    }
}

/// A result is seen by what it holds: the value where it is one, the error where it is one.
pub proof fn law_outcomes<T: View>(r: Result<T, VarlinkError>)
    ensures
        match r {
            Ok(value) => outcome(r) == Ok::<T::V, ErrorView>(value@),
            Err(e) => outcome(r) == Err::<T::V, ErrorView>(e@),
        },
{
}

/// A reply in which a string stands first under `error` comes to the error of that name,
/// whatever else it holds or does not hold.
pub proof fn law_reply_with_an_error(
    entries: Seq<(Seq<char>, JsonView)>,
    at: int,
    error: Seq<char>,
)
    requires
        0 <= at < entries.len(),
        entries[at] == ("error"@, JsonView::Text(error)),
        forall|j: int| 0 <= j < at ==> (#[trigger] entries[j]).0 != "error"@,
    ensures
        reply_outcome(JsonView::Object(entries)) == Err::<JsonView, ErrorView>(named_error(error)),
        forall|text: Seq<u8>| #[trigger]
            json_parse(text) == Ok::<JsonView, serde_json::Error>(JsonView::Object(entries))
                ==> reply_text_outcome(text) == Err::<JsonView, ErrorView>(named_error(error)),
{
    law_member_is_the_first_entry(entries, "error"@, at);
}

/// A reply in which no string stands first under `error` comes to what stands first under
/// `parameters`, or to an empty object where nothing stands there.
pub proof fn law_reply_without_an_error(entries: Seq<(Seq<char>, JsonView)>)
    requires
        forall|i: int|
            0 <= i < entries.len() && (#[trigger] entries[i]).0 == "error"@ && (forall|j: int|
                0 <= j < i ==> (#[trigger] entries[j]).0 != "error"@) ==> !(entries[i].1 is Text),
    ensures
        forall|k: int|
            0 <= k < entries.len() && (#[trigger] entries[k]).0 == "parameters"@ && (forall|j: int|
                0 <= j < k ==> (#[trigger] entries[j]).0 != "parameters"@) ==> reply_outcome(
                JsonView::Object(entries),
            ) == Ok::<JsonView, ErrorView>(entries[k].1),
        (forall|j: int| 0 <= j < entries.len() ==> (#[trigger] entries[j]).0 != "parameters"@)
            ==> reply_outcome(JsonView::Object(entries)) == Ok::<JsonView, ErrorView>(
            JsonView::Object(Seq::empty()),
        ),
{
    lemma_first_view_or_none(entries, "error"@, entries.len() as int);
    if forall|j: int| 0 <= j < entries.len() ==> (#[trigger] entries[j]).0 != "error"@ {
        law_no_member_without_an_entry(entries, "error"@);
    } else {
        let i = choose|i: int|
            0 <= i < entries.len() && (#[trigger] entries[i]).0 == "error"@ && (forall|j: int|
                0 <= j < i ==> (#[trigger] entries[j]).0 != "error"@);
        law_member_is_the_first_entry(entries, "error"@, i);
    }
    assert forall|k: int|
        0 <= k < entries.len() && (#[trigger] entries[k]).0 == "parameters"@ && (forall|j: int|
            0 <= j < k ==> (#[trigger] entries[j]).0 != "parameters"@) implies reply_outcome(
        JsonView::Object(entries),
    ) == Ok::<JsonView, ErrorView>(entries[k].1) by {
        law_member_is_the_first_entry(entries, "parameters"@, k);
    }
    if forall|j: int| 0 <= j < entries.len() ==> (#[trigger] entries[j]).0 != "parameters"@ {
        law_no_member_without_an_entry(entries, "parameters"@);
    }
}

proof fn lemma_first_view_or_none(
    entries: Seq<(Seq<char>, JsonView)>,
    key: Seq<char>,
    upto: int,
)
    requires
        0 <= upto <= entries.len(),
    ensures
        ({
            ||| forall|j: int| 0 <= j < upto ==> (#[trigger] entries[j]).0 != key
            ||| exists|i: int|
                0 <= i < entries.len() && (#[trigger] entries[i]).0 == key && (forall|j: int|
                    0 <= j < i ==> (#[trigger] entries[j]).0 != key)
        }),
    decreases upto,
{
    if upto > 0 {
        lemma_first_view_or_none(entries, key, upto - 1);
        if forall|j: int| 0 <= j < upto - 1 ==> (#[trigger] entries[j]).0 != key {
            if entries[upto - 1].0 == key {
                assert(entries[upto - 1].0 == key && (forall|j: int|
                    0 <= j < upto - 1 ==> (#[trigger] entries[j]).0 != key));
            }
        }
    }
}

/// A reply that is JSON but no object names no error and returns nothing; a text that is
/// not JSON comes to the error that reading it gives, and a text that is comes to what its
/// document does.
pub proof fn law_other_replies(reply: JsonView, text: Seq<u8>)
    ensures
        !(reply is Object) ==> reply_outcome(reply) == Ok::<JsonView, ErrorView>(
            JsonView::Object(Seq::empty()),
        ),
        match json_parse(text) {
            Ok(doc) => reply_text_outcome(text) == reply_outcome(doc),
            Err(e) => reply_text_outcome(text) == Err::<JsonView, ErrorView>(ErrorView::Json(e)),
        },
{
    law_members_and_text_of_other_documents(reply, "error"@);
    law_members_and_text_of_other_documents(reply, "parameters"@);
}

/// What is said of a reply that does not come to its end.
pub proof fn law_broken_replies()
    ensures
        reply_too_long() == ErrorView::Protocol(
            "reply exceeded 1048576 bytes without null terminator"@,
        ),
        reply_cut_short() == ErrorView::Protocol("server closed connection"@),
{
}

/// Where a string stands first under `path` in the parameters of a reply, it is taken for a
/// store path: it comes to its base where it is the directory, a slash and a base, and else
/// to an error that quotes it and says why.
pub proof fn law_path_in_a_reply(
    dir: Seq<char>,
    method: Seq<char>,
    entries: Seq<(Seq<char>, JsonView)>,
    at: int,
    path: Seq<char>,
    base: Seq<char>,
)
    requires
        0 <= at < entries.len(),
        entries[at] == ("path"@, JsonView::Text(path)),
        forall|j: int| 0 <= j < at ==> (#[trigger] entries[j]).0 != "path"@,
    ensures
        path == dir + seq!['/'] + base && path[0] == '/' && is_base(base) ==> path_outcome(
            dir,
            method,
            JsonView::Object(entries),
        ) == Ok::<Seq<char>, ErrorView>(base),
        !(path_outcome(dir, method, JsonView::Object(entries)) is Ok) ==> {
            &&& path_outcome(dir, method, JsonView::Object(entries)) == Err::<
                Seq<char>,
                ErrorView,
            >(
                ErrorView::Protocol(
                    "invalid store path '"@ + path + "': "@ + refusal(dir, path),
                ),
            )
        },
        path_outcome(dir, method, JsonView::Object(entries)) matches Ok(found) ==> path == dir
            + seq!['/'] + found && is_base(found) && path[0] == '/',
{
    law_member_is_the_first_entry(entries, "path"@, at);
    law_store_paths(dir, base, path);
    law_store_paths(dir, base_of(dir, path), path);
}

/// Where the parameters of a reply have no `path`, or what stands first there is no string,
/// or they are no object, the error says that the path is missing.
pub proof fn law_no_path_in_a_reply(dir: Seq<char>, method: Seq<char>, parameters: JsonView)
    requires
        match parameters {
            JsonView::Object(entries) => forall|i: int|
                0 <= i < entries.len() && (#[trigger] entries[i]).0 == "path"@ && (forall|j: int|
                    0 <= j < i ==> (#[trigger] entries[j]).0 != "path"@) ==> !(
                entries[i].1 is Text),
            _ => true,
        },
    ensures
        path_outcome(dir, method, parameters) == Err::<Seq<char>, ErrorView>(
            ErrorView::Protocol("missing path in "@ + method + " reply"@),
        ),
{
    match parameters {
        JsonView::Object(entries) => {
            lemma_first_view_or_none(entries, "path"@, entries.len() as int);
            if forall|j: int| 0 <= j < entries.len() ==> (#[trigger] entries[j]).0 != "path"@ {
                law_no_member_without_an_entry(entries, "path"@);
            } else {
                let i = choose|i: int|
                    0 <= i < entries.len() && (#[trigger] entries[i]).0 == "path"@ && (forall|
                        j: int,
                    |
                        0 <= j < i ==> (#[trigger] entries[j]).0 != "path"@);
                law_member_is_the_first_entry(entries, "path"@, i);
            }
        },
        _ => {
            law_members_and_text_of_other_documents(parameters, "path"@);
        },
    }
}

} // verus!
