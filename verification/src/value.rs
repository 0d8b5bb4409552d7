//! `serde_json`: reading and writing documents as text.
//!
//! A `serde_json::Value` is opaque here. It is opened one level at a time into a
//! node, and closed from one, so that the conversion of a whole tree is an
//! ordinary verified recursion.

use vstd::prelude::*;

use crate::json::Json;
use crate::json::JsonView;
use crate::json::canonical;
use crate::json::keys_ascend;
use crate::json::keys_of;
use crate::wire::no_zero;

verus! {

/// `serde_json::Error`, carried through as an opaque value.
#[verifier::external_type_specification]
#[verifier::external_body]
pub struct ExJsonError(serde_json::Error);

/// `serde_json::Number`, carried through as an opaque value.
#[verifier::external_type_specification]
#[verifier::external_body]
pub struct ExNumber(serde_json::Number);

/// `serde_json::Value`, carried through as an opaque value.
#[verifier::external_type_specification]
#[verifier::external_body]
pub struct ExValue(serde_json::Value);

/// The document that a `serde_json::Value` holds.
pub uninterp spec fn value_view(value: serde_json::Value) -> JsonView;

/// The document that `serde_json::from_slice` reads in `bytes`, or the error that it
/// gives where they spell none.
pub uninterp spec fn json_parse(bytes: Seq<u8>) -> Result<JsonView, serde_json::Error>;

/// The compact text that `serde_json::to_vec` writes for a document.
pub uninterp spec fn json_text(doc: JsonView) -> Seq<u8>;

/// The number that `serde_json::Number::from` makes of an unsigned integer.
pub uninterp spec fn json_number(n: u64) -> serde_json::Number;

/// The integer that `serde_json::Number::as_i128` finds in a number, where the number
/// is an integer and no floating-point number.
pub uninterp spec fn number_integer(n: serde_json::Number) -> Option<i128>;

/// One level of a `serde_json::Value`.
enum Node {
    Null,
    Bool(bool),
    Number(serde_json::Number),
    Text(String),
    Array(Vec<serde_json::Value>),
    Object(Vec<(String, serde_json::Value)>),
}

/// The keys of one level, in order.
spec fn node_keys(entries: Seq<(String, serde_json::Value)>) -> Seq<Seq<char>> {
    Seq::new(entries.len(), |i: int| entries[i].0@)
}

impl View for Node {
    type V = JsonView;

    closed spec fn view(&self) -> JsonView {
        match self {
            Node::Null => JsonView::Null,
            Node::Bool(b) => JsonView::Bool(*b),
            Node::Number(n) => JsonView::Number(*n),
            Node::Text(s) => JsonView::Text(s@),
            Node::Array(items) => JsonView::Array(
                Seq::new(items@.len(), |i: int| value_view(items@[i])),
            ),
            Node::Object(entries) => JsonView::Object(
                Seq::new(entries@.len(), |i: int| (entries@[i].0@, value_view(entries@[i].1))),
            ),
        }
    }
}

/// Takes a `serde_json::Value` apart, one level deep.
///
/// The variants of the two types correspond one to one. The entries of a
/// `serde_json::Map`, which is a `BTreeMap` under the features in use, come out in
/// ascending order of their keys.
#[verifier::external_body]
fn open_value(value: serde_json::Value) -> (r: Node)
    ensures
        r@ == value_view(value),
        r matches Node::Object(entries) ==> keys_ascend(node_keys(entries@)),
{
    match value {
        serde_json::Value::Null => Node::Null,
        serde_json::Value::Bool(b) => Node::Bool(b),
        serde_json::Value::Number(n) => Node::Number(n),
        serde_json::Value::String(s) => Node::Text(s),
        serde_json::Value::Array(items) => Node::Array(items),
        serde_json::Value::Object(map) => Node::Object(map.into_iter().collect()),
    }
}

/// Puts a `serde_json::Value` together, one level deep.
///
/// The keys of an object have to ascend: a `serde_json::Map` keeps its entries in
/// that order, and keeps one entry under each key.
#[verifier::external_body]
fn close_value(node: Node) -> (r: serde_json::Value)
    requires
        node matches Node::Object(entries) ==> keys_ascend(node_keys(entries@)),
    ensures
        value_view(r) == node@,
{
    match node {
        Node::Null => serde_json::Value::Null,
        Node::Bool(b) => serde_json::Value::Bool(b),
        Node::Number(n) => serde_json::Value::Number(n),
        Node::Text(s) => serde_json::Value::String(s),
        Node::Array(items) => serde_json::Value::Array(items),
        Node::Object(entries) => serde_json::Value::Object(entries.into_iter().collect()),
    }
}

/// `serde_json::from_slice`: the document that the bytes spell, or an error where
/// they spell none. Both depend on the bytes alone. Which bytes spell which document,
/// and which error comes of the others, is named, not stated.
#[verifier::external_body]
fn read_value(bytes: &[u8]) -> (r: Result<serde_json::Value, serde_json::Error>)
    ensures
        match r {
            Ok(value) => json_parse(bytes@) == Ok::<JsonView, serde_json::Error>(value_view(value)),
            Err(e) => json_parse(bytes@) == Err::<JsonView, serde_json::Error>(e),
        },
{
    serde_json::from_slice(bytes)
}

/// The document holds no numbers but integers, and nests arrays and objects at most
/// `levels` deep.
pub open spec fn plain(doc: JsonView, levels: nat) -> bool
    decreases doc,
{
    match doc {
        JsonView::Number(n) => number_integer(n) is Some,
        JsonView::Array(items) => {
            &&& levels > 0
            &&& forall|i: int|
                0 <= i < items.len() ==> plain(#[trigger] items[i], (levels - 1) as nat)
        },
        JsonView::Object(entries) => {
            &&& levels > 0
            &&& forall|i: int|
                0 <= i < entries.len() ==> plain((#[trigger] entries[i]).1, (levels - 1) as nat)
        },
        _ => true,
    }
}

/// How deep a document may nest for `serde_json` to read it.
pub const MAX_NESTING: usize = 127;

/// `serde_json::to_vec` on a `Value`: the compact text of the document, named and
/// not stated. It always succeeds, because every key is a string and the sink is
/// a vector, and writes no zero byte, because control characters are escaped.
///
/// `serde_json::from_slice` reads the text back as the document it was written for,
/// where the document nests no deeper than the reader goes and its numbers are
/// integers, of either sign. Of floating-point numbers nothing is said: the reader may
/// round them otherwise.
#[verifier::external_body]
fn write_value(value: &serde_json::Value) -> (r: Result<Vec<u8>, serde_json::Error>)
    ensures
        r is Ok,
        r matches Ok(bytes) ==> bytes@ == json_text(value_view(*value)),
        r matches Ok(bytes) ==> no_zero(bytes@),
        r matches Ok(bytes) ==> (plain(value_view(*value), MAX_NESTING as nat) ==> json_parse(
            bytes@,
        ) == Ok::<JsonView, serde_json::Error>(value_view(*value))),
{
    serde_json::to_vec(value)
}

/// `serde_json::Number::from` on an unsigned integer; the number is named. It holds
/// that integer.
#[verifier::external_body]
pub(crate) fn number(n: u64) -> (r: serde_json::Number)
    ensures
        r == json_number(n),
        number_integer(r) == Some(n as i128),
{
    serde_json::Number::from(n)
}

/// `serde_json::Number::as_i128`: the integer that the number is, or nothing where it
/// is a floating-point number. Which number is which is named, not stated.
#[verifier::external_body]
fn as_integer(n: &serde_json::Number) -> (r: Option<i128>)
    ensures
        r == number_integer(*n),
{
    n.as_i128()
}

/// Whether a document holds no numbers but integers and nests at most `levels` deep,
/// so that its text is sure to be read back where `levels` is [`MAX_NESTING`].
pub fn is_plain(json: &Json, levels: usize) -> (r: bool)
    ensures
        r == plain(json@, levels as nat),
    decreases json,
{
    match json {
        Json::Number(n) => as_integer(n).is_some(),
        Json::Array(items) => {
            let ghost views = json@->Array_0;
            if levels == 0 {
                return false;
            }
            let mut i: usize = 0;
            while i < items.len()
                invariant
                    i <= items@.len(),
                    levels > 0,
                    *json == Json::Array(*items),
                    json@ == JsonView::Array(views),
                    views.len() == items@.len(),
                    forall|j: int| 0 <= j < items@.len() ==> (#[trigger] items@[j])@ == views[j],
                    forall|j: int| 0 <= j < i ==> plain(#[trigger] views[j], (levels - 1) as nat),
                decreases items@.len() - i,
            {
                proof {
                    let at = i as int;
                    assert(items@[at]@ == views[at]);
                    assert(decreases_to!(*json => json->Array_0));
                    assert(decreases_to!(json->Array_0 => json->Array_0@));
                    assert(decreases_to!(json->Array_0@ => json->Array_0@[at]));
                }
                if !is_plain(&items[i], levels - 1) {
                    proof {
                        let doc = JsonView::Array(views);
                        assert(!plain(doc->Array_0[i as int], (levels - 1) as nat));
                        assert(!plain(doc, levels as nat));
                    }
                    return false;
                }
                i += 1;
            }
            true
        },
        Json::Object(entries) => {
            let ghost views = json@->Object_0;
            if levels == 0 {
                return false;
            }
            let mut i: usize = 0;
            while i < entries.len()
                invariant
                    i <= entries@.len(),
                    levels > 0,
                    *json == Json::Object(*entries),
                    json@ == JsonView::Object(views),
                    views.len() == entries@.len(),
                    forall|j: int|
                        0 <= j < entries@.len() ==> (#[trigger] entries@[j]).1@ == views[j].1,
                    forall|j: int|
                        0 <= j < i ==> plain((#[trigger] views[j]).1, (levels - 1) as nat),
                decreases entries@.len() - i,
            {
                proof {
                    let at = i as int;
                    assert(entries@[at].1@ == views[at].1);
                    assert(decreases_to!(*json => json->Object_0));
                    assert(decreases_to!(json->Object_0 => json->Object_0@));
                    assert(decreases_to!(json->Object_0@ => json->Object_0@[at]));
                    assert(decreases_to!(json->Object_0@[at] => json->Object_0@[at].1));
                }
                if !is_plain(&entries[i].1, levels - 1) {
                    proof {
                        let doc = JsonView::Object(views);
                        assert(!plain(doc->Object_0[i as int].1, (levels - 1) as nat));
                        assert(!plain(doc, levels as nat));
                    }
                    return false;
                }
                i += 1;
            }
            true
        },
        _ => true,
    }
}

/// The whole tree of a `serde_json::Value`.
pub fn from_value(value: serde_json::Value) -> (r: Json)
    ensures
        r@ == value_view(value),
        canonical(r@),
    decreases value_view(value),
{
    match open_value(value) {
        Node::Null => Json::Null,
        Node::Bool(b) => Json::Bool(b),
        Node::Number(n) => Json::Number(n),
        Node::Text(s) => Json::Text(s),
        Node::Array(items) => {
            let ghost views = value_view(value)->Array_0;
            let ghost all = items@;
            let mut out: Vec<Json> = Vec::new();
            for item in iter: items
                invariant
                    iter.seq() == all,
                    value_view(value) == JsonView::Array(views),
                    views.len() == all.len(),
                    forall|i: int| 0 <= i < all.len() ==> views[i] == value_view(#[trigger] all[i]),
                    out@.len() == iter.index(),
                    forall|i: int| 0 <= i < out@.len() ==> (#[trigger] out@[i])@ == views[i],
                    forall|i: int| 0 <= i < out@.len() ==> canonical((#[trigger] out@[i])@),
            {
                proof {
                    let at = out@.len() as int;
                    assert(value_view(item) == views[at]);
                    assert(decreases_to!(value_view(value) => value_view(value)->Array_0));
                    assert(decreases_to!(views => views[at]));
                }
                out.push(from_value(item));
            }
            let r = Json::Array(out);
            assert(r@->Array_0 =~= views);
            r
        },
        Node::Object(entries) => {
            let ghost views = value_view(value)->Object_0;
            let ghost all = entries@;
            assert(node_keys(all) =~= keys_of(views));
            let mut out: Vec<(String, Json)> = Vec::new();
            for member in iter: entries
                invariant
                    iter.seq() == all,
                    value_view(value) == JsonView::Object(views),
                    views.len() == all.len(),
                    forall|i: int|
                        0 <= i < all.len() ==> views[i] == ((#[trigger] all[i]).0@, value_view(
                            all[i].1,
                        )),
                    out@.len() == iter.index(),
                    forall|i: int|
                        0 <= i < out@.len() ==> ((#[trigger] out@[i]).0@, out@[i].1@) == views[i],
                    forall|i: int| 0 <= i < out@.len() ==> canonical((#[trigger] out@[i]).1@),
            {
                proof {
                    let at = out@.len() as int;
                    assert(value_view(member.1) == views[at].1);
                    assert(decreases_to!(value_view(value) => value_view(value)->Object_0));
                    assert(decreases_to!(views => views[at]));
                    assert(decreases_to!(views[at] => views[at].1));
                }
                let (key, item) = member;
                out.push((key, from_value(item)));
            }
            let r = Json::Object(out);
            assert(r@->Object_0 =~= views);
            assert forall|i: int| 0 <= i < views.len() implies canonical(
                (#[trigger] views[i]).1,
            ) by {
                assert(canonical(out@[i].1@));
            }
            r
        },
    }
}

/// The `serde_json::Value` of a whole tree.
pub fn into_value(json: Json) -> (r: serde_json::Value)
    requires
        canonical(json@),
    ensures
        value_view(r) == json@,
    decreases json,
{
    match json {
        Json::Null => close_value(Node::Null),
        Json::Bool(b) => close_value(Node::Bool(b)),
        Json::Number(n) => close_value(Node::Number(n)),
        Json::Text(s) => close_value(Node::Text(s)),
        Json::Array(items) => {
            let ghost all = items@;
            let ghost views = json@->Array_0;
            assert forall|i: int| 0 <= i < all.len() implies canonical((#[trigger] all[i])@) by {
                assert(canonical(views[i]));
            }
            let mut out: Vec<serde_json::Value> = Vec::new();
            for item in iter: items
                invariant
                    iter.seq() == all,
                    json == Json::Array(items),
                    items@ == all,
                    views.len() == all.len(),
                    forall|i: int| 0 <= i < all.len() ==> views[i] == (#[trigger] all[i])@,
                    forall|i: int| 0 <= i < all.len() ==> canonical((#[trigger] all[i])@),
                    out@.len() == iter.index(),
                    forall|i: int| 0 <= i < out@.len() ==> value_view(#[trigger] out@[i]) == views[i],
            {
                proof {
                    let at = out@.len() as int;
                    assert(item == all[at]);
                    assert(decreases_to!(json => json->Array_0));
                    assert(decreases_to!(json->Array_0 => json->Array_0@));
                    assert(decreases_to!(json->Array_0@ => json->Array_0@[at]));
                }
                out.push(into_value(item));
            }
            let node = Node::Array(out);
            assert(node@->Array_0 =~= views);
            close_value(node)
        },
        Json::Object(entries) => {
            let ghost all = entries@;
            let ghost views = json@->Object_0;
            assert forall|i: int| 0 <= i < all.len() implies canonical((#[trigger] all[i]).1@) by {
                assert(canonical(views[i].1));
            }
            let mut out: Vec<(String, serde_json::Value)> = Vec::new();
            for member in iter: entries
                invariant
                    iter.seq() == all,
                    json == Json::Object(entries),
                    entries@ == all,
                    views.len() == all.len(),
                    forall|i: int|
                        0 <= i < all.len() ==> views[i] == ((#[trigger] all[i]).0@, all[i].1@),
                    forall|i: int| 0 <= i < all.len() ==> canonical((#[trigger] all[i]).1@),
                    out@.len() == iter.index(),
                    forall|i: int|
                        0 <= i < out@.len() ==> ((#[trigger] out@[i]).0@, value_view(out@[i].1))
                            == views[i],
            {
                proof {
                    let at = out@.len() as int;
                    assert(member == all[at]);
                    assert(decreases_to!(json => json->Object_0));
                    assert(decreases_to!(json->Object_0 => json->Object_0@));
                    assert(decreases_to!(json->Object_0@ => json->Object_0@[at]));
                    assert(decreases_to!(json->Object_0@[at] => json->Object_0@[at].1));
                }
                let (key, item) = member;
                out.push((key, into_value(item)));
            }
            let node = Node::Object(out);
            assert(node@->Object_0 =~= views);
            assert(node_keys(out@) =~= keys_of(views));
            close_value(node)
        },
    }
}

impl Json {
    /// Reads a document.
    pub fn parse(bytes: &[u8]) -> (r: Result<Json, serde_json::Error>)
        ensures
            match r {
                Ok(json) => json_parse(bytes@) == Ok::<JsonView, serde_json::Error>(json@),
                Err(e) => json_parse(bytes@) == Err::<JsonView, serde_json::Error>(e),
            },
            r matches Ok(json) ==> canonical(json@),
    {
        match read_value(bytes) {
            Ok(value) => Ok(from_value(value)),
            Err(e) => Err(e),
        }
    }

    /// Writes a document as compact text, in which no byte is zero.
    pub fn to_vec(self) -> (r: Result<Vec<u8>, serde_json::Error>)
        requires
            canonical(self@),
        ensures
            r is Ok,
            r matches Ok(bytes) ==> bytes@ == json_text(self@),
            r matches Ok(bytes) ==> no_zero(bytes@),
            r matches Ok(bytes) ==> (plain(self@, MAX_NESTING as nat) ==> json_parse(bytes@)
                == Ok::<JsonView, serde_json::Error>(self@)),
    {
        let value = into_value(self);
        write_value(&value)
    }
}

/// A document is plain exactly where each of its numbers is an integer and no part of it
/// stands deeper than the levels that are left.
pub proof fn law_plain_documents(doc: JsonView, levels: nat)
    ensures
        MAX_NESTING == 127,
        match doc {
            JsonView::Number(n) => plain(doc, levels) <==> number_integer(n) is Some,
            JsonView::Array(items) => {
                &&& !plain(doc, 0)
                &&& plain(doc, levels + 1) <==> forall|i: int|
                    0 <= i < items.len() ==> plain(#[trigger] items[i], levels)
            },
            JsonView::Object(entries) => {
                &&& !plain(doc, 0)
                &&& plain(doc, levels + 1) <==> forall|i: int|
                    0 <= i < entries.len() ==> plain((#[trigger] entries[i]).1, levels)
            },
            _ => plain(doc, levels),
        },
{
}

} // verus!
