//! JSON documents.
//!
//! [`Json`] is the tree that the rest of the library reads and builds; its view
//! is a [`JsonView`]. How documents are read from text and written as text is the
//! business of the module `value`.

use vstd::prelude::*;

use crate::text::same_text;

verus! {

/// What a document says: the mathematical model of [`Json`].
///
/// The entries of an object stand in the order in which they are kept.
pub enum JsonView {
    Null,
    Bool(bool),
    Number(serde_json::Number),
    Text(Seq<char>),
    Array(Seq<JsonView>),
    Object(Seq<(Seq<char>, JsonView)>),
}

/// A document. Numbers are carried through and never looked into.
#[derive(Debug, PartialEq)]
pub enum Json {
    Null,
    Bool(bool),
    Number(serde_json::Number),
    Text(String),
    Array(Vec<Json>),
    Object(Vec<(String, Json)>),
}

/// The view of a document.
pub open spec fn json_view(json: Json) -> JsonView
    decreases json,
{
    match json {
        Json::Null => JsonView::Null,
        Json::Bool(b) => JsonView::Bool(b),
        Json::Number(n) => JsonView::Number(n),
        Json::Text(s) => JsonView::Text(s@),
        Json::Array(items) => JsonView::Array(
            Seq::new(
                items@.len(),
                |i: int|
                    if 0 <= i < items@.len() {
                        json_view(items@[i])
                    } else {
                        JsonView::Null
                    },
            ),
        ),
        Json::Object(entries) => JsonView::Object(
            Seq::new(
                entries@.len(),
                |i: int|
                    if 0 <= i < entries@.len() {
                        (entries@[i].0@, json_view(entries@[i].1))
                    } else {
                        (Seq::empty(), JsonView::Null)
                    },
            ),
        ),
    }
}

impl View for Json {
    type V = JsonView;

    open spec fn view(&self) -> JsonView {
        json_view(*self)
    }
}

/// The views of the entries of an object.
pub open spec fn entry_views(entries: Seq<(String, Json)>) -> Seq<(Seq<char>, JsonView)> {
    Seq::new(entries.len(), |i: int| (entries[i].0@, entries[i].1@))
}

pub(crate) proof fn lemma_object_view(entries: Vec<(String, Json)>)
    ensures
        Json::Object(entries)@ == JsonView::Object(entry_views(entries@)),
{
    assert(Json::Object(entries)@->Object_0 =~= entry_views(entries@));
}

/// The first entry under `key`.
pub open spec fn entry(entries: Seq<(Seq<char>, JsonView)>, key: Seq<char>) -> Option<JsonView>
    decreases entries.len(),
{
    if entries.len() == 0 {
        None
    } else if entries[0].0 == key {
        Some(entries[0].1)
    } else {
        entry(entries.drop_first(), key)
    }
}

/// The member `key` of an object; nothing has members but an object.
pub open spec fn member(doc: JsonView, key: Seq<char>) -> Option<JsonView> {
    match doc {
        JsonView::Object(entries) => entry(entries, key),
        _ => None,
    }
}

/// The text of a string; nothing else is text.
pub open spec fn text_of(doc: JsonView) -> Option<Seq<char>> {
    match doc {
        JsonView::Text(s) => Some(s),
        _ => None,
    }
}

/// The text of the member `key`, where that member is a string.
pub open spec fn member_text(doc: JsonView, key: Seq<char>) -> Option<Seq<char>> {
    match member(doc, key) {
        Some(value) => text_of(value),
        None => None,
    }
}

/// `a` comes before `b`, scalar value by scalar value, a proper prefix first.
pub open spec fn text_before(a: Seq<char>, b: Seq<char>) -> bool
    decreases a.len(),
{
    if b.len() == 0 {
        false
    } else if a.len() == 0 {
        true
    } else {
        a[0] < b[0] || (a[0] == b[0] && text_before(a.drop_first(), b.drop_first()))
    }
}

/// Each key comes before the next one.
pub open spec fn keys_ascend(keys: Seq<Seq<char>>) -> bool {
    forall|i: int| 1 <= i < keys.len() ==> text_before(keys[i - 1], #[trigger] keys[i])
}

/// The keys of an object, in order.
pub open spec fn keys_of<T>(entries: Seq<(Seq<char>, T)>) -> Seq<Seq<char>> {
    Seq::new(entries.len(), |i: int| entries[i].0)
}

/// In every object of the document the keys ascend, so that none occurs twice.
pub open spec fn canonical(doc: JsonView) -> bool
    decreases doc,
{
    match doc {
        JsonView::Array(items) => forall|i: int|
            0 <= i < items.len() ==> canonical(#[trigger] items[i]),
        JsonView::Object(entries) => {
            &&& keys_ascend(keys_of(entries))
            &&& forall|i: int| 0 <= i < entries.len() ==> canonical((#[trigger] entries[i]).1)
        },
        _ => true,
    }
}

proof fn lemma_entry_first(entries: Seq<(Seq<char>, JsonView)>, key: Seq<char>, at: int)
    requires
        0 <= at < entries.len(),
        entries[at].0 == key,
        forall|j: int| 0 <= j < at ==> (#[trigger] entries[j]).0 != key,
    ensures
        entry(entries, key) == Some(entries[at].1),
    decreases entries.len(),
{
    if at > 0 {
        assert(entries[0].0 != key);
        lemma_entry_first(entries.drop_first(), key, at - 1);
    }
}

proof fn lemma_entry_absent(entries: Seq<(Seq<char>, JsonView)>, key: Seq<char>)
    requires
        forall|j: int| 0 <= j < entries.len() ==> (#[trigger] entries[j]).0 != key,
    ensures
        entry(entries, key) is None,
    decreases entries.len(),
{
    if entries.len() > 0 {
        assert(entries[0].0 != key);
        lemma_entry_absent(entries.drop_first(), key);
    }
}

/// Where the first entry under `key` stands.
pub(crate) fn find(entries: &Vec<(String, Json)>, key: &str) -> (r: Option<usize>)
    ensures
        r matches Some(at) ==> {
            &&& at < entries@.len()
            &&& entries@[at as int].0@ == key@
            &&& forall|j: int| 0 <= j < at ==> (#[trigger] entries@[j]).0@ != key@
            &&& entry(entry_views(entries@), key@) == Some(entries@[at as int].1@)
        },
        r is None ==> {
            &&& forall|j: int| 0 <= j < entries@.len() ==> (#[trigger] entries@[j]).0@ != key@
            &&& entry(entry_views(entries@), key@) is None
        },
{
    let mut i: usize = 0;
    while i < entries.len()
        invariant
            i <= entries@.len(),
            forall|j: int| 0 <= j < i ==> (#[trigger] entries@[j]).0@ != key@,
        decreases entries@.len() - i,
    {
        if same_text(entries[i].0.as_str(), key) {
            proof {
                let views = entry_views(entries@);
                assert forall|j: int| 0 <= j < i implies (#[trigger] views[j]).0 != key@ by {
                    assert(entries@[j].0@ != key@);
                }
                lemma_entry_first(views, key@, i as int);
            }
            return Some(i);
        }
        i += 1;
    }
    proof {
        let views = entry_views(entries@);
        assert forall|j: int| 0 <= j < views.len() implies (#[trigger] views[j]).0 != key@ by {
            assert(entries@[j].0@ != key@);
        }
        lemma_entry_absent(views, key@);
    }
    None
}

impl Json {
    /// A string.
    pub fn text(s: &str) -> (r: Json)
        ensures
            r@ == JsonView::Text(s@),
            r is Text && r->Text_0@ == s@,
    {
        Json::Text(s.to_owned())
    }

    /// An object with these entries, in this order.
    pub fn object(entries: Vec<(String, Json)>) -> (r: Json)
        ensures
            r@ == JsonView::Object(entry_views(entries@)),
            r == Json::Object(entries),
    {
        proof {
            lemma_object_view(entries);
        }
        Json::Object(entries)
    }

    /// The member `key`, where this is an object that has one.
    pub fn get(&self, key: &str) -> (r: Option<&Json>)
        ensures
            r is Some <==> member(self@, key@) is Some,
            r matches Some(value) ==> member(self@, key@) == Some(value@),
            match *self {
                Json::Object(entries) => {
                    &&& forall|i: int|
                        0 <= i < entries@.len() && (#[trigger] entries@[i]).0@ == key@ && (forall|j: int|
                        0 <= j < i ==> (#[trigger] entries@[j]).0@ != key@) ==> r == Some(&entries@[i].1)
                    &&& (forall|j: int|
                        0 <= j < entries@.len() ==> (#[trigger] entries@[j]).0@ != key@)
                        ==> r is None
                },
                _ => r is None,
            },
    {
        match self {
            Json::Object(entries) => {
                proof {
                    lemma_object_view(*entries);
                }
                match find(entries, key) {
                    Some(at) => Some(&entries[at].1),
                    None => None,
                }
            },
            _ => None,
        }
    }

    /// The text, where this is a string.
    pub fn as_str(&self) -> (r: Option<&str>)
        ensures
            r is Some <==> text_of(self@) is Some,
            r matches Some(s) ==> text_of(self@) == Some(s@),
            match *self {
                Json::Text(s) => r is Some && r->0@ == s@,
                _ => r is None,
            },
    {
        match self {
            Json::Text(s) => Some(s.as_str()),
            _ => None,
        }
    }

    /// The text of the member `key`, where that member is a string.
    pub fn get_str(&self, key: &str) -> (r: Option<&str>)
        ensures
            r is Some <==> member_text(self@, key@) is Some,
            r matches Some(s) ==> member_text(self@, key@) == Some(s@),
            match *self {
                Json::Object(entries) => {
                    &&& forall|i: int|
                        0 <= i < entries@.len() && (#[trigger] entries@[i]).0@ == key@ && (forall|j: int|
                        0 <= j < i ==> (#[trigger] entries@[j]).0@ != key@) ==> match entries@[i].1 {
                        Json::Text(s) => r is Some && r->0@ == s@,
                        _ => r is None,
                    }
                    &&& (forall|j: int|
                        0 <= j < entries@.len() ==> (#[trigger] entries@[j]).0@ != key@)
                        ==> r is None
                },
                _ => r is None,
            },
    {
        match self.get(key) {
            Some(value) => value.as_str(),
            None => None,
        }
    }

    /// Takes the member `key` out of the document, where there is one.
    pub fn into_member(self, key: &str) -> (r: Option<Json>)
        ensures
            r is Some <==> member(self@, key@) is Some,
            r matches Some(value) ==> member(self@, key@) == Some(value@),
            match self {
                Json::Object(entries) => {
                    &&& forall|i: int|
                        0 <= i < entries@.len() && (#[trigger] entries@[i]).0@ == key@ && (forall|j: int|
                        0 <= j < i ==> (#[trigger] entries@[j]).0@ != key@) ==> r == Some(entries@[i].1)
                    &&& (forall|j: int|
                        0 <= j < entries@.len() ==> (#[trigger] entries@[j]).0@ != key@)
                        ==> r is None
                },
                _ => r is None,
            },
    {
        match self {
            Json::Object(entries) => {
                proof {
                    lemma_object_view(entries);
                }
                let mut entries = entries;
                match find(&entries, key) {
                    Some(at) => {
                        let found = entries.swap_remove(at);
                        Some(found.1)
                    },
                    None => None,
                }
            },
            _ => None,
        }
    }
}

/// The model of a document holds what the document holds, level by level: the same
/// scalar, the same items in the same order, the same keys with the same values.
pub proof fn law_model_of_a_document(json: Json)
    ensures
        match json {
            Json::Null => json@ == JsonView::Null,
            Json::Bool(b) => json@ == JsonView::Bool(b),
            Json::Number(n) => json@ == JsonView::Number(n),
            Json::Text(s) => json@ == JsonView::Text(s@),
            Json::Array(items) => {
                &&& json@ is Array
                &&& json@->Array_0.len() == items@.len()
                &&& forall|i: int|
                    0 <= i < items@.len() ==> #[trigger] json@->Array_0[i] == items@[i]@
            },
            Json::Object(entries) => {
                &&& json@ is Object
                &&& json@->Object_0.len() == entries@.len()
                &&& forall|i: int|
                    0 <= i < entries@.len() ==> #[trigger] json@->Object_0[i] == (
                        entries@[i].0@,
                        entries@[i].1@,
                    )
            },
        },
{
}

/// A list of entries is modelled entry by entry.
pub proof fn law_model_of_entries(entries: Seq<(String, Json)>, i: int)
    requires
        0 <= i < entries.len(),
    ensures
        entry_views(entries).len() == entries.len(),
        entry_views(entries)[i] == (entries[i].0@, entries[i].1@),
        keys_of(entry_views(entries)).len() == entries.len(),
        keys_of(entry_views(entries))[i] == entries[i].0@,
{
}

/// What stands first under a key is the member of that key, whatever stands before it
/// under other keys and whatever stands behind it; its text is what it says where it is
/// a string, and it has none where it is anything else.
pub proof fn law_member_is_the_first_entry(
    entries: Seq<(Seq<char>, JsonView)>,
    key: Seq<char>,
    at: int,
)
    requires
        0 <= at < entries.len(),
        entries[at].0 == key,
        forall|j: int| 0 <= j < at ==> (#[trigger] entries[j]).0 != key,
    ensures
        entry(entries, key) == Some(entries[at].1),
        member(JsonView::Object(entries), key) == Some(entries[at].1),
        match entries[at].1 {
            JsonView::Text(s) => member_text(JsonView::Object(entries), key) == Some(s),
            _ => member_text(JsonView::Object(entries), key) is None,
        },
{
    lemma_entry_first(entries, key, at);
}

/// There is no member where nothing stands under the key.
pub proof fn law_no_member_without_an_entry(entries: Seq<(Seq<char>, JsonView)>, key: Seq<char>)
    requires
        forall|j: int| 0 <= j < entries.len() ==> (#[trigger] entries[j]).0 != key,
    ensures
        entry(entries, key) is None,
        member(JsonView::Object(entries), key) is None,
        member_text(JsonView::Object(entries), key) is None,
{
    lemma_entry_absent(entries, key);
}

/// Nothing but an object has members, and nothing but a string is text.
pub proof fn law_members_and_text_of_other_documents(doc: JsonView, key: Seq<char>)
    ensures
        !(doc is Object) ==> member(doc, key) is None && member_text(doc, key) is None,
        match doc {
            JsonView::Text(s) => text_of(doc) == Some(s),
            _ => text_of(doc) is None,
        },
{
}

/// Of two texts the one comes first that is smaller at the first difference, or that is
/// the whole beginning of the other.
pub proof fn law_order_of_texts(a: Seq<char>, b: Seq<char>)
    ensures
        text_before(a, b) <==> exists|k: int|
            0 <= k <= a.len() && k < b.len() && #[trigger] a.take(k) == b.take(k) && (k == a.len()
                || a[k] < b[k]),
    decreases a.len(),
{
    if b.len() > 0 && a.len() > 0 {
        let a1 = a.drop_first();
        let b1 = b.drop_first();
        law_order_of_texts(a1, b1);
        if text_before(a, b) {
            if a[0] < b[0] {
                assert(a.take(0) =~= b.take(0));
            } else {
                let k = choose|k: int|
                    0 <= k <= a1.len() && k < b1.len() && #[trigger] a1.take(k) == b1.take(k) && (k
                        == a1.len() || a1[k] < b1[k]);
                assert forall|i: int| 0 <= i < k + 1 implies a[i] == b[i] by {
                    if i > 0 {
                        assert(a1.take(k)[i - 1] == b1.take(k)[i - 1]);
                    }
                }
                assert(a.take(k + 1) =~= b.take(k + 1));
            }
        }
        if exists|k: int|
            0 <= k <= a.len() && k < b.len() && #[trigger] a.take(k) == b.take(k) && (k == a.len()
                || a[k] < b[k]) {
            let k = choose|k: int|
                0 <= k <= a.len() && k < b.len() && #[trigger] a.take(k) == b.take(k) && (k
                    == a.len() || a[k] < b[k]);
            if k > 0 {
                assert(a.take(k)[0] == b.take(k)[0]);
                assert forall|i: int| 0 <= i < k - 1 implies a1[i] == b1[i] by {
                    assert(a.take(k)[i + 1] == b.take(k)[i + 1]);
                }
                assert(a1.take(k - 1) =~= b1.take(k - 1));
            }
        }
    } else if a.len() == 0 && b.len() > 0 {
        assert(a.take(0) =~= b.take(0));
    }
}

proof fn lemma_order_is_transitive(a: Seq<char>, b: Seq<char>, c: Seq<char>)
    requires
        text_before(a, b),
        text_before(b, c),
    ensures
        text_before(a, c),
        a != c,
    decreases a.len(),
{
    if a.len() > 0 && a[0] == b[0] && b[0] == c[0] {
        lemma_order_is_transitive(a.drop_first(), b.drop_first(), c.drop_first());
    }
}

proof fn lemma_order_is_strict(a: Seq<char>)
    ensures
        !text_before(a, a),
    decreases a.len(),
{
    if a.len() > 0 {
        lemma_order_is_strict(a.drop_first());
    }
}

proof fn lemma_ascending(keys: Seq<Seq<char>>, i: int, j: int)
    requires
        forall|k: int| 1 <= k < keys.len() ==> text_before(keys[k - 1], #[trigger] keys[k]),
        0 <= i < j < keys.len(),
    ensures
        text_before(keys[i], keys[j]),
        keys[i] != keys[j],
    decreases j - i,
{
    assert(text_before(keys[j - 1], keys[j]));
    if i + 1 < j {
        lemma_ascending(keys, i, j - 1);
        lemma_order_is_transitive(keys[i], keys[j - 1], keys[j]);
    } else {
        lemma_order_is_strict(keys[i]);
    }
}

/// A document is canonical exactly where its parts are and, if it is an object, every
/// key comes before all that follow it; then no key occurs twice.
pub proof fn law_canonical_documents(doc: JsonView)
    ensures
        match doc {
            JsonView::Array(items) => canonical(doc) <==> forall|i: int|
                0 <= i < items.len() ==> canonical(#[trigger] items[i]),
            JsonView::Object(entries) => {
                &&& canonical(doc) <==> {
                    &&& forall|i: int, j: int|
                        0 <= i < j < entries.len() ==> text_before(
                            (#[trigger] entries[i]).0,
                            (#[trigger] entries[j]).0,
                        )
                    &&& forall|i: int| 0 <= i < entries.len() ==> canonical((#[trigger] entries[i]).1)
                }
                &&& canonical(doc) ==> forall|i: int, j: int|
                    0 <= i < j < entries.len() ==> (#[trigger] entries[i]).0 != (
                    #[trigger] entries[j]).0
            },
            _ => canonical(doc),
        },
{
    if let JsonView::Object(entries) = doc {
        let keys = keys_of(entries);
        if canonical(doc) {
            assert forall|i: int, j: int| 0 <= i < j < entries.len() implies text_before(
                (#[trigger] entries[i]).0,
                (#[trigger] entries[j]).0,
            ) && entries[i].0 != entries[j].0 by {
                lemma_ascending(keys, i, j);
                assert(keys[i] == entries[i].0 && keys[j] == entries[j].0);
            }
        }
        if forall|i: int, j: int|
            0 <= i < j < entries.len() ==> text_before(
                (#[trigger] entries[i]).0,
                (#[trigger] entries[j]).0,
            ) {
            assert forall|i: int| 1 <= i < keys.len() implies text_before(
                keys[i - 1],
                #[trigger] keys[i],
            ) by {
                assert(keys[i - 1] == entries[i - 1].0 && keys[i] == entries[i].0);
            }
        }
    }
}

} // verus!
