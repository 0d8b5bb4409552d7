//! Derivations as JSON documents.

use vstd::prelude::*;

use crate::json::Json;
use crate::json::JsonView;
use crate::json::canonical;
use crate::json::entry;
use crate::json::entry_views;
use crate::json::find;
use crate::json::keys_of;
use crate::json::law_member_is_the_first_entry;
use crate::json::law_no_member_without_an_entry;
use crate::json::member;
use crate::json::lemma_object_view;
use crate::text::same_text;
use crate::value::from_value;
use crate::value::value_view;

verus! {

/// `harmonia_store_core::derivation::DerivationT`, carried through as an opaque
/// value.
#[verifier::external_type_specification]
#[verifier::external_body]
#[verifier::reject_recursive_types(Inputs)]
pub struct ExDerivationT<Inputs>(harmonia_store_core::derivation::DerivationT<Inputs>);

/// `harmonia_store_core::derived_path::SingleDerivedPath`, carried through as an
/// opaque value.
#[verifier::external_type_specification]
#[verifier::external_body]
pub struct ExSingleDerivedPath(harmonia_store_core::derived_path::SingleDerivedPath);

/// The document that `serde_json::to_value` makes of a derivation, which is the
/// derivation in version 4 of its JSON format, or the error that it gives.
pub uninterp spec fn derivation_doc(drv: harmonia_store_core::derivation::Derivation) -> Result<
    JsonView,
    serde_json::Error,
>;

/// `serde_json::to_value` on a `harmonia_store_core` derivation. The document, or the
/// error where there is none, depends on the derivation alone; it is named, not
/// stated.
#[verifier::external_body]
fn derivation_value(drv: &harmonia_store_core::derivation::Derivation) -> (r: Result<
    serde_json::Value,
    serde_json::Error,
>)
    ensures
        match r {
            Ok(value) => derivation_doc(*drv) == Ok::<JsonView, serde_json::Error>(
                value_view(value),
            ),
            Err(e) => derivation_doc(*drv) == Err::<JsonView, serde_json::Error>(e),
        },
{
    serde_json::to_value(drv)
}

/// The entries with `value` in the first entry under `key`.
pub open spec fn set_entry(
    entries: Seq<(Seq<char>, JsonView)>,
    key: Seq<char>,
    value: JsonView,
) -> Seq<(Seq<char>, JsonView)>
    decreases entries.len(),
{
    if entries.len() == 0 {
        entries
    } else if entries[0].0 == key {
        entries.update(0, (key, value))
    } else {
        seq![entries[0]] + set_entry(entries.drop_first(), key, value)
    }
}

/// An output whose content-address method is spelled `r` has it spelled `nar`
/// instead; any other output is left alone.
pub open spec fn normalized_output(output: JsonView) -> JsonView {
    match output {
        JsonView::Object(members) => if entry(members, "method"@) == Some(JsonView::Text("r"@)) {
            JsonView::Object(set_entry(members, "method"@, JsonView::Text("nar"@)))
        } else {
            output
        },
        _ => output,
    }
}

/// The outputs, each normalized, under their names.
pub open spec fn normalized_outputs(outputs: Seq<(Seq<char>, JsonView)>) -> Seq<
    (Seq<char>, JsonView),
> {
    Seq::new(outputs.len(), |i: int| (outputs[i].0, normalized_output(outputs[i].1)))
}

/// A derivation with its outputs normalized; a document without an `outputs` object
/// is left alone.
pub open spec fn normalized(drv: JsonView) -> JsonView {
    match drv {
        JsonView::Object(members) => match entry(members, "outputs"@) {
            Some(JsonView::Object(outputs)) => JsonView::Object(
                set_entry(members, "outputs"@, JsonView::Object(normalized_outputs(outputs))),
            ),
            _ => drv,
        },
        _ => drv,
    }
}

proof fn lemma_set_entry_at(
    entries: Seq<(Seq<char>, JsonView)>,
    key: Seq<char>,
    value: JsonView,
    at: int,
)
    requires
        0 <= at < entries.len(),
        entries[at].0 == key,
        forall|j: int| 0 <= j < at ==> (#[trigger] entries[j]).0 != key,
    ensures
        set_entry(entries, key, value) == entries.update(at, (key, value)),
    decreases entries.len(),
{
    if at > 0 {
        assert(entries[0].0 != key);
        lemma_set_entry_at(entries.drop_first(), key, value, at - 1);
        assert(seq![entries[0]] + entries.drop_first().update(at - 1, (key, value))
            =~= entries.update(at, (key, value)));
    }
}

/// Spells the method of one output as `nar` where it is spelled `r`.
fn normalize_output(output: &mut Json)
    ensures
        final(output)@ == normalized_output(old(output)@),
{
    match output {
        Json::Object(members) => {
            proof {
                lemma_object_view(*members);
            }
            let ghost before = members@;
            if let Some(at) = find(members, "method") {
                let recursive = match &members[at].1 {
                    Json::Text(method) => same_text(method.as_str(), "r"),
                    _ => false,
                };
                if recursive {
                    members[at].1 = Json::Text("nar".to_owned());
                    proof {
                        let value = JsonView::Text("nar"@);
                        lemma_set_entry_at(entry_views(before), "method"@, value, at as int);
                        lemma_object_view(*members);
                        assert(entry_views(members@) =~= entry_views(before).update(
                            at as int,
                            ("method"@, value),
                        ));
                    }
                }
            }
        },
        _ => {},
    }
}

/// Spells the method of each output as `nar` where it is spelled `r`.
fn normalize_outputs(outputs: &mut Vec<(String, Json)>)
    ensures
        entry_views(final(outputs)@) == normalized_outputs(entry_views(old(outputs)@)),
{
    let ghost before = outputs@;
    let mut i: usize = 0;
    while i < outputs.len()
        invariant
            i <= outputs@.len(),
            outputs@.len() == before.len(),
            forall|j: int| 0 <= j < outputs@.len() ==> (#[trigger] outputs@[j]).0 == before[j].0,
            forall|j: int|
                0 <= j < i ==> (#[trigger] outputs@[j]).1@ == normalized_output(before[j].1@),
            forall|j: int| i <= j < outputs@.len() ==> (#[trigger] outputs@[j]).1 == before[j].1,
        decreases outputs@.len() - i,
    {
        normalize_output(&mut outputs[i].1);
        i += 1;
    }
    assert(entry_views(outputs@) =~= normalized_outputs(entry_views(before)));
}

/// Rewrites legacy method spellings in the outputs of a derivation.
///
/// A recursive content-addressed output has been written `{ "method": "r" }`; the
/// interface spells that method `nar`. Servers may come to accept the latter alone,
/// so that it is what goes over the wire.
pub fn translate_derivation_methods(drv: &mut Json)
    ensures
        final(drv)@ == normalized(old(drv)@),
{
    match drv {
        Json::Object(members) => {
            proof {
                lemma_object_view(*members);
            }
            let ghost before = members@;
            if let Some(at) = find(members, "outputs") {
                let ghost old_outputs = members@[at as int].1;
                match &mut members[at].1 {
                    Json::Object(outputs) => {
                        proof {
                            lemma_object_view(*outputs);
                        }
                        normalize_outputs(outputs);
                        proof {
                            lemma_object_view(*outputs);
                        }
                    },
                    _ => {},
                }
                proof {
                    lemma_object_view(*members);
                    match old_outputs {
                        Json::Object(outputs) => {
                            let value = JsonView::Object(
                                normalized_outputs(entry_views(outputs@)),
                            );
                            assert(members@[at as int].1@ == value);
                            lemma_set_entry_at(entry_views(before), "outputs"@, value, at as int);
                            assert(entry_views(members@) =~= entry_views(before).update(
                                at as int,
                                ("outputs"@, value),
                            ));
                        },
                        _ => {
                            assert(entry_views(members@) =~= entry_views(before));
                        },
                    }
                }
            }
        },
        _ => {},
    }
}

/// A derivation as the interface wants it: its document, normalized.
pub fn derivation_json(drv: &harmonia_store_core::derivation::Derivation) -> (r: Result<
    Json,
    serde_json::Error,
>)
    ensures
        match derivation_doc(*drv) {
            Ok(doc) => r is Ok && r->Ok_0@ == normalized(doc),
            Err(e) => r == Err::<Json, serde_json::Error>(e),
        },
        r matches Ok(json) ==> canonical(json@),
{
    match derivation_value(drv) {
        Ok(value) => {
            let mut json = from_value(value);
            proof {
                law_normalized_stays_canonical(json@);
            }
            translate_derivation_methods(&mut json);
            Ok(json)
        },
        Err(e) => Err(e),
    }
}

proof fn lemma_entry_of_set(
    entries: Seq<(Seq<char>, JsonView)>,
    key: Seq<char>,
    value: JsonView,
    other: Seq<char>,
)
    ensures
        entry(set_entry(entries, key, value), other) == if other == key && entry(entries, key) is Some {
            Some(value)
        } else {
            entry(entries, other)
        },
        set_entry(set_entry(entries, key, value), key, value) == set_entry(entries, key, value),
        keys_of(set_entry(entries, key, value)) == keys_of(entries),
        set_entry(entries, key, value).len() == entries.len(),
        forall|i: int|
            0 <= i < entries.len() ==> {
                ||| (#[trigger] set_entry(entries, key, value)[i]).1 == entries[i].1
                ||| set_entry(entries, key, value)[i].1 == value
            },
    decreases entries.len(),
{
    let set = set_entry(entries, key, value);
    if entries.len() > 0 {
        let rest = entries.drop_first();
        if entries[0].0 == key {
            assert(set.drop_first() =~= rest);
            assert(set.update(0, (key, value)) =~= set);
        } else {
            lemma_entry_of_set(rest, key, value, other);
            let set_rest = set_entry(rest, key, value);
            assert(set.drop_first() =~= set_rest);
            assert forall|i: int| 0 <= i < entries.len() implies {
                ||| (#[trigger] set[i]).1 == entries[i].1
                ||| set[i].1 == value
            } by {
                if i > 0 {
                    assert(set[i] == set_rest[i - 1]);
                    assert(entries[i] == rest[i - 1]);
                }
            }
            assert forall|i: int| 0 <= i < entries.len() implies set[i].0 == entries[i].0 by {
                if i > 0 {
                    assert(set[i] == set_rest[i - 1]);
                    assert(keys_of(set_rest)[i - 1] == keys_of(rest)[i - 1]);
                }
            }
        }
        assert(keys_of(set) =~= keys_of(entries));
    }
}

/// Of one output, normalizing changes the method alone, and that only where it is
/// spelled `r`; afterwards it is not spelled so.
pub proof fn law_normalized_output(output: JsonView, key: Seq<char>)
    ensures
        key != "method"@ ==> member(normalized_output(output), key) == member(output, key),
        member(normalized_output(output), "method"@) == if member(output, "method"@) == Some(
            JsonView::Text("r"@),
        ) {
            Some(JsonView::Text("nar"@))
        } else {
            member(output, "method"@)
        },
        member(normalized_output(output), "method"@) != Some(JsonView::Text("r"@)),
        normalized_output(normalized_output(output)) == normalized_output(output),
{
    reveal_strlit("r");
    reveal_strlit("nar");
    assert("r"@.len() != "nar"@.len());
    match output {
        JsonView::Object(members) => {
            lemma_entry_of_set(members, "method"@, JsonView::Text("nar"@), key);
            lemma_entry_of_set(members, "method"@, JsonView::Text("nar"@), "method"@);
        },
        _ => {},
    }
}

/// Normalizing a derivation changes its outputs alone: every other member stays, the
/// outputs keep their names and their order, and each is normalized by itself.
pub proof fn law_normalized_changes_outputs_alone(drv: JsonView, key: Seq<char>)
    ensures
        key != "outputs"@ ==> member(normalized(drv), key) == member(drv, key),
        match member(drv, "outputs"@) {
            Some(JsonView::Object(outputs)) => member(normalized(drv), "outputs"@) == Some(
                JsonView::Object(normalized_outputs(outputs)),
            ),
            other => normalized(drv) == drv,
        },
{
    match drv {
        JsonView::Object(members) => match entry(members, "outputs"@) {
            Some(JsonView::Object(outputs)) => {
                let value = JsonView::Object(normalized_outputs(outputs));
                lemma_entry_of_set(members, "outputs"@, value, key);
                lemma_entry_of_set(members, "outputs"@, value, "outputs"@);
            },
            _ => {},
        },
        _ => {},
    }
}

/// No output of a normalized derivation has its method spelled `r`.
pub proof fn law_no_legacy_method_is_left(drv: JsonView)
    ensures
        match member(normalized(drv), "outputs"@) {
            Some(JsonView::Object(outputs)) => forall|i: int|
                0 <= i < outputs.len() ==> member((#[trigger] outputs[i]).1, "method"@) != Some(
                    JsonView::Text("r"@),
                ),
            _ => true,
        },
{
    law_normalized_changes_outputs_alone(drv, "outputs"@);
    match member(drv, "outputs"@) {
        Some(JsonView::Object(outputs)) => {
            let now = normalized_outputs(outputs);
            assert forall|i: int| 0 <= i < now.len() implies member(
                (#[trigger] now[i]).1,
                "method"@,
            ) != Some(JsonView::Text("r"@)) by {
                law_normalized_output(outputs[i].1, "method"@);
            }
        },
        _ => {},
    }
}

/// A derivation that is normalized already stays as it is.
pub proof fn law_normalized_is_stable(drv: JsonView)
    ensures
        normalized(normalized(drv)) == normalized(drv),
{
    match drv {
        JsonView::Object(members) => match entry(members, "outputs"@) {
            Some(JsonView::Object(outputs)) => {
                let once = normalized_outputs(outputs);
                assert forall|i: int| 0 <= i < outputs.len() implies normalized_outputs(once)[i]
                    == once[i] by {
                    law_normalized_output(outputs[i].1, "method"@);
                }
                assert(normalized_outputs(once) =~= once);
                lemma_entry_of_set(members, "outputs"@, JsonView::Object(once), "outputs"@);
            },
            _ => {},
        },
        _ => {},
    }
}

/// Normalizing keeps the keys of every object in order.
pub proof fn law_normalized_stays_canonical(drv: JsonView)
    requires
        canonical(drv),
    ensures
        canonical(normalized(drv)),
{
    match drv {
        JsonView::Object(members) => match entry(members, "outputs"@) {
            Some(JsonView::Object(outputs)) => {
                lemma_entry_canonical(members, "outputs"@);
                let value = JsonView::Object(normalized_outputs(outputs));
                assert(keys_of(normalized_outputs(outputs)) =~= keys_of(outputs));
                assert forall|i: int| 0 <= i < outputs.len() implies canonical(
                    (#[trigger] normalized_outputs(outputs)[i]).1,
                ) by {
                    assert(canonical(outputs[i].1));
                    lemma_output_canonical(outputs[i].1);
                }
                assert(canonical(value));
                lemma_set_canonical(members, "outputs"@, value);
            },
            _ => {},
        },
        _ => {},
    }
}

proof fn lemma_output_canonical(output: JsonView)
    requires
        canonical(output),
    ensures
        canonical(normalized_output(output)),
{
    match output {
        JsonView::Object(members) => {
            lemma_set_canonical(members, "method"@, JsonView::Text("nar"@));
        },
        _ => {},
    }
}

proof fn lemma_set_canonical(
    members: Seq<(Seq<char>, JsonView)>,
    key: Seq<char>,
    value: JsonView,
)
    requires
        canonical(JsonView::Object(members)),
        canonical(value),
    ensures
        canonical(JsonView::Object(set_entry(members, key, value))),
{
    let set = set_entry(members, key, value);
    lemma_entry_of_set(members, key, value, key);
    assert forall|i: int| 0 <= i < set.len() implies canonical((#[trigger] set[i]).1) by {
        assert(canonical(members[i].1));
    }
}

proof fn lemma_entry_canonical(members: Seq<(Seq<char>, JsonView)>, key: Seq<char>)
    requires
        forall|i: int| 0 <= i < members.len() ==> canonical((#[trigger] members[i]).1),
        entry(members, key) is Some,
    ensures
        canonical(entry(members, key)->0),
    decreases members.len(),
{
    if members[0].0 == key {
        assert(canonical(members[0].1));
    } else {
        let rest = members.drop_first();
        assert forall|i: int| 0 <= i < rest.len() implies canonical((#[trigger] rest[i]).1) by {
            assert(rest[i] == members[i + 1]);
        }
        lemma_entry_canonical(rest, key);
    }
}

/// Where a derivation has an `outputs` object, translating it gives a derivation with
/// the same members at the same places but for that object, which has the same names in
/// the same order. In each output that is an object, the first member `method` says `nar`
/// where it said `r`; every other member, and every output that is no object, is what it
/// was.
pub proof fn law_outputs_are_translated_member_by_member(
    members: Seq<(Seq<char>, JsonView)>,
    at: int,
    outputs: Seq<(Seq<char>, JsonView)>,
)
    requires
        0 <= at < members.len(),
        members[at] == ("outputs"@, JsonView::Object(outputs)),
        forall|j: int| 0 <= j < at ==> (#[trigger] members[j]).0 != "outputs"@,
    ensures
        ({
            let translated = normalized(JsonView::Object(members));
            let now = translated->Object_0;
            let after = now[at].1->Object_0;
            &&& translated is Object
            &&& now.len() == members.len()
            &&& forall|j: int| 0 <= j < members.len() && j != at ==> #[trigger] now[j] == members[j]
            &&& now[at].0 == "outputs"@
            &&& now[at].1 is Object
            &&& after.len() == outputs.len()
            &&& forall|i: int| 0 <= i < outputs.len() ==> (#[trigger] after[i]).0 == outputs[i].0
            &&& forall|i: int|
                0 <= i < outputs.len() ==> match outputs[i].1 {
                    JsonView::Object(was) => {
                        let is = (#[trigger] after[i]).1->Object_0;
                        &&& after[i].1 is Object
                        &&& is.len() == was.len()
                        &&& forall|m: int|
                            0 <= m < was.len() ==> #[trigger] is[m] == if was[m] == (
                                "method"@,
                                JsonView::Text("r"@),
                            ) && (forall|l: int|
                                0 <= l < m ==> (#[trigger] was[l]).0 != "method"@) {
                                ("method"@, JsonView::Text("nar"@))
                            } else {
                                was[m]
                            }
                    },
                    other => after[i].1 == other,
                }
        }),
{
    lemma_object_entry(members, "outputs"@, at);
    let value = JsonView::Object(normalized_outputs(outputs));
    lemma_set_entry_at(members, "outputs"@, value, at);
    let after = normalized_outputs(outputs);
    assert forall|i: int| 0 <= i < outputs.len() implies match outputs[i].1 {
        JsonView::Object(was) => {
            let is = (#[trigger] after[i]).1->Object_0;
            &&& after[i].1 is Object
            &&& is.len() == was.len()
            &&& forall|m: int|
                0 <= m < was.len() ==> #[trigger] is[m] == if was[m] == (
                    "method"@,
                    JsonView::Text("r"@),
                ) && (forall|l: int| 0 <= l < m ==> (#[trigger] was[l]).0 != "method"@) {
                    ("method"@, JsonView::Text("nar"@))
                } else {
                    was[m]
                }
        },
        other => after[i].1 == other,
    } by {
        if let JsonView::Object(was) = outputs[i].1 {
            lemma_translated_output(was);
        }
    }
}

proof fn lemma_object_entry(entries: Seq<(Seq<char>, JsonView)>, key: Seq<char>, at: int)
    requires
        0 <= at < entries.len(),
        entries[at].0 == key,
        forall|j: int| 0 <= j < at ==> (#[trigger] entries[j]).0 != key,
    ensures
        entry(entries, key) == Some(entries[at].1),
{
    law_member_is_the_first_entry(entries, key, at);
}

proof fn lemma_translated_output(was: Seq<(Seq<char>, JsonView)>)
    ensures
        ({
            let is = normalized_output(JsonView::Object(was))->Object_0;
            &&& normalized_output(JsonView::Object(was)) is Object
            &&& is.len() == was.len()
            &&& forall|m: int|
                0 <= m < was.len() ==> #[trigger] is[m] == if was[m] == (
                    "method"@,
                    JsonView::Text("r"@),
                ) && (forall|l: int| 0 <= l < m ==> (#[trigger] was[l]).0 != "method"@) {
                    ("method"@, JsonView::Text("nar"@))
                } else {
                    was[m]
                }
        }),
{
    let nar = JsonView::Text("nar"@);
    let is = normalized_output(JsonView::Object(was))->Object_0;
    if exists|m: int| 0 <= m < was.len() && (#[trigger] was[m]).0 == "method"@ {
        let first = lemma_first_under(was, "method"@);
        lemma_object_entry(was, "method"@, first);
        lemma_set_entry_at(was, "method"@, nar, first);
        assert forall|m: int| 0 <= m < was.len() implies #[trigger] is[m] == if was[m] == (
            "method"@,
            JsonView::Text("r"@),
        ) && (forall|l: int| 0 <= l < m ==> (#[trigger] was[l]).0 != "method"@) {
            ("method"@, nar)
        } else {
            was[m]
        } by {
            if m > first {
                assert(was[first].0 == "method"@);
            }
        }
    } else {
        law_no_member_without_an_entry(was, "method"@);
    }
}

proof fn lemma_first_under(entries: Seq<(Seq<char>, JsonView)>, key: Seq<char>) -> (at: int)
    requires
        exists|m: int| 0 <= m < entries.len() && (#[trigger] entries[m]).0 == key,
    ensures
        0 <= at < entries.len(),
        entries[at].0 == key,
        forall|j: int| 0 <= j < at ==> (#[trigger] entries[j]).0 != key,
    decreases entries.len(),
{
    if entries[0].0 == key {
        0
    } else {
        let rest = entries.drop_first();
        let m = choose|m: int| 0 <= m < entries.len() && (#[trigger] entries[m]).0 == key;
        assert(rest[m - 1].0 == key);
        let at = lemma_first_under(rest, key);
        assert forall|j: int| 0 <= j < at + 1 implies (#[trigger] entries[j]).0 != key by {
            if j > 0 {
                assert(rest[j - 1].0 != key);
            }
        }
        at + 1
    }
}

/// A document that has no `outputs`, or whose first `outputs` is no object, or that is no
/// object itself, is translated to itself.
pub proof fn law_other_documents_are_left_alone(drv: JsonView)
    requires
        match drv {
            JsonView::Object(members) => forall|j: int|
                0 <= j < members.len() && (#[trigger] members[j]).0 == "outputs"@ && (forall|l: int|
                    0 <= l < j ==> (#[trigger] members[l]).0 != "outputs"@) ==> !(
                members[j].1 is Object),
            _ => true,
        },
    ensures
        normalized(drv) == drv,
{
    if let JsonView::Object(members) = drv {
        if exists|m: int| 0 <= m < members.len() && (#[trigger] members[m]).0 == "outputs"@ {
            let first = lemma_first_under(members, "outputs"@);
            lemma_object_entry(members, "outputs"@, first);
        } else {
            law_no_member_without_an_entry(members, "outputs"@);
        }
    }
}

/// Translating an output and then looking at a member is looking at the member and then,
/// if it is the method `r`, reading it as `nar`; so it is for every output of a derivation,
/// whose names and order stay.
pub proof fn law_members_of_translated_outputs(drv: JsonView, i: int, key: Seq<char>)
    requires
        member(drv, "outputs"@) matches Some(JsonView::Object(outputs)) && 0 <= i < outputs.len(),
    ensures
        ({
            let was = member(drv, "outputs"@)->0->Object_0;
            let is = member(normalized(drv), "outputs"@)->0->Object_0;
            &&& member(normalized(drv), "outputs"@) is Some
            &&& member(normalized(drv), "outputs"@)->0 is Object
            &&& is.len() == was.len()
            &&& is[i].0 == was[i].0
            &&& member(is[i].1, key) == if key == "method"@ && member(was[i].1, key) == Some(
                JsonView::Text("r"@),
            ) {
                Some(JsonView::Text("nar"@))
            } else {
                member(was[i].1, key)
            }
        }),
{
    law_normalized_changes_outputs_alone(drv, "outputs"@);
    law_normalized_output(member(drv, "outputs"@)->0->Object_0[i].1, key);
}

} // verus!
