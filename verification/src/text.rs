//! Text helpers.

use vstd::prelude::*;

verus! {

/// `s` is what `value` prints as, through `Display`.
pub open spec fn prints_as<T: core::fmt::Display>(value: &T, s: Seq<char>) -> bool {
    exists|t: String| #[trigger]
        vstd::string::to_string_from_display_ensures::<T>(value, t) && t@ == s
}

/// Whether two texts are the same, character for character.
pub fn same_text(a: &str, b: &str) -> (r: bool)
    ensures
        r == (a@ == b@),
{
    a.to_owned() == b.to_owned()
}

/// One text after the other.
pub fn appended(a: &str, b: &str) -> (r: String)
    ensures
        r@ == a@ + b@,
{
    let mut r = a.to_owned();
    r.append(b);
    r
}

/// What a value prints as is what `to_string` may give for it, and nothing else.
pub proof fn law_what_a_value_prints_as<T: core::fmt::Display>(value: &T, s: Seq<char>)
    ensures
        prints_as(value, s) <==> exists|t: String| #[trigger]
            vstd::string::to_string_from_display_ensures::<T>(value, t) && t@ == s,
{
}

} // verus!
