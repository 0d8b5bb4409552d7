//! Store paths.
//!
//! A store path is a hash and a name. As text it is written `hash-name` behind
//! the store directory; the text behind the directory is the base of the path.

use vstd::prelude::*;

use crate::error::ErrorView;
use crate::error::VarlinkError;
use crate::text::appended;

verus! {

/// A digit of the base-32 alphabet in which hashes are written: a decimal digit
/// or a lower-case letter other than e, o, t and u.
pub open spec fn is_hash_digit(c: char) -> bool {
    ||| '0' <= c <= '9'
    ||| 'a' <= c <= 'z' && c != 'e' && c != 'o' && c != 't' && c != 'u'
}

/// A character that a name may hold.
pub open spec fn is_name_char(c: char) -> bool {
    ||| 'a' <= c <= 'z'
    ||| 'A' <= c <= 'Z'
    ||| '0' <= c <= '9'
    ||| c == '+' || c == '-' || c == '_' || c == '?' || c == '=' || c == '.'
}

/// The base of a store path: a hash of 32 digits, a dash, and a name of 1 to 211
/// characters.
pub open spec fn is_base(s: Seq<char>) -> bool {
    &&& 34 <= s.len() <= 244
    &&& forall|i: int| 0 <= i < 32 ==> is_hash_digit(#[trigger] s[i])
    &&& s[32] == '-'
    &&& forall|i: int| 33 <= i < s.len() ==> is_name_char(#[trigger] s[i])
}

/// The text of the path with base `base` in the store directory `dir`.
pub open spec fn in_store(dir: Seq<char>, base: Seq<char>) -> Seq<char> {
    dir + "/"@ + base
}

/// What stands behind the directory and a slash.
pub open spec fn base_of(dir: Seq<char>, path: Seq<char>) -> Seq<char> {
    path.skip(dir.len() as int + 1)
}

/// `path` names a store path of the directory: it is absolute, and it is the
/// directory, a slash and a base.
pub open spec fn is_store_path(dir: Seq<char>, path: Seq<char>) -> bool {
    &&& path.len() > 0 && path[0] == '/'
    &&& path == in_store(dir, base_of(dir, path))
    &&& is_base(base_of(dir, path))
}

/// Why `harmonia_store_core` does not accept `path` in the directory `dir`, in its
/// own words.
pub uninterp spec fn refusal(dir: Seq<char>, path: Seq<char>) -> Seq<char>;

/// `harmonia_store_core::store_path::StoreDir::parse` at `StorePath`, in the
/// directory that `StoreDir::new` makes of `dir`; the path is handed back by what
/// it prints as, its base.
///
/// It accepts the absolute paths that consist of the directory, a slash and a
/// valid base, and no others. What it says of a path that it does not accept is
/// named, not stated.
#[verifier::external_body]
fn parse_base(dir: &str, path: &str) -> (r: Result<String, String>)
    ensures
        r is Ok <==> is_store_path(dir@, path@),
        r matches Ok(base) ==> base@ == base_of(dir@, path@),
        r matches Err(why) ==> why@ == refusal(dir@, path@),
{
    let dir = harmonia_store_core::store_path::StoreDir::new(dir).unwrap();
    match dir.parse::<harmonia_store_core::store_path::StorePath>(path) {
        Ok(parsed) => Ok(parsed.to_string()),
        Err(e) => Err(e.to_string()),
    }
}

/// `harmonia_store_core::store_path::StoreDir::display` on the store path with this
/// base: the directory, a slash and the base.
#[verifier::external_body]
fn display_base(dir: &str, base: &str) -> (r: String)
    requires
        is_base(base@),
    ensures
        r@ == in_store(dir@, base@),
{
    let dir = harmonia_store_core::store_path::StoreDir::new(dir).unwrap();
    let path: harmonia_store_core::store_path::StorePath = base.parse().unwrap();
    dir.display(&path).to_string()
}

/// A store path, whatever the directory of the store. Its view is its base.
#[derive(Debug, PartialEq, Eq)]
pub struct StorePath {
    base: String,
}

impl View for StorePath {
    type V = Seq<char>;

    closed spec fn view(&self) -> Seq<char> {
        self.base@
    }
}

impl Clone for StorePath {
    fn clone(&self) -> (r: StorePath)
        ensures
            r@ == self@,
    {
        proof {
            use_type_invariant(self);
        }
        StorePath { base: self.base.clone() }
    }
}

/// The reply holds a path that is not a store path.
pub open spec fn invalid_store_path(path: Seq<char>, why: Seq<char>) -> ErrorView {
    ErrorView::Protocol("invalid store path '"@ + path + "': "@ + why)
}

/// The error for a path in a reply that is not a store path, for the reason given.
pub fn invalid_path_error(path: &str, why: &str) -> (r: VarlinkError)
    ensures
        r@ == invalid_store_path(path@, why@),
        r is Protocol && r->Protocol_0@ == "invalid store path '"@ + path@ + "': "@ + why@,
{
    let quoted = appended("invalid store path '", path);
    let intro = appended(quoted.as_str(), "': ");
    VarlinkError::Protocol(appended(intro.as_str(), why))
}

impl StorePath {
    #[verifier::type_invariant]
    spec fn valid(self) -> bool {
        is_base(self.base@)
    }

    /// Reads a full path in the store directory `dir`.
    pub fn parse(dir: &str, path: &str) -> (r: Result<StorePath, VarlinkError>)
        ensures
            r is Ok <==> is_store_path(dir@, path@),
            r matches Ok(parsed) ==> parsed@ == base_of(dir@, path@),
            r matches Err(e) ==> e@ == invalid_store_path(path@, refusal(dir@, path@)),
            r matches Ok(parsed) ==> path@ == dir@ + "/"@ + parsed@,
            r matches Err(e) ==> e is Protocol && e->Protocol_0@ == "invalid store path '"@ + path@
                + "': "@ + refusal(dir@, path@),
    {
        match parse_base(dir, path) {
            Ok(base) => Ok(StorePath { base }),
            Err(why) => Err(invalid_path_error(path, why.as_str())),
        }
    }

    /// The full path in the store directory `dir`.
    pub fn display(&self, dir: &str) -> (r: String)
        ensures
            r@ == in_store(dir@, self@),
            is_base(self@),
            r@ == dir@ + "/"@ + self@,
    {
        proof {
            use_type_invariant(self);
        }
        display_base(dir, self.base.as_str())
    }

    /// The base of the path: its hash and its name.
    pub fn base(&self) -> (r: &str)
        ensures
            r@ == self@,
            is_base(r@),
    {
        proof {
            use_type_invariant(self);
        }
        self.base.as_str()
    }
}

/// What is written for a store path in an absolute store directory is read back as
/// that path.
pub proof fn law_store_path_is_read_back(dir: Seq<char>, base: Seq<char>)
    requires
        dir.len() > 0 ==> dir[0] == '/',
        is_base(base),
    ensures
        is_store_path(dir, in_store(dir, base)),
        base_of(dir, in_store(dir, base)) == base,
{
    reveal_strlit("/");
    assert(base_of(dir, in_store(dir, base)) =~= base);
}

/// A text is the base of a store path exactly where it is 32 digits of the hash alphabet, a
/// dash, and 1 to 211 letters, digits and signs.
pub proof fn law_bases(s: Seq<char>)
    ensures
        is_base(s) <==> {
            &&& 34 <= s.len() <= 244
            &&& s[32] == '-'
            &&& forall|i: int|
                0 <= i < 32 ==> {
                    ||| '0' <= (#[trigger] s[i]) <= '9'
                    ||| 'a' <= s[i] <= 'd'
                    ||| 'f' <= s[i] <= 'n'
                    ||| 'p' <= s[i] <= 's'
                    ||| 'v' <= s[i] <= 'z'
                }
            &&& forall|i: int|
                33 <= i < s.len() ==> {
                    ||| '0' <= (#[trigger] s[i]) <= '9'
                    ||| 'a' <= s[i] <= 'z'
                    ||| 'A' <= s[i] <= 'Z'
                    ||| s[i] == '+' || s[i] == '-' || s[i] == '.'
                    ||| s[i] == '_' || s[i] == '?' || s[i] == '='
                }
        },
{
    if is_base(s) {
        assert forall|i: int| 0 <= i < 32 implies {
            ||| '0' <= (#[trigger] s[i]) <= '9'
            ||| 'a' <= s[i] <= 'd'
            ||| 'f' <= s[i] <= 'n'
            ||| 'p' <= s[i] <= 's'
            ||| 'v' <= s[i] <= 'z'
        } by {
            assert(is_hash_digit(s[i]));
        }
        assert forall|i: int| 33 <= i < s.len() implies {
            ||| '0' <= (#[trigger] s[i]) <= '9'
            ||| 'a' <= s[i] <= 'z'
            ||| 'A' <= s[i] <= 'Z'
            ||| s[i] == '+' || s[i] == '-' || s[i] == '.'
            ||| s[i] == '_' || s[i] == '?' || s[i] == '='
        } by {
            assert(is_name_char(s[i]));
        }
    }
}

/// A text names a store path of a directory exactly where it starts with a slash and is the
/// directory, a slash and a base; that base is what it is read as.
pub proof fn law_store_paths(dir: Seq<char>, base: Seq<char>, path: Seq<char>)
    ensures
        in_store(dir, base) == dir + seq!['/'] + base,
        path == dir + seq!['/'] + base ==> {
            &&& base_of(dir, path) == base
            &&& is_store_path(dir, path) <==> path[0] == '/' && is_base(base)
        },
        is_store_path(dir, path) ==> exists|b: Seq<char>| path == dir + seq!['/'] + b && #[trigger]
            is_base(b),
{
    reveal_strlit("/");
    assert("/"@ =~= seq!['/']);
    if path == dir + seq!['/'] + base {
        assert(base_of(dir, path) =~= base);
    }
    if is_store_path(dir, path) {
        assert(is_base(base_of(dir, path)));
    }
}

} // verus!
