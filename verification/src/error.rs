//! Errors of an exchange with the derivation builder.

use vstd::prelude::*;

use crate::text::appended;
use crate::text::prints_as;
use crate::text::same_text;

verus! {

/// `std::io::Error`, carried through as an opaque value.
#[verifier::external_type_specification]
#[verifier::external_body]
pub struct ExIoError(std::io::Error);

/// `nix::errno::Errno`, carried through as an opaque value.
#[verifier::external_type_specification]
#[verifier::external_body]
pub struct ExErrno(nix::errno::Errno);

/// Why a call did not succeed.
#[derive(Debug)]
pub enum VarlinkError {
    /// The server got no file descriptor with the request.
    NoFileDescriptor,
    /// The server could not read what was streamed as a NAR.
    InvalidNar,
    /// The server does not know the path.
    InvalidPath,
    /// The server already has that output.
    DuplicateOutput,
    /// The server returned an error that has no variant of its own; its full name.
    Other(String),
    /// The socket failed.
    Transport(std::io::Error),
    /// A system call failed.
    Nix(nix::errno::Errno),
    /// The reply does not have the expected shape.
    Protocol(String),
    /// The JSON layer failed.
    Json(serde_json::Error),
}

/// What an error says; an error of another layer is carried as it came.
pub enum ErrorView {
    NoFileDescriptor,
    InvalidNar,
    InvalidPath,
    DuplicateOutput,
    Other(Seq<char>),
    Transport(std::io::Error),
    Nix(nix::errno::Errno),
    Protocol(Seq<char>),
    Json(serde_json::Error),
}

impl View for VarlinkError {
    type V = ErrorView;

    open spec fn view(&self) -> ErrorView {
        match self {
            VarlinkError::NoFileDescriptor => ErrorView::NoFileDescriptor,
            VarlinkError::InvalidNar => ErrorView::InvalidNar,
            VarlinkError::InvalidPath => ErrorView::InvalidPath,
            VarlinkError::DuplicateOutput => ErrorView::DuplicateOutput,
            VarlinkError::Other(s) => ErrorView::Other(s@),
            VarlinkError::Transport(e) => ErrorView::Transport(*e),
            VarlinkError::Nix(e) => ErrorView::Nix(*e),
            VarlinkError::Protocol(s) => ErrorView::Protocol(s@),
            VarlinkError::Json(e) => ErrorView::Json(*e),
        }
    }
}

impl From<std::io::Error> for VarlinkError {
    fn from(e: std::io::Error) -> (r: VarlinkError) {
        VarlinkError::Transport(e)
    }
}

impl vstd::std_specs::convert::FromSpecImpl<std::io::Error> for VarlinkError {
    open spec fn obeys_from_spec() -> bool {
        true
    }

    open spec fn from_spec(e: std::io::Error) -> VarlinkError {
        VarlinkError::Transport(e)
    }
}

impl From<nix::errno::Errno> for VarlinkError {
    fn from(e: nix::errno::Errno) -> (r: VarlinkError) {
        VarlinkError::Nix(e)
    }
}

impl vstd::std_specs::convert::FromSpecImpl<nix::errno::Errno> for VarlinkError {
    open spec fn obeys_from_spec() -> bool {
        true
    }

    open spec fn from_spec(e: nix::errno::Errno) -> VarlinkError {
        VarlinkError::Nix(e)
    }
}

impl From<serde_json::Error> for VarlinkError {
    fn from(e: serde_json::Error) -> (r: VarlinkError) {
        VarlinkError::Json(e)
    }
}

impl vstd::std_specs::convert::FromSpecImpl<serde_json::Error> for VarlinkError {
    open spec fn obeys_from_spec() -> bool {
        true
    }

    open spec fn from_spec(e: serde_json::Error) -> VarlinkError {
        VarlinkError::Json(e)
    }
}

impl VarlinkError {
    /// The error in words. An error of another layer is put in that layer's words,
    /// after what this layer says of it.
    pub fn message(&self) -> (r: String)
        ensures
            match self {
                VarlinkError::NoFileDescriptor => r@ == "server returned NoFileDescriptor"@,
                VarlinkError::InvalidNar => r@ == "server returned InvalidNar"@,
                VarlinkError::InvalidPath => r@ == "server returned InvalidPath"@,
                VarlinkError::DuplicateOutput => r@ == "server returned DuplicateOutput"@,
                VarlinkError::Other(s) => r@ == "server returned unknown error: "@ + s@,
                VarlinkError::Transport(e) => exists|s: Seq<char>| #[trigger]
                    prints_as(e, s) && r@ == "transport error: "@ + s,
                VarlinkError::Nix(e) => exists|s: Seq<char>| #[trigger]
                    prints_as(e, s) && r@ == "nix syscall error: "@ + s,
                VarlinkError::Protocol(s) => r@ == "malformed reply: "@ + s@,
                VarlinkError::Json(e) => prints_as(e, r@),
            },
    {
        match self {
            VarlinkError::NoFileDescriptor => "server returned NoFileDescriptor".to_owned(),
            VarlinkError::InvalidNar => "server returned InvalidNar".to_owned(),
            VarlinkError::InvalidPath => "server returned InvalidPath".to_owned(),
            VarlinkError::DuplicateOutput => "server returned DuplicateOutput".to_owned(),
            VarlinkError::Other(s) => appended("server returned unknown error: ", s.as_str()),
            VarlinkError::Transport(e) => {
                let s = e.to_string();
                assert(prints_as(e, s@));
                appended("transport error: ", s.as_str())
            },
            VarlinkError::Nix(e) => {
                let s = e.to_string();
                assert(prints_as(e, s@));
                appended("nix syscall error: ", s.as_str())
            },
            VarlinkError::Protocol(s) => appended("malformed reply: ", s.as_str()),
            VarlinkError::Json(e) => e.to_string(),
        }
    }
}

/// What stands after the last dot, or everything where there is no dot.
pub open spec fn short_name(name: Seq<char>) -> Seq<char>
    decreases name.len(),
{
    if name.len() == 0 {
        name
    } else if name.last() == '.' {
        Seq::empty()
    } else {
        short_name(name.drop_last()).push(name.last())
    }
}

/// The error that a server means by the name it gives: the interface in front of
/// the name does not matter, and a name that is not known is kept in full.
pub open spec fn named_error(name: Seq<char>) -> ErrorView {
    let short = short_name(name);
    if short == "NoFileDescriptor"@ {
        ErrorView::NoFileDescriptor
    } else if short == "InvalidNar"@ {
        ErrorView::InvalidNar
    } else if short == "InvalidPath"@ {
        ErrorView::InvalidPath
    } else if short == "DuplicateOutput"@ {
        ErrorView::DuplicateOutput
    } else {
        ErrorView::Other(name)
    }
}

proof fn lemma_short_name_from(name: Seq<char>, start: int)
    requires
        0 <= start <= name.len(),
        start == 0 || name[start - 1] == '.',
        forall|i: int| start <= i < name.len() ==> name[i] != '.',
    ensures
        short_name(name) == name.skip(start),
    decreases name.len(),
{
    if name.len() > 0 {
        if start == name.len() {
            assert(name.skip(start) =~= Seq::<char>::empty());
        } else {
            lemma_short_name_from(name.drop_last(), start);
            assert(name.drop_last().skip(start).push(name.last()) =~= name.skip(start));
        }
    } else {
        assert(name.skip(start) =~= name);
    }
}

/// What stands after the last dot, or everything where there is no dot.
fn strip_interface(name: &str) -> (r: &str)
    ensures
        r@ == short_name(name@),
{
    let len: usize = name.unicode_len();
    let mut start: usize = 0;
    let mut count: usize = 0;
    for c in chars: name.chars()
        invariant
            chars.seq() == name@,
            len == name@.len(),
            count == chars.index(),
            start <= count <= len,
            start == 0 || name@[start - 1] == '.',
            forall|i: int| start <= i < count ==> name@[i] != '.',
    {
        assert(c == name@[count as int]);
        count += 1;
        if c == '.' {
            start = count;
        }
    }
    proof {
        lemma_short_name_from(name@, start as int);
    }
    assert(name@.subrange(start as int, len as int) =~= name@.skip(start as int));
    name.substring_char(start, len)
}

/// The error that a server means by the name it gives.
pub fn map_error(error: &str) -> (r: VarlinkError)
    ensures
        r@ == named_error(error@),
        forall|k: int|
            0 <= k <= error@.len() && (k == 0 || error@[k - 1] == '.') && (forall|i: int|
                k <= i < error@.len() ==> error@[i] != '.') ==> {
                let short = #[trigger] error@.skip(k);
                match r {
                    VarlinkError::NoFileDescriptor => short == "NoFileDescriptor"@,
                    VarlinkError::InvalidNar => short == "InvalidNar"@,
                    VarlinkError::InvalidPath => short == "InvalidPath"@,
                    VarlinkError::DuplicateOutput => short == "DuplicateOutput"@,
                    VarlinkError::Other(name) => {
                        &&& name@ == error@
                        &&& short != "NoFileDescriptor"@
                        &&& short != "InvalidNar"@
                        &&& short != "InvalidPath"@
                        &&& short != "DuplicateOutput"@
                    },
                    _ => false,
                }
            },
{
    proof {
        assert forall|k: int|
            0 <= k <= error@.len() && (k == 0 || error@[k - 1] == '.') && (forall|i: int|
                k <= i < error@.len() ==> error@[i] != '.') implies #[trigger] error@.skip(k)
            == short_name(error@) by {
            lemma_short_name_from(error@, k);
        }
    }
    let short = strip_interface(error);
    if same_text(short, "NoFileDescriptor") {
        VarlinkError::NoFileDescriptor
    } else if same_text(short, "InvalidNar") {
        VarlinkError::InvalidNar
    } else if same_text(short, "InvalidPath") {
        VarlinkError::InvalidPath
    } else if same_text(short, "DuplicateOutput") {
        VarlinkError::DuplicateOutput
    } else {
        VarlinkError::Other(error.to_owned())
    }
}

/// The interface in front of a name does not change which known error the name
/// means: what is known without it is known with it, and the other way round.
pub proof fn law_interface_prefix_is_stripped(interface: Seq<char>, name: Seq<char>)
    ensures
        short_name(interface + seq!['.'] + name) == short_name(name),
        match named_error(name) {
            ErrorView::Other(_) => named_error(interface + seq!['.'] + name) == ErrorView::Other(
                interface + seq!['.'] + name,
            ),
            known => named_error(interface + seq!['.'] + name) == known,
        },
    decreases name.len(),
{
    let full = interface + seq!['.'] + name;
    if name.len() == 0 {
        assert(full.last() == '.');
    } else {
        assert(full.last() == name.last());
        if name.last() != '.' {
            law_interface_prefix_is_stripped(interface, name.drop_last());
            assert(full.drop_last() =~= interface + seq!['.'] + name.drop_last());
        }
    }
    assert(short_name(full) == short_name(name));
}

/// The model of an error is the error itself, with its text for what it says.
pub proof fn law_model_of_an_error(error: VarlinkError)
    ensures
        match error {
            VarlinkError::NoFileDescriptor => error@ == ErrorView::NoFileDescriptor,
            VarlinkError::InvalidNar => error@ == ErrorView::InvalidNar,
            VarlinkError::InvalidPath => error@ == ErrorView::InvalidPath,
            VarlinkError::DuplicateOutput => error@ == ErrorView::DuplicateOutput,
            VarlinkError::Other(s) => error@ == ErrorView::Other(s@),
            VarlinkError::Transport(e) => error@ == ErrorView::Transport(e),
            VarlinkError::Nix(e) => error@ == ErrorView::Nix(e),
            VarlinkError::Protocol(s) => error@ == ErrorView::Protocol(s@),
            VarlinkError::Json(e) => error@ == ErrorView::Json(e),
        },
{
}

/// The short name is the end of the name, without a dot, in front of which stands a dot
/// or nothing.
pub proof fn law_short_name_is_behind_the_last_dot(name: Seq<char>)
    ensures
        ({
            let short = short_name(name);
            let start = name.len() - short.len();
            &&& start >= 0
            &&& name.skip(start) == short
            &&& forall|i: int| 0 <= i < short.len() ==> short[i] != '.'
            &&& start == 0 || name[start - 1] == '.'
        }),
    decreases name.len(),
{
    let short = short_name(name);
    let start = name.len() - short.len();
    if name.len() == 0 {
        assert(name.skip(0) =~= name);
    } else if name.last() == '.' {
        assert(name.skip(start) =~= short);
    } else {
        let before = name.drop_last();
        law_short_name_is_behind_the_last_dot(before);
        assert(before.skip(start).push(name.last()) =~= name.skip(start));
    }
}

/// Behind any prefix that is empty or ends with a dot, a name without a dot means the
/// error of that name where it is one of the four, and else an error that is kept with
/// the whole name. Every name is of this form.
pub proof fn law_errors_by_name(prefix: Seq<char>, short: Seq<char>)
    requires
        prefix.len() == 0 || prefix.last() == '.',
        forall|i: int| 0 <= i < short.len() ==> short[i] != '.',
    ensures
        short == "NoFileDescriptor"@ ==> named_error(prefix + short) == ErrorView::NoFileDescriptor,
        short == "InvalidNar"@ ==> named_error(prefix + short) == ErrorView::InvalidNar,
        short == "InvalidPath"@ ==> named_error(prefix + short) == ErrorView::InvalidPath,
        short == "DuplicateOutput"@ ==> named_error(prefix + short) == ErrorView::DuplicateOutput,
        short != "NoFileDescriptor"@ && short != "InvalidNar"@ && short != "InvalidPath"@ && short
            != "DuplicateOutput"@ ==> named_error(prefix + short) == ErrorView::Other(
            prefix + short,
        ),
{
    let name = prefix + short;
    assert forall|i: int| prefix.len() <= i < name.len() implies name[i] != '.' by {
        assert(name[i] == short[i - prefix.len()]);
    }
    lemma_short_name_from(name, prefix.len() as int);
    assert(name.skip(prefix.len() as int) =~= short);
    reveal_strlit("NoFileDescriptor");
    reveal_strlit("InvalidNar");
    reveal_strlit("InvalidPath");
    reveal_strlit("DuplicateOutput");
    assert("NoFileDescriptor"@.len() == 16 && "InvalidNar"@.len() == 10);
    assert("InvalidPath"@.len() == 11 && "DuplicateOutput"@.len() == 15);
}

} // verus!
