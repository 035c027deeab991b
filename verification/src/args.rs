//! From the command line's arguments to what is read and what is counted.
//!
//! The arguments are those after the program's name. Nothing here reads a
//! file or a stream: the result says which one to read.

use crate::error::WcError;
use vstd::prelude::*;
use vstd::string::*;
use vstd::utf8::*;

verus! {

/// A flag that selects the single number to print.
#[derive(Debug, Clone, Copy, PartialEq, Eq, Structural)]
pub enum Flag {
    /// `-c`: bytes.
    Bytes,
    /// `-l`: lines.
    Lines,
    /// `-w`: words.
    Words,
    /// `-m`: characters.
    Chars,
}

/// Where the content comes from.
#[derive(Debug, PartialEq, Eq)]
pub enum Source {
    /// Standard input.
    Stdin,
    /// The file at this path.
    File(String),
}

/// What an invocation asks for: a source, and a flag or none. Without a
/// flag, lines, words and bytes are printed together.
#[derive(Debug, PartialEq, Eq)]
pub struct Invocation {
    pub source: Source,
    pub flag: Option<Flag>,
}

/// A [`Source`] with its path as a sequence of characters.
pub enum SourceView {
    Stdin,
    File(Seq<char>),
}

/// An [`Invocation`] over a [`SourceView`].
pub struct InvocationView {
    pub source: SourceView,
    pub flag: Option<Flag>,
}

impl View for Source {
    type V = SourceView;

    open spec fn view(&self) -> SourceView {
        match self {
            Source::Stdin => SourceView::Stdin,
            Source::File(path) => SourceView::File(path@),
        }
    }
}

impl View for Invocation {
    type V = InvocationView;

    open spec fn view(&self) -> InvocationView {
        InvocationView { source: self.source@, flag: self.flag }
    }
}

/// The flag that `token` spells, if it spells one.
pub open spec fn flag_of(token: Seq<char>) -> Option<Flag> {
    if token == "-c"@ {
        Some(Flag::Bytes)
    } else if token == "-l"@ {
        Some(Flag::Lines)
    } else if token == "-w"@ {
        Some(Flag::Words)
    } else if token == "-m"@ {
        Some(Flag::Chars)
    } else {
        None
    }
}

/// Of two arguments, the file's name and the flag: exactly one of the two
/// spells a flag, and the other one names the file, whichever comes first.
pub open spec fn file_and_flag(first: Seq<char>, second: Seq<char>) -> Result<
    (Seq<char>, Flag),
    WcError,
> {
    match (flag_of(first), flag_of(second)) {
        (Some(flag), None) => Ok((second, flag)),
        (None, Some(flag)) => Ok((first, flag)),
        _ => Err(WcError::Usage),
    }
}

/// What the arguments ask for.
///
/// - None: standard input, no flag.
/// - One: a flag selects that count of standard input; any other
///   argument names a file, read without a flag.
/// - Two: a file and a flag, see [`file_and_flag`].
/// - More: a usage error.
pub open spec fn invocation_of(args: Seq<Seq<char>>) -> Result<InvocationView, WcError> {
    if args.len() == 0 {
        Ok(InvocationView { source: SourceView::Stdin, flag: None })
    } else if args.len() == 1 {
        match flag_of(args[0]) {
            Some(flag) => Ok(InvocationView { source: SourceView::Stdin, flag: Some(flag) }),
            None => Ok(InvocationView { source: SourceView::File(args[0]), flag: None }),
        }
    } else if args.len() == 2 {
        match file_and_flag(args[0], args[1]) {
            Ok((file, flag)) => Ok(
                InvocationView { source: SourceView::File(file), flag: Some(flag) },
            ),
            Err(e) => Err(e),
        }
    } else {
        Err(WcError::Usage)
    }
}

/// Tells whether two strings hold the same characters.
fn same_text(a: &str, b: &str) -> (r: bool)
    ensures
        r == (a@ == b@),
{
    let x: &[u8] = a.as_bytes();
    let y: &[u8] = b.as_bytes();
    proof {
        // Equal encodings decode to equal texts.
        encode_utf8_decode_utf8(a@);
        encode_utf8_decode_utf8(b@);
    }
    if x.len() != y.len() {
        return false;
    }
    let len: usize = x.len();
    let mut i: usize = 0;
    while i < len
        invariant
            len == x@.len(),
            len == y@.len(),
            i <= len,
            x@ == encode_utf8(a@),
            y@ == encode_utf8(b@),
            forall|k: int| 0 <= k < i ==> x@[k] == y@[k],
        decreases len - i,
    {
        if x[i] != y[i] {
            return false;
        }
        i += 1;
    }
    assert(x@ =~= y@);
    true
}

/// Reads `token` as a flag: `-c`, `-l`, `-w` or `-m`.
pub fn parse_flag(token: &str) -> (r: Option<Flag>)
    ensures
        r == flag_of(token@),
{
    if same_text(token, "-c") {
        Some(Flag::Bytes)
    } else if same_text(token, "-l") {
        Some(Flag::Lines)
    } else if same_text(token, "-w") {
        Some(Flag::Words)
    } else if same_text(token, "-m") {
        Some(Flag::Chars)
    } else {
        None
    }
}

/// Tells which of two arguments names the file and which is the flag.
///
/// It fails with [`WcError::Usage`] where neither argument is a flag, and
/// where both are.
pub fn determine_file_and_flag(first: &str, second: &str) -> (r: Result<(String, Flag), WcError>)
    ensures
        match r {
            Ok((file, flag)) => file_and_flag(first@, second@) == Ok::<(Seq<char>, Flag), WcError>(
                (file@, flag),
            ),
            Err(e) => file_and_flag(first@, second@) == Err::<(Seq<char>, Flag), WcError>(e),
        },
{
    match (parse_flag(first), parse_flag(second)) {
        (Some(flag), None) => Ok((second.to_owned(), flag)),
        (None, Some(flag)) => Ok((first.to_owned(), flag)),
        _ => Err(WcError::Usage),
    }
}

/// Resolves the arguments that follow the program's name.
pub fn resolve(args: &Vec<String>) -> (r: Result<Invocation, WcError>)
    ensures
        match r {
            Ok(invocation) => invocation_of(args.deep_view()) == Ok::<InvocationView, WcError>(
                invocation@,
            ),
            Err(e) => invocation_of(args.deep_view()) == Err::<InvocationView, WcError>(e),
        },
{
    let count: usize = args.len();
    if count == 0 {
        Ok(Invocation { source: Source::Stdin, flag: None })
    } else if count == 1 {
        let token: &str = args[0].as_str();
        match parse_flag(token) {
            Some(flag) => Ok(Invocation { source: Source::Stdin, flag: Some(flag) }),
            None => Ok(Invocation { source: Source::File(token.to_owned()), flag: None }),
        }
    } else if count == 2 {
        match determine_file_and_flag(args[0].as_str(), args[1].as_str()) {
            Ok((file, flag)) => Ok(Invocation { source: Source::File(file), flag: Some(flag) }),
            Err(e) => Err(e),
        }
    } else {
        Err(WcError::Usage)
    }
}

/// Two arguments resolve to the same invocation in either order.
pub proof fn law_argument_order_is_irrelevant(first: Seq<char>, second: Seq<char>)
    ensures
        invocation_of(seq![first, second]) == invocation_of(seq![second, first]),
{
}

} // verus!
