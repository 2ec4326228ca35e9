//! The error taxonomy of the state-file protocol.
//!
//! Every variant carries the path it is about; where an operating-system
//! call failed, its rendered cause rides along as text. Turning a value into
//! a user-visible message is display work and happens outside the library;
//! the helpers here only shape message text that is already rendered.

use vstd::prelude::*;

verus! {

/// A field of a state-file line that did not parse, with the field's text.
#[derive(Debug)]
pub enum ParseError {
    Status(Vec<u8>),
    Code(Vec<u8>),
    Timestamp(Vec<u8>),
    Path(Vec<u8>),
}

/// The mathematical value of a parse error.
pub ghost enum ParseErrorV {
    Status(Seq<u8>),
    Code(Seq<u8>),
    Timestamp(Seq<u8>),
    Path(Seq<u8>),
}

impl DeepView for ParseError {
    type V = ParseErrorV;

    open spec fn deep_view(&self) -> ParseErrorV {
        match self {
            ParseError::Status(f) => ParseErrorV::Status(f@),
            ParseError::Code(f) => ParseErrorV::Code(f@),
            ParseError::Timestamp(f) => ParseErrorV::Timestamp(f@),
            ParseError::Path(f) => ParseErrorV::Path(f@),
        }
    }
}

/// What can go wrong around a state file. Paths are carried as bytes; an
/// operating-system cause is carried as rendered text.
#[derive(Debug)]
pub enum Error {
    Absolute { path: Vec<u8>, io: String },
    AccessLocation { path: Vec<u8>, io: String },
    CreateLocation { path: Vec<u8>, io: String },
    Open { path: Vec<u8>, io: String },
    Read { path: Vec<u8>, io: String },
    ListDir { path: Vec<u8>, io: String },
    Metadata { path: Vec<u8>, io: String },
    Parse { e: ParseError, num: usize, line: Vec<u8>, path: Vec<u8> },
    Malformed { n: usize, line: Vec<u8>, path: Vec<u8> },
    NotFound(Vec<u8>),
    NotDirectory(Vec<u8>),
    NotFile(Vec<u8>),
}

/// What can go wrong around the advisory file lock.
#[derive(Debug)]
pub enum LockError {
    SetLock { path: Vec<u8>, io: String },
    GetLock { path: Vec<u8>, io: String },
}

/// Message text with every embedded newline continued by an arrow prefix,
/// so a chained cause reads as an indented continuation line.
pub open spec fn spec_beautify(s: Seq<char>) -> Seq<char>
    decreases s.len(),
{
    if s.len() == 0 {
        Seq::empty()
    } else if s[0] == '\n' {
        seq!['\n', '\u{21b3}', ' '] + spec_beautify(s.skip(1))
    } else {
        seq![s[0]] + spec_beautify(s.skip(1))
    }
}

/// Prefix every line continuation of a rendered message with an arrow.
pub fn beautify_newline(s: String) -> (r: String)
    ensures
        r@ == spec_beautify(s@),
{
    let n = s.as_str().unicode_len();
    let mut r = String::new();
    let mut i: usize = 0;
    proof {
        assert(s@.skip(0) =~= s@);
        assert(r@ + spec_beautify(s@) =~= spec_beautify(s@));
    }
    while i < n
        invariant
            i <= n,
            n == s@.len(),
            spec_beautify(s@) == r@ + spec_beautify(s@.skip(i as int)),
        decreases n - i,
    {
        proof {
            assert(s@.skip(i as int).len() > 0);
            assert(s@.skip(i as int)[0] == s@[i as int]);
            assert(s@.skip(i as int).skip(1) =~= s@.skip(i + 1));
        }
        let c = s.as_str().get_char(i);
        if c == '\n' {
            let arrow = "\n\u{21b3} ";
            proof {
                reveal_strlit("\n\u{21b3} ");
            }
            assert(arrow@ =~= seq!['\n', '\u{21b3}', ' ']);
            r.append(arrow);
        } else {
            let one = s.as_str().substring_char(i, i + 1);
            assert(one@ =~= seq![s@[i as int]]);
            r.append(one);
        }
        assert(spec_beautify(s@) == r@ + spec_beautify(s@.skip(i + 1)));
        i = i + 1;
    }
    proof {
        assert(s@.skip(n as int) =~= Seq::<char>::empty());
        assert(r@ =~= spec_beautify(s@));
    }
    r
}

/// How bad a banner is: a high severity empties the task projection, a low
/// one leaves it standing.
#[derive(Clone, Copy, Debug, PartialEq, Eq, Structural)]
pub enum Severity {
    High,
    Low,
}

/// The message the first letter of a banner becomes: an ASCII lower-case
/// letter is capitalised, anything else stays.
pub open spec fn spec_capitalize(s: Seq<char>) -> Seq<char> {
    if s.len() > 0 && 'a' <= s[0] && s[0] <= 'z' {
        seq![((s[0] as u32) - 32) as char] + s.skip(1)
    } else {
        s
    }
}

/// The last error shown by the UI: a rendered message and its severity.
#[derive(Debug)]
pub struct ErrorEntry {
    pub message: String,
    pub severity: Severity,
}

impl ErrorEntry {
    /// Keep a rendered message for display, with its first letter
    /// capitalised.
    pub fn new(message: String, severity: Severity) -> (r: ErrorEntry)
        ensures
            r.message@ == spec_capitalize(message@),
            r.severity == severity,
    {
        let n = message.as_str().unicode_len();
        if n == 0 {
            return ErrorEntry { message, severity };
        }
        let c = message.as_str().get_char(0);
        if 'a' <= c && c <= 'z' {
            let up = upper_str(c);
            let rest = message.as_str().substring_char(1, n);
            let capitalised = String::from_str(up).concat(rest);
            proof {
                assert(capitalised@ =~= spec_capitalize(message@));
            }
            ErrorEntry { message: capitalised, severity }
        } else {
            ErrorEntry { message, severity }
        }
    }
}

/// The upper-case counterpart of an ASCII lower-case letter, as text.
fn upper_str(c: char) -> (r: &'static str)
    requires
        'a' <= c && c <= 'z',
    ensures
        r@ == seq![((c as u32) - 32) as char],
{
    if c == 'a' {
        proof { reveal_strlit("A"); }
        "A"
    } else if c == 'b' {
        proof { reveal_strlit("B"); }
        "B"
    } else if c == 'c' {
        proof { reveal_strlit("C"); }
        "C"
    } else if c == 'd' {
        proof { reveal_strlit("D"); }
        "D"
    } else if c == 'e' {
        proof { reveal_strlit("E"); }
        "E"
    } else if c == 'f' {
        proof { reveal_strlit("F"); }
        "F"
    } else if c == 'g' {
        proof { reveal_strlit("G"); }
        "G"
    } else if c == 'h' {
        proof { reveal_strlit("H"); }
        "H"
    } else if c == 'i' {
        proof { reveal_strlit("I"); }
        "I"
    } else if c == 'j' {
        proof { reveal_strlit("J"); }
        "J"
    } else if c == 'k' {
        proof { reveal_strlit("K"); }
        "K"
    } else if c == 'l' {
        proof { reveal_strlit("L"); }
        "L"
    } else if c == 'm' {
        proof { reveal_strlit("M"); }
        "M"
    } else if c == 'n' {
        proof { reveal_strlit("N"); }
        "N"
    } else if c == 'o' {
        proof { reveal_strlit("O"); }
        "O"
    } else if c == 'p' {
        proof { reveal_strlit("P"); }
        "P"
    } else if c == 'q' {
        proof { reveal_strlit("Q"); }
        "Q"
    } else if c == 'r' {
        proof { reveal_strlit("R"); }
        "R"
    } else if c == 's' {
        proof { reveal_strlit("S"); }
        "S"
    } else if c == 't' {
        proof { reveal_strlit("T"); }
        "T"
    } else if c == 'u' {
        proof { reveal_strlit("U"); }
        "U"
    } else if c == 'v' {
        proof { reveal_strlit("V"); }
        "V"
    } else if c == 'w' {
        proof { reveal_strlit("W"); }
        "W"
    } else if c == 'x' {
        proof { reveal_strlit("X"); }
        "X"
    } else if c == 'y' {
        proof { reveal_strlit("Y"); }
        "Y"
    } else {
        proof { reveal_strlit("Z"); }
        "Z"
    }
}

/// The mathematical value of a state-file error.
pub ghost enum ErrorV {
    Absolute { path: Seq<u8>, io: Seq<char> },
    AccessLocation { path: Seq<u8>, io: Seq<char> },
    CreateLocation { path: Seq<u8>, io: Seq<char> },
    Open { path: Seq<u8>, io: Seq<char> },
    Read { path: Seq<u8>, io: Seq<char> },
    ListDir { path: Seq<u8>, io: Seq<char> },
    Metadata { path: Seq<u8>, io: Seq<char> },
    Parse { e: ParseErrorV, num: int, line: Seq<u8>, path: Seq<u8> },
    Malformed { n: int, line: Seq<u8>, path: Seq<u8> },
    NotFound(Seq<u8>),
    NotDirectory(Seq<u8>),
    NotFile(Seq<u8>),
}

impl DeepView for Error {
    type V = ErrorV;

    open spec fn deep_view(&self) -> ErrorV {
        match self {
            Error::Absolute { path, io } => ErrorV::Absolute { path: path@, io: io@ },
            Error::AccessLocation { path, io } => ErrorV::AccessLocation {
                path: path@,
                io: io@,
            },
            Error::CreateLocation { path, io } => ErrorV::CreateLocation {
                path: path@,
                io: io@,
            },
            Error::Open { path, io } => ErrorV::Open { path: path@, io: io@ },
            Error::Read { path, io } => ErrorV::Read { path: path@, io: io@ },
            Error::ListDir { path, io } => ErrorV::ListDir { path: path@, io: io@ },
            Error::Metadata { path, io } => ErrorV::Metadata { path: path@, io: io@ },
            Error::Parse { e, num, line, path } => ErrorV::Parse {
                e: e.deep_view(),
                num: *num as int,
                line: line@,
                path: path@,
            },
            Error::Malformed { n, line, path } => ErrorV::Malformed {
                n: *n as int,
                line: line@,
                path: path@,
            },
            Error::NotFound(p) => ErrorV::NotFound(p@),
            Error::NotDirectory(p) => ErrorV::NotDirectory(p@),
            Error::NotFile(p) => ErrorV::NotFile(p@),
        }
    }
}

} // verus!
