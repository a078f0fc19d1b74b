//! The crate's error type.
use vstd::prelude::*;
use vstd::string::StringExecFns;

verus! {

#[verifier::external_type_specification]
#[verifier::external_body]
pub struct ExIoError(std::io::Error);

/// Errors of the language server.
#[derive(Debug)]
pub enum Error {
    /// Input was not a valid hex color literal.
    InvalidHex(String),
    /// An LSP position references a location outside the current document.
    PositionOutOfBounds {
        /// Line index (0-based, as in LSP).
        line: u32,
        /// Character index in UTF-16 code units.
        character: u32,
    },
    /// Byte-offset arithmetic overflowed while applying an incremental edit.
    OffsetOverflow,
    /// Tree-sitter failed to load its grammar.
    GrammarLoad,
    /// Underlying I/O failure.
    Io(std::io::Error),
}

/// What `format!("{:?}", s)` gives for a string `s`: `s` quoted, with
/// special characters escaped.
pub uninterp spec fn debug_quoted(s: Seq<char>) -> Seq<char>;

/// `s` formatted with `Debug` (`<str as core::fmt::Debug>::fmt`).
#[verifier::external_body]
fn debug_text(s: &str) -> (r: String)
    ensures
        r@ == debug_quoted(s@),
{
    format!("{:?}", s)
}

/// The message of an I/O error (`<std::io::Error as Display>::fmt`); the
/// text depends on the operating system and is not described.
#[verifier::external_body]
fn io_error_text(e: &std::io::Error) -> String {
    e.to_string()
}

/// The decimal digit `d`.
pub open spec fn digit_char(d: nat) -> char {
    seq!['0', '1', '2', '3', '4', '5', '6', '7', '8', '9'][d as int]
}

/// The decimal representation of `x`, without leading zeros.
pub open spec fn decimal(x: nat) -> Seq<char>
    decreases x,
{
    if x < 10 {
        seq![digit_char(x)]
    } else {
        decimal(x / 10).push(digit_char(x % 10))
    }
}

fn digit_str(d: u32) -> (r: &'static str)
    requires
        d < 10,
    ensures
        r@ == seq![digit_char(d as nat)],
{
    proof {
        reveal_strlit("0");
        reveal_strlit("1");
        reveal_strlit("2");
        reveal_strlit("3");
        reveal_strlit("4");
        reveal_strlit("5");
        reveal_strlit("6");
        reveal_strlit("7");
        reveal_strlit("8");
        reveal_strlit("9");
    }
    if d == 0 {
        "0"
    } else if d == 1 {
        "1"
    } else if d == 2 {
        "2"
    } else if d == 3 {
        "3"
    } else if d == 4 {
        "4"
    } else if d == 5 {
        "5"
    } else if d == 6 {
        "6"
    } else if d == 7 {
        "7"
    } else if d == 8 {
        "8"
    } else {
        "9"
    }
}

/// `x` in decimal.
pub fn decimal_string(x: u32) -> (r: String)
    ensures
        r@ == decimal(x as nat),
    decreases x,
{
    if x < 10 {
        String::from_str(digit_str(x))
    } else {
        let mut s = decimal_string(x / 10);
        s.append(digit_str(x % 10));
        s
    }
}

impl Error {
    /// The error's message, as its `Display` shows it.
    pub fn message(&self) -> (r: String)
        ensures
            self matches Error::InvalidHex(s) ==> r@ == "invalid hex color literal: "@ + debug_quoted(s@),
            self matches Error::PositionOutOfBounds { line, character } ==> r@
                == "position out of document bounds: line="@ + decimal(line as nat) + " character="@
                + decimal(character as nat),
            self is OffsetOverflow ==> r@ == "byte offset arithmetic overflow"@,
            self is GrammarLoad ==> r@ == "tree-sitter failed to load grammar"@,
    {
        match self {
            Error::InvalidHex(s) => {
                let mut m = String::from_str("invalid hex color literal: ");
                m.append(debug_text(s.as_str()).as_str());
                m
            },
            Error::PositionOutOfBounds { line, character } => {
                let mut m = String::from_str("position out of document bounds: line=");
                m.append(decimal_string(*line).as_str());
                m.append(" character=");
                m.append(decimal_string(*character).as_str());
                m
            },
            Error::OffsetOverflow => String::from_str("byte offset arithmetic overflow"),
            Error::GrammarLoad => String::from_str("tree-sitter failed to load grammar"),
            Error::Io(e) => io_error_text(e),
        }
    }
}

} // verus!
