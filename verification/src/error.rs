//! The one error type of the library.
use vstd::prelude::*;

use crate::text::{append_str, lit};

verus! {

/// What went wrong, and at which stage: reading characters, reading the
/// grammar, or running the program.
#[derive(Debug, Clone, PartialEq)]
pub enum SpriteError {
    Lex(String),
    Parse(String),
    Runtime(String),
}

pub type SpriteResult<T> = Result<T, SpriteError>;

/// The view of an error: the stage and the message.
pub enum ErrorV {
    Lex(Seq<char>),
    Parse(Seq<char>),
    Runtime(Seq<char>),
}

impl View for SpriteError {
    type V = ErrorV;

    open spec fn view(&self) -> ErrorV {
        match self {
            SpriteError::Lex(m) => ErrorV::Lex(m@),
            SpriteError::Parse(m) => ErrorV::Parse(m@),
            SpriteError::Runtime(m) => ErrorV::Runtime(m@),
        }
    }
}

/// The text an error is shown with: the stage, a colon, and the message.
pub open spec fn error_text(e: ErrorV) -> Seq<char> {
    match e {
        ErrorV::Lex(m) => "lex error: "@ + m,
        ErrorV::Parse(m) => "parse error: "@ + m,
        ErrorV::Runtime(m) => "runtime error: "@ + m,
    }
}

impl SpriteError {
    /// The error as it is shown to a user, such as `runtime error: division by zero`.
    pub fn to_string(&self) -> (r: String)
        ensures
            r@ == error_text(self@),
    {
        match self {
            SpriteError::Lex(m) => {
                let mut s = lit("lex error: ");
                append_str(&mut s, m.as_str());
                s
            },
            SpriteError::Parse(m) => {
                let mut s = lit("parse error: ");
                append_str(&mut s, m.as_str());
                s
            },
            SpriteError::Runtime(m) => {
                let mut s = lit("runtime error: ");
                append_str(&mut s, m.as_str());
                s
            },
        }
    }

    /// A copy of the error.
    pub fn duplicate(&self) -> (r: SpriteError)
        ensures
            r@ == self@,
    {
        match self {
            SpriteError::Lex(m) => SpriteError::Lex(m.clone()),
            SpriteError::Parse(m) => SpriteError::Parse(m.clone()),
            SpriteError::Runtime(m) => SpriteError::Runtime(m.clone()),
        }
    }
}

} // verus!
