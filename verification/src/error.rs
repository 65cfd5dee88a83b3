//! Errors from todo operations.

use vstd::prelude::*;

use crate::id::TodoId;
use crate::text::{chars_of, dec, dec_chars, string_of};

verus! {

/// Errors from todo operations.
#[derive(Debug, PartialEq, Eq, Structural)]
pub enum TodoError {
    /// Title was empty or invalid.
    InvalidInput,
    /// No todo with the given id.
    NotFound(TodoId),
}

/// The message of an error.
pub open spec fn error_text(e: TodoError) -> Seq<char> {
    match e {
        TodoError::InvalidInput => "invalid input: title must be non-empty"@,
        TodoError::NotFound(id) => "todo not found: "@ + dec(id@ as nat),
    }
}

impl TodoError {
    /// The message of this error (what the error displays as).
    pub fn to_display_string(&self) -> (r: String)
        ensures
            r@ == error_text(*self),
    {
        match self {
            TodoError::InvalidInput => {
                let v = chars_of("invalid input: title must be non-empty");
                string_of(&v)
            },
            TodoError::NotFound(id) => {
                let mut v = chars_of("todo not found: ");
                let mut d = dec_chars(id.as_u64());
                v.append(&mut d);
                string_of(&v)
            },
        }
    }
}

} // verus!
