//! Unique identifier for a todo item.

use vstd::prelude::*;

verus! {

/// Unique identifier for a todo item. Never zero; use it for completion and deletion.
#[derive(Clone, Copy, Debug, PartialEq, Eq, Hash, PartialOrd, Ord, Structural)]
pub struct TodoId(u64);

impl View for TodoId {
    type V = u64;

    closed spec fn view(&self) -> u64 {
        self.0
    }
}

impl TodoId {
    #[verifier::type_invariant]
    closed spec fn nonzero(self) -> bool {
        self.0 != 0
    }

    /// Creates a `TodoId` from a raw number (e.g. when loading from storage); `None` for zero.
    pub fn from_raw(n: u64) -> (res: Option<TodoId>)
        ensures
            n == 0 <==> res is None,
            res matches Some(id) ==> id@ == n,
    {
        if n == 0 {
            None
        } else {
            Some(TodoId(n))
        }
    }

    /// The decimal text of the id (what the id displays as).
    pub fn to_display_string(self) -> (r: String)
        ensures
            r@ == crate::text::dec(self@ as nat),
    {
        let v = crate::text::dec_chars(self.as_u64());
        crate::text::string_of(&v)
    }

    /// The raw numeric id (e.g. for serialization).
    pub fn as_u64(self) -> (r: u64)
        ensures
            r == self@,
            r != 0,
    {
        proof {
            use_type_invariant(&self);
        }
        self.0
    }
}

} // verus!
