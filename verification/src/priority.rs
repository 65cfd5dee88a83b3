//! Priority for a todo item.

use vstd::prelude::*;

use crate::text::{chars_of, lowered, seq_eq_str, trim, trim_lower};

verus! {

/// Priority for a todo item.
#[derive(Clone, Copy, Debug, PartialEq, Eq, Structural)]
pub enum Priority {
    Low,
    Medium,
    High,
}

/// The numeric rank of a priority (`Low` = 1 … `High` = 3).
pub open spec fn priority_rank(p: Priority) -> u8 {
    match p {
        Priority::Low => 1,
        Priority::Medium => 2,
        Priority::High => 3,
    }
}

/// What `"…".parse::<Priority>()` gives: case-insensitive name or digit, after trimming.
pub open spec fn parse_priority_spec(s: Seq<char>) -> Option<Priority> {
    let t = lowered(trim(s));
    if t == "low"@ || t == "1"@ {
        Some(Priority::Low)
    } else if t == "medium"@ || t == "2"@ {
        Some(Priority::Medium)
    } else if t == "high"@ || t == "3"@ {
        Some(Priority::High)
    } else {
        None
    }
}

/// The display text of a priority.
pub open spec fn priority_text(p: Priority) -> Seq<char> {
    match p {
        Priority::Low => "low"@,
        Priority::Medium => "medium"@,
        Priority::High => "high"@,
    }
}

impl Priority {
    pub fn as_u8(self) -> (r: u8)
        ensures
            r == priority_rank(self),
    {
        match self {
            Priority::Low => 1,
            Priority::Medium => 2,
            Priority::High => 3,
        }
    }

    /// Parses `low`/`medium`/`high` or `1`/`2`/`3` (trimmed, case-insensitive).
    pub fn parse(s: &str) -> (r: Option<Priority>)
        ensures
            r == parse_priority_spec(s@),
    {
        let t = trim_lower(s);
        if seq_eq_str(&t, "low") || seq_eq_str(&t, "1") {
            Some(Priority::Low)
        } else if seq_eq_str(&t, "medium") || seq_eq_str(&t, "2") {
            Some(Priority::Medium)
        } else if seq_eq_str(&t, "high") || seq_eq_str(&t, "3") {
            Some(Priority::High)
        } else {
            None
        }
    }

    /// The display text: `low`, `medium` or `high`.
    pub fn to_display_string(&self) -> (r: String)
        ensures
            r@ == priority_text(*self),
    {
        let s = match self {
            Priority::Low => "low",
            Priority::Medium => "medium",
            Priority::High => "high",
        };
        let v = chars_of(s);
        crate::text::string_of(&v)
    }
}

impl core::str::FromStr for Priority {
    type Err = ();

    fn from_str(s: &str) -> (r: Result<Priority, ()>)
        ensures
            r == (match parse_priority_spec(s@) {
                Some(p) => Ok::<Priority, ()>(p),
                None => Err::<Priority, ()>(()),
            }),
    {
        match Priority::parse(s) {
            Some(p) => Ok(p),
            None => Err(()),
        }
    }
}

} // verus!
