//! Names of projects.
use vstd::prelude::*;
use crate::text::{chars_of, char_is_ascii_alphanumeric, is_ascii_alphanumeric};

verus! {

pub open spec fn project_name_char(c: char) -> bool {
    is_ascii_alphanumeric(c) || c == '-' || c == '_' || c == '.'
}

/// A project name: non-empty ASCII letters, digits, `-`, `_` and `.`.
pub fn valid_project_name(name: &str) -> (r: bool)
    ensures
        r == (name@.len() > 0 && forall|i: int| 0 <= i < name@.len() ==> project_name_char(#[trigger] name@[i])),
{
    let chars = chars_of(name);
    if chars.len() == 0 {
        return false;
    }
    let mut i: usize = 0;
    while i < chars.len()
        invariant
            i <= chars@.len(),
            chars@ == name@,
            forall|j: int| 0 <= j < i ==> project_name_char(#[trigger] chars@[j]),
        decreases chars@.len() - i,
    {
        let c = chars[i];
        if !(char_is_ascii_alphanumeric(c) || c == '-' || c == '_' || c == '.') {
            return false;
        }
        i = i + 1;
    }
    true
}

} // verus!
