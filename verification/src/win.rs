//! Strings in the form the `*W` Win32 calls take them.

use vstd::prelude::*;

use crate::text::{to_utf16, utf16};

verus! {

/// UTF-16, NUL-terminated, for the `*W` APIs.
pub fn wide(s: &str) -> (w: Vec<u16>)
    ensures
        w@ == utf16(s@).push(0u16),
{
    let mut w = to_utf16(s);
    w.push(0);
    w
}

} // verus!
