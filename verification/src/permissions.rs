//! Whether the system lets the application press keys, where that takes no
//! special grant.

use vstd::prelude::*;

verus! {

/// Keystrokes need no grant here: they are trusted.
pub fn accessibility_trusted() -> (r: bool)
    ensures
        r,
{
    true
}

/// There is nothing to ask for: keystrokes are trusted.
pub fn request_accessibility() -> (r: bool)
    ensures
        r,
{
    true
}

} // verus!
