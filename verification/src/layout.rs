//! The in-memory layout: a display name plus the parsed keys.

use vstd::prelude::*;

use crate::table::Key;

verus! {

/// A complete keyboard layout: a display name and the keys in input-table
/// order.
#[derive(Debug)]
pub struct Keyboard {
    pub name: String,
    pub keys: Vec<Key>,
}

impl Keyboard {
    /// Combines a display name and the parser's output into a layout value.
    /// Pure aggregation: the name is taken verbatim and the keys keep their
    /// order.
    pub fn new(name: String, keys: Vec<Key>) -> (kb: Keyboard)
        ensures
            kb.name@ == name@,
            kb.keys@ == keys@,
    {
        Keyboard { name, keys }
    }
}

} // verus!
