//! Runtime events.

use vstd::prelude::*;

verus! {

/// A named event published by the Runtime or a module.
#[derive(Debug, Clone, PartialEq, Eq)]
pub struct Event {
    pub name: String,
}

impl Event {
    /// An event with the given name.
    pub fn new(name: &str) -> (e: Self)
        ensures
            e.name@ == name@,
    {
        Self { name: name.to_owned() }
    }
}

} // verus!
