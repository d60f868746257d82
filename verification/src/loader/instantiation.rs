//! What initializing a module comes to: the module's own `initialize`
//! decides, and a failure is reported under the module's name.

use vstd::prelude::*;
use crate::errors::ModuleError;

verus! {

/// A module failed to initialize.
#[derive(Debug, Clone, PartialEq, Eq)]
pub struct InstantiationError {
    /// The module's declared name.
    pub name: String,
    /// Why it failed.
    pub source: ModuleError,
}

/// The outcome of instantiating the module `name` whose `initialize`
/// returned `outcome`: success with it, or its error under the module's
/// name.
pub fn initialization_result(name: &str, outcome: Result<(), ModuleError>) -> (r: Result<(), InstantiationError>)
    ensures
        r is Ok <==> outcome is Ok,
        r matches Err(e) ==> e.name@ == name@ && outcome == Err::<(), ModuleError>(e.source),
{
    match outcome {
        Ok(()) => Ok(()),
        Err(source) => Err(InstantiationError { name: name.to_owned(), source }),
    }
}

} // verus!
