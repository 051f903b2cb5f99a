//! A factory and the production lines that belong to it.

use vstd::prelude::*;

verus! {

/// A factory: where it is and which lines it runs.
#[derive(Debug, Clone)]
pub struct Factory {
    /// The name of the factory.
    pub name: String,
    /// The id of the factory.
    pub id: String,
    /// The location of the factory.
    pub location: String,
    /// The lines of the factory.
    pub lines: Vec<String>,
}

} // verus!
