use vstd::prelude::*;

verus! {

/// The configuration level a config entry stems from.
#[derive(Clone, Debug, PartialEq, Eq)]
pub enum GitConfigLevel {
    Local,
    Global,
    System,
}

/// A single entry of the repository configuration.
#[derive(Clone, Debug, PartialEq, Eq)]
pub struct GitConfigEntry {
    pub name: String,
    pub value: String,
    pub level: GitConfigLevel,
}

} // verus!
