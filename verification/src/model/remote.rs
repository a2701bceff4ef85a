use vstd::prelude::*;

verus! {

/// Name and URL of a configured remote.
#[derive(Clone, Debug, PartialEq, Eq)]
pub struct RemoteMeta {
    pub remote: String,
    pub url: String,
}

} // verus!
