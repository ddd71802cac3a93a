//! Steam: its launch options, its library index and its app manifests, read
//! from text already in memory.

pub mod launch;
pub mod library;

use vstd::prelude::*;

use crate::launcher::{Origin, OriginV};

verus! {

/// The launcher this module reads, named `"steam"` to machines and `"Steam"`
/// to people.
pub fn origin() -> (o: Origin)
    ensures
        o@ == (OriginV { key: "steam"@, label: "Steam"@ }),
{
    Origin::new("steam", "Steam")
}

} // verus!
