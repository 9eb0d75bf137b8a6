//! Update and build-cache orchestration for a launcher that stages build
//! artifacts for a locally running host application.
//!
//! The library holds the decision logic: when cached release metadata or a
//! local build is stale, which remote assets to fetch, how to aggregate
//! partial download failures, how to fingerprint a plugin directory to gate
//! rebuilds, and how to back up and replace a file of another application
//! without ever losing the pristine original.  All file, network and process
//! work is left to the surrounding program, which feeds plain values in and
//! carries the decided actions out.

use vstd::prelude::*;

pub mod gate;
pub mod fingerprint;
pub mod patch;
pub mod records;
pub mod update;

verus! {

} // verus!
