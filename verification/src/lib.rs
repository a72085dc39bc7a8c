//! Building blocks for custom GitLab runners, with the protocol rules proved.
use vstd::prelude::*;

pub mod artifact;
pub mod client;
pub mod git;
pub mod job;
pub mod logging;
pub mod masking;
pub mod mock;
pub mod paths;
pub mod protocol;
pub mod run;
pub mod runlist;
pub mod runner;
pub mod text;
pub mod uploader;

verus! {

/// Result type for various stagings of a jobs
pub type JobResult = Result<(), ()>;

} // verus!
