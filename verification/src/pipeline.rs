//! The image streamer pipeline: the verified decisions behind the local
//! capture of checkpoint images and their relay to the coordinator.

use vstd::prelude::*;

pub mod protobuf;
pub mod unix_pipe;

verus! {

} // verus!
