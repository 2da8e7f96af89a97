//! The decision logic of a desktop video converter built around FFmpeg:
//! the command lines it runs, the reading of FFmpeg's progress output, the
//! choice of hardware encoders, and the outcome of a transcoding job.
use vstd::prelude::*;

pub mod ffmpeg;
pub mod progress;
pub mod tasks;
pub mod text;

verus! {

/// The answer to the front end's connectivity check.
pub fn ping() -> (r: String)
    ensures
        r@ == "VCT backend ready"@,
{
    String::from_str("VCT backend ready")
}

} // verus!
