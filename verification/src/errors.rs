//! Error taxonomy of the diarization pipeline.
//!
//! Every error is fatal at the point of detection: the driver converts it
//! into one diagnostic line on the secondary channel and exits with code 1.
//! No error is ever reported on the primary channel.

use vstd::prelude::*;

verus! {

/// One error kind per pipeline stage.
#[derive(Clone, Copy, Debug, PartialEq, Eq, Structural)]
pub enum DiarizeError {
    /// The audio path could not be opened or read.
    FileAccess,
    /// The waveform container header could not be parsed.
    CorruptHeader,
    /// The sample encoding is neither 16-bit PCM nor 32-bit IEEE float.
    UnsupportedFormat,
    /// The diarization engine failed: it refused the model resource, failed
    /// during inference, or reported a segment outside its own contract.
    Engine,
    /// A segment value cannot be represented in the output encoding. The
    /// serializer renders bounded integers, which always have a rendering,
    /// so this kind marks the guarded-against case rather than a reachable
    /// one.
    Serialization,
}

/// What each error kind means, one line, stated as its view.
pub open spec fn spec_describe(e: DiarizeError) -> Seq<char> {
    match e {
        DiarizeError::FileAccess => "cannot open or read the audio file"@,
        DiarizeError::CorruptHeader => "corrupt waveform container header"@,
        DiarizeError::UnsupportedFormat => "unsupported sample format"@,
        DiarizeError::Engine => "diarization engine failure"@,
        DiarizeError::Serialization => "value not representable in the output encoding"@,
    }
}

impl DiarizeError {
    /// Human-readable description for the diagnostic line on the secondary
    /// channel.
    pub fn describe(&self) -> (r: &'static str)
        ensures
            r@ == spec_describe(*self),
    {
        match self {
            DiarizeError::FileAccess => "cannot open or read the audio file",
            DiarizeError::CorruptHeader => "corrupt waveform container header",
            DiarizeError::UnsupportedFormat => "unsupported sample format",
            DiarizeError::Engine => "diarization engine failure",
            DiarizeError::Serialization => "value not representable in the output encoding",
        }
    }
}

} // verus!
