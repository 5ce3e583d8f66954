//! Speaker-diarization core: WAV ingestion, duration accounting, engine-output
//! validation, and one-line JSON serialization of speaker segments.
//!
//! The neural diarization engine itself is an external collaborator; this
//! library holds everything around it: it decodes the waveform container into
//! plain samples, checks the engine's reported segments against the configured
//! speaker bound, and renders the ordered segment list as exactly one line of
//! structured output.

use vstd::prelude::*;

pub mod errors;
pub mod segments;
pub mod serialize;
pub mod wav;

verus! {

/// Duration of an interleaved sample buffer, in whole milliseconds.
///
/// `n_samples` counts individual interleaved samples across all channels,
/// so the duration is `n_samples / rate / channels` seconds, here computed
/// exactly in integer milliseconds (rounded toward zero). The bound on
/// `n_samples` is forced by the container format: a RIFF chunk length is a
/// 32-bit field, so no parsed buffer holds more samples than that.
pub fn duration_millis(n_samples: u64, sample_rate: u32, channel_count: u16) -> (ms: u64)
    requires
        sample_rate > 0,
        channel_count > 0,
        n_samples <= u32::MAX as u64,
    ensures
        ms == (n_samples * 1000) as int / (sample_rate as int * channel_count as int),
{
    proof {
        assert(sample_rate as int * channel_count as int >= 1) by (nonlinear_arith)
            requires
                sample_rate >= 1,
                channel_count >= 1,
        ;
        assert(sample_rate as int * channel_count as int <= u32::MAX as int * u16::MAX as int)
            by (nonlinear_arith)
            requires
                sample_rate <= u32::MAX,
                channel_count <= u16::MAX,
        ;
    }
    let total: u64 = n_samples * 1000;
    let divisor: u64 = (sample_rate as u64) * (channel_count as u64);
    total / divisor
}

} // verus!
