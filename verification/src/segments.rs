//! Speaker segments and the engine-facing configuration.
//!
//! The external engine reports each segment as a pair of sample offsets at
//! its fixed working rate together with a speaker index. This module holds
//! the configuration preset handed to the engine and the validation that
//! turns the engine's raw report into a [`SegmentList`]: a list every
//! element of which provably satisfies the engine's interface contract
//! (ordered endpoints, speaker index under the configured bound).

use vstd::prelude::*;

use crate::errors::DiarizeError;

verus! {

/// Samples per second in the engine's reported offsets: the engine works on
/// audio resampled to 16 kHz, whatever the container's rate was.
pub const ENGINE_SAMPLE_RATE: u64 = 16000;

/// Named tuning preset affecting the engine's internal thresholds.
#[derive(Clone, Copy, Debug, PartialEq, Eq, Structural)]
pub enum DomainTuning {
    /// Telephone-style conversational audio, two or more parties.
    Callhome,
}

/// Immutable per-run configuration: the bound on distinct speaker indices
/// and the tuning preset. Chosen once per run, never persisted.
#[derive(Clone, Copy, Debug, PartialEq, Eq, Structural)]
pub struct DiarizationConfig {
    pub max_speakers: usize,
    pub domain_tuning: DomainTuning,
}

impl DiarizationConfig {
    /// The telephone-call preset. The speaker bound matches the engine
    /// model's own capacity of eight distinct speakers.
    pub fn callhome() -> (c: DiarizationConfig)
        ensures
            c.max_speakers == 8,
            c.domain_tuning == DomainTuning::Callhome,
    {
        DiarizationConfig { max_speakers: 8, domain_tuning: DomainTuning::Callhome }
    }
}

/// One speaker-attributed segment: start and end as sample offsets at
/// [`ENGINE_SAMPLE_RATE`] (so the time in seconds is the offset divided by
/// that rate, exactly), and an anonymous speaker index.
#[derive(Clone, Copy, Debug, PartialEq, Eq, Structural)]
pub struct SpeakerSegment {
    pub start: u64,
    pub end: u64,
    pub speaker_id: usize,
}

impl SpeakerSegment {
    /// The engine's per-segment contract: endpoints in order, speaker index
    /// under the configured bound.
    pub open spec fn wf(&self, max_speakers: usize) -> bool {
        &&& self.start <= self.end
        &&& self.speaker_id < max_speakers
    }
}

/// The ordered segments of one run, in the engine's emission order, each
/// validated against the configuration the run was made with.
pub struct SegmentList {
    segments: Vec<SpeakerSegment>,
    config: DiarizationConfig,
}

impl View for SegmentList {
    type V = Seq<SpeakerSegment>;

    closed spec fn view(&self) -> Seq<SpeakerSegment> {
        self.segments@
    }
}

impl SegmentList {
    /// The configuration this list was validated against.
    pub closed spec fn spec_config(&self) -> DiarizationConfig {
        self.config
    }

    #[verifier::type_invariant]
    spec fn type_inv(&self) -> bool {
        forall|i: int|
            0 <= i < self.segments@.len() ==> (#[trigger] self.segments@[i]).wf(
                self.config.max_speakers,
            )
    }

    /// Validate the engine's raw report against the configuration.
    ///
    /// Succeeds exactly when every reported segment satisfies the engine
    /// contract, and then carries the segments through unchanged, in order;
    /// a report with any out-of-contract segment is an engine failure.
    pub fn adapt(raw: Vec<SpeakerSegment>, config: DiarizationConfig) -> (r: Result<
        SegmentList,
        DiarizeError,
    >)
        ensures
            match r {
                Ok(list) => {
                    &&& list@ == raw@
                    &&& list.spec_config() == config
                    &&& forall|i: int|
                        0 <= i < raw@.len() ==> (#[trigger] raw@[i]).wf(config.max_speakers)
                },
                Err(e) => {
                    &&& e == DiarizeError::Engine
                    &&& exists|i: int|
                        0 <= i < raw@.len() && !(#[trigger] raw@[i]).wf(config.max_speakers)
                },
            },
    {
        let mut i: usize = 0;
        while i < raw.len()
            invariant
                i <= raw@.len(),
                forall|j: int| 0 <= j < i ==> (#[trigger] raw@[j]).wf(config.max_speakers),
            decreases raw@.len() - i,
        {
            let s = raw[i];
            if !(s.start <= s.end && s.speaker_id < config.max_speakers) {
                proof {
                    assert(!raw@[i as int].wf(config.max_speakers));
                }
                return Err(DiarizeError::Engine);
            }
            i = i + 1;
        }
        Ok(SegmentList { segments: raw, config })
    }

    /// Number of segments.
    pub fn len(&self) -> (n: usize)
        ensures
            n == self@.len(),
    {
        self.segments.len()
    }

    /// The segment at `i`.
    pub fn get(&self, i: usize) -> (s: SpeakerSegment)
        requires
            i < self@.len(),
        ensures
            s == self@[i as int],
            s.wf(self.spec_config().max_speakers),
    {
        proof {
            use_type_invariant(self);
        }
        self.segments[i]
    }
}

} // verus!
