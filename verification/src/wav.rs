//! Waveform-container ingestion.
//!
//! Reads an uncompressed RIFF/WAVE byte image and produces an [`AudioBuffer`]
//! whose samples are plain values: 16-bit PCM samples as signed integers
//! (the normalized amplitude of a sample `s` is `s / 32768`, so it lies in
//! the half-open unit interval), and IEEE-float samples as their raw
//! little-endian 32-bit patterns, carried through bit-for-bit.
//!
//! The accepted grammar: a `RIFF` header tagged `WAVE`, followed by chunks of
//! `[id:4][size:4][body:size][pad to even]`, all sizes little endian. The
//! first `fmt ` chunk must precede the `data` chunk; other chunks are
//! skipped. A truncated chunk, a `data` chunk before any `fmt ` chunk, a
//! zero channel count or sample rate, or a data length that is not a whole
//! number of frames is a corrupt header. A format other than 16-bit integer
//! PCM (format code 1) or 32-bit IEEE float (format code 3) is unsupported.

use vstd::prelude::*;

use crate::errors::DiarizeError;

verus! {

// --- little-endian readers ---------------------------------------------

/// Unsigned 16-bit little-endian value at byte offset `i`.
pub open spec fn le16(s: Seq<u8>, i: int) -> int {
    s[i] + 256 * s[i + 1]
}

/// Unsigned 32-bit little-endian value at byte offset `i`.
pub open spec fn le32(s: Seq<u8>, i: int) -> int {
    s[i] + 256 * s[i + 1] + 65536 * s[i + 2] + 16777216 * s[i + 3]
}

/// Signed 16-bit little-endian value (two's complement) at byte offset `i`.
pub open spec fn i16_le(s: Seq<u8>, i: int) -> int {
    if le16(s, i) >= 32768 {
        le16(s, i) - 65536
    } else {
        le16(s, i)
    }
}

fn read_u16(bytes: &Vec<u8>, i: usize) -> (r: u16)
    requires
        i + 2 <= bytes@.len(),
    ensures
        r == le16(bytes@, i as int),
{
    // bytes.len() pins bytes@.len() to a machine word, bounding the index sums
    let _n = bytes.len();
    let lo = bytes[i];
    let hi = bytes[i + 1];
    lo as u16 + (hi as u16) * 256
}

fn read_u32(bytes: &Vec<u8>, i: usize) -> (r: u32)
    requires
        i + 4 <= bytes@.len(),
    ensures
        r == le32(bytes@, i as int),
{
    // bytes.len() pins bytes@.len() to a machine word, bounding the index sums
    let _n = bytes.len();
    let b0 = bytes[i] as u32;
    let b1 = bytes[i + 1] as u32;
    let b2 = bytes[i + 2] as u32;
    let b3 = bytes[i + 3] as u32;
    b0 + b1 * 256 + b2 * 65536 + b3 * 16777216
}

fn read_i16(bytes: &Vec<u8>, i: usize) -> (r: i16)
    requires
        i + 2 <= bytes@.len(),
    ensures
        r as int == i16_le(bytes@, i as int),
{
    let v = read_u16(bytes, i);
    if v >= 32768 {
        let wide: i32 = v as i32 - 65536;
        wide as i16
    } else {
        v as i16
    }
}

// --- the data model -----------------------------------------------------

/// Decoded samples, dispatched on the container's declared encoding.
pub enum Samples {
    /// 16-bit PCM; the normalized amplitude of `s` is `s / 32768`.
    Int16(Vec<i16>),
    /// IEEE 754 single precision, as raw little-endian bit patterns; the
    /// normalized amplitude is the value the pattern encodes, unchanged.
    FloatBits(Vec<u32>),
}

/// A canonical sample buffer: interleaved samples plus the header fields
/// copied verbatim from the container. No resampling, no downmixing, no
/// de-interleaving.
pub struct AudioBuffer {
    pub samples: Samples,
    pub sample_rate: u32,
    pub channel_count: u16,
}

/// Mathematical image of [`Samples`].
#[verifier::ext_equal]
pub enum SpecSamples {
    Int16(Seq<i16>),
    FloatBits(Seq<u32>),
}

impl SpecSamples {
    /// Number of interleaved samples, whatever the encoding.
    pub open spec fn count(&self) -> nat {
        match self {
            SpecSamples::Int16(s) => s.len(),
            SpecSamples::FloatBits(s) => s.len(),
        }
    }
}

/// Mathematical image of [`AudioBuffer`].
#[verifier::ext_equal]
pub struct SpecAudio {
    pub samples: SpecSamples,
    pub sample_rate: u32,
    pub channel_count: u16,
}

impl SpecAudio {
    /// Invariant of every buffer the loader hands out: positive rate and
    /// channel count, a whole number of frames, and a sample count that fits
    /// the container's 32-bit chunk length.
    pub open spec fn wf(&self) -> bool {
        &&& self.sample_rate > 0
        &&& self.channel_count > 0
        &&& self.samples.count() % (self.channel_count as nat) == 0
        &&& self.samples.count() <= u32::MAX
    }
}

impl View for Samples {
    type V = SpecSamples;

    open spec fn view(&self) -> SpecSamples {
        match self {
            Samples::Int16(v) => SpecSamples::Int16(v@),
            Samples::FloatBits(v) => SpecSamples::FloatBits(v@),
        }
    }
}

impl View for AudioBuffer {
    type V = SpecAudio;

    open spec fn view(&self) -> SpecAudio {
        SpecAudio {
            samples: self.samples@,
            sample_rate: self.sample_rate,
            channel_count: self.channel_count,
        }
    }
}

impl AudioBuffer {
    /// Number of interleaved samples.
    pub fn sample_count(&self) -> (n: usize)
        ensures
            n == self@.samples.count(),
    {
        match &self.samples {
            Samples::Int16(v) => v.len(),
            Samples::FloatBits(v) => v.len(),
        }
    }
}

// --- the container grammar ----------------------------------------------

/// `RIFF....WAVE` at the head of the image.
pub open spec fn has_riff_wave_magic(s: Seq<u8>) -> bool {
    &&& s.len() >= 12
    &&& s[0] == 82 && s[1] == 73 && s[2] == 70 && s[3] == 70
    &&& s[8] == 87 && s[9] == 65 && s[10] == 86 && s[11] == 69
}

/// Chunk id `fmt ` at offset `i`.
pub open spec fn is_fmt_id(s: Seq<u8>, i: int) -> bool {
    s[i] == 102 && s[i + 1] == 109 && s[i + 2] == 116 && s[i + 3] == 32
}

/// Chunk id `data` at offset `i`.
pub open spec fn is_data_id(s: Seq<u8>, i: int) -> bool {
    s[i] == 100 && s[i + 1] == 97 && s[i + 2] == 116 && s[i + 3] == 97
}

/// The fields this loader reads from a `fmt ` chunk.
#[derive(Clone, Copy, PartialEq, Eq, Structural)]
pub struct FmtInfo {
    pub audio_format: u16,
    pub channel_count: u16,
    pub sample_rate: u32,
    pub bits_per_sample: u16,
}

/// The fixed tail of the two KSDATAFORMAT subformat identifiers, at offset
/// `i`: the fourteen bytes that follow the two-byte format code in the
/// sixteen-byte identifier of an extensible header.
pub open spec fn is_ks_guid_tail(s: Seq<u8>, i: int) -> bool {
    &&& s[i] == 0 && s[i + 1] == 0 && s[i + 2] == 0 && s[i + 3] == 0
    &&& s[i + 4] == 16 && s[i + 5] == 0 && s[i + 6] == 128 && s[i + 7] == 0
    &&& s[i + 8] == 0 && s[i + 9] == 170 && s[i + 10] == 0 && s[i + 11] == 56
    &&& s[i + 12] == 155 && s[i + 13] == 113
}

/// The format code of a `fmt ` chunk body at offset `i` of declared length
/// `size`, with an extensible header (code 65534) resolved to the code its
/// subformat identifier carries. An extensible header resolves only when
/// the body has the forty extensible bytes, the identifier tail is the
/// known one, and the valid-bits field matches the container width;
/// otherwise the unresolvable code 65534 stays, and is later unsupported.
pub open spec fn resolved_format(s: Seq<u8>, i: int, size: int) -> int {
    if le16(s, i) != 65534 {
        le16(s, i)
    } else if size >= 40 && is_ks_guid_tail(s, i + 26) && le16(s, i + 18) == le16(s, i + 14) {
        le16(s, i + 24)
    } else {
        65534
    }
}

/// The `fmt ` chunk fields, read from its body at offset `i` of declared
/// length `size`.
pub open spec fn spec_fmt_fields(s: Seq<u8>, i: int, size: int) -> FmtInfo {
    FmtInfo {
        audio_format: resolved_format(s, i, size) as u16,
        channel_count: le16(s, i + 2) as u16,
        sample_rate: le32(s, i + 4) as u32,
        bits_per_sample: le16(s, i + 14) as u16,
    }
}

/// Walk the chunk list from `pos`, remembering the first `fmt ` chunk, until
/// the `data` chunk. `Some((fmt, off, len))` locates the data body; `None`
/// is a corrupt header (truncated chunk, missing pad byte, short `fmt `
/// body, or `data` before `fmt `).
pub open spec fn scan_chunks(s: Seq<u8>, pos: int, fmt: Option<FmtInfo>) -> Option<
    (FmtInfo, int, int),
>
    decreases s.len() - pos,
{
    if pos + 8 > s.len() {
        None
    } else {
        let size = le32(s, pos + 4);
        if pos + 8 + size > s.len() {
            None
        } else if is_data_id(s, pos) {
            match fmt {
                Some(f) => Some((f, pos + 8, size)),
                None => None,
            }
        } else {
            let nxt = pos + 8 + size + (size % 2);
            if nxt > s.len() {
                None
            } else if is_fmt_id(s, pos) && fmt is None {
                if size < 16 {
                    None
                } else {
                    scan_chunks(s, nxt, Some(spec_fmt_fields(s, pos + 8, size)))
                }
            } else {
                scan_chunks(s, nxt, fmt)
            }
        }
    }
}

/// Decode the data body at `off..off + len` under the `fmt ` fields `f`.
pub open spec fn spec_decode(s: Seq<u8>, f: FmtInfo, off: int, len: int) -> Result<
    SpecAudio,
    DiarizeError,
> {
    if f.channel_count == 0 || f.sample_rate == 0 {
        Err(DiarizeError::CorruptHeader)
    } else if f.audio_format == 1 && f.bits_per_sample == 16 {
        if len % (2 * f.channel_count as int) != 0 {
            Err(DiarizeError::CorruptHeader)
        } else {
            Ok(
                SpecAudio {
                    samples: SpecSamples::Int16(
                        Seq::new((len / 2) as nat, |k: int| i16_le(s, off + 2 * k) as i16),
                    ),
                    sample_rate: f.sample_rate,
                    channel_count: f.channel_count,
                },
            )
        }
    } else if f.audio_format == 3 && f.bits_per_sample == 32 {
        if len % (4 * f.channel_count as int) != 0 {
            Err(DiarizeError::CorruptHeader)
        } else {
            Ok(
                SpecAudio {
                    samples: SpecSamples::FloatBits(
                        Seq::new((len / 4) as nat, |k: int| le32(s, off + 4 * k) as u32),
                    ),
                    sample_rate: f.sample_rate,
                    channel_count: f.channel_count,
                },
            )
        }
    } else {
        Err(DiarizeError::UnsupportedFormat)
    }
}

/// What the loader computes from a byte image, stated over the grammar
/// above: magic, chunk walk, then sample decoding.
pub open spec fn spec_parse_wav(s: Seq<u8>) -> Result<SpecAudio, DiarizeError> {
    if !has_riff_wave_magic(s) {
        Err(DiarizeError::CorruptHeader)
    } else {
        match scan_chunks(s, 12, None) {
            None => Err(DiarizeError::CorruptHeader),
            Some((f, off, len)) => spec_decode(s, f, off, len),
        }
    }
}

// --- the executable loader ----------------------------------------------

fn guid_tail_matches(bytes: &Vec<u8>, i: usize) -> (r: bool)
    requires
        i + 14 <= bytes@.len(),
    ensures
        r == is_ks_guid_tail(bytes@, i as int),
{
    // bytes.len() pins bytes@.len() to a machine word, bounding the index sums
    let _n = bytes.len();
    bytes[i] == 0 && bytes[i + 1] == 0 && bytes[i + 2] == 0 && bytes[i + 3] == 0 && bytes[i + 4]
        == 16 && bytes[i + 5] == 0 && bytes[i + 6] == 128 && bytes[i + 7] == 0 && bytes[i + 8] == 0
        && bytes[i + 9] == 170 && bytes[i + 10] == 0 && bytes[i + 11] == 56 && bytes[i + 12] == 155
        && bytes[i + 13] == 113
}

/// Walk the chunks of `bytes` and locate the `fmt ` fields and data body.
fn find_chunks(bytes: &Vec<u8>) -> (r: Result<(FmtInfo, usize, usize), DiarizeError>)
    requires
        bytes@.len() >= 12,
    ensures
        match r {
            Ok((f, off, sz)) => {
                &&& scan_chunks(bytes@, 12, None) == Some((f, off as int, sz as int))
                &&& off + sz <= bytes@.len()
                &&& sz <= u32::MAX
            },
            Err(e) => e == DiarizeError::CorruptHeader && scan_chunks(bytes@, 12, None) is None,
        },
{
    let mut pos: usize = 12;
    let mut fmt: Option<FmtInfo> = None;
    loop
        invariant
            12 <= pos <= bytes@.len(),
            scan_chunks(bytes@, pos as int, fmt) == scan_chunks(bytes@, 12, None),
        decreases bytes@.len() - pos,
    {
        let remaining = bytes.len() - pos;
        if remaining < 8 {
            return Err(DiarizeError::CorruptHeader);
        }
        let size32 = read_u32(bytes, pos + 4);
        let size = size32 as usize;
        if size > remaining - 8 {
            return Err(DiarizeError::CorruptHeader);
        }
        let body = pos + 8;
        if bytes[pos] == 100 && bytes[pos + 1] == 97 && bytes[pos + 2] == 116 && bytes[pos + 3]
            == 97 {
            return match fmt {
                Some(f) => Ok((f, body, size)),
                None => Err(DiarizeError::CorruptHeader),
            };
        }
        let after_body = body + size;
        let nxt = if size % 2 == 1 {
            if bytes.len() - after_body < 1 {
                return Err(DiarizeError::CorruptHeader);
            }
            after_body + 1
        } else {
            after_body
        };
        if bytes[pos] == 102 && bytes[pos + 1] == 109 && bytes[pos + 2] == 116 && bytes[pos + 3]
            == 32 && fmt.is_none() {
            if size < 16 {
                return Err(DiarizeError::CorruptHeader);
            }
            let raw_format = read_u16(bytes, body);
            let bits = read_u16(bytes, body + 14);
            let audio_format: u16 = if raw_format != 65534 {
                raw_format
            } else if size >= 40 && read_u16(bytes, body + 18) == bits && guid_tail_matches(
                bytes,
                body + 26,
            ) {
                read_u16(bytes, body + 24)
            } else {
                65534
            };
            fmt = Some(
                FmtInfo {
                    audio_format,
                    channel_count: read_u16(bytes, body + 2),
                    sample_rate: read_u32(bytes, body + 4),
                    bits_per_sample: bits,
                },
            );
            proof {
                assert(audio_format == resolved_format(bytes@, body as int, size as int));
            }
        }
        pos = nxt;
    }
}

/// A data length that is a whole number of frames is also a whole number of
/// samples, and the sample count is a whole number of frames per channel.
proof fn lemma_frame_divisibility(len: int, b: int, c: int)
    requires
        b >= 1,
        c >= 1,
        len >= 0,
        len % (b * c) == 0,
    ensures
        len % b == 0,
        (len / b) % c == 0,
{
    let q = len / (b * c);
    assert(b * c >= 1) by (nonlinear_arith)
        requires
            b >= 1,
            c >= 1,
    ;
    vstd::arithmetic::div_mod::lemma_fundamental_div_mod(len, b * c);
    assert(len == (b * c) * q);
    assert(len == b * (c * q) && len == (c * q) * b) by (nonlinear_arith)
        requires
            len == (b * c) * q,
    ;
    vstd::arithmetic::div_mod::lemma_mod_multiples_basic(c * q, b);
    assert(len % b == 0);
    vstd::arithmetic::div_mod::lemma_div_multiples_vanish(c * q, b);
    assert(len / b == c * q);
    vstd::arithmetic::div_mod::lemma_mod_multiples_basic(q, c);
    assert((q * c) % c == 0);
    assert(c * q == q * c) by (nonlinear_arith);
}

/// Decode the data body at `off..off + sz` under the `fmt ` fields `f`.
fn decode_samples(bytes: &Vec<u8>, f: FmtInfo, off: usize, sz: usize) -> (r: Result<
    AudioBuffer,
    DiarizeError,
>)
    requires
        off + sz <= bytes@.len(),
        sz <= u32::MAX,
    ensures
        match r {
            Ok(buf) => spec_decode(bytes@, f, off as int, sz as int) == Ok::<SpecAudio, DiarizeError>(buf@) && buf@.wf(),
            Err(e) => spec_decode(bytes@, f, off as int, sz as int) == Err::<SpecAudio, DiarizeError>(e),
        },
{
    if f.channel_count == 0 || f.sample_rate == 0 {
        return Err(DiarizeError::CorruptHeader);
    }
    if f.audio_format == 1 && f.bits_per_sample == 16 {
        let block: usize = 2 * (f.channel_count as usize);
        if sz % block != 0 {
            return Err(DiarizeError::CorruptHeader);
        }
        proof {
            lemma_frame_divisibility(sz as int, 2, f.channel_count as int);
        }
        // bytes.len() pins bytes@.len() to a machine word, bounding the index sums
        let _blen = bytes.len();
        let n = sz / 2;
        let mut v: Vec<i16> = Vec::new();
        let mut k: usize = 0;
        while k < n
            invariant
                k <= n,
                n == sz / 2,
                sz as int % 2 == 0,
                off + sz <= bytes@.len(),
                bytes@.len() <= usize::MAX,
                v@.len() == k,
                forall|j: int|
                    0 <= j < k ==> v@[j] as int == i16_le(bytes@, off + 2 * j),
            decreases n - k,
        {
            let s = read_i16(bytes, off + 2 * k);
            v.push(s);
            k = k + 1;
        }
        let buf = AudioBuffer {
            samples: Samples::Int16(v),
            sample_rate: f.sample_rate,
            channel_count: f.channel_count,
        };
        proof {
            assert(buf@.samples =~= SpecSamples::Int16(
                Seq::new((sz as int / 2) as nat, |j: int| i16_le(bytes@, off + 2 * j) as i16),
            ));
            assert(spec_decode(bytes@, f, off as int, sz as int) == Ok::<SpecAudio, DiarizeError>(buf@));
        }
        Ok(buf)
    } else if f.audio_format == 3 && f.bits_per_sample == 32 {
        let block: usize = 4 * (f.channel_count as usize);
        if sz % block != 0 {
            return Err(DiarizeError::CorruptHeader);
        }
        proof {
            lemma_frame_divisibility(sz as int, 4, f.channel_count as int);
        }
        // bytes.len() pins bytes@.len() to a machine word, bounding the index sums
        let _blen = bytes.len();
        let n = sz / 4;
        let mut v: Vec<u32> = Vec::new();
        let mut k: usize = 0;
        while k < n
            invariant
                k <= n,
                n == sz / 4,
                sz as int % 4 == 0,
                off + sz <= bytes@.len(),
                bytes@.len() <= usize::MAX,
                v@.len() == k,
                forall|j: int|
                    0 <= j < k ==> v@[j] as int == le32(bytes@, off + 4 * j),
            decreases n - k,
        {
            let s = read_u32(bytes, off + 4 * k);
            v.push(s);
            k = k + 1;
        }
        let buf = AudioBuffer {
            samples: Samples::FloatBits(v),
            sample_rate: f.sample_rate,
            channel_count: f.channel_count,
        };
        proof {
            assert(buf@.samples =~= SpecSamples::FloatBits(
                Seq::new((sz as int / 4) as nat, |j: int| le32(bytes@, off + 4 * j) as u32),
            ));
            assert(spec_decode(bytes@, f, off as int, sz as int) == Ok::<SpecAudio, DiarizeError>(buf@));
        }
        Ok(buf)
    } else {
        Err(DiarizeError::UnsupportedFormat)
    }
}

/// Normalization bound for 16-bit PCM: every decoded sample value lies in
/// [-32768, 32768), so its normalized amplitude — the sample divided by
/// 32768 — lies in the half-open interval [-1, 1). The positive bound is
/// never attained; the divisor 32768 (not 32767) is deliberate and matches
/// what the diarization engine was trained against.
pub proof fn lemma_pcm16_normalized_range(q: Seq<i16>)
    ensures
        forall|k: int|
            0 <= k < q.len() ==> -32768 <= (#[trigger] q[k]) as int && (q[k] as int) < 32768,
{
}

/// Parse a whole waveform container image into a canonical sample buffer.
///
/// The result is exactly what [`spec_parse_wav`] says of the bytes: either a
/// well-formed buffer whose header fields and samples come verbatim from the
/// image, or the error the grammar assigns to it. Reading the image off disk
/// is the caller's business; this function is total on byte images.
pub fn parse_wav(bytes: &Vec<u8>) -> (r: Result<AudioBuffer, DiarizeError>)
    ensures
        match r {
            Ok(buf) => spec_parse_wav(bytes@) == Ok::<SpecAudio, DiarizeError>(buf@) && buf@.wf(),
            Err(e) => spec_parse_wav(bytes@) == Err::<SpecAudio, DiarizeError>(e),
        },
{
    if bytes.len() < 12 {
        return Err(DiarizeError::CorruptHeader);
    }
    if !(bytes[0] == 82 && bytes[1] == 73 && bytes[2] == 70 && bytes[3] == 70 && bytes[8] == 87
        && bytes[9] == 65 && bytes[10] == 86 && bytes[11] == 69) {
        return Err(DiarizeError::CorruptHeader);
    }
    match find_chunks(bytes) {
        Err(e) => Err(e),
        Ok((f, off, sz)) => decode_samples(bytes, f, off, sz),
    }
}

} // verus!
