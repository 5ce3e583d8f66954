//! Tests of the waveform loader: hand-built containers, containers written
//! by the `hound` reference codec, and the rejection paths.

use diarize::duration_millis;
use diarize::errors::DiarizeError;
use diarize::wav::{parse_wav, Samples};

/// Build a minimal RIFF/WAVE image with one fmt chunk and one data chunk.
fn wav_bytes(format: u16, channels: u16, rate: u32, bits: u16, data: &[u8]) -> Vec<u8> {
    let mut v: Vec<u8> = Vec::new();
    v.extend_from_slice(b"RIFF");
    let riff_size = 4 + 8 + 16 + 8 + data.len() as u32;
    v.extend_from_slice(&riff_size.to_le_bytes());
    v.extend_from_slice(b"WAVE");
    v.extend_from_slice(b"fmt ");
    v.extend_from_slice(&16u32.to_le_bytes());
    v.extend_from_slice(&format.to_le_bytes());
    v.extend_from_slice(&channels.to_le_bytes());
    v.extend_from_slice(&rate.to_le_bytes());
    let block_align = channels * (bits / 8);
    let byte_rate = rate * block_align as u32;
    v.extend_from_slice(&byte_rate.to_le_bytes());
    v.extend_from_slice(&block_align.to_le_bytes());
    v.extend_from_slice(&bits.to_le_bytes());
    v.extend_from_slice(b"data");
    v.extend_from_slice(&(data.len() as u32).to_le_bytes());
    v.extend_from_slice(data);
    v
}

fn pcm16_data(samples: &[i16]) -> Vec<u8> {
    let mut d: Vec<u8> = Vec::new();
    for s in samples {
        d.extend_from_slice(&s.to_le_bytes());
    }
    d
}

#[test]
fn parse_pcm16_mono() {
    let samples: Vec<i16> = vec![0, 1000, -1000, 32767, -32768];
    let bytes = wav_bytes(1, 1, 16000, 16, &pcm16_data(&samples));
    let buf = parse_wav(&bytes).unwrap();
    assert_eq!(buf.sample_rate, 16000);
    assert_eq!(buf.channel_count, 1);
    assert_eq!(buf.sample_count(), 5);
    match &buf.samples {
        Samples::Int16(v) => assert_eq!(v, &samples),
        Samples::FloatBits(_) => panic!("wrong encoding"),
    }
}

#[test]
fn pcm16_normalized_in_unit_range() {
    // every 16-bit sample, normalized by 32768, lands in [-1.0, 1.0)
    let samples: Vec<i16> = vec![i16::MIN, -1, 0, 1, i16::MAX];
    let bytes = wav_bytes(1, 1, 8000, 16, &pcm16_data(&samples));
    let buf = parse_wav(&bytes).unwrap();
    match &buf.samples {
        Samples::Int16(v) => {
            for &s in v {
                let normalized = s as f32 / 32768.0;
                assert!(normalized >= -1.0);
                assert!(normalized < 1.0);
            }
            assert_eq!(v[0] as f32 / 32768.0, -1.0);
        }
        Samples::FloatBits(_) => panic!("wrong encoding"),
    }
}

#[test]
fn parse_float_samples_identical() {
    // float samples come through bit-for-bit
    let samples: Vec<f32> = vec![0.0, 0.5, -1.0, 0.25, 1.0e-3, -0.0];
    let mut data: Vec<u8> = Vec::new();
    for s in &samples {
        data.extend_from_slice(&s.to_bits().to_le_bytes());
    }
    let bytes = wav_bytes(3, 1, 44100, 32, &data);
    let buf = parse_wav(&bytes).unwrap();
    assert_eq!(buf.sample_rate, 44100);
    match &buf.samples {
        Samples::FloatBits(v) => {
            assert_eq!(v.len(), samples.len());
            for (bits, s) in v.iter().zip(samples.iter()) {
                assert_eq!(f32::from_bits(*bits).to_bits(), s.to_bits());
            }
        }
        Samples::Int16(_) => panic!("wrong encoding"),
    }
}

#[test]
fn parse_stereo_interleaved() {
    let samples: Vec<i16> = vec![10, -10, 20, -20, 30, -30];
    let bytes = wav_bytes(1, 2, 48000, 16, &pcm16_data(&samples));
    let buf = parse_wav(&bytes).unwrap();
    assert_eq!(buf.channel_count, 2);
    assert_eq!(buf.sample_count(), 6);
    match &buf.samples {
        Samples::Int16(v) => assert_eq!(v, &samples),
        Samples::FloatBits(_) => panic!("wrong encoding"),
    }
}

#[test]
fn hound_pcm16_roundtrip() {
    let spec = hound::WavSpec {
        channels: 1,
        sample_rate: 16000,
        bits_per_sample: 16,
        sample_format: hound::SampleFormat::Int,
    };
    let samples: Vec<i16> = (0..64).map(|i| (i * 257 - 8000) as i16).collect();
    let mut cursor = std::io::Cursor::new(Vec::new());
    {
        let mut writer = hound::WavWriter::new(&mut cursor, spec).unwrap();
        for &s in &samples {
            writer.write_sample(s).unwrap();
        }
        writer.finalize().unwrap();
    }
    let bytes = cursor.into_inner();
    let buf = parse_wav(&bytes).unwrap();
    assert_eq!(buf.sample_rate, 16000);
    assert_eq!(buf.channel_count, 1);
    match &buf.samples {
        Samples::Int16(v) => assert_eq!(v, &samples),
        Samples::FloatBits(_) => panic!("wrong encoding"),
    }
}

#[test]
fn hound_float_roundtrip() {
    let spec = hound::WavSpec {
        channels: 2,
        sample_rate: 22050,
        bits_per_sample: 32,
        sample_format: hound::SampleFormat::Float,
    };
    let samples: Vec<f32> = (0..32).map(|i| (i as f32 - 16.0) / 16.0).collect();
    let mut cursor = std::io::Cursor::new(Vec::new());
    {
        let mut writer = hound::WavWriter::new(&mut cursor, spec).unwrap();
        for &s in &samples {
            writer.write_sample(s).unwrap();
        }
        writer.finalize().unwrap();
    }
    let bytes = cursor.into_inner();
    let buf = parse_wav(&bytes).unwrap();
    assert_eq!(buf.sample_rate, 22050);
    assert_eq!(buf.channel_count, 2);
    match &buf.samples {
        Samples::FloatBits(v) => {
            assert_eq!(v.len(), samples.len());
            for (bits, s) in v.iter().zip(samples.iter()) {
                assert_eq!(*bits, s.to_bits());
            }
        }
        Samples::Int16(_) => panic!("wrong encoding"),
    }
}

#[test]
fn hound_three_channel_extensible_pcm16() {
    // more than two channels makes hound write an extensible header with
    // the PCM subformat; the loader resolves it to plain 16-bit PCM
    let spec = hound::WavSpec {
        channels: 3,
        sample_rate: 8000,
        bits_per_sample: 16,
        sample_format: hound::SampleFormat::Int,
    };
    let samples: Vec<i16> = vec![1, 2, 3, -1, -2, -3];
    let mut cursor = std::io::Cursor::new(Vec::new());
    {
        let mut writer = hound::WavWriter::new(&mut cursor, spec).unwrap();
        for &s in &samples {
            writer.write_sample(s).unwrap();
        }
        writer.finalize().unwrap();
    }
    let bytes = cursor.into_inner();
    let buf = parse_wav(&bytes).unwrap();
    assert_eq!(buf.channel_count, 3);
    match &buf.samples {
        Samples::Int16(v) => assert_eq!(v, &samples),
        Samples::FloatBits(_) => panic!("wrong encoding"),
    }
}

#[test]
fn reject_extensible_with_unknown_subformat() {
    // an extensible header whose subformat identifier is not the known one
    let spec = hound::WavSpec {
        channels: 1,
        sample_rate: 16000,
        bits_per_sample: 32,
        sample_format: hound::SampleFormat::Float,
    };
    let mut cursor = std::io::Cursor::new(Vec::new());
    {
        let mut writer = hound::WavWriter::new(&mut cursor, spec).unwrap();
        writer.write_sample(0.5f32).unwrap();
        writer.finalize().unwrap();
    }
    let mut bytes = cursor.into_inner();
    // the subformat identifier sits at offset 44 of the fmt body (offset
    // 20 of the image plus 24); corrupt its tail
    bytes[20 + 30] ^= 0xFF;
    assert!(matches!(parse_wav(&bytes), Err(DiarizeError::UnsupportedFormat)));
}

#[test]
fn reject_empty_image() {
    assert!(matches!(parse_wav(&Vec::new()), Err(DiarizeError::CorruptHeader)));
}

#[test]
fn reject_bad_magic() {
    let mut bytes = wav_bytes(1, 1, 16000, 16, &pcm16_data(&[1, 2]));
    bytes[0] = b'X';
    assert!(matches!(parse_wav(&bytes), Err(DiarizeError::CorruptHeader)));
}

#[test]
fn reject_data_before_fmt() {
    let mut v: Vec<u8> = Vec::new();
    v.extend_from_slice(b"RIFF");
    v.extend_from_slice(&20u32.to_le_bytes());
    v.extend_from_slice(b"WAVE");
    v.extend_from_slice(b"data");
    v.extend_from_slice(&2u32.to_le_bytes());
    v.extend_from_slice(&[0, 0]);
    assert!(matches!(parse_wav(&v), Err(DiarizeError::CorruptHeader)));
}

#[test]
fn reject_truncated_data_chunk() {
    let mut bytes = wav_bytes(1, 1, 16000, 16, &pcm16_data(&[1, 2, 3]));
    // declare more data than the image holds
    let n = bytes.len();
    bytes[n - 10..n - 6].copy_from_slice(&100u32.to_le_bytes());
    assert!(matches!(parse_wav(&bytes), Err(DiarizeError::CorruptHeader)));
}

#[test]
fn reject_zero_channels() {
    let bytes = wav_bytes(1, 0, 16000, 16, &pcm16_data(&[1]));
    assert!(matches!(parse_wav(&bytes), Err(DiarizeError::CorruptHeader)));
}

#[test]
fn reject_zero_sample_rate() {
    let bytes = wav_bytes(1, 1, 0, 16, &pcm16_data(&[1]));
    assert!(matches!(parse_wav(&bytes), Err(DiarizeError::CorruptHeader)));
}

#[test]
fn reject_partial_frame() {
    // six data bytes are three 16-bit samples: not a whole number of
    // two-channel frames
    let bytes = wav_bytes(1, 2, 16000, 16, &pcm16_data(&[1, 2, 3]));
    assert!(matches!(parse_wav(&bytes), Err(DiarizeError::CorruptHeader)));
}

#[test]
fn reject_pcm8() {
    let bytes = wav_bytes(1, 1, 16000, 8, &[1, 2, 3, 4]);
    assert!(matches!(parse_wav(&bytes), Err(DiarizeError::UnsupportedFormat)));
}

#[test]
fn reject_float64() {
    let bytes = wav_bytes(3, 1, 16000, 64, &[0; 16]);
    assert!(matches!(parse_wav(&bytes), Err(DiarizeError::UnsupportedFormat)));
}

#[test]
fn reject_extensible_format() {
    let bytes = wav_bytes(0xFFFE, 1, 16000, 16, &pcm16_data(&[1, 2]));
    assert!(matches!(parse_wav(&bytes), Err(DiarizeError::UnsupportedFormat)));
}

#[test]
fn skips_unknown_chunks() {
    // a LIST chunk (odd-sized, so padded) between fmt and data is skipped
    let samples: Vec<i16> = vec![7, -7];
    let inner = wav_bytes(1, 1, 16000, 16, &pcm16_data(&samples));
    let mut v: Vec<u8> = Vec::new();
    v.extend_from_slice(&inner[..36]); // up to the end of the fmt chunk
    v.extend_from_slice(b"LIST");
    v.extend_from_slice(&3u32.to_le_bytes());
    v.extend_from_slice(&[1, 2, 3, 0]); // three bytes plus the pad byte
    v.extend_from_slice(&inner[36..]);
    let buf = parse_wav(&v).unwrap();
    match &buf.samples {
        Samples::Int16(s) => assert_eq!(s, &samples),
        Samples::FloatBits(_) => panic!("wrong encoding"),
    }
}

#[test]
fn duration_exact_mono() {
    // 32000 samples at 16 kHz mono: exactly two seconds
    assert_eq!(duration_millis(32000, 16000, 1), 2000);
}

#[test]
fn duration_exact_stereo() {
    // 48000 interleaved samples at 8 kHz over two channels: three seconds
    assert_eq!(duration_millis(48000, 8000, 2), 3000);
}

#[test]
fn duration_rounds_down() {
    assert_eq!(duration_millis(16001, 16000, 1), 1000);
    assert_eq!(duration_millis(0, 44100, 2), 0);
}
