use waveform::peaks::{level_layout, summary_plan, LevelShape, SummaryPlan};
use waveform::wav::{
    bytes_per_sample, decode_channels, decode_sample, declares_zero_block_align, parse_fmt_chunk,
    parse_waveform, read_u16, read_u32, scan_chunks, FmtChunk, WavError, FLOAT_FORMAT, PCM_FORMAT,
};

fn wav_bytes_pcm16(samples: &[i16]) -> Vec<u8> {
    let data_size = (samples.len() * 2) as u32;
    let riff_size = 36 + data_size;
    let mut bytes = Vec::new();
    bytes.extend_from_slice(b"RIFF");
    bytes.extend_from_slice(&riff_size.to_le_bytes());
    bytes.extend_from_slice(b"WAVE");
    bytes.extend_from_slice(b"fmt ");
    bytes.extend_from_slice(&16u32.to_le_bytes());
    bytes.extend_from_slice(&1u16.to_le_bytes());
    bytes.extend_from_slice(&1u16.to_le_bytes());
    bytes.extend_from_slice(&48_000u32.to_le_bytes());
    bytes.extend_from_slice(&(48_000u32 * 2).to_le_bytes());
    bytes.extend_from_slice(&2u16.to_le_bytes());
    bytes.extend_from_slice(&16u16.to_le_bytes());
    bytes.extend_from_slice(b"data");
    bytes.extend_from_slice(&data_size.to_le_bytes());
    for sample in samples {
        bytes.extend_from_slice(&sample.to_le_bytes());
    }
    bytes
}

fn wav_bytes(format: u16, channels: u16, bits: u16, data: &[u8]) -> Vec<u8> {
    let align = channels * (bits / 8);
    let mut bytes = Vec::new();
    bytes.extend_from_slice(b"RIFF");
    bytes.extend_from_slice(&(36 + data.len() as u32).to_le_bytes());
    bytes.extend_from_slice(b"WAVE");
    bytes.extend_from_slice(b"fmt ");
    bytes.extend_from_slice(&16u32.to_le_bytes());
    bytes.extend_from_slice(&format.to_le_bytes());
    bytes.extend_from_slice(&channels.to_le_bytes());
    bytes.extend_from_slice(&44_100u32.to_le_bytes());
    bytes.extend_from_slice(&(44_100u32 * align as u32).to_le_bytes());
    bytes.extend_from_slice(&align.to_le_bytes());
    bytes.extend_from_slice(&bits.to_le_bytes());
    bytes.extend_from_slice(b"data");
    bytes.extend_from_slice(&(data.len() as u32).to_le_bytes());
    bytes.extend_from_slice(data);
    bytes
}

fn as_f32(code: i64) -> f32 {
    code as f32 / 32_768.0
}

#[test]
fn parses_pcm16_wave() {
    let bytes = wav_bytes_pcm16(&[0, 8_192, -8_192, 16_384]);
    assert!(!declares_zero_block_align(&bytes));
    let waveform = parse_waveform(&bytes).expect("valid WAV");

    assert_eq!(waveform.channels.len(), 1);
    assert_eq!(waveform.sample_rate, 48_000);
    assert_eq!(waveform.frame_count, 4);
    let peak_abs = waveform.channels[0]
        .iter()
        .fold(0.0f32, |current, code| current.max(as_f32(*code).abs()));
    assert!(peak_abs > 0.49);
}

#[test]
fn summarizer_uses_peak_levels() {
    let bytes = wav_bytes_pcm16(&[0, 1_000, -2_000, 3_000, -4_000, 5_000, -6_000, 7_000]);
    let waveform = parse_waveform(&bytes).expect("valid WAV");
    let samples = &waveform.channels[0];
    let chunks: Vec<usize> = level_layout(samples.len()).iter().map(|l| l.chunk_size).collect();
    let plan = summary_plan(samples.len(), &chunks, 0, waveform.frame_count);
    let (start, end) = match plan {
        SummaryPlan::Samples { start, end } => (start, end),
        other => panic!("unexpected plan {other:?}"),
    };
    let min = samples[start..end].iter().map(|c| as_f32(*c)).fold(f32::MAX, f32::min);
    let max = samples[start..end].iter().map(|c| as_f32(*c)).fold(f32::MIN, f32::max);

    assert!(min < -0.18);
    assert!(max > 0.21);
}

#[test]
fn decoded_codes_match_written_samples() {
    let samples = [0i16, 1, -1, 32_767, -32_768, 1234];
    let waveform = parse_waveform(&wav_bytes_pcm16(&samples)).unwrap();
    let expected: Vec<i64> = samples.iter().map(|s| *s as i64).collect();
    assert_eq!(waveform.channels[0], expected);
    assert_eq!(waveform.audio_format, PCM_FORMAT);
    assert_eq!(waveform.bits_per_sample, 16);
}

#[test]
fn interleaved_stereo_is_split_per_channel() {
    let mut data = Vec::new();
    for (l, r) in [(1i16, -1i16), (2, -2), (3, -3)] {
        data.extend_from_slice(&l.to_le_bytes());
        data.extend_from_slice(&r.to_le_bytes());
    }
    let waveform = parse_waveform(&wav_bytes(PCM_FORMAT, 2, 16, &data)).unwrap();
    assert_eq!(waveform.channels, vec![vec![1, 2, 3], vec![-1, -2, -3]]);
    assert_eq!(waveform.frame_count, 3);
}

#[test]
fn eight_bit_pcm_is_centred() {
    let waveform = parse_waveform(&wav_bytes(PCM_FORMAT, 1, 8, &[0, 128, 255])).unwrap();
    assert_eq!(waveform.channels[0], vec![-128, 0, 127]);
}

#[test]
fn twenty_four_bit_pcm_is_sign_extended() {
    let data = [0xff, 0xff, 0xff, 0x00, 0x00, 0x80, 0xff, 0xff, 0x7f];
    let waveform = parse_waveform(&wav_bytes(PCM_FORMAT, 1, 24, &data)).unwrap();
    assert_eq!(waveform.channels[0], vec![-1, -8_388_608, 8_388_607]);
}

#[test]
fn thirty_two_bit_pcm_is_signed() {
    let mut data = Vec::new();
    data.extend_from_slice(&i32::MIN.to_le_bytes());
    data.extend_from_slice(&7i32.to_le_bytes());
    let waveform = parse_waveform(&wav_bytes(PCM_FORMAT, 1, 32, &data)).unwrap();
    assert_eq!(waveform.channels[0], vec![i32::MIN as i64, 7]);
}

#[test]
fn float_samples_keep_their_bit_patterns() {
    let mut data = Vec::new();
    data.extend_from_slice(&0.5f32.to_le_bytes());
    data.extend_from_slice(&(-0.25f32).to_le_bytes());
    let waveform = parse_waveform(&wav_bytes(FLOAT_FORMAT, 1, 32, &data)).unwrap();
    let back: Vec<f32> = waveform.channels[0].iter().map(|c| f32::from_bits(*c as u32)).collect();
    assert_eq!(back, vec![0.5, -0.25]);

    let mut data = Vec::new();
    data.extend_from_slice(&(-0.75f64).to_le_bytes());
    data.extend_from_slice(&0.125f64.to_le_bytes());
    let waveform = parse_waveform(&wav_bytes(FLOAT_FORMAT, 1, 64, &data)).unwrap();
    let back: Vec<f64> = waveform.channels[0].iter().map(|c| f64::from_bits(*c as u64)).collect();
    assert_eq!(back, vec![-0.75, 0.125]);
}

#[test]
fn decode_sample_codes() {
    assert_eq!(decode_sample(&[0x00, 0x80], PCM_FORMAT, 16), Ok(-32_768));
    assert_eq!(decode_sample(&[0x34, 0x12], PCM_FORMAT, 16), Ok(0x1234));
    assert_eq!(decode_sample(&[0x01], PCM_FORMAT, 8), Ok(-127));
    assert_eq!(decode_sample(&[0x00, 0x00, 0x80, 0x3f], FLOAT_FORMAT, 32), Ok(0x3f80_0000));
    assert_eq!(decode_sample(&[0, 0], PCM_FORMAT, 12), Err(WavError::UnsupportedSampleFormat));
}

#[test]
fn little_endian_readers() {
    let bytes = [0x01, 0x02, 0x03, 0x04, 0x05];
    assert_eq!(read_u16(&bytes, 0), Ok(0x0201));
    assert_eq!(read_u16(&bytes, 3), Ok(0x0504));
    assert_eq!(read_u16(&bytes, 4), Err(WavError::EndOfFileU16));
    assert_eq!(read_u32(&bytes, 1), Ok(0x0504_0302));
    assert_eq!(read_u32(&bytes, 2), Err(WavError::EndOfFileU32));
}

#[test]
fn fmt_chunk_fields_and_errors() {
    let mut chunk = Vec::new();
    chunk.extend_from_slice(&1u16.to_le_bytes());
    chunk.extend_from_slice(&2u16.to_le_bytes());
    chunk.extend_from_slice(&44_100u32.to_le_bytes());
    chunk.extend_from_slice(&176_400u32.to_le_bytes());
    chunk.extend_from_slice(&4u16.to_le_bytes());
    chunk.extend_from_slice(&16u16.to_le_bytes());
    assert_eq!(
        parse_fmt_chunk(&chunk),
        Ok(FmtChunk {
            audio_format: 1,
            channel_count: 2,
            sample_rate: 44_100,
            block_align: 4,
            bits_per_sample: 16,
        })
    );
    assert_eq!(parse_fmt_chunk(&chunk[..15]), Err(WavError::FmtTruncated));

    let mut zero = chunk.clone();
    zero[2] = 0;
    assert_eq!(parse_fmt_chunk(&zero), Err(WavError::ZeroChannels));

    let mut adpcm = chunk.clone();
    adpcm[0] = 2;
    assert_eq!(parse_fmt_chunk(&adpcm), Err(WavError::UnsupportedFormatTag(2)));
    assert_eq!(
        WavError::UnsupportedFormatTag(2).message(),
        "unsupported WAV format tag: 0x0002"
    );

    let mut extensible = chunk.clone();
    extensible[0] = 0xFE;
    extensible[1] = 0xFF;
    assert_eq!(parse_fmt_chunk(&extensible), Err(WavError::ExtensibleTooSmall));
    extensible.resize(40, 0);
    extensible[24] = 3;
    assert_eq!(parse_fmt_chunk(&extensible).unwrap().audio_format, FLOAT_FORMAT);
}

#[test]
fn file_level_errors() {
    assert_eq!(parse_waveform(b"RIFF").err(), Some(WavError::TooSmall));
    assert_eq!(parse_waveform(b"RIFX\0\0\0\0WAVE").err(), Some(WavError::NotRiffWave));

    let good = wav_bytes_pcm16(&[1, 2]);
    let mut truncated = good.clone();
    truncated.truncate(good.len() - 1);
    assert_eq!(parse_waveform(&truncated).err(), Some(WavError::TruncatedChunk));

    let only_header = b"RIFF\x04\0\0\0WAVE".to_vec();
    assert_eq!(parse_waveform(&only_header).err(), Some(WavError::MissingFmt));

    let no_data = good[..36].to_vec();
    assert_eq!(parse_waveform(&no_data).err(), Some(WavError::MissingData));

    let odd = wav_bytes(PCM_FORMAT, 1, 16, &[1, 2, 3]);
    assert_eq!(parse_waveform(&odd).err(), Some(WavError::DataNotAligned));

    let mut misaligned = good.clone();
    misaligned[32] = 3;
    assert_eq!(parse_waveform(&misaligned).err(), Some(WavError::BadBlockAlign));

    let mut twelve_bit = good.clone();
    twelve_bit[34] = 12;
    assert_eq!(
        parse_waveform(&twelve_bit).err(),
        Some(WavError::UnsupportedEncoding { audio_format: 1, bits_per_sample: 12 })
    );
    assert_eq!(
        WavError::UnsupportedEncoding { audio_format: 1, bits_per_sample: 12 }.message(),
        "unsupported WAV encoding: format=1 bits=12"
    );
}

#[test]
fn zero_block_align_is_detected() {
    let mut bytes = wav_bytes_pcm16(&[1, 2]);
    bytes[32] = 0;
    bytes[33] = 0;
    assert!(declares_zero_block_align(&bytes));
}

#[test]
fn chunk_walk_skips_unknown_chunks_and_padding() {
    let mut bytes = Vec::new();
    bytes.extend_from_slice(b"RIFF\0\0\0\0WAVE");
    bytes.extend_from_slice(b"LIST");
    bytes.extend_from_slice(&3u32.to_le_bytes());
    bytes.extend_from_slice(&[9, 9, 9, 0]);
    let tail = wav_bytes_pcm16(&[5, -5]);
    bytes.extend_from_slice(&tail[12..]);
    let scan = scan_chunks(&bytes).unwrap();
    assert_eq!(scan.data, Some((bytes.len() - 4, bytes.len())));
    let waveform = parse_waveform(&bytes).unwrap();
    assert_eq!(waveform.channels[0], vec![5, -5]);
}

#[test]
fn decode_channels_checks_alignment() {
    let fmt = FmtChunk {
        audio_format: PCM_FORMAT,
        channel_count: 2,
        sample_rate: 8_000,
        block_align: 4,
        bits_per_sample: 16,
    };
    assert_eq!(decode_channels(&[1, 0, 2, 0], fmt), Ok(vec![vec![1], vec![2]]));
    assert_eq!(decode_channels(&[1, 0, 2], fmt), Err(WavError::DataNotAligned));
    assert_eq!(bytes_per_sample(FLOAT_FORMAT, 64), Some(8));
    assert_eq!(bytes_per_sample(FLOAT_FORMAT, 16), None);
}

#[test]
fn pyramid_layout_halves_each_level() {
    assert!(level_layout(32).is_empty());
    let levels = level_layout(100);
    assert_eq!(
        levels,
        vec![
            LevelShape { chunk_size: 32, peak_count: 4 },
            LevelShape { chunk_size: 64, peak_count: 2 },
            LevelShape { chunk_size: 128, peak_count: 1 },
        ]
    );
    let levels = level_layout(10_000);
    for pair in levels.windows(2) {
        assert_eq!(pair[1].chunk_size, 2 * pair[0].chunk_size);
        assert_eq!(pair[1].peak_count, pair[0].peak_count.div_ceil(2));
    }
    assert_eq!(levels.last().unwrap().peak_count, 1);
}

#[test]
fn long_ranges_use_a_coarse_level() {
    let chunks: Vec<usize> = level_layout(100_000).iter().map(|l| l.chunk_size).collect();
    assert_eq!(summary_plan(0, &chunks, 0, 10), SummaryPlan::Empty);
    assert_eq!(summary_plan(100_000, &chunks, 10, 20), SummaryPlan::Samples { start: 10, end: 20 });
    assert_eq!(
        summary_plan(100_000, &chunks, 99_999_999, 0),
        SummaryPlan::Samples { start: 99_999, end: 100_000 }
    );
    // span 40_000 -> target chunk 10_000 -> largest level with chunk <= 10_000 is 8192
    assert_eq!(
        summary_plan(100_000, &chunks, 1_000, 41_000),
        SummaryPlan::Buckets { level: 8, start: 0, end: 6 }
    );
    assert_eq!(chunks[8], 8_192);
}
