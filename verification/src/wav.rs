//! RIFF/WAVE decoding: the chunk walk, the `fmt ` chunk, and the layout of
//! interleaved samples in the `data` chunk.
//!
//! Each decoded sample is kept as its integer *sample code*: the signed
//! value of a PCM sample (8-bit samples are re-centred around zero), or the
//! raw IEEE-754 bit pattern of a float sample. Scaling codes into the
//! `[-1, 1]` range is floating-point work left to the caller.
use vstd::prelude::*;
use crate::text::{decimal, hex4, push_decimal, push_hex4};

verus! {

pub const PCM_FORMAT: u16 = 0x0001;
pub const FLOAT_FORMAT: u16 = 0x0003;
pub const EXTENSIBLE_FORMAT: u16 = 0xFFFE;

/// The fields of a `fmt ` chunk that decoding relies on.
#[derive(Clone, Copy, Debug, PartialEq, Eq)]
pub struct FmtChunk {
    pub audio_format: u16,
    pub channel_count: usize,
    pub sample_rate: u32,
    pub block_align: usize,
    pub bits_per_sample: u16,
}

/// Why a byte buffer is not a playable WAV file.
#[derive(Clone, Copy, Debug, PartialEq, Eq)]
pub enum WavError {
    TooSmall,
    NotRiffWave,
    EndOfFileU16,
    EndOfFileU32,
    ChunkLengthOverflow,
    TruncatedChunk,
    FmtTruncated,
    ZeroChannels,
    ExtensibleTooSmall,
    UnsupportedFormatTag(u16),
    MissingFmt,
    MissingData,
    UnsupportedEncoding { audio_format: u16, bits_per_sample: u16 },
    BadBlockAlign,
    DataNotAligned,
    UnsupportedSampleFormat,
}

/// The text shown to users for each error.
pub open spec fn error_text(e: WavError) -> Seq<char> {
    match e {
        WavError::TooSmall => "file is too small to be a WAV"@,
        WavError::NotRiffWave => "only RIFF/WAVE files are supported"@,
        WavError::EndOfFileU16 => "unexpected end of file while reading u16"@,
        WavError::EndOfFileU32 => "unexpected end of file while reading u32"@,
        WavError::ChunkLengthOverflow => "WAV chunk length overflowed"@,
        WavError::TruncatedChunk => "encountered a truncated WAV chunk"@,
        WavError::FmtTruncated => "fmt chunk is truncated"@,
        WavError::ZeroChannels => "WAV declares zero channels"@,
        WavError::ExtensibleTooSmall => "WAVE_FORMAT_EXTENSIBLE chunk is too small"@,
        WavError::UnsupportedFormatTag(tag) => "unsupported WAV format tag: 0x"@ + hex4(tag),
        WavError::MissingFmt => "missing fmt chunk"@,
        WavError::MissingData => "missing data chunk"@,
        WavError::UnsupportedEncoding { audio_format, bits_per_sample } =>
            "unsupported WAV encoding: format="@ + decimal(audio_format as nat) + " bits="@
                + decimal(bits_per_sample as nat),
        WavError::BadBlockAlign => "unsupported block alignment for the declared sample format"@,
        WavError::DataNotAligned => "data chunk is not aligned to whole audio frames"@,
        WavError::UnsupportedSampleFormat => "unsupported sample format"@,
    }
}

impl WavError {
    /// The error as text.
    pub fn message(&self) -> (r: String)
        ensures
            r@ == error_text(*self),
    {
        match self {
            WavError::TooSmall => String::from_str("file is too small to be a WAV"),
            WavError::NotRiffWave => String::from_str("only RIFF/WAVE files are supported"),
            WavError::EndOfFileU16 => String::from_str("unexpected end of file while reading u16"),
            WavError::EndOfFileU32 => String::from_str("unexpected end of file while reading u32"),
            WavError::ChunkLengthOverflow => String::from_str("WAV chunk length overflowed"),
            WavError::TruncatedChunk => String::from_str("encountered a truncated WAV chunk"),
            WavError::FmtTruncated => String::from_str("fmt chunk is truncated"),
            WavError::ZeroChannels => String::from_str("WAV declares zero channels"),
            WavError::ExtensibleTooSmall => String::from_str(
                "WAVE_FORMAT_EXTENSIBLE chunk is too small",
            ),
            WavError::UnsupportedFormatTag(tag) => {
                let mut s = String::from_str("unsupported WAV format tag: 0x");
                push_hex4(&mut s, *tag);
                s
            },
            WavError::MissingFmt => String::from_str("missing fmt chunk"),
            WavError::MissingData => String::from_str("missing data chunk"),
            WavError::UnsupportedEncoding { audio_format, bits_per_sample } => {
                let mut s = String::from_str("unsupported WAV encoding: format=");
                push_decimal(&mut s, *audio_format as u128);
                s.append(" bits=");
                push_decimal(&mut s, *bits_per_sample as u128);
                s
            },
            WavError::BadBlockAlign => String::from_str(
                "unsupported block alignment for the declared sample format",
            ),
            WavError::DataNotAligned => String::from_str(
                "data chunk is not aligned to whole audio frames",
            ),
            WavError::UnsupportedSampleFormat => String::from_str("unsupported sample format"),
        }
    }
}

// ---------------------------------------------------------------------------
// Little-endian integers
// ---------------------------------------------------------------------------

/// Unsigned little-endian value of the two bytes at `o`.
pub open spec fn le16(b: Seq<u8>, o: int) -> int {
    b[o] + 256 * b[o + 1]
}

/// Unsigned little-endian value of the three bytes at `o`.
pub open spec fn le24(b: Seq<u8>, o: int) -> int {
    le16(b, o) + 65536 * b[o + 2]
}

/// Unsigned little-endian value of the four bytes at `o`.
pub open spec fn le32(b: Seq<u8>, o: int) -> int {
    le16(b, o) + 65536 * le16(b, o + 2)
}

/// Unsigned little-endian value of the eight bytes at `o`.
pub open spec fn le64(b: Seq<u8>, o: int) -> int {
    le32(b, o) + 0x1_0000_0000 * le32(b, o + 4)
}

/// The two's complement reading of an unsigned `bits`-wide value.
pub open spec fn signed(v: int, half: int) -> int {
    if v >= half {
        v - 2 * half
    } else {
        v
    }
}

pub open spec fn spec_read_u16(b: Seq<u8>, offset: int) -> Result<u16, WavError> {
    if offset + 2 <= b.len() {
        Ok(le16(b, offset) as u16)
    } else {
        Err(WavError::EndOfFileU16)
    }
}

pub open spec fn spec_read_u32(b: Seq<u8>, offset: int) -> Result<u32, WavError> {
    if offset + 4 <= b.len() {
        Ok(le32(b, offset) as u32)
    } else {
        Err(WavError::EndOfFileU32)
    }
}

/// The little-endian `u16` at `offset`, or an end-of-file error.
pub fn read_u16(bytes: &[u8], offset: usize) -> (r: Result<u16, WavError>)
    requires
        offset + 2 <= usize::MAX,
    ensures
        r == spec_read_u16(bytes@, offset as int),
        r matches Ok(v) ==> v as int == le16(bytes@, offset as int),
{
    if offset + 2 > bytes.len() {
        return Err(WavError::EndOfFileU16);
    }
    let lo = bytes[offset] as u16;
    let hi = bytes[offset + 1] as u16;
    Ok(lo + hi * 256)
}

/// The little-endian `u32` at `offset`, or an end-of-file error.
pub fn read_u32(bytes: &[u8], offset: usize) -> (r: Result<u32, WavError>)
    requires
        offset + 4 <= usize::MAX,
    ensures
        r == spec_read_u32(bytes@, offset as int),
        r matches Ok(v) ==> v as int == le32(bytes@, offset as int),
{
    if offset + 4 > bytes.len() {
        return Err(WavError::EndOfFileU32);
    }
    let b0 = bytes[offset] as u32;
    let b1 = bytes[offset + 1] as u32;
    let b2 = bytes[offset + 2] as u32;
    let b3 = bytes[offset + 3] as u32;
    Ok(b0 + b1 * 256 + b2 * 65536 + b3 * 16777216)
}

// ---------------------------------------------------------------------------
// The fmt chunk
// ---------------------------------------------------------------------------

/// What a `fmt ` chunk body declares, or why it is refused.
pub open spec fn spec_parse_fmt(c: Seq<u8>) -> Result<FmtChunk, WavError> {
    if c.len() < 16 {
        Err(WavError::FmtTruncated)
    } else {
        let declared = le16(c, 0) as u16;
        let channel_count = le16(c, 2) as usize;
        if channel_count == 0 {
            Err(WavError::ZeroChannels)
        } else if declared == EXTENSIBLE_FORMAT && c.len() < 40 {
            Err(WavError::ExtensibleTooSmall)
        } else {
            let audio_format = if declared == EXTENSIBLE_FORMAT {
                le16(c, 24) as u16
            } else {
                declared
            };
            if audio_format != PCM_FORMAT && audio_format != FLOAT_FORMAT {
                Err(WavError::UnsupportedFormatTag(audio_format))
            } else {
                Ok(
                    FmtChunk {
                        audio_format,
                        channel_count,
                        sample_rate: le32(c, 4) as u32,
                        block_align: le16(c, 12) as usize,
                        bits_per_sample: le16(c, 14) as u16,
                    },
                )
            }
        }
    }
}

/// Reads the fields of a `fmt ` chunk body; `WAVE_FORMAT_EXTENSIBLE` is
/// resolved to the sub-format it carries.
pub fn parse_fmt_chunk(chunk: &[u8]) -> (r: Result<FmtChunk, WavError>)
    ensures
        r == spec_parse_fmt(chunk@),
{
    if chunk.len() < 16 {
        return Err(WavError::FmtTruncated);
    }
    let mut audio_format = match read_u16(chunk, 0) {
        Ok(v) => v,
        Err(e) => return Err(e),
    };
    let channel_count = match read_u16(chunk, 2) {
        Ok(v) => v as usize,
        Err(e) => return Err(e),
    };
    let sample_rate = match read_u32(chunk, 4) {
        Ok(v) => v,
        Err(e) => return Err(e),
    };
    let block_align = match read_u16(chunk, 12) {
        Ok(v) => v as usize,
        Err(e) => return Err(e),
    };
    let bits_per_sample = match read_u16(chunk, 14) {
        Ok(v) => v,
        Err(e) => return Err(e),
    };
    if channel_count == 0 {
        return Err(WavError::ZeroChannels);
    }
    if audio_format == EXTENSIBLE_FORMAT {
        if chunk.len() < 40 {
            return Err(WavError::ExtensibleTooSmall);
        }
        audio_format = match read_u16(chunk, 24) {
            Ok(v) => v,
            Err(e) => return Err(e),
        };
    }
    if audio_format != PCM_FORMAT && audio_format != FLOAT_FORMAT {
        return Err(WavError::UnsupportedFormatTag(audio_format));
    }
    Ok(FmtChunk { audio_format, channel_count, sample_rate, block_align, bits_per_sample })
}

// ---------------------------------------------------------------------------
// Samples
// ---------------------------------------------------------------------------

/// Bytes per sample for the supported (format, bit depth) pairs.
pub open spec fn spec_bytes_per_sample(audio_format: u16, bits: u16) -> Option<usize> {
    if audio_format == PCM_FORMAT && bits == 8 {
        Some(1)
    } else if audio_format == PCM_FORMAT && bits == 16 {
        Some(2)
    } else if audio_format == PCM_FORMAT && bits == 24 {
        Some(3)
    } else if audio_format == PCM_FORMAT && bits == 32 {
        Some(4)
    } else if audio_format == FLOAT_FORMAT && bits == 32 {
        Some(4)
    } else if audio_format == FLOAT_FORMAT && bits == 64 {
        Some(8)
    } else {
        None
    }
}

/// Bytes per sample of a supported encoding, `None` for any other.
pub fn bytes_per_sample(audio_format: u16, bits: u16) -> (r: Option<usize>)
    ensures
        r == spec_bytes_per_sample(audio_format, bits),
{
    if audio_format == PCM_FORMAT && bits == 8 {
        Some(1)
    } else if audio_format == PCM_FORMAT && bits == 16 {
        Some(2)
    } else if audio_format == PCM_FORMAT && bits == 24 {
        Some(3)
    } else if audio_format == PCM_FORMAT && bits == 32 {
        Some(4)
    } else if audio_format == FLOAT_FORMAT && bits == 32 {
        Some(4)
    } else if audio_format == FLOAT_FORMAT && bits == 64 {
        Some(8)
    } else {
        None
    }
}

/// The code of the sample stored at `o`: signed PCM values (8-bit PCM is
/// unsigned and re-centred by 128), or the IEEE-754 bit pattern of a float
/// sample (a 64-bit pattern read as two's complement).
pub open spec fn sample_code(audio_format: u16, bits: u16, b: Seq<u8>, o: int) -> int {
    if audio_format == PCM_FORMAT && bits == 8 {
        b[o] - 128
    } else if audio_format == PCM_FORMAT && bits == 16 {
        signed(le16(b, o), 0x8000)
    } else if audio_format == PCM_FORMAT && bits == 24 {
        signed(le24(b, o), 0x80_0000)
    } else if audio_format == PCM_FORMAT && bits == 32 {
        signed(le32(b, o), 0x8000_0000)
    } else if audio_format == FLOAT_FORMAT && bits == 32 {
        le32(b, o)
    } else {
        signed(le64(b, o), 0x8000_0000_0000_0000)
    }
}

/// Decodes the sample at the start of `bytes`.
pub fn decode_sample(bytes: &[u8], audio_format: u16, bits_per_sample: u16) -> (r: Result<
    i64,
    WavError,
>)
    requires
        spec_bytes_per_sample(audio_format, bits_per_sample) matches Some(n) ==> n <= bytes@.len(),
    ensures
        spec_bytes_per_sample(audio_format, bits_per_sample) is None ==> r == Err::<i64, WavError>(
            WavError::UnsupportedSampleFormat,
        ),
        spec_bytes_per_sample(audio_format, bits_per_sample) is Some ==> (r matches Ok(v) && v
            == sample_code(audio_format, bits_per_sample, bytes@, 0)),
{
    if audio_format == PCM_FORMAT && bits_per_sample == 8 {
        Ok(bytes[0] as i64 - 128)
    } else if audio_format == PCM_FORMAT && bits_per_sample == 16 {
        let v = bytes[0] as i64 + bytes[1] as i64 * 256;
        Ok(if v >= 0x8000 { v - 0x1_0000 } else { v })
    } else if audio_format == PCM_FORMAT && bits_per_sample == 24 {
        let v = bytes[0] as i64 + bytes[1] as i64 * 256 + bytes[2] as i64 * 65536;
        Ok(if v >= 0x80_0000 { v - 0x100_0000 } else { v })
    } else if audio_format == PCM_FORMAT && bits_per_sample == 32 {
        let v = bytes[0] as i64 + bytes[1] as i64 * 256 + bytes[2] as i64 * 65536 + bytes[3] as i64
            * 16777216;
        Ok(if v >= 0x8000_0000 { v - 0x1_0000_0000 } else { v })
    } else if audio_format == FLOAT_FORMAT && bits_per_sample == 32 {
        Ok(
            bytes[0] as i64 + bytes[1] as i64 * 256 + bytes[2] as i64 * 65536 + bytes[3] as i64
                * 16777216,
        )
    } else if audio_format == FLOAT_FORMAT && bits_per_sample == 64 {
        let lo = bytes[0] as u64 + bytes[1] as u64 * 256 + bytes[2] as u64 * 65536 + bytes[3] as u64
            * 16777216;
        let hi = bytes[4] as u64 + bytes[5] as u64 * 256 + bytes[6] as u64 * 65536 + bytes[7] as u64
            * 16777216;
        if hi >= 0x8000_0000 {
            let top = (hi - 0x8000_0000) as i64;
            Ok(i64::MIN + (lo as i64 + top * 0x1_0000_0000))
        } else {
            Ok(lo as i64 + (hi as i64) * 0x1_0000_0000)
        }
    } else {
        Err(WavError::UnsupportedSampleFormat)
    }
}

/// Number of whole frames in `data_len` bytes of `fmt`-shaped audio.
pub open spec fn frames_in(data_len: int, fmt: FmtChunk) -> int {
    data_len / (fmt.block_align as int)
}

/// The decoded channels of `data`, one sequence of sample codes per
/// channel, or why the data cannot be decoded.
pub open spec fn spec_decode_channels(data: Seq<u8>, fmt: FmtChunk) -> Result<
    Seq<Seq<i64>>,
    WavError,
> {
    match spec_bytes_per_sample(fmt.audio_format, fmt.bits_per_sample) {
        None => Err(
            WavError::UnsupportedEncoding {
                audio_format: fmt.audio_format,
                bits_per_sample: fmt.bits_per_sample,
            },
        ),
        Some(bps) => if fmt.block_align != bps * fmt.channel_count {
            Err(WavError::BadBlockAlign)
        } else if (data.len() as int) % (fmt.block_align as int) != 0 {
            Err(WavError::DataNotAligned)
        } else {
            Ok(
                Seq::new(
                    fmt.channel_count as nat,
                    |c: int|
                        Seq::new(
                            frames_in(data.len() as int, fmt) as nat,
                            |f: int|
                                sample_code(
                                    fmt.audio_format,
                                    fmt.bits_per_sample,
                                    data,
                                    f * fmt.block_align + c * bps,
                                ) as i64,
                        ),
                ),
            )
        },
    }
}

/// The view of decoded channels.
pub open spec fn channels_view(channels: Seq<Vec<i64>>) -> Seq<Seq<i64>> {
    channels.map_values(|v: Vec<i64>| v@)
}

/// Splits interleaved frames into one vector of sample codes per channel.
pub fn decode_channels(data: &[u8], fmt: FmtChunk) -> (r: Result<Vec<Vec<i64>>, WavError>)
    requires
        spec_bytes_per_sample(fmt.audio_format, fmt.bits_per_sample) matches Some(bps) ==> bps
            * fmt.channel_count <= usize::MAX,
        spec_bytes_per_sample(fmt.audio_format, fmt.bits_per_sample) is Some
            ==> fmt.channel_count != 0 || fmt.block_align != 0,
    ensures
        spec_decode_channels(data@, fmt) matches Err(e) ==> r == Err::<Vec<Vec<i64>>, WavError>(e),
        spec_decode_channels(data@, fmt) matches Ok(chs) ==> (r matches Ok(v) && channels_view(v@)
            == chs),
{
    let bps = match bytes_per_sample(fmt.audio_format, fmt.bits_per_sample) {
        Some(n) => n,
        None => {
            return Err(
                WavError::UnsupportedEncoding {
                    audio_format: fmt.audio_format,
                    bits_per_sample: fmt.bits_per_sample,
                },
            );
        },
    };
    if fmt.block_align != bps * fmt.channel_count {
        return Err(WavError::BadBlockAlign);
    }
    assert(fmt.block_align > 0) by (nonlinear_arith)
        requires
            fmt.block_align == bps * fmt.channel_count,
            bps > 0,
            fmt.channel_count != 0 || fmt.block_align != 0,
    ;
    if data.len() % fmt.block_align != 0 {
        return Err(WavError::DataNotAligned);
    }
    let align = fmt.block_align;
    let frame_count = data.len() / align;
    let ghost expected = spec_decode_channels(data@, fmt)->Ok_0;
    proof {
        lemma_frame_bound(data.len() as int, align as int, frame_count as int);
    }
    let mut channels: Vec<Vec<i64>> = Vec::with_capacity(fmt.channel_count);
    let mut c: usize = 0;
    while c < fmt.channel_count
        invariant
            c <= fmt.channel_count,
            align == fmt.block_align,
            align == bps * fmt.channel_count,
            Some(bps) == spec_bytes_per_sample(fmt.audio_format, fmt.bits_per_sample),
            frame_count == (data@.len() as int) / (align as int),
            frame_count * align <= data@.len(),
            expected == spec_decode_channels(data@, fmt)->Ok_0,
            spec_decode_channels(data@, fmt) is Ok,
            channels@.len() == c,
            forall|k: int| 0 <= k < c ==> #[trigger] channels@[k]@ == expected[k],
        decreases fmt.channel_count - c,
    {
        let mut samples: Vec<i64> = Vec::with_capacity(frame_count);
        let mut f: usize = 0;
        while f < frame_count
            invariant
                c < fmt.channel_count,
                f <= frame_count,
                align == fmt.block_align,
                align == bps * fmt.channel_count,
                Some(bps) == spec_bytes_per_sample(fmt.audio_format, fmt.bits_per_sample),
                frame_count == (data@.len() as int) / (align as int),
                frame_count * align <= data@.len(),
                expected == spec_decode_channels(data@, fmt)->Ok_0,
                spec_decode_channels(data@, fmt) is Ok,
                samples@.len() == f,
                forall|k: int| 0 <= k < f ==> #[trigger] samples@[k] == expected[c as int][k],
            decreases frame_count - f,
        {
            proof {
                assert(bps > 0);
                lemma_sample_in_bounds(f as int, c as int, bps as int, fmt.channel_count as int, align as int, frame_count as int);
                assert(f * align + c * bps + bps <= frame_count * align);
                assert(f * align + c * bps + bps <= data.len());
            }
            let offset = f * align + c * bps;
            let slice = &data[offset..offset + bps];
            let code = match decode_sample(slice, fmt.audio_format, fmt.bits_per_sample) {
                Ok(v) => v,
                Err(e) => return Err(e),
            };
            proof {
                lemma_sample_code_window(fmt.audio_format, fmt.bits_per_sample, data@, offset as int, bps as int);
            }
            samples.push(code);
            f = f + 1;
        }
        assert(samples@ =~= expected[c as int]);
        channels.push(samples);
        c = c + 1;
    }
    assert(channels_view(channels@) =~= expected);
    Ok(channels)
}

proof fn lemma_frame_bound(len: int, align: int, frames: int)
    requires
        align > 0,
        len >= 0,
        frames == len / align,
    ensures
        frames * align <= len,
{
    vstd::arithmetic::div_mod::lemma_fundamental_div_mod(len, align);
    vstd::arithmetic::mul::lemma_mul_is_commutative(frames, align);
}

proof fn lemma_sample_in_bounds(f: int, c: int, bps: int, cc: int, align: int, frames: int)
    requires
        0 <= f < frames,
        0 <= c < cc,
        bps > 0,
        align == bps * cc,
    ensures
        f * align + c * bps + bps <= frames * align,
        0 <= f * align,
        0 <= c * bps,
{
    assert(0 <= f * align && 0 <= c * bps) by (nonlinear_arith)
        requires
            0 <= f,
            0 <= c,
            bps > 0,
            align == bps * cc,
            cc > 0,
    ;
    assert(f * align + c * bps + bps <= frames * align) by (nonlinear_arith)
        requires
            0 <= f < frames,
            0 <= c < cc,
            bps > 0,
            align == bps * cc,
    ;
}

/// The code of a sample depends only on its own bytes.
proof fn lemma_sample_code_window(audio_format: u16, bits: u16, b: Seq<u8>, o: int, n: int)
    requires
        spec_bytes_per_sample(audio_format, bits) == Some(n as usize),
        1 <= n <= 8,
        0 <= o,
        o + n <= b.len(),
    ensures
        sample_code(audio_format, bits, b.subrange(o, o + n), 0) == sample_code(
            audio_format,
            bits,
            b,
            o,
        ),
{
    let w = b.subrange(o, o + n);
    assert(w[0] == b[o]);
    if n >= 2 {
        assert(w[1] == b[o + 1]);
    }
    if n >= 3 {
        assert(w[2] == b[o + 2]);
    }
    if n >= 4 {
        assert(w[3] == b[o + 3]);
    }
    if n >= 8 {
        assert(w[4] == b[o + 4]);
        assert(w[5] == b[o + 5]);
        assert(w[6] == b[o + 6]);
        assert(w[7] == b[o + 7]);
    }
}

// ---------------------------------------------------------------------------
// The RIFF chunk walk
// ---------------------------------------------------------------------------

/// Whether the four bytes at `o` are `t0 t1 t2 t3`.
pub open spec fn tag_is(b: Seq<u8>, o: int, t0: u8, t1: u8, t2: u8, t3: u8) -> bool {
    b[o] == t0 && b[o + 1] == t1 && b[o + 2] == t2 && b[o + 3] == t3
}

/// `fmt `
pub open spec fn is_fmt_tag(b: Seq<u8>, o: int) -> bool {
    tag_is(b, o, 0x66, 0x6d, 0x74, 0x20)
}

/// `data`
pub open spec fn is_data_tag(b: Seq<u8>, o: int) -> bool {
    tag_is(b, o, 0x64, 0x61, 0x74, 0x61)
}

/// The `fmt ` and `data` chunks found so far by the chunk walk: the last
/// `fmt ` chunk read, and the byte range of the last `data` chunk body.
#[derive(Clone, Copy, Debug, PartialEq, Eq)]
pub struct ChunkScan {
    pub fmt: Option<FmtChunk>,
    pub data: Option<(usize, usize)>,
}

/// The chunk walk from `cursor`: each chunk is a 4-byte tag, a little-endian
/// 32-bit body length and the body, padded to an even length. A later `fmt `
/// or `data` chunk replaces an earlier one; a `fmt ` chunk that does not
/// parse stops the walk with its error.
pub open spec fn spec_scan(b: Seq<u8>, cursor: int, found: ChunkScan) -> Result<
    ChunkScan,
    WavError,
>
    decreases b.len() + 1 - cursor,
{
    if cursor < 0 || cursor + 8 > b.len() {
        Ok(found)
    } else {
        let size = le32(b, cursor + 4);
        let body_start = cursor + 8;
        let body_end = body_start + size;
        if body_end > usize::MAX {
            Err(WavError::ChunkLengthOverflow)
        } else if body_end > b.len() {
            Err(WavError::TruncatedChunk)
        } else {
            let next = body_end + size % 2;
            if is_fmt_tag(b, cursor) {
                match spec_parse_fmt(b.subrange(body_start, body_end)) {
                    Err(e) => Err(e),
                    Ok(f) => spec_scan(b, next, ChunkScan { fmt: Some(f), data: found.data }),
                }
            } else if is_data_tag(b, cursor) {
                spec_scan(
                    b,
                    next,
                    ChunkScan { fmt: found.fmt, data: Some((body_start as usize, body_end as usize)) },
                )
            } else {
                spec_scan(b, next, found)
            }
        }
    }
}

pub open spec fn no_chunks() -> ChunkScan {
    ChunkScan { fmt: None, data: None }
}

fn tag_matches(bytes: &[u8], o: usize, t0: u8, t1: u8, t2: u8, t3: u8) -> (r: bool)
    requires
        o + 4 <= bytes@.len(),
    ensures
        r == tag_is(bytes@, o as int, t0, t1, t2, t3),
{
    bytes[o] == t0 && bytes[o + 1] == t1 && bytes[o + 2] == t2 && bytes[o + 3] == t3
}

/// Walks the chunks that follow the 12-byte RIFF header.
pub fn scan_chunks(bytes: &[u8]) -> (r: Result<ChunkScan, WavError>)
    ensures
        r == spec_scan(bytes@, 12, no_chunks()),
{
    let len = bytes.len();
    let mut found = ChunkScan { fmt: None, data: None };
    if len < 20 {
        return Ok(found);
    }
    let mut cursor: usize = 12;
    while cursor <= len && len - cursor >= 8
        invariant
            len == bytes@.len(),
            12 <= cursor <= len + 1,
            spec_scan(bytes@, 12, no_chunks()) == spec_scan(bytes@, cursor as int, found),
        decreases len + 1 - cursor,
    {
        let chunk_size = match read_u32(bytes, cursor + 4) {
            Ok(v) => v as usize,
            Err(e) => return Err(e),
        };
        let body_start = cursor + 8;
        let body_end = match body_start.checked_add(chunk_size) {
            Some(end) => end,
            None => return Err(WavError::ChunkLengthOverflow),
        };
        if body_end > len {
            return Err(WavError::TruncatedChunk);
        }
        if tag_matches(bytes, cursor, 0x66, 0x6d, 0x74, 0x20) {
            let fmt = match parse_fmt_chunk(&bytes[body_start..body_end]) {
                Ok(f) => f,
                Err(e) => return Err(e),
            };
            found = ChunkScan { fmt: Some(fmt), data: found.data };
        } else if tag_matches(bytes, cursor, 0x64, 0x61, 0x74, 0x61) {
            found = ChunkScan { fmt: found.fmt, data: Some((body_start, body_end)) };
        }
        let pad = chunk_size % 2;
        if pad == 1 && body_end == usize::MAX {
            assert(spec_scan(bytes@, body_end + 1, found) == Ok::<ChunkScan, WavError>(found));
            return Ok(found);
        }
        cursor = body_end + pad;
    }
    Ok(found)
}

/// What the chunk walk can find: `fmt ` chunks as the fmt parser gives
/// them, and data ranges inside the buffer.
pub open spec fn scan_sound(b: Seq<u8>, found: ChunkScan) -> bool {
    &&& found.fmt matches Some(f) ==> 1 <= f.channel_count <= 0xFFFF
    &&& found.data matches Some((s, e)) ==> s <= e <= b.len()
}

/// The chunk walk keeps `scan_sound`.
pub proof fn lemma_scan_sound(b: Seq<u8>, cursor: int, found: ChunkScan)
    requires
        scan_sound(b, found),
    ensures
        spec_scan(b, cursor, found) matches Ok(r) ==> scan_sound(b, r),
    decreases b.len() + 1 - cursor,
{
    if cursor < 0 || cursor + 8 > b.len() {
    } else {
        let size = le32(b, cursor + 4);
        let body_start = cursor + 8;
        let body_end = body_start + size;
        if body_end <= usize::MAX && body_end <= b.len() {
            let next = body_end + size % 2;
            if is_fmt_tag(b, cursor) {
                if let Ok(f) = spec_parse_fmt(b.subrange(body_start, body_end)) {
                    lemma_scan_sound(b, next, ChunkScan { fmt: Some(f), data: found.data });
                }
            } else if is_data_tag(b, cursor) {
                lemma_scan_sound(
                    b,
                    next,
                    ChunkScan { fmt: found.fmt, data: Some((body_start as usize, body_end as usize)) },
                );
            } else {
                lemma_scan_sound(b, next, found);
            }
        }
    }
}

// ---------------------------------------------------------------------------
// Whole files
// ---------------------------------------------------------------------------

/// A decoded WAV file: one vector of sample codes per channel.
pub struct DecodedWave {
    pub channels: Vec<Vec<i64>>,
    pub audio_format: u16,
    pub sample_rate: u32,
    pub bits_per_sample: u16,
    pub frame_count: usize,
}

/// The mathematical content of a [`DecodedWave`].
pub struct WaveView {
    pub channels: Seq<Seq<i64>>,
    pub audio_format: u16,
    pub sample_rate: u32,
    pub bits_per_sample: u16,
    pub frame_count: int,
}

impl View for DecodedWave {
    type V = WaveView;

    open spec fn view(&self) -> WaveView {
        WaveView {
            channels: channels_view(self.channels@),
            audio_format: self.audio_format,
            sample_rate: self.sample_rate,
            bits_per_sample: self.bits_per_sample,
            frame_count: self.frame_count as int,
        }
    }
}

/// Whether the file starts with a `RIFF` header of form `WAVE`.
pub open spec fn riff_wave_header(b: Seq<u8>) -> bool {
    tag_is(b, 0, 0x52, 0x49, 0x46, 0x46) && tag_is(b, 8, 0x57, 0x41, 0x56, 0x45)
}

/// What a byte buffer decodes to, or the first reason it is refused.
pub open spec fn spec_parse_waveform(b: Seq<u8>) -> Result<WaveView, WavError> {
    if b.len() < 12 {
        Err(WavError::TooSmall)
    } else if !riff_wave_header(b) {
        Err(WavError::NotRiffWave)
    } else {
        match spec_scan(b, 12, no_chunks()) {
            Err(e) => Err(e),
            Ok(found) => match found.fmt {
                None => Err(WavError::MissingFmt),
                Some(fmt) => match found.data {
                    None => Err(WavError::MissingData),
                    Some((s, e)) => match spec_decode_channels(b.subrange(s as int, e as int), fmt) {
                        Err(err) => Err(err),
                        Ok(chs) => Ok(
                            WaveView {
                                channels: chs,
                                audio_format: fmt.audio_format,
                                sample_rate: fmt.sample_rate,
                                bits_per_sample: fmt.bits_per_sample,
                                frame_count: frames_in(e - s, fmt),
                            },
                        ),
                    },
                },
            },
        }
    }
}

/// Whether decoding `b` would divide by a zero block alignment: the walk
/// finds both chunks and the `fmt ` chunk declares a block alignment of 0.
pub open spec fn divides_by_zero_align(b: Seq<u8>) -> bool {
    &&& b.len() >= 12
    &&& riff_wave_header(b)
    &&& spec_scan(b, 12, no_chunks()) matches Ok(found)
    &&& found.fmt matches Some(fmt)
    &&& found.data is Some
    &&& fmt.block_align == 0
}

/// Whether `bytes` is a file whose frame count would be divided by a zero
/// block alignment.
pub fn declares_zero_block_align(bytes: &[u8]) -> (r: bool)
    ensures
        r == divides_by_zero_align(bytes@),
{
    if bytes.len() < 12 {
        return false;
    }
    if !(tag_matches(bytes, 0, 0x52, 0x49, 0x46, 0x46) && tag_matches(bytes, 8, 0x57, 0x41, 0x56, 0x45)) {
        return false;
    }
    match scan_chunks(bytes) {
        Ok(found) => match found.fmt {
            Some(fmt) => found.data.is_some() && fmt.block_align == 0,
            None => false,
        },
        Err(_) => false,
    }
}

/// Decodes a whole RIFF/WAVE file.
pub fn parse_waveform(bytes: &[u8]) -> (r: Result<DecodedWave, WavError>)
    requires
        !divides_by_zero_align(bytes@),
    ensures
        spec_parse_waveform(bytes@) matches Err(e) ==> r matches Err(e2) && e2 == e,
        spec_parse_waveform(bytes@) matches Ok(w) ==> (r matches Ok(d) && d@ == w),
{
    if bytes.len() < 12 {
        return Err(WavError::TooSmall);
    }
    if !(tag_matches(bytes, 0, 0x52, 0x49, 0x46, 0x46) && tag_matches(bytes, 8, 0x57, 0x41, 0x56, 0x45)) {
        return Err(WavError::NotRiffWave);
    }
    let found = match scan_chunks(bytes) {
        Ok(f) => f,
        Err(e) => return Err(e),
    };
    proof {
        lemma_scan_sound(bytes@, 12, no_chunks());
    }
    let fmt = match found.fmt {
        Some(f) => f,
        None => return Err(WavError::MissingFmt),
    };
    let (start, end) = match found.data {
        Some(range) => range,
        None => return Err(WavError::MissingData),
    };
    proof {
        if let Some(bps) = spec_bytes_per_sample(fmt.audio_format, fmt.bits_per_sample) {
            assert(bps * fmt.channel_count <= usize::MAX) by (nonlinear_arith)
                requires
                    1 <= bps <= 8,
                    fmt.channel_count <= 0xFFFF,
            ;
        }
    }
    let frame_count = (end - start) / fmt.block_align;
    let data = &bytes[start..end];
    let channels = match decode_channels(data, fmt) {
        Ok(c) => c,
        Err(e) => return Err(e),
    };
    Ok(
        DecodedWave {
            channels,
            audio_format: fmt.audio_format,
            sample_rate: fmt.sample_rate,
            bits_per_sample: fmt.bits_per_sample,
            frame_count,
        },
    )
}

// ---------------------------------------------------------------------------
// Laws
// ---------------------------------------------------------------------------

/// The `n` little-endian bytes of `u` (modulo `256^n`).
pub open spec fn le_bytes(u: nat, n: nat) -> Seq<u8>
    decreases n,
{
    if n == 0 {
        Seq::empty()
    } else {
        seq![(u % 256) as u8] + le_bytes(u / 256, (n - 1) as nat)
    }
}

/// The stored form of a signed PCM value of `bits` bits: two's complement,
/// offset by 128 for 8-bit samples.
pub open spec fn pcm_bytes(v: int, bits: u16) -> Seq<u8> {
    if bits == 8 {
        le_bytes((v + 128) as nat, 1)
    } else if bits == 16 {
        le_bytes((if v < 0 { v + 0x1_0000 } else { v }) as nat, 2)
    } else if bits == 24 {
        le_bytes((if v < 0 { v + 0x100_0000 } else { v }) as nat, 3)
    } else {
        le_bytes((if v < 0 { v + 0x1_0000_0000 } else { v }) as nat, 4)
    }
}

/// The range of a signed PCM sample of `bits` bits.
pub open spec fn pcm_in_range(v: int, bits: u16) -> bool {
    if bits == 8 {
        -128 <= v < 128
    } else if bits == 16 {
        -0x8000 <= v < 0x8000
    } else if bits == 24 {
        -0x80_0000 <= v < 0x80_0000
    } else {
        -0x8000_0000 <= v < 0x8000_0000
    }
}

proof fn lemma_le_bytes_2(u: nat)
    requires
        u < 0x1_0000,
    ensures
        le16(le_bytes(u, 2), 0) == u,
        le_bytes(u, 2).len() == 2,
{
    reveal_with_fuel(le_bytes, 3);
    let b = le_bytes(u, 2);
    assert(b =~= seq![(u % 256) as u8, ((u / 256) % 256) as u8]);
}

proof fn lemma_le_bytes_3(u: nat)
    requires
        u < 0x100_0000,
    ensures
        le24(le_bytes(u, 3), 0) == u,
        le_bytes(u, 3).len() == 3,
{
    reveal_with_fuel(le_bytes, 4);
    let b = le_bytes(u, 3);
    assert(b =~= seq![(u % 256) as u8, ((u / 256) % 256) as u8, ((u / 256 / 256) % 256) as u8]);
}

proof fn lemma_le_bytes_4(u: nat)
    requires
        u < 0x1_0000_0000,
    ensures
        le32(le_bytes(u, 4), 0) == u,
        le_bytes(u, 4).len() == 4,
{
    reveal_with_fuel(le_bytes, 5);
    let b = le_bytes(u, 4);
    assert(b =~= seq![
        (u % 256) as u8,
        ((u / 256) % 256) as u8,
        ((u / 256 / 256) % 256) as u8,
        ((u / 256 / 256 / 256) % 256) as u8,
    ]);
}

/// Decoding reads back what little-endian PCM encoding wrote: for every
/// supported PCM depth and every value of that depth, the code of the
/// stored bytes is the value.
pub proof fn lemma_pcm_round_trip(v: int, bits: u16)
    requires
        bits == 8 || bits == 16 || bits == 24 || bits == 32,
        pcm_in_range(v, bits),
    ensures
        spec_bytes_per_sample(PCM_FORMAT, bits) == Some(pcm_bytes(v, bits).len() as usize),
        sample_code(PCM_FORMAT, bits, pcm_bytes(v, bits), 0) == v,
{
    if bits == 8 {
        reveal_with_fuel(le_bytes, 2);
        assert(pcm_bytes(v, bits) =~= seq![((v + 128) % 256) as u8]);
    } else if bits == 16 {
        lemma_le_bytes_2((if v < 0 { v + 0x1_0000 } else { v }) as nat);
    } else if bits == 24 {
        lemma_le_bytes_3((if v < 0 { v + 0x100_0000 } else { v }) as nat);
    } else {
        lemma_le_bytes_4((if v < 0 { v + 0x1_0000_0000 } else { v }) as nat);
    }
}

/// Decoding keeps the bit pattern of a 32-bit float sample: the code of
/// its four little-endian bytes is the pattern itself.
pub proof fn lemma_float32_round_trip(pattern: u32)
    ensures
        sample_code(FLOAT_FORMAT, 32, le_bytes(pattern as nat, 4), 0) == pattern,
        le_bytes(pattern as nat, 4).len() == 4,
{
    lemma_le_bytes_4(pattern as nat);
}

/// The eight little-endian bytes of `u` are the four of its low half
/// followed by the four of its high half.
proof fn lemma_le_bytes_8(u: nat)
    requires
        u < 0x1_0000_0000_0000_0000,
    ensures
        le_bytes(u, 8) == le_bytes(u % 0x1_0000_0000, 4) + le_bytes(u / 0x1_0000_0000, 4),
        le_bytes(u, 8).len() == 8,
{
    let x = u as u64;
    let lo = u % 0x1_0000_0000;
    let hi = u / 0x1_0000_0000;
    let u1 = u / 256;
    let u2 = u1 / 256;
    let u3 = u2 / 256;
    let l1 = lo / 256;
    let l2 = l1 / 256;
    let l3 = l2 / 256;
    assert(x / 256 / 256 / 256 / 256 == x / 0x1_0000_0000) by (bit_vector);
    assert((x % 0x1_0000_0000) % 256 == x % 256) by (bit_vector);
    assert((x % 0x1_0000_0000) / 256 % 256 == (x / 256) % 256) by (bit_vector);
    assert((x % 0x1_0000_0000) / 256 / 256 % 256 == (x / 256 / 256) % 256) by (bit_vector);
    assert((x % 0x1_0000_0000) / 256 / 256 / 256 % 256 == (x / 256 / 256 / 256) % 256)
        by (bit_vector);
    assert((x % 0x1_0000_0000) / 256 / 256 / 256 / 256 == 0) by (bit_vector);
    assert(le_bytes(u, 8) == seq![(u % 256) as u8] + le_bytes(u1, 7));
    assert(le_bytes(u1, 7) == seq![(u1 % 256) as u8] + le_bytes(u2, 6));
    assert(le_bytes(u2, 6) == seq![(u2 % 256) as u8] + le_bytes(u3, 5));
    assert(le_bytes(u3, 5) == seq![(u3 % 256) as u8] + le_bytes(u3 / 256, 4));
    assert(le_bytes(lo, 4) == seq![(lo % 256) as u8] + le_bytes(l1, 3));
    assert(le_bytes(l1, 3) == seq![(l1 % 256) as u8] + le_bytes(l2, 2));
    assert(le_bytes(l2, 2) == seq![(l2 % 256) as u8] + le_bytes(l3, 1));
    assert(le_bytes(l3, 1) == seq![(l3 % 256) as u8] + le_bytes(l3 / 256, 0));
    lemma_le_bytes_4(hi);
    assert(u3 / 256 == hi);
    assert(le_bytes(u, 8) =~= le_bytes(lo, 4) + le_bytes(hi, 4));
}

/// Decoding keeps the bit pattern of a 64-bit float sample: the code of
/// its eight little-endian bytes is the pattern read as two's complement.
pub proof fn lemma_float64_round_trip(pattern: u64)
    ensures
        sample_code(FLOAT_FORMAT, 64, le_bytes(pattern as nat, 8), 0) == signed(
            pattern as int,
            0x8000_0000_0000_0000,
        ),
        le_bytes(pattern as nat, 8).len() == 8,
{
    let u = pattern as nat;
    let lo = u % 0x1_0000_0000;
    let hi = u / 0x1_0000_0000;
    let b = le_bytes(u, 8);
    lemma_le_bytes_8(u);
    lemma_le_bytes_4(lo);
    lemma_le_bytes_4(hi);
    assert(le32(b, 0) == lo) by {
        let l = le_bytes(lo, 4);
        assert(b[0] == l[0] && b[1] == l[1] && b[2] == l[2] && b[3] == l[3]);
    }
    assert(le32(b, 4) == hi) by {
        let h = le_bytes(hi, 4);
        assert(b[4] == h[0] && b[5] == h[1] && b[6] == h[2] && b[7] == h[3]);
    }
}

/// The stored bytes of a sample code of any supported encoding.
pub open spec fn encoded_sample(v: int, audio_format: u16, bits: u16) -> Seq<u8> {
    if audio_format == PCM_FORMAT {
        pcm_bytes(v, bits)
    } else if bits == 32 {
        le_bytes(v as nat, 4)
    } else {
        le_bytes((if v < 0 { v + 0x1_0000_0000_0000_0000 } else { v }) as nat, 8)
    }
}

/// The codes an encoding can hold: PCM values of its depth, 32-bit float
/// patterns, and 64-bit float patterns read as two's complement.
pub open spec fn code_in_range(v: int, audio_format: u16, bits: u16) -> bool {
    if audio_format == PCM_FORMAT {
        pcm_in_range(v, bits)
    } else if bits == 32 {
        0 <= v < 0x1_0000_0000
    } else {
        -0x8000_0000_0000_0000 <= v < 0x8000_0000_0000_0000
    }
}

/// Decoding reads back every code of every supported encoding from its
/// stored bytes.
pub proof fn lemma_sample_round_trip(v: int, audio_format: u16, bits: u16)
    requires
        spec_bytes_per_sample(audio_format, bits) is Some,
        code_in_range(v, audio_format, bits),
    ensures
        spec_bytes_per_sample(audio_format, bits) == Some(
            encoded_sample(v, audio_format, bits).len() as usize,
        ),
        sample_code(audio_format, bits, encoded_sample(v, audio_format, bits), 0) == v,
{
    if audio_format == PCM_FORMAT {
        lemma_pcm_round_trip(v, bits);
    } else if bits == 32 {
        lemma_float32_round_trip(v as u32);
    } else {
        let u = (if v < 0 { v + 0x1_0000_0000_0000_0000 } else { v });
        lemma_float64_round_trip(u as u64);
        assert(signed(u, 0x8000_0000_0000_0000) == v);
    }
}

/// What a `fmt ` chunk body says, read field by field: a plain PCM (1) or
/// IEEE float (3) tag is the format itself; an extensible tag (0xFFFE) with
/// a body of at least 40 bytes stands for the PCM or float sub-format whose
/// tag opens the GUID at offset 24; the channel count, sample rate, block
/// alignment and depth are the little-endian fields at offsets 2, 4, 12 and
/// 14. A body shorter than 16 bytes, zero channels, an extensible body
/// shorter than 40 bytes, and any other format are refused, and whatever
/// is accepted is PCM or float.
pub proof fn lemma_fmt_fields(c: Seq<u8>)
    ensures
        (c.len() >= 16 && le16(c, 2) != 0 && (le16(c, 0) == 1 || le16(c, 0) == 3))
            ==> spec_parse_fmt(c) == Ok::<FmtChunk, WavError>(
            FmtChunk {
                audio_format: le16(c, 0) as u16,
                channel_count: le16(c, 2) as usize,
                sample_rate: le32(c, 4) as u32,
                block_align: le16(c, 12) as usize,
                bits_per_sample: le16(c, 14) as u16,
            },
        ),
        (c.len() >= 40 && le16(c, 2) != 0 && le16(c, 0) == 0xFFFE && (le16(c, 24) == 1 || le16(
            c,
            24,
        ) == 3)) ==> spec_parse_fmt(c) == Ok::<FmtChunk, WavError>(
            FmtChunk {
                audio_format: le16(c, 24) as u16,
                channel_count: le16(c, 2) as usize,
                sample_rate: le32(c, 4) as u32,
                block_align: le16(c, 12) as usize,
                bits_per_sample: le16(c, 14) as u16,
            },
        ),
        c.len() < 16 ==> spec_parse_fmt(c) == Err::<FmtChunk, WavError>(WavError::FmtTruncated),
        (c.len() >= 16 && le16(c, 2) == 0) ==> spec_parse_fmt(c) == Err::<FmtChunk, WavError>(
            WavError::ZeroChannels,
        ),
        (c.len() >= 16 && le16(c, 2) != 0 && le16(c, 0) == 0xFFFE && c.len() < 40)
            ==> spec_parse_fmt(c) == Err::<FmtChunk, WavError>(WavError::ExtensibleTooSmall),
        (c.len() >= 16 && le16(c, 2) != 0 && le16(c, 0) != 1 && le16(c, 0) != 3 && le16(c, 0)
            != 0xFFFE) ==> spec_parse_fmt(c) == Err::<FmtChunk, WavError>(
            WavError::UnsupportedFormatTag(le16(c, 0) as u16),
        ),
        (c.len() >= 40 && le16(c, 2) != 0 && le16(c, 0) == 0xFFFE && le16(c, 24) != 1 && le16(
            c,
            24,
        ) != 3) ==> spec_parse_fmt(c) == Err::<FmtChunk, WavError>(
            WavError::UnsupportedFormatTag(le16(c, 24) as u16),
        ),
        spec_parse_fmt(c) is Ok ==> (spec_parse_fmt(c)->Ok_0.audio_format == 1
            || spec_parse_fmt(c)->Ok_0.audio_format == 3),
{
    if c.len() >= 16 {
        assert(0 <= le16(c, 0) <= 0xFFFF);
        assert(0 <= le16(c, 2) <= 0xFFFF);
    }
    if c.len() >= 40 {
        assert(0 <= le16(c, 24) <= 0xFFFF);
    }
}

/// A decoded file holds at least one channel, and every channel holds one
/// sample code per frame.
pub proof fn lemma_decoded_shape(b: Seq<u8>)
    ensures
        spec_parse_waveform(b) matches Ok(w) ==> {
            &&& 1 <= w.channels.len() <= 0xFFFF
            &&& forall|c: int| 0 <= c < w.channels.len() ==> (#[trigger] w.channels[c]).len()
                == w.frame_count
        },
{
    if b.len() >= 12 && riff_wave_header(b) {
        lemma_scan_sound(b, 12, no_chunks());
    }
}

/// Byte `k` (0 to 3) of the little-endian encoding of `v`.
pub open spec fn le_byte(v: nat, k: nat) -> u8 {
    (if k == 0 {
        v % 256
    } else if k == 1 {
        (v / 256) % 256
    } else if k == 2 {
        (v / 65536) % 256
    } else {
        (v / 16777216) % 256
    }) as u8
}

/// Interleaved frames: byte `i` belongs to frame `i / align`, channel
/// `(i % align) / bps`, and is byte `i % bps` of that sample.
pub open spec fn frame_data(samples: Seq<Seq<i64>>, frames: nat, audio_format: u16, bits: u16) -> Seq<u8> {
    let bps = (bits / 8) as int;
    let align = bps * samples.len();
    Seq::new(
        (frames * align) as nat,
        |i: int|
            encoded_sample(samples[(i % align) / bps][i / align] as int, audio_format, bits)[i
                % bps],
    )
}

/// The 44-byte header of a canonical file: `RIFF`, the RIFF size, `WAVE`,
/// a 16-byte `fmt ` chunk (format tag, channels, rate, byte rate, block
/// alignment, depth) and the `data` chunk header.
pub open spec fn wav_header(
    audio_format: nat,
    channels: nat,
    sample_rate: nat,
    bits: nat,
    data_len: nat,
) -> Seq<u8> {
    let align = (bits / 8) * channels;
    let riff = 36 + data_len;
    let rate = sample_rate * align;
    seq![
        0x52u8, 0x49, 0x46, 0x46,
        le_byte(riff, 0), le_byte(riff, 1), le_byte(riff, 2), le_byte(riff, 3),
        0x57, 0x41, 0x56, 0x45,
        0x66, 0x6d, 0x74, 0x20,
        16, 0, 0, 0,
        le_byte(audio_format, 0), le_byte(audio_format, 1),
        le_byte(channels, 0), le_byte(channels, 1),
        le_byte(sample_rate, 0), le_byte(sample_rate, 1), le_byte(sample_rate, 2), le_byte(sample_rate, 3),
        le_byte(rate, 0), le_byte(rate, 1), le_byte(rate, 2), le_byte(rate, 3),
        le_byte(align, 0), le_byte(align, 1),
        le_byte(bits, 0), le_byte(bits, 1),
        0x64, 0x61, 0x74, 0x61,
        le_byte(data_len, 0), le_byte(data_len, 1), le_byte(data_len, 2), le_byte(data_len, 3),
    ]
}

/// A canonical WAV file holding the interleaved frames of `samples` (one
/// sequence of codes per channel, `frames` codes each).
pub open spec fn wav_file(
    samples: Seq<Seq<i64>>,
    frames: nat,
    sample_rate: u32,
    audio_format: u16,
    bits: u16,
) -> Seq<u8> {
    let data = frame_data(samples, frames, audio_format, bits);
    wav_header(audio_format as nat, samples.len(), sample_rate as nat, bits as nat, data.len()) + data
}

proof fn lemma_le_byte_16(v: nat)
    requires
        v < 0x1_0000,
    ensures
        le_byte(v, 0) + 256 * le_byte(v, 1) == v,
{
}

proof fn lemma_le_byte_32(v: nat)
    requires
        v < 0x1_0000_0000,
    ensures
        le_byte(v, 0) + 256 * le_byte(v, 1) + 65536 * (le_byte(v, 2) + 256 * le_byte(v, 3)) == v,
{
}

/// Two byte sequences agreeing on a sample's bytes give it the same code.
proof fn lemma_sample_code_same_bytes(audio_format: u16, bits: u16, a: Seq<u8>, oa: int, w: Seq<u8>)
    requires
        spec_bytes_per_sample(audio_format, bits) matches Some(n) && forall|k: int|
            0 <= k < n ==> a[oa + k] == #[trigger] w[k],
    ensures
        sample_code(audio_format, bits, a, oa) == sample_code(audio_format, bits, w, 0),
{
    let n = spec_bytes_per_sample(audio_format, bits)->Some_0;
    assert(a[oa] == w[0]);
    if n >= 2 {
        assert(a[oa + 1] == w[1]);
    }
    if n >= 3 {
        assert(a[oa + 2] == w[2]);
    }
    if n >= 4 {
        assert(a[oa + 3] == w[3]);
    }
    if n >= 8 {
        assert(a[oa + 4] == w[4]);
        assert(a[oa + 5] == w[5]);
        assert(a[oa + 6] == w[6]);
        assert(a[oa + 7] == w[7]);
    }
}

/// The header of a canonical file reads as what it was written from.
proof fn lemma_header_reads(
    b: Seq<u8>,
    audio_format: nat,
    channels: nat,
    sample_rate: nat,
    bits: nat,
    data_len: nat,
)
    requires
        b.len() >= 44,
        b.subrange(0, 44) == wav_header(audio_format, channels, sample_rate, bits, data_len),
        audio_format <= 0xFFFF,
        1 <= channels <= 0xFFFF,
        (bits / 8) * channels <= 0xFFFF,
        bits <= 0xFFFF,
        sample_rate <= 0xFFFF_FFFF,
        data_len <= 0xFFFF_FFFF,
    ensures
        riff_wave_header(b),
        is_fmt_tag(b, 12),
        le32(b, 16) == 16,
        le16(b, 20) == audio_format,
        le16(b, 22) == channels,
        le32(b, 24) == sample_rate,
        le16(b, 32) == (bits / 8) * channels,
        le16(b, 34) == bits,
        is_data_tag(b, 36),
        !is_fmt_tag(b, 36),
        le32(b, 40) == data_len,
{
    let h = wav_header(audio_format, channels, sample_rate, bits, data_len);
    assert forall|i: int| 0 <= i < 44 implies b[i] == #[trigger] h[i] by {
        assert(b.subrange(0, 44)[i] == b[i]);
    }
    lemma_le_byte_16(audio_format);
    lemma_le_byte_16(channels);
    lemma_le_byte_32(sample_rate);
    lemma_le_byte_16((bits / 8) * channels);
    lemma_le_byte_16(bits);
    lemma_le_byte_32(data_len);
}

/// The frames of a canonical file decode to the codes they hold.
proof fn lemma_frames_decode(
    samples: Seq<Seq<i64>>,
    frames: nat,
    audio_format: u16,
    bits: u16,
    fmt: FmtChunk,
)
    requires
        spec_bytes_per_sample(audio_format, bits) == Some((bits / 8) as usize),
        1 <= samples.len(),
        fmt.audio_format == audio_format,
        fmt.bits_per_sample == bits,
        fmt.channel_count as int == samples.len(),
        fmt.block_align as int == (bits / 8) as int * samples.len(),
        forall|c: int| 0 <= c < samples.len() ==> (#[trigger] samples[c]).len() == frames,
        forall|c: int, f: int|
            0 <= c < samples.len() && 0 <= f < frames ==> code_in_range(
                #[trigger] samples[c][f] as int,
                audio_format,
                bits,
            ),
    ensures
        spec_decode_channels(frame_data(samples, frames, audio_format, bits), fmt) == Ok::<
            Seq<Seq<i64>>,
            WavError,
        >(samples),
        frames_in(frame_data(samples, frames, audio_format, bits).len() as int, fmt) == frames,
{
    let ch = samples.len() as int;
    let bps = (bits / 8) as int;
    let align = bps * ch;
    let data = frame_data(samples, frames, audio_format, bits);
    let d = data.len() as int;
    assert(align >= 1) by (nonlinear_arith)
        requires
            bps >= 1,
            ch >= 1,
            align == bps * ch,
    ;
    assert(d == frames * align);
    assert(d % align == 0 && d / align == frames) by {
        vstd::arithmetic::div_mod::lemma_fundamental_div_mod_converse(d, align, frames as int, 0);
    }
    let decoded = Seq::new(
        ch as nat,
        |c: int|
            Seq::new(
                frames_in(d, fmt) as nat,
                |f: int| sample_code(audio_format, bits, data, f * align + c * bps) as i64,
            ),
    );
    assert(spec_decode_channels(data, fmt) == Ok::<Seq<Seq<i64>>, WavError>(decoded));
    assert forall|c: int, f: int| 0 <= c < ch && 0 <= f < frames implies decoded[c][f]
        == samples[c][f] by {
        let v = samples[c][f] as int;
        let w = encoded_sample(v, audio_format, bits);
        lemma_sample_round_trip(v, audio_format, bits);
        let off = f * align + c * bps;
        assert forall|k: int| 0 <= k < bps implies data[off + k] == #[trigger] w[k] by {
            assert(0 <= c * bps + k < align) by (nonlinear_arith)
                requires
                    0 <= c < ch,
                    0 <= k < bps,
                    align == bps * ch,
            ;
            assert(off + k < d && 0 <= off + k) by (nonlinear_arith)
                requires
                    off == f * align + c * bps,
                    0 <= c * bps + k < align,
                    0 <= f < frames,
                    d == frames * align,
            ;
            vstd::arithmetic::div_mod::lemma_fundamental_div_mod_converse(
                off + k,
                align,
                f,
                c * bps + k,
            );
            vstd::arithmetic::div_mod::lemma_fundamental_div_mod_converse(c * bps + k, bps, c, k);
            let i = off + k;
            assert(i / align == f);
            assert(i % align == c * bps + k);
            assert((i % align) / bps == c);
            assert(i % bps == k) by {
                assert(i == (f * ch + c) * bps + k) by (nonlinear_arith)
                    requires
                        i == f * align + c * bps + k,
                        align == bps * ch,
                ;
                vstd::arithmetic::div_mod::lemma_fundamental_div_mod_converse(i, bps, f * ch + c, k);
            }
            assert(data[i] == encoded_sample(samples[c][f] as int, audio_format, bits)[k]);
        }
        lemma_sample_code_same_bytes(audio_format, bits, data, off, w);
    }
    assert forall|c: int| 0 <= c < ch implies #[trigger] decoded[c] =~= samples[c] by {
        assert forall|f: int| 0 <= f < frames implies #[trigger] decoded[c][f] == samples[c][f] by {}
    }
    assert(decoded =~= samples);
}

/// The chunk walk over a canonical file finds its `fmt ` and `data` chunks.
#[verifier::rlimit(60)]
proof fn lemma_file_scan(
    samples: Seq<Seq<i64>>,
    frames: nat,
    sample_rate: u32,
    audio_format: u16,
    bits: u16,
)
    requires
        spec_bytes_per_sample(audio_format, bits) == Some((bits / 8) as usize),
        1 <= samples.len(),
        (bits / 8) as int * samples.len() <= 0xFFFF,
        frames * ((bits / 8) as int * samples.len()) + 44 <= 0xFFFF_FFFF,
    ensures
        ({
            let b = wav_file(samples, frames, sample_rate, audio_format, bits);
            let d = frame_data(samples, frames, audio_format, bits).len();
            let fmt = FmtChunk {
                audio_format,
                channel_count: samples.len() as usize,
                sample_rate,
                block_align: ((bits / 8) as int * samples.len()) as usize,
                bits_per_sample: bits,
            };
            &&& b.len() == 44 + d
            &&& riff_wave_header(b)
            &&& spec_scan(b, 12, no_chunks()) == Ok::<ChunkScan, WavError>(
                ChunkScan { fmt: Some(fmt), data: Some((44usize, (44 + d) as usize)) },
            )
            &&& d == frames * ((bits / 8) as int * samples.len())
        }),
{
    let ch = samples.len();
    let align = (bits / 8) as int * ch;
    let data = frame_data(samples, frames, audio_format, bits);
    let d = data.len();
    let b = wav_file(samples, frames, sample_rate, audio_format, bits);
    assert(ch <= 0xFFFF) by (nonlinear_arith)
        requires
            (bits / 8) as int * ch <= 0xFFFF,
            (bits / 8) as int >= 1,
            ch >= 1,
    ;
    assert(d == frames * align);
    assert(b.len() == 44 + d);
    assert(b.subrange(0, 44) =~= wav_header(audio_format as nat, ch, sample_rate as nat, bits as nat, d));
    lemma_header_reads(b, audio_format as nat, ch, sample_rate as nat, bits as nat, d);
    let body = b.subrange(20, 36);
    assert(le16(body, 0) == le16(b, 20));
    assert(le16(body, 2) == le16(b, 22));
    assert(le32(body, 4) == le32(b, 24));
    assert(le16(body, 12) == le16(b, 32));
    assert(le16(body, 14) == le16(b, 34));
    let fmt = FmtChunk {
        audio_format,
        channel_count: ch as usize,
        sample_rate,
        block_align: align as usize,
        bits_per_sample: bits,
    };
    assert(spec_parse_fmt(body) == Ok::<FmtChunk, WavError>(fmt));
    let found = ChunkScan { fmt: Some(fmt), data: Some((44usize, (44 + d) as usize)) };
    assert(spec_scan(b, (44 + d + d % 2) as int, found) == Ok::<ChunkScan, WavError>(found));
    assert(spec_scan(b, 36, ChunkScan { fmt: Some(fmt), data: None }) == Ok::<ChunkScan, WavError>(
        found,
    ));
}

/// Decoding a canonical file gives back the codes it was written from, for
/// every supported encoding (PCM 8/16/24/32-bit, float 32/64-bit): every
/// channel, every frame, the format, the sample rate and the depth.
pub proof fn lemma_file_round_trip(
    samples: Seq<Seq<i64>>,
    frames: nat,
    sample_rate: u32,
    audio_format: u16,
    bits: u16,
)
    requires
        spec_bytes_per_sample(audio_format, bits) is Some,
        1 <= samples.len(),
        (bits / 8) as int * samples.len() <= 0xFFFF,
        frames * ((bits / 8) as int * samples.len()) + 44 <= 0xFFFF_FFFF,
        forall|c: int| 0 <= c < samples.len() ==> (#[trigger] samples[c]).len() == frames,
        forall|c: int, f: int|
            0 <= c < samples.len() && 0 <= f < frames ==> code_in_range(
                #[trigger] samples[c][f] as int,
                audio_format,
                bits,
            ),
    ensures
        spec_parse_waveform(wav_file(samples, frames, sample_rate, audio_format, bits)) == Ok::<
            WaveView,
            WavError,
        >(
            WaveView {
                channels: samples,
                audio_format,
                sample_rate,
                bits_per_sample: bits,
                frame_count: frames as int,
            },
        ),
        !divides_by_zero_align(wav_file(samples, frames, sample_rate, audio_format, bits)),
{
    let ch = samples.len();
    let align = (bits / 8) as int * ch;
    let data = frame_data(samples, frames, audio_format, bits);
    let d = data.len();
    let b = wav_file(samples, frames, sample_rate, audio_format, bits);
    assert(spec_bytes_per_sample(audio_format, bits) == Some((bits / 8) as usize));
    lemma_file_scan(samples, frames, sample_rate, audio_format, bits);
    let fmt = FmtChunk {
        audio_format,
        channel_count: ch as usize,
        sample_rate,
        block_align: align as usize,
        bits_per_sample: bits,
    };
    assert(ch <= 0xFFFF) by (nonlinear_arith)
        requires
            (bits / 8) as int * ch <= 0xFFFF,
            (bits / 8) as int >= 1,
            ch >= 1,
    ;
    assert(align >= 1) by (nonlinear_arith)
        requires
            (bits / 8) as int >= 1,
            ch >= 1,
            align == (bits / 8) as int * ch,
    ;
    assert(b.subrange(44, (44 + d) as int) =~= data);
    lemma_frames_decode(samples, frames, audio_format, bits, fmt);
}

} // verus!
