//! The RIFF/WAVE container of the recordings: the 44-byte PCM16 header that
//! is written, the chunk scan that reads a file, and the header checks used
//! when recovering or mixing recordings.
//!
//! File access and sample conversion (floating point) happen outside the
//! library.
use vstd::prelude::*;

use crate::text::{owned, push_str};

verus! {

/// Length of the PCM16 header written before the samples.
pub const HEADER_LEN: u64 = 44;

/// Sample rate of the recordings.
pub const TARGET_SAMPLE_RATE: u32 = 16000;

/// Suffix a recording carries until it is complete.
pub const PART_SUFFIX: &'static str = ".part";

/// The `.part` path a recording is written under until it is complete.
pub fn part_path_of(path: &str) -> (r: String)
    ensures
        r@ == path@ + ".part"@,
{
    let mut r = owned(path);
    push_str(&mut r, PART_SUFFIX);
    r
}

/// Silence trimming statistics.
#[derive(Debug, Clone)]
pub struct TrimStats {
    /// Input samples (16 kHz).
    pub input_samples: u64,
    /// Output samples (16 kHz).
    pub output_samples: u64,
    pub input_ms: u64,
    pub output_ms: u64,
    /// Silence removed (ms).
    pub removed_ms: u64,
    pub speech_segments: usize,
    pub output_path: String,
}

/// Little-endian 16-bit value at `i`.
pub open spec fn le16(b: Seq<u8>, i: int) -> int {
    b[i] as int + 256 * (b[i + 1] as int)
}

/// Little-endian 32-bit value at `i`.
pub open spec fn le32(b: Seq<u8>, i: int) -> int {
    b[i] as int + 256 * (b[i + 1] as int) + 65536 * (b[i + 2] as int) + 16777216 * (b[i + 3] as int)
}

pub open spec fn bytes16(v: int) -> Seq<u8> {
    seq![(v % 256) as u8, ((v / 256) % 256) as u8]
}

pub open spec fn bytes32(v: int) -> Seq<u8> {
    seq![(v % 256) as u8, ((v / 256) % 256) as u8, ((v / 65536) % 256) as u8, ((v / 16777216) % 256) as u8]
}

/// `RIFF`, `WAVE`, `fmt `, `data` as bytes.
pub open spec fn riff_tag() -> Seq<u8> {
    seq![82u8, 73u8, 70u8, 70u8]
}

pub open spec fn wave_tag() -> Seq<u8> {
    seq![87u8, 65u8, 86u8, 69u8]
}

pub open spec fn fmt_tag() -> Seq<u8> {
    seq![102u8, 109u8, 116u8, 32u8]
}

pub open spec fn data_tag() -> Seq<u8> {
    seq![100u8, 97u8, 116u8, 97u8]
}

/// The 44-byte PCM16 header: RIFF size `36 + data` (saturating, with the
/// data size taken modulo 2^32), fmt chunk of 16 bytes (PCM, channels, rate,
/// byte rate, block align, 16 bits), data size modulo 2^32.
pub open spec fn pcm16_header_spec(sample_rate: u32, channels: u16, data_bytes: u64) -> Seq<u8> {
    let data32 = data_bytes as int % 0x1_0000_0000;
    let riff = if 36 + data32 > u32::MAX {
        u32::MAX as int
    } else {
        36 + data32
    };
    riff_tag() + bytes32(riff) + wave_tag() + fmt_tag() + bytes32(16) + bytes16(1) + bytes16(channels as int)
        + bytes32(sample_rate as int) + bytes32(sample_rate * channels * 2) + bytes16(channels * 2)
        + bytes16(16) + data_tag() + bytes32(data32)
}

fn push16(out: &mut Vec<u8>, v: u16)
    ensures
        final(out)@ == old(out)@ + bytes16(v as int),
{
    out.push((v % 256) as u8);
    out.push((v / 256) as u8);
    assert(out@ =~= old(out)@ + bytes16(v as int));
}

fn push32(out: &mut Vec<u8>, v: u32)
    ensures
        final(out)@ == old(out)@ + bytes32(v as int),
{
    out.push((v % 256) as u8);
    out.push(((v / 256) % 256) as u8);
    out.push(((v / 65536) % 256) as u8);
    out.push((v / 16777216) as u8);
    assert(out@ =~= old(out)@ + bytes32(v as int));
}

fn push_tag(out: &mut Vec<u8>, a: u8, b: u8, c: u8, d: u8)
    ensures
        final(out)@ == old(out)@ + seq![a, b, c, d],
{
    out.push(a);
    out.push(b);
    out.push(c);
    out.push(d);
    assert(out@ =~= old(out)@ + seq![a, b, c, d]);
}

/// The PCM16 RIFF header for `data_bytes` of interleaved samples.
pub fn pcm16_header(sample_rate: u32, channels: u16, data_bytes: u64) -> (h: Vec<u8>)
    requires
        sample_rate * channels * 2 <= u32::MAX,
        channels * 2 <= u16::MAX,
    ensures
        h@ == pcm16_header_spec(sample_rate, channels, data_bytes),
        h@.len() == 44,
{
    let data32: u32 = (data_bytes % 0x1_0000_0000) as u32;
    let riff: u32 = 36u32.saturating_add(data32);
    let mut h: Vec<u8> = Vec::new();
    push_tag(&mut h, 82, 73, 70, 70);
    push32(&mut h, riff);
    push_tag(&mut h, 87, 65, 86, 69);
    push_tag(&mut h, 102, 109, 116, 32);
    push32(&mut h, 16);
    push16(&mut h, 1);
    push16(&mut h, channels);
    push32(&mut h, sample_rate);
    assert(sample_rate * (channels as u32) <= u32::MAX) by (nonlinear_arith)
        requires
            sample_rate * channels * 2 <= u32::MAX,
    ;
    push32(&mut h, sample_rate * (channels as u32) * 2);
    push16(&mut h, channels * 2);
    push16(&mut h, 16);
    push_tag(&mut h, 100, 97, 116, 97);
    push32(&mut h, data32);
    assert(h@ =~= pcm16_header_spec(sample_rate, channels, data_bytes));
    h
}

// ---------------------------------------------------------------- reading

/// What a chunk scan collects: (sample rate, channels, bits, data bytes).
pub type ScanState = (u32, u16, u16, Seq<u8>);

/// Why a WAVE file is refused.
#[derive(Debug, Clone, Copy, PartialEq, Eq, Structural)]
pub enum WavError {
    /// Not a RIFF/WAVE file (or shorter than a header).
    NotRiffWave,
    /// The fmt chunk declares a format other than PCM (the code is given).
    NotPcm(u16),
    /// No fmt information, or not 16-bit: (sample rate, bits) as found.
    MissingFormat(u32, u16),
}

/// The chunk scan from `pos`: every complete chunk is read in turn (a chunk
/// running past the end stops the scan); a fmt chunk of at least 16 bytes
/// sets the format (and must be PCM), data chunks are concatenated, and an
/// odd-sized chunk is followed by a pad byte.
pub open spec fn scan_from(buf: Seq<u8>, pos: int, st: ScanState) -> Result<ScanState, WavError>
    decreases buf.len() - pos,
{
    if pos < 0 || pos + 8 > buf.len() {
        Ok(st)
    } else {
        let size = le32(buf, pos + 4);
        let body = pos + 8;
        if size < 0 || body + size > buf.len() {
            Ok(st)
        } else {
            let id = buf.subrange(pos, pos + 4);
            let next = body + size + size % 2;
            if id == fmt_tag() && size >= 16 && le16(buf, body) != 1 {
                Err(WavError::NotPcm(le16(buf, body) as u16))
            } else {
                let st2 = if id == fmt_tag() && size >= 16 {
                    (le32(buf, body + 4) as u32, le16(buf, body + 2) as u16, le16(buf, body + 14) as u16, st.3)
                } else if id == data_tag() {
                    (st.0, st.1, st.2, st.3 + buf.subrange(body, body + size))
                } else {
                    st
                };
                if next > buf.len() {
                    Ok(st2)
                } else {
                    scan_from(buf, next, st2)
                }
            }
        }
    }
}

/// A PCM16 WAVE file's (sample rate, channels, data bytes), or why it is refused.
pub open spec fn scan_wav_spec(buf: Seq<u8>) -> Result<(u32, u16, Seq<u8>), WavError> {
    if buf.len() < 44 || buf.subrange(0, 4) != riff_tag() || buf.subrange(8, 12) != wave_tag() {
        Err(WavError::NotRiffWave)
    } else {
        match scan_from(buf, 12, (0, 0, 0, Seq::empty())) {
            Err(e) => Err(e),
            Ok((sr, ch, bits, data)) => if sr == 0 || bits != 16 {
                Err(WavError::MissingFormat(sr, bits))
            } else {
                Ok((sr, ch, data))
            },
        }
    }
}

fn read16(b: &[u8], i: usize) -> (v: u16)
    requires
        i + 2 <= b.len(),
    ensures
        v == le16(b@, i as int),
{
    (b[i] as u16) + 256 * (b[i + 1] as u16)
}

fn read32(b: &[u8], i: usize) -> (v: u32)
    requires
        i + 4 <= b.len(),
    ensures
        v == le32(b@, i as int),
{
    (b[i] as u32) + 256 * (b[i + 1] as u32) + 65536 * (b[i + 2] as u32) + 16777216 * (b[i + 3] as u32)
}

fn tag_at(b: &[u8], i: usize, t0: u8, t1: u8, t2: u8, t3: u8) -> (r: bool)
    requires
        i + 4 <= b.len(),
    ensures
        r == (b@.subrange(i as int, i + 4) == seq![t0, t1, t2, t3]),
{
    let r = b[i] == t0 && b[i + 1] == t1 && b[i + 2] == t2 && b[i + 3] == t3;
    proof {
        if r {
            assert(b@.subrange(i as int, i + 4) =~= seq![t0, t1, t2, t3]);
        } else {
            if b@.subrange(i as int, i + 4) == seq![t0, t1, t2, t3] {
                assert(b@.subrange(i as int, i + 4)[0] == t0);
                assert(b@.subrange(i as int, i + 4)[1] == t1);
                assert(b@.subrange(i as int, i + 4)[2] == t2);
                assert(b@.subrange(i as int, i + 4)[3] == t3);
            }
        }
    }
    r
}

/// A WAVE file's format and data: (sample rate, channels, data bytes).
pub fn scan_wav(buf: &[u8]) -> (r: Result<(u32, u16, Vec<u8>), WavError>)
    ensures
        match r {
            Ok((sr, ch, data)) => scan_wav_spec(buf@) == Ok::<(u32, u16, Seq<u8>), WavError>((sr, ch, data@)),
            Err(e) => scan_wav_spec(buf@) == Err::<(u32, u16, Seq<u8>), WavError>(e),
        },
{
    if buf.len() < 44 || !tag_at(buf, 0, 82, 73, 70, 70) || !tag_at(buf, 8, 87, 65, 86, 69) {
        return Err(WavError::NotRiffWave);
    }
    let mut pos: usize = 12;
    let mut sample_rate: u32 = 0;
    let mut channels: u16 = 0;
    let mut bits: u16 = 0;
    let mut data: Vec<u8> = Vec::new();
    let ghost start: ScanState = (0, 0, 0, Seq::empty());
    assert(data@ =~= Seq::<u8>::empty());
    loop
        invariant_except_break
            scan_from(buf@, 12, start) == scan_from(buf@, pos as int, (sample_rate, channels, bits, data@)),
        invariant
            12 <= pos,
            buf.len() >= 44,
            buf@.subrange(0, 4) == riff_tag(),
            buf@.subrange(8, 12) == wave_tag(),
            start == (0u32, 0u16, 0u16, Seq::<u8>::empty()),
        ensures
            scan_from(buf@, 12, start) == Ok::<ScanState, WavError>((sample_rate, channels, bits, data@)),
        decreases buf.len() - pos,
    {
        if pos > buf.len() || buf.len() - pos < 8 {
            break;
        }
        let size = read32(buf, pos + 4) as usize;
        let body = pos + 8;
        if size > buf.len() - body {
            break;
        }
        let end = body + size;
        if tag_at(buf, pos, 102, 109, 116, 32) {
            if size >= 16 {
                let format = read16(buf, body);
                if format != 1 {
                    assert(buf@.subrange(pos as int, pos + 4) == fmt_tag());
                    assert(le32(buf@, pos + 4) == size);
                    assert(scan_from(buf@, pos as int, (sample_rate, channels, bits, data@)) == Err::<ScanState, WavError>(
                        WavError::NotPcm(format),
                    ));
                    return Err(WavError::NotPcm(format));
                }
                channels = read16(buf, body + 2);
                sample_rate = read32(buf, body + 4);
                bits = read16(buf, body + 14);
            }
        } else if tag_at(buf, pos, 100, 97, 116, 97) {
            let ghost before = data@;
            let mut k: usize = body;
            while k < body + size
                invariant
                    body <= k <= body + size <= buf.len(),
                    data@ == before + buf@.subrange(body as int, k as int),
                decreases body + size - k,
            {
                data.push(buf[k]);
                assert(data@ =~= before + buf@.subrange(body as int, k + 1));
                k += 1;
            }
        }
        if size % 2 == 1 {
            if end >= buf.len() {
                break;
            }
            pos = end + 1;
        } else {
            pos = end;
        }
    }
    if sample_rate == 0 || bits != 16 {
        return Err(WavError::MissingFormat(sample_rate, bits));
    }
    Ok((sample_rate, channels, data))
}

/// The format a recovered `.part` gets: the rate and channel count of its
/// own header when that header is a RIFF/WAVE one (at least 1 each), else
/// 16 kHz mono.
pub open spec fn recovery_format_spec(header: Seq<u8>) -> (u32, u16) {
    if header.subrange(0, 4) == riff_tag() && header.subrange(8, 12) == wave_tag() {
        let sr = le32(header, 24);
        let ch = le16(header, 22);
        ((if sr < 1 {
            1
        } else {
            sr
        }) as u32, (if ch < 1 {
            1
        } else {
            ch
        }) as u16)
    } else {
        (16000, 1)
    }
}

/// The format to write into a recovered recording's header.
pub fn recovery_format(header: &[u8]) -> (r: (u32, u16))
    requires
        header.len() >= 44,
    ensures
        r == recovery_format_spec(header@),
{
    if tag_at(header, 0, 82, 73, 70, 70) && tag_at(header, 8, 87, 65, 86, 69) {
        let sr = read32(header, 24);
        let ch = read16(header, 22);
        (if sr < 1 {
            1
        } else {
            sr
        }, if ch < 1 {
            1
        } else {
            ch
        })
    } else {
        (TARGET_SAMPLE_RATE, 1)
    }
}

/// Why a track cannot be mixed into the stereo master.
#[derive(Debug, Clone, Copy, PartialEq, Eq, Structural)]
pub enum TrackError {
    /// Not a RIFF/WAVE header.
    NotWave,
    /// Not one of the mono PCM16 tracks this project writes.
    NotMonoPcm16,
}

/// A mono PCM16 track's (sample rate, sample count) from its fixed header.
pub open spec fn mono_track_spec(header: Seq<u8>) -> Result<(u32, u64), TrackError> {
    if header.subrange(0, 4) != riff_tag() || header.subrange(8, 12) != wave_tag() {
        Err(TrackError::NotWave)
    } else if le16(header, 22) != 1 || le16(header, 34) != 16 || header.subrange(36, 40) != data_tag() {
        Err(TrackError::NotMonoPcm16)
    } else {
        Ok((le32(header, 24) as u32, (le32(header, 40) / 2) as u64))
    }
}

/// Reads the fixed 44-byte header of a mono PCM16 track.
pub fn mono_track_info(header: &[u8]) -> (r: Result<(u32, u64), TrackError>)
    requires
        header.len() >= 44,
    ensures
        r == mono_track_spec(header@),
{
    if !(tag_at(header, 0, 82, 73, 70, 70) && tag_at(header, 8, 87, 65, 86, 69)) {
        return Err(TrackError::NotWave);
    }
    let channels = read16(header, 22);
    let bits = read16(header, 34);
    if channels != 1 || bits != 16 || !tag_at(header, 36, 100, 97, 116, 97) {
        return Err(TrackError::NotMonoPcm16);
    }
    let sample_rate = read32(header, 24);
    let samples = (read32(header, 40) as u64) / 2;
    Ok((sample_rate, samples))
}

// ---------------------------------------------------------------- round trips

proof fn lemma_le16_bytes(v: int)
    requires
        0 <= v < 0x1_0000,
    ensures
        le16(bytes16(v), 0) == v,
{
    let b = bytes16(v);
    assert(b[0] as int == v % 256);
    assert(b[1] as int == (v / 256) % 256);
    assert(v == v % 256 + 256 * ((v / 256) % 256)) by (nonlinear_arith)
        requires
            0 <= v < 0x1_0000,
    ;
}

proof fn lemma_le32_bytes(v: int)
    requires
        0 <= v < 0x1_0000_0000,
    ensures
        le32(bytes32(v), 0) == v,
{
    let b = bytes32(v);
    assert(b[0] as int == v % 256);
    assert(b[1] as int == (v / 256) % 256);
    assert(b[2] as int == (v / 65536) % 256);
    assert(b[3] as int == (v / 16777216) % 256);
    assert(v == v % 256 + 256 * ((v / 256) % 256) + 65536 * ((v / 65536) % 256) + 16777216 * ((v / 16777216)
        % 256)) by (nonlinear_arith)
        requires
            0 <= v < 0x1_0000_0000,
    ;
}

/// The fields of a header this library writes, read back at their offsets.
proof fn lemma_header_fields(sample_rate: u32, channels: u16, data_bytes: u64)
    requires
        sample_rate * channels * 2 <= u32::MAX,
        channels * 2 <= u16::MAX,
    ensures
        ({
            let h = pcm16_header_spec(sample_rate, channels, data_bytes);
            &&& h.len() == 44
            &&& h.subrange(0, 4) == riff_tag()
            &&& h.subrange(8, 12) == wave_tag()
            &&& h.subrange(12, 16) == fmt_tag()
            &&& le32(h, 16) == 16
            &&& le16(h, 20) == 1
            &&& le16(h, 22) == channels
            &&& le32(h, 24) == sample_rate
            &&& le16(h, 34) == 16
            &&& h.subrange(36, 40) == data_tag()
            &&& le32(h, 40) == data_bytes as int % 0x1_0000_0000
        }),
{
    let h = pcm16_header_spec(sample_rate, channels, data_bytes);
    let data32 = data_bytes as int % 0x1_0000_0000;
    assert(h.subrange(0, 4) =~= riff_tag());
    assert(h.subrange(8, 12) =~= wave_tag());
    assert(h.subrange(12, 16) =~= fmt_tag());
    assert(h.subrange(36, 40) =~= data_tag());
    lemma_le32_bytes(16);
    assert(le32(h, 16) == le32(bytes32(16), 0));
    lemma_le16_bytes(1);
    assert(le16(h, 20) == le16(bytes16(1), 0));
    lemma_le16_bytes(channels as int);
    assert(le16(h, 22) == le16(bytes16(channels as int), 0));
    lemma_le32_bytes(sample_rate as int);
    assert(le32(h, 24) == le32(bytes32(sample_rate as int), 0));
    lemma_le16_bytes(16);
    assert(le16(h, 34) == le16(bytes16(16), 0));
    lemma_le32_bytes(data32);
    assert(le32(h, 40) == le32(bytes32(data32), 0));
}

/// A mono header this library writes reads back, as a track, as the rate it
/// was written with and the number of 16-bit samples its data size holds.
pub proof fn lemma_mono_header_round_trip(sample_rate: u32, data_bytes: u64)
    requires
        sample_rate * 2 <= u32::MAX,
    ensures
        mono_track_spec(pcm16_header_spec(sample_rate, 1, data_bytes)) == Ok::<(u32, u64), TrackError>(
            (sample_rate, ((data_bytes as int % 0x1_0000_0000) / 2) as u64),
        ),
{
    lemma_header_fields(sample_rate, 1, data_bytes);
}

/// A recovered recording gets back the format its header was written with
/// (at least 1 Hz and one channel).
pub proof fn lemma_recovery_keeps_written_format(sample_rate: u32, channels: u16, data_bytes: u64)
    requires
        sample_rate * channels * 2 <= u32::MAX,
        channels * 2 <= u16::MAX,
    ensures
        recovery_format_spec(pcm16_header_spec(sample_rate, channels, data_bytes)) == (
            if sample_rate < 1 { 1 } else { sample_rate },
            if channels < 1 { 1 } else { channels },
        ),
{
    lemma_header_fields(sample_rate, channels, data_bytes);
}

proof fn lemma_scan_fmt_step(buf: Seq<u8>, st0: ScanState)
    requires
        buf.len() >= 44,
        buf.subrange(12, 16) == fmt_tag(),
        le32(buf, 16) == 16,
        le16(buf, 20) == 1,
    ensures
        scan_from(buf, 12, st0) == scan_from(
            buf,
            36,
            (le32(buf, 24) as u32, le16(buf, 22) as u16, le16(buf, 34) as u16, st0.3),
        ),
{
}

proof fn lemma_scan_data_step(buf: Seq<u8>, st: ScanState, n: int)
    requires
        n >= 0,
        buf.len() == 44 + n,
        buf.subrange(36, 40) == data_tag(),
        le32(buf, 40) == n,
        st.3.len() == 0,
    ensures
        scan_from(buf, 36, st) == Ok::<ScanState, WavError>((st.0, st.1, st.2, buf.subrange(44, 44 + n))),
{
    assert(data_tag() != fmt_tag());
    let st2: ScanState = (st.0, st.1, st.2, st.3 + buf.subrange(44, 44 + n));
    assert(st.3 + buf.subrange(44, 44 + n) =~= buf.subrange(44, 44 + n));
    let next = 44 + n + n % 2;
    if next <= buf.len() {
        assert(scan_from(buf, next, st2) == Ok::<ScanState, WavError>(st2));
    }
}

/// A PCM16 file this library writes, its header followed by its data, reads
/// back as the rate, channels and data it was written with.
#[verifier::rlimit(60)]
pub proof fn lemma_wav_round_trip(sample_rate: u32, channels: u16, data: Seq<u8>)
    requires
        sample_rate > 0,
        sample_rate * channels * 2 <= u32::MAX,
        channels * 2 <= u16::MAX,
        data.len() + 36 <= u32::MAX,
    ensures
        scan_wav_spec(pcm16_header_spec(sample_rate, channels, data.len() as u64) + data) == Ok::<
            (u32, u16, Seq<u8>),
            WavError,
        >((sample_rate, channels, data)),
{
    let h = pcm16_header_spec(sample_rate, channels, data.len() as u64);
    let buf = h + data;
    lemma_header_fields(sample_rate, channels, data.len() as u64);
    assert(buf.subrange(0, 4) =~= h.subrange(0, 4));
    assert(buf.subrange(8, 12) =~= h.subrange(8, 12));
    assert(buf.subrange(12, 16) =~= h.subrange(12, 16));
    assert(buf.subrange(36, 40) =~= h.subrange(36, 40));
    assert(le32(buf, 16) == le32(h, 16));
    assert(le16(buf, 20) == le16(h, 20));
    assert(le16(buf, 22) == le16(h, 22));
    assert(le32(buf, 24) == le32(h, 24));
    assert(le16(buf, 34) == le16(h, 34));
    assert(le32(buf, 40) == le32(h, 40));
    let st0: ScanState = (0, 0, 0, Seq::empty());
    lemma_scan_fmt_step(buf, st0);
    let st1: ScanState = (sample_rate, channels, 16, Seq::empty());
    lemma_scan_data_step(buf, st1, data.len() as int);
    assert(buf.subrange(44, 44 + data.len() as int) =~= data);
}

// ---------------------------------------------------------------- stereo master

/// The 16-bit sample of frame `i` of a mono track's bytes, or silence
/// (two zero bytes) past its end.
pub open spec fn sample_or_silence(track: Seq<u8>, i: int) -> Seq<u8> {
    if 2 * i + 2 <= track.len() {
        track.subrange(2 * i, 2 * i + 2)
    } else {
        seq![0u8, 0u8]
    }
}

/// Frames `0..n` of two mono tracks interleaved (left, right), the shorter
/// track padded with silence.
pub open spec fn interleaved(left: Seq<u8>, right: Seq<u8>, n: int) -> Seq<u8>
    decreases n,
{
    if n <= 0 {
        Seq::empty()
    } else {
        interleaved(left, right, n - 1) + sample_or_silence(left, n - 1) + sample_or_silence(right, n - 1)
    }
}

/// Interleaves frames `first..first + frames` of two mono PCM16 tracks into
/// stereo frames (left sample, then right sample), padding the shorter track
/// with silence. `left` and `right` hold the tracks' bytes from frame
/// `first` on.
pub fn interleave_stereo(left: &[u8], right: &[u8], frames: usize) -> (out: Vec<u8>)
    requires
        frames <= usize::MAX / 4,
    ensures
        out@ == interleaved(left@, right@, frames as int),
        out@.len() == 4 * frames,
{
    let mut out: Vec<u8> = Vec::new();
    let mut i: usize = 0;
    while i < frames
        invariant
            i <= frames <= usize::MAX / 4,
            out@ == interleaved(left@, right@, i as int),
            out@.len() == 4 * i,
        decreases frames - i,
    {
        let ghost before = out@;
        if 2 * i + 2 <= left.len() {
            out.push(left[2 * i]);
            out.push(left[2 * i + 1]);
        } else {
            out.push(0);
            out.push(0);
        }
        if 2 * i + 2 <= right.len() {
            out.push(right[2 * i]);
            out.push(right[2 * i + 1]);
        } else {
            out.push(0);
            out.push(0);
        }
        proof {
            let l = sample_or_silence(left@, i as int);
            let r = sample_or_silence(right@, i as int);
            assert(out@ =~= before + l + r);
        }
        i += 1;
    }
    out
}

} // verus!
