//! The container: mono, 16-bit, little-endian PCM behind a 44-byte
//! RIFF/WAVE header.
//!
//! [`wav_bytes`] says byte for byte what a file holds; [`generate_bytes`]
//! builds exactly that, and [`parse_header`] reads the header back.

use vstd::prelude::*;

verus! {

/// Length of the header in bytes.
pub const HEADER_LEN: usize = 44;

/// Bytes of the file that follow the size field of the master chunk and
/// precede the samples.
pub const RIFF_OVERHEAD: u32 = 36;

/// Length of the payload of the format chunk.
pub const FMT_CHUNK_SIZE: u32 = 16;

/// Format tag of uncompressed linear PCM.
pub const PCM_FORMAT: u16 = 1;

/// Channels in a file.
pub const CHANNELS: u16 = 1;

/// Bits in a sample.
pub const BITS_PER_SAMPLE: u16 = 16;

/// Bytes in a sample.
pub const BYTES_PER_SAMPLE: u16 = 2;

/// The fields of a header.
#[derive(Clone, Copy, Debug, PartialEq, Eq, Structural)]
pub struct WavHeader {
    /// Size field of the master chunk: the length of the file less 8.
    pub riff_size: u32,
    pub channels: u16,
    pub sample_rate: u32,
    pub byte_rate: u32,
    pub block_align: u16,
    pub bits_per_sample: u16,
    /// Length of the sample data in bytes.
    pub data_size: u32,
}

/// The tag `RIFF`.
pub open spec fn riff_tag() -> Seq<u8> {
    seq![0x52u8, 0x49u8, 0x46u8, 0x46u8]
}

/// The tag `WAVE`.
pub open spec fn wave_tag() -> Seq<u8> {
    seq![0x57u8, 0x41u8, 0x56u8, 0x45u8]
}

/// The tag `fmt ` (with its trailing blank).
pub open spec fn fmt_tag() -> Seq<u8> {
    seq![0x66u8, 0x6Du8, 0x74u8, 0x20u8]
}

/// The tag `data`.
pub open spec fn data_tag() -> Seq<u8> {
    seq![0x64u8, 0x61u8, 0x74u8, 0x61u8]
}

/// A 16-bit field, low byte first.
pub open spec fn le16(x: u16) -> Seq<u8> {
    seq![(x % 256) as u8, (x / 256) as u8]
}

/// A 32-bit field, low byte first.
pub open spec fn le32(x: u32) -> Seq<u8> {
    seq![
        (x % 256) as u8,
        (x / 256 % 256) as u8,
        (x / 65536 % 256) as u8,
        (x / 16777216) as u8,
    ]
}

/// The 16-bit field at `at`, read low byte first.
pub open spec fn read16(bytes: Seq<u8>, at: int) -> u16 {
    (bytes[at] + 256 * bytes[at + 1]) as u16
}

/// The 32-bit field at `at`, read low byte first.
pub open spec fn read32(bytes: Seq<u8>, at: int) -> u32 {
    (bytes[at] + 256 * bytes[at + 1] + 65536 * bytes[at + 2] + 16777216 * bytes[at + 3]) as u32
}

/// A sample as the 16-bit field that holds it in two's complement.
pub open spec fn sample_word(sample: i16) -> u16 {
    if sample < 0 {
        (sample + 65536) as u16
    } else {
        sample as u16
    }
}

/// The samples, two bytes each, low byte first.
pub open spec fn data_bytes(samples: Seq<i16>) -> Seq<u8> {
    Seq::new(
        2 * samples.len(),
        |k: int|
            if k % 2 == 0 {
                (sample_word(samples[k / 2]) % 256) as u8
            } else {
                (sample_word(samples[k / 2]) / 256) as u8
            },
    )
}

/// The header of a file of `data_size` bytes of samples at `sample_rate`.
pub open spec fn header_bytes(sample_rate: u32, data_size: u32) -> Seq<u8> {
    riff_tag() + le32((RIFF_OVERHEAD + data_size) as u32) + wave_tag() + fmt_tag() + le32(
        FMT_CHUNK_SIZE,
    ) + le16(PCM_FORMAT) + le16(CHANNELS) + le32(sample_rate) + le32((sample_rate * 2) as u32)
        + le16(BYTES_PER_SAMPLE) + le16(BITS_PER_SAMPLE) + data_tag() + le32(data_size)
}

/// The whole file.
pub open spec fn wav_bytes(samples: Seq<i16>, sample_rate: u32) -> Seq<u8> {
    header_bytes(sample_rate, (2 * samples.len()) as u32) + data_bytes(samples)
}

/// The sizes fit their 32-bit fields.
pub open spec fn encodable(sample_count: nat, sample_rate: u32) -> bool {
    &&& RIFF_OVERHEAD + 2 * sample_count <= u32::MAX
    &&& 2 * sample_rate <= u32::MAX
}

/// What the first 44 bytes say, if they are a header of this layout: the
/// four tags in place, a format chunk of 16 bytes, and the PCM format tag.
pub open spec fn header_of(bytes: Seq<u8>) -> Option<WavHeader> {
    if bytes.len() >= HEADER_LEN && bytes.subrange(0, 4) == riff_tag() && bytes.subrange(8, 12)
        == wave_tag() && bytes.subrange(12, 16) == fmt_tag() && read32(bytes, 16) == FMT_CHUNK_SIZE
        && read16(bytes, 20) == PCM_FORMAT && bytes.subrange(36, 40) == data_tag() {
        Some(
            WavHeader {
                riff_size: read32(bytes, 4),
                channels: read16(bytes, 22),
                sample_rate: read32(bytes, 24),
                byte_rate: read32(bytes, 28),
                block_align: read16(bytes, 32),
                bits_per_sample: read16(bytes, 34),
                data_size: read32(bytes, 40),
            },
        )
    } else {
        None
    }
}

/// Appends a tag of four bytes.
fn push_tag(out: &mut Vec<u8>, a: u8, b: u8, c: u8, d: u8)
    ensures
        final(out)@ == old(out)@ + seq![a, b, c, d],
{
    out.push(a);
    out.push(b);
    out.push(c);
    out.push(d);
    assert(out@ =~= old(out)@ + seq![a, b, c, d]);
}

/// Appends a 16-bit field, low byte first.
fn push_u16(out: &mut Vec<u8>, x: u16)
    ensures
        final(out)@ == old(out)@ + le16(x),
{
    out.push((x % 256) as u8);
    out.push((x / 256) as u8);
    assert(out@ =~= old(out)@ + le16(x));
}

/// Appends a 32-bit field, low byte first.
fn push_u32(out: &mut Vec<u8>, x: u32)
    ensures
        final(out)@ == old(out)@ + le32(x),
{
    out.push((x % 256) as u8);
    out.push((x / 256 % 256) as u8);
    out.push((x / 65536 % 256) as u8);
    out.push((x / 16777216) as u8);
    assert(out@ =~= old(out)@ + le32(x));
}

/// A sample as the 16-bit field that holds it in two's complement.
fn word_of(sample: i16) -> (word: u16)
    ensures
        word == sample_word(sample),
{
    if sample < 0 {
        (sample as i32 + 65536) as u16
    } else {
        sample as u16
    }
}

/// Reads the 16-bit field at `at`.
fn get16(bytes: &[u8], at: usize) -> (x: u16)
    requires
        at + 2 <= bytes.len(),
    ensures
        x == read16(bytes@, at as int),
{
    bytes[at] as u16 + 256 * (bytes[at + 1] as u16)
}

/// Reads the 32-bit field at `at`.
fn get32(bytes: &[u8], at: usize) -> (x: u32)
    requires
        at + 4 <= bytes.len(),
    ensures
        x == read32(bytes@, at as int),
{
    bytes[at] as u32 + 256 * (bytes[at + 1] as u32) + 65536 * (bytes[at + 2] as u32) + 16777216 * (
    bytes[at + 3] as u32)
}

/// Whether the four bytes at `at` are the given tag.
fn tag_at(bytes: &[u8], at: usize, a: u8, b: u8, c: u8, d: u8) -> (found: bool)
    requires
        at + 4 <= bytes.len(),
    ensures
        found == (bytes@.subrange(at as int, at + 4) == seq![a, b, c, d]),
{
    let found = bytes[at] == a && bytes[at + 1] == b && bytes[at + 2] == c && bytes[at + 3] == d;
    proof {
        let part = bytes@.subrange(at as int, at + 4);
        let tag = seq![a, b, c, d];
        if found {
            assert(part =~= tag);
        } else {
            assert(part[0] == bytes@[at as int] && tag[0] == a);
            assert(part[1] == bytes@[at + 1] && tag[1] == b);
            assert(part[2] == bytes@[at + 2] && tag[2] == c);
            assert(part[3] == bytes@[at + 3] && tag[3] == d);
        }
    }
    found
}

/// Whether a file of `sample_count` samples at `sample_rate` can be framed:
/// whether its sizes fit the 32-bit fields that hold them.
pub fn fits(sample_count: usize, sample_rate: u32) -> (framed: bool)
    ensures
        framed == encodable(sample_count as nat, sample_rate),
{
    sample_rate <= u32::MAX / 2 && sample_count <= ((u32::MAX - RIFF_OVERHEAD) / 2) as usize
}

/// Frames `samples` as a complete file. The sizes must fit the 32-bit
/// fields that hold them: see [`fits`].
pub fn generate_bytes(samples: &[i16], sample_rate: u32) -> (bytes: Vec<u8>)
    requires
        encodable(samples@.len(), sample_rate),
    ensures
        bytes@ == wav_bytes(samples@, sample_rate),
        bytes@.len() == HEADER_LEN + 2 * samples@.len(),
{
    let data_size: u32 = samples.len() as u32 * 2;
    let mut out: Vec<u8> = Vec::new();
    push_tag(&mut out, 0x52, 0x49, 0x46, 0x46);
    push_u32(&mut out, RIFF_OVERHEAD + data_size);
    push_tag(&mut out, 0x57, 0x41, 0x56, 0x45);
    push_tag(&mut out, 0x66, 0x6D, 0x74, 0x20);
    push_u32(&mut out, FMT_CHUNK_SIZE);
    push_u16(&mut out, PCM_FORMAT);
    push_u16(&mut out, CHANNELS);
    push_u32(&mut out, sample_rate);
    push_u32(&mut out, sample_rate * 2);
    push_u16(&mut out, BYTES_PER_SAMPLE);
    push_u16(&mut out, BITS_PER_SAMPLE);
    push_tag(&mut out, 0x64, 0x61, 0x74, 0x61);
    push_u32(&mut out, data_size);
    let ghost header = header_bytes(sample_rate, data_size);
    assert(out@ == header);
    assert(header.len() == HEADER_LEN);
    let mut i: usize = 0;
    while i < samples.len()
        invariant
            i <= samples.len(),
            header.len() == HEADER_LEN,
            out@ == header + data_bytes(samples@.subrange(0, i as int)),
        decreases samples.len() - i,
    {
        let word: u16 = word_of(samples[i]);
        out.push((word % 256) as u8);
        out.push((word / 256) as u8);
        assert(out@ =~= header + data_bytes(samples@.subrange(0, i + 1)));
        i += 1;
    }
    assert(samples@.subrange(0, i as int) =~= samples@);
    out
}

/// Reads the header at the start of `bytes`.
pub fn parse_header(bytes: &[u8]) -> (header: Option<WavHeader>)
    ensures
        header == header_of(bytes@),
{
    if bytes.len() < HEADER_LEN {
        return None;
    }
    if !tag_at(bytes, 0, 0x52, 0x49, 0x46, 0x46) || !tag_at(bytes, 8, 0x57, 0x41, 0x56, 0x45)
        || !tag_at(bytes, 12, 0x66, 0x6D, 0x74, 0x20) || !tag_at(bytes, 36, 0x64, 0x61, 0x74, 0x61) {
        return None;
    }
    if get32(bytes, 16) != FMT_CHUNK_SIZE || get16(bytes, 20) != PCM_FORMAT {
        return None;
    }
    Some(
        WavHeader {
            riff_size: get32(bytes, 4),
            channels: get16(bytes, 22),
            sample_rate: get32(bytes, 24),
            byte_rate: get32(bytes, 28),
            block_align: get16(bytes, 32),
            bits_per_sample: get16(bytes, 34),
            data_size: get32(bytes, 40),
        },
    )
}

/// A 16-bit field reads back as it was written.
pub proof fn lemma_le16_reads_back(x: u16)
    ensures
        read16(le16(x), 0) == x,
{
}

/// A 32-bit field reads back as it was written.
pub proof fn lemma_le32_reads_back(x: u32)
    ensures
        read32(le32(x), 0) == x,
{
}

/// The sample at `index` of the data that follows the header, read low
/// byte first as two's complement.
pub open spec fn read_sample(bytes: Seq<u8>, index: int) -> int {
    let word = read16(bytes, HEADER_LEN + 2 * index);
    if word >= 32768 {
        word - 65536
    } else {
        word as int
    }
}

/// What a file says of its format, whatever its samples and its rate are:
/// the four tags stand in place, the format chunk has 16 bytes, the format
/// is PCM with one channel of 16 bits in blocks of 2 bytes, the rate is the
/// one that was given, and two bytes follow the header for each sample.
pub proof fn lemma_format_fields(samples: Seq<i16>, sample_rate: u32)
    ensures
        wav_bytes(samples, sample_rate).len() == HEADER_LEN + 2 * samples.len(),
        wav_bytes(samples, sample_rate).subrange(0, 4) == riff_tag(),
        wav_bytes(samples, sample_rate).subrange(8, 12) == wave_tag(),
        wav_bytes(samples, sample_rate).subrange(12, 16) == fmt_tag(),
        wav_bytes(samples, sample_rate).subrange(36, 40) == data_tag(),
        read32(wav_bytes(samples, sample_rate), 16) == FMT_CHUNK_SIZE,
        read16(wav_bytes(samples, sample_rate), 20) == PCM_FORMAT,
        read16(wav_bytes(samples, sample_rate), 22) == 1,
        read32(wav_bytes(samples, sample_rate), 24) == sample_rate,
        read16(wav_bytes(samples, sample_rate), 32) == 2,
        read16(wav_bytes(samples, sample_rate), 34) == 16,
{
    let data_size = (2 * samples.len()) as u32;
    let header = header_bytes(sample_rate, data_size);
    let bytes = wav_bytes(samples, sample_rate);
    assert(header.len() == HEADER_LEN);
    assert(bytes.subrange(0, HEADER_LEN as int) =~= header);
    assert(bytes.subrange(0, 4) =~= riff_tag());
    assert(bytes.subrange(8, 12) =~= wave_tag());
    assert(bytes.subrange(12, 16) =~= fmt_tag());
    assert(bytes.subrange(36, 40) =~= data_tag());
    assert(bytes.subrange(16, 20) =~= le32(FMT_CHUNK_SIZE));
    assert(bytes.subrange(20, 22) =~= le16(PCM_FORMAT));
    assert(bytes.subrange(22, 24) =~= le16(CHANNELS));
    assert(bytes.subrange(24, 28) =~= le32(sample_rate));
    assert(bytes.subrange(32, 34) =~= le16(BYTES_PER_SAMPLE));
    assert(bytes.subrange(34, 36) =~= le16(BITS_PER_SAMPLE));
    lemma_field32(bytes, 16, FMT_CHUNK_SIZE);
    lemma_field16(bytes, 20, PCM_FORMAT);
    lemma_field16(bytes, 22, CHANNELS);
    lemma_field32(bytes, 24, sample_rate);
    lemma_field16(bytes, 32, BYTES_PER_SAMPLE);
    lemma_field16(bytes, 34, BITS_PER_SAMPLE);
}

/// What a file says of its size, where the size fits 32 bits: the data chunk
/// says two bytes for each sample, and the master chunk 36 bytes more.
pub proof fn lemma_size_fields(samples: Seq<i16>, sample_rate: u32)
    requires
        RIFF_OVERHEAD + 2 * samples.len() <= u32::MAX,
    ensures
        read32(wav_bytes(samples, sample_rate), 40) == 2 * samples.len(),
        read32(wav_bytes(samples, sample_rate), 4) == RIFF_OVERHEAD + 2 * samples.len(),
{
    let data_size = (2 * samples.len()) as u32;
    let header = header_bytes(sample_rate, data_size);
    let bytes = wav_bytes(samples, sample_rate);
    assert(header.len() == HEADER_LEN);
    assert(bytes.subrange(0, HEADER_LEN as int) =~= header);
    assert(bytes.subrange(4, 8) =~= le32((RIFF_OVERHEAD + data_size) as u32));
    assert(bytes.subrange(40, 44) =~= le32(data_size));
    lemma_field32(bytes, 4, (RIFF_OVERHEAD + data_size) as u32);
    lemma_field32(bytes, 40, data_size);
}

/// What a file says of its byte rate, where that fits 32 bits: twice the
/// sample rate.
pub proof fn lemma_byte_rate_field(samples: Seq<i16>, sample_rate: u32)
    requires
        2 * sample_rate <= u32::MAX,
    ensures
        read32(wav_bytes(samples, sample_rate), 28) == 2 * sample_rate,
{
    let data_size = (2 * samples.len()) as u32;
    let header = header_bytes(sample_rate, data_size);
    let bytes = wav_bytes(samples, sample_rate);
    assert(header.len() == HEADER_LEN);
    assert(bytes.subrange(0, HEADER_LEN as int) =~= header);
    assert(bytes.subrange(28, 32) =~= le32((sample_rate * 2) as u32));
    lemma_field32(bytes, 28, (sample_rate * 2) as u32);
}

/// Every sample reads back from the file as it was given.
pub proof fn lemma_sample_reads_back(samples: Seq<i16>, sample_rate: u32, index: int)
    requires
        0 <= index < samples.len(),
    ensures
        read_sample(wav_bytes(samples, sample_rate), index) == samples[index],
{
    let data_size = (2 * samples.len()) as u32;
    let header = header_bytes(sample_rate, data_size);
    let bytes = wav_bytes(samples, sample_rate);
    let data = data_bytes(samples);
    assert(header.len() == HEADER_LEN);
    assert(bytes[HEADER_LEN + 2 * index] == data[2 * index]);
    assert(bytes[HEADER_LEN + 2 * index + 1] == data[2 * index + 1]);
    assert((2 * index) % 2 == 0 && (2 * index) / 2 == index);
    assert((2 * index + 1) % 2 == 1 && (2 * index + 1) / 2 == index);
}

/// Round trip: the header of an encoded file reads back as one channel of
/// 16 bits at the rate that was given, with two bytes of data per sample.
pub proof fn lemma_header_round_trip(samples: Seq<i16>, sample_rate: u32)
    requires
        encodable(samples.len(), sample_rate),
    ensures
        header_of(wav_bytes(samples, sample_rate)) == Some(
            WavHeader {
                riff_size: (RIFF_OVERHEAD + 2 * samples.len()) as u32,
                channels: 1,
                sample_rate,
                byte_rate: (2 * sample_rate) as u32,
                block_align: 2,
                bits_per_sample: 16,
                data_size: (2 * samples.len()) as u32,
            },
        ),
{
    lemma_format_fields(samples, sample_rate);
    lemma_size_fields(samples, sample_rate);
    lemma_byte_rate_field(samples, sample_rate);
}

/// A 16-bit field that was written at `at` reads back from there.
proof fn lemma_field16(bytes: Seq<u8>, at: int, x: u16)
    requires
        0 <= at,
        at + 2 <= bytes.len(),
        bytes.subrange(at, at + 2) == le16(x),
    ensures
        read16(bytes, at) == x,
{
    let part = bytes.subrange(at, at + 2);
    assert(part[0] == bytes[at] && part[1] == bytes[at + 1]);
}

/// A 32-bit field that was written at `at` reads back from there.
proof fn lemma_field32(bytes: Seq<u8>, at: int, x: u32)
    requires
        0 <= at,
        at + 4 <= bytes.len(),
        bytes.subrange(at, at + 4) == le32(x),
    ensures
        read32(bytes, at) == x,
{
    let part = bytes.subrange(at, at + 4);
    assert(part[0] == bytes[at] && part[1] == bytes[at + 1] && part[2] == bytes[at + 2] && part[3]
        == bytes[at + 3]);
}

} // verus!
