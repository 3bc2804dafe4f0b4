//! WAV container framing: a 44-byte RIFF header followed by raw sample bytes.
use vstd::prelude::*;

verus! {

/// Channel count of the interactive streaming format.
pub const STREAM_CHANNELS: u16 = 1;

/// Sample rate of the interactive streaming format.
pub const STREAM_SAMPLE_RATE: u32 = 24000;

/// Bit depth of the interactive streaming format.
pub const STREAM_BITS: u16 = 32;

/// Format tag of IEEE floating-point samples.
pub const FORMAT_IEEE_FLOAT: u16 = 3;

/// Size field value used while the length of a stream is not known.
pub const UNKNOWN_SIZE: u32 = 0xffff_ffff;

/// Length in bytes of every header produced here.
pub const HEADER_LEN: usize = 44;

/// Little-endian bytes of a 16-bit value.
pub open spec fn le16(v: u16) -> Seq<u8> {
    seq![(v % 256) as u8, (v / 256) as u8]
}

/// Little-endian bytes of a 32-bit value.
pub open spec fn le32(v: u32) -> Seq<u8> {
    seq![
        (v % 256) as u8,
        ((v / 256) % 256) as u8,
        ((v / 65536) % 256) as u8,
        (v / 16777216) as u8,
    ]
}

/// The four ASCII bytes `RIFF`.
pub open spec fn riff_tag() -> Seq<u8> {
    seq![0x52u8, 0x49u8, 0x46u8, 0x46u8]
}

/// The four ASCII bytes `WAVE`.
pub open spec fn wave_tag() -> Seq<u8> {
    seq![0x57u8, 0x41u8, 0x56u8, 0x45u8]
}

/// The four ASCII bytes `fmt `.
pub open spec fn fmt_tag() -> Seq<u8> {
    seq![0x66u8, 0x6du8, 0x74u8, 0x20u8]
}

/// The four ASCII bytes `data`.
pub open spec fn data_tag() -> Seq<u8> {
    seq![0x64u8, 0x61u8, 0x74u8, 0x61u8]
}

/// Bytes per frame: one sample of every channel.
pub open spec fn block_align(channels: u16, bits: u16) -> int {
    channels as int * (bits as int / 8)
}

/// Bytes per second of audio.
pub open spec fn byte_rate(channels: u16, rate: u32, bits: u16) -> int {
    rate as int * block_align(channels, bits)
}

/// The derived header fields fit their 16- and 32-bit slots.
pub open spec fn format_fits(channels: u16, rate: u32, bits: u16) -> bool {
    &&& block_align(channels, bits) <= u16::MAX
    &&& byte_rate(channels, rate, bits) <= u32::MAX
}

/// A RIFF/WAVE header with one `fmt ` chunk of IEEE float samples and the
/// given size fields.
pub open spec fn wav_header(channels: u16, rate: u32, bits: u16, riff_size: u32, data_size: u32) -> Seq<u8>
    recommends
        format_fits(channels, rate, bits),
{
    riff_tag() + le32(riff_size) + wave_tag() + fmt_tag() + le32(16) + le16(FORMAT_IEEE_FLOAT)
        + le16(channels) + le32(rate) + le32(byte_rate(channels, rate, bits) as u32) + le16(
        block_align(channels, bits) as u16,
    ) + le16(bits) + data_tag() + le32(data_size)
}

/// Header of a stream of unknown length: both size fields hold the largest value.
pub open spec fn stream_header_spec(channels: u16, rate: u32, bits: u16) -> Seq<u8> {
    wav_header(channels, rate, bits, UNKNOWN_SIZE, UNKNOWN_SIZE)
}

/// Number of data bytes of a file holding `frames` frames.
pub open spec fn data_len(channels: u16, bits: u16, frames: u32) -> int {
    frames as int * block_align(channels, bits)
}

/// Header of a complete file of `frames` frames.
pub open spec fn file_header_spec(channels: u16, rate: u32, bits: u16, frames: u32) -> Seq<u8> {
    wav_header(
        channels,
        rate,
        bits,
        (36 + data_len(channels, bits, frames)) as u32,
        data_len(channels, bits, frames) as u32,
    )
}

/// Little-endian bytes of each sample word, in order.
pub open spec fn samples_le(s: Seq<u32>) -> Seq<u8>
    decreases s.len(),
{
    if s.len() == 0 {
        Seq::empty()
    } else {
        samples_le(s.drop_last()) + le32(s.last())
    }
}

/// The header of the interactive streaming format.
pub open spec fn streaming_header_spec() -> Seq<u8> {
    stream_header_spec(STREAM_CHANNELS, STREAM_SAMPLE_RATE, STREAM_BITS)
}

fn push_le16(out: &mut Vec<u8>, v: u16)
    ensures
        final(out)@ == old(out)@ + le16(v),
{
    out.push((v % 256) as u8);
    out.push((v / 256) as u8);
    assert(final(out)@ =~= old(out)@ + le16(v));
}

fn push_le32(out: &mut Vec<u8>, v: u32)
    ensures
        final(out)@ == old(out)@ + le32(v),
{
    out.push((v % 256) as u8);
    out.push(((v / 256) % 256) as u8);
    out.push(((v / 65536) % 256) as u8);
    out.push((v / 16777216) as u8);
    assert(final(out)@ =~= old(out)@ + le32(v));
}

fn push_tag(out: &mut Vec<u8>, a: u8, b: u8, c: u8, d: u8)
    ensures
        final(out)@ == old(out)@ + seq![a, b, c, d],
{
    out.push(a);
    out.push(b);
    out.push(c);
    out.push(d);
    assert(final(out)@ =~= old(out)@ + seq![a, b, c, d]);
}

/// Encodes a header with the given format and size fields.
pub fn header_bytes(channels: u16, rate: u32, bits: u16, riff_size: u32, data_size: u32) -> (r: Vec<u8>)
    requires
        format_fits(channels, rate, bits),
    ensures
        r@ == wav_header(channels, rate, bits, riff_size, data_size),
        r@.len() == HEADER_LEN,
{
    let align: u16 = channels * (bits / 8);
    let per_second: u32 = rate * (align as u32);
    let mut out: Vec<u8> = Vec::new();
    push_tag(&mut out, 0x52, 0x49, 0x46, 0x46);
    push_le32(&mut out, riff_size);
    push_tag(&mut out, 0x57, 0x41, 0x56, 0x45);
    push_tag(&mut out, 0x66, 0x6d, 0x74, 0x20);
    push_le32(&mut out, 16);
    push_le16(&mut out, FORMAT_IEEE_FLOAT);
    push_le16(&mut out, channels);
    push_le32(&mut out, rate);
    push_le32(&mut out, per_second);
    push_le16(&mut out, align);
    push_le16(&mut out, bits);
    push_tag(&mut out, 0x64, 0x61, 0x74, 0x61);
    push_le32(&mut out, data_size);
    assert(out@ =~= wav_header(channels, rate, bits, riff_size, data_size));
    out
}

/// Encodes the header of a stream whose length is not known in advance.
pub fn stream_header(channels: u16, rate: u32, bits: u16) -> (r: Vec<u8>)
    requires
        format_fits(channels, rate, bits),
    ensures
        r@ == stream_header_spec(channels, rate, bits),
{
    header_bytes(channels, rate, bits, UNKNOWN_SIZE, UNKNOWN_SIZE)
}

/// Encodes the header of the interactive streaming format: one channel,
/// 24000 samples per second, 32 bits per sample.
pub fn streaming_header() -> (r: Vec<u8>)
    ensures
        r@ == streaming_header_spec(),
        r@.len() == HEADER_LEN,
{
    header_bytes(STREAM_CHANNELS, STREAM_SAMPLE_RATE, STREAM_BITS, UNKNOWN_SIZE, UNKNOWN_SIZE)
}

/// Encodes the header of a complete file of `frames` frames, with both size
/// fields set from the data length.
pub fn file_header(channels: u16, rate: u32, bits: u16, frames: u32) -> (r: Vec<u8>)
    requires
        format_fits(channels, rate, bits),
        36 + data_len(channels, bits, frames) <= u32::MAX,
    ensures
        r@ == file_header_spec(channels, rate, bits, frames),
{
    let align: u32 = (channels as u32) * ((bits / 8) as u32);
    assert(align as int == block_align(channels, bits));
    assert(0 <= data_len(channels, bits, frames)) by (nonlinear_arith)
        requires
            0 <= block_align(channels, bits),
    ;
    let data: u32 = frames * align;
    header_bytes(channels, rate, bits, 36 + data, data)
}

/// Encodes sample words as one chunk: four little-endian bytes each, in order.
pub fn encode_samples(samples: &Vec<u32>) -> (r: Vec<u8>)
    ensures
        r@ == samples_le(samples@),
        r@.len() == 4 * samples@.len(),
{
    let mut out: Vec<u8> = Vec::new();
    let mut i: usize = 0;
    while i < samples.len()
        invariant
            i <= samples@.len(),
            out@ == samples_le(samples@.take(i as int)),
            out@.len() == 4 * i,
        decreases samples@.len() - i,
    {
        proof {
            assert(samples@.take(i + 1).drop_last() =~= samples@.take(i as int));
        }
        push_le32(&mut out, samples[i]);
        i = i + 1;
    }
    assert(samples@.take(samples@.len() as int) =~= samples@);
    out
}

} // verus!
