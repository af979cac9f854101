//! RIFF/WAVE container codec.
//!
//! A WAVE file is `"RIFF" <u32 LE size> "WAVE"` followed by a list of
//! chunks, each `<4-byte tag> <u32 LE body length> <body>`. The codec
//! parses that layout from bytes, serializes it back byte-exactly, and
//! converts the `data` chunk between raw interleaved bytes and per-channel
//! integer sample buffers. Reading and writing files is left to the
//! application; the codec works on byte vectors alone.

use vstd::prelude::*;

use crate::errors::WavFileError;

verus! {

/// Value of four little-endian-ordered bytes.
pub open spec fn le32(b: Seq<u8>) -> int {
    b[0] + 0x100 * b[1] + 0x1_0000 * b[2] + 0x100_0000 * b[3]
}

/// Value of two little-endian-ordered bytes.
pub open spec fn le16(b: Seq<u8>) -> int {
    b[0] + 0x100 * b[1]
}

/// The four little-endian bytes of `n` taken modulo 2^32.
pub open spec fn u32_bytes(n: int) -> Seq<u8> {
    seq![
        (n % 0x100) as u8,
        ((n / 0x100) % 0x100) as u8,
        ((n / 0x1_0000) % 0x100) as u8,
        ((n / 0x100_0000) % 0x100) as u8,
    ]
}

/// The two little-endian bytes of `n` taken modulo 2^16.
pub open spec fn u16_bytes(n: int) -> Seq<u8> {
    seq![(n % 0x100) as u8, ((n / 0x100) % 0x100) as u8]
}

/// Reads the little-endian u32 at `pos`.
fn read_le_u32(buf: &Vec<u8>, pos: usize) -> (r: u32)
    requires
        pos + 4 <= buf@.len(),
    ensures
        r == le32(buf@.subrange(pos as int, pos + 4)),
{
    // Binds the vector's length as a usize, so the index arithmetic
    // below is known to stay in range of the address space.
    let _len = buf.len();
    let b0 = buf[pos] as u32;
    let b1 = buf[pos + 1] as u32;
    let b2 = buf[pos + 2] as u32;
    let b3 = buf[pos + 3] as u32;
    let r = b0 + 0x100 * b1 + 0x1_0000 * b2 + 0x100_0000 * b3;
    proof {
        let s = buf@.subrange(pos as int, pos + 4);
        assert(s[0] == buf@[pos as int]);
        assert(s[1] == buf@[pos + 1]);
        assert(s[2] == buf@[pos + 2]);
        assert(s[3] == buf@[pos + 3]);
    }
    r
}

/// Reads the little-endian u16 at `pos`.
fn read_le_u16(buf: &Vec<u8>, pos: usize) -> (r: u16)
    requires
        pos + 2 <= buf@.len(),
    ensures
        r == le16(buf@.subrange(pos as int, pos + 2)),
{
    // See read_le_u32 on why the length is bound.
    let _len = buf.len();
    let b0 = buf[pos] as u16;
    let b1 = buf[pos + 1] as u16;
    let r = b0 + 0x100 * b1;
    proof {
        let s = buf@.subrange(pos as int, pos + 2);
        assert(s[0] == buf@[pos as int]);
        assert(s[1] == buf@[pos + 1]);
    }
    r
}

/// Appends the four little-endian bytes of `n` (modulo 2^32).
fn push_le_u32(buf: &mut Vec<u8>, n: usize)
    ensures
        final(buf)@ == old(buf)@ + u32_bytes(n as int),
{
    let b0 = (n % 0x100) as u8;
    let b1 = ((n / 0x100) % 0x100) as u8;
    let b2 = ((n / 0x1_0000) % 0x100) as u8;
    let b3 = ((n / 0x100_0000) % 0x100) as u8;
    buf.push(b0);
    buf.push(b1);
    buf.push(b2);
    buf.push(b3);
    proof {
        assert(buf@ =~= old(buf)@ + u32_bytes(n as int));
    }
}

/// Appends the two little-endian bytes of `n` (modulo 2^16).
fn push_le_u16(buf: &mut Vec<u8>, n: usize)
    ensures
        final(buf)@ == old(buf)@ + u16_bytes(n as int),
{
    let b0 = (n % 0x100) as u8;
    let b1 = ((n / 0x100) % 0x100) as u8;
    buf.push(b0);
    buf.push(b1);
    proof {
        assert(buf@ =~= old(buf)@ + u16_bytes(n as int));
    }
}

/// Copies `src[start..end]` into a fresh vector.
fn copy_bytes_range(src: &Vec<u8>, start: usize, end: usize) -> (out: Vec<u8>)
    requires
        start <= end <= src@.len(),
    ensures
        out@ == src@.subrange(start as int, end as int),
{
    let mut out: Vec<u8> = Vec::new();
    let mut i: usize = start;
    while i < end
        invariant
            start <= i <= end <= src@.len(),
            out@ == src@.subrange(start as int, i as int),
        decreases end - i,
    {
        out.push(src[i]);
        i = i + 1;
        proof {
            assert(out@ =~= src@.subrange(start as int, i as int));
        }
    }
    out
}

/// Format description read from a `fmt ` chunk: format tag (1 = integer
/// PCM, 3 = IEEE float), channel count, sampling rate and bits per sample.
#[derive(Clone, Copy, PartialEq, Eq, Structural, Debug)]
pub struct Fmt {
    pub id: usize,
    pub channel: usize,
    pub sampling_rate: usize,
    pub bits: usize,
}

/// The audio payload of a file: its format and the raw interleaved bytes
/// of the `data` chunk.
pub struct WavAudio {
    pub fmt: Fmt,
    pub data: Vec<u8>,
}

/// One chunk of the container: 4-byte tag, declared body size, raw body.
#[derive(Clone)]
pub struct SubChunk {
    pub name: [u8; 4],
    pub body_size: usize,
    pub data: Vec<u8>,
}

impl SubChunk {
    pub fn new() -> (c: SubChunk)
        ensures
            c.name@ == seq![0u8, 0u8, 0u8, 0u8],
            c.body_size == 0,
            c.data@ == Seq::<u8>::empty(),
    {
        SubChunk { name: [0, 0, 0, 0], body_size: 0, data: Vec::new() }
    }
}

/// A parsed container: the total byte size of the file it came from (or
/// would produce), the path it is associated with, and its chunk list.
pub struct WavFile {
    pub file_path: String,
    pub size: usize,
    pub sub_chunks: Vec<SubChunk>,
}

/// Mathematical model of one chunk.
pub struct ChunkModel {
    pub name: Seq<u8>,
    pub body_size: int,
    pub data: Seq<u8>,
}

/// The model of a chunk value.
pub open spec fn chunk_model(c: SubChunk) -> ChunkModel {
    ChunkModel { name: c.name@, body_size: c.body_size as int, data: c.data@ }
}

/// The model of a chunk list.
pub open spec fn chunks_model(cs: Seq<SubChunk>) -> Seq<ChunkModel> {
    cs.map_values(|c: SubChunk| chunk_model(c))
}

/// A chunk as stored: its declared body size equals its body length, and
/// both fit the 32-bit size field.
pub open spec fn chunk_wf(m: ChunkModel) -> bool {
    &&& m.name.len() == 4
    &&& m.body_size == m.data.len()
    &&& m.body_size < 0x1_0000_0000
}

/// Every chunk of the list is well formed.
pub open spec fn chunks_wf(ms: Seq<ChunkModel>) -> bool {
    forall|i: int| 0 <= i < ms.len() ==> chunk_wf(#[trigger] ms[i])
}

/// The bytes of one chunk: tag, little-endian size field, body.
pub open spec fn chunk_bytes(m: ChunkModel) -> Seq<u8> {
    m.name + u32_bytes(m.body_size) + m.data
}

/// The bytes of a chunk list, in order.
pub open spec fn chunks_bytes(ms: Seq<ChunkModel>) -> Seq<u8>
    decreases ms.len(),
{
    if ms.len() == 0 {
        Seq::empty()
    } else {
        chunk_bytes(ms[0]) + chunks_bytes(ms.drop_first())
    }
}

/// Sum of the declared sizes of the chunks, headers included: what the
/// RIFF size field counts beyond the 4 bytes of `"WAVE"`.
pub open spec fn riff_chunks_len(ms: Seq<ChunkModel>) -> int
    decreases ms.len(),
{
    if ms.len() == 0 {
        0
    } else {
        8 + ms[0].body_size + riff_chunks_len(ms.drop_first())
    }
}

/// The bytes `"RIFF"`.
pub open spec fn riff_tag() -> Seq<u8> {
    seq![82u8, 73u8, 70u8, 70u8]
}

/// The bytes `"WAVE"`.
pub open spec fn wave_tag() -> Seq<u8> {
    seq![87u8, 65u8, 86u8, 69u8]
}

/// The whole byte image of a file with the given chunk list.
pub open spec fn wav_bytes(ms: Seq<ChunkModel>) -> Seq<u8> {
    riff_tag() + u32_bytes(4 + riff_chunks_len(ms)) + wave_tag() + chunks_bytes(ms)
}

/// Parses a chunk list: each chunk is tag, size field, body. A chunk whose
/// declared size runs past the end is a malformed list; a tail shorter
/// than one header is ignored.
pub open spec fn parse_chunks(b: Seq<u8>) -> Option<Seq<ChunkModel>>
    decreases b.len(),
{
    if b.len() < 8 {
        Some(Seq::empty())
    } else {
        let size = le32(b.subrange(4, 8));
        if b.len() < 8 + size {
            None
        } else {
            match parse_chunks(b.skip(8 + size)) {
                Option::None => None,
                Option::Some(rest) => Some(
                    seq![
                        ChunkModel {
                            name: b.subrange(0, 4),
                            body_size: size,
                            data: b.subrange(8, 8 + size),
                        },
                    ] + rest,
                ),
            }
        }
    }
}

/// A valid container header: `"RIFF"`, a size field equal to the file
/// length less 8, then `"WAVE"`.
pub open spec fn header_ok(b: Seq<u8>) -> bool {
    &&& b.len() >= 12
    &&& b.subrange(0, 4) == riff_tag()
    &&& le32(b.subrange(4, 8)) == b.len() - 8
    &&& b.subrange(8, 12) == wave_tag()
}

/// What opening a byte image yields: its chunk list, or nothing when the
/// header or the chunk list is malformed.
pub open spec fn spec_open(b: Seq<u8>) -> Option<Seq<ChunkModel>> {
    if header_ok(b) {
        parse_chunks(b.skip(12))
    } else {
        None
    }
}

/// The bytes `"fmt "`.
pub open spec fn fmt_tag() -> Seq<u8> {
    seq![102u8, 109u8, 116u8, 32u8]
}

/// The bytes `"data"`.
pub open spec fn data_tag() -> Seq<u8> {
    seq![100u8, 97u8, 116u8, 97u8]
}

/// How many chunks of the list carry the given tag.
pub open spec fn count_name(ms: Seq<ChunkModel>, name: Seq<u8>) -> int
    decreases ms.len(),
{
    if ms.len() == 0 {
        0
    } else {
        (if ms[0].name == name {
            1int
        } else {
            0int
        }) + count_name(ms.drop_first(), name)
    }
}

/// Position of the first chunk with the given tag (the list length when
/// there is none).
pub open spec fn first_name_idx(ms: Seq<ChunkModel>, name: Seq<u8>) -> int
    decreases ms.len(),
{
    if ms.len() == 0 {
        0
    } else if ms[0].name == name {
        0
    } else {
        1 + first_name_idx(ms.drop_first(), name)
    }
}

/// A format the codec supports: one or two channels, 1 to 64 bits per
/// sample, one of the four accepted sampling rates.
pub open spec fn fmt_ok(f: Fmt) -> bool {
    &&& 1 <= f.channel <= 2
    &&& 1 <= f.bits <= 64
    &&& (f.sampling_rate == 8000 || f.sampling_rate == 16000 || f.sampling_rate == 44100
        || f.sampling_rate == 48000)
}

/// A `fmt ` chunk body that validates: known format tag, byte rate and
/// block align consistent with the other fields.
pub open spec fn fmt_body_ok(body: Seq<u8>) -> bool {
    &&& body.len() >= 16
    &&& (le16(body.subrange(0, 2)) == 1 || le16(body.subrange(0, 2)) == 3)
    &&& le32(body.subrange(8, 12)) == le16(body.subrange(2, 4)) * le32(body.subrange(4, 8)) * (le16(
        body.subrange(14, 16),
    ) / 8)
    &&& le16(body.subrange(12, 14)) == le16(body.subrange(2, 4)) * le16(body.subrange(14, 16)) / 8
}

/// The format fields read from a `fmt ` chunk body.
pub open spec fn spec_fmt_of(body: Seq<u8>) -> Fmt {
    Fmt {
        id: le16(body.subrange(0, 2)) as usize,
        channel: le16(body.subrange(2, 4)) as usize,
        sampling_rate: le32(body.subrange(4, 8)) as usize,
        bits: le16(body.subrange(14, 16)) as usize,
    }
}

/// The 16 bytes of a `fmt ` chunk body for the given format.
pub open spec fn spec_fmt_bytes(f: Fmt) -> Seq<u8> {
    u16_bytes(f.id as int) + u16_bytes(f.channel as int) + u32_bytes(f.sampling_rate as int)
        + u32_bytes(f.channel * f.sampling_rate * (f.bits as int / 8)) + u16_bytes(
        f.channel * f.bits as int / 8,
    ) + u16_bytes(f.bits as int)
}

/// A 32-bit signed value from four little-endian byte values.
pub open spec fn i32_from_le(b0: int, b1: int, b2: int, b3: int) -> int {
    let u = b0 + 0x100 * b1 + 0x1_0000 * b2 + 0x100_0000 * b3;
    if u < 0x8000_0000 {
        u
    } else {
        u - 0x1_0000_0000
    }
}

/// The two's-complement 32-bit image of a signed value.
pub open spec fn u32_of_i32(s: int) -> int {
    if s < 0 {
        s + 0x1_0000_0000
    } else {
        s
    }
}

/// The sample widths each format tag accepts: 1 to 3 bytes for integer
/// PCM, exactly 4 for IEEE float.
pub open spec fn sample_size_ok(id: int, size: int) -> bool {
    if id == 1 {
        size == 1 || size == 2 || size == 3
    } else if id == 3 {
        size == 4
    } else {
        false
    }
}

/// The sample decoded from one cell of `size` bytes. Integer PCM is
/// placed in the top bytes of a 32-bit signed value, the low bytes zero;
/// one-byte samples are offset-binary, centered at 128. Four-byte float
/// cells pass through as their raw bit pattern.
pub open spec fn decode_sample(id: int, size: int, bytes: Seq<u8>) -> int {
    if id == 1 {
        if size == 1 {
            i32_from_le(0, 0, 0, (bytes[0] + 128) % 0x100)
        } else if size == 2 {
            i32_from_le(0, 0, bytes[0] as int, bytes[1] as int)
        } else {
            i32_from_le(0, bytes[0] as int, bytes[1] as int, bytes[2] as int)
        }
    } else {
        i32_from_le(bytes[0] as int, bytes[1] as int, bytes[2] as int, bytes[3] as int)
    }
}

/// The cell of `size` bytes that encodes a sample: the top bytes of its
/// 32-bit two's-complement image, the top byte offset by 128 for one-byte
/// samples; all four bytes for float cells.
pub open spec fn encode_sample(id: int, size: int, s: int) -> Seq<u8> {
    let u = u32_of_i32(s);
    let c0 = u % 0x100;
    let c1 = (u / 0x100) % 0x100;
    let c2 = (u / 0x1_0000) % 0x100;
    let c3 = u / 0x100_0000;
    if id == 1 {
        if size == 1 {
            seq![((c3 + 128) % 0x100) as u8]
        } else if size == 2 {
            seq![c2 as u8, c3 as u8]
        } else {
            seq![c1 as u8, c2 as u8, c3 as u8]
        }
    } else {
        seq![c0 as u8, c1 as u8, c2 as u8, c3 as u8]
    }
}

/// Validates a format against what the codec supports.
pub fn fmt_check(ref_fmt: &Fmt) -> (r: Result<(), WavFileError>)
    ensures
        r is Ok <==> fmt_ok(*ref_fmt),
{
    if ref_fmt.channel < 1 || ref_fmt.channel > 2 {
        return Err(WavFileError::new("Irregal Format! Not Supported Channel."));
    }
    if ref_fmt.bits == 0 || ref_fmt.bits > 64 {
        return Err(WavFileError::new("Irregal Format! Not Supported Bit Rate."));
    }
    match ref_fmt.sampling_rate {
        8000 => {},
        16000 => {},
        44100 => {},
        48000 => {},
        _ => {
            return Err(WavFileError::new("Irregal Format! Not Supported Sampling Rate."));
        },
    }
    Ok(())
}

/// Decodes the sample cell of `size` bytes at `pos`.
fn decode_cell(id: usize, size: usize, bytes: &Vec<u8>, pos: usize) -> (r: i32)
    requires
        sample_size_ok(id as int, size as int),
        pos + size <= bytes@.len(),
    ensures
        r as int == decode_sample(id as int, size as int, bytes@.subrange(pos as int, pos + size)),
{
    // See read_le_u32 on why the length is bound.
    let _len = bytes.len();
    let ghost s = bytes@.subrange(pos as int, pos + size);
    let u: u32;
    if id == 1 {
        if size == 1 {
            let b = bytes[pos];
            let t = if b >= 128 {
                b - 128
            } else {
                b + 128
            };
            u = (t as u32) * 0x100_0000;
            proof {
                assert(s[0] == bytes@[pos as int]);
                assert(t == (s[0] + 128) % 0x100);
            }
        } else if size == 2 {
            u = (bytes[pos] as u32) * 0x1_0000 + (bytes[pos + 1] as u32) * 0x100_0000;
            proof {
                assert(s[0] == bytes@[pos as int]);
                assert(s[1] == bytes@[pos + 1]);
            }
        } else {
            u = (bytes[pos] as u32) * 0x100 + (bytes[pos + 1] as u32) * 0x1_0000 + (bytes[pos + 2]
                as u32) * 0x100_0000;
            proof {
                assert(s[0] == bytes@[pos as int]);
                assert(s[1] == bytes@[pos + 1]);
                assert(s[2] == bytes@[pos + 2]);
            }
        }
    } else {
        u = (bytes[pos] as u32) + (bytes[pos + 1] as u32) * 0x100 + (bytes[pos + 2] as u32)
            * 0x1_0000 + (bytes[pos + 3] as u32) * 0x100_0000;
        proof {
            assert(s[0] == bytes@[pos as int]);
            assert(s[1] == bytes@[pos + 1]);
            assert(s[2] == bytes@[pos + 2]);
            assert(s[3] == bytes@[pos + 3]);
        }
    }
    let r = #[verifier::truncate] (u as i32);
    proof {
        assert(u < 0x8000_0000 ==> u as i32 == u) by (bit_vector);
        assert(u >= 0x8000_0000 ==> u as i32 == u - 0x1_0000_0000) by (bit_vector);
    }
    r
}

/// Appends the sample cell of `size` bytes that encodes `s`.
fn encode_cell(id: usize, size: usize, s: i32, out: &mut Vec<u8>)
    requires
        sample_size_ok(id as int, size as int),
    ensures
        final(out)@ == old(out)@ + encode_sample(id as int, size as int, s as int),
{
    let u = #[verifier::truncate] (s as u32);
    proof {
        assert(s >= 0 ==> u == s) by (bit_vector)
            requires
                u == s as u32,
        ;
        assert(s < 0 ==> u == s + 0x1_0000_0000) by (bit_vector)
            requires
                u == s as u32,
        ;
    }
    let c0 = (u % 0x100) as u8;
    let c1 = ((u / 0x100) % 0x100) as u8;
    let c2 = ((u / 0x1_0000) % 0x100) as u8;
    let c3 = (u / 0x100_0000) as u8;
    if id == 1 {
        if size == 1 {
            let t = if c3 >= 128 {
                c3 - 128
            } else {
                c3 + 128
            };
            out.push(t);
        } else if size == 2 {
            out.push(c2);
            out.push(c3);
        } else {
            out.push(c1);
            out.push(c2);
            out.push(c3);
        }
    } else {
        out.push(c0);
        out.push(c1);
        out.push(c2);
        out.push(c3);
    }
    proof {
        assert(out@ =~= old(out)@ + encode_sample(id as int, size as int, s as int));
    }
}

/// The per-channel sample sequences of a channel-vector value.
pub open spec fn channels_view(v: Seq<Vec<i32>>) -> Seq<Seq<i32>> {
    v.map_values(|c: Vec<i32>| c@)
}

/// Every channel holds as many samples as the first.
pub open spec fn rows_equal_len(v: Seq<Seq<i32>>) -> bool {
    forall|i: int| 0 <= i < v.len() ==> (#[trigger] v[i]).len() == v[0].len()
}

/// The sample matrix decoded from interleaved data: channel `c`, frame
/// `f` comes from the cell at `(f * channel + c) * size`.
pub open spec fn decode_matrix(id: int, size: int, channel: int, data: Seq<u8>) -> Seq<Seq<i32>> {
    Seq::new(
        channel as nat,
        |c: int|
            Seq::new(
                (data.len() as int / (channel * size)) as nat,
                |f: int|
                    decode_sample(
                        id,
                        size,
                        data.subrange((f * channel + c) * size, (f * channel + c) * size + size),
                    ) as i32,
            ),
    )
}

/// The byte at position `n` of the interleaved encoding.
pub open spec fn enc_byte(id: int, size: int, channel: int, ch: Seq<Seq<i32>>, n: int) -> u8 {
    let fr = n / (channel * size);
    let rem = n % (channel * size);
    let c = rem / size;
    let k = rem % size;
    encode_sample(id, size, ch[c][fr] as int)[k]
}

/// The interleaved data bytes encoding a sample matrix, frame-major.
pub open spec fn encode_matrix(
    id: int,
    size: int,
    channel: int,
    frames: int,
    ch: Seq<Seq<i32>>,
) -> Seq<u8> {
    Seq::new((frames * channel * size) as nat, |n: int| enc_byte(id, size, channel, ch, n))
}

/// Splitting a cell position into frame, channel and byte offset recovers
/// the three indexes.
proof fn lemma_cell_index(channel: int, size: int, f: int, c: int, k: int)
    requires
        1 <= size,
        1 <= channel,
        0 <= f,
        0 <= c < channel,
        0 <= k < size,
    ensures
        ({
            let n = (f * channel + c) * size + k;
            &&& n / (channel * size) == f
            &&& (n % (channel * size)) / size == c
            &&& (n % (channel * size)) % size == k
        }),
{
    let n = (f * channel + c) * size + k;
    let rem = c * size + k;
    assert(n == f * (channel * size) + rem && 0 <= rem && rem < channel * size)
        by (nonlinear_arith)
        requires
            1 <= size,
            1 <= channel,
            0 <= f,
            0 <= c < channel,
            0 <= k < size,
            n == (f * channel + c) * size + k,
            rem == c * size + k,
    ;
    vstd::arithmetic::div_mod::lemma_fundamental_div_mod_converse(n, channel * size, f, rem);
    vstd::arithmetic::div_mod::lemma_fundamental_div_mod_converse(rem, size, c, k);
}

/// True when the two 4-byte tags are equal.
fn names_equal(a: &[u8; 4], b: &[u8; 4]) -> (r: bool)
    ensures
        r <==> a@ == b@,
{
    let r = a[0] == b[0] && a[1] == b[1] && a[2] == b[2] && a[3] == b[3];
    proof {
        if r {
            assert(a@ =~= b@);
        }
    }
    r
}

/// True when the chunk's tag is the given four bytes.
fn name_is(name: &[u8; 4], t0: u8, t1: u8, t2: u8, t3: u8) -> (r: bool)
    ensures
        r <==> name@ == seq![t0, t1, t2, t3],
{
    let r = name[0] == t0 && name[1] == t1 && name[2] == t2 && name[3] == t3;
    proof {
        if r {
            assert(name@ =~= seq![t0, t1, t2, t3]);
        }
    }
    r
}

/// Parses the chunk list that starts at `pos`.
fn parse_chunk_list(buf: &Vec<u8>, pos: usize) -> (r: Result<Vec<SubChunk>, WavFileError>)
    requires
        pos <= buf@.len(),
    ensures
        match r {
            Ok(v) => parse_chunks(buf@.skip(pos as int)) == Some(chunks_model(v@))
                && chunks_wf(chunks_model(v@)),
            Err(_) => parse_chunks(buf@.skip(pos as int)) is None,
        },
    decreases buf@.len() - pos,
{
    let len = buf.len();
    let ghost tail = buf@.skip(pos as int);
    if len - pos < 8 {
        proof {
            assert(chunks_model(Seq::<SubChunk>::empty()) =~= Seq::<ChunkModel>::empty());
        }
        return Ok(Vec::new());
    }
    let size32 = read_le_u32(buf, pos + 4);
    proof {
        assert(tail.subrange(4, 8) =~= buf@.subrange(pos + 4, pos + 8));
    }
    let size = size32 as usize;
    if len - pos - 8 < size {
        return Err(WavFileError::new("Chunk Size is wrong!"));
    }
    let name = [buf[pos], buf[pos + 1], buf[pos + 2], buf[pos + 3]];
    let data = copy_bytes_range(buf, pos + 8, pos + 8 + size);
    let chunk = SubChunk { name, body_size: size, data };
    let ghost m = ChunkModel {
        name: tail.subrange(0, 4),
        body_size: size as int,
        data: tail.subrange(8, 8 + size),
    };
    proof {
        assert(chunk.name@ =~= tail.subrange(0, 4));
        assert(chunk.data@ =~= tail.subrange(8, 8 + size));
        assert(chunk_model(chunk) == m);
        assert(buf@.skip(pos + 8 + size) =~= tail.skip(8 + size));
    }
    match parse_chunk_list(buf, pos + 8 + size) {
        Ok(mut rest) => {
            let ghost rest_models = chunks_model(rest@);
            rest.insert(0, chunk);
            proof {
                assert(chunks_model(rest@) =~= seq![m] + rest_models);
            }
            Ok(rest)
        },
        Err(e) => Err(e),
    }
}

/// Taking one more chunk extends the declared-size sum and the serialized
/// bytes by exactly that chunk's contribution.
proof fn lemma_chunks_take_step(ms: Seq<ChunkModel>, i: int)
    requires
        0 <= i < ms.len(),
    ensures
        riff_chunks_len(ms.take(i + 1)) == riff_chunks_len(ms.take(i)) + 8 + ms[i].body_size,
        chunks_bytes(ms.take(i + 1)) == chunks_bytes(ms.take(i)) + chunk_bytes(ms[i]),
    decreases i,
{
    if i == 0 {
        assert(ms.take(0) =~= Seq::<ChunkModel>::empty());
        assert(ms.take(1).drop_first() =~= Seq::<ChunkModel>::empty());
        assert(ms.take(1)[0] == ms[0]);
        assert(chunks_bytes(ms.take(1)) =~= chunks_bytes(ms.take(0)) + chunk_bytes(ms[0]));
    } else {
        lemma_chunks_take_step(ms.drop_first(), i - 1);
        assert(ms.take(i + 1).drop_first() =~= ms.drop_first().take(i));
        assert(ms.take(i).drop_first() =~= ms.drop_first().take(i - 1));
        assert(ms.take(i + 1)[0] == ms[0]);
        assert(ms.take(i)[0] == ms[0]);
        assert(ms.drop_first()[i - 1] == ms[i]);
        assert(chunks_bytes(ms.take(i + 1)) =~= chunks_bytes(ms.take(i)) + chunk_bytes(ms[i]));
    }
}

/// The declared-size sum splits at any point of the list.
proof fn lemma_riff_len_split(ms: Seq<ChunkModel>, i: int)
    requires
        0 <= i <= ms.len(),
    ensures
        riff_chunks_len(ms) == riff_chunks_len(ms.take(i)) + riff_chunks_len(ms.skip(i)),
    decreases i,
{
    if i == 0 {
        assert(ms.take(0) =~= Seq::<ChunkModel>::empty());
        assert(ms.skip(0) =~= ms);
    } else {
        lemma_riff_len_split(ms.drop_first(), i - 1);
        assert(ms.take(i).drop_first() =~= ms.drop_first().take(i - 1));
        assert(ms.skip(i) =~= ms.drop_first().skip(i - 1));
        assert(ms.take(i)[0] == ms[0]);
    }
}

/// With no negative declared size the sum is nonnegative.
proof fn lemma_riff_len_nonneg(ms: Seq<ChunkModel>)
    requires
        forall|j: int| 0 <= j < ms.len() ==> (#[trigger] ms[j]).body_size >= 0,
    ensures
        riff_chunks_len(ms) >= 0,
    decreases ms.len(),
{
    if ms.len() > 0 {
        lemma_riff_len_nonneg(ms.drop_first());
    }
}

/// Taking one more chunk raises the tag count by one exactly when that
/// chunk carries the tag.
proof fn lemma_count_take_step(ms: Seq<ChunkModel>, name: Seq<u8>, i: int)
    requires
        0 <= i < ms.len(),
    ensures
        count_name(ms.take(i + 1), name) == count_name(ms.take(i), name) + (if ms[i].name == name {
            1int
        } else {
            0int
        }),
    decreases i,
{
    if i == 0 {
        assert(ms.take(0) =~= Seq::<ChunkModel>::empty());
        assert(ms.take(1).drop_first() =~= Seq::<ChunkModel>::empty());
        assert(ms.take(1)[0] == ms[0]);
    } else {
        lemma_count_take_step(ms.drop_first(), name, i - 1);
        assert(ms.take(i + 1).drop_first() =~= ms.drop_first().take(i));
        assert(ms.take(i).drop_first() =~= ms.drop_first().take(i - 1));
        assert(ms.take(i + 1)[0] == ms[0]);
        assert(ms.take(i)[0] == ms[0]);
        assert(ms.drop_first()[i - 1] == ms[i]);
    }
}

/// The tag count splits at any point of the list.
proof fn lemma_count_split(ms: Seq<ChunkModel>, name: Seq<u8>, i: int)
    requires
        0 <= i <= ms.len(),
    ensures
        count_name(ms, name) == count_name(ms.take(i), name) + count_name(ms.skip(i), name),
    decreases i,
{
    if i == 0 {
        assert(ms.take(0) =~= Seq::<ChunkModel>::empty());
        assert(ms.skip(0) =~= ms);
    } else {
        lemma_count_split(ms.drop_first(), name, i - 1);
        assert(ms.take(i).drop_first() =~= ms.drop_first().take(i - 1));
        assert(ms.skip(i) =~= ms.drop_first().skip(i - 1));
        assert(ms.take(i)[0] == ms[0]);
    }
}

/// The tag count is never negative.
proof fn lemma_count_nonneg(ms: Seq<ChunkModel>, name: Seq<u8>)
    ensures
        count_name(ms, name) >= 0,
    decreases ms.len(),
{
    if ms.len() > 0 {
        lemma_count_nonneg(ms.drop_first(), name);
    }
}

/// A match anywhere makes the tag count positive.
proof fn lemma_count_pos_at(ms: Seq<ChunkModel>, name: Seq<u8>, i: int)
    requires
        0 <= i < ms.len(),
        ms[i].name == name,
    ensures
        count_name(ms, name) > 0,
    decreases ms.len(),
{
    lemma_count_nonneg(ms.drop_first(), name);
    if i > 0 {
        assert(ms.drop_first()[i - 1] == ms[i]);
        lemma_count_pos_at(ms.drop_first(), name, i - 1);
    }
}

/// A positive tag count puts the first match inside the list.
proof fn lemma_count_first_match(ms: Seq<ChunkModel>, name: Seq<u8>)
    requires
        count_name(ms, name) > 0,
    ensures
        0 <= first_name_idx(ms, name) < ms.len(),
        ms[first_name_idx(ms, name)].name == name,
    decreases ms.len(),
{
    if ms.len() > 0 && ms[0].name != name {
        lemma_count_first_match(ms.drop_first(), name);
        assert(ms.drop_first()[first_name_idx(ms.drop_first(), name)] == ms[1 + first_name_idx(
            ms.drop_first(),
            name,
        )]);
    }
}

/// A zero tag count means no chunk carries the tag.
proof fn lemma_count_zero_iff_no_match(ms: Seq<ChunkModel>, name: Seq<u8>)
    ensures
        count_name(ms, name) == 0 <==> (forall|j: int|
            0 <= j < ms.len() ==> (#[trigger] ms[j]).name != name),
    decreases ms.len(),
{
    if ms.len() > 0 {
        lemma_count_zero_iff_no_match(ms.drop_first(), name);
        lemma_count_nonneg(ms.drop_first(), name);
        assert(forall|j: int| 1 <= j < ms.len() ==> (#[trigger] ms[j]) == ms.drop_first()[j - 1]);
    }
}

/// A match at `i` with no earlier match is the first match.
proof fn lemma_first_name_from_scan(ms: Seq<ChunkModel>, name: Seq<u8>, i: int)
    requires
        0 <= i < ms.len(),
        ms[i].name == name,
        forall|j: int| 0 <= j < i ==> (#[trigger] ms[j]).name != name,
    ensures
        first_name_idx(ms, name) == i,
    decreases ms.len(),
{
    if ms[0].name == name {
        assert(i == 0);
    } else {
        assert(i > 0);
        assert(ms.drop_first()[i - 1] == ms[i]);
        assert(forall|j: int| 0 <= j < i - 1 ==> (#[trigger] ms.drop_first()[j]) == ms[j + 1]);
        lemma_first_name_from_scan(ms.drop_first(), name, i - 1);
    }
}

/// Writing the four little-endian bytes of a 32-bit value read from four
/// bytes gives those bytes back.
pub proof fn lemma_le32_bytes_id(s: Seq<u8>)
    requires
        s.len() == 4,
    ensures
        u32_bytes(le32(s)) == s,
{
    let b0 = s[0];
    let b1 = s[1];
    let b2 = s[2];
    let b3 = s[3];
    assert((b0 + 0x100 * b1 + 0x1_0000 * b2 + 0x100_0000 * b3) % 0x100 == b0) by (bit_vector);
    assert(((b0 + 0x100 * b1 + 0x1_0000 * b2 + 0x100_0000 * b3) / 0x100) % 0x100 == b1)
        by (bit_vector);
    assert(((b0 + 0x100 * b1 + 0x1_0000 * b2 + 0x100_0000 * b3) / 0x1_0000) % 0x100 == b2)
        by (bit_vector);
    assert(((b0 + 0x100 * b1 + 0x1_0000 * b2 + 0x100_0000 * b3) / 0x100_0000) % 0x100 == b3)
        by (bit_vector);
    assert(u32_bytes(le32(s)) =~= s);
}

/// A chunk list that parses serializes back to exactly the bytes it was
/// read from; at most 7 stray bytes can follow it.
#[verifier::rlimit(100)]
#[verifier::spinoff_prover]
pub proof fn lemma_parse_chunks_roundtrip(b: Seq<u8>)
    requires
        parse_chunks(b) is Some,
    ensures
        ({
            let ms = parse_chunks(b)->Some_0;
            &&& 0 <= riff_chunks_len(ms) <= b.len()
            &&& b.len() - riff_chunks_len(ms) < 8
            &&& chunks_bytes(ms) == b.take(riff_chunks_len(ms))
        }),
    decreases b.len(),
{
    let ms = parse_chunks(b)->Some_0;
    if b.len() < 8 {
        assert(ms =~= Seq::<ChunkModel>::empty());
        assert(chunks_bytes(ms) =~= b.take(0));
    } else {
        let size = le32(b.subrange(4, 8));
        let rest = parse_chunks(b.skip(8 + size))->Some_0;
        lemma_parse_chunks_roundtrip(b.skip(8 + size));
        let m = ChunkModel { name: b.subrange(0, 4), body_size: size, data: b.subrange(8, 8 + size) };
        assert(ms[0] == m);
        assert(ms.drop_first() =~= rest);
        lemma_le32_bytes_id(b.subrange(4, 8));
        assert(chunk_bytes(m) =~= b.take(8 + size));
        let rl = riff_chunks_len(rest);
        assert(b.skip(8 + size).take(rl) =~= b.subrange(8 + size, 8 + size + rl));
        assert(chunks_bytes(ms) == chunk_bytes(m) + chunks_bytes(rest));
        assert(riff_chunks_len(ms) == 8 + size + rl);
        assert(chunk_bytes(m) + b.subrange(8 + size, 8 + size + rl) =~= b.take(8 + size + rl));
    }
}

/// Chunk preservation: a byte image whose header is valid and whose chunk
/// list tiles the remaining bytes exactly is reproduced byte for byte by
/// serializing what was parsed — unknown chunks included.
pub proof fn lemma_chunk_preservation(b: Seq<u8>)
    requires
        spec_open(b) is Some,
        riff_chunks_len(spec_open(b)->Some_0) == b.len() - 12,
    ensures
        wav_bytes(spec_open(b)->Some_0) == b,
{
    let ms = spec_open(b)->Some_0;
    let tail = b.skip(12);
    lemma_parse_chunks_roundtrip(tail);
    assert(chunks_bytes(ms) == tail.take(riff_chunks_len(ms)));
    assert(tail.take(riff_chunks_len(ms)) =~= tail);
    lemma_le32_bytes_id(b.subrange(4, 8));
    assert(u32_bytes(4 + riff_chunks_len(ms)) == b.subrange(4, 8));
    assert(wav_bytes(ms) =~= b);
}

impl WavFile {
    pub fn new() -> (w: WavFile)
        ensures
            w.file_path@ == Seq::<char>::empty(),
            w.size == 0,
            w.sub_chunks@ == Seq::<SubChunk>::empty(),
    {
        let file_path = "".to_string();
        proof {
            reveal_strlit("");
        }
        WavFile { file_path, size: 0, sub_chunks: Vec::new() }
    }

    /// Parses a whole byte image: checks the `"RIFF"` tag, the size field
    /// against the byte length, the `"WAVE"` tag, then reads the chunk
    /// list. On success the file holds that list and the image's size; on
    /// failure it is unchanged.
    pub fn open_bytes(&mut self, buf: &Vec<u8>) -> (r: Result<(), WavFileError>)
        ensures
            r is Ok <==> spec_open(buf@) is Some,
            r is Ok ==> {
                &&& chunks_model(final(self).sub_chunks@) == spec_open(buf@)->Some_0
                &&& chunks_wf(chunks_model(final(self).sub_chunks@))
                &&& final(self).size == buf@.len()
                &&& final(self).file_path == old(self).file_path
            },
            r is Err ==> *final(self) == *old(self),
    {
        let len = buf.len();
        if len < 12 {
            return Err(WavFileError::new("Not compatible wav format! \"RIFF\""));
        }
        if !(buf[0] == 82 && buf[1] == 73 && buf[2] == 70 && buf[3] == 70) {
            proof {
                assert(buf@.subrange(0, 4) != riff_tag());
            }
            return Err(WavFileError::new("Not compatible wav format! \"RIFF\""));
        }
        proof {
            assert(buf@.subrange(0, 4) =~= riff_tag());
        }
        let riff_size = read_le_u32(buf, 4);
        if riff_size as usize != len - 8 {
            return Err(WavFileError::new("Not compatible wav format! RIFF Size"));
        }
        if !(buf[8] == 87 && buf[9] == 65 && buf[10] == 86 && buf[11] == 69) {
            proof {
                assert(buf@.subrange(8, 12) != wave_tag());
            }
            return Err(WavFileError::new("Not compatible wav format! \"WAVE\""));
        }
        proof {
            assert(buf@.subrange(8, 12) =~= wave_tag());
            assert(header_ok(buf@));
        }
        match parse_chunk_list(buf, 12) {
            Ok(v) => {
                self.size = len;
                self.sub_chunks = v;
                Ok(())
            },
            Err(e) => Err(e),
        }
    }

    /// Serializes the file back to a byte image and records its new size.
    /// The chunk list is written as it stands; the RIFF size field counts
    /// the `"WAVE"` tag and every chunk's declared size.
    pub fn save(&mut self) -> (r: Vec<u8>)
        requires
            riff_chunks_len(chunks_model(old(self).sub_chunks@)) + 12 <= usize::MAX,
        ensures
            r@ == wav_bytes(chunks_model(old(self).sub_chunks@)),
            final(self).sub_chunks == old(self).sub_chunks,
            final(self).file_path == old(self).file_path,
            final(self).size == 12 + riff_chunks_len(chunks_model(old(self).sub_chunks@)),
    {
        let ghost ms = chunks_model(self.sub_chunks@);
        proof {
            assert(forall|j: int| 0 <= j < ms.len() ==> (#[trigger] ms[j]).body_size >= 0);
        }
        let n = self.sub_chunks.len();
        let mut riff_size: usize = 4;
        let mut i: usize = 0;
        while i < n
            invariant
                0 <= i <= n,
                n == self.sub_chunks@.len(),
                ms == chunks_model(self.sub_chunks@),
                forall|j: int| 0 <= j < ms.len() ==> (#[trigger] ms[j]).body_size >= 0,
                riff_chunks_len(ms) + 12 <= usize::MAX,
                riff_size == 4 + riff_chunks_len(ms.take(i as int)),
            decreases n - i,
        {
            proof {
                lemma_chunks_take_step(ms, i as int);
                lemma_riff_len_split(ms, i + 1);
                lemma_riff_len_nonneg(ms.skip(i + 1));
                assert(forall|j: int| 0 <= j < ms.skip(i + 1).len()
                    ==> (#[trigger] ms.skip(i + 1)[j]).body_size >= 0);
            }
            riff_size = riff_size + (self.sub_chunks[i].body_size + 8);
            i = i + 1;
        }
        proof {
            assert(ms.take(n as int) =~= ms);
        }
        let mut out: Vec<u8> = Vec::new();
        out.push(82);
        out.push(73);
        out.push(70);
        out.push(70);
        proof {
            assert(out@ =~= riff_tag());
        }
        push_le_u32(&mut out, riff_size);
        out.push(87);
        out.push(65);
        out.push(86);
        out.push(69);
        proof {
            assert(out@ =~= riff_tag() + u32_bytes(riff_size as int) + wave_tag());
        }
        let ghost head = out@;
        let mut i: usize = 0;
        while i < n
            invariant
                0 <= i <= n,
                n == self.sub_chunks@.len(),
                ms == chunks_model(self.sub_chunks@),
                out@ == head + chunks_bytes(ms.take(i as int)),
            decreases n - i,
        {
            proof {
                lemma_chunks_take_step(ms, i as int);
            }
            let name = self.sub_chunks[i].name;
            out.push(name[0]);
            out.push(name[1]);
            out.push(name[2]);
            out.push(name[3]);
            push_le_u32(&mut out, self.sub_chunks[i].body_size);
            let data_len = self.sub_chunks[i].data.len();
            let mut body = copy_bytes_range(&self.sub_chunks[i].data, 0, data_len);
            proof {
                assert(body@ =~= self.sub_chunks@[i as int].data@);
            }
            out.append(&mut body);
            i = i + 1;
            proof {
                assert(out@ =~= head + chunks_bytes(ms.take(i as int)));
            }
        }
        proof {
            assert(ms.take(n as int) =~= ms);
            assert(out@ =~= wav_bytes(ms));
        }
        self.size = riff_size + 8;
        out
    }

    /// Writes an audio payload into the container: the single `fmt ` and
    /// `data` chunks are replaced in place, or appended when absent.
    /// A duplicated `fmt ` or `data` chunk is an error and leaves the
    /// container unchanged.
    pub fn update_wav_audio(&mut self, ref_wav_audio: &WavAudio) -> (r: Result<(), WavFileError>)
        requires
            ref_wav_audio.fmt.channel * ref_wav_audio.fmt.sampling_rate <= usize::MAX,
            ref_wav_audio.fmt.channel * ref_wav_audio.fmt.sampling_rate * (ref_wav_audio.fmt.bits
                / 8) <= usize::MAX,
            ref_wav_audio.fmt.channel * ref_wav_audio.fmt.bits <= usize::MAX,
        ensures
            ({
                let ms = chunks_model(old(self).sub_chunks@);
                r is Ok <==> (count_name(ms, fmt_tag()) <= 1 && count_name(ms, data_tag()) <= 1)
            }),
            r is Err ==> *final(self) == *old(self),
            r is Ok ==> ({
                let ms = chunks_model(old(self).sub_chunks@);
                let fmt_m = ChunkModel {
                    name: fmt_tag(),
                    body_size: 16,
                    data: spec_fmt_bytes(ref_wav_audio.fmt),
                };
                let data_m = ChunkModel {
                    name: data_tag(),
                    body_size: ref_wav_audio.data@.len() as int,
                    data: ref_wav_audio.data@,
                };
                let ms1 = if count_name(ms, fmt_tag()) == 1 {
                    ms.update(first_name_idx(ms, fmt_tag()), fmt_m)
                } else {
                    ms.push(fmt_m)
                };
                let ms2 = if count_name(ms, data_tag()) == 1 {
                    ms1.update(first_name_idx(ms, data_tag()), data_m)
                } else {
                    ms1.push(data_m)
                };
                &&& chunks_model(final(self).sub_chunks@) == ms2
                &&& final(self).size == old(self).size
                &&& final(self).file_path == old(self).file_path
            }),
    {
        let ghost ms = chunks_model(self.sub_chunks@);
        let fmt_buf = match self.set_fmt(&ref_wav_audio.fmt) {
            Ok(v) => v,
            Err(e) => {
                return Err(e);
            },
        };
        let data_buf = copy_bytes_range(&ref_wav_audio.data, 0, ref_wav_audio.data.len());
        let n = self.sub_chunks.len();
        let mut op_fmt_chunk_idx: Option<usize> = None;
        let mut op_data_chunk_idx: Option<usize> = None;
        let mut i: usize = 0;
        while i < n
            invariant
                0 <= i <= n,
                n == self.sub_chunks@.len(),
                ms == chunks_model(self.sub_chunks@),
                op_fmt_chunk_idx is None ==> count_name(ms.take(i as int), fmt_tag()) == 0,
                op_fmt_chunk_idx is Some ==> {
                    &&& count_name(ms.take(i as int), fmt_tag()) == 1
                    &&& 0 <= op_fmt_chunk_idx->Some_0 < i
                    &&& ms[op_fmt_chunk_idx->Some_0 as int].name == fmt_tag()
                    &&& forall|j: int|
                        0 <= j < op_fmt_chunk_idx->Some_0 ==> (#[trigger] ms[j]).name != fmt_tag()
                },
                op_data_chunk_idx is None ==> count_name(ms.take(i as int), data_tag()) == 0,
                op_data_chunk_idx is Some ==> {
                    &&& count_name(ms.take(i as int), data_tag()) == 1
                    &&& 0 <= op_data_chunk_idx->Some_0 < i
                    &&& ms[op_data_chunk_idx->Some_0 as int].name == data_tag()
                    &&& forall|j: int|
                        0 <= j < op_data_chunk_idx->Some_0 ==> (#[trigger] ms[j]).name
                            != data_tag()
                },
            decreases n - i,
        {
            proof {
                lemma_count_take_step(ms, fmt_tag(), i as int);
                lemma_count_take_step(ms, data_tag(), i as int);
                lemma_count_split(ms, fmt_tag(), i + 1);
                lemma_count_split(ms, data_tag(), i + 1);
                lemma_count_nonneg(ms.skip(i + 1), fmt_tag());
                lemma_count_nonneg(ms.skip(i + 1), data_tag());
                assert(fmt_tag() != data_tag()) by {
                    assert(fmt_tag()[0] == 102);
                    assert(data_tag()[0] == 100);
                }
                if op_fmt_chunk_idx is None {
                    assert forall|j: int| 0 <= j < i implies (#[trigger] ms[j]).name
                        != fmt_tag() by {
                        lemma_count_zero_iff_no_match(ms.take(i as int), fmt_tag());
                        assert(ms.take(i as int)[j] == ms[j]);
                    }
                }
                if op_data_chunk_idx is None {
                    assert forall|j: int| 0 <= j < i implies (#[trigger] ms[j]).name
                        != data_tag() by {
                        lemma_count_zero_iff_no_match(ms.take(i as int), data_tag());
                        assert(ms.take(i as int)[j] == ms[j]);
                    }
                }
            }
            if name_is(&self.sub_chunks[i].name, 102, 109, 116, 32) {
                if op_fmt_chunk_idx.is_none() {
                    op_fmt_chunk_idx = Some(i);
                } else {
                    return Err(WavFileError::new("There are two or more fmt chunks!"));
                }
            } else if name_is(&self.sub_chunks[i].name, 100, 97, 116, 97) {
                if op_data_chunk_idx.is_none() {
                    op_data_chunk_idx = Some(i);
                } else {
                    return Err(WavFileError::new("There are two or more data chunks!"));
                }
            }
            i = i + 1;
        }
        proof {
            assert(ms.take(n as int) =~= ms);
        }
        let ghost fmt_m = ChunkModel {
            name: fmt_tag(),
            body_size: 16,
            data: spec_fmt_bytes(ref_wav_audio.fmt),
        };
        let ghost ms1 = if count_name(ms, fmt_tag()) == 1 {
            ms.update(first_name_idx(ms, fmt_tag()), fmt_m)
        } else {
            ms.push(fmt_m)
        };
        let fmt_buf_len = fmt_buf.len();
        proof {
            assert(spec_fmt_bytes(ref_wav_audio.fmt).len() == 16);
        }
        match op_fmt_chunk_idx {
            Some(idx) => {
                proof {
                    lemma_first_name_from_scan(ms, fmt_tag(), idx as int);
                    lemma_count_pos_at(ms, fmt_tag(), idx as int);
                }
                let c = SubChunk {
                    name: [102, 109, 116, 32],
                    body_size: fmt_buf_len,
                    data: fmt_buf,
                };
                self.sub_chunks.set(idx, c);
                proof {
                    assert(chunk_model(c).name =~= fmt_tag());
                    assert(chunks_model(self.sub_chunks@) =~= ms1);
                }
            },
            None => {
                let c = SubChunk {
                    name: [102, 109, 116, 32],
                    body_size: fmt_buf_len,
                    data: fmt_buf,
                };
                self.sub_chunks.push(c);
                proof {
                    assert(chunk_model(c).name =~= fmt_tag());
                    assert(chunks_model(self.sub_chunks@) =~= ms1);
                }
            },
        }
        let ghost data_m = ChunkModel {
            name: data_tag(),
            body_size: ref_wav_audio.data@.len() as int,
            data: ref_wav_audio.data@,
        };
        let ghost ms2 = if count_name(ms, data_tag()) == 1 {
            ms1.update(first_name_idx(ms, data_tag()), data_m)
        } else {
            ms1.push(data_m)
        };
        let data_buf_len = data_buf.len();
        match op_data_chunk_idx {
            Some(idx) => {
                proof {
                    lemma_first_name_from_scan(ms, data_tag(), idx as int);
                    lemma_count_pos_at(ms, data_tag(), idx as int);
                }
                let c = SubChunk {
                    name: [100, 97, 116, 97],
                    body_size: data_buf_len,
                    data: data_buf,
                };
                self.sub_chunks.set(idx, c);
                proof {
                    assert(chunk_model(c).name =~= data_tag());
                    assert(chunk_model(c).data =~= ref_wav_audio.data@);
                    assert(chunks_model(self.sub_chunks@) =~= ms2);
                }
            },
            None => {
                proof {
                    lemma_count_zero_iff_no_match(ms, data_tag());
                }
                let c = SubChunk {
                    name: [100, 97, 116, 97],
                    body_size: data_buf_len,
                    data: data_buf,
                };
                self.sub_chunks.push(c);
                proof {
                    assert(chunk_model(c).name =~= data_tag());
                    assert(chunk_model(c).data =~= ref_wav_audio.data@);
                    assert(chunks_model(self.sub_chunks@) =~= ms2);
                }
            },
        }
        Ok(())
    }

    /// Reads the format fields out of a `fmt ` chunk body and validates
    /// the derived fields: the byte rate must equal
    /// channels × rate × (bits/8) and the block align channels × bits / 8.
    pub fn get_fmt(&self, ref_chunk_body: &Vec<u8>) -> (r: Result<Fmt, WavFileError>)
        ensures
            r is Ok <==> fmt_body_ok(ref_chunk_body@),
            r is Ok ==> r->Ok_0 == spec_fmt_of(ref_chunk_body@),
    {
        if ref_chunk_body.len() < 16 {
            return Err(WavFileError::new("Not compatible wav format!  fmt Chunk Size"));
        }
        let format_id = read_le_u16(ref_chunk_body, 0);
        if format_id != 1 && format_id != 3 {
            return Err(WavFileError::new("Not compatible wav format!  fmt Chunk Size"));
        }
        let channel = read_le_u16(ref_chunk_body, 2);
        let sampling_rate = read_le_u32(ref_chunk_body, 4);
        let bytes_per_sec = read_le_u32(ref_chunk_body, 8);
        let block_size = read_le_u16(ref_chunk_body, 12);
        let bits = read_le_u16(ref_chunk_body, 14);
        proof {
            assert(channel as u64 * sampling_rate as u64 <= 0xffff * 0xffff_ffff
                && channel as u64 * sampling_rate as u64 >= 0) by (nonlinear_arith)
                requires
                    channel <= 0xffff,
                    sampling_rate <= 0xffff_ffff,
            ;
            assert((channel as u64 * sampling_rate as u64) * (bits as u64 / 8) <= (0xffff
                * 0xffff_ffff) * 0x2000 && (channel as u64 * sampling_rate as u64) * (bits as u64
                / 8) >= 0) by (nonlinear_arith)
                requires
                    0 <= channel as u64 * sampling_rate as u64 <= 0xffff * 0xffff_ffff,
                    bits as u64 / 8 <= 0x2000,
            ;
        }
        if bytes_per_sec as u64 != channel as u64 * sampling_rate as u64 * (bits as u64 / 8) {
            return Err(WavFileError::new("Not match parameter! Byte Per Sec"));
        }
        proof {
            assert(channel as u64 * bits as u64 <= 0xffff * 0xffff && channel as u64 * bits as u64
                >= 0) by (nonlinear_arith)
                requires
                    channel <= 0xffff,
                    bits <= 0xffff,
            ;
        }
        if block_size as u64 != channel as u64 * bits as u64 / 8 {
            return Err(WavFileError::new("Not match parameter! Block Size"));
        }
        Ok(Fmt {
            id: format_id as usize,
            channel: channel as usize,
            sampling_rate: sampling_rate as usize,
            bits: bits as usize,
        })
    }

    /// Serializes format fields to the 16 bytes of a `fmt ` chunk body,
    /// computing the byte rate and block align from the other fields.
    pub fn set_fmt(&self, ref_fmt: &Fmt) -> (r: Result<Vec<u8>, WavFileError>)
        requires
            ref_fmt.channel * ref_fmt.sampling_rate <= usize::MAX,
            ref_fmt.channel * ref_fmt.sampling_rate * (ref_fmt.bits / 8) <= usize::MAX,
            ref_fmt.channel * ref_fmt.bits <= usize::MAX,
        ensures
            r is Ok,
            r->Ok_0@ == spec_fmt_bytes(*ref_fmt),
    {
        let mut chunk_body: Vec<u8> = Vec::new();
        push_le_u16(&mut chunk_body, ref_fmt.id);
        push_le_u16(&mut chunk_body, ref_fmt.channel);
        push_le_u32(&mut chunk_body, ref_fmt.sampling_rate);
        push_le_u32(&mut chunk_body, ref_fmt.channel * ref_fmt.sampling_rate * (ref_fmt.bits / 8));
        push_le_u16(&mut chunk_body, ref_fmt.channel * ref_fmt.bits / 8);
        push_le_u16(&mut chunk_body, ref_fmt.bits);
        proof {
            assert(chunk_body@ =~= spec_fmt_bytes(*ref_fmt));
        }
        Ok(chunk_body)
    }

    /// Extracts the audio payload: the format of the single `fmt ` chunk
    /// and the body of the single `data` chunk. A missing or duplicated
    /// chunk, or a `fmt ` body that does not validate, is an error.
    pub fn get_wav_audio(&self) -> (r: Result<WavAudio, WavFileError>)
        ensures
            ({
                let ms = chunks_model(self.sub_chunks@);
                &&& r is Ok <==> (count_name(ms, fmt_tag()) == 1 && count_name(ms, data_tag()) == 1
                    && fmt_body_ok(ms[first_name_idx(ms, fmt_tag())].data))
                &&& r is Ok ==> r->Ok_0.fmt == spec_fmt_of(ms[first_name_idx(ms, fmt_tag())].data)
                &&& r is Ok ==> r->Ok_0.data@ == ms[first_name_idx(ms, data_tag())].data
            }),
    {
        let ghost ms = chunks_model(self.sub_chunks@);
        let n = self.sub_chunks.len();
        let mut op_fmt: Option<Fmt> = None;
        let mut op_data: Option<Vec<u8>> = None;
        let ghost mut fmt_i: int = 0;
        let ghost mut data_i: int = 0;
        let mut i: usize = 0;
        while i < n
            invariant
                0 <= i <= n,
                n == self.sub_chunks@.len(),
                ms == chunks_model(self.sub_chunks@),
                op_fmt is None ==> count_name(ms.take(i as int), fmt_tag()) == 0,
                op_fmt is Some ==> {
                    &&& count_name(ms.take(i as int), fmt_tag()) == 1
                    &&& 0 <= fmt_i < i
                    &&& ms[fmt_i].name == fmt_tag()
                    &&& forall|j: int| 0 <= j < fmt_i ==> (#[trigger] ms[j]).name != fmt_tag()
                    &&& fmt_body_ok(ms[fmt_i].data)
                    &&& op_fmt == Option::Some(spec_fmt_of(ms[fmt_i].data))
                },
                op_data is None ==> count_name(ms.take(i as int), data_tag()) == 0,
                op_data is Some ==> {
                    &&& count_name(ms.take(i as int), data_tag()) == 1
                    &&& 0 <= data_i < i
                    &&& ms[data_i].name == data_tag()
                    &&& forall|j: int| 0 <= j < data_i ==> (#[trigger] ms[j]).name != data_tag()
                    &&& op_data->Some_0@ == ms[data_i].data
                },
            decreases n - i,
        {
            proof {
                lemma_count_take_step(ms, fmt_tag(), i as int);
                lemma_count_take_step(ms, data_tag(), i as int);
                lemma_count_split(ms, fmt_tag(), i + 1);
                lemma_count_split(ms, data_tag(), i + 1);
                lemma_count_nonneg(ms.skip(i + 1), fmt_tag());
                lemma_count_nonneg(ms.skip(i + 1), data_tag());
                lemma_count_zero_iff_no_match(ms.take(i as int), fmt_tag());
                lemma_count_zero_iff_no_match(ms.take(i as int), data_tag());
                assert(fmt_tag() != data_tag()) by {
                    assert(fmt_tag()[0] == 102);
                    assert(data_tag()[0] == 100);
                }
                if op_fmt is None {
                    assert forall|j: int| 0 <= j < i implies (#[trigger] ms[j]).name
                        != fmt_tag() by {
                        assert(ms.take(i as int)[j] == ms[j]);
                    }
                }
                if op_data is None {
                    assert forall|j: int| 0 <= j < i implies (#[trigger] ms[j]).name
                        != data_tag() by {
                        assert(ms.take(i as int)[j] == ms[j]);
                    }
                }
            }
            if name_is(&self.sub_chunks[i].name, 102, 109, 116, 32) {
                if op_fmt.is_none() {
                    proof {
                        lemma_first_name_from_scan(ms, fmt_tag(), i as int);
                    }
                    match self.get_fmt(&self.sub_chunks[i].data) {
                        Ok(f) => {
                            op_fmt = Some(f);
                            proof {
                                fmt_i = i as int;
                            }
                        },
                        Err(e) => {
                            return Err(e);
                        },
                    }
                } else {
                    proof {
                        lemma_first_name_from_scan(ms, fmt_tag(), fmt_i);
                    }
                    return Err(WavFileError::new("There are two or more fmt chunks!"));
                }
            } else if name_is(&self.sub_chunks[i].name, 100, 97, 116, 97) {
                if op_data.is_none() {
                    let d = copy_bytes_range(&self.sub_chunks[i].data, 0, self.sub_chunks[i].data.len());
                    proof {
                        assert(d@ =~= ms[i as int].data);
                    }
                    op_data = Some(d);
                    proof {
                        data_i = i as int;
                    }
                } else {
                    return Err(WavFileError::new("There are two or more data chunks!"));
                }
            }
            i = i + 1;
        }
        proof {
            assert(ms.take(n as int) =~= ms);
        }
        if op_fmt.is_none() {
            return Err(WavFileError::new("There are no fmt chunks!"));
        }
        if op_data.is_none() {
            return Err(WavFileError::new("There are no data chunks!"));
        }
        proof {
            lemma_first_name_from_scan(ms, fmt_tag(), fmt_i);
            lemma_first_name_from_scan(ms, data_tag(), data_i);
        }
        match (op_fmt, op_data) {
            (Some(fmt), Some(data)) => Ok(WavAudio { fmt, data }),
            _ => Err(WavFileError::new("There are no data chunks!")),
        }
    }

    /// Replaces the first chunk that carries the new chunk's tag, or
    /// appends the new chunk when no chunk carries it.
    pub fn update_sub_chunk(&mut self, new_chunk: SubChunk) -> (r: Result<(), WavFileError>)
        ensures
            r is Ok,
            final(self).size == old(self).size,
            final(self).file_path == old(self).file_path,
            ({
                let cs = old(self).sub_chunks@;
                let ms = chunks_model(cs);
                if count_name(ms, new_chunk.name@) > 0 {
                    final(self).sub_chunks@ == cs.update(
                        first_name_idx(ms, new_chunk.name@),
                        new_chunk,
                    )
                } else {
                    final(self).sub_chunks@ == cs.push(new_chunk)
                }
            }),
    {
        let ghost ms = chunks_model(self.sub_chunks@);
        let n = self.sub_chunks.len();
        let mut op_chunk_idx: Option<usize> = None;
        let mut i: usize = 0;
        while i < n
            invariant
                0 <= i <= n,
                n == self.sub_chunks@.len(),
                ms == chunks_model(self.sub_chunks@),
                op_chunk_idx is None ==> forall|j: int|
                    0 <= j < i ==> (#[trigger] ms[j]).name != new_chunk.name@,
                op_chunk_idx is Some ==> {
                    &&& 0 <= op_chunk_idx->Some_0 < i
                    &&& ms[op_chunk_idx->Some_0 as int].name == new_chunk.name@
                    &&& forall|j: int|
                        0 <= j < op_chunk_idx->Some_0 ==> (#[trigger] ms[j]).name
                            != new_chunk.name@
                },
            decreases n - i,
        {
            if op_chunk_idx.is_none() && names_equal(&self.sub_chunks[i].name, &new_chunk.name) {
                op_chunk_idx = Some(i);
            }
            i = i + 1;
        }
        match op_chunk_idx {
            Some(idx) => {
                proof {
                    lemma_first_name_from_scan(ms, new_chunk.name@, idx as int);
                    lemma_count_pos_at(ms, new_chunk.name@, idx as int);
                }
                self.sub_chunks.set(idx, new_chunk);
            },
            None => {
                proof {
                    if count_name(ms, new_chunk.name@) > 0 {
                        lemma_count_first_match(ms, new_chunk.name@);
                    }
                }
                self.sub_chunks.push(new_chunk);
            },
        }
        Ok(())
    }

    /// Parses a byte vector that holds a bare chunk list, as it stands in
    /// a file after the 12 header bytes.
    pub fn get_sub_chunks(&self, buf: Vec<u8>, chunks_size: usize) -> (r: Result<
        Vec<SubChunk>,
        WavFileError,
    >)
        requires
            chunks_size == buf@.len(),
        ensures
            match r {
                Ok(v) => parse_chunks(buf@) == Some(chunks_model(v@))
                    && chunks_wf(chunks_model(v@)),
                Err(_) => parse_chunks(buf@) is None,
            },
    {
        let r = parse_chunk_list(&buf, 0);
        proof {
            assert(buf@.skip(0) =~= buf@);
        }
        r
    }
}

/// The alignment a sample must have at the given width: with fewer than
/// four bytes per cell only the top bytes of the 32-bit image are stored,
/// so the low bytes must be zero for the value to survive.
pub open spec fn cell_align(size: int) -> int {
    if size == 1 {
        0x100_0000
    } else if size == 2 {
        0x1_0000
    } else if size == 3 {
        0x100
    } else {
        1
    }
}

/// A sample that the given width represents exactly.
pub open spec fn sample_aligned(size: int, s: int) -> bool {
    u32_of_i32(s) % cell_align(size) == 0
}

/// Round trip of one sample: decoding its encoded cell gives it back,
/// for every width the format accepts and every sample the width
/// represents exactly.
pub proof fn lemma_sample_round_trip(id: int, size: int, s: i32)
    requires
        sample_size_ok(id, size),
        sample_aligned(size, s as int),
    ensures
        decode_sample(id, size, encode_sample(id, size, s as int)) == s as int,
{
    let u = u32_of_i32(s as int);
    let uu = (u as u32);
    assert(s >= 0 ==> (s as u32) == s) by (bit_vector);
    assert(s < 0 ==> (s as u32) == s + 0x1_0000_0000) by (bit_vector);
    assert(uu == s as u32) by (bit_vector)
        requires
            (s >= 0 && uu == s) || (s < 0 && uu == s + 0x1_0000_0000),
    ;
    assert(uu == u);
    if size == 1 {
        assert(uu % 0x100_0000 == 0 ==> ((((uu / 0x100_0000) + 128) % 0x100 + 128) % 0x100)
            * 0x100_0000 == uu) by (bit_vector);
    } else if size == 2 {
        assert(uu % 0x1_0000 == 0 ==> ((uu / 0x1_0000) % 0x100) * 0x1_0000 + (uu / 0x100_0000)
            * 0x100_0000 == uu) by (bit_vector);
        assert(uu / 0x100_0000 < 0x100) by (bit_vector);
    } else if size == 3 {
        assert(uu % 0x100 == 0 ==> ((uu / 0x100) % 0x100) * 0x100 + ((uu / 0x1_0000) % 0x100)
            * 0x1_0000 + (uu / 0x100_0000) * 0x100_0000 == uu) by (bit_vector);
        assert(uu / 0x100_0000 < 0x100) by (bit_vector);
    } else {
        assert(uu % 0x100 + ((uu / 0x100) % 0x100) * 0x100 + ((uu / 0x1_0000) % 0x100) * 0x1_0000
            + (uu / 0x100_0000) * 0x100_0000 == uu) by (bit_vector);
        assert(uu / 0x100_0000 < 0x100) by (bit_vector);
    }
}

/// Round trip of a whole sample matrix: decoding the interleaved
/// encoding restores every channel and every sample, for any format the
/// codec accepts and samples its width represents exactly.
pub proof fn lemma_matrix_round_trip(
    id: int,
    size: int,
    channel: int,
    frames: int,
    ch: Seq<Seq<i32>>,
)
    requires
        sample_size_ok(id, size),
        1 <= channel,
        0 <= frames,
        ch.len() == channel,
        forall|c: int| 0 <= c < channel ==> (#[trigger] ch[c]).len() == frames,
        forall|c: int, f: int|
            0 <= c < channel && 0 <= f < frames ==> sample_aligned(size, (#[trigger] ch[c][f]) as int),
    ensures
        decode_matrix(id, size, channel, encode_matrix(id, size, channel, frames, ch)) == ch,
{
    let data = encode_matrix(id, size, channel, frames, ch);
    let dm = decode_matrix(id, size, channel, data);
    assert(frames * channel * size == frames * (channel * size) && 0 <= frames * (channel * size)
        && (channel * size) * frames == frames * (channel * size)) by (nonlinear_arith)
        requires
            0 <= frames,
            1 <= channel,
            1 <= size,
    ;
    vstd::arithmetic::div_mod::lemma_div_multiples_vanish(frames, channel * size);
    assert(data.len() as int / (channel * size) == frames);
    assert forall|c: int, f: int| 0 <= c < channel && 0 <= f < frames implies dm[c][f]
        == ch[c][f] by {
        let base = (f * channel + c) * size;
        let cell = encode_sample(id, size, ch[c][f] as int);
        assert(cell.len() == size);
        assert(0 <= base && base + size <= frames * (channel * size)) by (nonlinear_arith)
            requires
                0 <= c < channel,
                0 <= f < frames,
                1 <= size,
                1 <= channel,
                base == (f * channel + c) * size,
        ;
        assert forall|k: int| 0 <= k < size implies data[base + k] == cell[k] by {
            lemma_cell_index(channel, size, f, c, k);
        }
        assert(data.subrange(base, base + size) =~= cell);
        lemma_sample_round_trip(id, size, ch[c][f]);
        assert(dm[c][f] as int == decode_sample(id, size, cell));
    }
    assert forall|c: int| 0 <= c < channel implies dm[c] =~= ch[c] by {}
    assert(dm =~= ch);
}

/// Deinterleaves the audio payload into one integer sample sequence per
/// channel. Integer PCM samples are sign-extended into the top bytes of a
/// 32-bit value; float samples pass through as raw bit patterns.
#[verifier::loop_isolation(false)]
pub fn to_channel_vec(ref_wav_audio: &WavAudio) -> (r: Result<Vec<Vec<i32>>, WavFileError>)
    requires
        fmt_ok(ref_wav_audio.fmt) ==> ref_wav_audio.fmt.bits >= 8 && ref_wav_audio.data@.len()
            as int % (ref_wav_audio.fmt.channel * (ref_wav_audio.fmt.bits / 8)) as int == 0,
    ensures
        r is Ok <==> (fmt_ok(ref_wav_audio.fmt) && (ref_wav_audio.data@.len() == 0
            || sample_size_ok(ref_wav_audio.fmt.id as int, ref_wav_audio.fmt.bits as int / 8))),
        r is Ok ==> channels_view(r->Ok_0@) == decode_matrix(
            ref_wav_audio.fmt.id as int,
            ref_wav_audio.fmt.bits as int / 8,
            ref_wav_audio.fmt.channel as int,
            ref_wav_audio.data@,
        ),
{
    let chk = fmt_check(&ref_wav_audio.fmt);
    match chk {
        Err(e) => {
            return Err(e);
        },
        Ok(_) => {},
    }
    proof {
        assert(fmt_ok(ref_wav_audio.fmt));
    }
    let id = ref_wav_audio.fmt.id;
    let channel = ref_wav_audio.fmt.channel;
    let size = ref_wav_audio.fmt.bits / 8;
    proof {
        assert(1 <= size <= 8 && 1 <= channel * size <= 16) by (nonlinear_arith)
            requires
                1 <= channel <= 2,
                8 <= ref_wav_audio.fmt.bits <= 64,
                size == ref_wav_audio.fmt.bits as int / 8,
        ;
    }
    let step = channel * size;
    let data_len = ref_wav_audio.data.len();
    if data_len == 0 {
        let mut ch_vec: Vec<Vec<i32>> = Vec::new();
        let mut c: usize = 0;
        while c < channel
            invariant
                0 <= c <= channel,
                ch_vec@.len() == c,
                forall|cc: int| 0 <= cc < c ==> (#[trigger] ch_vec@[cc])@.len() == 0,
            decreases channel - c,
        {
            ch_vec.push(Vec::new());
            c = c + 1;
        }
        proof {
            let dm = decode_matrix(id as int, size as int, channel as int, ref_wav_audio.data@);
            assert(ref_wav_audio.data@.len() as int / ((channel * size) as int) == 0);
            assert forall|cc: int| 0 <= cc < channel implies channels_view(ch_vec@)[cc]
                =~= dm[cc] by {
                assert(channels_view(ch_vec@)[cc] == ch_vec@[cc]@);
            }
            assert(channels_view(ch_vec@) =~= dm);
        }
        return Ok(ch_vec);
    }
    let size_valid = if id == 1 {
        size == 1 || size == 2 || size == 3
    } else if id == 3 {
        size == 4
    } else {
        false
    };
    if !size_valid {
        return Err(WavFileError::new("Size is Too Small or Large!"));
    }
    let frames = data_len / step;
    proof {
        vstd::arithmetic::div_mod::lemma_fundamental_div_mod(data_len as int, step as int);
    }
    let mut ch_vec: Vec<Vec<i32>> = Vec::new();
    let mut c: usize = 0;
    while c < channel
        invariant
            0 <= c <= channel,
            ch_vec@.len() == c,
            forall|cc: int|
                0 <= cc < c ==> (#[trigger] ch_vec@[cc])@ == decode_matrix(
                    id as int,
                    size as int,
                    channel as int,
                    ref_wav_audio.data@,
                )[cc],
        decreases channel - c,
    {
        let mut row: Vec<i32> = Vec::new();
        let mut f: usize = 0;
        while f < frames
            invariant
                0 <= f <= frames,
                c < channel,
                row@.len() == f,
                forall|j: int|
                    0 <= j < f ==> (#[trigger] row@[j]) as int == decode_sample(
                        id as int,
                        size as int,
                        ref_wav_audio.data@.subrange(
                            (j * channel + c) * size,
                            (j * channel + c) * size + size,
                        ),
                    ),
            decreases frames - f,
        {
            proof {
                assert(f * step + c * size == (f * channel + c) * size && f * step + c * size + size
                    <= data_len) by (nonlinear_arith)
                    requires
                        0 <= f < frames,
                        0 <= c < channel,
                        1 <= size,
                        step == channel * size,
                        frames == data_len as int / (step as int),
                        data_len as int == (step as int) * (frames as int) + data_len as int % (
                        step as int),
                        data_len as int % (step as int) == 0,
                ;
            }
            let pos = f * step + c * size;
            let sample = decode_cell(id, size, &ref_wav_audio.data, pos);
            row.push(sample);
            f = f + 1;
        }
        proof {
            assert(row@ =~= decode_matrix(
                id as int,
                size as int,
                channel as int,
                ref_wav_audio.data@,
            )[c as int]);
        }
        ch_vec.push(row);
        c = c + 1;
    }
    proof {
        assert(channels_view(ch_vec@) =~~= decode_matrix(
            id as int,
            size as int,
            channel as int,
            ref_wav_audio.data@,
        ));
    }
    Ok(ch_vec)
}

/// Interleaves per-channel integer samples into an audio payload with the
/// given format. Channels beyond the format's channel count are checked
/// for equal length but not written.
#[verifier::loop_isolation(false)]
#[verifier::rlimit(100)]
#[verifier::spinoff_prover]
pub fn to_wav_audio(ref_ch_vec: &Vec<Vec<i32>>, ref_fmt: &Fmt) -> (r: Result<
    WavAudio,
    WavFileError,
>)
    requires
        ref_ch_vec@.len() >= 1,
        ref_fmt.channel <= ref_ch_vec@.len(),
    ensures
        r is Ok <==> (fmt_ok(*ref_fmt) && rows_equal_len(channels_view(ref_ch_vec@)) && (
        ref_ch_vec@[0]@.len() == 0 || sample_size_ok(
            ref_fmt.id as int,
            ref_fmt.bits as int / 8,
        ))),
        r is Ok ==> r->Ok_0.fmt == *ref_fmt,
        r is Ok ==> r->Ok_0.data@ == encode_matrix(
            ref_fmt.id as int,
            ref_fmt.bits as int / 8,
            ref_fmt.channel as int,
            ref_ch_vec@[0]@.len() as int,
            channels_view(ref_ch_vec@),
        ),
{
    let chk = fmt_check(ref_fmt);
    match chk {
        Err(e) => {
            return Err(e);
        },
        Ok(_) => {},
    }
    proof {
        assert(fmt_ok(*ref_fmt));
    }
    let id = ref_fmt.id;
    let channel = ref_fmt.channel;
    let size = ref_fmt.bits / 8;
    let n_ch = ref_ch_vec.len();
    let frames = ref_ch_vec[0].len();
    let ghost chv = channels_view(ref_ch_vec@);
    let mut i: usize = 0;
    while i < n_ch
        invariant
            0 <= i <= n_ch,
            forall|j: int| 0 <= j < i ==> (#[trigger] chv[j]).len() == frames,
        decreases n_ch - i,
    {
        if ref_ch_vec[i].len() != frames {
            proof {
                assert(chv[i as int] == ref_ch_vec@[i as int]@);
                assert(chv[0] == ref_ch_vec@[0]@);
                assert(!rows_equal_len(chv));
            }
            return Err(WavFileError::new("Irregal Data Vector! Data vector length are not same."));
        }
        i = i + 1;
    }
    proof {
        assert(rows_equal_len(chv));
    }
    if frames > 0 {
        let size_valid = if id == 1 {
            size == 1 || size == 2 || size == 3
        } else if id == 3 {
            size == 4
        } else {
            false
        };
        if !size_valid {
            return Err(WavFileError::new("Size is Too Small or Large!"));
        }
    }
    let mut data: Vec<u8> = Vec::new();
    let mut f: usize = 0;
    while f < frames
        invariant
            0 <= f <= frames,
            data@.len() == f * channel * size,
            forall|n: int|
                0 <= n < data@.len() ==> (#[trigger] data@[n]) == enc_byte(
                    id as int,
                    size as int,
                    channel as int,
                    chv,
                    n,
                ),
        decreases frames - f,
    {
        let mut c: usize = 0;
        while c < channel
            invariant
                0 <= c <= channel,
                f < frames,
                data@.len() == (f * channel + c) * size,
                forall|n: int|
                    0 <= n < data@.len() ==> (#[trigger] data@[n]) == enc_byte(
                        id as int,
                        size as int,
                        channel as int,
                        chv,
                        n,
                    ),
            decreases channel - c,
        {
            let ghost base = (f * channel + c) * size;
            proof {
                assert(chv[c as int] == ref_ch_vec@[c as int]@);
                assert(chv[0] == ref_ch_vec@[0]@);
                assert(chv[c as int].len() == frames);
            }
            let ghost s = ref_ch_vec@[c as int]@[f as int];
            encode_cell(id, size, ref_ch_vec[c][f], &mut data);
            proof {
                assert(encode_sample(id as int, size as int, s as int).len() == size);
                assert forall|k: int| 0 <= k < size implies enc_byte(
                    id as int,
                    size as int,
                    channel as int,
                    chv,
                    base + k,
                ) == encode_sample(id as int, size as int, s as int)[k] by {
                    lemma_cell_index(channel as int, size as int, f as int, c as int, k);
                    assert(chv[c as int][f as int] == s);
                }
                assert((f * channel + c) * size + size == (f * channel + (c + 1)) * size)
                    by (nonlinear_arith);
            }
            c = c + 1;
        }
        proof {
            assert((f * channel + channel) * size == (f + 1) * channel * size)
                by (nonlinear_arith);
        }
        f = f + 1;
    }
    proof {
        assert(data@ =~= encode_matrix(
            id as int,
            size as int,
            channel as int,
            frames as int,
            chv,
        ));
    }
    Ok(WavAudio { fmt: *ref_fmt, data })
}

} // verus!
