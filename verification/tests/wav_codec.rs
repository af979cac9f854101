use resonance_parrot::wav::{fmt_check, to_channel_vec, to_wav_audio, Fmt, SubChunk, WavAudio, WavFile};

fn le16(v: u16) -> [u8; 2] {
    v.to_le_bytes()
}

fn le32(v: u32) -> [u8; 4] {
    v.to_le_bytes()
}

fn fmt_body(id: u16, channel: u16, rate: u32, bits: u16) -> Vec<u8> {
    let byte_rate = channel as u32 * rate * (bits as u32 / 8);
    let block = channel * bits / 8;
    let mut b = Vec::new();
    b.extend_from_slice(&le16(id));
    b.extend_from_slice(&le16(channel));
    b.extend_from_slice(&le32(rate));
    b.extend_from_slice(&le32(byte_rate));
    b.extend_from_slice(&le16(block));
    b.extend_from_slice(&le16(bits));
    b
}

fn chunk(name: &[u8; 4], body: &[u8]) -> Vec<u8> {
    let mut b = Vec::new();
    b.extend_from_slice(name);
    b.extend_from_slice(&le32(body.len() as u32));
    b.extend_from_slice(body);
    b
}

fn wav_bytes(chunks: &[Vec<u8>]) -> Vec<u8> {
    let payload: usize = 4 + chunks.iter().map(|c| c.len()).sum::<usize>();
    let mut b = Vec::new();
    b.extend_from_slice(b"RIFF");
    b.extend_from_slice(&le32(payload as u32));
    b.extend_from_slice(b"WAVE");
    for c in chunks {
        b.extend_from_slice(c);
    }
    b
}

fn mono_16bit_file(samples: &[i16]) -> Vec<u8> {
    let mut data = Vec::new();
    for s in samples {
        data.extend_from_slice(&s.to_le_bytes());
    }
    wav_bytes(&[chunk(b"fmt ", &fmt_body(1, 1, 44100, 16)), chunk(b"data", &data)])
}

#[test]
fn open_parses_chunks() {
    let bytes = mono_16bit_file(&[0, 1, -1, 256]);
    let mut wav = WavFile::new();
    assert!(wav.open_bytes(&bytes).is_ok());
    assert_eq!(wav.size, bytes.len());
    assert_eq!(wav.sub_chunks.len(), 2);
    assert_eq!(&wav.sub_chunks[0].name, b"fmt ");
    assert_eq!(wav.sub_chunks[0].body_size, 16);
    assert_eq!(&wav.sub_chunks[1].name, b"data");
    assert_eq!(wav.sub_chunks[1].body_size, 8);
}

#[test]
fn open_rejects_bad_riff_tag() {
    let mut bytes = mono_16bit_file(&[0]);
    bytes[0] = b'X';
    let mut wav = WavFile::new();
    assert!(wav.open_bytes(&bytes).is_err());
    assert_eq!(wav.sub_chunks.len(), 0);
}

#[test]
fn open_rejects_bad_riff_size() {
    // Format rejection: riff_size must equal file size minus 8.
    let mut bytes = mono_16bit_file(&[0]);
    let wrong = (bytes.len() as u32 - 7).to_le_bytes();
    bytes[4..8].copy_from_slice(&wrong);
    let mut wav = WavFile::new();
    assert!(wav.open_bytes(&bytes).is_err());
    assert_eq!(wav.sub_chunks.len(), 0);
}

#[test]
fn open_rejects_truncated_chunk() {
    let mut bytes = mono_16bit_file(&[0]);
    // Declare a data chunk longer than the bytes that follow.
    let n = bytes.len();
    bytes[n - 6..n - 2].copy_from_slice(&le32(100));
    let mut wav = WavFile::new();
    assert!(wav.open_bytes(&bytes).is_err());
}

#[test]
fn bad_byte_rate_rejected_before_audio_is_produced() {
    // Format rejection: byteRate must equal channels * rate * bits / 8.
    let mut body = fmt_body(1, 1, 44100, 16);
    body[8..12].copy_from_slice(&le32(1234));
    let bytes = wav_bytes(&[chunk(b"fmt ", &body), chunk(b"data", &[0, 0])]);
    let mut wav = WavFile::new();
    assert!(wav.open_bytes(&bytes).is_ok());
    assert!(wav.get_wav_audio().is_err());
}

#[test]
fn chunk_preservation_round_trip() {
    // Chunk preservation: unknown chunks survive a load-save cycle
    // byte for byte.
    let extra = chunk(b"LIST", b"some metadata the codec does not know");
    let bytes = wav_bytes(&[
        chunk(b"fmt ", &fmt_body(1, 1, 8000, 8)),
        extra,
        chunk(b"data", &[128, 127, 129]),
    ]);
    let mut wav = WavFile::new();
    assert!(wav.open_bytes(&bytes).is_ok());
    let rewritten = wav.save();
    assert_eq!(rewritten, bytes);
    assert_eq!(wav.size, bytes.len());
}

#[test]
fn duplicate_fmt_chunk_is_an_error() {
    let bytes = wav_bytes(&[
        chunk(b"fmt ", &fmt_body(1, 1, 8000, 8)),
        chunk(b"fmt ", &fmt_body(1, 1, 8000, 8)),
        chunk(b"data", &[128]),
    ]);
    let mut wav = WavFile::new();
    assert!(wav.open_bytes(&bytes).is_ok());
    assert!(wav.get_wav_audio().is_err());
}

#[test]
fn missing_data_chunk_is_an_error() {
    let bytes = wav_bytes(&[chunk(b"fmt ", &fmt_body(1, 1, 8000, 8))]);
    let mut wav = WavFile::new();
    assert!(wav.open_bytes(&bytes).is_ok());
    assert!(wav.get_wav_audio().is_err());
}

#[test]
fn get_wav_audio_reads_fmt_and_data() {
    let bytes = mono_16bit_file(&[5, -5]);
    let mut wav = WavFile::new();
    assert!(wav.open_bytes(&bytes).is_ok());
    let audio = wav.get_wav_audio().unwrap();
    assert_eq!(audio.fmt.id, 1);
    assert_eq!(audio.fmt.channel, 1);
    assert_eq!(audio.fmt.sampling_rate, 44100);
    assert_eq!(audio.fmt.bits, 16);
    assert_eq!(audio.data, vec![5, 0, 251, 255]);
}

#[test]
fn update_sub_chunk_replaces_first_match() {
    let mut wav = WavFile::new();
    let mut a = SubChunk::new();
    a.name = *b"AAAA";
    a.body_size = 1;
    a.data = vec![1];
    wav.update_sub_chunk(a).unwrap();
    let mut b = SubChunk::new();
    b.name = *b"BBBB";
    b.body_size = 1;
    b.data = vec![2];
    wav.update_sub_chunk(b).unwrap();
    let mut a2 = SubChunk::new();
    a2.name = *b"AAAA";
    a2.body_size = 2;
    a2.data = vec![9, 9];
    wav.update_sub_chunk(a2).unwrap();
    assert_eq!(wav.sub_chunks.len(), 2);
    assert_eq!(wav.sub_chunks[0].data, vec![9, 9]);
    assert_eq!(wav.sub_chunks[1].data, vec![2]);
}

#[test]
fn update_wav_audio_builds_both_chunks() {
    let mut wav = WavFile::new();
    let audio = WavAudio {
        fmt: Fmt { id: 1, channel: 1, sampling_rate: 8000, bits: 8 },
        data: vec![128, 129],
    };
    wav.update_wav_audio(&audio).unwrap();
    assert_eq!(wav.sub_chunks.len(), 2);
    assert_eq!(&wav.sub_chunks[0].name, b"fmt ");
    assert_eq!(wav.sub_chunks[0].data, fmt_body(1, 1, 8000, 8));
    assert_eq!(&wav.sub_chunks[1].name, b"data");
    assert_eq!(wav.sub_chunks[1].data, vec![128, 129]);
    let saved = wav.save();
    let mut reread = WavFile::new();
    assert!(reread.open_bytes(&saved).is_ok());
    let audio2 = reread.get_wav_audio().unwrap();
    assert_eq!(audio2.fmt, audio.fmt);
    assert_eq!(audio2.data, audio.data);
}

#[test]
fn fmt_check_accepts_supported_formats() {
    assert!(fmt_check(&Fmt { id: 1, channel: 1, sampling_rate: 8000, bits: 8 }).is_ok());
    assert!(fmt_check(&Fmt { id: 1, channel: 2, sampling_rate: 48000, bits: 64 }).is_ok());
    assert!(fmt_check(&Fmt { id: 3, channel: 2, sampling_rate: 44100, bits: 32 }).is_ok());
}

#[test]
fn fmt_check_rejects_unsupported_formats() {
    assert!(fmt_check(&Fmt { id: 1, channel: 0, sampling_rate: 8000, bits: 8 }).is_err());
    assert!(fmt_check(&Fmt { id: 1, channel: 3, sampling_rate: 8000, bits: 8 }).is_err());
    assert!(fmt_check(&Fmt { id: 1, channel: 1, sampling_rate: 8000, bits: 0 }).is_err());
    assert!(fmt_check(&Fmt { id: 1, channel: 1, sampling_rate: 8000, bits: 65 }).is_err());
    assert!(fmt_check(&Fmt { id: 1, channel: 1, sampling_rate: 22050, bits: 8 }).is_err());
}

#[test]
fn decode_16bit_sign_extends() {
    let audio = WavAudio {
        fmt: Fmt { id: 1, channel: 1, sampling_rate: 44100, bits: 16 },
        data: vec![0x00, 0x40, 0xff, 0xff],
    };
    let ch = to_channel_vec(&audio).unwrap();
    assert_eq!(ch.len(), 1);
    assert_eq!(ch[0], vec![0x4000_0000, -0x0001_0000]);
}

#[test]
fn decode_8bit_offset_binary() {
    let audio = WavAudio {
        fmt: Fmt { id: 1, channel: 1, sampling_rate: 8000, bits: 8 },
        data: vec![128, 0, 255],
    };
    let ch = to_channel_vec(&audio).unwrap();
    assert_eq!(ch[0], vec![0, i32::MIN, 0x7f00_0000]);
}

#[test]
fn decode_deinterleaves_stereo() {
    let audio = WavAudio {
        fmt: Fmt { id: 1, channel: 2, sampling_rate: 8000, bits: 8 },
        data: vec![128, 129, 130, 131],
    };
    let ch = to_channel_vec(&audio).unwrap();
    assert_eq!(ch.len(), 2);
    assert_eq!(ch[0], vec![0, 0x0200_0000]);
    assert_eq!(ch[1], vec![0x0100_0000, 0x0300_0000]);
}

#[test]
fn decode_rejects_pcm_wider_than_24_bits() {
    let audio = WavAudio {
        fmt: Fmt { id: 1, channel: 1, sampling_rate: 8000, bits: 32 },
        data: vec![0, 0, 0, 0],
    };
    assert!(to_channel_vec(&audio).is_err());
}

#[test]
fn encode_rejects_unequal_channel_lengths() {
    let fmt = Fmt { id: 1, channel: 2, sampling_rate: 8000, bits: 8 };
    let ch = vec![vec![0, 0], vec![0]];
    assert!(to_wav_audio(&ch, &fmt).is_err());
}

#[test]
fn sample_round_trip_16bit_exact() {
    // Round trip: decode(encode(samples)) == samples for samples the
    // width represents exactly.
    let fmt = Fmt { id: 1, channel: 2, sampling_rate: 44100, bits: 16 };
    let left = vec![0, 0x4000_0000, -0x4000_0000, 0x7fff_0000, i32::MIN];
    let right = vec![0x0001_0000, -0x0001_0000, 0, 0x1234_0000, -0x7fff_0000];
    let audio = to_wav_audio(&vec![left.clone(), right.clone()], &fmt).unwrap();
    assert_eq!(audio.data.len(), 20);
    let back = to_channel_vec(&audio).unwrap();
    assert_eq!(back, vec![left, right]);
}

#[test]
fn sample_round_trip_float_bits_exact() {
    // Round trip, float format: the 32-bit patterns pass through
    // unchanged in both directions.
    let fmt = Fmt { id: 3, channel: 1, sampling_rate: 48000, bits: 32 };
    let samples: Vec<i32> = vec![
        1.0f32.to_bits() as i32,
        (-0.25f32).to_bits() as i32,
        0.0f32.to_bits() as i32,
        0.3f32.to_bits() as i32,
    ];
    let audio = to_wav_audio(&vec![samples.clone()], &fmt).unwrap();
    let back = to_channel_vec(&audio).unwrap();
    assert_eq!(back, vec![samples.clone()]);
    let v = f32::from_bits(back[0][3] as u32);
    assert_eq!(v, 0.3f32);
}

#[test]
fn round_trip_quantization_within_bits() {
    // Round trip at 16 bits: a value that does not fit the width comes
    // back within its quantization step.
    let fmt = Fmt { id: 1, channel: 1, sampling_rate: 44100, bits: 16 };
    let x: f64 = 0.3;
    let wide = (x * (i32::MAX as f64 + 1.0)) as i32;
    let audio = to_wav_audio(&vec![vec![wide]], &fmt).unwrap();
    let back = to_channel_vec(&audio).unwrap();
    let decoded = back[0][0] as f64 / (i32::MAX as f64 + 1.0);
    assert!((decoded - x).abs() < 1.0 / 32768.0);
}

#[test]
fn get_sub_chunks_parses_a_bare_chunk_list() {
    let mut list = chunk(b"AAAA", &[1, 2, 3]);
    list.extend_from_slice(&chunk(b"BBBB", &[]));
    let wav = WavFile::new();
    let n = list.len();
    let chunks = wav.get_sub_chunks(list, n).unwrap();
    assert_eq!(chunks.len(), 2);
    assert_eq!(&chunks[0].name, b"AAAA");
    assert_eq!(chunks[0].data, vec![1, 2, 3]);
    assert_eq!(&chunks[1].name, b"BBBB");
    assert_eq!(chunks[1].body_size, 0);
}

#[test]
fn save_records_the_new_size() {
    let bytes = mono_16bit_file(&[1, 2, 3]);
    let mut wav = WavFile::new();
    assert!(wav.open_bytes(&bytes).is_ok());
    let rewritten = wav.save();
    assert_eq!(wav.size, rewritten.len());
    assert_eq!(wav.size, bytes.len());
}

#[test]
fn empty_data_gives_empty_channels() {
    let audio = WavAudio {
        fmt: Fmt { id: 1, channel: 2, sampling_rate: 8000, bits: 16 },
        data: vec![],
    };
    let ch = to_channel_vec(&audio).unwrap();
    assert_eq!(ch, vec![Vec::<i32>::new(), Vec::<i32>::new()]);
}
