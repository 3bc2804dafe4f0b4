use koko::wav::{encode_samples, file_header, header_bytes, stream_header, streaming_header};

#[test]
fn samples_are_little_endian() {
    assert_eq!(encode_samples(&vec![0x0102_0304, 0xa0b0_c0d0]), vec![4, 3, 2, 1, 0xd0, 0xc0, 0xb0, 0xa0]);
    assert_eq!(encode_samples(&vec![]), Vec::<u8>::new());
}

#[test]
fn float_samples_keep_their_bits() {
    let x = 0.25f32;
    assert_eq!(encode_samples(&vec![x.to_bits()]), x.to_le_bytes().to_vec());
}

#[test]
fn file_header_sizes() {
    let h = file_header(2, 44100, 16, 10);
    assert_eq!(h.len(), 44);
    assert_eq!(&h[0..4], b"RIFF");
    assert_eq!(&h[4..8], &(36u32 + 40).to_le_bytes());
    assert_eq!(&h[8..16], b"WAVEfmt ");
    assert_eq!(&h[16..20], &16u32.to_le_bytes());
    assert_eq!(&h[20..22], &3u16.to_le_bytes());
    assert_eq!(&h[22..24], &2u16.to_le_bytes());
    assert_eq!(&h[24..28], &44100u32.to_le_bytes());
    assert_eq!(&h[28..32], &(44100u32 * 4).to_le_bytes());
    assert_eq!(&h[32..34], &4u16.to_le_bytes());
    assert_eq!(&h[34..36], &16u16.to_le_bytes());
    assert_eq!(&h[36..40], b"data");
    assert_eq!(&h[40..44], &40u32.to_le_bytes());
}

#[test]
fn empty_file_header() {
    let h = file_header(1, 24000, 32, 0);
    assert_eq!(&h[4..8], &36u32.to_le_bytes());
    assert_eq!(&h[40..44], &0u32.to_le_bytes());
}

#[test]
fn stream_header_leaves_sizes_open() {
    let h = stream_header(1, 24000, 32);
    assert_eq!(h, streaming_header());
    assert_eq!(&h[4..8], &[0xff; 4]);
    assert_eq!(&h[40..44], &[0xff; 4]);
    assert_eq!(h, header_bytes(1, 24000, 32, u32::MAX, u32::MAX));
}
