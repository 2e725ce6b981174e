//! Decoding byte streams written out by hand, so the decoder is checked
//! against the wire layout itself rather than against this codec's own
//! encoder.

use ktsl::header::Ktsr;
use ktsl::ktss::Ktss;
use ktsl::stbin::Ktsl2stbin;
use ktsl::tags::Filetype;
use ktsl::tags::Game;
use ktsl::tags::Platform;

#[test]
fn decode_handwritten_substream() {
    // a substream with no channels and no frames: 0x5c header bytes, then
    // four (unvalidated) filler bytes up to the 0x10 boundary
    let mut b = vec![0u8; 0x60];
    b[0..4].copy_from_slice(&[0x44, 0x33, 0x22, 0x11]);  // magic
    b[4..8].copy_from_slice(&[0x60, 0, 0, 0]);  // section_size
    b[0x20] = 2;  // codec
    b[0x28] = 1;  // layer_count
    b[0x29] = 0;  // channel_count
    b[0x2c..0x30].copy_from_slice(&[0x80, 0x3e, 0, 0]);  // sample rate 16000
    b[0x30..0x34].copy_from_slice(&[2, 0, 0, 0]);  // sample count
    b[0x34..0x38].copy_from_slice(&[1, 0, 0, 0]);  // loop start
    b[0x50] = 0x10;  // frame size
    b[0x5a] = 1;  // stream count
    b[0x5c..0x60].copy_from_slice(&[0xee, 0xee, 0xee, 0xee]);  // filler
    let (k, end) = Ktss::decode(&b, 0).unwrap();
    assert_eq!(end, 0x60);
    assert_eq!(k.magic, 0x11223344);
    assert_eq!(k.section_size, 0x60);
    assert_eq!(k.codec, 2);
    assert_eq!(k.layer_count, 1);
    assert_eq!(k.channel_count, 0);
    assert_eq!(k.sample_rate, 16000);
    assert_eq!(k.sample_count, 2);
    assert_eq!(k.loop_start, 1);
    assert_eq!(k.frame_size, 0x10);
    assert_eq!(k.stream_count, 1);
    assert!(k.channel_mapping.is_empty());
    assert!(k.audio.is_empty());
}

#[test]
fn decode_handwritten_substream_with_one_frame() {
    // one channel, one frame of two payload bytes
    let mut b = vec![0u8; 0x60 + 10];
    b[4..8].copy_from_slice(&[0x6a, 0, 0, 0]);
    b[0x29] = 1;  // channel_count
    b[0x4c..0x50].copy_from_slice(&[1, 0, 0, 0]);  // frame_count
    b[0x5c] = 9;  // the mapping byte
    // frames start at the next 0x10 boundary, 0x60; big-endian fields
    b[0x60..0x68].copy_from_slice(&[0, 0, 0, 2, 0, 0, 0, 5]);
    b[0x68] = 0xca;
    b[0x69] = 0xfe;
    let (k, end) = Ktss::decode(&b, 0).unwrap();
    assert_eq!(end, 0x6a);
    assert_eq!(k.channel_mapping, vec![9]);
    assert_eq!(k.audio.len(), 1);
    assert_eq!(k.audio[0].size, 2);
    assert_eq!(k.audio[0].unk, 5);
    assert_eq!(k.audio[0].content, vec![0xca, 0xfe]);
}

#[test]
fn decode_handwritten_empty_archive() {
    let mut b = vec![0u8; 0x40];
    b[0..4].copy_from_slice(b"KTSR");
    b[4..8].copy_from_slice(&[0x02, 0x94, 0xdd, 0xfc]);  // stream kind
    b[8..10].copy_from_slice(&[1, 0]);  // flags
    b[10..12].copy_from_slice(&[0, 4]);  // platform 0x400
    b[12..16].copy_from_slice(&[0xce, 0x74, 0x56, 0xb7]);  // game
    b[24..28].copy_from_slice(&[0x40, 0, 0, 0]);  // decomp_size
    b[28..32].copy_from_slice(&[0x40, 0, 0, 0]);  // comp_size
    let a = Ktsl2stbin::decode(&b, false).unwrap();
    assert!(matches!(a.header.filetype, Filetype::Stream));
    assert!(matches!(a.header.platform, Platform::Switch));
    assert!(matches!(a.header.game, Game::ThreeHouses));
    assert_eq!(a.header.flags, 1);
    assert_eq!(a.header.decomp_size, 0x40);
    assert!(a.entries.is_empty());
}

#[test]
fn decode_handwritten_seeded_header() {
    let mut b = vec![0u8; 0x25];
    b[0..4].copy_from_slice(b"KTSR");
    b[4..8].copy_from_slice(&[0x77, 0x7b, 0x48, 0x1a]);  // asset kind
    b[0x20] = 4;  // seed length
    b[0x21..0x25].copy_from_slice(&[0xde, 0xad, 0xbe, 0xef]);
    let (h, end) = Ktsr::decode(&b, true).unwrap();
    assert_eq!(end, 0x25);
    assert!(matches!(h.filetype, Filetype::Asset));
    assert_eq!(h.enc_seed, Some(vec![0xde, 0xad, 0xbe, 0xef]));
}
