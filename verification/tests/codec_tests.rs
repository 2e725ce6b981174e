//! Byte-level codec behaviour: the audio substream, the archive header and
//! the extensible tags.

use ktsl::errors::KtslError;
use ktsl::header::Ktsr;
use ktsl::ktss::Ktss;
use ktsl::ktss::LopusPacket;
use ktsl::tags::Filetype;
use ktsl::tags::Game;
use ktsl::tags::Platform;

fn sample_ktss(loop_start: u32, payload: Vec<u8>) -> Ktss {
    // encoded length: fixed head 0x5c + 2 mapping bytes, aligned to 0x10,
    // then one frame of 8 + payload bytes
    let enc_len = 0x60 + 8 + payload.len();
    Ktss {
        magic: 0x5353544b,
        section_size: enc_len as u32,
        codec: 9,
        unk1: 0,
        unk2: 0,
        unk3: 0,
        codec_start_offset: 0,
        layer_count: 1,
        channel_count: 2,
        unk4: 0,
        sample_rate: 48000,
        sample_count: 1234,
        loop_start,
        loop_length: 0,
        padding: 0,
        audio_section_addr: 0,
        audio_section_size: 0,
        unk5: 0,
        frame_count: 1,
        frame_size: 0x78,
        some_constant: 0,
        orig_sample_rate: 48000,
        skip: 0,
        stream_count: 1,
        coupled_count: 1,
        channel_mapping: vec![0, 1],
        audio: vec![LopusPacket { size: payload.len() as u32, unk: 7, content: payload }],
    }
}

#[test]
fn ktss_decode_then_encode_is_identity() {
    let k = sample_ktss(0, vec![0xde, 0xad, 0xbe, 0xef]);
    let bytes = k.encode();
    assert_eq!(bytes.len(), 0x60 + 8 + 4);
    let (k2, end) = Ktss::decode(&bytes, 0).unwrap();
    assert_eq!(end, bytes.len());
    assert_eq!(k2.sample_rate, 48000);
    assert_eq!(k2.channel_mapping, vec![0, 1]);
    assert_eq!(k2.audio.len(), 1);
    assert_eq!(k2.audio[0].content, vec![0xde, 0xad, 0xbe, 0xef]);
    let bytes2 = k2.encode();
    assert_eq!(bytes, bytes2);
}

#[test]
fn ktss_frame_fields_are_big_endian() {
    let k = sample_ktss(0, vec![1, 2, 3]);
    let bytes = k.encode();
    // frame begins at 0x60: size 3 as big-endian, then the tag 7
    assert_eq!(&bytes[0x60..0x68], &[0, 0, 0, 3, 0, 0, 0, 7]);
    // header fields are little-endian: sample rate 48000 = 0xBB80 at 0x2c
    assert_eq!(&bytes[0x2c..0x30], &[0x80, 0xbb, 0, 0]);
}

#[test]
fn ktss_padding_is_skipped_not_validated() {
    let k = sample_ktss(0, vec![9]);
    let mut bytes = k.encode();
    // scribble into the two skipped regions: after section_size and after
    // the channel mapping
    bytes[0x08] = 0xAA;
    bytes[0x5f] = 0xBB;
    let (k2, end) = Ktss::decode(&bytes, 0).unwrap();
    assert_eq!(end, bytes.len());
    assert_eq!(k2.audio[0].content, vec![9]);
}

#[test]
fn ktss_truncated_frame_fails() {
    let k = sample_ktss(0, vec![1, 2, 3, 4, 5, 6, 7, 8]);
    let bytes = k.encode();
    let cut = bytes[..bytes.len() - 3].to_vec();
    match Ktss::decode(&cut, 0) {
        Err(KtslError::Truncated) => {},
        other => panic!("expected Truncated, got {:?}", other),
    }
}

#[test]
fn header_classic_roundtrip() {
    let h = Ktsr::new();
    let bytes = h.encode();
    assert_eq!(bytes.len(), 0x40);
    assert_eq!(&bytes[0..4], b"KTSR");
    let (h2, end) = Ktsr::decode(&bytes, false).unwrap();
    assert_eq!(end, 0x40);
    assert_eq!(h2.flags, 1);
    assert!(matches!(h2.filetype, Filetype::Stream));
    assert!(matches!(h2.platform, Platform::Switch));
    assert!(matches!(h2.game, Game::ThreeHouses));
    assert_eq!(h2.encode(), bytes);
}

#[test]
fn header_seeded_roundtrip() {
    let mut h = Ktsr::new();
    h.enc_seed = Some(vec![4, 5, 6]);
    let bytes = h.encode();
    assert_eq!(bytes.len(), 0x20 + 1 + 3);
    assert_eq!(bytes[0x20], 3);
    let (h2, end) = Ktsr::decode(&bytes, true).unwrap();
    assert_eq!(end, bytes.len());
    assert_eq!(h2.enc_seed, Some(vec![4, 5, 6]));
}

#[test]
fn header_bad_magic_is_rejected() {
    let mut bytes = Ktsr::new().encode();
    bytes[0] = b'X';
    match Ktsr::decode(&bytes, false) {
        Err(KtslError::BadMagic) => {},
        other => panic!("expected BadMagic, got {:?}", other),
    }
}

#[test]
fn header_truncated_is_rejected() {
    let bytes = Ktsr::new().encode();
    let cut = bytes[..0x30].to_vec();
    match Ktsr::decode(&cut, false) {
        Err(KtslError::Truncated) => {},
        other => panic!("expected Truncated, got {:?}", other),
    }
}

#[test]
fn unknown_tag_codes_are_not_errors() {
    assert!(matches!(Platform::from_raw(0x123), Platform::Unknown(0x123)));
    assert_eq!(Platform::from_raw(0x123).raw(), 0x123);
    assert!(matches!(Platform::from_raw(0x100), Platform::PC));
    assert!(matches!(Platform::from_raw(0x400), Platform::Switch));
    assert!(matches!(Game::from_raw(42), Game::Unknown(42)));
    assert_eq!(Game::from_raw(0xB75674CE).raw(), 0xB75674CE);
    assert!(matches!(Filetype::from_raw(0x1A487B77), Filetype::Asset));
    assert!(matches!(Filetype::from_raw(0xFCDD9402), Filetype::Stream));
    assert!(matches!(Filetype::from_raw(1), Filetype::Unknown(1)));
}

#[test]
fn header_with_unknown_tags_roundtrips() {
    let mut h = Ktsr::new();
    h.platform = Platform::Unknown(0x0999);
    h.game = Game::Unknown(0x12345678);
    let bytes = h.encode();
    let (h2, _) = Ktsr::decode(&bytes, false).unwrap();
    assert!(matches!(h2.platform, Platform::Unknown(0x0999)));
    assert!(matches!(h2.game, Game::Unknown(0x12345678)));
}
