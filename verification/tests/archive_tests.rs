//! Whole-archive behaviour: the section scan bounded by `decomp_size`, its
//! failure modes, and both archive kinds' round trips.

use ktsl::asbin::Ktsl2asbin;
use ktsl::errors::KtslError;
use ktsl::header::Ktsr;
use ktsl::ktss::Ktss;
use ktsl::ktss::LopusPacket;
use ktsl::sections::InfoSection;
use ktsl::sections::KtssCompanionSection;
use ktsl::sections::PaddingSection;
use ktsl::sections::Section;
use ktsl::stbin::Ktsl2stbin;

fn sample_ktss(payload: Vec<u8>) -> Ktss {
    let enc_len = 0x60 + 8 + payload.len();
    Ktss {
        magic: 0x5353544b,
        section_size: enc_len as u32,
        codec: 9,
        unk1: 0,
        unk2: 0,
        unk3: 0,
        codec_start_offset: 0,
        layer_count: 1,
        channel_count: 2,
        unk4: 0,
        sample_rate: 48000,
        sample_count: 1234,
        loop_start: 0,
        loop_length: 0,
        padding: 0,
        audio_section_addr: 0,
        audio_section_size: 0,
        unk5: 0,
        frame_count: 1,
        frame_size: 0x78,
        some_constant: 0,
        orig_sample_rate: 48000,
        skip: 0,
        stream_count: 1,
        coupled_count: 1,
        channel_mapping: vec![0, 1],
        audio: vec![LopusPacket { size: payload.len() as u32, unk: 7, content: payload }],
    }
}

fn sample_companion(link_id: u32) -> KtssCompanionSection {
    KtssCompanionSection {
        section_size: 0x60,
        link_id,
        unknown_1: vec![0; 16],
        header_size: 0x40,
        subsection_magic: 0x7D43D038,
        section_size_2: 0,
        unknown_2: 0,
        channel_count: 2,
        transition_related: 0,
        unknown_3: 0,
        sample_rate: 0,
        sample_count: 0,
        unknown_4: 0,
        loop_start: 0,
        unknown_5: vec![0; 12],
        ktss_offset: 0,
        ktss_size: 0,
        unknown_6: 0,
        unk: vec![],
    }
}

#[test]
fn zero_entry_archive_scans_to_empty() {
    let mut a = Ktsl2stbin::new();
    a.header.decomp_size = 0x40;
    a.header.comp_size = 0x40;
    let bytes = a.encode();
    assert_eq!(bytes.len(), 0x40);
    let a2 = Ktsl2stbin::decode(&bytes, false).unwrap();
    assert_eq!(a2.entries.len(), 0);
    let files = a2.unpack();
    assert!(files.is_empty());
}

#[test]
fn stbin_scan_lands_exactly_on_decomp_size() {
    let mut a = Ktsl2stbin::new();
    a.pack_dir(vec![(0x11, sample_ktss(vec![1, 2])), (0x22, sample_ktss(vec![3]))]);
    let bytes = a.encode();
    assert_eq!(bytes.len(), a.header.decomp_size as usize);
    let a2 = Ktsl2stbin::decode(&bytes, false).unwrap();
    assert_eq!(a2.entries.len(), 2);
    assert_eq!(a2.entries[0].link_id, 0x11);
    assert_eq!(a2.entries[1].link_id, 0x22);
    assert_eq!(a2.encode(), bytes);
}

#[test]
fn overrunning_decomp_size_is_inconsistent_termination() {
    let mut a = Ktsl2stbin::new();
    a.pack_dir(vec![(0x11, sample_ktss(vec![1, 2]))]);
    let mut bytes = a.encode();
    // rig the archive so the first entry reaches past the declared end:
    // decomp_size = 0x41 sits inside the entry
    bytes[24] = 0x41;
    bytes[25] = 0;
    bytes[26] = 0;
    bytes[27] = 0;
    match Ktsl2stbin::decode(&bytes, false) {
        Err(KtslError::InconsistentTermination) => {},
        other => panic!("expected InconsistentTermination, got {:?}", other),
    }
}

#[test]
fn decomp_size_past_the_stream_is_truncated() {
    let mut a = Ktsl2stbin::new();
    a.pack_dir(vec![(0x11, sample_ktss(vec![1, 2]))]);
    let total = a.header.decomp_size + 0x40;
    a.header.decomp_size = total;
    a.header.comp_size = total;
    let bytes = a.encode();
    match Ktsl2stbin::decode(&bytes, false) {
        Err(KtslError::Truncated) => {},
        other => panic!("expected Truncated, got {:?}", other),
    }
}

#[test]
fn asbin_roundtrip_preserves_section_order() {
    let mut a = Ktsl2asbin::new();
    a.header.filetype = ktsl::tags::Filetype::Asset;
    a.entries.push(Section::Padding(PaddingSection { section_size: 12, padding: vec![7; 4] }));
    a.entries.push(Section::Adpcm(sample_companion(0x33)));
    a.entries.push(Section::Info1(InfoSection {
        section_size: 0x20,
        link_id: 5,
        channel_count: 2,
        layer_count: 1,
        padding_1: 0,
        cancel: 0,
        subsection_magic: 0xB7DB4B73,
        unk: vec![1, 2, 3, 4],
    }));
    // padding consumes 12, companion 0x60, info 0x20 bytes of the stream
    let total: u32 = 0x40 + 12 + 0x60 + 0x20;
    a.header.decomp_size = total;
    a.header.comp_size = total;
    let bytes = a.pack();
    assert_eq!(bytes.len(), total as usize);
    let a2 = Ktsl2asbin::decode(&bytes, false).unwrap();
    assert_eq!(a2.entries.len(), 3);
    assert!(matches!(a2.entries[0], Section::Padding(_)));
    assert!(matches!(a2.entries[1], Section::Adpcm(_)));
    assert!(matches!(a2.entries[2], Section::Info1(_)));
    assert_eq!(a2.pack(), bytes);
}

#[test]
fn section_size_below_minimum_is_size_underflow() {
    let mut a = Ktsl2asbin::new();
    let mut c = sample_companion(0x44);
    c.section_size = 0x10;  // below the companion's fixed 0x60 bytes
    a.entries.push(Section::Adpcm(c));
    a.header.decomp_size = 0x40 + 0x60;
    a.header.comp_size = 0x40 + 0x60;
    let bytes = a.pack();
    match Ktsl2asbin::decode(&bytes, false) {
        Err(KtslError::SizeUnderflow) => {},
        other => panic!("expected SizeUnderflow, got {:?}", other),
    }
}

#[test]
fn padding_below_minimum_is_size_underflow() {
    let mut bytes = Ktsr::new().encode();
    bytes[24] = 0x4c;  // decomp_size = 0x4c
    // a padding section declaring only 4 bytes
    bytes.extend_from_slice(&[0x61, 0x72, 0xdb, 0xa8]);  // padding magic
    bytes.extend_from_slice(&[4, 0, 0, 0]);
    bytes.extend_from_slice(&[0, 0, 0, 0]);
    match Ktsl2asbin::decode(&bytes, false) {
        Err(KtslError::SizeUnderflow) => {},
        other => panic!("expected SizeUnderflow, got {:?}", other),
    }
}

#[test]
fn unknown_section_magic_is_bad_magic() {
    let mut bytes = Ktsr::new().encode();
    bytes[24] = 0x50;  // decomp_size = 0x50
    bytes.extend_from_slice(&[0xef, 0xbe, 0xad, 0xde]);  // no such magic
    bytes.extend_from_slice(&[12, 0, 0, 0]);
    bytes.extend_from_slice(&[0; 8]);
    match Ktsl2asbin::decode(&bytes, false) {
        Err(KtslError::BadMagic) => {},
        other => panic!("expected BadMagic, got {:?}", other),
    }
}

#[test]
fn companion_fixed_fields_roundtrip() {
    let mut c = sample_companion(0xAB);
    c.sample_rate = 44100;
    c.sample_count = 999;
    c.loop_start = 0xFFFFFFFF;
    c.ktss_offset = 0x40;
    c.ktss_size = 0x80;
    let mut out: Vec<u8> = Vec::new();
    c.encode_to(&mut out);
    assert_eq!(out.len(), 0x5c);
    let (c2, end) = KtssCompanionSection::decode(&out, 0).unwrap();
    assert_eq!(end, 0x5c);
    assert_eq!(c2.link_id, 0xAB);
    assert_eq!(c2.sample_rate, 44100);
    assert_eq!(c2.sample_count, 999);
    assert_eq!(c2.loop_start, 0xFFFFFFFF);
    assert_eq!(c2.ktss_offset, 0x40);
    assert_eq!(c2.ktss_size, 0x80);
}
