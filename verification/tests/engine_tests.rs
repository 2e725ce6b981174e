//! The pack/unpack engine: naming, link resolution, companion patching and
//! the round trips.

use ktsl::asbin::Ktsl2asbin;
use ktsl::engine::loop_to_audio;
use ktsl::engine::loop_to_companion;
use ktsl::engine::sort_by_link_id;
use ktsl::errors::KtslError;
use ktsl::ktss::Ktss;
use ktsl::ktss::LopusPacket;
use ktsl::names::ktss_file_name;
use ktsl::names::parse_link_id;
use ktsl::sections::KtssCompanionSection;
use ktsl::sections::Section;
use ktsl::stbin::Ktsl2stbin;

fn sample_ktss(loop_start: u32, payload: Vec<u8>) -> Ktss {
    let enc_len = 0x60 + 8 + payload.len();
    Ktss {
        magic: 0x5353544b,
        section_size: enc_len as u32,
        codec: 9,
        unk1: 0,
        unk2: 0,
        unk3: 0,
        codec_start_offset: 0,
        layer_count: 1,
        channel_count: 2,
        unk4: 0,
        sample_rate: 48000,
        sample_count: 1234,
        loop_start,
        loop_length: 0,
        padding: 0,
        audio_section_addr: 0,
        audio_section_size: 0,
        unk5: 0,
        frame_count: 1,
        frame_size: 0x78,
        some_constant: 0,
        orig_sample_rate: 48000,
        skip: 0,
        stream_count: 1,
        coupled_count: 1,
        channel_mapping: vec![0, 1],
        audio: vec![LopusPacket { size: payload.len() as u32, unk: 7, content: payload }],
    }
}

fn sample_companion(link_id: u32) -> KtssCompanionSection {
    KtssCompanionSection {
        section_size: 0x60,
        link_id,
        unknown_1: vec![0; 16],
        header_size: 0x40,
        subsection_magic: 0x7D43D038,
        section_size_2: 0,
        unknown_2: 0,
        channel_count: 2,
        transition_related: 0,
        unknown_3: 0,
        sample_rate: 0,
        sample_count: 0,
        unknown_4: 0,
        loop_start: 0,
        unknown_5: vec![0; 12],
        ktss_offset: 0,
        ktss_size: 0,
        unknown_6: 0,
        unk: vec![],
    }
}

#[test]
fn link_id_formats_as_lowercase_hex_name() {
    let name = ktss_file_name(0x00AA11BB);
    assert_eq!(name, "00aa11bb.ktss");
    assert_eq!(ktss_file_name(0), "00000000.ktss");
    assert_eq!(ktss_file_name(0xFFFFFFFF), "ffffffff.ktss");
}

#[test]
fn link_id_parses_back_from_stem() {
    assert_eq!(parse_link_id("00aa11bb"), Ok(0x00AA11BB));
    assert_eq!(parse_link_id("1F"), Ok(0x1F));
    assert_eq!(parse_link_id("0"), Ok(0));
    assert_eq!(parse_link_id("ffffffff"), Ok(0xFFFFFFFF));
}

#[test]
fn non_hex_stem_is_a_format_error() {
    assert_eq!(parse_link_id("xyz"), Err(KtslError::BadFileName));
    assert_eq!(parse_link_id(""), Err(KtslError::BadFileName));
    assert_eq!(parse_link_id("123456789"), Err(KtslError::BadFileName));
    assert_eq!(parse_link_id("00aa11bb.ktss"), Err(KtslError::BadFileName));
}

#[test]
fn loop_sentinel_substitution() {
    assert_eq!(loop_to_companion(0), 0xFFFFFFFF);
    assert_eq!(loop_to_companion(5), 5);
    assert_eq!(loop_to_audio(0xFFFFFFFF), 0);
    assert_eq!(loop_to_audio(5), 5);
    assert_eq!(loop_to_audio(loop_to_companion(0)), 0);
    assert_eq!(loop_to_audio(loop_to_companion(123)), 123);
}

#[test]
fn unpack_names_and_payloads() {
    let mut a = Ktsl2stbin::new();
    let k = sample_ktss(0, vec![1, 2, 3]);
    let payload_bytes = k.encode();
    a.pack_dir(vec![(0x00AA11BB, k)]);
    let files = a.unpack();
    assert_eq!(files.len(), 1);
    assert_eq!(files[0].0, "00aa11bb.ktss");
    assert_eq!(files[0].1, payload_bytes);
}

#[test]
fn pack_dir_extents_are_multiples_of_0x40() {
    let mut a = Ktsl2stbin::new();
    a.pack_dir(vec![
        (1, sample_ktss(0, vec![1])),
        (2, sample_ktss(0, vec![2; 0x40])),
        (3, sample_ktss(0, vec![3; 0x7f])),
    ]);
    for e in &a.entries {
        assert_eq!(e.section_size % 0x40, 0);
    }
    let total: u32 = 0x40 + a.entries.iter().map(|e| e.section_size).sum::<u32>();
    assert_eq!(a.header.decomp_size, total);
    assert_eq!(a.header.comp_size, total);
}

#[test]
fn companion_pack_patches_placeholder_records() {
    let mut asbin = Ktsl2asbin::new();
    // a placeholder record: ktss_offset = 0, ktss_size = 0
    asbin.entries.push(Section::Adpcm(sample_companion(0x77)));
    let audio = sample_ktss(0x1234, vec![5, 6, 7, 8]);
    let audio_size = audio.section_size;
    let mut stbin = Ktsl2stbin::new();
    stbin.pack(&mut asbin, vec![audio]);
    // the produced archive
    assert_eq!(stbin.entries.len(), 1);
    let e = &stbin.entries[0];
    assert_eq!(e.link_id, 0x77);
    assert_eq!(e.header_size, 0x40);
    assert_eq!(e.ktss_size, audio_size);
    // substream encodes to 0x6c bytes; header plus padding gives 0xc0
    assert_eq!(audio_size, 0x6c);
    assert_eq!(e.section_size, 0xc0);
    assert_eq!(e.section_size % 0x40, 0);
    // the patched record: offset of the entry's own header, unpadded size
    match &asbin.entries[0] {
        Section::Adpcm(c) => {
            assert_eq!(c.ktss_offset, 0x40);
            assert_eq!(c.ktss_size, audio_size);
            assert_eq!(c.loop_start, 0x1234);
            assert_eq!(c.sample_count, 1234);
            assert_eq!(c.sample_rate, 48000);
        },
        other => panic!("expected a companion record, got {:?}", other),
    }
    assert_eq!(stbin.header.decomp_size, 0x40 + e.section_size);
    assert_eq!(stbin.header.comp_size, stbin.header.decomp_size);
}

#[test]
fn companion_pack_applies_loop_sentinel() {
    let mut asbin = Ktsl2asbin::new();
    asbin.entries.push(Section::Adpcm(sample_companion(1)));
    asbin.entries.push(Section::Adpcm(sample_companion(2)));
    let mut stbin = Ktsl2stbin::new();
    stbin.pack(
        &mut asbin,
        vec![sample_ktss(0, vec![1]), sample_ktss(777, vec![2])],
    );
    match (&asbin.entries[0], &asbin.entries[1]) {
        (Section::Adpcm(c0), Section::Adpcm(c1)) => {
            assert_eq!(c0.loop_start, 0xFFFFFFFF);
            assert_eq!(c1.loop_start, 777);
        },
        _ => panic!("expected two companion records"),
    }
}

#[test]
fn companion_pack_assigns_sequential_offsets() {
    let mut asbin = Ktsl2asbin::new();
    asbin.entries.push(Section::Adpcm(sample_companion(1)));
    asbin.entries.push(Section::Adpcm(sample_companion(2)));
    let mut stbin = Ktsl2stbin::new();
    stbin.pack(
        &mut asbin,
        vec![sample_ktss(0, vec![1; 4]), sample_ktss(0, vec![2; 8])],
    );
    let extent0 = stbin.entries[0].section_size;
    match (&asbin.entries[0], &asbin.entries[1]) {
        (Section::Adpcm(c0), Section::Adpcm(c1)) => {
            assert_eq!(c0.ktss_offset, 0x40);
            assert_eq!(c1.ktss_offset, 0x40 + extent0);
        },
        _ => panic!("expected two companion records"),
    }
}

#[test]
fn companion_pack_leaves_other_sections_alone() {
    let mut asbin = Ktsl2asbin::new();
    asbin.entries.push(Section::Padding(ktsl::sections::PaddingSection {
        section_size: 12,
        padding: vec![9; 4],
    }));
    asbin.entries.push(Section::Adpcm(sample_companion(1)));
    let mut stbin = Ktsl2stbin::new();
    stbin.pack(&mut asbin, vec![sample_ktss(0, vec![1])]);
    match &asbin.entries[0] {
        Section::Padding(p) => {
            assert_eq!(p.section_size, 12);
            assert_eq!(p.padding, vec![9; 4]);
        },
        other => panic!("expected the padding section, got {:?}", other),
    }
}

#[test]
fn unpack_then_pack_reproduces_the_archive() {
    let mut a = Ktsl2stbin::new();
    a.pack_dir(vec![
        (0x10, sample_ktss(0, vec![1, 2, 3])),
        (0x20, sample_ktss(9, vec![4, 5])),
    ]);
    let original_bytes = a.encode();
    // unpack to (name, bytes) files, then rebuild from the decoded files
    let files = a.unpack();
    let mut rebuilt_files: Vec<(u32, Ktss)> = Vec::new();
    for (name, bytes) in &files {
        let stem = &name[..name.len() - 5];
        let id = parse_link_id(stem).unwrap();
        let (k, _) = Ktss::decode(bytes, 0).unwrap();
        rebuilt_files.push((id, k));
    }
    let mut b = Ktsl2stbin::new();
    b.pack_dir(rebuilt_files);
    assert_eq!(b.encode(), original_bytes);
}

#[test]
fn sort_by_link_id_orders_files() {
    let files = vec![
        (3u32, sample_ktss(0, vec![3])),
        (1u32, sample_ktss(0, vec![1])),
        (2u32, sample_ktss(0, vec![2])),
    ];
    let sorted = sort_by_link_id(files);
    let ids: Vec<u32> = sorted.iter().map(|f| f.0).collect();
    assert_eq!(ids, vec![1, 2, 3]);
    assert_eq!(sorted[0].1.audio[0].content, vec![1]);
}

#[test]
fn get_companion_sections_filters_in_order() {
    let mut asbin = Ktsl2asbin::new();
    asbin.entries.push(Section::Adpcm(sample_companion(5)));
    asbin.entries.push(Section::Padding(ktsl::sections::PaddingSection {
        section_size: 12,
        padding: vec![0; 4],
    }));
    asbin.entries.push(Section::Adpcm(sample_companion(6)));
    let cs = asbin.get_companion_sections();
    assert_eq!(cs.len(), 2);
    assert_eq!(cs[0].link_id, 5);
    assert_eq!(cs[1].link_id, 6);
}
