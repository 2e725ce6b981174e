//! The smaller section records: info subsections and the embedded audio
//! entry of the metadata archive.

use ktsl::asbin::Ktsl2asbin;
use ktsl::errors::KtslError;
use ktsl::ktss::Ktss;
use ktsl::ktss::LopusPacket;
use ktsl::sections::InfoSubsection;
use ktsl::sections::InfoSubsectionHeader;
use ktsl::sections::KtssSection;
use ktsl::sections::Section;
use ktsl::sections::Unk1InfoSubbection;
use ktsl::sections::UnkInfo1Subsection;

fn sample_ktss(payload: Vec<u8>) -> Ktss {
    let enc_len = 0x60 + 8 + payload.len();
    Ktss {
        magic: 0x5353544b,
        section_size: enc_len as u32,
        codec: 9,
        unk1: 0,
        unk2: 0,
        unk3: 0,
        codec_start_offset: 0,
        layer_count: 1,
        channel_count: 2,
        unk4: 0,
        sample_rate: 48000,
        sample_count: 1234,
        loop_start: 0,
        loop_length: 0,
        padding: 0,
        audio_section_addr: 0,
        audio_section_size: 0,
        unk5: 0,
        frame_count: 1,
        frame_size: 0x78,
        some_constant: 0,
        orig_sample_rate: 48000,
        skip: 0,
        stream_count: 1,
        coupled_count: 1,
        channel_mapping: vec![0, 1],
        audio: vec![LopusPacket { size: payload.len() as u32, unk: 7, content: payload }],
    }
}

#[test]
fn info_subsection_header_roundtrip() {
    let h = InfoSubsectionHeader { unk1: 11, unk2: 22 };
    let mut out: Vec<u8> = Vec::new();
    h.encode_to(&mut out);
    assert_eq!(out.len(), 8);
    let (h2, end) = InfoSubsectionHeader::decode(&out, 0).unwrap();
    assert_eq!(end, 8);
    assert_eq!(h2, h);
}

#[test]
fn unk1_info_subsection_roundtrip() {
    let s = Unk1InfoSubbection {
        header: InfoSubsectionHeader { unk1: 1, unk2: 2 },
        section_size: 12,
        padding: vec![5; 4],
    };
    let mut out: Vec<u8> = Vec::new();
    s.encode_to(&mut out);
    assert_eq!(out.len(), 16);
    let (s2, end) = Unk1InfoSubbection::decode(&out, 0).unwrap();
    assert_eq!(end, 16);
    assert_eq!(s2.header, s.header);
    assert_eq!(s2.section_size, 12);
    assert_eq!(s2.padding, vec![5; 4]);
}

#[test]
fn unk1_info_subsection_underflow() {
    let mut bytes = vec![0u8; 12];
    bytes[8] = 4;  // section_size 4, below the 8-byte minimum
    match Unk1InfoSubbection::decode(&bytes, 0) {
        Err(KtslError::SizeUnderflow) => {},
        other => panic!("expected SizeUnderflow, got {:?}", other),
    }
}

#[test]
fn info_subsection_dispatches_on_magic() {
    let s = InfoSubsection::Unk1(Unk1InfoSubbection {
        header: InfoSubsectionHeader { unk1: 1, unk2: 2 },
        section_size: 8,
        padding: vec![],
    });
    let mut out: Vec<u8> = Vec::new();
    s.encode_to(&mut out);
    assert_eq!(&out[0..4], &[0x18, 0x13, 0x24, 0]);
    let (s2, end) = InfoSubsection::decode(&out, 0).unwrap();
    assert_eq!(end, out.len());
    assert!(matches!(s2, InfoSubsection::Unk1(_)));
    // an unknown subsection magic is a hard error
    let mut bad = out.clone();
    bad[0] = 0xFF;
    match InfoSubsection::decode(&bad, 0) {
        Err(KtslError::BadMagic) => {},
        other => panic!("expected BadMagic, got {:?}", other),
    }
}

#[test]
fn unk_info1_record_roundtrip() {
    let s = UnkInfo1Subsection {
        unk1: -5,
        subsubsection_offset_count_idk: 2,
        offset_to_subsubsection_offset: 0x10,
        unk4_low: 3,
        unk4_high: 4,
        subsubsection_offset: 0x20,
        unk5: 0,
    };
    let mut out: Vec<u8> = Vec::new();
    s.encode_to(&mut out);
    assert_eq!(out.len(), 28);
    let (s2, end) = UnkInfo1Subsection::decode(&out, 0).unwrap();
    assert_eq!(end, 28);
    assert_eq!(s2, s);
}

#[test]
fn embedded_audio_entry_roundtrips_inside_the_metadata_archive() {
    let k = sample_ktss(vec![1, 2, 3, 4]);
    let ktss_size = k.section_size;
    let section_size = 0x40 + ((ktss_size + 0x3f) / 0x40) * 0x40;
    let mut a = Ktsl2asbin::new();
    a.entries.push(Section::Ktss(KtssSection {
        section_size,
        link_id: 0x99,
        header_size: 0x40,
        ktss_size,
        ktss: k,
    }));
    a.header.decomp_size = 0x40 + section_size;
    a.header.comp_size = a.header.decomp_size;
    let bytes = a.pack();
    assert_eq!(bytes.len(), a.header.decomp_size as usize);
    let a2 = Ktsl2asbin::decode(&bytes, false).unwrap();
    assert_eq!(a2.entries.len(), 1);
    match &a2.entries[0] {
        Section::Ktss(s) => {
            assert_eq!(s.link_id, 0x99);
            assert_eq!(s.ktss_size, ktss_size);
            assert_eq!(s.ktss.audio[0].content, vec![1, 2, 3, 4]);
        },
        other => panic!("expected the embedded audio entry, got {:?}", other),
    }
    assert_eq!(a2.pack(), bytes);
}
