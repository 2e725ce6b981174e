//! The audio archive: a header, then entries back to back, each an 0x40-byte
//! entry header followed by an embedded audio substream, zero-padded so that
//! every entry's extent is a multiple of 0x40. Scanning is bounded by the
//! header's `decomp_size`: landing exactly on it is the only way to finish,
//! and overrunning it is a format error, not something to ignore.

use vstd::prelude::*;

use crate::align::align_up;
use crate::align::lemma_align_up;
use crate::align::lemma_align_up_add_multiple;
use crate::align::pad_to;
use crate::bytes::le32_at;
use crate::bytes::le32_bytes;
use crate::bytes::push_u32_le;
use crate::bytes::push_zeros;
use crate::bytes::read_u32_le;
use crate::bytes::zeros;
use crate::errors::KtslError;
use crate::header::spec_encode_ktsr;
use crate::header::spec_parse_ktsr;
use crate::header::Ktsr;
use crate::header::KtsrView;
use crate::header::KTSL_HEADER_SIZE;
use crate::ktss::lemma_parse_ktss_len;
use crate::ktss::spec_encode_ktss;
use crate::ktss::spec_parse_ktss;
use crate::ktss::Ktss;
use crate::ktss::KtssView;

verus! {

/// One audio entry: the fixed entry header and the embedded substream.
#[derive(Debug, Clone)]
pub struct KtslEntry {
    pub section_type: u32,
    pub section_size: u32,
    pub link_id: u32,
    pub header_size: u32,
    pub ktss_size: u32,
    pub ktss: Ktss,
}

#[verifier::ext_equal]
pub struct KtslEntryView {
    pub section_type: u32,
    pub section_size: u32,
    pub link_id: u32,
    pub header_size: u32,
    pub ktss_size: u32,
    pub ktss: KtssView,
}

impl View for KtslEntry {
    type V = KtslEntryView;

    open spec fn view(&self) -> KtslEntryView {
        KtslEntryView {
            section_type: self.section_type,
            section_size: self.section_size,
            link_id: self.link_id,
            header_size: self.header_size,
            ktss_size: self.ktss_size,
            ktss: self.ktss@,
        }
    }
}

/// Magic value of an audio entry section.
pub const KTSS_SECTION_MAGIC: u32 = 0x15F4D409;

impl KtslEntryView {
    pub open spec fn valid(self) -> bool {
        self.ktss.valid()
    }

    /// An entry's encoding fits comfortably in the archive's 32-bit size
    /// fields.
    pub open spec fn bounded(self) -> bool {
        spec_encode_ktss(self.ktss).len() + 0x80 <= u32::MAX
    }

    /// The entry's declared sizes agree with the substream it carries, the
    /// shape the pack engine produces: `section_size` is the padded extent,
    /// `ktss_size` the substream's unpadded size.
    pub open spec fn consistent(self) -> bool {
        &&& self.section_type == KTSS_SECTION_MAGIC
        &&& self.header_size == KTSL_HEADER_SIZE
        &&& self.ktss.size_consistent()
        &&& self.ktss_size == self.ktss.section_size
        &&& self.section_size as int == 0x40 + align_up(self.ktss.section_size as int, 0x40)
    }
}

impl KtslEntry {
    /// An empty entry header with only the fixed header size filled in.
    pub fn new() -> (r: KtslEntry)
        ensures
            r@.section_type == 0,
            r@.section_size == 0,
            r@.link_id == 0,
            r@.header_size == KTSL_HEADER_SIZE,
            r@.ktss_size == 0,
    {
        KtslEntry {
            section_type: 0,
            section_size: 0,
            link_id: 0,
            header_size: KTSL_HEADER_SIZE,
            ktss_size: 0,
            ktss: Ktss {
                magic: 0,
                section_size: 0,
                codec: 0,
                unk1: 0,
                unk2: 0,
                unk3: 0,
                codec_start_offset: 0,
                layer_count: 0,
                channel_count: 0,
                unk4: 0,
                sample_rate: 0,
                sample_count: 0,
                loop_start: 0,
                loop_length: 0,
                padding: 0,
                audio_section_addr: 0,
                audio_section_size: 0,
                unk5: 0,
                frame_count: 0,
                frame_size: 0,
                some_constant: 0,
                orig_sample_rate: 0,
                skip: 0,
                stream_count: 0,
                coupled_count: 0,
                channel_mapping: Vec::new(),
                audio: Vec::new(),
            },
        }
    }
}

/// Filler after the embedded substream, up to the next 0x40 boundary.
pub open spec fn entry_tail_pad(e: KtslEntryView) -> int {
    align_up(spec_encode_ktss(e.ktss).len() as int, 0x40) - spec_encode_ktss(e.ktss).len()
}

pub open spec fn spec_encode_entry(e: KtslEntryView) -> Seq<u8> {
    le32_bytes(e.section_type) + le32_bytes(e.section_size) + le32_bytes(e.link_id) + le32_bytes(
        e.header_size,
    ) + le32_bytes(e.ktss_size) + zeros(0x2c) + spec_encode_ktss(e.ktss) + zeros(
        entry_tail_pad(e) as nat,
    )
}

/// The entry's full padded extent on the wire.
pub open spec fn entry_enc_len(e: KtslEntryView) -> int {
    0x40 + align_up(spec_encode_ktss(e.ktss).len() as int, 0x40)
}

pub proof fn lemma_entry_enc_len(e: KtslEntryView)
    ensures
        spec_encode_entry(e).len() == entry_enc_len(e),
        entry_enc_len(e) % 0x40 == 0,
        entry_enc_len(e) >= 0x40,
{
    lemma_align_up(spec_encode_ktss(e.ktss).len() as int, 0x40);
    vstd::arithmetic::div_mod::lemma_mod_adds(
        0x40,
        align_up(spec_encode_ktss(e.ktss).len() as int, 0x40),
        0x40,
    );
}

#[verifier::opaque]
pub open spec fn spec_parse_entry(b: Seq<u8>, p: int) -> Result<(KtslEntryView, int), KtslError> {
    if p + 0x40 > b.len() {
        Err(KtslError::Truncated)
    } else {
        match spec_parse_ktss(b, p + 0x40) {
            Err(e) => Err(e),
            Ok((k, kend)) => {
                let end = p + align_up(kend - p, 0x40);
                if end > b.len() {
                    Err(KtslError::Truncated)
                } else {
                    Ok(
                        (
                            KtslEntryView {
                                section_type: le32_at(b, p),
                                section_size: le32_at(b, p + 4),
                                link_id: le32_at(b, p + 8),
                                header_size: le32_at(b, p + 12),
                                ktss_size: le32_at(b, p + 16),
                                ktss: k,
                            },
                            end,
                        ),
                    )
                }
            },
        }
    }
}

/// What a successfully parsed entry consumed is its encoded padded extent.
pub proof fn lemma_parse_entry_len(b: Seq<u8>, p: int, e: KtslEntryView, end: int)
    requires
        0 <= p,
        spec_parse_entry(b, p) == Ok::<(KtslEntryView, int), KtslError>((e, end)),
    ensures
        e.valid(),
        p + 0x40 <= end <= b.len(),
        end - p == entry_enc_len(e),
{
    reveal(spec_parse_entry);
    match spec_parse_ktss(b, p + 0x40) {
        Ok((k, kend)) => {
            lemma_parse_ktss_len(b, p + 0x40, k, kend);
            assert(kend - p == 0x40 + spec_encode_ktss(k).len());
            lemma_align_up_add_multiple(0x40, spec_encode_ktss(k).len() as int, 0x40);
            lemma_align_up(spec_encode_ktss(k).len() as int, 0x40);
        },
        Err(_) => {
            assert(false);
        },
    }
}

impl KtslEntry {
    /// Decode an entry at `p`: fixed header, embedded substream, padding up
    /// to the next 0x40 boundary relative to the entry start.
    pub fn decode(b: &Vec<u8>, p: usize) -> (r: Result<(KtslEntry, usize), KtslError>)
        requires
            p <= b.len(),
        ensures
            match r {
                Ok((e, end)) => spec_parse_entry(b@, p as int) == Ok::<
                    (KtslEntryView, int),
                    KtslError,
                >((e@, end as int)) && p + 0x40 <= end <= b.len(),
                Err(e) => spec_parse_entry(b@, p as int) == Err::<(KtslEntryView, int), KtslError>(
                    e,
                ),
            },
    {
        proof {
            reveal(spec_parse_entry);
        }
        let n = b.len();
        if n - p < 0x40 {
            return Err(KtslError::Truncated);
        }
        let (ktss, kend) = match Ktss::decode(b, p + 0x40) {
            Ok(ok) => ok,
            Err(e) => {
                return Err(e);
            },
        };
        let rem: usize = (kend - p) % 0x40;
        let pad: usize = if rem == 0 {
            0
        } else {
            0x40 - rem
        };
        proof {
            lemma_align_up(kend - p, 0x40);
            assert(kend - p + pad == align_up(kend - p, 0x40));
        }
        if pad > n - kend {
            return Err(KtslError::Truncated);
        }
        let end = kend + pad;
        let e = KtslEntry {
            section_type: read_u32_le(b, p),
            section_size: read_u32_le(b, p + 4),
            link_id: read_u32_le(b, p + 8),
            header_size: read_u32_le(b, p + 12),
            ktss_size: read_u32_le(b, p + 16),
            ktss,
        };
        proof {
            assert(e@ =~= (match spec_parse_entry(b@, p as int) {
                Ok((v, _)) => v,
                Err(_) => e@,
            }));
        }
        Ok((e, end))
    }

    /// Append the entry's encoding to `out`.
    pub fn encode_to(&self, out: &mut Vec<u8>)
        requires
            self@.valid(),
            spec_encode_ktss(self@.ktss).len() + 0x40 <= usize::MAX,
        ensures
            final(out)@ == old(out)@ + spec_encode_entry(self@),
    {
        let ghost base = out@;
        push_u32_le(out, self.section_type);
        push_u32_le(out, self.section_size);
        push_u32_le(out, self.link_id);
        push_u32_le(out, self.header_size);
        push_u32_le(out, self.ktss_size);
        push_zeros(out, 0x2c);
        let start = out.len();
        self.ktss.encode_to(out);
        let klen = out.len() - start;
        let pad = pad_to(klen, 0x40);
        push_zeros(out, pad);
        proof {
            assert(out@ =~= base + spec_encode_entry(self@));
        }
    }
}

/// Encoding a valid entry and parsing the bytes back yields the entry,
/// consuming exactly its padded extent.
#[verifier::rlimit(100)]
pub proof fn lemma_entry_encode_then_decode(b: Seq<u8>, p: int, e: KtslEntryView)
    requires
        0 <= p,
        e.valid(),
        p + spec_encode_entry(e).len() <= b.len(),
        b.subrange(p, p + spec_encode_entry(e).len() as int) == spec_encode_entry(e),
    ensures
        spec_parse_entry(b, p) == Ok::<(KtslEntryView, int), KtslError>((e, p + entry_enc_len(e))),
{
    reveal(spec_parse_entry);
    let enc = spec_encode_entry(e);
    lemma_entry_enc_len(e);
    let ek = spec_encode_ktss(e.ktss);
    let el = ek.len() as int;
    let big = enc.len() as int;
    lemma_align_up(el, 0x40);
    crate::align::lemma_align_up_add_multiple(0x40, el, 0x40);
    crate::bytes::lemma_subrange_within(b, p, enc, 0, 4);
    assert(enc.subrange(0, 4) =~= le32_bytes(e.section_type));
    crate::bytes::lemma_le32_at_of_subrange(b, p, e.section_type);
    crate::bytes::lemma_subrange_within(b, p, enc, 4, 8);
    assert(enc.subrange(4, 8) =~= le32_bytes(e.section_size));
    crate::bytes::lemma_le32_at_of_subrange(b, p + 4, e.section_size);
    crate::bytes::lemma_subrange_within(b, p, enc, 8, 12);
    assert(enc.subrange(8, 12) =~= le32_bytes(e.link_id));
    crate::bytes::lemma_le32_at_of_subrange(b, p + 8, e.link_id);
    crate::bytes::lemma_subrange_within(b, p, enc, 12, 16);
    assert(enc.subrange(12, 16) =~= le32_bytes(e.header_size));
    crate::bytes::lemma_le32_at_of_subrange(b, p + 12, e.header_size);
    crate::bytes::lemma_subrange_within(b, p, enc, 16, 20);
    assert(enc.subrange(16, 20) =~= le32_bytes(e.ktss_size));
    crate::bytes::lemma_le32_at_of_subrange(b, p + 16, e.ktss_size);
    crate::bytes::lemma_subrange_within(b, p, enc, 0x40, 0x40 + el);
    assert(enc.subrange(0x40, 0x40 + el) =~= ek);
    crate::ktss::lemma_ktss_encode_then_decode(b, p + 0x40, e.ktss);
    match spec_parse_entry(b, p) {
        Ok((e2, end2)) => {
            assert(e2 =~= e);
            assert(end2 == p + entry_enc_len(e));
        },
        Err(_) => {
            assert(false);
        },
    }
}

/// Encoding a run of valid entries back to back and scanning the bytes up
/// to exactly their total length yields the run.
pub proof fn lemma_entries_encode_then_decode(b: Seq<u8>, p: int, es: Seq<KtslEntryView>)
    requires
        0 <= p,
        forall|i: int| 0 <= i < es.len() ==> (#[trigger] es[i]).valid(),
        p + spec_encode_entries(es).len() <= b.len(),
        b.subrange(p, p + spec_encode_entries(es).len() as int) == spec_encode_entries(es),
    ensures
        spec_scan_entries(b, p, p + spec_encode_entries(es).len() as int) == Ok::<
            Seq<KtslEntryView>,
            KtslError,
        >(es),
    decreases es.len(),
{
    let enc = spec_encode_entries(es);
    let end = p + enc.len() as int;
    if es.len() == 0 {
        assert(enc.len() == 0);
        assert(es =~= Seq::<KtslEntryView>::empty());
    } else {
        let e0 = es[0];
        let rest = es.drop_first();
        let enc0 = spec_encode_entry(e0);
        let encr = spec_encode_entries(rest);
        assert(enc == enc0 + encr);
        lemma_entry_enc_len(e0);
        let l0 = enc0.len() as int;
        crate::bytes::lemma_subrange_within(b, p, enc, 0, l0);
        assert(enc.subrange(0, l0) =~= enc0);
        crate::bytes::lemma_subrange_within(b, p, enc, l0, enc.len() as int);
        assert(enc.subrange(l0, enc.len() as int) =~= encr);
        lemma_entry_encode_then_decode(b, p, e0);
        lemma_entries_encode_then_decode(b, p + l0, rest);
        assert(seq![e0] + rest =~= es);
    }
}

/// The filler regions an entry's decoder skips: the tail of the entry
/// header, the substream's two internal gaps, and the padding after the
/// substream up to the entry's 0x40 boundary. Re-encoding writes zeros
/// there, so byte-identity holds exactly when they were zero.
pub open spec fn entry_pads_zero(b: Seq<u8>, p: int, e: KtslEntryView) -> bool {
    let cml = e.ktss.channel_mapping.len() as int;
    let kend = p + 0x40 + spec_encode_ktss(e.ktss).len();
    &&& forall|j: int| p + 0x14 <= j < p + 0x40 ==> b[j] == 0
    &&& forall|j: int| p + 0x48 <= j < p + 0x60 ==> b[j] == 0
    &&& forall|j: int|
        p + 0x40 + 0x5c + cml <= j < p + 0x40 + align_up(0x5c + cml, 0x10) ==> b[j] == 0
    &&& forall|j: int| kend <= j < p + entry_enc_len(e) ==> b[j] == 0
}

/// A decoded entry re-encodes to exactly the bytes it was read from,
/// whenever the skipped filler bytes of those regions were zero.
#[verifier::spinoff_prover]
#[verifier::rlimit(100)]
pub proof fn lemma_entry_decode_then_encode(b: Seq<u8>, p: int, e: KtslEntryView, end: int)
    requires
        0 <= p,
        spec_parse_entry(b, p) == Ok::<(KtslEntryView, int), KtslError>((e, end)),
        entry_pads_zero(b, p, e),
    ensures
        e.valid(),
        p + 0x40 <= end <= b.len(),
        end - p == entry_enc_len(e),
        spec_encode_entry(e) == b.subrange(p, end),
{
    reveal(spec_parse_entry);
    lemma_parse_entry_len(b, p, e, end);
    lemma_entry_enc_len(e);
    match spec_parse_ktss(b, p + 0x40) {
        Ok((k, kend)) => {
            crate::ktss::lemma_parse_ktss_len(b, p + 0x40, k, kend);
            crate::ktss::lemma_ktss_decode_then_encode(b, p + 0x40, k, kend);
            crate::bytes::lemma_le32_bytes_at(b, p);
            crate::bytes::lemma_le32_bytes_at(b, p + 4);
            crate::bytes::lemma_le32_bytes_at(b, p + 8);
            crate::bytes::lemma_le32_bytes_at(b, p + 12);
            crate::bytes::lemma_le32_bytes_at(b, p + 16);
            assert(spec_encode_ktss(k) == b.subrange(p + 0x40, kend));
            assert(spec_encode_entry(e) =~= b.subrange(p, end));
        },
        Err(_) => {
            assert(false);
        },
    }
}

/// A scanned run of entries re-encodes to exactly the bytes it was read
/// from, whenever every entry's skipped filler regions were zero.
pub proof fn lemma_scan_decode_then_encode(b: Seq<u8>, p: int, end: int, es: Seq<KtslEntryView>)
    requires
        0 <= p <= b.len(),
        spec_scan_entries(b, p, end) == Ok::<Seq<KtslEntryView>, KtslError>(es),
        forall|i: int|
            0 <= i < es.len() ==> entry_pads_zero(
                b,
                p + entries_total_len(es.take(i)),
                #[trigger] es[i],
            ),
    ensures
        p <= end <= b.len(),
        spec_encode_entries(es) == b.subrange(p, end),
    decreases end - p,
{
    if p == end {
        assert(es =~= Seq::<KtslEntryView>::empty());
        assert(b.subrange(p, p) =~= Seq::<u8>::empty());
    } else {
        match spec_parse_entry(b, p) {
            Ok((e1, p2)) => {
                match spec_scan_entries(b, p2, end) {
                    Ok(rest) => {
                        assert(es == seq![e1] + rest);
                        assert(es[0] == e1);
                        assert(es.drop_first() =~= rest);
                        assert(es.take(0) =~= Seq::<KtslEntryView>::empty());
                        assert(entries_total_len(Seq::<KtslEntryView>::empty()) == 0);
                        assert(entry_pads_zero(b, p, e1));
                        lemma_entry_decode_then_encode(b, p, e1, p2);
                        assert forall|i: int|
                            0 <= i < rest.len() implies entry_pads_zero(
                            b,
                            p2 + entries_total_len(rest.take(i)),
                            #[trigger] rest[i],
                        ) by {
                            let t = es.take(i + 1);
                            assert(t[0] == e1);
                            assert(t.drop_first() =~= rest.take(i));
                            assert(entries_total_len(t) == entry_enc_len(e1)
                                + entries_total_len(rest.take(i)));
                            assert(es[i + 1] == rest[i]);
                            assert(entry_pads_zero(
                                b,
                                p + entries_total_len(es.take(i + 1)),
                                es[i + 1],
                            ));
                        }
                        lemma_scan_decode_then_encode(b, p2, end, rest);
                        assert(spec_encode_entries(es) == spec_encode_entry(e1)
                            + spec_encode_entries(rest));
                        assert(spec_encode_entry(e1) + spec_encode_entries(rest) =~= b.subrange(
                            p,
                            end,
                        ));
                    },
                    Err(_) => {
                        assert(false);
                    },
                }
            },
            Err(_) => {
                assert(false);
            },
        }
    }
}

/// Decoding a classic-revision archive and re-serializing it reproduces the
/// scanned bytes exactly — section order, opaque regions and frame byte
/// order included — whenever the skipped filler bytes were zero.
pub proof fn lemma_stbin_decode_then_encode(b: Seq<u8>, a: Ktsl2stbinView)
    requires
        spec_parse_stbin(b, false) == Ok::<Ktsl2stbinView, KtslError>(a),
        forall|j: int| 0x20 <= j < 0x40 ==> b[j] == 0,
        forall|i: int|
            0 <= i < a.entries.len() ==> entry_pads_zero(
                b,
                0x40 + entries_total_len(a.entries.take(i)),
                #[trigger] a.entries[i],
            ),
    ensures
        spec_encode_stbin(a) == b.subrange(0, a.header.decomp_size as int),
{
    match spec_parse_ktsr(b, false) {
        Ok((h, hend)) => {
            crate::header::lemma_ktsr_decode_then_encode(b, false, h, hend);
            lemma_scan_decode_then_encode(b, 0x40, a.header.decomp_size as int, a.entries);
            assert(spec_encode_ktsr(a.header) + spec_encode_entries(a.entries) =~= b.subrange(
                0,
                a.header.decomp_size as int,
            ));
        },
        Err(_) => {
            assert(false);
        },
    }
}

/// The encoding of a run of entries is as long as the sum of their padded
/// extents.
pub proof fn lemma_encode_entries_len(es: Seq<KtslEntryView>)
    ensures
        spec_encode_entries(es).len() == entries_total_len(es),
    decreases es.len(),
{
    if es.len() > 0 {
        lemma_entry_enc_len(es[0]);
        lemma_encode_entries_len(es.drop_first());
    }
}

/// A size-consistent entry's padded extent is exactly its declared
/// `section_size`.
pub proof fn lemma_consistent_entry_len(e: KtslEntryView)
    requires
        e.consistent(),
    ensures
        entry_enc_len(e) == e.section_size as int,
{
}

/// The shape the pack engine emits is self-describing: a valid
/// classic-revision archive whose `decomp_size` is the header plus the sum
/// of its entries' padded extents decodes from its own encoding back to
/// itself.
pub proof fn lemma_packed_archive_decodes(a: Ktsl2stbinView)
    requires
        a.valid(),
        a.header.enc_seed is None,
        a.header.decomp_size as int == 0x40 + entries_total_len(a.entries),
    ensures
        spec_parse_stbin(spec_encode_stbin(a), false) == Ok::<Ktsl2stbinView, KtslError>(a),
{
    lemma_encode_entries_len(a.entries);
    lemma_stbin_encode_then_decode(a);
}

/// Encoding a valid classic-revision archive whose `decomp_size` equals its
/// encoded length and decoding the bytes yields the archive back: the
/// section loop lands exactly on `decomp_size`.
pub proof fn lemma_stbin_encode_then_decode(a: Ktsl2stbinView)
    requires
        a.valid(),
        a.header.enc_seed is None,
        a.header.decomp_size as int == spec_encode_stbin(a).len(),
    ensures
        spec_parse_stbin(spec_encode_stbin(a), false) == Ok::<Ktsl2stbinView, KtslError>(a),
{
    let b = spec_encode_stbin(a);
    let hk = spec_encode_ktsr(a.header);
    let ents = spec_encode_entries(a.entries);
    assert(hk.len() == 0x40);
    assert(b.subrange(0, 0x40) =~= hk);
    crate::header::lemma_ktsr_encode_then_decode(b, a.header);
    assert(b.subrange(0x40, b.len() as int) =~= ents);
    lemma_entries_encode_then_decode(b, 0x40, a.entries);
    match spec_parse_stbin(b, false) {
        Ok(a2) => {
            assert(a2 =~= a);
        },
        Err(_) => {
            assert(false);
        },
    }
}

/// The audio archive: header and audio entries.
#[derive(Debug)]
pub struct Ktsl2stbin {
    pub header: Ktsr,
    pub entries: Vec<KtslEntry>,
}

#[verifier::ext_equal]
pub struct Ktsl2stbinView {
    pub header: KtsrView,
    pub entries: Seq<KtslEntryView>,
}

pub open spec fn entries_view(s: Seq<KtslEntry>) -> Seq<KtslEntryView> {
    s.map_values(|e: KtslEntry| e@)
}

impl View for Ktsl2stbin {
    type V = Ktsl2stbinView;

    open spec fn view(&self) -> Ktsl2stbinView {
        Ktsl2stbinView { header: self.header@, entries: entries_view(self.entries@) }
    }
}

impl Ktsl2stbinView {
    pub open spec fn valid(self) -> bool {
        &&& self.header.valid()
        &&& forall|i: int|
            0 <= i < self.entries.len() ==> (#[trigger] self.entries[i]).valid()
                && self.entries[i].bounded()
    }
}

/// Scan entries from `p` up to exactly `end`. Landing on `end` is the only
/// successful exit; passing it is `InconsistentTermination`.
pub open spec fn spec_scan_entries(b: Seq<u8>, p: int, end: int) -> Result<
    Seq<KtslEntryView>,
    KtslError,
>
    decreases end - p,
{
    if p == end {
        Ok(Seq::empty())
    } else if p > end {
        Err(KtslError::InconsistentTermination)
    } else {
        match spec_parse_entry(b, p) {
            Err(e) => Err(e),
            Ok((e1, p2)) => {
                if p2 <= p || p2 > end {
                    Err(KtslError::InconsistentTermination)
                } else {
                    match spec_scan_entries(b, p2, end) {
                        Ok(rest) => Ok(seq![e1] + rest),
                        Err(er) => Err(er),
                    }
                }
            },
        }
    }
}

/// Sum of the entries' padded extents.
pub open spec fn entries_total_len(es: Seq<KtslEntryView>) -> int
    decreases es.len(),
{
    if es.len() == 0 {
        0
    } else {
        entry_enc_len(es[0]) + entries_total_len(es.drop_first())
    }
}

/// Section-loop scanning terminates with the stream offset exactly equal to
/// the declared end: the decoded entries' padded extents tile the scanned
/// range completely, and every decoded entry is valid.
pub proof fn lemma_scan_exact(b: Seq<u8>, p: int, end: int, es: Seq<KtslEntryView>)
    requires
        0 <= p,
        spec_scan_entries(b, p, end) == Ok::<Seq<KtslEntryView>, KtslError>(es),
    ensures
        entries_total_len(es) == end - p,
        forall|i: int| 0 <= i < es.len() ==> (#[trigger] es[i]).valid(),
    decreases end - p,
{
    if p == end {
        assert(es =~= Seq::<KtslEntryView>::empty());
    } else {
        match spec_parse_entry(b, p) {
            Ok((e1, p2)) => {
                lemma_parse_entry_len(b, p, e1, p2);
                match spec_scan_entries(b, p2, end) {
                    Ok(rest) => {
                        lemma_scan_exact(b, p2, end, rest);
                        assert(es == seq![e1] + rest);
                        assert(es[0] == e1);
                        assert(es.drop_first() =~= rest);
                        assert(forall|i: int|
                            0 <= i < es.len() ==> (#[trigger] es[i]) == (seq![e1] + rest)[i]);
                    },
                    Err(_) => {
                        assert(false);
                    },
                }
            },
            Err(_) => {
                assert(false);
            },
        }
    }
}

/// One successful step of the scan.
pub proof fn lemma_scan_step_ok(b: Seq<u8>, p: int, end: int, e1: KtslEntryView, p2: int)
    requires
        p < end,
        spec_parse_entry(b, p) == Ok::<(KtslEntryView, int), KtslError>((e1, p2)),
        p < p2 <= end,
    ensures
        spec_scan_entries(b, p, end) == match spec_scan_entries(b, p2, end) {
            Ok(rest) => Ok::<Seq<KtslEntryView>, KtslError>(seq![e1] + rest),
            Err(e) => Err::<Seq<KtslEntryView>, KtslError>(e),
        },
{
}

/// A failed entry parse fails the scan with the same error.
pub proof fn lemma_scan_step_err(b: Seq<u8>, p: int, end: int, e: KtslError)
    requires
        p < end,
        spec_parse_entry(b, p) == Err::<(KtslEntryView, int), KtslError>(e),
    ensures
        spec_scan_entries(b, p, end) == Err::<Seq<KtslEntryView>, KtslError>(e),
{
}

/// An entry reaching past the declared end is corrupt size bookkeeping.
pub proof fn lemma_scan_step_overrun(b: Seq<u8>, p: int, end: int, e1: KtslEntryView, p2: int)
    requires
        p < end,
        spec_parse_entry(b, p) == Ok::<(KtslEntryView, int), KtslError>((e1, p2)),
        p2 > end,
    ensures
        spec_scan_entries(b, p, end) == Err::<Seq<KtslEntryView>, KtslError>(
            KtslError::InconsistentTermination,
        ),
{
}

pub open spec fn spec_parse_stbin(b: Seq<u8>, seeded: bool) -> Result<Ktsl2stbinView, KtslError> {
    match spec_parse_ktsr(b, seeded) {
        Err(e) => Err(e),
        Ok((h, _)) => match spec_scan_entries(b, 0x40, h.decomp_size as int) {
            Err(e) => Err(e),
            Ok(es) => Ok(Ktsl2stbinView { header: h, entries: es }),
        },
    }
}

pub open spec fn spec_encode_entries(es: Seq<KtslEntryView>) -> Seq<u8>
    decreases es.len(),
{
    if es.len() == 0 {
        Seq::empty()
    } else {
        spec_encode_entry(es[0]) + spec_encode_entries(es.drop_first())
    }
}

/// The archive's encoding: classic header, then the entries back to back.
pub open spec fn spec_encode_stbin(a: Ktsl2stbinView) -> Seq<u8> {
    spec_encode_ktsr(a.header) + spec_encode_entries(a.entries)
}

pub proof fn lemma_encode_entries_snoc(es: Seq<KtslEntryView>, i: int)
    requires
        0 <= i < es.len(),
    ensures
        spec_encode_entries(es.take(i + 1)) == spec_encode_entries(es.take(i))
            + spec_encode_entry(es[i]),
    decreases i,
{
    if i == 0 {
        assert(es.take(0) =~= Seq::<KtslEntryView>::empty());
        assert(es.take(1).drop_first() =~= Seq::<KtslEntryView>::empty());
        assert(es.take(1)[0] == es[0]);
        assert(spec_encode_entries(Seq::<KtslEntryView>::empty()) == Seq::<u8>::empty());
        assert(spec_encode_entries(es.take(1)) == spec_encode_entry(es[0]) + Seq::<u8>::empty());
        assert(spec_encode_entry(es[0]) + Seq::<u8>::empty() =~= Seq::<u8>::empty()
            + spec_encode_entry(es[0]));
    } else {
        let t = es.drop_first();
        lemma_encode_entries_snoc(t, i - 1);
        assert(es.take(i + 1).drop_first() =~= t.take(i));
        assert(es.take(i).drop_first() =~= t.take(i - 1));
        assert(es.take(i + 1)[0] == es[0]);
        assert(es.take(i)[0] == es[0]);
        assert(t[i - 1] == es[i]);
        assert(spec_encode_entry(es[0]) + (spec_encode_entries(t.take(i - 1)) + spec_encode_entry(
            t[i - 1],
        )) =~= (spec_encode_entry(es[0]) + spec_encode_entries(t.take(i - 1)))
            + spec_encode_entry(t[i - 1]));
    }
}

impl Ktsl2stbin {
    /// A fresh, empty audio archive.
    pub fn new() -> (r: Ktsl2stbin)
        ensures
            r@.header == crate::header::default_ktsr(),
            r@.entries.len() == 0,
            r@.valid(),
    {
        Ktsl2stbin { header: Ktsr::new(), entries: Vec::new() }
    }

    /// Decode a whole archive: header, then entries scanned up to exactly
    /// `decomp_size`.
    #[verifier::rlimit(100)]
    pub fn decode(b: &Vec<u8>, seeded: bool) -> (r: Result<Ktsl2stbin, KtslError>)
        ensures
            match r {
                Ok(a) => spec_parse_stbin(b@, seeded) == Ok::<Ktsl2stbinView, KtslError>(a@)
                    && forall|i: int|
                    0 <= i < a@.entries.len() ==> (#[trigger] a@.entries[i]).valid(),
                Err(e) => spec_parse_stbin(b@, seeded) == Err::<Ktsl2stbinView, KtslError>(e),
            },
    {
        let n = b.len();
        let (header, hend) = match Ktsr::decode(b, seeded) {
            Ok(ok) => ok,
            Err(e) => {
                return Err(e);
            },
        };
        let ghost hendi = hend as int;
        let end: usize = header.decomp_size as usize;
        let ghost endi = header@.decomp_size as int;
        let mut entries: Vec<KtslEntry> = Vec::new();
        let mut pos: usize = 0x40;
        if pos > end {
            return Err(KtslError::InconsistentTermination);
        }
        while pos != end
            invariant
                0x40 <= pos <= end,
                end == endi,
                n == b.len(),
                spec_parse_ktsr(b@, seeded) == Ok::<(KtsrView, int), KtslError>(
                    (header@, hendi),
                ),
                endi == header@.decomp_size as int,
                match spec_scan_entries(b@, pos as int, endi) {
                    Ok(rest) => spec_scan_entries(b@, 0x40, endi) == Ok::<
                        Seq<KtslEntryView>,
                        KtslError,
                    >(entries_view(entries@) + rest),
                    Err(e) => spec_scan_entries(b@, 0x40, endi) == Err::<
                        Seq<KtslEntryView>,
                        KtslError,
                    >(e),
                },
            decreases end - pos,
        {
            if pos > n {
                proof {
                    reveal(spec_parse_entry);
                    assert(spec_parse_entry(b@, pos as int) == Err::<
                        (KtslEntryView, int),
                        KtslError,
                    >(KtslError::Truncated));
                    lemma_scan_step_err(b@, pos as int, endi, KtslError::Truncated);
                }
                return Err(KtslError::Truncated);
            }
            let (e1, p2) = match KtslEntry::decode(b, pos) {
                Ok(ok) => ok,
                Err(er) => {
                    proof {
                        lemma_scan_step_err(b@, pos as int, endi, er);
                    }
                    return Err(er);
                },
            };
            if p2 > end {
                proof {
                    lemma_scan_step_overrun(b@, pos as int, endi, e1@, p2 as int);
                }
                return Err(KtslError::InconsistentTermination);
            }
            let ghost prev_entries = entries@;
            let ghost prev_pos = pos as int;
            entries.push(e1);
            pos = p2;
            proof {
                lemma_scan_step_ok(b@, prev_pos, endi, e1@, pos as int);
                assert(entries_view(entries@) =~= entries_view(prev_entries) + seq![e1@]);
                match spec_scan_entries(b@, pos as int, endi) {
                    Ok(rest) => {
                        assert(entries_view(prev_entries) + (seq![e1@] + rest) =~= entries_view(
                            entries@,
                        ) + rest);
                    },
                    Err(er) => {},
                }
            }
        }
        proof {
            assert(entries_view(entries@) + Seq::<KtslEntryView>::empty() =~= entries_view(
                entries@,
            ));
            lemma_scan_exact(b@, 0x40, endi, entries_view(entries@));
        }
        let a = Ktsl2stbin { header, entries };
        proof {
            assert(a@ =~= (match spec_parse_stbin(b@, seeded) {
                Ok(v) => v,
                Err(_) => a@,
            }));
        }
        Ok(a)
    }

    /// Encode the whole archive.
    pub fn encode(&self) -> (r: Vec<u8>)
        requires
            self@.valid(),
        ensures
            r@ == spec_encode_stbin(self@),
    {
        let mut out: Vec<u8> = Vec::new();
        self.header.encode_to(&mut out);
        let ghost hb = spec_encode_ktsr(self@.header);
        proof {
            assert(out@ =~= Seq::<u8>::empty() + hb);
        }
        let mut i: usize = 0;
        while i < self.entries.len()
            invariant
                i <= self.entries@.len(),
                self@.valid(),
                out@ =~= hb + spec_encode_entries(entries_view(self.entries@).take(i as int)),
            decreases self.entries@.len() - i,
        {
            proof {
                assert(self@.entries[i as int].valid() && self@.entries[i as int].bounded());
            }
            self.entries[i].encode_to(&mut out);
            proof {
                lemma_encode_entries_snoc(entries_view(self.entries@), i as int);
                assert(entries_view(self.entries@)[i as int] == self.entries@[i as int]@);
                assert(out@ =~= hb + spec_encode_entries(
                    entries_view(self.entries@).take(i + 1),
                ));
            }
            i = i + 1;
        }
        proof {
            assert(entries_view(self.entries@).take(self.entries@.len() as int) =~= entries_view(
                self.entries@,
            ));
            assert(out@ =~= spec_encode_stbin(self@));
        }
        out
    }
}

} // verus!
