//! The pack/unpack engine. Unpacking writes every audio entry's substream
//! out under its link id's hexadecimal name, each entry independent of the
//! others. Packing is a two-pass link resolution: extents can be computed
//! per entry, but offsets are an inherently sequential left fold over the
//! ordered entry list, because each offset is the cumulative extent of all
//! its predecessors. In companion-linked mode the metadata archive's records
//! are patched in place, in their original order, so each record keeps
//! corresponding 1:1 with its audio entry.

use vstd::multiset::Multiset;
use vstd::prelude::*;

use crate::align::align_up;
use crate::align::lemma_align_up;
use crate::align::pad_to32;
use crate::asbin::lemma_companions_snoc;
use crate::asbin::lemma_companions_split;
use crate::asbin::sections_view;
use crate::asbin::spec_companions;
use crate::asbin::Ktsl2asbin;
use crate::errors::KtslError;
use crate::header::KtsrView;
use crate::header::KTSL_HEADER_SIZE;
use crate::ktss::spec_encode_ktss;
use crate::ktss::spec_parse_ktss;
use crate::ktss::lemma_ktss_encode_then_decode;
use crate::ktss::Ktss;
use crate::ktss::KtssView;
use crate::names::ktss_file_name;
use crate::names::spec_hex_name;
use crate::sections::KtssCompanionSectionView;
use crate::sections::Section;
use crate::sections::SectionView;
use crate::stbin::entries_view;
use crate::stbin::KtslEntry;
use crate::stbin::KtslEntryView;
use crate::stbin::Ktsl2stbin;
use crate::stbin::KTSS_SECTION_MAGIC;

verus! {

/// Loop-start sentinel stored in companion records that reference an audio
/// substream without a loop.
pub const NO_LOOP_SENTINEL: u32 = 0xFFFFFFFF;

/// The loop start a companion record stores for a given audio loop start.
pub open spec fn spec_loop_to_companion(audio_ls: u32) -> u32 {
    if audio_ls == 0 {
        0xFFFFFFFFu32
    } else {
        audio_ls
    }
}

/// The audio loop start a companion record's field denotes.
pub open spec fn spec_loop_to_audio(comp_ls: u32) -> u32 {
    if comp_ls == 0xFFFFFFFF {
        0u32
    } else {
        comp_ls
    }
}

pub fn loop_to_companion(audio_ls: u32) -> (r: u32)
    ensures
        r == spec_loop_to_companion(audio_ls),
{
    if audio_ls == 0 {
        NO_LOOP_SENTINEL
    } else {
        audio_ls
    }
}

pub fn loop_to_audio(comp_ls: u32) -> (r: u32)
    ensures
        r == spec_loop_to_audio(comp_ls),
{
    if comp_ls == NO_LOOP_SENTINEL {
        0
    } else {
        comp_ls
    }
}

/// Loop sentinel law: the companion record stores the sentinel exactly for
/// audio substreams whose loop start is zero, and the mapping inverts. The
/// one loop start left out is the sentinel value itself: an audio loop start
/// of 0xFFFFFFFF also maps to the sentinel, and from there back to zero.
pub proof fn lemma_loop_sentinel(audio_ls: u32)
    requires
        audio_ls != 0xFFFFFFFF,
    ensures
        (spec_loop_to_companion(audio_ls) == 0xFFFFFFFF) <==> (audio_ls == 0),
        spec_loop_to_audio(spec_loop_to_companion(audio_ls)) == audio_ls,
{
}

/// An entry's padded extent on the wire: its declared substream size plus
/// the fixed entry header, rounded up to the next 0x40 boundary.
pub open spec fn extent_of(k: KtssView) -> int {
    0x40 + align_up(k.section_size as int, 0x40)
}

/// Every produced entry's extent is a multiple of 0x40.
pub proof fn lemma_extent_aligned(k: KtssView)
    ensures
        extent_of(k) % 0x40 == 0,
        0x40 + k.section_size as int <= extent_of(k) < 0x80 + k.section_size as int,
{
    lemma_align_up(k.section_size as int, 0x40);
    vstd::arithmetic::div_mod::lemma_mod_adds(
        0x40,
        align_up(k.section_size as int, 0x40),
        0x40,
    );
}

/// Sum of padded extents of a run of substreams.
pub open spec fn total_extent(ks: Seq<KtssView>) -> int
    decreases ks.len(),
{
    if ks.len() == 0 {
        0
    } else {
        extent_of(ks[0]) + total_extent(ks.drop_first())
    }
}

/// Offset of the `i`-th entry's own fixed header within the produced
/// archive: the header, then the cumulative extent of all prior entries.
pub open spec fn offset_at(ks: Seq<KtssView>, i: int) -> int {
    0x40 + total_extent(ks.take(i))
}

pub proof fn lemma_total_extent_snoc(ks: Seq<KtssView>, i: int)
    requires
        0 <= i < ks.len(),
    ensures
        total_extent(ks.take(i + 1)) == total_extent(ks.take(i)) + extent_of(ks[i]),
    decreases i,
{
    if i == 0 {
        assert(ks.take(0) =~= Seq::<KtssView>::empty());
        assert(ks.take(1).drop_first() =~= Seq::<KtssView>::empty());
        assert(ks.take(1)[0] == ks[0]);
        assert(total_extent(Seq::<KtssView>::empty()) == 0);
    } else {
        let t = ks.drop_first();
        lemma_total_extent_snoc(t, i - 1);
        assert(ks.take(i + 1).drop_first() =~= t.take(i));
        assert(ks.take(i).drop_first() =~= t.take(i - 1));
        assert(ks.take(i + 1)[0] == ks[0]);
        assert(ks.take(i)[0] == ks[0]);
        assert(t[i - 1] == ks[i]);
    }
}

pub proof fn lemma_total_extent_nonneg(ks: Seq<KtssView>)
    ensures
        total_extent(ks) >= 0,
    decreases ks.len(),
{
    if ks.len() > 0 {
        lemma_align_up(ks[0].section_size as int, 0x40);
        lemma_total_extent_nonneg(ks.drop_first());
    }
}

/// A prefix of the entry run never outweighs the whole.
pub proof fn lemma_total_extent_prefix(ks: Seq<KtssView>, m: int)
    requires
        0 <= m <= ks.len(),
    ensures
        total_extent(ks.take(m)) <= total_extent(ks),
        total_extent(ks.take(m)) >= 0,
    decreases m,
{
    lemma_total_extent_nonneg(ks.take(m));
    if m == 0 {
        assert(ks.take(0) =~= Seq::<KtssView>::empty());
        lemma_total_extent_nonneg(ks);
    } else {
        let t = ks.drop_first();
        lemma_total_extent_prefix(t, m - 1);
        assert(ks.take(m).drop_first() =~= t.take(m - 1));
        assert(ks.take(m)[0] == ks[0]);
    }
}

/// The audio entry the pack engine builds for one substream.
pub open spec fn packed_entry(link_id: u32, k: KtssView) -> KtslEntryView {
    KtslEntryView {
        section_type: KTSS_SECTION_MAGIC,
        section_size: extent_of(k) as u32,
        link_id,
        header_size: KTSL_HEADER_SIZE,
        ktss_size: k.section_size,
        ktss: k,
    }
}

/// The companion record after the pack engine has resolved it: offset of
/// its entry's own fixed header, the substream's unpadded size, the loop
/// sentinel substitution, and the sample fields copied from the audio
/// header. Everything else is preserved.
pub open spec fn patched_companion(
    c: KtssCompanionSectionView,
    k: KtssView,
    off: int,
) -> KtssCompanionSectionView {
    KtssCompanionSectionView {
        ktss_offset: off as u32,
        ktss_size: k.section_size,
        loop_start: spec_loop_to_companion(k.loop_start),
        sample_count: k.sample_count,
        sample_rate: k.sample_rate,
        ..c
    }
}

pub open spec fn ktss_seq(v: Seq<Ktss>) -> Seq<KtssView> {
    v.map_values(|k: Ktss| k@)
}

pub open spec fn files_ktss(v: Seq<(u32, Ktss)>) -> Seq<KtssView> {
    v.map_values(|f: (u32, Ktss)| f.1@)
}

impl Ktsl2stbin {
    /// Write out every entry: for each, independently, the embedded
    /// substream's bytes verbatim, under the entry's link id formatted as
    /// eight lowercase hexadecimal digits with the fixed extension. No
    /// cross-entry state; the order mirrors the archive's.
    pub fn unpack(&self) -> (r: Vec<(String, Vec<u8>)>)
        requires
            forall|i: int| 0 <= i < self@.entries.len() ==> (#[trigger] self@.entries[i]).valid(),
        ensures
            r@.len() == self@.entries.len(),
            forall|i: int|
                0 <= i < r@.len() ==> (#[trigger] r@[i]).0@ == spec_hex_name(
                    self@.entries[i].link_id,
                ) && r@[i].1@ == spec_encode_ktss(self@.entries[i].ktss),
    {
        let mut out: Vec<(String, Vec<u8>)> = Vec::new();
        let mut i: usize = 0;
        while i < self.entries.len()
            invariant
                i <= self.entries@.len(),
                forall|j: int|
                    0 <= j < self@.entries.len() ==> (#[trigger] self@.entries[j]).valid(),
                out@.len() == i,
                forall|j: int|
                    0 <= j < i ==> (#[trigger] out@[j]).0@ == spec_hex_name(
                        self@.entries[j].link_id,
                    ) && out@[j].1@ == spec_encode_ktss(self@.entries[j].ktss),
            decreases self.entries@.len() - i,
        {
            let e = &self.entries[i];
            proof {
                assert(self@.entries[i as int] == self.entries@[i as int]@);
            }
            let name = ktss_file_name(e.link_id);
            let bytes = e.ktss.encode();
            out.push((name, bytes));
            i = i + 1;
        }
        out
    }

    /// Directory-mode pack: build the archive from (link id, substream)
    /// pairs in the given order — the emitted order is part of the output's
    /// observable layout, so callers hand the list in a deterministic
    /// order, such as sorted by link id. Each entry gets its padded extent
    /// and the running offset; finally both header size fields are set to
    /// the accumulated total.
    pub fn pack_dir(&mut self, files: Vec<(u32, Ktss)>)
        requires
            old(self)@.entries.len() == 0,
            forall|i: int| 0 <= i < files@.len() ==> (#[trigger] files@[i].1@).valid(),
            0x40 + total_extent(files_ktss(files@)) <= u32::MAX,
        ensures
            final(self)@.entries.len() == files@.len(),
            forall|i: int|
                0 <= i < files@.len() ==> final(self)@.entries[i] == packed_entry(
                    (#[trigger] files@[i]).0,
                    files@[i].1@,
                ),
            final(self)@.header == (KtsrView {
                decomp_size: (0x40 + total_extent(files_ktss(files@))) as u32,
                comp_size: (0x40 + total_extent(files_ktss(files@))) as u32,
                ..old(self)@.header
            }),
    {
        let ghost orig = files@;
        let ghost ks = files_ktss(orig);
        let mut files = files;
        let mut offset: u32 = 0x40;
        let mut i: usize = 0;
        proof {
            assert(files.len() == orig.len());
            assert(ks.take(0) =~= Seq::<KtssView>::empty());
            assert(files@ =~= orig.skip(0));
            assert(entries_view(self.entries@) =~= Seq::<KtslEntryView>::empty());
        }
        while files.len() > 0
            invariant
                orig.len() <= usize::MAX,
                i + files@.len() == orig.len(),
                files@ =~= orig.skip(i as int),
                ks == files_ktss(orig),
                forall|j: int| 0 <= j < orig.len() ==> (#[trigger] orig[j].1@).valid(),
                0x40 + total_extent(ks) <= u32::MAX,
                offset == offset_at(ks, i as int),
                entries_view(self.entries@) =~= Seq::new(
                    i as nat,
                    |j: int| packed_entry(orig[j].0, orig[j].1@),
                ),
                self@.header == old(self)@.header,
            decreases files@.len(),
        {
            proof {
                assert(orig.skip(i as int)[0] == orig[i as int]);
                lemma_total_extent_snoc(ks, i as int);
                lemma_total_extent_prefix(ks, i + 1);
                assert(ks[i as int] == orig[i as int].1@);
                lemma_extent_aligned(ks[i as int]);
            }
            let (lid, a) = files.remove(0);
            let ss = a.section_size;
            let pad = pad_to32(ss, 0x40);
            let extent = 0x40 + ss + pad;
            let entry = KtslEntry {
                section_type: KTSS_SECTION_MAGIC,
                section_size: extent,
                link_id: lid,
                header_size: KTSL_HEADER_SIZE,
                ktss_size: ss,
                ktss: a,
            };
            let ghost prev_entries = self.entries@;
            self.entries.push(entry);
            offset = offset + extent;
            i = i + 1;
            proof {
                assert(files@ =~= orig.skip(i as int));
                assert(entry@ =~= packed_entry(orig[i - 1].0, orig[i - 1].1@));
                assert(entries_view(self.entries@) =~= entries_view(prev_entries) + seq![entry@]);
                assert(entries_view(self.entries@) =~= Seq::new(
                    i as nat,
                    |j: int| packed_entry(orig[j].0, orig[j].1@),
                ));
            }
        }
        proof {
            assert(ks.take(i as int) =~= ks);
        }
        self.header.decomp_size = offset;
        self.header.comp_size = offset;
    }

    /// Companion-linked pack: build the audio archive from one substream
    /// per companion record of the metadata archive, strictly in record
    /// order, and patch each record in place with its entry's resolved
    /// placement: the offset of the entry's own fixed header, the unpadded
    /// substream size, the loop sentinel substitution, and the sample
    /// fields of the audio header. Every other section, and every other
    /// field, is preserved; finally the produced archive's header sizes are
    /// set to the accumulated total. Callers hand exactly one substream per
    /// record — a record whose audio file is missing fails the whole run
    /// before this function is reached.
    #[verifier::rlimit(100)]
    pub fn pack(&mut self, asbin: &mut Ktsl2asbin, audios: Vec<Ktss>)
        requires
            old(self)@.entries.len() == 0,
            audios@.len() == spec_companions(old(asbin)@.entries).len(),
            forall|i: int| 0 <= i < audios@.len() ==> (#[trigger] audios@[i]@).valid(),
            0x40 + total_extent(ktss_seq(audios@)) <= u32::MAX,
        ensures
            final(self)@.entries.len() == audios@.len(),
            forall|i: int|
                0 <= i < audios@.len() ==> final(self)@.entries[i] == packed_entry(
                    spec_companions(old(asbin)@.entries)[i].link_id,
                    (#[trigger] audios@[i])@,
                ),
            final(self)@.header == (KtsrView {
                decomp_size: (0x40 + total_extent(ktss_seq(audios@))) as u32,
                comp_size: (0x40 + total_extent(ktss_seq(audios@))) as u32,
                ..old(self)@.header
            }),
            final(asbin)@.header == old(asbin)@.header,
            final(asbin)@.entries.len() == old(asbin)@.entries.len(),
            forall|j: int|
                0 <= j < old(asbin)@.entries.len() && !((#[trigger] old(asbin)@.entries[j]) is Adpcm)
                    ==> final(asbin)@.entries[j] == old(asbin)@.entries[j],
            forall|j: int|
                0 <= j < old(asbin)@.entries.len() ==> ((#[trigger] final(asbin)@.entries[j]) is Adpcm
                    <==> old(asbin)@.entries[j] is Adpcm),
            spec_companions(final(asbin)@.entries) == Seq::new(
                audios@.len(),
                |i: int|
                    patched_companion(
                        spec_companions(old(asbin)@.entries)[i],
                        ktss_seq(audios@)[i],
                        offset_at(ktss_seq(audios@), i),
                    ),
            ),
    {
        let ghost oldes = old(asbin)@.entries;
        let ghost cs = spec_companions(oldes);
        let ghost orig = audios@;
        let ghost ks = ktss_seq(orig);
        let mut audios = audios;
        let mut offset: u32 = 0x40;
        let mut ai: usize = 0;
        let mut j: usize = 0;
        proof {
            assert(audios.len() == orig.len());
            assert(asbin.entries.len() == oldes.len());
            assert(ks.take(0) =~= Seq::<KtssView>::empty());
            assert(audios@ =~= orig.skip(0));
            assert(entries_view(self.entries@) =~= Seq::<KtslEntryView>::empty());
            assert(sections_view(asbin.entries@).take(0) =~= Seq::<SectionView>::empty());
            assert(spec_companions(Seq::<SectionView>::empty()) == Seq::<
                KtssCompanionSectionView,
            >::empty());
            assert(cs.take(0) =~= Seq::<KtssCompanionSectionView>::empty());
            assert(Seq::new(0, |i: int| patched_companion(cs[i], ks[i], offset_at(ks, i))) =~= Seq::<
                KtssCompanionSectionView,
            >::empty());
        }
        while j < asbin.entries.len()
            invariant
                oldes.len() <= usize::MAX,
                orig.len() <= usize::MAX,
                j <= asbin.entries@.len(),
                asbin.entries@.len() == oldes.len(),
                ai <= cs.len(),
                orig.len() == cs.len(),
                cs == spec_companions(oldes),
                ks == ktss_seq(orig),
                forall|ii: int| 0 <= ii < orig.len() ==> (#[trigger] orig[ii]@).valid(),
                0x40 + total_extent(ks) <= u32::MAX,
                audios@ =~= orig.skip(ai as int),
                offset == offset_at(ks, ai as int),
                asbin@.header == old(asbin)@.header,
                self@.header == old(self)@.header,
                forall|jj: int|
                    j <= jj < oldes.len() ==> sections_view(asbin.entries@)[jj]
                        == #[trigger] oldes[jj],
                forall|jj: int|
                    0 <= jj < j && !((#[trigger] oldes[jj]) is Adpcm) ==> sections_view(
                        asbin.entries@,
                    )[jj] == oldes[jj],
                forall|jj: int|
                    0 <= jj < oldes.len() ==> ((#[trigger] sections_view(
                        asbin.entries@,
                    )[jj]) is Adpcm <==> oldes[jj] is Adpcm),
                spec_companions(oldes.take(j as int)) =~= cs.take(ai as int),
                spec_companions(sections_view(asbin.entries@).take(j as int)) =~= Seq::new(
                    ai as nat,
                    |i: int| patched_companion(cs[i], ks[i], offset_at(ks, i)),
                ),
                entries_view(self.entries@) =~= Seq::new(
                    ai as nat,
                    |i: int| packed_entry(cs[i].link_id, ks[i]),
                ),
            decreases asbin.entries@.len() - j,
        {
            let ghost prev_cur = sections_view(asbin.entries@);
            let ghost prev_ai = ai as int;
            let ghost prev_offset = offset;
            let ghost prev_entries = self.entries@;
            proof {
                // if the j-th section is a companion, it is the ai-th one,
                // and a substream is still available for it
                lemma_companions_snoc(oldes, j as int);
                lemma_companions_split(oldes, j + 1);
                if oldes[j as int] is Adpcm {
                    assert(spec_companions(oldes.take(j + 1)) =~= cs.take(prev_ai) + seq![
                        oldes[j as int]->Adpcm_0,
                    ]);
                    assert(cs =~= spec_companions(oldes.take(j + 1)) + spec_companions(
                        oldes.skip(j + 1),
                    ));
                    assert(ai < cs.len());
                    assert(cs[prev_ai] == oldes[j as int]->Adpcm_0);
                    assert(orig.skip(prev_ai)[0] == orig[prev_ai]);
                    assert(audios@.len() > 0);
                    lemma_total_extent_snoc(ks, prev_ai);
                    lemma_total_extent_prefix(ks, prev_ai + 1);
                    assert(ks[prev_ai] == orig[prev_ai]@);
                    lemma_extent_aligned(ks[prev_ai]);
                }
            }
            match &mut asbin.entries[j] {
                Section::Adpcm(c) => {
                    let a = audios.remove(0);
                    let ss = a.section_size;
                    let pad = pad_to32(ss, 0x40);
                    let extent = 0x40 + ss + pad;
                    c.ktss_size = ss;
                    c.loop_start = if a.loop_start == 0 {
                        0xFFFFFFFF
                    } else {
                        a.loop_start
                    };
                    c.sample_count = a.sample_count;
                    c.sample_rate = a.sample_rate;
                    c.ktss_offset = offset;
                    let entry = KtslEntry {
                        section_type: KTSS_SECTION_MAGIC,
                        section_size: extent,
                        link_id: c.link_id,
                        header_size: KTSL_HEADER_SIZE,
                        ktss_size: ss,
                        ktss: a,
                    };
                    self.entries.push(entry);
                    offset = offset + extent;
                    ai = ai + 1;
                },
                _ => {},
            }
            j = j + 1;
            proof {
                let cur = sections_view(asbin.entries@);
                let jp = j - 1;
                assert(cur.take(jp) =~= prev_cur.take(jp));
                lemma_companions_snoc(cur, jp);
                lemma_companions_snoc(oldes, jp);
                if oldes[jp] is Adpcm {
                    assert(audios@ =~= orig.skip(ai as int));
                    assert(cur[jp] is Adpcm);
                    let cnew = cur[jp]->Adpcm_0;
                    assert(cnew =~= patched_companion(
                        cs[prev_ai],
                        ks[prev_ai],
                        offset_at(ks, prev_ai),
                    ));
                    assert(spec_companions(cur.take(j as int)) =~= Seq::new(
                        (prev_ai + 1) as nat,
                        |i: int| patched_companion(cs[i], ks[i], offset_at(ks, i)),
                    ));
                    assert(spec_companions(oldes.take(j as int)) =~= cs.take(ai as int));
                    assert(entries_view(self.entries@) =~= entries_view(prev_entries) + seq![
                        self.entries@[prev_ai]@,
                    ]);
                    assert(self.entries@[prev_ai]@ =~= packed_entry(
                        cs[prev_ai].link_id,
                        ks[prev_ai],
                    ));
                    assert(entries_view(self.entries@) =~= Seq::new(
                        ai as nat,
                        |i: int| packed_entry(cs[i].link_id, ks[i]),
                    ));
                } else {
                    assert(cur[jp] == oldes[jp]);
                    assert(spec_companions(cur.take(j as int)) =~= spec_companions(
                        cur.take(jp),
                    ));
                    assert(spec_companions(oldes.take(j as int)) =~= spec_companions(
                        oldes.take(jp),
                    ));
                }
            }
        }
        proof {
            assert(sections_view(asbin.entries@).take(oldes.len() as int) =~= sections_view(
                asbin.entries@,
            ));
            assert(oldes.take(oldes.len() as int) =~= oldes);
            assert(cs.take(cs.len() as int) =~= cs);
            assert(ai == cs.len());
            assert(ks.take(ai as int) =~= ks);
        }
        self.header.decomp_size = offset;
        self.header.comp_size = offset;
    }
}

/// Order directory files by link id. The emitted order of a directory-mode
/// pack is part of the output's observable layout, so it must be
/// deterministic — sorted by link id — and never left to incidental
/// directory traversal order.
pub fn sort_by_link_id(files: Vec<(u32, Ktss)>) -> (r: Vec<(u32, Ktss)>)
    ensures
        r@.len() == files@.len(),
        forall|a: int, b: int|
            0 <= a < b < r@.len() ==> (#[trigger] r@[a]).0 <= (#[trigger] r@[b]).0,
        r@.to_multiset() == files@.to_multiset(),
{
    broadcast use vstd::seq_lib::group_to_multiset_ensures;
    broadcast use vstd::multiset::group_multiset_axioms;

    let ghost orig = files@;
    let mut rest = files;
    let mut out: Vec<(u32, Ktss)> = Vec::new();
    proof {
        assert(out@.to_multiset() =~= Multiset::<(u32, Ktss)>::empty());
        assert(out@.to_multiset().add(rest@.to_multiset()) =~= orig.to_multiset());
    }
    while rest.len() > 0
        invariant
            out@.len() + rest@.len() == orig.len(),
            forall|a: int, b: int|
                0 <= a < b < out@.len() ==> (#[trigger] out@[a]).0 <= (#[trigger] out@[b]).0,
            forall|a: int, b: int|
                0 <= a < out@.len() && 0 <= b < rest@.len() ==> (#[trigger] out@[a]).0
                    <= (#[trigger] rest@[b]).0,
            out@.to_multiset().add(rest@.to_multiset()) == orig.to_multiset(),
        decreases rest@.len(),
    {
        let mut m: usize = 0;
        let mut q: usize = 1;
        while q < rest.len()
            invariant
                m < q <= rest@.len(),
                rest@.len() > 0,
                forall|t: int| 0 <= t < q ==> (#[trigger] rest@[t]).0 >= rest@[m as int].0,
            decreases rest@.len() - q,
        {
            if rest[q].0 < rest[m].0 {
                m = q;
            }
            q = q + 1;
        }
        let ghost prev_rest = rest@;
        let ghost prev_out = out@;
        let x = rest.remove(m);
        out.push(x);
        proof {
            prev_rest.to_multiset_ensures();
            prev_out.to_multiset_ensures();
            assert(rest@ == prev_rest.remove(m as int));
            assert(out@ == prev_out.push(x));
            assert(prev_rest[m as int] == x);
            assert(prev_rest.contains(x));
            assert(prev_out.push(x).to_multiset() == prev_out.to_multiset().insert(x));
            assert(prev_rest.remove(m as int).to_multiset() == prev_rest.to_multiset().remove(x));
            assert(out@.to_multiset() == prev_out.to_multiset().insert(x));
            assert(rest@.to_multiset() == prev_rest.to_multiset().remove(x));
            assert(out@.to_multiset().add(rest@.to_multiset()) =~= prev_out.to_multiset().add(
                prev_rest.to_multiset(),
            ));
            assert(forall|b: int|
                0 <= b < rest@.len() ==> (#[trigger] rest@[b]) == (if b < m as int {
                    prev_rest[b]
                } else {
                    prev_rest[b + 1]
                }));
        }
    }
    out
}

/// Unpack→directory-pack round trip. Unpacking writes each entry's
/// substream encoding verbatim; parsing those bytes back yields the very
/// substream (first clause), and rebuilding an entry from its link id and
/// substream reproduces the entry exactly, padded extent included (second
/// clause). So packing the decoded unpack output of an archive whose
/// declared sizes agree with its substreams reproduces its entries
/// byte-identically; only the header totals are recomputed, not copied.
pub proof fn lemma_unpack_pack_roundtrip(es: Seq<KtslEntryView>)
    requires
        forall|i: int| 0 <= i < es.len() ==> (#[trigger] es[i]).valid(),
        forall|i: int| 0 <= i < es.len() ==> (#[trigger] es[i]).consistent(),
    ensures
        forall|i: int|
            0 <= i < es.len() ==> spec_parse_ktss(
                spec_encode_ktss((#[trigger] es[i]).ktss),
                0,
            ) == Ok::<(KtssView, int), KtslError>(
                (es[i].ktss, spec_encode_ktss(es[i].ktss).len() as int),
            ),
        forall|i: int|
            0 <= i < es.len() ==> packed_entry((#[trigger] es[i]).link_id, es[i].ktss) == es[i],
{
    assert forall|i: int| 0 <= i < es.len() implies spec_parse_ktss(
        spec_encode_ktss((#[trigger] es[i]).ktss),
        0,
    ) == Ok::<(KtssView, int), KtslError>(
        (es[i].ktss, spec_encode_ktss(es[i].ktss).len() as int),
    ) by {
        let enc = spec_encode_ktss(es[i].ktss);
        assert(enc.subrange(0, enc.len() as int) =~= enc);
        lemma_ktss_encode_then_decode(enc, 0, es[i].ktss);
    }
    assert forall|i: int| 0 <= i < es.len() implies packed_entry(
        (#[trigger] es[i]).link_id,
        es[i].ktss,
    ) == es[i] by {
        lemma_extent_aligned(es[i].ktss);
        assert(packed_entry(es[i].link_id, es[i].ktss) =~= es[i]);
    }
}

} // verus!
