//! The metadata archive: a header, then magic-tagged sections scanned up to
//! exactly `decomp_size`, preserved in order. Its companion records reference
//! audio entries of a separate audio archive by link id and are patched in
//! place by the pack engine.

use vstd::prelude::*;

use crate::errors::KtslError;
use crate::header::spec_encode_ktsr;
use crate::header::spec_parse_ktsr;
use crate::header::Ktsr;
use crate::header::KtsrView;
use crate::sections::spec_encode_section;
use crate::sections::spec_parse_section;
use crate::sections::KtssCompanionSection;
use crate::sections::KtssCompanionSectionView;
use crate::sections::Section;
use crate::sections::SectionView;

verus! {

/// The metadata archive.
#[derive(Debug)]
pub struct Ktsl2asbin {
    pub header: Ktsr,
    pub entries: Vec<Section>,
}

#[verifier::ext_equal]
pub struct Ktsl2asbinView {
    pub header: KtsrView,
    pub entries: Seq<SectionView>,
}

pub open spec fn sections_view(s: Seq<Section>) -> Seq<SectionView> {
    s.map_values(|e: Section| e@)
}

impl View for Ktsl2asbin {
    type V = Ktsl2asbinView;

    open spec fn view(&self) -> Ktsl2asbinView {
        Ktsl2asbinView { header: self.header@, entries: sections_view(self.entries@) }
    }
}

impl Ktsl2asbinView {
    pub open spec fn valid(self) -> bool {
        &&& self.header.valid()
        &&& forall|i: int|
            0 <= i < self.entries.len() ==> (#[trigger] self.entries[i]).valid()
                && self.entries[i].bounded()
    }
}

/// Scan sections from `p` up to exactly `end`; landing on `end` is the only
/// successful exit, passing it is `InconsistentTermination`.
pub open spec fn spec_scan_sections(b: Seq<u8>, p: int, end: int) -> Result<
    Seq<SectionView>,
    KtslError,
>
    decreases end - p,
{
    if p == end {
        Ok(Seq::empty())
    } else if p > end {
        Err(KtslError::InconsistentTermination)
    } else {
        match spec_parse_section(b, p) {
            Err(e) => Err(e),
            Ok((s1, p2)) => {
                if p2 <= p || p2 > end {
                    Err(KtslError::InconsistentTermination)
                } else {
                    match spec_scan_sections(b, p2, end) {
                        Ok(rest) => Ok(seq![s1] + rest),
                        Err(er) => Err(er),
                    }
                }
            },
        }
    }
}

pub proof fn lemma_section_scan_step_ok(b: Seq<u8>, p: int, end: int, s1: SectionView, p2: int)
    requires
        p < end,
        spec_parse_section(b, p) == Ok::<(SectionView, int), KtslError>((s1, p2)),
        p < p2 <= end,
    ensures
        spec_scan_sections(b, p, end) == match spec_scan_sections(b, p2, end) {
            Ok(rest) => Ok::<Seq<SectionView>, KtslError>(seq![s1] + rest),
            Err(e) => Err::<Seq<SectionView>, KtslError>(e),
        },
{
}

pub proof fn lemma_section_scan_step_err(b: Seq<u8>, p: int, end: int, e: KtslError)
    requires
        p < end,
        spec_parse_section(b, p) == Err::<(SectionView, int), KtslError>(e),
    ensures
        spec_scan_sections(b, p, end) == Err::<Seq<SectionView>, KtslError>(e),
{
}

pub proof fn lemma_section_scan_step_overrun(
    b: Seq<u8>,
    p: int,
    end: int,
    s1: SectionView,
    p2: int,
)
    requires
        p < end,
        spec_parse_section(b, p) == Ok::<(SectionView, int), KtslError>((s1, p2)),
        p2 > end,
    ensures
        spec_scan_sections(b, p, end) == Err::<Seq<SectionView>, KtslError>(
            KtslError::InconsistentTermination,
        ),
{
}

pub open spec fn spec_parse_asbin(b: Seq<u8>, seeded: bool) -> Result<Ktsl2asbinView, KtslError> {
    match spec_parse_ktsr(b, seeded) {
        Err(e) => Err(e),
        Ok((h, _)) => match spec_scan_sections(b, 0x40, h.decomp_size as int) {
            Err(e) => Err(e),
            Ok(es) => Ok(Ktsl2asbinView { header: h, entries: es }),
        },
    }
}

pub open spec fn spec_encode_sections(es: Seq<SectionView>) -> Seq<u8>
    decreases es.len(),
{
    if es.len() == 0 {
        Seq::empty()
    } else {
        spec_encode_section(es[0]) + spec_encode_sections(es.drop_first())
    }
}

/// The archive's encoding: header, then the sections in their original
/// order — order is significant and preserved verbatim.
pub open spec fn spec_encode_asbin(a: Ktsl2asbinView) -> Seq<u8> {
    spec_encode_ktsr(a.header) + spec_encode_sections(a.entries)
}

pub proof fn lemma_encode_sections_snoc(es: Seq<SectionView>, i: int)
    requires
        0 <= i < es.len(),
    ensures
        spec_encode_sections(es.take(i + 1)) == spec_encode_sections(es.take(i))
            + spec_encode_section(es[i]),
    decreases i,
{
    if i == 0 {
        assert(es.take(0) =~= Seq::<SectionView>::empty());
        assert(es.take(1).drop_first() =~= Seq::<SectionView>::empty());
        assert(es.take(1)[0] == es[0]);
        assert(spec_encode_sections(Seq::<SectionView>::empty()) == Seq::<u8>::empty());
        assert(spec_encode_sections(es.take(1)) == spec_encode_section(es[0]) + Seq::<u8>::empty());
        assert(spec_encode_section(es[0]) + Seq::<u8>::empty() =~= Seq::<u8>::empty()
            + spec_encode_section(es[0]));
    } else {
        let t = es.drop_first();
        lemma_encode_sections_snoc(t, i - 1);
        assert(es.take(i + 1).drop_first() =~= t.take(i));
        assert(es.take(i).drop_first() =~= t.take(i - 1));
        assert(es.take(i + 1)[0] == es[0]);
        assert(es.take(i)[0] == es[0]);
        assert(t[i - 1] == es[i]);
        assert(spec_encode_section(es[0]) + (spec_encode_sections(t.take(i - 1))
            + spec_encode_section(t[i - 1])) =~= (spec_encode_section(es[0])
            + spec_encode_sections(t.take(i - 1))) + spec_encode_section(t[i - 1]));
    }
}

/// The companion records among the sections, in their original order.
pub open spec fn spec_companions(es: Seq<SectionView>) -> Seq<KtssCompanionSectionView>
    decreases es.len(),
{
    if es.len() == 0 {
        Seq::empty()
    } else {
        match es[0] {
            SectionView::Adpcm(c) => seq![c] + spec_companions(es.drop_first()),
            _ => spec_companions(es.drop_first()),
        }
    }
}

pub open spec fn companions_view(s: Seq<KtssCompanionSection>) -> Seq<KtssCompanionSectionView> {
    s.map_values(|c: KtssCompanionSection| c@)
}

/// Extending the scanned prefix by one section extends its companion list by
/// that section's record, if it is one.
pub proof fn lemma_companions_snoc(es: Seq<SectionView>, i: int)
    requires
        0 <= i < es.len(),
    ensures
        spec_companions(es.take(i + 1)) == match es[i] {
            SectionView::Adpcm(c) => spec_companions(es.take(i)) + seq![c],
            _ => spec_companions(es.take(i)),
        },
    decreases i,
{
    if i == 0 {
        assert(es.take(0) =~= Seq::<SectionView>::empty());
        assert(es.take(1).drop_first() =~= Seq::<SectionView>::empty());
        assert(es.take(1)[0] == es[0]);
        assert(spec_companions(Seq::<SectionView>::empty()) == Seq::<
            KtssCompanionSectionView,
        >::empty());
        match es[0] {
            SectionView::Adpcm(c) => {
                assert(spec_companions(es.take(1)) == seq![c] + Seq::<
                    KtssCompanionSectionView,
                >::empty());
                assert(seq![c] + Seq::<KtssCompanionSectionView>::empty() =~= Seq::<
                    KtssCompanionSectionView,
                >::empty() + seq![c]);
            },
            _ => {},
        }
    } else {
        let t = es.drop_first();
        lemma_companions_snoc(t, i - 1);
        assert(es.take(i + 1).drop_first() =~= t.take(i));
        assert(es.take(i).drop_first() =~= t.take(i - 1));
        assert(es.take(i + 1)[0] == es[0]);
        assert(es.take(i)[0] == es[0]);
        assert(t[i - 1] == es[i]);
        match es[0] {
            SectionView::Adpcm(c0) => {
                match es[i] {
                    SectionView::Adpcm(c) => {
                        assert(seq![c0] + (spec_companions(t.take(i - 1)) + seq![c]) =~= (seq![c0]
                            + spec_companions(t.take(i - 1))) + seq![c]);
                    },
                    _ => {},
                }
            },
            _ => {},
        }
    }
}

/// Section-loop scanning terminates with the stream offset exactly equal to
/// the declared end: the encodings of the scanned sections tile the scanned
/// range completely, and every scanned section is valid.
pub proof fn lemma_section_scan_exact(b: Seq<u8>, p: int, end: int, es: Seq<SectionView>)
    requires
        0 <= p,
        spec_scan_sections(b, p, end) == Ok::<Seq<SectionView>, KtslError>(es),
    ensures
        spec_encode_sections(es).len() == end - p,
        forall|i: int| 0 <= i < es.len() ==> (#[trigger] es[i]).valid(),
    decreases end - p,
{
    if p == end {
        assert(es =~= Seq::<SectionView>::empty());
    } else {
        match spec_parse_section(b, p) {
            Ok((s1, p2)) => {
                crate::sections::lemma_parse_section_len(b, p, s1, p2);
                match spec_scan_sections(b, p2, end) {
                    Ok(rest) => {
                        lemma_section_scan_exact(b, p2, end, rest);
                        assert(es == seq![s1] + rest);
                        assert(es[0] == s1);
                        assert(es.drop_first() =~= rest);
                        assert(forall|i: int|
                            0 <= i < es.len() ==> (#[trigger] es[i]) == (seq![s1] + rest)[i]);
                    },
                    Err(_) => {
                        assert(false);
                    },
                }
            },
            Err(_) => {
                assert(false);
            },
        }
    }
}

/// The companion records of a section list split at any point into those of
/// the prefix and those of the suffix.
pub proof fn lemma_companions_split(es: Seq<SectionView>, m: int)
    requires
        0 <= m <= es.len(),
    ensures
        spec_companions(es) == spec_companions(es.take(m)) + spec_companions(es.skip(m)),
    decreases m,
{
    if m == 0 {
        assert(es.take(0) =~= Seq::<SectionView>::empty());
        assert(es.skip(0) =~= es);
        assert(spec_companions(Seq::<SectionView>::empty()) == Seq::<
            KtssCompanionSectionView,
        >::empty());
        assert(Seq::<KtssCompanionSectionView>::empty() + spec_companions(es) =~= spec_companions(
            es,
        ));
    } else {
        let t = es.drop_first();
        lemma_companions_split(t, m - 1);
        assert(es.take(m)[0] == es[0]);
        assert(es.take(m).drop_first() =~= t.take(m - 1));
        assert(es.skip(m) =~= t.skip(m - 1));
        match es[0] {
            SectionView::Adpcm(c) => {
                assert(seq![c] + (spec_companions(t.take(m - 1)) + spec_companions(
                    t.skip(m - 1),
                )) =~= (seq![c] + spec_companions(t.take(m - 1))) + spec_companions(
                    t.skip(m - 1),
                ));
            },
            _ => {},
        }
    }
}

impl Ktsl2asbin {
    /// A fresh, empty metadata archive.
    pub fn new() -> (r: Ktsl2asbin)
        ensures
            r@.header == crate::header::default_ktsr(),
            r@.entries.len() == 0,
            r@.valid(),
    {
        Ktsl2asbin { header: Ktsr::new(), entries: Vec::new() }
    }

    /// Decode a whole metadata archive.
    #[verifier::rlimit(100)]
    pub fn decode(b: &Vec<u8>, seeded: bool) -> (r: Result<Ktsl2asbin, KtslError>)
        ensures
            match r {
                Ok(a) => spec_parse_asbin(b@, seeded) == Ok::<Ktsl2asbinView, KtslError>(a@)
                    && forall|i: int|
                    0 <= i < a@.entries.len() ==> (#[trigger] a@.entries[i]).valid(),
                Err(e) => spec_parse_asbin(b@, seeded) == Err::<Ktsl2asbinView, KtslError>(e),
            },
    {
        let n = b.len();
        let (header, hend) = match Ktsr::decode(b, seeded) {
            Ok(ok) => ok,
            Err(e) => {
                return Err(e);
            },
        };
        let ghost hendi = hend as int;
        let end: usize = header.decomp_size as usize;
        let ghost endi = header@.decomp_size as int;
        let mut entries: Vec<Section> = Vec::new();
        let mut pos: usize = 0x40;
        if pos > end {
            return Err(KtslError::InconsistentTermination);
        }
        while pos != end
            invariant
                0x40 <= pos <= end,
                end == endi,
                n == b.len(),
                spec_parse_ktsr(b@, seeded) == Ok::<(KtsrView, int), KtslError>(
                    (header@, hendi),
                ),
                endi == header@.decomp_size as int,
                match spec_scan_sections(b@, pos as int, endi) {
                    Ok(rest) => spec_scan_sections(b@, 0x40, endi) == Ok::<
                        Seq<SectionView>,
                        KtslError,
                    >(sections_view(entries@) + rest),
                    Err(e) => spec_scan_sections(b@, 0x40, endi) == Err::<
                        Seq<SectionView>,
                        KtslError,
                    >(e),
                },
            decreases end - pos,
        {
            if pos > n {
                proof {
                    reveal(spec_parse_section);
                    assert(spec_parse_section(b@, pos as int) == Err::<
                        (SectionView, int),
                        KtslError,
                    >(KtslError::Truncated));
                    lemma_section_scan_step_err(b@, pos as int, endi, KtslError::Truncated);
                }
                return Err(KtslError::Truncated);
            }
            let (s1, p2) = match Section::decode(b, pos) {
                Ok(ok) => ok,
                Err(er) => {
                    proof {
                        lemma_section_scan_step_err(b@, pos as int, endi, er);
                    }
                    return Err(er);
                },
            };
            if p2 > end {
                proof {
                    lemma_section_scan_step_overrun(b@, pos as int, endi, s1@, p2 as int);
                }
                return Err(KtslError::InconsistentTermination);
            }
            let ghost prev_entries = entries@;
            let ghost prev_pos = pos as int;
            entries.push(s1);
            pos = p2;
            proof {
                lemma_section_scan_step_ok(b@, prev_pos, endi, s1@, pos as int);
                assert(sections_view(entries@) =~= sections_view(prev_entries) + seq![s1@]);
                match spec_scan_sections(b@, pos as int, endi) {
                    Ok(rest) => {
                        assert(sections_view(prev_entries) + (seq![s1@] + rest) =~= sections_view(
                            entries@,
                        ) + rest);
                    },
                    Err(er) => {},
                }
            }
        }
        proof {
            assert(sections_view(entries@) + Seq::<SectionView>::empty() =~= sections_view(
                entries@,
            ));
            lemma_section_scan_exact(b@, 0x40, endi, sections_view(entries@));
        }
        let a = Ktsl2asbin { header, entries };
        proof {
            assert(a@ =~= (match spec_parse_asbin(b@, seeded) {
                Ok(v) => v,
                Err(_) => a@,
            }));
        }
        Ok(a)
    }

    /// The companion records, copied out in their original order. Patching
    /// is done by position, never through aliased references into the
    /// archive.
    pub fn get_companion_sections(&self) -> (r: Vec<KtssCompanionSection>)
        ensures
            companions_view(r@) == spec_companions(self@.entries),
    {
        let mut out: Vec<KtssCompanionSection> = Vec::new();
        let mut i: usize = 0;
        while i < self.entries.len()
            invariant
                i <= self.entries@.len(),
                companions_view(out@) =~= spec_companions(sections_view(self.entries@).take(
                    i as int,
                )),
            decreases self.entries@.len() - i,
        {
            let ghost prev = out@;
            match &self.entries[i] {
                Section::Adpcm(c) => {
                    out.push(c.duplicate());
                    proof {
                        assert(companions_view(out@) =~= companions_view(prev) + seq![
                            self.entries@[i as int]@->Adpcm_0,
                        ]);
                    }
                },
                _ => {},
            }
            proof {
                lemma_companions_snoc(sections_view(self.entries@), i as int);
                assert(sections_view(self.entries@)[i as int] == self.entries@[i as int]@);
            }
            i = i + 1;
        }
        proof {
            assert(sections_view(self.entries@).take(self.entries@.len() as int) =~= sections_view(
                self.entries@,
            ));
        }
        out
    }

    /// Serialize the whole archive: header, then every section in order.
    pub fn pack(&self) -> (r: Vec<u8>)
        requires
            self@.valid(),
        ensures
            r@ == spec_encode_asbin(self@),
    {
        let mut out: Vec<u8> = Vec::new();
        self.header.encode_to(&mut out);
        let ghost hb = spec_encode_ktsr(self@.header);
        proof {
            assert(out@ =~= Seq::<u8>::empty() + hb);
        }
        let mut i: usize = 0;
        while i < self.entries.len()
            invariant
                i <= self.entries@.len(),
                self@.valid(),
                out@ =~= hb + spec_encode_sections(sections_view(self.entries@).take(i as int)),
            decreases self.entries@.len() - i,
        {
            proof {
                assert(self@.entries[i as int].valid() && self@.entries[i as int].bounded());
            }
            self.entries[i].encode_to(&mut out);
            proof {
                lemma_encode_sections_snoc(sections_view(self.entries@), i as int);
                assert(sections_view(self.entries@)[i as int] == self.entries@[i as int]@);
                assert(out@ =~= hb + spec_encode_sections(
                    sections_view(self.entries@).take(i + 1),
                ));
            }
            i = i + 1;
        }
        proof {
            assert(sections_view(self.entries@).take(self.entries@.len() as int) =~= sections_view(
                self.entries@,
            ));
            assert(out@ =~= spec_encode_asbin(self@));
        }
        out
    }
}

} // verus!
