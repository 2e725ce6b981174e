//! Sections of the metadata archive: a tagged union selected by a 4-byte
//! magic read immediately before each section body. Every variant carries a
//! `section_size` that also bounds its trailing opaque bytes; a declared size
//! below the variant's fixed header is a `SizeUnderflow` error, never a
//! silent wrap. Trailing undeciphered regions are kept verbatim as byte
//! blobs so that nothing is dropped or reinterpreted on a round trip.
//!
//! The format history assigns the magic 0x368C88BD to two shapes, an info
//! section and an opaque unknown section. This codec resolves the ambiguity
//! explicitly: that magic always decodes as `Info1`; `Unknown` remains a
//! variant that can be built and written, but no magic decodes to it.

use vstd::prelude::*;

use crate::align::align_up;
use crate::align::lemma_align_up;
use crate::bytes::le16_at;
use crate::bytes::le16_bytes;
use crate::bytes::le32_at;
use crate::bytes::le32_bytes;
use crate::bytes::push_bytes;
use crate::bytes::push_u16_le;
use crate::bytes::push_u32_le;
use crate::bytes::push_zeros;
use crate::bytes::read_bytes;
use crate::bytes::read_u16_le;
use crate::bytes::read_u32_le;
use crate::bytes::zeros;
use crate::errors::KtslError;
use crate::ktss::spec_encode_ktss;
use crate::ktss::spec_parse_ktss;
use crate::ktss::Ktss;
use crate::ktss::KtssView;

verus! {

/// Magic of the info section (also historically claimed by the unknown
/// section; see the module note).
pub const INFO_SECTION_MAGIC: u32 = 0x368C88BD;

/// Magic of the companion record for an audio entry.
pub const ADPCM_SECTION_MAGIC: u32 = 0x70CBCCC5;

/// Magic of an embedded audio entry inside the metadata archive.
pub const KTSS_IN_ASBIN_MAGIC: u32 = 0x15F4D409;

/// Magic of a padding section.
pub const PADDING_SECTION_MAGIC: u32 = 0xA8DB7261;

/// Metadata record referencing an audio blob by link id. The pack engine
/// patches its offset, size, loop and sample fields in place so that the
/// record stays numerically consistent with the audio archive it describes.
#[derive(Debug, Clone)]
pub struct KtssCompanionSection {
    pub section_size: u32,
    pub link_id: u32,
    pub unknown_1: Vec<u8>,
    pub header_size: u32,
    pub subsection_magic: u32,
    pub section_size_2: u32,
    pub unknown_2: u32,
    pub channel_count: u32,
    pub transition_related: u32,
    pub unknown_3: u32,
    pub sample_rate: u32,
    pub sample_count: u32,
    pub unknown_4: u32,
    pub loop_start: u32,
    pub unknown_5: Vec<u8>,
    pub ktss_offset: u32,
    pub ktss_size: u32,
    pub unknown_6: u32,
    pub unk: Vec<u8>,
}

#[verifier::ext_equal]
pub struct KtssCompanionSectionView {
    pub section_size: u32,
    pub link_id: u32,
    pub unknown_1: Seq<u8>,
    pub header_size: u32,
    pub subsection_magic: u32,
    pub section_size_2: u32,
    pub unknown_2: u32,
    pub channel_count: u32,
    pub transition_related: u32,
    pub unknown_3: u32,
    pub sample_rate: u32,
    pub sample_count: u32,
    pub unknown_4: u32,
    pub loop_start: u32,
    pub unknown_5: Seq<u8>,
    pub ktss_offset: u32,
    pub ktss_size: u32,
    pub unknown_6: u32,
    pub unk: Seq<u8>,
}

impl View for KtssCompanionSection {
    type V = KtssCompanionSectionView;

    open spec fn view(&self) -> KtssCompanionSectionView {
        KtssCompanionSectionView {
            section_size: self.section_size,
            link_id: self.link_id,
            unknown_1: self.unknown_1@,
            header_size: self.header_size,
            subsection_magic: self.subsection_magic,
            section_size_2: self.section_size_2,
            unknown_2: self.unknown_2,
            channel_count: self.channel_count,
            transition_related: self.transition_related,
            unknown_3: self.unknown_3,
            sample_rate: self.sample_rate,
            sample_count: self.sample_count,
            unknown_4: self.unknown_4,
            loop_start: self.loop_start,
            unknown_5: self.unknown_5@,
            ktss_offset: self.ktss_offset,
            ktss_size: self.ktss_size,
            unknown_6: self.unknown_6,
            unk: self.unk@,
        }
    }
}

impl KtssCompanionSectionView {
    pub open spec fn valid(self) -> bool {
        &&& self.unknown_1.len() == 16
        &&& self.unknown_5.len() == 12
        &&& self.section_size >= 0x60
        &&& self.unk.len() == self.section_size - 0x60
    }
}

/// The companion body (everything after the magic).
pub open spec fn spec_encode_companion(c: KtssCompanionSectionView) -> Seq<u8> {
    le32_bytes(c.section_size) + le32_bytes(c.link_id) + c.unknown_1 + le32_bytes(c.header_size)
        + le32_bytes(c.subsection_magic) + le32_bytes(c.section_size_2) + le32_bytes(c.unknown_2)
        + le32_bytes(c.channel_count) + le32_bytes(c.transition_related) + le32_bytes(c.unknown_3)
        + le32_bytes(c.sample_rate) + le32_bytes(c.sample_count) + le32_bytes(c.unknown_4)
        + le32_bytes(c.loop_start) + c.unknown_5 + le32_bytes(c.ktss_offset) + le32_bytes(
        c.ktss_size,
    ) + le32_bytes(c.unknown_6) + c.unk
}

/// Parse the companion body at `p` (just after the magic).
pub open spec fn spec_parse_companion(b: Seq<u8>, p: int) -> Result<
    (KtssCompanionSectionView, int),
    KtslError,
> {
    if p + 0x5c > b.len() {
        Err(KtslError::Truncated)
    } else {
        let ss = le32_at(b, p);
        if ss < 0x60 {
            Err(KtslError::SizeUnderflow)
        } else if p + 0x5c + (ss - 0x60) > b.len() {
            Err(KtslError::Truncated)
        } else {
            Ok(
                (
                    KtssCompanionSectionView {
                        section_size: ss,
                        link_id: le32_at(b, p + 4),
                        unknown_1: b.subrange(p + 8, p + 0x18),
                        header_size: le32_at(b, p + 0x18),
                        subsection_magic: le32_at(b, p + 0x1c),
                        section_size_2: le32_at(b, p + 0x20),
                        unknown_2: le32_at(b, p + 0x24),
                        channel_count: le32_at(b, p + 0x28),
                        transition_related: le32_at(b, p + 0x2c),
                        unknown_3: le32_at(b, p + 0x30),
                        sample_rate: le32_at(b, p + 0x34),
                        sample_count: le32_at(b, p + 0x38),
                        unknown_4: le32_at(b, p + 0x3c),
                        loop_start: le32_at(b, p + 0x40),
                        unknown_5: b.subrange(p + 0x44, p + 0x50),
                        ktss_offset: le32_at(b, p + 0x50),
                        ktss_size: le32_at(b, p + 0x54),
                        unknown_6: le32_at(b, p + 0x58),
                        unk: b.subrange(p + 0x5c, p + 0x5c + (ss - 0x60)),
                    },
                    p + 0x5c + (ss - 0x60),
                ),
            )
        }
    }
}

impl KtssCompanionSection {
    /// Decode the companion body at `p` (just after the magic).
    pub fn decode(b: &Vec<u8>, p: usize) -> (r: Result<(KtssCompanionSection, usize), KtslError>)
        requires
            p <= b.len(),
        ensures
            match r {
                Ok((c, end)) => spec_parse_companion(b@, p as int) == Ok::<
                    (KtssCompanionSectionView, int),
                    KtslError,
                >((c@, end as int)) && p <= end <= b.len() && c@.valid(),
                Err(e) => spec_parse_companion(b@, p as int) == Err::<
                    (KtssCompanionSectionView, int),
                    KtslError,
                >(e),
            },
    {
        let n = b.len();
        if n - p < 0x5c {
            return Err(KtslError::Truncated);
        }
        let ss = read_u32_le(b, p);
        if ss < 0x60 {
            return Err(KtslError::SizeUnderflow);
        }
        let trailer = (ss - 0x60) as usize;
        if trailer > n - (p + 0x5c) {
            return Err(KtslError::Truncated);
        }
        let c = KtssCompanionSection {
            section_size: ss,
            link_id: read_u32_le(b, p + 4),
            unknown_1: read_bytes(b, p + 8, 16),
            header_size: read_u32_le(b, p + 0x18),
            subsection_magic: read_u32_le(b, p + 0x1c),
            section_size_2: read_u32_le(b, p + 0x20),
            unknown_2: read_u32_le(b, p + 0x24),
            channel_count: read_u32_le(b, p + 0x28),
            transition_related: read_u32_le(b, p + 0x2c),
            unknown_3: read_u32_le(b, p + 0x30),
            sample_rate: read_u32_le(b, p + 0x34),
            sample_count: read_u32_le(b, p + 0x38),
            unknown_4: read_u32_le(b, p + 0x3c),
            loop_start: read_u32_le(b, p + 0x40),
            unknown_5: read_bytes(b, p + 0x44, 12),
            ktss_offset: read_u32_le(b, p + 0x50),
            ktss_size: read_u32_le(b, p + 0x54),
            unknown_6: read_u32_le(b, p + 0x58),
            unk: read_bytes(b, p + 0x5c, trailer),
        };
        let end = p + 0x5c + trailer;
        proof {
            assert(c@ =~= (match spec_parse_companion(b@, p as int) {
                Ok((v, _)) => v,
                Err(_) => c@,
            }));
        }
        Ok((c, end))
    }

    /// Append the companion body's encoding to `out`.
    pub fn encode_to(&self, out: &mut Vec<u8>)
        ensures
            final(out)@ == old(out)@ + spec_encode_companion(self@),
    {
        let ghost base = out@;
        push_u32_le(out, self.section_size);
        push_u32_le(out, self.link_id);
        push_bytes(out, &self.unknown_1);
        push_u32_le(out, self.header_size);
        push_u32_le(out, self.subsection_magic);
        push_u32_le(out, self.section_size_2);
        push_u32_le(out, self.unknown_2);
        push_u32_le(out, self.channel_count);
        push_u32_le(out, self.transition_related);
        push_u32_le(out, self.unknown_3);
        push_u32_le(out, self.sample_rate);
        push_u32_le(out, self.sample_count);
        push_u32_le(out, self.unknown_4);
        push_u32_le(out, self.loop_start);
        push_bytes(out, &self.unknown_5);
        push_u32_le(out, self.ktss_offset);
        push_u32_le(out, self.ktss_size);
        push_u32_le(out, self.unknown_6);
        push_bytes(out, &self.unk);
        proof {
            assert(out@ =~= base + spec_encode_companion(self@));
        }
    }

    /// A field-for-field copy whose view equals the original's.
    pub fn duplicate(&self) -> (r: KtssCompanionSection)
        ensures
            r@ == self@,
    {
        let r = KtssCompanionSection {
            section_size: self.section_size,
            link_id: self.link_id,
            unknown_1: read_bytes(&self.unknown_1, 0, self.unknown_1.len()),
            header_size: self.header_size,
            subsection_magic: self.subsection_magic,
            section_size_2: self.section_size_2,
            unknown_2: self.unknown_2,
            channel_count: self.channel_count,
            transition_related: self.transition_related,
            unknown_3: self.unknown_3,
            sample_rate: self.sample_rate,
            sample_count: self.sample_count,
            unknown_4: self.unknown_4,
            loop_start: self.loop_start,
            unknown_5: read_bytes(&self.unknown_5, 0, self.unknown_5.len()),
            ktss_offset: self.ktss_offset,
            ktss_size: self.ktss_size,
            unknown_6: self.unknown_6,
            unk: read_bytes(&self.unk, 0, self.unk.len()),
        };
        proof {
            assert(self.unknown_1@.subrange(0, self.unknown_1@.len() as int) =~= self.unknown_1@);
            assert(self.unknown_5@.subrange(0, self.unknown_5@.len() as int) =~= self.unknown_5@);
            assert(self.unk@.subrange(0, self.unk@.len() as int) =~= self.unk@);
            assert(r@ =~= self@);
        }
        r
    }
}

/// Opaque filler of declared length.
#[derive(Debug, Clone)]
pub struct PaddingSection {
    pub section_size: u32,
    pub padding: Vec<u8>,
}

#[verifier::ext_equal]
pub struct PaddingSectionView {
    pub section_size: u32,
    pub padding: Seq<u8>,
}

impl View for PaddingSection {
    type V = PaddingSectionView;

    open spec fn view(&self) -> PaddingSectionView {
        PaddingSectionView { section_size: self.section_size, padding: self.padding@ }
    }
}

impl PaddingSectionView {
    pub open spec fn valid(self) -> bool {
        &&& self.section_size >= 8
        &&& self.padding.len() == self.section_size - 8
    }
}

pub open spec fn spec_encode_padding(s: PaddingSectionView) -> Seq<u8> {
    le32_bytes(s.section_size) + s.padding
}

pub open spec fn spec_parse_padding(b: Seq<u8>, p: int) -> Result<
    (PaddingSectionView, int),
    KtslError,
> {
    if p + 4 > b.len() {
        Err(KtslError::Truncated)
    } else {
        let ss = le32_at(b, p);
        if ss < 8 {
            Err(KtslError::SizeUnderflow)
        } else if p + 4 + (ss - 8) > b.len() {
            Err(KtslError::Truncated)
        } else {
            Ok(
                (
                    PaddingSectionView {
                        section_size: ss,
                        padding: b.subrange(p + 4, p + 4 + (ss - 8)),
                    },
                    p + 4 + (ss - 8),
                ),
            )
        }
    }
}

impl PaddingSection {
    pub fn decode(b: &Vec<u8>, p: usize) -> (r: Result<(PaddingSection, usize), KtslError>)
        requires
            p <= b.len(),
        ensures
            match r {
                Ok((s, end)) => spec_parse_padding(b@, p as int) == Ok::<
                    (PaddingSectionView, int),
                    KtslError,
                >((s@, end as int)) && p <= end <= b.len() && s@.valid(),
                Err(e) => spec_parse_padding(b@, p as int) == Err::<
                    (PaddingSectionView, int),
                    KtslError,
                >(e),
            },
    {
        let n = b.len();
        if n - p < 4 {
            return Err(KtslError::Truncated);
        }
        let ss = read_u32_le(b, p);
        if ss < 8 {
            return Err(KtslError::SizeUnderflow);
        }
        let trailer = (ss - 8) as usize;
        if trailer > n - (p + 4) {
            return Err(KtslError::Truncated);
        }
        let s = PaddingSection { section_size: ss, padding: read_bytes(b, p + 4, trailer) };
        proof {
            assert(s@ =~= (match spec_parse_padding(b@, p as int) {
                Ok((v, _)) => v,
                Err(_) => s@,
            }));
        }
        Ok((s, p + 4 + trailer))
    }

    pub fn encode_to(&self, out: &mut Vec<u8>)
        ensures
            final(out)@ == old(out)@ + spec_encode_padding(self@),
    {
        let ghost base = out@;
        push_u32_le(out, self.section_size);
        push_bytes(out, &self.padding);
        proof {
            assert(out@ =~= base + spec_encode_padding(self@));
        }
    }
}

/// Catch-all opaque blob. No magic decodes to it (see the module note); it
/// exists so that a section of unresolved meaning can still be represented
/// and written.
#[derive(Debug, Clone)]
pub struct UnknownSection {
    pub section_size: u32,
    pub link_id: u32,
    pub unknown_1: Vec<u8>,
}

#[verifier::ext_equal]
pub struct UnknownSectionView {
    pub section_size: u32,
    pub link_id: u32,
    pub unknown_1: Seq<u8>,
}

impl View for UnknownSection {
    type V = UnknownSectionView;

    open spec fn view(&self) -> UnknownSectionView {
        UnknownSectionView {
            section_size: self.section_size,
            link_id: self.link_id,
            unknown_1: self.unknown_1@,
        }
    }
}

impl UnknownSectionView {
    pub open spec fn valid(self) -> bool {
        &&& self.section_size >= 8
        &&& self.unknown_1.len() == self.section_size - 8
    }
}

pub open spec fn spec_encode_unknown(s: UnknownSectionView) -> Seq<u8> {
    le32_bytes(s.section_size) + le32_bytes(s.link_id) + s.unknown_1
}

impl UnknownSection {
    pub fn encode_to(&self, out: &mut Vec<u8>)
        ensures
            final(out)@ == old(out)@ + spec_encode_unknown(self@),
    {
        let ghost base = out@;
        push_u32_le(out, self.section_size);
        push_u32_le(out, self.link_id);
        push_bytes(out, &self.unknown_1);
        proof {
            assert(out@ =~= base + spec_encode_unknown(self@));
        }
    }
}

/// Nested sub-variant metadata. Only its fixed fields are interpreted; the
/// trailing region stays an opaque blob.
#[derive(Debug, Clone)]
pub struct InfoSection {
    pub section_size: u32,
    pub link_id: u32,
    pub channel_count: u16,
    pub layer_count: u16,
    pub padding_1: u32,
    pub cancel: u32,
    pub subsection_magic: u32,
    pub unk: Vec<u8>,
}

#[verifier::ext_equal]
pub struct InfoSectionView {
    pub section_size: u32,
    pub link_id: u32,
    pub channel_count: u16,
    pub layer_count: u16,
    pub padding_1: u32,
    pub cancel: u32,
    pub subsection_magic: u32,
    pub unk: Seq<u8>,
}

impl View for InfoSection {
    type V = InfoSectionView;

    open spec fn view(&self) -> InfoSectionView {
        InfoSectionView {
            section_size: self.section_size,
            link_id: self.link_id,
            channel_count: self.channel_count,
            layer_count: self.layer_count,
            padding_1: self.padding_1,
            cancel: self.cancel,
            subsection_magic: self.subsection_magic,
            unk: self.unk@,
        }
    }
}

impl InfoSectionView {
    pub open spec fn valid(self) -> bool {
        &&& self.section_size >= 0x1c
        &&& self.unk.len() == self.section_size - 0x1c
    }
}

pub open spec fn spec_encode_info(s: InfoSectionView) -> Seq<u8> {
    le32_bytes(s.section_size) + le32_bytes(s.link_id) + le16_bytes(s.channel_count) + le16_bytes(
        s.layer_count,
    ) + le32_bytes(s.padding_1) + le32_bytes(s.cancel) + le32_bytes(s.subsection_magic) + s.unk
}

pub open spec fn spec_parse_info(b: Seq<u8>, p: int) -> Result<(InfoSectionView, int), KtslError> {
    if p + 0x18 > b.len() {
        Err(KtslError::Truncated)
    } else {
        let ss = le32_at(b, p);
        if ss < 0x1c {
            Err(KtslError::SizeUnderflow)
        } else if p + 0x18 + (ss - 0x1c) > b.len() {
            Err(KtslError::Truncated)
        } else {
            Ok(
                (
                    InfoSectionView {
                        section_size: ss,
                        link_id: le32_at(b, p + 4),
                        channel_count: le16_at(b, p + 8),
                        layer_count: le16_at(b, p + 10),
                        padding_1: le32_at(b, p + 12),
                        cancel: le32_at(b, p + 16),
                        subsection_magic: le32_at(b, p + 20),
                        unk: b.subrange(p + 0x18, p + 0x18 + (ss - 0x1c)),
                    },
                    p + 0x18 + (ss - 0x1c),
                ),
            )
        }
    }
}

impl InfoSection {
    pub fn decode(b: &Vec<u8>, p: usize) -> (r: Result<(InfoSection, usize), KtslError>)
        requires
            p <= b.len(),
        ensures
            match r {
                Ok((s, end)) => spec_parse_info(b@, p as int) == Ok::<
                    (InfoSectionView, int),
                    KtslError,
                >((s@, end as int)) && p <= end <= b.len() && s@.valid(),
                Err(e) => spec_parse_info(b@, p as int) == Err::<(InfoSectionView, int), KtslError>(
                    e,
                ),
            },
    {
        let n = b.len();
        if n - p < 0x18 {
            return Err(KtslError::Truncated);
        }
        let ss = read_u32_le(b, p);
        if ss < 0x1c {
            return Err(KtslError::SizeUnderflow);
        }
        let trailer = (ss - 0x1c) as usize;
        if trailer > n - (p + 0x18) {
            return Err(KtslError::Truncated);
        }
        let s = InfoSection {
            section_size: ss,
            link_id: read_u32_le(b, p + 4),
            channel_count: read_u16_le(b, p + 8),
            layer_count: read_u16_le(b, p + 10),
            padding_1: read_u32_le(b, p + 12),
            cancel: read_u32_le(b, p + 16),
            subsection_magic: read_u32_le(b, p + 20),
            unk: read_bytes(b, p + 0x18, trailer),
        };
        proof {
            assert(s@ =~= (match spec_parse_info(b@, p as int) {
                Ok((v, _)) => v,
                Err(_) => s@,
            }));
        }
        Ok((s, p + 0x18 + trailer))
    }

    pub fn encode_to(&self, out: &mut Vec<u8>)
        ensures
            final(out)@ == old(out)@ + spec_encode_info(self@),
    {
        let ghost base = out@;
        push_u32_le(out, self.section_size);
        push_u32_le(out, self.link_id);
        push_u16_le(out, self.channel_count);
        push_u16_le(out, self.layer_count);
        push_u32_le(out, self.padding_1);
        push_u32_le(out, self.cancel);
        push_u32_le(out, self.subsection_magic);
        push_bytes(out, &self.unk);
        proof {
            assert(out@ =~= base + spec_encode_info(self@));
        }
    }
}

/// Fixed 8-byte prologue of an info subsection.
#[derive(Clone, Copy, Debug, PartialEq, Eq, Structural)]
pub struct InfoSubsectionHeader {
    pub unk1: u32,
    pub unk2: u32,
}

pub open spec fn spec_encode_info_subheader(h: InfoSubsectionHeader) -> Seq<u8> {
    le32_bytes(h.unk1) + le32_bytes(h.unk2)
}

impl InfoSubsectionHeader {
    pub fn decode(b: &Vec<u8>, p: usize) -> (r: Result<(InfoSubsectionHeader, usize), KtslError>)
        requires
            p <= b.len(),
        ensures
            match r {
                Ok((h, end)) => h.unk1 == le32_at(b@, p as int) && h.unk2 == le32_at(
                    b@,
                    p as int + 4,
                ) && end == p + 8 && end <= b.len(),
                Err(e) => e == KtslError::Truncated && p + 8 > b.len(),
            },
    {
        let n = b.len();
        if n - p < 8 {
            return Err(KtslError::Truncated);
        }
        Ok((InfoSubsectionHeader { unk1: read_u32_le(b, p), unk2: read_u32_le(b, p + 4) }, p + 8))
    }

    pub fn encode_to(&self, out: &mut Vec<u8>)
        ensures
            final(out)@ == old(out)@ + spec_encode_info_subheader(*self),
    {
        let ghost base = out@;
        push_u32_le(out, self.unk1);
        push_u32_le(out, self.unk2);
        proof {
            assert(out@ =~= base + spec_encode_info_subheader(*self));
        }
    }
}

/// An opaque info subsection: prologue, declared size, filler.
#[derive(Debug, Clone)]
pub struct Unk1InfoSubbection {
    pub header: InfoSubsectionHeader,
    pub section_size: u32,
    pub padding: Vec<u8>,
}

#[verifier::ext_equal]
pub struct Unk1InfoSubbectionView {
    pub header: InfoSubsectionHeader,
    pub section_size: u32,
    pub padding: Seq<u8>,
}

impl View for Unk1InfoSubbection {
    type V = Unk1InfoSubbectionView;

    open spec fn view(&self) -> Unk1InfoSubbectionView {
        Unk1InfoSubbectionView {
            header: self.header,
            section_size: self.section_size,
            padding: self.padding@,
        }
    }
}

impl Unk1InfoSubbectionView {
    pub open spec fn valid(self) -> bool {
        &&& self.section_size >= 8
        &&& self.padding.len() == self.section_size - 8
    }
}

pub open spec fn spec_encode_unk1_info(s: Unk1InfoSubbectionView) -> Seq<u8> {
    spec_encode_info_subheader(s.header) + le32_bytes(s.section_size) + s.padding
}

pub open spec fn spec_parse_unk1_info(b: Seq<u8>, p: int) -> Result<
    (Unk1InfoSubbectionView, int),
    KtslError,
> {
    if p + 12 > b.len() {
        Err(KtslError::Truncated)
    } else {
        let ss = le32_at(b, p + 8);
        if ss < 8 {
            Err(KtslError::SizeUnderflow)
        } else if p + 12 + (ss - 8) > b.len() {
            Err(KtslError::Truncated)
        } else {
            Ok(
                (
                    Unk1InfoSubbectionView {
                        header: InfoSubsectionHeader {
                            unk1: le32_at(b, p),
                            unk2: le32_at(b, p + 4),
                        },
                        section_size: ss,
                        padding: b.subrange(p + 12, p + 12 + (ss - 8)),
                    },
                    p + 12 + (ss - 8),
                ),
            )
        }
    }
}

impl Unk1InfoSubbection {
    pub fn decode(b: &Vec<u8>, p: usize) -> (r: Result<(Unk1InfoSubbection, usize), KtslError>)
        requires
            p <= b.len(),
        ensures
            match r {
                Ok((s, end)) => spec_parse_unk1_info(b@, p as int) == Ok::<
                    (Unk1InfoSubbectionView, int),
                    KtslError,
                >((s@, end as int)) && p <= end <= b.len() && s@.valid(),
                Err(e) => spec_parse_unk1_info(b@, p as int) == Err::<
                    (Unk1InfoSubbectionView, int),
                    KtslError,
                >(e),
            },
    {
        let n = b.len();
        if n - p < 12 {
            return Err(KtslError::Truncated);
        }
        let ss = read_u32_le(b, p + 8);
        if ss < 8 {
            return Err(KtslError::SizeUnderflow);
        }
        let trailer = (ss - 8) as usize;
        if trailer > n - (p + 12) {
            return Err(KtslError::Truncated);
        }
        let s = Unk1InfoSubbection {
            header: InfoSubsectionHeader {
                unk1: read_u32_le(b, p),
                unk2: read_u32_le(b, p + 4),
            },
            section_size: ss,
            padding: read_bytes(b, p + 12, trailer),
        };
        proof {
            assert(s@ =~= (match spec_parse_unk1_info(b@, p as int) {
                Ok((v, _)) => v,
                Err(_) => s@,
            }));
        }
        Ok((s, p + 12 + trailer))
    }

    pub fn encode_to(&self, out: &mut Vec<u8>)
        ensures
            final(out)@ == old(out)@ + spec_encode_unk1_info(self@),
    {
        let ghost base = out@;
        push_u32_le(out, self.header.unk1);
        push_u32_le(out, self.header.unk2);
        push_u32_le(out, self.section_size);
        push_bytes(out, &self.padding);
        proof {
            assert(out@ =~= base + spec_encode_unk1_info(self@));
        }
    }
}

/// A tagged info subsection, discriminated by its own magic.
#[derive(Debug, Clone)]
pub enum InfoSubsection {
    Unk1(Unk1InfoSubbection),
    Unk2(InfoSection),
}

pub const INFO_SUB_UNK1_MAGIC: u32 = 0x241318;

pub const INFO_SUB_UNK2_MAGIC: u32 = 0x14AB5;

#[verifier::ext_equal]
pub enum InfoSubsectionView {
    Unk1(Unk1InfoSubbectionView),
    Unk2(InfoSectionView),
}

impl View for InfoSubsection {
    type V = InfoSubsectionView;

    open spec fn view(&self) -> InfoSubsectionView {
        match self {
            InfoSubsection::Unk1(s) => InfoSubsectionView::Unk1(s@),
            InfoSubsection::Unk2(s) => InfoSubsectionView::Unk2(s@),
        }
    }
}

/// Magic then body, like the outer sections.
pub open spec fn spec_parse_info_subsection(b: Seq<u8>, p: int) -> Result<
    (InfoSubsectionView, int),
    KtslError,
> {
    if p + 4 > b.len() {
        Err(KtslError::Truncated)
    } else {
        let magic = le32_at(b, p);
        if magic == INFO_SUB_UNK1_MAGIC {
            match spec_parse_unk1_info(b, p + 4) {
                Ok((s, end)) => Ok((InfoSubsectionView::Unk1(s), end)),
                Err(e) => Err(e),
            }
        } else if magic == INFO_SUB_UNK2_MAGIC {
            match spec_parse_info(b, p + 4) {
                Ok((s, end)) => Ok((InfoSubsectionView::Unk2(s), end)),
                Err(e) => Err(e),
            }
        } else {
            Err(KtslError::BadMagic)
        }
    }
}

pub open spec fn spec_encode_info_subsection(s: InfoSubsectionView) -> Seq<u8> {
    match s {
        InfoSubsectionView::Unk1(v) => le32_bytes(INFO_SUB_UNK1_MAGIC) + spec_encode_unk1_info(v),
        InfoSubsectionView::Unk2(v) => le32_bytes(INFO_SUB_UNK2_MAGIC) + spec_encode_info(v),
    }
}

impl InfoSubsection {
    pub fn decode(b: &Vec<u8>, p: usize) -> (r: Result<(InfoSubsection, usize), KtslError>)
        requires
            p <= b.len(),
        ensures
            match r {
                Ok((s, end)) => spec_parse_info_subsection(b@, p as int) == Ok::<
                    (InfoSubsectionView, int),
                    KtslError,
                >((s@, end as int)) && p <= end <= b.len(),
                Err(e) => spec_parse_info_subsection(b@, p as int) == Err::<
                    (InfoSubsectionView, int),
                    KtslError,
                >(e),
            },
    {
        let n = b.len();
        if n - p < 4 {
            return Err(KtslError::Truncated);
        }
        let magic = read_u32_le(b, p);
        if magic == INFO_SUB_UNK1_MAGIC {
            match Unk1InfoSubbection::decode(b, p + 4) {
                Ok((s, end)) => Ok((InfoSubsection::Unk1(s), end)),
                Err(e) => Err(e),
            }
        } else if magic == INFO_SUB_UNK2_MAGIC {
            match InfoSection::decode(b, p + 4) {
                Ok((s, end)) => Ok((InfoSubsection::Unk2(s), end)),
                Err(e) => Err(e),
            }
        } else {
            Err(KtslError::BadMagic)
        }
    }

    pub fn encode_to(&self, out: &mut Vec<u8>)
        ensures
            final(out)@ == old(out)@ + spec_encode_info_subsection(self@),
    {
        match self {
            InfoSubsection::Unk1(s) => {
                push_u32_le(out, INFO_SUB_UNK1_MAGIC);
                s.encode_to(out);
                proof {
                    assert(out@ =~= old(out)@ + spec_encode_info_subsection(self@));
                }
            },
            InfoSubsection::Unk2(s) => {
                push_u32_le(out, INFO_SUB_UNK2_MAGIC);
                s.encode_to(out);
                proof {
                    assert(out@ =~= old(out)@ + spec_encode_info_subsection(self@));
                }
            },
        }
    }
}

/// A fixed-size info subsection record: eight 32-bit fields describing
/// offsets into a nested table. None of them is interpreted here; the
/// record is carried verbatim.
#[derive(Clone, Copy, Debug, PartialEq, Eq, Structural)]
pub struct UnkInfo1Subsection {
    pub unk1: i32,
    pub subsubsection_offset_count_idk: u32,
    pub offset_to_subsubsection_offset: u32,
    pub unk4_low: u32,
    pub unk4_high: u32,
    pub subsubsection_offset: u32,
    pub unk5: u32,
}

pub open spec fn spec_encode_unk_info1(s: UnkInfo1Subsection) -> Seq<u8> {
    le32_bytes(s.unk1 as u32) + le32_bytes(s.subsubsection_offset_count_idk) + le32_bytes(
        s.offset_to_subsubsection_offset,
    ) + le32_bytes(s.unk4_low) + le32_bytes(s.unk4_high) + le32_bytes(s.subsubsection_offset)
        + le32_bytes(s.unk5)
}

impl UnkInfo1Subsection {
    pub fn decode(b: &Vec<u8>, p: usize) -> (r: Result<(UnkInfo1Subsection, usize), KtslError>)
        requires
            p <= b.len(),
        ensures
            match r {
                Ok((s, end)) => end == p + 28 && end <= b.len() && s.unk1 == le32_at(
                    b@,
                    p as int,
                ) as i32 && s.subsubsection_offset_count_idk == le32_at(b@, p + 4)
                    && s.offset_to_subsubsection_offset == le32_at(b@, p + 8) && s.unk4_low
                    == le32_at(b@, p + 12) && s.unk4_high == le32_at(b@, p + 16)
                    && s.subsubsection_offset == le32_at(b@, p + 20) && s.unk5 == le32_at(
                    b@,
                    p + 24,
                ),
                Err(e) => e == KtslError::Truncated && p + 28 > b.len(),
            },
    {
        let n = b.len();
        if n - p < 28 {
            return Err(KtslError::Truncated);
        }
        Ok(
            (
                UnkInfo1Subsection {
                    unk1: read_u32_le(b, p) as i32,
                    subsubsection_offset_count_idk: read_u32_le(b, p + 4),
                    offset_to_subsubsection_offset: read_u32_le(b, p + 8),
                    unk4_low: read_u32_le(b, p + 12),
                    unk4_high: read_u32_le(b, p + 16),
                    subsubsection_offset: read_u32_le(b, p + 20),
                    unk5: read_u32_le(b, p + 24),
                },
                p + 28,
            ),
        )
    }

    pub fn encode_to(&self, out: &mut Vec<u8>)
        ensures
            final(out)@ == old(out)@ + spec_encode_unk_info1(*self),
    {
        let ghost base = out@;
        push_u32_le(out, self.unk1 as u32);
        push_u32_le(out, self.subsubsection_offset_count_idk);
        push_u32_le(out, self.offset_to_subsubsection_offset);
        push_u32_le(out, self.unk4_low);
        push_u32_le(out, self.unk4_high);
        push_u32_le(out, self.subsubsection_offset);
        push_u32_le(out, self.unk5);
        proof {
            assert(out@ =~= base + spec_encode_unk_info1(*self));
        }
    }
}

/// An embedded audio entry inside the metadata archive: the same layout as
/// an audio-archive entry, with the magic taking the place of the section
/// type field.
#[derive(Debug, Clone)]
pub struct KtssSection {
    pub section_size: u32,
    pub link_id: u32,
    pub header_size: u32,
    pub ktss_size: u32,
    pub ktss: Ktss,
}

#[verifier::ext_equal]
pub struct KtssSectionView {
    pub section_size: u32,
    pub link_id: u32,
    pub header_size: u32,
    pub ktss_size: u32,
    pub ktss: KtssView,
}

impl View for KtssSection {
    type V = KtssSectionView;

    open spec fn view(&self) -> KtssSectionView {
        KtssSectionView {
            section_size: self.section_size,
            link_id: self.link_id,
            header_size: self.header_size,
            ktss_size: self.ktss_size,
            ktss: self.ktss@,
        }
    }
}

impl KtssSectionView {
    pub open spec fn valid(self) -> bool {
        self.ktss.valid()
    }

    pub open spec fn bounded(self) -> bool {
        spec_encode_ktss(self.ktss).len() + 0x80 <= u32::MAX
    }
}

/// Body of an embedded audio entry, at `p` just after the magic; `start` is
/// the position of the magic itself, which anchors the 0x40 alignment.
#[verifier::opaque]
pub open spec fn spec_parse_ktss_section(b: Seq<u8>, start: int) -> Result<
    (KtssSectionView, int),
    KtslError,
> {
    if start + 0x40 > b.len() {
        Err(KtslError::Truncated)
    } else {
        match spec_parse_ktss(b, start + 0x40) {
            Err(e) => Err(e),
            Ok((k, kend)) => {
                let end = start + align_up(kend - start, 0x40);
                if end > b.len() {
                    Err(KtslError::Truncated)
                } else {
                    Ok(
                        (
                            KtssSectionView {
                                section_size: le32_at(b, start + 4),
                                link_id: le32_at(b, start + 8),
                                header_size: le32_at(b, start + 12),
                                ktss_size: le32_at(b, start + 16),
                                ktss: k,
                            },
                            end,
                        ),
                    )
                }
            },
        }
    }
}

/// Zero filler after the embedded substream of an audio entry section.
pub open spec fn ktss_section_tail_pad(s: KtssSectionView) -> int {
    align_up(spec_encode_ktss(s.ktss).len() as int, 0x40) - spec_encode_ktss(s.ktss).len()
}

/// Body of an embedded audio entry (everything after the magic).
pub open spec fn spec_encode_ktss_section(s: KtssSectionView) -> Seq<u8> {
    le32_bytes(s.section_size) + le32_bytes(s.link_id) + le32_bytes(s.header_size) + le32_bytes(
        s.ktss_size,
    ) + zeros(0x2c) + spec_encode_ktss(s.ktss) + zeros(ktss_section_tail_pad(s) as nat)
}

impl KtssSection {
    /// Decode the body at `p` (just after the magic at `p - 4`).
    pub fn decode(b: &Vec<u8>, p: usize) -> (r: Result<(KtssSection, usize), KtslError>)
        requires
            4 <= p <= b.len(),
        ensures
            match r {
                Ok((s, end)) => spec_parse_ktss_section(b@, p - 4) == Ok::<
                    (KtssSectionView, int),
                    KtslError,
                >((s@, end as int)) && p + 0x3c <= end <= b.len(),
                Err(e) => spec_parse_ktss_section(b@, p - 4) == Err::<
                    (KtssSectionView, int),
                    KtslError,
                >(e),
            },
    {
        proof {
            reveal(spec_parse_ktss_section);
        }
        let start = p - 4;
        let n = b.len();
        if n - start < 0x40 {
            return Err(KtslError::Truncated);
        }
        let (ktss, kend) = match Ktss::decode(b, start + 0x40) {
            Ok(ok) => ok,
            Err(e) => {
                return Err(e);
            },
        };
        let rem: usize = (kend - start) % 0x40;
        let pad: usize = if rem == 0 {
            0
        } else {
            0x40 - rem
        };
        proof {
            lemma_align_up(kend - start, 0x40);
            assert(kend - start + pad == align_up(kend - start, 0x40));
        }
        if pad > n - kend {
            return Err(KtslError::Truncated);
        }
        let end = kend + pad;
        let s = KtssSection {
            section_size: read_u32_le(b, start + 4),
            link_id: read_u32_le(b, start + 8),
            header_size: read_u32_le(b, start + 12),
            ktss_size: read_u32_le(b, start + 16),
            ktss,
        };
        proof {
            assert(s@ =~= (match spec_parse_ktss_section(b@, start as int) {
                Ok((v, _)) => v,
                Err(_) => s@,
            }));
        }
        Ok((s, end))
    }

    /// Append the body's encoding to `out`.
    pub fn encode_to(&self, out: &mut Vec<u8>)
        requires
            self@.valid(),
            spec_encode_ktss(self@.ktss).len() + 0x40 <= usize::MAX,
        ensures
            final(out)@ == old(out)@ + spec_encode_ktss_section(self@),
    {
        let ghost base = out@;
        push_u32_le(out, self.section_size);
        push_u32_le(out, self.link_id);
        push_u32_le(out, self.header_size);
        push_u32_le(out, self.ktss_size);
        push_zeros(out, 0x2c);
        let start = out.len();
        self.ktss.encode_to(out);
        let klen = out.len() - start;
        let rem: usize = klen % 0x40;
        let pad: usize = if rem == 0 {
            0
        } else {
            0x40 - rem
        };
        proof {
            lemma_align_up(klen as int, 0x40);
            assert(klen + pad == align_up(klen as int, 0x40));
        }
        push_zeros(out, pad);
        proof {
            assert(out@ =~= base + spec_encode_ktss_section(self@));
        }
    }
}

/// A parsed companion record re-encodes to exactly the bytes it was read
/// from: every byte, the undeciphered regions included, is preserved.
#[verifier::spinoff_prover]
#[verifier::rlimit(100)]
pub proof fn lemma_companion_reencode(b: Seq<u8>, p: int, c: KtssCompanionSectionView, end: int)
    requires
        0 <= p,
        spec_parse_companion(b, p) == Ok::<(KtssCompanionSectionView, int), KtslError>((c, end)),
    ensures
        spec_encode_companion(c) == b.subrange(p, end),
{
    crate::bytes::lemma_le32_bytes_at(b, p);
    crate::bytes::lemma_le32_bytes_at(b, p + 4);
    crate::bytes::lemma_le32_bytes_at(b, p + 0x18);
    crate::bytes::lemma_le32_bytes_at(b, p + 0x1c);
    crate::bytes::lemma_le32_bytes_at(b, p + 0x20);
    crate::bytes::lemma_le32_bytes_at(b, p + 0x24);
    crate::bytes::lemma_le32_bytes_at(b, p + 0x28);
    crate::bytes::lemma_le32_bytes_at(b, p + 0x2c);
    crate::bytes::lemma_le32_bytes_at(b, p + 0x30);
    crate::bytes::lemma_le32_bytes_at(b, p + 0x34);
    crate::bytes::lemma_le32_bytes_at(b, p + 0x38);
    crate::bytes::lemma_le32_bytes_at(b, p + 0x3c);
    crate::bytes::lemma_le32_bytes_at(b, p + 0x40);
    crate::bytes::lemma_le32_bytes_at(b, p + 0x50);
    crate::bytes::lemma_le32_bytes_at(b, p + 0x54);
    crate::bytes::lemma_le32_bytes_at(b, p + 0x58);
    assert(spec_encode_companion(c) =~= b.subrange(p, end));
}

/// A parsed padding section re-encodes to exactly its bytes.
pub proof fn lemma_padding_reencode(b: Seq<u8>, p: int, s: PaddingSectionView, end: int)
    requires
        0 <= p,
        spec_parse_padding(b, p) == Ok::<(PaddingSectionView, int), KtslError>((s, end)),
    ensures
        spec_encode_padding(s) == b.subrange(p, end),
{
    crate::bytes::lemma_le32_bytes_at(b, p);
    assert(spec_encode_padding(s) =~= b.subrange(p, end));
}

/// A parsed info section re-encodes to exactly its bytes.
pub proof fn lemma_info_reencode(b: Seq<u8>, p: int, s: InfoSectionView, end: int)
    requires
        0 <= p,
        spec_parse_info(b, p) == Ok::<(InfoSectionView, int), KtslError>((s, end)),
    ensures
        spec_encode_info(s) == b.subrange(p, end),
{
    crate::bytes::lemma_le32_bytes_at(b, p);
    crate::bytes::lemma_le32_bytes_at(b, p + 4);
    crate::bytes::lemma_le16_bytes_at(b, p + 8);
    crate::bytes::lemma_le16_bytes_at(b, p + 10);
    crate::bytes::lemma_le32_bytes_at(b, p + 12);
    crate::bytes::lemma_le32_bytes_at(b, p + 16);
    crate::bytes::lemma_le32_bytes_at(b, p + 20);
    assert(spec_encode_info(s) =~= b.subrange(p, end));
}

/// What a successful companion parse consumed is its body's encoded length.
pub proof fn lemma_parse_companion_len(
    b: Seq<u8>,
    p: int,
    c: KtssCompanionSectionView,
    end: int,
)
    requires
        0 <= p,
        spec_parse_companion(b, p) == Ok::<(KtssCompanionSectionView, int), KtslError>((c, end)),
    ensures
        c.valid(),
        p < end <= b.len(),
        end - p == spec_encode_companion(c).len(),
{
}

pub proof fn lemma_parse_padding_len(b: Seq<u8>, p: int, s: PaddingSectionView, end: int)
    requires
        0 <= p,
        spec_parse_padding(b, p) == Ok::<(PaddingSectionView, int), KtslError>((s, end)),
    ensures
        s.valid(),
        p < end <= b.len(),
        end - p == spec_encode_padding(s).len(),
{
}

pub proof fn lemma_parse_info_len(b: Seq<u8>, p: int, s: InfoSectionView, end: int)
    requires
        0 <= p,
        spec_parse_info(b, p) == Ok::<(InfoSectionView, int), KtslError>((s, end)),
    ensures
        s.valid(),
        p < end <= b.len(),
        end - p == spec_encode_info(s).len(),
{
}

pub proof fn lemma_parse_ktss_section_len(b: Seq<u8>, start: int, s: KtssSectionView, end: int)
    requires
        0 <= start,
        spec_parse_ktss_section(b, start) == Ok::<(KtssSectionView, int), KtslError>((s, end)),
    ensures
        s.valid(),
        start < end <= b.len(),
        end - start == 4 + spec_encode_ktss_section(s).len(),
{
    reveal(spec_parse_ktss_section);
    match spec_parse_ktss(b, start + 0x40) {
        Ok((k, kend)) => {
            crate::ktss::lemma_parse_ktss_len(b, start + 0x40, k, kend);
            let el = spec_encode_ktss(k).len() as int;
            assert(kend - start == 0x40 + el);
            crate::align::lemma_align_up_add_multiple(0x40, el, 0x40);
            lemma_align_up(el, 0x40);
        },
        Err(_) => {
            assert(false);
        },
    }
}

/// What a successful section parse consumed is exactly the encoded length
/// of the section it produced, and that section is valid.
#[verifier::spinoff_prover]
#[verifier::rlimit(100)]
pub proof fn lemma_parse_section_len(b: Seq<u8>, p: int, s: SectionView, end: int)
    requires
        0 <= p,
        spec_parse_section(b, p) == Ok::<(SectionView, int), KtslError>((s, end)),
    ensures
        s.valid(),
        p < end <= b.len(),
        end - p == spec_encode_section(s).len(),
{
    reveal(spec_parse_section);
    let magic = le32_at(b, p);
    if magic == INFO_SECTION_MAGIC {
        match spec_parse_info(b, p + 4) {
            Ok((v, e2)) => {
                lemma_parse_info_len(b, p + 4, v, e2);
            },
            Err(_) => {
                assert(false);
            },
        }
    } else if magic == ADPCM_SECTION_MAGIC {
        match spec_parse_companion(b, p + 4) {
            Ok((v, e2)) => {
                lemma_parse_companion_len(b, p + 4, v, e2);
            },
            Err(_) => {
                assert(false);
            },
        }
    } else if magic == KTSS_IN_ASBIN_MAGIC {
        match spec_parse_ktss_section(b, p) {
            Ok((v, e2)) => {
                lemma_parse_ktss_section_len(b, p, v, e2);
            },
            Err(_) => {
                assert(false);
            },
        }
    } else if magic == PADDING_SECTION_MAGIC {
        match spec_parse_padding(b, p + 4) {
            Ok((v, e2)) => {
                lemma_parse_padding_len(b, p + 4, v, e2);
            },
            Err(_) => {
                assert(false);
            },
        }
    } else {
        assert(false);
    }
}

/// A section of the metadata archive, discriminated by the 4-byte magic
/// read just before its body.
#[derive(Debug, Clone)]
pub enum Section {
    Info1(InfoSection),
    Adpcm(KtssCompanionSection),
    Ktss(KtssSection),
    Padding(PaddingSection),
    Unknown(UnknownSection),
}

#[verifier::ext_equal]
pub enum SectionView {
    Info1(InfoSectionView),
    Adpcm(KtssCompanionSectionView),
    Ktss(KtssSectionView),
    Padding(PaddingSectionView),
    Unknown(UnknownSectionView),
}

impl View for Section {
    type V = SectionView;

    open spec fn view(&self) -> SectionView {
        match self {
            Section::Info1(s) => SectionView::Info1(s@),
            Section::Adpcm(s) => SectionView::Adpcm(s@),
            Section::Ktss(s) => SectionView::Ktss(s@),
            Section::Padding(s) => SectionView::Padding(s@),
            Section::Unknown(s) => SectionView::Unknown(s@),
        }
    }
}

impl SectionView {
    pub open spec fn valid(self) -> bool {
        match self {
            SectionView::Info1(s) => s.valid(),
            SectionView::Adpcm(s) => s.valid(),
            SectionView::Ktss(s) => s.valid(),
            SectionView::Padding(s) => s.valid(),
            SectionView::Unknown(s) => s.valid(),
        }
    }

    pub open spec fn bounded(self) -> bool {
        match self {
            SectionView::Ktss(s) => s.bounded(),
            _ => true,
        }
    }
}

/// Magic then body. An unknown magic is a hard format error.
#[verifier::opaque]
pub open spec fn spec_parse_section(b: Seq<u8>, p: int) -> Result<(SectionView, int), KtslError> {
    if p + 4 > b.len() {
        Err(KtslError::Truncated)
    } else {
        let magic = le32_at(b, p);
        if magic == INFO_SECTION_MAGIC {
            match spec_parse_info(b, p + 4) {
                Ok((s, end)) => Ok((SectionView::Info1(s), end)),
                Err(e) => Err(e),
            }
        } else if magic == ADPCM_SECTION_MAGIC {
            match spec_parse_companion(b, p + 4) {
                Ok((s, end)) => Ok((SectionView::Adpcm(s), end)),
                Err(e) => Err(e),
            }
        } else if magic == KTSS_IN_ASBIN_MAGIC {
            match spec_parse_ktss_section(b, p) {
                Ok((s, end)) => Ok((SectionView::Ktss(s), end)),
                Err(e) => Err(e),
            }
        } else if magic == PADDING_SECTION_MAGIC {
            match spec_parse_padding(b, p + 4) {
                Ok((s, end)) => Ok((SectionView::Padding(s), end)),
                Err(e) => Err(e),
            }
        } else {
            Err(KtslError::BadMagic)
        }
    }
}

/// The magic a section is written under. The unknown section is written
/// under the shared magic it historically carried.
pub open spec fn section_magic(s: SectionView) -> u32 {
    match s {
        SectionView::Info1(_) => INFO_SECTION_MAGIC,
        SectionView::Adpcm(_) => ADPCM_SECTION_MAGIC,
        SectionView::Ktss(_) => KTSS_IN_ASBIN_MAGIC,
        SectionView::Padding(_) => PADDING_SECTION_MAGIC,
        SectionView::Unknown(_) => INFO_SECTION_MAGIC,
    }
}

pub open spec fn spec_encode_section(s: SectionView) -> Seq<u8> {
    le32_bytes(section_magic(s)) + match s {
        SectionView::Info1(v) => spec_encode_info(v),
        SectionView::Adpcm(v) => spec_encode_companion(v),
        SectionView::Ktss(v) => spec_encode_ktss_section(v),
        SectionView::Padding(v) => spec_encode_padding(v),
        SectionView::Unknown(v) => spec_encode_unknown(v),
    }
}

impl Section {
    /// Decode one section at `p`: read the magic, dispatch to the matching
    /// variant.
    pub fn decode(b: &Vec<u8>, p: usize) -> (r: Result<(Section, usize), KtslError>)
        requires
            p <= b.len(),
        ensures
            match r {
                Ok((s, end)) => spec_parse_section(b@, p as int) == Ok::<
                    (SectionView, int),
                    KtslError,
                >((s@, end as int)) && p < end <= b.len(),
                Err(e) => spec_parse_section(b@, p as int) == Err::<(SectionView, int), KtslError>(
                    e,
                ),
            },
    {
        proof {
            reveal(spec_parse_section);
        }
        let n = b.len();
        if n - p < 4 {
            return Err(KtslError::Truncated);
        }
        let magic = read_u32_le(b, p);
        if magic == INFO_SECTION_MAGIC {
            match InfoSection::decode(b, p + 4) {
                Ok((s, end)) => Ok((Section::Info1(s), end)),
                Err(e) => Err(e),
            }
        } else if magic == ADPCM_SECTION_MAGIC {
            match KtssCompanionSection::decode(b, p + 4) {
                Ok((s, end)) => Ok((Section::Adpcm(s), end)),
                Err(e) => Err(e),
            }
        } else if magic == KTSS_IN_ASBIN_MAGIC {
            match KtssSection::decode(b, p + 4) {
                Ok((s, end)) => Ok((Section::Ktss(s), end)),
                Err(e) => Err(e),
            }
        } else if magic == PADDING_SECTION_MAGIC {
            match PaddingSection::decode(b, p + 4) {
                Ok((s, end)) => Ok((Section::Padding(s), end)),
                Err(e) => Err(e),
            }
        } else {
            Err(KtslError::BadMagic)
        }
    }

    /// Append the section's encoding — magic, then body — to `out`.
    pub fn encode_to(&self, out: &mut Vec<u8>)
        requires
            self@.valid(),
            self@.bounded(),
        ensures
            final(out)@ == old(out)@ + spec_encode_section(self@),
    {
        match self {
            Section::Info1(s) => {
                push_u32_le(out, INFO_SECTION_MAGIC);
                s.encode_to(out);
                proof {
                    assert(out@ =~= old(out)@ + spec_encode_section(self@));
                }
            },
            Section::Adpcm(s) => {
                push_u32_le(out, ADPCM_SECTION_MAGIC);
                s.encode_to(out);
                proof {
                    assert(out@ =~= old(out)@ + spec_encode_section(self@));
                }
            },
            Section::Ktss(s) => {
                push_u32_le(out, KTSS_IN_ASBIN_MAGIC);
                s.encode_to(out);
                proof {
                    assert(out@ =~= old(out)@ + spec_encode_section(self@));
                }
            },
            Section::Padding(s) => {
                push_u32_le(out, PADDING_SECTION_MAGIC);
                s.encode_to(out);
                proof {
                    assert(out@ =~= old(out)@ + spec_encode_section(self@));
                }
            },
            Section::Unknown(s) => {
                push_u32_le(out, INFO_SECTION_MAGIC);
                s.encode_to(out);
                proof {
                    assert(out@ =~= old(out)@ + spec_encode_section(self@));
                }
            },
        }
    }
}

} // verus!
