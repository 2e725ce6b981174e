//! The fixed archive header shared by both archive kinds. Two revisions
//! exist: the classic layout is zero-padded to 0x40 bytes; the newer layout
//! replaces the trailing padding with a 1-byte seed length and that many raw
//! seed bytes. The revision is an explicit mode of the codec, never guessed.

use vstd::prelude::*;

use crate::bytes::le16_at;
use crate::bytes::le16_bytes;
use crate::bytes::le32_at;
use crate::bytes::le32_bytes;
use crate::bytes::le64_at;
use crate::bytes::le64_bytes;
use crate::bytes::lemma_le16_at_of_subrange;
use crate::bytes::lemma_le16_bytes_at;
use crate::bytes::lemma_le32_at_of_subrange;
use crate::bytes::lemma_le32_bytes_at;
use crate::bytes::lemma_le64_at_of_subrange;
use crate::bytes::lemma_le64_bytes_at;
use crate::bytes::lemma_subrange_within;
use crate::bytes::push_bytes;
use crate::bytes::push_u16_le;
use crate::bytes::push_u32_le;
use crate::bytes::push_u64_le;
use crate::bytes::push_zeros;
use crate::bytes::read_bytes;
use crate::bytes::read_u16_le;
use crate::bytes::read_u32_le;
use crate::bytes::read_u64_le;
use crate::bytes::read_u8;
use crate::bytes::zeros;
use crate::errors::KtslError;
use crate::tags::Filetype;
use crate::tags::Game;
use crate::tags::Platform;

verus! {

/// Size in bytes of the classic archive header, and of each entry header.
pub const KTSL_HEADER_SIZE: u32 = 0x40;

/// The archive header. `enc_seed` is `None` in the classic revision and
/// holds the encryption seed bytes in the newer one.
#[derive(Debug, Clone)]
pub struct Ktsr {
    pub filetype: Filetype,
    pub flags: u16,
    pub platform: Platform,
    pub game: Game,
    pub padding: u64,
    pub decomp_size: u32,
    pub comp_size: u32,
    pub enc_seed: Option<Vec<u8>>,
}

#[verifier::ext_equal]
pub struct KtsrView {
    pub filetype: Filetype,
    pub flags: u16,
    pub platform: Platform,
    pub game: Game,
    pub padding: u64,
    pub decomp_size: u32,
    pub comp_size: u32,
    pub enc_seed: Option<Seq<u8>>,
}

impl View for Ktsr {
    type V = KtsrView;

    open spec fn view(&self) -> KtsrView {
        KtsrView {
            filetype: self.filetype,
            flags: self.flags,
            platform: self.platform,
            game: self.game,
            padding: self.padding,
            decomp_size: self.decomp_size,
            comp_size: self.comp_size,
            enc_seed: match self.enc_seed {
                Some(ref s) => Some(s@),
                None => None,
            },
        }
    }
}

impl KtsrView {
    /// Tags are canonical (decoding produces nothing else) and a seed, if
    /// present, fits its 1-byte length field.
    pub open spec fn valid(self) -> bool {
        &&& self.filetype.canonical()
        &&& self.platform.canonical()
        &&& self.game.canonical()
        &&& match self.enc_seed {
            Some(s) => s.len() <= 255,
            None => true,
        }
    }
}

/// The fixed 4-byte magic, "KTSR" in ASCII.
pub open spec fn ktsr_magic() -> Seq<u8> {
    seq![0x4bu8, 0x54u8, 0x53u8, 0x52u8]
}

/// The 32 leading bytes common to both revisions.
pub open spec fn ktsr_fixed(h: KtsrView) -> Seq<u8> {
    ktsr_magic() + le32_bytes(h.filetype.raw_spec()) + le16_bytes(h.flags) + le16_bytes(
        h.platform.raw_spec(),
    ) + le32_bytes(h.game.raw_spec()) + le64_bytes(h.padding) + le32_bytes(h.decomp_size)
        + le32_bytes(h.comp_size)
}

pub open spec fn spec_encode_ktsr(h: KtsrView) -> Seq<u8> {
    match h.enc_seed {
        None => ktsr_fixed(h) + zeros(0x20),
        Some(s) => ktsr_fixed(h) + seq![s.len() as u8] + s,
    }
}

/// Parse a header from the start of the stream. `seeded` selects the
/// revision: it decides whether the bytes after the fixed fields are padding
/// or a seed.
pub open spec fn spec_parse_ktsr(b: Seq<u8>, seeded: bool) -> Result<(KtsrView, int), KtslError> {
    if b.len() < 0x20 {
        Err(KtslError::Truncated)
    } else if !(b[0] == 0x4b && b[1] == 0x54 && b[2] == 0x53 && b[3] == 0x52) {
        Err(KtslError::BadMagic)
    } else {
        let fixed = KtsrView {
            filetype: Filetype::from_raw_spec(le32_at(b, 4)),
            flags: le16_at(b, 8),
            platform: Platform::from_raw_spec(le16_at(b, 10)),
            game: Game::from_raw_spec(le32_at(b, 12)),
            padding: le64_at(b, 16),
            decomp_size: le32_at(b, 24),
            comp_size: le32_at(b, 28),
            enc_seed: None,
        };
        if seeded {
            let sl = b[0x20] as int;
            if 0x21 + sl > b.len() {
                Err(KtslError::Truncated)
            } else {
                Ok(
                    (
                        KtsrView { enc_seed: Some(b.subrange(0x21, 0x21 + sl)), ..fixed },
                        0x21 + sl,
                    ),
                )
            }
        } else {
            if b.len() < 0x40 {
                Err(KtslError::Truncated)
            } else {
                Ok((fixed, 0x40))
            }
        }
    }
}

/// The header a freshly built audio archive starts from: empty size fields,
/// the one platform and game the tool was written for.
pub open spec fn default_ktsr() -> KtsrView {
    KtsrView {
        filetype: Filetype::Stream,
        flags: 1,
        platform: Platform::Switch,
        game: Game::ThreeHouses,
        padding: 0,
        decomp_size: 0,
        comp_size: 0,
        enc_seed: None,
    }
}

impl Ktsr {
    /// A fresh audio-archive header with empty size fields.
    pub fn new() -> (r: Ktsr)
        ensures
            r@ == default_ktsr(),
            r@.valid(),
    {
        Ktsr {
            filetype: Filetype::Stream,
            flags: 1,
            platform: Platform::Switch,
            game: Game::ThreeHouses,
            padding: 0,
            decomp_size: 0,
            comp_size: 0,
            enc_seed: None,
        }
    }

    /// Decode a header from the start of the stream, in the revision that
    /// `seeded` names.
    pub fn decode(b: &Vec<u8>, seeded: bool) -> (r: Result<(Ktsr, usize), KtslError>)
        ensures
            match r {
                Ok((h, end)) => spec_parse_ktsr(b@, seeded) == Ok::<(KtsrView, int), KtslError>(
                    (h@, end as int),
                ) && end <= b.len() && h@.valid(),
                Err(e) => spec_parse_ktsr(b@, seeded) == Err::<(KtsrView, int), KtslError>(e),
            },
    {
        let n = b.len();
        if n < 0x20 {
            return Err(KtslError::Truncated);
        }
        if !(read_u8(b, 0) == 0x4b && read_u8(b, 1) == 0x54 && read_u8(b, 2) == 0x53 && read_u8(
            b,
            3,
        ) == 0x52) {
            return Err(KtslError::BadMagic);
        }
        let filetype = Filetype::from_raw(read_u32_le(b, 4));
        let flags = read_u16_le(b, 8);
        let platform = Platform::from_raw(read_u16_le(b, 10));
        let game = Game::from_raw(read_u32_le(b, 12));
        let padding = read_u64_le(b, 16);
        let decomp_size = read_u32_le(b, 24);
        let comp_size = read_u32_le(b, 28);
        if seeded {
            if n < 0x21 {
                return Err(KtslError::Truncated);
            }
            let sl = read_u8(b, 0x20) as usize;
            if sl > n - 0x21 {
                return Err(KtslError::Truncated);
            }
            let seed = read_bytes(b, 0x21, sl);
            let h = Ktsr {
                filetype,
                flags,
                platform,
                game,
                padding,
                decomp_size,
                comp_size,
                enc_seed: Some(seed),
            };
            proof {
                assert(h@ =~= (match spec_parse_ktsr(b@, seeded) {
                    Ok((v, _)) => v,
                    Err(_) => h@,
                }));
            }
            Ok((h, 0x21 + sl))
        } else {
            if n < 0x40 {
                return Err(KtslError::Truncated);
            }
            let h = Ktsr {
                filetype,
                flags,
                platform,
                game,
                padding,
                decomp_size,
                comp_size,
                enc_seed: None,
            };
            proof {
                assert(h@ =~= (match spec_parse_ktsr(b@, seeded) {
                    Ok((v, _)) => v,
                    Err(_) => h@,
                }));
            }
            Ok((h, 0x40))
        }
    }

    /// Append the header's encoding to `out`; the revision follows from
    /// whether a seed is present.
    pub fn encode_to(&self, out: &mut Vec<u8>)
        requires
            self@.valid(),
        ensures
            final(out)@ == old(out)@ + spec_encode_ktsr(self@),
    {
        let ghost base = out@;
        out.push(0x4b);
        out.push(0x54);
        out.push(0x53);
        out.push(0x52);
        push_u32_le(out, self.filetype.raw());
        push_u16_le(out, self.flags);
        push_u16_le(out, self.platform.raw());
        push_u32_le(out, self.game.raw());
        push_u64_le(out, self.padding);
        push_u32_le(out, self.decomp_size);
        push_u32_le(out, self.comp_size);
        proof {
            assert(out@ =~= base + ktsr_fixed(self@));
        }
        match &self.enc_seed {
            None => {
                push_zeros(out, 0x20);
                proof {
                    assert(out@ =~= base + spec_encode_ktsr(self@));
                }
            },
            Some(seed) => {
                out.push(seed.len() as u8);
                push_bytes(out, seed);
                proof {
                    assert(out@ =~= base + (ktsr_fixed(self@) + seq![seed@.len() as u8] + seed@));
                }
            },
        }
    }

    /// The header's encoding as a fresh byte vector.
    pub fn encode(&self) -> (r: Vec<u8>)
        requires
            self@.valid(),
        ensures
            r@ == spec_encode_ktsr(self@),
    {
        let mut out: Vec<u8> = Vec::new();
        self.encode_to(&mut out);
        proof {
            assert(Seq::<u8>::empty() + spec_encode_ktsr(self@) =~= spec_encode_ktsr(self@));
        }
        out
    }
}

/// Encoding a valid header and parsing it back, in the revision the seed
/// field implies, yields the header and consumes its encoded length.
pub proof fn lemma_ktsr_encode_then_decode(b: Seq<u8>, h: KtsrView)
    requires
        h.valid(),
        spec_encode_ktsr(h).len() <= b.len(),
        b.subrange(0, spec_encode_ktsr(h).len() as int) == spec_encode_ktsr(h),
        h.enc_seed is None ==> b.len() >= 0x40,
    ensures
        spec_parse_ktsr(b, h.enc_seed is Some) == Ok::<(KtsrView, int), KtslError>(
            (h, spec_encode_ktsr(h).len() as int),
        ),
{
    let enc = spec_encode_ktsr(h);
    let L = enc.len() as int;
    assert(ktsr_fixed(h).len() == 0x20);
    assert forall|j: int| 0 <= j < L implies b[j] == enc[j] by {
        assert(enc[j] == b.subrange(0, L)[j]);
    }
    lemma_subrange_within(b, 0, enc, 4, 8);
    assert(enc.subrange(4, 8) =~= le32_bytes(h.filetype.raw_spec()));
    lemma_le32_at_of_subrange(b, 4, h.filetype.raw_spec());
    lemma_subrange_within(b, 0, enc, 8, 10);
    assert(enc.subrange(8, 10) =~= le16_bytes(h.flags));
    lemma_le16_at_of_subrange(b, 8, h.flags);
    lemma_subrange_within(b, 0, enc, 10, 12);
    assert(enc.subrange(10, 12) =~= le16_bytes(h.platform.raw_spec()));
    lemma_le16_at_of_subrange(b, 10, h.platform.raw_spec());
    lemma_subrange_within(b, 0, enc, 12, 16);
    assert(enc.subrange(12, 16) =~= le32_bytes(h.game.raw_spec()));
    lemma_le32_at_of_subrange(b, 12, h.game.raw_spec());
    lemma_subrange_within(b, 0, enc, 16, 24);
    assert(enc.subrange(16, 24) =~= le64_bytes(h.padding));
    lemma_le64_at_of_subrange(b, 16, h.padding);
    lemma_subrange_within(b, 0, enc, 24, 28);
    assert(enc.subrange(24, 28) =~= le32_bytes(h.decomp_size));
    lemma_le32_at_of_subrange(b, 24, h.decomp_size);
    lemma_subrange_within(b, 0, enc, 28, 32);
    assert(enc.subrange(28, 32) =~= le32_bytes(h.comp_size));
    lemma_le32_at_of_subrange(b, 28, h.comp_size);
    match h.enc_seed {
        None => {
            match spec_parse_ktsr(b, false) {
                Ok((h2, e2)) => {
                    assert(h2 =~= h);
                    assert(e2 == 0x40);
                },
                Err(_) => {
                    assert(false);
                },
            }
        },
        Some(s) => {
            assert(b[0x20] == enc[0x20]);
            assert(enc[0x20] == s.len() as u8);
            assert(s.len() <= 255);
            lemma_subrange_within(b, 0, enc, 0x21, L);
            assert(enc.subrange(0x21, L) =~= s);
            match spec_parse_ktsr(b, true) {
                Ok((h2, e2)) => {
                    assert(h2 =~= h);
                    assert(e2 == L);
                },
                Err(_) => {
                    assert(false);
                },
            }
        },
    }
}

/// A parsed header is valid and — if the classic revision's trailing filler
/// was zero — re-encodes to exactly the bytes it was read from.
pub proof fn lemma_ktsr_decode_then_encode(b: Seq<u8>, seeded: bool, h: KtsrView, end: int)
    requires
        spec_parse_ktsr(b, seeded) == Ok::<(KtsrView, int), KtslError>((h, end)),
        !seeded ==> forall|j: int| 0x20 <= j < 0x40 ==> b[j] == 0,
    ensures
        h.valid(),
        0x20 <= end <= b.len(),
        spec_encode_ktsr(h) == b.subrange(0, end),
{
    lemma_le32_bytes_at(b, 4);
    lemma_le16_bytes_at(b, 8);
    lemma_le16_bytes_at(b, 10);
    lemma_le32_bytes_at(b, 12);
    lemma_le64_bytes_at(b, 16);
    lemma_le32_bytes_at(b, 24);
    lemma_le32_bytes_at(b, 28);
    assert(ktsr_fixed(h) =~= b.subrange(0, 0x20));
    if seeded {
        let sl = b[0x20] as int;
        assert(h.enc_seed == Some(b.subrange(0x21, 0x21 + sl)));
        assert(spec_encode_ktsr(h) =~= b.subrange(0, 0x20) + seq![b[0x20]] + b.subrange(
            0x21,
            0x21 + sl,
        ));
        assert(b.subrange(0, 0x20) + seq![b[0x20]] + b.subrange(0x21, 0x21 + sl) =~= b.subrange(
            0,
            end,
        ));
    } else {
        assert(spec_encode_ktsr(h) =~= b.subrange(0, 0x20) + zeros(0x20));
        assert(b.subrange(0, 0x20) + zeros(0x20) =~= b.subrange(0, 0x40));
    }
}

} // verus!
