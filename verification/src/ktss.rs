//! The KTSS audio substream: a fixed little-endian header, a channel-mapping
//! table, and an ordered sequence of size-prefixed frames. Frame fields and
//! payloads are big-endian — the opposite byte order from the header — and
//! that reversal must be preserved exactly for round-trip fidelity.
//!
//! Layout, relative to the substream start: magic and `section_size` at 0,
//! then padding up to 0x20 where the codec byte sits; scalar fields up to
//! 0x5C; `channel_count` mapping bytes; padding up to the next 0x10 boundary
//! (skipped bytes are not validated); then `frame_count` frames, each
//! `size` (4, big-endian) + tag (4, big-endian) + `size` payload bytes.

use vstd::prelude::*;

use crate::align::align_up;
use crate::align::lemma_align_up;
use crate::align::pad_to;
use crate::bytes::be32_at;
use crate::bytes::be32_bytes;
use crate::bytes::le16_at;
use crate::bytes::le16_bytes;
use crate::bytes::le32_at;
use crate::bytes::le32_bytes;
use crate::bytes::lemma_be32_bytes_at;
use crate::bytes::push_bytes;
use crate::bytes::push_u16_le;
use crate::bytes::push_u32_be;
use crate::bytes::push_u32_le;
use crate::bytes::push_zeros;
use crate::bytes::read_bytes;
use crate::bytes::read_u16_le;
use crate::bytes::read_u32_be;
use crate::bytes::read_u32_le;
use crate::bytes::read_u8;
use crate::bytes::zeros;
use crate::errors::KtslError;

verus! {

/// One audio frame: a declared size, an auxiliary tag, and exactly `size`
/// opaque payload bytes.
#[derive(Debug, Clone)]
pub struct LopusPacket {
    pub size: u32,
    pub unk: u32,
    pub content: Vec<u8>,
}

#[verifier::ext_equal]
pub struct LopusPacketView {
    pub size: u32,
    pub unk: u32,
    pub content: Seq<u8>,
}

impl View for LopusPacket {
    type V = LopusPacketView;

    open spec fn view(&self) -> LopusPacketView {
        LopusPacketView { size: self.size, unk: self.unk, content: self.content@ }
    }
}

impl LopusPacketView {
    /// The payload holds exactly the declared number of bytes.
    pub open spec fn valid(self) -> bool {
        self.content.len() == self.size as int
    }
}

/// The audio substream: header fields, channel mapping, frames.
#[derive(Debug, Clone)]
pub struct Ktss {
    pub magic: u32,
    pub section_size: u32,
    pub codec: u8,
    pub unk1: u8,
    pub unk2: u8,
    pub unk3: u8,
    pub codec_start_offset: u32,
    pub layer_count: u8,
    pub channel_count: u8,
    pub unk4: u16,
    pub sample_rate: u32,
    pub sample_count: u32,
    pub loop_start: u32,
    pub loop_length: u32,
    pub padding: u32,
    pub audio_section_addr: u32,
    pub audio_section_size: u32,
    pub unk5: u32,
    pub frame_count: u32,
    pub frame_size: u16,
    pub some_constant: u16,
    pub orig_sample_rate: u32,
    pub skip: u16,
    pub stream_count: u8,
    pub coupled_count: u8,
    pub channel_mapping: Vec<u8>,
    pub audio: Vec<LopusPacket>,
}

#[verifier::ext_equal]
pub struct KtssView {
    pub magic: u32,
    pub section_size: u32,
    pub codec: u8,
    pub unk1: u8,
    pub unk2: u8,
    pub unk3: u8,
    pub codec_start_offset: u32,
    pub layer_count: u8,
    pub channel_count: u8,
    pub unk4: u16,
    pub sample_rate: u32,
    pub sample_count: u32,
    pub loop_start: u32,
    pub loop_length: u32,
    pub padding: u32,
    pub audio_section_addr: u32,
    pub audio_section_size: u32,
    pub unk5: u32,
    pub frame_count: u32,
    pub frame_size: u16,
    pub some_constant: u16,
    pub orig_sample_rate: u32,
    pub skip: u16,
    pub stream_count: u8,
    pub coupled_count: u8,
    pub channel_mapping: Seq<u8>,
    pub audio: Seq<LopusPacketView>,
}

pub open spec fn frames_view(s: Seq<LopusPacket>) -> Seq<LopusPacketView> {
    s.map_values(|f: LopusPacket| f@)
}

impl View for Ktss {
    type V = KtssView;

    open spec fn view(&self) -> KtssView {
        KtssView {
            magic: self.magic,
            section_size: self.section_size,
            codec: self.codec,
            unk1: self.unk1,
            unk2: self.unk2,
            unk3: self.unk3,
            codec_start_offset: self.codec_start_offset,
            layer_count: self.layer_count,
            channel_count: self.channel_count,
            unk4: self.unk4,
            sample_rate: self.sample_rate,
            sample_count: self.sample_count,
            loop_start: self.loop_start,
            loop_length: self.loop_length,
            padding: self.padding,
            audio_section_addr: self.audio_section_addr,
            audio_section_size: self.audio_section_size,
            unk5: self.unk5,
            frame_count: self.frame_count,
            frame_size: self.frame_size,
            some_constant: self.some_constant,
            orig_sample_rate: self.orig_sample_rate,
            skip: self.skip,
            stream_count: self.stream_count,
            coupled_count: self.coupled_count,
            channel_mapping: self.channel_mapping@,
            audio: frames_view(self.audio@),
        }
    }
}

impl KtssView {
    /// Structural well-formedness: the table and frame counts in the header
    /// match what the substream actually carries.
    pub open spec fn valid(self) -> bool {
        &&& self.channel_mapping.len() == self.channel_count as int
        &&& self.audio.len() == self.frame_count as int
        &&& forall|i: int| 0 <= i < self.audio.len() ==> (#[trigger] self.audio[i]).valid()
    }

    /// The declared `section_size` equals the substream's encoded byte
    /// length. Decoding does not enforce this, but the pack engine's offset
    /// arithmetic is only faithful to the emitted bytes when it holds.
    pub open spec fn size_consistent(self) -> bool {
        self.section_size as int == spec_encode_ktss(self).len()
    }
}

/// One encoded frame: big-endian size and tag, then the payload verbatim.
pub open spec fn spec_encode_frame(f: LopusPacketView) -> Seq<u8> {
    be32_bytes(f.size) + be32_bytes(f.unk) + f.content
}

pub open spec fn spec_encode_frames(fs: Seq<LopusPacketView>) -> Seq<u8>
    decreases fs.len(),
{
    if fs.len() == 0 {
        Seq::empty()
    } else {
        spec_encode_frame(fs[0]) + spec_encode_frames(fs.drop_first())
    }
}

/// The 0x5C-byte fixed header, zero filler between `section_size` and the
/// codec byte included.
pub open spec fn ktss_head(k: KtssView) -> Seq<u8> {
    le32_bytes(k.magic) + le32_bytes(k.section_size) + zeros(0x18) + seq![
        k.codec,
        k.unk1,
        k.unk2,
        k.unk3,
    ] + le32_bytes(k.codec_start_offset) + seq![k.layer_count, k.channel_count] + le16_bytes(
        k.unk4,
    ) + le32_bytes(k.sample_rate) + le32_bytes(k.sample_count) + le32_bytes(k.loop_start)
        + le32_bytes(k.loop_length) + le32_bytes(k.padding) + le32_bytes(k.audio_section_addr)
        + le32_bytes(k.audio_section_size) + le32_bytes(k.unk5) + le32_bytes(k.frame_count)
        + le16_bytes(k.frame_size) + le16_bytes(k.some_constant) + le32_bytes(k.orig_sample_rate)
        + le16_bytes(k.skip) + seq![k.stream_count, k.coupled_count]
}

/// Zero filler between the channel mapping and the 0x10-aligned frame start.
pub open spec fn ktss_map_pad(k: KtssView) -> int {
    align_up(0x5c + k.channel_mapping.len() as int, 0x10) - (0x5c
        + k.channel_mapping.len() as int)
}

#[verifier::opaque]
pub open spec fn spec_encode_ktss(k: KtssView) -> Seq<u8> {
    ktss_head(k) + k.channel_mapping + zeros(ktss_map_pad(k) as nat) + spec_encode_frames(k.audio)
}

pub proof fn lemma_ktss_head_len(k: KtssView)
    ensures
        ktss_head(k).len() == 0x5c,
{
}

pub proof fn lemma_encode_ktss_len(k: KtssView)
    ensures
        spec_encode_ktss(k).len() == align_up(0x5c + k.channel_mapping.len() as int, 0x10)
            + spec_encode_frames(k.audio).len(),
        spec_encode_ktss(k).len() >= 0x5c,
{
    reveal(spec_encode_ktss);
    lemma_align_up(0x5c + k.channel_mapping.len() as int, 0x10);
}

/// Parse of the frame sequence: `n` frames from position `p`.
pub open spec fn spec_parse_frames(b: Seq<u8>, p: int, n: nat) -> Result<
    (Seq<LopusPacketView>, int),
    KtslError,
>
    decreases n,
{
    if n == 0 {
        Ok((Seq::empty(), p))
    } else if p + 8 > b.len() {
        Err(KtslError::Truncated)
    } else {
        let size = be32_at(b, p);
        let unk = be32_at(b, p + 4);
        if p + 8 + size > b.len() {
            Err(KtslError::Truncated)
        } else {
            let f = LopusPacketView { size, unk, content: b.subrange(p + 8, p + 8 + size) };
            match spec_parse_frames(b, p + 8 + size, (n - 1) as nat) {
                Ok((rest, end)) => Ok((seq![f] + rest, end)),
                Err(e) => Err(e),
            }
        }
    }
}

/// Parse of a whole substream starting at `p`.
pub open spec fn spec_parse_ktss(b: Seq<u8>, p: int) -> Result<(KtssView, int), KtslError> {
    if p + 0x5c > b.len() {
        Err(KtslError::Truncated)
    } else {
        let cc = b[p + 0x29];
        let fo = p + align_up(0x5c + cc as int, 0x10);
        if fo > b.len() {
            Err(KtslError::Truncated)
        } else {
            let fc = le32_at(b, p + 0x4c);
            match spec_parse_frames(b, fo, fc as nat) {
                Err(e) => Err(e),
                Ok((frames, end)) => Ok(
                    (
                        KtssView {
                            magic: le32_at(b, p),
                            section_size: le32_at(b, p + 4),
                            codec: b[p + 0x20],
                            unk1: b[p + 0x21],
                            unk2: b[p + 0x22],
                            unk3: b[p + 0x23],
                            codec_start_offset: le32_at(b, p + 0x24),
                            layer_count: b[p + 0x28],
                            channel_count: cc,
                            unk4: le16_at(b, p + 0x2a),
                            sample_rate: le32_at(b, p + 0x2c),
                            sample_count: le32_at(b, p + 0x30),
                            loop_start: le32_at(b, p + 0x34),
                            loop_length: le32_at(b, p + 0x38),
                            padding: le32_at(b, p + 0x3c),
                            audio_section_addr: le32_at(b, p + 0x40),
                            audio_section_size: le32_at(b, p + 0x44),
                            unk5: le32_at(b, p + 0x48),
                            frame_count: fc,
                            frame_size: le16_at(b, p + 0x50),
                            some_constant: le16_at(b, p + 0x52),
                            orig_sample_rate: le32_at(b, p + 0x54),
                            skip: le16_at(b, p + 0x58),
                            stream_count: b[p + 0x5a],
                            coupled_count: b[p + 0x5b],
                            channel_mapping: b.subrange(p + 0x5c, p + 0x5c + cc as int),
                            audio: frames,
                        },
                        end,
                    ),
                ),
            }
        }
    }
}

impl Ktss {
    /// Decode a substream starting at `p`. On success, returns the value and
    /// the position just past its last frame; the skipped padding regions are
    /// not validated.
    pub fn decode(b: &Vec<u8>, p: usize) -> (r: Result<(Ktss, usize), KtslError>)
        requires
            p <= b.len(),
        ensures
            match r {
                Ok((k, end)) => spec_parse_ktss(b@, p as int) == Ok::<(KtssView, int), KtslError>(
                    (k@, end as int),
                ) && p <= end <= b.len(),
                Err(e) => spec_parse_ktss(b@, p as int) == Err::<(KtssView, int), KtslError>(e),
            },
    {
        let n = b.len();
        if n - p < 0x5c {
            return Err(KtslError::Truncated);
        }
        let cc = read_u8(b, p + 0x29);
        let rel: usize = 0x5c + cc as usize;
        let pad = pad_to(rel, 0x10);
        let fo_rel = rel + pad;
        if fo_rel > n - p {
            return Err(KtslError::Truncated);
        }
        let fo = p + fo_rel;
        let fc = read_u32_le(b, p + 0x4c);
        let mut audio: Vec<LopusPacket> = Vec::new();
        let mut q: usize = fo;
        let mut i: u32 = 0;
        while i < fc
            invariant
                i <= fc,
                fo <= q <= n,
                n == b.len(),
                p + 0x5c <= n,
                fo == p + align_up(0x5c + b@[p + 0x29] as int, 0x10),
                fc == le32_at(b@, p + 0x4c),
                audio@.len() == i as int,
                match spec_parse_frames(b@, q as int, (fc - i) as nat) {
                    Ok((rest, e)) => spec_parse_frames(b@, fo as int, fc as nat) == Ok::<
                        (Seq<LopusPacketView>, int),
                        KtslError,
                    >((frames_view(audio@) + rest, e)),
                    Err(e) => spec_parse_frames(b@, fo as int, fc as nat) == Err::<
                        (Seq<LopusPacketView>, int),
                        KtslError,
                    >(e),
                },
            decreases fc - i,
        {
            if n - q < 8 {
                return Err(KtslError::Truncated);
            }
            let size32 = read_u32_be(b, q);
            let unk = read_u32_be(b, q + 4);
            if size32 as usize > n - (q + 8) {
                return Err(KtslError::Truncated);
            }
            let content = read_bytes(b, q + 8, size32 as usize);
            let f = LopusPacket { size: size32, unk, content };
            let ghost prev_audio = audio@;
            let ghost prev_q = q as int;
            let ghost m = (fc - i) as nat;
            audio.push(f);
            q = q + 8 + size32 as usize;
            i = i + 1;
            proof {
                assert(f@.content =~= b@.subrange(prev_q + 8, prev_q + 8 + be32_at(
                    b@,
                    prev_q,
                ) as int));
                assert(frames_view(audio@) =~= frames_view(prev_audio) + seq![f@]);
                match spec_parse_frames(b@, q as int, (fc - i) as nat) {
                    Ok((rest, e)) => {
                        assert(spec_parse_frames(b@, prev_q, m) == Ok::<
                            (Seq<LopusPacketView>, int),
                            KtslError,
                        >((seq![f@] + rest, e)));
                        assert(frames_view(prev_audio) + (seq![f@] + rest) =~= frames_view(audio@)
                            + rest);
                    },
                    Err(e) => {
                        assert(spec_parse_frames(b@, prev_q, m) == Err::<
                            (Seq<LopusPacketView>, int),
                            KtslError,
                        >(e));
                    },
                }
            }
        }
        proof {
            assert(frames_view(audio@) + Seq::<LopusPacketView>::empty() =~= frames_view(audio@));
        }
        let k = Ktss {
            magic: read_u32_le(b, p),
            section_size: read_u32_le(b, p + 4),
            codec: read_u8(b, p + 0x20),
            unk1: read_u8(b, p + 0x21),
            unk2: read_u8(b, p + 0x22),
            unk3: read_u8(b, p + 0x23),
            codec_start_offset: read_u32_le(b, p + 0x24),
            layer_count: read_u8(b, p + 0x28),
            channel_count: cc,
            unk4: read_u16_le(b, p + 0x2a),
            sample_rate: read_u32_le(b, p + 0x2c),
            sample_count: read_u32_le(b, p + 0x30),
            loop_start: read_u32_le(b, p + 0x34),
            loop_length: read_u32_le(b, p + 0x38),
            padding: read_u32_le(b, p + 0x3c),
            audio_section_addr: read_u32_le(b, p + 0x40),
            audio_section_size: read_u32_le(b, p + 0x44),
            unk5: read_u32_le(b, p + 0x48),
            frame_count: fc,
            frame_size: read_u16_le(b, p + 0x50),
            some_constant: read_u16_le(b, p + 0x52),
            orig_sample_rate: read_u32_le(b, p + 0x54),
            skip: read_u16_le(b, p + 0x58),
            stream_count: read_u8(b, p + 0x5a),
            coupled_count: read_u8(b, p + 0x5b),
            channel_mapping: read_bytes(b, p + 0x5c, cc as usize),
            audio,
        };
        proof {
            assert(k@.channel_mapping =~= b@.subrange(p + 0x5c, p + 0x5c + cc as int));
        }
        Ok((k, q))
    }

    /// Append the substream's encoding to `out`.
    #[verifier::rlimit(100)]
    pub fn encode_to(&self, out: &mut Vec<u8>)
        requires
            self@.valid(),
        ensures
            final(out)@ == old(out)@ + spec_encode_ktss(self@),
    {
        let ghost base = out@;
        push_u32_le(out, self.magic);
        push_u32_le(out, self.section_size);
        push_zeros(out, 0x18);
        out.push(self.codec);
        out.push(self.unk1);
        out.push(self.unk2);
        out.push(self.unk3);
        push_u32_le(out, self.codec_start_offset);
        out.push(self.layer_count);
        out.push(self.channel_count);
        push_u16_le(out, self.unk4);
        push_u32_le(out, self.sample_rate);
        push_u32_le(out, self.sample_count);
        push_u32_le(out, self.loop_start);
        push_u32_le(out, self.loop_length);
        push_u32_le(out, self.padding);
        push_u32_le(out, self.audio_section_addr);
        push_u32_le(out, self.audio_section_size);
        push_u32_le(out, self.unk5);
        push_u32_le(out, self.frame_count);
        push_u16_le(out, self.frame_size);
        push_u16_le(out, self.some_constant);
        push_u32_le(out, self.orig_sample_rate);
        push_u16_le(out, self.skip);
        out.push(self.stream_count);
        out.push(self.coupled_count);
        proof {
            assert(out@ =~= base + ktss_head(self@));
        }
        push_bytes(out, &self.channel_mapping);
        let pad = pad_to(0x5c + self.channel_mapping.len(), 0x10);
        push_zeros(out, pad);
        let ghost mid = base + ktss_head(self@) + self@.channel_mapping + zeros(
            ktss_map_pad(self@) as nat,
        );
        proof {
            assert(out@ =~= mid);
        }
        let mut j: usize = 0;
        while j < self.audio.len()
            invariant
                j <= self.audio@.len(),
                self@.valid(),
                out@ =~= mid + spec_encode_frames(frames_view(self.audio@).take(j as int)),
            decreases self.audio@.len() - j,
        {
            let f = &self.audio[j];
            push_u32_be(out, f.size);
            push_u32_be(out, f.unk);
            push_bytes(out, &f.content);
            proof {
                lemma_encode_frames_snoc(frames_view(self.audio@), j as int);
                assert(frames_view(self.audio@)[j as int] == f@);
                assert(out@ =~= mid + spec_encode_frames(
                    frames_view(self.audio@).take(j + 1),
                ));
            }
            j = j + 1;
        }
        proof {
            reveal(spec_encode_ktss);
            assert(frames_view(self.audio@).take(self.audio@.len() as int) =~= frames_view(
                self.audio@,
            ));
            assert(out@ =~= base + spec_encode_ktss(self@));
        }
    }

    /// The substream's encoding as a fresh byte vector.
    pub fn encode(&self) -> (r: Vec<u8>)
        requires
            self@.valid(),
        ensures
            r@ == spec_encode_ktss(self@),
    {
        let mut out: Vec<u8> = Vec::new();
        self.encode_to(&mut out);
        proof {
            assert(Seq::<u8>::empty() + spec_encode_ktss(self@) =~= spec_encode_ktss(self@));
        }
        out
    }
}

/// Appending one more frame to an encoded prefix of the frame sequence.
pub proof fn lemma_encode_frames_snoc(fs: Seq<LopusPacketView>, i: int)
    requires
        0 <= i < fs.len(),
    ensures
        spec_encode_frames(fs.take(i + 1)) == spec_encode_frames(fs.take(i)) + spec_encode_frame(
            fs[i],
        ),
    decreases i,
{
    if i == 0 {
        assert(fs.take(0) =~= Seq::<LopusPacketView>::empty());
        assert(fs.take(1).drop_first() =~= Seq::<LopusPacketView>::empty());
        assert(fs.take(1)[0] == fs[0]);
        assert(spec_encode_frames(Seq::<LopusPacketView>::empty()) == Seq::<u8>::empty());
        assert(spec_encode_frames(fs.take(1)) == spec_encode_frame(fs[0]) + Seq::<u8>::empty());
        assert(spec_encode_frame(fs[0]) + Seq::<u8>::empty() =~= Seq::<u8>::empty()
            + spec_encode_frame(fs[0]));
    } else {
        let t = fs.drop_first();
        lemma_encode_frames_snoc(t, i - 1);
        assert(fs.take(i + 1).drop_first() =~= t.take(i));
        assert(fs.take(i).drop_first() =~= t.take(i - 1));
        assert(fs.take(i + 1)[0] == fs[0]);
        assert(fs.take(i)[0] == fs[0]);
        assert(t[i - 1] == fs[i]);
        assert(spec_encode_frame(fs[0]) + (spec_encode_frames(t.take(i - 1)) + spec_encode_frame(
            t[i - 1],
        )) =~= (spec_encode_frame(fs[0]) + spec_encode_frames(t.take(i - 1)))
            + spec_encode_frame(t[i - 1]));
    }
}

/// Encoding a valid frame sequence and parsing it back yields the sequence.
pub proof fn lemma_parse_encode_frames(b: Seq<u8>, p: int, fs: Seq<LopusPacketView>)
    requires
        0 <= p,
        forall|i: int| 0 <= i < fs.len() ==> (#[trigger] fs[i]).valid(),
        p + spec_encode_frames(fs).len() <= b.len(),
        b.subrange(p, p + spec_encode_frames(fs).len() as int) == spec_encode_frames(fs),
    ensures
        spec_parse_frames(b, p, fs.len()) == Ok::<(Seq<LopusPacketView>, int), KtslError>(
            (fs, p + spec_encode_frames(fs).len()),
        ),
    decreases fs.len(),
{
    let enc = spec_encode_frames(fs);
    if fs.len() == 0 {
        assert(fs =~= Seq::<LopusPacketView>::empty());
    } else {
        let f0 = fs[0];
        let e0 = spec_encode_frame(f0);
        let rest = fs.drop_first();
        let er = spec_encode_frames(rest);
        let clen = f0.content.len() as int;
        assert(enc == e0 + er);
        assert(e0.len() == 8 + clen);
        let el = e0.len() as int;
        let al = enc.len() as int;
        crate::bytes::lemma_subrange_within(b, p, enc, 0, 4);
        crate::bytes::lemma_subrange_within(b, p, enc, 4, 8);
        crate::bytes::lemma_subrange_within(b, p, enc, 8, 8 + clen);
        crate::bytes::lemma_subrange_within(b, p, enc, el, al);
        assert(enc.subrange(0, 4) =~= be32_bytes(f0.size));
        assert(enc.subrange(4, 8) =~= be32_bytes(f0.unk));
        assert(enc.subrange(8, 8 + clen) =~= f0.content);
        assert(enc.subrange(el, al) =~= er);
        crate::bytes::lemma_be32_at_of_subrange(b, p, f0.size);
        crate::bytes::lemma_be32_at_of_subrange(b, p + 4, f0.unk);
        let size = f0.size as int;
        assert(b.subrange(p + 8, p + 8 + size) == f0.content);
        lemma_parse_encode_frames(b, p + el, rest);
        let fv0 = LopusPacketView {
            size: f0.size,
            unk: f0.unk,
            content: b.subrange(p + 8, p + 8 + size),
        };
        assert(fv0 =~= f0);
        assert(seq![f0] + rest =~= fs);
        assert(p + 8 + size == p + el);
        assert(spec_parse_frames(b, p, fs.len()) == Ok::<(Seq<LopusPacketView>, int), KtslError>(
            (fs, p + enc.len()),
        ));
    }
}

/// A successfully parsed frame sequence is valid and re-encodes to the very
/// bytes it was parsed from.
pub proof fn lemma_encode_parse_frames(
    b: Seq<u8>,
    p: int,
    n: nat,
    fs: Seq<LopusPacketView>,
    end: int,
)
    requires
        0 <= p <= b.len(),
        spec_parse_frames(b, p, n) == Ok::<(Seq<LopusPacketView>, int), KtslError>((fs, end)),
    ensures
        fs.len() == n,
        forall|i: int| 0 <= i < fs.len() ==> (#[trigger] fs[i]).valid(),
        p <= end <= b.len(),
        spec_encode_frames(fs) == b.subrange(p, end),
    decreases n,
{
    if n == 0 {
        assert(b.subrange(p, p) =~= Seq::<u8>::empty());
    } else {
        let size = be32_at(b, p);
        let unk = be32_at(b, p + 4);
        let f = LopusPacketView { size, unk, content: b.subrange(p + 8, p + 8 + size as int) };
        match spec_parse_frames(b, p + 8 + size as int, (n - 1) as nat) {
            Ok((rest, e2)) => {
                lemma_encode_parse_frames(b, p + 8 + size as int, (n - 1) as nat, rest, e2);
                assert(fs == seq![f] + rest);
                assert(fs[0] == f);
                assert(fs.drop_first() =~= rest);
                lemma_be32_bytes_at(b, p);
                lemma_be32_bytes_at(b, p + 4);
                assert(spec_encode_frame(f) =~= b.subrange(p, p + 8 + size as int));
                assert(spec_encode_frames(fs) == spec_encode_frame(f) + spec_encode_frames(rest));
                assert(spec_encode_frame(f) + spec_encode_frames(rest) =~= b.subrange(p, end));
            },
            Err(_) => {
                assert(false);
            },
        }
    }
}

/// What a successful parse consumed is exactly the encoded length of the
/// value it produced, and that value is valid — with no assumption on the
/// padding bytes.
pub proof fn lemma_parse_ktss_len(b: Seq<u8>, p: int, k: KtssView, end: int)
    requires
        0 <= p,
        spec_parse_ktss(b, p) == Ok::<(KtssView, int), KtslError>((k, end)),
    ensures
        k.valid(),
        p + 0x5c <= end <= b.len(),
        end - p == spec_encode_ktss(k).len(),
{
    let cc = b[p + 0x29];
    let fo = p + align_up(0x5c + cc as int, 0x10);
    lemma_align_up(0x5c + cc as int, 0x10);
    let fc = le32_at(b, p + 0x4c);
    match spec_parse_frames(b, fo, fc as nat) {
        Ok((frames, e2)) => {
            lemma_encode_parse_frames(b, fo, fc as nat, frames, e2);
            assert(k.channel_mapping.len() == cc as int);
            assert(k.valid());
            lemma_encode_ktss_len(k);
            assert(spec_encode_frames(k.audio).len() == e2 - fo);
        },
        Err(_) => {
            assert(false);
        },
    }
}

/// Encoding a valid substream and parsing the bytes back yields the same
/// substream, consuming exactly its encoded length — also through a stream
/// that carries other data before and after it.
#[verifier::rlimit(100)]
pub proof fn lemma_ktss_encode_then_decode(b: Seq<u8>, p: int, k: KtssView)
    requires
        0 <= p,
        k.valid(),
        p + spec_encode_ktss(k).len() <= b.len(),
        b.subrange(p, p + spec_encode_ktss(k).len() as int) == spec_encode_ktss(k),
    ensures
        spec_parse_ktss(b, p) == Ok::<(KtssView, int), KtslError>(
            (k, p + spec_encode_ktss(k).len()),
        ),
{
    reveal(spec_encode_ktss);
    let enc = spec_encode_ktss(k);
    let L = enc.len() as int;
    let cml = k.channel_mapping.len() as int;
    let cc = k.channel_count as int;
    lemma_encode_ktss_len(k);
    lemma_align_up(0x5c + cml, 0x10);
    let fo_rel = align_up(0x5c + cml, 0x10);
    let ef = spec_encode_frames(k.audio);
    let head = ktss_head(k);
    assert(L == fo_rel + ef.len());
    // the fixed header bytes
    crate::bytes::lemma_subrange_within(b, p, enc, 0, 4);
    assert(enc.subrange(0, 4) =~= le32_bytes(k.magic));
    crate::bytes::lemma_le32_at_of_subrange(b, p, k.magic);
    crate::bytes::lemma_subrange_within(b, p, enc, 4, 8);
    assert(enc.subrange(4, 8) =~= le32_bytes(k.section_size));
    crate::bytes::lemma_le32_at_of_subrange(b, p + 4, k.section_size);
    crate::bytes::lemma_subrange_within(b, p, enc, 0x24, 0x28);
    assert(enc.subrange(0x24, 0x28) =~= le32_bytes(k.codec_start_offset));
    crate::bytes::lemma_le32_at_of_subrange(b, p + 0x24, k.codec_start_offset);
    crate::bytes::lemma_subrange_within(b, p, enc, 0x2a, 0x2c);
    assert(enc.subrange(0x2a, 0x2c) =~= le16_bytes(k.unk4));
    crate::bytes::lemma_le16_at_of_subrange(b, p + 0x2a, k.unk4);
    crate::bytes::lemma_subrange_within(b, p, enc, 0x2c, 0x30);
    assert(enc.subrange(0x2c, 0x30) =~= le32_bytes(k.sample_rate));
    crate::bytes::lemma_le32_at_of_subrange(b, p + 0x2c, k.sample_rate);
    crate::bytes::lemma_subrange_within(b, p, enc, 0x30, 0x34);
    assert(enc.subrange(0x30, 0x34) =~= le32_bytes(k.sample_count));
    crate::bytes::lemma_le32_at_of_subrange(b, p + 0x30, k.sample_count);
    crate::bytes::lemma_subrange_within(b, p, enc, 0x34, 0x38);
    assert(enc.subrange(0x34, 0x38) =~= le32_bytes(k.loop_start));
    crate::bytes::lemma_le32_at_of_subrange(b, p + 0x34, k.loop_start);
    crate::bytes::lemma_subrange_within(b, p, enc, 0x38, 0x3c);
    assert(enc.subrange(0x38, 0x3c) =~= le32_bytes(k.loop_length));
    crate::bytes::lemma_le32_at_of_subrange(b, p + 0x38, k.loop_length);
    crate::bytes::lemma_subrange_within(b, p, enc, 0x3c, 0x40);
    assert(enc.subrange(0x3c, 0x40) =~= le32_bytes(k.padding));
    crate::bytes::lemma_le32_at_of_subrange(b, p + 0x3c, k.padding);
    crate::bytes::lemma_subrange_within(b, p, enc, 0x40, 0x44);
    assert(enc.subrange(0x40, 0x44) =~= le32_bytes(k.audio_section_addr));
    crate::bytes::lemma_le32_at_of_subrange(b, p + 0x40, k.audio_section_addr);
    crate::bytes::lemma_subrange_within(b, p, enc, 0x44, 0x48);
    assert(enc.subrange(0x44, 0x48) =~= le32_bytes(k.audio_section_size));
    crate::bytes::lemma_le32_at_of_subrange(b, p + 0x44, k.audio_section_size);
    crate::bytes::lemma_subrange_within(b, p, enc, 0x48, 0x4c);
    assert(enc.subrange(0x48, 0x4c) =~= le32_bytes(k.unk5));
    crate::bytes::lemma_le32_at_of_subrange(b, p + 0x48, k.unk5);
    crate::bytes::lemma_subrange_within(b, p, enc, 0x4c, 0x50);
    assert(enc.subrange(0x4c, 0x50) =~= le32_bytes(k.frame_count));
    crate::bytes::lemma_le32_at_of_subrange(b, p + 0x4c, k.frame_count);
    crate::bytes::lemma_subrange_within(b, p, enc, 0x50, 0x52);
    assert(enc.subrange(0x50, 0x52) =~= le16_bytes(k.frame_size));
    crate::bytes::lemma_le16_at_of_subrange(b, p + 0x50, k.frame_size);
    crate::bytes::lemma_subrange_within(b, p, enc, 0x52, 0x54);
    assert(enc.subrange(0x52, 0x54) =~= le16_bytes(k.some_constant));
    crate::bytes::lemma_le16_at_of_subrange(b, p + 0x52, k.some_constant);
    crate::bytes::lemma_subrange_within(b, p, enc, 0x54, 0x58);
    assert(enc.subrange(0x54, 0x58) =~= le32_bytes(k.orig_sample_rate));
    crate::bytes::lemma_le32_at_of_subrange(b, p + 0x54, k.orig_sample_rate);
    crate::bytes::lemma_subrange_within(b, p, enc, 0x58, 0x5a);
    assert(enc.subrange(0x58, 0x5a) =~= le16_bytes(k.skip));
    crate::bytes::lemma_le16_at_of_subrange(b, p + 0x58, k.skip);
    // single-byte fields
    assert(b[p + 0x20] == enc[0x20] && enc[0x20] == k.codec) by {
        assert(b[p + 0x20] == b.subrange(p, p + L)[0x20]);
    }
    assert(b[p + 0x21] == enc[0x21] && enc[0x21] == k.unk1) by {
        assert(b[p + 0x21] == b.subrange(p, p + L)[0x21]);
    }
    assert(b[p + 0x22] == enc[0x22] && enc[0x22] == k.unk2) by {
        assert(b[p + 0x22] == b.subrange(p, p + L)[0x22]);
    }
    assert(b[p + 0x23] == enc[0x23] && enc[0x23] == k.unk3) by {
        assert(b[p + 0x23] == b.subrange(p, p + L)[0x23]);
    }
    assert(b[p + 0x28] == enc[0x28] && enc[0x28] == k.layer_count) by {
        assert(b[p + 0x28] == b.subrange(p, p + L)[0x28]);
    }
    assert(b[p + 0x29] == enc[0x29] && enc[0x29] == k.channel_count) by {
        assert(b[p + 0x29] == b.subrange(p, p + L)[0x29]);
    }
    assert(b[p + 0x5a] == enc[0x5a] && enc[0x5a] == k.stream_count) by {
        assert(b[p + 0x5a] == b.subrange(p, p + L)[0x5a]);
    }
    assert(b[p + 0x5b] == enc[0x5b] && enc[0x5b] == k.coupled_count) by {
        assert(b[p + 0x5b] == b.subrange(p, p + L)[0x5b]);
    }
    // channel mapping
    crate::bytes::lemma_subrange_within(b, p, enc, 0x5c, 0x5c + cml);
    assert(enc.subrange(0x5c, 0x5c + cml) =~= k.channel_mapping);
    assert(b.subrange(p + 0x5c, p + 0x5c + cc) == k.channel_mapping);
    // frames
    crate::bytes::lemma_subrange_within(b, p, enc, fo_rel, L);
    assert(enc.subrange(fo_rel, L) =~= ef);
    lemma_parse_encode_frames(b, p + fo_rel, k.audio);
    assert(spec_parse_frames(b, p + fo_rel, k.audio.len()) == Ok::<
        (Seq<LopusPacketView>, int),
        KtslError,
    >((k.audio, p + L)));
    assert(k.frame_count as nat == k.audio.len());
    match spec_parse_ktss(b, p) {
        Ok((k2, e2)) => {
            assert(k2 =~= k);
            assert(e2 == p + L);
        },
        Err(_) => {
            assert(false);
        },
    }
}

/// Round trip of decoding: a successfully parsed substream is valid, and
/// whenever the skipped padding bytes of the input were zero, re-encoding it
/// reproduces the parsed byte range exactly — frame byte order included.
#[verifier::spinoff_prover]
#[verifier::rlimit(100)]
pub proof fn lemma_ktss_decode_then_encode(b: Seq<u8>, p: int, k: KtssView, end: int)
    requires
        0 <= p,
        spec_parse_ktss(b, p) == Ok::<(KtssView, int), KtslError>((k, end)),
        forall|j: int| p + 8 <= j < p + 0x20 ==> b[j] == 0,
        forall|j: int|
            p + 0x5c + k.channel_mapping.len() <= j < p + align_up(
                0x5c + k.channel_mapping.len() as int,
                0x10,
            ) ==> b[j] == 0,
    ensures
        k.valid(),
        p <= end <= b.len(),
        spec_encode_ktss(k) == b.subrange(p, end),
{
    reveal(spec_encode_ktss);
    let cc = b[p + 0x29];
    let fo = p + align_up(0x5c + cc as int, 0x10);
    lemma_align_up(0x5c + cc as int, 0x10);
    let fc = le32_at(b, p + 0x4c);
    match spec_parse_frames(b, fo, fc as nat) {
        Ok((frames, e2)) => {
            lemma_encode_parse_frames(b, fo, fc as nat, frames, e2);
            assert(k.audio == frames);
            assert(end == e2);
            assert(k.channel_mapping == b.subrange(p + 0x5c, p + 0x5c + cc as int));
            assert(k.channel_mapping.len() == cc as int);
            assert(k.valid());
            let cml = k.channel_mapping.len() as int;
            let ef = spec_encode_frames(k.audio);
            assert(ef == b.subrange(fo, end));
            // header fields re-encode to the very bytes they were read from
            crate::bytes::lemma_le32_bytes_at(b, p);
            crate::bytes::lemma_le32_bytes_at(b, p + 4);
            crate::bytes::lemma_le32_bytes_at(b, p + 0x24);
            crate::bytes::lemma_le16_bytes_at(b, p + 0x2a);
            crate::bytes::lemma_le32_bytes_at(b, p + 0x2c);
            crate::bytes::lemma_le32_bytes_at(b, p + 0x30);
            crate::bytes::lemma_le32_bytes_at(b, p + 0x34);
            crate::bytes::lemma_le32_bytes_at(b, p + 0x38);
            crate::bytes::lemma_le32_bytes_at(b, p + 0x3c);
            crate::bytes::lemma_le32_bytes_at(b, p + 0x40);
            crate::bytes::lemma_le32_bytes_at(b, p + 0x44);
            crate::bytes::lemma_le32_bytes_at(b, p + 0x48);
            crate::bytes::lemma_le32_bytes_at(b, p + 0x4c);
            crate::bytes::lemma_le16_bytes_at(b, p + 0x50);
            crate::bytes::lemma_le16_bytes_at(b, p + 0x52);
            crate::bytes::lemma_le32_bytes_at(b, p + 0x54);
            crate::bytes::lemma_le16_bytes_at(b, p + 0x58);
            assert(ktss_head(k) =~= b.subrange(p, p + 0x5c));
            assert(ktss_map_pad(k) == fo - (p + 0x5c + cml));
            assert(zeros(ktss_map_pad(k) as nat) =~= b.subrange(p + 0x5c + cml, fo));
            assert(spec_encode_ktss(k) =~= b.subrange(p, p + 0x5c) + b.subrange(
                p + 0x5c,
                p + 0x5c + cml,
            ) + b.subrange(p + 0x5c + cml, fo) + b.subrange(fo, end));
            assert(b.subrange(p, p + 0x5c) + b.subrange(p + 0x5c, p + 0x5c + cml) + b.subrange(
                p + 0x5c + cml,
                fo,
            ) + b.subrange(fo, end) =~= b.subrange(p, end));
        },
        Err(_) => {
            assert(false);
        },
    }
}

} // verus!
