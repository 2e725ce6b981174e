//! Codec and pack/unpack engine for the KTSR game-audio container family:
//! a fixed archive header, a stream of magic-tagged sections, and an embedded
//! audio substream of size-prefixed frames. One archive kind holds the audio
//! payloads, the other holds companion metadata records that must stay
//! numerically consistent with the first.

pub mod align;
pub mod asbin;
pub mod bytes;
pub mod engine;
pub mod errors;
pub mod header;
pub mod ktss;
pub mod names;
pub mod sections;
pub mod stbin;
pub mod tags;
