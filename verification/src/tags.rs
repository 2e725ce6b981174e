//! Extensible identifier tags of the archive header. Each known value has a
//! named variant; any other numeric code decodes into the fallback variant
//! carrying the raw value, so newly observed titles and platforms never break
//! decoding.

use vstd::prelude::*;

verus! {

/// Platform the archive targets (2-byte tag).
#[derive(Clone, Copy, Debug, PartialEq, Eq, Structural)]
pub enum Platform {
    PC,
    Switch,
    Unknown(u16),
}

impl Platform {
    /// The numeric code the tag is stored as.
    pub open spec fn raw_spec(self) -> u16 {
        match self {
            Platform::PC => 0x100,
            Platform::Switch => 0x400,
            Platform::Unknown(v) => v,
        }
    }

    pub open spec fn from_raw_spec(v: u16) -> Platform {
        if v == 0x100 {
            Platform::PC
        } else if v == 0x400 {
            Platform::Switch
        } else {
            Platform::Unknown(v)
        }
    }

    /// The fallback variant never shadows a known code; decoding only ever
    /// produces canonical tags, so `from_raw` and `raw` invert each other.
    pub open spec fn canonical(self) -> bool {
        match self {
            Platform::Unknown(v) => v != 0x100 && v != 0x400,
            _ => true,
        }
    }

    pub fn raw(self) -> (r: u16)
        ensures
            r == self.raw_spec(),
    {
        match self {
            Platform::PC => 0x100,
            Platform::Switch => 0x400,
            Platform::Unknown(v) => v,
        }
    }

    pub fn from_raw(v: u16) -> (r: Platform)
        ensures
            r == Platform::from_raw_spec(v),
            r.canonical(),
            r.raw_spec() == v,
    {
        if v == 0x100 {
            Platform::PC
        } else if v == 0x400 {
            Platform::Switch
        } else {
            Platform::Unknown(v)
        }
    }
}

/// Decoding a stored code and storing it back is the identity, and storing a
/// canonical tag then decoding gives the tag back.
pub proof fn lemma_platform_raw_roundtrip(v: u16, t: Platform)
    ensures
        Platform::from_raw_spec(v).raw_spec() == v,
        t.canonical() ==> Platform::from_raw_spec(t.raw_spec()) == t,
{
}

/// Game title the archive belongs to (4-byte tag).
#[derive(Clone, Copy, Debug, PartialEq, Eq, Structural)]
pub enum Game {
    ThreeHouses,
    Unknown(u32),
}

impl Game {
    pub open spec fn raw_spec(self) -> u32 {
        match self {
            Game::ThreeHouses => 0xB75674CE,
            Game::Unknown(v) => v,
        }
    }

    pub open spec fn from_raw_spec(v: u32) -> Game {
        if v == 0xB75674CE {
            Game::ThreeHouses
        } else {
            Game::Unknown(v)
        }
    }

    pub open spec fn canonical(self) -> bool {
        match self {
            Game::Unknown(v) => v != 0xB75674CE,
            _ => true,
        }
    }

    pub fn raw(self) -> (r: u32)
        ensures
            r == self.raw_spec(),
    {
        match self {
            Game::ThreeHouses => 0xB75674CE,
            Game::Unknown(v) => v,
        }
    }

    pub fn from_raw(v: u32) -> (r: Game)
        ensures
            r == Game::from_raw_spec(v),
            r.canonical(),
            r.raw_spec() == v,
    {
        if v == 0xB75674CE {
            Game::ThreeHouses
        } else {
            Game::Unknown(v)
        }
    }
}

pub proof fn lemma_game_raw_roundtrip(v: u32, t: Game)
    ensures
        Game::from_raw_spec(v).raw_spec() == v,
        t.canonical() ==> Game::from_raw_spec(t.raw_spec()) == t,
{
}

/// Kind of content the archive holds (4-byte tag): `Asset` for the metadata
/// archive, `Stream` for the audio archive.
#[derive(Clone, Copy, Debug, PartialEq, Eq, Structural)]
pub enum Filetype {
    Asset,
    Stream,
    Unknown(u32),
}

impl Filetype {
    pub open spec fn raw_spec(self) -> u32 {
        match self {
            Filetype::Asset => 0x1A487B77,
            Filetype::Stream => 0xFCDD9402,
            Filetype::Unknown(v) => v,
        }
    }

    pub open spec fn from_raw_spec(v: u32) -> Filetype {
        if v == 0x1A487B77 {
            Filetype::Asset
        } else if v == 0xFCDD9402 {
            Filetype::Stream
        } else {
            Filetype::Unknown(v)
        }
    }

    pub open spec fn canonical(self) -> bool {
        match self {
            Filetype::Unknown(v) => v != 0x1A487B77 && v != 0xFCDD9402,
            _ => true,
        }
    }

    pub fn raw(self) -> (r: u32)
        ensures
            r == self.raw_spec(),
    {
        match self {
            Filetype::Asset => 0x1A487B77,
            Filetype::Stream => 0xFCDD9402,
            Filetype::Unknown(v) => v,
        }
    }

    pub fn from_raw(v: u32) -> (r: Filetype)
        ensures
            r == Filetype::from_raw_spec(v),
            r.canonical(),
            r.raw_spec() == v,
    {
        if v == 0x1A487B77 {
            Filetype::Asset
        } else if v == 0xFCDD9402 {
            Filetype::Stream
        } else {
            Filetype::Unknown(v)
        }
    }
}

pub proof fn lemma_filetype_raw_roundtrip(v: u32, t: Filetype)
    ensures
        Filetype::from_raw_spec(v).raw_spec() == v,
        t.canonical() ==> Filetype::from_raw_spec(t.raw_spec()) == t,
{
}

} // verus!
