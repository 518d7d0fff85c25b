//! The cry of a species: three numbers of its own, and the three channels
//! of the base cry that they vary.

use crate::bytes::{copy_range, find_byte, first_index_of, lemma_first_index_of, spec_u16_at,
    u16_at};
use crate::db::{PkmnapiDB, ROM_PAGE};
use crate::error::Error;
use crate::ids::spec_pokedex_id_to_internal_id;
use crate::names::patch_is;
use crate::patch::Patch;
use vstd::prelude::*;

verus! {

/// Where the cries of the species stand, in storage order: three bytes each.
pub const POKEMON_CRIES: usize = ROM_PAGE * 0x1C + 0x1446;

/// Where the table of the base cries stands: nine bytes each, three for
/// each channel.
pub const CRY_HEADERS: usize = ROM_PAGE * 0x04 + 0x003C;

/// The bank that the channels' pointers point into.
pub const CRY_CHANNELS_BANK: usize = ROM_PAGE * 0x02;

/// The byte that ends the data of a channel.
pub const CRY_CHANNEL_END: u8 = 0xFF;

/// The data of one channel of a cry, and whether it is the noise channel,
/// whose data reads otherwise than that of the two pulse channels.
#[derive(Debug, PartialEq)]
pub struct CryChannel {
    pub data: Vec<u8>,
    pub noise: bool,
}

impl CryChannel {
    /// The channel with the data `data`.
    pub fn new(data: &Vec<u8>, noise: bool) -> (r: CryChannel)
        ensures
            r.data@ == data@,
            r.noise == noise,
    {
        CryChannel { data: data.clone(), noise }
    }
}

/// The cry of a species.
#[derive(Debug, PartialEq)]
pub struct Cry {
    pub base: u8,
    pub pitch: u8,
    pub length: u8,
    pub pulse0: CryChannel,
    pub pulse1: CryChannel,
    pub noise: CryChannel,
}

/// A cry as a plain value.
pub struct CryView {
    pub base: u8,
    pub pitch: u8,
    pub length: u8,
    pub pulse0: Seq<u8>,
    pub pulse1: Seq<u8>,
    pub noise: Seq<u8>,
}

impl Cry {
    /// Whether the channels are marked as what they are: the two pulse
    /// channels and the noise channel.
    pub open spec fn wf(&self) -> bool {
        !self.pulse0.noise && !self.pulse1.noise && self.noise.noise
    }

    /// The three bytes of the cry: its base cry, its pitch and its length.
    pub open spec fn spec_to_raw(&self) -> Seq<u8> {
        seq![self.base, self.pitch, self.length]
    }

    /// The bytes of the cry. The channels belong to the base cry and are
    /// not written.
    pub fn to_raw(&self) -> (r: Vec<u8>)
        ensures
            r@ == self.spec_to_raw(),
    {
        let mut out: Vec<u8> = Vec::new();
        out.push(self.base);
        out.push(self.pitch);
        out.push(self.length);
        proof {
            assert(out@ =~= self.spec_to_raw());
        }
        out
    }
}

impl View for Cry {
    type V = CryView;

    open spec fn view(&self) -> CryView {
        CryView {
            base: self.base,
            pitch: self.pitch,
            length: self.length,
            pulse0: self.pulse0.data@,
            pulse1: self.pulse1.data@,
            noise: self.noise.data@,
        }
    }
}

/// Where the cry of the species at `internal_id` stands.
pub open spec fn spec_cry_offset(internal_id: u8) -> int {
    POKEMON_CRIES + internal_id * 3
}

/// The data of channel `channel` of the base cry `base`: from where the
/// channel's pointer points, up to the byte `0xFF` or the end of the image.
pub open spec fn spec_cry_channel(rom: Seq<u8>, base: u8, channel: int) -> Seq<u8>
    recommends
        0 <= channel < 3,
{
    let start = CRY_CHANNELS_BANK + spec_u16_at(rom, CRY_HEADERS + base * 9 + channel * 3 + 1);
    match first_index_of(rom.skip(start), CRY_CHANNEL_END) {
        Some(i) => rom.subrange(start, start + i),
        None => rom.skip(start),
    }
}

/// The cry of the species `pokedex_id`.
pub open spec fn spec_get_pokemon_cry(rom: Seq<u8>, pokedex_id: u8) -> Result<CryView, Error> {
    match spec_pokedex_id_to_internal_id(rom, pokedex_id) {
        Err(e) => Err(e),
        Ok(internal_id) => {
            let at = spec_cry_offset(internal_id);
            Ok(
                CryView {
                    base: rom[at],
                    pitch: rom[at + 1],
                    length: rom[at + 2],
                    pulse0: spec_cry_channel(rom, rom[at], 0),
                    pulse1: spec_cry_channel(rom, rom[at], 1),
                    noise: spec_cry_channel(rom, rom[at], 2),
                },
            )
        },
    }
}

/// What the patch that sets the cry of the species `pokedex_id` to `cry`
/// writes, and where: the three bytes of the cry.
pub open spec fn spec_set_pokemon_cry(rom: Seq<u8>, pokedex_id: u8, raw: Seq<u8>) -> Result<
    (int, Seq<u8>),
    Error,
> {
    match spec_pokedex_id_to_internal_id(rom, pokedex_id) {
        Err(e) => Err(e),
        Ok(internal_id) => Ok((spec_cry_offset(internal_id), raw)),
    }
}

impl PkmnapiDB {
    /// The data of channel `channel` of the base cry `base`.
    fn cry_channel(&self, base: u8, channel: usize) -> (r: Vec<u8>)
        requires
            channel < 3,
        ensures
            r@ == spec_cry_channel(self@, base, channel as int),
    {
        let rom = self.rom();
        let len = rom.len();
        let start = CRY_CHANNELS_BANK + (u16_at(
            rom,
            CRY_HEADERS + (base as usize) * 9 + channel * 3 + 1,
        ) as usize);
        proof {
            assert(rom@.subrange(start as int, len as int) =~= rom@.skip(start as int));
            lemma_first_index_of(rom@.skip(start as int), CRY_CHANNEL_END);
        }
        let end = match find_byte(rom, start, len, CRY_CHANNEL_END) {
            Some(i) => start + i,
            None => len,
        };
        copy_range(rom, start, end)
    }

    /// The cry of the species `pokedex_id`.
    pub fn get_pokemon_cry(&self, pokedex_id: &u8) -> (r: Result<Cry, Error>)
        ensures
            match r {
                Ok(cry) => cry.wf() && spec_get_pokemon_cry(self@, *pokedex_id) == Ok::<
                    CryView,
                    Error,
                >(cry@),
                Err(e) => spec_get_pokemon_cry(self@, *pokedex_id) == Err::<CryView, Error>(e),
            },
    {
        let internal_id = self.pokedex_id_to_internal_id(pokedex_id)?;
        let rom = self.rom();
        let offset = POKEMON_CRIES + (internal_id as usize) * 3;
        let base = rom[offset];
        let pitch = rom[offset + 1];
        let length = rom[offset + 2];
        let pulse0 = CryChannel::new(&self.cry_channel(base, 0), false);
        let pulse1 = CryChannel::new(&self.cry_channel(base, 1), false);
        let noise = CryChannel::new(&self.cry_channel(base, 2), true);
        Ok(Cry { base, pitch, length, pulse0, pulse1, noise })
    }

    /// The patch that sets the cry of the species `pokedex_id` to `pokemon_cry`.
    pub fn set_pokemon_cry(&self, pokedex_id: &u8, pokemon_cry: &Cry) -> (r: Result<Patch, Error>)
        ensures
            patch_is(r, spec_set_pokemon_cry(self@, *pokedex_id, pokemon_cry.spec_to_raw())),
    {
        let internal_id = self.pokedex_id_to_internal_id(pokedex_id)?;
        let offset = POKEMON_CRIES + (internal_id as usize) * 3;
        Ok(Patch::new(&offset, &pokemon_cry.to_raw()))
    }
}

} // verus!
