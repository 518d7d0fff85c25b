//! The pictures of the species, front and back, and of the trainer classes.

use crate::bytes::{spec_u16_at, u16_at};
use crate::db::{PkmnapiDB, ROM_PAGE};
use crate::error::Error;
use crate::ids::{spec_pokedex_id_to_internal_id, spec_trainer_id_bounds, spec_validated};
use crate::names::{patch_is, spec_trainer_id_invalid};
use crate::patch::Patch;
use crate::pic::{spec_decode_pic, Pic, PicEncodingMethod, PicView};
use crate::pic_encode::{spec_encode_pic, spec_pic_storable};
use crate::stats::{spec_stats_offset, LAST_POKEDEX_ID};
use vstd::prelude::*;

verus! {

/// Where the pointer to the front picture stands in the entry of a species;
/// the pointer to the back picture follows it.
pub const PICS_IN_STATS: usize = 11;

/// Where the bank of the pictures of the last species stands.
pub const LAST_POKEMON_PIC_BANK: usize = 0x163A;

/// Where the pointers to the pictures of the trainer classes stand: five
/// bytes for each class, the pointer first.
pub const TRAINER_PICS: usize = ROM_PAGE * 0x1C + 0x1914;

/// The bank that the pointers to the pictures of the trainer classes point into.
pub const TRAINER_PICS_BANK: usize = ROM_PAGE * 0x24;

/// Which side of a species a picture shows.
#[derive(Debug, Clone, Copy, PartialEq, Eq, Structural)]
pub enum PokemonPicFace {
    FRONT,
    BACK,
}

/// The character `c` in lower case, where it is a capital letter of the
/// basic alphabet.
pub open spec fn spec_lower(c: char) -> char {
    if 'A' <= c <= 'Z' {
        ((c as u8) + 32) as char
    } else {
        c
    }
}

/// Whether `face` spells "back", in capitals or not.
pub open spec fn spec_is_back(face: Seq<char>) -> bool {
    face.map_values(|c: char| spec_lower(c)) == seq!['b', 'a', 'c', 'k']
}

impl PokemonPicFace {
    /// The side that `face` names: the back for "back", in capitals or
    /// not, and the front for anything else and for nothing.
    pub fn from(face: Option<String>) -> (r: PokemonPicFace)
        ensures
            r == if face matches Some(f) && spec_is_back(f@) {
                PokemonPicFace::BACK
            } else {
                PokemonPicFace::FRONT
            },
    {
        match face {
            Some(face) => {
                let s = face.as_str();
                let ghost lowered = s@.map_values(|c: char| spec_lower(c));
                let ghost back_text = seq!['b', 'a', 'c', 'k'];
                if s.unicode_len() != 4 {
                    proof {
                        assert(lowered.len() == s@.len());
                        assert(back_text.len() == 4);
                    }
                    return PokemonPicFace::FRONT;
                }
                let b = s.get_char(0);
                let a = s.get_char(1);
                let c = s.get_char(2);
                let k = s.get_char(3);
                let back = (b == 'b' || b == 'B') && (a == 'a' || a == 'A') && (c == 'c' || c
                    == 'C') && (k == 'k' || k == 'K');
                proof {
                    assert(lowered[0] == spec_lower(b));
                    assert(lowered[1] == spec_lower(a));
                    assert(lowered[2] == spec_lower(c));
                    assert(lowered[3] == spec_lower(k));
                    assert(back_text[0] == 'b' && back_text[1] == 'a' && back_text[2] == 'c'
                        && back_text[3] == 'k');
                    assert(spec_lower(b) == 'b' <==> (b == 'b' || b == 'B'));
                    assert(spec_lower(a) == 'a' <==> (a == 'a' || a == 'A'));
                    assert(spec_lower(c) == 'c' <==> (c == 'c' || c == 'C'));
                    assert(spec_lower(k) == 'k' <==> (k == 'k' || k == 'K'));
                    if back {
                        assert(lowered =~= back_text);
                    }
                }
                if back {
                    PokemonPicFace::BACK
                } else {
                    PokemonPicFace::FRONT
                }
            },
            None => PokemonPicFace::FRONT,
        }
    }
}

/// The bank of the pictures of the species `pokedex_id`, which stands at
/// `internal_id` in storage order: the last species has a bank of its own;
/// the others share five banks, by their place in storage order.
pub open spec fn spec_pokemon_pic_bank(rom: Seq<u8>, pokedex_id: u8, internal_id: u8) -> u8 {
    if pokedex_id == LAST_POKEDEX_ID {
        rom[LAST_POKEMON_PIC_BANK as int]
    } else if internal_id < rom[0x1646] - 1 {
        rom[0x1648]
    } else if internal_id < rom[0x164D] - 1 {
        rom[0x164F]
    } else if internal_id < rom[0x1654] - 1 {
        rom[0x1656]
    } else if internal_id < rom[0x165B] - 1 {
        rom[0x165D]
    } else {
        rom[0x1661]
    }
}

/// Where the picture of the side `face` of the species `pokedex_id`
/// stands. There is no such place where the species is none of the image,
/// its bank is none, or the place lies beyond the image.
pub open spec fn spec_pokemon_pic_offset(rom: Seq<u8>, pokedex_id: u8, face: PokemonPicFace) -> Result<
    int,
    Error,
> {
    match spec_pokedex_id_to_internal_id(rom, pokedex_id) {
        Err(e) => Err(e),
        Ok(internal_id) => {
            let bank = spec_pokemon_pic_bank(rom, pokedex_id, internal_id);
            let pointer = spec_u16_at(
                rom,
                spec_stats_offset(pokedex_id) + PICS_IN_STATS + if face == PokemonPicFace::BACK {
                    2int
                } else {
                    0int
                },
            );
            let offset = (bank - 1) * 0x4000 + pointer;
            if bank < 1 || offset > rom.len() {
                Err(Error::RomMalformed)
            } else {
                Ok(offset)
            }
        },
    }
}

/// The picture that stands at `offset`, where there is such a place;
/// `PicCouldNotRead` where no picture stands there.
pub open spec fn spec_pic_at(rom: Seq<u8>, offset: Result<int, Error>) -> Result<PicView, Error> {
    match offset {
        Err(e) => Err(e),
        Ok(at) => match spec_decode_pic(rom.skip(at)) {
            None => Err(Error::PicCouldNotRead),
            Some(pic) => Ok(pic),
        },
    }
}

/// What the patch that puts `pic`, stored in the way `method`, in the place
/// of the picture at `offset` writes, and where. A picture that cannot be
/// stored gives `PicWrongSize`; one whose stored form takes more bytes than
/// the old picture, `PicTooLarge`.
pub open spec fn spec_set_pic_at(
    rom: Seq<u8>,
    offset: Result<int, Error>,
    pic: PicView,
    method: PicEncodingMethod,
) -> Result<(int, Seq<u8>), Error> {
    match spec_pic_at(rom, offset) {
        Err(e) => Err(e),
        Ok(old) => if !spec_pic_storable(pic.pixels, pic.width, pic.height) {
            Err(Error::PicWrongSize)
        } else {
            let data = spec_encode_pic(pic.pixels, pic.width, pic.height, method);
            if data.len() > old.bytes {
                Err(Error::PicTooLarge)
            } else {
                Ok((offset->Ok_0, data))
            }
        },
    }
}

/// Where the picture of the trainer class `trainer_id` stands.
pub open spec fn spec_trainer_pic_offset(rom: Seq<u8>, trainer_id: u8) -> Result<int, Error> {
    match spec_validated(
        spec_trainer_id_bounds(rom),
        trainer_id,
        spec_trainer_id_invalid(rom, trainer_id),
    ) {
        Err(e) => Err(e),
        Ok(_) => Ok(TRAINER_PICS_BANK + spec_u16_at(rom, TRAINER_PICS + (trainer_id - 1) * 5)),
    }
}

/// Whether a picture is the one that `w` holds, or an error the one that
/// `w` holds.
pub open spec fn pic_is(r: Result<Pic, Error>, w: Result<PicView, Error>) -> bool {
    match r {
        Ok(pic) => w == Ok::<PicView, Error>(pic@),
        Err(e) => w == Err::<PicView, Error>(e),
    }
}

impl PkmnapiDB {
    /// Where the picture of the side `face` of the species `pokedex_id` stands.
    fn pokemon_pic_offset(&self, pokedex_id: u8, face: &PokemonPicFace) -> (r: Result<
        usize,
        Error,
    >)
        ensures
            match r {
                Ok(offset) => spec_pokemon_pic_offset(self@, pokedex_id, *face) == Ok::<int, Error>(
                    offset as int,
                ) && offset <= self@.len(),
                Err(e) => spec_pokemon_pic_offset(self@, pokedex_id, *face) == Err::<int, Error>(e),
            },
    {
        let internal_id = self.pokedex_id_to_internal_id(&pokedex_id)?;
        let rom = self.rom();
        let id = internal_id as usize;
        let bank = if pokedex_id == LAST_POKEDEX_ID {
            rom[LAST_POKEMON_PIC_BANK]
        } else if id + 1 < rom[0x1646] as usize {
            rom[0x1648]
        } else if id + 1 < rom[0x164D] as usize {
            rom[0x164F]
        } else if id + 1 < rom[0x1654] as usize {
            rom[0x1656]
        } else if id + 1 < rom[0x165B] as usize {
            rom[0x165D]
        } else {
            rom[0x1661]
        };
        let entry = Self::stats_offset(pokedex_id);
        let pointer = match face {
            PokemonPicFace::FRONT => u16_at(rom, entry + PICS_IN_STATS),
            PokemonPicFace::BACK => u16_at(rom, entry + PICS_IN_STATS + 2),
        };
        if bank < 1 {
            return Err(Error::RomMalformed);
        }
        let offset = ((bank as usize) - 1) * 0x4000 + (pointer as usize);
        if offset > rom.len() {
            return Err(Error::RomMalformed);
        }
        Ok(offset)
    }

    /// The picture that stands at `offset`.
    fn pic_at(&self, offset: usize) -> (r: Result<Pic, Error>)
        requires
            offset <= self@.len(),
        ensures
            pic_is(r, spec_pic_at(self@, Ok(offset as int))),
    {
        match Pic::decode_at(self.rom(), offset) {
            Some(pic) => Ok(pic),
            None => Err(Error::PicCouldNotRead),
        }
    }

    /// The patch that puts `pic` in the place of the picture at `offset`.
    fn set_pic_at(&self, offset: usize, pic: &Pic, encoding_method: PicEncodingMethod) -> (r:
        Result<Patch, Error>)
        requires
            offset <= self@.len(),
        ensures
            patch_is(r, spec_set_pic_at(self@, Ok(offset as int), pic@, encoding_method)),
    {
        let old = self.pic_at(offset)?;
        let data = pic.encode(encoding_method)?;
        if data.len() > old.bytes {
            return Err(Error::PicTooLarge);
        }
        Ok(Patch::new(&offset, &data))
    }

    /// The picture of the side `pokemon_pic_face` of the species `pokedex_id`.
    pub fn get_pokemon_pic(&self, pokedex_id: &u8, pokemon_pic_face: &PokemonPicFace) -> (r:
        Result<Pic, Error>)
        ensures
            pic_is(
                r,
                spec_pic_at(
                    self@,
                    spec_pokemon_pic_offset(self@, *pokedex_id, *pokemon_pic_face),
                ),
            ),
    {
        let offset = self.pokemon_pic_offset(*pokedex_id, pokemon_pic_face)?;
        self.pic_at(offset)
    }

    /// The patch that puts `pic`, stored in the way `encoding_method`, in
    /// the place of the picture of the side `pokemon_pic_face` of the species
    /// `pokedex_id`.
    pub fn set_pokemon_pic(
        &self,
        pokedex_id: &u8,
        pokemon_pic_face: &PokemonPicFace,
        pic: &Pic,
        encoding_method: PicEncodingMethod,
    ) -> (r: Result<Patch, Error>)
        ensures
            patch_is(
                r,
                spec_set_pic_at(
                    self@,
                    spec_pokemon_pic_offset(self@, *pokedex_id, *pokemon_pic_face),
                    pic@,
                    encoding_method,
                ),
            ),
    {
        let offset = self.pokemon_pic_offset(*pokedex_id, pokemon_pic_face)?;
        self.set_pic_at(offset, pic, encoding_method)
    }

    /// Where the picture of the trainer class `trainer_id` stands.
    fn trainer_pic_offset(&self, trainer_id: u8) -> (r: Result<usize, Error>)
        ensures
            match r {
                Ok(offset) => spec_trainer_pic_offset(self@, trainer_id) == Ok::<int, Error>(
                    offset as int,
                ) && offset <= self@.len(),
                Err(e) => spec_trainer_pic_offset(self@, trainer_id) == Err::<int, Error>(e),
            },
    {
        let _bounds = self.trainer_id_validate(&trainer_id)?;
        let rom = self.rom();
        Ok(TRAINER_PICS_BANK + (u16_at(rom, TRAINER_PICS + ((trainer_id - 1) as usize) * 5)
            as usize))
    }

    /// The picture of the trainer class `trainer_id`.
    pub fn get_trainer_pic(&self, trainer_id: &u8) -> (r: Result<Pic, Error>)
        ensures
            pic_is(r, spec_pic_at(self@, spec_trainer_pic_offset(self@, *trainer_id))),
    {
        let offset = self.trainer_pic_offset(*trainer_id)?;
        self.pic_at(offset)
    }

    /// The patch that puts `pic`, stored in the way `encoding_method`, in
    /// the place of the picture of the trainer class `trainer_id`.
    pub fn set_trainer_pic(&self, trainer_id: &u8, pic: &Pic, encoding_method: PicEncodingMethod) -> (r:
        Result<Patch, Error>)
        ensures
            patch_is(
                r,
                spec_set_pic_at(
                    self@,
                    spec_trainer_pic_offset(self@, *trainer_id),
                    pic@,
                    encoding_method,
                ),
            ),
    {
        let offset = self.trainer_pic_offset(*trainer_id)?;
        self.set_pic_at(offset, pic, encoding_method)
    }
}

} // verus!
