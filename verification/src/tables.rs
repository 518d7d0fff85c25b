//! The small tables: the moves of the machines, the prices of the TMs, the
//! type matchups, the records of the moves and the species of the title screen.

use crate::bytes::copy_range;
use crate::db::{PkmnapiDB, ROM_PAGE};
use crate::error::Error;
use crate::ids::{
    spec_hm_id_bounds, spec_move_id_bounds, spec_tm_id_bounds, spec_type_effect_id_bounds,
    spec_validated, HM_MOVES, MAX_TM_ID, MOVE_STATS, TYPE_EFFECTS,
};
use crate::names::{patch_is, spec_move_id_invalid};
use crate::patch::Patch;
use vstd::prelude::*;

verus! {

/// Where the table of the moves that the TMs teach stands.
pub const TM_MOVES: usize = ROM_PAGE * 0x09 + 0x1773;

/// Where the table of the prices of the TMs stands: one nibble for each TM,
/// the odd numbers in the high nibbles.
pub const TM_PRICES: usize = ROM_PAGE * 0x3D + 0x1FA7;

/// Where the species of the title screen stand.
pub const POKEMON_TITLE: usize = ROM_PAGE * 0x02 + 0x0588;

/// How many species the title screen shows.
pub const POKEMON_TITLE_SIZE: usize = 0x10;

/// The size of a type matchup.
pub const TYPE_EFFECT_SIZE: usize = 3;

/// The size of the record of a move.
pub const MOVE_STATS_SIZE: usize = 6;

/// The highest multiplier that a type matchup stores.
pub const MAX_MULTIPLIER: u8 = 254;

/// The move that an HM teaches.
#[derive(Debug, Clone, Copy, PartialEq, Eq, Structural)]
pub struct HM {
    pub move_id: u8,
}

impl HM {
    /// The HM that teaches the move `move_id`.
    pub fn from(move_id: u8) -> (r: HM)
        ensures
            r.move_id == move_id,
    {
        HM { move_id }
    }

    /// The byte of the HM: its move.
    pub fn to_raw(&self) -> (r: Vec<u8>)
        ensures
            r@ == seq![self.move_id],
    {
        let mut out: Vec<u8> = Vec::new();
        out.push(self.move_id);
        proof {
            assert(out@ =~= seq![self.move_id]);
        }
        out
    }
}

/// The move that a TM teaches.
#[derive(Debug, Clone, Copy, PartialEq, Eq, Structural)]
pub struct TM {
    pub move_id: u8,
}

impl TM {
    /// The TM that teaches the move `move_id`.
    pub fn from(move_id: u8) -> (r: TM)
        ensures
            r.move_id == move_id,
    {
        TM { move_id }
    }

    /// The byte of the TM: its move.
    pub fn to_raw(&self) -> (r: Vec<u8>)
        ensures
            r@ == seq![self.move_id],
    {
        let mut out: Vec<u8> = Vec::new();
        out.push(self.move_id);
        proof {
            assert(out@ =~= seq![self.move_id]);
        }
        out
    }
}

/// The price of a TM.
#[derive(Debug, Clone, Copy, PartialEq, Eq, Structural)]
pub struct TMPrice {
    pub value: u32,
}

impl TMPrice {
    /// The number of thousands in the price, as far as a byte holds it.
    pub open spec fn spec_thousands(&self) -> u8 {
        if self.value / 1000 <= 255 {
            (self.value / 1000) as u8
        } else {
            255
        }
    }

    /// The price of `tm_price` thousands.
    pub fn from(tm_price: u8) -> (r: TMPrice)
        ensures
            r.value == tm_price * 1000,
    {
        TMPrice { value: (tm_price as u32) * 1000 }
    }

    /// The byte of the price: its thousands, 255 at most.
    pub fn to_raw(&self) -> (r: Vec<u8>)
        ensures
            r@ == seq![self.spec_thousands()],
    {
        let thousands = self.value / 1000;
        let byte: u8 = if thousands <= 255 {
            thousands as u8
        } else {
            255
        };
        let mut out: Vec<u8> = Vec::new();
        out.push(byte);
        proof {
            assert(out@ =~= seq![self.spec_thousands()]);
        }
        out
    }
}

/// A type matchup: what an attack of one type does to a defender of
/// another. The multiplier counts tenths: 20 doubles, 5 halves.
#[derive(Debug, Clone, Copy, PartialEq, Eq, Structural)]
pub struct TypeEffect {
    pub attacking_type_id: u8,
    pub defending_type_id: u8,
    pub multiplier: u8,
}

impl TypeEffect {
    /// The three bytes of the matchup; the multiplier is stored as 254 at most.
    pub open spec fn spec_to_raw(&self) -> Seq<u8> {
        seq![
            self.attacking_type_id,
            self.defending_type_id,
            if self.multiplier <= MAX_MULTIPLIER {
                self.multiplier
            } else {
                MAX_MULTIPLIER
            },
        ]
    }

    /// The matchup that the first three bytes of `rom` hold.
    pub fn from(rom: &Vec<u8>) -> (r: TypeEffect)
        requires
            rom@.len() >= TYPE_EFFECT_SIZE,
        ensures
            r == (TypeEffect {
                attacking_type_id: rom@[0],
                defending_type_id: rom@[1],
                multiplier: rom@[2],
            }),
    {
        TypeEffect { attacking_type_id: rom[0], defending_type_id: rom[1], multiplier: rom[2] }
    }

    /// The bytes of the matchup.
    pub fn to_raw(&self) -> (r: Vec<u8>)
        ensures
            r@ == self.spec_to_raw(),
    {
        let mut out: Vec<u8> = Vec::new();
        out.push(self.attacking_type_id);
        out.push(self.defending_type_id);
        out.push(if self.multiplier <= MAX_MULTIPLIER { self.multiplier } else { MAX_MULTIPLIER });
        proof {
            assert(out@ =~= self.spec_to_raw());
        }
        out
    }
}

/// The record of a move. The accuracy counts parts of 255.
#[derive(Debug, Clone, Copy, PartialEq, Eq, Structural)]
pub struct MoveStats {
    pub move_id: u8,
    pub effect: u8,
    pub power: u8,
    pub type_id: u8,
    pub accuracy: u8,
    pub pp: u8,
}

impl MoveStats {
    /// The six bytes of the record.
    pub open spec fn spec_to_raw(&self) -> Seq<u8> {
        seq![self.move_id, self.effect, self.power, self.type_id, self.accuracy, self.pp]
    }

    /// The record that the first six bytes of `rom` hold.
    pub fn from(rom: &Vec<u8>) -> (r: MoveStats)
        requires
            rom@.len() >= MOVE_STATS_SIZE,
        ensures
            r.spec_to_raw() == rom@.take(MOVE_STATS_SIZE as int),
    {
        let r = MoveStats {
            move_id: rom[0],
            effect: rom[1],
            power: rom[2],
            type_id: rom[3],
            accuracy: rom[4],
            pp: rom[5],
        };
        proof {
            assert(r.spec_to_raw() =~= rom@.take(MOVE_STATS_SIZE as int));
        }
        r
    }

    /// The bytes of the record.
    pub fn to_raw(&self) -> (r: Vec<u8>)
        ensures
            r@ == self.spec_to_raw(),
    {
        let mut out: Vec<u8> = Vec::new();
        out.push(self.move_id);
        out.push(self.effect);
        out.push(self.power);
        out.push(self.type_id);
        out.push(self.accuracy);
        out.push(self.pp);
        proof {
            assert(out@ =~= self.spec_to_raw());
        }
        out
    }
}

/// The error for an HM identifier outside the range of the image.
pub open spec fn spec_hm_id_invalid(rom: Seq<u8>, id: u8) -> Error {
    Error::HMIDInvalid(id, spec_hm_id_bounds(rom)->Some_0.0, spec_hm_id_bounds(rom)->Some_0.1)
}

/// The error for a type matchup identifier outside the range of the image.
pub open spec fn spec_type_effect_id_invalid(rom: Seq<u8>, id: u8) -> Error {
    Error::TypeEffectIDInvalid(
        id,
        spec_type_effect_id_bounds(rom)->Some_0.0,
        spec_type_effect_id_bounds(rom)->Some_0.1,
    )
}

/// Whether `id` is an HM of the image, or else why not.
pub open spec fn spec_hm_checked(rom: Seq<u8>, id: u8) -> Result<(usize, usize), Error> {
    spec_validated(spec_hm_id_bounds(rom), id, spec_hm_id_invalid(rom, id))
}

/// Whether `id` is a TM, or else why not.
pub open spec fn spec_tm_checked(id: u8) -> Result<(usize, usize), Error> {
    spec_validated(Some(spec_tm_id_bounds()), id, Error::TMIDInvalid(id, 1, MAX_TM_ID))
}

/// Whether `id` is a type matchup of the image, or else why not.
pub open spec fn spec_type_effect_checked(rom: Seq<u8>, id: u8) -> Result<(usize, usize), Error> {
    spec_validated(spec_type_effect_id_bounds(rom), id, spec_type_effect_id_invalid(rom, id))
}

/// Whether `id` is a move of the image, or else why not.
pub open spec fn spec_move_checked(rom: Seq<u8>, id: u8) -> Result<(usize, usize), Error> {
    spec_validated(spec_move_id_bounds(rom), id, spec_move_id_invalid(rom, id))
}

/// The move that the HM `hm_id` teaches.
pub open spec fn spec_get_hm(rom: Seq<u8>, hm_id: u8) -> Result<HM, Error> {
    match spec_hm_checked(rom, hm_id) {
        Err(e) => Err(e),
        Ok(_) => Ok(HM { move_id: rom[HM_MOVES + hm_id - 1] }),
    }
}

/// What the patch that makes the HM `hm_id` teach the move of `hm` writes,
/// and where.
pub open spec fn spec_set_hm(rom: Seq<u8>, hm_id: u8, hm: HM) -> Result<(int, Seq<u8>), Error> {
    match spec_hm_checked(rom, hm_id) {
        Err(e) => Err(e),
        Ok(_) => Ok((HM_MOVES + hm_id - 1, seq![hm.move_id])),
    }
}

/// The move that the TM `tm_id` teaches.
pub open spec fn spec_get_tm(rom: Seq<u8>, tm_id: u8) -> Result<TM, Error> {
    match spec_tm_checked(tm_id) {
        Err(e) => Err(e),
        Ok(_) => Ok(TM { move_id: rom[TM_MOVES + tm_id - 1] }),
    }
}

/// What the patch that makes the TM `tm_id` teach the move of `tm` writes,
/// and where.
pub open spec fn spec_set_tm(tm_id: u8, tm: TM) -> Result<(int, Seq<u8>), Error> {
    match spec_tm_checked(tm_id) {
        Err(e) => Err(e),
        Ok(_) => Ok((TM_MOVES + tm_id - 1, seq![tm.move_id])),
    }
}

/// Where the byte that holds the price of the TM `tm_id` stands.
pub open spec fn spec_tm_price_offset(tm_id: u8) -> int
    recommends
        tm_id >= 1,
{
    TM_PRICES + (tm_id - 1) / 2
}

/// The price of the TM `tm_id`, in thousands: the high nibble of its byte
/// for an odd number, the low one for an even.
pub open spec fn spec_get_tm_price(rom: Seq<u8>, tm_id: u8) -> Result<TMPrice, Error> {
    match spec_tm_checked(tm_id) {
        Err(e) => Err(e),
        Ok(_) => {
            let byte = rom[spec_tm_price_offset(tm_id)];
            let nibble = if (tm_id - 1) % 2 == 0 {
                (byte & 0xF0) >> 4
            } else {
                byte & 0x0F
            };
            Ok(TMPrice { value: (nibble * 1000) as u32 })
        },
    }
}

/// What the patch that sets the price of the TM `tm_id` to `tm_price`
/// writes, and where: the byte of the price, with the thousands of the price
/// in the nibble of the TM and the other nibble as it was. Thousands that a
/// nibble does not hold lose their high bits, or spill into the other nibble.
pub open spec fn spec_set_tm_price(rom: Seq<u8>, tm_id: u8, tm_price: TMPrice) -> Result<
    (int, Seq<u8>),
    Error,
> {
    match spec_tm_checked(tm_id) {
        Err(e) => Err(e),
        Ok(_) => {
            let byte = rom[spec_tm_price_offset(tm_id)];
            let value = if (tm_id - 1) % 2 == 0 {
                (byte & 0x0F) | (tm_price.spec_thousands() << 4)
            } else {
                (byte & 0xF0) | tm_price.spec_thousands()
            };
            Ok((spec_tm_price_offset(tm_id), seq![value]))
        },
    }
}

/// The type matchup `type_effect_id`.
pub open spec fn spec_get_type_effect(rom: Seq<u8>, type_effect_id: u8) -> Result<
    TypeEffect,
    Error,
> {
    match spec_type_effect_checked(rom, type_effect_id) {
        Err(e) => Err(e),
        Ok(_) => Ok(
            TypeEffect {
                attacking_type_id: rom[TYPE_EFFECTS + type_effect_id * 3],
                defending_type_id: rom[TYPE_EFFECTS + type_effect_id * 3 + 1],
                multiplier: rom[TYPE_EFFECTS + type_effect_id * 3 + 2],
            },
        ),
    }
}

/// What the patch that sets the type matchup `type_effect_id` to
/// `type_effect` writes, and where.
pub open spec fn spec_set_type_effect(rom: Seq<u8>, type_effect_id: u8, type_effect: TypeEffect) -> Result<
    (int, Seq<u8>),
    Error,
> {
    match spec_type_effect_checked(rom, type_effect_id) {
        Err(e) => Err(e),
        Ok(_) => Ok((TYPE_EFFECTS + type_effect_id * 3, type_effect.spec_to_raw())),
    }
}

/// Where the record of the move `move_id` stands.
pub open spec fn spec_move_stats_offset(move_id: u8) -> int
    recommends
        move_id >= 1,
{
    MOVE_STATS + (move_id - 1) * MOVE_STATS_SIZE
}

/// What the patch that sets the record of the move `move_id` to
/// `move_stats` writes, and where.
pub open spec fn spec_set_move_stats(rom: Seq<u8>, move_id: u8, move_stats: MoveStats) -> Result<
    (int, Seq<u8>),
    Error,
> {
    match spec_move_checked(rom, move_id) {
        Err(e) => Err(e),
        Ok(_) => Ok((spec_move_stats_offset(move_id), move_stats.spec_to_raw())),
    }
}

impl PkmnapiDB {
    /// The move that the HM `hm_id` teaches.
    pub fn get_hm(&self, hm_id: &u8) -> (r: Result<HM, Error>)
        ensures
            r == spec_get_hm(self@, *hm_id),
    {
        let _bounds = self.hm_id_validate(hm_id)?;
        let rom = self.rom();
        proof {
            crate::bytes::lemma_first_index_of(self@.skip(HM_MOVES as int), 0xFF);
        }
        Ok(HM::from(rom[HM_MOVES + (*hm_id as usize) - 1]))
    }

    /// The patch that makes the HM `hm_id` teach the move of `hm`.
    pub fn set_hm(&self, hm_id: &u8, hm: &HM) -> (r: Result<Patch, Error>)
        ensures
            patch_is(r, spec_set_hm(self@, *hm_id, *hm)),
    {
        let _bounds = self.hm_id_validate(hm_id)?;
        let offset = HM_MOVES + (*hm_id as usize) - 1;
        Ok(Patch::new(&offset, &hm.to_raw()))
    }

    /// The move that the TM `tm_id` teaches.
    pub fn get_tm(&self, tm_id: &u8) -> (r: Result<TM, Error>)
        ensures
            r == spec_get_tm(self@, *tm_id),
    {
        let _bounds = self.tm_id_validate(tm_id)?;
        Ok(TM::from(self.rom()[TM_MOVES + (*tm_id as usize) - 1]))
    }

    /// The patch that makes the TM `tm_id` teach the move of `tm`.
    pub fn set_tm(&self, tm_id: &u8, tm: &TM) -> (r: Result<Patch, Error>)
        ensures
            patch_is(r, spec_set_tm(*tm_id, *tm)),
    {
        let _bounds = self.tm_id_validate(tm_id)?;
        let offset = TM_MOVES + (*tm_id as usize) - 1;
        Ok(Patch::new(&offset, &tm.to_raw()))
    }

    /// The price of the TM `tm_id`.
    pub fn get_tm_price(&self, tm_id: &u8) -> (r: Result<TMPrice, Error>)
        ensures
            r == spec_get_tm_price(self@, *tm_id),
    {
        let _bounds = self.tm_id_validate(tm_id)?;
        let byte = self.rom()[TM_PRICES + ((*tm_id - 1) / 2) as usize];
        let nibble = if (*tm_id - 1) % 2 == 0 {
            (byte & 0xF0) >> 4
        } else {
            byte & 0x0F
        };
        proof {
            assert((byte & 0xF0) >> 4 < 16) by (bit_vector);
            assert(byte & 0x0F < 16) by (bit_vector);
        }
        Ok(TMPrice::from(nibble))
    }

    /// The patch that sets the price of the TM `tm_id` to `tm_price`.
    pub fn set_tm_price(&self, tm_id: &u8, tm_price: &TMPrice) -> (r: Result<Patch, Error>)
        ensures
            patch_is(r, spec_set_tm_price(self@, *tm_id, *tm_price)),
    {
        let _bounds = self.tm_id_validate(tm_id)?;
        let offset = TM_PRICES + ((*tm_id - 1) / 2) as usize;
        let byte = self.rom()[offset];
        let raw = tm_price.to_raw();
        let value = if (*tm_id - 1) % 2 == 0 {
            (byte & 0x0F) | (raw[0] << 4)
        } else {
            (byte & 0xF0) | raw[0]
        };
        let mut data: Vec<u8> = Vec::new();
        data.push(value);
        proof {
            assert(data@ =~= seq![value]);
        }
        Ok(Patch::new(&offset, &data))
    }

    /// The type matchup `type_effect_id`.
    pub fn get_type_effect(&self, type_effect_id: &u8) -> (r: Result<TypeEffect, Error>)
        ensures
            r == spec_get_type_effect(self@, *type_effect_id),
    {
        let _bounds = self.type_effect_id_validate(type_effect_id)?;
        let pointer = TYPE_EFFECTS + (*type_effect_id as usize) * 3;
        let raw = copy_range(self.rom(), pointer, pointer + TYPE_EFFECT_SIZE);
        Ok(TypeEffect::from(&raw))
    }

    /// The patch that sets the type matchup `type_effect_id` to `type_effect`.
    pub fn set_type_effect(&self, type_effect_id: &u8, type_effect: &TypeEffect) -> (r: Result<
        Patch,
        Error,
    >)
        ensures
            patch_is(r, spec_set_type_effect(self@, *type_effect_id, *type_effect)),
    {
        let _bounds = self.type_effect_id_validate(type_effect_id)?;
        let pointer = TYPE_EFFECTS + (*type_effect_id as usize) * 3;
        Ok(Patch::new(&pointer, &type_effect.to_raw()))
    }

    /// The record of the move `move_id`: what the six bytes at its place hold.
    pub fn get_move_stats(&self, move_id: &u8) -> (r: Result<MoveStats, Error>)
        ensures
            match r {
                Ok(stats) => spec_move_checked(self@, *move_id) is Ok && stats.spec_to_raw()
                    == self@.subrange(
                    spec_move_stats_offset(*move_id),
                    spec_move_stats_offset(*move_id) + MOVE_STATS_SIZE,
                ),
                Err(e) => spec_move_checked(self@, *move_id) == Err::<(usize, usize), Error>(e),
            },
    {
        let _bounds = self.move_id_validate(move_id)?;
        let offset = MOVE_STATS + ((*move_id as usize) - 1) * MOVE_STATS_SIZE;
        let raw = copy_range(self.rom(), offset, offset + MOVE_STATS_SIZE);
        proof {
            assert(raw@.take(MOVE_STATS_SIZE as int) =~= raw@);
        }
        Ok(MoveStats::from(&raw))
    }

    /// The patch that sets the record of the move `move_id` to `move_stats`.
    pub fn set_move_stats(&self, move_id: &u8, move_stats: &MoveStats) -> (r: Result<
        Patch,
        Error,
    >)
        ensures
            patch_is(r, spec_set_move_stats(self@, *move_id, *move_stats)),
    {
        let _bounds = self.move_id_validate(move_id)?;
        let offset = MOVE_STATS + ((*move_id as usize) - 1) * MOVE_STATS_SIZE;
        Ok(Patch::new(&offset, &move_stats.to_raw()))
    }

    /// The species that the title screen shows: sixteen bytes.
    pub fn get_pokemon_title(&self) -> (r: Result<Vec<u8>, Error>)
        ensures
            r matches Ok(title) && title@ == self@.subrange(
                POKEMON_TITLE as int,
                POKEMON_TITLE + POKEMON_TITLE_SIZE,
            ),
    {
        Ok(copy_range(self.rom(), POKEMON_TITLE, POKEMON_TITLE + POKEMON_TITLE_SIZE))
    }

    /// The patch that sets the species that the title screen shows to
    /// `pokemon_title`, which must be sixteen: `PokemonTitleWrongSize` with
    /// sixteen and the number found otherwise.
    pub fn set_pokemon_title(&self, pokemon_title: &Vec<u8>) -> (r: Result<Patch, Error>)
        ensures
            match r {
                Ok(p) => pokemon_title@.len() == POKEMON_TITLE_SIZE && p.writes(
                    POKEMON_TITLE as int,
                    pokemon_title@,
                ),
                Err(e) => pokemon_title@.len() != POKEMON_TITLE_SIZE && e
                    == Error::PokemonTitleWrongSize(POKEMON_TITLE_SIZE, pokemon_title.len()),
            },
    {
        if pokemon_title.len() != POKEMON_TITLE_SIZE {
            return Err(Error::PokemonTitleWrongSize(POKEMON_TITLE_SIZE, pokemon_title.len()));
        }
        Ok(Patch::new(&POKEMON_TITLE, pokemon_title))
    }
}

} // verus!
