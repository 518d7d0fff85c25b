//! Identifier spaces: the range that the image allows for each kind of
//! identifier, and the two orders of the species.
//!
//! A range is found by looking for the byte or pair that ends a table, so it
//! follows the image that is loaded. Where the end cannot be found, or leaves
//! no entry, the image is malformed.

use crate::bytes::{
    count_byte, count_of, find_byte, find_pair, first_index_of, first_pair_of, lemma_first_index_of,
};
use crate::db::{PkmnapiDB, ROM_PAGE, ROM_SIZE};
use crate::error::Error;
use crate::string::{text_part, TERMINATOR};

use vstd::prelude::*;

verus! {

/// Where the pointers to the type names stand.
pub const TYPE_NAME_POINTERS: usize = ROM_PAGE * 0x10 + 0x7DAE;

/// Where the table of type matchups stands.
pub const TYPE_EFFECTS: usize = ROM_PAGE * 0x1F + 0x0474;

/// Where the trainer names stand.
pub const TRAINER_NAMES: usize = ROM_PAGE * 0x1C + 0x19FF;

/// Where the table of the moves that the HMs teach stands.
pub const HM_MOVES: usize = ROM_PAGE * 0x01 + 0x1052;

/// Where the item names stand.
pub const ITEM_NAMES: usize = ROM_PAGE * 0x02 + 0x072B;

/// Where the table of move records stands.
pub const MOVE_STATS: usize = ROM_PAGE * 0x1C;

/// Where the pointers to the maps' encounter tables stand.
pub const MAP_POKEMON_POINTERS: usize = ROM_PAGE * 0x06 + 0x0EEB;

/// Where the byte that counts the species in storage order stands.
pub const INTERNAL_COUNT: usize = ROM_PAGE * 0x38 + 0x1E5F;

/// Where the table from storage order to display number stands.
pub const POKEDEX_IDS: usize = ROM_PAGE * 0x20 + 0x1024;

/// Where the species names stand, in storage order.
pub const POKEMON_NAMES: usize = ROM_PAGE * 0x0E + 0x021E;

/// The width of a species name's field.
pub const POKEMON_NAME_WIDTH: usize = 0x0A;

/// The highest TM number.
pub const MAX_TM_ID: usize = 50;

/// The highest icon number.
pub const MAX_ICON_ID: usize = 9;

/// Whether `id` lies in the inclusive range `bounds`.
pub open spec fn in_bounds(id: u8, bounds: (usize, usize)) -> bool {
    bounds.0 <= id <= bounds.1
}

/// The range of the type identifiers: one for each pointer before the byte
/// `0x8D`, from zero.
pub open spec fn spec_type_id_bounds(rom: Seq<u8>) -> Option<(usize, usize)> {
    match first_index_of(rom.skip(TYPE_NAME_POINTERS as int), 0x8D) {
        Some(i) => if i >= 2 {
            Some((0usize, (i / 2 - 1) as usize))
        } else {
            None
        },
        None => None,
    }
}

/// The range of the type matchup identifiers: one for each three bytes
/// before the byte `0xFF`, from zero.
pub open spec fn spec_type_effect_id_bounds(rom: Seq<u8>) -> Option<(usize, usize)> {
    match first_index_of(rom.skip(TYPE_EFFECTS as int), 0xFF) {
        Some(i) => if i >= 3 {
            Some((0usize, (i / 3 - 1) as usize))
        } else {
            None
        },
        None => None,
    }
}

/// The range of the identifiers of a list of names that starts at `start`
/// and ends before the byte `end`: one for each terminator, from one.
pub open spec fn spec_name_list_bounds(rom: Seq<u8>, start: int, end: u8) -> Option<
    (usize, usize),
> {
    match first_index_of(rom.skip(start), end) {
        Some(i) => Some((1usize, count_of(rom.subrange(start, start + i), TERMINATOR) as usize)),
        None => None,
    }
}

/// The range of the trainer identifiers.
pub open spec fn spec_trainer_id_bounds(rom: Seq<u8>) -> Option<(usize, usize)> {
    spec_name_list_bounds(rom, TRAINER_NAMES as int, 0x21)
}

/// The range of the item identifiers.
pub open spec fn spec_item_id_bounds(rom: Seq<u8>) -> Option<(usize, usize)> {
    spec_name_list_bounds(rom, ITEM_NAMES as int, 0xD0)
}

/// The range of the HM identifiers: one for each byte before the byte
/// `0xFF`, from one.
pub open spec fn spec_hm_id_bounds(rom: Seq<u8>) -> Option<(usize, usize)> {
    match first_index_of(rom.skip(HM_MOVES as int), 0xFF) {
        Some(i) => Some((1usize, i as usize)),
        None => None,
    }
}

/// The range of the TM identifiers, which the format fixes.
pub open spec fn spec_tm_id_bounds() -> (usize, usize) {
    (1usize, MAX_TM_ID)
}

/// The range of the move identifiers: one for each three pairs before the
/// pair `(0x01, 0x2D)`, from one.
pub open spec fn spec_move_id_bounds(rom: Seq<u8>) -> Option<(usize, usize)> {
    match first_pair_of(rom.skip(MOVE_STATS as int), 0x01, 0x2D) {
        Some(i) => Some((1usize, (i / 3) as usize)),
        None => None,
    }
}

/// The range of the map identifiers: one for each pair before the pair
/// `(0xFF, 0xFF)`, from zero.
pub open spec fn spec_map_id_bounds(rom: Seq<u8>) -> Option<(usize, usize)> {
    match first_pair_of(rom.skip(MAP_POKEMON_POINTERS as int), 0xFF, 0xFF) {
        Some(i) => if i >= 1 {
            Some((0usize, (i - 1) as usize))
        } else {
            None
        },
        None => None,
    }
}

/// The range of the icon identifiers, which the format fixes.
pub open spec fn spec_icon_id_bounds() -> (usize, usize) {
    (0usize, MAX_ICON_ID)
}

/// What a validator returns for `id`: the range, where there is one and `id`
/// lies in it; `invalid`, where `id` lies outside it; `RomMalformed`, where
/// the image gives no range.
pub open spec fn spec_validated(bounds: Option<(usize, usize)>, id: u8, invalid: Error) -> Result<
    (usize, usize),
    Error,
> {
    match bounds {
        None => Err(Error::RomMalformed),
        Some(b) => if in_bounds(id, b) {
            Ok(b)
        } else {
            Err(invalid)
        },
    }
}

/// How many species the image stores: identifiers in storage order run from
/// zero to one less than this.
pub open spec fn spec_internal_max(rom: Seq<u8>) -> Option<usize> {
    if rom[INTERNAL_COUNT as int] >= 1 {
        Some((rom[INTERNAL_COUNT as int] - 1) as usize)
    } else {
        None
    }
}

/// The table from storage order to display number.
pub open spec fn spec_pokedex_table(rom: Seq<u8>) -> Seq<u8>
    recommends
        spec_internal_max(rom) is Some,
{
    rom.subrange(POKEDEX_IDS as int, POKEDEX_IDS + spec_internal_max(rom)->Some_0)
}

/// The greatest byte of `s`; zero where `s` is empty.
pub open spec fn spec_greatest(s: Seq<u8>) -> u8
    decreases s.len(),
{
    if s.len() == 0 {
        0
    } else if spec_greatest(s.drop_last()) >= s.last() {
        spec_greatest(s.drop_last())
    } else {
        s.last()
    }
}

/// The range of the display numbers: from one to the greatest that the
/// table of the image holds.
pub open spec fn spec_pokedex_id_bounds(rom: Seq<u8>) -> Option<(usize, usize)> {
    match spec_internal_max(rom) {
        None => None,
        Some(_) => Some((1usize, spec_greatest(spec_pokedex_table(rom)) as usize)),
    }
}

/// The error for a display number that the image has no species for.
pub open spec fn spec_pokedex_id_invalid(rom: Seq<u8>, pokedex_id: u8) -> Error {
    Error::PokedexIDInvalid(
        pokedex_id,
        spec_pokedex_id_bounds(rom)->Some_0.0,
        spec_pokedex_id_bounds(rom)->Some_0.1,
    )
}

/// The place in storage order of the species with display number
/// `pokedex_id`: the first place in the table that holds the number.
pub open spec fn spec_pokedex_id_to_internal_id(rom: Seq<u8>, pokedex_id: u8) -> Result<u8, Error> {
    if spec_internal_max(rom) is None {
        Err(Error::RomMalformed)
    } else if pokedex_id < 1 {
        Err(spec_pokedex_id_invalid(rom, pokedex_id))
    } else {
        match first_index_of(spec_pokedex_table(rom), pokedex_id) {
            Some(i) => Ok(i as u8),
            None => Err(spec_pokedex_id_invalid(rom, pokedex_id)),
        }
    }
}

/// No byte of `s` is above the greatest.
pub proof fn lemma_greatest(s: Seq<u8>)
    ensures
        forall|i: int| 0 <= i < s.len() ==> (#[trigger] s[i]) <= spec_greatest(s),
        s.len() > 0 ==> s.contains(spec_greatest(s)),
    decreases s.len(),
{
    if s.len() > 0 {
        let t = s.drop_last();
        lemma_greatest(t);
        assert forall|i: int| 0 <= i < s.len() implies (#[trigger] s[i]) <= spec_greatest(s) by {
            if i < t.len() {
                assert(t[i] == s[i]);
            }
        }
        if t.len() > 0 && spec_greatest(t) >= s.last() {
            let k = choose|k: int| 0 <= k < t.len() && t[k] == spec_greatest(t);
            assert(s[k] == spec_greatest(s));
        } else {
            assert(s[s.len() - 1] == spec_greatest(s));
        }
    }
}

/// The display number of the species at `internal_id` in storage order.
pub open spec fn spec_internal_id_to_pokedex_id(rom: Seq<u8>, internal_id: u8) -> Result<
    u8,
    Error,
> {
    match spec_internal_max(rom) {
        None => Err(Error::RomMalformed),
        Some(max) => if internal_id >= max {
            Err(Error::InternalIDInvalid(internal_id))
        } else {
            Ok(rom[POKEDEX_IDS + internal_id])
        },
    }
}

/// The name of the species at `internal_id` in storage order.
pub open spec fn spec_pokemon_name_at(rom: Seq<u8>, internal_id: int) -> Seq<u8> {
    text_part(
        rom.subrange(
            POKEMON_NAMES + internal_id * POKEMON_NAME_WIDTH,
            POKEMON_NAMES + internal_id * POKEMON_NAME_WIDTH + POKEMON_NAME_WIDTH,
        ),
    )
}

/// The display number of the species that the byte `species` names in a
/// record: the byte is one more than the species' place in storage order.
pub open spec fn spec_species_to_pokedex_id(rom: Seq<u8>, species: u8) -> Option<u8> {
    if species >= 1 {
        match spec_internal_id_to_pokedex_id(rom, (species - 1) as u8) {
            Ok(pokedex_id) => Some(pokedex_id),
            Err(_) => None,
        }
    } else {
        None
    }
}

/// The byte that names the species `pokedex_id` in a record.
pub open spec fn spec_pokedex_id_to_species(rom: Seq<u8>, pokedex_id: u8) -> Result<u8, Error> {
    match spec_pokedex_id_to_internal_id(rom, pokedex_id) {
        Ok(internal_id) => Ok((internal_id + 1) as u8),
        Err(e) => Err(e),
    }
}

impl PkmnapiDB {
    /// The display number of the species that the byte `species` names.
    pub(crate) fn species_to_pokedex_id(&self, species: u8) -> (r: Option<u8>)
        ensures
            r == spec_species_to_pokedex_id(self@, species),
    {
        if species < 1 {
            return None;
        }
        match self.internal_id_to_pokedex_id(&(species - 1)) {
            Ok(pokedex_id) => Some(pokedex_id),
            Err(_) => None,
        }
    }

    /// The byte that names the species `pokedex_id` in a record.
    pub(crate) fn pokedex_id_to_species(&self, pokedex_id: u8) -> (r: Result<u8, Error>)
        ensures
            r == spec_pokedex_id_to_species(self@, pokedex_id),
            r matches Ok(b) ==> b >= 1,
    {
        let internal_id = self.pokedex_id_to_internal_id(&pokedex_id)?;
        Ok(internal_id + 1)
    }

    /// The range of the type identifiers, if `type_id` lies in it.
    pub fn type_id_validate(&self, type_id: &u8) -> (r: Result<(usize, usize), Error>)
        ensures
            r == spec_validated(
                spec_type_id_bounds(self@),
                *type_id,
                Error::TypeIDInvalid(
                    *type_id,
                    spec_type_id_bounds(self@)->Some_0.0,
                    spec_type_id_bounds(self@)->Some_0.1,
                ),
            ),
    {
        let rom = self.rom();
        let len = rom.len();
        proof {
            assert(rom@.subrange(TYPE_NAME_POINTERS as int, len as int) =~= rom@.skip(
                TYPE_NAME_POINTERS as int,
            ));
        }
        let max_index = match find_byte(rom, TYPE_NAME_POINTERS, len, 0x8D) {
            Some(i) => i,
            None => {
                return Err(Error::RomMalformed);
            },
        };
        if max_index < 2 {
            return Err(Error::RomMalformed);
        }
        let min_id: usize = 0;
        let max_id: usize = max_index / 2 - 1;
        if (*type_id as usize) > max_id {
            return Err(Error::TypeIDInvalid(*type_id, min_id, max_id));
        }
        Ok((min_id, max_id))
    }

    /// The range of the type matchup identifiers, if `type_effect_id` lies in it.
    pub fn type_effect_id_validate(&self, type_effect_id: &u8) -> (r: Result<
        (usize, usize),
        Error,
    >)
        ensures
            r == spec_validated(
                spec_type_effect_id_bounds(self@),
                *type_effect_id,
                Error::TypeEffectIDInvalid(
                    *type_effect_id,
                    spec_type_effect_id_bounds(self@)->Some_0.0,
                    spec_type_effect_id_bounds(self@)->Some_0.1,
                ),
            ),
    {
        let rom = self.rom();
        let len = rom.len();
        proof {
            assert(rom@.subrange(TYPE_EFFECTS as int, len as int) =~= rom@.skip(
                TYPE_EFFECTS as int,
            ));
        }
        let max_index = match find_byte(rom, TYPE_EFFECTS, len, 0xFF) {
            Some(i) => i,
            None => {
                return Err(Error::RomMalformed);
            },
        };
        if max_index < 3 {
            return Err(Error::RomMalformed);
        }
        let min_id: usize = 0;
        let max_id: usize = max_index / 3 - 1;
        if (*type_effect_id as usize) > max_id {
            return Err(Error::TypeEffectIDInvalid(*type_effect_id, min_id, max_id));
        }
        Ok((min_id, max_id))
    }

    /// The range of the identifiers of the list of names at `start` that the
    /// byte `end` closes.
    pub(crate) fn name_list_bounds(&self, start: usize, end: u8) -> (r: Option<(usize, usize)>)
        requires
            start <= ROM_SIZE,
        ensures
            r == spec_name_list_bounds(self@, start as int, end),
    {
        let rom = self.rom();
        let len = rom.len();
        proof {
            assert(rom@.subrange(start as int, len as int) =~= rom@.skip(start as int));
            lemma_first_index_of(rom@.skip(start as int), end);
        }
        let max_offset = match find_byte(rom, start, len, end) {
            Some(i) => i,
            None => {
                return None;
            },
        };
        let max_id = count_byte(rom, start, start + max_offset, TERMINATOR);
        Some((1, max_id))
    }

    /// The range of the trainer identifiers, if `trainer_id` lies in it.
    pub fn trainer_id_validate(&self, trainer_id: &u8) -> (r: Result<(usize, usize), Error>)
        ensures
            r == spec_validated(
                spec_trainer_id_bounds(self@),
                *trainer_id,
                Error::TrainerIDInvalid(
                    *trainer_id,
                    spec_trainer_id_bounds(self@)->Some_0.0,
                    spec_trainer_id_bounds(self@)->Some_0.1,
                ),
            ),
    {
        let (min_id, max_id) = match self.name_list_bounds(TRAINER_NAMES, 0x21) {
            Some(b) => b,
            None => {
                return Err(Error::RomMalformed);
            },
        };
        if (*trainer_id as usize) < min_id || (*trainer_id as usize) > max_id {
            return Err(Error::TrainerIDInvalid(*trainer_id, min_id, max_id));
        }
        Ok((min_id, max_id))
    }

    /// The range of the HM identifiers.
    pub(crate) fn hm_id_bounds(&self) -> (r: Option<(usize, usize)>)
        ensures
            r == spec_hm_id_bounds(self@),
    {
        let rom = self.rom();
        let len = rom.len();
        proof {
            assert(rom@.subrange(HM_MOVES as int, len as int) =~= rom@.skip(HM_MOVES as int));
        }
        match find_byte(rom, HM_MOVES, len, 0xFF) {
            Some(i) => Some((1, i)),
            None => None,
        }
    }

    /// The range of the HM identifiers, if `hm_id` lies in it.
    pub fn hm_id_validate(&self, hm_id: &u8) -> (r: Result<(usize, usize), Error>)
        ensures
            r == spec_validated(
                spec_hm_id_bounds(self@),
                *hm_id,
                Error::HMIDInvalid(
                    *hm_id,
                    spec_hm_id_bounds(self@)->Some_0.0,
                    spec_hm_id_bounds(self@)->Some_0.1,
                ),
            ),
    {
        let (min_id, max_id) = match self.hm_id_bounds() {
            Some(b) => b,
            None => {
                return Err(Error::RomMalformed);
            },
        };
        if (*hm_id as usize) < min_id || (*hm_id as usize) > max_id {
            return Err(Error::HMIDInvalid(*hm_id, min_id, max_id));
        }
        Ok((min_id, max_id))
    }

    /// The range of the TM identifiers, if `tm_id` lies in it.
    pub fn tm_id_validate(&self, tm_id: &u8) -> (r: Result<(usize, usize), Error>)
        ensures
            r == spec_validated(
                Some(spec_tm_id_bounds()),
                *tm_id,
                Error::TMIDInvalid(*tm_id, 1, MAX_TM_ID),
            ),
    {
        let min_id: usize = 1;
        let max_id: usize = MAX_TM_ID;
        if (*tm_id as usize) < min_id || (*tm_id as usize) > max_id {
            return Err(Error::TMIDInvalid(*tm_id, min_id, max_id));
        }
        Ok((min_id, max_id))
    }

    /// The range of the item identifiers, if `item_id` lies in it.
    pub fn item_id_validate(&self, item_id: &u8) -> (r: Result<(usize, usize), Error>)
        ensures
            r == spec_validated(
                spec_item_id_bounds(self@),
                *item_id,
                Error::ItemIDInvalid(
                    *item_id,
                    spec_item_id_bounds(self@)->Some_0.0,
                    spec_item_id_bounds(self@)->Some_0.1,
                ),
            ),
    {
        let (min_id, max_id) = match self.name_list_bounds(ITEM_NAMES, 0xD0) {
            Some(b) => b,
            None => {
                return Err(Error::RomMalformed);
            },
        };
        if (*item_id as usize) < min_id || (*item_id as usize) > max_id {
            return Err(Error::ItemIDInvalid(*item_id, min_id, max_id));
        }
        Ok((min_id, max_id))
    }

    /// The range of the move identifiers, if `move_id` lies in it.
    pub fn move_id_validate(&self, move_id: &u8) -> (r: Result<(usize, usize), Error>)
        ensures
            r == spec_validated(
                spec_move_id_bounds(self@),
                *move_id,
                Error::MoveIDInvalid(
                    *move_id,
                    spec_move_id_bounds(self@)->Some_0.0,
                    spec_move_id_bounds(self@)->Some_0.1,
                ),
            ),
    {
        let rom = self.rom();
        let max_index = match find_pair(rom, MOVE_STATS, 0x01, 0x2D) {
            Some(i) => i,
            None => {
                return Err(Error::RomMalformed);
            },
        };
        let min_id: usize = 1;
        let max_id: usize = max_index / 3;
        if (*move_id as usize) < min_id || (*move_id as usize) > max_id {
            return Err(Error::MoveIDInvalid(*move_id, min_id, max_id));
        }
        Ok((min_id, max_id))
    }

    /// The range of the map identifiers, if `map_id` lies in it.
    pub fn map_id_validate(&self, map_id: &u8) -> (r: Result<(usize, usize), Error>)
        ensures
            r == spec_validated(
                spec_map_id_bounds(self@),
                *map_id,
                Error::MapIDInvalid(
                    *map_id,
                    spec_map_id_bounds(self@)->Some_0.0,
                    spec_map_id_bounds(self@)->Some_0.1,
                ),
            ),
    {
        let rom = self.rom();
        let max_index = match find_pair(rom, MAP_POKEMON_POINTERS, 0xFF, 0xFF) {
            Some(i) => i,
            None => {
                return Err(Error::RomMalformed);
            },
        };
        if max_index < 1 {
            return Err(Error::RomMalformed);
        }
        let min_id: usize = 0;
        let max_id: usize = max_index - 1;
        if (*map_id as usize) > max_id {
            return Err(Error::MapIDInvalid(*map_id, min_id, max_id));
        }
        Ok((min_id, max_id))
    }

    /// The range of the icon identifiers, if `icon_id` lies in it.
    pub fn icon_id_validate(&self, icon_id: &u8) -> (r: Result<(usize, usize), Error>)
        ensures
            r == spec_validated(
                Some(spec_icon_id_bounds()),
                *icon_id,
                Error::IconIDInvalid(*icon_id, 0, MAX_ICON_ID),
            ),
    {
        let min_id: usize = 0;
        let max_id: usize = MAX_ICON_ID;
        if (*icon_id as usize) > max_id {
            return Err(Error::IconIDInvalid(*icon_id, min_id, max_id));
        }
        Ok((min_id, max_id))
    }

    /// How many species the image stores, if it stores any.
    pub(crate) fn internal_max(&self) -> (r: Option<usize>)
        ensures
            r == spec_internal_max(self@),
    {
        let count = self.rom()[INTERNAL_COUNT];
        if count >= 1 {
            Some((count - 1) as usize)
        } else {
            None
        }
    }

    /// How many species the image stores.
    pub fn pokemon_internal_max(&self) -> (r: usize)
        requires
            self@[INTERNAL_COUNT as int] >= 1,
        ensures
            Some(r) == spec_internal_max(self@),
    {
        (self.rom()[INTERNAL_COUNT] as usize) - 1
    }

    /// The range of the display numbers: `RomMalformed` where the image
    /// stores no species.
    pub fn pokedex_id_bounds(&self) -> (r: Result<(usize, usize), Error>)
        ensures
            match r {
                Ok(bounds) => spec_pokedex_id_bounds(self@) == Some(bounds),
                Err(e) => spec_pokedex_id_bounds(self@) is None && e == Error::RomMalformed,
            },
    {
        let max = match self.internal_max() {
            Some(max) => max,
            None => {
                return Err(Error::RomMalformed);
            },
        };
        let rom = self.rom();
        let ghost table = spec_pokedex_table(rom@);
        let mut greatest: u8 = 0;
        let mut i: usize = 0;
        proof {
            assert(table.take(0) =~= Seq::<u8>::empty());
        }
        while i < max
            invariant
                i <= max < 255,
                rom@.len() >= ROM_SIZE,
                table == rom@.subrange(POKEDEX_IDS as int, POKEDEX_IDS + max),
                greatest == spec_greatest(table.take(i as int)),
            decreases max - i,
        {
            proof {
                assert(table.take(i + 1).drop_last() =~= table.take(i as int));
                assert(table.take(i + 1).last() == rom@[POKEDEX_IDS + i]);
            }
            let b = rom[POKEDEX_IDS + i];
            if b > greatest {
                greatest = b;
            }
            i += 1;
        }
        proof {
            assert(table.take(max as int) =~= table);
        }
        Ok((1, greatest as usize))
    }

    /// The place in storage order of the species with display number
    /// `pokedex_id`. A number that the table does not hold, and zero, give
    /// `PokedexIDInvalid` with the range of the display numbers.
    pub fn pokedex_id_to_internal_id(&self, pokedex_id: &u8) -> (r: Result<u8, Error>)
        ensures
            r == spec_pokedex_id_to_internal_id(self@, *pokedex_id),
            r matches Ok(i) ==> spec_internal_max(self@) is Some && i < spec_internal_max(
                self@,
            )->Some_0 && self@[POKEDEX_IDS + i] == *pokedex_id,
    {
        let max = match self.internal_max() {
            Some(max) => max,
            None => {
                return Err(Error::RomMalformed);
            },
        };
        let rom = self.rom();
        proof {
            lemma_first_index_of(spec_pokedex_table(rom@), *pokedex_id);
        }
        if *pokedex_id >= 1 {
            if let Some(internal_id) = find_byte(rom, POKEDEX_IDS, POKEDEX_IDS + max, *pokedex_id) {
                return Ok(internal_id as u8);
            }
        }
        match self.pokedex_id_bounds() {
            Ok((min_id, max_id)) => Err(Error::PokedexIDInvalid(*pokedex_id, min_id, max_id)),
            Err(e) => Err(e),
        }
    }

    /// The display number of the species at `internal_id` in storage order.
    /// A place beyond the species that the image stores gives
    /// `InternalIDInvalid`.
    pub fn internal_id_to_pokedex_id(&self, internal_id: &u8) -> (r: Result<u8, Error>)
        ensures
            r == spec_internal_id_to_pokedex_id(self@, *internal_id),
    {
        let max = match self.internal_max() {
            Some(max) => max,
            None => {
                return Err(Error::RomMalformed);
            },
        };
        if (*internal_id as usize) >= max {
            return Err(Error::InternalIDInvalid(*internal_id));
        }
        Ok(self.rom()[POKEDEX_IDS + (*internal_id as usize)])
    }
}

} // verus!
