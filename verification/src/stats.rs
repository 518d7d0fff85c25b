//! The base stats of a species: a record of ten bytes at the start of the
//! species' entry.

use crate::bytes::copy_range;
use crate::db::{PkmnapiDB, ROM_PAGE};
use crate::error::Error;
use crate::ids::spec_pokedex_id_to_internal_id;
use crate::patch::Patch;
use vstd::prelude::*;

verus! {

/// Where the entries of the species stand, in the order of their display numbers.
pub const POKEMON_STATS: usize = ROM_PAGE * 0x1C + 0x03DE;

/// Where the entry of the last species stands, apart from the others.
pub const LAST_POKEMON_STATS: usize = ROM_PAGE * 0x02 + 0x025B;

/// The display number of the last species.
pub const LAST_POKEDEX_ID: u8 = 151;

/// The size of a species' entry.
pub const POKEMON_ENTRY_SIZE: usize = 0x1C;

/// The size of the record of base stats in an entry.
pub const STATS_SIZE: usize = 0x0A;

/// Where the field of machines stands in an entry.
pub const MACHINES_IN_STATS: usize = 0x14;

/// Where the entry of the species `pokedex_id` stands.
pub open spec fn spec_stats_offset(pokedex_id: u8) -> int
    recommends
        pokedex_id >= 1,
{
    if pokedex_id == LAST_POKEDEX_ID {
        LAST_POKEMON_STATS as int
    } else {
        POKEMON_STATS + (pokedex_id - 1) * POKEMON_ENTRY_SIZE
    }
}

/// The base stats of a species.
#[derive(Debug, PartialEq)]
pub struct Stats {
    pub pokedex_id: u8,
    pub base_hp: u8,
    pub base_attack: u8,
    pub base_defence: u8,
    pub base_speed: u8,
    pub base_special: u8,
    pub type_ids: Vec<u8>,
    pub catch_rate: u8,
    pub base_exp_yield: u8,
}

impl Stats {
    /// The ten bytes of the record: the display number, the five base stats,
    /// the two types, the catch rate and the experience yield. A record
    /// that has not two types has no byte form.
    pub open spec fn spec_to_raw(&self) -> Seq<u8> {
        seq![
            self.pokedex_id,
            self.base_hp,
            self.base_attack,
            self.base_defence,
            self.base_speed,
            self.base_special,
        ] + self.type_ids@ + seq![self.catch_rate, self.base_exp_yield]
    }

    /// Whether the record is what the ten bytes `raw` hold.
    pub open spec fn is_decoding_of(&self, raw: Seq<u8>) -> bool {
        &&& self.type_ids@.len() == 2
        &&& self.spec_to_raw() == raw
    }

    /// The record that the first ten bytes of `rom` hold.
    pub fn from(rom: &Vec<u8>) -> (r: Stats)
        requires
            rom@.len() >= STATS_SIZE,
        ensures
            r.is_decoding_of(rom@.take(STATS_SIZE as int)),
    {
        let r = Stats {
            pokedex_id: rom[0],
            base_hp: rom[1],
            base_attack: rom[2],
            base_defence: rom[3],
            base_speed: rom[4],
            base_special: rom[5],
            type_ids: copy_range(rom, 6, 8),
            catch_rate: rom[8],
            base_exp_yield: rom[9],
        };
        proof {
            assert(r.spec_to_raw() =~= rom@.take(STATS_SIZE as int));
        }
        r
    }

    /// The bytes of the record.
    pub fn to_raw(&self) -> (r: Vec<u8>)
        ensures
            r@ == self.spec_to_raw(),
    {
        let mut out: Vec<u8> = Vec::new();
        out.push(self.pokedex_id);
        out.push(self.base_hp);
        out.push(self.base_attack);
        out.push(self.base_defence);
        out.push(self.base_speed);
        out.push(self.base_special);
        crate::bytes::append_range(&mut out, &self.type_ids, 0, self.type_ids.len());
        out.push(self.catch_rate);
        out.push(self.base_exp_yield);
        proof {
            assert(self.type_ids@.subrange(0, self.type_ids@.len() as int) =~= self.type_ids@);
            assert(out@ =~= self.spec_to_raw());
        }
        out
    }
}

/// An alias under which the record is also known.
pub type PokemonStats = Stats;

impl PkmnapiDB {
    /// Where the entry of the species `pokedex_id` stands.
    pub(crate) fn stats_offset(pokedex_id: u8) -> (r: usize)
        requires
            pokedex_id >= 1,
        ensures
            r == spec_stats_offset(pokedex_id),
            r + POKEMON_ENTRY_SIZE <= crate::db::ROM_SIZE,
    {
        if pokedex_id == LAST_POKEDEX_ID {
            LAST_POKEMON_STATS
        } else {
            POKEMON_STATS + ((pokedex_id - 1) as usize) * POKEMON_ENTRY_SIZE
        }
    }

    /// The base stats of the species `pokedex_id`: what the first ten bytes
    /// of its entry hold.
    pub fn get_pokemon_stats(&self, pokedex_id: &u8) -> (r: Result<Stats, Error>)
        ensures
            match r {
                Ok(stats) => spec_pokedex_id_to_internal_id(self@, *pokedex_id) is Ok
                    && stats.is_decoding_of(
                    self@.subrange(
                        spec_stats_offset(*pokedex_id),
                        spec_stats_offset(*pokedex_id) + STATS_SIZE,
                    ),
                ),
                Err(e) => spec_pokedex_id_to_internal_id(self@, *pokedex_id) == Err::<u8, Error>(e),
            },
    {
        let _internal_id = self.pokedex_id_to_internal_id(pokedex_id)?;
        let offset = Self::stats_offset(*pokedex_id);
        let raw = copy_range(self.rom(), offset, offset + STATS_SIZE);
        proof {
            assert(raw@.take(STATS_SIZE as int) =~= raw@);
        }
        Ok(Stats::from(&raw))
    }

    /// The patch that gives the species `pokedex_id` the base stats
    /// `pokemon_stats`. Stats that have not two types do not fill the record
    /// and are refused: `StatsWrongSize` with the size of the record and the
    /// size of what was given.
    pub fn set_pokemon_stats(&self, pokedex_id: &u8, pokemon_stats: &Stats) -> (r: Result<
        Patch,
        Error,
    >)
        ensures
            match r {
                Ok(p) => spec_pokedex_id_to_internal_id(self@, *pokedex_id) is Ok
                    && pokemon_stats.type_ids@.len() == 2 && p.writes(
                    spec_stats_offset(*pokedex_id),
                    pokemon_stats.spec_to_raw(),
                ),
                Err(e) => match spec_pokedex_id_to_internal_id(self@, *pokedex_id) {
                    Err(id_error) => e == id_error,
                    Ok(_) => pokemon_stats.type_ids@.len() != 2 && e == Error::StatsWrongSize(
                        STATS_SIZE,
                        pokemon_stats.spec_to_raw().len() as usize,
                    ),
                },
            },
    {
        let _internal_id = self.pokedex_id_to_internal_id(pokedex_id)?;
        let offset = Self::stats_offset(*pokedex_id);
        let raw = pokemon_stats.to_raw();
        if raw.len() != STATS_SIZE {
            return Err(Error::StatsWrongSize(STATS_SIZE, raw.len()));
        }
        Ok(Patch::new(&offset, &raw))
    }
}

} // verus!
