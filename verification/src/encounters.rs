//! The wild encounters of a map: one table for the grass and one for the
//! water, each an encounter rate and, where the rate is not zero, ten pairs
//! of a level and a species.

use crate::bytes::{spec_shown, spec_u16_at, u16_at};
use crate::db::{PkmnapiDB, ROM_PAGE, ROM_SIZE};
use crate::error::Error;
use crate::ids::{
    spec_map_id_bounds, spec_pokedex_id_to_species, spec_species_to_pokedex_id, spec_validated,
    MAP_POKEMON_POINTERS,
};
use crate::names::patch_is;
use crate::patch::Patch;
use vstd::prelude::*;

verus! {

/// The bank that the pointers to the tables point into.
pub const MAP_POKEMON_BANK: usize = ROM_PAGE * 0x04;

/// How many pairs a table with a rate holds.
pub const ENCOUNTERS_PER_AREA: usize = 10;

/// One encounter: a species at a level.
#[derive(Debug, Clone, Copy, PartialEq, Eq, Structural)]
pub struct MapPokemonInfo {
    pub level: u8,
    pub pokedex_id: u8,
}

impl MapPokemonInfo {
    /// The encounter with the species `pokedex_id` at the level `level`.
    pub fn new(level: u8, pokedex_id: u8) -> (r: MapPokemonInfo)
        ensures
            r == (MapPokemonInfo { level, pokedex_id }),
    {
        MapPokemonInfo { level, pokedex_id }
    }
}

/// The encounters of the grass, or of the water, of a map.
#[derive(Debug, PartialEq)]
pub struct MapPokemonArea {
    pub encounter_rate: u8,
    pub pokemon: Vec<MapPokemonInfo>,
}

/// The encounters of a map.
#[derive(Debug, PartialEq)]
pub struct MapPokemon {
    pub grass: MapPokemonArea,
    pub water: MapPokemonArea,
}

/// A table of encounters as a plain value.
pub struct MapPokemonAreaView {
    pub encounter_rate: u8,
    pub pokemon: Seq<MapPokemonInfo>,
}

/// The encounters of a map as a plain value.
pub struct MapPokemonView {
    pub grass: MapPokemonAreaView,
    pub water: MapPokemonAreaView,
}

impl View for MapPokemonArea {
    type V = MapPokemonAreaView;

    open spec fn view(&self) -> MapPokemonAreaView {
        MapPokemonAreaView { encounter_rate: self.encounter_rate, pokemon: self.pokemon@ }
    }
}

impl View for MapPokemon {
    type V = MapPokemonView;

    open spec fn view(&self) -> MapPokemonView {
        MapPokemonView { grass: self.grass@, water: self.water@ }
    }
}

/// The first `n` pairs of a level and a species that stand at `at`; none
/// where a pair names no species of the image.
pub open spec fn spec_decode_pairs(rom: Seq<u8>, at: int, n: nat) -> Option<Seq<MapPokemonInfo>>
    decreases n,
{
    if n == 0 {
        Some(Seq::empty())
    } else {
        match spec_decode_pairs(rom, at, (n - 1) as nat) {
            None => None,
            Some(pairs) => match spec_species_to_pokedex_id(rom, rom[at + 2 * (n - 1) + 1]) {
                None => None,
                Some(pokedex_id) => Some(
                    pairs.push(MapPokemonInfo { level: rom[at + 2 * (n - 1)], pokedex_id }),
                ),
            },
        }
    }
}

/// How many bytes the table at `at` takes: one for a rate of zero, else
/// the rate and ten pairs.
pub open spec fn spec_area_size(rom: Seq<u8>, at: int) -> int {
    if rom[at] == 0 {
        1
    } else {
        1 + 2 * ENCOUNTERS_PER_AREA
    }
}

/// The table that stands at `at`.
pub open spec fn spec_decode_area(rom: Seq<u8>, at: int) -> Option<MapPokemonAreaView> {
    if rom[at] == 0 {
        Some(MapPokemonAreaView { encounter_rate: 0, pokemon: Seq::empty() })
    } else {
        match spec_decode_pairs(rom, at + 1, ENCOUNTERS_PER_AREA as nat) {
            None => None,
            Some(pokemon) => Some(MapPokemonAreaView { encounter_rate: rom[at], pokemon }),
        }
    }
}

/// Where the tables of the map `map_id` stand.
pub open spec fn spec_map_pokemon_offset(rom: Seq<u8>, map_id: u8) -> int {
    MAP_POKEMON_BANK + spec_u16_at(rom, MAP_POKEMON_POINTERS + map_id * 2)
}

/// The error for a map identifier outside the range of the image.
pub open spec fn spec_map_id_invalid(rom: Seq<u8>, id: u8) -> Error {
    Error::MapIDInvalid(id, spec_map_id_bounds(rom)->Some_0.0, spec_map_id_bounds(rom)->Some_0.1)
}

/// The encounters of the map `map_id`: the table of the grass, and the
/// table of the water after it. A pair that names no species of the image
/// makes the tables malformed.
pub open spec fn spec_get_map_pokemon(rom: Seq<u8>, map_id: u8) -> Result<MapPokemonView, Error> {
    match spec_validated(spec_map_id_bounds(rom), map_id, spec_map_id_invalid(rom, map_id)) {
        Err(e) => Err(e),
        Ok(_) => {
            let at = spec_map_pokemon_offset(rom, map_id);
            match (spec_decode_area(rom, at), spec_decode_area(rom, at + spec_area_size(rom, at))) {
                (Some(grass), Some(water)) => Ok(MapPokemonView { grass, water }),
                _ => Err(Error::RomMalformed),
            }
        },
    }
}

/// The bytes of the pairs, one after another; or the error of the first
/// that names no species of the image.
pub open spec fn spec_encode_pairs(rom: Seq<u8>, pairs: Seq<MapPokemonInfo>) -> Result<
    Seq<u8>,
    Error,
>
    decreases pairs.len(),
{
    if pairs.len() == 0 {
        Ok(Seq::empty())
    } else {
        match spec_encode_pairs(rom, pairs.drop_last()) {
            Err(e) => Err(e),
            Ok(bytes) => match spec_pokedex_id_to_species(rom, pairs.last().pokedex_id) {
                Err(e) => Err(e),
                Ok(species) => Ok(bytes.push(pairs.last().level).push(species)),
            },
        }
    }
}

/// How many bytes a table takes when written: one for a rate of zero,
/// else the rate and two for each encounter.
pub open spec fn spec_area_width(area: MapPokemonAreaView) -> int {
    if area.encounter_rate == 0 {
        1
    } else {
        1 + 2 * (area.pokemon.len() as int)
    }
}

/// How many bytes a table takes if its encounters are written, whatever
/// its rate.
pub open spec fn spec_area_full_width(area: MapPokemonAreaView) -> int {
    1 + 2 * (area.pokemon.len() as int)
}

/// The bytes of a table: the rate alone where it is zero, else the rate and
/// the ten pairs. A table without a rate holds no encounters, and a table
/// with a rate ten: any other has no byte form, and gives
/// `MapPokemonWrongSize` with the bytes that such a table takes and the
/// bytes that its encounters would take.
pub open spec fn spec_encode_area(rom: Seq<u8>, area: MapPokemonAreaView) -> Result<
    Seq<u8>,
    Error,
> {
    if area.encounter_rate == 0 {
        if area.pokemon.len() != 0 {
            Err(Error::MapPokemonWrongSize(1, spec_shown(spec_area_full_width(area))))
        } else {
            Ok(seq![0u8])
        }
    } else if area.pokemon.len() != ENCOUNTERS_PER_AREA {
        Err(
            Error::MapPokemonWrongSize(
                (1 + 2 * ENCOUNTERS_PER_AREA) as usize,
                spec_shown(spec_area_full_width(area)),
            ),
        )
    } else {
        match spec_encode_pairs(rom, area.pokemon) {
            Err(e) => Err(e),
            Ok(bytes) => Ok(seq![area.encounter_rate] + bytes),
        }
    }
}

/// The bytes of the tables of a map: the grass, then the water.
pub open spec fn spec_encode_map_pokemon(rom: Seq<u8>, map_pokemon: MapPokemonView) -> Result<
    Seq<u8>,
    Error,
> {
    match spec_encode_area(rom, map_pokemon.grass) {
        Err(e) => Err(e),
        Ok(grass) => match spec_encode_area(rom, map_pokemon.water) {
            Err(e) => Err(e),
            Ok(water) => Ok(grass + water),
        },
    }
}

/// How many bytes the tables of the map at `at` take.
pub open spec fn spec_map_pokemon_size(rom: Seq<u8>, at: int) -> int {
    spec_area_size(rom, at) + spec_area_size(rom, at + spec_area_size(rom, at))
}

/// What the patch that sets the encounters of the map `map_id` to
/// `map_pokemon` writes, and where.
///
/// Written, the new tables must take as many bytes as the old:
/// `MapPokemonWrongSize` with the old size and the new otherwise. Where the
/// sizes agree, a table that has no byte form, or holds an encounter with
/// what is no species of the image, gives its error: the grass first.
pub open spec fn spec_set_map_pokemon(rom: Seq<u8>, map_id: u8, map_pokemon: MapPokemonView) -> Result<
    (int, Seq<u8>),
    Error,
> {
    match spec_get_map_pokemon(rom, map_id) {
        Err(e) => Err(e),
        Ok(_) => {
            let at = spec_map_pokemon_offset(rom, map_id);
            let old_size = spec_map_pokemon_size(rom, at);
            let new_size = spec_area_width(map_pokemon.grass) + spec_area_width(map_pokemon.water);
            if old_size != new_size {
                Err(Error::MapPokemonWrongSize(old_size as usize, spec_shown(new_size)))
            } else {
                match spec_encode_map_pokemon(rom, map_pokemon) {
                    Err(e) => Err(e),
                    Ok(data) => Ok((at, data)),
                }
            }
        },
    }
}

/// The bytes of pairs are two for each.
pub proof fn lemma_encoded_pairs_len(rom: Seq<u8>, pairs: Seq<MapPokemonInfo>)
    ensures
        spec_encode_pairs(rom, pairs) matches Ok(bytes) ==> bytes.len() == 2 * pairs.len(),
    decreases pairs.len(),
{
    if pairs.len() > 0 {
        lemma_encoded_pairs_len(rom, pairs.drop_last());
    }
}

/// An error in encoding the first `n` pairs is the error in encoding all.
pub proof fn lemma_encode_pairs_prefix_error(rom: Seq<u8>, pairs: Seq<MapPokemonInfo>, n: int)
    requires
        0 <= n <= pairs.len(),
        spec_encode_pairs(rom, pairs.take(n)) is Err,
    ensures
        spec_encode_pairs(rom, pairs) == spec_encode_pairs(rom, pairs.take(n)),
    decreases pairs.len() - n,
{
    if n < pairs.len() {
        assert(pairs.take(n + 1).drop_last() =~= pairs.take(n));
        lemma_encode_pairs_prefix_error(rom, pairs, n + 1);
    } else {
        assert(pairs.take(n) =~= pairs);
    }
}

/// An error in decoding the first `n` pairs is an error in decoding more.
pub proof fn lemma_decode_pairs_prefix_none(rom: Seq<u8>, at: int, n: nat, m: nat)
    requires
        n <= m,
        spec_decode_pairs(rom, at, n) is None,
    ensures
        spec_decode_pairs(rom, at, m) is None,
    decreases m - n,
{
    if n < m {
        lemma_decode_pairs_prefix_none(rom, at, (n + 1) as nat, m);
    }
}

impl PkmnapiDB {
    /// The table that stands at `at`.
    fn decode_area(&self, at: usize) -> (r: Option<MapPokemonArea>)
        requires
            at + 1 + 2 * ENCOUNTERS_PER_AREA <= ROM_SIZE,
        ensures
            match r {
                Some(area) => spec_decode_area(self@, at as int) == Some(area@),
                None => spec_decode_area(self@, at as int) is None,
            },
    {
        let rom = self.rom();
        let rate = rom[at];
        let mut pokemon: Vec<MapPokemonInfo> = Vec::new();
        if rate == 0 {
            return Some(MapPokemonArea { encounter_rate: 0, pokemon });
        }
        let mut k: usize = 0;
        while k < ENCOUNTERS_PER_AREA
            invariant
                k <= ENCOUNTERS_PER_AREA,
                at + 1 + 2 * ENCOUNTERS_PER_AREA <= ROM_SIZE <= rom@.len(),
                rom@ == self@,
                rom@[at as int] != 0,
                spec_decode_pairs(self@, at + 1, k as nat) == Some(pokemon@),
            decreases ENCOUNTERS_PER_AREA - k,
        {
            let level = rom[at + 1 + 2 * k];
            let pokedex_id = match self.species_to_pokedex_id(rom[at + 1 + 2 * k + 1]) {
                Some(pokedex_id) => pokedex_id,
                None => {
                    proof {
                        lemma_decode_pairs_prefix_none(
                            self@,
                            at + 1,
                            (k + 1) as nat,
                            ENCOUNTERS_PER_AREA as nat,
                        );
                    }
                    return None;
                },
            };
            pokemon.push(MapPokemonInfo::new(level, pokedex_id));
            k += 1;
        }
        Some(MapPokemonArea { encounter_rate: rate, pokemon })
    }

    /// The encounters of the map `map_id`.
    pub fn get_map_pokemon(&self, map_id: &u8) -> (r: Result<MapPokemon, Error>)
        ensures
            match r {
                Ok(map_pokemon) => spec_get_map_pokemon(self@, *map_id) == Ok::<
                    MapPokemonView,
                    Error,
                >(map_pokemon@),
                Err(e) => spec_get_map_pokemon(self@, *map_id) == Err::<MapPokemonView, Error>(e),
            },
    {
        let _bounds = self.map_id_validate(map_id)?;
        let rom = self.rom();
        let at = MAP_POKEMON_BANK + (u16_at(rom, MAP_POKEMON_POINTERS + (*map_id as usize) * 2)
            as usize);
        let grass = match self.decode_area(at) {
            Some(area) => area,
            None => {
                return Err(Error::RomMalformed);
            },
        };
        let size: usize = if rom[at] == 0 {
            1
        } else {
            1 + 2 * ENCOUNTERS_PER_AREA
        };
        let water = match self.decode_area(at + size) {
            Some(area) => area,
            None => {
                return Err(Error::RomMalformed);
            },
        };
        Ok(MapPokemon { grass, water })
    }

    /// The bytes of a table of encounters.
    fn encode_area(&self, area: &MapPokemonArea) -> (r: Result<Vec<u8>, Error>)
        ensures
            match r {
                Ok(data) => spec_encode_area(self@, area@) == Ok::<Seq<u8>, Error>(data@),
                Err(e) => spec_encode_area(self@, area@) == Err::<Seq<u8>, Error>(e),
            },
    {
        let mut data: Vec<u8> = Vec::new();
        data.push(area.encounter_rate);
        let count = area.pokemon.len();
        let full: u128 = 1 + 2 * (count as u128);
        let shown: usize = if full <= usize::MAX as u128 {
            full as usize
        } else {
            usize::MAX
        };
        if area.encounter_rate == 0 {
            if count != 0 {
                return Err(Error::MapPokemonWrongSize(1, shown));
            }
            proof {
                assert(data@ =~= seq![0u8]);
            }
            return Ok(data);
        }
        if count != ENCOUNTERS_PER_AREA {
            return Err(Error::MapPokemonWrongSize(1 + 2 * ENCOUNTERS_PER_AREA, shown));
        }
        let mut k: usize = 0;
        let ghost pairs = area.pokemon@;
        proof {
            assert(pairs.take(0) =~= Seq::<MapPokemonInfo>::empty());
            assert(data@ =~= seq![area.encounter_rate] + Seq::<u8>::empty());
        }
        while k < area.pokemon.len()
            invariant
                k <= pairs.len(),
                pairs == area.pokemon@,
                pairs.len() == ENCOUNTERS_PER_AREA,
                area.encounter_rate != 0,
                spec_encode_pairs(self@, pairs.take(k as int)) is Ok,
                data@ == seq![area.encounter_rate] + spec_encode_pairs(
                    self@,
                    pairs.take(k as int),
                )->Ok_0,
            decreases pairs.len() - k,
        {
            let info = area.pokemon[k];
            proof {
                assert(pairs.take(k + 1).drop_last() =~= pairs.take(k as int));
            }
            let species = match self.pokedex_id_to_species(info.pokedex_id) {
                Ok(species) => species,
                Err(e) => {
                    proof {
                        lemma_encode_pairs_prefix_error(self@, pairs, k + 1);
                    }
                    return Err(e);
                },
            };
            data.push(info.level);
            data.push(species);
            k += 1;
            proof {
                assert(data@ =~= seq![area.encounter_rate] + spec_encode_pairs(
                    self@,
                    pairs.take(k as int),
                )->Ok_0);
            }
        }
        proof {
            assert(pairs.take(pairs.len() as int) =~= pairs);
        }
        Ok(data)
    }

    /// The patch that sets the encounters of the map `map_id` to
    /// `map_pokemon`. It takes as many bytes as the old tables took.
    pub fn set_map_pokemon(&self, map_id: &u8, map_pokemon: &MapPokemon) -> (r: Result<
        Patch,
        Error,
    >)
        ensures
            patch_is(r, spec_set_map_pokemon(self@, *map_id, map_pokemon@)),
            r matches Ok(p) ==> p.length == spec_map_pokemon_size(
                self@,
                spec_map_pokemon_offset(self@, *map_id),
            ),
    {
        let _old = self.get_map_pokemon(map_id)?;
        let rom = self.rom();
        let at = MAP_POKEMON_BANK + (u16_at(rom, MAP_POKEMON_POINTERS + (*map_id as usize) * 2)
            as usize);
        let grass_size: usize = if rom[at] == 0 {
            1
        } else {
            1 + 2 * ENCOUNTERS_PER_AREA
        };
        let water_size: usize = if rom[at + grass_size] == 0 {
            1
        } else {
            1 + 2 * ENCOUNTERS_PER_AREA
        };
        let old_size = grass_size + water_size;
        let new_size: u128 = area_width(&map_pokemon.grass) + area_width(&map_pokemon.water);
        if new_size != old_size as u128 {
            let shown: usize = if new_size <= usize::MAX as u128 {
                new_size as usize
            } else {
                usize::MAX
            };
            return Err(Error::MapPokemonWrongSize(old_size, shown));
        }
        let mut data = self.encode_area(&map_pokemon.grass)?;
        let water = self.encode_area(&map_pokemon.water)?;
        crate::bytes::append_range(&mut data, &water, 0, water.len());
        proof {
            assert(water@.subrange(0, water@.len() as int) =~= water@);
            lemma_encoded_pairs_len(self@, map_pokemon.grass.pokemon@);
            lemma_encoded_pairs_len(self@, map_pokemon.water.pokemon@);
        }
        Ok(Patch::new(&at, &data))
    }
}

/// How many bytes a table takes when written.
fn area_width(area: &MapPokemonArea) -> (r: u128)
    ensures
        r == spec_area_width(area@),
        r <= 1 + 2 * usize::MAX,
{
    if area.encounter_rate == 0 {
        1
    } else {
        1 + 2 * (area.pokemon.len() as u128)
    }
}

} // verus!
