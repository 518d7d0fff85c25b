//! What a caller sends to change the encounters of a map or the moves that
//! a species learns, and the records that such a message asks for.

use crate::encounters::{MapPokemonArea, MapPokemonInfo};
use vstd::prelude::*;

verus! {

/// A move that a species learns at a level.
#[derive(Debug, Clone, Copy, PartialEq, Eq, Structural)]
pub struct PokemonLearnset {
    pub level: u8,
    pub move_id: u8,
}

impl PokemonLearnset {
    /// The move `move_id`, learnt at the level `level`.
    pub fn new(level: u8, move_id: u8) -> (r: PokemonLearnset)
        ensures
            r == (PokemonLearnset { level, move_id }),
    {
        PokemonLearnset { level, move_id }
    }
}

/// The kind of a message about the encounters of a map.
#[derive(Debug, Clone, Copy, PartialEq, Eq, Structural)]
#[allow(non_camel_case_types)]
pub enum MapPokemonRequestType {
    map_pokemon,
}

/// The species of an encounter in a message.
#[derive(Debug, Clone, Copy, PartialEq, Eq, Structural)]
pub struct MapPokemonRequestAttributesPokemonInfo {
    pub id: u8,
}

/// An encounter in a message.
#[derive(Debug, Clone, Copy, PartialEq, Eq, Structural)]
pub struct MapPokemonRequestAttributesPokemon {
    pub level: u8,
    pub pokemon: MapPokemonRequestAttributesPokemonInfo,
}

/// A table of encounters in a message.
#[derive(Debug)]
pub struct MapPokemonRequestAttributesArea {
    pub encounter_rate: u8,
    pub pokemon: Vec<MapPokemonRequestAttributesPokemon>,
}

/// The encounters of a map in a message.
#[derive(Debug)]
pub struct MapPokemonRequestAttributes {
    pub grass: MapPokemonRequestAttributesArea,
    pub water: MapPokemonRequestAttributesArea,
}

/// The body of a message about the encounters of a map.
#[derive(Debug)]
pub struct MapPokemonRequestData {
    pub _type: MapPokemonRequestType,
    pub attributes: MapPokemonRequestAttributes,
}

/// A message about the encounters of a map.
#[derive(Debug)]
pub struct MapPokemonRequest {
    pub data: MapPokemonRequestData,
}

/// The encounter that an encounter in a message asks for.
pub open spec fn spec_requested_encounter(p: MapPokemonRequestAttributesPokemon) -> MapPokemonInfo {
    MapPokemonInfo { level: p.level, pokedex_id: p.pokemon.id }
}

impl MapPokemonRequestAttributesArea {
    /// The table of encounters that the table in the message asks for: the
    /// same rate, and the same encounters in the same order.
    pub fn to_area(&self) -> (r: MapPokemonArea)
        ensures
            r.encounter_rate == self.encounter_rate,
            r.pokemon@ == self.pokemon@.map_values(
                |p: MapPokemonRequestAttributesPokemon| spec_requested_encounter(p),
            ),
    {
        let ghost spec = self.pokemon@.map_values(
            |p: MapPokemonRequestAttributesPokemon| spec_requested_encounter(p),
        );
        let mut pokemon: Vec<MapPokemonInfo> = Vec::new();
        let mut i: usize = 0;
        while i < self.pokemon.len()
            invariant
                i <= self.pokemon@.len(),
                spec == self.pokemon@.map_values(
                    |p: MapPokemonRequestAttributesPokemon| spec_requested_encounter(p),
                ),
                pokemon@ == spec.take(i as int),
            decreases self.pokemon@.len() - i,
        {
            let p = &self.pokemon[i];
            pokemon.push(MapPokemonInfo::new(p.level, p.pokemon.id));
            i += 1;
            proof {
                assert(pokemon@ =~= spec.take(i as int));
            }
        }
        proof {
            assert(pokemon@ =~= spec);
        }
        MapPokemonArea { encounter_rate: self.encounter_rate, pokemon }
    }
}

impl MapPokemonRequest {
    /// The table of encounters that the message asks for in the grass.
    pub fn get_grass(&self) -> (r: MapPokemonArea)
        ensures
            r.encounter_rate == self.data.attributes.grass.encounter_rate,
            r.pokemon@ == self.data.attributes.grass.pokemon@.map_values(
                |p: MapPokemonRequestAttributesPokemon| spec_requested_encounter(p),
            ),
    {
        self.data.attributes.grass.to_area()
    }

    /// The table of encounters that the message asks for in the water.
    pub fn get_water(&self) -> (r: MapPokemonArea)
        ensures
            r.encounter_rate == self.data.attributes.water.encounter_rate,
            r.pokemon@ == self.data.attributes.water.pokemon@.map_values(
                |p: MapPokemonRequestAttributesPokemon| spec_requested_encounter(p),
            ),
    {
        self.data.attributes.water.to_area()
    }
}

/// The kind of a message about the moves that a species learns.
#[derive(Debug, Clone, Copy, PartialEq, Eq, Structural)]
#[allow(non_camel_case_types)]
pub enum PokemonLearnsetRequestType {
    pokemon_learnsets,
}

/// The move of an entry in a message.
#[derive(Debug, Clone, Copy, PartialEq, Eq, Structural)]
pub struct PokemonLearnsetRequestAttributesLearnsetMove {
    pub id: u8,
}

/// A move that a species learns at a level, in a message.
#[derive(Debug, Clone, Copy, PartialEq, Eq, Structural)]
pub struct PokemonLearnsetRequestAttributesLearnset {
    pub level: u8,
    pub _move: PokemonLearnsetRequestAttributesLearnsetMove,
}

/// The moves that a species learns, in a message.
#[derive(Debug)]
pub struct PokemonLearnsetRequestAttributes {
    pub learnset: Vec<PokemonLearnsetRequestAttributesLearnset>,
}

/// The body of a message about the moves that a species learns.
#[derive(Debug)]
pub struct PokemonLearnsetRequestData {
    pub _type: PokemonLearnsetRequestType,
    pub attributes: PokemonLearnsetRequestAttributes,
}

/// A message about the moves that a species learns.
#[derive(Debug)]
pub struct PokemonLearnsetRequest {
    pub data: PokemonLearnsetRequestData,
}

/// The record that an entry in a message asks for.
pub open spec fn spec_requested_learnset(l: PokemonLearnsetRequestAttributesLearnset) -> PokemonLearnset {
    PokemonLearnset { level: l.level, move_id: l._move.id }
}

impl PokemonLearnsetRequest {
    /// The moves that the message asks for, in its order.
    pub fn get_learnset(&self) -> (r: Vec<PokemonLearnset>)
        ensures
            r@ == self.data.attributes.learnset@.map_values(
                |l: PokemonLearnsetRequestAttributesLearnset| spec_requested_learnset(l),
            ),
    {
        let ghost spec = self.data.attributes.learnset@.map_values(
            |l: PokemonLearnsetRequestAttributesLearnset| spec_requested_learnset(l),
        );
        let mut out: Vec<PokemonLearnset> = Vec::new();
        let mut i: usize = 0;
        while i < self.data.attributes.learnset.len()
            invariant
                i <= self.data.attributes.learnset@.len(),
                spec == self.data.attributes.learnset@.map_values(
                    |l: PokemonLearnsetRequestAttributesLearnset| spec_requested_learnset(l),
                ),
                out@ == spec.take(i as int),
            decreases self.data.attributes.learnset@.len() - i,
        {
            let l = &self.data.attributes.learnset[i];
            out.push(PokemonLearnset::new(l.level, l._move.id));
            i += 1;
            proof {
                assert(out@ =~= spec.take(i as int));
            }
        }
        proof {
            assert(out@ =~= spec);
        }
        out
    }
}

} // verus!
