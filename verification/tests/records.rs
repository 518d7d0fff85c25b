use pkmnapi::cry::Cry;
use pkmnapi::db::PkmnapiDB;
use pkmnapi::encounters::{MapPokemon, MapPokemonArea, MapPokemonInfo};
use pkmnapi::error::Error;
use pkmnapi::evolutions::{
    PokemonEvolution, PokemonEvolutionItem, PokemonEvolutionLevel, PokemonEvolutionTrade,
};
use pkmnapi::machines::PokemonMachine;
use pkmnapi::parties::{Party, PartyLevelType, PartyPokemon};
use pkmnapi::patch::Patch;
use pkmnapi::player_names::PlayerNames;
use pkmnapi::pokedex::{PokedexEntry, PokedexEntryText};
use pkmnapi::string::ROMString;

const ROM_SIZE: usize = 0x100000;

fn put(rom: &mut Vec<u8>, at: usize, bytes: &[u8]) {
    rom[at..at + bytes.len()].copy_from_slice(bytes);
}

fn text(s: &str) -> Vec<u8> {
    ROMString::from(s).unwrap().value
}

fn names(list: &[&str]) -> Vec<u8> {
    let mut out = vec![];
    for name in list {
        out.extend(text(name));
        out.push(0x50);
    }
    out
}

fn patch(offset: usize, data: Vec<u8>) -> Patch {
    Patch {
        offset,
        length: data.len(),
        data,
    }
}

/// An image with the species 1, 2, 3 and 151 at the places 3, 0, 1 and 2.
fn rom() -> Vec<u8> {
    let mut rom = vec![0u8; ROM_SIZE];
    rom[0x71E5F] = 5;
    put(&mut rom, 0x41024, &[2, 3, 151, 1]);
    // Five HMs.
    put(&mut rom, 0x3052, &[0x0F, 0x13, 0x39, 0x46, 0x94, 0xFF]);
    // The machines of the species 1.
    put(
        &mut rom,
        0x383DE + 0x14,
        &[0xA4, 0x03, 0x38, 0xC0, 0x03, 0x08, 0x06],
    );
    // The evolutions: the species 1 becomes the species 2 at level 16; the
    // species 2 becomes the species 3 by the item 10, or by trade; the
    // species 3 and 151 do not evolve.
    put(&mut rom, 0x3B05C, &[0x10, 0x78, 0x20, 0x78, 0x30, 0x78, 0x44, 0x78]);
    put(&mut rom, 0x34000 + 0x7844, &[0x01, 0x10, 0x01, 0x00]);
    put(
        &mut rom,
        0x34000 + 0x7810,
        &[0x02, 0x0A, 0x01, 0x02, 0x03, 0x01, 0x02, 0x00],
    );
    // Three trainer classes, with their parties.
    let mut trainers = names(&["YOUNGSTER", "BUG CATCHER", "LASS"]);
    trainers.push(0x21);
    put(&mut rom, 0x399FF, &trainers);
    put(&mut rom, 0x39D3B, &[0x00, 0x60, 0x08, 0x60, 0x0C, 0x60]);
    put(
        &mut rom,
        0x34000 + 0x6000,
        &[11, 4, 1, 0, 0xFF, 9, 2, 0],
    );
    put(&mut rom, 0x34000 + 0x6008, &[6, 1, 1, 0]);
    put(&mut rom, 0x34000 + 0x600C, &[0xFF, 20, 3, 21, 4, 0, 7, 7]);
    // Two maps.
    put(&mut rom, 0xCEEB, &[0x00, 0x50, 0x10, 0x50, 0xFF, 0xFF]);
    put(&mut rom, 0x8000 + 0x5000, &[0x00, 0x00]);
    let mut grass = vec![25u8];
    for k in 0..10u8 {
        grass.push(3 + k);
        grass.push(if k % 2 == 0 { 1 } else { 4 });
    }
    grass.push(0);
    put(&mut rom, 0x8000 + 0x5010, &grass);
    // The entry of the species 1 in the index, and its text in bank 0x2B.
    put(&mut rom, 0x4047E + 3 * 2, &[0x00, 0x45]);
    let mut entry = text("SEED");
    entry.extend([0x50, 2, 4, 150, 0, 0x17, 0x00, 0x40, 0x2B, 0x50]);
    put(&mut rom, 0x3C000 + 0x4500, &entry);
    let mut words = vec![0x00];
    words.extend(text("A strange seed"));
    words.push(0x5F);
    put(&mut rom, 0x2A * 0x4000 + 0x4000, &words);
    // The cry of the species 1: the base cry 2.
    put(&mut rom, 0x39446 + 3 * 3, &[0x02, 0x80, 0x01]);
    put(
        &mut rom,
        0x803C + 2 * 9,
        &[0xF4, 0x00, 0x50, 0xF5, 0x10, 0x50, 0xF7, 0x20, 0x50],
    );
    put(&mut rom, 0x4000 + 0x5000, &[0xFC, 0xF5, 0x2F, 0xF7, 0xFF]);
    put(&mut rom, 0x4000 + 0x5010, &[0xFF]);
    put(&mut rom, 0x4000 + 0x5020, &[0x22, 0x33, 0x44, 0xFF, 0x99]);
    // The names for the player and for the rival, and their copy.
    let mut lists = vec![];
    for list in [["RED", "ASH", "JACK"], ["BLUE", "GARY", "JOHN"]] {
        lists.extend(text("NEW NAME"));
        for name in list {
            lists.push(0x4E);
            lists.extend(text(name));
        }
        lists.push(0x50);
    }
    put(&mut rom, 0x6AA8, &lists);
    put(
        &mut rom,
        0x6AA8 + 46,
        &[
            0x47, 0x0E, 0x00, 0x54, 0x5D, 0x2A, 0xFE, 0x50, 0x20, 0xFB, 0x78, 0xB9, 0x28, 0x03,
            0x0C, 0x18, 0xF2, 0x62, 0x6B, 0x11, 0x6D, 0xCD, 0x01, 0x14, 0x00, 0xC3, 0xB5, 0x00,
        ],
    );
    rom
}

fn db() -> PkmnapiDB {
    PkmnapiDB::new(&rom(), None).unwrap()
}

#[test]
fn get_pokemon_machines_lists_the_set_bits() {
    // 0xA4 0x03 0x38 0xC0 0x03 0x08 0x06: the bits 2, 5, 7, 8, 9, 19, 20,
    // 21, 30, 31, 32, 33, 43, 49 and 50.
    assert_eq!(
        db().get_pokemon_machines(&1).unwrap(),
        vec![
            PokemonMachine::TM(0x03),
            PokemonMachine::TM(0x06),
            PokemonMachine::TM(0x08),
            PokemonMachine::TM(0x09),
            PokemonMachine::TM(0x0A),
            PokemonMachine::TM(0x14),
            PokemonMachine::TM(0x15),
            PokemonMachine::TM(0x16),
            PokemonMachine::TM(0x1F),
            PokemonMachine::TM(0x20),
            PokemonMachine::TM(0x21),
            PokemonMachine::TM(0x22),
            PokemonMachine::TM(0x2C),
            PokemonMachine::TM(0x32),
            PokemonMachine::HM(0x01),
        ]
    );
}

#[test]
fn get_pokemon_machines_drops_the_hms_that_are_none() {
    let mut data = rom();
    put(&mut data, 0x383DE + 0x14, &[0, 0, 0, 0, 0, 0, 0xFC]);
    // Two HMs only.
    put(&mut data, 0x3052, &[0x0F, 0x13, 0xFF]);
    let db = PkmnapiDB::new(&data, None).unwrap();
    // The bits 50 to 55 are set: the HMs 1 to 6, of which only two are.
    assert_eq!(
        db.get_pokemon_machines(&1).unwrap(),
        vec![PokemonMachine::HM(1), PokemonMachine::HM(2)]
    );
}

#[test]
fn set_pokemon_machines_packs_the_bits() {
    let machines = vec![
        PokemonMachine::TM(0x02),
        PokemonMachine::TM(0x07),
        PokemonMachine::TM(0x09),
        PokemonMachine::TM(0x0A),
        PokemonMachine::TM(0x0D),
        PokemonMachine::TM(0x11),
        PokemonMachine::TM(0x12),
        PokemonMachine::TM(0x13),
        PokemonMachine::TM(0x15),
        PokemonMachine::TM(0x16),
        PokemonMachine::TM(0x19),
        PokemonMachine::TM(0x21),
        PokemonMachine::TM(0x24),
        PokemonMachine::TM(0x26),
        PokemonMachine::TM(0x27),
        PokemonMachine::TM(0x2A),
        PokemonMachine::TM(0x2F),
        PokemonMachine::TM(0x31),
        PokemonMachine::TM(0x32),
        PokemonMachine::HM(0x01),
        PokemonMachine::HM(0x02),
    ];
    assert_eq!(
        db().set_pokemon_machines(&1, &machines),
        Ok(patch(
            0x383F2,
            vec![0x42, 0x13, 0x37, 0x01, 0x69, 0x42, 0x0F]
        ))
    );
}

#[test]
fn set_pokemon_machines_does_not_depend_on_the_order() {
    let db = db();
    let a = vec![
        PokemonMachine::HM(2),
        PokemonMachine::TM(50),
        PokemonMachine::TM(1),
        PokemonMachine::TM(9),
        PokemonMachine::TM(1),
    ];
    let b = vec![
        PokemonMachine::TM(1),
        PokemonMachine::TM(9),
        PokemonMachine::TM(50),
        PokemonMachine::HM(2),
    ];
    let patch_a = db.set_pokemon_machines(&1, &a).unwrap();
    assert_eq!(patch_a, db.set_pokemon_machines(&1, &b).unwrap());
    assert_eq!(patch_a.data, vec![0x01, 0x01, 0, 0, 0, 0, 0x0A]);
}

#[test]
fn set_pokemon_machines_refuses_the_first_machine_that_is_none() {
    let db = db();
    assert_eq!(
        db.set_pokemon_machines(
            &1,
            &vec![
                PokemonMachine::HM(6),
                PokemonMachine::TM(51),
                PokemonMachine::TM(0)
            ]
        ),
        Err(Error::TMIDInvalid(0, 1, 50))
    );
    assert_eq!(
        db.set_pokemon_machines(&1, &vec![PokemonMachine::HM(6), PokemonMachine::TM(3)]),
        Err(Error::HMIDInvalid(6, 1, 5))
    );
    assert_eq!(
        db.set_pokemon_machines(&9, &vec![]),
        Err(Error::PokedexIDInvalid(9, 1, 151))
    );
}

#[test]
fn set_pokemon_machines_takes_the_range_of_the_image() {
    // Ten HMs: the field has bits for the first six.
    let mut data = rom();
    put(&mut data, 0x3052, &[1, 2, 3, 4, 5, 6, 7, 8, 9, 10, 0xFF]);
    let db = PkmnapiDB::new(&data, None).unwrap();
    assert_eq!(db.hm_id_validate(&7), Ok((1, 10)));
    assert_eq!(
        db.set_pokemon_machines(&1, &vec![PokemonMachine::HM(7)]),
        Ok(patch(0x383F2, vec![0, 0, 0, 0, 0, 0, 0]))
    );
    assert_eq!(
        db.set_pokemon_machines(
            &1,
            &vec![
                PokemonMachine::HM(10),
                PokemonMachine::HM(6),
                PokemonMachine::TM(1)
            ]
        ),
        Ok(patch(0x383F2, vec![0x01, 0, 0, 0, 0, 0, 0x80]))
    );
    assert_eq!(
        db.set_pokemon_machines(&1, &vec![PokemonMachine::HM(11)]),
        Err(Error::HMIDInvalid(11, 1, 10))
    );
    assert_eq!(
        db.set_pokemon_machines(&1, &vec![PokemonMachine::HM(0)]),
        Err(Error::HMIDInvalid(0, 1, 10))
    );
}

#[test]
fn machines_read_back_after_the_patch() {
    let mut db = db();
    let before = db.get_pokemon_machines(&1).unwrap();
    let patch = db.set_pokemon_machines(&1, &before).unwrap();
    assert_eq!(patch.data, vec![0xA4, 0x03, 0x38, 0xC0, 0x03, 0x08, 0x06]);
    db.apply_patch(&patch);
    assert_eq!(db.get_pokemon_machines(&1).unwrap(), before);
}

#[test]
fn get_pokemon_evolutions_reads_the_slot() {
    let db = db();
    assert_eq!(
        db.get_pokemon_evolutions(&1).unwrap(),
        vec![PokemonEvolutionLevel::new(2, 16)]
    );
    assert_eq!(
        db.get_pokemon_evolutions(&2).unwrap(),
        vec![
            PokemonEvolutionItem::new(3, 10),
            PokemonEvolutionTrade::new(3)
        ]
    );
}

#[test]
fn get_pokemon_evolutions_of_a_species_that_does_not_evolve() {
    let db = db();
    assert_eq!(db.get_pokemon_evolutions(&3).unwrap(), vec![]);
    assert_eq!(db.get_pokemon_evolutions(&151).unwrap(), vec![]);
}

#[test]
fn get_pokemon_evolutions_refuses_a_malformed_slot() {
    let mut data = rom();
    put(&mut data, 0x34000 + 0x7844, &[0x04, 0x10, 0x01, 0x00]);
    let db = PkmnapiDB::new(&data, None).unwrap();
    assert_eq!(db.get_pokemon_evolutions(&1), Err(Error::RomMalformed));
    // An entry that names the place 9, where no species is.
    let mut data = rom();
    put(&mut data, 0x34000 + 0x7844, &[0x01, 0x10, 0x0A, 0x00]);
    let db = PkmnapiDB::new(&data, None).unwrap();
    assert_eq!(db.get_pokemon_evolutions(&1), Err(Error::RomMalformed));
    // Entries that run over the end of the slot.
    let mut data = rom();
    put(
        &mut data,
        0x34000 + 0x7844,
        &[1, 5, 1, 1, 5, 1, 1, 5, 1, 1, 5, 1, 2, 5, 1, 1],
    );
    let db = PkmnapiDB::new(&data, None).unwrap();
    assert_eq!(db.get_pokemon_evolutions(&1), Err(Error::RomMalformed));
}

#[test]
fn get_pokemon_evolutions_fills_the_slot() {
    let mut data = rom();
    put(
        &mut data,
        0x34000 + 0x7844,
        &[1, 5, 1, 1, 6, 1, 1, 7, 1, 2, 8, 1, 1, 1, 9, 1],
    );
    let db = PkmnapiDB::new(&data, None).unwrap();
    assert_eq!(
        db.get_pokemon_evolutions(&1).unwrap(),
        vec![
            PokemonEvolutionLevel::new(2, 5),
            PokemonEvolutionLevel::new(2, 6),
            PokemonEvolutionLevel::new(2, 7),
            PokemonEvolutionItem::new(2, 8),
        ]
    );
}

#[test]
fn set_pokemon_evolutions_writes_the_entries() {
    let db = db();
    assert_eq!(
        db.set_pokemon_evolutions(&1, &vec![PokemonEvolutionLevel::new(3, 32)]),
        Ok(patch(0x34000 + 0x7844, vec![0x01, 0x20, 0x02]))
    );
    assert_eq!(
        db.set_pokemon_evolutions(&1, &vec![PokemonEvolutionTrade::new(151)]),
        Ok(patch(0x34000 + 0x7844, vec![0x03, 0x01, 0x03]))
    );
    assert_eq!(
        db.set_pokemon_evolutions(
            &2,
            &vec![
                PokemonEvolutionItem::new(1, 0x2F),
                PokemonEvolutionLevel::new(2, 5)
            ]
        ),
        Ok(patch(
            0x34000 + 0x7810,
            vec![0x02, 0x2F, 0x01, 0x04, 0x01, 0x05, 0x01]
        ))
    );
}

#[test]
fn set_pokemon_evolutions_refuses_another_size() {
    let db = db();
    assert_eq!(
        db.set_pokemon_evolutions(&1, &vec![PokemonEvolutionItem::new(2, 16)]),
        Err(Error::PokemonEvolutionWrongSize(3, 4))
    );
    assert_eq!(
        db.set_pokemon_evolutions(&3, &vec![PokemonEvolutionTrade::new(2)]),
        Err(Error::PokemonEvolutionWrongSize(0, 3))
    );
    assert_eq!(
        db.set_pokemon_evolutions(&3, &vec![]),
        Ok(patch(0x34000 + 0x7820, vec![]))
    );
    assert_eq!(
        db.set_pokemon_evolutions(&1, &vec![PokemonEvolutionLevel::new(77, 16)]),
        Err(Error::PokedexIDInvalid(77, 1, 151))
    );
}

#[test]
fn evolutions_read_back_after_the_patch() {
    let mut db = db();
    let new = vec![
        PokemonEvolution::TRADE(PokemonEvolutionTrade { pokedex_id: 1 }),
        PokemonEvolution::ITEM(PokemonEvolutionItem {
            item_id: 7,
            pokedex_id: 151,
        }),
    ];
    let patch = db.set_pokemon_evolutions(&2, &new).unwrap();
    db.apply_patch(&patch);
    assert_eq!(db.get_pokemon_evolutions(&2).unwrap(), new);
}

#[test]
fn get_trainer_parties_splits_at_the_zeros() {
    let db = db();
    assert_eq!(
        db.get_trainer_parties(&1).unwrap(),
        vec![
            Party {
                level_type: PartyLevelType::SAME,
                pokemon: vec![PartyPokemon::new(11, 1), PartyPokemon::new(11, 2)],
            },
            Party {
                level_type: PartyLevelType::DIFFERENT,
                pokemon: vec![PartyPokemon::new(9, 3)],
            },
        ]
    );
    assert_eq!(
        db.get_trainer_parties(&2).unwrap(),
        vec![Party {
            level_type: PartyLevelType::SAME,
            pokemon: vec![PartyPokemon::new(6, 2), PartyPokemon::new(6, 2)],
        }]
    );
    // The last class: up to the first zero.
    assert_eq!(
        db.get_trainer_parties(&3).unwrap(),
        vec![Party {
            level_type: PartyLevelType::DIFFERENT,
            pokemon: vec![PartyPokemon::new(20, 151), PartyPokemon::new(21, 1)],
        }]
    );
    assert_eq!(
        db.get_trainer_parties(&4).unwrap_err(),
        Error::TrainerIDInvalid(4, 1, 3)
    );
}

#[test]
fn get_trainer_parties_refuses_what_is_malformed() {
    // A member in the place 8, where no species is.
    let mut data = rom();
    put(&mut data, 0x34000 + 0x6008, &[6, 9, 1, 0]);
    let db = PkmnapiDB::new(&data, None).unwrap();
    assert_eq!(db.get_trainer_parties(&2), Err(Error::RomMalformed));
    // A pair without its species.
    let mut data = rom();
    put(&mut data, 0x34000 + 0x6008, &[0xFF, 9, 1, 0]);
    put(&mut data, 0x39D3B, &[0x00, 0x60, 0x08, 0x60, 0x0B, 0x60]);
    let db = PkmnapiDB::new(&data, None).unwrap();
    assert_eq!(
        db.get_trainer_parties(&2).unwrap(),
        vec![Party {
            level_type: PartyLevelType::DIFFERENT,
            pokemon: vec![PartyPokemon::new(9, 2)],
        }]
    );
    put(&mut data, 0x34000 + 0x6008, &[0xFF, 9, 0, 0]);
    let db = PkmnapiDB::new(&data, None).unwrap();
    assert_eq!(db.get_trainer_parties(&2), Err(Error::RomMalformed));
    // The next class stands before this one.
    let mut data = rom();
    put(&mut data, 0x39D3B, &[0x00, 0x60, 0x08, 0x60, 0x04, 0x60]);
    let db = PkmnapiDB::new(&data, None).unwrap();
    assert_eq!(db.get_trainer_parties(&2), Err(Error::RomMalformed));
    // A class without bytes.
    let mut data = rom();
    put(&mut data, 0x39D3B, &[0x00, 0x60, 0x08, 0x60, 0x08, 0x60]);
    let db = PkmnapiDB::new(&data, None).unwrap();
    assert_eq!(db.get_trainer_parties(&2), Ok(vec![]));
    assert_eq!(
        db.set_trainer_parties(&2, &vec![]),
        Ok(patch(0x34000 + 0x6008, vec![]))
    );
}

#[test]
fn set_trainer_parties_writes_the_parties() {
    let db = db();
    let parties = vec![
        Party {
            level_type: PartyLevelType::DIFFERENT,
            pokemon: vec![PartyPokemon::new(5, 2)],
        },
        Party {
            level_type: PartyLevelType::SAME,
            pokemon: vec![PartyPokemon::new(42, 151), PartyPokemon::new(42, 3)],
        },
    ];
    assert_eq!(
        db.set_trainer_parties(&1, &parties),
        Ok(patch(
            0x34000 + 0x6000,
            vec![0xFF, 5, 1, 0, 42, 3, 2, 0]
        ))
    );
}

#[test]
fn set_trainer_parties_refuses_another_number_or_size() {
    let db = db();
    let one = vec![Party {
        level_type: PartyLevelType::SAME,
        pokemon: vec![PartyPokemon::new(5, 2)],
    }];
    assert_eq!(
        db.set_trainer_parties(&1, &one),
        Err(Error::TrainerPartiesWrongSize(2, 1))
    );
    assert_eq!(
        db.set_trainer_parties(&2, &one),
        Err(Error::TrainerPartiesWrongDataSize(4, 3))
    );
    let nobody = vec![Party {
        level_type: PartyLevelType::SAME,
        pokemon: vec![PartyPokemon::new(5, 99), PartyPokemon::new(5, 1)],
    }];
    assert_eq!(
        db.set_trainer_parties(&2, &nobody),
        Err(Error::PokedexIDInvalid(99, 1, 151))
    );
}

#[test]
fn set_trainer_parties_compares_the_sizes_first() {
    let db = db();
    // One party where two were, and that one with a level of zero.
    let one = vec![Party {
        level_type: PartyLevelType::DIFFERENT,
        pokemon: vec![PartyPokemon::new(0, 1)],
    }];
    assert_eq!(
        db.set_trainer_parties(&1, &one),
        Err(Error::TrainerPartiesWrongSize(2, 1))
    );
    // As many parties, of another size, with a member that is no species.
    let larger = vec![Party {
        level_type: PartyLevelType::DIFFERENT,
        pokemon: vec![PartyPokemon::new(0, 99), PartyPokemon::new(5, 1)],
    }];
    assert_eq!(
        db.set_trainer_parties(&2, &larger),
        Err(Error::TrainerPartiesWrongDataSize(4, 6))
    );
    let written = db
        .set_trainer_parties(
            &2,
            &vec![Party {
                level_type: PartyLevelType::DIFFERENT,
                pokemon: vec![PartyPokemon::new(7, 151)],
            }],
        )
        .unwrap();
    assert_eq!(written.length, 4);
    assert_eq!(written.data, vec![0xFF, 7, 3, 0]);
}

#[test]
fn set_trainer_parties_refuses_a_party_that_cannot_be_written() {
    let db = db();
    let empty = vec![Party {
        level_type: PartyLevelType::SAME,
        pokemon: vec![],
    }];
    // Written, it would take its first byte and its closing zero.
    assert_eq!(
        db.set_trainer_parties(&2, &empty),
        Err(Error::TrainerPartiesWrongDataSize(4, 2))
    );
    let mixed = vec![Party {
        level_type: PartyLevelType::SAME,
        pokemon: vec![PartyPokemon::new(5, 1), PartyPokemon::new(6, 1)],
    }];
    assert_eq!(
        db.set_trainer_parties(&2, &mixed),
        Err(Error::TrainerPartyInvalid(0))
    );
    let level_zero = vec![
        Party {
            level_type: PartyLevelType::DIFFERENT,
            pokemon: vec![PartyPokemon::new(5, 1)],
        },
        Party {
            level_type: PartyLevelType::DIFFERENT,
            pokemon: vec![PartyPokemon::new(0, 1)],
        },
    ];
    assert_eq!(
        db.set_trainer_parties(&1, &level_zero),
        Err(Error::TrainerPartyInvalid(1))
    );
    let marker = vec![Party {
        level_type: PartyLevelType::SAME,
        pokemon: vec![PartyPokemon::new(0xFF, 1), PartyPokemon::new(0xFF, 1)],
    }];
    assert_eq!(
        db.set_trainer_parties(&2, &marker),
        Err(Error::TrainerPartyInvalid(0))
    );
}

#[test]
fn trainer_parties_read_back_after_the_patch() {
    let mut db = db();
    let parties = vec![
        Party {
            level_type: PartyLevelType::DIFFERENT,
            pokemon: vec![PartyPokemon::new(5, 2)],
        },
        Party {
            level_type: PartyLevelType::SAME,
            pokemon: vec![PartyPokemon::new(42, 151), PartyPokemon::new(42, 3)],
        },
    ];
    let patch = db.set_trainer_parties(&1, &parties).unwrap();
    db.apply_patch(&patch);
    assert_eq!(db.get_trainer_parties(&1).unwrap(), parties);
}

fn wild(levels_from: u8, species: &[u8]) -> Vec<MapPokemonInfo> {
    species
        .iter()
        .enumerate()
        .map(|(k, id)| MapPokemonInfo::new(levels_from + k as u8, *id))
        .collect()
}

#[test]
fn get_map_pokemon_reads_both_tables() {
    let db = db();
    assert_eq!(
        db.get_map_pokemon(&0).unwrap(),
        MapPokemon {
            grass: MapPokemonArea {
                encounter_rate: 0,
                pokemon: vec![]
            },
            water: MapPokemonArea {
                encounter_rate: 0,
                pokemon: vec![]
            },
        }
    );
    assert_eq!(
        db.get_map_pokemon(&1).unwrap(),
        MapPokemon {
            grass: MapPokemonArea {
                encounter_rate: 25,
                pokemon: wild(3, &[2, 1, 2, 1, 2, 1, 2, 1, 2, 1]),
            },
            water: MapPokemonArea {
                encounter_rate: 0,
                pokemon: vec![]
            },
        }
    );
    assert_eq!(
        db.get_map_pokemon(&2).unwrap_err(),
        Error::MapIDInvalid(2, 0, 1)
    );
}

#[test]
fn get_map_pokemon_refuses_a_species_that_is_none() {
    let mut data = rom();
    data[0x8000 + 0x5010 + 2] = 0;
    let db = PkmnapiDB::new(&data, None).unwrap();
    assert_eq!(db.get_map_pokemon(&1), Err(Error::RomMalformed));
    data[0x8000 + 0x5010 + 2] = 5;
    let db = PkmnapiDB::new(&data, None).unwrap();
    assert_eq!(db.get_map_pokemon(&1), Err(Error::RomMalformed));
}

#[test]
fn set_map_pokemon_writes_both_tables() {
    let db = db();
    let new = MapPokemon {
        grass: MapPokemonArea {
            encounter_rate: 0,
            pokemon: vec![],
        },
        water: MapPokemonArea {
            encounter_rate: 5,
            pokemon: wild(10, &[151, 151, 151, 151, 151, 3, 3, 3, 3, 1]),
        },
    };
    let mut data = vec![0u8, 5];
    for (k, species) in [3u8, 3, 3, 3, 3, 2, 2, 2, 2, 4].iter().enumerate() {
        data.push(10 + k as u8);
        data.push(*species);
    }
    assert_eq!(db.set_map_pokemon(&1, &new), Ok(patch(0x8000 + 0x5010, data)));
    assert_eq!(
        db.set_map_pokemon(&0, &new),
        Err(Error::MapPokemonWrongSize(2, 22))
    );
}

#[test]
fn set_map_pokemon_refuses_a_table_that_cannot_be_written() {
    let db = db();
    let short = MapPokemon {
        grass: MapPokemonArea {
            encounter_rate: 1,
            pokemon: wild(10, &[1, 2, 3]),
        },
        water: MapPokemonArea {
            encounter_rate: 0,
            pokemon: vec![],
        },
    };
    // Written, the tables would take 7 bytes and 1.
    assert_eq!(
        db.set_map_pokemon(&1, &short),
        Err(Error::MapPokemonWrongSize(22, 8))
    );
    let nine = MapPokemon {
        grass: MapPokemonArea {
            encounter_rate: 5,
            pokemon: wild(10, &[1, 2, 3, 1, 2, 3, 1, 2, 3]),
        },
        water: MapPokemonArea {
            encounter_rate: 0,
            pokemon: vec![],
        },
    };
    assert_eq!(
        db.set_map_pokemon(&1, &nine),
        Err(Error::MapPokemonWrongSize(22, 20))
    );
    // The sizes agree, and the water holds encounters without a rate.
    let stray = MapPokemon {
        grass: MapPokemonArea {
            encounter_rate: 5,
            pokemon: wild(10, &[1, 2, 3, 1, 2, 3, 1, 2, 3, 1]),
        },
        water: MapPokemonArea {
            encounter_rate: 0,
            pokemon: wild(10, &[1, 2]),
        },
    };
    assert_eq!(
        db.set_map_pokemon(&1, &stray),
        Err(Error::MapPokemonWrongSize(1, 5))
    );
    // The sizes agree, and neither table holds ten encounters.
    let mut data = rom();
    let mut water = vec![7u8];
    for k in 0..10u8 {
        water.push(30 + k);
        water.push(2);
    }
    put(&mut data, 0x8000 + 0x5010 + 21, &water);
    let both = PkmnapiDB::new(&data, None).unwrap();
    let uneven = MapPokemon {
        grass: MapPokemonArea {
            encounter_rate: 5,
            pokemon: wild(10, &[1, 2, 3, 1, 2]),
        },
        water: MapPokemonArea {
            encounter_rate: 6,
            pokemon: wild(10, &[1, 2, 3, 1, 2, 3, 1, 2, 3, 1, 2, 3, 1, 2, 3]),
        },
    };
    assert_eq!(
        both.set_map_pokemon(&1, &uneven),
        Err(Error::MapPokemonWrongSize(21, 11))
    );
    assert_eq!(
        both.set_map_pokemon(&1, &nine),
        Err(Error::MapPokemonWrongSize(42, 20))
    );
    let nobody = MapPokemon {
        grass: MapPokemonArea {
            encounter_rate: 1,
            pokemon: wild(10, &[1, 2, 3, 1, 2, 3, 1, 8, 3, 7]),
        },
        water: MapPokemonArea {
            encounter_rate: 0,
            pokemon: vec![],
        },
    };
    assert_eq!(
        db.set_map_pokemon(&1, &nobody),
        Err(Error::PokedexIDInvalid(8, 1, 151))
    );
}

#[test]
fn map_pokemon_read_back_after_the_patch() {
    let mut db = db();
    let new = MapPokemon {
        grass: MapPokemonArea {
            encounter_rate: 0,
            pokemon: vec![],
        },
        water: MapPokemonArea {
            encounter_rate: 5,
            pokemon: wild(10, &[151, 151, 151, 151, 151, 3, 3, 3, 3, 1]),
        },
    };
    let patch = db.set_map_pokemon(&1, &new).unwrap();
    db.apply_patch(&patch);
    assert_eq!(db.get_map_pokemon(&1).unwrap(), new);
}

#[test]
fn get_pokedex_entry_decodes_the_entry() {
    let db = db();
    assert_eq!(
        db.get_pokedex_entry(&1).unwrap(),
        PokedexEntry {
            species: ROMString::from("SEED").unwrap(),
            height: 28,
            weight: 150,
        }
    );
}

#[test]
fn pokedex_entry_from_bytes() {
    let rom = vec![
        0x83, 0x91, 0x88, 0x8B, 0x8B, 0x50, 0x06, 0x03, 0x5A, 0x0A, 0x00, 0x00, 0x00, 0x00, 0x00,
    ];
    assert_eq!(
        PokedexEntry::from(&rom),
        Some(PokedexEntry {
            species: ROMString::from("DRILL").unwrap(),
            height: 75,
            weight: 2650,
        })
    );
    assert_eq!(PokedexEntry::from(&vec![0x83, 0x91]), None);
    assert_eq!(
        PokedexEntry::from(&vec![0x83, 0x50, 0x02]),
        Some(PokedexEntry {
            species: ROMString::from("D").unwrap(),
            height: 24,
            weight: 0,
        })
    );
}

#[test]
fn pokedex_entry_to_raw() {
    let entry = PokedexEntry {
        species: ROMString::from("DRILL").unwrap(),
        height: 75,
        weight: 2650,
    };
    assert_eq!(
        entry.to_raw(),
        vec![0x83, 0x91, 0x88, 0x8B, 0x8B, 0x50, 0x06, 0x03, 0x5A, 0x0A]
    );
}

#[test]
fn set_pokedex_entry_writes_the_entry() {
    let db = db();
    let entry = PokedexEntry {
        species: ROMString::from("LEAF").unwrap(),
        height: 13,
        weight: 0x1234,
    };
    assert_eq!(
        db.set_pokedex_entry(&1, &entry),
        Ok(patch(
            0x3C000 + 0x4500,
            vec![0x8B, 0x84, 0x80, 0x85, 0x50, 1, 1, 0x34, 0x12]
        ))
    );
    let long = PokedexEntry {
        species: ROMString::from("FLOWER").unwrap(),
        height: 13,
        weight: 1,
    };
    assert_eq!(
        db.set_pokedex_entry(&1, &long),
        Err(Error::PokedexEntrySpeciesWrongSize(4, 6))
    );
}

#[test]
fn get_pokedex_text_follows_both_pointers() {
    let db = db();
    assert_eq!(
        db.get_pokedex_text(&1).unwrap(),
        PokedexEntryText {
            text: ROMString::from("A strange seed").unwrap()
        }
    );
}

#[test]
fn pokedex_text_from_and_to_bytes() {
    let rom = vec![0x00, 0x83, 0x91, 0x88, 0x8B, 0x8B, 0x5F];
    let text = PokedexEntryText::from(&rom);
    assert_eq!(
        text,
        PokedexEntryText {
            text: ROMString::from("DRILL").unwrap(),
        }
    );
    assert_eq!(text.to_raw(), rom);
    assert_eq!(PokedexEntryText::from(&vec![]).text.value, vec![]);
    assert_eq!(PokedexEntryText::from(&vec![0x5F, 1]).text.value, vec![]);
    assert_eq!(PokedexEntryText::from(&vec![0, 1, 2]).text.value, vec![1, 2]);
}

#[test]
fn set_pokedex_text_asks_for_a_shorter_text() {
    let db = db();
    let shorter = PokedexEntryText {
        text: ROMString::from("A seed").unwrap(),
    };
    let mut data = vec![0x00];
    data.extend(text("A seed"));
    data.push(0x5F);
    assert_eq!(
        db.set_pokedex_text(&1, &shorter),
        Ok(patch(0x2A * 0x4000 + 0x4000, data))
    );
    let same = PokedexEntryText {
        text: ROMString::from("A strange leaf").unwrap(),
    };
    assert_eq!(
        db.set_pokedex_text(&1, &same),
        Err(Error::PokedexTextWrongSize(14, 14))
    );
}

#[test]
fn get_pokedex_text_refuses_a_pointer_before_the_image() {
    let mut data = rom();
    // Bank zero and a pointer below 0x4000.
    put(&mut data, 0x3C000 + 0x4500 + 4 + 6, &[0x00, 0x10, 0x00]);
    let db = PkmnapiDB::new(&data, None).unwrap();
    assert_eq!(db.get_pokedex_text(&1), Err(Error::RomMalformed));
}

#[test]
fn get_pokemon_cry_reads_the_channels() {
    let cry = db().get_pokemon_cry(&1).unwrap();
    assert_eq!(cry.base, 2);
    assert_eq!(cry.pitch, 0x80);
    assert_eq!(cry.length, 1);
    assert_eq!(cry.pulse0.data, vec![0xFC, 0xF5, 0x2F, 0xF7]);
    assert_eq!(cry.pulse1.data, vec![]);
    assert_eq!(cry.noise.data, vec![0x22, 0x33, 0x44]);
    assert!(!cry.pulse0.noise);
    assert!(!cry.pulse1.noise);
    assert!(cry.noise.noise);
}

#[test]
fn set_pokemon_cry_writes_three_bytes() {
    let db = db();
    let cry = Cry {
        base: 0x13,
        pitch: 0x37,
        length: 0x42,
        ..db.get_pokemon_cry(&1).unwrap()
    };
    assert_eq!(
        db.set_pokemon_cry(&1, &cry),
        Ok(patch(0x39446 + 9, vec![0x13, 0x37, 0x42]))
    );
    assert_eq!(
        db.set_pokemon_cry(&9, &cry),
        Err(Error::PokedexIDInvalid(9, 1, 151))
    );
}

#[test]
fn get_player_names_reads_both_lists() {
    assert_eq!(
        db().get_player_names().unwrap(),
        PlayerNames {
            player: vec![
                ROMString::from("RED").unwrap(),
                ROMString::from("ASH").unwrap(),
                ROMString::from("JACK").unwrap(),
            ],
            rival: vec![
                ROMString::from("BLUE").unwrap(),
                ROMString::from("GARY").unwrap(),
                ROMString::from("JOHN").unwrap(),
            ],
        }
    );
}

#[test]
fn get_player_names() {
    let db = db();
    let player_names = PlayerNames {
        player: vec![
            ROMString::from("RED").unwrap(),
            ROMString::from("ASH").unwrap(),
            ROMString::from("JACK").unwrap(),
        ],
        rival: vec![
            ROMString::from("BLUE").unwrap(),
            ROMString::from("GARY").unwrap(),
            ROMString::from("JOHN").unwrap(),
        ],
    };
    let patch = db.set_player_names(&player_names).unwrap();
    assert_eq!(
        patch,
        Patch {
            offset: 0x6AA8,
            length: 120,
            data: vec![
                0x8D, 0x84, 0x96, 0x7F, 0x8D, 0x80, 0x8C, 0x84, 0x4E, 0x91, 0x84, 0x83, 0x4E, 0x80,
                0x92, 0x87, 0x4E, 0x89, 0x80, 0x82, 0x8A, 0x50, 0x8D, 0x84, 0x96, 0x7F, 0x8D, 0x80,
                0x8C, 0x84, 0x4E, 0x81, 0x8B, 0x94, 0x84, 0x4E, 0x86, 0x80, 0x91, 0x98, 0x4E, 0x89,
                0x8E, 0x87, 0x8D, 0x50, 0x47, 0x0E, 0x00, 0x54, 0x5D, 0x2A, 0xFE, 0x50, 0x20, 0xFB,
                0x78, 0xB9, 0x28, 0x03, 0x0C, 0x18, 0xF2, 0x62, 0x6B, 0x11, 0x6D, 0xCD, 0x01, 0x14,
                0x00, 0xC3, 0xB5, 0x00, 0x8D, 0x84, 0x96, 0x7F, 0x8D, 0x80, 0x8C, 0x84, 0x50, 0x91,
                0x84, 0x83, 0x50, 0x80, 0x92, 0x87, 0x50, 0x89, 0x80, 0x82, 0x8A, 0x50, 0x8D, 0x84,
                0x96, 0x7F, 0x8D, 0x80, 0x8C, 0x84, 0x50, 0x81, 0x8B, 0x94, 0x84, 0x50, 0x86, 0x80,
                0x91, 0x98, 0x50, 0x89, 0x8E, 0x87, 0x8D, 0x50,
            ],
        }
    );
}

#[test]
fn set_player_names_refuses_another_size() {
    let db = db();
    let player_names = PlayerNames {
        player: vec![ROMString::from("RED").unwrap()],
        rival: vec![ROMString::from("BLUE").unwrap()],
    };
    assert_eq!(
        db.set_player_names(&player_names),
        Err(Error::PlayerNamesWrongSize(46, 27))
    );
}

#[test]
fn player_names_read_back_after_the_patch() {
    let mut db = db();
    let player_names = PlayerNames {
        player: vec![
            ROMString::from("ANNA").unwrap(),
            ROMString::from("BO").unwrap(),
            ROMString::from("CLEO").unwrap(),
        ],
        rival: vec![
            ROMString::from("DAN").unwrap(),
            ROMString::from("ELI").unwrap(),
            ROMString::from("FINNEY").unwrap(),
        ],
    };
    let patch = db.set_player_names(&player_names).unwrap();
    db.apply_patch(&patch);
    assert_eq!(db.get_player_names().unwrap(), player_names);
}

#[test]
fn machines_decode_again_to_the_same_after_encoding() {
    for field in [
        [0u8; 7],
        [0xFF; 7],
        [0x01, 0x02, 0x04, 0x08, 0x10, 0x20, 0x40],
        [0xA4, 0x03, 0x38, 0xC0, 0x03, 0x08, 0x06],
        [0x00, 0x00, 0x00, 0x00, 0x00, 0x00, 0xFC],
    ] {
        let mut data = rom();
        put(&mut data, 0x383DE + 0x14, &field);
        let mut db = PkmnapiDB::new(&data, None).unwrap();
        let decoded = db.get_pokemon_machines(&1).unwrap();
        let patch = db.set_pokemon_machines(&1, &decoded).unwrap();
        db.apply_patch(&patch);
        assert_eq!(db.get_pokemon_machines(&1).unwrap(), decoded);
    }
}
