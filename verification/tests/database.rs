use pkmnapi::db::PkmnapiDB;
use pkmnapi::error::Error;
use pkmnapi::patch::Patch;
use pkmnapi::stats::Stats;
use pkmnapi::string::ROMString;
use pkmnapi::tables::{MoveStats, TMPrice, TypeEffect, HM, TM};
use pkmnapi::types::{ItemName, MoveName, PokemonName, TrainerName, TypeName};

const ROM_SIZE: usize = 0x100000;

fn put(rom: &mut Vec<u8>, at: usize, bytes: &[u8]) {
    rom[at..at + bytes.len()].copy_from_slice(bytes);
}

fn text(s: &str) -> Vec<u8> {
    ROMString::from(s).unwrap().value
}

fn names(list: &[&str]) -> Vec<u8> {
    let mut out = vec![];
    for name in list {
        out.extend(text(name));
        out.push(0x50);
    }
    out
}

/// An image with a few entries in each table, laid out as the format asks.
fn rom() -> Vec<u8> {
    let mut rom = vec![0u8; ROM_SIZE];
    // Three species: the places 0, 1 and 2 hold the numbers 2, 1 and 151.
    rom[0x71E5F] = 4;
    put(&mut rom, 0x41024, &[2, 1, 151]);
    put(&mut rom, 0x1C21E, &[0x50; 30]);
    put(&mut rom, 0x1C21E, &text("IVYSAUR"));
    put(&mut rom, 0x1C21E + 10, &text("BULBASAUR"));
    put(&mut rom, 0x1C21E + 20, &text("MEW"));
    // The entries of the species 1 and 2, and of the last one.
    put(&mut rom, 0x383DE, &[1, 45, 49, 49, 45, 65, 22, 3, 45, 64]);
    put(&mut rom, 0x383DE + 0x14, &[0xA4, 0x03, 0x38, 0xC0, 0x03, 0x08, 0x06]);
    put(&mut rom, 0x383DE + 0x1C, &[2, 60, 62, 63, 60, 80, 22, 3, 45, 141]);
    put(&mut rom, 0x425B, &[151, 100, 100, 100, 100, 100, 24, 24, 45, 64]);
    put(&mut rom, 0x425B + 0x14, &[0xFF, 0xFF, 0xFF, 0xFF, 0xFF, 0xFF, 0xFF]);
    // Two types.
    put(&mut rom, 0x27DAE, &[0x00, 0x7E, 0x07, 0x7E, 0x8D]);
    put(&mut rom, 0x27E00, &names(&["NORMAL", "FIRE"]));
    // Two type matchups.
    put(&mut rom, 0x3E474, &[0x15, 0x14, 20, 0x14, 0x15, 5, 0xFF]);
    // Five HMs and the first TMs.
    put(&mut rom, 0x3052, &[0x0F, 0x13, 0x39, 0x46, 0x94, 0xFF]);
    put(&mut rom, 0x13773, &[0x05, 0x0D, 0x0E, 0x12]);
    put(&mut rom, 0x7BFA7, &[0x32, 0x21]);
    // Three moves.
    put(
        &mut rom,
        0x38000,
        &[
            0x01, 0x00, 0x28, 0x00, 0xFF, 0x23, 0x02, 0x00, 0x32, 0x00, 0xFF, 0x19, 0x03, 0x1D,
            0x0F, 0x00, 0xD8, 0x0A, 0x01, 0x2D,
        ],
    );
    put(
        &mut rom,
        0xB0000,
        &names(&["POUND", "KARATE CHOP", "DOUBLESLAP"]),
    );
    // Three trainer classes and two items.
    let mut trainers = names(&["YOUNGSTER", "BUG CATCHER", "LASS"]);
    trainers.push(0x21);
    put(&mut rom, 0x399FF, &trainers);
    let mut items = names(&["MASTER BALL", "ULTRA BALL"]);
    items.push(0xD0);
    put(&mut rom, 0x472B, &items);
    // Two maps.
    put(&mut rom, 0xCEEB, &[0x00, 0x50, 0x10, 0x50, 0xFF, 0xFF]);
    put(&mut rom, 0x8000 + 0x5000, &[0x00, 0x00]);
    let mut grass = vec![25u8];
    for k in 0..10u8 {
        grass.push(3 + k);
        grass.push(if k % 2 == 0 { 1 } else { 2 });
    }
    grass.push(0);
    put(&mut rom, 0x8000 + 0x5010, &grass);
    // The title screen.
    put(
        &mut rom,
        0x4588,
        &[
            0xB0, 0xB1, 0x99, 0x70, 0x03, 0x1A, 0x54, 0x04, 0x01, 0x94, 0x19, 0x4C, 0x96, 0x22,
            0xA3, 0x85,
        ],
    );
    rom
}

fn db() -> PkmnapiDB {
    PkmnapiDB::new(&rom(), None).unwrap()
}

fn patch(offset: usize, data: Vec<u8>) -> Patch {
    Patch {
        offset,
        length: data.len(),
        data,
    }
}

#[test]
fn new_keeps_the_image() {
    let rom = rom();
    let db = PkmnapiDB::new(&rom, None).unwrap();
    assert_eq!(db.rom(), &rom);
    assert!(db.sav().is_none());
}

#[test]
fn new_refuses_an_image_without_header() {
    assert_eq!(
        PkmnapiDB::new(&vec![0u8; 0x14F], None).unwrap_err(),
        Error::HeaderTooSmall
    );
}

#[test]
fn new_refuses_a_short_image() {
    assert_eq!(
        PkmnapiDB::new(&vec![0u8; 0x150], None).unwrap_err(),
        Error::RomWrongSize(ROM_SIZE, 0x150)
    );
    assert_eq!(
        PkmnapiDB::new(&vec![0u8; ROM_SIZE - 1], None).unwrap_err(),
        Error::RomWrongSize(ROM_SIZE, ROM_SIZE - 1)
    );
}

#[test]
fn new_refuses_a_save_file_of_the_wrong_size() {
    assert_eq!(
        PkmnapiDB::new(&rom(), Some(vec![0u8; 10])).unwrap_err(),
        Error::SavWrongSize(0x8000, 10)
    );
    assert!(PkmnapiDB::new(&rom(), Some(vec![0u8; 0x8000]))
        .unwrap()
        .sav()
        .is_some());
}

#[test]
fn hash_is_the_md5_of_the_image_in_hex() {
    let mut data = vec![0u8; ROM_SIZE];
    let db = PkmnapiDB::new(&data, None).unwrap();
    // The MD5 digest of 1 MiB of zeros.
    assert_eq!(db.hash(), "b6d81b360a5672d80c27430f39153e2c");
    assert!(db.verify_hash("b6d81b360a5672d80c27430f39153e2c"));
    assert!(!db.verify_hash("B6D81B360A5672D80C27430F39153E2C"));
    data[0] = 1;
    let other = PkmnapiDB::new(&data, None).unwrap();
    assert!(!other.verify_hash("b6d81b360a5672d80c27430f39153e2c"));
}

#[test]
fn checksum_covers_all_but_its_own_field() {
    let mut data = vec![0u8; ROM_SIZE];
    data[0] = 0xFF;
    data[0x200] = 0x02;
    data[ROM_SIZE - 1] = 0x10;
    // The field itself does not count.
    data[0x14E] = 0x01;
    data[0x14F] = 0x11;
    let db = PkmnapiDB::new(&data, None).unwrap();
    assert_eq!(db.header().global_checksum, 0x0111);
    assert!(db.verify_checksum());
    assert_eq!(db.generate_checksum(), patch(0x14E, vec![0x01, 0x11]));
    data[0x300] = 1;
    let changed = PkmnapiDB::new(&data, None).unwrap();
    assert!(!changed.verify_checksum());
    assert_eq!(changed.generate_checksum(), patch(0x14E, vec![0x01, 0x12]));
}

#[test]
fn checksum_wraps_at_sixteen_bits() {
    let data = vec![0xFFu8; ROM_SIZE];
    let db = PkmnapiDB::new(&data, None).unwrap();
    // (0x100000 - 2) * 0xFF modulo 0x10000.
    let sum = ((ROM_SIZE - 2) * 0xFF) % 0x10000;
    assert_eq!(
        db.generate_checksum(),
        patch(0x14E, vec![(sum >> 8) as u8, (sum & 0xFF) as u8])
    );
}

#[test]
fn generated_checksum_verifies_after_it_is_applied() {
    let mut data = rom();
    data[0x14E] = 0xAB;
    data[0x14F] = 0xCD;
    let mut db = PkmnapiDB::new(&data, None).unwrap();
    assert!(!db.verify_checksum());
    let fix = db.generate_checksum();
    db.apply_patch(&fix);
    let fixed = PkmnapiDB::new(db.rom(), None).unwrap();
    assert!(fixed.verify_checksum());
}

#[test]
fn apply_patch_replaces_the_bytes() {
    let mut data = vec![0u8; ROM_SIZE];
    data[0] = 0xFF;
    let mut db = PkmnapiDB::new(&data, None).unwrap();
    assert_eq!(db.rom()[..4], [0xFF, 0x00, 0x00, 0x00]);
    db.apply_patch(&Patch::new(&0x00, &vec![0x13, 0x37]));
    assert_eq!(db.rom()[..4], [0x13, 0x37, 0x00, 0x00]);
    assert_eq!(db.rom().len(), ROM_SIZE);
    db.apply_patch(&Patch::new(&(ROM_SIZE - 1), &vec![0x42]));
    assert_eq!(db.rom()[ROM_SIZE - 1], 0x42);
}

#[test]
fn pokemon_internal_max_counts_the_species() {
    assert_eq!(db().pokemon_internal_max(), 3);
}

#[test]
fn pokedex_id_to_internal_id_finds_the_place() {
    let db = db();
    assert_eq!(db.pokedex_id_to_internal_id(&1), Ok(1));
    assert_eq!(db.pokedex_id_to_internal_id(&2), Ok(0));
    assert_eq!(db.pokedex_id_to_internal_id(&151), Ok(2));
    assert_eq!(
        db.pokedex_id_to_internal_id(&0),
        Err(Error::PokedexIDInvalid(0, 1, 151))
    );
    assert_eq!(
        db.pokedex_id_to_internal_id(&3),
        Err(Error::PokedexIDInvalid(3, 1, 151))
    );
}

#[test]
fn internal_id_to_pokedex_id_reads_the_table() {
    let db = db();
    assert_eq!(db.internal_id_to_pokedex_id(&0), Ok(2));
    assert_eq!(db.internal_id_to_pokedex_id(&2), Ok(151));
    assert_eq!(
        db.internal_id_to_pokedex_id(&3),
        Err(Error::InternalIDInvalid(3))
    );
}

#[test]
fn an_image_without_species_is_malformed() {
    let mut data = rom();
    data[0x71E5F] = 0;
    let db = PkmnapiDB::new(&data, None).unwrap();
    assert_eq!(db.pokedex_id_to_internal_id(&1), Err(Error::RomMalformed));
    assert_eq!(db.internal_id_to_pokedex_id(&0), Err(Error::RomMalformed));
    assert_eq!(db.get_pokemon_name(&1).unwrap_err(), Error::RomMalformed);
}

#[test]
fn pokemon_name_to_pokedex_id_finds_the_species() {
    let db = db();
    let name = PokemonName {
        name: ROMString::from("BULBASAUR").unwrap(),
    };
    assert_eq!(db.pokemon_name_to_pokedex_id(&name), Some(1));
    let mew = PokemonName {
        name: ROMString::from("MEW").unwrap(),
    };
    assert_eq!(db.pokemon_name_to_pokedex_id(&mew), Some(151));
    let nobody = PokemonName {
        name: ROMString::from("MISSINGNO").unwrap(),
    };
    assert_eq!(db.pokemon_name_to_pokedex_id(&nobody), None);
}

#[test]
fn validators_give_the_bounds_of_the_image() {
    let db = db();
    assert_eq!(db.type_id_validate(&0), Ok((0, 1)));
    assert_eq!(db.type_id_validate(&1), Ok((0, 1)));
    assert_eq!(db.type_id_validate(&2), Err(Error::TypeIDInvalid(2, 0, 1)));
    assert_eq!(db.type_effect_id_validate(&1), Ok((0, 1)));
    assert_eq!(
        db.type_effect_id_validate(&2),
        Err(Error::TypeEffectIDInvalid(2, 0, 1))
    );
    assert_eq!(db.trainer_id_validate(&1), Ok((1, 3)));
    assert_eq!(db.trainer_id_validate(&3), Ok((1, 3)));
    assert_eq!(
        db.trainer_id_validate(&0),
        Err(Error::TrainerIDInvalid(0, 1, 3))
    );
    assert_eq!(
        db.trainer_id_validate(&4),
        Err(Error::TrainerIDInvalid(4, 1, 3))
    );
    assert_eq!(db.hm_id_validate(&5), Ok((1, 5)));
    assert_eq!(db.hm_id_validate(&0), Err(Error::HMIDInvalid(0, 1, 5)));
    assert_eq!(db.hm_id_validate(&6), Err(Error::HMIDInvalid(6, 1, 5)));
    assert_eq!(db.tm_id_validate(&1), Ok((1, 50)));
    assert_eq!(db.tm_id_validate(&50), Ok((1, 50)));
    assert_eq!(db.tm_id_validate(&0), Err(Error::TMIDInvalid(0, 1, 50)));
    assert_eq!(db.tm_id_validate(&51), Err(Error::TMIDInvalid(51, 1, 50)));
    assert_eq!(db.item_id_validate(&2), Ok((1, 2)));
    assert_eq!(db.item_id_validate(&0), Err(Error::ItemIDInvalid(0, 1, 2)));
    assert_eq!(db.item_id_validate(&3), Err(Error::ItemIDInvalid(3, 1, 2)));
    assert_eq!(db.move_id_validate(&3), Ok((1, 3)));
    assert_eq!(db.move_id_validate(&0), Err(Error::MoveIDInvalid(0, 1, 3)));
    assert_eq!(db.move_id_validate(&4), Err(Error::MoveIDInvalid(4, 1, 3)));
    assert_eq!(db.map_id_validate(&0), Ok((0, 1)));
    assert_eq!(db.map_id_validate(&1), Ok((0, 1)));
    assert_eq!(db.map_id_validate(&2), Err(Error::MapIDInvalid(2, 0, 1)));
    assert_eq!(db.icon_id_validate(&0), Ok((0, 9)));
    assert_eq!(db.icon_id_validate(&9), Ok((0, 9)));
    assert_eq!(db.icon_id_validate(&10), Err(Error::IconIDInvalid(10, 0, 9)));
}

#[test]
fn pokedex_id_bounds_reach_the_greatest_number() {
    assert_eq!(db().pokedex_id_bounds(), Ok((1, 151)));
    let mut data = rom();
    data[0x71E5F] = 3;
    let two = PkmnapiDB::new(&data, None).unwrap();
    assert_eq!(two.pokedex_id_bounds(), Ok((1, 2)));
    assert_eq!(
        two.pokedex_id_to_internal_id(&151),
        Err(Error::PokedexIDInvalid(151, 1, 2))
    );
    assert_eq!(
        two.pokedex_id_to_internal_id(&3),
        Err(Error::PokedexIDInvalid(3, 1, 2))
    );
    data[0x71E5F] = 0;
    let none = PkmnapiDB::new(&data, None).unwrap();
    assert_eq!(none.pokedex_id_bounds(), Err(Error::RomMalformed));
}

#[test]
fn validators_give_the_same_bounds_again() {
    let db = db();
    assert_eq!(db.type_id_validate(&0), db.type_id_validate(&0));
    assert_eq!(db.trainer_id_validate(&2), db.trainer_id_validate(&1));
    assert_eq!(db.move_id_validate(&1), db.move_id_validate(&3));
    let (_, max) = db.hm_id_validate(&1).unwrap();
    assert!(db.get_hm(&(max as u8)).is_ok());
    assert_eq!(
        db.get_hm(&(max as u8 + 1)),
        Err(Error::HMIDInvalid(max as u8 + 1, 1, max))
    );
    let (_, max) = db.move_id_validate(&1).unwrap();
    assert!(db.get_move_name(&(max as u8)).is_ok());
    assert_eq!(
        db.get_move_name(&(max as u8 + 1)).unwrap_err(),
        Error::MoveIDInvalid(max as u8 + 1, 1, max)
    );
}

#[test]
fn validators_refuse_an_image_without_the_end_of_a_table() {
    let db = PkmnapiDB::new(&vec![0u8; ROM_SIZE], None).unwrap();
    assert_eq!(db.type_id_validate(&0), Err(Error::RomMalformed));
    assert_eq!(db.type_effect_id_validate(&0), Err(Error::RomMalformed));
    assert_eq!(db.trainer_id_validate(&1), Err(Error::RomMalformed));
    assert_eq!(db.hm_id_validate(&1), Err(Error::RomMalformed));
    assert_eq!(db.item_id_validate(&1), Err(Error::RomMalformed));
    assert_eq!(db.move_id_validate(&1), Err(Error::RomMalformed));
    assert_eq!(db.map_id_validate(&0), Err(Error::RomMalformed));
    // The end stands where the table begins: no entry is left.
    let mut data = vec![0u8; ROM_SIZE];
    data[0x27DAE] = 0x8D;
    data[0xCEEB] = 0xFF;
    data[0xCEEC] = 0xFF;
    let db = PkmnapiDB::new(&data, None).unwrap();
    assert_eq!(db.type_id_validate(&0), Err(Error::RomMalformed));
    assert_eq!(db.map_id_validate(&0), Err(Error::RomMalformed));
}

#[test]
fn get_type_name_follows_the_pointer() {
    let db = db();
    assert_eq!(
        db.get_type_name(&0).unwrap(),
        TypeName {
            name: ROMString::from("NORMAL").unwrap()
        }
    );
    assert_eq!(db.get_type_name(&0).unwrap().name.to_string(), "NORMAL");
    assert_eq!(db.get_type_name(&1).unwrap().name.to_string(), "FIRE");
    assert_eq!(
        db.get_type_name(&2).unwrap_err(),
        Error::TypeIDInvalid(2, 0, 1)
    );
}

#[test]
fn set_type_name_writes_at_the_pointer() {
    let db = db();
    let name = TypeName {
        name: ROMString::from("BORING").unwrap(),
    };
    assert_eq!(
        db.set_type_name(&0, &name),
        Ok(patch(0x27E00, vec![0x81, 0x8E, 0x91, 0x88, 0x8D, 0x86]))
    );
}

#[test]
fn set_type_name_pads_a_shorter_name() {
    let db = db();
    let name = TypeName {
        name: ROMString::from("ICE").unwrap(),
    };
    assert_eq!(
        db.set_type_name(&1, &name),
        Ok(patch(0x27E07, vec![0x88, 0x82, 0x84, 0x50]))
    );
}

#[test]
fn set_type_name_refuses_a_longer_name() {
    let db = db();
    let name = TypeName {
        name: ROMString::from("WATER").unwrap(),
    };
    assert_eq!(
        db.set_type_name(&1, &name),
        Err(Error::TypeNameWrongSize(4, 5))
    );
}

#[test]
fn get_pokemon_name_reads_the_field_of_the_species() {
    let db = db();
    assert_eq!(db.get_pokemon_name(&1).unwrap().name.to_string(), "BULBASAUR");
    assert_eq!(db.get_pokemon_name(&2).unwrap().name.to_string(), "IVYSAUR");
    assert_eq!(db.get_pokemon_name(&151).unwrap().name.to_string(), "MEW");
    assert_eq!(
        db.get_pokemon_name(&3).unwrap_err(),
        Error::PokedexIDInvalid(3, 1, 151)
    );
}

#[test]
fn set_pokemon_name_pads_to_the_field() {
    let db = db();
    let name = PokemonName {
        name: ROMString::from("ABC").unwrap(),
    };
    assert_eq!(
        db.set_pokemon_name(&1, &name),
        Ok(patch(
            0x1C228,
            vec![0x80, 0x81, 0x82, 0x50, 0x50, 0x50, 0x50, 0x50, 0x50, 0x50]
        ))
    );
    let long = PokemonName {
        name: ROMString::from("ABCDEFGHIJK").unwrap(),
    };
    assert_eq!(
        db.set_pokemon_name(&1, &long),
        Err(Error::PokemonNameWrongSize(10, 11))
    );
}

#[test]
fn pokemon_name_reads_back_after_the_patch() {
    let mut db = db();
    for text in ["A", "ABC", "NIDORAN♂", "MR.MIME", "ABCDEFGHIJ"] {
        let name = PokemonName {
            name: ROMString::from(text).unwrap(),
        };
        let patch = db.set_pokemon_name(&2, &name).unwrap();
        db.apply_patch(&patch);
        assert_eq!(db.get_pokemon_name(&2).unwrap(), name);
        assert_eq!(db.get_pokemon_name(&1).unwrap().name.to_string(), "BULBASAUR");
    }
}

#[test]
fn type_name_reads_back_after_the_patch() {
    let mut db = db();
    let name = TypeName {
        name: ROMString::from("BUG").unwrap(),
    };
    let patch = db.set_type_name(&0, &name).unwrap();
    db.apply_patch(&patch);
    assert_eq!(db.get_type_name(&0).unwrap(), name);
    assert_eq!(db.get_type_name(&1).unwrap().name.to_string(), "FIRE");
}

#[test]
fn get_pokemon_stats_decodes_the_record() {
    let db = db();
    assert_eq!(
        db.get_pokemon_stats(&1).unwrap(),
        Stats {
            pokedex_id: 1,
            base_hp: 45,
            base_attack: 49,
            base_defence: 49,
            base_speed: 45,
            base_special: 65,
            type_ids: vec![22, 3],
            catch_rate: 45,
            base_exp_yield: 64
        }
    );
    assert_eq!(db.get_pokemon_stats(&2).unwrap().base_exp_yield, 141);
    assert_eq!(db.get_pokemon_stats(&151).unwrap().base_hp, 100);
    assert_eq!(
        db.get_pokemon_stats(&4).unwrap_err(),
        Error::PokedexIDInvalid(4, 1, 151)
    );
}

#[test]
fn set_pokemon_stats_writes_ten_bytes() {
    let db = db();
    let stats = Stats {
        pokedex_id: 0x01,
        base_hp: 0x42,
        base_attack: 0x13,
        base_defence: 0x37,
        base_speed: 0x13,
        base_special: 0x37,
        type_ids: vec![0x13, 0x37],
        catch_rate: 0x13,
        base_exp_yield: 0x37,
    };
    assert_eq!(
        db.set_pokemon_stats(&1, &stats),
        Ok(patch(
            0x383DE,
            vec![0x01, 0x42, 0x13, 0x37, 0x13, 0x37, 0x13, 0x37, 0x13, 0x37]
        ))
    );
    assert_eq!(db.set_pokemon_stats(&151, &stats).unwrap().offset, 0x425B);
    let odd = Stats {
        type_ids: vec![0x13],
        ..stats
    };
    assert_eq!(
        db.set_pokemon_stats(&1, &odd),
        Err(Error::StatsWrongSize(10, 9))
    );
}

#[test]
fn get_hm_reads_the_move() {
    let db = db();
    assert_eq!(db.get_hm(&1), Ok(HM { move_id: 0x0F }));
    assert_eq!(db.get_hm(&5), Ok(HM { move_id: 0x94 }));
    assert_eq!(db.get_hm(&6), Err(Error::HMIDInvalid(6, 1, 5)));
}

#[test]
fn set_hm_1() {
    assert_eq!(db().set_hm(&1, &HM::from(42)), Ok(patch(0x3052, vec![42])));
}

#[test]
fn set_hm_2() {
    assert_eq!(db().set_hm(&2, &HM::from(42)), Ok(patch(0x3053, vec![42])));
}

#[test]
fn set_hm_3() {
    assert_eq!(db().set_hm(&3, &HM::from(42)), Ok(patch(0x3054, vec![42])));
}

#[test]
fn set_hm_4() {
    assert_eq!(db().set_hm(&4, &HM::from(42)), Ok(patch(0x3055, vec![42])));
}

#[test]
fn set_hm_5() {
    assert_eq!(db().set_hm(&5, &HM::from(42)), Ok(patch(0x3056, vec![42])));
}

#[test]
fn get_and_set_tm() {
    let db = db();
    assert_eq!(db.get_tm(&1), Ok(TM { move_id: 0x05 }));
    assert_eq!(db.get_tm(&4), Ok(TM { move_id: 0x12 }));
    assert_eq!(db.get_tm(&51), Err(Error::TMIDInvalid(51, 1, 50)));
    assert_eq!(db.set_tm(&1, &TM::from(0x42)), Ok(patch(0x13773, vec![0x42])));
    assert_eq!(db.set_tm(&50, &TM::from(7)), Ok(patch(0x13773 + 49, vec![7])));
    assert_eq!(db.set_tm(&0, &TM::from(7)), Err(Error::TMIDInvalid(0, 1, 50)));
}

#[test]
fn tm_price_takes_a_nibble() {
    let db = db();
    assert_eq!(db.get_tm_price(&1), Ok(TMPrice { value: 3000 }));
    assert_eq!(db.get_tm_price(&2), Ok(TMPrice { value: 2000 }));
    assert_eq!(db.get_tm_price(&3), Ok(TMPrice { value: 2000 }));
    assert_eq!(db.get_tm_price(&4), Ok(TMPrice { value: 1000 }));
    assert_eq!(
        db.set_tm_price(&1, &TMPrice { value: 9000 }),
        Ok(patch(0x7BFA7, vec![0x92]))
    );
    assert_eq!(
        db.set_tm_price(&2, &TMPrice { value: 9999 }),
        Ok(patch(0x7BFA7, vec![0x39]))
    );
    assert_eq!(
        db.set_tm_price(&4, &TMPrice { value: 0 }),
        Ok(patch(0x7BFA8, vec![0x20]))
    );
    assert_eq!(
        db.set_tm_price(&51, &TMPrice { value: 0 }),
        Err(Error::TMIDInvalid(51, 1, 50))
    );
}

#[test]
fn get_and_set_type_effect() {
    let db = db();
    assert_eq!(
        db.get_type_effect(&0),
        Ok(TypeEffect {
            attacking_type_id: 0x15,
            defending_type_id: 0x14,
            multiplier: 20
        })
    );
    assert_eq!(db.get_type_effect(&1).unwrap().multiplier, 5);
    assert_eq!(
        db.get_type_effect(&2),
        Err(Error::TypeEffectIDInvalid(2, 0, 1))
    );
    let effect = TypeEffect {
        attacking_type_id: 0x13,
        defending_type_id: 0x37,
        multiplier: 5,
    };
    assert_eq!(
        db.set_type_effect(&1, &effect),
        Ok(patch(0x3E477, vec![0x13, 0x37, 0x05]))
    );
    let strongest = TypeEffect {
        multiplier: 255,
        ..effect
    };
    assert_eq!(
        db.set_type_effect(&0, &strongest),
        Ok(patch(0x3E474, vec![0x13, 0x37, 254]))
    );
}

#[test]
fn get_and_set_move_stats() {
    let db = db();
    assert_eq!(
        db.get_move_stats(&1),
        Ok(MoveStats {
            move_id: 1,
            effect: 0,
            power: 0x28,
            type_id: 0,
            accuracy: 0xFF,
            pp: 0x23
        })
    );
    assert_eq!(db.get_move_stats(&3).unwrap().accuracy, 0xD8);
    assert_eq!(db.get_move_stats(&4), Err(Error::MoveIDInvalid(4, 1, 3)));
    let stats = MoveStats {
        move_id: 0x01,
        effect: 0x20,
        power: 0x42,
        type_id: 0x01,
        accuracy: 0x25,
        pp: 0x2A,
    };
    assert_eq!(
        db.set_move_stats(&2, &stats),
        Ok(patch(0x38006, vec![0x01, 0x20, 0x42, 0x01, 0x25, 0x2A]))
    );
}

#[test]
fn get_move_name_counts_terminators() {
    let db = db();
    assert_eq!(db.get_move_name(&1).unwrap().name.to_string(), "POUND");
    assert_eq!(db.get_move_name(&2).unwrap().name.to_string(), "KARATE CHOP");
    assert_eq!(db.get_move_name(&3).unwrap().name.to_string(), "DOUBLESLAP");
    assert_eq!(
        db.get_move_name(&0).unwrap_err(),
        Error::MoveIDInvalid(0, 1, 3)
    );
}

#[test]
fn set_move_name_1() {
    let name = MoveName {
        name: ROMString::from("ABCDE").unwrap(),
    };
    assert_eq!(
        db().set_move_name(&1, &name),
        Ok(patch(0xB0000, vec![0x80, 0x81, 0x82, 0x83, 0x84]))
    );
}

#[test]
fn set_move_name_2() {
    let name = MoveName {
        name: ROMString::from("ABCDEFGHIJK").unwrap(),
    };
    assert_eq!(
        db().set_move_name(&2, &name),
        Ok(patch(
            0xB0006,
            vec![0x80, 0x81, 0x82, 0x83, 0x84, 0x85, 0x86, 0x87, 0x88, 0x89, 0x8A]
        ))
    );
}

#[test]
fn set_move_name_3() {
    let name = MoveName {
        name: ROMString::from("ABCDEFGHIJ").unwrap(),
    };
    assert_eq!(
        db().set_move_name(&3, &name),
        Ok(patch(
            0xB0012,
            vec![0x80, 0x81, 0x82, 0x83, 0x84, 0x85, 0x86, 0x87, 0x88, 0x89]
        ))
    );
}

#[test]
fn set_move_name_refuses_another_length() {
    let name = MoveName {
        name: ROMString::from("ABCD").unwrap(),
    };
    assert_eq!(
        db().set_move_name(&1, &name),
        Err(Error::MoveNameWrongSize(5, 4))
    );
}

#[test]
fn move_name_without_its_terminators_is_invalid() {
    // The table of moves says three; the list of names ends after two.
    let mut data = rom();
    for b in data[0xB0000..].iter_mut() {
        *b = 0;
    }
    put(&mut data, 0xB0000, &names(&["POUND", "KARATE CHOP"]));
    let db = PkmnapiDB::new(&data, None).unwrap();
    assert_eq!(db.get_move_name(&2).unwrap().name.to_string(), "KARATE CHOP");
    // The third name begins after the second terminator, and runs on.
    assert!(db.get_move_name(&3).is_ok());
    let mut data = rom();
    for b in data[0xB0000..].iter_mut() {
        *b = 0;
    }
    put(&mut data, 0xB0000, &names(&["POUND"]));
    let db = PkmnapiDB::new(&data, None).unwrap();
    assert_eq!(
        db.get_move_name(&3).unwrap_err(),
        Error::MoveIDInvalid(3, 1, 3)
    );
}

#[test]
fn get_and_set_trainer_name() {
    let db = db();
    assert_eq!(db.get_trainer_name(&1).unwrap().name.to_string(), "YOUNGSTER");
    assert_eq!(
        db.get_trainer_name(&2).unwrap().name.to_string(),
        "BUG CATCHER"
    );
    assert_eq!(db.get_trainer_name(&3).unwrap().name.to_string(), "LASS");
    assert_eq!(
        db.get_trainer_name(&4).unwrap_err(),
        Error::TrainerIDInvalid(4, 1, 3)
    );
    let name = TrainerName {
        name: ROMString::from("OLD-TIMER").unwrap(),
    };
    assert_eq!(
        db.set_trainer_name(&1, &name),
        Ok(patch(
            0x399FF,
            vec![0x8E, 0x8B, 0x83, 0xE3, 0x93, 0x88, 0x8C, 0x84, 0x91]
        ))
    );
    assert_eq!(
        db.set_trainer_name(&3, &name),
        Err(Error::TrainerNameWrongSize(4, 9))
    );
    let girl = TrainerName {
        name: ROMString::from("GIRL").unwrap(),
    };
    assert_eq!(
        db.set_trainer_name(&3, &girl),
        Ok(patch(0x399FF + 10 + 12, vec![0x86, 0x88, 0x91, 0x8B]))
    );
}

#[test]
fn get_and_set_item_name() {
    let db = db();
    assert_eq!(db.get_item_name(&1).unwrap().name.to_string(), "MASTER BALL");
    assert_eq!(db.get_item_name(&2).unwrap().name.to_string(), "ULTRA BALL");
    assert_eq!(
        db.get_item_name(&3).unwrap_err(),
        Error::ItemIDInvalid(3, 1, 2)
    );
    let name = ItemName {
        name: ROMString::from("CHEAP BALL").unwrap(),
    };
    assert_eq!(
        db.set_item_name(&2, &name),
        Ok(patch(
            0x472B + 12,
            vec![0x82, 0x87, 0x84, 0x80, 0x8F, 0x7F, 0x81, 0x80, 0x8B, 0x8B]
        ))
    );
    assert_eq!(
        db.set_item_name(&1, &name),
        Err(Error::ItemNameWrongSize(11, 10))
    );
}

#[test]
fn get_and_set_pokemon_title() {
    let db = db();
    assert_eq!(
        db.get_pokemon_title().unwrap(),
        vec![
            0xB0, 0xB1, 0x99, 0x70, 0x03, 0x1A, 0x54, 0x04, 0x01, 0x94, 0x19, 0x4C, 0x96, 0x22,
            0xA3, 0x85,
        ]
    );
    assert_eq!(
        db.set_pokemon_title(&vec![0x85; 16]),
        Ok(patch(0x4588, vec![0x85; 16]))
    );
    assert_eq!(
        db.set_pokemon_title(&vec![0x85; 15]),
        Err(Error::PokemonTitleWrongSize(16, 15))
    );
}

#[test]
fn listed_names_read_back_after_the_patch() {
    let mut db = db();
    let name = MoveName {
        name: ROMString::from("SLAM-DANCE!").unwrap(),
    };
    let patch = db.set_move_name(&2, &name).unwrap();
    db.apply_patch(&patch);
    assert_eq!(db.get_move_name(&2).unwrap(), name);
    assert_eq!(db.get_move_name(&1).unwrap().name.to_string(), "POUND");
    assert_eq!(db.get_move_name(&3).unwrap().name.to_string(), "DOUBLESLAP");
    let name = TrainerName {
        name: ROMString::from("GIRL").unwrap(),
    };
    let patch = db.set_trainer_name(&3, &name).unwrap();
    db.apply_patch(&patch);
    assert_eq!(db.get_trainer_name(&3).unwrap(), name);
    assert_eq!(db.trainer_id_validate(&3), Ok((1, 3)));
    let name = ItemName {
        name: ROMString::from("GREAT BALL?").unwrap(),
    };
    let patch = db.set_item_name(&1, &name).unwrap();
    db.apply_patch(&patch);
    assert_eq!(db.get_item_name(&1).unwrap(), name);
    assert_eq!(db.get_item_name(&2).unwrap().name.to_string(), "ULTRA BALL");
}

#[test]
fn a_name_at_the_end_of_the_image_is_read_as_far_as_the_image_goes() {
    let mut data = rom();
    for b in data[0xB0000..].iter_mut() {
        *b = 0x80;
    }
    data[ROM_SIZE - 5] = 0x50;
    put(&mut data, ROM_SIZE - 4, &text("WXYZ"));
    let db = PkmnapiDB::new(&data, None).unwrap();
    assert_eq!(
        db.get_move_name(&1).unwrap().name.to_string(),
        "AAAAAAAAAAAAA"
    );
    assert_eq!(db.get_move_name(&2).unwrap().name.to_string(), "WXYZ");
    assert_eq!(
        db.get_move_name(&3).unwrap_err(),
        Error::MoveIDInvalid(3, 1, 3)
    );
}
