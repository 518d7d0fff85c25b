use pkmnapi::encounters::MapPokemonInfo;
use pkmnapi::error::Error;
use pkmnapi::requests::{
    MapPokemonRequest, MapPokemonRequestAttributes, MapPokemonRequestAttributesArea,
    MapPokemonRequestAttributesPokemon, MapPokemonRequestAttributesPokemonInfo,
    MapPokemonRequestData, MapPokemonRequestType, PokemonLearnset, PokemonLearnsetRequest,
    PokemonLearnsetRequestAttributes, PokemonLearnsetRequestAttributesLearnset,
    PokemonLearnsetRequestAttributesLearnsetMove, PokemonLearnsetRequestData,
    PokemonLearnsetRequestType,
};

#[test]
fn error_to_string_of_an_identifier() {
    assert_eq!(
        Error::HMIDInvalid(6, 1, 5).to_string(),
        "Invalid HM ID 6: valid range is 1-5"
    );
    assert_eq!(
        Error::TMIDInvalid(0, 1, 50).to_string(),
        "Invalid TM ID 0: valid range is 1-50"
    );
    assert_eq!(
        Error::TypeEffectIDInvalid(255, 0, 81).to_string(),
        "Invalid type effect ID 255: valid range is 0-81"
    );
    assert_eq!(
        Error::TypeIDInvalid(100, 0, 26).to_string(),
        "Invalid type ID 100: valid range is 0-26"
    );
    assert_eq!(
        Error::MoveIDInvalid(200, 1, 165).to_string(),
        "Invalid move ID 200: valid range is 1-165"
    );
    assert_eq!(
        Error::InternalIDInvalid(190).to_string(),
        "Invalid internal ID: 190"
    );
    assert_eq!(
        Error::PokedexIDInvalid(200, 1, 151).to_string(),
        "Invalid Pokédex ID 200: valid range is 1-151"
    );
}

#[test]
fn error_to_string_of_a_size() {
    assert_eq!(
        Error::ItemNameWrongSize(11, 10).to_string(),
        "Item name length mismatch: should be exactly 11 characters, found 10"
    );
    assert_eq!(
        Error::MoveNameWrongSize(5, 4).to_string(),
        "Move name length mismatch: should be exactly 5 characters, found 4"
    );
    assert_eq!(
        Error::TrainerNameWrongSize(9, 1234567).to_string(),
        "Trainer name length mismatch: should be exactly 9 characters, found 1234567"
    );
    assert_eq!(
        Error::TypeNameWrongSize(4, 5).to_string(),
        "Type name length mismatch: should be 4 characters or fewer, found 5"
    );
    assert_eq!(
        Error::SavWrongSize(32768, 0).to_string(),
        "Sav length mismatch: should be 32768 bytes, found 0"
    );
    assert_eq!(
        Error::SavPlayerNameWrongSize(10, 11).to_string(),
        "Player name length mismatch: should be 10 characters or fewer, found 11"
    );
    assert_eq!(
        Error::PokedexEntrySpeciesWrongSize(4, 6).to_string(),
        "Pokédex entry species length mismatch: should be exactly 4 characters, found 6"
    );
    assert_eq!(
        Error::RomWrongSize(1048576, 336).to_string(),
        "ROM length mismatch: should be at least 1048576 bytes, found 336"
    );
}

#[test]
fn error_to_string_of_the_others() {
    assert_eq!(Error::HeaderTooSmall.to_string(), "Header too small");
    assert_eq!(Error::PicCouldNotRead.to_string(), "Could not read image");
    assert_eq!(
        Error::PicTooLarge.to_string(),
        "Compressed image is too large"
    );
    assert_eq!(Error::RomMalformed.to_string(), "ROM data is malformed");
    assert_eq!(
        Error::UnsupportedCharacter('@').to_string(),
        "Unsupported character: @"
    );
    assert_eq!(
        Error::TrainerPartyInvalid(0).to_string(),
        "Invalid trainer party: 0"
    );
}

fn encounter(level: u8, id: u8) -> MapPokemonRequestAttributesPokemon {
    MapPokemonRequestAttributesPokemon {
        level,
        pokemon: MapPokemonRequestAttributesPokemonInfo { id },
    }
}

#[test]
fn map_pokemon_request_gives_both_tables() {
    let request = MapPokemonRequest {
        data: MapPokemonRequestData {
            _type: MapPokemonRequestType::map_pokemon,
            attributes: MapPokemonRequestAttributes {
                grass: MapPokemonRequestAttributesArea {
                    encounter_rate: 25,
                    pokemon: vec![encounter(3, 16), encounter(4, 19), encounter(3, 16)],
                },
                water: MapPokemonRequestAttributesArea {
                    encounter_rate: 0,
                    pokemon: vec![],
                },
            },
        },
    };
    let grass = request.get_grass();
    assert_eq!(grass.encounter_rate, 25);
    assert_eq!(
        grass.pokemon,
        vec![
            MapPokemonInfo::new(3, 16),
            MapPokemonInfo::new(4, 19),
            MapPokemonInfo::new(3, 16)
        ]
    );
    let water = request.get_water();
    assert_eq!(water.encounter_rate, 0);
    assert_eq!(water.pokemon, vec![]);
}

#[test]
fn pokemon_learnset_request_gives_the_moves() {
    let request = PokemonLearnsetRequest {
        data: PokemonLearnsetRequestData {
            _type: PokemonLearnsetRequestType::pokemon_learnsets,
            attributes: PokemonLearnsetRequestAttributes {
                learnset: vec![
                    PokemonLearnsetRequestAttributesLearnset {
                        level: 7,
                        _move: PokemonLearnsetRequestAttributesLearnsetMove { id: 45 },
                    },
                    PokemonLearnsetRequestAttributesLearnset {
                        level: 13,
                        _move: PokemonLearnsetRequestAttributesLearnsetMove { id: 22 },
                    },
                ],
            },
        },
    };
    assert_eq!(
        request.get_learnset(),
        vec![PokemonLearnset::new(7, 45), PokemonLearnset::new(13, 22)]
    );
    assert_eq!(
        PokemonLearnset::new(7, 45),
        PokemonLearnset {
            level: 7,
            move_id: 45
        }
    );
}
