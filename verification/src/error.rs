//! The errors of the library.

use crate::string::string_push;
use vstd::prelude::*;
use vstd::string::StringExecFns;

verus! {

/// Why an operation on the image or on a save file failed.
///
/// The `..IDInvalid` variants with three fields carry the identifier that was
/// asked for and the inclusive range that the image allows. The `..WrongSize`
/// variants carry the size that was expected and the size that was found.
#[derive(Debug, Clone, Copy, PartialEq, Eq, Structural)]
pub enum Error {
    HeaderTooSmall,
    HMIDInvalid(u8, usize, usize),
    IconIDInvalid(u8, usize, usize),
    ImgWrongSize(usize, usize),
    InternalIDInvalid(u8),
    ItemIDInvalid(u8, usize, usize),
    ItemNameWrongSize(usize, usize),
    MapIDInvalid(u8, usize, usize),
    MapInvalid(u8),
    MapPokemonWrongSize(usize, usize),
    MoveIDInvalid(u8, usize, usize),
    MoveNameWrongSize(usize, usize),
    PicCouldNotRead,
    PicTooLarge,
    PicWrongSize,
    PlayerNamesWrongSize(usize, usize),
    PokedexEntrySpeciesWrongSize(usize, usize),
    PokedexTextWrongSize(usize, usize),
    PokedexIDInvalid(u8, usize, usize),
    PokemonEvolutionWrongSize(usize, usize),
    PokemonLogoWrongSize(usize, usize),
    PokemonNameWrongSize(usize, usize),
    PokemonTitleWrongSize(usize, usize),
    RomMalformed,
    RomWrongSize(usize, usize),
    SavPlayerNameWrongSize(usize, usize),
    SavWrongSize(usize, usize),
    StatsWrongSize(usize, usize),
    TMIDInvalid(u8, usize, usize),
    TrainerIDInvalid(u8, usize, usize),
    TrainerNameWrongSize(usize, usize),
    TrainerPartiesWrongSize(usize, usize),
    TrainerPartiesWrongDataSize(usize, usize),
    TrainerPartyInvalid(usize),
    TypeEffectIDInvalid(u8, usize, usize),
    TypeIDInvalid(u8, usize, usize),
    TypeNameWrongSize(usize, usize),
    UnsupportedCharacter(char),
}

/// The decimal digit for `n`.
pub open spec fn spec_digit(n: nat) -> char
    recommends
        n < 10,
{
    (n + 0x30) as char
}

/// The decimal form of `n`.
pub open spec fn spec_decimal(n: nat) -> Seq<char>
    decreases n,
{
    if n < 10 {
        seq![spec_digit(n)]
    } else {
        spec_decimal(n / 10).push(spec_digit(n % 10))
    }
}

/// The message for an identifier outside its range.
pub open spec fn spec_invalid_id(what: Seq<char>, id: u8, min: usize, max: usize) -> Seq<char> {
    "Invalid "@ + what + " ID "@ + spec_decimal(id as nat) + ": valid range is "@ + spec_decimal(
        min as nat,
    ) + "-"@ + spec_decimal(max as nat)
}

/// The message for a size that is not the one expected.
pub open spec fn spec_wrong_size(
    what: Seq<char>,
    before: Seq<char>,
    after: Seq<char>,
    expected: usize,
    actual: usize,
) -> Seq<char> {
    what + " mismatch: should be "@ + before + spec_decimal(expected as nat) + after + ", found "@
        + spec_decimal(actual as nat)
}

/// Appends to `out` the decimal form of `n`.
fn push_decimal(out: &mut String, n: usize)
    ensures
        final(out)@ == old(out)@ + spec_decimal(n as nat),
    decreases n,
{
    let ghost before = out@;
    if n >= 10 {
        push_decimal(out, n / 10);
    }
    let digit = ((n % 10) as u8 + 0x30) as char;
    string_push(out, digit);
    proof {
        if n >= 10 {
            assert(out@ =~= before + spec_decimal((n / 10) as nat).push(spec_digit((n % 10) as nat)));
        } else {
            assert(out@ =~= before + seq![spec_digit(n as nat)]);
        }
    }
}

fn invalid_id(what: &str, id: u8, min: usize, max: usize) -> (r: String)
    ensures
        r@ == spec_invalid_id(what@, id, min, max),
{
    let mut out = String::from_str("Invalid ");
    out.append(what);
    out.append(" ID ");
    push_decimal(&mut out, id as usize);
    out.append(": valid range is ");
    push_decimal(&mut out, min);
    out.append("-");
    push_decimal(&mut out, max);
    out
}

fn wrong_size(what: &str, before: &str, after: &str, expected: usize, actual: usize) -> (r: String)
    ensures
        r@ == spec_wrong_size(what@, before@, after@, expected, actual),
{
    let mut out = String::from_str(what);
    out.append(" mismatch: should be ");
    out.append(before);
    push_decimal(&mut out, expected);
    out.append(after);
    out.append(", found ");
    push_decimal(&mut out, actual);
    out
}

fn numbered(what: &str, n: usize) -> (r: String)
    ensures
        r@ == what@ + spec_decimal(n as nat),
{
    let mut out = String::from_str(what);
    push_decimal(&mut out, n);
    out
}

impl Error {
    /// The message of the error.
    pub open spec fn spec_to_string(&self) -> Seq<char> {
        match *self {
            Error::HMIDInvalid(id, min, max) => spec_invalid_id("HM"@, id, min, max),
            Error::IconIDInvalid(id, min, max) => spec_invalid_id("icon"@, id, min, max),
            Error::ItemIDInvalid(id, min, max) => spec_invalid_id("item"@, id, min, max),
            Error::MapIDInvalid(id, min, max) => spec_invalid_id("map"@, id, min, max),
            Error::MoveIDInvalid(id, min, max) => spec_invalid_id("move"@, id, min, max),
            Error::TMIDInvalid(id, min, max) => spec_invalid_id("TM"@, id, min, max),
            Error::TrainerIDInvalid(id, min, max) => spec_invalid_id("trainer"@, id, min, max),
            Error::TypeEffectIDInvalid(id, min, max) => spec_invalid_id("type effect"@, id, min, max),
            Error::TypeIDInvalid(id, min, max) => spec_invalid_id("type"@, id, min, max),
            Error::ImgWrongSize(expected, actual) => spec_wrong_size(
                "Image size"@,
                ""@,
                " tiles or pixels"@,
                expected,
                actual,
            ),
            Error::ItemNameWrongSize(expected, actual) => spec_wrong_size(
                "Item name length"@,
                "exactly "@,
                " characters"@,
                expected,
                actual,
            ),
            Error::MapPokemonWrongSize(expected, actual) => spec_wrong_size(
                "Map Pokémon size"@,
                "exactly "@,
                " bytes or entries"@,
                expected,
                actual,
            ),
            Error::MoveNameWrongSize(expected, actual) => spec_wrong_size(
                "Move name length"@,
                "exactly "@,
                " characters"@,
                expected,
                actual,
            ),
            Error::PlayerNamesWrongSize(expected, actual) => spec_wrong_size(
                "Player names length"@,
                "exactly "@,
                " bytes"@,
                expected,
                actual,
            ),
            Error::PokedexEntrySpeciesWrongSize(expected, actual) => spec_wrong_size(
                "Pokédex entry species length"@,
                "exactly "@,
                " characters"@,
                expected,
                actual,
            ),
            Error::PokedexTextWrongSize(expected, actual) => spec_wrong_size(
                "Pokédex entry text length"@,
                "fewer than "@,
                " characters"@,
                expected,
                actual,
            ),
            Error::PokemonEvolutionWrongSize(expected, actual) => spec_wrong_size(
                "Pokémon evolution length"@,
                "exactly "@,
                " bytes"@,
                expected,
                actual,
            ),
            Error::PokemonLogoWrongSize(expected, actual) => spec_wrong_size(
                "Pokémon logo length"@,
                "exactly "@,
                " bytes"@,
                expected,
                actual,
            ),
            Error::PokemonNameWrongSize(expected, actual) => spec_wrong_size(
                "Pokémon name length"@,
                ""@,
                " characters or fewer"@,
                expected,
                actual,
            ),
            Error::PokemonTitleWrongSize(expected, actual) => spec_wrong_size(
                "Pokémon title length"@,
                "exactly "@,
                " Pokémon"@,
                expected,
                actual,
            ),
            Error::RomWrongSize(expected, actual) => spec_wrong_size(
                "ROM length"@,
                "at least "@,
                " bytes"@,
                expected,
                actual,
            ),
            Error::SavPlayerNameWrongSize(expected, actual) => spec_wrong_size(
                "Player name length"@,
                ""@,
                " characters or fewer"@,
                expected,
                actual,
            ),
            Error::SavWrongSize(expected, actual) => spec_wrong_size(
                "Sav length"@,
                ""@,
                " bytes"@,
                expected,
                actual,
            ),
            Error::StatsWrongSize(expected, actual) => spec_wrong_size(
                "Stats length"@,
                "exactly "@,
                " bytes"@,
                expected,
                actual,
            ),
            Error::TrainerNameWrongSize(expected, actual) => spec_wrong_size(
                "Trainer name length"@,
                "exactly "@,
                " characters"@,
                expected,
                actual,
            ),
            Error::TrainerPartiesWrongSize(expected, actual) => spec_wrong_size(
                "Trainer parties length"@,
                "exactly "@,
                " parties"@,
                expected,
                actual,
            ),
            Error::TrainerPartiesWrongDataSize(expected, actual) => spec_wrong_size(
                "Trainer parties data length"@,
                "exactly "@,
                " bytes"@,
                expected,
                actual,
            ),
            Error::TypeNameWrongSize(expected, actual) => spec_wrong_size(
                "Type name length"@,
                ""@,
                " characters or fewer"@,
                expected,
                actual,
            ),
            Error::HeaderTooSmall => "Header too small"@,
            Error::PicCouldNotRead => "Could not read image"@,
            Error::PicTooLarge => "Compressed image is too large"@,
            Error::PicWrongSize => "Image dimensions must be multiples of 8, 120 at most, and its colours below 4"@,
            Error::RomMalformed => "ROM data is malformed"@,
            Error::InternalIDInvalid(id) => "Invalid internal ID: "@ + spec_decimal(id as nat),
            Error::MapInvalid(id) => "Invalid map: "@ + spec_decimal(id as nat),
            Error::PokedexIDInvalid(id, min, max) => spec_invalid_id("Pokédex"@, id, min, max),
            Error::TrainerPartyInvalid(index) => "Invalid trainer party: "@ + spec_decimal(index as nat),
            Error::UnsupportedCharacter(c) => "Unsupported character: "@.push(c),
        }
    }

    /// The message of the error, for a reader.
    pub fn to_string(&self) -> (r: String)
        ensures
            r@ == self.spec_to_string(),
    {
        match self {
            Error::HMIDInvalid(id, min, max) => invalid_id("HM", *id, *min, *max),
            Error::IconIDInvalid(id, min, max) => invalid_id("icon", *id, *min, *max),
            Error::ItemIDInvalid(id, min, max) => invalid_id("item", *id, *min, *max),
            Error::MapIDInvalid(id, min, max) => invalid_id("map", *id, *min, *max),
            Error::MoveIDInvalid(id, min, max) => invalid_id("move", *id, *min, *max),
            Error::TMIDInvalid(id, min, max) => invalid_id("TM", *id, *min, *max),
            Error::TrainerIDInvalid(id, min, max) => invalid_id("trainer", *id, *min, *max),
            Error::TypeEffectIDInvalid(id, min, max) => invalid_id("type effect", *id, *min, *max),
            Error::TypeIDInvalid(id, min, max) => invalid_id("type", *id, *min, *max),
            Error::ImgWrongSize(expected, actual) => wrong_size(
                "Image size",
                "",
                " tiles or pixels",
                *expected,
                *actual,
            ),
            Error::ItemNameWrongSize(expected, actual) => wrong_size(
                "Item name length",
                "exactly ",
                " characters",
                *expected,
                *actual,
            ),
            Error::MapPokemonWrongSize(expected, actual) => wrong_size(
                "Map Pokémon size",
                "exactly ",
                " bytes or entries",
                *expected,
                *actual,
            ),
            Error::MoveNameWrongSize(expected, actual) => wrong_size(
                "Move name length",
                "exactly ",
                " characters",
                *expected,
                *actual,
            ),
            Error::PlayerNamesWrongSize(expected, actual) => wrong_size(
                "Player names length",
                "exactly ",
                " bytes",
                *expected,
                *actual,
            ),
            Error::PokedexEntrySpeciesWrongSize(expected, actual) => wrong_size(
                "Pokédex entry species length",
                "exactly ",
                " characters",
                *expected,
                *actual,
            ),
            Error::PokedexTextWrongSize(expected, actual) => wrong_size(
                "Pokédex entry text length",
                "fewer than ",
                " characters",
                *expected,
                *actual,
            ),
            Error::PokemonEvolutionWrongSize(expected, actual) => wrong_size(
                "Pokémon evolution length",
                "exactly ",
                " bytes",
                *expected,
                *actual,
            ),
            Error::PokemonLogoWrongSize(expected, actual) => wrong_size(
                "Pokémon logo length",
                "exactly ",
                " bytes",
                *expected,
                *actual,
            ),
            Error::PokemonNameWrongSize(expected, actual) => wrong_size(
                "Pokémon name length",
                "",
                " characters or fewer",
                *expected,
                *actual,
            ),
            Error::PokemonTitleWrongSize(expected, actual) => wrong_size(
                "Pokémon title length",
                "exactly ",
                " Pokémon",
                *expected,
                *actual,
            ),
            Error::RomWrongSize(expected, actual) => wrong_size(
                "ROM length",
                "at least ",
                " bytes",
                *expected,
                *actual,
            ),
            Error::SavPlayerNameWrongSize(expected, actual) => wrong_size(
                "Player name length",
                "",
                " characters or fewer",
                *expected,
                *actual,
            ),
            Error::SavWrongSize(expected, actual) => wrong_size(
                "Sav length",
                "",
                " bytes",
                *expected,
                *actual,
            ),
            Error::StatsWrongSize(expected, actual) => wrong_size(
                "Stats length",
                "exactly ",
                " bytes",
                *expected,
                *actual,
            ),
            Error::TrainerNameWrongSize(expected, actual) => wrong_size(
                "Trainer name length",
                "exactly ",
                " characters",
                *expected,
                *actual,
            ),
            Error::TrainerPartiesWrongSize(expected, actual) => wrong_size(
                "Trainer parties length",
                "exactly ",
                " parties",
                *expected,
                *actual,
            ),
            Error::TrainerPartiesWrongDataSize(expected, actual) => wrong_size(
                "Trainer parties data length",
                "exactly ",
                " bytes",
                *expected,
                *actual,
            ),
            Error::TypeNameWrongSize(expected, actual) => wrong_size(
                "Type name length",
                "",
                " characters or fewer",
                *expected,
                *actual,
            ),
            Error::HeaderTooSmall => String::from_str("Header too small"),
            Error::PicCouldNotRead => String::from_str("Could not read image"),
            Error::PicTooLarge => String::from_str("Compressed image is too large"),
            Error::PicWrongSize => String::from_str("Image dimensions must be multiples of 8, 120 at most, and its colours below 4"),
            Error::RomMalformed => String::from_str("ROM data is malformed"),
            Error::InternalIDInvalid(id) => numbered("Invalid internal ID: ", *id as usize),
            Error::MapInvalid(id) => numbered("Invalid map: ", *id as usize),
            Error::PokedexIDInvalid(id, min, max) => invalid_id("Pokédex", *id, *min, *max),
            Error::TrainerPartyInvalid(index) => numbered("Invalid trainer party: ", *index),
            Error::UnsupportedCharacter(c) => {
                let mut out = String::from_str("Unsupported character: ");
                string_push(&mut out, *c);
                out
            },
        }
    }
}

} // verus!
