//! What holds of the library as a whole: a name that was written reads
//! back, and the range of an identifier is respected by every read and
//! write that takes one.

use crate::bytes::{
    first_index_of, lemma_first_index_of, lemma_first_index_of_is, lemma_first_index_of_none,
};
use crate::db::{spec_written, ROM_SIZE};
use crate::error::Error;
use crate::icons::{spec_get_pokemon_icon, spec_icon_frame, spec_set_pokemon_icon, PokemonIcon};
use crate::ids::{
    in_bounds, spec_hm_id_bounds, spec_icon_id_bounds, spec_internal_max, spec_item_id_bounds, spec_map_id_bounds, spec_move_id_bounds, spec_pokedex_id_to_internal_id, spec_pokedex_table, spec_tm_id_bounds, spec_trainer_id_bounds, spec_type_effect_id_bounds, spec_type_id_bounds, spec_validated, MAX_ICON_ID, MAX_TM_ID, POKEMON_NAME_WIDTH, TYPE_NAME_POINTERS,
};
use crate::ids::{ITEM_NAMES, TRAINER_NAMES};
use crate::names::{
    spec_get_item_name, spec_get_move_name, spec_get_pokemon_name, spec_get_trainer_name,
    spec_get_type_name, spec_item_id_invalid, spec_move_id_invalid, spec_record_start,
    spec_set_item_name, spec_set_move_name, spec_set_pokemon_name, spec_set_trainer_name,
    spec_set_type_name, spec_trainer_id_invalid, spec_type_name_offset, MOVE_NAMES, TYPE_NAME_WINDOW,
};
use crate::string::{text_part, TERMINATOR};
use crate::tables::{
    spec_get_hm, spec_get_tm, spec_get_tm_price, spec_get_type_effect, spec_set_hm, spec_set_move_stats, spec_set_tm, spec_set_tm_price, spec_set_type_effect, spec_type_effect_id_invalid, MoveStats, TMPrice, TypeEffect, HM, TM,
};
use crate::types::spec_padded_with;
use vstd::prelude::*;

verus! {

/// Whether the bytes of `name` are free of the terminator.
pub open spec fn has_no_terminator(name: Seq<u8>) -> bool {
    forall|i: int| 0 <= i < name.len() ==> name[i] != TERMINATOR
}

/// A name without a terminator, padded with terminators, reads as the name.
pub proof fn lemma_padded_name_reads_back(name: Seq<u8>, pad: nat)
    requires
        has_no_terminator(name),
    ensures
        text_part(spec_padded_with(name, pad, TERMINATOR)) == name,
{
    let padded = spec_padded_with(name, pad, TERMINATOR);
    if pad > 0 {
        assert(padded[name.len() as int] == TERMINATOR);
        assert forall|j: int| 0 <= j < name.len() implies padded[j] != TERMINATOR by {
            assert(padded[j] == name[j]);
        }
        lemma_first_index_of_is(padded, TERMINATOR, name.len() as int);
        assert(padded.take(name.len() as int) =~= name);
    } else {
        assert(padded =~= name);
        lemma_first_index_of_none(name, TERMINATOR);
    }
}

/// Writing `data` at `offset` changes the bytes from `offset` on, as many as
/// `data` has, and no others.
pub proof fn lemma_written(rom: Seq<u8>, offset: int, data: Seq<u8>)
    requires
        0 <= offset,
        offset + data.len() <= rom.len(),
    ensures
        spec_written(rom, offset, data).len() == rom.len(),
        forall|i: int|
            0 <= i < rom.len() ==> #[trigger] spec_written(rom, offset, data)[i] == if offset <= i
                < offset + data.len() {
                data[i - offset]
            } else {
                rom[i]
            },
{
}

/// The name of a species reads back after the patch that sets it.
///
/// For every image, every species of the image and every name that fits the
/// field and holds no terminator: in the image that the patch of
/// `set_pokemon_name` makes, `get_pokemon_name` gives the name.
pub proof fn pokemon_name_reads_back(rom: Seq<u8>, pokedex_id: u8, name: Seq<u8>)
    requires
        rom.len() >= ROM_SIZE,
        spec_pokedex_id_to_internal_id(rom, pokedex_id) is Ok,
        name.len() <= POKEMON_NAME_WIDTH,
        has_no_terminator(name),
    ensures
        spec_set_pokemon_name(rom, pokedex_id, name) is Ok,
        ({
            let patch = spec_set_pokemon_name(rom, pokedex_id, name)->Ok_0;
            spec_get_pokemon_name(spec_written(rom, patch.0, patch.1), pokedex_id) == Ok::<
                Seq<u8>,
                Error,
            >(name)
        }),
{
    let internal_id = spec_pokedex_id_to_internal_id(rom, pokedex_id)->Ok_0;
    let max = spec_internal_max(rom)->Some_0;
    lemma_first_index_of(spec_pokedex_table(rom), pokedex_id);
    let patch = spec_set_pokemon_name(rom, pokedex_id, name)->Ok_0;
    let offset = patch.0;
    let data = patch.1;
    let after = spec_written(rom, offset, data);
    lemma_written(rom, offset, data);
    assert(spec_pokedex_table(after) =~= spec_pokedex_table(rom));
    assert(spec_pokedex_id_to_internal_id(after, pokedex_id) == Ok::<u8, Error>(internal_id));
    assert(after.subrange(offset, offset + POKEMON_NAME_WIDTH) =~= data);
    lemma_padded_name_reads_back(name, (POKEMON_NAME_WIDTH - name.len()) as nat);
}

/// The name of a type reads back after the patch that sets it.
///
/// For every image, every type of the image whose name stands clear of the
/// table of pointers, and every name that is at most as long as the old one
/// and holds no terminator: the image that the patch of `set_type_name`
/// makes is as long as it was, and in it `get_type_name` gives the name.
/// Where a name stands in the table of pointers, the patch overwrites the
/// pointers, and the name is not found again.
#[verifier::rlimit(50)]
pub proof fn type_name_reads_back(rom: Seq<u8>, type_id: u8, name: Seq<u8>)
    requires
        rom.len() >= ROM_SIZE,
        spec_get_type_name(rom, type_id) is Ok,
        name.len() <= spec_get_type_name(rom, type_id)->Ok_0.len(),
        has_no_terminator(name),
        spec_type_name_offset(rom, type_id) + spec_get_type_name(rom, type_id)->Ok_0.len()
            <= TYPE_NAME_POINTERS || spec_type_name_offset(rom, type_id) > TYPE_NAME_POINTERS
            + first_index_of(
            rom.skip(TYPE_NAME_POINTERS as int),
            0x8D,
        )->Some_0,
    ensures
        spec_set_type_name(rom, type_id, name) is Ok,
        ({
            let patch = spec_set_type_name(rom, type_id, name)->Ok_0;
            let after = spec_written(rom, patch.0, patch.1);
            &&& after.len() == rom.len()
            &&& spec_get_type_name(after, type_id) == Ok::<Seq<u8>, Error>(name)
        }),
{
    let old = spec_get_type_name(rom, type_id)->Ok_0;
    let offset = spec_type_name_offset(rom, type_id);
    let window = rom.subrange(offset, offset + TYPE_NAME_WINDOW);
    let patch = spec_set_type_name(rom, type_id, name)->Ok_0;
    let data = patch.1;
    let after = spec_written(rom, offset, data);
    let table = rom.skip(TYPE_NAME_POINTERS as int);
    let end = first_index_of(table, 0x8D)->Some_0;
    lemma_first_index_of(table, 0x8D);
    lemma_first_index_of(window, TERMINATOR);
    assert(old.len() <= TYPE_NAME_WINDOW);
    lemma_written(rom, offset, data);
    // The table of pointers and its end stand as they stood.
    let table_after = after.skip(TYPE_NAME_POINTERS as int);
    assert forall|j: int| 0 <= j <= end implies table_after[j] == table[j] by {
        assert(table_after[j] == after[TYPE_NAME_POINTERS + j]);
        assert(table[j] == rom[TYPE_NAME_POINTERS + j]);
    }
    lemma_first_index_of_is(table_after, 0x8D, end);
    assert(spec_type_id_bounds(after) == spec_type_id_bounds(rom));
    assert(spec_type_name_offset(after, type_id) == offset);
    // The window holds the name, its padding, and what stood behind the old name.
    let window_after = after.subrange(offset, offset + TYPE_NAME_WINDOW);
    assert forall|j: int| 0 <= j < name.len() implies window_after[j] != TERMINATOR by {
        assert(window_after[j] == data[j]);
        assert(data[j] == name[j]);
    }
    if name.len() < old.len() {
        assert(window_after[name.len() as int] == data[name.len() as int]);
        lemma_first_index_of_is(window_after, TERMINATOR, name.len() as int);
    } else if old.len() < TYPE_NAME_WINDOW {
        assert(window_after[old.len() as int] == window[old.len() as int]);
        lemma_first_index_of_is(window_after, TERMINATOR, name.len() as int);
    } else {
        lemma_first_index_of_none(window_after, TERMINATOR);
    }
    assert(text_part(window_after) =~= name);
}

/// The range of an identifier decides, and nothing else: an identifier in
/// the range is accepted with the range, whatever the identifier; one
/// outside it is refused with the error for identifiers out of range.
pub proof fn range_is_respected(bounds: (usize, usize), id: u8, invalid: Error)
    ensures
        in_bounds(id, bounds) ==> spec_validated(Some(bounds), id, invalid) == Ok::<
            (usize, usize),
            Error,
        >(bounds),
        !in_bounds(id, bounds) ==> spec_validated(Some(bounds), id, invalid) == Err::<
            (usize, usize),
            Error,
        >(invalid),
        id == bounds.1 + 1 ==> !in_bounds(id, bounds),
{
}

/// The HMs: every read and write refuses the number after the last, and
/// accepts every number of the range.
pub proof fn hm_range_is_respected(rom: Seq<u8>, hm_id: u8, hm: HM)
    requires
        spec_hm_id_bounds(rom) is Some,
    ensures
        ({
            let bounds = spec_hm_id_bounds(rom)->Some_0;
            let invalid = Error::HMIDInvalid(hm_id, bounds.0, bounds.1);
            &&& in_bounds(hm_id, bounds) ==> spec_get_hm(rom, hm_id) is Ok && spec_set_hm(
                rom,
                hm_id,
                hm,
            ) is Ok
            &&& !in_bounds(hm_id, bounds) ==> spec_get_hm(rom, hm_id) == Err::<HM, Error>(invalid)
                && spec_set_hm(rom, hm_id, hm) == Err::<(int, Seq<u8>), Error>(invalid)
        }),
{
}

/// The TMs: every read and write refuses a number outside 1 to 50, and
/// accepts every number of the range.
pub proof fn tm_range_is_respected(rom: Seq<u8>, tm_id: u8, tm: TM, tm_price: TMPrice)
    ensures
        ({
            let invalid = Error::TMIDInvalid(tm_id, 1, MAX_TM_ID);
            &&& in_bounds(tm_id, spec_tm_id_bounds()) ==> {
                &&& spec_get_tm(rom, tm_id) is Ok
                &&& spec_set_tm(tm_id, tm) is Ok
                &&& spec_get_tm_price(rom, tm_id) is Ok
                &&& spec_set_tm_price(rom, tm_id, tm_price) is Ok
            }
            &&& !in_bounds(tm_id, spec_tm_id_bounds()) ==> {
                &&& spec_get_tm(rom, tm_id) == Err::<TM, Error>(invalid)
                &&& spec_set_tm(tm_id, tm) == Err::<(int, Seq<u8>), Error>(invalid)
                &&& spec_get_tm_price(rom, tm_id) == Err::<TMPrice, Error>(invalid)
                &&& spec_set_tm_price(rom, tm_id, tm_price) == Err::<(int, Seq<u8>), Error>(
                    invalid,
                )
            }
        }),
{
}

/// The type matchups and the moves: every read and write refuses the number
/// after the last, and accepts every number of the range.
pub proof fn table_ranges_are_respected(
    rom: Seq<u8>,
    id: u8,
    type_effect: TypeEffect,
    move_stats: MoveStats,
)
    ensures
        spec_type_effect_id_bounds(rom) matches Some(bounds) ==> {
            &&& in_bounds(id, bounds) ==> spec_get_type_effect(rom, id) is Ok
                && spec_set_type_effect(rom, id, type_effect) is Ok
            &&& !in_bounds(id, bounds) ==> spec_get_type_effect(rom, id) == Err::<
                TypeEffect,
                Error,
            >(spec_type_effect_id_invalid(rom, id)) && spec_set_type_effect(rom, id, type_effect)
                == Err::<(int, Seq<u8>), Error>(spec_type_effect_id_invalid(rom, id))
        },
        spec_move_id_bounds(rom) matches Some(bounds) ==> {
            &&& in_bounds(id, bounds) ==> spec_set_move_stats(rom, id, move_stats) is Ok
            &&& !in_bounds(id, bounds) ==> spec_set_move_stats(rom, id, move_stats) == Err::<
                (int, Seq<u8>),
                Error,
            >(spec_move_id_invalid(rom, id))
        },
{
}

/// The names in lists: every read and write refuses the number after the
/// last. A number of the range is refused as out of range only where the
/// list holds fewer names than the range says.
pub proof fn listed_name_ranges_are_respected(rom: Seq<u8>, id: u8, name: Seq<u8>)
    ensures
        spec_move_id_bounds(rom) matches Some(bounds) ==> {
            &&& !in_bounds(id, bounds) ==> spec_get_move_name(rom, id) == Err::<Seq<u8>, Error>(
                spec_move_id_invalid(rom, id),
            ) && spec_set_move_name(rom, id, name) == Err::<(int, Seq<u8>), Error>(
                spec_move_id_invalid(rom, id),
            )
            &&& in_bounds(id, bounds) && spec_record_start(
                rom.skip(MOVE_NAMES as int),
                (id - 1) as nat,
            ) is Some ==> spec_get_move_name(rom, id) != Err::<Seq<u8>, Error>(
                spec_move_id_invalid(rom, id),
            ) && spec_set_move_name(rom, id, name) != Err::<(int, Seq<u8>), Error>(
                spec_move_id_invalid(rom, id),
            )
        },
        spec_trainer_id_bounds(rom) matches Some(bounds) ==> {
            &&& !in_bounds(id, bounds) ==> spec_get_trainer_name(rom, id) == Err::<
                Seq<u8>,
                Error,
            >(spec_trainer_id_invalid(rom, id)) && spec_set_trainer_name(rom, id, name) == Err::<
                (int, Seq<u8>),
                Error,
            >(spec_trainer_id_invalid(rom, id))
            &&& in_bounds(id, bounds) && spec_record_start(
                rom.skip(TRAINER_NAMES as int),
                (id - 1) as nat,
            ) is Some ==> spec_get_trainer_name(rom, id) != Err::<Seq<u8>, Error>(
                spec_trainer_id_invalid(rom, id),
            ) && spec_set_trainer_name(rom, id, name) != Err::<(int, Seq<u8>), Error>(
                spec_trainer_id_invalid(rom, id),
            )
        },
        spec_item_id_bounds(rom) matches Some(bounds) ==> {
            &&& !in_bounds(id, bounds) ==> spec_get_item_name(rom, id) == Err::<Seq<u8>, Error>(
                spec_item_id_invalid(rom, id),
            ) && spec_set_item_name(rom, id, name) == Err::<(int, Seq<u8>), Error>(
                spec_item_id_invalid(rom, id),
            )
            &&& in_bounds(id, bounds) && spec_record_start(
                rom.skip(ITEM_NAMES as int),
                (id - 1) as nat,
            ) is Some ==> spec_get_item_name(rom, id) != Err::<Seq<u8>, Error>(
                spec_item_id_invalid(rom, id),
            ) && spec_set_item_name(rom, id, name) != Err::<(int, Seq<u8>), Error>(
                spec_item_id_invalid(rom, id),
            )
        },
{
}

/// The types, and the icons: every read and write refuses the number after
/// the last. Every type of the range has a name; a frame of an icon of the
/// range is never refused as out of range.
pub proof fn type_and_icon_ranges_are_respected(
    rom: Seq<u8>,
    id: u8,
    name: Seq<u8>,
    frame_index: u8,
)
    ensures
        spec_type_id_bounds(rom) matches Some(bounds) ==> {
            let invalid = Error::TypeIDInvalid(id, bounds.0, bounds.1);
            &&& in_bounds(id, bounds) ==> spec_get_type_name(rom, id) is Ok
            &&& !in_bounds(id, bounds) ==> spec_get_type_name(rom, id) == Err::<Seq<u8>, Error>(
                invalid,
            ) && spec_set_type_name(rom, id, name) == Err::<(int, Seq<u8>), Error>(invalid)
        },
        ({
            let invalid = Error::IconIDInvalid(id, 0, MAX_ICON_ID);
            &&& in_bounds(id, spec_icon_id_bounds()) ==> spec_icon_frame(rom, id, frame_index)
                != Err::<Seq<u8>, Error>(invalid)
            &&& !in_bounds(id, spec_icon_id_bounds()) ==> spec_icon_frame(rom, id, frame_index)
                == Err::<Seq<u8>, Error>(invalid)
        }),
{
}

/// The species: every read and write that takes a display number refuses a
/// number that the table of the image does not hold, and zero; and finds
/// every number that the table holds.
pub proof fn pokedex_ids_are_respected(rom: Seq<u8>, pokedex_id: u8, name: Seq<u8>, icon: PokemonIcon)
    requires
        spec_internal_max(rom) is Some,
    ensures
        ({
            let known = pokedex_id >= 1 && spec_pokedex_table(rom).contains(pokedex_id);
            let invalid = crate::ids::spec_pokedex_id_invalid(rom, pokedex_id);
            &&& known ==> spec_pokedex_id_to_internal_id(rom, pokedex_id) is Ok
                && spec_get_pokemon_name(rom, pokedex_id) is Ok && spec_get_pokemon_icon(
                rom,
                pokedex_id,
            ) is Ok
            &&& !known ==> spec_pokedex_id_to_internal_id(rom, pokedex_id) == Err::<u8, Error>(
                invalid,
            ) && spec_get_pokemon_name(rom, pokedex_id) == Err::<Seq<u8>, Error>(invalid)
                && spec_set_pokemon_name(rom, pokedex_id, name) == Err::<(int, Seq<u8>), Error>(
                invalid,
            ) && spec_get_pokemon_icon(rom, pokedex_id) == Err::<PokemonIcon, Error>(invalid)
                && spec_set_pokemon_icon(rom, pokedex_id, icon) == Err::<(int, Seq<u8>), Error>(
                invalid,
            )
        }),
{
    lemma_first_index_of(spec_pokedex_table(rom), pokedex_id);
}

/// The range of the display numbers is respected: a number outside it is
/// refused with the range; and where the table of the image holds every
/// number of the range, every number of the range is found.
pub proof fn pokedex_range_is_respected(rom: Seq<u8>, pokedex_id: u8)
    requires
        spec_internal_max(rom) is Some,
    ensures
        ({
            let bounds = crate::ids::spec_pokedex_id_bounds(rom)->Some_0;
            let table = spec_pokedex_table(rom);
            &&& bounds.0 == 1
            &&& !in_bounds(pokedex_id, bounds) ==> spec_pokedex_id_to_internal_id(
                rom,
                pokedex_id,
            ) == Err::<u8, Error>(Error::PokedexIDInvalid(pokedex_id, bounds.0, bounds.1))
            &&& in_bounds(pokedex_id, bounds) && (forall|n: u8|
                1 <= n <= bounds.1 ==> #[trigger] table.contains(n))
                ==> spec_pokedex_id_to_internal_id(rom, pokedex_id) is Ok
        }),
{
    let table = spec_pokedex_table(rom);
    crate::ids::lemma_greatest(table);
    lemma_first_index_of(table, pokedex_id);
    if let Some(i) = first_index_of(table, pokedex_id) {
        assert(table[i] <= crate::ids::spec_greatest(table));
    }
    if table.contains(pokedex_id) {
        let i = choose|i: int| 0 <= i < table.len() && table[i] == pokedex_id;
        assert(table[i] == pokedex_id);
    }
}

/// The species, in every record that belongs to one: a read refuses a
/// number that the table of the image does not hold, and zero, as no species;
/// and refuses no number that the table holds on that ground.
pub proof fn pokedex_ids_are_respected_by_records(rom: Seq<u8>, pokedex_id: u8)
    requires
        spec_internal_max(rom) is Some,
    ensures
        ({
            let known = pokedex_id >= 1 && spec_pokedex_table(rom).contains(pokedex_id);
            let invalid = crate::ids::spec_pokedex_id_invalid(rom, pokedex_id);
            &&& known ==> {
                &&& crate::machines::spec_get_pokemon_machines(rom, pokedex_id) != Err::<
                    Seq<crate::machines::PokemonMachine>,
                    Error,
                >(invalid)
                &&& crate::evolutions::spec_get_pokemon_evolutions(rom, pokedex_id) != Err::<
                    Seq<crate::evolutions::PokemonEvolution>,
                    Error,
                >(invalid)
                &&& crate::cry::spec_get_pokemon_cry(rom, pokedex_id) is Ok
                &&& crate::pokedex::spec_get_pokedex_entry(rom, pokedex_id) != Err::<
                    crate::pokedex::PokedexEntryView,
                    Error,
                >(invalid)
                &&& crate::pokedex::spec_get_pokedex_text(rom, pokedex_id) != Err::<
                    Seq<u8>,
                    Error,
                >(invalid)
            }
            &&& !known ==> {
                &&& crate::machines::spec_get_pokemon_machines(rom, pokedex_id) == Err::<
                    Seq<crate::machines::PokemonMachine>,
                    Error,
                >(invalid)
                &&& crate::evolutions::spec_get_pokemon_evolutions(rom, pokedex_id) == Err::<
                    Seq<crate::evolutions::PokemonEvolution>,
                    Error,
                >(invalid)
                &&& crate::cry::spec_get_pokemon_cry(rom, pokedex_id) == Err::<
                    crate::cry::CryView,
                    Error,
                >(invalid)
                &&& crate::pokedex::spec_get_pokedex_entry(rom, pokedex_id) == Err::<
                    crate::pokedex::PokedexEntryView,
                    Error,
                >(invalid)
                &&& crate::pokedex::spec_get_pokedex_text(rom, pokedex_id) == Err::<
                    Seq<u8>,
                    Error,
                >(invalid)
                &&& crate::pics::spec_pokemon_pic_offset(
                    rom,
                    pokedex_id,
                    crate::pics::PokemonPicFace::FRONT,
                ) == Err::<int, Error>(invalid)
            }
        }),
{
    lemma_first_index_of(spec_pokedex_table(rom), pokedex_id);
}

/// The trainer classes and the maps, in every record that belongs to one:
/// a read refuses the number after the last as out of range, and refuses no
/// number of the range so.
pub proof fn trainer_and_map_ranges_are_respected(rom: Seq<u8>, id: u8)
    ensures
        spec_trainer_id_bounds(rom) matches Some(bounds) ==> {
            let invalid = spec_trainer_id_invalid(rom, id);
            &&& !in_bounds(id, bounds) ==> crate::parties::spec_get_trainer_parties(rom, id)
                == Err::<Seq<crate::parties::PartyView>, Error>(invalid)
                && crate::pics::spec_trainer_pic_offset(rom, id) == Err::<int, Error>(invalid)
            &&& in_bounds(id, bounds) ==> crate::pics::spec_trainer_pic_offset(rom, id) is Ok
            &&& in_bounds(id, bounds) ==> crate::parties::spec_get_trainer_parties(rom, id)
                != Err::<Seq<crate::parties::PartyView>, Error>(invalid)
        },
        spec_map_id_bounds(rom) matches Some(bounds) ==> {
            let invalid = crate::encounters::spec_map_id_invalid(rom, id);
            &&& !in_bounds(id, bounds) ==> crate::encounters::spec_get_map_pokemon(rom, id)
                == Err::<crate::encounters::MapPokemonView, Error>(invalid)
                && crate::map::spec_get_map_pic(rom, id) == Err::<(u8, u8, Seq<u8>), Error>(
                invalid,
            )
            &&& in_bounds(id, bounds) ==> crate::encounters::spec_get_map_pokemon(rom, id)
                != Err::<crate::encounters::MapPokemonView, Error>(invalid)
                && crate::map::spec_get_map_pic(rom, id) != Err::<(u8, u8, Seq<u8>), Error>(
                invalid,
            )
        },
{
}

/// Whether `a` and `b` hold the byte `needle` at the same places.
pub open spec fn same_places(a: Seq<u8>, b: Seq<u8>, needle: u8) -> bool {
    &&& a.len() == b.len()
    &&& forall|j: int| 0 <= j < a.len() ==> ((#[trigger] a[j] == needle) == (b[j] == needle))
}

/// Two buffers that hold a byte at the same places hold its first at the
/// same place.
pub proof fn lemma_first_index_same(a: Seq<u8>, b: Seq<u8>, needle: u8)
    requires
        same_places(a, b, needle),
    ensures
        first_index_of(a, needle) == first_index_of(b, needle),
{
    lemma_first_index_of(a, needle);
    lemma_first_index_of(b, needle);
    match first_index_of(a, needle) {
        Some(i) => {
            assert(a[i] == needle);
            assert forall|j: int| 0 <= j < i implies b[j] != needle by {
                assert(a[j] != needle);
            }
            lemma_first_index_of_is(b, needle, i);
        },
        None => {
            assert forall|j: int| 0 <= j < b.len() implies b[j] != needle by {
                assert(a[j] != needle);
            }
            lemma_first_index_of_none(b, needle);
        },
    }
}

/// Two buffers that hold a byte at the same places hold it as often.
pub proof fn lemma_count_same(a: Seq<u8>, b: Seq<u8>, needle: u8)
    requires
        same_places(a, b, needle),
    ensures
        crate::bytes::count_of(a, needle) == crate::bytes::count_of(b, needle),
    decreases a.len(),
{
    if a.len() > 0 {
        assert(same_places(a.drop_last(), b.drop_last(), needle)) by {
            assert forall|j: int| 0 <= j < a.len() - 1 implies ((#[trigger] a.drop_last()[j]
                == needle) == (b.drop_last()[j] == needle)) by {
                assert((a[j] == needle) == (b[j] == needle));
            }
        }
        lemma_count_same(a.drop_last(), b.drop_last(), needle);
        assert((a[a.len() - 1] == needle) == (b[a.len() - 1] == needle));
    }
}

/// In two lists that hold the terminator at the same places, the records
/// start at the same places.
pub proof fn lemma_record_start_same(a: Seq<u8>, b: Seq<u8>, n: nat)
    requires
        same_places(a, b, TERMINATOR),
    ensures
        spec_record_start(a, n) == spec_record_start(b, n),
    decreases n,
{
    if n > 0 {
        lemma_first_index_same(a, b, TERMINATOR);
        lemma_first_index_of(a, TERMINATOR);
        if let Some(i) = first_index_of(a, TERMINATOR) {
            assert(same_places(a.skip(i + 1), b.skip(i + 1), TERMINATOR)) by {
                assert forall|j: int| 0 <= j < a.len() - i - 1 implies ((#[trigger] a.skip(
                    i + 1,
                )[j] == TERMINATOR) == (b.skip(i + 1)[j] == TERMINATOR)) by {
                    assert((a[i + 1 + j] == TERMINATOR) == (b[i + 1 + j] == TERMINATOR));
                }
            }
            lemma_record_start_same(a.skip(i + 1), b.skip(i + 1), (n - 1) as nat);
        }
    }
}

/// A record starts inside its list, or at its end.
pub proof fn lemma_record_start_bounds(list: Seq<u8>, n: nat)
    ensures
        spec_record_start(list, n) matches Some(start) ==> 0 <= start <= list.len(),
    decreases n,
{
    if n > 0 {
        lemma_first_index_of(list, TERMINATOR);
        if let Some(i) = first_index_of(list, TERMINATOR) {
            lemma_record_start_bounds(list.skip(i + 1), (n - 1) as nat);
        }
    }
}

/// A name in a list reads back after it was overwritten by a name of its
/// length that holds no terminator: the records of the list start where
/// they started, and the record holds the new name.
#[verifier::rlimit(50)]
pub proof fn lemma_listed_name_reads_back(
    rom: Seq<u8>,
    base: int,
    id: u8,
    name: Seq<u8>,
    offset: int,
)
    requires
        0 <= base <= offset,
        id >= 1,
        offset <= rom.len(),
        spec_record_start(rom.skip(base), (id - 1) as nat) == Some(offset - base),
        name.len() == crate::names::spec_listed_name_at(rom, offset).len(),
        has_no_terminator(name),
    ensures
        ({
            let after = spec_written(rom, offset, name);
            &&& after.len() == rom.len()
            &&& same_places(rom, after, TERMINATOR)
            &&& spec_record_start(after.skip(base), (id - 1) as nat) == Some(offset - base)
            &&& crate::names::spec_listed_name_at(after, offset) == name
        }),
{
    let after = spec_written(rom, offset, name);
    let end = crate::names::spec_listed_window_end(rom, offset);
    let window = rom.subrange(offset, end);
    let old = text_part(window);
    lemma_first_index_of(window, TERMINATOR);
    assert(old.len() <= end - offset);
    lemma_written(rom, offset, name);
    assert forall|j: int| 0 <= j < rom.len() implies ((#[trigger] rom[j] == TERMINATOR) == (
    after[j] == TERMINATOR)) by {
        if offset <= j < offset + name.len() {
            assert(window[j - offset] == rom[j]);
            assert(after[j] == name[j - offset]);
        }
    }
    assert(same_places(rom.skip(base), after.skip(base), TERMINATOR)) by {
        assert forall|j: int| 0 <= j < rom.len() - base implies ((#[trigger] rom.skip(base)[j]
            == TERMINATOR) == (after.skip(base)[j] == TERMINATOR)) by {
            assert((rom[base + j] == TERMINATOR) == (after[base + j] == TERMINATOR));
        }
    }
    lemma_record_start_same(rom.skip(base), after.skip(base), (id - 1) as nat);
    let window_after = after.subrange(offset, end);
    assert forall|j: int| 0 <= j < name.len() implies window_after[j] != TERMINATOR by {
        assert(window_after[j] == name[j]);
    }
    if first_index_of(window, TERMINATOR) is Some {
        assert(window_after[name.len() as int] == window[name.len() as int]);
        lemma_first_index_of_is(window_after, TERMINATOR, name.len() as int);
    } else {
        lemma_first_index_of_none(window_after, TERMINATOR);
    }
    assert(text_part(window_after) =~= name);
}

/// A record that a prefix of a list has, the list has at the same place.
pub proof fn lemma_record_prefix(list: Seq<u8>, m: int, n: nat)
    requires
        0 <= m <= list.len(),
        spec_record_start(list.take(m), n) is Some,
    ensures
        spec_record_start(list, n) == spec_record_start(list.take(m), n),
    decreases n,
{
    if n > 0 {
        let head = list.take(m);
        lemma_first_index_of(head, TERMINATOR);
        let i = first_index_of(head, TERMINATOR)->Some_0;
        assert forall|j: int| 0 <= j < i implies list[j] != TERMINATOR by {
            assert(head[j] == list[j]);
        }
        assert(head[i] == list[i]);
        lemma_first_index_of_is(list, TERMINATOR, i);
        assert(head.skip(i + 1) =~= list.skip(i + 1).take(m - i - 1));
        lemma_record_prefix(list.skip(i + 1), m - i - 1, (n - 1) as nat);
    }
}

/// The name of an entry of a list whose range counts its terminators ends
/// before the list does.
#[verifier::rlimit(50)]
pub proof fn lemma_name_before_end(rom: Seq<u8>, base: int, end: u8, id: u8)
    requires
        0 <= base <= rom.len(),
        crate::ids::spec_name_list_bounds(rom, base, end) matches Some(bounds) && in_bounds(
            id,
            bounds,
        ),
    ensures
        spec_record_start(rom.skip(base), (id - 1) as nat) is Some,
        ({
            let offset = base + spec_record_start(rom.skip(base), (id - 1) as nat)->Some_0;
            offset + crate::names::spec_listed_name_at(rom, offset).len() < base + first_index_of(
                rom.skip(base),
                end,
            )->Some_0
        }),
{
    let list = rom.skip(base);
    let m = first_index_of(list, end)->Some_0;
    lemma_first_index_of(list, end);
    let head = list.take(m);
    assert(head =~= rom.subrange(base, base + m));
    lemma_record_found(head, id as nat);
    lemma_record_start_bounds(head, id as nat);
    lemma_record_prefix(list, m, id as nat);
    lemma_record_step(list, (id - 1) as nat);
    let a = spec_record_start(list, (id - 1) as nat)->Some_0;
    let b = spec_record_start(list, id as nat)->Some_0;
    let offset = base + a;
    let window = rom.subrange(offset, crate::names::spec_listed_window_end(rom, offset));
    lemma_first_index_of(window, TERMINATOR);
    if b - 1 - a < window.len() {
        assert(window[b - 1 - a] == list[b - 1]);
    }
}

/// The name of a trainer class, and of an item, reads back after the patch
/// that sets it.
///
/// For every image, every entry of the list, and every name of the length
/// of the old one that holds neither a terminator nor the byte that ends the
/// list: in the image that the patch makes, the entry has the name.
#[verifier::rlimit(50)]
pub proof fn listed_name_reads_back(rom: Seq<u8>, id: u8, name: Seq<u8>, trainer: bool)
    requires
        rom.len() >= ROM_SIZE,
        has_no_terminator(name),
        forall|i: int| 0 <= i < name.len() ==> name[i] != (if trainer { 0x21u8 } else { 0xD0u8 }),
        (if trainer {
            spec_set_trainer_name(rom, id, name)
        } else {
            spec_set_item_name(rom, id, name)
        }) is Ok,
    ensures
        ({
            let patch = (if trainer {
                spec_set_trainer_name(rom, id, name)
            } else {
                spec_set_item_name(rom, id, name)
            })->Ok_0;
            let after = spec_written(rom, patch.0, patch.1);
            if trainer {
                spec_get_trainer_name(after, id) == Ok::<Seq<u8>, Error>(name)
            } else {
                spec_get_item_name(after, id) == Ok::<Seq<u8>, Error>(name)
            }
        }),
{
    let base = if trainer { TRAINER_NAMES as int } else { ITEM_NAMES as int };
    let end = if trainer { 0x21u8 } else { 0xD0u8 };
    let patch = (if trainer {
        spec_set_trainer_name(rom, id, name)
    } else {
        spec_set_item_name(rom, id, name)
    })->Ok_0;
    let offset = patch.0;
    let after = spec_written(rom, offset, name);
    let list = rom.skip(base);
    let list_after = after.skip(base);
    let m = first_index_of(list, end)->Some_0;
    lemma_first_index_of(list, end);
    lemma_record_start_bounds(list, (id - 1) as nat);
    lemma_name_before_end(rom, base, end, id);
    lemma_listed_name_reads_back(rom, base, id, name, offset);
    lemma_written(rom, offset, name);
    // The list ends where it ended, and holds as many terminators.
    assert forall|j: int| 0 <= j < m implies list_after[j] != end by {
        assert(list[j] != end);
        assert(list_after[j] == after[base + j]);
        assert(list[j] == rom[base + j]);
    }
    assert(list_after[m] == after[base + m]);
    assert(list[m] == rom[base + m]);
    lemma_first_index_of_is(list_after, end, m);
    assert(same_places(rom.subrange(base, base + m), after.subrange(base, base + m), TERMINATOR))
        by {
        assert forall|j: int| 0 <= j < m implies ((#[trigger] rom.subrange(base, base + m)[j]
            == TERMINATOR) == (after.subrange(base, base + m)[j] == TERMINATOR)) by {
            assert((rom[base + j] == TERMINATOR) == (after[base + j] == TERMINATOR));
        }
    }
    lemma_count_same(rom.subrange(base, base + m), after.subrange(base, base + m), TERMINATOR);
}

/// The name of a move reads back after the patch that sets it.
///
/// For every image in which the table of the moves ends before their names
/// begin, every move of the image and every name of the length of the old
/// one that holds no terminator: in the image that the patch of
/// `set_move_name` makes, `get_move_name` gives the name.
#[verifier::rlimit(50)]
pub proof fn move_name_reads_back(rom: Seq<u8>, move_id: u8, name: Seq<u8>)
    requires
        rom.len() >= ROM_SIZE,
        has_no_terminator(name),
        spec_set_move_name(rom, move_id, name) is Ok,
        crate::ids::MOVE_STATS + 2 * crate::bytes::first_pair_of(
            rom.skip(crate::ids::MOVE_STATS as int),
            0x01,
            0x2D,
        )->Some_0 + 2 <= MOVE_NAMES,
    ensures
        ({
            let patch = spec_set_move_name(rom, move_id, name)->Ok_0;
            spec_get_move_name(spec_written(rom, patch.0, patch.1), move_id) == Ok::<
                Seq<u8>,
                Error,
            >(name)
        }),
{
    let base = MOVE_NAMES as int;
    let patch = spec_set_move_name(rom, move_id, name)->Ok_0;
    let offset = patch.0;
    let after = spec_written(rom, offset, name);
    let table = rom.skip(crate::ids::MOVE_STATS as int);
    let table_after = after.skip(crate::ids::MOVE_STATS as int);
    let i = crate::bytes::first_pair_of(table, 0x01, 0x2D)->Some_0;
    lemma_record_start_bounds(rom.skip(base), (move_id - 1) as nat);
    lemma_listed_name_reads_back(rom, base, move_id, name, offset);
    lemma_written(rom, offset, name);
    crate::bytes::lemma_first_pair_of(table, 0x01, 0x2D);
    crate::bytes::lemma_first_pair_of(table_after, 0x01, 0x2D);
    assert forall|j: int| 0 <= j <= i implies crate::bytes::pair_is(table_after, j, 0x01, 0x2D)
        == crate::bytes::pair_is(table, j, 0x01, 0x2D) by {
        assert(table_after[2 * j] == after[crate::ids::MOVE_STATS + 2 * j]);
        assert(table_after[2 * j + 1] == after[crate::ids::MOVE_STATS + 2 * j + 1]);
        assert(table[2 * j] == rom[crate::ids::MOVE_STATS + 2 * j]);
        assert(table[2 * j + 1] == rom[crate::ids::MOVE_STATS + 2 * j + 1]);
    }
    assert(crate::bytes::pair_is(table_after, i, 0x01, 0x2D));
    match crate::bytes::first_pair_of(table_after, 0x01, 0x2D) {
        Some(k) => {
            if k < i {
                assert(crate::bytes::pair_is(table, k, 0x01, 0x2D));
            }
            if k > i {
                assert(!crate::bytes::pair_is(table_after, i, 0x01, 0x2D));
            }
        },
        None => {
            assert(!crate::bytes::pair_is(table_after, i, 0x01, 0x2D));
        },
    }
}

/// A byte occurs in two buffers, one after the other, as often as in both.
pub proof fn lemma_count_of_concat(a: Seq<u8>, b: Seq<u8>, needle: u8)
    ensures
        crate::bytes::count_of(a + b, needle) == crate::bytes::count_of(a, needle)
            + crate::bytes::count_of(b, needle),
    decreases b.len(),
{
    if b.len() == 0 {
        assert(a + b =~= a);
    } else {
        lemma_count_of_concat(a, b.drop_last(), needle);
        assert((a + b).drop_last() =~= a + b.drop_last());
    }
}

/// A byte that a buffer does not hold occurs in it no times.
pub proof fn lemma_count_of_none(s: Seq<u8>, needle: u8)
    requires
        forall|j: int| 0 <= j < s.len() ==> s[j] != needle,
    ensures
        crate::bytes::count_of(s, needle) == 0,
    decreases s.len(),
{
    if s.len() > 0 {
        assert forall|j: int| 0 <= j < s.len() - 1 implies s.drop_last()[j] != needle by {
            assert(s.drop_last()[j] == s[j]);
        }
        lemma_count_of_none(s.drop_last(), needle);
    }
}

/// A list that holds `n` terminators or more has a record `n`: it starts
/// after the `n`-th terminator.
pub proof fn lemma_record_found(list: Seq<u8>, n: nat)
    requires
        crate::bytes::count_of(list, TERMINATOR) >= n,
    ensures
        spec_record_start(list, n) is Some,
    decreases n,
{
    if n > 0 {
        lemma_first_index_of(list, TERMINATOR);
        match first_index_of(list, TERMINATOR) {
            None => {
                lemma_count_of_none(list, TERMINATOR);
            },
            Some(i) => {
                let head = list.take(i);
                let rest = list.skip(i + 1);
                assert(head + seq![TERMINATOR] + rest =~= list);
                lemma_count_of_concat(head + seq![TERMINATOR], rest, TERMINATOR);
                lemma_count_of_concat(head, seq![TERMINATOR], TERMINATOR);
                lemma_count_of_none(head, TERMINATOR);
                let one = seq![TERMINATOR];
                assert(one.drop_last() =~= Seq::<u8>::empty());
                assert(one.last() == TERMINATOR);
                assert(crate::bytes::count_of(one.drop_last(), TERMINATOR) == 0);
                assert(crate::bytes::count_of(one, TERMINATOR) == 1);
                lemma_record_found(rest, (n - 1) as nat);
            },
        }
    }
}

/// Every name of the range is found. The ranges of the trainer classes and
/// of the items count the terminators of their lists, so each number of the
/// range has its name. The range of the moves counts the records of the
/// moves: each move of the range has its name where the list of the names
/// holds a terminator for each move before the last.
#[verifier::rlimit(50)]
pub proof fn listed_names_of_the_range_are_found(rom: Seq<u8>, id: u8)
    requires
        rom.len() >= ROM_SIZE,
    ensures
        spec_trainer_id_bounds(rom) matches Some(bounds) ==> (in_bounds(id, bounds)
            ==> spec_get_trainer_name(rom, id) is Ok),
        spec_item_id_bounds(rom) matches Some(bounds) ==> (in_bounds(id, bounds)
            ==> spec_get_item_name(rom, id) is Ok),
        spec_move_id_bounds(rom) matches Some(bounds) ==> (in_bounds(id, bounds)
            && crate::bytes::count_of(rom.skip(MOVE_NAMES as int), TERMINATOR) >= bounds.1 - 1
            ==> spec_get_move_name(rom, id) is Ok),
{
    if let Some(bounds) = spec_trainer_id_bounds(rom) {
        if in_bounds(id, bounds) {
            lemma_counted_record_found(rom, TRAINER_NAMES as int, 0x21, (id - 1) as nat);
        }
    }
    if let Some(bounds) = spec_item_id_bounds(rom) {
        if in_bounds(id, bounds) {
            lemma_counted_record_found(rom, ITEM_NAMES as int, 0xD0, (id - 1) as nat);
        }
    }
    if let Some(bounds) = spec_move_id_bounds(rom) {
        if in_bounds(id, bounds) && crate::bytes::count_of(
            rom.skip(MOVE_NAMES as int),
            TERMINATOR,
        ) >= bounds.1 - 1 {
            lemma_record_found(rom.skip(MOVE_NAMES as int), (id - 1) as nat);
        }
    }
}

/// A list whose range counts its terminators has a record for each number
/// below the count.
pub proof fn lemma_counted_record_found(rom: Seq<u8>, base: int, end: u8, n: nat)
    requires
        0 <= base <= rom.len(),
        crate::ids::spec_name_list_bounds(rom, base, end) matches Some(bounds) && n < bounds.1,
    ensures
        spec_record_start(rom.skip(base), n) is Some,
{
    let list = rom.skip(base);
    let m = first_index_of(list, end)->Some_0;
    lemma_first_index_of(list, end);
    assert(list.take(m) =~= rom.subrange(base, base + m));
    assert(list.take(m) + list.skip(m) =~= list);
    lemma_count_of_concat(list.take(m), list.skip(m), TERMINATOR);
    lemma_record_found(list, n);
}

/// A record after the first starts behind a terminator, and the record
/// before it starts before that terminator.
pub proof fn lemma_record_step(list: Seq<u8>, n: nat)
    requires
        spec_record_start(list, n + 1) is Some,
    ensures
        spec_record_start(list, n) is Some,
        ({
            let a = spec_record_start(list, n)->Some_0;
            let b = spec_record_start(list, n + 1)->Some_0;
            0 <= a < b <= list.len() && list[b - 1] == TERMINATOR
        }),
    decreases n,
{
    lemma_first_index_of(list, TERMINATOR);
    let i = first_index_of(list, TERMINATOR)->Some_0;
    let rest = list.skip(i + 1);
    lemma_record_start_bounds(rest, n);
    if n > 0 {
        lemma_record_step(rest, (n - 1) as nat);
        let b = spec_record_start(rest, n)->Some_0;
        assert(rest[b - 1] == list[i + b]);
    }
}

/// Between the starts of two records stands a terminator.
pub proof fn lemma_record_between(list: Seq<u8>, first: nat, second: nat)
    requires
        first < second,
        spec_record_start(list, second) is Some,
    ensures
        spec_record_start(list, first) is Some,
        ({
            let a = spec_record_start(list, first)->Some_0;
            let b = spec_record_start(list, second)->Some_0;
            0 <= a < b <= list.len() && exists|t: int| a <= t < b && list[t] == TERMINATOR
        }),
    decreases second - first,
{
    lemma_record_step(list, (second - 1) as nat);
    let b = spec_record_start(list, second)->Some_0;
    if first + 1 < second {
        lemma_record_between(list, first, (second - 1) as nat);
        let a = spec_record_start(list, first)->Some_0;
        assert(a <= b - 1 < b && list[b - 1] == TERMINATOR);
    } else {
        let a = spec_record_start(list, first)->Some_0;
        assert(a <= b - 1 < b && list[b - 1] == TERMINATOR);
    }
}

/// Two windows that hold the terminator at the same places, and the same
/// bytes before the first terminator, hold the same name.
pub proof fn lemma_text_part_same(a: Seq<u8>, b: Seq<u8>)
    requires
        same_places(a, b, TERMINATOR),
        forall|k: int|
            0 <= k < a.len() && (forall|j: int| 0 <= j <= k ==> a[j] != TERMINATOR) ==> a[k]
                == b[k],
    ensures
        text_part(a) == text_part(b),
{
    lemma_first_index_same(a, b, TERMINATOR);
    lemma_first_index_of(a, TERMINATOR);
    let end = match first_index_of(a, TERMINATOR) {
        Some(i) => i,
        None => a.len() as int,
    };
    assert forall|k: int| 0 <= k < end implies a[k] == b[k] by {
        assert forall|j: int| 0 <= j <= k implies a[j] != TERMINATOR by {}
    }
    assert(text_part(a) =~= text_part(b));
}

/// The other names of a list stay as they were when one is renamed: for
/// every list, every record `id` that is overwritten, within its name, by
/// bytes that hold no terminator, and every other record `other`, the
/// record `other` starts where it started and holds the name it held.
#[verifier::rlimit(50)]
pub proof fn lemma_other_listed_names_stay(
    rom: Seq<u8>,
    base: int,
    id: u8,
    other: u8,
    name: Seq<u8>,
    offset: int,
)
    requires
        0 <= base <= offset <= rom.len(),
        id >= 1,
        other >= 1,
        other != id,
        spec_record_start(rom.skip(base), (id - 1) as nat) == Some(offset - base),
        spec_record_start(rom.skip(base), (other - 1) as nat) is Some,
        name.len() == crate::names::spec_listed_name_at(rom, offset).len(),
        has_no_terminator(name),
    ensures
        ({
            let after = spec_written(rom, offset, name);
            let start = spec_record_start(rom.skip(base), (other - 1) as nat);
            &&& spec_record_start(after.skip(base), (other - 1) as nat) == start
            &&& crate::names::spec_listed_name_at(after, base + start->Some_0)
                == crate::names::spec_listed_name_at(rom, base + start->Some_0)
        }),
{
    let after = spec_written(rom, offset, name);
    let list = rom.skip(base);
    lemma_listed_name_reads_back(rom, base, id, name, offset);
    lemma_written(rom, offset, name);
    assert(same_places(list, after.skip(base), TERMINATOR)) by {
        assert forall|j: int| 0 <= j < list.len() implies ((#[trigger] list[j] == TERMINATOR) == (
        after.skip(base)[j] == TERMINATOR)) by {
            assert((rom[base + j] == TERMINATOR) == (after[base + j] == TERMINATOR));
        }
    }
    lemma_record_start_same(list, after.skip(base), (other - 1) as nat);
    let start = spec_record_start(list, (other - 1) as nat)->Some_0;
    lemma_record_start_bounds(list, (other - 1) as nat);
    let at = base + start;
    let end = crate::names::spec_listed_window_end(rom, at);
    let window = rom.subrange(at, end);
    let window_after = after.subrange(at, end);
    // The name that is overwritten holds no terminator.
    let own_end = crate::names::spec_listed_window_end(rom, offset);
    let own = rom.subrange(offset, own_end);
    lemma_first_index_of(own, TERMINATOR);
    assert forall|j: int| offset <= j < offset + name.len() implies rom[j] != TERMINATOR by {
        assert(own[j - offset] == rom[j]);
    }
    assert(same_places(window, window_after, TERMINATOR)) by {
        assert forall|k: int| 0 <= k < window.len() implies ((#[trigger] window[k] == TERMINATOR)
            == (window_after[k] == TERMINATOR)) by {
            assert((rom[at + k] == TERMINATOR) == (after[at + k] == TERMINATOR));
        }
    }
    if other < id {
        lemma_record_between(list, (other - 1) as nat, (id - 1) as nat);
        let t = choose|t: int| start <= t < offset - base && list[t] == TERMINATOR;
        assert(rom[base + t] == TERMINATOR);
        assert forall|k: int|
            0 <= k < window.len() && (forall|j: int| 0 <= j <= k ==> window[j] != TERMINATOR)
                implies window[k] == window_after[k] by {
            if at + k >= offset {
                assert(window[t - start] == rom[base + t]);
            }
        }
    } else {
        lemma_record_between(list, (id - 1) as nat, (other - 1) as nat);
        let t = choose|t: int| offset - base <= t < start && list[t] == TERMINATOR;
        assert(rom[base + t] == TERMINATOR);
        assert(base + t >= offset + name.len());
        assert forall|k: int|
            0 <= k < window.len() && (forall|j: int| 0 <= j <= k ==> window[j] != TERMINATOR)
                implies window[k] == window_after[k] by {}
    }
    lemma_text_part_same(window, window_after);
}

/// The names of the other trainer classes, and of the other items, stay as
/// they were when one is renamed: under what `listed_name_reads_back` asks,
/// every other number gives after the patch what it gave before.
#[verifier::rlimit(50)]
pub proof fn other_listed_names_stay(
    rom: Seq<u8>,
    id: u8,
    other: u8,
    name: Seq<u8>,
    trainer: bool,
)
    requires
        rom.len() >= ROM_SIZE,
        other != id,
        has_no_terminator(name),
        forall|i: int| 0 <= i < name.len() ==> name[i] != (if trainer { 0x21u8 } else { 0xD0u8 }),
        (if trainer {
            spec_set_trainer_name(rom, id, name)
        } else {
            spec_set_item_name(rom, id, name)
        }) is Ok,
    ensures
        ({
            let patch = (if trainer {
                spec_set_trainer_name(rom, id, name)
            } else {
                spec_set_item_name(rom, id, name)
            })->Ok_0;
            let after = spec_written(rom, patch.0, patch.1);
            if trainer {
                spec_get_trainer_name(after, other) == spec_get_trainer_name(rom, other)
            } else {
                spec_get_item_name(after, other) == spec_get_item_name(rom, other)
            }
        }),
{
    let base = if trainer { TRAINER_NAMES as int } else { ITEM_NAMES as int };
    let end = if trainer { 0x21u8 } else { 0xD0u8 };
    let patch = (if trainer {
        spec_set_trainer_name(rom, id, name)
    } else {
        spec_set_item_name(rom, id, name)
    })->Ok_0;
    let offset = patch.0;
    let after = spec_written(rom, offset, name);
    let list = rom.skip(base);
    let list_after = after.skip(base);
    let m = first_index_of(list, end)->Some_0;
    lemma_first_index_of(list, end);
    lemma_record_start_bounds(list, (id - 1) as nat);
    lemma_name_before_end(rom, base, end, id);
    lemma_listed_name_reads_back(rom, base, id, name, offset);
    lemma_written(rom, offset, name);
    // The list ends where it ended, and holds as many terminators.
    assert forall|j: int| 0 <= j < m implies list_after[j] != end by {
        assert(list[j] != end);
        assert(list_after[j] == after[base + j]);
        assert(list[j] == rom[base + j]);
    }
    assert(list_after[m] == after[base + m]);
    assert(list[m] == rom[base + m]);
    lemma_first_index_of_is(list_after, end, m);
    assert(same_places(rom.subrange(base, base + m), after.subrange(base, base + m), TERMINATOR))
        by {
        assert forall|j: int| 0 <= j < m implies ((#[trigger] rom.subrange(base, base + m)[j]
            == TERMINATOR) == (after.subrange(base, base + m)[j] == TERMINATOR)) by {
            assert((rom[base + j] == TERMINATOR) == (after[base + j] == TERMINATOR));
        }
    }
    lemma_count_same(rom.subrange(base, base + m), after.subrange(base, base + m), TERMINATOR);
    let bounds = crate::ids::spec_name_list_bounds(rom, base, end)->Some_0;
    if in_bounds(other, bounds) {
        lemma_counted_record_found(rom, base, end, (other - 1) as nat);
        lemma_other_listed_names_stay(rom, base, id, other, name, offset);
    }
}

/// Whether the bytes from `offset` on, `len` of them, are clear of what
/// leads to the encounters of a map: the pointers to the tables, with the
/// pair that ends them, the table of display numbers and the count of
/// species.
pub open spec fn clear_of_map_tables(rom: Seq<u8>, offset: int, len: int) -> bool {
    let end = offset + len;
    let pairs = crate::bytes::first_pair_of(
        rom.skip(crate::ids::MAP_POKEMON_POINTERS as int),
        0xFF,
        0xFF,
    )->Some_0;
    &&& end <= crate::ids::MAP_POKEMON_POINTERS || offset >= crate::ids::MAP_POKEMON_POINTERS + 2
        * pairs + 2
    &&& end <= crate::ids::POKEDEX_IDS || offset >= crate::ids::POKEDEX_IDS + 255
    &&& end <= crate::ids::INTERNAL_COUNT || offset > crate::ids::INTERNAL_COUNT
}

/// The byte that names a species in a record names that species.
pub proof fn lemma_species_reads_back(rom: Seq<u8>, pokedex_id: u8)
    requires
        rom.len() >= ROM_SIZE,
        crate::ids::spec_pokedex_id_to_species(rom, pokedex_id) is Ok,
    ensures
        crate::ids::spec_species_to_pokedex_id(
            rom,
            crate::ids::spec_pokedex_id_to_species(rom, pokedex_id)->Ok_0,
        ) == Some(pokedex_id),
{
    let table = spec_pokedex_table(rom);
    lemma_first_index_of(table, pokedex_id);
    let i = first_index_of(table, pokedex_id)->Some_0;
    let max = spec_internal_max(rom)->Some_0;
    assert(0 <= i < max && max < 255);
    assert(table[i] == rom[crate::ids::POKEDEX_IDS + i]);
    let internal_id = i as u8;
    let species = (internal_id + 1) as u8;
    assert(crate::ids::spec_pokedex_id_to_species(rom, pokedex_id) == Ok::<u8, Error>(species));
    assert((species - 1) as u8 == internal_id);
    assert(crate::ids::spec_internal_id_to_pokedex_id(rom, internal_id) == Ok::<u8, Error>(
        pokedex_id,
    ));
}

/// Pairs read back from the bytes that write them, in an image whose
/// species are those of the image they were written for.
pub proof fn lemma_pairs_read_back(
    rom: Seq<u8>,
    after: Seq<u8>,
    at: int,
    pairs: Seq<crate::encounters::MapPokemonInfo>,
)
    requires
        rom.len() >= ROM_SIZE,
        0 <= at,
        at + 2 * pairs.len() <= after.len(),
        crate::encounters::spec_encode_pairs(rom, pairs) is Ok,
        after.subrange(at, at + 2 * pairs.len()) == crate::encounters::spec_encode_pairs(
            rom,
            pairs,
        )->Ok_0,
        forall|b: u8| #[trigger]
            crate::ids::spec_species_to_pokedex_id(after, b)
                == crate::ids::spec_species_to_pokedex_id(rom, b),
    ensures
        crate::encounters::spec_decode_pairs(after, at, pairs.len()) == Some(pairs),
    decreases pairs.len(),
{
    if pairs.len() == 0 {
        assert(pairs =~= Seq::<crate::encounters::MapPokemonInfo>::empty());
    } else {
        let n = pairs.len();
        let head = pairs.drop_last();
        let last = pairs.last();
        let written = crate::encounters::spec_encode_pairs(rom, pairs)->Ok_0;
        let head_written = crate::encounters::spec_encode_pairs(rom, head)->Ok_0;
        crate::encounters::lemma_encoded_pairs_len(rom, head);
        let species = crate::ids::spec_pokedex_id_to_species(rom, last.pokedex_id)->Ok_0;
        assert(written == head_written.push(last.level).push(species));
        assert(after.subrange(at, at + 2 * head.len()) =~= head_written) by {
            assert forall|k: int| 0 <= k < 2 * head.len() implies after.subrange(
                at,
                at + 2 * head.len(),
            )[k] == head_written[k] by {
                assert(after.subrange(at, at + 2 * n)[k] == written[k]);
            }
        }
        lemma_pairs_read_back(rom, after, at, head);
        assert(after.subrange(at, at + 2 * n)[2 * (n - 1)] == after[at + 2 * (n - 1)]);
        assert(after.subrange(at, at + 2 * n)[2 * (n - 1) + 1] == after[at + 2 * (n - 1) + 1]);
        lemma_species_reads_back(rom, last.pokedex_id);
        assert(crate::ids::spec_species_to_pokedex_id(after, species)
            == crate::ids::spec_species_to_pokedex_id(rom, species));
        assert(head.push(last) =~= pairs);
    }
}

/// A table of encounters reads back from the bytes that write it.
pub proof fn lemma_area_reads_back(
    rom: Seq<u8>,
    after: Seq<u8>,
    at: int,
    area: crate::encounters::MapPokemonAreaView,
)
    requires
        rom.len() >= ROM_SIZE,
        0 <= at,
        crate::encounters::spec_encode_area(rom, area) matches Ok(written) && at + written.len()
            <= after.len() && after.subrange(at, at + written.len()) == written,
        forall|b: u8| #[trigger]
            crate::ids::spec_species_to_pokedex_id(after, b)
                == crate::ids::spec_species_to_pokedex_id(rom, b),
    ensures
        crate::encounters::spec_decode_area(after, at) == Some(area),
        crate::encounters::spec_area_size(after, at) == crate::encounters::spec_encode_area(
            rom,
            area,
        )->Ok_0.len(),
{
    let written = crate::encounters::spec_encode_area(rom, area)->Ok_0;
    assert(after.subrange(at, at + written.len())[0] == after[at]);
    if area.encounter_rate == 0 {
        assert(area.pokemon =~= Seq::<crate::encounters::MapPokemonInfo>::empty());
    } else {
        let pairs = crate::encounters::spec_encode_pairs(rom, area.pokemon)->Ok_0;
        crate::encounters::lemma_encoded_pairs_len(rom, area.pokemon);
        assert(after.subrange(at + 1, at + 1 + 2 * area.pokemon.len()) =~= pairs) by {
            assert forall|k: int| 0 <= k < pairs.len() implies after.subrange(
                at + 1,
                at + 1 + 2 * area.pokemon.len(),
            )[k] == pairs[k] by {
                assert(after.subrange(at, at + written.len())[1 + k] == written[1 + k]);
            }
        }
        lemma_pairs_read_back(rom, after, at + 1, area.pokemon);
    }
}

/// The encounters of a map read back after the patch that sets them.
///
/// For every image, every map and all encounters for which `set_map_pokemon`
/// gives a patch that is clear of what leads to the encounters: in the image
/// that the patch makes, `get_map_pokemon` gives the encounters, with both
/// rates and the order of the encounters kept.
#[verifier::rlimit(50)]
pub proof fn map_pokemon_read_back(
    rom: Seq<u8>,
    map_id: u8,
    map_pokemon: crate::encounters::MapPokemonView,
)
    requires
        rom.len() >= ROM_SIZE,
        crate::encounters::spec_set_map_pokemon(rom, map_id, map_pokemon) matches Ok(patch)
            && clear_of_map_tables(rom, patch.0, patch.1.len() as int),
    ensures
        ({
            let patch = crate::encounters::spec_set_map_pokemon(rom, map_id, map_pokemon)->Ok_0;
            let after = spec_written(rom, patch.0, patch.1);
            &&& after.len() == rom.len()
            &&& crate::encounters::spec_get_map_pokemon(after, map_id) == Ok::<
                crate::encounters::MapPokemonView,
                Error,
            >(map_pokemon)
        }),
{
    let patch = crate::encounters::spec_set_map_pokemon(rom, map_id, map_pokemon)->Ok_0;
    let at = patch.0;
    let data = patch.1;
    let after = spec_written(rom, at, data);
    let grass = crate::encounters::spec_encode_area(rom, map_pokemon.grass)->Ok_0;
    let water = crate::encounters::spec_encode_area(rom, map_pokemon.water)->Ok_0;
    assert(data == grass + water);
    crate::encounters::lemma_encoded_pairs_len(rom, map_pokemon.grass.pokemon);
    crate::encounters::lemma_encoded_pairs_len(rom, map_pokemon.water.pokemon);
    lemma_written(rom, at, data);
    // The range of the maps and the pointer of the map stay.
    let table = rom.skip(crate::ids::MAP_POKEMON_POINTERS as int);
    let table_after = after.skip(crate::ids::MAP_POKEMON_POINTERS as int);
    let i = crate::bytes::first_pair_of(table, 0xFF, 0xFF)->Some_0;
    crate::bytes::lemma_first_pair_of(table, 0xFF, 0xFF);
    crate::bytes::lemma_first_pair_of(table_after, 0xFF, 0xFF);
    assert forall|j: int| 0 <= j <= i implies crate::bytes::pair_is(table_after, j, 0xFF, 0xFF)
        == crate::bytes::pair_is(table, j, 0xFF, 0xFF) by {
        assert(table_after[2 * j] == after[crate::ids::MAP_POKEMON_POINTERS + 2 * j]);
        assert(table_after[2 * j + 1] == after[crate::ids::MAP_POKEMON_POINTERS + 2 * j + 1]);
        assert(table[2 * j] == rom[crate::ids::MAP_POKEMON_POINTERS + 2 * j]);
        assert(table[2 * j + 1] == rom[crate::ids::MAP_POKEMON_POINTERS + 2 * j + 1]);
    }
    assert(crate::bytes::pair_is(table_after, i, 0xFF, 0xFF));
    match crate::bytes::first_pair_of(table_after, 0xFF, 0xFF) {
        Some(k) => {
            if k < i {
                assert(crate::bytes::pair_is(table, k, 0xFF, 0xFF));
            }
            if k > i {
                assert(!crate::bytes::pair_is(table_after, i, 0xFF, 0xFF));
            }
        },
        None => {
            assert(!crate::bytes::pair_is(table_after, i, 0xFF, 0xFF));
        },
    }
    assert(crate::ids::spec_map_id_bounds(after) == crate::ids::spec_map_id_bounds(rom));
    assert(crate::encounters::spec_map_pokemon_offset(after, map_id) == at);
    // The species stay.
    assert(spec_internal_max(after) == spec_internal_max(rom));
    assert forall|b: u8| #[trigger]
        crate::ids::spec_species_to_pokedex_id(after, b)
            == crate::ids::spec_species_to_pokedex_id(rom, b) by {
        if b >= 1 && spec_internal_max(rom) is Some && b - 1 < spec_internal_max(rom)->Some_0 {
            assert(after[crate::ids::POKEDEX_IDS + (b - 1)] == rom[crate::ids::POKEDEX_IDS + (b
                - 1)]);
        }
    }
    // The two tables.
    assert(after.subrange(at, at + grass.len()) =~= grass);
    lemma_area_reads_back(rom, after, at, map_pokemon.grass);
    assert(after.subrange(at + grass.len(), at + grass.len() + water.len()) =~= water);
    lemma_area_reads_back(rom, after, at + grass.len(), map_pokemon.water);
}

/// The names of the other moves stay as they were when one is renamed:
/// under what `move_name_reads_back` asks, every other number gives after
/// the patch what it gave before.
#[verifier::rlimit(50)]
pub proof fn other_move_names_stay(rom: Seq<u8>, move_id: u8, other: u8, name: Seq<u8>)
    requires
        rom.len() >= ROM_SIZE,
        other != move_id,
        has_no_terminator(name),
        spec_set_move_name(rom, move_id, name) is Ok,
        crate::ids::MOVE_STATS + 2 * crate::bytes::first_pair_of(
            rom.skip(crate::ids::MOVE_STATS as int),
            0x01,
            0x2D,
        )->Some_0 + 2 <= MOVE_NAMES,
    ensures
        ({
            let patch = spec_set_move_name(rom, move_id, name)->Ok_0;
            let after = spec_written(rom, patch.0, patch.1);
            spec_get_move_name(after, other) == spec_get_move_name(rom, other)
        }),
{
    let base = MOVE_NAMES as int;
    let patch = spec_set_move_name(rom, move_id, name)->Ok_0;
    let offset = patch.0;
    let after = spec_written(rom, offset, name);
    let table = rom.skip(crate::ids::MOVE_STATS as int);
    let table_after = after.skip(crate::ids::MOVE_STATS as int);
    let i = crate::bytes::first_pair_of(table, 0x01, 0x2D)->Some_0;
    lemma_record_start_bounds(rom.skip(base), (move_id - 1) as nat);
    lemma_listed_name_reads_back(rom, base, move_id, name, offset);
    lemma_written(rom, offset, name);
    crate::bytes::lemma_first_pair_of(table, 0x01, 0x2D);
    crate::bytes::lemma_first_pair_of(table_after, 0x01, 0x2D);
    assert forall|j: int| 0 <= j <= i implies crate::bytes::pair_is(table_after, j, 0x01, 0x2D)
        == crate::bytes::pair_is(table, j, 0x01, 0x2D) by {
        assert(table_after[2 * j] == after[crate::ids::MOVE_STATS + 2 * j]);
        assert(table_after[2 * j + 1] == after[crate::ids::MOVE_STATS + 2 * j + 1]);
        assert(table[2 * j] == rom[crate::ids::MOVE_STATS + 2 * j]);
        assert(table[2 * j + 1] == rom[crate::ids::MOVE_STATS + 2 * j + 1]);
    }
    assert(crate::bytes::pair_is(table_after, i, 0x01, 0x2D));
    match crate::bytes::first_pair_of(table_after, 0x01, 0x2D) {
        Some(k) => {
            if k < i {
                assert(crate::bytes::pair_is(table, k, 0x01, 0x2D));
            }
            if k > i {
                assert(!crate::bytes::pair_is(table_after, i, 0x01, 0x2D));
            }
        },
        None => {
            assert(!crate::bytes::pair_is(table_after, i, 0x01, 0x2D));
        },
    }
    assert(spec_move_id_bounds(after) == spec_move_id_bounds(rom));
    assert(same_places(rom.skip(base), after.skip(base), TERMINATOR)) by {
        assert forall|j: int| 0 <= j < rom.len() - base implies ((#[trigger] rom.skip(base)[j]
            == TERMINATOR) == (after.skip(base)[j] == TERMINATOR)) by {
            assert((rom[base + j] == TERMINATOR) == (after[base + j] == TERMINATOR));
        }
    }
    if other >= 1 {
        lemma_record_start_same(rom.skip(base), after.skip(base), (other - 1) as nat);
        if spec_record_start(rom.skip(base), (other - 1) as nat) is Some {
            lemma_other_listed_names_stay(rom, base, move_id, other, name, offset);
        }
    }
}

} // verus!
