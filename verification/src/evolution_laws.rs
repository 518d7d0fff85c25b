//! Reading the evolutions of a species gives back the evolutions that were
//! written.

use crate::db::{spec_written, ROM_SIZE};
use crate::error::Error;
use crate::evolutions::{
    lemma_evolutions_width_push, spec_decode_evolutions, spec_encode_evolutions,
    spec_evolutions_offset, spec_evolutions_width, spec_get_pokemon_evolutions,
    spec_set_pokemon_evolutions, PokemonEvolution, EVOLUTION_POINTERS, EVOLUTION_SLOT,
};
use crate::ids::{
    spec_internal_max, spec_pokedex_id_to_internal_id, spec_pokedex_id_to_species,
    spec_pokedex_table, spec_species_to_pokedex_id, INTERNAL_COUNT, POKEDEX_IDS,
};
use crate::laws::{lemma_species_reads_back, lemma_written};
use crate::party_laws::same_species;
use vstd::prelude::*;

verus! {

/// Where reading the entries of a slot stops: at the end of the slot, or
/// at a zero tag.
pub proof fn lemma_decoded_stop(rom: Seq<u8>, data: Seq<u8>, i: int)
    requires
        0 <= i <= data.len(),
        spec_decode_evolutions(rom, data, i) is Some,
    ensures
        ({
            let stop = i + spec_evolutions_width(spec_decode_evolutions(rom, data, i)->Some_0);
            i <= stop <= data.len() && (stop == data.len() || data[stop] == 0)
        }),
    decreases data.len() - i,
{
    let found = spec_decode_evolutions(rom, data, i)->Some_0;
    if i < data.len() && data[i] != 0 {
        let width = crate::evolutions::spec_tag_width(data[i])->Some_0;
        let pokedex_id = spec_species_to_pokedex_id(rom, data[i + width - 1])->Some_0;
        let entry = crate::evolutions::spec_entry_at(data, i, pokedex_id);
        let rest = spec_decode_evolutions(rom, data, i + width)->Some_0;
        lemma_decoded_stop(rom, data, i + width);
        crate::evolutions::lemma_width_of_concat(seq![entry], rest);
        lemma_evolutions_width_push(Seq::empty(), entry);
        assert(Seq::<PokemonEvolution>::empty().push(entry) =~= seq![entry]);
    } else {
        assert(found =~= Seq::<PokemonEvolution>::empty());
    }
}

/// The bytes of entries are as many as the entries take.
pub proof fn lemma_encoded_evolutions_len(rom: Seq<u8>, evolutions: Seq<PokemonEvolution>)
    ensures
        spec_encode_evolutions(rom, evolutions) matches Ok(raw) ==> raw.len()
            == spec_evolutions_width(evolutions),
    decreases evolutions.len(),
{
    if evolutions.len() > 0 {
        lemma_encoded_evolutions_len(rom, evolutions.drop_last());
    }
}

/// Entries read back from the bytes that write them, with the entries that
/// follow them in the slot.
#[verifier::rlimit(50)]
pub proof fn lemma_evolutions_read_back(
    rom: Seq<u8>,
    after: Seq<u8>,
    slot: Seq<u8>,
    evolutions: Seq<PokemonEvolution>,
    i: int,
)
    requires
        rom.len() >= ROM_SIZE,
        same_species(rom, after),
        0 <= i,
        spec_encode_evolutions(rom, evolutions) matches Ok(raw) && i + raw.len() <= slot.len()
            && slot.subrange(i, i + raw.len()) == raw && spec_decode_evolutions(
            after,
            slot,
            i + raw.len(),
        ) is Some,
    ensures
        spec_decode_evolutions(after, slot, i) == Some(
            evolutions + spec_decode_evolutions(
                after,
                slot,
                i + spec_encode_evolutions(rom, evolutions)->Ok_0.len(),
            )->Some_0,
        ),
    decreases evolutions.len(),
{
    let raw = spec_encode_evolutions(rom, evolutions)->Ok_0;
    let rest = spec_decode_evolutions(after, slot, i + raw.len())->Some_0;
    if evolutions.len() == 0 {
        assert(evolutions + rest =~= rest);
    } else {
        let head = evolutions.drop_last();
        let last = evolutions.last();
        let head_raw = spec_encode_evolutions(rom, head)->Ok_0;
        let species = spec_pokedex_id_to_species(rom, last.spec_pokedex_id())->Ok_0;
        let last_raw = last.spec_to_raw(species);
        assert(raw == head_raw + last_raw);
        let at = i + head_raw.len();
        assert forall|k: int| 0 <= k < last_raw.len() implies slot[at + k] == last_raw[k] by {
            assert(slot.subrange(i, i + raw.len())[head_raw.len() + k] == slot[at + k]);
        }
        lemma_species_reads_back(rom, last.spec_pokedex_id());
        assert(spec_species_to_pokedex_id(after, species) == spec_species_to_pokedex_id(
            rom,
            species,
        ));
        assert(slot[at] == last_raw[0]);
        assert(slot[at + 1] == last_raw[1]);
        assert(slot[at + 2] == last_raw[2]);
        match last {
            PokemonEvolution::LEVEL(e) => {},
            PokemonEvolution::ITEM(e) => {
                assert(slot[at + 3] == last_raw[3]);
            },
            PokemonEvolution::TRADE(e) => {},
        }
        assert(spec_decode_evolutions(after, slot, at) == Some(seq![last] + rest));
        assert(slot.subrange(i, i + head_raw.len()) =~= head_raw) by {
            assert forall|k: int| 0 <= k < head_raw.len() implies slot.subrange(
                i,
                i + head_raw.len(),
            )[k] == head_raw[k] by {
                assert(slot.subrange(i, i + raw.len())[k] == raw[k]);
            }
        }
        lemma_evolutions_read_back(rom, after, slot, head, i);
        assert(head + (seq![last] + rest) =~= evolutions + rest);
    }
}

/// Whether the bytes from `offset` on, `len` of them, are clear of what
/// leads to the evolutions of a species: the pointers to the slots, the
/// table of display numbers and the count of species.
pub open spec fn clear_of_evolution_tables(offset: int, len: int) -> bool {
    let end = offset + len;
    &&& end <= EVOLUTION_POINTERS || offset >= EVOLUTION_POINTERS + 512
    &&& end <= POKEDEX_IDS || offset >= POKEDEX_IDS + 255
    &&& end <= INTERNAL_COUNT || offset > INTERNAL_COUNT
}

/// The evolutions of a species read back after the patch that sets them.
///
/// For every image, every species and all evolutions for which
/// `set_pokemon_evolutions` gives a patch that is clear of what leads to the
/// evolutions: in the image that the patch makes, `get_pokemon_evolutions`
/// gives the evolutions.
#[verifier::rlimit(80)]
pub proof fn pokemon_evolutions_read_back(
    rom: Seq<u8>,
    pokedex_id: u8,
    evolutions: Seq<PokemonEvolution>,
)
    requires
        rom.len() >= ROM_SIZE,
        spec_set_pokemon_evolutions(rom, pokedex_id, evolutions) matches Ok(patch)
            && clear_of_evolution_tables(patch.0, patch.1.len() as int),
    ensures
        ({
            let patch = spec_set_pokemon_evolutions(rom, pokedex_id, evolutions)->Ok_0;
            let after = spec_written(rom, patch.0, patch.1);
            &&& after.len() == rom.len()
            &&& spec_get_pokemon_evolutions(after, pokedex_id) == Ok::<
                Seq<PokemonEvolution>,
                Error,
            >(evolutions)
        }),
{
    let patch = spec_set_pokemon_evolutions(rom, pokedex_id, evolutions)->Ok_0;
    let at = patch.0;
    let data = patch.1;
    let internal_id = spec_pokedex_id_to_internal_id(rom, pokedex_id)->Ok_0;
    let slot = rom.subrange(at, at + EVOLUTION_SLOT);
    let old = spec_decode_evolutions(rom, slot, 0)->Some_0;
    lemma_decoded_stop(rom, slot, 0);
    lemma_encoded_evolutions_len(rom, evolutions);
    let width = data.len() as int;
    assert(width == spec_evolutions_width(old));
    let after = spec_written(rom, at, data);
    lemma_written(rom, at, data);
    // The species and the pointer stay.
    crate::bytes::lemma_first_index_of(spec_pokedex_table(rom), pokedex_id);
    assert(spec_internal_max(after) == spec_internal_max(rom));
    assert(spec_pokedex_table(after) =~= spec_pokedex_table(rom));
    assert(crate::ids::spec_pokedex_id_bounds(after) == crate::ids::spec_pokedex_id_bounds(rom));
    assert(spec_pokedex_id_to_internal_id(after, pokedex_id) == Ok::<u8, Error>(internal_id));
    assert forall|b: u8| #[trigger]
        spec_species_to_pokedex_id(after, b) == spec_species_to_pokedex_id(rom, b) by {
        if b >= 1 && spec_internal_max(rom) is Some && b - 1 < spec_internal_max(rom)->Some_0 {
            assert(after[POKEDEX_IDS + (b - 1)] == rom[POKEDEX_IDS + (b - 1)]);
        }
    }
    assert(spec_evolutions_offset(after, internal_id) == at);
    // The slot holds the new entries, and ends as it ended.
    let slot_after = after.subrange(at, at + EVOLUTION_SLOT);
    assert(slot_after.subrange(0, width) =~= data);
    if width < EVOLUTION_SLOT {
        assert(slot_after[width] == slot[width]);
    }
    assert(spec_decode_evolutions(after, slot_after, width) == Some(
        Seq::<PokemonEvolution>::empty(),
    ));
    lemma_evolutions_read_back(rom, after, slot_after, evolutions, 0);
    assert(evolutions + Seq::<PokemonEvolution>::empty() =~= evolutions);
}

} // verus!
