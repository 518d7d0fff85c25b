//! Reading the parties of a trainer class gives back the parties that were
//! written.

use crate::bytes::{first_index_of, lemma_first_index_of, lemma_first_index_of_is};
use crate::db::{spec_written, ROM_SIZE};
use crate::error::Error;
use crate::ids::{
    spec_internal_max, spec_pokedex_id_to_species, spec_species_to_pokedex_id,
    spec_trainer_id_bounds, INTERNAL_COUNT, POKEDEX_IDS, TRAINER_NAMES,
};
use crate::laws::{lemma_species_reads_back, lemma_written};
use crate::parties::{
    lemma_encoded_members_len, spec_decode_parties, spec_decode_party, spec_encode_members,
    spec_encode_parties, spec_encode_party, spec_get_trainer_parties, spec_members_different,
    spec_members_same, spec_parties_offset, spec_parties_size, spec_parties_width,
    spec_set_trainer_parties, PartyLevelType, PartyPokemon, PartyView, PARTY_DIFFERENT,
    TRAINER_PARTY_POINTERS,
};
use vstd::prelude::*;

verus! {

/// Whether the bytes of two images name the same species.
pub open spec fn same_species(rom: Seq<u8>, after: Seq<u8>) -> bool {
    forall|b: u8| #[trigger] spec_species_to_pokedex_id(after, b) == spec_species_to_pokedex_id(rom, b)
}

/// Whether `bytes` hold no zero.
pub open spec fn has_no_zero(bytes: Seq<u8>) -> bool {
    forall|k: int| 0 <= k < bytes.len() ==> bytes[k] != 0
}

/// The bytes of members whose levels are not zero hold no zero.
pub proof fn lemma_members_hold_no_zero(rom: Seq<u8>, members: Seq<PartyPokemon>, with_levels: bool)
    requires
        rom.len() >= ROM_SIZE,
        spec_encode_members(rom, members, with_levels) is Ok,
        forall|k: int| 0 <= k < members.len() ==> (#[trigger] members[k]).level != 0,
    ensures
        has_no_zero(spec_encode_members(rom, members, with_levels)->Ok_0),
    decreases members.len(),
{
    if members.len() > 0 {
        let head = members.drop_last();
        assert forall|k: int| 0 <= k < head.len() implies (#[trigger] head[k]).level != 0 by {
            assert(head[k] == members[k]);
        }
        lemma_members_hold_no_zero(rom, head, with_levels);
        let last = members.last();
        assert(members[members.len() - 1].level != 0);
        lemma_species_reads_back(rom, last.pokedex_id);
    }
}

/// Members that share a level read back from the bytes that write them.
pub proof fn lemma_members_same_read_back(
    rom: Seq<u8>,
    after: Seq<u8>,
    level: u8,
    members: Seq<PartyPokemon>,
)
    requires
        rom.len() >= ROM_SIZE,
        same_species(rom, after),
        spec_encode_members(rom, members, false) is Ok,
        forall|k: int| 0 <= k < members.len() ==> (#[trigger] members[k]).level == level,
    ensures
        spec_members_same(after, level, spec_encode_members(rom, members, false)->Ok_0) == Some(
            members,
        ),
    decreases members.len(),
{
    if members.len() == 0 {
        assert(members =~= Seq::<PartyPokemon>::empty());
    } else {
        let head = members.drop_last();
        let last = members.last();
        let written = spec_encode_members(rom, members, false)->Ok_0;
        let head_written = spec_encode_members(rom, head, false)->Ok_0;
        let species = spec_pokedex_id_to_species(rom, last.pokedex_id)->Ok_0;
        assert forall|k: int| 0 <= k < head.len() implies (#[trigger] head[k]).level == level by {
            assert(head[k] == members[k]);
        }
        lemma_members_same_read_back(rom, after, level, head);
        assert(written == head_written.push(species));
        assert(written.drop_last() =~= head_written);
        lemma_species_reads_back(rom, last.pokedex_id);
        assert(spec_species_to_pokedex_id(after, species) == spec_species_to_pokedex_id(
            rom,
            species,
        ));
        assert(members[members.len() - 1].level == level);
        assert(head.push(last) =~= members);
    }
}

/// Members with a level each read back from the bytes that write them.
pub proof fn lemma_members_different_read_back(
    rom: Seq<u8>,
    after: Seq<u8>,
    pairs: Seq<u8>,
    members: Seq<PartyPokemon>,
)
    requires
        rom.len() >= ROM_SIZE,
        same_species(rom, after),
        spec_encode_members(rom, members, true) is Ok,
        2 * members.len() <= pairs.len(),
        pairs.take(2 * (members.len() as int)) == spec_encode_members(rom, members, true)->Ok_0,
    ensures
        spec_members_different(after, pairs, members.len()) == Some(members),
    decreases members.len(),
{
    if members.len() == 0 {
        assert(members =~= Seq::<PartyPokemon>::empty());
    } else {
        let n = members.len() as int;
        let head = members.drop_last();
        let last = members.last();
        let written = spec_encode_members(rom, members, true)->Ok_0;
        let head_written = spec_encode_members(rom, head, true)->Ok_0;
        let species = spec_pokedex_id_to_species(rom, last.pokedex_id)->Ok_0;
        lemma_encoded_members_len(rom, head, true);
        assert(written == head_written.push(last.level).push(species));
        assert(pairs.take(2 * (head.len() as int)) =~= head_written) by {
            assert forall|k: int| 0 <= k < 2 * head.len() implies pairs.take(2 * (head.len() as int))[k]
                == head_written[k] by {
                assert(pairs.take(2 * n)[k] == written[k]);
            }
        }
        lemma_members_different_read_back(rom, after, pairs, head);
        assert(pairs.take(2 * n)[2 * (n - 1)] == pairs[2 * (n - 1)]);
        assert(pairs.take(2 * n)[2 * (n - 1) + 1] == pairs[2 * (n - 1) + 1]);
        lemma_species_reads_back(rom, last.pokedex_id);
        assert(spec_species_to_pokedex_id(after, species) == spec_species_to_pokedex_id(
            rom,
            species,
        ));
        assert(head.push(last) =~= members);
    }
}

/// A party that can be written reads back from its bytes: they are a body
/// without a zero and a closing zero, and the body holds the party.
pub proof fn lemma_party_reads_back(rom: Seq<u8>, after: Seq<u8>, party: PartyView, index: int)
    requires
        rom.len() >= ROM_SIZE,
        same_species(rom, after),
        spec_encode_party(rom, party, index) is Ok,
    ensures
        ({
            let raw = spec_encode_party(rom, party, index)->Ok_0;
            let body = raw.drop_last();
            &&& raw.len() >= 2
            &&& raw.last() == 0
            &&& has_no_zero(body)
            &&& spec_decode_party(after, body) == Some(party)
        }),
{
    let with_levels = party.level_type == PartyLevelType::DIFFERENT;
    let members = spec_encode_members(rom, party.pokemon, with_levels)->Ok_0;
    let head: u8 = if with_levels {
        PARTY_DIFFERENT
    } else {
        party.pokemon[0].level
    };
    let raw = spec_encode_party(rom, party, index)->Ok_0;
    let body = raw.drop_last();
    assert(raw == seq![head] + members + seq![0u8]);
    assert(body =~= seq![head] + members);
    assert(body.skip(1) =~= members);
    lemma_encoded_members_len(rom, party.pokemon, with_levels);
    lemma_members_hold_no_zero(rom, party.pokemon, with_levels);
    assert(party.pokemon[0].level != 0);
    assert forall|k: int| 0 <= k < body.len() implies body[k] != 0 by {
        if k > 0 {
            assert(body[k] == members[k - 1]);
        }
    }
    if with_levels {
        assert(members.take(2 * (party.pokemon.len() as int)) =~= members);
        lemma_members_different_read_back(rom, after, members, party.pokemon);
        assert((body.len() - 1) / 2 == party.pokemon.len());
    } else {
        lemma_members_same_read_back(rom, after, head, party.pokemon);
    }
    match party.level_type {
        PartyLevelType::SAME => {},
        PartyLevelType::DIFFERENT => {},
    }
}

/// Reading parties takes the first party up to its closing zero, and goes
/// on behind it.
pub proof fn lemma_decode_parties_cons(after: Seq<u8>, body: Seq<u8>, rest: Seq<u8>)
    requires
        has_no_zero(body),
    ensures
        spec_decode_parties(after, body + seq![0u8] + rest) == match spec_decode_party(
            after,
            body,
        ) {
            None => None::<Seq<PartyView>>,
            Some(party) => match spec_decode_parties(after, rest) {
                None => None,
                Some(parties) => Some(seq![party] + parties),
            },
        },
{
    let data = body + seq![0u8] + rest;
    assert(data[body.len() as int] == 0);
    assert forall|j: int| 0 <= j < body.len() implies data[j] != 0 by {
        assert(data[j] == body[j]);
    }
    lemma_first_index_of_is(data, 0, body.len() as int);
    assert(data.take(body.len() as int) =~= body);
    assert(data.skip(body.len() as int + 1) =~= rest);
}

/// A party that can be written reads back from its bytes, with the
/// parties that follow it.
pub proof fn lemma_party_then_tail(
    rom: Seq<u8>,
    after: Seq<u8>,
    party: PartyView,
    index: int,
    tail: Seq<u8>,
)
    requires
        rom.len() >= ROM_SIZE,
        same_species(rom, after),
        spec_encode_party(rom, party, index) is Ok,
        spec_decode_parties(after, tail) is Some,
    ensures
        spec_decode_parties(after, spec_encode_party(rom, party, index)->Ok_0 + tail) == Some(
            seq![party] + spec_decode_parties(after, tail)->Some_0,
        ),
{
    let raw = spec_encode_party(rom, party, index)->Ok_0;
    lemma_party_reads_back(rom, after, party, index);
    let body = raw.drop_last();
    assert(raw =~= body + seq![0u8]);
    lemma_decode_parties_cons(after, body, tail);
    assert(raw + tail =~= body + seq![0u8] + tail);
}

/// Parties that can be written read back from their bytes, whatever
/// parties follow them.
#[verifier::rlimit(50)]
pub proof fn lemma_parties_read_back(
    rom: Seq<u8>,
    after: Seq<u8>,
    parties: Seq<PartyView>,
    tail: Seq<u8>,
)
    requires
        rom.len() >= ROM_SIZE,
        same_species(rom, after),
        spec_encode_parties(rom, parties) is Ok,
        spec_decode_parties(after, tail) is Some,
    ensures
        spec_decode_parties(after, spec_encode_parties(rom, parties)->Ok_0 + tail) == Some(
            parties + spec_decode_parties(after, tail)->Some_0,
        ),
    decreases parties.len(),
{
    let rest = spec_decode_parties(after, tail)->Some_0;
    let data = spec_encode_parties(rom, parties)->Ok_0;
    if parties.len() == 0 {
        assert(data + tail =~= tail);
        assert(parties + rest =~= rest);
    } else {
        let head = parties.drop_last();
        let last = parties.last();
        let head_data = spec_encode_parties(rom, head)->Ok_0;
        let raw = spec_encode_party(rom, last, parties.len() - 1)->Ok_0;
        assert(data == head_data + raw);
        lemma_party_then_tail(rom, after, last, parties.len() - 1, tail);
        lemma_parties_read_back(rom, after, head, raw + tail);
        assert(data + tail =~= head_data + (raw + tail));
        assert(head + (seq![last] + rest) =~= parties + rest);
    }
}

/// Whether the bytes from `offset` on, `len` of them, are clear of what
/// leads to the parties of a trainer class: the names of the classes up to
/// the end of their list, the pointers to the parties, the table of display
/// numbers and the count of species.
pub open spec fn clear_of_trainer_tables(rom: Seq<u8>, offset: int, len: int) -> bool {
    let end = offset + len;
    let names_end = TRAINER_NAMES + first_index_of(rom.skip(TRAINER_NAMES as int), 0x21)->Some_0;
    &&& end <= TRAINER_NAMES || offset > names_end
    &&& end <= TRAINER_PARTY_POINTERS || offset >= TRAINER_PARTY_POINTERS + 512
    &&& end <= POKEDEX_IDS || offset >= POKEDEX_IDS + 255
    &&& end <= INTERNAL_COUNT || offset > INTERNAL_COUNT
}

/// The parties of a trainer class read back after the patch that sets them.
///
/// For every image, every class whose old parties fill the bytes they take,
/// and all parties for which `set_trainer_parties` gives a patch that is
/// clear of what leads to the parties: in the image that the patch makes,
/// `get_trainer_parties` gives the parties.
#[verifier::rlimit(80)]
pub proof fn trainer_parties_read_back(rom: Seq<u8>, trainer_id: u8, parties: Seq<PartyView>)
    requires
        rom.len() >= ROM_SIZE,
        spec_set_trainer_parties(rom, trainer_id, parties) matches Ok(patch)
            && clear_of_trainer_tables(rom, patch.0, patch.1.len() as int),
        spec_parties_width(spec_get_trainer_parties(rom, trainer_id)->Ok_0) == spec_parties_size(
            rom,
            trainer_id,
            spec_trainer_id_bounds(rom)->Some_0.1 as int,
        )->Some_0,
    ensures
        ({
            let patch = spec_set_trainer_parties(rom, trainer_id, parties)->Ok_0;
            let after = spec_written(rom, patch.0, patch.1);
            &&& after.len() == rom.len()
            &&& spec_get_trainer_parties(after, trainer_id) == Ok::<Seq<PartyView>, Error>(
                parties,
            )
        }),
{
    let patch = spec_set_trainer_parties(rom, trainer_id, parties)->Ok_0;
    let start = patch.0;
    let data = patch.1;
    let bounds = spec_trainer_id_bounds(rom)->Some_0;
    let max = bounds.1 as int;
    let size = spec_parties_size(rom, trainer_id, max)->Some_0;
    let old = spec_get_trainer_parties(rom, trainer_id)->Ok_0;
    crate::parties::lemma_encoded_parties_len(rom, parties);
    assert(data.len() == size);
    if trainer_id == max {
        lemma_first_index_of(rom.skip(start), 0);
    }
    assert(start + size <= rom.len());
    let region = rom.subrange(start, start + size);
    let after = spec_written(rom, start, data);
    lemma_written(rom, start, data);
    // The range of the classes stays.
    let base = TRAINER_NAMES as int;
    let list = rom.skip(base);
    let list_after = after.skip(base);
    let m = first_index_of(list, 0x21)->Some_0;
    lemma_first_index_of(list, 0x21);
    assert forall|j: int| 0 <= j <= m implies list_after[j] == list[j] by {
        assert(list_after[j] == after[base + j]);
        assert(list[j] == rom[base + j]);
    }
    lemma_first_index_of_is(list_after, 0x21, m);
    assert(after.subrange(base, base + m) =~= rom.subrange(base, base + m));
    assert(spec_trainer_id_bounds(after) == spec_trainer_id_bounds(rom));
    // The species stay.
    assert(spec_internal_max(after) == spec_internal_max(rom));
    assert forall|b: u8| #[trigger]
        spec_species_to_pokedex_id(after, b) == spec_species_to_pokedex_id(rom, b) by {
        if b >= 1 && spec_internal_max(rom) is Some && b - 1 < spec_internal_max(rom)->Some_0 {
            assert(after[POKEDEX_IDS + (b - 1)] == rom[POKEDEX_IDS + (b - 1)]);
        }
    }
    // The parties stand where they stood, and take the bytes they took.
    assert(spec_parties_offset(after, trainer_id) == start);
    if trainer_id == max {
        // The last class has one party: its bytes end at their first zero.
        let i = first_index_of(rom.skip(start), 0)->Some_0;
        assert forall|j: int| 0 <= j < i implies region[j] != 0 by {
            assert(region[j] == rom.skip(start)[j]);
        }
        assert(region[i] == rom.skip(start)[i]);
        lemma_first_index_of_is(region, 0, i);
        assert(region.skip(i + 1) =~= Seq::<u8>::empty());
        assert(spec_decode_parties(rom, region.skip(i + 1)) == Some(
            Seq::<PartyView>::empty(),
        ));
        assert(spec_decode_parties(rom, region) == Some(old));
        let first = spec_decode_party(rom, region.take(i))->Some_0;
        assert(old =~= seq![first] + Seq::<PartyView>::empty());
        assert(old.len() == 1);
        assert(parties.len() == 1);
        let party = parties[0];
        assert(parties.drop_last() =~= Seq::<PartyView>::empty());
        assert(parties.last() == party);
        assert(spec_encode_parties(rom, parties.drop_last()) == Ok::<Seq<u8>, Error>(
            Seq::empty(),
        ));
        lemma_party_reads_back(rom, after, party, 0);
        let raw = spec_encode_party(rom, party, 0)->Ok_0;
        assert(data == Seq::<u8>::empty() + raw);
        assert(data =~= raw);
        let rest_after = after.skip(start);
        assert forall|j: int| 0 <= j < data.len() - 1 implies rest_after[j] != 0 by {
            assert(rest_after[j] == data[j]);
            assert(raw.drop_last()[j] == raw[j]);
        }
        assert(rest_after[data.len() - 1] == data[data.len() - 1]);
        lemma_first_index_of_is(rest_after, 0, data.len() - 1);
    }
    assert(spec_parties_size(after, trainer_id, max) == Some(size));
    assert(after.subrange(start, start + size) =~= data);
    assert(spec_decode_parties(after, Seq::<u8>::empty()) == Some(Seq::<PartyView>::empty()));
    lemma_parties_read_back(rom, after, parties, Seq::empty());
    assert(data + Seq::<u8>::empty() =~= data);
    assert(parties + Seq::<PartyView>::empty() =~= parties);
}

} // verus!
