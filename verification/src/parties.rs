//! The parties of a trainer class: lists of species with their levels, one
//! party after another, each closed by a zero.
//!
//! A party in which all have one level begins with that level and lists the
//! species. A party with a level for each begins with `0xFF` and lists pairs
//! of a level and a species.

use crate::bytes::{append_range, spec_shown, copy_range, find_byte, first_index_of, lemma_first_index_of,
    spec_u16_at, u16_at};
use crate::db::{PkmnapiDB, ROM_PAGE};
use crate::error::Error;
use crate::ids::{
    spec_pokedex_id_to_species, spec_species_to_pokedex_id, spec_trainer_id_bounds,
    spec_validated,
};
use crate::names::{patch_is, spec_trainer_id_invalid};
use crate::patch::Patch;
use vstd::prelude::*;

verus! {

/// Where the pointers to the parties stand, one for each trainer class.
pub const TRAINER_PARTY_POINTERS: usize = ROM_PAGE * 0x1C + 0x1D3B;

/// The bank that the pointers point into.
pub const TRAINER_PARTIES_BANK: usize = ROM_PAGE * 0x1A;

/// The byte that begins a party with a level for each of its members.
pub const PARTY_DIFFERENT: u8 = 0xFF;

/// Whether the members of a party share one level.
#[derive(Debug, Clone, Copy, PartialEq, Eq, Structural)]
pub enum PartyLevelType {
    SAME,
    DIFFERENT,
}

/// A member of a party: a species at a level.
#[derive(Debug, Clone, Copy, PartialEq, Eq, Structural)]
pub struct PartyPokemon {
    pub level: u8,
    pub pokedex_id: u8,
}

impl PartyPokemon {
    /// The member of the species `pokedex_id` at the level `level`.
    pub fn new(level: u8, pokedex_id: u8) -> (r: PartyPokemon)
        ensures
            r == (PartyPokemon { level, pokedex_id }),
    {
        PartyPokemon { level, pokedex_id }
    }
}

/// A party.
#[derive(Debug, PartialEq)]
pub struct Party {
    pub level_type: PartyLevelType,
    pub pokemon: Vec<PartyPokemon>,
}

/// A party as a plain value.
pub struct PartyView {
    pub level_type: PartyLevelType,
    pub pokemon: Seq<PartyPokemon>,
}

impl View for Party {
    type V = PartyView;

    open spec fn view(&self) -> PartyView {
        PartyView { level_type: self.level_type, pokemon: self.pokemon@ }
    }
}

/// The parties in `parties` as plain values.
pub open spec fn parties_view(parties: Seq<Party>) -> Seq<PartyView> {
    parties.map_values(|p: Party| p@)
}

/// The members that the bytes `species` name, all at the level `level`;
/// none where a byte names no species of the image.
pub open spec fn spec_members_same(rom: Seq<u8>, level: u8, species: Seq<u8>) -> Option<
    Seq<PartyPokemon>,
>
    decreases species.len(),
{
    if species.len() == 0 {
        Some(Seq::empty())
    } else {
        match spec_members_same(rom, level, species.drop_last()) {
            None => None,
            Some(members) => match spec_species_to_pokedex_id(rom, species.last()) {
                None => None,
                Some(pokedex_id) => Some(members.push(PartyPokemon { level, pokedex_id })),
            },
        }
    }
}

/// The first `n` members that the pairs in `pairs` name; none where a pair
/// names no species of the image.
pub open spec fn spec_members_different(rom: Seq<u8>, pairs: Seq<u8>, n: nat) -> Option<
    Seq<PartyPokemon>,
>
    recommends
        2 * n <= pairs.len(),
    decreases n,
{
    if n == 0 {
        Some(Seq::empty())
    } else {
        match spec_members_different(rom, pairs, (n - 1) as nat) {
            None => None,
            Some(members) => match spec_species_to_pokedex_id(rom, pairs[2 * (n - 1) + 1]) {
                None => None,
                Some(pokedex_id) => Some(
                    members.push(PartyPokemon { level: pairs[2 * (n - 1)], pokedex_id }),
                ),
            },
        }
    }
}

/// The party that the bytes `body` hold, the closing zero left out. No
/// bytes hold no party, nor do pairs with a byte left over.
pub open spec fn spec_decode_party(rom: Seq<u8>, body: Seq<u8>) -> Option<PartyView> {
    if body.len() == 0 {
        None
    } else if body[0] == PARTY_DIFFERENT {
        if (body.len() - 1) % 2 != 0 {
            None
        } else {
            match spec_members_different(rom, body.skip(1), ((body.len() - 1) / 2) as nat) {
                None => None,
                Some(pokemon) => Some(
                    PartyView { level_type: PartyLevelType::DIFFERENT, pokemon },
                ),
            }
        }
    } else {
        match spec_members_same(rom, body[0], body.skip(1)) {
            None => None,
            Some(pokemon) => Some(PartyView { level_type: PartyLevelType::SAME, pokemon }),
        }
    }
}

/// The parties that the bytes `data` hold: each runs to the next zero, the
/// last to the end of `data` where no zero closes it.
pub open spec fn spec_decode_parties(rom: Seq<u8>, data: Seq<u8>) -> Option<Seq<PartyView>>
    decreases data.len(),
{
    if data.len() == 0 {
        Some(Seq::empty())
    } else {
        match first_index_of(data, 0) {
            None => match spec_decode_party(rom, data) {
                None => None,
                Some(party) => Some(seq![party]),
            },
            Some(i) => if 0 <= i < data.len() {
                match spec_decode_party(rom, data.take(i)) {
                    None => None,
                    Some(party) => match spec_decode_parties(rom, data.skip(i + 1)) {
                        None => None,
                        Some(rest) => Some(seq![party] + rest),
                    },
                }
            } else {
                None
            },
        }
    }
}

/// Where the parties of the trainer class `trainer_id` stand.
pub open spec fn spec_parties_offset(rom: Seq<u8>, trainer_id: u8) -> int
    recommends
        trainer_id >= 1,
{
    TRAINER_PARTIES_BANK + spec_u16_at(rom, TRAINER_PARTY_POINTERS + (trainer_id - 1) * 2)
}

/// How many bytes the parties of the trainer class `trainer_id` take: up
/// to where the parties of the next class stand; for the last class, up to
/// the first zero. There is no such number where the next class stands
/// before this one, or the last class has no zero.
pub open spec fn spec_parties_size(rom: Seq<u8>, trainer_id: u8, max_id: int) -> Option<int>
    recommends
        trainer_id >= 1,
{
    let start = spec_parties_offset(rom, trainer_id);
    if trainer_id == max_id {
        match first_index_of(rom.skip(start), 0) {
            Some(i) => Some(i + 1),
            None => None,
        }
    } else {
        let end = TRAINER_PARTIES_BANK + spec_u16_at(rom, TRAINER_PARTY_POINTERS + trainer_id * 2);
        if end < start {
            None
        } else {
            Some(end - start)
        }
    }
}

/// The parties of the trainer class `trainer_id`. A class whose parties
/// take no bytes has none.
pub open spec fn spec_get_trainer_parties(rom: Seq<u8>, trainer_id: u8) -> Result<
    Seq<PartyView>,
    Error,
> {
    match spec_validated(
        spec_trainer_id_bounds(rom),
        trainer_id,
        spec_trainer_id_invalid(rom, trainer_id),
    ) {
        Err(e) => Err(e),
        Ok(bounds) => match spec_parties_size(rom, trainer_id, bounds.1 as int) {
            None => Err(Error::RomMalformed),
            Some(size) => {
                let start = spec_parties_offset(rom, trainer_id);
                match spec_decode_parties(rom, rom.subrange(start, start + size)) {
                    None => Err(Error::RomMalformed),
                    Some(parties) => Ok(parties),
                }
            },
        },
    }
}

/// Whether a party can be written: it has a member, no level is zero, and
/// where its members share one level, they do, and the level is not `0xFF`.
pub open spec fn spec_party_valid(party: PartyView) -> bool {
    &&& party.pokemon.len() >= 1
    &&& forall|k: int| 0 <= k < party.pokemon.len() ==> (#[trigger] party.pokemon[k]).level != 0
    &&& party.level_type == PartyLevelType::SAME ==> party.pokemon[0].level != PARTY_DIFFERENT
        && forall|k: int|
        0 <= k < party.pokemon.len() ==> (#[trigger] party.pokemon[k]).level
            == party.pokemon[0].level
}

/// How many bytes a party takes, the closing zero included.
pub open spec fn spec_party_width(party: PartyView) -> int {
    match party.level_type {
        PartyLevelType::SAME => (party.pokemon.len() + 2) as int,
        PartyLevelType::DIFFERENT => (2 * party.pokemon.len() + 2) as int,
    }
}

/// How many bytes the parties take together.
pub open spec fn spec_parties_width(parties: Seq<PartyView>) -> int
    decreases parties.len(),
{
    if parties.len() == 0 {
        0
    } else {
        spec_parties_width(parties.drop_last()) + spec_party_width(parties.last())
    }
}

/// The bytes of the members: for each its level, where `with_levels` is
/// set, and its species; or the error of the first member that is no
/// species of the image.
pub open spec fn spec_encode_members(
    rom: Seq<u8>,
    members: Seq<PartyPokemon>,
    with_levels: bool,
) -> Result<Seq<u8>, Error>
    decreases members.len(),
{
    if members.len() == 0 {
        Ok(Seq::empty())
    } else {
        match spec_encode_members(rom, members.drop_last(), with_levels) {
            Err(e) => Err(e),
            Ok(bytes) => match spec_pokedex_id_to_species(rom, members.last().pokedex_id) {
                Err(e) => Err(e),
                Ok(species) => if with_levels {
                    Ok(bytes.push(members.last().level).push(species))
                } else {
                    Ok(bytes.push(species))
                },
            },
        }
    }
}

/// The bytes of party `index` of a list, the closing zero included. A party
/// that cannot be written gives `TrainerPartyInvalid` with its place in the
/// list.
pub open spec fn spec_encode_party(rom: Seq<u8>, party: PartyView, index: int) -> Result<
    Seq<u8>,
    Error,
> {
    if !spec_party_valid(party) {
        Err(Error::TrainerPartyInvalid(index as usize))
    } else {
        match spec_encode_members(
            rom,
            party.pokemon,
            party.level_type == PartyLevelType::DIFFERENT,
        ) {
            Err(e) => Err(e),
            Ok(bytes) => Ok(
                seq![
                    if party.level_type == PartyLevelType::DIFFERENT {
                        PARTY_DIFFERENT
                    } else {
                        party.pokemon[0].level
                    },
                ] + bytes + seq![0u8],
            ),
        }
    }
}

/// The bytes of the parties, one after another; or the error of the first
/// party that has one.
pub open spec fn spec_encode_parties(rom: Seq<u8>, parties: Seq<PartyView>) -> Result<
    Seq<u8>,
    Error,
>
    decreases parties.len(),
{
    if parties.len() == 0 {
        Ok(Seq::empty())
    } else {
        match spec_encode_parties(rom, parties.drop_last()) {
            Err(e) => Err(e),
            Ok(bytes) => match spec_encode_party(rom, parties.last(), parties.len() - 1) {
                Err(e) => Err(e),
                Ok(party) => Ok(bytes + party),
            },
        }
    }
}

/// What the patch that sets the parties of the trainer class `trainer_id`
/// to `parties` writes, and where.
///
/// There must be as many parties as before: `TrainerPartiesWrongSize` with
/// the old number and the new otherwise. Written, each with its first byte,
/// its members and its closing zero, they must take as many bytes as before:
/// `TrainerPartiesWrongDataSize` with the old size and the new otherwise.
/// Where both agree, the first party that cannot be written, or that holds a
/// member that is no species of the image, gives its error.
pub open spec fn spec_set_trainer_parties(
    rom: Seq<u8>,
    trainer_id: u8,
    parties: Seq<PartyView>,
) -> Result<(int, Seq<u8>), Error> {
    match spec_get_trainer_parties(rom, trainer_id) {
        Err(e) => Err(e),
        Ok(old) => if old.len() != parties.len() {
            Err(Error::TrainerPartiesWrongSize(old.len() as usize, parties.len() as usize))
        } else if spec_parties_width(old) != spec_parties_width(parties) {
            Err(
                Error::TrainerPartiesWrongDataSize(
                    spec_shown(spec_parties_width(old)),
                    spec_shown(spec_parties_width(parties)),
                ),
            )
        } else {
            match spec_encode_parties(rom, parties) {
                Err(e) => Err(e),
                Ok(data) => Ok((spec_parties_offset(rom, trainer_id), data)),
            }
        },
    }
}

/// The bytes of members are one for each, or two where each has its level.
pub proof fn lemma_encoded_members_len(rom: Seq<u8>, members: Seq<PartyPokemon>, with_levels: bool)
    ensures
        spec_encode_members(rom, members, with_levels) matches Ok(bytes) ==> bytes.len() == if
            with_levels {
            2 * members.len()
        } else {
            members.len()
        },
    decreases members.len(),
{
    if members.len() > 0 {
        lemma_encoded_members_len(rom, members.drop_last(), with_levels);
    }
}

/// The bytes of parties that can be written are as many as the parties take.
pub proof fn lemma_encoded_parties_len(rom: Seq<u8>, parties: Seq<PartyView>)
    ensures
        spec_encode_parties(rom, parties) matches Ok(data) ==> data.len() == spec_parties_width(
            parties,
        ),
    decreases parties.len(),
{
    if parties.len() > 0 {
        lemma_encoded_parties_len(rom, parties.drop_last());
        let party = parties.last();
        lemma_encoded_members_len(
            rom,
            party.pokemon,
            party.level_type == PartyLevelType::DIFFERENT,
        );
    }
}

/// An error in decoding the first `n` members is an error in decoding all.
pub proof fn lemma_members_same_prefix_none(rom: Seq<u8>, level: u8, species: Seq<u8>, n: int)
    requires
        0 <= n <= species.len(),
        spec_members_same(rom, level, species.take(n)) is None,
    ensures
        spec_members_same(rom, level, species) is None,
    decreases species.len() - n,
{
    if n < species.len() {
        assert(species.take(n + 1).drop_last() =~= species.take(n));
        lemma_members_same_prefix_none(rom, level, species, n + 1);
    } else {
        assert(species.take(n) =~= species);
    }
}

/// An error in decoding the first `n` pairs is an error in decoding more.
pub proof fn lemma_members_different_prefix_none(rom: Seq<u8>, pairs: Seq<u8>, n: nat, m: nat)
    requires
        n <= m,
        spec_members_different(rom, pairs, n) is None,
    ensures
        spec_members_different(rom, pairs, m) is None,
    decreases m - n,
{
    if n < m {
        lemma_members_different_prefix_none(rom, pairs, (n + 1) as nat, m);
    }
}

/// Decoding finds a member for each byte, or pair.
pub proof fn lemma_members_count(rom: Seq<u8>, level: u8, species: Seq<u8>, pairs: Seq<u8>, n: nat)
    ensures
        spec_members_same(rom, level, species) matches Some(m) ==> m.len() == species.len(),
        spec_members_different(rom, pairs, n) matches Some(m) ==> m.len() == n,
    decreases species.len() + n,
{
    if species.len() > 0 {
        lemma_members_count(rom, level, species.drop_last(), pairs, 0);
    }
    if n > 0 {
        lemma_members_count(rom, level, Seq::empty(), pairs, (n - 1) as nat);
    }
}

/// A party takes one byte more than the bytes it was decoded from: the
/// closing zero.
pub proof fn lemma_decoded_party_width(rom: Seq<u8>, body: Seq<u8>)
    requires
        spec_decode_party(rom, body) is Some,
    ensures
        spec_party_width(spec_decode_party(rom, body)->Some_0) == body.len() + 1,
{
    lemma_members_count(rom, body[0], body.skip(1), body.skip(1), ((body.len() - 1) / 2) as nat);
}

/// The width of two lists of parties, one after the other, is the sum of
/// their widths.
pub proof fn lemma_parties_width_concat(a: Seq<PartyView>, b: Seq<PartyView>)
    ensures
        spec_parties_width(a + b) == spec_parties_width(a) + spec_parties_width(b),
        spec_parties_width(b) >= 0,
    decreases b.len(),
{
    if b.len() == 0 {
        assert(a + b =~= a);
    } else {
        lemma_parties_width_concat(a, b.drop_last());
        assert((a + b).drop_last() =~= a + b.drop_last());
    }
}

/// One party alone takes what it takes.
pub proof fn lemma_parties_width_one(party: PartyView)
    ensures
        spec_parties_width(seq![party]) == spec_party_width(party),
{
    assert(seq![party].drop_last() =~= Seq::<PartyView>::empty());
    assert(spec_parties_width(Seq::<PartyView>::empty()) == 0);
}

/// Decoding from `pos` on takes the party that runs to the next zero, or
/// to the end of `data`, and goes on after it.
pub proof fn lemma_decode_parties_step(rom: Seq<u8>, data: Seq<u8>, pos: int, end: int, next: int)
    requires
        0 <= pos < data.len(),
        match first_index_of(data.subrange(pos, data.len() as int), 0) {
            Some(i) => end == pos + i && next == end + 1,
            None => end == data.len() && next == end,
        },
    ensures
        pos <= end <= data.len(),
        pos < next <= data.len(),
        spec_decode_parties(rom, data.skip(pos)) == match spec_decode_party(
            rom,
            data.subrange(pos, end),
        ) {
            None => None::<Seq<PartyView>>,
            Some(party) => match spec_decode_parties(rom, data.skip(next)) {
                None => None,
                Some(rest) => Some(seq![party] + rest),
            },
        },
{
    let d = data.skip(pos);
    assert(data.subrange(pos, data.len() as int) =~= d);
    lemma_first_index_of(d, 0);
    match first_index_of(d, 0) {
        Some(i) => {
            assert(d.take(i) =~= data.subrange(pos, end));
            assert(d.skip(i + 1) =~= data.skip(next));
        },
        None => {
            assert(d =~= data.subrange(pos, end));
            assert(data.skip(next).len() == 0);
            if let Some(party) = spec_decode_party(rom, d) {
                assert(seq![party] + Seq::<PartyView>::empty() =~= seq![party]);
            }
        },
    }
}

/// The parties decoded from `data` take at most one byte more than `data`.
pub proof fn lemma_decoded_parties_width(rom: Seq<u8>, data: Seq<u8>)
    requires
        spec_decode_parties(rom, data) is Some,
    ensures
        0 <= spec_parties_width(spec_decode_parties(rom, data)->Some_0) <= data.len() + 1,
    decreases data.len(),
{
    if data.len() > 0 {
        lemma_first_index_of(data, 0);
        match first_index_of(data, 0) {
            None => {
                let party = spec_decode_party(rom, data)->Some_0;
                lemma_decoded_party_width(rom, data);
                lemma_parties_width_one(party);
            },
            Some(i) => {
                let party = spec_decode_party(rom, data.take(i))->Some_0;
                let rest = spec_decode_parties(rom, data.skip(i + 1))->Some_0;
                lemma_decoded_party_width(rom, data.take(i));
                lemma_decoded_parties_width(rom, data.skip(i + 1));
                lemma_parties_width_concat(seq![party], rest);
                lemma_parties_width_one(party);
            },
        }
    }
}

/// An error in encoding the first `n` members is the error in encoding all.
pub proof fn lemma_encode_members_prefix_error(
    rom: Seq<u8>,
    members: Seq<PartyPokemon>,
    with_levels: bool,
    n: int,
)
    requires
        0 <= n <= members.len(),
        spec_encode_members(rom, members.take(n), with_levels) is Err,
    ensures
        spec_encode_members(rom, members, with_levels) == spec_encode_members(
            rom,
            members.take(n),
            with_levels,
        ),
    decreases members.len() - n,
{
    if n < members.len() {
        assert(members.take(n + 1).drop_last() =~= members.take(n));
        lemma_encode_members_prefix_error(rom, members, with_levels, n + 1);
    } else {
        assert(members.take(n) =~= members);
    }
}

/// An error in encoding the first `n` parties is the error in encoding all.
pub proof fn lemma_encode_parties_prefix_error(rom: Seq<u8>, parties: Seq<PartyView>, n: int)
    requires
        0 <= n <= parties.len(),
        spec_encode_parties(rom, parties.take(n)) is Err,
    ensures
        spec_encode_parties(rom, parties) == spec_encode_parties(rom, parties.take(n)),
    decreases parties.len() - n,
{
    if n < parties.len() {
        assert(parties.take(n + 1).drop_last() =~= parties.take(n));
        lemma_encode_parties_prefix_error(rom, parties, n + 1);
    } else {
        assert(parties.take(n) =~= parties);
    }
}

/// The views of parties with one more are the views with one more view.
pub proof fn lemma_parties_view_push(parties: Seq<Party>, party: Party)
    ensures
        parties_view(parties.push(party)) == parties_view(parties).push(party@),
{
    assert(parties_view(parties.push(party)) =~= parties_view(parties).push(party@));
}

impl PkmnapiDB {
    /// The party that the bytes `body` hold.
    fn decode_party(&self, body: &Vec<u8>) -> (r: Option<Party>)
        ensures
            match r {
                Some(party) => spec_decode_party(self@, body@) == Some(party@),
                None => spec_decode_party(self@, body@) is None,
            },
    {
        let len = body.len();
        if len == 0 {
            return None;
        }
        let first = body[0];
        let ghost rest = body@.skip(1);
        let mut pokemon: Vec<PartyPokemon> = Vec::new();
        if first == PARTY_DIFFERENT {
            if (len - 1) % 2 != 0 {
                return None;
            }
            let n = (len - 1) / 2;
            let mut k: usize = 0;
            while k < n
                invariant
                    k <= n,
                    len == body@.len(),
                    2 * n + 1 == len,
                    rest == body@.skip(1),
                    body@[0] == PARTY_DIFFERENT,
                    spec_members_different(self@, rest, k as nat) == Some(pokemon@),
                decreases n - k,
            {
                let level = body[1 + 2 * k];
                let species = body[1 + 2 * k + 1];
                assert(rest[2 * k] == level && rest[2 * k + 1] == species);
                let pokedex_id = match self.species_to_pokedex_id(species) {
                    Some(pokedex_id) => pokedex_id,
                    None => {
                        proof {
                            lemma_members_different_prefix_none(
                                self@,
                                rest,
                                (k + 1) as nat,
                                n as nat,
                            );
                        }
                        return None;
                    },
                };
                pokemon.push(PartyPokemon::new(level, pokedex_id));
                k += 1;
            }
            Some(Party { level_type: PartyLevelType::DIFFERENT, pokemon })
        } else {
            let n = len - 1;
            let mut k: usize = 0;
            proof {
                assert(rest.take(0) =~= Seq::<u8>::empty());
            }
            while k < n
                invariant
                    k <= n,
                    len == body@.len(),
                    n + 1 == len,
                    rest == body@.skip(1),
                    body@[0] == first,
                    first != PARTY_DIFFERENT,
                    spec_members_same(self@, first, rest.take(k as int)) == Some(pokemon@),
                decreases n - k,
            {
                let species = body[1 + k];
                proof {
                    assert(rest.take(k + 1).drop_last() =~= rest.take(k as int));
                    assert(rest.take(k + 1).last() == species);
                }
                let pokedex_id = match self.species_to_pokedex_id(species) {
                    Some(pokedex_id) => pokedex_id,
                    None => {
                        proof {
                            lemma_members_same_prefix_none(self@, first, rest, k + 1);
                        }
                        return None;
                    },
                };
                pokemon.push(PartyPokemon::new(first, pokedex_id));
                k += 1;
            }
            proof {
                assert(rest.take(n as int) =~= rest);
            }
            Some(Party { level_type: PartyLevelType::SAME, pokemon })
        }
    }

    /// Where the parties of the trainer class `trainer_id` stand, and how
    /// many bytes they take.
    fn parties_region(&self, trainer_id: u8, max_id: usize) -> (r: Option<(usize, usize)>)
        requires
            trainer_id >= 1,
        ensures
            match r {
                Some(region) => region.0 == spec_parties_offset(self@, trainer_id)
                    && spec_parties_size(self@, trainer_id, max_id as int) == Some(
                    region.1 as int,
                ) && region.0 + region.1 <= self@.len(),
                None => spec_parties_size(self@, trainer_id, max_id as int) is None,
            },
    {
        let rom = self.rom();
        let len = rom.len();
        let id = trainer_id as usize;
        let start = TRAINER_PARTIES_BANK + (u16_at(rom, TRAINER_PARTY_POINTERS + (id - 1) * 2)
            as usize);
        if id == max_id {
            proof {
                assert(rom@.subrange(start as int, len as int) =~= rom@.skip(start as int));
                lemma_first_index_of(rom@.skip(start as int), 0);
            }
            match find_byte(rom, start, len, 0) {
                Some(i) => Some((start, i + 1)),
                None => None,
            }
        } else {
            let end = TRAINER_PARTIES_BANK + (u16_at(rom, TRAINER_PARTY_POINTERS + id * 2)
                as usize);
            if end < start {
                None
            } else {
                Some((start, end - start))
            }
        }
    }

    /// The parties of the trainer class `trainer_id`, in their order.
    #[verifier::rlimit(50)]
    pub fn get_trainer_parties(&self, trainer_id: &u8) -> (r: Result<Vec<Party>, Error>)
        ensures
            match r {
                Ok(parties) => spec_get_trainer_parties(self@, *trainer_id) == Ok::<
                    Seq<PartyView>,
                    Error,
                >(parties_view(parties@)),
                Err(e) => spec_get_trainer_parties(self@, *trainer_id) == Err::<
                    Seq<PartyView>,
                    Error,
                >(e),
            },
    {
        let (_min_id, max_id) = self.trainer_id_validate(trainer_id)?;
        let (start, size) = match self.parties_region(*trainer_id, max_id) {
            Some(region) => region,
            None => {
                return Err(Error::RomMalformed);
            },
        };
        let rom = self.rom();
        let len = rom.len();
        let data = copy_range(rom, start, start + size);
        let ghost whole = spec_decode_parties(self@, data@);
        let mut parties: Vec<Party> = Vec::new();
        let mut pos: usize = 0;
        proof {
            assert(data@.skip(0) =~= data@);
            if let Some(rest) = whole {
                assert(parties_view(parties@) + rest =~= rest);
            }
        }
        while pos < size
            invariant
                pos <= size == data@.len(),
                spec_get_trainer_parties(self@, *trainer_id) == match whole {
                    None => Err::<Seq<PartyView>, Error>(Error::RomMalformed),
                    Some(parties) => Ok(parties),
                },
                whole == match spec_decode_parties(self@, data@.skip(pos as int)) {
                    Some(rest) => Some(parties_view(parties@) + rest),
                    None => None,
                },
            decreases size - pos,
        {
            proof {
                lemma_first_index_of(data@.subrange(pos as int, size as int), 0);
            }
            let (end, next) = match find_byte(&data, pos, size, 0) {
                Some(i) => (pos + i, pos + i + 1),
                None => (size, size),
            };
            proof {
                lemma_decode_parties_step(self@, data@, pos as int, end as int, next as int);
            }
            let body = copy_range(&data, pos, end);
            let party = match self.decode_party(&body) {
                Some(party) => party,
                None => {
                    return Err(Error::RomMalformed);
                },
            };
            proof {
                lemma_parties_view_push(parties@, party);
                if let Some(rest) = spec_decode_parties(self@, data@.skip(next as int)) {
                    assert(parties_view(parties@) + (seq![party@] + rest) =~= parties_view(
                        parties@,
                    ).push(party@) + rest);
                }
            }
            parties.push(party);
            pos = next;
        }
        proof {
            assert(data@.skip(pos as int).len() == 0);
            assert(parties_view(parties@) + Seq::<PartyView>::empty() =~= parties_view(parties@));
        }
        Ok(parties)
    }

    /// The bytes of party `index` of a list.
    #[verifier::rlimit(50)]
    fn encode_party(&self, party: &Party, index: usize) -> (r: Result<Vec<u8>, Error>)
        ensures
            match r {
                Ok(data) => spec_encode_party(self@, party@, index as int) == Ok::<Seq<u8>, Error>(
                    data@,
                ),
                Err(e) => spec_encode_party(self@, party@, index as int) == Err::<Seq<u8>, Error>(
                    e,
                ),
            },
    {
        let n = party.pokemon.len();
        if n == 0 {
            return Err(Error::TrainerPartyInvalid(index));
        }
        let with_levels = match party.level_type {
            PartyLevelType::DIFFERENT => true,
            PartyLevelType::SAME => false,
        };
        let first = party.pokemon[0].level;
        if !with_levels && first == PARTY_DIFFERENT {
            return Err(Error::TrainerPartyInvalid(index));
        }
        let mut k: usize = 0;
        while k < n
            invariant
                k <= n == party.pokemon@.len(),
                n >= 1,
                first == party.pokemon@[0].level,
                with_levels == (party.level_type == PartyLevelType::DIFFERENT),
                !with_levels ==> first != PARTY_DIFFERENT,
                forall|j: int| 0 <= j < k ==> (#[trigger] party.pokemon@[j]).level != 0,
                !with_levels ==> forall|j: int|
                    0 <= j < k ==> (#[trigger] party.pokemon@[j]).level == first,
            decreases n - k,
        {
            let level = party.pokemon[k].level;
            if level == 0 || (!with_levels && level != first) {
                return Err(Error::TrainerPartyInvalid(index));
            }
            k += 1;
        }
        assert(spec_party_valid(party@));
        let mut data: Vec<u8> = Vec::new();
        data.push(if with_levels { PARTY_DIFFERENT } else { first });
        let ghost head = data@;
        let ghost members = party.pokemon@;
        let mut k: usize = 0;
        proof {
            assert(members.take(0) =~= Seq::<PartyPokemon>::empty());
            assert(data@ =~= head + Seq::<u8>::empty());
        }
        while k < n
            invariant
                k <= n == members.len(),
                members == party.pokemon@,
                spec_party_valid(party@),
                with_levels == (party.level_type == PartyLevelType::DIFFERENT),
                head == seq![if with_levels { PARTY_DIFFERENT } else { first }],
                first == party.pokemon@[0].level,
                spec_encode_members(self@, members.take(k as int), with_levels) is Ok,
                data@ == head + spec_encode_members(
                    self@,
                    members.take(k as int),
                    with_levels,
                )->Ok_0,
            decreases n - k,
        {
            let member = party.pokemon[k];
            proof {
                assert(members.take(k + 1).drop_last() =~= members.take(k as int));
            }
            let species = match self.pokedex_id_to_species(member.pokedex_id) {
                Ok(species) => species,
                Err(e) => {
                    proof {
                        lemma_encode_members_prefix_error(self@, members, with_levels, k + 1);
                    }
                    return Err(e);
                },
            };
            if with_levels {
                data.push(member.level);
            }
            data.push(species);
            k += 1;
            proof {
                assert(data@ =~= head + spec_encode_members(
                    self@,
                    members.take(k as int),
                    with_levels,
                )->Ok_0);
            }
        }
        data.push(0);
        proof {
            assert(members.take(n as int) =~= members);
            assert(data@ =~= head + spec_encode_members(self@, members, with_levels)->Ok_0
                + seq![0u8]);
        }
        Ok(data)
    }

    /// The patch that sets the parties of the trainer class `trainer_id` to
    /// `trainer_parties`. It takes as many bytes as the old parties took.
    #[verifier::rlimit(50)]
    pub fn set_trainer_parties(&self, trainer_id: &u8, trainer_parties: &Vec<Party>) -> (r: Result<
        Patch,
        Error,
    >)
        ensures
            patch_is(
                r,
                spec_set_trainer_parties(self@, *trainer_id, parties_view(trainer_parties@)),
            ),
            r matches Ok(p) ==> p.length == spec_parties_width(
                spec_get_trainer_parties(self@, *trainer_id)->Ok_0,
            ),
    {
        let old = self.get_trainer_parties(trainer_id)?;
        let len = self.rom().len();
        let (_min_id, max_id) = self.trainer_id_validate(trainer_id)?;
        let (start, size) = match self.parties_region(*trainer_id, max_id) {
            Some(region) => region,
            None => {
                return Err(Error::RomMalformed);
            },
        };
        let ghost old_view = parties_view(old@);
        let ghost new_view = parties_view(trainer_parties@);
        proof {
            lemma_decoded_parties_width(self@, self@.subrange(start as int, start + size));
        }
        if old.len() != trainer_parties.len() {
            return Err(Error::TrainerPartiesWrongSize(old.len(), trainer_parties.len()));
        }
        let old_width = parties_width(&old);
        let new_width = parties_width(trainer_parties);
        proof {
            lemma_parties_width_concat(Seq::empty(), new_view);
            assert(0 <= spec_parties_width(old_view) <= size + 1);
            assert(start + size <= len);
        }
        if old_width != new_width {
            return Err(Error::TrainerPartiesWrongDataSize(old_width, new_width));
        }
        let mut data: Vec<u8> = Vec::new();
        let mut k: usize = 0;
        proof {
            assert(new_view.take(0) =~= Seq::<PartyView>::empty());
        }
        while k < trainer_parties.len()
            invariant
                k <= trainer_parties@.len(),
                new_view == parties_view(trainer_parties@),
                spec_get_trainer_parties(self@, *trainer_id) == Ok::<Seq<PartyView>, Error>(
                    old_view,
                ),
                old_view.len() == new_view.len(),
                spec_parties_width(old_view) == spec_parties_width(new_view),
                spec_encode_parties(self@, new_view.take(k as int)) == Ok::<Seq<u8>, Error>(data@),
            decreases trainer_parties@.len() - k,
        {
            proof {
                assert(new_view.take(k + 1).drop_last() =~= new_view.take(k as int));
                assert(new_view.take(k + 1).last() == trainer_parties@[k as int]@);
            }
            let raw = match self.encode_party(&trainer_parties[k], k) {
                Ok(raw) => raw,
                Err(e) => {
                    proof {
                        lemma_encode_parties_prefix_error(self@, new_view, k + 1);
                    }
                    return Err(e);
                },
            };
            append_range(&mut data, &raw, 0, raw.len());
            proof {
                assert(raw@.subrange(0, raw@.len() as int) =~= raw@);
            }
            k += 1;
        }
        proof {
            assert(new_view.take(trainer_parties@.len() as int) =~= new_view);
            lemma_encoded_parties_len(self@, new_view);
        }
        Ok(Patch::new(&start, &data))
    }
}

/// How many bytes the parties take together, as far as a number holds it.
fn parties_width(parties: &Vec<Party>) -> (r: usize)
    ensures
        r == spec_shown(spec_parties_width(parties_view(parties@))),
{
    let ghost views = parties_view(parties@);
    let mut width: usize = 0;
    let mut k: usize = 0;
    proof {
        assert(views.take(0) =~= Seq::<PartyView>::empty());
    }
    while k < parties.len()
        invariant
            k <= parties@.len(),
            views == parties_view(parties@),
            spec_parties_width(views.take(k as int)) >= 0,
            width == spec_shown(spec_parties_width(views.take(k as int))),
        decreases parties@.len() - k,
    {
        proof {
            assert(views.take(k + 1).drop_last() =~= views.take(k as int));
            assert(views.take(k + 1).last() == parties@[k as int]@);
        }
        let members = parties[k].pokemon.len() as u128;
        let own: u128 = match parties[k].level_type {
            PartyLevelType::SAME => members + 2,
            PartyLevelType::DIFFERENT => 2 * members + 2,
        };
        let sum: u128 = (width as u128) + own;
        width = if width == usize::MAX || sum > usize::MAX as u128 {
            usize::MAX
        } else {
            sum as usize
        };
        k += 1;
    }
    proof {
        assert(views.take(parties@.len() as int) =~= views);
    }
    width
}

} // verus!
