//! How a species evolves: a short list of entries in a slot of thirteen
//! bytes, closed by a zero.

use crate::bytes::{copy_range, spec_u16_at, u16_at};
use crate::db::{PkmnapiDB, ROM_PAGE};
use crate::error::Error;
use crate::ids::{
    spec_pokedex_id_to_internal_id, spec_pokedex_id_to_species, spec_species_to_pokedex_id,
};
use crate::names::patch_is;
use crate::patch::Patch;
use vstd::prelude::*;

verus! {

/// Where the pointers to the slots stand, in storage order.
pub const EVOLUTION_POINTERS: usize = ROM_PAGE * 0x1D + 0x105C;

/// The bank that the pointers point into.
pub const EVOLUTIONS_BANK: usize = ROM_PAGE * 0x1A;

/// The size of a slot.
pub const EVOLUTION_SLOT: usize = 0x0D;

/// The tag of an evolution at a level.
pub const TAG_LEVEL: u8 = 0x01;

/// The tag of an evolution by an item.
pub const TAG_ITEM: u8 = 0x02;

/// The tag of an evolution by trade.
pub const TAG_TRADE: u8 = 0x03;

/// An evolution at a level.
#[derive(Debug, Clone, Copy, PartialEq, Eq, Structural)]
pub struct PokemonEvolutionLevel {
    pub level: u8,
    pub pokedex_id: u8,
}

/// An evolution by an item.
#[derive(Debug, Clone, Copy, PartialEq, Eq, Structural)]
pub struct PokemonEvolutionItem {
    pub item_id: u8,
    pub pokedex_id: u8,
}

/// An evolution by trade.
#[derive(Debug, Clone, Copy, PartialEq, Eq, Structural)]
pub struct PokemonEvolutionTrade {
    pub pokedex_id: u8,
}

/// One way in which a species evolves, and into which species.
#[derive(Debug, Clone, Copy, PartialEq, Eq, Structural)]
pub enum PokemonEvolution {
    LEVEL(PokemonEvolutionLevel),
    ITEM(PokemonEvolutionItem),
    TRADE(PokemonEvolutionTrade),
}

impl PokemonEvolutionLevel {
    /// The evolution into the species `pokedex_id` at the level `level`.
    pub fn new(pokedex_id: u8, level: u8) -> (r: PokemonEvolution)
        ensures
            r == PokemonEvolution::LEVEL(PokemonEvolutionLevel { level, pokedex_id }),
    {
        PokemonEvolution::LEVEL(PokemonEvolutionLevel { level, pokedex_id })
    }
}

impl PokemonEvolutionItem {
    /// The evolution into the species `pokedex_id` by the item `item_id`.
    pub fn new(pokedex_id: u8, item_id: u8) -> (r: PokemonEvolution)
        ensures
            r == PokemonEvolution::ITEM(PokemonEvolutionItem { item_id, pokedex_id }),
    {
        PokemonEvolution::ITEM(PokemonEvolutionItem { item_id, pokedex_id })
    }
}

impl PokemonEvolutionTrade {
    /// The evolution into the species `pokedex_id` by trade.
    pub fn new(pokedex_id: u8) -> (r: PokemonEvolution)
        ensures
            r == PokemonEvolution::TRADE(PokemonEvolutionTrade { pokedex_id }),
    {
        PokemonEvolution::TRADE(PokemonEvolutionTrade { pokedex_id })
    }
}

impl PokemonEvolution {
    /// The display number of the species that the evolution leads to.
    pub open spec fn spec_pokedex_id(&self) -> u8 {
        match self {
            PokemonEvolution::LEVEL(e) => e.pokedex_id,
            PokemonEvolution::ITEM(e) => e.pokedex_id,
            PokemonEvolution::TRADE(e) => e.pokedex_id,
        }
    }

    /// How many bytes the entry takes: four by an item, else three.
    pub open spec fn spec_width(&self) -> int {
        match self {
            PokemonEvolution::ITEM(_) => 4,
            _ => 3,
        }
    }

    /// The bytes of the entry, `species` being the byte that names the
    /// species it leads to: the tag, then the level or the item, and the
    /// species last. An entry by an item or by trade holds a level of one
    /// before the species.
    pub open spec fn spec_to_raw(&self, species: u8) -> Seq<u8> {
        match self {
            PokemonEvolution::LEVEL(e) => seq![TAG_LEVEL, e.level, species],
            PokemonEvolution::ITEM(e) => seq![TAG_ITEM, e.item_id, 1, species],
            PokemonEvolution::TRADE(_) => seq![TAG_TRADE, 1, species],
        }
    }

    /// The bytes of the entry, `species` being the byte that names the
    /// species it leads to.
    pub fn to_raw(&self, species: u8) -> (r: Vec<u8>)
        ensures
            r@ == self.spec_to_raw(species),
            r@.len() == self.spec_width(),
    {
        let mut out: Vec<u8> = Vec::new();
        match self {
            PokemonEvolution::LEVEL(e) => {
                out.push(TAG_LEVEL);
                out.push(e.level);
            },
            PokemonEvolution::ITEM(e) => {
                out.push(TAG_ITEM);
                out.push(e.item_id);
                out.push(1);
            },
            PokemonEvolution::TRADE(_) => {
                out.push(TAG_TRADE);
                out.push(1);
            },
        }
        out.push(species);
        proof {
            assert(out@ =~= self.spec_to_raw(species));
        }
        out
    }
}

/// How many bytes the entry with the tag `tag` takes, if the tag is known.
pub open spec fn spec_tag_width(tag: u8) -> Option<int> {
    if tag == TAG_ITEM {
        Some(4)
    } else if tag == TAG_LEVEL || tag == TAG_TRADE {
        Some(3)
    } else {
        None
    }
}

/// The entry that stands at `i` of the slot `data` and leads to `pokedex_id`.
pub open spec fn spec_entry_at(data: Seq<u8>, i: int, pokedex_id: u8) -> PokemonEvolution {
    if data[i] == TAG_LEVEL {
        PokemonEvolution::LEVEL(PokemonEvolutionLevel { level: data[i + 1], pokedex_id })
    } else if data[i] == TAG_ITEM {
        PokemonEvolution::ITEM(PokemonEvolutionItem { item_id: data[i + 1], pokedex_id })
    } else {
        PokemonEvolution::TRADE(PokemonEvolutionTrade { pokedex_id })
    }
}

/// The entries of the slot `data` from `i` on, up to a zero tag or the end
/// of the slot. The slot is malformed, and has no entries, where a tag is
/// unknown, an entry runs over the end of the slot, or an entry names no
/// species of the image.
pub open spec fn spec_decode_evolutions(rom: Seq<u8>, data: Seq<u8>, i: int) -> Option<
    Seq<PokemonEvolution>,
>
    recommends
        0 <= i,
    decreases data.len() - i,
{
    if i < 0 || i >= data.len() || data[i] == 0 {
        Some(Seq::empty())
    } else {
        match spec_tag_width(data[i]) {
            None => None,
            Some(width) => if i + width > data.len() {
                None
            } else {
                match spec_species_to_pokedex_id(rom, data[i + width - 1]) {
                    None => None,
                    Some(pokedex_id) => match spec_decode_evolutions(rom, data, i + width) {
                        None => None,
                        Some(rest) => Some(seq![spec_entry_at(data, i, pokedex_id)] + rest),
                    },
                }
            },
        }
    }
}

/// Where the slot of the species at `internal_id` stands.
pub open spec fn spec_evolutions_offset(rom: Seq<u8>, internal_id: u8) -> int {
    EVOLUTIONS_BANK + spec_u16_at(rom, EVOLUTION_POINTERS + internal_id * 2)
}

/// The evolutions of the species `pokedex_id`.
pub open spec fn spec_get_pokemon_evolutions(rom: Seq<u8>, pokedex_id: u8) -> Result<
    Seq<PokemonEvolution>,
    Error,
> {
    match spec_pokedex_id_to_internal_id(rom, pokedex_id) {
        Err(e) => Err(e),
        Ok(internal_id) => match spec_decode_evolutions(
            rom,
            rom.subrange(
                spec_evolutions_offset(rom, internal_id),
                spec_evolutions_offset(rom, internal_id) + EVOLUTION_SLOT,
            ),
            0,
        ) {
            None => Err(Error::RomMalformed),
            Some(evolutions) => Ok(evolutions),
        },
    }
}

/// How many bytes the entries take together.
pub open spec fn spec_evolutions_width(evolutions: Seq<PokemonEvolution>) -> int
    decreases evolutions.len(),
{
    if evolutions.len() == 0 {
        0
    } else {
        spec_evolutions_width(evolutions.drop_last()) + evolutions.last().spec_width()
    }
}

/// The bytes of the entries, one after another; or the error of the first
/// entry that leads to no species of the image.
pub open spec fn spec_encode_evolutions(rom: Seq<u8>, evolutions: Seq<PokemonEvolution>) -> Result<
    Seq<u8>,
    Error,
>
    decreases evolutions.len(),
{
    if evolutions.len() == 0 {
        Ok(Seq::empty())
    } else {
        match spec_encode_evolutions(rom, evolutions.drop_last()) {
            Err(e) => Err(e),
            Ok(bytes) => match spec_pokedex_id_to_species(
                rom,
                evolutions.last().spec_pokedex_id(),
            ) {
                Err(e) => Err(e),
                Ok(species) => Ok(bytes + evolutions.last().spec_to_raw(species)),
            },
        }
    }
}

/// What the patch that sets the evolutions of the species `pokedex_id` to
/// `evolutions` writes, and where. The new entries must take as many bytes
/// as the old: `PokemonEvolutionWrongSize` with the old size and the new
/// otherwise.
pub open spec fn spec_set_pokemon_evolutions(
    rom: Seq<u8>,
    pokedex_id: u8,
    evolutions: Seq<PokemonEvolution>,
) -> Result<(int, Seq<u8>), Error> {
    match spec_get_pokemon_evolutions(rom, pokedex_id) {
        Err(e) => Err(e),
        Ok(old) => match spec_encode_evolutions(rom, evolutions) {
            Err(e) => Err(e),
            Ok(data) => if spec_evolutions_width(old) != data.len() {
                Err(
                    Error::PokemonEvolutionWrongSize(
                        spec_evolutions_width(old) as usize,
                        data.len() as usize,
                    ),
                )
            } else {
                Ok(
                    (
                        spec_evolutions_offset(
                            rom,
                            spec_pokedex_id_to_internal_id(rom, pokedex_id)->Ok_0,
                        ),
                        data,
                    ),
                )
            },
        },
    }
}

/// A slot that begins with the zero tag holds no evolutions, and is no
/// error: the zero ends the list at the first place as at any other.
pub proof fn evolutions_empty_at_zero_tag(rom: Seq<u8>, pokedex_id: u8)
    requires
        spec_pokedex_id_to_internal_id(rom, pokedex_id) is Ok,
        spec_evolutions_offset(rom, spec_pokedex_id_to_internal_id(rom, pokedex_id)->Ok_0)
            + EVOLUTION_SLOT <= rom.len(),
        rom[spec_evolutions_offset(rom, spec_pokedex_id_to_internal_id(rom, pokedex_id)->Ok_0)]
            == 0,
    ensures
        spec_get_pokemon_evolutions(rom, pokedex_id) == Ok::<Seq<PokemonEvolution>, Error>(
            Seq::empty(),
        ),
{
}

/// The entries take as many bytes as their number and kinds say, whatever
/// species they lead to.
pub proof fn lemma_evolutions_width_push(evolutions: Seq<PokemonEvolution>, e: PokemonEvolution)
    ensures
        spec_evolutions_width(evolutions.push(e)) == spec_evolutions_width(evolutions)
            + e.spec_width(),
        spec_evolutions_width(evolutions) >= 0,
    decreases evolutions.len(),
{
    assert(evolutions.push(e).drop_last() =~= evolutions);
    if evolutions.len() > 0 {
        lemma_evolutions_width_push(evolutions.drop_last(), evolutions.last());
        assert(evolutions.drop_last().push(evolutions.last()) =~= evolutions);
    }
}

/// The entries decoded from `i` on take the bytes of the slot from `i` up
/// to the zero tag or the slot's end: at most the rest of the slot.
pub proof fn lemma_decoded_width(rom: Seq<u8>, data: Seq<u8>, i: int)
    requires
        0 <= i <= data.len(),
        spec_decode_evolutions(rom, data, i) is Some,
    ensures
        0 <= spec_evolutions_width(spec_decode_evolutions(rom, data, i)->Some_0) <= data.len()
            - i,
    decreases data.len() - i,
{
    if i < data.len() && data[i] != 0 {
        let width = spec_tag_width(data[i])->Some_0;
        let pokedex_id = spec_species_to_pokedex_id(rom, data[i + width - 1])->Some_0;
        let rest = spec_decode_evolutions(rom, data, i + width)->Some_0;
        let entry = spec_entry_at(data, i, pokedex_id);
        lemma_decoded_width(rom, data, i + width);
        lemma_width_of_concat(seq![entry], rest);
        lemma_evolutions_width_push(Seq::empty(), entry);
        assert(Seq::<PokemonEvolution>::empty().push(entry) =~= seq![entry]);
        assert(spec_evolutions_width(Seq::<PokemonEvolution>::empty()) == 0);
        assert(entry.spec_width() == width);
    }
}

/// The width of two lists of entries, one after the other, is the sum of
/// their widths.
pub proof fn lemma_width_of_concat(a: Seq<PokemonEvolution>, b: Seq<PokemonEvolution>)
    ensures
        spec_evolutions_width(a + b) == spec_evolutions_width(a) + spec_evolutions_width(b),
    decreases b.len(),
{
    if b.len() == 0 {
        assert(a + b =~= a);
    } else {
        lemma_width_of_concat(a, b.drop_last());
        assert((a + b).drop_last() =~= a + b.drop_last());
    }
}

impl PkmnapiDB {
    /// The evolutions of the species `pokedex_id`, in the order of their
    /// entries. A slot that is malformed gives `RomMalformed`.
    pub fn get_pokemon_evolutions(&self, pokedex_id: &u8) -> (r: Result<
        Vec<PokemonEvolution>,
        Error,
    >)
        ensures
            match r {
                Ok(evolutions) => spec_get_pokemon_evolutions(self@, *pokedex_id) == Ok::<
                    Seq<PokemonEvolution>,
                    Error,
                >(evolutions@),
                Err(e) => spec_get_pokemon_evolutions(self@, *pokedex_id) == Err::<
                    Seq<PokemonEvolution>,
                    Error,
                >(e),
            },
    {
        let internal_id = self.pokedex_id_to_internal_id(pokedex_id)?;
        let rom = self.rom();
        let pointer = EVOLUTIONS_BANK + (u16_at(
            rom,
            EVOLUTION_POINTERS + (internal_id as usize) * 2,
        ) as usize);
        let data = copy_range(rom, pointer, pointer + EVOLUTION_SLOT);
        let mut evolutions: Vec<PokemonEvolution> = Vec::new();
        let mut i: usize = 0;
        let ghost whole = spec_decode_evolutions(self@, data@, 0);
        proof {
            if let Some(rest) = whole {
                assert(evolutions@ + rest =~= rest);
            }
        }
        while i < EVOLUTION_SLOT && data[i] != 0
            invariant
                i <= EVOLUTION_SLOT == data@.len(),
                whole == spec_decode_evolutions(self@, data@, 0),
                spec_get_pokemon_evolutions(self@, *pokedex_id) == match whole {
                    None => Err::<Seq<PokemonEvolution>, Error>(Error::RomMalformed),
                    Some(evolutions) => Ok(evolutions),
                },
                whole == match spec_decode_evolutions(self@, data@, i as int) {
                    Some(rest) => Some(evolutions@ + rest),
                    None => None,
                },
            decreases EVOLUTION_SLOT - i,
        {
            let tag = data[i];
            let width: usize = if tag == TAG_ITEM {
                4
            } else if tag == TAG_LEVEL || tag == TAG_TRADE {
                3
            } else {
                return Err(Error::RomMalformed);
            };
            if i + width > EVOLUTION_SLOT {
                return Err(Error::RomMalformed);
            }
            let pokedex_id = match self.species_to_pokedex_id(data[i + width - 1]) {
                Some(pokedex_id) => pokedex_id,
                None => {
                    return Err(Error::RomMalformed);
                },
            };
            let entry = if tag == TAG_LEVEL {
                PokemonEvolutionLevel::new(pokedex_id, data[i + 1])
            } else if tag == TAG_ITEM {
                PokemonEvolutionItem::new(pokedex_id, data[i + 1])
            } else {
                PokemonEvolutionTrade::new(pokedex_id)
            };
            proof {
                assert(entry == spec_entry_at(data@, i as int, pokedex_id));
                if let Some(rest) = spec_decode_evolutions(self@, data@, i + width) {
                    assert(evolutions@ + (seq![entry] + rest) =~= evolutions@.push(entry) + rest);
                }
            }
            evolutions.push(entry);
            i += width;
        }
        proof {
            assert(spec_decode_evolutions(self@, data@, i as int) == Some(
                Seq::<PokemonEvolution>::empty(),
            ));
            assert(evolutions@ + Seq::<PokemonEvolution>::empty() =~= evolutions@);
        }
        Ok(evolutions)
    }

    /// The bytes of `evolutions`, or the error of the first that leads to no
    /// species of the image.
    fn encode_evolutions(&self, evolutions: &Vec<PokemonEvolution>) -> (r: Result<Vec<u8>, Error>)
        ensures
            match r {
                Ok(data) => spec_encode_evolutions(self@, evolutions@) == Ok::<Seq<u8>, Error>(
                    data@,
                ),
                Err(e) => spec_encode_evolutions(self@, evolutions@) == Err::<Seq<u8>, Error>(e),
            },
    {
        let mut data: Vec<u8> = Vec::new();
        let mut k: usize = 0;
        proof {
            assert(evolutions@.take(0) =~= Seq::<PokemonEvolution>::empty());
        }
        while k < evolutions.len()
            invariant
                k <= evolutions@.len(),
                spec_encode_evolutions(self@, evolutions@.take(k as int)) == Ok::<Seq<u8>, Error>(
                    data@,
                ),
            decreases evolutions@.len() - k,
        {
            let evolution = evolutions[k];
            let pokedex_id = match evolution {
                PokemonEvolution::LEVEL(e) => e.pokedex_id,
                PokemonEvolution::ITEM(e) => e.pokedex_id,
                PokemonEvolution::TRADE(e) => e.pokedex_id,
            };
            proof {
                assert(evolutions@.take(k + 1).drop_last() =~= evolutions@.take(k as int));
            }
            let species = match self.pokedex_id_to_species(pokedex_id) {
                Ok(species) => species,
                Err(e) => {
                    proof {
                        lemma_encode_evolutions_prefix_error(self@, evolutions@, k + 1);
                    }
                    return Err(e);
                },
            };
            let raw = evolution.to_raw(species);
            crate::bytes::append_range(&mut data, &raw, 0, raw.len());
            proof {
                assert(raw@.subrange(0, raw@.len() as int) =~= raw@);
            }
            k += 1;
        }
        proof {
            assert(evolutions@.take(evolutions@.len() as int) =~= evolutions@);
        }
        Ok(data)
    }

    /// The patch that sets the evolutions of the species `pokedex_id` to
    /// `pokemon_evolutions`.
    pub fn set_pokemon_evolutions(
        &self,
        pokedex_id: &u8,
        pokemon_evolutions: &Vec<PokemonEvolution>,
    ) -> (r: Result<Patch, Error>)
        ensures
            patch_is(r, spec_set_pokemon_evolutions(self@, *pokedex_id, pokemon_evolutions@)),
    {
        let old = self.get_pokemon_evolutions(pokedex_id)?;
        let rom = self.rom();
        let mut old_len: usize = 0;
        let mut k: usize = 0;
        proof {
            assert(old@.take(0) =~= Seq::<PokemonEvolution>::empty());
            let internal_id = spec_pokedex_id_to_internal_id(self@, *pokedex_id)->Ok_0;
            let offset = spec_evolutions_offset(self@, internal_id);
            lemma_decoded_width(self@, self@.subrange(offset, offset + EVOLUTION_SLOT), 0);
        }
        while k < old.len()
            invariant
                k <= old@.len(),
                old_len == spec_evolutions_width(old@.take(k as int)),
                spec_evolutions_width(old@) <= EVOLUTION_SLOT,
                old_len <= spec_evolutions_width(old@),
            decreases old@.len() - k,
        {
            proof {
                assert(old@.take(k + 1).drop_last() =~= old@.take(k as int));
                lemma_width_of_concat(old@.take(k + 1), old@.skip(k + 1));
                assert(old@.take(k + 1) + old@.skip(k + 1) =~= old@);
                lemma_evolutions_width_push(old@.skip(k + 1), old@[0]);
            }
            old_len += match old[k] {
                PokemonEvolution::ITEM(_) => 4,
                _ => 3,
            };
            k += 1;
        }
        proof {
            assert(old@.take(old@.len() as int) =~= old@);
        }
        let data = self.encode_evolutions(pokemon_evolutions)?;
        if old_len != data.len() {
            return Err(Error::PokemonEvolutionWrongSize(old_len, data.len()));
        }
        let internal_id = self.pokedex_id_to_internal_id(pokedex_id)?;
        let pointer = EVOLUTIONS_BANK + (u16_at(
            self.rom(),
            EVOLUTION_POINTERS + (internal_id as usize) * 2,
        ) as usize);
        Ok(Patch::new(&pointer, &data))
    }
}

/// An error in encoding the first `n` entries is the error in encoding all.
pub proof fn lemma_encode_evolutions_prefix_error(
    rom: Seq<u8>,
    evolutions: Seq<PokemonEvolution>,
    n: int,
)
    requires
        0 <= n <= evolutions.len(),
        spec_encode_evolutions(rom, evolutions.take(n)) is Err,
    ensures
        spec_encode_evolutions(rom, evolutions) == spec_encode_evolutions(rom, evolutions.take(n)),
    decreases evolutions.len() - n,
{
    if n < evolutions.len() {
        assert(evolutions.take(n + 1).drop_last() =~= evolutions.take(n));
        lemma_encode_evolutions_prefix_error(rom, evolutions, n + 1);
    } else {
        assert(evolutions.take(n) =~= evolutions);
    }
}

} // verus!
