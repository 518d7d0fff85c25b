//! The entries of the index of species: the kind of the species, its height
//! and weight, and the text that describes it.

use crate::bytes::{
    copy_range, find_byte, first_index_of, lemma_first_index_of, spec_u16_at, spec_u16_le, u16_at,
};
use crate::db::{PkmnapiDB, ROM_PAGE};
use crate::error::Error;
use crate::ids::spec_pokedex_id_to_internal_id;
use crate::names::patch_is;
use crate::patch::Patch;
use crate::string::{ROMString, TERMINATOR};
use vstd::prelude::*;

verus! {

/// Where the pointers to the entries stand, in storage order.
pub const POKEDEX_ENTRY_POINTERS: usize = ROM_PAGE * 0x1E + 0x447E;

/// The bank that the pointers point into.
pub const POKEDEX_ENTRIES_BANK: usize = ROM_PAGE * 0x1E;

/// How many bytes are read for an entry.
pub const POKEDEX_ENTRY_WINDOW: usize = 15;

/// How far behind the terminator of the kind the pointer to the text stands.
pub const POKEDEX_TEXT_POINTER_AFTER: usize = 6;

/// The byte that ends the text of an entry.
pub const POKEDEX_TEXT_END: u8 = 0x5F;

/// An entry: the kind of the species, its height in inches and its weight
/// in tenths of a pound.
#[derive(Debug, PartialEq)]
pub struct PokedexEntry {
    pub species: ROMString,
    pub height: u32,
    pub weight: u32,
}

/// An entry as a plain value.
pub struct PokedexEntryView {
    pub species: Seq<u8>,
    pub height: u32,
    pub weight: u32,
}

impl View for PokedexEntry {
    type V = PokedexEntryView;

    open spec fn view(&self) -> PokedexEntryView {
        PokedexEntryView { species: self.species@, height: self.height, weight: self.weight }
    }
}

/// Byte `k` of `s`, or zero where `s` ends before it.
pub open spec fn byte_or_zero(s: Seq<u8>, k: int) -> u8 {
    if 0 <= k < s.len() {
        s[k]
    } else {
        0
    }
}

/// The entry that `window` holds: the kind up to the terminator; then the
/// feet and the inches of the height, and the weight as a little-endian
/// word. What the window has no bytes for is zero. A window without a
/// terminator holds no entry.
pub open spec fn spec_decode_pokedex_entry(window: Seq<u8>) -> Option<PokedexEntryView> {
    match first_index_of(window, TERMINATOR) {
        None => None,
        Some(end) => {
            let rest = window.skip(end + 1);
            Some(
                PokedexEntryView {
                    species: window.take(end),
                    height: (byte_or_zero(rest, 0) * 12 + byte_or_zero(rest, 1)) as u32,
                    weight: if rest.len() >= 4 {
                        spec_u16_le(rest[2], rest[3]) as u32
                    } else {
                        0
                    },
                },
            )
        },
    }
}

/// The bytes of an entry: the kind and its terminator; the feet and the
/// inches of the height; the weight as a little-endian word. Feet above 255
/// and a weight above 65535 lose their high bits.
pub open spec fn spec_encode_pokedex_entry(entry: PokedexEntryView) -> Seq<u8> {
    entry.species + seq![
        TERMINATOR,
        ((entry.height / 12) % 256) as u8,
        (entry.height % 12) as u8,
        (entry.weight % 256) as u8,
        ((entry.weight / 256) % 256) as u8,
    ]
}

impl PokedexEntry {
    /// The entry that `rom` holds, if `rom` holds the terminator of a kind.
    pub fn from(rom: &Vec<u8>) -> (r: Option<PokedexEntry>)
        ensures
            match r {
                Some(entry) => spec_decode_pokedex_entry(rom@) == Some(entry@),
                None => spec_decode_pokedex_entry(rom@) is None,
            },
    {
        let len = rom.len();
        proof {
            assert(rom@.subrange(0, len as int) =~= rom@);
            lemma_first_index_of(rom@, TERMINATOR);
        }
        let end = match find_byte(rom, 0, len, TERMINATOR) {
            Some(end) => end,
            None => {
                return None;
            },
        };
        let species = copy_range(rom, 0, end);
        proof {
            assert(species@ =~= rom@.take(end as int));
        }
        let rest = len - end - 1;
        let height_ft: u32 = if rest >= 1 {
            rom[end + 1] as u32
        } else {
            0
        };
        let height_in: u32 = if rest >= 2 {
            rom[end + 2] as u32
        } else {
            0
        };
        let weight: u32 = if rest >= 4 {
            u16_at(rom, end + 3) as u32
        } else {
            0
        };
        Some(
            PokedexEntry {
                species: ROMString { value: species },
                height: height_ft * 12 + height_in,
                weight,
            },
        )
    }

    /// The bytes of the entry.
    pub fn to_raw(&self) -> (r: Vec<u8>)
        ensures
            r@ == spec_encode_pokedex_entry(self@),
    {
        let mut out = self.species.value.clone();
        out.push(TERMINATOR);
        out.push(((self.height / 12) % 256) as u8);
        out.push((self.height % 12) as u8);
        out.push((self.weight % 256) as u8);
        out.push(((self.weight / 256) % 256) as u8);
        proof {
            assert(out@ =~= spec_encode_pokedex_entry(self@));
        }
        out
    }
}

/// The text of an entry.
#[derive(Debug, PartialEq)]
pub struct PokedexEntryText {
    pub text: ROMString,
}

/// The name under which the text of an entry is also known.
pub type PokedexText = PokedexEntryText;

impl View for PokedexEntryText {
    type V = Seq<u8>;

    open spec fn view(&self) -> Seq<u8> {
        self.text@
    }
}

/// The text that `s` holds: what stands between its first byte and its
/// first `0x5F`, or its end where there is none.
pub open spec fn spec_decode_pokedex_text(s: Seq<u8>) -> Seq<u8> {
    let end = match first_index_of(s, POKEDEX_TEXT_END) {
        Some(i) => i,
        None => s.len() as int,
    };
    if end >= 1 {
        s.subrange(1, end)
    } else {
        Seq::empty()
    }
}

/// The bytes of a text: a zero, the text, and `0x5F`.
pub open spec fn spec_encode_pokedex_text(text: Seq<u8>) -> Seq<u8> {
    seq![0u8] + text + seq![POKEDEX_TEXT_END]
}

impl PokedexEntryText {
    /// The text that `rom` holds.
    pub fn from(rom: &Vec<u8>) -> (r: PokedexEntryText)
        ensures
            r@ == spec_decode_pokedex_text(rom@),
    {
        let len = rom.len();
        proof {
            assert(rom@.subrange(0, len as int) =~= rom@);
            lemma_first_index_of(rom@, POKEDEX_TEXT_END);
        }
        let end = match find_byte(rom, 0, len, POKEDEX_TEXT_END) {
            Some(end) => end,
            None => len,
        };
        let value = if end >= 1 {
            copy_range(rom, 1, end)
        } else {
            Vec::new()
        };
        PokedexEntryText { text: ROMString { value } }
    }

    /// The bytes of the text.
    pub fn to_raw(&self) -> (r: Vec<u8>)
        ensures
            r@ == spec_encode_pokedex_text(self@),
    {
        let mut out: Vec<u8> = Vec::new();
        out.push(0);
        crate::bytes::append_range(&mut out, &self.text.value, 0, self.text.value.len());
        out.push(POKEDEX_TEXT_END);
        proof {
            assert(self.text.value@.subrange(0, self.text.value@.len() as int)
                =~= self.text.value@);
            assert(out@ =~= spec_encode_pokedex_text(self@));
        }
        out
    }
}

/// Where the entry of the species at `internal_id` stands.
pub open spec fn spec_pokedex_entry_offset(rom: Seq<u8>, internal_id: u8) -> int {
    POKEDEX_ENTRIES_BANK + spec_u16_at(rom, POKEDEX_ENTRY_POINTERS + internal_id * 2)
}

/// The entry of the species `pokedex_id`.
pub open spec fn spec_get_pokedex_entry(rom: Seq<u8>, pokedex_id: u8) -> Result<
    PokedexEntryView,
    Error,
> {
    match spec_pokedex_id_to_internal_id(rom, pokedex_id) {
        Err(e) => Err(e),
        Ok(internal_id) => {
            let at = spec_pokedex_entry_offset(rom, internal_id);
            match spec_decode_pokedex_entry(rom.subrange(at, at + POKEDEX_ENTRY_WINDOW)) {
                None => Err(Error::RomMalformed),
                Some(entry) => Ok(entry),
            }
        },
    }
}

/// What the patch that sets the entry of the species `pokedex_id` to
/// `entry` writes, and where. The kind must be as long as the old one:
/// `PokedexEntrySpeciesWrongSize` with the old length and the new otherwise.
pub open spec fn spec_set_pokedex_entry(rom: Seq<u8>, pokedex_id: u8, entry: PokedexEntryView) -> Result<
    (int, Seq<u8>),
    Error,
> {
    match spec_get_pokedex_entry(rom, pokedex_id) {
        Err(e) => Err(e),
        Ok(old) => if old.species.len() != entry.species.len() {
            Err(
                Error::PokedexEntrySpeciesWrongSize(
                    old.species.len() as usize,
                    entry.species.len() as usize,
                ),
            )
        } else {
            Ok(
                (
                    spec_pokedex_entry_offset(
                        rom,
                        spec_pokedex_id_to_internal_id(rom, pokedex_id)->Ok_0,
                    ),
                    spec_encode_pokedex_entry(entry),
                ),
            )
        },
    }
}

/// Where the text of the entry at `at` stands: behind the terminator of the
/// kind, six bytes on, a pointer and a bank say where. There is no such
/// place where the kind has no terminator, the pointer lies beyond the
/// image, or points before or beyond it.
pub open spec fn spec_pokedex_text_offset(rom: Seq<u8>, at: int) -> Option<int> {
    match first_index_of(rom.skip(at), TERMINATOR) {
        None => None,
        Some(i) => {
            let descriptor = at + i + POKEDEX_TEXT_POINTER_AFTER;
            let offset = spec_u16_at(rom, descriptor) + rom[descriptor + 2] * 0x4000 - 0x4000;
            if descriptor + 3 <= rom.len() && 0 <= offset <= rom.len() {
                Some(offset)
            } else {
                None
            }
        },
    }
}

/// The text of the entry of the species `pokedex_id`.
pub open spec fn spec_get_pokedex_text(rom: Seq<u8>, pokedex_id: u8) -> Result<Seq<u8>, Error> {
    match spec_pokedex_id_to_internal_id(rom, pokedex_id) {
        Err(e) => Err(e),
        Ok(internal_id) => match spec_pokedex_text_offset(
            rom,
            spec_pokedex_entry_offset(rom, internal_id),
        ) {
            None => Err(Error::RomMalformed),
            Some(offset) => Ok(spec_decode_pokedex_text(rom.skip(offset))),
        },
    }
}

/// What the patch that sets the text of the entry of the species
/// `pokedex_id` to `text` writes, and where. The text must be shorter than
/// the old one: `PokedexTextWrongSize` with the old length and the new
/// otherwise.
pub open spec fn spec_set_pokedex_text(rom: Seq<u8>, pokedex_id: u8, text: Seq<u8>) -> Result<
    (int, Seq<u8>),
    Error,
> {
    match spec_get_pokedex_text(rom, pokedex_id) {
        Err(e) => Err(e),
        Ok(old) => if text.len() >= old.len() {
            Err(Error::PokedexTextWrongSize(old.len() as usize, text.len() as usize))
        } else {
            Ok(
                (
                    spec_pokedex_text_offset(
                        rom,
                        spec_pokedex_entry_offset(
                            rom,
                            spec_pokedex_id_to_internal_id(rom, pokedex_id)->Ok_0,
                        ),
                    )->Some_0,
                    spec_encode_pokedex_text(text),
                ),
            )
        },
    }
}

impl PkmnapiDB {
    /// The entry of the species `pokedex_id`.
    pub fn get_pokedex_entry(&self, pokedex_id: &u8) -> (r: Result<PokedexEntry, Error>)
        ensures
            match r {
                Ok(entry) => spec_get_pokedex_entry(self@, *pokedex_id) == Ok::<
                    PokedexEntryView,
                    Error,
                >(entry@),
                Err(e) => spec_get_pokedex_entry(self@, *pokedex_id) == Err::<
                    PokedexEntryView,
                    Error,
                >(e),
            },
    {
        let internal_id = self.pokedex_id_to_internal_id(pokedex_id)?;
        let rom = self.rom();
        let pointer = POKEDEX_ENTRIES_BANK + (u16_at(
            rom,
            POKEDEX_ENTRY_POINTERS + (internal_id as usize) * 2,
        ) as usize);
        let window = copy_range(rom, pointer, pointer + POKEDEX_ENTRY_WINDOW);
        match PokedexEntry::from(&window) {
            Some(entry) => Ok(entry),
            None => Err(Error::RomMalformed),
        }
    }

    /// The patch that sets the entry of the species `pokedex_id` to
    /// `pokedex_entry`.
    pub fn set_pokedex_entry(&self, pokedex_id: &u8, pokedex_entry: &PokedexEntry) -> (r: Result<
        Patch,
        Error,
    >)
        ensures
            patch_is(r, spec_set_pokedex_entry(self@, *pokedex_id, pokedex_entry@)),
    {
        let old = self.get_pokedex_entry(pokedex_id)?;
        let old_len = old.species.len();
        let new_len = pokedex_entry.species.len();
        if old_len != new_len {
            return Err(Error::PokedexEntrySpeciesWrongSize(old_len, new_len));
        }
        let internal_id = self.pokedex_id_to_internal_id(pokedex_id)?;
        let pointer = POKEDEX_ENTRIES_BANK + (u16_at(
            self.rom(),
            POKEDEX_ENTRY_POINTERS + (internal_id as usize) * 2,
        ) as usize);
        Ok(Patch::new(&pointer, &pokedex_entry.to_raw()))
    }

    /// Where the text of the entry at `at` stands.
    fn pokedex_text_offset(&self, at: usize) -> (r: Option<usize>)
        requires
            at <= crate::db::ROM_SIZE,
        ensures
            match r {
                Some(offset) => spec_pokedex_text_offset(self@, at as int) == Some(offset as int)
                    && offset <= self@.len(),
                None => spec_pokedex_text_offset(self@, at as int) is None,
            },
    {
        let rom = self.rom();
        let len = rom.len();
        proof {
            assert(rom@.subrange(at as int, len as int) =~= rom@.skip(at as int));
            lemma_first_index_of(rom@.skip(at as int), TERMINATOR);
        }
        let i = match find_byte(rom, at, len, TERMINATOR) {
            Some(i) => i,
            None => {
                return None;
            },
        };
        if len - (at + i) < POKEDEX_TEXT_POINTER_AFTER + 3 {
            return None;
        }
        let descriptor = at + i + POKEDEX_TEXT_POINTER_AFTER;
        let pointer = u16_at(rom, descriptor) as usize;
        let bank = rom[descriptor + 2] as usize;
        let sum = pointer + bank * 0x4000;
        if sum < 0x4000 || sum - 0x4000 > len {
            return None;
        }
        Some(sum - 0x4000)
    }

    /// The text of the entry of the species `pokedex_id`.
    pub fn get_pokedex_text(&self, pokedex_id: &u8) -> (r: Result<PokedexEntryText, Error>)
        ensures
            match r {
                Ok(text) => spec_get_pokedex_text(self@, *pokedex_id) == Ok::<Seq<u8>, Error>(
                    text@,
                ),
                Err(e) => spec_get_pokedex_text(self@, *pokedex_id) == Err::<Seq<u8>, Error>(e),
            },
    {
        let internal_id = self.pokedex_id_to_internal_id(pokedex_id)?;
        let rom = self.rom();
        let len = rom.len();
        let at = POKEDEX_ENTRIES_BANK + (u16_at(
            rom,
            POKEDEX_ENTRY_POINTERS + (internal_id as usize) * 2,
        ) as usize);
        let offset = match self.pokedex_text_offset(at) {
            Some(offset) => offset,
            None => {
                return Err(Error::RomMalformed);
            },
        };
        let ghost s = rom@.skip(offset as int);
        proof {
            assert(rom@.subrange(offset as int, len as int) =~= s);
            lemma_first_index_of(s, POKEDEX_TEXT_END);
        }
        let end = match find_byte(rom, offset, len, POKEDEX_TEXT_END) {
            Some(i) => i,
            None => len - offset,
        };
        let value = if end >= 1 {
            copy_range(rom, offset + 1, offset + end)
        } else {
            Vec::new()
        };
        proof {
            if end >= 1 {
                assert(value@ =~= s.subrange(1, end as int));
            }
        }
        Ok(PokedexEntryText { text: ROMString { value } })
    }

    /// The patch that sets the text of the entry of the species
    /// `pokedex_id` to `pokedex_text`.
    pub fn set_pokedex_text(&self, pokedex_id: &u8, pokedex_text: &PokedexEntryText) -> (r: Result<
        Patch,
        Error,
    >)
        ensures
            patch_is(r, spec_set_pokedex_text(self@, *pokedex_id, pokedex_text@)),
    {
        let old = self.get_pokedex_text(pokedex_id)?;
        let old_len = old.text.len();
        let new_len = pokedex_text.text.len();
        if new_len >= old_len {
            return Err(Error::PokedexTextWrongSize(old_len, new_len));
        }
        let internal_id = self.pokedex_id_to_internal_id(pokedex_id)?;
        let at = POKEDEX_ENTRIES_BANK + (u16_at(
            self.rom(),
            POKEDEX_ENTRY_POINTERS + (internal_id as usize) * 2,
        ) as usize);
        let offset = match self.pokedex_text_offset(at) {
            Some(offset) => offset,
            None => {
                return Err(Error::RomMalformed);
            },
        };
        Ok(Patch::new(&offset, &pokedex_text.to_raw()))
    }
}

} // verus!
