//! Names: of types, species, moves, trainer classes and items.
//!
//! A species' name fills a field of ten bytes. A type's name stands behind a
//! pointer. The names of moves, trainer classes and items stand one after
//! another, each closed by a terminator, and are found by counting
//! terminators from the start of their list.

use crate::bytes::{
    copy_range, find_byte, first_index_of, lemma_first_index_of, spec_u16_at, u16_at,
};
use crate::db::{PkmnapiDB, ROM_PAGE, ROM_SIZE};
use crate::error::Error;
use crate::ids::{
    spec_item_id_bounds, spec_move_id_bounds, spec_pokedex_id_to_internal_id,
    spec_pokemon_name_at, spec_trainer_id_bounds, spec_type_id_bounds, spec_validated,
    ITEM_NAMES, POKEMON_NAMES, POKEMON_NAME_WIDTH, TRAINER_NAMES, TYPE_NAME_POINTERS,
};
use crate::patch::Patch;
use crate::string::{text_part, TERMINATOR};
use crate::types::{
    padded, spec_padded_with, ItemName, MoveName, PokemonName, TrainerName, TypeName,
};
use vstd::prelude::*;

verus! {

/// The bank that the pointers to the type names point into.
pub const TYPE_NAMES_BANK: usize = ROM_PAGE * 0x10;

/// How many bytes are read for a type's name at most.
pub const TYPE_NAME_WINDOW: usize = 10;

/// Where the move names stand.
pub const MOVE_NAMES: usize = ROM_PAGE * 0x58;

/// How many bytes are read for a name in a list at most.
pub const LISTED_NAME_WINDOW: usize = 13;

/// Where the name of the type `type_id` stands.
pub open spec fn spec_type_name_offset(rom: Seq<u8>, type_id: u8) -> int {
    TYPE_NAMES_BANK + spec_u16_at(rom, TYPE_NAME_POINTERS + type_id * 2)
}

/// The name of the type `type_id`.
pub open spec fn spec_get_type_name(rom: Seq<u8>, type_id: u8) -> Result<Seq<u8>, Error> {
    match spec_validated(
        spec_type_id_bounds(rom),
        type_id,
        Error::TypeIDInvalid(
            type_id,
            spec_type_id_bounds(rom)->Some_0.0,
            spec_type_id_bounds(rom)->Some_0.1,
        ),
    ) {
        Err(e) => Err(e),
        Ok(_) => Ok(
            text_part(
                rom.subrange(
                    spec_type_name_offset(rom, type_id),
                    spec_type_name_offset(rom, type_id) + TYPE_NAME_WINDOW,
                ),
            ),
        ),
    }
}

/// What the patch that renames the type `type_id` to `name` writes, and
/// where: the name, padded with terminators to the length of the old one. A
/// name longer than the old one gives `TypeNameWrongSize` with the old
/// length and the new.
pub open spec fn spec_set_type_name(rom: Seq<u8>, type_id: u8, name: Seq<u8>) -> Result<
    (int, Seq<u8>),
    Error,
> {
    match spec_get_type_name(rom, type_id) {
        Err(e) => Err(e),
        Ok(old) => if old.len() < name.len() {
            Err(Error::TypeNameWrongSize(old.len() as usize, name.len() as usize))
        } else {
            Ok(
                (
                    spec_type_name_offset(rom, type_id),
                    spec_padded_with(name, (old.len() - name.len()) as nat, TERMINATOR),
                ),
            )
        },
    }
}

/// Where the field of the name of the species at `internal_id` stands.
pub open spec fn spec_pokemon_name_offset(internal_id: u8) -> int {
    POKEMON_NAMES + internal_id * POKEMON_NAME_WIDTH
}

/// The name of the species `pokedex_id`.
pub open spec fn spec_get_pokemon_name(rom: Seq<u8>, pokedex_id: u8) -> Result<Seq<u8>, Error> {
    match spec_pokedex_id_to_internal_id(rom, pokedex_id) {
        Err(e) => Err(e),
        Ok(internal_id) => Ok(spec_pokemon_name_at(rom, internal_id as int)),
    }
}

/// What the patch that renames the species `pokedex_id` to `name` writes,
/// and where: the name, padded with terminators to the width of its field. A
/// name wider than the field gives `PokemonNameWrongSize` with the width and
/// the name's length.
pub open spec fn spec_set_pokemon_name(rom: Seq<u8>, pokedex_id: u8, name: Seq<u8>) -> Result<
    (int, Seq<u8>),
    Error,
> {
    match spec_pokedex_id_to_internal_id(rom, pokedex_id) {
        Err(e) => Err(e),
        Ok(internal_id) => if name.len() > POKEMON_NAME_WIDTH {
            Err(Error::PokemonNameWrongSize(POKEMON_NAME_WIDTH, name.len() as usize))
        } else {
            Ok(
                (
                    spec_pokemon_name_offset(internal_id),
                    spec_padded_with(
                        name,
                        (POKEMON_NAME_WIDTH - name.len()) as nat,
                        TERMINATOR,
                    ),
                ),
            )
        },
    }
}

/// Where record `n`, counted from zero, starts in a list `s` of records that
/// a terminator closes each: after the `n`-th terminator. A list with fewer
/// terminators has no such record.
pub open spec fn spec_record_start(s: Seq<u8>, n: nat) -> Option<int>
    decreases n,
{
    if n == 0 {
        Some(0)
    } else {
        match first_index_of(s, TERMINATOR) {
            None => None,
            Some(i) => match spec_record_start(s.skip(i + 1), (n - 1) as nat) {
                Some(start) => Some(start + i + 1),
                None => None,
            },
        }
    }
}

/// Where the bytes that are read for the name at `offset` end: after
/// `LISTED_NAME_WINDOW` bytes, or where the image ends.
pub open spec fn spec_listed_window_end(rom: Seq<u8>, offset: int) -> int {
    if offset + LISTED_NAME_WINDOW <= rom.len() {
        offset + LISTED_NAME_WINDOW
    } else {
        rom.len() as int
    }
}

/// The name that stands at `offset` in a list of names.
pub open spec fn spec_listed_name_at(rom: Seq<u8>, offset: int) -> Seq<u8> {
    text_part(rom.subrange(offset, spec_listed_window_end(rom, offset)))
}

/// The name with the identifier `id` in the list of names at `base`, whose
/// identifiers have the range `bounds`: `invalid` where the range does not
/// hold `id`, or the list no such name.
pub open spec fn spec_get_listed_name(
    rom: Seq<u8>,
    base: int,
    bounds: Option<(usize, usize)>,
    id: u8,
    invalid: Error,
) -> Result<Seq<u8>, Error> {
    match spec_validated(bounds, id, invalid) {
        Err(e) => Err(e),
        Ok(_) => match spec_record_start(rom.skip(base), (id - 1) as nat) {
            None => Err(invalid),
            Some(start) => Ok(spec_listed_name_at(rom, base + start)),
        },
    }
}

/// What the patch that renames entry `id` of the list of names at `base` to
/// `name` writes, and where: `wrong_size` where the name has not the length
/// of the old one.
pub open spec fn spec_set_listed_name(
    rom: Seq<u8>,
    base: int,
    bounds: Option<(usize, usize)>,
    id: u8,
    invalid: Error,
    name: Seq<u8>,
    wrong_size: Error,
) -> Result<(int, Seq<u8>), Error> {
    match spec_get_listed_name(rom, base, bounds, id, invalid) {
        Err(e) => Err(e),
        Ok(old) => if old.len() != name.len() {
            Err(wrong_size)
        } else {
            Ok((base + spec_record_start(rom.skip(base), (id - 1) as nat)->Some_0, name))
        },
    }
}

/// The error for a move identifier outside the range of the image.
pub open spec fn spec_move_id_invalid(rom: Seq<u8>, id: u8) -> Error {
    Error::MoveIDInvalid(id, spec_move_id_bounds(rom)->Some_0.0, spec_move_id_bounds(rom)->Some_0.1)
}

/// The error for a trainer identifier outside the range of the image.
pub open spec fn spec_trainer_id_invalid(rom: Seq<u8>, id: u8) -> Error {
    Error::TrainerIDInvalid(
        id,
        spec_trainer_id_bounds(rom)->Some_0.0,
        spec_trainer_id_bounds(rom)->Some_0.1,
    )
}

/// The error for an item identifier outside the range of the image.
pub open spec fn spec_item_id_invalid(rom: Seq<u8>, id: u8) -> Error {
    Error::ItemIDInvalid(id, spec_item_id_bounds(rom)->Some_0.0, spec_item_id_bounds(rom)->Some_0.1)
}

/// The name of the move `move_id`.
pub open spec fn spec_get_move_name(rom: Seq<u8>, move_id: u8) -> Result<Seq<u8>, Error> {
    spec_get_listed_name(
        rom,
        MOVE_NAMES as int,
        spec_move_id_bounds(rom),
        move_id,
        spec_move_id_invalid(rom, move_id),
    )
}

/// The name of the trainer class `trainer_id`.
pub open spec fn spec_get_trainer_name(rom: Seq<u8>, trainer_id: u8) -> Result<Seq<u8>, Error> {
    spec_get_listed_name(
        rom,
        TRAINER_NAMES as int,
        spec_trainer_id_bounds(rom),
        trainer_id,
        spec_trainer_id_invalid(rom, trainer_id),
    )
}

/// The name of the item `item_id`.
pub open spec fn spec_get_item_name(rom: Seq<u8>, item_id: u8) -> Result<Seq<u8>, Error> {
    spec_get_listed_name(
        rom,
        ITEM_NAMES as int,
        spec_item_id_bounds(rom),
        item_id,
        spec_item_id_invalid(rom, item_id),
    )
}

/// What the patch that renames the move `move_id` to `name` writes, and where.
pub open spec fn spec_set_move_name(rom: Seq<u8>, move_id: u8, name: Seq<u8>) -> Result<
    (int, Seq<u8>),
    Error,
> {
    spec_set_listed_name(
        rom,
        MOVE_NAMES as int,
        spec_move_id_bounds(rom),
        move_id,
        spec_move_id_invalid(rom, move_id),
        name,
        Error::MoveNameWrongSize(
            spec_get_move_name(rom, move_id)->Ok_0.len() as usize,
            name.len() as usize,
        ),
    )
}

/// What the patch that renames the trainer class `trainer_id` to `name`
/// writes, and where.
pub open spec fn spec_set_trainer_name(rom: Seq<u8>, trainer_id: u8, name: Seq<u8>) -> Result<
    (int, Seq<u8>),
    Error,
> {
    spec_set_listed_name(
        rom,
        TRAINER_NAMES as int,
        spec_trainer_id_bounds(rom),
        trainer_id,
        spec_trainer_id_invalid(rom, trainer_id),
        name,
        Error::TrainerNameWrongSize(
            spec_get_trainer_name(rom, trainer_id)->Ok_0.len() as usize,
            name.len() as usize,
        ),
    )
}

/// What the patch that renames the item `item_id` to `name` writes, and where.
pub open spec fn spec_set_item_name(rom: Seq<u8>, item_id: u8, name: Seq<u8>) -> Result<
    (int, Seq<u8>),
    Error,
> {
    spec_set_listed_name(
        rom,
        ITEM_NAMES as int,
        spec_item_id_bounds(rom),
        item_id,
        spec_item_id_invalid(rom, item_id),
        name,
        Error::ItemNameWrongSize(
            spec_get_item_name(rom, item_id)->Ok_0.len() as usize,
            name.len() as usize,
        ),
    )
}

/// Whether a patch is what `w` describes, or an error the one that `w` holds.
pub open spec fn patch_is(r: Result<Patch, Error>, w: Result<(int, Seq<u8>), Error>) -> bool {
    match r {
        Ok(p) => w is Ok && p.writes(w->Ok_0.0, w->Ok_0.1),
        Err(e) => w == Err::<(int, Seq<u8>), Error>(e),
    }
}

/// Whether `internal_id` is the first place in storage order, among the
/// species that the image stores, whose species has the name `name`.
pub open spec fn is_first_named(rom: Seq<u8>, name: Seq<u8>, internal_id: int) -> bool {
    &&& crate::ids::spec_internal_max(rom) is Some
    &&& 0 <= internal_id < crate::ids::spec_internal_max(rom)->Some_0
    &&& spec_pokemon_name_at(rom, internal_id) == name
    &&& forall|j: int| 0 <= j < internal_id ==> #[trigger] spec_pokemon_name_at(rom, j) != name
}

/// Whether the image stores no species with the name `name`.
pub open spec fn none_named(rom: Seq<u8>, name: Seq<u8>) -> bool {
    crate::ids::spec_internal_max(rom) matches Some(max) ==> forall|j: int|
        0 <= j < max ==> #[trigger] spec_pokemon_name_at(rom, j) != name
}

/// Whether `a` and `b` hold the same bytes.
fn same_bytes(a: &Vec<u8>, b: &Vec<u8>) -> (r: bool)
    ensures
        r == (a@ == b@),
{
    if a.len() != b.len() {
        return false;
    }
    let mut i: usize = 0;
    while i < a.len()
        invariant
            i <= a@.len() == b@.len(),
            forall|j: int| 0 <= j < i ==> a@[j] == b@[j],
        decreases a@.len() - i,
    {
        if a[i] != b[i] {
            return false;
        }
        i += 1;
    }
    proof {
        assert(a@ =~= b@);
    }
    true
}

impl PkmnapiDB {
    /// Where record `n`, counted from zero, starts in the list at `base`.
    pub(crate) fn record_start(&self, base: usize, n: usize) -> (r: Option<usize>)
        requires
            base <= ROM_SIZE,
        ensures
            match r {
                Some(offset) => base <= offset <= self@.len() && spec_record_start(
                    self@.skip(base as int),
                    n as nat,
                ) == Some(offset - base),
                None => spec_record_start(self@.skip(base as int), n as nat) is None,
            },
    {
        let rom = self.rom();
        let len = rom.len();
        let mut pos: usize = base;
        let mut k: usize = 0;
        while k < n
            invariant
                k <= n,
                base <= pos <= len == rom@.len(),
                rom@ == self@,
                spec_record_start(self@.skip(base as int), n as nat) == match spec_record_start(
                    self@.skip(pos as int),
                    (n - k) as nat,
                ) {
                    Some(start) => Some(start + pos - base),
                    None => None,
                },
            decreases n - k,
        {
            proof {
                assert(rom@.subrange(pos as int, len as int) =~= self@.skip(pos as int));
                lemma_first_index_of(self@.skip(pos as int), TERMINATOR);
            }
            match find_byte(rom, pos, len, TERMINATOR) {
                None => {
                    return None;
                },
                Some(i) => {
                    proof {
                        assert(self@.skip(pos as int).skip(i + 1) =~= self@.skip(pos + i + 1));
                    }
                    pos = pos + i + 1;
                    k += 1;
                },
            }
        }
        Some(pos)
    }

    /// The display number of the first species in storage order that has
    /// the name `pokemon_name`, if the image stores one.
    pub fn pokemon_name_to_pokedex_id(&self, pokemon_name: &PokemonName) -> (r: Option<u8>)
        ensures
            match r {
                Some(pokedex_id) => exists|i: int| #[trigger]
                    is_first_named(self@, pokemon_name@, i) && pokedex_id == self@[
                        crate::ids::POKEDEX_IDS + i],
                None => none_named(self@, pokemon_name@),
            },
    {
        let max = match self.internal_max() {
            Some(max) => max,
            None => {
                return None;
            },
        };
        let rom = self.rom();
        let mut i: usize = 0;
        while i < max
            invariant
                i <= max < 255,
                rom@ == self@,
                rom@.len() >= ROM_SIZE,
                crate::ids::spec_internal_max(self@) == Some(max),
                forall|j: int| 0 <= j < i ==> #[trigger] spec_pokemon_name_at(self@, j)
                    != pokemon_name@,
            decreases max - i,
        {
            let offset = POKEMON_NAMES + i * POKEMON_NAME_WIDTH;
            let field = copy_range(rom, offset, offset + POKEMON_NAME_WIDTH);
            let name = PokemonName::from(&field);
            if same_bytes(&name.name.value, &pokemon_name.name.value) {
                proof {
                    assert(is_first_named(self@, pokemon_name@, i as int));
                }
                return Some(rom[crate::ids::POKEDEX_IDS + i]);
            }
            i += 1;
        }
        None
    }

    /// The name of the type `type_id`.
    pub fn get_type_name(&self, type_id: &u8) -> (r: Result<TypeName, Error>)
        ensures
            match r {
                Ok(name) => spec_get_type_name(self@, *type_id) == Ok::<Seq<u8>, Error>(name@),
                Err(e) => spec_get_type_name(self@, *type_id) == Err::<Seq<u8>, Error>(e),
            },
    {
        let _bounds = self.type_id_validate(type_id)?;
        let rom = self.rom();
        let pointer = TYPE_NAMES_BANK + (u16_at(rom, TYPE_NAME_POINTERS + (*type_id as usize) * 2)
            as usize);
        let window = copy_range(rom, pointer, pointer + TYPE_NAME_WINDOW);
        Ok(TypeName::from(&window))
    }

    /// The patch that renames the type `type_id` to `name`.
    pub fn set_type_name(&self, type_id: &u8, name: &TypeName) -> (r: Result<Patch, Error>)
        ensures
            patch_is(r, spec_set_type_name(self@, *type_id, name@)),
    {
        let old_type_name = self.get_type_name(type_id)?;
        let old_len = old_type_name.name.len();
        let raw = name.to_raw();
        let new_len = raw.len();
        if old_len < new_len {
            return Err(Error::TypeNameWrongSize(old_len, new_len));
        }
        let rom = self.rom();
        let pointer = TYPE_NAMES_BANK + (u16_at(rom, TYPE_NAME_POINTERS + (*type_id as usize) * 2)
            as usize);
        let data = padded(&raw, old_len);
        Ok(Patch::new(&pointer, &data))
    }

    /// The name of the species `pokedex_id`.
    pub fn get_pokemon_name(&self, pokedex_id: &u8) -> (r: Result<PokemonName, Error>)
        ensures
            match r {
                Ok(name) => spec_get_pokemon_name(self@, *pokedex_id) == Ok::<Seq<u8>, Error>(
                    name@,
                ),
                Err(e) => spec_get_pokemon_name(self@, *pokedex_id) == Err::<Seq<u8>, Error>(e),
            },
    {
        let internal_id = self.pokedex_id_to_internal_id(pokedex_id)?;
        let offset = POKEMON_NAMES + (internal_id as usize) * POKEMON_NAME_WIDTH;
        let field = copy_range(self.rom(), offset, offset + POKEMON_NAME_WIDTH);
        Ok(PokemonName::from(&field))
    }

    /// The patch that renames the species `pokedex_id` to `pokemon_name`.
    pub fn set_pokemon_name(&self, pokedex_id: &u8, pokemon_name: &PokemonName) -> (r: Result<
        Patch,
        Error,
    >)
        ensures
            patch_is(r, spec_set_pokemon_name(self@, *pokedex_id, pokemon_name@)),
    {
        let internal_id = self.pokedex_id_to_internal_id(pokedex_id)?;
        let offset = POKEMON_NAMES + (internal_id as usize) * POKEMON_NAME_WIDTH;
        let raw = pokemon_name.to_raw();
        if raw.len() > POKEMON_NAME_WIDTH {
            return Err(Error::PokemonNameWrongSize(POKEMON_NAME_WIDTH, raw.len()));
        }
        let data = padded(&raw, POKEMON_NAME_WIDTH);
        Ok(Patch::new(&offset, &data))
    }

    /// Where the name with the identifier `id` stands in the list at `base`:
    /// `invalid` where the list has no such name.
    fn listed_name_offset(&self, base: usize, id: u8, invalid: Error) -> (r: Result<usize, Error>)
        requires
            base <= ROM_SIZE,
            id >= 1,
        ensures
            match r {
                Ok(offset) => {
                    &&& spec_record_start(self@.skip(base as int), (id - 1) as nat) == Some(
                        offset - base,
                    )
                    &&& base <= offset <= self@.len()
                },
                Err(e) => spec_record_start(self@.skip(base as int), (id - 1) as nat) is None
                    && e == invalid,
            },
    {
        let offset = match self.record_start(base, (id - 1) as usize) {
            Some(offset) => offset,
            None => {
                return Err(invalid);
            },
        };
        Ok(offset)
    }

    /// The name of the move `move_id`.
    pub fn get_move_name(&self, move_id: &u8) -> (r: Result<MoveName, Error>)
        ensures
            match r {
                Ok(name) => spec_get_move_name(self@, *move_id) == Ok::<Seq<u8>, Error>(name@),
                Err(e) => spec_get_move_name(self@, *move_id) == Err::<Seq<u8>, Error>(e),
            },
    {
        let (min_id, max_id) = self.move_id_validate(move_id)?;
        let offset = self.listed_name_offset(
            MOVE_NAMES,
            *move_id,
            Error::MoveIDInvalid(*move_id, min_id, max_id),
        )?;
        let rom = self.rom();
        let len = rom.len();
        let end = if len - offset >= LISTED_NAME_WINDOW {
            offset + LISTED_NAME_WINDOW
        } else {
            len
        };
        let window = copy_range(rom, offset, end);
        Ok(MoveName::from(&window))
    }

    /// The patch that renames the move `move_id` to `move_name`, which must
    /// be as long as the old name: `MoveNameWrongSize` with the old length and
    /// the new otherwise.
    pub fn set_move_name(&self, move_id: &u8, move_name: &MoveName) -> (r: Result<Patch, Error>)
        ensures
            patch_is(r, spec_set_move_name(self@, *move_id, move_name@)),
    {
        let (min_id, max_id) = self.move_id_validate(move_id)?;
        let old_move_name = self.get_move_name(move_id)?;
        let old_len = old_move_name.name.len();
        let raw = move_name.to_raw();
        if old_len != raw.len() {
            return Err(Error::MoveNameWrongSize(old_len, raw.len()));
        }
        let offset = self.listed_name_offset(
            MOVE_NAMES,
            *move_id,
            Error::MoveIDInvalid(*move_id, min_id, max_id),
        )?;
        Ok(Patch::new(&offset, &raw))
    }

    /// The name of the trainer class `trainer_id`.
    pub fn get_trainer_name(&self, trainer_id: &u8) -> (r: Result<TrainerName, Error>)
        ensures
            match r {
                Ok(name) => spec_get_trainer_name(self@, *trainer_id) == Ok::<Seq<u8>, Error>(
                    name@,
                ),
                Err(e) => spec_get_trainer_name(self@, *trainer_id) == Err::<Seq<u8>, Error>(e),
            },
    {
        let (min_id, max_id) = self.trainer_id_validate(trainer_id)?;
        let offset = self.listed_name_offset(
            TRAINER_NAMES,
            *trainer_id,
            Error::TrainerIDInvalid(*trainer_id, min_id, max_id),
        )?;
        let rom = self.rom();
        let len = rom.len();
        let end = if len - offset >= LISTED_NAME_WINDOW {
            offset + LISTED_NAME_WINDOW
        } else {
            len
        };
        let window = copy_range(rom, offset, end);
        Ok(TrainerName::from(&window))
    }

    /// The patch that renames the trainer class `trainer_id` to
    /// `trainer_name`, which must be as long as the old name:
    /// `TrainerNameWrongSize` with the old length and the new otherwise.
    pub fn set_trainer_name(&self, trainer_id: &u8, trainer_name: &TrainerName) -> (r: Result<
        Patch,
        Error,
    >)
        ensures
            patch_is(r, spec_set_trainer_name(self@, *trainer_id, trainer_name@)),
    {
        let (min_id, max_id) = self.trainer_id_validate(trainer_id)?;
        let old_trainer_name = self.get_trainer_name(trainer_id)?;
        let old_len = old_trainer_name.name.len();
        let raw = trainer_name.to_raw();
        if old_len != raw.len() {
            return Err(Error::TrainerNameWrongSize(old_len, raw.len()));
        }
        let offset = self.listed_name_offset(
            TRAINER_NAMES,
            *trainer_id,
            Error::TrainerIDInvalid(*trainer_id, min_id, max_id),
        )?;
        Ok(Patch::new(&offset, &raw))
    }

    /// The name of the item `item_id`.
    pub fn get_item_name(&self, item_id: &u8) -> (r: Result<ItemName, Error>)
        ensures
            match r {
                Ok(name) => spec_get_item_name(self@, *item_id) == Ok::<Seq<u8>, Error>(name@),
                Err(e) => spec_get_item_name(self@, *item_id) == Err::<Seq<u8>, Error>(e),
            },
    {
        let (min_id, max_id) = self.item_id_validate(item_id)?;
        let offset = self.listed_name_offset(
            ITEM_NAMES,
            *item_id,
            Error::ItemIDInvalid(*item_id, min_id, max_id),
        )?;
        let rom = self.rom();
        let len = rom.len();
        let end = if len - offset >= LISTED_NAME_WINDOW {
            offset + LISTED_NAME_WINDOW
        } else {
            len
        };
        let window = copy_range(rom, offset, end);
        Ok(ItemName::from(&window))
    }

    /// The patch that renames the item `item_id` to `item_name`, which must
    /// be as long as the old name: `ItemNameWrongSize` with the old length and
    /// the new otherwise.
    pub fn set_item_name(&self, item_id: &u8, item_name: &ItemName) -> (r: Result<Patch, Error>)
        ensures
            patch_is(r, spec_set_item_name(self@, *item_id, item_name@)),
    {
        let (min_id, max_id) = self.item_id_validate(item_id)?;
        let old_item_name = self.get_item_name(item_id)?;
        let old_len = old_item_name.name.len();
        let raw = item_name.to_raw();
        if old_len != raw.len() {
            return Err(Error::ItemNameWrongSize(old_len, raw.len()));
        }
        let offset = self.listed_name_offset(
            ITEM_NAMES,
            *item_id,
            Error::ItemIDInvalid(*item_id, min_id, max_id),
        )?;
        Ok(Patch::new(&offset, &raw))
    }
}

} // verus!
