//! The records of the image as plain values, each with its byte form.

use crate::bytes::{find_byte, lemma_first_index_of};
use crate::string::{text_part, ROMString, TERMINATOR};
use vstd::prelude::*;

verus! {

/// The name at the start of `rom`: the bytes before the first terminator.
pub fn name_of(rom: &Vec<u8>) -> (r: ROMString)
    ensures
        r@ == text_part(rom@),
{
    let len = rom.len();
    proof {
        assert(rom@.subrange(0, len as int) =~= rom@);
        lemma_first_index_of(rom@, TERMINATOR);
    }
    let end = match find_byte(rom, 0, len, TERMINATOR) {
        Some(i) => i,
        None => len,
    };
    let value = crate::bytes::copy_range(rom, 0, end);
    proof {
        assert(rom@.subrange(0, end as int) =~= rom@.take(end as int));
        assert(rom@.take(len as int) =~= rom@);
    }
    ROMString { value }
}

/// `name` followed by `pad`, repeated `n` times.
pub open spec fn spec_padded_with(name: Seq<u8>, n: nat, pad: u8) -> Seq<u8> {
    name + Seq::new(n, |i: int| pad)
}

/// `name`, padded with terminators to `width` bytes.
pub fn padded(name: &Vec<u8>, width: usize) -> (r: Vec<u8>)
    requires
        name@.len() <= width,
    ensures
        r@ == spec_padded_with(name@, (width - name@.len()) as nat, TERMINATOR),
        r@.len() == width,
{
    let mut out = name.clone();
    let mut i: usize = name.len();
    proof {
        assert(out@ =~= spec_padded_with(name@, 0, TERMINATOR));
    }
    while i < width
        invariant
            name@.len() <= i <= width,
            out@ == spec_padded_with(name@, (i - name@.len()) as nat, TERMINATOR),
        decreases width - i,
    {
        out.push(TERMINATOR);
        i += 1;
        proof {
            assert(out@ =~= spec_padded_with(name@, (i - name@.len()) as nat, TERMINATOR));
        }
    }
    out
}

/// The name of a species.
#[derive(Debug, PartialEq)]
pub struct PokemonName {
    pub name: ROMString,
}

impl View for PokemonName {
    type V = Seq<u8>;

    open spec fn view(&self) -> Seq<u8> {
        self.name@
    }
}

impl PokemonName {
    /// The name at the start of `rom`, up to its first terminator.
    pub fn from(rom: &Vec<u8>) -> (r: PokemonName)
        ensures
            r@ == text_part(rom@),
    {
        PokemonName { name: name_of(rom) }
    }

    /// The bytes of the name.
    pub fn to_raw(&self) -> (r: Vec<u8>)
        ensures
            r@ == self@,
    {
        self.name.value.clone()
    }
}

/// The name of a type.
#[derive(Debug, PartialEq)]
pub struct TypeName {
    pub name: ROMString,
}

impl View for TypeName {
    type V = Seq<u8>;

    open spec fn view(&self) -> Seq<u8> {
        self.name@
    }
}

impl TypeName {
    /// The name at the start of `rom`, up to its first terminator.
    pub fn from(rom: &Vec<u8>) -> (r: TypeName)
        ensures
            r@ == text_part(rom@),
    {
        TypeName { name: name_of(rom) }
    }

    /// The bytes of the name.
    pub fn to_raw(&self) -> (r: Vec<u8>)
        ensures
            r@ == self@,
    {
        self.name.value.clone()
    }
}

/// The name of a move.
#[derive(Debug, PartialEq)]
pub struct MoveName {
    pub name: ROMString,
}

impl View for MoveName {
    type V = Seq<u8>;

    open spec fn view(&self) -> Seq<u8> {
        self.name@
    }
}

impl MoveName {
    /// The name at the start of `rom`, up to its first terminator.
    pub fn from(rom: &Vec<u8>) -> (r: MoveName)
        ensures
            r@ == text_part(rom@),
    {
        MoveName { name: name_of(rom) }
    }

    /// The bytes of the name.
    pub fn to_raw(&self) -> (r: Vec<u8>)
        ensures
            r@ == self@,
    {
        self.name.value.clone()
    }
}

/// The name of a trainer class.
#[derive(Debug, PartialEq)]
pub struct TrainerName {
    pub name: ROMString,
}

impl View for TrainerName {
    type V = Seq<u8>;

    open spec fn view(&self) -> Seq<u8> {
        self.name@
    }
}

impl TrainerName {
    /// The name at the start of `rom`, up to its first terminator.
    pub fn from(rom: &Vec<u8>) -> (r: TrainerName)
        ensures
            r@ == text_part(rom@),
    {
        TrainerName { name: name_of(rom) }
    }

    /// The bytes of the name.
    pub fn to_raw(&self) -> (r: Vec<u8>)
        ensures
            r@ == self@,
    {
        self.name.value.clone()
    }
}

/// The name of an item.
#[derive(Debug, PartialEq)]
pub struct ItemName {
    pub name: ROMString,
}

impl View for ItemName {
    type V = Seq<u8>;

    open spec fn view(&self) -> Seq<u8> {
        self.name@
    }
}

impl ItemName {
    /// The name at the start of `rom`, up to its first terminator.
    pub fn from(rom: &Vec<u8>) -> (r: ItemName)
        ensures
            r@ == text_part(rom@),
    {
        ItemName { name: name_of(rom) }
    }

    /// The bytes of the name.
    pub fn to_raw(&self) -> (r: Vec<u8>)
        ensures
            r@ == self@,
    {
        self.name.value.clone()
    }
}

} // verus!
