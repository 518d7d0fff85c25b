//! Which machines a species can learn from: a field of 56 bits, the TMs
//! first and the HMs after them.

use crate::db::PkmnapiDB;
use crate::error::Error;
use crate::ids::{spec_hm_id_bounds, spec_pokedex_id_to_internal_id, MAX_TM_ID};
use crate::patch::Patch;
use crate::stats::{spec_stats_offset, MACHINES_IN_STATS};
use vstd::prelude::*;

verus! {

/// The number of bytes in the field.
pub const MACHINE_BYTES: usize = 7;

/// The number of bits in the field.
pub const MACHINE_BITS: usize = 56;

/// A machine: a TM or an HM, with its number.
#[derive(Debug, Clone, Copy, PartialEq, Eq, PartialOrd, Ord, Structural)]
pub enum PokemonMachine {
    TM(u8),
    HM(u8),
}

/// The highest HM number that the image allows and the field has a bit for.
pub open spec fn spec_max_hm(rom: Seq<u8>) -> Option<int> {
    match spec_hm_id_bounds(rom) {
        Some(b) => if b.1 <= MACHINE_BITS - MAX_TM_ID {
            Some(b.1 as int)
        } else {
            Some(MACHINE_BITS - MAX_TM_ID)
        },
        None => None,
    }
}

/// Whether the machine exists: its number lies in the range of its kind.
pub open spec fn machine_valid(m: PokemonMachine, max_hm: int) -> bool {
    match m {
        PokemonMachine::TM(id) => 1 <= id <= MAX_TM_ID,
        PokemonMachine::HM(id) => 1 <= id <= max_hm,
    }
}

/// The machine's bit in the field.
pub open spec fn machine_bit(m: PokemonMachine) -> int {
    match m {
        PokemonMachine::TM(id) => id - 1,
        PokemonMachine::HM(id) => id - 1 + MAX_TM_ID,
    }
}

/// The machine that bit `i` of the field stands for.
pub open spec fn bit_machine(i: int) -> PokemonMachine {
    if i < MAX_TM_ID {
        PokemonMachine::TM((i + 1) as u8)
    } else {
        PokemonMachine::HM((i + 1 - MAX_TM_ID) as u8)
    }
}

/// The machine's place in the order of the machines: the TMs by number, then
/// the HMs by number.
pub open spec fn machine_rank(m: PokemonMachine) -> int {
    match m {
        PokemonMachine::TM(id) => id as int,
        PokemonMachine::HM(id) => 256 + id,
    }
}

/// The error for a machine that does not exist.
pub open spec fn machine_error(m: PokemonMachine, max_hm: int) -> Error {
    match m {
        PokemonMachine::TM(id) => Error::TMIDInvalid(id, 1, MAX_TM_ID),
        PokemonMachine::HM(id) => Error::HMIDInvalid(id, 1, max_hm as usize),
    }
}

/// Whether bit `i` of the field `bytes` is set: bit zero is the lowest bit
/// of the first byte.
pub open spec fn field_bit(bytes: Seq<u8>, i: int) -> bool
    recommends
        0 <= i < 8 * bytes.len(),
{
    (bytes[i / 8] >> ((i % 8) as u8)) & 1 == 1
}

/// The machines that the first `n` bits of the field `bytes` name, in the
/// order of their bits. A bit that stands for a machine that does not exist
/// names none.
pub open spec fn spec_decode_machines_upto(bytes: Seq<u8>, max_hm: int, n: int) -> Seq<
    PokemonMachine,
>
    recommends
        bytes.len() == MACHINE_BYTES,
        0 <= n <= MACHINE_BITS,
    decreases n,
{
    if n <= 0 {
        Seq::empty()
    } else {
        let rest = spec_decode_machines_upto(bytes, max_hm, n - 1);
        if field_bit(bytes, n - 1) && machine_valid(bit_machine(n - 1), max_hm) {
            rest.push(bit_machine(n - 1))
        } else {
            rest
        }
    }
}

/// The machines that the field `bytes` names.
pub open spec fn spec_decode_machines(bytes: Seq<u8>, max_hm: int) -> Seq<PokemonMachine> {
    spec_decode_machines_upto(bytes, max_hm, MACHINE_BITS as int)
}

/// Whether `machines` holds the machine of bit `i`.
pub open spec fn has_machine_bit(machines: Seq<PokemonMachine>, i: int) -> bool {
    exists|k: int| 0 <= k < machines.len() && machine_bit(#[trigger] machines[k]) == i
}

/// The byte whose bit `k` is set where `bits[k]` holds.
pub open spec fn spec_pack(bits: Seq<bool>) -> u8
    recommends
        bits.len() == 8,
{
    (if bits[0] { 0x01u8 } else { 0 }) | (if bits[1] { 0x02u8 } else { 0 }) | (if bits[2] {
        0x04u8
    } else {
        0
    }) | (if bits[3] { 0x08u8 } else { 0 }) | (if bits[4] { 0x10u8 } else { 0 }) | (if bits[5] {
        0x20u8
    } else {
        0
    }) | (if bits[6] { 0x40u8 } else { 0 }) | (if bits[7] { 0x80u8 } else { 0 })
}

/// The field in which exactly the bits of `machines` are set. It depends on
/// which machines `machines` holds, not on their order.
pub open spec fn spec_encode_machines(machines: Seq<PokemonMachine>) -> Seq<u8> {
    Seq::new(
        MACHINE_BYTES as nat,
        |j: int| spec_pack(Seq::new(8, |k: int| has_machine_bit(machines, 8 * j + k))),
    )
}

/// The first machine of `machines`, in the order of the machines, that does
/// not exist.
pub open spec fn is_least_invalid(
    machines: Seq<PokemonMachine>,
    max_hm: int,
    m: PokemonMachine,
) -> bool {
    &&& machines.contains(m)
    &&& !machine_valid(m, max_hm)
    &&& forall|k: int|
        0 <= k < machines.len() && !machine_valid(#[trigger] machines[k], max_hm)
            ==> machine_rank(m) <= machine_rank(machines[k])
}

/// Where the field of the species `pokedex_id` stands.
pub open spec fn spec_machines_offset(pokedex_id: u8) -> int {
    spec_stats_offset(pokedex_id) + MACHINES_IN_STATS
}

/// The machines that the species `pokedex_id` can learn from.
pub open spec fn spec_get_pokemon_machines(rom: Seq<u8>, pokedex_id: u8) -> Result<
    Seq<PokemonMachine>,
    Error,
> {
    match spec_pokedex_id_to_internal_id(rom, pokedex_id) {
        Err(e) => Err(e),
        Ok(_) => match spec_max_hm(rom) {
            None => Err(Error::RomMalformed),
            Some(max_hm) => Ok(
                spec_decode_machines(
                    rom.subrange(
                        spec_machines_offset(pokedex_id),
                        spec_machines_offset(pokedex_id) + MACHINE_BYTES,
                    ),
                    max_hm,
                ),
            ),
        },
    }
}

/// Bit `k` of the byte that `spec_pack` makes of `bits` is `bits[k]`.
pub proof fn lemma_pack_bit(bits: Seq<bool>, k: int)
    requires
        bits.len() == 8,
        0 <= k < 8,
    ensures
        ((spec_pack(bits) >> (k as u8)) & 1 == 1) == bits[k],
{
    let b0: u8 = if bits[0] { 0x01u8 } else { 0 };
    let b1: u8 = if bits[1] { 0x02u8 } else { 0 };
    let b2: u8 = if bits[2] { 0x04u8 } else { 0 };
    let b3: u8 = if bits[3] { 0x08u8 } else { 0 };
    let b4: u8 = if bits[4] { 0x10u8 } else { 0 };
    let b5: u8 = if bits[5] { 0x20u8 } else { 0 };
    let b6: u8 = if bits[6] { 0x40u8 } else { 0 };
    let b7: u8 = if bits[7] { 0x80u8 } else { 0 };
    let p = b0 | b1 | b2 | b3 | b4 | b5 | b6 | b7;
    let s = k as u8;
    assert(((p >> s) & 1 == 1) == (if s == 0 {
        b0 == 0x01
    } else if s == 1 {
        b1 == 0x02
    } else if s == 2 {
        b2 == 0x04
    } else if s == 3 {
        b3 == 0x08
    } else if s == 4 {
        b4 == 0x10
    } else if s == 5 {
        b5 == 0x20
    } else if s == 6 {
        b6 == 0x40
    } else {
        b7 == 0x80
    })) by (bit_vector)
        requires
            p == b0 | b1 | b2 | b3 | b4 | b5 | b6 | b7,
            b0 == 0x01 || b0 == 0,
            b1 == 0x02 || b1 == 0,
            b2 == 0x04 || b2 == 0,
            b3 == 0x08 || b3 == 0,
            b4 == 0x10 || b4 == 0,
            b5 == 0x20 || b5 == 0,
            b6 == 0x40 || b6 == 0,
            b7 == 0x80 || b7 == 0,
            s < 8,
    ;
}

/// What decoding finds among the first `n` bits: a machine is found where
/// its bit lies among them, is set, and the machine exists; and every
/// machine found exists.
pub proof fn lemma_decode_machines_upto(bytes: Seq<u8>, max_hm: int, n: int)
    requires
        0 <= n <= MACHINE_BITS,
        0 <= max_hm <= MACHINE_BITS - MAX_TM_ID,
    ensures
        forall|i: int|
            0 <= i < MACHINE_BITS ==> (#[trigger] has_machine_bit(
                spec_decode_machines_upto(bytes, max_hm, n),
                i,
            ) <==> i < n && field_bit(bytes, i) && machine_valid(bit_machine(i), max_hm)),
        forall|k: int|
            0 <= k < spec_decode_machines_upto(bytes, max_hm, n).len() ==> {
                let m = #[trigger] spec_decode_machines_upto(bytes, max_hm, n)[k];
                machine_valid(m, max_hm) && 0 <= machine_bit(m) < n
            },
    decreases n,
{
    if n > 0 {
        lemma_decode_machines_upto(bytes, max_hm, n - 1);
        let rest = spec_decode_machines_upto(bytes, max_hm, n - 1);
        let all = spec_decode_machines_upto(bytes, max_hm, n);
        let found = field_bit(bytes, n - 1) && machine_valid(bit_machine(n - 1), max_hm);
        assert(machine_bit(bit_machine(n - 1)) == n - 1);
        assert forall|i: int| 0 <= i < MACHINE_BITS implies (#[trigger] has_machine_bit(all, i) <==> i
            < n && field_bit(bytes, i) && machine_valid(bit_machine(i), max_hm)) by {
            if has_machine_bit(all, i) {
                let k = choose|k: int| 0 <= k < all.len() && machine_bit(#[trigger] all[k]) == i;
                if k < rest.len() {
                    assert(rest[k] == all[k]);
                    assert(has_machine_bit(rest, i));
                }
            }
            if i < n && field_bit(bytes, i) && machine_valid(bit_machine(i), max_hm) {
                if i < n - 1 {
                    assert(has_machine_bit(rest, i));
                    let k = choose|k: int|
                        0 <= k < rest.len() && machine_bit(#[trigger] rest[k]) == i;
                    assert(all[k] == rest[k]);
                } else {
                    assert(all[all.len() - 1] == bit_machine(n - 1));
                }
            }
        }
    }
}

/// Encoding what was decoded and decoding it again gives the same machines:
/// `decode(encode(decode(bits))) == decode(bits)` for every field of seven
/// bytes.
pub proof fn machines_decode_encode_decode(bytes: Seq<u8>, max_hm: int)
    requires
        bytes.len() == MACHINE_BYTES,
        0 <= max_hm <= MACHINE_BITS - MAX_TM_ID,
    ensures
        spec_decode_machines(spec_encode_machines(spec_decode_machines(bytes, max_hm)), max_hm)
            == spec_decode_machines(bytes, max_hm),
{
    let decoded = spec_decode_machines(bytes, max_hm);
    let encoded = spec_encode_machines(decoded);
    lemma_decode_machines_upto(bytes, max_hm, MACHINE_BITS as int);
    assert forall|i: int| 0 <= i < MACHINE_BITS implies (field_bit(encoded, i) && machine_valid(
        bit_machine(i),
        max_hm,
    )) == (field_bit(bytes, i) && machine_valid(bit_machine(i), max_hm)) by {
        let j = i / 8;
        let k = i % 8;
        let bits = Seq::new(8, |k: int| has_machine_bit(decoded, 8 * j + k));
        lemma_pack_bit(bits, k);
        assert(encoded[j] == spec_pack(bits));
        assert(bits[k] == has_machine_bit(decoded, i));
    }
    lemma_same_bits_same_machines(encoded, bytes, max_hm, MACHINE_BITS as int);
}

/// Two fields that agree on the bits of the machines that exist name the
/// same machines.
pub proof fn lemma_same_bits_same_machines(a: Seq<u8>, b: Seq<u8>, max_hm: int, n: int)
    requires
        0 <= n <= MACHINE_BITS,
        forall|i: int|
            0 <= i < n ==> (field_bit(a, i) && machine_valid(bit_machine(i), max_hm)) == (
            field_bit(b, i) && machine_valid(bit_machine(i), max_hm)),
    ensures
        spec_decode_machines_upto(a, max_hm, n) == spec_decode_machines_upto(b, max_hm, n),
    decreases n,
{
    if n > 0 {
        lemma_same_bits_same_machines(a, b, max_hm, n - 1);
    }
}

/// What the patch that sets the machines of the species `pokedex_id` to
/// `machines` writes, and where.
///
/// A TM exists where its number lies in 1 to 50, an HM where its number
/// lies in the range of the HMs of the image. The first machine, in the
/// order of the machines, that does not exist gives the error: `TMIDInvalid`
/// or `HMIDInvalid`, with the range of its kind. Where all exist, the patch
/// holds the field in which bit `i` is set where a machine has the bit `i`;
/// a machine whose bit the field has no place for sets none.
pub open spec fn is_set_pokemon_machines(
    rom: Seq<u8>,
    pokedex_id: u8,
    machines: Seq<PokemonMachine>,
    r: Result<(int, Seq<u8>), Error>,
) -> bool {
    match spec_pokedex_id_to_internal_id(rom, pokedex_id) {
        Err(e) => r == Err::<(int, Seq<u8>), Error>(e),
        Ok(_) => match spec_hm_id_bounds(rom) {
            None => r == Err::<(int, Seq<u8>), Error>(Error::RomMalformed),
            Some(bounds) => match r {
                Ok(w) => {
                    &&& forall|k: int|
                        0 <= k < machines.len() ==> machine_valid(
                            #[trigger] machines[k],
                            bounds.1 as int,
                        )
                    &&& w == (spec_machines_offset(pokedex_id), spec_encode_machines(machines))
                },
                Err(e) => exists|m: PokemonMachine| #[trigger]
                    is_least_invalid(machines, bounds.1 as int, m) && e == machine_error(
                        m,
                        bounds.1 as int,
                    ),
            },
        },
    }
}

fn pack(bits: &Vec<bool>, start: usize) -> (r: u8)
    requires
        start + 8 <= bits@.len(),
    ensures
        r == spec_pack(bits@.subrange(start as int, start + 8)),
{
    let len = bits.len();
    (if bits[start] { 0x01u8 } else { 0 }) | (if bits[start + 1] { 0x02u8 } else { 0 }) | (
    if bits[start + 2] {
        0x04u8
    } else {
        0
    }) | (if bits[start + 3] { 0x08u8 } else { 0 }) | (if bits[start + 4] {
        0x10u8
    } else {
        0
    }) | (if bits[start + 5] { 0x20u8 } else { 0 }) | (if bits[start + 6] {
        0x40u8
    } else {
        0
    }) | (if bits[start + 7] { 0x80u8 } else { 0 })
}

fn is_valid(m: &PokemonMachine, max_hm: usize) -> (r: bool)
    ensures
        r == machine_valid(*m, max_hm as int),
{
    match m {
        PokemonMachine::TM(id) => 1 <= *id && (*id as usize) <= MAX_TM_ID,
        PokemonMachine::HM(id) => 1 <= *id && (*id as usize) <= max_hm,
    }
}

fn rank(m: &PokemonMachine) -> (r: u16)
    ensures
        r == machine_rank(*m),
{
    match m {
        PokemonMachine::TM(id) => *id as u16,
        PokemonMachine::HM(id) => 256 + (*id as u16),
    }
}

impl PkmnapiDB {
    /// The highest HM number that the image allows and the field has a bit for.
    fn max_hm(&self) -> (r: Option<usize>)
        ensures
            match r {
                Some(m) => spec_max_hm(self@) == Some(m as int) && m <= MACHINE_BITS - MAX_TM_ID,
                None => spec_max_hm(self@) is None,
            },
    {
        match self.hm_id_bounds() {
            Some((_, max)) => if max <= MACHINE_BITS - MAX_TM_ID {
                Some(max)
            } else {
                Some(MACHINE_BITS - MAX_TM_ID)
            },
            None => None,
        }
    }

    /// The machines that the species `pokedex_id` can learn from, in the
    /// order of their bits.
    pub fn get_pokemon_machines(&self, pokedex_id: &u8) -> (r: Result<Vec<PokemonMachine>, Error>)
        ensures
            match r {
                Ok(machines) => spec_get_pokemon_machines(self@, *pokedex_id) == Ok::<
                    Seq<PokemonMachine>,
                    Error,
                >(machines@),
                Err(e) => spec_get_pokemon_machines(self@, *pokedex_id) == Err::<
                    Seq<PokemonMachine>,
                    Error,
                >(e),
            },
    {
        let _internal_id = self.pokedex_id_to_internal_id(pokedex_id)?;
        let offset = Self::stats_offset(*pokedex_id) + MACHINES_IN_STATS;
        let max_hm = match self.max_hm() {
            Some(m) => m,
            None => {
                return Err(Error::RomMalformed);
            },
        };
        let rom = self.rom();
        let ghost field = rom@.subrange(offset as int, offset + MACHINE_BYTES);
        let mut machines: Vec<PokemonMachine> = Vec::new();
        let mut i: usize = 0;
        while i < MACHINE_BITS
            invariant
                i <= MACHINE_BITS,
                offset + MACHINE_BYTES <= crate::db::ROM_SIZE <= rom@.len(),
                field == rom@.subrange(offset as int, offset + MACHINE_BYTES),
                max_hm <= MACHINE_BITS - MAX_TM_ID,
                machines@ == spec_decode_machines_upto(field, max_hm as int, i as int),
            decreases MACHINE_BITS - i,
        {
            let byte = rom[offset + i / 8];
            assert(byte == field[i as int / 8]);
            if (byte >> ((i % 8) as u8)) & 1 == 1 {
                let machine = if i < MAX_TM_ID {
                    PokemonMachine::TM((i + 1) as u8)
                } else {
                    PokemonMachine::HM((i + 1 - MAX_TM_ID) as u8)
                };
                if is_valid(&machine, max_hm) {
                    machines.push(machine);
                }
            }
            i += 1;
        }
        Ok(machines)
    }

    /// The patch that sets the machines of the species `pokedex_id` to
    /// `pokemon_machines`: the field of seven bytes in which exactly their
    /// bits are set, whatever their order.
    #[verifier::rlimit(50)]
    pub fn set_pokemon_machines(&self, pokedex_id: &u8, pokemon_machines: &Vec<PokemonMachine>) -> (r:
        Result<Patch, Error>)
        ensures
            match r {
                Ok(p) => p.wf() && is_set_pokemon_machines(
                    self@,
                    *pokedex_id,
                    pokemon_machines@,
                    Ok((p.offset as int, p.data@)),
                ),
                Err(e) => is_set_pokemon_machines(self@, *pokedex_id, pokemon_machines@, Err(e)),
            },
    {
        let _internal_id = self.pokedex_id_to_internal_id(pokedex_id)?;
        let offset = Self::stats_offset(*pokedex_id) + MACHINES_IN_STATS;
        let max_hm = match self.hm_id_bounds() {
            Some((_, max)) => max,
            None => {
                return Err(Error::RomMalformed);
            },
        };
        let n = pokemon_machines.len();
        let mut bits: Vec<bool> = Vec::new();
        let mut i: usize = 0;
        while i < MACHINE_BITS
            invariant
                i <= MACHINE_BITS,
                bits@.len() == i,
                forall|b: int| 0 <= b < i ==> !(#[trigger] bits@[b]),
            decreases MACHINE_BITS - i,
        {
            bits.push(false);
            i += 1;
        }
        let mut worst: Option<PokemonMachine> = None;
        let mut k: usize = 0;
        while k < n
            invariant
                k <= n == pokemon_machines@.len(),
                bits@.len() == MACHINE_BITS,
                match worst {
                    Some(m) => is_least_invalid(pokemon_machines@.take(k as int), max_hm as int, m),
                    None => forall|j: int|
                        0 <= j < k ==> machine_valid(#[trigger] pokemon_machines@[j], max_hm as int),
                },
                worst is None ==> forall|b: int|
                    0 <= b < MACHINE_BITS ==> (#[trigger] bits@[b] <==> has_machine_bit(
                        pokemon_machines@.take(k as int),
                        b,
                    )),
            decreases n - k,
        {
            let machine = pokemon_machines[k];
            let ghost before = pokemon_machines@.take(k as int);
            let ghost after = pokemon_machines@.take(k + 1);
            let ghost old_bits = bits@;
            proof {
                assert(after =~= before.push(machine));
                assert forall|j: int| 0 <= j < before.len() implies before[j] == after[j] by {}
            }
            if is_valid(&machine, max_hm) {
                match worst {
                    Some(m) => {
                        proof {
                            let w = choose|w: int| 0 <= w < before.len() && before[w] == m;
                            assert(after[w] == m);
                        }
                    },
                    None => {
                        let bit = match machine {
                            PokemonMachine::TM(id) => (id - 1) as usize,
                            PokemonMachine::HM(id) => (id - 1) as usize + MAX_TM_ID,
                        };
                        if bit < MACHINE_BITS {
                            bits.set(bit, true);
                        }
                        proof {
                            assert forall|b: int| 0 <= b < MACHINE_BITS implies (
                            #[trigger] bits@[b] <==> has_machine_bit(after, b)) by {
                                if has_machine_bit(after, b) {
                                    let j = choose|j: int|
                                        0 <= j < after.len() && machine_bit(#[trigger] after[j])
                                            == b;
                                    if j < before.len() {
                                        assert(before[j] == after[j]);
                                        assert(has_machine_bit(before, b));
                                    }
                                }
                                if old_bits[b] {
                                    assert(has_machine_bit(before, b));
                                    let j = choose|j: int|
                                        0 <= j < before.len() && machine_bit(#[trigger] before[j])
                                            == b;
                                    assert(after[j] == before[j]);
                                }
                                if b == bit {
                                    assert(machine_bit(after[k as int]) == b);
                                }
                            }
                        }
                    },
                }
            } else {
                let replace = match worst {
                    Some(m) => rank(&machine) < rank(&m),
                    None => true,
                };
                proof {
                    assert(after[k as int] == machine);
                    if let Some(m) = worst {
                        let w = choose|w: int| 0 <= w < before.len() && before[w] == m;
                        assert(after[w] == m);
                    }
                }
                if replace {
                    worst = Some(machine);
                }
            }
            k += 1;
        }
        proof {
            assert(pokemon_machines@.take(n as int) =~= pokemon_machines@);
        }
        if let Some(m) = worst {
            let e = match m {
                PokemonMachine::TM(id) => Error::TMIDInvalid(id, 1, MAX_TM_ID),
                PokemonMachine::HM(id) => Error::HMIDInvalid(id, 1, max_hm),
            };
            return Err(e);
        }
        let mut data: Vec<u8> = Vec::new();
        let mut j: usize = 0;
        let ghost encoded = spec_encode_machines(pokemon_machines@);
        while j < MACHINE_BYTES
            invariant
                j <= MACHINE_BYTES,
                bits@.len() == MACHINE_BITS,
                forall|b: int|
                    0 <= b < MACHINE_BITS ==> (#[trigger] bits@[b] <==> has_machine_bit(
                        pokemon_machines@,
                        b,
                    )),
                encoded == spec_encode_machines(pokemon_machines@),
                data@ == encoded.take(j as int),
            decreases MACHINE_BYTES - j,
        {
            let byte = pack(&bits, 8 * j);
            proof {
                assert(bits@.subrange(8 * j, 8 * j + 8) =~= Seq::new(
                    8,
                    |k: int| has_machine_bit(pokemon_machines@, 8 * j + k),
                ));
            }
            data.push(byte);
            j += 1;
            proof {
                assert(data@ =~= encoded.take(j as int));
            }
        }
        proof {
            assert(data@ =~= encoded);
        }
        let p = Patch::new(&offset, &data);
        proof {
            assert(is_set_pokemon_machines(
                self@,
                *pokedex_id,
                pokemon_machines@,
                Ok((offset as int, data@)),
            ));
        }
        Ok(p)
    }
}

} // verus!
