//! Reading a byte buffer: little-endian words, terminators, sub-ranges.

use byteorder::ByteOrder;
use vstd::prelude::*;
use vstd::slice::slice_subrange;

verus! {

/// The 16-bit value whose low byte is `lo` and whose high byte is `hi`.
pub open spec fn spec_u16_le(lo: u8, hi: u8) -> int {
    lo as int + 256 * (hi as int)
}

/// The little-endian 16-bit value at `offset` of `s`.
pub open spec fn spec_u16_at(s: Seq<u8>, offset: int) -> int
    recommends
        0 <= offset,
        offset + 2 <= s.len(),
{
    spec_u16_le(s[offset], s[offset + 1])
}

/// The size `size`, as far as a number of the machine holds it.
pub open spec fn spec_shown(size: int) -> usize {
    if size <= usize::MAX {
        size as usize
    } else {
        usize::MAX
    }
}

/// The position of the first `needle` in `s`, if there is one.
pub open spec fn first_index_of(s: Seq<u8>, needle: u8) -> Option<int>
    decreases s.len(),
{
    if s.len() == 0 {
        None
    } else if s[0] == needle {
        Some(0)
    } else {
        match first_index_of(s.drop_first(), needle) {
            Some(i) => Some(i + 1),
            None => None,
        }
    }
}

/// How many times `needle` occurs in `s`.
pub open spec fn count_of(s: Seq<u8>, needle: u8) -> nat
    decreases s.len(),
{
    if s.len() == 0 {
        0
    } else {
        count_of(s.drop_last(), needle) + if s.last() == needle {
            1nat
        } else {
            0nat
        }
    }
}

/// The position, counted in pairs, of the first pair `(a, b)` in `s` cut into
/// consecutive pairs. A single byte left at the end is no pair.
pub open spec fn first_pair_of(s: Seq<u8>, a: u8, b: u8) -> Option<int>
    decreases s.len(),
{
    if s.len() < 2 {
        None
    } else if s[0] == a && s[1] == b {
        Some(0)
    } else {
        match first_pair_of(s.skip(2), a, b) {
            Some(i) => Some(i + 1),
            None => None,
        }
    }
}

/// What `first_index_of` finds is the first occurrence; where it finds
/// nothing, there is none.
pub proof fn lemma_first_index_of(s: Seq<u8>, needle: u8)
    ensures
        match first_index_of(s, needle) {
            Some(i) => {
                &&& 0 <= i < s.len()
                &&& s[i] == needle
                &&& forall|j: int| 0 <= j < i ==> s[j] != needle
            },
            None => forall|j: int| 0 <= j < s.len() ==> s[j] != needle,
        },
    decreases s.len(),
{
    if s.len() > 0 && s[0] != needle {
        let t = s.drop_first();
        lemma_first_index_of(t, needle);
        match first_index_of(t, needle) {
            Some(i) => {
                assert forall|j: int| 0 <= j < i + 1 implies s[j] != needle by {
                    if j > 0 {
                        assert(s[j] == t[j - 1]);
                    }
                }
            },
            None => {
                assert forall|j: int| 0 <= j < s.len() implies s[j] != needle by {
                    if j > 0 {
                        assert(s[j] == t[j - 1]);
                    }
                }
            },
        }
    }
}

/// A position that holds `needle`, with none before it, is what
/// `first_index_of` finds.
pub proof fn lemma_first_index_of_is(s: Seq<u8>, needle: u8, i: int)
    requires
        0 <= i < s.len(),
        s[i] == needle,
        forall|j: int| 0 <= j < i ==> s[j] != needle,
    ensures
        first_index_of(s, needle) == Some(i),
{
    lemma_first_index_of(s, needle);
}

/// Where no position holds `needle`, `first_index_of` finds nothing.
pub proof fn lemma_first_index_of_none(s: Seq<u8>, needle: u8)
    requires
        forall|j: int| 0 <= j < s.len() ==> s[j] != needle,
    ensures
        first_index_of(s, needle) is None,
{
    lemma_first_index_of(s, needle);
}

/// `byteorder::LittleEndian::read_u16`: the value of the first two bytes of
/// `bytes`, the first byte being the low one. The call panics on fewer than
/// two bytes, which the precondition leaves out.
#[verifier::external_body]
pub(crate) fn read_u16_le(bytes: &[u8]) -> (r: u16)
    requires
        bytes@.len() >= 2,
    ensures
        r as int == spec_u16_le(bytes@[0], bytes@[1]),
{
    byteorder::LittleEndian::read_u16(bytes)
}

/// The little-endian 16-bit value at `offset` of `v`.
pub fn u16_at(v: &Vec<u8>, offset: usize) -> (r: u16)
    requires
        offset + 2 <= v@.len(),
    ensures
        r as int == spec_u16_at(v@, offset as int),
{
    let len = v.len();
    let s = slice_subrange(v.as_slice(), offset, offset + 2);
    read_u16_le(s)
}

/// A copy of `v[start..end]`.
pub fn copy_range(v: &Vec<u8>, start: usize, end: usize) -> (r: Vec<u8>)
    requires
        start <= end <= v@.len(),
    ensures
        r@ == v@.subrange(start as int, end as int),
{
    let mut out: Vec<u8> = Vec::new();
    let mut i: usize = start;
    while i < end
        invariant
            start <= i <= end <= v@.len(),
            out@ == v@.subrange(start as int, i as int),
        decreases end - i,
    {
        out.push(v[i]);
        i += 1;
        assert(out@ =~= v@.subrange(start as int, i as int));
    }
    out
}

/// Appends `v[start..end]` to `out`.
pub fn append_range(out: &mut Vec<u8>, v: &Vec<u8>, start: usize, end: usize)
    requires
        start <= end <= v@.len(),
    ensures
        final(out)@ == old(out)@ + v@.subrange(start as int, end as int),
{
    let ghost before = out@;
    let mut i: usize = start;
    proof {
        assert(out@ =~= before + v@.subrange(start as int, i as int));
    }
    while i < end
        invariant
            start <= i <= end <= v@.len(),
            out@ == before + v@.subrange(start as int, i as int),
        decreases end - i,
    {
        out.push(v[i]);
        i += 1;
        proof {
            assert(out@ =~= before + v@.subrange(start as int, i as int));
        }
    }
}

/// The position of the first `needle` in `v[start..end]`, counted from `start`.
pub fn find_byte(v: &Vec<u8>, start: usize, end: usize, needle: u8) -> (r: Option<usize>)
    requires
        start <= end <= v@.len(),
    ensures
        match r {
            Some(i) => first_index_of(v@.subrange(start as int, end as int), needle) == Some(
                i as int,
            ),
            None => first_index_of(v@.subrange(start as int, end as int), needle) is None,
        },
{
    let ghost s = v@.subrange(start as int, end as int);
    let mut i: usize = start;
    while i < end
        invariant
            start <= i <= end <= v@.len(),
            s == v@.subrange(start as int, end as int),
            forall|j: int| 0 <= j < i - start ==> s[j] != needle,
        decreases end - i,
    {
        if v[i] == needle {
            proof {
                lemma_first_index_of_is(s, needle, i - start);
            }
            return Some(i - start);
        }
        i += 1;
    }
    proof {
        lemma_first_index_of_none(s, needle);
    }
    None
}

/// How many times `needle` occurs in `v[start..end]`.
pub fn count_byte(v: &Vec<u8>, start: usize, end: usize, needle: u8) -> (r: usize)
    requires
        start <= end <= v@.len(),
    ensures
        r == count_of(v@.subrange(start as int, end as int), needle),
{
    let mut n: usize = 0;
    let mut i: usize = start;
    while i < end
        invariant
            start <= i <= end <= v@.len(),
            n == count_of(v@.subrange(start as int, i as int), needle),
            n <= i - start,
        decreases end - i,
    {
        proof {
            let t = v@.subrange(start as int, i + 1);
            assert(t.drop_last() =~= v@.subrange(start as int, i as int));
        }
        if v[i] == needle {
            n += 1;
        }
        i += 1;
    }
    n
}

/// Whether the pair at position `j` of `s`, cut into consecutive pairs, is `(a, b)`.
pub open spec fn pair_is(s: Seq<u8>, j: int, a: u8, b: u8) -> bool {
    s[2 * j] == a && s[2 * j + 1] == b
}

/// What `first_pair_of` finds is the first aligned pair `(a, b)`; where it
/// finds nothing, there is none.
pub proof fn lemma_first_pair_of(s: Seq<u8>, a: u8, b: u8)
    ensures
        match first_pair_of(s, a, b) {
            Some(i) => {
                &&& 0 <= i
                &&& 2 * i + 2 <= s.len()
                &&& pair_is(s, i, a, b)
                &&& forall|j: int| 0 <= j < i ==> !pair_is(s, j, a, b)
            },
            None => forall|j: int| 0 <= j && 2 * j + 2 <= s.len() ==> !pair_is(s, j, a, b),
        },
    decreases s.len(),
{
    if s.len() >= 2 && !(s[0] == a && s[1] == b) {
        let t = s.skip(2);
        lemma_first_pair_of(t, a, b);
        match first_pair_of(t, a, b) {
            Some(i) => {
                assert(pair_is(t, i, a, b));
                assert forall|j: int| 0 <= j < i + 1 implies !pair_is(s, j, a, b) by {
                    if j > 0 {
                        assert(!pair_is(t, j - 1, a, b));
                    }
                }
            },
            None => {
                assert forall|j: int| 0 <= j && 2 * j + 2 <= s.len() implies !pair_is(
                    s,
                    j,
                    a,
                    b,
                ) by {
                    if j > 0 {
                        assert(!pair_is(t, j - 1, a, b));
                    }
                }
            },
        }
    }
}

/// The position, counted in pairs from `start`, of the first aligned pair
/// `(a, b)` in `v[start..]`.
pub fn find_pair(v: &Vec<u8>, start: usize, a: u8, b: u8) -> (r: Option<usize>)
    requires
        start <= v@.len(),
    ensures
        match r {
            Some(i) => first_pair_of(v@.skip(start as int), a, b) == Some(i as int),
            None => first_pair_of(v@.skip(start as int), a, b) is None,
        },
{
    let ghost s = v@.skip(start as int);
    let len = v.len();
    let mut i: usize = 0;
    while len - start >= 2 && i <= (len - start - 2) / 2
        invariant
            start <= len == v@.len(),
            s == v@.skip(start as int),
            forall|j: int| 0 <= j < i ==> !pair_is(s, j, a, b),
            2 * i <= len - start,
        decreases len - start - 2 * i,
    {
        if v[start + 2 * i] == a && v[start + 2 * i + 1] == b {
            proof {
                lemma_first_pair_of(s, a, b);
                assert(pair_is(s, i as int, a, b));
            }
            return Some(i);
        }
        i += 1;
    }
    proof {
        lemma_first_pair_of(s, a, b);
        if let Some(k) = first_pair_of(s, a, b) {
            assert(!pair_is(s, k, a, b));
        }
    }
    None
}

} // verus!
