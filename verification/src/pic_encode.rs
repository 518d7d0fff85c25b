//! Storing a picture: from its pixels to the planes as they are stored, to
//! their pairs, to runs and stretches, to bits and bytes.

use crate::error::Error;
use crate::pic::{spec_pow2, Pic, PicEncodingMethod, MAX_PIC_SIDE};
use vstd::prelude::*;

verus! {

/// The bit of the low plane, or of the high one, in the pixel `p`.
pub open spec fn spec_pixel_bit(p: u8, high: bool) -> bool {
    if high {
        p == 2 || p == 3
    } else {
        p == 1 || p == 3
    }
}

/// The plane of the low bits, or of the high ones, of `pixels`, row by row.
pub open spec fn spec_pixel_plane(pixels: Seq<u8>, high: bool) -> Seq<bool> {
    Seq::new(pixels.len(), |i: int| spec_pixel_bit(pixels[i], high))
}

/// The bit at column `x` and row `y` of `plane`, which has `columns`
/// columns; outside the plane, to the left, zero.
pub open spec fn spec_bit_or_zero(plane: Seq<bool>, columns: int, x: int, y: int) -> bool {
    if x < 0 {
        false
    } else {
        plane[y * columns + x]
    }
}

/// The changes along each row of `plane`: a one where a bit differs from
/// the one to its left, and the first bit of a row from zero.
pub open spec fn spec_changes(plane: Seq<bool>, columns: int) -> Seq<bool> {
    Seq::new(
        plane.len(),
        |i: int| plane[i] != spec_bit_or_zero(plane, columns, i % columns - 1, i / columns),
    )
}

/// The difference of two planes: a one where they differ.
pub open spec fn spec_difference(a: Seq<bool>, b: Seq<bool>) -> Seq<bool> {
    Seq::new(a.len(), |i: int| a[i] != b[i])
}

/// The plane that comes first, as it is stored.
pub open spec fn spec_stored_first(pixels: Seq<u8>, swapped: bool, columns: int) -> Seq<bool> {
    spec_changes(spec_pixel_plane(pixels, swapped), columns)
}

/// The plane that comes second, as it is stored in the way `mode`.
pub open spec fn spec_stored_second(pixels: Seq<u8>, mode: int, swapped: bool, columns: int) -> Seq<
    bool,
> {
    let first = spec_pixel_plane(pixels, swapped);
    let second = spec_pixel_plane(pixels, !swapped);
    if mode == 0 {
        spec_changes(second, columns)
    } else if mode == 1 {
        spec_difference(second, first)
    } else {
        spec_changes(spec_difference(second, first), columns)
    }
}

/// The pairs of `plane`, which has `columns` columns and `rows` rows, in
/// columns two bits wide, top to bottom and then left to right.
pub open spec fn spec_plane_pairs(plane: Seq<bool>, columns: int, rows: int) -> Seq<u8> {
    Seq::new(
        (plane.len() / 2) as nat,
        |p: int|
            {
                let x = 2 * (p / rows);
                let y = p % rows;
                crate::pic::spec_pic_pixel(plane[y * columns + x + 1], plane[y * columns + x])
            },
    )
}

/// How many empty pairs stand in a row at `i`.
pub open spec fn spec_zero_run(pairs: Seq<u8>, i: int) -> nat
    decreases pairs.len() - i,
{
    if i < 0 || i >= pairs.len() || pairs[i] != 0 {
        0
    } else {
        1 + spec_zero_run(pairs, i + 1)
    }
}

/// How many ones begin the length `length` of a run.
pub open spec fn spec_run_ones(length: int) -> nat
    decreases length,
{
    if length < 3 {
        0
    } else {
        1 + spec_run_ones((length - 1) / 2)
    }
}

/// The `n` bits that spell `value`, the highest first.
pub open spec fn spec_number_bits(value: int, n: nat) -> Seq<bool> {
    Seq::new(n, |k: int| (value / spec_pow2((n - 1 - k) as nat)) % 2 == 1)
}

/// The bits that write the length `length` of a run.
pub open spec fn spec_run_bits(length: int) -> Seq<bool> {
    let n = spec_run_ones(length);
    Seq::new(n, |k: int| true) + seq![false] + spec_number_bits(
        length - (spec_pow2(n + 1) - 1),
        n + 1,
    )
}

/// The two bits of a pair, the high one first.
pub open spec fn spec_pair_bits(pair: u8) -> Seq<bool> {
    seq![pair == 2 || pair == 3, pair == 1 || pair == 3]
}

/// The bits of the pairs from `i` on; `rle` says whether a run comes next,
/// or a stretch. A run takes all the empty pairs in a row. A stretch ends
/// with an empty pair before the next run, and with nothing at the end.
pub open spec fn spec_encode_packets(pairs: Seq<u8>, i: int, rle: bool) -> Seq<bool>
    decreases pairs.len() - i, (if rle { 0int } else { 1int }),
{
    if i < 0 || i >= pairs.len() {
        Seq::empty()
    } else if rle {
        let run = spec_zero_run(pairs, i);
        if run == 0 || i + run > pairs.len() {
            Seq::empty()
        } else {
            spec_run_bits(run as int) + spec_encode_packets(pairs, i + run, false)
        }
    } else if pairs[i] == 0 {
        seq![false, false] + spec_encode_packets(pairs, i, true)
    } else {
        spec_pair_bits(pairs[i]) + spec_encode_packets(pairs, i + 1, false)
    }
}

/// The bits of a plane: a one where a stretch comes first, and the pairs.
pub open spec fn spec_encode_plane(pairs: Seq<u8>) -> Seq<bool> {
    let rle = pairs.len() > 0 && pairs[0] == 0;
    seq![!rle] + spec_encode_packets(pairs, 0, rle)
}

/// The bits that say the way `mode`.
pub open spec fn spec_mode_bits(mode: int) -> Seq<bool> {
    if mode == 0 {
        seq![false]
    } else if mode == 1 {
        seq![true, false]
    } else {
        seq![true, true]
    }
}

/// The bits of the picture: its size, the plane that comes first and its
/// pairs, the way, and the pairs of the other plane.
pub open spec fn spec_encode_pic_bits(
    pixels: Seq<u8>,
    width: u8,
    height: u8,
    method: PicEncodingMethod,
) -> Seq<bool> {
    let columns = width * 8;
    let rows = height * 8;
    spec_number_bits(width as int, 4) + spec_number_bits(height as int, 4) + seq![
        method.spec_swapped(),
    ] + spec_encode_plane(
        spec_plane_pairs(spec_stored_first(pixels, method.spec_swapped(), columns), columns, rows),
    ) + spec_mode_bits(method.spec_mode()) + spec_encode_plane(
        spec_plane_pairs(
            spec_stored_second(pixels, method.spec_mode(), method.spec_swapped(), columns),
            columns,
            rows,
        ),
    )
}

/// Bit `i` of `bits`, or zero where `bits` end before it.
pub open spec fn spec_bit_or_false(bits: Seq<bool>, i: int) -> bool {
    if 0 <= i < bits.len() {
        bits[i]
    } else {
        false
    }
}

/// The byte that the eight bits of `bits` from `at` on make, the first the
/// highest.
pub open spec fn spec_byte_of_bits(bits: Seq<bool>, at: int) -> u8 {
    (if spec_bit_or_false(bits, at) { 0x80u8 } else { 0 }) | (if spec_bit_or_false(bits, at + 1) {
        0x40u8
    } else {
        0
    }) | (if spec_bit_or_false(bits, at + 2) { 0x20u8 } else { 0 }) | (if spec_bit_or_false(
        bits,
        at + 3,
    ) {
        0x10u8
    } else {
        0
    }) | (if spec_bit_or_false(bits, at + 4) { 0x08u8 } else { 0 }) | (if spec_bit_or_false(
        bits,
        at + 5,
    ) {
        0x04u8
    } else {
        0
    }) | (if spec_bit_or_false(bits, at + 6) { 0x02u8 } else { 0 }) | (if spec_bit_or_false(
        bits,
        at + 7,
    ) {
        0x01u8
    } else {
        0
    })
}

/// The bytes that `bits` make, eight to a byte; zeros fill the last byte.
pub open spec fn spec_bytes_of_bits(bits: Seq<bool>) -> Seq<u8> {
    Seq::new(((bits.len() + 7) / 8) as nat, |j: int| spec_byte_of_bits(bits, 8 * j))
}

/// Whether a picture can be stored: its sides are at most `MAX_PIC_SIDE`
/// tiles, it has a pixel for each place, and each pixel is below four.
pub open spec fn spec_pic_storable(pixels: Seq<u8>, width: u8, height: u8) -> bool {
    &&& width <= MAX_PIC_SIDE
    &&& height <= MAX_PIC_SIDE
    &&& pixels.len() == width * 8 * height * 8
    &&& forall|i: int| 0 <= i < pixels.len() ==> (#[trigger] pixels[i]) < 4
}

/// The stored form of the picture.
pub open spec fn spec_encode_pic(
    pixels: Seq<u8>,
    width: u8,
    height: u8,
    method: PicEncodingMethod,
) -> Seq<u8> {
    spec_bytes_of_bits(spec_encode_pic_bits(pixels, width, height, method))
}

/// The plane of the low bits, or of the high ones, of `pixels`.
fn pixel_plane(pixels: &Vec<u8>, high: bool) -> (r: Vec<bool>)
    ensures
        r@ == spec_pixel_plane(pixels@, high),
{
    let mut out: Vec<bool> = Vec::new();
    let mut i: usize = 0;
    while i < pixels.len()
        invariant
            i <= pixels@.len(),
            out@ == spec_pixel_plane(pixels@, high).take(i as int),
        decreases pixels@.len() - i,
    {
        let p = pixels[i];
        out.push(if high { p == 2 || p == 3 } else { p == 1 || p == 3 });
        i += 1;
        proof {
            assert(out@ =~= spec_pixel_plane(pixels@, high).take(i as int));
        }
    }
    proof {
        assert(out@ =~= spec_pixel_plane(pixels@, high));
    }
    out
}

/// The changes along each row of `plane`.
fn changes(plane: &Vec<bool>, columns: usize) -> (r: Vec<bool>)
    requires
        columns > 0 || plane@.len() == 0,
    ensures
        r@ == spec_changes(plane@, columns as int),
{
    let mut out: Vec<bool> = Vec::new();
    let mut i: usize = 0;
    while i < plane.len()
        invariant
            i <= plane@.len(),
            columns > 0 || plane@.len() == 0,
            out@ == spec_changes(plane@, columns as int).take(i as int),
        decreases plane@.len() - i,
    {
        let x = i % columns;
        proof {
            vstd::arithmetic::div_mod::lemma_fundamental_div_mod(i as int, columns as int);
            assert((i / columns) * columns == columns * (i / columns)) by (nonlinear_arith);
        }
        let before = if x == 0 {
            false
        } else {
            plane[i - 1]
        };
        out.push(plane[i] != before);
        i += 1;
        proof {
            assert(out@ =~= spec_changes(plane@, columns as int).take(i as int));
        }
    }
    proof {
        assert(out@ =~= spec_changes(plane@, columns as int));
    }
    out
}

/// The difference of the planes `a` and `b`.
fn difference(a: &Vec<bool>, b: &Vec<bool>) -> (r: Vec<bool>)
    requires
        a@.len() == b@.len(),
    ensures
        r@ == spec_difference(a@, b@),
{
    let mut out: Vec<bool> = Vec::new();
    let mut i: usize = 0;
    while i < a.len()
        invariant
            i <= a@.len() == b@.len(),
            out@ == spec_difference(a@, b@).take(i as int),
        decreases a@.len() - i,
    {
        out.push(a[i] != b[i]);
        i += 1;
        proof {
            assert(out@ =~= spec_difference(a@, b@).take(i as int));
        }
    }
    proof {
        assert(out@ =~= spec_difference(a@, b@));
    }
    out
}

/// Where the two bits of pair `p` stand in their plane.
pub proof fn lemma_pair_place(width: int, height: int, p: int)
    requires
        0 < width,
        0 < height,
        0 <= p < width * height * 32,
    ensures
        ({
            let x = 2 * (p / (height * 8));
            let y = p % (height * 8);
            &&& 0 <= x
            &&& x + 1 < width * 8
            &&& 0 <= y < height * 8
            &&& 0 <= y * (width * 8) + x
            &&& y * (width * 8) + x + 1 < width * 8 * height * 8
        }),
{
    let rows = height * 8;
    let c = p / rows;
    let y = p % rows;
    assert(p == rows * c + y) by {
        vstd::arithmetic::div_mod::lemma_fundamental_div_mod(p, rows);
    }
    assert(0 <= y < rows) by {
        vstd::arithmetic::div_mod::lemma_mod_bound(p, rows);
    }
    assert(0 <= c < width * 4) by (nonlinear_arith)
        requires
            p == rows * c + y,
            0 <= y < rows,
            0 <= p < width * height * 32,
            rows == height * 8,
            height > 0,
    ;
    assert(0 <= y * (width * 8) + 2 * c && y * (width * 8) + 2 * c + 1 < width * 8 * height
        * 8) by (nonlinear_arith)
        requires
            0 <= c < width * 4,
            0 <= y < height * 8,
            width > 0,
    ;
}

/// The pairs of `plane`.
#[verifier::rlimit(50)]
fn plane_pairs(plane: &Vec<bool>, width: u8, height: u8) -> (r: Vec<u8>)
    requires
        width <= MAX_PIC_SIDE,
        height <= MAX_PIC_SIDE,
        plane@.len() == width * 8 * height * 8,
    ensures
        r@ == spec_plane_pairs(plane@, width * 8, height * 8),
        r@.len() == width * height * 32,
        forall|i: int| 0 <= i < r@.len() ==> (#[trigger] r@[i]) < 4,
{
    let columns = (width as usize) * 8;
    let rows = (height as usize) * 8;
    let len = plane.len();
    let count = len / 2;
    assert(width * 8 * height * 8 == 2 * (width * height * 32)) by (nonlinear_arith);
    let ghost spec = spec_plane_pairs(plane@, columns as int, rows as int);
    let mut out: Vec<u8> = Vec::new();
    let mut p: usize = 0;
    while p < count
        invariant
            p <= count,
            count == width * height * 32,
            columns == width * 8,
            rows == height * 8,
            len == plane@.len(),
            len == width * 8 * height * 8,
            spec == spec_plane_pairs(plane@, columns as int, rows as int),
            spec.len() == count,
            out@ == spec.take(p as int),
            forall|i: int| 0 <= i < out@.len() ==> (#[trigger] out@[i]) < 4,
        decreases count - p,
    {
        proof {
            assert(width > 0 && height > 0) by (nonlinear_arith)
                requires
                    p < width * height * 32,
                    0 <= width,
                    0 <= height,
            ;
            lemma_pair_place(width as int, height as int, p as int);
        }
        let x = 2 * (p / rows);
        let y = p % rows;
        assert(y * columns <= y * columns + x) by (nonlinear_arith)
            requires
                0 <= x,
        ;
        let high = plane[y * columns + x];
        let low = plane[y * columns + x + 1];
        let pair: u8 = if high {
            if low {
                3
            } else {
                2
            }
        } else if low {
            1
        } else {
            0
        };
        out.push(pair);
        p += 1;
        proof {
            assert(out@ =~= spec.take(p as int));
        }
    }
    proof {
        assert(out@ =~= spec);
    }
    out
}

/// Powers of two grow, and the exponent of one above zero is at least one.
pub proof fn lemma_pow2_grows(a: nat, b: nat)
    requires
        a <= b,
    ensures
        1 <= spec_pow2(a) <= spec_pow2(b),
    decreases b,
{
    if b > 0 {
        if a < b {
            lemma_pow2_grows(a, (b - 1) as nat);
        } else {
            lemma_pow2_grows((a - 1) as nat, (b - 1) as nat);
        }
    }
}

/// Appends to `out` the `n` bits that spell `value`.
fn push_number(out: &mut Vec<bool>, value: usize, n: usize)
    requires
        n <= 16,
    ensures
        final(out)@ == old(out)@ + spec_number_bits(value as int, n as nat),
{
    let ghost before = out@;
    let ghost spec = spec_number_bits(value as int, n as nat);
    let mut divisor: usize = 1;
    let mut k: usize = 1;
    while k < n
        invariant
            1 <= k,
            k <= n || n == 0,
            n <= 16,
            divisor == spec_pow2((k - 1) as nat),
            divisor <= 0x8000,
            k <= 15 ==> divisor <= 0x4000,
            k <= 14 ==> divisor <= 0x2000,
            k <= 13 ==> divisor <= 0x1000,
            k <= 12 ==> divisor <= 0x800,
            k <= 11 ==> divisor <= 0x400,
            k <= 10 ==> divisor <= 0x200,
            k <= 9 ==> divisor <= 0x100,
            k <= 8 ==> divisor <= 0x80,
            k <= 7 ==> divisor <= 0x40,
            k <= 6 ==> divisor <= 0x20,
            k <= 5 ==> divisor <= 0x10,
            k <= 4 ==> divisor <= 0x8,
            k <= 3 ==> divisor <= 0x4,
            k <= 2 ==> divisor <= 0x2,
            k <= 1 ==> divisor <= 0x1,
        decreases n - k,
    {
        divisor = 2 * divisor;
        k += 1;
    }
    let mut k: usize = 0;
    proof {
        assert(out@ =~= before + spec.take(0));
    }
    while k < n
        invariant
            k <= n <= 16,
            spec == spec_number_bits(value as int, n as nat),
            k < n ==> divisor == spec_pow2((n - 1 - k) as nat),
            out@ == before + spec.take(k as int),
        decreases n - k,
    {
        proof {
            lemma_pow2_grows(0, (n - 1 - k) as nat);
        }
        out.push((value / divisor) % 2 == 1);
        divisor = divisor / 2;
        k += 1;
        proof {
            assert(out@ =~= before + spec.take(k as int));
        }
    }
    proof {
        assert(spec.take(n as int) =~= spec);
    }
}

/// The length of a run lies between the powers of two that its ones name.
pub proof fn lemma_run_ones(length: int)
    requires
        length >= 1,
    ensures
        spec_pow2(spec_run_ones(length) + 1) - 1 <= length <= spec_pow2(spec_run_ones(length) + 2)
            - 2,
    decreases length,
{
    if length >= 3 {
        lemma_run_ones((length - 1) / 2);
    } else {
        assert(spec_pow2(1) == 2) by {
            assert(spec_pow2(0) == 1);
        }
        assert(spec_pow2(2) == 4);
    }
}

/// Appends to `out` the bits that write the length `length` of a run.
fn push_run(out: &mut Vec<bool>, length: usize)
    requires
        1 <= length <= 0xFFFF,
    ensures
        final(out)@ == old(out)@ + spec_run_bits(length as int),
{
    let ghost before = out@;
    let mut n: usize = 0;
    let mut q: usize = length;
    let mut power: usize = 2;
    proof {
        assert(spec_pow2(1) == 2) by {
            assert(spec_pow2(0) == 1);
        }
        lemma_run_ones(length as int);
    }
    while q >= 3
        invariant
            1 <= q <= length <= 0xFFFF,
            spec_run_ones(length as int) == n + spec_run_ones(q as int),
            power == spec_pow2((n + 1) as nat),
            power * (q + 1) <= 2 * (length + 1),
            power <= length + 1,
            n <= 15,
        decreases q,
    {
        let ghost next_q = (q - 1) / 2;
        assert(2 * power * (next_q + 1) <= 2 * (length + 1) && 2 * power <= length + 1)
            by (nonlinear_arith)
            requires
                power * (q + 1) <= 2 * (length + 1),
                next_q == (q - 1) / 2,
                q >= 3,
                power >= 0,
        ;
        proof {
            lemma_pow2_exponent((n + 2) as nat);
        }
        q = (q - 1) / 2;
        power = 2 * power;
        n += 1;
    }
    let ghost ones = Seq::new(n as nat, |k: int| true);
    let mut k: usize = 0;
    proof {
        assert(out@ =~= before + ones.take(0));
    }
    while k < n
        invariant
            k <= n,
            ones == Seq::new(n as nat, |k: int| true),
            out@ == before + ones.take(k as int),
        decreases n - k,
    {
        out.push(true);
        k += 1;
        proof {
            assert(out@ =~= before + ones.take(k as int));
        }
    }
    out.push(false);
    proof {
        assert(ones.take(n as int) =~= ones);
        assert(out@ =~= before + ones + seq![false]);
    }
    push_number(out, length - (power - 1), n + 1);
    proof {
        assert(out@ =~= before + spec_run_bits(length as int));
    }
}

/// A power of two that is at most two to the sixteenth has an exponent of
/// at most sixteen.
pub proof fn lemma_pow2_exponent(n: nat)
    requires
        spec_pow2(n) <= 0x10000,
    ensures
        n <= 16,
{
    if n >= 17 {
        lemma_pow2_grows(17, n);
        reveal_with_fuel(spec_pow2, 18);
        assert(spec_pow2(17) == 0x20000);
    }
}

/// The empty pairs in a row at `i` end inside the pairs.
pub proof fn lemma_zero_run(pairs: Seq<u8>, i: int)
    requires
        0 <= i <= pairs.len(),
    ensures
        i + spec_zero_run(pairs, i) <= pairs.len(),
        forall|j: int| i <= j < i + spec_zero_run(pairs, i) ==> pairs[j] == 0,
        i + spec_zero_run(pairs, i) < pairs.len() ==> pairs[i + spec_zero_run(pairs, i)] != 0,
    decreases pairs.len() - i,
{
    if i < pairs.len() && pairs[i] == 0 {
        lemma_zero_run(pairs, i + 1);
    }
}

/// Appends to `out` the bits of the pairs from the first on.
#[verifier::rlimit(50)]
fn push_packets(out: &mut Vec<bool>, pairs: &Vec<u8>, rle: bool)
    requires
        pairs@.len() <= 0xFFFF,
        rle ==> pairs@.len() > 0 && pairs@[0] == 0,
    ensures
        final(out)@ == old(out)@ + spec_encode_packets(pairs@, 0, rle),
{
    let ghost before = out@;
    let ghost whole = spec_encode_packets(pairs@, 0, rle);
    let ghost mut done = Seq::<bool>::empty();
    let len = pairs.len();
    let mut i: usize = 0;
    let mut run_next = rle;
    proof {
        assert(out@ =~= before + done);
        assert(whole =~= done + spec_encode_packets(pairs@, 0, rle));
    }
    while i < len
        invariant
            i <= len == pairs@.len(),
            len <= 0xFFFF,
            run_next ==> i < len && pairs@[i as int] == 0,
            out@ == before + done,
            whole == done + spec_encode_packets(pairs@, i as int, run_next),
        decreases len - i, (if run_next { 0int } else { 1int }),
    {
        if run_next {
            let mut run: usize = 0;
            proof {
                lemma_zero_run(pairs@, i as int);
            }
            while i + run < len && pairs[i + run] == 0
                invariant
                    i + run <= len == pairs@.len(),
                    spec_zero_run(pairs@, i as int) == run + spec_zero_run(pairs@, i + run),
                decreases len - run,
            {
                run += 1;
            }
            push_run(out, run);
            proof {
                let rest = spec_encode_packets(pairs@, i + run, false);
                assert(done + (spec_run_bits(run as int) + rest) =~= (done + spec_run_bits(
                    run as int,
                )) + rest);
                assert(out@ =~= before + (done + spec_run_bits(run as int)));
                done = done + spec_run_bits(run as int);
            }
            i = i + run;
            run_next = false;
        } else if pairs[i] == 0 {
            out.push(false);
            out.push(false);
            proof {
                let rest = spec_encode_packets(pairs@, i as int, true);
                assert(done + (seq![false, false] + rest) =~= (done + seq![false, false]) + rest);
                assert(out@ =~= before + (done + seq![false, false]));
                done = done + seq![false, false];
            }
            run_next = true;
        } else {
            let pair = pairs[i];
            out.push(pair == 2 || pair == 3);
            out.push(pair == 1 || pair == 3);
            proof {
                let rest = spec_encode_packets(pairs@, i + 1, false);
                assert(done + (spec_pair_bits(pair) + rest) =~= (done + spec_pair_bits(pair))
                    + rest);
                assert(out@ =~= before + (done + spec_pair_bits(pair)));
                done = done + spec_pair_bits(pair);
            }
            i += 1;
        }
    }
    proof {
        assert(done + Seq::<bool>::empty() =~= done);
    }
}

/// Appends to `out` the bits of a plane.
fn push_plane(out: &mut Vec<bool>, pairs: &Vec<u8>)
    requires
        pairs@.len() <= 0xFFFF,
    ensures
        final(out)@ == old(out)@ + spec_encode_plane(pairs@),
{
    let ghost before = out@;
    let rle = pairs.len() > 0 && pairs[0] == 0;
    out.push(!rle);
    push_packets(out, pairs, rle);
    proof {
        assert(out@ =~= before + spec_encode_plane(pairs@));
    }
}

/// The byte that the eight bits of `bits` from `at` on make.
fn byte_of_bits(bits: &Vec<bool>, at: usize) -> (r: u8)
    requires
        at <= bits@.len(),
    ensures
        r == spec_byte_of_bits(bits@, at as int),
{
    let len = bits.len();
    let left = len - at;
    (if left > 0 && bits[at] { 0x80u8 } else { 0 }) | (if left > 1 && bits[at + 1] {
        0x40u8
    } else {
        0
    }) | (if left > 2 && bits[at + 2] { 0x20u8 } else { 0 }) | (if left > 3 && bits[at + 3] {
        0x10u8
    } else {
        0
    }) | (if left > 4 && bits[at + 4] { 0x08u8 } else { 0 }) | (if left > 5 && bits[at + 5] {
        0x04u8
    } else {
        0
    }) | (if left > 6 && bits[at + 6] { 0x02u8 } else { 0 }) | (if left > 7 && bits[at + 7] {
        0x01u8
    } else {
        0
    })
}

/// The bytes that `bits` make.
fn bytes_of_bits(bits: &Vec<bool>) -> (r: Vec<u8>)
    ensures
        r@ == spec_bytes_of_bits(bits@),
{
    let len = bits.len();
    let count = len / 8 + if len % 8 == 0 {
        0
    } else {
        1
    };
    let ghost spec = spec_bytes_of_bits(bits@);
    let mut out: Vec<u8> = Vec::new();
    let mut j: usize = 0;
    while j < count
        invariant
            j <= count,
            len == bits@.len(),
            count == (len + 7) / 8,
            spec == spec_bytes_of_bits(bits@),
            out@ == spec.take(j as int),
        decreases count - j,
    {
        out.push(byte_of_bits(bits, 8 * j));
        j += 1;
        proof {
            assert(out@ =~= spec.take(j as int));
        }
    }
    proof {
        assert(out@ =~= spec);
    }
    out
}

impl Pic {
    /// Whether the picture can be stored.
    pub open spec fn storable(&self) -> bool {
        spec_pic_storable(self.pixels@, self.width, self.height)
    }

    /// Whether the picture can be stored.
    pub fn is_storable(&self) -> (r: bool)
        ensures
            r == self.storable(),
    {
        if self.width > MAX_PIC_SIDE || self.height > MAX_PIC_SIDE {
            return false;
        }
        assert(self.width * 8 * self.height * 8 <= 14400) by (nonlinear_arith)
            requires
                self.width <= 15,
                self.height <= 15,
        ;
        let count = (self.width as usize) * 8 * (self.height as usize) * 8;
        if self.pixels.len() != count {
            return false;
        }
        let mut i: usize = 0;
        while i < self.pixels.len()
            invariant
                i <= self.pixels@.len(),
                forall|j: int| 0 <= j < i ==> (#[trigger] self.pixels@[j]) < 4,
            decreases self.pixels@.len() - i,
        {
            if self.pixels[i] >= 4 {
                return false;
            }
            i += 1;
        }
        true
    }

    /// The pairs of the two planes as they are stored in the way `mode`.
    fn stored_pairs(&self, mode: u8, swapped: bool) -> (r: (Vec<u8>, Vec<u8>))
        requires
            self.storable(),
            mode <= 2,
        ensures
            r.0@ == spec_plane_pairs(
                spec_stored_first(self.pixels@, swapped, self.width * 8),
                self.width * 8,
                self.height * 8,
            ),
            r.1@ == spec_plane_pairs(
                spec_stored_second(self.pixels@, mode as int, swapped, self.width * 8),
                self.width * 8,
                self.height * 8,
            ),
            r.0@.len() <= 0xFFFF,
            r.1@.len() <= 0xFFFF,
    {
        assert(self.width * 8 * self.height * 8 <= 14400 && self.width * self.height * 32 <= 7200)
            by (nonlinear_arith)
            requires
                self.width <= 15,
                self.height <= 15,
        ;
        let columns = (self.width as usize) * 8;
        assert(columns > 0 || self.pixels@.len() == 0) by (nonlinear_arith)
            requires
                self.pixels@.len() == self.width * 8 * self.height * 8,
                columns == self.width * 8,
        ;
        let first = pixel_plane(&self.pixels, swapped);
        let second = pixel_plane(&self.pixels, !swapped);
        let stored_first = changes(&first, columns);
        let stored_second = if mode == 0 {
            changes(&second, columns)
        } else if mode == 1 {
            difference(&second, &first)
        } else {
            changes(&difference(&second, &first), columns)
        };
        let first_pairs = plane_pairs(&stored_first, self.width, self.height);
        let second_pairs = plane_pairs(&stored_second, self.width, self.height);
        (first_pairs, second_pairs)
    }

    /// The bits of the stored form of the picture.
    #[verifier::rlimit(50)]
    fn encode_bits(&self, encoding_method: PicEncodingMethod) -> (r: Vec<bool>)
        requires
            self.storable(),
        ensures
            r@ == spec_encode_pic_bits(self.pixels@, self.width, self.height, encoding_method),
    {
        let (mode, swapped): (u8, bool) = match encoding_method {
            PicEncodingMethod::ONE(p) => (0, p != 0),
            PicEncodingMethod::TWO(p) => (1, p != 0),
            PicEncodingMethod::THREE(p) => (2, p != 0),
        };
        let (first_pairs, second_pairs) = self.stored_pairs(mode, swapped);
        let mut bits: Vec<bool> = Vec::new();
        push_number(&mut bits, self.width as usize, 4);
        push_number(&mut bits, self.height as usize, 4);
        bits.push(swapped);
        push_plane(&mut bits, &first_pairs);
        if mode >= 1 {
            bits.push(true);
            bits.push(mode == 2);
        } else {
            bits.push(false);
        }
        proof {
            assert(bits@ =~= spec_number_bits(self.width as int, 4) + spec_number_bits(
                self.height as int,
                4,
            ) + seq![swapped] + spec_encode_plane(first_pairs@) + spec_mode_bits(mode as int));
        }
        push_plane(&mut bits, &second_pairs);
        bits
    }

    /// The stored form of the picture in the way `encoding_method`:
    /// `PicWrongSize` where the picture cannot be stored. The stored form
    /// reads back as the picture.
    #[verifier::rlimit(50)]
    pub fn encode(&self, encoding_method: PicEncodingMethod) -> (r: Result<Vec<u8>, Error>)
        ensures
            match r {
                Ok(bytes) => {
                    &&& self.storable()
                    &&& bytes@ == spec_encode_pic(
                        self.pixels@,
                        self.width,
                        self.height,
                        encoding_method,
                    )
                    &&& crate::pic::spec_decode_pic(bytes@) == Some(
                        crate::pic::PicView {
                            width: self.width,
                            height: self.height,
                            pixels: self.pixels@,
                            bytes: bytes@.len() as int,
                        },
                    )
                },
                Err(e) => !self.storable() && e == Error::PicWrongSize,
            },
    {
        if !self.is_storable() {
            return Err(Error::PicWrongSize);
        }
        let bits = self.encode_bits(encoding_method);
        let bytes = bytes_of_bits(&bits);
        proof {
            crate::pic_laws::pic_decode_inverts_encode(
                self.pixels@,
                self.width,
                self.height,
                encoding_method,
                Seq::empty(),
            );
            assert(bytes@ + Seq::<u8>::empty() =~= bytes@);
        }
        Ok(bytes)
    }
}

} // verus!
