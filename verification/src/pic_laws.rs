//! Reading a stored picture gives back the picture that was stored.

use crate::pic::{
    lemma_pixel_index, spec_bits, spec_bits_value, spec_changes_bit, spec_decode_packets,
    spec_decode_pic, spec_decode_plane, spec_first_bit, spec_ones, spec_pic_pixel,
    spec_pic_pixels, spec_plane_bit, spec_pow2, spec_read_run, spec_second_bit,
    PicEncodingMethod, PicView, MAX_PIC_SIDE, MAX_RUN_ONES,
};
use crate::pic_encode::{
    lemma_pow2_exponent, lemma_pow2_grows, lemma_run_ones, lemma_zero_run, spec_bit_or_false, spec_bit_or_zero, spec_byte_of_bits, spec_bytes_of_bits, spec_changes, spec_difference, spec_encode_packets, spec_encode_pic, spec_encode_pic_bits, spec_encode_plane, spec_mode_bits, spec_number_bits, spec_pair_bits, spec_pic_storable, spec_pixel_plane, spec_plane_pairs, spec_run_bits, spec_run_ones, spec_stored_first, spec_stored_second, spec_zero_run,
};
use vstd::prelude::*;

verus! {

/// Bit `k` of the byte that eight bits make, counted from the highest, is
/// the `k`-th of the eight.
pub proof fn lemma_byte_bit(bits: Seq<bool>, at: int, k: int)
    requires
        0 <= k < 8,
    ensures
        ((spec_byte_of_bits(bits, at) >> ((7 - k) as u8)) & 1 == 1) == spec_bit_or_false(
            bits,
            at + k,
        ),
{
    let b0: u8 = if spec_bit_or_false(bits, at) { 0x80u8 } else { 0 };
    let b1: u8 = if spec_bit_or_false(bits, at + 1) { 0x40u8 } else { 0 };
    let b2: u8 = if spec_bit_or_false(bits, at + 2) { 0x20u8 } else { 0 };
    let b3: u8 = if spec_bit_or_false(bits, at + 3) { 0x10u8 } else { 0 };
    let b4: u8 = if spec_bit_or_false(bits, at + 4) { 0x08u8 } else { 0 };
    let b5: u8 = if spec_bit_or_false(bits, at + 5) { 0x04u8 } else { 0 };
    let b6: u8 = if spec_bit_or_false(bits, at + 6) { 0x02u8 } else { 0 };
    let b7: u8 = if spec_bit_or_false(bits, at + 7) { 0x01u8 } else { 0 };
    let p = b0 | b1 | b2 | b3 | b4 | b5 | b6 | b7;
    let s = (7 - k) as u8;
    assert(((p >> s) & 1 == 1) == (if s == 7 {
        b0 == 0x80
    } else if s == 6 {
        b1 == 0x40
    } else if s == 5 {
        b2 == 0x20
    } else if s == 4 {
        b3 == 0x10
    } else if s == 3 {
        b4 == 0x08
    } else if s == 2 {
        b5 == 0x04
    } else if s == 1 {
        b6 == 0x02
    } else {
        b7 == 0x01
    })) by (bit_vector)
        requires
            p == b0 | b1 | b2 | b3 | b4 | b5 | b6 | b7,
            b0 == 0x80 || b0 == 0,
            b1 == 0x40 || b1 == 0,
            b2 == 0x20 || b2 == 0,
            b3 == 0x10 || b3 == 0,
            b4 == 0x08 || b4 == 0,
            b5 == 0x04 || b5 == 0,
            b6 == 0x02 || b6 == 0,
            b7 == 0x01 || b7 == 0,
            s < 8,
    ;
}

/// The bits of the bytes that bits make are those bits, and zeros after
/// them; what follows the bytes does not change them.
pub proof fn lemma_bits_of_bytes(bits: Seq<bool>, tail: Seq<u8>)
    ensures
        spec_bits(spec_bytes_of_bits(bits) + tail).len() == 8 * ((bits.len() + 7) / 8) + 8
            * tail.len(),
        forall|i: int|
            0 <= i < 8 * ((bits.len() + 7) / 8) ==> #[trigger] spec_bits(
                spec_bytes_of_bits(bits) + tail,
            )[i] == spec_bit_or_false(bits, i),
{
    let bytes = spec_bytes_of_bits(bits);
    let all = bytes + tail;
    assert forall|i: int| 0 <= i < 8 * ((bits.len() + 7) / 8) implies #[trigger] spec_bits(all)[i]
        == spec_bit_or_false(bits, i) by {
        let j = i / 8;
        let k = i % 8;
        assert(all[j] == bytes[j]);
        assert(bytes[j] == spec_byte_of_bits(bits, 8 * j));
        lemma_byte_bit(bits, 8 * j, k);
    }
}

/// Two to the power `a + 1` is twice two to the power `a`, and dividing by
/// it is dividing by two first.
pub proof fn lemma_div_pow2(v: int, a: nat)
    requires
        v >= 0,
    ensures
        spec_pow2(a) >= 1,
        (v / 2) / spec_pow2(a) == v / spec_pow2(a + 1),
{
    lemma_pow2_grows(0, a);
    let p = spec_pow2(a);
    assert(spec_pow2(a + 1) == 2 * p);
    assert((v / 2) / p == v / (2 * p)) by (nonlinear_arith)
        requires
            v >= 0,
            p >= 1,
    ;
}

/// The bits that spell a number spell that number.
pub proof fn lemma_number_bits_value(bits: Seq<bool>, pos: int, v: int, n: nat)
    requires
        0 <= pos,
        pos + n <= bits.len(),
        0 <= v < spec_pow2(n),
        forall|k: int| 0 <= k < n ==> bits[pos + k] == #[trigger] spec_number_bits(v, n)[k],
    ensures
        spec_bits_value(bits, pos, n) == v,
    decreases n,
{
    if n > 0 {
        let m = (n - 1) as nat;
        assert forall|k: int| 0 <= k < m implies bits[pos + k] == #[trigger] spec_number_bits(
            v / 2,
            m,
        )[k] by {
            assert(bits[pos + k] == spec_number_bits(v, n)[k]);
            lemma_div_pow2(v, (m - 1 - k) as nat);
        }
        assert(v / 2 < spec_pow2(m));
        lemma_number_bits_value(bits, pos, v / 2, m);
        assert(bits[pos + n - 1] == spec_number_bits(v, n)[n - 1]);
        assert(spec_pow2(0) == 1);
    }
}

/// Bit `k` of `bits`, counted from `pos`.
pub open spec fn bit_from(bits: Seq<bool>, pos: int, k: int) -> bool {
    bits[pos + k]
}

/// A row of `n` ones that a zero ends counts `n`.
pub proof fn lemma_ones(bits: Seq<bool>, pos: int, n: nat, limit: nat)
    requires
        0 <= pos,
        pos + n < bits.len(),
        n < limit,
        forall|k: int| 0 <= k < n ==> #[trigger] bit_from(bits, pos, k),
        !bits[pos + n],
    ensures
        spec_ones(bits, pos, limit) == n,
    decreases n,
{
    if n > 0 {
        assert(bit_from(bits, pos, 0));
        assert forall|k: int| 0 <= k < n - 1 implies #[trigger] bit_from(bits, pos + 1, k) by {
            assert(bit_from(bits, pos, k + 1));
        }
        lemma_ones(bits, pos + 1, (n - 1) as nat, (limit - 1) as nat);
    }
}

/// The length of a run reads back from the bits that write it.
pub proof fn lemma_run_reads_back(bits: Seq<bool>, pos: int, length: int)
    requires
        0 <= pos,
        1 <= length <= 0xFFFF,
        pos + spec_run_bits(length).len() <= bits.len(),
        bits.subrange(pos, pos + spec_run_bits(length).len()) == spec_run_bits(length),
    ensures
        spec_read_run(bits, pos) == Some((length, pos + spec_run_bits(length).len())),
{
    let n = spec_run_ones(length);
    let written = spec_run_bits(length);
    let v = length - (spec_pow2(n + 1) - 1);
    lemma_run_ones(length);
    assert(spec_pow2(n + 2) == 2 * spec_pow2(n + 1));
    assert(0 <= v < spec_pow2(n + 1));
    lemma_pow2_exponent(n + 1);
    assert(written.len() == 2 * (n + 1));
    assert forall|k: int| 0 <= k < written.len() implies #[trigger] bit_from(bits, pos, k)
        == written[k] by {
        assert(bits.subrange(pos, pos + written.len())[k] == bits[pos + k]);
    }
    assert forall|k: int| 0 <= k < n implies #[trigger] bit_from(bits, pos, k) by {
        assert(written[k]);
    }
    assert(bit_from(bits, pos, n as int) == written[n as int]);
    assert(!written[n as int]);
    lemma_ones(bits, pos, n, (MAX_RUN_ONES + 1) as nat);
    assert forall|k: int| 0 <= k < n + 1 implies bits[pos + n + 1 + k] == #[trigger] spec_number_bits(
        v,
        n + 1,
    )[k] by {
        assert(written[n + 1 + k] == spec_number_bits(v, n + 1)[k]);
        assert(bit_from(bits, pos, n + 1 + k) == written[n + 1 + k]);
    }
    lemma_number_bits_value(bits, pos + n + 1, v, n + 1);
}

/// Whether every pair is below four.
pub open spec fn are_pairs(pairs: Seq<u8>) -> bool {
    forall|i: int| 0 <= i < pairs.len() ==> (#[trigger] pairs[i]) < 4
}

/// The pairs read back from the bits that write them: the runs and
/// stretches that the pairs from `i` on were written as give these pairs,
/// and end where what was written ends.
#[verifier::rlimit(50)]
pub proof fn lemma_packets_read_back(bits: Seq<bool>, pos: int, pairs: Seq<u8>, i: int, rle: bool)
    requires
        0 <= pos,
        0 <= i <= pairs.len() <= 0xFFFF,
        are_pairs(pairs),
        rle ==> i < pairs.len() && pairs[i] == 0,
        pos + spec_encode_packets(pairs, i, rle).len() <= bits.len(),
        bits.subrange(pos, pos + spec_encode_packets(pairs, i, rle).len()) == spec_encode_packets(
            pairs,
            i,
            rle,
        ),
    ensures
        spec_decode_packets(bits, pos, (pairs.len() - i) as nat, rle) == Some(
            (pairs.skip(i), pos + spec_encode_packets(pairs, i, rle).len()),
        ),
    decreases pairs.len() - i, (if rle { 0int } else { 1int }),
{
    let written = spec_encode_packets(pairs, i, rle);
    let remaining = (pairs.len() - i) as nat;
    assert forall|k: int| 0 <= k < written.len() implies #[trigger] bit_from(bits, pos, k)
        == written[k] by {
        assert(bits.subrange(pos, pos + written.len())[k] == bits[pos + k]);
    }
    if i == pairs.len() {
        assert(pairs.skip(i) =~= Seq::<u8>::empty());
    } else if rle {
        let run = spec_zero_run(pairs, i);
        lemma_zero_run(pairs, i);
        let head = spec_run_bits(run as int);
        let rest = spec_encode_packets(pairs, i + run, false);
        assert(written == head + rest);
        assert(bits.subrange(pos, pos + head.len()) =~= head) by {
            assert forall|k: int| 0 <= k < head.len() implies bits.subrange(
                pos,
                pos + head.len(),
            )[k] == head[k] by {
                assert(bit_from(bits, pos, k) == written[k]);
            }
        }
        lemma_run_reads_back(bits, pos, run as int);
        let next = pos + head.len();
        assert(bits.subrange(next, next + rest.len()) =~= rest) by {
            assert forall|k: int| 0 <= k < rest.len() implies bits.subrange(
                next,
                next + rest.len(),
            )[k] == rest[k] by {
                assert(bit_from(bits, pos, head.len() + k) == written[head.len() + k]);
            }
        }
        lemma_packets_read_back(bits, next, pairs, i + run, false);
        assert(Seq::new(run, |k: int| 0u8) + pairs.skip(i + run) =~= pairs.skip(i));
    } else if pairs[i] == 0 {
        let rest = spec_encode_packets(pairs, i, true);
        assert(written == seq![false, false] + rest);
        assert(bit_from(bits, pos, 0) == written[0]);
        assert(bit_from(bits, pos, 1) == written[1]);
        assert(bits.subrange(pos + 2, pos + 2 + rest.len()) =~= rest) by {
            assert forall|k: int| 0 <= k < rest.len() implies bits.subrange(
                pos + 2,
                pos + 2 + rest.len(),
            )[k] == rest[k] by {
                assert(bit_from(bits, pos, 2 + k) == written[2 + k]);
            }
        }
        lemma_packets_read_back(bits, pos + 2, pairs, i, true);
    } else {
        let pair = pairs[i];
        let rest = spec_encode_packets(pairs, i + 1, false);
        assert(written == spec_pair_bits(pair) + rest);
        assert(bit_from(bits, pos, 0) == written[0]);
        assert(bit_from(bits, pos, 1) == written[1]);
        assert(bits.subrange(pos + 2, pos + 2 + rest.len()) =~= rest) by {
            assert forall|k: int| 0 <= k < rest.len() implies bits.subrange(
                pos + 2,
                pos + 2 + rest.len(),
            )[k] == rest[k] by {
                assert(bit_from(bits, pos, 2 + k) == written[2 + k]);
            }
        }
        lemma_packets_read_back(bits, pos + 2, pairs, i + 1, false);
        assert(seq![pair] + pairs.skip(i + 1) =~= pairs.skip(i));
    }
}

/// A plane reads back from the bits that write it.
pub proof fn lemma_plane_reads_back(bits: Seq<bool>, pos: int, pairs: Seq<u8>)
    requires
        0 <= pos,
        pairs.len() <= 0xFFFF,
        are_pairs(pairs),
        pos + spec_encode_plane(pairs).len() <= bits.len(),
        bits.subrange(pos, pos + spec_encode_plane(pairs).len()) == spec_encode_plane(pairs),
    ensures
        spec_decode_plane(bits, pos, pairs.len()) == Some(
            (pairs, pos + spec_encode_plane(pairs).len()),
        ),
{
    let written = spec_encode_plane(pairs);
    let rle = pairs.len() > 0 && pairs[0] == 0;
    let rest = spec_encode_packets(pairs, 0, rle);
    assert(written == seq![!rle] + rest);
    assert(bits.subrange(pos, pos + written.len())[0] == bits[pos]);
    assert(bits.subrange(pos + 1, pos + 1 + rest.len()) =~= rest) by {
        assert forall|k: int| 0 <= k < rest.len() implies bits.subrange(
            pos + 1,
            pos + 1 + rest.len(),
        )[k] == rest[k] by {
            assert(bits.subrange(pos, pos + written.len())[1 + k] == bits[pos + 1 + k]);
            assert(written[1 + k] == rest[k]);
        }
    }
    lemma_packets_read_back(bits, pos + 1, pairs, 0, rle);
    assert(pairs.skip(0) =~= pairs);
}

/// A plane of `width` by `height` tiles has half as many pairs as bits.
pub proof fn lemma_pairs_count(width: int, height: int)
    requires
        0 <= width,
        0 <= height,
    ensures
        (width * 8 * height * 8) / 2 == width * height * 32,
        width * 8 * height * 8 == (width * 8) * (height * 8),
{
    assert(width * 8 * height * 8 == 2 * (width * height * 32)) by (nonlinear_arith);
    assert(width * 8 * height * 8 == (width * 8) * (height * 8)) by (nonlinear_arith);
}

/// The bit at a place of the plane that the pairs of a plane fill is the
/// bit of the plane at that place.
pub proof fn lemma_plane_bit_of_pairs(plane: Seq<bool>, width: int, height: int, x: int, y: int)
    requires
        0 <= x < width * 8,
        0 <= y < height * 8,
        plane.len() == width * 8 * height * 8,
    ensures
        0 <= y * (width * 8) + x < plane.len(),
        spec_plane_bit(spec_plane_pairs(plane, width * 8, height * 8), height * 8, x, y)
            == plane[y * (width * 8) + x],
{
    let columns = width * 8;
    let rows = height * 8;
    let p = (x / 2) * rows + y;
    crate::pic::lemma_plane_index(width, height, x, y);
    lemma_pairs_count(width, height);
    lemma_pixel_index(rows, y, x / 2);
    assert(0 <= y * columns + x && y * columns + columns <= columns * rows) by (nonlinear_arith)
        requires
            0 <= x < columns,
            0 <= y < rows,
    ;
    let pairs = spec_plane_pairs(plane, columns, rows);
    assert(pairs.len() == width * height * 32);
    let first = 2 * (p / rows);
    assert(first == 2 * (x / 2));
    assert(pairs[p] == spec_pic_pixel(plane[y * columns + first + 1], plane[y * columns + first]));
}

/// The changes along the rows of a plane, told back from their pairs, give
/// the plane.
pub proof fn lemma_changes_read_back(target: Seq<bool>, width: int, height: int, x: int, y: int)
    requires
        -1 <= x < width * 8,
        0 <= y < height * 8,
        target.len() == width * 8 * height * 8,
    ensures
        spec_changes_bit(
            spec_plane_pairs(spec_changes(target, width * 8), width * 8, height * 8),
            height * 8,
            x,
            y,
        ) == spec_bit_or_zero(target, width * 8, x, y),
    decreases x + 1,
{
    if x >= 0 {
        let columns = width * 8;
        let stored = spec_changes(target, columns);
        lemma_changes_read_back(target, width, height, x - 1, y);
        lemma_plane_bit_of_pairs(stored, width, height, x, y);
        lemma_pixel_index(columns, x, y);
        let i = y * columns + x;
        assert(stored[i] == (target[i] != spec_bit_or_zero(target, columns, i % columns - 1, i
            / columns)));
    }
}

/// The pixels read back from the pairs of the planes as they are stored.
#[verifier::rlimit(50)]
pub proof fn lemma_pixels_read_back(
    pixels: Seq<u8>,
    width: u8,
    height: u8,
    method: PicEncodingMethod,
)
    requires
        spec_pic_storable(pixels, width, height),
    ensures
        ({
            let columns = width * 8;
            let rows = height * 8;
            let swapped = method.spec_swapped();
            let mode = method.spec_mode();
            spec_pic_pixels(
                spec_plane_pairs(spec_stored_first(pixels, swapped, columns), columns, rows),
                spec_plane_pairs(
                    spec_stored_second(pixels, mode, swapped, columns),
                    columns,
                    rows,
                ),
                mode,
                swapped,
                width as int,
                height as int,
            ) == pixels
        }),
{
    let columns = width * 8;
    let rows = height * 8;
    let swapped = method.spec_swapped();
    let mode = method.spec_mode();
    let first_plane = spec_pixel_plane(pixels, swapped);
    let second_plane = spec_pixel_plane(pixels, !swapped);
    let first = spec_plane_pairs(spec_stored_first(pixels, swapped, columns), columns, rows);
    let second = spec_plane_pairs(
        spec_stored_second(pixels, mode, swapped, columns),
        columns,
        rows,
    );
    let read = spec_pic_pixels(first, second, mode, swapped, width as int, height as int);
    assert(read.len() == pixels.len());
    assert forall|i: int| 0 <= i < pixels.len() implies read[i] == pixels[i] by {
        assert(width > 0 && height > 0) by (nonlinear_arith)
            requires
                0 <= i < width * 8 * height * 8,
                0 <= width,
                0 <= height,
        ;
        let x = i % columns;
        let y = i / columns;
        assert(i == columns * y + x) by {
            vstd::arithmetic::div_mod::lemma_fundamental_div_mod(i, columns);
        }
        assert(0 <= x < columns) by {
            vstd::arithmetic::div_mod::lemma_mod_bound(i, columns);
        }
        assert(0 <= y < rows && y * columns + x == i) by (nonlinear_arith)
            requires
                i == columns * y + x,
                0 <= x < columns,
                0 <= i < width * 8 * height * 8,
                columns == width * 8,
                rows == height * 8,
        ;
        lemma_changes_read_back(first_plane, width as int, height as int, x, y);
        let a = spec_first_bit(first, rows, x, y);
        assert(a == first_plane[i]);
        let b = spec_second_bit(first, second, mode, rows, x, y);
        if mode == 0 {
            lemma_changes_read_back(second_plane, width as int, height as int, x, y);
        } else if mode == 1 {
            lemma_plane_bit_of_pairs(
                spec_difference(second_plane, first_plane),
                width as int,
                height as int,
                x,
                y,
            );
        } else {
            lemma_changes_read_back(
                spec_difference(second_plane, first_plane),
                width as int,
                height as int,
                x,
                y,
            );
        }
        assert(b == second_plane[i]);
        assert(pixels[i] < 4);
    }
    assert(read =~= pixels);
}

/// The first byte of a stored picture holds its width in its high nibble
/// and its height in its low nibble.
pub proof fn lemma_size_byte(bits: Seq<bool>, width: u8, height: u8)
    requires
        width <= MAX_PIC_SIDE,
        height <= MAX_PIC_SIDE,
        bits.len() >= 8,
        bits.subrange(0, 8) == spec_number_bits(width as int, 4) + spec_number_bits(
            height as int,
            4,
        ),
    ensures
        spec_byte_of_bits(bits, 0) >> 4 == width,
        spec_byte_of_bits(bits, 0) & 0x0F == height,
{
    reveal_with_fuel(spec_pow2, 5);
    let head = spec_number_bits(width as int, 4) + spec_number_bits(height as int, 4);
    assert forall|k: int| 0 <= k < 8 implies spec_bit_or_false(bits, k) == head[k] by {
        assert(bits.subrange(0, 8)[k] == bits[k]);
    }
    let w = width;
    let h = height;
    assert(head[0] == ((w as int / 8) % 2 == 1));
    assert(head[1] == ((w as int / 4) % 2 == 1));
    assert(head[2] == ((w as int / 2) % 2 == 1));
    assert(head[3] == ((w as int / 1) % 2 == 1));
    assert(head[4] == ((h as int / 8) % 2 == 1));
    assert(head[5] == ((h as int / 4) % 2 == 1));
    assert(head[6] == ((h as int / 2) % 2 == 1));
    assert(head[7] == ((h as int / 1) % 2 == 1));
    assert(((w / 8) % 2 == 1) == (w & 8 == 8) && ((w / 4) % 2 == 1) == (w & 4 == 4) && ((w / 2)
        % 2 == 1) == (w & 2 == 2) && ((w / 1) % 2 == 1) == (w & 1 == 1)) by (bit_vector);
    assert(((h / 8) % 2 == 1) == (h & 8 == 8) && ((h / 4) % 2 == 1) == (h & 4 == 4) && ((h / 2)
        % 2 == 1) == (h & 2 == 2) && ((h / 1) % 2 == 1) == (h & 1 == 1)) by (bit_vector);
    let b0: u8 = if w & 8 == 8 { 0x80u8 } else { 0 };
    let b1: u8 = if w & 4 == 4 { 0x40u8 } else { 0 };
    let b2: u8 = if w & 2 == 2 { 0x20u8 } else { 0 };
    let b3: u8 = if w & 1 == 1 { 0x10u8 } else { 0 };
    let b4: u8 = if h & 8 == 8 { 0x08u8 } else { 0 };
    let b5: u8 = if h & 4 == 4 { 0x04u8 } else { 0 };
    let b6: u8 = if h & 2 == 2 { 0x02u8 } else { 0 };
    let b7: u8 = if h & 1 == 1 { 0x01u8 } else { 0 };
    let p = b0 | b1 | b2 | b3 | b4 | b5 | b6 | b7;
    assert(p == spec_byte_of_bits(bits, 0));
    assert(p >> 4 == w && p & 0x0F == h) by (bit_vector)
        requires
            p == b0 | b1 | b2 | b3 | b4 | b5 | b6 | b7,
            b0 == (if w & 8 == 8 { 0x80u8 } else { 0 }),
            b1 == (if w & 4 == 4 { 0x40u8 } else { 0 }),
            b2 == (if w & 2 == 2 { 0x20u8 } else { 0 }),
            b3 == (if w & 1 == 1 { 0x10u8 } else { 0 }),
            b4 == (if h & 8 == 8 { 0x08u8 } else { 0 }),
            b5 == (if h & 4 == 4 { 0x04u8 } else { 0 }),
            b6 == (if h & 2 == 2 { 0x02u8 } else { 0 }),
            b7 == (if h & 1 == 1 { 0x01u8 } else { 0 }),
            w <= 15,
            h <= 15,
    ;
}

/// The bits of a stored picture, in their parts: the size, the order of
/// the planes, the first plane, the way of telling, the second plane.
pub open spec fn spec_pic_parts(
    pixels: Seq<u8>,
    width: u8,
    height: u8,
    method: PicEncodingMethod,
) -> (Seq<bool>, Seq<u8>, Seq<bool>, Seq<u8>) {
    let columns = width * 8;
    let rows = height * 8;
    let first = spec_plane_pairs(
        spec_stored_first(pixels, method.spec_swapped(), columns),
        columns,
        rows,
    );
    let second = spec_plane_pairs(
        spec_stored_second(pixels, method.spec_mode(), method.spec_swapped(), columns),
        columns,
        rows,
    );
    (spec_encode_plane(first), first, spec_encode_plane(second), second)
}

/// What the parts of a stored picture are, and that its bits are found in
/// its bytes.
#[verifier::rlimit(50)]
pub proof fn lemma_pic_parts(
    pixels: Seq<u8>,
    width: u8,
    height: u8,
    method: PicEncodingMethod,
    tail: Seq<u8>,
)
    requires
        spec_pic_storable(pixels, width, height),
    ensures
        ({
            let parts = spec_pic_parts(pixels, width, height, method);
            let written = spec_encode_pic_bits(pixels, width, height, method);
            let bytes = spec_encode_pic(pixels, width, height, method) + tail;
            let bits = spec_bits(bytes);
            let mode_bits = spec_mode_bits(method.spec_mode());
            &&& written == spec_number_bits(width as int, 4) + spec_number_bits(height as int, 4)
                + seq![method.spec_swapped()] + parts.0 + mode_bits + parts.2
            &&& written.len() == 9 + parts.0.len() + mode_bits.len() + parts.2.len()
            &&& parts.0.len() >= 1
            &&& parts.2.len() >= 1
            &&& 1 <= mode_bits.len() <= 2
            &&& parts.1.len() == width * height * 32
            &&& parts.3.len() == width * height * 32
            &&& parts.1.len() <= 0xFFFF
            &&& are_pairs(parts.1)
            &&& are_pairs(parts.3)
            &&& bytes.len() >= 2
            &&& bytes[0] >> 4 == width
            &&& bytes[0] & 0x0F == height
            &&& written.len() <= bits.len()
            &&& (written.len() + 7) / 8 == spec_encode_pic(pixels, width, height, method).len()
            &&& forall|i: int|
                0 <= i < written.len() ==> #[trigger] bit_from(bits, 0, i) == written[i]
        }),
{
    let parts = spec_pic_parts(pixels, width, height, method);
    let written = spec_encode_pic_bits(pixels, width, height, method);
    let stored = spec_encode_pic(pixels, width, height, method);
    let bytes = stored + tail;
    let bits = spec_bits(bytes);
    lemma_bits_of_bytes(written, tail);
    lemma_pairs_count(width as int, height as int);
    assert(width * height * 32 <= 7200) by (nonlinear_arith)
        requires
            0 <= width <= 15,
            0 <= height <= 15,
    ;
    assert forall|i: int| 0 <= i < written.len() implies #[trigger] bit_from(bits, 0, i)
        == written[i] by {
        assert(bits[i] == spec_bit_or_false(written, i));
    }
    assert(written.subrange(0, 8) =~= spec_number_bits(width as int, 4) + spec_number_bits(
        height as int,
        4,
    ));
    lemma_size_byte(written, width, height);
    assert(bytes[0] == stored[0]);
}

/// What reading finds in bytes whose bits hold a size, an order of the
/// planes, a first plane, a way of telling and a second plane.
pub proof fn lemma_decode_pic_steps(
    bytes: Seq<u8>,
    width: u8,
    height: u8,
    swapped: bool,
    mode: int,
    first: Seq<u8>,
    second: Seq<u8>,
    after_first: int,
    end: int,
)
    requires
        bytes.len() >= 2,
        bytes[0] >> 4 == width,
        bytes[0] & 0x0F == height,
        spec_bits(bytes)[8] == swapped,
        0 <= mode <= 2,
        spec_decode_plane(spec_bits(bytes), 9, (width * height * 32) as nat) == Some(
            (first, after_first),
        ),
        0 <= after_first,
        after_first + 2 <= spec_bits(bytes).len(),
        spec_bits(bytes)[after_first] == (mode != 0),
        mode != 0 ==> spec_bits(bytes)[after_first + 1] == (mode == 2),
        spec_decode_plane(
            spec_bits(bytes),
            after_first + if mode == 0 {
                1int
            } else {
                2int
            },
            (width * height * 32) as nat,
        ) == Some((second, end)),
    ensures
        spec_decode_pic(bytes) == Some(
            PicView {
                width,
                height,
                pixels: spec_pic_pixels(
                    first,
                    second,
                    mode,
                    swapped,
                    width as int,
                    height as int,
                ),
                bytes: (end + 7) / 8,
            },
        ),
{
}

/// A part of the written bits that is found in the bits read, place by
/// place, is found there as a whole.
pub proof fn lemma_part_found(bits: Seq<bool>, written: Seq<bool>, part: Seq<bool>, at: int)
    requires
        0 <= at,
        at + part.len() <= written.len() <= bits.len(),
        forall|i: int| 0 <= i < written.len() ==> #[trigger] bit_from(bits, 0, i) == written[i],
        forall|k: int| 0 <= k < part.len() ==> #[trigger] part[k] == written[at + k],
    ensures
        bits.subrange(at, at + part.len()) == part,
{
    assert forall|k: int| 0 <= k < part.len() implies bits.subrange(at, at + part.len())[k]
        == part[k] by {
        assert(bit_from(bits, 0, at + k) == written[at + k]);
    }
    assert(bits.subrange(at, at + part.len()) =~= part);
}

/// Where the parts of a stored picture end: the first plane, the way of
/// telling, and the second plane.
pub open spec fn spec_pic_ends(
    pixels: Seq<u8>,
    width: u8,
    height: u8,
    method: PicEncodingMethod,
) -> (int, int, int) {
    let parts = spec_pic_parts(pixels, width, height, method);
    let after_first: int = 9int + parts.0.len() as int;
    let after_mode: int = after_first + spec_mode_bits(method.spec_mode()).len() as int;
    (after_first, after_mode, after_mode + parts.2.len() as int)
}

/// The first plane of a stored picture reads back.
#[verifier::rlimit(50)]
pub proof fn lemma_first_plane_found(
    pixels: Seq<u8>,
    width: u8,
    height: u8,
    method: PicEncodingMethod,
    tail: Seq<u8>,
)
    requires
        spec_pic_storable(pixels, width, height),
    ensures
        spec_decode_plane(
            spec_bits(spec_encode_pic(pixels, width, height, method) + tail),
            9,
            (width * height * 32) as nat,
        ) == Some(
            (
                spec_pic_parts(pixels, width, height, method).1,
                spec_pic_ends(pixels, width, height, method).0,
            ),
        ),
{
    let parts = spec_pic_parts(pixels, width, height, method);
    let written = spec_encode_pic_bits(pixels, width, height, method);
    let bits = spec_bits(spec_encode_pic(pixels, width, height, method) + tail);
    lemma_pic_parts(pixels, width, height, method, tail);
    lemma_layout(
        spec_number_bits(width as int, 4) + spec_number_bits(height as int, 4),
        method.spec_swapped(),
        parts.0,
        spec_mode_bits(method.spec_mode()),
        parts.2,
    );
    lemma_part_found(bits, written, parts.0, 9);
    lemma_plane_reads_back(bits, 9, parts.1);
}

/// Where the parts stand in the whole that they make.
pub proof fn lemma_layout(
    size: Seq<bool>,
    swapped: bool,
    first: Seq<bool>,
    mode: Seq<bool>,
    second: Seq<bool>,
)
    requires
        size.len() == 8,
        mode.len() >= 1,
    ensures
        ({
            let whole = size + seq![swapped] + first + mode + second;
            &&& whole.len() == 9 + first.len() + mode.len() + second.len()
            &&& whole[8] == swapped
            &&& whole[9int + first.len() as int] == mode[0]
            &&& mode.len() >= 2 ==> whole[10int + first.len() as int] == mode[1]
            &&& forall|k: int| 0 <= k < first.len() ==> #[trigger] first[k] == whole[9 + k]
            &&& forall|k: int|
                0 <= k < second.len() ==> #[trigger] second[k] == whole[9 + first.len()
                    + mode.len() + k]
        }),
{
}

/// The bits that say a way of telling.
pub proof fn lemma_mode_bits(mode: int)
    requires
        0 <= mode <= 2,
    ensures
        spec_mode_bits(mode).len() == if mode == 0 {
            1int
        } else {
            2int
        },
        spec_mode_bits(mode)[0] == (mode != 0),
        mode != 0 ==> spec_mode_bits(mode)[1] == (mode == 2),
{
}

/// The way of telling reads back.
#[verifier::rlimit(50)]
pub proof fn lemma_mode_found(
    pixels: Seq<u8>,
    width: u8,
    height: u8,
    method: PicEncodingMethod,
    tail: Seq<u8>,
)
    requires
        spec_pic_storable(pixels, width, height),
    ensures
        ({
            let bits = spec_bits(spec_encode_pic(pixels, width, height, method) + tail);
            let ends = spec_pic_ends(pixels, width, height, method);
            let mode = method.spec_mode();
            &&& 9 <= ends.0
            &&& ends.0 + 2 <= bits.len()
            &&& ends.1 == ends.0 + if mode == 0 {
                1int
            } else {
                2int
            }
            &&& bits[8] == method.spec_swapped()
            &&& bits[ends.0] == (mode != 0)
            &&& mode != 0 ==> bits[ends.0 + 1] == (mode == 2)
        }),
{
    let parts = spec_pic_parts(pixels, width, height, method);
    let written = spec_encode_pic_bits(pixels, width, height, method);
    let bits = spec_bits(spec_encode_pic(pixels, width, height, method) + tail);
    let ends = spec_pic_ends(pixels, width, height, method);
    let mode = method.spec_mode();
    let mode_bits = spec_mode_bits(mode);
    let size = spec_number_bits(width as int, 4) + spec_number_bits(height as int, 4);
    lemma_pic_parts(pixels, width, height, method, tail);
    lemma_mode_bits(mode);
    lemma_layout(size, method.spec_swapped(), parts.0, mode_bits, parts.2);
    assert(bit_from(bits, 0, 8) == written[8]);
    assert(bit_from(bits, 0, ends.0) == written[ends.0]);
    if mode != 0 {
        assert(bit_from(bits, 0, ends.0 + 1) == written[ends.0 + 1]);
    }
}

/// The second plane of a stored picture reads back.
#[verifier::rlimit(50)]
pub proof fn lemma_second_plane_found(
    pixels: Seq<u8>,
    width: u8,
    height: u8,
    method: PicEncodingMethod,
    tail: Seq<u8>,
)
    requires
        spec_pic_storable(pixels, width, height),
    ensures
        spec_decode_plane(
            spec_bits(spec_encode_pic(pixels, width, height, method) + tail),
            spec_pic_ends(pixels, width, height, method).1,
            (width * height * 32) as nat,
        ) == Some(
            (
                spec_pic_parts(pixels, width, height, method).3,
                spec_pic_ends(pixels, width, height, method).2,
            ),
        ),
        (spec_pic_ends(pixels, width, height, method).2 + 7) / 8 == spec_encode_pic(
            pixels,
            width,
            height,
            method,
        ).len(),
{
    let parts = spec_pic_parts(pixels, width, height, method);
    let written = spec_encode_pic_bits(pixels, width, height, method);
    let bits = spec_bits(spec_encode_pic(pixels, width, height, method) + tail);
    let ends = spec_pic_ends(pixels, width, height, method);
    lemma_pic_parts(pixels, width, height, method, tail);
    lemma_layout(
        spec_number_bits(width as int, 4) + spec_number_bits(height as int, 4),
        method.spec_swapped(),
        parts.0,
        spec_mode_bits(method.spec_mode()),
        parts.2,
    );
    lemma_part_found(bits, written, parts.2, ends.1);
    lemma_plane_reads_back(bits, ends.1, parts.3);
}

/// The first byte of a stored picture holds its size, and the stored form
/// has at least two bytes.
pub proof fn lemma_size_found(
    pixels: Seq<u8>,
    width: u8,
    height: u8,
    method: PicEncodingMethod,
    tail: Seq<u8>,
)
    requires
        spec_pic_storable(pixels, width, height),
    ensures
        ({
            let bytes = spec_encode_pic(pixels, width, height, method) + tail;
            &&& bytes.len() >= 2
            &&& bytes[0] >> 4 == width
            &&& bytes[0] & 0x0F == height
        }),
{
    lemma_pic_parts(pixels, width, height, method, tail);
}

/// Reading inverts storing: for every picture that can be stored and every
/// way of storing it, the stored form reads back as the picture, and as
/// taking the bytes of the stored form. What follows the stored form does
/// not matter.
#[verifier::rlimit(50)]
pub proof fn pic_decode_inverts_encode(
    pixels: Seq<u8>,
    width: u8,
    height: u8,
    method: PicEncodingMethod,
    tail: Seq<u8>,
)
    requires
        spec_pic_storable(pixels, width, height),
    ensures
        spec_decode_pic(spec_encode_pic(pixels, width, height, method) + tail) == Some(
            PicView {
                width,
                height,
                pixels,
                bytes: spec_encode_pic(pixels, width, height, method).len() as int,
            },
        ),
{
    let parts = spec_pic_parts(pixels, width, height, method);
    let ends = spec_pic_ends(pixels, width, height, method);
    let bytes = spec_encode_pic(pixels, width, height, method) + tail;
    lemma_size_found(pixels, width, height, method, tail);
    lemma_first_plane_found(pixels, width, height, method, tail);
    lemma_mode_found(pixels, width, height, method, tail);
    lemma_second_plane_found(pixels, width, height, method, tail);
    lemma_decode_pic_steps(
        bytes,
        width,
        height,
        method.spec_swapped(),
        method.spec_mode(),
        parts.1,
        parts.3,
        ends.0,
        ends.2,
    );
    lemma_pixels_read_back(pixels, width, height, method);
}

/// The runs and stretches of a plane end inside the bits.
pub proof fn lemma_packets_end(bits: Seq<bool>, pos: int, remaining: nat, rle: bool)
    requires
        0 <= pos <= bits.len(),
    ensures
        spec_decode_packets(bits, pos, remaining, rle) matches Some(found) ==> pos <= found.1
            <= bits.len(),
    decreases remaining, (if rle { 0int } else { 1int }),
{
    if remaining > 0 {
        if rle {
            if let Some((length, next)) = spec_read_run(bits, pos) {
                let run = if length < remaining {
                    length
                } else {
                    remaining as int
                };
                if run >= 1 {
                    lemma_packets_end(bits, next, (remaining - run) as nat, false);
                }
            }
        } else if pos + 2 <= bits.len() {
            if !bits[pos] && !bits[pos + 1] {
                lemma_packets_end(bits, pos + 2, remaining, true);
            } else {
                lemma_packets_end(bits, pos + 2, (remaining - 1) as nat, false);
            }
        }
    }
}

/// A picture takes no more bytes than it is read from.
pub proof fn lemma_pic_bytes(bytes: Seq<u8>)
    ensures
        spec_decode_pic(bytes) matches Some(pic) ==> 2 <= pic.bytes <= bytes.len(),
{
    let bits = spec_bits(bytes);
    if bytes.len() >= 2 {
        let pairs = ((bytes[0] >> 4) * (bytes[0] & 0x0F) * 32) as nat;
        lemma_packets_end(bits, 10, pairs, !bits[9]);
        if let Some((first, after_first)) = spec_decode_plane(bits, 9, pairs) {
            if after_first + 2 <= bits.len() {
                let after_mode = if !bits[after_first] {
                    after_first + 1
                } else {
                    after_first + 2
                };
                if after_mode + 1 <= bits.len() {
                    lemma_packets_end(bits, after_mode + 1, pairs, !bits[after_mode]);
                }
            }
        }
    }
}

/// Whether the bytes from `offset` on, `len` of them, are clear of what
/// leads to the picture of a species: the banks of the pictures, the entries
/// of the species, the table of display numbers and the count of species.
pub open spec fn clear_of_species_tables(offset: int, len: int) -> bool {
    let end = offset + len;
    &&& end <= crate::pics::LAST_POKEMON_PIC_BANK || offset > 0x1661
    &&& end <= crate::stats::LAST_POKEMON_STATS || offset >= crate::stats::LAST_POKEMON_STATS
        + crate::stats::POKEMON_ENTRY_SIZE
    &&& end <= crate::stats::POKEMON_STATS || offset >= crate::stats::POKEMON_STATS + 255
        * crate::stats::POKEMON_ENTRY_SIZE
    &&& end <= crate::ids::POKEDEX_IDS || offset >= crate::ids::POKEDEX_IDS + 255
    &&& end <= crate::ids::INTERNAL_COUNT || offset > crate::ids::INTERNAL_COUNT
}

/// A picture reads back from the place in an image where its stored form
/// was written.
#[verifier::rlimit(50)]
pub proof fn lemma_pic_reads_back_at(
    rom: Seq<u8>,
    offset: int,
    pic: PicView,
    method: PicEncodingMethod,
)
    requires
        0 <= offset <= rom.len(),
        crate::pics::spec_set_pic_at(rom, Ok(offset), pic, method) is Ok,
    ensures
        ({
            let data = spec_encode_pic(pic.pixels, pic.width, pic.height, method);
            let after = crate::db::spec_written(rom, offset, data);
            &&& crate::pics::spec_set_pic_at(rom, Ok(offset), pic, method) == Ok::<
                (int, Seq<u8>),
                crate::error::Error,
            >((offset, data))
            &&& offset + data.len() <= rom.len()
            &&& after.len() == rom.len()
            &&& crate::pics::spec_pic_at(after, Ok(offset)) == Ok::<PicView, crate::error::Error>(
                PicView {
                    width: pic.width,
                    height: pic.height,
                    pixels: pic.pixels,
                    bytes: data.len() as int,
                },
            )
        }),
{
    let data = spec_encode_pic(pic.pixels, pic.width, pic.height, method);
    let after = crate::db::spec_written(rom, offset, data);
    lemma_pic_bytes(rom.skip(offset));
    let tail = after.skip(offset + data.len());
    assert(after.skip(offset) =~= data + tail);
    pic_decode_inverts_encode(pic.pixels, pic.width, pic.height, method, tail);
}

/// The picture of a species reads back after the patch that sets it.
///
/// For every image, every species and side, every picture and way of
/// storing it for which `set_pokemon_pic` gives a patch that is clear of
/// what leads to the picture: in the image that the patch makes,
/// `get_pokemon_pic` gives the picture, as taking the bytes of the patch.
#[verifier::rlimit(50)]
pub proof fn pokemon_pic_reads_back(
    rom: Seq<u8>,
    pokedex_id: u8,
    face: crate::pics::PokemonPicFace,
    pic: PicView,
    method: PicEncodingMethod,
)
    requires
        rom.len() >= crate::db::ROM_SIZE,
        crate::pics::spec_set_pic_at(
            rom,
            crate::pics::spec_pokemon_pic_offset(rom, pokedex_id, face),
            pic,
            method,
        ) matches Ok(patch) && clear_of_species_tables(patch.0, patch.1.len() as int),
    ensures
        ({
            let patch = crate::pics::spec_set_pic_at(
                rom,
                crate::pics::spec_pokemon_pic_offset(rom, pokedex_id, face),
                pic,
                method,
            )->Ok_0;
            let after = crate::db::spec_written(rom, patch.0, patch.1);
            &&& after.len() == rom.len()
            &&& crate::pics::spec_pic_at(
                after,
                crate::pics::spec_pokemon_pic_offset(after, pokedex_id, face),
            ) == Ok::<PicView, crate::error::Error>(
                PicView {
                    width: pic.width,
                    height: pic.height,
                    pixels: pic.pixels,
                    bytes: patch.1.len() as int,
                },
            )
        }),
{
    let offset = crate::pics::spec_pokemon_pic_offset(rom, pokedex_id, face)->Ok_0;
    let data = spec_encode_pic(pic.pixels, pic.width, pic.height, method);
    let after = crate::db::spec_written(rom, offset, data);
    lemma_pic_reads_back_at(rom, offset, pic, method);
    crate::laws::lemma_written(rom, offset, data);
    let internal_id = crate::ids::spec_pokedex_id_to_internal_id(rom, pokedex_id)->Ok_0;
    crate::bytes::lemma_first_index_of(crate::ids::spec_pokedex_table(rom), pokedex_id);
    assert(crate::ids::spec_pokedex_table(after) =~= crate::ids::spec_pokedex_table(rom));
    assert(crate::ids::spec_pokedex_id_bounds(after) == crate::ids::spec_pokedex_id_bounds(rom));
    assert(crate::ids::spec_pokedex_id_to_internal_id(after, pokedex_id) == Ok::<
        u8,
        crate::error::Error,
    >(internal_id));
    assert(crate::pics::spec_pokemon_pic_bank(after, pokedex_id, internal_id)
        == crate::pics::spec_pokemon_pic_bank(rom, pokedex_id, internal_id));
    assert(crate::pics::spec_pokemon_pic_offset(after, pokedex_id, face) == Ok::<
        int,
        crate::error::Error,
    >(offset));
}

/// The picture of a trainer class reads back after the patch that sets it.
///
/// For every image in which the list of the names of the trainer classes
/// ends before the bank of their pictures begins, every class, every picture
/// and way of storing it for which `set_trainer_pic` gives a patch: in the
/// image that the patch makes, `get_trainer_pic` gives the picture, as
/// taking the bytes of the patch.
#[verifier::rlimit(50)]
pub proof fn trainer_pic_reads_back(
    rom: Seq<u8>,
    trainer_id: u8,
    pic: PicView,
    method: PicEncodingMethod,
)
    requires
        rom.len() >= crate::db::ROM_SIZE,
        crate::pics::spec_set_pic_at(
            rom,
            crate::pics::spec_trainer_pic_offset(rom, trainer_id),
            pic,
            method,
        ) is Ok,
        crate::ids::TRAINER_NAMES + crate::bytes::first_index_of(
            rom.skip(crate::ids::TRAINER_NAMES as int),
            0x21,
        )->Some_0 < crate::pics::TRAINER_PICS_BANK,
    ensures
        ({
            let patch = crate::pics::spec_set_pic_at(
                rom,
                crate::pics::spec_trainer_pic_offset(rom, trainer_id),
                pic,
                method,
            )->Ok_0;
            let after = crate::db::spec_written(rom, patch.0, patch.1);
            &&& after.len() == rom.len()
            &&& crate::pics::spec_pic_at(
                after,
                crate::pics::spec_trainer_pic_offset(after, trainer_id),
            ) == Ok::<PicView, crate::error::Error>(
                PicView {
                    width: pic.width,
                    height: pic.height,
                    pixels: pic.pixels,
                    bytes: patch.1.len() as int,
                },
            )
        }),
{
    let base = crate::ids::TRAINER_NAMES as int;
    let offset = crate::pics::spec_trainer_pic_offset(rom, trainer_id)->Ok_0;
    let data = spec_encode_pic(pic.pixels, pic.width, pic.height, method);
    let after = crate::db::spec_written(rom, offset, data);
    lemma_pic_reads_back_at(rom, offset, pic, method);
    crate::laws::lemma_written(rom, offset, data);
    let list = rom.skip(base);
    let list_after = after.skip(base);
    let m = crate::bytes::first_index_of(list, 0x21)->Some_0;
    crate::bytes::lemma_first_index_of(list, 0x21);
    assert forall|j: int| 0 <= j <= m implies list_after[j] == list[j] by {
        assert(list_after[j] == after[base + j]);
        assert(list[j] == rom[base + j]);
    }
    crate::bytes::lemma_first_index_of_is(list_after, 0x21, m);
    assert(after.subrange(base, base + m) =~= rom.subrange(base, base + m));
    assert(crate::ids::spec_trainer_id_bounds(after) == crate::ids::spec_trainer_id_bounds(rom));
}

} // verus!
