//! Compressed pictures: two bit planes, each stored as runs of empty pairs
//! of bits and stretches of other pairs, and one of three ways of telling
//! the planes from what is stored.
//!
//! A picture begins with a byte for its width and height in tiles, and a
//! bit that says which plane comes first. Each plane begins with a bit that
//! says whether a run or a stretch comes first; after that the two take
//! turns until the plane is full. The pairs of a plane fill it in columns
//! two bits wide, top to bottom and then left to right. Between the planes
//! stand one or two bits for the way of telling.

use crate::error::Error;
use vstd::prelude::*;

verus! {

/// The longest row of ones that may begin the length of a run.
pub const MAX_RUN_ONES: usize = 15;

/// The greatest width and height of a picture, in tiles.
pub const MAX_PIC_SIDE: u8 = 15;

/// The way of telling the planes from what is stored, with the number of
/// the plane that comes first: zero for the low plane, anything else for the
/// high plane.
///
/// `ONE` stores both planes as the changes along each row. `TWO` stores the
/// first plane so, and the second as its difference from the first.
/// `THREE` stores the first plane so, and the changes along each row of the
/// difference of the second from the first.
#[derive(Debug, Clone, Copy, PartialEq, Eq, Structural)]
pub enum PicEncodingMethod {
    ONE(u8),
    TWO(u8),
    THREE(u8),
}

impl PicEncodingMethod {
    /// The number of the way: 0, 1 or 2.
    pub open spec fn spec_mode(&self) -> int {
        match self {
            PicEncodingMethod::ONE(_) => 0,
            PicEncodingMethod::TWO(_) => 1,
            PicEncodingMethod::THREE(_) => 2,
        }
    }

    /// Whether the high plane comes first.
    pub open spec fn spec_swapped(&self) -> bool {
        match self {
            PicEncodingMethod::ONE(p) => *p != 0,
            PicEncodingMethod::TWO(p) => *p != 0,
            PicEncodingMethod::THREE(p) => *p != 0,
        }
    }
}

/// A picture: its size in tiles, its pixels row by row, one byte each, and
/// the number of bytes that its stored form takes.
#[derive(Debug, PartialEq)]
pub struct Pic {
    pub width: u8,
    pub height: u8,
    pub pixels: Vec<u8>,
    pub bytes: usize,
}

/// A picture as a plain value.
pub struct PicView {
    pub width: u8,
    pub height: u8,
    pub pixels: Seq<u8>,
    pub bytes: int,
}

impl View for Pic {
    type V = PicView;

    open spec fn view(&self) -> PicView {
        PicView {
            width: self.width,
            height: self.height,
            pixels: self.pixels@,
            bytes: self.bytes as int,
        }
    }
}

/// The bits of `bytes`, the highest bit of each byte first.
pub open spec fn spec_bits(bytes: Seq<u8>) -> Seq<bool> {
    Seq::new(8 * bytes.len(), |i: int| (bytes[i / 8] >> ((7 - i % 8) as u8)) & 1 == 1)
}

/// The number that the `n` bits at `pos` spell, the highest bit first.
pub open spec fn spec_bits_value(bits: Seq<bool>, pos: int, n: nat) -> int
    decreases n,
{
    if n == 0 {
        0
    } else {
        2 * spec_bits_value(bits, pos, (n - 1) as nat) + if bits[pos + n - 1] {
            1int
        } else {
            0int
        }
    }
}

/// How many ones stand in a row at `pos`, `limit` at most.
pub open spec fn spec_ones(bits: Seq<bool>, pos: int, limit: nat) -> nat
    decreases limit,
{
    if limit == 0 || pos < 0 || pos >= bits.len() || !bits[pos] {
        0
    } else {
        1 + spec_ones(bits, pos + 1, (limit - 1) as nat)
    }
}

/// Two to the power `n`.
pub open spec fn spec_pow2(n: nat) -> int
    decreases n,
{
    if n == 0 {
        1
    } else {
        2 * spec_pow2((n - 1) as nat)
    }
}

/// The length of the run whose length is written at `pos`, and where the
/// bits after it begin.
///
/// The length is written as `n` ones and a zero, which spell a number, and
/// `n + 1` more bits, which spell another: the length is their sum and one.
/// There is no length where more than `MAX_RUN_ONES` ones begin it, or the
/// bits end before it does.
pub open spec fn spec_read_run(bits: Seq<bool>, pos: int) -> Option<(int, int)> {
    let n = spec_ones(bits, pos, (MAX_RUN_ONES + 1) as nat);
    if n > MAX_RUN_ONES || pos + 2 * (n + 1) > bits.len() {
        None
    } else {
        Some(
            (
                spec_pow2(n + 1) - 1 + spec_bits_value(bits, pos + n + 1, n + 1),
                pos + 2 * (n + 1),
            ),
        )
    }
}

/// The pairs of a plane that `remaining` pairs are left of, read from `pos`
/// on, and where the bits after them begin; `rle` says whether a run comes
/// next, or a stretch.
///
/// A run gives as many empty pairs as its length, or as are left. A stretch
/// gives its pairs up to an empty one, which ends it. There are no pairs
/// where the bits end before the plane is full.
pub open spec fn spec_decode_packets(bits: Seq<bool>, pos: int, remaining: nat, rle: bool) -> Option<
    (Seq<u8>, int),
>
    decreases remaining, (if rle { 0int } else { 1int }),
{
    if remaining == 0 {
        Some((Seq::empty(), pos))
    } else if rle {
        match spec_read_run(bits, pos) {
            None => None,
            Some((length, next)) => {
                let run = if length < remaining {
                    length
                } else {
                    remaining as int
                };
                if run < 1 {
                    None
                } else {
                    match spec_decode_packets(bits, next, (remaining - run) as nat, false) {
                        None => None,
                        Some((rest, end)) => Some((Seq::new(run as nat, |i: int| 0u8) + rest, end)),
                    }
                }
            },
        }
    } else if pos < 0 || pos + 2 > bits.len() {
        None
    } else {
        let pair: u8 = if bits[pos] {
            if bits[pos + 1] {
                3
            } else {
                2
            }
        } else if bits[pos + 1] {
            1
        } else {
            0
        };
        if pair == 0 {
            spec_decode_packets(bits, pos + 2, remaining, true)
        } else {
            match spec_decode_packets(bits, pos + 2, (remaining - 1) as nat, false) {
                None => None,
                Some((rest, end)) => Some((seq![pair] + rest, end)),
            }
        }
    }
}

/// The plane that begins at `pos`: a bit that says whether a stretch comes
/// first, and the pairs.
pub open spec fn spec_decode_plane(bits: Seq<bool>, pos: int, pairs: nat) -> Option<
    (Seq<u8>, int),
> {
    if pos < 0 || pos + 1 > bits.len() {
        None
    } else {
        spec_decode_packets(bits, pos + 1, pairs, !bits[pos])
    }
}

/// The bit at column `x` and row `y` of the plane that `pairs` fill, in
/// columns two bits wide.
pub open spec fn spec_plane_bit(pairs: Seq<u8>, rows: int, x: int, y: int) -> bool {
    let pair = pairs[(x / 2) * rows + y];
    if x % 2 == 0 {
        pair >= 2
    } else {
        pair % 2 == 1
    }
}

/// The bit at column `x` and row `y` of the plane that `pairs` store as the
/// changes along each row: a one stored means that the bit differs from the
/// one to its left, and the first bit of a row from zero.
pub open spec fn spec_changes_bit(pairs: Seq<u8>, rows: int, x: int, y: int) -> bool
    decreases x + 1,
{
    if x < 0 {
        false
    } else {
        spec_plane_bit(pairs, rows, x, y) != spec_changes_bit(pairs, rows, x - 1, y)
    }
}

/// The bit at column `x` and row `y` of the plane that comes first.
pub open spec fn spec_first_bit(first: Seq<u8>, rows: int, x: int, y: int) -> bool {
    spec_changes_bit(first, rows, x, y)
}

/// The bit at column `x` and row `y` of the plane that comes second, told
/// in the way `mode`.
pub open spec fn spec_second_bit(
    first: Seq<u8>,
    second: Seq<u8>,
    mode: int,
    rows: int,
    x: int,
    y: int,
) -> bool {
    if mode == 0 {
        spec_changes_bit(second, rows, x, y)
    } else if mode == 1 {
        spec_plane_bit(second, rows, x, y) != spec_first_bit(first, rows, x, y)
    } else {
        spec_changes_bit(second, rows, x, y) != spec_first_bit(first, rows, x, y)
    }
}

/// The pixel that the bit `low` of the low plane and the bit `high` of the
/// high plane make.
pub open spec fn spec_pic_pixel(low: bool, high: bool) -> u8 {
    if high {
        if low {
            3
        } else {
            2
        }
    } else if low {
        1
    } else {
        0
    }
}

/// The pixels of the picture of `width` by `height` tiles whose planes
/// `first` and `second` fill, told in the way `mode`; `swapped` says that
/// the first is the high plane.
pub open spec fn spec_pic_pixels(
    first: Seq<u8>,
    second: Seq<u8>,
    mode: int,
    swapped: bool,
    width: int,
    height: int,
) -> Seq<u8> {
    Seq::new(
        (width * 8 * height * 8) as nat,
        |i: int|
            {
                let x = i % (width * 8);
                let y = i / (width * 8);
                let a = spec_first_bit(first, height * 8, x, y);
                let b = spec_second_bit(first, second, mode, height * 8, x, y);
                if swapped {
                    spec_pic_pixel(b, a)
                } else {
                    spec_pic_pixel(a, b)
                }
            },
    )
}

/// The picture that `bytes` store, if they store one.
pub open spec fn spec_decode_pic(bytes: Seq<u8>) -> Option<PicView> {
    let bits = spec_bits(bytes);
    if bytes.len() < 2 {
        None
    } else {
        let width = bytes[0] >> 4;
        let height = bytes[0] & 0x0F;
        let pairs = (width * height * 32) as nat;
        let swapped = bits[8];
        match spec_decode_plane(bits, 9, pairs) {
            None => None,
            Some((first, after_first)) => if after_first + 2 > bits.len() {
                None
            } else {
                let mode: int = if !bits[after_first] {
                    0
                } else if !bits[after_first + 1] {
                    1
                } else {
                    2
                };
                let after_mode = if mode == 0 {
                    after_first + 1
                } else {
                    after_first + 2
                };
                match spec_decode_plane(bits, after_mode, pairs) {
                    None => None,
                    Some((second, end)) => Some(
                        PicView {
                            width,
                            height,
                            pixels: spec_pic_pixels(
                                first,
                                second,
                                mode,
                                swapped,
                                width as int,
                                height as int,
                            ),
                            bytes: (end + 7) / 8,
                        },
                    ),
                }
            },
        }
    }
}

/// Bit `pos` of the bytes of `rom` from `start` on.
fn bit_at(rom: &Vec<u8>, start: usize, pos: u128) -> (r: bool)
    requires
        start <= rom@.len(),
        pos < 8 * (rom@.len() - start),
    ensures
        r == spec_bits(rom@.skip(start as int))[pos as int],
{
    let len = rom.len();
    let index = (pos / 8) as usize;
    (rom[start + index] >> ((7 - pos % 8) as u8)) & 1 == 1
}

/// The ones in a row at `pos` go on counting where a one was counted.
proof fn lemma_ones_step(bits: Seq<bool>, pos: int, limit: nat)
    requires
        limit > 0,
        0 <= pos < bits.len(),
        bits[pos],
    ensures
        spec_ones(bits, pos, limit) == 1 + spec_ones(bits, pos + 1, (limit - 1) as nat),
{
}

/// The length of the run that is written at `pos`, and where the bits
/// after it begin.
fn read_run(rom: &Vec<u8>, start: usize, pos: u128) -> (r: Option<(usize, u128)>)
    requires
        start <= rom@.len(),
        pos <= 8 * (rom@.len() - start),
    ensures
        match r {
            Some((length, next)) => spec_read_run(spec_bits(rom@.skip(start as int)), pos as int)
                == Some((length as int, next as int)) && length >= 1 && pos < next <= 8 * (
            rom@.len() - start),
            None => spec_read_run(spec_bits(rom@.skip(start as int)), pos as int) is None,
        },
{
    let len = rom.len();
    let total: u128 = 8 * ((len - start) as u128);
    let ghost bits = spec_bits(rom@.skip(start as int));
    let mut n: usize = 0;
    while n <= MAX_RUN_ONES && pos + (n as u128) < total && bit_at(rom, start, pos + (n as u128))
        invariant
            n <= MAX_RUN_ONES + 1,
            start <= rom@.len(),
            total == 8 * (rom@.len() - start),
            total <= 0x8_0000_0000_0000_0000u128,
            pos <= total,
            bits == spec_bits(rom@.skip(start as int)),
            bits.len() == total,
            spec_ones(bits, pos as int, (MAX_RUN_ONES + 1) as nat) == n + spec_ones(
                bits,
                pos + n,
                (MAX_RUN_ONES + 1 - n) as nat,
            ),
        decreases MAX_RUN_ONES + 1 - n,
    {
        proof {
            lemma_ones_step(bits, pos + n, (MAX_RUN_ONES + 1 - n) as nat);
        }
        n += 1;
    }
    if n > MAX_RUN_ONES || pos + 2 * ((n + 1) as u128) > total {
        return None;
    }
    let width = n + 1;
    let first = pos + (width as u128);
    let mut value: usize = 0;
    let mut power: usize = 1;
    let mut k: usize = 0;
    while k < width
        invariant
            k <= width <= MAX_RUN_ONES + 1,
            start <= rom@.len(),
            total == 8 * (rom@.len() - start),
            first + width <= total,
            bits == spec_bits(rom@.skip(start as int)),
            value == spec_bits_value(bits, first as int, k as nat),
            power == spec_pow2(k as nat),
            0 <= value < power,
            power <= 0x10000,
            k < 16 ==> power <= 0x8000,
            k < 15 ==> power <= 0x4000,
            k < 14 ==> power <= 0x2000,
            k < 13 ==> power <= 0x1000,
            k < 12 ==> power <= 0x800,
            k < 11 ==> power <= 0x400,
            k < 10 ==> power <= 0x200,
            k < 9 ==> power <= 0x100,
            k < 8 ==> power <= 0x80,
            k < 7 ==> power <= 0x40,
            k < 6 ==> power <= 0x20,
            k < 5 ==> power <= 0x10,
            k < 4 ==> power <= 0x8,
            k < 3 ==> power <= 0x4,
            k < 2 ==> power <= 0x2,
            k < 1 ==> power <= 0x1,
        decreases width - k,
    {
        let bit = bit_at(rom, start, first + (k as u128));
        value = 2 * value + if bit {
            1
        } else {
            0
        };
        power = 2 * power;
        k += 1;
    }
    Some((power - 1 + value, pos + 2 * (width as u128)))
}

/// The pairs of a plane, read from `pos` on, and where the bits after them
/// begin.
#[verifier::rlimit(50)]
fn decode_packets(rom: &Vec<u8>, start: usize, pos: u128, pairs: usize, rle: bool) -> (r: Option<
    (Vec<u8>, u128),
>)
    requires
        start <= rom@.len(),
        pos <= 8 * (rom@.len() - start),
    ensures
        match r {
            Some((out, end)) => spec_decode_packets(
                spec_bits(rom@.skip(start as int)),
                pos as int,
                pairs as nat,
                rle,
            ) == Some((out@, end as int)) && out@.len() == pairs && pos <= end <= 8 * (rom@.len()
                - start),
            None => spec_decode_packets(
                spec_bits(rom@.skip(start as int)),
                pos as int,
                pairs as nat,
                rle,
            ) is None,
        },
{
    let len = rom.len();
    let total: u128 = 8 * ((len - start) as u128);
    let ghost bits = spec_bits(rom@.skip(start as int));
    let ghost whole = spec_decode_packets(bits, pos as int, pairs as nat, rle);
    let mut out: Vec<u8> = Vec::new();
    let mut at = pos;
    let mut remaining = pairs;
    let mut run_next = rle;
    proof {
        if let Some((rest, end)) = whole {
            assert(out@ + rest =~= rest);
        }
    }
    while remaining > 0
        invariant
            start <= rom@.len(),
            total == 8 * (rom@.len() - start),
            pos <= at <= total,
            bits == spec_bits(rom@.skip(start as int)),
            bits.len() == total,
            out@.len() + remaining == pairs,
            whole == spec_decode_packets(bits, pos as int, pairs as nat, rle),
            whole == match spec_decode_packets(bits, at as int, remaining as nat, run_next) {
                Some((rest, end)) => Some((out@ + rest, end)),
                None => None,
            },
        decreases remaining, (if run_next { 0int } else { 1int }),
    {
        if run_next {
            let (length, next) = match read_run(rom, start, at) {
                Some(run) => run,
                None => {
                    return None;
                },
            };
            let run = if length < remaining {
                length
            } else {
                remaining
            };
            let ghost before = out@;
            let mut k: usize = 0;
            while k < run
                invariant
                    k <= run,
                    out@ == before + Seq::new(k as nat, |i: int| 0u8),
                decreases run - k,
            {
                out.push(0);
                k += 1;
                proof {
                    assert(out@ =~= before + Seq::new(k as nat, |i: int| 0u8));
                }
            }
            proof {
                if let Some((rest, end)) = spec_decode_packets(
                    bits,
                    next as int,
                    (remaining - run) as nat,
                    false,
                ) {
                    assert(before + (Seq::new(run as nat, |i: int| 0u8) + rest) =~= out@ + rest);
                }
            }
            at = next;
            remaining = remaining - run;
            run_next = false;
        } else {
            if at + 2 > total {
                return None;
            }
            let high = bit_at(rom, start, at);
            let low = bit_at(rom, start, at + 1);
            let pair: u8 = if high {
                if low {
                    3
                } else {
                    2
                }
            } else if low {
                1
            } else {
                0
            };
            if pair == 0 {
                at = at + 2;
                run_next = true;
            } else {
                proof {
                    if let Some((rest, end)) = spec_decode_packets(
                        bits,
                        at + 2,
                        (remaining - 1) as nat,
                        false,
                    ) {
                        assert(out@ + (seq![pair] + rest) =~= out@.push(pair) + rest);
                    }
                }
                out.push(pair);
                at = at + 2;
                remaining = remaining - 1;
            }
        }
    }
    proof {
        assert(out@ + Seq::<u8>::empty() =~= out@);
    }
    Some((out, at))
}

/// The plane that begins at `pos`.
fn decode_plane(rom: &Vec<u8>, start: usize, pos: u128, pairs: usize) -> (r: Option<
    (Vec<u8>, u128),
>)
    requires
        start <= rom@.len(),
        pos <= 8 * (rom@.len() - start),
    ensures
        match r {
            Some((out, end)) => spec_decode_plane(
                spec_bits(rom@.skip(start as int)),
                pos as int,
                pairs as nat,
            ) == Some((out@, end as int)) && out@.len() == pairs && pos <= end <= 8 * (rom@.len()
                - start),
            None => spec_decode_plane(
                spec_bits(rom@.skip(start as int)),
                pos as int,
                pairs as nat,
            ) is None,
        },
{
    let len = rom.len();
    let total: u128 = 8 * ((len - start) as u128);
    if pos + 1 > total {
        return None;
    }
    let rle = !bit_at(rom, start, pos);
    decode_packets(rom, start, pos + 1, pairs, rle)
}

/// The place of a bit in the pairs of its plane lies inside the pairs.
pub proof fn lemma_plane_index(width: int, height: int, x: int, y: int)
    requires
        0 <= x < width * 8,
        0 <= y < height * 8,
    ensures
        0 <= (x / 2) * (height * 8) + y < width * height * 32,
{
    let c = x / 2;
    assert(0 <= c < width * 4);
    assert(0 <= c * (height * 8) + y < width * height * 32) by (nonlinear_arith)
        requires
            0 <= c < width * 4,
            0 <= y < height * 8,
    ;
}

/// The place of the pixel at column `x` and row `y` among the pixels.
pub proof fn lemma_pixel_index(columns: int, x: int, y: int)
    requires
        0 <= x < columns,
        0 <= y,
    ensures
        (y * columns + x) % columns == x,
        (y * columns + x) / columns == y,
{
    vstd::arithmetic::div_mod::lemma_fundamental_div_mod_converse(y * columns + x, columns, y, x);
}

/// The bit at column `x` and row `y` of the plane that `pairs` fill.
fn plane_bit(pairs: &Vec<u8>, rows: usize, x: usize, y: usize) -> (r: bool)
    requires
        (x / 2) * rows + y < pairs@.len(),
    ensures
        r == spec_plane_bit(pairs@, rows as int, x as int, y as int),
{
    let len = pairs.len();
    assert((x / 2) * rows <= (x / 2) * rows + y) by (nonlinear_arith)
        requires
            0 <= y,
    ;
    let pair = pairs[(x / 2) * rows + y];
    if x % 2 == 0 {
        pair >= 2
    } else {
        pair % 2 == 1
    }
}

/// The pixels of the picture whose planes `first` and `second` fill.
#[verifier::rlimit(50)]
fn pic_pixels(
    first: &Vec<u8>,
    second: &Vec<u8>,
    mode: u8,
    swapped: bool,
    width: u8,
    height: u8,
) -> (r: Vec<u8>)
    requires
        width <= MAX_PIC_SIDE,
        height <= MAX_PIC_SIDE,
        mode <= 2,
        first@.len() == width * height * 32,
        second@.len() == width * height * 32,
    ensures
        r@ == spec_pic_pixels(
            first@,
            second@,
            mode as int,
            swapped,
            width as int,
            height as int,
        ),
        r@.len() == width * 8 * height * 8,
        forall|i: int| 0 <= i < r@.len() ==> (#[trigger] r@[i]) < 4,
{
    let columns: usize = (width as usize) * 8;
    let rows: usize = (height as usize) * 8;
    let ghost spec = spec_pic_pixels(
        first@,
        second@,
        mode as int,
        swapped,
        width as int,
        height as int,
    );
    assert(columns * rows == width * 8 * height * 8 && columns * rows <= 14400)
        by (nonlinear_arith)
        requires
            columns == width * 8,
            rows == height * 8,
            width <= 15,
            height <= 15,
    ;
    let mut pixels: Vec<u8> = Vec::new();
    let mut y: usize = 0;
    while y < rows
        invariant
            y <= rows,
            columns == width * 8,
            rows == height * 8,
            width <= MAX_PIC_SIDE,
            height <= MAX_PIC_SIDE,
            mode <= 2,
            first@.len() == width * height * 32,
            second@.len() == width * height * 32,
            spec == spec_pic_pixels(
                first@,
                second@,
                mode as int,
                swapped,
                width as int,
                height as int,
            ),
            spec.len() == columns * rows,
            pixels@.len() == y * columns,
            pixels@ == spec.take(y * columns),
            forall|i: int| 0 <= i < pixels@.len() ==> (#[trigger] pixels@[i]) < 4,
        decreases rows - y,
    {
        let mut a = false;
        let mut b_changes = false;
        let mut x: usize = 0;
        assert(y * columns + columns <= columns * rows) by (nonlinear_arith)
            requires
                y < rows,
                0 <= columns,
        ;
        while x < columns
            invariant
                x <= columns,
                y < rows,
                columns == width * 8,
                rows == height * 8,
                width <= MAX_PIC_SIDE,
                height <= MAX_PIC_SIDE,
                mode <= 2,
                first@.len() == width * height * 32,
                second@.len() == width * height * 32,
                spec == spec_pic_pixels(
                    first@,
                    second@,
                    mode as int,
                    swapped,
                    width as int,
                    height as int,
                ),
                spec.len() == columns * rows,
                y * columns + columns <= columns * rows,
                a == spec_changes_bit(first@, rows as int, x - 1, y as int),
                b_changes == spec_changes_bit(second@, rows as int, x - 1, y as int),
                pixels@.len() == y * columns + x,
                pixels@ == spec.take(y * columns + x),
                forall|i: int| 0 <= i < pixels@.len() ==> (#[trigger] pixels@[i]) < 4,
            decreases columns - x,
        {
            proof {
                lemma_plane_index(width as int, height as int, x as int, y as int);
                lemma_pixel_index(columns as int, x as int, y as int);
            }
            let stored_a = plane_bit(first, rows, x, y);
            let stored_b = plane_bit(second, rows, x, y);
            a = stored_a != a;
            b_changes = stored_b != b_changes;
            let b = if mode == 0 {
                b_changes
            } else if mode == 1 {
                stored_b != a
            } else {
                b_changes != a
            };
            let (low, high) = if swapped {
                (b, a)
            } else {
                (a, b)
            };
            let pixel: u8 = if high {
                if low {
                    3
                } else {
                    2
                }
            } else if low {
                1
            } else {
                0
            };
            pixels.push(pixel);
            x += 1;
            proof {
                assert(pixels@ =~= spec.take(y * columns + x));
            }
        }
        y += 1;
        proof {
            assert(y * columns == (y - 1) * columns + columns) by (nonlinear_arith);
        }
    }
    proof {
        assert(rows * columns == columns * rows) by (nonlinear_arith);
        assert(pixels@ =~= spec);
    }
    pixels
}

impl Pic {
    /// The picture that the bytes of `rom` from `start` on store, if they
    /// store one.
    #[verifier::rlimit(50)]
    pub fn decode_at(rom: &Vec<u8>, start: usize) -> (r: Option<Pic>)
        requires
            start <= rom@.len(),
        ensures
            match r {
                Some(pic) => spec_decode_pic(rom@.skip(start as int)) == Some(pic@),
                None => spec_decode_pic(rom@.skip(start as int)) is None,
            },
    {
        let len = rom.len();
        if len - start < 2 {
            return None;
        }
        let ghost bits = spec_bits(rom@.skip(start as int));
        let total: u128 = 8 * ((len - start) as u128);
        let size = rom[start];
        let width = size >> 4;
        let height = size & 0x0F;
        proof {
            assert(size >> 4 <= 15) by (bit_vector);
            assert(size & 0x0F <= 15) by (bit_vector);
        }
        assert(width * height * 32 <= 7200) by (nonlinear_arith)
            requires
                width <= 15,
                height <= 15,
        ;
        let pairs: usize = (width as usize) * (height as usize) * 32;
        let swapped = bit_at(rom, start, 8);
        let (first, after_first) = match decode_plane(rom, start, 9, pairs) {
            Some(plane) => plane,
            None => {
                return None;
            },
        };
        if after_first + 2 > total {
            return None;
        }
        let mode: u8 = if !bit_at(rom, start, after_first) {
            0
        } else if !bit_at(rom, start, after_first + 1) {
            1
        } else {
            2
        };
        let after_mode = if mode == 0 {
            after_first + 1
        } else {
            after_first + 2
        };
        let (second, end) = match decode_plane(rom, start, after_mode, pairs) {
            Some(plane) => plane,
            None => {
                return None;
            },
        };
        let pixels = pic_pixels(&first, &second, mode, swapped, width, height);
        Some(Pic { width, height, pixels, bytes: ((end + 7) / 8) as usize })
    }

    /// The picture that `data` stores: `PicCouldNotRead` where it stores none.
    pub fn new(data: &Vec<u8>) -> (r: Result<Pic, Error>)
        ensures
            match r {
                Ok(pic) => spec_decode_pic(data@) == Some(pic@),
                Err(e) => spec_decode_pic(data@) is None && e == Error::PicCouldNotRead,
            },
    {
        proof {
            assert(data@.skip(0) =~= data@);
        }
        match Pic::decode_at(data, 0) {
            Some(pic) => Ok(pic),
            None => Err(Error::PicCouldNotRead),
        }
    }
}

} // verus!
