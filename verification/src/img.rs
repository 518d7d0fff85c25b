//! Tile graphics: two bits for each pixel, eight by eight pixels to a tile.

use crate::error::Error;
use vstd::prelude::*;

verus! {

/// The number of pixels in a tile.
pub const TILE_PIXELS: usize = 64;

/// The number of bytes that store a tile.
pub const TILE_BYTES: usize = 16;

/// The pixel in column `col` of a row whose low bit plane is `lo` and whose
/// high bit plane is `hi`. Column zero is the leftmost, and stands in the
/// highest bit.
pub open spec fn spec_pixel(lo: u8, hi: u8, col: u8) -> u8
    recommends
        col < 8,
{
    (((hi >> (7 - col) as u8) & 1) << 1) | ((lo >> (7 - col) as u8) & 1)
}

/// The 64 pixels of the tile that the 16 bytes at `offset` of `rom` store,
/// row by row. Each row takes two bytes: the low bit plane and then the high
/// one, or the other way round where `hi_first` is set.
pub open spec fn spec_tile(rom: Seq<u8>, offset: int, hi_first: bool) -> Seq<u8>
    recommends
        0 <= offset,
        offset + TILE_BYTES <= rom.len(),
{
    Seq::new(
        TILE_PIXELS as nat,
        |i: int|
            {
                let first = rom[offset + 2 * (i / 8)];
                let second = rom[offset + 2 * (i / 8) + 1];
                if hi_first {
                    spec_pixel(second, first, (i % 8) as u8)
                } else {
                    spec_pixel(first, second, (i % 8) as u8)
                }
            },
    )
}

/// A tile with each of its rows reversed.
pub open spec fn spec_mirrored(tile: Seq<u8>) -> Seq<u8>
    recommends
        tile.len() == TILE_PIXELS,
{
    Seq::new(TILE_PIXELS as nat, |i: int| tile[8 * (i / 8) + (7 - i % 8)])
}

/// The pixel at position `i` of the image, `width` tiles wide, that `tiles`
/// make when laid out row by row.
pub open spec fn spec_img_pixel(tiles: Seq<Seq<u8>>, width: int, i: int) -> u8
    recommends
        width > 0,
{
    let x = i % (width * 8);
    let y = i / (width * 8);
    tiles[(y / 8) * width + x / 8][(y % 8) * 8 + x % 8]
}

/// The pixels of the image, `width` by `height` tiles, that `tiles` make.
pub open spec fn spec_img_pixels(tiles: Seq<Seq<u8>>, width: int, height: int) -> Seq<u8> {
    Seq::new((width * height * 64) as nat, |i: int| spec_img_pixel(tiles, width, i))
}

/// Whether `tiles` are `count` tiles of 64 pixels each.
pub open spec fn are_tiles(tiles: Seq<Seq<u8>>, count: int) -> bool {
    &&& tiles.len() == count
    &&& forall|k: int| 0 <= k < tiles.len() ==> (#[trigger] tiles[k]).len() == TILE_PIXELS
}

/// The views of the tiles in `tiles`.
pub open spec fn tiles_view(tiles: Seq<Vec<u8>>) -> Seq<Seq<u8>> {
    tiles.map_values(|t: Vec<u8>| t@)
}

/// The bit of plane `plane` (zero for the low one) of each of the eight
/// pixels of a row, packed into a byte with the leftmost pixel highest.
pub open spec fn spec_plane_byte(row: Seq<u8>, plane: u8) -> u8
    recommends
        row.len() == 8,
        plane < 2,
{
    (((row[0] >> plane) & 1) << 7) | (((row[1] >> plane) & 1) << 6) | (((row[2] >> plane) & 1)
        << 5) | (((row[3] >> plane) & 1) << 4) | (((row[4] >> plane) & 1) << 3) | (((row[5]
        >> plane) & 1) << 2) | (((row[6] >> plane) & 1) << 1) | ((row[7] >> plane) & 1)
}

/// The row of eight pixels that byte pair `k` of the stored form of an image
/// holds: row `(k / 2) % 8` of tile `k / 16`.
pub open spec fn spec_img_row(pixels: Seq<u8>, width: int, k: int) -> Seq<u8>
    recommends
        width > 0,
{
    let tile = k / 8;
    let row = k % 8;
    let start = ((tile / width) * 8 + row) * (width * 8) + (tile % width) * 8;
    pixels.subrange(start, start + 8)
}

/// The stored form of an image of `width` by `height` tiles: 16 bytes for
/// each tile, tile by tile in rows; two bytes for each row of a tile, the low
/// bit plane and then the high one.
pub open spec fn spec_2bpp(pixels: Seq<u8>, width: int, height: int) -> Seq<u8> {
    Seq::new(
        (width * height * 16) as nat,
        |i: int| spec_plane_byte(spec_img_row(pixels, width, i / 2), (i % 2) as u8),
    )
}

/// The pixel in column `col` of a row with the bit planes `lo` and `hi`.
pub fn pixel(lo: u8, hi: u8, col: u8) -> (p: u8)
    requires
        col < 8,
    ensures
        p == spec_pixel(lo, hi, col),
        p < 4,
{
    let shift: u8 = 7 - col;
    let p = (((hi >> shift) & 1) << 1) | ((lo >> shift) & 1);
    proof {
        assert((((hi >> shift) & 1) << 1) | ((lo >> shift) & 1) < 4) by (bit_vector);
    }
    p
}

/// The tile that the 16 bytes at `offset` of `rom` store.
pub fn tile_at(rom: &Vec<u8>, offset: usize, hi_first: bool) -> (r: Vec<u8>)
    requires
        offset + TILE_BYTES <= rom@.len(),
    ensures
        r@ == spec_tile(rom@, offset as int, hi_first),
        r@.len() == TILE_PIXELS,
{
    let mut out: Vec<u8> = Vec::new();
    let mut i: usize = 0;
    let len = rom.len();
    while i < TILE_PIXELS
        invariant
            i <= TILE_PIXELS,
            offset + TILE_BYTES <= rom@.len() == len,
            out@ == spec_tile(rom@, offset as int, hi_first).take(i as int),
        decreases TILE_PIXELS - i,
    {
        let first = rom[offset + 2 * (i / 8)];
        let second = rom[offset + 2 * (i / 8) + 1];
        let p = if hi_first {
            pixel(second, first, (i % 8) as u8)
        } else {
            pixel(first, second, (i % 8) as u8)
        };
        out.push(p);
        i += 1;
        proof {
            assert(out@ =~= spec_tile(rom@, offset as int, hi_first).take(i as int));
        }
    }
    proof {
        assert(out@ =~= spec_tile(rom@, offset as int, hi_first));
    }
    out
}

/// `tile` with each of its rows reversed.
pub fn mirrored(tile: &Vec<u8>) -> (r: Vec<u8>)
    requires
        tile@.len() == TILE_PIXELS,
    ensures
        r@ == spec_mirrored(tile@),
        r@.len() == TILE_PIXELS,
{
    let mut out: Vec<u8> = Vec::new();
    let mut i: usize = 0;
    while i < TILE_PIXELS
        invariant
            i <= TILE_PIXELS,
            tile@.len() == TILE_PIXELS,
            out@ == spec_mirrored(tile@).take(i as int),
        decreases TILE_PIXELS - i,
    {
        out.push(tile[8 * (i / 8) + (7 - i % 8)]);
        i += 1;
        proof {
            assert(out@ =~= spec_mirrored(tile@).take(i as int));
        }
    }
    proof {
        assert(out@ =~= spec_mirrored(tile@));
    }
    out
}

/// The number of tiles in an image of `width` by `height` tiles, as far as
/// a buffer can hold them.
pub open spec fn spec_tile_count(width: u32, height: u32) -> usize {
    if width * height <= usize::MAX {
        (width * height) as usize
    } else {
        usize::MAX
    }
}

/// Whether `e` is why `tiles` do not make an image of `width` by `height`
/// tiles: there are not `width * height` of them, or `k` is the first that
/// has not 64 pixels.
pub open spec fn spec_tiles_refused(tiles: Seq<Seq<u8>>, width: u32, height: u32, e: Error) -> bool {
    if tiles.len() != width * height {
        e == Error::ImgWrongSize(spec_tile_count(width, height), tiles.len() as usize)
    } else {
        exists|k: int|
            0 <= k < tiles.len() && (#[trigger] tiles[k]).len() != TILE_PIXELS && e
                == Error::ImgWrongSize(TILE_PIXELS, tiles[k].len() as usize) && are_tiles(
                tiles.take(k),
                k,
            )
    }
}

/// An image: its size in tiles and its pixels, row by row, one byte each.
#[derive(Debug, PartialEq)]
pub struct Img {
    pub width: u32,
    pub height: u32,
    pub pixels: Vec<u8>,
}

impl Clone for Img {
    fn clone(&self) -> (r: Self)
        ensures
            r.width == self.width,
            r.height == self.height,
            r.pixels@ == self.pixels@,
    {
        Img { width: self.width, height: self.height, pixels: self.pixels.clone() }
    }
}

/// The tile and the place in it that pixel `i` of an image comes from lie
/// inside the tiles.
pub proof fn lemma_img_pixel_in_range(width: int, height: int, i: int)
    requires
        width > 0,
        height > 0,
        0 <= i < width * height * 64,
    ensures
        ({
            let x = i % (width * 8);
            let y = i / (width * 8);
            &&& 0 <= (y / 8) * width + x / 8 < width * height
            &&& 0 <= (y % 8) * 8 + x % 8 < 64
        }),
{
    let w8 = width * 8;
    let x = i % w8;
    let y = i / w8;
    assert(i == w8 * y + x) by {
        vstd::arithmetic::div_mod::lemma_fundamental_div_mod(i, w8);
    }
    assert(0 <= x < w8) by {
        vstd::arithmetic::div_mod::lemma_mod_bound(i, w8);
    }
    assert(0 <= y < height * 8) by (nonlinear_arith)
        requires
            i == w8 * y + x,
            0 <= x < w8,
            0 <= i < width * height * 64,
            w8 == width * 8,
            width > 0,
    ;
    let ty = y / 8;
    let tx = x / 8;
    assert(0 <= ty < height);
    assert(0 <= tx < width);
    assert(0 <= ty * width + tx < width * height) by (nonlinear_arith)
        requires
            0 <= ty < height,
            0 <= tx < width,
    ;
}

impl Img {
    /// Whether the image has a pixel for each place in its tiles.
    pub open spec fn wf(&self) -> bool {
        self.pixels@.len() == self.width * self.height * 64
    }

    /// The image of `width` by `height` tiles that `tiles` make when laid
    /// out row by row.
    ///
    /// Any other number of tiles than `width * height` is refused:
    /// `ImgWrongSize` with the number expected and the number found. So is a
    /// tile with any other number of pixels than 64: `ImgWrongSize` with 64
    /// and the number found in the first such tile. An image without tiles
    /// has no pixels.
    #[verifier::rlimit(50)]
    pub fn new(width: &u32, height: &u32, tiles: &Vec<Vec<u8>>) -> (r: Result<Img, Error>)
        ensures
            match r {
                Ok(img) => {
                    &&& are_tiles(tiles_view(tiles@), *width * *height)
                    &&& img.width == *width
                    &&& img.height == *height
                    &&& img.pixels@ == spec_img_pixels(
                        tiles_view(tiles@),
                        *width as int,
                        *height as int,
                    )
                    &&& img.wf()
                },
                Err(e) => spec_tiles_refused(tiles_view(tiles@), *width, *height, e),
            },
    {
        let n = tiles.len();
        let count = match (*width as usize).checked_mul(*height as usize) {
            Some(count) => count,
            None => usize::MAX,
        };
        assert(*width * *height <= 0xFFFF_FFFF * 0xFFFF_FFFF) by (nonlinear_arith)
            requires
                0 <= *width <= 0xFFFF_FFFF,
                0 <= *height <= 0xFFFF_FFFF,
        ;
        if n != count || (*width as u128) * (*height as u128) != count as u128 {
            return Err(Error::ImgWrongSize(count, n));
        }
        assert(n > 0 ==> *width > 0 && *height > 0) by (nonlinear_arith)
            requires
                n == *width * *height,
        ;
        let mut k: usize = 0;
        let ghost tv = tiles_view(tiles@);
        while k < n
            invariant
                k <= n == tiles@.len(),
                n == *width * *height,
                tv == tiles_view(tiles@),
                forall|j: int| 0 <= j < k ==> (#[trigger] tv[j]).len() == TILE_PIXELS,
            decreases n - k,
        {
            if tiles[k].len() != TILE_PIXELS {
                proof {
                    assert(tiles_view(tiles@.take(k as int)) =~= tv.take(k as int));
                    assert forall|j: int| 0 <= j < k implies (#[trigger] tv.take(
                        k as int,
                    )[j]).len() == TILE_PIXELS by {
                        assert(tv.take(k as int)[j] == tv[j]);
                    }
                    assert(tv[k as int].len() != TILE_PIXELS);
                    assert(are_tiles(tv.take(k as int), k as int));
                }
                return Err(Error::ImgWrongSize(TILE_PIXELS, tiles[k].len()));
            }
            assert(tv[k as int] == tiles@[k as int]@);
            k += 1;
        }
        let total: u128 = (n as u128) * 64;
        let w8: u128 = (*width as u128) * 8;
        let mut pixels: Vec<u8> = Vec::new();
        let mut i: u128 = 0;
        while i < total
            invariant
                i <= total == n * 64,
                n == *width * *height,
                n == tiles@.len(),
                w8 == *width * 8,
                total > 0 ==> *width > 0 && *height > 0,
                tv == tiles_view(tiles@),
                are_tiles(tv, n as int),
                pixels@ == spec_img_pixels(tv, *width as int, *height as int).take(i as int),
            decreases total - i,
        {
            proof {
                lemma_img_pixel_in_range(*width as int, *height as int, i as int);
            }
            let x = i % w8;
            let y = i / w8;
            let t = ((y / 8) * (*width as u128) + x / 8) as usize;
            assert(tv[t as int] == tiles@[t as int]@);
            pixels.push(tiles[t][((y % 8) * 8 + x % 8) as usize]);
            i += 1;
            proof {
                assert(pixels@ =~= spec_img_pixels(tv, *width as int, *height as int).take(
                    i as int,
                ));
            }
        }
        proof {
            assert(pixels@ =~= spec_img_pixels(tv, *width as int, *height as int));
        }
        Ok(Img { width: *width, height: *height, pixels })
    }
}

/// The number of pixels in an image of `width` by `height` tiles, as far
/// as a buffer can hold them.
pub open spec fn spec_pixel_count(width: u32, height: u32) -> usize {
    if width * height * 64 <= usize::MAX {
        (width * height * 64) as usize
    } else {
        usize::MAX
    }
}

/// Bit `plane` of each of the eight pixels at `start`, packed into a byte.
fn plane_byte(pixels: &Vec<u8>, start: usize, plane: u8) -> (r: u8)
    requires
        start + 8 <= pixels@.len(),
        plane < 2,
    ensures
        r == spec_plane_byte(pixels@.subrange(start as int, start + 8), plane),
{
    let len = pixels.len();
    (((pixels[start] >> plane) & 1) << 7) | (((pixels[start + 1] >> plane) & 1) << 6) | (((
    pixels[start + 2] >> plane) & 1) << 5) | (((pixels[start + 3] >> plane) & 1) << 4) | (((
    pixels[start + 4] >> plane) & 1) << 3) | (((pixels[start + 5] >> plane) & 1) << 2) | (((
    pixels[start + 6] >> plane) & 1) << 1) | ((pixels[start + 7] >> plane) & 1)
}

/// A row of a tile lies inside the pixels of its image.
pub proof fn lemma_img_row_in_range(width: int, height: int, k: int)
    requires
        width > 0,
        height > 0,
        0 <= k < width * height * 8,
    ensures
        ({
            let tile = k / 8;
            let row = k % 8;
            let start = ((tile / width) * 8 + row) * (width * 8) + (tile % width) * 8;
            0 <= start && start + 8 <= width * height * 64
        }),
{
    let tile = k / 8;
    let row = k % 8;
    let ty = tile / width;
    let tx = tile % width;
    assert(0 <= tile < width * height);
    assert(tile == width * ty + tx) by {
        vstd::arithmetic::div_mod::lemma_fundamental_div_mod(tile, width);
    }
    assert(0 <= tx < width) by {
        vstd::arithmetic::div_mod::lemma_mod_bound(tile, width);
    }
    assert(0 <= ty < height) by (nonlinear_arith)
        requires
            tile == width * ty + tx,
            0 <= tx < width,
            0 <= tile < width * height,
    ;
    let y = ty * 8 + row;
    assert(0 <= y <= height * 8 - 1);
    assert(0 <= y * (width * 8) + tx * 8 && y * (width * 8) + tx * 8 + 8 <= width * height * 64)
        by (nonlinear_arith)
        requires
            0 <= y <= height * 8 - 1,
            0 <= tx < width,
            width > 0,
    ;
}

impl Img {
    /// The stored form of the image: 16 bytes for each tile. An image whose
    /// pixels are not as many as its size asks for is refused:
    /// `ImgWrongSize` with the number expected and the number found.
    #[verifier::rlimit(50)]
    pub fn to_2bpp(&self) -> (r: Result<Vec<u8>, Error>)
        ensures
            match r {
                Ok(bytes) => self.wf() && bytes@ == spec_2bpp(
                    self.pixels@,
                    self.width as int,
                    self.height as int,
                ),
                Err(e) => !self.wf() && e == Error::ImgWrongSize(
                    spec_pixel_count(self.width, self.height),
                    self.pixels@.len() as usize,
                ),
            },
    {
        let n = self.pixels.len();
        assert(self.width * self.height <= 0xFFFF_FFFF * 0xFFFF_FFFF) by (nonlinear_arith)
            requires
                0 <= self.width <= 0xFFFF_FFFF,
                0 <= self.height <= 0xFFFF_FFFF,
        ;
        let expected: u128 = (self.width as u128) * (self.height as u128) * 64;
        if n as u128 != expected {
            let shown: usize = if expected <= usize::MAX as u128 {
                expected as usize
            } else {
                usize::MAX
            };
            return Err(Error::ImgWrongSize(shown, n));
        }
        let rows: usize = n / 8;
        let w = self.width as usize;
        assert(n > 0 ==> self.width > 0 && self.height > 0) by (nonlinear_arith)
            requires
                n == self.width * self.height * 64,
        ;
        let ghost spec = spec_2bpp(self.pixels@, self.width as int, self.height as int);
        let mut out: Vec<u8> = Vec::new();
        let mut k: usize = 0;
        while k < rows
            invariant
                k <= rows,
                rows * 8 == n == self.pixels@.len(),
                n == self.width * self.height * 64,
                n > 0 ==> self.width > 0 && self.height > 0,
                w == self.width,
                spec == spec_2bpp(self.pixels@, self.width as int, self.height as int),
                out@ == spec.take(2 * k),
            decreases rows - k,
        {
            proof {
                lemma_img_row_in_range(self.width as int, self.height as int, k as int);
            }
            let tile = k / 8;
            let row = k % 8;
            assert(w * 8 <= n) by (nonlinear_arith)
                requires
                    n == w * self.height * 64,
                    self.height > 0,
                    w > 0,
            ;
            assert(((tile / w) * 8 + row) * (w * 8) + (tile % w) * 8 + 8 <= n);
            let start = ((tile / w) * 8 + row) * (w * 8) + (tile % w) * 8;
            let lo = plane_byte(&self.pixels, start, 0);
            let hi = plane_byte(&self.pixels, start, 1);
            out.push(lo);
            out.push(hi);
            k += 1;
            proof {
                assert(out@ =~= spec.take(2 * k));
            }
        }
        proof {
            assert(out@ =~= spec);
        }
        Ok(out)
    }
}

/// An animation: its frames in order.
#[derive(Debug, PartialEq)]
pub struct Gif {
    pub frames: Vec<Img>,
}

impl Gif {
    /// The animation that shows `frames` in order.
    pub fn new(frames: &Vec<Img>) -> (r: Gif)
        ensures
            r.frames@.len() == frames@.len(),
            forall|i: int|
                0 <= i < frames@.len() ==> {
                    &&& (#[trigger] r.frames@[i]).width == frames@[i].width
                    &&& r.frames@[i].height == frames@[i].height
                    &&& r.frames@[i].pixels@ == frames@[i].pixels@
                },
    {
        let mut out: Vec<Img> = Vec::new();
        let mut i: usize = 0;
        while i < frames.len()
            invariant
                i <= frames@.len(),
                out@.len() == i,
                forall|j: int|
                    0 <= j < i ==> {
                        &&& (#[trigger] out@[j]).width == frames@[j].width
                        &&& out@[j].height == frames@[j].height
                        &&& out@[j].pixels@ == frames@[j].pixels@
                    },
            decreases frames@.len() - i,
        {
            out.push(frames[i].clone());
            i += 1;
        }
        Gif { frames: out }
    }
}

} // verus!
