//! Reading the stored form of an image gives back the image.

use crate::db::{spec_written, ROM_SIZE};
use crate::graphics::{spec_pokemon_logo, spec_tiles_at, LOGO_HEIGHT, LOGO_TILES, LOGO_WIDTH};
use crate::img::{
    lemma_img_pixel_in_range, spec_2bpp, spec_img_pixel, spec_img_pixels, spec_img_row,
    spec_pixel, spec_plane_byte, spec_tile, TILE_BYTES,
};
use crate::laws::lemma_written;
use crate::pic::lemma_pixel_index;
use vstd::prelude::*;

verus! {

/// Whether every pixel is below four.
pub open spec fn are_pixels(pixels: Seq<u8>) -> bool {
    forall|i: int| 0 <= i < pixels.len() ==> (#[trigger] pixels[i]) < 4
}

/// The two bytes that store a row of eight pixels give back each pixel.
pub proof fn lemma_row_reads_back(row: Seq<u8>, c: int)
    requires
        row.len() == 8,
        0 <= c < 8,
        row[c] < 4,
    ensures
        spec_pixel(spec_plane_byte(row, 0), spec_plane_byte(row, 1), c as u8) == row[c],
{
    let r0 = row[0];
    let r1 = row[1];
    let r2 = row[2];
    let r3 = row[3];
    let r4 = row[4];
    let r5 = row[5];
    let r6 = row[6];
    let r7 = row[7];
    let lo = spec_plane_byte(row, 0);
    let hi = spec_plane_byte(row, 1);
    let col = c as u8;
    let p = row[c];
    assert((((hi >> (7 - col) as u8) & 1) << 1) | ((lo >> (7 - col) as u8) & 1) == p)
        by (bit_vector)
        requires
            lo == (((r0 >> 0u8) & 1) << 7) | (((r1 >> 0u8) & 1) << 6) | (((r2 >> 0u8) & 1) << 5) | (((
            r3 >> 0u8) & 1) << 4) | (((r4 >> 0u8) & 1) << 3) | (((r5 >> 0u8) & 1) << 2) | (((r6
                >> 0u8) & 1) << 1) | ((r7 >> 0u8) & 1),
            hi == (((r0 >> 1u8) & 1) << 7) | (((r1 >> 1u8) & 1) << 6) | (((r2 >> 1u8) & 1) << 5) | (((
            r3 >> 1u8) & 1) << 4) | (((r4 >> 1u8) & 1) << 3) | (((r5 >> 1u8) & 1) << 2) | (((r6
                >> 1u8) & 1) << 1) | ((r7 >> 1u8) & 1),
            col < 8,
            p < 4,
            p == (if col == 0 {
                r0
            } else if col == 1 {
                r1
            } else if col == 2 {
                r2
            } else if col == 3 {
                r3
            } else if col == 4 {
                r4
            } else if col == 5 {
                r5
            } else if col == 6 {
                r6
            } else {
                r7
            }),
    ;
}

/// Where pixel `i` of an image stands in the stored form of the image: the
/// tile, the row of the tile and the column of the row that it belongs to,
/// and the place of the row among the pixels.
pub proof fn lemma_pixel_place(width: int, height: int, i: int)
    requires
        width > 0,
        height > 0,
        0 <= i < width * height * 64,
    ensures
        ({
            let x = i % (width * 8);
            let y = i / (width * 8);
            let tile = (y / 8) * width + x / 8;
            let k = 8 * tile + y % 8;
            &&& 0 <= tile < width * height
            &&& 0 <= k < width * height * 8
            &&& k / 8 == tile
            &&& k % 8 == y % 8
            &&& ((tile / width) * 8 + y % 8) * (width * 8) + (tile % width) * 8 + x % 8 == i
            &&& ((y % 8) * 8 + x % 8) / 8 == y % 8
            &&& ((y % 8) * 8 + x % 8) % 8 == x % 8
        }),
{
    let columns = width * 8;
    let x = i % columns;
    let y = i / columns;
    lemma_img_pixel_in_range(width, height, i);
    assert(i == columns * y + x) by {
        vstd::arithmetic::div_mod::lemma_fundamental_div_mod(i, columns);
    }
    assert(0 <= x < columns) by {
        vstd::arithmetic::div_mod::lemma_mod_bound(i, columns);
    }
    assert(0 <= y) by (nonlinear_arith)
        requires
            i == columns * y + x,
            0 <= x < columns,
            0 <= i,
    ;
    let tile = (y / 8) * width + x / 8;
    lemma_pixel_index(width, x / 8, y / 8);
    assert(tile / width == y / 8 && tile % width == x / 8);
    let row = y % 8;
    assert(((y / 8) * 8 + row) * (width * 8) + (x / 8) * 8 + x % 8 == columns * y + x)
        by (nonlinear_arith)
        requires
            row == y % 8,
            columns == width * 8,
    ;
}

/// Reading the stored form of an image gives back the image: for every
/// image with a pixel for each place and pixels below four, the tiles that
/// its stored form holds make the image.
#[verifier::rlimit(50)]
pub proof fn img_2bpp_reads_back(pixels: Seq<u8>, width: int, height: int)
    requires
        width >= 0,
        height >= 0,
        pixels.len() == width * height * 64,
        are_pixels(pixels),
    ensures
        spec_img_pixels(
            spec_tiles_at(spec_2bpp(pixels, width, height), 0, (width * height) as nat, false),
            width,
            height,
        ) == pixels,
{
    let stored = spec_2bpp(pixels, width, height);
    let tiles = spec_tiles_at(stored, 0, (width * height) as nat, false);
    let read = spec_img_pixels(tiles, width, height);
    assert(read.len() == pixels.len());
    assert forall|i: int| 0 <= i < pixels.len() implies read[i] == pixels[i] by {
        assert(width > 0 && height > 0) by (nonlinear_arith)
            requires
                0 <= i < width * height * 64,
                0 <= width,
                0 <= height,
        ;
        lemma_pixel_place(width, height, i);
        let x = i % (width * 8);
        let y = i / (width * 8);
        let tile = (y / 8) * width + x / 8;
        let within = (y % 8) * 8 + x % 8;
        let k = 8 * tile + y % 8;
        assert(read[i] == spec_img_pixel(tiles, width, i));
        assert(tiles[tile] == spec_tile(stored, 0 + tile * TILE_BYTES, false));
        let lo = stored[tile * 16 + 2 * (y % 8)];
        let hi = stored[tile * 16 + 2 * (y % 8) + 1];
        assert(tiles[tile][within] == spec_pixel(lo, hi, (x % 8) as u8));
        let row = spec_img_row(pixels, width, k);
        assert(stored.len() == width * height * 16);
        assert(0 <= 2 * k + 1 < width * height * 16);
        assert(lo == spec_plane_byte(row, 0)) by {
            assert((2 * k) / 2 == k && (2 * k) % 2 == 0);
            assert(tile * 16 + 2 * (y % 8) == 2 * k);
        }
        assert(hi == spec_plane_byte(row, 1)) by {
            assert((2 * k + 1) / 2 == k && (2 * k + 1) % 2 == 1);
            assert(tile * 16 + 2 * (y % 8) + 1 == 2 * k + 1);
        }
        let start = ((tile / width) * 8 + y % 8) * (width * 8) + (tile % width) * 8;
        assert(row == pixels.subrange(start, start + 8));
        assert(start + x % 8 == i);
        assert(0 <= start && start + 8 <= pixels.len()) by {
            crate::img::lemma_img_row_in_range(width, height, k);
        }
        assert(row[x % 8] == pixels[i]);
        lemma_row_reads_back(row, x % 8);
    }
    assert(read =~= pixels);
}

/// The logo reads back after the patch that sets it: for every image and
/// every picture of the size of the logo with pixels below four, in the
/// image that the patch of `set_pokemon_logo_img` makes,
/// `get_pokemon_logo_img` gives the picture.
pub proof fn logo_reads_back(rom: Seq<u8>, pixels: Seq<u8>)
    requires
        rom.len() >= ROM_SIZE,
        pixels.len() == LOGO_WIDTH * LOGO_HEIGHT * 64,
        are_pixels(pixels),
    ensures
        spec_pokemon_logo(
            spec_written(
                rom,
                LOGO_TILES as int,
                spec_2bpp(pixels, LOGO_WIDTH as int, LOGO_HEIGHT as int),
            ),
        ) == pixels,
{
    let stored = spec_2bpp(pixels, LOGO_WIDTH as int, LOGO_HEIGHT as int);
    let after = spec_written(rom, LOGO_TILES as int, stored);
    let count = (LOGO_WIDTH * LOGO_HEIGHT) as nat;
    lemma_written(rom, LOGO_TILES as int, stored);
    let from_image = spec_tiles_at(after, LOGO_TILES as int, count, false);
    let from_stored = spec_tiles_at(stored, 0, count, false);
    assert forall|t: int| 0 <= t < count implies from_image[t] == from_stored[t] by {
        assert forall|i: int| 0 <= i < 64 implies from_image[t][i] == from_stored[t][i] by {
            let row = i / 8;
            assert(after[LOGO_TILES + t * 16 + 2 * row] == stored[t * 16 + 2 * row]);
            assert(after[LOGO_TILES + t * 16 + 2 * row + 1] == stored[t * 16 + 2 * row + 1]);
        }
        assert(from_image[t] =~= from_stored[t]);
    }
    assert(from_image =~= from_stored);
    img_2bpp_reads_back(pixels, LOGO_WIDTH as int, LOGO_HEIGHT as int);
}

} // verus!
