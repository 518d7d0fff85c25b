//! A map drawn from its blocks: each block is four by four tiles of the
//! map's tileset.

use crate::bytes::{spec_u16_at, u16_at};
use crate::db::{PkmnapiDB, ROM_PAGE};
use crate::error::Error;
use crate::ids::{spec_map_id_bounds, spec_validated};
use crate::img::{
    are_tiles, spec_img_pixels, spec_tile, spec_tiles_refused, tile_at, tiles_view, Img,
};
use vstd::prelude::*;

verus! {

/// Where the table of the maps' banks stands.
pub const MAP_BANKS: usize = ROM_PAGE * 0x06 + 0x023D;

/// Where the pointers to the maps' headers stand.
pub const MAP_HEADER_POINTERS: usize = 0x01AE;

/// Where the table of the tilesets stands: twelve bytes for each.
pub const TILESETS: usize = 0xC7BE;

/// The width from which a map is invalid.
pub const MAP_WIDTH_CEILING: u8 = 0xF6;

/// The height from which a map is invalid.
pub const MAP_HEIGHT_CEILING: u8 = 0xF0;

/// The bytes that the blocks, or the tiles, of a tileset take at most: one
/// entry of 16 bytes for each value of a byte.
pub const TILESET_SPAN: usize = 0x1000;

/// A drawn map: its size in blocks, and its pixels row by row, 32 to a
/// block's side.
#[derive(Debug, PartialEq)]
pub struct MapPic {
    pub width: u8,
    pub height: u8,
    pub pixels: Vec<u8>,
}

impl MapPic {
    /// The map of `width` by `height` blocks that `tiles` make when laid out
    /// row by row, four to a block's side. Tiles that do not make such an
    /// image are refused as by `Img::new`.
    pub fn new(width: &u8, height: &u8, tiles: &Vec<Vec<u8>>) -> (r: Result<MapPic, Error>)
        ensures
            match r {
                Ok(map) => {
                    &&& are_tiles(tiles_view(tiles@), *width * *height * 16)
                    &&& map.width == *width
                    &&& map.height == *height
                    &&& map.pixels@ == spec_img_pixels(
                        tiles_view(tiles@),
                        *width * 4,
                        *height * 4,
                    )
                },
                Err(e) => spec_tiles_refused(
                    tiles_view(tiles@),
                    (*width * 4) as u32,
                    (*height * 4) as u32,
                    e,
                ),
            },
    {
        let w: u32 = (*width as u32) * 4;
        let h: u32 = (*height as u32) * 4;
        assert(w * h == *width * *height * 16) by (nonlinear_arith)
            requires
                w == *width * 4,
                h == *height * 4,
        ;
        let img = Img::new(&w, &h, tiles)?;
        Ok(MapPic { width: *width, height: *height, pixels: img.pixels })
    }
}

/// Where a map's parts stand in the image.
pub struct MapLayout {
    pub width: u8,
    pub height: u8,
    /// Where the map's blocks stand: one byte for each, row by row.
    pub blocks: int,
    /// Where the tileset's blocks stand: 16 tile numbers for each.
    pub block_table: int,
    /// Where the tileset's tiles stand: 16 bytes for each.
    pub graphics: int,
}

/// Where the parts of the map `map_id` stand, if the map is valid.
///
/// A map is invalid where its bank is the first or none, its tileset is
/// `0x40` or `0xC7`, its tileset has no bank, its width or height reaches the
/// ceiling, or one of its parts would lie beyond the image.
pub open spec fn spec_map_layout(rom: Seq<u8>, map_id: u8) -> Option<MapLayout> {
    let bank_id = rom[MAP_BANKS + map_id];
    let bank = (bank_id - 1) * 0x4000;
    let header = bank + spec_u16_at(rom, MAP_HEADER_POINTERS + map_id * 2);
    if bank_id <= 1 || header + 12 > rom.len() {
        None
    } else {
        let tileset = rom[header];
        let entry = TILESETS + tileset * 0x0C;
        let tileset_bank = (rom[entry] - 1) * 0x4000;
        let height = rom[header + 1];
        let width = rom[header + 2];
        let layout = MapLayout {
            width,
            height,
            blocks: bank + spec_u16_at(rom, header + 3),
            block_table: tileset_bank + spec_u16_at(rom, entry + 1),
            graphics: tileset_bank + spec_u16_at(rom, entry + 3),
        };
        if tileset == 0x40 || tileset == 0xC7 || rom[entry] < 1 || width >= MAP_WIDTH_CEILING
            || height >= MAP_HEIGHT_CEILING || layout.blocks + width * height > rom.len()
            || layout.block_table + TILESET_SPAN > rom.len() || layout.graphics + TILESET_SPAN
            > rom.len() {
            None
        } else {
            Some(layout)
        }
    }
}

/// Where the graphics of tile `i` of a map stand, the tiles counted row by
/// row: the map's block at the tile's place names a block of the tileset,
/// which names the tile.
pub open spec fn spec_map_tile_offset(rom: Seq<u8>, layout: MapLayout, i: int) -> int {
    let x = i % (layout.width * 4);
    let y = i / (layout.width * 4);
    let block = rom[layout.blocks + (y / 4) * layout.width + x / 4];
    let tile_id = rom[layout.block_table + block * 16 + (y % 4) * 4 + x % 4];
    layout.graphics + tile_id * 16
}

/// The tiles of a map, row by row.
pub open spec fn spec_map_tiles(rom: Seq<u8>, layout: MapLayout) -> Seq<Seq<u8>> {
    Seq::new(
        (layout.width * layout.height * 16) as nat,
        |i: int| spec_tile(rom, spec_map_tile_offset(rom, layout, i), true),
    )
}

/// The drawn map `map_id`: its width, its height and its pixels.
pub open spec fn spec_get_map_pic(rom: Seq<u8>, map_id: u8) -> Result<(u8, u8, Seq<u8>), Error> {
    match spec_validated(
        spec_map_id_bounds(rom),
        map_id,
        Error::MapIDInvalid(
            map_id,
            spec_map_id_bounds(rom)->Some_0.0,
            spec_map_id_bounds(rom)->Some_0.1,
        ),
    ) {
        Err(e) => Err(e),
        Ok(_) => match spec_map_layout(rom, map_id) {
            None => Err(Error::MapInvalid(map_id)),
            Some(layout) => Ok(
                (
                    layout.width,
                    layout.height,
                    spec_img_pixels(
                        spec_map_tiles(rom, layout),
                        layout.width * 4,
                        layout.height * 4,
                    ),
                ),
            ),
        },
    }
}

/// The block that tile `i` of a map belongs to lies inside the map.
pub proof fn lemma_map_tile_in_range(width: int, height: int, i: int)
    requires
        width > 0,
        height > 0,
        0 <= i < width * height * 16,
    ensures
        ({
            let x = i % (width * 4);
            let y = i / (width * 4);
            &&& 0 <= (y / 4) * width + x / 4 < width * height
            &&& 0 <= (y % 4) * 4 + x % 4 < 16
        }),
{
    let w4 = width * 4;
    let x = i % w4;
    let y = i / w4;
    assert(i == w4 * y + x) by {
        vstd::arithmetic::div_mod::lemma_fundamental_div_mod(i, w4);
    }
    assert(0 <= x < w4) by {
        vstd::arithmetic::div_mod::lemma_mod_bound(i, w4);
    }
    assert(0 <= y < height * 4) by (nonlinear_arith)
        requires
            i == w4 * y + x,
            0 <= x < w4,
            0 <= i < width * height * 16,
            w4 == width * 4,
            width > 0,
    ;
    let ty = y / 4;
    let tx = x / 4;
    assert(0 <= ty * width + tx < width * height) by (nonlinear_arith)
        requires
            0 <= ty < height,
            0 <= tx < width,
    ;
}

impl PkmnapiDB {
    /// Draws the map `map_id`.
    ///
    /// An identifier outside the maps' range gives `MapIDInvalid`; an image
    /// without such a range `RomMalformed`; a map that is invalid
    /// `MapInvalid`.
    #[verifier::rlimit(50)]
    pub fn get_map_pic(&self, map_id: &u8) -> (r: Result<MapPic, Error>)
        ensures
            match r {
                Ok(map) => spec_get_map_pic(self@, *map_id) == Ok::<(u8, u8, Seq<u8>), Error>(
                    (map.width, map.height, map.pixels@),
                ),
                Err(e) => spec_get_map_pic(self@, *map_id) == Err::<(u8, u8, Seq<u8>), Error>(e),
            },
    {
        let _bounds = self.map_id_validate(map_id)?;
        let rom = self.rom();
        let len = rom.len();
        let id = *map_id as usize;
        let bank_id = rom[MAP_BANKS + id] as usize;
        if bank_id <= 1 {
            return Err(Error::MapInvalid(*map_id));
        }
        let bank = (bank_id - 1) * 0x4000;
        let header = bank + (u16_at(rom, MAP_HEADER_POINTERS + id * 2) as usize);
        if header + 12 > len {
            return Err(Error::MapInvalid(*map_id));
        }
        let tileset = rom[header];
        if tileset == 0x40 || tileset == 0xC7 {
            return Err(Error::MapInvalid(*map_id));
        }
        let entry = TILESETS + (tileset as usize) * 0x0C;
        let tileset_bank_id = rom[entry] as usize;
        if tileset_bank_id < 1 {
            return Err(Error::MapInvalid(*map_id));
        }
        let tileset_bank = (tileset_bank_id - 1) * 0x4000;
        let block_table = tileset_bank + (u16_at(rom, entry + 1) as usize);
        let graphics = tileset_bank + (u16_at(rom, entry + 3) as usize);
        let height = rom[header + 1];
        let width = rom[header + 2];
        if width >= MAP_WIDTH_CEILING || height >= MAP_HEIGHT_CEILING {
            return Err(Error::MapInvalid(*map_id));
        }
        let blocks = bank + (u16_at(rom, header + 3) as usize);
        let w = width as usize;
        let h = height as usize;
        assert(w * h <= 0xF6 * 0xF0) by (nonlinear_arith)
            requires
                0 <= w < 0xF6,
                0 <= h < 0xF0,
        ;
        if blocks + w * h > len || block_table + TILESET_SPAN > len || graphics + TILESET_SPAN
            > len {
            return Err(Error::MapInvalid(*map_id));
        }
        let ghost layout = spec_map_layout(self@, *map_id)->Some_0;
        let ghost spec_tiles = spec_map_tiles(self@, layout);
        let count = w * h * 16;
        let mut tiles: Vec<Vec<u8>> = Vec::new();
        let mut i: usize = 0;
        while i < count
            invariant
                i <= count == w * h * 16,
                w == width,
                h == height,
                w < 0xF6,
                h < 0xF0,
                rom@ == self@,
                len == rom@.len(),
                spec_map_layout(self@, *map_id) == Some(layout),
                layout.width == width,
                layout.height == height,
                layout.blocks == blocks,
                layout.block_table == block_table,
                layout.graphics == graphics,
                blocks + w * h <= len,
                block_table + TILESET_SPAN <= len,
                graphics + TILESET_SPAN <= len,
                spec_tiles == spec_map_tiles(self@, layout),
                tiles@.len() == i,
                spec_tiles.len() == count,
                tiles_view(tiles@) == spec_tiles.take(i as int),
            decreases count - i,
        {
            proof {
                assert(w > 0 && h > 0) by (nonlinear_arith)
                    requires
                        i < w * h * 16,
                        0 <= w,
                        0 <= h,
                ;
                lemma_map_tile_in_range(w as int, h as int, i as int);
            }
            let x = i % (w * 4);
            let y = i / (w * 4);
            let block = rom[blocks + (y / 4) * w + x / 4] as usize;
            let tile_id = rom[block_table + block * 16 + (y % 4) * 4 + x % 4] as usize;
            let tile = tile_at(rom, graphics + tile_id * 16, true);
            let ghost before = tiles@;
            proof {
                assert(spec_map_tile_offset(self@, layout, i as int) == graphics + tile_id * 16);
                assert(spec_tiles[i as int] == tile@);
            }
            tiles.push(tile);
            i += 1;
            proof {
                assert forall|j: int| 0 <= j < i implies tiles_view(tiles@)[j] == spec_tiles.take(
                    i as int,
                )[j] by {
                    assert(tiles_view(tiles@)[j] == tiles@[j]@);
                    if j < i - 1 {
                        assert(tiles_view(before)[j] == before[j]@);
                        assert(tiles_view(before)[j] == spec_tiles.take(i - 1)[j]);
                    }
                }
                assert(tiles_view(tiles@) =~= spec_tiles.take(i as int));
            }
        }
        proof {
            assert(spec_tiles.take(count as int) =~= spec_tiles);
            assert(are_tiles(spec_tiles, count as int));
            assert((w * 4) * (h * 4) == count) by (nonlinear_arith)
                requires
                    count == w * h * 16,
            ;
        }
        match MapPic::new(&width, &height, &tiles) {
            Ok(map) => Ok(map),
            Err(e) => {
                proof {
                    assert(false);
                }
                Err(e)
            },
        }
    }
}

} // verus!
