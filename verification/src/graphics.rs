//! The images that stand in the image uncompressed: the logo and the town map.

use crate::bytes::{find_byte, first_index_of, lemma_first_index_of};
use crate::db::{PkmnapiDB, ROM_PAGE};
use crate::error::Error;
use crate::img::{
    are_tiles, spec_2bpp, spec_img_pixels, spec_pixel_count, spec_tile, tile_at, tiles_view, Img, TILE_BYTES,
};
use crate::patch::Patch;
use vstd::prelude::*;

verus! {

/// Where the tiles of the logo stand.
pub const LOGO_TILES: usize = ROM_PAGE * 0x08 + 0x1380;

/// The width of the logo in tiles.
pub const LOGO_WIDTH: u32 = 16;

/// The height of the logo in tiles.
pub const LOGO_HEIGHT: u32 = 7;

/// Where the sixteen tiles that the town map is made of stand.
pub const TOWN_MAP_TILES: usize = ROM_PAGE * 0x09 + 0x05A8;

/// Where the runs of the town map stand: the tile in the high nibble and
/// the length in the low, up to a zero.
pub const TOWN_MAP_RUNS: usize = ROM_PAGE * 0x38 + 0x1100;

/// The width of the town map in tiles.
pub const TOWN_MAP_WIDTH: u32 = 20;

/// The height of the town map in tiles.
pub const TOWN_MAP_HEIGHT: u32 = 18;

/// The tiles that stand one after another from `offset` on, `count` of them.
pub open spec fn spec_tiles_at(rom: Seq<u8>, offset: int, count: nat, hi_first: bool) -> Seq<
    Seq<u8>,
> {
    Seq::new(count, |i: int| spec_tile(rom, offset + i * TILE_BYTES, hi_first))
}

/// The pixels of the logo.
pub open spec fn spec_pokemon_logo(rom: Seq<u8>) -> Seq<u8> {
    spec_img_pixels(
        spec_tiles_at(rom, LOGO_TILES as int, (LOGO_WIDTH * LOGO_HEIGHT) as nat, false),
        LOGO_WIDTH as int,
        LOGO_HEIGHT as int,
    )
}

/// The runs of the town map: the bytes from `TOWN_MAP_RUNS` up to the first
/// zero, or the end of the image.
pub open spec fn spec_town_map_runs(rom: Seq<u8>) -> Seq<u8> {
    match first_index_of(rom.skip(TOWN_MAP_RUNS as int), 0) {
        Some(i) => rom.subrange(TOWN_MAP_RUNS as int, TOWN_MAP_RUNS + i),
        None => rom.skip(TOWN_MAP_RUNS as int),
    }
}

/// The numbers of the tiles that the runs stand for: for each run its tile,
/// as many times as its length.
pub open spec fn spec_expand_runs(runs: Seq<u8>) -> Seq<u8>
    decreases runs.len(),
{
    if runs.len() == 0 {
        Seq::empty()
    } else {
        spec_expand_runs(runs.drop_last()) + Seq::new(
            (runs.last() & 0x0F) as nat,
            |i: int| (runs.last() & 0xF0) >> 4,
        )
    }
}

/// The tiles of the town map.
pub open spec fn spec_town_map_tiles(rom: Seq<u8>) -> Seq<Seq<u8>> {
    spec_expand_runs(spec_town_map_runs(rom)).map_values(
        |id: u8| spec_tile(rom, TOWN_MAP_TILES + id * TILE_BYTES, true),
    )
}

/// The town map: its pixels, where its runs make as many tiles as it has
/// places; else `ImgWrongSize` with the number of places and the number of
/// tiles, as far as a number holds it.
pub open spec fn spec_get_town_map_img(rom: Seq<u8>) -> Result<Seq<u8>, Error> {
    let tiles = spec_town_map_tiles(rom);
    if tiles.len() == TOWN_MAP_WIDTH * TOWN_MAP_HEIGHT {
        Ok(spec_img_pixels(tiles, TOWN_MAP_WIDTH as int, TOWN_MAP_HEIGHT as int))
    } else {
        Err(
            Error::ImgWrongSize(
                (TOWN_MAP_WIDTH * TOWN_MAP_HEIGHT) as usize,
                if tiles.len() <= usize::MAX {
                    tiles.len() as usize
                } else {
                    usize::MAX
                },
            ),
        )
    }
}

/// The runs expand to at most fifteen tiles each.
pub proof fn lemma_expand_runs_len(runs: Seq<u8>)
    ensures
        spec_expand_runs(runs).len() <= 15 * runs.len(),
    decreases runs.len(),
{
    if runs.len() > 0 {
        lemma_expand_runs_len(runs.drop_last());
        let b = runs.last();
        assert(b & 0x0F <= 15) by (bit_vector);
    }
}

impl PkmnapiDB {
    /// The logo: an image of sixteen by seven tiles.
    pub fn get_pokemon_logo_img(&self) -> (r: Result<Img, Error>)
        ensures
            r matches Ok(img) && img.width == LOGO_WIDTH && img.height == LOGO_HEIGHT
                && img.pixels@ == spec_pokemon_logo(self@) && img.wf(),
    {
        let rom = self.rom();
        let count: usize = (LOGO_WIDTH * LOGO_HEIGHT) as usize;
        let ghost spec_tiles = spec_tiles_at(self@, LOGO_TILES as int, count as nat, false);
        let mut tiles: Vec<Vec<u8>> = Vec::new();
        let mut i: usize = 0;
        while i < count
            invariant
                i <= count == LOGO_WIDTH * LOGO_HEIGHT,
                rom@ == self@,
                rom@.len() >= crate::db::ROM_SIZE,
                tiles@.len() == i,
                spec_tiles == spec_tiles_at(self@, LOGO_TILES as int, count as nat, false),
                forall|j: int| 0 <= j < i ==> (#[trigger] tiles@[j])@ == spec_tiles[j],
            decreases count - i,
        {
            tiles.push(tile_at(rom, LOGO_TILES + i * TILE_BYTES, false));
            i += 1;
        }
        proof {
            assert(tiles_view(tiles@) =~= spec_tiles);
        }
        match Img::new(&LOGO_WIDTH, &LOGO_HEIGHT, &tiles) {
            Ok(img) => Ok(img),
            Err(e) => {
                proof {
                    assert(are_tiles(tiles_view(tiles@), count as int));
                    assert(false);
                }
                Err(e)
            },
        }
    }

    /// The patch that sets the logo to `pokemon_logo`: the stored form of
    /// the image. An image whose pixels are not as many as its size asks for
    /// gives `ImgWrongSize`; one whose stored form has not the size of the
    /// logo's, `PokemonLogoWrongSize` with the size of the logo's and its own.
    pub fn set_pokemon_logo_img(&self, pokemon_logo: &Img) -> (r: Result<Patch, Error>)
        ensures
            match r {
                Ok(p) => pokemon_logo.wf() && pokemon_logo.width * pokemon_logo.height
                    == LOGO_WIDTH * LOGO_HEIGHT && p.writes(
                    LOGO_TILES as int,
                    spec_2bpp(
                        pokemon_logo.pixels@,
                        pokemon_logo.width as int,
                        pokemon_logo.height as int,
                    ),
                ),
                Err(e) => if !pokemon_logo.wf() {
                    e == Error::ImgWrongSize(
                        spec_pixel_count(pokemon_logo.width, pokemon_logo.height),
                        pokemon_logo.pixels@.len() as usize,
                    )
                } else {
                    pokemon_logo.width * pokemon_logo.height != LOGO_WIDTH * LOGO_HEIGHT && e
                        == Error::PokemonLogoWrongSize(
                        (LOGO_WIDTH * LOGO_HEIGHT * 16) as usize,
                        (pokemon_logo.width * pokemon_logo.height * 16) as usize,
                    )
                },
            },
    {
        let old = match self.get_pokemon_logo_img() {
            Ok(old) => old,
            Err(e) => {
                return Err(e);
            },
        };
        let old_data = match old.to_2bpp() {
            Ok(data) => data,
            Err(e) => {
                return Err(e);
            },
        };
        let data = pokemon_logo.to_2bpp()?;
        if old_data.len() != data.len() {
            return Err(Error::PokemonLogoWrongSize(old_data.len(), data.len()));
        }
        Ok(Patch::new(&LOGO_TILES, &data))
    }

    /// The town map: an image of twenty by eighteen tiles.
    #[verifier::rlimit(50)]
    pub fn get_town_map_img(&self) -> (r: Result<Img, Error>)
        ensures
            match r {
                Ok(img) => img.width == TOWN_MAP_WIDTH && img.height == TOWN_MAP_HEIGHT
                    && spec_get_town_map_img(self@) == Ok::<Seq<u8>, Error>(img.pixels@),
                Err(e) => spec_get_town_map_img(self@) == Err::<Seq<u8>, Error>(e),
            },
    {
        let rom = self.rom();
        let len = rom.len();
        proof {
            assert(rom@.subrange(TOWN_MAP_RUNS as int, len as int) =~= rom@.skip(
                TOWN_MAP_RUNS as int,
            ));
            lemma_first_index_of(rom@.skip(TOWN_MAP_RUNS as int), 0);
        }
        let end = match find_byte(rom, TOWN_MAP_RUNS, len, 0) {
            Some(i) => TOWN_MAP_RUNS + i,
            None => len,
        };
        let ghost runs = spec_town_map_runs(self@);
        let ghost ids = spec_expand_runs(runs);
        let places: usize = (TOWN_MAP_WIDTH * TOWN_MAP_HEIGHT) as usize;
        // The number of tiles that the runs make, counted before any is made.
        let mut total: u128 = 0;
        let mut k: usize = TOWN_MAP_RUNS;
        proof {
            assert(runs.take(0) =~= Seq::<u8>::empty());
            assert(runs =~= rom@.subrange(TOWN_MAP_RUNS as int, end as int));
        }
        while k < end
            invariant
                TOWN_MAP_RUNS <= k <= end <= len == rom@.len(),
                runs == rom@.subrange(TOWN_MAP_RUNS as int, end as int),
                total == spec_expand_runs(runs.take(k - TOWN_MAP_RUNS)).len(),
                total <= 15 * (k - TOWN_MAP_RUNS),
            decreases end - k,
        {
            let b = rom[k];
            proof {
                assert(runs.take(k + 1 - TOWN_MAP_RUNS).drop_last() =~= runs.take(
                    k - TOWN_MAP_RUNS,
                ));
                assert(b & 0x0F <= 15) by (bit_vector);
            }
            total += (b & 0x0F) as u128;
            k += 1;
        }
        proof {
            assert(runs.take(end - TOWN_MAP_RUNS) =~= runs);
        }
        if total != places as u128 {
            let shown: usize = if total <= usize::MAX as u128 {
                total as usize
            } else {
                usize::MAX
            };
            return Err(Error::ImgWrongSize(places, shown));
        }
        let ghost spec_tiles = spec_town_map_tiles(self@);
        let mut tiles: Vec<Vec<u8>> = Vec::new();
        let mut k: usize = TOWN_MAP_RUNS;
        proof {
            assert(runs.take(0) =~= Seq::<u8>::empty());
        }
        while k < end
            invariant
                TOWN_MAP_RUNS <= k <= end <= len == rom@.len(),
                rom@ == self@,
                len >= crate::db::ROM_SIZE,
                runs == rom@.subrange(TOWN_MAP_RUNS as int, end as int),
                ids == spec_expand_runs(runs),
                spec_tiles == spec_town_map_tiles(self@),
                spec_tiles.len() == ids.len(),
                tiles@.len() == spec_expand_runs(runs.take(k - TOWN_MAP_RUNS)).len(),
                tiles_view(tiles@) == spec_expand_runs(runs.take(k - TOWN_MAP_RUNS)).map_values(
                    |id: u8| spec_tile(self@, TOWN_MAP_TILES + id * TILE_BYTES, true),
                ),
            decreases end - k,
        {
            let b = rom[k];
            let tile_id = ((b & 0xF0) >> 4) as usize;
            let count = (b & 0x0F) as usize;
            let ghost before = spec_expand_runs(runs.take(k - TOWN_MAP_RUNS));
            let ghost after = spec_expand_runs(runs.take(k + 1 - TOWN_MAP_RUNS));
            proof {
                assert(runs.take(k + 1 - TOWN_MAP_RUNS).drop_last() =~= runs.take(
                    k - TOWN_MAP_RUNS,
                ));
                assert((b & 0xF0) >> 4 <= 15) by (bit_vector);
                assert(b & 0x0F <= 15) by (bit_vector);
            }
            let mut j: usize = 0;
            while j < count
                invariant
                    j <= count,
                    count == (b & 0x0F),
                    tile_id == (b & 0xF0) >> 4,
                    tile_id <= 15,
                    rom@ == self@,
                    rom@.len() >= crate::db::ROM_SIZE,
                    after == before + Seq::new(count as nat, |i: int| (b & 0xF0) >> 4),
                    tiles@.len() == before.len() + j,
                    tiles_view(tiles@) == after.take(before.len() + j).map_values(
                        |id: u8| spec_tile(self@, TOWN_MAP_TILES + id * TILE_BYTES, true),
                    ),
                decreases count - j,
            {
                let tile = tile_at(rom, TOWN_MAP_TILES + tile_id * TILE_BYTES, true);
                let ghost old_view = tiles_view(tiles@);
                tiles.push(tile);
                j += 1;
                proof {
                    assert(after[before.len() + j - 1] == (b & 0xF0) >> 4);
                    assert(tiles_view(tiles@) =~= old_view.push(tile@));
                    assert(tiles_view(tiles@) =~= after.take(before.len() + j).map_values(
                        |id: u8| spec_tile(self@, TOWN_MAP_TILES + id * TILE_BYTES, true),
                    ));
                }
            }
            proof {
                assert(after.take(before.len() + count) =~= after);
            }
            k += 1;
        }
        proof {
            assert(runs.take(end - TOWN_MAP_RUNS) =~= runs);
        }
        match Img::new(&TOWN_MAP_WIDTH, &TOWN_MAP_HEIGHT, &tiles) {
            Ok(img) => Ok(img),
            Err(e) => {
                proof {
                    assert(are_tiles(tiles_view(tiles@), places as int));
                    assert(false);
                }
                Err(e)
            },
        }
    }
}

} // verus!
