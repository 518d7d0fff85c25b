//! The party icons: which icon a species shows, and the two frames of each icon.

use crate::bytes::{append_range, copy_range, spec_u16_at, u16_at};
use crate::db::{PkmnapiDB, ROM_PAGE};
use crate::error::Error;
use crate::ids::{in_bounds, spec_icon_id_bounds, spec_pokedex_id_to_internal_id, MAX_ICON_ID};
use crate::img::{
    mirrored, spec_img_pixels, spec_mirrored, spec_tile, tile_at, tiles_view, Gif, Img,
    TILE_BYTES, TILE_PIXELS,
};
use crate::patch::Patch;
use vstd::prelude::*;

verus! {

/// Where the table that gives each species its icon stands: one nibble for
/// each species, the odd display numbers in the high nibbles.
pub const POKEMON_ICONS: usize = ROM_PAGE * 0x38 + 0x190D;

/// Where the table of the icons' graphics stands: six bytes for each entry,
/// fourteen entries for each of the two frames.
pub const ICON_TABLE: usize = ROM_PAGE * 0x38 + 0x17C0;

/// Where the four tiles of icon 2 stand, which the table does not list.
pub const ICON_2_TILES: usize = ROM_PAGE * 0x08 + 0x1180;

/// The icon of a species.
#[derive(Debug, Clone, Copy, PartialEq, Eq, Structural)]
pub struct PokemonIcon {
    pub icon_id: u8,
}

impl PokemonIcon {
    /// The icon with the number `icon_id`.
    pub fn from(icon_id: &u8) -> (r: PokemonIcon)
        ensures
            r.icon_id == *icon_id,
    {
        PokemonIcon { icon_id: *icon_id }
    }

    /// The number of the icon.
    pub fn value(&self) -> (r: u8)
        ensures
            r == self.icon_id,
    {
        self.icon_id
    }
}

/// Where the byte that holds the icon of the species `pokedex_id` stands.
pub open spec fn spec_pokemon_icon_offset(pokedex_id: u8) -> int
    recommends
        pokedex_id >= 1,
{
    POKEMON_ICONS + (pokedex_id - 1) / 2
}

/// The icon number that `byte` holds for the species `pokedex_id`.
pub open spec fn spec_icon_nibble(byte: u8, pokedex_id: u8) -> u8 {
    if pokedex_id % 2 == 0 {
        byte & 0x0F
    } else {
        (byte & 0xF0) >> 4
    }
}

/// `byte` with the icon number of the species `pokedex_id` replaced by `icon_id`.
pub open spec fn spec_with_icon_nibble(byte: u8, pokedex_id: u8, icon_id: u8) -> u8 {
    if pokedex_id % 2 == 0 {
        (byte & 0xF0) | icon_id
    } else {
        (byte & 0x0F) | (icon_id << 4)
    }
}

/// The icon of the species `pokedex_id`.
pub open spec fn spec_get_pokemon_icon(rom: Seq<u8>, pokedex_id: u8) -> Result<PokemonIcon, Error> {
    match spec_pokedex_id_to_internal_id(rom, pokedex_id) {
        Err(e) => Err(e),
        Ok(_) => Ok(
            PokemonIcon {
                icon_id: spec_icon_nibble(rom[spec_pokemon_icon_offset(pokedex_id)], pokedex_id),
            },
        ),
    }
}

/// What the patch that gives the species `pokedex_id` the icon `icon`
/// writes, and where.
pub open spec fn spec_set_pokemon_icon(rom: Seq<u8>, pokedex_id: u8, icon: PokemonIcon) -> Result<
    (int, Seq<u8>),
    Error,
> {
    match spec_pokedex_id_to_internal_id(rom, pokedex_id) {
        Err(e) => Err(e),
        Ok(_) => if !in_bounds(icon.icon_id, spec_icon_id_bounds()) {
            Err(Error::IconIDInvalid(icon.icon_id, 0, MAX_ICON_ID))
        } else {
            Ok(
                (
                    spec_pokemon_icon_offset(pokedex_id),
                    seq![
                        spec_with_icon_nibble(
                            rom[spec_pokemon_icon_offset(pokedex_id)],
                            pokedex_id,
                            icon.icon_id,
                        ),
                    ],
                ),
            )
        },
    }
}

/// What entry `i` of the icon table gives: where the entry's tiles stand,
/// and how many they are. An entry in bank zero gives nothing.
pub open spec fn spec_icon_entry(rom: Seq<u8>, i: int) -> Option<(int, int)> {
    let offset = ICON_TABLE + i * 6;
    let bank = rom[offset + 3];
    if bank >= 1 {
        Some(((bank - 1) * 0x4000 + spec_u16_at(rom, offset), rom[offset + 2] as int))
    } else {
        None
    }
}

/// The four tiles that `a` and `b` make: each followed by its mirror image.
pub open spec fn spec_mirrored_pair(a: Seq<u8>, b: Seq<u8>) -> Seq<Seq<u8>> {
    seq![a, spec_mirrored(a), b, spec_mirrored(b)]
}

/// The four tiles of frame `frame` of the icon `icon_id`.
///
/// Icon 2 has four tiles of its own. The icons below 6 take the first and
/// the third tile of one entry of four tiles. The others take the first two
/// tiles of two entries that follow each other. An entry that gives nothing,
/// holds too few tiles or points beyond the image leaves the icon without
/// tiles.
pub open spec fn spec_icon_tiles(rom: Seq<u8>, icon_id: u8, frame: int) -> Option<Seq<Seq<u8>>>
    recommends
        icon_id <= MAX_ICON_ID,
        0 <= frame <= 1,
{
    if icon_id == 2 {
        Some(
            seq![
                spec_tile(rom, ICON_2_TILES as int, false),
                spec_tile(rom, ICON_2_TILES + 16, false),
                spec_tile(rom, ICON_2_TILES + 32, false),
                spec_tile(rom, ICON_2_TILES + 48, false),
            ],
        )
    } else if icon_id < 6 {
        let index = (if icon_id >= 3 {
            icon_id - 1
        } else {
            icon_id as int
        }) + frame * 14;
        match spec_icon_entry(rom, index) {
            Some((pointer, count)) => if count == 4 && pointer + 4 * TILE_BYTES <= rom.len() {
                Some(
                    spec_mirrored_pair(
                        spec_tile(rom, pointer, false),
                        spec_tile(rom, pointer + 32, false),
                    ),
                )
            } else {
                None
            },
            None => None,
        }
    } else {
        let index = 5 + (icon_id - 6) * 2 + frame * 14;
        match (spec_icon_entry(rom, index), spec_icon_entry(rom, index + 1)) {
            (Some((first_pointer, first_count)), Some((second_pointer, second_count))) => {
                let a = if first_count >= 1 {
                    first_pointer
                } else {
                    second_pointer
                };
                let b = if first_count >= 2 {
                    first_pointer + 16
                } else if first_count == 1 {
                    second_pointer
                } else {
                    second_pointer + 16
                };
                if first_count + second_count >= 2 && a + TILE_BYTES <= rom.len() && b + TILE_BYTES <= rom.len() {
                    Some(spec_mirrored_pair(spec_tile(rom, a, false), spec_tile(rom, b, false)))
                } else {
                    None
                }
            },
            _ => None,
        }
    }
}

/// The pixels of frame `frame_index` of the icon `icon_id`: its four tiles
/// as two by two. Every frame index above one means the second frame. In the
/// second frame of the icons 1 and 2 the first row of pixels moves to the end.
pub open spec fn spec_icon_frame(rom: Seq<u8>, icon_id: u8, frame_index: u8) -> Result<
    Seq<u8>,
    Error,
> {
    let frame: int = if frame_index >= 1 {
        1
    } else {
        0
    };
    if !in_bounds(icon_id, spec_icon_id_bounds()) {
        Err(Error::IconIDInvalid(icon_id, 0, MAX_ICON_ID))
    } else {
        match spec_icon_tiles(rom, icon_id, frame) {
            None => Err(Error::RomMalformed),
            Some(tiles) => {
                let pixels = spec_img_pixels(tiles, 2, 2);
                if (icon_id == 1 || icon_id == 2) && frame == 1 {
                    Ok(pixels.skip(16) + pixels.take(16))
                } else {
                    Ok(pixels)
                }
            },
        }
    }
}

impl PkmnapiDB {
    /// The icon of the species `pokedex_id`.
    pub fn get_pokemon_icon(&self, pokedex_id: &u8) -> (r: Result<PokemonIcon, Error>)
        ensures
            r == spec_get_pokemon_icon(self@, *pokedex_id),
    {
        let _internal_id = self.pokedex_id_to_internal_id(pokedex_id)?;
        let rom = self.rom();
        let offset = POKEMON_ICONS + ((*pokedex_id - 1) / 2) as usize;
        let icon_id = if *pokedex_id % 2 == 0 {
            rom[offset] & 0x0F
        } else {
            (rom[offset] & 0xF0) >> 4
        };
        Ok(PokemonIcon::from(&icon_id))
    }

    /// The patch that gives the species `pokedex_id` the icon `pokemon_icon`:
    /// one byte, in which the other species' nibble stays as it is.
    pub fn set_pokemon_icon(&self, pokedex_id: &u8, pokemon_icon: &PokemonIcon) -> (r: Result<
        Patch,
        Error,
    >)
        ensures
            match r {
                Ok(p) => spec_set_pokemon_icon(self@, *pokedex_id, *pokemon_icon) matches Ok(w)
                    && p.writes(w.0, w.1),
                Err(e) => spec_set_pokemon_icon(self@, *pokedex_id, *pokemon_icon) == Err::<
                    (int, Seq<u8>),
                    Error,
                >(e),
            },
    {
        let _internal_id = self.pokedex_id_to_internal_id(pokedex_id)?;
        let _bounds = self.icon_id_validate(&pokemon_icon.icon_id)?;
        let rom = self.rom();
        let offset = POKEMON_ICONS + ((*pokedex_id - 1) / 2) as usize;
        let value = if *pokedex_id % 2 == 0 {
            (rom[offset] & 0xF0) | pokemon_icon.value()
        } else {
            (rom[offset] & 0x0F) | (pokemon_icon.value() << 4)
        };
        let mut data: Vec<u8> = Vec::new();
        data.push(value);
        proof {
            assert(data@ =~= seq![value]);
        }
        Ok(Patch::new(&offset, &data))
    }

    /// What entry `i` of the icon table gives.
    fn icon_entry(&self, i: usize) -> (r: Option<(usize, usize)>)
        requires
            i < 28,
        ensures
            match r {
                Some(e) => spec_icon_entry(self@, i as int) == Some((e.0 as int, e.1 as int)),
                None => spec_icon_entry(self@, i as int) is None,
            },
    {
        let rom = self.rom();
        let offset = ICON_TABLE + i * 6;
        let bank = rom[offset + 3] as usize;
        if bank < 1 {
            return None;
        }
        let pointer = (bank - 1) * 0x4000 + (u16_at(rom, offset) as usize);
        Some((pointer, rom[offset + 2] as usize))
    }

    /// The four tiles of frame `frame` of the icon `icon_id`.
    fn icon_tiles(&self, icon_id: u8, frame: usize) -> (r: Option<Vec<Vec<u8>>>)
        requires
            icon_id <= MAX_ICON_ID,
            frame <= 1,
        ensures
            match r {
                Some(tiles) => spec_icon_tiles(self@, icon_id, frame as int) == Some(
                    tiles_view(tiles@),
                ) && tiles@.len() == 4 && forall|k: int|
                    0 <= k < 4 ==> (#[trigger] tiles@[k])@.len() == TILE_PIXELS,
                None => spec_icon_tiles(self@, icon_id, frame as int) is None,
            },
    {
        let rom = self.rom();
        let len = rom.len();
        let mut tiles: Vec<Vec<u8>> = Vec::new();
        if icon_id == 2 {
            tiles.push(tile_at(rom, ICON_2_TILES, false));
            tiles.push(tile_at(rom, ICON_2_TILES + 16, false));
            tiles.push(tile_at(rom, ICON_2_TILES + 32, false));
            tiles.push(tile_at(rom, ICON_2_TILES + 48, false));
            proof {
                assert(tiles_view(tiles@) =~= spec_icon_tiles(self@, icon_id, frame as int)->Some_0);
            }
            return Some(tiles);
        }
        let (a, b) = if icon_id < 6 {
            let index = (if icon_id >= 3 {
                (icon_id - 1) as usize
            } else {
                icon_id as usize
            }) + frame * 14;
            let (pointer, count) = match self.icon_entry(index) {
                Some(e) => e,
                None => {
                    return None;
                },
            };
            if count != 4 || pointer + 4 * TILE_BYTES > len {
                return None;
            }
            (pointer, pointer + 32)
        } else {
            let index = 5 + ((icon_id - 6) as usize) * 2 + frame * 14;
            let (first_pointer, first_count) = match self.icon_entry(index) {
                Some(e) => e,
                None => {
                    return None;
                },
            };
            let (second_pointer, second_count) = match self.icon_entry(index + 1) {
                Some(e) => e,
                None => {
                    return None;
                },
            };
            let a = if first_count >= 1 {
                first_pointer
            } else {
                second_pointer
            };
            let b = if first_count >= 2 {
                first_pointer + 16
            } else if first_count == 1 {
                second_pointer
            } else {
                second_pointer + 16
            };
            if first_count + second_count < 2 || a + TILE_BYTES > len || b + TILE_BYTES > len {
                return None;
            }
            (a, b)
        };
        let first = tile_at(rom, a, false);
        let second = tile_at(rom, b, false);
        let first_mirrored = mirrored(&first);
        let second_mirrored = mirrored(&second);
        tiles.push(first);
        tiles.push(first_mirrored);
        tiles.push(second);
        tiles.push(second_mirrored);
        proof {
            assert(tiles_view(tiles@) =~= spec_mirrored_pair(
                spec_tile(self@, a as int, false),
                spec_tile(self@, b as int, false),
            ));
        }
        Some(tiles)
    }

    /// Frame `frame_index` of the icon `icon_id`, an image of two by two tiles.
    pub fn get_icon_frame(&self, icon_id: &u8, frame_index: &u8) -> (r: Result<Img, Error>)
        ensures
            match r {
                Ok(img) => img.width == 2 && img.height == 2 && spec_icon_frame(
                    self@,
                    *icon_id,
                    *frame_index,
                ) == Ok::<Seq<u8>, Error>(img.pixels@),
                Err(e) => spec_icon_frame(self@, *icon_id, *frame_index) == Err::<Seq<u8>, Error>(
                    e,
                ),
            },
    {
        let _bounds = self.icon_id_validate(icon_id)?;
        let frame: usize = if *frame_index >= 1 {
            1
        } else {
            0
        };
        let tiles = match self.icon_tiles(*icon_id, frame) {
            Some(tiles) => tiles,
            None => {
                return Err(Error::RomMalformed);
            },
        };
        let mut icon = match Img::new(&2, &2, &tiles) {
            Ok(icon) => icon,
            Err(e) => {
                proof {
                    if tiles@.len() == 4 {
                        let k = choose|k: int|
                            0 <= k < tiles@.len() && (#[trigger] tiles@[k])@.len() != TILE_PIXELS;
                        assert(false);
                    }
                    assert(false);
                }
                return Err(e);
            },
        };
        if (*icon_id == 1 || *icon_id == 2) && frame == 1 {
            let mut pixels = copy_range(&icon.pixels, 16, 256);
            append_range(&mut pixels, &icon.pixels, 0, 16);
            proof {
                assert(pixels@ =~= icon.pixels@.skip(16) + icon.pixels@.take(16));
            }
            icon.pixels = pixels;
        }
        Ok(icon)
    }

    /// The icon `icon_id` as an animation of its two frames.
    pub fn get_icon(&self, icon_id: &u8) -> (r: Result<Gif, Error>)
        ensures
            match r {
                Ok(gif) => {
                    &&& gif.frames@.len() == 2
                    &&& gif.frames@[0].width == 2 && gif.frames@[0].height == 2
                    &&& gif.frames@[1].width == 2 && gif.frames@[1].height == 2
                    &&& spec_icon_frame(self@, *icon_id, 0) == Ok::<Seq<u8>, Error>(
                        gif.frames@[0].pixels@,
                    )
                    &&& spec_icon_frame(self@, *icon_id, 1) == Ok::<Seq<u8>, Error>(
                        gif.frames@[1].pixels@,
                    )
                },
                Err(e) => if spec_icon_frame(self@, *icon_id, 0) is Err {
                    spec_icon_frame(self@, *icon_id, 0) == Err::<Seq<u8>, Error>(e)
                } else {
                    spec_icon_frame(self@, *icon_id, 1) == Err::<Seq<u8>, Error>(e)
                },
            },
    {
        let _bounds = self.icon_id_validate(icon_id)?;
        let frame_a = self.get_icon_frame(icon_id, &0)?;
        let frame_b = self.get_icon_frame(icon_id, &1)?;
        let mut frames: Vec<Img> = Vec::new();
        frames.push(frame_a);
        frames.push(frame_b);
        Ok(Gif::new(&frames))
    }
}

} // verus!
