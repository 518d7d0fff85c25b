use pkmnapi::db::PkmnapiDB;
use pkmnapi::error::Error;
use pkmnapi::icons::PokemonIcon;
use pkmnapi::img::{mirrored, pixel, tile_at, Gif, Img};
use pkmnapi::map::MapPic;
use pkmnapi::patch::Patch;
use pkmnapi::pic::{Pic, PicEncodingMethod};
use pkmnapi::pics::PokemonPicFace;

const ROM_SIZE: usize = 0x100000;

fn put(rom: &mut Vec<u8>, at: usize, bytes: &[u8]) {
    rom[at..at + bytes.len()].copy_from_slice(bytes);
}

/// The tile whose every row has the low plane `lo` and the high plane `hi`.
fn tile_bytes(lo: u8, hi: u8) -> Vec<u8> {
    let mut out = vec![];
    for _ in 0..8 {
        out.push(lo);
        out.push(hi);
    }
    out
}

fn flat(p: u8) -> Vec<u8> {
    vec![p; 64]
}

#[test]
fn pixel_takes_a_bit_of_each_plane() {
    assert_eq!(pixel(0x80, 0x00, 0), 1);
    assert_eq!(pixel(0x00, 0x80, 0), 2);
    assert_eq!(pixel(0x80, 0x80, 0), 3);
    assert_eq!(pixel(0x7F, 0x7F, 0), 0);
    assert_eq!(pixel(0x01, 0x00, 7), 1);
    assert_eq!(pixel(0xF0, 0xCC, 2), 1);
    assert_eq!(pixel(0xF0, 0xCC, 5), 2);
}

#[test]
fn tile_at_decodes_sixteen_bytes() {
    let mut rom = vec![0xAAu8; 5];
    rom.extend(tile_bytes(0xF0, 0xCC));
    let row = vec![3, 3, 1, 1, 2, 2, 0, 0];
    let tile = tile_at(&rom, 5, false);
    assert_eq!(tile.len(), 64);
    for y in 0..8 {
        assert_eq!(tile[8 * y..8 * y + 8], row[..]);
    }
    // With the high plane first, the two planes change places.
    let swapped = tile_at(&rom, 5, true);
    assert_eq!(swapped[..8], [3, 3, 2, 2, 1, 1, 0, 0]);
}

#[test]
fn mirrored_reverses_each_row() {
    let tile: Vec<u8> = (0..64).collect();
    let m = mirrored(&tile);
    assert_eq!(m[..8], [7, 6, 5, 4, 3, 2, 1, 0]);
    assert_eq!(m[56..], [63, 62, 61, 60, 59, 58, 57, 56]);
    assert_eq!(mirrored(&m), tile);
}

#[test]
fn img_new_lays_the_tiles_out_in_rows() {
    let tiles = vec![flat(0), flat(1), flat(2), flat(3), flat(1), flat(0)];
    let img = Img::new(&3, &2, &tiles).unwrap();
    assert_eq!(img.width, 3);
    assert_eq!(img.height, 2);
    assert_eq!(img.pixels.len(), 3 * 8 * 2 * 8);
    for y in 0..16 {
        for x in 0..24 {
            let tile = (y / 8) * 3 + x / 8;
            assert_eq!(img.pixels[y * 24 + x], tiles[tile][0]);
        }
    }
    let numbered: Vec<u8> = (0..64).collect();
    let img = Img::new(&1, &1, &vec![numbered.clone()]).unwrap();
    assert_eq!(img.pixels, numbered);
}

#[test]
fn img_new_refuses_the_wrong_tiles() {
    assert_eq!(
        Img::new(&2, &2, &vec![flat(0); 3]),
        Err(Error::ImgWrongSize(4, 3))
    );
    assert_eq!(
        Img::new(&1, &2, &vec![flat(0), vec![0; 63]]),
        Err(Error::ImgWrongSize(64, 63))
    );
    assert_eq!(
        Img::new(&0, &7, &vec![]),
        Ok(Img {
            width: 0,
            height: 7,
            pixels: vec![]
        })
    );
}

#[test]
fn img_to_2bpp_packs_the_planes() {
    let mut pixels = vec![];
    for _ in 0..8 {
        pixels.extend([3, 3, 1, 1, 2, 2, 0, 0]);
    }
    let img = Img {
        width: 1,
        height: 1,
        pixels,
    };
    assert_eq!(img.to_2bpp(), Ok(tile_bytes(0xF0, 0xCC)));
}

#[test]
fn img_to_2bpp_goes_tile_by_tile() {
    let tiles = vec![flat(1), flat(2), flat(3), flat(0)];
    let img = Img::new(&2, &2, &tiles).unwrap();
    let mut expected = tile_bytes(0xFF, 0x00);
    expected.extend(tile_bytes(0x00, 0xFF));
    expected.extend(tile_bytes(0xFF, 0xFF));
    expected.extend(tile_bytes(0x00, 0x00));
    assert_eq!(img.to_2bpp(), Ok(expected));
}

#[test]
fn img_to_2bpp_inverts_the_decoding_of_tiles() {
    let rom: Vec<u8> = (0..64).map(|i| (i * 37 + 11) as u8).collect();
    let tiles: Vec<Vec<u8>> = (0..4).map(|k| tile_at(&rom, 16 * k, false)).collect();
    let img = Img::new(&2, &2, &tiles).unwrap();
    assert_eq!(img.to_2bpp(), Ok(rom));
}

#[test]
fn img_to_2bpp_refuses_the_wrong_number_of_pixels() {
    let img = Img {
        width: 1,
        height: 2,
        pixels: vec![0; 64],
    };
    assert_eq!(img.to_2bpp(), Err(Error::ImgWrongSize(128, 64)));
}

#[test]
fn gif_new_keeps_the_frames() {
    let a = Img::new(&1, &1, &vec![flat(1)]).unwrap();
    let b = Img::new(&1, &1, &vec![flat(2)]).unwrap();
    let gif = Gif::new(&vec![a.clone(), b.clone()]);
    assert_eq!(gif.frames, vec![a, b]);
}

#[test]
fn map_pic_new_lays_four_tiles_to_a_block() {
    let tiles: Vec<Vec<u8>> = (0..32).map(|k| flat((k % 4) as u8)).collect();
    let map = MapPic::new(&2, &1, &tiles).unwrap();
    assert_eq!(map.width, 2);
    assert_eq!(map.height, 1);
    assert_eq!(map.pixels.len(), 64 * 32);
    assert_eq!(map.pixels[0], 0);
    assert_eq!(map.pixels[8], 1);
    assert_eq!(map.pixels[63], 3);
    assert_eq!(
        MapPic::new(&1, &1, &vec![flat(0); 15]),
        Err(Error::ImgWrongSize(16, 15))
    );
}

fn icon_rom() -> Vec<u8> {
    let mut rom = vec![0u8; ROM_SIZE];
    rom[0x71E5F] = 3;
    put(&mut rom, 0x41024, &[1, 2]);
    put(&mut rom, 0x7190D, &[0x72, 0x40]);
    // The entries of the first frame: four tiles each for the icons below
    // 6 at 0x14000 and on, one tile each for the others at 0x18000 and on.
    for i in 0..28usize {
        let (pointer, count): (u16, u8) = if i % 14 < 5 {
            (0x4000 + 0x40 * i as u16, 4)
        } else {
            (0x6000 + 0x10 * i as u16, 1)
        };
        put(
            &mut rom,
            0x717C0 + 6 * i,
            &[pointer as u8, (pointer >> 8) as u8, count, 5, 0, 0],
        );
    }
    // Icon 0, first frame: the tiles 0 and 2 of its entry.
    put(&mut rom, 0x14000, &tile_bytes(0xF0, 0x00));
    put(&mut rom, 0x14020, &tile_bytes(0x00, 0xC0));
    // Icon 1, second frame: entry 15.
    put(&mut rom, 0x14000 + 0x40 * 15, &[0xFF; 2]);
    // Icon 2: four tiles of its own.
    put(&mut rom, 0x11180, &tile_bytes(0xFF, 0x00));
    put(&mut rom, 0x11190, &tile_bytes(0x00, 0xFF));
    put(&mut rom, 0x111A0, &tile_bytes(0xFF, 0xFF));
    put(&mut rom, 0x111B0, &[0x80, 0x00]);
    // Icon 6, first frame: the entries 5 and 6.
    put(&mut rom, 0x16000 + 0x10 * 5, &tile_bytes(0x80, 0x80));
    put(&mut rom, 0x16000 + 0x10 * 6, &tile_bytes(0x01, 0x00));
    rom
}

#[test]
fn get_pokemon_icon_takes_a_nibble() {
    let db = PkmnapiDB::new(&icon_rom(), None).unwrap();
    assert_eq!(db.get_pokemon_icon(&1), Ok(PokemonIcon { icon_id: 0x07 }));
    assert_eq!(db.get_pokemon_icon(&2), Ok(PokemonIcon { icon_id: 0x02 }));
    assert_eq!(
        db.get_pokemon_icon(&3),
        Err(Error::PokedexIDInvalid(3, 1, 2))
    );
}

#[test]
fn set_pokemon_icon_keeps_the_other_nibble() {
    let db = PkmnapiDB::new(&icon_rom(), None).unwrap();
    assert_eq!(
        db.set_pokemon_icon(&1, &PokemonIcon::from(&0x02)),
        Ok(Patch {
            offset: 0x7190D,
            length: 0x01,
            data: vec![0x22]
        })
    );
    assert_eq!(
        db.set_pokemon_icon(&2, &PokemonIcon::from(&0x09)),
        Ok(Patch {
            offset: 0x7190D,
            length: 0x01,
            data: vec![0x79]
        })
    );
    assert_eq!(
        db.set_pokemon_icon(&2, &PokemonIcon::from(&0x0A)),
        Err(Error::IconIDInvalid(10, 0, 9))
    );
    assert_eq!(PokemonIcon::from(&3).value(), 3);
}

#[test]
fn get_icon_frame_mirrors_the_tiles() {
    let db = PkmnapiDB::new(&icon_rom(), None).unwrap();
    let frame = db.get_icon_frame(&0, &0).unwrap();
    assert_eq!(frame.width, 2);
    assert_eq!(frame.height, 2);
    // The first row: the first tile and its mirror image.
    assert_eq!(
        frame.pixels[..16],
        [1, 1, 1, 1, 0, 0, 0, 0, 0, 0, 0, 0, 1, 1, 1, 1]
    );
    // The ninth row: the third tile and its mirror image.
    assert_eq!(
        frame.pixels[128..144],
        [2, 2, 0, 0, 0, 0, 0, 0, 0, 0, 0, 0, 0, 0, 2, 2]
    );
}

#[test]
fn get_icon_frame_of_the_icon_with_its_own_tiles() {
    let db = PkmnapiDB::new(&icon_rom(), None).unwrap();
    let frame = db.get_icon_frame(&2, &0).unwrap();
    assert_eq!(frame.pixels[..16], [1, 1, 1, 1, 1, 1, 1, 1, 2, 2, 2, 2, 2, 2, 2, 2]);
    assert_eq!(frame.pixels[128..137], [3, 3, 3, 3, 3, 3, 3, 3, 1]);
    // In the second frame the first row moves to the end.
    let second = db.get_icon_frame(&2, &1).unwrap();
    assert_eq!(second.pixels[..240], frame.pixels[16..]);
    assert_eq!(second.pixels[240..], frame.pixels[..16]);
    // Every frame index above one means the second frame.
    assert_eq!(db.get_icon_frame(&2, &200).unwrap(), second);
}

#[test]
fn get_icon_frame_of_an_icon_of_two_entries() {
    let db = PkmnapiDB::new(&icon_rom(), None).unwrap();
    let frame = db.get_icon_frame(&6, &0).unwrap();
    assert_eq!(
        frame.pixels[..16],
        [3, 0, 0, 0, 0, 0, 0, 0, 0, 0, 0, 0, 0, 0, 0, 3]
    );
    assert_eq!(
        frame.pixels[128..144],
        [0, 0, 0, 0, 0, 0, 0, 1, 1, 0, 0, 0, 0, 0, 0, 0]
    );
}

#[test]
fn get_icon_frame_refuses_what_is_out_of_range_or_malformed() {
    let db = PkmnapiDB::new(&icon_rom(), None).unwrap();
    assert_eq!(
        db.get_icon_frame(&10, &0),
        Err(Error::IconIDInvalid(10, 0, 9))
    );
    let mut data = icon_rom();
    // An entry in bank zero.
    data[0x717C0 + 3] = 0;
    let db = PkmnapiDB::new(&data, None).unwrap();
    assert_eq!(db.get_icon_frame(&0, &0), Err(Error::RomMalformed));
    assert!(db.get_icon_frame(&0, &1).is_ok());
    // An entry of three tiles.
    let mut data = icon_rom();
    data[0x717C0 + 6 + 2] = 3;
    let db = PkmnapiDB::new(&data, None).unwrap();
    assert_eq!(db.get_icon_frame(&1, &0), Err(Error::RomMalformed));
}

#[test]
fn get_icon_gives_both_frames() {
    let db = PkmnapiDB::new(&icon_rom(), None).unwrap();
    let gif = db.get_icon(&1).unwrap();
    assert_eq!(gif.frames.len(), 2);
    assert_eq!(gif.frames[0], db.get_icon_frame(&1, &0).unwrap());
    assert_eq!(gif.frames[1], db.get_icon_frame(&1, &1).unwrap());
    // The second frame of icon 1 begins with its second row.
    assert_eq!(gif.frames[1].pixels[240..242], [3, 3]);
    assert_eq!(
        db.get_icon(&10).unwrap_err(),
        Error::IconIDInvalid(10, 0, 9)
    );
}

#[test]
fn get_pokemon_logo_img_reads_its_tiles() {
    let mut data = vec![0u8; ROM_SIZE];
    put(&mut data, 0x11380, &tile_bytes(0xFF, 0x00));
    put(&mut data, 0x11380 + 16 * 17, &tile_bytes(0x00, 0x80));
    let db = PkmnapiDB::new(&data, None).unwrap();
    let logo = db.get_pokemon_logo_img().unwrap();
    assert_eq!(logo.width, 16);
    assert_eq!(logo.height, 7);
    assert_eq!(logo.pixels.len(), 16 * 8 * 7 * 8);
    assert_eq!(logo.pixels[..9], [1, 1, 1, 1, 1, 1, 1, 1, 0]);
    // Tile 17: the second tile of the second row of tiles.
    assert_eq!(logo.pixels[8 * 128 + 8..8 * 128 + 10], [2, 0]);
    assert_eq!(logo.to_2bpp().unwrap(), data[0x11380..0x11380 + 16 * 112]);
}

#[test]
fn set_pokemon_logo_img_writes_the_stored_form() {
    let db = PkmnapiDB::new(&vec![0u8; ROM_SIZE], None).unwrap();
    let tiles: Vec<Vec<u8>> = (0..112).map(|k| flat((k % 4) as u8)).collect();
    let logo = Img::new(&16, &7, &tiles).unwrap();
    let patch = db.set_pokemon_logo_img(&logo).unwrap();
    assert_eq!(patch.offset, 0x11380);
    assert_eq!(patch.length, 1792);
    assert_eq!(patch.data[..16], tile_bytes(0, 0)[..]);
    assert_eq!(patch.data[16..32], tile_bytes(0xFF, 0)[..]);
    assert_eq!(patch.data[32..48], tile_bytes(0, 0xFF)[..]);
    let small = Img::new(&1, &1, &vec![flat(0)]).unwrap();
    assert_eq!(
        db.set_pokemon_logo_img(&small),
        Err(Error::PokemonLogoWrongSize(1792, 16))
    );
    let broken = Img {
        width: 16,
        height: 7,
        pixels: vec![0; 5],
    };
    assert_eq!(
        db.set_pokemon_logo_img(&broken),
        Err(Error::ImgWrongSize(7168, 5))
    );
}

#[test]
fn logo_reads_back_after_the_patch() {
    let mut db = PkmnapiDB::new(&vec![0u8; ROM_SIZE], None).unwrap();
    let tiles: Vec<Vec<u8>> = (0..112)
        .map(|k| (0..64).map(|i| ((i + k) % 4) as u8).collect())
        .collect();
    let logo = Img::new(&16, &7, &tiles).unwrap();
    let patch = db.set_pokemon_logo_img(&logo).unwrap();
    db.apply_patch(&patch);
    assert_eq!(db.get_pokemon_logo_img().unwrap(), logo);
}

#[test]
fn get_town_map_img_expands_the_runs() {
    let mut data = vec![0u8; ROM_SIZE];
    put(&mut data, 0x125A8 + 16, &tile_bytes(0x00, 0xFF));
    put(&mut data, 0x125A8 + 32, &tile_bytes(0xFF, 0xFF));
    // 23 runs of fifteen and one of ten of tile 1, then five of tile 2.
    let mut runs = vec![0x1F; 23];
    runs.extend([0x1A, 0x25, 0x00, 0x2F]);
    put(&mut data, 0x71100, &runs);
    let db = PkmnapiDB::new(&data, None).unwrap();
    let map = db.get_town_map_img().unwrap();
    assert_eq!(map.width, 20);
    assert_eq!(map.height, 18);
    assert_eq!(map.pixels.len(), 20 * 8 * 18 * 8);
    // With the high plane first, the first byte of a row is the high plane.
    assert_eq!(map.pixels[0], 1);
    assert_eq!(map.pixels[map.pixels.len() - 1], 3);
    assert_eq!(map.pixels[map.pixels.len() - 41], 1);
}

#[test]
fn get_town_map_img_refuses_another_number_of_tiles() {
    let mut data = vec![0u8; ROM_SIZE];
    put(&mut data, 0x71100, &[0x1F, 0x22, 0x00]);
    let db = PkmnapiDB::new(&data, None).unwrap();
    assert_eq!(db.get_town_map_img(), Err(Error::ImgWrongSize(360, 17)));
    let db = PkmnapiDB::new(&vec![0u8; ROM_SIZE], None).unwrap();
    assert_eq!(db.get_town_map_img(), Err(Error::ImgWrongSize(360, 0)));
}

fn map_rom() -> Vec<u8> {
    let mut rom = vec![0u8; ROM_SIZE];
    put(&mut rom, 0xCEEB, &[0x00, 0x50, 0x10, 0x50, 0x20, 0x50, 0xFF, 0xFF]);
    // The map 0 stands in bank 2, the map 1 in bank 1, the map 2 in bank 2.
    put(&mut rom, 0xC23D, &[2, 1, 2]);
    put(&mut rom, 0x01AE, &[0x00, 0x41, 0x00, 0x41, 0x40, 0x41]);
    // The header of the map 0: tileset 1, one block high, two blocks wide.
    put(&mut rom, 0x4000 + 0x4100, &[1, 1, 2, 0x00, 0x42]);
    put(&mut rom, 0x4000 + 0x4200, &[3, 0]);
    // The header of the map 2: the tileset 0x40.
    put(&mut rom, 0x4000 + 0x4140, &[0x40, 1, 1, 0x00, 0x42]);
    // The tileset 1 stands in bank 8: its blocks at 0x20000, its tiles at 0x21000.
    put(&mut rom, 0xC7BE + 0x0C, &[8, 0x00, 0x40, 0x00, 0x50]);
    // The block 3 is made of the tiles 0 to 15, the block 0 of the tile 5.
    let block: Vec<u8> = (0..16).collect();
    put(&mut rom, 0x20000 + 3 * 16, &block);
    put(&mut rom, 0x20000, &[5; 16]);
    for tile in 0..16usize {
        put(
            &mut rom,
            0x21000 + 16 * tile,
            &tile_bytes(if tile % 2 == 1 { 0xFF } else { 0 }, if tile >= 8 { 0xFF } else { 0 }),
        );
    }
    rom
}

#[test]
fn get_map_pic_draws_the_blocks() {
    let db = PkmnapiDB::new(&map_rom(), None).unwrap();
    let map = db.get_map_pic(&0).unwrap();
    assert_eq!(map.width, 2);
    assert_eq!(map.height, 1);
    assert_eq!(map.pixels.len(), 64 * 32);
    // The map is 64 pixels wide. Its left block shows the tiles 0 to 15,
    // four to a row; with the high plane first, an odd tile has the colour 1
    // in the high bit.
    assert_eq!(map.pixels[0], 0);
    assert_eq!(map.pixels[8], 2);
    assert_eq!(map.pixels[16], 0);
    assert_eq!(map.pixels[24], 2);
    // The third row of tiles of the block: the tiles 8 to 11.
    assert_eq!(map.pixels[16 * 64], 1);
    assert_eq!(map.pixels[16 * 64 + 8], 3);
    // Its right block shows the tile 5 everywhere.
    assert_eq!(map.pixels[32], 2);
    assert_eq!(map.pixels[31 * 64 + 63], 2);
}

#[test]
fn get_map_pic_refuses_what_is_invalid() {
    let db = PkmnapiDB::new(&map_rom(), None).unwrap();
    assert_eq!(db.get_map_pic(&1), Err(Error::MapInvalid(1)));
    assert_eq!(db.get_map_pic(&2), Err(Error::MapInvalid(2)));
    assert_eq!(db.get_map_pic(&3), Err(Error::MapIDInvalid(3, 0, 2)));
    let mut data = map_rom();
    data[0x4000 + 0x4100 + 2] = 0xF6;
    let db = PkmnapiDB::new(&data, None).unwrap();
    assert_eq!(db.get_map_pic(&0), Err(Error::MapInvalid(0)));
    let mut data = map_rom();
    data[0x4000 + 0x4100 + 1] = 0xF0;
    let db = PkmnapiDB::new(&data, None).unwrap();
    assert_eq!(db.get_map_pic(&0), Err(Error::MapInvalid(0)));
    let mut data = map_rom();
    data[0x4000 + 0x4100] = 0xC7;
    let db = PkmnapiDB::new(&data, None).unwrap();
    assert_eq!(db.get_map_pic(&0), Err(Error::MapInvalid(0)));
    // A tileset in a bank beyond the image.
    let mut data = map_rom();
    data[0xC7BE + 0x0C] = 0x50;
    let db = PkmnapiDB::new(&data, None).unwrap();
    assert_eq!(db.get_map_pic(&0), Err(Error::MapInvalid(0)));
}

fn sample_pic(width: u8, height: u8, seed: usize) -> Pic {
    let n = width as usize * 8 * height as usize * 8;
    Pic {
        width,
        height,
        pixels: (0..n).map(|i| (((i + seed) / 5) % 4) as u8).collect(),
        bytes: 0,
    }
}

fn pic_rom() -> Vec<u8> {
    let mut rom = vec![0u8; ROM_SIZE];
    rom[0x71E5F] = 4;
    put(&mut rom, 0x41024, &[151, 2, 1]);
    // The banks: the places below 1 in bank 9, the places below 2 in bank
    // 10, all others in bank 13; the last species in bank 1.
    rom[0x1646] = 2;
    rom[0x1648] = 9;
    rom[0x164D] = 3;
    rom[0x164F] = 10;
    rom[0x1654] = 3;
    rom[0x1656] = 11;
    rom[0x165B] = 3;
    rom[0x165D] = 12;
    rom[0x1661] = 13;
    rom[0x163A] = 1;
    // The species 1, at the place 2: front at 0x4100, back at 0x4800.
    put(&mut rom, 0x383DE + 11, &[0x00, 0x41, 0x00, 0x48]);
    // The species 2, at the place 1.
    put(&mut rom, 0x383DE + 0x1C + 11, &[0x00, 0x42, 0x00, 0x49]);
    // The last species, at the place 0.
    put(&mut rom, 0x425B + 11, &[0x00, 0x60, 0x00, 0x70]);
    let front = sample_pic(5, 5, 0).encode(PicEncodingMethod::ONE(0)).unwrap();
    put(&mut rom, 12 * 0x4000 + 0x4100, &front);
    let back = sample_pic(4, 4, 3).encode(PicEncodingMethod::TWO(1)).unwrap();
    put(&mut rom, 12 * 0x4000 + 0x4800, &back);
    let second = sample_pic(6, 6, 1).encode(PicEncodingMethod::THREE(0)).unwrap();
    put(&mut rom, 9 * 0x4000 + 0x4200, &second);
    let last = sample_pic(5, 5, 2).encode(PicEncodingMethod::THREE(1)).unwrap();
    put(&mut rom, 0x6000, &last);
    // Two trainer classes.
    let mut names = vec![0x80, 0x50, 0x81, 0x50, 0x21];
    put(&mut rom, 0x399FF, &mut names);
    put(&mut rom, 0x39914, &[0x00, 0x40, 0, 0, 0, 0x00, 0x50, 0, 0, 0]);
    let trainer = sample_pic(7, 7, 4).encode(PicEncodingMethod::ONE(1)).unwrap();
    put(&mut rom, 0x48000 + 0x5000, &trainer);
    rom
}

fn same_picture(pic: &Pic, width: u8, height: u8, seed: usize) {
    let expected = sample_pic(width, height, seed);
    assert_eq!(pic.width, width);
    assert_eq!(pic.height, height);
    assert_eq!(pic.pixels, expected.pixels);
}

#[test]
fn get_pokemon_pic_follows_the_bank_and_the_pointer() {
    let db = PkmnapiDB::new(&pic_rom(), None).unwrap();
    let front = db.get_pokemon_pic(&1, &PokemonPicFace::FRONT).unwrap();
    same_picture(&front, 5, 5, 0);
    assert_eq!(
        front.bytes,
        sample_pic(5, 5, 0)
            .encode(PicEncodingMethod::ONE(0))
            .unwrap()
            .len()
    );
    same_picture(&db.get_pokemon_pic(&1, &PokemonPicFace::BACK).unwrap(), 4, 4, 3);
    same_picture(&db.get_pokemon_pic(&2, &PokemonPicFace::FRONT).unwrap(), 6, 6, 1);
    same_picture(&db.get_pokemon_pic(&151, &PokemonPicFace::FRONT).unwrap(), 5, 5, 2);
    assert_eq!(
        db.get_pokemon_pic(&3, &PokemonPicFace::FRONT),
        Err(Error::PokedexIDInvalid(3, 1, 151))
    );
}

#[test]
fn get_pokemon_pic_refuses_a_bank_that_is_none() {
    let mut data = pic_rom();
    data[0x1661] = 0;
    let db = PkmnapiDB::new(&data, None).unwrap();
    assert_eq!(
        db.get_pokemon_pic(&1, &PokemonPicFace::FRONT),
        Err(Error::RomMalformed)
    );
    data[0x1661] = 0xFF;
    let db = PkmnapiDB::new(&data, None).unwrap();
    assert_eq!(
        db.get_pokemon_pic(&1, &PokemonPicFace::FRONT),
        Err(Error::RomMalformed)
    );
}

#[test]
fn get_pokemon_pic_refuses_what_is_no_picture() {
    let mut data = pic_rom();
    // A picture of 15 by 15 tiles that begins two bytes before the end.
    let at = ROM_SIZE - 2;
    data[at] = 0xFF;
    put(
        &mut data,
        0x383DE + 11,
        &[(at & 0xFF) as u8, ((at >> 8) & 0x3F) as u8 | 0x40, 0, 0],
    );
    data[0x1661] = (at / 0x4000) as u8;
    let db = PkmnapiDB::new(&data, None).unwrap();
    assert_eq!(
        db.get_pokemon_pic(&1, &PokemonPicFace::FRONT),
        Err(Error::PicCouldNotRead)
    );
}

#[test]
fn set_pokemon_pic_writes_the_stored_form() {
    let db = PkmnapiDB::new(&pic_rom(), None).unwrap();
    let pic = sample_pic(5, 5, 0);
    let stored = pic.encode(PicEncodingMethod::ONE(1)).unwrap();
    assert_eq!(
        db.set_pokemon_pic(&1, &PokemonPicFace::FRONT, &pic, PicEncodingMethod::ONE(1)),
        Ok(Patch {
            offset: 12 * 0x4000 + 0x4100,
            length: stored.len(),
            data: stored
        })
    );
    let empty = Pic {
        width: 1,
        height: 1,
        pixels: vec![0; 64],
        bytes: 0,
    };
    assert_eq!(
        db.set_pokemon_pic(&1, &PokemonPicFace::BACK, &empty, PicEncodingMethod::TWO(0)),
        Ok(Patch {
            offset: 12 * 0x4000 + 0x4800,
            length: 5,
            data: vec![0x11, 0x3C, 0x19, 0xE0, 0x80]
        })
    );
}

#[test]
fn set_pokemon_pic_refuses_what_does_not_fit() {
    let db = PkmnapiDB::new(&pic_rom(), None).unwrap();
    let large = sample_pic(7, 7, 0);
    assert_eq!(
        db.set_pokemon_pic(&1, &PokemonPicFace::BACK, &large, PicEncodingMethod::ONE(0)),
        Err(Error::PicTooLarge)
    );
    let broken = Pic {
        width: 2,
        height: 2,
        pixels: vec![0; 17],
        bytes: 0,
    };
    assert_eq!(
        db.set_pokemon_pic(&1, &PokemonPicFace::BACK, &broken, PicEncodingMethod::ONE(0)),
        Err(Error::PicWrongSize)
    );
}

#[test]
fn pokemon_pic_reads_back_after_the_patch() {
    let new = Pic {
        width: 3,
        height: 2,
        pixels: (0..(24 * 16)).map(|i: usize| ((i * i / 7) % 4) as u8).collect(),
        bytes: 0,
    };
    for method in [
        PicEncodingMethod::ONE(0),
        PicEncodingMethod::TWO(0),
        PicEncodingMethod::THREE(1),
    ] {
        let mut db = PkmnapiDB::new(&pic_rom(), None).unwrap();
        let patch = db
            .set_pokemon_pic(&2, &PokemonPicFace::FRONT, &new, method)
            .unwrap();
        db.apply_patch(&patch);
        let back = db.get_pokemon_pic(&2, &PokemonPicFace::FRONT).unwrap();
        assert_eq!(back.width, 3);
        assert_eq!(back.height, 2);
        assert_eq!(back.pixels, new.pixels);
        assert_eq!(back.bytes, patch.length);
    }
}

#[test]
fn get_and_set_trainer_pic() {
    let db = PkmnapiDB::new(&pic_rom(), None).unwrap();
    // Where nothing but zeros stands, a picture without tiles is read.
    assert_eq!(
        db.get_trainer_pic(&1),
        Ok(Pic {
            width: 0,
            height: 0,
            pixels: vec![],
            bytes: 2
        })
    );
    same_picture(&db.get_trainer_pic(&2).unwrap(), 7, 7, 4);
    assert_eq!(
        db.get_trainer_pic(&3).unwrap_err(),
        Error::TrainerIDInvalid(3, 1, 2)
    );
    let pic = sample_pic(2, 2, 9);
    let stored = pic.encode(PicEncodingMethod::TWO(0)).unwrap();
    assert_eq!(
        db.set_trainer_pic(&2, &pic, PicEncodingMethod::TWO(0)),
        Ok(Patch {
            offset: 0x48000 + 0x5000,
            length: stored.len(),
            data: stored
        })
    );
    assert_eq!(
        db.set_trainer_pic(&0, &pic, PicEncodingMethod::TWO(0)),
        Err(Error::TrainerIDInvalid(0, 1, 2))
    );
}
