use pkmnapi::error::Error;
use pkmnapi::pic::{Pic, PicEncodingMethod};

fn methods() -> Vec<PicEncodingMethod> {
    vec![
        PicEncodingMethod::ONE(0),
        PicEncodingMethod::ONE(1),
        PicEncodingMethod::TWO(0),
        PicEncodingMethod::TWO(1),
        PicEncodingMethod::THREE(0),
        PicEncodingMethod::THREE(1),
    ]
}

fn round_trip(width: u8, height: u8, pixels: Vec<u8>) {
    for method in methods() {
        let pic = Pic {
            width,
            height,
            pixels: pixels.clone(),
            bytes: 0,
        };
        let stored = pic.encode(method).unwrap();
        let back = Pic::new(&stored).unwrap();
        assert_eq!(back.width, width);
        assert_eq!(back.height, height);
        assert_eq!(back.pixels, pixels);
        assert_eq!(back.bytes, stored.len());
    }
}

#[test]
fn pic_round_trip_all_zero() {
    round_trip(1, 1, vec![0; 64]);
    round_trip(2, 3, vec![0; 2 * 8 * 3 * 8]);
}

#[test]
fn pic_round_trip_single_tile() {
    let pixels: Vec<u8> = (0..64).map(|i| ((i * 7 + i / 8) % 4) as u8).collect();
    round_trip(1, 1, pixels);
}

#[test]
fn pic_round_trip_chessboard() {
    let width = 2usize;
    let height = 2usize;
    let pixels: Vec<u8> = (0..(width * 8 * height * 8))
        .map(|i| {
            let x = i % (width * 8);
            let y = i / (width * 8);
            if (x + y) % 2 == 0 {
                3
            } else {
                0
            }
        })
        .collect();
    round_trip(2, 2, pixels);
}

#[test]
fn pic_round_trip_all_three() {
    round_trip(1, 2, vec![3; 128]);
}

#[test]
fn pic_round_trip_long_runs() {
    let mut pixels = vec![0u8; 7 * 8 * 7 * 8];
    pixels[0] = 1;
    pixels[1000] = 2;
    pixels[3135] = 3;
    round_trip(7, 7, pixels);
}

#[test]
fn pic_round_trip_largest() {
    let pixels: Vec<u8> = (0..(120 * 120))
        .map(|i: usize| ((i / 3 + i / 121) % 4) as u8)
        .collect();
    round_trip(15, 15, pixels);
}

#[test]
fn pic_round_trip_without_tiles() {
    round_trip(0, 0, vec![]);
    round_trip(0, 5, vec![]);
}

#[test]
fn pic_encode_all_zero_tile_bytes() {
    // One tile, low plane first, both planes empty: the size, then for each
    // plane a run of 32 pairs, written as 11110 and 00001.
    let pic = Pic {
        width: 1,
        height: 1,
        pixels: vec![0; 64],
        bytes: 0,
    };
    let stored = pic.encode(PicEncodingMethod::ONE(0)).unwrap();
    // bits: 0001 0001 | 0 0 11110 0 | 0001 0 0 11 | 110 00001
    assert_eq!(stored, vec![0x11, 0x3C, 0x13, 0xC1]);
}

#[test]
fn pic_decode_known_bytes() {
    let pic = Pic::new(&vec![0x11, 0x3C, 0x13, 0xC1, 0xAB, 0xCD]).unwrap();
    assert_eq!(pic.width, 1);
    assert_eq!(pic.height, 1);
    assert_eq!(pic.pixels, vec![0u8; 64]);
    assert_eq!(pic.bytes, 4);
}

#[test]
fn pic_decode_first_column_set() {
    // One tile whose first plane holds the pair 11 in its first place and
    // is empty after it; the second plane is empty. Told as changes along the
    // row, the first row of the low plane is set from its first bit to its
    // last.
    // bits: 0001 0001 | 0 | 1 | 11 | 00 | 11110 00000 (a run of 31) | 0 | 0 | 11110 00001
    let bits = "00010001".to_string() + "0" + "1" + "11" + "00" + "1111000000" + "0" + "0"
        + "1111000001";
    let mut bytes = vec![];
    let padded = format!("{:0<40}", bits);
    for chunk in padded.as_bytes().chunks(8) {
        let mut b = 0u8;
        for (k, c) in chunk.iter().enumerate() {
            if *c == b'1' {
                b |= 0x80 >> k;
            }
        }
        bytes.push(b);
    }
    let pic = Pic::new(&bytes).unwrap();
    let mut expected = vec![0u8; 64];
    for x in 0..8 {
        expected[x] = if x == 0 { 1 } else { 0 };
    }
    // pair 11 at columns 0 and 1 of row 0: bit 0 set, bit 1 set; as changes:
    // column 0 becomes 1, column 1 changes back to 0.
    assert_eq!(pic.pixels, expected);
}

#[test]
fn pic_new_refuses_short_data() {
    assert_eq!(Pic::new(&vec![]), Err(Error::PicCouldNotRead));
    assert_eq!(Pic::new(&vec![0x11]), Err(Error::PicCouldNotRead));
    // A tile is announced, and the bits end inside its first plane.
    assert_eq!(Pic::new(&vec![0x11, 0x40]), Err(Error::PicCouldNotRead));
}

#[test]
fn pic_encode_refuses_what_cannot_be_stored() {
    let wrong_len = Pic {
        width: 1,
        height: 1,
        pixels: vec![0; 63],
        bytes: 0,
    };
    assert_eq!(
        wrong_len.encode(PicEncodingMethod::ONE(0)),
        Err(Error::PicWrongSize)
    );
    let too_wide = Pic {
        width: 16,
        height: 1,
        pixels: vec![0; 16 * 64],
        bytes: 0,
    };
    assert_eq!(
        too_wide.encode(PicEncodingMethod::TWO(0)),
        Err(Error::PicWrongSize)
    );
    let mut pixels = vec![0u8; 64];
    pixels[10] = 4;
    let bad_pixel = Pic {
        width: 1,
        height: 1,
        pixels,
        bytes: 0,
    };
    assert_eq!(
        bad_pixel.encode(PicEncodingMethod::THREE(1)),
        Err(Error::PicWrongSize)
    );
}
