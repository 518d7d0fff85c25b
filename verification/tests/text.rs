use pkmnapi::error::Error;
use pkmnapi::hash::{fingerprint, hex_lower};
use pkmnapi::patch::{ips_file, Patch};
use pkmnapi::pics::PokemonPicFace;
use pkmnapi::string::{decode_byte, encode_char, ROMString};
use pkmnapi::types::{ItemName, MoveName, PokemonName, TrainerName, TypeName};

#[test]
fn encode_letters_and_digits() {
    assert_eq!(
        ROMString::from("ABC").unwrap().value,
        vec![0x80, 0x81, 0x82]
    );
    assert_eq!(
        ROMString::from("Zaz09").unwrap().value,
        vec![0x99, 0xA0, 0xB9, 0xF6, 0xFF]
    );
    assert_eq!(
        ROMString::from("NEW NAME").unwrap().value,
        vec![0x8D, 0x84, 0x96, 0x7F, 0x8D, 0x80, 0x8C, 0x84]
    );
    assert_eq!(ROMString::from("").unwrap().value, vec![]);
}

#[test]
fn encode_punctuation_and_breaks() {
    assert_eq!(
        ROMString::from("():;[]é'-?!.♂¥×/,♀").unwrap().value,
        vec![
            0x9A, 0x9B, 0x9C, 0x9D, 0x9E, 0x9F, 0xBA, 0xE0, 0xE3, 0xE6, 0xE7, 0xE8, 0xEF, 0xF0,
            0xF1, 0xF3, 0xF4, 0xF5
        ]
    );
    assert_eq!(
        ROMString::from("a\rb\nc\u{C}d").unwrap().value,
        vec![0xA0, 0x4E, 0xA1, 0x4F, 0xA2, 0x51, 0xA3]
    );
}

#[test]
fn encode_refuses_the_first_character_without_a_byte() {
    assert_eq!(
        ROMString::from("AB@C#"),
        Err(Error::UnsupportedCharacter('@'))
    );
    assert_eq!(
        ROMString::from("\u{FFFD}"),
        Err(Error::UnsupportedCharacter('\u{FFFD}'))
    );
    assert_eq!(ROMString::from("ü"), Err(Error::UnsupportedCharacter('ü')));
}

#[test]
fn decode_stops_at_the_terminator() {
    assert_eq!(
        ROMString::new(&[0x80, 0x81, 0x82, 0x50, 0x83]).to_string(),
        "ABC"
    );
    assert_eq!(ROMString::new(&[0x50, 0x80]).to_string(), "");
    assert_eq!(ROMString::new(&[0x80, 0x81]).to_string(), "AB");
    assert_eq!(ROMString::new(&[]).to_string(), "");
}

#[test]
fn decode_shows_an_unknown_byte_as_unknown() {
    assert_eq!(
        ROMString::new(&[0x80, 0x00, 0x81]).to_string(),
        "A\u{FFFD}B"
    );
    assert_eq!(decode_byte(0x50), '\u{FFFD}');
    assert_eq!(decode_byte(0xF2), '\u{FFFD}');
}

#[test]
fn decode_inverts_encode() {
    for text in [
        "",
        "BULBASAUR",
        "Mr. Mime's 2nd-best friend?!",
        "line\nbreak\rnext\u{C}page",
        "NIDORAN♀ × NIDORAN♂ / ¥100, [é];(:)",
    ] {
        assert_eq!(ROMString::from(text).unwrap().to_string(), text);
    }
}

#[test]
fn every_byte_with_a_character_encodes_back() {
    let mut known = 0;
    for b in 0..=255u8 {
        let c = decode_byte(b);
        if c != '\u{FFFD}' {
            assert_eq!(encode_char(c), Some(b));
            known += 1;
        } else {
            assert_eq!(encode_char(c), None);
        }
    }
    assert_eq!(known, 26 + 26 + 10 + 22);
}

#[test]
fn rom_string_keeps_its_bytes() {
    let s = ROMString::new(&[1, 2, 0x50, 3]);
    assert_eq!(s.value, vec![1, 2, 0x50, 3]);
    assert_eq!(s.len(), 4);
    assert_eq!(s.clone(), s);
}

#[test]
fn names_end_at_the_terminator() {
    let rom = vec![0x80, 0x81, 0x82, 0x50];
    assert_eq!(
        TypeName::from(&rom),
        TypeName {
            name: ROMString::from("ABC").unwrap()
        }
    );
    assert_eq!(
        PokemonName::from(&rom),
        PokemonName {
            name: ROMString::from("ABC").unwrap()
        }
    );
    assert_eq!(
        MoveName::from(&rom),
        MoveName {
            name: ROMString::from("ABC").unwrap()
        }
    );
    assert_eq!(
        TrainerName::from(&rom),
        TrainerName {
            name: ROMString::from("ABC").unwrap()
        }
    );
    assert_eq!(
        ItemName::from(&rom),
        ItemName {
            name: ROMString::from("ABC").unwrap()
        }
    );
    assert_eq!(
        TypeName::from(&vec![0x80, 0x81]).name.value,
        vec![0x80, 0x81]
    );
    assert_eq!(TypeName::from(&vec![0x50]).name.value, vec![]);
}

#[test]
fn names_to_raw() {
    let raw = vec![0x80, 0x81, 0x82];
    let name = ROMString::from("ABC").unwrap();
    assert_eq!(TypeName { name: name.clone() }.to_raw(), raw);
    assert_eq!(PokemonName { name: name.clone() }.to_raw(), raw);
    assert_eq!(MoveName { name: name.clone() }.to_raw(), raw);
    assert_eq!(TrainerName { name: name.clone() }.to_raw(), raw);
    assert_eq!(ItemName { name }.to_raw(), raw);
}

#[test]
fn patch_new_counts_its_data() {
    assert_eq!(
        Patch::new(&0x1234, &vec![1, 2, 3]),
        Patch {
            offset: 0x1234,
            length: 3,
            data: vec![1, 2, 3]
        }
    );
    assert_eq!(Patch::new(&0, &vec![]).length, 0);
}

#[test]
fn pic_face_from_text() {
    assert_eq!(
        PokemonPicFace::from(Some("front".to_string())),
        PokemonPicFace::FRONT
    );
    assert_eq!(
        PokemonPicFace::from(Some("back".to_string())),
        PokemonPicFace::BACK
    );
    assert_eq!(
        PokemonPicFace::from(Some("BACK".to_string())),
        PokemonPicFace::BACK
    );
    assert_eq!(
        PokemonPicFace::from(Some("bAcK".to_string())),
        PokemonPicFace::BACK
    );
    assert_eq!(
        PokemonPicFace::from(Some("UnKnOwN".to_string())),
        PokemonPicFace::FRONT
    );
    assert_eq!(
        PokemonPicFace::from(Some("backs".to_string())),
        PokemonPicFace::FRONT
    );
    assert_eq!(PokemonPicFace::from(None), PokemonPicFace::FRONT);
}

#[test]
fn patch_to_raw_is_a_record_of_a_patch_file() {
    assert_eq!(
        Patch::new(&0x012345, &vec![0xAA, 0xBB, 0xCC]).to_raw(),
        Some(vec![0x01, 0x23, 0x45, 0x00, 0x03, 0xAA, 0xBB, 0xCC])
    );
    assert_eq!(
        Patch::new(&0xFFFFFF, &vec![0; 0x0102]).to_raw().unwrap()[..5],
        [0xFF, 0xFF, 0xFF, 0x01, 0x02]
    );
    assert_eq!(Patch::new(&0x1000000, &vec![1]).to_raw(), None);
    assert_eq!(Patch::new(&0, &vec![0; 0x10000]).to_raw(), None);
    let odd = Patch {
        offset: 0,
        length: 2,
        data: vec![1],
    };
    assert_eq!(odd.to_raw(), None);
}

#[test]
fn ips_file_frames_the_records() {
    assert_eq!(ips_file(&vec![]), b"PATCHEOF".to_vec());
    let a = Patch::new(&1, &vec![9]).to_raw().unwrap();
    let b = Patch::new(&0x0200, &vec![7, 8]).to_raw().unwrap();
    assert_eq!(
        ips_file(&vec![a, b]),
        vec![
            b'P', b'A', b'T', b'C', b'H', 0, 0, 1, 0, 1, 9, 0, 2, 0, 0, 2, 7, 8, b'E', b'O', b'F'
        ]
    );
}

#[test]
fn hex_lower_writes_two_digits_for_each_byte() {
    assert_eq!(hex_lower(&vec![]), "");
    assert_eq!(hex_lower(&vec![0x00, 0x0F, 0xA0, 0xFF, 0x5C]), "000fa0ff5c");
}

#[test]
fn fingerprint_is_the_md5_in_hex() {
    assert_eq!(fingerprint(&vec![]), "d41d8cd98f00b204e9800998ecf8427e");
    assert_eq!(
        fingerprint(&b"abc".to_vec()),
        "900150983cd24fb0d6963f7d28e17f72"
    );
}
