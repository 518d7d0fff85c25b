use pkmnapi::error::Error;
use pkmnapi::header::Header;
use pkmnapi::patch::Patch;
use pkmnapi::sav::{Sav, SavPlayerName};
use pkmnapi::string::ROMString;

fn sav() -> Vec<u8> {
    let mut sav = vec![0u8; 0x8000];
    sav[0x2598..0x2598 + 4].copy_from_slice(&[0x91, 0x84, 0x83, 0x50]);
    sav
}

#[test]
fn sav_new_asks_for_the_size_of_a_save_file() {
    assert!(Sav::new(&sav()).is_ok());
    assert_eq!(
        Sav::new(&vec![0u8; 0x7FFF]),
        Err(Error::SavWrongSize(0x8000, 0x7FFF))
    );
    assert_eq!(Sav::new(&vec![]), Err(Error::SavWrongSize(0x8000, 0)));
    assert_eq!(Sav::new(&sav()).unwrap().bytes(), &sav());
}

#[test]
fn sav_checksum_is_the_complement_of_the_sum() {
    let mut data = sav();
    // 0x91 + 0x84 + 0x83 + 0x50 = 0x1E8: the sum is 0xE8, its complement 0x17.
    let s = Sav::new(&data).unwrap();
    assert!(!s.verify_checksum());
    assert_eq!(
        s.generate_checksum(),
        Patch {
            offset: 0x3523,
            length: 1,
            data: vec![0x17]
        }
    );
    data[0x3523] = 0x17;
    assert!(Sav::new(&data).unwrap().verify_checksum());
    // What stands outside the main block does not count.
    data[0x2597] = 9;
    data[0x3524] = 9;
    assert!(Sav::new(&data).unwrap().verify_checksum());
    data[0x3522] = 1;
    assert!(!Sav::new(&data).unwrap().verify_checksum());
    assert_eq!(Sav::new(&data).unwrap().generate_checksum().data, vec![0x16]);
}

#[test]
fn sav_player_name() {
    let s = Sav::new(&sav()).unwrap();
    assert_eq!(
        s.get_player_name(),
        SavPlayerName {
            name: ROMString::from("RED").unwrap()
        }
    );
    let name = SavPlayerName {
        name: ROMString::from("GREEN").unwrap(),
    };
    assert_eq!(
        s.set_player_name(&name),
        Ok(Patch {
            offset: 0x2598,
            length: 11,
            data: vec![0x86, 0x91, 0x84, 0x84, 0x8D, 0x50, 0x50, 0x50, 0x50, 0x50, 0x50]
        })
    );
    let longest = SavPlayerName {
        name: ROMString::from("ABCDEFGHIJ").unwrap(),
    };
    assert_eq!(s.set_player_name(&longest).unwrap().data[10], 0x50);
    let long = SavPlayerName {
        name: ROMString::from("ABCDEFGHIJK").unwrap(),
    };
    assert_eq!(
        s.set_player_name(&long),
        Err(Error::SavPlayerNameWrongSize(10, 11))
    );
}

fn image_with_header() -> Vec<u8> {
    let mut rom = vec![0u8; 0x150];
    rom[0x100..0x104].copy_from_slice(&[0x00, 0xC3, 0x50, 0x01]);
    for (k, b) in rom[0x104..0x134].iter_mut().enumerate() {
        *b = k as u8;
    }
    rom[0x134..0x13F].copy_from_slice(b"POKEMON RED");
    rom[0x13F..0x143].copy_from_slice(&[0, 0, 0, 0]);
    rom[0x143] = 0x00;
    rom[0x144..0x146].copy_from_slice(b"01");
    rom[0x146] = 0x03;
    rom[0x147] = 0x13;
    rom[0x148] = 0x05;
    rom[0x149] = 0x03;
    rom[0x14A] = 0x01;
    rom[0x14B] = 0x33;
    rom[0x14C] = 0x00;
    rom[0x14D] = 0x20;
    rom[0x14E] = 0x91;
    rom[0x14F] = 0xE6;
    rom
}

#[test]
fn header_from_reads_every_field() {
    let header = Header::from(&image_with_header()).unwrap();
    assert_eq!(header.entry_point, vec![0x00, 0xC3, 0x50, 0x01]);
    assert_eq!(header.logo.len(), 48);
    assert_eq!(header.logo[47], 47);
    assert_eq!(header.title, b"POKEMON RED".to_vec());
    assert_eq!(header.manufacturer_code, vec![0, 0, 0, 0]);
    assert_eq!(header.cgb_flag, 0x00);
    assert_eq!(header.new_licensee_code, b"01".to_vec());
    assert_eq!(header.sgb_flag, 0x03);
    assert_eq!(header.cartridge_type, 0x13);
    assert_eq!(header.rom_size, 0x05);
    assert_eq!(header.ram_size, 0x03);
    assert_eq!(header.destination_code, 0x01);
    assert_eq!(header.old_licensee_code, 0x33);
    assert_eq!(header.mask_rom_version_number, 0x00);
    assert_eq!(header.header_checksum, 0x20);
    assert_eq!(header.global_checksum, 0x91E6);
}

#[test]
fn header_from_refuses_a_short_image() {
    assert_eq!(
        Header::from(&vec![0u8; 0x14F]),
        Err(Error::HeaderTooSmall)
    );
    assert_eq!(Header::from(&vec![]), Err(Error::HeaderTooSmall));
}

#[test]
fn header_checksum() {
    // The checksum of the header of the red version is 0x20.
    let header = Header::from(&image_with_header()).unwrap();
    assert!(header.verify_checksum());
    let mut other = image_with_header();
    other[0x134] = b'Q';
    assert!(!Header::from(&other).unwrap().verify_checksum());
    other[0x14D] = 0x1F;
    assert!(Header::from(&other).unwrap().verify_checksum());
}
