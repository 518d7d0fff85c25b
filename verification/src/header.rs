//! The cartridge header: the fixed block at `0x100..0x150` of the image.

use crate::bytes::copy_range;
use crate::error::Error;
use vstd::prelude::*;

verus! {

/// Where the header begins.
pub const HEADER_START: usize = 0x100;

/// Where the header ends: the smallest image that holds one.
pub const HEADER_END: usize = 0x150;

/// Where the two bytes of the global checksum stand, high byte first.
pub const GLOBAL_CHECKSUM_OFFSET: usize = 0x14E;

/// The 16-bit value whose high byte is `hi` and whose low byte is `lo`.
pub open spec fn spec_u16_be(hi: u8, lo: u8) -> int {
    256 * (hi as int) + lo as int
}

/// The sum of the bytes of `s`.
pub open spec fn byte_sum(s: Seq<u8>) -> int
    decreases s.len(),
{
    if s.len() == 0 {
        0
    } else {
        byte_sum(s.drop_last()) + s.last() as int
    }
}

/// The header checksum of the bytes `0x134..0x14D`: starting from zero, each
/// byte and one more are taken away, modulo 256.
pub open spec fn spec_header_checksum(s: Seq<u8>) -> int {
    (-(byte_sum(s) + s.len())) % 256
}

/// The decoded header.
#[derive(Debug, PartialEq)]
pub struct Header {
    pub entry_point: Vec<u8>,
    pub logo: Vec<u8>,
    pub title: Vec<u8>,
    pub manufacturer_code: Vec<u8>,
    pub cgb_flag: u8,
    pub new_licensee_code: Vec<u8>,
    pub sgb_flag: u8,
    pub cartridge_type: u8,
    pub rom_size: u8,
    pub ram_size: u8,
    pub destination_code: u8,
    pub old_licensee_code: u8,
    pub mask_rom_version_number: u8,
    pub header_checksum: u8,
    pub global_checksum: u16,
}

impl Header {
    /// Whether the header holds what stands at `0x100..0x150` of `rom`.
    pub open spec fn is_header_of(&self, rom: Seq<u8>) -> bool {
        &&& rom.len() >= HEADER_END
        &&& self.entry_point@ == rom.subrange(0x100, 0x104)
        &&& self.logo@ == rom.subrange(0x104, 0x134)
        &&& self.title@ == rom.subrange(0x134, 0x13F)
        &&& self.manufacturer_code@ == rom.subrange(0x13F, 0x143)
        &&& self.cgb_flag == rom[0x143]
        &&& self.new_licensee_code@ == rom.subrange(0x144, 0x146)
        &&& self.sgb_flag == rom[0x146]
        &&& self.cartridge_type == rom[0x147]
        &&& self.rom_size == rom[0x148]
        &&& self.ram_size == rom[0x149]
        &&& self.destination_code == rom[0x14A]
        &&& self.old_licensee_code == rom[0x14B]
        &&& self.mask_rom_version_number == rom[0x14C]
        &&& self.header_checksum == rom[0x14D]
        &&& self.global_checksum == spec_u16_be(rom[0x14E], rom[0x14F])
    }

    /// The bytes `0x134..0x14D` as the header holds them: what the header
    /// checksum covers.
    pub open spec fn checksummed(&self) -> Seq<u8> {
        self.title@ + self.manufacturer_code@ + seq![self.cgb_flag] + self.new_licensee_code@
            + seq![
            self.sgb_flag,
            self.cartridge_type,
            self.rom_size,
            self.ram_size,
            self.destination_code,
            self.old_licensee_code,
            self.mask_rom_version_number,
        ]
    }

    /// Parses the header of `rom`. An image shorter than `0x150` bytes has
    /// none: `HeaderTooSmall`.
    pub fn from(rom: &Vec<u8>) -> (r: Result<Header, Error>)
        ensures
            match r {
                Ok(h) => h.is_header_of(rom@),
                Err(e) => rom@.len() < HEADER_END && e == Error::HeaderTooSmall,
            },
    {
        if rom.len() < HEADER_END {
            return Err(Error::HeaderTooSmall);
        }
        let hi = rom[0x14E] as u16;
        let lo = rom[0x14F] as u16;
        Ok(
            Header {
                entry_point: copy_range(rom, 0x100, 0x104),
                logo: copy_range(rom, 0x104, 0x134),
                title: copy_range(rom, 0x134, 0x13F),
                manufacturer_code: copy_range(rom, 0x13F, 0x143),
                cgb_flag: rom[0x143],
                new_licensee_code: copy_range(rom, 0x144, 0x146),
                sgb_flag: rom[0x146],
                cartridge_type: rom[0x147],
                rom_size: rom[0x148],
                ram_size: rom[0x149],
                destination_code: rom[0x14A],
                old_licensee_code: rom[0x14B],
                mask_rom_version_number: rom[0x14C],
                header_checksum: rom[0x14D],
                global_checksum: hi * 256 + lo,
            },
        )
    }

    /// Whether the stored header checksum is the one that the header's bytes give.
    #[verifier::rlimit(50)]
    pub fn verify_checksum(&self) -> (r: bool)
        ensures
            r == (self.header_checksum == spec_header_checksum(self.checksummed())),
    {
        let mut acc: u8 = 0;
        acc = fold_header_checksum(acc, &self.title, Ghost(Seq::empty()));
        acc = fold_header_checksum(acc, &self.manufacturer_code, Ghost(self.title@));
        let ghost s2 = self.title@ + self.manufacturer_code@;
        acc = step_header_checksum(acc, self.cgb_flag, Ghost(s2));
        let ghost s3 = s2.push(self.cgb_flag);
        acc = fold_header_checksum(acc, &self.new_licensee_code, Ghost(s3));
        let ghost s4 = s3 + self.new_licensee_code@;
        acc = step_header_checksum(acc, self.sgb_flag, Ghost(s4));
        acc = step_header_checksum(acc, self.cartridge_type, Ghost(s4.push(self.sgb_flag)));
        let ghost s5 = s4.push(self.sgb_flag).push(self.cartridge_type);
        acc = step_header_checksum(acc, self.rom_size, Ghost(s5));
        acc = step_header_checksum(acc, self.ram_size, Ghost(s5.push(self.rom_size)));
        let ghost s6 = s5.push(self.rom_size).push(self.ram_size);
        acc = step_header_checksum(acc, self.destination_code, Ghost(s6));
        acc = step_header_checksum(
            acc,
            self.old_licensee_code,
            Ghost(s6.push(self.destination_code)),
        );
        let ghost s7 = s6.push(self.destination_code).push(self.old_licensee_code);
        acc = step_header_checksum(acc, self.mask_rom_version_number, Ghost(s7));
        proof {
            assert(s7.push(self.mask_rom_version_number) =~= self.checksummed());
        }
        acc == self.header_checksum
    }
}

/// One step of the header checksum: `acc`, the checksum of `done`, becomes
/// the checksum of `done` followed by `b`.
fn step_header_checksum(acc: u8, b: u8, Ghost(done): Ghost<Seq<u8>>) -> (r: u8)
    requires
        acc == spec_header_checksum(done),
    ensures
        r == spec_header_checksum(done.push(b)),
{
    proof {
        assert(done.push(b).drop_last() =~= done);
    }
    acc.wrapping_sub(b).wrapping_sub(1)
}

/// The header checksum of `done` followed by `v`, from that of `done`.
fn fold_header_checksum(acc: u8, v: &Vec<u8>, Ghost(done): Ghost<Seq<u8>>) -> (r: u8)
    requires
        acc == spec_header_checksum(done),
    ensures
        r == spec_header_checksum(done + v@),
{
    let mut acc = acc;
    let mut i: usize = 0;
    proof {
        assert(done + v@.take(0) =~= done);
    }
    while i < v.len()
        invariant
            i <= v@.len(),
            acc == spec_header_checksum(done + v@.take(i as int)),
        decreases v@.len() - i,
    {
        acc = step_header_checksum(acc, v[i], Ghost(done + v@.take(i as int)));
        proof {
            assert((done + v@.take(i as int)).push(v@[i as int]) =~= done + v@.take(i + 1));
        }
        i += 1;
    }
    proof {
        assert(v@.take(v@.len() as int) =~= v@);
    }
    acc
}

} // verus!
