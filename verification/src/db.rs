//! The database: the image, its header and fingerprint, and the checks on the
//! image as a whole.

use crate::bytes::{append_range, copy_range};
use crate::error::Error;
use crate::hash::{fingerprint, spec_fingerprint};
use crate::header::{byte_sum, spec_u16_be, Header, GLOBAL_CHECKSUM_OFFSET, HEADER_END};
use crate::patch::Patch;
use crate::sav::Sav;
use vstd::prelude::*;
use vstd::string::StringExecFns;

verus! {

/// The size of a bank's half: every table's place is a multiple of it plus
/// an offset.
pub const ROM_PAGE: usize = 0x2000;

/// The size of the image that the tables' places belong to.
pub const ROM_SIZE: usize = 0x100000;

/// The global checksum of `rom`: the sum of all its bytes but the two of the
/// checksum field, modulo 2^16.
pub open spec fn spec_global_checksum(rom: Seq<u8>) -> int
    recommends
        rom.len() >= HEADER_END,
{
    (byte_sum(rom.subrange(0, GLOBAL_CHECKSUM_OFFSET as int)) + byte_sum(
        rom.subrange(GLOBAL_CHECKSUM_OFFSET + 2, rom.len() as int),
    )) % 0x10000
}

/// The global checksum that `rom` stores in its header.
pub open spec fn spec_stored_checksum(rom: Seq<u8>) -> int
    recommends
        rom.len() >= HEADER_END,
{
    spec_u16_be(rom[GLOBAL_CHECKSUM_OFFSET as int], rom[GLOBAL_CHECKSUM_OFFSET + 1])
}

/// The two bytes of `spec_global_checksum(rom)`, high byte first.
pub open spec fn spec_checksum_bytes(rom: Seq<u8>) -> Seq<u8> {
    seq![(spec_global_checksum(rom) / 256) as u8, (spec_global_checksum(rom) % 256) as u8]
}

/// `rom` with `data` written over it at `offset`.
pub open spec fn spec_written(rom: Seq<u8>, offset: int, data: Seq<u8>) -> Seq<u8>
    recommends
        0 <= offset,
        offset + data.len() <= rom.len(),
{
    rom.subrange(0, offset) + data + rom.subrange(offset + data.len(), rom.len() as int)
}

/// The database over one image.
///
/// The image holds at least `ROM_SIZE` bytes, so every table's place is
/// inside it. The header and the fingerprint are those of the image that the
/// database was made from; a patch applied later changes the image alone.
#[derive(Debug)]
pub struct PkmnapiDB {
    rom: Vec<u8>,
    sav: Option<Sav>,
    hash: String,
    header: Header,
}

impl View for PkmnapiDB {
    type V = Seq<u8>;

    /// The bytes of the image.
    closed spec fn view(&self) -> Seq<u8> {
        self.rom@
    }
}

impl PkmnapiDB {
    #[verifier::type_invariant]
    spec fn well_formed(&self) -> bool {
        self.rom@.len() >= ROM_SIZE
    }

    /// The header that the database holds.
    pub closed spec fn spec_header(&self) -> Header {
        self.header
    }

    /// The fingerprint that the database holds.
    pub closed spec fn spec_hash(&self) -> Seq<char> {
        self.hash@
    }

    /// The save file that the database holds, if any.
    pub closed spec fn spec_sav(&self) -> Option<Sav> {
        self.sav
    }

    /// Makes the database of `rom`, with the save file `sav` if one is given.
    ///
    /// An image without room for a header is refused with `HeaderTooSmall`; a
    /// longer one that is shorter than `ROM_SIZE` with `RomWrongSize`; a save
    /// file of the wrong size with `SavWrongSize`. The first of these that
    /// applies is returned.
    pub fn new(rom: &Vec<u8>, sav: Option<Vec<u8>>) -> (r: Result<PkmnapiDB, Error>)
        ensures
            match r {
                Ok(db) => {
                    &&& rom@.len() >= ROM_SIZE
                    &&& db@ == rom@
                    &&& db.spec_header().is_header_of(rom@)
                    &&& db.spec_hash() == spec_fingerprint(rom@)
                    &&& match sav {
                        Some(s) => s@.len() == crate::sav::SAV_SIZE && db.spec_sav() is Some
                            && db.spec_sav()->Some_0@ == s@,
                        None => db.spec_sav() is None,
                    }
                },
                Err(e) => if rom@.len() < HEADER_END {
                    e == Error::HeaderTooSmall
                } else if rom@.len() < ROM_SIZE {
                    e == Error::RomWrongSize(ROM_SIZE, rom@.len() as usize)
                } else {
                    sav matches Some(s) && s@.len() != crate::sav::SAV_SIZE && e
                        == Error::SavWrongSize(crate::sav::SAV_SIZE, s@.len() as usize)
                },
            },
    {
        let hash = fingerprint(rom);
        let header = match Header::from(rom) {
            Ok(header) => header,
            Err(e) => {
                return Err(e);
            },
        };
        if rom.len() < ROM_SIZE {
            return Err(Error::RomWrongSize(ROM_SIZE, rom.len()));
        }
        let sav = match sav {
            Some(sav) => match Sav::new(&sav) {
                Ok(sav) => Some(sav),
                Err(e) => {
                    return Err(e);
                },
            },
            None => None,
        };
        Ok(PkmnapiDB { rom: rom.clone(), sav, hash, header })
    }

    /// The image.
    pub fn rom(&self) -> (r: &Vec<u8>)
        ensures
            r@ == self@,
            r@.len() >= ROM_SIZE,
    {
        proof {
            use_type_invariant(self);
        }
        &self.rom
    }

    /// The header of the image that the database was made from.
    pub fn header(&self) -> (r: &Header)
        ensures
            *r == self.spec_header(),
    {
        &self.header
    }

    /// The fingerprint of the image that the database was made from.
    pub fn hash(&self) -> (r: &String)
        ensures
            r@ == self.spec_hash(),
    {
        &self.hash
    }

    /// The save file, if the database was made with one.
    pub fn sav(&self) -> (r: &Option<Sav>)
        ensures
            *r == self.spec_sav(),
    {
        &self.sav
    }

    fn checksum(&self) -> (r: u16)
        ensures
            r == spec_global_checksum(self@),
    {
        proof {
            use_type_invariant(self);
        }
        let len = self.rom.len();
        let a = sum16(&self.rom, 0, GLOBAL_CHECKSUM_OFFSET);
        let b = sum16(&self.rom, GLOBAL_CHECKSUM_OFFSET + 2, len);
        a.wrapping_add(b)
    }

    /// Whether the checksum in the header that the database holds is the one
    /// that the image gives.
    pub fn verify_checksum(&self) -> (r: bool)
        ensures
            r == (spec_global_checksum(self@) == self.spec_header().global_checksum),
    {
        self.checksum() == self.header.global_checksum
    }

    /// The patch that stores in the image the checksum that the image gives.
    pub fn generate_checksum(&self) -> (p: Patch)
        ensures
            p.writes(GLOBAL_CHECKSUM_OFFSET as int, spec_checksum_bytes(self@)),
    {
        let checksum = self.checksum();
        let mut data: Vec<u8> = Vec::new();
        data.push((checksum / 256) as u8);
        data.push((checksum % 256) as u8);
        proof {
            assert(data@ =~= spec_checksum_bytes(self@));
        }
        Patch::new(&GLOBAL_CHECKSUM_OFFSET, &data)
    }

    /// Whether `hash` is the fingerprint that the database holds.
    pub fn verify_hash(&self, hash: &str) -> (r: bool)
        ensures
            r == (self.spec_hash() == hash@),
    {
        let other = String::from_str(hash);
        self.hash == other
    }

    /// Applies `patch` to the image: the bytes that it replaces give way to
    /// its data. The header and the fingerprint that the database holds stay
    /// as they were.
    pub fn apply_patch(&mut self, patch: &Patch)
        requires
            patch.wf(),
            patch.offset + patch.length <= old(self)@.len(),
        ensures
            final(self)@ == patch.apply_to(old(self)@),
            final(self)@.len() == old(self)@.len(),
            final(self).spec_header() == old(self).spec_header(),
            final(self).spec_hash() == old(self).spec_hash(),
            final(self).spec_sav() == old(self).spec_sav(),
    {
        proof {
            use_type_invariant(&*self);
        }
        let len = self.rom.len();
        let mut out = copy_range(&self.rom, 0, patch.offset);
        append_range(&mut out, &patch.data, 0, patch.length);
        append_range(&mut out, &self.rom, patch.offset + patch.length, len);
        proof {
            assert(patch.data@.subrange(0, patch.length as int) =~= patch.data@);
        }
        self.rom = out;
    }
}

/// The sum of `v[start..end]`, modulo 2^16.
fn sum16(v: &Vec<u8>, start: usize, end: usize) -> (r: u16)
    requires
        start <= end <= v@.len(),
    ensures
        r == byte_sum(v@.subrange(start as int, end as int)) % 0x10000,
{
    let mut acc: u16 = 0;
    let mut i: usize = start;
    proof {
        assert(v@.subrange(start as int, start as int) =~= Seq::<u8>::empty());
    }
    while i < end
        invariant
            start <= i <= end <= v@.len(),
            acc == byte_sum(v@.subrange(start as int, i as int)) % 0x10000,
        decreases end - i,
    {
        proof {
            assert(v@.subrange(start as int, i + 1).drop_last() =~= v@.subrange(
                start as int,
                i as int,
            ));
        }
        acc = acc.wrapping_add(v[i] as u16);
        i += 1;
    }
    acc
}

/// Writing the generated checksum into an image makes it consistent: in the
/// image that results, the stored checksum is the one that the image gives.
/// This holds of every image with room for a header.
pub proof fn checksum_patch_makes_consistent(rom: Seq<u8>)
    requires
        rom.len() >= HEADER_END,
    ensures
        ({
            let fixed = spec_written(rom, GLOBAL_CHECKSUM_OFFSET as int, spec_checksum_bytes(rom));
            &&& fixed.len() == rom.len()
            &&& spec_global_checksum(fixed) == spec_stored_checksum(fixed)
        }),
{
    let fixed = spec_written(rom, GLOBAL_CHECKSUM_OFFSET as int, spec_checksum_bytes(rom));
    assert(fixed.subrange(0, GLOBAL_CHECKSUM_OFFSET as int) =~= rom.subrange(
        0,
        GLOBAL_CHECKSUM_OFFSET as int,
    ));
    assert(fixed.subrange(GLOBAL_CHECKSUM_OFFSET + 2, fixed.len() as int) =~= rom.subrange(
        GLOBAL_CHECKSUM_OFFSET + 2,
        rom.len() as int,
    ));
    let c = spec_global_checksum(rom);
    assert(0 <= c < 0x10000);
    assert(fixed[GLOBAL_CHECKSUM_OFFSET as int] == (c / 256) as u8);
    assert(fixed[GLOBAL_CHECKSUM_OFFSET + 1] == (c % 256) as u8);
}

} // verus!
