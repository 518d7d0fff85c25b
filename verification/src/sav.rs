//! The save file: a fixed-size buffer with a one-byte checksum over its main block.

use crate::bytes::copy_range;
use crate::error::Error;
use crate::header::byte_sum;
use crate::patch::Patch;
use crate::string::{text_part, ROMString, TERMINATOR};
use vstd::prelude::*;

verus! {

/// The size of a save file.
pub const SAV_SIZE: usize = 0x8000;

/// Where the block that the checksum covers begins.
pub const SAV_MAIN_START: usize = 0x2598;

/// Where the checksum stands: the block it covers ends here.
pub const SAV_CHECKSUM_OFFSET: usize = 0x3523;

/// Where the player's name stands.
pub const SAV_PLAYER_NAME_OFFSET: usize = 0x2598;

/// The width of the field that holds the player's name, terminator included.
pub const SAV_PLAYER_NAME_WIDTH: usize = 0x0B;

/// The checksum of a save file: the complement of the sum of its main
/// block, modulo 256.
pub open spec fn spec_sav_checksum(sav: Seq<u8>) -> int
    recommends
        sav.len() == SAV_SIZE,
{
    255 - byte_sum(sav.subrange(SAV_MAIN_START as int, SAV_CHECKSUM_OFFSET as int)) % 256
}

/// The name that a player's-name field holds.
pub open spec fn spec_sav_player_name(sav: Seq<u8>) -> Seq<u8>
    recommends
        sav.len() == SAV_SIZE,
{
    text_part(
        sav.subrange(
            SAV_PLAYER_NAME_OFFSET as int,
            SAV_PLAYER_NAME_OFFSET + SAV_PLAYER_NAME_WIDTH,
        ),
    )
}

/// `name`, padded with terminators to the width of the player's-name field.
pub open spec fn spec_sav_player_name_field(name: Seq<u8>) -> Seq<u8>
    recommends
        name.len() < SAV_PLAYER_NAME_WIDTH,
{
    crate::types::spec_padded_with(name, (SAV_PLAYER_NAME_WIDTH - name.len()) as nat, TERMINATOR)
}

/// The player's name in a save file.
#[derive(Debug, PartialEq)]
pub struct SavPlayerName {
    pub name: ROMString,
}

/// A save file.
#[derive(Debug, PartialEq)]
pub struct Sav {
    pub(crate) sav: Vec<u8>,
}

impl View for Sav {
    type V = Seq<u8>;

    closed spec fn view(&self) -> Seq<u8> {
        self.sav@
    }
}

impl Sav {
    #[verifier::type_invariant]
    spec fn well_formed(&self) -> bool {
        self.sav@.len() == SAV_SIZE
    }

    /// Takes `sav` as a save file. A buffer of any other size than `SAV_SIZE`
    /// is refused: `SavWrongSize` with the size expected and the size found.
    pub fn new(sav: &Vec<u8>) -> (r: Result<Sav, Error>)
        ensures
            match r {
                Ok(s) => sav@.len() == SAV_SIZE && s@ == sav@,
                Err(e) => sav@.len() != SAV_SIZE && e == Error::SavWrongSize(
                    SAV_SIZE,
                    sav@.len() as usize,
                ),
            },
    {
        if sav.len() != SAV_SIZE {
            return Err(Error::SavWrongSize(SAV_SIZE, sav.len()));
        }
        Ok(Sav { sav: sav.clone() })
    }

    /// The bytes of the save file.
    pub fn bytes(&self) -> (r: &Vec<u8>)
        ensures
            r@ == self@,
            r@.len() == SAV_SIZE,
    {
        proof {
            use_type_invariant(self);
        }
        &self.sav
    }

    fn checksum(&self) -> (r: u8)
        ensures
            r == spec_sav_checksum(self@),
    {
        proof {
            use_type_invariant(self);
        }
        let mut acc: u8 = 0;
        let mut i: usize = SAV_MAIN_START;
        let ghost block = self.sav@.subrange(SAV_MAIN_START as int, SAV_CHECKSUM_OFFSET as int);
        proof {
            assert(block.take(0) =~= Seq::<u8>::empty());
        }
        while i < SAV_CHECKSUM_OFFSET
            invariant
                SAV_MAIN_START <= i <= SAV_CHECKSUM_OFFSET,
                self.sav@.len() == SAV_SIZE,
                block == self.sav@.subrange(SAV_MAIN_START as int, SAV_CHECKSUM_OFFSET as int),
                acc == byte_sum(block.take(i - SAV_MAIN_START)) % 256,
            decreases SAV_CHECKSUM_OFFSET - i,
        {
            proof {
                assert(block.take(i + 1 - SAV_MAIN_START).drop_last() =~= block.take(
                    i - SAV_MAIN_START,
                ));
            }
            acc = acc.wrapping_add(self.sav[i]);
            i += 1;
        }
        proof {
            assert(block.take(SAV_CHECKSUM_OFFSET - SAV_MAIN_START) =~= block);
        }
        255 - acc
    }

    /// Whether the stored checksum is the one that the main block gives.
    pub fn verify_checksum(&self) -> (r: bool)
        ensures
            r == (self@[SAV_CHECKSUM_OFFSET as int] == spec_sav_checksum(self@)),
    {
        proof {
            use_type_invariant(self);
        }
        self.checksum() == self.sav[SAV_CHECKSUM_OFFSET]
    }

    /// The patch that stores the checksum that the main block gives.
    pub fn generate_checksum(&self) -> (p: Patch)
        ensures
            p.writes(SAV_CHECKSUM_OFFSET as int, seq![spec_sav_checksum(self@) as u8]),
    {
        let mut data: Vec<u8> = Vec::new();
        data.push(self.checksum());
        proof {
            assert(data@ =~= seq![spec_sav_checksum(self@) as u8]);
        }
        Patch::new(&SAV_CHECKSUM_OFFSET, &data)
    }

    /// The player's name: what its field holds before the first terminator.
    pub fn get_player_name(&self) -> (r: SavPlayerName)
        ensures
            r.name@ == spec_sav_player_name(self@),
    {
        proof {
            use_type_invariant(self);
        }
        let field = copy_range(
            &self.sav,
            SAV_PLAYER_NAME_OFFSET,
            SAV_PLAYER_NAME_OFFSET + SAV_PLAYER_NAME_WIDTH,
        );
        SavPlayerName { name: crate::types::name_of(&field) }
    }

    /// The patch that stores `player_name`, padded with terminators to the
    /// width of its field. A name that leaves no room for a terminator is
    /// refused: `SavPlayerNameWrongSize` with the longest name that fits and
    /// the length found.
    pub fn set_player_name(&self, player_name: &SavPlayerName) -> (r: Result<Patch, Error>)
        ensures
            match r {
                Ok(p) => player_name.name@.len() < SAV_PLAYER_NAME_WIDTH && p.writes(
                    SAV_PLAYER_NAME_OFFSET as int,
                    spec_sav_player_name_field(player_name.name@),
                ),
                Err(e) => player_name.name@.len() >= SAV_PLAYER_NAME_WIDTH && e
                    == Error::SavPlayerNameWrongSize(
                    (SAV_PLAYER_NAME_WIDTH - 1) as usize,
                    player_name.name@.len() as usize,
                ),
            },
    {
        let len = player_name.name.len();
        if len >= SAV_PLAYER_NAME_WIDTH {
            return Err(Error::SavPlayerNameWrongSize(SAV_PLAYER_NAME_WIDTH - 1, len));
        }
        let data = crate::types::padded(&player_name.name.value, SAV_PLAYER_NAME_WIDTH);
        Ok(Patch::new(&SAV_PLAYER_NAME_OFFSET, &data))
    }
}

/// Writing the generated checksum into a save file makes it consistent: in
/// the file that results, the stored checksum is the one that the main block
/// gives. This holds of every save file.
pub proof fn sav_checksum_patch_makes_consistent(sav: Seq<u8>)
    requires
        sav.len() == SAV_SIZE,
    ensures
        ({
            let fixed = sav.update(SAV_CHECKSUM_OFFSET as int, spec_sav_checksum(sav) as u8);
            fixed[SAV_CHECKSUM_OFFSET as int] == spec_sav_checksum(fixed)
        }),
{
    let fixed = sav.update(SAV_CHECKSUM_OFFSET as int, spec_sav_checksum(sav) as u8);
    assert(fixed.subrange(SAV_MAIN_START as int, SAV_CHECKSUM_OFFSET as int) =~= sav.subrange(
        SAV_MAIN_START as int,
        SAV_CHECKSUM_OFFSET as int,
    ));
}

} // verus!
