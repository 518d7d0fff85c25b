//! The names that the game offers for the player and for the rival.
//!
//! Each of the two lists stands as the heading of its menu and the names, a
//! line break before each name, closed by a terminator. Further on, the two
//! lists stand once more, with a terminator in place of each line break.

use crate::bytes::{
    append_range, copy_range, find_byte, first_index_of, lemma_first_index_of,
};
use crate::db::{PkmnapiDB, ROM_PAGE};
use crate::error::Error;
use crate::names::patch_is;
use crate::patch::Patch;
use crate::string::{ROMString, TERMINATOR};
use vstd::prelude::*;

verus! {

/// Where the two lists stand as the menus show them.
pub const PLAYER_NAMES: usize = ROM_PAGE * 0x03 + 0x0AA8;

/// Where the two lists stand once more.
pub const PLAYER_NAMES_COPY: usize = ROM_PAGE * 0x03 + 0x0AF2;

/// The byte that stands before each name of a list.
pub const NAME_BREAK: u8 = 0x4E;

/// The heading of a list: "NEW NAME".
pub open spec fn spec_heading() -> Seq<u8> {
    seq![0x8Du8, 0x84, 0x96, 0x7F, 0x8D, 0x80, 0x8C, 0x84]
}

/// The names for the player and for the rival.
#[derive(Debug, PartialEq)]
pub struct PlayerNames {
    pub player: Vec<ROMString>,
    pub rival: Vec<ROMString>,
}

/// The names for the player and for the rival as plain values.
pub struct PlayerNamesView {
    pub player: Seq<Seq<u8>>,
    pub rival: Seq<Seq<u8>>,
}

/// The names in `names` as plain values.
pub open spec fn names_view(names: Seq<ROMString>) -> Seq<Seq<u8>> {
    names.map_values(|n: ROMString| n@)
}

impl View for PlayerNames {
    type V = PlayerNamesView;

    open spec fn view(&self) -> PlayerNamesView {
        PlayerNamesView { player: names_view(self.player@), rival: names_view(self.rival@) }
    }
}

/// The parts of `s` between its bytes `separator`.
pub open spec fn spec_split(s: Seq<u8>, separator: u8) -> Seq<Seq<u8>>
    decreases s.len(),
{
    match first_index_of(s, separator) {
        None => seq![s],
        Some(i) => if 0 <= i < s.len() {
            seq![s.take(i)] + spec_split(s.skip(i + 1), separator)
        } else {
            seq![s]
        },
    }
}

/// The bytes of the list that begins at `at`: up to its terminator, or the
/// end of the image.
pub open spec fn spec_list_run(rom: Seq<u8>, at: int) -> Seq<u8> {
    match first_index_of(rom.skip(at), TERMINATOR) {
        Some(i) => rom.subrange(at, at + i),
        None => rom.skip(at),
    }
}

/// The names of the list that begins at `at`: the parts of the list between
/// its line breaks, but for the first, which is the heading.
pub open spec fn spec_list_names(rom: Seq<u8>, at: int) -> Seq<Seq<u8>> {
    spec_split(spec_list_run(rom, at), NAME_BREAK).skip(1)
}

/// Where the list after the one at `at` begins: behind its terminator.
pub open spec fn spec_next_list(rom: Seq<u8>, at: int) -> int {
    at + spec_list_run(rom, at).len() + 1
}

/// The names that the image offers. The list for the rival follows the
/// list for the player; where the image ends before it, it is empty.
pub open spec fn spec_get_player_names(rom: Seq<u8>) -> PlayerNamesView {
    let next = spec_next_list(rom, PLAYER_NAMES as int);
    PlayerNamesView {
        player: spec_list_names(rom, PLAYER_NAMES as int),
        rival: if next <= rom.len() {
            spec_list_names(rom, next)
        } else {
            Seq::empty()
        },
    }
}

/// The names, each with `separator` before it.
pub open spec fn spec_join(names: Seq<Seq<u8>>, separator: u8) -> Seq<u8>
    decreases names.len(),
{
    if names.len() == 0 {
        Seq::empty()
    } else {
        spec_join(names.drop_last(), separator) + seq![separator] + names.last()
    }
}

/// The bytes of a list: the heading, the names with `separator` before
/// each, and a terminator.
pub open spec fn spec_encode_list(names: Seq<Seq<u8>>, separator: u8) -> Seq<u8> {
    spec_heading() + spec_join(names, separator) + seq![TERMINATOR]
}

/// The bytes of the two lists, the player's first.
pub open spec fn spec_encode_player_names(names: PlayerNamesView, separator: u8) -> Seq<u8> {
    spec_encode_list(names.player, separator) + spec_encode_list(names.rival, separator)
}

/// How many bytes the two lists take that stand at `PLAYER_NAMES`.
pub open spec fn spec_player_names_size(rom: Seq<u8>) -> int {
    spec_encode_player_names(spec_get_player_names(rom), NAME_BREAK).len() as int
}

/// What the patch that sets the names to `names` writes, and where: the two
/// lists with line breaks, what stands between them and their copy, and the
/// two lists with terminators.
///
/// The lists must take as many bytes as the old: `PlayerNamesWrongSize` with
/// the old size and the new otherwise. Where the old lists reach into their
/// copy, the image is malformed.
pub open spec fn spec_set_player_names(rom: Seq<u8>, names: PlayerNamesView) -> Result<
    (int, Seq<u8>),
    Error,
> {
    let old_size = spec_player_names_size(rom);
    let data = spec_encode_player_names(names, NAME_BREAK);
    if old_size != data.len() {
        Err(Error::PlayerNamesWrongSize(old_size as usize, data.len() as usize))
    } else if PLAYER_NAMES + data.len() > PLAYER_NAMES_COPY {
        Err(Error::RomMalformed)
    } else {
        Ok(
            (
                PLAYER_NAMES as int,
                data + rom.subrange(PLAYER_NAMES + data.len(), PLAYER_NAMES_COPY as int)
                    + spec_encode_player_names(names, TERMINATOR),
            ),
        )
    }
}

/// The heading of a list.
fn heading() -> (r: Vec<u8>)
    ensures
        r@ == spec_heading(),
{
    let mut out: Vec<u8> = Vec::new();
    out.push(0x8D);
    out.push(0x84);
    out.push(0x96);
    out.push(0x7F);
    out.push(0x8D);
    out.push(0x80);
    out.push(0x8C);
    out.push(0x84);
    proof {
        assert(out@ =~= spec_heading());
    }
    out
}

/// Appends to `out` the bytes of the list of `names`.
fn encode_list(out: &mut Vec<u8>, names: &Vec<ROMString>, separator: u8)
    ensures
        final(out)@ == old(out)@ + spec_encode_list(names_view(names@), separator),
{
    let ghost before = out@;
    let ghost views = names_view(names@);
    let head = heading();
    append_range(out, &head, 0, head.len());
    proof {
        assert(head@.subrange(0, head@.len() as int) =~= head@);
        assert(views.take(0) =~= Seq::<Seq<u8>>::empty());
        assert(out@ =~= before + spec_heading() + spec_join(views.take(0), separator));
    }
    let mut k: usize = 0;
    while k < names.len()
        invariant
            k <= names@.len(),
            views == names_view(names@),
            out@ == before + spec_heading() + spec_join(views.take(k as int), separator),
        decreases names@.len() - k,
    {
        out.push(separator);
        append_range(out, &names[k].value, 0, names[k].value.len());
        proof {
            let name = names@[k as int]@;
            assert(names@[k as int].value@.subrange(0, name.len() as int) =~= name);
            assert(views.take(k + 1).drop_last() =~= views.take(k as int));
            assert(views.take(k + 1).last() == name);
            assert(out@ =~= before + spec_heading() + spec_join(views.take(k + 1), separator));
        }
        k += 1;
    }
    out.push(TERMINATOR);
    proof {
        assert(views.take(names@.len() as int) =~= views);
        assert(out@ =~= before + spec_encode_list(views, separator));
    }
}

impl PlayerNames {
    /// The bytes of the two lists, with a line break before each name.
    pub fn to_raw(&self) -> (r: Vec<u8>)
        ensures
            r@ == spec_encode_player_names(self@, NAME_BREAK),
    {
        let mut out: Vec<u8> = Vec::new();
        encode_list(&mut out, &self.player, NAME_BREAK);
        encode_list(&mut out, &self.rival, NAME_BREAK);
        proof {
            assert(out@ =~= spec_encode_player_names(self@, NAME_BREAK));
        }
        out
    }
}

/// The parts of `run[start..end]` between its bytes `separator`.
fn split(run: &Vec<u8>, start: usize, end: usize, separator: u8) -> (r: Vec<ROMString>)
    requires
        start <= end <= run@.len(),
    ensures
        names_view(r@) == spec_split(run@.subrange(start as int, end as int), separator),
        r@.len() >= 1,
{
    let ghost s = run@.subrange(start as int, end as int);
    let ghost whole = spec_split(s, separator);
    let mut parts: Vec<ROMString> = Vec::new();
    let mut pos: usize = start;
    proof {
        assert(s.skip(0) =~= s);
        assert(names_view(parts@) + whole =~= whole);
    }
    loop
        invariant_except_break
            start <= pos <= end <= run@.len(),
            s == run@.subrange(start as int, end as int),
            whole == spec_split(s, separator),
            whole == names_view(parts@) + spec_split(s.skip(pos - start), separator),
        ensures
            names_view(parts@) == whole,
            parts@.len() >= 1,
        decreases end - pos,
    {
        let ghost rest = s.skip(pos - start);
        let ghost before = names_view(parts@);
        proof {
            assert(run@.subrange(pos as int, end as int) =~= rest);
            lemma_first_index_of(rest, separator);
        }
        match find_byte(run, pos, end, separator) {
            Some(i) => {
                let part = copy_range(run, pos, pos + i);
                proof {
                    assert(part@ =~= rest.take(i as int));
                    assert(rest.skip(i + 1) =~= s.skip(pos + i + 1 - start));
                    assert(names_view(parts@.push(ROMString { value: part })) =~= before.push(
                        part@,
                    ));
                    assert(before + (seq![part@] + spec_split(rest.skip(i + 1), separator))
                        =~= before.push(part@) + spec_split(rest.skip(i + 1), separator));
                }
                parts.push(ROMString { value: part });
                pos = pos + i + 1;
            },
            None => {
                let part = copy_range(run, pos, end);
                proof {
                    assert(part@ =~= rest);
                    assert(names_view(parts@.push(ROMString { value: part })) =~= before.push(
                        part@,
                    ));
                    assert(before + seq![part@] =~= before.push(part@));
                }
                parts.push(ROMString { value: part });
                break ;
            },
        }
    }
    parts
}

impl PkmnapiDB {
    /// The names of the list that begins at `at`, and where the list ends:
    /// at its terminator, or the end of the image.
    fn list_names(&self, at: usize) -> (r: (Vec<ROMString>, usize))
        requires
            at <= self@.len(),
        ensures
            names_view(r.0@) == spec_list_names(self@, at as int),
            r.1 == at + spec_list_run(self@, at as int).len(),
            r.1 <= self@.len(),
    {
        let rom = self.rom();
        let len = rom.len();
        proof {
            assert(rom@.subrange(at as int, len as int) =~= rom@.skip(at as int));
            lemma_first_index_of(rom@.skip(at as int), TERMINATOR);
        }
        let end = match find_byte(rom, at, len, TERMINATOR) {
            Some(i) => at + i,
            None => len,
        };
        proof {
            assert(rom@.subrange(at as int, end as int) =~= spec_list_run(self@, at as int));
        }
        let parts = split(rom, at, end, NAME_BREAK);
        let names = drop_first(&parts);
        (names, end)
    }

    /// The names that the image offers for the player and for the rival.
    pub fn get_player_names(&self) -> (r: Result<PlayerNames, Error>)
        ensures
            r matches Ok(names) && names@ == spec_get_player_names(self@),
    {
        let len = self.rom().len();
        let (player, end) = self.list_names(PLAYER_NAMES);
        let rival = if end < len {
            let (rival, _) = self.list_names(end + 1);
            rival
        } else {
            Vec::new()
        };
        proof {
            assert(names_view(Seq::<ROMString>::empty()) =~= Seq::<Seq<u8>>::empty());
        }
        Ok(PlayerNames { player, rival })
    }

    /// The patch that sets the names for the player and for the rival to
    /// `player_names`.
    pub fn set_player_names(&self, player_names: &PlayerNames) -> (r: Result<Patch, Error>)
        ensures
            patch_is(r, spec_set_player_names(self@, player_names@)),
    {
        let old = match self.get_player_names() {
            Ok(old) => old,
            Err(e) => {
                return Err(e);
            },
        };
        let old_len = old.to_raw().len();
        let mut data = player_names.to_raw();
        let new_len = data.len();
        if old_len != new_len {
            return Err(Error::PlayerNamesWrongSize(old_len, new_len));
        }
        if new_len > PLAYER_NAMES_COPY - PLAYER_NAMES {
            return Err(Error::RomMalformed);
        }
        append_range(&mut data, self.rom(), PLAYER_NAMES + new_len, PLAYER_NAMES_COPY);
        encode_list(&mut data, &player_names.player, TERMINATOR);
        encode_list(&mut data, &player_names.rival, TERMINATOR);
        proof {
            assert(data@ =~= spec_set_player_names(self@, player_names@)->Ok_0.1);
        }
        Ok(Patch::new(&PLAYER_NAMES, &data))
    }
}

/// The names of `parts` but for the first.
fn drop_first(parts: &Vec<ROMString>) -> (r: Vec<ROMString>)
    requires
        parts@.len() >= 1,
    ensures
        names_view(r@) == names_view(parts@).skip(1),
{
    let mut out: Vec<ROMString> = Vec::new();
    let mut k: usize = 1;
    while k < parts.len()
        invariant
            1 <= k <= parts@.len(),
            out@.len() == k - 1,
            forall|j: int| 0 <= j < k - 1 ==> (#[trigger] out@[j])@ == parts@[j + 1]@,
        decreases parts@.len() - k,
    {
        out.push(parts[k].clone());
        k += 1;
    }
    proof {
        assert(names_view(out@) =~= names_view(parts@).skip(1));
    }
    out
}

} // verus!
