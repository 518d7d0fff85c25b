//! A patch: the unit of every change to the image.

use crate::bytes::append_range;
use vstd::prelude::*;

verus! {

/// "Replace `length` bytes at `offset` with `data`."
#[derive(Debug, PartialEq, Eq)]
pub struct Patch {
    pub offset: usize,
    pub length: usize,
    pub data: Vec<u8>,
}

impl Patch {
    /// A patch keeps the size of what it replaces.
    pub open spec fn wf(&self) -> bool {
        self.length == self.data@.len()
    }

    /// The patch that writes `data` at `offset`, over as many bytes as `data` holds.
    pub open spec fn writes(&self, offset: int, data: Seq<u8>) -> bool {
        &&& self.offset == offset
        &&& self.length == data.len()
        &&& self.data@ == data
    }

    /// The patch that overwrites `data.len()` bytes at `offset` with `data`.
    pub fn new(offset: &usize, data: &Vec<u8>) -> (p: Patch)
        ensures
            p.writes(*offset as int, data@),
            p.wf(),
    {
        Patch { offset: *offset, length: data.len(), data: data.clone() }
    }

    /// The buffer that results from applying the patch to `rom`: what stood
    /// before the patch, the patch's bytes, and what stood after the bytes it
    /// replaces.
    pub open spec fn apply_to(&self, rom: Seq<u8>) -> Seq<u8>
        recommends
            self.offset + self.length <= rom.len(),
    {
        rom.subrange(0, self.offset as int) + self.data@ + rom.subrange(
            self.offset + self.length,
            rom.len() as int,
        )
    }
}

/// The greatest offset that a record of a patch file holds.
pub const MAX_RECORD_OFFSET: usize = 0xFF_FFFF;

/// The greatest length that a record of a patch file holds.
pub const MAX_RECORD_LENGTH: usize = 0xFFFF;

/// The bytes that begin a patch file: "PATCH".
pub open spec fn spec_ips_head() -> Seq<u8> {
    seq![0x50u8, 0x41, 0x54, 0x43, 0x48]
}

/// The bytes that end a patch file: "EOF".
pub open spec fn spec_ips_tail() -> Seq<u8> {
    seq![0x45u8, 0x4F, 0x46]
}

/// The record of a patch in a patch file: the offset in three bytes and the
/// length in two, the high byte first, and the data.
pub open spec fn spec_ips_record(offset: int, data: Seq<u8>) -> Seq<u8> {
    seq![
        ((offset / 0x10000) % 256) as u8,
        ((offset / 0x100) % 256) as u8,
        (offset % 256) as u8,
        ((data.len() / 0x100) % 256) as u8,
        (data.len() % 256) as u8,
    ] + data
}

/// The records, one after another.
pub open spec fn spec_concat(records: Seq<Seq<u8>>) -> Seq<u8>
    decreases records.len(),
{
    if records.len() == 0 {
        Seq::empty()
    } else {
        spec_concat(records.drop_last()) + records.last()
    }
}

/// The patch file that holds the records: "PATCH", the records, "EOF".
pub open spec fn spec_ips_file(records: Seq<Seq<u8>>) -> Seq<u8> {
    spec_ips_head() + spec_concat(records) + spec_ips_tail()
}

impl Patch {
    /// Whether the patch has a record: it keeps the size of what it
    /// replaces, and its offset and length are not above what a record holds.
    pub open spec fn has_record(&self) -> bool {
        &&& self.wf()
        &&& self.offset <= MAX_RECORD_OFFSET
        &&& self.length <= MAX_RECORD_LENGTH
    }

    /// The record of the patch in a patch file, if it has one.
    pub fn to_raw(&self) -> (r: Option<Vec<u8>>)
        ensures
            match r {
                Some(raw) => self.has_record() && raw@ == spec_ips_record(
                    self.offset as int,
                    self.data@,
                ),
                None => !self.has_record(),
            },
    {
        if self.length != self.data.len() || self.offset > MAX_RECORD_OFFSET || self.length
            > MAX_RECORD_LENGTH {
            return None;
        }
        let mut out: Vec<u8> = Vec::new();
        out.push(((self.offset / 0x10000) % 256) as u8);
        out.push(((self.offset / 0x100) % 256) as u8);
        out.push((self.offset % 256) as u8);
        out.push(((self.length / 0x100) % 256) as u8);
        out.push((self.length % 256) as u8);
        append_range(&mut out, &self.data, 0, self.length);
        proof {
            assert(self.data@.subrange(0, self.length as int) =~= self.data@);
            assert(out@ =~= spec_ips_record(self.offset as int, self.data@));
        }
        Some(out)
    }
}

/// The views of the records in `records`.
pub open spec fn records_view(records: Seq<Vec<u8>>) -> Seq<Seq<u8>> {
    records.map_values(|r: Vec<u8>| r@)
}

/// The patch file that holds `records` in their order.
pub fn ips_file(records: &Vec<Vec<u8>>) -> (r: Vec<u8>)
    ensures
        r@ == spec_ips_file(records_view(records@)),
{
    let ghost views = records_view(records@);
    let mut out: Vec<u8> = Vec::new();
    out.push(0x50);
    out.push(0x41);
    out.push(0x54);
    out.push(0x43);
    out.push(0x48);
    let mut i: usize = 0;
    proof {
        assert(views.take(0) =~= Seq::<Seq<u8>>::empty());
        assert(out@ =~= spec_ips_head() + spec_concat(views.take(0)));
    }
    while i < records.len()
        invariant
            i <= records@.len(),
            views == records_view(records@),
            out@ == spec_ips_head() + spec_concat(views.take(i as int)),
        decreases records@.len() - i,
    {
        append_range(&mut out, &records[i], 0, records[i].len());
        proof {
            let record = records@[i as int]@;
            assert(record.subrange(0, record.len() as int) =~= record);
            assert(views.take(i + 1).drop_last() =~= views.take(i as int));
            assert(views.take(i + 1).last() == record);
            assert(out@ =~= spec_ips_head() + spec_concat(views.take(i + 1)));
        }
        i += 1;
    }
    out.push(0x45);
    out.push(0x4F);
    out.push(0x46);
    proof {
        assert(views.take(records@.len() as int) =~= views);
        assert(out@ =~= spec_ips_file(views));
    }
    out
}

} // verus!
