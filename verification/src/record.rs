//! Records: the variable-length entries that describe one patch point each.

use vstd::prelude::*;
use vstd::slice::slice_subrange;
use crate::error::{Error, eof_at};
use crate::layout::{
    ALIGNMENT_BYTES, LIVE_OUT_SIZE, LOCATION_SIZE, RECORD_HEADER_SIZE, aligned, lemma_padding,
    padding_size,
};
use crate::location::{LiveOutsIter, LocationsIter};
use crate::pool::ConstantPool;
use crate::wire::{field_u16, field_u32, field_u64, region, u16_at, u32_at, u64_at};

verus! {

/// Where the locations of the record in `s` end: behind the fixed fields
/// and twelve bytes for each location that the record declares.
pub open spec fn locations_end(s: Seq<u8>) -> int {
    16 + 12 * (u16_at(s, 14) as int)
}

/// Where the reserved field in front of the live-out count stands: at the
/// first multiple of eight behind the locations.
pub open spec fn live_outs_header(s: Seq<u8>) -> int {
    aligned(locations_end(s))
}

/// Where the live-outs of the record in `s` start.
pub open spec fn live_outs_start(s: Seq<u8>) -> int {
    live_outs_header(s) + 4
}

/// Where the live-outs of the record in `s` end: four bytes for each
/// live-out that the record declares.
pub open spec fn live_outs_end(s: Seq<u8>) -> int {
    live_outs_start(s) + 4 * (u16_at(s, live_outs_header(s) + 2) as int)
}

/// The length of the record at the start of `s`, its padding included: the
/// first multiple of eight behind the live-outs.
pub open spec fn record_len(s: Seq<u8>) -> int {
    aligned(live_outs_end(s))
}

/// Where `s` ends too early for the record at its start: the offset of the
/// first field or region that does not fit, if there is one. Padding counts
/// as a region.
pub open spec fn record_fault(s: Seq<u8>) -> Option<int> {
    let n = s.len() as int;
    if n < 8 {
        Some(0)
    } else if n < 12 {
        Some(8)
    } else if n < 14 {
        Some(12)
    } else if n < 16 {
        Some(14)
    } else if n < locations_end(s) {
        Some(16)
    } else if n < live_outs_header(s) {
        Some(locations_end(s))
    } else if n < live_outs_header(s) + 2 {
        Some(live_outs_header(s))
    } else if n < live_outs_start(s) {
        Some(live_outs_header(s) + 2)
    } else if n < live_outs_end(s) {
        Some(live_outs_start(s))
    } else if n < record_len(s) {
        Some(live_outs_end(s))
    } else {
        None
    }
}

/// `s` is one whole record and nothing else.
pub open spec fn record_ok(s: Seq<u8>) -> bool {
    record_fault(s) is None && record_len(s) == s.len()
}

/// What a record holds.
pub ghost struct RecordView {
    pub patch_point_id: u64,
    pub instruction_offset: u32,
    /// The bytes of the locations, twelve for each.
    pub locations: Seq<u8>,
    /// The bytes of the live-outs, four for each.
    pub live_outs: Seq<u8>,
    /// The constants of the stack map that the record belongs to.
    pub constants: Seq<u64>,
}

/// The record at the start of `s`: identifier, instruction offset, a
/// reserved field, the location count, the locations, padding, a reserved
/// field, the live-out count, the live-outs, padding. Neither reserved field
/// is looked at.
pub open spec fn decode_record(s: Seq<u8>, pool: Seq<u64>) -> Result<RecordView, Error> {
    match record_fault(s) {
        Some(offset) => Err(eof_at(offset)),
        None => Ok(
            RecordView {
                patch_point_id: u64_at(s, 0),
                instruction_offset: u32_at(s, 8),
                locations: s.subrange(16, locations_end(s)),
                live_outs: s.subrange(live_outs_start(s), live_outs_end(s)),
                constants: pool,
            },
        ),
    }
}

/// The contents of each of `slices`.
pub open spec fn views(slices: Seq<&[u8]>) -> Seq<Seq<u8>> {
    Seq::new(slices.len(), |i: int| slices[i]@)
}

/// The layout of a record lies between fixed bounds, and each of its parts
/// starts where the one before ends.
pub proof fn lemma_record_layout(s: Seq<u8>)
    ensures
        16 <= locations_end(s) <= live_outs_header(s) < locations_end(s) + 8,
        live_outs_start(s) <= live_outs_end(s) <= record_len(s) < live_outs_end(s) + 8,
        live_outs_header(s) % 8 == 0,
        record_len(s) % 8 == 0,
        record_len(s) <= 1048592,
{
    lemma_padding(locations_end(s), 8);
    lemma_padding(live_outs_end(s), 8);
}

/// A record is decoded from its own bytes alone: cut out of the buffer it
/// was found in, it is a whole record and decodes to the same value.
pub proof fn lemma_record_slice(s: Seq<u8>, pool: Seq<u64>)
    requires
        record_fault(s) is None,
    ensures
        record_ok(s.take(record_len(s))),
        decode_record(s.take(record_len(s)), pool) == decode_record(s, pool),
{
    lemma_record_layout(s);
    let t = s.take(record_len(s));
    assert(t.subrange(16, locations_end(s)) =~= s.subrange(16, locations_end(s)));
    assert(t.subrange(live_outs_start(s), live_outs_end(s)) =~= s.subrange(
        live_outs_start(s),
        live_outs_end(s),
    ));
}

/// The live values at one patch point. The locations and live-outs are kept
/// as the bytes they were found in and decoded when they are walked.
#[derive(Debug, Clone, Copy)]
pub struct Record<'input> {
    patch_point_id: u64,
    instruction_offset: u32,
    num_locations: u16,
    num_live_outs: u16,
    locations: &'input [u8],
    live_outs: &'input [u8],
    constants: ConstantPool<'input>,
}

impl<'input> Record<'input> {
    /// What the record holds.
    pub closed spec fn view(&self) -> RecordView {
        RecordView {
            patch_point_id: self.patch_point_id,
            instruction_offset: self.instruction_offset,
            locations: self.locations@,
            live_outs: self.live_outs@,
            constants: self.constants@,
        }
    }

    /// The counts agree with the bytes that are kept.
    pub closed spec fn wf(&self) -> bool {
        &&& self.constants.wf()
        &&& self.locations@.len() == 12 * self.num_locations
        &&& self.live_outs@.len() == 4 * self.num_live_outs
    }

    /// The identifier of the patch point.
    pub fn patch_point_id(&self) -> (r: u64)
        ensures
            r == self@.patch_point_id,
    {
        self.patch_point_id
    }

    /// The offset of the patch point from the start of its function.
    pub fn instruction_offset(&self) -> (r: usize)
        ensures
            r == self@.instruction_offset,
    {
        self.instruction_offset as usize
    }

    /// The number of locations.
    pub fn num_locations(&self) -> (r: usize)
        requires
            self.wf(),
        ensures
            12 * r == self@.locations.len(),
    {
        self.num_locations as usize
    }

    /// A walk over the locations.
    pub fn locations(&self) -> (iter: LocationsIter<'input>)
        requires
            self.wf(),
        ensures
            iter.wf(),
            iter.bytes() == self@.locations,
            iter.pool() == self@.constants,
            12 * iter.remaining() == self@.locations.len(),
    {
        LocationsIter::new(self.locations, self.constants, self.num_locations as usize)
    }

    /// The number of live-outs.
    pub fn num_live_outs(&self) -> (r: usize)
        requires
            self.wf(),
        ensures
            4 * r == self@.live_outs.len(),
    {
        self.num_live_outs as usize
    }

    /// A walk over the live-outs.
    pub fn live_outs(&self) -> (iter: LiveOutsIter<'input>)
        requires
            self.wf(),
        ensures
            iter.wf(),
            iter.bytes() == self@.live_outs,
            4 * iter.remaining() == self@.live_outs.len(),
    {
        LiveOutsIter::new(self.live_outs, self.num_live_outs as usize)
    }
}

/// Decodes the record at the start of `input` and hands back the input
/// behind it. Locations and live-outs are measured, not decoded.
pub fn parse_record<'a>(input: &'a [u8], constants: ConstantPool<'a>) -> (r: Result<
    (&'a [u8], Record<'a>),
    Error,
>)
    requires
        constants.wf(),
    ensures
        match decode_record(input@, constants@) {
            Ok(view) => r matches Ok((rest, record)) && record.wf() && record@ == view && rest@
                == input@.skip(record_len(input@)),
            Err(e) => r matches Err(found) && found == e,
        },
{
    proof {
        lemma_record_layout(input@);
    }
    let patch_point_id: u64 = field_u64(input, 0)?;
    let instruction_offset: u32 = field_u32(input, 8)?;
    let _reserved: u16 = field_u16(input, 12)?;
    let num_locations: u16 = field_u16(input, 14)?;

    let locations_bytes: usize = num_locations as usize * LOCATION_SIZE;
    let locations = region(input, RECORD_HEADER_SIZE, locations_bytes)?;
    let parsed_bytes: usize = RECORD_HEADER_SIZE + locations_bytes;
    let _padding = region(input, parsed_bytes, padding_size(parsed_bytes, ALIGNMENT_BYTES))?;
    let header: usize = parsed_bytes + padding_size(parsed_bytes, ALIGNMENT_BYTES);

    let _reserved: u16 = field_u16(input, header)?;
    let num_live_outs: u16 = field_u16(input, header + 2)?;

    let live_outs_bytes: usize = num_live_outs as usize * LIVE_OUT_SIZE;
    let live_outs = region(input, header + 4, live_outs_bytes)?;
    let parsed_bytes: usize = header + 4 + live_outs_bytes;
    let _padding = region(input, parsed_bytes, padding_size(parsed_bytes, ALIGNMENT_BYTES))?;
    let end: usize = parsed_bytes + padding_size(parsed_bytes, ALIGNMENT_BYTES);

    let rest = slice_subrange(input, end, input.len());
    Ok(
        (
            rest,
            Record {
                patch_point_id,
                instruction_offset,
                num_locations,
                num_live_outs,
                locations,
                live_outs,
                constants,
            },
        ),
    )
}

/// A walk over the records of one function, decoding each when it is asked
/// for.
#[derive(Debug)]
pub struct RecordsIter<'function, 'input> {
    records: &'function [&'input [u8]],
    constants: ConstantPool<'input>,
    remaining_records: usize,
}

impl<'function, 'input> RecordsIter<'function, 'input> {
    /// The bytes of each record that is still to come.
    pub closed spec fn records(&self) -> Seq<Seq<u8>> {
        views(self.records@)
    }

    /// The constants of the stack map.
    pub closed spec fn pool(&self) -> Seq<u64> {
        self.constants@
    }

    /// The number of records that are still to come.
    pub closed spec fn remaining(&self) -> nat {
        self.remaining_records as nat
    }

    /// Each record left is one whole record, and the count is theirs.
    pub closed spec fn wf(&self) -> bool {
        &&& self.constants.wf()
        &&& self.records@.len() == self.remaining_records
        &&& forall|i: int| 0 <= i < self.records@.len() ==> record_ok(#[trigger] self.records@[i]@)
    }

    /// As many records are left as the count says, each of them whole.
    pub proof fn lemma_remaining(&self)
        requires
            self.wf(),
        ensures
            self.records().len() == self.remaining(),
            forall|i: int| 0 <= i < self.records().len() ==> record_ok(#[trigger] self.records()[i]),
    {
    }

    pub(crate) fn new(records: &'function [&'input [u8]], constants: ConstantPool<'input>) -> (iter:
        Self)
        requires
            constants.wf(),
            forall|i: int| 0 <= i < records@.len() ==> record_ok(#[trigger] records@[i]@),
        ensures
            iter.wf(),
            iter.records() == views(records@),
            iter.pool() == constants@,
            iter.remaining() == records@.len(),
    {
        RecordsIter { records, constants, remaining_records: records.len() }
    }

    /// The next record, or `None` behind the last one. The records were
    /// measured when the stack map was decoded, so none of them fails here.
    pub fn next(&mut self) -> (r: Result<Option<Record<'input>>, Error>)
        requires
            old(self).wf(),
        ensures
            final(self).wf(),
            final(self).pool() == old(self).pool(),
            old(self).remaining() == 0 ==> (r matches Ok(None) && final(self).records() == old(self).records()),
            old(self).remaining() > 0 ==> (r matches Ok(Some(record)) && record.wf() && Ok::<
                RecordView,
                Error,
            >(record@) == decode_record(old(self).records()[0], old(self).pool())
                && final(self).records() == old(self).records().skip(1) && final(self).remaining()
                == old(self).remaining() - 1),
    {
        if self.records.is_empty() {
            return Ok(None);
        }
        let record_slice = self.records[0];
        match parse_record(record_slice, self.constants) {
            Ok((_, next_record)) => {
                self.records = slice_subrange(self.records, 1, self.records.len());
                self.remaining_records -= 1;
                Ok(Some(next_record))
            },
            Err(error) => Err(error),
        }
    }

    /// The number of records that are still to come, as both bounds.
    pub fn size_hint(&self) -> (r: (usize, Option<usize>))
        ensures
            r.0 == self.remaining(),
            r.1 == Some(r.0),
    {
        (self.remaining_records, Some(self.remaining_records))
    }

    /// Walks to the end and hands back every record.
    pub fn collect(self) -> (r: Result<Vec<Record<'input>>, Error>)
        requires
            self.wf(),
        ensures
            r matches Ok(found) && found@.len() == self.remaining() && forall|i: int|
                0 <= i < found@.len() ==> (#[trigger] found@[i]).wf() && Ok::<RecordView, Error>(
                    found@[i]@,
                ) == decode_record(self.records()[i], self.pool()),
    {
        let ghost start = self.records();
        let ghost pool = self.pool();
        let mut iter = self;
        let mut found: Vec<Record<'input>> = Vec::with_capacity(iter.remaining_records);
        loop
            invariant
                start == self.records(),
                pool == self.pool(),
                start.len() == self.remaining(),
                iter.wf(),
                iter.pool() == pool,
                found@.len() + iter.remaining() == start.len(),
                iter.records().len() == iter.remaining(),
                iter.records() == start.skip(found@.len() as int),
                forall|i: int|
                    0 <= i < found@.len() ==> (#[trigger] found@[i]).wf() && Ok::<
                        RecordView,
                        Error,
                    >(found@[i]@) == decode_record(start[i], pool),
            decreases iter.remaining(),
        {
            match iter.next() {
                Ok(Some(record)) => {
                    found.push(record);
                },
                Ok(None) => {
                    return Ok(found);
                },
                Err(error) => {
                    return Err(error);
                },
            }
        }
    }
}

} // verus!
