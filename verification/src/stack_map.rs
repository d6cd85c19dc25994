//! Stack maps, and the section that holds them.

use vstd::prelude::*;
use vstd::slice::slice_subrange;
use crate::error::{Error, eof_at, prepend, shifted};
use crate::function::FunctionsIter;
use crate::layout::{
    CONSTANT_SIZE, COUNTS_SIZE, HEADER_SIZE, STACK_SIZE_RECORD_SIZE, SUPPORTED_VERSION,
};
use crate::pool::{ConstantPool, constants_of};
use crate::record::{
    lemma_record_layout, lemma_record_slice, parse_record, record_fault, record_len, record_ok,
    views,
};
use crate::wire::{entries, field_u16, field_u32, field_u8, u16_at, u32_at, u8_at};

verus! {

/// The version of a stack map.
pub type StackMapVersion = u8;

/// Where a buffer of `len` bytes ends too early for a header.
pub open spec fn header_fault(len: int) -> Option<int> {
    if len < 1 {
        Some(0)
    } else if len < 2 {
        Some(1)
    } else if len < 4 {
        Some(2)
    } else {
        None
    }
}

/// The version that the header at the start of `s` gives. Both reserved
/// fields behind the version byte must be zero.
pub open spec fn decode_header(s: Seq<u8>) -> Result<StackMapVersion, Error> {
    match header_fault(s.len() as int) {
        Some(offset) => Err(eof_at(offset)),
        None => if u8_at(s, 1) != 0 || u16_at(s, 2) != 0 {
            Err(Error::MalformedHeader)
        } else {
            Ok(u8_at(s, 0))
        },
    }
}

/// Where the function table of the stack map in `s` ends.
pub open spec fn table_end(s: Seq<u8>) -> int {
    16 + 24 * (u32_at(s, 4) as int)
}

/// Where the constant pool of the stack map in `s` ends and its records
/// start.
pub open spec fn pool_end(s: Seq<u8>) -> int {
    table_end(s) + 8 * (u32_at(s, 8) as int)
}

/// Where `s`, which holds a header, ends too early for the counts, the
/// function table or the constant pool.
pub open spec fn counts_fault(s: Seq<u8>) -> Option<int> {
    let n = s.len() as int;
    if n < 8 {
        Some(4)
    } else if n < 12 {
        Some(8)
    } else if n < 16 {
        Some(12)
    } else if n < table_end(s) {
        Some(16)
    } else if n < pool_end(s) {
        Some(table_end(s))
    } else {
        None
    }
}

/// The bytes of each of the `count` records that follow one another from
/// `at` on, and where the last of them ends; or where `s` ends too early.
pub open spec fn scan_records(s: Seq<u8>, at: int, count: nat) -> Result<(Seq<Seq<u8>>, int), Error>
    decreases count,
{
    if count == 0 {
        Ok((Seq::empty(), at))
    } else {
        match record_fault(s.skip(at)) {
            Some(offset) => Err(eof_at(at + offset)),
            None => scan_after(
                seq![s.subrange(at, at + record_len(s.skip(at)))],
                scan_records(s, at + record_len(s.skip(at)), (count - 1) as nat),
            ),
        }
    }
}

/// `head` in front of the records that `tail` found.
pub open spec fn scan_after(head: Seq<Seq<u8>>, tail: Result<(Seq<Seq<u8>>, int), Error>) -> Result<
    (Seq<Seq<u8>>, int),
    Error,
> {
    match tail {
        Ok((records, end)) => Ok((head + records, end)),
        Err(e) => Err(e),
    }
}

/// What a stack map holds.
pub ghost struct StackMapView {
    pub version: StackMapVersion,
    /// The bytes of the function table, twenty-four for each function.
    pub functions: Seq<u8>,
    pub constants: Seq<u64>,
    /// The bytes of each record, in the order of the section.
    pub records: Seq<Seq<u8>>,
}

/// The stack map at the start of `s` and its length: header, counts,
/// function table, constant pool and as many records as the counts declare.
/// A version other than the supported one is refused before the counts are
/// looked at.
pub open spec fn decode_stack_map(s: Seq<u8>) -> Result<(StackMapView, int), Error> {
    match decode_header(s) {
        Err(e) => Err(e),
        Ok(version) => if version != 3 {
            Err(Error::UnsupportedVersion)
        } else {
            match counts_fault(s) {
                Some(offset) => Err(eof_at(offset)),
                None => match scan_records(s, pool_end(s), u32_at(s, 12) as nat) {
                    Err(e) => Err(e),
                    Ok((records, end)) => Ok(
                        (
                            StackMapView {
                                version,
                                functions: s.subrange(16, table_end(s)),
                                constants: constants_of(s.subrange(table_end(s), pool_end(s))),
                                records,
                            },
                            end,
                        ),
                    ),
                },
            }
        },
    }
}

/// A scan that succeeds finds as many records as were asked for, each of
/// them whole, and ends inside the buffer.
pub proof fn lemma_scan_records(s: Seq<u8>, at: int, count: nat)
    requires
        0 <= at <= s.len(),
    ensures
        scan_records(s, at, count) matches Ok((records, end)) ==> at <= end <= s.len()
            && records.len() == count && (forall|i: int|
            0 <= i < records.len() ==> record_ok(#[trigger] records[i])),
        count > 0 ==> (scan_records(s, at, count) matches Ok((records, end)) ==> at < end),
    decreases count,
{
    if count > 0 {
        let rest = s.skip(at);
        if record_fault(rest) is None {
            let len = record_len(rest);
            lemma_record_layout(rest);
            lemma_record_slice(rest, Seq::empty());
            lemma_scan_records(s, at + len, (count - 1) as nat);
        }
    }
}

/// A stack map is at least its header and counts long and ends inside the
/// buffer.
pub proof fn lemma_stack_map_len(s: Seq<u8>)
    ensures
        decode_stack_map(s) matches Ok((map, used)) ==> 16 <= used <= s.len()
            && map.functions.len() % 24 == 0 && (forall|i: int|
            0 <= i < map.records.len() ==> record_ok(#[trigger] map.records[i])),
{
    if decode_stack_map(s) is Ok {
        lemma_scan_records(s, pool_end(s), u32_at(s, 12) as nat);
    }
}

/// Every stack map of the section `s` from `at` on, in order, or the first
/// error, with its offset counted from the start of the section.
pub open spec fn decode_section(s: Seq<u8>, at: int) -> Result<Seq<StackMapView>, Error>
    decreases s.len() - at,
{
    if at < 0 || at >= s.len() {
        Ok(Seq::empty())
    } else {
        match decode_stack_map(s.skip(at)) {
            Err(e) => Err(shifted(e, at)),
            Ok((map, used)) => {
                proof {
                    lemma_stack_map_len(s.skip(at));
                }
                prepend(seq![map], decode_section(s, at + used))
            },
        }
    }
}

/// One stack map: its version, its function table, its constants and the
/// bytes of each of its records.
#[derive(Debug, Clone)]
pub struct StackMap<'input> {
    version: StackMapVersion,
    num_functions: u32,
    functions: &'input [u8],
    constants: ConstantPool<'input>,
    record_slices: Vec<&'input [u8]>,
}

/// What each of `maps` holds.
pub open spec fn stack_map_views(maps: Seq<StackMap>) -> Seq<StackMapView> {
    Seq::new(maps.len(), |i: int| maps[i]@)
}

impl<'input> StackMap<'input> {
    /// What the stack map holds.
    pub closed spec fn view(&self) -> StackMapView {
        StackMapView {
            version: self.version,
            functions: self.functions@,
            constants: self.constants@,
            records: views(self.record_slices@),
        }
    }

    /// The table is that of the functions counted, and each record kept is
    /// one whole record.
    pub closed spec fn wf(&self) -> bool {
        &&& self.constants.wf()
        &&& self.functions@.len() == 24 * self.num_functions
        &&& forall|i: int|
            0 <= i < self.record_slices@.len() ==> record_ok(#[trigger] self.record_slices@[i]@)
    }

    /// The version of the stack map.
    pub fn version(&self) -> (r: StackMapVersion)
        ensures
            r == self@.version,
    {
        self.version
    }

    /// The number of functions.
    pub fn num_functions(&self) -> (r: usize)
        requires
            self.wf(),
        ensures
            24 * r == self@.functions.len(),
    {
        self.num_functions as usize
    }

    /// A walk over the functions.
    pub fn functions<'map>(&'map self) -> (iter: FunctionsIter<'map, 'input>)
        requires
            self.wf(),
        ensures
            iter.wf(),
            iter.table() == self@.functions,
            iter.records() == self@.records,
            iter.pool() == self@.constants,
            24 * iter.remaining() == self@.functions.len(),
    {
        FunctionsIter::new(
            self.functions,
            self.record_slices.as_slice(),
            self.constants,
            self.num_functions as usize,
        )
    }
}

/// Decodes the header at the start of `input` and hands back its version
/// and the input behind it.
pub fn parse_header<'a>(input: &'a [u8]) -> (r: Result<(&'a [u8], StackMapVersion), Error>)
    ensures
        match decode_header(input@) {
            Ok(version) => r matches Ok((rest, found)) && found == version && rest@
                == input@.skip(4),
            Err(e) => r matches Err(found) && found == e,
        },
{
    let version: u8 = field_u8(input, 0)?;
    let zeroed_1: u8 = field_u8(input, 1)?;
    let zeroed_2: u16 = field_u16(input, 2)?;
    if zeroed_1 != 0 || zeroed_2 != 0 {
        return Err(Error::MalformedHeader);
    }
    let rest = slice_subrange(input, HEADER_SIZE, input.len());
    Ok((rest, version))
}

/// Decodes the stack map at the start of `input` and hands back the input
/// behind it. Each record is measured once, so that its bytes can be kept;
/// any record that does not fit fails the whole stack map.
pub fn parse_stack_map<'a>(input: &'a [u8]) -> (r: Result<(&'a [u8], StackMap<'a>), Error>)
    ensures
        match decode_stack_map(input@) {
            Ok((view, used)) => r matches Ok((rest, map)) && map.wf() && map@ == view && rest@
                == input@.skip(used) && 16 <= used <= input@.len(),
            Err(e) => r matches Err(found) && found == e,
        },
{
    let (_, version) = parse_header(input)?;
    if version != SUPPORTED_VERSION {
        return Err(Error::UnsupportedVersion);
    }
    let num_functions: u32 = field_u32(input, HEADER_SIZE)?;
    let num_constants: u32 = field_u32(input, HEADER_SIZE + 4)?;
    let num_records: u32 = field_u32(input, HEADER_SIZE + 8)?;

    let table_start: usize = HEADER_SIZE + COUNTS_SIZE;
    let functions = entries(input, table_start, num_functions, STACK_SIZE_RECORD_SIZE)?;
    let pool_start: usize = table_start + functions.len();
    let constants_bytes = entries(input, pool_start, num_constants, CONSTANT_SIZE)?;
    let constants = ConstantPool::new(constants_bytes);
    let records_start: usize = pool_start + constants_bytes.len();

    let (record_slices, end) = scan(input, records_start, num_records, constants)?;
    let rest = slice_subrange(input, end, input.len());
    Ok((rest, StackMap { version, num_functions, functions, constants, record_slices }))
}

/// Measures the `count` records that follow one another from `start` on and
/// hands back the bytes of each, and where the last of them ends.
fn scan<'a>(input: &'a [u8], start: usize, count: u32, constants: ConstantPool<'a>) -> (r: Result<
    (Vec<&'a [u8]>, usize),
    Error,
>)
    requires
        constants.wf(),
        start <= input@.len(),
    ensures
        match scan_records(input@, start as int, count as nat) {
            Ok((records, end)) => r matches Ok((slices, stop)) && views(slices@) == records
                && stop == end && start <= stop <= input@.len() && (forall|i: int|
                0 <= i < slices@.len() ==> record_ok(#[trigger] slices@[i]@)),
            Err(e) => r matches Err(found) && found == e,
        },
{
    let mut record_slices: Vec<&'a [u8]> = Vec::new();
    let mut at: usize = start;
    let mut scanned: u32 = 0;
    while scanned < count
        invariant
            constants.wf(),
            start <= at <= input@.len(),
            scanned <= count,
            forall|i: int|
                0 <= i < record_slices@.len() ==> record_ok(#[trigger] record_slices@[i]@),
            scan_after(
                views(record_slices@),
                scan_records(input@, at as int, (count - scanned) as nat),
            ) == scan_records(input@, start as int, count as nat),
        decreases count - scanned,
    {
        let rest = slice_subrange(input, at, input.len());
        match parse_record(rest, constants) {
            Ok((new_rest, _)) => {
                let record_size: usize = rest.len() - new_rest.len();
                let record_slice = slice_subrange(rest, 0, record_size);
                proof {
                    lemma_scan_step(input@, at as int, (count - scanned) as nat, views(record_slices@));
                    lemma_record_slice(rest@, constants@);
                    assert(record_slice@ =~= input@.subrange(at as int, at + record_size));
                    assert(views(record_slices@.push(record_slice)) =~= views(
                        record_slices@,
                    ).push(record_slice@));
                }
                record_slices.push(record_slice);
                at = at + record_size;
            },
            Err(error) => {
                proof {
                    lemma_record_fault_inside(rest@);
                }
                return Err(error.shifted_by(at));
            },
        }
        scanned += 1;
    }
    Ok((record_slices, at))
}

/// One step of a scan: where a whole record stands at `at`, the scan from
/// `at` is that record in front of the scan from behind it.
proof fn lemma_scan_step(s: Seq<u8>, at: int, count: nat, head: Seq<Seq<u8>>)
    requires
        count > 0,
        0 <= at <= s.len(),
        record_fault(s.skip(at)) is None,
    ensures
        0 < record_len(s.skip(at)) <= s.len() - at,
        scan_after(head, scan_records(s, at, count)) == scan_after(
            head.push(s.subrange(at, at + record_len(s.skip(at)))),
            scan_records(s, at + record_len(s.skip(at)), (count - 1) as nat),
        ),
{
    let rest = s.skip(at);
    let len = record_len(rest);
    lemma_record_layout(rest);
    let record = s.subrange(at, at + len);
    let tail = scan_records(s, at + len, (count - 1) as nat);
    if tail is Ok {
        assert(head + (seq![record] + tail->Ok_0.0) =~= head.push(record) + tail->Ok_0.0);
    }
}

/// Where a record does not fit, the fault lies in the buffer or at its end.
pub proof fn lemma_record_fault_inside(s: Seq<u8>)
    ensures
        record_fault(s) matches Some(offset) ==> 0 <= offset <= s.len(),
{
    lemma_record_layout(s);
}

/// A walk over the stack maps of a section, decoding each when it is asked
/// for.
#[derive(Debug)]
pub struct StackMapsIter<'input> {
    data: &'input [u8],
    consumed: usize,
}

impl<'input> StackMapsIter<'input> {
    /// The bytes of the whole section.
    pub closed spec fn section(&self) -> Seq<u8> {
        self.data@
    }

    /// The offset in the section at which the next stack map starts.
    pub closed spec fn position(&self) -> int {
        self.consumed as int
    }

    /// The walk stands inside the section.
    pub closed spec fn wf(&self) -> bool {
        self.consumed <= self.data@.len()
    }

    /// A walk stands inside the section or at its end.
    pub proof fn lemma_position(&self)
        requires
            self.wf(),
        ensures
            0 <= self.position() <= self.section().len(),
    {
    }

    /// The next stack map, `None` at the end of the section, or the error
    /// that the next stack map is decoded to, with its offset counted from
    /// the start of the section. After an error the walk stays where it is.
    pub fn next(&mut self) -> (r: Result<Option<StackMap<'input>>, Error>)
        requires
            old(self).wf(),
        ensures
            final(self).wf(),
            final(self).section() == old(self).section(),
            old(self).position() == old(self).section().len() ==> (r matches Ok(None)
                && final(self).position() == old(self).position()),
            old(self).position() < old(self).section().len() ==> match decode_stack_map(
                old(self).section().skip(old(self).position()),
            ) {
                Ok((view, used)) => r matches Ok(Some(map)) && map.wf() && map@ == view
                    && final(self).position() == old(self).position() + used && used >= 16,
                Err(e) => r matches Err(found) && found == shifted(e, old(self).position())
                    && final(self).position() == old(self).position(),
            },
    {
        if self.consumed == self.data.len() {
            return Ok(None);
        }
        let rest = slice_subrange(self.data, self.consumed, self.data.len());
        match parse_stack_map(rest) {
            Ok((new_rest, next_stack_map)) => {
                self.consumed = self.consumed + (rest.len() - new_rest.len());
                Ok(Some(next_stack_map))
            },
            Err(error) => {
                proof {
                    lemma_fault_inside(rest@);
                }
                Err(error.shifted_by(self.consumed))
            },
        }
    }

    /// Walks to the end and hands back every stack map, or the first error.
    pub fn collect(self) -> (r: Result<Vec<StackMap<'input>>, Error>)
        requires
            self.wf(),
        ensures
            match decode_section(self.section(), self.position()) {
                Ok(all) => r matches Ok(found) && stack_map_views(found@) == all && (forall|i: int|
                    0 <= i < found@.len() ==> (#[trigger] found@[i]).wf()),
                Err(e) => r matches Err(found) && found == e,
            },
    {
        let ghost section = self.section();
        let ghost start = self.position();
        let mut iter = self;
        let mut found: Vec<StackMap<'input>> = Vec::new();
        loop
            invariant
                section == self.section(),
                start == self.position(),
                iter.wf(),
                iter.section() == section,
                0 <= iter.position() <= section.len(),
                forall|i: int| 0 <= i < found@.len() ==> (#[trigger] found@[i]).wf(),
                prepend(stack_map_views(found@), decode_section(section, iter.position()))
                    == decode_section(section, start),
            decreases section.len() - iter.position(),
        {
            match iter.next() {
                Ok(Some(stack_map)) => {
                    proof {
                        let tail = decode_section(section, iter.position());
                        if tail is Ok {
                            assert(stack_map_views(found@.push(stack_map)) + tail->Ok_0
                                =~= stack_map_views(found@) + (seq![stack_map@] + tail->Ok_0));
                        }
                    }
                    found.push(stack_map);
                },
                Ok(None) => {
                    return Ok(found);
                },
                Err(error) => {
                    return Err(error);
                },
            }
        }
    }
}

/// A structural error of a stack map points into the buffer or at its end.
pub proof fn lemma_fault_inside(s: Seq<u8>)
    requires
        s.len() <= usize::MAX,
    ensures
        decode_stack_map(s) matches Err(Error::ParserError { offset, .. }) ==> offset <= s.len(),
{
    if decode_header(s) is Ok && counts_fault(s) is None {
        lemma_scan_fault(s, pool_end(s), u32_at(s, 12) as nat);
    }
}

/// A structural error of a scan points into the buffer or at its end.
pub proof fn lemma_scan_fault(s: Seq<u8>, at: int, count: nat)
    requires
        0 <= at <= s.len() <= usize::MAX,
    ensures
        scan_records(s, at, count) matches Err(e) ==> (e matches Error::ParserError { offset, .. }
            && offset <= s.len()),
    decreases count,
{
    if count > 0 {
        let rest = s.skip(at);
        lemma_record_layout(rest);
        if record_fault(rest) is None {
            lemma_scan_fault(s, at + record_len(rest), (count - 1) as nat);
        }
    }
}

/// The contents of one stack map section.
#[derive(Debug, Clone, Copy)]
pub struct LLVMStackMaps<'input> {
    section_data: &'input [u8],
}

impl<'input> LLVMStackMaps<'input> {
    /// The bytes of the section.
    pub closed spec fn view(&self) -> Seq<u8> {
        self.section_data@
    }

    /// The section that `section_data` holds.
    pub fn new(section_data: &'input [u8]) -> (section: Self)
        ensures
            section@ == section_data@,
    {
        Self { section_data }
    }

    /// A walk over the stack maps, from the start of the section.
    pub fn stack_maps(&self) -> (iter: StackMapsIter<'input>)
        ensures
            iter.wf(),
            iter.section() == self@,
            iter.position() == 0,
    {
        StackMapsIter { data: self.section_data, consumed: 0 }
    }
}

} // verus!
