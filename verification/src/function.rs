//! Functions: the entries of the function table, each with its records.

use vstd::prelude::*;
use vstd::slice::{slice_subrange, slice_to_vec};
use crate::error::{Error, eof_at, prepend};
use crate::layout::STACK_SIZE_RECORD_SIZE;
use crate::pool::ConstantPool;
use crate::record::{RecordsIter, record_ok, views};
use crate::wire::{field_u64, u64_at};

verus! {

/// What a function holds.
pub ghost struct FunctionView {
    pub address: u64,
    pub stack_size: u64,
    /// The bytes of each record of the function.
    pub records: Seq<Seq<u8>>,
    /// The constants of the stack map that the function belongs to.
    pub constants: Seq<u64>,
}

/// Where a buffer of `len` bytes ends too early for an entry of the
/// function table.
pub open spec fn function_fault(len: int) -> Option<int> {
    if len < 8 {
        Some(0)
    } else if len < 16 {
        Some(8)
    } else if len < 24 {
        Some(16)
    } else {
        None
    }
}

/// The function at the start of `table`: address, stack size and record
/// count. Its records are the first of `records`, as many as it declares;
/// where fewer are left, the counts of the table do not fit the records.
pub open spec fn decode_function(table: Seq<u8>, records: Seq<Seq<u8>>, pool: Seq<u64>) -> Result<
    FunctionView,
    Error,
> {
    match function_fault(table.len() as int) {
        Some(offset) => Err(eof_at(offset)),
        None => if u64_at(table, 16) > records.len() {
            Err(Error::FunctionRecordMismatch)
        } else {
            Ok(
                FunctionView {
                    address: u64_at(table, 0),
                    stack_size: u64_at(table, 8),
                    records: records.take(u64_at(table, 16) as int),
                    constants: pool,
                },
            )
        },
    }
}

/// What one step of a walk over the function table yields. At the end of
/// the table every record must have found its function.
pub open spec fn functions_step(table: Seq<u8>, records: Seq<Seq<u8>>, pool: Seq<u64>) -> Result<
    Option<FunctionView>,
    Error,
> {
    if table.len() == 0 {
        if records.len() == 0 {
            Ok(None)
        } else {
            Err(Error::FunctionRecordMismatch)
        }
    } else {
        match decode_function(table, records, pool) {
            Ok(function) => Ok(Some(function)),
            Err(e) => Err(e),
        }
    }
}

/// All the functions of `table`, in order, each with its share of
/// `records`, or the first error among them.
pub open spec fn decode_functions(table: Seq<u8>, records: Seq<Seq<u8>>, pool: Seq<u64>) -> Result<
    Seq<FunctionView>,
    Error,
>
    decreases table.len(),
{
    match functions_step(table, records, pool) {
        Ok(None) => Ok(Seq::empty()),
        Ok(Some(function)) => prepend(
            seq![function],
            decode_functions(table.skip(24), records.skip(function.records.len() as int), pool),
        ),
        Err(e) => Err(e),
    }
}

/// One function of a stack map, with the records that belong to it.
#[derive(Debug, Clone)]
pub struct Function<'input> {
    address: u64,
    stack_size: u64,
    records: Vec<&'input [u8]>,
    constants: ConstantPool<'input>,
}

/// What each of `functions` holds.
pub open spec fn function_views(functions: Seq<Function>) -> Seq<FunctionView> {
    Seq::new(functions.len(), |i: int| functions[i]@)
}

impl<'input> Function<'input> {
    /// What the function holds.
    pub closed spec fn view(&self) -> FunctionView {
        FunctionView {
            address: self.address,
            stack_size: self.stack_size,
            records: views(self.records@),
            constants: self.constants@,
        }
    }

    /// Each record kept is one whole record.
    pub closed spec fn wf(&self) -> bool {
        &&& self.constants.wf()
        &&& forall|i: int| 0 <= i < self.records@.len() ==> record_ok(#[trigger] self.records@[i]@)
    }

    /// Each record of a function is one whole record.
    pub proof fn lemma_records(&self)
        requires
            self.wf(),
        ensures
            forall|i: int| 0 <= i < self@.records.len() ==> record_ok(#[trigger] self@.records[i]),
    {
    }

    /// The address of the function.
    pub fn address(&self) -> (r: u64)
        ensures
            r == self@.address,
    {
        self.address
    }

    /// The size of the function's stack frame, in the width of the machine.
    pub fn stack_size(&self) -> (r: usize)
        ensures
            r == self@.stack_size as usize,
    {
        #[verifier::truncate]
        (self.stack_size as usize)
    }

    /// The number of records.
    pub fn num_records(&self) -> (r: usize)
        ensures
            r == self@.records.len(),
    {
        self.records.len()
    }

    /// A walk over the records.
    pub fn records<'me>(&'me self) -> (iter: RecordsIter<'me, 'input>)
        requires
            self.wf(),
        ensures
            iter.wf(),
            iter.records() == self@.records,
            iter.pool() == self@.constants,
            iter.remaining() == self@.records.len(),
    {
        RecordsIter::new(self.records.as_slice(), self.constants)
    }
}

/// Decodes the entry at the start of `input` and gives the function the
/// first of `records`, as many as it declares. Hands back the input and the
/// records behind them.
pub(crate) fn parse_function<'s, 'a>(
    input: &'a [u8],
    records: &'s [&'a [u8]],
    constants: ConstantPool<'a>,
) -> (r: Result<(&'a [u8], &'s [&'a [u8]], Function<'a>), Error>)
    requires
        constants.wf(),
        forall|i: int| 0 <= i < records@.len() ==> record_ok(#[trigger] records@[i]@),
    ensures
        match decode_function(input@, views(records@), constants@) {
            Ok(view) => r matches Ok((rest, rest_records, function)) && function.wf() && function@
                == view && rest@ == input@.skip(24) && views(rest_records@) == views(
                records@,
            ).skip(view.records.len() as int) && rest_records@.len() + view.records.len()
                == records@.len() && (forall|i: int|
                0 <= i < rest_records@.len() ==> record_ok(#[trigger] rest_records@[i]@)),
            Err(e) => r matches Err(found) && found == e,
        },
{
    let address: u64 = field_u64(input, 0)?;
    let stack_size: u64 = field_u64(input, 8)?;
    let record_count: u64 = field_u64(input, 16)?;
    let rest = slice_subrange(input, STACK_SIZE_RECORD_SIZE, input.len());

    if record_count > records.len() as u64 {
        return Err(Error::FunctionRecordMismatch);
    }
    let count: usize = record_count as usize;
    let own = slice_to_vec(slice_subrange(records, 0, count));
    let rest_records = slice_subrange(records, count, records.len());
    assert(views(own@) =~= views(records@).take(count as int));
    Ok((rest, rest_records, Function { address, stack_size, records: own, constants }))
}

/// A walk over the functions of one stack map. Each step hands the next
/// function its records and keeps the rest for the functions behind it.
#[derive(Debug)]
pub struct FunctionsIter<'map, 'input> {
    data: &'input [u8],
    record_slices: &'map [&'input [u8]],
    constants: ConstantPool<'input>,
    remaining_functions: usize,
}

impl<'map, 'input> FunctionsIter<'map, 'input> {
    /// The bytes of the table entries that are still to come.
    pub closed spec fn table(&self) -> Seq<u8> {
        self.data@
    }

    /// The bytes of each record that no function has been given yet.
    pub closed spec fn records(&self) -> Seq<Seq<u8>> {
        views(self.record_slices@)
    }

    /// The constants of the stack map.
    pub closed spec fn pool(&self) -> Seq<u64> {
        self.constants@
    }

    /// The number of functions that are still to come.
    pub closed spec fn remaining(&self) -> nat {
        self.remaining_functions as nat
    }

    /// The table left is exactly that of the functions left, and each
    /// record left is one whole record.
    pub closed spec fn wf(&self) -> bool {
        &&& self.constants.wf()
        &&& self.data@.len() == 24 * self.remaining_functions
        &&& forall|i: int|
            0 <= i < self.record_slices@.len() ==> record_ok(#[trigger] self.record_slices@[i]@)
    }

    /// Twenty-four bytes of table are left for each function that is still
    /// to come.
    pub proof fn lemma_remaining(&self)
        requires
            self.wf(),
        ensures
            self.table().len() == 24 * self.remaining(),
    {
    }

    pub(crate) fn new(
        data: &'input [u8],
        record_slices: &'map [&'input [u8]],
        constants: ConstantPool<'input>,
        remaining_functions: usize,
    ) -> (iter: Self)
        requires
            constants.wf(),
            data@.len() == 24 * remaining_functions,
            forall|i: int| 0 <= i < record_slices@.len() ==> record_ok(#[trigger] record_slices@[i]@),
        ensures
            iter.wf(),
            iter.table() == data@,
            iter.records() == views(record_slices@),
            iter.pool() == constants@,
            iter.remaining() == remaining_functions,
    {
        FunctionsIter { data, record_slices, constants, remaining_functions }
    }

    /// The next function, `None` behind the last one, or the error that the
    /// step ends in. After an error the walk stays where it is.
    pub fn next(&mut self) -> (r: Result<Option<Function<'input>>, Error>)
        requires
            old(self).wf(),
        ensures
            final(self).wf(),
            final(self).pool() == old(self).pool(),
            match functions_step(old(self).table(), old(self).records(), old(self).pool()) {
                Ok(Some(view)) => r matches Ok(Some(function)) && function.wf() && function@
                    == view && final(self).table() == old(self).table().skip(24) && final(self).records() == old(self).records().skip(view.records.len() as int) && final(self).remaining() == old(self).remaining() - 1,
                Ok(None) => r matches Ok(None) && final(self).table() == old(self).table()
                    && final(self).records() == old(self).records() && final(self).remaining()
                    == old(self).remaining() && old(self).remaining() == 0,
                Err(e) => r matches Err(found) && found == e && final(self).table() == old(self).table() && final(self).records() == old(self).records() && final(self).remaining() == old(self).remaining(),
            },
    {
        if self.data.is_empty() {
            if self.record_slices.is_empty() {
                return Ok(None);
            } else {
                return Err(Error::FunctionRecordMismatch);
            }
        }
        match parse_function(self.data, self.record_slices, self.constants) {
            Ok((rest_data, rest_record_slices, next_function)) => {
                self.data = rest_data;
                self.record_slices = rest_record_slices;
                self.remaining_functions -= 1;
                Ok(Some(next_function))
            },
            Err(error) => Err(error),
        }
    }

    /// The number of functions that are still to come, as both bounds.
    pub fn size_hint(&self) -> (r: (usize, Option<usize>))
        ensures
            r.0 == self.remaining(),
            r.1 == Some(r.0),
    {
        (self.remaining_functions, Some(self.remaining_functions))
    }

    /// Walks to the end and hands back every function, or the first error.
    pub fn collect(self) -> (r: Result<Vec<Function<'input>>, Error>)
        requires
            self.wf(),
        ensures
            match decode_functions(self.table(), self.records(), self.pool()) {
                Ok(all) => r matches Ok(found) && function_views(found@) == all && found@.len()
                    == self.remaining() && (forall|i: int|
                    0 <= i < found@.len() ==> (#[trigger] found@[i]).wf()),
                Err(e) => r matches Err(found) && found == e,
            },
    {
        let ghost table = self.table();
        let ghost records = self.records();
        let ghost pool = self.pool();
        let ghost count = self.remaining();
        let mut iter = self;
        let mut found: Vec<Function<'input>> = Vec::with_capacity(iter.remaining_functions);
        loop
            invariant
                table == self.table(),
                records == self.records(),
                pool == self.pool(),
                count == self.remaining(),
                iter.wf(),
                iter.pool() == pool,
                found@.len() + iter.remaining() == count,
                forall|i: int| 0 <= i < found@.len() ==> (#[trigger] found@[i]).wf(),
                prepend(
                    function_views(found@),
                    decode_functions(iter.table(), iter.records(), pool),
                ) == decode_functions(table, records, pool),
            decreases iter.remaining(),
        {
            match iter.next() {
                Ok(Some(function)) => {
                    proof {
                        let tail = decode_functions(iter.table(), iter.records(), pool);
                        if tail is Ok {
                            assert(function_views(found@.push(function)) + tail->Ok_0
                                =~= function_views(found@) + (seq![function@] + tail->Ok_0));
                        }
                    }
                    found.push(function);
                },
                Ok(None) => {
                    return Ok(found);
                },
                Err(error) => {
                    return Err(error);
                },
            }
        }
    }
}

} // verus!
