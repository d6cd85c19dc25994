//! What holds of every section, stated over the functions that say what a
//! decode yields.

use vstd::prelude::*;
use crate::error::Error;
use crate::function::{FunctionView, decode_function, decode_functions};
use crate::layout::padding;
use crate::location::{
    Location, LocationKind, decode_live_outs, decode_location, decode_locations,
};
use crate::stack_map::{
    StackMap, decode_section, decode_stack_map, lemma_scan_records, pool_end, stack_map_views,
};
use crate::wire::{i32_at, u16_at, u32_at, u64_at, u8_at};

verus! {

/// The number of records that the entries of `table` declare, all together.
pub open spec fn declared_records(table: Seq<u8>) -> int
    decreases table.len(),
{
    if table.len() < 24 {
        0
    } else {
        u64_at(table, 16) as int + declared_records(table.skip(24))
    }
}

/// The number of records that `functions` hold, all together.
pub open spec fn held_records(functions: Seq<FunctionView>) -> int
    decreases functions.len(),
{
    if functions.len() == 0 {
        0
    } else {
        functions[0].records.len() as int + held_records(functions.skip(1))
    }
}

/// The functions of a table take their records one after another. So the
/// walk over a whole table succeeds exactly when the counts that its entries
/// declare add up to the number of records; then there is a function for
/// each entry, and the functions hold all the records between them. A walk
/// that does not succeed ends in `FunctionRecordMismatch`.
pub proof fn lemma_functions_partition_records(
    table: Seq<u8>,
    records: Seq<Seq<u8>>,
    pool: Seq<u64>,
)
    requires
        table.len() % 24 == 0,
    ensures
        declared_records(table) >= 0,
        decode_functions(table, records, pool) is Ok <==> declared_records(table) == records.len(),
        decode_functions(table, records, pool) matches Ok(all) ==> 24 * all.len() == table.len()
            && held_records(all) == records.len(),
        decode_functions(table, records, pool) matches Err(e) ==> e
            == Error::FunctionRecordMismatch,
    decreases table.len(),
{
    if table.len() > 0 {
        let count = u64_at(table, 16) as int;
        lemma_declared_records(table.skip(24));
        if count <= records.len() {
            let function = decode_function(table, records, pool)->Ok_0;
            let behind = records.skip(count);
            lemma_functions_partition_records(table.skip(24), behind, pool);
            let tail = decode_functions(table.skip(24), behind, pool);
            if tail is Ok {
                let all = seq![function] + tail->Ok_0;
                assert(all.skip(1) =~= tail->Ok_0);
            }
        }
    }
}

/// The counts of a table add up to no less than nothing.
pub proof fn lemma_declared_records(table: Seq<u8>)
    ensures
        declared_records(table) >= 0,
    decreases table.len(),
{
    if table.len() >= 24 {
        lemma_declared_records(table.skip(24));
    }
}

/// A stack map holds as many records as its header counts, so its functions
/// can be walked to the end exactly when their record counts add up to the
/// count of the header.
pub proof fn lemma_record_counts_match_header(s: Seq<u8>)
    requires
        decode_stack_map(s) is Ok,
    ensures
        ({
            let map = decode_stack_map(s)->Ok_0.0;
            &&& map.records.len() == u32_at(s, 12)
            &&& decode_functions(map.functions, map.records, map.constants) is Ok
                <==> declared_records(map.functions) == u32_at(s, 12)
            &&& decode_functions(map.functions, map.records, map.constants) matches Err(e) ==> e
                == Error::FunctionRecordMismatch
        }),
{
    let map = decode_stack_map(s)->Ok_0.0;
    lemma_scan_records(s, pool_end(s), u32_at(s, 12) as nat);
    lemma_functions_partition_records(map.functions, map.records, map.constants);
}

/// Decoding is a function of the bytes: two results of walking one section
/// from its start hold the same stack maps, one by one.
pub proof fn lemma_decode_twice(section: Seq<u8>, first: Seq<StackMap>, second: Seq<StackMap>)
    requires
        decode_section(section, 0) == Ok::<_, Error>(stack_map_views(first)),
        decode_section(section, 0) == Ok::<_, Error>(stack_map_views(second)),
    ensures
        first.len() == second.len(),
        forall|i: int| 0 <= i < first.len() ==> (#[trigger] first[i])@ == second[i]@,
{
    assert(stack_map_views(second).len() == second.len());
    assert forall|i: int| 0 <= i < first.len() implies (#[trigger] first[i])@ == second[i]@ by {
        assert(stack_map_views(first)[i] == stack_map_views(second)[i]);
    }
}

/// Padding to eight bytes is `(8 - n mod 8) mod 8`: nothing behind a
/// multiple of eight, and what is missing to the next one otherwise.
pub proof fn lemma_padding_to_eight(n: int)
    requires
        n >= 0,
    ensures
        padding(n, 8) == (8 - n % 8) % 8,
        n % 8 == 0 ==> padding(n, 8) == 0,
        n % 8 != 0 ==> padding(n, 8) == 8 - n % 8,
        (n + padding(n, 8)) % 8 == 0,
{
}

/// A location whose tag asks for a pooled constant resolves to the constant
/// at its index where the pool holds that many, and is refused with
/// `InvalidConstantIndex` where it does not.
pub proof fn lemma_pooled_constant(s: Seq<u8>, pool: Seq<u64>)
    requires
        s.len() >= 12,
        u8_at(s, 0) == 5,
        u8_at(s, 1) == 0,
        u16_at(s, 6) == 0,
    ensures
        0 <= i32_at(s, 8) < pool.len() ==> decode_location(s, pool) == Ok::<_, Error>(
            Location { kind: LocationKind::Constant(pool[i32_at(s, 8) as int]), size: u16_at(s, 2) },
        ),
        !(0 <= i32_at(s, 8) < pool.len()) ==> decode_location(s, pool) == Err::<Location, _>(
            Error::InvalidConstantIndex { index: i32_at(s, 8) },
        ),
{
}

/// A location whose tag is none of one to five is refused with
/// `InvalidLocationKind`.
pub proof fn lemma_invalid_location_kind(s: Seq<u8>, pool: Seq<u64>)
    requires
        s.len() >= 12,
        u8_at(s, 1) == 0,
        u16_at(s, 6) == 0,
        u8_at(s, 0) == 0 || u8_at(s, 0) >= 6,
    ensures
        decode_location(s, pool) == Err::<Location, _>(
            Error::InvalidLocationKind { invalid_kind: u8_at(s, 0) },
        ),
{
}

/// A header with a version other than three is refused with
/// `UnsupportedVersion`, whatever follows it, and even where nothing does.
pub proof fn lemma_unsupported_version(s: Seq<u8>)
    requires
        s.len() >= 4,
        u8_at(s, 1) == 0,
        u16_at(s, 2) == 0,
        u8_at(s, 0) != 3,
    ensures
        decode_stack_map(s) is Err,
        decode_stack_map(s)->Err_0 == Error::UnsupportedVersion,
{
}

/// A walk over whole locations yields one location for every twelve bytes,
/// unless it ends in an error.
pub proof fn lemma_locations_count(s: Seq<u8>, pool: Seq<u64>)
    requires
        s.len() % 12 == 0,
    ensures
        decode_locations(s, pool) matches Ok(all) ==> 12 * all.len() == s.len(),
    decreases s.len(),
{
    if s.len() > 0 {
        if decode_location(s, pool) is Ok {
            lemma_locations_count(s.skip(12), pool);
        }
    }
}

/// A walk over whole locations never ends in a structural error: what it
/// can end in is a reserved field that is not zero, an index that the pool
/// does not hold, or a tag that names no kind.
pub proof fn lemma_locations_errors(s: Seq<u8>, pool: Seq<u64>)
    requires
        s.len() % 12 == 0,
    ensures
        decode_locations(s, pool) matches Err(e) ==> e == Error::MalformedReserved
            || e is InvalidConstantIndex || e is InvalidLocationKind,
    decreases s.len(),
{
    if s.len() > 0 {
        if decode_location(s, pool) is Ok {
            lemma_locations_errors(s.skip(12), pool);
        }
    }
}

/// A walk over whole live-outs never fails and yields one live-out for
/// every four bytes.
pub proof fn lemma_live_outs_count(s: Seq<u8>)
    requires
        s.len() % 4 == 0,
    ensures
        decode_live_outs(s) matches Ok(all) && 4 * all.len() == s.len(),
    decreases s.len(),
{
    if s.len() > 0 {
        lemma_live_outs_count(s.skip(4));
    }
}

} // verus!
