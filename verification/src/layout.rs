//! Sizes of the fixed parts of the format, and alignment padding.

use vstd::prelude::*;

verus! {

/// Bytes of the header: version and two reserved fields.
pub const HEADER_SIZE: usize = 4;

/// Bytes of the three counts that follow the header.
pub const COUNTS_SIZE: usize = 12;

/// Bytes of one entry of the function table.
pub const STACK_SIZE_RECORD_SIZE: usize = 24;

/// Bytes of one constant of the pool.
pub const CONSTANT_SIZE: usize = 8;

/// Bytes of the fixed fields a record starts with.
pub const RECORD_HEADER_SIZE: usize = 16;

/// Bytes of one location.
pub const LOCATION_SIZE: usize = 12;

/// Bytes of one live-out.
pub const LIVE_OUT_SIZE: usize = 4;

/// The alignment that both regions of a record are padded to.
pub const ALIGNMENT_BYTES: usize = 8;

/// The supported version of the format.
pub const SUPPORTED_VERSION: u8 = 3;

/// The number of filler bytes behind `parsed` bytes that brings the total to
/// a multiple of `alignment`.
pub open spec fn padding(parsed: int, alignment: int) -> int {
    (alignment - parsed % alignment) % alignment
}

/// `parsed` rounded up to a multiple of eight.
pub open spec fn aligned(parsed: int) -> int {
    parsed + padding(parsed, 8)
}

/// The number of filler bytes behind `parsed_bytes` bytes that brings the
/// total to a multiple of `alignment_bytes`.
pub fn padding_size(parsed_bytes: usize, alignment_bytes: usize) -> (r: usize)
    requires
        alignment_bytes > 0,
    ensures
        r == padding(parsed_bytes as int, alignment_bytes as int),
        r < alignment_bytes,
        (parsed_bytes + r) % (alignment_bytes as int) == 0,
{
    proof {
        lemma_padding(parsed_bytes as int, alignment_bytes as int);
    }
    (alignment_bytes - (parsed_bytes % alignment_bytes)) % alignment_bytes
}

/// Padding is smaller than the alignment and completes a multiple of it.
pub proof fn lemma_padding(parsed: int, alignment: int)
    requires
        parsed >= 0,
        alignment > 0,
    ensures
        0 <= padding(parsed, alignment) < alignment,
        (parsed + padding(parsed, alignment)) % alignment == 0,
        parsed % alignment == 0 ==> padding(parsed, alignment) == 0,
{
    let m = parsed % alignment;
    if m == 0 {
        assert((alignment - 0) % alignment == 0) by (nonlinear_arith)
            requires
                alignment > 0,
        ;
    } else {
        assert((alignment - m) % alignment == alignment - m) by (nonlinear_arith)
            requires
                0 < m < alignment,
        ;
        assert((parsed + (alignment - m)) % alignment == 0) by (nonlinear_arith)
            requires
                m == parsed % alignment,
                alignment > 0,
        ;
    }
}

} // verus!
