//! Little-endian fields: what they mean, and how they are read.

use vstd::prelude::*;
use vstd::slice::slice_subrange;
use crate::error::{Error, ErrorKind, eof_at};

verus! {

/// The byte at `at`.
pub open spec fn u8_at(s: Seq<u8>, at: int) -> u8 {
    s[at]
}

/// The little-endian value of the two bytes at `at`.
pub open spec fn u16_at(s: Seq<u8>, at: int) -> u16 {
    (s[at] as int + 0x100 * (s[at + 1] as int)) as u16
}

/// The little-endian value of the four bytes at `at`.
pub open spec fn u32_at(s: Seq<u8>, at: int) -> u32 {
    (u16_at(s, at) as int + 0x1_0000 * (u16_at(s, at + 2) as int)) as u32
}

/// The little-endian value of the eight bytes at `at`.
pub open spec fn u64_at(s: Seq<u8>, at: int) -> u64 {
    (u32_at(s, at) as int + 0x1_0000_0000 * (u32_at(s, at + 4) as int)) as u64
}

/// The four bytes at `at` as a little-endian two's complement value.
pub open spec fn i32_at(s: Seq<u8>, at: int) -> i32 {
    let v = u32_at(s, at) as int;
    if v < 0x8000_0000 {
        v as i32
    } else {
        (v - 0x1_0000_0000) as i32
    }
}

/// nom's `number::complete::le_u8`: on an empty input it fails; otherwise it
/// hands back the first byte and the input behind it.
#[verifier::external_body]
fn le_u8(input: &[u8]) -> (r: Option<(&[u8], u8)>)
    ensures
        input@.len() < 1 ==> r is None,
        input@.len() >= 1 ==> r is Some && r.unwrap().0@ == input@.skip(1) && r.unwrap().1
            == u8_at(input@, 0),
{
    nom::number::complete::le_u8::<&[u8], nom::error::Error<&[u8]>>(input).ok()
}

/// nom's `number::complete::le_u16`: on fewer than two bytes it fails;
/// otherwise it hands back the little-endian value of the first two and the
/// input behind them.
#[verifier::external_body]
fn le_u16(input: &[u8]) -> (r: Option<(&[u8], u16)>)
    ensures
        input@.len() < 2 ==> r is None,
        input@.len() >= 2 ==> r is Some && r.unwrap().0@ == input@.skip(2) && r.unwrap().1
            == u16_at(input@, 0),
{
    nom::number::complete::le_u16::<&[u8], nom::error::Error<&[u8]>>(input).ok()
}

/// nom's `number::complete::le_u32`: on fewer than four bytes it fails;
/// otherwise it hands back the little-endian value of the first four and the
/// input behind them.
#[verifier::external_body]
fn le_u32(input: &[u8]) -> (r: Option<(&[u8], u32)>)
    ensures
        input@.len() < 4 ==> r is None,
        input@.len() >= 4 ==> r is Some && r.unwrap().0@ == input@.skip(4) && r.unwrap().1
            == u32_at(input@, 0),
{
    nom::number::complete::le_u32::<&[u8], nom::error::Error<&[u8]>>(input).ok()
}

/// nom's `number::complete::le_u64`: on fewer than eight bytes it fails;
/// otherwise it hands back the little-endian value of the first eight and the
/// input behind them.
#[verifier::external_body]
fn le_u64(input: &[u8]) -> (r: Option<(&[u8], u64)>)
    ensures
        input@.len() < 8 ==> r is None,
        input@.len() >= 8 ==> r is Some && r.unwrap().0@ == input@.skip(8) && r.unwrap().1
            == u64_at(input@, 0),
{
    nom::number::complete::le_u64::<&[u8], nom::error::Error<&[u8]>>(input).ok()
}

/// nom's `number::complete::le_i32`: on fewer than four bytes it fails;
/// otherwise it hands back the first four, read as a little-endian two's
/// complement value, and the input behind them.
#[verifier::external_body]
fn le_i32(input: &[u8]) -> (r: Option<(&[u8], i32)>)
    ensures
        input@.len() < 4 ==> r is None,
        input@.len() >= 4 ==> r is Some && r.unwrap().0@ == input@.skip(4) && r.unwrap().1
            == i32_at(input@, 0),
{
    nom::number::complete::le_i32::<&[u8], nom::error::Error<&[u8]>>(input).ok()
}

/// nom's `bytes::complete::take`: where the input holds fewer than `count`
/// bytes it fails; otherwise it hands back the first `count` bytes and the
/// input behind them.
#[verifier::external_body]
fn take(count: usize, input: &[u8]) -> (r: Option<(&[u8], &[u8])>)
    ensures
        input@.len() < count ==> r is None,
        input@.len() >= count ==> r is Some && r.unwrap().0@ == input@.skip(count as int)
            && r.unwrap().1@ == input@.take(count as int),
{
    nom::bytes::complete::take::<usize, &[u8], nom::error::Error<&[u8]>>(count)(input).ok()
}

/// Reads the byte at `at`, or reports that the buffer ends there.
pub fn field_u8(input: &[u8], at: usize) -> (r: Result<u8, Error>)
    ensures
        at + 1 <= input@.len() ==> r == Ok::<u8, Error>(u8_at(input@, at as int)),
        at + 1 > input@.len() ==> r == Err::<u8, Error>(eof_at(at as int)),
{
    if at > input.len() {
        return Err(Error::ParserError { offset: at, kind: ErrorKind::Eof });
    }
    match le_u8(slice_subrange(input, at, input.len())) {
        Some((_, value)) => Ok(value),
        None => Err(Error::ParserError { offset: at, kind: ErrorKind::Eof }),
    }
}

/// Reads the two-byte field at `at`, or reports that the buffer ends in it.
pub fn field_u16(input: &[u8], at: usize) -> (r: Result<u16, Error>)
    ensures
        at + 2 <= input@.len() ==> r == Ok::<u16, Error>(u16_at(input@, at as int)),
        at + 2 > input@.len() ==> r == Err::<u16, Error>(eof_at(at as int)),
{
    if at > input.len() {
        return Err(Error::ParserError { offset: at, kind: ErrorKind::Eof });
    }
    match le_u16(slice_subrange(input, at, input.len())) {
        Some((_, value)) => Ok(value),
        None => Err(Error::ParserError { offset: at, kind: ErrorKind::Eof }),
    }
}

/// Reads the four-byte field at `at`, or reports that the buffer ends in it.
pub fn field_u32(input: &[u8], at: usize) -> (r: Result<u32, Error>)
    ensures
        at + 4 <= input@.len() ==> r == Ok::<u32, Error>(u32_at(input@, at as int)),
        at + 4 > input@.len() ==> r == Err::<u32, Error>(eof_at(at as int)),
{
    if at > input.len() {
        return Err(Error::ParserError { offset: at, kind: ErrorKind::Eof });
    }
    match le_u32(slice_subrange(input, at, input.len())) {
        Some((_, value)) => Ok(value),
        None => Err(Error::ParserError { offset: at, kind: ErrorKind::Eof }),
    }
}

/// Reads the eight-byte field at `at`, or reports that the buffer ends in it.
pub fn field_u64(input: &[u8], at: usize) -> (r: Result<u64, Error>)
    ensures
        at + 8 <= input@.len() ==> r == Ok::<u64, Error>(u64_at(input@, at as int)),
        at + 8 > input@.len() ==> r == Err::<u64, Error>(eof_at(at as int)),
{
    if at > input.len() {
        return Err(Error::ParserError { offset: at, kind: ErrorKind::Eof });
    }
    match le_u64(slice_subrange(input, at, input.len())) {
        Some((_, value)) => Ok(value),
        None => Err(Error::ParserError { offset: at, kind: ErrorKind::Eof }),
    }
}

/// Reads the signed four-byte field at `at`, or reports that the buffer ends
/// in it.
pub fn field_i32(input: &[u8], at: usize) -> (r: Result<i32, Error>)
    ensures
        at + 4 <= input@.len() ==> r == Ok::<i32, Error>(i32_at(input@, at as int)),
        at + 4 > input@.len() ==> r == Err::<i32, Error>(eof_at(at as int)),
{
    if at > input.len() {
        return Err(Error::ParserError { offset: at, kind: ErrorKind::Eof });
    }
    match le_i32(slice_subrange(input, at, input.len())) {
        Some((_, value)) => Ok(value),
        None => Err(Error::ParserError { offset: at, kind: ErrorKind::Eof }),
    }
}

/// Borrows the `count` bytes at `at`, or reports that the buffer ends before
/// the region does.
pub fn region<'a>(input: &'a [u8], at: usize, count: usize) -> (r: Result<&'a [u8], Error>)
    ensures
        at + count <= input@.len() ==> (r matches Ok(bytes) && bytes@ == input@.subrange(
            at as int,
            at + count,
        )),
        at + count > input@.len() ==> (r matches Err(e) && e == eof_at(at as int)),
{
    if at > input.len() {
        return Err(Error::ParserError { offset: at, kind: ErrorKind::Eof });
    }
    match take(count, slice_subrange(input, at, input.len())) {
        Some((_, taken)) => {
            Ok(taken)
        },
        None => Err(Error::ParserError { offset: at, kind: ErrorKind::Eof }),
    }
}

/// Borrows the `count` entries of `size` bytes each that start at `at`, or
/// reports that the buffer ends before they do.
pub fn entries<'a>(input: &'a [u8], at: usize, count: u32, size: usize) -> (r: Result<
    &'a [u8],
    Error,
>)
    ensures
        at + count * size <= input@.len() ==> (r matches Ok(bytes) && bytes@ == input@.subrange(
            at as int,
            at + count * size,
        ) && bytes@.len() == count * size && at + count * size <= usize::MAX),
        at + count * size > input@.len() ==> (r matches Err(e) && e == eof_at(at as int)),
{
    if at > input.len() {
        assert(count * size >= 0) by (nonlinear_arith)
            requires
                count >= 0,
                size >= 0,
        ;
        return Err(Error::ParserError { offset: at, kind: ErrorKind::Eof });
    }
    let left: usize = input.len() - at;
    assert(0 <= count * size <= 0xffff_ffff * 0xffff_ffff_ffff_ffff) by (nonlinear_arith)
        requires
            0 <= count <= 0xffff_ffff,
            0 <= size <= 0xffff_ffff_ffff_ffff,
    ;
    let wanted: u128 = (count as u128) * (size as u128);
    if wanted > left as u128 {
        return Err(Error::ParserError { offset: at, kind: ErrorKind::Eof });
    }
    region(input, at, wanted as usize)
}

} // verus!
