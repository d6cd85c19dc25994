//! Locations and live-outs: the fixed-size entries of a record.

use vstd::prelude::*;
use vstd::slice::slice_subrange;
use crate::error::{Error, eof_at, prepend};
use crate::layout::{LIVE_OUT_SIZE, LOCATION_SIZE};
use crate::pool::ConstantPool;
use crate::wire::{field_i32, field_u16, field_u8, i32_at, u16_at, u8_at};

verus! {

/// A DWARF register number.
pub type DwarfRegNum = u16;

/// Where a live value is to be found.
#[derive(Debug, Clone, Copy, PartialEq, Eq, Structural)]
pub enum LocationKind {
    /// In a register.
    Register(DwarfRegNum),
    /// At the address `register + offset`, which is the value itself.
    Direct { register: DwarfRegNum, offset: isize },
    /// In memory at the address `register + offset`.
    Indirect { register: DwarfRegNum, offset: isize },
    /// A constant, given inline or looked up in the constant pool.
    Constant(u64),
}

/// One live value: where it is and how many bytes it takes.
#[derive(Debug, Clone, Copy)]
pub struct Location {
    pub kind: LocationKind,
    pub size: u16,
}

impl Location {
    /// Where the value is.
    pub fn kind(&self) -> (r: &LocationKind)
        ensures
            *r == self.kind,
    {
        &self.kind
    }

    /// The size of the value in bytes.
    pub fn size(&self) -> (r: usize)
        ensures
            r == self.size,
    {
        self.size as usize
    }
}

/// A register that is live across a patch point.
#[derive(Debug, Clone, Copy)]
pub struct LiveOut {
    pub dwarf_reg_num: DwarfRegNum,
    pub size: u8,
}

impl LiveOut {
    /// The register.
    pub fn dwarf_reg_num(&self) -> (r: DwarfRegNum)
        ensures
            r == self.dwarf_reg_num,
    {
        self.dwarf_reg_num
    }

    /// The number of bytes of the register that are live.
    pub fn size(&self) -> (r: usize)
        ensures
            r == self.size,
    {
        self.size as usize
    }
}

/// Where a buffer of `len` bytes ends too early for a location: the offset
/// of the first field that does not fit, if there is one.
pub open spec fn location_fault(len: int) -> Option<int> {
    if len < 1 {
        Some(0)
    } else if len < 2 {
        Some(1)
    } else if len < 4 {
        Some(2)
    } else if len < 6 {
        Some(4)
    } else if len < 8 {
        Some(6)
    } else if len < 12 {
        Some(8)
    } else {
        None
    }
}

/// An inline constant: the signed field as a 64-bit two's complement value.
pub open spec fn small_constant(value: i32) -> u64 {
    if value >= 0 {
        value as u64
    } else {
        (value + 0x1_0000_0000_0000_0000) as u64
    }
}

/// The kind that a tag byte selects, from the register and the signed field
/// of the same location.
pub open spec fn location_kind(tag: u8, register: u16, value: i32, pool: Seq<u64>) -> Result<
    LocationKind,
    Error,
> {
    if tag == 1 {
        Ok(LocationKind::Register(register))
    } else if tag == 2 {
        Ok(LocationKind::Direct { register, offset: value as isize })
    } else if tag == 3 {
        Ok(LocationKind::Indirect { register, offset: value as isize })
    } else if tag == 4 {
        Ok(LocationKind::Constant(small_constant(value)))
    } else if tag == 5 {
        if 0 <= value < pool.len() {
            Ok(LocationKind::Constant(pool[value as int]))
        } else {
            Err(Error::InvalidConstantIndex { index: value })
        }
    } else {
        Err(Error::InvalidLocationKind { invalid_kind: tag })
    }
}

/// The location at the start of `s`: tag, reserved byte, size, register,
/// reserved field, signed field. Both reserved fields must be zero.
pub open spec fn decode_location(s: Seq<u8>, pool: Seq<u64>) -> Result<Location, Error> {
    match location_fault(s.len() as int) {
        Some(offset) => Err(eof_at(offset)),
        None => if u8_at(s, 1) != 0 || u16_at(s, 6) != 0 {
            Err(Error::MalformedReserved)
        } else {
            match location_kind(u8_at(s, 0), u16_at(s, 4), i32_at(s, 8), pool) {
                Ok(kind) => Ok(Location { kind, size: u16_at(s, 2) }),
                Err(e) => Err(e),
            }
        },
    }
}

/// All the locations of `s`, in order, or the first error among them.
pub open spec fn decode_locations(s: Seq<u8>, pool: Seq<u64>) -> Result<Seq<Location>, Error>
    decreases s.len(),
{
    if s.len() == 0 {
        Ok(Seq::empty())
    } else {
        match decode_location(s, pool) {
            Ok(location) => prepend(seq![location], decode_locations(s.skip(12), pool)),
            Err(e) => Err(e),
        }
    }
}

/// What one step of a walk over the locations `s` yields, and the bytes that
/// are left for the next step.
pub open spec fn locations_step(s: Seq<u8>, pool: Seq<u64>) -> (
    Result<Option<Location>, Error>,
    Seq<u8>,
) {
    if s.len() == 0 {
        (Ok(None), s)
    } else {
        match decode_location(s, pool) {
            Ok(location) => (Ok(Some(location)), s.skip(12)),
            Err(e) => (Err(e), s),
        }
    }
}

/// Where a buffer of `len` bytes ends too early for a live-out.
pub open spec fn live_out_fault(len: int) -> Option<int> {
    if len < 2 {
        Some(0)
    } else if len < 3 {
        Some(2)
    } else if len < 4 {
        Some(3)
    } else {
        None
    }
}

/// The live-out at the start of `s`: register, reserved byte, size. The
/// reserved byte may hold anything.
pub open spec fn decode_live_out(s: Seq<u8>) -> Result<LiveOut, Error> {
    match live_out_fault(s.len() as int) {
        Some(offset) => Err(eof_at(offset)),
        None => Ok(LiveOut { dwarf_reg_num: u16_at(s, 0), size: u8_at(s, 3) }),
    }
}

/// All the live-outs of `s`, in order, or the first error among them.
pub open spec fn decode_live_outs(s: Seq<u8>) -> Result<Seq<LiveOut>, Error>
    decreases s.len(),
{
    if s.len() == 0 {
        Ok(Seq::empty())
    } else {
        match decode_live_out(s) {
            Ok(live_out) => prepend(seq![live_out], decode_live_outs(s.skip(4))),
            Err(e) => Err(e),
        }
    }
}

/// What one step of a walk over the live-outs `s` yields, and the bytes that
/// are left for the next step.
pub open spec fn live_outs_step(s: Seq<u8>) -> (Result<Option<LiveOut>, Error>, Seq<u8>) {
    if s.len() == 0 {
        (Ok(None), s)
    } else {
        match decode_live_out(s) {
            Ok(live_out) => (Ok(Some(live_out)), s.skip(4)),
            Err(e) => (Err(e), s),
        }
    }
}

fn small_constant_value(value: i32) -> (r: u64)
    ensures
        r == small_constant(value),
{
    if value >= 0 {
        value as u64
    } else {
        let below: i32 = -(value + 1);
        u64::MAX - (below as u64)
    }
}

/// Decodes the location at the start of `input`, resolving a pool index in
/// `constants`, and hands back the input behind it.
pub fn parse_location<'a>(input: &'a [u8], constants: ConstantPool<'a>) -> (r: Result<
    (&'a [u8], Location),
    Error,
>)
    requires
        constants.wf(),
    ensures
        match decode_location(input@, constants@) {
            Ok(location) => r matches Ok((rest, found)) && found == location && rest@
                == input@.skip(12),
            Err(e) => r matches Err(found) && found == e,
        },
{
    let loc_kind: u8 = field_u8(input, 0)?;
    let zeroed_1: u8 = field_u8(input, 1)?;
    let size: u16 = field_u16(input, 2)?;
    let dwarf_reg_num: u16 = field_u16(input, 4)?;
    let zeroed_2: u16 = field_u16(input, 6)?;
    let offset_or_small_const: i32 = field_i32(input, 8)?;
    let rest = slice_subrange(input, LOCATION_SIZE, input.len());

    if zeroed_1 != 0 || zeroed_2 != 0 {
        return Err(Error::MalformedReserved);
    }
    let kind = match loc_kind {
        1 => LocationKind::Register(dwarf_reg_num),
        2 => LocationKind::Direct {
            register: dwarf_reg_num,
            offset: offset_or_small_const as isize,
        },
        3 => LocationKind::Indirect {
            register: dwarf_reg_num,
            offset: offset_or_small_const as isize,
        },
        4 => LocationKind::Constant(small_constant_value(offset_or_small_const)),
        5 => {
            if offset_or_small_const < 0 {
                return Err(Error::InvalidConstantIndex { index: offset_or_small_const });
            }
            match constants.get(offset_or_small_const as usize) {
                Some(constant) => LocationKind::Constant(constant),
                None => {
                    return Err(Error::InvalidConstantIndex { index: offset_or_small_const });
                },
            }
        },
        invalid_kind => {
            return Err(Error::InvalidLocationKind { invalid_kind });
        },
    };
    Ok((rest, Location { kind, size }))
}

/// Decodes the live-out at the start of `input` and hands back the input
/// behind it.
pub fn parse_live_out<'a>(input: &'a [u8]) -> (r: Result<(&'a [u8], LiveOut), Error>)
    ensures
        match decode_live_out(input@) {
            Ok(live_out) => r matches Ok((rest, found)) && found == live_out && rest@
                == input@.skip(4),
            Err(e) => r matches Err(found) && found == e,
        },
{
    let dwarf_reg_num: u16 = field_u16(input, 0)?;
    let _reserved: u8 = field_u8(input, 2)?;
    let size: u8 = field_u8(input, 3)?;
    let rest = slice_subrange(input, LIVE_OUT_SIZE, input.len());
    Ok((rest, LiveOut { dwarf_reg_num, size }))
}

/// A walk over the locations of one record, decoding each when it is asked
/// for.
#[derive(Debug)]
pub struct LocationsIter<'input> {
    data: &'input [u8],
    constants: ConstantPool<'input>,
    remaining_locations: usize,
}

impl<'input> LocationsIter<'input> {
    /// The bytes of the locations that are still to come.
    pub closed spec fn bytes(&self) -> Seq<u8> {
        self.data@
    }

    /// The constants that pool indices are resolved in.
    pub closed spec fn pool(&self) -> Seq<u64> {
        self.constants@
    }

    /// The number of locations that are still to come.
    pub closed spec fn remaining(&self) -> nat {
        self.remaining_locations as nat
    }

    /// The bytes left are exactly those of the locations left.
    pub closed spec fn wf(&self) -> bool {
        &&& self.constants.wf()
        &&& self.data@.len() == 12 * self.remaining_locations
    }

    /// Twelve bytes are left for each location that is still to come.
    pub proof fn lemma_remaining(&self)
        requires
            self.wf(),
        ensures
            self.bytes().len() == 12 * self.remaining(),
    {
    }

    pub(crate) fn new(
        data: &'input [u8],
        constants: ConstantPool<'input>,
        remaining_locations: usize,
    ) -> (iter: Self)
        requires
            constants.wf(),
            data@.len() == 12 * remaining_locations,
        ensures
            iter.wf(),
            iter.bytes() == data@,
            iter.pool() == constants@,
            iter.remaining() == remaining_locations,
    {
        LocationsIter { data, constants, remaining_locations }
    }

    /// The next location, `None` behind the last one, or the error that the
    /// next location is decoded to. After an error the walk stays where it is.
    pub fn next(&mut self) -> (r: Result<Option<Location>, Error>)
        requires
            old(self).wf(),
        ensures
            final(self).wf(),
            final(self).pool() == old(self).pool(),
            r == locations_step(old(self).bytes(), old(self).pool()).0,
            final(self).bytes() == locations_step(old(self).bytes(), old(self).pool()).1,
            r matches Ok(Some(_)) ==> final(self).remaining() == old(self).remaining() - 1,
            !(r matches Ok(Some(_))) ==> final(self).remaining() == old(self).remaining(),
            r matches Ok(None) <==> old(self).remaining() == 0,
    {
        if self.data.is_empty() {
            return Ok(None);
        }
        match parse_location(self.data, self.constants) {
            Ok((rest, next_location)) => {
                self.data = rest;
                self.remaining_locations -= 1;
                Ok(Some(next_location))
            },
            Err(error) => Err(error),
        }
    }

    /// The number of locations that are still to come, as both bounds.
    pub fn size_hint(&self) -> (r: (usize, Option<usize>))
        ensures
            r.0 == self.remaining(),
            r.1 == Some(r.0),
    {
        (self.remaining_locations, Some(self.remaining_locations))
    }

    /// Walks to the end and hands back every location, or the first error.
    pub fn collect(self) -> (r: Result<Vec<Location>, Error>)
        requires
            self.wf(),
        ensures
            match decode_locations(self.bytes(), self.pool()) {
                Ok(all) => r matches Ok(found) && found@ == all && found@.len()
                    == self.remaining(),
                Err(e) => r matches Err(found) && found == e,
            },
    {
        let ghost start = self.bytes();
        let ghost pool = self.pool();
        let ghost count = self.remaining();
        let mut iter = self;
        let mut found: Vec<Location> = Vec::with_capacity(iter.remaining_locations);
        loop
            invariant
                start == self.bytes(),
                pool == self.pool(),
                count == self.remaining(),
                iter.wf(),
                iter.pool() == pool,
                found@.len() + iter.remaining() == count,
                prepend(found@, decode_locations(iter.bytes(), pool)) == decode_locations(
                    start,
                    pool,
                ),
            decreases iter.remaining(),
        {
            let ghost before = iter.bytes();
            match iter.next() {
                Ok(Some(location)) => {
                    proof {
                        let tail = decode_locations(before.skip(12), pool);
                        if tail is Ok {
                            assert(found@.push(location) + tail->Ok_0 =~= found@ + (seq![location]
                                + tail->Ok_0));
                        }
                    }
                    found.push(location);
                },
                Ok(None) => {
                    return Ok(found);
                },
                Err(error) => {
                    return Err(error);
                },
            }
        }
    }
}

/// A walk over the live-outs of one record, decoding each when it is asked
/// for.
#[derive(Debug)]
pub struct LiveOutsIter<'input> {
    data: &'input [u8],
    remaining_live_outs: usize,
}

impl<'input> LiveOutsIter<'input> {
    /// The bytes of the live-outs that are still to come.
    pub closed spec fn bytes(&self) -> Seq<u8> {
        self.data@
    }

    /// The number of live-outs that are still to come.
    pub closed spec fn remaining(&self) -> nat {
        self.remaining_live_outs as nat
    }

    /// The bytes left are exactly those of the live-outs left.
    pub closed spec fn wf(&self) -> bool {
        self.data@.len() == 4 * self.remaining_live_outs
    }

    /// Four bytes are left for each live-out that is still to come.
    pub proof fn lemma_remaining(&self)
        requires
            self.wf(),
        ensures
            self.bytes().len() == 4 * self.remaining(),
    {
    }

    pub(crate) fn new(data: &'input [u8], remaining_live_outs: usize) -> (iter: Self)
        requires
            data@.len() == 4 * remaining_live_outs,
        ensures
            iter.wf(),
            iter.bytes() == data@,
            iter.remaining() == remaining_live_outs,
    {
        LiveOutsIter { data, remaining_live_outs }
    }

    /// The next live-out, or `None` behind the last one. A walk over whole
    /// live-outs never ends in an error.
    pub fn next(&mut self) -> (r: Result<Option<LiveOut>, Error>)
        requires
            old(self).wf(),
        ensures
            final(self).wf(),
            r == live_outs_step(old(self).bytes()).0,
            final(self).bytes() == live_outs_step(old(self).bytes()).1,
            r is Ok,
            r matches Ok(Some(_)) ==> final(self).remaining() == old(self).remaining() - 1,
            r matches Ok(None) <==> old(self).remaining() == 0,
    {
        if self.data.is_empty() {
            return Ok(None);
        }
        match parse_live_out(self.data) {
            Ok((rest, next_live_out)) => {
                self.data = rest;
                self.remaining_live_outs -= 1;
                Ok(Some(next_live_out))
            },
            Err(error) => Err(error),
        }
    }

    /// The number of live-outs that are still to come, as both bounds.
    pub fn size_hint(&self) -> (r: (usize, Option<usize>))
        ensures
            r.0 == self.remaining(),
            r.1 == Some(r.0),
    {
        (self.remaining_live_outs, Some(self.remaining_live_outs))
    }

    /// Walks to the end and hands back every live-out.
    pub fn collect(self) -> (r: Result<Vec<LiveOut>, Error>)
        requires
            self.wf(),
        ensures
            r matches Ok(found) && Ok::<Seq<LiveOut>, Error>(found@) == decode_live_outs(
                self.bytes(),
            ) && found@.len() == self.remaining(),
    {
        let ghost start = self.bytes();
        let ghost count = self.remaining();
        let mut iter = self;
        let mut found: Vec<LiveOut> = Vec::with_capacity(iter.remaining_live_outs);
        loop
            invariant
                start == self.bytes(),
                count == self.remaining(),
                iter.wf(),
                found@.len() + iter.remaining() == count,
                prepend(found@, decode_live_outs(iter.bytes())) == decode_live_outs(start),
            decreases iter.remaining(),
        {
            let ghost before = iter.bytes();
            match iter.next() {
                Ok(Some(live_out)) => {
                    proof {
                        let tail = decode_live_outs(before.skip(4));
                        if tail is Ok {
                            assert(found@.push(live_out) + tail->Ok_0 =~= found@ + (seq![live_out]
                                + tail->Ok_0));
                        }
                    }
                    found.push(live_out);
                },
                Ok(None) => {
                    return Ok(found);
                },
                Err(error) => {
                    return Err(error);
                },
            }
        }
    }
}

} // verus!
