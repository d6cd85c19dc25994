//! The constant pool of a stack map.

use vstd::prelude::*;
use crate::layout::CONSTANT_SIZE;
use crate::wire::{field_u64, u64_at};

verus! {

/// The constants that a run of bytes holds: one for each eight bytes, each
/// the little-endian value of its bytes.
pub open spec fn constants_of(bytes: Seq<u8>) -> Seq<u64> {
    Seq::new((bytes.len() / 8) as nat, |i: int| u64_at(bytes, 8 * i))
}

/// The 64-bit constants of one stack map, borrowed from the section. A
/// constant is decoded from its bytes when it is looked up.
#[derive(Debug, Clone, Copy)]
pub struct ConstantPool<'input> {
    bytes: &'input [u8],
}

impl<'input> ConstantPool<'input> {
    /// The constants in order.
    pub closed spec fn view(&self) -> Seq<u64> {
        constants_of(self.bytes@)
    }

    /// The pool covers whole constants only.
    pub closed spec fn wf(&self) -> bool {
        self.bytes@.len() % 8 == 0
    }

    /// The pool over `bytes`, which must hold whole constants.
    pub fn new(bytes: &'input [u8]) -> (pool: Self)
        requires
            bytes@.len() % 8 == 0,
        ensures
            pool.wf(),
            pool@ == constants_of(bytes@),
    {
        ConstantPool { bytes }
    }

    /// The number of constants.
    pub fn len(&self) -> (n: usize)
        requires
            self.wf(),
        ensures
            n == self@.len(),
    {
        self.bytes.len() / CONSTANT_SIZE
    }

    /// The constant at `index`, if the pool holds that many.
    pub fn get(&self, index: usize) -> (value: Option<u64>)
        requires
            self.wf(),
        ensures
            index < self@.len() ==> value == Some(self@[index as int]),
            index >= self@.len() ==> value is None,
    {
        if index >= self.bytes.len() / CONSTANT_SIZE {
            return None;
        }
        let at: usize = index * CONSTANT_SIZE;
        match field_u64(self.bytes, at) {
            Ok(value) => Some(value),
            Err(_) => None,
        }
    }
}

} // verus!
