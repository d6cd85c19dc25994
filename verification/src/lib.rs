//! Decoder for LLVM stack map sections.
//!
//! A section is a sequence of stack maps. Each stack map lists functions, each
//! function owns records, and each record describes the locations and live-out
//! registers at one patch point. Everything is decoded from one immutable byte
//! buffer, and every value that is handed out borrows from that buffer alone.
//!
//! The bytes of a stack map are walked once, when it is decoded, to find where
//! each record ends. What a record holds is decoded when it is asked for.

pub mod error;
pub mod function;
pub mod laws;
pub mod layout;
pub mod location;
pub mod pool;
pub mod record;
pub mod stack_map;
pub mod wire;

pub use crate::error::{Error, ErrorKind};
pub use crate::function::{Function, FunctionsIter};
pub use crate::layout::padding_size;
pub use crate::location::{
    DwarfRegNum, LiveOut, LiveOutsIter, Location, LocationKind, LocationsIter,
};
pub use crate::pool::ConstantPool;
pub use crate::record::{Record, RecordsIter};
pub use crate::stack_map::{LLVMStackMaps, StackMap, StackMapVersion, StackMapsIter};
