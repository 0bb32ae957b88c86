//! The resources a kernel names: buffers it reads or writes, and positions in
//! the workgroup grid. They exist only on the device; the host never reads them.
use core::marker::PhantomData;
use vstd::prelude::*;

verus! {

/// A storage buffer a kernel reads.
pub struct Read<T>(PhantomData<T>);

/// A storage buffer a kernel reads at an offset that moves with each dispatch.
pub struct DynamicRead<T>(PhantomData<T>);

/// A storage buffer a kernel reads and writes.
pub struct ReadWrite<T>(PhantomData<T>);

/// A position in the workgroup grid.
#[derive(Clone, Copy, Debug, PartialEq, Eq, Structural)]
pub struct Uvec3 {
    pub x: u32,
    pub y: u32,
    pub z: u32,
}

} // verus!
