//! Verified host-side logic of the neura tensor runtime: the device ABI
//! (elements, task kinds, refusals, schedules, profiles, record layouts),
//! tensor shapes, and the decisions the runtime takes on the host.
use vstd::prelude::*;

pub mod capability;
pub mod compiler;
pub mod compute;
pub mod context;
pub mod dispatch;
pub mod element;
pub mod frames;
pub mod graph;
pub mod init;
pub mod ir;
pub mod kind;
pub mod library;
pub mod lowered;
pub mod placement;
pub mod pool;
pub mod record;
pub mod profile;
pub mod readback;
pub mod program;
pub mod refusal;
pub mod resource;
pub mod schedule;
pub mod shape;
pub mod store;
pub mod strategy;
pub mod text;
pub mod transfer;
pub mod uniform;
pub mod window;
pub mod workgroup;
pub mod writes;

verus! {

/// The highest rank a tensor declares.
pub const MAX_RANK: u32 = 4;
/// The most segments one dispatch walks.
pub const MAX_DISPATCH_SEGMENTS: u32 = 65535;
/// The words a refusal occupies on the device.
pub const REFUSAL_WORDS: u32 = 1;
/// The id that names no value.
pub const NO_VALUE: u32 = 0xffff_ffff;
/// The bytes of one device word.
pub const WORD_BYTES: u64 = 4;
/// The bytes a refusal occupies on the device.
pub const REFUSAL_BYTES: u64 = 4;

} // verus!
