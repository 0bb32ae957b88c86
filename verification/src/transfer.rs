//! The checks the runtime applies before it hands work to a device: buffers,
//! host writes and reads, copies, clears, bind groups and dispatches.
use crate::capability::{usage_has, BufferUsages, Limits};
use vstd::prelude::*;

verus! {

/// What the runtime knows of a device buffer: the allocation it names, its
/// size in bytes and what it is used for.
#[derive(Clone, Copy, Debug, PartialEq, Eq, Structural)]
pub struct BufferFacts {
    pub allocation: u64,
    pub size: u64,
    pub usage: BufferUsages,
}

/// `value` is a multiple of `step`; every value is a multiple of itself, and
/// only zero is a multiple of zero.
pub open spec fn multiple_of(value: nat, step: nat) -> bool {
    if step == 0 { value == 0 } else { value % step == 0 }
}

fn is_multiple_of(value: u64, step: u64) -> (r: bool)
    ensures
        r == multiple_of(value as nat, step as nat),
{
    if step == 0 { value == 0 } else { value % step == 0 }
}

/// Why a buffer cannot be created.
#[derive(Clone, Copy, Debug, PartialEq, Eq, Structural)]
pub enum BufferRefusal {
    Empty,
    TooLarge,
    NoPurpose,
    ReadbackMisused,
}

/// Whether a buffer of `size` bytes for `usage` can be created on a device of
/// `limits`, or why not: it holds bytes, fits the device, has a purpose, and a
/// host readback accepts copies and is no shader storage.
pub fn admit_buffer(size: u64, usage: BufferUsages, limits: &Limits) -> (r: Result<(), BufferRefusal>)
    ensures
        size == 0 <==> r == Err::<(), BufferRefusal>(BufferRefusal::Empty),
        (size > 0 && size > limits.max_buffer_size) <==> r == Err::<(), BufferRefusal>(BufferRefusal::TooLarge),
        (size > 0 && size <= limits.max_buffer_size && usage@ == 0) <==> r == Err::<(), BufferRefusal>(BufferRefusal::NoPurpose),
        (size > 0 && size <= limits.max_buffer_size && usage@ != 0 && usage_has(usage@, 8) && !(
        usage_has(usage@, 4) && !usage_has(usage@, 1))) <==> r == Err::<(), BufferRefusal>(BufferRefusal::ReadbackMisused),
        r is Ok <==> (size > 0 && size <= limits.max_buffer_size && usage@ != 0 && (!usage_has(usage@, 8) || (
        usage_has(usage@, 4) && !usage_has(usage@, 1)))),
{
    if size == 0 {
        return Err(BufferRefusal::Empty);
    }
    if size > limits.max_buffer_size {
        return Err(BufferRefusal::TooLarge);
    }
    if usage.is_empty() {
        return Err(BufferRefusal::NoPurpose);
    }
    if usage.contains(BufferUsages::map_read()) && !(usage.contains(BufferUsages::copy_dst())
        && !usage.contains(BufferUsages::storage())) {
        return Err(BufferRefusal::ReadbackMisused);
    }
    Ok(())
}

/// Why a host write is refused.
#[derive(Clone, Copy, Debug, PartialEq, Eq, Structural)]
pub enum WriteRefusal {
    NotWritable,
    Misaligned,
    OutOfRange,
}

/// Whether `length` bytes can be written at `offset` into a buffer, and if so
/// whether there is anything to write: the buffer accepts host writes, the
/// write covers whole words, and it ends within the buffer.
pub fn admit_write(buffer: &BufferFacts, offset: u64, length: usize) -> (r: Result<bool, WriteRefusal>)
    ensures
        !usage_has(buffer.usage@, 4) <==> r == Err::<bool, WriteRefusal>(WriteRefusal::NotWritable),
        (usage_has(buffer.usage@, 4) && !(offset % 4 == 0 && length % 4 == 0)) <==> r == Err::<bool, WriteRefusal>(WriteRefusal::Misaligned),
        (usage_has(buffer.usage@, 4) && offset % 4 == 0 && length % 4 == 0 && offset + length > buffer.size) <==> r == Err::<bool, WriteRefusal>(WriteRefusal::OutOfRange),
        r matches Ok(write) ==> write == (length > 0),
{
    if !buffer.usage.contains(BufferUsages::copy_dst()) {
        return Err(WriteRefusal::NotWritable);
    }
    if !(offset % 4 == 0 && length % 4 == 0) {
        return Err(WriteRefusal::Misaligned);
    }
    if length as u64 > buffer.size || offset > buffer.size - length as u64 {
        return Err(WriteRefusal::OutOfRange);
    }
    Ok(length > 0)
}

/// Whether a range of a buffer can be bound: it starts on a word, holds at
/// least one word, covers whole words, and ends within the buffer.
pub fn admit_binding(buffer_size: u64, offset: u64, size: u64) -> (r: bool)
    ensures
        r == (offset % 4 == 0 && size > 0 && size % 4 == 0 && offset + size <= buffer_size),
{
    offset % 4 == 0 && size > 0 && size % 4 == 0 && size <= buffer_size && offset <= buffer_size - size
}

/// Why a host read is refused.
#[derive(Clone, Copy, Debug, PartialEq, Eq, Structural)]
pub enum ReadRefusal {
    NotReadable,
    OutOfRange,
}

/// Whether `bytes` can be read back from a buffer: it is mapped for the host,
/// and the read takes at least one byte and no more than the buffer holds.
pub fn admit_read(buffer: &BufferFacts, bytes: u64) -> (r: Result<(), ReadRefusal>)
    ensures
        !usage_has(buffer.usage@, 8) <==> r == Err::<(), ReadRefusal>(ReadRefusal::NotReadable),
        (usage_has(buffer.usage@, 8) && !(bytes > 0 && bytes <= buffer.size)) <==> r == Err::<(), ReadRefusal>(ReadRefusal::OutOfRange),
        r is Ok <==> (usage_has(buffer.usage@, 8) && bytes > 0 && bytes <= buffer.size),
{
    if !buffer.usage.contains(BufferUsages::map_read()) {
        return Err(ReadRefusal::NotReadable);
    }
    if !(bytes > 0 && bytes <= buffer.size) {
        return Err(ReadRefusal::OutOfRange);
    }
    Ok(())
}

/// Why a copy is refused.
#[derive(Clone, Copy, Debug, PartialEq, Eq, Structural)]
pub enum CopyRefusal {
    Usage,
    Misaligned,
    SourceRange,
    TargetRange,
    Overlap,
}

/// The ranges of a copy overlap within one allocation.
pub open spec fn copy_overlaps(source: BufferFacts, source_offset: nat, target: BufferFacts, target_offset: nat, bytes: nat) -> bool {
    source.allocation == target.allocation && !(source_offset + bytes <= target_offset || target_offset + bytes <= source_offset)
}

/// Whether `bytes` can be copied from `source` at `source_offset` to `target` at
/// `target_offset`, or the first reason why not: the buffers are a copy source
/// and destination, the copy moves whole words between word offsets, both
/// ranges lie within their buffers, and the two ranges of one allocation do not
/// overlap.
pub fn admit_copy(source: &BufferFacts, source_offset: u64, target: &BufferFacts, target_offset: u64, bytes: u64) -> (r: Result<(), CopyRefusal>)
    ensures
        !(usage_has(source.usage@, 2) && usage_has(target.usage@, 4)) <==> r == Err::<(), CopyRefusal>(CopyRefusal::Usage),
        (usage_has(source.usage@, 2) && usage_has(target.usage@, 4) && !(bytes > 0 && bytes % 4 == 0 && source_offset % 4 == 0 && target_offset % 4 == 0)) <==> r == Err::<(), CopyRefusal>(CopyRefusal::Misaligned),
        (usage_has(source.usage@, 2) && usage_has(target.usage@, 4) && bytes > 0 && bytes % 4 == 0 && source_offset % 4 == 0 && target_offset % 4 == 0
            && source_offset + bytes > source.size) <==> r == Err::<(), CopyRefusal>(CopyRefusal::SourceRange),
        (usage_has(source.usage@, 2) && usage_has(target.usage@, 4) && bytes > 0 && bytes % 4 == 0 && source_offset % 4 == 0 && target_offset % 4 == 0
            && source_offset + bytes <= source.size && target_offset + bytes > target.size) <==> r == Err::<(), CopyRefusal>(CopyRefusal::TargetRange),
        (usage_has(source.usage@, 2) && usage_has(target.usage@, 4) && bytes > 0 && bytes % 4 == 0 && source_offset % 4 == 0 && target_offset % 4 == 0
            && source_offset + bytes <= source.size && target_offset + bytes <= target.size
            && copy_overlaps(*source, source_offset as nat, *target, target_offset as nat, bytes as nat)) <==> r == Err::<(), CopyRefusal>(CopyRefusal::Overlap),
        r is Ok <==> (usage_has(source.usage@, 2) && usage_has(target.usage@, 4) && bytes > 0 && bytes % 4 == 0 && source_offset % 4 == 0 && target_offset % 4 == 0
            && source_offset + bytes <= source.size && target_offset + bytes <= target.size
            && !copy_overlaps(*source, source_offset as nat, *target, target_offset as nat, bytes as nat)),
{
    if !(source.usage.contains(BufferUsages::copy_src()) && target.usage.contains(BufferUsages::copy_dst())) {
        return Err(CopyRefusal::Usage);
    }
    if !(bytes > 0 && bytes % 4 == 0 && source_offset % 4 == 0 && target_offset % 4 == 0) {
        return Err(CopyRefusal::Misaligned);
    }
    if bytes > source.size || source_offset > source.size - bytes {
        return Err(CopyRefusal::SourceRange);
    }
    if bytes > target.size || target_offset > target.size - bytes {
        return Err(CopyRefusal::TargetRange);
    }
    if source.allocation == target.allocation && !(source_offset + bytes <= target_offset
        || target_offset + bytes <= source_offset) {
        return Err(CopyRefusal::Overlap);
    }
    Ok(())
}

/// Why a clear is refused.
#[derive(Clone, Copy, Debug, PartialEq, Eq, Structural)]
pub enum ClearRefusal {
    Usage,
    Misaligned,
    OutOfRange,
}

/// Whether `bytes` of a buffer can be cleared at `offset`, or the first reason
/// why not: the buffer is a copy destination, the clear covers whole words
/// from a word offset, and it ends within the buffer.
pub fn admit_clear(buffer: &BufferFacts, offset: u64, bytes: u64) -> (r: Result<(), ClearRefusal>)
    ensures
        !usage_has(buffer.usage@, 4) <==> r == Err::<(), ClearRefusal>(ClearRefusal::Usage),
        (usage_has(buffer.usage@, 4) && !(offset % 4 == 0 && bytes > 0 && bytes % 4 == 0)) <==> r == Err::<(), ClearRefusal>(ClearRefusal::Misaligned),
        (usage_has(buffer.usage@, 4) && offset % 4 == 0 && bytes > 0 && bytes % 4 == 0 && offset + bytes > buffer.size) <==> r == Err::<(), ClearRefusal>(ClearRefusal::OutOfRange),
        r is Ok <==> (usage_has(buffer.usage@, 4) && offset % 4 == 0 && bytes > 0 && bytes % 4 == 0 && offset + bytes <= buffer.size),
{
    if !buffer.usage.contains(BufferUsages::copy_dst()) {
        return Err(ClearRefusal::Usage);
    }
    if !(offset % 4 == 0 && bytes > 0 && bytes % 4 == 0) {
        return Err(ClearRefusal::Misaligned);
    }
    if bytes > buffer.size || offset > buffer.size - bytes {
        return Err(ClearRefusal::OutOfRange);
    }
    Ok(())
}

/// A binding of a group whose offset moves with each dispatch.
#[derive(Clone, Copy, Debug, PartialEq, Eq, Structural)]
pub struct DynamicBinding {
    pub offset: u64,
    pub size: u64,
    pub buffer_size: u64,
}

/// Why a dispatch is refused.
#[derive(Clone, Copy, Debug, PartialEq, Eq, Structural)]
pub enum DispatchRefusal {
    Grid,
    OffsetCount,
    Misaligned(usize),
    OutOfRange(usize),
}

/// Every workgroup count of a dispatch lies within the grid a device runs.
pub open spec fn grid_fits(groups: Seq<u32>, limit: nat) -> bool {
    0 < groups[0] <= limit && 0 < groups[1] <= limit && 0 < groups[2] <= limit
}

/// The dynamic offset of a binding is aligned and keeps the binding within its buffer.
pub open spec fn offset_fits(binding: DynamicBinding, offset: nat, alignment: nat) -> bool {
    multiple_of(offset, alignment) && binding.offset + offset + binding.size <= binding.buffer_size
}

/// Whether a dispatch of `groups` workgroups with `offsets` for the dynamic
/// bindings of its group can run on a device of `limits`, or the first reason
/// why not.
pub fn admit_dispatch(limits: &Limits, dynamic: &[DynamicBinding], offsets: &[u32], groups: [u32; 3]) -> (r: Result<(), DispatchRefusal>)
    ensures
        !grid_fits(groups@, limits.max_compute_workgroups_per_dimension as nat) <==> r == Err::<(), DispatchRefusal>(DispatchRefusal::Grid),
        (grid_fits(groups@, limits.max_compute_workgroups_per_dimension as nat) && offsets@.len() != dynamic@.len())
            <==> r == Err::<(), DispatchRefusal>(DispatchRefusal::OffsetCount),
        r matches Err(DispatchRefusal::Misaligned(i)) ==> i < dynamic@.len() && !multiple_of(offsets@[i as int] as nat, limits.min_storage_buffer_offset_alignment as nat)
            && forall|j: int| 0 <= j < i ==> offset_fits(dynamic@[j], offsets@[j] as nat, limits.min_storage_buffer_offset_alignment as nat),
        r matches Err(DispatchRefusal::OutOfRange(i)) ==> i < dynamic@.len() && multiple_of(offsets@[i as int] as nat, limits.min_storage_buffer_offset_alignment as nat)
            && !offset_fits(dynamic@[i as int], offsets@[i as int] as nat, limits.min_storage_buffer_offset_alignment as nat)
            && forall|j: int| 0 <= j < i ==> offset_fits(dynamic@[j], offsets@[j] as nat, limits.min_storage_buffer_offset_alignment as nat),
        r is Ok <==> (grid_fits(groups@, limits.max_compute_workgroups_per_dimension as nat) && offsets@.len() == dynamic@.len()
            && forall|j: int| 0 <= j < dynamic@.len() ==> offset_fits(dynamic@[j], offsets@[j] as nat, limits.min_storage_buffer_offset_alignment as nat)),
{
    let limit = limits.max_compute_workgroups_per_dimension;
    if !(groups[0] > 0 && groups[0] <= limit && groups[1] > 0 && groups[1] <= limit && groups[2] > 0 && groups[2] <= limit) {
        proof {
            if grid_fits(groups@, limit as nat) {
                assert(0 < groups@[0] <= limit && 0 < groups@[1] <= limit && 0 < groups@[2] <= limit);
            }
        }
        return Err(DispatchRefusal::Grid);
    }
    if offsets.len() != dynamic.len() {
        return Err(DispatchRefusal::OffsetCount);
    }
    let alignment = limits.min_storage_buffer_offset_alignment;
    let mut i: usize = 0;
    while i < dynamic.len()
        invariant
            i <= dynamic@.len(),
            offsets@.len() == dynamic@.len(),
            alignment == limits.min_storage_buffer_offset_alignment,
            grid_fits(groups@, limits.max_compute_workgroups_per_dimension as nat),
            forall|j: int| 0 <= j < i ==> offset_fits(dynamic@[j], offsets@[j] as nat, alignment as nat),
        decreases dynamic@.len() - i,
    {
        let binding = dynamic[i];
        let offset = offsets[i] as u64;
        if !is_multiple_of(offset, alignment) {
            return Err(DispatchRefusal::Misaligned(i));
        }
        if offset > binding.buffer_size || binding.offset > binding.buffer_size - offset
            || binding.size > binding.buffer_size - offset - binding.offset {
            return Err(DispatchRefusal::OutOfRange(i));
        }
        i += 1;
    }
    Ok(())
}

/// A buffer range a bind group entry binds.
#[derive(Clone, Copy, Debug, PartialEq, Eq, Structural)]
pub struct GroupEntry {
    pub index: u32,
    pub usage: BufferUsages,
    pub offset: u64,
    pub size: u64,
}

/// Why a bind group is refused.
#[derive(Clone, Copy, Debug, PartialEq, Eq, Structural)]
pub enum GroupRefusal {
    Count,
    Slot(usize),
    NotStorage(usize),
    Misaligned(usize),
    TooLarge(usize),
}

/// An entry binds the slot it is meant for, a storage buffer, from an aligned
/// offset, over a range the device binds.
pub open spec fn entry_fits(entry: GroupEntry, slot: nat, limits: Limits) -> bool {
    &&& entry.index == slot
    &&& usage_has(entry.usage@, 1)
    &&& multiple_of(entry.offset as nat, limits.min_storage_buffer_offset_alignment as nat)
    &&& entry.size <= limits.max_storage_buffer_binding_size
}

/// Whether `entries` bind the `slots` of a program on a device of `limits`, or
/// the first entry that does not and why.
pub fn admit_group(entries: &[GroupEntry], slots: &[u32], limits: &Limits) -> (r: Result<(), GroupRefusal>)
    ensures
        entries@.len() != slots@.len() <==> r == Err::<(), GroupRefusal>(GroupRefusal::Count),
        r matches Err(GroupRefusal::Slot(i)) ==> i < entries@.len() && entries@[i as int].index != slots@[i as int],
        r matches Err(GroupRefusal::NotStorage(i)) ==> i < entries@.len() && entries@[i as int].index == slots@[i as int] && !usage_has(entries@[i as int].usage@, 1),
        r matches Err(GroupRefusal::Misaligned(i)) ==> i < entries@.len() && entries@[i as int].index == slots@[i as int] && usage_has(entries@[i as int].usage@, 1)
            && !multiple_of(entries@[i as int].offset as nat, limits.min_storage_buffer_offset_alignment as nat),
        r matches Err(GroupRefusal::TooLarge(i)) ==> i < entries@.len() && entries@[i as int].index == slots@[i as int] && usage_has(entries@[i as int].usage@, 1)
            && multiple_of(entries@[i as int].offset as nat, limits.min_storage_buffer_offset_alignment as nat)
            && entries@[i as int].size > limits.max_storage_buffer_binding_size,
        r matches Err(GroupRefusal::Slot(i)) ==> forall|j: int| 0 <= j < i ==> entry_fits(entries@[j], slots@[j] as nat, *limits),
        r matches Err(GroupRefusal::NotStorage(i)) ==> forall|j: int| 0 <= j < i ==> entry_fits(entries@[j], slots@[j] as nat, *limits),
        r matches Err(GroupRefusal::Misaligned(i)) ==> forall|j: int| 0 <= j < i ==> entry_fits(entries@[j], slots@[j] as nat, *limits),
        r matches Err(GroupRefusal::TooLarge(i)) ==> forall|j: int| 0 <= j < i ==> entry_fits(entries@[j], slots@[j] as nat, *limits),
        r is Ok <==> (entries@.len() == slots@.len() && forall|j: int| 0 <= j < entries@.len() ==> entry_fits(entries@[j], slots@[j] as nat, *limits)),
{
    if entries.len() != slots.len() {
        return Err(GroupRefusal::Count);
    }
    let mut i: usize = 0;
    while i < entries.len()
        invariant
            i <= entries@.len(),
            entries@.len() == slots@.len(),
            forall|j: int| 0 <= j < i ==> entry_fits(entries@[j], slots@[j] as nat, *limits),
        decreases entries@.len() - i,
    {
        let entry = entries[i];
        if entry.index != slots[i] {
            return Err(GroupRefusal::Slot(i));
        }
        if !entry.usage.contains(BufferUsages::storage()) {
            return Err(GroupRefusal::NotStorage(i));
        }
        if !is_multiple_of(entry.offset, limits.min_storage_buffer_offset_alignment) {
            return Err(GroupRefusal::Misaligned(i));
        }
        if entry.size > limits.max_storage_buffer_binding_size {
            return Err(GroupRefusal::TooLarge(i));
        }
        i += 1;
    }
    Ok(())
}

/// Whether a program of `bindings` storage buffers fits a device of `limits`.
pub fn admit_pipeline(bindings: usize, limits: &Limits) -> (r: bool)
    ensures
        r == (bindings <= limits.max_storage_buffers_per_shader_stage),
{
    bindings as u64 <= limits.max_storage_buffers_per_shader_stage as u64
}

/// Whether a readback of `slots` buffers of `bytes` each can be made: at least
/// one slot of whole words.
pub fn admit_readback(bytes: u64, slots: u64) -> (r: bool)
    ensures
        r == (slots > 0 && bytes > 0 && bytes % 4 == 0),
{
    slots > 0 && bytes > 0 && bytes % 4 == 0
}

/// Whether a finished readback of `bytes` fits a slot of `capacity` bytes.
pub fn admit_collect(bytes: u64, capacity: u64) -> (r: bool)
    ensures
        r == (bytes > 0 && bytes % 4 == 0 && bytes <= capacity),
{
    bytes > 0 && bytes % 4 == 0 && bytes <= capacity
}

/// The free slots of a readback pool, the next one to claim last.
pub struct SlotPool {
    free: Vec<usize>,
}

impl View for SlotPool {
    type V = Seq<usize>;

    closed spec fn view(&self) -> Seq<usize> {
        self.free@
    }
}

impl SlotPool {
    /// A pool of `slots` free slots; slot zero is claimed first.
    pub fn new(slots: usize) -> (r: SlotPool)
        ensures
            r@.len() == slots,
            forall|i: int| 0 <= i < slots ==> r@[i] == slots - 1 - i,
    {
        let mut free: Vec<usize> = Vec::new();
        let mut next: usize = slots;
        while next > 0
            invariant
                next <= slots,
                free@.len() == slots - next,
                forall|i: int| 0 <= i < free@.len() ==> free@[i] == slots - 1 - i,
            decreases next,
        {
            next -= 1;
            free.push(next);
        }
        SlotPool { free }
    }

    /// The free slots.
    pub fn free(&self) -> (r: usize)
        ensures
            r == self@.len(),
    {
        self.free.len()
    }

    /// Claims the slot released last, or nothing when every slot is in flight.
    pub fn claim(&mut self) -> (r: Option<usize>)
        ensures
            old(self)@.len() == 0 ==> r is None && final(self)@ == old(self)@,
            old(self)@.len() > 0 ==> r == Some(old(self)@.last()) && final(self)@ == old(self)@.drop_last(),
    {
        self.free.pop()
    }

    /// Returns a slot to the pool.
    pub fn release(&mut self, slot: usize)
        ensures
            final(self)@ == old(self)@.push(slot),
    {
        self.free.push(slot);
    }
}

/// A slot released to a pool is the next one claimed, and claiming it leaves
/// the pool as it was before the release.
pub proof fn lemma_release_then_claim(pool: Seq<usize>, slot: usize)
    ensures
        pool.push(slot).len() > 0,
        pool.push(slot).last() == slot,
        pool.push(slot).drop_last() == pool,
{
    assert(pool.push(slot).drop_last() =~= pool);
}

} // verus!
