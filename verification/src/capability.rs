//! What a compute device offers: its backend, its kind, its identity and its limits.
use vstd::prelude::*;

verus! {

/// The native API a compute device runs through.
#[derive(Clone, Copy, Debug, PartialEq, Eq, Hash, Structural)]
pub enum Backend {
    Vulkan,
    Metal,
    Dx12,
}

/// A set of backends, one bit each.
#[derive(Clone, Copy, Debug, PartialEq, Eq, Hash, Structural)]
pub struct Backends {
    bits: u8,
}

impl View for Backends {
    type V = u8;

    closed spec fn view(&self) -> u8 {
        self.bits
    }
}

impl Backends {
    #[verifier::type_invariant]
    spec fn inv(self) -> bool {
        self.bits < 8
    }

    pub fn vulkan() -> (r: Backends)
        ensures
            r@ == 1,
    {
        Backends { bits: 1 }
    }

    pub fn metal() -> (r: Backends)
        ensures
            r@ == 2,
    {
        Backends { bits: 2 }
    }

    pub fn dx12() -> (r: Backends)
        ensures
            r@ == 4,
    {
        Backends { bits: 4 }
    }

    /// Every backend.
    pub fn all() -> (r: Backends)
        ensures
            r@ == 7,
    {
        Backends { bits: 7 }
    }

    /// No backend.
    pub fn empty() -> (r: Backends)
        ensures
            r@ == 0,
    {
        Backends { bits: 0 }
    }

    pub fn bits(self) -> (r: u8)
        ensures
            r == self@,
            r < 8,
    {
        proof {
            use_type_invariant(&self);
        }
        self.bits
    }

    /// Whether every backend of `other` is in this set.
    pub fn contains(self, other: Backends) -> (r: bool)
        ensures
            r == (self@ & other@ == other@),
    {
        self.bits & other.bits == other.bits
    }

    /// The backends of both sets.
    pub fn union(self, other: Backends) -> (r: Backends)
        ensures
            r@ == self@ | other@,
    {
        proof {
            use_type_invariant(&self);
            use_type_invariant(&other);
        }
        let a = self.bits;
        let b = other.bits;
        let bits = a | b;
        assert(bits < 8) by (bit_vector)
            requires
                bits == a | b,
                a < 8,
                b < 8,
        ;
        Backends { bits }
    }

    pub fn is_empty(self) -> (r: bool)
        ensures
            r == (self@ == 0),
    {
        self.bits == 0
    }
}

/// What a buffer is used for, one bit each.
#[derive(Clone, Copy, Debug, PartialEq, Eq, Hash, Structural)]
pub struct BufferUsages {
    bits: u8,
}

impl View for BufferUsages {
    type V = u8;

    closed spec fn view(&self) -> u8 {
        self.bits
    }
}

pub open spec fn usage_has(usage: u8, flag: u8) -> bool {
    usage & flag == flag
}

impl BufferUsages {
    #[verifier::type_invariant]
    spec fn inv(self) -> bool {
        self.bits < 16
    }

    /// Shader storage.
    pub fn storage() -> (r: BufferUsages)
        ensures
            r@ == 1,
    {
        BufferUsages { bits: 1 }
    }

    /// The source of a copy.
    pub fn copy_src() -> (r: BufferUsages)
        ensures
            r@ == 2,
    {
        BufferUsages { bits: 2 }
    }

    /// The destination of a copy or a host write.
    pub fn copy_dst() -> (r: BufferUsages)
        ensures
            r@ == 4,
    {
        BufferUsages { bits: 4 }
    }

    /// Mapped for the host to read.
    pub fn map_read() -> (r: BufferUsages)
        ensures
            r@ == 8,
    {
        BufferUsages { bits: 8 }
    }

    pub fn empty() -> (r: BufferUsages)
        ensures
            r@ == 0,
    {
        BufferUsages { bits: 0 }
    }

    pub fn bits(self) -> (r: u8)
        ensures
            r == self@,
            r < 16,
    {
        proof {
            use_type_invariant(&self);
        }
        self.bits
    }

    pub fn contains(self, other: BufferUsages) -> (r: bool)
        ensures
            r == usage_has(self@, other@),
    {
        self.bits & other.bits == other.bits
    }

    pub fn union(self, other: BufferUsages) -> (r: BufferUsages)
        ensures
            r@ == self@ | other@,
    {
        proof {
            use_type_invariant(&self);
            use_type_invariant(&other);
        }
        let a = self.bits;
        let b = other.bits;
        let bits = a | b;
        assert(bits < 16) by (bit_vector)
            requires
                bits == a | b,
                a < 16,
                b < 16,
        ;
        BufferUsages { bits }
    }

    pub fn is_empty(self) -> (r: bool)
        ensures
            r == (self@ == 0),
    {
        self.bits == 0
    }
}

/// The hardware a caller prefers to run on.
#[derive(Clone, Copy, Debug, PartialEq, Eq, Structural)]
pub enum PowerPreference {
    HighPerformance,
    LowPower,
}

/// The kind of hardware behind an adapter.
#[derive(Clone, Copy, Debug, PartialEq, Eq, Structural)]
pub enum DeviceType {
    Discrete,
    Integrated,
    Virtual,
    Cpu,
    Other,
}

/// How much a preference wants a kind of hardware; higher ranks come first.
pub open spec fn device_rank(ty: DeviceType, preference: PowerPreference) -> nat {
    match (ty, preference) {
        (DeviceType::Discrete, PowerPreference::HighPerformance) => 4,
        (DeviceType::Integrated, PowerPreference::HighPerformance) => 3,
        (DeviceType::Discrete, PowerPreference::LowPower) => 3,
        (DeviceType::Integrated, PowerPreference::LowPower) => 4,
        (DeviceType::Virtual, _) => 2,
        (DeviceType::Cpu, _) => 1,
        (DeviceType::Other, _) => 0,
    }
}

impl DeviceType {
    /// How much `preference` wants this kind of hardware: a high performance
    /// preference ranks discrete above integrated hardware, a low power preference
    /// the other way round, and both rank virtual, then processor, then other
    /// hardware below those.
    pub fn rank(self, preference: PowerPreference) -> (r: u32)
        ensures
            r == device_rank(self, preference),
    {
        match (self, preference) {
            (DeviceType::Discrete, PowerPreference::HighPerformance) => 4,
            (DeviceType::Integrated, PowerPreference::HighPerformance) => 3,
            (DeviceType::Discrete, PowerPreference::LowPower) => 3,
            (DeviceType::Integrated, PowerPreference::LowPower) => 4,
            (DeviceType::Virtual, _) => 2,
            (DeviceType::Cpu, _) => 1,
            (DeviceType::Other, _) => 0,
        }
    }
}

/// The identity of an adapter: its PCI vendor and device, or its Metal registry id.
#[derive(Clone, Copy, Debug, PartialEq, Eq, Structural)]
pub enum AdapterId {
    Numeric { vendor: u32, device: u32 },
    MetalRegistry(u64),
}

/// What an adapter reports of itself.
#[derive(Clone, Debug, PartialEq, Eq)]
pub struct AdapterInfo {
    pub name: String,
    pub backend: Backend,
    pub device_type: DeviceType,
    pub id: AdapterId,
}

/// How a request picks its adapter: by identity or by the hardware it prefers.
#[derive(Clone, Copy, Debug, PartialEq, Eq, Structural)]
pub enum AdapterPolicy {
    Identity(AdapterId),
    Power(PowerPreference),
}

/// The limits of a compute device.
#[derive(Clone, Copy, Debug, PartialEq, Eq, Structural)]
pub struct Limits {
    pub max_storage_buffers_per_shader_stage: u32,
    pub max_storage_buffer_binding_size: u64,
    pub max_buffer_size: u64,
    pub max_compute_invocations_per_workgroup: u32,
    pub max_compute_workgroup_size_x: u32,
    pub max_compute_workgroup_storage_size: u32,
    pub max_compute_workgroups_per_dimension: u32,
    pub min_storage_buffer_offset_alignment: u64,
}

/// The limits every device the runtime accepts provides.
pub open spec fn baseline_limits() -> Limits {
    Limits {
        max_storage_buffers_per_shader_stage: 8,
        max_storage_buffer_binding_size: 16777216,
        max_buffer_size: 67108864,
        max_compute_invocations_per_workgroup: 256,
        max_compute_workgroup_size_x: 256,
        max_compute_workgroup_storage_size: 16384,
        max_compute_workgroups_per_dimension: 65535,
        min_storage_buffer_offset_alignment: 16,
    }
}

/// `offered` provides at least every maximum of `required`; the alignment is
/// a property of the device, not a capacity, and takes no part.
pub open spec fn limits_support(offered: Limits, required: Limits) -> bool {
    &&& offered.max_storage_buffers_per_shader_stage >= required.max_storage_buffers_per_shader_stage
    &&& offered.max_storage_buffer_binding_size >= required.max_storage_buffer_binding_size
    &&& offered.max_buffer_size >= required.max_buffer_size
    &&& offered.max_compute_invocations_per_workgroup >= required.max_compute_invocations_per_workgroup
    &&& offered.max_compute_workgroup_size_x >= required.max_compute_workgroup_size_x
    &&& offered.max_compute_workgroup_storage_size >= required.max_compute_workgroup_storage_size
    &&& offered.max_compute_workgroups_per_dimension >= required.max_compute_workgroups_per_dimension
}

impl Limits {
    /// The limits every device the runtime accepts provides.
    pub fn baseline() -> (r: Limits)
        ensures
            r == baseline_limits(),
    {
        Limits {
            max_storage_buffers_per_shader_stage: 8,
            max_storage_buffer_binding_size: 16777216,
            max_buffer_size: 67108864,
            max_compute_invocations_per_workgroup: 256,
            max_compute_workgroup_size_x: 256,
            max_compute_workgroup_storage_size: 16384,
            max_compute_workgroups_per_dimension: 65535,
            min_storage_buffer_offset_alignment: 16,
        }
    }

    /// Whether these limits provide every maximum of `required`.
    pub fn supports(&self, required: &Limits) -> (r: bool)
        ensures
            r == limits_support(*self, *required),
    {
        self.max_storage_buffers_per_shader_stage >= required.max_storage_buffers_per_shader_stage
            && self.max_storage_buffer_binding_size >= required.max_storage_buffer_binding_size
            && self.max_buffer_size >= required.max_buffer_size
            && self.max_compute_invocations_per_workgroup
            >= required.max_compute_invocations_per_workgroup && self.max_compute_workgroup_size_x
            >= required.max_compute_workgroup_size_x && self.max_compute_workgroup_storage_size
            >= required.max_compute_workgroup_storage_size
            && self.max_compute_workgroups_per_dimension
            >= required.max_compute_workgroups_per_dimension
    }

    /// The baseline, keeping the alignment this device demands.
    pub fn minimum(self) -> (r: Limits)
        ensures
            r == (Limits {
                min_storage_buffer_offset_alignment: self.min_storage_buffer_offset_alignment,
                ..baseline_limits()
            }),
    {
        Limits {
            min_storage_buffer_offset_alignment: self.min_storage_buffer_offset_alignment,
            ..Limits::baseline()
        }
    }
}

/// Limits support a requirement exactly when they meet each of its maxima,
/// field by field; the alignment plays no part.
pub proof fn lemma_support_meets_every_maximum(a: Limits, b: Limits)
    ensures
        limits_support(a, b) <==> {
            &&& a.max_storage_buffers_per_shader_stage >= b.max_storage_buffers_per_shader_stage
            &&& a.max_storage_buffer_binding_size >= b.max_storage_buffer_binding_size
            &&& a.max_buffer_size >= b.max_buffer_size
            &&& a.max_compute_invocations_per_workgroup >= b.max_compute_invocations_per_workgroup
            &&& a.max_compute_workgroup_size_x >= b.max_compute_workgroup_size_x
            &&& a.max_compute_workgroup_storage_size >= b.max_compute_workgroup_storage_size
            &&& a.max_compute_workgroups_per_dimension >= b.max_compute_workgroups_per_dimension
        },
        limits_support(a, b) ==> limits_support(Limits { min_storage_buffer_offset_alignment: 0, ..a }, b),
{
}

/// An adapter that offers fewer storage buffers per shader stage, or less of
/// any other maximum, than the baseline does not run it.
pub proof fn lemma_below_the_baseline_is_refused(l: Limits)
    ensures
        l.max_storage_buffers_per_shader_stage < 8 ==> !limits_support(l, baseline_limits()),
        l.max_storage_buffer_binding_size < 16777216 ==> !limits_support(l, baseline_limits()),
        l.max_buffer_size < 67108864 ==> !limits_support(l, baseline_limits()),
        l.max_compute_invocations_per_workgroup < 256 ==> !limits_support(l, baseline_limits()),
        l.max_compute_workgroup_size_x < 256 ==> !limits_support(l, baseline_limits()),
        l.max_compute_workgroup_storage_size < 16384 ==> !limits_support(l, baseline_limits()),
        l.max_compute_workgroups_per_dimension < 65535 ==> !limits_support(l, baseline_limits()),
{
}

/// Supporting is a preorder: limits support themselves, and limits that support
/// limits that support a requirement support the requirement.
pub proof fn lemma_support_is_a_preorder(a: Limits, b: Limits, c: Limits)
    ensures
        limits_support(a, a),
        limits_support(a, b) && limits_support(b, c) ==> limits_support(a, c),
{
}

/// The minimum limits of any device run the baseline, and a device that runs
/// the baseline runs everything its minimum limits promise.
pub proof fn lemma_minimum_runs_the_baseline(l: Limits)
    ensures
        limits_support(
            Limits { min_storage_buffer_offset_alignment: l.min_storage_buffer_offset_alignment, ..baseline_limits() },
            baseline_limits(),
        ),
        limits_support(l, baseline_limits()) ==> limits_support(
            l,
            Limits { min_storage_buffer_offset_alignment: l.min_storage_buffer_offset_alignment, ..baseline_limits() },
        ),
{
}

/// Each preference ranks the hardware it names above every other kind, and
/// both rank virtual above processor above other hardware.
pub proof fn lemma_rank_orders_hardware(p: PowerPreference)
    ensures
        device_rank(DeviceType::Discrete, PowerPreference::HighPerformance) > device_rank(DeviceType::Integrated, PowerPreference::HighPerformance),
        device_rank(DeviceType::Integrated, PowerPreference::LowPower) > device_rank(DeviceType::Discrete, PowerPreference::LowPower),
        device_rank(DeviceType::Integrated, p) > device_rank(DeviceType::Virtual, p),
        device_rank(DeviceType::Discrete, p) > device_rank(DeviceType::Virtual, p),
        device_rank(DeviceType::Virtual, p) > device_rank(DeviceType::Cpu, p),
        device_rank(DeviceType::Cpu, p) > device_rank(DeviceType::Other, p),
{
}

} // verus!
