//! What a caller requests of a compute device, and how the runtime settles on one.
use crate::capability::{
    baseline_limits, limits_support, AdapterId, AdapterInfo, AdapterPolicy, Backend, Backends,
    DeviceType, Limits, PowerPreference, device_rank,
};
use vstd::prelude::*;

verus! {

/// Which limits a device is opened with: the baseline, or all the adapter offers.
#[derive(Clone, Copy, Debug, PartialEq, Eq, Structural)]
pub enum LimitsPolicy {
    Minimum,
    Adapter,
}

/// What a caller requests of a compute device.
pub struct GpuRequest {
    pub backends: Backends,
    pub adapter: AdapterPolicy,
    pub limits: LimitsPolicy,
}

impl Default for GpuRequest {
    /// Every backend, the highest performance hardware, and every limit the adapter offers.
    fn default() -> (r: GpuRequest)
        ensures
            r.backends@ == 7,
            r.adapter == AdapterPolicy::Power(PowerPreference::HighPerformance),
            r.limits == LimitsPolicy::Adapter,
    {
        GpuRequest {
            backends: Backends::all(),
            adapter: AdapterPolicy::Power(PowerPreference::HighPerformance),
            limits: LimitsPolicy::Adapter,
        }
    }
}

impl GpuRequest {
    /// The same request, opened with the baseline limits.
    pub fn minimum_limits(self) -> (r: GpuRequest)
        ensures
            r.backends == self.backends,
            r.adapter == self.adapter,
            r.limits == LimitsPolicy::Minimum,
    {
        GpuRequest { limits: LimitsPolicy::Minimum, ..self }
    }
}

/// Why no compute device opened.
#[derive(Clone, Debug, PartialEq, Eq)]
pub enum GpuUnavailable {
    NoAdapter { reason: String },
    AdapterMissing { wanted: AdapterId, offered: Vec<AdapterInfo> },
    UnsupportedLimits { info: AdapterInfo, limits: Limits },
}

/// The limits a device opens with under a policy.
pub open spec fn settled_limits(policy: LimitsPolicy, limits: Limits) -> Limits {
    match policy {
        LimitsPolicy::Minimum => Limits {
            min_storage_buffer_offset_alignment: limits.min_storage_buffer_offset_alignment,
            ..baseline_limits()
        },
        LimitsPolicy::Adapter => limits,
    }
}

/// Settles the limits of an adapter a backend opened: an adapter below the
/// baseline is refused, and one that runs it opens with the limits the
/// policy asks for.
pub fn settle_limits(policy: LimitsPolicy, info: AdapterInfo, limits: Limits) -> (r: Result<(AdapterInfo, Limits), GpuUnavailable>)
    ensures
        limits_support(limits, baseline_limits()) ==> r == Ok::<(AdapterInfo, Limits), GpuUnavailable>((info, settled_limits(policy, limits))),
        !limits_support(limits, baseline_limits()) ==> r == Err::<(AdapterInfo, Limits), GpuUnavailable>(GpuUnavailable::UnsupportedLimits { info, limits }),
{
    if !limits.supports(&Limits::baseline()) {
        return Err(GpuUnavailable::UnsupportedLimits { info, limits });
    }
    let limits = match policy {
        LimitsPolicy::Minimum => limits.minimum(),
        LimitsPolicy::Adapter => limits,
    };
    Ok((info, limits))
}

/// What opening a device under `request` comes to, given what the native
/// backend answered: its refusal as it is, or the adapter it opened with its
/// limits settled under the request's policy.
pub fn open_device(request: &GpuRequest, native: Result<(AdapterInfo, Limits), GpuUnavailable>) -> (r: Result<(AdapterInfo, Limits), GpuUnavailable>)
    ensures
        native matches Err(e) ==> r == Err::<(AdapterInfo, Limits), GpuUnavailable>(e),
        native matches Ok((info, limits)) ==> (limits_support(limits, baseline_limits())
            ==> r == Ok::<(AdapterInfo, Limits), GpuUnavailable>((info, settled_limits(request.limits, limits)))),
        native matches Ok((info, limits)) ==> (!limits_support(limits, baseline_limits())
            ==> r == Err::<(AdapterInfo, Limits), GpuUnavailable>(GpuUnavailable::UnsupportedLimits { info, limits })),
{
    match native {
        Ok((info, limits)) => settle_limits(request.limits, info, limits),
        Err(e) => Err(e),
    }
}

/// The alignment a binding offset keeps: the device's, and at least sixteen bytes.
pub fn binding_alignment(limits: &Limits) -> (r: u64)
    ensures
        r == if limits.min_storage_buffer_offset_alignment >= 16 {
            limits.min_storage_buffer_offset_alignment
        } else {
            16
        },
{
    if limits.min_storage_buffer_offset_alignment >= 16 {
        limits.min_storage_buffer_offset_alignment
    } else {
        16
    }
}

/// How a backend names itself when it reports a failure.
pub open spec fn backend_label(b: Backend) -> Seq<char> {
    match b {
        Backend::Dx12 => "D3D12"@,
        Backend::Metal => "Metal"@,
        Backend::Vulkan => "Vulkan"@,
    }
}

fn label(b: Backend) -> (r: &'static str)
    ensures
        r@ == backend_label(b),
{
    match b {
        Backend::Dx12 => "D3D12",
        Backend::Metal => "Metal",
        Backend::Vulkan => "Vulkan",
    }
}

/// Parts joined by a separator.
pub open spec fn joined(parts: Seq<Seq<char>>, separator: Seq<char>) -> Seq<char>
    decreases parts.len(),
{
    if parts.len() == 0 {
        Seq::empty()
    } else if parts.len() == 1 {
        parts[0]
    } else {
        joined(parts.drop_last(), separator) + separator + parts.last()
    }
}

/// The reason reported when no backend offered an adapter.
pub open spec fn absent_reason() -> Seq<char> {
    "no requested compute backend is available on this platform"@
}

/// The search for a compute device over the requested backends, one backend at
/// a time: it remembers why each backend failed and the last adapter that fell
/// below the baseline.
pub struct DeviceSearch {
    reasons: Vec<String>,
    unsupported: Option<(AdapterInfo, Limits)>,
}

impl DeviceSearch {
    /// The failures reported so far, in order.
    pub closed spec fn reasons(&self) -> Seq<Seq<char>> {
        self.reasons@.map_values(|s: String| s@)
    }

    /// The last adapter that fell below the baseline.
    pub closed spec fn unsupported(&self) -> Option<(AdapterInfo, Limits)> {
        self.unsupported
    }

    pub fn new() -> (r: DeviceSearch)
        ensures
            r.reasons() == Seq::<Seq<char>>::empty(),
            r.unsupported() is None,
    {
        let r = DeviceSearch { reasons: Vec::new(), unsupported: None };
        assert(r.reasons() =~= Seq::<Seq<char>>::empty());
        r
    }

    /// Records what `backend` answered, and returns the device to open when it
    /// offered an adapter that runs the baseline.
    pub fn attempt(&mut self, backend: Backend, outcome: Result<(AdapterInfo, Limits), String>) -> (r: Option<(AdapterInfo, Limits)>)
        ensures
            match outcome {
                Ok((info, limits)) => if limits_support(limits, baseline_limits()) {
                    &&& r == Some((info, limits))
                    &&& final(self).reasons() == old(self).reasons()
                    &&& final(self).unsupported() == old(self).unsupported()
                } else {
                    &&& r is None
                    &&& final(self).reasons() == old(self).reasons()
                    &&& final(self).unsupported() == Some((info, limits))
                },
                Err(error) => {
                    &&& r is None
                    &&& final(self).reasons() == old(self).reasons().push(
                        backend_label(backend) + ": "@ + error@,
                    )
                    &&& final(self).unsupported() == old(self).unsupported()
                },
            },
    {
        match outcome {
            Ok((info, limits)) => {
                if limits.supports(&Limits::baseline()) {
                    Some((info, limits))
                } else {
                    self.unsupported = Some((info, limits));
                    None
                }
            },
            Err(error) => {
                let mut reason = String::new();
                proof {
                    reveal_strlit(": ");
                }
                reason.append(label(backend));
                reason.append(": ");
                reason.append(error.as_str());
                self.reasons.push(reason);
                proof {
                    assert(self.reasons() =~= old(self).reasons().push(
                        backend_label(backend) + ": "@ + error@,
                    ));
                }
                None
            },
        }
    }

    /// Why the search found no device: the last adapter below the baseline, or
    /// every failure joined by `; `.
    pub fn refusal(self) -> (r: GpuUnavailable)
        ensures
            self.unsupported() matches Some((info, limits)) ==> r == (GpuUnavailable::UnsupportedLimits { info, limits }),
            self.unsupported() is None ==> (r matches GpuUnavailable::NoAdapter { reason } && reason@ == if self.reasons().len() == 0 {
                absent_reason()
            } else {
                joined(self.reasons(), "; "@)
            }),
    {
        match self.unsupported {
            Some((info, limits)) => GpuUnavailable::UnsupportedLimits { info, limits },
            None => {
                let mut reason = String::new();
                if self.reasons.len() == 0 {
                    proof {
                        reveal_strlit("no requested compute backend is available on this platform");
                    }
                    reason.append("no requested compute backend is available on this platform");
                } else {
                    proof {
                        reveal_strlit("; ");
                    }
                    let mut i: usize = 0;
                    while i < self.reasons.len()
                        invariant
                            i <= self.reasons@.len(),
                            self.reasons@.len() > 0,
                            i == 0 ==> reason@ == Seq::<char>::empty(),
                            i > 0 ==> reason@ == joined(self.reasons().subrange(0, i as int), "; "@),
                        decreases self.reasons@.len() - i,
                    {
                        let ghost before = reason@;
                        if i > 0 {
                            reason.append("; ");
                        }
                        reason.append(self.reasons[i].as_str());
                        proof {
                            let parts = self.reasons().subrange(0, i + 1);
                            assert(parts.drop_last() =~= self.reasons().subrange(0, i as int));
                            assert(parts.last() == self.reasons@[i as int]@);
                            if i == 0 {
                                assert(reason@ =~= parts[0]);
                            }
                        }
                        i += 1;
                    }
                    proof {
                        assert(self.reasons().subrange(0, self.reasons@.len() as int) =~= self.reasons());
                    }
                }
                GpuUnavailable::NoAdapter { reason }
            },
        }
    }
}

/// A Vulkan API version of at least 1.1.
pub open spec fn api_at_least_1_1(version: u32) -> bool {
    let major = (version / 4194304) % 128;
    let minor = (version / 4096) % 1024;
    major > 1 || (major == 1 && minor >= 1)
}

/// Whether a Vulkan API version, in the packed form the driver reports, is at least 1.1.
pub fn supports_api(version: u32) -> (r: bool)
    ensures
        r == api_at_least_1_1(version),
{
    let major = (version >> 22u32) & 0x7f;
    let minor = (version >> 12u32) & 0x3ff;
    assert((version >> 22u32) & 0x7f == (version / 4194304) % 128) by (bit_vector);
    assert((version >> 12u32) & 0x3ff == (version / 4096) % 1024) by (bit_vector);
    !(major < 1 || (major == 1 && minor < 1))
}

/// A queue family as a driver reports it.
#[derive(Clone, Copy, Debug, PartialEq, Eq, Structural)]
pub struct QueueFamily {
    pub count: u32,
    pub compute: bool,
    pub graphics: bool,
}

/// A family that runs compute work.
pub open spec fn family_computes(f: QueueFamily) -> bool {
    f.count > 0 && f.compute
}

/// The family compute work goes to: the first compute family that draws no
/// graphics, or else the first compute family.
pub open spec fn chosen_family(families: Seq<QueueFamily>, i: int) -> bool {
    &&& 0 <= i < families.len()
    &&& family_computes(families[i])
    &&& forall|j: int| 0 <= j < i && family_computes(families[j]) ==> families[j].graphics && !families[i].graphics
    &&& families[i].graphics ==> forall|j: int| 0 <= j < families.len() && family_computes(families[j]) ==> families[j].graphics
}

/// The queue family compute work goes to, if any family runs compute work.
pub fn compute_family(families: &[QueueFamily]) -> (r: Option<u32>)
    requires
        families@.len() <= 0xffff_ffff,
    ensures
        r matches Some(i) ==> chosen_family(families@, i as int),
        r is None ==> forall|j: int| 0 <= j < families@.len() ==> !family_computes(families@[j]),
{
    let mut best: Option<usize> = None;
    let mut i: usize = 0;
    while i < families.len()
        invariant
            i <= families@.len(),
            families@.len() <= 0xffff_ffff,
            best is None ==> forall|j: int| 0 <= j < i ==> !family_computes(families@[j]),
            best matches Some(b) ==> b < i && chosen_family(families@.subrange(0, i as int), b as int),
        decreases families@.len() - i,
    {
        let family = families[i];
        if family.count > 0 && family.compute {
            match best {
                None => {
                    best = Some(i);
                },
                Some(b) => {
                    if families[b].graphics && !family.graphics {
                        best = Some(i);
                    }
                },
            }
        }
        proof {
            let sub = families@.subrange(0, i + 1);
            if let Some(b) = best {
                assert(sub[b as int] == families@[b as int]);
                assert forall|j: int| 0 <= j < b && family_computes(sub[j]) implies sub[j].graphics && !sub[b as int].graphics by {
                    assert(sub[j] == families@.subrange(0, i as int)[j]);
                }
                assert forall|j: int| 0 <= j < sub.len() && family_computes(sub[j]) && sub[b as int].graphics implies sub[j].graphics by {
                    if j < i {
                        assert(sub[j] == families@.subrange(0, i as int)[j]);
                    }
                }
            }
        }
        i += 1;
    }
    proof {
        assert(families@.subrange(0, families@.len() as int) =~= families@);
    }
    match best {
        Some(b) => Some(b as u32),
        None => None,
    }
}

/// What the runtime knows of an adapter it may open.
#[derive(Clone, Copy, Debug, PartialEq, Eq, Structural)]
pub struct Candidate {
    pub id: AdapterId,
    pub device_type: DeviceType,
    pub supports_baseline: bool,
}

/// The order key of a candidate under a preference: adapters that run the
/// baseline first, then by rank.
pub open spec fn candidate_key(c: Candidate, preference: PowerPreference) -> nat {
    (if c.supports_baseline { 5nat } else { 0nat }) + device_rank(c.device_type, preference)
}

/// The positions of the candidates whose key is `key`, in order.
pub open spec fn positions_with_key(cands: Seq<Candidate>, preference: PowerPreference, key: nat, n: nat) -> Seq<usize>
    decreases n,
{
    if n == 0 {
        Seq::empty()
    } else {
        let rest = positions_with_key(cands, preference, key, (n - 1) as nat);
        if candidate_key(cands[n - 1], preference) == key {
            rest.push((n - 1) as usize)
        } else {
            rest
        }
    }
}

/// The positions of the candidates by descending key from `key` down, each key
/// in the order the candidates were offered.
pub open spec fn ranked_from(cands: Seq<Candidate>, preference: PowerPreference, key: int) -> Seq<usize>
    decreases key + 1,
{
    if key < 0 {
        Seq::empty()
    } else {
        positions_with_key(cands, preference, key as nat, cands.len()) + ranked_from(cands, preference, key - 1)
    }
}

/// The positions of the candidates whose identity is `wanted`, in order.
pub open spec fn positions_with_id(cands: Seq<Candidate>, wanted: AdapterId, n: nat) -> Seq<usize>
    decreases n,
{
    if n == 0 {
        Seq::empty()
    } else {
        let rest = positions_with_id(cands, wanted, (n - 1) as nat);
        if cands[n - 1].id == wanted {
            rest.push((n - 1) as usize)
        } else {
            rest
        }
    }
}

/// The order in which a policy tries the candidates: those of the wanted
/// identity, or all of them by descending key, ties in the order offered.
pub open spec fn candidate_order(cands: Seq<Candidate>, policy: AdapterPolicy) -> Seq<usize> {
    match policy {
        AdapterPolicy::Identity(wanted) => positions_with_id(cands, wanted, cands.len()),
        AdapterPolicy::Power(preference) => ranked_from(cands, preference, 9),
    }
}

fn key_of(c: Candidate, preference: PowerPreference) -> (r: u32)
    ensures
        r == candidate_key(c, preference),
        r <= 9,
{
    (if c.supports_baseline { 5 } else { 0 }) + c.device_type.rank(preference)
}

/// The positions of the candidates in the order a policy tries them.
pub fn order_candidates(cands: &[Candidate], policy: AdapterPolicy) -> (r: Vec<usize>)
    ensures
        r@ == candidate_order(cands@, policy),
{
    match policy {
        AdapterPolicy::Identity(wanted) => {
            let mut out: Vec<usize> = Vec::new();
            let mut i: usize = 0;
            while i < cands.len()
                invariant
                    i <= cands@.len(),
                    out@ == positions_with_id(cands@, wanted, i as nat),
                decreases cands@.len() - i,
            {
                if cands[i].id == wanted {
                    out.push(i);
                }
                i += 1;
            }
            out
        },
        AdapterPolicy::Power(preference) => {
            let mut out: Vec<usize> = Vec::new();
            let mut key: u32 = 10;
            while key > 0
                invariant
                    key <= 10,
                    out@ + ranked_from(cands@, preference, key - 1) == ranked_from(cands@, preference, 9),
                decreases key,
            {
                key -= 1;
                let ghost before = out@;
                let mut i: usize = 0;
                while i < cands.len()
                    invariant
                        i <= cands@.len(),
                        key < 10,
                        out@ == before + positions_with_key(cands@, preference, key as nat, i as nat),
                    decreases cands@.len() - i,
                {
                    if key_of(cands[i], preference) == key {
                        out.push(i);
                    }
                    i += 1;
                }
                proof {
                    assert(ranked_from(cands@, preference, key as int) == positions_with_key(cands@, preference, key as nat, cands@.len())
                        + ranked_from(cands@, preference, key - 1));
                    assert(out@ + ranked_from(cands@, preference, key - 1) =~= before + ranked_from(cands@, preference, key as int));
                }
            }
            proof {
                assert(ranked_from(cands@, preference, -1) == Seq::<usize>::empty());
                assert(out@ =~= ranked_from(cands@, preference, 9));
            }
            out
        },
    }
}

/// The candidates of one key come in the order they were offered and each carries that key.
pub proof fn lemma_positions_keep_their_key(cands: Seq<Candidate>, preference: PowerPreference, key: nat, n: nat, k: int)
    requires
        n <= cands.len(),
        cands.len() <= usize::MAX,
        0 <= k < positions_with_key(cands, preference, key, n).len(),
    ensures
        positions_with_key(cands, preference, key, n)[k] < n,
        candidate_key(cands[positions_with_key(cands, preference, key, n)[k] as int], preference) == key,
        k > 0 ==> positions_with_key(cands, preference, key, n)[k - 1] < positions_with_key(cands, preference, key, n)[k],
    decreases n,
{
    let rest = positions_with_key(cands, preference, key, (n - 1) as nat);
    if k < rest.len() {
        lemma_positions_keep_their_key(cands, preference, key, (n - 1) as nat, k);
    } else if k > 0 {
        lemma_positions_keep_their_key(cands, preference, key, (n - 1) as nat, k - 1);
    }
}

} // verus!
