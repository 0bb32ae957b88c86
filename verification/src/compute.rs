//! A compute program: a device module checked against the storage buffers it
//! binds, validated, compiled to SPIR-V with its workgroup types isolated, and
//! translated for each native backend.
use vstd::prelude::*;
use naga::Module as ShaderModule;
use naga::valid::ModuleInfo;
use naga::back::{hlsl, spv};
use naga::{ResourceBinding, ShaderStage};
use naga::ShaderStage::Compute;
use naga::back::hlsl::{BindTarget as HlslTarget, ShaderModel};
use naga::back::msl::{write_string, BindTarget as MslTarget, EntryPointResources, Options as MslOptions, PipelineOptions as MslPipeline};
use crate::program::{BindingKind, BindingSpec, ShaderBinding, ShaderTranslation, ReflectionRefusal, check_reflection, admit_bindings, bindings_dense, resource_matches, METAL_SIZE_BUFFER_SLOT};
use crate::workgroup::{try_isolate, isolatable, isolated};

verus! {

#[verifier::external_type_specification]
#[verifier::external_body]
pub struct ExModule(ShaderModule);

#[verifier::external_type_specification]
#[verifier::external_body]
pub struct ExModuleInfo(naga::valid::ModuleInfo);

/// An entry point of a device module: its name, whether it runs as a compute
/// shader, and the first axis of its workgroup size.
#[derive(Clone, Debug, PartialEq, Eq)]
pub struct EntryFacts {
    pub name: String,
    pub compute: bool,
    pub workgroup: u32,
}

/// A global variable of a device module: its group and binding where it is
/// bound, its name, whether it lives in storage, and whether that storage
/// accepts stores.
#[derive(Clone, Debug, PartialEq, Eq)]
pub struct GlobalFacts {
    pub binding: Option<(u32, u32)>,
    pub name: Option<String>,
    pub storage: bool,
    pub writable: bool,
}

/// What the entry points of a naga module hold, in their order.
pub uninterp spec fn module_entries(module: ShaderModule) -> Seq<EntryFacts>;

/// What the global variables of a naga module hold, in declaration order.
pub uninterp spec fn module_globals(module: ShaderModule) -> Seq<GlobalFacts>;

/// For each global variable of a naga module, in declaration order, whether
/// its size is known only at run time.
pub uninterp spec fn module_sized(module: ShaderModule) -> Seq<bool>;

/// Reads `module.entry_points` of naga: each entry's name, whether its
/// `ShaderStage` is `Compute`, and `workgroup_size[0]`. Claims only that the
/// result is what the module's entries hold, the same for the same module.
#[verifier::external_body]
fn entry_facts(module: &ShaderModule) -> (r: Vec<EntryFacts>)
    ensures
        r@ == module_entries(*module),
{
    module.entry_points.iter().map(|point| EntryFacts {
        name: point.name.clone(),
        compute: matches!(point.stage, ShaderStage::Compute),
        workgroup: point.workgroup_size[0],
    }).collect()
}

/// Reads `module.global_variables` of naga in declaration order: the group and
/// binding of each `ResourceBinding`, the name, whether the `AddressSpace` is
/// `Storage`, and whether its access holds `StorageAccess::STORE`. Claims only
/// that the result is what the module's globals hold, the same for the same
/// module.
#[verifier::external_body]
fn global_facts(module: &ShaderModule) -> (r: Vec<GlobalFacts>)
    ensures
        r@ == module_globals(*module),
{
    module.global_variables.iter().map(|(_, variable)| GlobalFacts {
        binding: variable.binding.as_ref().map(|binding| (binding.group, binding.binding)),
        name: variable.name.clone(),
        storage: matches!(variable.space, naga::AddressSpace::Storage { .. }),
        writable: matches!(variable.space, naga::AddressSpace::Storage { access } if access.contains(naga::StorageAccess::STORE)),
    }).collect()
}

/// For each global variable of `module`, in declaration order, whether naga's
/// `TypeInner::needs_host_buffer_byte_size` holds of its type: one flag for
/// each global, the same for the same module.
#[verifier::external_body]
fn runtime_sized(module: &ShaderModule) -> (r: Vec<bool>)
    requires
        validated(*module) is Ok,
    ensures
        r@ == module_sized(*module),
        r@.len() == module_globals(*module).len(),
{
    module.global_variables.iter().map(|(_, variable)| {
        module.types[variable.ty].inner.needs_host_buffer_byte_size(&module.types)
    }).collect()
}

/// Whether two reflected bindings stand in slot order: by group, then by binding.
pub open spec fn slot_le(a: ShaderBinding, b: ShaderBinding) -> bool {
    a.group < b.group || (a.group == b.group && a.binding <= b.binding)
}

/// `x` placed after every binding that stands before or beside it, in a
/// sequence in slot order.
pub open spec fn insert_by_slot(s: Seq<ShaderBinding>, x: ShaderBinding) -> Seq<ShaderBinding>
    decreases s.len(),
{
    if s.len() == 0 {
        seq![x]
    } else if slot_le(s.last(), x) {
        s.push(x)
    } else {
        insert_by_slot(s.drop_last(), x).push(s.last())
    }
}

/// The stable sort of bindings by slot.
pub open spec fn sorted_by_slot(s: Seq<ShaderBinding>) -> Seq<ShaderBinding>
    decreases s.len(),
{
    if s.len() == 0 {
        s
    } else {
        insert_by_slot(sorted_by_slot(s.drop_last()), s.last())
    }
}

/// Bindings in slot order.
pub open spec fn in_slot_order(s: Seq<ShaderBinding>) -> bool {
    forall|i: int, j: int| 0 <= i < j < s.len() ==> slot_le(s[i], s[j])
}

/// Where `insert_by_slot` places `x`: after the last binding that stands
/// before or beside it.
proof fn lemma_insert_at(s: Seq<ShaderBinding>, x: ShaderBinding, p: int)
    requires
        0 <= p <= s.len(),
        forall|i: int| 0 <= i < p ==> slot_le(s[i], x),
        forall|i: int| p <= i < s.len() ==> !slot_le(s[i], x),
    ensures
        insert_by_slot(s, x) == s.insert(p, x),
    decreases s.len(),
{
    if s.len() == 0 {
        assert(s.insert(p, x) =~= seq![x]);
    } else if slot_le(s.last(), x) {
        assert(p == s.len());
        assert(s.insert(p, x) =~= s.push(x));
    } else {
        let t = s.drop_last();
        lemma_insert_at(t, x, p);
        assert(t.insert(p, x).push(s.last()) =~= s.insert(p, x));
    }
}

proof fn lemma_insert_keeps_order(s: Seq<ShaderBinding>, x: ShaderBinding, p: int)
    requires
        in_slot_order(s),
        0 <= p <= s.len(),
        forall|i: int| 0 <= i < p ==> slot_le(s[i], x),
        forall|i: int| p <= i < s.len() ==> !slot_le(s[i], x),
    ensures
        in_slot_order(s.insert(p, x)),
{
    let t = s.insert(p, x);
    assert forall|i: int, j: int| 0 <= i < j < t.len() implies slot_le(t[i], t[j]) by {
        if j < p {
            assert(t[i] == s[i] && t[j] == s[j]);
        } else if j == p {
            assert(t[i] == s[i] && t[j] == x);
        } else if i < p {
            assert(t[i] == s[i] && t[j] == s[j - 1]);
        } else if i == p {
            assert(t[i] == x && t[j] == s[j - 1]);
        } else {
            assert(t[i] == s[i - 1] && t[j] == s[j - 1]);
        }
    }
}

fn copy_binding(b: &ShaderBinding) -> (r: ShaderBinding)
    ensures
        r == *b,
{
    ShaderBinding { group: b.group, binding: b.binding, name: b.name.clone(), kind: b.kind }
}

/// Sorts bindings by slot, keeping the order of bindings in the same slot.
pub fn sort_by_slot(bindings: Vec<ShaderBinding>) -> (r: Vec<ShaderBinding>)
    ensures
        r@ == sorted_by_slot(bindings@),
        in_slot_order(r@),
{
    let mut sorted: Vec<ShaderBinding> = Vec::new();
    let mut k: usize = 0;
    while k < bindings.len()
        invariant
            k <= bindings@.len(),
            sorted@ == sorted_by_slot(bindings@.subrange(0, k as int)),
            in_slot_order(sorted@),
        decreases bindings@.len() - k,
    {
        let x = copy_binding(&bindings[k]);
        let mut p: usize = sorted.len();
        while p > 0 && !(sorted[p - 1].group < x.group || (sorted[p - 1].group == x.group && sorted[p - 1].binding
            <= x.binding))
            invariant
                p <= sorted@.len(),
                in_slot_order(sorted@),
                forall|i: int| p <= i < sorted@.len() ==> !slot_le(sorted@[i], x),
            decreases p,
        {
            p -= 1;
        }
        proof {
            if p > 0 {
                assert(slot_le(sorted@[p - 1], x));
                assert forall|i: int| 0 <= i < p implies slot_le(sorted@[i], x) by {
                    if i < p - 1 {
                        assert(slot_le(sorted@[i], sorted@[p - 1]));
                    }
                }
            }
            lemma_insert_at(sorted@, x, p as int);
            lemma_insert_keeps_order(sorted@, x, p as int);
            let prefix = bindings@.subrange(0, k + 1);
            assert(prefix.drop_last() =~= bindings@.subrange(0, k as int));
            assert(prefix.last() == x);
        }
        sorted.insert(p, x);
        k += 1;
    }
    proof {
        assert(bindings@.subrange(0, bindings@.len() as int) =~= bindings@);
    }
    sorted
}

/// Why the storage resources of a module cannot be reflected: a bound global
/// outside storage, or one without a name; each names its binding.
#[derive(Clone, Copy, Debug, PartialEq, Eq, Structural)]
pub enum ReflectRefusal {
    NotStorage(u32),
    Unnamed(u32),
}

/// The resource a bound, named storage global declares.
pub open spec fn declared(g: GlobalFacts) -> ShaderBinding {
    ShaderBinding {
        group: g.binding.unwrap().0,
        binding: g.binding.unwrap().1,
        name: g.name->0,
        kind: if g.writable { BindingKind::ReadWriteStorage } else { BindingKind::ReadOnlyStorage },
    }
}

/// The resources the bound globals declare, in declaration order, or the
/// refusal of the first bound global outside storage or without a name.
pub open spec fn resources_of(g: Seq<GlobalFacts>) -> Result<Seq<ShaderBinding>, ReflectRefusal>
    decreases g.len(),
{
    if g.len() == 0 {
        Ok(Seq::empty())
    } else {
        let f = g[0];
        if f.binding is None {
            resources_of(g.drop_first())
        } else if !f.storage {
            Err(ReflectRefusal::NotStorage(f.binding.unwrap().1))
        } else if f.name is None {
            Err(ReflectRefusal::Unnamed(f.binding.unwrap().1))
        } else {
            match resources_of(g.drop_first()) {
                Ok(rest) => Ok(seq![declared(f)] + rest),
                Err(e) => Err(e),
            }
        }
    }
}

/// The storage resources the globals of a module declare, sorted by slot.
pub fn reflect_globals(globals: &[GlobalFacts]) -> (r: Result<Vec<ShaderBinding>, ReflectRefusal>)
    ensures
        r matches Ok(v) ==> resources_of(globals@) is Ok && v@ == sorted_by_slot(resources_of(globals@)->Ok_0)
            && in_slot_order(v@),
        r matches Err(e) ==> resources_of(globals@) == Err::<Seq<ShaderBinding>, ReflectRefusal>(e),
{
    let mut found: Vec<ShaderBinding> = Vec::new();
    let mut i: usize = 0;
    proof {
        assert(globals@.subrange(0, globals@.len() as int) =~= globals@);
        match resources_of(globals@) {
            Ok(rest) => {
                assert(found@ + rest =~= rest);
            },
            Err(e) => {},
        }
    }
    while i < globals.len()
        invariant
            i <= globals@.len(),
            resources_of(globals@) == match resources_of(globals@.subrange(i as int, globals@.len() as int)) {
                Ok(rest) => Ok(found@ + rest),
                Err(e) => Err::<Seq<ShaderBinding>, ReflectRefusal>(e),
            },
        decreases globals@.len() - i,
    {
        let g = &globals[i];
        let ghost tail = globals@.subrange(i as int, globals@.len() as int);
        proof {
            assert(tail[0] == globals@[i as int]);
            assert(tail.drop_first() =~= globals@.subrange(i + 1, globals@.len() as int));
        }
        match &g.binding {
            None => {},
            Some((group, binding)) => {
                if !g.storage {
                    return Err(ReflectRefusal::NotStorage(*binding));
                }
                let name = match &g.name {
                    Some(name) => name.clone(),
                    None => return Err(ReflectRefusal::Unnamed(*binding)),
                };
                let kind = if g.writable { BindingKind::ReadWriteStorage } else { BindingKind::ReadOnlyStorage };
                let ghost before = found@;
                found.push(ShaderBinding { group: *group, binding: *binding, name, kind });
                proof {
                    assert(found@.last() == declared(globals@[i as int]));
                    match resources_of(globals@.subrange(i + 1, globals@.len() as int)) {
                        Ok(rest) => {
                            assert(before + (seq![declared(globals@[i as int])] + rest) =~= found@ + rest);
                        },
                        Err(e) => {},
                    }
                }
            },
        }
        i += 1;
    }
    proof {
        assert(globals@.subrange(globals@.len() as int, globals@.len() as int) =~= Seq::<GlobalFacts>::empty());
        assert(found@ + Seq::<ShaderBinding>::empty() =~= found@);
    }
    Ok(sort_by_slot(found))
}

/// The storage resources a device module declares, sorted by slot.
pub fn reflect(module: &ShaderModule) -> (r: Result<Vec<ShaderBinding>, ReflectRefusal>)
    ensures
        r matches Ok(v) ==> resources_of(module_globals(*module)) is Ok
            && v@ == sorted_by_slot(resources_of(module_globals(*module))->Ok_0) && in_slot_order(v@),
        r matches Err(e) ==> resources_of(module_globals(*module)) == Err::<Seq<ShaderBinding>, ReflectRefusal>(e),
{
    let globals = global_facts(module);
    reflect_globals(globals.as_slice())
}

/// Whether an entry point is the compute entry named `entry`.
pub open spec fn names_entry(e: EntryFacts, entry: Seq<char>) -> bool {
    e.name@ == entry && e.compute
}

/// `i` is the first compute entry of `entries` named `entry`.
pub open spec fn first_entry(entries: Seq<EntryFacts>, entry: Seq<char>, i: int) -> bool {
    &&& 0 <= i < entries.len()
    &&& names_entry(entries[i], entry)
    &&& forall|j: int| 0 <= j < i ==> !names_entry(#[trigger] entries[j], entry)
}

/// The first compute entry of `entries` named `entry`, where there is one.
pub open spec fn entry_in(entries: Seq<EntryFacts>, entry: Seq<char>) -> Option<int> {
    if exists|i: int| first_entry(entries, entry, i) {
        Some(choose|i: int| first_entry(entries, entry, i))
    } else {
        None
    }
}

/// Whether `module` passes the checks made before naga validates it: dense
/// bindings, a compute entry named `entry` with a workgroup, and storage
/// resources that are exactly the bindings.
pub open spec fn admitted(module: ShaderModule, entry: Seq<char>, bindings: Seq<BindingSpec>) -> bool {
    &&& bindings_dense(bindings)
    &&& entry_in(module_entries(module), entry) is Some
    &&& module_entries(module)[entry_in(module_entries(module), entry)->0].workgroup > 0
    &&& resources_of(module_globals(module)) is Ok
    &&& reflection_matches(sorted_by_slot(resources_of(module_globals(module))->Ok_0), bindings)
}

/// The source a translation wrote and the name it reports for the entry at
/// `index`, where it wrote one and reports that name.
pub open spec fn reported(out: Result<(Seq<char>, Seq<Option<String>>), Seq<char>>, index: int) -> Option<(Seq<char>, String)> {
    match out {
        Ok((source, names)) => if 0 <= index < names.len() && names[index] is Some {
            Some((source, names[index]->0))
        } else {
            None
        },
        Err(_) => None,
    }
}

/// Whether the resources a module declares, in slot order, are the bindings.
pub open spec fn reflection_matches(declared: Seq<ShaderBinding>, specs: Seq<BindingSpec>) -> bool {
    declared.len() == specs.len() && forall|j: int| 0 <= j < declared.len() ==> resource_matches(#[trigger] declared[j], specs[j])
}

/// The first compute entry named `entry`.
pub fn find_entry(entries: &[EntryFacts], entry: &str) -> (r: Option<usize>)
    ensures
        r matches Some(i) ==> i < entries@.len() && names_entry(entries@[i as int], entry@)
            && forall|j: int| 0 <= j < i ==> !names_entry(#[trigger] entries@[j], entry@),
        r is None ==> forall|j: int| 0 <= j < entries@.len() ==> !names_entry(#[trigger] entries@[j], entry@),
{
    let wanted = entry.to_owned();
    let mut i: usize = 0;
    while i < entries.len()
        invariant
            i <= entries@.len(),
            wanted@ == entry@,
            forall|j: int| 0 <= j < i ==> !names_entry(#[trigger] entries@[j], entry@),
        decreases entries@.len() - i,
    {
        if entries[i].name == wanted && entries[i].compute {
            return Some(i);
        }
        i += 1;
    }
    None
}

/// The validation flags a program is checked with: every flag naga offers
/// (expressions, blocks, control flow uniformity, structure layouts,
/// constants and bindings).
pub const VALIDATION_FLAGS: u8 = 0x3f;

/// The capabilities a program may use: 16-bit floats in 32-bit storage.
pub const VALIDATION_CAPABILITIES: u64 = 0x1000_0000;

/// What naga's validator, made with the flags and capabilities given as bits,
/// makes of a module: its analysis, or the rendering of the error it finds.
pub uninterp spec fn validation_of(module: ShaderModule, flags: u8, capabilities: u64) -> Result<ModuleInfo, Seq<char>>;

/// What naga's validator makes of a module with the flags and capabilities
/// of a program.
pub open spec fn validated(module: ShaderModule) -> Result<ModuleInfo, Seq<char>> {
    validation_of(module, VALIDATION_FLAGS, VALIDATION_CAPABILITIES)
}

/// The shader models a program may be written for in HLSL.
#[derive(Clone, Copy, Debug, PartialEq, Eq, Structural)]
pub enum HlslModel {
    V5_1,
    V6_0,
}

/// Where a native backend places the resource at `binding` of `group`: in
/// descriptor set `set` at `slot` (the register of HLSL), in the Metal buffer
/// `buffer`, writable or not.
#[derive(Clone, Copy, Debug, PartialEq, Eq, Structural)]
pub struct SlotTarget {
    pub group: u32,
    pub binding: u32,
    pub set: u32,
    pub slot: u32,
    pub buffer: u8,
    pub writable: bool,
}

/// What the writers of the native backends are told: where each resource
/// goes, whether a missing binding may be faked, the HLSL shader model, the
/// MSL version and the Metal buffer that holds the sizes of runtime-sized
/// buffers.
pub struct WriterOptions {
    pub targets: Vec<SlotTarget>,
    pub fake_missing_bindings: bool,
    pub hlsl_model: HlslModel,
    pub msl_version: (u8, u8),
    pub sizes_buffer: Option<u8>,
}

/// The target of a storage binding: group zero, set zero, the slot and the
/// Metal buffer of its binding, writable where it is read-write.
pub open spec fn target_of(spec: BindingSpec) -> SlotTarget {
    SlotTarget {
        group: 0,
        binding: spec.binding,
        set: 0,
        slot: spec.binding,
        buffer: spec.binding as u8,
        writable: spec.kind == BindingKind::ReadWriteStorage,
    }
}

/// The targets of the storage bindings, one for each, in their order.
pub open spec fn targets_of(bindings: Seq<BindingSpec>) -> Seq<SlotTarget> {
    bindings.map_values(|spec: BindingSpec| target_of(spec))
}

/// The writer options of a program with `bindings`: a target for each
/// binding, no binding faked, shader model 6.0, MSL 2.3, and the sizes of
/// runtime-sized buffers at `METAL_SIZE_BUFFER_SLOT`.
pub fn writer_options(bindings: &[BindingSpec]) -> (r: WriterOptions)
    requires
        bindings_dense(bindings@),
    ensures
        r.targets@ == targets_of(bindings@),
        !r.fake_missing_bindings,
        r.hlsl_model == HlslModel::V6_0,
        r.msl_version == (2u8, 3u8),
        r.sizes_buffer == Some(METAL_SIZE_BUFFER_SLOT),
{
    let mut targets: Vec<SlotTarget> = Vec::new();
    let mut i: usize = 0;
    while i < bindings.len()
        invariant
            i <= bindings@.len(),
            bindings_dense(bindings@),
            targets@ == targets_of(bindings@.subrange(0, i as int)),
        decreases bindings@.len() - i,
    {
        let spec = bindings[i];
        assert(spec.binding == i && i < 30);
        let target = SlotTarget {
            group: 0,
            binding: spec.binding,
            set: 0,
            slot: spec.binding,
            buffer: spec.binding as u8,
            writable: spec.kind == BindingKind::ReadWriteStorage,
        };
        targets.push(target);
        proof {
            assert(targets@ =~= targets_of(bindings@.subrange(0, i + 1)));
        }
        i += 1;
    }
    proof {
        assert(bindings@.subrange(0, bindings@.len() as int) =~= bindings@);
    }
    WriterOptions {
        targets,
        fake_missing_bindings: false,
        hlsl_model: HlslModel::V6_0,
        msl_version: (2, 3),
        sizes_buffer: Some(METAL_SIZE_BUFFER_SLOT),
    }
}

/// Validates `module` with naga's `Validator`, made with the flags and
/// capabilities given as bits (`from_bits_retain`); an error comes back as its
/// debug rendering. Claims only that the outcome is naga's for these
/// arguments, the same for the same arguments.
#[verifier::external_body]
fn validate(module: &ShaderModule, flags: u8, capabilities: u64) -> (r: Result<ModuleInfo, String>)
    ensures
        r is Ok <==> validation_of(*module, flags, capabilities) is Ok,
        r is Ok ==> validation_of(*module, flags, capabilities) == Ok::<ModuleInfo, Seq<char>>(r->Ok_0),
        r is Err ==> validation_of(*module, flags, capabilities) == Err::<ModuleInfo, Seq<char>>(r->Err_0@),
{
    let flags = naga::valid::ValidationFlags::from_bits_retain(flags);
    let capabilities = naga::valid::Capabilities::from_bits_retain(capabilities);
    naga::valid::Validator::new(flags, capabilities).validate(module).map_err(|error| format!("{error:#?}"))
}

/// The SPIR-V naga writes of the compute entry `entry` of a module, given its
/// analysis, the targets of its resources and whether missing bindings are
/// faked, or the rendering of the error it meets.
pub uninterp spec fn spirv_of(module: ShaderModule, info: ModuleInfo, targets: Seq<SlotTarget>, fake: bool, entry: Seq<char>) -> Result<Seq<u32>, Seq<char>>;

/// The SPIR-V of a program's entry, written with the program's options.
pub open spec fn spirv_for(module: ShaderModule, info: ModuleInfo, bindings: Seq<BindingSpec>, entry: Seq<char>) -> Result<Seq<u32>, Seq<char>> {
    spirv_of(module, info, targets_of(bindings), false, entry)
}

/// The HLSL naga writes of the compute entry `entry` of a module, given its
/// analysis, the shader model, the targets of its resources and whether
/// missing bindings are faked: the source and the entry names it reports, or
/// the rendering of the error it meets.
pub uninterp spec fn hlsl_of(module: ShaderModule, info: ModuleInfo, model: HlslModel, targets: Seq<SlotTarget>, fake: bool, entry: Seq<char>) -> Result<(Seq<char>, Seq<Option<String>>), Seq<char>>;

/// The HLSL of a program's entry, written with the program's options.
pub open spec fn hlsl_for(module: ShaderModule, info: ModuleInfo, bindings: Seq<BindingSpec>, entry: Seq<char>) -> Result<(Seq<char>, Seq<Option<String>>), Seq<char>> {
    hlsl_of(module, info, HlslModel::V6_0, targets_of(bindings), false, entry)
}

/// The MSL naga writes of the compute entry `entry` of a module, given its
/// analysis, the language version, the buffer of the sizes of runtime-sized
/// buffers, the targets of its resources and whether missing bindings are
/// faked: the source and the entry names it reports, or the rendering of the
/// error it meets.
pub uninterp spec fn msl_of(module: ShaderModule, info: ModuleInfo, version: (u8, u8), sizes: Option<u8>, targets: Seq<SlotTarget>, fake: bool, entry: Seq<char>) -> Result<(Seq<char>, Seq<Option<String>>), Seq<char>>;

/// The MSL of a program's entry, written with the program's options.
pub open spec fn msl_for(module: ShaderModule, info: ModuleInfo, bindings: Seq<BindingSpec>, entry: Seq<char>) -> Result<(Seq<char>, Seq<Option<String>>), Seq<char>> {
    msl_of(module, info, (2u8, 3u8), Some(METAL_SIZE_BUFFER_SLOT), targets_of(bindings), false, entry)
}

/// Writes the compute entry `entry` of `module` as SPIR-V with naga's
/// `spv::write_vec`: each target's resource in its set at its slot, missing
/// bindings faked as `options` says. naga indexes `info` by the module's
/// handles, so `info` is the module's own analysis. Claims only that the
/// outcome is naga's for these arguments, the same for the same arguments.
#[verifier::external_body]
fn write_spirv(module: &ShaderModule, info: &ModuleInfo, options: &WriterOptions, entry: &str) -> (r: Result<Vec<u32>, String>)
    requires
        validated(*module) == Ok::<ModuleInfo, Seq<char>>(*info),
    ensures
        r is Ok <==> spirv_of(*module, *info, options.targets@, options.fake_missing_bindings, entry@) is Ok,
        r is Ok ==> spirv_of(*module, *info, options.targets@, options.fake_missing_bindings, entry@) == Ok::<Seq<u32>, Seq<char>>(r->Ok_0@),
        r is Err ==> spirv_of(*module, *info, options.targets@, options.fake_missing_bindings, entry@) == Err::<Seq<u32>, Seq<char>>(r->Err_0@),
{
    let mut naga_options = spv::Options { fake_missing_bindings: options.fake_missing_bindings, ..Default::default() };
    for t in options.targets.iter() {
        let target = spv::BindingInfo { descriptor_set: t.set, binding: t.slot, binding_array_size: None };
        naga_options.binding_map.insert(ResourceBinding { group: t.group, binding: t.binding }, target);
    }
    let pipeline = spv::PipelineOptions { shader_stage: Compute, entry_point: entry.to_owned() };
    spv::write_vec(module, info, &naga_options, Some(&pipeline)).map_err(|error| error.to_string())
}

/// Writes the compute entry `entry` of `module` as HLSL with naga's
/// `hlsl::Writer`, for the shader model of `options`: each target's resource
/// at the register of its slot, missing bindings faked as `options` says; the
/// source and the entry names naga reports. `info` is the module's own
/// analysis. Claims only that the outcome is naga's for these arguments, the
/// same for the same arguments.
#[verifier::external_body]
fn write_hlsl(module: &ShaderModule, info: &ModuleInfo, options: &WriterOptions, entry: &str) -> (r: Result<(String, Vec<Option<String>>), String>)
    requires
        validated(*module) == Ok::<ModuleInfo, Seq<char>>(*info),
    ensures
        r is Ok <==> hlsl_of(*module, *info, options.hlsl_model, options.targets@, options.fake_missing_bindings, entry@) is Ok,
        r is Ok ==> hlsl_of(*module, *info, options.hlsl_model, options.targets@, options.fake_missing_bindings, entry@)
            == Ok::<(Seq<char>, Seq<Option<String>>), Seq<char>>((r->Ok_0.0@, r->Ok_0.1@)),
        r is Err ==> hlsl_of(*module, *info, options.hlsl_model, options.targets@, options.fake_missing_bindings, entry@)
            == Err::<(Seq<char>, Seq<Option<String>>), Seq<char>>(r->Err_0@),
{
    let shader_model = match options.hlsl_model { HlslModel::V5_1 => ShaderModel::V5_1, HlslModel::V6_0 => ShaderModel::V6_0 };
    let mut naga_options = hlsl::Options { shader_model, fake_missing_bindings: options.fake_missing_bindings, ..Default::default() };
    for t in &options.targets {
        naga_options.binding_map.insert(ResourceBinding { group: t.group, binding: t.binding }, HlslTarget { register: t.slot, ..Default::default() });
    }
    let mut source = String::new();
    let reflection = hlsl::Writer::new(&mut source, &naga_options, &hlsl::PipelineOptions { entry_point: Some((Compute, entry.to_owned())) }).write(module, info, None).map_err(|e| e.to_string())?;
    Ok((source, reflection.entry_point_names.into_iter().map(Result::ok).collect()))
}

/// Writes the compute entry `entry` of `module` as MSL with naga's
/// `msl::write_string`, in the language version of `options`: each target's
/// resource in its Metal buffer, mutable where it is writable, the sizes of
/// runtime-sized buffers in the sizes buffer of `options`, missing bindings
/// faked as `options` says; the source and the entry names naga reports.
/// `info` is the module's own analysis. Claims only that the outcome is
/// naga's for these arguments, the same for the same arguments.
#[verifier::external_body]
fn write_msl(module: &ShaderModule, info: &ModuleInfo, options: &WriterOptions, entry: &str) -> (r: Result<(String, Vec<Option<String>>), String>)
    requires
        validated(*module) == Ok::<ModuleInfo, Seq<char>>(*info),
    ensures
        r is Ok <==> msl_of(*module, *info, options.msl_version, options.sizes_buffer, options.targets@, options.fake_missing_bindings, entry@) is Ok,
        r is Ok ==> msl_of(*module, *info, options.msl_version, options.sizes_buffer, options.targets@, options.fake_missing_bindings, entry@)
            == Ok::<(Seq<char>, Seq<Option<String>>), Seq<char>>((r->Ok_0.0@, r->Ok_0.1@)),
        r is Err ==> msl_of(*module, *info, options.msl_version, options.sizes_buffer, options.targets@, options.fake_missing_bindings, entry@)
            == Err::<(Seq<char>, Seq<Option<String>>), Seq<char>>(r->Err_0@),
{
    let mut resources = EntryPointResources { sizes_buffer: options.sizes_buffer, ..Default::default() };
    for t in &options.targets {
        resources.resources.insert(ResourceBinding { group: t.group, binding: t.binding }, MslTarget { buffer: Some(t.buffer), mutable: t.writable, ..Default::default() });
    }
    let mut naga_options = MslOptions { lang_version: options.msl_version, fake_missing_bindings: options.fake_missing_bindings, ..Default::default() };
    naga_options.per_entry_point_map.insert(entry.to_owned(), resources);
    write_string(module, info, &naga_options, &MslPipeline { entry_point: Some((Compute, entry.to_owned())), ..Default::default() })
        .map(|(source, reflection)| (source, reflection.entry_point_names.into_iter().map(Result::ok).collect()))
        .map_err(|e| e.to_string())
}

/// Why a module does not make a compute program.
#[derive(Clone, Debug, PartialEq, Eq)]
pub enum ProgramRefusal {
    /// The bindings are not between one and thirty, each in the slot of its position.
    Bindings,
    /// No compute entry has the entry's name.
    NoEntry,
    /// The entry's workgroup is empty.
    EmptyWorkgroup,
    /// The module's storage resources cannot be reflected.
    Reflect(ReflectRefusal),
    /// The module's storage resources are not the bindings.
    Reflection(ReflectionRefusal),
    /// The module does not validate.
    Invalid(String),
    /// The module does not compile to SPIR-V.
    Spirv(String),
    /// The SPIR-V shares a decorated type between workgroup memory and other storage.
    Isolation,
}

/// A compute program: a validated module, its compute entry, the storage
/// buffers it binds, and its SPIR-V with the explicit layout of its workgroup
/// types removed.
pub struct ComputeProgram {
    label: String,
    module: ShaderModule,
    info: ModuleInfo,
    entry: String,
    index: usize,
    workgroup: u32,
    bindings: Vec<BindingSpec>,
    reflected: Vec<ShaderBinding>,
    spirv: Vec<u32>,
    written: Ghost<Seq<u32>>,
}

impl ComputeProgram {
    pub closed spec fn label_view(&self) -> Seq<char> {
        self.label@
    }

    pub closed spec fn entry_view(&self) -> Seq<char> {
        self.entry@
    }

    pub closed spec fn workgroup_view(&self) -> u32 {
        self.workgroup
    }

    pub closed spec fn bindings_view(&self) -> Seq<BindingSpec> {
        self.bindings@
    }

    pub closed spec fn reflected_view(&self) -> Seq<ShaderBinding> {
        self.reflected@
    }

    pub closed spec fn spirv_view(&self) -> Seq<u32> {
        self.spirv@
    }

    /// The SPIR-V naga wrote, before its workgroup types were isolated.
    pub closed spec fn written_view(&self) -> Seq<u32> {
        self.written@
    }

    /// The module the program was made from.
    pub closed spec fn module_view(&self) -> ShaderModule {
        self.module
    }

    /// naga's analysis of the module.
    pub closed spec fn info_view(&self) -> ModuleInfo {
        self.info
    }

    /// Where the compute entry stands among the module's entries.
    pub closed spec fn index_view(&self) -> int {
        self.index as int
    }

    /// What every program holds: dense bindings, resources that match them in
    /// slot order, a workgroup, and SPIR-V isolated from what naga wrote.
    pub open spec fn wf(&self) -> bool {
        &&& bindings_dense(self.bindings_view())
        &&& self.reflected_view().len() == self.bindings_view().len()
        &&& forall|j: int| 0 <= j < self.reflected_view().len() ==> resource_matches(#[trigger] self.reflected_view()[j], self.bindings_view()[j])
        &&& in_slot_order(self.reflected_view())
        &&& self.workgroup_view() > 0
        &&& validated(self.module_view()) == Ok::<ModuleInfo, Seq<char>>(self.info_view())
        &&& isolatable(self.written_view())
        &&& self.spirv_view() == isolated(self.written_view())
    }

    /// Checks `module` against `bindings`: dense bindings, a compute entry
    /// named `entry` with a workgroup, storage resources that are exactly the
    /// bindings; validates it, compiles it to SPIR-V and isolates its
    /// workgroup types.
    /// The uniformity of its barriers is not checked here: a kernel built by
    /// `Compiler::finish` had it checked on its lowered module, and a naga
    /// module is opaque to this library.
    pub fn new(label: &str, module: ShaderModule, entry: &str, bindings: &[BindingSpec]) -> (r: Result<ComputeProgram, ProgramRefusal>)
        ensures
            r == Err::<ComputeProgram, ProgramRefusal>(ProgramRefusal::Bindings) <==> !bindings_dense(bindings@),
            bindings_dense(bindings@) ==> (r == Err::<ComputeProgram, ProgramRefusal>(ProgramRefusal::NoEntry)
                <==> entry_in(module_entries(module), entry@) is None),
            bindings_dense(bindings@) && entry_in(module_entries(module), entry@) is Some ==> (
                r == Err::<ComputeProgram, ProgramRefusal>(ProgramRefusal::EmptyWorkgroup)
                <==> module_entries(module)[entry_in(module_entries(module), entry@)->0].workgroup == 0),
            bindings_dense(bindings@) && entry_in(module_entries(module), entry@) is Some
                && module_entries(module)[entry_in(module_entries(module), entry@)->0].workgroup > 0 ==> (
                (r matches Err(ProgramRefusal::Reflect(e)) ==> resources_of(module_globals(module)) == Err::<Seq<ShaderBinding>, ReflectRefusal>(e))
                && (resources_of(module_globals(module)) is Err ==> r matches Err(ProgramRefusal::Reflect(_)))
                && (resources_of(module_globals(module)) is Ok ==> (r matches Err(ProgramRefusal::Reflection(_))
                    <==> !reflection_matches(sorted_by_slot(resources_of(module_globals(module))->Ok_0), bindings@)))),
            admitted(module, entry@, bindings@) ==> (r matches Err(ProgramRefusal::Invalid(_)) <==> validated(module) is Err),
            r matches Err(ProgramRefusal::Invalid(e)) ==> validated(module) == Err::<ModuleInfo, Seq<char>>(e@),
            admitted(module, entry@, bindings@) && validated(module) is Ok ==> (r matches Err(ProgramRefusal::Spirv(_))
                <==> spirv_for(module, validated(module)->Ok_0, bindings@, entry@) is Err),
            admitted(module, entry@, bindings@) && validated(module) is Ok
                && spirv_for(module, validated(module)->Ok_0, bindings@, entry@) is Ok ==> (r is Ok
                <==> isolatable(spirv_for(module, validated(module)->Ok_0, bindings@, entry@)->Ok_0)),
            r matches Ok(p) ==> admitted(module, entry@, bindings@)
                && validated(module) == Ok::<ModuleInfo, Seq<char>>(p.info_view())
                && spirv_for(module, p.info_view(), bindings@, entry@) == Ok::<Seq<u32>, Seq<char>>(p.written_view())
                && p.index_view() == entry_in(module_entries(module), entry@)->0,
            r matches Ok(p) ==> p.wf() && p.label_view() == label@ && p.entry_view() == entry@
                && p.bindings_view() == bindings@ && p.module_view() == module
                && entry_in(module_entries(module), entry@) is Some
                && p.workgroup_view() == module_entries(module)[entry_in(module_entries(module), entry@)->0].workgroup
                && resources_of(module_globals(module)) is Ok
                && p.reflected_view() == sorted_by_slot(resources_of(module_globals(module))->Ok_0),
    {
        if !admit_bindings(bindings) {
            return Err(ProgramRefusal::Bindings);
        }
        let entries = entry_facts(&module);
        let index = match find_entry(entries.as_slice(), entry) {
            Some(index) => {
                proof {
                    assert(first_entry(entries@, entry@, index as int));
                    let c = choose|i: int| first_entry(entries@, entry@, i);
                    if c < index {
                        assert(!names_entry(entries@[c], entry@));
                    } else if c > index {
                        assert(!names_entry(entries@[index as int], entry@));
                    }
                }
                index
            },
            None => {
                proof {
                    if exists|i: int| first_entry(entries@, entry@, i) {
                        let c = choose|i: int| first_entry(entries@, entry@, i);
                        assert(!names_entry(entries@[c], entry@));
                    }
                }
                return Err(ProgramRefusal::NoEntry);
            },
        };
        let workgroup = entries[index].workgroup;
        if workgroup == 0 {
            return Err(ProgramRefusal::EmptyWorkgroup);
        }
        let reflected = match reflect(&module) {
            Ok(reflected) => reflected,
            Err(refusal) => return Err(ProgramRefusal::Reflect(refusal)),
        };
        match check_reflection(reflected.as_slice(), bindings) {
            Ok(()) => {},
            Err(refusal) => return Err(ProgramRefusal::Reflection(refusal)),
        }
        let info = match validate(&module, VALIDATION_FLAGS, VALIDATION_CAPABILITIES) {
            Ok(info) => info,
            Err(error) => return Err(ProgramRefusal::Invalid(error)),
        };
        let options = writer_options(bindings);
        let written = match write_spirv(&module, &info, &options, entry) {
            Ok(words) => words,
            Err(error) => return Err(ProgramRefusal::Spirv(error)),
        };
        let spirv = match try_isolate(written.as_slice()) {
            Some(words) => words,
            None => return Err(ProgramRefusal::Isolation),
        };
        let mut kept: Vec<BindingSpec> = Vec::new();
        let mut i: usize = 0;
        while i < bindings.len()
            invariant
                i <= bindings@.len(),
                kept@ == bindings@.subrange(0, i as int),
            decreases bindings@.len() - i,
        {
            kept.push(bindings[i]);
            proof {
                assert(kept@ =~= bindings@.subrange(0, i + 1));
            }
            i += 1;
        }
        proof {
            assert(kept@ =~= bindings@);
        }
        Ok(ComputeProgram {
            label: label.to_owned(),
            module,
            info,
            entry: entry.to_owned(),
            index,
            workgroup,
            bindings: kept,
            reflected,
            spirv,
            written: Ghost(written@),
        })
    }

    pub fn label(&self) -> (r: &str)
        ensures
            r@ == self.label_view(),
    {
        self.label.as_str()
    }

    pub fn entry(&self) -> (r: &str)
        ensures
            r@ == self.entry_view(),
    {
        self.entry.as_str()
    }

    pub fn workgroup_size(&self) -> (r: u32)
        ensures
            r == self.workgroup_view(),
    {
        self.workgroup
    }

    pub fn bindings(&self) -> (r: &[BindingSpec])
        ensures
            r@ == self.bindings_view(),
    {
        self.bindings.as_slice()
    }

    pub fn reflected(&self) -> (r: &[ShaderBinding])
        ensures
            r@ == self.reflected_view(),
    {
        self.reflected.as_slice()
    }

    pub fn spirv(&self) -> (r: &[u32])
        ensures
            r@ == self.spirv_view(),
    {
        self.spirv.as_slice()
    }

    pub fn module(&self) -> (r: &ShaderModule)
        ensures
            *r == self.module_view(),
    {
        &self.module
    }
}

/// Why the sizes of runtime-sized buffers cannot be bound: a runtime-sized
/// global without a binding, or one outside group zero.
#[derive(Clone, Copy, Debug, PartialEq, Eq, Structural)]
pub enum SizeRefusal {
    Unbound,
    Group(u32),
}

/// The bindings of the runtime-sized globals, in declaration order, or the
/// refusal of the first that is unbound or outside group zero.
pub open spec fn size_slots_of(g: Seq<GlobalFacts>, sized: Seq<bool>) -> Result<Seq<u32>, SizeRefusal>
    decreases g.len(),
{
    if g.len() == 0 || sized.len() == 0 {
        Ok(Seq::empty())
    } else if !sized[0] {
        size_slots_of(g.drop_first(), sized.drop_first())
    } else if g[0].binding is None {
        Err(SizeRefusal::Unbound)
    } else if g[0].binding.unwrap().0 != 0 {
        Err(SizeRefusal::Group(g[0].binding.unwrap().0))
    } else {
        match size_slots_of(g.drop_first(), sized.drop_first()) {
            Ok(rest) => Ok(seq![g[0].binding.unwrap().1] + rest),
            Err(e) => Err(e),
        }
    }
}

/// The bindings of the runtime-sized globals, whose sizes Metal reads from a
/// buffer of its own.
pub fn size_slots(globals: &[GlobalFacts], sized: &[bool]) -> (r: Result<Vec<u32>, SizeRefusal>)
    requires
        globals@.len() == sized@.len(),
    ensures
        r matches Ok(v) ==> size_slots_of(globals@, sized@) == Ok::<Seq<u32>, SizeRefusal>(v@),
        r matches Err(e) ==> size_slots_of(globals@, sized@) == Err::<Seq<u32>, SizeRefusal>(e),
{
    let mut slots: Vec<u32> = Vec::new();
    let mut i: usize = 0;
    let n = globals.len();
    proof {
        assert(globals@.subrange(0, n as int) =~= globals@);
        assert(sized@.subrange(0, n as int) =~= sized@);
        match size_slots_of(globals@, sized@) {
            Ok(rest) => {
                assert(slots@ + rest =~= rest);
            },
            Err(e) => {},
        }
    }
    while i < n
        invariant
            i <= n,
            n == globals@.len(),
            n == sized@.len(),
            size_slots_of(globals@, sized@) == match size_slots_of(globals@.subrange(i as int, n as int), sized@.subrange(i as int, n as int)) {
                Ok(rest) => Ok(slots@ + rest),
                Err(e) => Err::<Seq<u32>, SizeRefusal>(e),
            },
        decreases n - i,
    {
        let ghost g = globals@.subrange(i as int, n as int);
        let ghost z = sized@.subrange(i as int, n as int);
        proof {
            assert(g[0] == globals@[i as int]);
            assert(z[0] == sized@[i as int]);
            assert(g.drop_first() =~= globals@.subrange(i + 1, n as int));
            assert(z.drop_first() =~= sized@.subrange(i + 1, n as int));
        }
        if sized[i] {
            match globals[i].binding {
                None => return Err(SizeRefusal::Unbound),
                Some((group, binding)) => {
                    if group != 0 {
                        return Err(SizeRefusal::Group(group));
                    }
                    let ghost before = slots@;
                    slots.push(binding);
                    proof {
                        match size_slots_of(globals@.subrange(i + 1, n as int), sized@.subrange(i + 1, n as int)) {
                            Ok(rest) => {
                                assert(before + (seq![binding] + rest) =~= slots@ + rest);
                            },
                            Err(e) => {},
                        }
                    }
                },
            }
        }
        i += 1;
    }
    proof {
        assert(globals@.subrange(n as int, n as int) =~= Seq::<GlobalFacts>::empty());
        assert(slots@ + Seq::<u32>::empty() =~= slots@);
    }
    Ok(slots)
}

/// The entry name naga reports for the entry at `index`.
fn entry_name(names: Vec<Option<String>>, index: usize) -> (r: Result<String, String>)
    ensures
        r is Ok <==> index < names@.len() && names@[index as int] is Some,
        r matches Ok(name) ==> names@[index as int] == Some(name),
{
    if index < names.len() {
        let mut names = names;
        match names.swap_remove(index) {
            Some(name) => Ok(name),
            None => Err("the entry failed its translation".to_owned()),
        }
    } else {
        Err("the entry has no name in the translation".to_owned())
    }
}

impl ComputeProgram {
    /// The program in the native language of `backend`: its SPIR-V for
    /// Vulkan, HLSL for Direct3D 12, and MSL with the bindings of its
    /// runtime-sized buffers for Metal.
    pub fn translate(&self, backend: crate::program::Backend) -> (r: Result<ShaderTranslation, String>)
        requires
            self.wf(),
        ensures
            backend == crate::program::Backend::Vulkan ==> (r matches Ok(ShaderTranslation::Spirv(words)) && words@ == self.spirv_view()),
            backend == crate::program::Backend::Dx12 ==> match reported(
                hlsl_for(self.module_view(), self.info_view(), self.bindings_view(), self.entry_view()),
                self.index_view(),
            ) {
                Some((text, name)) => r matches Ok(ShaderTranslation::Hlsl { source, entry }) && source@ == text && entry == name,
                None => r is Err,
            },
            backend == crate::program::Backend::Metal ==> match (
                size_slots_of(module_globals(self.module_view()), module_sized(self.module_view())),
                reported(
                    msl_for(self.module_view(), self.info_view(), self.bindings_view(), self.entry_view()),
                    self.index_view(),
                ),
            ) {
                (Ok(sizes), Some((text, name))) => r matches Ok(ShaderTranslation::Msl { source, entry, size_bindings })
                    && source@ == text && entry == name && size_bindings@ == sizes,
                _ => r is Err,
            },
    {
        match backend {
            crate::program::Backend::Vulkan => {
                let mut words: Vec<u32> = Vec::new();
                let mut i: usize = 0;
                while i < self.spirv.len()
                    invariant
                        i <= self.spirv@.len(),
                        words@ == self.spirv@.subrange(0, i as int),
                    decreases self.spirv@.len() - i,
                {
                    words.push(self.spirv[i]);
                    proof {
                        assert(words@ =~= self.spirv@.subrange(0, i + 1));
                    }
                    i += 1;
                }
                proof {
                    assert(words@ =~= self.spirv@);
                }
                Ok(ShaderTranslation::Spirv(words))
            },
            crate::program::Backend::Dx12 => {
                let options = writer_options(self.bindings.as_slice());
                let (source, names) = write_hlsl(&self.module, &self.info, &options, self.entry.as_str())?;
                let entry = entry_name(names, self.index)?;
                Ok(ShaderTranslation::Hlsl { source, entry })
            },
            crate::program::Backend::Metal => {
                let globals = global_facts(&self.module);
                let sized = runtime_sized(&self.module);
                let size_bindings = match size_slots(globals.as_slice(), sized.as_slice()) {
                    Ok(slots) => slots,
                    Err(SizeRefusal::Unbound) => return Err("a runtime-sized buffer is unbound".to_owned()),
                    Err(SizeRefusal::Group(_)) => return Err("a runtime-sized buffer lies outside group zero".to_owned()),
                };
                let options = writer_options(self.bindings.as_slice());
                let (source, names) = write_msl(&self.module, &self.info, &options, self.entry.as_str())?;
                let entry = entry_name(names, self.index)?;
                Ok(ShaderTranslation::Msl { source, entry, size_bindings })
            },
        }
    }
}

} // verus!
