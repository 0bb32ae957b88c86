//! What a compute program binds, and how its bindings are checked against the
//! resources its device module declares.
use crate::text::decimal;
use crate::text::push_decimal;
use vstd::prelude::*;

verus! {

/// The Metal buffer slot that carries the sizes of runtime-sized buffers.
pub const METAL_SIZE_BUFFER_SLOT: u8 = 30;

/// The native shading language a program is translated for.
#[derive(Clone, Copy, Debug, PartialEq, Eq, Hash, Structural)]
pub enum Backend {
    Vulkan,
    Metal,
    Dx12,
}

/// How a program accesses a storage buffer.
#[derive(Clone, Copy, Debug, PartialEq, Eq, Hash, Structural)]
pub enum BindingKind {
    ReadOnlyStorage,
    ReadWriteStorage,
}

/// A storage buffer a program binds: its slot, its access, and whether its
/// offset moves with each dispatch.
#[derive(Clone, Copy, Debug, PartialEq, Eq, Hash, Structural)]
pub struct BindingSpec {
    pub binding: u32,
    pub kind: BindingKind,
    pub dynamic_offset: bool,
}

impl BindingSpec {
    /// A read-only storage buffer at `binding`.
    pub fn storage(binding: u32) -> (r: BindingSpec)
        ensures
            r == (BindingSpec { binding, kind: BindingKind::ReadOnlyStorage, dynamic_offset: false }),
    {
        BindingSpec { binding, kind: BindingKind::ReadOnlyStorage, dynamic_offset: false }
    }

    /// A read-write storage buffer at `binding`.
    pub fn writable_storage(binding: u32) -> (r: BindingSpec)
        ensures
            r == (BindingSpec { binding, kind: BindingKind::ReadWriteStorage, dynamic_offset: false }),
    {
        BindingSpec { binding, kind: BindingKind::ReadWriteStorage, dynamic_offset: false }
    }

    /// A read-only storage buffer at `binding` whose offset moves with each dispatch.
    pub fn dynamic_storage(binding: u32) -> (r: BindingSpec)
        ensures
            r == (BindingSpec { binding, kind: BindingKind::ReadOnlyStorage, dynamic_offset: true }),
    {
        BindingSpec { binding, kind: BindingKind::ReadOnlyStorage, dynamic_offset: true }
    }
}

/// A storage resource a device module declares.
#[derive(Clone, Debug, PartialEq, Eq)]
pub struct ShaderBinding {
    pub group: u32,
    pub binding: u32,
    pub name: String,
    pub kind: BindingKind,
}

/// A program translated for one native backend.
#[derive(Clone, Debug, PartialEq, Eq)]
pub enum ShaderTranslation {
    Spirv(Vec<u32>),
    Hlsl { source: String, entry: String },
    Msl { source: String, entry: String, size_bindings: Vec<u32> },
}

/// How a description spells an access.
pub open spec fn kind_text(kind: BindingKind) -> Seq<char> {
    match kind {
        BindingKind::ReadOnlyStorage => "ReadOnlyStorage"@,
        BindingKind::ReadWriteStorage => "ReadWriteStorage"@,
    }
}

/// The line that describes one binding.
pub open spec fn binding_line(b: ShaderBinding) -> Seq<char> {
    "group "@ + decimal(b.group as nat) + " binding "@ + decimal(b.binding as nat) + " "@ + b.name@
        + " "@ + kind_text(b.kind) + "\n"@
}

/// The description of the first `n` bindings, a line each.
pub open spec fn bindings_text(bindings: Seq<ShaderBinding>, n: nat) -> Seq<char>
    decreases n,
{
    if n == 0 {
        Seq::empty()
    } else {
        bindings_text(bindings, (n - 1) as nat) + binding_line(bindings[n - 1])
    }
}

fn push_binding_line(out: &mut String, b: &ShaderBinding)
    ensures
        final(out)@ == old(out)@ + binding_line(*b),
{
    proof {
        reveal_strlit("group ");
        reveal_strlit(" binding ");
        reveal_strlit(" ");
        reveal_strlit("\n");
        reveal_strlit("ReadOnlyStorage");
        reveal_strlit("ReadWriteStorage");
    }
    out.append("group ");
    push_decimal(out, b.group as u64);
    out.append(" binding ");
    push_decimal(out, b.binding as u64);
    out.append(" ");
    out.append(b.name.as_str());
    out.append(" ");
    match b.kind {
        BindingKind::ReadOnlyStorage => out.append("ReadOnlyStorage"),
        BindingKind::ReadWriteStorage => out.append("ReadWriteStorage"),
    }
    out.append("\n");
    proof {
        assert(out@ =~= old(out)@ + binding_line(*b));
    }
}

/// A description of storage resources, one line per resource.
pub fn describe(bindings: &[ShaderBinding]) -> (r: String)
    ensures
        r@ == bindings_text(bindings@, bindings@.len()),
{
    let mut out = String::new();
    let mut i: usize = 0;
    while i < bindings.len()
        invariant
            i <= bindings@.len(),
            out@ == bindings_text(bindings@, i as nat),
        decreases bindings@.len() - i,
    {
        push_binding_line(&mut out, &bindings[i]);
        i += 1;
    }
    out
}

/// The bindings a program declares: between one and thirty storage buffers,
/// each in the slot of its position.
pub open spec fn bindings_dense(specs: Seq<BindingSpec>) -> bool {
    &&& 0 < specs.len() <= 30
    &&& forall|i: int| 0 <= i < specs.len() ==> (#[trigger] specs[i]).binding == i
}

/// Whether a program may declare `specs`.
pub fn admit_bindings(specs: &[BindingSpec]) -> (r: bool)
    ensures
        r == bindings_dense(specs@),
{
    if specs.len() == 0 || specs.len() > 30 {
        return false;
    }
    let mut i: usize = 0;
    while i < specs.len()
        invariant
            i <= specs@.len(),
            specs@.len() <= 30,
            forall|j: int| 0 <= j < i ==> (#[trigger] specs@[j]).binding == j,
        decreases specs@.len() - i,
    {
        if specs[i].binding as usize != i {
            return false;
        }
        i += 1;
    }
    true
}

/// Why the resources a module declares do not match a program's bindings.
#[derive(Clone, Copy, Debug, PartialEq, Eq, Structural)]
pub enum ReflectionRefusal {
    Count,
    Group(usize),
    Missing(usize),
    Access(usize),
}

/// A declared resource is the binding it stands beside: in group zero, at its
/// slot, with its access.
pub open spec fn resource_matches(declared: ShaderBinding, spec: BindingSpec) -> bool {
    declared.group == 0 && declared.binding == spec.binding && declared.kind == spec.kind
}

/// Whether the resources a module declares, in slot order, are exactly a
/// program's bindings, or the first that is not and why.
pub fn check_reflection(declared: &[ShaderBinding], specs: &[BindingSpec]) -> (r: Result<(), ReflectionRefusal>)
    ensures
        declared@.len() != specs@.len() <==> r == Err::<(), ReflectionRefusal>(ReflectionRefusal::Count),
        r matches Err(ReflectionRefusal::Group(i)) ==> i < declared@.len() && declared@[i as int].group != 0
            && forall|j: int| 0 <= j < i ==> resource_matches(declared@[j], specs@[j]),
        r matches Err(ReflectionRefusal::Missing(i)) ==> i < declared@.len() && declared@[i as int].group == 0
            && declared@[i as int].binding != specs@[i as int].binding
            && forall|j: int| 0 <= j < i ==> resource_matches(declared@[j], specs@[j]),
        r matches Err(ReflectionRefusal::Access(i)) ==> i < declared@.len() && declared@[i as int].group == 0
            && declared@[i as int].binding == specs@[i as int].binding && declared@[i as int].kind != specs@[i as int].kind
            && forall|j: int| 0 <= j < i ==> resource_matches(declared@[j], specs@[j]),
        r is Ok <==> (declared@.len() == specs@.len() && forall|j: int| 0 <= j < declared@.len() ==> resource_matches(declared@[j], specs@[j])),
{
    if declared.len() != specs.len() {
        return Err(ReflectionRefusal::Count);
    }
    let mut i: usize = 0;
    while i < declared.len()
        invariant
            i <= declared@.len(),
            declared@.len() == specs@.len(),
            forall|j: int| 0 <= j < i ==> resource_matches(declared@[j], specs@[j]),
        decreases declared@.len() - i,
    {
        let resource = &declared[i];
        let spec = specs[i];
        if resource.group != 0 {
            return Err(ReflectionRefusal::Group(i));
        }
        if resource.binding != spec.binding {
            return Err(ReflectionRefusal::Missing(i));
        }
        if resource.kind != spec.kind {
            return Err(ReflectionRefusal::Access(i));
        }
        i += 1;
    }
    Ok(())
}

} // verus!
