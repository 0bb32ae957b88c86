use neura::compute::{find_entry, reflect_globals, size_slots, sort_by_slot, ComputeProgram, EntryFacts, GlobalFacts, ProgramRefusal, ReflectRefusal, SizeRefusal};
use neura::program::{Backend, BindingKind, BindingSpec, ReflectionRefusal, ShaderBinding, ShaderTranslation};
use neura::workgroup::MAGIC;

const DOUBLING: &str = "
@group(0) @binding(0) var<storage, read> input: array<u32>;
@group(0) @binding(1) var<storage, read_write> output: array<u32>;

@compute @workgroup_size(64)
fn main(@builtin(global_invocation_id) id: vec3<u32>) {
    output[id.x] = input[id.x] * 2u;
}
";

fn module() -> naga::Module {
    naga::front::wgsl::parse_str(DOUBLING).expect("the doubling kernel parses")
}

fn specs() -> Vec<BindingSpec> {
    vec![BindingSpec::storage(0), BindingSpec::writable_storage(1)]
}

#[test]
fn a_kernel_compiles_for_every_native_backend() {
    let program = ComputeProgram::new("doubling", module(), "main", &specs()).expect("the kernel compiles");
    assert_eq!(program.label(), "doubling");
    assert_eq!(program.entry(), "main");
    assert_eq!(program.workgroup_size(), 64);
    assert_eq!(program.bindings(), specs().as_slice());
    assert_eq!(program.reflected().len(), 2);
    assert_eq!(program.reflected()[0].name, "input");
    assert_eq!(program.reflected()[1].kind, BindingKind::ReadWriteStorage);
    assert_eq!(program.spirv()[0], MAGIC);
    match program.translate(Backend::Vulkan) {
        Ok(ShaderTranslation::Spirv(words)) => assert_eq!(words, program.spirv()),
        other => panic!("Vulkan needs SPIR-V, not {other:?}"),
    }
    match program.translate(Backend::Dx12) {
        Ok(ShaderTranslation::Hlsl { source, .. }) => assert!(source.contains("register(u1)")),
        other => panic!("D3D12 needs HLSL, not {other:?}"),
    }
    match program.translate(Backend::Metal) {
        Ok(ShaderTranslation::Msl { source, size_bindings, .. }) => {
            assert!(source.contains("[[buffer(1)]]"));
            assert_eq!(size_bindings, vec![0, 1]);
        }
        other => panic!("Metal needs MSL, not {other:?}"),
    }
}

#[test]
fn a_kernel_is_refused_where_its_bindings_do_not_match() {
    let refused = |bindings: &[BindingSpec], entry: &str| {
        ComputeProgram::new("doubling", module(), entry, bindings).err().expect("the kernel is refused")
    };
    assert_eq!(refused(&[], "main"), ProgramRefusal::Bindings);
    assert_eq!(refused(&[BindingSpec::storage(1)], "main"), ProgramRefusal::Bindings);
    assert_eq!(refused(&specs(), "absent"), ProgramRefusal::NoEntry);
    assert_eq!(refused(&[BindingSpec::storage(0)], "main"), ProgramRefusal::Reflection(ReflectionRefusal::Count));
    assert_eq!(
        refused(&[BindingSpec::storage(0), BindingSpec::storage(1)], "main"),
        ProgramRefusal::Reflection(ReflectionRefusal::Access(1))
    );
}

fn binding(group: u32, slot: u32, name: &str) -> ShaderBinding {
    ShaderBinding { group, binding: slot, name: name.to_owned(), kind: BindingKind::ReadOnlyStorage }
}

#[test]
fn reflected_resources_stand_in_slot_order() {
    let sorted = sort_by_slot(vec![binding(1, 0, "c"), binding(0, 2, "b"), binding(0, 1, "a"), binding(0, 2, "d")]);
    let names = sorted.iter().map(|b| b.name.as_str()).collect::<Vec<_>>();
    assert_eq!(names, vec!["a", "b", "d", "c"]);
    let global = |slot: Option<(u32, u32)>, name: Option<&str>, storage: bool| GlobalFacts {
        binding: slot,
        name: name.map(str::to_owned),
        storage,
        writable: false,
    };
    let reflected = reflect_globals(&[global(Some((0, 1)), Some("b"), true), global(None, None, false), global(Some((0, 0)), Some("a"), true)]);
    assert_eq!(reflected, Ok(vec![binding(0, 0, "a"), binding(0, 1, "b")]));
    assert_eq!(reflect_globals(&[global(Some((0, 3)), Some("x"), false)]), Err(ReflectRefusal::NotStorage(3)));
    assert_eq!(reflect_globals(&[global(Some((0, 4)), None, true)]), Err(ReflectRefusal::Unnamed(4)));
    assert_eq!(size_slots(&[global(Some((0, 2)), None, true), global(Some((0, 5)), None, true)], &[false, true]), Ok(vec![5]));
    assert_eq!(size_slots(&[global(None, None, true)], &[true]), Err(SizeRefusal::Unbound));
    assert_eq!(size_slots(&[global(Some((2, 0)), None, true)], &[true]), Err(SizeRefusal::Group(2)));
}

#[test]
fn the_first_compute_entry_of_a_name_is_found() {
    let entry = |name: &str, compute: bool| EntryFacts { name: name.to_owned(), compute, workgroup: 1 };
    let entries = [entry("main", false), entry("other", true), entry("main", true), entry("main", true)];
    assert_eq!(find_entry(&entries, "main"), Some(2));
    assert_eq!(find_entry(&entries, "absent"), None);
}
