use neura::capability::Limits;
use neura::context::{open_device, GpuRequest, GpuUnavailable};
use neura::compute::{writer_options, ComputeProgram, HlslModel, SlotTarget};
use neura::library::PipelineLibrary;
use neura::profile::{medium, narrow, wide};
use neura::program::{BindingSpec, METAL_SIZE_BUFFER_SLOT};
use neura::readback::Readback;

const DOUBLING: &str = "
@group(0) @binding(0) var<storage, read> input: array<u32>;
@group(0) @binding(1) var<storage, read_write> output: array<u32>;

@compute @workgroup_size(64)
fn main(@builtin(global_invocation_id) id: vec3<u32>) {
    output[id.x] = input[id.x] * 2u;
}
";

const TRIPLING: &str = "
@group(0) @binding(0) var<storage, read> input: array<u32>;
@group(0) @binding(1) var<storage, read_write> output: array<u32>;

@compute @workgroup_size(64)
fn main(@builtin(global_invocation_id) id: vec3<u32>) {
    output[id.x] = input[id.x] * 3u;
}
";

fn program(source: &str) -> ComputeProgram {
    let module = naga::front::wgsl::parse_str(source).expect("the kernel parses");
    let specs = vec![BindingSpec::storage(0), BindingSpec::writable_storage(1)];
    ComputeProgram::new("kernel", module, "main", &specs).expect("the kernel compiles")
}

#[test]
fn a_readback_claims_its_slots_from_the_first() {
    let mut readback = Readback::new(64, 3);
    assert_eq!(readback.slots(), 3);
    assert_eq!(readback.capacity(), 64);
    assert_eq!(readback.claim(), Some(0));
    assert_eq!(readback.claim(), Some(1));
    assert_eq!(readback.claim(), Some(2));
    assert_eq!(readback.claim(), None);
    readback.finish(1, 16);
    assert_eq!(readback.claim(), Some(1));
    assert_eq!(readback.claim(), None);
}

#[test]
fn a_readback_maps_whole_words_within_its_capacity() {
    let readback = Readback::new(64, 1);
    assert!(readback.readable(4));
    assert!(readback.readable(64));
    assert!(!readback.readable(0));
    assert!(!readback.readable(6));
    assert!(!readback.readable(68));
}

#[test]
fn a_pipeline_is_built_once_for_each_program() {
    let mut library = PipelineLibrary::new();
    assert_eq!(library.declared(), 0);
    let first = library.declare(&program(DOUBLING));
    let again = library.declare(&program(DOUBLING));
    let other = library.declare(&program(TRIPLING));
    assert_eq!(first, 0);
    assert_eq!(again, 0);
    assert_eq!(other, 1);
    assert_eq!(library.declared(), 2);
}

#[test]
fn writer_options_place_each_binding_at_its_slot() {
    let specs = vec![BindingSpec::storage(0), BindingSpec::writable_storage(1)];
    let options = writer_options(&specs);
    assert_eq!(
        options.targets,
        vec![
            SlotTarget { group: 0, binding: 0, set: 0, slot: 0, buffer: 0, writable: false },
            SlotTarget { group: 0, binding: 1, set: 0, slot: 1, buffer: 1, writable: true },
        ]
    );
    assert!(!options.fake_missing_bindings);
    assert_eq!(options.hlsl_model, HlslModel::V6_0);
    assert_eq!(options.msl_version, (2, 3));
    assert_eq!(options.sizes_buffer, Some(METAL_SIZE_BUFFER_SLOT));
}

#[test]
fn the_profiles_claim_their_shared_bytes() {
    let n = narrow();
    let m = medium();
    let w = wide();
    assert_eq!(n.workgroup(), 64);
    assert_eq!(n.shared_bytes(), 8708);
    assert_eq!(m.workgroup(), 128);
    assert_eq!(m.shared_bytes(), 9220);
    assert_eq!(w.workgroup(), 256);
    assert_eq!(w.shared_bytes(), 18436);
    assert_eq!(w.ladder().len(), 3);
    assert!(n.fits(64, 8708));
    assert!(!n.fits(64, 8707));
    assert!(!w.fits(256, 16384));
}

fn adapter() -> neura::capability::AdapterInfo {
    neura::capability::AdapterInfo {
        name: "test adapter".to_owned(),
        backend: neura::capability::Backend::Vulkan,
        device_type: neura::capability::DeviceType::Discrete,
        id: neura::capability::AdapterId::Numeric { vendor: 1, device: 2 },
    }
}

#[test]
fn opening_a_device_passes_refusals_on_and_settles_limits() {
    let request = GpuRequest::default();
    let refusal = GpuUnavailable::NoAdapter { reason: "none".to_owned() };
    assert_eq!(open_device(&request, Err(refusal.clone())), Err(refusal));
    let mut generous = Limits::baseline();
    generous.max_buffer_size = 1 << 30;
    generous.min_storage_buffer_offset_alignment = 256;
    assert_eq!(open_device(&request, Ok((adapter(), generous))), Ok((adapter(), generous)));
    let minimum = GpuRequest::default().minimum_limits();
    let mut settled = Limits::baseline();
    settled.min_storage_buffer_offset_alignment = 256;
    assert_eq!(open_device(&minimum, Ok((adapter(), generous))), Ok((adapter(), settled)));
    let mut poor = Limits::baseline();
    poor.max_buffer_size = 1024;
    assert_eq!(
        open_device(&request, Ok((adapter(), poor))),
        Err(GpuUnavailable::UnsupportedLimits { info: adapter(), limits: poor })
    );
}
