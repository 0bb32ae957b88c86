use neura::kind::Kind;
use neura::record::{
    bounds, placement, segment, step, task, value, BoundsFields, BoundsRecord, PlacementFields,
    PlacementRecord, RecordLayout, SegmentFields, SegmentRecord, StepFields, StepRecord, TaskFields,
    TaskRecord, ValueFields, ValueRecord,
};
use neura::store::Store;
use std::mem::{align_of, size_of};

fn offset(layout: &RecordLayout, name: &str) -> u32 {
    layout
        .fields
        .iter()
        .find(|field| field.name == name)
        .map(|field| field.offset)
        .unwrap_or_else(|| panic!("{} declares no field {name}", layout.name))
}

fn word(bytes: &[u8], at: usize) -> u32 {
    u32::from_ne_bytes(bytes[at..at + 4].try_into().unwrap())
}

#[test]
fn records_follow_the_shader_layout() {
    assert_eq!(size_of::<ValueRecord>(), 48);
    assert_eq!(value().size, 48);
    assert_eq!(offset(&value(), "base"), 0);
    assert_eq!(offset(&value(), "store"), 4);
    assert_eq!(offset(&value(), "dims"), 16);
    assert_eq!(offset(&value(), "strides"), 32);
    assert_eq!(size_of::<TaskRecord>(), 72);
    assert_eq!(task().size, 72);
    assert_eq!(offset(&task(), "op"), 4);
    assert_eq!(offset(&task(), "geometry"), 8);
    assert_eq!(offset(&task(), "count"), 16);
    assert_eq!(offset(&task(), "splits"), 24);
    assert_eq!(offset(&task(), "a"), 32);
    assert_eq!(offset(&task(), "param"), 44);
    assert_eq!(offset(&task(), "chain"), 48);
    assert_eq!(offset(&task(), "steps"), 52);
    assert_eq!(offset(&task(), "stride_rows"), 56);
    assert_eq!(offset(&task(), "stride_columns"), 60);
    assert_eq!(offset(&task(), "pad_rows"), 64);
    assert_eq!(offset(&task(), "pad_columns"), 68);
    assert_eq!(size_of::<StepRecord>(), 12);
    assert_eq!(step().size, 12);
    assert_eq!(offset(&step(), "op"), 0);
    assert_eq!(offset(&step(), "operand"), 4);
    assert_eq!(offset(&step(), "swapped"), 8);
    assert_eq!(size_of::<BoundsRecord>(), 4);
    assert_eq!(bounds().size, 4);
    assert_eq!(offset(&bounds(), "first_segment"), 0);
    assert_eq!(size_of::<SegmentRecord>(), 8);
    assert_eq!(segment().size, 8);
    assert_eq!(offset(&segment(), "first"), 0);
    assert_eq!(offset(&segment(), "count"), 4);
    assert_eq!(align_of::<ValueRecord>(), 4);
    assert_eq!(align_of::<TaskRecord>(), 4);
    assert_eq!(align_of::<StepRecord>(), 4);
    assert_eq!(size_of::<PlacementRecord>(), 8);
    assert_eq!(placement().size, 8);
    assert_eq!(offset(&placement(), "tensors"), 0);
    assert_eq!(offset(&placement(), "weights"), 4);
}

#[test]
fn every_task_kind_is_declared_once() {
    let all = Kind::all();
    assert_eq!(Kind::COUNT as usize, all.len());
    for (code, kind) in all.iter().enumerate() {
        assert_eq!(kind.code(), code as u32, "the {} kind leaves a hole", kind.name());
        assert_eq!(Kind::of(kind.code()), *kind);
        assert!(!kind.name().is_empty());
    }
    let mut names = all.iter().map(|kind| kind.name()).collect::<Vec<_>>();
    names.sort_unstable();
    names.dedup();
    assert_eq!(names.len(), all.len(), "two kinds share a name");
    assert_eq!(Kind::Matmul.name(), "matmul");
    assert_eq!(Kind::LogSoftmax.name(), "log_softmax");
    assert_eq!(Kind::Conv2d.name(), "conv2d");
}

#[test]
fn a_record_declares_what_the_device_reads() {
    let record = ValueRecord::of(ValueFields {
        base: 6,
        store: Store::Weights.code(),
        element: 0,
        dims: [1, 2, 3, 4],
        strides: [12, 6, 2, 1],
    });
    let bytes = record.bytes();
    assert_eq!(bytes.len(), 48);
    assert_eq!(word(&bytes, 0), 6);
    assert_eq!(word(&bytes, 4), Store::Weights.code());
    assert_eq!(word(&bytes, 16), 1);
    assert_eq!(word(&bytes, 20), 2);
    let record = TaskRecord::of(TaskFields {
        kind: Kind::Matmul.code(),
        op: 2,
        geometry: 2,
        first: 3,
        count: 5,
        slot: 0,
        splits: 6,
        out: 1,
        a: 2,
        b: 3,
        c: 4,
        param: 0.5f32.to_bits(),
        chain: 7,
        steps: 2,
        stride_rows: 1,
        stride_columns: 2,
        pad_rows: 3,
        pad_columns: 4,
    });
    let bytes = record.bytes();
    assert_eq!(bytes.len(), 72);
    assert_eq!(word(&bytes, 0), Kind::Matmul.code());
    assert_eq!(word(&bytes, 4), 2);
    assert_eq!(word(&bytes, 8), 2);
    assert_eq!(word(&bytes, 16), 5);
    assert_eq!(word(&bytes, 24), 6);
    assert_eq!(f32::from_ne_bytes(bytes[44..48].try_into().unwrap()), 0.5);
    assert_eq!(word(&bytes, 48), 7);
    assert_eq!(word(&bytes, 52), 2);
    assert_eq!(word(&bytes, 56), 1);
    assert_eq!(word(&bytes, 60), 2);
    assert_eq!(word(&bytes, 64), 3);
    assert_eq!(word(&bytes, 68), 4);
}

#[test]
fn a_step_declares_what_the_device_applies() {
    let record = StepRecord::of(StepFields { op: 6, operand: 9, swapped: 1 });
    let bytes = record.bytes();
    assert_eq!(bytes.len(), 12);
    assert_eq!(word(&bytes, 0), 6);
    assert_eq!(word(&bytes, 4), 9);
    assert_eq!(word(&bytes, 8), 1);
}

#[test]
fn every_value_lives_in_one_declared_store() {
    for (code, store) in Store::all().iter().enumerate() {
        assert_eq!(store.code(), code as u32, "the {store:?} store leaves a hole");
    }
    assert_eq!(Store::Tensors.code(), 0);
    assert_eq!(Store::Weights.code(), 1);
}

#[test]
fn a_zeroed_record_holds_no_number_the_shader_could_read() {
    let records: [Vec<u8>; 6] = [
        BoundsRecord::of(BoundsFields::default()).bytes(),
        PlacementRecord::of(PlacementFields::default()).bytes(),
        SegmentRecord::of(SegmentFields::default()).bytes(),
        StepRecord::of(StepFields::default()).bytes(),
        TaskRecord::of(TaskFields::default()).bytes(),
        ValueRecord::of(ValueFields::default()).bytes(),
    ];
    for bytes in records {
        assert!(
            bytes.iter().all(|byte| *byte == 0),
            "a zeroed record carries {bytes:?} where the shader reads every byte of it",
        );
    }
}

#[test]
fn a_word_lays_its_bytes_least_significant_first() {
    assert_eq!(neura::record::encode(&[0x0403_0201, 0x0807_0605]), vec![1, 2, 3, 4, 5, 6, 7, 8]);
}
