use neura::capability::{BufferUsages, Limits};
use neura::element::Element;
use neura::refusal::Refusal;
use neura::shape::Shape;
use neura::transfer::{admit_buffer, BufferRefusal, SlotPool};
use neura::workgroup::{isolate, try_isolate, MAGIC};

#[test]
fn a_refusal_word_reads_back_what_it_packs() {
    for refusal in Refusal::all() {
        let word = refusal.word(513, 41);
        assert_eq!(Refusal::read(word), (513, refusal, 41));
    }
    assert_eq!(Refusal::Geometry.word(2, 0), (2 << 16) | (3 << 13) | 1);
}

#[test]
fn an_element_reads_back_from_its_code() {
    for element in Element::all() {
        assert_eq!(Element::of(element.code()), element);
    }
    assert_eq!(Element::Half.words(3), 2);
    assert_eq!(Element::Single.words(3), 3);
    assert_eq!(Element::Half.promote(Element::Single), Element::Single);
}

#[test]
fn a_shape_pads_its_axes_and_counts_its_numbers() {
    let shape = Shape::of(&[3, 5]);
    assert_eq!(shape.dims(), [1, 1, 3, 5]);
    assert_eq!(shape.elements(), 15);
    assert_eq!(shape.strides(), [0, 0, 5, 1]);
    assert!(Shape::try_of(&[]).is_none());
    assert!(Shape::try_of(&[1, 2, 3, 4, 5]).is_none());
    assert!(Shape::try_of(&[4, 0]).is_none());
    assert!(Shape::try_of(&[65536, 65536]).is_none());
    assert_eq!(Shape::try_of(&[2, 3]), Some(Shape::matrix(2, 3)));
    assert_eq!(Shape::of(&[1, 4]).combined(Shape::of(&[3, 1])), Shape::matrix(3, 4));
    assert_eq!(Shape::matrix(3, 4).reduced(2), Shape::of(&[1, 4]));
}

#[test]
fn a_buffer_is_admitted_only_with_bytes_and_a_purpose() {
    let limits = Limits::baseline();
    assert_eq!(admit_buffer(0, BufferUsages::storage(), &limits), Err(BufferRefusal::Empty));
    assert_eq!(
        admit_buffer(limits.max_buffer_size + 1, BufferUsages::storage(), &limits),
        Err(BufferRefusal::TooLarge)
    );
    assert_eq!(admit_buffer(16, BufferUsages::empty(), &limits), Err(BufferRefusal::NoPurpose));
    assert_eq!(
        admit_buffer(16, BufferUsages::map_read().union(BufferUsages::storage()), &limits),
        Err(BufferRefusal::ReadbackMisused)
    );
    assert_eq!(admit_buffer(16, BufferUsages::map_read().union(BufferUsages::copy_dst()), &limits), Ok(()));
}

#[test]
fn a_released_slot_is_claimed_next() {
    let mut pool = SlotPool::new(2);
    assert_eq!(pool.claim(), Some(0));
    assert_eq!(pool.claim(), Some(1));
    assert_eq!(pool.claim(), None);
    pool.release(1);
    assert_eq!(pool.free(), 1);
    assert_eq!(pool.claim(), Some(1));
}

fn module(extra: &[u32]) -> Vec<u32> {
    let mut words = vec![MAGIC, 0x0001_0000, 0, 40, 0];
    words.extend_from_slice(&[(3 << 16) | 30, 10, 11]);
    words.extend_from_slice(&[(4 << 16) | 28, 11, 12, 13]);
    words.extend_from_slice(&[(4 << 16) | 32, 20, 4, 10]);
    words.extend_from_slice(&[(4 << 16) | 71, 11, 6, 4]);
    words.extend_from_slice(&[(5 << 16) | 72, 10, 0, 35, 0]);
    words.extend_from_slice(&[(3 << 16) | 71, 30, 2]);
    words.extend_from_slice(extra);
    words
}

#[test]
fn a_workgroup_type_loses_its_explicit_layout() {
    let words = module(&[]);
    let isolated = isolate(words.clone());
    let mut expected = words[..5].to_vec();
    expected.extend_from_slice(&[(3 << 16) | 30, 10, 11]);
    expected.extend_from_slice(&[(4 << 16) | 28, 11, 12, 13]);
    expected.extend_from_slice(&[(4 << 16) | 32, 20, 4, 10]);
    expected.extend_from_slice(&[(3 << 16) | 71, 30, 2]);
    assert_eq!(isolated, expected);
}

#[test]
fn a_decorated_type_shared_with_other_storage_is_refused() {
    assert!(try_isolate(&module(&[(4 << 16) | 32, 21, 12, 10])).is_none());
    assert!(try_isolate(&module(&[(4 << 16) | 32, 21, 12, 30])).is_some());
}

#[test]
fn a_malformed_module_is_refused() {
    assert!(try_isolate(&[MAGIC, 0, 0, 0]).is_none());
    assert!(try_isolate(&[0, 0, 0, 0, 0]).is_none());
    assert!(try_isolate(&[MAGIC, 0, 0, 0, 0, 0]).is_none(), "an empty instruction");
    assert!(try_isolate(&[MAGIC, 0, 0, 0, 0, (4 << 16) | 30, 1]).is_none(), "an instruction past the end");
    assert!(try_isolate(&[MAGIC, 0, 0, 0, 0, (3 << 16) | 32, 1, 4]).is_none(), "a pointer without its pointee");
    assert!(
        try_isolate(&[MAGIC, 0, 0, 0, 0, (2 << 16) | 28, 7, (4 << 16) | 32, 1, 4, 7]).is_none(),
        "an array without its element"
    );
    assert_eq!(try_isolate(&[MAGIC, 0, 0, 0, 0]), Some(vec![MAGIC, 0, 0, 0, 0]));
}
