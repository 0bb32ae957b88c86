//! The records a device program reads, laid out word by word.
use vstd::prelude::*;

verus! {

/// The type of a record field as the device reads it.
#[derive(Clone, Copy, Debug, PartialEq, Eq, Structural)]
pub enum FieldType {
    U32,
    I32,
    F32,
    U32x4,
}

/// A field of a record: its name, its byte offset and its type.
#[derive(Clone, Copy, Debug, PartialEq, Eq)]
pub struct FieldLayout {
    pub name: &'static str,
    pub offset: u32,
    pub ty: FieldType,
}

/// A record the device reads: its name, its size in bytes and its fields.
#[derive(Clone, Debug, PartialEq, Eq)]
pub struct RecordLayout {
    pub name: &'static str,
    pub size: u32,
    pub fields: Vec<FieldLayout>,
}

/// The bytes of a word, least significant first.
pub open spec fn word_bytes(w: u32) -> Seq<u8> {
    seq![(w % 256) as u8, ((w / 256) % 256) as u8, ((w / 65536) % 256) as u8, (w / 16777216) as u8]
}

/// The bytes of words laid one after another.
pub open spec fn words_bytes(words: Seq<u32>) -> Seq<u8>
    decreases words.len(),
{
    if words.len() == 0 {
        Seq::empty()
    } else {
        words_bytes(words.drop_last()) + word_bytes(words.last())
    }
}

/// The word four bytes spell, least significant first.
pub open spec fn read_word(bytes: Seq<u8>, at: int) -> nat {
    bytes[at] as nat + 256 * bytes[at + 1] as nat + 65536 * bytes[at + 2] as nat + 16777216 * bytes[at + 3] as nat
}

/// Appends the bytes of a word, least significant first.
pub fn push_word(out: &mut Vec<u8>, w: u32)
    ensures
        final(out)@ == old(out)@ + word_bytes(w),
{
    let b0 = (w & 0xff) as u8;
    let b1 = ((w >> 8u32) & 0xff) as u8;
    let b2 = ((w >> 16u32) & 0xff) as u8;
    let b3 = (w >> 24u32) as u8;
    assert(w & 0xff == w % 256) by (bit_vector);
    assert((w >> 8u32) & 0xff == (w / 256) % 256) by (bit_vector);
    assert((w >> 16u32) & 0xff == (w / 65536) % 256) by (bit_vector);
    assert(w >> 24u32 == w / 16777216) by (bit_vector);
    out.push(b0);
    out.push(b1);
    out.push(b2);
    out.push(b3);
    proof {
        assert(out@ =~= old(out)@ + word_bytes(w));
    }
}

/// The bytes of a word read back as the word.
pub proof fn lemma_word_bytes_read_back(w: u32)
    ensures
        word_bytes(w).len() == 4,
        read_word(word_bytes(w), 0) == w,
{
    let b = word_bytes(w);
    let x = w as nat;
    assert(x == x % 256 + 256 * ((x / 256) % 256) + 65536 * ((x / 65536) % 256) + 16777216 * (x / 16777216)) by (nonlinear_arith)
        requires
            x < 0x1_0000_0000,
    ;
}

/// Words laid one after another take four bytes each, and the word at each
/// index reads back from the four bytes at four times that index.
pub proof fn lemma_words_read_back(words: Seq<u32>, i: int)
    requires
        0 <= i < words.len(),
    ensures
        words_bytes(words).len() == 4 * words.len(),
        read_word(words_bytes(words), 4 * i) == words[i],
    decreases words.len(),
{
    lemma_words_len(words.drop_last());
    let prefix = words_bytes(words.drop_last());
    if i < words.len() - 1 {
        lemma_words_read_back(words.drop_last(), i);
        assert(words_bytes(words) == prefix + word_bytes(words.last()));
        assert(words_bytes(words)[4 * i] == prefix[4 * i]);
        assert(words_bytes(words)[4 * i + 1] == prefix[4 * i + 1]);
        assert(words_bytes(words)[4 * i + 2] == prefix[4 * i + 2]);
        assert(words_bytes(words)[4 * i + 3] == prefix[4 * i + 3]);
    } else {
        lemma_word_bytes_read_back(words.last());
        let all = words_bytes(words);
        assert(all == prefix + word_bytes(words.last()));
        assert(all[4 * i] == word_bytes(words.last())[0]);
        assert(all[4 * i + 1] == word_bytes(words.last())[1]);
        assert(all[4 * i + 2] == word_bytes(words.last())[2]);
        assert(all[4 * i + 3] == word_bytes(words.last())[3]);
    }
}

proof fn lemma_words_len(words: Seq<u32>)
    ensures
        words_bytes(words).len() == 4 * words.len(),
    decreases words.len(),
{
    if words.len() > 0 {
        lemma_words_len(words.drop_last());
    }
}

/// The bytes of words laid one after another.
pub fn encode(words: &[u32]) -> (r: Vec<u8>)
    ensures
        r@ == words_bytes(words@),
{
    let mut out: Vec<u8> = Vec::new();
    let mut i: usize = 0;
    while i < words.len()
        invariant
            i <= words@.len(),
            out@ == words_bytes(words@.subrange(0, i as int)),
        decreases words@.len() - i,
    {
        push_word(&mut out, words[i]);
        proof {
            assert(words@.subrange(0, i + 1).drop_last() =~= words@.subrange(0, i as int));
        }
        i += 1;
    }
    proof {
        assert(words@.subrange(0, words@.len() as int) =~= words@);
    }
    out
}

fn field(name: &'static str, offset: u32, ty: FieldType) -> (r: FieldLayout)
    ensures
        r.name == name,
        r.offset == offset,
        r.ty == ty,
{
    FieldLayout { name, offset, ty }
}

/// A bounds record as the device reads it.
#[derive(Clone, Copy, Debug, PartialEq, Eq)]
pub struct BoundsRecord {
    pub first_segment: u32,
}

/// The fields of a bounds record.
#[derive(Clone, Copy, Debug, PartialEq, Eq, Default)]
pub struct BoundsFields {
    pub first_segment: u32,
}

/// The words of a bounds record in the order the device reads them.
pub open spec fn bounds_words(r: BoundsRecord) -> Seq<u32> {
    seq![r.first_segment]
}

impl BoundsRecord {
    pub fn of(fields: BoundsFields) -> (r: BoundsRecord)
        ensures
            r.first_segment == fields.first_segment,
    {
        BoundsRecord { first_segment: fields.first_segment }
    }

    /// The bytes the device reads.
    pub fn bytes(&self) -> (r: Vec<u8>)
        ensures
            r@ == words_bytes(bounds_words(*self)),
    {
        let words = vec![self.first_segment];
        proof {
            assert(words@ =~= bounds_words(*self));
        }
        encode(words.as_slice())
    }
}

/// The layout of a bounds record.
pub fn bounds() -> (r: RecordLayout)
    ensures
        r.name@ == "Bounds"@,
        r.size == 4,
        r.fields@.len() == 1,
        forall|i: int| 0 <= i < 1 ==> (#[trigger] r.fields@[i]).offset == 4 * i,
        r.fields@[0].name@ == "first_segment"@ && r.fields@[0].ty == FieldType::U32,
{
    let fields = vec![
        field("first_segment", 0, FieldType::U32),
    ];
    RecordLayout { name: "Bounds", size: 4, fields }
}

/// A placement record as the device reads it.
#[derive(Clone, Copy, Debug, PartialEq, Eq)]
pub struct PlacementRecord {
    pub tensors: u32,
    pub weights: u32,
}

/// The fields of a placement record.
#[derive(Clone, Copy, Debug, PartialEq, Eq, Default)]
pub struct PlacementFields {
    pub tensors: u32,
    pub weights: u32,
}

/// The words of a placement record in the order the device reads them.
pub open spec fn placement_words(r: PlacementRecord) -> Seq<u32> {
    seq![r.tensors, r.weights]
}

impl PlacementRecord {
    pub fn of(fields: PlacementFields) -> (r: PlacementRecord)
        ensures
            r.tensors == fields.tensors,
            r.weights == fields.weights,
    {
        PlacementRecord { tensors: fields.tensors, weights: fields.weights }
    }

    /// The bytes the device reads.
    pub fn bytes(&self) -> (r: Vec<u8>)
        ensures
            r@ == words_bytes(placement_words(*self)),
    {
        let words = vec![self.tensors, self.weights];
        proof {
            assert(words@ =~= placement_words(*self));
        }
        encode(words.as_slice())
    }
}

/// The layout of a placement record.
pub fn placement() -> (r: RecordLayout)
    ensures
        r.name@ == "Placement"@,
        r.size == 8,
        r.fields@.len() == 2,
        forall|i: int| 0 <= i < 2 ==> (#[trigger] r.fields@[i]).offset == 4 * i,
        r.fields@[0].name@ == "tensors"@ && r.fields@[0].ty == FieldType::U32,
        r.fields@[1].name@ == "weights"@ && r.fields@[1].ty == FieldType::U32,
{
    let fields = vec![
        field("tensors", 0, FieldType::U32),
        field("weights", 4, FieldType::U32),
    ];
    RecordLayout { name: "Placement", size: 8, fields }
}

/// A segment record as the device reads it.
#[derive(Clone, Copy, Debug, PartialEq, Eq)]
pub struct SegmentRecord {
    pub first: u32,
    pub count: u32,
}

/// The fields of a segment record.
#[derive(Clone, Copy, Debug, PartialEq, Eq, Default)]
pub struct SegmentFields {
    pub first: u32,
    pub count: u32,
}

/// The words of a segment record in the order the device reads them.
pub open spec fn segment_words(r: SegmentRecord) -> Seq<u32> {
    seq![r.first, r.count]
}

impl SegmentRecord {
    pub fn of(fields: SegmentFields) -> (r: SegmentRecord)
        ensures
            r.first == fields.first,
            r.count == fields.count,
    {
        SegmentRecord { first: fields.first, count: fields.count }
    }

    /// The bytes the device reads.
    pub fn bytes(&self) -> (r: Vec<u8>)
        ensures
            r@ == words_bytes(segment_words(*self)),
    {
        let words = vec![self.first, self.count];
        proof {
            assert(words@ =~= segment_words(*self));
        }
        encode(words.as_slice())
    }
}

/// The layout of a segment record.
pub fn segment() -> (r: RecordLayout)
    ensures
        r.name@ == "Segment"@,
        r.size == 8,
        r.fields@.len() == 2,
        forall|i: int| 0 <= i < 2 ==> (#[trigger] r.fields@[i]).offset == 4 * i,
        r.fields@[0].name@ == "first"@ && r.fields@[0].ty == FieldType::U32,
        r.fields@[1].name@ == "count"@ && r.fields@[1].ty == FieldType::U32,
{
    let fields = vec![
        field("first", 0, FieldType::U32),
        field("count", 4, FieldType::U32),
    ];
    RecordLayout { name: "Segment", size: 8, fields }
}

/// A step record as the device reads it.
#[derive(Clone, Copy, Debug, PartialEq, Eq)]
pub struct StepRecord {
    pub op: u32,
    pub operand: u32,
    pub swapped: u32,
}

/// The fields of a step record.
#[derive(Clone, Copy, Debug, PartialEq, Eq, Default)]
pub struct StepFields {
    pub op: u32,
    pub operand: u32,
    pub swapped: u32,
}

/// The words of a step record in the order the device reads them.
pub open spec fn step_words(r: StepRecord) -> Seq<u32> {
    seq![r.op, r.operand, r.swapped]
}

impl StepRecord {
    pub fn of(fields: StepFields) -> (r: StepRecord)
        ensures
            r.op == fields.op,
            r.operand == fields.operand,
            r.swapped == fields.swapped,
    {
        StepRecord { op: fields.op, operand: fields.operand, swapped: fields.swapped }
    }

    /// The bytes the device reads.
    pub fn bytes(&self) -> (r: Vec<u8>)
        ensures
            r@ == words_bytes(step_words(*self)),
    {
        let words = vec![self.op, self.operand, self.swapped];
        proof {
            assert(words@ =~= step_words(*self));
        }
        encode(words.as_slice())
    }
}

/// The layout of a step record.
pub fn step() -> (r: RecordLayout)
    ensures
        r.name@ == "Step"@,
        r.size == 12,
        r.fields@.len() == 3,
        forall|i: int| 0 <= i < 3 ==> (#[trigger] r.fields@[i]).offset == 4 * i,
        r.fields@[0].name@ == "op"@ && r.fields@[0].ty == FieldType::U32,
        r.fields@[1].name@ == "operand"@ && r.fields@[1].ty == FieldType::U32,
        r.fields@[2].name@ == "swapped"@ && r.fields@[2].ty == FieldType::U32,
{
    let fields = vec![
        field("op", 0, FieldType::U32),
        field("operand", 4, FieldType::U32),
        field("swapped", 8, FieldType::U32),
    ];
    RecordLayout { name: "Step", size: 12, fields }
}

/// A task record as the device reads it.
#[derive(Clone, Copy, Debug, PartialEq, Eq)]
pub struct TaskRecord {
    pub kind: u32,
    pub op: u32,
    pub geometry: u32,
    pub first: u32,
    pub count: u32,
    pub slot: u32,
    pub splits: u32,
    pub out: u32,
    pub a: u32,
    pub b: u32,
    pub c: u32,
    pub param: u32,
    pub chain: u32,
    pub steps: u32,
    pub stride_rows: u32,
    pub stride_columns: u32,
    pub pad_rows: u32,
    pub pad_columns: u32,
}

/// The fields of a task record.
#[derive(Clone, Copy, Debug, PartialEq, Eq, Default)]
pub struct TaskFields {
    pub kind: u32,
    pub op: u32,
    pub geometry: u32,
    pub first: u32,
    pub count: u32,
    pub slot: u32,
    pub splits: u32,
    pub out: u32,
    pub a: u32,
    pub b: u32,
    pub c: u32,
    pub param: u32,
    pub chain: u32,
    pub steps: u32,
    pub stride_rows: u32,
    pub stride_columns: u32,
    pub pad_rows: u32,
    pub pad_columns: u32,
}

/// The words of a task record in the order the device reads them.
pub open spec fn task_words(r: TaskRecord) -> Seq<u32> {
    seq![r.kind, r.op, r.geometry, r.first, r.count, r.slot, r.splits, r.out, r.a, r.b, r.c, r.param, r.chain, r.steps, r.stride_rows, r.stride_columns, r.pad_rows, r.pad_columns]
}

impl TaskRecord {
    pub fn of(fields: TaskFields) -> (r: TaskRecord)
        ensures
            r.kind == fields.kind,
            r.op == fields.op,
            r.geometry == fields.geometry,
            r.first == fields.first,
            r.count == fields.count,
            r.slot == fields.slot,
            r.splits == fields.splits,
            r.out == fields.out,
            r.a == fields.a,
            r.b == fields.b,
            r.c == fields.c,
            r.param == fields.param,
            r.chain == fields.chain,
            r.steps == fields.steps,
            r.stride_rows == fields.stride_rows,
            r.stride_columns == fields.stride_columns,
            r.pad_rows == fields.pad_rows,
            r.pad_columns == fields.pad_columns,
    {
        TaskRecord { kind: fields.kind, op: fields.op, geometry: fields.geometry, first: fields.first, count: fields.count, slot: fields.slot, splits: fields.splits, out: fields.out, a: fields.a, b: fields.b, c: fields.c, param: fields.param, chain: fields.chain, steps: fields.steps, stride_rows: fields.stride_rows, stride_columns: fields.stride_columns, pad_rows: fields.pad_rows, pad_columns: fields.pad_columns }
    }

    /// The bytes the device reads.
    pub fn bytes(&self) -> (r: Vec<u8>)
        ensures
            r@ == words_bytes(task_words(*self)),
    {
        let words = vec![self.kind, self.op, self.geometry, self.first, self.count, self.slot, self.splits, self.out, self.a, self.b, self.c, self.param, self.chain, self.steps, self.stride_rows, self.stride_columns, self.pad_rows, self.pad_columns];
        proof {
            assert(words@ =~= task_words(*self));
        }
        encode(words.as_slice())
    }
}

/// The layout of a task record.
pub fn task() -> (r: RecordLayout)
    ensures
        r.name@ == "Task"@,
        r.size == 72,
        r.fields@.len() == 18,
        forall|i: int| 0 <= i < 18 ==> (#[trigger] r.fields@[i]).offset == 4 * i,
        r.fields@[0].name@ == "kind"@ && r.fields@[0].ty == FieldType::U32,
        r.fields@[1].name@ == "op"@ && r.fields@[1].ty == FieldType::U32,
        r.fields@[2].name@ == "geometry"@ && r.fields@[2].ty == FieldType::U32,
        r.fields@[3].name@ == "first"@ && r.fields@[3].ty == FieldType::U32,
        r.fields@[4].name@ == "count"@ && r.fields@[4].ty == FieldType::U32,
        r.fields@[5].name@ == "slot"@ && r.fields@[5].ty == FieldType::U32,
        r.fields@[6].name@ == "splits"@ && r.fields@[6].ty == FieldType::U32,
        r.fields@[7].name@ == "out"@ && r.fields@[7].ty == FieldType::U32,
        r.fields@[8].name@ == "a"@ && r.fields@[8].ty == FieldType::U32,
        r.fields@[9].name@ == "b"@ && r.fields@[9].ty == FieldType::U32,
        r.fields@[10].name@ == "c"@ && r.fields@[10].ty == FieldType::U32,
        r.fields@[11].name@ == "param"@ && r.fields@[11].ty == FieldType::F32,
        r.fields@[12].name@ == "chain"@ && r.fields@[12].ty == FieldType::U32,
        r.fields@[13].name@ == "steps"@ && r.fields@[13].ty == FieldType::U32,
        r.fields@[14].name@ == "stride_rows"@ && r.fields@[14].ty == FieldType::U32,
        r.fields@[15].name@ == "stride_columns"@ && r.fields@[15].ty == FieldType::U32,
        r.fields@[16].name@ == "pad_rows"@ && r.fields@[16].ty == FieldType::U32,
        r.fields@[17].name@ == "pad_columns"@ && r.fields@[17].ty == FieldType::U32,
{
    let fields = vec![
        field("kind", 0, FieldType::U32),
        field("op", 4, FieldType::U32),
        field("geometry", 8, FieldType::U32),
        field("first", 12, FieldType::U32),
        field("count", 16, FieldType::U32),
        field("slot", 20, FieldType::U32),
        field("splits", 24, FieldType::U32),
        field("out", 28, FieldType::U32),
        field("a", 32, FieldType::U32),
        field("b", 36, FieldType::U32),
        field("c", 40, FieldType::U32),
        field("param", 44, FieldType::F32),
        field("chain", 48, FieldType::U32),
        field("steps", 52, FieldType::U32),
        field("stride_rows", 56, FieldType::U32),
        field("stride_columns", 60, FieldType::U32),
        field("pad_rows", 64, FieldType::U32),
        field("pad_columns", 68, FieldType::U32),
    ];
    RecordLayout { name: "Task", size: 72, fields }
}

/// A value record as the device reads it: where the value lives, its element,
/// and its dimensions and strides padded to four axes.
#[derive(Clone, Copy, Debug, PartialEq, Eq)]
pub struct ValueRecord {
    pub base: u32,
    pub store: u32,
    pub element: u32,
    padding: u32,
    pub dims: [u32; 4],
    pub strides: [u32; 4],
}

/// The fields of a value record.
#[derive(Clone, Copy, Debug, PartialEq, Eq, Default)]
pub struct ValueFields {
    pub base: u32,
    pub store: u32,
    pub element: u32,
    pub dims: [u32; 4],
    pub strides: [u32; 4],
}

/// The words of a value record in the order the device reads them; the word
/// after the element is zero.
pub closed spec fn value_words(r: ValueRecord) -> Seq<u32> {
    seq![r.base, r.store, r.element, r.padding] + r.dims@ + r.strides@
}

impl ValueRecord {
    pub fn of(fields: ValueFields) -> (r: ValueRecord)
        ensures
            value_words(r) == seq![fields.base, fields.store, fields.element, 0u32] + fields.dims@
                + fields.strides@,
    {
        ValueRecord {
            base: fields.base,
            store: fields.store,
            element: fields.element,
            padding: 0,
            dims: fields.dims,
            strides: fields.strides,
        }
    }

    /// The bytes the device reads.
    pub fn bytes(&self) -> (r: Vec<u8>)
        ensures
            r@ == words_bytes(value_words(*self)),
    {
        let words = vec![
            self.base,
            self.store,
            self.element,
            self.padding,
            self.dims[0],
            self.dims[1],
            self.dims[2],
            self.dims[3],
            self.strides[0],
            self.strides[1],
            self.strides[2],
            self.strides[3],
        ];
        proof {
            assert(words@ =~= value_words(*self));
        }
        encode(words.as_slice())
    }
}

/// The layout of a value record.
pub fn value() -> (r: RecordLayout)
    ensures
        r.name@ == "Value"@,
        r.size == 48,
        r.fields@.len() == 5,
        r.fields@[0].name@ == "base"@ && r.fields@[0].offset == 0 && r.fields@[0].ty == FieldType::U32,
        r.fields@[1].name@ == "store"@ && r.fields@[1].offset == 4 && r.fields@[1].ty == FieldType::U32,
        r.fields@[2].name@ == "element"@ && r.fields@[2].offset == 8 && r.fields@[2].ty == FieldType::U32,
        r.fields@[3].name@ == "dims"@ && r.fields@[3].offset == 16 && r.fields@[3].ty == FieldType::U32x4,
        r.fields@[4].name@ == "strides"@ && r.fields@[4].offset == 32 && r.fields@[4].ty == FieldType::U32x4,
{
    let fields = vec![
        field("base", 0, FieldType::U32),
        field("store", 4, FieldType::U32),
        field("element", 8, FieldType::U32),
        field("dims", 16, FieldType::U32x4),
        field("strides", 32, FieldType::U32x4),
    ];
    RecordLayout { name: "Value", size: 48, fields }
}

/// Every record layout, in the order the device program declares them.
pub fn records() -> (r: Vec<RecordLayout>)
    ensures
        r@.len() == 6,
        r@[0].name@ == "Bounds"@,
        r@[1].name@ == "Placement"@,
        r@[2].name@ == "Segment"@,
        r@[3].name@ == "Step"@,
        r@[4].name@ == "Task"@,
        r@[5].name@ == "Value"@,
{
    vec![bounds(), placement(), segment(), step(), task(), value()]
}

} // verus!
