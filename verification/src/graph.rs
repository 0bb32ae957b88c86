//! A graph of tensor tasks: the values a program holds and the tasks that
//! derive them, recorded in the order they are authored.
use vstd::prelude::*;
use crate::element::Element;
use crate::init::Init;
use crate::kind::Kind;
use crate::record::StepRecord;
use crate::shape::{Shape, lemma_shape_determined, contiguous_stride, product, valid_dims, meets, broadcast_dims, spreads_over, ELEMENT_LIMIT};
use crate::window::{Window, WindowView};
use crate::pool::Pool;
use crate::NO_VALUE;

verus! {

/// How a value comes to hold its numbers.
#[derive(Clone, Copy, PartialEq, Eq, Debug, Hash, Structural)]
pub enum Residency {
    Input,
    Parameter,
    Resident,
    Derived,
    View,
}

/// How a pointwise operation carries a gradient back to one of its operands.
#[derive(Clone, Copy, PartialEq, Eq, Debug, Hash, Structural)]
pub enum Partial {
    /// The gradient passes through unchanged.
    Gradient,
    /// A partial task weighs the gradient by the result, the operand itself, or
    /// the other operand.
    Formula { result: bool, operand: bool, other: bool },
}

/// A pointwise operation as the graph records it: its device code, the kind of
/// task that applies it, how many operands it reads, and the partials of its
/// first and second operand.
#[derive(Clone, Copy, PartialEq, Eq, Debug, Hash, Structural)]
pub struct Op {
    pub code: u32,
    pub kind: Kind,
    pub operands: u32,
    pub first: Partial,
    pub second: Partial,
}

/// The pointwise operations a graph authors, and the code of no operation.
#[derive(Clone, Copy, PartialEq, Eq, Debug, Hash, Structural)]
pub struct Ops {
    pub none: u32,
    pub add: Op,
    pub mul: Op,
    pub sub: Op,
    pub div: Op,
    pub maximum: Op,
    pub minimum: Op,
    pub relu: Op,
    pub sqrt: Op,
    pub recip: Op,
    pub exp: Op,
    pub log: Op,
    pub tanh: Op,
    pub sigmoid: Op,
    pub neg: Op,
    pub abs: Op,
    pub identity: Op,
}

/// The operations of a table, binary ones first.
#[verifier::opaque]
pub open spec fn op_list(o: Ops) -> Seq<Op> {
    seq![o.add, o.mul, o.sub, o.div, o.maximum, o.minimum, o.relu, o.sqrt, o.recip, o.exp, o.log,
        o.tanh, o.sigmoid, o.neg, o.abs, o.identity]
}

/// A table whose binary operations read two operands through binary tasks,
/// whose unary ones read one through unary tasks, and whose codes name one
/// operation each.
#[verifier::opaque]
pub open spec fn ops_valid(o: Ops) -> bool {
    let l = op_list(o);
    &&& forall|i: int| 0 <= i < 6 ==> (#[trigger] l[i]).kind == Kind::Binary && l[i].operands == 2
    &&& forall|i: int| 6 <= i < 16 ==> (#[trigger] l[i]).kind == Kind::Unary && l[i].operands == 1
    &&& forall|i: int, j: int| 0 <= i < 16 && 0 <= j < 16 && i != j ==> (#[trigger] l[i]).code != (#[trigger] l[j]).code
}

/// A handle on a value of a graph.
#[derive(Clone, Copy, PartialEq, Eq, Debug, Hash, Structural)]
pub struct Value {
    graph: u64,
    id: u32,
    shape: Shape,
}

impl Value {
    /// The graph the value belongs to.
    pub closed spec fn owner(self) -> u64 {
        self.graph
    }

    /// The id of the value in its graph.
    pub closed spec fn ident(self) -> u32 {
        self.id
    }

    /// The shape of the value.
    pub closed spec fn form(self) -> Shape {
        self.shape
    }

    pub fn id(self) -> (r: u32)
        ensures
            r == self.ident(),
    {
        self.id
    }

    pub fn shape(self) -> (r: Shape)
        ensures
            r == self.form(),
    {
        self.shape
    }

    fn of(graph: u64, id: u32, shape: Shape) -> (r: Value)
        ensures
            r.owner() == graph,
            r.ident() == id,
            r.form() == shape,
    {
        Value { graph, id, shape }
    }
}

/// What a graph knows of one of its values.
#[derive(Clone, Copy, Debug)]
pub struct ValueInfo {
    pub shape: Shape,
    pub strides: [u32; 4],
    pub storage: u32,
    pub element: Element,
    pub residency: Residency,
    pub requires_grad: bool,
    pub retained: bool,
    pub written_in_place: bool,
    pub seed: Option<Init>,
}

/// Strides that walk the shape of a value row by row.
pub open spec fn row_by_row(info: ValueInfo) -> bool {
    forall|a: int| 0 <= a < 4 ==> (#[trigger] info.strides@[a]) as nat == contiguous_stride(info.shape@, a)
}

/// A value of `shape` stored in the storage of `storage` and walked row by row,
/// neither retained nor written in place.
pub open spec fn holds(info: ValueInfo, shape: Shape, storage: nat, element: Element, residency: Residency,
    grad: bool, seed: Option<Init>) -> bool {
    &&& info.shape == shape
    &&& row_by_row(info)
    &&& info.storage == storage
    &&& info.element == element
    &&& info.residency == residency
    &&& info.requires_grad == grad
    &&& !info.retained
    &&& !info.written_in_place
    &&& info.seed == seed
}

impl ValueInfo {
    /// A value of `shape` that a task derives into storage of its own.
    pub fn derived(shape: Shape, id: u32) -> (r: ValueInfo)
        ensures
            holds(r, shape, id as nat, Element::Single, Residency::Derived, false, None),
    {
        ValueInfo {
            shape,
            strides: shape.strides(),
            storage: id,
            element: Element::Single,
            residency: Residency::Derived,
            requires_grad: false,
            retained: false,
            written_in_place: false,
            seed: None,
        }
    }
}

/// A task a graph records. Its parameter is the bit pattern of a 32-bit float.
#[derive(Clone, Debug)]
pub struct TaskInfo {
    pub kind: Kind,
    pub op: u32,
    pub out: u32,
    pub extra: u32,
    pub inputs: [u32; 6],
    pub slot: u32,
    pub param: u32,
    pub window: Window,
    pub in_place: bool,
    pub prelude: Vec<StepRecord>,
    pub chain: Vec<StepRecord>,
}

/// A task of `kind` applying `op` into `out` from `inputs`, with the given extra
/// value, slot, parameter, window and writing mode.
pub open spec fn task_fields(t: TaskInfo, kind: Kind, op: u32, out: u32, inputs: Seq<u32>, extra: u32, slot: u32,
    param: u32, window: WindowView, in_place: bool) -> bool {
    &&& t.kind == kind
    &&& t.op == op
    &&& t.out == out
    &&& t.inputs@ == inputs
    &&& t.extra == extra
    &&& t.slot == slot
    &&& t.param == param
    &&& t.window@ == window
    &&& t.in_place == in_place
}

/// Such a task with no steps of its own.
pub open spec fn task_is(t: TaskInfo, kind: Kind, op: u32, out: u32, inputs: Seq<u32>, extra: u32, slot: u32,
    param: u32, window: WindowView, in_place: bool) -> bool {
    &&& task_fields(t, kind, op, out, inputs, extra, slot, param, window, in_place)
    &&& t.prelude@.len() == 0
    &&& t.chain@.len() == 0
}

/// The window a task carries when it walks no window.
pub open spec fn unit_window() -> WindowView {
    WindowView { reach_rows: 1, reach_columns: 1, stride_rows: 1, stride_columns: 1, pad_rows: 0, pad_columns: 0 }
}

/// A task with nothing but its kind, operation, output and inputs.
pub open spec fn plain_task(t: TaskInfo, kind: Kind, op: u32, out: u32, inputs: Seq<u32>) -> bool {
    task_is(t, kind, op, out, inputs, NO_VALUE, 0, 0, unit_window(), false)
}

/// Two tasks that agree in every field.
pub open spec fn same_task(a: TaskInfo, b: TaskInfo) -> bool {
    task_fields(a, b.kind, b.op, b.out, b.inputs@, b.extra, b.slot, b.param, b.window@, b.in_place)
        && a.prelude@ == b.prelude@ && a.chain@ == b.chain@
}

/// Six inputs: the first `given` and the rest naming no value.
pub open spec fn inputs_of(a: u32, b: u32, c: u32) -> Seq<u32> {
    seq![a, b, c, NO_VALUE, NO_VALUE, NO_VALUE]
}

/// Six inputs that name no value.
pub open spec fn no_inputs() -> Seq<u32> {
    seq![NO_VALUE, NO_VALUE, NO_VALUE, NO_VALUE, NO_VALUE, NO_VALUE]
}

fn none6() -> (r: [u32; 6])
    ensures
        r@ == no_inputs(),
{
    let r = [NO_VALUE, NO_VALUE, NO_VALUE, NO_VALUE, NO_VALUE, NO_VALUE];
    assert(r@ =~= no_inputs());
    r
}

impl TaskInfo {
    fn of(kind: Kind, op: u32, out: u32, inputs: [u32; 6]) -> (r: TaskInfo)
        ensures
            plain_task(r, kind, op, out, inputs@),
    {
        TaskInfo {
            kind,
            op,
            out,
            extra: NO_VALUE,
            inputs,
            slot: 0,
            param: 0,
            window: Window::sliding([1, 1]),
            in_place: false,
            prelude: Vec::new(),
            chain: Vec::new(),
        }
    }

    /// A copy of the task.
    pub fn copy(&self) -> (r: TaskInfo)
        ensures
            same_task(r, *self),
    {
        let mut prelude: Vec<StepRecord> = Vec::new();
        let mut i: usize = 0;
        while i < self.prelude.len()
            invariant
                i <= self.prelude@.len(),
                prelude@ == self.prelude@.subrange(0, i as int),
            decreases self.prelude@.len() - i,
        {
            prelude.push(self.prelude[i]);
            proof {
                assert(prelude@ =~= self.prelude@.subrange(0, i + 1));
            }
            i += 1;
        }
        let mut chain: Vec<StepRecord> = Vec::new();
        let mut j: usize = 0;
        while j < self.chain.len()
            invariant
                j <= self.chain@.len(),
                chain@ == self.chain@.subrange(0, j as int),
            decreases self.chain@.len() - j,
        {
            chain.push(self.chain[j]);
            proof {
                assert(chain@ =~= self.chain@.subrange(0, j + 1));
            }
            j += 1;
        }
        proof {
            assert(prelude@ =~= self.prelude@);
            assert(chain@ =~= self.chain@);
        }
        TaskInfo {
            kind: self.kind,
            op: self.op,
            out: self.out,
            extra: self.extra,
            inputs: self.inputs,
            slot: self.slot,
            param: self.param,
            window: self.window,
            in_place: self.in_place,
            prelude,
            chain,
        }
    }
}

/// The values and the tasks of a graph once it is authored.
pub struct GraphSnapshot {
    values: Vec<ValueInfo>,
    tasks: Vec<TaskInfo>,
}

impl GraphSnapshot {
    pub closed spec fn value_seq(self) -> Seq<ValueInfo> {
        self.values@
    }

    pub closed spec fn task_seq(self) -> Seq<TaskInfo> {
        self.tasks@
    }

    pub fn values(&self) -> (r: &[ValueInfo])
        ensures
            r@ == self.value_seq(),
    {
        self.values.as_slice()
    }

    pub fn tasks(&self) -> (r: &[TaskInfo])
        ensures
            r@ == self.task_seq(),
    {
        self.tasks.as_slice()
    }
}

/// What a graph holds: its number, its operations, its values and tasks, and
/// whether it was differentiated or had a leaf updated in place.
pub struct GraphView {
    pub instance: u64,
    pub ops: Ops,
    pub values: Seq<ValueInfo>,
    pub tasks: Seq<TaskInfo>,
    pub differentiated: bool,
    pub updated_in_place: bool,
}

/// Whether `id` names a value of the graph, or no value.
pub open spec fn names(g: GraphView, id: u32) -> bool {
    id == NO_VALUE || id < g.values.len()
}

/// Every value lies in the storage of a value that owns it, ids stay below the
/// id of no value, every task names values of the graph, and every pointwise
/// task applies an operation of the table.
#[verifier::opaque]
pub open spec fn graph_wf(g: GraphView) -> bool {
    &&& ops_valid(g.ops)
    &&& g.values.len() < NO_VALUE
    &&& forall|i: int| #![trigger g.values[i]] 0 <= i < g.values.len() ==> {
        &&& g.values[i].storage < g.values.len()
        &&& g.values[g.values[i].storage as int].storage == g.values[i].storage
        &&& g.values[i].shape.valid()
        &&& g.values[i].storage == i ==> row_by_row(g.values[i])
    }
    &&& forall|t: int| #![trigger g.tasks[t]] 0 <= t < g.tasks.len() ==> {
        &&& g.tasks[t].out < g.values.len()
        &&& names(g, g.tasks[t].extra)
        &&& forall|k: int| 0 <= k < 6 ==> names(g, #[trigger] g.tasks[t].inputs@[k])
        &&& (g.tasks[t].kind == Kind::Binary || g.tasks[t].kind == Kind::Unary) ==> exists|i: int|
            0 <= i < 16 && #[trigger] op_list(g.ops)[i].code == g.tasks[t].op && op_list(g.ops)[i].kind == g.tasks[t].kind
    }
}

/// Whether `v` is a handle this graph gave out.
pub open spec fn owns(g: GraphView, v: Value) -> bool {
    &&& v.owner() == g.instance
    &&& v.ident() < g.values.len()
    &&& g.values[v.ident() as int].shape == v.form()
}

/// Whether the graph can give out `n` more ids.
pub open spec fn room(g: GraphView, n: nat) -> bool {
    g.values.len() + n < NO_VALUE
}

/// The graph after `values` values and `tasks` tasks are appended.
pub open spec fn grown(before: GraphView, after: GraphView, values: nat, tasks: nat) -> bool {
    &&& after.instance == before.instance
    &&& after.ops == before.ops
    &&& after.differentiated == before.differentiated
    &&& after.updated_in_place == before.updated_in_place
    &&& after.values.len() == before.values.len() + values
    &&& after.tasks.len() == before.tasks.len() + tasks
    &&& forall|i: int| 0 <= i < before.values.len() ==> #[trigger] after.values[i] == before.values[i]
    &&& forall|t: int| 0 <= t < before.tasks.len() ==> #[trigger] after.tasks[t] == before.tasks[t]
}

/// The handle of the value with `id` and `shape` in the graph.
pub open spec fn handle(g: GraphView, v: Value, id: nat, shape: Shape) -> bool {
    v.owner() == g.instance && v.ident() == id && v.form() == shape
}

/// A graph of tasks. Each value and task is appended once and never changes,
/// but for the marks a retained or updated value carries.
pub struct Graph {
    instance: u64,
    ops: Ops,
    values: Vec<ValueInfo>,
    tasks: Vec<TaskInfo>,
    differentiated: bool,
    updated_in_place: bool,
}

impl View for Graph {
    type V = GraphView;

    closed spec fn view(&self) -> GraphView {
        GraphView {
            instance: self.instance,
            ops: self.ops,
            values: self.values@,
            tasks: self.tasks@,
            differentiated: self.differentiated,
            updated_in_place: self.updated_in_place,
        }
    }
}

impl Graph {
    /// The graph keeps the invariant of `graph_wf`.
    pub open spec fn wf(&self) -> bool {
        graph_wf(self@)
    }

    /// An empty graph numbered `instance` that applies the operations of `ops`.
    pub fn new(instance: u64, ops: Ops) -> (r: Graph)
        requires
            ops_valid(ops),
        ensures
            r.wf(),
            r@.instance == instance,
            r@.ops == ops,
            r@.values.len() == 0,
            r@.tasks.len() == 0,
            !r@.differentiated,
            !r@.updated_in_place,
    {
        let r = Graph { instance, ops, values: Vec::new(), tasks: Vec::new(), differentiated: false, updated_in_place: false };
        proof {
            reveal(graph_wf);
        }
        r
    }

    /// Whether the graph gave out `value`.
    pub fn owns(&self, value: Value) -> (r: bool)
        requires
            self.wf(),
        ensures
            r == owns(self@, value),
    {
        value.graph == self.instance && (value.id as usize) < self.values.len()
            && self.values[value.id as usize].shape == value.shape
    }
}

/// Whether `task` names values of the graph and applies an operation of its
/// table where it is pointwise.
pub open spec fn task_fits(g: GraphView, task: TaskInfo) -> bool {
    &&& task.out < g.values.len()
    &&& names(g, task.extra)
    &&& forall|k: int| 0 <= k < 6 ==> names(g, #[trigger] task.inputs@[k])
    &&& (task.kind == Kind::Binary || task.kind == Kind::Unary) ==> exists|i: int|
        0 <= i < 16 && #[trigger] op_list(g.ops)[i].code == task.op && op_list(g.ops)[i].kind == task.kind
}

/// The value with its storage marked as retained.
pub open spec fn retained(info: ValueInfo) -> ValueInfo {
    ValueInfo { retained: true, ..info }
}

/// The value marked as written in place.
pub open spec fn written(info: ValueInfo) -> ValueInfo {
    ValueInfo { written_in_place: true, ..info }
}

/// What the invariant gives of one value.
pub proof fn lemma_wf_value(g: GraphView, i: int)
    requires
        graph_wf(g),
        0 <= i < g.values.len(),
    ensures
        g.values.len() < NO_VALUE,
        g.values[i].storage < g.values.len(),
        g.values[g.values[i].storage as int].storage == g.values[i].storage,
        g.values[i].shape.valid(),
        g.values[i].storage == i ==> row_by_row(g.values[i]),
        ops_valid(g.ops),
{
    reveal(graph_wf);
}

/// What the invariant gives of one task.
pub proof fn lemma_wf_task(g: GraphView, t: int)
    requires
        graph_wf(g),
        0 <= t < g.tasks.len(),
    ensures
        task_fits(g, g.tasks[t]),
{
    reveal(graph_wf);
}

/// What the invariant gives of the graph as a whole.
pub proof fn lemma_wf_bounds(g: GraphView)
    requires
        graph_wf(g),
    ensures
        g.values.len() < NO_VALUE,
        ops_valid(g.ops),
{
    reveal(graph_wf);
}

#[verifier::spinoff_prover]
#[verifier::rlimit(100)]
proof fn lemma_wf_append(before: GraphView, after: GraphView, info: ValueInfo)
    requires
        graph_wf(before),
        grown(before, after, 1, 0),
        after.values.last() == info,
        after.values.len() < NO_VALUE,
        info.shape.valid(),
        info.storage == before.values.len() || (info.storage < before.values.len()
            && before.values[info.storage as int].storage == info.storage),
        info.storage == before.values.len() ==> row_by_row(info),
    ensures
        graph_wf(after),
{
    reveal(graph_wf);
    assert forall|i: int| #![trigger after.values[i]] 0 <= i < after.values.len() implies {
        &&& after.values[i].storage < after.values.len()
        &&& after.values[after.values[i].storage as int].storage == after.values[i].storage
        &&& after.values[i].shape.valid()
        &&& after.values[i].storage == i ==> row_by_row(after.values[i])
    } by {
        if i < before.values.len() {
            assert(after.values[i] == before.values[i]);
            assert(after.values[before.values[i].storage as int] == before.values[before.values[i].storage as int]);
            assert(before.values[i].storage == i ==> row_by_row(before.values[i]));
        } else {
            assert(after.values[i] == info);
        }
    }
    assert forall|t: int| #![trigger after.tasks[t]] 0 <= t < after.tasks.len() implies task_fits(after, after.tasks[t]) by {
        assert(after.tasks[t] == before.tasks[t]);
        assert(task_fits(before, before.tasks[t]));
        assert(forall|k: int| 0 <= k < 6 ==> names(before, #[trigger] before.tasks[t].inputs@[k]));
    }
}

proof fn lemma_wf_record(before: GraphView, after: GraphView, task: TaskInfo)
    requires
        graph_wf(before),
        grown(before, after, 0, 1),
        after.tasks.last() == task,
        task_fits(before, task),
    ensures
        graph_wf(after),
{
    reveal(graph_wf);
    assert forall|i: int| #![trigger after.values[i]] 0 <= i < after.values.len() implies {
        &&& after.values[i].storage < after.values.len()
        &&& after.values[after.values[i].storage as int].storage == after.values[i].storage
        &&& after.values[i].shape.valid()
    } by {
        assert(after.values[i] == before.values[i]);
        assert(after.values[before.values[i].storage as int] == before.values[before.values[i].storage as int]);
    }
    assert forall|t: int| #![trigger after.tasks[t]] 0 <= t < after.tasks.len() implies task_fits(after, after.tasks[t]) by {
        if t < before.tasks.len() {
            assert(after.tasks[t] == before.tasks[t]);
            assert(task_fits(before, before.tasks[t]));
        }
    }
}

/// Marking a value leaves the invariant in place.
proof fn lemma_wf_mark(before: GraphView, after: GraphView, i: int, info: ValueInfo)
    requires
        graph_wf(before),
        0 <= i < before.values.len(),
        info.shape == before.values[i].shape,
        info.storage == before.values[i].storage,
        info.strides == before.values[i].strides,
        after == (GraphView { values: before.values.update(i, info), ..before }),
    ensures
        graph_wf(after),
{
    reveal(graph_wf);
    assert forall|j: int| #![trigger after.values[j]] 0 <= j < after.values.len() implies {
        &&& after.values[j].storage < after.values.len()
        &&& after.values[after.values[j].storage as int].storage == after.values[j].storage
        &&& after.values[j].shape.valid()
        &&& after.values[j].storage == j ==> row_by_row(after.values[j])
    } by {
        assert(before.values[j].storage < before.values.len());
        assert(after.values[j].storage == before.values[j].storage);
        let s = before.values[j].storage as int;
        assert(before.values[s].storage == s);
        assert(after.values[s].storage == before.values[s].storage);
    }
    assert forall|t: int| #![trigger after.tasks[t]] 0 <= t < after.tasks.len() implies task_fits(after, after.tasks[t]) by {
        assert(task_fits(before, before.tasks[t]));
    }
}

impl Graph {
    /// Appends a value and returns its id.
    fn append(&mut self, info: ValueInfo) -> (id: u32)
        requires
            old(self).wf(),
            room(old(self)@, 1),
            info.storage == old(self)@.values.len() || (info.storage < old(self)@.values.len()
                && old(self)@.values[info.storage as int].storage == info.storage),
            info.storage == old(self)@.values.len() ==> row_by_row(info),
        ensures
            final(self).wf(),
            grown(old(self)@, final(self)@, 1, 0),
            final(self)@.values.last() == info,
            id == old(self)@.values.len(),
    {
        proof {
            use_type_invariant(&info.shape);
        }
        proof {
            lemma_wf_bounds(self@);
        }
        let id = self.values.len() as u32;
        self.values.push(info);
        proof {
            lemma_wf_append(old(self)@, self@, info);
        }
        id
    }

    /// Appends a task.
    fn record(&mut self, task: TaskInfo)
        requires
            old(self).wf(),
            task_fits(old(self)@, task),
        ensures
            final(self).wf(),
            grown(old(self)@, final(self)@, 0, 1),
            final(self)@.values == old(self)@.values,
            final(self)@.tasks.last() == task,
    {
        self.tasks.push(task);
        proof {
            lemma_wf_record(old(self)@, self@, task);
        }
    }

    /// A value of `shape` stored row by row in storage of its own.
    fn hold(&mut self, shape: Shape, residency: Residency, element: Element, seed: Option<Init>, grad: bool) -> (r: Value)
        requires
            old(self).wf(),
            room(old(self)@, 1),
        ensures
            final(self).wf(),
            grown(old(self)@, final(self)@, 1, 0),
            holds(final(self)@.values.last(), shape, old(self)@.values.len(), element, residency, grad, seed),
            handle(old(self)@, r, old(self)@.values.len(), shape),
    {
        let id = self.values.len() as u32;
        let info = ValueInfo {
            shape,
            strides: shape.strides(),
            storage: id,
            element,
            residency,
            requires_grad: grad,
            retained: false,
            written_in_place: false,
            seed,
        };
        let id = self.append(info);
        Value::of(self.instance, id, shape)
    }

    /// A value of `shape` that walks the storage of `storage` with `strides`.
    fn alias(&mut self, shape: Shape, strides: [u32; 4], storage: u32, element: Element, grad: bool) -> (r: Value)
        requires
            old(self).wf(),
            room(old(self)@, 1),
            storage < old(self)@.values.len(),
            old(self)@.values[storage as int].storage == storage,
        ensures
            final(self).wf(),
            grown(old(self)@, final(self)@, 1, 0),
            final(self)@.values.last() == (ValueInfo {
                shape,
                strides,
                storage,
                element,
                residency: Residency::View,
                requires_grad: grad,
                retained: false,
                written_in_place: false,
                seed: None,
            }),
            handle(old(self)@, r, old(self)@.values.len(), shape),
    {
        let info = ValueInfo {
            shape,
            strides,
            storage,
            element,
            residency: Residency::View,
            requires_grad: grad,
            retained: false,
            written_in_place: false,
            seed: None,
        };
        let id = self.append(info);
        Value::of(self.instance, id, shape)
    }

    /// An input that the host uploads before every run.
    pub fn input(&mut self, shape: Shape, element: Element) -> (r: Value)
        requires
            old(self).wf(),
            room(old(self)@, 1),
        ensures
            final(self).wf(),
            grown(old(self)@, final(self)@, 1, 0),
            holds(final(self)@.values.last(), shape, old(self)@.values.len(), element, Residency::Input, false, None),
            handle(old(self)@, r, old(self)@.values.len(), shape),
    {
        self.hold(shape, Residency::Input, element, None, false)
    }

    /// A value that stays on the device from run to run.
    pub fn resident(&mut self, shape: Shape, element: Element) -> (r: Value)
        requires
            old(self).wf(),
            room(old(self)@, 1),
        ensures
            final(self).wf(),
            grown(old(self)@, final(self)@, 1, 0),
            holds(final(self)@.values.last(), shape, old(self)@.values.len(), element, Residency::Resident, false, None),
            handle(old(self)@, r, old(self)@.values.len(), shape),
    {
        self.hold(shape, Residency::Resident, element, None, false)
    }

    /// A trained parameter seeded by `init`; gradients reach it.
    pub fn parameter(&mut self, shape: Shape, init: Init, element: Element) -> (r: Value)
        requires
            old(self).wf(),
            room(old(self)@, 1),
        ensures
            final(self).wf(),
            grown(old(self)@, final(self)@, 1, 0),
            holds(final(self)@.values.last(), shape, old(self)@.values.len(), element, Residency::Parameter, true,
                Some(init)),
            handle(old(self)@, r, old(self)@.values.len(), shape),
    {
        self.hold(shape, Residency::Parameter, element, Some(init), true)
    }

    /// A derived value that a task fills with the float whose bits are `value`.
    pub fn fill(&mut self, shape: Shape, value: u32) -> (r: Value)
        requires
            old(self).wf(),
            room(old(self)@, 1),
        ensures
            final(self).wf(),
            grown(old(self)@, final(self)@, 1, 1),
            holds(final(self)@.values.last(), shape, old(self)@.values.len(), Element::Single, Residency::Derived,
                false, None),
            task_is(final(self)@.tasks.last(), Kind::Fill, old(self)@.ops.none, old(self)@.values.len() as u32,
                no_inputs(), NO_VALUE, 0, value, unit_window(),
                false),
            handle(old(self)@, r, old(self)@.values.len(), shape),
    {
        let out = self.hold(shape, Residency::Derived, Element::Single, None, false);
        let mut task = TaskInfo::of(Kind::Fill, self.ops.none, out.id, none6());
        task.param = value;
        self.record(task);
        out
    }

    /// The shape of a value of the graph.
    pub fn shape(&self, value: Value) -> (r: Shape)
        requires
            self.wf(),
            owns(self@, value),
        ensures
            r == self@.values[value.ident() as int].shape,
            r == value.form(),
    {
        self.values[value.id as usize].shape
    }

    /// The element a value of the graph holds.
    pub fn element(&self, value: Value) -> (r: Element)
        requires
            self.wf(),
            owns(self@, value),
        ensures
            r == self@.values[value.ident() as int].element,
    {
        self.values[value.id as usize].element
    }

    pub fn value_count(&self) -> (r: usize)
        requires
            self.wf(),
        ensures
            r == self@.values.len(),
    {
        self.values.len()
    }

    pub fn task_count(&self) -> (r: usize)
        requires
            self.wf(),
        ensures
            r == self@.tasks.len(),
    {
        self.tasks.len()
    }

    /// A copy of the values and tasks the graph holds.
    pub fn snapshot(&self) -> (r: GraphSnapshot)
        requires
            self.wf(),
        ensures
            r.value_seq() == self@.values,
            r.task_seq().len() == self@.tasks.len(),
            forall|t: int| 0 <= t < self@.tasks.len() ==> same_task(#[trigger] r.task_seq()[t], self@.tasks[t]),
    {
        let mut values: Vec<ValueInfo> = Vec::new();
        let mut i: usize = 0;
        while i < self.values.len()
            invariant
                i <= self@.values.len(),
                values@ == self@.values.subrange(0, i as int),
            decreases self@.values.len() - i,
        {
            values.push(self.values[i]);
            proof {
                assert(values@ =~= self@.values.subrange(0, i + 1));
            }
            i += 1;
        }
        let mut tasks: Vec<TaskInfo> = Vec::new();
        let mut t: usize = 0;
        while t < self.tasks.len()
            invariant
                t <= self@.tasks.len(),
                tasks@.len() == t,
                forall|k: int| 0 <= k < t ==> same_task(#[trigger] tasks@[k], self@.tasks[k]),
            decreases self@.tasks.len() - t,
        {
            tasks.push(self.tasks[t].copy());
            t += 1;
        }
        proof {
            assert(values@ =~= self@.values);
        }
        GraphSnapshot { values, tasks }
    }

    /// Whether a task updates a parameter in place.
    pub fn updates_weights(&self) -> (r: bool)
        requires
            self.wf(),
        ensures
            r == exists|t: int| 0 <= t < self@.tasks.len() && (#[trigger] self@.tasks[t]).in_place
                && self@.values[self@.tasks[t].out as int].residency == Residency::Parameter,
    {
        let mut t: usize = 0;
        while t < self.tasks.len()
            invariant
                t <= self@.tasks.len(),
                graph_wf(self@),
                forall|k: int| 0 <= k < t ==> !((#[trigger] self@.tasks[k]).in_place
                    && self@.values[self@.tasks[k].out as int].residency == Residency::Parameter),
            decreases self@.tasks.len() - t,
        {
            let task = &self.tasks[t];
            proof {
                lemma_wf_task(self@, t as int);
            }
            if task.in_place && self.values[task.out as usize].residency == Residency::Parameter {
                return true;
            }
            t += 1;
        }
        false
    }

    /// Keeps the storage of a value readable after a run.
    pub fn retain(&mut self, value: Value)
        requires
            old(self).wf(),
            owns(old(self)@, value),
        ensures
            final(self).wf(),
            ({
                let s = old(self)@.values[value.ident() as int].storage as int;
                final(self)@ == GraphView { values: old(self)@.values.update(s, retained(old(self)@.values[s])), ..old(self)@ }
            }),
    {
        proof {
            lemma_wf_value(self@, value.ident() as int);
        }
        let storage = self.values[value.id as usize].storage as usize;
        let mut info = self.values[storage];
        info.retained = true;
        self.values.set(storage, info);
        proof {
            assert(self@.values =~= old(self)@.values.update(storage as int, retained(old(self)@.values[storage as int])));
            lemma_wf_mark(old(self)@, self@, storage as int, info);
        }
    }
}

/// The shape of four positive axes whose product a device addresses.
fn shape4(d0: u32, d1: u32, d2: u32, d3: u32) -> (r: Shape)
    requires
        d0 > 0 && d1 > 0 && d2 > 0 && d3 > 0,
        product(seq![d0 as nat, d1 as nat, d2 as nat, d3 as nat]) <= ELEMENT_LIMIT,
    ensures
        r@ == seq![d0 as nat, d1 as nat, d2 as nat, d3 as nat],
        r.valid(),
{
    let dims = [d0, d1, d2, d3];
    proof {
        let p = crate::shape::padded(dims@);
        assert(p =~= seq![d0 as nat, d1 as nat, d2 as nat, d3 as nat]);
    }
    Shape::of(&dims)
}

/// Whether the value of a handle gets a gradient.
pub open spec fn tracks(g: GraphView, v: Value) -> bool {
    g.values[v.ident() as int].requires_grad
}

/// Whether the value of a handle is walked row by row.
pub open spec fn laid_out(g: GraphView, v: Value) -> bool {
    row_by_row(g.values[v.ident() as int])
}

/// Whether a count of numbers lies in the index space of the device.
pub open spec fn addressable(d: Seq<nat>) -> bool {
    product(d) <= ELEMENT_LIMIT
}

/// The graph after a task derives one new value of dimensions `dims` into the
/// handle `out`.
pub open spec fn derives(before: GraphView, after: GraphView, dims: Seq<nat>, grad: bool, out: Value) -> bool {
    &&& grown(before, after, 1, 1)
    &&& handle(before, out, before.values.len(), out.form())
    &&& out.form()@ == dims
    &&& holds(after.values.last(), out.form(), before.values.len(), Element::Single, Residency::Derived, grad, None)
}

/// Dims with the last axis replaced.
pub open spec fn with_columns(d: Seq<nat>, columns: nat) -> Seq<nat> {
    d.update(3, columns)
}

/// The dims of a batched matrix product.
pub open spec fn matmul_dims(a: Seq<nat>, b: Seq<nat>) -> Seq<nat> {
    seq![if a[0] >= b[0] { a[0] } else { b[0] }, if a[1] >= b[1] { a[1] } else { b[1] }, a[2], b[3]]
}

/// The batches of two operands meet axis by axis.
pub open spec fn batches_meet(a: Seq<nat>, b: Seq<nat>) -> bool {
    forall|i: int| 0 <= i < 2 ==> a[i] == b[i] || a[i] == 1 || b[i] == 1
}

/// The graph after a pointwise operation derives a value from its operands.
pub open spec fn pointwise(before: GraphView, after: GraphView, op: Op, left: Value, right: Value, out: Value)
    -> bool {
    &&& derives(before, after, broadcast_dims(left.form()@, right.form()@), tracks(before, left) || tracks(before, right), out)
    &&& plain_task(after.tasks.last(), op.kind, op.code, out.ident(), inputs_of(left.ident(), right.ident(), NO_VALUE))
}

/// The graph after a unary operation derives a value from its operand.
pub open spec fn pointwise_one(before: GraphView, after: GraphView, op: Op, value: Value, out: Value) -> bool {
    &&& derives(before, after, value.form()@, tracks(before, value), out)
    &&& plain_task(after.tasks.last(), op.kind, op.code, out.ident(), inputs_of(value.ident(), NO_VALUE, NO_VALUE))
}

impl Graph {
    /// Derives a value of `shape` through a task of `kind` that reads `inputs`.
    fn derive(&mut self, shape: Shape, grad: bool, kind: Kind, op: u32, inputs: [u32; 6]) -> (r: Value)
        requires
            old(self).wf(),
            room(old(self)@, 1),
            forall|k: int| 0 <= k < 6 ==> names(old(self)@, #[trigger] inputs@[k]),
            (kind == Kind::Binary || kind == Kind::Unary) ==> exists|i: int|
                0 <= i < 16 && #[trigger] op_list(old(self)@.ops)[i].code == op && op_list(old(self)@.ops)[i].kind == kind,
        ensures
            final(self).wf(),
            derives(old(self)@, final(self)@, shape@, grad, r),
            r.form() == shape,
            plain_task(final(self)@.tasks.last(), kind, op, r.ident(), inputs@),
    {
        let out = self.hold(shape, Residency::Derived, Element::Single, None, grad);
        let task = TaskInfo::of(kind, op, out.id, inputs);
        proof {
            assert forall|k: int| 0 <= k < 6 implies names(self@, #[trigger] task.inputs@[k]) by {
                assert(names(old(self)@, inputs@[k]));
            }
        }
        self.record(task);
        out
    }

    /// Whether a value gets a gradient.
    fn tracks(&self, value: Value) -> (r: bool)
        requires
            owns(self@, value),
        ensures
            r == tracks(self@, value),
    {
        self.values[value.id as usize].requires_grad
    }

    /// Whether a value is walked row by row.
    fn laid_out(&self, value: Value) -> (r: bool)
        requires
            self.wf(),
            owns(self@, value),
        ensures
            r == laid_out(self@, value),
    {
        let info = &self.values[value.id as usize];
        let expected = info.shape.strides();
        let r = info.strides[0] == expected[0] && info.strides[1] == expected[1] && info.strides[2] == expected[2]
            && info.strides[3] == expected[3];
        proof {
            let i = self@.values[value.ident() as int];
            if r {
                assert forall|a: int| 0 <= a < 4 implies (#[trigger] i.strides@[a]) as nat == contiguous_stride(i.shape@, a) by {
                    assert(expected@[a] as nat == contiguous_stride(i.shape@, a));
                }
            } else {
                if row_by_row(i) {
                    assert(i.strides@[0] as nat == contiguous_stride(i.shape@, 0));
                    assert(i.strides@[1] as nat == contiguous_stride(i.shape@, 1));
                    assert(i.strides@[2] as nat == contiguous_stride(i.shape@, 2));
                    assert(i.strides@[3] as nat == contiguous_stride(i.shape@, 3));
                }
            }
        }
        r
    }

    /// The product of two batched matrices.
    pub fn matmul(&mut self, left: Value, right: Value) -> (r: Value)
        requires
            old(self).wf(),
            owns(old(self)@, left),
            owns(old(self)@, right),
            room(old(self)@, 1),
            left.form()@[3] == right.form()@[2],
            batches_meet(left.form()@, right.form()@),
            addressable(matmul_dims(left.form()@, right.form()@)),
        ensures
            final(self).wf(),
            derives(old(self)@, final(self)@, matmul_dims(left.form()@, right.form()@),
                tracks(old(self)@, left) || tracks(old(self)@, right), r),
            plain_task(final(self)@.tasks.last(), Kind::Matmul, old(self)@.ops.none, r.ident(),
                inputs_of(left.ident(), right.ident(), NO_VALUE)),
    {
        let l = left.shape.dims();
        let rd = right.shape.dims();
        let b0 = if l[0] >= rd[0] { l[0] } else { rd[0] };
        let b1 = if l[1] >= rd[1] { l[1] } else { rd[1] };
        proof {
            assert(seq![b0 as nat, b1 as nat, l[2] as nat, rd[3] as nat] =~= matmul_dims(left.form()@, right.form()@));
        }
        let shape = shape4(b0, b1, l[2], rd[3]);
        let grad = self.tracks(left) || self.tracks(right);
        let inputs = [left.id, right.id, NO_VALUE, NO_VALUE, NO_VALUE, NO_VALUE];
        assert(inputs@ =~= inputs_of(left.ident(), right.ident(), NO_VALUE));
        self.derive(shape, grad, Kind::Matmul, self.ops.none, inputs)
    }

    /// A pointwise operation of two operands whose shapes meet.
    fn elementwise(&mut self, op: Op, left: Value, right: Value) -> (r: Value)
        requires
            old(self).wf(),
            owns(old(self)@, left),
            owns(old(self)@, right),
            room(old(self)@, 1),
            exists|i: int| 0 <= i < 16 && #[trigger] op_list(old(self)@.ops)[i] == op,
            meets(left.form()@, right.form()@),
            addressable(broadcast_dims(left.form()@, right.form()@)),
        ensures
            final(self).wf(),
            pointwise(old(self)@, final(self)@, op, left, right, r),
    {
        proof {
            use_type_invariant(&left.shape);
            use_type_invariant(&right.shape);
        }
        let shape = left.shape.combined(right.shape);
        let grad = self.tracks(left) || self.tracks(right);
        let inputs = [left.id, right.id, NO_VALUE, NO_VALUE, NO_VALUE, NO_VALUE];
        assert(inputs@ =~= inputs_of(left.ident(), right.ident(), NO_VALUE));
        self.derive(shape, grad, op.kind, op.code, inputs)
    }

    /// A pointwise operation of one operand.
    fn unary(&mut self, op: Op, value: Value) -> (r: Value)
        requires
            old(self).wf(),
            owns(old(self)@, value),
            room(old(self)@, 1),
            exists|i: int| 0 <= i < 16 && #[trigger] op_list(old(self)@.ops)[i] == op,
        ensures
            final(self).wf(),
            pointwise_one(old(self)@, final(self)@, op, value, r),
    {
        let grad = self.tracks(value);
        let inputs = [value.id, NO_VALUE, NO_VALUE, NO_VALUE, NO_VALUE, NO_VALUE];
        assert(inputs@ =~= inputs_of(value.ident(), NO_VALUE, NO_VALUE));
        self.derive(value.shape, grad, op.kind, op.code, inputs)
    }
}

/// Where each operation of a table stands in its list.
pub proof fn lemma_op_list(o: Ops)
    ensures
        op_list(o)[0] == o.add,
        op_list(o)[1] == o.mul,
        op_list(o)[2] == o.sub,
        op_list(o)[3] == o.div,
        op_list(o)[4] == o.maximum,
        op_list(o)[5] == o.minimum,
        op_list(o)[6] == o.relu,
        op_list(o)[7] == o.sqrt,
        op_list(o)[8] == o.recip,
        op_list(o)[9] == o.exp,
        op_list(o)[10] == o.log,
        op_list(o)[11] == o.tanh,
        op_list(o)[12] == o.sigmoid,
        op_list(o)[13] == o.neg,
        op_list(o)[14] == o.abs,
        op_list(o)[15] == o.identity,
        op_list(o).len() == 16,
{
    reveal(op_list);
}

impl Graph {
    /// The sum of two operands.
    pub fn add(&mut self, left: Value, right: Value) -> (r: Value)
        requires
            old(self).wf(),
            owns(old(self)@, left),
            owns(old(self)@, right),
            room(old(self)@, 1),
            meets(left.form()@, right.form()@),
            addressable(broadcast_dims(left.form()@, right.form()@)),
        ensures
            final(self).wf(),
            pointwise(old(self)@, final(self)@, old(self)@.ops.add, left, right, r),
    {
        proof {
            lemma_op_list(self@.ops);
            assert(op_list(self@.ops)[0] == self@.ops.add);
        }
        let op = self.ops.add;
        self.elementwise(op, left, right)
    }

    /// The product of two operands.
    pub fn mul(&mut self, left: Value, right: Value) -> (r: Value)
        requires
            old(self).wf(),
            owns(old(self)@, left),
            owns(old(self)@, right),
            room(old(self)@, 1),
            meets(left.form()@, right.form()@),
            addressable(broadcast_dims(left.form()@, right.form()@)),
        ensures
            final(self).wf(),
            pointwise(old(self)@, final(self)@, old(self)@.ops.mul, left, right, r),
    {
        proof {
            lemma_op_list(self@.ops);
            assert(op_list(self@.ops)[1] == self@.ops.mul);
        }
        let op = self.ops.mul;
        self.elementwise(op, left, right)
    }

    /// The difference of two operands.
    pub fn sub(&mut self, left: Value, right: Value) -> (r: Value)
        requires
            old(self).wf(),
            owns(old(self)@, left),
            owns(old(self)@, right),
            room(old(self)@, 1),
            meets(left.form()@, right.form()@),
            addressable(broadcast_dims(left.form()@, right.form()@)),
        ensures
            final(self).wf(),
            pointwise(old(self)@, final(self)@, old(self)@.ops.sub, left, right, r),
    {
        proof {
            lemma_op_list(self@.ops);
            assert(op_list(self@.ops)[2] == self@.ops.sub);
        }
        let op = self.ops.sub;
        self.elementwise(op, left, right)
    }

    /// The quotient of two operands.
    pub fn div(&mut self, left: Value, right: Value) -> (r: Value)
        requires
            old(self).wf(),
            owns(old(self)@, left),
            owns(old(self)@, right),
            room(old(self)@, 1),
            meets(left.form()@, right.form()@),
            addressable(broadcast_dims(left.form()@, right.form()@)),
        ensures
            final(self).wf(),
            pointwise(old(self)@, final(self)@, old(self)@.ops.div, left, right, r),
    {
        proof {
            lemma_op_list(self@.ops);
            assert(op_list(self@.ops)[3] == self@.ops.div);
        }
        let op = self.ops.div;
        self.elementwise(op, left, right)
    }

    /// The larger of two operands, number by number.
    pub fn max(&mut self, left: Value, right: Value) -> (r: Value)
        requires
            old(self).wf(),
            owns(old(self)@, left),
            owns(old(self)@, right),
            room(old(self)@, 1),
            meets(left.form()@, right.form()@),
            addressable(broadcast_dims(left.form()@, right.form()@)),
        ensures
            final(self).wf(),
            pointwise(old(self)@, final(self)@, old(self)@.ops.maximum, left, right, r),
    {
        proof {
            lemma_op_list(self@.ops);
            assert(op_list(self@.ops)[4] == self@.ops.maximum);
        }
        let op = self.ops.maximum;
        self.elementwise(op, left, right)
    }

    /// The smaller of two operands, number by number.
    pub fn min(&mut self, left: Value, right: Value) -> (r: Value)
        requires
            old(self).wf(),
            owns(old(self)@, left),
            owns(old(self)@, right),
            room(old(self)@, 1),
            meets(left.form()@, right.form()@),
            addressable(broadcast_dims(left.form()@, right.form()@)),
        ensures
            final(self).wf(),
            pointwise(old(self)@, final(self)@, old(self)@.ops.minimum, left, right, r),
    {
        proof {
            lemma_op_list(self@.ops);
            assert(op_list(self@.ops)[5] == self@.ops.minimum);
        }
        let op = self.ops.minimum;
        self.elementwise(op, left, right)
    }

    /// Negative numbers cut to zero.
    pub fn relu(&mut self, value: Value) -> (r: Value)
        requires
            old(self).wf(),
            owns(old(self)@, value),
            room(old(self)@, 1),
        ensures
            final(self).wf(),
            pointwise_one(old(self)@, final(self)@, old(self)@.ops.relu, value, r),
    {
        proof {
            lemma_op_list(self@.ops);
            assert(op_list(self@.ops)[6] == self@.ops.relu);
        }
        let op = self.ops.relu;
        self.unary(op, value)
    }

    /// The square root.
    pub fn sqrt(&mut self, value: Value) -> (r: Value)
        requires
            old(self).wf(),
            owns(old(self)@, value),
            room(old(self)@, 1),
        ensures
            final(self).wf(),
            pointwise_one(old(self)@, final(self)@, old(self)@.ops.sqrt, value, r),
    {
        proof {
            lemma_op_list(self@.ops);
            assert(op_list(self@.ops)[7] == self@.ops.sqrt);
        }
        let op = self.ops.sqrt;
        self.unary(op, value)
    }

    /// The reciprocal.
    pub fn recip(&mut self, value: Value) -> (r: Value)
        requires
            old(self).wf(),
            owns(old(self)@, value),
            room(old(self)@, 1),
        ensures
            final(self).wf(),
            pointwise_one(old(self)@, final(self)@, old(self)@.ops.recip, value, r),
    {
        proof {
            lemma_op_list(self@.ops);
            assert(op_list(self@.ops)[8] == self@.ops.recip);
        }
        let op = self.ops.recip;
        self.unary(op, value)
    }

    /// The exponential.
    pub fn exp(&mut self, value: Value) -> (r: Value)
        requires
            old(self).wf(),
            owns(old(self)@, value),
            room(old(self)@, 1),
        ensures
            final(self).wf(),
            pointwise_one(old(self)@, final(self)@, old(self)@.ops.exp, value, r),
    {
        proof {
            lemma_op_list(self@.ops);
            assert(op_list(self@.ops)[9] == self@.ops.exp);
        }
        let op = self.ops.exp;
        self.unary(op, value)
    }

    /// The natural logarithm.
    pub fn log(&mut self, value: Value) -> (r: Value)
        requires
            old(self).wf(),
            owns(old(self)@, value),
            room(old(self)@, 1),
        ensures
            final(self).wf(),
            pointwise_one(old(self)@, final(self)@, old(self)@.ops.log, value, r),
    {
        proof {
            lemma_op_list(self@.ops);
            assert(op_list(self@.ops)[10] == self@.ops.log);
        }
        let op = self.ops.log;
        self.unary(op, value)
    }

    /// The hyperbolic tangent.
    pub fn tanh(&mut self, value: Value) -> (r: Value)
        requires
            old(self).wf(),
            owns(old(self)@, value),
            room(old(self)@, 1),
        ensures
            final(self).wf(),
            pointwise_one(old(self)@, final(self)@, old(self)@.ops.tanh, value, r),
    {
        proof {
            lemma_op_list(self@.ops);
            assert(op_list(self@.ops)[11] == self@.ops.tanh);
        }
        let op = self.ops.tanh;
        self.unary(op, value)
    }

    /// The logistic sigmoid.
    pub fn sigmoid(&mut self, value: Value) -> (r: Value)
        requires
            old(self).wf(),
            owns(old(self)@, value),
            room(old(self)@, 1),
        ensures
            final(self).wf(),
            pointwise_one(old(self)@, final(self)@, old(self)@.ops.sigmoid, value, r),
    {
        proof {
            lemma_op_list(self@.ops);
            assert(op_list(self@.ops)[12] == self@.ops.sigmoid);
        }
        let op = self.ops.sigmoid;
        self.unary(op, value)
    }

    /// The negation.
    pub fn neg(&mut self, value: Value) -> (r: Value)
        requires
            old(self).wf(),
            owns(old(self)@, value),
            room(old(self)@, 1),
        ensures
            final(self).wf(),
            pointwise_one(old(self)@, final(self)@, old(self)@.ops.neg, value, r),
    {
        proof {
            lemma_op_list(self@.ops);
            assert(op_list(self@.ops)[13] == self@.ops.neg);
        }
        let op = self.ops.neg;
        self.unary(op, value)
    }

    /// The absolute value.
    pub fn abs(&mut self, value: Value) -> (r: Value)
        requires
            old(self).wf(),
            owns(old(self)@, value),
            room(old(self)@, 1),
        ensures
            final(self).wf(),
            pointwise_one(old(self)@, final(self)@, old(self)@.ops.abs, value, r),
    {
        proof {
            lemma_op_list(self@.ops);
            assert(op_list(self@.ops)[14] == self@.ops.abs);
        }
        let op = self.ops.abs;
        self.unary(op, value)
    }

    /// A copy.
    pub fn identity(&mut self, value: Value) -> (r: Value)
        requires
            old(self).wf(),
            owns(old(self)@, value),
            room(old(self)@, 1),
        ensures
            final(self).wf(),
            pointwise_one(old(self)@, final(self)@, old(self)@.ops.identity, value, r),
    {
        proof {
            lemma_op_list(self@.ops);
            assert(op_list(self@.ops)[15] == self@.ops.identity);
        }
        let op = self.ops.identity;
        self.unary(op, value)
    }

}

proof fn lemma_mul4_commutes(a: nat, b: nat, c: nat, d: nat)
    by (nonlinear_arith)
    ensures
        a * b * d * c == a * b * c * d,
        a * c * b * d == a * b * c * d,
        a * c * d * b == a * b * c * d,
        a * d * b * c == a * b * c * d,
        a * d * c * b == a * b * c * d,
        b * a * c * d == a * b * c * d,
        b * a * d * c == a * b * c * d,
        b * c * a * d == a * b * c * d,
        b * c * d * a == a * b * c * d,
        b * d * a * c == a * b * c * d,
        b * d * c * a == a * b * c * d,
        c * a * b * d == a * b * c * d,
        c * a * d * b == a * b * c * d,
        c * b * a * d == a * b * c * d,
        c * b * d * a == a * b * c * d,
        c * d * a * b == a * b * c * d,
        c * d * b * a == a * b * c * d,
        d * a * b * c == a * b * c * d,
        d * a * c * b == a * b * c * d,
        d * b * a * c == a * b * c * d,
        d * b * c * a == a * b * c * d,
        d * c * a * b == a * b * c * d,
        d * c * b * a == a * b * c * d,
{
}

/// The dims of a value walked in the order `order` names its axes.
pub open spec fn permuted(d: Seq<nat>, order: Seq<u32>) -> Seq<nat> {
    Seq::new(4, |a: int| d[order[a] as int])
}

/// The strides of a value walked in the order `order` names its axes.
pub open spec fn permuted_strides(s: Seq<u32>, order: Seq<u32>) -> Seq<u32> {
    Seq::new(4, |a: int| s[order[a] as int])
}

/// An order that names each of the four axes once.
pub open spec fn permutation(order: Seq<u32>) -> bool {
    &&& order.len() == 4
    &&& forall|a: int| 0 <= a < 4 ==> order[a] < 4
    &&& forall|a: int, b: int| 0 <= a < 4 && 0 <= b < 4 && a != b ==> order[a] != order[b]
}

proof fn lemma_permuted_product(d: Seq<nat>, order: Seq<u32>)
    requires
        valid_dims(d),
        permutation(order),
    ensures
        product(permuted(d, order)) == product(d),
        valid_dims(permuted(d, order)),
{
    let p = permuted(d, order);
    lemma_mul4_commutes(d[0], d[1], d[2], d[3]);
    assert(p[0] == d[order[0] as int] && p[1] == d[order[1] as int] && p[2] == d[order[2] as int]
        && p[3] == d[order[3] as int]);
    assert(order[0] < 4 && order[1] < 4 && order[2] < 4 && order[3] < 4);
    assert(order[0] != order[1] && order[0] != order[2] && order[0] != order[3] && order[1] != order[2]
        && order[1] != order[3] && order[2] != order[3]);
}

/// Narrowing the last axis narrows the count of numbers.
proof fn lemma_columns_product(d: Seq<nat>, c: nat)
    requires
        valid_dims(d),
    ensures
        product(with_columns(d, c)) == d[0] * d[1] * d[2] * c,
        c <= d[3] ==> product(with_columns(d, c)) <= product(d),
{
    let e = with_columns(d, c);
    assert(e[0] == d[0] && e[1] == d[1] && e[2] == d[2] && e[3] == c);
    assert(c <= d[3] ==> d[0] * d[1] * d[2] * c <= d[0] * d[1] * d[2] * d[3]) by (nonlinear_arith);
}

/// A value that walks the storage of `storage` with `shape`, neither retained
/// nor written in place.
pub open spec fn viewed(info: ValueInfo, shape: Shape, storage: u32, element: Element, grad: bool) -> bool {
    &&& info.shape == shape
    &&& info.storage == storage
    &&& info.element == element
    &&& info.residency == Residency::View
    &&& info.requires_grad == grad
    &&& !info.retained
    &&& !info.written_in_place
    &&& info.seed is None
}

impl Graph {
    /// A task that folds each row of a value stored row by row into a row of the same shape.
    fn rows(&mut self, kind: Kind, value: Value) -> (r: Value)
        requires
            old(self).wf(),
            owns(old(self)@, value),
            room(old(self)@, 1),
            laid_out(old(self)@, value),
            kind != Kind::Binary && kind != Kind::Unary,
        ensures
            final(self).wf(),
            derives(old(self)@, final(self)@, value.form()@, tracks(old(self)@, value), r),
            plain_task(final(self)@.tasks.last(), kind, old(self)@.ops.none, r.ident(),
                inputs_of(value.ident(), NO_VALUE, NO_VALUE)),
    {
        let grad = self.tracks(value);
        let inputs = [value.id, NO_VALUE, NO_VALUE, NO_VALUE, NO_VALUE, NO_VALUE];
        assert(inputs@ =~= inputs_of(value.ident(), NO_VALUE, NO_VALUE));
        self.derive(value.shape, grad, kind, self.ops.none, inputs)
    }

    /// The softmax of each row.
    pub fn softmax(&mut self, value: Value) -> (r: Value)
        requires
            old(self).wf(),
            owns(old(self)@, value),
            room(old(self)@, 1),
            laid_out(old(self)@, value),
        ensures
            final(self).wf(),
            derives(old(self)@, final(self)@, value.form()@, tracks(old(self)@, value), r),
            plain_task(final(self)@.tasks.last(), Kind::Softmax, old(self)@.ops.none, r.ident(),
                inputs_of(value.ident(), NO_VALUE, NO_VALUE)),
    {
        self.rows(Kind::Softmax, value)
    }

    /// The logarithm of the softmax of each row.
    pub fn log_softmax(&mut self, value: Value) -> (r: Value)
        requires
            old(self).wf(),
            owns(old(self)@, value),
            room(old(self)@, 1),
            laid_out(old(self)@, value),
        ensures
            final(self).wf(),
            derives(old(self)@, final(self)@, value.form()@, tracks(old(self)@, value), r),
            plain_task(final(self)@.tasks.last(), Kind::LogSoftmax, old(self)@.ops.none, r.ident(),
                inputs_of(value.ident(), NO_VALUE, NO_VALUE)),
    {
        self.rows(Kind::LogSoftmax, value)
    }

    /// A task that picks one index per row of a value stored row by row.
    fn choice(&mut self, kind: Kind, source: Value, seed: u32) -> (r: Value)
        requires
            old(self).wf(),
            owns(old(self)@, source),
            room(old(self)@, 1),
            names(old(self)@, seed),
            laid_out(old(self)@, source),
            kind != Kind::Binary && kind != Kind::Unary,
        ensures
            final(self).wf(),
            derives(old(self)@, final(self)@, with_columns(source.form()@, 1), false, r),
            plain_task(final(self)@.tasks.last(), kind, old(self)@.ops.none, r.ident(),
                inputs_of(source.ident(), seed, NO_VALUE)),
    {
        let d = source.shape.dims();
        proof {
            lemma_columns_product(source.form()@, 1);
            assert(seq![d[0] as nat, d[1] as nat, d[2] as nat, 1nat] =~= with_columns(source.form()@, 1));
        }
        let shape = shape4(d[0], d[1], d[2], 1);
        let inputs = [source.id, seed, NO_VALUE, NO_VALUE, NO_VALUE, NO_VALUE];
        assert(inputs@ =~= inputs_of(source.ident(), seed, NO_VALUE));
        self.derive(shape, false, kind, self.ops.none, inputs)
    }

    /// The index of the largest number of each row.
    pub fn argmax(&mut self, value: Value) -> (r: Value)
        requires
            old(self).wf(),
            owns(old(self)@, value),
            room(old(self)@, 1),
            laid_out(old(self)@, value),
        ensures
            final(self).wf(),
            derives(old(self)@, final(self)@, with_columns(value.form()@, 1), false, r),
            plain_task(final(self)@.tasks.last(), Kind::Argmax, old(self)@.ops.none, r.ident(),
                inputs_of(value.ident(), NO_VALUE, NO_VALUE)),
    {
        self.choice(Kind::Argmax, value, NO_VALUE)
    }

    /// An index drawn from each row of logits, from the one number of `seed`.
    pub fn categorical(&mut self, logits: Value, seed: Value) -> (r: Value)
        requires
            old(self).wf(),
            owns(old(self)@, logits),
            owns(old(self)@, seed),
            room(old(self)@, 1),
            product(seed.form()@) == 1,
            laid_out(old(self)@, logits),
        ensures
            final(self).wf(),
            derives(old(self)@, final(self)@, with_columns(logits.form()@, 1), false, r),
            plain_task(final(self)@.tasks.last(), Kind::Categorical, old(self)@.ops.none, r.ident(),
                inputs_of(logits.ident(), seed.ident(), NO_VALUE)),
    {
        self.choice(Kind::Categorical, logits, seed.id)
    }

    /// A one hot row of `classes` numbers for each index of a list of indices.
    pub fn one_hot(&mut self, indices: Value, classes: u32) -> (r: Value)
        requires
            old(self).wf(),
            owns(old(self)@, indices),
            room(old(self)@, 1),
            indices.form()@[3] == 1,
            laid_out(old(self)@, indices),
            classes > 0,
            addressable(with_columns(indices.form()@, classes as nat)),
        ensures
            final(self).wf(),
            derives(old(self)@, final(self)@, with_columns(indices.form()@, classes as nat), false, r),
            plain_task(final(self)@.tasks.last(), Kind::OneHot, old(self)@.ops.none, r.ident(),
                inputs_of(indices.ident(), NO_VALUE, NO_VALUE)),
    {
        let d = indices.shape.dims();
        proof {
            lemma_columns_product(indices.form()@, classes as nat);
            assert(seq![d[0] as nat, d[1] as nat, d[2] as nat, classes as nat] =~= with_columns(indices.form()@, classes as nat));
        }
        let shape = shape4(d[0], d[1], d[2], classes);
        let inputs = [indices.id, NO_VALUE, NO_VALUE, NO_VALUE, NO_VALUE, NO_VALUE];
        assert(inputs@ =~= inputs_of(indices.ident(), NO_VALUE, NO_VALUE));
        self.derive(shape, false, Kind::OneHot, self.ops.none, inputs)
    }

    /// The rows of a table that a list of indices names.
    pub fn gather(&mut self, table: Value, indices: Value) -> (r: Value)
        requires
            old(self).wf(),
            owns(old(self)@, table),
            owns(old(self)@, indices),
            room(old(self)@, 1),
            indices.form()@[3] == 1,
            laid_out(old(self)@, indices),
            laid_out(old(self)@, table),
            addressable(with_columns(indices.form()@, table.form()@[3])),
        ensures
            final(self).wf(),
            derives(old(self)@, final(self)@, with_columns(indices.form()@, table.form()@[3]),
                tracks(old(self)@, table), r),
            plain_task(final(self)@.tasks.last(), Kind::Gather, old(self)@.ops.none, r.ident(),
                inputs_of(table.ident(), indices.ident(), NO_VALUE)),
    {
        let d = indices.shape.dims();
        let t = table.shape.dims();
        proof {
            lemma_columns_product(indices.form()@, table.form()@[3]);
            assert(seq![d[0] as nat, d[1] as nat, d[2] as nat, t[3] as nat] =~= with_columns(indices.form()@, table.form()@[3]));
        }
        let shape = shape4(d[0], d[1], d[2], t[3]);
        let grad = self.tracks(table);
        let inputs = [table.id, indices.id, NO_VALUE, NO_VALUE, NO_VALUE, NO_VALUE];
        assert(inputs@ =~= inputs_of(table.ident(), indices.ident(), NO_VALUE));
        self.derive(shape, grad, Kind::Gather, self.ops.none, inputs)
    }

    /// The sum of every number of a value stored row by row.
    pub fn sum(&mut self, value: Value) -> (r: Value)
        requires
            old(self).wf(),
            owns(old(self)@, value),
            room(old(self)@, 1),
            laid_out(old(self)@, value),
        ensures
            final(self).wf(),
            derives(old(self)@, final(self)@, seq![1nat, 1, 1, 1], tracks(old(self)@, value), r),
            plain_task(final(self)@.tasks.last(), Kind::SumChunk, old(self)@.ops.none, r.ident(),
                inputs_of(value.ident(), NO_VALUE, NO_VALUE)),
    {
        let grad = self.tracks(value);
        let inputs = [value.id, NO_VALUE, NO_VALUE, NO_VALUE, NO_VALUE, NO_VALUE];
        assert(inputs@ =~= inputs_of(value.ident(), NO_VALUE, NO_VALUE));
        self.derive(Shape::scalar(), grad, Kind::SumChunk, self.ops.none, inputs)
    }

    /// The sums along one axis.
    fn fold(&mut self, value: Value, axis: u32) -> (r: Value)
        requires
            old(self).wf(),
            owns(old(self)@, value),
            room(old(self)@, 1),
            axis < 4,
            value.form()@[axis as int] > 1,
        ensures
            final(self).wf(),
            derives(old(self)@, final(self)@, value.form()@.update(axis as int, 1nat), tracks(old(self)@, value), r),
            task_is(final(self)@.tasks.last(), Kind::SumAxis, old(self)@.ops.none, r.ident(),
                inputs_of(value.ident(), NO_VALUE, NO_VALUE), NO_VALUE, axis, 0, unit_window(), false),
    {
        let shape = value.shape.reduced(axis);
        let grad = self.tracks(value);
        let out = self.hold(shape, Residency::Derived, Element::Single, None, grad);
        let inputs = [value.id, NO_VALUE, NO_VALUE, NO_VALUE, NO_VALUE, NO_VALUE];
        assert(inputs@ =~= inputs_of(value.ident(), NO_VALUE, NO_VALUE));
        let mut task = TaskInfo::of(Kind::SumAxis, self.ops.none, out.id, inputs);
        task.slot = axis;
        self.record(task);
        out
    }

    /// The sum of each row.
    pub fn sum_rows(&mut self, value: Value) -> (r: Value)
        requires
            old(self).wf(),
            owns(old(self)@, value),
            room(old(self)@, 1),
            value.form()@[3] > 1,
        ensures
            final(self).wf(),
            derives(old(self)@, final(self)@, value.form()@.update(3, 1nat), tracks(old(self)@, value), r),
            task_is(final(self)@.tasks.last(), Kind::SumAxis, old(self)@.ops.none, r.ident(),
                inputs_of(value.ident(), NO_VALUE, NO_VALUE), NO_VALUE, 3, 0, unit_window(), false),
    {
        self.fold(value, 3)
    }

    /// A value spread over `shape`.
    fn broadcast(&mut self, source: Value, shape: Shape) -> (r: Value)
        requires
            old(self).wf(),
            owns(old(self)@, source),
            room(old(self)@, 1),
            spreads_over(source.form()@, shape@),
        ensures
            final(self).wf(),
            derives(old(self)@, final(self)@, shape@, false, r),
            r.form() == shape,
            plain_task(final(self)@.tasks.last(), Kind::Broadcast, old(self)@.ops.none, r.ident(),
                inputs_of(source.ident(), NO_VALUE, NO_VALUE)),
    {
        let inputs = [source.id, NO_VALUE, NO_VALUE, NO_VALUE, NO_VALUE, NO_VALUE];
        assert(inputs@ =~= inputs_of(source.ident(), NO_VALUE, NO_VALUE));
        self.derive(shape, false, Kind::Broadcast, self.ops.none, inputs)
    }

    /// The same numbers read through another shape, row by row.
    pub fn reshape(&mut self, value: Value, shape: Shape) -> (r: Value)
        requires
            old(self).wf(),
            owns(old(self)@, value),
            room(old(self)@, 1),
            laid_out(old(self)@, value),
            product(shape@) == product(value.form()@),
        ensures
            final(self).wf(),
            grown(old(self)@, final(self)@, 1, 0),
            handle(old(self)@, r, old(self)@.values.len(), shape),
            row_by_row(final(self)@.values.last()),
            viewed(final(self)@.values.last(), shape, old(self)@.values[value.ident() as int].storage,
                old(self)@.values[value.ident() as int].element, tracks(old(self)@, value)),
    {
        proof {
            lemma_wf_value(self@, value.ident() as int);
        }
        let info = self.values[value.id as usize];
        let r = self.alias(shape, shape.strides(), info.storage, info.element, info.requires_grad);
        proof {
            let last = self@.values.last();
            assert forall|a: int| 0 <= a < 4 implies (#[trigger] last.strides@[a]) as nat == contiguous_stride(last.shape@, a) by {}
        }
        r
    }

    /// The same numbers walked with their axes in the order `order` names them.
    pub fn permute(&mut self, value: Value, order: [u32; 4]) -> (r: Value)
        requires
            old(self).wf(),
            owns(old(self)@, value),
            room(old(self)@, 1),
            permutation(order@),
        ensures
            final(self).wf(),
            grown(old(self)@, final(self)@, 1, 0),
            handle(old(self)@, r, old(self)@.values.len(), r.form()),
            r.form()@ == permuted(value.form()@, order@),
            final(self)@.values.last().strides@ == permuted_strides(old(self)@.values[value.ident() as int].strides@, order@),
            viewed(final(self)@.values.last(), r.form(), old(self)@.values[value.ident() as int].storage,
                old(self)@.values[value.ident() as int].element, tracks(old(self)@, value)),
    {
        proof {
            lemma_wf_value(self@, value.ident() as int);
            use_type_invariant(&value.shape);
            lemma_permuted_product(value.form()@, order@);
        }
        let info = self.values[value.id as usize];
        let d = info.shape.dims();
        let st = info.strides;
        let o0 = order[0] as usize;
        let o1 = order[1] as usize;
        let o2 = order[2] as usize;
        let o3 = order[3] as usize;
        let strides = [st[o0], st[o1], st[o2], st[o3]];
        proof {
            assert(seq![d[o0 as int] as nat, d[o1 as int] as nat, d[o2 as int] as nat, d[o3 as int] as nat]
                =~= permuted(value.form()@, order@));
            assert(strides@ =~= permuted_strides(info.strides@, order@));
        }
        let shape = shape4(d[o0], d[o1], d[o2], d[o3]);
        self.alias(shape, strides, info.storage, info.element, info.requires_grad)
    }
}

/// The scale of an attention and whether each query sees only the keys up to
/// its own position. The scale is the bit pattern of a 32-bit float.
#[derive(Clone, Copy, PartialEq, Eq, Debug, Hash, Structural)]
pub struct AttentionOptions {
    pub scale: u32,
    pub causal: bool,
}

/// Whether the float with bits `bits` is finite and not zero.
pub open spec fn weighs(bits: u32) -> bool {
    (bits >> 23u32) & 0xffu32 != 0xffu32 && bits & 0x7fff_ffffu32 != 0
}

/// The positions a window reaches along an axis of `size` numbers.
pub open spec fn positions(size: nat, pad: nat, reach: nat, stride: nat) -> nat {
    ((size + 2 * pad - reach) / (stride as int) + 1) as nat
}

/// Whether a padded axis stays in a 32-bit count and holds the reach of a window.
pub open spec fn walkable(size: nat, pad: nat, reach: nat) -> bool {
    size + 2 * pad <= u32::MAX && size + 2 * pad >= reach
}

/// A value the host fills.
pub open spec fn leaf(r: Residency) -> bool {
    r == Residency::Input || r == Residency::Parameter || r == Residency::Resident
}

/// Whether `operand` may update `target` in place: the target is a leaf stored
/// row by row, the operand reads its storage only the way the target walks it,
/// and the operand spreads over the target.
pub open spec fn updatable(g: GraphView, target: Value, operand: Value) -> bool {
    let t = g.values[target.ident() as int];
    let o = g.values[operand.ident() as int];
    &&& leaf(t.residency)
    &&& row_by_row(t)
    &&& (o.storage != t.storage || o.strides@ == t.strides@)
    &&& spreads_over(operand.form()@, target.form()@)
}

/// Whether `updates` scatter into the rows of `target` that `indices` names.
pub open spec fn scatterable(g: GraphView, target: Value, indices: Value, updates: Value) -> bool {
    &&& indices.form()@[3] == 1
    &&& laid_out(g, indices)
    &&& laid_out(g, target)
    &&& laid_out(g, updates)
    &&& updates.form()@ == with_columns(indices.form()@, target.form()@[3])
}

/// The graph after a task writes `target` in place.
pub open spec fn wrote(before: GraphView, after: GraphView, target: Value) -> bool {
    &&& after.instance == before.instance
    &&& after.ops == before.ops
    &&& after.differentiated == before.differentiated
    &&& after.updated_in_place
    &&& after.values == before.values.update(target.ident() as int, written(before.values[target.ident() as int]))
    &&& after.tasks.len() == before.tasks.len() + 1
    &&& forall|t: int| 0 <= t < before.tasks.len() ==> #[trigger] after.tasks[t] == before.tasks[t]
}

proof fn lemma_wf_written(before: GraphView, after: GraphView, target: Value)
    requires
        graph_wf(before),
        owns(before, target),
        after == (GraphView {
            values: before.values.update(target.ident() as int, written(before.values[target.ident() as int])),
            updated_in_place: true,
            ..before
        }),
    ensures
        graph_wf(after),
{
    let mid = GraphView { values: before.values.update(target.ident() as int, written(before.values[target.ident() as int])), ..before };
    lemma_wf_mark(before, mid, target.ident() as int, written(before.values[target.ident() as int]));
    reveal(graph_wf);
}

impl Graph {
    /// Marks a leaf as written in place.
    fn wrote_in_place(&mut self, target: Value)
        requires
            old(self).wf(),
            owns(old(self)@, target),
        ensures
            final(self).wf(),
            final(self)@ == (GraphView {
                values: old(self)@.values.update(target.ident() as int, written(old(self)@.values[target.ident() as int])),
                updated_in_place: true,
                ..old(self)@
            }),
    {
        let mut info = self.values[target.id as usize];
        info.written_in_place = true;
        self.values.set(target.id as usize, info);
        self.updated_in_place = true;
        proof {
            assert(self@.values =~= old(self)@.values.update(target.ident() as int, written(old(self)@.values[target.ident() as int])));
            lemma_wf_written(old(self)@, self@, target);
        }
    }

    /// Records a task that writes `target` in place from `operand`.
    fn write_in_place(&mut self, kind: Kind, op: u32, target: Value, operand: Value, third: u32)
        requires
            old(self).wf(),
            owns(old(self)@, target),
            owns(old(self)@, operand),
            names(old(self)@, third),
            (kind == Kind::Binary || kind == Kind::Unary) ==> exists|i: int|
                0 <= i < 16 && #[trigger] op_list(old(self)@.ops)[i].code == op && op_list(old(self)@.ops)[i].kind == kind,
        ensures
            final(self).wf(),
            grown(old(self)@, final(self)@, 0, 1),
            final(self)@.values == old(self)@.values,
            task_is(final(self)@.tasks.last(), kind, op, target.ident(), inputs_of(target.ident(), operand.ident(), third),
                NO_VALUE, 0, 0, unit_window(), true),
    {
        let inputs = [target.id, operand.id, third, NO_VALUE, NO_VALUE, NO_VALUE];
        assert(inputs@ =~= inputs_of(target.ident(), operand.ident(), third));
        let mut task = TaskInfo::of(kind, op, target.id, inputs);
        task.in_place = true;
        proof {
            assert forall|k: int| 0 <= k < 6 implies names(self@, #[trigger] task.inputs@[k]) by {}
        }
        self.record(task);
    }

    /// Whether `operand` may update `target` in place.
    pub fn updatable(&self, target: Value, operand: Value) -> (r: bool)
        requires
            self.wf(),
            owns(self@, target),
            owns(self@, operand),
        ensures
            r == updatable(self@, target, operand),
    {
        let t = self.values[target.id as usize];
        let o = self.values[operand.id as usize];
        let leaf = match t.residency {
            Residency::Input | Residency::Parameter | Residency::Resident => true,
            _ => false,
        };
        let same = o.strides[0] == t.strides[0] && o.strides[1] == t.strides[1] && o.strides[2] == t.strides[2]
            && o.strides[3] == t.strides[3];
        proof {
            if same {
                assert(o.strides@ =~= t.strides@);
            }
        }
        leaf && self.laid_out(target) && (o.storage != t.storage || same) && operand.shape.fits_within(target.shape)
    }

    /// Adds `addend` into the leaf `target`.
    pub fn add_into(&mut self, target: Value, addend: Value)
        requires
            old(self).wf(),
            owns(old(self)@, target),
            owns(old(self)@, addend),
            updatable(old(self)@, target, addend),
        ensures
            final(self).wf(),
            wrote(old(self)@, final(self)@, target),
            task_is(final(self)@.tasks.last(), old(self)@.ops.add.kind, old(self)@.ops.add.code, target.ident(),
                inputs_of(target.ident(), addend.ident(), NO_VALUE), NO_VALUE, 0, 0, unit_window(), true),
    {
        proof {
            lemma_op_list(self@.ops);
            assert(op_list(self@.ops)[0] == self@.ops.add);
        }
        let op = self.ops.add;
        self.write_in_place(op.kind, op.code, target, addend, NO_VALUE);
        self.wrote_in_place(target);
    }

    /// Multiplies the leaf `target` by `factor`.
    pub fn mul_into(&mut self, target: Value, factor: Value)
        requires
            old(self).wf(),
            owns(old(self)@, target),
            owns(old(self)@, factor),
            updatable(old(self)@, target, factor),
        ensures
            final(self).wf(),
            wrote(old(self)@, final(self)@, target),
            task_is(final(self)@.tasks.last(), old(self)@.ops.mul.kind, old(self)@.ops.mul.code, target.ident(),
                inputs_of(target.ident(), factor.ident(), NO_VALUE), NO_VALUE, 0, 0, unit_window(), true),
    {
        proof {
            lemma_op_list(self@.ops);
            assert(op_list(self@.ops)[1] == self@.ops.mul);
        }
        let op = self.ops.mul;
        self.write_in_place(op.kind, op.code, target, factor, NO_VALUE);
        self.wrote_in_place(target);
    }

    /// Copies `source` into the leaf `target`.
    pub fn copy_into(&mut self, target: Value, source: Value)
        requires
            old(self).wf(),
            owns(old(self)@, target),
            owns(old(self)@, source),
            updatable(old(self)@, target, source),
        ensures
            final(self).wf(),
            wrote(old(self)@, final(self)@, target),
            task_is(final(self)@.tasks.last(), Kind::Unary, old(self)@.ops.identity.code, target.ident(),
                inputs_of(source.ident(), NO_VALUE, NO_VALUE), NO_VALUE, 0, 0, unit_window(), true),
    {
        proof {
            lemma_op_list(self@.ops);
            lemma_wf_bounds(self@);
            reveal(ops_valid);
            assert(op_list(self@.ops)[15] == self@.ops.identity);
            assert(op_list(self@.ops)[15].kind == Kind::Unary);
        }
        let inputs = [source.id, NO_VALUE, NO_VALUE, NO_VALUE, NO_VALUE, NO_VALUE];
        assert(inputs@ =~= inputs_of(source.ident(), NO_VALUE, NO_VALUE));
        let mut task = TaskInfo::of(Kind::Unary, self.ops.identity.code, target.id, inputs);
        task.in_place = true;
        proof {
            assert forall|k: int| 0 <= k < 6 implies names(self@, #[trigger] task.inputs@[k]) by {}
        }
        self.record(task);
        self.wrote_in_place(target);
    }

    /// Records a task that writes `updates` into the rows of `target` that `indices` names.
    fn scatter(&mut self, target: Value, indices: Value, updates: Value)
        requires
            old(self).wf(),
            owns(old(self)@, target),
            owns(old(self)@, indices),
            owns(old(self)@, updates),
            scatterable(old(self)@, target, indices, updates),
        ensures
            final(self).wf(),
            grown(old(self)@, final(self)@, 0, 1),
            final(self)@.values == old(self)@.values,
            task_is(final(self)@.tasks.last(), Kind::Scatter, old(self)@.ops.none, target.ident(),
                inputs_of(target.ident(), indices.ident(), updates.ident()), NO_VALUE, 0, 0, unit_window(), true),
    {
        let none = self.ops.none;
        self.write_in_place(Kind::Scatter, none, target, indices, updates.id);
    }

    /// Writes `updates` into the rows of the leaf `target` that `indices` names.
    pub fn scatter_into(&mut self, target: Value, indices: Value, updates: Value)
        requires
            old(self).wf(),
            owns(old(self)@, target),
            owns(old(self)@, indices),
            owns(old(self)@, updates),
            leaf(old(self)@.values[target.ident() as int].residency),
            scatterable(old(self)@, target, indices, updates),
        ensures
            final(self).wf(),
            wrote(old(self)@, final(self)@, target),
            task_is(final(self)@.tasks.last(), Kind::Scatter, old(self)@.ops.none, target.ident(),
                inputs_of(target.ident(), indices.ident(), updates.ident()), NO_VALUE, 0, 0, unit_window(), true),
    {
        self.scatter(target, indices, updates);
        self.wrote_in_place(target);
    }
}

/// The dims of an attention: a row of values for each query.
pub open spec fn attention_dims(q: Seq<nat>, v: Seq<nat>) -> Seq<nat> {
    seq![q[0], q[1], q[2], v[3]]
}

/// Whether queries, keys and values meet in an attention of `options`.
pub open spec fn attends(q: Seq<nat>, k: Seq<nat>, v: Seq<nat>, options: AttentionOptions) -> bool {
    &&& weighs(options.scale)
    &&& q[0] == k[0] && q[1] == k[1]
    &&& k[0] == v[0] && k[1] == v[1]
    &&& q[3] == k[3]
    &&& k[2] == v[2]
    &&& options.causal ==> q[2] == k[2]
    &&& addressable(attention_dims(q, v))
}

/// The dims a convolution of `input` by `filter` through `window` derives.
pub open spec fn conv_dims(i: Seq<nat>, f: Seq<nat>, w: WindowView) -> Seq<nat> {
    seq![i[0], f[0], positions(i[2], w.pad_rows, w.reach_rows, w.stride_rows),
        positions(i[3], w.pad_columns, w.reach_columns, w.stride_columns)]
}

/// Whether a filter convolves an input through a window.
pub open spec fn convolves(i: Seq<nat>, f: Seq<nat>, w: WindowView) -> bool {
    &&& i[1] % f[1] == 0
    &&& f[0] % (i[1] / f[1]) == 0
    &&& f[2] == w.reach_rows && f[3] == w.reach_columns
    &&& walkable(i[2], w.pad_rows, f[2])
    &&& walkable(i[3], w.pad_columns, f[3])
    &&& addressable(conv_dims(i, f, w))
}

/// The dims a pooling of `input` through `window` derives.
pub open spec fn pool_dims(i: Seq<nat>, w: WindowView) -> Seq<nat> {
    seq![i[0], i[1], positions(i[2], w.pad_rows, w.reach_rows, w.stride_rows),
        positions(i[3], w.pad_columns, w.reach_columns, w.stride_columns)]
}

/// Whether a window pools an input.
pub open spec fn pools(i: Seq<nat>, w: WindowView) -> bool {
    &&& walkable(i[2], w.pad_rows, w.reach_rows)
    &&& walkable(i[3], w.pad_columns, w.reach_columns)
    &&& addressable(pool_dims(i, w))
}

/// The kind of task a pooling mode records.
pub open spec fn pool_kind(mode: Pool) -> Kind {
    match mode {
        Pool::Max => Kind::PoolMax2d,
        Pool::Mean => Kind::PoolMean2d,
    }
}

/// The positions of a window along one axis.
fn walk(size: u32, pad: u32, reach: u32, stride: u32) -> (r: u32)
    requires
        walkable(size as nat, pad as nat, reach as nat),
        stride > 0,
        reach > 0,
    ensures
        r == positions(size as nat, pad as nat, reach as nat, stride as nat),
        r > 0,
{
    let padded = size + 2 * pad;
    (padded - reach) / stride + 1
}

impl Graph {
    /// Whether the float with bits `scale` is finite and not zero.
    pub fn weighs(scale: u32) -> (r: bool)
        ensures
            r == weighs(scale),
    {
        (scale >> 23u32) & 0xffu32 != 0xffu32 && scale & 0x7fff_ffffu32 != 0
    }

    /// The attention of queries over keys weighing values, and the log sum of
    /// the weights of each query, which its gradient reads.
    pub fn attention(&mut self, query: Value, key: Value, value: Value, options: AttentionOptions) -> (r: Value)
        requires
            old(self).wf(),
            owns(old(self)@, query),
            owns(old(self)@, key),
            owns(old(self)@, value),
            room(old(self)@, 2),
            attends(query.form()@, key.form()@, value.form()@, options),
        ensures
            final(self).wf(),
            grown(old(self)@, final(self)@, 2, 1),
            handle(old(self)@, r, old(self)@.values.len(), r.form()),
            r.form()@ == attention_dims(query.form()@, value.form()@),
            holds(final(self)@.values[old(self)@.values.len() as int], r.form(), old(self)@.values.len(), Element::Single,
                Residency::Derived, tracks(old(self)@, query) || tracks(old(self)@, key) || tracks(old(self)@, value), None),
            final(self)@.values.last().shape@ == with_columns(query.form()@, 1),
            holds(final(self)@.values.last(), final(self)@.values.last().shape, old(self)@.values.len() + 1,
                Element::Single, Residency::Derived, false, None),
            task_is(final(self)@.tasks.last(), Kind::Attention, old(self)@.ops.none, r.ident(),
                inputs_of(query.ident(), key.ident(), value.ident()), (old(self)@.values.len() + 1) as u32,
                if options.causal { 1 } else { 0 }, options.scale, unit_window(), false),
    {
        let q = query.shape.dims();
        let v = value.shape.dims();
        proof {
            use_type_invariant(&query.shape);
            assert(seq![q[0] as nat, q[1] as nat, q[2] as nat, v[3] as nat] =~= attention_dims(query.form()@, value.form()@));
            lemma_columns_product(query.form()@, 1);
            assert(seq![q[0] as nat, q[1] as nat, q[2] as nat, 1nat] =~= with_columns(query.form()@, 1));
            lemma_columns_product(query.form()@, v[3] as nat);
            assert(with_columns(query.form()@, v[3] as nat) =~= attention_dims(query.form()@, value.form()@));
            assert(q[0] * q[1] * q[2] * 1 <= q[0] * q[1] * q[2] * v[3]) by (nonlinear_arith)
                requires
                    v[3] >= 1,
            ;
        }
        let grad = self.tracks(query) || self.tracks(key) || self.tracks(value);
        let out = self.hold(shape4(q[0], q[1], q[2], v[3]), Residency::Derived, Element::Single, None, grad);
        let ghost middle = self@;
        let log_sum_exp = self.hold(shape4(q[0], q[1], q[2], 1), Residency::Derived, Element::Single, None, false);
        let inputs = [query.id, key.id, value.id, NO_VALUE, NO_VALUE, NO_VALUE];
        assert(inputs@ =~= inputs_of(query.ident(), key.ident(), value.ident()));
        let mut task = TaskInfo::of(Kind::Attention, self.ops.none, out.id, inputs);
        task.extra = log_sum_exp.id;
        task.param = options.scale;
        task.slot = if options.causal { 1 } else { 0 };
        proof {
            assert forall|k: int| 0 <= k < 6 implies names(self@, #[trigger] task.inputs@[k]) by {}
        }
        self.record(task);
        proof {
            assert(self@.values[old(self)@.values.len() as int] == middle.values[old(self)@.values.len() as int]);
        }
        out
    }

    /// The convolution of an input by a filter through a window, in channel
    /// groups as many as the filter's channels divide the input's.
    pub fn conv2d(&mut self, input: Value, filter: Value, window: Window) -> (r: Value)
        requires
            old(self).wf(),
            owns(old(self)@, input),
            owns(old(self)@, filter),
            room(old(self)@, 1),
            convolves(input.form()@, filter.form()@, window@),
        ensures
            final(self).wf(),
            derives(old(self)@, final(self)@, conv_dims(input.form()@, filter.form()@, window@),
                tracks(old(self)@, input) || tracks(old(self)@, filter), r),
            task_is(final(self)@.tasks.last(), Kind::Conv2d, old(self)@.ops.none, r.ident(),
                inputs_of(input.ident(), filter.ident(), NO_VALUE), NO_VALUE, 0, 0, window@, false),
    {
        let i = input.shape.dims();
        let f = filter.shape.dims();
        let rows = walk(i[2], window.pad_rows(), f[2], window.stride_rows());
        let columns = walk(i[3], window.pad_columns(), f[3], window.stride_columns());
        proof {
            assert(seq![i[0] as nat, f[0] as nat, rows as nat, columns as nat] =~= conv_dims(input.form()@, filter.form()@, window@));
        }
        let shape = shape4(i[0], f[0], rows, columns);
        let grad = self.tracks(input) || self.tracks(filter);
        let out = self.hold(shape, Residency::Derived, Element::Single, None, grad);
        let inputs = [input.id, filter.id, NO_VALUE, NO_VALUE, NO_VALUE, NO_VALUE];
        assert(inputs@ =~= inputs_of(input.ident(), filter.ident(), NO_VALUE));
        let mut task = TaskInfo::of(Kind::Conv2d, self.ops.none, out.id, inputs);
        task.window = window;
        proof {
            assert forall|k: int| 0 <= k < 6 implies names(self@, #[trigger] task.inputs@[k]) by {}
        }
        self.record(task);
        out
    }

    /// The pooling of an input through a window.
    pub fn pool2d(&mut self, input: Value, window: Window, mode: Pool) -> (r: Value)
        requires
            old(self).wf(),
            owns(old(self)@, input),
            room(old(self)@, 1),
            pools(input.form()@, window@),
        ensures
            final(self).wf(),
            derives(old(self)@, final(self)@, pool_dims(input.form()@, window@), tracks(old(self)@, input), r),
            task_is(final(self)@.tasks.last(), pool_kind(mode), old(self)@.ops.none, r.ident(),
                inputs_of(input.ident(), NO_VALUE, NO_VALUE), NO_VALUE, 0, 0, window@, false),
    {
        let i = input.shape.dims();
        let rows = walk(i[2], window.pad_rows(), window.reach_rows(), window.stride_rows());
        let columns = walk(i[3], window.pad_columns(), window.reach_columns(), window.stride_columns());
        proof {
            assert(seq![i[0] as nat, i[1] as nat, rows as nat, columns as nat] =~= pool_dims(input.form()@, window@));
        }
        let shape = shape4(i[0], i[1], rows, columns);
        let grad = self.tracks(input);
        let kind = match mode {
            Pool::Max => Kind::PoolMax2d,
            Pool::Mean => Kind::PoolMean2d,
        };
        let out = self.hold(shape, Residency::Derived, Element::Single, None, grad);
        let inputs = [input.id, NO_VALUE, NO_VALUE, NO_VALUE, NO_VALUE, NO_VALUE];
        assert(inputs@ =~= inputs_of(input.ident(), NO_VALUE, NO_VALUE));
        let mut task = TaskInfo::of(kind, self.ops.none, out.id, inputs);
        task.window = window;
        proof {
            assert forall|k: int| 0 <= k < 6 implies names(self@, #[trigger] task.inputs@[k]) by {}
        }
        self.record(task);
        out
    }
}

/// The graph after values and tasks are appended, the ones before it unchanged.
pub open spec fn extends(before: GraphView, after: GraphView) -> bool {
    &&& after.instance == before.instance
    &&& after.ops == before.ops
    &&& after.differentiated == before.differentiated
    &&& after.updated_in_place == before.updated_in_place
    &&& after.values.len() >= before.values.len()
    &&& after.tasks.len() >= before.tasks.len()
    &&& forall|i: int| 0 <= i < before.values.len() ==> #[trigger] after.values[i] == before.values[i]
    &&& forall|t: int| 0 <= t < before.tasks.len() ==> #[trigger] after.tasks[t] == before.tasks[t]
}

proof fn lemma_grown_extends(before: GraphView, after: GraphView, values: nat, tasks: nat)
    requires
        grown(before, after, values, tasks),
    ensures
        extends(before, after),
{
}

proof fn lemma_extends_chain(a: GraphView, b: GraphView, c: GraphView)
    requires
        extends(a, b),
        extends(b, c),
    ensures
        extends(a, c),
{
    assert forall|i: int| 0 <= i < a.values.len() implies #[trigger] c.values[i] == a.values[i] by {
        assert(c.values[i] == b.values[i]);
    }
    assert forall|t: int| 0 <= t < a.tasks.len() implies #[trigger] c.tasks[t] == a.tasks[t] by {
        assert(c.tasks[t] == b.tasks[t]);
    }
}

proof fn lemma_extends_owns(before: GraphView, after: GraphView, v: Value)
    requires
        extends(before, after),
        owns(before, v),
    ensures
        owns(after, v),
        tracks(after, v) == tracks(before, v),
        laid_out(after, v) == laid_out(before, v),
        after.values[v.ident() as int] == before.values[v.ident() as int],
{
    assert(after.values[v.ident() as int] == before.values[v.ident() as int]);
}

/// The gradients found so far: for each value of the graph before the pass,
/// nothing, or a value of its shape; only owners of storage get one.
pub open spec fn gradients_fit(g: GraphView, count: nat, grads: Seq<Option<u32>>) -> bool {
    &&& grads.len() == count
    &&& count <= g.values.len()
    &&& forall|i: int| 0 <= i < count ==> (#[trigger] g.values[i]).storage < count
    &&& forall|i: int| 0 <= i < count ==> (#[trigger] grads[i]) is Some ==> {
        &&& grads[i]->0 < g.values.len()
        &&& g.values[grads[i]->0 as int].shape == g.values[i].shape
        &&& g.values[i].storage == i
        &&& row_by_row(g.values[grads[i]->0 as int])
    }
}

proof fn lemma_gradients_extend(before: GraphView, after: GraphView, count: nat, grads: Seq<Option<u32>>)
    requires
        gradients_fit(before, count, grads),
        extends(before, after),
    ensures
        gradients_fit(after, count, grads),
{
    assert forall|i: int| 0 <= i < count && (#[trigger] grads[i]) is Some implies {
        &&& grads[i]->0 < after.values.len()
        &&& after.values[grads[i]->0 as int].shape == after.values[i].shape
        &&& after.values[i].storage == i
    } by {
        assert(after.values[grads[i]->0 as int] == before.values[grads[i]->0 as int]);
        assert(after.values[i] == before.values[i]);
    }
    assert forall|i: int| 0 <= i < count implies (#[trigger] after.values[i]).storage < count by {
        assert(after.values[i] == before.values[i]);
    }
}

impl Graph {
    /// The handle of the value with `id`.
    fn value_of(&self, id: u32) -> (r: Value)
        requires
            self.wf(),
            id < self@.values.len(),
        ensures
            owns(self@, r),
            r.ident() == id,
            r.form() == self@.values[id as int].shape,
    {
        Value::of(self.instance, id, self.values[id as usize].shape)
    }

    /// The value that owns the storage of the value with `id`.
    fn owner_of(&self, id: u32) -> (r: u32)
        requires
            self.wf(),
            id < self@.values.len(),
        ensures
            r == self@.values[id as int].storage,
            r < self@.values.len(),
            self@.values[r as int].storage == r,
    {
        proof {
            lemma_wf_value(self@, id as int);
        }
        self.values[id as usize].storage
    }

    /// A gradient as it lands for its owner: the owner's own value, or a view
    /// walked row by row. Nothing where the view walks other strides.
    fn landed(&self, value: Value) -> (r: Option<Value>)
        requires
            self.wf(),
            owns(self@, value),
        ensures
            r matches Some(v) ==> v == value,
            r == if lands(self@, value) { Some(value) } else { None::<Value> },
    {
        if self.owner_of(value.id) == value.id {
            return Some(value);
        }
        if self.laid_out(value) {
            Some(value)
        } else {
            None
        }
    }

    /// A gradient folded back into the shape of the value it belongs to, or
    /// nothing where that shape does not spread over it.
    fn reduced_to(&mut self, gradient: Value, value: Value) -> (r: Option<Value>)
        requires
            old(self).wf(),
            owns(old(self)@, gradient),
            owns(old(self)@, value),
            room(old(self)@, 4),
        ensures
            final(self).wf(),
            extends(old(self)@, final(self)@),
            final(self)@.values.len() <= old(self)@.values.len() + 4,
            r matches Some(v) ==> owns(final(self)@, v) && v.form() == value.form(),
            r is Some <==> (gradient.form() == value.form() || spreads_over(value.form()@, gradient.form()@)),
            gradient.form() == value.form() ==> r == Some(gradient) && final(self)@ == old(self)@,
            r matches Some(v) ==> v == gradient || lands(final(self)@, v),
    {
        proof {
            use_type_invariant(&gradient.shape);
            use_type_invariant(&value.shape);
        }
        if gradient.shape == value.shape {
            proof {
                lemma_extends_chain(old(self)@, self@, self@);
            }
            return Some(gradient);
        }
        if !value.shape.fits_within(gradient.shape) {
            return None;
        }
        let target = value.shape.dims();
        let mut folded = gradient;
        let mut axis: u32 = 4;
        while axis > 0
            invariant
                self.wf(),
                axis <= 4,
                extends(old(self)@, self@),
                room(old(self)@, 4),
                self@.values.len() <= old(self)@.values.len() + 4 - axis,
                owns(self@, folded),
                forall|a: int| 0 <= a < axis ==> folded.form()@[a] == gradient.form()@[a],
                forall|a: int| axis <= a < 4 ==> folded.form()@[a] == value.form()@[a],
                spreads_over(value.form()@, gradient.form()@),
                folded == gradient || (folded.ident() < self@.values.len() && self@.values[folded.ident() as int].storage == folded.ident()),
                target@.len() == 4,
                forall|a: int| 0 <= a < 4 ==> target@[a] as nat == value.form()@[a],
            decreases axis,
        {
            axis -= 1;
            let dims = folded.shape.dims();
            if dims[axis as usize] != target[axis as usize] {
                let ghost before = self@;
                folded = self.fold(folded, axis);
                proof {
                    lemma_grown_extends(before, self@, 1, 1);
                    lemma_extends_chain(old(self)@, before, self@);
                }
            }
        }
        proof {
            use_type_invariant(&folded.shape);
            assert(folded.form()@ =~= value.form()@);
            lemma_shape_determined(folded.form(), value.form());
            if folded == gradient {
                lemma_shape_determined(gradient.form(), value.form());
            }
        }
        Some(folded)
    }
}

/// Whether a contribution to the gradient of `value`'s owner cannot land: a
/// row-by-row view meets a contribution walked another way; a contribution to
/// a value that walks its owner does not spread over the owner; or the owner
/// has no gradient yet and the contribution, of the owner's shape, lands
/// neither in storage of its own nor row by row.
pub open spec fn accumulation_fails(g: GraphView, grads: Seq<Option<u32>>, value: Value, contribution: Value) -> bool {
    let owner = g.values[value.ident() as int].storage;
    let shape = g.values[owner as int].shape;
    ||| !walks_owner(g, value) && laid_out(g, value) && !laid_out(g, contribution)
    ||| walks_owner(g, value) && !(contribution.form() == shape || spreads_over(shape@, contribution.form()@))
    ||| walks_owner(g, value) && contribution.form() == shape && grads[owner as int] is None && !lands(g, contribution)
}

/// Whether the last task of `g` adds a contribution to the gradient `earlier`
/// into the gradient `sum`: the sum of a value's contributions grows by one
/// addition for each contribution after the first.
pub open spec fn summed(g: GraphView, sum: u32, earlier: u32) -> bool {
    &&& g.tasks.len() > 0
    &&& g.tasks.last().kind == g.ops.add.kind
    &&& g.tasks.last().op == g.ops.add.code
    &&& g.tasks.last().out == sum
    &&& g.tasks.last().inputs@[0] == earlier
}

/// Whether a task of `kind` reading `inputs` was appended to `before` on the
/// way to `after`.
pub open spec fn appended(before: GraphView, after: GraphView, kind: Kind, inputs: Seq<u32>) -> bool {
    exists|t: int| before.tasks.len() <= t < after.tasks.len() && (#[trigger] after.tasks[t]).kind == kind
        && after.tasks[t].inputs@ == inputs
}

/// A task appended stays appended as the graph grows.
proof fn lemma_appended_kept(a: GraphView, b: GraphView, c: GraphView, kind: Kind, inputs: Seq<u32>)
    requires
        appended(a, b, kind, inputs),
        extends(b, c),
    ensures
        appended(a, c, kind, inputs),
{
    let t = choose|t: int| a.tasks.len() <= t < b.tasks.len() && (#[trigger] b.tasks[t]).kind == kind && b.tasks[t].inputs@ == inputs;
    assert(c.tasks[t] == b.tasks[t]);
}

/// A task appended to `b` was appended to every graph `b` extends.
proof fn lemma_appended_before(a: GraphView, b: GraphView, c: GraphView, kind: Kind, inputs: Seq<u32>)
    requires
        appended(b, c, kind, inputs),
        extends(a, b),
    ensures
        appended(a, c, kind, inputs),
{
    let t = choose|t: int| b.tasks.len() <= t < c.tasks.len() && (#[trigger] c.tasks[t]).kind == kind && c.tasks[t].inputs@ == inputs;
    assert(a.tasks.len() <= t);
}

/// The formula by which operation `op` passes its gradient to operand `slot`.
pub open spec fn formula(op: Op, slot: int) -> Partial {
    if slot == 0 {
        op.first
    } else {
        op.second
    }
}

/// Whether a partial task of the operation of `task`, for its operand
/// `slot`, reading what `f` weighs by and the gradient `gradient`, was
/// appended to `before` on the way to `after`.
pub open spec fn partial_appended(before: GraphView, after: GraphView, task: TaskInfo, f: Partial, slot: int, gradient: u32) -> bool {
    exists|t: int| before.tasks.len() <= t < after.tasks.len() && (#[trigger] after.tasks[t]).kind == Kind::Partial
        && after.tasks[t].op == task.op && after.tasks[t].slot == slot && after.tasks[t].inputs@[2] == gradient
        && partial_reads(f, task, slot, after.tasks[t].inputs@)
}

proof fn lemma_partial_kept(a: GraphView, b: GraphView, c: GraphView, task: TaskInfo, f: Partial, slot: int, gradient: u32)
    requires
        partial_appended(a, b, task, f, slot, gradient),
        extends(b, c),
    ensures
        partial_appended(a, c, task, f, slot, gradient),
{
    let t = choose|t: int| a.tasks.len() <= t < b.tasks.len() && (#[trigger] b.tasks[t]).kind == Kind::Partial
        && b.tasks[t].op == task.op && b.tasks[t].slot == slot && b.tasks[t].inputs@[2] == gradient
        && partial_reads(f, task, slot, b.tasks[t].inputs@);
    assert(c.tasks[t] == b.tasks[t]);
}

proof fn lemma_partial_before(a: GraphView, b: GraphView, c: GraphView, task: TaskInfo, f: Partial, slot: int, gradient: u32)
    requires
        partial_appended(b, c, task, f, slot, gradient),
        extends(a, b),
    ensures
        partial_appended(a, c, task, f, slot, gradient),
{
    let t = choose|t: int| b.tasks.len() <= t < c.tasks.len() && (#[trigger] c.tasks[t]).kind == Kind::Partial
        && c.tasks[t].op == task.op && c.tasks[t].slot == slot && c.tasks[t].inputs@[2] == gradient
        && partial_reads(f, task, slot, c.tasks[t].inputs@);
    assert(a.tasks.len() <= t);
}

/// Whether `v` is a view of the value `of` with its last two axes swapped.
pub open spec fn transposed_view(g: GraphView, v: int, of: u32) -> bool {
    &&& 0 <= v < g.values.len()
    &&& g.values[v].storage == g.values[of as int].storage
    &&& g.values[v].shape@ == permuted(g.values[of as int].shape@, transposed())
}

/// Whether `i` is the owner of the storage of an operand of `task` that wants
/// a gradient.
pub open spec fn operand_owner(g: GraphView, task: TaskInfo, i: int) -> bool {
    exists|k: int| 0 <= k < 6 && task.inputs@[k] != NO_VALUE && #[trigger] tracked_id(g, task.inputs@[k])
        && g.values[task.inputs@[k] as int].storage == i
}

/// Whether passing back the gradient of `task` changed the gradients only of
/// the owners of its operands that want one.
pub open spec fn only_operands(g: GraphView, task: TaskInfo, before: Seq<Option<u32>>, after: Seq<Option<u32>>) -> bool {
    forall|i: int| 0 <= i < before.len() && !operand_owner(g, task, i) ==> #[trigger] after[i] == before[i]
}

proof fn lemma_operand_owner(g: GraphView, task: TaskInfo, k: int)
    requires
        0 <= k < 6,
        task.inputs@[k] != NO_VALUE,
        tracked_id(g, task.inputs@[k]),
    ensures
        operand_owner(g, task, g.values[task.inputs@[k] as int].storage as int),
{
}

/// The shape of the gradient the output of `task` receives: that of the owner
/// of its storage.
pub open spec fn received(g: GraphView, task: TaskInfo) -> Seq<nat> {
    g.values[g.values[task.out as int].storage as int].shape@
}

/// Whether the pointwise `task` names a defined operation and every operand
/// it reads is named and wants no gradient.
pub open spec fn untracked_pointwise(g: GraphView, task: TaskInfo) -> bool {
    &&& exists|i: int| 0 <= i < 16 && (#[trigger] op_list(g.ops)[i]).code == task.op
    &&& forall|i: int, k: int| 0 <= i < 16 && (#[trigger] op_list(g.ops)[i]).code == task.op && 0 <= k < 2
        && k < op_list(g.ops)[i].operands ==> #[trigger] task.inputs@[k] != NO_VALUE && !tracked_id(g, task.inputs@[k])
}

/// Whether passing a gradient back through `task` is sure to succeed: its
/// operands are named, a sum spreads its gradient over a source that wants
/// one, a pointwise operation passes it to operands of its shape, and a
/// matrix product or a gather passes nothing back; a task that yields
/// indices never takes a gradient.
pub open spec fn passes(g: GraphView, task: TaskInfo) -> bool {
    if task.kind is Argmax || task.kind is Categorical || task.kind is OneHot {
        false
    } else if task.kind is Softmax || task.kind is LogSoftmax || task.kind is PoolMax2d || task.kind is PoolMean2d {
        task.inputs@[0] != NO_VALUE
    } else if task.kind is Attention {
        task.inputs@[0] != NO_VALUE && task.inputs@[1] != NO_VALUE && task.inputs@[2] != NO_VALUE && task.extra != NO_VALUE
    } else if task.kind is Conv2d {
        task.inputs@[0] != NO_VALUE && task.inputs@[1] != NO_VALUE
    } else if task.kind is SumChunk || task.kind is SumAxis {
        task.inputs@[0] != NO_VALUE && (!tracked_id(g, task.inputs@[0])
            || spreads_over(received(g, task), g.values[task.inputs@[0] as int].shape@))
    } else if task.kind is Matmul {
        task.inputs@[0] != NO_VALUE && task.inputs@[1] != NO_VALUE && !tracked_id(g, task.inputs@[0]) && !tracked_id(g, task.inputs@[1])
    } else if task.kind is Gather {
        task.inputs@[0] != NO_VALUE && task.inputs@[1] != NO_VALUE && !tracked_id(g, task.inputs@[0])
    } else if task.kind is Binary || task.kind is Unary {
        &&& exists|i: int| 0 <= i < 16 && (#[trigger] op_list(g.ops)[i]).code == task.op
        &&& forall|i: int, k: int| 0 <= i < 16 && (#[trigger] op_list(g.ops)[i]).code == task.op && 0 <= k < 2
            && k < op_list(g.ops)[i].operands ==> #[trigger] task.inputs@[k] != NO_VALUE
                && (tracked_id(g, task.inputs@[k]) ==> g.values[task.inputs@[k] as int].shape
                    == g.values[g.values[task.out as int].storage as int].shape)
    } else {
        true
    }
}

/// Whether `i` may hold a gradient after a backward pass from the loss whose
/// storage is `loss`: it is that storage, or the owner of an operand that
/// wants a gradient of one of the tasks.
pub open spec fn gradient_reaches(g: GraphView, loss: int, i: int) -> bool {
    i == loss || exists|t: int| 0 <= t < g.tasks.len() && operand_owner(g, #[trigger] g.tasks[t], i)
}

/// Whether the gradient of a gather scatters back into its table: one index
/// per row, indices and gradient walked row by row, and a gradient row of the
/// table's width for each index.
pub open spec fn gather_fits(g: GraphView, table: u32, indices: u32, gradient: Value) -> bool {
    let ix = g.values[indices as int];
    &&& ix.shape@[3] == 1
    &&& row_by_row(ix)
    &&& row_by_row(g.values[gradient.ident() as int])
    &&& gradient.form()@ == with_columns(ix.shape@, g.values[table as int].shape@[3])
}

/// Whether the operands of a pointwise task `op` reads get its gradient: the
/// task names a defined operation, every operand it reads is given, each
/// operand that wants a gradient has the gradient's shape, and the gradient is
/// walked row by row.
pub open spec fn pointwise_fits(g: GraphView, task: TaskInfo, gradient: Value) -> bool {
    &&& exists|i: int| 0 <= i < 16 && (#[trigger] op_list(g.ops)[i]).code == task.op
    &&& forall|i: int, k: int| 0 <= i < 16 && (#[trigger] op_list(g.ops)[i]).code == task.op && 0 <= k < 2
        && k < op_list(g.ops)[i].operands ==> #[trigger] task.inputs@[k] != NO_VALUE
            && (tracked_id(g, task.inputs@[k]) ==> g.values[task.inputs@[k] as int].shape == gradient.form())
    &&& laid_out(g, gradient)
}

/// Whether the gradient of the owner of the storage of the value `id` is found.
pub open spec fn gradient_found(g: GraphView, grads: Seq<Option<u32>>, id: u32) -> bool {
    grads[g.values[id as int].storage as int] is Some
}

/// Whether the value `id` of a task's operands wants a gradient.
pub open spec fn tracked_id(g: GraphView, id: u32) -> bool {
    g.values[id as int].requires_grad
}

/// Whether a gradient lands in storage as it is: it owns its storage, or it is
/// walked row by row.
pub open spec fn lands(g: GraphView, v: Value) -> bool {
    g.values[v.ident() as int].storage == v.ident() || laid_out(g, v)
}

/// Whether a value walks the storage of its owner as the owner does: the same
/// dimensions, with the owner's row-by-row strides.
pub open spec fn walks_owner(g: GraphView, v: Value) -> bool {
    let view = g.values[v.ident() as int];
    let owner = g.values[view.storage as int];
    &&& view.shape@ == owner.shape@
    &&& forall|a: int| 0 <= a < 4 ==> (#[trigger] view.strides@[a]) as nat == contiguous_stride(owner.shape@, a)
}

impl Graph {
    /// A gradient of a value laid out the way the owner of its storage walks
    /// it: the gradient itself where the value walks the owner, a view of the
    /// gradient's storage where the value is walked row by row, and otherwise a
    /// layout task. Nothing where a row-by-row view meets a gradient walked
    /// another way.
    fn aligned(&mut self, value: Value, contribution: Value) -> (r: Option<Value>)
        requires
            old(self).wf(),
            owns(old(self)@, value),
            owns(old(self)@, contribution),
            room(old(self)@, 1),
        ensures
            final(self).wf(),
            extends(old(self)@, final(self)@),
            final(self)@.values.len() <= old(self)@.values.len() + 1,
            r matches Some(c) ==> owns(final(self)@, c),
            walks_owner(old(self)@, value) ==> r == Some(contribution) && final(self)@ == old(self)@,
            !walks_owner(old(self)@, value) && laid_out(old(self)@, value) ==> (r is None <==> !laid_out(old(self)@, contribution)),
            !walks_owner(old(self)@, value) && !laid_out(old(self)@, value) ==> r is Some,
            !walks_owner(old(self)@, value) ==> (r matches Some(c) ==> lands(final(self)@, c)
                && c.form() == old(self)@.values[old(self)@.values[value.ident() as int].storage as int].shape),
    {
        let owner = self.owner_of(value.id);
        let view = self.values[value.id as usize];
        let owner_shape = self.values[owner as usize].shape;
        let owner_strides = owner_shape.strides();
        let a = view.shape.dims();
        let b = owner_shape.dims();
        if a[0] == b[0] && a[1] == b[1] && a[2] == b[2] && a[3] == b[3] && view.strides[0] == owner_strides[0]
            && view.strides[1] == owner_strides[1] && view.strides[2] == owner_strides[2] && view.strides[3]
            == owner_strides[3] {
            proof {
                lemma_extends_chain(old(self)@, self@, self@);
                assert(view.shape@ =~= owner_shape@);
                assert(walks_owner(old(self)@, value));
            }
            return Some(contribution);
        }
        proof {
            if walks_owner(old(self)@, value) {
                assert(view.strides@[0] as nat == contiguous_stride(owner_shape@, 0));
                assert(view.strides@[1] as nat == contiguous_stride(owner_shape@, 1));
                assert(view.strides@[2] as nat == contiguous_stride(owner_shape@, 2));
                assert(view.strides@[3] as nat == contiguous_stride(owner_shape@, 3));
                assert(false);
            }
        }
        if self.laid_out(value) {
            if !self.laid_out(contribution) {
                return None;
            }
            let storage = self.owner_of(contribution.id);
            let element = self.values[contribution.id as usize].element;
            let r = self.alias(owner_shape, owner_strides, storage, element, false);
            proof {
                lemma_grown_extends(old(self)@, self@, 1, 0);
            }
            return Some(r);
        }
        let inputs = [contribution.id, value.id, NO_VALUE, NO_VALUE, NO_VALUE, NO_VALUE];
        let none = self.ops.none;
        let r = self.derive(owner_shape, false, Kind::Layout, none, inputs);
        proof {
            lemma_grown_extends(old(self)@, self@, 1, 1);
        }
        Some(r)
    }

    /// Adds a contribution to the gradient of the owner of `value`'s storage.
    /// False where the contribution cannot land there.
    fn accumulate(&mut self, grads: &mut Vec<Option<u32>>, value: Value, contribution: Value) -> (r: bool)
        requires
            old(self).wf(),
            owns(old(self)@, value),
            owns(old(self)@, contribution),
            value.ident() < old(grads)@.len(),
            gradients_fit(old(self)@, old(grads)@.len(), old(grads)@),
            room(old(self)@, 6),
        ensures
            final(self).wf(),
            extends(old(self)@, final(self)@),
            final(self)@.values.len() <= old(self)@.values.len() + 6,
            gradients_fit(final(self)@, old(grads)@.len(), final(grads)@),
            keeps_found(old(grads)@, final(grads)@),
            r ==> final(grads)@[old(self)@.values[value.ident() as int].storage as int] is Some,
            r == !accumulation_fails(old(self)@, old(grads)@, value, contribution),
            forall|i: int| 0 <= i < old(grads)@.len() && i != old(self)@.values[value.ident() as int].storage
                ==> #[trigger] final(grads)@[i] == old(grads)@[i],
            r && old(grads)@[old(self)@.values[value.ident() as int].storage as int] is Some ==> summed(final(self)@,
                final(grads)@[old(self)@.values[value.ident() as int].storage as int]->0,
                old(grads)@[old(self)@.values[value.ident() as int].storage as int]->0),
    {
        let ghost count = grads@.len();
        let ghost start = self@;
        let owner = self.owner_of(value.id);
        assert(owner < count);
        let aligned = self.aligned(value, contribution);
        let c = match aligned {
            Some(c) => c,
            None => {
                proof {
                    lemma_gradients_extend(start, self@, count, grads@);
                }
                return false;
            },
        };
        let ghost mid = self@;
        let ov = self.value_of(owner);
        let reduced = self.reduced_to(c, ov);
        proof {
            lemma_extends_chain(start, mid, self@);
            lemma_gradients_extend(start, self@, count, grads@);
            lemma_extends_owns(mid, self@, ov);
        }
        let c = match reduced {
            Some(c) => c,
            None => return false,
        };
        let new = match grads[owner as usize] {
            None => match self.landed(c) {
                Some(v) => v.id,
                None => return false,
            },
            Some(existing) => {
                let e = self.value_of(existing);
                proof {
                    use_type_invariant(&c.shape);
                    lemma_shape_determined(e.form(), c.form());
                    crate::shape::lemma_combining_is_symmetric(e.form(), c.form());
                }
                let ghost before = self@;
                let sum = self.add(e, c);
                proof {
                    lemma_grown_extends(before, self@, 1, 1);
                    lemma_extends_chain(start, before, self@);
                    lemma_gradients_extend(before, self@, count, grads@);
                    use_type_invariant(&sum.shape);
                    lemma_shape_determined(sum.form(), c.form());
                }
                sum.id
            },
        };
        grads.set(owner as usize, Some(new));
        proof {
            assert(grads@ =~= old(grads)@.update(owner as int, Some(new)));
            let g = self@;
            assert forall|i: int| 0 <= i < count && (#[trigger] grads@[i]) is Some implies {
                &&& grads@[i]->0 < g.values.len()
                &&& g.values[grads@[i]->0 as int].shape == g.values[i].shape
                &&& g.values[i].storage == i
                &&& row_by_row(g.values[grads@[i]->0 as int])
            } by {
                if i == owner {
                    assert(g.values[owner as int] == start.values[owner as int]);
                    lemma_wf_value(g, new as int);
                }
            }
        }
        true
    }
}

/// The gradients a backward pass finds: one entry for each value the graph
/// held before the pass.
#[derive(Clone, Debug, PartialEq, Eq)]
pub struct Gradients {
    values: Vec<Option<Value>>,
}

impl Gradients {
    /// The gradient of each value, where one reaches it.
    pub closed spec fn entries(self) -> Seq<Option<Value>> {
        self.values@
    }

    /// Whether a gradient reaches `value`.
    pub fn reaches(&self, value: Value) -> (r: bool)
        ensures
            r == (value.ident() < self.entries().len() && self.entries()[value.ident() as int] is Some),
    {
        (value.id as usize) < self.values.len() && self.values[value.id as usize].is_some()
    }

    /// The gradient of `value`.
    pub fn of(&self, value: Value) -> (r: Value)
        requires
            value.ident() < self.entries().len(),
            self.entries()[value.ident() as int] is Some,
        ensures
            r == self.entries()[value.ident() as int]->0,
    {
        self.values[value.id as usize].unwrap()
    }
}

/// Whether every id a task names, but for no value, lies below `count`.
pub open spec fn names_below(task: TaskInfo, count: nat) -> bool {
    &&& task.out < count
    &&& (task.extra == NO_VALUE || task.extra < count)
    &&& forall|k: int| 0 <= k < 6 ==> (#[trigger] task.inputs@[k] == NO_VALUE || task.inputs@[k] < count)
}

/// The order that swaps the last two axes.
pub open spec fn transposed() -> Seq<u32> {
    seq![0u32, 1, 3, 2]
}

/// Whether matrices of dimensions `a` and `b` can be multiplied on the device:
/// inner dimensions agree, batches broadcast and the product is addressable.
pub open spec fn products_meet(a: Seq<nat>, b: Seq<nat>) -> bool {
    a[3] == b[2] && batches_meet(a, b) && addressable(matmul_dims(a, b))
}

proof fn lemma_wf_flags(before: GraphView, after: GraphView)
    requires
        graph_wf(before),
        after.instance == before.instance,
        after.ops == before.ops,
        after.values == before.values,
        after.tasks == before.tasks,
    ensures
        graph_wf(after),
{
    reveal(graph_wf);
    assert forall|t: int| #![trigger after.tasks[t]] 0 <= t < after.tasks.len() implies task_fits(after, after.tasks[t]) by {
        assert(task_fits(before, before.tasks[t]));
    }
}

/// Whether four positive axes hold a count of numbers a device addresses.
fn addressable4(d0: u32, d1: u32, d2: u32, d3: u32) -> (r: bool)
    requires
        d0 > 0 && d1 > 0 && d2 > 0 && d3 > 0,
    ensures
        r == addressable(seq![d0 as nat, d1 as nat, d2 as nat, d3 as nat]),
{
    let ghost p = product(seq![d0 as nat, d1 as nat, d2 as nat, d3 as nat]);
    assert(p == d0 * d1 * d2 * d3);
    assert((d0 as u64) * (d1 as u64) <= 0xffff_ffff_ffff_ffff) by (nonlinear_arith)
        requires
            d0 < 0x1_0000_0000,
            d1 < 0x1_0000_0000,
    ;
    let a = (d0 as u64) * (d1 as u64);
    if a > ELEMENT_LIMIT {
        assert(d0 * d1 <= d0 * d1 * d2 * d3) by (nonlinear_arith)
            requires
                d2 > 0,
                d3 > 0,
        ;
        return false;
    }
    assert(a * d2 <= 0xffff_ffff_ffff_ffff) by (nonlinear_arith)
        requires
            a <= 0x7fff_ffff,
            d2 < 0x1_0000_0000,
    ;
    let b = a * (d2 as u64);
    if b > ELEMENT_LIMIT {
        assert(d0 * d1 * d2 <= d0 * d1 * d2 * d3) by (nonlinear_arith)
            requires
                d3 > 0,
        ;
        return false;
    }
    assert(b * d3 <= 0xffff_ffff_ffff_ffff) by (nonlinear_arith)
        requires
            b <= 0x7fff_ffff,
            d3 < 0x1_0000_0000,
    ;
    let c = b * (d3 as u64);
    c <= ELEMENT_LIMIT
}

impl Graph {
    /// The operation of the table with `code`.
    fn definition(&self, code: u32) -> (r: Option<Op>)
        ensures
            r matches Some(op) ==> op.code == code && exists|i: int| 0 <= i < 16 && #[trigger] op_list(self@.ops)[i] == op,
            r is None <==> forall|i: int| 0 <= i < 16 ==> (#[trigger] op_list(self@.ops)[i]).code != code,
    {
        proof {
            lemma_op_list(self@.ops);
        }
        if self.ops.add.code == code {
            assert(op_list(self@.ops)[0] == self.ops.add);
            return Some(self.ops.add);
        }
        if self.ops.mul.code == code {
            assert(op_list(self@.ops)[1] == self.ops.mul);
            return Some(self.ops.mul);
        }
        if self.ops.sub.code == code {
            assert(op_list(self@.ops)[2] == self.ops.sub);
            return Some(self.ops.sub);
        }
        if self.ops.div.code == code {
            assert(op_list(self@.ops)[3] == self.ops.div);
            return Some(self.ops.div);
        }
        if self.ops.maximum.code == code {
            assert(op_list(self@.ops)[4] == self.ops.maximum);
            return Some(self.ops.maximum);
        }
        if self.ops.minimum.code == code {
            assert(op_list(self@.ops)[5] == self.ops.minimum);
            return Some(self.ops.minimum);
        }
        if self.ops.relu.code == code {
            assert(op_list(self@.ops)[6] == self.ops.relu);
            return Some(self.ops.relu);
        }
        if self.ops.sqrt.code == code {
            assert(op_list(self@.ops)[7] == self.ops.sqrt);
            return Some(self.ops.sqrt);
        }
        if self.ops.recip.code == code {
            assert(op_list(self@.ops)[8] == self.ops.recip);
            return Some(self.ops.recip);
        }
        if self.ops.exp.code == code {
            assert(op_list(self@.ops)[9] == self.ops.exp);
            return Some(self.ops.exp);
        }
        if self.ops.log.code == code {
            assert(op_list(self@.ops)[10] == self.ops.log);
            return Some(self.ops.log);
        }
        if self.ops.tanh.code == code {
            assert(op_list(self@.ops)[11] == self.ops.tanh);
            return Some(self.ops.tanh);
        }
        if self.ops.sigmoid.code == code {
            assert(op_list(self@.ops)[12] == self.ops.sigmoid);
            return Some(self.ops.sigmoid);
        }
        if self.ops.neg.code == code {
            assert(op_list(self@.ops)[13] == self.ops.neg);
            return Some(self.ops.neg);
        }
        if self.ops.abs.code == code {
            assert(op_list(self@.ops)[14] == self.ops.abs);
            return Some(self.ops.abs);
        }
        if self.ops.identity.code == code {
            assert(op_list(self@.ops)[15] == self.ops.identity);
            return Some(self.ops.identity);
        }
        None
    }

    /// Derives a value of `shape` through a task that carries a slot, a
    /// parameter and a window.
    fn derive_with(&mut self, shape: Shape, grad: bool, kind: Kind, op: u32, inputs: [u32; 6], slot: u32, param: u32,
        window: Window) -> (r: Value)
        requires
            old(self).wf(),
            room(old(self)@, 1),
            forall|k: int| 0 <= k < 6 ==> names(old(self)@, #[trigger] inputs@[k]),
            kind != Kind::Binary && kind != Kind::Unary,
        ensures
            final(self).wf(),
            derives(old(self)@, final(self)@, shape@, grad, r),
            r.form() == shape,
            task_is(final(self)@.tasks.last(), kind, op, r.ident(), inputs@, NO_VALUE, slot, param, window@, false),
    {
        let out = self.hold(shape, Residency::Derived, Element::Single, None, grad);
        let mut task = TaskInfo::of(kind, op, out.id, inputs);
        task.slot = slot;
        task.param = param;
        task.window = window;
        proof {
            assert forall|k: int| 0 <= k < 6 implies names(self@, #[trigger] task.inputs@[k]) by {
                assert(names(old(self)@, inputs@[k]));
            }
        }
        self.record(task);
        out
    }

    /// Whether `updates` scatter into the rows of `target` that `indices` names.
    fn scatterable(&self, target: Value, indices: Value, updates: Value) -> (r: bool)
        requires
            self.wf(),
            owns(self@, target),
            owns(self@, indices),
            owns(self@, updates),
        ensures
            r == scatterable(self@, target, indices, updates),
    {
        let i = indices.shape.dims();
        let u = updates.shape.dims();
        let t = target.shape.dims();
        let shaped = u[0] == i[0] && u[1] == i[1] && u[2] == i[2] && u[3] == t[3];
        proof {
            if shaped {
                assert(updates.form()@ =~= with_columns(indices.form()@, target.form()@[3]));
            } else if updates.form()@ == with_columns(indices.form()@, target.form()@[3]) {
                assert(updates.form()@[0] == indices.form()@[0]);
                assert(updates.form()@[1] == indices.form()@[1]);
                assert(updates.form()@[2] == indices.form()@[2]);
                assert(updates.form()@[3] == target.form()@[3]);
            }
        }
        i[3] == 1 && self.laid_out(indices) && self.laid_out(target) && self.laid_out(updates) && shaped
    }

    /// The partial derivative task of `op` for its operand in `slot`, or the
    /// gradient itself where it passes through.
    fn partial(&mut self, op: Op, task: &TaskInfo, slot: u32, gradient: Value) -> (r: Value)
        requires
            old(self).wf(),
            owns(old(self)@, gradient),
            room(old(self)@, 1),
            slot < 2,
            names_below(*task, old(self)@.values.len()),
        ensures
            final(self).wf(),
            extends(old(self)@, final(self)@),
            final(self)@.values.len() <= old(self)@.values.len() + 1,
            owns(final(self)@, r),
            r.form() == gradient.form(),
            (if slot == 0 { op.first } else { op.second }) is Gradient ==> r == gradient && final(self)@ == old(self)@,
            !((if slot == 0 { op.first } else { op.second }) is Gradient) ==> {
                &&& derives(old(self)@, final(self)@, gradient.form()@, false, r)
                &&& final(self)@.tasks.last().kind == Kind::Partial
                &&& final(self)@.tasks.last().op == task.op
                &&& final(self)@.tasks.last().out == r.ident()
                &&& final(self)@.tasks.last().slot == slot
                &&& final(self)@.tasks.last().inputs@[2] == gradient.ident()
                &&& partial_reads(formula(op, slot as int), *task, slot as int, final(self)@.tasks.last().inputs@)
            },
    {
        let formula = if slot == 0 { op.first } else { op.second };
        match formula {
            Partial::Gradient => {
                proof {
                    lemma_extends_chain(old(self)@, self@, self@);
                }
                gradient
            },
            Partial::Formula { result, operand, other } => {
                let left = if result {
                    task.out
                } else if operand {
                    task.inputs[slot as usize]
                } else {
                    NO_VALUE
                };
                let right = if other {
                    task.inputs[if slot == 0 { 1 } else { 0 }]
                } else {
                    NO_VALUE
                };
                let inputs = [left, right, gradient.id, NO_VALUE, NO_VALUE, NO_VALUE];
                assert(inputs@[0] == left && inputs@[1] == right);
                proof {
                    assert(task.inputs@[slot as int] == NO_VALUE || task.inputs@[slot as int] < self@.values.len());
                    assert(task.inputs@[1] == NO_VALUE || task.inputs@[1] < self@.values.len());
                    assert(task.inputs@[0] == NO_VALUE || task.inputs@[0] < self@.values.len());
                    assert(names(self@, task.inputs@[slot as int]));
                    assert(names(self@, task.inputs@[1]));
                    assert(names(self@, task.inputs@[0]));
                }
                let r = self.derive_with(gradient.shape, false, Kind::Partial, task.op, inputs, slot, 0, Window::sliding([1, 1]));
                proof {
                    lemma_grown_extends(old(self)@, self@, 1, 1);
                }
                r
            },
        }
    }
}

/// The operands a partial task for operand `slot` of `task` reads beside the
/// gradient, under `formula`: first the result of the task where the formula
/// weighs by it, else the operand itself where it weighs by that; second the
/// other operand of the task where the formula weighs by it.
pub open spec fn partial_reads(formula: Partial, task: TaskInfo, slot: int, inputs: Seq<u32>) -> bool {
    match formula {
        Partial::Formula { result, operand, other } => {
            &&& inputs[0] == (if result { task.out } else if operand { task.inputs@[slot] } else { NO_VALUE })
            &&& inputs[1] == (if other { task.inputs@[1 - slot] } else { NO_VALUE })
        },
        Partial::Gradient => true,
    }
}

/// The partials of a product weigh the gradient of each operand by the other
/// operand: the partial task of the first operand reads the second, and that
/// of the second reads the first.
pub proof fn lemma_product_partials_cross(task: TaskInfo, first: Seq<u32>, second: Seq<u32>)
    requires
        partial_reads(Partial::Formula { result: false, operand: false, other: true }, task, 0, first),
        partial_reads(Partial::Formula { result: false, operand: false, other: true }, task, 1, second),
    ensures
        first[1] == task.inputs@[1],
        second[1] == task.inputs@[0],
        first[0] == NO_VALUE && second[0] == NO_VALUE,
{
}

/// Every gradient found stays found.
pub open spec fn keeps_found(before: Seq<Option<u32>>, after: Seq<Option<u32>>) -> bool {
    forall|i: int| 0 <= i < before.len() && (#[trigger] before[i]) is Some ==> after[i] is Some
}

/// The facts a step of the backward pass keeps.
proof fn lemma_pass_step(a: GraphView, b: GraphView, count: nat, grads: Seq<Option<u32>>)
    requires
        extends(a, b),
        gradients_fit(a, count, grads),
    ensures
        gradients_fit(b, count, grads),
{
    lemma_gradients_extend(a, b, count, grads);
}

impl Graph {
    /// Whether two values multiply as batched matrices.
    fn multiplies(&self, left: Value, right: Value) -> (r: bool)
        ensures
            r == (left.form()@[3] == right.form()@[2] && batches_meet(left.form()@, right.form()@)
                && addressable(matmul_dims(left.form()@, right.form()@))),
    {
        proof {
            use_type_invariant(&left.shape);
            use_type_invariant(&right.shape);
        }
        let l = left.shape.dims();
        let rd = right.shape.dims();
        let b0 = if l[0] >= rd[0] { l[0] } else { rd[0] };
        let b1 = if l[1] >= rd[1] { l[1] } else { rd[1] };
        proof {
            assert(seq![b0 as nat, b1 as nat, l[2] as nat, rd[3] as nat] =~= matmul_dims(left.form()@, right.form()@));
        }
        l[3] == rd[2] && (l[0] == rd[0] || l[0] == 1 || rd[0] == 1) && (l[1] == rd[1] || l[1] == 1 || rd[1] == 1)
            && addressable4(b0, b1, l[2], rd[3])
    }

    /// The gradients of the two operands of a matrix product.
    #[verifier::rlimit(60)]
    fn grad_matmul(&mut self, task: &TaskInfo, gradient: Value, grads: &mut Vec<Option<u32>>) -> (r: bool)
        requires
            old(self).wf(),
            owns(old(self)@, gradient),
            gradients_fit(old(self)@, old(grads)@.len(), old(grads)@),
            names_below(*task, old(grads)@.len()),
            room(old(self)@, 16),
        ensures
            final(self).wf(),
            extends(old(self)@, final(self)@),
            final(self)@.values.len() <= old(self)@.values.len() + 16,
            gradients_fit(final(self)@, old(grads)@.len(), final(grads)@),
            keeps_found(old(grads)@, final(grads)@),
            task.inputs@[0] == NO_VALUE || task.inputs@[1] == NO_VALUE ==> !r,
            task.inputs@[0] != NO_VALUE && task.inputs@[1] != NO_VALUE && !tracked_id(old(self)@, task.inputs@[0])
                && !tracked_id(old(self)@, task.inputs@[1]) ==> r && final(grads)@ == old(grads)@,
            forall|k: int| 0 <= k < 2 && r && tracked_id(old(self)@, #[trigger] task.inputs@[k]) ==> gradient_found(old(self)@, final(grads)@, task.inputs@[k]),
            task.inputs@[0] != NO_VALUE && task.inputs@[1] != NO_VALUE && tracked_id(old(self)@, task.inputs@[0])
                && !products_meet(gradient.form()@, permuted(old(self)@.values[task.inputs@[1] as int].shape@, transposed())) ==> !r,
            task.inputs@[0] != NO_VALUE && task.inputs@[1] != NO_VALUE && tracked_id(old(self)@, task.inputs@[1])
                && !products_meet(permuted(old(self)@.values[task.inputs@[0] as int].shape@, transposed()), gradient.form()@) ==> !r,
            only_operands(old(self)@, *task, old(grads)@, final(grads)@),
            r && tracked_id(old(self)@, task.inputs@[0]) ==> appended(old(self)@, final(self)@, Kind::Matmul,
                inputs_of(gradient.ident(), old(self)@.values.len() as u32, NO_VALUE))
                && transposed_view(final(self)@, old(self)@.values.len() as int, task.inputs@[1]),
            r && tracked_id(old(self)@, task.inputs@[1]) ==> exists|v: u32| appended(old(self)@, final(self)@, Kind::Matmul,
                inputs_of(v, gradient.ident(), NO_VALUE)) && #[trigger] transposed_view(final(self)@, v as int, task.inputs@[0]),
    {
        let ghost count = grads@.len();
        if task.inputs[0] == NO_VALUE || task.inputs[1] == NO_VALUE {
            proof { lemma_pass_step(old(self)@, self@, count, grads@); lemma_extends_chain(old(self)@, self@, self@); }
            return false;
        }
        let left = self.value_of(task.inputs[0]);
        let right = self.value_of(task.inputs[1]);
        if self.tracks(left) {
            proof { lemma_operand_owner(old(self)@, *task, 0); }
            let ghost s0 = self@;
            proof {
                assert(permutation(transposed()));
            }
            let order: [u32; 4] = [0, 1, 3, 2];
            assert(order@ =~= transposed());
            let t = self.permute(right, order);
            proof {
                lemma_grown_extends(s0, self@, 1, 0);
                lemma_pass_step(s0, self@, count, grads@);
            }
            if !self.multiplies(gradient, t) {
                return false;
            }
            let ghost s1 = self@;
            let c = self.matmul(gradient, t);
            proof {
                lemma_grown_extends(s1, self@, 1, 1);
                lemma_extends_chain(s0, s1, self@);
                lemma_pass_step(s1, self@, count, grads@);
                assert(self@.tasks[s1.tasks.len() as int] == self@.tasks.last());
                assert(appended(s1, self@, Kind::Matmul, inputs_of(gradient.ident(), t.ident(), NO_VALUE)));
                lemma_appended_before(old(self)@, s1, self@, Kind::Matmul, inputs_of(gradient.ident(), t.ident(), NO_VALUE));
                assert(self@.values[t.ident() as int] == s1.values[t.ident() as int]);
                assert(self@.values[task.inputs@[1] as int] == old(self)@.values[task.inputs@[1] as int]);
                assert(transposed_view(self@, old(self)@.values.len() as int, task.inputs@[1]));
            }
            let ghost s2 = self@;
            if !self.accumulate(grads, left, c) {
                proof { lemma_extends_chain(s0, s2, self@); }
                return false;
            }
            proof {
                lemma_extends_chain(s0, s2, self@);
                lemma_appended_kept(old(self)@, s2, self@, Kind::Matmul, inputs_of(gradient.ident(), t.ident(), NO_VALUE));
                assert(self@.values[t.ident() as int] == s2.values[t.ident() as int]);
                assert(self@.values[task.inputs@[1] as int] == s2.values[task.inputs@[1] as int]);
            }
        }
        let ghost s3 = self@;
        if self.tracks(right) {
            proof { lemma_operand_owner(old(self)@, *task, 1); }
            let order: [u32; 4] = [0, 1, 3, 2];
            assert(order@ =~= transposed());
            let t = self.permute(left, order);
            proof {
                lemma_grown_extends(s3, self@, 1, 0);
                lemma_pass_step(s3, self@, count, grads@);
            }
            if !self.multiplies(t, gradient) {
                proof { lemma_extends_chain(old(self)@, s3, self@); }
                return false;
            }
            let ghost s4 = self@;
            let c = self.matmul(t, gradient);
            proof {
                lemma_grown_extends(s4, self@, 1, 1);
                lemma_extends_chain(s3, s4, self@);
                lemma_pass_step(s4, self@, count, grads@);
                lemma_extends_chain(old(self)@, s3, s4);
                assert(self@.tasks[s4.tasks.len() as int] == self@.tasks.last());
                assert(appended(s4, self@, Kind::Matmul, inputs_of(t.ident(), gradient.ident(), NO_VALUE)));
                lemma_appended_before(old(self)@, s4, self@, Kind::Matmul, inputs_of(t.ident(), gradient.ident(), NO_VALUE));
            }
            let ghost s5 = self@;
            let ok = self.accumulate(grads, right, c);
            proof {
                lemma_extends_chain(s3, s5, self@);
                lemma_extends_chain(old(self)@, s3, self@);
                lemma_appended_kept(old(self)@, s5, self@, Kind::Matmul, inputs_of(t.ident(), gradient.ident(), NO_VALUE));
                if tracked_id(old(self)@, task.inputs@[0]) {
                    lemma_extends_chain(s3, s5, self@);
                    lemma_appended_kept(old(self)@, s3, self@, Kind::Matmul, inputs_of(gradient.ident(), old(self)@.values.len() as u32, NO_VALUE));
                    assert(self@.values[old(self)@.values.len() as int] == s3.values[old(self)@.values.len() as int]);
                    assert(self@.values[task.inputs@[1] as int] == s3.values[task.inputs@[1] as int]);
                }
                assert(self@.values[t.ident() as int] == s4.values[t.ident() as int]);
                assert(self@.values[task.inputs@[0] as int] == old(self)@.values[task.inputs@[0] as int]);
                assert(transposed_view(self@, t.ident() as int, task.inputs@[0]));
            }
            return ok;
        }
        proof { lemma_extends_chain(old(self)@, s3, self@); }
        true
    }
}

impl Graph {
    /// Derives a gradient task into a fresh value of `operand`'s shape and
    /// adds it to the gradient of `operand`.
    fn grad_into(&mut self, operand: Value, grad: bool, kind: Kind, inputs: [u32; 6], slot: u32, param: u32, window: Window,
        grads: &mut Vec<Option<u32>>) -> (r: bool)
        requires
            old(self).wf(),
            owns(old(self)@, operand),
            operand.ident() < old(grads)@.len(),
            gradients_fit(old(self)@, old(grads)@.len(), old(grads)@),
            forall|k: int| 0 <= k < 6 ==> names(old(self)@, #[trigger] inputs@[k]),
            kind != Kind::Binary && kind != Kind::Unary,
            room(old(self)@, 7),
        ensures
            final(self).wf(),
            extends(old(self)@, final(self)@),
            final(self)@.values.len() <= old(self)@.values.len() + 7,
            gradients_fit(final(self)@, old(grads)@.len(), final(grads)@),
            keeps_found(old(grads)@, final(grads)@),
            r,
            gradient_found(old(self)@, final(grads)@, operand.ident()),
            forall|i: int| 0 <= i < old(grads)@.len() && i != old(self)@.values[operand.ident() as int].storage ==> #[trigger] final(grads)@[i] == old(grads)@[i],
            appended(old(self)@, final(self)@, kind, inputs@),
    {
        let ghost count = grads@.len();
        let none = self.ops.none;
        let out = self.derive_with(operand.shape, grad, kind, none, inputs, slot, param, window);
        proof {
            lemma_grown_extends(old(self)@, self@, 1, 1);
            lemma_pass_step(old(self)@, self@, count, grads@);
            let g = self@;
            let info = g.values[operand.ident() as int];
            let owner = g.values[info.storage as int];
            lemma_wf_value(g, operand.ident() as int);
            lemma_wf_value(g, info.storage as int);
            if walks_owner(g, operand) {
                lemma_shape_determined(info.shape, owner.shape);
            }
            assert(!accumulation_fails(g, grads@, operand, out));
        }
        let ghost s1 = self@;
        proof {
            assert(s1.tasks[old(self)@.tasks.len() as int] == s1.tasks.last());
            assert(appended(old(self)@, s1, kind, inputs@));
        }
        let ok = self.accumulate(grads, operand, out);
        proof {
            lemma_extends_chain(old(self)@, s1, self@);
            lemma_appended_kept(old(self)@, s1, self@, kind, inputs@);
        }
        ok
    }

    /// The gradients of the operands of a pointwise operation.
    #[verifier::rlimit(80)]
    fn grad_pointwise(&mut self, task: &TaskInfo, gradient: Value, grads: &mut Vec<Option<u32>>) -> (r: bool)
        requires
            old(self).wf(),
            owns(old(self)@, gradient),
            gradients_fit(old(self)@, old(grads)@.len(), old(grads)@),
            names_below(*task, old(grads)@.len()),
            room(old(self)@, 14),
        ensures
            final(self).wf(),
            extends(old(self)@, final(self)@),
            final(self)@.values.len() <= old(self)@.values.len() + 14,
            gradients_fit(final(self)@, old(grads)@.len(), final(grads)@),
            keeps_found(old(grads)@, final(grads)@),
            (forall|i: int| 0 <= i < 16 ==> (#[trigger] op_list(old(self)@.ops)[i]).code != task.op) ==> !r,
            pointwise_fits(old(self)@, *task, gradient) ==> r,
            r ==> exists|i: int| 0 <= i < 16 && (#[trigger] op_list(old(self)@.ops)[i]).code == task.op
                && forall|k: int| 0 <= k < 2 && k < op_list(old(self)@.ops)[i].operands && tracked_id(old(self)@, #[trigger] task.inputs@[k])
                    ==> gradient_found(old(self)@, final(grads)@, task.inputs@[k]),
            only_operands(old(self)@, *task, old(grads)@, final(grads)@),
            r ==> exists|i: int| 0 <= i < 16 && (#[trigger] op_list(old(self)@.ops)[i]).code == task.op
                && forall|k: int| 0 <= k < 2 && k < op_list(old(self)@.ops)[i].operands && tracked_id(old(self)@, #[trigger] task.inputs@[k])
                    ==> formula(op_list(old(self)@.ops)[i], k) is Gradient || partial_appended(old(self)@, final(self)@, *task, formula(op_list(old(self)@.ops)[i], k), k, gradient.ident()),
            untracked_pointwise(old(self)@, *task) ==> r,
    {
        let ghost count = grads@.len();
        let definition = match self.definition(task.op) {
            Some(op) => op,
            None => {
                proof { lemma_pass_step(old(self)@, self@, count, grads@); lemma_extends_chain(old(self)@, self@, self@); }
                return false;
            },
        };
        let operands = if definition.operands < 2 { definition.operands } else { 2 };
        let mut slot: u32 = 0;
        while slot < operands
            invariant
                self.wf(),
                slot <= operands <= 2,
                extends(old(self)@, self@),
                self@.values.len() <= old(self)@.values.len() + 7 * slot,
                room(old(self)@, 14),
                count == grads@.len(),
                count == old(grads)@.len(),
                keeps_found(old(grads)@, grads@),
                gradients_fit(self@, count, grads@),
                owns(self@, gradient),
                names_below(*task, count),
                definition.code == task.op,
                count <= old(self)@.values.len(),
                forall|k: int| 0 <= k < slot ==> #[trigger] task.inputs@[k] != NO_VALUE,
                gradients_fit(old(self)@, count, old(grads)@),
                operands == if definition.operands < 2 { definition.operands } else { 2 },
                exists|i: int| 0 <= i < 16 && #[trigger] op_list(old(self)@.ops)[i] == definition,
                pointwise_fits(old(self)@, *task, gradient) ==> laid_out(self@, gradient),
                forall|k: int| 0 <= k < slot && tracked_id(old(self)@, #[trigger] task.inputs@[k])
                    ==> gradient_found(old(self)@, grads@, task.inputs@[k]),
                only_operands(old(self)@, *task, old(grads)@, grads@),
                forall|k: int| 0 <= k < slot && tracked_id(old(self)@, #[trigger] task.inputs@[k])
                    ==> formula(definition, k) is Gradient || partial_appended(old(self)@, self@, *task, formula(definition, k), k, gradient.ident()),
                extends(old(self)@, self@),
            decreases operands - slot,
        {
            let input = task.inputs[slot as usize];
            proof {
                if untracked_pointwise(old(self)@, *task) {
                    let i = choose|i: int| 0 <= i < 16 && #[trigger] op_list(old(self)@.ops)[i] == definition;
                    assert(op_list(old(self)@.ops)[i].code == task.op);
                    assert(task.inputs@[slot as int] != NO_VALUE && !tracked_id(old(self)@, task.inputs@[slot as int]));
                    assert(self@.values[input as int] == old(self)@.values[input as int]);
                }
            }
            if input == NO_VALUE {
                return false;
            }
            let operand = self.value_of(input);
            if self.tracks(operand) {
                proof {
                    assert(self@.values[input as int] == old(self)@.values[input as int]);
                    lemma_operand_owner(old(self)@, *task, slot as int);
                }
                let ghost s0 = self@;
                let c = self.partial(definition, task, slot, gradient);
                proof {
                    lemma_pass_step(s0, self@, count, grads@);
                    lemma_extends_chain(old(self)@, s0, self@);
                }
                let ghost s1 = self@;
                let ghost before_grads = grads@;
                proof {
                    if !(formula(definition, slot as int) is Gradient) {
                        assert(s1.tasks[s0.tasks.len() as int] == s1.tasks.last());
                        assert(partial_appended(s0, s1, *task, formula(definition, slot as int), slot as int, gradient.ident()));
                        lemma_partial_before(old(self)@, s0, s1, *task, formula(definition, slot as int), slot as int, gradient.ident());
                    }
                    assert forall|k: int| 0 <= k < slot && tracked_id(old(self)@, #[trigger] task.inputs@[k])
                        && !(formula(definition, k) is Gradient) implies partial_appended(old(self)@, s1, *task, formula(definition, k), k, gradient.ident()) by {
                        lemma_partial_kept(old(self)@, s0, s1, *task, formula(definition, k), k, gradient.ident());
                    }
                }
                proof {
                    assert(task.inputs@[slot as int] == NO_VALUE || task.inputs@[slot as int] < count);
                    assert(input < old(self)@.values.len());
                    let g = self@;
                    let info = g.values[operand.ident() as int];
                    let owner = g.values[info.storage as int];
                    lemma_wf_value(g, operand.ident() as int);
                    lemma_wf_value(g, info.storage as int);
                    lemma_wf_value(g, c.ident() as int);
                    if pointwise_fits(old(self)@, *task, gradient) {
                        let i = choose|i: int| 0 <= i < 16 && #[trigger] op_list(old(self)@.ops)[i] == definition;
                        assert(op_list(old(self)@.ops)[i].code == task.op);
                        assert(task.inputs@[slot as int] != NO_VALUE);
                        assert(old(self)@.values[input as int] == g.values[input as int]);
                        if walks_owner(g, operand) {
                            lemma_shape_determined(info.shape, owner.shape);
                        }
                        assert(!accumulation_fails(g, grads@, operand, c));
                    }
                }
                if !self.accumulate(grads, operand, c) {
                    proof { lemma_extends_chain(old(self)@, s1, self@); }
                    return false;
                }
                proof {
                    lemma_extends_chain(old(self)@, s1, self@);
                    assert forall|k: int| 0 <= k < slot + 1 && tracked_id(old(self)@, #[trigger] task.inputs@[k])
                        && !(formula(definition, k) is Gradient) implies partial_appended(old(self)@, self@, *task, formula(definition, k), k, gradient.ident()) by {
                        lemma_partial_kept(old(self)@, s1, self@, *task, formula(definition, k), k, gradient.ident());
                    }
                    assert(s1.values[input as int] == old(self)@.values[input as int]);
                    assert forall|k: int| 0 <= k < slot + 1 && tracked_id(old(self)@, #[trigger] task.inputs@[k])
                        implies gradient_found(old(self)@, grads@, task.inputs@[k]) by {
                        if k < slot {
                            assert(task.inputs@[k] == NO_VALUE || task.inputs@[k] < count);
                            assert(old(self)@.values[task.inputs@[k] as int].storage < count);
                            assert(gradient_found(old(self)@, before_grads, task.inputs@[k]));
                        }
                    }
                }
            }
            slot += 1;
        }
        proof {
            let i = choose|i: int| 0 <= i < 16 && #[trigger] op_list(old(self)@.ops)[i] == definition;
            assert(op_list(old(self)@.ops)[i].code == task.op);
        }
        true
    }

    /// The gradient of the source of a softmax or a log softmax.
    fn grad_rows(&mut self, kind: Kind, task: &TaskInfo, gradient: Value, grads: &mut Vec<Option<u32>>) -> (r: bool)
        requires
            old(self).wf(),
            kind != Kind::Binary && kind != Kind::Unary,
            owns(old(self)@, gradient),
            gradients_fit(old(self)@, old(grads)@.len(), old(grads)@),
            names_below(*task, old(grads)@.len()),
            room(old(self)@, 7),
        ensures
            final(self).wf(),
            extends(old(self)@, final(self)@),
            final(self)@.values.len() <= old(self)@.values.len() + 7,
            gradients_fit(final(self)@, old(grads)@.len(), final(grads)@),
            keeps_found(old(grads)@, final(grads)@),
            kind != Kind::Binary && kind != Kind::Unary,
            r == (task.inputs@[0] != NO_VALUE),
            r && tracked_id(old(self)@, task.inputs@[0]) ==> gradient_found(old(self)@, final(grads)@, task.inputs@[0]),
            only_operands(old(self)@, *task, old(grads)@, final(grads)@),
            r && tracked_id(old(self)@, task.inputs@[0]) ==> appended(old(self)@, final(self)@, kind, seq![task.out, gradient.ident(), NO_VALUE, NO_VALUE, NO_VALUE, NO_VALUE]),
    {
        let ghost count = grads@.len();
        if task.inputs[0] == NO_VALUE {
            proof { lemma_pass_step(old(self)@, self@, count, grads@); lemma_extends_chain(old(self)@, self@, self@); }
            return false;
        }
        let source = self.value_of(task.inputs[0]);
        if !self.tracks(source) {
            proof { lemma_pass_step(old(self)@, self@, count, grads@); lemma_extends_chain(old(self)@, self@, self@); }
            return true;
        }
        let inputs = [task.out, gradient.id, NO_VALUE, NO_VALUE, NO_VALUE, NO_VALUE];
        proof { lemma_operand_owner(old(self)@, *task, 0); }
        self.grad_into(source, true, kind, inputs, 0, 0, Window::sliding([1, 1]), grads)
    }

    /// The gradient of the source of a sum: the gradient spread over its shape.
    fn grad_sum(&mut self, task: &TaskInfo, gradient: Value, grads: &mut Vec<Option<u32>>) -> (r: bool)
        requires
            old(self).wf(),
            owns(old(self)@, gradient),
            gradients_fit(old(self)@, old(grads)@.len(), old(grads)@),
            names_below(*task, old(grads)@.len()),
            room(old(self)@, 7),
        ensures
            final(self).wf(),
            extends(old(self)@, final(self)@),
            final(self)@.values.len() <= old(self)@.values.len() + 7,
            gradients_fit(final(self)@, old(grads)@.len(), final(grads)@),
            keeps_found(old(grads)@, final(grads)@),
            r == (task.inputs@[0] != NO_VALUE && (!tracked_id(old(self)@, task.inputs@[0])
                || spreads_over(gradient.form()@, old(self)@.values[task.inputs@[0] as int].shape@))),
            r && tracked_id(old(self)@, task.inputs@[0]) ==> gradient_found(old(self)@, final(grads)@, task.inputs@[0]),
            only_operands(old(self)@, *task, old(grads)@, final(grads)@),
            r && tracked_id(old(self)@, task.inputs@[0]) ==> appended(old(self)@, final(self)@, Kind::Broadcast, inputs_of(gradient.ident(), NO_VALUE, NO_VALUE)),
    {
        let ghost count = grads@.len();
        if task.inputs[0] == NO_VALUE {
            proof { lemma_pass_step(old(self)@, self@, count, grads@); lemma_extends_chain(old(self)@, self@, self@); }
            return false;
        }
        let source = self.value_of(task.inputs[0]);
        if !self.tracks(source) {
            proof { lemma_pass_step(old(self)@, self@, count, grads@); lemma_extends_chain(old(self)@, self@, self@); }
            return true;
        }
        if !gradient.shape.fits_within(source.shape) {
            proof { lemma_pass_step(old(self)@, self@, count, grads@); lemma_extends_chain(old(self)@, self@, self@); }
            return false;
        }
        proof { lemma_operand_owner(old(self)@, *task, 0); }
        let out = self.broadcast(gradient, source.shape);
        proof {
            lemma_grown_extends(old(self)@, self@, 1, 1);
            lemma_pass_step(old(self)@, self@, count, grads@);
        }
        let ghost s1 = self@;
        proof {
            assert(s1.tasks[old(self)@.tasks.len() as int] == s1.tasks.last());
            assert(appended(old(self)@, s1, Kind::Broadcast, inputs_of(gradient.ident(), NO_VALUE, NO_VALUE)));
        }
        proof {
            let g = self@;
            let info = g.values[source.ident() as int];
            let owner = g.values[info.storage as int];
            lemma_wf_value(g, source.ident() as int);
            lemma_wf_value(g, info.storage as int);
            if walks_owner(g, source) {
                lemma_shape_determined(info.shape, owner.shape);
            }
            assert(!accumulation_fails(g, grads@, source, out));
        }
        let ok = self.accumulate(grads, source, out);
        proof {
            lemma_extends_chain(old(self)@, s1, self@);
            lemma_appended_kept(old(self)@, s1, self@, Kind::Broadcast, inputs_of(gradient.ident(), NO_VALUE, NO_VALUE));
        }
        ok
    }

    /// The gradients of the queries, keys and values of an attention.
    fn grad_attention(&mut self, task: &TaskInfo, gradient: Value, grads: &mut Vec<Option<u32>>) -> (r: bool)
        requires
            old(self).wf(),
            owns(old(self)@, gradient),
            gradients_fit(old(self)@, old(grads)@.len(), old(grads)@),
            names_below(*task, old(grads)@.len()),
            room(old(self)@, 21),
        ensures
            final(self).wf(),
            extends(old(self)@, final(self)@),
            final(self)@.values.len() <= old(self)@.values.len() + 21,
            gradients_fit(final(self)@, old(grads)@.len(), final(grads)@),
            keeps_found(old(grads)@, final(grads)@),
            r == (task.inputs@[0] != NO_VALUE && task.inputs@[1] != NO_VALUE && task.inputs@[2] != NO_VALUE && task.extra != NO_VALUE),
            forall|k: int| 0 <= k < 3 && r && tracked_id(old(self)@, #[trigger] task.inputs@[k]) ==> gradient_found(old(self)@, final(grads)@, task.inputs@[k]),
            only_operands(old(self)@, *task, old(grads)@, final(grads)@),
            r && tracked_id(old(self)@, task.inputs@[0]) ==> appended(old(self)@, final(self)@, Kind::AttentionQueryGrad,
                seq![task.inputs@[0], task.inputs@[1], task.inputs@[2], gradient.ident(), task.out, task.extra]),
            r && tracked_id(old(self)@, task.inputs@[1]) ==> appended(old(self)@, final(self)@, Kind::AttentionKeyGrad,
                seq![task.inputs@[0], task.inputs@[1], task.inputs@[2], gradient.ident(), task.out, task.extra]),
            r && tracked_id(old(self)@, task.inputs@[2]) ==> appended(old(self)@, final(self)@, Kind::AttentionValueGrad,
                seq![task.inputs@[0], task.inputs@[1], NO_VALUE, gradient.ident(), NO_VALUE, task.extra]),
    {
        let ghost count = grads@.len();
        if task.inputs[0] == NO_VALUE || task.inputs[1] == NO_VALUE || task.inputs[2] == NO_VALUE || task.extra == NO_VALUE {
            proof { lemma_pass_step(old(self)@, self@, count, grads@); lemma_extends_chain(old(self)@, self@, self@); }
            return false;
        }
        let query = self.value_of(task.inputs[0]);
        let key = self.value_of(task.inputs[1]);
        let value = self.value_of(task.inputs[2]);
        let operands = [task.inputs[0], task.inputs[1], task.inputs[2], gradient.id, task.out, task.extra];
        let without_output = [task.inputs[0], task.inputs[1], NO_VALUE, gradient.id, NO_VALUE, task.extra];
        let window = Window::sliding([1, 1]);
        if self.tracks(query) {
            proof { lemma_operand_owner(old(self)@, *task, 0); }
            let ghost s0 = self@;
            if !self.grad_into(query, false, Kind::AttentionQueryGrad, operands, task.slot, task.param, window, grads) {
                proof { lemma_extends_chain(old(self)@, s0, self@); }
                return false;
            }
            proof {
                lemma_extends_chain(old(self)@, s0, self@);
                assert(operands@ =~= seq![task.inputs@[0], task.inputs@[1], task.inputs@[2], gradient.ident(), task.out, task.extra]);
            }
        }
        let ghost s1 = self@;
        if self.tracks(key) {
            proof {
                assert(self@.values[task.inputs@[1] as int] == old(self)@.values[task.inputs@[1] as int]);
                lemma_operand_owner(old(self)@, *task, 1);
            }
            if !self.grad_into(key, false, Kind::AttentionKeyGrad, operands, task.slot, task.param, window, grads) {
                proof { lemma_extends_chain(old(self)@, s1, self@); }
                return false;
            }
            proof {
                lemma_extends_chain(old(self)@, s1, self@);
                assert(operands@ =~= seq![task.inputs@[0], task.inputs@[1], task.inputs@[2], gradient.ident(), task.out, task.extra]);
                lemma_appended_before(old(self)@, s1, self@, Kind::AttentionKeyGrad, operands@);
                if tracked_id(old(self)@, task.inputs@[0]) {
                    lemma_appended_kept(old(self)@, s1, self@, Kind::AttentionQueryGrad, operands@);
                }
            }
        }
        let ghost s2 = self@;
        if self.tracks(value) {
            proof {
                assert(self@.values[task.inputs@[2] as int] == old(self)@.values[task.inputs@[2] as int]);
                lemma_operand_owner(old(self)@, *task, 2);
            }
            let ok = self.grad_into(value, false, Kind::AttentionValueGrad, without_output, task.slot, task.param, window, grads);
            proof {
                lemma_extends_chain(old(self)@, s2, self@);
                assert(operands@ =~= seq![task.inputs@[0], task.inputs@[1], task.inputs@[2], gradient.ident(), task.out, task.extra]);
                assert(without_output@ =~= seq![task.inputs@[0], task.inputs@[1], NO_VALUE, gradient.ident(), NO_VALUE, task.extra]);
                lemma_appended_before(old(self)@, s2, self@, Kind::AttentionValueGrad, without_output@);
                if tracked_id(old(self)@, task.inputs@[0]) {
                    lemma_appended_kept(old(self)@, s2, self@, Kind::AttentionQueryGrad, operands@);
                }
                if tracked_id(old(self)@, task.inputs@[1]) {
                    lemma_appended_kept(old(self)@, s2, self@, Kind::AttentionKeyGrad, operands@);
                }
            }
            return ok;
        }
        true
    }

    /// The gradients of the input and the filter of a convolution.
    fn grad_conv(&mut self, task: &TaskInfo, gradient: Value, grads: &mut Vec<Option<u32>>) -> (r: bool)
        requires
            old(self).wf(),
            owns(old(self)@, gradient),
            gradients_fit(old(self)@, old(grads)@.len(), old(grads)@),
            names_below(*task, old(grads)@.len()),
            room(old(self)@, 14),
        ensures
            final(self).wf(),
            extends(old(self)@, final(self)@),
            final(self)@.values.len() <= old(self)@.values.len() + 14,
            gradients_fit(final(self)@, old(grads)@.len(), final(grads)@),
            keeps_found(old(grads)@, final(grads)@),
            r == (task.inputs@[0] != NO_VALUE && task.inputs@[1] != NO_VALUE),
            forall|k: int| 0 <= k < 2 && r && tracked_id(old(self)@, #[trigger] task.inputs@[k]) ==> gradient_found(old(self)@, final(grads)@, task.inputs@[k]),
            only_operands(old(self)@, *task, old(grads)@, final(grads)@),
            r && tracked_id(old(self)@, task.inputs@[0]) ==> appended(old(self)@, final(self)@, Kind::Conv2dInputGrad,
                seq![task.inputs@[1], gradient.ident(), NO_VALUE, NO_VALUE, NO_VALUE, NO_VALUE]),
            r && tracked_id(old(self)@, task.inputs@[1]) ==> appended(old(self)@, final(self)@, Kind::Conv2dWeightGrad,
                seq![task.inputs@[0], gradient.ident(), task.inputs@[1], NO_VALUE, NO_VALUE, NO_VALUE]),
    {
        let ghost count = grads@.len();
        if task.inputs[0] == NO_VALUE || task.inputs[1] == NO_VALUE {
            proof { lemma_pass_step(old(self)@, self@, count, grads@); lemma_extends_chain(old(self)@, self@, self@); }
            return false;
        }
        let input = self.value_of(task.inputs[0]);
        let filter = self.value_of(task.inputs[1]);
        if self.tracks(input) {
            proof { lemma_operand_owner(old(self)@, *task, 0); }
            let ghost s0 = self@;
            let inputs = [filter.id, gradient.id, NO_VALUE, NO_VALUE, NO_VALUE, NO_VALUE];
            if !self.grad_into(input, false, Kind::Conv2dInputGrad, inputs, 0, 0, task.window, grads) {
                proof { lemma_extends_chain(old(self)@, s0, self@); }
                return false;
            }
            proof {
                lemma_extends_chain(old(self)@, s0, self@);
                assert(inputs@ =~= seq![task.inputs@[1], gradient.ident(), NO_VALUE, NO_VALUE, NO_VALUE, NO_VALUE]);
            }
        }
        let ghost s1 = self@;
        if self.tracks(filter) {
            proof {
                assert(self@.values[task.inputs@[1] as int] == old(self)@.values[task.inputs@[1] as int]);
                lemma_operand_owner(old(self)@, *task, 1);
            }
            let inputs = [input.id, gradient.id, filter.id, NO_VALUE, NO_VALUE, NO_VALUE];
            let ok = self.grad_into(filter, false, Kind::Conv2dWeightGrad, inputs, 0, 0, task.window, grads);
            proof {
                lemma_extends_chain(old(self)@, s1, self@);
                assert(inputs@ =~= seq![task.inputs@[0], gradient.ident(), task.inputs@[1], NO_VALUE, NO_VALUE, NO_VALUE]);
                lemma_appended_before(old(self)@, s1, self@, Kind::Conv2dWeightGrad, inputs@);
                if tracked_id(old(self)@, task.inputs@[0]) {
                    lemma_appended_kept(old(self)@, s1, self@, Kind::Conv2dInputGrad, seq![task.inputs@[1], gradient.ident(), NO_VALUE, NO_VALUE, NO_VALUE, NO_VALUE]);
                }
            }
            return ok;
        }
        true
    }

    /// The gradient of the input of a pooling.
    fn grad_pool(&mut self, kind: Kind, task: &TaskInfo, gradient: Value, grads: &mut Vec<Option<u32>>) -> (r: bool)
        requires
            old(self).wf(),
            kind != Kind::Binary && kind != Kind::Unary,
            owns(old(self)@, gradient),
            gradients_fit(old(self)@, old(grads)@.len(), old(grads)@),
            names_below(*task, old(grads)@.len()),
            room(old(self)@, 7),
        ensures
            final(self).wf(),
            extends(old(self)@, final(self)@),
            final(self)@.values.len() <= old(self)@.values.len() + 7,
            gradients_fit(final(self)@, old(grads)@.len(), final(grads)@),
            keeps_found(old(grads)@, final(grads)@),
            kind != Kind::Binary && kind != Kind::Unary,
            r == (task.inputs@[0] != NO_VALUE),
            r && tracked_id(old(self)@, task.inputs@[0]) ==> gradient_found(old(self)@, final(grads)@, task.inputs@[0]),
            only_operands(old(self)@, *task, old(grads)@, final(grads)@),
            r && tracked_id(old(self)@, task.inputs@[0]) ==> appended(old(self)@, final(self)@, kind, seq![task.inputs@[0], gradient.ident(), NO_VALUE, NO_VALUE, NO_VALUE, NO_VALUE]),
    {
        let ghost count = grads@.len();
        if task.inputs[0] == NO_VALUE {
            proof { lemma_pass_step(old(self)@, self@, count, grads@); lemma_extends_chain(old(self)@, self@, self@); }
            return false;
        }
        let input = self.value_of(task.inputs[0]);
        if !self.tracks(input) {
            proof { lemma_pass_step(old(self)@, self@, count, grads@); lemma_extends_chain(old(self)@, self@, self@); }
            return true;
        }
        let inputs = [input.id, gradient.id, NO_VALUE, NO_VALUE, NO_VALUE, NO_VALUE];
        proof { lemma_operand_owner(old(self)@, *task, 0); }
        self.grad_into(input, false, kind, inputs, 0, 0, task.window, grads)
    }

    /// The gradient of the table of a gather: the gradient scattered into zeros.
    fn grad_gather(&mut self, task: &TaskInfo, gradient: Value, grads: &mut Vec<Option<u32>>) -> (r: bool)
        requires
            old(self).wf(),
            owns(old(self)@, gradient),
            gradients_fit(old(self)@, old(grads)@.len(), old(grads)@),
            names_below(*task, old(grads)@.len()),
            room(old(self)@, 7),
        ensures
            final(self).wf(),
            extends(old(self)@, final(self)@),
            final(self)@.values.len() <= old(self)@.values.len() + 7,
            gradients_fit(final(self)@, old(grads)@.len(), final(grads)@),
            keeps_found(old(grads)@, final(grads)@),
            r == (task.inputs@[0] != NO_VALUE && task.inputs@[1] != NO_VALUE && (!tracked_id(old(self)@, task.inputs@[0])
                || gather_fits(old(self)@, task.inputs@[0], task.inputs@[1], gradient))),
            r && tracked_id(old(self)@, task.inputs@[0]) ==> gradient_found(old(self)@, final(grads)@, task.inputs@[0]),
            only_operands(old(self)@, *task, old(grads)@, final(grads)@),
            r && tracked_id(old(self)@, task.inputs@[0]) ==> appended(old(self)@, final(self)@, Kind::Scatter, inputs_of(old(self)@.values.len() as u32, task.inputs@[1], gradient.ident())),
    {
        let ghost count = grads@.len();
        if task.inputs[0] == NO_VALUE || task.inputs[1] == NO_VALUE {
            proof { lemma_pass_step(old(self)@, self@, count, grads@); lemma_extends_chain(old(self)@, self@, self@); }
            return false;
        }
        let table = self.value_of(task.inputs[0]);
        let indices = self.value_of(task.inputs[1]);
        if !self.tracks(table) {
            proof { lemma_pass_step(old(self)@, self@, count, grads@); lemma_extends_chain(old(self)@, self@, self@); }
            return true;
        }
        proof { lemma_operand_owner(old(self)@, *task, 0); }
        let zeros = self.fill(table.shape, 0);
        proof {
            lemma_grown_extends(old(self)@, self@, 1, 1);
            lemma_pass_step(old(self)@, self@, count, grads@);
        }
        if !self.scatterable(zeros, indices, gradient) {
            return false;
        }
        let ghost s1 = self@;
        self.scatter(zeros, indices, gradient);
        proof {
            lemma_grown_extends(s1, self@, 0, 1);
            lemma_extends_chain(old(self)@, s1, self@);
            lemma_pass_step(s1, self@, count, grads@);
        }
        let ghost s2 = self@;
        proof {
            assert(s2.tasks[s1.tasks.len() as int] == s2.tasks.last());
            assert(appended(s1, s2, Kind::Scatter, inputs_of(old(self)@.values.len() as u32, task.inputs@[1], gradient.ident())));
            lemma_appended_before(old(self)@, s1, s2, Kind::Scatter, inputs_of(old(self)@.values.len() as u32, task.inputs@[1], gradient.ident()));
        }
        proof {
            let g = self@;
            let info = g.values[table.ident() as int];
            let owner = g.values[info.storage as int];
            lemma_wf_value(g, table.ident() as int);
            lemma_wf_value(g, info.storage as int);
            if walks_owner(g, table) {
                lemma_shape_determined(info.shape, owner.shape);
            }
            assert(!accumulation_fails(g, grads@, table, zeros));
        }
        let ok = self.accumulate(grads, table, zeros);
        proof {
            lemma_extends_chain(old(self)@, s2, self@);
            lemma_appended_kept(old(self)@, s2, self@, Kind::Scatter, inputs_of(old(self)@.values.len() as u32, task.inputs@[1], gradient.ident()));
        }
        ok
    }
}

/// The gradients of a pass: one entry for each of `count` values, each a
/// value of the graph with the shape of the value it belongs to, found only
/// for owners of storage.
pub open spec fn gradient_law(g: GraphView, count: nat, entries: Seq<Option<Value>>) -> bool {
    &&& entries.len() == count
    &&& forall|i: int| 0 <= i < count && (#[trigger] entries[i]) is Some ==> {
        &&& owns(g, entries[i]->0)
        &&& entries[i]->0.form() == g.values[i].shape
        &&& g.values[i].storage == i
    }
}

proof fn lemma_wf_storages(g: GraphView)
    requires
        graph_wf(g),
    ensures
        forall|i: int| 0 <= i < g.values.len() ==> (#[trigger] g.values[i]).storage < g.values.len(),
{
    reveal(graph_wf);
}

impl Graph {
    /// The gradients a task passes back to its operands.
    fn backward_task(&mut self, task: &TaskInfo, gradient: Value, grads: &mut Vec<Option<u32>>) -> (r: bool)
        requires
            old(self).wf(),
            owns(old(self)@, gradient),
            gradients_fit(old(self)@, old(grads)@.len(), old(grads)@),
            names_below(*task, old(grads)@.len()),
            room(old(self)@, 21),
        ensures
            final(self).wf(),
            extends(old(self)@, final(self)@),
            final(self)@.values.len() <= old(self)@.values.len() + 21,
            gradients_fit(final(self)@, old(grads)@.len(), final(grads)@),
            keeps_found(old(grads)@, final(grads)@),
            task.kind is Argmax || task.kind is Categorical || task.kind is OneHot ==> !r,
            !(task.kind is Matmul || task.kind is Binary || task.kind is Unary || task.kind is Softmax || task.kind is LogSoftmax
                || task.kind is SumChunk || task.kind is SumAxis || task.kind is Attention || task.kind is Conv2d
                || task.kind is Gather || task.kind is PoolMax2d || task.kind is PoolMean2d || task.kind is Argmax
                || task.kind is Categorical || task.kind is OneHot) ==> r && final(self)@ == old(self)@ && final(grads)@ == old(grads)@,
            task.kind is Matmul ==> {
                &&& (task.inputs@[0] == NO_VALUE || task.inputs@[1] == NO_VALUE ==> !r)
                &&& (task.inputs@[0] != NO_VALUE && task.inputs@[1] != NO_VALUE && !tracked_id(old(self)@, task.inputs@[0])
                    && !tracked_id(old(self)@, task.inputs@[1]) ==> r && final(grads)@ == old(grads)@)
                &&& (task.inputs@[0] != NO_VALUE && task.inputs@[1] != NO_VALUE && tracked_id(old(self)@, task.inputs@[0])
                    && !products_meet(gradient.form()@, permuted(old(self)@.values[task.inputs@[1] as int].shape@, transposed())) ==> !r)
                &&& (task.inputs@[0] != NO_VALUE && task.inputs@[1] != NO_VALUE && tracked_id(old(self)@, task.inputs@[1])
                    && !products_meet(permuted(old(self)@.values[task.inputs@[0] as int].shape@, transposed()), gradient.form()@) ==> !r)
                &&& forall|k: int| 0 <= k < 2 && r && tracked_id(old(self)@, #[trigger] task.inputs@[k]) ==> gradient_found(old(self)@, final(grads)@, task.inputs@[k])
            },
            task.kind is Binary || task.kind is Unary ==> {
                &&& ((forall|i: int| 0 <= i < 16 ==> (#[trigger] op_list(old(self)@.ops)[i]).code != task.op) ==> !r)
                &&& (pointwise_fits(old(self)@, *task, gradient) ==> r)
                &&& (r ==> exists|i: int| 0 <= i < 16 && (#[trigger] op_list(old(self)@.ops)[i]).code == task.op
                    && forall|k: int| 0 <= k < 2 && k < op_list(old(self)@.ops)[i].operands && tracked_id(old(self)@, #[trigger] task.inputs@[k])
                        ==> gradient_found(old(self)@, final(grads)@, task.inputs@[k]))
            },
            task.kind is Softmax || task.kind is LogSoftmax || task.kind is PoolMax2d || task.kind is PoolMean2d ==> {
                &&& r == (task.inputs@[0] != NO_VALUE)
                &&& r && tracked_id(old(self)@, task.inputs@[0]) ==> gradient_found(old(self)@, final(grads)@, task.inputs@[0])
            },
            task.kind is SumChunk || task.kind is SumAxis ==> {
                &&& r == (task.inputs@[0] != NO_VALUE && (!tracked_id(old(self)@, task.inputs@[0])
                    || spreads_over(gradient.form()@, old(self)@.values[task.inputs@[0] as int].shape@)))
                &&& r && tracked_id(old(self)@, task.inputs@[0]) ==> gradient_found(old(self)@, final(grads)@, task.inputs@[0])
            },
            task.kind is Attention ==> {
                &&& r == (task.inputs@[0] != NO_VALUE && task.inputs@[1] != NO_VALUE && task.inputs@[2] != NO_VALUE && task.extra != NO_VALUE)
                &&& forall|k: int| 0 <= k < 3 && r && tracked_id(old(self)@, #[trigger] task.inputs@[k]) ==> gradient_found(old(self)@, final(grads)@, task.inputs@[k])
            },
            task.kind is Conv2d ==> {
                &&& r == (task.inputs@[0] != NO_VALUE && task.inputs@[1] != NO_VALUE)
                &&& forall|k: int| 0 <= k < 2 && r && tracked_id(old(self)@, #[trigger] task.inputs@[k]) ==> gradient_found(old(self)@, final(grads)@, task.inputs@[k])
            },
            task.kind is Gather ==> {
                &&& r == (task.inputs@[0] != NO_VALUE && task.inputs@[1] != NO_VALUE && (!tracked_id(old(self)@, task.inputs@[0])
                    || gather_fits(old(self)@, task.inputs@[0], task.inputs@[1], gradient)))
                &&& r && tracked_id(old(self)@, task.inputs@[0]) ==> gradient_found(old(self)@, final(grads)@, task.inputs@[0])
            },
            only_operands(old(self)@, *task, old(grads)@, final(grads)@),
            task.kind is Softmax && r && tracked_id(old(self)@, task.inputs@[0]) ==> appended(old(self)@, final(self)@, Kind::SoftmaxGrad,
                seq![task.out, gradient.ident(), NO_VALUE, NO_VALUE, NO_VALUE, NO_VALUE]),
            task.kind is LogSoftmax && r && tracked_id(old(self)@, task.inputs@[0]) ==> appended(old(self)@, final(self)@, Kind::LogSoftmaxGrad,
                seq![task.out, gradient.ident(), NO_VALUE, NO_VALUE, NO_VALUE, NO_VALUE]),
            task.kind is PoolMax2d && r && tracked_id(old(self)@, task.inputs@[0]) ==> appended(old(self)@, final(self)@, Kind::PoolMax2dInputGrad,
                seq![task.inputs@[0], gradient.ident(), NO_VALUE, NO_VALUE, NO_VALUE, NO_VALUE]),
            task.kind is PoolMean2d && r && tracked_id(old(self)@, task.inputs@[0]) ==> appended(old(self)@, final(self)@, Kind::PoolMean2dInputGrad,
                seq![task.inputs@[0], gradient.ident(), NO_VALUE, NO_VALUE, NO_VALUE, NO_VALUE]),
            (task.kind is SumChunk || task.kind is SumAxis) && r && tracked_id(old(self)@, task.inputs@[0]) ==> appended(old(self)@, final(self)@,
                Kind::Broadcast, inputs_of(gradient.ident(), NO_VALUE, NO_VALUE)),
            task.kind is Gather && r && tracked_id(old(self)@, task.inputs@[0]) ==> appended(old(self)@, final(self)@, Kind::Scatter,
                inputs_of(old(self)@.values.len() as u32, task.inputs@[1], gradient.ident())),
            task.kind is Conv2d && r && tracked_id(old(self)@, task.inputs@[0]) ==> appended(old(self)@, final(self)@, Kind::Conv2dInputGrad,
                seq![task.inputs@[1], gradient.ident(), NO_VALUE, NO_VALUE, NO_VALUE, NO_VALUE]),
            task.kind is Conv2d && r && tracked_id(old(self)@, task.inputs@[1]) ==> appended(old(self)@, final(self)@, Kind::Conv2dWeightGrad,
                seq![task.inputs@[0], gradient.ident(), task.inputs@[1], NO_VALUE, NO_VALUE, NO_VALUE]),
            task.kind is Attention && r && tracked_id(old(self)@, task.inputs@[0]) ==> appended(old(self)@, final(self)@, Kind::AttentionQueryGrad,
                seq![task.inputs@[0], task.inputs@[1], task.inputs@[2], gradient.ident(), task.out, task.extra]),
            task.kind is Attention && r && tracked_id(old(self)@, task.inputs@[1]) ==> appended(old(self)@, final(self)@, Kind::AttentionKeyGrad,
                seq![task.inputs@[0], task.inputs@[1], task.inputs@[2], gradient.ident(), task.out, task.extra]),
            task.kind is Attention && r && tracked_id(old(self)@, task.inputs@[2]) ==> appended(old(self)@, final(self)@, Kind::AttentionValueGrad,
                seq![task.inputs@[0], task.inputs@[1], NO_VALUE, gradient.ident(), NO_VALUE, task.extra]),
            task.kind is Matmul && r && tracked_id(old(self)@, task.inputs@[0]) ==> appended(old(self)@, final(self)@, Kind::Matmul,
                inputs_of(gradient.ident(), old(self)@.values.len() as u32, NO_VALUE))
                && transposed_view(final(self)@, old(self)@.values.len() as int, task.inputs@[1]),
            task.kind is Matmul && r && tracked_id(old(self)@, task.inputs@[1]) ==> exists|v: u32| appended(old(self)@, final(self)@, Kind::Matmul,
                inputs_of(v, gradient.ident(), NO_VALUE)) && #[trigger] transposed_view(final(self)@, v as int, task.inputs@[0]),
            (task.kind is Binary || task.kind is Unary) && r ==> exists|i: int| 0 <= i < 16 && (#[trigger] op_list(old(self)@.ops)[i]).code == task.op
                && forall|k: int| 0 <= k < 2 && k < op_list(old(self)@.ops)[i].operands && tracked_id(old(self)@, #[trigger] task.inputs@[k])
                    ==> formula(op_list(old(self)@.ops)[i], k) is Gradient || partial_appended(old(self)@, final(self)@, *task, formula(op_list(old(self)@.ops)[i], k), k, gradient.ident()),
            (task.kind is Binary || task.kind is Unary) && untracked_pointwise(old(self)@, *task) ==> r,
    {
        match task.kind {
            Kind::Matmul => self.grad_matmul(task, gradient, grads),
            Kind::Binary | Kind::Unary => self.grad_pointwise(task, gradient, grads),
            Kind::Softmax => self.grad_rows(Kind::SoftmaxGrad, task, gradient, grads),
            Kind::LogSoftmax => self.grad_rows(Kind::LogSoftmaxGrad, task, gradient, grads),
            Kind::SumChunk | Kind::SumAxis => self.grad_sum(task, gradient, grads),
            Kind::Attention => self.grad_attention(task, gradient, grads),
            Kind::Conv2d => self.grad_conv(task, gradient, grads),
            Kind::Gather => self.grad_gather(task, gradient, grads),
            Kind::PoolMax2d => self.grad_pool(Kind::PoolMax2dInputGrad, task, gradient, grads),
            Kind::PoolMean2d => self.grad_pool(Kind::PoolMean2dInputGrad, task, gradient, grads),
            Kind::Argmax | Kind::Categorical | Kind::OneHot => {
                proof {
                    lemma_extends_chain(old(self)@, self@, self@);
                }
                false
            },
            _ => {
                proof {
                    lemma_extends_chain(old(self)@, self@, self@);
                }
                true
            },
        }
    }

    /// Differentiates a scalar loss: walks the tasks back from the last,
    /// passing each gradient to the operands that get one, and adds up the
    /// contributions each owner of storage receives. The loss is retained and
    /// the graph is marked as differentiated. Nothing where a contribution
    /// cannot land in its owner, or a task that yields indices meets a gradient.
    pub fn backward(&mut self, loss: Value) -> (r: Option<Gradients>)
        requires
            old(self).wf(),
            owns(old(self)@, loss),
            !old(self)@.differentiated,
            !old(self)@.updated_in_place,
            tracks(old(self)@, loss),
            product(loss.form()@) == 1,
            room(old(self)@, 21 * old(self)@.tasks.len() + 7),
        ensures
            final(self).wf(),
            final(self)@.differentiated,
            !final(self)@.updated_in_place,
            final(self)@.instance == old(self)@.instance,
            final(self)@.ops == old(self)@.ops,
            final(self)@.values.len() >= old(self)@.values.len(),
            final(self)@.tasks.len() >= old(self)@.tasks.len(),
            forall|t: int| 0 <= t < old(self)@.tasks.len() ==> #[trigger] final(self)@.tasks[t] == old(self)@.tasks[t],
            ({
                let s = old(self)@.values[loss.ident() as int].storage as int;
                forall|i: int| 0 <= i < old(self)@.values.len() ==> #[trigger] final(self)@.values[i] == if i == s {
                    retained(old(self)@.values[i])
                } else {
                    old(self)@.values[i]
                }
            }),
            r matches Some(g) ==> gradient_law(final(self)@, old(self)@.values.len(), g.entries())
                && g.entries()[old(self)@.values[loss.ident() as int].storage as int] is Some,
            old(self)@.tasks.len() == 0 && old(self)@.values[loss.ident() as int].storage == loss.ident() && laid_out(old(self)@, loss)
                ==> r is Some,
            (forall|t: int| 0 <= t < old(self)@.tasks.len() ==> passes(old(self)@, #[trigger] old(self)@.tasks[t]))
                && old(self)@.values[loss.ident() as int].storage == loss.ident() && laid_out(old(self)@, loss) ==> r is Some,
            r matches Some(g) ==> forall|i: int| 0 <= i < old(self)@.values.len() && (#[trigger] g.entries()[i]) is Some
                ==> gradient_reaches(old(self)@, old(self)@.values[loss.ident() as int].storage as int, i),
    {
        proof {
            lemma_wf_value(self@, loss.ident() as int);
        }
        let storage = self.values[loss.id as usize].storage;
        self.retain(loss);
        let ghost retained_state = self@;
        self.differentiated = true;
        proof {
            lemma_wf_flags(retained_state, self@);
        }
        let ghost kept = self@;
        let forward = self.tasks.len();
        let count = self.values.len();
        let mut grads: Vec<Option<u32>> = Vec::new();
        let mut i: usize = 0;
        while i < count
            invariant
                i <= count,
                grads@.len() == i,
                forall|j: int| 0 <= j < i ==> (#[trigger] grads@[j]) is None,
            decreases count - i,
        {
            grads.push(None);
            i += 1;
        }
        proof {
            lemma_wf_storages(self@);
            assert(gradients_fit(self@, count as nat, grads@));
        }
        let seed = self.fill(loss.shape, 0x3f80_0000);
        proof {
            lemma_grown_extends(kept, self@, 1, 1);
            lemma_pass_step(kept, self@, count as nat, grads@);
        }
        let ghost seeded = self@;
        proof {
            if old(self)@.values[loss.ident() as int].storage == loss.ident() && laid_out(old(self)@, loss) {
                assert(seeded.values[loss.ident() as int] == retained(old(self)@.values[loss.ident() as int]));
                assert(walks_owner(seeded, loss));
                assert(grads@[loss.ident() as int] is None);
                assert(lands(seeded, seed));
                assert(!accumulation_fails(seeded, grads@, loss, seed));
            }
        }
        if !self.accumulate(&mut grads, loss, seed) {
            proof {
                lemma_extends_chain(kept, seeded, self@);
            }
            return None;
        }
        proof {
            lemma_extends_chain(kept, seeded, self@);
        }
        let mut index = forward;
        while index > 0
            invariant
                self.wf(),
                index <= forward,
                forward == kept.tasks.len(),
                count == kept.values.len(),
                kept.values.len() + 21 * kept.tasks.len() + 7 < NO_VALUE,
                kept.differentiated,
                !kept.updated_in_place,
                graph_wf(kept),
                extends(kept, self@),
                self@.values.len() <= count + 7 + 21 * (forward - index),
                grads@.len() == count,
                gradients_fit(self@, count as nat, grads@),
                grads@[storage as int] is Some,
                storage < count,
                loss.ident() < old(self)@.values.len(),
                old(self)@.values.len() == count,
                storage == old(self)@.values[loss.ident() as int].storage,
                kept.instance == old(self)@.instance,
                kept.ops == old(self)@.ops,
                kept.tasks == old(self)@.tasks,
                kept.values == old(self)@.values.update(storage as int, retained(old(self)@.values[storage as int])),
                forall|i: int| 0 <= i < count && (#[trigger] grads@[i]) is Some ==> i == storage
                    || exists|t: int| index <= t < forward && operand_owner(old(self)@, #[trigger] old(self)@.tasks[t], i),
            decreases index,
        {
            index -= 1;
            let task = self.tasks[index].copy();
            proof {
                assert(self@.tasks[index as int] == kept.tasks[index as int]);
                lemma_wf_task(kept, index as int);
                assert forall|k: int| 0 <= k < 6 implies (#[trigger] task.inputs@[k] == NO_VALUE || task.inputs@[k] < count) by {
                    assert(names(kept, kept.tasks[index as int].inputs@[k]));
                }
            }
            let owner = self.owner_of(task.out);
            match grads[owner as usize] {
                None => {},
                Some(g) => {
                    let gradient = self.value_of(g);
                    let ghost before = self@;
                    let ghost before_grads = grads@;
                    proof {
                        let t = index as int;
                        if forall|u: int| 0 <= u < old(self)@.tasks.len() ==> passes(old(self)@, #[trigger] old(self)@.tasks[u]) {
                            let ot = old(self)@.tasks[t];
                            assert(passes(old(self)@, ot));
                            assert(task.kind == ot.kind && task.inputs@ == ot.inputs@ && task.op == ot.op && task.extra == ot.extra && task.out == ot.out);
                            assert(task.out < count);
                            assert forall|k: int| 0 <= k < 6 && #[trigger] task.inputs@[k] != NO_VALUE implies
                                before.values[task.inputs@[k] as int].shape == old(self)@.values[task.inputs@[k] as int].shape
                                && tracked_id(before, task.inputs@[k]) == tracked_id(old(self)@, task.inputs@[k]) by {
                                assert(task.inputs@[k] < count);
                                assert(before.values[task.inputs@[k] as int] == kept.values[task.inputs@[k] as int]);
                            }
                            assert(before.values[task.out as int] == kept.values[task.out as int]);
                            assert(before.values[owner as int] == kept.values[owner as int]);
                            assert(gradient.form()@ == received(old(self)@, ot));
                            assert(before.ops == old(self)@.ops);
                        }
                    }
                    let ok = self.backward_task(&task, gradient, &mut grads);
                    proof {
                        lemma_extends_chain(kept, before, self@);
                        let t = index as int;
                        assert forall|i: int| 0 <= i < count && (#[trigger] grads@[i]) is Some implies i == storage
                            || exists|u: int| index <= u < forward && operand_owner(old(self)@, #[trigger] old(self)@.tasks[u], i) by {
                            if before_grads[i] is Some {
                                if i != storage {
                                    let u = choose|u: int| index + 1 <= u < forward && operand_owner(old(self)@, #[trigger] old(self)@.tasks[u], i);
                                    assert(index <= u < forward && operand_owner(old(self)@, old(self)@.tasks[u], i));
                                }
                            } else {
                                assert(grads@[i] != before_grads[i]);
                                assert(operand_owner(before, task, i));
                                let k = choose|k: int| 0 <= k < 6 && task.inputs@[k] != NO_VALUE && #[trigger] tracked_id(before, task.inputs@[k])
                                    && before.values[task.inputs@[k] as int].storage == i;
                                assert(task.inputs@[k] == old(self)@.tasks[t].inputs@[k]);
                                assert(task.inputs@[k] < count);
                                assert(before.values[task.inputs@[k] as int] == kept.values[task.inputs@[k] as int]);
                                assert(tracked_id(old(self)@, old(self)@.tasks[t].inputs@[k]));
                                assert(operand_owner(old(self)@, old(self)@.tasks[t], i));
                            }
                        }
                    }
                    if !ok {
                        proof {
                            assert forall|i: int| 0 <= i < old(self)@.values.len() implies #[trigger] self@.values[i]
                                == if i == storage { retained(old(self)@.values[i]) } else { old(self)@.values[i] } by {
                                assert(self@.values[i] == kept.values[i]);
                            }
                        }
                        return None;
                    }
                },
            }
        }
        let mut entries: Vec<Option<Value>> = Vec::new();
        let mut k: usize = 0;
        while k < count
            invariant
                self.wf(),
                k <= count,
                grads@.len() == count,
                gradients_fit(self@, count as nat, grads@),
                entries@.len() == k,
                forall|j: int| 0 <= j < k ==> (#[trigger] entries@[j]) is Some == grads@[j] is Some,
                forall|j: int| 0 <= j < k && (#[trigger] entries@[j]) is Some ==> {
                    &&& owns(self@, entries@[j]->0)
                    &&& entries@[j]->0.form() == self@.values[j].shape
                    &&& self@.values[j].storage == j
                },
            decreases count - k,
        {
            let entry = match grads[k] {
                Some(g) => Some(self.value_of(g)),
                None => None,
            };
            entries.push(entry);
            k += 1;
        }
        proof {
            assert(entries@[storage as int] is Some);
        }
        Some(Gradients { values: entries })
    }
}

impl Graph {
    /// Whether `value` reads as `shape`: it is walked row by row and holds as
    /// many numbers.
    pub fn can_reshape(&self, value: Value, shape: Shape) -> (r: bool)
        requires
            self.wf(),
            owns(self@, value),
        ensures
            r == (laid_out(self@, value) && product(shape@) == product(value.form()@)),
    {
        self.laid_out(value) && shape.elements() == value.shape.elements()
    }

    /// Whether `order` names each of the four axes once.
    pub fn is_permutation(order: [u32; 4]) -> (r: bool)
        ensures
            r == permutation(order@),
    {
        let mut walked: u32 = 0;
        let mut i: usize = 0;
        proof {
            assert forall|x: u32| x < 4 implies (walked >> x) & 1 != 1 by {
                assert((0u32 >> x) & 1 == 0) by (bit_vector);
            }
        }
        while i < 4
            invariant
                i <= 4,
                forall|a: int| 0 <= a < i ==> order@[a] < 4,
                forall|a: int, b: int| 0 <= a < i && 0 <= b < i && a != b ==> order@[a] != order@[b],
                forall|x: u32| x < 4 ==> ((walked >> x) & 1 == 1 <==> exists|a: int| 0 <= a < i && order@[a] == x),
                walked < 16,
            decreases 4 - i,
        {
            let axis = order[i];
            if axis >= 4 {
                return false;
            }
            if (walked >> axis) & 1 == 1 {
                proof {
                    let a = choose|a: int| 0 <= a < i && order@[a] == axis;
                    assert(order@[a] == order@[i as int]);
                }
                return false;
            }
            let before = walked;
            walked = walked | (1u32 << axis);
            proof {
                assert forall|x: u32| x < 4 implies ((walked >> x) & 1 == 1 <==> ((before >> x) & 1 == 1 || x == axis)) by {
                    assert(((before | (1u32 << axis)) >> x) & 1 == 1 <==> ((before >> x) & 1 == 1 || x == axis)) by (bit_vector)
                        requires
                            x < 4,
                            axis < 4,
                    ;
                }
                assert(walked < 16) by (bit_vector)
                    requires
                        walked == before | (1u32 << axis),
                        before < 16,
                        axis < 4,
                ;
                assert forall|x: u32| x < 4 implies ((walked >> x) & 1 == 1 <==> exists|a: int| 0 <= a < i + 1 && order@[a] == x) by {
                    if (walked >> x) & 1 == 1 && x != axis {
                        let a = choose|a: int| 0 <= a < i && order@[a] == x;
                        assert(0 <= a < i + 1 && order@[a] == x);
                    }
                    if x == axis {
                        assert(order@[i as int] == x);
                    }
                }
            }
            i += 1;
        }
        true
    }
}

/// Swapping the last two axes twice walks a value as before.
pub proof fn lemma_transposing_twice_restores(d: Seq<nat>, s: Seq<u32>)
    requires
        d.len() == 4,
        s.len() == 4,
    ensures
        permuted(permuted(d, transposed()), transposed()) == d,
        permuted_strides(permuted_strides(s, transposed()), transposed()) == s,
{
    assert(permuted(permuted(d, transposed()), transposed()) =~= d);
    assert(permuted_strides(permuted_strides(s, transposed()), transposed()) =~= s);
}

} // verus!
