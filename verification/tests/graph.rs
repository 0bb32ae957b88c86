use neura::element::Element;
use neura::graph::{AttentionOptions, Graph, Op, Ops, Partial, Residency, Value};
use neura::init::Init;
use neura::kind::Kind;
use neura::pool::Pool;
use neura::shape::Shape;
use neura::window::Window;

fn op(code: u32, kind: Kind, operands: u32, first: Partial, second: Partial) -> Op {
    Op { code, kind, operands, first, second }
}

fn ops() -> Ops {
    let through = Partial::Gradient;
    let other = Partial::Formula { result: false, operand: false, other: true };
    let result = Partial::Formula { result: true, operand: false, other: false };
    let operand = Partial::Formula { result: false, operand: true, other: false };
    Ops {
        none: 0,
        add: op(1, Kind::Binary, 2, through, through),
        mul: op(2, Kind::Binary, 2, other, other),
        sub: op(3, Kind::Binary, 2, through, operand),
        div: op(4, Kind::Binary, 2, other, other),
        maximum: op(5, Kind::Binary, 2, other, other),
        minimum: op(6, Kind::Binary, 2, other, other),
        relu: op(7, Kind::Unary, 1, result, through),
        sqrt: op(8, Kind::Unary, 1, result, through),
        recip: op(9, Kind::Unary, 1, result, through),
        exp: op(10, Kind::Unary, 1, result, through),
        log: op(11, Kind::Unary, 1, operand, through),
        tanh: op(12, Kind::Unary, 1, result, through),
        sigmoid: op(13, Kind::Unary, 1, result, through),
        neg: op(14, Kind::Unary, 1, operand, through),
        abs: op(15, Kind::Unary, 1, operand, through),
        identity: op(16, Kind::Unary, 1, through, through),
    }
}

fn strides(graph: &Graph, value: Value) -> [u32; 4] {
    graph.snapshot().values()[value.id() as usize].strides
}

#[test]
fn a_snapshot_keeps_the_graph_as_it_was_authored() {
    let mut graph = Graph::new(1, ops());
    graph.input(Shape::vector(4), Element::Single);
    let before = graph.snapshot();
    graph.fill(Shape::vector(4), 2.0f32.to_bits());
    let after = graph.snapshot();

    assert_eq!(before.values().len(), 1);
    assert!(before.tasks().is_empty());
    assert_eq!(after.values().len(), 2);
    assert_eq!(after.tasks().len(), 1);
    assert_eq!(after.tasks()[0].kind, Kind::Fill);
}

#[test]
fn a_reshape_walks_the_numbers_of_its_storage_row_by_row() {
    let mut graph = Graph::new(1, ops());
    let matrix = graph.parameter(Shape::matrix(3, 5), Init::Zero, Element::Single);
    let flattened = graph.reshape(matrix, Shape::vector(15));
    assert_eq!(flattened.shape(), Shape::vector(15));
    assert_eq!(strides(&graph, flattened), [0, 0, 0, 1]);
    let folded = graph.reshape(flattened, Shape::of(&[3, 1, 5, 1]));
    assert_eq!(folded.shape(), Shape::of(&[3, 1, 5, 1]));
    assert_eq!(strides(&graph, folded), [5, 0, 1, 0]);
}

#[test]
fn a_reshape_holds_the_numbers_of_the_tensor_it_reads() {
    let mut graph = Graph::new(1, ops());
    let matrix = graph.parameter(Shape::matrix(3, 5), Init::Zero, Element::Single);
    assert!(!graph.can_reshape(matrix, Shape::vector(16)));
    assert!(graph.can_reshape(matrix, Shape::vector(15)));
}

#[test]
fn a_reshape_reads_a_tensor_its_storage_lays_out_row_by_row() {
    let mut graph = Graph::new(1, ops());
    let matrix = graph.parameter(Shape::matrix(3, 5), Init::Zero, Element::Single);
    let turned = graph.permute(matrix, [0, 1, 3, 2]);
    assert!(!graph.can_reshape(turned, Shape::vector(15)));
}

#[test]
fn a_permutation_walks_each_axis_of_its_source_once() {
    let mut graph = Graph::new(1, ops());
    let tensor = graph.parameter(Shape::of(&[2, 3, 4, 5]), Init::Zero, Element::Single);
    assert!(!Graph::is_permutation([0, 1, 2, 2]));
    assert!(!Graph::is_permutation([0, 1, 2, 4]));
    assert!(Graph::is_permutation([3, 0, 2, 1]));
    let turned = graph.permute(tensor, [0, 1, 3, 2]);
    assert_eq!(turned.shape(), Shape::of(&[2, 3, 5, 4]));
    assert_eq!(strides(&graph, turned), [60, 20, 1, 5]);
    let turned_again = graph.permute(turned, [0, 1, 3, 2]);
    assert_eq!(turned_again.shape(), tensor.shape());
    assert_eq!(strides(&graph, turned_again), strides(&graph, tensor));
}

#[test]
fn a_matmul_records_its_task_and_broadcasts_its_batches() {
    let mut graph = Graph::new(7, ops());
    let left = graph.parameter(Shape::of(&[2, 1, 3, 4]), Init::Zero, Element::Single);
    let right = graph.input(Shape::of(&[1, 5, 4, 6]), Element::Single);
    let out = graph.matmul(left, right);
    assert_eq!(out.shape(), Shape::of(&[2, 5, 3, 6]));
    let snapshot = graph.snapshot();
    let task = &snapshot.tasks()[0];
    assert_eq!(task.kind, Kind::Matmul);
    assert_eq!(task.out, out.id());
    assert_eq!(task.inputs, [left.id(), right.id(), u32::MAX, u32::MAX, u32::MAX, u32::MAX]);
    let info = &snapshot.values()[out.id() as usize];
    assert_eq!(info.residency, Residency::Derived);
    assert!(info.requires_grad, "a product of a parameter gets a gradient");
}

#[test]
fn a_pointwise_operation_meets_its_operands_axis_by_axis() {
    let mut graph = Graph::new(1, ops());
    let row = graph.input(Shape::of(&[1, 4]), Element::Single);
    let column = graph.input(Shape::of(&[3, 1]), Element::Single);
    let sum = graph.add(row, column);
    assert_eq!(sum.shape(), Shape::matrix(3, 4));
    let snapshot = graph.snapshot();
    assert_eq!(snapshot.tasks()[0].kind, Kind::Binary);
    assert_eq!(snapshot.tasks()[0].op, 1);
    assert!(!snapshot.values()[sum.id() as usize].requires_grad);
    let cut = graph.relu(sum);
    assert_eq!(cut.shape(), sum.shape());
    assert_eq!(graph.snapshot().tasks()[1].kind, Kind::Unary);
    assert_eq!(graph.snapshot().tasks()[1].op, 7);
}

#[test]
fn a_convolution_walks_its_padded_input() {
    let mut graph = Graph::new(1, ops());
    let input = graph.input(Shape::of(&[1, 4, 8, 8]), Element::Single);
    let filter = graph.parameter(Shape::of(&[6, 2, 3, 3]), Init::Zero, Element::Single);
    let window = Window::new([3, 3], [2, 2], [1, 1]);
    let out = graph.conv2d(input, filter, window);
    assert_eq!(out.shape(), Shape::of(&[1, 6, 4, 4]));
    let pooled = graph.pool2d(out, Window::sliding([2, 2]), Pool::Max);
    assert_eq!(pooled.shape(), Shape::of(&[1, 6, 3, 3]));
    assert_eq!(graph.snapshot().tasks()[1].kind, Kind::PoolMax2d);
}

#[test]
fn an_attention_records_the_log_sum_of_its_weights() {
    let mut graph = Graph::new(1, ops());
    let query = graph.parameter(Shape::of(&[1, 2, 3, 4]), Init::Zero, Element::Single);
    let key = graph.input(Shape::of(&[1, 2, 3, 4]), Element::Single);
    let value = graph.input(Shape::of(&[1, 2, 3, 5]), Element::Single);
    assert!(!Graph::weighs(0.0f32.to_bits()));
    assert!(!Graph::weighs(f32::INFINITY.to_bits()));
    assert!(!Graph::weighs(f32::NAN.to_bits()));
    assert!(Graph::weighs(0.5f32.to_bits()));
    let options = AttentionOptions { scale: 0.5f32.to_bits(), causal: true };
    let out = graph.attention(query, key, value, options);
    assert_eq!(out.shape(), Shape::of(&[1, 2, 3, 5]));
    let snapshot = graph.snapshot();
    let task = &snapshot.tasks()[0];
    assert_eq!(task.kind, Kind::Attention);
    assert_eq!(task.extra, out.id() + 1);
    assert_eq!(task.slot, 1);
    assert_eq!(task.param, 0.5f32.to_bits());
    assert_eq!(snapshot.values()[task.extra as usize].shape, Shape::of(&[1, 2, 3, 1]));
}

#[test]
fn an_update_in_place_marks_its_leaf() {
    let mut graph = Graph::new(1, ops());
    let weights = graph.parameter(Shape::vector(4), Init::Zero, Element::Single);
    let step = graph.input(Shape::vector(4), Element::Single);
    assert!(!graph.updates_weights());
    assert!(graph.updatable(weights, step));
    let derived = graph.add(weights, step);
    assert!(!graph.updatable(derived, step), "only a leaf updates in place");
    graph.add_into(weights, step);
    assert!(graph.updates_weights());
    let snapshot = graph.snapshot();
    assert!(snapshot.values()[weights.id() as usize].written_in_place);
    assert!(snapshot.tasks()[1].in_place);
    assert_eq!(snapshot.tasks()[1].out, weights.id());
}

#[test]
fn a_retained_view_retains_its_storage() {
    let mut graph = Graph::new(1, ops());
    let matrix = graph.input(Shape::matrix(2, 3), Element::Single);
    let turned = graph.permute(matrix, [0, 1, 3, 2]);
    graph.retain(turned);
    let snapshot = graph.snapshot();
    assert!(snapshot.values()[matrix.id() as usize].retained);
    assert!(!snapshot.values()[turned.id() as usize].retained);
}

#[test]
fn a_gradient_has_the_shape_of_the_tensor_it_reaches() {
    let mut graph = Graph::new(3, ops());
    let weights = graph.parameter(Shape::matrix(2, 3), Init::Zero, Element::Single);
    let bias = graph.parameter(Shape::of(&[1, 4]), Init::Zero, Element::Single);
    let input = graph.input(Shape::matrix(3, 4), Element::Single);
    let product = graph.matmul(weights, input);
    let shifted = graph.add(product, bias);
    let cut = graph.relu(shifted);
    let loss = graph.sum(cut);
    let tasks = graph.task_count();
    let gradients = graph.backward(loss).expect("every contribution lands");
    assert!(graph.task_count() > tasks);
    assert!(gradients.reaches(weights));
    assert!(gradients.reaches(bias));
    assert!(!gradients.reaches(input), "an input gets no gradient");
    assert_eq!(gradients.of(weights).shape(), weights.shape());
    assert_eq!(gradients.of(bias).shape(), bias.shape());
    assert_eq!(gradients.of(loss).shape(), Shape::scalar());
    assert!(graph.snapshot().values()[loss.id() as usize].retained);
}

#[test]
fn an_index_carries_no_gradient() {
    let mut graph = Graph::new(1, ops());
    let logits = graph.parameter(Shape::matrix(2, 3), Init::Zero, Element::Single);
    let picked = graph.argmax(logits);
    assert_eq!(picked.shape(), Shape::matrix(2, 1));
    let hot = graph.one_hot(picked, 3);
    let weighed = graph.mul(hot, logits);
    let loss = graph.sum(weighed);
    let gradients = graph.backward(loss).expect("the gradient skips the indices");
    assert!(gradients.reaches(logits));
    assert!(!gradients.reaches(picked));
}

#[test]
fn a_gather_scatters_its_gradient_back_into_the_table() {
    let mut graph = Graph::new(1, ops());
    let table = graph.parameter(Shape::matrix(5, 3), Init::Zero, Element::Single);
    let indices = graph.input(Shape::matrix(2, 1), Element::Single);
    let rows = graph.gather(table, indices);
    assert_eq!(rows.shape(), Shape::matrix(2, 3));
    let loss = graph.sum(rows);
    let gradients = graph.backward(loss).expect("the rows land in the table");
    assert_eq!(gradients.of(table).shape(), table.shape());
    let snapshot = graph.snapshot();
    assert!(snapshot.tasks().iter().any(|task| task.kind == Kind::Scatter));
}

#[test]
fn a_uniform_draw_steps_its_entropy() {
    let mut entropy = 1u32;
    let numerator = neura::init::unit_numerator(&mut entropy);
    assert_eq!(entropy, 270369);
    assert_eq!(numerator, 270369 >> 8);
    assert!(numerator < 1 << 24);
}

#[test]
fn a_window_declares_how_it_walks_its_input() {
    let window = Window::new([3, 5], [2, 4], [1, 6]);
    assert_eq!(window.reach_rows(), 3);
    assert_eq!(window.reach_columns(), 5);
    assert_eq!(window.stride_rows(), 2);
    assert_eq!(window.stride_columns(), 4);
    assert_eq!(window.pad_rows(), 1);
    assert_eq!(window.pad_columns(), 6);
    let sliding = Window::sliding([3, 3]);
    assert_eq!(sliding.stride_rows(), 1);
    assert_eq!(sliding.stride_columns(), 1);
    assert_eq!(sliding.pad_rows(), 0);
    assert_eq!(sliding.pad_columns(), 0);
    assert_eq!(sliding.reach_rows(), 3);
    assert!(Window::try_new([0, 3], [1, 1], [0, 0]).is_none());
    assert!(Window::try_new([3, 3], [0, 1], [0, 0]).is_none());
    assert!(Window::try_sliding([3, 0]).is_none());
}

#[test]
fn a_parameter_multiplied_into_a_sum_gets_a_gradient_of_its_shape() {
    let mut graph = Graph::new(2, ops());
    let shape = Shape::matrix(2, 3);
    let weights = graph.parameter(shape, Init::Zero, Element::Single);
    let input = graph.input(shape, Element::Single);
    let product = graph.mul(weights, input);
    let loss = graph.sum(product);
    let gradients = graph.backward(loss).expect("every task passes its gradient back");
    assert!(gradients.reaches(weights));
    assert!(!gradients.reaches(input));
    assert_eq!(gradients.of(weights).shape(), shape);
}
