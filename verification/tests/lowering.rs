use neura::compiler::{CompileError, Compiler, Kernel};
use neura::ir::{Argument, BinaryOperator, Expression, Function, IntegerType, Statement, Type};
use neura::lowered::{BinaryOp, Expr, ShaderType, Stmt};
use neura::program::BindingSpec;
use neura::uniform::Divergence;

fn name(text: &str) -> Expression {
    Expression::name(text.to_owned())
}

fn u32(value: u32) -> Expression {
    Expression::u32(value)
}

fn call(callee: &str, arguments: Vec<Expression>) -> Expression {
    Expression::call(callee.to_owned(), arguments)
}

fn binary(op: BinaryOperator, left: Expression, right: Expression) -> Expression {
    Expression::Binary { op, left: Box::new(left), right: Box::new(right) }
}

fn index(base: Expression, at: Expression) -> Expression {
    Expression::Index { base: Box::new(base), index: Box::new(at) }
}

fn assign(place: Expression, value: Expression) -> Statement {
    Statement::Assign { place, value, operator: None }
}

fn binding(text: &str, mutable: bool, value: Expression) -> Statement {
    Statement::Let { name: text.to_owned(), mutable, value }
}

fn counted(variable: &str, start: Expression, end: Expression, unroll: bool, body: Vec<Statement>) -> Statement {
    Statement::For { name: variable.to_owned(), start, end, step: u32(1), unroll, body }
}

fn barrier() -> Statement {
    Statement::Expression(call("workgroup_barrier", vec![]))
}

fn function(text: &str, arguments: &[&str], result: Option<&str>, body: Vec<Statement>) -> Function {
    Function {
        name: text.to_owned(),
        arguments: arguments
            .iter()
            .map(|argument| Argument { name: (*argument).to_owned(), ty: Type::Named("u32".to_owned()) })
            .collect(),
        result: result.map(|ty| Type::Named(ty.to_owned())),
        body,
    }
}

fn kernel(body: Vec<Statement>) -> Function {
    function("main", &["lid"], None, body)
}

fn compiled(element: &str, label: &str, functions: Vec<Function>) -> Result<Kernel, CompileError> {
    let mut compiler = Compiler::new();
    compiler.storage_array("output", element, BindingSpec::writable_storage(0)).unwrap();
    for f in functions {
        compiler.function(f);
    }
    compiler.finish(label, "main", 64)
}

fn compiled_u32(label: &str, functions: Vec<Function>) -> Result<Kernel, CompileError> {
    compiled("u32", label, functions)
}

fn compiled_f32(label: &str, functions: Vec<Function>) -> Result<Kernel, CompileError> {
    compiled("f32", label, functions)
}

fn registers(body: Vec<Statement>) -> Vec<Statement> {
    let mut all = vec![binding("registers", true, call("scalar_array", vec![Expression::Float(0), u32(4)]))];
    all.extend(body);
    all
}

#[test]
fn compile_time_unrolling_folds_register_indices_into_literals() {
    let source = kernel(vec![counted(
        "row",
        u32(0),
        u32(4),
        true,
        vec![
            binding(
                "register",
                false,
                binary(BinaryOperator::Add, binary(BinaryOperator::Multiply, name("row"), u32(4)), u32(1)),
            ),
            assign(index(name("output"), name("register")), name("register")),
        ],
    )]);
    let program = compiled_u32("unrolled", vec![source]).unwrap();
    let function = &program.module.entry;
    assert!(function.locals.is_empty());
    assert_eq!(function.body.iter().filter(|statement| matches!(statement, Stmt::Block(_))).count(), 4);
}

#[test]
fn scalar_registers_are_named_naga_locals_instead_of_indexed_arrays() {
    let source = kernel(registers(vec![
        counted(
            "lane",
            u32(0),
            u32(4),
            true,
            vec![assign(index(name("registers"), name("lane")), call("f32", vec![name("lane")]))],
        ),
        assign(index(name("output"), name("lid")), index(name("registers"), u32(2))),
    ]));
    let program = compiled_f32("scalar registers", vec![source]).unwrap();
    let function = &program.module.entry;
    assert_eq!(function.locals.len(), 4);
    for (at, local) in function.locals.iter().enumerate() {
        assert_eq!(local.name.as_deref(), Some(format!("registers_{at}").as_str()));
        assert!(matches!(program.module.types[local.ty as usize], ShaderType::Scalar(_)));
    }
}

#[test]
fn scalar_registers_refuse_runtime_indices() {
    let source = kernel(registers(vec![
        assign(index(name("registers"), name("lid")), Expression::Float(0x3f80_0000)),
        assign(index(name("output"), name("lid")), index(name("registers"), u32(0))),
    ]));
    let refusal = compiled_f32("nonconstant register", vec![source]).err();
    assert_eq!(refusal, Some(CompileError::RegisterIndex));
}

#[test]
fn rust_boolean_short_circuit_keeps_device_side_effects_in_its_branch() {
    let side_effect = function(
        "side_effect",
        &[],
        Some("bool"),
        vec![assign(index(name("output"), u32(0)), u32(9)), Statement::Return(Some(Expression::Bool(true)))],
    );
    let lane_zero = || binary(BinaryOperator::Equal, name("lid"), u32(0));
    let source = kernel(vec![
        binding("first", false, binary(BinaryOperator::LogicalAnd, lane_zero(), call("side_effect", vec![]))),
        binding("second", false, binary(BinaryOperator::LogicalOr, lane_zero(), call("side_effect", vec![]))),
        Statement::If {
            condition: binary(BinaryOperator::LogicalAnd, name("first"), name("second")),
            accept: vec![assign(index(name("output"), u32(1)), u32(1))],
            reject: vec![],
        },
    ]);
    let program = compiled_u32("short circuit", vec![side_effect, source]).unwrap();
    let body = &program.module.entry.body;
    let branches = body
        .iter()
        .filter_map(|statement| match statement {
            Stmt::If { accept, reject, .. } => Some((accept, reject)),
            _ => None,
        })
        .collect::<Vec<_>>();
    assert!(branches[0].0.iter().any(|statement| matches!(statement, Stmt::Call { .. })));
    assert!(branches[0].1.is_empty());
    assert!(branches[1].0.is_empty());
    assert!(branches[1].1.iter().any(|statement| matches!(statement, Stmt::Call { .. })));
}

#[test]
fn a_nonuniform_workgroup_barrier_is_rejected() {
    let source = kernel(vec![
        Statement::If {
            condition: binary(BinaryOperator::Equal, name("lid"), u32(0)),
            accept: vec![barrier()],
            reject: vec![],
        },
        assign(index(name("output"), name("lid")), u32(0)),
    ]);
    let refusal = compiled_u32("divergent barrier", vec![source]).err();
    assert_eq!(refusal, Some(CompileError::Divergent(Divergence::Barrier)));
}

#[test]
fn a_barrier_cannot_be_hidden_behind_a_divergent_call() {
    let synchronize = function("synchronize", &[], None, vec![barrier()]);
    let source = kernel(vec![
        Statement::If {
            condition: binary(BinaryOperator::Equal, name("lid"), u32(0)),
            accept: vec![Statement::Expression(call("synchronize", vec![]))],
            reject: vec![],
        },
        assign(index(name("output"), name("lid")), u32(1)),
    ]);
    let refusal = compiled_u32("divergent call", vec![synchronize, source]).err();
    assert_eq!(refusal, Some(CompileError::Divergent(Divergence::CallBarrier)));
}

#[test]
fn a_uniform_barrier_accepts_lane_specific_data_in_a_callee() {
    let synchronize = function(
        "synchronize",
        &["lid"],
        None,
        vec![
            barrier(),
            Statement::If {
                condition: binary(BinaryOperator::Equal, name("lid"), u32(0)),
                accept: vec![assign(index(name("output"), u32(0)), u32(1))],
                reject: vec![],
            },
        ],
    );
    let source = kernel(vec![Statement::Expression(call("synchronize", vec![name("lid")]))]);
    let program = compiled_u32("uniform call", vec![synchronize, source]).unwrap();
    assert_eq!(program.module.functions.len(), 1);
    assert_eq!(program.workgroup, 64);
    assert_eq!(program.entry, "main");
    assert_eq!(neura::uniform::verify(&program.module), Ok(()));
}

#[test]
fn uniformity_is_checked_again_at_the_next_loop_iteration() {
    let source = kernel(vec![
        binding("value", true, u32(0)),
        counted(
            "turn",
            u32(0),
            u32(2),
            false,
            vec![
                Statement::If {
                    condition: binary(BinaryOperator::NotEqual, name("value"), u32(0)),
                    accept: vec![barrier()],
                    reject: vec![],
                },
                assign(name("value"), name("lid")),
            ],
        ),
        assign(index(name("output"), name("lid")), name("value")),
    ]);
    let refusal = compiled_u32("loop uniformity", vec![source]).err();
    assert_eq!(refusal, Some(CompileError::Divergent(Divergence::Barrier)));
}

#[test]
fn divergent_loop_counts_cannot_hide_a_barrier() {
    let source = kernel(vec![
        counted("turn", name("lid"), u32(2), false, vec![barrier()]),
        assign(index(name("output"), name("lid")), u32(1)),
    ]);
    let refusal = compiled_u32("loop counts", vec![source]).err();
    assert_eq!(refusal, Some(CompileError::Divergent(Divergence::Barrier)));
}

#[test]
fn recursive_device_calls_are_refused() {
    let recursion = function("recursion", &[], None, vec![Statement::Expression(call("recursion", vec![]))]);
    let source = kernel(vec![
        Statement::Expression(call("recursion", vec![])),
        assign(index(name("output"), name("lid")), u32(1)),
    ]);
    let refusal = compiled_u32("recursive", vec![recursion, source]).err();
    assert_eq!(refusal, Some(CompileError::Recursive));
}

#[test]
fn an_unbound_rust_name_fails_at_its_use() {
    let source = kernel(vec![assign(index(name("output"), name("lid")), name("missing"))]);
    let refusal = compiled_u32("unbound", vec![source]).err();
    assert_eq!(refusal, Some(CompileError::UnknownName));
}

#[test]
fn a_readonly_binding_cannot_be_written() {
    let mut compiler = Compiler::new();
    compiler.storage_array("input", "u32", BindingSpec::storage(0)).unwrap();
    compiler.function(kernel(vec![assign(index(name("input"), name("lid")), u32(1))]));
    let refusal = compiler.finish("readonly output", "main", 64).err();
    assert_eq!(refusal, Some(CompileError::ReadOnly));
}

#[test]
fn a_readonly_binding_can_be_read_into_a_writable_one() {
    let mut compiler = Compiler::new();
    compiler.storage_array("input", "u32", BindingSpec::storage(0)).unwrap();
    compiler.storage_array("output", "u32", BindingSpec::writable_storage(1)).unwrap();
    compiler.function(kernel(vec![assign(index(name("output"), name("lid")), index(name("input"), name("lid")))]));
    let program = compiler.finish("copy", "main", 64).unwrap();
    assert_eq!(program.bindings.len(), 2);
    let globals: Vec<&str> = program.module.globals.iter().map(|global| global.name.as_str()).collect();
    assert_eq!(globals, vec!["input", "output"]);
}

#[test]
fn control_statements_end_their_blocks_as_written() {
    let source = kernel(vec![
        Statement::Loop(vec![Statement::Break]),
        Statement::Assign {
            place: index(name("output"), name("lid")),
            value: u32(2),
            operator: Some(BinaryOperator::Add),
        },
        Statement::Block(vec![Statement::Return(None)]),
    ]);
    let program = compiled_u32("control", vec![source]).unwrap();
    let body = &program.module.entry.body;
    match body.last() {
        Some(Stmt::Block(inner)) => assert!(matches!(inner.last(), Some(Stmt::Return(None)))),
        other => panic!("the entry ends with {other:?}"),
    }
    let looped = body.iter().find_map(|statement| match statement {
        Stmt::Loop { body, .. } => Some(body),
        _ => None,
    });
    assert!(matches!(looped.and_then(|inner| inner.last()), Some(Stmt::Break)));
    let stored = body.iter().rev().find_map(|statement| match statement {
        Stmt::Store { value, .. } => Some(*value),
        _ => None,
    });
    let value = stored.expect("the compound assignment stores") as usize;
    assert!(matches!(program.module.entry.expressions[value], Expr::Binary { op: BinaryOp::Add, .. }));
}

#[test]
fn a_kernel_without_its_entry_is_refused() {
    let source = function("other", &["lid"], None, vec![]);
    assert_eq!(compiled_u32("no entry", vec![source]).err(), Some(CompileError::UnknownFunction));
}

#[test]
fn an_entry_argument_names_a_device_builtin() {
    let source = function("main", &["lane"], None, vec![]);
    assert_eq!(compiled_u32("stray argument", vec![source]).err(), Some(CompileError::NotBuiltin));
}

#[test]
fn constant_arithmetic_stays_within_u32() {
    let overflow = kernel(vec![counted(
        "row",
        u32(0),
        binary(BinaryOperator::Add, u32(u32::MAX), u32(1)),
        true,
        vec![],
    )]);
    assert_eq!(compiled_u32("overflow", vec![overflow]).err(), Some(CompileError::Overflow));
    let divide = kernel(vec![counted("row", u32(0), binary(BinaryOperator::Divide, u32(4), u32(0)), true, vec![])]);
    assert_eq!(compiled_u32("divide", vec![divide]).err(), Some(CompileError::DivideByZero));
    let signed = kernel(vec![counted(
        "row",
        u32(0),
        Expression::Integer { value: 4, ty: IntegerType::Signed },
        true,
        vec![],
    )]);
    assert_eq!(compiled_u32("signed", vec![signed]).err(), Some(CompileError::NotConstant));
}

#[test]
fn a_name_is_declared_once_in_a_block() {
    let source = kernel(vec![binding("x", true, u32(1)), binding("x", true, u32(2))]);
    assert_eq!(compiled_u32("twice", vec![source]).err(), Some(CompileError::DuplicateName));
}

#[test]
fn a_match_covers_its_fallback() {
    let source = kernel(vec![Statement::Match {
        selector: name("lid"),
        arms: vec![neura::ir::Arm { pattern: neura::ir::Pattern::Integer(1), body: vec![] }],
    }]);
    assert_eq!(compiled_u32("no fallback", vec![source]).err(), Some(CompileError::NoDefault));
}

#[test]
fn storage_slots_are_declared_densely() {
    let mut compiler = Compiler::new();
    assert_eq!(
        compiler.storage_array("output", "u32", BindingSpec::writable_storage(1)),
        Err(CompileError::SparseBinding)
    );
    assert_eq!(compiler.storage_array("output", "missing", BindingSpec::writable_storage(0)), Err(CompileError::UnknownType));
    compiler.storage_array("output", "u32", BindingSpec::writable_storage(0)).unwrap();
    assert_eq!(
        compiler.storage_array("output", "u32", BindingSpec::writable_storage(1)),
        Err(CompileError::DuplicateGlobal)
    );
    compiler.workgroup("tile", "f32", 64).unwrap();
    assert_eq!(compiler.workgroup_bytes(), Ok(256));
    assert_eq!(compiler.workgroup("empty", "f32", 0), Err(CompileError::EmptyArray));
}

#[test]
fn a_loop_that_counts_a_uniform_range_keeps_its_barrier() {
    let source = kernel(vec![
        counted("turn", u32(0), u32(3), false, vec![barrier()]),
        assign(index(name("output"), name("lid")), u32(1)),
    ]);
    let program = compiled_u32("uniform loop", vec![source]).unwrap();
    assert!(program.module.check());
    assert_eq!(program.bindings, vec![BindingSpec::writable_storage(0)]);
}

#[test]
fn an_entry_of_plain_statements_compiles() {
    let mut compiler = Compiler::new();
    let body = vec![
        barrier(),
        Statement::Loop(vec![Statement::Expression(call("storage_barrier", vec![])), Statement::Break]),
        Statement::Block(vec![barrier()]),
        Statement::Return(None),
    ];
    compiler.function(function("main", &[], None, body));
    let kernel = compiler.finish("plain", "main", 64).expect("a plain entry compiles");
    assert_eq!(kernel.module.entry.body.len(), 4);
    assert!(matches!(kernel.module.entry.body[0], Stmt::Barrier { storage: false }));
    assert!(matches!(kernel.module.entry.body[1], Stmt::Loop { .. }));
    assert!(matches!(kernel.module.entry.body[2], Stmt::Block(_)));
    assert!(matches!(kernel.module.entry.body[3], Stmt::Return(None)));
}
