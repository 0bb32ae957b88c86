use neura::lowered::{
    Argument, BinaryOp, Builtin, Case, CaseValue, Expr, GlobalVar, Literal, LoweredFunction, LoweredModule,
    ScalarKind, ShaderType, Space, Stmt,
};
use neura::uniform::{verify, Divergence};

/// An entry taking one builtin, comparing it with zero, then running `body`.
fn entry_module(builtin: Builtin, body: Vec<Stmt>) -> LoweredModule {
    let mut statements = vec![Stmt::Emit { start: 2, end: 3 }];
    statements.extend(body);
    LoweredModule {
        types: vec![ShaderType::Scalar(ScalarKind::Uint), ShaderType::Scalar(ScalarKind::Bool)],
        globals: vec![GlobalVar { name: "input".to_owned(), space: Space::Storage { store: false }, binding: Some(0), ty: 0 }],
        functions: vec![],
        entry: LoweredFunction {
            name: "main".to_owned(),
            arguments: vec![Argument { name: "id".to_owned(), ty: 0, binding: Some(builtin) }],
            result: None,
            locals: vec![],
            expressions: vec![
                Expr::FunctionArgument(0),
                Expr::Literal(Literal::U32(0)),
                Expr::Binary { op: BinaryOp::Equal, left: 0, right: 1 },
            ],
            body: statements,
        },
    }
}

#[test]
fn a_loop_leaves_on_a_condition_every_invocation_shares() {
    let body = || vec![Stmt::Loop { body: vec![Stmt::Barrier { storage: false }], continuing: vec![], break_if: Some(2) }];
    let lanes = entry_module(Builtin::LocalInvocationIndex, body());
    assert!(lanes.check());
    assert_eq!(verify(&lanes), Err(Divergence::BreakIf));
    let groups = entry_module(Builtin::WorkGroupId, body());
    assert_eq!(verify(&groups), Ok(()));
}

#[test]
fn a_switch_case_does_not_fall_through() {
    let body = vec![Stmt::Switch {
        selector: 0,
        cases: vec![Case { value: CaseValue::U32(1), body: vec![], fall_through: true }, Case {
            value: CaseValue::Default,
            body: vec![],
            fall_through: false,
        }],
    }];
    assert_eq!(verify(&entry_module(Builtin::WorkGroupId, body)), Err(Divergence::FallThrough));
}

#[test]
fn a_barrier_under_a_branch_on_the_workgroup_is_reached_together() {
    let body = vec![Stmt::If { condition: 2, accept: vec![Stmt::Barrier { storage: true }], reject: vec![] }];
    assert_eq!(verify(&entry_module(Builtin::WorkGroupId, body)), Ok(()));
    let body = vec![Stmt::If { condition: 2, accept: vec![Stmt::Barrier { storage: true }], reject: vec![] }];
    assert_eq!(verify(&entry_module(Builtin::GlobalInvocationId, body)), Err(Divergence::Barrier));
}

#[test]
fn a_loop_cannot_let_invocations_leave_before_a_barrier() {
    let body = vec![Stmt::Loop {
        body: vec![
            Stmt::Barrier { storage: false },
            Stmt::If { condition: 2, accept: vec![Stmt::Break], reject: vec![] },
        ],
        continuing: vec![],
        break_if: None,
    }];
    assert_eq!(verify(&entry_module(Builtin::LocalInvocationIndex, body)), Err(Divergence::LoopBarrier));
}

#[test]
fn a_module_naming_what_it_does_not_hold_is_malformed() {
    let mut module = entry_module(Builtin::WorkGroupId, vec![]);
    assert!(module.check());
    module.entry.body.push(Stmt::Store { pointer: 7, value: 0 });
    assert!(!module.check());
    let mut forward = entry_module(Builtin::WorkGroupId, vec![]);
    forward.entry.expressions[2] = Expr::Binary { op: BinaryOp::Equal, left: 0, right: 2 };
    assert!(!forward.check());
}
