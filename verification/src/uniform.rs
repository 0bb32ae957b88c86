//! Whether every invocation of a workgroup reaches each barrier together.
//!
//! The analysis walks a lowered module from its entry. It tracks which
//! expressions and locals hold the same value in every invocation, whether
//! control reaches the current statement in every invocation alike, and
//! whether a return or a loop exit has already split the invocations. A
//! barrier reached under divergent control, a loop that leaves invocations
//! behind at a barrier, or a break condition that differs between invocations
//! is refused. A call is analysed once for each pattern of uniform arguments.
use vstd::prelude::*;
use crate::lowered::{
    expr_wf, operands, Builtin, Case, Expr, LoweredFunction, LoweredModule, Space, Stmt,
};

verus! {

/// Why a module is refused.
#[derive(Clone, Copy, PartialEq, Eq, Debug, Structural)]
pub enum Divergence {
    /// A barrier is reached by some invocations and not others.
    Barrier,
    /// A call that reaches a barrier is made by some invocations and not others.
    CallBarrier,
    /// A loop leaves on a condition that differs between invocations.
    BreakIf,
    /// A loop lets some invocations leave while others wait at a barrier.
    LoopBarrier,
    /// The uniformity of a loop's locals did not settle.
    NoConvergence,
    /// A switch case falls through.
    FallThrough,
}

/// What a call does: whether its result is uniform and whether it reaches a barrier.
#[derive(Clone, Copy, PartialEq, Eq, Debug, Structural)]
pub struct Effect {
    pub result_uniform: bool,
    pub barrier: bool,
}

/// What the analysis knows at a point of a function.
pub struct FlowView {
    pub locals: Seq<bool>,
    pub values: Seq<bool>,
    pub control_uniform: bool,
    pub returned_nonuniform: bool,
    pub loop_exit_nonuniform: bool,
    pub return_uniform: bool,
    pub barrier: bool,
}

/// What a pointer leads back to.
#[derive(Clone, Copy, PartialEq, Eq, Debug, Structural)]
pub enum Root {
    Local(u32),
    Global(u32),
}

/// Whether an entry argument receives the same value in every invocation.
pub open spec fn builtin_uniform(binding: Option<Builtin>) -> bool {
    match binding {
        Some(Builtin::WorkGroupId) | Some(Builtin::WorkGroupSize) | Some(Builtin::NumWorkGroups) => true,
        _ => false,
    }
}

/// The knowledge at the start of a function: nothing is uniform yet, control is.
pub open spec fn start_flow(f: LoweredFunction) -> FlowView {
    FlowView {
        locals: Seq::new(f.locals@.len(), |i: int| false),
        values: Seq::new(f.expressions@.len(), |i: int| false),
        control_uniform: true,
        returned_nonuniform: false,
        loop_exit_nonuniform: false,
        return_uniform: true,
        barrier: false,
    }
}

/// The knowledge after two paths join.
pub open spec fn merged(a: FlowView, b: FlowView) -> FlowView {
    FlowView {
        locals: Seq::new(a.locals.len(), |i: int| a.locals[i] && b.locals[i]),
        values: Seq::new(a.values.len(), |i: int| a.values[i] && b.values[i]),
        control_uniform: a.control_uniform,
        returned_nonuniform: a.returned_nonuniform || b.returned_nonuniform,
        loop_exit_nonuniform: a.loop_exit_nonuniform || b.loop_exit_nonuniform,
        return_uniform: a.return_uniform && b.return_uniform,
        barrier: a.barrier || b.barrier,
    }
}

/// Whether expression `h` is uniform where it is used.
pub open spec fn value_uniform(f: LoweredFunction, args: Seq<bool>, st: FlowView, h: u32) -> bool {
    match f.expressions@[h as int] {
        Expr::Literal(_) | Expr::ZeroValue(_) => true,
        Expr::FunctionArgument(i) => args[i as int],
        Expr::LocalVariable(_) | Expr::GlobalVariable(_) => true,
        _ => st.values[h as int],
    }
}

/// The variable a pointer expression leads back to.
pub open spec fn root_of(f: LoweredFunction, h: u32) -> Option<Root>
    decreases h,
{
    match f.expressions@[h as int] {
        Expr::LocalVariable(l) => Some(Root::Local(l)),
        Expr::GlobalVariable(g) => Some(Root::Global(g)),
        Expr::Access { base, .. } | Expr::AccessIndex { base, .. } => if base < h {
            root_of(f, base)
        } else {
            None
        },
        _ => None,
    }
}

/// Whether a load from a global reads the same value in every invocation.
pub open spec fn space_uniform(space: Space) -> bool {
    match space {
        Space::Storage { store } => !store,
        Space::Uniform | Space::Immediate => true,
        _ => false,
    }
}

/// Whether expression `h`, evaluated now, yields the same value in every invocation.
pub open spec fn expression_uniform(m: LoweredModule, f: LoweredFunction, args: Seq<bool>, st: FlowView, h: u32) -> bool {
    let u = |e: u32| value_uniform(f, args, st, e);
    match f.expressions@[h as int] {
        Expr::Literal(_) | Expr::ZeroValue(_) => true,
        Expr::FunctionArgument(i) => args[i as int],
        Expr::LocalVariable(_) | Expr::GlobalVariable(_) => true,
        Expr::Load { pointer } => u(pointer) && match root_of(f, pointer) {
            Some(Root::Local(l)) => st.locals[l as int],
            Some(Root::Global(g)) => space_uniform(m.globals@[g as int].space),
            None => false,
        },
        Expr::Access { base, index } => u(base) && u(index),
        Expr::AccessIndex { base, .. } => u(base),
        Expr::Compose { components, .. } => forall|k: int| 0 <= k < components@.len() ==> u(#[trigger] components@[k]),
        Expr::Unary { expr, .. } => u(expr),
        Expr::As { expr, .. } => u(expr),
        Expr::Binary { left, right, .. } => u(left) && u(right),
        Expr::Select { condition, accept, reject } => u(condition) && u(accept) && u(reject),
        Expr::Math { arg, arg1, .. } => u(arg) && match arg1 {
            Some(b) => u(b),
            None => true,
        },
        Expr::CallResult(_) => false,
    }
}

/// The knowledge after evaluating the expressions from `start` up to `end`.
pub open spec fn emitted(m: LoweredModule, f: LoweredFunction, args: Seq<bool>, st: FlowView, start: int, end: int) -> FlowView
    decreases end - start,
{
    if start >= end {
        st
    } else {
        let v = expression_uniform(m, f, args, st, start as u32);
        emitted(m, f, args, FlowView { values: st.values.update(start, v), ..st }, start + 1, end)
    }
}

/// The measure of the statements of the function of rank `rank`.
pub open spec fn level(rank: nat) -> nat {
    2 * rank + 1
}

/// The effect of calling the function of rank `j` with arguments of the given uniformity.
pub open spec fn call_effect(m: LoweredModule, j: nat, args: Seq<bool>) -> Result<Effect, Divergence>
    decreases 2 * j + 2, m.function_at(j).body@, 0int,
{
    let f = m.function_at(j);
    match body_flow(m, j, f, args, f.body@, start_flow(f)) {
        Ok(s) => Ok(Effect { result_uniform: s.return_uniform, barrier: s.barrier }),
        Err(e) => Err(e),
    }
}

/// The knowledge after a sequence of statements, or why it is refused.
pub open spec fn body_flow(m: LoweredModule, rank: nat, f: LoweredFunction, args: Seq<bool>, b: Seq<Stmt>, st: FlowView) -> Result<FlowView, Divergence>
    decreases level(rank), b, 0int,
{
    if b.len() == 0 {
        Ok(st)
    } else {
        match body_flow(m, rank, f, args, b.subrange(0, b.len() - 1), st) {
            Ok(s) => stmt_flow(m, rank, f, args, b[b.len() - 1], s),
            Err(e) => Err(e),
        }
    }
}

/// The knowledge after the cases of a switch on a selector of uniformity `u`,
/// each entered from `st`, joined into `acc`.
pub open spec fn cases_flow(m: LoweredModule, rank: nat, f: LoweredFunction, args: Seq<bool>, c: Seq<Case>, st: FlowView, u: bool) -> Result<FlowView, Divergence>
    decreases level(rank), c, 0int,
{
    if c.len() == 0 {
        Ok(st)
    } else {
        match cases_flow(m, rank, f, args, c.subrange(0, c.len() - 1), st, u) {
            Ok(acc) => {
                let case = c[c.len() - 1];
                if case.fall_through {
                    Err(Divergence::FallThrough)
                } else {
                    match body_flow(m, rank, f, args, case.body@, FlowView { control_uniform: st.control_uniform && u, ..st }) {
                        Ok(branch) => {
                            let joined = merged(acc, branch);
                            if !u && (branch.returned_nonuniform || branch.loop_exit_nonuniform) {
                                Ok(FlowView { control_uniform: false, ..joined })
                            } else {
                                Ok(joined)
                            }
                        },
                        Err(e) => Err(e),
                    }
                }
            },
            Err(e) => Err(e),
        }
    }
}

/// One pass over a loop `s` entered with `before`, from the loop head `head`;
/// `barriers` and `divergent` gather what earlier passes found.
pub open spec fn loop_flow(
    m: LoweredModule,
    rank: nat,
    f: LoweredFunction,
    args: Seq<bool>,
    s: Stmt,
    before: FlowView,
    head: FlowView,
    barriers: bool,
    divergent: bool,
    pass: nat,
) -> Result<FlowView, Divergence>
    decreases level(rank), s, before.locals.len() + 1 - pass,
{
    match s {
        Stmt::Loop { body, continuing, break_if } => {
            let start = FlowView { barrier: false, loop_exit_nonuniform: false, returned_nonuniform: false, ..head };
            match body_flow(m, rank, f, args, body@, start) {
                Err(e) => Err(e),
                Ok(after_body) => match body_flow(m, rank, f, args, continuing@, after_body) {
                    Err(e) => Err(e),
                    Ok(iteration) => {
                        let break_ok = match break_if {
                            Some(c) => value_uniform(f, args, iteration, c),
                            None => true,
                        };
                        let barriers = barriers || iteration.barrier;
                        let divergent = divergent || iteration.loop_exit_nonuniform;
                        let next = Seq::new(before.locals.len(), |i: int| before.locals[i] && iteration.locals[i]);
                        if !break_ok {
                            Err(Divergence::BreakIf)
                        } else if barriers && divergent {
                            Err(Divergence::LoopBarrier)
                        } else if next == head.locals {
                            let joined = merged(before, iteration);
                            Ok(FlowView {
                                control_uniform: before.control_uniform && !iteration.returned_nonuniform,
                                loop_exit_nonuniform: before.loop_exit_nonuniform,
                                barrier: joined.barrier || barriers,
                                ..joined
                            })
                        } else if pass >= before.locals.len() {
                            Err(Divergence::NoConvergence)
                        } else {
                            loop_flow(m, rank, f, args, s, before, FlowView {
                                locals: next,
                                control_uniform: head.control_uniform && !iteration.returned_nonuniform,
                                ..head
                            }, barriers, divergent, pass + 1)
                        }
                    },
                },
            }
        },
        _ => Ok(before),
    }
}

/// The knowledge after statement `s`, or why it is refused.
pub open spec fn stmt_flow(m: LoweredModule, rank: nat, f: LoweredFunction, args: Seq<bool>, s: Stmt, st: FlowView) -> Result<FlowView, Divergence>
    decreases level(rank), s, (st.locals.len() + 2) as int,
{
    match s {
        Stmt::Emit { start, end } => Ok(emitted(m, f, args, st, start as int, end as int)),
        Stmt::Store { pointer, value } => match root_of(f, pointer) {
            Some(Root::Local(l)) => Ok(FlowView {
                locals: st.locals.update(
                    l as int,
                    st.control_uniform && value_uniform(f, args, st, pointer) && value_uniform(f, args, st, value),
                ),
                ..st
            }),
            _ => Ok(st),
        },
        Stmt::Call { function, arguments, result } => {
            if function < rank {
                let inputs = Seq::new(arguments@.len(), |k: int| value_uniform(f, args, st, arguments@[k]));
                match call_effect(m, function as nat, inputs) {
                    Err(e) => Err(e),
                    Ok(effect) => if effect.barrier && !st.control_uniform {
                        Err(Divergence::CallBarrier)
                    } else {
                        let after = FlowView { barrier: st.barrier || effect.barrier, ..st };
                        match result {
                            Some(r) => Ok(FlowView {
                                values: after.values.update(r as int, st.control_uniform && effect.result_uniform),
                                ..after
                            }),
                            None => Ok(after),
                        }
                    },
                }
            } else {
                Ok(st)
            }
        },
        Stmt::Barrier { .. } => if !st.control_uniform {
            Err(Divergence::Barrier)
        } else {
            Ok(FlowView { barrier: true, ..st })
        },
        Stmt::If { condition, accept, reject } => {
            let u = value_uniform(f, args, st, condition);
            let entered = FlowView { control_uniform: st.control_uniform && u, ..st };
            match body_flow(m, rank, f, args, accept@, entered) {
                Err(e) => Err(e),
                Ok(accepted) => match body_flow(m, rank, f, args, reject@, entered) {
                    Err(e) => Err(e),
                    Ok(rejected) => {
                        let joined = merged(merged(st, accepted), rejected);
                        if !u && (accepted.returned_nonuniform || rejected.returned_nonuniform
                            || accepted.loop_exit_nonuniform || rejected.loop_exit_nonuniform) {
                            Ok(FlowView { control_uniform: false, ..joined })
                        } else {
                            Ok(joined)
                        }
                    },
                },
            }
        },
        Stmt::Switch { selector, cases } => cases_flow(m, rank, f, args, cases@, st, value_uniform(f, args, st, selector)),
        Stmt::Loop { .. } => loop_flow(m, rank, f, args, s, st, st, false, false, 0),
        Stmt::Return(value) => Ok(FlowView {
            return_uniform: st.return_uniform && st.control_uniform && match value {
                Some(v) => value_uniform(f, args, st, v),
                None => true,
            },
            returned_nonuniform: st.returned_nonuniform || !st.control_uniform,
            ..st
        }),
        Stmt::Break | Stmt::Continue => Ok(FlowView {
            loop_exit_nonuniform: st.loop_exit_nonuniform || !st.control_uniform,
            ..st
        }),
        Stmt::Block(body) => body_flow(m, rank, f, args, body@, st),
    }
}

/// The uniformity of the entry's arguments.
pub open spec fn entry_arguments(m: LoweredModule) -> Seq<bool> {
    Seq::new(m.entry.arguments@.len(), |k: int| builtin_uniform(m.entry.arguments@[k].binding))
}

/// Whether the module's entry reaches every barrier in all invocations alike.
pub open spec fn uniformity(m: LoweredModule) -> Result<(), Divergence> {
    match call_effect(m, m.functions@.len(), entry_arguments(m)) {
        Ok(_) => Ok(()),
        Err(e) => Err(e),
    }
}


/// Every invocation of a workgroup reads the same value from a global that no
/// invocation writes: read-only storage, uniform and immediate data; storage
/// that accepts stores, workgroup and private memory differ between them.
/// Of the entry's arguments, the workgroup's id, size and count are shared,
/// the invocation's own indices are not.
pub proof fn lemma_what_invocations_share(space: Space, binding: Option<Builtin>)
    ensures
        space_uniform(space) <==> match space {
            Space::Storage { store } => !store,
            Space::Uniform => true,
            Space::Immediate => true,
            Space::WorkGroup => false,
            Space::Private => false,
        },
        builtin_uniform(binding) <==> (binding == Some(Builtin::WorkGroupId) || binding == Some(Builtin::WorkGroupSize)
            || binding == Some(Builtin::NumWorkGroups)),
{
}

/// A load yields the same value in every invocation only through a pointer
/// every invocation holds alike, from a local every invocation stored alike or
/// from a global no invocation writes.
pub proof fn lemma_uniform_loads(m: LoweredModule, f: LoweredFunction, args: Seq<bool>, st: FlowView, h: u32)
    requires
        f.expressions@[h as int] is Load,
        expression_uniform(m, f, args, st, h),
    ensures
        value_uniform(f, args, st, f.expressions@[h as int]->Load_pointer),
        root_of(f, f.expressions@[h as int]->Load_pointer) matches Some(Root::Global(g)) ==> space_uniform(m.globals@[g as int].space),
        root_of(f, f.expressions@[h as int]->Load_pointer) matches Some(Root::Local(l)) ==> st.locals[l as int],
        root_of(f, f.expressions@[h as int]->Load_pointer) is Some,
{
}

/// A local holds a value every invocation shares after a store only where
/// every invocation made the store, through a pointer and of a value they
/// all hold alike; a store leaves control and every other local as they were.
pub proof fn lemma_uniform_stores(m: LoweredModule, rank: nat, f: LoweredFunction, args: Seq<bool>, st: FlowView,
    pointer: u32, value: u32, l: u32)
    requires
        root_of(f, pointer) == Some(Root::Local(l)),
        0 <= l < st.locals.len(),
    ensures
        stmt_flow(m, rank, f, args, Stmt::Store { pointer, value }, st) matches Ok(after) && {
            &&& after.locals[l as int] <==> st.control_uniform && value_uniform(f, args, st, pointer) && value_uniform(f, args, st, value)
            &&& after.control_uniform == st.control_uniform
            &&& forall|k: int| 0 <= k < st.locals.len() && k != l ==> #[trigger] after.locals[k] == st.locals[k]
        },
{
}

/// A return that not every invocation takes leaves the rest of the function
/// to some invocations only.
pub proof fn lemma_divergent_return(m: LoweredModule, rank: nat, f: LoweredFunction, args: Seq<bool>, st: FlowView, value: Option<u32>)
    requires
        !st.control_uniform,
    ensures
        stmt_flow(m, rank, f, args, Stmt::Return(value), st) matches Ok(after) && after.returned_nonuniform && !after.return_uniform,
{
}

/// After a conditional on a value that differs between invocations, in which
/// some invocations return or leave a loop, control is no longer shared.
pub proof fn lemma_divergent_exit(m: LoweredModule, rank: nat, f: LoweredFunction, args: Seq<bool>, st: FlowView,
    condition: u32, accept: Vec<Stmt>, reject: Vec<Stmt>)
    requires
        !value_uniform(f, args, st, condition),
        body_flow(m, rank, f, args, accept@, FlowView { control_uniform: false, ..st }) matches Ok(a)
            && (a.returned_nonuniform || a.loop_exit_nonuniform),
        body_flow(m, rank, f, args, reject@, FlowView { control_uniform: false, ..st }) is Ok,
    ensures
        stmt_flow(m, rank, f, args, Stmt::If { condition, accept, reject }, st) matches Ok(after) && !after.control_uniform,
{
    assert(FlowView { control_uniform: st.control_uniform && false, ..st } == FlowView { control_uniform: false, ..st });
}

/// A value every invocation computes alike reads only operands that every
/// invocation computes alike: an access through an index that differs
/// between invocations, or any operation on such an operand, is not uniform.
pub proof fn lemma_uniform_operands(m: LoweredModule, f: LoweredFunction, args: Seq<bool>, st: FlowView, h: u32)
    requires
        expression_uniform(m, f, args, st, h),
    ensures
        forall|k: int| 0 <= k < operands(f.expressions@[h as int]).len()
            ==> value_uniform(f, args, st, #[trigger] operands(f.expressions@[h as int])[k]),
{
    let e = f.expressions@[h as int];
    assert forall|k: int| 0 <= k < operands(e).len() implies value_uniform(f, args, st, #[trigger] operands(e)[k]) by {
        match e {
            Expr::Access { base, index } => {
                assert(operands(e) == seq![base, index]);
            },
            Expr::Binary { left, right, .. } => {
                assert(operands(e) == seq![left, right]);
            },
            Expr::Select { condition, accept, reject } => {
                assert(operands(e) == seq![condition, accept, reject]);
            },
            Expr::Math { arg, arg1, .. } => {
                match arg1 {
                    Some(b) => assert(operands(e) == seq![arg, b]),
                    None => assert(operands(e) == seq![arg]),
                }
            },
            _ => {},
        }
    }
}

/// A conditional on a value that differs between invocations refuses a
/// barrier that opens either of its branches: not every invocation of the
/// workgroup reaches it.
pub proof fn lemma_divergent_branch_barrier(m: LoweredModule, rank: nat, f: LoweredFunction, args: Seq<bool>, st: FlowView,
    condition: u32, accept: Seq<Stmt>, reject: Seq<Stmt>)
    requires
        !value_uniform(f, args, st, condition),
        accept.len() > 0,
        accept[0] is Barrier,
    ensures
        forall|a: Vec<Stmt>, r: Vec<Stmt>| a@ == accept && r@ == reject
            ==> #[trigger] stmt_flow(m, rank, f, args, Stmt::If { condition, accept: a, reject: r }, st)
                == Err::<FlowView, Divergence>(Divergence::Barrier),
{
    let entered = FlowView { control_uniform: false, ..st };
    assert(accept.subrange(0, 0) =~= Seq::<Stmt>::empty());
    assert(body_flow(m, rank, f, args, accept.subrange(0, 1), entered) == Err::<FlowView, Divergence>(Divergence::Barrier)) by {
        let p = accept.subrange(0, 1);
        assert(p.len() == 1);
        assert(p.subrange(0, p.len() - 1) =~= Seq::<Stmt>::empty());
        assert(body_flow(m, rank, f, args, p.subrange(0, p.len() - 1), entered) == Ok::<FlowView, Divergence>(entered));
        assert(p[p.len() - 1] == accept[0]);
        assert(stmt_flow(m, rank, f, args, accept[0], entered) == Err::<FlowView, Divergence>(Divergence::Barrier));
    }
    lemma_body_err(m, rank, f, args, accept, entered, 1, Divergence::Barrier);
    assert forall|a: Vec<Stmt>, r: Vec<Stmt>| a@ == accept && r@ == reject
        implies #[trigger] stmt_flow(m, rank, f, args, Stmt::If { condition, accept: a, reject: r }, st)
            == Err::<FlowView, Divergence>(Divergence::Barrier) by {
        assert(FlowView { control_uniform: st.control_uniform && false, ..st } == entered);
    }
}

/// Where the flow of a body is accepted, every barrier that stands in it is
/// reached with control that all invocations of a workgroup share: no branch
/// on a value that differs between invocations, such as the local invocation
/// index, leads to it.
pub proof fn lemma_barriers_together(m: LoweredModule, rank: nat, f: LoweredFunction, args: Seq<bool>, b: Seq<Stmt>, st: FlowView, i: int)
    requires
        body_flow(m, rank, f, args, b, st) is Ok,
        0 <= i < b.len(),
        b[i] is Barrier,
    ensures
        body_flow(m, rank, f, args, b.subrange(0, i), st) matches Ok(s) && s.control_uniform,
    decreases b.len(),
{
    let p = b.subrange(0, b.len() - 1);
    assert(body_flow(m, rank, f, args, p, st) is Ok);
    if i == b.len() - 1 {
        assert(p =~= b.subrange(0, i));
        let s = body_flow(m, rank, f, args, p, st)->Ok_0;
        assert(stmt_flow(m, rank, f, args, b[i], s) is Ok);
    } else {
        assert(p[i] == b[i]);
        lemma_barriers_together(m, rank, f, args, p, st, i);
        assert(p.subrange(0, i) =~= b.subrange(0, i));
    }
}

/// A module whose uniformity is accepted reaches each barrier of its entry's
/// body with control that all invocations of a workgroup share.
pub proof fn lemma_uniform_entry_barriers(m: LoweredModule, i: int)
    requires
        uniformity(m) is Ok,
        0 <= i < m.entry.body@.len(),
        m.entry.body@[i] is Barrier,
    ensures
        body_flow(m, m.functions@.len(), m.entry, entry_arguments(m), m.entry.body@.subrange(0, i), start_flow(m.entry))
            matches Ok(s) && s.control_uniform,
{
    assert(m.function_at(m.functions@.len()) == m.entry);
    lemma_barriers_together(m, m.functions@.len(), m.entry, entry_arguments(m), m.entry.body@, start_flow(m.entry), i);
}

/// The module is well formed, `f` is its function of rank `rank`, and `args`
/// holds one uniformity for each of its arguments.
pub open spec fn fits(m: LoweredModule, rank: nat, f: LoweredFunction, args: Seq<bool>) -> bool {
    &&& m.wf()
    &&& rank <= m.functions@.len()
    &&& f == m.function_at(rank)
    &&& args.len() == f.arguments@.len()
}

/// The knowledge has one entry for each local and each expression of `f`.
pub open spec fn sized(f: LoweredFunction, st: FlowView) -> bool {
    &&& st.locals.len() == f.locals@.len()
    &&& st.values.len() == f.expressions@.len()
}

pub(crate) proof fn lemma_function_wf(m: LoweredModule, rank: nat)
    requires
        m.wf(),
        rank <= m.functions@.len(),
    ensures
        m.function_wf(m.function_at(rank), rank),
{
    if rank < m.functions@.len() {
        assert(m.function_wf(m.functions@[rank as int], rank));
    }
}

pub(crate) proof fn lemma_body_wf(m: LoweredModule, b: Seq<Stmt>, len: nat, rank: nat, i: int)
    requires
        m.body_wf(b, len, rank),
        0 <= i < b.len(),
    ensures
        m.stmt_wf(b[i], len, rank),
        m.body_wf(b.subrange(0, i), len, rank),
    decreases b.len() - i,
{
    if i < b.len() - 1 {
        let p = b.subrange(0, b.len() - 1);
        lemma_body_wf(m, p, len, rank, i);
        assert(p[i] == b[i]);
        assert(p.subrange(0, i) =~= b.subrange(0, i));
    }
}

pub(crate) proof fn lemma_cases_wf(m: LoweredModule, c: Seq<Case>, len: nat, rank: nat, k: int)
    requires
        m.cases_wf(c, len, rank),
        0 <= k < c.len(),
    ensures
        m.body_wf(c[k].body@, len, rank),
    decreases c.len() - k,
{
    if k < c.len() - 1 {
        let p = c.subrange(0, c.len() - 1);
        lemma_cases_wf(m, p, len, rank, k);
        assert(p[k] == c[k]);
    }
}

pub(crate) proof fn lemma_root(m: LoweredModule, rank: nat, f: LoweredFunction, h: u32)
    requires
        m.function_wf(f, rank),
        h < f.expressions@.len(),
    ensures
        match root_of(f, h) {
            Some(Root::Local(l)) => l < f.locals@.len(),
            Some(Root::Global(g)) => g < m.globals@.len(),
            None => true,
        },
    decreases h,
{
    let e = f.expressions@[h as int];
    assert(expr_wf(e, h as int, f.arguments@.len(), f.locals@.len(), m.globals@.len(), m.types@.len(), rank));
    match e {
        Expr::Access { base, .. } | Expr::AccessIndex { base, .. } => {
            if base < h {
                lemma_root(m, rank, f, base);
            }
        },
        _ => {},
    }
}

/// What the analysis knows at a point of a function.
struct Flow {
    locals: Vec<bool>,
    values: Vec<bool>,
    control_uniform: bool,
    returned_nonuniform: bool,
    loop_exit_nonuniform: bool,
    return_uniform: bool,
    barrier: bool,
}

impl View for Flow {
    type V = FlowView;

    closed spec fn view(&self) -> FlowView {
        FlowView {
            locals: self.locals@,
            values: self.values@,
            control_uniform: self.control_uniform,
            returned_nonuniform: self.returned_nonuniform,
            loop_exit_nonuniform: self.loop_exit_nonuniform,
            return_uniform: self.return_uniform,
            barrier: self.barrier,
        }
    }
}

fn falses(n: usize) -> (v: Vec<bool>)
    ensures
        v@ == Seq::new(n as nat, |i: int| false),
{
    let mut v: Vec<bool> = Vec::new();
    while v.len() < n
        invariant
            v.len() <= n,
            forall|i: int| 0 <= i < v.len() ==> v@[i] == false,
        decreases n - v.len(),
    {
        v.push(false);
    }
    assert(v@ =~= Seq::new(n as nat, |i: int| false));
    v
}

fn copied(v: &Vec<bool>) -> (r: Vec<bool>)
    ensures
        r@ == v@,
{
    let mut r: Vec<bool> = Vec::new();
    let mut i: usize = 0;
    while i < v.len()
        invariant
            i <= v.len(),
            r@ == v@.subrange(0, i as int),
        decreases v.len() - i,
    {
        r.push(v[i]);
        i += 1;
        assert(r@ =~= v@.subrange(0, i as int));
    }
    assert(v@.subrange(0, v.len() as int) =~= v@);
    r
}

fn both(a: &Vec<bool>, b: &Vec<bool>) -> (r: Vec<bool>)
    requires
        a.len() == b.len(),
    ensures
        r@ == Seq::new(a@.len(), |i: int| a@[i] && b@[i]),
{
    let mut r: Vec<bool> = Vec::new();
    let mut i: usize = 0;
    while i < a.len()
        invariant
            i <= a.len(),
            a.len() == b.len(),
            r.len() == i,
            forall|k: int| 0 <= k < i ==> r@[k] == (a@[k] && b@[k]),
        decreases a.len() - i,
    {
        r.push(a[i] && b[i]);
        i += 1;
    }
    assert(r@ =~= Seq::new(a@.len(), |i: int| a@[i] && b@[i]));
    r
}

fn same(a: &Vec<bool>, b: &Vec<bool>) -> (r: bool)
    ensures
        r == (a@ == b@),
{
    if a.len() != b.len() {
        return false;
    }
    let mut i: usize = 0;
    while i < a.len()
        invariant
            i <= a.len(),
            a.len() == b.len(),
            forall|k: int| 0 <= k < i ==> a@[k] == b@[k],
        decreases a.len() - i,
    {
        if a[i] != b[i] {
            return false;
        }
        i += 1;
    }
    assert(a@ =~= b@);
    true
}

impl Flow {
    fn fresh(f: &LoweredFunction) -> (r: Flow)
        ensures
            r@ == start_flow(*f),
    {
        Flow {
            locals: falses(f.locals.len()),
            values: falses(f.expressions.len()),
            control_uniform: true,
            returned_nonuniform: false,
            loop_exit_nonuniform: false,
            return_uniform: true,
            barrier: false,
        }
    }

    fn copy(&self) -> (r: Flow)
        ensures
            r@ == self@,
    {
        Flow {
            locals: copied(&self.locals),
            values: copied(&self.values),
            control_uniform: self.control_uniform,
            returned_nonuniform: self.returned_nonuniform,
            loop_exit_nonuniform: self.loop_exit_nonuniform,
            return_uniform: self.return_uniform,
            barrier: self.barrier,
        }
    }

    fn merge(&mut self, other: &Flow)
        requires
            old(self).locals.len() == other.locals.len(),
            old(self).values.len() == other.values.len(),
        ensures
            final(self)@ == merged(old(self)@, other@),
    {
        self.locals = both(&self.locals, &other.locals);
        self.values = both(&self.values, &other.values);
        self.returned_nonuniform = self.returned_nonuniform || other.returned_nonuniform;
        self.loop_exit_nonuniform = self.loop_exit_nonuniform || other.loop_exit_nonuniform;
        self.return_uniform = self.return_uniform && other.return_uniform;
        self.barrier = self.barrier || other.barrier;
    }
}


fn value(f: &LoweredFunction, args: &Vec<bool>, st: &Flow, h: u32, Ghost(m): Ghost<LoweredModule>, Ghost(rank): Ghost<nat>) -> (r: bool)
    requires
        m.function_wf(*f, rank),
        args@.len() == f.arguments@.len(),
        sized(*f, st@),
        h < f.expressions@.len(),
    ensures
        r == value_uniform(*f, args@, st@, h),
{
    proof {
        assert(expr_wf(f.expressions@[h as int], h as int, f.arguments@.len(), f.locals@.len(), m.globals@.len(), m.types@.len(), rank));
    }
    match &f.expressions[h as usize] {
        Expr::Literal(_) | Expr::ZeroValue(_) => true,
        Expr::FunctionArgument(i) => args[*i as usize],
        Expr::LocalVariable(_) | Expr::GlobalVariable(_) => true,
        _ => st.values[h as usize],
    }
}

pub(crate) fn root(f: &LoweredFunction, h: u32, Ghost(m): Ghost<LoweredModule>, Ghost(rank): Ghost<nat>) -> (r: Option<Root>)
    requires
        m.function_wf(*f, rank),
        h < f.expressions@.len(),
    ensures
        r == root_of(*f, h),
    decreases h,
{
    match &f.expressions[h as usize] {
        Expr::LocalVariable(l) => Some(Root::Local(*l)),
        Expr::GlobalVariable(g) => Some(Root::Global(*g)),
        Expr::Access { base, .. } | Expr::AccessIndex { base, .. } => {
            if *base < h {
                root(f, *base, Ghost(m), Ghost(rank))
            } else {
                None
            }
        },
        _ => None,
    }
}

fn expression(m: &LoweredModule, f: &LoweredFunction, args: &Vec<bool>, st: &Flow, h: u32, Ghost(rank): Ghost<nat>) -> (r: bool)
    requires
        m.function_wf(*f, rank),
        args@.len() == f.arguments@.len(),
        sized(*f, st@),
        h < f.expressions@.len(),
    ensures
        r == expression_uniform(*m, *f, args@, st@, h),
{
    let ghost mm = *m;
    proof {
        assert(expr_wf(f.expressions@[h as int], h as int, f.arguments@.len(), f.locals@.len(), m.globals@.len(), m.types@.len(), rank));
    }
    match &f.expressions[h as usize] {
        Expr::Literal(_) | Expr::ZeroValue(_) => true,
        Expr::FunctionArgument(i) => args[*i as usize],
        Expr::LocalVariable(_) | Expr::GlobalVariable(_) => true,
        Expr::Load { pointer } => {
            proof {
                assert(operands(f.expressions@[h as int])[0] == *pointer);
                lemma_root(*m, rank, *f, *pointer);
            }
            if !value(f, args, st, *pointer, Ghost(mm), Ghost(rank)) {
                return false;
            }
            match root(f, *pointer, Ghost(mm), Ghost(rank)) {
                Some(Root::Local(l)) => st.locals[l as usize],
                Some(Root::Global(g)) => match m.globals[g as usize].space {
                    Space::Storage { store } => !store,
                    Space::Uniform | Space::Immediate => true,
                    _ => false,
                },
                None => false,
            }
        },
        Expr::Access { base, index } => {
            proof {
                assert(operands(f.expressions@[h as int])[0] == *base);
                assert(operands(f.expressions@[h as int])[1] == *index);
            }
            value(f, args, st, *base, Ghost(mm), Ghost(rank)) && value(f, args, st, *index, Ghost(mm), Ghost(rank))
        },
        Expr::AccessIndex { base, .. } => {
            proof {
                assert(operands(f.expressions@[h as int])[0] == *base);
            }
            value(f, args, st, *base, Ghost(mm), Ghost(rank))
        },
        Expr::Compose { components, .. } => {
            let mut k: usize = 0;
            while k < components.len()
                invariant
                    k <= components@.len(),
                    f.expressions@[h as int] matches Expr::Compose { components: c, .. } && c@ == components@,
                    m.function_wf(*f, rank),
                    args@.len() == f.arguments@.len(),
                    sized(*f, st@),
                    h < f.expressions@.len(),
                    mm == *m,
                    forall|j: int| 0 <= j < k ==> value_uniform(*f, args@, st@, #[trigger] components@[j]),
                decreases components@.len() - k,
            {
                proof {
                    assert(expr_wf(f.expressions@[h as int], h as int, f.arguments@.len(), f.locals@.len(), m.globals@.len(), m.types@.len(), rank));
                    assert(operands(f.expressions@[h as int])[k as int] == components@[k as int]);
                }
                if !value(f, args, st, components[k], Ghost(mm), Ghost(rank)) {
                    return false;
                }
                k += 1;
            }
            true
        },
        Expr::Unary { expr, .. } | Expr::As { expr, .. } => {
            proof {
                assert(operands(f.expressions@[h as int])[0] == *expr);
            }
            value(f, args, st, *expr, Ghost(mm), Ghost(rank))
        },
        Expr::Binary { left, right, .. } => {
            proof {
                assert(operands(f.expressions@[h as int])[0] == *left);
                assert(operands(f.expressions@[h as int])[1] == *right);
            }
            value(f, args, st, *left, Ghost(mm), Ghost(rank)) && value(f, args, st, *right, Ghost(mm), Ghost(rank))
        },
        Expr::Select { condition, accept, reject } => {
            proof {
                assert(operands(f.expressions@[h as int])[0] == *condition);
                assert(operands(f.expressions@[h as int])[1] == *accept);
                assert(operands(f.expressions@[h as int])[2] == *reject);
            }
            value(f, args, st, *condition, Ghost(mm), Ghost(rank)) && value(f, args, st, *accept, Ghost(mm), Ghost(rank))
                && value(f, args, st, *reject, Ghost(mm), Ghost(rank))
        },
        Expr::Math { arg, arg1, .. } => {
            proof {
                assert(operands(f.expressions@[h as int])[0] == *arg);
            }
            if !value(f, args, st, *arg, Ghost(mm), Ghost(rank)) {
                return false;
            }
            match arg1 {
                Some(b) => {
                    proof {
                        assert(operands(f.expressions@[h as int])[1] == *b);
                    }
                    value(f, args, st, *b, Ghost(mm), Ghost(rank))
                },
                None => true,
            }
        },
        Expr::CallResult(_) => false,
    }
}

fn emit(m: &LoweredModule, f: &LoweredFunction, args: &Vec<bool>, st: &mut Flow, start: u32, end: u32, Ghost(rank): Ghost<nat>)
    requires
        m.function_wf(*f, rank),
        args@.len() == f.arguments@.len(),
        sized(*f, old(st)@),
        start <= end <= f.expressions@.len(),
    ensures
        final(st)@ == emitted(*m, *f, args@, old(st)@, start as int, end as int),
        sized(*f, final(st)@),
{
    let mut h: u32 = start;
    while h < end
        invariant
            start <= h <= end,
            end <= f.expressions@.len(),
            m.function_wf(*f, rank),
            args@.len() == f.arguments@.len(),
            sized(*f, st@),
            emitted(*m, *f, args@, st@, h as int, end as int) == emitted(*m, *f, args@, old(st)@, start as int, end as int),
        decreases end - h,
    {
        let v = expression(m, f, args, st, h, Ghost(rank));
        st.values.set(h as usize, v);
        h += 1;
    }
    proof {
        assert(emitted(*m, *f, args@, st@, h as int, end as int) == st@);
    }
}


proof fn lemma_body_err(m: LoweredModule, rank: nat, f: LoweredFunction, args: Seq<bool>, b: Seq<Stmt>, st: FlowView, i: int, e: Divergence)
    requires
        0 <= i <= b.len(),
        body_flow(m, rank, f, args, b.subrange(0, i), st) == Err::<FlowView, Divergence>(e),
    ensures
        body_flow(m, rank, f, args, b, st) == Err::<FlowView, Divergence>(e),
    decreases b.len() - i,
{
    if i < b.len() {
        let p = b.subrange(0, i + 1);
        assert(p.subrange(0, i) =~= b.subrange(0, i));
        assert(body_flow(m, rank, f, args, p, st) == Err::<FlowView, Divergence>(e));
        lemma_body_err(m, rank, f, args, b, st, i + 1, e);
    } else {
        assert(b.subrange(0, i) =~= b);
    }
}

proof fn lemma_cases_err(m: LoweredModule, rank: nat, f: LoweredFunction, args: Seq<bool>, c: Seq<Case>, st: FlowView, u: bool, i: int, e: Divergence)
    requires
        0 <= i <= c.len(),
        cases_flow(m, rank, f, args, c.subrange(0, i), st, u) == Err::<FlowView, Divergence>(e),
    ensures
        cases_flow(m, rank, f, args, c, st, u) == Err::<FlowView, Divergence>(e),
    decreases c.len() - i,
{
    if i < c.len() {
        let p = c.subrange(0, i + 1);
        assert(p.subrange(0, i) =~= c.subrange(0, i));
        assert(cases_flow(m, rank, f, args, p, st, u) == Err::<FlowView, Divergence>(e));
        lemma_cases_err(m, rank, f, args, c, st, u, i + 1, e);
    } else {
        assert(c.subrange(0, i) =~= c);
    }
}

/// A call already analysed: its function, the uniformity of its arguments, and its effect.
struct Memo {
    function: u32,
    arguments: Vec<bool>,
    effect: Effect,
}

spec fn cache_ok(m: LoweredModule, c: Seq<Memo>) -> bool {
    forall|k: int| 0 <= k < c.len() ==> call_effect(m, #[trigger] c[k].function as nat, c[k].arguments@) == Ok::<Effect, Divergence>(c[k].effect)
}

fn lookup(cache: &Vec<Memo>, j: u32, inputs: &Vec<bool>) -> (r: Option<Effect>)
    ensures
        match r {
            Some(e) => exists|k: int| 0 <= k < cache@.len() && #[trigger] cache@[k].function == j && cache@[k].arguments@ == inputs@ && cache@[k].effect == e,
            None => forall|k: int| 0 <= k < cache@.len() ==> !(#[trigger] cache@[k].function == j && cache@[k].arguments@ == inputs@),
        },
{
    let mut k: usize = 0;
    while k < cache.len()
        invariant
            k <= cache@.len(),
            forall|q: int| 0 <= q < k ==> !(#[trigger] cache@[q].function == j && cache@[q].arguments@ == inputs@),
        decreases cache@.len() - k,
    {
        if cache[k].function == j && same(&cache[k].arguments, inputs) {
            return Some(cache[k].effect);
        }
        k += 1;
    }
    None
}

fn uniform_builtin(binding: Option<Builtin>) -> (r: bool)
    ensures
        r == builtin_uniform(binding),
{
    match binding {
        Some(Builtin::WorkGroupId) | Some(Builtin::WorkGroupSize) | Some(Builtin::NumWorkGroups) => true,
        _ => false,
    }
}

fn callee(m: &LoweredModule, j: u32, inputs: Vec<bool>, cache: &mut Vec<Memo>) -> (r: Result<Effect, Divergence>)
    requires
        m.wf(),
        j < m.functions@.len(),
        inputs@.len() == m.functions@[j as int].arguments@.len(),
        cache_ok(*m, old(cache)@),
    ensures
        cache_ok(*m, final(cache)@),
        r == call_effect(*m, j as nat, inputs@),
    decreases 2 * j + 2, m.function_at(j as nat).body@, 1int,
{
    match lookup(cache, j, &inputs) {
        Some(e) => {
            proof {
                let k = choose|k: int| 0 <= k < cache@.len() && #[trigger] cache@[k].function == j && cache@[k].arguments@ == inputs@ && cache@[k].effect == e;
                assert(call_effect(*m, cache@[k].function as nat, cache@[k].arguments@) == Ok::<Effect, Divergence>(cache@[k].effect));
            }
            return Ok(e);
        },
        None => {},
    }
    let ghost seen = inputs@;
    let r = function(m, j, &inputs, cache);
    match r {
        Ok(e) => {
            let ghost before = cache@;
            cache.push(Memo { function: j, arguments: inputs, effect: e });
            proof {
                assert forall|k: int| 0 <= k < cache@.len() implies call_effect(*m, #[trigger] cache@[k].function as nat, cache@[k].arguments@) == Ok::<Effect, Divergence>(cache@[k].effect) by {
                    if k < before.len() {
                        assert(cache@[k] == before[k]);
                    }
                }
            }
        },
        Err(_) => {},
    }
    r
}

fn function(m: &LoweredModule, j: u32, args: &Vec<bool>, cache: &mut Vec<Memo>) -> (r: Result<Effect, Divergence>)
    requires
        m.wf(),
        j <= m.functions@.len(),
        args@.len() == m.function_at(j as nat).arguments@.len(),
        cache_ok(*m, old(cache)@),
    ensures
        cache_ok(*m, final(cache)@),
        r == call_effect(*m, j as nat, args@),
    decreases 2 * j + 2, m.function_at(j as nat).body@, 0int,
{
    let f = if (j as usize) < m.functions.len() {
        &m.functions[j as usize]
    } else {
        &m.entry
    };
    proof {
        lemma_function_wf(*m, j as nat);
    }
    let mut st = Flow::fresh(f);
    match block(m, Ghost(j as nat), f, args, &f.body, &mut st, cache) {
        Ok(()) => Ok(Effect { result_uniform: st.return_uniform, barrier: st.barrier }),
        Err(e) => Err(e),
    }
}

fn block(
    m: &LoweredModule,
    Ghost(rank): Ghost<nat>,
    f: &LoweredFunction,
    args: &Vec<bool>,
    body: &Vec<Stmt>,
    st: &mut Flow,
    cache: &mut Vec<Memo>,
) -> (r: Result<(), Divergence>)
    requires
        fits(*m, rank, *f, args@),
        sized(*f, old(st)@),
        m.body_wf(body@, f.expressions@.len(), rank),
        cache_ok(*m, old(cache)@),
    ensures
        cache_ok(*m, final(cache)@),
        match body_flow(*m, rank, *f, args@, body@, old(st)@) {
            Ok(n) => r is Ok && final(st)@ == n && sized(*f, n),
            Err(e) => r == Err::<(), Divergence>(e),
        },
    decreases level(rank), body@, 0int,
{
    let ghost st0 = st@;
    let mut i: usize = 0;
    while i < body.len()
        invariant
            i <= body@.len(),
            fits(*m, rank, *f, args@),
            sized(*f, st@),
            m.body_wf(body@, f.expressions@.len(), rank),
            cache_ok(*m, cache@),
            body_flow(*m, rank, *f, args@, body@.subrange(0, i as int), st0) == Ok::<FlowView, Divergence>(st@),
            st0 == old(st)@,
        decreases body@.len() - i,
    {
        proof {
            lemma_body_wf(*m, body@, f.expressions@.len(), rank, i as int);
            let p = body@.subrange(0, i + 1);
            assert(p.subrange(0, i as int) =~= body@.subrange(0, i as int));
            assert(p[i as int] == body@[i as int]);
        }
        let ghost pre = st@;
        match statement(m, Ghost(rank), f, args, &body[i], st, cache) {
            Ok(()) => {},
            Err(e) => {
                proof {
                    assert(stmt_flow(*m, rank, *f, args@, body@[i as int], pre) == Err::<FlowView, Divergence>(e));
                    assert(body_flow(*m, rank, *f, args@, body@.subrange(0, i + 1), st0) == Err::<FlowView, Divergence>(e));
                    lemma_body_err(*m, rank, *f, args@, body@, st0, i + 1, e);
                }
                return Err(e);
            },
        }
        i += 1;
    }
    proof {
        assert(body@.subrange(0, body@.len() as int) =~= body@);
    }
    Ok(())
}

fn statement(
    m: &LoweredModule,
    Ghost(rank): Ghost<nat>,
    f: &LoweredFunction,
    args: &Vec<bool>,
    s: &Stmt,
    st: &mut Flow,
    cache: &mut Vec<Memo>,
) -> (r: Result<(), Divergence>)
    requires
        fits(*m, rank, *f, args@),
        sized(*f, old(st)@),
        m.stmt_wf(*s, f.expressions@.len(), rank),
        cache_ok(*m, old(cache)@),
    ensures
        cache_ok(*m, final(cache)@),
        match stmt_flow(*m, rank, *f, args@, *s, old(st)@) {
            Ok(n) => r is Ok && final(st)@ == n && sized(*f, n),
            Err(e) => r == Err::<(), Divergence>(e),
        },
    decreases level(rank), *s, (f.locals@.len() + 2) as int,
{
    let ghost mm = *m;
    proof {
        lemma_function_wf(*m, rank);
    }
    match s {
        Stmt::Emit { start, end } => {
            emit(m, f, args, st, *start, *end, Ghost(rank));
            Ok(())
        },
        Stmt::Store { pointer, value: stored } => {
            proof {
                lemma_root(*m, rank, *f, *pointer);
            }
            match root(f, *pointer, Ghost(mm), Ghost(rank)) {
                Some(Root::Local(l)) => {
                    let u = st.control_uniform && value(f, args, st, *pointer, Ghost(mm), Ghost(rank))
                        && value(f, args, st, *stored, Ghost(mm), Ghost(rank));
                    st.locals.set(l as usize, u);
                    Ok(())
                },
                _ => Ok(()),
            }
        },
        Stmt::Call { .. } => call_statement(m, Ghost(rank), f, args, s, st, cache),
        Stmt::Barrier { .. } => {
            if !st.control_uniform {
                return Err(Divergence::Barrier);
            }
            st.barrier = true;
            Ok(())
        },
        Stmt::If { .. } => if_statement(m, Ghost(rank), f, args, s, st, cache),
        Stmt::Switch { .. } => switch_statement(m, Ghost(rank), f, args, s, st, cache),
        Stmt::Loop { .. } => loop_statement(m, Ghost(rank), f, args, s, st, cache),
        Stmt::Return(returned) => {
            let u = match returned {
                Some(v) => value(f, args, st, *v, Ghost(mm), Ghost(rank)),
                None => true,
            };
            st.return_uniform = st.return_uniform && st.control_uniform && u;
            st.returned_nonuniform = st.returned_nonuniform || !st.control_uniform;
            Ok(())
        },
        Stmt::Break | Stmt::Continue => {
            st.loop_exit_nonuniform = st.loop_exit_nonuniform || !st.control_uniform;
            Ok(())
        },
        Stmt::Block(inner) => block(m, Ghost(rank), f, args, inner, st, cache),
    }
}

fn call_statement(
    m: &LoweredModule,
    Ghost(rank): Ghost<nat>,
    f: &LoweredFunction,
    args: &Vec<bool>,
    s: &Stmt,
    st: &mut Flow,
    cache: &mut Vec<Memo>,
) -> (r: Result<(), Divergence>)
    requires
        fits(*m, rank, *f, args@),
        sized(*f, old(st)@),
        m.stmt_wf(*s, f.expressions@.len(), rank),
        *s matches Stmt::Call { .. },
        cache_ok(*m, old(cache)@),
    ensures
        cache_ok(*m, final(cache)@),
        match stmt_flow(*m, rank, *f, args@, *s, old(st)@) {
            Ok(n) => r is Ok && final(st)@ == n && sized(*f, n),
            Err(e) => r == Err::<(), Divergence>(e),
        },
    decreases level(rank), *s, (f.locals@.len() + 1) as int,
{
    let ghost mm = *m;
    proof {
        lemma_function_wf(*m, rank);
    }
    match s {
        Stmt::Call { function, arguments, result } => {
            let ghost st0 = st@;
            let mut inputs: Vec<bool> = Vec::new();
            let mut k: usize = 0;
            while k < arguments.len()
                invariant
                    k <= arguments@.len(),
                    fits(*m, rank, *f, args@),
                    m.function_wf(*f, rank),
                    sized(*f, st@),
                    st@ == st0,
                    mm == *m,
                    forall|i: int| 0 <= i < arguments@.len() ==> #[trigger] arguments@[i] < f.expressions@.len(),
                    inputs@.len() == k,
                    forall|i: int| 0 <= i < k ==> inputs@[i] == value_uniform(*f, args@, st@, #[trigger] arguments@[i]),
                decreases arguments@.len() - k,
            {
                let u = value(f, args, st, arguments[k], Ghost(mm), Ghost(rank));
                inputs.push(u);
                k += 1;
            }
            proof {
                assert(inputs@ =~= Seq::new(arguments@.len(), |i: int| value_uniform(*f, args@, st@, arguments@[i])));
            }
            let effect = match callee(m, *function, inputs, cache) {
                Ok(e) => e,
                Err(e) => return Err(e),
            };
            if effect.barrier && !st.control_uniform {
                return Err(Divergence::CallBarrier);
            }
            st.barrier = st.barrier || effect.barrier;
            match result {
                Some(res) => {
                    let u = st.control_uniform && effect.result_uniform;
                    st.values.set(*res as usize, u);
                },
                None => {},
            }
            Ok(())
        },
        _ => Ok(()),
    }
}

fn if_statement(
    m: &LoweredModule,
    Ghost(rank): Ghost<nat>,
    f: &LoweredFunction,
    args: &Vec<bool>,
    s: &Stmt,
    st: &mut Flow,
    cache: &mut Vec<Memo>,
) -> (r: Result<(), Divergence>)
    requires
        fits(*m, rank, *f, args@),
        sized(*f, old(st)@),
        m.stmt_wf(*s, f.expressions@.len(), rank),
        *s matches Stmt::If { .. },
        cache_ok(*m, old(cache)@),
    ensures
        cache_ok(*m, final(cache)@),
        match stmt_flow(*m, rank, *f, args@, *s, old(st)@) {
            Ok(n) => r is Ok && final(st)@ == n && sized(*f, n),
            Err(e) => r == Err::<(), Divergence>(e),
        },
    decreases level(rank), *s, (f.locals@.len() + 1) as int,
{
    let ghost mm = *m;
    proof {
        lemma_function_wf(*m, rank);
    }
    match s {
        Stmt::If { condition, accept, reject } => {
            let u = value(f, args, st, *condition, Ghost(mm), Ghost(rank));
            let mut accepted = st.copy();
            accepted.control_uniform = accepted.control_uniform && u;
            match block(m, Ghost(rank), f, args, accept, &mut accepted, cache) {
                Ok(()) => {},
                Err(e) => return Err(e),
            }
            let mut rejected = st.copy();
            rejected.control_uniform = rejected.control_uniform && u;
            match block(m, Ghost(rank), f, args, reject, &mut rejected, cache) {
                Ok(()) => {},
                Err(e) => return Err(e),
            }
            st.merge(&accepted);
            st.merge(&rejected);
            if !u && (accepted.returned_nonuniform || rejected.returned_nonuniform || accepted.loop_exit_nonuniform
                || rejected.loop_exit_nonuniform) {
                st.control_uniform = false;
            }
            Ok(())
        },
        _ => Ok(()),
    }
}

fn switch_statement(
    m: &LoweredModule,
    Ghost(rank): Ghost<nat>,
    f: &LoweredFunction,
    args: &Vec<bool>,
    s: &Stmt,
    st: &mut Flow,
    cache: &mut Vec<Memo>,
) -> (r: Result<(), Divergence>)
    requires
        fits(*m, rank, *f, args@),
        sized(*f, old(st)@),
        m.stmt_wf(*s, f.expressions@.len(), rank),
        *s matches Stmt::Switch { .. },
        cache_ok(*m, old(cache)@),
    ensures
        cache_ok(*m, final(cache)@),
        match stmt_flow(*m, rank, *f, args@, *s, old(st)@) {
            Ok(n) => r is Ok && final(st)@ == n && sized(*f, n),
            Err(e) => r == Err::<(), Divergence>(e),
        },
    decreases level(rank), *s, (f.locals@.len() + 1) as int,
{
    let ghost mm = *m;
    proof {
        lemma_function_wf(*m, rank);
    }
    match s {
        Stmt::Switch { selector, cases } => {
            let u = value(f, args, st, *selector, Ghost(mm), Ghost(rank));
            let ghost st0 = st@;
            let mut joined = st.copy();
            let mut k: usize = 0;
            proof {
                assert(cases@.subrange(0, 0) =~= Seq::<Case>::empty());
            }
            while k < cases.len()
                invariant
                    k <= cases@.len(),
                    fits(*m, rank, *f, args@),
                    sized(*f, st0),
                    sized(*f, joined@),
                    st@ == st0,
                    st0 == old(st)@,
                    u == value_uniform(*f, args@, st0, *selector),
                    cache_ok(*m, cache@),
                    m.cases_wf(cases@, f.expressions@.len(), rank),
                    *s == (Stmt::Switch { selector: *selector, cases: *cases }),
                    cases_flow(*m, rank, *f, args@, cases@.subrange(0, k as int), st0, u) == Ok::<FlowView, Divergence>(joined@),
                decreases cases@.len() - k,
            {
                let ghost acc = joined@;
                proof {
                    lemma_cases_wf(*m, cases@, f.expressions@.len(), rank, k as int);
                    let p = cases@.subrange(0, k + 1);
                    assert(p.subrange(0, k as int) =~= cases@.subrange(0, k as int));
                    assert(p[k as int] == cases@[k as int]);
                    assert(decreases_to!(*s => *cases));
                    assert(decreases_to!(*cases => cases@));
                    assert(decreases_to!(cases@ => cases@[k as int]));
                    assert(decreases_to!(cases@[k as int] => cases@[k as int].body));
                    assert(decreases_to!(cases@[k as int].body => cases@[k as int].body@));
                }
                let case = &cases[k];
                if case.fall_through {
                    proof {
                        assert(cases_flow(*m, rank, *f, args@, cases@.subrange(0, k + 1), st0, u) == Err::<FlowView, Divergence>(Divergence::FallThrough));
                        lemma_cases_err(*m, rank, *f, args@, cases@, st0, u, k + 1, Divergence::FallThrough);
                    }
                    return Err(Divergence::FallThrough);
                }
                let mut branch = st.copy();
                branch.control_uniform = branch.control_uniform && u;
                match block(m, Ghost(rank), f, args, &case.body, &mut branch, cache) {
                    Ok(()) => {},
                    Err(e) => {
                        proof {
                            lemma_cases_err(*m, rank, *f, args@, cases@, st0, u, k + 1, e);
                        }
                        return Err(e);
                    },
                }
                joined.merge(&branch);
                if !u && (branch.returned_nonuniform || branch.loop_exit_nonuniform) {
                    joined.control_uniform = false;
                }
                k += 1;
            }
            proof {
                assert(cases@.subrange(0, cases@.len() as int) =~= cases@);
            }
            *st = joined;
            Ok(())
        },
        _ => Ok(()),
    }
}

fn loop_statement(
    m: &LoweredModule,
    Ghost(rank): Ghost<nat>,
    f: &LoweredFunction,
    args: &Vec<bool>,
    s: &Stmt,
    st: &mut Flow,
    cache: &mut Vec<Memo>,
) -> (r: Result<(), Divergence>)
    requires
        fits(*m, rank, *f, args@),
        sized(*f, old(st)@),
        m.stmt_wf(*s, f.expressions@.len(), rank),
        *s matches Stmt::Loop { .. },
        cache_ok(*m, old(cache)@),
    ensures
        cache_ok(*m, final(cache)@),
        match stmt_flow(*m, rank, *f, args@, *s, old(st)@) {
            Ok(n) => r is Ok && final(st)@ == n && sized(*f, n),
            Err(e) => r == Err::<(), Divergence>(e),
        },
    decreases level(rank), *s, (f.locals@.len() + 1) as int,
{
    let ghost mm = *m;
    proof {
        lemma_function_wf(*m, rank);
    }
    match s {
        Stmt::Loop { body, continuing, break_if } => {
            let ghost target = stmt_flow(*m, rank, *f, args@, *s, st@);
            let before = st.copy();
            let mut head = st.copy();
            let mut barriers = false;
            let mut divergent = false;
            let mut pass: usize = 0;
            loop
                invariant
                    fits(*m, rank, *f, args@),
                    m.function_wf(*f, rank),
                    mm == *m,
                    sized(*f, before@),
                    sized(*f, head@),
                    st@ == before@,
                    pass <= before@.locals.len(),
                    cache_ok(*m, cache@),
                    m.stmt_wf(*s, f.expressions@.len(), rank),
                    *s == (Stmt::Loop { body: *body, continuing: *continuing, break_if: *break_if }),
                    loop_flow(*m, rank, *f, args@, *s, before@, head@, barriers, divergent, pass as nat) == target,
                    target == stmt_flow(*m, rank, *f, args@, *s, old(st)@),
                decreases f.locals@.len() + 1 - pass,
            {
                let mut iteration = head.copy();
                iteration.barrier = false;
                iteration.loop_exit_nonuniform = false;
                iteration.returned_nonuniform = false;
                match block(m, Ghost(rank), f, args, body, &mut iteration, cache) {
                    Ok(()) => {},
                    Err(e) => return Err(e),
                }
                match block(m, Ghost(rank), f, args, continuing, &mut iteration, cache) {
                    Ok(()) => {},
                    Err(e) => return Err(e),
                }
                match break_if {
                    Some(c) => {
                        if !value(f, args, &iteration, *c, Ghost(mm), Ghost(rank)) {
                            return Err(Divergence::BreakIf);
                        }
                    },
                    None => {},
                }
                barriers = barriers || iteration.barrier;
                divergent = divergent || iteration.loop_exit_nonuniform;
                if barriers && divergent {
                    return Err(Divergence::LoopBarrier);
                }
                let next = both(&before.locals, &iteration.locals);
                if same(&next, &head.locals) {
                    st.merge(&iteration);
                    st.control_uniform = before.control_uniform && !iteration.returned_nonuniform;
                    st.loop_exit_nonuniform = before.loop_exit_nonuniform;
                    st.barrier = st.barrier || barriers;
                    return Ok(());
                }
                if pass >= before.locals.len() {
                    return Err(Divergence::NoConvergence);
                }
                head.locals = next;
                head.control_uniform = head.control_uniform && !iteration.returned_nonuniform;
                pass += 1;
            }
        },
        _ => Ok(()),
    }
}

/// Runs the analysis from the module's entry, whose arguments are uniform
/// exactly when they receive the workgroup's id, its size or the number of
/// workgroups.
pub fn verify(m: &LoweredModule) -> (r: Result<(), Divergence>)
    requires
        m.wf(),
    ensures
        r == uniformity(*m),
{
    let mut args: Vec<bool> = Vec::new();
    let mut k: usize = 0;
    while k < m.entry.arguments.len()
        invariant
            k <= m.entry.arguments@.len(),
            args@.len() == k,
            forall|i: int| 0 <= i < k ==> args@[i] == builtin_uniform(#[trigger] m.entry.arguments@[i].binding),
        decreases m.entry.arguments@.len() - k,
    {
        args.push(uniform_builtin(m.entry.arguments[k].binding));
        k += 1;
    }
    proof {
        assert(args@ =~= entry_arguments(*m));
    }
    let mut cache: Vec<Memo> = Vec::new();
    match function(m, m.functions.len() as u32, &args, &mut cache) {
        Ok(_) => Ok(()),
        Err(e) => Err(e),
    }
}

} // verus!
