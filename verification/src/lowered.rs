//! Device functions as a shader holds them: an arena of expressions that name
//! each other by index, and a tree of statements over those expressions.
//!
//! Expressions name only earlier expressions, as a shader module requires;
//! a function calls only functions declared before it.
use vstd::prelude::*;

verus! {

/// The kind of a scalar.
#[derive(Clone, Copy, PartialEq, Eq, Debug, Structural)]
pub enum ScalarKind {
    Uint,
    Sint,
    Float,
    Bool,
}

/// A literal. A float literal is held as the bit pattern of a 32-bit float.
#[derive(Clone, Copy, PartialEq, Eq, Debug, Structural)]
pub enum Literal {
    U32(u32),
    I32(i32),
    F32(u32),
    Bool(bool),
}

#[derive(Clone, Copy, PartialEq, Eq, Debug, Structural)]
pub enum UnaryOp {
    Negate,
    LogicalNot,
    BitwiseNot,
}

#[derive(Clone, Copy, PartialEq, Eq, Debug, Structural)]
pub enum BinaryOp {
    Add,
    Subtract,
    Multiply,
    Divide,
    Modulo,
    Equal,
    NotEqual,
    Less,
    LessEqual,
    Greater,
    GreaterEqual,
    And,
    ExclusiveOr,
    InclusiveOr,
    LogicalAnd,
    LogicalOr,
    ShiftLeft,
    ShiftRight,
}

/// What a device operator computes of two unsigned operands: the arithmetic
/// result (0 for a division or remainder by zero), the bits of a bitwise
/// operation, the operand shifted by the amount, and for a comparison or a
/// logical operator 1 where it holds and 0 where not.
pub open spec fn device_meaning(op: BinaryOp, a: u32, b: u32) -> int {
    match op {
        BinaryOp::Add => a + b,
        BinaryOp::Subtract => a - b,
        BinaryOp::Multiply => a * b,
        BinaryOp::Divide => if b == 0 { 0 } else { a as int / b as int },
        BinaryOp::Modulo => if b == 0 { 0 } else { a as int % b as int },
        BinaryOp::Equal => if a == b { 1 } else { 0 },
        BinaryOp::NotEqual => if a != b { 1 } else { 0 },
        BinaryOp::Less => if a < b { 1 } else { 0 },
        BinaryOp::LessEqual => if a <= b { 1 } else { 0 },
        BinaryOp::Greater => if a > b { 1 } else { 0 },
        BinaryOp::GreaterEqual => if a >= b { 1 } else { 0 },
        BinaryOp::And => (a & b) as int,
        BinaryOp::ExclusiveOr => (a ^ b) as int,
        BinaryOp::InclusiveOr => (a | b) as int,
        BinaryOp::LogicalAnd => if a != 0 && b != 0 { 1 } else { 0 },
        BinaryOp::LogicalOr => if a != 0 || b != 0 { 1 } else { 0 },
        BinaryOp::ShiftLeft => a * vstd::arithmetic::power2::pow2(b as nat),
        BinaryOp::ShiftRight => a as int / vstd::arithmetic::power2::pow2(b as nat) as int,
    }
}

#[derive(Clone, Copy, PartialEq, Eq, Debug, Structural)]
pub enum MathFun {
    Max,
    Min,
    Abs,
    Sqrt,
    Exp,
    Log,
    Tanh,
    Trunc,
    Sin,
    Cos,
    Pow,
    Floor,
    Unpack2x16float,
}

/// Where a global variable lives.
#[derive(Clone, Copy, PartialEq, Eq, Debug, Structural)]
pub enum Space {
    /// A storage buffer, writable or not.
    Storage { store: bool },
    Uniform,
    Immediate,
    WorkGroup,
    Private,
}

/// The built-in value an entry argument receives.
#[derive(Clone, Copy, PartialEq, Eq, Debug, Structural)]
pub enum Builtin {
    LocalInvocationIndex,
    LocalInvocationId,
    GlobalInvocationId,
    WorkGroupId,
    WorkGroupSize,
    NumWorkGroups,
}

/// An expression; operands name earlier expressions of the same function.
#[derive(Debug)]
pub enum Expr {
    Literal(Literal),
    ZeroValue(u32),
    FunctionArgument(u32),
    LocalVariable(u32),
    GlobalVariable(u32),
    Load { pointer: u32 },
    Access { base: u32, index: u32 },
    AccessIndex { base: u32, index: u32 },
    Compose { ty: u32, components: Vec<u32> },
    Unary { op: UnaryOp, expr: u32 },
    Binary { op: BinaryOp, left: u32, right: u32 },
    Select { condition: u32, accept: u32, reject: u32 },
    As { expr: u32, kind: ScalarKind, convert: bool },
    Math { fun: MathFun, arg: u32, arg1: Option<u32> },
    CallResult(u32),
}

/// The value a switch case matches.
#[derive(Clone, Copy, PartialEq, Eq, Debug, Structural)]
pub enum CaseValue {
    U32(u32),
    Default,
}

#[derive(Debug)]
pub struct Case {
    pub value: CaseValue,
    pub body: Vec<Stmt>,
    pub fall_through: bool,
}

/// A statement.
#[derive(Debug)]
pub enum Stmt {
    /// Evaluates the expressions from `start` up to `end`.
    Emit { start: u32, end: u32 },
    Store { pointer: u32, value: u32 },
    Call { function: u32, arguments: Vec<u32>, result: Option<u32> },
    /// A workgroup or storage barrier.
    Barrier { storage: bool },
    If { condition: u32, accept: Vec<Stmt>, reject: Vec<Stmt> },
    Switch { selector: u32, cases: Vec<Case> },
    Loop { body: Vec<Stmt>, continuing: Vec<Stmt>, break_if: Option<u32> },
    Return(Option<u32>),
    Break,
    Continue,
    Block(Vec<Stmt>),
}

/// A type of the module; operands name earlier types.
#[derive(Debug)]
pub enum ShaderType {
    Scalar(ScalarKind),
    Vector { size: u32, kind: ScalarKind },
    Atomic(ScalarKind),
    /// An array of `count` elements, or one whose length is known at run time.
    Array { base: u32, count: Option<u32>, stride: u32 },
    Struct { name: String, members: Vec<Member>, span: u32 },
}

#[derive(Debug)]
pub struct Member {
    pub name: String,
    pub ty: u32,
    pub offset: u32,
}

/// A global variable: a storage buffer bound at a slot of group zero, or
/// workgroup memory.
#[derive(Debug)]
pub struct GlobalVar {
    pub name: String,
    pub space: Space,
    pub binding: Option<u32>,
    pub ty: u32,
}

#[derive(Debug)]
pub struct Argument {
    pub name: String,
    pub ty: u32,
    pub binding: Option<Builtin>,
}

#[derive(Debug)]
pub struct Local {
    pub name: Option<String>,
    pub ty: u32,
}

#[derive(Debug)]
pub struct LoweredFunction {
    pub name: String,
    pub arguments: Vec<Argument>,
    pub result: Option<u32>,
    pub locals: Vec<Local>,
    pub expressions: Vec<Expr>,
    pub body: Vec<Stmt>,
}

/// The types, globals and functions of a module, and its entry.
#[derive(Debug)]
pub struct LoweredModule {
    pub types: Vec<ShaderType>,
    pub globals: Vec<GlobalVar>,
    pub functions: Vec<LoweredFunction>,
    pub entry: LoweredFunction,
}

/// `h` names an expression before `bound`.
pub open spec fn before(h: u32, bound: int) -> bool {
    0 <= h < bound
}

/// The operands of an expression.
pub open spec fn operands(e: Expr) -> Seq<u32> {
    match e {
        Expr::Load { pointer } => seq![pointer],
        Expr::Access { base, index } => seq![base, index],
        Expr::AccessIndex { base, .. } => seq![base],
        Expr::Compose { components, .. } => components@,
        Expr::Unary { expr, .. } => seq![expr],
        Expr::Binary { left, right, .. } => seq![left, right],
        Expr::Select { condition, accept, reject } => seq![condition, accept, reject],
        Expr::As { expr, .. } => seq![expr],
        Expr::Math { arg, arg1, .. } => match arg1 {
            Some(b) => seq![arg, b],
            None => seq![arg],
        },
        _ => Seq::empty(),
    }
}

/// Expression `i` of a function with `arguments` arguments, `locals` locals
/// in a module of `globals` globals and `types` types names only what
/// exists, its operands come before it, and a call result names a function
/// before `rank`.
pub open spec fn expr_wf(e: Expr, i: int, arguments: nat, locals: nat, globals: nat, types: nat, rank: nat) -> bool {
    &&& forall|k: int| 0 <= k < operands(e).len() ==> before(#[trigger] operands(e)[k], i)
    &&& match e {
        Expr::FunctionArgument(a) => a < arguments,
        Expr::LocalVariable(l) => l < locals,
        Expr::GlobalVariable(g) => g < globals,
        Expr::CallResult(f) => f < rank,
        Expr::ZeroValue(t) => t < types,
        Expr::Compose { ty, .. } => ty < types,
        _ => true,
    }
}

/// Type `i` names only earlier types.
pub open spec fn type_wf(t: ShaderType, i: int) -> bool {
    match t {
        ShaderType::Array { base, .. } => before(base, i),
        ShaderType::Struct { members, .. } => forall|k: int| 0 <= k < members@.len() ==> before(#[trigger] members@[k].ty, i),
        _ => true,
    }
}

/// How many arguments each function takes, by rank.
pub open spec fn arities_of(functions: Seq<LoweredFunction>) -> Seq<nat> {
    Seq::new(functions.len(), |j: int| functions[j].arguments@.len())
}

/// Statement `s` of a function of rank `rank` with `len` expressions names
/// only expressions that exist, and calls only functions of lower rank, with
/// as many arguments as `arities` says they take.
pub open spec fn stmt_fits(s: Stmt, len: nat, rank: nat, arities: Seq<nat>) -> bool
    decreases s,
{
    match s {
        Stmt::Emit { start, end } => start <= end <= len,
        Stmt::Store { pointer, value } => pointer < len && value < len,
        Stmt::Call { function, arguments, result } => {
            &&& function < rank
            &&& function < arities.len()
            &&& arguments@.len() == arities[function as int]
            &&& forall|k: int| 0 <= k < arguments@.len() ==> #[trigger] arguments@[k] < len
            &&& match result {
                Some(r) => r < len,
                None => true,
            }
        },
        Stmt::If { condition, accept, reject } => condition < len && body_fits(accept@, len, rank, arities)
            && body_fits(reject@, len, rank, arities),
        Stmt::Switch { selector, cases } => selector < len && cases_fits(cases@, len, rank, arities),
        Stmt::Loop { body, continuing, break_if } => {
            &&& body_fits(body@, len, rank, arities)
            &&& body_fits(continuing@, len, rank, arities)
            &&& match break_if {
                Some(c) => c < len,
                None => true,
            }
        },
        Stmt::Return(value) => match value {
            Some(v) => v < len,
            None => true,
        },
        Stmt::Block(body) => body_fits(body@, len, rank, arities),
        _ => true,
    }
}

pub open spec fn body_fits(b: Seq<Stmt>, len: nat, rank: nat, arities: Seq<nat>) -> bool
    decreases b,
{
    if b.len() == 0 {
        true
    } else {
        body_fits(b.subrange(0, b.len() - 1), len, rank, arities) && stmt_fits(b[b.len() - 1], len, rank, arities)
    }
}

pub open spec fn cases_fits(c: Seq<Case>, len: nat, rank: nat, arities: Seq<nat>) -> bool
    decreases c,
{
    if c.len() == 0 {
        true
    } else {
        cases_fits(c.subrange(0, c.len() - 1), len, rank, arities) && body_fits(c[c.len() - 1].body@, len, rank, arities)
    }
}

/// Function `f` of rank `rank`, in a module of `globals` globals and `types`
/// types whose functions take `arities` arguments, names only what exists.
pub open spec fn function_fits(f: LoweredFunction, rank: nat, globals: nat, types: nat, arities: Seq<nat>) -> bool {
    &&& forall|i: int| 0 <= i < f.expressions@.len() ==> expr_wf(
        #[trigger] f.expressions@[i],
        i,
        f.arguments@.len(),
        f.locals@.len(),
        globals,
        types,
        rank,
    )
    &&& forall|i: int| 0 <= i < f.arguments@.len() ==> #[trigger] f.arguments@[i].ty < types
    &&& forall|i: int| 0 <= i < f.locals@.len() ==> #[trigger] f.locals@[i].ty < types
    &&& match f.result {
        Some(t) => t < types,
        None => true,
    }
    &&& body_fits(f.body@, f.expressions@.len(), rank, arities)
    &&& f.expressions@.len() < u32::MAX
    &&& f.locals@.len() < u32::MAX
}

/// `a2` extends `a` at its end.
pub open spec fn extends(a: Seq<nat>, a2: Seq<nat>) -> bool {
    a.len() <= a2.len() && forall|j: int| 0 <= j < a.len() ==> #[trigger] a2[j] == a[j]
}

pub(crate) proof fn lemma_stmt_grows(s: Stmt, len: nat, len2: nat, rank: nat, rank2: nat, a: Seq<nat>, a2: Seq<nat>)
    requires
        stmt_fits(s, len, rank, a),
        len <= len2,
        rank <= rank2,
        extends(a, a2),
    ensures
        stmt_fits(s, len2, rank2, a2),
    decreases s,
{
    match s {
        Stmt::If { accept, reject, .. } => {
            lemma_body_grows(accept@, len, len2, rank, rank2, a, a2);
            lemma_body_grows(reject@, len, len2, rank, rank2, a, a2);
        },
        Stmt::Switch { cases, .. } => {
            lemma_cases_grows(cases@, len, len2, rank, rank2, a, a2);
        },
        Stmt::Loop { body, continuing, .. } => {
            lemma_body_grows(body@, len, len2, rank, rank2, a, a2);
            lemma_body_grows(continuing@, len, len2, rank, rank2, a, a2);
        },
        Stmt::Block(body) => {
            lemma_body_grows(body@, len, len2, rank, rank2, a, a2);
        },
        Stmt::Call { function, .. } => {
            assert(a2[function as int] == a[function as int]);
        },
        _ => {},
    }
}

pub(crate) proof fn lemma_body_grows(b: Seq<Stmt>, len: nat, len2: nat, rank: nat, rank2: nat, a: Seq<nat>, a2: Seq<nat>)
    requires
        body_fits(b, len, rank, a),
        len <= len2,
        rank <= rank2,
        extends(a, a2),
    ensures
        body_fits(b, len2, rank2, a2),
    decreases b,
{
    if b.len() > 0 {
        lemma_body_grows(b.subrange(0, b.len() - 1), len, len2, rank, rank2, a, a2);
        lemma_stmt_grows(b[b.len() - 1], len, len2, rank, rank2, a, a2);
    }
}

pub(crate) proof fn lemma_cases_grows(c: Seq<Case>, len: nat, len2: nat, rank: nat, rank2: nat, a: Seq<nat>, a2: Seq<nat>)
    requires
        cases_fits(c, len, rank, a),
        len <= len2,
        rank <= rank2,
        extends(a, a2),
    ensures
        cases_fits(c, len2, rank2, a2),
    decreases c,
{
    if c.len() > 0 {
        lemma_cases_grows(c.subrange(0, c.len() - 1), len, len2, rank, rank2, a, a2);
        lemma_body_grows(c[c.len() - 1].body@, len, len2, rank, rank2, a, a2);
    }
}

pub(crate) proof fn lemma_function_grows(f: LoweredFunction, rank: nat, g: nat, g2: nat, t: nat, t2: nat, a: Seq<nat>, a2: Seq<nat>)
    requires
        function_fits(f, rank, g, t, a),
        g <= g2,
        t <= t2,
        extends(a, a2),
    ensures
        function_fits(f, rank, g2, t2, a2),
{
    assert forall|i: int| 0 <= i < f.expressions@.len() implies expr_wf(
        #[trigger] f.expressions@[i],
        i,
        f.arguments@.len(),
        f.locals@.len(),
        g2,
        t2,
        rank,
    ) by {
        assert(expr_wf(f.expressions@[i], i, f.arguments@.len(), f.locals@.len(), g, t, rank));
    }
    lemma_body_grows(f.body@, f.expressions@.len(), f.expressions@.len(), rank, rank, a, a2);
}

/// A body extended by a statement that fits.
pub(crate) proof fn lemma_body_push(b: Seq<Stmt>, s: Stmt, len: nat, rank: nat, a: Seq<nat>)
    requires
        body_fits(b, len, rank, a),
        stmt_fits(s, len, rank, a),
    ensures
        body_fits(b.push(s), len, rank, a),
{
    assert(b.push(s).subrange(0, b.len() as int) =~= b);
}

/// Cases extended by a case whose body fits.
pub(crate) proof fn lemma_cases_push(c: Seq<Case>, case: Case, len: nat, rank: nat, a: Seq<nat>)
    requires
        cases_fits(c, len, rank, a),
        body_fits(case.body@, len, rank, a),
    ensures
        cases_fits(c.push(case), len, rank, a),
{
    assert(c.push(case).subrange(0, c.len() as int) =~= c);
}

impl LoweredModule {
    /// The arity of the function of rank `rank`: a function of the module,
    /// or the entry at rank `functions.len()`.
    pub open spec fn arity(self, rank: nat) -> nat {
        if rank < self.functions@.len() {
            self.functions@[rank as int].arguments@.len()
        } else {
            self.entry.arguments@.len()
        }
    }

    /// The function of rank `rank`.
    pub open spec fn function_at(self, rank: nat) -> LoweredFunction {
        if rank < self.functions@.len() {
            self.functions@[rank as int]
        } else {
            self.entry
        }
    }

    /// Statement `s` of the function of rank `rank`, with `len` expressions,
    /// names only expressions that exist and calls only earlier functions with
    /// as many arguments as they take.
    pub open spec fn stmt_wf(self, s: Stmt, len: nat, rank: nat) -> bool {
        stmt_fits(s, len, rank, arities_of(self.functions@))
    }

    pub open spec fn body_wf(self, b: Seq<Stmt>, len: nat, rank: nat) -> bool {
        body_fits(b, len, rank, arities_of(self.functions@))
    }

    pub open spec fn cases_wf(self, c: Seq<Case>, len: nat, rank: nat) -> bool {
        cases_fits(c, len, rank, arities_of(self.functions@))
    }

    /// The function of rank `rank` names only what exists.
    pub open spec fn function_wf(self, f: LoweredFunction, rank: nat) -> bool {
        function_fits(f, rank, self.globals@.len(), self.types@.len(), arities_of(self.functions@))
    }

    /// Every function of the module, and its entry, names only what exists.
    pub open spec fn wf(self) -> bool {
        &&& forall|i: int| 0 <= i < self.types@.len() ==> type_wf(#[trigger] self.types@[i], i)
        &&& forall|g: int| 0 <= g < self.globals@.len() ==> #[trigger] self.globals@[g].ty < self.types@.len()
        &&& forall|j: int| 0 <= j < self.functions@.len() ==> self.function_wf(#[trigger] self.functions@[j], j as nat)
        &&& self.function_wf(self.entry, self.functions@.len())
        &&& self.functions@.len() < u32::MAX
    }
}


fn all_before(hs: &Vec<u32>, bound: u32) -> (r: bool)
    ensures
        r == forall|k: int| 0 <= k < hs@.len() ==> before(#[trigger] hs@[k], bound as int),
{
    let mut k: usize = 0;
    while k < hs.len()
        invariant
            k <= hs@.len(),
            forall|j: int| 0 <= j < k ==> before(#[trigger] hs@[j], bound as int),
        decreases hs@.len() - k,
    {
        if hs[k] >= bound {
            return false;
        }
        k += 1;
    }
    true
}

fn expr_ok(e: &Expr, i: u32, arguments: usize, locals: usize, globals: usize, types: usize, rank: u32) -> (r: bool)
    ensures
        r == expr_wf(*e, i as int, arguments as nat, locals as nat, globals as nat, types as nat, rank as nat),
{
    let ghost ops = operands(*e);
    let kind_ok = match e {
        Expr::FunctionArgument(a) => (*a as usize) < arguments,
        Expr::LocalVariable(l) => (*l as usize) < locals,
        Expr::GlobalVariable(g) => (*g as usize) < globals,
        Expr::CallResult(f) => *f < rank,
        Expr::ZeroValue(t) => (*t as usize) < types,
        Expr::Compose { ty, .. } => (*ty as usize) < types,
        _ => true,
    };
    let operands_ok = match e {
        Expr::Load { pointer } => *pointer < i,
        Expr::Access { base, index } => *base < i && *index < i,
        Expr::AccessIndex { base, .. } => *base < i,
        Expr::Compose { components, .. } => all_before(components, i),
        Expr::Unary { expr, .. } => *expr < i,
        Expr::Binary { left, right, .. } => *left < i && *right < i,
        Expr::Select { condition, accept, reject } => *condition < i && *accept < i && *reject < i,
        Expr::As { expr, .. } => *expr < i,
        Expr::Math { arg, arg1, .. } => *arg < i && match arg1 {
            Some(b) => *b < i,
            None => true,
        },
        _ => true,
    };
    proof {
        if operands_ok {
            assert forall|k: int| 0 <= k < ops.len() implies before(#[trigger] ops[k], i as int) by {
                if k == 0 {
                } else if k == 1 {
                } else {
                }
            }
        } else {
            match e {
                Expr::Load { .. } | Expr::AccessIndex { .. } | Expr::Unary { .. } | Expr::As { .. } => {
                    assert(!before(ops[0], i as int));
                },
                Expr::Access { base, index } => {
                    if *base >= i {
                        assert(!before(ops[0], i as int));
                    } else {
                        assert(!before(ops[1], i as int));
                    }
                },
                Expr::Binary { left, right, .. } => {
                    if *left >= i {
                        assert(!before(ops[0], i as int));
                    } else {
                        assert(!before(ops[1], i as int));
                    }
                },
                Expr::Select { condition, accept, reject } => {
                    if *condition >= i {
                        assert(!before(ops[0], i as int));
                    } else if *accept >= i {
                        assert(!before(ops[1], i as int));
                    } else {
                        assert(!before(ops[2], i as int));
                    }
                },
                Expr::Math { arg, arg1, .. } => {
                    if *arg >= i {
                        assert(!before(ops[0], i as int));
                    } else {
                        assert(!before(ops[1], i as int));
                    }
                },
                _ => {},
            }
        }
    }
    kind_ok && operands_ok
}

impl LoweredModule {
    fn stmt_ok(&self, s: &Stmt, len: usize, rank: u32) -> (r: bool)
        requires
            rank <= self.functions@.len(),
        ensures
            r == self.stmt_wf(*s, len as nat, rank as nat),
        decreases *s,
    {
        match s {
            Stmt::Emit { start, end } => *start <= *end && (*end as usize) <= len,
            Stmt::Store { pointer, value } => (*pointer as usize) < len && (*value as usize) < len,
            Stmt::Call { function, arguments, result } => {
                if *function >= rank {
                    return false;
                }
                if arguments.len() != self.functions[*function as usize].arguments.len() {
                    return false;
                }
                let mut k: usize = 0;
                while k < arguments.len()
                    invariant
                        k <= arguments@.len(),
                        *s == (Stmt::Call { function: *function, arguments: *arguments, result: *result }),
                        *function < rank,
                        arguments@.len() == self.arity(*function as nat),
                        rank <= self.functions@.len(),
                        forall|j: int| 0 <= j < k ==> #[trigger] arguments@[j] < len,
                    decreases arguments@.len() - k,
                {
                    if (arguments[k] as usize) >= len {
                        return false;
                    }
                    k += 1;
                }
                match result {
                    Some(r) => (*r as usize) < len,
                    None => true,
                }
            },
            Stmt::If { condition, accept, reject } => {
                (*condition as usize) < len && self.body_ok(accept, len, rank) && self.body_ok(reject, len, rank)
            },
            Stmt::Switch { selector, cases } => (*selector as usize) < len && self.cases_ok(cases, len, rank),
            Stmt::Loop { body, continuing, break_if } => {
                let b = self.body_ok(body, len, rank);
                let c = self.body_ok(continuing, len, rank);
                b && c && match break_if {
                    Some(x) => (*x as usize) < len,
                    None => true,
                }
            },
            Stmt::Return(value) => match value {
                Some(v) => (*v as usize) < len,
                None => true,
            },
            Stmt::Block(body) => self.body_ok(body, len, rank),
            _ => true,
        }
    }

    fn body_ok(&self, body: &Vec<Stmt>, len: usize, rank: u32) -> (r: bool)
        requires
            rank <= self.functions@.len(),
        ensures
            r == self.body_wf(body@, len as nat, rank as nat),
        decreases body@,
    {
        let mut ok = true;
        let mut i: usize = 0;
        while i < body.len()
            invariant
                i <= body@.len(),
                rank <= self.functions@.len(),
                ok == self.body_wf(body@.subrange(0, i as int), len as nat, rank as nat),
            decreases body@.len() - i,
        {
            proof {
                let p = body@.subrange(0, i + 1);
                assert(p.subrange(0, i as int) =~= body@.subrange(0, i as int));
                assert(p[i as int] == body@[i as int]);
            }
            let here = self.stmt_ok(&body[i], len, rank);
            ok = ok && here;
            i += 1;
        }
        proof {
            assert(body@.subrange(0, body@.len() as int) =~= body@);
        }
        ok
    }

    fn cases_ok(&self, cases: &Vec<Case>, len: usize, rank: u32) -> (r: bool)
        requires
            rank <= self.functions@.len(),
        ensures
            r == self.cases_wf(cases@, len as nat, rank as nat),
        decreases cases@,
    {
        let mut ok = true;
        let mut i: usize = 0;
        while i < cases.len()
            invariant
                i <= cases@.len(),
                rank <= self.functions@.len(),
                ok == self.cases_wf(cases@.subrange(0, i as int), len as nat, rank as nat),
            decreases cases@.len() - i,
        {
            proof {
                let p = cases@.subrange(0, i + 1);
                assert(p.subrange(0, i as int) =~= cases@.subrange(0, i as int));
                assert(p[i as int] == cases@[i as int]);
                assert(decreases_to!(cases@ => cases@[i as int]));
                assert(decreases_to!(cases@[i as int] => cases@[i as int].body));
                assert(decreases_to!(cases@[i as int].body => cases@[i as int].body@));
            }
            let here = self.body_ok(&cases[i].body, len, rank);
            ok = ok && here;
            i += 1;
        }
        proof {
            assert(cases@.subrange(0, cases@.len() as int) =~= cases@);
        }
        ok
    }

    fn function_ok(&self, f: &LoweredFunction, rank: u32) -> (r: bool)
        requires
            rank <= self.functions@.len(),
        ensures
            r == self.function_wf(*f, rank as nat),
    {
        if f.expressions.len() >= 0xffff_ffff || f.locals.len() >= 0xffff_ffff {
            return false;
        }
        let mut i: usize = 0;
        while i < f.expressions.len()
            invariant
                i <= f.expressions@.len(),
                f.expressions@.len() < u32::MAX,
                forall|j: int| 0 <= j < i ==> expr_wf(#[trigger] f.expressions@[j], j, f.arguments@.len(), f.locals@.len(),
                    self.globals@.len(), self.types@.len(), rank as nat),
            decreases f.expressions@.len() - i,
        {
            if !expr_ok(&f.expressions[i], i as u32, f.arguments.len(), f.locals.len(), self.globals.len(), self.types.len(), rank) {
                return false;
            }
            i += 1;
        }
        let mut k: usize = 0;
        while k < f.arguments.len()
            invariant
                k <= f.arguments@.len(),
                forall|j: int| 0 <= j < k ==> #[trigger] f.arguments@[j].ty < self.types@.len(),
            decreases f.arguments@.len() - k,
        {
            if (f.arguments[k].ty as usize) >= self.types.len() {
                return false;
            }
            k += 1;
        }
        let mut l: usize = 0;
        while l < f.locals.len()
            invariant
                l <= f.locals@.len(),
                forall|j: int| 0 <= j < l ==> #[trigger] f.locals@[j].ty < self.types@.len(),
            decreases f.locals@.len() - l,
        {
            if (f.locals[l].ty as usize) >= self.types.len() {
                return false;
            }
            l += 1;
        }
        let result_ok = match f.result {
            Some(t) => (t as usize) < self.types.len(),
            None => true,
        };
        result_ok && self.body_ok(&f.body, f.expressions.len(), rank)
    }

    /// Whether every handle the module holds names what it holds.
    pub fn check(&self) -> (r: bool)
        ensures
            r == self.wf(),
    {
        if self.functions.len() >= 0xffff_ffff {
            return false;
        }
        let mut i: usize = 0;
        while i < self.types.len()
            invariant
                i <= self.types@.len(),
                forall|j: int| 0 <= j < i ==> type_wf(#[trigger] self.types@[j], j),
            decreases self.types@.len() - i,
        {
            let ok = match &self.types[i] {
                ShaderType::Array { base, .. } => (*base as usize) < i,
                ShaderType::Struct { members, .. } => {
                    let mut k: usize = 0;
                    let mut fine = true;
                    while k < members.len()
                        invariant
                            k <= members@.len(),
                            fine == forall|j: int| 0 <= j < k ==> before(#[trigger] members@[j].ty, i as int),
                        decreases members@.len() - k,
                    {
                        fine = fine && (members[k].ty as usize) < i;
                        k += 1;
                    }
                    fine
                },
                _ => true,
            };
            if !ok {
                return false;
            }
            i += 1;
        }
        let mut g: usize = 0;
        while g < self.globals.len()
            invariant
                g <= self.globals@.len(),
                forall|j: int| 0 <= j < g ==> #[trigger] self.globals@[j].ty < self.types@.len(),
            decreases self.globals@.len() - g,
        {
            if (self.globals[g].ty as usize) >= self.types.len() {
                return false;
            }
            g += 1;
        }
        let mut j: usize = 0;
        while j < self.functions.len()
            invariant
                j <= self.functions@.len(),
                self.functions@.len() < u32::MAX,
                forall|k: int| 0 <= k < j ==> self.function_wf(#[trigger] self.functions@[k], k as nat),
            decreases self.functions@.len() - j,
        {
            if !self.function_ok(&self.functions[j], j as u32) {
                return false;
            }
            j += 1;
        }
        self.function_ok(&self.entry, self.functions.len() as u32)
    }
}

} // verus!
