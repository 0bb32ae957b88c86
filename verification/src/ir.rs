//! The device functions a kernel is written in: types, expressions,
//! statements and match arms, before they are lowered for a device.
use vstd::prelude::*;

verus! {

/// The type of a value: a named type, or an array of a length.
#[derive(Debug)]
pub enum Type {
    Named(String),
    Array { element: Box<Type>, length: Box<Expression> },
}

/// How an integer literal is typed.
#[derive(Clone, Copy, Debug, PartialEq, Eq, Structural)]
pub enum IntegerType {
    Inferred,
    Signed,
    Unsigned,
}

#[derive(Clone, Copy, Debug, PartialEq, Eq, Structural)]
pub enum UnaryOperator {
    Negate,
    Not,
}

#[derive(Clone, Copy, Debug, PartialEq, Eq, Structural)]
pub enum BinaryOperator {
    Add,
    Subtract,
    Multiply,
    Divide,
    Modulo,
    Equal,
    NotEqual,
    Less,
    LessEqual,
    Greater,
    GreaterEqual,
    BitAnd,
    BitOr,
    BitXor,
    LogicalAnd,
    LogicalOr,
    ShiftLeft,
    ShiftRight,
}

/// What a binary operator of the source computes of two unsigned operands: the
/// arithmetic result (no result, 0, for a division or remainder by zero), the
/// bits of a bitwise operation, the operand shifted by the amount, and for a
/// comparison or a logical operator 1 where it holds and 0 where not.
pub open spec fn source_meaning(op: BinaryOperator, a: u32, b: u32) -> int {
    match op {
        BinaryOperator::Add => a + b,
        BinaryOperator::Subtract => a - b,
        BinaryOperator::Multiply => a * b,
        BinaryOperator::Divide => if b == 0 { 0 } else { a as int / b as int },
        BinaryOperator::Modulo => if b == 0 { 0 } else { a as int % b as int },
        BinaryOperator::Equal => if a == b { 1 } else { 0 },
        BinaryOperator::NotEqual => if a != b { 1 } else { 0 },
        BinaryOperator::Less => if a < b { 1 } else { 0 },
        BinaryOperator::LessEqual => if a <= b { 1 } else { 0 },
        BinaryOperator::Greater => if a > b { 1 } else { 0 },
        BinaryOperator::GreaterEqual => if a >= b { 1 } else { 0 },
        BinaryOperator::BitAnd => (a & b) as int,
        BinaryOperator::BitOr => (a | b) as int,
        BinaryOperator::BitXor => (a ^ b) as int,
        BinaryOperator::LogicalAnd => if a != 0 && b != 0 { 1 } else { 0 },
        BinaryOperator::LogicalOr => if a != 0 || b != 0 { 1 } else { 0 },
        BinaryOperator::ShiftLeft => a * vstd::arithmetic::power2::pow2(b as nat),
        BinaryOperator::ShiftRight => a as int / vstd::arithmetic::power2::pow2(b as nat) as int,
    }
}

/// An expression. A float literal is held as the bit pattern of a 32-bit float.
#[derive(Debug)]
pub enum Expression {
    Integer { value: u32, ty: IntegerType },
    Float(u32),
    Bool(bool),
    Name(String),
    Field { base: Box<Expression>, name: String },
    Index { base: Box<Expression>, index: Box<Expression> },
    Unary { op: UnaryOperator, value: Box<Expression> },
    Binary { op: BinaryOperator, left: Box<Expression>, right: Box<Expression> },
    Call { name: String, arguments: Vec<Expression> },
    Repeat { value: Box<Expression>, length: Box<Expression> },
    Cast { value: Box<Expression>, ty: Type },
    Reference(Box<Expression>),
}

impl Expression {
    pub fn name(name: String) -> (r: Expression)
        ensures
            r == Expression::Name(name),
    {
        Expression::Name(name)
    }

    pub fn u32(value: u32) -> (r: Expression)
        ensures
            r == (Expression::Integer { value, ty: IntegerType::Unsigned }),
    {
        Expression::Integer { value, ty: IntegerType::Unsigned }
    }

    pub fn field(base: Expression, name: String) -> (r: Expression)
        ensures
            r matches Expression::Field { base: b, name: n } && *b == base && n == name,
    {
        Expression::Field { base: Box::new(base), name }
    }

    pub fn call(name: String, arguments: Vec<Expression>) -> (r: Expression)
        ensures
            r matches Expression::Call { name: n, arguments: a } && n == name && a == arguments,
    {
        Expression::Call { name, arguments }
    }
}

/// An argument of a device function.
#[derive(Debug)]
pub struct Argument {
    pub name: String,
    pub ty: Type,
}

/// A device function.
#[derive(Debug)]
pub struct Function {
    pub name: String,
    pub arguments: Vec<Argument>,
    pub result: Option<Type>,
    pub body: Vec<Statement>,
}

/// What a match arm matches: a named constant, an integer, or anything.
#[derive(Clone, Debug, PartialEq, Eq)]
pub enum Pattern {
    Constant(String),
    Integer(u32),
    Default,
}

/// A match arm.
#[derive(Debug)]
pub struct Arm {
    pub pattern: Pattern,
    pub body: Vec<Statement>,
}

/// A statement.
#[derive(Debug)]
pub enum Statement {
    Let { name: String, mutable: bool, value: Expression },
    Assign { place: Expression, value: Expression, operator: Option<BinaryOperator> },
    If { condition: Expression, accept: Vec<Statement>, reject: Vec<Statement> },
    Match { selector: Expression, arms: Vec<Arm> },
    For { name: String, start: Expression, end: Expression, step: Expression, unroll: bool, body: Vec<Statement> },
    While { condition: Expression, body: Vec<Statement> },
    Loop(Vec<Statement>),
    Return(Option<Expression>),
    Break,
    Continue,
    Block(Vec<Statement>),
    Expression(Expression),
}

/// The matches a statement holds, nested ones included.
pub open spec fn statement_matches(s: Statement) -> nat
    decreases s,
{
    match s {
        Statement::Match { arms, .. } => 1 + arms_matches(arms@),
        Statement::If { accept, reject, .. } => body_matches(accept@) + body_matches(reject@),
        Statement::For { body, .. } => body_matches(body@),
        Statement::While { body, .. } => body_matches(body@),
        Statement::Loop(body) => body_matches(body@),
        Statement::Block(body) => body_matches(body@),
        _ => 0,
    }
}

/// The matches a sequence of statements holds.
pub open spec fn body_matches(b: Seq<Statement>) -> nat
    decreases b,
{
    if b.len() == 0 {
        0
    } else {
        body_matches(b.subrange(0, b.len() - 1)) + statement_matches(b[b.len() - 1])
    }
}

/// The matches the bodies of match arms hold.
pub open spec fn arms_matches(a: Seq<Arm>) -> nat
    decreases a,
{
    if a.len() == 0 {
        0
    } else {
        arms_matches(a.subrange(0, a.len() - 1)) + body_matches(a[a.len() - 1].body@)
    }
}

proof fn lemma_body_prefix(b: Seq<Statement>, i: int)
    requires
        0 <= i <= b.len(),
    ensures
        body_matches(b.subrange(0, i)) <= body_matches(b),
    decreases b.len() - i,
{
    if i < b.len() {
        lemma_body_prefix(b, i + 1);
        assert(b.subrange(0, i + 1).subrange(0, i) =~= b.subrange(0, i));
    } else {
        assert(b.subrange(0, i) =~= b);
    }
}

proof fn lemma_arms_prefix(a: Seq<Arm>, i: int)
    requires
        0 <= i <= a.len(),
    ensures
        arms_matches(a.subrange(0, i)) <= arms_matches(a),
    decreases a.len() - i,
{
    if i < a.len() {
        lemma_arms_prefix(a, i + 1);
        assert(a.subrange(0, i + 1).subrange(0, i) =~= a.subrange(0, i));
    } else {
        assert(a.subrange(0, i) =~= a);
    }
}

/// The matches a sequence of statements holds, nested ones included.
pub fn match_count(statements: &[Statement]) -> (r: usize)
    requires
        body_matches(statements@) <= usize::MAX,
    ensures
        r == body_matches(statements@),
    decreases statements@,
{
    let mut total: usize = 0;
    let mut i: usize = 0;
    while i < statements.len()
        invariant
            i <= statements@.len(),
            total == body_matches(statements@.subrange(0, i as int)),
            body_matches(statements@) <= usize::MAX,
        decreases statements@.len() - i,
    {
        proof {
            let next = statements@.subrange(0, i + 1);
            assert(next.subrange(0, i as int) =~= statements@.subrange(0, i as int));
            assert(next[i as int] == statements@[i as int]);
            lemma_body_prefix(statements@, i + 1);
        }
        let here = statement_count(&statements[i]);
        total = total + here;
        i += 1;
    }
    proof {
        assert(statements@.subrange(0, statements@.len() as int) =~= statements@);
    }
    total
}

/// The matches a statement holds, nested ones included.
pub(crate) fn statement_count(statement: &Statement) -> (r: usize)
    requires
        statement_matches(*statement) <= usize::MAX,
    ensures
        r == statement_matches(*statement),
    decreases *statement,
{
    match statement {
        Statement::Match { arms, .. } => 1 + arms_count(arms.as_slice()),
        Statement::If { accept, reject, .. } => {
            let a = match_count(accept.as_slice());
            let b = match_count(reject.as_slice());
            a + b
        },
        Statement::For { body, .. } => match_count(body.as_slice()),
        Statement::While { body, .. } => match_count(body.as_slice()),
        Statement::Loop(body) => match_count(body.as_slice()),
        Statement::Block(body) => match_count(body.as_slice()),
        _ => 0,
    }
}

/// The matches the bodies of match arms hold.
fn arms_count(arms: &[Arm]) -> (r: usize)
    requires
        arms_matches(arms@) < usize::MAX,
    ensures
        r == arms_matches(arms@),
    decreases arms@,
{
    let mut total: usize = 0;
    let mut i: usize = 0;
    while i < arms.len()
        invariant
            i <= arms@.len(),
            total == arms_matches(arms@.subrange(0, i as int)),
            arms_matches(arms@) < usize::MAX,
        decreases arms@.len() - i,
    {
        proof {
            let next = arms@.subrange(0, i + 1);
            assert(next.subrange(0, i as int) =~= arms@.subrange(0, i as int));
            assert(next[i as int] == arms@[i as int]);
            lemma_arms_prefix(arms@, i + 1);
        }
        let here = match_count(arms[i].body.as_slice());
        total = total + here;
        i += 1;
    }
    proof {
        assert(arms@.subrange(0, arms@.len() as int) =~= arms@);
    }
    total
}

/// The arms of the first match of a sequence of statements, nested ones
/// included, searched statement by statement and each statement inside out.
pub open spec fn first_arms(b: Seq<Statement>) -> Option<Seq<Arm>>
    decreases b,
{
    if b.len() == 0 {
        None
    } else {
        match statement_arms(b[0]) {
            Some(arms) => Some(arms),
            None => first_arms(b.subrange(1, b.len() as int)),
        }
    }
}

/// The arms of the first match of a statement, nested ones included.
pub open spec fn statement_arms(s: Statement) -> Option<Seq<Arm>>
    decreases s,
{
    match s {
        Statement::Match { arms, .. } => Some(arms@),
        Statement::If { accept, reject, .. } => match first_arms(accept@) {
            Some(arms) => Some(arms),
            None => first_arms(reject@),
        },
        Statement::For { body, .. } => first_arms(body@),
        Statement::While { body, .. } => first_arms(body@),
        Statement::Loop(body) => first_arms(body@),
        Statement::Block(body) => first_arms(body@),
        _ => None,
    }
}

/// The arms of the first match of a sequence of statements.
pub fn match_cases<'a>(statements: &'a [Statement]) -> (r: Option<&'a Vec<Arm>>)
    ensures
        r matches Some(arms) ==> first_arms(statements@) == Some(arms@),
        r is None ==> first_arms(statements@) is None,
    decreases statements@,
{
    let mut i: usize = 0;
    proof {
        assert(statements@.subrange(0, statements@.len() as int) =~= statements@);
    }
    while i < statements.len()
        invariant
            i <= statements@.len(),
            first_arms(statements@) == first_arms(statements@.subrange(i as int, statements@.len() as int)),
        decreases statements@.len() - i,
    {
        let ghost rest = statements@.subrange(i as int, statements@.len() as int);
        proof {
            assert(rest[0] == statements@[i as int]);
            assert(rest.subrange(1, rest.len() as int) =~= statements@.subrange(i + 1, statements@.len() as int));
        }
        match statement_cases(&statements[i]) {
            Some(arms) => return Some(arms),
            None => {},
        }
        i += 1;
    }
    None
}

/// The arms of the first match of a statement.
fn statement_cases<'a>(statement: &'a Statement) -> (r: Option<&'a Vec<Arm>>)
    ensures
        r matches Some(arms) ==> statement_arms(*statement) == Some(arms@),
        r is None ==> statement_arms(*statement) is None,
    decreases *statement,
{
    match statement {
        Statement::Match { arms, .. } => Some(arms),
        Statement::If { accept, reject, .. } => match match_cases(accept.as_slice()) {
            Some(arms) => Some(arms),
            None => match_cases(reject.as_slice()),
        },
        Statement::For { body, .. } => match_cases(body.as_slice()),
        Statement::While { body, .. } => match_cases(body.as_slice()),
        Statement::Loop(body) => match_cases(body.as_slice()),
        Statement::Block(body) => match_cases(body.as_slice()),
        _ => None,
    }
}

/// The prefix that names a template.
pub open spec fn template_prefix() -> Seq<char> {
    seq!['t', 'e', 'm', 'p', 'l', 'a', 't', 'e', '_']
}

/// A template's name specialized by a suffix: the name after its prefix, an
/// underscore and the suffix; any other name stays.
pub open spec fn specialized_name(name: Seq<char>, suffix: Seq<char>) -> Seq<char> {
    if name.len() >= 9 && name.subrange(0, 9) == template_prefix() {
        name.subrange(9, name.len() as int) + seq!['_'] + suffix
    } else {
        name
    }
}

/// The value of the last constant named `name`.
pub open spec fn constant_of(constants: Seq<(String, u32)>, name: Seq<char>) -> Option<u32>
    decreases constants.len(),
{
    if constants.len() == 0 {
        None
    } else if constants.last().0@ == name {
        Some(constants.last().1)
    } else {
        constant_of(constants.drop_last(), name)
    }
}

/// `after` is `before` with every name of a constant replaced by its value
/// and every call of a template calling its specialization.
pub open spec fn expr_specialized(before: Expression, after: Expression, constants: Seq<(String, u32)>,
    suffix: Seq<char>) -> bool
    decreases before,
{
    match before {
        Expression::Name(name) => match constant_of(constants, name@) {
            Some(value) => after == (Expression::Integer { value, ty: IntegerType::Unsigned }),
            None => after == before,
        },
        Expression::Field { base, name } => after matches Expression::Field { base: b, name: n } && n == name
            && expr_specialized(*base, *b, constants, suffix),
        Expression::Index { base, index } => after matches Expression::Index { base: b, index: i }
            && expr_specialized(*base, *b, constants, suffix) && expr_specialized(*index, *i, constants, suffix),
        Expression::Unary { op, value } => after matches Expression::Unary { op: o, value: v } && o == op
            && expr_specialized(*value, *v, constants, suffix),
        Expression::Binary { op, left, right } => after matches Expression::Binary { op: o, left: l, right: r }
            && o == op && expr_specialized(*left, *l, constants, suffix) && expr_specialized(*right, *r, constants, suffix),
        Expression::Call { name, arguments } => after matches Expression::Call { name: n, arguments: a }
            && n@ == specialized_name(name@, suffix) && a@.len() == arguments@.len()
            && forall|k: int| 0 <= k < arguments@.len() ==> expr_specialized(#[trigger] arguments@[k], a@[k], constants, suffix),
        Expression::Repeat { value, length } => after matches Expression::Repeat { value: v, length: l }
            && expr_specialized(*value, *v, constants, suffix) && expr_specialized(*length, *l, constants, suffix),
        Expression::Cast { value, ty } => after matches Expression::Cast { value: v, ty: t } && t == ty
            && expr_specialized(*value, *v, constants, suffix),
        Expression::Reference(value) => after matches Expression::Reference(v)
            && expr_specialized(*value, *v, constants, suffix),
        _ => after == before,
    }
}

/// The value of the last constant named `name`.
fn lookup(constants: &[(String, u32)], name: &String) -> (r: Option<u32>)
    ensures
        r == constant_of(constants@, name@),
{
    let mut i: usize = constants.len();
    proof {
        assert(constants@.subrange(0, constants@.len() as int) =~= constants@);
    }
    while i > 0
        invariant
            i <= constants@.len(),
            constant_of(constants@, name@) == constant_of(constants@.subrange(0, i as int), name@),
        decreases i,
    {
        let ghost prefix = constants@.subrange(0, i as int);
        proof {
            assert(prefix.drop_last() =~= constants@.subrange(0, i - 1));
            assert(prefix.last() == constants@[i - 1]);
        }
        if constants[i - 1].0 == *name {
            return Some(constants[i - 1].1);
        }
        i -= 1;
    }
    None
}

/// A name with its template prefix replaced by the specialization's suffix.
fn specialize_name(name: String, suffix: &str) -> (r: String)
    ensures
        r@ == specialized_name(name@, suffix@),
{
    let length = name.as_str().unicode_len();
    if length < 9 {
        return name;
    }
    let prefix = ['t', 'e', 'm', 'p', 'l', 'a', 't', 'e', '_'];
    let mut k: usize = 0;
    while k < 9
        invariant
            k <= 9,
            length == name@.len(),
            length >= 9,
            prefix@ == template_prefix(),
            forall|j: int| 0 <= j < k ==> name@[j] == template_prefix()[j],
        decreases 9 - k,
    {
        if name.as_str().get_char(k) != prefix[k] {
            proof {
                assert(name@.subrange(0, 9)[k as int] != template_prefix()[k as int]);
            }
            return name;
        }
        k += 1;
    }
    proof {
        assert(name@.subrange(0, 9) =~= template_prefix());
    }
    let mut out = name.as_str().substring_char(9, length).to_owned();
    out.append("_");
    out.append(suffix);
    proof {
        reveal_strlit("_");
        assert(out@ =~= name@.subrange(9, name@.len() as int) + seq!['_'] + suffix@);
    }
    out
}

impl Expression {
    /// The expression with every name of a constant replaced by its value and
    /// every call of a template calling its specialization.
    pub fn specialized(self, constants: &[(String, u32)], suffix: &str) -> (r: Expression)
        ensures
            expr_specialized(self, r, constants@, suffix@),
        decreases self,
    {
        match self {
            Expression::Name(name) => match lookup(constants, &name) {
                Some(value) => Expression::Integer { value, ty: IntegerType::Unsigned },
                None => Expression::Name(name),
            },
            Expression::Field { base, name } => Expression::Field { base: Box::new((*base).specialized(constants, suffix)), name },
            Expression::Index { base, index } => Expression::Index {
                base: Box::new((*base).specialized(constants, suffix)),
                index: Box::new((*index).specialized(constants, suffix)),
            },
            Expression::Unary { op, value } => Expression::Unary { op, value: Box::new((*value).specialized(constants, suffix)) },
            Expression::Binary { op, left, right } => Expression::Binary {
                op,
                left: Box::new((*left).specialized(constants, suffix)),
                right: Box::new((*right).specialized(constants, suffix)),
            },
            Expression::Call { name, arguments } => {
                let ghost original = arguments@;
                let name = specialize_name(name, suffix);
                let mut rest = arguments;
                let mut done: Vec<Expression> = Vec::new();
                while rest.len() > 0
                    invariant
                        done@.len() + rest@.len() == original.len(),
                        rest@ == original.subrange(done@.len() as int, original.len() as int),
                        forall|k: int| 0 <= k < done@.len() ==> expr_specialized(#[trigger] original[k], done@[k], constants@, suffix@),
                        forall|k: int| 0 <= k < original.len() ==> decreases_to!(self => #[trigger] original[k]),
                    decreases rest@.len(),
                {
                    let ghost at = done@.len() as int;
                    let argument = rest.remove(0);
                    assert(argument == original[at]);
                    let argument = argument.specialized(constants, suffix);
                    done.push(argument);
                    proof {
                        assert(rest@ =~= original.subrange(done@.len() as int, original.len() as int));
                    }
                }
                Expression::Call { name, arguments: done }
            },
            Expression::Repeat { value, length } => Expression::Repeat {
                value: Box::new((*value).specialized(constants, suffix)),
                length: Box::new((*length).specialized(constants, suffix)),
            },
            Expression::Cast { value, ty } => Expression::Cast { value: Box::new((*value).specialized(constants, suffix)), ty },
            Expression::Reference(value) => Expression::Reference(Box::new((*value).specialized(constants, suffix))),
            other => other,
        }
    }

    /// Replaces every name of a constant by its value and every call of a
    /// template by a call of its specialization.
    pub fn specialize(&mut self, constants: &[(String, u32)], suffix: &str)
        ensures
            expr_specialized(*old(self), *final(self), constants@, suffix@),
    {
        let mut taken = Expression::Bool(false);
        std::mem::swap(self, &mut taken);
        *self = taken.specialized(constants, suffix);
    }
}

/// `after` is `before` with every expression specialized, nested statements
/// and match arms included.
pub open spec fn stmt_specialized(before: Statement, after: Statement, constants: Seq<(String, u32)>,
    suffix: Seq<char>) -> bool
    decreases before,
{
    match before {
        Statement::Let { name, mutable, value } => after matches Statement::Let { name: n, mutable: m, value: v }
            && n == name && m == mutable && expr_specialized(value, v, constants, suffix),
        Statement::Assign { place, value, operator } => after matches Statement::Assign { place: p, value: v, operator: o }
            && o == operator && expr_specialized(place, p, constants, suffix) && expr_specialized(value, v, constants, suffix),
        Statement::If { condition, accept, reject } => after matches Statement::If { condition: c, accept: a, reject: r }
            && expr_specialized(condition, c, constants, suffix)
            && a@.len() == accept@.len() && forall|k: int| 0 <= k < accept@.len() ==> stmt_specialized(#[trigger] accept@[k], a@[k], constants, suffix)
            && r@.len() == reject@.len() && forall|k: int| 0 <= k < reject@.len() ==> stmt_specialized(#[trigger] reject@[k], r@[k], constants, suffix),
        Statement::Match { selector, arms } => after matches Statement::Match { selector: c, arms: a }
            && expr_specialized(selector, c, constants, suffix)
            && a@.len() == arms@.len() && forall|k: int| 0 <= k < arms@.len() ==> {
                &&& (#[trigger] a@[k]).pattern == arms@[k].pattern
                &&& a@[k].body@.len() == arms@[k].body@.len()
                &&& forall|j: int| 0 <= j < arms@[k].body@.len() ==> stmt_specialized(#[trigger] arms@[k].body@[j], a@[k].body@[j], constants, suffix)
            },
        Statement::For { name, start, end, step, unroll, body } => after matches Statement::For {
            name: n, start: s0, end: e, step: st, unroll: u, body: b }
            && n == name && u == unroll && expr_specialized(start, s0, constants, suffix)
            && expr_specialized(end, e, constants, suffix) && expr_specialized(step, st, constants, suffix)
            && b@.len() == body@.len() && forall|k: int| 0 <= k < body@.len() ==> stmt_specialized(#[trigger] body@[k], b@[k], constants, suffix),
        Statement::While { condition, body } => after matches Statement::While { condition: c, body: b }
            && expr_specialized(condition, c, constants, suffix)
            && b@.len() == body@.len() && forall|k: int| 0 <= k < body@.len() ==> stmt_specialized(#[trigger] body@[k], b@[k], constants, suffix),
        Statement::Loop(body) => after matches Statement::Loop(b)
            && b@.len() == body@.len() && forall|k: int| 0 <= k < body@.len() ==> stmt_specialized(#[trigger] body@[k], b@[k], constants, suffix),
        Statement::Block(body) => after matches Statement::Block(b)
            && b@.len() == body@.len() && forall|k: int| 0 <= k < body@.len() ==> stmt_specialized(#[trigger] body@[k], b@[k], constants, suffix),
        Statement::Return(value) => match value {
            Some(v) => after matches Statement::Return(Some(w)) && expr_specialized(v, w, constants, suffix),
            None => after == before,
        },
        Statement::Expression(value) => after matches Statement::Expression(v) && expr_specialized(value, v, constants, suffix),
        _ => after == before,
    }
}

/// Each statement of a body specialized, in order.
pub(crate) fn specialize_body(body: Vec<Statement>, constants: &[(String, u32)], suffix: &str) -> (r: Vec<Statement>)
    ensures
        r@.len() == body@.len(),
        forall|k: int| 0 <= k < body@.len() ==> stmt_specialized(#[trigger] body@[k], r@[k], constants@, suffix@),
    decreases body@,
{
    let ghost original = body@;
    let mut rest = body;
    let mut done: Vec<Statement> = Vec::new();
    while rest.len() > 0
        invariant
            done@.len() + rest@.len() == original.len(),
            rest@ == original.subrange(done@.len() as int, original.len() as int),
            forall|k: int| 0 <= k < done@.len() ==> stmt_specialized(#[trigger] original[k], done@[k], constants@, suffix@),
            forall|k: int| 0 <= k < original.len() ==> decreases_to!(body@ => #[trigger] original[k]),
        decreases rest@.len(),
    {
        let ghost at = done@.len() as int;
        let statement = rest.remove(0);
        assert(statement == original[at]);
        let statement = statement.specialized(constants, suffix);
        done.push(statement);
        proof {
            assert(rest@ =~= original.subrange(done@.len() as int, original.len() as int));
        }
    }
    done
}

/// Each arm of a match with its body specialized, in order.
fn specialize_arms(arms: Vec<Arm>, constants: &[(String, u32)], suffix: &str) -> (r: Vec<Arm>)
    ensures
        r@.len() == arms@.len(),
        forall|k: int| 0 <= k < arms@.len() ==> {
            &&& (#[trigger] r@[k]).pattern == arms@[k].pattern
            &&& r@[k].body@.len() == arms@[k].body@.len()
            &&& forall|j: int| 0 <= j < arms@[k].body@.len() ==> stmt_specialized(#[trigger] arms@[k].body@[j], r@[k].body@[j], constants@, suffix@)
        },
    decreases arms@,
{
    let ghost original = arms@;
    let mut rest = arms;
    let mut done: Vec<Arm> = Vec::new();
    while rest.len() > 0
        invariant
            done@.len() + rest@.len() == original.len(),
            rest@ == original.subrange(done@.len() as int, original.len() as int),
            forall|k: int| 0 <= k < done@.len() ==> {
                &&& (#[trigger] done@[k]).pattern == original[k].pattern
                &&& done@[k].body@.len() == original[k].body@.len()
                &&& forall|j: int| 0 <= j < original[k].body@.len() ==> stmt_specialized(#[trigger] original[k].body@[j], done@[k].body@[j], constants@, suffix@)
            },
            forall|k: int| 0 <= k < original.len() ==> decreases_to!(arms@ => #[trigger] original[k]),
        decreases rest@.len(),
    {
        let ghost at = done@.len() as int;
        let arm = rest.remove(0);
        assert(arm == original[at]);
        assert(decreases_to!(arms@ => arm.body@));
        let Arm { pattern, body } = arm;
        let body = specialize_body(body, constants, suffix);
        done.push(Arm { pattern, body });
        proof {
            assert(rest@ =~= original.subrange(done@.len() as int, original.len() as int));
        }
    }
    done
}

impl Statement {
    /// The statement with every expression specialized, nested statements and
    /// match arms included.
    pub fn specialized(self, constants: &[(String, u32)], suffix: &str) -> (r: Statement)
        ensures
            stmt_specialized(self, r, constants@, suffix@),
        decreases self,
    {
        match self {
            Statement::Let { name, mutable, value } => Statement::Let { name, mutable, value: value.specialized(constants, suffix) },
            Statement::Assign { place, value, operator } => Statement::Assign {
                place: place.specialized(constants, suffix),
                value: value.specialized(constants, suffix),
                operator,
            },
            Statement::If { condition, accept, reject } => Statement::If {
                condition: condition.specialized(constants, suffix),
                accept: specialize_body(accept, constants, suffix),
                reject: specialize_body(reject, constants, suffix),
            },
            Statement::Match { selector, arms } => Statement::Match {
                selector: selector.specialized(constants, suffix),
                arms: specialize_arms(arms, constants, suffix),
            },
            Statement::For { name, start, end, step, unroll, body } => Statement::For {
                name,
                start: start.specialized(constants, suffix),
                end: end.specialized(constants, suffix),
                step: step.specialized(constants, suffix),
                unroll,
                body: specialize_body(body, constants, suffix),
            },
            Statement::While { condition, body } => Statement::While {
                condition: condition.specialized(constants, suffix),
                body: specialize_body(body, constants, suffix),
            },
            Statement::Loop(body) => Statement::Loop(specialize_body(body, constants, suffix)),
            Statement::Block(body) => Statement::Block(specialize_body(body, constants, suffix)),
            Statement::Return(value) => match value {
                Some(value) => Statement::Return(Some(value.specialized(constants, suffix))),
                None => Statement::Return(None),
            },
            Statement::Expression(value) => Statement::Expression(value.specialized(constants, suffix)),
            other => other,
        }
    }

    /// Specializes every expression of the statement, nested statements and
    /// match arms included.
    pub fn specialize(&mut self, constants: &[(String, u32)], suffix: &str)
        ensures
            stmt_specialized(*old(self), *final(self), constants@, suffix@),
    {
        let mut taken = Statement::Break;
        std::mem::swap(self, &mut taken);
        *self = taken.specialized(constants, suffix);
    }
}

/// Two types alike in every part.
pub open spec fn type_same(a: Type, b: Type) -> bool
    decreases a,
{
    match a {
        Type::Array { element, length } => b matches Type::Array { element: e, length: l }
            && type_same(*element, *e) && expr_same(*length, *l),
        _ => b == a,
    }
}

/// Two expressions alike in every part.
pub open spec fn expr_same(a: Expression, b: Expression) -> bool
    decreases a,
{
    match a {
        Expression::Field { base, name } => b matches Expression::Field { base: x, name: n } && n == name
            && expr_same(*base, *x),
        Expression::Index { base, index } => b matches Expression::Index { base: x, index: i }
            && expr_same(*base, *x) && expr_same(*index, *i),
        Expression::Unary { op, value } => b matches Expression::Unary { op: o, value: v } && o == op && expr_same(*value, *v),
        Expression::Binary { op, left, right } => b matches Expression::Binary { op: o, left: l, right: r } && o == op
            && expr_same(*left, *l) && expr_same(*right, *r),
        Expression::Call { name, arguments } => b matches Expression::Call { name: n, arguments: x } && n == name
            && x@.len() == arguments@.len()
            && forall|k: int| 0 <= k < arguments@.len() ==> expr_same(#[trigger] arguments@[k], x@[k]),
        Expression::Repeat { value, length } => b matches Expression::Repeat { value: v, length: l }
            && expr_same(*value, *v) && expr_same(*length, *l),
        Expression::Cast { value, ty } => b matches Expression::Cast { value: v, ty: t } && expr_same(*value, *v)
            && type_same(ty, t),
        Expression::Reference(value) => b matches Expression::Reference(v) && expr_same(*value, *v),
        _ => b == a,
    }
}

/// Two bodies alike statement by statement.
pub open spec fn body_same(a: Seq<Statement>, b: Seq<Statement>) -> bool
    decreases a,
{
    &&& b.len() == a.len()
    &&& forall|k: int| 0 <= k < a.len() ==> stmt_same(#[trigger] a[k], b[k])
}

/// Two statements alike in every part.
pub open spec fn stmt_same(a: Statement, b: Statement) -> bool
    decreases a,
{
    match a {
        Statement::Let { name, mutable, value } => b matches Statement::Let { name: n, mutable: m, value: v }
            && n == name && m == mutable && expr_same(value, v),
        Statement::Assign { place, value, operator } => b matches Statement::Assign { place: p, value: v, operator: o }
            && o == operator && expr_same(place, p) && expr_same(value, v),
        Statement::If { condition, accept, reject } => b matches Statement::If { condition: c, accept: x, reject: y }
            && expr_same(condition, c)
            && x@.len() == accept@.len() && (forall|k: int| 0 <= k < accept@.len() ==> stmt_same(#[trigger] accept@[k], x@[k]))
            && y@.len() == reject@.len() && (forall|k: int| 0 <= k < reject@.len() ==> stmt_same(#[trigger] reject@[k], y@[k])),
        Statement::Match { selector, arms } => b matches Statement::Match { selector: c, arms: x }
            && expr_same(selector, c) && x@.len() == arms@.len() && forall|k: int| 0 <= k < arms@.len() ==> {
                &&& (#[trigger] x@[k]).pattern == arms@[k].pattern
                &&& x@[k].body@.len() == arms@[k].body@.len()
                &&& forall|j: int| 0 <= j < arms@[k].body@.len() ==> stmt_same(#[trigger] arms@[k].body@[j], x@[k].body@[j])
            },
        Statement::For { name, start, end, step, unroll, body } => b matches Statement::For {
            name: n, start: s0, end: e, step: st, unroll: u, body: x }
            && n == name && u == unroll && expr_same(start, s0) && expr_same(end, e) && expr_same(step, st)
            && x@.len() == body@.len() && forall|k: int| 0 <= k < body@.len() ==> stmt_same(#[trigger] body@[k], x@[k]),
        Statement::While { condition, body } => b matches Statement::While { condition: c, body: x }
            && expr_same(condition, c)
            && x@.len() == body@.len() && forall|k: int| 0 <= k < body@.len() ==> stmt_same(#[trigger] body@[k], x@[k]),
        Statement::Loop(body) => b matches Statement::Loop(x)
            && x@.len() == body@.len() && forall|k: int| 0 <= k < body@.len() ==> stmt_same(#[trigger] body@[k], x@[k]),
        Statement::Block(body) => b matches Statement::Block(x)
            && x@.len() == body@.len() && forall|k: int| 0 <= k < body@.len() ==> stmt_same(#[trigger] body@[k], x@[k]),
        Statement::Return(value) => match value {
            Some(v) => b matches Statement::Return(Some(w)) && expr_same(v, w),
            None => b == a,
        },
        Statement::Expression(value) => b matches Statement::Expression(v) && expr_same(value, v),
        _ => b == a,
    }
}

/// Two functions alike in every part.
pub open spec fn function_same(a: Function, b: Function) -> bool {
    &&& b.name == a.name
    &&& b.arguments@.len() == a.arguments@.len()
    &&& forall|k: int| 0 <= k < a.arguments@.len() ==> (#[trigger] b.arguments@[k]).name == a.arguments@[k].name
        && type_same(a.arguments@[k].ty, b.arguments@[k].ty)
    &&& match a.result {
        Some(t) => b.result matches Some(u) && type_same(t, u),
        None => b.result is None,
    }
    &&& body_same(a.body@, b.body@)
}

impl Type {
    /// A copy of the type.
    pub fn copy(&self) -> (r: Type)
        ensures
            type_same(*self, r),
        decreases *self,
    {
        match self {
            Type::Named(name) => Type::Named(name.clone()),
            Type::Array { element, length } => Type::Array {
                element: Box::new((**element).copy()),
                length: Box::new((**length).copy()),
            },
        }
    }
}

impl Expression {
    /// A copy of the expression.
    pub fn copy(&self) -> (r: Expression)
        ensures
            expr_same(*self, r),
        decreases *self,
    {
        match self {
            Expression::Integer { value, ty } => Expression::Integer { value: *value, ty: *ty },
            Expression::Float(bits) => Expression::Float(*bits),
            Expression::Bool(value) => Expression::Bool(*value),
            Expression::Name(name) => Expression::Name(name.clone()),
            Expression::Field { base, name } => Expression::Field { base: Box::new((**base).copy()), name: name.clone() },
            Expression::Index { base, index } => Expression::Index {
                base: Box::new((**base).copy()),
                index: Box::new((**index).copy()),
            },
            Expression::Unary { op, value } => Expression::Unary { op: *op, value: Box::new((**value).copy()) },
            Expression::Binary { op, left, right } => Expression::Binary {
                op: *op,
                left: Box::new((**left).copy()),
                right: Box::new((**right).copy()),
            },
            Expression::Call { name, arguments } => {
                let mut copied: Vec<Expression> = Vec::new();
                let mut k: usize = 0;
                proof {
                    assert forall|j: int| 0 <= j < arguments@.len() implies decreases_to!(*self => #[trigger] arguments@[j]) by {
                        assert(decreases_to!(*self => *arguments));
                        assert(decreases_to!(*arguments => arguments@));
                        assert(decreases_to!(arguments@ => arguments@[j]));
                    }
                }
                while k < arguments.len()
                    invariant
                        k <= arguments@.len(),
                        copied@.len() == k,
                        forall|j: int| 0 <= j < k ==> expr_same(#[trigger] arguments@[j], copied@[j]),
                        forall|j: int| 0 <= j < arguments@.len() ==> decreases_to!(*self => #[trigger] arguments@[j]),
                    decreases arguments@.len() - k,
                {
                    copied.push(arguments[k].copy());
                    k += 1;
                }
                Expression::Call { name: name.clone(), arguments: copied }
            },
            Expression::Repeat { value, length } => Expression::Repeat {
                value: Box::new((**value).copy()),
                length: Box::new((**length).copy()),
            },
            Expression::Cast { value, ty } => Expression::Cast { value: Box::new((**value).copy()), ty: ty.copy() },
            Expression::Reference(value) => Expression::Reference(Box::new((**value).copy())),
        }
    }
}

/// A copy of a body, statement by statement.
fn copy_body(body: &Vec<Statement>) -> (r: Vec<Statement>)
    ensures
        body_same(body@, r@),
    decreases body@,
{
    let mut copied: Vec<Statement> = Vec::new();
    let mut k: usize = 0;
    while k < body.len()
        invariant
            k <= body@.len(),
            copied@.len() == k,
            forall|j: int| 0 <= j < k ==> stmt_same(#[trigger] body@[j], copied@[j]),
        decreases body@.len() - k,
    {
        copied.push(body[k].copy());
        k += 1;
    }
    copied
}

/// A copy of the arms of a match.
fn copy_arms(arms: &Vec<Arm>) -> (r: Vec<Arm>)
    ensures
        r@.len() == arms@.len(),
        forall|k: int| 0 <= k < arms@.len() ==> {
            &&& (#[trigger] r@[k]).pattern == arms@[k].pattern
            &&& r@[k].body@.len() == arms@[k].body@.len()
            &&& forall|j: int| 0 <= j < arms@[k].body@.len() ==> stmt_same(#[trigger] arms@[k].body@[j], r@[k].body@[j])
        },
    decreases arms@,
{
    let mut copied: Vec<Arm> = Vec::new();
    let mut k: usize = 0;
    while k < arms.len()
        invariant
            k <= arms@.len(),
            copied@.len() == k,
            forall|i: int| 0 <= i < k ==> {
                &&& (#[trigger] copied@[i]).pattern == arms@[i].pattern
                &&& copied@[i].body@.len() == arms@[i].body@.len()
                &&& forall|j: int| 0 <= j < arms@[i].body@.len() ==> stmt_same(#[trigger] arms@[i].body@[j], copied@[i].body@[j])
            },
        decreases arms@.len() - k,
    {
        let arm = &arms[k];
        proof {
            assert(decreases_to!(arms@ => arms@[k as int]));
            assert(decreases_to!(arms@[k as int] => arms@[k as int].body));
            assert(decreases_to!(arms@[k as int].body => arms@[k as int].body@));
        }
        let pattern = match &arm.pattern {
            Pattern::Constant(name) => Pattern::Constant(name.clone()),
            Pattern::Integer(value) => Pattern::Integer(*value),
            Pattern::Default => Pattern::Default,
        };
        copied.push(Arm { pattern, body: copy_body(&arm.body) });
        k += 1;
    }
    copied
}

impl Statement {
    /// A copy of the statement.
    pub fn copy(&self) -> (r: Statement)
        ensures
            stmt_same(*self, r),
        decreases *self,
    {
        match self {
            Statement::Let { name, mutable, value } => Statement::Let { name: name.clone(), mutable: *mutable, value: value.copy() },
            Statement::Assign { place, value, operator } => Statement::Assign { place: place.copy(), value: value.copy(), operator: *operator },
            Statement::If { condition, accept, reject } => {
                proof {
                    assert(decreases_to!(*self => *accept));
                    assert(decreases_to!(*self => *reject));
                }
                Statement::If { condition: condition.copy(), accept: copy_body(accept), reject: copy_body(reject) }
            },
            Statement::Match { selector, arms } => {
                proof {
                    assert(decreases_to!(*self => *arms));
                }
                Statement::Match { selector: selector.copy(), arms: copy_arms(arms) }
            },
            Statement::For { name, start, end, step, unroll, body } => {
                proof {
                    assert(decreases_to!(*self => *body));
                }
                Statement::For {
                    name: name.clone(),
                    start: start.copy(),
                    end: end.copy(),
                    step: step.copy(),
                    unroll: *unroll,
                    body: copy_body(body),
                }
            },
            Statement::While { condition, body } => {
                proof {
                    assert(decreases_to!(*self => *body));
                }
                Statement::While { condition: condition.copy(), body: copy_body(body) }
            },
            Statement::Loop(body) => {
                proof {
                    assert(decreases_to!(*self => *body));
                }
                Statement::Loop(copy_body(body))
            },
            Statement::Block(body) => {
                proof {
                    assert(decreases_to!(*self => *body));
                }
                Statement::Block(copy_body(body))
            },
            Statement::Return(value) => match value {
                Some(value) => Statement::Return(Some(value.copy())),
                None => Statement::Return(None),
            },
            Statement::Break => Statement::Break,
            Statement::Continue => Statement::Continue,
            Statement::Expression(value) => Statement::Expression(value.copy()),
        }
    }
}

impl Function {
    /// A copy of the function.
    pub fn copy(&self) -> (r: Function)
        ensures
            function_same(*self, r),
    {
        let mut arguments: Vec<Argument> = Vec::new();
        let mut k: usize = 0;
        while k < self.arguments.len()
            invariant
                k <= self.arguments@.len(),
                arguments@.len() == k,
                forall|j: int| 0 <= j < k ==> (#[trigger] arguments@[j]).name == self.arguments@[j].name
                    && type_same(self.arguments@[j].ty, arguments@[j].ty),
            decreases self.arguments@.len() - k,
        {
            let argument = &self.arguments[k];
            arguments.push(Argument { name: argument.name.clone(), ty: argument.ty.copy() });
            k += 1;
        }
        let result = match &self.result {
            Some(ty) => Some(ty.copy()),
            None => None,
        };
        Function { name: self.name.clone(), arguments, result, body: copy_body(&self.body) }
    }
}

} // verus!
