//! The compiler from device functions to a lowered module: the types,
//! storage buffers, workgroup memory and constants a kernel declares, its
//! functions, and the lowering of its entry and of every function it calls.
use vstd::prelude::*;
use crate::program::{BindingKind, BindingSpec};
use crate::dispatch::{
    body_with_arm, declared_at, declares, dispatches, keeps, only_match_at, same_pattern, specializes, DeviceFunctions,
};
use crate::ir::{body_matches, constant_of, first_arms, Arm, BinaryOperator, Expression, Function, IntegerType, Pattern, Statement, Type, UnaryOperator};
use crate::lowered::{
    arities_of, body_fits, cases_fits, expr_wf, extends, function_fits, lemma_body_grows, lemma_body_push, lemma_cases_grows, lemma_cases_push,
    lemma_function_grows, stmt_fits, Argument as LoweredArgument, BinaryOp, Builtin, Case, CaseValue, Expr, GlobalVar, Literal, Local, LoweredFunction,
    LoweredModule, MathFun, Member, ScalarKind, ShaderType, Space, Stmt, UnaryOp,
};
use crate::record::{FieldType, RecordLayout};
use crate::uniform::{body_flow, merged, stmt_flow, uniformity, Divergence, FlowView};
use crate::writes::{body_writes_ok, stmt_writes_ok, writes_ok};

verus! {

/// Why a kernel does not compile.
#[derive(Clone, Copy, PartialEq, Eq, Debug, Structural)]
pub enum CompileError {
    /// A type name is not declared.
    UnknownType,
    /// A type name is declared twice.
    DuplicateType,
    /// An array of no element.
    EmptyArray,
    /// A type whose byte size is not known, held where one is needed.
    Unsized,
    /// Storage slots are not declared in order from zero.
    SparseBinding,
    /// A global name is declared twice.
    DuplicateGlobal,
    /// A function or name is not declared.
    UnknownFunction,
    /// The entry argument names no device builtin.
    NotBuiltin,
    /// A name is declared twice in one block.
    DuplicateName,
    /// A name is not declared.
    UnknownName,
    /// A constant is not declared.
    UnknownConstant,
    /// An expression is not known at compilation.
    NotConstant,
    /// Constant arithmetic leaves the range of `u32`.
    Overflow,
    /// Constant arithmetic divides by zero.
    DivideByZero,
    /// A numeric operation on what is not a scalar.
    NotScalar,
    /// A field or lane that the type does not have.
    NoField,
    /// An index into what is neither an array nor a vector.
    NotIndexable,
    /// A vector lane index that is not a compile-time index inside its lanes.
    LaneIndex,
    /// A register index that is not a compile-time index inside its array.
    RegisterIndex,
    /// A register array used as a whole, or declared otherwise than as a
    /// mutable, non-empty array of a value and a length.
    RegisterArray,
    /// An operand of another type than its place requires.
    TypeMismatch,
    /// A signed literal beyond `i32`.
    SignedOverflow,
    /// An array filled from something else than zero.
    NotZero,
    /// A reference used elsewhere than as the target of an atomic store.
    Reference,
    /// A call with another number of arguments than the function takes.
    Arity,
    /// A function without result, or a barrier or store, used as a value.
    VoidValue,
    /// A function reaches itself.
    Recursive,
    /// An assignment to what is not a writable place.
    NotPlace,
    /// A compound assignment with an operator that cannot update a place.
    UpdateOperator,
    /// A match on what is not an integer.
    Selector,
    /// A match without a fallback arm.
    NoDefault,
    /// A compile-time loop that does not advance.
    NotAdvancing,
    /// A loop index that is not unsigned.
    SignedIndex,
    /// The lowered module names what it does not hold.
    Malformed,
    /// A store into storage bound for reading, or into a uniform or
    /// immediate block.
    ReadOnly,
    /// Invocations of a workgroup would part at a barrier.
    Divergent(Divergence),
}

/// The value of a constant expression, or why it has none: an unsigned
/// literal, a declared constant, or the sum, difference, product or quotient
/// of constant expressions, each within the range of `u32`.
pub open spec fn constant_value(e: Expression, constants: Seq<(String, u32)>) -> Result<u32, CompileError>
    decreases e,
{
    match e {
        Expression::Integer { value, ty } => if ty != IntegerType::Signed {
            Ok(value)
        } else {
            Err(CompileError::NotConstant)
        },
        Expression::Name(name) => match constant_of(constants, name@) {
            Some(v) => Ok(v),
            None => Err(CompileError::UnknownConstant),
        },
        Expression::Binary { op, left, right } => match constant_value(*left, constants) {
            Err(e) => Err(e),
            Ok(l) => match constant_value(*right, constants) {
                Err(e) => Err(e),
                Ok(r) => match op {
                    BinaryOperator::Add => if l + r <= u32::MAX {
                        Ok((l + r) as u32)
                    } else {
                        Err(CompileError::Overflow)
                    },
                    BinaryOperator::Subtract => if l >= r {
                        Ok((l - r) as u32)
                    } else {
                        Err(CompileError::Overflow)
                    },
                    BinaryOperator::Multiply => if l * r <= u32::MAX {
                        Ok((l * r) as u32)
                    } else {
                        Err(CompileError::Overflow)
                    },
                    BinaryOperator::Divide => if r != 0 {
                        Ok(l / r)
                    } else {
                        Err(CompileError::DivideByZero)
                    },
                    _ => Err(CompileError::NotConstant),
                },
            },
        },
        _ => Err(CompileError::NotConstant),
    }
}

/// The byte width of a scalar.
pub open spec fn width(kind: ScalarKind) -> u32 {
    match kind {
        ScalarKind::Bool => 1,
        _ => 4,
    }
}

/// The device type a record field of type `t` is read as.
pub open spec fn field_type_name(t: FieldType) -> Seq<char> {
    match t {
        FieldType::U32 => "u32"@,
        FieldType::I32 => "i32"@,
        FieldType::F32 => "f32"@,
        FieldType::U32x4 => "uvec4"@,
    }
}

/// `after` is `before` with one more global: `name`, in `space`, bound at
/// `binding`, of type `ty`.
pub open spec fn added(before: Seq<GlobalVar>, after: Seq<GlobalVar>, name: Seq<char>, space: Space, binding: Option<u32>, ty: u32) -> bool {
    &&& after.len() == before.len() + 1
    &&& after.drop_last() == before
    &&& after.last().name@ == name
    &&& after.last().space == space
    &&& after.last().binding == binding
    &&& after.last().ty == ty
}

/// What declaring the storage buffer `name` of type `ty` bound as `spec`
/// does: refused where its slot is not the next one, or where a global has
/// its name; else a global and a binding are added.
pub open spec fn stored(
    globals: Seq<GlobalVar>,
    bindings: Seq<BindingSpec>,
    globals_after: Seq<GlobalVar>,
    bindings_after: Seq<BindingSpec>,
    r: Result<(), CompileError>,
    name: Seq<char>,
    ty: u32,
    spec: BindingSpec,
) -> bool {
    if spec.binding != bindings.len() {
        r == Err::<(), CompileError>(CompileError::SparseBinding) && globals_after == globals && bindings_after == bindings
    } else if declares_global(globals, name) {
        r == Err::<(), CompileError>(CompileError::DuplicateGlobal) && globals_after == globals && bindings_after == bindings
    } else {
        &&& r is Ok
        &&& added(globals, globals_after, name, Space::Storage { store: spec.kind == BindingKind::ReadWriteStorage }, Some(spec.binding), ty)
        &&& bindings_after == bindings.push(spec)
    }
}

/// Some global is named `name`.
pub open spec fn declares_global(globals: Seq<GlobalVar>, name: Seq<char>) -> bool {
    exists|i: int| 0 <= i < globals.len() && (#[trigger] globals[i]).name@ == name
}

/// The type the first entry named `name` of a name table stands for.
pub open spec fn first_named(named: Seq<(String, u32)>, name: Seq<char>) -> Option<u32>
    decreases named.len(),
{
    if named.len() == 0 {
        None
    } else if named[0].0@ == name {
        Some(named[0].1)
    } else {
        first_named(named.drop_first(), name)
    }
}

/// The byte size of type `ty` as a storage buffer holds it: a scalar's
/// width, a vector's lanes times its width, an array's elements times its
/// stride, a record's span; an array whose length is known at run time has
/// none.
pub open spec fn type_size(types: Seq<ShaderType>, ty: u32) -> Result<u32, CompileError> {
    if ty >= types.len() {
        Err(CompileError::Malformed)
    } else {
        match types[ty as int] {
            ShaderType::Scalar(kind) | ShaderType::Atomic(kind) => Ok(width(kind)),
            ShaderType::Vector { size, kind } => if size * width(kind) <= u32::MAX {
                Ok((size * width(kind)) as u32)
            } else {
                Err(CompileError::Overflow)
            },
            ShaderType::Array { count, stride, .. } => match count {
                Some(c) => if c * stride <= u32::MAX {
                    Ok((c * stride) as u32)
                } else {
                    Err(CompileError::Overflow)
                },
                None => Err(CompileError::Unsized),
            },
            ShaderType::Struct { span, .. } => Ok(span),
        }
    }
}

/// The bytes of workgroup memory the first globals declare.
pub open spec fn workgroup_sum(types: Seq<ShaderType>, globals: Seq<GlobalVar>) -> Result<u64, CompileError>
    decreases globals.len(),
{
    if globals.len() == 0 {
        Ok(0)
    } else {
        match workgroup_sum(types, globals.drop_last()) {
            Err(e) => Err(e),
            Ok(total) => if globals.last().space == Space::WorkGroup {
                match type_size(types, globals.last().ty) {
                    Err(e) => Err(e),
                    Ok(bytes) => if total + bytes <= u64::MAX {
                        Ok((total + bytes) as u64)
                    } else {
                        Err(CompileError::Overflow)
                    },
                }
            } else {
                Ok(total)
            },
        }
    }
}

proof fn lemma_workgroup_err(types: Seq<ShaderType>, globals: Seq<GlobalVar>, i: int, e: CompileError)
    requires
        0 <= i <= globals.len(),
        workgroup_sum(types, globals.subrange(0, i)) == Err::<u64, CompileError>(e),
    ensures
        workgroup_sum(types, globals) == Err::<u64, CompileError>(e),
    decreases globals.len() - i,
{
    if i < globals.len() {
        let p = globals.subrange(0, i + 1);
        assert(p.drop_last() =~= globals.subrange(0, i));
        lemma_workgroup_err(types, globals, i + 1, e);
    } else {
        assert(globals.subrange(0, i) =~= globals);
    }
}


/// A compiler: the module it builds, and the device functions, constants,
/// type names and globals kernels are written against.
pub struct Compiler {
    types: Vec<ShaderType>,
    named: Vec<(String, u32)>,
    globals: Vec<GlobalVar>,
    functions: DeviceFunctions,
    lowered: Vec<LoweredFunction>,
    lowered_names: Vec<(String, u32)>,
    pending: Vec<String>,
    bindings: Vec<BindingSpec>,
}

fn kind_equal(a: ScalarKind, b: ScalarKind) -> (r: bool)
    ensures
        r == (a == b),
{
    a == b
}

/// Two members alike: the same name, type and offset.
pub open spec fn member_alike(a: Member, b: Member) -> bool {
    a.name@ == b.name@ && a.ty == b.ty && a.offset == b.offset
}

/// Two member lists alike, member by member.
pub open spec fn members_alike(a: Seq<Member>, b: Seq<Member>) -> bool {
    a.len() == b.len() && forall|i: int| 0 <= i < a.len() ==> member_alike(#[trigger] a[i], b[i])
}

/// Two types alike: equal, or structs of the same name, span and members.
pub open spec fn types_alike(a: ShaderType, b: ShaderType) -> bool {
    match (a, b) {
        (ShaderType::Struct { name: n1, members: m1, span: s1 }, ShaderType::Struct { name: n2, members: m2, span: s2 }) =>
            n1@ == n2@ && s1 == s2 && members_alike(m1@, m2@),
        (ShaderType::Struct { .. }, _) | (_, ShaderType::Struct { .. }) => false,
        _ => a == b,
    }
}

fn members_equal(a: &Vec<Member>, b: &Vec<Member>) -> (r: bool)
    ensures
        r == members_alike(a@, b@),
{
    if a.len() != b.len() {
        return false;
    }
    let mut i: usize = 0;
    while i < a.len()
        invariant
            i <= a.len(),
            a.len() == b.len(),
            forall|j: int| 0 <= j < i ==> member_alike(#[trigger] a@[j], b@[j]),
        decreases a.len() - i,
    {
        if a[i].name != b[i].name || a[i].ty != b[i].ty || a[i].offset != b[i].offset {
            return false;
        }
        i += 1;
    }
    true
}

/// Whether two types are the same type.
fn type_equal(a: &ShaderType, b: &ShaderType) -> (r: bool)
    ensures
        r == types_alike(*a, *b),
        r ==> ((*a is Struct) == (*b is Struct)),
        r && !(*a is Struct) ==> *a == *b,
{
    match (a, b) {
        (ShaderType::Scalar(x), ShaderType::Scalar(y)) => kind_equal(*x, *y),
        (ShaderType::Vector { size: s, kind: x }, ShaderType::Vector { size: t, kind: y }) => *s == *t && kind_equal(*x, *y),
        (ShaderType::Atomic(x), ShaderType::Atomic(y)) => kind_equal(*x, *y),
        (ShaderType::Array { base: b1, count: c1, stride: s1 }, ShaderType::Array { base: b2, count: c2, stride: s2 }) => {
            *b1 == *b2 && *s1 == *s2 && match (c1, c2) {
                (Some(x), Some(y)) => *x == *y,
                (None, None) => true,
                _ => false,
            }
        },
        (ShaderType::Struct { name: n1, members: m1, span: s1 }, ShaderType::Struct { name: n2, members: m2, span: s2 }) => {
            is_named(n1.as_str(), n2.as_str()) && *s1 == *s2 && members_equal(m1, m2)
        },
        _ => false,
    }
}

impl Compiler {
    /// The types, in the order the module holds them, declare their operands first.
    pub closed spec fn types_view(&self) -> Seq<ShaderType> {
        self.types@
    }

    pub closed spec fn constants_view(&self) -> Seq<(String, u32)> {
        self.functions.constants_view()
    }

    pub closed spec fn functions_view(&self) -> Seq<Function> {
        self.functions.functions_view()
    }

    pub closed spec fn bindings_view(&self) -> Seq<BindingSpec> {
        self.bindings@
    }

    /// No function is lowered yet: lowering happens only when a kernel is
    /// finished.
    pub closed spec fn fresh(&self) -> bool {
        self.lowered@.len() == 0
    }

    /// The globals: storage buffers and workgroup memory, in declaration order.
    pub closed spec fn globals_view(&self) -> Seq<GlobalVar> {
        self.globals@
    }

    /// What a function with `arity` arguments being lowered may name.
    spec fn bounds(self, arity: nat) -> Bounds {
        Bounds { arity, globals: self.globals@.len(), types: self.types@.len(), arities: arities_of(self.lowered@) }
    }

    /// `after` holds at least the globals, types and lowered functions `self` does.
    spec fn grows(self, after: Compiler) -> bool {
        &&& self.globals@ == after.globals@
        &&& self.bindings@ == after.bindings@
        &&& self.types@.len() <= after.types@.len()
        &&& forall|i: int| 0 <= i < self.types@.len() ==> #[trigger] after.types@[i] == self.types@[i]
        &&& extends(arities_of(self.lowered@), arities_of(after.lowered@))
    }

    /// A step of lowering: the compiler grows, and the function being lowered
    /// keeps what it emitted and names only what the grown compiler holds.
    spec fn step(self, l: Lowering, after: Compiler, l2: Lowering) -> bool {
        &&& self.grows(after)
        &&& lowering_ok(l2, after.bounds(l.arity as nat))
        &&& kept(l, l2)
    }

    /// Every lowered function names only what the module holds.
    spec fn lowered_ok(self) -> bool {
        forall|j: int| 0 <= j < self.lowered@.len() ==> function_fits(
            #[trigger] self.lowered@[j],
            j as nat,
            self.globals@.len(),
            self.types@.len(),
            arities_of(self.lowered@),
        )
    }

    /// The type each declared type name stands for.
    pub closed spec fn named_view(&self) -> Seq<(String, u32)> {
        self.named@
    }

    /// Every named type exists and every global's type exists; functions and
    /// constants have distinct names.
    pub closed spec fn wf(&self) -> bool {
        &&& forall|i: int| 0 <= i < self.types@.len() ==> crate::lowered::type_wf(#[trigger] self.types@[i], i)
        &&& forall|i: int| 0 <= i < self.named@.len() ==> #[trigger] self.named@[i].1 < self.types@.len()
        &&& forall|g: int| 0 <= g < self.globals@.len() ==> #[trigger] self.globals@[g].ty < self.types@.len()
        &&& self.functions.wf()
        &&& self.types@.len() < u32::MAX
        &&& self.globals@.len() < u32::MAX
        &&& self.lowered_ok()
        &&& self.lowered@.len() <= 0xffff_fff0
        &&& forall|q: int| 0 <= q < self.lowered_names@.len() ==> #[trigger] self.lowered_names@[q].1 < self.lowered@.len()
    }

    /// A compiler that knows the scalar and vector types of the device and nothing else.
    pub fn new() -> (c: Compiler)
        ensures
            c.wf(),
            c.fresh(),
            c.constants_view() == Seq::<(String, u32)>::empty(),
            c.functions_view() == Seq::<Function>::empty(),
            c.bindings_view() == Seq::<BindingSpec>::empty(),
            c.globals_view() == Seq::<GlobalVar>::empty(),
            c.types_view().len() == 8,
            c.named_view().len() == 8,
    {
        let mut types: Vec<ShaderType> = Vec::new();
        let mut named: Vec<(String, u32)> = Vec::new();
        types.push(ShaderType::Scalar(ScalarKind::Uint));
        named.push(("u32".to_owned(), 0));
        types.push(ShaderType::Scalar(ScalarKind::Sint));
        named.push(("i32".to_owned(), 1));
        types.push(ShaderType::Scalar(ScalarKind::Float));
        named.push(("f32".to_owned(), 2));
        types.push(ShaderType::Scalar(ScalarKind::Bool));
        named.push(("bool".to_owned(), 3));
        types.push(ShaderType::Vector { size: 3, kind: ScalarKind::Uint });
        named.push(("uvec3".to_owned(), 4));
        types.push(ShaderType::Vector { size: 4, kind: ScalarKind::Uint });
        named.push(("uvec4".to_owned(), 5));
        types.push(ShaderType::Vector { size: 2, kind: ScalarKind::Float });
        named.push(("fvec2".to_owned(), 6));
        types.push(ShaderType::Atomic(ScalarKind::Uint));
        named.push(("AtomicU32".to_owned(), 7));
        Compiler {
            types,
            named,
            globals: Vec::new(),
            functions: DeviceFunctions::new(),
            lowered: Vec::new(),
            lowered_names: Vec::new(),
            pending: Vec::new(),
            bindings: Vec::new(),
        }
    }

    /// The type named `name`.
    fn ty(&self, name: &str) -> (r: Result<u32, CompileError>)
        requires
            self.wf(),
        ensures
            r matches Err(e) ==> lowering_refusal(e),
            r matches Ok(t) ==> t < self.types@.len(),
            r == match first_named(self.named@, name@) {
                Some(t) => Ok::<u32, CompileError>(t),
                None => Err(CompileError::UnknownType),
            },
    {
        let wanted = name.to_owned();
        let mut i: usize = 0;
        proof {
            assert(self.named@.skip(0) =~= self.named@);
        }
        while i < self.named.len()
            invariant
                i <= self.named@.len(),
                self.wf(),
                wanted@ == name@,
                first_named(self.named@.skip(i as int), name@) == first_named(self.named@, name@),
            decreases self.named@.len() - i,
        {
            proof {
                assert(self.named@.skip(i as int).drop_first() =~= self.named@.skip(i + 1));
                assert(self.named@.skip(i as int)[0] == self.named@[i as int]);
            }
            if self.named[i].0 == wanted {
                return Ok(self.named[i].1);
            }
            i += 1;
        }
        Err(CompileError::UnknownType)
    }

    /// Adds `t` to the types unless an equal type is held, and returns its handle.
    fn insert_type(&mut self, t: ShaderType) -> (r: Result<u32, CompileError>)
        requires
            old(self).wf(),
            crate::lowered::type_wf(t, old(self).types@.len() as int),
        ensures
            r matches Err(e) ==> lowering_refusal(e),
            final(self).wf(),
            final(self).types@.len() >= old(self).types@.len(),
            final(self).types@.subrange(0, old(self).types@.len() as int) == old(self).types@,
            final(self).named@ == old(self).named@,
            final(self).globals@ == old(self).globals@,
            final(self).functions == old(self).functions,
            final(self).lowered@ == old(self).lowered@,
            final(self).lowered_names@ == old(self).lowered_names@,
            final(self).pending@ == old(self).pending@,
            final(self).bindings@ == old(self).bindings@,
            r matches Ok(h) ==> h < final(self).types@.len() && (!(t is Struct) ==> final(self).types@[h as int] == t),
            old(self).types@.len() < 0xffff_fff0 ==> r is Ok,
    {
        let mut i: usize = 0;
        while i < self.types.len()
            invariant
                i <= self.types@.len(),
                self.wf(),
            decreases self.types@.len() - i,
        {
            if type_equal(&self.types[i], &t) {
                proof {
                    assert(self.types@.subrange(0, self.types@.len() as int) =~= self.types@);
                }
                return Ok(i as u32);
            }
            i += 1;
        }
        if self.types.len() >= 0xffff_fff0 {
            return Err(CompileError::Overflow);
        }
        self.push_type(t)
    }

    /// Adds `t` to the types and returns its handle.
    fn push_type(&mut self, t: ShaderType) -> (r: Result<u32, CompileError>)
        requires
            old(self).wf(),
            crate::lowered::type_wf(t, old(self).types@.len() as int),
        ensures
            r matches Err(e) ==> lowering_refusal(e),
            final(self).wf(),
            final(self).named@ == old(self).named@,
            final(self).globals@ == old(self).globals@,
            final(self).functions == old(self).functions,
            final(self).lowered@ == old(self).lowered@,
            final(self).lowered_names@ == old(self).lowered_names@,
            final(self).pending@ == old(self).pending@,
            final(self).bindings@ == old(self).bindings@,
            old(self).types@.len() < 0xffff_fff0 ==> r == Ok::<u32, CompileError>(old(self).types@.len() as u32)
                && final(self).types@ == old(self).types@.push(t),
            old(self).types@.len() >= 0xffff_fff0 ==> r == Err::<u32, CompileError>(CompileError::Overflow)
                && final(self).types@ == old(self).types@,
            final(self).types@.len() >= old(self).types@.len(),
            final(self).types@.subrange(0, old(self).types@.len() as int) == old(self).types@,
            r matches Ok(h) ==> h < final(self).types@.len(),
    {
        if self.types.len() >= 0xffff_fff0 {
            proof {
                assert(self.types@.subrange(0, self.types@.len() as int) =~= self.types@);
            }
            return Err(CompileError::Overflow);
        }
        let ghost before = self.types@;
        self.types.push(t);
        proof {
            assert(self.types@.subrange(0, before.len() as int) =~= before);
            assert forall|i: int| 0 <= i < self.types@.len() implies crate::lowered::type_wf(#[trigger] self.types@[i], i) by {
                if i < before.len() {
                    assert(self.types@[i] == before[i]);
                }
            }
        }
        Ok((self.types.len() - 1) as u32)
    }

    /// The byte size of type `ty` as a storage buffer holds it.
    fn size(&self, ty: u32) -> (r: Result<u32, CompileError>)
        requires
            self.wf(),
        ensures
            r matches Err(e) ==> lowering_refusal(e),
            r == type_size(self.types@, ty),
    {
        if ty as usize >= self.types.len() {
            return Err(CompileError::Malformed);
        }
        match &self.types[ty as usize] {
            ShaderType::Scalar(kind) | ShaderType::Atomic(kind) => Ok(if *kind == ScalarKind::Bool { 1 } else { 4 }),
            ShaderType::Vector { size, kind } => {
                let w: u32 = if *kind == ScalarKind::Bool { 1 } else { 4 };
                match size.checked_mul(w) {
                    Some(bytes) => Ok(bytes),
                    None => Err(CompileError::Overflow),
                }
            },
            ShaderType::Array { count, stride, .. } => match count {
                Some(c) => match c.checked_mul(*stride) {
                    Some(bytes) => Ok(bytes),
                    None => Err(CompileError::Overflow),
                },
                None => Err(CompileError::Unsized),
            },
            ShaderType::Struct { span, .. } => Ok(*span),
        }
    }

    /// The array type of `length` elements of `element`, or of a length known
    /// at run time; its stride is the size of an element.
    fn array(&mut self, element: u32, length: Option<u32>) -> (r: Result<u32, CompileError>)
        requires
            old(self).wf(),
            element < old(self).types@.len(),
        ensures
            r matches Err(e) ==> lowering_refusal(e),
            final(self).wf(),
            final(self).types@.len() >= old(self).types@.len(),
            final(self).types@.subrange(0, old(self).types@.len() as int) == old(self).types@,
            final(self).named@ == old(self).named@,
            final(self).globals@ == old(self).globals@,
            final(self).functions == old(self).functions,
            final(self).lowered@ == old(self).lowered@,
            final(self).lowered_names@ == old(self).lowered_names@,
            final(self).pending@ == old(self).pending@,
            final(self).bindings@ == old(self).bindings@,
            r matches Ok(h) ==> h < final(self).types@.len(),
            match type_size(old(self).types@, element) {
                Err(e) => r == Err::<u32, CompileError>(e),
                Ok(stride) => if length == Some(0u32) {
                    r == Err::<u32, CompileError>(CompileError::EmptyArray)
                } else {
                    &&& r matches Ok(h) ==> final(self).types@[h as int] == (ShaderType::Array { base: element, count: length, stride })
                    &&& old(self).types@.len() < 0xffff_fff0 ==> r is Ok
                },
            },
    {
        let stride = match self.size(element) {
            Ok(s) => s,
            Err(e) => return Err(e),
        };
        match length {
            Some(0) => return Err(CompileError::EmptyArray),
            _ => {},
        }
        self.insert_type(ShaderType::Array { base: element, count: length, stride })
    }

    /// Declares the record `layout` as a type of its name: a struct of its
    /// fields, each of the device type its field type names, at its offset.
    /// The name is not declared yet, and every field type is.
    pub fn record(&mut self, layout: RecordLayout) -> (r: Result<(), CompileError>)
        requires
            old(self).wf(),
            old(self).types_view().len() < 0xffff_fff0,
            first_named(old(self).named_view(), layout.name@) is None,
            forall|k: int| 0 <= k < layout.fields@.len() ==> (#[trigger] first_named(old(self).named_view(), field_type_name(layout.fields@[k].ty))) is Some,
        ensures
            r matches Err(e) ==> lowering_refusal(e),
            final(self).fresh() == old(self).fresh(),
            final(self).wf(),
            final(self).functions_view() == old(self).functions_view(),
            final(self).constants_view() == old(self).constants_view(),
            final(self).bindings_view() == old(self).bindings_view(),
            final(self).globals_view() == old(self).globals_view(),
            first_named(old(self).named_view(), layout.name@) is Some ==> r == Err::<(), CompileError>(CompileError::DuplicateType),
            first_named(old(self).named_view(), layout.name@) is None
                && (forall|k: int| 0 <= k < layout.fields@.len() ==> (#[trigger] first_named(old(self).named_view(), field_type_name(layout.fields@[k].ty))) is Some)
                ==> r is Ok,
            r is Err ==> final(self).named_view() == old(self).named_view() && final(self).types_view() == old(self).types_view(),
            r is Ok ==> {
                &&& final(self).types_view().len() == old(self).types_view().len() + 1
                &&& final(self).types_view().drop_last() == old(self).types_view()
                &&& final(self).named_view().len() == old(self).named_view().len() + 1
                &&& final(self).named_view().drop_last() == old(self).named_view()
                &&& final(self).named_view().last().0@ == layout.name@
                &&& final(self).named_view().last().1 == old(self).types_view().len()
                &&& final(self).types_view().last() matches ShaderType::Struct { name, members, span } && {
                    &&& name@ == layout.name@
                    &&& span == layout.size
                    &&& members@.len() == layout.fields@.len()
                    &&& forall|k: int| 0 <= k < members@.len() ==> {
                        &&& (#[trigger] members@[k]).name@ == layout.fields@[k].name@
                        &&& members@[k].offset == layout.fields@[k].offset
                        &&& first_named(old(self).named_view(), field_type_name(layout.fields@[k].ty)) == Some(members@[k].ty)
                    }
                }
            },
    {
        if self.ty(layout.name).is_ok() {
            return Err(CompileError::DuplicateType);
        }
        let mut members: Vec<Member> = Vec::new();
        let mut i: usize = 0;
        while i < layout.fields.len()
            invariant
                i <= layout.fields@.len(),
                self.wf(),
                self.named@ == old(self).named@,
                self.types@ == old(self).types@,
                self.globals@ == old(self).globals@,
                self.bindings@ == old(self).bindings@,
                self.functions == old(self).functions,
                first_named(old(self).named@, layout.name@) is None,
                members@.len() == i,
                forall|k: int| 0 <= k < members@.len() ==> #[trigger] members@[k].ty < self.types@.len(),
                forall|k: int| 0 <= k < i ==> {
                    &&& (#[trigger] members@[k]).name@ == layout.fields@[k].name@
                    &&& members@[k].offset == layout.fields@[k].offset
                    &&& first_named(old(self).named@, field_type_name(layout.fields@[k].ty)) == Some(members@[k].ty)
                },
                forall|k: int| 0 <= k < i ==> (#[trigger] first_named(old(self).named@, field_type_name(layout.fields@[k].ty))) is Some,
            decreases layout.fields@.len() - i,
        {
            let field = layout.fields[i];
            let name = match field.ty {
                FieldType::U32 => "u32",
                FieldType::I32 => "i32",
                FieldType::F32 => "f32",
                FieldType::U32x4 => "uvec4",
            };
            proof {
                assert(name@ == field_type_name(field.ty));
            }
            let ty = match self.ty(name) {
                Ok(t) => t,
                Err(e) => return Err(e),
            };
            members.push(Member { name: field.name.to_owned(), ty, offset: field.offset });
            i += 1;
        }
        let ghost kept = members@;
        let handle = match self.push_type(ShaderType::Struct { name: layout.name.to_owned(), members, span: layout.size }) {
            Ok(h) => h,
            Err(e) => return Err(e),
        };
        self.named.push((layout.name.to_owned(), handle));
        proof {
            assert(self.named@.drop_last() =~= old(self).named@);
            assert(self.types@.drop_last() =~= old(self).types@);
            assert forall|i: int| 0 <= i < self.named@.len() implies #[trigger] self.named@[i].1 < self.types@.len() by {
                if i < self.named@.len() - 1 {
                    assert(self.named@[i] == old(self).named@[i]);
                }
            }
        }
        Ok(())
    }

    /// The global named `name`.
    fn find_global(&self, name: &str) -> (r: Option<usize>)
        ensures
            r matches Some(i) ==> i < self.globals@.len() && self.globals@[i as int].name@ == name@,
            r is None ==> !declares_global(self.globals@, name@),
    {
        let wanted = name.to_owned();
        let mut i: usize = 0;
        while i < self.globals.len()
            invariant
                i <= self.globals@.len(),
                wanted@ == name@,
                forall|k: int| 0 <= k < i ==> (#[trigger] self.globals@[k]).name@ != name@,
            decreases self.globals@.len() - i,
        {
            if self.globals[i].name == wanted {
                return Some(i);
            }
            i += 1;
        }
        None
    }

    fn add_global(&mut self, name: &str, space: Space, binding: Option<u32>, ty: u32) -> (r: Result<(), CompileError>)
        requires
            old(self).wf(),
            ty < old(self).types@.len(),
            old(self).globals@.len() < 0xffff_fff0,
        ensures
            r matches Err(e) ==> lowering_refusal(e),
            final(self).lowered@ == old(self).lowered@,
            final(self).wf(),
            final(self).functions == old(self).functions,
            final(self).bindings@ == old(self).bindings@,
            final(self).types@ == old(self).types@,
            final(self).named@ == old(self).named@,
            declares_global(old(self).globals@, name@) ==> r == Err::<(), CompileError>(CompileError::DuplicateGlobal)
                && final(self).globals@ == old(self).globals@,
            !declares_global(old(self).globals@, name@) ==> r is Ok && added(old(self).globals@, final(self).globals@, name@, space, binding, ty),
    {
        match self.find_global(name) {
            Some(_) => return Err(CompileError::DuplicateGlobal),
            None => {},
        }
        self.globals.push(GlobalVar { name: name.to_owned(), space, binding, ty });
        proof {
            assert(self.globals@.drop_last() =~= old(self).globals@);
            assert forall|g: int| 0 <= g < self.globals@.len() implies #[trigger] self.globals@[g].ty < self.types@.len() by {
                if g < self.globals@.len() - 1 {
                    assert(self.globals@[g] == old(self).globals@[g]);
                }
            }
        }
        Ok(())
    }

    fn storage(&mut self, name: &str, ty: u32, spec: BindingSpec) -> (r: Result<(), CompileError>)
        requires
            old(self).wf(),
            ty < old(self).types@.len(),
            old(self).globals@.len() < 0xffff_fff0,
        ensures
            r matches Err(e) ==> lowering_refusal(e),
            final(self).lowered@ == old(self).lowered@,
            final(self).wf(),
            final(self).functions_view() == old(self).functions_view(),
            final(self).constants_view() == old(self).constants_view(),
            final(self).types@ == old(self).types@,
            final(self).named@ == old(self).named@,
            stored(old(self).globals@, old(self).bindings@, final(self).globals@, final(self).bindings@, r, name@, ty, spec),
    {
        if spec.binding as usize != self.bindings.len() {
            return Err(CompileError::SparseBinding);
        }
        let store = match spec.kind {
            BindingKind::ReadOnlyStorage => false,
            BindingKind::ReadWriteStorage => true,
        };
        match self.add_global(name, Space::Storage { store }, Some(spec.binding), ty) {
            Ok(()) => {},
            Err(e) => return Err(e),
        }
        self.bindings.push(spec);
        Ok(())
    }

    /// Declares the storage buffer `name`: an array of `element` of a length
    /// known at run time, bound as `spec` says, at the next slot.
    pub fn storage_array(&mut self, name: &str, element: &str, spec: BindingSpec) -> (r: Result<(), CompileError>)
        requires
            old(self).wf(),
            old(self).types_view().len() < 0xffff_fff0,
            old(self).globals_view().len() < 0xffff_fff0,
        ensures
            r matches Err(e) ==> lowering_refusal(e),
            final(self).fresh() == old(self).fresh(),
            final(self).wf(),
            final(self).functions_view() == old(self).functions_view(),
            final(self).constants_view() == old(self).constants_view(),
            final(self).named_view() == old(self).named_view(),
            match first_named(old(self).named_view(), element@) {
                None => r == Err::<(), CompileError>(CompileError::UnknownType) && final(self).globals_view() == old(self).globals_view()
                    && final(self).bindings_view() == old(self).bindings_view(),
                Some(e) => match type_size(old(self).types_view(), e) {
                    Err(x) => r == Err::<(), CompileError>(x) && final(self).globals_view() == old(self).globals_view()
                        && final(self).bindings_view() == old(self).bindings_view(),
                    Ok(stride) => {
                        &&& stored(old(self).globals_view(), old(self).bindings_view(), final(self).globals_view(),
                            final(self).bindings_view(), r, name@, final(self).globals_view().last().ty, spec)
                        &&& r is Ok ==> final(self).types_view()[final(self).globals_view().last().ty as int]
                            == (ShaderType::Array { base: e, count: None, stride })
                    },
                },
            },
    {
        let ty = match self.ty(element) {
            Ok(t) => t,
            Err(e) => return Err(e),
        };
        let array = match self.array(ty, None) {
            Ok(a) => a,
            Err(e) => return Err(e),
        };
        self.storage(name, array, spec)
    }

    /// Declares the storage buffer `name`: one record of type `record`, bound
    /// as `spec` says, at the next slot.
    pub fn storage_record(&mut self, name: &str, record: &str, spec: BindingSpec) -> (r: Result<(), CompileError>)
        requires
            old(self).wf(),
            old(self).globals_view().len() < 0xffff_fff0,
        ensures
            r matches Err(e) ==> lowering_refusal(e),
            final(self).fresh() == old(self).fresh(),
            final(self).wf(),
            final(self).functions_view() == old(self).functions_view(),
            final(self).constants_view() == old(self).constants_view(),
            final(self).named_view() == old(self).named_view(),
            final(self).types_view() == old(self).types_view(),
            match first_named(old(self).named_view(), record@) {
                None => r == Err::<(), CompileError>(CompileError::UnknownType) && final(self).globals_view() == old(self).globals_view()
                    && final(self).bindings_view() == old(self).bindings_view(),
                Some(t) => stored(old(self).globals_view(), old(self).bindings_view(), final(self).globals_view(),
                    final(self).bindings_view(), r, name@, t, spec),
            },
    {
        let ty = match self.ty(record) {
            Ok(t) => t,
            Err(e) => return Err(e),
        };
        self.storage(name, ty, spec)
    }

    /// Declares the workgroup memory `name`: an array of `count` elements of `element`.
    pub fn workgroup(&mut self, name: &str, element: &str, count: u32) -> (r: Result<(), CompileError>)
        requires
            old(self).wf(),
            old(self).types_view().len() < 0xffff_fff0,
            old(self).globals_view().len() < 0xffff_fff0,
        ensures
            r matches Err(e) ==> lowering_refusal(e),
            final(self).fresh() == old(self).fresh(),
            final(self).wf(),
            final(self).functions_view() == old(self).functions_view(),
            final(self).constants_view() == old(self).constants_view(),
            final(self).bindings_view() == old(self).bindings_view(),
            final(self).named_view() == old(self).named_view(),
            r is Err ==> final(self).globals_view() == old(self).globals_view(),
            match first_named(old(self).named_view(), element@) {
                None => r == Err::<(), CompileError>(CompileError::UnknownType),
                Some(e) => match type_size(old(self).types_view(), e) {
                    Err(x) => r == Err::<(), CompileError>(x),
                    Ok(stride) => if count == 0 {
                        r == Err::<(), CompileError>(CompileError::EmptyArray)
                    } else if declares_global(old(self).globals_view(), name@) {
                        r == Err::<(), CompileError>(CompileError::DuplicateGlobal)
                    } else {
                        &&& r is Ok
                        &&& added(old(self).globals_view(), final(self).globals_view(), name@, Space::WorkGroup, None,
                            final(self).globals_view().last().ty)
                        &&& final(self).types_view()[final(self).globals_view().last().ty as int]
                            == (ShaderType::Array { base: e, count: Some(count), stride })
                    },
                },
            },
    {
        let ty = match self.ty(element) {
            Ok(t) => t,
            Err(e) => return Err(e),
        };
        let array = match self.array(ty, Some(count)) {
            Ok(a) => a,
            Err(e) => return Err(e),
        };
        self.add_global(name, Space::WorkGroup, None, array)
    }

    /// The bytes of workgroup memory the kernel declares.
    pub fn workgroup_bytes(&self) -> (r: Result<u64, CompileError>)
        requires
            self.wf(),
        ensures
            r matches Err(e) ==> lowering_refusal(e),
            r == workgroup_sum(self.types_view(), self.globals_view()),
    {
        let mut total: u64 = 0;
        let mut i: usize = 0;
        while i < self.globals.len()
            invariant
                i <= self.globals@.len(),
                self.wf(),
                workgroup_sum(self.types@, self.globals@.subrange(0, i as int)) == Ok::<u64, CompileError>(total),
            decreases self.globals@.len() - i,
        {
            proof {
                let p = self.globals@.subrange(0, i + 1);
                assert(p.drop_last() =~= self.globals@.subrange(0, i as int));
                assert(p.last() == self.globals@[i as int]);
            }
            if self.globals[i].space == Space::WorkGroup {
                let bytes = match self.size(self.globals[i].ty) {
                    Ok(b) => b,
                    Err(e) => {
                        proof {
                            lemma_workgroup_err(self.types@, self.globals@, i + 1, e);
                        }
                        return Err(e);
                    },
                };
                total = match total.checked_add(bytes as u64) {
                    Some(t) => t,
                    None => {
                        proof {
                            lemma_workgroup_err(self.types@, self.globals@, i + 1, CompileError::Overflow);
                        }
                        return Err(CompileError::Overflow);
                    },
                };
            }
            i += 1;
        }
        proof {
            assert(self.globals@.subrange(0, self.globals@.len() as int) =~= self.globals@);
        }
        Ok(total)
    }

    /// Defines the constant `name`.
    pub fn constant(&mut self, name: &str, value: u32)
        requires
            old(self).wf(),
            forall|i: int| 0 <= i < old(self).constants_view().len() ==> (#[trigger] old(self).constants_view()[i]).0@ != name@,
        ensures
            final(self).fresh() == old(self).fresh(),
            final(self).wf(),
            final(self).functions_view() == old(self).functions_view(),
            final(self).constants_view().drop_last() == old(self).constants_view(),
            final(self).constants_view().last().0@ == name@,
            final(self).constants_view().last().1 == value,
            final(self).bindings_view() == old(self).bindings_view(),
    {
        proof {
            assert forall|i: int| 0 <= i < self.functions.constants_view().len() implies (#[trigger] self.functions.constants_view()[i]).0@ != name@ by {
                assert(self.constants_view()[i] == self.functions.constants_view()[i]);
            }
        }
        self.functions.constant(name, value);
    }

    /// Declares the device function `function`.
    pub fn function(&mut self, function: Function)
        requires
            old(self).wf(),
            !declares(old(self).functions_view(), function.name@),
        ensures
            final(self).fresh() == old(self).fresh(),
            final(self).wf(),
            final(self).constants_view() == old(self).constants_view(),
            final(self).functions_view() == old(self).functions_view().push(function),
            final(self).bindings_view() == old(self).bindings_view(),
    {
        self.functions.function(function);
    }

    /// Declares a copy of the function `source` under the name `name`.
    pub fn select(&mut self, source: &str, name: &str)
        requires
            old(self).wf(),
            declares(old(self).functions_view(), source@),
            !declares(old(self).functions_view(), name@),
        ensures
            final(self).fresh() == old(self).fresh(),
            final(self).wf(),
            final(self).constants_view() == old(self).constants_view(),
            final(self).functions_view().drop_last() == old(self).functions_view(),
            final(self).functions_view().last().name@ == name@,
            final(self).bindings_view() == old(self).bindings_view(),
    {
        self.functions.select(source, name);
    }

    /// The value of the constant expression `e`.
    fn evaluate(&self, e: &Expression) -> (r: Result<u32, CompileError>)
        ensures
            r matches Err(e) ==> lowering_refusal(e),
            r == constant_value(*e, self.constants_view()),
        decreases *e,
    {
        match e {
            Expression::Integer { value, ty } => {
                if *ty != IntegerType::Signed {
                    Ok(*value)
                } else {
                    Err(CompileError::NotConstant)
                }
            },
            Expression::Name(name) => match self.functions.value_of(name.as_str()) {
                Some(v) => Ok(v),
                None => Err(CompileError::UnknownConstant),
            },
            Expression::Binary { op, left, right } => {
                let l = match self.evaluate(left) {
                    Ok(v) => v,
                    Err(e) => return Err(e),
                };
                let r = match self.evaluate(right) {
                    Ok(v) => v,
                    Err(e) => return Err(e),
                };
                match op {
                    BinaryOperator::Add => match l.checked_add(r) {
                        Some(v) => Ok(v),
                        None => Err(CompileError::Overflow),
                    },
                    BinaryOperator::Subtract => match l.checked_sub(r) {
                        Some(v) => Ok(v),
                        None => Err(CompileError::Overflow),
                    },
                    BinaryOperator::Multiply => match l.checked_mul(r) {
                        Some(v) => Ok(v),
                        None => Err(CompileError::Overflow),
                    },
                    BinaryOperator::Divide => match l.checked_div(r) {
                        Some(v) => Ok(v),
                        None => Err(CompileError::DivideByZero),
                    },
                    _ => Err(CompileError::NotConstant),
                }
            },
            _ => Err(CompileError::NotConstant),
        }
    }
}


/// An expression of the function being lowered, and its type.
#[derive(Clone, Copy, PartialEq, Eq, Debug, Structural)]
struct Typed {
    expr: u32,
    ty: u32,
}

/// What a name stands for while a function is lowered.
enum Symbol {
    /// A value computed once.
    Value(Typed),
    /// A pointer to a mutable local.
    Local(Typed),
    /// Pointers to the locals of a register array.
    Array(Vec<Typed>),
    /// A value known at compilation.
    Constant(u32),
}

impl Symbol {
    fn copy(&self) -> (r: Symbol)
        ensures
            same_symbol(*self, r),
    {
        match self {
            Symbol::Value(t) => Symbol::Value(*t),
            Symbol::Local(t) => Symbol::Local(*t),
            Symbol::Array(registers) => {
                let mut out: Vec<Typed> = Vec::new();
                let mut i: usize = 0;
                while i < registers.len()
                    invariant
                        i <= registers.len(),
                        out@ == registers@.subrange(0, i as int),
                    decreases registers.len() - i,
                {
                    out.push(registers[i]);
                    i += 1;
                    proof {
                        assert(out@ =~= registers@.subrange(0, i as int));
                    }
                }
                proof {
                    assert(registers@.subrange(0, registers@.len() as int) =~= registers@);
                }
                Symbol::Array(out)
            },
            Symbol::Constant(v) => Symbol::Constant(*v),
        }
    }
}

/// Two symbols stand for the same thing.
spec fn same_symbol(a: Symbol, b: Symbol) -> bool {
    match (a, b) {
        (Symbol::Value(x), Symbol::Value(y)) => x == y,
        (Symbol::Local(x), Symbol::Local(y)) => x == y,
        (Symbol::Array(x), Symbol::Array(y)) => x@ == y@,
        (Symbol::Constant(x), Symbol::Constant(y)) => x == y,
        _ => false,
    }
}

/// What the first binding of `name` in `scope`, from index `j` on, stands for.
spec fn scope_binding(scope: Seq<(String, Symbol)>, name: Seq<char>, j: int) -> Option<Symbol>
    decreases scope.len() - j,
{
    if j < 0 || j >= scope.len() {
        None
    } else if scope[j].0@ == name {
        Some(scope[j].1)
    } else {
        scope_binding(scope, name, j + 1)
    }
}

/// What `name` stands for in the innermost of the first `i` scopes that binds it.
spec fn scopes_binding(scopes: Seq<Vec<(String, Symbol)>>, name: Seq<char>, i: int) -> Option<Symbol>
    decreases i,
{
    if i <= 0 || i > scopes.len() {
        None
    } else {
        match scope_binding(scopes[i - 1]@, name, 0) {
            Some(sym) => Some(sym),
            None => scopes_binding(scopes, name, i - 1),
        }
    }
}

/// The constant `name` stands for where a function is lowered: the constant
/// the innermost scope binds it to, or, where no scope binds it, the declared
/// constant of that name.
spec fn name_constant(scopes: Seq<Vec<(String, Symbol)>>, constants: Seq<(String, u32)>, name: Seq<char>) -> Option<u32> {
    match scopes_binding(scopes, name, scopes.len() as int) {
        Some(Symbol::Constant(v)) => Some(v),
        Some(_) => None,
        None => constant_of(constants, name),
    }
}

/// The value `e` folds to at compilation, where it has one: an unsigned
/// literal, a name that stands for a constant, or unsigned arithmetic on such
/// values, each within the range of `u32`.
spec fn folded(e: Expression, scopes: Seq<Vec<(String, Symbol)>>, constants: Seq<(String, u32)>) -> Result<Option<u32>, CompileError>
    decreases e,
{
    match e {
        Expression::Integer { value, ty } => if ty != IntegerType::Signed {
            Ok(Some(value))
        } else {
            Ok(None)
        },
        Expression::Name(name) => Ok(name_constant(scopes, constants, name@)),
        Expression::Binary { op, left, right } => match folded(*left, scopes, constants) {
            Err(x) => Err(x),
            Ok(None) => Ok(None),
            Ok(Some(l)) => match folded(*right, scopes, constants) {
                Err(x) => Err(x),
                Ok(None) => Ok(None),
                Ok(Some(r)) => match op {
                    BinaryOperator::Add => if l + r <= u32::MAX {
                        Ok(Some((l + r) as u32))
                    } else {
                        Err(CompileError::Overflow)
                    },
                    BinaryOperator::Subtract => if l >= r {
                        Ok(Some((l - r) as u32))
                    } else {
                        Err(CompileError::Overflow)
                    },
                    BinaryOperator::Multiply => if l * r <= u32::MAX {
                        Ok(Some((l * r) as u32))
                    } else {
                        Err(CompileError::Overflow)
                    },
                    BinaryOperator::Divide => if r != 0 {
                        Ok(Some(l / r))
                    } else {
                        Err(CompileError::DivideByZero)
                    },
                    BinaryOperator::Modulo => if r != 0 {
                        Ok(Some(l % r))
                    } else {
                        Err(CompileError::DivideByZero)
                    },
                    _ => Ok(None),
                },
            },
        },
        _ => Ok(None),
    }
}

/// What the lowering of a function may name: as many arguments as it takes,
/// the module's globals and types, and the functions lowered before it,
/// which take `arities` arguments.
struct Bounds {
    arity: nat,
    globals: nat,
    types: nat,
    arities: Seq<nat>,
}

/// `b2` allows all that `b1` does.
spec fn within(b1: Bounds, b2: Bounds) -> bool {
    &&& b1.arity == b2.arity
    &&& b1.globals <= b2.globals
    &&& b1.types <= b2.types
    &&& extends(b1.arities, b2.arities)
}

spec fn typed_ok(t: Typed, len: nat, b: Bounds) -> bool {
    t.expr < len && t.ty < b.types
}

spec fn symbol_ok(s: Symbol, len: nat, b: Bounds) -> bool {
    match s {
        Symbol::Value(t) | Symbol::Local(t) => typed_ok(t, len, b),
        Symbol::Array(registers) => forall|k: int| 0 <= k < registers@.len() ==> typed_ok(#[trigger] registers@[k], len, b),
        Symbol::Constant(_) => true,
    }
}

/// Everything a function being lowered holds names only what `b` allows
/// and what it has emitted before.
spec fn lowering_ok(l: Lowering, b: Bounds) -> bool {
    &&& l.arity == b.arity
    &&& forall|i: int| 0 <= i < l.expressions@.len() ==> expr_wf(
        #[trigger] l.expressions@[i],
        i,
        b.arity,
        l.locals@.len(),
        b.globals,
        b.types,
        b.arities.len(),
    )
    &&& forall|i: int| 0 <= i < l.locals@.len() ==> #[trigger] l.locals@[i].ty < b.types
    &&& forall|k: int| 0 <= k < l.blocks@.len() ==> body_fits(#[trigger] l.blocks@[k]@, l.expressions@.len(), b.arities.len(), b.arities)
    &&& forall|k: int, j: int| 0 <= k < l.scopes@.len() && 0 <= j < l.scopes@[k]@.len() ==> symbol_ok(
        #[trigger] l.scopes@[k]@[j].1,
        l.expressions@.len(),
        b,
    )
    &&& l.expressions@.len() <= 0xffff_fff0
    &&& l.locals@.len() <= 0xffff_fff0
}

/// What lowering the integer literal `value` comes to: a signed literal of
/// `i32` where it is written signed or inferred where `i32` is wanted, and
/// there within the range of `i32`, else an unsigned literal of `u32`; both
/// types declared, and room for one more expression, which it names.
spec fn literal_of(named: Seq<(String, u32)>, value: u32, kind: IntegerType, hint: Option<u32>, len: nat) -> Result<Typed, CompileError> {
    match first_named(named, "i32"@) {
        None => Err(CompileError::UnknownType),
        Some(i) => if kind == IntegerType::Signed || (kind == IntegerType::Inferred && hint == Some(i)) {
            if value > 0x7fff_ffff {
                Err(CompileError::SignedOverflow)
            } else if len >= 0xffff_fff0 {
                Err(CompileError::Overflow)
            } else {
                Ok(Typed { expr: len as u32, ty: i })
            }
        } else {
            match first_named(named, "u32"@) {
                None => Err(CompileError::UnknownType),
                Some(u) => if len >= 0xffff_fff0 {
                    Err(CompileError::Overflow)
                } else {
                    Ok(Typed { expr: len as u32, ty: u })
                },
            }
        },
    }
}

/// Unsigned arithmetic on literals: literals not written signed, combined by
/// arithmetic, bitwise and shift operators.
pub open spec fn plain_arith(e: Expression) -> bool
    decreases e,
{
    match e {
        Expression::Integer { ty, .. } => ty != IntegerType::Signed,
        Expression::Binary { op, left, right } => (op == BinaryOperator::Add || op == BinaryOperator::Subtract
            || op == BinaryOperator::Multiply || op == BinaryOperator::Divide || op == BinaryOperator::Modulo
            || op == BinaryOperator::BitAnd || op == BinaryOperator::BitOr || op == BinaryOperator::BitXor
            || op == BinaryOperator::ShiftLeft || op == BinaryOperator::ShiftRight) && plain_arith(*left) && plain_arith(*right),
        _ => false,
    }
}

/// Conditions on unsigned arithmetic on literals: boolean literals,
/// comparisons of unsigned arithmetic on literals, and `&&` and `||` of
/// conditions.
pub open spec fn plain_bool(e: Expression) -> bool
    decreases e,
{
    match e {
        Expression::Bool(_) => true,
        Expression::Binary { op, left, right } => if op == BinaryOperator::LogicalAnd || op == BinaryOperator::LogicalOr {
            plain_bool(*left) && plain_bool(*right)
        } else {
            (op == BinaryOperator::Equal || op == BinaryOperator::NotEqual || op == BinaryOperator::Less
                || op == BinaryOperator::LessEqual || op == BinaryOperator::Greater || op == BinaryOperator::GreaterEqual)
                && plain_arith(*left) && plain_arith(*right)
        },
        _ => false,
    }
}

/// The expressions lowering a condition emits: one for each literal and
/// each operation, and for `&&` and `||` the local that holds the outcome
/// and its load.
pub open spec fn bool_size(e: Expression) -> nat
    decreases e,
{
    match e {
        Expression::Binary { op, left, right } => if op == BinaryOperator::LogicalAnd || op == BinaryOperator::LogicalOr {
            bool_size(*left) + bool_size(*right) + 2
        } else {
            1 + arith_size(*left) + arith_size(*right)
        },
        _ => 1,
    }
}

/// The locals lowering a condition declares: one for each `&&` and `||`.
pub open spec fn bool_locals(e: Expression) -> nat
    decreases e,
{
    match e {
        Expression::Binary { op, left, right } => if op == BinaryOperator::LogicalAnd || op == BinaryOperator::LogicalOr {
            bool_locals(*left) + bool_locals(*right) + 1
        } else {
            0
        },
        _ => 0,
    }
}

/// Whether lowering the condition `e`, where `hint` asks for a type, always
/// succeeds: `u32`, `i32` and `bool` are declared, `u32` and `i32` as two
/// types, `u32` a scalar; no other type than `bool` is asked for; the
/// function being lowered has an open block and room for every expression
/// and local.
spec fn bool_owed(c: Compiler, l: Lowering, e: Expression, hint: Option<u32>) -> bool {
    &&& plain_bool(e)
    &&& first_named(c.named@, "u32"@) is Some
    &&& first_named(c.named@, "i32"@) is Some
    &&& first_named(c.named@, "u32"@) != first_named(c.named@, "i32"@)
    &&& lanes_of(c.types@, first_named(c.named@, "u32"@)->0) is None
    &&& first_named(c.named@, "bool"@) is Some
    &&& (hint is None || hint == first_named(c.named@, "bool"@))
    &&& l.expressions@.len() + bool_size(e) <= 0xffff_fff0
    &&& l.locals@.len() + bool_locals(e) <= 0xffff_fff0
    &&& l.blocks@.len() > 0
}

/// The expressions lowering unsigned arithmetic on literals emits: one for
/// each literal and each operation.
pub open spec fn arith_size(e: Expression) -> nat
    decreases e,
{
    match e {
        Expression::Binary { left, right, .. } => 1 + arith_size(*left) + arith_size(*right),
        _ => 1,
    }
}

/// Whether lowering `e` as unsigned arithmetic on literals, where `hint` asks
/// for a type, always succeeds: `u32` and `i32` are declared as two types,
/// `u32` a scalar; no other type than `u32` is asked for; the function being
/// lowered has an open block and room for every expression.
spec fn arith_owed(c: Compiler, l: Lowering, e: Expression, hint: Option<u32>) -> bool {
    &&& plain_arith(e)
    &&& first_named(c.named@, "u32"@) is Some
    &&& first_named(c.named@, "i32"@) is Some
    &&& first_named(c.named@, "u32"@) != first_named(c.named@, "i32"@)
    &&& lanes_of(c.types@, first_named(c.named@, "u32"@)->0) is None
    &&& (hint is None || hint == first_named(c.named@, "u32"@))
    &&& l.expressions@.len() + arith_size(e) <= 0xffff_fff0
    &&& l.blocks@.len() > 0
}

/// The expressions lowering each of `a` as unsigned arithmetic on literals emits.
pub open spec fn args_size(a: Seq<Expression>) -> nat
    decreases a.len(),
{
    if a.len() == 0 {
        0
    } else {
        args_size(a.drop_last()) + arith_size(a.last())
    }
}

/// Whether lowering the arguments `a` of a call of a function whose
/// parameters have the types `params` always succeeds: as many arguments as
/// parameters, each unsigned arithmetic on literals passed to a `u32`
/// parameter, with room for every expression.
spec fn args_owed(c: Compiler, l: Lowering, a: Seq<Expression>, params: Seq<LoweredArgument>) -> bool {
    &&& a.len() == params.len()
    &&& forall|k: int| 0 <= k < a.len() ==> plain_arith(#[trigger] a[k])
        && Some(params[k].ty) == first_named(c.named@, "u32"@)
    &&& arith_owed(c, l, Expression::Integer { value: 0, ty: IntegerType::Unsigned }, None)
    &&& l.expressions@.len() + args_size(a) <= 0xffff_fff0
}

proof fn lemma_args_size_prefix(a: Seq<Expression>, i: int)
    requires
        0 <= i <= a.len(),
    ensures
        args_size(a.subrange(0, i)) <= args_size(a),
    decreases a.len() - i,
{
    if i < a.len() {
        lemma_args_size_prefix(a, i + 1);
        assert(a.subrange(0, i + 1).drop_last() =~= a.subrange(0, i));
    } else {
        assert(a.subrange(0, i) =~= a);
    }
}

/// Statements whose lowering succeeds in any open block: `break`,
/// `continue`, a return of nothing, a barrier, and loops and blocks of such
/// statements. They emit no expression.
pub open spec fn plain_stmt(s: Statement) -> bool
    decreases s,
{
    match s {
        Statement::Break | Statement::Continue | Statement::Return(None) => true,
        Statement::Expression(Expression::Call { name, arguments }) => (name@ == "workgroup_barrier"@
            || name@ == "storage_barrier"@) && arguments@.len() == 0,
        Statement::Loop(body) => forall|k: int| 0 <= k < body@.len() ==> plain_stmt(#[trigger] body@[k]),
        Statement::Block(body) => forall|k: int| 0 <= k < body@.len() ==> plain_stmt(#[trigger] body@[k]),
        _ => false,
    }
}

/// The statement a plain statement lowers to: itself for `break`, `continue`
/// and a return of nothing, a barrier of its kind for a barrier, and a loop
/// without continuing block or a block whose statements are, one for one, the
/// lowerings of the body.
pub open spec fn plain_lowered(s: Statement, x: Stmt) -> bool
    decreases s,
{
    match s {
        Statement::Break => x == Stmt::Break,
        Statement::Continue => x == Stmt::Continue,
        Statement::Return(v) => v is None && x == Stmt::Return(None),
        Statement::Expression(Expression::Call { name, .. }) => x == (Stmt::Barrier { storage: name@ == "storage_barrier"@ }),
        Statement::Loop(body) => (x matches Stmt::Loop { body: b, continuing: c, break_if: k } && c@.len() == 0 && k is None
            && b@.len() == body@.len() && forall|j: int| 0 <= j < body@.len() ==> plain_lowered(#[trigger] body@[j], b@[j])),
        Statement::Block(body) => (x matches Stmt::Block(b) && b@.len() == body@.len()
            && forall|j: int| 0 <= j < body@.len() ==> plain_lowered(#[trigger] body@[j], b@[j])),
        _ => false,
    }
}

/// Whether the types conditions are lowered with are declared: `u32`, `i32`
/// and `bool`, `u32` and `i32` as two types, `u32` a scalar.
spec fn conditions_typed(c: Compiler) -> bool {
    &&& first_named(c.named@, "u32"@) is Some
    &&& first_named(c.named@, "i32"@) is Some
    &&& first_named(c.named@, "u32"@) != first_named(c.named@, "i32"@)
    &&& lanes_of(c.types@, first_named(c.named@, "u32"@)->0) is None
    &&& first_named(c.named@, "bool"@) is Some
}

/// Plain statements, and conditionals on a condition of unsigned arithmetic
/// on literals whose branches are plain.
pub open spec fn simple_stmt(s: Statement) -> bool {
    ||| plain_stmt(s)
    ||| (s matches Statement::If { condition, accept, reject } && plain_bool(condition)
        && (forall|k: int| 0 <= k < accept@.len() ==> plain_stmt(#[trigger] accept@[k]))
        && (forall|k: int| 0 <= k < reject@.len() ==> plain_stmt(#[trigger] reject@[k])))
}

/// The expressions lowering a simple statement emits.
pub open spec fn stmt_size(s: Statement) -> nat {
    match s {
        Statement::If { condition, .. } => if plain_stmt(s) { 0 } else { bool_size(condition) },
        _ => 0,
    }
}

/// The locals lowering a simple statement declares.
pub open spec fn stmt_locals(s: Statement) -> nat {
    match s {
        Statement::If { condition, .. } => if plain_stmt(s) { 0 } else { bool_locals(condition) },
        _ => 0,
    }
}

/// The expressions lowering a body of simple statements emits.
pub open spec fn body_size(b: Seq<Statement>) -> nat
    decreases b.len(),
{
    if b.len() == 0 {
        0
    } else {
        body_size(b.drop_last()) + stmt_size(b.last())
    }
}

/// The locals lowering a body of simple statements declares.
pub open spec fn body_locals(b: Seq<Statement>) -> nat
    decreases b.len(),
{
    if b.len() == 0 {
        0
    } else {
        body_locals(b.drop_last()) + stmt_locals(b.last())
    }
}

proof fn lemma_body_size_prefix(b: Seq<Statement>, i: int)
    requires
        0 <= i <= b.len(),
    ensures
        body_size(b.subrange(0, i)) + stmt_size_from(b, i) == body_size(b),
        body_locals(b.subrange(0, i)) + stmt_locals_from(b, i) == body_locals(b),
    decreases b.len() - i,
{
    if i < b.len() {
        lemma_body_size_prefix(b, i + 1);
        assert(b.subrange(0, i + 1).drop_last() =~= b.subrange(0, i));
        assert(b.subrange(0, i + 1).last() == b[i]);
    } else {
        assert(b.subrange(0, i) =~= b);
    }
}

/// The expressions the statements of `b` from `i` on emit.
spec fn stmt_size_from(b: Seq<Statement>, i: int) -> nat
    decreases b.len() - i,
{
    if i >= b.len() {
        0
    } else {
        stmt_size(b[i]) + stmt_size_from(b, i + 1)
    }
}

/// The locals the statements of `b` from `i` on declare.
spec fn stmt_locals_from(b: Seq<Statement>, i: int) -> nat
    decreases b.len() - i,
{
    if i >= b.len() {
        0
    } else {
        stmt_locals(b[i]) + stmt_locals_from(b, i + 1)
    }
}

/// What declaring the register array `name` from `arguments` comes to: a
/// refusal unless it is mutable and given a value and a length; where the
/// value is unsigned arithmetic on literals, the refusal of its length, or a
/// refusal of a length of zero, and success where the innermost scope does
/// not bind the name and there is room for a local and an expression for each
/// register.
spec fn registers_ok(c: Compiler, l: Lowering, name: Seq<char>, mutable: bool, arguments: Seq<Expression>,
    r: Result<(), CompileError>) -> bool {
    if !mutable || arguments.len() != 2 {
        r == Err::<(), CompileError>(CompileError::RegisterArray)
    } else if arith_owed(c, l, arguments[0], None) {
        match constant_value(arguments[1], c.constants_view()) {
            Err(e) => r == Err::<(), CompileError>(e),
            Ok(n) => if n == 0 {
                r == Err::<(), CompileError>(CompileError::RegisterArray)
            } else {
                (l.scopes@.len() > 0
                    && !(exists|j: int| 0 <= j < l.scopes@.last()@.len() && (#[trigger] l.scopes@.last()@[j]).0@ == name)
                    && l.locals@.len() + n <= 0xffff_fff0
                    && l.expressions@.len() + arith_size(arguments[0]) + n <= 0xffff_fff0) ==> r is Ok
            },
        }
    } else {
        true
    }
}

/// Whether an assignment of `value` to `place` always lowers: the place
/// names a mutable local in scope, the value is unsigned arithmetic on
/// literals of the local's type, and there is room for the value, the load of
/// the local and the operation of a compound assignment.
spec fn assign_owed(c: Compiler, l: Lowering, place: Expression, value: Expression) -> bool {
    &&& place matches Expression::Name(n)
    &&& scopes_binding(l.scopes@, place->Name_0@, l.scopes@.len() as int) matches Some(Symbol::Local(t))
    &&& arith_owed(c, l, value, Some(scopes_binding(l.scopes@, place->Name_0@, l.scopes@.len() as int)->0->Local_0.ty))
    &&& l.expressions@.len() + arith_size(value) + 2 <= 0xffff_fff0
}

/// Whether a match on `selector` with `arms` lowers whenever it has a default
/// arm: the selector is unsigned arithmetic on literals, each arm matches a
/// literal or is the default, and each arm's body is made of plain statements.
spec fn matching_owed(c: Compiler, l: Lowering, selector: Expression, arms: Seq<Arm>) -> bool {
    &&& arith_owed(c, l, selector, None)
    &&& forall|k: int| 0 <= k < arms.len() ==> ((#[trigger] arms[k]).pattern is Default || arms[k].pattern is Integer)
        && forall|j: int| 0 <= j < arms[k].body@.len() ==> plain_stmt(#[trigger] arms[k].body@[j])
}

/// Whether an expression names a value at hand, emitted without a statement
/// of its own.
pub open spec fn immediate(e: Expr) -> bool {
    e is Literal || e is ZeroValue || e is FunctionArgument || e is LocalVariable || e is GlobalVariable || e is CallResult
}

/// `l2` has the blocks `l1` has open: the outer ones as they were, the
/// innermost one extended at its end.
spec fn frames_kept(l1: Lowering, l2: Lowering) -> bool {
    &&& l2.blocks@.len() == l1.blocks@.len()
    &&& forall|k: int| 0 <= k < l1.blocks@.len() - 1 ==> #[trigger] l2.blocks@[k] == l1.blocks@[k]
    &&& l1.blocks@.len() > 0 ==> {
        &&& l1.blocks@.last()@.len() <= l2.blocks@.last()@.len()
        &&& forall|j: int| 0 <= j < l1.blocks@.last()@.len() ==> #[trigger] l2.blocks@.last()@[j] == l1.blocks@.last()@[j]
    }
}

/// How the block a statement is lowered into ends: with a `break`, a
/// `continue` or a `return` of a value where the statement returns one, with
/// a conditional for an `if`, a loop for a `while`, a `loop` or a counted loop
/// that is not unrolled, a block for a block, a switch with a case for each
/// arm for a `match`, a store for an assignment, an atomic store or the
/// declaration of a mutable name, and a barrier of its kind for a barrier. The bodies of a
/// conditional, a loop, a block and the cases of a switch end in turn as the
/// bodies they are lowered from.
pub open spec fn statement_ends(s: Statement, b: Seq<Stmt>) -> bool
    decreases s,
{
    match s {
        Statement::Break => b.len() > 0 && b.last() == Stmt::Break,
        Statement::Continue => b.len() > 0 && b.last() == Stmt::Continue,
        Statement::Return(value) => b.len() > 0 && (b.last() matches Stmt::Return(v) && (v is Some <==> value is Some)),
        Statement::If { accept, reject, .. } => b.len() > 0 && (b.last() matches Stmt::If { accept: a, reject: r, .. }
            && (accept@.len() > 0 ==> statement_ends(accept@[accept@.len() - 1], a@))
            && (reject@.len() > 0 ==> statement_ends(reject@[reject@.len() - 1], r@))),
        Statement::While { body, .. } | Statement::Loop(body) => b.len() > 0 && (b.last() matches Stmt::Loop { body: l, .. }
            && (body@.len() > 0 ==> statement_ends(body@[body@.len() - 1], l@))),
        Statement::For { unroll, body, .. } => !unroll ==> b.len() > 0 && (b.last() matches Stmt::Loop { body: l, .. }
            && (body@.len() > 0 ==> statement_ends(body@[body@.len() - 1], l@))),
        Statement::Block(body) => b.len() > 0 && (b.last() matches Stmt::Block(l)
            && (body@.len() > 0 ==> statement_ends(body@[body@.len() - 1], l@))),
        Statement::Match { arms, .. } => b.len() > 0 && (b.last() matches Stmt::Switch { cases, .. } && cases@.len() == arms@.len()
            && forall|k: int| 0 <= k < arms@.len() && arms@[k].body@.len() > 0
                ==> statement_ends(#[trigger] arms@[k].body@[arms@[k].body@.len() - 1], cases@[k].body@)),
        Statement::Assign { .. } => b.len() > 0 && b.last() is Store,
        Statement::Let { mutable, .. } => mutable ==> b.len() > 0 && b.last() is Store,
        Statement::Expression(Expression::Call { name, .. }) => if name@ == "workgroup_barrier"@ || name@ == "storage_barrier"@ {
            b.len() > 0 && b.last() == (Stmt::Barrier { storage: name@ == "storage_barrier"@ })
        } else if name@ == "atomic_store"@ {
            b.len() > 0 && b.last() is Store
        } else {
            true
        },
        _ => true,
    }
}

/// A statement alike in every part to another ends its lowering as the other does.
proof fn lemma_same_ends(a: Statement, b: Statement, x: Seq<Stmt>)
    requires
        crate::ir::stmt_same(a, b),
        statement_ends(b, x),
    ensures
        statement_ends(a, x),
    decreases a,
{
    match a {
        Statement::If { accept, reject, .. } => {
            if let Statement::If { accept: p, reject: q, .. } = b {
                if let Stmt::If { accept: l, reject: m, .. } = x.last() {
                    if accept@.len() > 0 {
                        lemma_same_ends(accept@[accept@.len() - 1], p@[p@.len() - 1], l@);
                    }
                    if reject@.len() > 0 {
                        lemma_same_ends(reject@[reject@.len() - 1], q@[q@.len() - 1], m@);
                    }
                }
            }
        },
        Statement::While { body, .. } | Statement::Loop(body) | Statement::Block(body) => {
            let other = match b {
                Statement::While { body: p, .. } | Statement::Loop(p) | Statement::Block(p) => p@,
                _ => Seq::empty(),
            };
            let inner = match x.last() {
                Stmt::Loop { body: l, .. } | Stmt::Block(l) => l@,
                _ => Seq::empty(),
            };
            if body@.len() > 0 {
                lemma_same_ends(body@[body@.len() - 1], other[other.len() - 1], inner);
            }
        },
        Statement::For { unroll, body, .. } => {
            if let Statement::For { body: p, .. } = b {
                if let Stmt::Loop { body: l, .. } = x.last() {
                    if !unroll && body@.len() > 0 {
                        lemma_same_ends(body@[body@.len() - 1], p@[p@.len() - 1], l@);
                    }
                }
            }
        },
        Statement::Match { arms, .. } => {
            if let Statement::Match { arms: p, .. } = b {
                if let Stmt::Switch { cases, .. } = x.last() {
                    assert forall|k: int| 0 <= k < arms@.len() && arms@[k].body@.len() > 0
                        implies statement_ends(#[trigger] arms@[k].body@[arms@[k].body@.len() - 1], cases@[k].body@) by {
                        let n = arms@[k].body@.len() - 1;
                        assert(crate::ir::stmt_same(arms@[k].body@[n], p@[k].body@[n]));
                        lemma_same_ends(arms@[k].body@[n], p@[k].body@[n], cases@[k].body@);
                    }
                }
            }
        },
        _ => {},
    }
}

/// How often a counted loop from `first` below `limit` by `step` runs its
/// body: until the index reaches the limit, or would leave the range of `u32`.
pub open spec fn unrolled(first: u32, limit: u32, step: u32) -> nat
    decreases u32::MAX - first,
{
    if step == 0 || first >= limit {
        0
    } else if first + step > u32::MAX {
        1
    } else {
        1 + unrolled((first + step) as u32, limit, step)
    }
}

/// Where `s` is a counted loop to unroll, whose bounds are constant
/// expressions over `constants`: `after` extends `before` by a block for each
/// time the loop runs its body.
pub open spec fn unrolled_into(s: Statement, constants: Seq<(String, u32)>, before: Seq<Stmt>, after: Seq<Stmt>) -> bool {
    match s {
        Statement::For { start, end, step, unroll, .. } => unroll ==> match (
            constant_value(start, constants),
            constant_value(end, constants),
            constant_value(step, constants),
        ) {
            (Ok(f), Ok(l), Ok(st)) => {
                &&& after.len() == before.len() + unrolled(f, l, st)
                &&& forall|j: int| before.len() <= j < after.len() ==> #[trigger] after[j] is Block
            },
            _ => false,
        },
        _ => true,
    }
}

/// `l2` holds all that `l1` emitted.
spec fn kept(l1: Lowering, l2: Lowering) -> bool {
    &&& l1.arity == l2.arity
    &&& l1.expressions@.len() <= l2.expressions@.len()
    &&& forall|i: int| 0 <= i < l1.expressions@.len() ==> #[trigger] l2.expressions@[i] == l1.expressions@[i]
    &&& l1.locals@.len() <= l2.locals@.len()
}

proof fn lemma_lowering_grows(l: Lowering, b1: Bounds, b2: Bounds)
    requires
        lowering_ok(l, b1),
        within(b1, b2),
    ensures
        lowering_ok(l, b2),
{
    assert forall|k: int| 0 <= k < l.blocks@.len() implies body_fits(#[trigger] l.blocks@[k]@, l.expressions@.len(), b2.arities.len(), b2.arities) by {
        lemma_body_grows(l.blocks@[k]@, l.expressions@.len(), l.expressions@.len(), b1.arities.len(), b2.arities.len(), b1.arities, b2.arities);
    }
    assert forall|k: int, j: int| 0 <= k < l.scopes@.len() && 0 <= j < l.scopes@[k]@.len() implies symbol_ok(
        #[trigger] l.scopes@[k]@[j].1,
        l.expressions@.len(),
        b2,
    ) by {
        let sym = l.scopes@[k]@[j].1;
        assert(symbol_ok(sym, l.expressions@.len(), b1));
        match sym {
            Symbol::Array(registers) => {
                assert forall|q: int| 0 <= q < registers@.len() implies typed_ok(#[trigger] registers@[q], l.expressions@.len(), b2) by {
                    assert(typed_ok(registers@[q], l.expressions@.len(), b1));
                }
            },
            _ => {},
        }
    }
}

/// A function being lowered: what it has emitted so far, the names in scope
/// from the outermost block in, and the statements of each open block.
struct Lowering {
    arity: usize,
    locals: Vec<Local>,
    expressions: Vec<Expr>,
    scopes: Vec<Vec<(String, Symbol)>>,
    blocks: Vec<Vec<Stmt>>,
}

fn is_named(name: &str, word: &str) -> (r: bool)
    ensures
        r == (name@ == word@),
{
    name.to_owned() == word.to_owned()
}

/// The builtin an entry argument of this name receives.
pub open spec fn entry_builtin(name: Seq<char>) -> Option<Builtin> {
    if name == "lid"@ {
        Some(Builtin::LocalInvocationIndex)
    } else if name == "group"@ {
        Some(Builtin::WorkGroupId)
    } else if name == "global"@ {
        Some(Builtin::GlobalInvocationId)
    } else {
        None
    }
}

/// `lowered` keeps the name of `source` and its arguments' names, in order;
/// an entry's arguments receive the builtins their names ask for, another
/// function's none.
pub open spec fn signature_kept(source: Function, lowered: LoweredFunction, entry: bool) -> bool {
    &&& lowered.name@ == source.name@
    &&& lowered.arguments@.len() == source.arguments@.len()
    &&& forall|k: int| 0 <= k < lowered.arguments@.len() ==> {
        &&& (#[trigger] lowered.arguments@[k]).name@ == source.arguments@[k].name@
        &&& lowered.arguments@[k].binding == if entry { entry_builtin(source.arguments@[k].name@) } else { None::<Builtin> }
    }
}

/// The decimal digit `d` stands for, where `d` is below ten, and nine otherwise.
pub open spec fn digit_text(d: u32) -> Seq<char> {
    if d == 0 {
        seq!['0']
    } else if d == 1 {
        seq!['1']
    } else if d == 2 {
        seq!['2']
    } else if d == 3 {
        seq!['3']
    } else if d == 4 {
        seq!['4']
    } else if d == 5 {
        seq!['5']
    } else if d == 6 {
        seq!['6']
    } else if d == 7 {
        seq!['7']
    } else if d == 8 {
        seq!['8']
    } else {
        seq!['9']
    }
}

/// The decimal digits of `n`, the lowest first.
pub open spec fn digits_of(n: u32) -> Seq<u32>
    decreases n,
{
    if n < 10 {
        seq![n]
    } else {
        seq![n % 10] + digits_of(n / 10)
    }
}

/// Digits, the lowest first, spelled with the highest first.
pub open spec fn spelled(ds: Seq<u32>) -> Seq<char>
    decreases ds.len(),
{
    if ds.len() == 0 {
        Seq::empty()
    } else {
        spelled(ds.drop_first()) + digit_text(ds[0])
    }
}

fn digit(d: u32) -> (r: &'static str)
    ensures
        r@ == digit_text(d),
{
    if d == 0 {
        proof { reveal_strlit("0"); }
        "0"
    } else if d == 1 {
        proof { reveal_strlit("1"); }
        "1"
    } else if d == 2 {
        proof { reveal_strlit("2"); }
        "2"
    } else if d == 3 {
        proof { reveal_strlit("3"); }
        "3"
    } else if d == 4 {
        proof { reveal_strlit("4"); }
        "4"
    } else if d == 5 {
        proof { reveal_strlit("5"); }
        "5"
    } else if d == 6 {
        proof { reveal_strlit("6"); }
        "6"
    } else if d == 7 {
        proof { reveal_strlit("7"); }
        "7"
    } else if d == 8 {
        proof { reveal_strlit("8"); }
        "8"
    } else {
        proof { reveal_strlit("9"); }
        "9"
    }
}

/// `name`, an underscore, and `index` in decimal.
fn register_name(name: &str, index: u32) -> (r: String)
    ensures
        r@ == name@ + seq!['_'] + spelled(digits_of(index)),
{
    let mut digits: Vec<u32> = Vec::new();
    let mut rest = index;
    loop
        invariant_except_break
            digits@ + digits_of(rest) == digits_of(index),
        ensures
            digits@ == digits_of(index),
        decreases rest,
    {
        proof {
            if rest >= 10 {
                assert(digits@.push(rest % 10) + digits_of(rest / 10) =~= digits@ + digits_of(rest));
            } else {
                assert(digits@.push(rest % 10) =~= digits@ + digits_of(rest));
            }
        }
        digits.push(rest % 10);
        rest = rest / 10;
        if rest == 0 {
            break;
        }
    }
    let mut out = name.to_owned();
    proof {
        reveal_strlit("_");
    }
    out.append("_");
    let mut i = digits.len();
    proof {
        assert(digits@.subrange(i as int, digits@.len() as int) =~= Seq::<u32>::empty());
        assert(out@ == name@ + seq!['_'] + spelled(digits@.subrange(i as int, digits@.len() as int)));
    }
    while i > 0
        invariant
            i <= digits.len(),
            out@ == name@ + seq!['_'] + spelled(digits@.subrange(i as int, digits@.len() as int)),
        decreases i,
    {
        i -= 1;
        let ghost before = out@;
        out.append(digit(digits[i]));
        proof {
            let tail = digits@.subrange(i as int, digits@.len() as int);
            assert(tail.drop_first() =~= digits@.subrange(i + 1, digits@.len() as int));
            assert(tail[0] == digits@[i as int]);
            assert(out@ =~= name@ + seq!['_'] + spelled(tail));
        }
    }
    proof {
        assert(digits@.subrange(0, digits@.len() as int) =~= digits@);
    }
    out
}

impl Lowering {
    fn push(&mut self, statement: Stmt, Ghost(b): Ghost<Bounds>) -> (r: Result<(), CompileError>)
        requires
            lowering_ok(*old(self), b),
            stmt_fits(statement, old(self).expressions@.len(), b.arities.len(), b.arities),
        ensures
            r matches Err(e) ==> lowering_refusal(e),
            lowering_ok(*final(self), b),
            final(self).expressions@ == old(self).expressions@,
            final(self).locals@ == old(self).locals@,
            final(self).scopes@ == old(self).scopes@,
            final(self).arity == old(self).arity,
            r is Ok <==> old(self).blocks@.len() > 0,
            r is Ok ==> frames_kept(*old(self), *final(self)),
            r is Ok ==> final(self).blocks@.len() == old(self).blocks@.len()
                && final(self).blocks@.last()@ == old(self).blocks@.last()@.push(statement)
                && forall|k: int| 0 <= k < final(self).blocks@.len() - 1 ==> #[trigger] final(self).blocks@[k] == old(self).blocks@[k],
    {
        let ghost before = self.blocks@;
        let mut block = match self.blocks.pop() {
            Some(b) => b,
            None => return Err(CompileError::Malformed),
        };
        proof {
            assert(self.blocks@ == before.drop_last());
            assert(body_fits(before[before.len() - 1]@, self.expressions@.len(), b.arities.len(), b.arities));
            lemma_body_push(block@, statement, self.expressions@.len(), b.arities.len(), b.arities);
        }
        block.push(statement);
        self.blocks.push(block);
        proof {
            assert forall|k: int| 0 <= k < self.blocks@.len() implies body_fits(#[trigger] self.blocks@[k]@, self.expressions@.len(), b.arities.len(), b.arities) by {
                if k < before.len() - 1 {
                    assert(self.blocks@[k] == before[k]);
                }
            }
        }
        Ok(())
    }

    fn emit(&mut self, expression: Expr, ty: u32, Ghost(b): Ghost<Bounds>) -> (r: Result<Typed, CompileError>)
        requires
            lowering_ok(*old(self), b),
            expr_wf(expression, old(self).expressions@.len() as int, b.arity, old(self).locals@.len(), b.globals, b.types, b.arities.len()),
            ty < b.types,
        ensures
            r matches Err(e) ==> lowering_refusal(e),
            lowering_ok(*final(self), b),
            kept(*old(self), *final(self)),
            final(self).locals@ == old(self).locals@,
            r matches Ok(t) ==> t.expr == old(self).expressions@.len() && t.ty == ty && typed_ok(t, final(self).expressions@.len() as nat, b),
            r is Ok ==> final(self).expressions@ == old(self).expressions@.push(expression),
            r is Ok ==> frames_kept(*old(self), *final(self)),
            old(self).expressions@.len() >= 0xffff_fff0 ==> r == Err::<Typed, CompileError>(CompileError::Overflow),
            old(self).expressions@.len() < 0xffff_fff0 && (immediate(expression) || old(self).blocks@.len() > 0) ==> r is Ok,
            r is Ok && !immediate(expression) ==> final(self).blocks@.last()@.last() == (Stmt::Emit {
                start: old(self).expressions@.len() as u32,
                end: (old(self).expressions@.len() + 1) as u32,
            }),
            r is Ok && immediate(expression) ==> final(self).blocks@ == old(self).blocks@,
            final(self).scopes@ == old(self).scopes@,
    {
        let immediate = match &expression {
            Expr::Literal(_) | Expr::ZeroValue(_) | Expr::FunctionArgument(_) | Expr::LocalVariable(_)
            | Expr::GlobalVariable(_) | Expr::CallResult(_) => true,
            _ => false,
        };
        if self.expressions.len() >= 0xffff_fff0 {
            return Err(CompileError::Overflow);
        }
        let start = self.expressions.len() as u32;
        let ghost before = *self;
        self.expressions.push(expression);
        proof {
            let len = self.expressions@.len();
            assert forall|i: int| 0 <= i < len implies expr_wf(
                #[trigger] self.expressions@[i],
                i,
                b.arity,
                self.locals@.len(),
                b.globals,
                b.types,
                b.arities.len(),
            ) by {
                if i < len - 1 {
                    assert(self.expressions@[i] == before.expressions@[i]);
                }
            }
            assert forall|k: int| 0 <= k < self.blocks@.len() implies body_fits(#[trigger] self.blocks@[k]@, len, b.arities.len(), b.arities) by {
                lemma_body_grows(self.blocks@[k]@, before.expressions@.len(), len, b.arities.len(), b.arities.len(), b.arities, b.arities);
            }
            assert forall|k: int, j: int| 0 <= k < self.scopes@.len() && 0 <= j < self.scopes@[k]@.len() implies symbol_ok(
                #[trigger] self.scopes@[k]@[j].1,
                len,
                b,
            ) by {
                let sym = self.scopes@[k]@[j].1;
                assert(symbol_ok(sym, before.expressions@.len(), b));
                match sym {
                    Symbol::Array(registers) => {
                        assert forall|q: int| 0 <= q < registers@.len() implies typed_ok(#[trigger] registers@[q], len, b) by {
                            assert(typed_ok(registers@[q], before.expressions@.len(), b));
                        }
                    },
                    _ => {},
                }
            }
        }
        if !immediate {
            self.push(Stmt::Emit { start, end: start + 1 }, Ghost(b))?;
        }
        Ok(Typed { expr: start, ty })
    }

    fn local(&mut self, name: Option<String>, ty: u32, Ghost(b): Ghost<Bounds>) -> (r: Result<u32, CompileError>)
        requires
            lowering_ok(*old(self), b),
            ty < b.types,
        ensures
            r matches Err(e) ==> lowering_refusal(e),
            lowering_ok(*final(self), b),
            kept(*old(self), *final(self)),
            final(self).expressions@ == old(self).expressions@,
            final(self).scopes@ == old(self).scopes@,
            final(self).blocks@ == old(self).blocks@,
            r matches Ok(i) ==> i == old(self).locals@.len() && final(self).locals@ == old(self).locals@.push(Local { name, ty }),
            r is Err <==> old(self).locals@.len() >= 0xffff_fff0,
    {
        if self.locals.len() >= 0xffff_fff0 {
            return Err(CompileError::Overflow);
        }
        let ghost before = *self;
        self.locals.push(Local { name, ty });
        proof {
            assert forall|i: int| 0 <= i < self.locals@.len() implies #[trigger] self.locals@[i].ty < b.types by {
                if i < before.locals@.len() {
                    assert(self.locals@[i] == before.locals@[i]);
                }
            }
            assert forall|i: int| 0 <= i < self.expressions@.len() implies expr_wf(
                #[trigger] self.expressions@[i],
                i,
                b.arity,
                self.locals@.len(),
                b.globals,
                b.types,
                b.arities.len(),
            ) by {
                assert(expr_wf(before.expressions@[i], i, b.arity, before.locals@.len(), b.globals, b.types, b.arities.len()));
            }
        }
        Ok((self.locals.len() - 1) as u32)
    }

    fn open(&mut self, Ghost(b): Ghost<Bounds>)
        requires
            lowering_ok(*old(self), b),
        ensures
            lowering_ok(*final(self), b),
            kept(*old(self), *final(self)),
            final(self).expressions@ == old(self).expressions@,
            final(self).locals@ == old(self).locals@,
            final(self).blocks@.len() == old(self).blocks@.len() + 1,
            forall|k: int| 0 <= k < old(self).blocks@.len() ==> #[trigger] final(self).blocks@[k] == old(self).blocks@[k],
            final(self).blocks@.last()@.len() == 0,
            final(self).scopes@.len() == old(self).scopes@.len() + 1,
            final(self).scopes@.drop_last() == old(self).scopes@,
    {
        let ghost before = *self;
        self.scopes.push(Vec::new());
        self.blocks.push(Vec::new());
        proof {
            assert forall|k: int| 0 <= k < self.blocks@.len() implies body_fits(#[trigger] self.blocks@[k]@, self.expressions@.len(), b.arities.len(), b.arities) by {
                if k < before.blocks@.len() {
                    assert(self.blocks@[k] == before.blocks@[k]);
                }
            }
            assert forall|k: int, j: int| 0 <= k < self.scopes@.len() && 0 <= j < self.scopes@[k]@.len() implies symbol_ok(
                #[trigger] self.scopes@[k]@[j].1,
                self.expressions@.len(),
                b,
            ) by {
                assert(k < before.scopes@.len());
                assert(self.scopes@[k] == before.scopes@[k]);
            }
        }
    }

    fn close(&mut self, Ghost(b): Ghost<Bounds>) -> (r: Result<Vec<Stmt>, CompileError>)
        requires
            lowering_ok(*old(self), b),
        ensures
            r matches Err(e) ==> lowering_refusal(e),
            lowering_ok(*final(self), b),
            kept(*old(self), *final(self)),
            final(self).expressions@ == old(self).expressions@,
            final(self).locals@ == old(self).locals@,
            r matches Ok(body) ==> body_fits(body@, final(self).expressions@.len(), b.arities.len(), b.arities),
            r matches Ok(body) ==> old(self).blocks@.len() > 0 && body == old(self).blocks@.last()
                && final(self).blocks@ == old(self).blocks@.drop_last(),
            r is Ok <==> old(self).scopes@.len() > 0 && old(self).blocks@.len() > 0,
            r is Ok ==> final(self).scopes@ == old(self).scopes@.drop_last(),
    {
        let ghost before = *self;
        match self.scopes.pop() {
            Some(_) => {},
            None => return Err(CompileError::Malformed),
        }
        proof {
            assert forall|k: int, j: int| 0 <= k < self.scopes@.len() && 0 <= j < self.scopes@[k]@.len() implies symbol_ok(
                #[trigger] self.scopes@[k]@[j].1,
                self.expressions@.len(),
                b,
            ) by {
                assert(self.scopes@[k] == before.scopes@[k]);
            }
        }
        let ghost middle = *self;
        match self.blocks.pop() {
            Some(body) => {
                proof {
                    assert(body == middle.blocks@[middle.blocks@.len() - 1]);
                    assert forall|k: int| 0 <= k < self.blocks@.len() implies body_fits(#[trigger] self.blocks@[k]@, self.expressions@.len(), b.arities.len(), b.arities) by {
                        assert(self.blocks@[k] == middle.blocks@[k]);
                    }
                }
                Ok(body)
            },
            None => Err(CompileError::Malformed),
        }
    }

    /// Binds `name` in the innermost scope; a name is bound once in a scope.
    fn bind(&mut self, name: &str, symbol: Symbol, Ghost(b): Ghost<Bounds>) -> (r: Result<(), CompileError>)
        requires
            lowering_ok(*old(self), b),
            symbol_ok(symbol, old(self).expressions@.len(), b),
        ensures
            r matches Err(e) ==> lowering_refusal(e),
            lowering_ok(*final(self), b),
            kept(*old(self), *final(self)),
            final(self).expressions@ == old(self).expressions@,
            final(self).locals@ == old(self).locals@,
            final(self).blocks@ == old(self).blocks@,
            old(self).scopes@.len() == 0 ==> r == Err::<(), CompileError>(CompileError::Malformed),
            old(self).scopes@.len() > 0 ==> ((r == Err::<(), CompileError>(CompileError::DuplicateName))
                <==> exists|j: int| 0 <= j < old(self).scopes@.last()@.len() && (#[trigger] old(self).scopes@.last()@[j]).0@ == name@),
            old(self).scopes@.len() > 0 && r is Err ==> final(self).scopes@ == old(self).scopes@,
            r is Err ==> r == Err::<(), CompileError>(CompileError::DuplicateName)
                || (r == Err::<(), CompileError>(CompileError::Malformed) && old(self).scopes@.len() == 0),
            r is Ok ==> {
                &&& final(self).scopes@.len() == old(self).scopes@.len()
                &&& final(self).scopes@.last()@.len() == old(self).scopes@.last()@.len() + 1
                &&& final(self).scopes@.last()@.last().0@ == name@
                &&& final(self).scopes@.last()@.last().1 == symbol
                &&& forall|j: int| 0 <= j < old(self).scopes@.last()@.len() ==> #[trigger] final(self).scopes@.last()@[j] == old(self).scopes@.last()@[j]
                &&& forall|k: int| 0 <= k < final(self).scopes@.len() - 1 ==> #[trigger] final(self).scopes@[k] == old(self).scopes@[k]
            },
    {
        let wanted = name.to_owned();
        let ghost before = *self;
        let mut scope = match self.scopes.pop() {
            Some(s) => s,
            None => return Err(CompileError::Malformed),
        };
        proof {
            assert(scope == before.scopes@[before.scopes@.len() - 1]);
        }
        let mut j: usize = 0;
        while j < scope.len()
            invariant
                j <= scope.len(),
                self.scopes@ == before.scopes@.drop_last(),
                scope == before.scopes@[before.scopes@.len() - 1],
                before.scopes@.len() > 0,
                before == *old(self),
                lowering_ok(before, b),
                self.expressions@ == before.expressions@,
                self.locals@ == before.locals@,
                self.blocks@ == before.blocks@,
                self.arity == before.arity,
                wanted@ == name@,
                forall|q: int| 0 <= q < j ==> (#[trigger] scope@[q]).0@ != name@,
            decreases scope.len() - j,
        {
            if scope[j].0 == wanted {
                self.scopes.push(scope);
                proof {
                    assert(self.scopes@ =~= before.scopes@);
                }
                return Err(CompileError::DuplicateName);
            }
            j += 1;
        }
        let ghost old_scope = scope@;
        scope.push((wanted, symbol));
        self.scopes.push(scope);
        proof {
            assert forall|k: int, q: int| 0 <= k < self.scopes@.len() && 0 <= q < self.scopes@[k]@.len() implies symbol_ok(
                #[trigger] self.scopes@[k]@[q].1,
                self.expressions@.len(),
                b,
            ) by {
                if k < self.scopes@.len() - 1 {
                    assert(self.scopes@[k] == before.scopes@[k]);
                } else if q < old_scope.len() {
                    assert(self.scopes@[k]@[q] == old_scope[q]);
                    assert(old_scope[q] == before.scopes@[before.scopes@.len() - 1]@[q]);
                }
            }
        }
        Ok(())
    }

    /// What `name` stands for in the innermost scope that binds it.
    fn symbol(&self, name: &str, Ghost(b): Ghost<Bounds>) -> (r: Option<Symbol>)
        requires
            lowering_ok(*self, b),
        ensures
            r matches Some(sym) ==> symbol_ok(sym, self.expressions@.len(), b),
            match scopes_binding(self.scopes@, name@, self.scopes@.len() as int) {
                Some(sym) => r matches Some(found) && same_symbol(sym, found),
                None => r is None,
            },
    {
        let wanted = name.to_owned();
        let mut i = self.scopes.len();
        while i > 0
            invariant
                i <= self.scopes.len(),
                lowering_ok(*self, b),
                wanted@ == name@,
                scopes_binding(self.scopes@, name@, self.scopes@.len() as int) == scopes_binding(self.scopes@, name@, i as int),
            decreases i,
        {
            i -= 1;
            let scope = &self.scopes[i];
            let mut j: usize = 0;
            while j < scope.len()
                invariant
                    j <= scope.len(),
                    i < self.scopes.len(),
                    scope == &self.scopes[i as int],
                    lowering_ok(*self, b),
                    wanted@ == name@,
                    scope_binding(scope@, name@, 0) == scope_binding(scope@, name@, j as int),
                    scopes_binding(self.scopes@, name@, self.scopes@.len() as int) == scopes_binding(self.scopes@, name@, i + 1),
                decreases scope.len() - j,
            {
                if scope[j].0 == wanted {
                    let found = scope[j].1.copy();
                    proof {
                        let sym = self.scopes@[i as int]@[j as int].1;
                        assert(symbol_ok(sym, self.expressions@.len(), b));
                        match sym {
                            Symbol::Array(registers) => {
                                assert forall|q: int| 0 <= q < found->Array_0@.len() implies typed_ok(#[trigger] found->Array_0@[q], self.expressions@.len(), b) by {
                                    assert(typed_ok(registers@[q], self.expressions@.len(), b));
                                }
                            },
                            _ => {},
                        }
                    }
                    return Some(found);
                }
                j += 1;
            }
        }
        None
    }
}

/// The operation a source operator lowers to.
pub open spec fn operator_of(op: BinaryOperator) -> BinaryOp {
    match op {
        BinaryOperator::Add => BinaryOp::Add,
        BinaryOperator::Subtract => BinaryOp::Subtract,
        BinaryOperator::Multiply => BinaryOp::Multiply,
        BinaryOperator::Divide => BinaryOp::Divide,
        BinaryOperator::Modulo => BinaryOp::Modulo,
        BinaryOperator::Equal => BinaryOp::Equal,
        BinaryOperator::NotEqual => BinaryOp::NotEqual,
        BinaryOperator::Less => BinaryOp::Less,
        BinaryOperator::LessEqual => BinaryOp::LessEqual,
        BinaryOperator::Greater => BinaryOp::Greater,
        BinaryOperator::GreaterEqual => BinaryOp::GreaterEqual,
        BinaryOperator::BitAnd => BinaryOp::And,
        BinaryOperator::BitOr => BinaryOp::InclusiveOr,
        BinaryOperator::BitXor => BinaryOp::ExclusiveOr,
        BinaryOperator::LogicalAnd => BinaryOp::LogicalAnd,
        BinaryOperator::LogicalOr => BinaryOp::LogicalOr,
        BinaryOperator::ShiftLeft => BinaryOp::ShiftLeft,
        BinaryOperator::ShiftRight => BinaryOp::ShiftRight,
    }
}

/// Every source operator lowers to the device operator that computes the same
/// thing of the same operands: a `<` stays strict, a `<<` shifts left, and so
/// on for each operator.
pub proof fn lemma_operators_keep_their_meaning(op: BinaryOperator, a: u32, b: u32)
    ensures
        crate::lowered::device_meaning(operator_of(op), a, b) == crate::ir::source_meaning(op, a, b),
{
}

/// The expression the lowering of `e` ends with: the literal of a literal,
/// the operation of a unary or binary operation (a load of the result for
/// `&&` and `||`, which evaluate their right operand only where it decides),
/// the conversion of a cast, the zero value of an array of zeros, and what a
/// call lowers to.
spec fn lowered_as(e: Expression, x: Expr) -> bool {
    match e {
        Expression::Integer { value, ty } => match ty {
            IntegerType::Signed => value <= 0x7fff_ffff && x == Expr::Literal(Literal::I32(value as i32)),
            IntegerType::Unsigned => x == Expr::Literal(Literal::U32(value)),
            IntegerType::Inferred => x == Expr::Literal(Literal::U32(value))
                || (value <= 0x7fff_ffff && x == Expr::Literal(Literal::I32(value as i32))),
        },
        Expression::Float(bits) => x == Expr::Literal(Literal::F32(bits)),
        Expression::Bool(b) => x == Expr::Literal(Literal::Bool(b)),
        Expression::Unary { op, .. } => x matches Expr::Unary { op: u, .. } && match op {
            UnaryOperator::Negate => u == UnaryOp::Negate,
            UnaryOperator::Not => u == UnaryOp::LogicalNot || u == UnaryOp::BitwiseNot,
        },
        Expression::Binary { op, .. } => if op == BinaryOperator::LogicalAnd || op == BinaryOperator::LogicalOr {
            x is Load
        } else {
            x matches Expr::Binary { op: b, .. } && b == operator_of(op)
        },
        Expression::Cast { .. } => x matches Expr::As { convert, .. } && convert,
        Expression::Repeat { .. } => x is ZeroValue,
        Expression::Call { name, .. } => call_lowered_as(name@, x),
        _ => true,
    }
}

/// The last expression of `exprs` applies the operator of the binary
/// expression `e` to the lowerings of its left and its right operand, in that
/// order; a logical operator is exempt, lowered as a load of the local that
/// holds its outcome.
spec fn operands_lowered(e: Expression, exprs: Seq<Expr>) -> bool {
    match e {
        Expression::Binary { op, left, right } => op != BinaryOperator::LogicalAnd && op != BinaryOperator::LogicalOr ==> {
            &&& exprs.len() > 0
            &&& exprs.last() matches Expr::Binary { left: a, right: b, .. }
            &&& exprs.last()->Binary_left < exprs.len() && exprs.last()->Binary_right < exprs.len()
            &&& lowered_as(*left, exprs[exprs.last()->Binary_left as int])
            &&& lowered_as(*right, exprs[exprs.last()->Binary_right as int])
        },
        _ => true,
    }
}

fn binary_op(op: BinaryOperator) -> (r: BinaryOp)
    ensures
        r == operator_of(op),
{
    match op {
        BinaryOperator::Add => BinaryOp::Add,
        BinaryOperator::Subtract => BinaryOp::Subtract,
        BinaryOperator::Multiply => BinaryOp::Multiply,
        BinaryOperator::Divide => BinaryOp::Divide,
        BinaryOperator::Modulo => BinaryOp::Modulo,
        BinaryOperator::Equal => BinaryOp::Equal,
        BinaryOperator::NotEqual => BinaryOp::NotEqual,
        BinaryOperator::Less => BinaryOp::Less,
        BinaryOperator::LessEqual => BinaryOp::LessEqual,
        BinaryOperator::Greater => BinaryOp::Greater,
        BinaryOperator::GreaterEqual => BinaryOp::GreaterEqual,
        BinaryOperator::BitAnd => BinaryOp::And,
        BinaryOperator::BitOr => BinaryOp::InclusiveOr,
        BinaryOperator::BitXor => BinaryOp::ExclusiveOr,
        BinaryOperator::LogicalAnd => BinaryOp::LogicalAnd,
        BinaryOperator::LogicalOr => BinaryOp::LogicalOr,
        BinaryOperator::ShiftLeft => BinaryOp::ShiftLeft,
        BinaryOperator::ShiftRight => BinaryOp::ShiftRight,
    }
}

/// The operator a compound assignment applies: that of an arithmetic, bitwise
/// or shift operator; a comparison or logical operator updates no place.
pub open spec fn update_op_of(op: BinaryOperator) -> Result<BinaryOp, CompileError> {
    match op {
        BinaryOperator::Add | BinaryOperator::Subtract | BinaryOperator::Multiply | BinaryOperator::Divide
        | BinaryOperator::Modulo | BinaryOperator::BitAnd | BinaryOperator::BitOr | BinaryOperator::BitXor
        | BinaryOperator::ShiftLeft | BinaryOperator::ShiftRight => Ok(operator_of(op)),
        _ => Err(CompileError::UpdateOperator),
    }
}

/// A compound assignment updates by the device operator that computes what its
/// source operator does, and only arithmetic, bitwise and shift operators
/// update.
pub proof fn lemma_updates_keep_their_meaning(op: BinaryOperator, a: u32, b: u32)
    ensures
        update_op_of(op) matches Ok(d) ==> crate::lowered::device_meaning(d, a, b) == crate::ir::source_meaning(op, a, b),
        update_op_of(op) is Err <==> (op == BinaryOperator::Equal || op == BinaryOperator::NotEqual || op == BinaryOperator::Less
            || op == BinaryOperator::LessEqual || op == BinaryOperator::Greater || op == BinaryOperator::GreaterEqual
            || op == BinaryOperator::LogicalAnd || op == BinaryOperator::LogicalOr),
{
    lemma_operators_keep_their_meaning(op, a, b);
}

fn update_op(op: BinaryOperator) -> (r: Result<BinaryOp, CompileError>)
    ensures
        r matches Err(e) ==> lowering_refusal(e),
        r == update_op_of(op),
{
    match op {
        BinaryOperator::Add => Ok(BinaryOp::Add),
        BinaryOperator::Subtract => Ok(BinaryOp::Subtract),
        BinaryOperator::Multiply => Ok(BinaryOp::Multiply),
        BinaryOperator::Divide => Ok(BinaryOp::Divide),
        BinaryOperator::Modulo => Ok(BinaryOp::Modulo),
        BinaryOperator::BitAnd => Ok(BinaryOp::And),
        BinaryOperator::BitOr => Ok(BinaryOp::InclusiveOr),
        BinaryOperator::BitXor => Ok(BinaryOp::ExclusiveOr),
        BinaryOperator::ShiftLeft => Ok(BinaryOp::ShiftLeft),
        BinaryOperator::ShiftRight => Ok(BinaryOp::ShiftRight),
        _ => Err(CompileError::UpdateOperator),
    }
}

/// The device math function a call of `name` lowers to.
pub open spec fn math_fun_of(name: Seq<char>) -> Option<MathFun> {
    if name == "max"@ {
        Some(MathFun::Max)
    } else if name == "min"@ {
        Some(MathFun::Min)
    } else if name == "abs"@ {
        Some(MathFun::Abs)
    } else if name == "sqrt"@ {
        Some(MathFun::Sqrt)
    } else if name == "exp"@ {
        Some(MathFun::Exp)
    } else if name == "log"@ {
        Some(MathFun::Log)
    } else if name == "tanh"@ {
        Some(MathFun::Tanh)
    } else if name == "trunc"@ {
        Some(MathFun::Trunc)
    } else if name == "sin"@ {
        Some(MathFun::Sin)
    } else if name == "cos"@ {
        Some(MathFun::Cos)
    } else if name == "pow"@ {
        Some(MathFun::Pow)
    } else if name == "floor"@ {
        Some(MathFun::Floor)
    } else {
        None
    }
}

/// The expression a call of `name` ends its lowering with: the vector of
/// four lanes, the selection, the reinterpretation or conversion, or the
/// math function an intrinsic names, and otherwise the result of the call.
spec fn call_lowered_as(name: Seq<char>, x: Expr) -> bool {
    if name == "uvec4"@ {
        x is Compose
    } else if name == "select"@ {
        x is Select
    } else if name == "bitcast_u32"@ {
        x matches Expr::As { convert, kind, .. } && !convert && kind == ScalarKind::Uint
    } else if name == "bitcast_f32"@ {
        x matches Expr::As { convert, kind, .. } && !convert && kind == ScalarKind::Float
    } else if name == "f32"@ || name == "i32"@ || name == "u32"@ {
        x matches Expr::As { convert, .. } && convert
    } else if name == "unpack2x16float"@ {
        x matches Expr::Math { fun, .. } && fun == MathFun::Unpack2x16float
    } else {
        match math_fun_of(name) {
            Some(f) => x matches Expr::Math { fun, .. } && fun == f,
            None => x is CallResult,
        }
    }
}

/// How many arguments the intrinsic `name` takes, where it names one.
pub open spec fn intrinsic_arity(name: Seq<char>) -> Option<nat> {
    if name == "uvec4"@ {
        Some(4)
    } else if name == "select"@ {
        Some(3)
    } else if name == "bitcast_u32"@ || name == "bitcast_f32"@ || name == "f32"@ || name == "i32"@ || name == "u32"@
        || name == "unpack2x16float"@ {
        Some(1)
    } else {
        match math_fun_of(name) {
            Some(f) => if f == MathFun::Max || f == MathFun::Min || f == MathFun::Pow {
                Some(2)
            } else {
                Some(1)
            },
            None => None,
        }
    }
}

/// Whether a call of the math intrinsic `name` with `args` lowers: as many
/// arguments as it takes, each unsigned arithmetic on literals, with room for
/// them and for the call.
spec fn math_call_owed(c: Compiler, l: Lowering, name: Seq<char>, args: Seq<Expression>) -> bool {
    &&& math_fun_of(name) is Some
    &&& intrinsic_arity(name) == Some(args.len())
    &&& forall|k: int| 0 <= k < args.len() ==> plain_arith(#[trigger] args[k])
    &&& arith_owed(c, l, Expression::Integer { value: 0, ty: IntegerType::Unsigned }, None)
    &&& l.expressions@.len() + args_size(args) + 1 <= 0xffff_fff0
}

/// Whether a call of the function `name` of the module with `args` lowers:
/// `name` names no intrinsic, and the function is lowered already, has a
/// result, and takes arguments that lower, with room for the call.
spec fn device_call_owed(c: Compiler, l: Lowering, name: Seq<char>, args: Seq<Expression>) -> bool {
    &&& intrinsic_arity(name) is None
    &&& name != "workgroup_barrier"@ && name != "storage_barrier"@ && name != "atomic_store"@
    &&& exists|q: int| 0 <= q < c.lowered_names@.len() && (#[trigger] c.lowered_names@[q]).0@ == name
    &&& forall|q: int| 0 <= q < c.lowered_names@.len() && (#[trigger] c.lowered_names@[q]).0@ == name ==> {
        &&& c.lowered_names@[q].1 < c.lowered@.len()
        &&& c.lowered@[c.lowered_names@[q].1 as int].result is Some
        &&& args_owed(c, l, args, c.lowered@[c.lowered_names@[q].1 as int].arguments@)
        &&& l.expressions@.len() + args_size(args) + 1 <= 0xffff_fff0
    }
}

/// A math intrinsic is named by none of the other intrinsics.
proof fn lemma_math_names(name: Seq<char>)
    requires
        math_fun_of(name) is Some,
    ensures
        name != "uvec4"@ && name != "select"@ && name != "bitcast_u32"@ && name != "bitcast_f32"@ && name != "f32"@ && name != "i32"@ && name != "u32"@ && name != "unpack2x16float"@ && name != "workgroup_barrier"@ && name != "storage_barrier"@ && name != "atomic_store"@,
{
    reveal_strlit("max");
    reveal_strlit("min");
    reveal_strlit("abs");
    reveal_strlit("sqrt");
    reveal_strlit("exp");
    reveal_strlit("log");
    reveal_strlit("tanh");
    reveal_strlit("trunc");
    reveal_strlit("sin");
    reveal_strlit("cos");
    reveal_strlit("pow");
    reveal_strlit("floor");
    reveal_strlit("uvec4");
    reveal_strlit("select");
    reveal_strlit("bitcast_u32");
    reveal_strlit("bitcast_f32");
    reveal_strlit("f32");
    reveal_strlit("i32");
    reveal_strlit("u32");
    reveal_strlit("unpack2x16float");
    reveal_strlit("workgroup_barrier");
    reveal_strlit("storage_barrier");
    reveal_strlit("atomic_store");
    assert("max"@.len() != "uvec4"@.len());
    assert("max"@.len() != "select"@.len());
    assert("max"@.len() != "bitcast_u32"@.len());
    assert("max"@.len() != "bitcast_f32"@.len());
    assert("max"@[0] != "f32"@[0]);
    assert("max"@[0] != "i32"@[0]);
    assert("max"@[0] != "u32"@[0]);
    assert("max"@.len() != "unpack2x16float"@.len());
    assert("max"@.len() != "workgroup_barrier"@.len());
    assert("max"@.len() != "storage_barrier"@.len());
    assert("max"@.len() != "atomic_store"@.len());
    assert("min"@.len() != "uvec4"@.len());
    assert("min"@.len() != "select"@.len());
    assert("min"@.len() != "bitcast_u32"@.len());
    assert("min"@.len() != "bitcast_f32"@.len());
    assert("min"@[0] != "f32"@[0]);
    assert("min"@[0] != "i32"@[0]);
    assert("min"@[0] != "u32"@[0]);
    assert("min"@.len() != "unpack2x16float"@.len());
    assert("min"@.len() != "workgroup_barrier"@.len());
    assert("min"@.len() != "storage_barrier"@.len());
    assert("min"@.len() != "atomic_store"@.len());
    assert("abs"@.len() != "uvec4"@.len());
    assert("abs"@.len() != "select"@.len());
    assert("abs"@.len() != "bitcast_u32"@.len());
    assert("abs"@.len() != "bitcast_f32"@.len());
    assert("abs"@[0] != "f32"@[0]);
    assert("abs"@[0] != "i32"@[0]);
    assert("abs"@[0] != "u32"@[0]);
    assert("abs"@.len() != "unpack2x16float"@.len());
    assert("abs"@.len() != "workgroup_barrier"@.len());
    assert("abs"@.len() != "storage_barrier"@.len());
    assert("abs"@.len() != "atomic_store"@.len());
    assert("sqrt"@.len() != "uvec4"@.len());
    assert("sqrt"@.len() != "select"@.len());
    assert("sqrt"@.len() != "bitcast_u32"@.len());
    assert("sqrt"@.len() != "bitcast_f32"@.len());
    assert("sqrt"@.len() != "f32"@.len());
    assert("sqrt"@.len() != "i32"@.len());
    assert("sqrt"@.len() != "u32"@.len());
    assert("sqrt"@.len() != "unpack2x16float"@.len());
    assert("sqrt"@.len() != "workgroup_barrier"@.len());
    assert("sqrt"@.len() != "storage_barrier"@.len());
    assert("sqrt"@.len() != "atomic_store"@.len());
    assert("exp"@.len() != "uvec4"@.len());
    assert("exp"@.len() != "select"@.len());
    assert("exp"@.len() != "bitcast_u32"@.len());
    assert("exp"@.len() != "bitcast_f32"@.len());
    assert("exp"@[0] != "f32"@[0]);
    assert("exp"@[0] != "i32"@[0]);
    assert("exp"@[0] != "u32"@[0]);
    assert("exp"@.len() != "unpack2x16float"@.len());
    assert("exp"@.len() != "workgroup_barrier"@.len());
    assert("exp"@.len() != "storage_barrier"@.len());
    assert("exp"@.len() != "atomic_store"@.len());
    assert("log"@.len() != "uvec4"@.len());
    assert("log"@.len() != "select"@.len());
    assert("log"@.len() != "bitcast_u32"@.len());
    assert("log"@.len() != "bitcast_f32"@.len());
    assert("log"@[0] != "f32"@[0]);
    assert("log"@[0] != "i32"@[0]);
    assert("log"@[0] != "u32"@[0]);
    assert("log"@.len() != "unpack2x16float"@.len());
    assert("log"@.len() != "workgroup_barrier"@.len());
    assert("log"@.len() != "storage_barrier"@.len());
    assert("log"@.len() != "atomic_store"@.len());
    assert("tanh"@.len() != "uvec4"@.len());
    assert("tanh"@.len() != "select"@.len());
    assert("tanh"@.len() != "bitcast_u32"@.len());
    assert("tanh"@.len() != "bitcast_f32"@.len());
    assert("tanh"@.len() != "f32"@.len());
    assert("tanh"@.len() != "i32"@.len());
    assert("tanh"@.len() != "u32"@.len());
    assert("tanh"@.len() != "unpack2x16float"@.len());
    assert("tanh"@.len() != "workgroup_barrier"@.len());
    assert("tanh"@.len() != "storage_barrier"@.len());
    assert("tanh"@.len() != "atomic_store"@.len());
    assert("trunc"@[0] != "uvec4"@[0]);
    assert("trunc"@.len() != "select"@.len());
    assert("trunc"@.len() != "bitcast_u32"@.len());
    assert("trunc"@.len() != "bitcast_f32"@.len());
    assert("trunc"@.len() != "f32"@.len());
    assert("trunc"@.len() != "i32"@.len());
    assert("trunc"@.len() != "u32"@.len());
    assert("trunc"@.len() != "unpack2x16float"@.len());
    assert("trunc"@.len() != "workgroup_barrier"@.len());
    assert("trunc"@.len() != "storage_barrier"@.len());
    assert("trunc"@.len() != "atomic_store"@.len());
    assert("sin"@.len() != "uvec4"@.len());
    assert("sin"@.len() != "select"@.len());
    assert("sin"@.len() != "bitcast_u32"@.len());
    assert("sin"@.len() != "bitcast_f32"@.len());
    assert("sin"@[0] != "f32"@[0]);
    assert("sin"@[0] != "i32"@[0]);
    assert("sin"@[0] != "u32"@[0]);
    assert("sin"@.len() != "unpack2x16float"@.len());
    assert("sin"@.len() != "workgroup_barrier"@.len());
    assert("sin"@.len() != "storage_barrier"@.len());
    assert("sin"@.len() != "atomic_store"@.len());
    assert("cos"@.len() != "uvec4"@.len());
    assert("cos"@.len() != "select"@.len());
    assert("cos"@.len() != "bitcast_u32"@.len());
    assert("cos"@.len() != "bitcast_f32"@.len());
    assert("cos"@[0] != "f32"@[0]);
    assert("cos"@[0] != "i32"@[0]);
    assert("cos"@[0] != "u32"@[0]);
    assert("cos"@.len() != "unpack2x16float"@.len());
    assert("cos"@.len() != "workgroup_barrier"@.len());
    assert("cos"@.len() != "storage_barrier"@.len());
    assert("cos"@.len() != "atomic_store"@.len());
    assert("pow"@.len() != "uvec4"@.len());
    assert("pow"@.len() != "select"@.len());
    assert("pow"@.len() != "bitcast_u32"@.len());
    assert("pow"@.len() != "bitcast_f32"@.len());
    assert("pow"@[0] != "f32"@[0]);
    assert("pow"@[0] != "i32"@[0]);
    assert("pow"@[0] != "u32"@[0]);
    assert("pow"@.len() != "unpack2x16float"@.len());
    assert("pow"@.len() != "workgroup_barrier"@.len());
    assert("pow"@.len() != "storage_barrier"@.len());
    assert("pow"@.len() != "atomic_store"@.len());
    assert("floor"@[0] != "uvec4"@[0]);
    assert("floor"@.len() != "select"@.len());
    assert("floor"@.len() != "bitcast_u32"@.len());
    assert("floor"@.len() != "bitcast_f32"@.len());
    assert("floor"@.len() != "f32"@.len());
    assert("floor"@.len() != "i32"@.len());
    assert("floor"@.len() != "u32"@.len());
    assert("floor"@.len() != "unpack2x16float"@.len());
    assert("floor"@.len() != "workgroup_barrier"@.len());
    assert("floor"@.len() != "storage_barrier"@.len());
    assert("floor"@.len() != "atomic_store"@.len());
}

fn math_fun(name: &str) -> (r: Option<MathFun>)
    ensures
        r == math_fun_of(name@),
{
    if is_named(name, "max") {
        Some(MathFun::Max)
    } else if is_named(name, "min") {
        Some(MathFun::Min)
    } else if is_named(name, "abs") {
        Some(MathFun::Abs)
    } else if is_named(name, "sqrt") {
        Some(MathFun::Sqrt)
    } else if is_named(name, "exp") {
        Some(MathFun::Exp)
    } else if is_named(name, "log") {
        Some(MathFun::Log)
    } else if is_named(name, "tanh") {
        Some(MathFun::Tanh)
    } else if is_named(name, "trunc") {
        Some(MathFun::Trunc)
    } else if is_named(name, "sin") {
        Some(MathFun::Sin)
    } else if is_named(name, "cos") {
        Some(MathFun::Cos)
    } else if is_named(name, "pow") {
        Some(MathFun::Pow)
    } else if is_named(name, "floor") {
        Some(MathFun::Floor)
    } else {
        None
    }
}

/// The kind of the scalar type `ty`.
pub open spec fn scalar_of(types: Seq<ShaderType>, ty: u32) -> Result<ScalarKind, CompileError> {
    if ty < types.len() {
        match types[ty as int] {
            ShaderType::Scalar(kind) => Ok(kind),
            _ => Err(CompileError::NotScalar),
        }
    } else {
        Err(CompileError::Malformed)
    }
}

/// The lanes of the vector type `ty`.
pub open spec fn lanes_of(types: Seq<ShaderType>, ty: u32) -> Option<u32> {
    if ty < types.len() {
        match types[ty as int] {
            ShaderType::Vector { size, .. } => Some(size),
            _ => None,
        }
    } else {
        None
    }
}

/// The type a lane of a vector of `kind` has: `u32` or `f32` as `named`
/// declares them; a vector of another kind is refused with `refusal`.
pub open spec fn lane_of(named: Seq<(String, u32)>, kind: ScalarKind, refusal: CompileError) -> Result<u32, CompileError> {
    match kind {
        ScalarKind::Uint => match first_named(named, "u32"@) {
            Some(t) => Ok(t),
            None => Err(CompileError::UnknownType),
        },
        ScalarKind::Float => match first_named(named, "f32"@) {
            Some(t) => Ok(t),
            None => Err(CompileError::UnknownType),
        },
        _ => Err(refusal),
    }
}

/// The type of an element of the array or vector type `array`.
pub open spec fn element_of(types: Seq<ShaderType>, named: Seq<(String, u32)>, array: u32) -> Result<u32, CompileError> {
    if array < types.len() {
        match types[array as int] {
            ShaderType::Array { base, .. } => Ok(base),
            ShaderType::Vector { kind, .. } => lane_of(named, kind, CompileError::NotIndexable),
            _ => Err(CompileError::NotIndexable),
        }
    } else {
        Err(CompileError::Malformed)
    }
}

/// The lane a vector field names: `x`, `y`, `z` or `w`.
pub open spec fn lane_index(field: Seq<char>) -> Option<u32> {
    if field == "x"@ {
        Some(0)
    } else if field == "y"@ {
        Some(1)
    } else if field == "z"@ {
        Some(2)
    } else if field == "w"@ {
        Some(3)
    } else {
        None
    }
}

impl Compiler {
    /// The type a device type expression names.
    fn rust_type(&mut self, ty: &Type) -> (r: Result<u32, CompileError>)
        requires
            old(self).wf(),
        ensures
            r matches Err(e) ==> lowering_refusal(e),
            final(self).wf(),
            final(self).functions == old(self).functions,
            final(self).globals@ == old(self).globals@,
            final(self).lowered@ == old(self).lowered@,
            final(self).bindings@ == old(self).bindings@,
            final(self).types@.len() >= old(self).types@.len(),
            forall|i: int| 0 <= i < old(self).types@.len() ==> #[trigger] final(self).types@[i] == old(self).types@[i],
            r matches Ok(t) ==> t < final(self).types@.len(),
            final(self).named@ == old(self).named@,
            match *ty {
                Type::Named(n) => r == match first_named(old(self).named@, n@) {
                    Some(t) => Ok::<u32, CompileError>(t),
                    None => Err(CompileError::UnknownType),
                } && final(self).types@ == old(self).types@,
                Type::Array { element, length } => {
                    &&& constant_value(*length, old(self).constants_view()) is Err ==> r is Err
                    &&& r matches Ok(h) ==> (final(self).types@[h as int] matches ShaderType::Array { count, .. }
                        && constant_value(*length, old(self).constants_view()) is Ok
                        && count == Some(constant_value(*length, old(self).constants_view())->Ok_0))
                    &&& (*element matches Type::Named(n) && first_named(old(self).named@, n@) is Some
                        && constant_value(*length, old(self).constants_view()) is Ok
                        && constant_value(*length, old(self).constants_view())->Ok_0 != 0
                        && type_size(old(self).types@, first_named(old(self).named@, n@)->0) is Ok
                        && old(self).types@.len() < 0xffff_fff0) ==> r is Ok
                },
            },
        decreases *ty,
    {
        match ty {
            Type::Named(name) => self.ty(name.as_str()),
            Type::Array { element, length } => {
                let element = self.rust_type(element)?;
                let count = self.evaluate(length)?;
                let ghost before = self.types@;
                let r = self.array(element, Some(count));
                proof {
                    assert forall|i: int| 0 <= i < before.len() implies #[trigger] self.types@[i] == before[i] by {
                        assert(self.types@.subrange(0, before.len() as int)[i] == before[i]);
                    }
                }
                r
            },
        }
    }

    fn scalar(&self, ty: u32) -> (r: Result<ScalarKind, CompileError>)
        ensures
            r matches Err(e) ==> lowering_refusal(e),
            r == scalar_of(self.types@, ty),
    {
        if ty as usize >= self.types.len() {
            return Err(CompileError::Malformed);
        }
        match &self.types[ty as usize] {
            ShaderType::Scalar(kind) => Ok(*kind),
            _ => Err(CompileError::NotScalar),
        }
    }

    fn vector_size(&self, ty: u32) -> (r: Option<u32>)
        ensures
            r == lanes_of(self.types@, ty),
    {
        if ty as usize >= self.types.len() {
            return None;
        }
        match &self.types[ty as usize] {
            ShaderType::Vector { size, .. } => Some(*size),
            _ => None,
        }
    }

    /// The type of a lane of a vector of `kind`.
    fn lane(&self, kind: ScalarKind, refusal: CompileError) -> (r: Result<u32, CompileError>)
        requires
            self.wf(),
        ensures
            r matches Err(e) ==> lowering_refusal(e) || e == refusal,
            r matches Ok(t) ==> t < self.types@.len(),
            r == lane_of(self.named@, kind, refusal),
    {
        match kind {
            ScalarKind::Uint => self.ty("u32"),
            ScalarKind::Float => self.ty("f32"),
            _ => Err(refusal),
        }
    }

    /// The index and type of the field `field` of type `base`.
    fn field_type(&self, base: u32, field: &str) -> (r: Result<(u32, u32), CompileError>)
        requires
            self.wf(),
        ensures
            r matches Err(e) ==> lowering_refusal(e),
            r matches Ok((i, t)) ==> t < self.types@.len(),
            base >= self.types@.len() ==> r == Err::<(u32, u32), CompileError>(CompileError::Malformed),
            base < self.types@.len() ==> match self.types@[base as int] {
                ShaderType::Struct { members, .. } => {
                    &&& r matches Ok((i, t)) ==> i < members@.len() && members@[i as int].name@ == field@
                        && t == members@[i as int].ty
                        && forall|j: int| 0 <= j < i ==> (#[trigger] members@[j]).name@ != field@
                    &&& r is Err ==> forall|j: int| 0 <= j < members@.len() && j < 0xffff_ffff ==> (#[trigger] members@[j]).name@ != field@
                    &&& r matches Err(e) ==> e == CompileError::NoField || e == CompileError::Overflow
                },
                ShaderType::Vector { size, kind } => r == match lane_index(field@) {
                    Some(i) => if i < size {
                        match lane_of(self.named@, kind, CompileError::NoField) {
                            Ok(t) => Ok::<(u32, u32), CompileError>((i, t)),
                            Err(e) => Err(e),
                        }
                    } else {
                        Err(CompileError::NoField)
                    },
                    None => Err(CompileError::NoField),
                },
                _ => r == Err::<(u32, u32), CompileError>(CompileError::NoField),
            },
    {
        if base as usize >= self.types.len() {
            return Err(CompileError::Malformed);
        }
        let wanted = field.to_owned();
        match &self.types[base as usize] {
            ShaderType::Struct { members, .. } => {
                let mut i: usize = 0;
                while i < members.len()
                    invariant
                        i <= members.len(),
                        self.wf(),
                        (base as int) < self.types@.len(),
                        self.types@[base as int] matches ShaderType::Struct { members: m, .. } && m == members,
                        wanted@ == field@,
                        forall|j: int| 0 <= j < i ==> (#[trigger] members@[j]).name@ != field@,
                    decreases members.len() - i,
                {
                    if members[i].name == wanted {
                        if i >= 0xffff_ffff {
                            return Err(CompileError::Overflow);
                        }
                        proof {
                            assert(crate::lowered::type_wf(self.types@[base as int], base as int));
                            assert(crate::lowered::before(members@[i as int].ty, base as int));
                        }
                        return Ok((i as u32, members[i].ty));
                    }
                    i += 1;
                }
                Err(CompileError::NoField)
            },
            ShaderType::Vector { size, kind } => {
                let index: u32 = if is_named(field, "x") {
                    0
                } else if is_named(field, "y") {
                    1
                } else if is_named(field, "z") {
                    2
                } else if is_named(field, "w") {
                    3
                } else {
                    return Err(CompileError::NoField);
                };
                if index >= *size {
                    return Err(CompileError::NoField);
                }
                let ty = self.lane(*kind, CompileError::NoField)?;
                Ok((index, ty))
            },
            _ => Err(CompileError::NoField),
        }
    }

    /// The type of an element of the array or vector type `array`.
    fn element_type(&self, array: u32) -> (r: Result<u32, CompileError>)
        requires
            self.wf(),
        ensures
            r matches Err(e) ==> lowering_refusal(e),
            r matches Ok(t) ==> t < self.types@.len(),
            r == element_of(self.types@, self.named@, array),
    {
        if array as usize >= self.types.len() {
            return Err(CompileError::Malformed);
        }
        match &self.types[array as usize] {
            ShaderType::Array { base, .. } => {
                proof {
                    assert(crate::lowered::type_wf(self.types@[array as int], array as int));
                }
                Ok(*base)
            },
            ShaderType::Vector { kind, .. } => self.lane(*kind, CompileError::NotIndexable),
            _ => Err(CompileError::NotIndexable),
        }
    }

    /// What `name` stands for: a name in scope, else a declared constant.
    fn lookup(&self, lower: &Lowering, name: &str) -> (r: Option<Symbol>)
        requires
            lowering_ok(*lower, self.bounds(lower.arity as nat)),
        ensures
            r matches Some(sym) ==> symbol_ok(sym, lower.expressions@.len() as nat, self.bounds(lower.arity as nat)),
            match scopes_binding(lower.scopes@, name@, lower.scopes@.len() as int) {
                Some(sym) => r matches Some(found) && same_symbol(sym, found),
                None => r == match constant_of(self.functions.constants_view(), name@) {
                    Some(v) => Some(Symbol::Constant(v)),
                    None => None::<Symbol>,
                },
            },
    {
        let ghost ar = lower.arity as nat;
        match lower.symbol(name, Ghost(self.bounds(ar))) {
            Some(s) => Some(s),
            None => match self.functions.value_of(name) {
                Some(v) => Some(Symbol::Constant(v)),
                None => None,
            },
        }
    }

    /// The value of `e` where it is known at compilation: an unsigned literal,
    /// a constant in scope, or unsigned arithmetic on such values.
    fn evaluate_u32(&self, lower: &Lowering, e: &Expression) -> (r: Result<Option<u32>, CompileError>)
        requires
            lowering_ok(*lower, self.bounds(lower.arity as nat)),
        ensures
            r matches Err(e) ==> lowering_refusal(e),
            r == folded(*e, lower.scopes@, self.functions.constants_view()),
        decreases *e,
    {
        let ghost ar = lower.arity as nat;
        match e {
            Expression::Integer { value, ty } => {
                if *ty != IntegerType::Signed {
                    Ok(Some(*value))
                } else {
                    Ok(None)
                }
            },
            Expression::Name(name) => match self.lookup(lower, name.as_str()) {
                Some(Symbol::Constant(v)) => Ok(Some(v)),
                _ => Ok(None),
            },
            Expression::Binary { op, left, right } => {
                let l = match self.evaluate_u32(lower, left)? {
                    Some(v) => v,
                    None => return Ok(None),
                };
                let r = match self.evaluate_u32(lower, right)? {
                    Some(v) => v,
                    None => return Ok(None),
                };
                match op {
                    BinaryOperator::Add => match l.checked_add(r) {
                        Some(v) => Ok(Some(v)),
                        None => Err(CompileError::Overflow),
                    },
                    BinaryOperator::Subtract => match l.checked_sub(r) {
                        Some(v) => Ok(Some(v)),
                        None => Err(CompileError::Overflow),
                    },
                    BinaryOperator::Multiply => match l.checked_mul(r) {
                        Some(v) => Ok(Some(v)),
                        None => Err(CompileError::Overflow),
                    },
                    BinaryOperator::Divide => match l.checked_div(r) {
                        Some(v) => Ok(Some(v)),
                        None => Err(CompileError::DivideByZero),
                    },
                    BinaryOperator::Modulo => match l.checked_rem(r) {
                        Some(v) => Ok(Some(v)),
                        None => Err(CompileError::DivideByZero),
                    },
                    _ => Ok(None),
                }
            },
            _ => Ok(None),
        }
    }

    fn literal(&self, lower: &mut Lowering, value: u32, kind: IntegerType, hint: Option<u32>) -> (r: Result<Typed, CompileError>)
        requires
            self.wf(),
            lowering_ok(*old(lower), self.bounds(old(lower).arity as nat)),
        ensures
            r matches Err(e) ==> lowering_refusal(e),
            lowering_ok(*final(lower), self.bounds(old(lower).arity as nat)),
            kept(*old(lower), *final(lower)),
            r matches Ok(t) ==> typed_ok(t, final(lower).expressions@.len() as nat, self.bounds(old(lower).arity as nat)),
            r matches Ok(t) ==> t.expr + 1 == final(lower).expressions@.len()
                && lowered_as(Expression::Integer { value, ty: kind }, final(lower).expressions@.last()),
            r is Ok ==> frames_kept(*old(lower), *final(lower)),
            r == literal_of(self.named@, value, kind, hint, old(lower).expressions@.len()),
            final(lower).scopes@ == old(lower).scopes@,
            final(lower).locals@ == old(lower).locals@,
    {
        let ghost ar = lower.arity as nat;
        let signed_ty = self.ty("i32")?;
        let signed = kind == IntegerType::Signed || (kind == IntegerType::Inferred && hint == Some(signed_ty));
        if signed {
            if value > 0x7fff_ffff {
                return Err(CompileError::SignedOverflow);
            }
            lower.emit(Expr::Literal(Literal::I32(value as i32)), signed_ty, Ghost(self.bounds(ar)))
        } else {
            let unsigned = self.ty("u32")?;
            lower.emit(Expr::Literal(Literal::U32(value)), unsigned, Ghost(self.bounds(ar)))
        }
    }

    fn indexed(&mut self, lower: &mut Lowering, base: Typed, index: &Expression, depth: usize) -> (r: Result<Typed, CompileError>)
        requires
            old(self).wf(),
            lowering_ok(*old(lower), old(self).bounds(old(lower).arity as nat)),
            typed_ok(base, old(lower).expressions@.len() as nat, old(self).bounds(old(lower).arity as nat)),
        ensures
            r matches Err(e) ==> lowering_refusal(e),
            final(self).wf(),
            old(self).step(*old(lower), *final(self), *final(lower)),
            r is Ok ==> frames_kept(*old(lower), *final(lower)),
            r matches Ok(t) ==> typed_ok(t, final(lower).expressions@.len() as nat, final(self).bounds(old(lower).arity as nat)),
            r matches Ok(t) ==> t.expr + 1 == final(lower).expressions@.len(),
            element_of(old(self).types@, old(self).named@, base.ty) matches Err(e) ==> r == Err::<Typed, CompileError>(e),
            element_of(old(self).types@, old(self).named@, base.ty) is Ok && lanes_of(old(self).types@, base.ty) is Some
                ==> match folded(*index, old(lower).scopes@, old(self).functions.constants_view()) {
                    Ok(Some(i)) => if i < lanes_of(old(self).types@, base.ty)->0 {
                        old(lower).expressions@.len() < 0xffff_fff0 && old(lower).blocks@.len() > 0 ==> (r matches Ok(x)
                            && x.ty == element_of(old(self).types@, old(self).named@, base.ty)->Ok_0
                            && final(lower).expressions@.last() == (Expr::AccessIndex { base: base.expr, index: i }))
                    } else {
                        r == Err::<Typed, CompileError>(CompileError::LaneIndex)
                    },
                    Ok(None) => r == Err::<Typed, CompileError>(CompileError::LaneIndex),
                    Err(e) => r == Err::<Typed, CompileError>(e),
                },
        decreases depth, 1int, *index, 4int,
    {
        let ghost ar = lower.arity as nat;
        let ty = self.element_type(base.ty)?;
        match self.vector_size(base.ty) {
            Some(size) => {
                let lane = match self.evaluate_u32(lower, index)? {
                    Some(i) => i,
                    None => return Err(CompileError::LaneIndex),
                };
                if lane >= size {
                    return Err(CompileError::LaneIndex);
                }
                lower.emit(Expr::AccessIndex { base: base.expr, index: lane }, ty, Ghost(self.bounds(ar)))
            },
            None => {
                let at = self.value(lower, index, depth)?;
                lower.emit(Expr::Access { base: base.expr, index: at.expr }, ty, Ghost(self.bounds(ar)))
            },
        }
    }

    /// The pointer `e` denotes, where it denotes a writable place.
    fn place(&mut self, lower: &mut Lowering, e: &Expression, depth: usize) -> (r: Result<Option<Typed>, CompileError>)
        requires
            old(self).wf(),
            lowering_ok(*old(lower), old(self).bounds(old(lower).arity as nat)),
        ensures
            r matches Err(e) ==> lowering_refusal(e),
            final(self).wf(),
            old(self).step(*old(lower), *final(self), *final(lower)),
            r is Ok ==> frames_kept(*old(lower), *final(lower)),
            r matches Ok(Some(t)) ==> typed_ok(t, final(lower).expressions@.len() as nat, final(self).bounds(old(lower).arity as nat)),
            !(*e is Name || *e is Field || *e is Index) ==> r == Ok::<Option<Typed>, CompileError>(None)
                && *final(lower) == *old(lower) && *final(self) == *old(self),
            *e matches Expression::Name(n) ==> (scopes_binding(old(lower).scopes@, n@, old(lower).scopes@.len() as int) is Some
                ==> *final(lower) == *old(lower) && *final(self) == *old(self)),
            *e matches Expression::Name(n) ==> match scopes_binding(old(lower).scopes@, n@, old(lower).scopes@.len() as int) {
                Some(Symbol::Local(l)) => r == Ok::<Option<Typed>, CompileError>(Some(l)),
                Some(_) => r == Ok::<Option<Typed>, CompileError>(None),
                None => if constant_of(old(self).functions.constants_view(), n@) is Some || !declares_global(old(self).globals@, n@) {
                    r == Ok::<Option<Typed>, CompileError>(None)
                } else {
                    (old(lower).expressions@.len() < 0xffff_fff0 ==> r matches Ok(Some(_)))
                    && (r matches Ok(Some(t)) ==> final(lower).expressions@[t.expr as int] is GlobalVariable)
                },
            },
        decreases depth, 1int, *e, 1int,
    {
        let ghost ar = lower.arity as nat;
        match e {
            Expression::Name(name) => match self.lookup(lower, name.as_str()) {
                Some(Symbol::Local(l)) => Ok(Some(l)),
                Some(_) => Ok(None),
                None => match self.find_global(name.as_str()) {
                    Some(i) => {
                        let handle = i as u32;
                        let ty = self.globals[i].ty;
                        Ok(Some(lower.emit(Expr::GlobalVariable(handle), ty, Ghost(self.bounds(ar)))?))
                    },
                    None => Ok(None),
                },
            },
            Expression::Field { base, name } => {
                let b = match self.place(lower, base, depth)? {
                    Some(b) => b,
                    None => return Ok(None),
                };
                let (index, ty) = self.field_type(b.ty, name.as_str())?;
                Ok(Some(lower.emit(Expr::AccessIndex { base: b.expr, index }, ty, Ghost(self.bounds(ar)))?))
            },
            Expression::Index { base, index } => {
                let registers = match &**base {
                    Expression::Name(n) => match self.lookup(lower, n.as_str()) {
                        Some(Symbol::Array(registers)) => Some(registers),
                        _ => None,
                    },
                    _ => None,
                };
                match registers {
                    Some(registers) => {
                        let offset = match self.evaluate_u32(lower, index)? {
                            Some(o) => o,
                            None => return Err(CompileError::RegisterIndex),
                        };
                        if offset as usize >= registers.len() {
                            return Err(CompileError::RegisterIndex);
                        }
                        return Ok(Some(registers[offset as usize]));
                    },
                    None => {},
                }
                let b = match self.place(lower, base, depth)? {
                    Some(b) => b,
                    None => return Ok(None),
                };
                Ok(Some(self.indexed(lower, b, index, depth)?))
            },
            _ => Ok(None),
        }
    }

    fn value(&mut self, lower: &mut Lowering, e: &Expression, depth: usize) -> (r: Result<Typed, CompileError>)
        requires
            old(self).wf(),
            lowering_ok(*old(lower), old(self).bounds(old(lower).arity as nat)),
        ensures
            r matches Err(e) ==> lowering_refusal(e),
            final(self).wf(),
            old(self).step(*old(lower), *final(self), *final(lower)),
            r is Ok ==> frames_kept(*old(lower), *final(lower)),
            r matches Ok(t) ==> typed_ok(t, final(lower).expressions@.len() as nat, final(self).bounds(old(lower).arity as nat)),
            r matches Ok(t) ==> (!(*e is Name) ==> t.expr + 1 == final(lower).expressions@.len() && lowered_as(*e, final(lower).expressions@.last())),
            r matches Ok(t) ==> lowered_as(*e, final(lower).expressions@[t.expr as int]),
            plain_arith(*e) ==> *final(self) == *old(self),
            plain_bool(*e) ==> *final(self) == *old(self),
            bool_owed(*old(self), *old(lower), *e, None) ==> (r matches Ok(t)
                && Some(t.ty) == first_named(old(self).named@, "bool"@)
                && final(lower).expressions@.len() == old(lower).expressions@.len() + bool_size(*e)
                && final(lower).locals@.len() == old(lower).locals@.len() + bool_locals(*e)
                && final(lower).scopes@ == old(lower).scopes@ && final(lower).blocks@.len() == old(lower).blocks@.len()),
            arith_owed(*old(self), *old(lower), *e, None) ==> (r matches Ok(t)
                && Some(t.ty) == first_named(old(self).named@, "u32"@)
                && final(lower).expressions@.len() == old(lower).expressions@.len() + arith_size(*e)
                && final(lower).scopes@ == old(lower).scopes@ && final(lower).locals@ == old(lower).locals@),
        decreases depth, 1int, *e, 3int,
    {
        let ghost ar = lower.arity as nat;
        self.value_with_hint(lower, e, None, depth)
    }

    /// Lowers `e` to a value; where `hint` names a type, the value has it.
    fn value_with_hint(&mut self, lower: &mut Lowering, e: &Expression, hint: Option<u32>, depth: usize) -> (r: Result<Typed, CompileError>)
        requires
            old(self).wf(),
            lowering_ok(*old(lower), old(self).bounds(old(lower).arity as nat)),
        ensures
            r matches Err(e) ==> lowering_refusal(e),
            final(self).wf(),
            old(self).step(*old(lower), *final(self), *final(lower)),
            r is Ok ==> frames_kept(*old(lower), *final(lower)),
            r matches Ok(t) ==> typed_ok(t, final(lower).expressions@.len() as nat, final(self).bounds(old(lower).arity as nat)),
            r matches Ok(t) ==> (hint matches Some(h) ==> t.ty == h),
            r matches Ok(t) ==> (!(*e is Name) ==> t.expr + 1 == final(lower).expressions@.len() && lowered_as(*e, final(lower).expressions@.last())),
            r matches Ok(t) ==> lowered_as(*e, final(lower).expressions@[t.expr as int]),
            r is Ok && (*e matches Expression::Unary { op: UnaryOperator::Not, .. }) ==> (final(lower).expressions@.last()
                matches Expr::Unary { op: u, .. } && (u == UnaryOp::LogicalNot <==> scalar_of(final(self).types@, r->Ok_0.ty)
                == Ok::<ScalarKind, CompileError>(ScalarKind::Bool))),
            *e matches Expression::Name(n) ==> match scopes_binding(old(lower).scopes@, n@, old(lower).scopes@.len() as int) {
                Some(Symbol::Local(l)) => old(lower).expressions@.len() < 0xffff_fff0 && old(lower).blocks@.len() > 0
                    && (hint is None || hint == Some(l.ty)) ==> (r matches Ok(t) && t.expr == old(lower).expressions@.len() && t.ty == l.ty
                    && final(lower).expressions@ == old(lower).expressions@.push(Expr::Load { pointer: l.expr })),
                Some(Symbol::Value(v)) => hint is None || hint == Some(v.ty) ==> r == Ok::<Typed, CompileError>(v) && *final(lower) == *old(lower),
                _ => true,
            },
            *e matches Expression::Call { name, arguments } ==> (hint is None && (math_call_owed(*old(self), *old(lower), name@, arguments@)
                || device_call_owed(*old(self), *old(lower), name@, arguments@)) ==> r is Ok),
            plain_arith(*e) ==> *final(self) == *old(self),
            plain_bool(*e) ==> *final(self) == *old(self),
            bool_owed(*old(self), *old(lower), *e, hint) ==> (r matches Ok(t)
                && Some(t.ty) == first_named(old(self).named@, "bool"@)
                && final(lower).expressions@.len() == old(lower).expressions@.len() + bool_size(*e)
                && final(lower).locals@.len() == old(lower).locals@.len() + bool_locals(*e)
                && final(lower).scopes@ == old(lower).scopes@ && final(lower).blocks@.len() == old(lower).blocks@.len()),
            arith_owed(*old(self), *old(lower), *e, hint) ==> (r matches Ok(t)
                && Some(t.ty) == first_named(old(self).named@, "u32"@)
                && final(lower).expressions@.len() == old(lower).expressions@.len() + arith_size(*e)
                && final(lower).scopes@ == old(lower).scopes@ && final(lower).locals@ == old(lower).locals@),
        decreases depth, 1int, *e, 2int,
    {
        let ghost ar = lower.arity as nat;
        let is_place = match e {
            Expression::Name(_) | Expression::Field { .. } | Expression::Index { .. } => true,
            _ => false,
        };
        if is_place {
            match self.place(lower, e, depth)? {
                Some(place) => {
                    let loaded = lower.emit(Expr::Load { pointer: place.expr }, place.ty, Ghost(self.bounds(ar)))?;
                    match hint {
                        Some(t) => if loaded.ty != t {
                            return Err(CompileError::TypeMismatch);
                        },
                        None => {},
                    }
                    return Ok(loaded);
                },
                None => {},
            }
        }
        let value = match e {
            Expression::Integer { value, ty } => self.literal(lower, *value, *ty, hint)?,
            Expression::Float(bits) => {
                let t = self.ty("f32")?;
                lower.emit(Expr::Literal(Literal::F32(*bits)), t, Ghost(self.bounds(ar)))?
            },
            Expression::Bool(b) => {
                let t = self.ty("bool")?;
                lower.emit(Expr::Literal(Literal::Bool(*b)), t, Ghost(self.bounds(ar)))?
            },
            Expression::Name(name) => match self.lookup(lower, name.as_str()) {
                Some(Symbol::Value(v)) => v,
                Some(Symbol::Constant(c)) => {
                    let t = self.ty("u32")?;
                    lower.emit(Expr::Literal(Literal::U32(c)), t, Ghost(self.bounds(ar)))?
                },
                Some(Symbol::Array(_)) => return Err(CompileError::RegisterArray),
                Some(Symbol::Local(_)) => return Err(CompileError::Malformed),
                None => return Err(CompileError::UnknownName),
            },
            Expression::Field { base, name } => {
                let b = self.value(lower, base, depth)?;
                let (index, ty) = self.field_type(b.ty, name.as_str())?;
                lower.emit(Expr::AccessIndex { base: b.expr, index }, ty, Ghost(self.bounds(ar)))?
            },
            Expression::Index { base, index } => {
                let b = self.value(lower, base, depth)?;
                self.indexed(lower, b, index, depth)?
            },
            Expression::Unary { op, value: operand } => {
                let arg = self.value(lower, operand, depth)?;
                let op = match op {
                    UnaryOperator::Negate => UnaryOp::Negate,
                    UnaryOperator::Not => if self.scalar(arg.ty)? == ScalarKind::Bool {
                        UnaryOp::LogicalNot
                    } else {
                        UnaryOp::BitwiseNot
                    },
                };
                lower.emit(Expr::Unary { op, expr: arg.expr }, arg.ty, Ghost(self.bounds(ar)))?
            },
            Expression::Binary { .. } => self.binary(lower, e, depth)?,
            Expression::Call { .. } => self.call(lower, e, depth)?,
            Expression::Repeat { value: filled, length } => {
                let count = self.evaluate(length)?;
                let v = self.value(lower, filled, depth)?;
                if v.expr as usize >= lower.expressions.len() {
                    return Err(CompileError::Malformed);
                }
                let zero = match &lower.expressions[v.expr as usize] {
                    Expr::Literal(Literal::F32(bits)) => *bits == 0 || *bits == 0x8000_0000,
                    Expr::Literal(Literal::U32(n)) => *n == 0,
                    _ => false,
                };
                if !zero {
                    return Err(CompileError::NotZero);
                }
                if v.ty as usize >= self.types.len() {
                    return Err(CompileError::Malformed);
                }
                let ghost mid = self.bounds(ar);
                let ghost before = self.types@;
                let ty = self.array(v.ty, Some(count));
                proof {
                    lemma_lowering_grows(*lower, mid, self.bounds(ar));
                    assert forall|i: int| 0 <= i < before.len() implies #[trigger] self.types@[i] == before[i] by {
                        assert(self.types@.subrange(0, before.len() as int)[i] == before[i]);
                    }
                }
                let ty = ty?;
                lower.emit(Expr::ZeroValue(ty), ty, Ghost(self.bounds(ar)))?
            },
            Expression::Cast { value: source, ty } => {
                let from = self.value(lower, source, depth)?;
                let ghost mid = self.bounds(ar);
                let target = self.rust_type(ty);
                proof {
                    lemma_lowering_grows(*lower, mid, self.bounds(ar));
                }
                let target = target?;
                let kind = self.scalar(target)?;
                lower.emit(Expr::As { expr: from.expr, kind, convert: true }, target, Ghost(self.bounds(ar)))?
            },
            Expression::Reference(_) => return Err(CompileError::Reference),
        };
        match hint {
            Some(t) => if value.ty != t {
                return Err(CompileError::TypeMismatch);
            },
            None => {},
        }
        Ok(value)
    }

    /// Lowers the binary expression `e`; a logical operator evaluates its
    /// right operand only where it decides the result.
    #[verifier::rlimit(80)]
    fn binary(&mut self, lower: &mut Lowering, e: &Expression, depth: usize) -> (r: Result<Typed, CompileError>)
        requires
            old(self).wf(),
            lowering_ok(*old(lower), old(self).bounds(old(lower).arity as nat)),
        ensures
            r matches Err(e) ==> lowering_refusal(e),
            final(self).wf(),
            old(self).step(*old(lower), *final(self), *final(lower)),
            r is Ok ==> frames_kept(*old(lower), *final(lower)),
            r matches Ok(t) ==> typed_ok(t, final(lower).expressions@.len() as nat, final(self).bounds(old(lower).arity as nat)),
            r matches Ok(t) ==> t.expr + 1 == final(lower).expressions@.len() && lowered_as(*e, final(lower).expressions@.last()),
            r is Ok ==> operands_lowered(*e, final(lower).expressions@),
            plain_arith(*e) ==> *final(self) == *old(self),
            plain_bool(*e) ==> *final(self) == *old(self),
            *e is Binary && bool_owed(*old(self), *old(lower), *e, None) ==> (r matches Ok(t)
                && Some(t.ty) == first_named(old(self).named@, "bool"@)
                && final(lower).expressions@.len() == old(lower).expressions@.len() + bool_size(*e)
                && final(lower).locals@.len() == old(lower).locals@.len() + bool_locals(*e)
                && final(lower).scopes@ == old(lower).scopes@ && final(lower).blocks@.len() == old(lower).blocks@.len()),
            *e is Binary && arith_owed(*old(self), *old(lower), *e, None) ==> (r matches Ok(t)
                && Some(t.ty) == first_named(old(self).named@, "u32"@)
                && final(lower).expressions@.len() == old(lower).expressions@.len() + arith_size(*e)
                && final(lower).scopes@ == old(lower).scopes@ && final(lower).locals@ == old(lower).locals@),
        decreases depth, 1int, *e, 1int,
    {
        let ghost ar = lower.arity as nat;
        let (operator, left, right) = match e {
            Expression::Binary { op, left, right } => (*op, left, right),
            _ => return Err(CompileError::Malformed),
        };
        let op = binary_op(operator);
        if op == BinaryOp::LogicalAnd || op == BinaryOp::LogicalOr {
            let ghost c0 = *self;
            let ghost l0 = *lower;
            let ghost owed = bool_owed(c0, l0, *e, None);
            let boolean = self.ty("bool")?;
            proof {
                if owed {
                    assert(bool_size(*e) == bool_size(**left) + bool_size(**right) + 2);
                    assert(bool_locals(*e) == bool_locals(**left) + bool_locals(**right) + 1);
                    assert(bool_owed(*self, *lower, **left, Some(boolean)));
                }
            }
            let l = self.value_with_hint(lower, left, Some(boolean), depth)?;
            let ghost l1 = *lower;
            let local = lower.local(None, boolean, Ghost(self.bounds(ar)))?;
            let pointer = lower.emit(Expr::LocalVariable(local), boolean, Ghost(self.bounds(ar)))?;
            lower.push(Stmt::Store { pointer: pointer.expr, value: l.expr }, Ghost(self.bounds(ar)))?;
            lower.open(Ghost(self.bounds(ar)));
            proof {
                if owed {
                    assert(*self == c0);
                    assert(lower.expressions@.len() == l0.expressions@.len() + bool_size(**left) + 1);
                    assert(lower.locals@.len() == l0.locals@.len() + bool_locals(**left) + 1);
                    assert(bool_owed(*self, *lower, **right, Some(boolean)));
                }
            }
            let ghost l2 = *lower;
            let r = self.value_with_hint(lower, right, Some(boolean), depth)?;
            let ghost l3 = *lower;
            lower.push(Stmt::Store { pointer: pointer.expr, value: r.expr }, Ghost(self.bounds(ar)))?;
            let branch = lower.close(Ghost(self.bounds(ar)))?;
            proof {
                if owed {
                    assert(l3.scopes@ == l2.scopes@);
                    assert(l2.scopes@.drop_last() == l0.scopes@);
                    assert(lower.scopes@ =~= l0.scopes@);
                    assert(lower.expressions@.len() == l0.expressions@.len() + bool_size(**left) + 1 + bool_size(**right));
                    assert(lower.locals@.len() == l0.locals@.len() + bool_locals(*e));
                    assert(lower.blocks@.len() == l0.blocks@.len());
                }
            }
            let (accept, reject) = if op == BinaryOp::LogicalAnd {
                (branch, Vec::new())
            } else {
                (Vec::new(), branch)
            };
            lower.push(Stmt::If { condition: l.expr, accept, reject }, Ghost(self.bounds(ar)))?;
            return lower.emit(Expr::Load { pointer: pointer.expr }, boolean, Ghost(self.bounds(ar)));
        }
        let l = self.value(lower, left, depth)?;
        let r = if op == BinaryOp::Multiply && self.vector_size(l.ty).is_some() {
            self.value(lower, right, depth)?
        } else if op == BinaryOp::ShiftLeft || op == BinaryOp::ShiftRight {
            let unsigned = self.ty("u32")?;
            self.value_with_hint(lower, right, Some(unsigned), depth)?
        } else {
            self.value_with_hint(lower, right, Some(l.ty), depth)?
        };
        let ty = match op {
            BinaryOp::Equal | BinaryOp::NotEqual | BinaryOp::Less | BinaryOp::LessEqual | BinaryOp::Greater
            | BinaryOp::GreaterEqual | BinaryOp::LogicalAnd | BinaryOp::LogicalOr => self.ty("bool")?,
            _ => l.ty,
        };
        lower.emit(Expr::Binary { op, left: l.expr, right: r.expr }, ty, Ghost(self.bounds(ar)))
    }

    /// Lowers each argument of the call `e` to a value of the parameter type
    /// of the lowered function `function`.
    fn call_arguments(&mut self, lower: &mut Lowering, e: &Expression, arguments: &Vec<Expression>, function: u32, depth: usize) -> (r: Result<Vec<u32>, CompileError>)
        requires
            old(self).wf(),
            lowering_ok(*old(lower), old(self).bounds(old(lower).arity as nat)),
            *e matches Expression::Call { arguments: a, .. } && a == arguments,
        ensures
            r matches Err(e) ==> lowering_refusal(e),
            final(self).wf(),
            old(self).step(*old(lower), *final(self), *final(lower)),
            r is Ok ==> frames_kept(*old(lower), *final(lower)),
            r matches Ok(v) ==> function < final(self).lowered@.len() && v@.len() == final(self).lowered@[function as int].arguments@.len()
                && forall|k: int| 0 <= k < v@.len() ==> #[trigger] v@[k] < final(lower).expressions@.len(),
            function >= old(self).lowered@.len() ==> r == Err::<Vec<u32>, CompileError>(CompileError::Malformed),
            function < old(self).lowered@.len() && old(self).lowered@[function as int].arguments@.len() != arguments@.len()
                ==> r == Err::<Vec<u32>, CompileError>(CompileError::Arity),
            function < old(self).lowered@.len() && args_owed(*old(self), *old(lower), arguments@, old(self).lowered@[function as int].arguments@)
                ==> r is Ok && final(lower).expressions@.len() == old(lower).expressions@.len() + args_size(arguments@)
                && *final(self) == *old(self),
        decreases depth, 1int, *e, 0int,
    {
        let ghost ar = lower.arity as nat;
        if function as usize >= self.lowered.len() {
            return Err(CompileError::Malformed);
        }
        if self.lowered[function as usize].arguments.len() != arguments.len() {
            return Err(CompileError::Arity);
        }
        let ghost c0 = *self;
        let ghost l0 = *lower;
        let mut out: Vec<u32> = Vec::new();
        let mut k: usize = 0;
        while k < arguments.len()
            invariant
                k <= arguments@.len(),
                self.wf(),
                *e matches Expression::Call { arguments: a, .. } && a == arguments,
                c0 == *old(self),
                l0 == *old(lower),
                c0.step(l0, *self, *lower),
                frames_kept(l0, *lower),
                ar == l0.arity as nat,
                function < c0.lowered@.len(),
                c0.lowered@[function as int].arguments@.len() == arguments@.len(),
                out@.len() == k,
                forall|q: int| 0 <= q < out@.len() ==> #[trigger] out@[q] < lower.expressions@.len(),
                args_owed(c0, l0, arguments@, c0.lowered@[function as int].arguments@) ==> *self == c0
                    && lower.expressions@.len() == l0.expressions@.len() + args_size(arguments@.subrange(0, k as int)),
            decreases arguments@.len() - k,
        {
            if function as usize >= self.lowered.len() || k >= self.lowered[function as usize].arguments.len() {
                return Err(CompileError::Malformed);
            }
            let ty = self.lowered[function as usize].arguments[k].ty;
            proof {
                assert(decreases_to!(*e => *arguments));
                assert(decreases_to!(*arguments => arguments@));
                assert(decreases_to!(arguments@ => arguments@[k as int]));
            }
            proof {
                let a = arguments@;
                let p = a.subrange(0, k + 1);
                assert(p.drop_last() =~= a.subrange(0, k as int));
                assert(p.last() == a[k as int]);
                if args_owed(c0, l0, a, c0.lowered@[function as int].arguments@) {
                    lemma_args_size_prefix(a, k as int + 1);
                    assert(plain_arith(a[k as int]));
                }
            }
            let v = self.value_with_hint(lower, &arguments[k], Some(ty), depth)?;
            out.push(v.expr);
            k += 1;
        }
        proof {
            assert(arguments@.subrange(0, arguments@.len() as int) =~= arguments@);
        }
        proof {
            assert(arities_of(self.lowered@)[function as int] == arities_of(c0.lowered@)[function as int]);
        }
        Ok(out)
    }

    /// Lowers the call `e`: a device intrinsic, or a call of a device function
    /// with a result.
    #[verifier::rlimit(100)]
    fn call(&mut self, lower: &mut Lowering, e: &Expression, depth: usize) -> (r: Result<Typed, CompileError>)
        requires
            old(self).wf(),
            lowering_ok(*old(lower), old(self).bounds(old(lower).arity as nat)),
        ensures
            r matches Err(e) ==> lowering_refusal(e),
            final(self).wf(),
            old(self).step(*old(lower), *final(self), *final(lower)),
            r is Ok ==> frames_kept(*old(lower), *final(lower)),
            r matches Ok(t) ==> typed_ok(t, final(lower).expressions@.len() as nat, final(self).bounds(old(lower).arity as nat)),
            r matches Ok(t) ==> t.expr + 1 == final(lower).expressions@.len(),
            r is Ok ==> (*e matches Expression::Call { name, .. } ==> call_lowered_as(name@, final(lower).expressions@.last())),
            !(*e is Call) ==> r == Err::<Typed, CompileError>(CompileError::Malformed),
            r is Ok && (*e matches Expression::Call { name, arguments } && name@ == "select"@) ==> (final(lower).expressions@.last()
                matches Expr::Select { condition, accept, reject } && condition < final(lower).expressions@.len()
                && accept < final(lower).expressions@.len() && reject < final(lower).expressions@.len()
                && lowered_as(e->Call_arguments@[2], final(lower).expressions@[condition as int])
                && lowered_as(e->Call_arguments@[1], final(lower).expressions@[accept as int])
                && lowered_as(e->Call_arguments@[0], final(lower).expressions@[reject as int])),
            *e matches Expression::Call { name, arguments } ==> (intrinsic_arity(name@) is Some
                && arguments@.len() != intrinsic_arity(name@)->0 ==> r == Err::<Typed, CompileError>(CompileError::Arity)),
            *e matches Expression::Call { name, .. } ==> (intrinsic_arity(name@) is None && (name@ == "workgroup_barrier"@
                || name@ == "storage_barrier"@ || name@ == "atomic_store"@) ==> r == Err::<Typed, CompileError>(CompileError::VoidValue)),
            *e matches Expression::Call { name, arguments } ==> (name@ == "uvec4"@ && arguments@.len() == 4
                && (forall|k: int| 0 <= k < 4 ==> plain_arith(#[trigger] arguments@[k]))
                && arith_owed(*old(self), *old(lower), Expression::Integer { value: 0, ty: IntegerType::Unsigned }, None)
                && first_named(old(self).named@, "uvec4"@) is Some
                && old(lower).expressions@.len() + args_size(arguments@) + 1 <= 0xffff_fff0 ==> r is Ok),
            *e matches Expression::Call { name, arguments } ==> (math_call_owed(*old(self), *old(lower), name@, arguments@) ==> r is Ok),
            *e matches Expression::Call { name, arguments } ==> (device_call_owed(*old(self), *old(lower), name@, arguments@) ==> r is Ok),
            r matches Ok(t) ==> (final(lower).expressions@.last() matches Expr::CallResult(f) ==> final(lower).blocks@.len() > 0
                && final(lower).blocks@.last()@.len() > 0
                && (final(lower).blocks@.last()@.last() matches Stmt::Call { function, result, .. } && function == f && result == Some(t.expr))),
        decreases depth, 1int, *e, 1int,
    {
        let ghost ar = lower.arity as nat;
        let (name, args) = match e {
            Expression::Call { name, arguments } => (name, arguments),
            _ => return Err(CompileError::Malformed),
        };
        proof {
            if math_fun_of(name@) is Some {
                lemma_math_names(name@);
            }
        }
        proof {
            assert(decreases_to!(*e => *args));
            assert(decreases_to!(*args => args@));
            assert forall|k: int| 0 <= k < args@.len() implies decreases_to!(*e => #[trigger] args@[k]) by {
                assert(decreases_to!(args@ => args@[k]));
            }
        }
        if is_named(name, "uvec4") {
            proof {
                reveal_strlit("uvec4");
                reveal_strlit("select");
                assert("uvec4"@[0] != "select"@[0]);
            }
            if args.len() != 4 {
                return Err(CompileError::Arity);
            }
            let unsigned = self.ty("u32")?;
            let ghost c0 = *self;
            let ghost l0 = *lower;
            let mut components: Vec<u32> = Vec::new();
            let mut k: usize = 0;
            while k < 4
                invariant
                    k <= 4,
                    args@.len() == 4,
                    *e matches Expression::Call { name: nm, arguments: a } && nm@ == "uvec4"@ && a@.len() == 4 && a == args,
                    self.wf(),
                    forall|j: int| 0 <= j < args@.len() ==> decreases_to!(*e => #[trigger] args@[j]),
                    c0.step(l0, *self, *lower),
                    frames_kept(l0, *lower),
                    c0 == *old(self),
                    l0 == *old(lower),
                    ar == l0.arity as nat,
                    unsigned < self.types@.len(),
                    components@.len() == k,
                    forall|q: int| 0 <= q < components@.len() ==> #[trigger] components@[q] < lower.expressions@.len(),
                    Some(unsigned) == first_named(c0.named@, "u32"@),
                    ((forall|j: int| 0 <= j < 4 ==> plain_arith(#[trigger] args@[j]))
                        && arith_owed(c0, l0, Expression::Integer { value: 0, ty: IntegerType::Unsigned }, None)
                        && l0.expressions@.len() + args_size(args@) + 1 <= 0xffff_fff0) ==> *self == c0
                        && lower.expressions@.len() == l0.expressions@.len() + args_size(args@.subrange(0, k as int)),
                decreases 4 - k,
            {
                proof {
                    let a = args@;
                    let p = a.subrange(0, k + 1);
                    assert(p.drop_last() =~= a.subrange(0, k as int));
                    assert(p.last() == a[k as int]);
                    lemma_args_size_prefix(a, k as int + 1);
                }
                let v = self.value_with_hint(lower, &args[k], Some(unsigned), depth)?;
                components.push(v.expr);
                k += 1;
            }
            proof {
                assert(args@.subrange(0, 4) =~= args@);
            }
            let ty = self.ty("uvec4")?;
            return lower.emit(Expr::Compose { ty, components }, ty, Ghost(self.bounds(ar)));
        }
        if is_named(name, "select") {
            if args.len() != 3 {
                return Err(CompileError::Arity);
            }
            let reject = self.value(lower, &args[0], depth)?;
            let ghost l1 = *lower;
            let accept = self.value_with_hint(lower, &args[1], Some(reject.ty), depth)?;
            let ghost l2 = *lower;
            let boolean = self.ty("bool")?;
            let condition = self.value_with_hint(lower, &args[2], Some(boolean), depth)?;
            proof {
                assert(lower.expressions@[reject.expr as int] == l1.expressions@[reject.expr as int]);
                assert(lower.expressions@[accept.expr as int] == l2.expressions@[accept.expr as int]);
            }
            return lower.emit(Expr::Select { condition: condition.expr, accept: accept.expr, reject: reject.expr }, reject.ty, Ghost(self.bounds(ar)));
        }
        if is_named(name, "bitcast_u32") || is_named(name, "bitcast_f32") {
            if args.len() != 1 {
                return Err(CompileError::Arity);
            }
            let to_unsigned = is_named(name, "bitcast_u32");
            let from = self.ty(if to_unsigned { "f32" } else { "u32" })?;
            let source = self.value_with_hint(lower, &args[0], Some(from), depth)?;
            let ty = self.ty(if to_unsigned { "u32" } else { "f32" })?;
            let kind = if to_unsigned { ScalarKind::Uint } else { ScalarKind::Float };
            return lower.emit(Expr::As { expr: source.expr, kind, convert: false }, ty, Ghost(self.bounds(ar)));
        }
        if is_named(name, "f32") || is_named(name, "i32") || is_named(name, "u32") {
            if args.len() != 1 {
                return Err(CompileError::Arity);
            }
            let source = self.value(lower, &args[0], depth)?;
            let ty = self.ty(name.as_str())?;
            let kind = self.scalar(ty)?;
            return lower.emit(Expr::As { expr: source.expr, kind, convert: true }, ty, Ghost(self.bounds(ar)));
        }
        if is_named(name, "unpack2x16float") {
            if args.len() != 1 {
                return Err(CompileError::Arity);
            }
            let unsigned = self.ty("u32")?;
            let source = self.value_with_hint(lower, &args[0], Some(unsigned), depth)?;
            let ty = self.ty("fvec2")?;
            return lower.emit(Expr::Math { fun: MathFun::Unpack2x16float, arg: source.expr, arg1: None }, ty, Ghost(self.bounds(ar)));
        }
        match math_fun(name.as_str()) {
            Some(fun) => {
                let arity: usize = if fun == MathFun::Max || fun == MathFun::Min || fun == MathFun::Pow { 2 } else { 1 };
                if args.len() != arity {
                    return Err(CompileError::Arity);
                }
                proof {
                    let a = args@;
                    if math_call_owed(*old(self), *old(lower), name@, a) {
                        assert(a.subrange(0, 1).drop_last() =~= Seq::<Expression>::empty());
                        assert(a.subrange(0, 1).last() == a[0]);
                        assert(args_size(a.subrange(0, 1).drop_last()) == 0);
                        assert(a.subrange(0, 1).len() == 1);
                        lemma_args_size_prefix(a, 1);
                        assert(args_size(a.subrange(0, 1)) == arith_size(a[0]));
                        if a.len() == 2 {
                            assert(a.drop_last() =~= a.subrange(0, 1));
                            assert(args_size(a) == arith_size(a[0]) + arith_size(a[1]));
                        }
                    }
                }
                let first = self.value(lower, &args[0], depth)?;
                let second = if arity == 2 {
                    Some(self.value_with_hint(lower, &args[1], Some(first.ty), depth)?.expr)
                } else {
                    None
                };
                return lower.emit(Expr::Math { fun, arg: first.expr, arg1: second }, first.ty, Ghost(self.bounds(ar)));
            },
            None => {},
        }
        if is_named(name, "workgroup_barrier") || is_named(name, "storage_barrier") || is_named(name, "atomic_store") {
            return Err(CompileError::VoidValue);
        }
        let ghost mid = self.bounds(ar);
        let function = self.lower_function(name.as_str(), depth);
        proof {
            lemma_lowering_grows(*lower, mid, self.bounds(ar));
        }
        let function = function?;
        let arguments = self.call_arguments(lower, e, args, function, depth)?;
        if function as usize >= self.lowered.len() {
            return Err(CompileError::Malformed);
        }
        let result = match self.lowered[function as usize].result {
            Some(t) => t,
            None => return Err(CompileError::VoidValue),
        };
        let value = lower.emit(Expr::CallResult(function), result, Ghost(self.bounds(ar)))?;
        lower.push(Stmt::Call { function, arguments, result: Some(value.expr) }, Ghost(self.bounds(ar)))?;
        Ok(value)
    }
}


impl Compiler {
    fn statements(&mut self, lower: &mut Lowering, body: &Vec<Statement>, depth: usize) -> (r: Result<(), CompileError>)
        requires
            old(self).wf(),
            lowering_ok(*old(lower), old(self).bounds(old(lower).arity as nat)),
        ensures
            r matches Err(e) ==> lowering_refusal(e),
            final(self).wf(),
            old(self).step(*old(lower), *final(self), *final(lower)),
            r is Ok ==> frames_kept(*old(lower), *final(lower)),
            r is Ok && old(lower).blocks@.len() > 0 && body@.len() > 0 ==> statement_ends(body@.last(), final(lower).blocks@.last()@),
            (forall|k: int| 0 <= k < body@.len() ==> plain_stmt(#[trigger] body@[k])) && old(lower).blocks@.len() > 0 ==> r is Ok && final(lower).expressions@ == old(lower).expressions@
                && final(lower).scopes@.len() == old(lower).scopes@.len(),
            (forall|k: int| 0 <= k < body@.len() ==> plain_stmt(#[trigger] body@[k])) && old(lower).blocks@.len() > 0
                ==> final(lower).blocks@.last()@.len() == old(lower).blocks@.last()@.len() + body@.len()
                && forall|k: int| 0 <= k < body@.len() ==> plain_lowered(#[trigger] body@[k], final(lower).blocks@.last()@[old(lower).blocks@.last()@.len() + k]),
            (forall|k: int| 0 <= k < body@.len() ==> plain_stmt(#[trigger] body@[k])) && old(lower).blocks@.len() > 0 ==> *final(self) == *old(self)
                && final(lower).locals@ == old(lower).locals@,
            (forall|k: int| 0 <= k < body@.len() ==> simple_stmt(#[trigger] body@[k])) && conditions_typed(*old(self)) && old(lower).blocks@.len() > 0
                && old(lower).expressions@.len() + body_size(body@) <= 0xffff_fff0 && old(lower).locals@.len() + body_locals(body@) <= 0xffff_fff0
                ==> r is Ok && *final(self) == *old(self)
                && final(lower).expressions@.len() == old(lower).expressions@.len() + body_size(body@)
                && final(lower).locals@.len() == old(lower).locals@.len() + body_locals(body@),
        decreases depth, 2int, body@, 2int,
    {
        let ghost ar = lower.arity as nat;
        let ghost c0 = *self;
        let ghost l0 = *lower;
        let mut i: usize = 0;
        while i < body.len()
            invariant
                i <= body@.len(),
                self.wf(),
                c0 == *old(self),
                l0 == *old(lower),
                c0.step(l0, *self, *lower),
                frames_kept(l0, *lower),
                ar == l0.arity as nat,
                i > 0 && l0.blocks@.len() > 0 ==> statement_ends(body@[i - 1], lower.blocks@.last()@),
                (forall|k: int| 0 <= k < body@.len() ==> plain_stmt(#[trigger] body@[k])) && l0.blocks@.len() > 0
                    ==> lower.expressions@ == l0.expressions@ && lower.scopes@.len() == l0.scopes@.len(),
                (forall|k: int| 0 <= k < body@.len() ==> plain_stmt(#[trigger] body@[k])) && l0.blocks@.len() > 0
                    ==> lower.blocks@.last()@.len() == l0.blocks@.last()@.len() + i
                    && forall|k: int| 0 <= k < i ==> plain_lowered(#[trigger] body@[k], lower.blocks@.last()@[l0.blocks@.last()@.len() + k]),
                (forall|k: int| 0 <= k < body@.len() ==> plain_stmt(#[trigger] body@[k])) && l0.blocks@.len() > 0 ==> *self == c0
                    && lower.locals@ == l0.locals@,
                (forall|k: int| 0 <= k < body@.len() ==> simple_stmt(#[trigger] body@[k])) && conditions_typed(c0) && l0.blocks@.len() > 0
                    && l0.expressions@.len() + body_size(body@) <= 0xffff_fff0 && l0.locals@.len() + body_locals(body@) <= 0xffff_fff0
                    ==> *self == c0 && lower.blocks@.len() > 0
                    && lower.expressions@.len() == l0.expressions@.len() + body_size(body@.subrange(0, i as int))
                    && lower.locals@.len() == l0.locals@.len() + body_locals(body@.subrange(0, i as int)),
            decreases body@.len() - i,
        {
            proof {
                if (forall|k: int| 0 <= k < body@.len() ==> simple_stmt(#[trigger] body@[k])) && conditions_typed(c0) && l0.blocks@.len() > 0
                    && l0.expressions@.len() + body_size(body@) <= 0xffff_fff0 && l0.locals@.len() + body_locals(body@) <= 0xffff_fff0 {
                    lemma_body_size_prefix(body@, i as int);
                    lemma_body_size_prefix(body@, i + 1);
                    assert(body@.subrange(0, i + 1).drop_last() =~= body@.subrange(0, i as int));
                    assert(body@.subrange(0, i + 1).last() == body@[i as int]);
                    assert(stmt_size_from(body@, i as int) == stmt_size(body@[i as int]) + stmt_size_from(body@, i + 1));
                    assert(stmt_locals_from(body@, i as int) == stmt_locals(body@[i as int]) + stmt_locals_from(body@, i + 1));
                }
            }
            self.statement(lower, &body[i], depth)?;
            i += 1;
        }
        proof {
            assert(body@.subrange(0, body@.len() as int) =~= body@);
        }
        Ok(())
    }

    /// Lowers `body` as a block of its own, whose names end with it.
    fn nested(&mut self, lower: &mut Lowering, body: &Vec<Statement>, depth: usize) -> (r: Result<Vec<Stmt>, CompileError>)
        requires
            old(self).wf(),
            lowering_ok(*old(lower), old(self).bounds(old(lower).arity as nat)),
        ensures
            r matches Err(e) ==> lowering_refusal(e),
            final(self).wf(),
            old(self).step(*old(lower), *final(self), *final(lower)),
            r is Ok ==> frames_kept(*old(lower), *final(lower)),
            r matches Ok(body) ==> body_fits(body@, final(lower).expressions@.len() as nat, final(self).lowered@.len(), arities_of(final(self).lowered@)),
            r is Ok ==> final(lower).blocks@ == old(lower).blocks@,
            r matches Ok(b) ==> (body@.len() > 0 ==> statement_ends(body@.last(), b@)),
            (forall|k: int| 0 <= k < body@.len() ==> plain_stmt(#[trigger] body@[k])) && old(lower).blocks@.len() > 0 ==> r is Ok && final(lower).expressions@ == old(lower).expressions@
                && final(lower).scopes@.len() == old(lower).scopes@.len(),
            (forall|k: int| 0 <= k < body@.len() ==> plain_stmt(#[trigger] body@[k])) && old(lower).blocks@.len() > 0 ==> (r matches Ok(b)
                && b@.len() == body@.len() && forall|k: int| 0 <= k < body@.len() ==> plain_lowered(#[trigger] body@[k], b@[k])),
            (forall|k: int| 0 <= k < body@.len() ==> plain_stmt(#[trigger] body@[k])) && old(lower).blocks@.len() > 0 ==> *final(self) == *old(self)
                && final(lower).locals@ == old(lower).locals@,
        decreases depth, 2int, body@, 3int,
    {
        let ghost ar = lower.arity as nat;
        lower.open(Ghost(self.bounds(ar)));
        self.statements(lower, body, depth)?;
        lower.close(Ghost(self.bounds(ar)))
    }

    /// Declares the mutable local `name`, holding `value`.
    fn declare(&self, lower: &mut Lowering, name: &str, value: Typed) -> (r: Result<Typed, CompileError>)
        requires
            self.wf(),
            lowering_ok(*old(lower), self.bounds(old(lower).arity as nat)),
            typed_ok(value, old(lower).expressions@.len() as nat, self.bounds(old(lower).arity as nat)),
        ensures
            r matches Err(e) ==> lowering_refusal(e),
            lowering_ok(*final(lower), self.bounds(old(lower).arity as nat)),
            kept(*old(lower), *final(lower)),
            r matches Ok(t) ==> typed_ok(t, final(lower).expressions@.len() as nat, self.bounds(old(lower).arity as nat)),
            r is Ok ==> frames_kept(*old(lower), *final(lower)),
            r is Ok ==> final(lower).blocks@.len() > 0 && final(lower).blocks@.last()@.len() > 0 && final(lower).blocks@.last()@.last() is Store,
            r is Ok <==> {
                &&& old(lower).locals@.len() < 0xffff_fff0
                &&& old(lower).expressions@.len() < 0xffff_fff0
                &&& old(lower).scopes@.len() > 0
                &&& !exists|j: int| 0 <= j < old(lower).scopes@.last()@.len() && (#[trigger] old(lower).scopes@.last()@[j]).0@ == name@
                &&& old(lower).blocks@.len() > 0
            },
            r matches Ok(t) ==> {
                &&& final(lower).locals@ == old(lower).locals@.push(Local { name: Some(final(lower).locals@.last().name->0), ty: value.ty })
                &&& final(lower).locals@.last().name->0@ == name@
                &&& t.ty == value.ty
                &&& final(lower).expressions@ == old(lower).expressions@.push(Expr::LocalVariable(old(lower).locals@.len() as u32))
                &&& final(lower).blocks@.last()@.last() == (Stmt::Store { pointer: t.expr, value: value.expr })
                &&& final(lower).scopes@.last()@.last().0@ == name@
                &&& final(lower).scopes@.last()@.last().1 == Symbol::Local(t)
            },
    {
        let ghost ar = lower.arity as nat;
        let local = lower.local(Some(name.to_owned()), value.ty, Ghost(self.bounds(ar)))?;
        let pointer = lower.emit(Expr::LocalVariable(local), value.ty, Ghost(self.bounds(ar)))?;
        lower.bind(name, Symbol::Local(pointer), Ghost(self.bounds(ar)))?;
        lower.push(Stmt::Store { pointer: pointer.expr, value: value.expr }, Ghost(self.bounds(ar)))?;
        Ok(pointer)
    }

    fn statement(&mut self, lower: &mut Lowering, s: &Statement, depth: usize) -> (r: Result<(), CompileError>)
        requires
            old(self).wf(),
            lowering_ok(*old(lower), old(self).bounds(old(lower).arity as nat)),
        ensures
            r matches Err(e) ==> lowering_refusal(e),
            final(self).wf(),
            old(self).step(*old(lower), *final(self), *final(lower)),
            r is Ok ==> frames_kept(*old(lower), *final(lower)),
            r is Ok && old(lower).blocks@.len() > 0 ==> statement_ends(*s, final(lower).blocks@.last()@),
            r is Ok && old(lower).blocks@.len() > 0 ==> unrolled_into(*s, old(self).constants_view(), old(lower).blocks@.last()@, final(lower).blocks@.last()@),
            plain_stmt(*s) && old(lower).blocks@.len() > 0 ==> r is Ok && final(lower).expressions@ == old(lower).expressions@
                && final(lower).scopes@.len() == old(lower).scopes@.len(),
            plain_stmt(*s) && old(lower).blocks@.len() > 0 ==> final(lower).blocks@.last()@.len() == old(lower).blocks@.last()@.len() + 1
                && plain_lowered(*s, final(lower).blocks@.last()@.last()),
            plain_stmt(*s) && old(lower).blocks@.len() > 0 ==> *final(self) == *old(self) && final(lower).locals@ == old(lower).locals@,
            simple_stmt(*s) && conditions_typed(*old(self)) && old(lower).blocks@.len() > 0
                && old(lower).expressions@.len() + stmt_size(*s) <= 0xffff_fff0 && old(lower).locals@.len() + stmt_locals(*s) <= 0xffff_fff0
                ==> r is Ok && *final(self) == *old(self)
                && final(lower).expressions@.len() == old(lower).expressions@.len() + stmt_size(*s)
                && final(lower).locals@.len() == old(lower).locals@.len() + stmt_locals(*s)
                && final(lower).scopes@.len() == old(lower).scopes@.len(),
        decreases depth, 2int, *s, 1int,
    {
        let ghost ar = lower.arity as nat;
        match s {
            Statement::Let { name, mutable, value } => {
                let is_registers = match value {
                    Expression::Call { name: intrinsic, .. } => is_named(intrinsic.as_str(), "scalar_array"),
                    _ => false,
                };
                if is_registers {
                    return self.registers(lower, s, depth);
                }
                if !*mutable {
                    match self.evaluate_u32(lower, value)? {
                        Some(v) => return lower.bind(name.as_str(), Symbol::Constant(v), Ghost(self.bounds(ar))),
                        None => {},
                    }
                }
                let v = self.value(lower, value, depth)?;
                if *mutable {
                    self.declare(lower, name.as_str(), v)?;
                    Ok(())
                } else {
                    lower.bind(name.as_str(), Symbol::Value(v), Ghost(self.bounds(ar)))
                }
            },
            Statement::Assign { operator, .. } => {
                let op = match operator {
                    Some(o) => Some(update_op(*o)?),
                    None => None,
                };
                self.assignment(lower, s, op, depth)
            },
            Statement::If { condition, accept, reject } => {
                let boolean = self.ty("bool")?;
                let c = self.value_with_hint(lower, condition, Some(boolean), depth)?;
                let a = self.nested(lower, accept, depth)?;
                let ghost len = lower.expressions@.len();
                let ghost rank = self.lowered@.len();
                let ghost arities = arities_of(self.lowered@);
                let r = self.nested(lower, reject, depth)?;
                proof {
                    lemma_body_grows(a@, len, lower.expressions@.len(), rank, self.lowered@.len(), arities, arities_of(self.lowered@));
                }
                lower.push(Stmt::If { condition: c.expr, accept: a, reject: r }, Ghost(self.bounds(ar)))
            },
            Statement::Match { .. } => self.matching(lower, s, depth),
            Statement::For { .. } => self.for_loop(lower, s, depth),
            Statement::While { condition, body } => {
                lower.open(Ghost(self.bounds(ar)));
                let boolean = self.ty("bool")?;
                let c = self.value_with_hint(lower, condition, Some(boolean), depth)?;
                let negated = lower.emit(Expr::Unary { op: UnaryOp::LogicalNot, expr: c.expr }, boolean, Ghost(self.bounds(ar)))?;
                let mut leave: Vec<Stmt> = Vec::new();
                leave.push(Stmt::Break);
                let stay: Vec<Stmt> = Vec::new();
                proof {
                    assert(leave@.subrange(0, 0) =~= stay@);
                    assert(leave@.len() == 1 && leave@[0] == Stmt::Break);
                    assert(stmt_fits(Stmt::Break, lower.expressions@.len(), self.lowered@.len(), arities_of(self.lowered@)));
                    assert(body_fits(stay@, lower.expressions@.len(), self.lowered@.len(), arities_of(self.lowered@)));
                    assert(body_fits(leave@, lower.expressions@.len(), self.lowered@.len(), arities_of(self.lowered@)));
                }
                lower.push(Stmt::If { condition: negated.expr, accept: leave, reject: stay }, Ghost(self.bounds(ar)))?;
                self.statements(lower, body, depth)?;
                let b = lower.close(Ghost(self.bounds(ar)))?;
                lower.push(Stmt::Loop { body: b, continuing: Vec::new(), break_if: None }, Ghost(self.bounds(ar)))
            },
            Statement::Loop(body) => {
                proof {
                    if plain_stmt(*s) {
                        assert forall|k: int| 0 <= k < body@.len() implies plain_stmt(#[trigger] body@[k]) by {
                            assert(plain_stmt(*s));
                        }
                    }
                }
                let b = self.nested(lower, body, depth)?;
                lower.push(Stmt::Loop { body: b, continuing: Vec::new(), break_if: None }, Ghost(self.bounds(ar)))
            },
            Statement::Return(value) => {
                let v = match value {
                    Some(e) => Some(self.value(lower, e, depth)?.expr),
                    None => None,
                };
                lower.push(Stmt::Return(v), Ghost(self.bounds(ar)))
            },
            Statement::Break => lower.push(Stmt::Break, Ghost(self.bounds(ar))),
            Statement::Continue => lower.push(Stmt::Continue, Ghost(self.bounds(ar))),
            Statement::Block(body) => {
                proof {
                    if plain_stmt(*s) {
                        assert forall|k: int| 0 <= k < body@.len() implies plain_stmt(#[trigger] body@[k]) by {
                            assert(plain_stmt(*s));
                        }
                    }
                }
                let b = self.nested(lower, body, depth)?;
                lower.push(Stmt::Block(b), Ghost(self.bounds(ar)))
            },
            Statement::Expression(_) => self.expression_statement(lower, s, depth),
        }
    }

    /// Declares the register array of `s`: one mutable local for each
    /// register, named by the array and its index, each holding the value.
    fn registers(&mut self, lower: &mut Lowering, s: &Statement, depth: usize) -> (r: Result<(), CompileError>)
        requires
            old(self).wf(),
            lowering_ok(*old(lower), old(self).bounds(old(lower).arity as nat)),
        ensures
            r matches Err(e) ==> lowering_refusal(e),
            final(self).wf(),
            old(self).step(*old(lower), *final(self), *final(lower)),
            r is Ok ==> frames_kept(*old(lower), *final(lower)),
            r is Ok && old(lower).blocks@.len() > 0 ==> final(lower).blocks@.last()@.len() > 0 && final(lower).blocks@.last()@.last() is Store,
            !(*s matches Statement::Let { value: Expression::Call { .. }, .. }) ==> r == Err::<(), CompileError>(CompileError::Malformed),
            *s matches Statement::Let { name, mutable, value: Expression::Call { arguments, .. } } ==> registers_ok(*old(self),
                *old(lower), name@, mutable, arguments@, r),
        decreases depth, 2int, *s, 0int,
    {
        let ghost ar = lower.arity as nat;
        let (name, mutable, arguments) = match s {
            Statement::Let { name, mutable, value: Expression::Call { arguments, .. } } => (name, *mutable, arguments),
            _ => return Err(CompileError::Malformed),
        };
        if !mutable || arguments.len() != 2 {
            return Err(CompileError::RegisterArray);
        }
        let ghost c0 = *self;
        let ghost l0 = *lower;
        let initial = self.value(lower, &arguments[0], depth)?;
        let ghost l1 = *lower;
        let count = self.evaluate(&arguments[1])?;
        if count == 0 {
            return Err(CompileError::RegisterArray);
        }
        let ghost owed = arith_owed(c0, l0, arguments@[0], None) && l0.scopes@.len() > 0
            && !(exists|j: int| 0 <= j < l0.scopes@.last()@.len() && (#[trigger] l0.scopes@.last()@[j]).0@ == name@)
            && l0.locals@.len() + count <= 0xffff_fff0
            && l0.expressions@.len() + arith_size(arguments@[0]) + count <= 0xffff_fff0;
        let mut registers: Vec<Typed> = Vec::new();
        let mut index: u32 = 0;
        while index < count
            invariant
                index <= count,
                self.wf(),
                old(self).step(*old(lower), *self, *lower),
                frames_kept(*old(lower), *lower),
                index > 0 && old(lower).blocks@.len() > 0 ==> lower.blocks@.last()@.len() > 0 && lower.blocks@.last()@.last() is Store,
                ar == old(lower).arity as nat,
                typed_ok(initial, lower.expressions@.len(), self.bounds(ar)),
                forall|q: int| 0 <= q < registers@.len() ==> typed_ok(#[trigger] registers@[q], lower.expressions@.len(), self.bounds(ar)),
                *s matches Statement::Let { name: n, mutable: m, value: Expression::Call { arguments: a, .. } } && n == name && m
                    && a == arguments,
                c0 == *old(self),
                l0 == *old(lower),
                count > 0,
                arguments@.len() == 2,
                arith_owed(c0, l0, arguments@[0], None) ==> constant_value(arguments@[1], c0.constants_view()) == Ok::<u32, CompileError>(count),
                owed == (arith_owed(c0, l0, arguments@[0], None) && l0.scopes@.len() > 0
                    && !(exists|j: int| 0 <= j < l0.scopes@.last()@.len() && (#[trigger] l0.scopes@.last()@[j]).0@ == name@)
                    && l0.locals@.len() + count <= 0xffff_fff0
                    && l0.expressions@.len() + arith_size(arguments@[0]) + count <= 0xffff_fff0),
                owed ==> lower.scopes@ == l0.scopes@ && lower.locals@.len() == l0.locals@.len() + index
                    && lower.expressions@.len() == l0.expressions@.len() + arith_size(arguments@[0]) + index
                    && lower.blocks@.len() == l0.blocks@.len() && l0.locals@.len() + count <= 0xffff_fff0
                    && l0.expressions@.len() + arith_size(arguments@[0]) + count <= 0xffff_fff0
                    && l0.blocks@.len() > 0,
            decreases count - index,
        {
            let local = lower.local(Some(register_name(name.as_str(), index)), initial.ty, Ghost(self.bounds(ar)))?;
            let pointer = lower.emit(Expr::LocalVariable(local), initial.ty, Ghost(self.bounds(ar)))?;
            lower.push(Stmt::Store { pointer: pointer.expr, value: initial.expr }, Ghost(self.bounds(ar)))?;
            registers.push(pointer);
            index += 1;
        }
        lower.bind(name.as_str(), Symbol::Array(registers), Ghost(self.bounds(ar)))
    }

    /// Lowers the assignment `s`, which applies `op` to the place where it has one.
    fn assignment(&mut self, lower: &mut Lowering, s: &Statement, op: Option<BinaryOp>, depth: usize) -> (r: Result<(), CompileError>)
        requires
            old(self).wf(),
            lowering_ok(*old(lower), old(self).bounds(old(lower).arity as nat)),
        ensures
            r matches Err(e) ==> lowering_refusal(e),
            final(self).wf(),
            old(self).step(*old(lower), *final(self), *final(lower)),
            r is Ok ==> frames_kept(*old(lower), *final(lower)),
            r is Ok ==> final(lower).blocks@.len() > 0 && final(lower).blocks@.last()@.len() > 0 && final(lower).blocks@.last()@.last() is Store,
            r is Ok ==> (op matches Some(o) ==> (final(lower).blocks@.last()@.last() matches Stmt::Store { value, .. }
                && value < final(lower).expressions@.len()
                && (final(lower).expressions@[value as int] matches Expr::Binary { op: b, .. } && b == o))),
            !(*s is Assign) ==> r == Err::<(), CompileError>(CompileError::Malformed),
            *s matches Statement::Assign { place, .. } ==> (!(place is Name || place is Field || place is Index)
                ==> r == Err::<(), CompileError>(CompileError::NotPlace)),
            *s matches Statement::Assign { place, value, .. } ==> (assign_owed(*old(self), *old(lower), place, value) ==> r is Ok),
        decreases depth, 2int, *s, 0int,
    {
        let ghost ar = lower.arity as nat;
        let (place, value) = match s {
            Statement::Assign { place, value, .. } => (place, value),
            _ => return Err(CompileError::Malformed),
        };
        let destination = match self.place(lower, place, depth)? {
            Some(d) => d,
            None => return Err(CompileError::NotPlace),
        };
        let v = match op {
            Some(o) => {
                let old = lower.emit(Expr::Load { pointer: destination.expr }, destination.ty, Ghost(self.bounds(ar)))?;
                let incoming = self.value_with_hint(lower, value, Some(destination.ty), depth)?;
                lower.emit(Expr::Binary { op: o, left: old.expr, right: incoming.expr }, destination.ty, Ghost(self.bounds(ar)))?
            },
            None => self.value_with_hint(lower, value, Some(destination.ty), depth)?,
        };
        lower.push(Stmt::Store { pointer: destination.expr, value: v.expr }, Ghost(self.bounds(ar)))
    }

    /// Lowers the match `s` to a switch on an integer selector, with a case
    /// for each arm; it covers its fallback.
    fn matching(&mut self, lower: &mut Lowering, s: &Statement, depth: usize) -> (r: Result<(), CompileError>)
        requires
            old(self).wf(),
            lowering_ok(*old(lower), old(self).bounds(old(lower).arity as nat)),
        ensures
            r matches Err(e) ==> lowering_refusal(e),
            final(self).wf(),
            old(self).step(*old(lower), *final(self), *final(lower)),
            r is Ok ==> frames_kept(*old(lower), *final(lower)),
            r is Ok ==> (*s matches Statement::Match { arms, .. } ==> final(lower).blocks@.len() > 0 && statement_ends(*s, final(lower).blocks@.last()@)),
            !(*s is Match) ==> r == Err::<(), CompileError>(CompileError::Malformed),
            *s matches Statement::Match { selector, arms } ==> (matching_owed(*old(self), *old(lower), selector, arms@) ==> (r is Ok
                <==> exists|k: int| 0 <= k < arms@.len() && (#[trigger] arms@[k]).pattern is Default)),
            *s matches Statement::Match { selector, arms } ==> (matching_owed(*old(self), *old(lower), selector, arms@)
                && !(exists|k: int| 0 <= k < arms@.len() && (#[trigger] arms@[k]).pattern is Default)
                ==> r == Err::<(), CompileError>(CompileError::NoDefault)),
        decreases depth, 2int, *s, 0int,
    {
        let ghost ar = lower.arity as nat;
        let (selector, arms) = match s {
            Statement::Match { selector, arms } => (selector, arms),
            _ => return Err(CompileError::Malformed),
        };
        let ghost c0 = *self;
        let ghost l0 = *lower;
        let sel = self.value(lower, selector, depth)?;
        let ghost l1 = *lower;
        let unsigned = self.ty("u32")?;
        let signed = self.ty("i32")?;
        if sel.ty != unsigned && sel.ty != signed {
            return Err(CompileError::Selector);
        }
        let mut cases: Vec<Case> = Vec::new();
        let mut covered = false;
        let mut k: usize = 0;
        while k < arms.len()
            invariant
                k <= arms@.len(),
                self.wf(),
                *s matches Statement::Match { arms: a, .. } && a == arms,
                old(self).step(*old(lower), *self, *lower),
                frames_kept(*old(lower), *lower),
                ar == old(lower).arity as nat,
                sel.expr < lower.expressions@.len(),
                cases@.len() == k,
                forall|q: int| 0 <= q < k && arms@[q].body@.len() > 0
                    ==> statement_ends(#[trigger] arms@[q].body@[arms@[q].body@.len() - 1], cases@[q].body@),
                cases_fits(cases@, lower.expressions@.len(), self.lowered@.len(), arities_of(self.lowered@)),
                c0 == *old(self),
                l0 == *old(lower),
                *s matches Statement::Match { selector: x, .. } && x == selector,
                matching_owed(c0, l0, *selector, arms@) ==> lower.expressions@.len() == l1.expressions@.len()
                    && lower.blocks@.len() == l0.blocks@.len() && l0.blocks@.len() > 0,
                covered == exists|q: int| 0 <= q < k && (#[trigger] arms@[q]).pattern is Default,
            decreases arms@.len() - k,
        {
            let arm = &arms[k];
            let value = match &arm.pattern {
                Pattern::Default => CaseValue::Default,
                Pattern::Integer(v) => CaseValue::U32(*v),
                Pattern::Constant(name) => match self.functions.value_of(name.as_str()) {
                    Some(v) => CaseValue::U32(v),
                    None => return Err(CompileError::UnknownConstant),
                },
            };
            proof {
                assert(decreases_to!(*s => *arms));
                assert(decreases_to!(*arms => arms@));
                assert(decreases_to!(arms@ => arms@[k as int]));
                assert(decreases_to!(arms@[k as int] => arms@[k as int].body));
                assert(decreases_to!(arms@[k as int].body => arms@[k as int].body@));
            }
            let ghost len = lower.expressions@.len();
            let ghost rank = self.lowered@.len();
            let ghost arities = arities_of(self.lowered@);
            proof {
                if matching_owed(c0, l0, *selector, arms@) {
                    assert(arms@[k as int].pattern is Default || arms@[k as int].pattern is Integer);
                    assert forall|j: int| 0 <= j < arms@[k as int].body@.len() implies plain_stmt(#[trigger] arms@[k as int].body@[j]) by {
                        assert(matching_owed(c0, l0, *selector, arms@));
                    }
                }
            }
            let body = self.nested(lower, &arm.body, depth)?;
            if value == CaseValue::Default {
                covered = true;
            }
            proof {
                assert(value == CaseValue::Default <==> arms@[k as int].pattern is Default);
            }
            let case = Case { value, body, fall_through: false };
            proof {
                lemma_cases_grows(cases@, len, lower.expressions@.len(), rank, self.lowered@.len(), arities, arities_of(self.lowered@));
                lemma_cases_push(cases@, case, lower.expressions@.len(), self.lowered@.len(), arities_of(self.lowered@));
            }
            cases.push(case);
            k += 1;
        }
        if !covered {
            return Err(CompileError::NoDefault);
        }
        lower.push(Stmt::Switch { selector: sel.expr, cases }, Ghost(self.bounds(ar)))
    }

    /// Lowers the counted loop `s`: unrolled into a block per index where it
    /// asks so, else a loop over a mutable index.
    fn for_loop(&mut self, lower: &mut Lowering, s: &Statement, depth: usize) -> (r: Result<(), CompileError>)
        requires
            old(self).wf(),
            lowering_ok(*old(lower), old(self).bounds(old(lower).arity as nat)),
        ensures
            r matches Err(e) ==> lowering_refusal(e),
            final(self).wf(),
            old(self).step(*old(lower), *final(self), *final(lower)),
            r is Ok ==> frames_kept(*old(lower), *final(lower)),
            r is Ok ==> (*s matches Statement::For { unroll, .. } && !unroll ==> final(lower).blocks@.len() > 0 && statement_ends(*s, final(lower).blocks@.last()@)),
            r is Ok && old(lower).blocks@.len() > 0 ==> unrolled_into(*s, old(self).constants_view(), old(lower).blocks@.last()@, final(lower).blocks@.last()@),
            !(*s is For) ==> r == Err::<(), CompileError>(CompileError::Malformed),
            *s matches Statement::For { start, end, step, unroll, .. } ==> (unroll ==> {
                let first = constant_value(start, old(self).constants_view());
                let limit = constant_value(end, old(self).constants_view());
                let increment = constant_value(step, old(self).constants_view());
                &&& first is Err ==> r == Err::<(), CompileError>(first->Err_0)
                &&& first is Ok && limit is Err ==> r == Err::<(), CompileError>(limit->Err_0)
                &&& first is Ok && limit is Ok && increment is Err ==> r == Err::<(), CompileError>(increment->Err_0)
                &&& first is Ok && limit is Ok && increment == Ok::<u32, CompileError>(0u32) ==> r == Err::<(), CompileError>(CompileError::NotAdvancing)
                &&& first is Ok && limit is Ok && increment is Ok && increment->Ok_0 > 0 && first->Ok_0 >= limit->Ok_0
                    ==> r is Ok && *final(self) == *old(self) && *final(lower) == *old(lower)
            }),
        decreases depth, 2int, *s, 0int,
    {
        let ghost ar = lower.arity as nat;
        let (name, start, end, step, unroll, body) = match s {
            Statement::For { name, start, end, step, unroll, body } => (name, start, end, step, *unroll, body),
            _ => return Err(CompileError::Malformed),
        };
        if unroll {
            let first = self.evaluate(start)?;
            let limit = self.evaluate(end)?;
            let increment = self.evaluate(step)?;
            if increment == 0 {
                return Err(CompileError::NotAdvancing);
            }
            let mut index = first;
            while index < limit
                invariant_except_break
                    old(lower).blocks@.len() > 0 ==> lower.blocks@.last()@.len() + unrolled(index, limit, increment)
                        == old(lower).blocks@.last()@.len() + unrolled(first, limit, increment),
                invariant
                    self.wf(),
                    increment > 0,
                    *s matches Statement::For { body: b, start: x, end: y, step: z, .. } && b == body && x == start && y == end && z == step,
                    index >= first,
                    constant_value(*start, old(self).constants_view()) == Ok::<u32, CompileError>(first),
                    constant_value(*end, old(self).constants_view()) == Ok::<u32, CompileError>(limit),
                    constant_value(*step, old(self).constants_view()) == Ok::<u32, CompileError>(increment),
                    first >= limit ==> *self == *old(self) && *lower == *old(lower),
                    old(self).step(*old(lower), *self, *lower),
                    frames_kept(*old(lower), *lower),
                    ar == old(lower).arity as nat,
                    old(lower).blocks@.len() > 0 ==> forall|j: int| old(lower).blocks@.last()@.len() <= j < lower.blocks@.last()@.len()
                        ==> #[trigger] lower.blocks@.last()@[j] is Block,
                ensures
                    old(lower).blocks@.len() > 0 ==> lower.blocks@.last()@.len()
                        == old(lower).blocks@.last()@.len() + unrolled(first, limit, increment),
                decreases u32::MAX - index,
            {
                lower.open(Ghost(self.bounds(ar)));
                lower.bind(name.as_str(), Symbol::Constant(index), Ghost(self.bounds(ar)))?;
                self.statements(lower, body, depth)?;
                let b = lower.close(Ghost(self.bounds(ar)))?;
                lower.push(Stmt::Block(b), Ghost(self.bounds(ar)))?;
                let next = index.checked_add(increment);
                match next {
                    Some(n) => {
                        index = n;
                    },
                    None => {
                        break;
                    },
                }
            }
            return Ok(());
        }
        let initial = self.value(lower, start, depth)?;
        let unsigned = self.ty("u32")?;
        if initial.ty != unsigned {
            return Err(CompileError::SignedIndex);
        }
        let ghost before = *lower;
        lower.scopes.push(Vec::new());
        proof {
            assert forall|k: int, j: int| 0 <= k < lower.scopes@.len() && 0 <= j < lower.scopes@[k]@.len() implies symbol_ok(
                #[trigger] lower.scopes@[k]@[j].1,
                lower.expressions@.len(),
                self.bounds(ar),
            ) by {
                assert(k < before.scopes@.len());
                assert(lower.scopes@[k] == before.scopes@[k]);
            }
        }
        let position = self.declare(lower, name.as_str(), initial)?;
        lower.open(Ghost(self.bounds(ar)));
        let current = lower.emit(Expr::Load { pointer: position.expr }, position.ty, Ghost(self.bounds(ar)))?;
        let limit = self.value_with_hint(lower, end, Some(position.ty), depth)?;
        let boolean = self.ty("bool")?;
        let condition = lower.emit(Expr::Binary { op: BinaryOp::GreaterEqual, left: current.expr, right: limit.expr }, boolean, Ghost(self.bounds(ar)))?;
        let mut leave: Vec<Stmt> = Vec::new();
        leave.push(Stmt::Break);
        let stay: Vec<Stmt> = Vec::new();
        proof {
            assert(leave@.subrange(0, 0) =~= stay@);
            assert(leave@.len() == 1 && leave@[0] == Stmt::Break);
            assert(stmt_fits(Stmt::Break, lower.expressions@.len(), self.lowered@.len(), arities_of(self.lowered@)));
            assert(body_fits(stay@, lower.expressions@.len(), self.lowered@.len(), arities_of(self.lowered@)));
            assert(body_fits(leave@, lower.expressions@.len(), self.lowered@.len(), arities_of(self.lowered@)));
        }
        lower.push(Stmt::If { condition: condition.expr, accept: leave, reject: stay }, Ghost(self.bounds(ar)))?;
        self.statements(lower, body, depth)?;
        let b = lower.close(Ghost(self.bounds(ar)))?;
        let ghost len = lower.expressions@.len();
        let ghost rank = self.lowered@.len();
        let ghost arities = arities_of(self.lowered@);
        lower.open(Ghost(self.bounds(ar)));
        let current = lower.emit(Expr::Load { pointer: position.expr }, position.ty, Ghost(self.bounds(ar)))?;
        let increment = self.value_with_hint(lower, step, Some(position.ty), depth)?;
        let next = lower.emit(Expr::Binary { op: BinaryOp::Add, left: current.expr, right: increment.expr }, position.ty, Ghost(self.bounds(ar)))?;
        lower.push(Stmt::Store { pointer: position.expr, value: next.expr }, Ghost(self.bounds(ar)))?;
        let c = lower.close(Ghost(self.bounds(ar)))?;
        proof {
            lemma_body_grows(b@, len, lower.expressions@.len(), rank, self.lowered@.len(), arities, arities_of(self.lowered@));
        }
        lower.push(Stmt::Loop { body: b, continuing: c, break_if: None }, Ghost(self.bounds(ar)))?;
        let ghost pushed = *lower;
        match lower.scopes.pop() {
            Some(_) => {
                proof {
                    assert forall|k: int, j: int| 0 <= k < lower.scopes@.len() && 0 <= j < lower.scopes@[k]@.len() implies symbol_ok(
                        #[trigger] lower.scopes@[k]@[j].1,
                        lower.expressions@.len(),
                        self.bounds(ar),
                    ) by {
                        assert(lower.scopes@[k] == pushed.scopes@[k]);
                    }
                }
                Ok(())
            },
            None => Err(CompileError::Malformed),
        }
    }

    /// Lowers the expression statement `s`: a barrier, an atomic store, a call
    /// of a function without result, or a value computed for its effects.
    fn expression_statement(&mut self, lower: &mut Lowering, s: &Statement, depth: usize) -> (r: Result<(), CompileError>)
        requires
            old(self).wf(),
            lowering_ok(*old(lower), old(self).bounds(old(lower).arity as nat)),
        ensures
            r matches Err(e) ==> lowering_refusal(e),
            final(self).wf(),
            old(self).step(*old(lower), *final(self), *final(lower)),
            r is Ok ==> frames_kept(*old(lower), *final(lower)),
            r is Ok && old(lower).blocks@.len() > 0 ==> statement_ends(*s, final(lower).blocks@.last()@),
            *s is Expression && plain_stmt(*s) && old(lower).blocks@.len() > 0 ==> r is Ok && final(lower).expressions@ == old(lower).expressions@
                && final(lower).scopes@.len() == old(lower).scopes@.len(),
            *s is Expression && plain_stmt(*s) && old(lower).blocks@.len() > 0 ==> final(lower).blocks@.last()@.len() == old(lower).blocks@.last()@.len() + 1
                && plain_lowered(*s, final(lower).blocks@.last()@.last()),
            *s is Expression && plain_stmt(*s) && old(lower).blocks@.len() > 0 ==> *final(self) == *old(self) && final(lower).locals@ == old(lower).locals@,
            !(*s is Expression) ==> r == Err::<(), CompileError>(CompileError::Malformed),
            *s matches Statement::Expression(Expression::Call { name, arguments }) ==> ((name@ == "workgroup_barrier"@
                || name@ == "storage_barrier"@) && arguments@.len() != 0 ==> r == Err::<(), CompileError>(CompileError::Arity)),
        decreases depth, 2int, *s, 0int,
    {
        let ghost ar = lower.arity as nat;
        let e = match s {
            Statement::Expression(e) => e,
            _ => return Err(CompileError::Malformed),
        };
        match e {
            Expression::Call { name, arguments } => {
                if is_named(name.as_str(), "workgroup_barrier") || is_named(name.as_str(), "storage_barrier") {
                    if arguments.len() != 0 {
                        return Err(CompileError::Arity);
                    }
                    let storage = is_named(name.as_str(), "storage_barrier");
                    return lower.push(Stmt::Barrier { storage }, Ghost(self.bounds(ar)));
                }
                if is_named(name.as_str(), "atomic_store") {
                    if arguments.len() != 2 {
                        return Err(CompileError::Arity);
                    }
                    let pointer = match &arguments[0] {
                        Expression::Reference(reference) => match self.place(lower, reference, depth)? {
                            Some(p) => p,
                            None => return Err(CompileError::NotPlace),
                        },
                        _ => return Err(CompileError::Reference),
                    };
                    let unsigned = self.ty("u32")?;
                    let v = self.value_with_hint(lower, &arguments[1], Some(unsigned), depth)?;
                    return lower.push(Stmt::Store { pointer: pointer.expr, value: v.expr }, Ghost(self.bounds(ar)));
                }
                let void = match self.functions.function_named(name.as_str()) {
                    Some(f) => f.result.is_none(),
                    None => false,
                };
                if void {
                    let ghost mid = self.bounds(ar);
                    let function = self.lower_function(name.as_str(), depth);
                    proof {
                        lemma_lowering_grows(*lower, mid, self.bounds(ar));
                    }
                    let function = function?;
                    let args = self.call_arguments(lower, e, arguments, function, depth)?;
                    return lower.push(Stmt::Call { function, arguments: args, result: None }, Ghost(self.bounds(ar)));
                }
            },
            _ => {},
        }
        self.value(lower, e, depth)?;
        Ok(())
    }

    /// Lowers the device function `name` once, and returns its handle; a
    /// function that reaches itself is refused. `depth` bounds how many
    /// functions are being lowered at once; it exceeds the number of declared
    /// functions, so it runs out only where a function would reach itself.
    fn lower_function(&mut self, name: &str, depth: usize) -> (r: Result<u32, CompileError>)
        requires
            old(self).wf(),
        ensures
            r matches Err(e) ==> lowering_refusal(e),
            final(self).wf(),
            old(self).grows(*final(self)),
            r matches Ok(h) ==> h < final(self).lowered@.len(),
            (exists|q: int| 0 <= q < old(self).lowered_names@.len() && (#[trigger] old(self).lowered_names@[q]).0@ == name@) ==> {
                &&& *final(self) == *old(self)
                &&& r matches Ok(h) && exists|q: int| 0 <= q < old(self).lowered_names@.len()
                    && (#[trigger] old(self).lowered_names@[q]).0@ == name@ && old(self).lowered_names@[q].1 == h
            },
            !(exists|q: int| 0 <= q < old(self).lowered_names@.len() && (#[trigger] old(self).lowered_names@[q]).0@ == name@)
                && (exists|j: int| 0 <= j < old(self).pending@.len() && (#[trigger] old(self).pending@[j])@ == name@)
                ==> r == Err::<u32, CompileError>(CompileError::Recursive),
        decreases depth, 0int, name@, 0int,
    {
        let wanted = name.to_owned();
        let mut i: usize = 0;
        while i < self.lowered_names.len()
            invariant
                i <= self.lowered_names@.len(),
                self.wf(),
                *self == *old(self),
                wanted@ == name@,
                forall|q: int| 0 <= q < i ==> (#[trigger] self.lowered_names@[q]).0@ != name@,
            decreases self.lowered_names@.len() - i,
        {
            if self.lowered_names[i].0 == wanted {
                return Ok(self.lowered_names[i].1);
            }
            i += 1;
        }
        let mut j: usize = 0;
        while j < self.pending.len()
            invariant
                j <= self.pending@.len(),
                self.wf(),
                *self == *old(self),
                wanted@ == name@,
                forall|q: int| 0 <= q < self.lowered_names@.len() ==> (#[trigger] self.lowered_names@[q]).0@ != name@,
                forall|q: int| 0 <= q < j ==> (#[trigger] self.pending@[q])@ != name@,
            decreases self.pending@.len() - j,
        {
            if self.pending[j] == wanted {
                return Err(CompileError::Recursive);
            }
            j += 1;
        }
        if depth == 0 {
            return Err(CompileError::Recursive);
        }
        self.pending.push(wanted);
        let function = match self.functions.function_named(name) {
            Some(f) => f.copy(),
            None => return Err(CompileError::UnknownFunction),
        };
        let lowered = self.lower_body(&function, false, depth - 1)?;
        if self.lowered.len() >= 0xffff_fff0 {
            return Err(CompileError::Overflow);
        }
        let ghost before = self.lowered@;
        let ghost g = self.globals@.len();
        let ghost t = self.types@.len();
        let ghost names = self.lowered_names@;
        self.lowered.push(lowered);
        let handle = (self.lowered.len() - 1) as u32;
        self.lowered_names.push((name.to_owned(), handle));
        proof {
            let a0 = arities_of(before);
            let a1 = arities_of(self.lowered@);
            assert forall|j: int| 0 <= j < a0.len() implies #[trigger] a1[j] == a0[j] by {
                assert(self.lowered@[j] == before[j]);
            }
            assert(extends(a0, a1));
            assert forall|j: int| 0 <= j < self.lowered@.len() implies function_fits(
                #[trigger] self.lowered@[j],
                j as nat,
                g,
                t,
                a1,
            ) by {
                if j < before.len() {
                    assert(self.lowered@[j] == before[j]);
                    lemma_function_grows(before[j], j as nat, g, g, t, t, a0, a1);
                } else {
                    lemma_function_grows(self.lowered@[j], before.len(), g, g, t, t, a0, a1);
                }
            }
            assert forall|q: int| 0 <= q < self.lowered_names@.len() implies #[trigger] self.lowered_names@[q].1 < self.lowered@.len() by {
                if q < names.len() {
                    assert(self.lowered_names@[q] == names[q]);
                }
            }
            assert(extends(arities_of(old(self).lowered@), a0));
        }
        let wanted = name.to_owned();
        let mut k: usize = 0;
        while k < self.pending.len()
            invariant
                k <= self.pending@.len(),
                self.wf(),
                old(self).grows(*self),
                handle < self.lowered@.len(),
            decreases self.pending@.len() - k,
        {
            if self.pending[k] == wanted {
                self.pending.remove(k);
                break;
            }
            k += 1;
        }
        Ok(handle)
    }

    /// Lowers `function`: its result and arguments, which for an entry receive
    /// device builtins, and its body.
    fn lower_body(&mut self, function: &Function, entry: bool, depth: usize) -> (r: Result<LoweredFunction, CompileError>)
        requires
            old(self).wf(),
        ensures
            r matches Err(e) ==> lowering_refusal(e),
            final(self).wf(),
            old(self).grows(*final(self)),
            r matches Ok(lowered) ==> signature_kept(*function, lowered, entry),
            r matches Ok(lowered) ==> (function.body@.len() > 0 ==> statement_ends(function.body@.last(), lowered.body@)),
            r matches Ok(lowered) ==> function_fits(
                lowered,
                final(self).lowered@.len(),
                final(self).globals@.len(),
                final(self).types@.len(),
                arities_of(final(self).lowered@),
            ),
            entry && (exists|k: int| 0 <= k < function.arguments@.len()
                && entry_builtin(#[trigger] function.arguments@[k].name@) is None) ==> r is Err,
            function.arguments@.len() == 0 && function.result is None
                && (forall|k: int| 0 <= k < function.body@.len() ==> plain_stmt(#[trigger] function.body@[k]))
                ==> r is Ok && r->Ok_0.expressions@.len() == 0 && r->Ok_0.result is None && r->Ok_0.arguments@.len() == 0,
            function.arguments@.len() == 0 && function.result is None
                && (forall|k: int| 0 <= k < function.body@.len() ==> plain_stmt(#[trigger] function.body@[k]))
                ==> *final(self) == *old(self) && r->Ok_0.body@.len() == function.body@.len()
                && forall|k: int| 0 <= k < function.body@.len() ==> plain_lowered(#[trigger] function.body@[k], r->Ok_0.body@[k]),
        decreases depth, 2int, function.body@, 4int,
    {
        let result = match &function.result {
            Some(t) => Some(self.rust_type(t)?),
            None => None,
        };
        let mut arguments: Vec<LoweredArgument> = Vec::new();
        let mut lower = Lowering {
            arity: function.arguments.len(),
            locals: Vec::new(),
            expressions: Vec::new(),
            scopes: Vec::new(),
            blocks: Vec::new(),
        };
        let ghost ar = lower.arity as nat;
        lower.open(Ghost(self.bounds(ar)));
        let mut k: usize = 0;
        while k < function.arguments.len()
            invariant
                k <= function.arguments@.len(),
                self.wf(),
                old(self).grows(*self),
                ar == function.arguments@.len(),
                lowering_ok(lower, self.bounds(ar)),
                lower.blocks@.len() == 1,
                match result {
                    Some(t) => t < self.types@.len(),
                    None => true,
                },
                forall|j: int| 0 <= j < arguments@.len() ==> #[trigger] arguments@[j].ty < self.types@.len(),
                arguments@.len() == k,
                forall|j: int| 0 <= j < k ==> {
                    &&& (#[trigger] arguments@[j]).name@ == function.arguments@[j].name@
                    &&& arguments@[j].binding == if entry { entry_builtin(function.arguments@[j].name@) } else { None::<Builtin> }
                },
                entry ==> forall|j: int| 0 <= j < k ==> (#[trigger] entry_builtin(function.arguments@[j].name@)) is Some,
                k == 0 ==> lower.expressions@.len() == 0,
                k == 0 && function.result is None ==> *self == *old(self),
                k == 0 ==> lower.blocks@[0]@.len() == 0,
                (result is None) == (function.result is None),
            decreases function.arguments@.len() - k,
        {
            let argument = &function.arguments[k];
            let ghost mid = self.bounds(ar);
            let ty = self.rust_type(&argument.ty);
            proof {
                lemma_lowering_grows(lower, mid, self.bounds(ar));
            }
            let ty = ty?;
            let binding = if entry {
                if is_named(argument.name.as_str(), "lid") {
                    Some(Builtin::LocalInvocationIndex)
                } else if is_named(argument.name.as_str(), "group") {
                    Some(Builtin::WorkGroupId)
                } else if is_named(argument.name.as_str(), "global") {
                    Some(Builtin::GlobalInvocationId)
                } else {
                    return Err(CompileError::NotBuiltin);
                }
            } else {
                None
            };
            if arguments.len() >= 0xffff_fff0 {
                return Err(CompileError::Overflow);
            }
            let index = arguments.len() as u32;
            arguments.push(LoweredArgument { name: argument.name.clone(), ty, binding });
            let expr = lower.emit(Expr::FunctionArgument(index), ty, Ghost(self.bounds(ar)))?;
            lower.bind(argument.name.as_str(), Symbol::Value(expr), Ghost(self.bounds(ar)))?;
            k += 1;
        }
        let ghost before_body = *self;
        self.statements(&mut lower, &function.body, depth)?;
        let ghost blocks = lower.blocks@;
        let body = match lower.blocks.pop() {
            Some(b) => b,
            None => return Err(CompileError::Malformed),
        };
        proof {
            assert(body == blocks[blocks.len() - 1]);
            assert(body_fits(blocks[blocks.len() - 1]@, lower.expressions@.len() as nat, self.lowered@.len(), arities_of(self.lowered@)));
        }
        Ok(LoweredFunction {
            name: function.name.clone(),
            arguments,
            result,
            locals: lower.locals,
            expressions: lower.expressions,
            body,
        })
    }
}


/// A refusal that lowering a function can give: neither a store where a
/// kernel may not write nor a barrier out of uniform control, which only the
/// checks of a finished module give.
pub open spec fn lowering_refusal(e: CompileError) -> bool {
    !(e is ReadOnly) && !(e is Divergent)
}

/// Whether `m` is a module lowered from the entry `entry` of the functions
/// `functions`, with the globals `globals`: well formed, its entry keeping
/// the signature of a declaration of that name and ending as its body does.
pub open spec fn lowered_from(functions: Seq<Function>, globals: Seq<GlobalVar>, entry: Seq<char>, m: LoweredModule) -> bool {
    &&& m.wf()
    &&& m.globals@ == globals
    &&& exists|i: int| declared_at(functions, entry, i)
        && signature_kept(functions[i], m.entry, true)
        && (functions[i].body@.len() > 0 ==> statement_ends(functions[i].body@.last(), m.entry.body@))
}

/// An entry a kernel is always made of: no arguments, no result, and a body of
/// plain statements.
pub open spec fn plain_entry(f: Function) -> bool {
    &&& f.arguments@.len() == 0
    &&& f.result is None
    &&& forall|k: int| 0 <= k < f.body@.len() ==> plain_stmt(#[trigger] f.body@[k])
}

/// A statement alike to a plain one is plain.
proof fn lemma_same_plain(a: Statement, b: Statement)
    requires
        crate::ir::stmt_same(a, b),
        plain_stmt(a),
    ensures
        plain_stmt(b),
    decreases a,
{
    match a {
        Statement::Loop(body) => {
            if let Statement::Loop(x) = b {
                assert forall|k: int| 0 <= k < x@.len() implies plain_stmt(#[trigger] x@[k]) by {
                    assert(decreases_to!(a => body));
                    assert(decreases_to!(body => body@));
                    assert(decreases_to!(body@ => body@[k]));
                    lemma_same_plain(body@[k], x@[k]);
                }
            }
        },
        Statement::Block(body) => {
            if let Statement::Block(x) = b {
                assert forall|k: int| 0 <= k < x@.len() implies plain_stmt(#[trigger] x@[k]) by {
                    assert(decreases_to!(a => body));
                    assert(decreases_to!(body => body@));
                    assert(decreases_to!(body@ => body@[k]));
                    lemma_same_plain(body@[k], x@[k]);
                }
            }
        },
        _ => {},
    }
}

/// Whether lowered statement `x` runs the same way in every invocation: a
/// `break`, a `continue`, a return of nothing, a barrier, or a loop without
/// continuing block or condition, or a block, of such statements.
pub open spec fn straight(x: Stmt) -> bool
    decreases x,
{
    match x {
        Stmt::Break => true,
        Stmt::Continue => true,
        Stmt::Return(v) => v is None,
        Stmt::Barrier { .. } => true,
        Stmt::Loop { body, continuing, break_if } => continuing@.len() == 0 && break_if is None
            && forall|j: int| 0 <= j < body@.len() ==> straight(#[trigger] body@[j]),
        Stmt::Block(body) => forall|j: int| 0 <= j < body@.len() ==> straight(#[trigger] body@[j]),
        _ => false,
    }
}

/// What a plain statement lowers to runs the same way in every invocation.
proof fn lemma_plain_straight(s: Statement, x: Stmt)
    requires
        plain_lowered(s, x),
    ensures
        straight(x),
    decreases s,
{
    match s {
        Statement::Loop(body) => {
            if let Stmt::Loop { body: b, .. } = x {
                assert forall|j: int| 0 <= j < b@.len() implies straight(#[trigger] b@[j]) by {
                    assert(decreases_to!(s => body));
                    assert(decreases_to!(body => body@));
                    assert(decreases_to!(body@ => body@[j]));
                    lemma_plain_straight(body@[j], b@[j]);
                }
            }
        },
        Statement::Block(body) => {
            if let Stmt::Block(b) = x {
                assert forall|j: int| 0 <= j < b@.len() implies straight(#[trigger] b@[j]) by {
                    assert(decreases_to!(s => body));
                    assert(decreases_to!(body => body@));
                    assert(decreases_to!(body@ => body@[j]));
                    lemma_plain_straight(body@[j], b@[j]);
                }
            }
        },
        _ => {},
    }
}

/// Knowledge at a point reached by every invocation alike, none of which
/// returned or left a loop on its own.
pub open spec fn together(st: FlowView) -> bool {
    st.control_uniform && !st.returned_nonuniform && !st.loop_exit_nonuniform
}

/// Straight statements keep every invocation together and learn nothing of
/// locals or values.
proof fn lemma_straight_body(m: LoweredModule, rank: nat, f: LoweredFunction, args: Seq<bool>, b: Seq<Stmt>, st: FlowView)
    requires
        forall|j: int| 0 <= j < b.len() ==> straight(#[trigger] b[j]),
        together(st),
    ensures
        body_flow(m, rank, f, args, b, st) matches Ok(after) && together(after) && after.locals == st.locals && after.values == st.values,
    decreases b, 1int,
{
    if b.len() > 0 {
        let p = b.subrange(0, b.len() - 1);
        assert(decreases_to!(b => p)) by {
            assert(p.len() < b.len());
        }
        lemma_straight_body(m, rank, f, args, p, st);
        let mid = body_flow(m, rank, f, args, p, st)->Ok_0;
        assert(decreases_to!(b => b[b.len() - 1]));
        lemma_straight_stmt(m, rank, f, args, b[b.len() - 1], mid);
    }
}

proof fn lemma_straight_stmt(m: LoweredModule, rank: nat, f: LoweredFunction, args: Seq<bool>, x: Stmt, st: FlowView)
    requires
        straight(x),
        together(st),
    ensures
        stmt_flow(m, rank, f, args, x, st) matches Ok(after) && together(after) && after.locals == st.locals && after.values == st.values,
    decreases x, 0int,
{
    match x {
        Stmt::Loop { body, continuing, break_if } => {
            let start = FlowView { barrier: false, loop_exit_nonuniform: false, returned_nonuniform: false, ..st };
            assert(decreases_to!(x => body));
            assert(decreases_to!(body => body@));
            lemma_straight_body(m, rank, f, args, body@, start);
            let iteration = body_flow(m, rank, f, args, body@, start)->Ok_0;
            assert(continuing@ =~= Seq::<Stmt>::empty());
            assert(body_flow(m, rank, f, args, continuing@, iteration) == Ok::<FlowView, Divergence>(iteration));
            let next = Seq::new(st.locals.len(), |i: int| st.locals[i] && iteration.locals[i]);
            assert(next =~= st.locals);
            let joined = merged(st, iteration);
            assert(joined.locals =~= st.locals);
            assert(joined.values =~= st.values);
        },
        Stmt::Block(body) => {
            assert(decreases_to!(x => body));
            assert(decreases_to!(body => body@));
            lemma_straight_body(m, rank, f, args, body@, st);
        },
        _ => {},
    }
}

/// Straight statements store nothing.
proof fn lemma_straight_writes(m: LoweredModule, f: LoweredFunction, b: Seq<Stmt>)
    requires
        forall|j: int| 0 <= j < b.len() ==> straight(#[trigger] b[j]),
    ensures
        body_writes_ok(m, f, b),
    decreases b, 1int,
{
    if b.len() > 0 {
        let p = b.subrange(0, b.len() - 1);
        assert(decreases_to!(b => p)) by {
            assert(p.len() < b.len());
        }
        lemma_straight_writes(m, f, p);
        assert(decreases_to!(b => b[b.len() - 1]));
        lemma_straight_stmt_writes(m, f, b[b.len() - 1]);
    }
}

proof fn lemma_straight_stmt_writes(m: LoweredModule, f: LoweredFunction, x: Stmt)
    requires
        straight(x),
    ensures
        stmt_writes_ok(m, f, x),
    decreases x, 0int,
{
    match x {
        Stmt::Loop { body, continuing, .. } => {
            assert(decreases_to!(x => body));
            assert(decreases_to!(body => body@));
            lemma_straight_writes(m, f, body@);
            assert(continuing@ =~= Seq::<Stmt>::empty());
        },
        Stmt::Block(body) => {
            assert(decreases_to!(x => body));
            assert(decreases_to!(body => body@));
            lemma_straight_writes(m, f, body@);
        },
        _ => {},
    }
}

/// A compiled kernel: its label, its entry and workgroup size, the storage
/// bindings it declares in slot order, and its lowered module.
pub struct Kernel {
    pub label: String,
    pub entry: String,
    pub workgroup: u32,
    pub bindings: Vec<BindingSpec>,
    pub module: LoweredModule,
}

impl Compiler {
    /// Adds `arm` to the one match of the dispatcher `name`, before its fallback.
    pub fn insert_case(&mut self, name: &str, arm: Arm)
        requires
            old(self).wf(),
            declares(old(self).functions_view(), name@),
            forall|i: int| declared_at(old(self).functions_view(), name@, i) ==> {
                &&& body_matches(#[trigger] old(self).functions_view()[i].body@) == 1
                &&& forall|k: int| 0 <= k < first_arms(old(self).functions_view()[i].body@)->0.len()
                    ==> !same_pattern(#[trigger] first_arms(old(self).functions_view()[i].body@)->0[k].pattern, arm.pattern)
            },
        ensures
            final(self).fresh() == old(self).fresh(),
            final(self).wf(),
            final(self).bindings_view() == old(self).bindings_view(),
            final(self).constants_view() == old(self).constants_view(),
            final(self).functions_view().len() == old(self).functions_view().len(),
            exists|i: int| declared_at(old(self).functions_view(), name@, i) && {
                let f = old(self).functions_view()[i];
                let g = final(self).functions_view()[i];
                &&& forall|k: int| 0 <= k < old(self).functions_view().len() && k != i
                    ==> #[trigger] final(self).functions_view()[k] == old(self).functions_view()[k]
                &&& g.name == f.name
                &&& g.arguments == f.arguments
                &&& g.result == f.result
                &&& body_with_arm(f.body@, g.body@, arm)
            },
    {
        self.functions.insert_case(name, arm);
    }

    /// Keeps, in the one match of the dispatcher `name`, the fallback arm and
    /// the arms of the named constants among `cases`.
    pub fn retain_cases(&mut self, name: &str, cases: &[String])
        requires
            old(self).wf(),
            declares(old(self).functions_view(), name@),
            forall|i: int| declared_at(old(self).functions_view(), name@, i)
                ==> dispatches(#[trigger] old(self).functions_view()[i].body@),
        ensures
            final(self).fresh() == old(self).fresh(),
            final(self).wf(),
            final(self).bindings_view() == old(self).bindings_view(),
            final(self).constants_view() == old(self).constants_view(),
            final(self).functions_view().len() == old(self).functions_view().len(),
            exists|i: int, j: int| declared_at(old(self).functions_view(), name@, i)
                && only_match_at(old(self).functions_view()[i].body@, j) && {
                let f = old(self).functions_view()[i];
                let g = final(self).functions_view()[i];
                let m = f.body@[j];
                &&& forall|k: int| 0 <= k < old(self).functions_view().len() && k != i
                    ==> #[trigger] final(self).functions_view()[k] == old(self).functions_view()[k]
                &&& g.name == f.name
                &&& g.arguments == f.arguments
                &&& g.result == f.result
                &&& g.body@.len() == f.body@.len()
                &&& forall|k: int| 0 <= k < f.body@.len() && k != j ==> #[trigger] g.body@[k] == f.body@[k]
                &&& g.body@[j] matches Statement::Match { selector, arms } && selector == m->Match_selector
                    && arms@ == m->Match_arms@.filter(keeps(cases@))
            },
    {
        self.functions.retain_cases(name, cases);
    }

    /// Declares `name`: a copy of the template `template` with every name of
    /// one of `constants` replaced by its value, the last value where a name
    /// repeats, and every call of a template calling its specialization by
    /// the suffix of `name` after its last underscore.
    pub fn specialize(&mut self, template: &str, name: &str, constants: &[(&str, u32)])
        requires
            old(self).wf(),
            declares(old(self).functions_view(), template@),
            !declares(old(self).functions_view(), name@),
            exists|k: int| 0 <= k < name@.len() && name@[k] == '_',
        ensures
            final(self).fresh() == old(self).fresh(),
            final(self).wf(),
            final(self).bindings_view() == old(self).bindings_view(),
            final(self).constants_view() == old(self).constants_view(),
            final(self).functions_view().drop_last() == old(self).functions_view(),
            final(self).functions_view().last().name@ == name@,
            exists|i: int, at: int, table: Seq<(String, u32)>, copied: Seq<Statement>|
                #![trigger declared_at(old(self).functions_view(), template@, i), specializes(old(self).functions_view()[i], final(self).functions_view().last(), constants@, table, copied, name@, at)]
                declared_at(old(self).functions_view(), template@, i)
                && specializes(old(self).functions_view()[i], final(self).functions_view().last(), constants@, table, copied, name@, at),
    {
        self.functions.specialize(template, name, constants);
    }

    /// Lowers the entry `entry` and every function it calls into a module
    /// whose entry runs in workgroups of `workgroup` invocations, and checks
    /// that every invocation of a workgroup reaches each barrier together.
    pub fn finish(self, label: &str, entry: &str, workgroup: u32) -> (r: Result<Kernel, CompileError>)
        requires
            self.wf(),
        ensures
            !declares(self.functions_view(), entry@) ==> r == Err::<Kernel, CompileError>(CompileError::UnknownFunction),
            (exists|i: int, j: int| declared_at(self.functions_view(), entry@, i) && 0 <= j < self.functions_view()[i].arguments@.len()
                && entry_builtin(#[trigger] self.functions_view()[i].arguments@[j].name@) is None) ==> r is Err,
            self.fresh() && self.functions_view().len() < usize::MAX - 1 && declares(self.functions_view(), entry@)
                && (forall|i: int| declared_at(self.functions_view(), entry@, i) ==> plain_entry(#[trigger] self.functions_view()[i]))
                ==> r is Ok,
            r matches Ok(k) ==> {
                &&& k.module.wf()
                &&& writes_ok(k.module)
                &&& uniformity(k.module) == Ok::<(), Divergence>(())
                &&& exists|i: int| declared_at(self.functions_view(), entry@, i)
                    && signature_kept(self.functions_view()[i], k.module.entry, true)
                    && (self.functions_view()[i].body@.len() > 0 ==> statement_ends(self.functions_view()[i].body@.last(), k.module.entry.body@))
                &&& k.label@ == label@
                &&& k.entry@ == entry@
                &&& k.workgroup == workgroup
                &&& k.bindings@ == self.bindings_view()
                &&& k.module.globals@ == self.globals_view()
                &&& self.types_view().len() <= k.module.types@.len()
                &&& forall|i: int| 0 <= i < self.types_view().len() ==> #[trigger] k.module.types@[i] == self.types_view()[i]
            },
            r matches Err(CompileError::Divergent(d)) ==> exists|m: LoweredModule| lowered_from(self.functions_view(), self.globals_view(), entry@, m)
                && writes_ok(m) && #[trigger] uniformity(m) == Err::<(), Divergence>(d),
            r == Err::<Kernel, CompileError>(CompileError::ReadOnly) ==> exists|m: LoweredModule|
                lowered_from(self.functions_view(), self.globals_view(), entry@, m) && !#[trigger] writes_ok(m),
    {
        let ghost entered = self.functions_view();
        let mut compiler = self;
        let mut bindings: Vec<BindingSpec> = Vec::new();
        let mut b: usize = 0;
        while b < compiler.bindings.len()
            invariant
                b <= compiler.bindings@.len(),
                bindings@ == compiler.bindings@.subrange(0, b as int),
            decreases compiler.bindings@.len() - b,
        {
            bindings.push(compiler.bindings[b]);
            b += 1;
            proof {
                assert(bindings@ =~= compiler.bindings@.subrange(0, b as int));
            }
        }
        proof {
            assert(bindings@ =~= compiler.bindings@);
        }
        let ghost declared = compiler.functions.functions_view();
        let function = match compiler.functions.function_named(entry) {
            Some(f) => {
                let copied = f.copy();
                proof {
                    let i = choose|i: int| declared_at(declared, entry@, i) && declared[i] == *f;
                    assert(declared_at(declared, entry@, i) && crate::ir::function_same(declared[i], copied));
                }
                copied
            },
            None => return Err(CompileError::UnknownFunction),
        };
        let ghost chosen = choose|i: int| declared_at(declared, entry@, i) && crate::ir::function_same(declared[i], function);
        proof {
            if exists|i: int, j: int| declared_at(declared, entry@, i) && 0 <= j < declared[i].arguments@.len()
                && entry_builtin(#[trigger] declared[i].arguments@[j].name@) is None {
                let (i, j) = choose|i: int, j: int| declared_at(declared, entry@, i) && 0 <= j < declared[i].arguments@.len()
                    && entry_builtin(#[trigger] declared[i].arguments@[j].name@) is None;
                assert(i == chosen);
                assert(function.arguments@[j].name == declared[i].arguments@[j].name);
                assert(entry_builtin(function.arguments@[j].name@) is None);
            }
        }
        let count = compiler.functions.count();
        if count >= usize::MAX - 1 {
            return Err(CompileError::Overflow);
        }
        proof {
            if forall|i: int| declared_at(declared, entry@, i) ==> plain_entry(#[trigger] declared[i]) {
                assert(plain_entry(declared[chosen]));
                assert forall|k: int| 0 <= k < function.body@.len() implies plain_stmt(#[trigger] function.body@[k]) by {
                    assert(crate::ir::stmt_same(declared[chosen].body@[k], function.body@[k]));
                    lemma_same_plain(declared[chosen].body@[k], function.body@[k]);
                }
            }
        }
        let ghost before_lowering = compiler;
        let lowered = compiler.lower_body(&function, true, count + 1)?;
        let module = LoweredModule {
            types: compiler.types,
            globals: compiler.globals,
            functions: compiler.lowered,
            entry: lowered,
        };
        proof {
            assert forall|j: int| 0 <= j < module.functions@.len() implies module.function_wf(#[trigger] module.functions@[j], j as nat) by {
                assert(function_fits(compiler.lowered@[j], j as nat, compiler.globals@.len(), compiler.types@.len(), arities_of(compiler.lowered@)));
            }
        }
        proof {
            if before_lowering.fresh() && plain_entry(function) {
                assert(module.functions@.len() == 0);
                assert forall|k: int| 0 <= k < module.entry.body@.len() implies straight(#[trigger] module.entry.body@[k]) by {
                    lemma_plain_straight(function.body@[k], module.entry.body@[k]);
                }
                lemma_straight_writes(module, module.entry, module.entry.body@);
                assert(module.function_at(0) == module.entry);
                assert(writes_ok(module));
                lemma_straight_body(module, 0, module.entry, crate::uniform::entry_arguments(module), module.entry.body@,
                    crate::uniform::start_flow(module.entry));
                assert(uniformity(module) is Ok);
            }
        }
        proof {
            let source = declared[chosen];
            assert forall|k: int| 0 <= k < module.entry.arguments@.len() implies {
                &&& (#[trigger] module.entry.arguments@[k]).name@ == source.arguments@[k].name@
                &&& module.entry.arguments@[k].binding == entry_builtin(source.arguments@[k].name@)
            } by {
                assert(function.arguments@[k].name == source.arguments@[k].name);
            }
            assert(signature_kept(source, module.entry, true));
            if source.body@.len() > 0 {
                let last = (source.body@.len() - 1) as int;
                assert(crate::ir::stmt_same(source.body@[last], function.body@[last]));
                lemma_same_ends(source.body@[last], function.body@[last], module.entry.body@);
            }
            assert(declared == entered);
            assert(declared_at(entered, entry@, chosen) && signature_kept(entered[chosen], module.entry, true)
                && (entered[chosen].body@.len() > 0 ==> statement_ends(entered[chosen].body@.last(), module.entry.body@)));
        }
        proof {
            assert(lowered_from(entered, compiler.globals@, entry@, module));
        }
        if !crate::writes::check_writes(&module) {
            return Err(CompileError::ReadOnly);
        }
        match crate::uniform::verify(&module) {
            Ok(()) => {},
            Err(d) => return Err(CompileError::Divergent(d)),
        }
        Ok(Kernel { label: label.to_owned(), entry: entry.to_owned(), workgroup, bindings, module })
    }
}

} // verus!
