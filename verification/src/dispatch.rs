//! The device functions a compiler holds by name, the constants it defines,
//! and the dispatchers and templates it derives new functions from.
use vstd::prelude::*;
use crate::ir::{Arm, Function, Pattern, Statement, body_same, specialize_body, stmt_specialized, type_same, statement_matches, body_matches, arms_matches, statement_count, first_arms};

verus! {

/// The function of `functions` named `name` stands at `i`.
pub open spec fn declared_at(functions: Seq<Function>, name: Seq<char>, i: int) -> bool {
    0 <= i < functions.len() && functions[i].name@ == name
}

/// Whether a function of `functions` is named `name`.
pub open spec fn declares(functions: Seq<Function>, name: Seq<char>) -> bool {
    exists|i: int| declared_at(functions, name, i)
}

/// No two functions share a name.
pub open spec fn names_unique(functions: Seq<Function>) -> bool {
    forall|i: int, j: int| 0 <= i < j < functions.len() ==> functions[i].name@ != functions[j].name@
}

/// No two constants share a name.
pub open spec fn constants_unique(constants: Seq<(String, u32)>) -> bool {
    forall|i: int, j: int| 0 <= i < j < constants.len() ==> constants[i].0@ != constants[j].0@
}

/// A match arm a specialized dispatcher keeps: the fallback, and the named
/// constants among `cases`.
pub open spec fn kept_arm(a: Arm, cases: Seq<String>) -> bool {
    match a.pattern {
        Pattern::Default => true,
        Pattern::Constant(path) => exists|i: int| 0 <= i < cases.len() && cases[i]@ == path@,
        Pattern::Integer(_) => false,
    }
}

/// The statement of a body at `j` is its one match at the top level.
pub open spec fn only_match_at(body: Seq<Statement>, j: int) -> bool {
    &&& 0 <= j < body.len()
    &&& body[j] is Match
    &&& forall|k: int| 0 <= k < body.len() && k != j ==> !(#[trigger] body[k] is Match)
}

/// Whether a body holds one match at its top level, none of whose arms
/// matches an integer.
pub open spec fn dispatches(body: Seq<Statement>) -> bool {
    exists|j: int| only_match_at(body, j) && forall|k: int| 0 <= k < body[j]->Match_arms@.len()
        ==> !(#[trigger] body[j]->Match_arms@[k].pattern is Integer)
}

/// The text after the last underscore of a name.
pub open spec fn after_last_underscore(name: Seq<char>, at: int) -> bool {
    0 <= at < name.len() && name[at] == '_' && forall|k: int| at < k < name.len() ==> name[k] != '_'
}

/// The device functions and constants a compiler holds.
pub struct DeviceFunctions {
    functions: Vec<Function>,
    constants: Vec<(String, u32)>,
}

impl DeviceFunctions {
    pub closed spec fn functions_view(&self) -> Seq<Function> {
        self.functions@
    }

    pub closed spec fn constants_view(&self) -> Seq<(String, u32)> {
        self.constants@
    }

    /// Names are unique among functions and among constants.
    pub open spec fn wf(&self) -> bool {
        names_unique(self.functions_view()) && constants_unique(self.constants_view())
    }

    pub fn new() -> (r: DeviceFunctions)
        ensures
            r.wf(),
            r.functions_view().len() == 0,
            r.constants_view().len() == 0,
    {
        DeviceFunctions { functions: Vec::new(), constants: Vec::new() }
    }

    /// Where the function named `name` stands.
    fn position(&self, name: &str) -> (r: Option<usize>)
        requires
            self.wf(),
        ensures
            r matches Some(i) ==> declared_at(self.functions_view(), name@, i as int),
            r is None ==> !declares(self.functions_view(), name@),
    {
        let wanted = name.to_owned();
        let mut i: usize = 0;
        while i < self.functions.len()
            invariant
                i <= self.functions@.len(),
                wanted@ == name@,
                forall|k: int| 0 <= k < i ==> !declared_at(self.functions@, name@, k),
            decreases self.functions@.len() - i,
        {
            if self.functions[i].name == wanted {
                return Some(i);
            }
            i += 1;
        }
        None
    }

    /// The function named `name`.
    pub fn function_named(&self, name: &str) -> (r: Option<&Function>)
        requires
            self.wf(),
        ensures
            r matches Some(f) ==> exists|i: int| declared_at(self.functions_view(), name@, i) && self.functions_view()[i] == *f,
            r is None ==> !declares(self.functions_view(), name@),
    {
        match self.position(name) {
            Some(i) => Some(&self.functions[i]),
            None => None,
        }
    }

    /// Whether a function is named `name`.
    pub fn declares(&self, name: &str) -> (r: bool)
        requires
            self.wf(),
        ensures
            r == declares(self.functions_view(), name@),
    {
        self.position(name).is_some()
    }

    /// Whether a constant is named `name`.
    pub fn defines(&self, name: &str) -> (r: bool)
        ensures
            r == exists|i: int| 0 <= i < self.constants_view().len() && (#[trigger] self.constants_view()[i]).0@ == name@,
    {
        let wanted = name.to_owned();
        let mut i: usize = 0;
        while i < self.constants.len()
            invariant
                i <= self.constants@.len(),
                wanted@ == name@,
                forall|k: int| 0 <= k < i ==> (#[trigger] self.constants@[k]).0@ != name@,
            decreases self.constants@.len() - i,
        {
            if self.constants[i].0 == wanted {
                assert(0 <= i < self.constants_view().len() && self.constants_view()[i as int].0@ == name@);
                return true;
            }
            i += 1;
        }
        false
    }

    /// How many functions are declared.
    pub fn count(&self) -> (r: usize)
        ensures
            r == self.functions_view().len(),
    {
        self.functions.len()
    }

    /// The value of the constant `name`.
    pub fn value_of(&self, name: &str) -> (r: Option<u32>)
        ensures
            r == crate::ir::constant_of(self.constants_view(), name@),
    {
        let wanted = name.to_owned();
        let mut i: usize = self.constants.len();
        proof {
            assert(self.constants@.subrange(0, i as int) =~= self.constants@);
        }
        while i > 0
            invariant
                i <= self.constants@.len(),
                wanted@ == name@,
                crate::ir::constant_of(self.constants@.subrange(0, i as int), name@) == crate::ir::constant_of(self.constants@, name@),
            decreases i,
        {
            let ghost prefix = self.constants@.subrange(0, i as int);
            proof {
                assert(prefix.drop_last() =~= self.constants@.subrange(0, i - 1));
                assert(prefix.last() == self.constants@[i - 1]);
            }
            if self.constants[i - 1].0 == wanted {
                return Some(self.constants[i - 1].1);
            }
            i -= 1;
        }
        None
    }

    /// Defines a constant.
    pub fn constant(&mut self, name: &str, value: u32)
        requires
            old(self).wf(),
            forall|i: int| 0 <= i < old(self).constants_view().len() ==> (#[trigger] old(self).constants_view()[i]).0@ != name@,
        ensures
            final(self).wf(),
            final(self).functions_view() == old(self).functions_view(),
            final(self).constants_view().len() == old(self).constants_view().len() + 1,
            final(self).constants_view().drop_last() == old(self).constants_view(),
            final(self).constants_view().last().0@ == name@,
            final(self).constants_view().last().1 == value,
    {
        self.constants.push((name.to_owned(), value));
        proof {
            assert(self.constants@.drop_last() =~= old(self).constants@);
        }
    }

    /// Declares a function.
    pub fn function(&mut self, function: Function)
        requires
            old(self).wf(),
            !declares(old(self).functions_view(), function.name@),
        ensures
            final(self).wf(),
            final(self).constants_view() == old(self).constants_view(),
            final(self).functions_view() == old(self).functions_view().push(function),
    {
        let ghost name = function.name@;
        self.functions.push(function);
        proof {
            assert forall|i: int, j: int| 0 <= i < j < self.functions@.len() implies self.functions@[i].name@
                != self.functions@[j].name@ by {
                if j == old(self).functions@.len() {
                    assert(!declared_at(old(self).functions@, name, i));
                }
            }
        }
    }

    /// Declares a copy of the function `source` under the name `name`.
    pub fn select(&mut self, source: &str, name: &str)
        requires
            old(self).wf(),
            declares(old(self).functions_view(), source@),
            !declares(old(self).functions_view(), name@),
        ensures
            final(self).wf(),
            final(self).constants_view() == old(self).constants_view(),
            final(self).functions_view().drop_last() == old(self).functions_view(),
            final(self).functions_view().last().name@ == name@,
            exists|i: int| declared_at(old(self).functions_view(), source@, i) && {
                let f = old(self).functions_view()[i];
                let g = final(self).functions_view().last();
                &&& g.arguments@.len() == f.arguments@.len()
                &&& forall|k: int| 0 <= k < f.arguments@.len() ==> (#[trigger] g.arguments@[k]).name == f.arguments@[k].name
                    && type_same(f.arguments@[k].ty, g.arguments@[k].ty)
                &&& body_same(f.body@, g.body@)
            },
    {
        let i = self.position(source).unwrap();
        let mut function = self.functions[i].copy();
        function.name = name.to_owned();
        self.function(function);
        proof {
            assert(self.functions@.drop_last() =~= old(self).functions@);
            assert(declared_at(old(self).functions@, source@, i as int));
        }
    }

    /// Keeps, in the one match of the dispatcher `name`, the fallback arm and
    /// the arms of the named constants among `cases`.
    pub fn retain_cases(&mut self, name: &str, cases: &[String])
        requires
            old(self).wf(),
            declares(old(self).functions_view(), name@),
            forall|i: int| declared_at(old(self).functions_view(), name@, i)
                ==> dispatches(#[trigger] old(self).functions_view()[i].body@),
        ensures
            final(self).wf(),
            final(self).constants_view() == old(self).constants_view(),
            final(self).functions_view().len() == old(self).functions_view().len(),
            exists|i: int, j: int| declared_at(old(self).functions_view(), name@, i)
                && only_match_at(old(self).functions_view()[i].body@, j) && {
                let f = old(self).functions_view()[i];
                let g = final(self).functions_view()[i];
                let m = f.body@[j];
                &&& forall|k: int| 0 <= k < old(self).functions_view().len() && k != i
                    ==> #[trigger] final(self).functions_view()[k] == old(self).functions_view()[k]
                &&& g.name == f.name
                &&& g.arguments == f.arguments
                &&& g.result == f.result
                &&& g.body@.len() == f.body@.len()
                &&& forall|k: int| 0 <= k < f.body@.len() && k != j ==> #[trigger] g.body@[k] == f.body@[k]
                &&& g.body@[j] matches Statement::Match { selector, arms } && selector == m->Match_selector
                    && arms@ == m->Match_arms@.filter(keeps(cases@))
            },
    {
        let i = self.position(name).unwrap();
        let ghost before = self.functions@;
        let mut function = self.functions.remove(i);
        let ghost f = function;
        proof {
            assert(f == before[i as int]);
        }
        let mut j: usize = 0;
        while j < function.body.len() && !is_match(&function.body[j])
            invariant
                j <= function.body@.len(),
                function == f,
                forall|k: int| 0 <= k < j ==> !(#[trigger] function.body@[k] is Match),
                dispatches(f.body@),
            decreases function.body@.len() - j,
        {
            j += 1;
        }
        proof {
            let w = choose|w: int| only_match_at(f.body@, w) && forall|k: int| 0 <= k < f.body@[w]->Match_arms@.len()
                ==> !(#[trigger] f.body@[w]->Match_arms@[k].pattern is Integer);
            assert(w == j);
        }
        let statement = function.body.remove(j);
        let ghost m = statement;
        let (selector, arms) = match statement {
            Statement::Match { selector, arms } => (selector, arms),
            _ => {
                proof {
                    assert(false);
                }
                (crate::ir::Expression::Bool(false), Vec::new())
            },
        };
        let kept = keep_arms(arms, cases);
        function.body.insert(j, Statement::Match { selector, arms: kept });
        self.functions.insert(i, function);
        proof {
            assert(self.functions@.len() == before.len());
            assert forall|k: int| 0 <= k < before.len() && k != i implies #[trigger] self.functions@[k] == before[k] by {}
            assert forall|a: int, b: int| 0 <= a < b < self.functions@.len() implies self.functions@[a].name@
                != self.functions@[b].name@ by {
                assert(self.functions@[a].name == before[a].name);
                assert(self.functions@[b].name == before[b].name);
            }
            assert(only_match_at(f.body@, j as int));
        }
    }
}

fn is_match(statement: &Statement) -> (r: bool)
    ensures
        r == statement is Match,
{
    match statement {
        Statement::Match { .. } => true,
        _ => false,
    }
}

/// The arms of a match a specialized dispatcher keeps.
pub open spec fn keeps(cases: Seq<String>) -> spec_fn(Arm) -> bool {
    |a: Arm| kept_arm(a, cases)
}

/// The arms a specialized dispatcher keeps, in order.
fn keep_arms(arms: Vec<Arm>, cases: &[String]) -> (r: Vec<Arm>)
    requires
        forall|k: int| 0 <= k < arms@.len() ==> !(#[trigger] arms@[k].pattern is Integer),
    ensures
        r@ == arms@.filter(keeps(cases@)),
{
    let ghost original = arms@;
    let mut rest = arms;
    let mut kept: Vec<Arm> = Vec::new();
    proof {
        reveal(Seq::filter);
        assert(original.subrange(0, 0).filter(keeps(cases@)) =~= Seq::<Arm>::empty());
    }
    while rest.len() > 0
        invariant
            rest@ == original.subrange(original.len() - rest@.len(), original.len() as int),
            rest@.len() <= original.len(),
            kept@ == original.subrange(0, original.len() - rest@.len()).filter(keeps(cases@)),
            forall|k: int| 0 <= k < original.len() ==> !(#[trigger] original[k].pattern is Integer),
        decreases rest@.len(),
    {
        let ghost done = original.len() - rest@.len();
        let arm = rest.remove(0);
        assert(arm == original[done]);
        let keep = match &arm.pattern {
            Pattern::Default => true,
            Pattern::Constant(path) => {
                let mut found = false;
                let mut c: usize = 0;
                while c < cases.len()
                    invariant
                        c <= cases@.len(),
                        found == exists|i: int| 0 <= i < c && cases@[i]@ == path@,
                    decreases cases@.len() - c,
                {
                    if cases[c] == *path {
                        found = true;
                    }
                    c += 1;
                }
                found
            },
            Pattern::Integer(_) => false,
        };
        proof {
            assert(keep == kept_arm(arm, cases@));
            let before = original.subrange(0, done);
            let after = original.subrange(0, done + 1);
            assert(after.drop_last() =~= before);
            assert(after.last() == arm);
            assert(before.push(arm) =~= after);
            before.lemma_filter_push(arm, keeps(cases@));
        }
        if keep {
            kept.push(arm);
        }
        proof {
            assert(rest@ =~= original.subrange(original.len() - rest@.len(), original.len() as int));
        }
    }
    proof {
        assert(original.subrange(0, original.len() as int) =~= original);
    }
    kept
}

/// `g` is the template `f` specialized: alike arguments, and a body that is a
/// copy of `f`'s with every name of a constant of `table`, the constants
/// given, replaced by its value and every template call specialized by the
/// suffix of `name` after its last underscore, at `at`.
pub open spec fn specializes(f: Function, g: Function, constants: Seq<(&str, u32)>, table: Seq<(String, u32)>,
    copied: Seq<Statement>, name: Seq<char>, at: int) -> bool {
    &&& after_last_underscore(name, at)
    &&& table.len() == constants.len()
    &&& forall|k: int| 0 <= k < table.len() ==> (#[trigger] table[k]).0@ == constants[k].0@ && table[k].1 == constants[k].1
    &&& g.arguments@.len() == f.arguments@.len()
    &&& forall|k: int| 0 <= k < f.arguments@.len() ==> (#[trigger] g.arguments@[k]).name == f.arguments@[k].name
        && type_same(f.arguments@[k].ty, g.arguments@[k].ty)
    &&& body_same(f.body@, copied)
    &&& g.body@.len() == copied.len()
    &&& forall|k: int| 0 <= k < copied.len() ==> stmt_specialized(#[trigger] copied[k], g.body@[k], table,
        name.subrange(at + 1, name.len() as int))
}

/// The position of the last underscore of a name, if it holds one.
fn last_underscore(name: &str) -> (r: Option<usize>)
    ensures
        r matches Some(at) ==> after_last_underscore(name@, at as int),
        r is None ==> forall|k: int| 0 <= k < name@.len() ==> name@[k] != '_',
{
    let length = name.unicode_len();
    let mut at = length;
    while at > 0
        invariant
            at <= length,
            length == name@.len(),
            forall|k: int| at <= k < name@.len() ==> name@[k] != '_',
        decreases at,
    {
        if name.get_char(at - 1) == '_' {
            return Some(at - 1);
        }
        at -= 1;
    }
    None
}

impl DeviceFunctions {
    /// Declares `name`: a copy of the template `template` with every name of
    /// one of `constants` replaced by its value, the last value where a name
    /// repeats, and every call of a template calling its specialization by
    /// the suffix of `name` after its last underscore.
    pub fn specialize(&mut self, template: &str, name: &str, constants: &[(&str, u32)])
        requires
            old(self).wf(),
            declares(old(self).functions_view(), template@),
            !declares(old(self).functions_view(), name@),
            exists|k: int| 0 <= k < name@.len() && name@[k] == '_',
        ensures
            final(self).wf(),
            final(self).constants_view() == old(self).constants_view(),
            final(self).functions_view().drop_last() == old(self).functions_view(),
            final(self).functions_view().last().name@ == name@,
            exists|i: int, at: int, table: Seq<(String, u32)>, copied: Seq<Statement>|
                #![trigger declared_at(old(self).functions_view(), template@, i), specializes(old(self).functions_view()[i], final(self).functions_view().last(), constants@, table, copied, name@, at)]
                declared_at(old(self).functions_view(), template@, i)
                && specializes(old(self).functions_view()[i], final(self).functions_view().last(), constants@, table, copied, name@, at),
    {
        let i = self.position(template).unwrap();
        let at = match last_underscore(name) {
            Some(at) => at,
            None => {
                proof {
                    assert(false);
                }
                0
            },
        };
        let length = name.unicode_len();
        let suffix = name.substring_char(at + 1, length);
        let mut table: Vec<(String, u32)> = Vec::new();
        let mut k: usize = 0;
        while k < constants.len()
            invariant
                k <= constants@.len(),
                table@.len() == k,
                forall|j: int| 0 <= j < k ==> (#[trigger] table@[j]).0@ == constants@[j].0@ && table@[j].1 == constants@[j].1,
            decreases constants@.len() - k,
        {
            table.push((constants[k].0.to_owned(), constants[k].1));
            k += 1;
        }
        let function = self.functions[i].copy();
        let ghost copied = function.body@;
        let Function { name: _, arguments, result, body } = function;
        let body = specialize_body(body, table.as_slice(), suffix);
        let specialized = Function { name: name.to_owned(), arguments, result, body };
        self.function(specialized);
        proof {
            assert(self.functions@.drop_last() =~= old(self).functions@);
            assert(declared_at(old(self).functions@, template@, i as int));
            assert(specializes(old(self).functions@[i as int], self.functions@.last(), constants@, table@, copied, name@, at as int));
        }
    }
}

/// Two patterns that match alike.
pub open spec fn same_pattern(a: Pattern, b: Pattern) -> bool {
    match a {
        Pattern::Constant(x) => b matches Pattern::Constant(y) && x@ == y@,
        Pattern::Integer(x) => b matches Pattern::Integer(y) && x == y,
        Pattern::Default => b is Default,
    }
}

/// A new arm of a match goes at `p`: before its first fallback arm, or last.
pub open spec fn fallback_at(arms: Seq<Arm>, p: int) -> bool {
    &&& 0 <= p <= arms.len()
    &&& forall|k: int| 0 <= k < p ==> !(#[trigger] arms[k].pattern is Default)
    &&& p < arms.len() ==> arms[p].pattern is Default
}

/// `a` is `b` with `arm` added to its one match, before the match's fallback.
pub open spec fn stmt_with_arm(b: Statement, a: Statement, arm: Arm) -> bool
    decreases b,
{
    if statement_matches(b) == 0 {
        a == b
    } else {
        match b {
            Statement::Match { selector, arms } => a matches Statement::Match { selector: s, arms: x } && s == selector
                && exists|p: int| fallback_at(arms@, p) && x@ == arms@.insert(p, arm),
            Statement::If { condition, accept, reject } => a matches Statement::If { condition: c, accept: x, reject: y }
                && c == condition
                && x@.len() == accept@.len() && (forall|k: int| 0 <= k < accept@.len() ==> stmt_with_arm(#[trigger] accept@[k], x@[k], arm))
                && y@.len() == reject@.len() && (forall|k: int| 0 <= k < reject@.len() ==> stmt_with_arm(#[trigger] reject@[k], y@[k], arm)),
            Statement::For { name, start, end, step, unroll, body } => a matches Statement::For {
                name: n, start: s0, end: e, step: st, unroll: u, body: x }
                && n == name && s0 == start && e == end && st == step && u == unroll
                && x@.len() == body@.len() && forall|k: int| 0 <= k < body@.len() ==> stmt_with_arm(#[trigger] body@[k], x@[k], arm),
            Statement::While { condition, body } => a matches Statement::While { condition: c, body: x } && c == condition
                && x@.len() == body@.len() && forall|k: int| 0 <= k < body@.len() ==> stmt_with_arm(#[trigger] body@[k], x@[k], arm),
            Statement::Loop(body) => a matches Statement::Loop(x)
                && x@.len() == body@.len() && forall|k: int| 0 <= k < body@.len() ==> stmt_with_arm(#[trigger] body@[k], x@[k], arm),
            Statement::Block(body) => a matches Statement::Block(x)
                && x@.len() == body@.len() && forall|k: int| 0 <= k < body@.len() ==> stmt_with_arm(#[trigger] body@[k], x@[k], arm),
            _ => a == b,
        }
    }
}

/// `a` is the body `b` with `arm` added to its one match.
pub open spec fn body_with_arm(b: Seq<Statement>, a: Seq<Statement>, arm: Arm) -> bool {
    a.len() == b.len() && forall|k: int| 0 <= k < b.len() ==> stmt_with_arm(#[trigger] b[k], a[k], arm)
}

proof fn lemma_body_split(b: Seq<Statement>, d: int)
    requires
        0 <= d < b.len(),
    ensures
        body_matches(b.subrange(0, d + 1)) == body_matches(b.subrange(0, d)) + statement_matches(b[d]),
        body_matches(b.subrange(0, d + 1)) <= body_matches(b),
{
    let next = b.subrange(0, d + 1);
    assert(next.subrange(0, d) =~= b.subrange(0, d));
    assert(next[d] == b[d]);
    lemma_prefix_le(b, d + 1);
}

proof fn lemma_prefix_le(b: Seq<Statement>, i: int)
    requires
        0 <= i <= b.len(),
    ensures
        body_matches(b.subrange(0, i)) <= body_matches(b),
    decreases b.len() - i,
{
    if i < b.len() {
        lemma_prefix_le(b, i + 1);
        assert(b.subrange(0, i + 1).subrange(0, i) =~= b.subrange(0, i));
    } else {
        assert(b.subrange(0, i) =~= b);
    }
}

/// A body without matches holds none in any statement.
proof fn lemma_none_in_body(b: Seq<Statement>)
    requires
        body_matches(b) == 0,
    ensures
        forall|k: int| 0 <= k < b.len() ==> statement_matches(#[trigger] b[k]) == 0,
    decreases b.len(),
{
    if b.len() > 0 {
        let front = b.subrange(0, b.len() - 1);
        lemma_none_in_body(front);
        assert forall|k: int| 0 <= k < b.len() implies statement_matches(#[trigger] b[k]) == 0 by {
            if k < b.len() - 1 {
                assert(b[k] == front[k]);
            }
        }
    }
}

/// Where a new arm of a match goes.
fn fallback(arms: &Vec<Arm>) -> (p: usize)
    ensures
        fallback_at(arms@, p as int),
{
    let mut p: usize = 0;
    while p < arms.len()
        invariant
            p <= arms@.len(),
            forall|k: int| 0 <= k < p ==> !(#[trigger] arms@[k].pattern is Default),
        decreases arms@.len() - p,
    {
        if let Pattern::Default = arms[p].pattern {
            return p;
        }
        p += 1;
    }
    p
}

/// The body with `arm` added to its one match.
fn insert_into_body(body: Vec<Statement>, arm: Arm) -> (r: Vec<Statement>)
    requires
        body_matches(body@) == 1,
    ensures
        body_with_arm(body@, r@, arm),
    decreases body@,
{
    let ghost original = body@;
    let ghost the_arm = arm;
    let mut rest = body;
    let mut done: Vec<Statement> = Vec::new();
    let mut pending: Option<Arm> = Some(arm);
    proof {
        assert(original.subrange(0, 0) =~= Seq::<Statement>::empty());
    }
    while rest.len() > 0
        invariant
            done@.len() + rest@.len() == original.len(),
            rest@ == original.subrange(done@.len() as int, original.len() as int),
            forall|k: int| 0 <= k < done@.len() ==> stmt_with_arm(#[trigger] original[k], done@[k], the_arm),
            body_matches(original) == 1,
            pending is Some <==> body_matches(original.subrange(0, done@.len() as int)) == 0,
            pending is Some ==> pending == Some(the_arm),
            body_matches(original.subrange(0, done@.len() as int)) <= 1,
            forall|k: int| 0 <= k < original.len() ==> decreases_to!(body@ => #[trigger] original[k]),
        decreases rest@.len(),
    {
        let ghost d = done@.len() as int;
        let statement = rest.remove(0);
        assert(statement == original[d]);
        proof {
            lemma_body_split(original, d);
        }
        let count = statement_count(&statement);
        if count == 0 {
            done.push(statement);
        } else {
            let arm = pending.take().unwrap();
            done.push(insert_into_statement(statement, arm));
        }
        proof {
            assert(rest@ =~= original.subrange(done@.len() as int, original.len() as int));
        }
    }
    done
}

/// The statement with `arm` added to its one match.
fn insert_into_statement(statement: Statement, arm: Arm) -> (r: Statement)
    requires
        statement_matches(statement) == 1,
    ensures
        stmt_with_arm(statement, r, arm),
    decreases statement,
{
    let ghost original = statement;
    let ghost the_arm = arm;
    let r = match statement {
        Statement::Match { selector, arms } => {
            let p = fallback(&arms);
            let ghost before = arms@;
            let mut arms = arms;
            arms.insert(p, arm);
            proof {
                assert(fallback_at(before, p as int) && arms@ == before.insert(p as int, the_arm));
            }
            Statement::Match { selector, arms }
        },
        Statement::If { condition, accept, reject } => {
            if body_matches_zero(&accept) {
                proof {
                    lemma_none_in_body(accept@);
                    assert forall|k: int| 0 <= k < accept@.len() implies stmt_with_arm(#[trigger] accept@[k], accept@[k], the_arm) by {}
                }
                Statement::If { condition, accept, reject: insert_into_body(reject, arm) }
            } else {
                proof {
                    lemma_none_in_body(reject@);
                    assert forall|k: int| 0 <= k < reject@.len() implies stmt_with_arm(#[trigger] reject@[k], reject@[k], the_arm) by {}
                }
                Statement::If { condition, accept: insert_into_body(accept, arm), reject }
            }
        },
        Statement::For { name, start, end, step, unroll, body } => Statement::For {
            name,
            start,
            end,
            step,
            unroll,
            body: insert_into_body(body, arm),
        },
        Statement::While { condition, body } => Statement::While { condition, body: insert_into_body(body, arm) },
        Statement::Loop(body) => Statement::Loop(insert_into_body(body, arm)),
        Statement::Block(body) => Statement::Block(insert_into_body(body, arm)),
        other => other,
    };
    r
}

/// Whether a body holds no match.
fn body_matches_zero(body: &Vec<Statement>) -> (r: bool)
    requires
        body_matches(body@) <= 1,
    ensures
        r == (body_matches(body@) == 0),
{
    crate::ir::match_count(body.as_slice()) == 0
}

impl DeviceFunctions {
    /// Adds `arm` to the one match of the dispatcher `name`, before its fallback.
    pub fn insert_case(&mut self, name: &str, arm: Arm)
        requires
            old(self).wf(),
            declares(old(self).functions_view(), name@),
            forall|i: int| declared_at(old(self).functions_view(), name@, i) ==> {
                &&& body_matches(#[trigger] old(self).functions_view()[i].body@) == 1
                &&& forall|k: int| 0 <= k < first_arms(old(self).functions_view()[i].body@)->0.len()
                    ==> !same_pattern(#[trigger] first_arms(old(self).functions_view()[i].body@)->0[k].pattern, arm.pattern)
            },
        ensures
            final(self).wf(),
            final(self).constants_view() == old(self).constants_view(),
            final(self).functions_view().len() == old(self).functions_view().len(),
            exists|i: int| declared_at(old(self).functions_view(), name@, i) && {
                let f = old(self).functions_view()[i];
                let g = final(self).functions_view()[i];
                &&& forall|k: int| 0 <= k < old(self).functions_view().len() && k != i
                    ==> #[trigger] final(self).functions_view()[k] == old(self).functions_view()[k]
                &&& g.name == f.name
                &&& g.arguments == f.arguments
                &&& g.result == f.result
                &&& body_with_arm(f.body@, g.body@, arm)
            },
    {
        let i = self.position(name).unwrap();
        let ghost before = self.functions@;
        let function = self.functions.remove(i);
        let ghost f = function;
        proof {
            assert(f == before[i as int]);
        }
        let Function { name: function_name, arguments, result, body } = function;
        let body = insert_into_body(body, arm);
        self.functions.insert(i, Function { name: function_name, arguments, result, body });
        proof {
            assert forall|k: int| 0 <= k < before.len() && k != i implies #[trigger] self.functions@[k] == before[k] by {}
            assert forall|a: int, b: int| 0 <= a < b < self.functions@.len() implies self.functions@[a].name@
                != self.functions@[b].name@ by {
                assert(self.functions@[a].name == before[a].name);
                assert(self.functions@[b].name == before[b].name);
            }
        }
    }
}

} // verus!
