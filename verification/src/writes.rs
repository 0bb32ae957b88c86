//! Stores of a lowered module go only where a kernel may write: into
//! locals, workgroup and private memory, and storage bound for writing.
use vstd::prelude::*;
use crate::lowered::{Case, LoweredFunction, LoweredModule, Space, Stmt};
use crate::uniform::{lemma_body_wf, lemma_cases_wf, lemma_function_wf, lemma_root, root, root_of, Root};

verus! {

/// Whether a kernel may store into a global of `space`.
pub open spec fn writable(space: Space) -> bool {
    match space {
        Space::Storage { store } => store,
        Space::Uniform | Space::Immediate => false,
        Space::WorkGroup | Space::Private => true,
    }
}

/// Whether a store through the pointer `h` of `f` is permitted: the pointer
/// leads into a local, or into a global that may be written.
pub open spec fn store_permitted(m: LoweredModule, f: LoweredFunction, h: u32) -> bool {
    match root_of(f, h) {
        Some(Root::Global(g)) => writable(m.globals@[g as int].space),
        _ => true,
    }
}

/// Every store that statement `s` of `f` makes, at any depth, is permitted.
pub open spec fn stmt_writes_ok(m: LoweredModule, f: LoweredFunction, s: Stmt) -> bool
    decreases s,
{
    match s {
        Stmt::Store { pointer, .. } => store_permitted(m, f, pointer),
        Stmt::If { accept, reject, .. } => body_writes_ok(m, f, accept@) && body_writes_ok(m, f, reject@),
        Stmt::Switch { cases, .. } => cases_writes_ok(m, f, cases@),
        Stmt::Loop { body, continuing, .. } => body_writes_ok(m, f, body@) && body_writes_ok(m, f, continuing@),
        Stmt::Block(body) => body_writes_ok(m, f, body@),
        _ => true,
    }
}

pub open spec fn body_writes_ok(m: LoweredModule, f: LoweredFunction, b: Seq<Stmt>) -> bool
    decreases b,
{
    if b.len() == 0 {
        true
    } else {
        body_writes_ok(m, f, b.subrange(0, b.len() - 1)) && stmt_writes_ok(m, f, b[b.len() - 1])
    }
}

pub open spec fn cases_writes_ok(m: LoweredModule, f: LoweredFunction, c: Seq<Case>) -> bool
    decreases c,
{
    if c.len() == 0 {
        true
    } else {
        cases_writes_ok(m, f, c.subrange(0, c.len() - 1)) && body_writes_ok(m, f, c[c.len() - 1].body@)
    }
}

/// No function of `m`, nor its entry, stores where a kernel may not write.
pub open spec fn writes_ok(m: LoweredModule) -> bool {
    forall|j: nat| j <= m.functions@.len() ==> body_writes_ok(m, #[trigger] m.function_at(j), m.function_at(j).body@)
}

proof fn lemma_body_prefix(m: LoweredModule, f: LoweredFunction, b: Seq<Stmt>, i: int)
    requires
        body_writes_ok(m, f, b),
        0 <= i <= b.len(),
    ensures
        body_writes_ok(m, f, b.subrange(0, i)),
    decreases b.len() - i,
{
    if i < b.len() {
        let p = b.subrange(0, b.len() - 1);
        lemma_body_prefix(m, f, p, i);
        assert(p.subrange(0, i) =~= b.subrange(0, i));
    } else {
        assert(b.subrange(0, i) =~= b);
    }
}

proof fn lemma_cases_prefix(m: LoweredModule, f: LoweredFunction, c: Seq<Case>, i: int)
    requires
        cases_writes_ok(m, f, c),
        0 <= i <= c.len(),
    ensures
        cases_writes_ok(m, f, c.subrange(0, i)),
    decreases c.len() - i,
{
    if i < c.len() {
        let p = c.subrange(0, c.len() - 1);
        lemma_cases_prefix(m, f, p, i);
        assert(p.subrange(0, i) =~= c.subrange(0, i));
    } else {
        assert(c.subrange(0, i) =~= c);
    }
}

fn statement_writes(m: &LoweredModule, f: &LoweredFunction, s: &Stmt, Ghost(rank): Ghost<nat>) -> (r: bool)
    requires
        m.wf(),
        m.function_wf(*f, rank),
        m.stmt_wf(*s, f.expressions@.len(), rank),
    ensures
        r == stmt_writes_ok(*m, *f, *s),
    decreases *s, 1int,
{
    match s {
        Stmt::Store { pointer, .. } => {
            proof {
                lemma_root(*m, rank, *f, *pointer);
            }
            match root(f, *pointer, Ghost(*m), Ghost(rank)) {
                Some(Root::Global(g)) => match m.globals[g as usize].space {
                    Space::Storage { store } => store,
                    Space::Uniform | Space::Immediate => false,
                    Space::WorkGroup | Space::Private => true,
                },
                _ => true,
            }
        },
        Stmt::If { accept, reject, .. } => {
            proof {
                assert(decreases_to!(*s => *accept));
                assert(decreases_to!(*s => *reject));
            }
            body_writes(m, f, accept, Ghost(rank)) && body_writes(m, f, reject, Ghost(rank))
        },
        Stmt::Switch { cases, .. } => {
            proof {
                assert(decreases_to!(*s => *cases));
            }
            cases_writes(m, f, cases, Ghost(rank))
        },
        Stmt::Loop { body, continuing, .. } => {
            proof {
                assert(decreases_to!(*s => *body));
                assert(decreases_to!(*s => *continuing));
            }
            body_writes(m, f, body, Ghost(rank)) && body_writes(m, f, continuing, Ghost(rank))
        },
        Stmt::Block(body) => {
            proof {
                assert(decreases_to!(*s => *body));
            }
            body_writes(m, f, body, Ghost(rank))
        },
        _ => true,
    }
}

fn body_writes(m: &LoweredModule, f: &LoweredFunction, body: &Vec<Stmt>, Ghost(rank): Ghost<nat>) -> (r: bool)
    requires
        m.wf(),
        m.function_wf(*f, rank),
        m.body_wf(body@, f.expressions@.len(), rank),
    ensures
        r == body_writes_ok(*m, *f, body@),
    decreases *body, 0int,
{
    let mut i: usize = 0;
    proof {
        assert(body@.subrange(0, 0) =~= Seq::<Stmt>::empty());
    }
    while i < body.len()
        invariant
            i <= body@.len(),
            m.wf(),
            m.function_wf(*f, rank),
            m.body_wf(body@, f.expressions@.len(), rank),
            body_writes_ok(*m, *f, body@.subrange(0, i as int)),
        decreases body@.len() - i,
    {
        proof {
            lemma_body_wf(*m, body@, f.expressions@.len(), rank, i as int);
            let p = body@.subrange(0, i + 1);
            assert(p.subrange(0, i as int) =~= body@.subrange(0, i as int));
            assert(p[i as int] == body@[i as int]);
            assert(decreases_to!(*body => body@));
            assert(decreases_to!(body@ => body@[i as int]));
        }
        if !statement_writes(m, f, &body[i], Ghost(rank)) {
            proof {
                if body_writes_ok(*m, *f, body@) {
                    lemma_body_prefix(*m, *f, body@, i + 1);
                }
            }
            return false;
        }
        i += 1;
    }
    proof {
        assert(body@.subrange(0, body@.len() as int) =~= body@);
    }
    true
}

fn cases_writes(m: &LoweredModule, f: &LoweredFunction, cases: &Vec<Case>, Ghost(rank): Ghost<nat>) -> (r: bool)
    requires
        m.wf(),
        m.function_wf(*f, rank),
        m.cases_wf(cases@, f.expressions@.len(), rank),
    ensures
        r == cases_writes_ok(*m, *f, cases@),
    decreases *cases, 0int,
{
    let mut k: usize = 0;
    proof {
        assert(cases@.subrange(0, 0) =~= Seq::<Case>::empty());
    }
    while k < cases.len()
        invariant
            k <= cases@.len(),
            m.wf(),
            m.function_wf(*f, rank),
            m.cases_wf(cases@, f.expressions@.len(), rank),
            cases_writes_ok(*m, *f, cases@.subrange(0, k as int)),
        decreases cases@.len() - k,
    {
        proof {
            lemma_cases_wf(*m, cases@, f.expressions@.len(), rank, k as int);
            let p = cases@.subrange(0, k + 1);
            assert(p.subrange(0, k as int) =~= cases@.subrange(0, k as int));
            assert(p[k as int] == cases@[k as int]);
            assert(decreases_to!(*cases => cases@));
            assert(decreases_to!(cases@ => cases@[k as int]));
            assert(decreases_to!(cases@[k as int] => cases@[k as int].body));
        }
        if !body_writes(m, f, &cases[k].body, Ghost(rank)) {
            proof {
                if cases_writes_ok(*m, *f, cases@) {
                    lemma_cases_prefix(*m, *f, cases@, k + 1);
                }
            }
            return false;
        }
        k += 1;
    }
    proof {
        assert(cases@.subrange(0, cases@.len() as int) =~= cases@);
    }
    true
}

/// Whether every store of `m` goes where a kernel may write.
pub fn check_writes(m: &LoweredModule) -> (r: bool)
    requires
        m.wf(),
    ensures
        r == writes_ok(*m),
{
    let mut j: usize = 0;
    while j <= m.functions.len()
        invariant
            j <= m.functions@.len() + 1,
            m.wf(),
            forall|q: nat| q < j ==> body_writes_ok(*m, #[trigger] m.function_at(q), m.function_at(q).body@),
        decreases m.functions@.len() + 1 - j,
    {
        let f = if j < m.functions.len() {
            &m.functions[j]
        } else {
            &m.entry
        };
        proof {
            lemma_function_wf(*m, j as nat);
            assert(*f == m.function_at(j as nat));
        }
        if !body_writes(m, f, &f.body, Ghost(j as nat)) {
            return false;
        }
        j += 1;
    }
    true
}

} // verus!
