//! The pipelines a runtime has declared: one for each distinct program, where
//! two programs are the same when their SPIR-V and their bindings are.
use vstd::prelude::*;
use crate::compute::ComputeProgram;
use crate::program::BindingSpec;

verus! {

/// What tells two programs apart for their pipelines: their SPIR-V and their
/// bindings.
pub open spec fn program_key(p: ComputeProgram) -> (Seq<u32>, Seq<BindingSpec>) {
    (p.spirv_view(), p.bindings_view())
}

/// The programs a runtime has built pipelines for, by their keys, the first
/// declared first; each at the index of its pipeline.
pub struct PipelineLibrary {
    entries: Vec<(Vec<u32>, Vec<BindingSpec>)>,
}

/// Whether two sequences of words are the same.
fn same_words(a: &[u32], b: &[u32]) -> (r: bool)
    ensures
        r == (a@ == b@),
{
    if a.len() != b.len() {
        return false;
    }
    let mut i: usize = 0;
    while i < a.len()
        invariant
            i <= a@.len(),
            a@.len() == b@.len(),
            forall|j: int| 0 <= j < i ==> a@[j] == b@[j],
        decreases a@.len() - i,
    {
        if a[i] != b[i] {
            return false;
        }
        i += 1;
    }
    assert(a@ =~= b@);
    true
}

/// Whether two sequences of bindings are the same.
fn same_bindings(a: &[BindingSpec], b: &[BindingSpec]) -> (r: bool)
    ensures
        r == (a@ == b@),
{
    if a.len() != b.len() {
        return false;
    }
    let mut i: usize = 0;
    while i < a.len()
        invariant
            i <= a@.len(),
            a@.len() == b@.len(),
            forall|j: int| 0 <= j < i ==> a@[j] == b@[j],
        decreases a@.len() - i,
    {
        if a[i] != b[i] {
            return false;
        }
        i += 1;
    }
    assert(a@ =~= b@);
    true
}

impl PipelineLibrary {
    /// The keys of the declared programs, at the indices of their pipelines.
    pub closed spec fn keys(&self) -> Seq<(Seq<u32>, Seq<BindingSpec>)> {
        self.entries@.map_values(|e: (Vec<u32>, Vec<BindingSpec>)| (e.0@, e.1@))
    }

    /// No program is declared twice.
    pub open spec fn wf(&self) -> bool {
        forall|i: int, j: int| 0 <= i < j < self.keys().len() ==> #[trigger] self.keys()[i] != #[trigger] self.keys()[j]
    }

    pub fn new() -> (r: PipelineLibrary)
        ensures
            r.wf(),
            r.keys() == Seq::<(Seq<u32>, Seq<BindingSpec>)>::empty(),
    {
        let r = PipelineLibrary { entries: Vec::new() };
        assert(r.keys() =~= Seq::<(Seq<u32>, Seq<BindingSpec>)>::empty());
        r
    }

    /// The index of the pipeline of `program`: that of a program declared
    /// before with the same key, else a new one at the end.
    pub fn declare(&mut self, program: &ComputeProgram) -> (r: usize)
        requires
            old(self).wf(),
        ensures
            final(self).wf(),
            r < final(self).keys().len(),
            final(self).keys()[r as int] == program_key(*program),
            old(self).keys().contains(program_key(*program)) ==> final(self).keys() == old(self).keys(),
            !old(self).keys().contains(program_key(*program)) ==> final(self).keys() == old(self).keys().push(program_key(*program))
                && r == old(self).keys().len(),
    {
        let spirv = program.spirv();
        let bindings = program.bindings();
        let mut i: usize = 0;
        while i < self.entries.len()
            invariant
                i <= self.entries@.len(),
                self.keys() == old(self).keys(),
                self.wf(),
                self.entries@.len() == self.keys().len(),
                spirv@ == program.spirv_view(),
                bindings@ == program.bindings_view(),
                forall|j: int| 0 <= j < i ==> self.keys()[j] != program_key(*program),
            decreases self.entries@.len() - i,
        {
            let w = same_words(self.entries[i].0.as_slice(), spirv);
            let b = same_bindings(self.entries[i].1.as_slice(), bindings);
            if w && b {
                assert(self.entries@[i as int].0@ == spirv@);
                assert(self.entries@[i as int].1@ == bindings@);
                assert(self.keys()[i as int] == (self.entries@[i as int].0@, self.entries@[i as int].1@));
                return i;
            }
            assert(self.keys()[i as int] == (self.entries@[i as int].0@, self.entries@[i as int].1@));
            i += 1;
        }
        proof {
            if self.keys().contains(program_key(*program)) {
                let k = choose|k: int| 0 <= k < self.keys().len() && self.keys()[k] == program_key(*program);
                assert(self.keys()[k] != program_key(*program));
            }
        }
        let ghost before = self.keys();
        let mut words: Vec<u32> = Vec::new();
        let mut k: usize = 0;
        while k < spirv.len()
            invariant
                k <= spirv@.len(),
                words@ == spirv@.subrange(0, k as int),
            decreases spirv@.len() - k,
        {
            words.push(spirv[k]);
            assert(words@ =~= spirv@.subrange(0, k + 1));
            k += 1;
        }
        assert(words@ =~= spirv@);
        let mut specs: Vec<BindingSpec> = Vec::new();
        let mut k: usize = 0;
        while k < bindings.len()
            invariant
                k <= bindings@.len(),
                specs@ == bindings@.subrange(0, k as int),
            decreases bindings@.len() - k,
        {
            specs.push(bindings[k]);
            assert(specs@ =~= bindings@.subrange(0, k + 1));
            k += 1;
        }
        assert(specs@ =~= bindings@);
        let at = self.entries.len();
        self.entries.push((words, specs));
        proof {
            assert(self.keys() =~= before.push(program_key(*program)));
        }
        at
    }

    /// How many pipelines were built.
    pub fn declared(&self) -> (r: usize)
        ensures
            r == self.keys().len(),
    {
        self.entries.len()
    }
}

} // verus!
