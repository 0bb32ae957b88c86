//! Vulkan forbids explicit layout decorations on types that only live in
//! workgroup memory. This pass removes them from a SPIR-V module, and refuses a
//! module whose decorated type is shared by workgroup memory and other storage.
use vstd::prelude::*;
use vstd::set_lib::lemma_len_subset;

verus! {

/// The magic number that opens a SPIR-V module.
pub const MAGIC: u32 = 0x0723_0203;

pub const OP_TYPE_ARRAY: u32 = 28;
pub const OP_TYPE_RUNTIME_ARRAY: u32 = 29;
pub const OP_TYPE_STRUCT: u32 = 30;
pub const OP_TYPE_POINTER: u32 = 32;
pub const OP_DECORATE: u32 = 71;
pub const OP_MEMBER_DECORATE: u32 = 72;
pub const STORAGE_CLASS_WORKGROUP: u32 = 4;
pub const DECORATION_BLOCK: u32 = 2;
pub const DECORATION_BUFFER_BLOCK: u32 = 3;
pub const DECORATION_ROW_MAJOR: u32 = 4;
pub const DECORATION_COL_MAJOR: u32 = 5;
pub const DECORATION_ARRAY_STRIDE: u32 = 6;
pub const DECORATION_MATRIX_STRIDE: u32 = 7;
pub const DECORATION_OFFSET: u32 = 35;

/// The words of the instruction that starts at `pos`.
pub open spec fn word_count(words: Seq<u32>, pos: int) -> nat {
    (words[pos] / 65536) as nat
}

/// The opcode of the instruction that starts at `pos`.
pub open spec fn opcode(words: Seq<u32>, pos: int) -> u32 {
    (words[pos] % 65536) as u32
}

/// The starts of the instructions from `pos` to the end of the module, or
/// nothing when an instruction is empty or runs past the end.
pub open spec fn parse_from(words: Seq<u32>, pos: int) -> Option<Seq<int>>
    decreases words.len() - pos,
{
    if pos < 0 || pos >= words.len() {
        Some(Seq::empty())
    } else {
        let count = word_count(words, pos);
        if count == 0 || pos + count > words.len() {
            None
        } else {
            match parse_from(words, pos + count) {
                Some(rest) => Some(seq![pos] + rest),
                None => None,
            }
        }
    }
}

pub open spec fn is_type(op: u32) -> bool {
    op == OP_TYPE_ARRAY || op == OP_TYPE_RUNTIME_ARRAY || op == OP_TYPE_STRUCT
}

/// The instructions the pass reads carry the operands it reads: a type its
/// result, a pointer its storage class and pointee, a decoration its target and
/// decoration, a member decoration its member and decoration.
pub open spec fn operands_present(words: Seq<u32>, starts: Seq<int>) -> bool {
    forall|i: int| #![trigger starts[i]] 0 <= i < starts.len() ==> {
        let s = starts[i];
        let op = opcode(words, s);
        let c = word_count(words, s);
        &&& is_type(op) ==> c >= 2
        &&& op == OP_TYPE_POINTER ==> c >= 4
        &&& op == OP_DECORATE ==> c >= 3
        &&& op == OP_MEMBER_DECORATE ==> c >= 4
    }
}

/// The instruction that defines a type id: the last type instruction with that result.
pub open spec fn defines(words: Seq<u32>, starts: Seq<int>, id: u32, i: int) -> bool {
    &&& 0 <= i < starts.len()
    &&& is_type(opcode(words, starts[i]))
    &&& words[starts[i] + 1] == id
    &&& forall|j: int| i < j < starts.len() ==> !(is_type(opcode(words, #[trigger] starts[j])) && words[starts[j] + 1] == id)
}

/// The type ids a type refers to: the element of an array, the members of a struct.
pub open spec fn children(words: Seq<u32>, starts: Seq<int>, id: u32) -> Seq<u32> {
    if exists|i: int| defines(words, starts, id, i) {
        let i = choose|i: int| defines(words, starts, id, i);
        let s = starts[i];
        let c = word_count(words, s);
        if opcode(words, s) == OP_TYPE_STRUCT {
            words.subrange(s + 2, s + c)
        } else if c >= 3 {
            seq![words[s + 2]]
        } else {
            Seq::empty()
        }
    } else {
        Seq::empty()
    }
}

/// A type id whose defining array instruction lacks its element.
pub open spec fn truncated(words: Seq<u32>, starts: Seq<int>, id: u32) -> bool {
    exists|i: int| #![trigger starts[i]] defines(words, starts, id, i) && opcode(words, starts[i]) != OP_TYPE_STRUCT && word_count(words, starts[i]) < 3
}

/// A walk from type to type, each step from a type to one it refers to.
pub open spec fn walk(words: Seq<u32>, starts: Seq<int>, path: Seq<u32>) -> bool {
    &&& path.len() > 0
    &&& forall|k: int| 0 <= k < path.len() - 1 ==> children(words, starts, #[trigger] path[k]).contains(path[k + 1])
}

/// The ids reached from `roots` by walks over types.
pub open spec fn reached(words: Seq<u32>, starts: Seq<int>, roots: Set<u32>, id: u32) -> bool {
    exists|path: Seq<u32>| #![trigger walk(words, starts, path)] walk(words, starts, path) && roots.contains(path[0]) && path.last() == id
}

/// The pointee types of the pointers into workgroup memory, or into any other
/// storage class.
pub open spec fn pointer_roots(words: Seq<u32>, starts: Seq<int>, workgroup: bool) -> Set<u32> {
    Set::new(|id: u32| exists|i: int| #![trigger starts[i]] 0 <= i < starts.len()
        && opcode(words, starts[i]) == OP_TYPE_POINTER
        && (words[starts[i] + 2] == STORAGE_CLASS_WORKGROUP) == workgroup
        && words[starts[i] + 3] == id)
}

/// Every start lies in the module and its instruction ends within it.
pub open spec fn starts_valid(words: Seq<u32>, starts: Seq<int>) -> bool {
    forall|i: int| #![trigger starts[i]] 0 <= i < starts.len() ==> 0 <= starts[i] && word_count(words, starts[i]) > 0
        && starts[i] + word_count(words, starts[i]) <= words.len()
}

proof fn lemma_parse_valid(words: Seq<u32>, pos: int)
    requires
        0 <= pos,
        parse_from(words, pos) is Some,
    ensures
        starts_valid(words, parse_from(words, pos)->0),
        forall|i: int| #![trigger parse_from(words, pos)->0[i]] 0 <= i < parse_from(words, pos)->0.len() ==> parse_from(words, pos)->0[i] >= pos,
    decreases words.len() - pos,
{
    if pos < words.len() {
        let count = word_count(words, pos);
        lemma_parse_valid(words, pos + count);
        let rest = parse_from(words, pos + count)->0;
        let all = parse_from(words, pos)->0;
        assert(all == seq![pos] + rest);
        assert forall|i: int| #![trigger all[i]] 0 <= i < all.len() implies 0 <= all[i] && word_count(words, all[i]) > 0
            && all[i] + word_count(words, all[i]) <= words.len() && all[i] >= pos by {
            if i > 0 {
                assert(all[i] == rest[i - 1]);
            }
        }
    }
}

/// The starts of the instructions after the five words of the header, or
/// nothing when the module does not parse.
fn instructions(words: &[u32]) -> (r: Option<Vec<usize>>)
    requires
        words@.len() >= 5,
    ensures
        r is Some <==> parse_from(words@, 5) is Some,
        r matches Some(v) ==> v@.map_values(|x: usize| x as int) == parse_from(words@, 5)->0,
{
    let mut starts: Vec<usize> = Vec::new();
    let mut pos: usize = 5;
    while pos < words.len()
        invariant
            5 <= pos <= words@.len(),
            parse_from(words@, 5) == match parse_from(words@, pos as int) {
                Some(rest) => Some(starts@.map_values(|x: usize| x as int) + rest),
                None => None::<Seq<int>>,
            },
        decreases words@.len() - pos,
    {
        let count = (words[pos] >> 16u32) as usize;
        let w = words[pos];
        assert(w >> 16u32 == w / 65536) by (bit_vector);
        if count == 0 || count > words.len() - pos {
            return None;
        }
        let ghost before = starts@.map_values(|x: usize| x as int);
        starts.push(pos);
        proof {
            assert(starts@.map_values(|x: usize| x as int) =~= before.push(pos as int));
            match parse_from(words@, (pos + count) as int) {
                Some(rest) => {
                    assert(before + (seq![pos as int] + rest) =~= before.push(pos as int) + rest);
                },
                None => {},
            }
        }
        pos = pos + count;
    }
    proof {
        assert(parse_from(words@, pos as int) == Some(Seq::<int>::empty()));
        assert(starts@.map_values(|x: usize| x as int) + Seq::<int>::empty() =~= starts@.map_values(|x: usize| x as int));
    }
    Some(starts)
}

pub open spec fn ints(v: Seq<usize>) -> Seq<int> {
    v.map_values(|x: usize| x as int)
}

fn opcode_at(words: &[u32], pos: usize) -> (r: u32)
    requires
        pos < words@.len(),
    ensures
        r == opcode(words@, pos as int),
{
    let w = words[pos];
    assert(w & 0xffff == w % 65536) by (bit_vector);
    w & 0xffff
}

fn count_at(words: &[u32], pos: usize) -> (r: usize)
    requires
        pos < words@.len(),
    ensures
        r == word_count(words@, pos as int),
{
    let w = words[pos];
    assert(w >> 16u32 == w / 65536) by (bit_vector);
    (w >> 16u32) as usize
}

/// Whether every instruction the pass reads carries the operands it reads.
fn check_operands(words: &[u32], starts: &Vec<usize>) -> (r: bool)
    requires
        starts_valid(words@, ints(starts@)),
    ensures
        r == operands_present(words@, ints(starts@)),
{
    let ghost st = ints(starts@);
    let mut i: usize = 0;
    while i < starts.len()
        invariant
            i <= starts@.len(),
            st == ints(starts@),
            starts_valid(words@, st),
            forall|j: int| #![trigger st[j]] 0 <= j < i ==> {
                let s = st[j];
                let op = opcode(words@, s);
                let c = word_count(words@, s);
                &&& is_type(op) ==> c >= 2
                &&& op == OP_TYPE_POINTER ==> c >= 4
                &&& op == OP_DECORATE ==> c >= 3
                &&& op == OP_MEMBER_DECORATE ==> c >= 4
            },
        decreases starts@.len() - i,
    {
        let s = starts[i];
        assert(st[i as int] == s as int);
        let op = opcode_at(words, s);
        let c = count_at(words, s);
        if (op == OP_TYPE_ARRAY || op == OP_TYPE_RUNTIME_ARRAY || op == OP_TYPE_STRUCT) && c < 2 {
            return false;
        }
        if op == OP_TYPE_POINTER && c < 4 {
            return false;
        }
        if op == OP_DECORATE && c < 3 {
            return false;
        }
        if op == OP_MEMBER_DECORATE && c < 4 {
            return false;
        }
        i += 1;
    }
    true
}

/// The instruction that defines a type id, if any does.
fn type_of(words: &[u32], starts: &Vec<usize>, id: u32) -> (r: Option<usize>)
    requires
        starts_valid(words@, ints(starts@)),
        operands_present(words@, ints(starts@)),
    ensures
        r matches Some(i) ==> defines(words@, ints(starts@), id, i as int),
        r is None ==> forall|i: int| !defines(words@, ints(starts@), id, i),
{
    let ghost st = ints(starts@);
    let n = words.len();
    let mut i: usize = starts.len();
    while i > 0
        invariant
            i <= starts@.len(),
            st == ints(starts@),
            n == words@.len(),
            starts_valid(words@, st),
            operands_present(words@, st),
            forall|j: int| i <= j < st.len() ==> !(is_type(opcode(words@, #[trigger] st[j])) && words@[st[j] + 1] == id),
        decreases i,
    {
        i -= 1;
        let s = starts[i];
        assert(st[i as int] == s as int);
        assert(s + word_count(words@, s as int) <= words@.len());
        let op = opcode_at(words, s);
        if (op == OP_TYPE_ARRAY || op == OP_TYPE_RUNTIME_ARRAY || op == OP_TYPE_STRUCT) && words[s + 1] == id {
            return Some(i);
        }
    }
    None
}

fn seq_contains(v: &Vec<u32>, x: u32) -> (r: bool)
    ensures
        r == v@.contains(x),
{
    let mut i: usize = 0;
    while i < v.len()
        invariant
            i <= v@.len(),
            forall|j: int| 0 <= j < i ==> v@[j] != x,
        decreases v@.len() - i,
    {
        if v[i] == x {
            return true;
        }
        i += 1;
    }
    false
}

/// A walk that ends in `x` extends by a step to any type `x` refers to.
proof fn lemma_extend_walk(words: Seq<u32>, starts: Seq<int>, roots: Set<u32>, x: u32, y: u32)
    requires
        reached(words, starts, roots, x),
        children(words, starts, x).contains(y),
    ensures
        reached(words, starts, roots, y),
{
    let p = choose|p: Seq<u32>| #![trigger walk(words, starts, p)] walk(words, starts, p) && roots.contains(p[0]) && p.last() == x;
    let q = p.push(y);
    assert forall|k: int| 0 <= k < q.len() - 1 implies children(words, starts, #[trigger] q[k]).contains(q[k + 1]) by {
        if k < p.len() - 1 {
            assert(q[k] == p[k] && q[k + 1] == p[k + 1]);
        } else {
            assert(q[k] == x && q[k + 1] == y);
        }
    }
    assert(walk(words, starts, q));
    assert(q[0] == p[0]);
}

/// Every id a walk from a root reaches lies in a set that holds the roots and
/// the types every member refers to.
proof fn lemma_closed_holds_reached(words: Seq<u32>, starts: Seq<int>, roots: Set<u32>, found: Set<u32>, id: u32)
    requires
        roots.subset_of(found),
        forall|x: u32, y: u32| found.contains(x) && #[trigger] children(words, starts, x).contains(y) ==> found.contains(y),
        reached(words, starts, roots, id),
    ensures
        found.contains(id),
{
    let p = choose|p: Seq<u32>| #![trigger walk(words, starts, p)] walk(words, starts, p) && roots.contains(p[0]) && p.last() == id;
    lemma_walk_stays(words, starts, found, p, p.len() - 1);
}

proof fn lemma_walk_stays(words: Seq<u32>, starts: Seq<int>, found: Set<u32>, p: Seq<u32>, k: int)
    requires
        walk(words, starts, p),
        found.contains(p[0]),
        0 <= k < p.len(),
        forall|x: u32, y: u32| found.contains(x) && #[trigger] children(words, starts, x).contains(y) ==> found.contains(y),
    ensures
        found.contains(p[k]),
    decreases k,
{
    if k > 0 {
        lemma_walk_stays(words, starts, found, p, k - 1);
        assert(children(words, starts, p[k - 1]).contains(p[k]));
    }
}

proof fn lemma_concat_contains(a: Seq<u32>, b: Seq<u32>)
    ensures
        forall|x: u32| #![trigger (a + b).contains(x)] (a + b).contains(x) <==> a.contains(x) || b.contains(x),
{
    assert forall|x: u32| #![trigger (a + b).contains(x)] (a + b).contains(x) <==> a.contains(x) || b.contains(x) by {
        if (a + b).contains(x) {
            let j = choose|j: int| 0 <= j < (a + b).len() && (a + b)[j] == x;
            if j < a.len() {
                assert(a[j] == x);
            } else {
                assert(b[j - a.len()] == x);
            }
        }
        if a.contains(x) {
            let j = choose|j: int| 0 <= j < a.len() && a[j] == x;
            assert((a + b)[j] == x);
        }
        if b.contains(x) {
            let j = choose|j: int| 0 <= j < b.len() && b[j] == x;
            assert((a + b)[a.len() + j] == x);
        }
    }
}

proof fn lemma_push_contains(a: Seq<u32>, y: u32)
    ensures
        forall|x: u32| #![trigger a.push(y).contains(x)] a.push(y).contains(x) <==> a.contains(x) || x == y,
{
    assert(a.push(y) =~= a + seq![y]);
    lemma_concat_contains(a, seq![y]);
    assert(seq![y][0] == y);
    assert forall|x: u32| seq![y].contains(x) <==> x == y by {
        if seq![y].contains(x) {
            let j = choose|j: int| 0 <= j < 1 && seq![y][j] == x;
        }
    }
}

/// Appends the types `id` refers to, or reports the array that lacks its element.
fn push_children(words: &[u32], starts: &Vec<usize>, id: u32, work: &mut Vec<u32>) -> (ok: bool)
    requires
        starts_valid(words@, ints(starts@)),
        operands_present(words@, ints(starts@)),
    ensures
        ok == !truncated(words@, ints(starts@), id),
        ok ==> final(work)@ == old(work)@ + children(words@, ints(starts@), id),
        !ok ==> final(work)@ == old(work)@,
        forall|y: u32| #![trigger children(words@, ints(starts@), id).contains(y)] children(words@, ints(starts@), id).contains(y) ==> words@.contains(y),
{
    let ghost st = ints(starts@);
    let ghost w = words@;
    let n = words.len();
    match type_of(words, starts, id) {
        None => {
            proof {
                assert(children(w, st, id) =~= Seq::<u32>::empty());
                assert(old(work)@ + Seq::<u32>::empty() =~= old(work)@);
            }
            true
        },
        Some(i) => {
            let s = starts[i];
            assert(st[i as int] == s as int);
            assert(s + word_count(w, s as int) <= n);
            let c = count_at(words, s);
            let op = opcode_at(words, s);
            proof {
                assert forall|j: int| defines(w, st, id, j) implies j == i as int by {
                    if j < i {
                        assert(!(is_type(opcode(w, st[i as int])) && w[st[i as int] + 1] == id));
                    } else if j > i {
                        assert(!(is_type(opcode(w, st[j])) && w[st[j] + 1] == id));
                    }
                }
            }
            if op == OP_TYPE_STRUCT {
                let mut k: usize = s + 2;
                while k < s + c
                    invariant
                        s + 2 <= k <= s + c,
                        s + c <= w.len(),
                        w == words@,
                        n == w.len(),
                        work@ == old(work)@ + w.subrange(s + 2, k as int),
                    decreases s + c - k,
                {
                    work.push(words[k]);
                    proof {
                        assert(work@ =~= old(work)@ + w.subrange(s + 2, k + 1));
                    }
                    k += 1;
                }
                proof {
                    assert(children(w, st, id) == w.subrange(s + 2, s + c));
                    assert forall|y: u32| #![trigger children(w, st, id).contains(y)] children(w, st, id).contains(y) implies w.contains(y) by {
                        let j = choose|j: int| 0 <= j < children(w, st, id).len() && children(w, st, id)[j] == y;
                        assert(w[s + 2 + j] == y);
                    }
                }
                true
            } else if c >= 3 {
                let element = words[s + 2];
                work.push(element);
                proof {
                    assert(children(w, st, id) == seq![element]);
                    assert(work@ =~= old(work)@ + children(w, st, id));
                    assert forall|y: u32| #![trigger children(w, st, id).contains(y)] children(w, st, id).contains(y) implies w.contains(y) by {
                        let j = choose|j: int| 0 <= j < 1 && seq![element][j] == y;
                        assert(w[s + 2] == y);
                    }
                }
                true
            } else {
                proof {
                    assert(truncated(w, st, id));
                }
                false
            }
        },
    }
}

/// The types reached from `roots`, or nothing when one of them is an array
/// that lacks its element.
fn close(words: &[u32], starts: &Vec<usize>, roots: Vec<u32>) -> (r: Option<Vec<u32>>)
    requires
        starts_valid(words@, ints(starts@)),
        operands_present(words@, ints(starts@)),
        forall|i: int| 0 <= i < roots@.len() ==> words@.contains(#[trigger] roots@[i]),
    ensures
        r is None <==> exists|id: u32| reached(words@, ints(starts@), roots@.to_set(), id) && truncated(words@, ints(starts@), id),
        r matches Some(found) ==> forall|id: u32| found@.contains(id) <==> reached(words@, ints(starts@), roots@.to_set(), id),
{
    let ghost st = ints(starts@);
    let ghost w = words@;
    let ghost rs = roots@.to_set();
    let mut work = roots;
    let mut found: Vec<u32> = Vec::new();
    proof {
        assert forall|x: u32| work@.contains(x) implies reached(w, st, rs, x) by {
            let p = seq![x];
            assert(walk(w, st, p));
            assert(rs.contains(p[0]));
        }
    }
    while work.len() > 0
        invariant
            st == ints(starts@),
            w == words@,
            rs == roots@.to_set(),
            starts_valid(w, st),
            operands_present(w, st),
            forall|x: u32| found@.contains(x) ==> reached(w, st, rs, x),
            forall|x: u32| work@.contains(x) ==> reached(w, st, rs, x),
            forall|x: u32| rs.contains(x) ==> found@.contains(x) || work@.contains(x),
            forall|x: u32, y: u32| found@.contains(x) && #[trigger] children(w, st, x).contains(y) ==> found@.contains(y) || work@.contains(y),
            forall|x: u32| found@.contains(x) ==> !truncated(w, st, x),
            found@.no_duplicates(),
            forall|x: u32| found@.contains(x) ==> w.contains(x),
            forall|x: u32| work@.contains(x) ==> w.contains(x),
        decreases w.len() - found@.len(), work@.len(),
    {
        proof {
            assert(found@.to_set().subset_of(w.to_set()));
            lemma_len_subset(found@.to_set(), w.to_set());
            found@.unique_seq_to_set();
            w.lemma_cardinality_of_set();
        }
        let ghost before_work = work@;
        let ghost before_found = found@;
        let id = work.pop().unwrap();
        proof {
            assert(before_work =~= work@.push(id));
            lemma_push_contains(work@, id);
            assert(before_work[before_work.len() - 1] == id);
            assert(before_work.contains(id));
            assert(reached(w, st, rs, id));
        }
        if !seq_contains(&found, id) {
            found.push(id);
            proof {
                lemma_push_contains(before_found, id);
                assert(found@.no_duplicates()) by {
                    assert forall|i: int, j: int| 0 <= i < found@.len() && 0 <= j < found@.len() && i != j implies found@[i] != found@[j] by {
                        if i < before_found.len() && j < before_found.len() {
                            assert(found@[i] == before_found[i] && found@[j] == before_found[j]);
                        } else if i < before_found.len() {
                            assert(found@[i] == before_found[i]);
                            assert(before_found.contains(found@[i]));
                        } else {
                            assert(found@[j] == before_found[j]);
                            assert(before_found.contains(found@[j]));
                        }
                    }
                }
            }
            let ghost mid = work@;
            let ok = push_children(words, starts, id, &mut work);
            if !ok {
                proof {
                    assert(truncated(w, st, id));
                }
                return None;
            }
            proof {
                lemma_concat_contains(mid, children(w, st, id));
                assert forall|y: u32| children(w, st, id).contains(y) implies reached(w, st, rs, y) by {
                    lemma_extend_walk(w, st, rs, id, y);
                }
                assert forall|x: u32| work@.contains(x) implies reached(w, st, rs, x) by {
                    assert((mid + children(w, st, id)).contains(x));
                    if mid.contains(x) {
                        assert(before_work.contains(x));
                    }
                }
                assert(found@.to_set().subset_of(w.to_set()));
                lemma_len_subset(found@.to_set(), w.to_set());
                found@.unique_seq_to_set();
            }
        } else {
            proof {
                assert forall|x: u32| work@.contains(x) implies reached(w, st, rs, x) by {
                    assert(before_work.contains(x));
                }
            }
        }
    }
    proof {
        assert forall|id: u32| reached(w, st, rs, id) implies found@.contains(id) by {
            assert forall|x: u32| rs.contains(x) implies found@.to_set().contains(x) by {}
            assert forall|x: u32, y: u32| found@.to_set().contains(x) && #[trigger] children(w, st, x).contains(y) implies found@.to_set().contains(y) by {}
            lemma_closed_holds_reached(w, st, rs, found@.to_set(), id);
        }
    }
    Some(found)
}


/// A decoration that lays a type out explicitly: an array stride, a block, a
/// member offset, a matrix stride or a matrix order.
pub open spec fn explicit(words: Seq<u32>, s: int) -> bool {
    let op = opcode(words, s);
    ||| op == OP_DECORATE && (words[s + 2] == DECORATION_ARRAY_STRIDE || words[s + 2] == DECORATION_BLOCK
        || words[s + 2] == DECORATION_BUFFER_BLOCK)
    ||| op == OP_MEMBER_DECORATE && (words[s + 3] == DECORATION_OFFSET || words[s + 3] == DECORATION_MATRIX_STRIDE
        || words[s + 3] == DECORATION_ROW_MAJOR || words[s + 3] == DECORATION_COL_MAJOR)
}

/// The types reached from the pointers into workgroup memory, or from those
/// into any other storage class.
pub open spec fn reached_types(words: Seq<u32>, starts: Seq<int>, workgroup: bool) -> Set<u32> {
    Set::new(|id: u32| reached(words, starts, pointer_roots(words, starts, workgroup), id))
}

/// Whether the instruction at `s` is an explicit layout decoration of a
/// workgroup type, which the pass drops.
pub open spec fn dropped(words: Seq<u32>, s: int, workgroup: Set<u32>) -> bool {
    explicit(words, s) && workgroup.contains(words[s + 1])
}

/// The words of the first `n` instructions that the pass keeps.
pub open spec fn emitted(words: Seq<u32>, starts: Seq<int>, workgroup: Set<u32>, n: int) -> Seq<u32>
    decreases n,
{
    if n <= 0 {
        Seq::empty()
    } else {
        let s = starts[n - 1];
        emitted(words, starts, workgroup, n - 1) + if dropped(words, s, workgroup) {
            Seq::empty()
        } else {
            words.subrange(s, s + word_count(words, s))
        }
    }
}

/// A decorated type that lives both in workgroup memory and in other storage.
pub open spec fn shared(words: Seq<u32>, starts: Seq<int>) -> bool {
    exists|i: int| #![trigger starts[i]] 0 <= i < starts.len() && dropped(words, starts[i], reached_types(words, starts, true))
        && reached_types(words, starts, false).contains(words[starts[i] + 1])
}

/// Whether a module holds a header, parses into instructions that carry
/// their operands, reaches no array that lacks its element, and shares no
/// decorated type between workgroup memory and other storage.
pub open spec fn isolatable(words: Seq<u32>) -> bool {
    &&& words.len() >= 5
    &&& words[0] == MAGIC
    &&& parse_from(words, 5) is Some
    &&& {
        let st = parse_from(words, 5)->0;
        &&& operands_present(words, st)
        &&& forall|id: u32| #[trigger] reached(words, st, pointer_roots(words, st, true), id) ==> !truncated(words, st, id)
        &&& forall|id: u32| #[trigger] reached(words, st, pointer_roots(words, st, false), id) ==> !truncated(words, st, id)
        &&& !shared(words, st)
    }
}

/// The module with the explicit layout decorations of its workgroup types removed.
pub open spec fn isolated(words: Seq<u32>) -> Seq<u32> {
    let st = parse_from(words, 5)->0;
    words.subrange(0, 5) + emitted(words, st, reached_types(words, st, true), st.len() as int)
}

/// The pointee types of the pointers into workgroup memory, or into other storage.
fn roots_of(words: &[u32], starts: &Vec<usize>, workgroup: bool) -> (r: Vec<u32>)
    requires
        starts_valid(words@, ints(starts@)),
        operands_present(words@, ints(starts@)),
    ensures
        r@.to_set() == pointer_roots(words@, ints(starts@), workgroup),
        forall|i: int| 0 <= i < r@.len() ==> words@.contains(#[trigger] r@[i]),
{
    let ghost st = ints(starts@);
    let ghost w = words@;
    let mut roots: Vec<u32> = Vec::new();
    let mut i: usize = 0;
    while i < starts.len()
        invariant
            i <= starts@.len(),
            st == ints(starts@),
            w == words@,
            starts_valid(w, st),
            operands_present(w, st),
            forall|id: u32| roots@.contains(id) <==> exists|j: int| #![trigger st[j]] 0 <= j < i
                && opcode(w, st[j]) == OP_TYPE_POINTER
                && (w[st[j] + 2] == STORAGE_CLASS_WORKGROUP) == workgroup
                && w[st[j] + 3] == id,
            forall|k: int| 0 <= k < roots@.len() ==> w.contains(#[trigger] roots@[k]),
        decreases starts@.len() - i,
    {
        let s = starts[i];
        assert(st[i as int] == s as int);
        let op = opcode_at(words, s);
        if op == OP_TYPE_POINTER {
            assert(word_count(w, st[i as int]) >= 4);
            assert(s + 4 <= words.len());
            let pointee = words[s + 3];
            if (words[s + 2] == STORAGE_CLASS_WORKGROUP) == workgroup {
                let ghost before = roots@;
                roots.push(pointee);
                proof {
                    lemma_push_contains(before, pointee);
                    assert(w[s + 3] == pointee);
                    assert forall|id: u32| roots@.contains(id) <==> exists|j: int| #![trigger st[j]] 0 <= j < i + 1
                        && opcode(w, st[j]) == OP_TYPE_POINTER
                        && (w[st[j] + 2] == STORAGE_CLASS_WORKGROUP) == workgroup
                        && w[st[j] + 3] == id by {
                        if exists|j: int| #![trigger st[j]] 0 <= j < i + 1
                            && opcode(w, st[j]) == OP_TYPE_POINTER
                            && (w[st[j] + 2] == STORAGE_CLASS_WORKGROUP) == workgroup
                            && w[st[j] + 3] == id {
                            let j = choose|j: int| #![trigger st[j]] 0 <= j < i + 1
                                && opcode(w, st[j]) == OP_TYPE_POINTER
                                && (w[st[j] + 2] == STORAGE_CLASS_WORKGROUP) == workgroup
                                && w[st[j] + 3] == id;
                            if j == i {
                                assert(id == pointee);
                            }
                        }
                    }
                }
            }
        }
        i += 1;
    }
    proof {
        assert(roots@.to_set() =~= pointer_roots(w, st, workgroup));
    }
    roots
}

/// Whether the instruction at `s` is an explicit layout decoration.
fn explicit_at(words: &[u32], s: usize) -> (r: bool)
    requires
        s < words@.len(),
        opcode(words@, s as int) == OP_DECORATE ==> s + 3 <= words@.len(),
        opcode(words@, s as int) == OP_MEMBER_DECORATE ==> s + 4 <= words@.len(),
    ensures
        r == explicit(words@, s as int),
{
    let n = words.len();
    let op = opcode_at(words, s);
    if op == OP_DECORATE {
        let d = words[s + 2];
        d == DECORATION_ARRAY_STRIDE || d == DECORATION_BLOCK || d == DECORATION_BUFFER_BLOCK
    } else if op == OP_MEMBER_DECORATE {
        let d = words[s + 3];
        d == DECORATION_OFFSET || d == DECORATION_MATRIX_STRIDE || d == DECORATION_ROW_MAJOR || d == DECORATION_COL_MAJOR
    } else {
        false
    }
}

/// Removes the explicit layout decorations from the types that live in
/// workgroup memory. Nothing comes back when the module lacks its header, an
/// instruction is empty, runs past the end or lacks an operand the pass reads,
/// an array reached from a pointer lacks its element, or a decorated type
/// lives both in workgroup memory and in other storage.
pub fn try_isolate(words: &[u32]) -> (r: Option<Vec<u32>>)
    ensures
        r is Some <==> isolatable(words@),
        r matches Some(out) ==> out@ == isolated(words@),
{
    if words.len() < 5 || words[0] != MAGIC {
        return None;
    }
    let starts = match instructions(words) {
        Some(starts) => starts,
        None => return None,
    };
    let ghost w = words@;
    let ghost st = ints(starts@);
    proof {
        lemma_parse_valid(w, 5);
        assert(st == parse_from(w, 5)->0);
    }
    if !check_operands(words, &starts) {
        return None;
    }
    let workgroup_roots = roots_of(words, &starts, true);
    let external_roots = roots_of(words, &starts, false);
    let workgroup = match close(words, &starts, workgroup_roots) {
        Some(found) => found,
        None => return None,
    };
    let external = match close(words, &starts, external_roots) {
        Some(found) => found,
        None => return None,
    };
    let ghost wg = reached_types(w, st, true);
    let ghost ext = reached_types(w, st, false);
    proof {
        assert forall|id: u32| workgroup@.contains(id) <==> wg.contains(id) by {}
        assert forall|id: u32| external@.contains(id) <==> ext.contains(id) by {}
        assert forall|id: u32| #[trigger] reached(w, st, pointer_roots(w, st, true), id) implies !truncated(w, st, id) by {
            assert(workgroup@.contains(id));
        }
        assert forall|id: u32| #[trigger] reached(w, st, pointer_roots(w, st, false), id) implies !truncated(w, st, id) by {
            assert(external@.contains(id));
        }
    }
    let mut output: Vec<u32> = Vec::new();
    let mut k: usize = 0;
    while k < 5
        invariant
            k <= 5,
            w == words@,
            w.len() >= 5,
            output@ == w.subrange(0, k as int),
        decreases 5 - k,
    {
        output.push(words[k]);
        proof {
            assert(output@ =~= w.subrange(0, k + 1));
        }
        k += 1;
    }
    proof {
        assert(output@ + emitted(w, st, wg, 0) =~= w.subrange(0, 5));
    }
    let n = words.len();
    let mut i: usize = 0;
    while i < starts.len()
        invariant
            i <= starts@.len(),
            w == words@,
            n == w.len(),
            w.len() >= 5,
            wg == reached_types(w, st, true),
            ext == reached_types(w, st, false),
            st == ints(starts@),
            st == parse_from(w, 5)->0,
            starts_valid(w, st),
            operands_present(w, st),
            forall|id: u32| workgroup@.contains(id) <==> wg.contains(id),
            forall|id: u32| external@.contains(id) <==> ext.contains(id),
            output@ == w.subrange(0, 5) + emitted(w, st, wg, i as int),
            forall|j: int| #![trigger st[j]] 0 <= j < i ==> !(dropped(w, st[j], wg) && ext.contains(w[st[j] + 1])),
        decreases starts@.len() - i,
    {
        let s = starts[i];
        assert(st[i as int] == s as int);
        let c = count_at(words, s);
        assert(s + c <= n);
        let explicit = explicit_at(words, s);
        if explicit && seq_contains(&workgroup, words[s + 1]) {
            if seq_contains(&external, words[s + 1]) {
                proof {
                    assert(dropped(w, st[i as int], wg) && ext.contains(w[st[i as int] + 1]));
                    assert(shared(w, st));
                }
                return None;
            }
            proof {
                assert(emitted(w, st, wg, i + 1) =~= emitted(w, st, wg, i as int));
            }
        } else {
            let ghost before = output@;
            let mut k: usize = s;
            while k < s + c
                invariant
                    s <= k <= s + c,
                    s + c <= w.len(),
                    n == w.len(),
                    w == words@,
                    output@ == before + w.subrange(s as int, k as int),
                decreases s + c - k,
            {
                output.push(words[k]);
                proof {
                    assert(output@ =~= before + w.subrange(s as int, k + 1));
                }
                k += 1;
            }
            proof {
                assert(!dropped(w, st[i as int], wg));
                assert(emitted(w, st, wg, i + 1) == emitted(w, st, wg, i as int) + w.subrange(s as int, s + c));
                assert(output@ =~= w.subrange(0, 5) + emitted(w, st, wg, i + 1));
            }
        }
        i += 1;
    }
    proof {
        assert(!shared(w, st));
    }
    Some(output)
}

/// Removes the explicit layout decorations from the types that live in
/// workgroup memory.
pub fn isolate(words: Vec<u32>) -> (r: Vec<u32>)
    requires
        isolatable(words@),
    ensures
        r@ == isolated(words@),
{
    try_isolate(words.as_slice()).unwrap()
}

} // verus!
