//! Why a device task refused to run, packed into one device word.
use vstd::prelude::*;

verus! {

/// The bits of a refusal word that name its subject.
pub const KIND_BITS: u32 = 16;
/// The bits of a refusal word that name its category.
pub const CATEGORY_BITS: u32 = 3;
/// The bits of a refusal word that carry its code.
pub const CODE_BITS: u32 = 13;
/// One past the largest code field a refusal word holds.
pub const CODE_LIMIT: u32 = 8192;

/// The subject of a refusal that names a tensor rather than a task kind:
/// one past the last task kind.
pub const TENSOR: u32 = 32;

pub const OP: u32 = 0;
pub const PARTIAL: u32 = 1;
pub const INDEX: u32 = 2;
pub const GEOMETRY: u32 = 3;
pub const ORIGIN: u32 = 4;
pub const TASK: u32 = 5;
pub const ELEMENT: u32 = 6;

/// The reason a device task refuses to run.
#[derive(Clone, Copy, PartialEq, Eq, Debug, Hash, Structural)]
pub enum Refusal {
    Op,
    Partial,
    Index,
    Geometry,
    Origin,
    Task,
    Element,
}

/// The device code of each refusal, in declaration order.
pub open spec fn refusal_code(r: Refusal) -> nat {
    match r {
        Refusal::Op => 0,
        Refusal::Partial => 1,
        Refusal::Index => 2,
        Refusal::Geometry => 3,
        Refusal::Origin => 4,
        Refusal::Task => 5,
        Refusal::Element => 6,
    }
}

/// The refusal a device code names.
pub open spec fn refusal_of(code: nat) -> Refusal {
    if code == 0 { Refusal::Op }
    else if code == 1 { Refusal::Partial }
    else if code == 2 { Refusal::Index }
    else if code == 3 { Refusal::Geometry }
    else if code == 4 { Refusal::Origin }
    else if code == 5 { Refusal::Task }
    else { Refusal::Element }
}

/// The word that reports `refusal` of `subject` with `code`: the subject in the
/// high 16 bits, the category in the next 3, and `code + 1` in the low 13,
/// so that a zeroed word reports nothing.
pub open spec fn refusal_word(subject: nat, refusal: Refusal, code: nat) -> nat {
    subject * 65536 + refusal_code(refusal) * 8192 + code + 1
}

/// A word a device could have written: a nonzero code field and a declared category.
pub open spec fn reports_refusal(word: u32) -> bool {
    word % 8192 > 0 && (word / 8192) % 8 < 7
}

/// What a refusal word reports: its subject, its refusal and its code.
pub open spec fn refusal_read(word: nat) -> (nat, Refusal, nat) {
    (word / 65536, refusal_of((word / 8192) % 8), (word % 8192 - 1) as nat)
}

impl Refusal {
    pub const COUNT: u32 = 7;

    /// Every refusal, in the order of its code.
    pub fn all() -> (r: Vec<Refusal>)
        ensures
            r@.len() == 7,
            forall|i: int| 0 <= i < 7 ==> refusal_code(#[trigger] r@[i]) == i,
    {
        vec![
            Refusal::Op,
            Refusal::Partial,
            Refusal::Index,
            Refusal::Geometry,
            Refusal::Origin,
            Refusal::Task,
            Refusal::Element,
        ]
    }

    pub fn code(self) -> (r: u32)
        ensures
            r == refusal_code(self),
    {
        match self {
            Refusal::Op => 0,
            Refusal::Partial => 1,
            Refusal::Index => 2,
            Refusal::Geometry => 3,
            Refusal::Origin => 4,
            Refusal::Task => 5,
            Refusal::Element => 6,
        }
    }

    /// The refusal of a device code; every code below `COUNT` names one.
    pub fn of(code: u32) -> (r: Refusal)
        requires
            code < 7,
        ensures
            r == refusal_of(code as nat),
            refusal_code(r) == code,
    {
        if code == 0 {
            Refusal::Op
        } else if code == 1 {
            Refusal::Partial
        } else if code == 2 {
            Refusal::Index
        } else if code == 3 {
            Refusal::Geometry
        } else if code == 4 {
            Refusal::Origin
        } else if code == 5 {
            Refusal::Task
        } else {
            Refusal::Element
        }
    }

    pub fn name(self) -> (r: &'static str)
        ensures
            r@ == refusal_name(self),
    {
        match self {
            Refusal::Op => "op",
            Refusal::Partial => "partial",
            Refusal::Index => "index",
            Refusal::Geometry => "geometry",
            Refusal::Origin => "origin",
            Refusal::Task => "task",
            Refusal::Element => "element",
        }
    }

    /// Packs this refusal of `subject` with `code` into one device word.
    pub fn word(self, subject: u32, code: u32) -> (r: u32)
        requires
            code + 1 < CODE_LIMIT,
            subject < 65536,
        ensures
            r == refusal_word(subject as nat, self, code as nat),
    {
        let category = self.code();
        let low = code + 1;
        assert((subject << 16u32) | (category << 13u32) | low == subject * 65536 + category * 8192
            + low) by (bit_vector)
            requires
                subject < 65536,
                category < 7,
                low < 8192,
        ;
        (subject << 16u32) | (category << 13u32) | low
    }

    /// Unpacks a refusal word into its subject, refusal and code.
    pub fn read(word: u32) -> (r: (u32, Refusal, u32))
        requires
            reports_refusal(word),
        ensures
            (r.0 as nat, r.1, r.2 as nat) == refusal_read(word as nat),
    {
        let subject = word >> 16u32;
        let code = word & 8191u32;
        let category = (word >> 13u32) & 7u32;
        assert(word >> 16u32 == word / 65536) by (bit_vector);
        assert(word & 8191u32 == word % 8192) by (bit_vector);
        assert((word >> 13u32) & 7u32 == (word / 8192) % 8) by (bit_vector);
        (subject, Refusal::of(category), code - 1)
    }
}

/// The name of each refusal.
pub open spec fn refusal_name(r: Refusal) -> Seq<char> {
    match r {
        Refusal::Op => "op"@,
        Refusal::Partial => "partial"@,
        Refusal::Index => "index"@,
        Refusal::Geometry => "geometry"@,
        Refusal::Origin => "origin"@,
        Refusal::Task => "task"@,
        Refusal::Element => "element"@,
    }
}

/// A refusal word reads back the subject, refusal and code it was packed from.
pub proof fn lemma_read_inverts_word(subject: nat, refusal: Refusal, code: nat)
    requires
        subject < 65536,
        code + 1 < 8192,
    ensures
        refusal_read(refusal_word(subject, refusal, code)) == (subject, refusal, code),
        refusal_word(subject, refusal, code) <= 0xffff_ffff,
{
    let c = refusal_code(refusal);
    let w = refusal_word(subject, refusal, code);
    assert(w == subject * 65536 + (c * 8192 + code + 1));
    assert(w / 65536 == subject && w % 65536 == c * 8192 + code + 1) by (nonlinear_arith)
        requires
            w == subject * 65536 + (c * 8192 + code + 1),
            c < 7,
            code + 1 < 8192,
    ;
    assert(w % 8192 == code + 1 && (w / 8192) % 8 == c) by (nonlinear_arith)
        requires
            w == subject * 65536 + (c * 8192 + code + 1),
            c < 7,
            code + 1 < 8192,
    ;
}

/// Every word a device could have written packs the refusal it reads as.
pub proof fn lemma_word_inverts_read(word: u32)
    requires
        reports_refusal(word),
    ensures
        ({
            let (subject, refusal, code) = refusal_read(word as nat);
            refusal_word(subject, refusal, code) == word
        }),
{
    let w = word as nat;
    let c = (w / 8192) % 8;
    assert(refusal_code(refusal_of(c)) == c);
    assert(w == (w / 65536) * 65536 + c * 8192 + w % 8192) by (nonlinear_arith)
        requires
            c == (w / 8192) % 8,
    ;
}

/// Two different reports never share a word.
pub proof fn lemma_word_is_injective(s1: nat, r1: Refusal, c1: nat, s2: nat, r2: Refusal, c2: nat)
    requires
        s1 < 65536,
        c1 + 1 < 8192,
        s2 < 65536,
        c2 + 1 < 8192,
        refusal_word(s1, r1, c1) == refusal_word(s2, r2, c2),
    ensures
        s1 == s2,
        r1 == r2,
        c1 == c2,
{
    lemma_read_inverts_word(s1, r1, c1);
    lemma_read_inverts_word(s2, r2, c2);
}

} // verus!
