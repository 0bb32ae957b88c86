//! The number formats a tensor stores.
use vstd::prelude::*;

verus! {

pub const SINGLE: u32 = 0;
pub const HALF: u32 = 1;
pub const BFLOAT16: u32 = 2;

/// The number format a tensor stores: a 32-bit float, or one of two 16-bit
/// floats packed two to a word.
#[derive(Clone, Copy, PartialEq, Eq, Debug, Hash, Structural)]
pub enum Element {
    Single,
    Half,
    Bfloat16,
}

pub open spec fn element_code(e: Element) -> nat {
    match e {
        Element::Single => 0,
        Element::Half => 1,
        Element::Bfloat16 => 2,
    }
}

pub open spec fn element_of(code: nat) -> Element {
    if code == 0 {
        Element::Single
    } else if code == 1 {
        Element::Half
    } else {
        Element::Bfloat16
    }
}

pub open spec fn element_per_word(e: Element) -> nat {
    match e {
        Element::Single => 1,
        _ => 2,
    }
}

/// The format two operands meet in: a narrow format kept only when both share it.
pub open spec fn element_promote(a: Element, b: Element) -> Element {
    if a == b { a } else { Element::Single }
}

/// The words that hold `elements` numbers of a format: a ceiling division.
pub open spec fn element_words(e: Element, elements: nat) -> nat {
    (elements + element_per_word(e) - 1) as nat / element_per_word(e)
}

impl Element {
    pub const COUNT: u32 = 3;

    /// Every element, in the order of its code.
    pub fn all() -> (r: Vec<Element>)
        ensures
            r@.len() == 3,
            forall|i: int| 0 <= i < 3 ==> element_code(#[trigger] r@[i]) == i,
    {
        vec![Element::Single, Element::Half, Element::Bfloat16]
    }

    pub fn code(self) -> (r: u32)
        ensures
            r == element_code(self),
    {
        match self {
            Element::Single => 0,
            Element::Half => 1,
            Element::Bfloat16 => 2,
        }
    }

    /// The element of a device code; every code below `COUNT` names one.
    pub fn of(code: u32) -> (r: Element)
        requires
            code < 3,
        ensures
            r == element_of(code as nat),
            element_code(r) == code,
    {
        if code == 0 {
            Element::Single
        } else if code == 1 {
            Element::Half
        } else {
            Element::Bfloat16
        }
    }

    pub fn symbol(self) -> (r: &'static str)
        ensures
            r@ == element_symbol(self),
    {
        match self {
            Element::Single => "element::SINGLE",
            Element::Half => "element::HALF",
            Element::Bfloat16 => "element::BFLOAT16",
        }
    }

    pub fn name(self) -> (r: &'static str)
        ensures
            r@ == element_name(self),
    {
        match self {
            Element::Single => "single",
            Element::Half => "half",
            Element::Bfloat16 => "bfloat16",
        }
    }

    pub fn elements_per_word(self) -> (r: u64)
        ensures
            r == element_per_word(self),
    {
        match self {
            Element::Single => 1,
            Element::Half | Element::Bfloat16 => 2,
        }
    }

    /// The words that hold `elements` numbers of this format.
    pub fn words(self, elements: u64) -> (r: u64)
        ensures
            r == element_words(self, elements as nat),
    {
        let per = self.elements_per_word();
        let whole = elements / per;
        if elements % per == 0 {
            whole
        } else {
            whole + 1
        }
    }

    /// Whether the format packs more than one number to a word.
    pub fn narrow(self) -> (r: bool)
        ensures
            r == (element_per_word(self) > 1),
    {
        self.elements_per_word() > 1
    }

    /// The format in which `self` and `other` meet.
    pub fn promote(self, other: Element) -> (r: Element)
        ensures
            r == element_promote(self, other),
    {
        match (self, other) {
            (Element::Single, _) | (_, Element::Single) => Element::Single,
            (Element::Half, Element::Half) => Element::Half,
            (Element::Bfloat16, Element::Bfloat16) => Element::Bfloat16,
            (Element::Half, Element::Bfloat16) | (Element::Bfloat16, Element::Half) => Element::Single,
        }
    }
}

pub open spec fn element_symbol(e: Element) -> Seq<char> {
    match e {
        Element::Single => "element::SINGLE"@,
        Element::Half => "element::HALF"@,
        Element::Bfloat16 => "element::BFLOAT16"@,
    }
}

pub open spec fn element_name(e: Element) -> Seq<char> {
    match e {
        Element::Single => "single"@,
        Element::Half => "half"@,
        Element::Bfloat16 => "bfloat16"@,
    }
}

/// Every element reads back from its code, and every code below three names the
/// element it reads back as.
pub proof fn lemma_code_round_trip(e: Element, code: nat)
    ensures
        element_of(element_code(e)) == e,
        code < 3 ==> element_code(element_of(code)) == code,
{
}

/// Promotion neither depends on the order of its operands nor on how three
/// operands are grouped, and a format meets itself in itself.
pub proof fn lemma_promote_is_a_join(a: Element, b: Element, c: Element)
    ensures
        element_promote(a, b) == element_promote(b, a),
        element_promote(element_promote(a, b), c) == element_promote(a, element_promote(b, c)),
        element_promote(a, a) == a,
        element_promote(a, Element::Single) == Element::Single,
{
}

/// The words of a format hold every number and waste less than one word.
pub proof fn lemma_words_hold_every_element(e: Element, elements: nat)
    ensures
        element_words(e, elements) * element_per_word(e) >= elements,
        element_words(e, elements) * element_per_word(e) < elements + element_per_word(e),
{
    let p = element_per_word(e);
    let w = element_words(e, elements);
    assert(w * p >= elements && w * p < elements + p) by (nonlinear_arith)
        requires
            p == 1 || p == 2,
            w == (elements + p - 1) as nat / p,
    ;
}

} // verus!
