//! The dimensions of a tensor, padded to four axes.
use vstd::prelude::*;

verus! {

/// The most numbers a tensor holds: the index space a device addresses.
pub const ELEMENT_LIMIT: u64 = 2147483647;

/// The product of four dimensions.
pub open spec fn product(d: Seq<nat>) -> nat {
    d[0] * d[1] * d[2] * d[3]
}

/// Four positive dimensions whose product a device addresses.
pub open spec fn valid_dims(d: Seq<nat>) -> bool {
    &&& d.len() == 4
    &&& forall|i: int| 0 <= i < 4 ==> d[i] > 0
    &&& product(d) <= ELEMENT_LIMIT
}

/// Up to four dimensions, padded in front with axes of one.
pub open spec fn padded(d: Seq<u32>) -> Seq<nat> {
    Seq::new(4, |i: int| if i < 4 - d.len() { 1nat } else { d[i - (4 - d.len())] as nat })
}

/// The product of the axes after `axis`.
pub open spec fn suffix_product(d: Seq<nat>, axis: int) -> nat {
    if axis >= 4 {
        1
    } else if axis == 3 {
        d[3]
    } else if axis == 2 {
        d[2] * d[3]
    } else if axis == 1 {
        d[1] * d[2] * d[3]
    } else {
        d[0] * d[1] * d[2] * d[3]
    }
}

/// The distance in numbers between neighbours along an axis of a tensor stored
/// row by row; an axis of one is walked with a stride of zero.
pub open spec fn contiguous_stride(d: Seq<nat>, axis: int) -> nat {
    if d[axis] == 1 { 0 } else { suffix_product(d, axis + 1) }
}

/// Two shapes meet element by element when each axis agrees or one side is one.
pub open spec fn meets(a: Seq<nat>, b: Seq<nat>) -> bool {
    forall|i: int| 0 <= i < 4 ==> a[i] == b[i] || a[i] == 1 || b[i] == 1
}

/// The axes of two meeting shapes, each the larger of the two.
pub open spec fn broadcast_dims(a: Seq<nat>, b: Seq<nat>) -> Seq<nat> {
    Seq::new(4, |i: int| if a[i] >= b[i] { a[i] } else { b[i] })
}

/// `a` spreads over `b` when each axis of `a` equals that of `b` or is one.
pub open spec fn spreads_over(a: Seq<nat>, b: Seq<nat>) -> bool {
    forall|i: int| 0 <= i < 4 ==> a[i] == b[i] || a[i] == 1
}

proof fn lemma_product_of(a: nat, b: nat, c: nat, d: nat)
    ensures
        product(seq![a, b, c, d]) == a * b * c * d,
{
    let s = seq![a, b, c, d];
    assert(s[0] == a && s[1] == b && s[2] == c && s[3] == d);
}

proof fn lemma_valid_of(a: nat, b: nat, c: nat, d: nat)
    requires
        a > 0,
        b > 0,
        c > 0,
        d > 0,
        a * b * c * d <= ELEMENT_LIMIT,
    ensures
        valid_dims(seq![a, b, c, d]),
        product(seq![a, b, c, d]) == a * b * c * d,
{
    lemma_product_of(a, b, c, d);
    let s = seq![a, b, c, d];
    assert(s[0] == a && s[1] == b && s[2] == c && s[3] == d);
}

proof fn lemma_partial_products(a: nat, b: nat, c: nat, d: nat)
    requires
        a > 0,
        b > 0,
        c > 0,
        d > 0,
    ensures
        d <= c * d,
        c * d <= b * c * d,
        b * c * d <= a * b * c * d,
        a * b * c * d == d * c * b * a,
        a * b * c * d == (a * b) * (c * d),
        a * b <= a * b * c * d,
{
    assert(c * d > 0 && b * c * d > 0 && a * b > 0) by (nonlinear_arith)
        requires
            a > 0,
            b > 0,
            c > 0,
            d > 0,
    ;
    assert(d <= c * d) by (nonlinear_arith)
        requires
            c > 0,
            d > 0,
    ;
    assert(c * d <= b * (c * d)) by (nonlinear_arith)
        requires
            b > 0,
            c * d > 0,
    ;
    assert(b * c * d <= a * (b * c * d)) by (nonlinear_arith)
        requires
            a > 0,
            b * c * d > 0,
    ;
    assert(a * b * c * d == d * c * b * a) by (nonlinear_arith);
    assert(a * b * c * d == (a * b) * (c * d)) by (nonlinear_arith);
    assert(a * b <= (a * b) * (c * d)) by (nonlinear_arith)
        requires
            a * b > 0,
            c * d > 0,
    ;
    assert(b * (c * d) == b * c * d) by (nonlinear_arith);
    assert(a * (b * c * d) == a * b * c * d) by (nonlinear_arith);
}

/// The dimensions of a tensor, padded in front to four axes, and the count of
/// numbers it holds.
#[derive(Clone, Copy, PartialEq, Eq, Debug, Hash, Structural)]
pub struct Shape {
    d0: u32,
    d1: u32,
    d2: u32,
    d3: u32,
    elements: u32,
}

impl View for Shape {
    type V = Seq<nat>;

    closed spec fn view(&self) -> Seq<nat> {
        seq![self.d0 as nat, self.d1 as nat, self.d2 as nat, self.d3 as nat]
    }
}

impl Shape {
    /// The count of numbers the shape holds.
    pub closed spec fn count(self) -> nat {
        self.elements as nat
    }

    /// Every shape holds four positive axes whose product it counts.
    pub open spec fn valid(self) -> bool {
        valid_dims(self@) && self.count() == product(self@)
    }

    #[verifier::type_invariant]
    pub open spec fn inv(self) -> bool {
        self.valid()
    }

    fn from_dims(d0: u32, d1: u32, d2: u32, d3: u32) -> (r: Shape)
        requires
            valid_dims(seq![d0 as nat, d1 as nat, d2 as nat, d3 as nat]),
        ensures
            r@ == seq![d0 as nat, d1 as nat, d2 as nat, d3 as nat],
            r.valid(),
    {
        proof {
            lemma_partial_products(d0 as nat, d1 as nat, d2 as nat, d3 as nat);
        }
        proof {
            assert(d1 as nat * (d2 as nat * d3 as nat) == d1 as nat * d2 as nat * d3 as nat)
                by (nonlinear_arith);
            assert(d0 as nat * (d1 as nat * d2 as nat * d3 as nat) == d0 as nat * d1 as nat
                * d2 as nat * d3 as nat) by (nonlinear_arith);
        }
        let low = (d2 as u64) * (d3 as u64);
        let mid = (d1 as u64) * low;
        let all = (d0 as u64) * mid;
        Shape { d0, d1, d2, d3, elements: all as u32 }
    }

    /// The shape of a single number.
    pub fn scalar() -> (r: Shape)
        ensures
            r@ == seq![1nat, 1, 1, 1],
            r.valid(),
    {
        Shape::from_dims(1, 1, 1, 1)
    }

    /// A row of `elements` numbers.
    pub fn vector(elements: u32) -> (r: Shape)
        requires
            0 < elements <= ELEMENT_LIMIT,
        ensures
            r@ == seq![1nat, 1, 1, elements as nat],
            r.valid(),
    {
        proof {
            assert(1 * 1 * 1 * (elements as nat) == elements as nat) by (nonlinear_arith);
            lemma_valid_of(1, 1, 1, elements as nat);
        }
        Shape::from_dims(1, 1, 1, elements)
    }

    /// A matrix of `rows` by `columns`.
    pub fn matrix(rows: u32, columns: u32) -> (r: Shape)
        requires
            rows > 0,
            columns > 0,
            rows * columns <= ELEMENT_LIMIT,
        ensures
            r@ == seq![1nat, 1, rows as nat, columns as nat],
            r.valid(),
    {
        proof {
            assert(1 * 1 * (rows as nat) * (columns as nat) == rows * columns) by (nonlinear_arith);
            lemma_valid_of(1, 1, rows as nat, columns as nat);
        }
        Shape::from_dims(1, 1, rows, columns)
    }

    /// Whether `dims` declares a shape: one to four positive axes whose product a
    /// device addresses.
    pub open spec fn declares(dims: Seq<u32>) -> bool {
        &&& 1 <= dims.len() <= 4
        &&& forall|i: int| 0 <= i < dims.len() ==> dims[i] > 0
        &&& product(padded(dims)) <= ELEMENT_LIMIT
    }

    /// The shape of one to four axes, padded in front with axes of one.
    pub fn of(dims: &[u32]) -> (r: Shape)
        requires
            Shape::declares(dims@),
        ensures
            r@ == padded(dims@),
            r.valid(),
    {
        let n = dims.len();
        let d0 = if n >= 4 { dims[n - 4] } else { 1 };
        let d1 = if n >= 3 { dims[n - 3] } else { 1 };
        let d2 = if n >= 2 { dims[n - 2] } else { 1 };
        let d3 = dims[n - 1];
        let ghost p = padded(dims@);
        assert(p[0] == d0 && p[1] == d1 && p[2] == d2 && p[3] == d3);
        assert(seq![d0 as nat, d1 as nat, d2 as nat, d3 as nat] =~= p);
        Shape::from_dims(d0, d1, d2, d3)
    }

    /// The shape `of` would build, or nothing where `dims` declares no shape.
    pub fn try_of(dims: &[u32]) -> (r: Option<Shape>)
        ensures
            r is Some <==> Shape::declares(dims@),
            r matches Some(s) ==> s@ == padded(dims@) && s.valid(),
    {
        let n = dims.len();
        if n == 0 || n > 4 {
            return None;
        }
        let mut i: usize = 0;
        while i < n
            invariant
                i <= n,
                n == dims@.len(),
                forall|j: int| 0 <= j < i ==> dims@[j] > 0,
            decreases n - i,
        {
            if dims[i] == 0 {
                return None;
            }
            i += 1;
        }
        let d0 = if n >= 4 { dims[n - 4] } else { 1 };
        let d1 = if n >= 3 { dims[n - 3] } else { 1 };
        let d2 = if n >= 2 { dims[n - 2] } else { 1 };
        let d3 = dims[n - 1];
        let ghost p = padded(dims@);
        assert(p[0] == d0 && p[1] == d1 && p[2] == d2 && p[3] == d3);
        proof {
            assert((d3 as nat) * (d2 as nat) <= 0xffff_ffff_ffff_ffff) by (nonlinear_arith)
                requires
                    d3 < 0x1_0000_0000,
                    d2 < 0x1_0000_0000,
            ;
        }
        let low = (d3 as u64) * (d2 as u64);
        if low > ELEMENT_LIMIT {
            proof {
                lemma_partial_products(p[0], p[1], p[2], p[3]);
            }
            return None;
        }
        proof {
            assert((low as nat) * (d1 as nat) <= 0xffff_ffff_ffff_ffff) by (nonlinear_arith)
                requires
                    low <= 2147483647,
                    d1 < 0x1_0000_0000,
            ;
        }
        let mid = low * (d1 as u64);
        if mid > ELEMENT_LIMIT {
            proof {
                lemma_partial_products(p[0], p[1], p[2], p[3]);
                assert(mid == p[1] * (p[2] * p[3])) by (nonlinear_arith)
                    requires
                        mid == (p[3] * p[2]) * p[1],
                ;
                assert(p[1] * (p[2] * p[3]) == p[1] * p[2] * p[3]) by (nonlinear_arith);
            }
            return None;
        }
        proof {
            assert((mid as nat) * (d0 as nat) <= 0xffff_ffff_ffff_ffff) by (nonlinear_arith)
                requires
                    mid <= 2147483647,
                    d0 < 0x1_0000_0000,
            ;
        }
        let all = mid * (d0 as u64);
        proof {
            assert(all == p[0] * p[1] * p[2] * p[3]) by (nonlinear_arith)
                requires
                    all == p[3] * p[2] * p[1] * p[0],
            ;
        }
        if all > ELEMENT_LIMIT {
            return None;
        }
        Some(Shape::of(dims))
    }

    pub fn dims(self) -> (r: [u32; 4])
        ensures
            r@.len() == 4,
            forall|i: int| 0 <= i < 4 ==> r@[i] as nat == self@[i],
            valid_dims(self@),
    {
        proof {
            use_type_invariant(&self);
        }
        [self.d0, self.d1, self.d2, self.d3]
    }

    pub fn elements(self) -> (r: u32)
        ensures
            r == product(self@),
            valid_dims(self@),
    {
        proof {
            use_type_invariant(&self);
        }
        self.elements
    }

    /// The strides of a tensor of this shape stored row by row.
    pub fn strides(self) -> (r: [u32; 4])
        ensures
            r@.len() == 4,
            forall|i: int| 0 <= i < 4 ==> r@[i] as nat == contiguous_stride(self@, i),
    {
        proof {
            use_type_invariant(&self);
            lemma_partial_products(self.d0 as nat, self.d1 as nat, self.d2 as nat, self.d3 as nat);
            let d = self@;
            assert(d[1] * (d[2] * d[3]) == d[1] * d[2] * d[3]) by (nonlinear_arith);
        }
        let s2 = self.d3;
        let s1 = self.d2 * self.d3;
        let s0 = self.d1 * s1;
        [
            if self.d0 == 1 { 0 } else { s0 },
            if self.d1 == 1 { 0 } else { s1 },
            if self.d2 == 1 { 0 } else { s2 },
            if self.d3 == 1 { 0 } else { 1 },
        ]
    }

    /// Whether two shapes meet element by element.
    pub fn combines_with(self, other: Shape) -> (r: bool)
        ensures
            r == meets(self@, other@),
    {
        (self.d0 == other.d0 || self.d0 == 1 || other.d0 == 1) && (self.d1 == other.d1 || self.d1
            == 1 || other.d1 == 1) && (self.d2 == other.d2 || self.d2 == 1 || other.d2 == 1) && (
        self.d3 == other.d3 || self.d3 == 1 || other.d3 == 1)
    }

    /// The shape two meeting shapes combine into, each axis the larger of the two.
    pub fn combined(self, other: Shape) -> (r: Shape)
        requires
            meets(self@, other@),
            product(broadcast_dims(self@, other@)) <= ELEMENT_LIMIT,
        ensures
            r@ == broadcast_dims(self@, other@),
            r.valid(),
    {
        proof {
            use_type_invariant(&self);
            use_type_invariant(&other);
        }
        let d0 = if self.d0 >= other.d0 { self.d0 } else { other.d0 };
        let d1 = if self.d1 >= other.d1 { self.d1 } else { other.d1 };
        let d2 = if self.d2 >= other.d2 { self.d2 } else { other.d2 };
        let d3 = if self.d3 >= other.d3 { self.d3 } else { other.d3 };
        assert(seq![d0 as nat, d1 as nat, d2 as nat, d3 as nat] =~= broadcast_dims(self@, other@));
        Shape::from_dims(d0, d1, d2, d3)
    }

    /// Whether this shape spreads over `other` axis by axis.
    pub fn fits_within(self, other: Shape) -> (r: bool)
        ensures
            r == spreads_over(self@, other@),
    {
        (self.d0 == other.d0 || self.d0 == 1) && (self.d1 == other.d1 || self.d1 == 1) && (self.d2
            == other.d2 || self.d2 == 1) && (self.d3 == other.d3 || self.d3 == 1)
    }

    /// The two leading axes.
    pub fn batch(self) -> (r: [u32; 2])
        ensures
            r@.len() == 2,
            r@[0] as nat == self@[0],
            r@[1] as nat == self@[1],
    {
        [self.d0, self.d1]
    }

    /// The shape with one axis folded to one.
    pub fn reduced(self, axis: u32) -> (r: Shape)
        requires
            axis < 4,
        ensures
            r@ == self@.update(axis as int, 1nat),
            r.valid(),
    {
        proof {
            use_type_invariant(&self);
            let d = self@;
            lemma_reduced_product(d, axis as int);
        }
        let r = if axis == 0 {
            Shape::from_dims(1, self.d1, self.d2, self.d3)
        } else if axis == 1 {
            Shape::from_dims(self.d0, 1, self.d2, self.d3)
        } else if axis == 2 {
            Shape::from_dims(self.d0, self.d1, 1, self.d3)
        } else {
            Shape::from_dims(self.d0, self.d1, self.d2, 1)
        };
        assert(r@ =~= self@.update(axis as int, 1nat));
        r
    }

    /// The rows of a tensor: every axis but the last.
    pub fn rows(self) -> (r: u32)
        ensures
            r == self@[0] * self@[1] * self@[2],
    {
        proof {
            use_type_invariant(&self);
            let d = self@;
            assert(product(d) / d[3] == d[0] * d[1] * d[2]) by (nonlinear_arith)
                requires
                    d[3] > 0,
            ;
        }
        self.elements / self.d3
    }

    /// The numbers of a row: the last axis.
    pub fn columns(self) -> (r: u32)
        ensures
            r == self@[3],
    {
        self.d3
    }

    pub fn is_scalar(self) -> (r: bool)
        ensures
            r == (product(self@) == 1),
            r == (self@ == seq![1nat, 1, 1, 1]),
    {
        proof {
            use_type_invariant(&self);
            lemma_unit_product(self@);
        }
        self.elements == 1
    }
}

/// Four positive dimensions hold one number exactly when each is one.
pub proof fn lemma_unit_product(d: Seq<nat>)
    requires
        d.len() == 4,
        forall|i: int| 0 <= i < 4 ==> d[i] > 0,
    ensures
        product(d) == 1 <==> d == seq![1nat, 1, 1, 1],
{
    let (a, b, c, e) = (d[0], d[1], d[2], d[3]);
    assert(a > 0 && b > 0 && c > 0 && e > 0);
    if product(d) == 1 {
        assert(a == 1 && b == 1 && c == 1 && e == 1) by (nonlinear_arith)
            requires
                a > 0, b > 0, c > 0, e > 0,
                a * b * c * e == 1,
        ;
        assert(d =~= seq![1nat, 1, 1, 1]);
    }
    if d == seq![1nat, 1, 1, 1] {
        assert(a == 1 && b == 1 && c == 1 && e == 1);
        assert(a * b * c * e == 1) by (nonlinear_arith)
            requires
                a == 1, b == 1, c == 1, e == 1,
        ;
    }
}

proof fn lemma_reduced_product(d: Seq<nat>, axis: int)
    requires
        valid_dims(d),
        0 <= axis < 4,
    ensures
        valid_dims(d.update(axis, 1nat)),
        product(d.update(axis, 1nat)) * d[axis] == product(d),
{
    let e = d.update(axis, 1nat);
    let (a, b, c, f) = (d[0], d[1], d[2], d[3]);
    if axis == 0 {
        assert(product(e) == b * c * f) by (nonlinear_arith)
            requires
                e[0] == 1, e[1] == b, e[2] == c, e[3] == f,
        ;
        assert(b * c * f * a == a * b * c * f) by (nonlinear_arith);
    } else if axis == 1 {
        assert(product(e) == a * c * f) by (nonlinear_arith)
            requires
                e[0] == a, e[1] == 1, e[2] == c, e[3] == f,
        ;
        assert(a * c * f * b == a * b * c * f) by (nonlinear_arith);
    } else if axis == 2 {
        assert(product(e) == a * b * f) by (nonlinear_arith)
            requires
                e[0] == a, e[1] == b, e[2] == 1, e[3] == f,
        ;
        assert(a * b * f * c == a * b * c * f) by (nonlinear_arith);
    } else {
        assert(product(e) == a * b * c) by (nonlinear_arith)
            requires
                e[0] == a, e[1] == b, e[2] == c, e[3] == 1,
        ;
    }
    assert(product(e) <= product(d)) by (nonlinear_arith)
        requires
            product(e) * d[axis] == product(d),
            d[axis] > 0,
    ;
}

/// Meeting is symmetric, combining does not depend on the order of the shapes, a
/// shape combines with itself into itself, and each operand spreads over the
/// shape the two combine into.
pub proof fn lemma_combining_is_symmetric(a: Shape, b: Shape)
    requires
        a.valid(),
        b.valid(),
    ensures
        meets(a@, b@) == meets(b@, a@),
        broadcast_dims(a@, b@) == broadcast_dims(b@, a@),
        broadcast_dims(a@, a@) == a@,
        meets(a@, b@) ==> spreads_over(a@, broadcast_dims(a@, b@)) && spreads_over(
            b@,
            broadcast_dims(a@, b@),
        ),
{
    assert(broadcast_dims(a@, b@) =~= broadcast_dims(b@, a@));
    assert(broadcast_dims(a@, a@) =~= a@);
}

/// Folding an axis divides the count of numbers by that axis.
pub proof fn lemma_fold_divides_count(s: Shape, axis: int)
    requires
        s.valid(),
        0 <= axis < 4,
    ensures
        product(s@.update(axis, 1nat)) * s@[axis] == product(s@),
{
    lemma_reduced_product(s@, axis);
}

/// A tensor stored row by row holds its rows one after another: the rows times
/// the numbers of a row count every number, and each axis longer than one steps
/// over everything after it.
pub proof fn lemma_rows_cover_the_tensor(s: Shape, axis: int)
    requires
        s.valid(),
        0 <= axis < 4,
    ensures
        s@[0] * s@[1] * s@[2] * s@[3] == product(s@),
        s@[axis] > 1 ==> contiguous_stride(s@, axis) * s@[axis] == suffix_product(s@, axis),
        suffix_product(s@, 0) == product(s@),
{
    let d = s@;
    assert(d[0] * d[1] * d[2] * d[3] == d[3] * (d[2] * (d[1] * d[0]))) by (nonlinear_arith);
    assert(d[1] * d[2] * d[3] == d[3] * (d[2] * d[1])) by (nonlinear_arith);
    assert(d[2] * d[3] == d[3] * d[2]) by (nonlinear_arith);
    if d[axis] > 1 {
        if axis == 0 {
            assert(d[1] * d[2] * d[3] * d[0] == d[0] * d[1] * d[2] * d[3]) by (nonlinear_arith);
            assert(contiguous_stride(d, 0) == d[1] * d[2] * d[3]);
        } else if axis == 1 {
            assert(d[2] * d[3] * d[1] == d[1] * d[2] * d[3]) by (nonlinear_arith);
            assert(contiguous_stride(d, 1) == d[2] * d[3]);
        } else if axis == 2 {
            assert(d[3] * d[2] == d[2] * d[3]) by (nonlinear_arith);
            assert(contiguous_stride(d, 2) == d[3]);
        } else {
            assert(contiguous_stride(d, 3) == 1);
        }
    }
}

/// Two shapes with the same dimensions are the same shape.
pub proof fn lemma_shape_determined(a: Shape, b: Shape)
    requires
        a.valid(),
        b.valid(),
        a@ == b@,
    ensures
        a == b,
{
    assert(a@[0] == b@[0] && a@[1] == b@[1] && a@[2] == b@[2] && a@[3] == b@[3]);
}

} // verus!
