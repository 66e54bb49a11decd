//! Exact 4×4 Lorentz transforms over the ring of integers extended by √3.
//!
//! Every element of the tiling's symmetry group maps to a product of the two
//! generator matrices, and both generators have entries of the form
//! `a + b·√3` with integer `a` and `b` (the translation is the boost with
//! cosh = 2 and sinh = √3).  Products stay inside that ring, so the matrix
//! side of the group can be carried exactly, with no floating-point drift.
//! Entries are kept inside [`ENTRY_BOUND`] so that a full product never
//! overflows `i64`; a product that would leave the range is reported as
//! `None` rather than silently wrapped.

use vstd::prelude::*;

verus! {

/// Largest magnitude an entry component may take.  With all sixteen input
/// components inside this bound, every component of a matrix product is at
/// most `16 · ENTRY_BOUND²`, which still fits in `i64`.
pub const ENTRY_BOUND: i64 = 500_000_000;

/// A number of the form `a + b·√3` with exact integer coefficients.
#[derive(Clone, Copy, Debug, PartialEq, Eq, Structural)]
pub struct Sq3 {
    /// Rational part.
    pub a: i64,
    /// Coefficient of √3.
    pub b: i64,
}

/// A 4×4 matrix over [`Sq3`], row-major: entry `(r, c)` is `m[4*r + c]`.
#[derive(Clone, Copy, Debug)]
pub struct Mat4 {
    pub m: [Sq3; 16],
}

impl View for Mat4 {
    type V = Seq<(int, int)>;

    open spec fn view(&self) -> Seq<(int, int)> {
        self.m@.map(|i: int, e: Sq3| (e.a as int, e.b as int))
    }
}

/// Addition in the ring: componentwise.
pub open spec fn gadd(x: (int, int), y: (int, int)) -> (int, int) {
    (x.0 + y.0, x.1 + y.1)
}

/// Multiplication in the ring: `(a + b√3)(c + d√3) == (ac + 3bd) + (ad + bc)√3`.
pub open spec fn gmul(x: (int, int), y: (int, int)) -> (int, int) {
    (x.0 * y.0 + 3 * (x.1 * y.1), x.0 * y.1 + x.1 * y.0)
}

pub open spec fn gneg(x: (int, int)) -> (int, int) {
    (-x.0, -x.1)
}

/// Entry `(r, c)` of a matrix product: the four-term inner product of row
/// `r` of `a` with column `c` of `b`.
#[verifier::opaque]
pub open spec fn product_entry(a: Seq<(int, int)>, b: Seq<(int, int)>, r: int, c: int) -> (
    int,
    int,
) {
    gadd(
        gadd(gmul(a[4 * r], b[c]), gmul(a[4 * r + 1], b[4 + c])),
        gadd(gmul(a[4 * r + 2], b[8 + c]), gmul(a[4 * r + 3], b[12 + c])),
    )
}

/// The exact matrix product.
pub open spec fn mat_product(a: Seq<(int, int)>, b: Seq<(int, int)>) -> Seq<(int, int)> {
    Seq::new(16, |i: int| product_entry(a, b, i / 4, i % 4))
}

pub open spec fn entry_bounded(x: (int, int)) -> bool {
    &&& -ENTRY_BOUND <= x.0 <= ENTRY_BOUND
    &&& -ENTRY_BOUND <= x.1 <= ENTRY_BOUND
}

/// All sixteen entries are inside the representable range.
pub open spec fn mat_bounded(m: Seq<(int, int)>) -> bool {
    &&& m.len() == 16
    &&& forall|i: int| 0 <= i < 16 ==> entry_bounded(#[trigger] m[i])
}

/// The identity matrix.
pub open spec fn mat_identity_spec() -> Seq<(int, int)> {
    Seq::new(
        16,
        |i: int|
            if i == 0 || i == 5 || i == 10 || i == 15 {
                (1, 0)
            } else {
                (0, 0)
            },
    )
}

/// The rotation generator: a quarter turn in the x–y plane.
pub open spec fn mat_rotation_spec() -> Seq<(int, int)> {
    Seq::new(
        16,
        |i: int|
            if i == 1 || i == 10 || i == 15 {
                (1, 0)
            } else if i == 4 {
                (-1, 0)
            } else {
                (0, 0)
            },
    )
}

/// The translation generator: the Lorentz boost in the y–w plane with
/// cosh = 2 and sinh = √3.
pub open spec fn mat_translation_spec() -> Seq<(int, int)> {
    Seq::new(
        16,
        |i: int|
            if i == 0 || i == 10 {
                (1, 0)
            } else if i == 5 || i == 15 {
                (2, 0)
            } else if i == 7 || i == 13 {
                (0, 1)
            } else {
                (0, 0)
            },
    )
}

/// The signed transpose `G·Mᵀ·G` with `G = diag(-1, -1, 1, 1)`: for a
/// transform that preserves the Lorentzian form `w² − x² − y²` and fixes the
/// z axis, this is the inverse matrix.
pub open spec fn mat_lorentz_inverse_spec(m: Seq<(int, int)>) -> Seq<(int, int)> {
    Seq::new(
        16,
        |i: int|
            {
                let r = i / 4;
                let c = i % 4;
                if (r < 2) != (c < 2) {
                    gneg(m[4 * c + r])
                } else {
                    m[4 * c + r]
                }
            },
    )
}

/// Columns of `m` permuted and negated the way one right-multiplication by
/// the rotation generator permutes them.
pub open spec fn rotated_columns(m: Seq<(int, int)>) -> Seq<(int, int)> {
    Seq::new(
        16,
        |i: int|
            {
                let r = i / 4;
                let c = i % 4;
                if c == 0 {
                    gneg(m[4 * r + 1])
                } else if c == 1 {
                    m[4 * r]
                } else {
                    m[i]
                }
            },
    )
}

/// The product of two components inside the entry range stays within the
/// partial-sum budget of a matrix entry.
pub proof fn lemma_component_product_bound(x: int, y: int)
    requires
        -500_000_000 <= x <= 500_000_000,
        -500_000_000 <= y <= 500_000_000,
    ensures
        -250_000_000_000_000_000 <= x * y <= 250_000_000_000_000_000,
{
    assert(-250_000_000_000_000_000 <= x * y <= 250_000_000_000_000_000) by (nonlinear_arith)
        requires
            -500_000_000 <= x <= 500_000_000,
            -500_000_000 <= y <= 500_000_000,
    ;
}

/// Entry `(r, c)` of a product with the rotation generator.
proof fn lemma_rotation_entry(m: Seq<(int, int)>, r: int, c: int)
    requires
        m.len() == 16,
        0 <= r < 4,
        0 <= c < 4,
    ensures
        product_entry(m, mat_rotation_spec(), r, c) == if c == 0 {
            gneg(m[4 * r + 1])
        } else if c == 1 {
            m[4 * r]
        } else {
            m[4 * r + c]
        },
{
    reveal(product_entry);
    let rs = mat_rotation_spec();
    let y0 = rs[c];
    let y1 = rs[4 + c];
    let y2 = rs[8 + c];
    let y3 = rs[12 + c];
    assert(y0 == if c == 1 { (1int, 0int) } else { (0int, 0int) }) by {
        assert(rs[c] == if c == 1 { (1int, 0int) } else { (0int, 0int) });
    }
    assert(y1 == if c == 0 { (-1int, 0int) } else { (0int, 0int) }) by {
        assert(rs[4 + c] == if c == 0 { (-1int, 0int) } else { (0int, 0int) });
    }
    assert(y2 == if c == 2 { (1int, 0int) } else { (0int, 0int) }) by {
        assert(rs[8 + c] == if c == 2 { (1int, 0int) } else { (0int, 0int) });
    }
    assert(y3 == if c == 3 { (1int, 0int) } else { (0int, 0int) }) by {
        assert(rs[12 + c] == if c == 3 { (1int, 0int) } else { (0int, 0int) });
    }
    let e0 = m[4 * r];
    let e1 = m[4 * r + 1];
    let e2 = m[4 * r + 2];
    let e3 = m[4 * r + 3];
    assert(product_entry(m, rs, r, c) == gadd(
        gadd(gmul(e0, y0), gmul(e1, y1)),
        gadd(gmul(e2, y2), gmul(e3, y3)),
    ));
    if c == 0 {
        assert(gadd(gadd(gmul(e0, y0), gmul(e1, y1)), gadd(gmul(e2, y2), gmul(e3, y3)))
            == gneg(e1));
    } else if c == 1 {
        assert(gmul(e0, y0) == (e0.0, e0.1));
        assert(gadd(gadd(gmul(e0, y0), gmul(e1, y1)), gadd(gmul(e2, y2), gmul(e3, y3))) == e0);
    } else if c == 2 {
        assert(gmul(e2, y2) == (e2.0, e2.1));
        assert(gadd(gadd(gmul(e0, y0), gmul(e1, y1)), gadd(gmul(e2, y2), gmul(e3, y3))) == e2);
    } else {
        assert(gmul(e3, y3) == (e3.0, e3.1));
        assert(gadd(gadd(gmul(e0, y0), gmul(e1, y1)), gadd(gmul(e2, y2), gmul(e3, y3))) == e3);
    }
}

/// Right-multiplying by the rotation generator only permutes and negates
/// columns.
pub proof fn lemma_product_rotation(m: Seq<(int, int)>)
    requires
        m.len() == 16,
    ensures
        mat_product(m, mat_rotation_spec()) == rotated_columns(m),
{
    let p = mat_product(m, mat_rotation_spec());
    assert forall|i: int| 0 <= i < 16 implies p[i] == rotated_columns(m)[i] by {
        let r = i / 4;
        let c = i % 4;
        lemma_rotation_entry(m, r, c);
        assert(i == 4 * r + c);
        assert(p[i] == product_entry(m, mat_rotation_spec(), r, c));
    }
    assert(p =~= rotated_columns(m));
}

/// Rotation keeps every entry inside the representable range.
pub proof fn lemma_rotation_keeps_bounds(m: Seq<(int, int)>)
    requires
        mat_bounded(m),
    ensures
        mat_bounded(mat_product(m, mat_rotation_spec())),
{
    lemma_product_rotation(m);
    assert forall|i: int| 0 <= i < 16 implies entry_bounded(#[trigger] rotated_columns(m)[i]) by {
        let r = i / 4;
        let c = i % 4;
        assert(entry_bounded(m[4 * r + 1]));
        assert(entry_bounded(m[4 * r]));
        assert(entry_bounded(m[i]));
    }
}

/// Four right-multiplications by the rotation generator restore the matrix.
#[verifier::rlimit(60)]
pub proof fn lemma_rotation_four(m: Seq<(int, int)>)
    requires
        m.len() == 16,
    ensures
        mat_product(
            mat_product(mat_product(mat_product(m, mat_rotation_spec()), mat_rotation_spec()),
            mat_rotation_spec()),
            mat_rotation_spec(),
        ) == m,
{
    let m1 = mat_product(m, mat_rotation_spec());
    let m2 = mat_product(m1, mat_rotation_spec());
    let m3 = mat_product(m2, mat_rotation_spec());
    let m4 = mat_product(m3, mat_rotation_spec());
    lemma_product_rotation(m);
    lemma_product_rotation(m1);
    lemma_product_rotation(m2);
    lemma_product_rotation(m3);
    assert forall|i: int| 0 <= i < 16 implies m4[i] == m[i] by {
        let r = i / 4;
        let c = i % 4;
        assert(m4[i] == rotated_columns(m3)[i]);
    }
    assert(m4 =~= m);
}

impl Mat4 {
    /// Every entry is inside the representable range.
    pub open spec fn wf(self) -> bool {
        mat_bounded(self@)
    }

    /// The identity matrix.
    pub fn identity() -> (r: Mat4)
        ensures
            r@ == mat_identity_spec(),
            r.wf(),
    {
        let z = Sq3 { a: 0, b: 0 };
        let one = Sq3 { a: 1, b: 0 };
        let out = Mat4 {
            m: [one, z, z, z, z, one, z, z, z, z, one, z, z, z, z, one],
        };
        proof {
            assert(out@ =~= mat_identity_spec());
        }
        out
    }

    /// The rotation generator matrix.
    pub fn rotation() -> (r: Mat4)
        ensures
            r@ == mat_rotation_spec(),
            r.wf(),
    {
        let z = Sq3 { a: 0, b: 0 };
        let one = Sq3 { a: 1, b: 0 };
        let neg = Sq3 { a: -1, b: 0 };
        let out = Mat4 {
            m: [z, one, z, z, neg, z, z, z, z, z, one, z, z, z, z, one],
        };
        proof {
            assert(out@ =~= mat_rotation_spec());
        }
        out
    }

    /// The translation generator matrix.
    pub fn translation() -> (r: Mat4)
        ensures
            r@ == mat_translation_spec(),
            r.wf(),
    {
        let z = Sq3 { a: 0, b: 0 };
        let one = Sq3 { a: 1, b: 0 };
        let two = Sq3 { a: 2, b: 0 };
        let rt = Sq3 { a: 0, b: 1 };
        let out = Mat4 {
            m: [one, z, z, z, z, two, z, rt, z, z, one, z, z, rt, z, two],
        };
        proof {
            assert(out@ =~= mat_translation_spec());
        }
        out
    }

    /// The exact matrix product, or `None` when some entry of the true
    /// product falls outside the representable range.
    pub fn multiply(&self, other: &Mat4) -> (r: Option<Mat4>)
        requires
            self.wf(),
            other.wf(),
        ensures
            r is Some <==> mat_bounded(mat_product(self@, other@)),
            r matches Some(p) ==> p@ == mat_product(self@, other@) && p.wf(),
    {
        let mut out: [Sq3; 16] = [Sq3 { a: 0, b: 0 }; 16];
        for i in 0..16
            invariant
                self.wf(),
                other.wf(),
                out@.len() == 16,
                forall|j: int|
                    0 <= j < i ==> (#[trigger] out@[j].a as int, out@[j].b as int) == product_entry(
                        self@,
                        other@,
                        j / 4,
                        j % 4,
                    ),
                forall|j: int|
                    0 <= j < i ==> entry_bounded(
                        (#[trigger] out@[j].a as int, out@[j].b as int),
                    ),
        {
            let row = i / 4;
            let col = i % 4;
            let x0 = self.m[4 * row];
            let x1 = self.m[4 * row + 1];
            let x2 = self.m[4 * row + 2];
            let x3 = self.m[4 * row + 3];
            let y0 = other.m[col];
            let y1 = other.m[4 + col];
            let y2 = other.m[8 + col];
            let y3 = other.m[12 + col];
            proof {
                assert(entry_bounded(self@[4 * row as int]));
                assert(entry_bounded(self@[4 * row as int + 1]));
                assert(entry_bounded(self@[4 * row as int + 2]));
                assert(entry_bounded(self@[4 * row as int + 3]));
                assert(entry_bounded(other@[col as int]));
                assert(entry_bounded(other@[4 + col as int]));
                assert(entry_bounded(other@[8 + col as int]));
                assert(entry_bounded(other@[12 + col as int]));
                lemma_component_product_bound(x0.a as int, y0.a as int);
                lemma_component_product_bound(x0.b as int, y0.b as int);
                lemma_component_product_bound(x1.a as int, y1.a as int);
                lemma_component_product_bound(x1.b as int, y1.b as int);
                lemma_component_product_bound(x2.a as int, y2.a as int);
                lemma_component_product_bound(x2.b as int, y2.b as int);
                lemma_component_product_bound(x3.a as int, y3.a as int);
                lemma_component_product_bound(x3.b as int, y3.b as int);
                lemma_component_product_bound(x0.a as int, y0.b as int);
                lemma_component_product_bound(x0.b as int, y0.a as int);
                lemma_component_product_bound(x1.a as int, y1.b as int);
                lemma_component_product_bound(x1.b as int, y1.a as int);
                lemma_component_product_bound(x2.a as int, y2.b as int);
                lemma_component_product_bound(x2.b as int, y2.a as int);
                lemma_component_product_bound(x3.a as int, y3.b as int);
                lemma_component_product_bound(x3.b as int, y3.a as int);
            }
            let pa = x0.a * y0.a + 3 * (x0.b * y0.b) + (x1.a * y1.a + 3 * (x1.b * y1.b)) + (x2.a
                * y2.a + 3 * (x2.b * y2.b)) + (x3.a * y3.a + 3 * (x3.b * y3.b));
            let pb = x0.a * y0.b + x0.b * y0.a + (x1.a * y1.b + x1.b * y1.a) + (x2.a * y2.b + x2.b
                * y2.a) + (x3.a * y3.b + x3.b * y3.a);
            proof {
                reveal(product_entry);
                assert(product_entry(self@, other@, i as int / 4, i as int % 4) == (
                    pa as int,
                    pb as int,
                ));
            }
            if pa > ENTRY_BOUND || pa < -ENTRY_BOUND || pb > ENTRY_BOUND || pb < -ENTRY_BOUND {
                proof {
                    assert(mat_product(self@, other@)[i as int] == (pa as int, pb as int));
                    assert(!entry_bounded(mat_product(self@, other@)[i as int]));
                }
                return None;
            }
            out[i] = Sq3 { a: pa, b: pb };
        }
        let result = Mat4 { m: out };
        proof {
            assert forall|i: int| 0 <= i < 16 implies result@[i] == mat_product(self@, other@)[i]
                by {
                assert((out@[i].a as int, out@[i].b as int) == product_entry(
                    self@,
                    other@,
                    i / 4,
                    i % 4,
                ));
            }
            assert(result@ =~= mat_product(self@, other@));
        }
        Some(result)
    }

    /// The signed transpose `G·Mᵀ·G`, `G = diag(-1, -1, 1, 1)`.  For a
    /// member of the tiling group — a transform preserving the form
    /// `w² − x² − y²` and fixing z — this is the exact inverse transform.
    pub fn lorentz_inverse(&self) -> (r: Mat4)
        requires
            self.wf(),
        ensures
            r@ == mat_lorentz_inverse_spec(self@),
            r.wf(),
    {
        let mut out: [Sq3; 16] = [Sq3 { a: 0, b: 0 }; 16];
        for i in 0..16
            invariant
                self.wf(),
                out@.len() == 16,
                forall|j: int|
                    0 <= j < i ==> (#[trigger] out@[j].a as int, out@[j].b as int)
                        == mat_lorentz_inverse_spec(self@)[j],
        {
            let row = i / 4;
            let col = i % 4;
            let e = self.m[4 * col + row];
            proof {
                assert(entry_bounded(self@[4 * col as int + row as int]));
            }
            let flipped = (row < 2) != (col < 2);
            if flipped {
                out[i] = Sq3 { a: -e.a, b: -e.b };
            } else {
                out[i] = e;
            }
        }
        let result = Mat4 { m: out };
        proof {
            assert forall|i: int| 0 <= i < 16 implies result@[i] == mat_lorentz_inverse_spec(
                self@,
            )[i] by {
                assert((out@[i].a as int, out@[i].b as int) == mat_lorentz_inverse_spec(self@)[i]);
            }
            assert(result@ =~= mat_lorentz_inverse_spec(self@));
            assert forall|i: int| 0 <= i < 16 implies entry_bounded(#[trigger] result@[i]) by {
                let r = i / 4;
                let c = i % 4;
                assert(entry_bounded(self@[4 * c + r]));
            }
        }
        result
    }
}

} // verus!
