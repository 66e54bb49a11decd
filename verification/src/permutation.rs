//! Bijections on the nine face labels of a tiling cell.
//!
//! A tiling cell has nine named faces/neighbor slots; every symmetry of the
//! tiling permutes them.  The permutation is the exact, drift-free record of
//! a group element, and its Lehmer-code rank gives each element a unique
//! integer.  A tile is addressed by the *rotation-equivalence class* of its
//! permutation: the class identifier is the minimum rank over the element and
//! its three right-compositions with the rotation generator.

use vstd::prelude::*;

verus! {

/// A bijection on the nine face labels, stored as its image array:
/// `func[i]` is the label that label `i` is sent to.
#[derive(Clone, Copy)]
pub struct Permutation {
    pub func: [usize; 9],
}

impl View for Permutation {
    type V = Seq<usize>;

    open spec fn view(&self) -> Seq<usize> {
        self.func@
    }
}

/// `s` is a well-formed permutation: nine entries, each a label, no repeats.
pub open spec fn perm_valid(s: Seq<usize>) -> bool {
    &&& s.len() == 9
    &&& forall|i: int| 0 <= i < 9 ==> s[i] < 9
    &&& forall|i: int, j: int| 0 <= i < 9 && 0 <= j < 9 && i != j ==> s[i] != s[j]
}

/// The identity permutation.
pub open spec fn identity_seq() -> Seq<usize> {
    seq![0usize, 1, 2, 3, 4, 5, 6, 7, 8]
}

/// The rotation generator, cycle form (1 2)(3 4 8 7)(5 6); it has order 4.
pub open spec fn rotation_seq() -> Seq<usize> {
    seq![0usize, 2, 1, 4, 8, 6, 5, 3, 7]
}

/// The translation generator, cycle form (0 1)(2 8 3)(4 5 7 6).
pub open spec fn translation_seq() -> Seq<usize> {
    seq![1usize, 0, 8, 2, 5, 7, 4, 6, 3]
}

/// Composition: `(a ∘ b)[i] == a[b[i]]`, so `b` acts first on indices.
pub open spec fn compose(a: Seq<usize>, b: Seq<usize>) -> Seq<usize> {
    Seq::new(9, |i: int| a[b[i] as int])
}

/// `p` composed on the right with `k` copies of the rotation generator.
pub open spec fn rot_power(p: Seq<usize>, k: nat) -> Seq<usize>
    decreases k,
{
    if k == 0 {
        p
    } else {
        compose(rot_power(p, (k - 1) as nat), rotation_seq())
    }
}

/// Composing two well-formed permutations yields a well-formed permutation.
pub proof fn lemma_compose_valid(a: Seq<usize>, b: Seq<usize>)
    requires
        perm_valid(a),
        perm_valid(b),
    ensures
        perm_valid(compose(a, b)),
{
    assert forall|i: int, j: int|
        0 <= i < 9 && 0 <= j < 9 && i != j implies compose(a, b)[i] != compose(a, b)[j] by {
        assert(b[i] != b[j]);
        assert(a[b[i] as int] != a[b[j] as int]);
    }
}

/// Composition of permutations is associative.
///
/// Law: for all permutations `a`, `b`, `c`, `(a*b)*c == a*(b*c)`; this is the
/// spec-level statement behind `Permutation::multiply`, whose contract pins
/// the executable product to `compose`.
pub proof fn lemma_multiply_associative(a: Seq<usize>, b: Seq<usize>, c: Seq<usize>)
    requires
        perm_valid(a),
        perm_valid(b),
        perm_valid(c),
    ensures
        compose(compose(a, b), c) == compose(a, compose(b, c)),
{
    assert forall|i: int| 0 <= i < 9 implies compose(compose(a, b), c)[i] == compose(
        a,
        compose(b, c),
    )[i] by {
        assert(compose(compose(a, b), c)[i] == compose(a, b)[c[i] as int]);
        assert(compose(b, c)[i] == b[c[i] as int]);
    }
    assert(compose(compose(a, b), c) =~= compose(a, compose(b, c)));
}

/// The identity is a right unit for composition.
pub proof fn lemma_compose_identity_right(a: Seq<usize>)
    requires
        perm_valid(a),
    ensures
        compose(a, identity_seq()) == a,
{
    assert(compose(a, identity_seq()) =~= a);
}

/// The identity is a left unit for composition.
pub proof fn lemma_compose_identity_left(a: Seq<usize>)
    requires
        perm_valid(a),
    ensures
        compose(identity_seq(), a) == a,
{
    assert(compose(identity_seq(), a) =~= a);
}

/// The rotation generator has order exactly 4: four compositions give the
/// identity and three do not.
pub proof fn lemma_rotation_order()
    ensures
        compose(compose(compose(rotation_seq(), rotation_seq()), rotation_seq()), rotation_seq())
            == identity_seq(),
        compose(compose(rotation_seq(), rotation_seq()), rotation_seq()) != identity_seq(),
{
    let r = rotation_seq();
    let r2 = compose(r, r);
    let r3 = compose(r2, r);
    let r4 = compose(r3, r);
    assert(r4 =~= identity_seq());
    assert(r3[1] == 2);
}

/// Four right-rotations return any well-formed permutation to itself.
pub proof fn lemma_rot_power_four(p: Seq<usize>)
    requires
        perm_valid(p),
    ensures
        rot_power(p, 4) == p,
{
    let r = rotation_seq();
    reveal_with_fuel(rot_power, 5);
    assert(rot_power(p, 4) == compose(compose(compose(compose(p, r), r), r), r));
    assert forall|i: int| 0 <= i < 9 implies rot_power(p, 4)[i] == p[i] by {
        let i1 = r[i] as int;
        let i2 = r[i1] as int;
        let i3 = r[i2] as int;
        assert(compose(compose(compose(compose(p, r), r), r), r)[i] == compose(
            compose(compose(p, r), r),
            r,
        )[i1]);
        assert(compose(compose(compose(p, r), r), r)[i1] == compose(compose(p, r), r)[i2]);
        assert(compose(compose(p, r), r)[i2] == compose(p, r)[i3]);
        assert(r[i3] == i);
    }
    assert(rot_power(p, 4) =~= p);
}

impl Permutation {
    /// The identity permutation.
    pub fn identity() -> (r: Permutation)
        ensures
            r@ == identity_seq(),
            perm_valid(r@),
    {
        let p = Permutation { func: [0, 1, 2, 3, 4, 5, 6, 7, 8] };
        proof {
            assert(p@ =~= identity_seq());
        }
        p
    }

    /// The rotation generator.
    pub fn rotation() -> (r: Permutation)
        ensures
            r@ == rotation_seq(),
            perm_valid(r@),
    {
        let p = Permutation { func: [0, 2, 1, 4, 8, 6, 5, 3, 7] };
        proof {
            assert(p@ =~= rotation_seq());
        }
        p
    }

    /// The translation generator.
    pub fn translation() -> (r: Permutation)
        ensures
            r@ == translation_seq(),
            perm_valid(r@),
    {
        let p = Permutation { func: [1, 0, 8, 2, 5, 7, 4, 6, 3] };
        proof {
            assert(p@ =~= translation_seq());
        }
        p
    }

    /// Composition: the result sends `i` to `self[other[i]]`.
    pub fn multiply(&self, other: &Permutation) -> (r: Permutation)
        requires
            perm_valid(self@),
            perm_valid(other@),
        ensures
            r@ == compose(self@, other@),
            perm_valid(r@),
    {
        let mut out: [usize; 9] = [0, 0, 0, 0, 0, 0, 0, 0, 0];
        for i in 0..9
            invariant
                perm_valid(self@),
                perm_valid(other@),
                out@.len() == 9,
                forall|j: int| 0 <= j < i ==> out@[j] == self@[other@[j] as int],
        {
            out[i] = self.func[other.func[i]];
        }
        let r = Permutation { func: out };
        proof {
            assert(r@ =~= compose(self@, other@));
            lemma_compose_valid(self@, other@);
        }
        r
    }

    /// In-place right-composition: `self` becomes `self * other`.
    pub fn right_multiply_in_place(&mut self, other: &Permutation)
        requires
            perm_valid(old(self)@),
            perm_valid(other@),
        ensures
            final(self)@ == compose(old(self)@, other@),
            perm_valid(final(self)@),
    {
        let r = self.multiply(other);
        self.func = r.func;
    }
}

/// Number of positions `k < bound` whose entry exceeds the entry at `i`:
/// the inversion count that position `i` contributes to the Lehmer code.
pub open spec fn inversions_before(s: Seq<usize>, i: int, bound: int) -> nat
    decreases bound,
{
    if bound <= 0 {
        0
    } else {
        inversions_before(s, i, bound - 1) + if s[bound - 1] > s[i] {
            1nat
        } else {
            0nat
        }
    }
}

pub open spec fn factorial(n: nat) -> nat
    decreases n,
{
    if n == 0 {
        1
    } else {
        n * factorial((n - 1) as nat)
    }
}

/// The Lehmer-code rank contributed by the first `n` positions.
pub open spec fn rank_prefix(s: Seq<usize>, n: int) -> nat
    decreases n,
{
    if n <= 0 {
        0
    } else {
        rank_prefix(s, n - 1) + inversions_before(s, n - 1, n - 1) * factorial((n - 1) as nat)
    }
}

/// The Lehmer-code rank of a permutation: a bijection-friendly encoding as
/// an integer below `9!`, computed by weighting each position's inversion
/// count with a factorial.
#[verifier::opaque]
pub open spec fn rank_of(s: Seq<usize>) -> nat {
    rank_prefix(s, 9)
}

pub open spec fn min2(a: nat, b: nat) -> nat {
    if a <= b {
        a
    } else {
        b
    }
}

/// The canonical identifier of the rotation-equivalence class of `s`: the
/// minimum Lehmer rank over `s` and its three right-compositions with the
/// rotation generator.  Any two permutations that differ by a rotation share
/// this identifier.
#[verifier::opaque]
pub open spec fn canonical_id(s: Seq<usize>) -> nat {
    min2(
        min2(rank_of(rot_power(s, 0)), rank_of(rot_power(s, 1))),
        min2(rank_of(rot_power(s, 2)), rank_of(rot_power(s, 3))),
    )
}

pub proof fn lemma_factorial_values()
    ensures
        factorial(0) == 1,
        factorial(1) == 1,
        factorial(2) == 2,
        factorial(3) == 6,
        factorial(4) == 24,
        factorial(5) == 120,
        factorial(6) == 720,
        factorial(7) == 5040,
        factorial(8) == 40320,
        factorial(9) == 362880,
{
    reveal_with_fuel(factorial, 11);
}

/// An inversion count over `bound` earlier positions is at most `bound`.
pub proof fn lemma_inversions_bound(s: Seq<usize>, i: int, bound: int)
    requires
        0 <= bound,
    ensures
        inversions_before(s, i, bound) <= bound,
    decreases bound,
{
    if bound > 0 {
        lemma_inversions_bound(s, i, bound - 1);
    }
}

/// The rank contributed by the first `n` positions is below `n!`.
pub proof fn lemma_rank_prefix_bound(s: Seq<usize>, n: int)
    requires
        0 <= n,
    ensures
        rank_prefix(s, n) < factorial(n as nat),
    decreases n,
{
    if n == 0 {
    } else {
        lemma_rank_prefix_bound(s, n - 1);
        lemma_inversions_bound(s, n - 1, n - 1);
        let c = inversions_before(s, n - 1, n - 1) as int;
        let f = factorial((n - 1) as nat) as int;
        vstd::arithmetic::mul::lemma_mul_inequality(c, n - 1, f);
        assert(factorial(n as nat) == n * factorial((n - 1) as nat));
        assert((n - 1) * f + f == n * f) by (nonlinear_arith);
    }
}

/// The rank of any permutation is below `9!`.
pub proof fn lemma_rank_bound(s: Seq<usize>)
    ensures
        rank_of(s) < 362880,
{
    reveal(rank_of);
    lemma_rank_prefix_bound(s, 9);
    lemma_factorial_values();
}

/// A zero inversion count means no earlier entry exceeds the entry at `i`.
pub proof fn lemma_no_inversions(s: Seq<usize>, i: int, bound: int)
    requires
        0 <= bound,
        inversions_before(s, i, bound) == 0,
    ensures
        forall|k: int| 0 <= k < bound ==> !(s[k] > s[i]),
    decreases bound,
{
    if bound > 0 {
        lemma_no_inversions(s, i, bound - 1);
    }
}

/// A well-formed permutation has rank zero exactly when it is the identity.
pub proof fn lemma_rank_zero_iff_identity(s: Seq<usize>)
    requires
        perm_valid(s),
    ensures
        rank_of(s) == 0 <==> s == identity_seq(),
{
    reveal(rank_of);
    lemma_factorial_values();
    reveal_with_fuel(rank_prefix, 10);
    reveal_with_fuel(inversions_before, 10);
    if s == identity_seq() {
        assert(rank_of(identity_seq()) == 0);
    }
    if rank_of(s) == 0 {
        assert forall|i: int| 0 <= i < 9 implies inversions_before(s, i, i) == 0 by {
            assert(rank_prefix(s, i + 1) == 0);
        }
        assert forall|k: int, i: int| 0 <= k < i < 9 implies s[k] < s[i] by {
            lemma_no_inversions(s, i, i);
            assert(!(s[k] > s[i]));
            assert(s[k] != s[i]);
        }
        assert(s[0] >= 0);
        assert(s[1] >= 1);
        assert(s[2] >= 2);
        assert(s[3] >= 3);
        assert(s[4] >= 4);
        assert(s[5] >= 5);
        assert(s[6] >= 6);
        assert(s[7] >= 7);
        assert(s[8] >= 8);
        assert(s[8] <= 8);
        assert(s[7] <= 7);
        assert(s[6] <= 6);
        assert(s[5] <= 5);
        assert(s[4] <= 4);
        assert(s[3] <= 3);
        assert(s[2] <= 2);
        assert(s[1] <= 1);
        assert(s[0] <= 0);
        assert(s =~= identity_seq());
    }
}

/// Right-rotations preserve well-formedness.
pub proof fn lemma_rot_power_valid(p: Seq<usize>, k: nat)
    requires
        perm_valid(p),
    ensures
        perm_valid(rot_power(p, k)),
    decreases k,
{
    if k > 0 {
        lemma_rot_power_valid(p, (k - 1) as nat);
        lemma_compose_valid(rot_power(p, (k - 1) as nat), rotation_seq());
    }
}

/// The canonical identifier is the least of the four ranks in the class,
/// and it is attained by at least one of them.
pub proof fn lemma_canonical_id_is_min(p: Seq<usize>)
    ensures
        forall|k: nat| k < 4 ==> canonical_id(p) <= #[trigger] rank_of(rot_power(p, k)),
        exists|k: nat| k < 4 && rank_of(#[trigger] rot_power(p, k)) == canonical_id(p),
        canonical_id(p) <= rank_of(p),
{
    reveal(canonical_id);
    assert(rot_power(p, 0) == p);
    assert forall|k: nat| k < 4 implies canonical_id(p) <= #[trigger] rank_of(rot_power(p, k)) by {
        if k == 0 {
        } else if k == 1 {
        } else if k == 2 {
        } else {
            assert(k == 3);
        }
    }
    let c = canonical_id(p);
    if c == rank_of(rot_power(p, 0)) {
        assert(exists|k: nat| k < 4 && rank_of(#[trigger] rot_power(p, k)) == c);
    } else if c == rank_of(rot_power(p, 1)) {
        assert(exists|k: nat| k < 4 && rank_of(#[trigger] rot_power(p, k)) == c);
    } else if c == rank_of(rot_power(p, 2)) {
        assert(exists|k: nat| k < 4 && rank_of(#[trigger] rot_power(p, k)) == c);
    } else {
        assert(c == rank_of(rot_power(p, 3)));
        assert(exists|k: nat| k < 4 && rank_of(#[trigger] rot_power(p, k)) == c);
    }
}

/// The canonical identifier is invariant under one right-rotation.
///
/// Law: `canonical_id(p) == canonical_id(p * ROTATION)` — a tile's identity
/// does not depend on which of the four rotated views produced its
/// permutation.
pub proof fn lemma_canonical_id_rotation(p: Seq<usize>)
    requires
        perm_valid(p),
    ensures
        canonical_id(compose(p, rotation_seq())) == canonical_id(p),
{
    let q = compose(p, rotation_seq());
    reveal(canonical_id);
    reveal_with_fuel(rot_power, 5);
    lemma_rot_power_four(p);
    assert(rot_power(q, 0) == rot_power(p, 1));
    assert(rot_power(q, 1) == rot_power(p, 2));
    assert(rot_power(q, 2) == rot_power(p, 3));
    assert(rot_power(q, 3) == rot_power(p, 4));
    assert(rot_power(p, 4) == rot_power(p, 0));
}

/// The canonical identifier is invariant under any number of right-rotations.
pub proof fn lemma_canonical_id_rot_power(p: Seq<usize>, k: nat)
    requires
        perm_valid(p),
    ensures
        canonical_id(rot_power(p, k)) == canonical_id(p),
    decreases k,
{
    if k > 0 {
        lemma_canonical_id_rot_power(p, (k - 1) as nat);
        lemma_rot_power_valid(p, (k - 1) as nat);
        lemma_canonical_id_rotation(rot_power(p, (k - 1) as nat));
    }
}

/// Right-composition with any member of the rotation subgroup (an element of
/// canonical identifier zero) preserves the canonical identifier.
pub proof fn lemma_canonical_id_rotation_subgroup(p: Seq<usize>, q: Seq<usize>)
    requires
        perm_valid(p),
        perm_valid(q),
        canonical_id(q) == 0,
    ensures
        canonical_id(compose(p, q)) == canonical_id(p),
{
    let r = rotation_seq();
    let pq = compose(p, q);
    reveal(canonical_id);
    lemma_compose_valid(p, q);
    reveal_with_fuel(rot_power, 5);
    lemma_canonical_id_is_min(q);
    let k = choose|k: nat| k < 4 && rank_of(#[trigger] rot_power(q, k)) == canonical_id(q);
    lemma_rot_power_valid(q, k);
    lemma_rank_zero_iff_identity(rot_power(q, k));
    assert(rot_power(q, k) == identity_seq());
    if k == 0 {
        lemma_compose_identity_right(p);
        assert(pq == p);
    } else if k == 1 {
        lemma_multiply_associative(p, q, r);
        assert(compose(pq, r) == compose(p, compose(q, r)));
        lemma_compose_identity_right(p);
        lemma_canonical_id_rotation(pq);
        assert(canonical_id(compose(pq, r)) == canonical_id(pq));
    } else if k == 2 {
        let q1 = compose(q, r);
        lemma_compose_valid(q, r);
        lemma_multiply_associative(p, q, r);
        lemma_multiply_associative(p, q1, r);
        lemma_compose_identity_right(p);
        lemma_canonical_id_rotation(pq);
        lemma_compose_valid(pq, r);
        lemma_canonical_id_rotation(compose(pq, r));
        assert(compose(compose(pq, r), r) == compose(p, compose(q1, r)));
    } else {
        assert(k == 3);
        let q1 = compose(q, r);
        let q2 = compose(q1, r);
        lemma_compose_valid(q, r);
        lemma_compose_valid(q1, r);
        lemma_multiply_associative(p, q, r);
        lemma_multiply_associative(p, q1, r);
        lemma_multiply_associative(p, q2, r);
        lemma_compose_identity_right(p);
        lemma_canonical_id_rotation(pq);
        lemma_compose_valid(pq, r);
        lemma_canonical_id_rotation(compose(pq, r));
        lemma_compose_valid(compose(pq, r), r);
        lemma_canonical_id_rotation(compose(compose(pq, r), r));
        assert(compose(pq, r) == compose(p, q1));
        assert(compose(compose(p, q1), r) == compose(p, q2));
        assert(compose(compose(p, q2), r) == compose(p, compose(q2, r)));
    }
}

/// The Lehmer rank of the translation generator itself.
proof fn lemma_rank_value_t(s: Seq<usize>)
    requires
        s =~= translation_seq(),
    ensures
        rank_of(s) == 213991,
{
    reveal(rank_of);
    lemma_factorial_values();
    assert(inversions_before(s, 0, 0) == 0);
    assert(inversions_before(s, 1, 0) == 0);
    assert(inversions_before(s, 1, 1) == 1);
    assert(inversions_before(s, 2, 0) == 0);
    assert(inversions_before(s, 2, 1) == 0);
    assert(inversions_before(s, 2, 2) == 0);
    assert(inversions_before(s, 3, 0) == 0);
    assert(inversions_before(s, 3, 1) == 0);
    assert(inversions_before(s, 3, 2) == 0);
    assert(inversions_before(s, 3, 3) == 1);
    assert(inversions_before(s, 4, 0) == 0);
    assert(inversions_before(s, 4, 1) == 0);
    assert(inversions_before(s, 4, 2) == 0);
    assert(inversions_before(s, 4, 3) == 1);
    assert(inversions_before(s, 4, 4) == 1);
    assert(inversions_before(s, 5, 0) == 0);
    assert(inversions_before(s, 5, 1) == 0);
    assert(inversions_before(s, 5, 2) == 0);
    assert(inversions_before(s, 5, 3) == 1);
    assert(inversions_before(s, 5, 4) == 1);
    assert(inversions_before(s, 5, 5) == 1);
    assert(inversions_before(s, 6, 0) == 0);
    assert(inversions_before(s, 6, 1) == 0);
    assert(inversions_before(s, 6, 2) == 0);
    assert(inversions_before(s, 6, 3) == 1);
    assert(inversions_before(s, 6, 4) == 1);
    assert(inversions_before(s, 6, 5) == 2);
    assert(inversions_before(s, 6, 6) == 3);
    assert(inversions_before(s, 7, 0) == 0);
    assert(inversions_before(s, 7, 1) == 0);
    assert(inversions_before(s, 7, 2) == 0);
    assert(inversions_before(s, 7, 3) == 1);
    assert(inversions_before(s, 7, 4) == 1);
    assert(inversions_before(s, 7, 5) == 1);
    assert(inversions_before(s, 7, 6) == 2);
    assert(inversions_before(s, 7, 7) == 2);
    assert(inversions_before(s, 8, 0) == 0);
    assert(inversions_before(s, 8, 1) == 0);
    assert(inversions_before(s, 8, 2) == 0);
    assert(inversions_before(s, 8, 3) == 1);
    assert(inversions_before(s, 8, 4) == 1);
    assert(inversions_before(s, 8, 5) == 2);
    assert(inversions_before(s, 8, 6) == 3);
    assert(inversions_before(s, 8, 7) == 4);
    assert(inversions_before(s, 8, 8) == 5);
    assert(rank_prefix(s, 0) == 0);
    assert(rank_prefix(s, 1) == 0);
    assert(rank_prefix(s, 2) == 1);
    assert(rank_prefix(s, 3) == 1);
    assert(rank_prefix(s, 4) == 7);
    assert(rank_prefix(s, 5) == 31);
    assert(rank_prefix(s, 6) == 151);
    assert(rank_prefix(s, 7) == 2311);
    assert(rank_prefix(s, 8) == 12391);
    assert(rank_prefix(s, 9) == 213991);
}

/// The Lehmer rank of the translation generator rotated once.
proof fn lemma_rank_value_t1(s: Seq<usize>)
    requires
        s =~= seq![1usize, 8, 0, 5, 3, 4, 7, 2, 6],
    ensures
        rank_of(s) == 106858,
{
    reveal(rank_of);
    lemma_factorial_values();
    assert(inversions_before(s, 0, 0) == 0);
    assert(inversions_before(s, 1, 0) == 0);
    assert(inversions_before(s, 1, 1) == 0);
    assert(inversions_before(s, 2, 0) == 0);
    assert(inversions_before(s, 2, 1) == 1);
    assert(inversions_before(s, 2, 2) == 2);
    assert(inversions_before(s, 3, 0) == 0);
    assert(inversions_before(s, 3, 1) == 0);
    assert(inversions_before(s, 3, 2) == 1);
    assert(inversions_before(s, 3, 3) == 1);
    assert(inversions_before(s, 4, 0) == 0);
    assert(inversions_before(s, 4, 1) == 0);
    assert(inversions_before(s, 4, 2) == 1);
    assert(inversions_before(s, 4, 3) == 1);
    assert(inversions_before(s, 4, 4) == 2);
    assert(inversions_before(s, 5, 0) == 0);
    assert(inversions_before(s, 5, 1) == 0);
    assert(inversions_before(s, 5, 2) == 1);
    assert(inversions_before(s, 5, 3) == 1);
    assert(inversions_before(s, 5, 4) == 2);
    assert(inversions_before(s, 5, 5) == 2);
    assert(inversions_before(s, 6, 0) == 0);
    assert(inversions_before(s, 6, 1) == 0);
    assert(inversions_before(s, 6, 2) == 1);
    assert(inversions_before(s, 6, 3) == 1);
    assert(inversions_before(s, 6, 4) == 1);
    assert(inversions_before(s, 6, 5) == 1);
    assert(inversions_before(s, 6, 6) == 1);
    assert(inversions_before(s, 7, 0) == 0);
    assert(inversions_before(s, 7, 1) == 0);
    assert(inversions_before(s, 7, 2) == 1);
    assert(inversions_before(s, 7, 3) == 1);
    assert(inversions_before(s, 7, 4) == 2);
    assert(inversions_before(s, 7, 5) == 3);
    assert(inversions_before(s, 7, 6) == 4);
    assert(inversions_before(s, 7, 7) == 5);
    assert(inversions_before(s, 8, 0) == 0);
    assert(inversions_before(s, 8, 1) == 0);
    assert(inversions_before(s, 8, 2) == 1);
    assert(inversions_before(s, 8, 3) == 1);
    assert(inversions_before(s, 8, 4) == 1);
    assert(inversions_before(s, 8, 5) == 1);
    assert(inversions_before(s, 8, 6) == 1);
    assert(inversions_before(s, 8, 7) == 2);
    assert(inversions_before(s, 8, 8) == 2);
    assert(rank_prefix(s, 0) == 0);
    assert(rank_prefix(s, 1) == 0);
    assert(rank_prefix(s, 2) == 0);
    assert(rank_prefix(s, 3) == 4);
    assert(rank_prefix(s, 4) == 10);
    assert(rank_prefix(s, 5) == 58);
    assert(rank_prefix(s, 6) == 298);
    assert(rank_prefix(s, 7) == 1018);
    assert(rank_prefix(s, 8) == 26218);
    assert(rank_prefix(s, 9) == 106858);
}

/// The Lehmer rank of the translation generator rotated twice.
proof fn lemma_rank_value_t2(s: Seq<usize>)
    requires
        s =~= seq![1usize, 0, 8, 3, 6, 7, 4, 5, 2],
    ensures
        rank_of(s) == 259351,
{
    reveal(rank_of);
    lemma_factorial_values();
    assert(inversions_before(s, 0, 0) == 0);
    assert(inversions_before(s, 1, 0) == 0);
    assert(inversions_before(s, 1, 1) == 1);
    assert(inversions_before(s, 2, 0) == 0);
    assert(inversions_before(s, 2, 1) == 0);
    assert(inversions_before(s, 2, 2) == 0);
    assert(inversions_before(s, 3, 0) == 0);
    assert(inversions_before(s, 3, 1) == 0);
    assert(inversions_before(s, 3, 2) == 0);
    assert(inversions_before(s, 3, 3) == 1);
    assert(inversions_before(s, 4, 0) == 0);
    assert(inversions_before(s, 4, 1) == 0);
    assert(inversions_before(s, 4, 2) == 0);
    assert(inversions_before(s, 4, 3) == 1);
    assert(inversions_before(s, 4, 4) == 1);
    assert(inversions_before(s, 5, 0) == 0);
    assert(inversions_before(s, 5, 1) == 0);
    assert(inversions_before(s, 5, 2) == 0);
    assert(inversions_before(s, 5, 3) == 1);
    assert(inversions_before(s, 5, 4) == 1);
    assert(inversions_before(s, 5, 5) == 1);
    assert(inversions_before(s, 6, 0) == 0);
    assert(inversions_before(s, 6, 1) == 0);
    assert(inversions_before(s, 6, 2) == 0);
    assert(inversions_before(s, 6, 3) == 1);
    assert(inversions_before(s, 6, 4) == 1);
    assert(inversions_before(s, 6, 5) == 2);
    assert(inversions_before(s, 6, 6) == 3);
    assert(inversions_before(s, 7, 0) == 0);
    assert(inversions_before(s, 7, 1) == 0);
    assert(inversions_before(s, 7, 2) == 0);
    assert(inversions_before(s, 7, 3) == 1);
    assert(inversions_before(s, 7, 4) == 1);
    assert(inversions_before(s, 7, 5) == 2);
    assert(inversions_before(s, 7, 6) == 3);
    assert(inversions_before(s, 7, 7) == 3);
    assert(inversions_before(s, 8, 0) == 0);
    assert(inversions_before(s, 8, 1) == 0);
    assert(inversions_before(s, 8, 2) == 0);
    assert(inversions_before(s, 8, 3) == 1);
    assert(inversions_before(s, 8, 4) == 2);
    assert(inversions_before(s, 8, 5) == 3);
    assert(inversions_before(s, 8, 6) == 4);
    assert(inversions_before(s, 8, 7) == 5);
    assert(inversions_before(s, 8, 8) == 6);
    assert(rank_prefix(s, 0) == 0);
    assert(rank_prefix(s, 1) == 0);
    assert(rank_prefix(s, 2) == 1);
    assert(rank_prefix(s, 3) == 1);
    assert(rank_prefix(s, 4) == 7);
    assert(rank_prefix(s, 5) == 31);
    assert(rank_prefix(s, 6) == 151);
    assert(rank_prefix(s, 7) == 2311);
    assert(rank_prefix(s, 8) == 17431);
    assert(rank_prefix(s, 9) == 259351);
}

/// The Lehmer rank of the translation generator rotated three times.
proof fn lemma_rank_value_t3(s: Seq<usize>)
    requires
        s =~= seq![1usize, 8, 0, 6, 2, 4, 7, 3, 5],
    ensures
        rank_of(s) == 142138,
{
    reveal(rank_of);
    lemma_factorial_values();
    assert(inversions_before(s, 0, 0) == 0);
    assert(inversions_before(s, 1, 0) == 0);
    assert(inversions_before(s, 1, 1) == 0);
    assert(inversions_before(s, 2, 0) == 0);
    assert(inversions_before(s, 2, 1) == 1);
    assert(inversions_before(s, 2, 2) == 2);
    assert(inversions_before(s, 3, 0) == 0);
    assert(inversions_before(s, 3, 1) == 0);
    assert(inversions_before(s, 3, 2) == 1);
    assert(inversions_before(s, 3, 3) == 1);
    assert(inversions_before(s, 4, 0) == 0);
    assert(inversions_before(s, 4, 1) == 0);
    assert(inversions_before(s, 4, 2) == 1);
    assert(inversions_before(s, 4, 3) == 1);
    assert(inversions_before(s, 4, 4) == 2);
    assert(inversions_before(s, 5, 0) == 0);
    assert(inversions_before(s, 5, 1) == 0);
    assert(inversions_before(s, 5, 2) == 1);
    assert(inversions_before(s, 5, 3) == 1);
    assert(inversions_before(s, 5, 4) == 2);
    assert(inversions_before(s, 5, 5) == 2);
    assert(inversions_before(s, 6, 0) == 0);
    assert(inversions_before(s, 6, 1) == 0);
    assert(inversions_before(s, 6, 2) == 1);
    assert(inversions_before(s, 6, 3) == 1);
    assert(inversions_before(s, 6, 4) == 1);
    assert(inversions_before(s, 6, 5) == 1);
    assert(inversions_before(s, 6, 6) == 1);
    assert(inversions_before(s, 7, 0) == 0);
    assert(inversions_before(s, 7, 1) == 0);
    assert(inversions_before(s, 7, 2) == 1);
    assert(inversions_before(s, 7, 3) == 1);
    assert(inversions_before(s, 7, 4) == 2);
    assert(inversions_before(s, 7, 5) == 2);
    assert(inversions_before(s, 7, 6) == 3);
    assert(inversions_before(s, 7, 7) == 4);
    assert(inversions_before(s, 8, 0) == 0);
    assert(inversions_before(s, 8, 1) == 0);
    assert(inversions_before(s, 8, 2) == 1);
    assert(inversions_before(s, 8, 3) == 1);
    assert(inversions_before(s, 8, 4) == 2);
    assert(inversions_before(s, 8, 5) == 2);
    assert(inversions_before(s, 8, 6) == 2);
    assert(inversions_before(s, 8, 7) == 3);
    assert(inversions_before(s, 8, 8) == 3);
    assert(rank_prefix(s, 0) == 0);
    assert(rank_prefix(s, 1) == 0);
    assert(rank_prefix(s, 2) == 0);
    assert(rank_prefix(s, 3) == 4);
    assert(rank_prefix(s, 4) == 10);
    assert(rank_prefix(s, 5) == 58);
    assert(rank_prefix(s, 6) == 298);
    assert(rank_prefix(s, 7) == 1018);
    assert(rank_prefix(s, 8) == 21178);
    assert(rank_prefix(s, 9) == 142138);
}

/// Fixed reference values of the generators' identifiers: the identity's
/// class has identifier 0 (and so does the rotation's, since its class
/// contains the identity), while the translation's class has the rank of
/// its least rotated representative.
pub proof fn lemma_generator_ids()
    ensures
        canonical_id(identity_seq()) == 0,
        canonical_id(rotation_seq()) == 0,
        canonical_id(translation_seq()) == 106858,
{
    reveal_with_fuel(rot_power, 5);
    lemma_canonical_id_is_min(identity_seq());
    lemma_canonical_id_is_min(rotation_seq());
    lemma_canonical_id_is_min(translation_seq());
    assert(rank_of(identity_seq()) == 0) by {
        lemma_rank_zero_iff_identity(identity_seq());
    }
    lemma_rotation_order();
    assert(rot_power(rotation_seq(), 3) == identity_seq());
    assert(canonical_id(rotation_seq()) <= rank_of(rot_power(rotation_seq(), 3)));
    let t = translation_seq();
    let r = rotation_seq();
    let t1 = compose(t, r);
    let t2 = compose(t1, r);
    let t3 = compose(t2, r);
    assert(t1 =~= seq![1usize, 8, 0, 5, 3, 4, 7, 2, 6]);
    assert(t2 =~= seq![1usize, 0, 8, 3, 6, 7, 4, 5, 2]);
    assert(t3 =~= seq![1usize, 8, 0, 6, 2, 4, 7, 3, 5]);
    lemma_rank_value_t(t);
    lemma_rank_value_t1(t1);
    lemma_rank_value_t2(t2);
    lemma_rank_value_t3(t3);
    assert(rot_power(t, 1) == t1);
    assert(rot_power(t, 2) == t2);
    assert(rot_power(t, 3) == t3);
}

impl Permutation {
    /// The Lehmer-code rank of this permutation: a unique integer below `9!`.
    pub fn to_int(&self) -> (r: u32)
        requires
            perm_valid(self@),
        ensures
            r == rank_of(self@),
    {
        proof {
            reveal(rank_of);
            lemma_factorial_values();
        }
        let mut out: u32 = 0;
        let mut factor: u32 = 1;
        for i in 0..9
            invariant
                perm_valid(self@),
                out == rank_prefix(self@, i as int),
                factor == factorial(i as nat),
                out < 362880,
                factor <= 362880,
        {
            proof {
                lemma_factorial_values();
            }
            let mut more_than: u32 = 0;
            for j in 0..i
                invariant
                    perm_valid(self@),
                    i < 9,
                    more_than == inversions_before(self@, i as int, j as int),
                    more_than <= j,
            {
                if self.func[j] > self.func[i] {
                    more_than = more_than + 1;
                }
            }
            proof {
                lemma_inversions_bound(self@, i as int, i as int);
                lemma_rank_prefix_bound(self@, i as int + 1);
                lemma_factorial_values();
                assert(factor <= 40320);
                vstd::arithmetic::mul::lemma_mul_inequality(
                    more_than as int,
                    i as int,
                    factor as int,
                );
                assert(i as int * factor as int <= 8 * 40320) by (nonlinear_arith)
                    requires
                        0 <= i as int <= 8,
                        0 <= factor as int <= 40320,
                ;
            }
            out = out + more_than * factor;
            proof {
                assert(factor as int * (i as int + 1) <= 362880) by (nonlinear_arith)
                    requires
                        0 <= factor as int <= 40320,
                        0 <= i as int <= 8,
                ;
                assert(factorial((i + 1) as nat) == ((i + 1) as nat) * factorial(i as nat));
                assert(((i + 1) as nat) * factorial(i as nat) == factorial(i as nat) * ((i
                    + 1) as nat)) by (nonlinear_arith);
            }
            factor = factor * ((i + 1) as u32);
        }
        out
    }

    /// The canonical identifier of this permutation's rotation class: the
    /// minimum rank over the permutation and its three right-rotations.
    pub fn repr(&self) -> (r: u32)
        requires
            perm_valid(self@),
        ensures
            r == canonical_id(self@),
    {
        proof {
            reveal(canonical_id);
            reveal_with_fuel(rot_power, 5);
        }
        let rot = Permutation::rotation();
        let mut out = self.to_int();
        let mut current = self.multiply(&Permutation::identity());
        proof {
            lemma_compose_identity_right(self@);
        }
        current.right_multiply_in_place(&rot);
        let x1 = current.to_int();
        if x1 < out {
            out = x1;
        }
        current.right_multiply_in_place(&rot);
        let x2 = current.to_int();
        if x2 < out {
            out = x2;
        }
        current.right_multiply_in_place(&rot);
        let x3 = current.to_int();
        if x3 < out {
            out = x3;
        }
        out
    }
}

} // verus!
