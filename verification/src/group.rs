//! Elements of the tiling's symmetry group.
//!
//! A [`GroupElt`] pairs a permutation of the nine face labels with the exact
//! Lorentz matrix of the same abstract group element, plus a lazily cached
//! canonical identifier.  Every operation applies the same composition to
//! the permutation and to the matrix, so the two sides always represent one
//! element; the contracts state both updates in parallel.  The cached
//! identifier survives right-multiplication by any element whose class
//! identifier is zero — that is, by members of the rotation subgroup — and
//! is invalidated by everything else.

use vstd::prelude::*;

verus! {

use crate::matrix::{
    lemma_rotation_keeps_bounds, mat_bounded, mat_identity_spec, mat_product, mat_rotation_spec,
    mat_translation_spec, Mat4,
};
use crate::permutation::{
    canonical_id, compose, identity_seq, lemma_canonical_id_is_min,
    lemma_canonical_id_rot_power, lemma_canonical_id_rotation_subgroup, lemma_generator_ids,
    lemma_rank_bound, perm_valid, rank_of, rot_power, rotation_seq, translation_seq, Permutation,
};

/// A symmetry-group element: a permutation, the matching exact Lorentz
/// matrix, and the lazily computed identifier of its rotation class.
#[derive(Clone, Copy)]
pub struct GroupElt {
    pub perm: Permutation,
    pub matrix: Mat4,
    pub id: Option<u32>,
}

/// The matrix stored with `k` right-multiplications by the rotation
/// generator applied.
pub open spec fn mat_rot_power(m: Seq<(int, int)>, k: nat) -> Seq<(int, int)>
    decreases k,
{
    if k == 0 {
        m
    } else {
        mat_product(mat_rot_power(m, (k - 1) as nat), mat_rotation_spec())
    }
}

/// Four right-multiplications by the rotation generator restore a matrix.
pub proof fn lemma_mat_rot_power_four(m: Seq<(int, int)>)
    requires
        m.len() == 16,
    ensures
        mat_rot_power(m, 4) == m,
{
    reveal_with_fuel(mat_rot_power, 5);
    crate::matrix::lemma_rotation_four(m);
}

impl GroupElt {
    /// Both halves are well formed and a cached identifier, when present,
    /// is the true canonical identifier of the permutation.
    pub open spec fn wf(self) -> bool {
        &&& perm_valid(self.perm@)
        &&& self.matrix.wf()
        &&& match self.id {
            Some(n) => n == canonical_id(self.perm@),
            None => true,
        }
    }

    /// The neutral element; its class identifier is 0.
    pub fn identity() -> (r: GroupElt)
        ensures
            r.wf(),
            r.perm@ == identity_seq(),
            r.matrix@ == mat_identity_spec(),
            r.id == Some(0u32),
    {
        proof {
            lemma_generator_ids();
        }
        GroupElt { perm: Permutation::identity(), matrix: Mat4::identity(), id: Some(0) }
    }

    /// The rotation generator; its class contains the identity, so its
    /// class identifier is 0 as well.
    pub fn rotation() -> (r: GroupElt)
        ensures
            r.wf(),
            r.perm@ == rotation_seq(),
            r.matrix@ == mat_rotation_spec(),
            r.id == Some(0u32),
    {
        proof {
            lemma_generator_ids();
        }
        GroupElt { perm: Permutation::rotation(), matrix: Mat4::rotation(), id: Some(0) }
    }

    /// The translation generator, with its identifier left to be computed
    /// on first use.
    pub fn translation() -> (r: GroupElt)
        ensures
            r.wf(),
            r.perm@ == translation_seq(),
            r.matrix@ == mat_translation_spec(),
            r.id is None,
    {
        GroupElt { perm: Permutation::translation(), matrix: Mat4::translation(), id: None }
    }

    /// The composed element `self * other`: permutations and matrices are
    /// composed in step, and the identifier of the product is unknown.
    /// `None` is returned — and nothing is built — when the exact product
    /// matrix would leave the representable entry range.
    pub fn multiply(&self, other: &GroupElt) -> (r: Option<GroupElt>)
        requires
            self.wf(),
            other.wf(),
        ensures
            r is Some <==> mat_bounded(mat_product(self.matrix@, other.matrix@)),
            r matches Some(g) ==> g.wf() && g.perm@ == compose(self.perm@, other.perm@)
                && g.matrix@ == mat_product(self.matrix@, other.matrix@) && g.id is None,
    {
        match self.matrix.multiply(&other.matrix) {
            Some(m) => Some(
                GroupElt { perm: self.perm.multiply(&other.perm), matrix: m, id: None },
            ),
            None => None,
        }
    }

    /// In-place right-multiplication.  On success the permutation and the
    /// matrix are both composed with `other`'s; the cached identifier is
    /// kept exactly when `other` carries class identifier 0 (then `other`
    /// lies in the rotation subgroup, which does not move the class) and is
    /// dropped otherwise.  Without success — when the product matrix would
    /// leave the representable range — the element is left unchanged.
    pub fn right_multiply_in_place(&mut self, other: &GroupElt) -> (ok: bool)
        requires
            old(self).wf(),
            other.wf(),
        ensures
            ok <==> mat_bounded(mat_product(old(self).matrix@, other.matrix@)),
            ok ==> final(self).wf(),
            ok ==> final(self).perm@ == compose(old(self).perm@, other.perm@),
            ok ==> final(self).matrix@ == mat_product(old(self).matrix@, other.matrix@),
            ok ==> final(self).id == (if other.id == Some(0u32) {
                old(self).id
            } else {
                None::<u32>
            }),
            !ok ==> *final(self) == *old(self),
    {
        match self.matrix.multiply(&other.matrix) {
            Some(m) => {
                proof {
                    if other.id == Some(0u32) && old(self).id is Some {
                        lemma_canonical_id_rotation_subgroup(old(self).perm@, other.perm@);
                    }
                }
                self.perm.right_multiply_in_place(&other.perm);
                self.matrix = m;
                if other.id != Some(0) {
                    self.id = None;
                }
                true
            },
            None => false,
        }
    }

    /// The cached class identifier, computed and cached on first use.
    pub fn get_id(&mut self) -> (r: u32)
        requires
            old(self).wf(),
        ensures
            final(self).wf(),
            r == canonical_id(old(self).perm@),
            final(self).perm == old(self).perm,
            final(self).matrix == old(self).matrix,
            final(self).id == Some(r),
    {
        match self.id {
            Some(n) => n,
            None => {
                let n = self.perm.repr();
                self.id = Some(n);
                n
            },
        }
    }

    /// Rotate the element in place until its permutation is the
    /// distinguished representative of its class — the member whose rank
    /// equals the class identifier.  At most three rotations are needed,
    /// because the identifier is attained within the four-member class.
    pub fn make_repr(&mut self)
        requires
            old(self).wf(),
        ensures
            final(self).wf(),
            canonical_id(final(self).perm@) == canonical_id(old(self).perm@),
            rank_of(final(self).perm@) == canonical_id(old(self).perm@),
            final(self).id == Some(canonical_id(old(self).perm@) as u32),
            exists|k: nat|
                k < 4 && final(self).perm@ == rot_power(old(self).perm@, k) && final(self).matrix@
                    == mat_rot_power(old(self).matrix@, k),
    {
        proof {
            lemma_rank_bound(old(self).perm@);
            lemma_canonical_id_is_min(old(self).perm@);
        }
        let target = self.get_id();
        let rot = GroupElt::rotation();
        let mut k: usize = 0;
        loop
            invariant
                0 <= k < 4,
                old(self).wf(),
                self.wf(),
                rot.wf(),
                rot.perm@ == rotation_seq(),
                rot.matrix@ == mat_rotation_spec(),
                rot.id == Some(0u32),
                target == canonical_id(old(self).perm@),
                self.id == Some(target),
                self.perm@ == rot_power(old(self).perm@, k as nat),
                self.matrix@ == mat_rot_power(old(self).matrix@, k as nat),
                canonical_id(self.perm@) == target,
                exists|m: nat|
                    k <= m < 4 && rank_of(#[trigger] rot_power(old(self).perm@, m)) == target,
            ensures
                rank_of(self.perm@) == target,
                self.wf(),
                self.id == Some(target),
                exists|k: nat|
                    k < 4 && self.perm@ == rot_power(old(self).perm@, k) && self.matrix@
                        == mat_rot_power(old(self).matrix@, k),
            decreases 4 - k,
        {
            let r = self.perm.to_int();
            if r == target {
                break;
            }
            proof {
                lemma_rotation_keeps_bounds(self.matrix@);
                lemma_canonical_id_rot_power(old(self).perm@, (k + 1) as nat);
                let m = choose|m: nat|
                    k <= m < 4 && rank_of(#[trigger] rot_power(old(self).perm@, m)) == target;
                assert(m > k) by {
                    assert(rank_of(rot_power(old(self).perm@, k as nat)) != target);
                }
            }
            let ok = self.right_multiply_in_place(&rot);
            proof {
                assert(ok);
            }
            k = k + 1;
        }
    }

    /// A copy that carries the address but not the pose: same permutation,
    /// same cached identifier, matrix reset to the identity.
    pub fn permute_only(&self) -> (r: GroupElt)
        requires
            self.wf(),
        ensures
            r.wf(),
            r.perm == self.perm,
            r.matrix@ == mat_identity_spec(),
            r.id == self.id,
    {
        GroupElt { perm: self.perm, matrix: Mat4::identity(), id: self.id }
    }

    /// The exact matrix of this element.
    pub fn get_matrix(&self) -> (r: Mat4)
        ensures
            r == self.matrix,
    {
        self.matrix
    }
}

} // verus!
