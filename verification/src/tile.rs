//! A single fundamental-domain patch of the tiling.
//!
//! A tile is addressed by a group element: the permutation names the tile's
//! rotation class and the matrix places the patch in the current frame.  A
//! tile also carries the immutable geometry chosen for its class.  Distance
//! measurement is the caller's business; neighbor discovery takes the
//! outcome of the four corner-distance comparisons as plain booleans and
//! performs the group bookkeeping exactly.

use vstd::prelude::*;

verus! {

use vstd::slice::slice_index_get;

use crate::group::{lemma_mat_rot_power_four, mat_rot_power, GroupElt};
use crate::mapdata::{get_map_data, TILE_INDICES, TILE_VERTICES};
use crate::matrix::{mat_bounded, mat_product, mat_translation_spec, Mat4};
use crate::permutation::{
    canonical_id, compose, lemma_rot_power_four, rank_of, rot_power, translation_seq,
};

/// The class identifier of the neighbor reached by `k` rotations followed
/// by one translation.
pub open spec fn neighbor_class(p: Seq<usize>, k: nat) -> nat {
    canonical_id(compose(rot_power(p, k), translation_seq()))
}

/// No identifier occurs twice.
pub open spec fn distinct_ids(s: Seq<u32>) -> bool {
    forall|i: int, j: int| 0 <= i < j < s.len() ==> s[i] != s[j]
}

/// The identifiers spawned by the first `n` edge verdicts: edge `k`
/// proposes the class of `p` rotated `k` times and translated once, and the
/// proposal is kept when the verdict for edge `k` is positive and the class
/// is neither already present nor already proposed.
pub open spec fn spawned_ids(p: Seq<usize>, edges: Seq<bool>, seen: Seq<u32>, n: nat) -> Seq<u32>
    decreases n,
{
    if n == 0 {
        Seq::empty()
    } else {
        let prev = spawned_ids(p, edges, seen, (n - 1) as nat);
        let cand = neighbor_class(p, (n - 1) as nat) as u32;
        if edges[n - 1] && !seen.contains(cand) && !prev.contains(cand) {
            prev.push(cand)
        } else {
            prev
        }
    }
}

/// Every spawned identifier is fresh — absent from `seen` — and the
/// spawned identifiers are pairwise distinct.
pub proof fn lemma_spawned_ids_fresh(p: Seq<usize>, edges: Seq<bool>, seen: Seq<u32>, n: nat)
    ensures
        forall|x: u32| spawned_ids(p, edges, seen, n).contains(x) ==> !seen.contains(x),
        distinct_ids(spawned_ids(p, edges, seen, n)),
    decreases n,
{
    if n > 0 {
        lemma_spawned_ids_fresh(p, edges, seen, (n - 1) as nat);
        let prev = spawned_ids(p, edges, seen, (n - 1) as nat);
        let cur = spawned_ids(p, edges, seen, n);
        let cand = neighbor_class(p, (n - 1) as nat) as u32;
        if edges[n - 1] && !seen.contains(cand) && !prev.contains(cand) {
            assert forall|x: u32| cur.contains(x) implies !seen.contains(x) by {
                let i = choose|i: int| 0 <= i < cur.len() && cur[i] == x;
                if i < prev.len() {
                    assert(prev.contains(x));
                }
            }
            assert forall|i: int, j: int| 0 <= i < j < cur.len() implies cur[i] != cur[j] by {
                if j == cur.len() - 1 {
                    assert(prev.contains(cur[i]));
                }
            }
        }
    }
}

/// For every positive verdict among the four, the exact matrix of the
/// proposed neighbor stays inside the representable entry range.
pub open spec fn edges_in_range(mat: Seq<(int, int)>, edges: Seq<bool>) -> bool {
    forall|k: nat|
        k < 4 && edges[k as int] ==> mat_bounded(
            mat_product(#[trigger] mat_rot_power(mat, k), mat_translation_spec()),
        )
}

/// The matrices of all four translated neighbors stay inside the
/// representable entry range.
pub open spec fn translations_in_range(mat: Seq<(int, int)>) -> bool {
    forall|k: nat|
        k < 4 ==> mat_bounded(
            mat_product(#[trigger] mat_rot_power(mat, k), mat_translation_spec()),
        )
}

/// The address `(p, m)` is the neighbor of the element
/// `(code_perm, code_mat)` across some edge `i`, normalized by some
/// number `k` of rotations.
pub open spec fn is_neighbor_address(
    code_perm: Seq<usize>,
    code_mat: Seq<(int, int)>,
    p: Seq<usize>,
    m: Seq<(int, int)>,
) -> bool {
    exists|i: nat, k: nat|
        i < 4 && k < 4 && p == rot_power(
            compose(rot_power(code_perm, i), translation_seq()),
            k,
        ) && m == mat_rot_power(
            mat_product(mat_rot_power(code_mat, i), mat_translation_spec()),
            k,
        )
}

/// `t` addresses the neighbor of the element `(code_perm, code_mat)`
/// across some edge `i`, normalized by some number `k` of rotations.
pub open spec fn is_neighbor_tile(
    code_perm: Seq<usize>,
    code_mat: Seq<(int, int)>,
    t: Tile,
) -> bool {
    is_neighbor_address(code_perm, code_mat, t.code.perm@, t.code.matrix@)
}

/// `x` occurs in the slice of identifiers.
pub fn contains_code(codes: &[u32], x: u32) -> (r: bool)
    ensures
        r == codes@.contains(x),
{
    let n = codes.len();
    for i in 0..n
        invariant
            n == codes@.len(),
            forall|j: int| 0 <= j < i ==> codes@[j] != x,
    {
        if *slice_index_get(codes, i) == x {
            return true;
        }
    }
    proof {
        if codes@.contains(x) {
            let j = choose|j: int| 0 <= j < codes@.len() && codes@[j] == x;
            assert(codes@[j] != x);
        }
    }
    false
}

/// A fundamental-domain patch: its address and its geometry.
#[derive(Clone, Copy)]
pub struct Tile {
    pub code: GroupElt,
    pub vertices: &'static [u8],
    pub indices: &'static [u8],
}

impl Tile {
    /// The address is well formed, the identifier is cached, and the
    /// geometry is the class geometry.
    pub open spec fn wf(self) -> bool {
        &&& self.code.wf()
        &&& self.code.id is Some
        &&& self.vertices@ == TILE_VERTICES@
        &&& self.indices@ == TILE_INDICES@
    }

    /// The cached class identifier.
    pub open spec fn spec_id(self) -> u32 {
        self.code.id.unwrap()
    }

    /// A tile for the class of `code`, carrying the class geometry, with
    /// the address normalized to the distinguished representative of the
    /// class.
    pub fn new(code: GroupElt) -> (r: Tile)
        requires
            code.wf(),
        ensures
            r.wf(),
            canonical_id(r.code.perm@) == canonical_id(code.perm@),
            rank_of(r.code.perm@) == canonical_id(code.perm@),
            r.spec_id() == canonical_id(code.perm@),
            exists|k: nat|
                k < 4 && r.code.perm@ == rot_power(code.perm@, k) && r.code.matrix@
                    == mat_rot_power(code.matrix@, k),
    {
        let mut code = code;
        let id = code.get_id();
        let (vertices, indices) = get_map_data(id);
        code.make_repr();
        Tile { code, vertices, indices }
    }

    /// Apply the four edge verdicts: for each positive verdict, propose the
    /// neighbor across that edge and materialize it unless its class is
    /// already present among `existing_codes` or among this call's own
    /// proposals.  Edge `i` is tested with the address rotated `i` times;
    /// four rotations bring the working copy back, so the tile itself is
    /// read only.  Returns the new tiles with their identifiers, or `None`
    /// if some proposed neighbor's exact matrix would leave the
    /// representable range.
    #[verifier::rlimit(100)]
    pub fn update_neighbors(&self, edges: &[bool; 4], existing_codes: &[u32]) -> (r: Option<
        (Vec<Tile>, Vec<u32>),
    >)
        requires
            self.wf(),
        ensures
            r is Some <==> edges_in_range(self.code.matrix@, edges@),
            r matches Some(t) ==> t.1@ == spawned_ids(
                self.code.perm@,
                edges@,
                existing_codes@,
                4,
            ),
            r matches Some(t) ==> t.0@.len() == t.1@.len(),
            r matches Some(t) ==> forall|j: int|
                0 <= j < t.0@.len() ==> (#[trigger] t.0@[j]).wf() && t.0@[j].spec_id() == t.1@[j]
                    && rank_of(t.0@[j].code.perm@) == t.1@[j] && is_neighbor_tile(
                    self.code.perm@,
                    self.code.matrix@,
                    t.0@[j],
                ),
    {
        let rot = GroupElt::rotation();
        let trans = GroupElt::translation();
        let mut cur = self.code;
        let mut out_tiles: Vec<Tile> = Vec::new();
        let mut out_ids: Vec<u32> = Vec::new();
        let mut failed = false;
        for i in 0..4usize
            invariant
                self.wf(),
                rot.wf(),
                rot.perm@ == crate::permutation::rotation_seq(),
                rot.matrix@ == crate::matrix::mat_rotation_spec(),
                rot.id == Some(0u32),
                trans.wf(),
                trans.perm@ == translation_seq(),
                trans.matrix@ == mat_translation_spec(),
                cur.wf(),
                cur.perm@ == rot_power(self.code.perm@, i as nat),
                cur.matrix@ == mat_rot_power(self.code.matrix@, i as nat),
                !failed ==> out_ids@ == spawned_ids(
                    self.code.perm@,
                    edges@,
                    existing_codes@,
                    i as nat,
                ),
                !failed ==> out_tiles@.len() == out_ids@.len(),
                !failed ==> forall|j: int|
                    0 <= j < out_tiles@.len() ==> (#[trigger] out_tiles@[j]).wf()
                        && out_tiles@[j].spec_id() == out_ids@[j] && rank_of(
                        out_tiles@[j].code.perm@,
                    ) == out_ids@[j] && is_neighbor_tile(
                        self.code.perm@,
                        self.code.matrix@,
                        out_tiles@[j],
                    ),
                !failed ==> forall|k: nat|
                    k < i as nat && edges@[k as int] ==> mat_bounded(
                        mat_product(
                            #[trigger] mat_rot_power(self.code.matrix@, k),
                            mat_translation_spec(),
                        ),
                    ),
                failed ==> !edges_in_range(self.code.matrix@, edges@),
        {
            if edges[i] && !failed {
                match cur.multiply(&trans) {
                    Some(nc) => {
                        let mut nc = nc;
                        let nid = nc.get_id();
                        if !contains_code(existing_codes, nid) && !contains_code(
                            out_ids.as_slice(),
                            nid,
                        ) {
                            let t = Tile::new(nc);
                            proof {
                                let ii: nat = i as nat;
                                let kk = choose|k: nat|
                                    k < 4 && t.code.perm@ == rot_power(nc.perm@, k)
                                        && t.code.matrix@ == mat_rot_power(nc.matrix@, k);
                                assert(t.code.perm@ == rot_power(
                                    compose(rot_power(self.code.perm@, ii), translation_seq()),
                                    kk,
                                ));
                                assert(t.code.matrix@ == mat_rot_power(
                                    mat_product(
                                        mat_rot_power(self.code.matrix@, ii),
                                        mat_translation_spec(),
                                    ),
                                    kk,
                                ));
                                assert(is_neighbor_tile(self.code.perm@, self.code.matrix@, t));
                            }
                            out_tiles.push(t);
                            out_ids.push(nid);
                        }
                    },
                    None => {
                        failed = true;
                    },
                }
            }
            let ok = cur.right_multiply_in_place(&rot);
            proof {
                crate::matrix::lemma_rotation_keeps_bounds(
                    mat_rot_power(self.code.matrix@, i as nat),
                );
                assert(ok);
            }
        }
        if failed {
            None
        } else {
            Some((out_tiles, out_ids))
        }
    }

    /// Reassign the tile's address to `code` and return the four
    /// translation-neighbor addresses reachable from it, one per rotation
    /// step, each normalized to its class representative.  `None` when one
    /// of those addresses' exact matrices would leave the representable
    /// range; the reassignment to `code` stands either way.
    #[verifier::rlimit(100)]
    pub fn move_to(&mut self, code: GroupElt) -> (r: Option<Vec<GroupElt>>)
        requires
            old(self).wf(),
            code.wf(),
            code.id is Some,
        ensures
            final(self).wf(),
            final(self).code.perm@ == code.perm@,
            final(self).code.matrix@ == code.matrix@,
            final(self).code.id == code.id,
            final(self).vertices == old(self).vertices,
            final(self).indices == old(self).indices,
            r is Some <==> translations_in_range(code.matrix@),
            r matches Some(v) ==> v@.len() == 4 && forall|k: int|
                0 <= k < 4 ==> (#[trigger] v@[k]).wf() && v@[k].id == Some(
                    neighbor_class(code.perm@, k as nat) as u32,
                ) && rank_of(v@[k].perm@) == neighbor_class(code.perm@, k as nat) && exists|j: nat|
                    j < 4 && v@[k].perm@ == #[trigger] rot_power(
                        compose(rot_power(code.perm@, k as nat), translation_seq()),
                        j,
                    ) && v@[k].matrix@ == mat_rot_power(
                        mat_product(
                            mat_rot_power(code.matrix@, k as nat),
                            mat_translation_spec(),
                        ),
                        j,
                    ),
    {
        proof {
            crate::permutation::lemma_rank_bound(code.perm@);
        }
        self.code = code;
        let rot = GroupElt::rotation();
        let trans = GroupElt::translation();
        let mut out: Vec<GroupElt> = Vec::new();
        let mut failed = false;
        for k in 0..4usize
            invariant
                code.wf(),
                code.id is Some,
                self.wf(),
                old(self).wf(),
                rot.wf(),
                rot.perm@ == crate::permutation::rotation_seq(),
                rot.matrix@ == crate::matrix::mat_rotation_spec(),
                rot.id == Some(0u32),
                trans.wf(),
                trans.perm@ == translation_seq(),
                trans.matrix@ == mat_translation_spec(),
                self.code.perm@ == rot_power(code.perm@, k as nat),
                self.code.matrix@ == mat_rot_power(code.matrix@, k as nat),
                self.code.id == code.id,
                self.vertices == old(self).vertices,
                self.indices == old(self).indices,
                !failed ==> out@.len() == k,
                !failed ==> forall|j: int|
                    0 <= j < k ==> (#[trigger] out@[j]).wf() && out@[j].id == Some(
                        neighbor_class(code.perm@, j as nat) as u32,
                    ) && rank_of(out@[j].perm@) == neighbor_class(code.perm@, j as nat) && exists|
                        jj: nat,
                    |
                        jj < 4 && out@[j].perm@ == #[trigger] rot_power(
                            compose(rot_power(code.perm@, j as nat), translation_seq()),
                            jj,
                        ) && out@[j].matrix@ == mat_rot_power(
                            mat_product(
                                mat_rot_power(code.matrix@, j as nat),
                                mat_translation_spec(),
                            ),
                            jj,
                        ),
                !failed ==> forall|j: nat|
                    j < k as nat ==> mat_bounded(
                        mat_product(
                            #[trigger] mat_rot_power(code.matrix@, j),
                            mat_translation_spec(),
                        ),
                    ),
                failed ==> !translations_in_range(code.matrix@),
        {
            if !failed {
                match self.code.multiply(&trans) {
                    Some(nc) => {
                        let mut nc = nc;
                        proof {
                            crate::permutation::lemma_rank_bound(nc.perm@);
                        }
                        nc.make_repr();
                        out.push(nc);
                    },
                    None => {
                        failed = true;
                    },
                }
            }
            let ok = self.code.right_multiply_in_place(&rot);
            proof {
                crate::matrix::lemma_rotation_keeps_bounds(
                    mat_rot_power(code.matrix@, k as nat),
                );
                assert(ok);
            }
        }
        proof {
            lemma_rot_power_four(code.perm@);
            lemma_mat_rot_power_four(code.matrix@);
        }
        if failed {
            None
        } else {
            Some(out)
        }
    }

    /// The address alone: same permutation and identifier, matrix reset to
    /// the identity — the form used to seed the relabeling pass.
    pub fn centered_code(&self) -> (r: GroupElt)
        requires
            self.wf(),
        ensures
            r.wf(),
            r.perm == self.code.perm,
            r.matrix@ == crate::matrix::mat_identity_spec(),
            r.id == self.code.id,
    {
        self.code.permute_only()
    }

    /// The tile's class identifier.
    pub fn get_code(&mut self) -> (r: u32)
        requires
            old(self).wf(),
        ensures
            *final(self) == *old(self),
            r == old(self).spec_id(),
            r == canonical_id(old(self).code.perm@),
    {
        self.code.get_id()
    }

    /// The tile's exact placement matrix.
    pub fn get_mat(&self) -> (r: Mat4)
        ensures
            r == self.code.matrix,
    {
        self.code.get_matrix()
    }

    /// The vertex records of the tile's geometry.
    pub fn get_vertices(&self) -> (r: &[u8])
        ensures
            r@ == self.vertices@,
    {
        self.vertices
    }

    /// The index records of the tile's geometry.
    pub fn get_indices(&self) -> (r: &[u8])
        ensures
            r@ == self.indices@,
    {
        self.indices
    }

    /// How many 32-bit index records the tile's geometry holds.
    pub fn get_size(&self) -> (r: u32)
        requires
            self.wf(),
        ensures
            r == self.indices@.len() / 4,
    {
        (self.indices.len() / 4) as u32
    }
}

} // verus!
