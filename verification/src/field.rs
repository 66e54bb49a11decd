//! The active working set of tiles.
//!
//! A [`TileField`] owns the tiles streamed in around the observer together
//! with a parallel list of their class identifiers; no two active tiles
//! ever share an identifier.  The caller measures hyperbolic distances and
//! reports, per tile, a [`Proximity`] verdict; the field then expands
//! across the near tiles' crossed edges, culls the far tiles, and — when
//! the observer has drifted too far from the origin — relabels the whole
//! set relative to the tile the caller found nearest.

use vstd::prelude::*;

verus! {

use vstd::slice::slice_index_get;

use crate::group::GroupElt;
use crate::matrix::mat_identity_spec;
use crate::permutation::{compose, identity_seq, rot_power};
use crate::tile::{
    distinct_ids, edges_in_range, is_neighbor_address, is_neighbor_tile, lemma_spawned_ids_fresh,
    neighbor_class, spawned_ids, Tile,
};

/// The caller's verdict on one tile, from the measured hyperbolic
/// distances: close enough to expand across its edges (with the four
/// corner-comparison outcomes), inside the hysteresis band, or far enough
/// to unload.
#[derive(Clone, Copy)]
pub enum Proximity {
    Near { edges: [bool; 4] },
    Middle,
    Far,
}

/// The identifiers that the first `n` verdicts spawn, each tile's
/// proposals deduplicated against everything already present or spawned.
pub open spec fn grown_codes(
    perms: Seq<Seq<usize>>,
    prox: Seq<Proximity>,
    seen: Seq<u32>,
    n: nat,
) -> Seq<u32>
    decreases n,
{
    if n == 0 {
        seen
    } else {
        let before = grown_codes(perms, prox, seen, (n - 1) as nat);
        match prox[n - 1] {
            Proximity::Near { edges } => before + spawned_ids(
                perms[n - 1],
                edges@,
                before,
                4,
            ),
            _ => before,
        }
    }
}

/// The identifiers of the tiles the first `n` verdicts mark as far.
pub open spec fn far_ids(codes: Seq<u32>, prox: Seq<Proximity>, n: nat) -> Seq<u32>
    decreases n,
{
    if n == 0 {
        Seq::empty()
    } else {
        let prev = far_ids(codes, prox, (n - 1) as nat);
        if prox[n - 1] is Far {
            prev.push(codes[n - 1])
        } else {
            prev
        }
    }
}

/// The first `n` identifiers of `codes` with those in `listed` removed,
/// in order.
pub open spec fn drop_listed(codes: Seq<u32>, listed: Seq<u32>, n: nat) -> Seq<u32>
    decreases n,
{
    if n == 0 {
        Seq::empty()
    } else {
        let prev = drop_listed(codes, listed, (n - 1) as nat);
        if listed.contains(codes[n - 1]) {
            prev
        } else {
            prev.push(codes[n - 1])
        }
    }
}

/// What remains after dropping listed identifiers from a duplicate-free
/// list: still duplicate-free, and every survivor stood in the list.
pub proof fn lemma_drop_listed_props(codes: Seq<u32>, listed: Seq<u32>, n: nat)
    requires
        n <= codes.len(),
        distinct_ids(codes),
    ensures
        distinct_ids(drop_listed(codes, listed, n)),
        forall|x: u32|
            drop_listed(codes, listed, n).contains(x) ==> codes.contains(x) && !listed.contains(
                x,
            ),
    decreases n,
{
    if n > 0 {
        lemma_drop_listed_props(codes, listed, (n - 1) as nat);
        let prev = drop_listed(codes, listed, (n - 1) as nat);
        let cur = drop_listed(codes, listed, n);
        if !listed.contains(codes[n - 1]) {
            assert forall|x: u32| cur.contains(x) implies codes.contains(x) && !listed.contains(
                x,
            ) by {
                let i = choose|i: int| 0 <= i < cur.len() && cur[i] == x;
                if i < prev.len() {
                    assert(prev.contains(x));
                } else {
                    assert(x == codes[n - 1]);
                }
            }
            assert forall|i: int, j: int| 0 <= i < j < cur.len() implies cur[i] != cur[j] by {
                if j == cur.len() - 1 {
                    assert(prev.contains(cur[i]));
                    lemma_drop_listed_source(codes, listed, (n - 1) as nat);
                    let k = choose|k: int| 0 <= k < n - 1 && codes[k] == cur[i];
                    assert(codes[k] != codes[n - 1]);
                }
            }
        }
    }
}

/// A survivor of `drop_listed` stood among the first `n` entries.
pub proof fn lemma_drop_listed_source(codes: Seq<u32>, listed: Seq<u32>, n: nat)
    requires
        n <= codes.len(),
    ensures
        forall|x: u32|
            drop_listed(codes, listed, n).contains(x) ==> exists|i: int|
                0 <= i < n && codes[i] == x,
    decreases n,
{
    if n > 0 {
        lemma_drop_listed_source(codes, listed, (n - 1) as nat);
        let prev = drop_listed(codes, listed, (n - 1) as nat);
        let cur = drop_listed(codes, listed, n);
        assert forall|x: u32| cur.contains(x) implies exists|i: int|
            0 <= i < n && codes[i] == x by {
            let i = choose|i: int| 0 <= i < cur.len() && cur[i] == x;
            if i < prev.len() {
                assert(prev.contains(x));
            } else {
                assert(cur[i] == codes[n - 1]);
            }
        }
    }
}

/// Concatenating a duplicate-free list with a duplicate-free list of
/// fresh identifiers stays duplicate-free.
pub proof fn lemma_distinct_append(a: Seq<u32>, b: Seq<u32>)
    requires
        distinct_ids(a),
        distinct_ids(b),
        forall|x: u32| b.contains(x) ==> !a.contains(x),
    ensures
        distinct_ids(a + b),
{
    assert forall|i: int, j: int| 0 <= i < j < (a + b).len() implies (a + b)[i] != (a + b)[j] by {
        if i < a.len() && j >= a.len() {
            assert(b.contains((a + b)[j]));
            assert(a.contains((a + b)[i]));
        }
    }
}

/// `t` carries the same address as one of the tiles in `old_tiles`, or it
/// addresses a neighbor of one of them.
pub open spec fn from_old_or_neighbor(old_tiles: Seq<Tile>, t: Tile) -> bool {
    ||| exists|i: int|
        0 <= i < old_tiles.len() && t.code.perm@ == (#[trigger] old_tiles[i]).code.perm@
            && t.code.matrix@ == old_tiles[i].code.matrix@ && t.code.id == old_tiles[i].code.id
    ||| exists|i: int|
        0 <= i < old_tiles.len() && is_neighbor_tile(
            (#[trigger] old_tiles[i]).code.perm@,
            old_tiles[i].code.matrix@,
            t,
        )
}

/// The permutations of a list of tiles.
pub open spec fn perms_of(tiles: Seq<Tile>) -> Seq<Seq<usize>> {
    tiles.map(|i: int, t: Tile| t.code.perm@)
}

/// Some pending worklist entry carries the identifier `nid`.
pub open spec fn pending_has(pending: Seq<GroupElt>, nid: u32) -> bool {
    exists|i: int| 0 <= i < pending.len() && (#[trigger] pending[i]).id == Some(nid)
}

/// During the relabeling walk, the translation neighbor of `p` across
/// edge `k` is settled: it has already been relabeled, it still waits on
/// the worklist, or it was never an active identifier at all.
pub open spec fn neighbor_accounted(
    p: Seq<usize>,
    k: nat,
    done: Seq<u32>,
    pending: Seq<GroupElt>,
    old_ids: Seq<u32>,
) -> bool {
    ||| done.contains(neighbor_class(p, k) as u32)
    ||| pending_has(pending, neighbor_class(p, k) as u32)
    ||| !old_ids.contains(neighbor_class(p, k) as u32)
}

/// The index of `x` in the identifier list, if present.
fn find_code(codes: &Vec<u32>, x: u32) -> (r: Option<usize>)
    ensures
        r matches Some(i) ==> i < codes@.len() && codes@[i as int] == x,
        r is None ==> !codes@.contains(x),
{
    let n = codes.len();
    for i in 0..n
        invariant
            n == codes@.len(),
            forall|j: int| 0 <= j < i ==> codes@[j] != x,
    {
        if *slice_index_get(codes.as_slice(), i) == x {
            return Some(i);
        }
    }
    proof {
        if codes@.contains(x) {
            let j = choose|j: int| 0 <= j < codes@.len() && codes@[j] == x;
            assert(codes@[j] != x);
        }
    }
    None
}

/// A copy of the identifier list.
fn copy_codes(codes: &Vec<u32>) -> (r: Vec<u32>)
    ensures
        r@ == codes@,
{
    let mut out: Vec<u32> = Vec::new();
    let n = codes.len();
    for i in 0..n
        invariant
            n == codes@.len(),
            out@ == codes@.subrange(0, i as int),
    {
        out.push(*slice_index_get(codes.as_slice(), i));
        proof {
            assert(out@ =~= codes@.subrange(0, i as int + 1));
        }
    }
    proof {
        assert(codes@.subrange(0, codes@.len() as int) =~= codes@);
    }
    out
}

/// The active working set: tiles and, in parallel, their identifiers.
pub struct TileField {
    pub tiles: Vec<Tile>,
    pub codes: Vec<u32>,
}

impl TileField {
    /// Tiles and identifiers run in parallel, every tile is well formed
    /// and carries its listed identifier, and no identifier repeats.
    pub open spec fn wf(self) -> bool {
        &&& self.tiles@.len() == self.codes@.len()
        &&& forall|i: int|
            0 <= i < self.tiles@.len() ==> (#[trigger] self.tiles@[i]).wf() && self.tiles@[
                i
            ].spec_id() == self.codes@[i]
        &&& distinct_ids(self.codes@)
    }

    /// The starting set: the single tile of the identity class at the
    /// origin, with identifier 0.
    pub fn new() -> (r: TileField)
        ensures
            r.wf(),
            r.codes@ == seq![0u32],
            r.tiles@.len() == 1,
            r.tiles@[0].code.perm@ == identity_seq(),
            r.tiles@[0].code.matrix@ == mat_identity_spec(),
    {
        let t = Tile::new(GroupElt::identity());
        proof {
            crate::permutation::lemma_generator_ids();
            crate::permutation::lemma_rank_zero_iff_identity(t.code.perm@);
            assert(t.code.perm@ == identity_seq());
            let k = choose|k: nat|
                k < 4 && t.code.perm@ == crate::permutation::rot_power(identity_seq(), k)
                    && t.code.matrix@ == crate::group::mat_rot_power(mat_identity_spec(), k);
            reveal_with_fuel(crate::permutation::rot_power, 5);
            crate::permutation::lemma_compose_identity_left(crate::permutation::rotation_seq());
            if k != 0 {
                let r1 = crate::permutation::rot_power(identity_seq(), 1);
                assert(r1 == crate::permutation::rotation_seq());
                if k == 1 {
                    assert(t.code.perm@[1] == 2);
                } else if k == 2 {
                    assert(crate::permutation::rot_power(identity_seq(), 2)[3] == 8);
                } else {
                    assert(crate::permutation::rot_power(identity_seq(), 3)[1] == 2);
                }
            }
            assert(k == 0);
        }
        let mut tiles: Vec<Tile> = Vec::new();
        let mut codes: Vec<u32> = Vec::new();
        tiles.push(t);
        codes.push(0);
        proof {
            assert(codes@ =~= seq![0u32]);
        }
        TileField { tiles, codes }
    }

    /// One cull/expand pass over the whole set, from the caller's
    /// per-tile verdicts.  Every near tile's crossed edges propose
    /// neighbors, deduplicated against everything already present or
    /// proposed earlier in the pass; the new tiles are appended after the
    /// scan, and then every tile marked far is removed.  Returns `false`
    /// — and leaves the set unchanged — when a proposed neighbor's exact
    /// matrix would leave the representable range.
    #[verifier::rlimit(100)]
    pub fn update(&mut self, prox: &Vec<Proximity>) -> (ok: bool)
        requires
            old(self).wf(),
            prox@.len() == old(self).tiles@.len(),
        ensures
            final(self).wf(),
            ok <==> (forall|i: int|
                0 <= i < prox@.len() ==> match prox@[i] {
                    Proximity::Near { edges } => edges_in_range(
                        (#[trigger] old(self).tiles@[i]).code.matrix@,
                        edges@,
                    ),
                    _ => true,
                }),
            ok ==> final(self).codes@ == drop_listed(
                grown_codes(
                    perms_of(old(self).tiles@),
                    prox@,
                    old(self).codes@,
                    prox@.len() as nat,
                ),
                far_ids(old(self).codes@, prox@, prox@.len() as nat),
                grown_codes(
                    perms_of(old(self).tiles@),
                    prox@,
                    old(self).codes@,
                    prox@.len() as nat,
                ).len(),
            ),
            ok ==> forall|j: int|
                0 <= j < final(self).tiles@.len() ==> from_old_or_neighbor(
                    old(self).tiles@,
                    #[trigger] final(self).tiles@[j],
                ),
            !ok ==> final(self).tiles@ == old(self).tiles@ && final(self).codes@ == old(
                self,
            ).codes@,
    {
        let ghost operms = perms_of(old(self).tiles@);
        let n = self.tiles.len();
        let mut all_codes = copy_codes(&self.codes);
        let mut add_tiles: Vec<Tile> = Vec::new();
        let mut remove_ids: Vec<u32> = Vec::new();
        let mut failed = false;
        for i in 0..n
            invariant
                old(self).wf(),
                prox@.len() == n,
                n == old(self).tiles@.len(),
                self.tiles@ == old(self).tiles@,
                self.codes@ == old(self).codes@,
                operms == perms_of(old(self).tiles@),
                remove_ids@ == far_ids(old(self).codes@, prox@, i as nat),
                !failed ==> all_codes@ == grown_codes(operms, prox@, old(self).codes@, i as nat),
                !failed ==> distinct_ids(all_codes@),
                !failed ==> old(self).codes@.is_prefix_of(all_codes@),
                !failed ==> add_tiles@.len() + old(self).codes@.len() == all_codes@.len(),
                !failed ==> forall|j: int|
                    0 <= j < add_tiles@.len() ==> (#[trigger] add_tiles@[j]).wf() && add_tiles@[
                        j
                    ].spec_id() == all_codes@[old(self).codes@.len() + j] && from_old_or_neighbor(
                        old(self).tiles@,
                        add_tiles@[j],
                    ),
                !failed ==> forall|k: int|
                    0 <= k < i ==> match prox@[k] {
                        Proximity::Near { edges } => edges_in_range(
                            (#[trigger] old(self).tiles@[k]).code.matrix@,
                            edges@,
                        ),
                        _ => true,
                    },
                failed ==> !(forall|k: int|
                    0 <= k < prox@.len() ==> match prox@[k] {
                        Proximity::Near { edges } => edges_in_range(
                            (#[trigger] old(self).tiles@[k]).code.matrix@,
                            edges@,
                        ),
                        _ => true,
                    }),
        {
            let verdict = *slice_index_get(prox.as_slice(), i);
            match verdict {
                Proximity::Near { edges } => {
                    if !failed {
                        match self.tiles[i].update_neighbors(&edges, all_codes.as_slice()) {
                            Some(pair) => {
                                let (mut ts, mut ids) = pair;
                                proof {
                                    lemma_spawned_ids_fresh(
                                        old(self).tiles@[i as int].code.perm@,
                                        edges@,
                                        all_codes@,
                                        4,
                                    );
                                    lemma_distinct_append(all_codes@, ids@);
                                    assert(operms[i as int] == old(
                                        self,
                                    ).tiles@[i as int].code.perm@);
                                }
                                let ghost prev_codes = all_codes@;
                                let ghost prev_len = add_tiles@.len();
                                add_tiles.append(&mut ts);
                                all_codes.append(&mut ids);
                                proof {
                                    assert forall|j: int|
                                        0 <= j < add_tiles@.len() implies (#[trigger] add_tiles@[
                                        j
                                    ]).wf() && add_tiles@[j].spec_id() == all_codes@[old(
                                        self,
                                    ).codes@.len() + j] && from_old_or_neighbor(
                                        old(self).tiles@,
                                        add_tiles@[j],
                                    ) by {
                                        if j >= prev_len {
                                            assert(is_neighbor_tile(
                                                old(self).tiles@[i as int].code.perm@,
                                                old(self).tiles@[i as int].code.matrix@,
                                                add_tiles@[j],
                                            ));
                                        }
                                    }
                                }
                            },
                            None => {
                                failed = true;
                            },
                        }
                    }
                },
                Proximity::Far => {
                    remove_ids.push(self.codes[i]);
                },
                Proximity::Middle => {},
            }
        }
        if failed {
            return false;
        }
        let ghost grown = all_codes@;
        self.tiles.append(&mut add_tiles);
        self.codes = all_codes;
        let m = self.tiles.len();
        let mut kept_tiles: Vec<Tile> = Vec::new();
        let mut kept_codes: Vec<u32> = Vec::new();
        for j in 0..m
            invariant
                m == self.tiles@.len(),
                self.codes@.len() == m,
                self.codes@ == grown,
                distinct_ids(grown),
                forall|t: int|
                    0 <= t < m ==> (#[trigger] self.tiles@[t]).wf() && self.tiles@[t].spec_id()
                        == self.codes@[t] && from_old_or_neighbor(
                        old(self).tiles@,
                        self.tiles@[t],
                    ),
                kept_codes@ == drop_listed(grown, remove_ids@, j as nat),
                kept_tiles@.len() == kept_codes@.len(),
                forall|t: int|
                    0 <= t < kept_tiles@.len() ==> (#[trigger] kept_tiles@[t]).wf()
                        && kept_tiles@[t].spec_id() == kept_codes@[t] && from_old_or_neighbor(
                        old(self).tiles@,
                        kept_tiles@[t],
                    ),
        {
            let c = self.codes[j];
            if !crate::tile::contains_code(remove_ids.as_slice(), c) {
                let t = self.tiles[j];
                kept_tiles.push(t);
                kept_codes.push(c);
            }
        }
        proof {
            lemma_drop_listed_props(grown, remove_ids@, grown.len());
        }
        self.tiles = kept_tiles;
        self.codes = kept_codes;
        true
    }

    /// Re-base the whole set on the tile at index `closest`, which the
    /// caller found nearest to the observer.  That tile keeps its
    /// permutation but its matrix becomes the identity — it is the new
    /// origin — and every tile reachable from it through the worklist of
    /// translation neighbors is relabeled relative to it; tiles the walk
    /// never reaches are dropped.  On success the survivors are closed
    /// under translation-neighborhood within the old identifiers — so
    /// every old tile reachable from the new origin survives — and every
    /// survivor beyond the origin carries the normalized
    /// translation-neighbor address of an earlier survivor.  Returns
    /// `false` when a relabeled address's exact matrix would leave the
    /// representable range; the set then keeps all its tiles, the reached
    /// ones already relabeled.
    #[verifier::rlimit(100)]
    pub fn recenter(&mut self, closest: usize) -> (ok: bool)
        requires
            old(self).wf(),
            closest < old(self).tiles@.len(),
        ensures
            final(self).wf(),
            final(self).tiles@.len() >= 1,
            final(self).tiles@[0].code.perm@ == old(self).tiles@[closest as int].code.perm@,
            final(self).tiles@[0].code.matrix@ == mat_identity_spec(),
            final(self).codes@[0] == old(self).codes@[closest as int],
            forall|j: int|
                0 <= j < final(self).codes@.len() ==> old(self).codes@.contains(
                    #[trigger] final(self).codes@[j],
                ),
            final(self).tiles@.len() <= old(self).tiles@.len(),
            ok ==> forall|j: int, k: nat|
                0 <= j < final(self).tiles@.len() && k < 4 && old(self).codes@.contains(
                    (#[trigger] neighbor_class(final(self).tiles@[j].code.perm@, k)) as u32,
                ) ==> final(self).codes@.contains(
                    neighbor_class(final(self).tiles@[j].code.perm@, k) as u32,
                ),
            ok ==> forall|j: int|
                1 <= j < final(self).tiles@.len() ==> exists|i: int|
                    0 <= i < j && is_neighbor_tile(
                        final(self).tiles@[i].code.perm@,
                        final(self).tiles@[i].code.matrix@,
                        #[trigger] final(self).tiles@[j],
                    ),
            !ok ==> final(self).codes@.len() == old(self).codes@.len(),
    {
        let start = self.tiles[closest].centered_code();
        let mut to_move: Vec<GroupElt> = Vec::new();
        to_move.push(start);
        let mut moved: Vec<Tile> = Vec::new();
        let mut moved_codes: Vec<u32> = Vec::new();
        while to_move.len() > 0 && self.tiles.len() > 0
            invariant
                old(self).wf(),
                closest < old(self).tiles@.len(),
                start.wf(),
                start.id == Some(old(self).codes@[closest as int]),
                start.perm == old(self).tiles@[closest as int].code.perm,
                start.matrix@ == mat_identity_spec(),
                self.tiles@.len() == self.codes@.len(),
                moved@.len() == moved_codes@.len(),
                moved@.len() + self.tiles@.len() == old(self).tiles@.len(),
                forall|i: int|
                    0 <= i < self.tiles@.len() ==> (#[trigger] self.tiles@[i]).wf()
                        && self.tiles@[i].spec_id() == self.codes@[i],
                forall|i: int|
                    0 <= i < moved@.len() ==> (#[trigger] moved@[i]).wf() && moved@[i].spec_id()
                        == moved_codes@[i],
                distinct_ids(self.codes@),
                distinct_ids(moved_codes@),
                forall|x: u32| moved_codes@.contains(x) ==> !self.codes@.contains(x),
                forall|i: int|
                    0 <= i < self.codes@.len() ==> old(self).codes@.contains(
                        #[trigger] self.codes@[i],
                    ),
                forall|i: int|
                    0 <= i < moved_codes@.len() ==> old(self).codes@.contains(
                        #[trigger] moved_codes@[i],
                    ),
                forall|x: u32|
                    old(self).codes@.contains(x) ==> self.codes@.contains(x)
                        || moved_codes@.contains(x),
                forall|i: int|
                    0 <= i < to_move@.len() ==> (#[trigger] to_move@[i]).wf() && to_move@[
                        i
                    ].id is Some,
                forall|i: int|
                    0 <= i < to_move@.len() ==> (#[trigger] to_move@[i]) == start || exists|p: int|
                        0 <= p < moved@.len() && is_neighbor_address(
                            moved@[p].code.perm@,
                            moved@[p].code.matrix@,
                            to_move@[i].perm@,
                            to_move@[i].matrix@,
                        ),
                forall|j: int, k: nat|
                    0 <= j < moved@.len() && k < 4 ==> #[trigger] neighbor_accounted(
                        moved@[j].code.perm@,
                        k,
                        moved_codes@,
                        to_move@,
                        old(self).codes@,
                    ),
                forall|j: int|
                    1 <= j < moved@.len() ==> exists|i: int|
                        0 <= i < j && is_neighbor_tile(
                            moved@[i].code.perm@,
                            moved@[i].code.matrix@,
                            #[trigger] moved@[j],
                        ),
                (moved@.len() == 0 && to_move@ == seq![start] && self.tiles@ == old(self).tiles@
                    && self.codes@ == old(self).codes@) || (moved@.len() > 0 && moved@[
                    0
                ].code.perm@ == old(self).tiles@[closest as int].code.perm@ && moved@[
                    0
                ].code.matrix@ == mat_identity_spec() && moved_codes@[0] == old(self).codes@[
                    closest as int
                ]),
            decreases self.tiles@.len() * 5 + to_move@.len(),
        {
            let ghost pre_pending = to_move@;
            let mut next = to_move.pop().unwrap();
            let ghost popped = pre_pending.last();
            let target = next.get_id();
            proof {
                assert(next.perm == popped.perm);
                assert(next.matrix == popped.matrix);
                assert(popped.id == Some(target));
            }
            match find_code(&self.codes, target) {
                Some(i) => {
                    let ghost pre_codes = self.codes@;
                    proof {
                        // The origin seed can only be matched while nothing
                        // has been relabeled yet: afterwards its identifier
                        // already sits among the relabeled ones, which are
                        // disjoint from the remaining ones.
                        if popped == start && moved@.len() > 0 {
                            assert(target == old(self).codes@[closest as int]);
                            assert(moved_codes@.contains(target));
                            assert(self.codes@.contains(target));
                            assert(false);
                        }
                    }
                    let mut tile = self.tiles.swap_remove(i);
                    let code_val = self.codes.swap_remove(i);
                    proof {
                        assert(code_val == target);
                        assert forall|a: int, b: int|
                            0 <= a < b < self.codes@.len() implies self.codes@[a] != self.codes@[
                            b
                        ] by {
                            assert(self.codes@[a] == pre_codes[if a == i {
                                pre_codes.len() - 1
                            } else {
                                a
                            }]);
                            assert(self.codes@[b] == pre_codes[if b == i {
                                pre_codes.len() - 1
                            } else {
                                b
                            }]);
                        }
                        assert forall|x: u32| self.codes@.contains(x) implies pre_codes.contains(
                            x,
                        ) by {
                            let a = choose|a: int| 0 <= a < self.codes@.len() && self.codes@[a]
                                == x;
                            assert(self.codes@[a] == pre_codes[if a == i {
                                pre_codes.len() - 1
                            } else {
                                a
                            }]);
                        }
                        assert(!self.codes@.contains(code_val)) by {
                            if self.codes@.contains(code_val) {
                                let a = choose|a: int|
                                    0 <= a < self.codes@.len() && self.codes@[a] == code_val;
                                assert(self.codes@[a] == pre_codes[if a == i {
                                    pre_codes.len() - 1
                                } else {
                                    a
                                }]);
                            }
                        }
                        // Every removed identifier other than the matched one
                        // keeps a place in the shrunken list.
                        assert forall|x: u32|
                            pre_codes.contains(x) && x != code_val implies self.codes@.contains(
                            x,
                        ) by {
                            let a = choose|a: int| 0 <= a < pre_codes.len() && pre_codes[a] == x;
                            if a == pre_codes.len() - 1 {
                                if a != i {
                                    assert(self.codes@[i as int] == x);
                                }
                            } else if a != i {
                                assert(self.codes@[a] == x);
                            }
                        }
                        if moved@.len() == 0 {
                            assert(i == closest) by {
                                assert(pre_codes[i as int] == pre_codes[closest as int]);
                            }
                        }
                    }
                    let ghost pre_moved = moved_codes@;
                    let ghost pre_moved_tiles = moved@;
                    let relabeled = tile.move_to(next);
                    moved.push(tile);
                    moved_codes.push(code_val);
                    proof {
                        assert(pre_codes[i as int] == code_val);
                        assert(pre_codes.contains(code_val));
                        assert(!pre_moved.contains(code_val));
                        assert(moved_codes@.last() == code_val);
                        assert(moved_codes@.contains(code_val));
                        assert forall|a: int, b: int|
                            0 <= a < b < moved_codes@.len() implies moved_codes@[a]
                            != moved_codes@[b] by {
                            if b == moved_codes@.len() - 1 {
                                assert(pre_moved.contains(moved_codes@[a]));
                            }
                        }
                        assert forall|x: u32|
                            moved_codes@.contains(x) implies !self.codes@.contains(x) by {
                            let a = choose|a: int|
                                0 <= a < moved_codes@.len() && moved_codes@[a] == x;
                            if a < pre_moved.len() {
                                assert(pre_moved.contains(x));
                                assert(!pre_codes.contains(x));
                            } else {
                                assert(x == code_val);
                            }
                        }
                        assert forall|x: u32|
                            old(self).codes@.contains(x) implies self.codes@.contains(x)
                            || moved_codes@.contains(x) by {
                            if pre_codes.contains(x) {
                                if x != code_val {
                                    assert(self.codes@.contains(x));
                                }
                            } else {
                                assert(pre_moved.contains(x));
                                let a = choose|a: int|
                                    0 <= a < pre_moved.len() && pre_moved[a] == x;
                                assert(moved_codes@[a] == x);
                                assert(moved_codes@.contains(x));
                            }
                        }
                    }
                    match relabeled {
                        Some(mut ns) => {
                            let ghost ns_view = ns@;
                            let ghost pre_append = to_move@;
                            to_move.append(&mut ns);
                            proof {
                                let jstar = pre_moved_tiles.len() as int;
                                assert(moved@[jstar] == tile);
                                assert(tile.code.perm@ == next.perm@);
                                assert(tile.code.matrix@ == next.matrix@);
                                // The four fresh worklist entries are the
                                // translation neighbors of the tile just
                                // relabeled.
                                assert forall|q: int|
                                    pre_append.len() <= q
                                        < to_move@.len() implies is_neighbor_address(
                                    moved@[jstar].code.perm@,
                                    moved@[jstar].code.matrix@,
                                    (#[trigger] to_move@[q]).perm@,
                                    to_move@[q].matrix@,
                                ) by {
                                    let k = q - pre_append.len();
                                    assert(to_move@[q] == ns_view[k]);
                                    let jj = choose|jj: nat|
                                        jj < 4 && ns_view[k].perm@ == #[trigger] rot_power(
                                            compose(
                                                rot_power(next.perm@, k as nat),
                                                crate::permutation::translation_seq(),
                                            ),
                                            jj,
                                        ) && ns_view[k].matrix@ == crate::group::mat_rot_power(
                                            crate::matrix::mat_product(
                                                crate::group::mat_rot_power(
                                                    next.matrix@,
                                                    k as nat,
                                                ),
                                                crate::matrix::mat_translation_spec(),
                                            ),
                                            jj,
                                        );
                                }
                                // Worklist provenance: kept entries keep
                                // their parents, fresh entries descend from
                                // the tile just relabeled.
                                assert forall|q: int|
                                    0 <= q < to_move@.len() implies (#[trigger] to_move@[q])
                                        == start || exists|p: int|
                                        0 <= p < moved@.len() && is_neighbor_address(
                                            moved@[p].code.perm@,
                                            moved@[p].code.matrix@,
                                            to_move@[q].perm@,
                                            to_move@[q].matrix@,
                                        ) by {
                                    if q < pre_append.len() {
                                        assert(to_move@[q] == pre_pending[q]);
                                        if pre_pending[q] != start {
                                            let p = choose|p: int|
                                                0 <= p < pre_moved_tiles.len()
                                                    && is_neighbor_address(
                                                    pre_moved_tiles[p].code.perm@,
                                                    pre_moved_tiles[p].code.matrix@,
                                                    (#[trigger] pre_pending[q]).perm@,
                                                    pre_pending[q].matrix@,
                                                );
                                            assert(moved@[p] == pre_moved_tiles[p]);
                                        }
                                    } else {
                                        assert(is_neighbor_address(
                                            moved@[jstar].code.perm@,
                                            moved@[jstar].code.matrix@,
                                            to_move@[q].perm@,
                                            to_move@[q].matrix@,
                                        ));
                                    }
                                }
                                // Provenance of the new survivor: either it
                                // is the seed — then nothing was relabeled
                                // before it — or it is a neighbor address of
                                // an earlier survivor.
                                assert forall|j: int|
                                    1 <= j < moved@.len() implies exists|i2: int|
                                        0 <= i2 < j && is_neighbor_tile(
                                            moved@[i2].code.perm@,
                                            moved@[i2].code.matrix@,
                                            #[trigger] moved@[j],
                                        ) by {
                                    if j < jstar {
                                        assert(moved@[j] == pre_moved_tiles[j]);
                                        let i2 = choose|i2: int|
                                            0 <= i2 < j && is_neighbor_tile(
                                                pre_moved_tiles[i2].code.perm@,
                                                pre_moved_tiles[i2].code.matrix@,
                                                #[trigger] pre_moved_tiles[j],
                                            );
                                        assert(moved@[i2] == pre_moved_tiles[i2]);
                                    } else {
                                        assert(j == jstar);
                                        assert(popped != start);
                                        let p = choose|p: int|
                                            0 <= p < pre_moved_tiles.len() && is_neighbor_address(
                                                pre_moved_tiles[p].code.perm@,
                                                pre_moved_tiles[p].code.matrix@,
                                                popped.perm@,
                                                popped.matrix@,
                                            );
                                        assert(moved@[p] == pre_moved_tiles[p]);
                                        assert(is_neighbor_tile(
                                            moved@[p].code.perm@,
                                            moved@[p].code.matrix@,
                                            moved@[jstar],
                                        ));
                                    }
                                }
                                // Accounting for every relabeled tile's
                                // neighborhood.
                                assert forall|j: int, k: nat|
                                    0 <= j < moved@.len() && k
                                        < 4 implies #[trigger] neighbor_accounted(
                                    moved@[j].code.perm@,
                                    k,
                                    moved_codes@,
                                    to_move@,
                                    old(self).codes@,
                                ) by {
                                    let nid = neighbor_class(moved@[j].code.perm@, k) as u32;
                                    if j < jstar {
                                        assert(moved@[j] == pre_moved_tiles[j]);
                                        assert(neighbor_accounted(
                                            pre_moved_tiles[j].code.perm@,
                                            k,
                                            pre_moved,
                                            pre_pending,
                                            old(self).codes@,
                                        ));
                                        if pre_moved.contains(nid) {
                                            let a = choose|a: int|
                                                0 <= a < pre_moved.len() && pre_moved[a] == nid;
                                            assert(moved_codes@[a] == nid);
                                            assert(moved_codes@.contains(nid));
                                        } else if pending_has(pre_pending, nid) {
                                            let w = choose|w: int|
                                                0 <= w < pre_pending.len() && (
                                                #[trigger] pre_pending[w]).id == Some(nid);
                                            if w < pre_pending.len() - 1 {
                                                assert(to_move@[w] == pre_pending[w]);
                                                assert(pending_has(to_move@, nid));
                                            } else {
                                                assert(pre_pending[w] == popped);
                                                assert(nid == target);
                                                assert(moved_codes@.contains(nid));
                                            }
                                        }
                                    } else {
                                        assert(j == jstar);
                                        assert(moved@[j].code.perm@ == next.perm@);
                                        let q = pre_append.len() as int + k as int;
                                        assert(to_move@[q] == ns_view[k as int]);
                                        assert(ns_view[k as int].id == Some(
                                            neighbor_class(next.perm@, k) as u32,
                                        ));
                                        assert(pending_has(to_move@, nid));
                                    }
                                }
                            }
                        },
                        None => {
                            proof {
                                lemma_distinct_append(moved_codes@, self.codes@);
                            }
                            moved.append(&mut self.tiles);
                            moved_codes.append(&mut self.codes);
                            self.tiles = moved;
                            self.codes = moved_codes;
                            return false;
                        },
                    }
                },
                None => {
                    proof {
                        // The popped identifier is not among the remaining
                        // ones, so if it was ever active it has already been
                        // relabeled; every accounting that pointed at the
                        // popped entry is settled by that.
                        assert forall|q: int|
                            0 <= q < to_move@.len() implies (#[trigger] to_move@[q]) == start
                                || exists|p: int|
                                0 <= p < moved@.len() && is_neighbor_address(
                                    moved@[p].code.perm@,
                                    moved@[p].code.matrix@,
                                    to_move@[q].perm@,
                                    to_move@[q].matrix@,
                                ) by {
                            assert(to_move@[q] == pre_pending[q]);
                        }
                        assert forall|j: int, k: nat|
                            0 <= j < moved@.len() && k < 4 implies #[trigger] neighbor_accounted(
                            moved@[j].code.perm@,
                            k,
                            moved_codes@,
                            to_move@,
                            old(self).codes@,
                        ) by {
                            let nid = neighbor_class(moved@[j].code.perm@, k) as u32;
                            assert(neighbor_accounted(
                                moved@[j].code.perm@,
                                k,
                                moved_codes@,
                                pre_pending,
                                old(self).codes@,
                            ));
                            if !moved_codes@.contains(nid) && old(self).codes@.contains(nid)
                                && pending_has(pre_pending, nid) {
                                let w = choose|w: int|
                                    0 <= w < pre_pending.len() && (#[trigger] pre_pending[w]).id
                                        == Some(nid);
                                if w < pre_pending.len() - 1 {
                                    assert(to_move@[w] == pre_pending[w]);
                                    assert(pending_has(to_move@, nid));
                                } else {
                                    assert(nid == target);
                                    assert(!self.codes@.contains(nid));
                                    assert(self.codes@.contains(nid) || moved_codes@.contains(
                                        nid,
                                    ));
                                    assert(false);
                                }
                            }
                        }
                    }
                },
            }
        }
        proof {
            // The walk is finished: either the worklist is exhausted — every
            // neighbor of a survivor that was an active identifier has been
            // relabeled — or every old tile has been relabeled.
            assert forall|j: int, k: nat|
                0 <= j < moved@.len() && k < 4 && old(self).codes@.contains(
                    (#[trigger] neighbor_class(moved@[j].code.perm@, k)) as u32,
                ) implies moved_codes@.contains(neighbor_class(moved@[j].code.perm@, k) as u32)
                by {
                let nid = neighbor_class(moved@[j].code.perm@, k) as u32;
                if self.tiles@.len() == 0 {
                    assert(self.codes@.len() == 0);
                    assert(!self.codes@.contains(nid));
                    assert(self.codes@.contains(nid) || moved_codes@.contains(nid));
                } else {
                    assert(to_move@.len() == 0);
                    assert(neighbor_accounted(
                        moved@[j].code.perm@,
                        k,
                        moved_codes@,
                        to_move@,
                        old(self).codes@,
                    ));
                    assert(!pending_has(to_move@, nid));
                }
            }
        }
        self.tiles = moved;
        self.codes = moved_codes;
        true
    }
}

} // verus!
