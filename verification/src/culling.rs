//! The exposure filter: which occupied blocks have at least one face open.
//!
//! Membership of a neighbor is decided by a hash lookup over the packed
//! 64-bit words, so one pass over the occupied collection runs in expected
//! O(N) time.

use std::collections::HashSet;

use vstd::prelude::*;

use crate::pos::{in_domain, lemma_no_alias, lemma_packed_injective, BlockPos};

verus! {

broadcast use vstd::std_specs::hash::group_hash_axioms;

/// The set of logical `(x, y, z)` triples held by a collection of coordinates.
pub open spec fn occupied_triples(blocks: Seq<BlockPos>) -> Set<(int, int, int)> {
    blocks.map_values(|p: BlockPos| p@).to_set()
}

/// Whether every one of the six face neighbors of `t` lies inside the domain
/// and is occupied.
pub open spec fn all_neighbors_present(t: (int, int, int), occ: Set<(int, int, int)>) -> bool {
    &&& in_domain(t.0, t.1 + 1, t.2) && occ.contains((t.0, t.1 + 1, t.2))
    &&& in_domain(t.0, t.1 - 1, t.2) && occ.contains((t.0, t.1 - 1, t.2))
    &&& in_domain(t.0 + 1, t.1, t.2) && occ.contains((t.0 + 1, t.1, t.2))
    &&& in_domain(t.0 - 1, t.1, t.2) && occ.contains((t.0 - 1, t.1, t.2))
    &&& in_domain(t.0, t.1, t.2 + 1) && occ.contains((t.0, t.1, t.2 + 1))
    &&& in_domain(t.0, t.1, t.2 - 1) && occ.contains((t.0, t.1, t.2 - 1))
}

/// A block is exposed when at least one face neighbor is absent, either
/// because it falls outside the domain (the world edge) or because it is not
/// occupied.
pub open spec fn is_exposed(t: (int, int, int), occ: Set<(int, int, int)>) -> bool {
    !all_neighbors_present(t, occ)
}

/// A lone occupied coordinate is always exposed: with nothing else occupied,
/// every one of its face neighbors is necessarily absent.
pub proof fn lemma_singleton_exposed(p: BlockPos)
    ensures
        is_exposed(p@, occupied_triples(seq![p])),
{
    let views = seq![p].map_values(|q: BlockPos| q@);
    assert(views[0] == p@);
    if occupied_triples(seq![p]).contains((p@.0, p@.1 + 1, p@.2)) {
        let j = choose|j: int| 0 <= j < views.len() && views[j] == (p@.0, p@.1 + 1, p@.2);
        assert(false);
    }
}

/// The occupied triples of a full cross: a center plus its six face
/// neighbors.
pub open spec fn cross_triples(c: (int, int, int)) -> Set<(int, int, int)> {
    Set::empty().insert(c).insert((c.0, c.1 + 1, c.2)).insert((c.0, c.1 - 1, c.2)).insert(
        (c.0 + 1, c.1, c.2),
    ).insert((c.0 - 1, c.1, c.2)).insert((c.0, c.1, c.2 + 1)).insert((c.0, c.1, c.2 - 1))
}

/// In a full cross whose seven cells all lie inside the domain, the center is
/// interior (all six neighbors present) while each of the six neighbors is
/// exposed: the filter keeps exactly the six arms.
pub proof fn lemma_cross(c: (int, int, int))
    requires
        in_domain(c.0, c.1 + 1, c.2),
        in_domain(c.0, c.1 - 1, c.2),
        in_domain(c.0 + 1, c.1, c.2),
        in_domain(c.0 - 1, c.1, c.2),
        in_domain(c.0, c.1, c.2 + 1),
        in_domain(c.0, c.1, c.2 - 1),
    ensures
        !is_exposed(c, cross_triples(c)),
        is_exposed((c.0, c.1 + 1, c.2), cross_triples(c)),
        is_exposed((c.0, c.1 - 1, c.2), cross_triples(c)),
        is_exposed((c.0 + 1, c.1, c.2), cross_triples(c)),
        is_exposed((c.0 - 1, c.1, c.2), cross_triples(c)),
        is_exposed((c.0, c.1, c.2 + 1), cross_triples(c)),
        is_exposed((c.0, c.1, c.2 - 1), cross_triples(c)),
{
    assert(!cross_triples(c).contains((c.0, c.1 + 2, c.2)));
    assert(!cross_triples(c).contains((c.0, c.1 - 2, c.2)));
    assert(!cross_triples(c).contains((c.0 + 2, c.1, c.2)));
    assert(!cross_triples(c).contains((c.0 - 2, c.1, c.2)));
    assert(!cross_triples(c).contains((c.0, c.1, c.2 + 2)));
    assert(!cross_triples(c).contains((c.0, c.1, c.2 - 2)));
}

/// A packed word occurs among the packed words of `blocks` exactly when its
/// coordinate's triple occurs among the occupied triples.
proof fn lemma_key_lookup(blocks: Seq<BlockPos>, keys: Set<u64>, n: BlockPos)
    requires
        forall|k: u64| #[trigger] keys.contains(k) <==> exists|j: int|
            0 <= j < blocks.len() && blocks[j].packed() == k,
    ensures
        keys.contains(n.packed()) <==> occupied_triples(blocks).contains(n@),
{
    let views = blocks.map_values(|p: BlockPos| p@);
    if keys.contains(n.packed()) {
        let j = choose|j: int| 0 <= j < blocks.len() && blocks[j].packed() == n.packed();
        lemma_packed_injective(blocks[j], n);
        assert(blocks[j] == n);
        assert(views[j] == n@);
        assert(views.contains(n@));
    }
    if occupied_triples(blocks).contains(n@) {
        let j = choose|j: int| 0 <= j < views.len() && views[j] == n@;
        lemma_no_alias(blocks[j], n);
        assert(blocks[j].packed() == n.packed());
    }
}

/// Hash lookup for one derived neighbor `n` of some block, where `t` is the
/// triple the neighbor would have: returns whether `t` is inside the domain
/// and occupied.
fn neighbor_occupied(
    n: Option<BlockPos>,
    keys: &HashSet<u64>,
    Ghost(blocks): Ghost<Seq<BlockPos>>,
    Ghost(t): Ghost<(int, int, int)>,
) -> (r: bool)
    requires
        forall|k: u64| #[trigger] keys@.contains(k) <==> exists|j: int|
            0 <= j < blocks.len() && blocks[j].packed() == k,
        n is Some <==> in_domain(t.0, t.1, t.2),
        n matches Some(q) ==> q@ == t,
    ensures
        r <==> in_domain(t.0, t.1, t.2) && occupied_triples(blocks).contains(t),
{
    match n {
        Some(q) => {
            let k = q.packed();
            let res = keys.contains(&k);
            proof {
                lemma_key_lookup(blocks, keys@, q);
            }
            res
        },
        None => false,
    }
}

/// Returns exactly the members of `full_blocks` that are exposed: those with
/// at least one of their six face neighbors absent from the collection or
/// outside the domain. Interior members, with all six neighbors in the domain
/// and occupied, are left out. The input is taken duplicate-free and the
/// result repeats no member; no order is promised of it.
pub fn exposed(full_blocks: Vec<BlockPos>) -> (r: Vec<BlockPos>)
    requires
        full_blocks@.no_duplicates(),
    ensures
        r@.no_duplicates(),
        r@.len() <= full_blocks@.len(),
        forall|p: BlockPos| #[trigger] r@.contains(p) <==> full_blocks@.contains(p) && is_exposed(
            p@,
            occupied_triples(full_blocks@),
        ),
{
    let ghost occ = occupied_triples(full_blocks@);
    let mut keys: HashSet<u64> = HashSet::new();
    let mut i: usize = 0;
    while i < full_blocks.len()
        invariant
            i <= full_blocks@.len(),
            forall|k: u64| #[trigger] keys@.contains(k) <==> exists|j: int|
                0 <= j < i && full_blocks@[j].packed() == k,
        decreases full_blocks@.len() - i,
    {
        let p = full_blocks[i];
        let ghost keys0 = keys@;
        keys.insert(p.packed());
        proof {
            assert forall|k: u64| #[trigger] keys@.contains(k) implies exists|j: int|
                0 <= j < i + 1 && full_blocks@[j].packed() == k by {
                if k == p.packed() {
                    assert(full_blocks@[i as int].packed() == k);
                } else {
                    assert(keys0.contains(k));
                }
            }
            assert forall|k: u64| (exists|j: int|
                0 <= j < i + 1 && full_blocks@[j].packed() == k) implies #[trigger] keys@.contains(
                k,
            ) by {
                let j = choose|j: int| 0 <= j < i + 1 && full_blocks@[j].packed() == k;
                if j < i {
                    assert(keys0.contains(k));
                }
            }
        }
        i += 1;
    }
    let mut out: Vec<BlockPos> = Vec::new();
    let mut i: usize = 0;
    while i < full_blocks.len()
        invariant
            i <= full_blocks@.len(),
            full_blocks@.no_duplicates(),
            occ == occupied_triples(full_blocks@),
            forall|k: u64| #[trigger] keys@.contains(k) <==> exists|j: int|
                0 <= j < full_blocks@.len() && full_blocks@[j].packed() == k,
            out@.len() <= i,
            out@.no_duplicates(),
            forall|p: BlockPos| #[trigger] out@.contains(p) <==> exists|j: int|
                0 <= j < i && full_blocks@[j] == p && is_exposed(p@, occ),
        decreases full_blocks@.len() - i,
    {
        let p = full_blocks[i];
        let covered = neighbor_occupied(
            p.up(),
            &keys,
            Ghost(full_blocks@),
            Ghost((p@.0, p@.1 + 1, p@.2)),
        ) && neighbor_occupied(
            p.down(),
            &keys,
            Ghost(full_blocks@),
            Ghost((p@.0, p@.1 - 1, p@.2)),
        ) && neighbor_occupied(
            p.east(),
            &keys,
            Ghost(full_blocks@),
            Ghost((p@.0 + 1, p@.1, p@.2)),
        ) && neighbor_occupied(
            p.west(),
            &keys,
            Ghost(full_blocks@),
            Ghost((p@.0 - 1, p@.1, p@.2)),
        ) && neighbor_occupied(
            p.south(),
            &keys,
            Ghost(full_blocks@),
            Ghost((p@.0, p@.1, p@.2 + 1)),
        ) && neighbor_occupied(
            p.north(),
            &keys,
            Ghost(full_blocks@),
            Ghost((p@.0, p@.1, p@.2 - 1)),
        );
        assert(covered == all_neighbors_present(p@, occ));
        if !covered {
            let ghost out0 = out@;
            out.push(p);
            proof {
                assert(!out0.contains(p)) by {
                    if out0.contains(p) {
                        let j = choose|j: int| 0 <= j < i && full_blocks@[j] == p && is_exposed(
                            p@,
                            occ,
                        );
                        assert(full_blocks@[j] == full_blocks@[i as int]);
                    }
                }
                assert forall|a: int, b: int| 0 <= a < b < out@.len() implies out@[a] != out@[b] by {
                    if b < out0.len() {
                        assert(out0[a] != out0[b]);
                    } else {
                        assert(out@[b] == p);
                        if out0[a] == p {
                            assert(out0.contains(p));
                        }
                    }
                }
                assert forall|q: BlockPos| #[trigger] out@.contains(q) implies exists|j: int|
                    0 <= j < i + 1 && full_blocks@[j] == q && is_exposed(q@, occ) by {
                    let idx = choose|idx: int| 0 <= idx < out@.len() && out@[idx] == q;
                    if idx < out0.len() {
                        assert(out0[idx] == q);
                        assert(out0.contains(q));
                    } else {
                        assert(q == p);
                        assert(full_blocks@[i as int] == q);
                    }
                }
                assert forall|q: BlockPos| (exists|j: int|
                    0 <= j < i + 1 && full_blocks@[j] == q && is_exposed(q@, occ))
                    implies #[trigger] out@.contains(q) by {
                    let j = choose|j: int| 0 <= j < i + 1 && full_blocks@[j] == q && is_exposed(
                        q@,
                        occ,
                    );
                    if j < i {
                        assert(out0.contains(q));
                        let idx = choose|idx: int| 0 <= idx < out0.len() && out0[idx] == q;
                        assert(out@[idx] == q);
                    } else {
                        assert(out@[out0.len() as int] == q);
                    }
                }
            }
        } else {
            proof {
                assert forall|q: BlockPos| #[trigger] out@.contains(q) implies exists|j: int|
                    0 <= j < i + 1 && full_blocks@[j] == q && is_exposed(q@, occ) by {
                    let j = choose|j: int| 0 <= j < i && full_blocks@[j] == q && is_exposed(q@, occ);
                    assert(0 <= j < i + 1 && full_blocks@[j] == q && is_exposed(q@, occ));
                }
                assert forall|q: BlockPos| (exists|j: int|
                    0 <= j < i + 1 && full_blocks@[j] == q && is_exposed(q@, occ))
                    implies #[trigger] out@.contains(q) by {
                    let j = choose|j: int| 0 <= j < i + 1 && full_blocks@[j] == q && is_exposed(
                        q@,
                        occ,
                    );
                    if j == i {
                        assert(full_blocks@[i as int] == q);
                        assert(q@ == p@);
                        assert(!is_exposed(q@, occ));
                    }
                }
            }
        }
        i += 1;
    }
    proof {
        assert forall|p: BlockPos| #[trigger] out@.contains(p) <==> full_blocks@.contains(p)
            && is_exposed(p@, occupied_triples(full_blocks@)) by {
            if out@.contains(p) {
                let j = choose|j: int| 0 <= j < full_blocks@.len() && full_blocks@[j] == p
                    && is_exposed(p@, occ);
                assert(full_blocks@.contains(p));
            }
            if full_blocks@.contains(p) && is_exposed(p@, occ) {
                let j = choose|j: int| 0 <= j < full_blocks@.len() && full_blocks@[j] == p;
                assert(0 <= j < full_blocks@.len() && full_blocks@[j] == p && is_exposed(p@, occ));
            }
        }
    }
    out
}

} // verus!
