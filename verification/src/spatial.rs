//! Neighbor search: for one agent, the nearest other agents within the
//! pairwise-interaction range, capped at `max_neighbors`.
//!
//! The index is rebuilt from the agents' positions on every query; all
//! comparisons use squared distances, so no square root is taken here.

use vstd::prelude::*;

verus! {

use crate::boid::Boid;
use crate::math::{POS_LIMIT, RANGE_LIMIT};
use crate::vec3::{dist2_s, in_box, vdist2};

/// Squared distance between the positions of agents `i` and `j`.
pub open spec fn nd2(bs: Seq<Boid>, i: int, j: int) -> int {
    dist2_s(bs[i].translation, bs[j].translation)
}

/// Agent `j` is close enough to agent `i` for a pairwise rule to apply.
/// A zero cohesion range disables every pairwise rule.
pub open spec fn in_range_s(bs: Seq<Boid>, i: int, j: int, coh: int) -> bool {
    coh > 0 && nd2(bs, i, j) <= coh * coh
}

/// Every agent's position lies inside the world box.
pub open spec fn positions_boxed(bs: Seq<Boid>) -> bool {
    forall|k: int| 0 <= k < bs.len() ==> in_box(#[trigger] bs[k].translation, POS_LIMIT as int)
}

pub open spec fn distinct_seq(s: Seq<usize>) -> bool {
    forall|k: int, l: int| 0 <= k < l < s.len() ==> s[k] != s[l]
}

/// The neighbors of agent `i`: every other agent within `coh` of `i`,
/// thinned to the `cap` nearest when more are in range. The result never
/// contains `i`, never repeats an agent, and an in-range agent is absent
/// only when the cap was filled by agents at no greater distance.
pub fn nearest_neighbors(boids: &Vec<Boid>, i: usize, coh: i64, cap: usize) -> (ns: Vec<usize>)
    requires
        i < boids@.len(),
        positions_boxed(boids@),
        0 <= coh <= RANGE_LIMIT,
    ensures
        forall|k: int|
            0 <= k < ns@.len() ==> (ns@[k] as int) < boids@.len() && ns@[k] != i && in_range_s(
                boids@,
                i as int,
                #[trigger] ns@[k] as int,
                coh as int,
            ),
        distinct_seq(ns@),
        ns@.len() <= cap,
        ns@.len() <= boids@.len(),
        forall|j: usize|
            (j as int) < boids@.len() && j != i && in_range_s(boids@, i as int, j as int, coh as int)
                && !ns@.contains(j) ==> ns@.len() == cap && (forall|k: int|
                0 <= k < ns@.len() ==> nd2(boids@, i as int, #[trigger] ns@[k] as int) <= nd2(
                    boids@,
                    i as int,
                    j as int,
                )),
        coh == 0 ==> ns@.len() == 0,
{
    let n = boids.len();
    let mut cands: Vec<usize> = Vec::new();
    if coh == 0 {
        return cands;
    }
    proof {
        assert((coh as int) * (coh as int) <= (RANGE_LIMIT as int) * (RANGE_LIMIT as int))
            by (nonlinear_arith)
            requires
                0 <= coh <= RANGE_LIMIT,
        ;
    }
    let limit: u128 = (coh as u128) * (coh as u128);
    let pos_i = boids[i].translation;
    let mut j: usize = 0;
    while j < n
        invariant
            n == boids@.len(),
            i < n,
            0 < coh <= RANGE_LIMIT,
            positions_boxed(boids@),
            limit == (coh as int) * (coh as int),
            pos_i == boids@[i as int].translation,
            j <= n,
            cands@.len() <= j,
            forall|k: int|
                0 <= k < cands@.len() ==> (cands@[k] as int) < j && cands@[k] != i && in_range_s(
                    boids@,
                    i as int,
                    #[trigger] cands@[k] as int,
                    coh as int,
                ),
            forall|k: int, l: int| 0 <= k < l < cands@.len() ==> cands@[k] < cands@[l],
            forall|jj: usize|
                (jj as int) < j && jj != i && in_range_s(boids@, i as int, jj as int, coh as int)
                    ==> cands@.contains(jj),
        decreases n - j,
    {
        if j != i {
            let d2 = vdist2(pos_i, boids[j].translation);
            if d2 <= limit {
                let ghost pre = cands@;
                cands.push(j);
                proof {
                    assert forall|jj: usize|
                        (jj as int) < j + 1 && jj != i && in_range_s(
                            boids@,
                            i as int,
                            jj as int,
                            coh as int,
                        ) implies cands@.contains(jj) by {
                        if (jj as int) < j {
                            assert(pre.contains(jj));
                            let widx = choose|w: int| 0 <= w < pre.len() && pre[w] == jj;
                            assert(cands@[widx] == jj);
                        } else {
                            assert(cands@[cands@.len() - 1] == jj);
                        }
                    }
                }
            }
        }
        j += 1;
    }
    proof {
        assert forall|jj: usize|
            (jj as int) < boids@.len() && jj != i && in_range_s(
                boids@,
                i as int,
                jj as int,
                coh as int,
            ) implies cands@.contains(jj) by {}
    }
    if cands.len() <= cap {
        return cands;
    }
    let ghost cands0 = cands@;
    let mut chosen: Vec<usize> = Vec::new();
    let mut rest = cands;
    let mut it: usize = 0;
    while it < cap
        invariant
            n == boids@.len(),
            i < n,
            0 < coh <= RANGE_LIMIT,
            positions_boxed(boids@),
            pos_i == boids@[i as int].translation,
            it <= cap,
            cap < cands0.len(),
            cands0.len() <= n,
            chosen@.len() == it,
            rest@.len() + it == cands0.len(),
            forall|k: int|
                0 <= k < chosen@.len() ==> (chosen@[k] as int) < n && chosen@[k] != i && in_range_s(
                    boids@,
                    i as int,
                    #[trigger] chosen@[k] as int,
                    coh as int,
                ),
            forall|k: int|
                0 <= k < rest@.len() ==> (rest@[k] as int) < n && rest@[k] != i && in_range_s(
                    boids@,
                    i as int,
                    #[trigger] rest@[k] as int,
                    coh as int,
                ),
            distinct_seq(chosen@),
            distinct_seq(rest@),
            forall|k: int, l: int|
                0 <= k < chosen@.len() && 0 <= l < rest@.len() ==> chosen@[k] != rest@[l],
            forall|x: usize|
                #[trigger] cands0.contains(x) <==> (chosen@.contains(x) || rest@.contains(x)),
            forall|k: int, l: int|
                0 <= k < chosen@.len() && 0 <= l < rest@.len() ==> nd2(
                    boids@,
                    i as int,
                    #[trigger] chosen@[k] as int,
                ) <= nd2(boids@, i as int, #[trigger] rest@[l] as int),
        decreases cap - it,
    {
        let first = rest[0];
        let mut best: usize = 0;
        let mut bd: u128 = vdist2(pos_i, boids[first].translation);
        let mut l: usize = 1;
        while l < rest.len()
            invariant
                n == boids@.len(),
                i < n,
                positions_boxed(boids@),
                pos_i == boids@[i as int].translation,
                forall|k: int|
                    0 <= k < rest@.len() ==> (rest@[k] as int) < n && #[trigger] rest@[k] != i,
                1 <= l <= rest@.len(),
                (best as int) < l,
                bd == nd2(boids@, i as int, rest@[best as int] as int),
                forall|m: int| 0 <= m < l ==> bd <= nd2(boids@, i as int, #[trigger] rest@[m] as int),
            decreases rest@.len() - l,
        {
            let cand = rest[l];
            let d = vdist2(pos_i, boids[cand].translation);
            if d < bd {
                bd = d;
                best = l;
            }
            l += 1;
        }
        let picked = rest[best];
        let ghost chosen_pre = chosen@;
        let ghost rest_old = rest@;
        chosen.push(picked);
        rest.remove(best);
        it += 1;
        proof {
            assert forall|x: usize| #[trigger]
                cands0.contains(x) <==> (chosen@.contains(x) || rest@.contains(x)) by {
                if cands0.contains(x) {
                    if chosen_pre.contains(x) {
                        let w = choose|w: int| 0 <= w < chosen_pre.len() && chosen_pre[w] == x;
                        assert(chosen@[w] == x);
                    } else {
                        assert(rest_old.contains(x));
                        let w = choose|w: int| 0 <= w < rest_old.len() && rest_old[w] == x;
                        if w < best {
                            assert(rest@[w] == x);
                        } else if w > best {
                            assert(rest@[w - 1] == x);
                        } else {
                            assert(chosen@[chosen@.len() - 1] == x);
                        }
                    }
                } else {
                    if chosen@.contains(x) {
                        let w = choose|w: int| 0 <= w < chosen@.len() && chosen@[w] == x;
                        if w < chosen_pre.len() {
                            assert(chosen_pre[w] == x);
                            assert(chosen_pre.contains(x));
                        } else {
                            assert(rest_old[best as int] == x);
                            assert(rest_old.contains(x));
                        }
                        assert(cands0.contains(x));
                    }
                    if rest@.contains(x) {
                        let w = choose|w: int| 0 <= w < rest@.len() && rest@[w] == x;
                        if w < best {
                            assert(rest_old[w] == x);
                        } else {
                            assert(rest_old[w + 1] == x);
                        }
                        assert(rest_old.contains(x));
                        assert(cands0.contains(x));
                    }
                }
            }
            assert forall|k: int, l2: int|
                0 <= k < chosen@.len() && 0 <= l2 < rest@.len() implies nd2(
                boids@,
                i as int,
                chosen@[k] as int,
            ) <= nd2(boids@, i as int, rest@[l2] as int) by {
                let rold = if l2 < best {
                    l2
                } else {
                    l2 + 1
                };
                assert(rest@[l2] == rest_old[rold]);
                if k < chosen_pre.len() {
                    assert(chosen@[k] == chosen_pre[k]);
                } else {
                    assert(chosen@[k] == rest_old[best as int]);
                }
            }
            assert forall|k: int, l2: int|
                0 <= k < chosen@.len() && 0 <= l2 < rest@.len() implies chosen@[k] != rest@[l2] by {
                let rold = if l2 < best {
                    l2
                } else {
                    l2 + 1
                };
                assert(rest@[l2] == rest_old[rold]);
                if k < chosen_pre.len() {
                    assert(chosen@[k] == chosen_pre[k]);
                } else {
                    assert(chosen@[k] == rest_old[best as int]);
                }
            }
            assert(distinct_seq(rest@)) by {
                assert forall|k: int, l2: int| 0 <= k < l2 < rest@.len() implies rest@[k]
                    != rest@[l2] by {
                    let k0 = if k < best {
                        k
                    } else {
                        k + 1
                    };
                    let l0 = if l2 < best {
                        l2
                    } else {
                        l2 + 1
                    };
                    assert(rest@[k] == rest_old[k0] && rest@[l2] == rest_old[l0]);
                }
            }
            assert(distinct_seq(chosen@)) by {
                assert forall|k: int, l2: int| 0 <= k < l2 < chosen@.len() implies chosen@[k]
                    != chosen@[l2] by {
                    if l2 < chosen_pre.len() {
                        assert(chosen@[k] == chosen_pre[k] && chosen@[l2] == chosen_pre[l2]);
                    } else {
                        assert(chosen@[l2] == rest_old[best as int]);
                        assert(chosen@[k] == chosen_pre[k]);
                    }
                }
            }
        }
    }
    proof {
        assert forall|jx: usize|
            (jx as int) < boids@.len() && jx != i && in_range_s(
                boids@,
                i as int,
                jx as int,
                coh as int,
            ) && !chosen@.contains(jx) implies chosen@.len() == cap && (forall|k: int|
            0 <= k < chosen@.len() ==> nd2(boids@, i as int, #[trigger] chosen@[k] as int) <= nd2(
                boids@,
                i as int,
                jx as int,
            )) by {
            assert(cands0.contains(jx));
            assert(rest@.contains(jx));
            let w = choose|w: int| 0 <= w < rest@.len() && rest@[w] == jx;
            assert forall|k: int|
                0 <= k < chosen@.len() implies nd2(boids@, i as int, #[trigger] chosen@[k] as int)
                <= nd2(boids@, i as int, jx as int) by {
                assert(nd2(boids@, i as int, chosen@[k] as int) <= nd2(
                    boids@,
                    i as int,
                    rest@[w] as int,
                ));
            }
        }
    }
    chosen
}

} // verus!
