//! Read-only session queries used by presentation commands: the
//! rank-grouped package listing and the id-to-name lookup. Both are
//! side-effect-free and safe to call repeatedly.

use vstd::prelude::*;

use crate::graph::{id_indices, PackageId};

verus! {

/// Group packages by topological rank: one group per rank, rank 0 first,
/// ascending package index (insertion order) within a group — the
/// deterministic listing order. Every package appears in the group of its
/// rank, and no group beyond the largest rank exists.
pub fn rank_groups(ranks: &Vec<usize>) -> (groups: Vec<Vec<PackageId>>)
    requires
        forall|i: int| 0 <= i < ranks@.len() ==> (#[trigger] ranks@[i]) < ranks@.len(),
    ensures
        forall|r: int, t: int|
            0 <= r < groups@.len() && 0 <= t < groups@[r]@.len() ==> (#[trigger] groups@[r]@[t]).index
                < ranks@.len() && ranks@[groups@[r]@[t].index as int] == r,
        forall|i: int| 0 <= i < ranks@.len() ==> (#[trigger] ranks@[i]) < groups@.len(),
        forall|i: int|
            0 <= i < ranks@.len() ==> id_indices(groups@[#[trigger] ranks@[i] as int]@).contains(
                i as usize,
            ),
        forall|r: int, t1: int, t2: int|
            0 <= r < groups@.len() && 0 <= t1 < t2 < groups@[r]@.len() ==> (
            #[trigger] groups@[r]@[t1]).index < (#[trigger] groups@[r]@[t2]).index,
        ranks@.len() == 0 ==> groups@.len() == 0,
        groups@.len() > 0 ==> exists|i: int|
            0 <= i < ranks@.len() && #[trigger] ranks@[i] as int + 1 == groups@.len(),
{
    let n = ranks.len();
    if n == 0 {
        return Vec::new();
    }
    let mut maxr: usize = ranks[0];
    for j in 1..n
        invariant
            n == ranks@.len(),
            forall|i: int| 0 <= i < n ==> (#[trigger] ranks@[i]) < n,
            maxr < n,
            forall|t: int| 0 <= t < j ==> (#[trigger] ranks@[t]) <= maxr,
            exists|t: int| 0 <= t < j && (#[trigger] ranks@[t]) == maxr,
    {
        if ranks[j] > maxr {
            maxr = ranks[j];
        }
    }
    let glen = maxr + 1;
    let mut groups: Vec<Vec<PackageId>> = Vec::new();
    let mut r: usize = 0;
    while r < glen
        invariant
            r <= glen,
            groups@.len() == r,
            forall|t: int| 0 <= t < r ==> (#[trigger] groups@[t])@.len() == 0,
        decreases glen - r,
    {
        groups.push(Vec::new());
        r = r + 1;
    }
    for i in 0..n
        invariant
            n == ranks@.len(),
            groups@.len() == glen,
            glen == maxr + 1,
            maxr < n,
            forall|t: int| 0 <= t < n ==> (#[trigger] ranks@[t]) <= maxr,
            exists|t: int| 0 <= t < n && (#[trigger] ranks@[t]) == maxr,
            forall|rr: int, t: int|
                0 <= rr < glen && 0 <= t < groups@[rr]@.len() ==> (#[trigger] groups@[rr]@[t]).index
                    < i && ranks@[groups@[rr]@[t].index as int] == rr,
            forall|x: int|
                0 <= x < i ==> id_indices(groups@[#[trigger] ranks@[x] as int]@).contains(
                    x as usize,
                ),
            forall|rr: int, t1: int, t2: int|
                0 <= rr < glen && 0 <= t1 < t2 < groups@[rr]@.len() ==> (
                #[trigger] groups@[rr]@[t1]).index < (#[trigger] groups@[rr]@[t2]).index,
    {
        let rk = ranks[i];
        proof {
            assert(ranks@[i as int] <= maxr);
        }
        let ghost before = groups@;
        groups[rk].push(PackageId { index: i });
        proof {
            broadcast use vstd::seq_lib::lemma_seq_contains_after_push;

            assert(groups@[rk as int]@ == before[rk as int]@.push(PackageId { index: i }));
            assert(forall|rr: int| 0 <= rr < glen && rr != rk as int ==> groups@[rr] == before[rr]);
            assert(id_indices(groups@[rk as int]@) =~= id_indices(before[rk as int]@).push(i));
            assert forall|rr: int, t: int|
                0 <= rr < glen && 0 <= t < groups@[rr]@.len() implies (
            #[trigger] groups@[rr]@[t]).index < i + 1 && ranks@[groups@[rr]@[t].index as int]
                == rr by {
                if rr == rk as int && t == before[rr]@.len() {
                    assert(groups@[rr]@[t] == (PackageId { index: i }));
                } else {
                    assert(groups@[rr]@[t] == before[rr]@[t]);
                }
            }
            assert forall|x: int|
                0 <= x < i + 1 implies id_indices(
                groups@[#[trigger] ranks@[x] as int]@,
            ).contains(x as usize) by {
                if x == i as int {
                    assert(id_indices(groups@[rk as int]@).contains(i as usize));
                } else {
                    if ranks@[x] as int == rk as int {
                        assert(id_indices(before[rk as int]@).contains(x as usize));
                        assert(id_indices(groups@[rk as int]@).contains(x as usize));
                    } else {
                        assert(groups@[ranks@[x] as int] == before[ranks@[x] as int]);
                    }
                }
            }
            assert forall|rr: int, t1: int, t2: int|
                0 <= rr < glen && 0 <= t1 < t2 < groups@[rr]@.len() implies (
            #[trigger] groups@[rr]@[t1]).index < (#[trigger] groups@[rr]@[t2]).index by {
                if rr == rk as int && t2 == before[rr]@.len() {
                    assert(groups@[rr]@[t1] == before[rr]@[t1]);
                    assert(groups@[rr]@[t2] == (PackageId { index: i }));
                } else {
                    assert(groups@[rr]@[t1] == before[rr]@[t1]);
                    assert(groups@[rr]@[t2] == before[rr]@[t2]);
                }
            }
        }
    }
    groups
}

/// The name a package id was registered under. All ids in a session's graph
/// carry a registered name, so an unknown id is a programming error, ruled
/// out by precondition rather than answered.
pub fn dependency_name<'a>(names: &'a Vec<String>, id: PackageId) -> (r: &'a String)
    requires
        id.index < names@.len(),
    ensures
        r@ == names@[id.index as int]@,
{
    &names[id.index]
}

} // verus!
