//! The dependency graph of resolved packages: adjacency, cycle detection
//! and deterministic topological ranking.
//!
//! Nodes are [`PackageId`]s; a directed edge `(from, to)` means *from*
//! declares *to* as a dependency. Self-edges are forbidden and every edge
//! must reference registered packages. Ranking assigns each package a layer
//! strictly greater than all of its dependencies' layers, with rank 0 being
//! exactly the packages that depend on nothing.

use vstd::prelude::*;

verus! {

/// A stable identifier of a resolved package within one session.
#[derive(Debug, Clone, Copy, PartialEq, Eq, Structural, Hash)]
pub struct PackageId {
    pub index: usize,
}

/// Errors of graph assembly and ranking.
#[derive(Debug, Clone, PartialEq, Eq)]
pub enum GraphError {
    /// An edge endpoint was never registered.
    UnknownPackage { id: PackageId },
    /// The edge was already present.
    DuplicateEdge { from: PackageId, to: PackageId },
    /// A package declared itself as a dependency.
    SelfDependency { id: PackageId },
    /// The graph contains the reported cycle, so ranking is undefined.
    CyclicDependency { cycle: Vec<PackageId> },
}

/// The indices carried by a sequence of package identifiers.
pub open spec fn id_indices(c: Seq<PackageId>) -> Seq<usize> {
    c.map_values(|p: PackageId| p.index)
}

/// The dependency graph: adjacency lists in first-seen edge order, indexed
/// by package identifier.
pub struct Graph {
    pub adj: Vec<Vec<usize>>,
}

impl Graph {
    /// The dependency list of package `i`.
    pub open spec fn deps(self, i: int) -> Seq<usize> {
        self.adj@[i]@
    }

    /// Package `a` declares package `b` as a dependency.
    pub open spec fn spec_edge(self, a: usize, b: usize) -> bool {
        a < self.adj@.len() && self.deps(a as int).contains(b)
    }

    /// Well-formed: every dependency references a registered package, no
    /// package depends on itself, and no dependency list repeats an entry.
    pub open spec fn wf(self) -> bool {
        &&& forall|i: int, k: int|
            0 <= i < self.adj@.len() && 0 <= k < self.deps(i).len() ==> (#[trigger] self.deps(
                i,
            )[k]) < self.adj@.len() && self.deps(i)[k] as int != i
        &&& forall|i: int, k1: int, k2: int|
            0 <= i < self.adj@.len() && 0 <= k1 < k2 < self.deps(i).len() ==> #[trigger] self.deps(
                i,
            )[k1] != #[trigger] self.deps(i)[k2]
    }

    /// The sequence of packages forms a cycle actually present in the graph:
    /// every consecutive pair is a real edge, as is the wrap-around pair.
    pub open spec fn is_cycle(self, c: Seq<usize>) -> bool {
        &&& c.len() >= 2
        &&& forall|k: int| 0 <= k < c.len() - 1 ==> self.spec_edge(#[trigger] c[k], c[k + 1])
        &&& self.spec_edge(c[c.len() - 1], c[0])
    }

    /// No cycle is present.
    pub open spec fn acyclic(self) -> bool {
        forall|c: Seq<usize>| !self.is_cycle(c)
    }

    /// The ranking contract: every dependency has a strictly smaller rank,
    /// rank 0 holds exactly the packages without dependencies, and every
    /// positive rank is one more than the largest rank among the package's
    /// dependencies.
    pub open spec fn valid_ranks(self, r: Seq<usize>) -> bool {
        &&& r.len() == self.adj@.len()
        &&& forall|i: int| 0 <= i < r.len() ==> (#[trigger] r[i]) < r.len()
        &&& forall|i: int, k: int|
            0 <= i < self.adj@.len() && 0 <= k < self.deps(i).len() ==> r[#[trigger] self.deps(
                i,
            )[k] as int] < r[i]
        &&& forall|i: int|
            0 <= i < self.adj@.len() ==> ((#[trigger] r[i] == 0) <==> self.deps(i).len() == 0)
        &&& forall|i: int|
            0 <= i < self.adj@.len() && #[trigger] self.deps(i).len() > 0 ==> exists|k: int|
                0 <= k < self.deps(i).len() && r[#[trigger] self.deps(i)[k] as int] + 1 == r[i]
    }

    /// An empty graph.
    pub fn new() -> (g: Graph)
        ensures
            g.adj@.len() == 0,
            g.wf(),
    {
        Graph { adj: Vec::new() }
    }

    /// The number of registered packages.
    pub fn len(&self) -> (n: usize)
        ensures
            n == self.adj@.len(),
    {
        self.adj.len()
    }

    /// Register a new package; identifiers are handed out in insertion
    /// order and never reused.
    pub fn add_package(&mut self) -> (id: PackageId)
        requires
            old(self).wf(),
        ensures
            final(self).wf(),
            final(self).adj@.len() == old(self).adj@.len() + 1,
            id.index == old(self).adj@.len(),
            forall|i: int| 0 <= i < old(self).adj@.len() ==> final(self).deps(i) == old(self).deps(
                i,
            ),
            final(self).deps(id.index as int) == Seq::<usize>::empty(),
    {
        let id = PackageId { index: self.adj.len() };
        let ghost before = *self;
        self.adj.push(Vec::new());
        proof {
            assert(self.deps(id.index as int) =~= Seq::<usize>::empty());
            assert(forall|i: int| 0 <= i < before.adj@.len() ==> self.deps(i) == before.deps(i));
            assert forall|i: int, k: int|
                0 <= i < self.adj@.len() && 0 <= k < self.deps(i).len() implies (#[trigger] self.deps(
                i,
            )[k]) < self.adj@.len() && self.deps(i)[k] as int != i by {
                assert(i < before.adj@.len());
                assert(before.deps(i)[k] < before.adj@.len() && before.deps(i)[k] as int != i);
            }
            assert forall|i: int, k1: int, k2: int|
                0 <= i < self.adj@.len() && 0 <= k1 < k2 < self.deps(i).len() implies #[trigger] self.deps(
                i,
            )[k1] != #[trigger] self.deps(i)[k2] by {
                assert(i < before.adj@.len());
                assert(before.deps(i)[k1] != before.deps(i)[k2]);
            }
        }
        id
    }

    /// Decide whether the edge is present.
    pub fn has_edge(&self, from: PackageId, to: PackageId) -> (r: bool)
        requires
            from.index < self.adj@.len(),
        ensures
            r == self.spec_edge(from.index, to.index),
    {
        let row = &self.adj[from.index];
        let n = row.len();
        for k in 0..n
            invariant
                from.index < self.adj@.len(),
                n == row@.len(),
                row@ == self.deps(from.index as int),
                forall|t: int| 0 <= t < k ==> row@[t] != to.index,
        {
            if row[k] == to.index {
                proof {
                    assert(self.deps(from.index as int)[k as int] == to.index);
                    assert(self.deps(from.index as int).contains(to.index));
                    assert(self.spec_edge(from.index, to.index));
                }
                return true;
            }
        }
        false
    }

    /// Insert the edge `from -> to`. Fails with `UnknownPackage` when an
    /// endpoint is unregistered, `SelfDependency` when both endpoints are
    /// the same package, and `DuplicateEdge` when the edge is already
    /// present; on failure the graph is unchanged.
    pub fn add_edge(&mut self, from: PackageId, to: PackageId) -> (r: Result<(), GraphError>)
        requires
            old(self).wf(),
        ensures
            final(self).wf(),
            final(self).adj@.len() == old(self).adj@.len(),
            r matches Err(_) ==> *final(self) == *old(self),
            (r is Ok) <==> (from.index < old(self).adj@.len() && to.index < old(
                self,
            ).adj@.len() && from.index != to.index && !old(self).spec_edge(from.index, to.index)),
            r is Ok ==> final(self).deps(from.index as int) == old(self).deps(
                from.index as int,
            ).push(to.index) && (forall|i: int|
                0 <= i < old(self).adj@.len() && i != from.index as int ==> final(self).deps(i)
                    == old(self).deps(i)),
            r matches Err(e) ==> (e matches GraphError::UnknownPackage { id } ==> (id == from
                && from.index >= old(self).adj@.len()) || (id == to && to.index >= old(
                self,
            ).adj@.len())),
            r matches Err(e) ==> (e is UnknownPackage <==> (from.index >= old(self).adj@.len()
                || to.index >= old(self).adj@.len())),
            r matches Err(e) ==> (e is SelfDependency <==> (from.index < old(self).adj@.len()
                && to.index < old(self).adj@.len() && from.index == to.index)),
            r matches Err(e) ==> (e is DuplicateEdge <==> (from.index < old(self).adj@.len()
                && to.index < old(self).adj@.len() && from.index != to.index && old(self).spec_edge(
                from.index,
                to.index,
            ))),
    {
        let n = self.adj.len();
        if from.index >= n {
            return Err(GraphError::UnknownPackage { id: from });
        }
        if to.index >= n {
            return Err(GraphError::UnknownPackage { id: to });
        }
        if from.index == to.index {
            return Err(GraphError::SelfDependency { id: from });
        }
        if self.has_edge(from, to) {
            return Err(GraphError::DuplicateEdge { from, to });
        }
        let ghost before = *self;
        self.adj[from.index].push(to.index);
        proof {
            assert(self.deps(from.index as int) == before.deps(from.index as int).push(to.index));
            assert(forall|i: int|
                0 <= i < before.adj@.len() && i != from.index as int ==> self.deps(i)
                    == before.deps(i));
            assert forall|i: int, k: int|
                0 <= i < self.adj@.len() && 0 <= k < self.deps(i).len() implies (#[trigger] self.deps(
                i,
            )[k]) < self.adj@.len() && self.deps(i)[k] as int != i by {
                if i == from.index as int && k == before.deps(i).len() {
                    assert(self.deps(i)[k] == to.index);
                } else {
                    assert(self.deps(i)[k] == before.deps(i)[k]);
                    assert(before.deps(i)[k] < before.adj@.len() && before.deps(i)[k] as int != i);
                }
            }
            assert forall|i: int, k1: int, k2: int|
                0 <= i < self.adj@.len() && 0 <= k1 < k2 < self.deps(i).len() implies #[trigger] self.deps(
                i,
            )[k1] != #[trigger] self.deps(i)[k2] by {
                if i == from.index as int && k2 == before.deps(i).len() {
                    assert(!before.deps(i).contains(to.index));
                    assert(self.deps(i)[k1] == before.deps(i)[k1]);
                    assert(before.deps(i)[k1] != to.index);
                } else {
                    assert(self.deps(i)[k1] == before.deps(i)[k1]);
                    assert(self.deps(i)[k2] == before.deps(i)[k2]);
                    assert(before.deps(i)[k1] != before.deps(i)[k2]);
                }
            }
        }
        Ok(())
    }

    /// The number of dependencies package `id` declares.
    pub fn dep_count(&self, id: PackageId) -> (n: usize)
        requires
            id.index < self.adj@.len(),
        ensures
            n == self.deps(id.index as int).len(),
    {
        self.adj[id.index].len()
    }

    /// The `k`-th dependency of package `id`, in first-seen order.
    pub fn dep_at(&self, id: PackageId, k: usize) -> (d: PackageId)
        requires
            id.index < self.adj@.len(),
            k < self.deps(id.index as int).len(),
        ensures
            d.index == self.deps(id.index as int)[k as int],
    {
        PackageId { index: self.adj[id.index][k] }
    }

    /// Check the graph for cycles: succeeds exactly on acyclic graphs, and
    /// on cyclic ones reports a cycle that is actually present.
    pub fn detect_cycles(&self) -> (r: Result<(), GraphError>)
        requires
            self.wf(),
        ensures
            (r is Ok) <==> self.acyclic(),
            r matches Err(e) ==> e matches GraphError::CyclicDependency { cycle }
                && self.is_cycle(id_indices(cycle@)),
    {
        match self.topological_ranks() {
            Ok(_) => Ok(()),
            Err(e) => Err(e),
        }
    }

    /// Assign every package its topological rank: the layered order used for
    /// build ordering and dependency listing. On a cyclic graph this fails
    /// with `CyclicDependency` carrying a cycle that is actually present.
    #[verifier::rlimit(80)]
    pub fn topological_ranks(&self) -> (r: Result<Vec<usize>, GraphError>)
        requires
            self.wf(),
        ensures
            r matches Ok(ranks) ==> self.valid_ranks(ranks@) && self.acyclic(),
            r matches Err(e) ==> e matches GraphError::CyclicDependency { cycle }
                && self.is_cycle(id_indices(cycle@)) && !self.acyclic(),
    {
        let n = self.adj.len();
        let mut rk: Vec<usize> = Vec::new();
        let mut done: Vec<bool> = Vec::new();
        for i in 0..n
            invariant
                rk@.len() == i,
                done@.len() == i,
                forall|t: int| 0 <= t < i ==> !(#[trigger] done@[t]),
        {
            rk.push(0);
            done.push(false);
        }
        let mut unranked = n;
        proof {
            lemma_count_false_all_false(done@, n as int);
        }
        loop
            invariant
                n == self.adj@.len(),
                self.wf(),
                rk@.len() == n,
                done@.len() == n,
                partial_valid(*self, rk@, done@),
                unranked == count_false(done@, n as int),
            ensures
                rk@.len() == n,
                done@.len() == n,
                partial_valid(*self, rk@, done@),
                unranked == count_false(done@, n as int),
                forall|t: int|
                    0 <= t < n as int && !(#[trigger] done@[t]) ==> exists|k: int|
                        0 <= k < self.deps(t).len() && !done@[self.deps(t)[k] as int],
            decreases unranked,
        {
            let mut changed = false;
            let ghost unranked0 = unranked;
            for i in 0..n
                invariant
                    n == self.adj@.len(),
                    self.wf(),
                    rk@.len() == n,
                    done@.len() == n,
                    partial_valid(*self, rk@, done@),
                    unranked == count_false(done@, n as int),
                    changed ==> unranked < unranked0,
                    !changed ==> unranked == unranked0,
                    !changed ==> (forall|t: int|
                        0 <= t < i && !(#[trigger] done@[t]) ==> exists|k: int|
                            0 <= k < self.deps(t).len() && !done@[self.deps(t)[k] as int]),
            {
                if !done[i] {
                    let row = &self.adj[i];
                    let dn = row.len();
                    let mut all_done = true;
                    let mut maxr: usize = 0;
                    for k in 0..dn
                        invariant
                            n == self.adj@.len(),
                            self.wf(),
                            i < n,
                            !done@[i as int],
                            rk@.len() == n,
                            done@.len() == n,
                            partial_valid(*self, rk@, done@),
                            unranked == count_false(done@, n as int),
                            changed ==> unranked < unranked0,
                            !changed ==> unranked == unranked0,
                            !changed ==> (forall|t: int|
                                0 <= t < i && !(#[trigger] done@[t]) ==> exists|kk: int|
                                    0 <= kk < self.deps(t).len() && !done@[self.deps(
                                        t,
                                    )[kk] as int]),
                            row@ == self.deps(i as int),
                            dn == row@.len(),
                            all_done <==> (forall|t: int|
                                0 <= t < k ==> done@[#[trigger] row@[t] as int]),
                            all_done ==> (forall|t: int|
                                0 <= t < k ==> rk@[#[trigger] row@[t] as int] <= maxr),
                            all_done && k > 0 ==> (exists|t: int|
                                0 <= t < k && rk@[#[trigger] row@[t] as int] == maxr),
                            all_done && k == 0 ==> maxr == 0,
                            all_done && k > 0 ==> maxr < ranked_count(done@),
                    {
                        let d = row[k];
                        proof {
                            assert(row@[k as int] < n);
                        }
                        if !done[d] {
                            all_done = false;
                        } else {
                            if k == 0 || rk[d] > maxr {
                                maxr = rk[d];
                            }
                        }
                    }
                    if all_done {
                        let newr: usize = if dn == 0 {
                            0
                        } else {
                            maxr + 1
                        };
                        let ghost old_rk = rk@;
                        let ghost old_done = done@;
                        proof {
                            lemma_count_false_pos(done@, i as int, n as int);
                            lemma_count_false_update_true(done@, i as int, n as int);
                            lemma_count_false_le(done@, n as int);
                        }
                        rk[i] = newr;
                        done[i] = true;
                        unranked = unranked - 1;
                        changed = true;
                        proof {
                            assert(done@ == old_done.update(i as int, true));
                            assert(rk@ == old_rk.update(i as int, newr));
                            assert(ranked_count(done@) == ranked_count(old_done) + 1);
                            lemma_partial_valid_extend(*self, old_rk, old_done, i as int, newr);
                        }
                    }
                }
            }
            if !changed {
                break;
            }
        }
        if unranked == 0 {
            proof {
                lemma_count_false_zero(done@, n as int);
                assert forall|i: int, k: int|
                    0 <= i < self.adj@.len() && 0 <= k < self.deps(i).len() implies rk@[#[trigger] self.deps(
                    i,
                )[k] as int] < rk@[i] by {
                    assert(done@[i]);
                }
                assert forall|i: int| 0 <= i < self.adj@.len() implies ((#[trigger] rk@[i] == 0)
                    <==> self.deps(i).len() == 0) by {
                    assert(done@[i]);
                }
                assert forall|i: int|
                    0 <= i < self.adj@.len() && #[trigger] self.deps(i).len() > 0 implies exists|
                    k: int,
                |
                    0 <= k < self.deps(i).len() && rk@[#[trigger] self.deps(i)[k] as int] + 1
                        == rk@[i] by {
                    assert(done@[i]);
                }
                assert forall|i: int| 0 <= i < rk@.len() implies (#[trigger] rk@[i])
                    < rk@.len() by {
                    assert(done@[i]);
                    assert(rk@[i] < ranked_count(done@));
                }
                assert(self.valid_ranks(rk@));
                lemma_valid_ranks_acyclic(*self, rk@);
            }
            Ok(rk)
        } else {
            proof {
                if forall|i: int| 0 <= i < n as int ==> #[trigger] done@[i] {
                    lemma_count_false_all_true(done@, n as int);
                    assert(false);
                }
            }
            let cyc = self.extract_cycle(&done);
            let mut cycle: Vec<PackageId> = Vec::new();
            let m = cyc.len();
            for t in 0..m
                invariant
                    m == cyc@.len(),
                    cycle@.len() == t,
                    forall|u: int| 0 <= u < t ==> (#[trigger] cycle@[u]).index == cyc@[u],
                    self.is_cycle(cyc@),
            {
                cycle.push(PackageId { index: cyc[t] });
            }
            proof {
                assert(id_indices(cycle@) =~= cyc@);
                assert(self.is_cycle(id_indices(cycle@)));
            }
            Err(GraphError::CyclicDependency { cycle })
        }
    }

    /// The first not-yet-ranked dependency of `v`.
    fn find_undone_dep(&self, done: &Vec<bool>, v: usize) -> (w: usize)
        requires
            self.wf(),
            done@.len() == self.adj@.len(),
            v < self.adj@.len(),
            exists|k: int|
                0 <= k < self.deps(v as int).len() && !done@[self.deps(v as int)[k] as int],
        ensures
            w < self.adj@.len(),
            !done@[w as int],
            self.spec_edge(v, w),
    {
        let row = &self.adj[v];
        let dn = row.len();
        for k in 0..dn
            invariant
                self.wf(),
                done@.len() == self.adj@.len(),
                v < self.adj@.len(),
                row@ == self.deps(v as int),
                dn == row@.len(),
                exists|t: int| 0 <= t < dn && !done@[row@[t] as int],
                forall|t: int| 0 <= t < k ==> done@[#[trigger] row@[t] as int],
        {
            let d = row[k];
            proof {
                assert(row@[k as int] < self.adj@.len());
            }
            if !done[d] {
                proof {
                    assert(self.deps(v as int)[k as int] == d);
                }
                return d;
            }
        }
        proof {
            let kk = choose|t: int| 0 <= t < dn && !done@[row@[t] as int];
            assert(done@[row@[kk] as int]);
            assert(false);
        }
        0
    }

    /// Mark `w` seen and extend the walked path by the edge into it.
    fn walk_push(&self, done: &Vec<bool>, path: &mut Vec<usize>, seen: &mut Vec<bool>, w: usize)
        requires
            self.wf(),
            done@.len() == self.adj@.len(),
            old(seen)@.len() == self.adj@.len(),
            old(path)@.len() >= 1,
            forall|t: int|
                0 <= t < old(path)@.len() ==> (#[trigger] old(path)@[t]) < self.adj@.len()
                    && !done@[old(path)@[t] as int],
            forall|t: int|
                0 <= t < old(path)@.len() - 1 ==> self.spec_edge(
                    #[trigger] old(path)@[t],
                    old(path)@[t + 1],
                ),
            forall|x: usize|
                x < self.adj@.len() && (#[trigger] old(seen)@[x as int]) ==> old(path)@.contains(x),
            w < self.adj@.len(),
            !done@[w as int],
            !old(seen)@[w as int],
            self.spec_edge(old(path)@[old(path)@.len() - 1], w),
        ensures
            final(seen)@.len() == old(seen)@.len(),
            final(path)@.len() == old(path)@.len() + 1,
            forall|t: int|
                0 <= t < final(path)@.len() ==> (#[trigger] final(path)@[t]) < self.adj@.len()
                    && !done@[final(path)@[t] as int],
            forall|t: int|
                0 <= t < final(path)@.len() - 1 ==> self.spec_edge(
                    #[trigger] final(path)@[t],
                    final(path)@[t + 1],
                ),
            forall|x: usize|
                x < self.adj@.len() && (#[trigger] final(seen)@[x as int])
                    ==> final(path)@.contains(x),
            count_false(final(seen)@, self.adj@.len() as int) + 1 == count_false(
                old(seen)@,
                self.adj@.len() as int,
            ),
    {
        let ghost n = self.adj@.len();
        proof {
            lemma_count_false_update_true(seen@, w as int, n as int);
        }
        let ghost oldseen = seen@;
        let ghost oldpath = path@;
        seen[w] = true;
        path.push(w);
        proof {
            broadcast use vstd::seq_lib::lemma_seq_contains_after_push;

            assert(path@ == oldpath.push(w));
            assert forall|t: int|
                0 <= t < path@.len() - 1 implies self.spec_edge(
                #[trigger] path@[t],
                path@[t + 1],
            ) by {
                if t < oldpath.len() - 1 {
                    assert(path@[t] == oldpath[t]);
                    assert(path@[t + 1] == oldpath[t + 1]);
                } else {
                    assert(path@[t] == oldpath[oldpath.len() - 1]);
                    assert(path@[t + 1] == w);
                }
            }
            assert forall|x: usize|
                x < n && (#[trigger] seen@[x as int]) implies path@.contains(x) by {
                assert(path@.contains(x) <==> (oldpath.contains(x) || x == w));
                if x != w {
                    assert(seen@[x as int] == oldseen[x as int]);
                }
            }
        }
    }

    /// The walked path reaches `w`, already on it: the stretch from its
    /// first occurrence to the end, wrapping back, is a cycle.
    fn close_cycle(&self, path: &Vec<usize>, w: usize) -> (c: Vec<usize>)
        requires
            self.wf(),
            path@.len() >= 1,
            forall|t: int|
                0 <= t < path@.len() - 1 ==> self.spec_edge(#[trigger] path@[t], path@[t + 1]),
            path@.contains(w),
            self.spec_edge(path@[path@.len() - 1], w),
        ensures
            self.is_cycle(c@),
    {
        let plen = path.len();
        let v = path[plen - 1];
        let pos = find_position(path, w);
        proof {
            assert(self.spec_edge(v, w));
            if pos == plen - 1 {
                assert(path@[pos as int] == v);
                let kk = choose|k: int|
                    0 <= k < self.deps(v as int).len() && self.deps(v as int)[k] == w;
                assert(self.deps(v as int)[kk] as int != v as int);
                assert(false);
            }
        }
        let cyc = copy_tail(path, pos);
        proof {
            assert(cyc@.len() == plen - pos >= 2);
            assert forall|k: int|
                0 <= k < cyc@.len() - 1 implies self.spec_edge(#[trigger] cyc@[k], cyc@[k + 1]) by {
                assert(cyc@[k] == path@[pos + k]);
                assert(cyc@[k + 1] == path@[pos + k + 1]);
            }
            assert(cyc@[cyc@.len() - 1] == path@[plen - 1]);
            assert(cyc@[0] == path@[pos as int]);
            assert(self.spec_edge(cyc@[cyc@.len() - 1], cyc@[0]));
        }
        cyc
    }

    /// Starting from any unfinished package, walk unfinished dependencies
    /// until one repeats; the repeated stretch is a real cycle.
    fn extract_cycle(&self, done: &Vec<bool>) -> (c: Vec<usize>)
        requires
            self.wf(),
            done@.len() == self.adj@.len(),
            exists|i: int| 0 <= i < done@.len() && !done@[i],
            forall|t: int|
                0 <= t < done@.len() && !(#[trigger] done@[t]) ==> exists|k: int|
                    0 <= k < self.deps(t).len() && !done@[self.deps(t)[k] as int],
        ensures
            self.is_cycle(c@),
    {
        let n = self.adj.len();
        let mut start: usize = 0;
        let mut found = false;
        for i in 0..n
            invariant
                n == done@.len(),
                found ==> (start < n && !done@[start as int]),
                !found ==> (forall|t: int| 0 <= t < i ==> #[trigger] done@[t]),
        {
            if !found && !done[i] {
                start = i;
                found = true;
            }
        }
        proof {
            if !found {
                let w = choose|t: int| 0 <= t < done@.len() && !done@[t];
                assert(done@[w]);
                assert(false);
            }
        }
        let mut seen: Vec<bool> = Vec::new();
        for i in 0..n
            invariant
                seen@.len() == i,
                forall|t: int| 0 <= t < i ==> !(#[trigger] seen@[t]),
        {
            seen.push(false);
        }
        let ghost seen0 = seen@;
        proof {
            lemma_count_false_all_false(seen@, n as int);
            lemma_count_false_update_true(seen@, start as int, n as int);
        }
        seen[start] = true;
        let mut unseen = n - 1;
        let mut path: Vec<usize> = Vec::new();
        path.push(start);
        proof {
            assert(seen@ == seen0.update(start as int, true));
            assert forall|x: usize| x < n && #[trigger] seen@[x as int] implies path@.contains(
                x,
            ) by {
                assert(x == start);
                assert(path@[0] == x);
            }
        }
        loop
            invariant
                self.wf(),
                n == self.adj@.len(),
                done@.len() == n,
                seen@.len() == n,
                forall|t: int|
                    0 <= t < done@.len() && !(#[trigger] done@[t]) ==> exists|k: int|
                        0 <= k < self.deps(t).len() && !done@[self.deps(t)[k] as int],
                path@.len() >= 1,
                forall|t: int|
                    0 <= t < path@.len() ==> (#[trigger] path@[t]) < n && !done@[path@[t] as int],
                forall|t: int|
                    0 <= t < path@.len() - 1 ==> self.spec_edge(#[trigger] path@[t], path@[t + 1]),
                forall|x: usize| x < n && (#[trigger] seen@[x as int]) ==> path@.contains(x),
                unseen == count_false(seen@, n as int),
            decreases unseen,
        {
            let plen = path.len();
            let v = path[plen - 1];
            let w = self.find_undone_dep(done, v);
            if seen[w] {
                return self.close_cycle(&path, w);
            } else {
                self.walk_push(done, &mut path, &mut seen, w);
                unseen = unseen - 1;
            }
        }
    }

    /// All packages declaring `id` as a dependency, in ascending identifier
    /// order: the derived reverse-edge index.
    pub fn parents_of(&self, id: PackageId) -> (r: Vec<PackageId>)
        requires
            self.wf(),
            id.index < self.adj@.len(),
        ensures
            forall|i: usize|
                i < self.adj@.len() ==> (#[trigger] self.spec_edge(i, id.index) <==> id_indices(
                    r@,
                ).contains(i)),
            forall|t: int| 0 <= t < r@.len() ==> (#[trigger] r@[t]).index < self.adj@.len(),
            forall|t1: int, t2: int| 0 <= t1 < t2 < r@.len() ==> r@[t1].index < r@[t2].index,
    {
        let n = self.adj.len();
        let mut r: Vec<PackageId> = Vec::new();
        for i in 0..n
            invariant
                n == self.adj@.len(),
                id.index < n,
                self.wf(),
                forall|x: usize|
                    x < n ==> (id_indices(r@).contains(x) <==> (x < i && self.spec_edge(
                        x,
                        id.index,
                    ))),
                forall|t: int| 0 <= t < r@.len() ==> (#[trigger] r@[t]).index < i,
                forall|t1: int, t2: int| 0 <= t1 < t2 < r@.len() ==> r@[t1].index < r@[t2].index,
        {
            if self.has_edge(PackageId { index: i }, id) {
                let ghost prev = r@;
                r.push(PackageId { index: i });
                proof {
                    broadcast use vstd::seq_lib::lemma_seq_contains_after_push;

                    assert(id_indices(r@) =~= id_indices(prev).push(i));
                }
            }
        }
        r
    }
}

/// How many of the first `upto` entries are false.
spec fn count_false(s: Seq<bool>, upto: int) -> nat
    decreases upto,
{
    if upto <= 0 {
        0
    } else {
        count_false(s, upto - 1) + (if s[upto - 1] {
            0nat
        } else {
            1nat
        })
    }
}

/// How many packages are already ranked.
spec fn ranked_count(done: Seq<bool>) -> int {
    done.len() - count_false(done, done.len() as int)
}

proof fn lemma_count_false_all_false(s: Seq<bool>, upto: int)
    requires
        forall|i: int| 0 <= i < upto ==> !s[i],
    ensures
        count_false(s, upto) == if upto <= 0 {
            0int
        } else {
            upto
        },
    decreases upto,
{
    if upto > 0 {
        lemma_count_false_all_false(s, upto - 1);
    }
}

proof fn lemma_count_false_all_true(s: Seq<bool>, upto: int)
    requires
        forall|i: int| 0 <= i < upto ==> s[i],
    ensures
        count_false(s, upto) == 0,
    decreases upto,
{
    if upto > 0 {
        lemma_count_false_all_true(s, upto - 1);
    }
}

proof fn lemma_count_false_zero(s: Seq<bool>, upto: int)
    requires
        count_false(s, upto) == 0,
    ensures
        forall|i: int| 0 <= i < upto ==> s[i],
    decreases upto,
{
    if upto > 0 {
        lemma_count_false_zero(s, upto - 1);
    }
}

proof fn lemma_count_false_pos(s: Seq<bool>, j: int, upto: int)
    requires
        0 <= j < upto,
        !s[j],
    ensures
        count_false(s, upto) >= 1,
    decreases upto,
{
    if j < upto - 1 {
        lemma_count_false_pos(s, j, upto - 1);
    }
}

proof fn lemma_count_false_le(s: Seq<bool>, upto: int)
    ensures
        count_false(s, upto) <= (if upto <= 0 {
            0int
        } else {
            upto
        }),
    decreases upto,
{
    if upto > 0 {
        lemma_count_false_le(s, upto - 1);
    }
}

proof fn lemma_count_false_update_true(s: Seq<bool>, j: int, upto: int)
    requires
        0 <= j < s.len(),
        upto <= s.len(),
        !s[j],
    ensures
        j < upto ==> count_false(s.update(j, true), upto) + 1 == count_false(s, upto),
        j >= upto ==> count_false(s.update(j, true), upto) == count_false(s, upto),
    decreases upto,
{
    if upto > 0 {
        lemma_count_false_update_true(s, j, upto - 1);
    }
}

/// The invariant of the ranking loop: ranked packages already meet the full
/// ranking contract among themselves, and each carries a rank below the
/// number of ranked packages.
spec fn partial_valid(g: Graph, rk: Seq<usize>, done: Seq<bool>) -> bool {
    &&& rk.len() == g.adj@.len()
    &&& done.len() == g.adj@.len()
    &&& forall|i: int| 0 <= i < done.len() && #[trigger] done[i] ==> rk[i] < ranked_count(done)
    &&& forall|i: int, k: int|
        0 <= i < done.len() && done[i] && 0 <= k < g.deps(i).len() ==> done[#[trigger] g.deps(
            i,
        )[k] as int] && rk[g.deps(i)[k] as int] < rk[i]
    &&& forall|i: int|
        0 <= i < done.len() && #[trigger] done[i] ==> ((rk[i] == 0) <==> g.deps(i).len() == 0)
    &&& forall|i: int|
        0 <= i < done.len() && #[trigger] done[i] && g.deps(i).len() > 0 ==> exists|k: int|
            0 <= k < g.deps(i).len() && rk[#[trigger] g.deps(i)[k] as int] + 1 == rk[i]
}

/// Ranking one more package whose dependencies are all ranked preserves the
/// loop invariant, provided its new rank is one above their maximum (or zero
/// without dependencies).
proof fn lemma_partial_valid_extend(g: Graph, rk: Seq<usize>, done: Seq<bool>, i: int, newr: usize)
    requires
        g.wf(),
        partial_valid(g, rk, done),
        0 <= i < done.len(),
        !done[i],
        forall|k: int| 0 <= k < g.deps(i).len() ==> done[#[trigger] g.deps(i)[k] as int],
        g.deps(i).len() == 0 ==> newr == 0,
        g.deps(i).len() > 0 ==> (newr >= 1 && (forall|k: int|
            0 <= k < g.deps(i).len() ==> rk[#[trigger] g.deps(i)[k] as int] < newr) && (exists|
            k: int,
        |
            0 <= k < g.deps(i).len() && rk[#[trigger] g.deps(i)[k] as int] + 1 == newr)),
        newr < ranked_count(done) + 1,
    ensures
        partial_valid(g, rk.update(i, newr), done.update(i, true)),
{
    let rk2 = rk.update(i, newr);
    let done2 = done.update(i, true);
    lemma_count_false_pos(done, i, done.len() as int);
    lemma_count_false_update_true(done, i, done.len() as int);
    assert(ranked_count(done2) == ranked_count(done) + 1);
    assert forall|t: int| 0 <= t < done2.len() && #[trigger] done2[t] implies rk2[t] < ranked_count(
        done2,
    ) by {
        if t != i {
            assert(done[t] && rk2[t] == rk[t]);
        }
    }
    assert forall|t: int, k: int|
        0 <= t < done2.len() && done2[t] && 0 <= k < g.deps(t).len() implies done2[#[trigger] g.deps(
        t,
    )[k] as int] && rk2[g.deps(t)[k] as int] < rk2[t] by {
        let d = g.deps(t)[k] as int;
        assert(0 <= d < done.len() && d != t);
        if t == i {
            assert(done[d]);
            assert(d != i);
            assert(rk2[d] == rk[d]);
        } else {
            assert(done[t]);
            assert(done[d] && rk[d] < rk[t]);
            assert(d != i ==> rk2[d] == rk[d]);
            if d == i {
                assert(done[i]);
                assert(false);
            }
        }
    }
    assert forall|t: int| 0 <= t < done2.len() && #[trigger] done2[t] implies ((rk2[t] == 0)
        <==> g.deps(t).len() == 0) by {
        if t != i {
            assert(done[t] && rk2[t] == rk[t]);
        }
    }
    assert forall|t: int|
        0 <= t < done2.len() && #[trigger] done2[t] && g.deps(t).len() > 0 implies exists|k: int|
        0 <= k < g.deps(t).len() && rk2[#[trigger] g.deps(t)[k] as int] + 1 == rk2[t] by {
        if t == i {
            let k = choose|k: int|
                0 <= k < g.deps(i).len() && rk[#[trigger] g.deps(i)[k] as int] + 1 == newr;
            assert(g.deps(i)[k] as int != i);
            assert(rk2[g.deps(t)[k] as int] + 1 == rk2[t]);
        } else {
            assert(done[t]);
            let k = choose|k: int|
                0 <= k < g.deps(t).len() && rk[#[trigger] g.deps(t)[k] as int] + 1 == rk[t];
            assert(done[t] && 0 <= k < g.deps(t).len());
            assert(done[g.deps(t)[k] as int]);
            assert(g.deps(t)[k] as int != i);
            assert(rk2[g.deps(t)[k] as int] + 1 == rk2[t]);
        }
    }
}

/// Along a chain of edges, valid ranks drop by at least one per step.
proof fn lemma_rank_descent(g: Graph, r: Seq<usize>, c: Seq<usize>, k: int)
    requires
        g.wf(),
        g.valid_ranks(r),
        forall|t: int| 0 <= t < c.len() - 1 ==> g.spec_edge(#[trigger] c[t], c[t + 1]),
        forall|t: int| 0 <= t < c.len() ==> (#[trigger] c[t]) < g.adj@.len(),
        0 <= k < c.len(),
    ensures
        r[c[k] as int] + k <= r[c[0] as int],
    decreases k,
{
    if k > 0 {
        lemma_rank_descent(g, r, c, k - 1);
        let a = c[k - 1];
        let b = c[k];
        assert(g.spec_edge(a, b));
        let kk = choose|kk: int| 0 <= kk < g.deps(a as int).len() && g.deps(a as int)[kk] == b;
        assert(r[g.deps(a as int)[kk] as int] < r[a as int]);
    }
}

/// A graph that admits valid ranks has no cycle: ranks would have to drop
/// forever around it.
pub proof fn lemma_valid_ranks_acyclic(g: Graph, r: Seq<usize>)
    requires
        g.wf(),
        g.valid_ranks(r),
    ensures
        g.acyclic(),
{
    assert forall|c: Seq<usize>| !g.is_cycle(c) by {
        if g.is_cycle(c) {
            assert forall|t: int| 0 <= t < c.len() implies (#[trigger] c[t]) < g.adj@.len() by {
                if t < c.len() - 1 {
                    assert(g.spec_edge(c[t], c[t + 1]));
                } else {
                    assert(g.spec_edge(c[c.len() - 1], c[0]));
                }
            }
            lemma_rank_descent(g, r, c, c.len() - 1);
            let a = c[c.len() - 1];
            let b = c[0];
            assert(g.spec_edge(a, b));
            let kk = choose|kk: int| 0 <= kk < g.deps(a as int).len() && g.deps(a as int)[kk] == b;
            assert(r[g.deps(a as int)[kk] as int] < r[a as int]);
            assert(false);
        }
    }
}

/// Where `w` occurs in the walked path.
fn find_position(path: &Vec<usize>, w: usize) -> (pos: usize)
    requires
        path@.contains(w),
    ensures
        pos < path@.len(),
        path@[pos as int] == w,
{
    let plen = path.len();
    for t in 0..plen
        invariant
            plen == path@.len(),
            path@.contains(w),
            forall|u: int| 0 <= u < t ==> path@[u] != w,
    {
        if path[t] == w {
            return t;
        }
    }
    proof {
        let u = choose|u: int| 0 <= u < path@.len() && path@[u] == w;
        assert(false);
    }
    0
}

/// Copy the tail of the walked path, starting at `pos`.
fn copy_tail(path: &Vec<usize>, pos: usize) -> (c: Vec<usize>)
    requires
        pos < path@.len(),
    ensures
        c@ == path@.subrange(pos as int, path@.len() as int),
{
    let plen = path.len();
    let mut cyc: Vec<usize> = Vec::new();
    proof {
        assert(cyc@ =~= path@.subrange(pos as int, pos as int));
    }
    let mut t = pos;
    while t < plen
        invariant
            pos <= t <= plen,
            plen == path@.len(),
            cyc@ == path@.subrange(pos as int, t as int),
        decreases plen - t,
    {
        cyc.push(path[t]);
        proof {
            assert(cyc@ =~= path@.subrange(pos as int, t as int + 1));
        }
        t = t + 1;
    }
    cyc
}

} // verus!
