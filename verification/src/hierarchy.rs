//! Reconstruction of the process hierarchy from a flat snapshot.
//!
//! The system offers no tree query, only a flat listing of
//! `(pid, parent pid)` pairs.  This module models that listing as a
//! mathematical map and computes, for a given root, the set of processes
//! reachable along parent-to-child edges.  The traversal keeps an explicit
//! visited list, so it terminates and stays sound even when racing or
//! corrupted data makes the reported graph cyclic.

use vstd::prelude::*;

verus! {

/// One reported link of the snapshot: `pid` was spawned by `parent`.
#[derive(Clone, Copy, PartialEq, Eq, Structural, Debug)]
pub struct ProcessLink {
    pub pid: u32,
    pub parent: u32,
}

/// The map a sequence of links denotes, later entries overriding earlier
/// ones, as reinserting a key in a hash map would.
pub open spec fn links_map(s: Seq<ProcessLink>) -> Map<u32, u32>
    decreases s.len(),
{
    if s.len() == 0 {
        Map::empty()
    } else {
        links_map(s.drop_last()).insert(s.last().pid, s.last().parent)
    }
}

/// No pid occurs twice.
pub open spec fn unique_pids(s: Seq<ProcessLink>) -> bool {
    forall|i: int, j: int| 0 <= i < j < s.len() ==> s[i].pid != s[j].pid
}

proof fn lemma_links_map_dom(s: Seq<ProcessLink>)
    ensures
        forall|p: u32| #[trigger]
            links_map(s).dom().contains(p) <==> exists|i: int|
                0 <= i < s.len() && (#[trigger] s[i]).pid == p,
    decreases s.len(),
{
    if s.len() > 0 {
        let t = s.drop_last();
        lemma_links_map_dom(t);
        assert forall|p: u32| #[trigger] links_map(s).dom().contains(p) implies exists|i: int|
            0 <= i < s.len() && (#[trigger] s[i]).pid == p by {
            if p == s.last().pid {
                assert(s[s.len() - 1].pid == p);
            } else {
                assert(links_map(t).dom().contains(p));
                let i = choose|i: int| 0 <= i < t.len() && (#[trigger] t[i]).pid == p;
                assert(s[i] == t[i]);
                assert(s[i].pid == p);
            }
        }
        assert forall|p: u32|
            exists|i: int| 0 <= i < s.len() && (#[trigger] s[i]).pid == p implies #[trigger]
            links_map(s).dom().contains(p) by {
            let i = choose|i: int| 0 <= i < s.len() && (#[trigger] s[i]).pid == p;
            if i == s.len() - 1 {
                assert(p == s.last().pid);
            } else {
                assert(t[i] == s[i]);
                assert(t[i].pid == p);
                assert(links_map(t).dom().contains(p));
            }
        }
    }
}

proof fn lemma_links_map_at(s: Seq<ProcessLink>, i: int)
    requires
        unique_pids(s),
        0 <= i < s.len(),
    ensures
        links_map(s).dom().contains(s[i].pid),
        links_map(s)[s[i].pid] == s[i].parent,
    decreases s.len(),
{
    if i < s.len() - 1 {
        assert(unique_pids(s.drop_last()));
        assert(s.drop_last()[i] == s[i]);
        lemma_links_map_at(s.drop_last(), i);
        assert(s.last().pid != s[i].pid);
    }
}

proof fn lemma_links_map_finite(s: Seq<ProcessLink>)
    ensures
        links_map(s).dom().finite(),
    decreases s.len(),
{
    if s.len() > 0 {
        lemma_links_map_finite(s.drop_last());
    }
}

/// A point-in-time map from each process to its reported parent, built
/// once per orchestration call and immutable for its duration.
pub struct ParentMap {
    links: Vec<ProcessLink>,
}

impl ParentMap {
    /// The mathematical parent map this snapshot denotes.
    pub closed spec fn view(&self) -> Map<u32, u32> {
        links_map(self.links@)
    }

    /// Each pid reports exactly one parent.
    pub closed spec fn wf(&self) -> bool {
        unique_pids(self.links@)
    }

    /// An empty snapshot.
    pub fn new() -> (r: ParentMap)
        ensures
            r.wf(),
            r@ == Map::<u32, u32>::empty(),
    {
        ParentMap { links: Vec::new() }
    }

    /// Record that `pid` reports `parent`; a pid already present is
    /// overwritten, as the underlying listing reports each pid once and
    /// the last report wins.
    pub fn insert(&mut self, pid: u32, parent: u32)
        requires
            old(self).wf(),
        ensures
            final(self).wf(),
            final(self)@ == old(self)@.insert(pid, parent),
    {
        let n = self.links.len();
        let mut i: usize = 0;
        while i < n
            invariant
                self.links@ == old(self).links@,
                unique_pids(self.links@),
                n == self.links@.len(),
                i <= n,
                forall|j: int| 0 <= j < i ==> (#[trigger] self.links@[j]).pid != pid,
            decreases n - i,
        {
            if self.links[i].pid == pid {
                let ghost old_links = self.links@;
                self.links.set(i, ProcessLink { pid, parent });
                proof {
                    lemma_update_links_map(old_links, i as int, parent);
                    assert(ProcessLink { pid: old_links[i as int].pid, parent } == ProcessLink {
                        pid,
                        parent,
                    });
                }
                return;
            }
            i = i + 1;
        }
        let ghost old_links = self.links@;
        self.links.push(ProcessLink { pid, parent });
        proof {
            assert(self.links@.drop_last() =~= old_links);
            assert(forall|j: int|
                0 <= j < old_links.len() ==> #[trigger] self.links@[j] == old_links[j]);
            assert(unique_pids(self.links@)) by {
                assert(forall|j: int|
                    0 <= j < old_links.len() ==> (#[trigger] old_links[j]).pid != pid);
                assert(self.links@[self.links@.len() - 1].pid == pid);
            }
        }
    }

    /// Whether the snapshot has an entry for `pid`.
    pub fn contains_pid(&self, pid: u32) -> (r: bool)
        ensures
            r == self@.dom().contains(pid),
    {
        proof {
            lemma_links_map_dom(self.links@);
        }
        let n = self.links.len();
        let mut i: usize = 0;
        while i < n
            invariant
                n == self.links@.len(),
                i <= n,
                forall|j: int| 0 <= j < i ==> (#[trigger] self.links@[j]).pid != pid,
            decreases n - i,
        {
            if self.links[i].pid == pid {
                proof {
                    lemma_links_map_dom(self.links@);
                }
                return true;
            }
            i = i + 1;
        }
        proof {
            lemma_links_map_dom(self.links@);
        }
        false
    }

    /// The reported parent of `pid`, if the snapshot has one.
    pub fn parent_of(&self, pid: u32) -> (r: Option<u32>)
        requires
            self.wf(),
        ensures
            self@.dom().contains(pid) ==> r == Some(self@[pid]),
            !self@.dom().contains(pid) ==> r is None,
    {
        let n = self.links.len();
        let mut i: usize = 0;
        while i < n
            invariant
                n == self.links@.len(),
                i <= n,
                self.wf(),
                forall|j: int| 0 <= j < i ==> (#[trigger] self.links@[j]).pid != pid,
            decreases n - i,
        {
            if self.links[i].pid == pid {
                proof {
                    lemma_links_map_at(self.links@, i as int);
                }
                return Some(self.links[i].parent);
            }
            i = i + 1;
        }
        proof {
            lemma_links_map_dom(self.links@);
        }
        None
    }

}

proof fn lemma_update_links_map(s: Seq<ProcessLink>, i: int, parent: u32)
    requires
        unique_pids(s),
        0 <= i < s.len(),
    ensures
        unique_pids(s.update(i, ProcessLink { pid: s[i].pid, parent })),
        links_map(s.update(i, ProcessLink { pid: s[i].pid, parent })) == links_map(s).insert(
            s[i].pid,
            parent,
        ),
    decreases s.len(),
{
    let t = s.update(i, ProcessLink { pid: s[i].pid, parent });
    assert(unique_pids(t)) by {
        assert(forall|j: int| 0 <= j < s.len() ==> (#[trigger] t[j]).pid == s[j].pid);
    }
    if i == s.len() - 1 {
        assert(t.drop_last() =~= s.drop_last());
        assert(links_map(t) =~= links_map(s).insert(s[i].pid, parent));
    } else {
        assert(t.drop_last() =~= s.drop_last().update(i, ProcessLink { pid: s[i].pid, parent }));
        assert(unique_pids(s.drop_last()));
        assert(s.drop_last()[i] == s[i]);
        lemma_update_links_map(s.drop_last(), i, parent);
        assert(s.last().pid != s[i].pid);
        assert(t.last() == s.last());
        assert(links_map(t) =~= links_map(s).insert(s[i].pid, parent));
    }
}

/// `p` lies at most `n` parent hops above `root` in the reported map;
/// equivalently, `root` reaches `p` in at most `n` parent-to-child hops.
pub open spec fn reachable_in(m: Map<u32, u32>, root: u32, p: u32, n: nat) -> bool
    decreases n,
{
    if p == root {
        true
    } else if n == 0 {
        false
    } else {
        m.dom().contains(p) && reachable_in(m, root, m[p], (n - 1) as nat)
    }
}

/// `p` is reachable from `root` by zero or more parent-to-child hops.
pub open spec fn reachable(m: Map<u32, u32>, root: u32, p: u32) -> bool {
    exists|n: nat| reachable_in(m, root, p, n)
}

/// A set of pids that contains the root and is closed under reported
/// children contains everything reachable from the root.
proof fn lemma_closed_set_reaches(m: Map<u32, u32>, root: u32, done: Seq<u32>, p: u32, n: nat)
    requires
        done.contains(root),
        forall|c: u32| m.dom().contains(c) && done.contains(m[c]) ==> done.contains(c),
        reachable_in(m, root, p, n),
    ensures
        done.contains(p),
    decreases n,
{
    if p != root {
        lemma_closed_set_reaches(m, root, done, m[p], (n - 1) as nat);
    }
}

fn vec_contains_u32(v: &Vec<u32>, x: u32) -> (r: bool)
    ensures
        r == v@.contains(x),
{
    let n = v.len();
    let mut i: usize = 0;
    while i < n
        invariant
            n == v@.len(),
            i <= n,
            forall|j: int| 0 <= j < i ==> v@[j] != x,
        decreases n - i,
    {
        if v[i] == x {
            return true;
        }
        i = i + 1;
    }
    false
}

/// Expand `root` into the full set of pids the snapshot reports as its
/// descendants.  The result lists each pid once, starts with the root
/// (which is included even when the snapshot has no entry for it), and
/// holds exactly the pids reachable from the root — on every snapshot,
/// cyclic ones included.
pub fn expand_descendants(root: u32, map: &ParentMap) -> (r: Vec<u32>)
    requires
        map.wf(),
    ensures
        r@.len() >= 1,
        r@[0] == root,
        forall|i: int, j: int| 0 <= i < j < r@.len() ==> r@[i] != r@[j],
        forall|p: u32| #[trigger] r@.contains(p) <==> reachable(map@, root, p),
{
    let ghost m = map@;
    let ghost universe = m.dom().insert(root);
    proof {
        lemma_links_map_finite(map.links@);
    }
    let mut result: Vec<u32> = Vec::new();
    let mut work: Vec<u32> = Vec::new();
    work.push(root);
    proof {
        assert(reachable_in(m, root, root, 0));
        assert(work@.contains(root)) by {
            assert(work@[0] == root);
        }
        assert(work@ =~= seq![root]);
    }
    while work.len() > 0
        invariant
            map.wf(),
            m == map@,
            universe == m.dom().insert(root),
            universe.finite(),
            forall|p: u32| result@.contains(p) ==> universe.contains(p),
            forall|p: u32| work@.contains(p) ==> universe.contains(p),
            forall|p: u32| #[trigger] result@.contains(p) ==> reachable(m, root, p),
            forall|p: u32| #[trigger] work@.contains(p) ==> reachable(m, root, p),
            result@.contains(root) || work@.contains(root),
            result@.len() > 0 ==> result@[0] == root,
            result@.len() == 0 ==> work@ =~= seq![root],
            forall|i: int, j: int| 0 <= i < j < result@.len() ==> result@[i] != result@[j],
            forall|c: u32| #[trigger]
                m.dom().contains(c) && result@.contains(m[c]) ==> result@.contains(c)
                || work@.contains(c),
        decreases universe.difference(result@.to_set()).len(), work.len(),
    {
        let ghost work_before = work@;
        let ghost result_before = result@;
        let current = match work.pop() {
            Some(c) => c,
            None => {
                proof {
                    assert(false);
                }
                0
            },
        };
        proof {
            assert(work@ =~= work_before.drop_last());
            assert(work_before.contains(current)) by {
                assert(work_before[work_before.len() - 1] == current);
            }
            assert(forall|p: u32| #[trigger] work@.contains(p) ==> work_before.contains(p)) by {
                assert(forall|i: int|
                    0 <= i < work@.len() ==> work@[i] == work_before[i]);
            }
        }
        if !vec_contains_u32(&result, current) {
            result.push(current);
            proof {
                assert(forall|p: u32| #[trigger]
                    result@.contains(p) <==> result_before.contains(p) || p == current) by {
                    assert(forall|i: int|
                        0 <= i < result_before.len() ==> result@[i] == result_before[i]);
                    assert(result@[result@.len() - 1] == current);
                    assert forall|p: u32| #[trigger] result@.contains(p) implies
                        result_before.contains(p) || p == current by {
                        let i = choose|i: int| 0 <= i < result@.len() && result@[i] == p;
                        if i < result@.len() - 1 {
                            assert(result_before[i] == p);
                        }
                    }
                }
                assert(result@.to_set() =~= result_before.to_set().insert(current));
                universe.lemma_set_insert_diff_decreases(result_before.to_set(), current);
            }
            let ghost result_mid = result@;
            let n = map.links.len();
            let mut k: usize = 0;
            while k < n
                invariant
                    map.wf(),
                    m == map@,
                    n == map.links@.len(),
                    k <= n,
                    result@ == result_mid,
                    forall|p: u32| #[trigger] work@.contains(p) ==> universe.contains(p),
                    forall|p: u32| #[trigger] work@.contains(p) ==> reachable(m, root, p),
                    forall|p: u32| work_before.drop_last().contains(p) ==> work@.contains(p),
                    reachable(m, root, current),
                    result@.contains(current),
                    universe == m.dom().insert(root),
                    forall|j: int|
                        0 <= j < k && (#[trigger] map.links@[j]).parent == current
                            ==> result@.contains(map.links@[j].pid) || work@.contains(
                            map.links@[j].pid,
                        ),
                decreases n - k,
            {
                let link = map.links[k];
                if link.parent == current && !vec_contains_u32(&result, link.pid) {
                    let ghost work_mid = work@;
                    work.push(link.pid);
                    proof {
                        assert(forall|p: u32| #[trigger]
                            work@.contains(p) <==> work_mid.contains(p) || p == link.pid) by {
                            assert(forall|i: int|
                                0 <= i < work_mid.len() ==> work@[i] == work_mid[i]);
                            assert(work@[work@.len() - 1] == link.pid);
                        }
                        lemma_links_map_at(map.links@, k as int);
                        assert(m.dom().contains(link.pid));
                        assert(m[link.pid] == current);
                        let ghost nn = choose|nn: nat| reachable_in(m, root, current, nn);
                        assert(reachable_in(m, root, link.pid, nn + 1));
                        assert(reachable(m, root, link.pid));
                    }
                }
                k = k + 1;
            }
            proof {
                assert forall|c: u32| #[trigger]
                    m.dom().contains(c) && result@.contains(m[c]) implies result@.contains(c)
                    || work@.contains(c) by {
                    if m[c] == current {
                        lemma_links_map_dom(map.links@);
                        let i = choose|i: int|
                            0 <= i < map.links@.len() && (#[trigger] map.links@[i]).pid == c;
                        lemma_links_map_at(map.links@, i);
                        assert(map.links@[i].parent == m[c]);
                    } else {
                        assert(result_before.contains(m[c])) by {
                            assert(forall|i: int|
                                0 <= i < result_before.len() ==> result@[i] == result_before[i]);
                            assert(result@[result@.len() - 1] == current);
                        }
                        assert(result_before.contains(c) || work_before.contains(c));
                        if result_before.contains(c) {
                            assert(result@.contains(c)) by {
                                let i = choose|i: int|
                                    0 <= i < result_before.len() && result_before[i] == c;
                                assert(result@[i] == c);
                            }
                        } else {
                            assert(work_before.contains(c));
                            if c == current {
                                assert(result@.contains(c));
                            } else {
                                assert(work_before.drop_last().contains(c)) by {
                                    let i = choose|i: int|
                                        0 <= i < work_before.len() && work_before[i] == c;
                                    assert(i < work_before.len() - 1 ==> work_before.drop_last()[i]
                                        == c);
                                }
                            }
                        }
                    }
                }
            }
        } else {
            proof {
                assert(universe.difference(result@.to_set()).len() == universe.difference(
                    result_before.to_set(),
                ).len());
                assert forall|c: u32| #[trigger]
                    m.dom().contains(c) && result@.contains(m[c]) implies result@.contains(c)
                    || work@.contains(c) by {
                    if !result@.contains(c) {
                        assert(work_before.contains(c));
                        if c == current {
                            assert(result@.contains(current));
                        } else {
                            assert(work_before.drop_last().contains(c)) by {
                                let i = choose|i: int|
                                    0 <= i < work_before.len() && work_before[i] == c;
                                assert(i < work_before.len() - 1 ==> work_before.drop_last()[i]
                                    == c);
                            }
                        }
                    }
                }
            }
        }
    }
    proof {
        assert(result@.contains(root));
        assert forall|p: u32| reachable(m, root, p) implies #[trigger] result@.contains(p) by {
            let n = choose|n: nat| reachable_in(m, root, p, n);
            lemma_closed_set_reaches(m, root, result@, p, n);
        }
        assert(result@[0] == root);
    }
    result
}

} // verus!
