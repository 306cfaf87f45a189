use crate::vhdl::identifier::Identifier;
use vstd::prelude::*;

verus! {

/// A directed graph whose nodes carry a key each. A node is known by its
/// index, which is the order in which it was added; an edge `u -> v`
/// says that `v` depends on `u`.
#[derive(Debug)]
pub struct Graph {
    pub keys: Vec<Identifier>,
    pub edges: Vec<(usize, usize)>,
}

/// Whether `t` can be reached from `u` over at most `k` edges.
pub open spec fn reach(edges: Seq<(usize, usize)>, u: usize, t: usize, k: nat) -> bool
    decreases k,
{
    u == t || (k > 0 && exists|w: usize| #[trigger] edges.contains((u, w)) && reach(edges, w, t, (k - 1) as nat))
}

/// Whether `t` can be reached from `u`: `u` is `t` or one of its ancestors.
pub open spec fn is_ancestor(edges: Seq<(usize, usize)>, u: usize, t: usize) -> bool {
    exists|k: nat| reach(edges, u, t, k)
}

/// Whether `rank` numbers the nodes so that every edge leads to a higher number.
pub open spec fn ranks(edges: Seq<(usize, usize)>, rank: Seq<nat>, n: int) -> bool {
    &&& rank.len() == n
    &&& forall|i: int| 0 <= i < edges.len() ==> rank[(#[trigger] edges[i]).0 as int] < rank[edges[i].1 as int]
}

/// Whether the graph has no cycle: its nodes can be numbered so that every
/// edge leads to a higher number.
pub open spec fn acyclic(edges: Seq<(usize, usize)>, n: int) -> bool {
    exists|rank: Seq<nat>| ranks(edges, rank, n)
}

/// Whether every node from which an edge leads to `v` is among `done`.
pub open spec fn preds_in(edges: Seq<(usize, usize)>, v: usize, done: Seq<usize>) -> bool {
    forall|i: int| 0 <= i < edges.len() && (#[trigger] edges[i]).1 == v ==> done.contains(edges[i].0)
}

/// Whether `v` can come next in a topological order of the ancestors of
/// `root` that starts with `done`.
pub open spec fn available(edges: Seq<(usize, usize)>, root: usize, done: Seq<usize>, v: usize) -> bool {
    is_ancestor(edges, v, root) && !done.contains(v) && preds_in(edges, v, done)
}

/// The nodes to which an edge leads from `u`, among the first `n` edges, in
/// the order in which the edges were added.
pub open spec fn targets(edges: Seq<(usize, usize)>, u: usize, n: int) -> Seq<usize>
    decreases n,
{
    if n <= 0 {
        Seq::empty()
    } else if edges[n - 1].0 == u {
        targets(edges, u, n - 1).push(edges[n - 1].1)
    } else {
        targets(edges, u, n - 1)
    }
}

/// The nodes from which an edge leads to `v`, among the first `n` edges,
/// in the order in which the edges were added.
pub open spec fn sources(edges: Seq<(usize, usize)>, v: usize, n: int) -> Seq<usize>
    decreases n,
{
    if n <= 0 {
        Seq::empty()
    } else if edges[n - 1].1 == v {
        sources(edges, v, n - 1).push(edges[n - 1].0)
    } else {
        sources(edges, v, n - 1)
    }
}

/// The nodes below `n` from which no edge leads away, in ascending order.
pub open spec fn roots_below(edges: Seq<(usize, usize)>, n: int) -> Seq<usize>
    decreases n,
{
    if n <= 0 {
        Seq::empty()
    } else if targets(edges, (n - 1) as usize, edges.len() as int).len() == 0 {
        roots_below(edges, n - 1).push((n - 1) as usize)
    } else {
        roots_below(edges, n - 1)
    }
}

/// A node is among the targets of `u` exactly if an edge leads to it from `u`.
pub proof fn lemma_targets(edges: Seq<(usize, usize)>, u: usize, n: int)
    requires
        0 <= n <= edges.len(),
    ensures
        forall|v: usize|
            targets(edges, u, n).contains(v) <==> exists|i: int|
                0 <= i < n && #[trigger] edges[i] == (u, v),
    decreases n,
{
    if n > 0 {
        lemma_targets(edges, u, n - 1);
        let prev = targets(edges, u, n - 1);
        assert forall|v: usize|
            targets(edges, u, n).contains(v) <==> exists|i: int|
                0 <= i < n && #[trigger] edges[i] == (u, v) by {
            if edges[n - 1].0 == u {
                let w = edges[n - 1].1;
                if targets(edges, u, n).contains(v) {
                    let j = choose|j: int| 0 <= j < prev.push(w).len() && prev.push(w)[j] == v;
                    if j < prev.len() {
                        assert(prev.contains(v));
                        let i = choose|i: int| 0 <= i < n - 1 && #[trigger] edges[i] == (u, v);
                        assert(0 <= i < n && edges[i] == (u, v));
                    } else {
                        assert(edges[n - 1] == (u, v));
                    }
                }
                if exists|i: int| 0 <= i < n && #[trigger] edges[i] == (u, v) {
                    let i = choose|i: int| 0 <= i < n && #[trigger] edges[i] == (u, v);
                    if i < n - 1 {
                        assert(prev.contains(v));
                        let j = choose|j: int| 0 <= j < prev.len() && prev[j] == v;
                        assert(prev.push(w)[j] == v);
                    } else {
                        assert(prev.push(w)[prev.len() as int] == v);
                    }
                }
            } else {
                if exists|i: int| 0 <= i < n && #[trigger] edges[i] == (u, v) {
                    let i = choose|i: int| 0 <= i < n && #[trigger] edges[i] == (u, v);
                    assert(i < n - 1);
                }
            }
        }
    }
}

/// A node is among the sources of `v` exactly if an edge leads from it to `v`.
pub proof fn lemma_sources(edges: Seq<(usize, usize)>, v: usize, n: int)
    requires
        0 <= n <= edges.len(),
    ensures
        forall|u: usize|
            sources(edges, v, n).contains(u) <==> exists|i: int|
                0 <= i < n && #[trigger] edges[i] == (u, v),
    decreases n,
{
    if n > 0 {
        lemma_sources(edges, v, n - 1);
        let prev = sources(edges, v, n - 1);
        assert forall|u: usize|
            sources(edges, v, n).contains(u) <==> exists|i: int|
                0 <= i < n && #[trigger] edges[i] == (u, v) by {
            if edges[n - 1].1 == v {
                let w = edges[n - 1].0;
                if sources(edges, v, n).contains(u) {
                    let j = choose|j: int| 0 <= j < prev.push(w).len() && prev.push(w)[j] == u;
                    if j < prev.len() {
                        assert(prev.contains(u));
                        let i = choose|i: int| 0 <= i < n - 1 && #[trigger] edges[i] == (u, v);
                        assert(0 <= i < n && edges[i] == (u, v));
                    } else {
                        assert(edges[n - 1] == (u, v));
                    }
                }
                if exists|i: int| 0 <= i < n && #[trigger] edges[i] == (u, v) {
                    let i = choose|i: int| 0 <= i < n && #[trigger] edges[i] == (u, v);
                    if i < n - 1 {
                        assert(prev.contains(u));
                        let j = choose|j: int| 0 <= j < prev.len() && prev[j] == u;
                        assert(prev.push(w)[j] == u);
                    } else {
                        assert(prev.push(w)[prev.len() as int] == u);
                    }
                }
            } else {
                if exists|i: int| 0 <= i < n && #[trigger] edges[i] == (u, v) {
                    let i = choose|i: int| 0 <= i < n && #[trigger] edges[i] == (u, v);
                    assert(i < n - 1);
                }
            }
        }
    }
}

impl Graph {
    /// Whether the graph is well formed: no two nodes have the same key,
    /// every edge joins two nodes, and no edge occurs twice.
    pub open spec fn wf(&self) -> bool {
        &&& forall|i: int, j: int|
            #![trigger self.keys@[i], self.keys@[j]]
            0 <= i < j < self.keys@.len() ==> !self.keys@[i].same(&self.keys@[j])
        &&& forall|i: int|
            0 <= i < self.edges@.len() ==> (#[trigger] self.edges@[i]).0 < self.keys@.len()
                && self.edges@[i].1 < self.keys@.len()
        &&& self.edges@.no_duplicates()
    }

    /// Whether an edge leads from `u` to `v`.
    pub open spec fn edge(&self, u: usize, v: usize) -> bool {
        self.edges@.contains((u, v))
    }

    /// The index of the node with the key `key`, if there is one.
    pub open spec fn index_of(&self, key: &Identifier) -> Option<int> {
        if exists|i: int| 0 <= i < self.keys@.len() && self.keys@[i].same(key) {
            Some(choose|i: int| 0 <= i < self.keys@.len() && self.keys@[i].same(key))
        } else {
            None
        }
    }

    /// A graph without nodes.
    pub fn new() -> (g: Graph)
        ensures
            g.wf(),
            g.keys@.len() == 0,
            g.edges@.len() == 0,
    {
        Graph { keys: Vec::new(), edges: Vec::new() }
    }

    /// The number of nodes.
    pub fn node_count(&self) -> (n: usize)
        ensures
            n == self.keys@.len(),
    {
        self.keys.len()
    }

    /// The number of edges.
    pub fn edge_count(&self) -> (n: usize)
        ensures
            n == self.edges@.len(),
    {
        self.edges.len()
    }

    /// Finds the node with the key `key`.
    pub fn find_node(&self, key: &Identifier) -> (r: Option<usize>)
        ensures
            match r {
                Some(i) => i < self.keys@.len() && self.keys@[i as int].same(key) && forall|j: int|
                    0 <= j < i ==> !(#[trigger] self.keys@[j]).same(key),
                None => forall|j: int|
                    0 <= j < self.keys@.len() ==> !(#[trigger] self.keys@[j]).same(key),
            },
    {
        let mut i: usize = 0;
        while i < self.keys.len()
            invariant
                i <= self.keys.len(),
                forall|j: int| 0 <= j < i ==> !(#[trigger] self.keys@[j]).same(key),
            decreases self.keys.len() - i,
        {
            if self.keys[i].matches(key) {
                return Some(i);
            }
            i += 1;
        }
        None
    }

    /// The key of node `i`.
    pub fn get_node(&self, i: usize) -> (r: Option<&Identifier>)
        ensures
            match r {
                Some(k) => i < self.keys@.len() && *k == self.keys@[i as int],
                None => i >= self.keys@.len(),
            },
    {
        if i < self.keys.len() {
            Some(&self.keys[i])
        } else {
            None
        }
    }

    /// Adds a node with the key `key`, unless the graph has one already.
    /// Returns the index of the node with that key.
    pub fn add_node(&mut self, key: Identifier) -> (r: usize)
        requires
            old(self).wf(),
        ensures
            final(self).wf(),
            final(self).edges == old(self).edges,
            r < final(self).keys@.len(),
            final(self).keys@[r as int].same(&key),
            match old(self).index_of(&key) {
                Some(_) => final(self).keys@ == old(self).keys@,
                None => final(self).keys@ == old(self).keys@.push(key) && r == old(self).keys@.len(),
            },
            forall|j: int| 0 <= j < r ==> !(#[trigger] final(self).keys@[j]).same(&key),
    {
        match self.find_node(&key) {
            Some(i) => i,
            None => {
                let n = self.keys.len();
                proof {
                    lemma_same_reflexive(&key);
                    assert forall|i: int, j: int|
                        #![trigger self.keys@.push(key)[i], self.keys@.push(key)[j]]
                        0 <= i < j < self.keys@.push(key).len() implies !self.keys@.push(key)[i].same(
                            &self.keys@.push(key)[j],
                        ) by {
                        if j == self.keys@.len() {
                            lemma_same_symmetric(&self.keys@[i], &key);
                        }
                    }
                }
                self.keys.push(key);
                n
            },
        }
    }

    /// Whether an edge leads from `from` to `to`.
    pub fn has_edge(&self, from: usize, to: usize) -> (r: bool)
        ensures
            r == self.edge(from, to),
    {
        let mut i: usize = 0;
        while i < self.edges.len()
            invariant
                i <= self.edges.len(),
                forall|j: int| 0 <= j < i ==> self.edges@[j] != (from, to),
            decreases self.edges.len() - i,
        {
            let e = self.edges[i];
            if e.0 == from && e.1 == to {
                return true;
            }
            i += 1;
        }
        false
    }

    /// Adds an edge from `from` to `to`, saying that `to` depends on
    /// `from`. Nothing is added if one of them is no node, or if the edge
    /// is there already. Returns whether the edge was added.
    pub fn add_edge(&mut self, from: usize, to: usize) -> (r: bool)
        requires
            old(self).wf(),
        ensures
            final(self).wf(),
            final(self).keys == old(self).keys,
            r == (from < old(self).keys@.len() && to < old(self).keys@.len() && !old(self).edge(
                from,
                to,
            )),
            final(self).edges@ == if r {
                old(self).edges@.push((from, to))
            } else {
                old(self).edges@
            },
    {
        if from >= self.keys.len() || to >= self.keys.len() {
            return false;
        }
        if self.has_edge(from, to) {
            return false;
        }
        self.edges.push((from, to));
        true
    }

    /// The nodes that depend on `u`, in the order in which the edges were added.
    pub fn successors(&self, u: usize) -> (r: Vec<usize>)
        ensures
            r@ == targets(self.edges@, u, self.edges@.len() as int),
            forall|v: usize| r@.contains(v) <==> self.edge(u, v),
    {
        let mut out: Vec<usize> = Vec::new();
        let mut i: usize = 0;
        while i < self.edges.len()
            invariant
                i <= self.edges.len(),
                out@ == targets(self.edges@, u, i as int),
            decreases self.edges.len() - i,
        {
            if self.edges[i].0 == u {
                out.push(self.edges[i].1);
            }
            i += 1;
        }
        proof {
            lemma_targets(self.edges@, u, self.edges@.len() as int);
        }
        out
    }

    /// The nodes that `v` depends on, in the order in which the edges were added.
    pub fn predecessors(&self, v: usize) -> (r: Vec<usize>)
        ensures
            r@ == sources(self.edges@, v, self.edges@.len() as int),
            forall|u: usize| r@.contains(u) <==> self.edge(u, v),
    {
        let mut out: Vec<usize> = Vec::new();
        let mut i: usize = 0;
        while i < self.edges.len()
            invariant
                i <= self.edges.len(),
                out@ == sources(self.edges@, v, i as int),
            decreases self.edges.len() - i,
        {
            if self.edges[i].1 == v {
                out.push(self.edges[i].0);
            }
            i += 1;
        }
        proof {
            lemma_sources(self.edges@, v, self.edges@.len() as int);
        }
        out
    }

    /// The number of nodes that depend on `u`.
    pub fn out_degree(&self, u: usize) -> (r: usize)
        ensures
            r == targets(self.edges@, u, self.edges@.len() as int).len(),
    {
        self.successors(u).len()
    }

    /// The number of nodes that `v` depends on.
    pub fn in_degree(&self, v: usize) -> (r: usize)
        ensures
            r == sources(self.edges@, v, self.edges@.len() as int).len(),
    {
        self.predecessors(v).len()
    }

    /// The nodes on which nothing depends, in ascending order.
    pub fn roots(&self) -> (r: Vec<usize>)
        ensures
            r@ == roots_below(self.edges@, self.keys@.len() as int),
    {
        let mut out: Vec<usize> = Vec::new();
        let mut v: usize = 0;
        while v < self.keys.len()
            invariant
                v <= self.keys.len(),
                out@ == roots_below(self.edges@, v as int),
            decreases self.keys.len() - v,
        {
            if self.out_degree(v) == 0 {
                out.push(v);
            }
            v += 1;
        }
        out
    }

    /// Finds the root of the graph: the one node on which nothing depends.
    /// Where there is none or more than one, all of them are returned as
    /// the error.
    pub fn find_root(&self) -> (r: Result<usize, Vec<usize>>)
        ensures
            match r {
                Ok(v) => roots_below(self.edges@, self.keys@.len() as int) == seq![v],
                Err(list) => list@ == roots_below(self.edges@, self.keys@.len() as int)
                    && list@.len() != 1,
            },
    {
        let list = self.roots();
        if list.len() == 1 {
            let v = list[0];
            assert(list@ =~= seq![v]);
            Ok(v)
        } else {
            Err(list)
        }
    }
}

/// An identifier names the same thing as itself.
pub proof fn lemma_same_reflexive(a: &Identifier)
    ensures
        a.same(a),
{
}

/// If `a` names the same thing as `b`, then `b` names the same thing as `a`.
pub proof fn lemma_same_symmetric(a: &Identifier, b: &Identifier)
    ensures
        a.same(b) == b.same(a),
{
}

/// The number of entries of `s` that are `false`.
pub open spec fn count_false(s: Seq<bool>) -> nat
    decreases s.len(),
{
    if s.len() == 0 {
        0
    } else {
        count_false(s.drop_last()) + if s.last() {
            0nat
        } else {
            1nat
        }
    }
}

/// Setting one `false` entry to `true` lowers the count by one.
pub proof fn lemma_count_false_update(s: Seq<bool>, i: int)
    requires
        0 <= i < s.len(),
        !s[i],
    ensures
        count_false(s.update(i, true)) + 1 == count_false(s),
    decreases s.len(),
{
    if i == s.len() - 1 {
        assert(s.update(i, true).drop_last() =~= s.drop_last());
    } else {
        assert(s.update(i, true).drop_last() =~= s.drop_last().update(i, true));
        lemma_count_false_update(s.drop_last(), i);
    }
}

/// Whether `marks` holds, with each node on which a marked node depends,
/// that node too.
pub open spec fn closed(edges: Seq<(usize, usize)>, marks: Seq<bool>) -> bool {
    forall|j: int|
        0 <= j < edges.len() && marks[(#[trigger] edges[j]).1 as int] ==> marks[edges[j].0 as int]
}

/// A set of marks that holds the root and is closed holds every ancestor.
pub proof fn lemma_closed_holds_ancestors(
    edges: Seq<(usize, usize)>,
    marks: Seq<bool>,
    root: usize,
    u: usize,
    k: nat,
)
    requires
        root < marks.len(),
        marks[root as int],
        closed(edges, marks),
        forall|j: int|
            0 <= j < edges.len() ==> (#[trigger] edges[j]).0 < marks.len() && edges[j].1
                < marks.len(),
        reach(edges, u, root, k),
    ensures
        u < marks.len(),
        marks[u as int],
    decreases k,
{
    if u != root {
        let w = choose|w: usize| #[trigger]
            edges.contains((u, w)) && reach(edges, w, root, (k - 1) as nat);
        lemma_closed_holds_ancestors(edges, marks, root, w, (k - 1) as nat);
        let j = choose|j: int| 0 <= j < edges.len() && edges[j] == (u, w);
        assert(edges[j].1 == w);
    }
}

/// A node from which an edge leads to an ancestor of `root` is an ancestor too.
pub proof fn lemma_ancestor_step(edges: Seq<(usize, usize)>, u: usize, v: usize, root: usize)
    requires
        edges.contains((u, v)),
        is_ancestor(edges, v, root),
    ensures
        is_ancestor(edges, u, root),
{
    let k = choose|k: nat| reach(edges, v, root, k);
    assert(reach(edges, v, root, ((k + 1) - 1) as nat));
    assert(reach(edges, u, root, k + 1));
}

/// Among the nodes below `i` that satisfy `p`, one has the lowest rank.
pub proof fn lemma_min_rank(rank: Seq<nat>, p: spec_fn(int) -> bool, i: int) -> (m: int)
    requires
        0 <= i <= rank.len(),
        exists|v: int| 0 <= v < i && #[trigger] p(v),
    ensures
        0 <= m < i,
        p(m),
        forall|w: int| 0 <= w < i && #[trigger] p(w) ==> rank[m] <= rank[w],
    decreases i,
{
    if exists|v: int| 0 <= v < i - 1 && #[trigger] p(v) {
        let m0 = lemma_min_rank(rank, p, i - 1);
        if p(i - 1) && rank[i - 1] < rank[m0] {
            i - 1
        } else {
            m0
        }
    } else {
        i - 1
    }
}

/// In a graph without cycles, as long as an ancestor of `root` is missing
/// from `done`, one of the missing ones can come next.
pub proof fn lemma_none_left(
    edges: Seq<(usize, usize)>,
    n: int,
    root: usize,
    done: Seq<usize>,
)
    requires
        acyclic(edges, n),
        n <= usize::MAX,
        forall|j: int| 0 <= j < edges.len() ==> (#[trigger] edges[j]).0 < n && edges[j].1 < n,
        forall|w: usize| w < n ==> !#[trigger] available(edges, root, done, w),
    ensures
        forall|v: usize| v < n && #[trigger] is_ancestor(edges, v, root) ==> done.contains(v),
{
    let rank = choose|rank: Seq<nat>| ranks(edges, rank, n);
    let p = |v: int| 0 <= v < n && is_ancestor(edges, v as usize, root) && !done.contains(v as usize);
    if exists|v: int| 0 <= v < n && #[trigger] p(v) {
        let m = lemma_min_rank(rank, p, n);
        let mu = m as usize;
        assert forall|i: int| 0 <= i < edges.len() && (#[trigger] edges[i]).1 == mu implies done.contains(
            edges[i].0,
        ) by {
            let u = edges[i].0;
            assert(edges[i] == (u, mu));
            assert(edges.contains((u, mu)));
            lemma_ancestor_step(edges, u, mu, root);
            assert(rank[u as int] < rank[m]);
            if !done.contains(u) {
                assert(p(u as int));
            }
        }
        assert(available(edges, root, done, mu));
        assert(false);
    }
    assert forall|v: usize| v < n && #[trigger] is_ancestor(edges, v, root) implies done.contains(
        v,
    ) by {
        if !done.contains(v) {
            assert(p(v as int));
        }
    }
}

/// A sequence of distinct numbers below `n` has at most `n` entries.
pub proof fn lemma_distinct_bounded(s: Seq<usize>, n: int)
    requires
        s.no_duplicates(),
        forall|i: int| 0 <= i < s.len() ==> (#[trigger] s[i]) < n,
        0 <= n,
    ensures
        s.len() <= n,
{
    let ints = s.map_values(|v: usize| v as int);
    assert(ints.no_duplicates()) by {
        assert forall|i: int, j: int| 0 <= i < ints.len() && 0 <= j < ints.len() && i != j implies ints[i]
            != ints[j] by {
            assert(s[i] != s[j]);
        }
    }
    ints.unique_seq_to_set();
    vstd::set_lib::lemma_int_range(0, n);
    assert(ints.to_set().subset_of(vstd::set_lib::set_int_range(0, n))) by {
        assert forall|x: int| ints.to_set().contains(x) implies vstd::set_lib::set_int_range(
            0,
            n,
        ).contains(x) by {
            let i = choose|i: int| 0 <= i < ints.len() && ints[i] == x;
            assert(s[i] < n);
        }
    }
    vstd::set_lib::lemma_len_subset(ints.to_set(), vstd::set_lib::set_int_range(0, n));
}

/// Whether `v` is the node of the lowest index that can come next after `done`.
pub open spec fn least_available(
    edges: Seq<(usize, usize)>,
    root: usize,
    done: Seq<usize>,
    v: usize,
) -> bool {
    available(edges, root, done, v) && forall|w: usize|
        w < v ==> !#[trigger] available(edges, root, done, w)
}

/// Whether `order` lists nodes so that each is the node of the lowest index
/// that can come next after those before it.
pub open spec fn greedy(edges: Seq<(usize, usize)>, root: usize, order: Seq<usize>) -> bool {
    forall|k: int|
        0 <= k < order.len() ==> least_available(edges, root, order.take(k), #[trigger] order[k])
}

/// In an order in which each node comes after all the nodes it depends on,
/// every edge leads from an earlier node to a later one.
pub proof fn lemma_greedy_sorted(
    edges: Seq<(usize, usize)>,
    root: usize,
    order: Seq<usize>,
    i: int,
    j: int,
)
    requires
        greedy(edges, root, order),
        order.no_duplicates(),
        0 <= i < order.len(),
        0 <= j < order.len(),
        edges.contains((order[i], order[j])),
    ensures
        i < j,
{
    let v = order[j];
    assert(least_available(edges, root, order.take(j), v));
    let e = choose|e: int| 0 <= e < edges.len() && edges[e] == (order[i], order[j]);
    assert(edges[e].1 == v);
    assert(order.take(j).contains(order[i]));
    let k = choose|k: int| 0 <= k < order.take(j).len() && order.take(j)[k] == order[i];
    assert(order[k] == order[i]);
}

impl Graph {
    /// Marks the ancestors of `root`, the root itself among them.
    pub fn ancestors(&self, root: usize) -> (marks: Vec<bool>)
        requires
            self.wf(),
            root < self.keys@.len(),
        ensures
            marks@.len() == self.keys@.len(),
            forall|v: usize|
                v < marks@.len() ==> (marks@[v as int] <==> #[trigger] is_ancestor(
                    self.edges@,
                    v,
                    root,
                )),
            forall|v: usize| #[trigger] is_ancestor(self.edges@, v, root) ==> v < marks@.len(),
    {
        let n = self.keys.len();
        let mut marks: Vec<bool> = vec![false; n];
        marks.set(root, true);
        assert(reach(self.edges@, root, root, 0));
        let mut changed = true;
        while changed
            invariant
                self.wf(),
                n == self.keys@.len(),
                marks@.len() == n,
                root < n,
                marks@[root as int],
                forall|v: usize|
                    v < n && marks@[v as int] ==> #[trigger] is_ancestor(self.edges@, v, root),
                !changed ==> closed(self.edges@, marks@),
            decreases
                    count_false(marks@) + if changed {
                        1nat
                    } else {
                        0nat
                    },
        {
            changed = false;
            let ghost start = marks@;
            let mut i: usize = 0;
            while i < self.edges.len()
                invariant
                    self.wf(),
                    n == self.keys@.len(),
                    marks@.len() == n,
                    root < n,
                    marks@[root as int],
                    i <= self.edges@.len(),
                    forall|v: usize|
                        v < n && marks@[v as int] ==> #[trigger] is_ancestor(self.edges@, v, root),
                    !changed ==> marks@ == start,
                    !changed ==> forall|j: int|
                        0 <= j < i && marks@[(#[trigger] self.edges@[j]).1 as int]
                            ==> marks@[self.edges@[j].0 as int],
                    changed ==> count_false(marks@) < count_false(start),
                decreases self.edges.len() - i,
            {
                let e = self.edges[i];
                if marks[e.1] && !marks[e.0] {
                    proof {
                        lemma_count_false_update(marks@, e.0 as int);
                        assert(self.edges@.contains((e.0, e.1)));
                        lemma_ancestor_step(self.edges@, e.0, e.1, root);
                    }
                    marks.set(e.0, true);
                    changed = true;
                }
                i += 1;
            }
        }
        proof {
            assert forall|v: usize| #[trigger] is_ancestor(self.edges@, v, root) implies v
                < marks@.len() && marks@[v as int] by {
                let k = choose|k: nat| reach(self.edges@, v, root, k);
                lemma_closed_holds_ancestors(self.edges@, marks@, root, v, k);
            }
        }
        marks
    }

    /// Whether every node that `v` depends on is marked in `emitted`.
    fn preds_emitted(&self, v: usize, emitted: &Vec<bool>, Ghost(done): Ghost<Seq<usize>>) -> (r:
        bool)
        requires
            self.wf(),
            emitted@.len() == self.keys@.len(),
            forall|u: usize| u < emitted@.len() ==> (emitted@[u as int] <==> done.contains(u)),
        ensures
            r == preds_in(self.edges@, v, done),
    {
        let mut i: usize = 0;
        while i < self.edges.len()
            invariant
                self.wf(),
                i <= self.edges@.len(),
                emitted@.len() == self.keys@.len(),
                forall|u: usize| u < emitted@.len() ==> (emitted@[u as int] <==> done.contains(u)),
                forall|j: int|
                    0 <= j < i && (#[trigger] self.edges@[j]).1 == v ==> done.contains(
                        self.edges@[j].0,
                    ),
            decreases self.edges.len() - i,
        {
            let e = self.edges[i];
            if e.1 == v && !emitted[e.0] {
                return false;
            }
            i += 1;
        }
        true
    }

    /// Finds the node of the lowest index that can come next after `done`.
    fn next_available(
        &self,
        root: usize,
        marks: &Vec<bool>,
        emitted: &Vec<bool>,
        Ghost(done): Ghost<Seq<usize>>,
    ) -> (r: Option<usize>)
        requires
            self.wf(),
            marks@.len() == self.keys@.len(),
            emitted@.len() == self.keys@.len(),
            forall|v: usize|
                v < marks@.len() ==> (marks@[v as int] <==> #[trigger] is_ancestor(
                    self.edges@,
                    v,
                    root,
                )),
            forall|u: usize| u < emitted@.len() ==> (emitted@[u as int] <==> done.contains(u)),
        ensures
            match r {
                Some(v) => v < self.keys@.len() && least_available(self.edges@, root, done, v),
                None => forall|w: usize|
                    w < self.keys@.len() ==> !#[trigger] available(self.edges@, root, done, w),
            },
    {
        let mut v: usize = 0;
        while v < self.keys.len()
            invariant
                self.wf(),
                v <= self.keys@.len(),
                marks@.len() == self.keys@.len(),
                emitted@.len() == self.keys@.len(),
                forall|v: usize|
                    v < marks@.len() ==> (marks@[v as int] <==> #[trigger] is_ancestor(
                        self.edges@,
                        v,
                        root,
                    )),
                forall|u: usize| u < emitted@.len() ==> (emitted@[u as int] <==> done.contains(u)),
                forall|w: usize| w < v ==> !#[trigger] available(self.edges@, root, done, w),
            decreases self.keys.len() - v,
        {
            if marks[v] && !emitted[v] && self.preds_emitted(v, emitted, Ghost(done)) {
                return Some(v);
            }
            v += 1;
        }
        None
    }

    /// Lists the ancestors of `root`, the root itself among them, each
    /// once, so that each node comes after all the nodes it depends on.
    /// Where several nodes can come next, the one that was added first does.
    ///
    /// In a graph with a cycle no such order exists for the nodes on the
    /// cycle and those that depend on them: they come last, by index.
    pub fn minimal_topological_sort(&self, root: usize) -> (order: Vec<usize>)
        requires
            self.wf(),
            root < self.keys@.len(),
        ensures
            order@.no_duplicates(),
            forall|v: usize| order@.contains(v) <==> is_ancestor(self.edges@, v, root),
            acyclic(self.edges@, self.keys@.len() as int) ==> greedy(self.edges@, root, order@),
            acyclic(self.edges@, self.keys@.len() as int) ==> forall|i: int, j: int|
                0 <= i < order@.len() && 0 <= j < order@.len() && #[trigger] self.edge(
                    order@[i],
                    order@[j],
                ) ==> i < j,
    {
        let n = self.keys.len();
        let marks = self.ancestors(root);
        let mut emitted: Vec<bool> = vec![false; n];
        let mut order: Vec<usize> = Vec::new();
        let mut stuck = false;
        while !stuck
            invariant
                self.wf(),
                n == self.keys@.len(),
                marks@.len() == n,
                emitted@.len() == n,
                forall|v: usize|
                    v < marks@.len() ==> (marks@[v as int] <==> #[trigger] is_ancestor(
                        self.edges@,
                        v,
                        root,
                    )),
                forall|u: usize| u < n ==> (emitted@[u as int] <==> order@.contains(u)),
                forall|k: int| 0 <= k < order@.len() ==> (#[trigger] order@[k]) < n,
                order@.no_duplicates(),
                greedy(self.edges@, root, order@),
                stuck ==> forall|w: usize|
                    w < n ==> !#[trigger] available(self.edges@, root, order@, w),
            decreases
                    n - order@.len() + if stuck {
                        0int
                    } else {
                        1int
                    },
        {
            proof {
                lemma_distinct_bounded(order@, n as int);
            }
            match self.next_available(root, &marks, &emitted, Ghost(order@)) {
                Some(v) => {
                    let ghost before = order@;
                    order.push(v);
                    emitted.set(v, true);
                    proof {
                        assert forall|u: usize| u < n implies (emitted@[u as int]
                            <==> order@.contains(u)) by {
                            if u == v {
                                assert(order@[before.len() as int] == v);
                            } else if before.contains(u) {
                                let k = choose|k: int| 0 <= k < before.len() && before[k] == u;
                                assert(order@[k] == u);
                            } else if order@.contains(u) {
                                let k = choose|k: int| 0 <= k < order@.len() && order@[k] == u;
                                assert(before[k] == u);
                            }
                        }
                        assert forall|k: int| 0 <= k < order@.len() implies least_available(
                            self.edges@,
                            root,
                            order@.take(k),
                            #[trigger] order@[k],
                        ) by {
                            if k < before.len() {
                                assert(order@.take(k) =~= before.take(k));
                                assert(order@[k] == before[k]);
                            } else {
                                assert(order@.take(k) =~= before);
                            }
                        }
                        assert(order@.no_duplicates()) by {
                            assert forall|i: int, j: int|
                                0 <= i < order@.len() && 0 <= j < order@.len() && i != j implies order@[i]
                                != order@[j] by {
                                if i == before.len() {
                                    assert(before[j] == order@[j]);
                                } else if j == before.len() {
                                    assert(before[i] == order@[i]);
                                } else {
                                    assert(before[i] != before[j]);
                                }
                            }
                        }
                        lemma_distinct_bounded(order@, n as int);
                    }
                },
                None => {
                    stuck = true;
                },
            }
        }
        let ghost sorted = order@;
        proof {
            if acyclic(self.edges@, n as int) {
                lemma_none_left(self.edges@, n as int, root, order@);
            }
        }
        let mut v: usize = 0;
        while v < n
            invariant
                self.wf(),
                n == self.keys@.len(),
                marks@.len() == n,
                emitted@.len() == n,
                v <= n,
                forall|v: usize|
                    v < marks@.len() ==> (marks@[v as int] <==> #[trigger] is_ancestor(
                        self.edges@,
                        v,
                        root,
                    )),
                forall|u: usize| u < n ==> (emitted@[u as int] <==> order@.contains(u)),
                forall|k: int|
                    0 <= k < order@.len() ==> (#[trigger] order@[k]) < n && marks@[order@[k] as int],
                order@.no_duplicates(),
                acyclic(self.edges@, n as int) ==> order@ == sorted,
                acyclic(self.edges@, n as int) ==> forall|w: usize|
                    w < n && #[trigger] is_ancestor(self.edges@, w, root) ==> sorted.contains(w),
                forall|w: usize| w < v && marks@[w as int] ==> order@.contains(w),
            decreases n - v,
        {
            if marks[v] && !emitted[v] {
                let ghost before = order@;
                proof {
                    if acyclic(self.edges@, n as int) {
                        assert(is_ancestor(self.edges@, v, root));
                        assert(sorted.contains(v));
                        assert(false);
                    }
                }
                order.push(v);
                emitted.set(v, true);
                proof {
                    assert forall|u: usize| u < n implies (emitted@[u as int] <==> order@.contains(
                        u,
                    )) by {
                        if u == v {
                            assert(order@[before.len() as int] == v);
                        } else if before.contains(u) {
                            let k = choose|k: int| 0 <= k < before.len() && before[k] == u;
                            assert(order@[k] == u);
                        } else if order@.contains(u) {
                            let k = choose|k: int| 0 <= k < order@.len() && order@[k] == u;
                            assert(before[k] == u);
                        }
                    }
                    assert(order@.no_duplicates()) by {
                        assert forall|i: int, j: int|
                            0 <= i < order@.len() && 0 <= j < order@.len() && i != j implies order@[i]
                            != order@[j] by {
                            if i == before.len() {
                                assert(before[j] == order@[j]);
                            } else if j == before.len() {
                                assert(before[i] == order@[i]);
                            } else {
                                assert(before[i] != before[j]);
                            }
                        }
                    }
                    assert forall|w: usize| w < v + 1 && marks@[w as int] implies order@.contains(
                        w,
                    ) by {
                        if w < v {
                            let k = choose|k: int| 0 <= k < before.len() && before[k] == w;
                            assert(order@[k] == w);
                        }
                    }
                }
            }
            v += 1;
        }
        proof {
            assert forall|v: usize| order@.contains(v) <==> is_ancestor(self.edges@, v, root) by {
                if order@.contains(v) {
                    let k = choose|k: int| 0 <= k < order@.len() && order@[k] == v;
                    assert(marks@[order@[k] as int]);
                }
            }
            if acyclic(self.edges@, n as int) {
                assert forall|i: int, j: int|
                    0 <= i < order@.len() && 0 <= j < order@.len() && #[trigger] self.edge(
                        order@[i],
                        order@[j],
                    ) implies i < j by {
                    lemma_greedy_sorted(self.edges@, root, order@, i, j);
                }
            }
        }
        order
    }
}

} // verus!
