//! The dependency graph of the domains: walks, cycles, and the search for a
//! cycle that is not allowed.

use vstd::prelude::*;

verus! {

/// A reference from a member of one domain to a type of another: an edge of
/// the dependency graph. The domains are named by their indices in the
/// schema, the members by their indices in their domains.
#[derive(Clone, Copy, Debug, PartialEq, Eq, Structural)]
pub struct Edge {
    /// The domain that refers.
    pub from: usize,
    /// The domain that is referred to.
    pub to: usize,
    /// The member of `from` that holds the reference.
    pub referrer: usize,
    /// The type of `to` that the reference stands for.
    pub target: usize,
}

/// Whether every edge joins two of the `n` nodes.
pub open spec fn edges_fit(es: Seq<Edge>, n: int) -> bool {
    forall|k: int| 0 <= k < es.len() ==> (#[trigger] es[k]).from < n && es[k].to < n
}

/// Whether the edges with the indices `p`, one after the other, lead from
/// node `from` to node `to`.
pub open spec fn is_walk(es: Seq<Edge>, p: Seq<usize>, from: int, to: int) -> bool
    decreases p.len(),
{
    if p.len() == 0 {
        from == to
    } else {
        &&& p.last() < es.len()
        &&& es[p.last() as int].to == to
        &&& is_walk(es, p.drop_last(), from, es[p.last() as int].from as int)
    }
}

/// Whether some walk leads from `from` to `to`.
pub open spec fn reaches(es: Seq<Edge>, from: int, to: int) -> bool {
    exists|p: Seq<usize>| is_walk(es, p, from, to)
}

/// Whether `p` is a cycle: a walk of at least one edge that ends where it
/// starts.
pub open spec fn is_cycle(es: Seq<Edge>, p: Seq<usize>) -> bool {
    &&& p.len() > 0
    &&& p.last() < es.len()
    &&& is_walk(es, p, es[p.last() as int].to as int, es[p.last() as int].to as int)
}

/// Whether every edge of `p` is allowed.
pub open spec fn walk_allowed(allowed: Seq<bool>, p: Seq<usize>) -> bool {
    forall|i: int| 0 <= i < p.len() ==> 0 <= #[trigger] p[i] < allowed.len() && allowed[p[i] as int]
}

/// The cycle policy: every edge on every cycle is allowed.
pub open spec fn cycles_allowed(es: Seq<Edge>, allowed: Seq<bool>) -> bool {
    forall|p: Seq<usize>| #[trigger] is_cycle(es, p) ==> walk_allowed(allowed, p)
}

/// Whether `p` breaks the cycle policy: it is a cycle, and its last edge is
/// not allowed.
pub open spec fn is_bad_cycle(es: Seq<Edge>, allowed: Seq<bool>, p: Seq<usize>) -> bool {
    &&& is_cycle(es, p)
    &&& p.last() < allowed.len()
    &&& !allowed[p.last() as int]
}

/// Two walks that meet make one walk.
pub proof fn lemma_walk_concat(es: Seq<Edge>, p: Seq<usize>, q: Seq<usize>, a: int, b: int, c: int)
    requires
        is_walk(es, p, a, b),
        is_walk(es, q, b, c),
    ensures
        is_walk(es, p + q, a, c),
    decreases q.len(),
{
    if q.len() == 0 {
        assert(p + q =~= p);
    } else {
        lemma_walk_concat(es, p, q.drop_last(), a, b, es[q.last() as int].from as int);
        assert((p + q).drop_last() =~= p + q.drop_last());
        assert((p + q).last() == q.last());
    }
}

/// A walk falls into the walk up to one of its edges, that edge, and the
/// walk after it.
pub proof fn lemma_walk_split(es: Seq<Edge>, p: Seq<usize>, a: int, c: int, i: int)
    requires
        is_walk(es, p, a, c),
        0 <= i < p.len(),
    ensures
        p[i] < es.len(),
        is_walk(es, p.take(i), a, es[p[i] as int].from as int),
        is_walk(es, p.skip(i + 1), es[p[i] as int].to as int, c),
    decreases p.len(),
{
    if i == p.len() - 1 {
        assert(p.take(i) =~= p.drop_last());
        assert(p.skip(i + 1) =~= Seq::<usize>::empty());
    } else {
        let rest = p.drop_last();
        lemma_walk_split(es, rest, a, es[p.last() as int].from as int, i);
        assert(rest.take(i) =~= p.take(i));
        assert(p.skip(i + 1).drop_last() =~= rest.skip(i + 1));
        assert(p.skip(i + 1).last() == p.last());
    }
}

/// Where no edge that is not allowed can be walked back from its end to
/// its start, every edge on every cycle is allowed.
#[verifier::rlimit(40)]
pub proof fn lemma_no_way_back(es: Seq<Edge>, allowed: Seq<bool>)
    requires
        allowed.len() == es.len(),
        forall|k: int|
            0 <= k < es.len() && !allowed[k] ==> !reaches(
                es,
                (#[trigger] es[k]).to as int,
                es[k].from as int,
            ),
    ensures
        cycles_allowed(es, allowed),
{
    assert forall|p: Seq<usize>| #[trigger] is_cycle(es, p) implies walk_allowed(allowed, p) by {
        let x = es[p.last() as int].to as int;
        assert forall|i: int| 0 <= i < p.len() implies 0 <= #[trigger] p[i] < allowed.len()
            && allowed[p[i] as int] by {
            lemma_walk_split(es, p, x, x, i);
            let k = p[i] as int;
            if !allowed[k] {
                lemma_walk_concat(
                    es,
                    p.skip(i + 1),
                    p.take(i),
                    es[k].to as int,
                    x,
                    es[k].from as int,
                );
                assert(reaches(es, es[k].to as int, es[k].from as int));
            }
        }
    }
}

/// A cycle whose last edge is not allowed breaks the cycle policy.
pub proof fn lemma_bad_cycle(es: Seq<Edge>, allowed: Seq<bool>, p: Seq<usize>)
    requires
        is_bad_cycle(es, allowed, p),
    ensures
        !cycles_allowed(es, allowed),
{
    assert(is_cycle(es, p));
    if cycles_allowed(es, allowed) {
        assert(walk_allowed(allowed, p));
        assert(allowed[p[p.len() - 1] as int]);
    }
}

/// How many nodes are not marked.
pub open spec fn unmarked(marks: Seq<bool>) -> nat
    decreases marks.len(),
{
    if marks.len() == 0 {
        0
    } else {
        unmarked(marks.drop_last()) + if marks.last() {
            0nat
        } else {
            1nat
        }
    }
}

/// Marking one more node leaves one fewer unmarked.
pub proof fn lemma_mark(marks: Seq<bool>, i: int)
    requires
        0 <= i < marks.len(),
        !marks[i],
    ensures
        unmarked(marks.update(i, true)) + 1 == unmarked(marks),
    decreases marks.len(),
{
    let after = marks.update(i, true);
    if i == marks.len() - 1 {
        assert(after.drop_last() =~= marks.drop_last());
    } else {
        lemma_mark(marks.drop_last(), i);
        assert(after.drop_last() =~= marks.drop_last().update(i, true));
    }
}

/// Whether the marked nodes are closed under the edges: an edge that
/// starts at a marked node ends at one.
pub open spec fn closed(es: Seq<Edge>, marks: Seq<bool>) -> bool {
    forall|k: int|
        0 <= k < es.len() && marks[(#[trigger] es[k]).from as int] ==> marks[es[k].to as int]
}

/// A closed set of nodes holds every node that can be reached from one of
/// its nodes.
pub proof fn lemma_closed(es: Seq<Edge>, marks: Seq<bool>, p: Seq<usize>, from: int, to: int)
    requires
        closed(es, marks),
        is_walk(es, p, from, to),
        0 <= from < marks.len(),
        marks[from],
    ensures
        marks[to],
    decreases p.len(),
{
    if p.len() > 0 {
        lemma_closed(es, marks, p.drop_last(), from, es[p.last() as int].from as int);
    }
}

/// What a search from one node finds: which nodes can be reached, and a
/// walk to each of them.
pub struct Reach {
    /// Whether each node can be reached.
    pub marks: Vec<bool>,
    /// A walk to each node that can be reached.
    pub walks: Vec<Vec<usize>>,
}

impl Reach {
    /// Whether this is what a search from `start` finds in the graph.
    pub open spec fn is_from(self, es: Seq<Edge>, n: int, start: int) -> bool {
        &&& self.marks@.len() == n
        &&& self.walks@.len() == n
        &&& forall|v: int|
            0 <= v < n && self.marks@[v] ==> is_walk(es, (#[trigger] self.walks@[v])@, start, v)
        &&& forall|v: int| 0 <= v < n && reaches(es, start, v) ==> #[trigger] self.marks@[v]
    }
}

/// Searches the graph from `start`: marks the nodes that can be reached
/// and keeps a walk to each.
#[verifier::rlimit(40)]
pub fn reach_from(n: usize, edges: &Vec<Edge>, start: usize) -> (r: Reach)
    requires
        start < n,
        edges_fit(edges@, n as int),
    ensures
        r.is_from(edges@, n as int, start as int),
{
    let ghost es = edges@;
    let mut marks: Vec<bool> = Vec::new();
    let mut walks: Vec<Vec<usize>> = Vec::new();
    let mut i: usize = 0;
    while i < n
        invariant
            i <= n,
            marks@.len() == i,
            walks@.len() == i,
            forall|v: int| 0 <= v < i ==> !marks@[v],
            forall|v: int| 0 <= v < i ==> (#[trigger] walks@[v])@.len() == 0,
        decreases n - i,
    {
        marks.push(false);
        walks.push(Vec::new());
        i += 1;
    }
    marks.set(start, true);
    assert(is_walk(es, walks@[start as int]@, start as int, start as int));
    loop
        invariant
            start < n,
            es == edges@,
            edges_fit(es, n as int),
            marks@.len() == n,
            walks@.len() == n,
            marks@[start as int],
            forall|v: int|
                0 <= v < n && marks@[v] ==> is_walk(es, (#[trigger] walks@[v])@, start as int, v),
        ensures
            marks@.len() == n,
            walks@.len() == n,
            marks@[start as int],
            forall|v: int|
                0 <= v < n && marks@[v] ==> is_walk(es, (#[trigger] walks@[v])@, start as int, v),
            closed(es, marks@),
        decreases unmarked(marks@),
    {
        let ghost at_start = marks@;
        let mut changed = false;
        let mut k: usize = 0;
        while k < edges.len()
            invariant
                k <= edges.len(),
                start < n,
                es == edges@,
                edges_fit(es, n as int),
                marks@.len() == n,
                walks@.len() == n,
                marks@[start as int],
                forall|v: int|
                    0 <= v < n && marks@[v] ==> is_walk(
                        es,
                        (#[trigger] walks@[v])@,
                        start as int,
                        v,
                    ),
                !changed ==> marks@ == at_start,
                changed ==> unmarked(marks@) < unmarked(at_start),
                unmarked(marks@) <= unmarked(at_start),
                !changed ==> forall|j: int|
                    0 <= j < k && marks@[(#[trigger] es[j]).from as int] ==> marks@[es[j].to as int],
            decreases edges.len() - k,
        {
            let e = edges[k];
            if marks[e.from] && !marks[e.to] {
                let mut walk = walks[e.from].clone();
                assert(walk@ =~= walks@[e.from as int]@);
                walk.push(k);
                assert(walk@.drop_last() =~= walks@[e.from as int]@);
                proof {
                    lemma_mark(marks@, e.to as int);
                }
                marks.set(e.to, true);
                walks.set(e.to, walk);
                changed = true;
            }
            k += 1;
        }
        if !changed {
            break;
        }
    }
    let r = Reach { marks, walks };
    assert forall|v: int| 0 <= v < n && reaches(es, start as int, v) implies #[trigger] r.marks@[v] by {
        let p = choose|p: Seq<usize>| is_walk(es, p, start as int, v);
        lemma_closed(es, r.marks@, p, start as int, v);
    }
    r
}

/// Looks for the cycles that hold an edge that is not allowed: one cycle
/// for every such edge that lies on a cycle, ending with that edge. Where
/// none is found, every edge on every cycle of the graph is allowed.
#[verifier::rlimit(40)]
pub fn bad_cycles(n: usize, edges: &Vec<Edge>, allowed: &Vec<bool>) -> (r: Vec<Vec<usize>>)
    requires
        edges_fit(edges@, n as int),
        allowed@.len() == edges@.len(),
    ensures
        forall|i: int| 0 <= i < r@.len() ==> is_bad_cycle(edges@, allowed@, (#[trigger] r@[i])@),
        r@.len() == 0 <==> cycles_allowed(edges@, allowed@),
{
    let ghost es = edges@;
    let mut found: Vec<Vec<usize>> = Vec::new();
    let mut b: usize = 0;
    while b < n
        invariant
            b <= n,
            es == edges@,
            edges_fit(es, n as int),
            allowed@.len() == es.len(),
            forall|i: int|
                0 <= i < found@.len() ==> is_bad_cycle(es, allowed@, (#[trigger] found@[i])@),
            found@.len() == 0 ==> forall|k: int|
                0 <= k < es.len() && !allowed@[k] && (#[trigger] es[k]).to < b ==> !reaches(
                    es,
                    es[k].to as int,
                    es[k].from as int,
                ),
        decreases n - b,
    {
        let reach = reach_from(n, edges, b);
        let mut k: usize = 0;
        while k < edges.len()
            invariant
                k <= edges.len(),
                b < n,
                es == edges@,
                edges_fit(es, n as int),
                allowed@.len() == es.len(),
                reach.is_from(es, n as int, b as int),
                forall|i: int|
                    0 <= i < found@.len() ==> is_bad_cycle(es, allowed@, (#[trigger] found@[i])@),
                found@.len() == 0 ==> forall|j: int|
                    0 <= j < es.len() && !allowed@[j] && (#[trigger] es[j]).to < b ==> !reaches(
                        es,
                        es[j].to as int,
                        es[j].from as int,
                    ),
                found@.len() == 0 ==> forall|j: int|
                    0 <= j < k && !allowed@[j] && (#[trigger] es[j]).to == b ==> !reaches(
                        es,
                        es[j].to as int,
                        es[j].from as int,
                    ),
            decreases edges.len() - k,
        {
            let e = edges[k];
            if e.to == b && !allowed[k] && reach.marks[e.from] {
                let mut cycle = reach.walks[e.from].clone();
                assert(cycle@ =~= reach.walks@[e.from as int]@);
                cycle.push(k);
                assert(cycle@.drop_last() =~= reach.walks@[e.from as int]@);
                found.push(cycle);
            }
            k += 1;
        }
        b += 1;
    }
    proof {
        if found@.len() == 0 {
            lemma_no_way_back(es, allowed@);
        } else {
            lemma_bad_cycle(es, allowed@, found@[0]@);
        }
    }
    found
}

} // verus!
