//! The order in which the domains are emitted.
//!
//! Every domain has a key: its level in the dependency graph, the name of
//! the leader of its group, and its own name. The level of a domain is the
//! number of domains that it depends on and that do not depend on it, so
//! that a domain comes after what it needs. The domains that depend on
//! each other form a group; its leader is the one whose name comes first.
//! Sorting by the key keeps each group together, puts the groups of one
//! level in the order of their leaders, and the domains of a group in the
//! order of their names.

use vstd::prelude::*;

use super::bytes::{
    bytes_eq, bytes_lt, copy_bytes, lemma_lex_irreflexive, lemma_lex_total, lemma_lex_transitive,
    lex_lt,
};
use super::graph::{edges_fit, is_walk, lemma_walk_concat, reach_from, reaches, Edge};

verus! {

/// The key that the domains are sorted by.
pub struct Key {
    pub level: nat,
    pub leader: Seq<u8>,
    pub name: Seq<u8>,
}

/// The key of a domain, in executable form.
#[derive(Debug)]
pub struct SortKey {
    pub level: usize,
    pub leader: Vec<u8>,
    pub name: Vec<u8>,
}

impl DeepView for SortKey {
    type V = Key;

    open spec fn deep_view(&self) -> Key {
        Key { level: self.level as nat, leader: self.leader@, name: self.name@ }
    }
}

/// Whether the key `a` comes before the key `b`: by level, then by the
/// name of the leader, then by the name.
pub open spec fn key_lt(a: Key, b: Key) -> bool {
    a.level < b.level || (a.level == b.level && (lex_lt(a.leader, b.leader) || (a.leader
        == b.leader && lex_lt(a.name, b.name))))
}

/// Where `x` goes into the sorted `order`: before the first element from
/// `from` on whose key comes after that of `x`.
pub open spec fn insert_at(keys: Seq<Key>, order: Seq<usize>, x: int, from: int) -> int
    decreases order.len() - from,
{
    if from >= order.len() {
        order.len() as int
    } else if key_lt(keys[x], keys[order[from] as int]) {
        from
    } else {
        insert_at(keys, order, x, from + 1)
    }
}

/// The first `k` indices, sorted by their keys. Indices with the same key
/// stay in their order.
pub open spec fn sorted_upto(keys: Seq<Key>, k: nat) -> Seq<usize>
    decreases k,
{
    if k == 0 {
        Seq::empty()
    } else {
        let prev = sorted_upto(keys, (k - 1) as nat);
        prev.insert(insert_at(keys, prev, k - 1, 0), (k - 1) as usize)
    }
}

/// All the indices, sorted by their keys.
pub open spec fn sorted_order(keys: Seq<Key>) -> Seq<usize> {
    sorted_upto(keys, keys.len())
}

/// Where something is inserted lies within the list.
pub proof fn lemma_insert_at(keys: Seq<Key>, order: Seq<usize>, x: int, from: int)
    requires
        0 <= from <= order.len(),
    ensures
        from <= insert_at(keys, order, x, from) <= order.len(),
    decreases order.len() - from,
{
    if from < order.len() && !key_lt(keys[x], keys[order[from] as int]) {
        lemma_insert_at(keys, order, x, from + 1);
    }
}

/// The sorted list of the first `k` indices holds each of them, and
/// nothing else.
pub proof fn lemma_sorted_upto(keys: Seq<Key>, k: nat)
    requires
        k <= usize::MAX,
    ensures
        sorted_upto(keys, k).len() == k,
        forall|i: int| 0 <= i < k ==> (#[trigger] sorted_upto(keys, k)[i]) < k,
        forall|x: usize| x < k ==> #[trigger] sorted_upto(keys, k).contains(x),
    decreases k,
{
    if k > 0 {
        let prev = sorted_upto(keys, (k - 1) as nat);
        lemma_sorted_upto(keys, (k - 1) as nat);
        let at = insert_at(keys, prev, k - 1, 0);
        lemma_insert_at(keys, prev, k - 1, 0);
        let now = sorted_upto(keys, k);
        assert(now == prev.insert(at, (k - 1) as usize));
        assert forall|x: usize| x < k implies #[trigger] now.contains(x) by {
            if x == k - 1 {
                assert(now[at] == x);
            } else {
                assert(prev.contains(x));
                let j = choose|j: int| 0 <= j < prev.len() && prev[j] == x;
                if j < at {
                    assert(now[j] == x);
                } else {
                    assert(now[j + 1] == x);
                }
            }
        }
    }
}

/// Where something is inserted, what stands before it does not come
/// after it, and what stands there comes after it.
pub proof fn lemma_insert_bounds(keys: Seq<Key>, order: Seq<usize>, x: int, from: int)
    requires
        0 <= from <= order.len(),
    ensures
        forall|i: int|
            from <= i < insert_at(keys, order, x, from) ==> !key_lt(
                keys[x],
                keys[(#[trigger] order[i]) as int],
            ),
        insert_at(keys, order, x, from) < order.len() ==> key_lt(
            keys[x],
            keys[order[insert_at(keys, order, x, from)] as int],
        ),
    decreases order.len() - from,
{
    if from < order.len() && !key_lt(keys[x], keys[order[from] as int]) {
        lemma_insert_bounds(keys, order, x, from + 1);
    }
}

/// The sorted list holds no index twice, and the levels never fall along
/// it.
#[verifier::rlimit(40)]
pub proof fn lemma_sorted_levels(keys: Seq<Key>, k: nat)
    requires
        k <= usize::MAX,
    ensures
        forall|i: int, j: int|
            0 <= i < j < k ==> (#[trigger] sorted_upto(keys, k)[i]) != (#[trigger] sorted_upto(
                keys,
                k,
            )[j]),
        forall|i: int, j: int|
            0 <= i < j < k ==> keys[(#[trigger] sorted_upto(keys, k)[i]) as int].level <= keys[(
            #[trigger] sorted_upto(keys, k)[j]) as int].level,
    decreases k,
{
    lemma_sorted_upto(keys, k);
    if k > 0 {
        let prev = sorted_upto(keys, (k - 1) as nat);
        lemma_sorted_upto(keys, (k - 1) as nat);
        lemma_sorted_levels(keys, (k - 1) as nat);
        let at = insert_at(keys, prev, k - 1, 0);
        lemma_insert_at(keys, prev, k - 1, 0);
        lemma_insert_bounds(keys, prev, k - 1, 0);
        let now = sorted_upto(keys, k);
        assert(now == prev.insert(at, (k - 1) as usize));
        assert forall|i: int, j: int| 0 <= i < j < k implies (#[trigger] now[i]) != (
        #[trigger] now[j]) && keys[now[i] as int].level <= keys[now[j] as int].level by {
            let pi = if i < at {
                i
            } else {
                i - 1
            };
            let pj = if j < at {
                j
            } else {
                j - 1
            };
            if i != at {
                assert(now[i] == prev[pi]);
            }
            if j != at {
                assert(now[j] == prev[pj]);
            }
            if i == at {
                // what follows the new index stood at or behind `at` before
                if at < pj {
                    assert(keys[prev[at] as int].level <= keys[prev[pj] as int].level);
                }
            }
        }
    }
}

/// The order of the keys is transitive.
pub proof fn lemma_key_transitive(a: Key, b: Key, c: Key)
    requires
        key_lt(a, b),
        key_lt(b, c),
    ensures
        key_lt(a, c),
{
    if a.level == b.level && b.level == c.level {
        if lex_lt(a.leader, b.leader) && lex_lt(b.leader, c.leader) {
            lemma_lex_transitive(a.leader, b.leader, c.leader);
        } else if a.leader == b.leader && b.leader == c.leader {
            lemma_lex_transitive(a.name, b.name, c.name);
        }
    }
}

/// No key comes before itself.
pub proof fn lemma_key_irreflexive(a: Key)
    ensures
        !key_lt(a, a),
{
    lemma_lex_irreflexive(a.leader);
    lemma_lex_irreflexive(a.name);
}

/// The sorted list is sorted: no index in it has a key that comes before
/// the key of an index that stands before it.
#[verifier::rlimit(40)]
pub proof fn lemma_sorted_by_key(keys: Seq<Key>, k: nat)
    requires
        k <= usize::MAX,
    ensures
        forall|i: int, j: int|
            0 <= i < j < k ==> !key_lt(
                keys[(#[trigger] sorted_upto(keys, k)[j]) as int],
                keys[(#[trigger] sorted_upto(keys, k)[i]) as int],
            ),
    decreases k,
{
    lemma_sorted_upto(keys, k);
    if k > 0 {
        let prev = sorted_upto(keys, (k - 1) as nat);
        lemma_sorted_upto(keys, (k - 1) as nat);
        lemma_sorted_by_key(keys, (k - 1) as nat);
        let at = insert_at(keys, prev, k - 1, 0);
        lemma_insert_at(keys, prev, k - 1, 0);
        lemma_insert_bounds(keys, prev, k - 1, 0);
        let now = sorted_upto(keys, k);
        assert(now == prev.insert(at, (k - 1) as usize));
        assert forall|i: int, j: int| 0 <= i < j < k implies !key_lt(
            keys[(#[trigger] now[j]) as int],
            keys[(#[trigger] now[i]) as int],
        ) by {
            let pi = if i < at {
                i
            } else {
                i - 1
            };
            let pj = if j < at {
                j
            } else {
                j - 1
            };
            if i != at {
                assert(now[i] == prev[pi]);
            }
            if j != at {
                assert(now[j] == prev[pj]);
            }
            if i == at {
                // the new index comes before what stood at its place, and
                // nothing behind that comes before it
                assert(now[i] == (k - 1) as usize);
                if key_lt(keys[prev[pj] as int], keys[k - 1]) {
                    lemma_key_transitive(keys[prev[pj] as int], keys[k - 1], keys[prev[at] as int]);
                    lemma_key_irreflexive(keys[prev[at] as int]);
                    if at < pj {
                        assert(!key_lt(keys[prev[pj] as int], keys[prev[at] as int]));
                    }
                }
            } else if j == at {
                assert(now[j] == (k - 1) as usize);
                assert(!key_lt(keys[k - 1], keys[prev[pi] as int]));
            } else {
                assert(!key_lt(keys[prev[pj] as int], keys[prev[pi] as int]));
            }
        }
    }
}

/// The domains of one group stand on one level.
pub proof fn lemma_group_level(es: Seq<Edge>, a: int, b: int, n: int)
    requires
        in_group(es, a, b),
    ensures
        level_upto(es, a, n) == level_upto(es, b, n),
{
    assert forall|e: int| 0 <= e < n && below(es, b, e) implies below(es, a, e) by {
        lemma_reaches_transitive(es, a, b, e);
        if reaches(es, e, a) {
            lemma_reaches_transitive(es, e, a, b);
        }
    }
    assert forall|e: int| 0 <= e < n && below(es, a, e) implies below(es, b, e) by {
        lemma_reaches_transitive(es, b, a, e);
        if reaches(es, e, b) {
            lemma_reaches_transitive(es, e, b, a);
        }
    }
    lemma_level_grows(es, a, b, n, 0);
    lemma_level_grows(es, b, a, n, 0);
}

/// An edge is a walk of one step.
pub proof fn lemma_edge_is_walk(es: Seq<Edge>, k: int)
    requires
        0 <= k < es.len(),
        k <= usize::MAX,
    ensures
        is_walk(es, seq![k as usize], es[k].from as int, es[k].to as int),
        reaches(es, es[k].from as int, es[k].to as int),
{
    let p = seq![k as usize];
    assert(p.drop_last() =~= Seq::<usize>::empty());
    assert(is_walk(es, p.drop_last(), es[k].from as int, es[k].from as int));
    assert(is_walk(es, p, es[k].from as int, es[k].to as int));
}

/// What can be reached from what can be reached, can be reached.
pub proof fn lemma_reaches_transitive(es: Seq<Edge>, a: int, b: int, c: int)
    requires
        reaches(es, a, b),
        reaches(es, b, c),
    ensures
        reaches(es, a, c),
{
    let p = choose|p: Seq<usize>| is_walk(es, p, a, b);
    let q = choose|q: Seq<usize>| is_walk(es, q, b, c);
    lemma_walk_concat(es, p, q, a, b, c);
}

/// Where `a` has below it whatever `b` has, the level of `a` is at least
/// that of `b`; and it is higher if `a` has one more below it.
pub proof fn lemma_level_grows(es: Seq<Edge>, a: int, b: int, k: int, extra: int)
    requires
        forall|e: int| 0 <= e < k && below(es, b, e) ==> below(es, a, e),
    ensures
        level_upto(es, b, k) <= level_upto(es, a, k),
        0 <= extra < k && below(es, a, extra) && !below(es, b, extra) ==> level_upto(es, b, k)
            < level_upto(es, a, k),
    decreases k,
{
    if k > 0 {
        lemma_level_grows(es, a, b, k - 1, extra);
    }
}

/// A domain stands on a higher level than one that it depends on and
/// that does not depend on it.
pub proof fn lemma_level_above(es: Seq<Edge>, n: int, k: int)
    requires
        0 <= k < es.len(),
        k <= usize::MAX,
        es[k].from < n,
        es[k].to < n,
        !reaches(es, es[k].to as int, es[k].from as int),
    ensures
        level_upto(es, es[k].to as int, n) < level_upto(es, es[k].from as int, n),
{
    let a = es[k].from as int;
    let b = es[k].to as int;
    lemma_edge_is_walk(es, k);
    assert forall|e: int| 0 <= e < n && below(es, b, e) implies below(es, a, e) by {
        lemma_reaches_transitive(es, a, b, e);
        if reaches(es, e, a) {
            lemma_reaches_transitive(es, e, a, b);
        }
    }
    assert(reaches(es, b, b)) by {
        assert(is_walk(es, Seq::<usize>::empty(), b, b));
    }
    lemma_level_grows(es, a, b, n, b);
}

/// Every domain is of its own group.
pub proof fn lemma_group_reflexive(es: Seq<Edge>, d: int)
    ensures
        in_group(es, d, d),
{
    assert(is_walk(es, Seq::<usize>::empty(), d, d));
}

/// The domains of the group of one domain are of the group of each of
/// them.
pub proof fn lemma_group_transitive(es: Seq<Edge>, a: int, b: int, c: int)
    requires
        in_group(es, a, b),
        in_group(es, b, c),
    ensures
        in_group(es, a, c),
        in_group(es, b, a),
{
    lemma_reaches_transitive(es, a, b, c);
    lemma_reaches_transitive(es, c, b, a);
}

/// The leader of a group is of the group, and no name of the group comes
/// before its name.
#[verifier::rlimit(40)]
pub proof fn lemma_leader(names: Seq<Seq<u8>>, es: Seq<Edge>, d: int, k: int)
    requires
        0 <= d < names.len(),
        0 <= k <= names.len(),
    ensures
        0 <= leader_upto(names, es, d, k) < names.len(),
        in_group(es, d, leader_upto(names, es, d, k)),
        !lex_lt(names[d], names[leader_upto(names, es, d, k)]),
        forall|e: int|
            0 <= e < k && in_group(es, d, e) ==> !lex_lt(
                #[trigger] names[e],
                names[leader_upto(names, es, d, k)],
            ),
    decreases k,
{
    lemma_group_reflexive(es, d);
    if k <= 0 {
        lemma_lex_irreflexive(names[d]);
    } else {
        lemma_leader(names, es, d, k - 1);
        let best = leader_upto(names, es, d, k - 1);
        let now = leader_upto(names, es, d, k);
        if in_group(es, d, k - 1) && lex_lt(names[k - 1], names[best]) {
            lemma_lex_irreflexive(names[k - 1]);
            assert forall|e: int| 0 <= e < k && in_group(es, d, e) implies !lex_lt(
                #[trigger] names[e],
                names[now],
            ) by {
                if lex_lt(names[e], names[k - 1]) {
                    lemma_lex_transitive(names[e], names[k - 1], names[best]);
                }
            }
            if lex_lt(names[d], names[k - 1]) {
                lemma_lex_transitive(names[d], names[k - 1], names[best]);
            }
        }
    }
}

/// The domains of one group have one leader: the names of their leaders
/// are the same.
pub proof fn lemma_group_leader(names: Seq<Seq<u8>>, es: Seq<Edge>, a: int, b: int)
    requires
        0 <= a < names.len(),
        0 <= b < names.len(),
        in_group(es, a, b),
    ensures
        names[leader_upto(names, es, a, names.len() as int)] == names[leader_upto(
            names,
            es,
            b,
            names.len() as int,
        )],
{
    let n = names.len() as int;
    let ra = leader_upto(names, es, a, n);
    let rb = leader_upto(names, es, b, n);
    lemma_leader(names, es, a, n);
    lemma_leader(names, es, b, n);
    lemma_group_transitive(es, a, b, rb);
    lemma_group_transitive(es, b, a, ra);
    if names[ra] != names[rb] {
        lemma_lex_total(names[ra], names[rb]);
    }
}

/// The domains of one group have the same key but for their names.
pub proof fn lemma_group_key(names: Seq<Seq<u8>>, es: Seq<Edge>, a: int, b: int)
    requires
        0 <= a < names.len(),
        0 <= b < names.len(),
        in_group(es, a, b),
    ensures
        domain_keys(names, es)[a].level == domain_keys(names, es)[b].level,
        domain_keys(names, es)[a].leader == domain_keys(names, es)[b].leader,
{
    lemma_group_level(es, a, b, names.len() as int);
    lemma_group_leader(names, es, a, b);
}

/// Groups stay together: a domain whose key lies between the keys of two
/// domains of one group is of that group, where no two domains have the
/// same name.
#[verifier::rlimit(40)]
pub proof fn lemma_between_is_in_group(names: Seq<Seq<u8>>, es: Seq<Edge>, a: int, x: int, b: int)
    requires
        0 <= a < names.len(),
        0 <= x < names.len(),
        0 <= b < names.len(),
        forall|i: int, j: int| 0 <= i < j < names.len() ==> names[i] != names[j],
        in_group(es, a, b),
        !key_lt(domain_keys(names, es)[x], domain_keys(names, es)[a]),
        !key_lt(domain_keys(names, es)[b], domain_keys(names, es)[x]),
    ensures
        in_group(es, a, x),
{
    let n = names.len() as int;
    let keys = domain_keys(names, es);
    lemma_group_key(names, es, a, b);
    let ra = leader_upto(names, es, a, n);
    let rx = leader_upto(names, es, x, n);
    lemma_leader(names, es, a, n);
    lemma_leader(names, es, x, n);
    assert(keys[x].level == keys[a].level);
    if keys[x].leader != keys[a].leader {
        lemma_lex_total(keys[x].leader, keys[a].leader);
    }
    assert(names[rx] == names[ra]);
    assert(rx == ra) by {
        if rx < ra {
            assert(names[rx] != names[ra]);
        } else if ra < rx {
            assert(names[ra] != names[rx]);
        }
    }
    lemma_group_transitive(es, a, ra, x);
}

/// Whether the key `a` comes before the key `b`.
pub fn comes_before(a: &SortKey, b: &SortKey) -> (r: bool)
    ensures
        r == key_lt(a.deep_view(), b.deep_view()),
{
    if a.level != b.level {
        return a.level < b.level;
    }
    if bytes_lt(a.leader.as_slice(), b.leader.as_slice()) {
        return true;
    }
    bytes_eq(a.leader.as_slice(), b.leader.as_slice()) && bytes_lt(
        a.name.as_slice(),
        b.name.as_slice(),
    )
}

/// Sorts the indices of the keys by the keys.
#[verifier::rlimit(40)]
pub fn sort_by_key(keys: &Vec<SortKey>) -> (r: Vec<usize>)
    ensures
        r@ == sorted_order(keys.deep_view()),
        r@.len() == keys@.len(),
        forall|i: int| 0 <= i < r@.len() ==> (#[trigger] r@[i]) < keys@.len(),
{
    let ghost kv = keys.deep_view();
    let mut order: Vec<usize> = Vec::new();
    let mut k: usize = 0;
    while k < keys.len()
        invariant
            k <= keys.len(),
            kv == keys.deep_view(),
            kv.len() == keys.len(),
            order@ == sorted_upto(kv, k as nat),
            order@.len() == k,
            forall|i: int| 0 <= i < k ==> (#[trigger] order@[i]) < k,
        decreases keys.len() - k,
    {
        let mut at: usize = 0;
        while at < order.len() && !comes_before(&keys[k], &keys[order[at]])
            invariant
                at <= order.len(),
                k < keys.len(),
                kv == keys.deep_view(),
                kv.len() == keys.len(),
                order@.len() == k,
                forall|i: int| 0 <= i < k ==> (#[trigger] order@[i]) < k,
                insert_at(kv, order@, k as int, 0) == insert_at(kv, order@, k as int, at as int),
            decreases order.len() - at,
        {
            assert(kv[k as int] == keys@[k as int].deep_view());
            assert(kv[order@[at as int] as int] == keys@[order@[at as int] as int].deep_view());
            at += 1;
        }
        proof {
            if at < order.len() {
                assert(kv[k as int] == keys@[k as int].deep_view());
                assert(kv[order@[at as int] as int] == keys@[order@[at as int] as int].deep_view());
            }
        }
        order.insert(at, k);
        k += 1;
    }
    order
}

/// Whether `d` depends on `e` and `e` does not depend on `d`.
pub open spec fn below(es: Seq<Edge>, d: int, e: int) -> bool {
    reaches(es, d, e) && !reaches(es, e, d)
}

/// Whether `d` and `e` depend on each other.
pub open spec fn in_group(es: Seq<Edge>, d: int, e: int) -> bool {
    reaches(es, d, e) && reaches(es, e, d)
}

/// How many of the first `k` domains are below `d`.
pub open spec fn level_upto(es: Seq<Edge>, d: int, k: int) -> nat
    decreases k,
{
    if k <= 0 {
        0
    } else {
        level_upto(es, d, k - 1) + if below(es, d, k - 1) {
            1nat
        } else {
            0nat
        }
    }
}

/// The domain of the group of `d` whose name comes first among those of
/// the group with an index below `k`, or `d` itself.
pub open spec fn leader_upto(names: Seq<Seq<u8>>, es: Seq<Edge>, d: int, k: int) -> int
    decreases k,
{
    if k <= 0 {
        d
    } else {
        let best = leader_upto(names, es, d, k - 1);
        if in_group(es, d, k - 1) && lex_lt(names[k - 1], names[best]) {
            k - 1
        } else {
            best
        }
    }
}

/// The keys of the domains with these names and these dependencies.
pub open spec fn domain_keys(names: Seq<Seq<u8>>, es: Seq<Edge>) -> Seq<Key> {
    Seq::new(
        names.len(),
        |d: int|
            Key {
                level: level_upto(es, d, names.len() as int),
                leader: names[leader_upto(names, es, d, names.len() as int)],
                name: names[d],
            },
    )
}

/// For every pair of the `n` nodes, whether the one reaches the other.
pub open spec fn is_reach_matrix(reach: Seq<Vec<bool>>, es: Seq<Edge>, n: int) -> bool {
    &&& reach.len() == n
    &&& forall|d: int| 0 <= d < n ==> (#[trigger] reach[d])@.len() == n
    &&& forall|d: int, e: int|
        0 <= d < n && 0 <= e < n ==> (#[trigger] reach[d]@[e]) == reaches(es, d, e)
}

/// Finds, for every pair of nodes, whether the one reaches the other.
pub fn reach_matrix(n: usize, edges: &Vec<Edge>) -> (r: Vec<Vec<bool>>)
    requires
        edges_fit(edges@, n as int),
    ensures
        is_reach_matrix(r@, edges@, n as int),
{
    let ghost es = edges@;
    let mut rows: Vec<Vec<bool>> = Vec::new();
    let mut d: usize = 0;
    while d < n
        invariant
            d <= n,
            es == edges@,
            edges_fit(es, n as int),
            is_reach_matrix(rows@, es, d as int) || d < n,
            rows@.len() == d,
            forall|x: int| 0 <= x < d ==> (#[trigger] rows@[x])@.len() == n,
            forall|x: int, e: int|
                0 <= x < d && 0 <= e < n ==> (#[trigger] rows@[x]@[e]) == reaches(es, x, e),
        decreases n - d,
    {
        let found = reach_from(n, edges, d);
        proof {
            assert forall|e: int| 0 <= e < n implies (#[trigger] found.marks@[e]) == reaches(
                es,
                d as int,
                e,
            ) by {
                if found.marks@[e] {
                    assert(super::graph::is_walk(es, found.walks@[e]@, d as int, e));
                }
            }
        }
        rows.push(found.marks);
        d += 1;
    }
    rows
}

/// Computes the keys of the domains with these names and dependencies.
#[verifier::rlimit(40)]
pub(crate) fn keys_of(names: &Vec<Vec<u8>>, edges: &Vec<Edge>, reach: &Vec<Vec<bool>>) -> (r: Vec<SortKey>)
    requires
        is_reach_matrix(reach@, edges@, names@.len() as int),
    ensures
        r.deep_view() == domain_keys(names.deep_view(), edges@),
        r@.len() == names@.len(),
{
    let ghost es = edges@;
    let ghost nv = names.deep_view();
    let n = names.len();
    let mut keys: Vec<SortKey> = Vec::new();
    let mut d: usize = 0;
    while d < n
        invariant
            d <= n,
            n == names@.len(),
            es == edges@,
            nv == names.deep_view(),
            nv.len() == n,
            is_reach_matrix(reach@, es, n as int),
            keys@.len() == d,
            forall|x: int|
                0 <= x < d ==> (#[trigger] keys@[x]).deep_view() == domain_keys(nv, es)[x],
        decreases n - d,
    {
        let mut level: usize = 0;
        let mut leader: usize = d;
        let mut e: usize = 0;
        while e < n
            invariant
                e <= n,
                d < n,
                n == names@.len(),
                es == edges@,
                nv == names.deep_view(),
                nv.len() == n,
                is_reach_matrix(reach@, es, n as int),
                level == level_upto(es, d as int, e as int),
                level <= e,
                leader == leader_upto(nv, es, d as int, e as int),
                leader < n,
            decreases n - e,
        {
            let down = reach[d][e];
            let up = reach[e][d];
            assert(down == reaches(es, d as int, e as int));
            assert(up == reaches(es, e as int, d as int));
            if down && !up {
                level += 1;
            }
            proof {
                super::model::lemma_bytes_view(names@[e as int]);
                super::model::lemma_bytes_view(names@[leader as int]);
            }
            if down && up && bytes_lt(names[e].as_slice(), names[leader].as_slice()) {
                leader = e;
            }
            e += 1;
        }
        proof {
            super::model::lemma_bytes_view(names@[d as int]);
            super::model::lemma_bytes_view(names@[leader as int]);
        }
        keys.push(
            SortKey {
                level,
                leader: copy_bytes(names[leader].as_slice()),
                name: copy_bytes(names[d].as_slice()),
            },
        );
        d += 1;
    }
    assert(keys.deep_view() =~= domain_keys(nv, es));
    keys
}

} // verus!
