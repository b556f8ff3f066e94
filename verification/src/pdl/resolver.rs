//! The resolver: brings a schema into canonical form, builds the dependency
//! graph of its domains and holds every cycle of it against the list of
//! references that are allowed on cycles.

use vstd::prelude::*;

use super::bytes::{copy_bytes, eq_ignore_case, same_name};
use super::graph::{
    bad_cycles, cycles_allowed, edges_fit, is_bad_cycle, is_cycle, lemma_walk_split, walk_allowed,
    Edge,
};
use super::model::{
    lemma_member_view, lemma_push_deep_view, opt_name, Member, MemberView, Property, PropertyView,
    ProtocolSchema, QualifiedName, QualifiedNameView, RefTarget, RefTargetView, SchemaView,
    TypeKind, TypeKindView, TypeRef, TypeRefView,
};
use super::references::{
    canonical, canonicalize, check_references, lookup_type, reference_errors, target_domain,
    type_at, ReferenceError, ReferenceErrorView,
};

verus! {

/// A reference: the member that refers and the type that it refers to.
#[derive(Debug)]
pub struct ReferencePair {
    pub referrer: QualifiedName,
    pub target: QualifiedName,
}

/// The view of a [`ReferencePair`].
pub struct ReferencePairView {
    pub referrer: QualifiedNameView,
    pub target: QualifiedNameView,
}

impl DeepView for ReferencePair {
    type V = ReferencePairView;

    open spec fn deep_view(&self) -> ReferencePairView {
        ReferencePairView { referrer: self.referrer.deep_view(), target: self.target.deep_view() }
    }
}

/// The references between domains that may lie on a cycle. The list is
/// knowledge about the protocol that the schema does not hold. Names are
/// compared without regard to case.
#[derive(Debug)]
pub struct AllowList {
    pub pairs: Vec<ReferencePair>,
}

impl DeepView for AllowList {
    type V = Seq<ReferencePairView>;

    open spec fn deep_view(&self) -> Seq<ReferencePairView> {
        self.pairs.deep_view()
    }
}

/// Whether two references are the same but for the case of their names.
pub open spec fn same_pair(a: ReferencePairView, b: ReferencePairView) -> bool {
    &&& same_name(a.referrer.domain, b.referrer.domain)
    &&& same_name(a.referrer.name, b.referrer.name)
    &&& same_name(a.target.domain, b.target.domain)
    &&& same_name(a.target.name, b.target.name)
}

/// The index of the first pair of `list` from `from` on that is `pair`, or
/// the length of the list if there is none.
pub open spec fn pair_index(list: Seq<ReferencePairView>, pair: ReferencePairView, from: int) -> int
    decreases list.len() - from,
{
    if from >= list.len() {
        list.len() as int
    } else if same_pair(list[from], pair) {
        from
    } else {
        pair_index(list, pair, from + 1)
    }
}

/// Whether the list allows a reference on a cycle.
pub open spec fn allows(list: Seq<ReferencePairView>, pair: ReferencePairView) -> bool {
    pair_index(list, pair, 0) < list.len()
}

impl AllowList {
    /// A list that allows nothing.
    pub fn new() -> (r: Self)
        ensures
            r.deep_view() == Seq::<ReferencePairView>::empty(),
    {
        let r = AllowList { pairs: Vec::new() };
        assert(r.deep_view() =~= Seq::<ReferencePairView>::empty());
        r
    }

    /// Allows one more reference.
    pub fn allow(&mut self, referrer: QualifiedName, target: QualifiedName)
        ensures
            final(self).deep_view() == old(self).deep_view().push(
                ReferencePairView { referrer: referrer.deep_view(), target: target.deep_view() },
            ),
    {
        let pair = ReferencePair { referrer, target };
        let ghost before = self.pairs;
        self.pairs.push(pair);
        proof {
            lemma_push_deep_view(before, self.pairs, pair);
        }
    }

    /// Whether the list allows the reference from `referrer` to `target`.
    pub fn allows(&self, referrer: &QualifiedName, target: &QualifiedName) -> (r: bool)
        ensures
            r == allows(
                self.deep_view(),
                ReferencePairView { referrer: referrer.deep_view(), target: target.deep_view() },
            ),
    {
        let ghost list = self.deep_view();
        let ghost pair = ReferencePairView {
            referrer: referrer.deep_view(),
            target: target.deep_view(),
        };
        let mut i: usize = 0;
        while i < self.pairs.len()
            invariant
                i <= self.pairs.len(),
                list == self.deep_view(),
                list.len() == self.pairs.len(),
                pair == (ReferencePairView {
                    referrer: referrer.deep_view(),
                    target: target.deep_view(),
                }),
                pair_index(list, pair, 0) == pair_index(list, pair, i as int),
            decreases self.pairs.len() - i,
        {
            let p = &self.pairs[i];
            assert(list[i as int] == p.deep_view());
            if eq_ignore_case(p.referrer.domain.as_slice(), referrer.domain.as_slice())
                && eq_ignore_case(p.referrer.name.as_slice(), referrer.name.as_slice())
                && eq_ignore_case(p.target.domain.as_slice(), target.domain.as_slice())
                && eq_ignore_case(p.target.name.as_slice(), target.name.as_slice()) {
                return true;
            }
            i += 1;
        }
        false
    }
}

/// Whether an edge names members that the schema has.
pub open spec fn edge_fits(schema: SchemaView, e: Edge) -> bool {
    &&& e.from < schema.domains.len()
    &&& e.to < schema.domains.len()
    &&& e.referrer < schema.domains[e.from as int].members.len()
    &&& e.target < schema.domains[e.to as int].members.len()
}

/// Whether all the edges name members that the schema has.
pub open spec fn all_fit(schema: SchemaView, es: Seq<Edge>) -> bool {
    forall|k: int| 0 <= k < es.len() ==> edge_fits(schema, #[trigger] es[k])
}

/// The edge that a reference of member `m` of domain `a` makes: one to the
/// domain of the type that it names, if that is another domain.
pub open spec fn ref_edge(schema: SchemaView, a: int, m: int, r: TypeRefView) -> Option<Edge> {
    match r.target {
        RefTargetView::Primitive(_) => None,
        RefTargetView::Named { domain, name } => match type_at(
            schema,
            target_domain(schema, a, domain),
            name,
        ) {
            Some((b, t)) => if b != a {
                Some(Edge { from: a as usize, to: b as usize, referrer: m as usize, target: t as usize })
            } else {
                None
            },
            None => None,
        },
    }
}

/// `acc` with one more edge, if there is one.
pub open spec fn with_edge(acc: Seq<Edge>, e: Option<Edge>) -> Seq<Edge> {
    match e {
        Some(e) => acc.push(e),
        None => acc,
    }
}

/// `acc` followed by the edges of the properties from `from` on.
pub open spec fn prop_edges(
    schema: SchemaView,
    a: int,
    m: int,
    props: Seq<PropertyView>,
    from: int,
    acc: Seq<Edge>,
) -> Seq<Edge>
    decreases props.len() - from,
{
    if from >= props.len() {
        acc
    } else {
        prop_edges(
            schema,
            a,
            m,
            props,
            from + 1,
            with_edge(acc, ref_edge(schema, a, m, props[from].ty)),
        )
    }
}

/// `acc` followed by the edges of member `m` of domain `a`.
pub open spec fn member_edges(schema: SchemaView, a: int, m: int, acc: Seq<Edge>) -> Seq<Edge> {
    match schema.domains[a].members[m] {
        MemberView::Type(t) => match t.kind {
            TypeKindView::Object(props) => prop_edges(schema, a, m, props, 0, acc),
            TypeKindView::Array(element) => with_edge(acc, ref_edge(schema, a, m, element)),
            TypeKindView::Reference(target) => with_edge(acc, ref_edge(schema, a, m, target)),
            _ => acc,
        },
        MemberView::Command(c) => prop_edges(
            schema,
            a,
            m,
            c.returns,
            0,
            prop_edges(schema, a, m, c.parameters, 0, acc),
        ),
        MemberView::Event(e) => prop_edges(schema, a, m, e.parameters, 0, acc),
    }
}

/// `acc` followed by the edges of the members of domain `a` from `from` on.
pub open spec fn domain_edges(schema: SchemaView, a: int, from: int, acc: Seq<Edge>) -> Seq<Edge>
    decreases schema.domains[a].members.len() - from,
{
    if from >= schema.domains[a].members.len() {
        acc
    } else {
        domain_edges(schema, a, from + 1, member_edges(schema, a, from, acc))
    }
}

/// `acc` followed by the edges of the domains from `from` on.
pub open spec fn schema_edges(schema: SchemaView, from: int, acc: Seq<Edge>) -> Seq<Edge>
    decreases schema.domains.len() - from,
{
    if from >= schema.domains.len() {
        acc
    } else {
        schema_edges(schema, from + 1, domain_edges(schema, from, 0, acc))
    }
}

/// The dependency graph of a schema: one edge for every reference from a
/// member of one domain to a type of another, in the order of the schema.
pub open spec fn edges(schema: SchemaView) -> Seq<Edge> {
    schema_edges(schema, 0, Seq::empty())
}

/// The names of the two ends of an edge.
pub open spec fn pair_of(schema: SchemaView, e: Edge) -> ReferencePairView {
    ReferencePairView {
        referrer: QualifiedNameView {
            domain: schema.domains[e.from as int].name,
            name: schema.domains[e.from as int].members[e.referrer as int].name(),
        },
        target: QualifiedNameView {
            domain: schema.domains[e.to as int].name,
            name: schema.domains[e.to as int].members[e.target as int].name(),
        },
    }
}

/// For each edge, whether the list allows it on a cycle.
pub open spec fn allowed_flags(
    schema: SchemaView,
    list: Seq<ReferencePairView>,
    es: Seq<Edge>,
) -> Seq<bool> {
    Seq::new(es.len(), |k: int| allows(list, pair_of(schema, es[k])))
}

/// The references along a walk, by name.
pub open spec fn walk_names(schema: SchemaView, es: Seq<Edge>, p: Seq<usize>) -> Seq<
    ReferencePairView,
> {
    Seq::new(p.len(), |i: int| pair_of(schema, es[p[i] as int]))
}

/// Finds the edge that a reference of member `m` of domain `a` makes.
pub(crate) fn reference_edge(schema: &ProtocolSchema, a: usize, m: usize, r: &TypeRef) -> (e: Option<Edge>)
    requires
        a < schema.domains.len(),
        m < schema.domains[a as int].members.len(),
    ensures
        e == ref_edge(schema.deep_view(), a as int, m as int, r.deep_view()),
        e matches Some(x) ==> edge_fits(schema.deep_view(), x),
{
    let ghost sv = schema.deep_view();
    assert(sv.domains[a as int] == schema.domains@[a as int].deep_view());
    match &r.target {
        RefTarget::Primitive(_) => None,
        RefTarget::Named { domain, name } => {
            let dn: &Vec<u8> = match domain {
                Some(d) => d,
                None => &schema.domains[a].name,
            };
            assert(dn@ == target_domain(sv, a as int, opt_name(*domain)));
            match lookup_type(schema, dn.as_slice(), name.as_slice()) {
                Some((b, t)) => {
                    assert(sv.domains[b as int] == schema.domains@[b as int].deep_view());
                    if b != a {
                        Some(Edge { from: a, to: b, referrer: m, target: t })
                    } else {
                        None
                    }
                },
                None => None,
            }
        },
    }
}

/// Appends the edges of a list of properties.
fn property_edges(
    schema: &ProtocolSchema,
    a: usize,
    m: usize,
    props: &Vec<Property>,
    acc: &mut Vec<Edge>,
)
    requires
        a < schema.domains.len(),
        m < schema.domains[a as int].members.len(),
        all_fit(schema.deep_view(), old(acc)@),
    ensures
        final(acc)@ == prop_edges(
            schema.deep_view(),
            a as int,
            m as int,
            props.deep_view(),
            0,
            old(acc)@,
        ),
        all_fit(schema.deep_view(), final(acc)@),
{
    let ghost sv = schema.deep_view();
    let ghost pv = props.deep_view();
    let mut i: usize = 0;
    while i < props.len()
        invariant
            i <= props.len(),
            a < schema.domains.len(),
            m < schema.domains[a as int].members.len(),
            sv == schema.deep_view(),
            pv == props.deep_view(),
            all_fit(sv, acc@),
            prop_edges(sv, a as int, m as int, pv, 0, old(acc)@) == prop_edges(
                sv,
                a as int,
                m as int,
                pv,
                i as int,
                acc@,
            ),
        decreases props.len() - i,
    {
        assert(pv[i as int] == props@[i as int].deep_view());
        match reference_edge(schema, a, m, &props[i].ty) {
            Some(e) => {
                acc.push(e);
            },
            None => {},
        }
        i += 1;
    }
}

/// Appends the edge of one reference, if it makes one.
fn single_edge(schema: &ProtocolSchema, a: usize, m: usize, r: &TypeRef, acc: &mut Vec<Edge>)
    requires
        a < schema.domains.len(),
        m < schema.domains[a as int].members.len(),
        all_fit(schema.deep_view(), old(acc)@),
    ensures
        final(acc)@ == with_edge(
            old(acc)@,
            ref_edge(schema.deep_view(), a as int, m as int, r.deep_view()),
        ),
        all_fit(schema.deep_view(), final(acc)@),
{
    match reference_edge(schema, a, m, r) {
        Some(e) => {
            acc.push(e);
        },
        None => {},
    }
}

/// Builds the dependency graph of a schema.
#[verifier::rlimit(40)]
pub fn dependency_edges(schema: &ProtocolSchema) -> (r: Vec<Edge>)
    ensures
        r@ == edges(schema.deep_view()),
        all_fit(schema.deep_view(), r@),
{
    let ghost sv = schema.deep_view();
    let mut acc: Vec<Edge> = Vec::new();
    let mut a: usize = 0;
    while a < schema.domains.len()
        invariant
            a <= schema.domains.len(),
            sv == schema.deep_view(),
            sv.domains.len() == schema.domains.len(),
            all_fit(sv, acc@),
            edges(sv) == schema_edges(sv, a as int, acc@),
        decreases schema.domains.len() - a,
    {
        let domain = &schema.domains[a];
        assert(sv.domains[a as int] == domain.deep_view());
        let mut m: usize = 0;
        let ghost start = acc@;
        while m < domain.members.len()
            invariant
                m <= domain.members.len(),
                a < schema.domains.len(),
                sv == schema.deep_view(),
                sv.domains[a as int] == domain.deep_view(),
                *domain == schema.domains@[a as int],
                all_fit(sv, acc@),
                domain_edges(sv, a as int, 0, start) == domain_edges(sv, a as int, m as int, acc@),
            decreases domain.members.len() - m,
        {
            assert(sv.domains[a as int].members[m as int] == domain.members@[m as int].deep_view());
            match &domain.members[m] {
                Member::Type(t) => match &t.kind {
                    TypeKind::Object(props) => property_edges(schema, a, m, props, &mut acc),
                    TypeKind::Array(element) => single_edge(schema, a, m, element, &mut acc),
                    TypeKind::Reference(target) => single_edge(schema, a, m, target, &mut acc),
                    _ => {},
                },
                Member::Command(c) => {
                    property_edges(schema, a, m, &c.parameters, &mut acc);
                    property_edges(schema, a, m, &c.returns, &mut acc);
                },
                Member::Event(e) => property_edges(schema, a, m, &e.parameters, &mut acc),
            }
            m += 1;
        }
        a += 1;
    }
    acc
}

/// The name of a member of a domain, with the name of the domain.
fn qualified(schema: &ProtocolSchema, d: usize, m: usize) -> (r: QualifiedName)
    requires
        d < schema.domains.len(),
        m < schema.domains[d as int].members.len(),
    ensures
        r.deep_view() == (QualifiedNameView {
            domain: schema.deep_view().domains[d as int].name,
            name: schema.deep_view().domains[d as int].members[m as int].name(),
        }),
{
    let ghost sv = schema.deep_view();
    assert(sv.domains[d as int] == schema.domains@[d as int].deep_view());
    proof {
        lemma_member_view(schema, d as int, m as int);
    }
    let domain = &schema.domains[d];
    QualifiedName {
        domain: copy_bytes(domain.name.as_slice()),
        name: copy_bytes(domain.members[m].name().as_slice()),
    }
}

/// The names of the two ends of an edge.
fn edge_names(schema: &ProtocolSchema, e: Edge) -> (r: ReferencePair)
    requires
        edge_fits(schema.deep_view(), e),
    ensures
        r.deep_view() == pair_of(schema.deep_view(), e),
{
    let ghost sv = schema.deep_view();
    assert(sv.domains[e.from as int] == schema.domains@[e.from as int].deep_view());
    assert(sv.domains[e.to as int] == schema.domains@[e.to as int].deep_view());
    ReferencePair {
        referrer: qualified(schema, e.from, e.referrer),
        target: qualified(schema, e.to, e.target),
    }
}

/// Why a schema does not resolve.
#[derive(Debug)]
pub enum ResolveError {
    /// A reference names a type that the schema does not have.
    UnresolvedType(QualifiedName),
    /// The redirects that start at this name never reach a type.
    RedirectCycle(QualifiedName),
    /// The domains depend on each other in a cycle that holds a reference
    /// that is not allowed on one. These are the references of the cycle,
    /// in order; the last of them is not allowed.
    CircularDependency(Vec<ReferencePair>),
}

/// The view of a [`ResolveError`].
pub enum ResolveErrorView {
    UnresolvedType(QualifiedNameView),
    RedirectCycle(QualifiedNameView),
    CircularDependency(Seq<ReferencePairView>),
}

impl DeepView for ResolveError {
    type V = ResolveErrorView;

    open spec fn deep_view(&self) -> ResolveErrorView {
        match *self {
            ResolveError::UnresolvedType(n) => ResolveErrorView::UnresolvedType(n.deep_view()),
            ResolveError::RedirectCycle(n) => ResolveErrorView::RedirectCycle(n.deep_view()),
            ResolveError::CircularDependency(path) => ResolveErrorView::CircularDependency(
                path.deep_view(),
            ),
        }
    }
}

/// The error of a reference as an error of the resolver.
pub open spec fn as_resolve_error(e: ReferenceErrorView) -> ResolveErrorView {
    match e {
        ReferenceErrorView::Unresolved(n) => ResolveErrorView::UnresolvedType(n),
        ReferenceErrorView::RedirectCycle(n) => ResolveErrorView::RedirectCycle(n),
    }
}

/// What a schema resolves to: its canonical form, if every reference names
/// a type and every edge on every cycle of the dependency graph is allowed.
pub enum Resolution {
    /// The canonical form.
    Resolved(SchemaView),
    /// A reference stands for no type: this is the first such reference.
    BadReference(ReferenceErrorView),
    /// Some cycle holds an edge that is not allowed.
    BadCycle,
}

/// What `schema` resolves to under the list `allow`.
pub open spec fn resolution(schema: SchemaView, allow: Seq<ReferencePairView>) -> Resolution {
    match canonical(schema) {
        Err(e) => Resolution::BadReference(e),
        Ok(c) => if cycles_allowed(edges(c), allowed_flags(c, allow, edges(c))) {
            Resolution::Resolved(c)
        } else {
            Resolution::BadCycle
        },
    }
}

/// Whether `path` names the references of a cycle of the dependency graph
/// of `c` that holds a reference that `allow` does not allow.
pub open spec fn names_bad_cycle(
    c: SchemaView,
    allow: Seq<ReferencePairView>,
    path: Seq<ReferencePairView>,
) -> bool {
    exists|p: Seq<usize>|
        is_bad_cycle(edges(c), allowed_flags(c, allow, edges(c)), p) && path == walk_names(
            c,
            edges(c),
            p,
        )
}

/// Whether an error reports a cycle of the dependency graph of `c` that
/// holds a reference that `allow` does not allow.
pub open spec fn reports_bad_cycle(
    c: SchemaView,
    allow: Seq<ReferencePairView>,
    e: ResolveErrorView,
) -> bool {
    e matches ResolveErrorView::CircularDependency(path) && names_bad_cycle(c, allow, path)
}

/// Whether `r` is what resolving `schema` under the list `allow` gives:
/// the canonical form of the schema; or the errors of all the references
/// that stand for no type, in the order of the schema; or, where every
/// reference stands for a type, at least one cycle of the dependency
/// graph that is not allowed, and nothing but such cycles.
pub open spec fn is_resolved(
    schema: SchemaView,
    allow: Seq<ReferencePairView>,
    r: Result<ProtocolSchema, Vec<ResolveError>>,
) -> bool {
    match resolution(schema, allow) {
        Resolution::Resolved(c) => r matches Ok(s) && s.deep_view() == c,
        Resolution::BadReference(_) => r matches Err(errors) && errors@.len() == reference_errors(
            schema,
        ).len() && forall|i: int|
            0 <= i < errors@.len() ==> (#[trigger] errors@[i]).deep_view() == as_resolve_error(
                reference_errors(schema)[i],
            ),
        Resolution::BadCycle => r matches Err(errors) && errors@.len() > 0 && forall|i: int|
            0 <= i < errors@.len() ==> reports_bad_cycle(
                canonical(schema)->Ok_0,
                allow,
                (#[trigger] errors@[i]).deep_view(),
            ),
    }
}

/// Whether an error names a path that exists in the dependency graph of
/// `c`: the references of a cycle of it, one of which `allow` does not
/// allow.
pub open spec fn names_broken_cycle(
    c: SchemaView,
    allow: Seq<ReferencePairView>,
    e: ResolveErrorView,
) -> bool {
    e matches ResolveErrorView::CircularDependency(path) && exists|p: Seq<usize>|
        is_cycle(edges(c), p) && !walk_allowed(allowed_flags(c, allow, edges(c)), p) && path
            == walk_names(c, edges(c), p)
}

/// The cycle policy. A schema whose references all stand for types
/// resolves if and only if every edge on every cycle of its dependency
/// graph is allowed. Otherwise every error names a path that exists in the
/// graph: the references of a cycle of it, one of which is not allowed.
#[verifier::rlimit(40)]
pub proof fn lemma_cycle_policy(
    schema: SchemaView,
    allow: Seq<ReferencePairView>,
    r: Result<ProtocolSchema, Vec<ResolveError>>,
)
    requires
        canonical(schema) is Ok,
        is_resolved(schema, allow, r),
    ensures
        r is Ok <==> cycles_allowed(
            edges(canonical(schema)->Ok_0),
            allowed_flags(canonical(schema)->Ok_0, allow, edges(canonical(schema)->Ok_0)),
        ),
        r matches Err(errors) ==> forall|i: int|
            0 <= i < errors@.len() ==> names_broken_cycle(
                canonical(schema)->Ok_0,
                allow,
                (#[trigger] errors@[i]).deep_view(),
            ),
{
    let c = canonical(schema)->Ok_0;
    let flags = allowed_flags(c, allow, edges(c));
    match r {
        Ok(_) => {},
        Err(errors) => {
            assert forall|i: int| 0 <= i < errors@.len() implies names_broken_cycle(
                c,
                allow,
                (#[trigger] errors@[i]).deep_view(),
            ) by {
                let e = errors@[i].deep_view();
                assert(reports_bad_cycle(c, allow, e));
                let path = e->CircularDependency_0;
                let p = choose|p: Seq<usize>|
                    is_bad_cycle(edges(c), flags, p) && path == walk_names(c, edges(c), p);
                assert(!walk_allowed(flags, p)) by {
                    if walk_allowed(flags, p) {
                        assert(flags[p[p.len() - 1] as int]);
                    }
                }
            }
        },
    }
}

/// The names of the references along a cycle of the dependency graph.
fn cycle_names(schema: &ProtocolSchema, graph: &Vec<Edge>, cycle: &Vec<usize>) -> (path: Vec<
    ReferencePair,
>)
    requires
        all_fit(schema.deep_view(), graph@),
        forall|j: int| 0 <= j < cycle@.len() ==> #[trigger] cycle@[j] < graph@.len(),
    ensures
        path.deep_view() == walk_names(schema.deep_view(), graph@, cycle@),
{
    let ghost c = schema.deep_view();
    let ghost es = graph@;
    let mut path: Vec<ReferencePair> = Vec::new();
    let mut i: usize = 0;
    while i < cycle.len()
        invariant
            i <= cycle.len(),
            c == schema.deep_view(),
            es == graph@,
            all_fit(c, es),
            forall|j: int| 0 <= j < cycle@.len() ==> #[trigger] cycle@[j] < es.len(),
            path@.len() == i,
            forall|j: int|
                0 <= j < i ==> (#[trigger] path@[j]).deep_view() == pair_of(c, es[cycle@[j] as int]),
        decreases cycle.len() - i,
    {
        assert(cycle@[i as int] < es.len());
        let e = graph[cycle[i]];
        assert(edge_fits(c, es[cycle@[i as int] as int]));
        path.push(edge_names(schema, e));
        i += 1;
    }
    assert(path.deep_view() =~= walk_names(c, es, cycle@));
    path
}

/// Resolves a schema: rewrites every reference to the type it stands for,
/// and accepts the cycles among the domains whose references are all on
/// the list `allow`. A reference without a type, a chain of redirects that
/// never ends, and a cycle with a reference that is not allowed are
/// errors. All the errors of one of these two kinds are reported together:
/// those of the references, or else those of the cycles.
#[verifier::rlimit(40)]
pub fn resolve(schema: &ProtocolSchema, allow: &AllowList) -> (r: Result<
    ProtocolSchema,
    Vec<ResolveError>,
>)
    ensures
        is_resolved(schema.deep_view(), allow.deep_view(), r),
{
    let ghost sv = schema.deep_view();
    let resolved = match canonicalize(schema) {
        Ok(c) => c,
        Err(_) => {
            let found = check_references(schema);
            let ghost all = found.deep_view();
            let ghost src = found@;
            let mut errors: Vec<ResolveError> = Vec::new();
            for e in it: found
                invariant
                    it.seq() == src,
                    all.len() == src.len(),
                    forall|j: int| 0 <= j < src.len() ==> all[j] == (#[trigger] src[j]).deep_view(),
                    errors@.len() == it.index(),
                    forall|j: int|
                        0 <= j < errors@.len() ==> (#[trigger] errors@[j]).deep_view()
                            == as_resolve_error(all[j]),
            {
                assert(all[it.index() as int] == e.deep_view());
                match e {
                    ReferenceError::Unresolved(n) => errors.push(ResolveError::UnresolvedType(n)),
                    ReferenceError::RedirectCycle(n) => errors.push(ResolveError::RedirectCycle(n)),
                }
            }
            return Err(errors);
        },
    };
    let ghost c = resolved.deep_view();
    let ghost list = allow.deep_view();
    let graph = dependency_edges(&resolved);
    let ghost es = graph@;
    let mut flags: Vec<bool> = Vec::new();
    let mut k: usize = 0;
    while k < graph.len()
        invariant
            k <= graph.len(),
            c == resolved.deep_view(),
            list == allow.deep_view(),
            es == graph@,
            all_fit(c, es),
            flags@.len() == k,
            forall|j: int| 0 <= j < k ==> flags@[j] == allows(list, pair_of(c, #[trigger] es[j])),
        decreases graph.len() - k,
    {
        let pair = edge_names(&resolved, graph[k]);
        flags.push(allow.allows(&pair.referrer, &pair.target));
        k += 1;
    }
    assert(flags@ =~= allowed_flags(c, list, es));
    assert(edges_fit(es, resolved.domains.len() as int)) by {
        assert forall|j: int| 0 <= j < es.len() implies (#[trigger] es[j]).from
            < resolved.domains.len() && es[j].to < resolved.domains.len() by {
            assert(edge_fits(c, es[j]));
        }
    }
    let cycles = bad_cycles(resolved.domains.len(), &graph, &flags);
    if cycles.len() == 0 {
        return Ok(resolved);
    }
    let mut errors: Vec<ResolveError> = Vec::new();
    let mut i: usize = 0;
    while i < cycles.len()
        invariant
            i <= cycles.len(),
            c == resolved.deep_view(),
            list == allow.deep_view(),
            es == graph@,
            es == edges(c),
            all_fit(c, es),
            flags@ == allowed_flags(c, list, es),
            forall|j: int|
                0 <= j < cycles@.len() ==> is_bad_cycle(es, flags@, (#[trigger] cycles@[j])@),
            errors@.len() == i,
            forall|j: int|
                0 <= j < i ==> reports_bad_cycle(c, list, (#[trigger] errors@[j]).deep_view()),
        decreases cycles.len() - i,
    {
        let cycle = &cycles[i];
        assert(is_bad_cycle(es, flags@, cycle@));
        assert(forall|j: int| 0 <= j < cycle@.len() ==> #[trigger] cycle@[j] < es.len()) by {
            assert forall|j: int| 0 <= j < cycle@.len() implies #[trigger] cycle@[j] < es.len() by {
                lemma_walk_split(
                    es,
                    cycle@,
                    es[cycle@.last() as int].to as int,
                    es[cycle@.last() as int].to as int,
                    j,
                );
            }
        }
        let path = cycle_names(&resolved, &graph, cycle);
        assert(names_bad_cycle(c, list, path.deep_view()));
        errors.push(ResolveError::CircularDependency(path));
        i += 1;
    }
    Err(errors)
}

} // verus!
