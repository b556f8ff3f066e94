//! The filter: prunes a schema by stability tier.

use vstd::prelude::*;

use super::bytes::{copy_bytes, copy_names};
use super::model::{
    declares, emitted, has_member, lemma_declares_push, lemma_has_member_push, lemma_member_view,
    lemma_push_deep_view, opt_name, Command, CommandView, Domain, DomainView, Event, EventView,
    Member, MemberView, Property, PropertyView, ProtocolSchema, QualifiedName, QualifiedNameView,
    RefTarget, RefTargetView, SchemaView, Stability, TypeDef, TypeDefView, TypeKind, TypeKindView,
    TypeRef, TypeRefView,
};
use super::references::{lookup_type, target_domain, type_at};
use super::resolver::ReferencePairView;

verus! {

/// Which stability tiers a compilation takes in.
#[derive(Clone, Copy, Debug, PartialEq, Eq, Structural)]
pub struct Config {
    /// Whether experimental definitions are kept.
    pub include_experimental: bool,
    /// Whether deprecated definitions are kept.
    pub include_deprecated: bool,
}

impl Default for Config {
    /// Experimental definitions are kept, deprecated ones are not.
    fn default() -> (r: Self)
        ensures
            r == (Config { include_experimental: true, include_deprecated: false }),
    {
        Config { include_experimental: true, include_deprecated: false }
    }
}

/// A required reference to a definition that was pruned: the member that
/// refers, and the type it refers to.
#[derive(Debug)]
pub struct PrunedDependency {
    pub referrer: QualifiedName,
    pub target: QualifiedName,
}

impl DeepView for PrunedDependency {
    type V = ReferencePairView;

    open spec fn deep_view(&self) -> ReferencePairView {
        ReferencePairView { referrer: self.referrer.deep_view(), target: self.target.deep_view() }
    }
}

/// Whether a definition of this stability tier is kept.
pub open spec fn keeps(cfg: Config, s: Stability) -> bool {
    (s.experimental ==> cfg.include_experimental) && (s.deprecated ==> cfg.include_deprecated)
}

/// Whether the type that a reference of domain `owner` names is kept: the
/// schema has it, and neither it nor its domain is pruned. A scalar is
/// always there.
pub open spec fn live(schema: SchemaView, cfg: Config, owner: int, r: TypeRefView) -> bool {
    match r.target {
        RefTargetView::Primitive(_) => true,
        RefTargetView::Named { domain, name } => match type_at(
            schema,
            target_domain(schema, owner, domain),
            name,
        ) {
            Some((d, m)) => keeps(cfg, schema.domains[d].stability) && keeps(
                cfg,
                schema.domains[d].members[m].stability(),
            ),
            None => false,
        },
    }
}

/// The name that a reference of domain `owner` names.
pub open spec fn named(schema: SchemaView, owner: int, r: TypeRefView) -> QualifiedNameView {
    match r.target {
        RefTargetView::Primitive(_) => QualifiedNameView { domain: Seq::empty(), name: Seq::empty() },
        RefTargetView::Named { domain, name } => QualifiedNameView {
            domain: target_domain(schema, owner, domain),
            name,
        },
    }
}

/// `acc` followed by the properties from `from` on that are kept. A
/// property goes with its own tier, and an optional one also with the type
/// it refers to. A required one whose type is pruned is an error.
pub open spec fn filter_props(
    schema: SchemaView,
    cfg: Config,
    owner: int,
    referrer: QualifiedNameView,
    props: Seq<PropertyView>,
    from: int,
    acc: Seq<PropertyView>,
) -> Result<Seq<PropertyView>, ReferencePairView>
    decreases props.len() - from,
{
    if from >= props.len() {
        Ok(acc)
    } else {
        let p = props[from];
        if !keeps(cfg, p.stability) {
            filter_props(schema, cfg, owner, referrer, props, from + 1, acc)
        } else if live(schema, cfg, owner, p.ty) {
            filter_props(schema, cfg, owner, referrer, props, from + 1, acc.push(p))
        } else if p.optional {
            filter_props(schema, cfg, owner, referrer, props, from + 1, acc)
        } else {
            Err(ReferencePairView { referrer, target: named(schema, owner, p.ty) })
        }
    }
}

/// The shape of a type after pruning.
pub open spec fn filter_kind(
    schema: SchemaView,
    cfg: Config,
    owner: int,
    referrer: QualifiedNameView,
    kind: TypeKindView,
) -> Result<TypeKindView, ReferencePairView> {
    match kind {
        TypeKindView::Object(props) => match filter_props(
            schema,
            cfg,
            owner,
            referrer,
            props,
            0,
            Seq::empty(),
        ) {
            Ok(ps) => Ok(TypeKindView::Object(ps)),
            Err(e) => Err(e),
        },
        TypeKindView::Array(r) | TypeKindView::Reference(r) => if live(schema, cfg, owner, r) {
            Ok(kind)
        } else {
            Err(ReferencePairView { referrer, target: named(schema, owner, r) })
        },
        _ => Ok(kind),
    }
}

/// A member after pruning, or nothing if the member itself is pruned.
pub open spec fn filter_member(schema: SchemaView, cfg: Config, owner: int, member: MemberView) -> Result<
    Option<MemberView>,
    ReferencePairView,
> {
    let referrer = QualifiedNameView { domain: schema.domains[owner].name, name: member.name() };
    if !keeps(cfg, member.stability()) {
        Ok(None)
    } else {
        match member {
            MemberView::Type(t) => match filter_kind(schema, cfg, owner, referrer, t.kind) {
                Ok(kind) => Ok(
                    Some(
                        MemberView::Type(
                            TypeDefView {
                                id: t.id,
                                description: t.description,
                                stability: t.stability,
                                kind,
                            },
                        ),
                    ),
                ),
                Err(e) => Err(e),
            },
            MemberView::Command(c) => match filter_props(
                schema,
                cfg,
                owner,
                referrer,
                c.parameters,
                0,
                Seq::empty(),
            ) {
                Ok(parameters) => match filter_props(
                    schema,
                    cfg,
                    owner,
                    referrer,
                    c.returns,
                    0,
                    Seq::empty(),
                ) {
                    Ok(results) => Ok(
                        Some(
                            MemberView::Command(
                                CommandView {
                                    name: c.name,
                                    description: c.description,
                                    stability: c.stability,
                                    parameters,
                                    returns: results,
                                    redirect: c.redirect,
                                },
                            ),
                        ),
                    ),
                    Err(e) => Err(e),
                },
                Err(e) => Err(e),
            },
            MemberView::Event(ev) => match filter_props(
                schema,
                cfg,
                owner,
                referrer,
                ev.parameters,
                0,
                Seq::empty(),
            ) {
                Ok(parameters) => Ok(
                    Some(
                        MemberView::Event(
                            EventView {
                                name: ev.name,
                                description: ev.description,
                                stability: ev.stability,
                                parameters,
                            },
                        ),
                    ),
                ),
                Err(e) => Err(e),
            },
        }
    }
}

/// `acc` followed by the members of domain `owner` from `from` on that
/// are kept.
pub open spec fn filter_members(
    schema: SchemaView,
    cfg: Config,
    owner: int,
    from: int,
    acc: Seq<MemberView>,
) -> Result<Seq<MemberView>, ReferencePairView>
    decreases schema.domains[owner].members.len() - from,
{
    if from >= schema.domains[owner].members.len() {
        Ok(acc)
    } else {
        match filter_member(schema, cfg, owner, schema.domains[owner].members[from]) {
            Ok(Some(m)) => filter_members(schema, cfg, owner, from + 1, acc.push(m)),
            Ok(None) => filter_members(schema, cfg, owner, from + 1, acc),
            Err(e) => Err(e),
        }
    }
}

/// Domain `owner` after pruning, or nothing if the domain itself is
/// pruned.
pub open spec fn filter_domain(schema: SchemaView, cfg: Config, owner: int) -> Result<
    Option<DomainView>,
    ReferencePairView,
> {
    let d = schema.domains[owner];
    if !keeps(cfg, d.stability) {
        Ok(None)
    } else {
        match filter_members(schema, cfg, owner, 0, Seq::empty()) {
            Ok(members) => Ok(
                Some(
                    DomainView {
                        name: d.name,
                        description: d.description,
                        stability: d.stability,
                        dependencies: d.dependencies,
                        members,
                    },
                ),
            ),
            Err(e) => Err(e),
        }
    }
}

/// `acc` followed by the domains from `from` on that are kept.
pub open spec fn filter_domains(schema: SchemaView, cfg: Config, from: int, acc: Seq<DomainView>) -> Result<
    Seq<DomainView>,
    ReferencePairView,
>
    decreases schema.domains.len() - from,
{
    if from >= schema.domains.len() {
        Ok(acc)
    } else {
        match filter_domain(schema, cfg, from) {
            Ok(Some(d)) => filter_domains(schema, cfg, from + 1, acc.push(d)),
            Ok(None) => filter_domains(schema, cfg, from + 1, acc),
            Err(e) => Err(e),
        }
    }
}

/// The schema after pruning: without the domains, members and properties
/// of a tier that is not taken in, and without the optional properties
/// whose type went with them. The first required reference, in the order
/// of the schema, to a type that was pruned is an error.
pub open spec fn filtered(schema: SchemaView, cfg: Config) -> Result<SchemaView, ReferencePairView> {
    match filter_domains(schema, cfg, 0, Seq::empty()) {
        Ok(domains) => Ok(SchemaView { domains }),
        Err(e) => Err(e),
    }
}

/// Whether the configuration `hi` takes in whatever `lo` takes in, and
/// differs from it only in what is deprecated.
pub open spec fn takes_more_deprecated(lo: Config, hi: Config) -> bool {
    lo.include_experimental == hi.include_experimental && (lo.include_deprecated
        ==> hi.include_deprecated)
}

/// A member that is kept keeps its name and stays a definition, or a
/// redirect; a member goes exactly if its tier is not taken in.
pub proof fn lemma_filter_member(schema: SchemaView, cfg: Config, owner: int, member: MemberView)
    ensures
        match filter_member(schema, cfg, owner, member) {
            Ok(Some(kept)) => keeps(cfg, member.stability()) && kept.name() == member.name()
                && emitted(kept) == emitted(member),
            Ok(None) => !keeps(cfg, member.stability()),
            Err(_) => keeps(cfg, member.stability()),
        },
{
}

/// The members that are kept under `lo` are kept under `hi`.
#[verifier::rlimit(40)]
pub proof fn lemma_members_monotonic(
    schema: SchemaView,
    lo: Config,
    hi: Config,
    owner: int,
    from: int,
    acc_lo: Seq<MemberView>,
    acc_hi: Seq<MemberView>,
)
    requires
        takes_more_deprecated(lo, hi),
        0 <= from,
        filter_members(schema, lo, owner, from, acc_lo) is Ok,
        filter_members(schema, hi, owner, from, acc_hi) is Ok,
        forall|n: Seq<u8>| has_member(acc_lo, n) ==> has_member(acc_hi, n),
    ensures
        forall|n: Seq<u8>|
            has_member(filter_members(schema, lo, owner, from, acc_lo)->Ok_0, n) ==> has_member(
                filter_members(schema, hi, owner, from, acc_hi)->Ok_0,
                n,
            ),
    decreases schema.domains[owner].members.len() - from,
{
    if from < schema.domains[owner].members.len() {
        let x = schema.domains[owner].members[from];
        lemma_filter_member(schema, lo, owner, x);
        lemma_filter_member(schema, hi, owner, x);
        let next_lo = match filter_member(schema, lo, owner, x) {
            Ok(Some(y)) => acc_lo.push(y),
            _ => acc_lo,
        };
        let next_hi = match filter_member(schema, hi, owner, x) {
            Ok(Some(y)) => acc_hi.push(y),
            _ => acc_hi,
        };
        assert forall|n: Seq<u8>| has_member(next_lo, n) implies has_member(next_hi, n) by {
            match filter_member(schema, lo, owner, x) {
                Ok(Some(y)) => {
                    lemma_has_member_push(acc_lo, y, n);
                },
                _ => {},
            }
            match filter_member(schema, hi, owner, x) {
                Ok(Some(y)) => {
                    lemma_has_member_push(acc_hi, y, n);
                },
                _ => {},
            }
        }
        lemma_members_monotonic(schema, lo, hi, owner, from + 1, next_lo, next_hi);
    }
}

/// The definitions that are kept under `lo` are kept under `hi`.
#[verifier::rlimit(40)]
pub proof fn lemma_domains_monotonic(
    schema: SchemaView,
    lo: Config,
    hi: Config,
    from: int,
    acc_lo: Seq<DomainView>,
    acc_hi: Seq<DomainView>,
)
    requires
        takes_more_deprecated(lo, hi),
        0 <= from,
        filter_domains(schema, lo, from, acc_lo) is Ok,
        filter_domains(schema, hi, from, acc_hi) is Ok,
        forall|d: Seq<u8>, n: Seq<u8>| declares(acc_lo, d, n) ==> declares(acc_hi, d, n),
    ensures
        forall|d: Seq<u8>, n: Seq<u8>|
            declares(filter_domains(schema, lo, from, acc_lo)->Ok_0, d, n) ==> declares(
                filter_domains(schema, hi, from, acc_hi)->Ok_0,
                d,
                n,
            ),
    decreases schema.domains.len() - from,
{
    if from < schema.domains.len() {
        let next_lo = match filter_domain(schema, lo, from) {
            Ok(Some(y)) => acc_lo.push(y),
            _ => acc_lo,
        };
        let next_hi = match filter_domain(schema, hi, from) {
            Ok(Some(y)) => acc_hi.push(y),
            _ => acc_hi,
        };
        if keeps(lo, schema.domains[from].stability) {
            lemma_members_monotonic(
                schema,
                lo,
                hi,
                from,
                0,
                Seq::<MemberView>::empty(),
                Seq::<MemberView>::empty(),
            );
        }
        assert forall|d: Seq<u8>, n: Seq<u8>| declares(next_lo, d, n) implies declares(
            next_hi,
            d,
            n,
        ) by {
            match filter_domain(schema, lo, from) {
                Ok(Some(y)) => {
                    lemma_declares_push(acc_lo, y, d, n);
                },
                _ => {},
            }
            match filter_domain(schema, hi, from) {
                Ok(Some(y)) => {
                    lemma_declares_push(acc_hi, y, d, n);
                },
                _ => {},
            }
        }
        lemma_domains_monotonic(schema, lo, hi, from + 1, next_lo, next_hi);
    }
}

/// Stability filtering is monotonic. Where a schema can be pruned both
/// without and with what is deprecated, and the two configurations agree on
/// what is experimental, every definition that is there without the
/// deprecated ones is there with them too.
pub proof fn lemma_filter_monotonic(schema: SchemaView, lo: Config, hi: Config)
    requires
        takes_more_deprecated(lo, hi),
        filtered(schema, lo) is Ok,
        filtered(schema, hi) is Ok,
    ensures
        forall|d: Seq<u8>, n: Seq<u8>|
            declares(filtered(schema, lo)->Ok_0.domains, d, n) ==> declares(
                filtered(schema, hi)->Ok_0.domains,
                d,
                n,
            ),
{
    assert forall|d: Seq<u8>, n: Seq<u8>|
        declares(Seq::<DomainView>::empty(), d, n) implies declares(
        Seq::<DomainView>::empty(),
        d,
        n,
    ) by {}
    lemma_domains_monotonic(
        schema,
        lo,
        hi,
        0,
        Seq::<DomainView>::empty(),
        Seq::<DomainView>::empty(),
    );
}

impl Config {
    /// Whether a definition of this stability tier is kept.
    pub fn keeps(&self, s: Stability) -> (r: bool)
        ensures
            r == keeps(*self, s),
    {
        (!s.experimental || self.include_experimental) && (!s.deprecated
            || self.include_deprecated)
    }
}

/// Whether the type that a reference names is kept.
fn is_live(schema: &ProtocolSchema, cfg: Config, owner: usize, r: &TypeRef) -> (out: bool)
    requires
        owner < schema.domains.len(),
    ensures
        out == live(schema.deep_view(), cfg, owner as int, r.deep_view()),
{
    let ghost sv = schema.deep_view();
    assert(sv.domains[owner as int] == schema.domains@[owner as int].deep_view());
    match &r.target {
        RefTarget::Primitive(_) => true,
        RefTarget::Named { domain, name } => {
            let dn: &Vec<u8> = match domain {
                Some(d) => d,
                None => &schema.domains[owner].name,
            };
            assert(dn@ == target_domain(sv, owner as int, opt_name(*domain)));
            match lookup_type(schema, dn.as_slice(), name.as_slice()) {
                Some((d, m)) => {
                    assert(sv.domains[d as int] == schema.domains@[d as int].deep_view());
                    proof {
                        lemma_member_view(schema, d as int, m as int);
                    }
                    cfg.keeps(schema.domains[d].stability) && cfg.keeps(
                        schema.domains[d].members[m].stability(),
                    )
                },
                None => false,
            }
        },
    }
}

/// The name that a reference names.
fn name_of(schema: &ProtocolSchema, owner: usize, r: &TypeRef) -> (out: QualifiedName)
    requires
        owner < schema.domains.len(),
    ensures
        out.deep_view() == named(schema.deep_view(), owner as int, r.deep_view()),
{
    let ghost sv = schema.deep_view();
    assert(sv.domains[owner as int] == schema.domains@[owner as int].deep_view());
    match &r.target {
        RefTarget::Primitive(_) => {
            let out = QualifiedName { domain: Vec::new(), name: Vec::new() };
            assert(out.domain@ =~= Seq::<u8>::empty());
            assert(out.name@ =~= Seq::<u8>::empty());
            out
        },
        RefTarget::Named { domain, name } => {
            let dn: &Vec<u8> = match domain {
                Some(d) => d,
                None => &schema.domains[owner].name,
            };
            QualifiedName { domain: copy_bytes(dn.as_slice()), name: copy_bytes(name.as_slice()) }
        },
    }
}

/// The error for a required reference of `referrer` whose type is pruned.
fn pruned(schema: &ProtocolSchema, owner: usize, referrer: &QualifiedName, r: &TypeRef) -> (out:
    PrunedDependency)
    requires
        owner < schema.domains.len(),
    ensures
        out.deep_view() == (ReferencePairView {
            referrer: referrer.deep_view(),
            target: named(schema.deep_view(), owner as int, r.deep_view()),
        }),
{
    PrunedDependency {
        referrer: QualifiedName {
            domain: copy_bytes(referrer.domain.as_slice()),
            name: copy_bytes(referrer.name.as_slice()),
        },
        target: name_of(schema, owner, r),
    }
}

/// Prunes a list of properties.
fn prune_props(
    schema: &ProtocolSchema,
    cfg: Config,
    owner: usize,
    referrer: &QualifiedName,
    props: &Vec<Property>,
) -> (out: Result<Vec<Property>, PrunedDependency>)
    requires
        owner < schema.domains.len(),
    ensures
        match filter_props(
            schema.deep_view(),
            cfg,
            owner as int,
            referrer.deep_view(),
            props.deep_view(),
            0,
            Seq::empty(),
        ) {
            Ok(ps) => out matches Ok(x) && x.deep_view() == ps,
            Err(e) => out matches Err(x) && x.deep_view() == e,
        },
{
    let ghost sv = schema.deep_view();
    let ghost pv = props.deep_view();
    let ghost rv = referrer.deep_view();
    let mut acc: Vec<Property> = Vec::new();
    assert(acc.deep_view() =~= Seq::<PropertyView>::empty());
    let mut i: usize = 0;
    while i < props.len()
        invariant
            i <= props.len(),
            owner < schema.domains.len(),
            sv == schema.deep_view(),
            pv == props.deep_view(),
            rv == referrer.deep_view(),
            filter_props(sv, cfg, owner as int, rv, pv, 0, Seq::empty()) == filter_props(
                sv,
                cfg,
                owner as int,
                rv,
                pv,
                i as int,
                acc.deep_view(),
            ),
        decreases props.len() - i,
    {
        let p = &props[i];
        assert(pv[i as int] == p.deep_view());
        if cfg.keeps(p.stability) {
            if is_live(schema, cfg, owner, &p.ty) {
                let q = p.duplicate();
                let ghost before = acc;
                acc.push(q);
                proof {
                    lemma_push_deep_view(before, acc, q);
                }
            } else if !p.optional {
                return Err(pruned(schema, owner, referrer, &p.ty));
            }
        }
        i += 1;
    }
    Ok(acc)
}

/// Prunes one member.
#[verifier::rlimit(40)]
fn prune_member(schema: &ProtocolSchema, cfg: Config, owner: usize, member: &Member) -> (out: Result<
    Option<Member>,
    PrunedDependency,
>)
    requires
        owner < schema.domains.len(),
    ensures
        match filter_member(schema.deep_view(), cfg, owner as int, member.deep_view()) {
            Ok(m) => out matches Ok(x) && x.deep_view() == m,
            Err(e) => out matches Err(x) && x.deep_view() == e,
        },
{
    let ghost sv = schema.deep_view();
    assert(sv.domains[owner as int] == schema.domains@[owner as int].deep_view());
    if !cfg.keeps(member.stability()) {
        return Ok(None);
    }
    let referrer = QualifiedName {
        domain: copy_bytes(schema.domains[owner].name.as_slice()),
        name: copy_bytes(member.name().as_slice()),
    };
    match member {
        Member::Type(t) => {
            let kind = match &t.kind {
                TypeKind::Primitive(p) => TypeKind::Primitive(*p),
                TypeKind::Enum(variants) => TypeKind::Enum(copy_names(variants)),
                TypeKind::Object(props) => match prune_props(schema, cfg, owner, &referrer, props) {
                    Ok(ps) => TypeKind::Object(ps),
                    Err(e) => {
                        return Err(e);
                    },
                },
                TypeKind::Array(r) => {
                    if !is_live(schema, cfg, owner, r) {
                        return Err(pruned(schema, owner, &referrer, r));
                    }
                    TypeKind::Array(r.duplicate())
                },
                TypeKind::Reference(r) => {
                    if !is_live(schema, cfg, owner, r) {
                        return Err(pruned(schema, owner, &referrer, r));
                    }
                    TypeKind::Reference(r.duplicate())
                },
                TypeKind::Redirect { domain, name } => TypeKind::Redirect {
                    domain: copy_bytes(domain.as_slice()),
                    name: copy_bytes(name.as_slice()),
                },
            };
            Ok(
                Some(
                    Member::Type(
                        TypeDef {
                            id: copy_bytes(t.id.as_slice()),
                            description: copy_bytes(t.description.as_slice()),
                            stability: t.stability,
                            kind,
                        },
                    ),
                ),
            )
        },
        Member::Command(c) => {
            let parameters = match prune_props(schema, cfg, owner, &referrer, &c.parameters) {
                Ok(ps) => ps,
                Err(e) => {
                    return Err(e);
                },
            };
            let results = match prune_props(schema, cfg, owner, &referrer, &c.returns) {
                Ok(ps) => ps,
                Err(e) => {
                    return Err(e);
                },
            };
            let redirect = match &c.redirect {
                Some(q) => Some(q.duplicate()),
                None => None,
            };
            Ok(
                Some(
                    Member::Command(
                        Command {
                            name: copy_bytes(c.name.as_slice()),
                            description: copy_bytes(c.description.as_slice()),
                            stability: c.stability,
                            parameters,
                            returns: results,
                            redirect,
                        },
                    ),
                ),
            )
        },
        Member::Event(ev) => {
            let parameters = match prune_props(schema, cfg, owner, &referrer, &ev.parameters) {
                Ok(ps) => ps,
                Err(e) => {
                    return Err(e);
                },
            };
            Ok(
                Some(
                    Member::Event(
                        Event {
                            name: copy_bytes(ev.name.as_slice()),
                            description: copy_bytes(ev.description.as_slice()),
                            stability: ev.stability,
                            parameters,
                        },
                    ),
                ),
            )
        },
    }
}

/// Prunes one domain.
fn prune_domain(schema: &ProtocolSchema, cfg: Config, owner: usize) -> (out: Result<
    Option<Domain>,
    PrunedDependency,
>)
    requires
        owner < schema.domains.len(),
    ensures
        match filter_domain(schema.deep_view(), cfg, owner as int) {
            Ok(d) => out matches Ok(x) && x.deep_view() == d,
            Err(e) => out matches Err(x) && x.deep_view() == e,
        },
{
    let ghost sv = schema.deep_view();
    let domain = &schema.domains[owner];
    assert(sv.domains[owner as int] == domain.deep_view());
    if !cfg.keeps(domain.stability) {
        return Ok(None);
    }
    let mut acc: Vec<Member> = Vec::new();
    assert(acc.deep_view() =~= Seq::<MemberView>::empty());
    let mut i: usize = 0;
    while i < domain.members.len()
        invariant
            i <= domain.members.len(),
            owner < schema.domains.len(),
            sv == schema.deep_view(),
            sv.domains[owner as int] == domain.deep_view(),
            keeps(cfg, domain.stability),
            filter_members(sv, cfg, owner as int, 0, Seq::empty()) == filter_members(
                sv,
                cfg,
                owner as int,
                i as int,
                acc.deep_view(),
            ),
        decreases domain.members.len() - i,
    {
        assert(sv.domains[owner as int].members[i as int] == domain.members@[i as int].deep_view());
        match prune_member(schema, cfg, owner, &domain.members[i]) {
            Ok(Some(m)) => {
                let ghost before = acc;
                acc.push(m);
                proof {
                    lemma_push_deep_view(before, acc, m);
                }
            },
            Ok(None) => {},
            Err(e) => {
                return Err(e);
            },
        }
        i += 1;
    }
    Ok(
        Some(
            Domain {
                name: copy_bytes(domain.name.as_slice()),
                description: copy_bytes(domain.description.as_slice()),
                stability: domain.stability,
                dependencies: copy_names(&domain.dependencies),
                members: acc,
            },
        ),
    )
}

/// Prunes a schema: removes every domain, member and property whose tier
/// the configuration does not take in, and the optional properties whose
/// type went with them. A required property, an array or an alias that
/// refers to a pruned type is an error: nothing is dropped silently.
pub fn filter(schema: &ProtocolSchema, cfg: Config) -> (out: Result<ProtocolSchema, PrunedDependency>)
    ensures
        match filtered(schema.deep_view(), cfg) {
            Ok(s) => out matches Ok(x) && x.deep_view() == s,
            Err(e) => out matches Err(x) && x.deep_view() == e,
        },
{
    let ghost sv = schema.deep_view();
    let mut acc: Vec<Domain> = Vec::new();
    assert(acc.deep_view() =~= Seq::<DomainView>::empty());
    let mut i: usize = 0;
    while i < schema.domains.len()
        invariant
            i <= schema.domains.len(),
            sv == schema.deep_view(),
            sv.domains.len() == schema.domains.len(),
            filter_domains(sv, cfg, 0, Seq::empty()) == filter_domains(
                sv,
                cfg,
                i as int,
                acc.deep_view(),
            ),
        decreases schema.domains.len() - i,
    {
        match prune_domain(schema, cfg, i) {
            Ok(Some(d)) => {
                let ghost before = acc;
                acc.push(d);
                proof {
                    lemma_push_deep_view(before, acc, d);
                }
            },
            Ok(None) => {},
            Err(e) => {
                return Err(e);
            },
        }
        i += 1;
    }
    Ok(ProtocolSchema { domains: acc })
}

} // verus!
