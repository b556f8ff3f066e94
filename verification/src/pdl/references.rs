//! Resolving the type references of a schema.
//!
//! A reference names a type by its domain and its name, or by its name
//! alone where the type is of the domain that the reference stands in. A
//! name that is a redirect stands for the type that the redirect names, and
//! so on to the end of the chain. The canonical form of a schema has every
//! reference rewritten to the domain and the name of the type that it
//! stands for, and no redirects.

use vstd::prelude::*;

use super::bytes::{copy_bytes, copy_names, same_name};
use super::model::{
    domain_index, emitted, find_domain, find_member, lemma_domain_index, lemma_member_index,
    lemma_member_view, lemma_push_deep_view, member_index, opt_name, Command, CommandView, Domain,
    DomainView, Event, EventView, Member, MemberView, Property, PropertyView, ProtocolSchema,
    QualifiedName, QualifiedNameView, RefTarget, RefTargetView, SchemaView, TypeDef, TypeDefView,
    TypeKind, TypeKindView, TypeRef, TypeRefView,
};

verus! {

/// Why a reference stands for no type.
#[derive(Debug)]
pub enum ReferenceError {
    /// No type has this name.
    Unresolved(QualifiedName),
    /// The redirects that start at this name never reach a type.
    RedirectCycle(QualifiedName),
}

/// The view of a [`ReferenceError`].
pub enum ReferenceErrorView {
    Unresolved(QualifiedNameView),
    RedirectCycle(QualifiedNameView),
}

impl DeepView for ReferenceError {
    type V = ReferenceErrorView;

    open spec fn deep_view(&self) -> ReferenceErrorView {
        match *self {
            ReferenceError::Unresolved(n) => ReferenceErrorView::Unresolved(n.deep_view()),
            ReferenceError::RedirectCycle(n) => ReferenceErrorView::RedirectCycle(n.deep_view()),
        }
    }
}

/// Where a chain of redirects ends.
pub enum Terminus {
    /// At the type that is member `1` of domain `0`.
    Found(int, int),
    /// At a redirect to this name, which no type has.
    Unresolved(QualifiedNameView),
    /// Nowhere: the chain is longer than the schema has members.
    Cycle,
}

/// The number of members of the domains from `from` on.
pub open spec fn member_count(domains: Seq<DomainView>, from: int) -> nat
    decreases domains.len() - from,
{
    if from >= domains.len() {
        0
    } else {
        domains[from].members.len() + member_count(domains, from + 1)
    }
}

/// How many redirects a chain may have before it is taken for a cycle: as
/// many as the schema has members, so that a longer chain comes by one of
/// them twice. The number is capped at what the machine can count.
pub open spec fn redirect_limit(schema: SchemaView) -> nat {
    if member_count(schema.domains, 0) <= usize::MAX {
        member_count(schema.domains, 0)
    } else {
        usize::MAX as nat
    }
}

/// The type with this name in the domain with this name: the index of the
/// domain and the index of the type among the domain's members.
pub open spec fn type_at(schema: SchemaView, domain: Seq<u8>, name: Seq<u8>) -> Option<(int, int)> {
    let d = domain_index(schema.domains, domain, 0);
    if d < schema.domains.len() {
        let m = member_index(schema.domains[d].members, name, 0);
        if m < schema.domains[d].members.len() && schema.domains[d].members[m] is Type {
            Some((d, m))
        } else {
            None
        }
    } else {
        None
    }
}

/// Where the redirects end that start at member `m` of domain `d`, with at
/// most `fuel` redirects followed.
pub open spec fn terminus(schema: SchemaView, d: int, m: int, fuel: nat) -> Terminus
    decreases fuel,
{
    match schema.domains[d].members[m] {
        MemberView::Type(t) => match t.kind {
            TypeKindView::Redirect { domain, name } => {
                if fuel == 0 {
                    Terminus::Cycle
                } else {
                    match type_at(schema, domain, name) {
                        Some((d2, m2)) => terminus(schema, d2, m2, (fuel - 1) as nat),
                        None => Terminus::Unresolved(QualifiedNameView { domain, name }),
                    }
                }
            },
            _ => Terminus::Found(d, m),
        },
        _ => Terminus::Found(d, m),
    }
}

/// The name of the domain that a reference in domain `owner` looks in.
pub open spec fn target_domain(schema: SchemaView, owner: int, domain: Option<Seq<u8>>) -> Seq<u8> {
    match domain {
        Some(d) => d,
        None => schema.domains[owner].name,
    }
}

/// The type that a reference in domain `owner` stands for.
pub open spec fn resolve_named(
    schema: SchemaView,
    owner: int,
    domain: Option<Seq<u8>>,
    name: Seq<u8>,
) -> Terminus {
    let dn = target_domain(schema, owner, domain);
    match type_at(schema, dn, name) {
        Some((d, m)) => terminus(schema, d, m, redirect_limit(schema)),
        None => Terminus::Unresolved(QualifiedNameView { domain: dn, name }),
    }
}

/// The canonical form of a reference in domain `owner`: a scalar stays as
/// it is, a name becomes the domain and the name of the type it stands for.
pub open spec fn canon_ref(schema: SchemaView, owner: int, r: TypeRefView) -> Result<
    TypeRefView,
    ReferenceErrorView,
> {
    match r.target {
        RefTargetView::Primitive(_) => Ok(r),
        RefTargetView::Named { domain, name } => match resolve_named(schema, owner, domain, name) {
            Terminus::Found(d, m) => Ok(
                TypeRefView {
                    array: r.array,
                    target: RefTargetView::Named {
                        domain: Some(schema.domains[d].name),
                        name: schema.domains[d].members[m].name(),
                    },
                },
            ),
            Terminus::Unresolved(n) => Err(ReferenceErrorView::Unresolved(n)),
            Terminus::Cycle => Err(
                ReferenceErrorView::RedirectCycle(
                    QualifiedNameView { domain: target_domain(schema, owner, domain), name },
                ),
            ),
        },
    }
}

/// The canonical form of a property.
pub open spec fn canon_prop(schema: SchemaView, owner: int, p: PropertyView) -> Result<
    PropertyView,
    ReferenceErrorView,
> {
    match canon_ref(schema, owner, p.ty) {
        Ok(ty) => Ok(
            PropertyView {
                name: p.name,
                ty,
                optional: p.optional,
                description: p.description,
                stability: p.stability,
            },
        ),
        Err(e) => Err(e),
    }
}

/// `acc` followed by the canonical forms of the properties from `from` on,
/// or the error of the first reference that stands for no type.
pub open spec fn canon_props(
    schema: SchemaView,
    owner: int,
    props: Seq<PropertyView>,
    from: int,
    acc: Seq<PropertyView>,
) -> Result<Seq<PropertyView>, ReferenceErrorView>
    decreases props.len() - from,
{
    if from >= props.len() {
        Ok(acc)
    } else {
        match canon_prop(schema, owner, props[from]) {
            Ok(p) => canon_props(schema, owner, props, from + 1, acc.push(p)),
            Err(e) => Err(e),
        }
    }
}

/// The canonical form of the shape of a type, or nothing for a redirect.
pub open spec fn canon_kind(schema: SchemaView, owner: int, kind: TypeKindView) -> Result<
    Option<TypeKindView>,
    ReferenceErrorView,
> {
    match kind {
        TypeKindView::Primitive(_) | TypeKindView::Enum(_) => Ok(Some(kind)),
        TypeKindView::Object(props) => match canon_props(schema, owner, props, 0, Seq::empty()) {
            Ok(ps) => Ok(Some(TypeKindView::Object(ps))),
            Err(e) => Err(e),
        },
        TypeKindView::Array(element) => match canon_ref(schema, owner, element) {
            Ok(r) => Ok(Some(TypeKindView::Array(r))),
            Err(e) => Err(e),
        },
        TypeKindView::Reference(target) => match canon_ref(schema, owner, target) {
            Ok(r) => Ok(Some(TypeKindView::Reference(r))),
            Err(e) => Err(e),
        },
        TypeKindView::Redirect { domain, name } => match resolve_named(
            schema,
            owner,
            Some(domain),
            name,
        ) {
            Terminus::Found(_, _) => Ok(None),
            Terminus::Unresolved(n) => Err(ReferenceErrorView::Unresolved(n)),
            Terminus::Cycle => Err(
                ReferenceErrorView::RedirectCycle(QualifiedNameView { domain, name }),
            ),
        },
    }
}

/// The canonical form of a member, or nothing for a redirect.
pub open spec fn canon_member(schema: SchemaView, owner: int, member: MemberView) -> Result<
    Option<MemberView>,
    ReferenceErrorView,
> {
    match member {
        MemberView::Type(t) => match canon_kind(schema, owner, t.kind) {
            Ok(Some(kind)) => Ok(
                Some(
                    MemberView::Type(
                        TypeDefView {
                            id: t.id,
                            description: t.description,
                            stability: t.stability,
                            kind,
                        },
                    ),
                ),
            ),
            Ok(None) => Ok(None),
            Err(e) => Err(e),
        },
        MemberView::Command(c) => match canon_props(schema, owner, c.parameters, 0, Seq::empty()) {
            Ok(parameters) => match canon_props(schema, owner, c.returns, 0, Seq::empty()) {
                Ok(results) => Ok(
                    Some(
                        MemberView::Command(
                            CommandView {
                                name: c.name,
                                description: c.description,
                                stability: c.stability,
                                parameters,
                                returns: results,
                                redirect: c.redirect,
                            },
                        ),
                    ),
                ),
                Err(e) => Err(e),
            },
            Err(e) => Err(e),
        },
        MemberView::Event(ev) => match canon_props(schema, owner, ev.parameters, 0, Seq::empty()) {
            Ok(parameters) => Ok(
                Some(
                    MemberView::Event(
                        EventView {
                            name: ev.name,
                            description: ev.description,
                            stability: ev.stability,
                            parameters,
                        },
                    ),
                ),
            ),
            Err(e) => Err(e),
        },
    }
}

/// `acc` followed by the canonical forms of the members from `from` on.
pub open spec fn canon_members(
    schema: SchemaView,
    owner: int,
    members: Seq<MemberView>,
    from: int,
    acc: Seq<MemberView>,
) -> Result<Seq<MemberView>, ReferenceErrorView>
    decreases members.len() - from,
{
    if from >= members.len() {
        Ok(acc)
    } else {
        match canon_member(schema, owner, members[from]) {
            Ok(Some(m)) => canon_members(schema, owner, members, from + 1, acc.push(m)),
            Ok(None) => canon_members(schema, owner, members, from + 1, acc),
            Err(e) => Err(e),
        }
    }
}

/// The canonical form of domain `owner`.
pub open spec fn canon_domain(schema: SchemaView, owner: int) -> Result<
    DomainView,
    ReferenceErrorView,
> {
    let d = schema.domains[owner];
    match canon_members(schema, owner, d.members, 0, Seq::empty()) {
        Ok(members) => Ok(
            DomainView {
                name: d.name,
                description: d.description,
                stability: d.stability,
                dependencies: d.dependencies,
                members,
            },
        ),
        Err(e) => Err(e),
    }
}

/// `acc` followed by the canonical forms of the domains from `from` on.
pub open spec fn canon_domains(schema: SchemaView, from: int, acc: Seq<DomainView>) -> Result<
    Seq<DomainView>,
    ReferenceErrorView,
>
    decreases schema.domains.len() - from,
{
    if from >= schema.domains.len() {
        Ok(acc)
    } else {
        match canon_domain(schema, from) {
            Ok(d) => canon_domains(schema, from + 1, acc.push(d)),
            Err(e) => Err(e),
        }
    }
}

/// The canonical form of a schema, or the error of the first reference,
/// in the order of the schema, that stands for no type.
pub open spec fn canonical(schema: SchemaView) -> Result<SchemaView, ReferenceErrorView> {
    match canon_domains(schema, 0, Seq::empty()) {
        Ok(domains) => Ok(SchemaView { domains }),
        Err(e) => Err(e),
    }
}

/// Whether member `m` of domain `d` is a type that is no redirect.
pub open spec fn is_plain_type(schema: SchemaView, d: int, m: int) -> bool {
    &&& 0 <= d < schema.domains.len()
    &&& 0 <= m < schema.domains[d].members.len()
    &&& schema.domains[d].members[m] matches MemberView::Type(t) && !(t.kind is Redirect)
}

/// The type that a name is looked up to has that name, in the domain of
/// that name.
pub proof fn lemma_type_at(schema: SchemaView, domain: Seq<u8>, name: Seq<u8>)
    ensures
        type_at(schema, domain, name) matches Some((d, m)) ==> {
            &&& 0 <= d < schema.domains.len()
            &&& 0 <= m < schema.domains[d].members.len()
            &&& schema.domains[d].members[m] is Type
            &&& same_name(schema.domains[d].name, domain)
            &&& schema.domains[d].members[m].name() == name
        },
{
    lemma_domain_index(schema.domains, domain, 0);
    let d = domain_index(schema.domains, domain, 0);
    if d < schema.domains.len() {
        lemma_member_index(schema.domains[d].members, name, 0);
    }
}

/// Where a chain of redirects ends in a type, the type is no redirect.
pub proof fn lemma_terminus(schema: SchemaView, d: int, m: int, fuel: nat)
    requires
        0 <= d < schema.domains.len(),
        0 <= m < schema.domains[d].members.len(),
        schema.domains[d].members[m] is Type,
    ensures
        terminus(schema, d, m, fuel) matches Terminus::Found(d2, m2) ==> is_plain_type(
            schema,
            d2,
            m2,
        ),
        is_plain_type(schema, d, m) ==> terminus(schema, d, m, fuel) == Terminus::Found(d, m),
    decreases fuel,
{
    match schema.domains[d].members[m] {
        MemberView::Type(t) => match t.kind {
            TypeKindView::Redirect { domain, name } => {
                if fuel > 0 {
                    lemma_type_at(schema, domain, name);
                    match type_at(schema, domain, name) {
                        Some((d2, m2)) => {
                            lemma_terminus(schema, d2, m2, (fuel - 1) as nat);
                        },
                        None => {},
                    }
                }
            },
            _ => {},
        },
        _ => {},
    }
}

/// Resolution is faithful. A reference either stands for a type, or it is
/// reported: nothing else can come of it. The type that it stands for is a
/// type of the schema that is no redirect. Unless a redirect says
/// otherwise, it is the very type that the reference names: the one with
/// that name in the domain of that name. And a reference that names
/// nothing is reported under its own name.
pub proof fn lemma_resolution_is_faithful(
    schema: SchemaView,
    owner: int,
    domain: Option<Seq<u8>>,
    name: Seq<u8>,
)
    requires
        0 <= owner < schema.domains.len(),
    ensures
        ({
            let dn = target_domain(schema, owner, domain);
            match resolve_named(schema, owner, domain, name) {
                Terminus::Found(d, m) => {
                    &&& is_plain_type(schema, d, m)
                    &&& type_at(schema, dn, name) matches Some((d0, m0)) && (is_plain_type(
                        schema,
                        d0,
                        m0,
                    ) ==> d == d0 && m == m0 && same_name(schema.domains[d].name, dn)
                        && schema.domains[d].members[m].name() == name)
                },
                Terminus::Unresolved(n) => type_at(schema, dn, name) is None ==> n == (
                QualifiedNameView { domain: dn, name }),
                Terminus::Cycle => type_at(schema, dn, name) matches Some((d0, m0))
                    && !is_plain_type(schema, d0, m0),
            }
        }),
{
    let dn = target_domain(schema, owner, domain);
    lemma_type_at(schema, dn, name);
    match type_at(schema, dn, name) {
        Some((d0, m0)) => {
            lemma_terminus(schema, d0, m0, redirect_limit(schema));
        },
        None => {},
    }
}

/// Whether every member is a definition: none is a redirect.
pub open spec fn members_emitted(members: Seq<MemberView>) -> bool {
    forall|m: int| 0 <= m < members.len() ==> emitted(#[trigger] members[m])
}

/// Whether every member of every domain is a definition.
pub open spec fn all_emitted(domains: Seq<DomainView>) -> bool {
    forall|d: int| 0 <= d < domains.len() ==> members_emitted((#[trigger] domains[d]).members)
}

/// The canonical forms of members are no redirects.
pub proof fn lemma_canon_members_emitted(
    schema: SchemaView,
    owner: int,
    members: Seq<MemberView>,
    from: int,
    acc: Seq<MemberView>,
)
    requires
        0 <= from,
        members_emitted(acc),
        canon_members(schema, owner, members, from, acc) is Ok,
    ensures
        members_emitted(canon_members(schema, owner, members, from, acc)->Ok_0),
    decreases members.len() - from,
{
    if from < members.len() {
        match canon_member(schema, owner, members[from]) {
            Ok(Some(m)) => {
                let next = acc.push(m);
                assert forall|i: int| 0 <= i < next.len() implies emitted(#[trigger] next[i]) by {
                    if i < acc.len() {
                        assert(next[i] == acc[i]);
                    }
                }
                lemma_canon_members_emitted(schema, owner, members, from + 1, next);
            },
            _ => {
                lemma_canon_members_emitted(schema, owner, members, from + 1, acc);
            },
        }
    }
}

/// The canonical forms of domains hold no redirects.
pub proof fn lemma_canon_domains_emitted(schema: SchemaView, from: int, acc: Seq<DomainView>)
    requires
        0 <= from,
        all_emitted(acc),
        canon_domains(schema, from, acc) is Ok,
    ensures
        all_emitted(canon_domains(schema, from, acc)->Ok_0),
    decreases schema.domains.len() - from,
{
    if from < schema.domains.len() {
        let d = canon_domain(schema, from)->Ok_0;
        assert(members_emitted(Seq::<MemberView>::empty()));
        lemma_canon_members_emitted(
            schema,
            from,
            schema.domains[from].members,
            0,
            Seq::<MemberView>::empty(),
        );
        let next = acc.push(d);
        assert forall|i: int| 0 <= i < next.len() implies members_emitted(
            (#[trigger] next[i]).members,
        ) by {
            if i < acc.len() {
                assert(next[i] == acc[i]);
            }
        }
        lemma_canon_domains_emitted(schema, from + 1, next);
    }
}

/// The canonical form of a schema holds no redirects.
pub proof fn lemma_canonical_has_no_redirects(schema: SchemaView)
    requires
        canonical(schema) is Ok,
    ensures
        all_emitted(canonical(schema)->Ok_0.domains),
{
    assert(all_emitted(Seq::<DomainView>::empty()));
    lemma_canon_domains_emitted(schema, 0, Seq::<DomainView>::empty());
}

/// The error of a reference, if it stands for no type.
pub open spec fn ref_errors(schema: SchemaView, owner: int, r: TypeRefView) -> Seq<
    ReferenceErrorView,
> {
    match canon_ref(schema, owner, r) {
        Ok(_) => Seq::empty(),
        Err(e) => seq![e],
    }
}

/// The errors of the properties from `from` on.
pub open spec fn props_errors(schema: SchemaView, owner: int, props: Seq<PropertyView>, from: int) -> Seq<
    ReferenceErrorView,
>
    decreases props.len() - from,
{
    if from >= props.len() {
        Seq::empty()
    } else {
        ref_errors(schema, owner, props[from].ty) + props_errors(schema, owner, props, from + 1)
    }
}

/// The errors of a member.
pub open spec fn member_errors(schema: SchemaView, owner: int, member: MemberView) -> Seq<
    ReferenceErrorView,
> {
    match member {
        MemberView::Type(t) => match t.kind {
            TypeKindView::Object(props) => props_errors(schema, owner, props, 0),
            TypeKindView::Array(r) => ref_errors(schema, owner, r),
            TypeKindView::Reference(r) => ref_errors(schema, owner, r),
            TypeKindView::Redirect { domain, name } => match resolve_named(
                schema,
                owner,
                Some(domain),
                name,
            ) {
                Terminus::Found(_, _) => Seq::empty(),
                Terminus::Unresolved(n) => seq![ReferenceErrorView::Unresolved(n)],
                Terminus::Cycle => seq![
                    ReferenceErrorView::RedirectCycle(QualifiedNameView { domain, name }),
                ],
            },
            _ => Seq::empty(),
        },
        MemberView::Command(c) => props_errors(schema, owner, c.parameters, 0) + props_errors(
            schema,
            owner,
            c.returns,
            0,
        ),
        MemberView::Event(e) => props_errors(schema, owner, e.parameters, 0),
    }
}

/// The errors of the members of domain `owner` from `from` on.
pub open spec fn members_errors(schema: SchemaView, owner: int, from: int) -> Seq<ReferenceErrorView>
    decreases schema.domains[owner].members.len() - from,
{
    if from >= schema.domains[owner].members.len() {
        Seq::empty()
    } else {
        member_errors(schema, owner, schema.domains[owner].members[from]) + members_errors(
            schema,
            owner,
            from + 1,
        )
    }
}

/// The errors of the domains from `from` on.
pub open spec fn domains_errors(schema: SchemaView, from: int) -> Seq<ReferenceErrorView>
    decreases schema.domains.len() - from,
{
    if from >= schema.domains.len() {
        Seq::empty()
    } else {
        members_errors(schema, from, 0) + domains_errors(schema, from + 1)
    }
}

/// The errors of all the references of a schema that stand for no type,
/// in the order of the schema.
pub open spec fn reference_errors(schema: SchemaView) -> Seq<ReferenceErrorView> {
    domains_errors(schema, 0)
}

/// Whether `first` is the first of the errors, if there is one, and there
/// is none otherwise.
pub open spec fn is_first_of<T>(
    first: Result<T, ReferenceErrorView>,
    errors: Seq<ReferenceErrorView>,
) -> bool {
    match first {
        Ok(_) => errors.len() == 0,
        Err(e) => errors.len() > 0 && errors[0] == e,
    }
}

/// The first of the errors of the properties is the error of their
/// canonical form.
pub proof fn lemma_props_errors(
    schema: SchemaView,
    owner: int,
    props: Seq<PropertyView>,
    from: int,
    acc: Seq<PropertyView>,
)
    requires
        0 <= from,
    ensures
        is_first_of(
            canon_props(schema, owner, props, from, acc),
            props_errors(schema, owner, props, from),
        ),
    decreases props.len() - from,
{
    if from < props.len() {
        match canon_prop(schema, owner, props[from]) {
            Ok(p) => {
                lemma_props_errors(schema, owner, props, from + 1, acc.push(p));
                assert(props_errors(schema, owner, props, from) =~= props_errors(
                    schema,
                    owner,
                    props,
                    from + 1,
                ));
            },
            Err(e) => {},
        }
    }
}

/// The first of the errors of a member is the error of its canonical
/// form.
pub proof fn lemma_member_errors(schema: SchemaView, owner: int, member: MemberView)
    ensures
        is_first_of(canon_member(schema, owner, member), member_errors(schema, owner, member)),
{
    let none = Seq::<PropertyView>::empty();
    match member {
        MemberView::Type(t) => match t.kind {
            TypeKindView::Object(props) => {
                lemma_props_errors(schema, owner, props, 0, none);
            },
            _ => {},
        },
        MemberView::Command(c) => {
            lemma_props_errors(schema, owner, c.parameters, 0, none);
            lemma_props_errors(schema, owner, c.returns, 0, none);
            let first = props_errors(schema, owner, c.parameters, 0);
            let second = props_errors(schema, owner, c.returns, 0);
            if first.len() == 0 {
                assert(first + second =~= second);
            }
        },
        MemberView::Event(e) => {
            lemma_props_errors(schema, owner, e.parameters, 0, none);
        },
    }
}

/// The first of the errors of the members is the error of their
/// canonical form.
pub proof fn lemma_members_errors(
    schema: SchemaView,
    owner: int,
    from: int,
    acc: Seq<MemberView>,
)
    requires
        0 <= from,
    ensures
        is_first_of(
            canon_members(schema, owner, schema.domains[owner].members, from, acc),
            members_errors(schema, owner, from),
        ),
    decreases schema.domains[owner].members.len() - from,
{
    let members = schema.domains[owner].members;
    if from < members.len() {
        lemma_member_errors(schema, owner, members[from]);
        let here = member_errors(schema, owner, members[from]);
        let rest = members_errors(schema, owner, from + 1);
        match canon_member(schema, owner, members[from]) {
            Ok(Some(m)) => {
                lemma_members_errors(schema, owner, from + 1, acc.push(m));
                assert(here + rest =~= rest);
            },
            Ok(None) => {
                lemma_members_errors(schema, owner, from + 1, acc);
                assert(here + rest =~= rest);
            },
            Err(e) => {},
        }
    }
}

/// The first of the errors of the domains is the error of their
/// canonical form.
pub proof fn lemma_domains_errors(schema: SchemaView, from: int, acc: Seq<DomainView>)
    requires
        0 <= from,
    ensures
        is_first_of(canon_domains(schema, from, acc), domains_errors(schema, from)),
    decreases schema.domains.len() - from,
{
    if from < schema.domains.len() {
        lemma_members_errors(schema, from, 0, Seq::<MemberView>::empty());
        let here = members_errors(schema, from, 0);
        let rest = domains_errors(schema, from + 1);
        match canon_domain(schema, from) {
            Ok(d) => {
                lemma_domains_errors(schema, from + 1, acc.push(d));
                assert(here + rest =~= rest);
            },
            Err(e) => {},
        }
    }
}

/// A schema has a canonical form if and only if none of its references
/// is in error; otherwise the error of the canonical form is the first of
/// the errors of the references.
pub proof fn lemma_reference_errors(schema: SchemaView)
    ensures
        is_first_of(canonical(schema), reference_errors(schema)),
{
    lemma_domains_errors(schema, 0, Seq::<DomainView>::empty());
}

/// Counts the members of a schema, up to what the machine can count.
pub fn count_members(schema: &ProtocolSchema) -> (r: usize)
    ensures
        r == redirect_limit(schema.deep_view()),
{
    let ghost sv = schema.deep_view();
    let n = schema.domains.len();
    let mut i: usize = n;
    let mut acc: usize = 0;
    while i > 0
        invariant
            i <= n,
            n == schema.domains.len(),
            sv == schema.deep_view(),
            sv.domains.len() == n,
            acc == if member_count(sv.domains, i as int) <= usize::MAX {
                member_count(sv.domains, i as int)
            } else {
                usize::MAX as nat
            },
        decreases i,
    {
        i -= 1;
        let len = schema.domains[i].members.len();
        assert(sv.domains[i as int] == schema.domains@[i as int].deep_view());
        assert(sv.domains[i as int].members.len() == len);
        acc = if acc > usize::MAX - len {
            usize::MAX
        } else {
            acc + len
        };
    }
    acc
}

/// Looks up the type with this name in the domain with this name.
pub fn lookup_type(schema: &ProtocolSchema, domain: &[u8], name: &[u8]) -> (r: Option<
    (usize, usize),
>)
    ensures
        match type_at(schema.deep_view(), domain@, name@) {
            Some((d, m)) => r == Some((d as usize, m as usize)) && 0 <= d < schema.domains.len()
                && 0 <= m < schema.domains[d].members.len(),
            None => r is None,
        },
{
    let ghost sv = schema.deep_view();
    let d = find_domain(&schema.domains, domain);
    if d < schema.domains.len() {
        assert(sv.domains[d as int] == schema.domains@[d as int].deep_view());
        let members = &schema.domains[d].members;
        let m = find_member(members, name);
        if m < members.len() {
            assert(sv.domains[d as int].members[m as int] == members@[m as int].deep_view());
            match &members[m] {
                Member::Type(_) => Some((d, m)),
                _ => None,
            }
        } else {
            None
        }
    } else {
        None
    }
}

/// The outcome of following redirects, in executable form.
#[derive(Debug)]
pub enum Resolved {
    /// The type that is member `1` of domain `0`.
    Found(usize, usize),
    /// A redirect to this name, which no type has.
    Unresolved(QualifiedName),
    /// The chain never ends.
    Cycle,
}

impl Resolved {
    /// The outcome in mathematical form.
    pub open spec fn terminus(self) -> Terminus {
        match self {
            Resolved::Found(d, m) => Terminus::Found(d as int, m as int),
            Resolved::Unresolved(n) => Terminus::Unresolved(n.deep_view()),
            Resolved::Cycle => Terminus::Cycle,
        }
    }
}

/// Follows the redirects that start at member `m` of domain `d`, at most
/// `fuel` of them.
fn follow_redirects(schema: &ProtocolSchema, d0: usize, m0: usize, fuel0: usize) -> (r: Resolved)
    requires
        d0 < schema.domains.len(),
        m0 < schema.domains[d0 as int].members.len(),
    ensures
        r.terminus() == terminus(schema.deep_view(), d0 as int, m0 as int, fuel0 as nat),
        r matches Resolved::Found(d2, m2) ==> d2 < schema.domains.len() && m2
            < schema.domains[d2 as int].members.len(),
{
    let ghost sv = schema.deep_view();
    let mut d = d0;
    let mut m = m0;
    let mut fuel = fuel0;
    loop
        invariant
            sv == schema.deep_view(),
            d < schema.domains.len(),
            m < schema.domains[d as int].members.len(),
            terminus(sv, d0 as int, m0 as int, fuel0 as nat) == terminus(
                sv,
                d as int,
                m as int,
                fuel as nat,
            ),
        decreases fuel,
    {
        assert(sv.domains[d as int] == schema.domains@[d as int].deep_view());
        proof {
            lemma_member_view(schema, d as int, m as int);
        }
        match &schema.domains[d].members[m] {
            Member::Type(t) => match &t.kind {
                TypeKind::Redirect { domain, name } => {
                    if fuel == 0 {
                        return Resolved::Cycle;
                    }
                    match lookup_type(schema, domain.as_slice(), name.as_slice()) {
                        Some((d2, m2)) => {
                            d = d2;
                            m = m2;
                            fuel -= 1;
                        },
                        None => {
                            return Resolved::Unresolved(
                                QualifiedName {
                                    domain: copy_bytes(domain.as_slice()),
                                    name: copy_bytes(name.as_slice()),
                                },
                            );
                        },
                    }
                },
                _ => {
                    return Resolved::Found(d, m);
                },
            },
            _ => {
                return Resolved::Found(d, m);
            },
        }
    }
}

/// Finds the type that a reference in domain `owner` stands for. `limit`
/// is the number of redirects that may be followed.
fn resolve_name(
    schema: &ProtocolSchema,
    owner: usize,
    domain: &Option<Vec<u8>>,
    name: &[u8],
    limit: usize,
) -> (r: Resolved)
    requires
        owner < schema.domains.len(),
        limit == redirect_limit(schema.deep_view()),
    ensures
        r.terminus() == resolve_named(schema.deep_view(), owner as int, opt_name(*domain), name@),
        r matches Resolved::Found(d2, m2) ==> d2 < schema.domains.len() && m2
            < schema.domains[d2 as int].members.len(),
{
    let ghost sv = schema.deep_view();
    assert(sv.domains[owner as int] == schema.domains@[owner as int].deep_view());
    let dn: &Vec<u8> = match domain {
        Some(d) => d,
        None => &schema.domains[owner].name,
    };
    assert(dn@ == target_domain(sv, owner as int, opt_name(*domain)));
    match lookup_type(schema, dn.as_slice(), name) {
        Some((d, m)) => follow_redirects(schema, d, m, limit),
        None => Resolved::Unresolved(
            QualifiedName { domain: copy_bytes(dn.as_slice()), name: copy_bytes(name) },
        ),
    }
}

/// Rewrites a reference in domain `owner` to its canonical form.
fn canonical_ref(schema: &ProtocolSchema, owner: usize, r: &TypeRef, limit: usize) -> (out:
    Result<TypeRef, ReferenceError>)
    requires
        owner < schema.domains.len(),
        limit == redirect_limit(schema.deep_view()),
    ensures
        match canon_ref(schema.deep_view(), owner as int, r.deep_view()) {
            Ok(c) => out matches Ok(x) && x.deep_view() == c,
            Err(e) => out matches Err(x) && x.deep_view() == e,
        },
{
    let ghost sv = schema.deep_view();
    match &r.target {
        RefTarget::Primitive(p) => Ok(TypeRef { array: r.array, target: RefTarget::Primitive(*p) }),
        RefTarget::Named { domain, name } => {
            match resolve_name(schema, owner, domain, name.as_slice(), limit) {
                Resolved::Found(d, m) => {
                    assert(sv.domains[d as int] == schema.domains@[d as int].deep_view());
                    proof {
                        lemma_member_view(schema, d as int, m as int);
                    }
                    let target = &schema.domains[d];
                    Ok(
                        TypeRef {
                            array: r.array,
                            target: RefTarget::Named {
                                domain: Some(copy_bytes(target.name.as_slice())),
                                name: copy_bytes(target.members[m].name().as_slice()),
                            },
                        },
                    )
                },
                Resolved::Unresolved(n) => Err(ReferenceError::Unresolved(n)),
                Resolved::Cycle => {
                    assert(sv.domains[owner as int] == schema.domains@[owner as int].deep_view());
                    let dn: &Vec<u8> = match domain {
                        Some(d) => d,
                        None => &schema.domains[owner].name,
                    };
                    Err(
                        ReferenceError::RedirectCycle(
                            QualifiedName {
                                domain: copy_bytes(dn.as_slice()),
                                name: copy_bytes(name.as_slice()),
                            },
                        ),
                    )
                },
            }
        },
    }
}

/// Rewrites the references of a list of properties.
fn canonical_props(
    schema: &ProtocolSchema,
    owner: usize,
    props: &Vec<Property>,
    limit: usize,
) -> (out: Result<Vec<Property>, ReferenceError>)
    requires
        owner < schema.domains.len(),
        limit == redirect_limit(schema.deep_view()),
    ensures
        match canon_props(schema.deep_view(), owner as int, props.deep_view(), 0, Seq::empty()) {
            Ok(c) => out matches Ok(x) && x.deep_view() == c,
            Err(e) => out matches Err(x) && x.deep_view() == e,
        },
{
    let ghost sv = schema.deep_view();
    let ghost pv = props.deep_view();
    let mut acc: Vec<Property> = Vec::new();
    assert(acc.deep_view() =~= Seq::<PropertyView>::empty());
    let mut i: usize = 0;
    while i < props.len()
        invariant
            i <= props.len(),
            owner < schema.domains.len(),
            limit == redirect_limit(schema.deep_view()),
            sv == schema.deep_view(),
            pv == props.deep_view(),
            canon_props(sv, owner as int, pv, 0, Seq::empty()) == canon_props(
                sv,
                owner as int,
                pv,
                i as int,
                acc.deep_view(),
            ),
        decreases props.len() - i,
    {
        let p = &props[i];
        assert(pv[i as int] == p.deep_view());
        match canonical_ref(schema, owner, &p.ty, limit) {
            Ok(ty) => {
                let q = Property {
                    name: copy_bytes(p.name.as_slice()),
                    ty,
                    optional: p.optional,
                    description: copy_bytes(p.description.as_slice()),
                    stability: p.stability,
                };
                let ghost before = acc;
                acc.push(q);
                proof {
                    lemma_push_deep_view(before, acc, q);
                }
            },
            Err(e) => {
                return Err(e);
            },
        }
        i += 1;
    }
    Ok(acc)
}

/// Rewrites the references of a member; a redirect gives nothing.
#[verifier::rlimit(40)]
fn canonical_member(schema: &ProtocolSchema, owner: usize, member: &Member, limit: usize) -> (out:
    Result<Option<Member>, ReferenceError>)
    requires
        owner < schema.domains.len(),
        limit == redirect_limit(schema.deep_view()),
    ensures
        match canon_member(schema.deep_view(), owner as int, member.deep_view()) {
            Ok(c) => out matches Ok(x) && x.deep_view() == c,
            Err(e) => out matches Err(x) && x.deep_view() == e,
        },
{
    match member {
        Member::Type(t) => {
            let kind = match &t.kind {
                TypeKind::Primitive(p) => TypeKind::Primitive(*p),
                TypeKind::Enum(variants) => TypeKind::Enum(copy_names(variants)),
                TypeKind::Object(props) => match canonical_props(schema, owner, props, limit) {
                    Ok(ps) => TypeKind::Object(ps),
                    Err(e) => {
                        return Err(e);
                    },
                },
                TypeKind::Array(element) => match canonical_ref(schema, owner, element, limit) {
                    Ok(r) => TypeKind::Array(r),
                    Err(e) => {
                        return Err(e);
                    },
                },
                TypeKind::Reference(target) => match canonical_ref(schema, owner, target, limit) {
                    Ok(r) => TypeKind::Reference(r),
                    Err(e) => {
                        return Err(e);
                    },
                },
                TypeKind::Redirect { domain, name } => {
                    let qualified = Some(copy_bytes(domain.as_slice()));
                    match resolve_name(schema, owner, &qualified, name.as_slice(), limit) {
                        Resolved::Found(_, _) => {
                            return Ok(None);
                        },
                        Resolved::Unresolved(n) => {
                            return Err(ReferenceError::Unresolved(n));
                        },
                        Resolved::Cycle => {
                            return Err(
                                ReferenceError::RedirectCycle(
                                    QualifiedName {
                                        domain: copy_bytes(domain.as_slice()),
                                        name: copy_bytes(name.as_slice()),
                                    },
                                ),
                            );
                        },
                    }
                },
            };
            Ok(
                Some(
                    Member::Type(
                        TypeDef {
                            id: copy_bytes(t.id.as_slice()),
                            description: copy_bytes(t.description.as_slice()),
                            stability: t.stability,
                            kind,
                        },
                    ),
                ),
            )
        },
        Member::Command(c) => {
            let parameters = match canonical_props(schema, owner, &c.parameters, limit) {
                Ok(ps) => ps,
                Err(e) => {
                    return Err(e);
                },
            };
            let results = match canonical_props(schema, owner, &c.returns, limit) {
                Ok(ps) => ps,
                Err(e) => {
                    return Err(e);
                },
            };
            let redirect = match &c.redirect {
                Some(q) => Some(q.duplicate()),
                None => None,
            };
            Ok(
                Some(
                    Member::Command(
                        Command {
                            name: copy_bytes(c.name.as_slice()),
                            description: copy_bytes(c.description.as_slice()),
                            stability: c.stability,
                            parameters,
                            returns: results,
                            redirect,
                        },
                    ),
                ),
            )
        },
        Member::Event(ev) => {
            let parameters = match canonical_props(schema, owner, &ev.parameters, limit) {
                Ok(ps) => ps,
                Err(e) => {
                    return Err(e);
                },
            };
            Ok(
                Some(
                    Member::Event(
                        Event {
                            name: copy_bytes(ev.name.as_slice()),
                            description: copy_bytes(ev.description.as_slice()),
                            stability: ev.stability,
                            parameters,
                        },
                    ),
                ),
            )
        },
    }
}

/// Rewrites the references of domain `owner`, and drops its redirects.
fn canonical_domain(schema: &ProtocolSchema, owner: usize, limit: usize) -> (out: Result<
    Domain,
    ReferenceError,
>)
    requires
        owner < schema.domains.len(),
        limit == redirect_limit(schema.deep_view()),
    ensures
        match canon_domain(schema.deep_view(), owner as int) {
            Ok(c) => out matches Ok(x) && x.deep_view() == c,
            Err(e) => out matches Err(x) && x.deep_view() == e,
        },
{
    let ghost sv = schema.deep_view();
    let domain = &schema.domains[owner];
    assert(sv.domains[owner as int] == domain.deep_view());
    let ghost mv = domain.members.deep_view();
    let mut acc: Vec<Member> = Vec::new();
    assert(acc.deep_view() =~= Seq::<MemberView>::empty());
    let mut i: usize = 0;
    while i < domain.members.len()
        invariant
            i <= domain.members.len(),
            owner < schema.domains.len(),
            limit == redirect_limit(schema.deep_view()),
            sv == schema.deep_view(),
            mv == domain.members.deep_view(),
            sv.domains[owner as int] == domain.deep_view(),
            canon_members(sv, owner as int, mv, 0, Seq::empty()) == canon_members(
                sv,
                owner as int,
                mv,
                i as int,
                acc.deep_view(),
            ),
        decreases domain.members.len() - i,
    {
        assert(mv[i as int] == domain.members@[i as int].deep_view());
        match canonical_member(schema, owner, &domain.members[i], limit) {
            Ok(Some(m)) => {
                let ghost before = acc;
                acc.push(m);
                proof {
                    lemma_push_deep_view(before, acc, m);
                }
            },
            Ok(None) => {},
            Err(e) => {
                return Err(e);
            },
        }
        i += 1;
    }
    Ok(
        Domain {
            name: copy_bytes(domain.name.as_slice()),
            description: copy_bytes(domain.description.as_slice()),
            stability: domain.stability,
            dependencies: copy_names(&domain.dependencies),
            members: acc,
        },
    )
}

/// Brings a schema into canonical form: every reference is rewritten to
/// the domain and the name of the type that it stands for, and the
/// redirects are dropped. The first reference, in the order of the schema,
/// that stands for no type is the error.
pub fn canonicalize(schema: &ProtocolSchema) -> (out: Result<ProtocolSchema, ReferenceError>)
    ensures
        match canonical(schema.deep_view()) {
            Ok(c) => out matches Ok(x) && x.deep_view() == c,
            Err(e) => out matches Err(x) && x.deep_view() == e,
        },
{
    let ghost sv = schema.deep_view();
    let limit = count_members(schema);
    let mut acc: Vec<Domain> = Vec::new();
    assert(acc.deep_view() =~= Seq::<DomainView>::empty());
    let mut i: usize = 0;
    while i < schema.domains.len()
        invariant
            i <= schema.domains.len(),
            limit == redirect_limit(schema.deep_view()),
            sv == schema.deep_view(),
            sv.domains.len() == schema.domains.len(),
            canon_domains(sv, 0, Seq::empty()) == canon_domains(sv, i as int, acc.deep_view()),
        decreases schema.domains.len() - i,
    {
        match canonical_domain(schema, i, limit) {
            Ok(d) => {
                let ghost before = acc;
                acc.push(d);
                proof {
                    lemma_push_deep_view(before, acc, d);
                }
            },
            Err(e) => {
                return Err(e);
            },
        }
        i += 1;
    }
    Ok(ProtocolSchema { domains: acc })
}

/// Appends the error of a reference, if it stands for no type.
fn push_ref_errors(
    out: &mut Vec<ReferenceError>,
    schema: &ProtocolSchema,
    owner: usize,
    r: &TypeRef,
    limit: usize,
)
    requires
        owner < schema.domains.len(),
        limit == redirect_limit(schema.deep_view()),
    ensures
        final(out).deep_view() == old(out).deep_view() + ref_errors(
            schema.deep_view(),
            owner as int,
            r.deep_view(),
        ),
{
    match canonical_ref(schema, owner, r, limit) {
        Ok(_) => {
            assert(out.deep_view() =~= old(out).deep_view() + Seq::<ReferenceErrorView>::empty());
        },
        Err(e) => {
            let ghost before = *out;
            out.push(e);
            proof {
                lemma_push_deep_view(before, *out, e);
            }
            assert(out.deep_view() =~= old(out).deep_view() + seq![e.deep_view()]);
        },
    }
}

/// Appends the errors of a list of properties.
fn push_props_errors(
    out: &mut Vec<ReferenceError>,
    schema: &ProtocolSchema,
    owner: usize,
    props: &Vec<Property>,
    limit: usize,
)
    requires
        owner < schema.domains.len(),
        limit == redirect_limit(schema.deep_view()),
    ensures
        final(out).deep_view() == old(out).deep_view() + props_errors(
            schema.deep_view(),
            owner as int,
            props.deep_view(),
            0,
        ),
{
    let ghost sv = schema.deep_view();
    let ghost pv = props.deep_view();
    let ghost all = props_errors(sv, owner as int, pv, 0);
    assert(out.deep_view() + all =~= old(out).deep_view() + all);
    let mut i: usize = 0;
    while i < props.len()
        invariant
            i <= props.len(),
            owner < schema.domains.len(),
            limit == redirect_limit(schema.deep_view()),
            sv == schema.deep_view(),
            pv == props.deep_view(),
            all == props_errors(sv, owner as int, pv, 0),
            out.deep_view() + props_errors(sv, owner as int, pv, i as int) == old(out).deep_view()
                + all,
        decreases props.len() - i,
    {
        let ghost before = out.deep_view();
        assert(pv[i as int] == props@[i as int].deep_view());
        push_ref_errors(out, schema, owner, &props[i].ty, limit);
        assert(out.deep_view() + props_errors(sv, owner as int, pv, i + 1) =~= before
            + props_errors(sv, owner as int, pv, i as int));
        i += 1;
    }
    assert(out.deep_view() + props_errors(sv, owner as int, pv, props.len() as int)
        =~= out.deep_view());
}

/// Appends the errors of a member.
#[verifier::rlimit(40)]
fn push_member_errors(
    out: &mut Vec<ReferenceError>,
    schema: &ProtocolSchema,
    owner: usize,
    member: &Member,
    limit: usize,
)
    requires
        owner < schema.domains.len(),
        limit == redirect_limit(schema.deep_view()),
    ensures
        final(out).deep_view() == old(out).deep_view() + member_errors(
            schema.deep_view(),
            owner as int,
            member.deep_view(),
        ),
{
    let ghost sv = schema.deep_view();
    let ghost none = Seq::<ReferenceErrorView>::empty();
    match member {
        Member::Type(t) => match &t.kind {
            TypeKind::Object(props) => push_props_errors(out, schema, owner, props, limit),
            TypeKind::Array(r) => push_ref_errors(out, schema, owner, r, limit),
            TypeKind::Reference(r) => push_ref_errors(out, schema, owner, r, limit),
            TypeKind::Redirect { domain, name } => {
                let qualified = Some(copy_bytes(domain.as_slice()));
                match resolve_name(schema, owner, &qualified, name.as_slice(), limit) {
                    Resolved::Found(_, _) => {
                        assert(out.deep_view() =~= old(out).deep_view() + none);
                    },
                    Resolved::Unresolved(n) => {
                        let e = ReferenceError::Unresolved(n);
                        let ghost before = *out;
                        out.push(e);
                        proof {
                            lemma_push_deep_view(before, *out, e);
                        }
                        assert(out.deep_view() =~= old(out).deep_view() + seq![e.deep_view()]);
                    },
                    Resolved::Cycle => {
                        let e = ReferenceError::RedirectCycle(
                            QualifiedName {
                                domain: copy_bytes(domain.as_slice()),
                                name: copy_bytes(name.as_slice()),
                            },
                        );
                        let ghost before = *out;
                        out.push(e);
                        proof {
                            lemma_push_deep_view(before, *out, e);
                        }
                        assert(out.deep_view() =~= old(out).deep_view() + seq![e.deep_view()]);
                    },
                }
            },
            _ => {
                assert(out.deep_view() =~= old(out).deep_view() + none);
            },
        },
        Member::Command(c) => {
            push_props_errors(out, schema, owner, &c.parameters, limit);
            push_props_errors(out, schema, owner, &c.returns, limit);
            assert(out.deep_view() =~= old(out).deep_view() + member_errors(
                sv,
                owner as int,
                member.deep_view(),
            ));
        },
        Member::Event(e) => push_props_errors(out, schema, owner, &e.parameters, limit),
    }
}

/// Finds every reference of a schema that stands for no type, so that
/// all of them can be mended at once. The errors come in the order of the
/// schema.
#[verifier::rlimit(40)]
pub fn check_references(schema: &ProtocolSchema) -> (out: Vec<ReferenceError>)
    ensures
        out.deep_view() == reference_errors(schema.deep_view()),
{
    let ghost sv = schema.deep_view();
    let limit = count_members(schema);
    let mut out: Vec<ReferenceError> = Vec::new();
    assert(out.deep_view() + reference_errors(sv) =~= reference_errors(sv));
    let mut d: usize = 0;
    while d < schema.domains.len()
        invariant
            d <= schema.domains.len(),
            limit == redirect_limit(schema.deep_view()),
            sv == schema.deep_view(),
            sv.domains.len() == schema.domains.len(),
            out.deep_view() + domains_errors(sv, d as int) == reference_errors(sv),
        decreases schema.domains.len() - d,
    {
        let domain = &schema.domains[d];
        assert(sv.domains[d as int] == domain.deep_view());
        let ghost start = out.deep_view();
        assert(out.deep_view() + members_errors(sv, d as int, 0) =~= start + members_errors(
            sv,
            d as int,
            0,
        ));
        let mut m: usize = 0;
        while m < domain.members.len()
            invariant
                m <= domain.members.len(),
                d < schema.domains.len(),
                limit == redirect_limit(schema.deep_view()),
                sv == schema.deep_view(),
                sv.domains[d as int] == domain.deep_view(),
                out.deep_view() + members_errors(sv, d as int, m as int) == start + members_errors(
                    sv,
                    d as int,
                    0,
                ),
            decreases domain.members.len() - m,
        {
            let ghost before = out.deep_view();
            assert(sv.domains[d as int].members[m as int] == domain.members@[m as int].deep_view());
            push_member_errors(&mut out, schema, d, &domain.members[m], limit);
            assert(out.deep_view() + members_errors(sv, d as int, m + 1) =~= before
                + members_errors(sv, d as int, m as int));
            m += 1;
        }
        assert(out.deep_view() =~= start + members_errors(sv, d as int, 0));
        assert(out.deep_view() + domains_errors(sv, d + 1) =~= start + domains_errors(sv, d as int));
        d += 1;
    }
    assert(out.deep_view() =~= reference_errors(sv));
    out
}

} // verus!
