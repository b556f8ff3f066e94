//! Soundness of pruning: what is left of a schema refers only to what is
//! left of it.

use vstd::prelude::*;

use super::bytes::same_name;
use super::filter::{
    filter_domain, filter_domains, filter_member, filter_members, filter_props, filtered, keeps,
    live, Config,
};
use super::generate::{artifact_defs, lemma_artifact_defs};
use super::model::{
    domain_declares, domain_index, emitted, lemma_domain_index, lemma_member_index, member_index,
    member_named, DomainView, MemberView, PropertyView, QualifiedNameView, RefTargetView,
    SchemaView, TypeKindView, TypeRefView,
};
use super::references::{all_emitted, lemma_type_at, members_emitted, target_domain, type_at};

verus! {

/// Whether a reference of domain `owner` names a type that the schema
/// has. A scalar is always there.
pub open spec fn present(s: SchemaView, owner: int, r: TypeRefView) -> bool {
    match r.target {
        RefTargetView::Primitive(_) => true,
        RefTargetView::Named { domain, name } => type_at(s, target_domain(s, owner, domain), name)
            is Some,
    }
}

/// Whether the types of all the properties are there.
pub open spec fn props_present(s: SchemaView, owner: int, props: Seq<PropertyView>) -> bool {
    forall|i: int| 0 <= i < props.len() ==> present(s, owner, (#[trigger] props[i]).ty)
}

/// Whether every type that a member of domain `owner` refers to is there.
pub open spec fn member_present(s: SchemaView, owner: int, member: MemberView) -> bool {
    match member {
        MemberView::Type(t) => match t.kind {
            TypeKindView::Object(props) => props_present(s, owner, props),
            TypeKindView::Array(r) => present(s, owner, r),
            TypeKindView::Reference(r) => present(s, owner, r),
            _ => true,
        },
        MemberView::Command(c) => props_present(s, owner, c.parameters) && props_present(
            s,
            owner,
            c.returns,
        ),
        MemberView::Event(e) => props_present(s, owner, e.parameters),
    }
}

/// Whether every type that the schema refers to is a type of the schema:
/// no field, required or optional, no array and no alias refers to a type
/// that is absent.
pub open spec fn well_referenced(s: SchemaView) -> bool {
    forall|d: int, m: int|
        0 <= d < s.domains.len() && 0 <= m < s.domains[d].members.len() ==> member_present(
            s,
            d,
            #[trigger] s.domains[d].members[m],
        )
}

/// Whether the type of every property is kept.
pub open spec fn props_live(c: SchemaView, cfg: Config, owner: int, props: Seq<PropertyView>) -> bool {
    forall|i: int| 0 <= i < props.len() ==> live(c, cfg, owner, (#[trigger] props[i]).ty)
}

/// Whether every type that a member refers to is kept.
pub open spec fn member_live(c: SchemaView, cfg: Config, owner: int, member: MemberView) -> bool {
    match member {
        MemberView::Type(t) => match t.kind {
            TypeKindView::Object(props) => props_live(c, cfg, owner, props),
            TypeKindView::Array(r) => live(c, cfg, owner, r),
            TypeKindView::Reference(r) => live(c, cfg, owner, r),
            _ => true,
        },
        MemberView::Command(cmd) => props_live(c, cfg, owner, cmd.parameters) && props_live(
            c,
            cfg,
            owner,
            cmd.returns,
        ),
        MemberView::Event(e) => props_live(c, cfg, owner, e.parameters),
    }
}

/// The properties that are kept refer to types that are kept.
proof fn lemma_props_live(
    c: SchemaView,
    cfg: Config,
    owner: int,
    referrer: QualifiedNameView,
    props: Seq<PropertyView>,
    from: int,
    acc: Seq<PropertyView>,
)
    requires
        0 <= from,
        filter_props(c, cfg, owner, referrer, props, from, acc) is Ok,
        props_live(c, cfg, owner, acc),
    ensures
        props_live(c, cfg, owner, filter_props(c, cfg, owner, referrer, props, from, acc)->Ok_0),
    decreases props.len() - from,
{
    if from < props.len() {
        let p = props[from];
        if keeps(cfg, p.stability) && live(c, cfg, owner, p.ty) {
            let next = acc.push(p);
            assert forall|i: int| 0 <= i < next.len() implies live(
                c,
                cfg,
                owner,
                (#[trigger] next[i]).ty,
            ) by {
                if i < acc.len() {
                    assert(next[i] == acc[i]);
                }
            }
            lemma_props_live(c, cfg, owner, referrer, props, from + 1, next);
        } else {
            lemma_props_live(c, cfg, owner, referrer, props, from + 1, acc);
        }
    }
}

/// A member that is kept refers to types that are kept, keeps its name,
/// and stays a type if it is one.
proof fn lemma_member_live(c: SchemaView, cfg: Config, owner: int, member: MemberView)
    requires
        filter_member(c, cfg, owner, member) matches Ok(Some(_)),
    ensures
        member_live(c, cfg, owner, filter_member(c, cfg, owner, member)->Ok_0->Some_0),
        filter_member(c, cfg, owner, member)->Ok_0->Some_0.name() == member.name(),
        filter_member(c, cfg, owner, member)->Ok_0->Some_0 is Type == member is Type,
        keeps(cfg, member.stability()),
{
    let referrer = QualifiedNameView { domain: c.domains[owner].name, name: member.name() };
    let none = Seq::<PropertyView>::empty();
    match member {
        MemberView::Type(t) => match t.kind {
            TypeKindView::Object(props) => {
                lemma_props_live(c, cfg, owner, referrer, props, 0, none);
            },
            _ => {},
        },
        MemberView::Command(cmd) => {
            lemma_props_live(c, cfg, owner, referrer, cmd.parameters, 0, none);
            lemma_props_live(c, cfg, owner, referrer, cmd.returns, 0, none);
        },
        MemberView::Event(e) => {
            lemma_props_live(c, cfg, owner, referrer, e.parameters, 0, none);
        },
    }
}

/// Whether `y` is what is left of member `m` of domain `d`.
pub open spec fn member_origin(c: SchemaView, cfg: Config, d: int, m: int, y: MemberView) -> bool {
    0 <= m < c.domains[d].members.len() && filter_member(c, cfg, d, c.domains[d].members[m]) == Ok::<
        Option<MemberView>,
        super::resolver::ReferencePairView,
    >(Some(y))
}

/// Whether `y` is what is left of some member of domain `d`.
pub open spec fn has_member_origin(c: SchemaView, cfg: Config, d: int, y: MemberView) -> bool {
    exists|m: int| member_origin(c, cfg, d, m, y)
}

/// Whether each of the members is what is left of a member of domain `d`.
pub open spec fn members_from_origin(c: SchemaView, cfg: Config, d: int, ms: Seq<MemberView>) -> bool {
    forall|i: int| 0 <= i < ms.len() ==> has_member_origin(c, cfg, d, #[trigger] ms[i])
}

/// Every member that is left is what is left of a member of the domain.
proof fn lemma_members_origin(c: SchemaView, cfg: Config, d: int, from: int, acc: Seq<MemberView>)
    requires
        0 <= from,
        filter_members(c, cfg, d, from, acc) is Ok,
        members_from_origin(c, cfg, d, acc),
    ensures
        members_from_origin(c, cfg, d, filter_members(c, cfg, d, from, acc)->Ok_0),
    decreases c.domains[d].members.len() - from,
{
    if from < c.domains[d].members.len() {
        match filter_member(c, cfg, d, c.domains[d].members[from]) {
            Ok(Some(y)) => {
                let next = acc.push(y);
                assert forall|i: int| 0 <= i < next.len() implies has_member_origin(
                    c,
                    cfg,
                    d,
                    #[trigger] next[i],
                ) by {
                    if i < acc.len() {
                        assert(next[i] == acc[i]);
                    } else {
                        assert(member_origin(c, cfg, d, from, next[i]));
                    }
                }
                lemma_members_origin(c, cfg, d, from + 1, next);
            },
            _ => {
                lemma_members_origin(c, cfg, d, from + 1, acc);
            },
        }
    }
}

/// Whether `x` is what is left of domain `d`.
pub open spec fn domain_origin(c: SchemaView, cfg: Config, d: int, x: DomainView) -> bool {
    0 <= d < c.domains.len() && filter_domain(c, cfg, d) == Ok::<
        Option<DomainView>,
        super::resolver::ReferencePairView,
    >(Some(x))
}

/// Whether `x` is what is left of some domain of the schema.
pub open spec fn has_domain_origin(c: SchemaView, cfg: Config, x: DomainView) -> bool {
    exists|d: int| domain_origin(c, cfg, d, x)
}

/// Whether each of the domains is what is left of a domain of the schema.
pub open spec fn domains_from_origin(c: SchemaView, cfg: Config, ds: Seq<DomainView>) -> bool {
    forall|i: int| 0 <= i < ds.len() ==> has_domain_origin(c, cfg, #[trigger] ds[i])
}

/// Every domain that is left is what is left of a domain of the schema.
proof fn lemma_domains_origin(c: SchemaView, cfg: Config, from: int, acc: Seq<DomainView>)
    requires
        0 <= from,
        filter_domains(c, cfg, from, acc) is Ok,
        domains_from_origin(c, cfg, acc),
    ensures
        domains_from_origin(c, cfg, filter_domains(c, cfg, from, acc)->Ok_0),
    decreases c.domains.len() - from,
{
    if from < c.domains.len() {
        match filter_domain(c, cfg, from) {
            Ok(Some(y)) => {
                let next = acc.push(y);
                assert forall|i: int| 0 <= i < next.len() implies has_domain_origin(
                    c,
                    cfg,
                    #[trigger] next[i],
                ) by {
                    if i < acc.len() {
                        assert(next[i] == acc[i]);
                    } else {
                        assert(domain_origin(c, cfg, from, next[i]));
                    }
                }
                lemma_domains_origin(c, cfg, from + 1, next);
            },
            _ => {
                lemma_domains_origin(c, cfg, from + 1, acc);
            },
        }
    }
}

/// Where a name is found once one more domain is appended.
proof fn lemma_domain_index_push(acc: Seq<DomainView>, y: DomainView, name: Seq<u8>, from: int)
    requires
        0 <= from <= acc.len(),
    ensures
        domain_index(acc.push(y), name, from) == if domain_index(acc, name, from) < acc.len() {
            domain_index(acc, name, from)
        } else if same_name(y.name, name) {
            acc.len() as int
        } else {
            (acc.len() + 1) as int
        },
    decreases acc.len() - from,
{
    let after = acc.push(y);
    if from < acc.len() {
        assert(after[from] == acc[from]);
        if !same_name(acc[from].name, name) {
            lemma_domain_index_push(acc, y, name, from + 1);
        }
    } else {
        assert(after[from] == y);
        assert(domain_index(after, name, from + 1) == after.len());
    }
}

/// Where a name is found once one more member is appended.
proof fn lemma_member_index_push(acc: Seq<MemberView>, y: MemberView, name: Seq<u8>, from: int)
    requires
        0 <= from <= acc.len(),
    ensures
        member_index(acc.push(y), name, from) == if member_index(acc, name, from) < acc.len() {
            member_index(acc, name, from)
        } else if y.name() == name {
            acc.len() as int
        } else {
            (acc.len() + 1) as int
        },
    decreases acc.len() - from,
{
    let after = acc.push(y);
    if from < acc.len() {
        assert(after[from] == acc[from]);
        if acc[from].name() != name {
            lemma_member_index_push(acc, y, name, from + 1);
        }
    } else {
        assert(after[from] == y);
        assert(member_index(after, name, from + 1) == after.len());
    }
}

/// A type that is kept is found, by its name, among the members that are
/// left of its domain.
#[verifier::rlimit(40)]
proof fn lemma_member_lookup(
    c: SchemaView,
    cfg: Config,
    d: int,
    name: Seq<u8>,
    from: int,
    acc: Seq<MemberView>,
)
    requires
        0 <= from,
        0 <= d < c.domains.len(),
        filter_members(c, cfg, d, from, acc) is Ok,
        member_index(c.domains[d].members, name, 0) < c.domains[d].members.len(),
        c.domains[d].members[member_index(c.domains[d].members, name, 0)] is Type,
        keeps(cfg, c.domains[d].members[member_index(c.domains[d].members, name, 0)].stability()),
        if from <= member_index(c.domains[d].members, name, 0) {
            member_index(acc, name, 0) == acc.len()
        } else {
            member_index(acc, name, 0) < acc.len() && acc[member_index(acc, name, 0)] is Type
        },
    ensures
        ({
            let res = filter_members(c, cfg, d, from, acc)->Ok_0;
            member_index(res, name, 0) < res.len() && res[member_index(res, name, 0)] is Type
        }),
    decreases c.domains[d].members.len() - from,
{
    let members = c.domains[d].members;
    let tm = member_index(members, name, 0);
    lemma_member_index(members, name, 0);
    lemma_member_index(acc, name, 0);
    if from < members.len() {
        match filter_member(c, cfg, d, members[from]) {
            Ok(Some(y)) => {
                lemma_member_live(c, cfg, d, members[from]);
                lemma_member_index_push(acc, y, name, 0);
                lemma_member_lookup(c, cfg, d, name, from + 1, acc.push(y));
            },
            _ => {
                lemma_member_lookup(c, cfg, d, name, from + 1, acc);
            },
        }
    }
}

/// A type that is kept, in a domain that is kept, is found by its name in
/// what is left of the schema.
#[verifier::rlimit(40)]
proof fn lemma_domain_lookup(
    c: SchemaView,
    cfg: Config,
    domain: Seq<u8>,
    name: Seq<u8>,
    from: int,
    acc: Seq<DomainView>,
)
    requires
        0 <= from,
        filter_domains(c, cfg, from, acc) is Ok,
        type_at(c, domain, name) matches Some((td, tm)) && keeps(cfg, c.domains[td].stability)
            && keeps(cfg, c.domains[td].members[tm].stability()),
        if from <= domain_index(c.domains, domain, 0) {
            domain_index(acc, domain, 0) == acc.len()
        } else {
            type_at(SchemaView { domains: acc }, domain, name) is Some
        },
    ensures
        type_at(SchemaView { domains: filter_domains(c, cfg, from, acc)->Ok_0 }, domain, name)
            is Some,
    decreases c.domains.len() - from,
{
    let td = domain_index(c.domains, domain, 0);
    lemma_domain_index(c.domains, domain, 0);
    lemma_domain_index(acc, domain, 0);
    if from < c.domains.len() {
        match filter_domain(c, cfg, from) {
            Ok(Some(y)) => {
                lemma_domain_index_push(acc, y, domain, 0);
                let next = acc.push(y);
                if from == td {
                    lemma_member_index(c.domains[td].members, name, 0);
                    assert(member_index(Seq::<MemberView>::empty(), name, 0) == 0);
                    lemma_member_lookup(c, cfg, td, name, 0, Seq::<MemberView>::empty());
                    assert(next[domain_index(next, domain, 0)] == y);
                } else if from > td {
                    assert(next[domain_index(next, domain, 0)] == acc[domain_index(acc, domain, 0)]);
                }
                lemma_domain_lookup(c, cfg, domain, name, from + 1, next);
            },
            _ => {
                lemma_domain_lookup(c, cfg, domain, name, from + 1, acc);
            },
        }
    }
}

/// Soundness of pruning: in what is left of a schema, no field, required
/// or optional, no array and no alias refers to a type that is absent from
/// it. This holds for every configuration.
#[verifier::rlimit(40)]
pub proof fn lemma_pruning_is_sound(c: SchemaView, cfg: Config)
    requires
        filtered(c, cfg) is Ok,
    ensures
        well_referenced(filtered(c, cfg)->Ok_0),
{
    let f = filtered(c, cfg)->Ok_0;
    let none = Seq::<DomainView>::empty();
    assert(f.domains == filter_domains(c, cfg, 0, none)->Ok_0);
    lemma_domains_origin(c, cfg, 0, none);
    assert forall|d: int, m: int|
        0 <= d < f.domains.len() && 0 <= m < f.domains[d].members.len() implies member_present(
        f,
        d,
        #[trigger] f.domains[d].members[m],
    ) by {
        let x = f.domains[d];
        assert(has_domain_origin(c, cfg, x));
        let od = choose|od: int| domain_origin(c, cfg, od, x);
        assert(domain_origin(c, cfg, od, x));
        lemma_members_origin(c, cfg, od, 0, Seq::<MemberView>::empty());
        let y = x.members[m];
        assert(members_from_origin(c, cfg, od, x.members));
        assert(has_member_origin(c, cfg, od, y));
        let om = choose|om: int| member_origin(c, cfg, od, om, y);
        assert(member_origin(c, cfg, od, om, y));
        lemma_member_live(c, cfg, od, c.domains[od].members[om]);
        assert(x.name == c.domains[od].name);
        assert forall|r: TypeRefView| live(c, cfg, od, r) implies present(f, d, r) by {
            match r.target {
                RefTargetView::Primitive(_) => {},
                RefTargetView::Named { domain, name } => {
                    let dn = target_domain(c, od, domain);
                    assert(dn == target_domain(f, d, domain));
                    lemma_domain_index(c.domains, dn, 0);
                    assert(domain_index(none, dn, 0) == 0);
                    lemma_domain_lookup(c, cfg, dn, name, 0, none);
                },
            }
        }
        match y {
            MemberView::Type(t) => match t.kind {
                TypeKindView::Object(props) => {
                    assert forall|i: int| 0 <= i < props.len() implies present(
                        f,
                        d,
                        (#[trigger] props[i]).ty,
                    ) by {
                        assert(live(c, cfg, od, props[i].ty));
                    }
                },
                _ => {},
            },
            MemberView::Command(cmd) => {
                assert forall|i: int| 0 <= i < cmd.parameters.len() implies present(
                    f,
                    d,
                    (#[trigger] cmd.parameters[i]).ty,
                ) by {
                    assert(live(c, cfg, od, cmd.parameters[i].ty));
                }
                assert forall|i: int| 0 <= i < cmd.returns.len() implies present(
                    f,
                    d,
                    (#[trigger] cmd.returns[i]).ty,
                ) by {
                    assert(live(c, cfg, od, cmd.returns[i].ty));
                }
            },
            MemberView::Event(e) => {
                assert forall|i: int| 0 <= i < e.parameters.len() implies present(
                    f,
                    d,
                    (#[trigger] e.parameters[i]).ty,
                ) by {
                    assert(live(c, cfg, od, e.parameters[i].ty));
                }
            },
        }
    }
}

/// What is left of a schema without redirects holds no redirects.
#[verifier::rlimit(40)]
pub proof fn lemma_pruned_has_no_redirects(c: SchemaView, cfg: Config)
    requires
        filtered(c, cfg) is Ok,
        all_emitted(c.domains),
    ensures
        all_emitted(filtered(c, cfg)->Ok_0.domains),
{
    let f = filtered(c, cfg)->Ok_0;
    let none = Seq::<DomainView>::empty();
    assert(f.domains == filter_domains(c, cfg, 0, none)->Ok_0);
    lemma_domains_origin(c, cfg, 0, none);
    assert forall|d: int| 0 <= d < f.domains.len() implies members_emitted(
        (#[trigger] f.domains[d]).members,
    ) by {
        let x = f.domains[d];
        assert(has_domain_origin(c, cfg, x));
        let od = choose|od: int| domain_origin(c, cfg, od, x);
        lemma_members_origin(c, cfg, od, 0, Seq::<MemberView>::empty());
        assert forall|m: int| 0 <= m < x.members.len() implies emitted(#[trigger] x.members[m]) by {
            let y = x.members[m];
            assert(has_member_origin(c, cfg, od, y));
            let om = choose|om: int| member_origin(c, cfg, od, om, y);
            super::filter::lemma_filter_member(c, cfg, od, c.domains[od].members[om]);
            assert(members_emitted(c.domains[od].members));
        }
    }
}

/// Whether the bindings of a schema hold the definition of the type that
/// a reference of domain `owner` names. A scalar needs none.
pub open spec fn in_bindings(s: SchemaView, owner: int, r: TypeRefView) -> bool {
    match r.target {
        RefTargetView::Primitive(_) => true,
        RefTargetView::Named { domain, name } => exists|q: super::model::QualifiedNameView|
            #[trigger] artifact_defs(s).contains(q) && same_name(
                q.domain,
                target_domain(s, owner, domain),
            ) && q.name == name,
    }
}

/// In a schema without redirects, the type that a reference names, if it
/// is there, is defined in the bindings of the schema.
pub proof fn lemma_present_is_in_bindings(s: SchemaView, owner: int, r: TypeRefView)
    requires
        s.domains.len() <= usize::MAX,
        all_emitted(s.domains),
        present(s, owner, r),
    ensures
        in_bindings(s, owner, r),
{
    match r.target {
        RefTargetView::Primitive(_) => {},
        RefTargetView::Named { domain, name } => {
            let dn = target_domain(s, owner, domain);
            lemma_type_at(s, dn, name);
            let (d, m) = type_at(s, dn, name)->Some_0;
            assert(members_emitted(s.domains[d].members));
            assert(member_named(s.domains[d].members, m, name));
            assert(domain_declares(s.domains, d, s.domains[d].name, name));
            let q = super::model::QualifiedNameView { domain: s.domains[d].name, name };
            lemma_artifact_defs(s, q);
            assert(artifact_defs(s).contains(q));
        },
    }
}

} // verus!
