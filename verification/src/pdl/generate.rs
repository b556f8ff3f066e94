//! The generator: emits the typed bindings of a schema.
//!
//! Every domain becomes a module, in the order of the keys of the domains.
//! In a module the types come first, then the commands, then the events,
//! each in the order of the schema. A field keeps the name that it has on
//! the wire in an annotation. A reference into another domain that lies on
//! a cycle of the dependency graph is emitted behind a `Box`, so that
//! neither of the two domains needs the other to be laid out first.

use vstd::prelude::*;

use super::bytes::{copy_bytes, eq_ignore_case, lit, push_bytes, push_lit, same_name};
use super::graph::{edges_fit, reaches};
use super::model::{
    declares, domain_declares, emitted, has_member, lemma_bytes_view, lemma_push_deep_view,
    member_named, Command, CommandView, Event, EventView, Member, MemberView, Primitive, Property,
    PropertyView, ProtocolSchema, QualifiedName, QualifiedNameView, RefTarget, RefTargetView,
    SchemaView, TypeDef, TypeDefView, TypeKind, TypeKindView, TypeRef, TypeRefView,
};
use super::names::{
    escaped, ident, module_name, push_escaped, push_ident, push_module, push_stem, stem,
};
use super::order::{
    domain_keys, in_group, is_reach_matrix, key_lt, keys_of, lemma_between_is_in_group,
    lemma_level_above, lemma_sorted_by_key, lemma_sorted_levels, lemma_sorted_upto, reach_matrix,
    sort_by_key, sorted_order,
};
use super::resolver::{dependency_edges, edge_fits, edges, ref_edge, reference_edge};

verus! {

/// The three sections of a module, in the order in which they are emitted.
#[derive(Clone, Copy, Debug, PartialEq, Eq, Structural)]
pub enum Section {
    Types,
    Commands,
    Events,
}

/// What is generated from a schema.
#[derive(Debug)]
pub struct Artifact {
    /// The source text of the bindings.
    pub text: Vec<u8>,
    /// The definitions that the text holds, in the order of the text.
    pub definitions: Vec<QualifiedName>,
}

/// The type of the target language that stands for a scalar.
pub open spec fn scalar(p: Primitive) -> Seq<u8> {
    match p {
        Primitive::Integer => lit("i64"),
        Primitive::Number => lit("f64"),
        Primitive::String => lit("String"),
        Primitive::Boolean => lit("bool"),
        Primitive::Any => lit("Value"),
        Primitive::Binary => lit("Binary"),
    }
}

/// Whether a reference of member `m` of domain `a` lies on a cycle of the
/// dependency graph: it leads into another domain, from which there is a
/// way back.
pub open spec fn boxed(s: SchemaView, a: int, m: int, r: TypeRefView) -> bool {
    match ref_edge(s, a, m, r) {
        Some(e) => reaches(edges(s), e.to as int, a),
        None => false,
    }
}

/// The path of the type that a reference of domain `a` names.
pub open spec fn base_type(s: SchemaView, a: int, r: TypeRefView) -> Seq<u8> {
    match r.target {
        RefTargetView::Primitive(p) => scalar(p),
        RefTargetView::Named { domain, name } => match domain {
            Some(dn) => if same_name(dn, s.domains[a].name) {
                ident(name)
            } else {
                lit("super::") + module_name(dn) + lit("::") + ident(name)
            },
            None => ident(name),
        },
    }
}

/// The type that a reference stands for, without regard to arrays.
pub open spec fn element_type(s: SchemaView, a: int, m: int, r: TypeRefView) -> Seq<u8> {
    if boxed(s, a, m, r) {
        lit("Box<") + base_type(s, a, r) + lit(">")
    } else {
        base_type(s, a, r)
    }
}

/// The type that a reference stands for.
pub open spec fn type_text(s: SchemaView, a: int, m: int, r: TypeRefView) -> Seq<u8> {
    if r.array {
        lit("Vec<") + element_type(s, a, m, r) + lit(">")
    } else {
        element_type(s, a, m, r)
    }
}

/// The type of a field: optional where the property is.
pub open spec fn field_type(s: SchemaView, a: int, m: int, p: PropertyView) -> Seq<u8> {
    if p.optional {
        lit("Option<") + type_text(s, a, m, p.ty) + lit(">")
    } else {
        type_text(s, a, m, p.ty)
    }
}

/// The text of one field: the name on the wire, then the field.
pub open spec fn field_text(s: SchemaView, a: int, m: int, p: PropertyView) -> Seq<u8> {
    lit("        #[serde(rename = \"") + escaped(p.name) + lit("\")]\n        pub ") + ident(p.name)
        + lit(": ") + field_type(s, a, m, p) + lit(",\n")
}

/// The text of the fields from `from` on.
pub open spec fn fields_text(s: SchemaView, a: int, m: int, props: Seq<PropertyView>, from: int) -> Seq<
    u8,
>
    decreases props.len() - from,
{
    if from >= props.len() {
        Seq::empty()
    } else {
        field_text(s, a, m, props[from]) + fields_text(s, a, m, props, from + 1)
    }
}

/// The text of a record with the given name.
pub open spec fn struct_text(
    s: SchemaView,
    a: int,
    m: int,
    name: Seq<u8>,
    props: Seq<PropertyView>,
) -> Seq<u8> {
    lit("    pub struct ") + name + lit(" {\n") + fields_text(s, a, m, props, 0) + lit("    }\n")
}

/// The text of one variant of an enumeration: the string on the wire, then
/// the variant.
pub open spec fn variant_text(v: Seq<u8>) -> Seq<u8> {
    lit("        #[serde(rename = \"") + escaped(v) + lit("\")]\n        ") + ident(v) + lit(",\n")
}

/// The text of the variants from `from` on.
pub open spec fn variants_text(variants: Seq<Seq<u8>>, from: int) -> Seq<u8>
    decreases variants.len() - from,
{
    if from >= variants.len() {
        Seq::empty()
    } else {
        variant_text(variants[from]) + variants_text(variants, from + 1)
    }
}

/// The text of a type definition. A redirect has none.
pub open spec fn type_def_text(s: SchemaView, a: int, m: int, t: TypeDefView) -> Seq<u8> {
    match t.kind {
        TypeKindView::Primitive(p) => lit("    pub type ") + ident(t.id) + lit(" = ") + scalar(p)
            + lit(";\n"),
        TypeKindView::Enum(variants) => lit("    pub enum ") + ident(t.id) + lit(" {\n")
            + variants_text(variants, 0) + lit("    }\n"),
        TypeKindView::Object(props) => struct_text(s, a, m, ident(t.id), props),
        TypeKindView::Array(r) => lit("    pub type ") + ident(t.id) + lit(" = Vec<") + type_text(
            s,
            a,
            m,
            r,
        ) + lit(">;\n"),
        TypeKindView::Reference(r) => lit("    pub type ") + ident(t.id) + lit(" = ") + type_text(
            s,
            a,
            m,
            r,
        ) + lit(";\n"),
        TypeKindView::Redirect { .. } => Seq::empty(),
    }
}

/// The string by which a command or an event of domain `a` is dispatched:
/// the domain, a dot and the name, as the schema has them.
pub open spec fn dispatch(s: SchemaView, a: int, name: Seq<u8>) -> Seq<u8> {
    s.domains[a].name + lit(".") + name
}

/// The text of a command: the record of the request, the record of the
/// response, and the link from the one to the other with the dispatch
/// string. A command that is an alias of another is emitted like any
/// other, under its own name.
pub open spec fn command_text(s: SchemaView, a: int, m: int, c: CommandView) -> Seq<u8> {
    struct_text(s, a, m, stem(c.name) + lit("Params"), c.parameters) + struct_text(
        s,
        a,
        m,
        stem(c.name) + lit("Returns"),
        c.returns,
    ) + lit("    impl Command for ") + stem(c.name) + lit(
        "Params {\n        const IDENTIFIER: &'static str = \"",
    ) + escaped(dispatch(s, a, c.name)) + lit("\";\n        type Response = ") + stem(c.name) + lit(
        "Returns;\n    }\n",
    )
}

/// The text of an event: the record of the payload, and the dispatch
/// string.
pub open spec fn event_text(s: SchemaView, a: int, m: int, e: EventView) -> Seq<u8> {
    struct_text(s, a, m, stem(e.name) + lit("Event"), e.parameters) + lit("    impl Event for ")
        + stem(e.name) + lit("Event {\n        const IDENTIFIER: &'static str = \"") + escaped(
        dispatch(s, a, e.name),
    ) + lit("\";\n    }\n")
}

/// Whether a member belongs to a section and has text in it.
pub open spec fn in_section(member: MemberView, section: Section) -> bool {
    match member {
        MemberView::Type(t) => section == Section::Types && !(t.kind is Redirect),
        MemberView::Command(_) => section == Section::Commands,
        MemberView::Event(_) => section == Section::Events,
    }
}

/// The text of member `m` of domain `a`.
pub open spec fn member_text(s: SchemaView, a: int, m: int) -> Seq<u8> {
    match s.domains[a].members[m] {
        MemberView::Type(t) => type_def_text(s, a, m, t),
        MemberView::Command(c) => command_text(s, a, m, c),
        MemberView::Event(e) => event_text(s, a, m, e),
    }
}

/// The text of the members of domain `a` from `from` on that belong to a
/// section.
pub open spec fn section_text(s: SchemaView, a: int, section: Section, from: int) -> Seq<u8>
    decreases s.domains[a].members.len() - from,
{
    if from >= s.domains[a].members.len() {
        Seq::empty()
    } else if in_section(s.domains[a].members[from], section) {
        member_text(s, a, from) + section_text(s, a, section, from + 1)
    } else {
        section_text(s, a, section, from + 1)
    }
}

/// The names of the members of domain `a` from `from` on that belong to
/// a section.
pub open spec fn section_defs(s: SchemaView, a: int, section: Section, from: int) -> Seq<
    QualifiedNameView,
>
    decreases s.domains[a].members.len() - from,
{
    if from >= s.domains[a].members.len() {
        Seq::empty()
    } else if in_section(s.domains[a].members[from], section) {
        seq![
            QualifiedNameView {
                domain: s.domains[a].name,
                name: s.domains[a].members[from].name(),
            },
        ] + section_defs(s, a, section, from + 1)
    } else {
        section_defs(s, a, section, from + 1)
    }
}

/// The text of the module of domain `a`.
pub open spec fn domain_text(s: SchemaView, a: int) -> Seq<u8> {
    lit("pub mod ") + module_name(s.domains[a].name) + lit(" {\n") + sections_text(s, a) + lit(
        "}\n",
    )
}

/// The names of the definitions of the module of domain `a`.
pub open spec fn domain_defs(s: SchemaView, a: int) -> Seq<QualifiedNameView> {
    section_defs(s, a, Section::Types, 0) + section_defs(s, a, Section::Commands, 0)
        + section_defs(s, a, Section::Events, 0)
}

/// The text of the modules of the domains `order[from..]`.
pub open spec fn modules_text(s: SchemaView, order: Seq<usize>, from: int) -> Seq<u8>
    decreases order.len() - from,
{
    if from >= order.len() {
        Seq::empty()
    } else {
        domain_text(s, order[from] as int) + modules_text(s, order, from + 1)
    }
}

/// The names of the definitions of the modules of the domains
/// `order[from..]`.
pub open spec fn modules_defs(s: SchemaView, order: Seq<usize>, from: int) -> Seq<QualifiedNameView>
    decreases order.len() - from,
{
    if from >= order.len() {
        Seq::empty()
    } else {
        domain_defs(s, order[from] as int) + modules_defs(s, order, from + 1)
    }
}

/// The names of the domains.
pub open spec fn domain_names(s: SchemaView) -> Seq<Seq<u8>> {
    Seq::new(s.domains.len(), |d: int| s.domains[d].name)
}

/// The order in which the domains are emitted.
pub open spec fn emission_order(s: SchemaView) -> Seq<usize> {
    sorted_order(domain_keys(domain_names(s), edges(s)))
}

/// The source text that is generated from a schema.
pub open spec fn artifact_text(s: SchemaView) -> Seq<u8> {
    modules_text(s, emission_order(s), 0)
}

/// The definitions that the generated text holds, in its order.
pub open spec fn artifact_defs(s: SchemaView) -> Seq<QualifiedNameView> {
    modules_defs(s, emission_order(s), 0)
}

/// What two lists hold together is what the one or the other holds.
pub proof fn lemma_contains_add<T>(a: Seq<T>, b: Seq<T>, x: T)
    ensures
        (a + b).contains(x) <==> a.contains(x) || b.contains(x),
{
    let both = a + b;
    if both.contains(x) {
        let i = choose|i: int| 0 <= i < both.len() && both[i] == x;
        if i < a.len() {
            assert(a[i] == x);
        } else {
            assert(b[i - a.len()] == x);
        }
    }
    if a.contains(x) {
        let i = choose|i: int| 0 <= i < a.len() && a[i] == x;
        assert(both[i] == x);
    }
    if b.contains(x) {
        let i = choose|i: int| 0 <= i < b.len() && b[i] == x;
        assert(both[a.len() + i] == x);
    }
}

/// Whether member `m` of domain `a`, at or behind `from`, belongs to a
/// section and has this name.
pub open spec fn section_member(
    s: SchemaView,
    a: int,
    section: Section,
    from: int,
    m: int,
    name: Seq<u8>,
) -> bool {
    from <= m < s.domains[a].members.len() && in_section(s.domains[a].members[m], section)
        && s.domains[a].members[m].name() == name
}

/// The names of a section are those of its members.
#[verifier::rlimit(40)]
pub proof fn lemma_section_defs(s: SchemaView, a: int, section: Section, from: int, q: QualifiedNameView)
    requires
        0 <= from,
    ensures
        section_defs(s, a, section, from).contains(q) <==> q.domain == s.domains[a].name && exists|
            m: int,
        | section_member(s, a, section, from, m, q.name),
    decreases s.domains[a].members.len() - from,
{
    let members = s.domains[a].members;
    if from >= members.len() {
        assert(!section_defs(s, a, section, from).contains(q));
        assert(!exists|m: int| section_member(s, a, section, from, m, q.name));
    } else {
        lemma_section_defs(s, a, section, from + 1, q);
        let rest = section_defs(s, a, section, from + 1);
        let here = QualifiedNameView { domain: s.domains[a].name, name: members[from].name() };
        if in_section(members[from], section) {
            lemma_contains_add(seq![here], rest, q);
            assert(seq![here].contains(q) <==> q == here) by {
                if q == here {
                    assert(seq![here][0] == q);
                }
            }
        }
        if section_defs(s, a, section, from).contains(q) {
            if in_section(members[from], section) && q == here {
                assert(section_member(s, a, section, from, from, q.name));
            } else {
                let next = from + 1;
                let m = choose|m: int| section_member(s, a, section, next, m, q.name);
                assert(section_member(s, a, section, from, m, q.name));
            }
        }
        if q.domain == s.domains[a].name && exists|m: int|
            section_member(s, a, section, from, m, q.name) {
            let m = choose|m: int| section_member(s, a, section, from, m, q.name);
            if m > from {
                assert(section_member(s, a, section, from + 1, m, q.name));
            }
        }
    }
}

/// The names of a module are those of the definitions of its domain.
#[verifier::rlimit(40)]
pub proof fn lemma_domain_defs(s: SchemaView, a: int, q: QualifiedNameView)
    ensures
        domain_defs(s, a).contains(q) <==> q.domain == s.domains[a].name && has_member(
            s.domains[a].members,
            q.name,
        ),
{
    let members = s.domains[a].members;
    let types = section_defs(s, a, Section::Types, 0);
    let commands = section_defs(s, a, Section::Commands, 0);
    let events = section_defs(s, a, Section::Events, 0);
    lemma_section_defs(s, a, Section::Types, 0, q);
    lemma_section_defs(s, a, Section::Commands, 0, q);
    lemma_section_defs(s, a, Section::Events, 0, q);
    lemma_contains_add(types, commands, q);
    lemma_contains_add(types + commands, events, q);
    if domain_defs(s, a).contains(q) {
        let section = if types.contains(q) {
            Section::Types
        } else if commands.contains(q) {
            Section::Commands
        } else {
            Section::Events
        };
        let m = choose|m: int| section_member(s, a, section, 0, m, q.name);
        assert(member_named(members, m, q.name));
    }
    if q.domain == s.domains[a].name && has_member(members, q.name) {
        let m = choose|m: int| member_named(members, m, q.name);
        let section = match members[m] {
            MemberView::Type(_) => Section::Types,
            MemberView::Command(_) => Section::Commands,
            MemberView::Event(_) => Section::Events,
        };
        assert(section_member(s, a, section, 0, m, q.name));
    }
}

/// Whether the module at place `i` of the order, at or behind `from`,
/// holds a name.
pub open spec fn module_holds(
    s: SchemaView,
    order: Seq<usize>,
    from: int,
    i: int,
    q: QualifiedNameView,
) -> bool {
    from <= i < order.len() && domain_defs(s, order[i] as int).contains(q)
}

/// The names of the modules are those of each of them.
pub proof fn lemma_modules_defs(s: SchemaView, order: Seq<usize>, from: int, q: QualifiedNameView)
    requires
        0 <= from,
    ensures
        modules_defs(s, order, from).contains(q) <==> exists|i: int|
            module_holds(s, order, from, i, q),
    decreases order.len() - from,
{
    if from >= order.len() {
        assert(!modules_defs(s, order, from).contains(q));
        assert(!exists|i: int| module_holds(s, order, from, i, q));
    } else {
        lemma_modules_defs(s, order, from + 1, q);
        lemma_contains_add(domain_defs(s, order[from] as int), modules_defs(s, order, from + 1), q);
        if modules_defs(s, order, from).contains(q) {
            if domain_defs(s, order[from] as int).contains(q) {
                assert(module_holds(s, order, from, from, q));
            } else {
                let next = from + 1;
                let i = choose|i: int| module_holds(s, order, next, i, q);
                assert(module_holds(s, order, from, i, q));
            }
        }
        if exists|i: int| module_holds(s, order, from, i, q) {
            let i = choose|i: int| module_holds(s, order, from, i, q);
            if i > from {
                assert(module_holds(s, order, from + 1, i, q));
            }
        }
    }
}

/// Every domain is emitted, and nothing else: the order of emission holds
/// each index of a domain, and only such indices.
pub proof fn lemma_emission_order(s: SchemaView)
    requires
        s.domains.len() <= usize::MAX,
    ensures
        emission_order(s).len() == s.domains.len(),
        forall|i: int|
            0 <= i < emission_order(s).len() ==> (#[trigger] emission_order(s)[i])
                < s.domains.len(),
        forall|d: usize| d < s.domains.len() ==> #[trigger] emission_order(s).contains(d),
{
    let keys = domain_keys(domain_names(s), edges(s));
    lemma_sorted_upto(keys, keys.len());
}

/// No domain is emitted twice.
pub proof fn lemma_emitted_once(s: SchemaView)
    requires
        s.domains.len() <= usize::MAX,
    ensures
        forall|i: int, j: int|
            0 <= i < j < emission_order(s).len() ==> (#[trigger] emission_order(s)[i]) != (
            #[trigger] emission_order(s)[j]),
{
    let keys = domain_keys(domain_names(s), edges(s));
    lemma_sorted_upto(keys, keys.len());
    lemma_sorted_levels(keys, keys.len());
}

/// The order of emission is topological: where a domain refers to a type
/// of another domain from which there is no way back to it, the module of
/// the other domain comes first.
pub proof fn lemma_order_is_topological(s: SchemaView, k: int, i: int, j: int)
    requires
        s.domains.len() <= usize::MAX,
        0 <= k < edges(s).len(),
        k <= usize::MAX,
        edges(s)[k].from < s.domains.len(),
        edges(s)[k].to < s.domains.len(),
        !reaches(edges(s), edges(s)[k].to as int, edges(s)[k].from as int),
        0 <= i < emission_order(s).len(),
        0 <= j < emission_order(s).len(),
        emission_order(s)[i] == edges(s)[k].from,
        emission_order(s)[j] == edges(s)[k].to,
    ensures
        j < i,
{
    let es = edges(s);
    let names = domain_names(s);
    let keys = domain_keys(names, es);
    lemma_sorted_upto(keys, keys.len());
    lemma_sorted_levels(keys, keys.len());
    lemma_level_above(es, s.domains.len() as int, k);
    let order = emission_order(s);
    if i < j {
        assert(keys[order[i] as int].level <= keys[order[j] as int].level);
    }
}

/// The order of emission is sorted by the keys of the domains: by level,
/// then by the name of the leader of the group, then by name.
pub proof fn lemma_order_is_sorted(s: SchemaView, i: int, j: int)
    requires
        s.domains.len() <= usize::MAX,
        0 <= i < j < emission_order(s).len(),
    ensures
        !key_lt(
            domain_keys(domain_names(s), edges(s))[emission_order(s)[j] as int],
            domain_keys(domain_names(s), edges(s))[emission_order(s)[i] as int],
        ),
{
    let keys = domain_keys(domain_names(s), edges(s));
    lemma_sorted_upto(keys, keys.len());
    lemma_sorted_by_key(keys, keys.len());
}

/// Groups stay together: between the modules of two domains that depend
/// on each other stand only modules of domains that depend on them too,
/// where no two domains have the same name.
pub proof fn lemma_groups_stay_together(s: SchemaView, i: int, x: int, j: int)
    requires
        s.domains.len() <= usize::MAX,
        forall|d: int, e: int| 0 <= d < e < s.domains.len() ==> s.domains[d].name != s.domains[e].name,
        0 <= i < x < j < emission_order(s).len(),
        in_group(edges(s), emission_order(s)[i] as int, emission_order(s)[j] as int),
    ensures
        in_group(edges(s), emission_order(s)[i] as int, emission_order(s)[x] as int),
{
    let names = domain_names(s);
    let keys = domain_keys(names, edges(s));
    lemma_sorted_upto(keys, keys.len());
    lemma_sorted_by_key(keys, keys.len());
    let order = emission_order(s);
    assert(!key_lt(keys[order[x] as int], keys[order[i] as int]));
    assert(!key_lt(keys[order[j] as int], keys[order[x] as int]));
    lemma_between_is_in_group(names, edges(s), order[i] as int, order[x] as int, order[j] as int);
}

/// The bindings hold exactly the definitions of the schema: a name is
/// among the definitions of the bindings if and only if the schema holds
/// a member of that name, other than a redirect, in a domain of that name.
#[verifier::rlimit(40)]
pub proof fn lemma_artifact_defs(s: SchemaView, q: QualifiedNameView)
    requires
        s.domains.len() <= usize::MAX,
    ensures
        artifact_defs(s).contains(q) <==> declares(s.domains, q.domain, q.name),
{
    let order = emission_order(s);
    lemma_emission_order(s);
    lemma_modules_defs(s, order, 0, q);
    if artifact_defs(s).contains(q) {
        let i = choose|i: int| module_holds(s, order, 0, i, q);
        lemma_domain_defs(s, order[i] as int, q);
        assert(domain_declares(s.domains, order[i] as int, q.domain, q.name));
    }
    if declares(s.domains, q.domain, q.name) {
        let d = choose|d: int| domain_declares(s.domains, d, q.domain, q.name);
        lemma_domain_defs(s, d, q);
        assert(order.contains(d as usize));
        let i = choose|i: int| 0 <= i < order.len() && order[i] == d as usize;
        assert(module_holds(s, order, 0, i, q));
    }
}

/// Appends the type that stands for a scalar.
fn push_scalar(out: &mut Vec<u8>, p: Primitive)
    ensures
        final(out)@ == old(out)@ + scalar(p),
{
    match p {
        Primitive::Integer => push_lit(out, "i64"),
        Primitive::Number => push_lit(out, "f64"),
        Primitive::String => push_lit(out, "String"),
        Primitive::Boolean => push_lit(out, "bool"),
        Primitive::Any => push_lit(out, "Value"),
        Primitive::Binary => push_lit(out, "Binary"),
    }
}

/// Appends the path of the type that a reference names.
fn push_base_type(out: &mut Vec<u8>, schema: &ProtocolSchema, a: usize, r: &TypeRef)
    requires
        a < schema.domains.len(),
    ensures
        final(out)@ == old(out)@ + base_type(schema.deep_view(), a as int, r.deep_view()),
{
    let ghost sv = schema.deep_view();
    assert(sv.domains[a as int] == schema.domains@[a as int].deep_view());
    match &r.target {
        RefTarget::Primitive(p) => push_scalar(out, *p),
        RefTarget::Named { domain, name } => match domain {
            Some(dn) => {
                if eq_ignore_case(dn.as_slice(), schema.domains[a].name.as_slice()) {
                    push_ident(out, name.as_slice());
                } else {
                    push_lit(out, "super::");
                    push_module(out, dn.as_slice());
                    push_lit(out, "::");
                    push_ident(out, name.as_slice());
                    assert(out@ =~= old(out)@ + (lit("super::") + module_name(dn@) + lit("::")
                        + ident(name@)));
                }
            },
            None => push_ident(out, name.as_slice()),
        },
    }
}

/// Appends the type that a reference stands for.
fn push_type(
    out: &mut Vec<u8>,
    schema: &ProtocolSchema,
    reach: &Vec<Vec<bool>>,
    a: usize,
    m: usize,
    r: &TypeRef,
)
    requires
        a < schema.domains.len(),
        m < schema.domains[a as int].members.len(),
        is_reach_matrix(reach@, edges(schema.deep_view()), schema.domains.len() as int),
    ensures
        final(out)@ == old(out)@ + type_text(schema.deep_view(), a as int, m as int, r.deep_view()),
{
    let ghost sv = schema.deep_view();
    let ghost rv = r.deep_view();
    let on_cycle = match reference_edge(schema, a, m, r) {
        Some(e) => {
            assert(edge_fits(sv, e));
            reach[e.to][a]
        },
        None => false,
    };
    assert(on_cycle == boxed(sv, a as int, m as int, rv));
    if r.array {
        push_lit(out, "Vec<");
    }
    if on_cycle {
        push_lit(out, "Box<");
    }
    push_base_type(out, schema, a, r);
    if on_cycle {
        push_lit(out, ">");
    }
    if r.array {
        push_lit(out, ">");
    }
    assert(out@ =~= old(out)@ + type_text(sv, a as int, m as int, rv));
}

/// Appends one field.
fn push_field(
    out: &mut Vec<u8>,
    schema: &ProtocolSchema,
    reach: &Vec<Vec<bool>>,
    a: usize,
    m: usize,
    p: &Property,
)
    requires
        a < schema.domains.len(),
        m < schema.domains[a as int].members.len(),
        is_reach_matrix(reach@, edges(schema.deep_view()), schema.domains.len() as int),
    ensures
        final(out)@ == old(out)@ + field_text(schema.deep_view(), a as int, m as int, p.deep_view()),
{
    let ghost sv = schema.deep_view();
    push_lit(out, "        #[serde(rename = \"");
    push_escaped(out, p.name.as_slice());
    push_lit(out, "\")]\n        pub ");
    push_ident(out, p.name.as_slice());
    push_lit(out, ": ");
    if p.optional {
        push_lit(out, "Option<");
    }
    push_type(out, schema, reach, a, m, &p.ty);
    if p.optional {
        push_lit(out, ">");
    }
    push_lit(out, ",\n");
    assert(out@ =~= old(out)@ + field_text(sv, a as int, m as int, p.deep_view()));
}

/// Appends a record with the name that `name` holds.
#[verifier::rlimit(40)]
fn push_struct(
    out: &mut Vec<u8>,
    schema: &ProtocolSchema,
    reach: &Vec<Vec<bool>>,
    a: usize,
    m: usize,
    name: &Vec<u8>,
    props: &Vec<Property>,
)
    requires
        a < schema.domains.len(),
        m < schema.domains[a as int].members.len(),
        is_reach_matrix(reach@, edges(schema.deep_view()), schema.domains.len() as int),
    ensures
        final(out)@ == old(out)@ + struct_text(
            schema.deep_view(),
            a as int,
            m as int,
            name@,
            props.deep_view(),
        ),
{
    let ghost sv = schema.deep_view();
    let ghost pv = props.deep_view();
    push_lit(out, "    pub struct ");
    push_bytes(out, name.as_slice());
    push_lit(out, " {\n");
    let ghost head = out@;
    let mut i: usize = 0;
    assert(out@ + fields_text(sv, a as int, m as int, pv, 0) =~= head + fields_text(
        sv,
        a as int,
        m as int,
        pv,
        0,
    ));
    while i < props.len()
        invariant
            i <= props.len(),
            a < schema.domains.len(),
            m < schema.domains[a as int].members.len(),
            is_reach_matrix(reach@, edges(schema.deep_view()), schema.domains.len() as int),
            sv == schema.deep_view(),
            pv == props.deep_view(),
            out@ + fields_text(sv, a as int, m as int, pv, i as int) == head + fields_text(
                sv,
                a as int,
                m as int,
                pv,
                0,
            ),
        decreases props.len() - i,
    {
        let ghost before = out@;
        assert(pv[i as int] == props@[i as int].deep_view());
        push_field(out, schema, reach, a, m, &props[i]);
        assert(out@ + fields_text(sv, a as int, m as int, pv, i + 1) =~= before + fields_text(
            sv,
            a as int,
            m as int,
            pv,
            i as int,
        ));
        i += 1;
    }
    assert(out@ =~= head + fields_text(sv, a as int, m as int, pv, 0));
    push_lit(out, "    }\n");
    assert(out@ =~= old(out)@ + struct_text(sv, a as int, m as int, name@, pv));
}

/// Appends the variants of an enumeration.
fn push_variants(out: &mut Vec<u8>, variants: &Vec<Vec<u8>>)
    ensures
        final(out)@ == old(out)@ + variants_text(variants.deep_view(), 0),
{
    let ghost vv = variants.deep_view();
    let mut i: usize = 0;
    assert(out@ + variants_text(vv, 0) =~= old(out)@ + variants_text(vv, 0));
    while i < variants.len()
        invariant
            i <= variants.len(),
            vv == variants.deep_view(),
            out@ + variants_text(vv, i as int) == old(out)@ + variants_text(vv, 0),
        decreases variants.len() - i,
    {
        let ghost before = out@;
        let v = &variants[i];
        proof {
            lemma_bytes_view(*v);
        }
        assert(vv[i as int] == v@);
        push_lit(out, "        #[serde(rename = \"");
        push_escaped(out, v.as_slice());
        push_lit(out, "\")]\n        ");
        push_ident(out, v.as_slice());
        push_lit(out, ",\n");
        assert(out@ =~= before + variant_text(v@));
        assert(out@ + variants_text(vv, i + 1) =~= before + variants_text(vv, i as int));
        i += 1;
    }
    assert(out@ =~= old(out)@ + variants_text(vv, 0));
}

/// Appends a type definition.
#[verifier::rlimit(40)]
fn push_type_def(
    out: &mut Vec<u8>,
    schema: &ProtocolSchema,
    reach: &Vec<Vec<bool>>,
    a: usize,
    m: usize,
    t: &TypeDef,
)
    requires
        a < schema.domains.len(),
        m < schema.domains[a as int].members.len(),
        is_reach_matrix(reach@, edges(schema.deep_view()), schema.domains.len() as int),
    ensures
        final(out)@ == old(out)@ + type_def_text(
            schema.deep_view(),
            a as int,
            m as int,
            t.deep_view(),
        ),
{
    let ghost sv = schema.deep_view();
    match &t.kind {
        TypeKind::Primitive(p) => {
            push_lit(out, "    pub type ");
            push_ident(out, t.id.as_slice());
            push_lit(out, " = ");
            push_scalar(out, *p);
            push_lit(out, ";\n");
            assert(out@ =~= old(out)@ + type_def_text(sv, a as int, m as int, t.deep_view()));
        },
        TypeKind::Enum(variants) => {
            push_lit(out, "    pub enum ");
            push_ident(out, t.id.as_slice());
            push_lit(out, " {\n");
            push_variants(out, variants);
            push_lit(out, "    }\n");
            assert(out@ =~= old(out)@ + type_def_text(sv, a as int, m as int, t.deep_view()));
        },
        TypeKind::Object(props) => {
            let mut name: Vec<u8> = Vec::new();
            push_ident(&mut name, t.id.as_slice());
            assert(name@ =~= ident(t.id@));
            push_struct(out, schema, reach, a, m, &name, props);
        },
        TypeKind::Array(r) => {
            push_lit(out, "    pub type ");
            push_ident(out, t.id.as_slice());
            push_lit(out, " = Vec<");
            push_type(out, schema, reach, a, m, r);
            push_lit(out, ">;\n");
            assert(out@ =~= old(out)@ + type_def_text(sv, a as int, m as int, t.deep_view()));
        },
        TypeKind::Reference(r) => {
            push_lit(out, "    pub type ");
            push_ident(out, t.id.as_slice());
            push_lit(out, " = ");
            push_type(out, schema, reach, a, m, r);
            push_lit(out, ";\n");
            assert(out@ =~= old(out)@ + type_def_text(sv, a as int, m as int, t.deep_view()));
        },
        TypeKind::Redirect { .. } => {
            assert(out@ =~= old(out)@ + type_def_text(sv, a as int, m as int, t.deep_view()));
        },
    }
}

/// The name of a type that belongs to a command or an event: the stem
/// and what follows it.
fn stem_name(name: &[u8], suffix: &str) -> (r: Vec<u8>)
    ensures
        r@ == stem(name@) + lit(suffix),
{
    let mut out: Vec<u8> = Vec::new();
    push_stem(&mut out, name);
    push_lit(&mut out, suffix);
    assert(out@ =~= stem(name@) + lit(suffix));
    out
}

/// Appends the dispatch string of a member of domain `a`, as it is
/// written inside a string.
fn push_dispatch(out: &mut Vec<u8>, schema: &ProtocolSchema, a: usize, name: &[u8])
    requires
        a < schema.domains.len(),
    ensures
        final(out)@ == old(out)@ + escaped(dispatch(schema.deep_view(), a as int, name@)),
{
    let ghost sv = schema.deep_view();
    assert(sv.domains[a as int] == schema.domains@[a as int].deep_view());
    let mut full: Vec<u8> = Vec::new();
    push_bytes(&mut full, schema.domains[a].name.as_slice());
    push_lit(&mut full, ".");
    push_bytes(&mut full, name);
    assert(full@ =~= dispatch(sv, a as int, name@));
    push_escaped(out, full.as_slice());
}

/// Appends a command.
#[verifier::rlimit(40)]
fn push_command(
    out: &mut Vec<u8>,
    schema: &ProtocolSchema,
    reach: &Vec<Vec<bool>>,
    a: usize,
    m: usize,
    c: &Command,
)
    requires
        a < schema.domains.len(),
        m < schema.domains[a as int].members.len(),
        is_reach_matrix(reach@, edges(schema.deep_view()), schema.domains.len() as int),
    ensures
        final(out)@ == old(out)@ + command_text(
            schema.deep_view(),
            a as int,
            m as int,
            c.deep_view(),
        ),
{
    let ghost sv = schema.deep_view();
    let params = stem_name(c.name.as_slice(), "Params");
    let results = stem_name(c.name.as_slice(), "Returns");
    push_struct(out, schema, reach, a, m, &params, &c.parameters);
    push_struct(out, schema, reach, a, m, &results, &c.returns);
    push_lit(out, "    impl Command for ");
    push_stem(out, c.name.as_slice());
    push_lit(out, "Params {\n        const IDENTIFIER: &'static str = \"");
    push_dispatch(out, schema, a, c.name.as_slice());
    push_lit(out, "\";\n        type Response = ");
    push_stem(out, c.name.as_slice());
    push_lit(out, "Returns;\n    }\n");
    assert(out@ =~= old(out)@ + command_text(sv, a as int, m as int, c.deep_view()));
}

/// Appends an event.
fn push_event(
    out: &mut Vec<u8>,
    schema: &ProtocolSchema,
    reach: &Vec<Vec<bool>>,
    a: usize,
    m: usize,
    e: &Event,
)
    requires
        a < schema.domains.len(),
        m < schema.domains[a as int].members.len(),
        is_reach_matrix(reach@, edges(schema.deep_view()), schema.domains.len() as int),
    ensures
        final(out)@ == old(out)@ + event_text(schema.deep_view(), a as int, m as int, e.deep_view()),
{
    let ghost sv = schema.deep_view();
    let payload = stem_name(e.name.as_slice(), "Event");
    push_struct(out, schema, reach, a, m, &payload, &e.parameters);
    push_lit(out, "    impl Event for ");
    push_stem(out, e.name.as_slice());
    push_lit(out, "Event {\n        const IDENTIFIER: &'static str = \"");
    push_dispatch(out, schema, a, e.name.as_slice());
    push_lit(out, "\";\n    }\n");
    assert(out@ =~= old(out)@ + event_text(sv, a as int, m as int, e.deep_view()));
}

/// Whether a member belongs to a section and has text in it.
fn belongs(member: &Member, section: Section) -> (r: bool)
    ensures
        r == in_section(member.deep_view(), section),
{
    match member {
        Member::Type(t) => {
            let redirect = match &t.kind {
                TypeKind::Redirect { .. } => true,
                _ => false,
            };
            section == Section::Types && !redirect
        },
        Member::Command(_) => section == Section::Commands,
        Member::Event(_) => section == Section::Events,
    }
}

/// Appends one section of the module of domain `a`, and the names of
/// what is defined in it.
#[verifier::rlimit(40)]
fn push_section(
    out: &mut Vec<u8>,
    defs: &mut Vec<QualifiedName>,
    schema: &ProtocolSchema,
    reach: &Vec<Vec<bool>>,
    a: usize,
    section: Section,
)
    requires
        a < schema.domains.len(),
        is_reach_matrix(reach@, edges(schema.deep_view()), schema.domains.len() as int),
    ensures
        final(out)@ == old(out)@ + section_text(schema.deep_view(), a as int, section, 0),
        final(defs).deep_view() == old(defs).deep_view() + section_defs(
            schema.deep_view(),
            a as int,
            section,
            0,
        ),
{
    let ghost sv = schema.deep_view();
    let domain = &schema.domains[a];
    assert(sv.domains[a as int] == domain.deep_view());
    let mut m: usize = 0;
    assert(out@ + section_text(sv, a as int, section, 0) =~= old(out)@ + section_text(
        sv,
        a as int,
        section,
        0,
    ));
    assert(defs.deep_view() + section_defs(sv, a as int, section, 0) =~= old(defs).deep_view()
        + section_defs(sv, a as int, section, 0));
    while m < domain.members.len()
        invariant
            m <= domain.members.len(),
            a < schema.domains.len(),
            is_reach_matrix(reach@, edges(schema.deep_view()), schema.domains.len() as int),
            sv == schema.deep_view(),
            *domain == schema.domains@[a as int],
            sv.domains[a as int] == domain.deep_view(),
            out@ + section_text(sv, a as int, section, m as int) == old(out)@ + section_text(
                sv,
                a as int,
                section,
                0,
            ),
            defs.deep_view() + section_defs(sv, a as int, section, m as int) == old(
                defs,
            ).deep_view() + section_defs(sv, a as int, section, 0),
        decreases domain.members.len() - m,
    {
        let member = &domain.members[m];
        assert(sv.domains[a as int].members[m as int] == member.deep_view());
        if belongs(member, section) {
            let ghost before = out@;
            let ghost defs_before = defs.deep_view();
            let ghost last = *defs;
            match member {
                Member::Type(t) => push_type_def(out, schema, reach, a, m, t),
                Member::Command(c) => push_command(out, schema, reach, a, m, c),
                Member::Event(e) => push_event(out, schema, reach, a, m, e),
            }
            let q = QualifiedName {
                domain: copy_bytes(domain.name.as_slice()),
                name: copy_bytes(member.name().as_slice()),
            };
            defs.push(q);
            proof {
                lemma_push_deep_view(last, *defs, q);
            }
            assert(out@ == before + member_text(sv, a as int, m as int));
            assert(out@ + section_text(sv, a as int, section, m + 1) =~= before + section_text(
                sv,
                a as int,
                section,
                m as int,
            ));
            assert(defs.deep_view() + section_defs(sv, a as int, section, m + 1) =~= defs_before
                + section_defs(sv, a as int, section, m as int));
        }
        m += 1;
    }
    assert(out@ =~= old(out)@ + section_text(sv, a as int, section, 0));
    assert(defs.deep_view() =~= old(defs).deep_view() + section_defs(sv, a as int, section, 0));
}

/// The text of the three sections of the module of domain `a`.
pub open spec fn sections_text(s: SchemaView, a: int) -> Seq<u8> {
    section_text(s, a, Section::Types, 0) + section_text(s, a, Section::Commands, 0)
        + section_text(s, a, Section::Events, 0)
}

/// Appends the three sections of the module of domain `a`, and the names
/// of what they define.
fn push_sections(
    out: &mut Vec<u8>,
    defs: &mut Vec<QualifiedName>,
    schema: &ProtocolSchema,
    reach: &Vec<Vec<bool>>,
    a: usize,
)
    requires
        a < schema.domains.len(),
        is_reach_matrix(reach@, edges(schema.deep_view()), schema.domains.len() as int),
    ensures
        final(out)@ == old(out)@ + sections_text(schema.deep_view(), a as int),
        final(defs).deep_view() == old(defs).deep_view() + domain_defs(schema.deep_view(), a as int),
{
    let ghost sv = schema.deep_view();
    push_section(out, defs, schema, reach, a, Section::Types);
    let ghost out1 = out@;
    let ghost defs1 = defs.deep_view();
    push_section(out, defs, schema, reach, a, Section::Commands);
    let ghost out2 = out@;
    let ghost defs2 = defs.deep_view();
    push_section(out, defs, schema, reach, a, Section::Events);
    assert(out@ =~= old(out)@ + sections_text(sv, a as int)) by {
        assert(out1 == old(out)@ + section_text(sv, a as int, Section::Types, 0));
        assert(out2 == out1 + section_text(sv, a as int, Section::Commands, 0));
        assert(out@ == out2 + section_text(sv, a as int, Section::Events, 0));
    }
    assert(defs.deep_view() =~= old(defs).deep_view() + domain_defs(sv, a as int)) by {
        assert(defs1 == old(defs).deep_view() + section_defs(sv, a as int, Section::Types, 0));
        assert(defs2 == defs1 + section_defs(sv, a as int, Section::Commands, 0));
        assert(defs.deep_view() == defs2 + section_defs(sv, a as int, Section::Events, 0));
    }
}

/// Appends the module of domain `a`, and the names of what it defines.
fn push_domain(
    out: &mut Vec<u8>,
    defs: &mut Vec<QualifiedName>,
    schema: &ProtocolSchema,
    reach: &Vec<Vec<bool>>,
    a: usize,
)
    requires
        a < schema.domains.len(),
        is_reach_matrix(reach@, edges(schema.deep_view()), schema.domains.len() as int),
    ensures
        final(out)@ == old(out)@ + domain_text(schema.deep_view(), a as int),
        final(defs).deep_view() == old(defs).deep_view() + domain_defs(schema.deep_view(), a as int),
{
    let ghost sv = schema.deep_view();
    assert(sv.domains[a as int] == schema.domains@[a as int].deep_view());
    push_lit(out, "pub mod ");
    push_module(out, schema.domains[a].name.as_slice());
    push_lit(out, " {\n");
    let ghost head = out@;
    assert(head =~= old(out)@ + (lit("pub mod ") + module_name(sv.domains[a as int].name) + lit(
        " {\n",
    )));
    push_sections(out, defs, schema, reach, a);
    let ghost body = out@;
    push_lit(out, "}\n");
    assert(out@ =~= old(out)@ + domain_text(sv, a as int)) by {
        assert(body == head + sections_text(sv, a as int));
        assert(out@ == body + lit("}\n"));
    }
}

/// Computes the order in which the domains of a schema are emitted, and
/// for every pair of domains whether the one depends on the other.
pub fn plan(schema: &ProtocolSchema) -> (r: (Vec<usize>, Vec<Vec<bool>>))
    ensures
        r.0@ == emission_order(schema.deep_view()),
        r.0@.len() == schema.domains.len(),
        forall|i: int| 0 <= i < r.0@.len() ==> (#[trigger] r.0@[i]) < schema.domains.len(),
        is_reach_matrix(r.1@, edges(schema.deep_view()), schema.domains.len() as int),
{
    let ghost sv = schema.deep_view();
    let n = schema.domains.len();
    let graph = dependency_edges(schema);
    assert(edges_fit(graph@, n as int)) by {
        assert forall|k: int| 0 <= k < graph@.len() implies (#[trigger] graph@[k]).from < n
            && graph@[k].to < n by {
            assert(edge_fits(sv, graph@[k]));
        }
    }
    let reach = reach_matrix(n, &graph);
    let mut names: Vec<Vec<u8>> = Vec::new();
    let mut d: usize = 0;
    while d < n
        invariant
            d <= n,
            n == schema.domains.len(),
            sv == schema.deep_view(),
            names@.len() == d,
            forall|x: int| 0 <= x < d ==> (#[trigger] names@[x])@ == sv.domains[x].name,
        decreases n - d,
    {
        assert(sv.domains[d as int] == schema.domains@[d as int].deep_view());
        names.push(copy_bytes(schema.domains[d].name.as_slice()));
        d += 1;
    }
    assert(names.deep_view() =~= domain_names(sv)) by {
        assert forall|x: int| 0 <= x < n implies names.deep_view()[x] == domain_names(sv)[x] by {
            lemma_bytes_view(names@[x]);
        }
    }
    let keys = keys_of(&names, &graph, &reach);
    let order = sort_by_key(&keys);
    (order, reach)
}

/// Generates the bindings of a schema: its source text, and the names of
/// the definitions in it. The same schema always gives the same text.
#[verifier::rlimit(40)]
pub fn generate(schema: &ProtocolSchema) -> (r: Artifact)
    ensures
        r.text@ == artifact_text(schema.deep_view()),
        r.definitions.deep_view() == artifact_defs(schema.deep_view()),
{
    let ghost sv = schema.deep_view();
    let (order, reach) = plan(schema);
    let ghost ov = order@;
    let mut text: Vec<u8> = Vec::new();
    let mut definitions: Vec<QualifiedName> = Vec::new();
    let mut i: usize = 0;
    assert(text@ + modules_text(sv, ov, 0) =~= modules_text(sv, ov, 0));
    assert(definitions.deep_view() + modules_defs(sv, ov, 0) =~= modules_defs(sv, ov, 0));
    while i < order.len()
        invariant
            i <= order.len(),
            sv == schema.deep_view(),
            ov == order@,
            forall|j: int| 0 <= j < ov.len() ==> (#[trigger] ov[j]) < schema.domains.len(),
            is_reach_matrix(reach@, edges(schema.deep_view()), schema.domains.len() as int),
            text@ + modules_text(sv, ov, i as int) == modules_text(sv, ov, 0),
            definitions.deep_view() + modules_defs(sv, ov, i as int) == modules_defs(sv, ov, 0),
        decreases order.len() - i,
    {
        let ghost before = text@;
        let ghost defs_before = definitions.deep_view();
        push_domain(&mut text, &mut definitions, schema, &reach, order[i]);
        assert(text@ + modules_text(sv, ov, i + 1) =~= before + modules_text(sv, ov, i as int));
        assert(definitions.deep_view() + modules_defs(sv, ov, i + 1) =~= defs_before + modules_defs(
            sv,
            ov,
            i as int,
        ));
        i += 1;
    }
    assert(text@ =~= modules_text(sv, ov, 0));
    assert(definitions.deep_view() =~= modules_defs(sv, ov, 0));
    Artifact { text, definitions }
}

} // verus!
