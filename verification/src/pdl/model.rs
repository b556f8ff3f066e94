//! The schema of a protocol: domains with their types, commands and events.
//!
//! Each type of the model has a view, its mathematical form, in which byte
//! strings are sequences of bytes and lists are sequences. The contracts of
//! the compiler are stated over the views.

use vstd::prelude::*;

use super::bytes::{copy_bytes, same_name};

verus! {

/// The scalar kinds of the protocol.
#[derive(Clone, Copy, Debug, PartialEq, Eq, Structural)]
pub enum Primitive {
    Integer,
    Number,
    String,
    Boolean,
    Any,
    Binary,
}

/// The stability tier of a definition.
#[derive(Clone, Copy, Debug, PartialEq, Eq, Structural)]
pub struct Stability {
    pub experimental: bool,
    pub deprecated: bool,
}

/// What a type reference points at: a scalar, or a type definition by the
/// name of its domain and its own name. Without a domain the reference is
/// to a type of the domain that it stands in.
#[derive(Debug)]
pub enum RefTarget {
    Primitive(Primitive),
    Named { domain: Option<Vec<u8>>, name: Vec<u8> },
}

/// A reference to a type, or to the anonymous type of arrays of it.
#[derive(Debug)]
pub struct TypeRef {
    pub array: bool,
    pub target: RefTarget,
}

/// A field of an object, a parameter of a command or of an event, or a value
/// that a command returns. The name is the key on the wire.
#[derive(Debug)]
pub struct Property {
    pub name: Vec<u8>,
    pub ty: TypeRef,
    pub optional: bool,
    pub description: Vec<u8>,
    pub stability: Stability,
}

/// The shape of a type definition.
#[derive(Debug)]
pub enum TypeKind {
    Primitive(Primitive),
    /// A closed set of strings.
    Enum(Vec<Vec<u8>>),
    /// A record.
    Object(Vec<Property>),
    /// A sequence of elements.
    Array(TypeRef),
    /// Another name for a type.
    Reference(TypeRef),
    /// A marker that the name is an alias: nothing is emitted for it, and
    /// references to it are rewritten to the type named here.
    Redirect { domain: Vec<u8>, name: Vec<u8> },
}

/// A type definition. The id is unique within its domain.
#[derive(Debug)]
pub struct TypeDef {
    pub id: Vec<u8>,
    pub description: Vec<u8>,
    pub stability: Stability,
    pub kind: TypeKind,
}

/// A command: a request with parameters, answered by a response.
#[derive(Debug)]
pub struct Command {
    pub name: Vec<u8>,
    pub description: Vec<u8>,
    pub stability: Stability,
    pub parameters: Vec<Property>,
    pub returns: Vec<Property>,
    /// The command that this one is a legacy alias of, if it is one.
    pub redirect: Option<QualifiedName>,
}

/// An event: a notification with parameters.
#[derive(Debug)]
pub struct Event {
    pub name: Vec<u8>,
    pub description: Vec<u8>,
    pub stability: Stability,
    pub parameters: Vec<Property>,
}

/// A member of a domain.
#[derive(Debug)]
pub enum Member {
    Type(TypeDef),
    Command(Command),
    Event(Event),
}

/// A named group of types, commands and events. Names of domains are
/// compared without regard to case.
#[derive(Debug)]
pub struct Domain {
    pub name: Vec<u8>,
    pub description: Vec<u8>,
    pub stability: Stability,
    /// The domains that this one declares to depend on.
    pub dependencies: Vec<Vec<u8>>,
    pub members: Vec<Member>,
}

/// All the domains of a protocol.
#[derive(Debug)]
pub struct ProtocolSchema {
    pub domains: Vec<Domain>,
}

/// A definition by the name of its domain and its own name.
#[derive(Debug)]
pub struct QualifiedName {
    pub domain: Vec<u8>,
    pub name: Vec<u8>,
}

/// The view of a [`QualifiedName`].
pub struct QualifiedNameView {
    pub domain: Seq<u8>,
    pub name: Seq<u8>,
}

impl DeepView for QualifiedName {
    type V = QualifiedNameView;

    open spec fn deep_view(&self) -> QualifiedNameView {
        QualifiedNameView { domain: self.domain@, name: self.name@ }
    }
}

/// The view of a [`RefTarget`].
pub enum RefTargetView {
    Primitive(Primitive),
    Named { domain: Option<Seq<u8>>, name: Seq<u8> },
}

/// The view of a [`TypeRef`].
pub struct TypeRefView {
    pub array: bool,
    pub target: RefTargetView,
}

/// The view of a [`Property`].
pub struct PropertyView {
    pub name: Seq<u8>,
    pub ty: TypeRefView,
    pub optional: bool,
    pub description: Seq<u8>,
    pub stability: Stability,
}

/// The view of a [`TypeKind`].
pub enum TypeKindView {
    Primitive(Primitive),
    Enum(Seq<Seq<u8>>),
    Object(Seq<PropertyView>),
    Array(TypeRefView),
    Reference(TypeRefView),
    Redirect { domain: Seq<u8>, name: Seq<u8> },
}

/// The view of a [`TypeDef`].
pub struct TypeDefView {
    pub id: Seq<u8>,
    pub description: Seq<u8>,
    pub stability: Stability,
    pub kind: TypeKindView,
}

/// The view of a [`Command`].
pub struct CommandView {
    pub name: Seq<u8>,
    pub description: Seq<u8>,
    pub stability: Stability,
    pub parameters: Seq<PropertyView>,
    pub returns: Seq<PropertyView>,
    pub redirect: Option<QualifiedNameView>,
}

/// The view of an [`Event`].
pub struct EventView {
    pub name: Seq<u8>,
    pub description: Seq<u8>,
    pub stability: Stability,
    pub parameters: Seq<PropertyView>,
}

/// The view of a [`Member`].
pub enum MemberView {
    Type(TypeDefView),
    Command(CommandView),
    Event(EventView),
}

/// The view of a [`Domain`].
pub struct DomainView {
    pub name: Seq<u8>,
    pub description: Seq<u8>,
    pub stability: Stability,
    pub dependencies: Seq<Seq<u8>>,
    pub members: Seq<MemberView>,
}

/// The view of a [`ProtocolSchema`].
pub struct SchemaView {
    pub domains: Seq<DomainView>,
}

/// The view of a name that may be missing.
pub open spec fn opt_name(name: Option<Vec<u8>>) -> Option<Seq<u8>> {
    match name {
        Some(n) => Some(n@),
        None => None,
    }
}

/// The view of a qualified name that may be missing.
pub open spec fn opt_qualified(name: Option<QualifiedName>) -> Option<QualifiedNameView> {
    match name {
        Some(n) => Some(n.deep_view()),
        None => None,
    }
}

/// The deep view of a byte string is its view.
pub proof fn lemma_bytes_view(v: Vec<u8>)
    ensures
        v.deep_view() == v@,
{
    assert(v.deep_view() =~= v@);
}

impl DeepView for RefTarget {
    type V = RefTargetView;

    open spec fn deep_view(&self) -> RefTargetView {
        match *self {
            RefTarget::Primitive(p) => RefTargetView::Primitive(p),
            RefTarget::Named { domain, name } => RefTargetView::Named {
                domain: opt_name(domain),
                name: name@,
            },
        }
    }
}

impl DeepView for TypeRef {
    type V = TypeRefView;

    open spec fn deep_view(&self) -> TypeRefView {
        TypeRefView { array: self.array, target: self.target.deep_view() }
    }
}

impl DeepView for Property {
    type V = PropertyView;

    open spec fn deep_view(&self) -> PropertyView {
        PropertyView {
            name: self.name@,
            ty: self.ty.deep_view(),
            optional: self.optional,
            description: self.description@,
            stability: self.stability,
        }
    }
}

impl DeepView for TypeKind {
    type V = TypeKindView;

    open spec fn deep_view(&self) -> TypeKindView {
        match *self {
            TypeKind::Primitive(p) => TypeKindView::Primitive(p),
            TypeKind::Enum(variants) => TypeKindView::Enum(variants.deep_view()),
            TypeKind::Object(properties) => TypeKindView::Object(properties.deep_view()),
            TypeKind::Array(element) => TypeKindView::Array(element.deep_view()),
            TypeKind::Reference(target) => TypeKindView::Reference(target.deep_view()),
            TypeKind::Redirect { domain, name } => TypeKindView::Redirect {
                domain: domain@,
                name: name@,
            },
        }
    }
}

impl DeepView for TypeDef {
    type V = TypeDefView;

    open spec fn deep_view(&self) -> TypeDefView {
        TypeDefView {
            id: self.id@,
            description: self.description@,
            stability: self.stability,
            kind: self.kind.deep_view(),
        }
    }
}

impl DeepView for Command {
    type V = CommandView;

    open spec fn deep_view(&self) -> CommandView {
        CommandView {
            name: self.name@,
            description: self.description@,
            stability: self.stability,
            parameters: self.parameters.deep_view(),
            returns: self.returns.deep_view(),
            redirect: opt_qualified(self.redirect),
        }
    }
}

impl DeepView for Event {
    type V = EventView;

    open spec fn deep_view(&self) -> EventView {
        EventView {
            name: self.name@,
            description: self.description@,
            stability: self.stability,
            parameters: self.parameters.deep_view(),
        }
    }
}

impl DeepView for Member {
    type V = MemberView;

    open spec fn deep_view(&self) -> MemberView {
        match *self {
            Member::Type(t) => MemberView::Type(t.deep_view()),
            Member::Command(c) => MemberView::Command(c.deep_view()),
            Member::Event(e) => MemberView::Event(e.deep_view()),
        }
    }
}

impl DeepView for Domain {
    type V = DomainView;

    open spec fn deep_view(&self) -> DomainView {
        DomainView {
            name: self.name@,
            description: self.description@,
            stability: self.stability,
            dependencies: self.dependencies.deep_view(),
            members: self.members.deep_view(),
        }
    }
}

impl DeepView for ProtocolSchema {
    type V = SchemaView;

    open spec fn deep_view(&self) -> SchemaView {
        SchemaView { domains: self.domains.deep_view() }
    }
}

impl MemberView {
    /// The name of the member: the id of a type, the name of a command or
    /// of an event.
    pub open spec fn name(self) -> Seq<u8> {
        match self {
            MemberView::Type(t) => t.id,
            MemberView::Command(c) => c.name,
            MemberView::Event(e) => e.name,
        }
    }

    /// The stability tier of the member.
    pub open spec fn stability(self) -> Stability {
        match self {
            MemberView::Type(t) => t.stability,
            MemberView::Command(c) => c.stability,
            MemberView::Event(e) => e.stability,
        }
    }
}

impl Member {
    /// The name of the member.
    pub fn name(&self) -> (r: &Vec<u8>)
        ensures
            r@ == self.deep_view().name(),
    {
        match self {
            Member::Type(t) => &t.id,
            Member::Command(c) => &c.name,
            Member::Event(e) => &e.name,
        }
    }

    /// The stability tier of the member.
    pub fn stability(&self) -> (r: Stability)
        ensures
            r == self.deep_view().stability(),
    {
        match self {
            Member::Type(t) => t.stability,
            Member::Command(c) => c.stability,
            Member::Event(e) => e.stability,
        }
    }
}

/// What a `Vec` holds after one more element, in views.
pub proof fn lemma_push_deep_view<T: DeepView>(before: Vec<T>, after: Vec<T>, x: T)
    requires
        after@ == before@.push(x),
    ensures
        after.deep_view() == before.deep_view().push(x.deep_view()),
{
    assert(after.deep_view() =~= before.deep_view().push(x.deep_view()));
}

/// The view of a member of a schema is the member of the view.
pub proof fn lemma_member_view(schema: &ProtocolSchema, d: int, m: int)
    requires
        0 <= d < schema.domains.len(),
        0 <= m < schema.domains[d].members.len(),
    ensures
        schema.deep_view().domains[d] == schema.domains[d].deep_view(),
        schema.deep_view().domains[d].members[m] == schema.domains[d].members[m].deep_view(),
{
}

/// Whether a member is a definition of the bindings: every member but a
/// redirect, which stands for another type.
pub open spec fn emitted(member: MemberView) -> bool {
    !(member matches MemberView::Type(t) && t.kind is Redirect)
}

/// Whether member `m` is a definition with this name.
pub open spec fn member_named(members: Seq<MemberView>, m: int, name: Seq<u8>) -> bool {
    0 <= m < members.len() && emitted(members[m]) && members[m].name() == name
}

/// Whether the members hold a definition with this name.
pub open spec fn has_member(members: Seq<MemberView>, name: Seq<u8>) -> bool {
    exists|m: int| member_named(members, m, name)
}

/// Whether domain `d` holds a definition with this name, and has the name
/// that goes with it.
pub open spec fn domain_declares(domains: Seq<DomainView>, d: int, domain: Seq<u8>, name: Seq<u8>) -> bool {
    0 <= d < domains.len() && domains[d].name == domain && has_member(domains[d].members, name)
}

/// Whether the domains hold a definition with this name in a domain with
/// this name.
pub open spec fn declares(domains: Seq<DomainView>, domain: Seq<u8>, name: Seq<u8>) -> bool {
    exists|d: int| domain_declares(domains, d, domain, name)
}

/// What the members hold after one more.
pub proof fn lemma_has_member_push(members: Seq<MemberView>, x: MemberView, name: Seq<u8>)
    ensures
        has_member(members.push(x), name) <==> has_member(members, name) || (emitted(x)
            && x.name() == name),
{
    let after = members.push(x);
    if has_member(after, name) {
        let m = choose|m: int| member_named(after, m, name);
        if m < members.len() {
            assert(member_named(members, m, name));
        }
    }
    if has_member(members, name) {
        let m = choose|m: int| member_named(members, m, name);
        assert(member_named(after, m, name));
    }
    if emitted(x) && x.name() == name {
        assert(member_named(after, members.len() as int, name));
    }
}

/// What the domains hold after one more.
pub proof fn lemma_declares_push(domains: Seq<DomainView>, x: DomainView, domain: Seq<u8>, name: Seq<u8>)
    ensures
        declares(domains.push(x), domain, name) <==> declares(domains, domain, name) || (x.name
            == domain && has_member(x.members, name)),
{
    let after = domains.push(x);
    if declares(after, domain, name) {
        let d = choose|d: int| domain_declares(after, d, domain, name);
        if d < domains.len() {
            assert(domain_declares(domains, d, domain, name));
        }
    }
    if declares(domains, domain, name) {
        let d = choose|d: int| domain_declares(domains, d, domain, name);
        assert(domain_declares(after, d, domain, name));
    }
    if x.name == domain && has_member(x.members, name) {
        assert(domain_declares(after, domains.len() as int, domain, name));
    }
}

/// The index of the first domain from `from` on that has the name `name`,
/// without regard to case, or the number of domains if there is none.
pub open spec fn domain_index(domains: Seq<DomainView>, name: Seq<u8>, from: int) -> int
    decreases domains.len() - from,
{
    if from >= domains.len() {
        domains.len() as int
    } else if same_name(domains[from].name, name) {
        from
    } else {
        domain_index(domains, name, from + 1)
    }
}

/// The index of the first member from `from` on that has the name `name`,
/// or the number of members if there is none.
pub open spec fn member_index(members: Seq<MemberView>, name: Seq<u8>, from: int) -> int
    decreases members.len() - from,
{
    if from >= members.len() {
        members.len() as int
    } else if members[from].name() == name {
        from
    } else {
        member_index(members, name, from + 1)
    }
}

/// What the index of a domain says: it is in range, and no earlier domain
/// has the name.
pub proof fn lemma_domain_index(domains: Seq<DomainView>, name: Seq<u8>, from: int)
    requires
        0 <= from,
    ensures
        from <= domain_index(domains, name, from) || domains.len() < from,
        domain_index(domains, name, from) <= domains.len() || domains.len() < from,
        domain_index(domains, name, from) < domains.len() ==> same_name(
            domains[domain_index(domains, name, from)].name,
            name,
        ),
        forall|i: int|
            from <= i < domain_index(domains, name, from) && i < domains.len() ==> !same_name(
                (#[trigger] domains[i]).name,
                name,
            ),
    decreases domains.len() - from,
{
    if from < domains.len() && !same_name(domains[from].name, name) {
        lemma_domain_index(domains, name, from + 1);
    }
}

/// What the index of a member says: it is in range, and no earlier member
/// has the name.
pub proof fn lemma_member_index(members: Seq<MemberView>, name: Seq<u8>, from: int)
    requires
        0 <= from,
    ensures
        from <= member_index(members, name, from) || members.len() < from,
        member_index(members, name, from) <= members.len() || members.len() < from,
        member_index(members, name, from) < members.len() ==> members[member_index(
            members,
            name,
            from,
        )].name() == name,
        forall|i: int|
            from <= i < member_index(members, name, from) && i < members.len() ==> (
            #[trigger] members[i]).name() != name,
    decreases members.len() - from,
{
    if from < members.len() && members[from].name() != name {
        lemma_member_index(members, name, from + 1);
    }
}

/// Finds a domain by its name, without regard to case.
pub fn find_domain(domains: &Vec<Domain>, name: &[u8]) -> (r: usize)
    ensures
        r == domain_index(domains.deep_view(), name@, 0),
        r <= domains.len(),
{
    let mut i: usize = 0;
    while i < domains.len()
        invariant
            i <= domains.len(),
            domains.deep_view().len() == domains.len(),
            domain_index(domains.deep_view(), name@, 0) == domain_index(
                domains.deep_view(),
                name@,
                i as int,
            ),
        decreases domains.len() - i,
    {
        assert(domains.deep_view()[i as int] == domains@[i as int].deep_view());
        if super::bytes::eq_ignore_case(domains[i].name.as_slice(), name) {
            return i;
        }
        i += 1;
    }
    i
}

/// Finds a member of a domain by its name.
pub fn find_member(members: &Vec<Member>, name: &[u8]) -> (r: usize)
    ensures
        r == member_index(members.deep_view(), name@, 0),
        r <= members.len(),
{
    let mut i: usize = 0;
    while i < members.len()
        invariant
            i <= members.len(),
            members.deep_view().len() == members.len(),
            member_index(members.deep_view(), name@, 0) == member_index(
                members.deep_view(),
                name@,
                i as int,
            ),
        decreases members.len() - i,
    {
        assert(members.deep_view()[i as int] == members@[i as int].deep_view());
        if super::bytes::bytes_eq(members[i].name().as_slice(), name) {
            return i;
        }
        i += 1;
    }
    i
}

impl QualifiedName {
    /// A copy of the name.
    pub fn duplicate(&self) -> (r: Self)
        ensures
            r.deep_view() == self.deep_view(),
    {
        QualifiedName {
            domain: copy_bytes(self.domain.as_slice()),
            name: copy_bytes(self.name.as_slice()),
        }
    }
}

impl RefTarget {
    /// A copy of the target.
    pub fn duplicate(&self) -> (r: Self)
        ensures
            r.deep_view() == self.deep_view(),
    {
        match self {
            RefTarget::Primitive(p) => RefTarget::Primitive(*p),
            RefTarget::Named { domain, name } => {
                let domain = match domain {
                    Some(d) => Some(copy_bytes(d.as_slice())),
                    None => None,
                };
                RefTarget::Named { domain, name: copy_bytes(name.as_slice()) }
            },
        }
    }
}

impl TypeRef {
    /// A copy of the reference.
    pub fn duplicate(&self) -> (r: Self)
        ensures
            r.deep_view() == self.deep_view(),
    {
        TypeRef { array: self.array, target: self.target.duplicate() }
    }
}

impl Property {
    /// A copy of the property.
    pub fn duplicate(&self) -> (r: Self)
        ensures
            r.deep_view() == self.deep_view(),
    {
        Property {
            name: copy_bytes(self.name.as_slice()),
            ty: self.ty.duplicate(),
            optional: self.optional,
            description: copy_bytes(self.description.as_slice()),
            stability: self.stability,
        }
    }
}

} // verus!
