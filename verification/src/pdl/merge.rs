//! Merging the domains of several schema files into one schema.

use vstd::prelude::*;

use super::bytes::{copy_bytes, same_name};
use super::model::{
    domain_index, find_domain, find_member, lemma_domain_index, lemma_member_index,
    lemma_push_deep_view, member_index, Domain, DomainView, Member, MemberView, ProtocolSchema,
    QualifiedNameView, SchemaView,
};

verus! {

/// A member that is defined twice in one domain.
#[derive(Debug)]
pub struct DuplicateDefinition {
    pub domain: Vec<u8>,
    pub name: Vec<u8>,
}

impl DeepView for DuplicateDefinition {
    type V = QualifiedNameView;

    open spec fn deep_view(&self) -> QualifiedNameView {
        QualifiedNameView { domain: self.domain@, name: self.name@ }
    }
}

/// The members of a domain once the members of `new` from `from` on are
/// appended to `target` one by one, or the name of the first of them that
/// `target` holds already.
pub open spec fn add_members(target: Seq<MemberView>, new: Seq<MemberView>, from: int) -> Result<
    Seq<MemberView>,
    Seq<u8>,
>
    decreases new.len() - from,
{
    if from >= new.len() {
        Ok(target)
    } else if member_index(target, new[from].name(), 0) < target.len() {
        Err(new[from].name())
    } else {
        add_members(target.push(new[from]), new, from + 1)
    }
}

/// The domains once `d` is added to `acc`. A domain whose name `acc` has
/// already, without regard to case, gives its members and dependencies to
/// that domain; its own description and stability are dropped. Any other
/// domain is appended.
pub open spec fn add_domain(acc: Seq<DomainView>, d: DomainView) -> Result<
    Seq<DomainView>,
    QualifiedNameView,
> {
    let at = domain_index(acc, d.name, 0);
    if at < acc.len() {
        match add_members(acc[at].members, d.members, 0) {
            Ok(members) => Ok(
                acc.update(
                    at,
                    DomainView {
                        name: acc[at].name,
                        description: acc[at].description,
                        stability: acc[at].stability,
                        dependencies: acc[at].dependencies + d.dependencies,
                        members,
                    },
                ),
            ),
            Err(name) => Err(QualifiedNameView { domain: acc[at].name, name }),
        }
    } else {
        match add_members(Seq::empty(), d.members, 0) {
            Ok(members) => Ok(
                acc.push(
                    DomainView {
                        name: d.name,
                        description: d.description,
                        stability: d.stability,
                        dependencies: d.dependencies,
                        members,
                    },
                ),
            ),
            Err(name) => Err(QualifiedNameView { domain: d.name, name }),
        }
    }
}

/// The domains once those of `file` from `from` on are added to `acc`, in
/// order, or the first duplicate that comes up.
pub open spec fn add_file(acc: Seq<DomainView>, file: Seq<DomainView>, from: int) -> Result<
    Seq<DomainView>,
    QualifiedNameView,
>
    decreases file.len() - from,
{
    if from >= file.len() {
        Ok(acc)
    } else {
        match add_domain(acc, file[from]) {
            Ok(next) => add_file(next, file, from + 1),
            Err(e) => Err(e),
        }
    }
}

/// The domains once the files from `from` on are added to `acc`, in order.
pub open spec fn add_files(acc: Seq<DomainView>, files: Seq<Seq<DomainView>>, from: int) -> Result<
    Seq<DomainView>,
    QualifiedNameView,
>
    decreases files.len() - from,
{
    if from >= files.len() {
        Ok(acc)
    } else {
        match add_file(acc, files[from], 0) {
            Ok(next) => add_files(next, files, from + 1),
            Err(e) => Err(e),
        }
    }
}

/// The schema that the files merge into: the union of their domains, in
/// the order in which their names first come up, each with its members in
/// the order of the files.
pub open spec fn merged(files: Seq<Seq<DomainView>>) -> Result<SchemaView, QualifiedNameView> {
    match add_files(Seq::empty(), files, 0) {
        Ok(domains) => Ok(SchemaView { domains }),
        Err(e) => Err(e),
    }
}

/// Whether no two members have the same name.
pub open spec fn unique_members(members: Seq<MemberView>) -> bool {
    forall|i: int, j: int|
        0 <= i < j < members.len() ==> (#[trigger] members[i]).name() != (#[trigger] members[j]).name()
}

/// Whether no two domains have the same name, without regard to case, and
/// no two members of a domain have the same name.
pub open spec fn unique_names(domains: Seq<DomainView>) -> bool {
    &&& forall|i: int, j: int|
        0 <= i < j < domains.len() ==> !same_name(
            (#[trigger] domains[i]).name,
            (#[trigger] domains[j]).name,
        )
    &&& forall|i: int| 0 <= i < domains.len() ==> unique_members((#[trigger] domains[i]).members)
}

/// Members that are added keep the names unique.
pub proof fn lemma_add_members(target: Seq<MemberView>, new: Seq<MemberView>, from: int)
    requires
        0 <= from,
        unique_members(target),
        add_members(target, new, from) is Ok,
    ensures
        unique_members(add_members(target, new, from)->Ok_0),
    decreases new.len() - from,
{
    if from < new.len() {
        lemma_member_index(target, new[from].name(), 0);
        let next = target.push(new[from]);
        assert forall|i: int, j: int| 0 <= i < j < next.len() implies (#[trigger] next[i]).name()
            != (#[trigger] next[j]).name() by {
            assert(next[i] == target[i]);
            if j < target.len() {
                assert(next[j] == target[j]);
            }
        }
        lemma_add_members(next, new, from + 1);
    }
}

/// A domain that is added keeps the names unique.
#[verifier::rlimit(40)]
pub proof fn lemma_add_domain(acc: Seq<DomainView>, d: DomainView)
    requires
        unique_names(acc),
        add_domain(acc, d) is Ok,
    ensures
        unique_names(add_domain(acc, d)->Ok_0),
{
    let at = domain_index(acc, d.name, 0);
    lemma_domain_index(acc, d.name, 0);
    let next = add_domain(acc, d)->Ok_0;
    if at < acc.len() {
        lemma_add_members(acc[at].members, d.members, 0);
        assert forall|i: int, j: int| 0 <= i < j < next.len() implies !same_name(
            (#[trigger] next[i]).name,
            (#[trigger] next[j]).name,
        ) by {
            assert(next[i].name == acc[i].name);
            assert(next[j].name == acc[j].name);
        }
        assert forall|i: int| 0 <= i < next.len() implies unique_members(
            (#[trigger] next[i]).members,
        ) by {
            if i != at {
                assert(next[i] == acc[i]);
            }
        }
    } else {
        assert(unique_members(Seq::<MemberView>::empty()));
        lemma_add_members(Seq::empty(), d.members, 0);
        assert forall|i: int, j: int| 0 <= i < j < next.len() implies !same_name(
            (#[trigger] next[i]).name,
            (#[trigger] next[j]).name,
        ) by {
            assert(next[i] == acc[i]);
            if j < acc.len() {
                assert(next[j] == acc[j]);
            }
        }
        assert forall|i: int| 0 <= i < next.len() implies unique_members(
            (#[trigger] next[i]).members,
        ) by {
            if i < acc.len() {
                assert(next[i] == acc[i]);
            }
        }
    }
}

/// The domains of a file that are added keep the names unique.
pub proof fn lemma_add_file(acc: Seq<DomainView>, file: Seq<DomainView>, from: int)
    requires
        0 <= from,
        unique_names(acc),
        add_file(acc, file, from) is Ok,
    ensures
        unique_names(add_file(acc, file, from)->Ok_0),
    decreases file.len() - from,
{
    if from < file.len() {
        lemma_add_domain(acc, file[from]);
        lemma_add_file(add_domain(acc, file[from])->Ok_0, file, from + 1);
    }
}

/// The files that are added keep the names unique.
pub proof fn lemma_add_files(acc: Seq<DomainView>, files: Seq<Seq<DomainView>>, from: int)
    requires
        0 <= from,
        unique_names(acc),
        add_files(acc, files, from) is Ok,
    ensures
        unique_names(add_files(acc, files, from)->Ok_0),
    decreases files.len() - from,
{
    if from < files.len() {
        lemma_add_file(acc, files[from], 0);
        lemma_add_files(add_file(acc, files[from], 0)->Ok_0, files, from + 1);
    }
}

/// In a merged schema every domain has a name of its own, without regard
/// to case, and every member of a domain has a name of its own.
pub proof fn lemma_merged_names_are_unique(files: Seq<Seq<DomainView>>)
    requires
        merged(files) is Ok,
    ensures
        unique_names(merged(files)->Ok_0.domains),
{
    assert(unique_names(Seq::<DomainView>::empty()));
    lemma_add_files(Seq::empty(), files, 0);
}

/// Appends the members of `new` to `target`, and stops at the first whose
/// name `target` holds already.
fn append_members(target: &mut Vec<Member>, new: Vec<Member>) -> (r: Result<(), Vec<u8>>)
    ensures
        match add_members(old(target).deep_view(), new.deep_view(), 0) {
            Ok(members) => r is Ok && final(target).deep_view() == members,
            Err(name) => r matches Err(n) && n@ == name,
        },
{
    let ghost all = new.deep_view();
    let ghost src = new@;
    let ghost start = target.deep_view();
    assert(all.len() == src.len());
    for m in it: new
        invariant
            it.seq() == src,
            all.len() == src.len(),
            forall|j: int| 0 <= j < src.len() ==> all[j] == (#[trigger] src[j]).deep_view(),
            all == new.deep_view(),
            start == old(target).deep_view(),
            add_members(start, all, 0) == add_members(target.deep_view(), all, it.index() as int),
    {
        let ghost before = *target;
        assert(all[it.index() as int] == m.deep_view());
        if find_member(target, m.name().as_slice()) < target.len() {
            return Err(copy_bytes(m.name().as_slice()));
        }
        target.push(m);
        proof {
            lemma_push_deep_view(before, *target, m);
        }
    }
    Ok(())
}

/// Adds one domain to those merged so far.
#[verifier::rlimit(40)]
fn merge_domain(acc: &mut Vec<Domain>, d: Domain) -> (r: Result<(), DuplicateDefinition>)
    ensures
        match add_domain(old(acc).deep_view(), d.deep_view()) {
            Ok(domains) => r is Ok && final(acc).deep_view() == domains,
            Err(e) => r matches Err(x) && x.deep_view() == e,
        },
{
    let ghost before = acc.deep_view();
    let at = find_domain(acc, d.name.as_slice());
    if at < acc.len() {
        let mut target = acc.remove(at);
        assert(target.deep_view() == before[at as int]);
        let Domain { name: _, description: _, stability: _, dependencies, members } = d;
        match append_members(&mut target.members, members) {
            Ok(()) => {
                let mut dependencies = dependencies;
                let ghost deps_before = target.dependencies.deep_view();
                let ghost deps_new = dependencies.deep_view();
                target.dependencies.append(&mut dependencies);
                assert(target.dependencies.deep_view() =~= deps_before + deps_new);
                let ghost merged_domain = target.deep_view();
                acc.insert(at, target);
                assert(acc.deep_view() =~= before.update(at as int, merged_domain));
                Ok(())
            },
            Err(name) => Err(
                DuplicateDefinition { domain: copy_bytes(target.name.as_slice()), name },
            ),
        }
    } else {
        let Domain { name, description, stability, dependencies, members } = d;
        let mut kept: Vec<Member> = Vec::new();
        assert(kept.deep_view() =~= Seq::<MemberView>::empty());
        match append_members(&mut kept, members) {
            Ok(()) => {
                let added = Domain { name, description, stability, dependencies, members: kept };
                let ghost last = *acc;
                acc.push(added);
                proof {
                    lemma_push_deep_view(last, *acc, added);
                }
                Ok(())
            },
            Err(dup) => Err(DuplicateDefinition { domain: name, name: dup }),
        }
    }
}

/// Merges the domains of the primary file and of the files it pulls in,
/// in the order given, into one schema. A domain that several files hold
/// has the members of all of them; a member that is then defined twice in
/// its domain is an error, which names the domain and the member.
#[verifier::rlimit(40)]
pub fn merge(files: Vec<Vec<Domain>>) -> (r: Result<ProtocolSchema, DuplicateDefinition>)
    ensures
        match merged(files.deep_view()) {
            Ok(schema) => r matches Ok(s) && s.deep_view() == schema,
            Err(e) => r matches Err(x) && x.deep_view() == e,
        },
{
    let mut acc: Vec<Domain> = Vec::new();
    assert(acc.deep_view() =~= Seq::<DomainView>::empty());
    let ghost all = files.deep_view();
    let ghost src = files@;
    assert(all.len() == src.len());
    for file in it: files
        invariant
            it.seq() == src,
            all.len() == src.len(),
            forall|j: int| 0 <= j < src.len() ==> all[j] == (#[trigger] src[j]).deep_view(),
            all == files.deep_view(),
            add_files(Seq::empty(), all, 0) == add_files(acc.deep_view(), all, it.index() as int),
    {
        let ghost whole = file.deep_view();
        let ghost inner = file@;
        let ghost start = acc.deep_view();
        assert(all[it.index() as int] == whole);
        assert(whole.len() == inner.len());
        for d in jt: file
            invariant
                jt.seq() == inner,
                whole.len() == inner.len(),
                forall|j: int| 0 <= j < inner.len() ==> whole[j] == (#[trigger] inner[j]).deep_view(),
                add_file(start, whole, 0) == add_file(acc.deep_view(), whole, jt.index() as int),
                all == files.deep_view(),
                0 <= it.index() < all.len(),
                all[it.index() as int] == whole,
                add_files(Seq::empty(), all, 0) == add_files(start, all, it.index() as int),
        {
            assert(whole[jt.index() as int] == d.deep_view());
            match merge_domain(&mut acc, d) {
                Ok(()) => {},
                Err(e) => {
                    return Err(e);
                },
            }
        }
    }
    Ok(ProtocolSchema { domains: acc })
}

} // verus!
