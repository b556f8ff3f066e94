//! The types of the protocol of the browser that are known to take part in
//! reference cycles. The list is knowledge about that protocol: references
//! to these types are what an allow list for it is made of.

use vstd::prelude::*;

use crate::text::str_eq;

verus! {

/// The lower-case form of a string, as the standard library computes it.
pub uninterp spec fn lowercase(s: Seq<char>) -> Seq<char>;

/// Calls `str::to_lowercase`, which maps each character to its lower-case
/// equivalent by the rules of Unicode. The result is a function of the
/// characters of `s` alone.
#[verifier::external_body]
fn to_lowercase(s: &str) -> (r: String)
    ensures
        r@ == lowercase(s@),
{
    s.to_lowercase()
}

/// The types that can cause circular dependency issues, each as its domain,
/// a dot and its name, in lower case.
pub open spec fn circular_deps() -> Seq<Seq<char>> {
    seq![
        "browser.browsercontextid"@,
        "dom.backendnodeid"@,
        "dom.backendnode"@,
        "dom.nodeid"@,
        "dom.node"@,
        "dom.nodetype"@,
        "dom.pseudotype"@,
        "dom.rgba"@,
        "dom.shadowroottype"@,
        "network.loaderid"@,
        "network.monotonictime"@,
        "network.timesinceepoch"@,
        "page.frameid"@,
        "page.frame"@,
    ]
}

/// Whether `name`, a domain, a dot and a type in lower case, is one of the
/// types that can cause circular dependency issues.
pub fn is_circular_name(name: &str) -> (r: bool)
    ensures
        r == circular_deps().contains(name@),
{
    let table = [
        "browser.browsercontextid",
        "dom.backendnodeid",
        "dom.backendnode",
        "dom.nodeid",
        "dom.node",
        "dom.nodetype",
        "dom.pseudotype",
        "dom.rgba",
        "dom.shadowroottype",
        "network.loaderid",
        "network.monotonictime",
        "network.timesinceepoch",
        "page.frameid",
        "page.frame",
    ];
    assert(table@.len() == 14);
    assert(table@.map_values(|s: &str| s@) =~= circular_deps());
    let mut i: usize = 0;
    while i < 14
        invariant
            i <= 14,
            table@.len() == 14,
            table@.map_values(|s: &str| s@) == circular_deps(),
            forall|j: int| 0 <= j < i ==> circular_deps()[j] != name@,
        decreases 14 - i,
    {
        assert(table@.map_values(|s: &str| s@)[i as int] == table@[i as int]@);
        if str_eq(table[i], name) {
            assert(circular_deps()[i as int] == name@);
            return true;
        }
        i += 1;
    }
    false
}

/// Returns whether or not a type will cause circular dependency issues:
/// the domain and the type are compared without regard to case.
pub fn is_circular_dep(dty: &str, ty_str: &str) -> (r: bool)
    ensures
        r == circular_deps().contains(lowercase(dty@) + "."@ + lowercase(ty_str@)),
{
    let mut name = to_lowercase(dty);
    name.append(".");
    let ty = to_lowercase(ty_str);
    name.append(ty.as_str());
    is_circular_name(name.as_str())
}

} // verus!
