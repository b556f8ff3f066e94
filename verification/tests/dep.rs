use cdp_tools::pdl::dep::{is_circular_dep, is_circular_name};
use cdp_tools::pdl::error::Error;

#[test]
fn known_circular_types() {
    for (domain, ty) in [
        ("browser", "browsercontextid"),
        ("dom", "backendnodeid"),
        ("dom", "backendnode"),
        ("dom", "nodeid"),
        ("dom", "node"),
        ("dom", "nodetype"),
        ("dom", "pseudotype"),
        ("dom", "rgba"),
        ("dom", "shadowroottype"),
        ("network", "loaderid"),
        ("network", "monotonictime"),
        ("network", "timesinceepoch"),
        ("page", "frameid"),
        ("page", "frame"),
    ] {
        assert!(is_circular_dep(domain, ty), "{domain}.{ty}");
    }
}

#[test]
fn circular_types_without_regard_to_case() {
    assert!(is_circular_dep("DOM", "NodeId"));
    assert!(is_circular_dep("Page", "FrameId"));
    assert!(is_circular_dep("Network", "TimeSinceEpoch"));
    assert!(!is_circular_dep("DOM", "Document"));
    assert!(!is_circular_dep("Page", "Node"));
    assert!(!is_circular_dep("", ""));
    assert!(!is_circular_dep("dom.node", ""));
}

#[test]
fn circular_names_are_exact() {
    assert!(is_circular_name("dom.node"));
    assert!(!is_circular_name("DOM.Node"));
    assert!(!is_circular_name("dom.nod"));
}

#[test]
fn error_keeps_its_message() {
    let e = Error::new("unexpected token");
    assert_eq!(e.message, "unexpected token");
    assert_eq!(e.to_string(), "unexpected token");
}
