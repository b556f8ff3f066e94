use cdp_tools::pdl::compile::{compile, parse_source, CompileError, Output, SourceError};
use cdp_tools::pdl::filter::{filter, Config};
use cdp_tools::pdl::generate::generate;
use cdp_tools::pdl::lexer::{lex, Token, TokenKind};
use cdp_tools::pdl::merge::merge;
use cdp_tools::pdl::model::{
    Member, Primitive, ProtocolSchema, QualifiedName, RefTarget, Stability, TypeKind,
};
use cdp_tools::pdl::parser::{parse, Expected};
use cdp_tools::pdl::references::{canonicalize, check_references, ReferenceError};
use cdp_tools::pdl::resolver::{dependency_edges, resolve, AllowList, ResolveError};

const DOM: &str = r#"version 1.3

# The DOM domain.
# It has nodes.
domain DOM dependencies Runtime, Page {
  # Unique node id.
  type NodeId extends integer
  type Kind extends enum {
    "first-line"
    "after"
  }
  type Node extends object {
    NodeId nodeId
    // a plain comment
    optional array of Node children
    experimental optional string type
  }
  type Ids extends array of NodeId
  type Alias extends NodeId
  type Old redirect DOM.NodeId
  deprecated command getDocument parameters {
    optional integer depth
    Old previous
  } returns {
    Node root
  }
  experimental event documentUpdated
}
"#;

const TWO: &str = r#"version 1.0
domain A {
  type Handle extends string
  command Get returns {
    B.Id id
  }
}
domain B {
  type Id extends string
  type Node extends object {
    A.Handle handle
  }
}
"#;

fn qn(domain: &str, name: &str) -> QualifiedName {
    QualifiedName { domain: domain.as_bytes().to_vec(), name: name.as_bytes().to_vec() }
}

fn allow(pairs: &[((&str, &str), (&str, &str))]) -> AllowList {
    let mut list = AllowList::new();
    for ((rd, rn), (td, tn)) in pairs {
        list.allow(qn(rd, rn), qn(td, tn));
    }
    list
}

fn all_tiers() -> Config {
    Config { include_experimental: true, include_deprecated: true }
}

fn text(out: &Output) -> String {
    String::from_utf8(out.artifact.text.clone()).unwrap()
}

fn names(out: &Output) -> Vec<String> {
    out.artifact
        .definitions
        .iter()
        .map(|q| format!("{}.{}", String::from_utf8_lossy(&q.domain), String::from_utf8_lossy(&q.name)))
        .collect()
}

fn schema(source: &str) -> ProtocolSchema {
    let file = parse_source(source.as_bytes()).unwrap();
    merge(vec![file.domains]).unwrap()
}

fn run(sources: &[&str], list: &AllowList, config: Config) -> Result<Output, CompileError> {
    let sources: Vec<Vec<u8>> = sources.iter().map(|s| s.as_bytes().to_vec()).collect();
    compile(&sources, list, config)
}

fn kinds(tokens: &[Token]) -> Vec<TokenKind> {
    tokens.iter().map(|t| t.kind).collect()
}

#[test]
fn lexer_splits_a_line() {
    let src = b"experimental domain DOM { # doc\n";
    let tokens = lex(src).unwrap();
    assert_eq!(
        kinds(&tokens),
        [
            TokenKind::Keyword,
            TokenKind::Keyword,
            TokenKind::Identifier,
            TokenKind::Punct,
            TokenKind::Doc,
            TokenKind::Eol
        ]
    );
    assert_eq!(&src[tokens[2].start..tokens[2].end], b"DOM");
    assert_eq!(&src[tokens[4].start..tokens[4].end], b"doc");
    assert!(tokens.iter().all(|t| t.line == 1));
}

#[test]
fn lexer_counts_lines_from_one() {
    let src = b"\n\nversion 1.3\n  \n# only a comment\n\"a b\" x_1,";
    let tokens = lex(src).unwrap();
    let lines: Vec<usize> = tokens.iter().map(|t| t.line).collect();
    assert_eq!(lines, [3, 3, 3, 3, 3, 5, 6, 6, 6, 6]);
    assert_eq!(
        kinds(&tokens),
        [
            TokenKind::Keyword,
            TokenKind::Number,
            TokenKind::Punct,
            TokenKind::Number,
            TokenKind::Eol,
            TokenKind::Doc,
            TokenKind::Str,
            TokenKind::Identifier,
            TokenKind::Punct,
            TokenKind::Eol
        ]
    );
    assert_eq!(&src[tokens[6].start..tokens[6].end], b"a b");
    assert_eq!(&src[tokens[5].start..tokens[5].end], b"only a comment");
}

#[test]
fn lexer_drops_plain_comments_and_blank_lines() {
    assert!(lex(b"// nothing\n\n   \t\r\n// more").unwrap().is_empty());
    assert!(lex(b"").unwrap().is_empty());
}

#[test]
fn lexer_rejects_an_unknown_byte() {
    let e = lex(b"version 1.3\ndomain @home and much more text follows here\n").unwrap_err();
    assert_eq!(e.line, 2);
    assert_eq!(e.excerpt, b"@home and much m");
    let e = lex(b"a $\n").unwrap_err();
    assert_eq!((e.line, e.excerpt.as_slice()), (1, &b"$"[..]));
}

#[test]
fn lexer_rejects_an_open_string() {
    let e = lex(b"\n\"open\nnext").unwrap_err();
    assert_eq!(e.line, 2);
    assert_eq!(e.excerpt, b"\"open");
}

#[test]
fn parser_builds_the_tree() {
    let file = parse_source(DOM.as_bytes()).unwrap();
    assert_eq!(file.version, b"1.3");
    assert_eq!(file.domains.len(), 1);
    let dom = &file.domains[0];
    assert_eq!(dom.name, b"DOM");
    assert_eq!(dom.description, b"The DOM domain.\nIt has nodes.");
    assert_eq!(dom.dependencies, [b"Runtime".to_vec(), b"Page".to_vec()]);
    assert_eq!(dom.stability, Stability { experimental: false, deprecated: false });
    assert_eq!(dom.members.len(), 8);
    match &dom.members[0] {
        Member::Type(t) => {
            assert_eq!(t.id, b"NodeId");
            assert_eq!(t.description, b"Unique node id.");
            assert!(matches!(t.kind, TypeKind::Primitive(Primitive::Integer)));
        }
        other => panic!("{other:?}"),
    }
    match &dom.members[1] {
        Member::Type(t) => match &t.kind {
            TypeKind::Enum(v) => assert_eq!(v, &[b"first-line".to_vec(), b"after".to_vec()]),
            other => panic!("{other:?}"),
        },
        other => panic!("{other:?}"),
    }
    match &dom.members[2] {
        Member::Type(t) => match &t.kind {
            TypeKind::Object(props) => {
                assert_eq!(props.len(), 3);
                assert_eq!(props[0].name, b"nodeId");
                assert!(!props[0].optional && !props[0].ty.array);
                assert!(matches!(&props[0].ty.target,
                    RefTarget::Named { domain: None, name } if name == b"NodeId"));
                assert!(props[1].optional && props[1].ty.array);
                assert_eq!(props[2].name, b"type");
                assert!(props[2].optional && props[2].stability.experimental);
                assert!(matches!(props[2].ty.target, RefTarget::Primitive(Primitive::String)));
            }
            other => panic!("{other:?}"),
        },
        other => panic!("{other:?}"),
    }
    assert!(matches!(&dom.members[3], Member::Type(t) if matches!(&t.kind, TypeKind::Array(r) if !r.array)));
    assert!(matches!(&dom.members[4], Member::Type(t) if matches!(&t.kind, TypeKind::Reference(_))));
    assert!(matches!(&dom.members[5], Member::Type(t)
        if matches!(&t.kind, TypeKind::Redirect { domain, name } if domain == b"DOM" && name == b"NodeId")));
    match &dom.members[6] {
        Member::Command(c) => {
            assert_eq!(c.name, b"getDocument");
            assert!(c.stability.deprecated && !c.stability.experimental);
            assert_eq!(c.parameters.len(), 2);
            assert_eq!(c.returns.len(), 1);
            assert!(c.redirect.is_none());
        }
        other => panic!("{other:?}"),
    }
    match &dom.members[7] {
        Member::Event(e) => {
            assert_eq!(e.name, b"documentUpdated");
            assert!(e.stability.experimental);
            assert!(e.parameters.is_empty());
        }
        other => panic!("{other:?}"),
    }
}

#[test]
fn parser_reads_redirected_commands_and_qualified_names() {
    let src = "version 1.0\ndomain D {\n  command c redirect Other.d\n  event e parameters {\n    array of X.Y ys\n  }\n}\n";
    let file = parse_source(src.as_bytes()).unwrap();
    match &file.domains[0].members[0] {
        Member::Command(c) => assert!(matches!(&c.redirect,
            Some(q) if q.domain == b"Other" && q.name == b"d")),
        other => panic!("{other:?}"),
    }
    match &file.domains[0].members[1] {
        Member::Event(e) => {
            assert!(e.parameters[0].ty.array);
            assert!(matches!(&e.parameters[0].ty.target,
                RefTarget::Named { domain: Some(d), name } if d == b"X" && name == b"Y"));
        }
        other => panic!("{other:?}"),
    }
}

fn parse_error(src: &str) -> (usize, Expected, String) {
    let tokens = lex(src.as_bytes()).unwrap();
    let e = parse(src.as_bytes(), &tokens).unwrap_err();
    (e.line, e.expected, String::from_utf8(e.found).unwrap())
}

#[test]
fn parser_reports_the_first_violation() {
    assert_eq!(parse_error(""), (0, Expected::Version, String::new()));
    assert_eq!(parse_error("domain X {\n}\n"), (1, Expected::Version, "domain".into()));
    assert_eq!(parse_error("version x\n"), (1, Expected::Number, "x".into()));
    assert_eq!(parse_error("version 1 3\n"), (1, Expected::Dot, "3".into()));
    assert_eq!(parse_error("version 1.3 4\n"), (1, Expected::EndOfLine, "4".into()));
    assert_eq!(parse_error("version 1.3\ntype X extends string\n"), (2, Expected::Domain, "type".into()));
    assert_eq!(parse_error("version 1.3\ndomain {\n}\n"), (2, Expected::Name, "{".into()));
    assert_eq!(parse_error("version 1.3\ndomain X\n"), (2, Expected::OpenBrace, String::new()));
    assert_eq!(parse_error("version 1.3\ndomain X {\n  foo\n}\n"), (3, Expected::Definition, "foo".into()));
    assert_eq!(parse_error("version 1.3\ndomain X {\n  optional type T extends string\n}\n"),
        (3, Expected::Definition, "optional".into()));
    assert_eq!(parse_error("version 1.3\ndomain X {\n  type T string\n}\n"), (3, Expected::Extends, "string".into()));
    assert_eq!(parse_error("version 1.3\ndomain X {\n  type T extends array string\n}\n"), (3, Expected::Of, "string".into()));
    assert_eq!(parse_error("version 1.3\ndomain X {\n  type T extends enum {\n    a\n  }\n}\n"),
        (4, Expected::Variant, "a".into()));
    assert_eq!(parse_error("version 1.3\ndomain X {\n  type T redirect Y\n}\n"), (3, Expected::Dot, String::new()));
    assert_eq!(parse_error("version 1.3\ndomain X {\n  command c redirect Y\n}\n"), (3, Expected::Dot, String::new()));
    assert_eq!(parse_error("version 1.3\ndomain X {\n  command c redirect Y.\n}\n"), (3, Expected::Name, String::new()));
    assert_eq!(parse_error("version 1.3\ndomain X {\n  type T extends object {\n    string\n  }\n}\n"),
        (4, Expected::Name, String::new()));
    assert_eq!(parse_error("version 1.3\ndomain X {\n  event e parameters\n}\n"), (3, Expected::OpenBrace, String::new()));
    assert_eq!(parse_error("version 1.3\ndomain X {\n  type T extends string"), (3, Expected::CloseBrace, String::new()));
    assert_eq!(parse_error("version 1.3\ndomain X {\n  type T extends object {\n    string s\n    # more"),
        (5, Expected::CloseBrace, String::new()));
    assert_eq!(parse_error("version 1.3\ndomain X {\n  type T extends enum {\n    \"a\"\n"),
        (4, Expected::CloseBrace, String::new()));
    assert_eq!(parse_error("version 1.3\ndomain X dependencies {\n}\n"), (2, Expected::Name, "{".into()));
}

#[test]
fn merger_unions_domains_of_several_files() {
    let a = parse_source(b"version 1.0\ndomain DOM {\n  type A extends string\n}\ndomain Page {\n  type P extends string\n}\n").unwrap();
    let b = parse_source(b"version 2.0\ndomain dom dependencies Page {\n  type B extends string\n}\n").unwrap();
    let merged = merge(vec![a.domains, b.domains]).unwrap();
    assert_eq!(merged.domains.len(), 2);
    assert_eq!(merged.domains[0].name, b"DOM");
    assert_eq!(merged.domains[0].dependencies, [b"Page".to_vec()]);
    let members: Vec<&[u8]> = merged.domains[0].members.iter().map(|m| m.name().as_slice()).collect();
    assert_eq!(members, [&b"A"[..], &b"B"[..]]);
    assert_eq!(merged.domains[1].name, b"Page");
    assert!(merge(Vec::new()).unwrap().domains.is_empty());
}

#[test]
fn merger_rejects_a_duplicate_member() {
    let a = parse_source(b"version 1.0\ndomain DOM {\n  type A extends string\n}\n").unwrap();
    let b = parse_source(b"version 1.0\ndomain Dom {\n  command B\n  event A\n}\n").unwrap();
    let e = merge(vec![a.domains, b.domains]).unwrap_err();
    assert_eq!((e.domain.as_slice(), e.name.as_slice()), (&b"DOM"[..], &b"A"[..]));
    let c = parse_source(b"version 1.0\ndomain X {\n  type T extends string\n  type T extends integer\n}\n").unwrap();
    let e = merge(vec![c.domains]).unwrap_err();
    assert_eq!((e.domain.as_slice(), e.name.as_slice()), (&b"X"[..], &b"T"[..]));
}

#[test]
fn resolver_rewrites_references_and_drops_redirects() {
    let resolved = canonicalize(&schema(DOM)).unwrap();
    let dom = &resolved.domains[0];
    assert_eq!(dom.members.len(), 7);
    assert!(dom.members.iter().all(|m| m.name().as_slice() != b"Old"));
    match &dom.members[2] {
        Member::Type(t) => match &t.kind {
            TypeKind::Object(props) => assert!(matches!(&props[0].ty.target,
                RefTarget::Named { domain: Some(d), name } if d == b"DOM" && name == b"NodeId")),
            other => panic!("{other:?}"),
        },
        other => panic!("{other:?}"),
    }
    match &dom.members[5] {
        Member::Command(c) => assert!(matches!(&c.parameters[1].ty.target,
            RefTarget::Named { domain: Some(d), name } if d == b"DOM" && name == b"NodeId")),
        other => panic!("{other:?}"),
    }
}

#[test]
fn resolver_reports_a_reference_without_a_type() {
    let s = schema("version 1.0\ndomain A {\n  type T extends object {\n    string ok\n    Missing gone\n  }\n}\n");
    assert!(matches!(canonicalize(&s), Err(ReferenceError::Unresolved(n))
        if n.domain == b"A" && n.name == b"Missing"));
    let s = schema("version 1.0\ndomain A {\n  event e parameters {\n    B.T x\n  }\n}\n");
    assert!(matches!(resolve(&s, &AllowList::new()).unwrap_err().as_slice(),
        [ResolveError::UnresolvedType(n)] if n.domain == b"B" && n.name == b"T"));
    // A command is no type.
    let s = schema("version 1.0\ndomain A {\n  command c\n  type T extends c\n}\n");
    assert!(matches!(canonicalize(&s), Err(ReferenceError::Unresolved(n))
        if n.domain == b"A" && n.name == b"c"));
    // A redirect that leads nowhere.
    let s = schema("version 1.0\ndomain A {\n  type T redirect B.U\n}\n");
    assert!(matches!(canonicalize(&s), Err(ReferenceError::Unresolved(n))
        if n.domain == b"B" && n.name == b"U"));
}

#[test]
fn resolver_follows_redirect_chains() {
    let s = schema("version 1.0\ndomain A {\n  type One redirect a.Two\n  type Two redirect B.Three\n  type Use extends One\n}\ndomain B {\n  type Three extends string\n}\n");
    let resolved = canonicalize(&s).unwrap();
    assert_eq!(resolved.domains[0].members.len(), 1);
    assert!(matches!(&resolved.domains[0].members[0], Member::Type(t)
        if matches!(&t.kind, TypeKind::Reference(r)
            if matches!(&r.target, RefTarget::Named { domain: Some(d), name } if d == b"B" && name == b"Three"))));
}

#[test]
fn resolver_reports_a_redirect_cycle() {
    let s = schema("version 1.0\ndomain A {\n  type One redirect A.Two\n  type Two redirect A.One\n}\n");
    assert!(matches!(resolve(&s, &AllowList::new()).unwrap_err().as_slice(),
        [ResolveError::RedirectCycle(one), ResolveError::RedirectCycle(two)]
        if one.domain == b"A" && one.name == b"Two" && two.domain == b"A" && two.name == b"One"));
    let s = schema("version 1.0\ndomain A {\n  type Use extends Self\n  type Self redirect A.Self\n}\n");
    assert!(matches!(canonicalize(&s), Err(ReferenceError::RedirectCycle(n))
        if n.domain == b"A" && n.name == b"Self"));
}

#[test]
fn resolver_reports_all_the_references_without_a_type() {
    let s = schema("version 1.0\ndomain A {\n  type T extends object {\n    Missing one\n    string fine\n    optional array of B.Gone two\n  }\n  command c parameters {\n    T ok\n  } returns {\n    Lost three\n  }\n  type Loop redirect A.Loop\n}\n");
    let errors = check_references(&s);
    let seen: Vec<String> = errors
        .iter()
        .map(|e| match e {
            ReferenceError::Unresolved(n) => format!("no {}", String::from_utf8_lossy(&n.name)),
            ReferenceError::RedirectCycle(n) => format!("cycle {}", String::from_utf8_lossy(&n.name)),
        })
        .collect();
    assert_eq!(seen, ["no Missing", "no Gone", "no Lost", "cycle Loop"]);
    let all = resolve(&s, &AllowList::new()).unwrap_err();
    assert_eq!(all.len(), 4);
    assert!(matches!(&all[0], ResolveError::UnresolvedType(n) if n.name == b"Missing"));
    assert!(matches!(&all[3], ResolveError::RedirectCycle(n) if n.name == b"Loop"));
    // The compilation reports the first of them.
    let src = "version 1.0\ndomain A {\n  type T extends object {\n    Missing one\n    B.Gone two\n  }\n}\n";
    assert!(matches!(run(&[src], &AllowList::new(), all_tiers()),
        Err(CompileError::UnresolvedType(n)) if n.domain == b"A" && n.name == b"Missing"));
    assert!(check_references(&schema(DOM)).is_empty());
}

#[test]
fn resolver_reports_every_cycle_that_is_not_allowed() {
    let s = schema(TWO);
    let errors = resolve(&s, &AllowList::new()).unwrap_err();
    assert_eq!(errors.len(), 2);
    for e in &errors {
        match e {
            ResolveError::CircularDependency(path) => assert_eq!(path.len(), 2),
            other => panic!("{other:?}"),
        }
    }
    let list = allow(&[(("A", "Get"), ("B", "Id"))]);
    let errors = resolve(&s, &list).unwrap_err();
    assert!(matches!(errors.as_slice(), [ResolveError::CircularDependency(path)]
        if path.last().unwrap().referrer.name == b"Node"));
}

#[test]
fn dependency_graph_has_an_edge_per_cross_domain_reference() {
    let resolved = canonicalize(&schema(TWO)).unwrap();
    let edges = dependency_edges(&resolved);
    let got: Vec<(usize, usize, usize, usize)> =
        edges.iter().map(|e| (e.from, e.to, e.referrer, e.target)).collect();
    assert_eq!(got, [(0, 1, 1, 0), (1, 0, 1, 0)]);
    assert!(dependency_edges(&canonicalize(&schema(DOM)).unwrap()).is_empty());
}

#[test]
fn allowed_cycle_compiles_with_forward_references() {
    let list = allow(&[(("A", "Get"), ("B", "Id")), (("b", "node"), ("a", "handle"))]);
    let out = run(&[TWO], &list, all_tiers()).unwrap();
    assert_eq!(names(&out), ["A.Handle", "A.Get", "B.Id", "B.Node"]);
    let expected = r##"pub mod r#a {
    pub type r#Handle = String;
    pub struct GetParams {
    }
    pub struct GetReturns {
        #[serde(rename = "id")]
        pub r#id: Box<super::r#b::r#Id>,
    }
    impl Command for GetParams {
        const IDENTIFIER: &'static str = "A.Get";
        type Response = GetReturns;
    }
}
pub mod r#b {
    pub type r#Id = String;
    pub struct r#Node {
        #[serde(rename = "handle")]
        pub r#handle: Box<super::r#a::r#Handle>,
    }
}
"##;
    assert_eq!(text(&out), expected);
    assert_eq!(out.revision, b"1.0");
}

#[test]
fn cycle_with_one_edge_not_allowed_fails() {
    for list in [
        allow(&[(("A", "Get"), ("B", "Id"))]),
        allow(&[(("B", "Node"), ("A", "Handle"))]),
        AllowList::new(),
    ] {
        match run(&[TWO], &list, all_tiers()) {
            Err(CompileError::CircularDependency(path)) => {
                assert_eq!(path.len(), 2);
                let mut domains: Vec<&[u8]> = path.iter().map(|p| p.referrer.domain.as_slice()).collect();
                domains.sort();
                assert_eq!(domains, [&b"A"[..], &b"B"[..]]);
                for (i, pair) in path.iter().enumerate() {
                    let next = &path[(i + 1) % path.len()];
                    assert_eq!(pair.target.domain, next.referrer.domain);
                }
                let last = path.last().unwrap();
                assert!(!list.allows(&last.referrer, &last.target));
            }
            other => panic!("{other:?}"),
        }
    }
}

#[test]
fn acyclic_dependencies_need_no_allow_list() {
    let src = "version 1.0\ndomain Zed {\n  type Z extends Base.T\n}\ndomain Base {\n  type T extends string\n}\ndomain Mid {\n  type M extends array of Base.T\n  type N extends Zed.Z\n}\n";
    let out = run(&[src], &AllowList::new(), all_tiers()).unwrap();
    // What is depended on comes first; on one level the names decide.
    assert_eq!(names(&out), ["Base.T", "Zed.Z", "Mid.M", "Mid.N"]);
    assert!(text(&out).contains("    pub type r#M = Vec<super::r#base::r#T>;\n"));
    assert!(!text(&out).contains("Box<"));
}

#[test]
fn domains_of_one_level_come_in_the_order_of_their_names() {
    let src = "version 1.0\ndomain b {\n}\ndomain C {\n}\ndomain A {\n}\ndomain a {\n}\n";
    let out = run(&[src], &AllowList::new(), all_tiers()).unwrap();
    // `A` and `a` are one domain; the order is that of the bytes.
    assert_eq!(text(&out), "pub mod r#a {\n}\npub mod r#c {\n}\npub mod r#b {\n}\n");
}

#[test]
fn groups_stay_together_and_follow_what_they_need() {
    // M and K need each other; both need Z; A needs nothing and nothing needs it.
    let src = "version 1.0\ndomain M {\n  type T extends K.T\n  type U extends Z.T\n}\ndomain A {\n  type T extends string\n}\ndomain K {\n  type T extends array of M.T\n}\ndomain Z {\n  type T extends string\n}\n";
    let list = allow(&[(("M", "T"), ("K", "T")), (("K", "T"), ("M", "T"))]);
    let out = run(&[src], &list, all_tiers()).unwrap();
    assert_eq!(names(&out), ["A.T", "Z.T", "K.T", "M.T", "M.U"]);
    assert!(text(&out).contains("    pub type r#T = Vec<Box<super::r#m::r#T>>;\n"));
    assert!(text(&out).contains("    pub type r#T = Box<super::r#k::r#T>;\n"));
    assert!(text(&out).contains("    pub type r#U = super::r#z::r#T;\n"));
}

#[test]
fn deprecated_command_is_kept_only_on_request() {
    let src = "version 1.0\ndomain Page {\n  deprecated command reload\n  command close\n}\n";
    let without = run(&[src], &AllowList::new(), Config::default()).unwrap();
    assert_eq!(names(&without), ["Page.close"]);
    assert!(!text(&without).contains("reload"));
    let with = run(&[src], &AllowList::new(), all_tiers()).unwrap();
    assert_eq!(names(&with), ["Page.reload", "Page.close"]);
    assert!(text(&with).contains("    impl Command for ReloadParams {\n        const IDENTIFIER: &'static str = \"Page.reload\";\n        type Response = ReloadReturns;\n    }\n"));
}

#[test]
fn required_reference_to_a_pruned_type_fails() {
    let src = "version 1.0\ndomain D {\n  experimental type E extends string\n  type T extends object {\n    E gone\n  }\n}\n";
    let stable = Config { include_experimental: false, include_deprecated: true };
    match run(&[src], &AllowList::new(), stable) {
        Err(CompileError::PrunedDependency(e)) => {
            assert_eq!((e.referrer.domain.as_slice(), e.referrer.name.as_slice()), (&b"D"[..], &b"T"[..]));
            assert_eq!((e.target.domain.as_slice(), e.target.name.as_slice()), (&b"D"[..], &b"E"[..]));
        }
        other => panic!("{other:?}"),
    }
    assert!(run(&[src], &AllowList::new(), all_tiers()).is_ok());
}

#[test]
fn optional_reference_to_a_pruned_type_is_dropped() {
    let src = "version 1.0\nexperimental domain X {\n  type E extends string\n}\ndomain D {\n  type T extends object {\n    optional X.E gone\n    string stays\n    deprecated string old\n  }\n  command c returns {\n    optional array of X.E list\n  }\n}\n";
    let stable = Config { include_experimental: false, include_deprecated: false };
    let out = run(&[src], &AllowList::new(), stable).unwrap();
    assert_eq!(names(&out), ["D.T", "D.c"]);
    let expected = r##"pub mod r#d {
    pub struct r#T {
        #[serde(rename = "stays")]
        pub r#stays: String,
    }
    pub struct CParams {
    }
    pub struct CReturns {
    }
    impl Command for CParams {
        const IDENTIFIER: &'static str = "D.c";
        type Response = CReturns;
    }
}
"##;
    assert_eq!(text(&out), expected);
}

#[test]
fn alias_of_a_pruned_type_fails() {
    let src = "version 1.0\ndomain D {\n  deprecated type Old extends string\n  type List extends array of Old\n}\n";
    assert!(matches!(run(&[src], &AllowList::new(), Config::default()),
        Err(CompileError::PrunedDependency(e)) if e.referrer.name == b"List" && e.target.name == b"Old"));
}

#[test]
fn filter_is_monotonic_in_deprecated() {
    let resolved = canonicalize(&schema(DOM)).unwrap();
    for experimental in [false, true] {
        let low = filter(&resolved, Config { include_experimental: experimental, include_deprecated: false }).unwrap();
        let high = filter(&resolved, Config { include_experimental: experimental, include_deprecated: true }).unwrap();
        let low = generate(&low).definitions;
        let high = generate(&high).definitions;
        for q in &low {
            assert!(high.iter().any(|h| h.domain == q.domain && h.name == q.name));
        }
        assert!(low.len() < high.len());
    }
}

#[test]
fn filtered_output_refers_to_present_types_only() {
    let resolved = canonicalize(&schema(DOM)).unwrap();
    let pruned = filter(&resolved, Config { include_experimental: false, include_deprecated: false }).unwrap();
    assert!(canonicalize(&pruned).is_ok());
    let dom = &pruned.domains[0];
    match &dom.members[2] {
        Member::Type(t) => match &t.kind {
            TypeKind::Object(props) => assert_eq!(props.len(), 2),
            other => panic!("{other:?}"),
        },
        other => panic!("{other:?}"),
    }
}

#[test]
fn generator_emits_every_shape() {
    let out = run(&[DOM], &AllowList::new(), all_tiers()).unwrap();
    let expected = r##"pub mod r#dom {
    pub type r#NodeId = i64;
    pub enum r#Kind {
        #[serde(rename = "first-line")]
        r#first_line,
        #[serde(rename = "after")]
        r#after,
    }
    pub struct r#Node {
        #[serde(rename = "nodeId")]
        pub r#nodeId: r#NodeId,
        #[serde(rename = "children")]
        pub r#children: Option<Vec<r#Node>>,
        #[serde(rename = "type")]
        pub r#type: Option<String>,
    }
    pub type r#Ids = Vec<r#NodeId>;
    pub type r#Alias = r#NodeId;
    pub struct GetDocumentParams {
        #[serde(rename = "depth")]
        pub r#depth: Option<i64>,
        #[serde(rename = "previous")]
        pub r#previous: r#NodeId,
    }
    pub struct GetDocumentReturns {
        #[serde(rename = "root")]
        pub r#root: r#Node,
    }
    impl Command for GetDocumentParams {
        const IDENTIFIER: &'static str = "DOM.getDocument";
        type Response = GetDocumentReturns;
    }
    pub struct DocumentUpdatedEvent {
    }
    impl Event for DocumentUpdatedEvent {
        const IDENTIFIER: &'static str = "DOM.documentUpdated";
    }
}
"##;
    assert_eq!(text(&out), expected);
    assert_eq!(out.revision, b"1.3");
    assert_eq!(
        names(&out),
        ["DOM.NodeId", "DOM.Kind", "DOM.Node", "DOM.Ids", "DOM.Alias", "DOM.getDocument", "DOM.documentUpdated"]
    );
}

#[test]
fn generator_fits_names_to_the_target() {
    let src = "version 1.0\ndomain self {\n  type T extends enum {\n    \"9 lives\"\n    \"a\\b\"\n    \"\"\n    \"-\"\n    \"crate\"\n  }\n  command 1st\n}\n";
    let e = run(&[src], &AllowList::new(), all_tiers()).unwrap_err();
    // A name is a word: it cannot start with a digit.
    assert!(matches!(e, CompileError::Source { file: 0, error: SourceError::Parse(error) }
        if error.expected == Expected::Name));
    let src = src.replace("  command 1st\n", "  command _x-y\n").replace("_x-y", "_x");
    let out = run(&[src.as_str()], &AllowList::new(), all_tiers()).unwrap();
    let expected = "pub mod self_ {\n    pub enum r#T {\n        #[serde(rename = \"9 lives\")]\n        r#_9_lives,\n        #[serde(rename = \"a\\\\b\")]\n        r#a_b,\n        #[serde(rename = \"\")]\n        __,\n        #[serde(rename = \"-\")]\n        __,\n        #[serde(rename = \"crate\")]\n        crate_,\n    }\n    pub struct _xParams {\n    }\n    pub struct _xReturns {\n    }\n    impl Command for _xParams {\n        const IDENTIFIER: &'static str = \"self._x\";\n        type Response = _xReturns;\n    }\n}\n";
    assert_eq!(text(&out), expected);
}

#[test]
fn compiling_twice_gives_the_same_bytes() {
    let list = allow(&[(("A", "Get"), ("B", "Id")), (("B", "Node"), ("A", "Handle"))]);
    for config in [Config::default(), all_tiers()] {
        let first = run(&[TWO, DOM], &list, config).unwrap();
        let second = run(&[TWO, DOM], &list, config).unwrap();
        assert_eq!(first.artifact.text, second.artifact.text);
        assert_eq!(names(&first), names(&second));
        assert_eq!(first.revision, second.revision);
    }
}

#[test]
fn compile_names_the_file_of_a_bad_source() {
    assert!(matches!(run(&[DOM, "version 1.0\n@"], &AllowList::new(), all_tiers()),
        Err(CompileError::Source { file: 1, error: SourceError::Lex(error) })
            if error.line == 2 && error.excerpt == b"@"));
    assert!(matches!(run(&[DOM, TWO, "version"], &AllowList::new(), all_tiers()),
        Err(CompileError::Source { file: 2, error: SourceError::Parse(error) })
            if error.expected == Expected::Number));
    assert!(matches!(parse_source(b"?"), Err(SourceError::Lex(_))));
    assert!(matches!(parse_source(b"x"), Err(SourceError::Parse(_))));
    assert!(matches!(run(&[DOM, DOM], &AllowList::new(), all_tiers()),
        Err(CompileError::DuplicateDefinition(e)) if e.domain == b"DOM" && e.name == b"NodeId"));
    let empty = run(&[], &AllowList::new(), all_tiers()).unwrap();
    assert!(empty.artifact.text.is_empty() && empty.revision.is_empty());
}

#[test]
fn default_config_takes_experimental_and_leaves_deprecated() {
    assert_eq!(Config::default(), Config { include_experimental: true, include_deprecated: false });
}

const BROWSER: &str = r#"version 1.3

# Exposes the document.
domain DOM dependencies Runtime {
  # Unique DOM node identifier.
  type NodeId extends integer
  type Node extends object {
    NodeId nodeId
    optional Page.FrameId frameId
    optional array of Node children
  }
  command describeNode parameters {
    optional NodeId nodeId
  } returns {
    Node node
  }
  event documentUpdated
}

# Actions and events of the inspected page.
domain Page dependencies DOM, Network {
  type FrameId extends string
  type Frame extends object {
    FrameId id
    Network.LoaderId loaderId
  }
  experimental command getLayout returns {
    array of DOM.NodeId nodes
  }
}
"#;

const NETWORK: &str = r#"version 1.3

domain Network {
  type LoaderId extends string
  deprecated type Initiator extends object {
    optional DOM.NodeId node
  }
}

experimental domain Tracing {
  event dataCollected parameters {
    array of any value
  }
}
"#;

#[test]
fn a_protocol_in_two_files() {
    let list = allow(&[
        (("dom", "node"), ("page", "frameid")),
        (("page", "getlayout"), ("dom", "nodeid")),
        (("page", "frame"), ("network", "loaderid")),
        (("network", "initiator"), ("dom", "nodeid")),
    ]);
    let out = run(&[BROWSER, NETWORK], &list, Config::default()).unwrap();
    assert_eq!(out.revision, b"1.3");
    assert_eq!(
        names(&out),
        [
            "Network.LoaderId",
            "Tracing.dataCollected",
            "DOM.NodeId",
            "DOM.Node",
            "DOM.describeNode",
            "DOM.documentUpdated",
            "Page.FrameId",
            "Page.Frame",
            "Page.getLayout",
        ]
    );
    let got = text(&out);
    assert!(got.contains("        pub r#frameId: Option<Box<super::r#page::r#FrameId>>,\n"));
    assert!(got.contains("        pub r#nodes: Vec<Box<super::r#dom::r#NodeId>>,\n"));
    assert!(got.contains("        pub r#loaderId: super::r#network::r#LoaderId,\n"));
    assert!(got.contains("        pub r#value: Vec<Value>,\n"));
    assert!(!got.contains("Initiator"));

    // With what is deprecated, Network refers back to DOM, and the three
    // domains are one group.
    let out = run(&[BROWSER, NETWORK], &list, all_tiers()).unwrap();
    let got = text(&out);
    assert!(got.contains("        pub r#loaderId: Box<super::r#network::r#LoaderId>,\n"));
    assert!(got.contains("        pub r#node: Option<Box<super::r#dom::r#NodeId>>,\n"));
    assert_eq!(
        names(&out),
        [
            "DOM.NodeId",
            "DOM.Node",
            "DOM.describeNode",
            "DOM.documentUpdated",
            "Network.LoaderId",
            "Network.Initiator",
            "Page.FrameId",
            "Page.Frame",
            "Page.getLayout",
            "Tracing.dataCollected",
        ]
    );

    // The cycles are judged on the whole schema, whatever is pruned later:
    // a list without the reference of the deprecated type is not enough.
    let short = allow(&[
        (("dom", "node"), ("page", "frameid")),
        (("page", "getlayout"), ("dom", "nodeid")),
        (("page", "frame"), ("network", "loaderid")),
    ]);
    for config in [Config::default(), all_tiers()] {
        match run(&[BROWSER, NETWORK], &short, config) {
            Err(CompileError::CircularDependency(path)) => {
                let last = path.last().unwrap();
                assert_eq!(last.referrer.name, b"Initiator");
                assert_eq!(last.target.name, b"NodeId");
            }
            other => panic!("{other:?}"),
        }
    }

    // Without what is experimental no cycle is left in the bindings, and
    // no box.
    let stable = Config { include_experimental: false, include_deprecated: false };
    let out = run(&[BROWSER, NETWORK], &list, stable).unwrap();
    assert_eq!(
        names(&out),
        [
            "Network.LoaderId",
            "Page.FrameId",
            "Page.Frame",
            "DOM.NodeId",
            "DOM.Node",
            "DOM.describeNode",
            "DOM.documentUpdated",
        ]
    );
    assert!(text(&out).contains("        pub r#frameId: Option<super::r#page::r#FrameId>,\n"));
    assert!(!text(&out).contains("Box<"));
}
