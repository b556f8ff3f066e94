use cdp_tools::pdl::bytes::{
    bytes_eq, bytes_lt, copy_bytes, copy_names, copy_range, eq_ignore_case, is_lit, push_bytes,
    push_lit, push_lower, to_lower_byte, to_upper_byte,
};
use cdp_tools::pdl::compile::parse_source;
use cdp_tools::pdl::filter::Config;
use cdp_tools::pdl::generate::plan;
use cdp_tools::pdl::graph::{bad_cycles, reach_from, Edge};
use cdp_tools::pdl::lexer::{class_has, keyword, skip_run, Class};
use cdp_tools::pdl::merge::merge;
use cdp_tools::pdl::model::QualifiedName;
use cdp_tools::pdl::model::{find_domain, find_member, ProtocolSchema, Stability};
use cdp_tools::pdl::names::{plain_of, push_escaped, push_ident, push_module, push_stem};
use cdp_tools::pdl::order::{comes_before, reach_matrix, sort_by_key, SortKey};
use cdp_tools::pdl::references::{count_members, lookup_type};
use cdp_tools::pdl::resolver::AllowList;
use cdp_tools::text::{chars_of, find_dots, parse_u32_range, push_decimal, str_eq};

fn edge(from: usize, to: usize) -> Edge {
    Edge { from, to, referrer: 0, target: 0 }
}

fn schema(source: &str) -> ProtocolSchema {
    merge(vec![parse_source(source.as_bytes()).unwrap().domains]).unwrap()
}

fn with(f: impl Fn(&mut Vec<u8>)) -> String {
    let mut out = b"<".to_vec();
    f(&mut out);
    String::from_utf8(out).unwrap()
}

#[test]
fn byte_strings() {
    assert_eq!(with(|o| push_lit(o, "ab")), "<ab");
    assert_eq!(with(|o| push_bytes(o, b"cd")), "<cd");
    assert_eq!(with(|o| push_lower(o, b"DOM.NodeId_9")), "<dom.nodeid_9");
    assert_eq!(copy_bytes(b"xyz"), b"xyz");
    assert_eq!(copy_range(b"abcdef", 2, 4), b"cd");
    assert_eq!(copy_range(b"abcdef", 3, 3), b"");
    assert_eq!(copy_names(&vec![b"a".to_vec(), b"".to_vec()]), vec![b"a".to_vec(), b"".to_vec()]);
    assert!(bytes_eq(b"", b"") && bytes_eq(b"ab", b"ab"));
    assert!(!bytes_eq(b"ab", b"aB") && !bytes_eq(b"ab", b"abc"));
    assert!(is_lit(b"domain", "domain") && !is_lit(b"domains", "domain"));
    assert_eq!((to_lower_byte(b'A'), to_lower_byte(b'Z'), to_lower_byte(b'a')), (b'a', b'z', b'a'));
    assert_eq!((to_lower_byte(b'@'), to_lower_byte(b'['), to_lower_byte(0xc4)), (b'@', b'[', 0xc4));
    assert_eq!((to_upper_byte(b'a'), to_upper_byte(b'z'), to_upper_byte(b'{')), (b'A', b'Z', b'{'));
    assert!(eq_ignore_case(b"DOM", b"dom") && eq_ignore_case(b"", b""));
    assert!(!eq_ignore_case(b"DOM", b"do") && !eq_ignore_case(b"a_b", b"a-b"));
}

#[test]
fn dictionary_order_of_byte_strings() {
    assert!(bytes_lt(b"", b"a"));
    assert!(bytes_lt(b"a", b"ab"));
    assert!(bytes_lt(b"ab", b"b"));
    assert!(bytes_lt(b"B", b"a"));
    assert!(!bytes_lt(b"a", b"a"));
    assert!(!bytes_lt(b"b", b"ab"));
    assert!(!bytes_lt(b"", b""));
    for (a, b) in [(&b"abc"[..], &b"abd"[..]), (b"", b"x"), (b"x", b"xy"), (b"Z", b"a")] {
        assert_eq!(bytes_lt(a, b), a < b);
        assert_eq!(bytes_lt(b, a), b < a);
    }
}

#[test]
fn identifiers_of_the_target() {
    assert_eq!(plain_of(b"nodeId"), b"nodeId");
    assert_eq!(plain_of(b"first-line"), b"first_line");
    assert_eq!(plain_of(b"2d"), b"_2d");
    assert_eq!(plain_of(b""), b"_");
    assert_eq!(with(|o| push_ident(o, b"type")), "<r#type");
    assert_eq!(with(|o| push_ident(o, b"self")), "<self_");
    assert_eq!(with(|o| push_ident(o, b"Self")), "<Self_");
    assert_eq!(with(|o| push_ident(o, b"super")), "<super_");
    assert_eq!(with(|o| push_ident(o, b"crate")), "<crate_");
    assert_eq!(with(|o| push_ident(o, b"a b")), "<r#a_b");
    assert_eq!(with(|o| push_stem(o, b"getDocument")), "<GetDocument");
    assert_eq!(with(|o| push_stem(o, b"x.y")), "<X_y");
    assert_eq!(with(|o| push_stem(o, b"")), "<_");
    assert_eq!(with(|o| push_module(o, b"DOM")), "<r#dom");
    assert_eq!(with(|o| push_module(o, b"Self")), "<self_");
    assert_eq!(with(|o| push_escaped(o, b"a\"b\\c")), "<a\\\"b\\\\c");
    assert_eq!(with(|o| push_escaped(o, b"plain")), "<plain");
}

#[test]
fn lexer_classes_and_runs() {
    assert!(class_has(Class::Word, b'_') && class_has(Class::Word, b'7') && !class_has(Class::Word, b'-'));
    assert!(class_has(Class::Digit, b'0') && !class_has(Class::Digit, b'a'));
    assert!(class_has(Class::Line, b'"') && !class_has(Class::Line, b'\n'));
    assert!(!class_has(Class::Quoted, b'"') && !class_has(Class::Quoted, b'\n') && class_has(Class::Quoted, b' '));
    assert_eq!(skip_run(b"abc def", 0, Class::Word), 3);
    assert_eq!(skip_run(b"abc def", 3, Class::Word), 3);
    assert_eq!(skip_run(b"abc def", 4, Class::Word), 7);
    assert_eq!(skip_run(b"abc def", 7, Class::Word), 7);
    assert_eq!(skip_run(b"12a", 0, Class::Digit), 2);
    assert_eq!(skip_run(b"ab\ncd", 0, Class::Line), 2);
    for word in [
        "version", "domain", "dependencies", "type", "extends", "enum", "object", "array", "of",
        "command", "event", "parameters", "returns", "redirect", "experimental", "deprecated",
        "optional", "integer", "number", "string", "boolean", "any", "binary",
    ] {
        assert!(keyword(word.as_bytes()), "{word}");
    }
    assert!(!keyword(b"Domain") && !keyword(b"") && !keyword(b"types"));
}

#[test]
fn lookups_in_a_schema() {
    let s = schema("version 1.0\ndomain DOM {\n  type A extends string\n  command b\n}\ndomain Page {\n  event c\n}\n");
    assert_eq!(find_domain(&s.domains, b"dom"), 0);
    assert_eq!(find_domain(&s.domains, b"PAGE"), 1);
    assert_eq!(find_domain(&s.domains, b"Other"), 2);
    assert_eq!(find_member(&s.domains[0].members, b"b"), 1);
    assert_eq!(find_member(&s.domains[0].members, b"B"), 2);
    assert_eq!(lookup_type(&s, b"dom", b"A"), Some((0, 0)));
    assert_eq!(lookup_type(&s, b"DOM", b"b"), None);
    assert_eq!(lookup_type(&s, b"DOM", b"a"), None);
    assert_eq!(lookup_type(&s, b"Page", b"A"), None);
    assert_eq!(lookup_type(&s, b"None", b"A"), None);
    assert_eq!(count_members(&s), 3);
    assert_eq!(s.domains[0].members[1].stability(), Stability { experimental: false, deprecated: false });
}

#[test]
fn allow_list_compares_without_regard_to_case() {
    let q = |d: &str, n: &str| QualifiedName { domain: d.as_bytes().to_vec(), name: n.as_bytes().to_vec() };
    let mut list = AllowList::new();
    assert!(!list.allows(&q("A", "x"), &q("B", "y")));
    list.allow(q("A", "x"), q("B", "y"));
    assert!(list.allows(&q("a", "X"), &q("b", "Y")));
    assert!(!list.allows(&q("B", "y"), &q("A", "x")));
    assert!(!list.allows(&q("A", "x"), &q("B", "z")));
    assert_eq!(list.pairs.len(), 1);
}

#[test]
fn config_keeps_by_tier() {
    let tier = |experimental, deprecated| Stability { experimental, deprecated };
    for (include_experimental, include_deprecated) in [(false, false), (false, true), (true, false), (true, true)] {
        let config = Config { include_experimental, include_deprecated };
        assert!(config.keeps(tier(false, false)));
        assert_eq!(config.keeps(tier(true, false)), include_experimental);
        assert_eq!(config.keeps(tier(false, true)), include_deprecated);
        assert_eq!(config.keeps(tier(true, true)), include_experimental && include_deprecated);
    }
}

#[test]
fn search_marks_what_can_be_reached() {
    // 0 -> 1 -> 2 -> 1, 3 alone
    let edges = vec![edge(0, 1), edge(1, 2), edge(2, 1)];
    let from0 = reach_from(4, &edges, 0);
    assert_eq!(from0.marks, [true, true, true, false]);
    assert!(from0.walks[0].is_empty());
    assert_eq!(from0.walks[1], [0]);
    assert_eq!(from0.walks[2], [0, 1]);
    let from2 = reach_from(4, &edges, 2);
    assert_eq!(from2.marks, [false, true, true, false]);
    assert_eq!(from2.walks[1], [2]);
    assert_eq!(reach_from(4, &edges, 3).marks, [false, false, false, true]);
    assert_eq!(
        reach_matrix(3, &edges),
        [vec![true, true, true], vec![false, true, true], vec![false, true, true]]
    );
}

#[test]
fn cycles_with_an_edge_that_is_not_allowed() {
    let edges = vec![edge(0, 1), edge(1, 2), edge(2, 1), edge(2, 0)];
    assert!(bad_cycles(3, &edges, &vec![true, true, true, true]).is_empty());
    // Only the edge 0 -> 1 is not allowed: it lies on 0 -> 1 -> 2 -> 0.
    let found = bad_cycles(3, &edges, &vec![false, true, true, true]);
    assert_eq!(found, [vec![1, 3, 0]]);
    let found = bad_cycles(3, &edges, &vec![true, false, false, true]);
    assert_eq!(found.len(), 2);
    for cycle in &found {
        for (i, k) in cycle.iter().enumerate() {
            let next = cycle[(i + 1) % cycle.len()];
            assert_eq!(edges[*k].to, edges[next].from);
        }
    }
    // An edge off every cycle may be forbidden.
    let line = vec![edge(0, 1), edge(1, 2)];
    assert!(bad_cycles(3, &line, &vec![false, false]).is_empty());
    assert!(bad_cycles(0, &Vec::new(), &Vec::new()).is_empty());
}

#[test]
fn keys_sort_by_level_leader_and_name() {
    let key = |level, leader: &str, name: &str| SortKey {
        level,
        leader: leader.as_bytes().to_vec(),
        name: name.as_bytes().to_vec(),
    };
    assert!(comes_before(&key(0, "z", "z"), &key(1, "a", "a")));
    assert!(comes_before(&key(1, "a", "z"), &key(1, "b", "a")));
    assert!(comes_before(&key(1, "a", "a"), &key(1, "a", "b")));
    assert!(!comes_before(&key(1, "a", "a"), &key(1, "a", "a")));
    assert!(!comes_before(&key(1, "b", "a"), &key(1, "a", "z")));
    let keys = vec![key(1, "k", "m"), key(0, "a", "a"), key(1, "k", "k"), key(0, "z", "z"), key(0, "a", "a")];
    assert_eq!(sort_by_key(&keys), [1, 4, 3, 2, 0]);
    assert!(sort_by_key(&Vec::new()).is_empty());
}

#[test]
fn plan_orders_the_domains() {
    let s = schema("version 1.0\ndomain Top {\n  type T extends Low.T\n}\ndomain Low {\n  type T extends string\n}\n");
    let (order, reach) = plan(&s);
    assert_eq!(order, [1, 0]);
    assert_eq!(reach, [vec![true, true], vec![false, true]]);
}

#[test]
fn strings_and_numbers() {
    assert_eq!(chars_of("añb"), ['a', 'ñ', 'b']);
    assert!(str_eq("añb", "añb") && !str_eq("a", "b") && !str_eq("a", "ab") && str_eq("", ""));
    assert_eq!(find_dots(&chars_of("1.22..3")), [1, 4, 5]);
    assert!(find_dots(&chars_of("none")).is_empty());
    let mut out = String::from("v");
    push_decimal(&mut out, 1203);
    assert_eq!(out, "v1203");
    let chars = chars_of("ab+42cd");
    assert_eq!(parse_u32_range(&chars, 2, 5), Some(42));
    assert_eq!(parse_u32_range(&chars, 3, 5), Some(42));
    assert_eq!(parse_u32_range(&chars, 2, 6), None);
    assert_eq!(parse_u32_range(&chars, 2, 3), None);
    assert_eq!(parse_u32_range(&chars, 4, 4), None);
}
