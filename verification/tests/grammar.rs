use join_tree::{Attribute, GrammarError, JoinType, Node, Op};

fn node(name: &str, extra_info: &str) -> Node {
    Node {
        name: name.to_string(),
        timing_bits: 0,
        cardinality: 0,
        extra_info: extra_info.to_string(),
        children: Vec::new(),
        attr: None,
    }
}

fn attr(table: &str, name: &str) -> Attribute {
    Attribute { table_name: table.to_string(), attr_name: name.to_string() }
}

fn enrich(name: &str, extra_info: &str) -> Result<Node, GrammarError> {
    join_tree::parse_tree_extra_info(node(name, extra_info))
}

#[test]
fn hash_join_inner_single_predicate() {
    let out = enrich("HASH_JOIN", "INNER\na.x=b.y\n").unwrap();
    match out.attr {
        Some(Op::Join(j)) => {
            assert_eq!(j.join_type, JoinType::Inner);
            assert_eq!(j.equalizers.len(), 1);
            assert_eq!(j.equalizers[0].left_attr, attr("a", "x"));
            assert_eq!(j.equalizers[0].right_attr, attr("b", "y"));
        },
        other => panic!("expected a join, got {:?}", other),
    }
}

#[test]
fn hash_join_mark_leaves_node_untouched() {
    let out = enrich("HASH_JOIN", "MARK\n").unwrap();
    assert!(out.attr.is_none());
}

#[test]
fn hash_join_unknown_tag_is_fatal() {
    let err = enrich("HASH_JOIN", "BOGUS\n").unwrap_err();
    assert_eq!(err, GrammarError::UnknownJoinType { tag: "BOGUS".to_string() });
}

#[test]
fn hash_join_empty_annotation_is_fatal() {
    let err = enrich("HASH_JOIN", "\n\n").unwrap_err();
    assert_eq!(err, GrammarError::MissingJoinType);
}

#[test]
fn hash_join_predicate_without_equals_is_fatal() {
    let err = enrich("HASH_JOIN", "INNER\nfoo\n").unwrap_err();
    assert_eq!(err, GrammarError::MissingEquality { predicate: "foo".to_string() });
}

#[test]
fn hash_join_unqualified_side_names_itself() {
    let out = enrich("HASH_JOIN", "INNER\nx=b.y\n").unwrap();
    match out.attr {
        Some(Op::Join(j)) => {
            assert_eq!(j.equalizers[0].left_attr, attr("x", "x"));
            assert_eq!(j.equalizers[0].right_attr, attr("b", "y"));
        },
        other => panic!("expected a join, got {:?}", other),
    }
}

#[test]
fn hash_join_extra_dots_and_equals_use_first_two_parts() {
    let out = enrich("HASH_JOIN", "INNER\na.b.c=d.e=f.g\n").unwrap();
    match out.attr {
        Some(Op::Join(j)) => {
            assert_eq!(j.equalizers.len(), 1);
            assert_eq!(j.equalizers[0].left_attr, attr("a", "b"));
            assert_eq!(j.equalizers[0].right_attr, attr("d", "e"));
        },
        other => panic!("expected a join, got {:?}", other),
    }
}

#[test]
fn hash_join_sides_are_trimmed() {
    let out = enrich("HASH_JOIN", "INNER\n a.x = b.y \nc.u=d.v\n").unwrap();
    match out.attr {
        Some(Op::Join(j)) => {
            assert_eq!(j.equalizers.len(), 2);
            assert_eq!(j.equalizers[0].left_attr, attr("a", "x"));
            assert_eq!(j.equalizers[0].right_attr, attr("b", "y"));
            assert_eq!(j.equalizers[1].left_attr, attr("c", "u"));
            assert_eq!(j.equalizers[1].right_attr, attr("d", "v"));
        },
        other => panic!("expected a join, got {:?}", other),
    }
}

#[test]
fn seq_scan_two_columns() {
    let out = enrich("SEQ_SCAN", "orders[INFOSEPARATOR]id\namount\n").unwrap();
    match out.attr {
        Some(Op::Scan(s)) => {
            assert_eq!(s.table_name, "orders");
            assert_eq!(s.attributes, vec![attr("orders", "id"), attr("orders", "amount")]);
            for a in &s.attributes {
                assert_eq!(a.table_name, s.table_name);
            }
        },
        other => panic!("expected a scan, got {:?}", other),
    }
}

#[test]
fn seq_scan_trims_table_and_columns() {
    let out = enrich("SEQ_SCAN", " orders [INFOSEPARATOR] id \n").unwrap();
    match out.attr {
        Some(Op::Scan(s)) => {
            assert_eq!(s.table_name, "orders");
            assert_eq!(s.attributes, vec![attr("orders", "id")]);
        },
        other => panic!("expected a scan, got {:?}", other),
    }
}

#[test]
fn seq_scan_without_separator_is_fatal() {
    let err = enrich("SEQ_SCAN", "orders\nid\n").unwrap_err();
    assert_eq!(err, GrammarError::BadScanInfo { info: "orders\nid\n".to_string() });
}

#[test]
fn seq_scan_with_two_separators_is_fatal() {
    let info = "a[INFOSEPARATOR]b[INFOSEPARATOR]c";
    let err = enrich("SEQ_SCAN", info).unwrap_err();
    assert_eq!(err, GrammarError::BadScanInfo { info: info.to_string() });
}

#[test]
fn projection_mixed_qualification() {
    let out = enrich("PROJECTION", "a.x\nid\n").unwrap();
    match out.attr {
        Some(Op::Project(p)) => {
            assert_eq!(p.columns, vec![attr("a", "x"), attr("", "id")]);
        },
        other => panic!("expected a projection, got {:?}", other),
    }
}

#[test]
fn projection_drops_blank_lines() {
    let out = enrich("PROJECTION", "a.x\n\n\nid\n").unwrap();
    match out.attr {
        Some(Op::Project(p)) => {
            assert_eq!(p.columns.len(), 2);
            assert_eq!(p.columns[0], attr("a", "x"));
            assert_eq!(p.columns[1], attr("", "id"));
        },
        other => panic!("expected a projection, got {:?}", other),
    }
}

#[test]
fn projection_empty_annotation_yields_no_columns() {
    let out = enrich("PROJECTION", "").unwrap();
    match out.attr {
        Some(Op::Project(p)) => assert!(p.columns.is_empty()),
        other => panic!("expected a projection, got {:?}", other),
    }
}

#[test]
fn filter_presence_alone_is_the_signal() {
    let out = enrich("FILTER", "anything at all").unwrap();
    assert_eq!(out.attr, Some(Op::Filter));
}

#[test]
fn pass_through_kinds_stay_empty() {
    for kind in ["CHUNK_SCAN", "RESULT_COLLECTOR", "SIMPLE_AGGREGATE", "Query"] {
        let out = enrich(kind, "ignored text").unwrap();
        assert!(out.attr.is_none(), "kind {} should stay empty", kind);
    }
}

#[test]
fn unknown_kind_is_fatal() {
    let err = enrich("WINDOW", "whatever").unwrap_err();
    assert_eq!(err, GrammarError::UnknownNodeKind { kind: "WINDOW".to_string() });
}

#[test]
fn dispatch_is_case_sensitive() {
    let err = enrich("hash_join", "INNER\n").unwrap_err();
    assert_eq!(err, GrammarError::UnknownNodeKind { kind: "hash_join".to_string() });
}

#[test]
fn qualified_name_joins_table_and_column() {
    assert_eq!(attr("orders", "id").qualified_name(), "orders.id");
    assert_eq!(attr("", "id").qualified_name(), ".id");
}

#[test]
fn describe_carries_the_offending_fragment() {
    let err = enrich("WINDOW", "").unwrap_err();
    assert_eq!(err.describe(), "unknown node kind: WINDOW");
    let err = enrich("HASH_JOIN", "BOGUS\n").unwrap_err();
    assert_eq!(err.describe(), "unrecognized join type: BOGUS");
    let err = enrich("HASH_JOIN", "").unwrap_err();
    assert_eq!(err.describe(), "hash join annotation has no join-type line");
    let err = enrich("HASH_JOIN", "INNER\nbad\n").unwrap_err();
    assert_eq!(err.describe(), "join predicate has no '=': bad");
    let err = enrich("SEQ_SCAN", "t").unwrap_err();
    assert_eq!(err.describe(), "scan annotation lacks a single [INFOSEPARATOR]: t");
}
