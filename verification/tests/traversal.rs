use join_tree::{GrammarError, Node, Op};

fn node_with(name: &str, extra_info: &str, children: Vec<Node>) -> Node {
    Node {
        name: name.to_string(),
        timing_bits: 4_618_441_417_868_443_648, // bit pattern of a timing sample
        cardinality: 7,
        extra_info: extra_info.to_string(),
        children,
        attr: None,
    }
}

fn count_nodes(n: &Node) -> usize {
    1 + n.children.iter().map(count_nodes).sum::<usize>()
}

fn count_decided(n: &Node) -> usize {
    let here = match n.name.as_str() {
        "HASH_JOIN" => match &n.attr {
            Some(Op::Join(_)) => 1,
            None => 1, // a MARK join is a deliberate pass-through
            _ => 0,
        },
        "SEQ_SCAN" => matches!(&n.attr, Some(Op::Scan(_))) as usize,
        "PROJECTION" => matches!(&n.attr, Some(Op::Project(_))) as usize,
        "FILTER" => matches!(&n.attr, Some(Op::Filter)) as usize,
        _ => n.attr.is_none() as usize, // pass-through kinds stay empty
    };
    here + n.children.iter().map(count_decided).sum::<usize>()
}

fn sample_tree() -> Node {
    node_with(
        "Query",
        "",
        vec![node_with(
            "RESULT_COLLECTOR",
            "",
            vec![node_with(
                "PROJECTION",
                "a.x\nid\n",
                vec![node_with(
                    "HASH_JOIN",
                    "INNER\na.x=b.y\n",
                    vec![
                        node_with("SEQ_SCAN", "a[INFOSEPARATOR]x\n", vec![]),
                        node_with("FILTER", "b.y>0", vec![
                            node_with("SEQ_SCAN", "b[INFOSEPARATOR]y\n", vec![]),
                        ]),
                    ],
                )],
            )],
        )],
    )
}

#[test]
fn every_node_is_visited_exactly_once() {
    let before = sample_tree();
    let total = count_nodes(&before);
    let after = join_tree::parse_tree_extra_info(before).unwrap();
    assert_eq!(count_nodes(&after), total);
    assert_eq!(count_decided(&after), total);
}

#[test]
fn enrichment_preserves_shape_and_carried_fields() {
    let after = join_tree::parse_tree_extra_info(sample_tree()).unwrap();
    assert_eq!(after.name, "Query");
    assert_eq!(after.timing_bits, 4_618_441_417_868_443_648);
    assert_eq!(after.cardinality, 7);
    assert_eq!(after.extra_info, "");
    assert_eq!(after.children.len(), 1);
    let join = &after.children[0].children[0].children[0];
    assert_eq!(join.name, "HASH_JOIN");
    assert_eq!(join.children.len(), 2);
    assert_eq!(join.children[0].name, "SEQ_SCAN");
    assert_eq!(join.children[1].name, "FILTER");
    assert!(matches!(join.attr, Some(Op::Join(_))));
    assert!(matches!(join.children[0].attr, Some(Op::Scan(_))));
    assert!(matches!(join.children[1].attr, Some(Op::Filter)));
}

#[test]
fn mark_join_inside_tree_is_not_an_error() {
    let tree = node_with("Query", "", vec![node_with("HASH_JOIN", "MARK\n", vec![])]);
    let after = join_tree::parse_tree_extra_info(tree).unwrap();
    assert!(after.children[0].attr.is_none());
}

#[test]
fn unknown_kind_deep_in_tree_aborts_the_pass() {
    let tree = node_with(
        "Query",
        "",
        vec![node_with("PROJECTION", "id\n", vec![node_with("WINDOW", "w", vec![])])],
    );
    let err = join_tree::parse_tree_extra_info(tree).unwrap_err();
    assert_eq!(err, GrammarError::UnknownNodeKind { kind: "WINDOW".to_string() });
}

#[test]
fn error_in_first_child_is_reported_before_the_parent() {
    let tree = node_with(
        "WINDOW",
        "",
        vec![node_with("HASH_JOIN", "BOGUS\n", vec![])],
    );
    let err = join_tree::parse_tree_extra_info(tree).unwrap_err();
    assert_eq!(err, GrammarError::UnknownJoinType { tag: "BOGUS".to_string() });
}

#[test]
fn error_in_parent_is_reported_before_later_children() {
    let tree = node_with(
        "WINDOW",
        "",
        vec![
            node_with("FILTER", "", vec![]),
            node_with("HASH_JOIN", "BOGUS\n", vec![]),
        ],
    );
    let err = join_tree::parse_tree_extra_info(tree).unwrap_err();
    assert_eq!(err, GrammarError::UnknownNodeKind { kind: "WINDOW".to_string() });
}
