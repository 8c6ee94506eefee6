use lefi::date::Date;
use lefi::event::{Event, EventStream};
use lefi::ifprocessor::IfProcessor;
use lefi::indexer::EventIndexer;
use lefi::node::{IfData, Node};

fn constant(v: f64) -> Node {
    Node::new_constant(v.to_string(), v.to_bits())
}

fn binary(mut op: Node, a: Node, b: Node) -> Node {
    op.add_child(a);
    op.add_child(b);
    op
}

fn assign(name: &str, rhs: Node) -> Node {
    binary(Node::new_assign(), Node::new_variable(name.to_string()), rhs)
}

fn if_node(children: Vec<Node>, first_else: Option<usize>) -> Node {
    Node::If(IfData { children, first_else, affected_vars: Vec::new() })
}

fn affected(n: &Node) -> Vec<usize> {
    match n {
        Node::If(d) => d.affected_vars.clone(),
        _ => panic!("expected if node"),
    }
}

#[test]
fn test_if_processor_nested() {
    // x = 0; if x == 0 { y = 1; if y == 1 { z = 2; } w = 3; }
    let inner = if_node(
        vec![
            binary(Node::new_equal(), Node::new_variable("y".to_string()), constant(1.0)),
            assign("z", constant(2.0)),
        ],
        None,
    );
    let outer = if_node(
        vec![
            binary(Node::new_equal(), Node::new_variable("x".to_string()), constant(0.0)),
            assign("y", constant(1.0)),
            inner,
            assign("w", constant(3.0)),
        ],
        None,
    );
    let mut base = Node::new_base();
    base.add_child(assign("x", constant(0.0)));
    base.add_child(outer);
    let mut expr = base;

    let mut indexer = EventIndexer::new();
    indexer.visit(&mut expr).unwrap();

    let mut processor = IfProcessor::new();
    processor.visit(&mut expr).unwrap();

    let outer_if = match &expr {
        Node::Base(d) => &d.children[1],
        _ => panic!("expected base node"),
    };
    let inner_if = match outer_if {
        Node::If(d) => &d.children[2],
        _ => panic!("expected if node"),
    };

    assert_eq!(affected(outer_if), vec![1, 2, 3]);
    assert_eq!(affected(inner_if), vec![2]);
    assert_eq!(processor.max_nested_ifs(), 2);
}

#[test]
fn if_processor_else_branch_counts() {
    // if x == 0 { b = 1; } else { a = 2; b = 3; }  with a, b, x indexed as 0, 1, 2
    let mut expr = if_node(
        vec![
            binary(Node::new_equal(), Node::new_variable_with_id("x".to_string(), 2), constant(0.0)),
            binary(Node::new_assign(), Node::new_variable_with_id("b".to_string(), 1), constant(1.0)),
            binary(Node::new_assign(), Node::new_variable_with_id("a".to_string(), 0), constant(2.0)),
            binary(Node::new_assign(), Node::new_variable_with_id("b".to_string(), 1), constant(3.0)),
        ],
        Some(2),
    );
    let mut processor = IfProcessor::new();
    processor.visit(&mut expr).unwrap();
    // sorted, each slot once
    assert_eq!(affected(&expr), vec![0, 1]);
    assert_eq!(processor.max_nested_ifs(), 1);
}

#[test]
fn if_processor_without_if() {
    let mut expr = assign("x", constant(1.0));
    let mut processor = IfProcessor::new();
    processor.visit(&mut expr).unwrap();
    assert_eq!(processor.max_nested_ifs(), 0);
}

#[test]
fn if_processor_keeps_deepest_over_events() {
    let shallow = if_node(
        vec![Node::new_true(), binary(Node::new_assign(), Node::new_variable_with_id("a".to_string(), 0), constant(1.0))],
        None,
    );
    let deep = if_node(
        vec![
            Node::new_true(),
            if_node(
                vec![
                    Node::new_false(),
                    if_node(
                        vec![Node::new_true(), binary(Node::new_assign(), Node::new_variable_with_id("c".to_string(), 2), constant(1.0))],
                        None,
                    ),
                ],
                None,
            ),
        ],
        None,
    );
    let mut events = EventStream::new().with_events(vec![
        Event::new(Date::new(2024, 1, 1), deep),
        Event::new(Date::new(2024, 2, 1), shallow),
    ]);
    let mut processor = IfProcessor::new();
    processor.visit_events(&mut events).unwrap();
    assert_eq!(processor.max_nested_ifs(), 3);
    assert_eq!(affected(&events.events()[0].expr), vec![2]);
    assert_eq!(affected(&events.events()[1].expr), vec![0]);
}

#[test]
fn processing_twice_records_the_same() {
    let build = || {
        if_node(
            vec![
                Node::new_true(),
                binary(Node::new_assign(), Node::new_variable_with_id("b".to_string(), 1), constant(1.0)),
                if_node(
                    vec![
                        Node::new_false(),
                        binary(Node::new_assign(), Node::new_variable_with_id("a".to_string(), 0), constant(2.0)),
                    ],
                    None,
                ),
            ],
            None,
        )
    };
    let mut once = build();
    IfProcessor::new().visit(&mut once).unwrap();
    let mut twice = build();
    let mut p = IfProcessor::new();
    p.visit(&mut twice).unwrap();
    p.visit(&mut twice).unwrap();
    assert_eq!(twice, once);
    assert_eq!(affected(&twice), vec![0, 1]);
    assert_eq!(p.max_nested_ifs(), 2);
}

#[test]
fn if_processor_skips_variables_only_read() {
    // if x == 0 { arr.append(x); y; z = w; }  with arr, x, y, z, w at slots 0 to 4
    let mut append = Node::new_append();
    append.add_child(Node::new_variable_with_id("arr".to_string(), 0));
    append.add_child(Node::new_variable_with_id("x".to_string(), 1));
    let mut expr = if_node(
        vec![
            binary(Node::new_equal(), Node::new_variable_with_id("x".to_string(), 1), constant(0.0)),
            append,
            Node::new_variable_with_id("y".to_string(), 2),
            binary(Node::new_assign(), Node::new_variable_with_id("z".to_string(), 3), Node::new_variable_with_id("w".to_string(), 4)),
        ],
        None,
    );
    let mut processor = IfProcessor::new();
    processor.visit(&mut expr).unwrap();
    assert_eq!(affected(&expr), vec![0, 3]);
    assert_eq!(processor.max_nested_ifs(), 1);
}

#[test]
fn a_recorded_list_is_kept_when_the_tree_changes() {
    // if true { b = 1; }  with b at slot 1, then b moved to slot 5 and processed again
    let mut expr = if_node(
        vec![
            Node::new_true(),
            binary(Node::new_assign(), Node::new_variable_with_id("b".to_string(), 1), constant(1.0)),
        ],
        None,
    );
    let mut p = IfProcessor::new();
    p.visit(&mut expr).unwrap();
    assert_eq!(affected(&expr), vec![1]);
    if let Node::If(d) = &mut expr {
        d.children[1] = binary(Node::new_assign(), Node::new_variable_with_id("b".to_string(), 5), constant(1.0));
    }
    p.visit(&mut expr).unwrap();
    assert_eq!(affected(&expr), vec![1]);
}

#[test]
fn processing_a_stream_is_processing_each_event_in_turn() {
    let first = || {
        if_node(
            vec![
                Node::new_true(),
                binary(Node::new_assign(), Node::new_variable_with_id("b".to_string(), 1), constant(1.0)),
                if_node(
                    vec![Node::new_false(), binary(Node::new_assign(), Node::new_variable_with_id("a".to_string(), 0), constant(2.0))],
                    None,
                ),
            ],
            None,
        )
    };
    let second = || {
        if_node(
            vec![Node::new_true(), binary(Node::new_assign(), Node::new_variable_with_id("c".to_string(), 2), constant(3.0))],
            None,
        )
    };
    let mut events = EventStream::new().with_events(vec![
        Event::new(Date::new(2024, 1, 1), first()),
        Event::new(Date::new(2024, 2, 1), second()),
    ]);
    let mut streamed = IfProcessor::new();
    streamed.visit_events(&mut events).unwrap();

    let mut one = first();
    let mut two = second();
    let mut each = IfProcessor::new();
    each.visit(&mut one).unwrap();
    each.visit(&mut two).unwrap();

    assert_eq!(events.events()[0].expr, one);
    assert_eq!(events.events()[1].expr, two);
    assert_eq!(streamed.max_nested_ifs(), each.max_nested_ifs());
    assert_eq!(streamed.max_nested_ifs(), 2);
}
