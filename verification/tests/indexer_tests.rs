use lefi::currency::Currency;
use lefi::error::ScriptingError;
use lefi::date::Date;
use lefi::event::{Event, EventStream};
use lefi::indexer::EventIndexer;
use lefi::node::Node;

fn slot_of(indexes: &[(String, usize)], name: &str) -> Option<usize> {
    indexes.iter().find(|(n, _)| n == name).map(|(_, i)| *i)
}

fn constant(v: f64) -> Node {
    Node::new_constant(v.to_string(), v.to_bits())
}

fn assign(lhs: Node, rhs: Node) -> Node {
    let mut a = Node::new_assign();
    a.add_child(lhs);
    a.add_child(rhs);
    a
}

fn script(statements: Vec<Node>) -> Node {
    let mut base = Node::new_base();
    for s in statements {
        base.add_child(s);
    }
    base
}

#[test]
fn test_expression_indexer() {
    let mut indexer = EventIndexer::new();
    let mut node = Node::new_variable("x".to_string());
    indexer.visit(&mut node).unwrap();
    let variables = indexer.get_variable_indexes();
    assert_eq!(slot_of(&variables, "x"), Some(0));
    println!("{:?}", node);
}

#[test]
fn test_expression_indexer_multiple() {
    let mut indexer = EventIndexer::new();
    let mut node = Node::new_variable("x".to_string());
    indexer.visit(&mut node).unwrap();
    let mut node = Node::new_variable("y".to_string());
    indexer.visit(&mut node).unwrap();
    let variables = indexer.get_variable_indexes();
    assert_eq!(slot_of(&variables, "x"), Some(0));
    assert_eq!(slot_of(&variables, "y"), Some(1));
}

#[test]
fn test_event_indexer_with_event_date() {
    let date = Date::empty();
    let indexer = EventIndexer::new().with_event_date(date);
    assert_eq!(indexer.current_event_date(), Some(date));
}

#[test]
fn test_get_variable_index() {
    let mut indexer = EventIndexer::new();
    let mut node = Node::new_variable("x".to_string());
    indexer.visit(&mut node).unwrap();
    assert_eq!(indexer.get_variable_index("x"), Some(0));
}

#[test]
fn test_get_variable_name() {
    let mut indexer = EventIndexer::new();
    let mut node = Node::new_variable("x".to_string());
    indexer.visit(&mut node).unwrap();
    assert_eq!(indexer.get_variable_name(0), Some("x".to_string()));
}

#[test]
fn test_get_variables() {
    let mut indexer = EventIndexer::new();
    let mut node = Node::new_variable("x".to_string());
    indexer.visit(&mut node).unwrap();
    let mut node = Node::new_variable("y".to_string());
    indexer.visit(&mut node).unwrap();
    let variables = indexer.get_variables();
    assert!(variables.contains(&"x".to_string()));
    assert!(variables.contains(&"y".to_string()));
}

#[test]
fn test_get_variable_indexes() {
    let mut indexer = EventIndexer::new();
    let mut node = Node::new_variable("x".to_string());
    indexer.visit(&mut node).unwrap();
    let mut node = Node::new_variable("y".to_string());
    indexer.visit(&mut node).unwrap();
    let variable_indexes = indexer.get_variable_indexes();
    assert_eq!(slot_of(&variable_indexes, "x"), Some(0));
    assert_eq!(slot_of(&variable_indexes, "y"), Some(1));
}

#[test]
fn test_get_variables_size() {
    let mut indexer = EventIndexer::new();
    let mut node = Node::new_variable("x".to_string());
    indexer.visit(&mut node).unwrap();
    let mut node = Node::new_variable("y".to_string());
    indexer.visit(&mut node).unwrap();
    assert_eq!(indexer.get_variables_size(), 2);
}

#[test]
fn test_visit_index_node() {
    // arr = [1,2,3]; x = arr[1];
    let mut list = Node::new_list();
    list.add_child(constant(1.0));
    list.add_child(constant(2.0));
    list.add_child(constant(3.0));
    let mut index = Node::new_index();
    index.add_child(Node::new_variable("arr".to_string()));
    index.add_child(constant(1.0));
    let mut expr = script(vec![
        assign(Node::new_variable("arr".to_string()), list),
        assign(Node::new_variable("x".to_string()), index),
    ]);
    let mut indexer = EventIndexer::new();
    indexer.visit(&mut expr).unwrap();
    let variable_indexes = indexer.get_variable_indexes();
    assert_eq!(slot_of(&variable_indexes, "arr"), Some(0));
    assert_eq!(slot_of(&variable_indexes, "x"), Some(1));
}

#[test]
fn test_spot_request_with_date() {
    // x = Spot("USD", "EUR", "2025-06-01");
    let expr = script(vec![assign(
        Node::new_variable("x".to_string()),
        Node::new_spot(Currency::USD, Currency::EUR, Some(Date::new(2025, 6, 1))),
    )]);
    let event = Event::new(Date::new(2025, 1, 1), expr);
    let mut events = EventStream::new().with_events(vec![event]);

    let mut indexer = EventIndexer::new();
    indexer.visit_events(&mut events).unwrap();

    let req = indexer.get_request();
    let fx = &req[0].fxs()[0];
    assert_eq!(fx.first_currency(), Currency::USD);
    assert_eq!(fx.second_currency(), Currency::EUR);
    assert_eq!(fx.date(), Date::new(2025, 6, 1));
}

#[test]
fn test_spot_request_uses_event_date_when_none() {
    // x = Spot("USD", "EUR");
    let expr = script(vec![assign(
        Node::new_variable("x".to_string()),
        Node::new_spot(Currency::USD, Currency::EUR, None),
    )]);
    let event_date = Date::new(2025, 1, 1);
    let event = Event::new(event_date, expr);
    let mut events = EventStream::new().with_events(vec![event]);

    let mut indexer = EventIndexer::new();
    indexer.visit_events(&mut events).unwrap();

    let req = indexer.get_request();
    let fx = &req[0].fxs()[0];
    assert_eq!(fx.date(), event_date);
}

#[test]
fn test_df_request_with_curve() {
    // x = Df("2025-06-01", "curve");
    let expr = script(vec![assign(
        Node::new_variable("x".to_string()),
        Node::new_df(Date::new(2025, 6, 1), Some("curve".to_string())),
    )]);
    let event = Event::new(Date::new(2025, 1, 1), expr);
    let mut events = EventStream::new().with_events(vec![event]);

    let mut indexer = EventIndexer::new();
    indexer.visit_events(&mut events).unwrap();

    let req = indexer.get_request();
    let df = &req[0].dfs()[0];
    assert_eq!(df.curve(), &"curve".to_string());
    assert_eq!(df.to_date(), Date::new(2025, 6, 1));
}

#[test]
fn test_df_request_without_curve() {
    // x = Df("2025-06-01");
    let expr = script(vec![assign(
        Node::new_variable("x".to_string()),
        Node::new_df(Date::new(2025, 6, 1), None),
    )]);
    let event_date = Date::new(2025, 1, 1);
    let event = Event::new(event_date, expr);
    let mut events = EventStream::new().with_events(vec![event]);

    let mut indexer = EventIndexer::new();
    indexer.visit_events(&mut events).unwrap();

    let req = indexer.get_request();
    let df = &req[0].dfs()[0];
    assert_eq!(df.curve(), &"local".to_string());
    assert_eq!(df.to_date(), Date::new(2025, 6, 1));
}

#[test]
fn indexer_reuses_slot_of_known_name() {
    // x = 1; y = x; x = 2;
    let mut expr = script(vec![
        assign(Node::new_variable("x".to_string()), constant(1.0)),
        assign(Node::new_variable("y".to_string()), Node::new_variable("x".to_string())),
        assign(Node::new_variable("x".to_string()), constant(2.0)),
    ]);
    let mut indexer = EventIndexer::new();
    indexer.visit(&mut expr).unwrap();
    assert_eq!(indexer.get_variables_size(), 2);
    assert_eq!(indexer.get_variable_index("x"), Some(0));
    assert_eq!(indexer.get_variable_index("y"), Some(1));
    assert_eq!(indexer.get_variable_name(2), None);
    match &expr {
        Node::Base(d) => match &d.children[2] {
            Node::Assign(a) => match &a.children[0] {
                Node::Variable(v) => assert_eq!(v.id, Some(0)),
                _ => panic!("expected a variable"),
            },
            _ => panic!("expected an assignment"),
        },
        _ => panic!("expected a base node"),
    }
}

#[test]
fn indexer_spot_without_event_fails() {
    // A spot outside any event has no request to go to.
    let mut node = Node::new_spot(Currency::USD, Currency::EUR, None);
    let mut indexer = EventIndexer::new();
    let r = indexer.visit(&mut node);
    assert_eq!(r, Err(ScriptingError::NotFoundError("No market requests found".to_string())));
    assert_eq!(node, Node::new_spot(Currency::USD, Currency::EUR, None));
    assert!(indexer.get_request().is_empty());
}

#[test]
fn indexer_payment_without_date_fails() {
    // a payment with no date of its own, outside any event
    let mut pays = Node::new_pays();
    pays.add_child(constant(100.0));
    let mut indexer = EventIndexer::new();
    let r = indexer.visit(&mut pays);
    assert_eq!(r, Err(ScriptingError::InvalidSyntax("Event date is not set".to_string())));
    assert!(indexer.get_request().is_empty());
}

#[test]
fn indexer_reset_forgets_variables() {
    let mut indexer = EventIndexer::new();
    let mut node = Node::new_variable("x".to_string());
    indexer.visit(&mut node).unwrap();
    indexer.reset();
    assert_eq!(indexer.get_variables_size(), 0);
    assert_eq!(indexer.get_variable_index("x"), None);
}

#[test]
fn indexer_one_request_per_event() {
    let e1 = Event::new(
        Date::new(2025, 1, 1),
        script(vec![assign(
            Node::new_variable("x".to_string()),
            Node::new_spot(Currency::USD, Currency::CLP, None),
        )]),
    );
    let e2 = Event::new(
        Date::new(2025, 2, 1),
        script(vec![assign(
            Node::new_variable("y".to_string()),
            Node::new_df(Date::new(2025, 3, 1), None),
        )]),
    );
    let mut events = EventStream::new().with_events(vec![e1, e2]);
    let mut indexer = EventIndexer::new();
    indexer.visit_events(&mut events).unwrap();
    let req = indexer.get_request();
    assert_eq!(req.len(), 2);
    assert_eq!(req[0].fxs().len(), 1);
    assert_eq!(req[0].dfs().len(), 0);
    assert_eq!(req[1].fxs().len(), 0);
    assert_eq!(req[1].dfs().len(), 1);
    assert_eq!(req[1].dfs()[0].from_date(), Date::new(2025, 2, 1));
    assert_eq!(indexer.current_event_date(), Some(Date::new(2025, 2, 1)));
}

#[test]
fn indexing_twice_is_indexing_once() {
    let build = || {
        EventStream::new().with_events(vec![Event::new(
            Date::new(2025, 1, 1),
            script(vec![
                assign(Node::new_variable("x".to_string()), Node::new_spot(Currency::USD, Currency::CLP, None)),
                assign(
                    Node::new_variable("y".to_string()),
                    Node::new_df(Date::new(2025, 3, 1), Some("curve".to_string())),
                ),
            ]),
        )])
    };
    let mut once = build();
    let mut first = EventIndexer::new();
    first.visit_events(&mut once).unwrap();

    let mut twice = build();
    let mut second = EventIndexer::new();
    second.visit_events(&mut twice).unwrap();
    let mut expr = twice.events.remove(0).expr;
    second.visit(&mut expr).unwrap();

    assert_eq!(&expr, &once.events()[0].expr);
    assert_eq!(second.get_variables_size(), 2);
    let req = second.get_request();
    assert_eq!(req[0].fxs().len(), 1);
    assert_eq!(req[0].dfs().len(), 1);
}
