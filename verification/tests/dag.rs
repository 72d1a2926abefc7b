use aimdb::dag::{record_origin, RecordOrigin};
use aimdb::dag::DependencyGraph;
use aimdb::error::DbError;

fn keys(ks: &[&str]) -> Vec<String> {
    ks.iter().map(|k| k.to_string()).collect()
}

fn transform(out: &str, ins: &[&str]) -> (String, Vec<String>) {
    (out.to_string(), keys(ins))
}

fn position(order: &[String], key: &str) -> usize {
    order.iter().position(|k| k == key).expect("key in order")
}

#[test]
fn an_acyclic_graph_orders_inputs_first() {
    let ti = vec![
        transform("c", &["a", "b"]),
        transform("d", &["c"]),
    ];
    let order = DependencyGraph::validate_dag(&ti, &keys(&["d", "c", "b", "a"])).unwrap();
    assert_eq!(order.len(), 4);
    assert!(position(&order, "a") < position(&order, "c"));
    assert!(position(&order, "b") < position(&order, "c"));
    assert!(position(&order, "c") < position(&order, "d"));
}

#[test]
fn the_first_unknown_input_is_reported() {
    let ti = vec![
        transform("c", &["a", "x"]),
        transform("d", &["y"]),
    ];
    match DependencyGraph::validate_dag(&ti, &keys(&["a", "c", "d"])) {
        Err(DbError::TransformInputNotFound { output_key, input_key }) => {
            assert_eq!(output_key, "c");
            assert_eq!(input_key, "x");
        }
        other => panic!("unexpected {:?}", other),
    }
}

#[test]
fn a_cycle_reports_the_records_behind_it() {
    let ti = vec![
        transform("a", &["b"]),
        transform("b", &["a"]),
        transform("c", &["b"]),
    ];
    match DependencyGraph::validate_dag(&ti, &keys(&["a", "b", "c", "free"])) {
        Err(DbError::CyclicDependency { mut records }) => {
            records.sort();
            assert_eq!(records, keys(&["a", "b", "c"]));
        }
        other => panic!("unexpected {:?}", other),
    }
}

#[test]
fn a_self_loop_is_a_cycle() {
    let ti = vec![transform("a", &["a"])];
    match DependencyGraph::validate_dag(&ti, &keys(&["a"])) {
        Err(DbError::CyclicDependency { records }) => assert_eq!(records, keys(&["a"])),
        other => panic!("unexpected {:?}", other),
    }
}

#[test]
fn no_transforms_orders_every_record() {
    let order = DependencyGraph::validate_dag(&[], &keys(&["x", "y"])).unwrap();
    let mut sorted = order.clone();
    sorted.sort();
    assert_eq!(sorted, keys(&["x", "y"]));
}

#[test]
fn errors_describe_themselves() {
    let e = DbError::TransformInputNotFound {
        output_key: "c".into(),
        input_key: "x".into(),
    };
    assert_eq!(e.message(), "transform for 'c' reads unknown record 'x'");
}

#[test]
fn record_origin_prefers_transform_then_link_then_producer() {
    let one = Some(vec!["a".to_string()]);
    match record_origin(one, Some(("mqtt".to_string(), "mqtt://b/t".to_string())), true) {
        RecordOrigin::Transform { input } => assert_eq!(input, "a"),
        other => panic!("unexpected origin {:?}", other),
    }
    let two = Some(vec!["a".to_string(), "b".to_string()]);
    match record_origin(two, None, true) {
        RecordOrigin::TransformJoin { inputs } => assert_eq!(inputs, vec!["a".to_string(), "b".to_string()]),
        other => panic!("unexpected origin {:?}", other),
    }
    match record_origin(None, Some(("mqtt".to_string(), "mqtt://b/t".to_string())), true) {
        RecordOrigin::Link { protocol, address } => {
            assert_eq!(protocol, "mqtt");
            assert_eq!(address, "mqtt://b/t");
        }
        other => panic!("unexpected origin {:?}", other),
    }
    assert!(matches!(record_origin(None, None, true), RecordOrigin::Source));
    assert!(matches!(record_origin(None, None, false), RecordOrigin::Passive));
    assert!(matches!(record_origin(Some(Vec::new()), None, false), RecordOrigin::TransformJoin { .. }));
}

#[test]
fn every_record_on_a_cycle_is_reported() {
    let ti = vec![
        transform("a", &["b"]),
        transform("b", &["a"]),
        transform("c", &["a"]),
        transform("e", &["d"]),
    ];
    match DependencyGraph::validate_dag(&ti, &keys(&["a", "b", "c", "d", "e"])) {
        Err(DbError::CyclicDependency { records }) => {
            assert!(records.contains(&"a".to_string()));
            assert!(records.contains(&"b".to_string()));
            assert!(!records.contains(&"d".to_string()));
            assert!(!records.contains(&"e".to_string()));
        }
        other => panic!("expected a cycle, got {:?}", other),
    }
}
