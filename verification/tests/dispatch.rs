use aimdb::dispatch::{
    drain_limit, ensure_writable, ensure_write_permission, matched_keys, route_method, snapshots,
    welcome, welcome_access, Method, SecurityPolicy,
};
use aimdb::session::RpcError;

fn strings(v: &[&str]) -> Vec<String> {
    v.iter().map(|s| s.to_string()).collect()
}

#[test]
fn known_methods_are_routed() {
    assert_eq!(route_method("hello"), Ok(Method::Hello));
    assert_eq!(route_method("record.list"), Ok(Method::RecordList));
    assert_eq!(route_method("record.get"), Ok(Method::RecordGet));
    assert_eq!(route_method("record.set"), Ok(Method::RecordSet));
    assert_eq!(route_method("record.drain"), Ok(Method::RecordDrain));
    assert_eq!(route_method("record.query"), Ok(Method::RecordQuery));
    assert_eq!(route_method("graph.nodes"), Ok(Method::GraphNodes));
    assert_eq!(route_method("graph.edges"), Ok(Method::GraphEdges));
    assert_eq!(route_method("graph.topo_order"), Ok(Method::GraphTopoOrder));
    assert_eq!(route_method("profiling.reset"), Ok(Method::ProfilingReset));
    assert_eq!(route_method("buffer_metrics.reset"), Ok(Method::BufferMetricsReset));
}

#[test]
fn unknown_methods_are_not_found() {
    assert_eq!(route_method("record.delete"), Err(RpcError::NotFound));
    assert_eq!(route_method(""), Err(RpcError::NotFound));
    assert_eq!(route_method("Hello"), Err(RpcError::NotFound));
}

#[test]
fn writes_need_a_read_write_policy_naming_the_record() {
    let ro = SecurityPolicy::ReadOnly;
    assert_eq!(ensure_writable(&ro, "temp"), Err(RpcError::Denied));
    let rw = SecurityPolicy::ReadWrite { writable_records: strings(&["temp", "config"]) };
    assert_eq!(ensure_writable(&rw, "temp"), Ok(()));
    assert_eq!(ensure_writable(&rw, "config"), Ok(()));
    assert_eq!(ensure_writable(&rw, "humidity"), Err(RpcError::Denied));
}

#[test]
fn admin_resets_are_denied_under_read_only() {
    assert_eq!(ensure_write_permission(&SecurityPolicy::ReadOnly), Err(RpcError::Denied));
    let rw = SecurityPolicy::ReadWrite { writable_records: Vec::new() };
    assert_eq!(ensure_write_permission(&rw), Ok(()));
}

#[test]
fn the_handshake_advertises_only_existing_writable_records() {
    let existing = strings(&["temp", "humidity", "config"]);
    let (perms, writable) = welcome_access(&SecurityPolicy::ReadOnly, &existing);
    assert_eq!(perms, strings(&["read"]));
    assert!(writable.is_empty());

    let rw = SecurityPolicy::ReadWrite { writable_records: strings(&["config", "ghost", "temp"]) };
    let (perms, writable) = welcome_access(&rw, &existing);
    assert_eq!(perms, strings(&["read", "write"]));
    assert_eq!(writable, strings(&["config", "temp"]));
    for key in &writable {
        assert!(existing.contains(key));
        assert_eq!(ensure_writable(&rw, key), Ok(()));
    }
}

#[test]
fn wildcards_reach_the_matching_records_in_order() {
    let keys = strings(&["sensors.temp", "sensors.humidity", "config.limits", "sensors.a.b"]);
    assert_eq!(matched_keys("sensors.*", &keys), strings(&["sensors.temp", "sensors.humidity"]));
    assert_eq!(
        matched_keys("sensors.#", &keys),
        strings(&["sensors.temp", "sensors.humidity", "sensors.a.b"])
    );
    assert_eq!(matched_keys("config.limits", &keys), strings(&["config.limits"]));
    assert!(matched_keys("nothing.*", &keys).is_empty());
}

#[test]
fn snapshots_carry_the_current_values_of_wildcard_matches() {
    let records = vec![
        ("sensors.temp".to_string(), Some(b"21.5".to_vec())),
        ("sensors.humidity".to_string(), None),
        ("config.limits".to_string(), Some(b"{}".to_vec())),
        ("sensors.pressure".to_string(), Some(b"1013".to_vec())),
    ];
    let snaps = snapshots("sensors.*", &records);
    assert_eq!(
        snaps,
        vec![
            ("sensors.temp".to_string(), b"21.5".to_vec()),
            ("sensors.pressure".to_string(), b"1013".to_vec()),
        ]
    );
    assert!(snapshots("sensors.temp", &records).is_empty());
}

#[test]
fn drain_limits_default_to_everything() {
    assert_eq!(drain_limit(None), usize::MAX);
    assert_eq!(drain_limit(Some(5)), 5);
    assert_eq!(drain_limit(Some(0)), 0);
    assert_eq!(drain_limit(Some(u64::MAX)), usize::MAX);
}

#[test]
fn the_welcome_names_the_server_and_its_limits() {
    let existing = strings(&["temp", "config"]);
    let rw = SecurityPolicy::ReadWrite { writable_records: strings(&["config", "ghost"]) };
    let w = welcome(&rw, &existing, "3.0", 16);
    assert_eq!(w.version, "3.0");
    assert_eq!(w.server, "aimdb");
    assert_eq!(w.permissions, strings(&["read", "write"]));
    assert_eq!(w.writable_records, strings(&["config"]));
    assert_eq!(w.max_subscriptions, Some(16));
    assert_eq!(w.authenticated, Some(false));
    let w = welcome(&SecurityPolicy::ReadOnly, &existing, "3.0", 4);
    assert_eq!(w.permissions, strings(&["read"]));
    assert!(w.writable_records.is_empty());
}
