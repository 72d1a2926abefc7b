use aimdb::records::{check_remote_set, register_writer, Registration, RegistrationConflict, Writers};
use aimdb::error::DbError;
use aimdb::records::validate_record;
use aimdb::client::{
    allocate_id, backoff_delay, command_queue_capacity, decimal_string, plan_delivery,
    reconnect_after, skipped_since, ClientConfig, ClientDemux, Delivery, DeliveryPlan, Reconnect,
    ReplyAction, SendOutcome, SUBSCRIBE_CHANNEL_CAP,
};
use aimdb::server::{admits_connection, next_update_seq, ServerSession, SessionAction, SessionConfig};
use aimdb::session::{Inbound, RpcError, SessionLimits};

#[test]
fn client_config_defaults() {
    let c = ClientConfig::default();
    assert!(c.reconnect);
    assert_eq!(c.reconnect_delay, 200);
    assert_eq!(c.max_reconnect_delay, 200);
    assert_eq!(c.max_reconnect_attempts, 0);
    assert_eq!(c.keepalive_interval, None);
    assert_eq!(c.max_offline_queue, 256);
    assert!(!c.sends_hello);
}

#[test]
fn backoff_doubles_up_to_the_cap() {
    let c = ClientConfig {
        reconnect_delay: 100,
        max_reconnect_delay: 1000,
        ..ClientConfig::default()
    };
    assert_eq!(backoff_delay(&c, 0), 100);
    assert_eq!(backoff_delay(&c, 1), 100);
    assert_eq!(backoff_delay(&c, 2), 200);
    assert_eq!(backoff_delay(&c, 4), 800);
    assert_eq!(backoff_delay(&c, 5), 1000);
    // A cap below the base is raised to the base.
    let fixed = ClientConfig::default();
    assert_eq!(backoff_delay(&fixed, 9), 200);
    // The doubling stops after 16 steps and saturates.
    let wide = ClientConfig {
        reconnect_delay: u64::MAX / 2,
        max_reconnect_delay: u64::MAX,
        ..ClientConfig::default()
    };
    assert_eq!(backoff_delay(&wide, 40), u64::MAX);
    let long = ClientConfig {
        reconnect_delay: 1,
        max_reconnect_delay: u64::MAX,
        ..ClientConfig::default()
    };
    assert_eq!(backoff_delay(&long, 100), 65536);
}

#[test]
fn reconnect_honours_the_switch_and_the_attempt_cap() {
    let off = ClientConfig {
        reconnect: false,
        ..ClientConfig::default()
    };
    assert_eq!(reconnect_after(3, &off), (3, Reconnect::Stop));
    let capped = ClientConfig {
        max_reconnect_attempts: 2,
        ..ClientConfig::default()
    };
    assert_eq!(reconnect_after(0, &capped), (1, Reconnect::After(200)));
    assert_eq!(reconnect_after(1, &capped), (2, Reconnect::Stop));
    assert_eq!(
        reconnect_after(7, &ClientConfig::default()),
        (8, Reconnect::After(200))
    );
}

#[test]
fn a_zero_cap_is_clamped_to_one() {
    let c = ClientConfig {
        max_offline_queue: 0,
        ..ClientConfig::default()
    };
    assert_eq!(command_queue_capacity(&c), 1);
}

#[test]
fn an_unbounded_cap_degrades_to_the_ceiling() {
    let c = ClientConfig {
        max_offline_queue: usize::MAX,
        ..ClientConfig::default()
    };
    assert_eq!(command_queue_capacity(&c), 8192);
}

#[test]
fn exhausted_ids_are_refused_not_wrapped() {
    assert_eq!(allocate_id(1), Ok((1, 2)));
    assert_eq!(allocate_id(usize::MAX), Err(RpcError::Internal));
}

/// Delivers events in turn to one subscription, reporting each loss count.
fn deliver_all(seqs: &[u64]) -> (Vec<u64>, ClientDemux) {
    let mut demux = ClientDemux::new();
    let sub = demux.open_subscription(1);
    let mut skips = Vec::new();
    for &seq in seqs {
        match demux.plan_update(&sub, seq, Delivery::Event, 0, Some(SUBSCRIBE_CHANNEL_CAP)) {
            DeliveryPlan::Send { skipped, .. } => {
                skips.push(skipped);
                demux.on_sent(&sub, seq, SendOutcome::Delivered);
            }
            other => panic!("unexpected {:?}", other),
        }
    }
    (skips, demux)
}

#[test]
fn a_rewound_sequence_does_not_invent_a_gap() {
    let (skips, _) = deliver_all(&[1, 3, 2, 4]);
    assert_eq!(skips, vec![0, 1, 0, 0]);
}

#[test]
fn a_saturated_sequence_does_not_overflow() {
    let (skips, _) = deliver_all(&[u64::MAX, 5]);
    assert_eq!(skips.len(), 2);
    assert_eq!(skips[1], 0);
    assert_eq!(skipped_since(u64::MAX, u64::MAX), 0);
}

#[test]
fn a_full_sink_folds_the_loss_into_the_next_delivery() {
    let mut demux = ClientDemux::new();
    let sub = demux.open_subscription(9);
    assert_eq!(sub, "9");
    demux.on_sent(&sub, 1, SendOutcome::Delivered);
    demux.on_sent(&sub, 2, SendOutcome::Full);
    match demux.plan_update(&sub, 3, Delivery::Event, 0, Some(4)) {
        DeliveryPlan::Send { skipped, snapshot_end } => {
            assert_eq!(skipped, 1);
            assert!(!snapshot_end);
        }
        other => panic!("unexpected {:?}", other),
    }
}

#[test]
fn a_burst_body_holds_the_last_slot_back() {
    assert_eq!(
        plan_delivery(true, 0, 1, Delivery::BurstBody, 3, Some(4)),
        DeliveryPlan::Hold
    );
    assert_eq!(
        plan_delivery(true, 0, 1, Delivery::BurstEnd, 3, Some(4)),
        DeliveryPlan::Send {
            skipped: 0,
            snapshot_end: true
        }
    );
    assert_eq!(
        plan_delivery(false, 0, 1, Delivery::Event, 0, None),
        DeliveryPlan::Ignore
    );
}

#[test]
fn replies_resolve_calls_once_and_fail_refused_subscriptions() {
    let mut demux = ClientDemux::new();
    demux.open_call(5);
    assert!(demux.is_pending(5));
    assert_eq!(demux.on_reply(5, false), ReplyAction::ResolveCall(5));
    assert_eq!(demux.on_reply(5, false), ReplyAction::Drop);
    let sub = demux.open_subscription(6);
    assert_eq!(demux.on_reply(6, false), ReplyAction::Drop);
    assert_eq!(
        demux.on_reply(6, true),
        ReplyAction::FailSubscription("6".to_string())
    );
    assert_eq!(
        demux.plan_update(&sub, 1, Delivery::Event, 0, None),
        DeliveryPlan::Ignore
    );
    demux.open_call(7);
    assert!(demux.close_call(7));
    assert!(!demux.close_call(7));
}

#[test]
fn a_closed_sink_closes_the_subscription() {
    let mut demux = ClientDemux::new();
    let sub = demux.open_subscription(2);
    demux.on_sent(&sub, 1, SendOutcome::Closed);
    assert_eq!(
        demux.plan_update(&sub, 2, Delivery::Event, 0, None),
        DeliveryPlan::Ignore
    );
}

#[test]
fn decimal_strings() {
    assert_eq!(decimal_string(0), "0");
    assert_eq!(decimal_string(1234567890), "1234567890");
    assert_eq!(decimal_string(u64::MAX), u64::MAX.to_string());
}

#[test]
fn the_subscription_cap_refuses_past_the_limit() {
    let limits = SessionLimits {
        max_connections: 1,
        max_subs_per_connection: 1,
    };
    let mut s = ServerSession::new(&limits);
    match s.on_request(Inbound::Subscribe {
        id: 4,
        topic: "t".into(),
    }) {
        SessionAction::Subscribe { id, sub, topic } => {
            assert_eq!((id, sub.as_str(), topic.as_str()), (4, "4", "t"));
            s.register(sub);
        }
        other => panic!("unexpected {:?}", other),
    }
    assert_eq!(s.live_len(), 1);
    match s.on_request(Inbound::Subscribe {
        id: 5,
        topic: "u".into(),
    }) {
        SessionAction::ReplyError { id, error } => {
            assert_eq!((id, error), (5, RpcError::Denied));
        }
        other => panic!("unexpected {:?}", other),
    }
    match s.on_request(Inbound::Unsubscribe { sub: "4".into() }) {
        SessionAction::Cancel { sub } => assert_eq!(sub, "4"),
        other => panic!("unexpected {:?}", other),
    }
    assert_eq!(s.live_len(), 0);
    assert!(matches!(s.on_request(Inbound::Ping), SessionAction::Pong));
    s.retire(&"4".to_string());
    assert_eq!(s.live_len(), 0);
}

#[test]
fn requests_and_writes_pass_through() {
    let mut s = ServerSession::new(&SessionLimits::default());
    match s.on_request(Inbound::Request {
        id: 1,
        method: "m".into(),
        params: b"{}".to_vec(),
    }) {
        SessionAction::Call { id, method, params } => {
            assert_eq!((id, method.as_str(), params), (1, "m", b"{}".to_vec()))
        }
        other => panic!("unexpected {:?}", other),
    }
    assert!(matches!(
        s.on_request(Inbound::Write {
            topic: "t".into(),
            payload: b"1".to_vec()
        }),
        SessionAction::Write { .. }
    ));
}

#[test]
fn session_defaults_and_connection_cap() {
    let c = SessionConfig::default();
    assert_eq!(c.limits.max_connections, 16);
    assert_eq!(c.limits.max_subs_per_connection, 32);
    assert!(!c.reads_hello && !c.acks_subscribe);
    assert!(admits_connection(15, &c.limits));
    assert!(!admits_connection(16, &c.limits));
    assert_eq!(next_update_seq(0), 1);
}

#[test]
fn a_remote_access_record_needs_a_buffer() {
    assert_eq!(validate_record(false, false), Ok(()));
    assert_eq!(validate_record(false, true), Ok(()));
    assert_eq!(validate_record(true, true), Ok(()));
    let err = validate_record(true, false).unwrap_err();
    assert!(err.contains("with_remote_access"));
    assert!(err.contains("no buffer"));
}

#[test]
fn writers_of_one_record_exclude_each_other() {
    let mut w = Writers { has_producer: false, has_transform: false, inbound_links: 0 };
    assert_eq!(register_writer(&mut w, Registration::Source), Ok(()));
    assert_eq!(
        register_writer(&mut w, Registration::Source),
        Err(RegistrationConflict::SecondSource)
    );
    assert_eq!(
        register_writer(&mut w, Registration::Transform),
        Err(RegistrationConflict::SourceThenTransform)
    );
    assert_eq!(
        register_writer(&mut w, Registration::InboundLink),
        Err(RegistrationConflict::SourceThenLink)
    );
    assert_eq!(w, Writers { has_producer: true, has_transform: false, inbound_links: 0 });

    let mut w = Writers { has_producer: false, has_transform: false, inbound_links: 0 };
    assert_eq!(register_writer(&mut w, Registration::InboundLink), Ok(()));
    assert_eq!(register_writer(&mut w, Registration::InboundLink), Ok(()));
    assert_eq!(w.inbound_links, 2);
    let err = register_writer(&mut w, Registration::Source).unwrap_err();
    assert_eq!(err, RegistrationConflict::LinkThenSource);
    assert_eq!(err.message(), "Record already has a .link_from(); cannot also have a .source().");
    assert_eq!(
        register_writer(&mut w, Registration::Transform),
        Err(RegistrationConflict::LinkThenTransform)
    );

    let mut w = Writers { has_producer: false, has_transform: true, inbound_links: 0 };
    assert_eq!(
        register_writer(&mut w, Registration::Transform).unwrap_err().message(),
        "Record already has a .transform(); only one is allowed."
    );
}

#[test]
fn remote_writes_only_reach_records_without_a_writer_task() {
    let free = Writers { has_producer: false, has_transform: false, inbound_links: 2 };
    assert!(check_remote_set(&free, "Config").is_ok());
    let produced = Writers { has_producer: true, has_transform: false, inbound_links: 0 };
    match check_remote_set(&produced, "Temp") {
        Err(DbError::PermissionDenied { operation }) => {
            assert!(operation.starts_with("Cannot set record 'Temp' - has active producer or transform."))
        }
        _ => panic!("expected a denied write"),
    }
    let transformed = Writers { has_producer: false, has_transform: true, inbound_links: 0 };
    assert!(check_remote_set(&transformed, "Avg").is_err());
}
