use aimdb::client::ClientConfig;
use aimdb::codec::AimxCodec;
use aimdb::connectors::{AimxClientConnector, SessionClientConnector, SessionServerConnector, UdsDialer};
use aimdb::records::{RecordValue, StageKind};
use aimdb::server::SessionConfig;

#[test]
fn session_connectors_default_to_the_remote_scheme() {
    let c = SessionClientConnector::new(UdsDialer::new("/tmp/a.sock".into()), AimxCodec);
    assert_eq!(c.scheme_name(), "remote");
    assert_eq!(c.dialer().socket_path(), "/tmp/a.sock");
    let c = c.scheme("aimx".into()).with_config(ClientConfig {
        reconnect: false,
        ..ClientConfig::default()
    });
    assert_eq!(c.scheme_name(), "aimx");
    assert!(!c.config().reconnect);

    let s = SessionServerConnector::new(|| 1u8, AimxCodec, || 2u8, SessionConfig::default());
    assert_eq!(s.scheme_name(), "remote");
    let s = s.scheme("uds".into());
    assert_eq!(s.scheme_name(), "uds");
    assert_eq!((s.listener_factory())(), 1);
    assert_eq!(s.config().limits.max_connections, 16);
}

#[test]
fn the_aimx_client_keeps_its_socket_and_config() {
    let c = AimxClientConnector::new("/run/aimx.sock".into());
    assert_eq!(c.socket_path(), "/run/aimx.sock");
    assert_eq!(c.scheme_name(), "aimx");
    assert!(c.config().reconnect);
    let c = c.with_config(ClientConfig {
        max_reconnect_attempts: 3,
        ..ClientConfig::default()
    });
    assert_eq!(c.config().max_reconnect_attempts, 3);
}

#[test]
fn record_values_hand_back_their_value() {
    let v = RecordValue::new(vec![1, 2]);
    assert_eq!(v.get(), &vec![1, 2]);
    assert_eq!(v.cloned(), vec![1, 2]);
    assert_eq!(v.into_inner(), vec![1, 2]);
    assert_ne!(StageKind::Source, StageKind::Tap);
}
