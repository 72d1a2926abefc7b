use aimdb::contracts::{MigrationChain, MigrationError, SchemaType, StepChain};
use serde_json::Value;

// Payloads are written and read by hand as JSON objects.

fn write_object(fields: Vec<(&str, Value)>) -> Result<Vec<u8>, MigrationError> {
    let mut m = serde_json::Map::new();
    for (k, v) in fields {
        m.insert(k.to_string(), v);
    }
    serde_json::to_vec(&Value::Object(m)).map_err(|_| MigrationError::SerializationFailed("json"))
}

fn read_object(data: &[u8], what: &'static str) -> Result<serde_json::Map<String, Value>, MigrationError> {
    match serde_json::from_slice::<Value>(data) {
        Ok(Value::Object(m)) => Ok(m),
        _ => Err(MigrationError::DeserializationFailed(what)),
    }
}

fn get_u64(m: &serde_json::Map<String, Value>, key: &str, what: &'static str) -> Result<u64, MigrationError> {
    m.get(key).and_then(|v| v.as_u64()).ok_or(MigrationError::DeserializationFailed(what))
}

fn get_u32(m: &serde_json::Map<String, Value>, key: &str, what: &'static str) -> Result<u32, MigrationError> {
    let v = get_u64(m, key, what)?;
    u32::try_from(v).map_err(|_| MigrationError::DeserializationFailed(what))
}

fn version_or(m: &serde_json::Map<String, Value>, default: u32, what: &'static str) -> Result<u32, MigrationError> {
    match m.get("schema_version") {
        None => Ok(default),
        Some(_) => get_u32(m, "schema_version", what),
    }
}

fn get_str(m: &serde_json::Map<String, Value>, key: &str, what: &'static str) -> Result<String, MigrationError> {
    m.get(key)
        .and_then(|v| v.as_str())
        .map(|s| s.to_string())
        .ok_or(MigrationError::DeserializationFailed(what))
}

fn get_bool(m: &serde_json::Map<String, Value>, key: &str, what: &'static str) -> Result<bool, MigrationError> {
    m.get(key).and_then(|v| v.as_bool()).ok_or(MigrationError::DeserializationFailed(what))
}

fn wrong_step() -> MigrationError {
    MigrationError::Custom("no such step for this value")
}

// ---------------------------------------------------------------------------
// 1-step chain: Widget v1 -> v2
// ---------------------------------------------------------------------------

#[derive(Clone, Debug, PartialEq)]
struct WidgetV1 {
    schema_version: u32,
    count: u32,
}

#[derive(Clone, Debug, PartialEq)]
struct WidgetV2 {
    schema_version: u32,
    count: u64,
}

impl SchemaType for WidgetV2 {
    const NAME: &'static str = "widget";
    const VERSION: u32 = 2;
}

#[derive(Clone, Debug, PartialEq)]
enum Widget {
    V1(WidgetV1),
    V2(WidgetV2),
}

struct WidgetSteps;

impl StepChain for WidgetSteps {
    type Value = Widget;

    fn up(k: u32, v: Widget) -> Result<Widget, MigrationError> {
        match (k, v) {
            (1, Widget::V1(w)) => Ok(Widget::V2(WidgetV2 { schema_version: 2, count: u64::from(w.count) })),
            _ => Err(wrong_step()),
        }
    }

    fn down(k: u32, v: Widget) -> Result<Widget, MigrationError> {
        match (k, v) {
            (1, Widget::V2(w)) => Ok(Widget::V1(WidgetV1 { schema_version: 1, count: w.count as u32 })),
            _ => Err(wrong_step()),
        }
    }
}

fn widget_v1_bytes(w: &WidgetV1) -> Vec<u8> {
    write_object(vec![
        ("schema_version", Value::from(w.schema_version)),
        ("count", Value::from(w.count)),
    ])
    .unwrap()
}

fn widget_v2_bytes(w: &WidgetV2) -> Vec<u8> {
    write_object(vec![
        ("schema_version", Value::from(w.schema_version)),
        ("count", Value::from(w.count)),
    ])
    .unwrap()
}

impl MigrationChain for WidgetV2 {
    const VERSION_FIELD: &'static str = "schema_version";
    type Steps = WidgetSteps;

    fn parse_at(version: u32, data: &[u8]) -> Result<Widget, MigrationError> {
        match version {
            1 => {
                let m = read_object(data, "failed to parse as WidgetV1")?;
                Ok(Widget::V1(WidgetV1 {
                    schema_version: version_or(&m, 1, "failed to parse as WidgetV1")?,
                    count: get_u32(&m, "count", "failed to parse as WidgetV1")?,
                }))
            }
            2 => {
                let m = read_object(data, "failed to parse as WidgetV2")?;
                Ok(Widget::V2(WidgetV2 {
                    schema_version: version_or(&m, 2, "failed to parse as WidgetV2")?,
                    count: get_u64(&m, "count", "failed to parse as WidgetV2")?,
                }))
            }
            _ => Err(wrong_step()),
        }
    }

    fn write_at(_version: u32, v: &Widget) -> Result<Vec<u8>, MigrationError> {
        match v {
            Widget::V1(w) => Ok(widget_v1_bytes(w)),
            Widget::V2(w) => Ok(widget_v2_bytes(w)),
        }
    }

    fn into_current(v: Widget) -> Result<WidgetV2, MigrationError> {
        match v {
            Widget::V2(w) => Ok(w),
            _ => Err(wrong_step()),
        }
    }

    fn to_value(&self) -> Widget {
        Widget::V2(self.clone())
    }
}

fn as_widget_v1(bytes: &[u8]) -> WidgetV1 {
    match WidgetV2::parse_at(1, bytes).unwrap() {
        Widget::V1(w) => w,
        other => panic!("expected a v1 widget, got {:?}", other),
    }
}

#[test]
fn widget_upgrades_from_v1() {
    let v1 = WidgetV1 { schema_version: 1, count: 7 };
    let bytes = widget_v1_bytes(&v1);
    let current = WidgetV2::migrate_from_bytes(&bytes).unwrap();
    assert_eq!(current, WidgetV2 { schema_version: 2, count: 7 });
}

#[test]
fn widget_parses_current_version_directly() {
    let v2 = WidgetV2 { schema_version: 2, count: 42 };
    let bytes = widget_v2_bytes(&v2);
    let current = WidgetV2::migrate_from_bytes(&bytes).unwrap();
    assert_eq!(current, v2);
}

#[test]
fn widget_downgrades_to_v1() {
    let v2 = WidgetV2 { schema_version: 2, count: 9 };
    let bytes = v2.migrate_to_version(1).unwrap();
    assert_eq!(as_widget_v1(&bytes), WidgetV1 { schema_version: 1, count: 9 });
}

#[test]
fn widget_serializes_current_version_directly() {
    let v2 = WidgetV2 { schema_version: 2, count: 5 };
    let bytes = v2.migrate_to_version(2).unwrap();
    match WidgetV2::parse_at(2, &bytes).unwrap() {
        Widget::V2(w) => assert_eq!(w, v2),
        other => panic!("expected a v2 widget, got {:?}", other),
    }
}

// ---------------------------------------------------------------------------
// 2-step chain: Gadget v1 -> v2 -> v3
// ---------------------------------------------------------------------------

#[derive(Clone, Debug, PartialEq)]
struct GadgetV1 {
    schema_version: u32,
    watts: u32,
}

#[derive(Clone, Debug, PartialEq)]
struct GadgetV2 {
    schema_version: u32,
    milliwatts: u32,
}

#[derive(Clone, Debug, PartialEq)]
struct GadgetV3 {
    schema_version: u32,
    milliwatts: u64,
}

impl SchemaType for GadgetV3 {
    const NAME: &'static str = "gadget";
    const VERSION: u32 = 3;
}

#[derive(Clone, Debug, PartialEq)]
enum Gadget {
    V1(GadgetV1),
    V2(GadgetV2),
    V3(GadgetV3),
}

struct GadgetSteps;

impl StepChain for GadgetSteps {
    type Value = Gadget;

    fn up(k: u32, v: Gadget) -> Result<Gadget, MigrationError> {
        match (k, v) {
            (1, Gadget::V1(g)) => Ok(Gadget::V2(GadgetV2 { schema_version: 2, milliwatts: g.watts * 1000 })),
            (2, Gadget::V2(g)) => Ok(Gadget::V3(GadgetV3 {
                schema_version: 3,
                milliwatts: u64::from(g.milliwatts),
            })),
            _ => Err(wrong_step()),
        }
    }

    fn down(k: u32, v: Gadget) -> Result<Gadget, MigrationError> {
        match (k, v) {
            (1, Gadget::V2(g)) => Ok(Gadget::V1(GadgetV1 { schema_version: 1, watts: g.milliwatts / 1000 })),
            (2, Gadget::V3(g)) => Ok(Gadget::V2(GadgetV2 {
                schema_version: 2,
                milliwatts: g.milliwatts as u32,
            })),
            _ => Err(wrong_step()),
        }
    }
}

fn gadget_bytes(v: &Gadget) -> Vec<u8> {
    match v {
        Gadget::V1(g) => write_object(vec![
            ("schema_version", Value::from(g.schema_version)),
            ("watts", Value::from(g.watts)),
        ]),
        Gadget::V2(g) => write_object(vec![
            ("schema_version", Value::from(g.schema_version)),
            ("milliwatts", Value::from(g.milliwatts)),
        ]),
        Gadget::V3(g) => write_object(vec![
            ("schema_version", Value::from(g.schema_version)),
            ("milliwatts", Value::from(g.milliwatts)),
        ]),
    }
    .unwrap()
}

impl MigrationChain for GadgetV3 {
    const VERSION_FIELD: &'static str = "schema_version";
    type Steps = GadgetSteps;

    fn parse_at(version: u32, data: &[u8]) -> Result<Gadget, MigrationError> {
        let what = "failed to parse as a gadget";
        let m = read_object(data, what)?;
        match version {
            1 => Ok(Gadget::V1(GadgetV1 {
                schema_version: version_or(&m, 1, what)?,
                watts: get_u32(&m, "watts", what)?,
            })),
            2 => Ok(Gadget::V2(GadgetV2 {
                schema_version: version_or(&m, 2, what)?,
                milliwatts: get_u32(&m, "milliwatts", what)?,
            })),
            3 => Ok(Gadget::V3(GadgetV3 {
                schema_version: version_or(&m, 3, what)?,
                milliwatts: get_u64(&m, "milliwatts", what)?,
            })),
            _ => Err(wrong_step()),
        }
    }

    fn write_at(_version: u32, v: &Gadget) -> Result<Vec<u8>, MigrationError> {
        Ok(gadget_bytes(v))
    }

    fn into_current(v: Gadget) -> Result<GadgetV3, MigrationError> {
        match v {
            Gadget::V3(g) => Ok(g),
            _ => Err(wrong_step()),
        }
    }

    fn to_value(&self) -> Gadget {
        Gadget::V3(self.clone())
    }
}

#[test]
fn gadget_upgrades_from_v1() {
    let bytes = gadget_bytes(&Gadget::V1(GadgetV1 { schema_version: 1, watts: 2 }));
    let current = GadgetV3::migrate_from_bytes(&bytes).unwrap();
    assert_eq!(current, GadgetV3 { schema_version: 3, milliwatts: 2000 });
}

#[test]
fn gadget_upgrades_from_v2() {
    let bytes = gadget_bytes(&Gadget::V2(GadgetV2 { schema_version: 2, milliwatts: 1500 }));
    let current = GadgetV3::migrate_from_bytes(&bytes).unwrap();
    assert_eq!(current, GadgetV3 { schema_version: 3, milliwatts: 1500 });
}

#[test]
fn gadget_downgrades_to_v1() {
    let v3 = GadgetV3 { schema_version: 3, milliwatts: 4000 };
    let bytes = v3.migrate_to_version(1).unwrap();
    assert_eq!(
        GadgetV3::parse_at(1, &bytes).unwrap(),
        Gadget::V1(GadgetV1 { schema_version: 1, watts: 4 })
    );
}

#[test]
fn gadget_downgrades_to_v2() {
    let v3 = GadgetV3 { schema_version: 3, milliwatts: 4000 };
    let bytes = v3.migrate_to_version(2).unwrap();
    assert_eq!(
        GadgetV3::parse_at(2, &bytes).unwrap(),
        Gadget::V2(GadgetV2 { schema_version: 2, milliwatts: 4000 })
    );
}

// ---------------------------------------------------------------------------
// 3-step chain: Gizmo v1 -> v2 -> v3 -> v4
// ---------------------------------------------------------------------------

#[derive(Clone, Debug, PartialEq)]
struct GizmoV1 {
    schema_version: u32,
    label: String,
}

#[derive(Clone, Debug, PartialEq)]
struct GizmoV2 {
    schema_version: u32,
    label: String,
    revision: u32,
}

#[derive(Clone, Debug, PartialEq)]
struct GizmoV3 {
    schema_version: u32,
    label: String,
    revision: u32,
    active: bool,
}

#[derive(Clone, Debug, PartialEq)]
struct GizmoV4 {
    schema_version: u32,
    label: String,
    revision: u64,
    active: bool,
}

impl SchemaType for GizmoV4 {
    const NAME: &'static str = "gizmo";
    const VERSION: u32 = 4;
}

#[derive(Clone, Debug, PartialEq)]
enum Gizmo {
    V1(GizmoV1),
    V2(GizmoV2),
    V3(GizmoV3),
    V4(GizmoV4),
}

struct GizmoSteps;

impl StepChain for GizmoSteps {
    type Value = Gizmo;

    fn up(k: u32, v: Gizmo) -> Result<Gizmo, MigrationError> {
        match (k, v) {
            (1, Gizmo::V1(g)) => Ok(Gizmo::V2(GizmoV2 { schema_version: 2, label: g.label, revision: 0 })),
            (2, Gizmo::V2(g)) => Ok(Gizmo::V3(GizmoV3 {
                schema_version: 3,
                label: g.label,
                revision: g.revision,
                active: true,
            })),
            (3, Gizmo::V3(g)) => Ok(Gizmo::V4(GizmoV4 {
                schema_version: 4,
                label: g.label,
                revision: u64::from(g.revision),
                active: g.active,
            })),
            _ => Err(wrong_step()),
        }
    }

    fn down(k: u32, v: Gizmo) -> Result<Gizmo, MigrationError> {
        match (k, v) {
            (1, Gizmo::V2(g)) => Ok(Gizmo::V1(GizmoV1 { schema_version: 1, label: g.label })),
            (2, Gizmo::V3(g)) => Ok(Gizmo::V2(GizmoV2 {
                schema_version: 2,
                label: g.label,
                revision: g.revision,
            })),
            (3, Gizmo::V4(g)) => Ok(Gizmo::V3(GizmoV3 {
                schema_version: 3,
                label: g.label,
                revision: g.revision as u32,
                active: g.active,
            })),
            _ => Err(wrong_step()),
        }
    }
}

fn gizmo_bytes(v: &Gizmo) -> Vec<u8> {
    match v {
        Gizmo::V1(g) => write_object(vec![
            ("schema_version", Value::from(g.schema_version)),
            ("label", Value::from(g.label.clone())),
        ]),
        Gizmo::V2(g) => write_object(vec![
            ("schema_version", Value::from(g.schema_version)),
            ("label", Value::from(g.label.clone())),
            ("revision", Value::from(g.revision)),
        ]),
        Gizmo::V3(g) => write_object(vec![
            ("schema_version", Value::from(g.schema_version)),
            ("label", Value::from(g.label.clone())),
            ("revision", Value::from(g.revision)),
            ("active", Value::from(g.active)),
        ]),
        Gizmo::V4(g) => write_object(vec![
            ("schema_version", Value::from(g.schema_version)),
            ("label", Value::from(g.label.clone())),
            ("revision", Value::from(g.revision)),
            ("active", Value::from(g.active)),
        ]),
    }
    .unwrap()
}

impl MigrationChain for GizmoV4 {
    const VERSION_FIELD: &'static str = "schema_version";
    type Steps = GizmoSteps;

    fn parse_at(version: u32, data: &[u8]) -> Result<Gizmo, MigrationError> {
        let what = "failed to parse as a gizmo";
        let m = read_object(data, what)?;
        match version {
            1 => Ok(Gizmo::V1(GizmoV1 {
                schema_version: version_or(&m, 1, what)?,
                label: get_str(&m, "label", what)?,
            })),
            2 => Ok(Gizmo::V2(GizmoV2 {
                schema_version: version_or(&m, 2, what)?,
                label: get_str(&m, "label", what)?,
                revision: get_u32(&m, "revision", what)?,
            })),
            3 => Ok(Gizmo::V3(GizmoV3 {
                schema_version: version_or(&m, 3, what)?,
                label: get_str(&m, "label", what)?,
                revision: get_u32(&m, "revision", what)?,
                active: get_bool(&m, "active", what)?,
            })),
            4 => Ok(Gizmo::V4(GizmoV4 {
                schema_version: version_or(&m, 4, what)?,
                label: get_str(&m, "label", what)?,
                revision: get_u64(&m, "revision", what)?,
                active: get_bool(&m, "active", what)?,
            })),
            _ => Err(wrong_step()),
        }
    }

    fn write_at(_version: u32, v: &Gizmo) -> Result<Vec<u8>, MigrationError> {
        Ok(gizmo_bytes(v))
    }

    fn into_current(v: Gizmo) -> Result<GizmoV4, MigrationError> {
        match v {
            Gizmo::V4(g) => Ok(g),
            _ => Err(wrong_step()),
        }
    }

    fn to_value(&self) -> Gizmo {
        Gizmo::V4(self.clone())
    }
}

fn gizmo() -> GizmoV4 {
    GizmoV4 { schema_version: 4, label: "z".into(), revision: 3, active: true }
}

#[test]
fn gizmo_upgrades_from_every_historical_version() {
    let v1 = Gizmo::V1(GizmoV1 { schema_version: 1, label: "a".into() });
    assert_eq!(
        GizmoV4::migrate_from_bytes(&gizmo_bytes(&v1)).unwrap(),
        GizmoV4 { schema_version: 4, label: "a".into(), revision: 0, active: true }
    );
    let v2 = Gizmo::V2(GizmoV2 { schema_version: 2, label: "b".into(), revision: 5 });
    assert_eq!(
        GizmoV4::migrate_from_bytes(&gizmo_bytes(&v2)).unwrap(),
        GizmoV4 { schema_version: 4, label: "b".into(), revision: 5, active: true }
    );
    let v3 = Gizmo::V3(GizmoV3 { schema_version: 3, label: "c".into(), revision: 9, active: false });
    assert_eq!(
        GizmoV4::migrate_from_bytes(&gizmo_bytes(&v3)).unwrap(),
        GizmoV4 { schema_version: 4, label: "c".into(), revision: 9, active: false }
    );
    let v4 = GizmoV4 { schema_version: 4, label: "d".into(), revision: 12, active: true };
    assert_eq!(GizmoV4::migrate_from_bytes(&gizmo_bytes(&Gizmo::V4(v4.clone()))).unwrap(), v4);
}

#[test]
fn gizmo_downgrades_to_every_target_version() {
    let current = gizmo();
    assert_eq!(
        GizmoV4::parse_at(1, &current.migrate_to_version(1).unwrap()).unwrap(),
        Gizmo::V1(GizmoV1 { schema_version: 1, label: "z".into() })
    );
    assert_eq!(
        GizmoV4::parse_at(2, &current.migrate_to_version(2).unwrap()).unwrap(),
        Gizmo::V2(GizmoV2 { schema_version: 2, label: "z".into(), revision: 3 })
    );
    assert_eq!(
        GizmoV4::parse_at(3, &current.migrate_to_version(3).unwrap()).unwrap(),
        Gizmo::V3(GizmoV3 { schema_version: 3, label: "z".into(), revision: 3, active: true })
    );
    assert_eq!(
        GizmoV4::parse_at(4, &current.migrate_to_version(4).unwrap()).unwrap(),
        Gizmo::V4(current.clone())
    );
}

#[test]
fn every_written_version_reads_back() {
    // The v1 and v2 schemas carry no `active`, and v1 no `revision`: a value
    // whose dropped fields hold what the upgrade fills in reads back from
    // every version.
    let current = GizmoV4 { schema_version: 4, label: "z".into(), revision: 0, active: true };
    for k in 1..=4 {
        let bytes = current.migrate_to_version(k).unwrap();
        assert_eq!(GizmoV4::migrate_from_bytes(&bytes).unwrap(), current);
    }
    // A revision that v1 cannot hold is lost on the way down and back.
    let bytes = gizmo().migrate_to_version(1).unwrap();
    assert_eq!(GizmoV4::migrate_from_bytes(&bytes).unwrap().revision, 0);
}

// ---------------------------------------------------------------------------
// Error paths
// ---------------------------------------------------------------------------

#[test]
fn error_on_malformed_payload() {
    let err = GizmoV4::migrate_from_bytes(b"not json").unwrap_err();
    assert_eq!(err, MigrationError::DeserializationFailed("invalid JSON"));
}

#[test]
fn error_on_missing_version_field() {
    let err = GizmoV4::migrate_from_bytes(br#"{"label": "no version"}"#).unwrap_err();
    assert_eq!(err, MigrationError::MissingVersion);
}

#[test]
fn error_on_version_too_new() {
    let payload = br#"{"schema_version": 99, "label": "future"}"#;
    let err = GizmoV4::migrate_from_bytes(payload).unwrap_err();
    assert_eq!(err, MigrationError::VersionTooNew { source: 99, current: 4 });
}

#[test]
fn error_on_target_version_too_old() {
    let err = gizmo().migrate_to_version(0).unwrap_err();
    assert_eq!(err, MigrationError::VersionTooOld { target: 0, minimum: 1 });
}

#[test]
fn error_on_target_version_too_new() {
    let err = gizmo().migrate_to_version(5).unwrap_err();
    assert_eq!(err, MigrationError::VersionTooNew { source: 5, current: 4 });
}

#[test]
fn a_version_below_the_chain_is_too_old() {
    assert_eq!(
        GizmoV4::migrate_from_bytes(br#"{"schema_version": 0}"#).unwrap_err(),
        MigrationError::VersionTooOld { target: 0, minimum: 1 }
    );
}
