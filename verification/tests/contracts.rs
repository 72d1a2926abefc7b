use aimdb::contracts::{
    copy_encoded_into, place_encoded, plan_from_version, plan_to_version, read_version, validate_chain,
    ChainError, FromPlan, Linkable, MigrationError, Observable, SchemaType,
    SerializeError, StepChain, ToPlan,
};
use aimdb::contracts::{downgrade_through, upgrade_through};
use aimdb::link_codec::LinkCodec;

struct TestSensor {
    value: f32,
}

impl SchemaType for TestSensor {
    const NAME: &'static str = "test_sensor";
}

impl Observable for TestSensor {
    type Signal = f32;
    const UNIT: &'static str = "°C";

    fn signal(&self) -> f32 {
        self.value
    }
}

#[test]
fn signal_label_defaults_to_schema_name() {
    assert_eq!(TestSensor::SIGNAL, "test_sensor");
    assert_eq!(TestSensor::UNIT, "°C");
}

#[test]
fn signal_extraction() {
    let sensor = TestSensor { value: 42.5 };
    assert_eq!(sensor.signal(), 42.5);
}

// ---------------------------------------------------------------------------
// Link codecs
// ---------------------------------------------------------------------------

#[derive(Clone, Debug, PartialEq)]
struct Reading {
    value: f32,
    sequence: u32,
}

impl SchemaType for Reading {
    const NAME: &'static str = "per_link_codec_reading";
}

#[derive(Clone, Copy)]
struct OffsetCodec {
    offset: u32,
}

impl LinkCodec<Reading> for OffsetCodec {
    fn encode_buffer_capacity() -> Option<usize> {
        Some(4)
    }

    fn decode(&self, bytes: &[u8]) -> Result<Reading, String> {
        let encoded: [u8; 4] = bytes
            .try_into()
            .map_err(|_| "offset codec expects four bytes".to_string())?;
        Ok(Reading {
            value: 0.0,
            sequence: u32::from_le_bytes(encoded).wrapping_sub(self.offset),
        })
    }

    fn encode(&self, value: &Reading) -> Result<Vec<u8>, SerializeError> {
        Ok(value
            .sequence
            .wrapping_add(self.offset)
            .to_le_bytes()
            .to_vec())
    }

    fn encode_into(&self, value: &Reading, out: &mut [u8]) -> Result<usize, SerializeError> {
        let encoded = value.sequence.wrapping_add(self.offset).to_le_bytes();
        out.get_mut(..encoded.len())
            .ok_or(SerializeError::BufferTooSmall)?
            .copy_from_slice(&encoded);
        Ok(encoded.len())
    }
}

#[test]
fn stateful_codec_configuration_is_used() {
    let reading = Reading {
        value: 0.0,
        sequence: 10,
    };
    let codec = OffsetCodec { offset: 32 };
    let mut out = [0_u8; 4];

    let written = codec
        .encode_into(&reading, &mut out)
        .expect("bounded encode");

    assert_eq!(written, 4);
    assert_eq!(u32::from_le_bytes(out), 42);
    assert_eq!(codec.decode(&out).expect("decode").sequence, 10);
    assert_eq!(<OffsetCodec as LinkCodec<Reading>>::encode_buffer_capacity(), Some(4));
}

struct TestTemp {
    text: &'static str,
}

impl SchemaType for TestTemp {
    const NAME: &'static str = "test_temp";
}

impl Linkable for TestTemp {
    fn from_bytes(data: &[u8]) -> Result<Self, String> {
        if data == b"t" {
            Ok(TestTemp { text: "t" })
        } else {
            Err("not a temperature".to_string())
        }
    }

    fn to_bytes(&self) -> Result<Vec<u8>, String> {
        Ok(self.text.as_bytes().to_vec())
    }
}

#[test]
fn default_encode_into_copies_exact_payload_and_preserves_tail() {
    let temp = TestTemp { text: "{\"c\":22.5}" };
    let expected = temp.to_bytes().unwrap();
    let mut out = vec![0xA5; expected.len() + 4];
    let written = temp.encode_into(&mut out).unwrap();
    assert_eq!(written, expected.len());
    assert_eq!(&out[..written], expected.as_slice());
    assert_eq!(&out[written..], &[0xA5; 4]);
}

#[test]
fn default_encode_into_accepts_exact_size_buffer() {
    let temp = TestTemp { text: "{\"c\":22.5}" };
    let expected = temp.to_bytes().unwrap();
    let mut out = vec![0_u8; expected.len()];
    let written = temp.encode_into(&mut out).unwrap();
    assert_eq!(written, expected.len());
    assert_eq!(out, expected);
}

#[test]
fn default_encode_into_rejects_small_buffer_without_mutating_it() {
    let temp = TestTemp { text: "{\"c\":22.5}" };
    let required = temp.to_bytes().unwrap().len();
    let mut out = vec![0xA5; required - 1];
    let before = out.clone();
    let err = temp.encode_into(&mut out).expect_err("undersized output must fail");
    assert_eq!(err, SerializeError::BufferTooSmall);
    assert_eq!(out, before);
}

#[test]
fn default_codec_delegates_to_linkable() {
    let temp = TestTemp { text: "t" };
    let codec = aimdb::link_codec::Default;
    assert_eq!(
        <aimdb::link_codec::Default as LinkCodec<TestTemp>>::encode(&codec, &temp).unwrap(),
        b"t".to_vec()
    );
    let decoded: TestTemp = codec.decode(b"t").unwrap();
    assert_eq!(decoded.text, "t");
    assert!(<aimdb::link_codec::Default as LinkCodec<TestTemp>>::decode(&codec, b"x").is_err());
    assert_eq!(
        <aimdb::link_codec::Default as LinkCodec<TestTemp>>::encode_buffer_capacity(),
        None
    );
}

#[test]
fn copying_an_encoding_keeps_the_tail() {
    let mut out = [9u8; 5];
    assert_eq!(copy_encoded_into(&[1, 2], &mut out), Ok(2));
    assert_eq!(out, [1, 2, 9, 9, 9]);
    let mut small = [7u8; 1];
    assert_eq!(
        copy_encoded_into(&[1, 2], &mut small),
        Err(SerializeError::BufferTooSmall)
    );
    assert_eq!(small, [7]);
}

#[test]
fn a_version_that_is_not_a_u32_is_missing() {
    for payload in [
        &br#"{"schema_version": "4"}"#[..],
        br#"{"schema_version": -1}"#,
        br#"{"schema_version": 1.0}"#,
        br#"{"schema_version": 4294967296}"#,
        br#"{"schema_version": null}"#,
        br#"7"#,
    ] {
        assert_eq!(
            read_version(payload, "schema_version"),
            Err(MigrationError::MissingVersion)
        );
    }
    assert_eq!(
        read_version(br#"{"v": 4294967295, "x": [1]}"#, "v"),
        Ok(4294967295)
    );
    assert_eq!(
        read_version(br#"{"v": 3"#, "v"),
        Err(MigrationError::DeserializationFailed("invalid JSON"))
    );
}

#[test]
fn plans_follow_the_version() {
    assert_eq!(plan_from_version(3, 1, 4), Ok(FromPlan::Upgrade(3)));
    assert_eq!(plan_from_version(4, 1, 4), Ok(FromPlan::Current));
    assert_eq!(plan_to_version(1, 1, 4), Ok(ToPlan::Downgrade(1)));
    assert_eq!(plan_to_version(4, 1, 4), Ok(ToPlan::Current));
}

#[test]
fn chains_are_validated_in_declaration_order() {
    assert_eq!(validate_chain(&[(1, 2), (2, 3), (3, 4)], 4), Ok(()));
    assert_eq!(validate_chain(&[], 1), Err(ChainError::Empty));
    assert_eq!(
        validate_chain(&[(1, 3)], 3),
        Err(ChainError::NotIncrement(0))
    );
    assert_eq!(
        validate_chain(&[(1, 2), (3, 4)], 4),
        Err(ChainError::NotSequential(0))
    );
    assert_eq!(validate_chain(&[(2, 3)], 3), Err(ChainError::FirstNotOne));
    assert_eq!(
        validate_chain(&[(1, 2)], 3),
        Err(ChainError::LastNotCurrent)
    );
    assert_eq!(
        validate_chain(&[(4294967295, 0)], 0),
        Err(ChainError::NotIncrement(0))
    );
}

#[test]
fn placing_an_encoding_reports_why_it_failed() {
    let mut out = [9u8; 4];
    assert_eq!(place_encoded(Ok(vec![1, 2]), &mut out), Ok(2));
    assert_eq!(out, [1, 2, 9, 9]);
    let mut out = [9u8; 1];
    assert_eq!(place_encoded(Ok(vec![1, 2]), &mut out), Err(SerializeError::BufferTooSmall));
    assert_eq!(out, [9]);
    assert_eq!(place_encoded(Err("bad".to_string()), &mut out), Err(SerializeError::InvalidData));
    assert_eq!(out, [9]);
}

/// A history of three versions over one type: version 1 counts in units,
/// version 2 in tens, version 3 adds a label; a negative count cannot go up.
#[derive(Clone, Debug, PartialEq)]
enum Meter {
    V1(i64),
    V2(i64),
    V3(i64, String),
}

struct MeterSteps;

impl StepChain for MeterSteps {
    type Value = Meter;

    fn up(k: u32, v: Meter) -> Result<Meter, MigrationError> {
        match (k, v) {
            (1, Meter::V1(n)) if n >= 0 => Ok(Meter::V2(n * 10)),
            (2, Meter::V2(n)) => Ok(Meter::V3(n, "m".to_string())),
            _ => Err(MigrationError::Custom("up")),
        }
    }

    fn down(k: u32, v: Meter) -> Result<Meter, MigrationError> {
        match (k, v) {
            (1, Meter::V2(n)) if n % 10 == 0 && n >= 0 => Ok(Meter::V1(n / 10)),
            (2, Meter::V3(n, _)) => Ok(Meter::V2(n)),
            _ => Err(MigrationError::Custom("down")),
        }
    }
}

#[test]
fn steps_run_in_order_both_ways() {
    assert_eq!(
        upgrade_through::<MeterSteps>(1, 3, Meter::V1(4)),
        Ok(Meter::V3(40, "m".to_string()))
    );
    assert_eq!(upgrade_through::<MeterSteps>(2, 3, Meter::V2(7)), Ok(Meter::V3(7, "m".to_string())));
    assert_eq!(upgrade_through::<MeterSteps>(3, 3, Meter::V2(7)), Ok(Meter::V2(7)));
    assert_eq!(
        upgrade_through::<MeterSteps>(1, 3, Meter::V1(-1)),
        Err(MigrationError::Custom("up"))
    );
    let top = Meter::V3(40, "m".to_string());
    let down = downgrade_through::<MeterSteps>(3, 1, top.clone()).unwrap();
    assert_eq!(down, Meter::V1(4));
    assert_eq!(upgrade_through::<MeterSteps>(1, 3, down), Ok(top));
    assert_eq!(
        downgrade_through::<MeterSteps>(3, 1, Meter::V3(41, "m".to_string())),
        Err(MigrationError::Custom("down"))
    );
}

#[test]
fn an_array_payload_carries_its_version_as_its_only_element() {
    assert_eq!(read_version(b"[3]", "v"), Ok(3));
    assert_eq!(read_version(b"[]", "v"), Err(MigrationError::MissingVersion));
    assert_eq!(read_version(br#"["3"]"#, "v"), Err(MigrationError::MissingVersion));
    assert_eq!(
        read_version(b"[3, 4]", "v"),
        Err(MigrationError::DeserializationFailed("invalid JSON"))
    );
}
