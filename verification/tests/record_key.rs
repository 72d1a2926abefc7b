use aimdb::links::{check_link, LinkDirection, LinkError};
use aimdb::pumps::{destination, step_after_read, LoopStep, ReadOutcome};
use aimdb::record_key::{record_key_table, AttrSpec, EnumSpec, KeyEntry, KeyError, VariantSpec};

fn attr(name: &str, value: Option<&str>) -> AttrSpec {
    AttrSpec {
        name: name.to_string(),
        value: value.map(|v| v.to_string()),
    }
}

fn variant(name: &str, attrs: Vec<AttrSpec>) -> VariantSpec {
    VariantSpec {
        name: name.to_string(),
        unit: true,
        attrs,
    }
}

fn sensor_enum(prefix: Option<&str>) -> EnumSpec {
    EnumSpec {
        is_enum: true,
        attrs: prefix.map(|p| vec![attr("key_prefix", Some(p))]).unwrap_or_default(),
        variants: vec![
            variant(
                "Temperature",
                vec![
                    attr("key", Some("temp")),
                    attr("link_address", Some("mqtt://sensors/temp/indoor")),
                ],
            ),
            variant("Humidity", vec![attr("key", Some("humid"))]),
        ],
    }
}

#[test]
fn keys_take_the_prefix_and_links_ride_along() {
    let table = record_key_table(&sensor_enum(Some("sensors."))).unwrap();
    assert_eq!(
        table,
        vec![
            KeyEntry {
                variant: "Temperature".into(),
                key: "sensors.temp".into(),
                link: Some("mqtt://sensors/temp/indoor".into()),
            },
            KeyEntry {
                variant: "Humidity".into(),
                key: "sensors.humid".into(),
                link: None,
            },
        ]
    );
    let plain = record_key_table(&sensor_enum(None)).unwrap();
    assert_eq!(plain[0].key, "temp");
}

#[test]
fn duplicate_keys_are_refused() {
    let mut e = sensor_enum(Some("s."));
    e.variants.push(variant("Again", vec![attr("key", Some("temp"))]));
    assert_eq!(
        record_key_table(&e),
        Err(KeyError::DuplicateKey {
            key: "s.temp".into()
        })
    );
}

#[test]
fn each_flaw_is_reported() {
    let mut not_enum = sensor_enum(None);
    not_enum.is_enum = false;
    assert_eq!(record_key_table(&not_enum), Err(KeyError::NotAnEnum));

    let mut bad_prefix = sensor_enum(None);
    bad_prefix.attrs = vec![attr("key_prefix", None)];
    assert_eq!(
        record_key_table(&bad_prefix),
        Err(KeyError::MalformedAttr {
            attr: "key_prefix".into()
        })
    );

    let mut fields = sensor_enum(None);
    fields.variants[1].unit = false;
    assert_eq!(
        record_key_table(&fields),
        Err(KeyError::NotUnitVariant {
            variant: "Humidity".into()
        })
    );

    let mut missing = sensor_enum(None);
    missing.variants[1].attrs.clear();
    assert_eq!(
        record_key_table(&missing),
        Err(KeyError::MissingKey {
            variant: "Humidity".into()
        })
    );

    let mut bad_link = sensor_enum(None);
    bad_link.variants[0].attrs[1] = attr("link_address", None);
    assert_eq!(
        record_key_table(&bad_link),
        Err(KeyError::MalformedAttr {
            attr: "link_address".into()
        })
    );
}

#[test]
fn the_first_key_attribute_decides() {
    let e = EnumSpec {
        is_enum: true,
        attrs: vec![],
        variants: vec![variant(
            "A",
            vec![attr("doc", None), attr("key", Some("a")), attr("key", None)],
        )],
    };
    assert_eq!(record_key_table(&e).unwrap()[0].key, "a");
}

#[test]
fn loops_skip_lag_and_stop_on_close() {
    assert_eq!(step_after_read(ReadOutcome::Value), LoopStep::Handle);
    assert_eq!(step_after_read(ReadOutcome::Lagged), LoopStep::ReadAgain);
    assert_eq!(step_after_read(ReadOutcome::Closed), LoopStep::Stop);
    let default = "sensors/temp".to_string();
    assert_eq!(destination(None, &default), "sensors/temp");
    assert_eq!(destination(Some("x/y".into()), &default), "x/y");
}

#[test]
fn links_check_url_codec_and_scheme_in_order() {
    let registered = vec!["mqtt".to_string(), "knx".to_string()];
    assert_eq!(
        check_link(LinkDirection::Outbound, None, false, &registered),
        Err(LinkError::InvalidUrl)
    );
    assert_eq!(
        check_link(LinkDirection::Outbound, Some("mqtt"), false, &registered),
        Err(LinkError::MissingSerializer)
    );
    assert_eq!(
        check_link(LinkDirection::Inbound, Some("mqtt"), false, &registered),
        Err(LinkError::MissingDeserializer)
    );
    assert_eq!(
        check_link(LinkDirection::Inbound, Some("knx"), true, &registered),
        Ok(())
    );
    let err = check_link(LinkDirection::Outbound, Some("serial"), true, &registered).unwrap_err();
    assert_eq!(
        err.message(),
        "No connector registered for scheme 'serial'. Register via .with_connector()"
    );
}
