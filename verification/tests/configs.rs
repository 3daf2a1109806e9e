use rdkafka_admin::client::{next_poll_action, PollAction};
use rdkafka_admin::config::{
    alter_configs_results, describe_configs_results, extract_config_source,
    extract_config_specifier, AlterConfig, AlterConfigsEvent, ConfigEntry, ConfigResource,
    ConfigSource, DescribeConfigsEvent, OwnedResourceSpecifier, RDKafkaConfigSource,
    RDKafkaResourceType, RawConfigEntry, RawConfigResource, ResourceSpecifier,
};
use rdkafka_admin::error::{
    check_event_error, check_rdkafka_invalid_arg, ErrBuf, KafkaError, NulError, RDKafkaError,
};

fn ok() -> RDKafkaError {
    RDKafkaError { code: 0 }
}

fn entry(name: &str, value: Option<&str>) -> ConfigEntry {
    ConfigEntry {
        name: name.to_string(),
        value: value.map(|v| v.to_string()),
        source: ConfigSource::Default,
        is_read_only: false,
        is_default: true,
        is_sensitive: false,
    }
}

#[test]
fn resource_specifier_to_native() {
    assert_eq!(
        ResourceSpecifier::Topic("t").to_native(),
        Ok(("t".to_string(), RDKafkaResourceType::RD_KAFKA_RESOURCE_TOPIC))
    );
    assert_eq!(
        ResourceSpecifier::Group("g").to_native(),
        Ok(("g".to_string(), RDKafkaResourceType::RD_KAFKA_RESOURCE_GROUP))
    );
    assert_eq!(
        ResourceSpecifier::Broker(-12).to_native(),
        Ok(("-12".to_string(), RDKafkaResourceType::RD_KAFKA_RESOURCE_BROKER))
    );
    assert_eq!(
        ResourceSpecifier::Group("\0").to_native(),
        Err(KafkaError::Nul(NulError { position: 0, bytes: vec![0] }))
    );
}

#[test]
fn specifier_reads_back_as_itself() {
    for (spec, owned) in [
        (ResourceSpecifier::Topic("t"), OwnedResourceSpecifier::Topic("t".to_string())),
        (ResourceSpecifier::Group("g"), OwnedResourceSpecifier::Group("g".to_string())),
        (ResourceSpecifier::Broker(0), OwnedResourceSpecifier::Broker(0)),
        (ResourceSpecifier::Broker(i32::MIN), OwnedResourceSpecifier::Broker(i32::MIN)),
    ] {
        let (name, typ) = spec.to_native().unwrap();
        assert_eq!(extract_config_specifier(typ, &name), Ok(owned));
    }
}

#[test]
fn bogus_specifiers() {
    assert_eq!(
        extract_config_specifier(RDKafkaResourceType::RD_KAFKA_RESOURCE_BROKER, "x1"),
        Err(KafkaError::AdminOpCreation("bogus broker ID in kafka response: x1".to_string()))
    );
    assert_eq!(
        extract_config_specifier(RDKafkaResourceType::RD_KAFKA_RESOURCE_ANY, "t"),
        Err(KafkaError::AdminOpCreation(
            "bogus resource type in kafka response: RD_KAFKA_RESOURCE_ANY".to_string()
        ))
    );
    assert_eq!(
        format!("{:?}", RDKafkaResourceType::RD_KAFKA_RESOURCE_UNKNOWN),
        rdkafka_admin::config::resource_type_str(RDKafkaResourceType::RD_KAFKA_RESOURCE_UNKNOWN)
    );
}

#[test]
fn config_sources() {
    assert_eq!(extract_config_source(RDKafkaConfigSource::RD_KAFKA_CONFIG_SOURCE_UNKNOWN_CONFIG), Ok(ConfigSource::Unknown));
    assert_eq!(
        extract_config_source(RDKafkaConfigSource::RD_KAFKA_CONFIG_SOURCE_DYNAMIC_TOPIC_CONFIG),
        Ok(ConfigSource::DynamicTopic)
    );
    assert_eq!(
        extract_config_source(RDKafkaConfigSource::RD_KAFKA_CONFIG_SOURCE_DYNAMIC_BROKER_CONFIG),
        Ok(ConfigSource::DynamicBroker)
    );
    assert_eq!(
        extract_config_source(RDKafkaConfigSource::RD_KAFKA_CONFIG_SOURCE_DYNAMIC_DEFAULT_BROKER_CONFIG),
        Ok(ConfigSource::DynamicDefaultBroker)
    );
    assert_eq!(
        extract_config_source(RDKafkaConfigSource::RD_KAFKA_CONFIG_SOURCE_STATIC_BROKER_CONFIG),
        Ok(ConfigSource::StaticBroker)
    );
    assert_eq!(extract_config_source(RDKafkaConfigSource::RD_KAFKA_CONFIG_SOURCE_DEFAULT_CONFIG), Ok(ConfigSource::Default));
    assert_eq!(
        extract_config_source(RDKafkaConfigSource::RD_KAFKA_CONFIG_SOURCE__CNT),
        Err(KafkaError::AdminOpCreation(format!(
            "bogus config source type in kafka response: {:?}",
            RDKafkaConfigSource::RD_KAFKA_CONFIG_SOURCE__CNT
        )))
    );
}

#[test]
fn get_finds_first_entry() {
    let r = ConfigResource {
        specifier: OwnedResourceSpecifier::Topic("t".to_string()),
        entries: vec![entry("a", Some("1")), entry("b", None), entry("a", Some("2"))],
    };
    assert_eq!(r.get("a"), Some(&entry("a", Some("1"))));
    assert_eq!(r.get("b"), Some(&entry("b", None)));
    assert_eq!(r.get("c"), None);
}

#[test]
fn entry_map_keeps_last_entry() {
    let r = ConfigResource {
        specifier: OwnedResourceSpecifier::Broker(1),
        entries: vec![entry("a", Some("1")), entry("b", None), entry("a", Some("2"))],
    };
    let m = r.entry_map();
    assert_eq!(m.get("a"), Some(&entry("a", Some("2"))));
    assert_eq!(m.get("b"), Some(&entry("b", None)));
    assert_eq!(m.get("c"), None);
}

#[test]
fn entry_map_agrees_with_get_on_distinct_names() {
    let r = ConfigResource {
        specifier: OwnedResourceSpecifier::Group("g".to_string()),
        entries: vec![entry("x", Some("1")), entry("y", Some("2")), entry("z", None)],
    };
    let m = r.entry_map();
    for name in ["x", "y", "z", "w"] {
        assert_eq!(m.get(name), r.get(name));
    }
}

#[test]
fn alter_config_set_overwrites() {
    let c = AlterConfig::new(ResourceSpecifier::Topic("t"))
        .set("a", "1")
        .set("b", "2")
        .set("a", "3");
    assert_eq!(c.specifier, ResourceSpecifier::Topic("t"));
    assert_eq!(c.entries, vec![("a", "3"), ("b", "2")]);
}

#[test]
fn alter_config_sends_last_pair_per_key() {
    let mut c = AlterConfig::new(ResourceSpecifier::Topic("t")).set("a", "1").set("b", "2");
    c.entries.push(("a", "9"));
    let n = c.to_native().unwrap();
    assert_eq!(
        n.entries,
        vec![("b".to_string(), "2".to_string()), ("a".to_string(), "9".to_string())]
    );
    assert_eq!(n.entries_error, None);
    let c = c.set("a", "5");
    assert_eq!(c.entries, vec![("a", "1"), ("b", "2"), ("a", "5")]);
}

#[test]
fn alter_config_to_native() {
    let c = AlterConfig::new(ResourceSpecifier::Broker(5)).set("a", "1").set("b\0", "2").set("c", "3");
    let n = c.to_native().unwrap();
    assert_eq!(n.typ, RDKafkaResourceType::RD_KAFKA_RESOURCE_BROKER);
    assert_eq!(n.name, "5");
    assert_eq!(n.entries, vec![("a".to_string(), "1".to_string())]);
    assert_eq!(
        n.entries_error,
        Some(KafkaError::Nul(NulError { position: 1, bytes: vec![b'b', 0] }))
    );
    let c = AlterConfig::new(ResourceSpecifier::Topic("t\0"));
    assert!(matches!(c.to_native(), Err(KafkaError::Nul(_))));
}

#[test]
fn invalid_arg_check() {
    let buf = ErrBuf { len: 512, text: "bad value".to_string() };
    assert_eq!(check_rdkafka_invalid_arg(ok(), &buf, "Success"), Ok(()));
    assert_eq!(
        check_rdkafka_invalid_arg(RDKafkaError { code: -186 }, &buf, "InvalidArgument"),
        Err(KafkaError::AdminOpCreation("bad value".to_string()))
    );
    let empty = ErrBuf { len: 0, text: String::new() };
    assert_eq!(
        check_rdkafka_invalid_arg(RDKafkaError { code: -186 }, &empty, "InvalidArgument"),
        Err(KafkaError::AdminOpCreation("invalid argument".to_string()))
    );
    assert_eq!(
        check_rdkafka_invalid_arg(RDKafkaError { code: -172 }, &buf, "Conflict (Local: Conflicting use)"),
        Err(KafkaError::AdminOpCreation(
            "setting admin options returned unexpected error code Conflict (Local: Conflicting use)"
                .to_string()
        ))
    );
    let fresh = ErrBuf::new();
    assert_eq!(fresh.len(), 512);
}

#[test]
fn event_error_check() {
    assert_eq!(check_event_error(ok()), Ok(()));
    assert_eq!(
        check_event_error(RDKafkaError { code: 1 }),
        Err(KafkaError::AdminOp(RDKafkaError { code: 1 }))
    );
}

fn raw_entry(name: &str, source: RDKafkaConfigSource) -> RawConfigEntry {
    RawConfigEntry {
        name: name.to_string(),
        value: Some("v".to_string()),
        source,
        is_read_only: 2,
        is_default: 0,
        is_sensitive: 1,
    }
}

#[test]
fn describe_configs_answer() {
    let event = DescribeConfigsEvent {
        error: ok(),
        result_present: true,
        event_type: 104,
        resources: vec![
            RawConfigResource {
                typ: RDKafkaResourceType::RD_KAFKA_RESOURCE_BROKER,
                name: "3".to_string(),
                entries: vec![raw_entry("k", RDKafkaConfigSource::RD_KAFKA_CONFIG_SOURCE_STATIC_BROKER_CONFIG)],
            },
            RawConfigResource {
                typ: RDKafkaResourceType::RD_KAFKA_RESOURCE_TOPIC,
                name: "t".to_string(),
                entries: vec![],
            },
        ],
    };
    let out = describe_configs_results(&event).unwrap();
    assert_eq!(out.len(), 2);
    let first = out[0].as_ref().unwrap();
    assert_eq!(first.specifier, OwnedResourceSpecifier::Broker(3));
    assert_eq!(
        first.entries,
        vec![ConfigEntry {
            name: "k".to_string(),
            value: Some("v".to_string()),
            source: ConfigSource::StaticBroker,
            is_read_only: true,
            is_default: false,
            is_sensitive: true,
        }]
    );
    let second = out[1].as_ref().unwrap();
    assert_eq!(second.specifier, OwnedResourceSpecifier::Topic("t".to_string()));
    assert!(second.entries.is_empty());
}

#[test]
fn describe_configs_first_bad_resource_fails() {
    let event = DescribeConfigsEvent {
        error: ok(),
        result_present: true,
        event_type: 104,
        resources: vec![
            RawConfigResource {
                typ: RDKafkaResourceType::RD_KAFKA_RESOURCE_TOPIC,
                name: "t".to_string(),
                entries: vec![raw_entry("k", RDKafkaConfigSource::RD_KAFKA_CONFIG_SOURCE__CNT)],
            },
            RawConfigResource {
                typ: RDKafkaResourceType::RD_KAFKA_RESOURCE_BROKER,
                name: "nope".to_string(),
                entries: vec![],
            },
        ],
    };
    assert_eq!(
        describe_configs_results(&event).unwrap_err(),
        KafkaError::AdminOpCreation(
            "bogus config source type in kafka response: RD_KAFKA_CONFIG_SOURCE__CNT".to_string()
        )
    );
}

#[test]
fn describe_configs_wrong_kind() {
    let event = DescribeConfigsEvent { error: ok(), result_present: false, event_type: -3, resources: vec![] };
    assert_eq!(
        describe_configs_results(&event).unwrap_err(),
        KafkaError::AdminOpCreation(
            "describe configs request received response of incorrect type (-3)".to_string()
        )
    );
}

#[test]
fn alter_configs_answer() {
    let event = AlterConfigsEvent {
        error: ok(),
        result_present: true,
        event_type: 103,
        resources: vec![
            (RDKafkaResourceType::RD_KAFKA_RESOURCE_GROUP, "g".to_string(), ok()),
            (RDKafkaResourceType::RD_KAFKA_RESOURCE_BROKER, "+9".to_string(), RDKafkaError { code: 40 }),
            (RDKafkaResourceType::RD_KAFKA_RESOURCE_TOPIC, "t".to_string(), ok()),
        ],
    };
    assert_eq!(
        alter_configs_results(&event).unwrap(),
        vec![
            Ok(OwnedResourceSpecifier::Group("g".to_string())),
            Err((OwnedResourceSpecifier::Broker(9), RDKafkaError { code: 40 })),
            Ok(OwnedResourceSpecifier::Topic("t".to_string())),
        ]
    );
    let bad = AlterConfigsEvent {
        error: ok(),
        result_present: true,
        event_type: 103,
        resources: vec![(RDKafkaResourceType::RD_KAFKA_RESOURCE__CNT, "x".to_string(), ok())],
    };
    assert_eq!(
        alter_configs_results(&bad).unwrap_err(),
        KafkaError::AdminOpCreation(
            "bogus resource type in kafka response: RD_KAFKA_RESOURCE__CNT".to_string()
        )
    );
    let failed = AlterConfigsEvent {
        error: RDKafkaError { code: -185 },
        result_present: true,
        event_type: 103,
        resources: vec![],
    };
    assert_eq!(
        alter_configs_results(&failed).unwrap_err(),
        KafkaError::AdminOp(RDKafkaError { code: -185 })
    );
    let wrong = AlterConfigsEvent { error: ok(), result_present: false, event_type: 7, resources: vec![] };
    assert_eq!(
        alter_configs_results(&wrong).unwrap_err(),
        KafkaError::AdminOpCreation(
            "alter configs request received response of incorrect type (7)".to_string()
        )
    );
}

#[test]
fn polling_decisions() {
    assert_eq!(next_poll_action(true, false), PollAction::Deliver);
    assert_eq!(next_poll_action(true, true), PollAction::Deliver);
    assert_eq!(next_poll_action(false, false), PollAction::PollAgain);
    assert_eq!(next_poll_action(false, true), PollAction::Stop);
}
