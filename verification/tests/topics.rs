use rdkafka_admin::error::{KafkaError, NulError, RDKafkaError};
use rdkafka_admin::topic::{
    build_topic_results, native_delete_topics, topic_results, NewPartitions, NewTopic,
    TopicOperation, TopicReplication, TopicsEvent,
};

fn ok() -> RDKafkaError {
    RDKafkaError { code: 0 }
}

#[test]
fn new_topic_starts_without_config() {
    let t = NewTopic::new("events", 3, TopicReplication::Fixed(2));
    assert_eq!(t.name, "events");
    assert_eq!(t.num_partitions, 3);
    assert!(t.config.is_empty());
}

#[test]
fn new_topic_set_keeps_order() {
    let t = NewTopic::new("events", 3, TopicReplication::Fixed(2))
        .set("cleanup.policy", "compact")
        .set("retention.ms", "1000")
        .set("cleanup.policy", "delete");
    assert_eq!(
        t.config,
        vec![("cleanup.policy", "compact"), ("retention.ms", "1000"), ("cleanup.policy", "delete")]
    );
}

#[test]
fn fixed_replication_to_native() {
    let t = NewTopic::new("events", 3, TopicReplication::Fixed(2)).set("a", "1");
    let n = t.to_native().unwrap();
    assert_eq!(n.name, "events");
    assert_eq!(n.num_partitions, 3);
    assert_eq!(n.replication_factor, 2);
    assert!(n.replica_assignment.is_empty());
    assert_eq!(n.config, vec![("a".to_string(), "1".to_string())]);
    assert_eq!(n.config_error, None);
}

#[test]
fn variable_replication_to_native() {
    let assignment: &[&[i32]] = &[&[1, 2], &[2, 3]];
    let t = NewTopic::new("events", 2, TopicReplication::Variable(assignment));
    let n = t.to_native().unwrap();
    assert_eq!(n.replication_factor, -1);
    assert_eq!(n.replica_assignment, vec![vec![1, 2], vec![2, 3]]);
}

#[test]
fn variable_replication_size_mismatch() {
    let assignment: &[&[i32]] = &[&[1], &[2], &[3]];
    let t = NewTopic::new("events", 2, TopicReplication::Variable(assignment));
    assert_eq!(
        t.to_native().unwrap_err(),
        KafkaError::AdminOpCreation(
            "replication configuration for topic 'events' assigns 3 partition(s), \
             which does not match the specified number of partitions (2)"
                .to_string()
        )
    );
    let t = NewTopic::new("x", -1, TopicReplication::Variable(&[]));
    assert_eq!(
        t.to_native().unwrap_err(),
        KafkaError::AdminOpCreation(
            "replication configuration for topic 'x' assigns 0 partition(s), \
             which does not match the specified number of partitions (-1)"
                .to_string()
        )
    );
}

#[test]
fn topic_name_with_nul_is_refused_first() {
    let assignment: &[&[i32]] = &[&[1]];
    let t = NewTopic::new("a\0", 5, TopicReplication::Variable(assignment));
    assert_eq!(
        t.to_native().unwrap_err(),
        KafkaError::Nul(NulError { position: 1, bytes: vec![b'a', 0] })
    );
}

#[test]
fn config_stops_at_first_bad_entry() {
    let t = NewTopic::new("events", 1, TopicReplication::Fixed(1))
        .set("a", "1")
        .set("b", "x\0")
        .set("c\0", "3");
    let n = t.to_native().unwrap();
    assert_eq!(n.config, vec![("a".to_string(), "1".to_string())]);
    assert_eq!(
        n.config_error,
        Some(KafkaError::Nul(NulError { position: 1, bytes: vec![b'x', 0] }))
    );
}

#[test]
fn config_key_is_checked_before_value() {
    let t = NewTopic::new("events", 1, TopicReplication::Fixed(1)).set("k\0", "v\0");
    let n = t.to_native().unwrap();
    assert!(n.config.is_empty());
    assert_eq!(
        n.config_error,
        Some(KafkaError::Nul(NulError { position: 1, bytes: vec![b'k', 0] }))
    );
}

#[test]
fn new_partitions_without_assignment() {
    let p = NewPartitions::new("events", 6);
    assert!(p.assignment.is_none());
    let n = p.to_native().unwrap();
    assert_eq!(n.name, "events");
    assert_eq!(n.new_partition_count, 6);
    assert!(n.replica_assignment.is_empty());
}

#[test]
fn new_partitions_with_assignment() {
    let assignment: &[&[i32]] = &[&[1, 2], &[3]];
    let n = NewPartitions::new("events", 2).assign(assignment).to_native().unwrap();
    assert_eq!(n.replica_assignment, vec![vec![1, 2], vec![3]]);
}

#[test]
fn new_partitions_assignment_too_long() {
    let assignment: &[&[i32]] = &[&[1], &[2], &[3]];
    let p = NewPartitions::new("events", 2).assign(assignment);
    assert_eq!(
        p.to_native().unwrap_err(),
        KafkaError::AdminOpCreation(
            "partition assignment for topic 'events' assigns 3 partition(s), \
             which is more than the requested total number of partitions (2)"
                .to_string()
        )
    );
}

#[test]
fn new_partitions_name_with_nul() {
    let p = NewPartitions::new("\0", 2);
    assert_eq!(
        p.to_native().unwrap_err(),
        KafkaError::Nul(NulError { position: 0, bytes: vec![0] })
    );
}

#[test]
fn delete_topics_names() {
    assert_eq!(
        native_delete_topics(&["a", "b"]).unwrap(),
        vec!["a".to_string(), "b".to_string()]
    );
    assert_eq!(
        native_delete_topics(&["a", "b\0", "\0"]).unwrap_err(),
        KafkaError::Nul(NulError { position: 1, bytes: vec![b'b', 0] })
    );
}

#[test]
fn topic_results_keep_order_and_errors() {
    let topics = vec![
        ("a".to_string(), ok()),
        ("b".to_string(), RDKafkaError { code: 36 }),
        ("c".to_string(), ok()),
    ];
    assert_eq!(
        build_topic_results(&topics),
        vec![
            Ok("a".to_string()),
            Err(("b".to_string(), RDKafkaError { code: 36 })),
            Ok("c".to_string()),
        ]
    );
}

#[test]
fn topic_event_error_comes_first() {
    let event = TopicsEvent {
        error: RDKafkaError { code: -185 },
        result_present: false,
        event_type: 0,
        topics: vec![],
    };
    assert_eq!(
        topic_results(TopicOperation::CreateTopics, &event),
        Err(KafkaError::AdminOp(RDKafkaError { code: -185 }))
    );
}

#[test]
fn topic_event_of_wrong_kind() {
    let event = TopicsEvent { error: ok(), result_present: false, event_type: 100, topics: vec![] };
    assert_eq!(
        topic_results(TopicOperation::DeleteTopics, &event),
        Err(KafkaError::AdminOpCreation(
            "delete topics request received response of incorrect type (100)".to_string()
        ))
    );
    assert_eq!(
        topic_results(TopicOperation::CreatePartitions, &event),
        Err(KafkaError::AdminOpCreation(
            "create partitions request received response of incorrect type (100)".to_string()
        ))
    );
}

#[test]
fn topic_event_results() {
    let event = TopicsEvent {
        error: ok(),
        result_present: true,
        event_type: 100,
        topics: vec![("t".to_string(), RDKafkaError { code: 7 })],
    };
    assert_eq!(
        topic_results(TopicOperation::CreateTopics, &event),
        Ok(vec![Err(("t".to_string(), RDKafkaError { code: 7 }))])
    );
}
