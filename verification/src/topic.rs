//! Creating topics, deleting topics and adding partitions: the requests and
//! the per-topic answers.
use vstd::prelude::*;
use vstd::string::StringExecFns;

use crate::error::{
    c_compatible, check_event_error, nul_kafka_error, wrong_answer_error, wrong_answer_message,
    KafkaError, KafkaErrorView, RDKafkaError,
};
use crate::text::{
    decimal_int, decimal_nat, first_error, first_failure, format_i32, format_usize, has_nul,
    lemma_first_failure,
};
use vstd::utf8::encode_utf8;

verus! {

// ---------------------------------------------------------------------------
// Replica assignments
// ---------------------------------------------------------------------------

/// An assignment of partitions to replicas.
///
/// Each element in the outer slice corresponds to the partition with that
/// index. The inner slice specifies the broker IDs to which replicas of that
/// partition should be assigned.
pub type PartitionAssignment<'a> = &'a [&'a [i32]];

/// The broker lists of an assignment, partition by partition.
pub open spec fn assignment_view(a: Seq<&[i32]>) -> Seq<Seq<i32>> {
    Seq::new(a.len(), |i: int| a[i]@)
}

/// The broker lists held in owned vectors, partition by partition.
pub open spec fn owned_assignment_view(v: Seq<Vec<i32>>) -> Seq<Seq<i32>> {
    Seq::new(v.len(), |i: int| v[i]@)
}

/// Copies an assignment into owned vectors.
pub fn copy_assignment(a: &[&[i32]]) -> (v: Vec<Vec<i32>>)
    ensures
        owned_assignment_view(v@) == assignment_view(a@),
{
    let mut v: Vec<Vec<i32>> = Vec::new();
    let mut i: usize = 0;
    while i < a.len()
        invariant
            i <= a@.len(),
            v@.len() == i,
            forall|j: int| 0 <= j < i ==> (#[trigger] v@[j])@ == a@[j]@,
        decreases a@.len() - i,
    {
        v.push(vstd::slice::slice_to_vec(a[i]));
        i = i + 1;
    }
    assert(owned_assignment_view(v@) =~= assignment_view(a@));
    v
}

// ---------------------------------------------------------------------------
// Configuration entries of a new topic
// ---------------------------------------------------------------------------

/// Why a configuration entry cannot be handed to C, if it cannot: its key is
/// checked first, then its value.
pub open spec fn config_entry_error(e: (&str, &str)) -> Option<KafkaErrorView> {
    match nul_kafka_error(e.0@) {
        Some(err) => Some(err),
        None => nul_kafka_error(e.1@),
    }
}

/// The checks of a list of configuration entries, in order.
pub open spec fn config_checks(cfg: Seq<(&str, &str)>) -> Seq<Option<KafkaErrorView>> {
    cfg.map_values(|e: (&str, &str)| config_entry_error(e))
}

/// The view of an optional error.
pub open spec fn opt_error_view(o: Option<KafkaError>) -> Option<KafkaErrorView> {
    match o {
        Some(e) => Some(e@),
        None => None,
    }
}

/// Configuration entries that can all be handed to C are all converted,
/// and no error stops them.
pub proof fn law_clean_config_converted_whole(cfg: Seq<(&str, &str)>)
    requires
        forall|i: int| 0 <= i < cfg.len() ==> config_entry_error(#[trigger] cfg[i]) is None,
    ensures
        first_failure(config_checks(cfg)) == cfg.len(),
        first_error(config_checks(cfg)) is None,
{
    let checks = config_checks(cfg);
    assert forall|j: int| 0 <= j < cfg.len() implies checks[j] is None by {
        assert(checks[j] == config_entry_error(cfg[j]));
    }
    lemma_first_failure(checks, cfg.len() as int);
}

/// Owned configuration entries and the error that stopped their
/// conversion: `entries` are the entries before the first one that cannot be
/// handed to C, and `error` is why that one cannot.
pub struct NativeConfigEntries {
    pub entries: Vec<(String, String)>,
    pub error: Option<KafkaError>,
}

/// `owned` holds, key and value alike, the first `n` entries of `cfg`.
pub open spec fn owned_prefix(owned: Seq<(String, String)>, cfg: Seq<(&str, &str)>, n: int) -> bool {
    &&& owned.len() == n
    &&& forall|i: int|
        0 <= i < n ==> (#[trigger] owned[i]).0@ == cfg[i].0@ && owned[i].1@ == cfg[i].1@
}

/// Converts configuration entries, in order, until one cannot be handed to C.
pub fn native_config_entries(cfg: &Vec<(&str, &str)>) -> (r: NativeConfigEntries)
    ensures
        owned_prefix(r.entries@, cfg@, first_failure(config_checks(cfg@))),
        opt_error_view(r.error) == first_error(config_checks(cfg@)),
{
    let ghost checks = config_checks(cfg@);
    let mut entries: Vec<(String, String)> = Vec::new();
    let mut i: usize = 0;
    while i < cfg.len()
        invariant
            i <= cfg@.len(),
            checks == config_checks(cfg@),
            owned_prefix(entries@, cfg@, i as int),
            forall|j: int| 0 <= j < i ==> checks[j] is None,
        decreases cfg@.len() - i,
    {
        let (key, value) = cfg[i];
        let failure = match c_compatible(key) {
            Err(e) => Some(e),
            Ok(()) => match c_compatible(value) {
                Err(e) => Some(e),
                Ok(()) => None,
            },
        };
        assert(checks[i as int] == config_entry_error(cfg@[i as int]));
        if let Some(e) = failure {
            proof {
                lemma_first_failure(checks, i as int);
            }
            return NativeConfigEntries { entries, error: Some(e) };
        }
        entries.push((String::from_str(key), String::from_str(value)));
        i = i + 1;
    }
    proof {
        lemma_first_failure(checks, i as int);
    }
    NativeConfigEntries { entries, error: None }
}

// ---------------------------------------------------------------------------
// New topics
// ---------------------------------------------------------------------------

/// Replication configuration for a new topic.
#[derive(Debug)]
pub enum TopicReplication<'a> {
    /// All partitions should use the same fixed replication factor.
    Fixed(i32),
    /// Each partition should use the replica assignment from
    /// `PartitionAssignment`.
    Variable(PartitionAssignment<'a>),
}

/// Configuration for a CreateTopic operation.
#[derive(Debug)]
pub struct NewTopic<'a> {
    /// The name of the new topic.
    pub name: &'a str,
    /// The initial number of partitions.
    pub num_partitions: i32,
    /// The initial replication configuration.
    pub replication: TopicReplication<'a>,
    /// The initial configuration parameters for the topic.
    pub config: Vec<(&'a str, &'a str)>,
}

/// What librdkafka is given to create a topic: the topic itself, then each
/// partition's replica assignment, then each configuration entry; after
/// them, `config_error` if one entry could not be handed to C.
#[derive(Debug)]
pub struct NativeNewTopic {
    pub name: String,
    pub num_partitions: i32,
    /// The replication factor, `-1` where the assignment gives the replicas.
    pub replication_factor: i32,
    pub replica_assignment: Vec<Vec<i32>>,
    pub config: Vec<(String, String)>,
    pub config_error: Option<KafkaError>,
}

/// The message for a replica assignment whose size differs from the number
/// of partitions.
pub open spec fn replication_mismatch_message(name: Seq<char>, assigned: nat, requested: i32) -> Seq<
    char,
> {
    "replication configuration for topic '"@ + name + "' assigns "@ + decimal_nat(assigned)
        + " partition(s), which does not match the specified number of partitions ("@
        + decimal_int(requested as int) + ")"@
}

/// Why a topic specification cannot be turned into a librdkafka request, if
/// it cannot.
pub open spec fn new_topic_error(t: NewTopic) -> Option<KafkaErrorView> {
    match nul_kafka_error(t.name@) {
        Some(e) => Some(e),
        None => match t.replication {
            TopicReplication::Variable(p) => if (p@.len() as i32) != t.num_partitions {
                Some(
                    KafkaErrorView::AdminOpCreation(
                        replication_mismatch_message(t.name@, p@.len(), t.num_partitions),
                    ),
                )
            } else {
                None
            },
            TopicReplication::Fixed(_) => None,
        },
    }
}

/// The replication factor librdkafka is given.
pub open spec fn replication_factor_spec(r: TopicReplication) -> i32 {
    match r {
        TopicReplication::Fixed(n) => n,
        TopicReplication::Variable(_) => -1i32,
    }
}

/// The replica assignment librdkafka is given.
pub open spec fn replication_assignment_spec(r: TopicReplication) -> Seq<Seq<i32>> {
    match r {
        TopicReplication::Fixed(_) => Seq::empty(),
        TopicReplication::Variable(p) => assignment_view(p@),
    }
}

impl<'a> NewTopic<'a> {
    /// Creates a new `NewTopic`, with no configuration parameters.
    pub fn new(name: &'a str, num_partitions: i32, replication: TopicReplication<'a>) -> (t:
        NewTopic<'a>)
        ensures
            t.name == name,
            t.num_partitions == num_partitions,
            t.replication == replication,
            t.config@ == Seq::<(&'a str, &'a str)>::empty(),
    {
        NewTopic { name, num_partitions, replication, config: Vec::new() }
    }

    /// Sets a new parameter in the initial topic configuration; parameters
    /// are kept in the order they were set.
    pub fn set(self, key: &'a str, value: &'a str) -> (t: NewTopic<'a>)
        ensures
            t.name == self.name,
            t.num_partitions == self.num_partitions,
            t.replication == self.replication,
            t.config@ == self.config@.push((key, value)),
    {
        let mut t = self;
        t.config.push((key, value));
        t
    }

    /// What librdkafka is given to create this topic.
    ///
    /// Fails when the name cannot be handed to C, or when a replica
    /// assignment has as many entries as the number of partitions does not
    /// say (the count compared as an `i32`).
    pub fn to_native(&self) -> (r: Result<NativeNewTopic, KafkaError>)
        ensures
            r is Err <==> new_topic_error(*self) is Some,
            r matches Err(e) ==> Some(e@) == new_topic_error(*self),
            r matches Ok(n) ==> {
                &&& n.name@ == self.name@
                &&& n.num_partitions == self.num_partitions
                &&& n.replication_factor == replication_factor_spec(self.replication)
                &&& owned_assignment_view(n.replica_assignment@) == replication_assignment_spec(
                    self.replication,
                )
                &&& owned_prefix(n.config@, self.config@, first_failure(config_checks(self.config@)))
                &&& opt_error_view(n.config_error) == first_error(config_checks(self.config@))
            },
    {
        c_compatible(self.name)?;
        let (replication_factor, replica_assignment) = match self.replication {
            TopicReplication::Fixed(n) => (n, Vec::new()),
            TopicReplication::Variable(partitions) => {
                #[verifier::truncate]
                let assigned = partitions.len() as i32;
                if assigned != self.num_partitions {
                    let msg = String::from_str("replication configuration for topic '");
                    let msg = msg.concat(self.name);
                    let msg = msg.concat("' assigns ");
                    let count = format_usize(partitions.len());
                    let msg = msg.concat(count.as_str());
                    let msg = msg.concat(
                        " partition(s), which does not match the specified number of partitions (",
                    );
                    let requested = format_i32(self.num_partitions);
                    let msg = msg.concat(requested.as_str());
                    let msg = msg.concat(")");
                    return Err(KafkaError::AdminOpCreation(msg));
                }
                (-1i32, copy_assignment(partitions))
            },
        };
        assert(owned_assignment_view(replica_assignment@) == replication_assignment_spec(
            self.replication,
        )) by {
            if self.replication is Fixed {
                assert(owned_assignment_view(replica_assignment@) =~= Seq::<Seq<i32>>::empty());
            }
        }
        let config = native_config_entries(&self.config);
        Ok(
            NativeNewTopic {
                name: String::from_str(self.name),
                num_partitions: self.num_partitions,
                replication_factor,
                replica_assignment,
                config: config.entries,
                config_error: config.error,
            },
        )
    }
}

// ---------------------------------------------------------------------------
// New partitions
// ---------------------------------------------------------------------------

/// Configuration for a CreatePartitions operation.
pub struct NewPartitions<'a> {
    /// The name of the topic to which partitions should be added.
    pub topic_name: &'a str,
    /// The total number of partitions after the operation completes.
    pub new_partition_count: usize,
    /// The replica assignments for the new partitions.
    pub assignment: Option<PartitionAssignment<'a>>,
}

/// What librdkafka is given to add partitions to a topic: the request
/// itself, then each new partition's replica assignment.
#[derive(Debug)]
pub struct NativeNewPartitions {
    pub name: String,
    pub new_partition_count: usize,
    pub replica_assignment: Vec<Vec<i32>>,
}

/// The message for an assignment with more entries than partitions.
pub open spec fn too_many_partitions_message(name: Seq<char>, assigned: nat, requested: nat) -> Seq<
    char,
> {
    "partition assignment for topic '"@ + name + "' assigns "@ + decimal_nat(assigned)
        + " partition(s), which is more than the requested total number of partitions ("@
        + decimal_nat(requested) + ")"@
}

/// Why a partition specification cannot be turned into a librdkafka
/// request, if it cannot.
pub open spec fn new_partitions_error(p: NewPartitions) -> Option<KafkaErrorView> {
    match nul_kafka_error(p.topic_name@) {
        Some(e) => Some(e),
        None => match p.assignment {
            Some(a) => if a@.len() > p.new_partition_count {
                Some(
                    KafkaErrorView::AdminOpCreation(
                        too_many_partitions_message(
                            p.topic_name@,
                            a@.len(),
                            p.new_partition_count as nat,
                        ),
                    ),
                )
            } else {
                None
            },
            None => None,
        },
    }
}

impl<'a> NewPartitions<'a> {
    /// Creates a new `NewPartitions`, with no replica assignment.
    pub fn new(topic_name: &'a str, new_partition_count: usize) -> (p: NewPartitions<'a>)
        ensures
            p.topic_name == topic_name,
            p.new_partition_count == new_partition_count,
            p.assignment is None,
    {
        NewPartitions { topic_name, new_partition_count, assignment: None }
    }

    /// Sets the partition replica assignment for the new partitions. Only
    /// assignments for newly created replicas should be included.
    pub fn assign(self, assignment: PartitionAssignment<'a>) -> (p: NewPartitions<'a>)
        ensures
            p.topic_name == self.topic_name,
            p.new_partition_count == self.new_partition_count,
            p.assignment == Some(assignment),
    {
        NewPartitions { assignment: Some(assignment), ..self }
    }

    /// What librdkafka is given to add these partitions.
    ///
    /// Fails when the name cannot be handed to C, or when the assignment has
    /// more entries than the requested total number of partitions (which
    /// would crash librdkafka).
    pub fn to_native(&self) -> (r: Result<NativeNewPartitions, KafkaError>)
        ensures
            r is Err <==> new_partitions_error(*self) is Some,
            r matches Err(e) ==> Some(e@) == new_partitions_error(*self),
            r matches Ok(n) ==> {
                &&& n.name@ == self.topic_name@
                &&& n.new_partition_count == self.new_partition_count
                &&& owned_assignment_view(n.replica_assignment@) == match self.assignment {
                    Some(a) => assignment_view(a@),
                    None => Seq::<Seq<i32>>::empty(),
                }
            },
    {
        c_compatible(self.topic_name)?;
        let replica_assignment = match self.assignment {
            Some(assignment) => {
                if assignment.len() > self.new_partition_count {
                    let msg = String::from_str("partition assignment for topic '");
                    let msg = msg.concat(self.topic_name);
                    let msg = msg.concat("' assigns ");
                    let count = format_usize(assignment.len());
                    let msg = msg.concat(count.as_str());
                    let msg = msg.concat(
                        " partition(s), which is more than the requested total number of partitions (",
                    );
                    let requested = format_usize(self.new_partition_count);
                    let msg = msg.concat(requested.as_str());
                    let msg = msg.concat(")");
                    return Err(KafkaError::AdminOpCreation(msg));
                }
                copy_assignment(assignment)
            },
            None => {
                let v: Vec<Vec<i32>> = Vec::new();
                assert(owned_assignment_view(v@) =~= Seq::<Seq<i32>>::empty());
                v
            },
        };
        Ok(
            NativeNewPartitions {
                name: String::from_str(self.topic_name),
                new_partition_count: self.new_partition_count,
                replica_assignment,
            },
        )
    }
}

// ---------------------------------------------------------------------------
// Deleted topics
// ---------------------------------------------------------------------------

/// The checks of topic names, in order.
pub open spec fn name_checks(names: Seq<&str>) -> Seq<Option<KafkaErrorView>> {
    names.map_values(|n: &str| nul_kafka_error(n@))
}

/// The names librdkafka is given to delete topics: all of them, or the
/// error of the first that cannot be handed to C.
pub fn native_delete_topics(topic_names: &[&str]) -> (r: Result<Vec<String>, KafkaError>)
    ensures
        r is Err <==> first_error(name_checks(topic_names@)) is Some,
        r matches Err(e) ==> Some(e@) == first_error(name_checks(topic_names@)),
        r matches Ok(v) ==> v@.len() == topic_names@.len() && forall|i: int|
            0 <= i < v@.len() ==> (#[trigger] v@[i])@ == topic_names@[i]@,
{
    let ghost checks = name_checks(topic_names@);
    let mut out: Vec<String> = Vec::new();
    let mut i: usize = 0;
    while i < topic_names.len()
        invariant
            i <= topic_names@.len(),
            checks == name_checks(topic_names@),
            out@.len() == i,
            forall|j: int| 0 <= j < i ==> (#[trigger] out@[j])@ == topic_names@[j]@,
            forall|j: int| 0 <= j < i ==> checks[j] is None,
        decreases topic_names@.len() - i,
    {
        let name = topic_names[i];
        assert(checks[i as int] == nul_kafka_error(name@));
        if let Err(e) = c_compatible(name) {
            proof {
                lemma_first_failure(checks, i as int);
            }
            return Err(e);
        }
        out.push(String::from_str(name));
        i = i + 1;
    }
    proof {
        lemma_first_failure(checks, i as int);
    }
    Ok(out)
}

// ---------------------------------------------------------------------------
// Answers
// ---------------------------------------------------------------------------

/// The result of an individual CreateTopic, DeleteTopic, or
/// CreatePartition operation.
pub type TopicResult = Result<String, (String, RDKafkaError)>;

/// What a `TopicResult` says.
pub open spec fn topic_result_view(r: TopicResult) -> Result<Seq<char>, (Seq<char>, RDKafkaError)> {
    match r {
        Ok(name) => Ok(name@),
        Err((name, e)) => Err((name@, e)),
    }
}

/// The result for one topic in an answer: the topic's name, and its error
/// when the code is one.
pub open spec fn topic_outcome(name: Seq<char>, err: RDKafkaError) -> Result<
    Seq<char>,
    (Seq<char>, RDKafkaError),
> {
    if err.spec_is_error() {
        Err((name, err))
    } else {
        Ok(name)
    }
}

/// The per-topic results of an answer, in the order of the answer.
pub fn build_topic_results(topics: &[(String, RDKafkaError)]) -> (out: Vec<TopicResult>)
    ensures
        out@.len() == topics@.len(),
        forall|i: int|
            0 <= i < topics@.len() ==> ((#[trigger] out@[i]) is Err <==> topics@[i].1.code != 0),
        forall|i: int|
            0 <= i < topics@.len() ==> topic_result_view(#[trigger] out@[i]) == topic_outcome(
                topics@[i].0@,
                topics@[i].1,
            ),
{
    let mut out: Vec<TopicResult> = Vec::new();
    let mut i: usize = 0;
    while i < topics.len()
        invariant
            i <= topics@.len(),
            out@.len() == i,
            forall|j: int|
                0 <= j < i ==> topic_result_view(#[trigger] out@[j]) == topic_outcome(
                    topics@[j].0@,
                    topics@[j].1,
                ),
        decreases topics@.len() - i,
    {
        let name = topics[i].0.clone();
        let err = topics[i].1;
        if err.is_error() {
            out.push(Err((name, err)));
        } else {
            out.push(Ok(name));
        }
        i = i + 1;
    }
    out
}

/// The admin operations whose answers are per-topic results.
#[derive(Clone, Copy, Debug, PartialEq, Eq, Structural)]
pub enum TopicOperation {
    CreateTopics,
    DeleteTopics,
    CreatePartitions,
}

/// How an operation is named in messages.
pub open spec fn operation_name(op: TopicOperation) -> Seq<char> {
    match op {
        TopicOperation::CreateTopics => "create topics"@,
        TopicOperation::DeleteTopics => "delete topics"@,
        TopicOperation::CreatePartitions => "create partitions"@,
    }
}

fn operation_name_str(op: TopicOperation) -> (s: &'static str)
    ensures
        s@ == operation_name(op),
{
    match op {
        TopicOperation::CreateTopics => "create topics",
        TopicOperation::DeleteTopics => "delete topics",
        TopicOperation::CreatePartitions => "create partitions",
    }
}

/// What librdkafka answered to a topic operation: the overall error, whether
/// the answer is of the kind of the request, the kind it has, and each
/// topic's name and error code.
pub struct TopicsEvent {
    pub error: RDKafkaError,
    pub result_present: bool,
    pub event_type: i32,
    pub topics: Vec<(String, RDKafkaError)>,
}

/// Reads the answer to a topic operation: the overall error first, then an
/// answer of the wrong kind, else the per-topic results.
pub fn topic_results(op: TopicOperation, event: &TopicsEvent) -> (r: Result<
    Vec<TopicResult>,
    KafkaError,
>)
    ensures
        event.error.spec_is_error() ==> (r matches Err(e) && e@ == KafkaErrorView::AdminOp(
            event.error,
        )),
        !event.error.spec_is_error() && !event.result_present ==> (r matches Err(e) && e@
            == KafkaErrorView::AdminOpCreation(
            wrong_answer_message(operation_name(op), event.event_type),
        )),
        !event.error.spec_is_error() && event.result_present ==> (r matches Ok(out) && {
            &&& out@.len() == event.topics@.len()
            &&& forall|i: int|
                0 <= i < out@.len() ==> topic_result_view(#[trigger] out@[i]) == topic_outcome(
                    event.topics@[i].0@,
                    event.topics@[i].1,
                )
        }),
{
    check_event_error(event.error)?;
    if !event.result_present {
        return Err(wrong_answer_error(operation_name_str(op), event.event_type));
    }
    Ok(build_topic_results(event.topics.as_slice()))
}

/// A topic is refused when its name holds a zero byte; otherwise a fixed
/// replication is always accepted, and a replica assignment exactly when it
/// has one entry per partition (its size compared as an `i32`). A refused
/// size is reported as a bad request, naming the sizes.
pub proof fn law_new_topic_checks(t: NewTopic)
    ensures
        has_nul(encode_utf8(t.name@)) ==> new_topic_error(t) matches Some(KafkaErrorView::Nul(_)),
        !has_nul(encode_utf8(t.name@)) ==> (new_topic_error(t) is None <==> match t.replication {
            TopicReplication::Fixed(_) => true,
            TopicReplication::Variable(p) => (p@.len() as i32) == t.num_partitions,
        }),
        !has_nul(encode_utf8(t.name@)) && new_topic_error(t) is Some ==> new_topic_error(
            t,
        ) matches Some(KafkaErrorView::AdminOpCreation(_)),
{
}

/// Partitions are refused when the topic name holds a zero byte; otherwise
/// they are accepted exactly when there is no assignment or the assignment
/// has at most as many entries as the requested number of partitions.
pub proof fn law_new_partitions_checks(p: NewPartitions)
    ensures
        has_nul(encode_utf8(p.topic_name@)) ==> new_partitions_error(p) matches Some(
            KafkaErrorView::Nul(_),
        ),
        !has_nul(encode_utf8(p.topic_name@)) ==> (new_partitions_error(p) is None <==> match p.assignment {
            None => true,
            Some(a) => a@.len() <= p.new_partition_count,
        }),
{
}

/// A topic's result is a failure, carrying the topic's name and code, exactly
/// when librdkafka's code for it is not "no error" (zero); otherwise it is a
/// success carrying the name.
pub proof fn law_topic_outcome(name: Seq<char>, err: RDKafkaError)
    ensures
        topic_outcome(name, err) is Err <==> err.code != 0,
        err.code != 0 ==> topic_outcome(name, err) == Err::<Seq<char>, (Seq<char>, RDKafkaError)>(
            (name, err),
        ),
        err.code == 0 ==> topic_outcome(name, err) == Ok::<Seq<char>, (Seq<char>, RDKafkaError)>(
            name,
        ),
{
}

} // verus!
