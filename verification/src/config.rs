//! Configurable resources: describing and altering their configuration.
use vstd::prelude::*;
use vstd::string::StringExecFns;
use vstd::utf8::encode_utf8;

use crate::error::{
    c_compatible, check_event_error, nul_kafka_error, wrong_answer_error, wrong_answer_message,
    KafkaError, KafkaErrorView, RDKafkaError,
};
use crate::text::{
    decimal_int, first_error, first_failure, format_i32, lemma_first_failure, parse_i32,
    parse_i32_spec,
};
use crate::topic::{config_checks, native_config_entries, opt_error_view, owned_prefix};

verus! {

// ---------------------------------------------------------------------------
// Resource types and configuration sources as librdkafka numbers them
// ---------------------------------------------------------------------------

/// The resource types of librdkafka (`rd_kafka_ResourceType_t`).
#[allow(non_camel_case_types)]
#[derive(Clone, Copy, Debug, PartialEq, Eq, Structural)]
pub enum RDKafkaResourceType {
    RD_KAFKA_RESOURCE_UNKNOWN,
    RD_KAFKA_RESOURCE_ANY,
    RD_KAFKA_RESOURCE_TOPIC,
    RD_KAFKA_RESOURCE_GROUP,
    RD_KAFKA_RESOURCE_BROKER,
    RD_KAFKA_RESOURCE__CNT,
}

/// How a resource type is printed with `{:?}`.
pub open spec fn resource_type_name(t: RDKafkaResourceType) -> Seq<char> {
    match t {
        RDKafkaResourceType::RD_KAFKA_RESOURCE_UNKNOWN => "RD_KAFKA_RESOURCE_UNKNOWN"@,
        RDKafkaResourceType::RD_KAFKA_RESOURCE_ANY => "RD_KAFKA_RESOURCE_ANY"@,
        RDKafkaResourceType::RD_KAFKA_RESOURCE_TOPIC => "RD_KAFKA_RESOURCE_TOPIC"@,
        RDKafkaResourceType::RD_KAFKA_RESOURCE_GROUP => "RD_KAFKA_RESOURCE_GROUP"@,
        RDKafkaResourceType::RD_KAFKA_RESOURCE_BROKER => "RD_KAFKA_RESOURCE_BROKER"@,
        RDKafkaResourceType::RD_KAFKA_RESOURCE__CNT => "RD_KAFKA_RESOURCE__CNT"@,
    }
}

/// How a resource type is printed with `{:?}`.
pub fn resource_type_str(t: RDKafkaResourceType) -> (s: &'static str)
    ensures
        s@ == resource_type_name(t),
{
    match t {
        RDKafkaResourceType::RD_KAFKA_RESOURCE_UNKNOWN => "RD_KAFKA_RESOURCE_UNKNOWN",
        RDKafkaResourceType::RD_KAFKA_RESOURCE_ANY => "RD_KAFKA_RESOURCE_ANY",
        RDKafkaResourceType::RD_KAFKA_RESOURCE_TOPIC => "RD_KAFKA_RESOURCE_TOPIC",
        RDKafkaResourceType::RD_KAFKA_RESOURCE_GROUP => "RD_KAFKA_RESOURCE_GROUP",
        RDKafkaResourceType::RD_KAFKA_RESOURCE_BROKER => "RD_KAFKA_RESOURCE_BROKER",
        RDKafkaResourceType::RD_KAFKA_RESOURCE__CNT => "RD_KAFKA_RESOURCE__CNT",
    }
}

/// The configuration sources of librdkafka (`rd_kafka_ConfigSource_t`).
#[allow(non_camel_case_types)]
#[derive(Clone, Copy, Debug, PartialEq, Eq, Structural)]
pub enum RDKafkaConfigSource {
    RD_KAFKA_CONFIG_SOURCE_UNKNOWN_CONFIG,
    RD_KAFKA_CONFIG_SOURCE_DYNAMIC_TOPIC_CONFIG,
    RD_KAFKA_CONFIG_SOURCE_DYNAMIC_BROKER_CONFIG,
    RD_KAFKA_CONFIG_SOURCE_DYNAMIC_DEFAULT_BROKER_CONFIG,
    RD_KAFKA_CONFIG_SOURCE_STATIC_BROKER_CONFIG,
    RD_KAFKA_CONFIG_SOURCE_DEFAULT_CONFIG,
    RD_KAFKA_CONFIG_SOURCE__CNT,
}

// ---------------------------------------------------------------------------
// Resource specifiers
// ---------------------------------------------------------------------------

/// Specification of a configurable resource.
#[derive(Copy, Clone, Debug, Eq, PartialEq)]
pub enum ResourceSpecifier<'a> {
    /// A topic resource, identified by its name.
    Topic(&'a str),
    /// A group resource, identified by its ID.
    Group(&'a str),
    /// A broker resource, identified by its ID.
    Broker(i32),
}

/// A `ResourceSpecifier` that owns its data.
#[derive(Clone, Debug, Eq, PartialEq)]
pub enum OwnedResourceSpecifier {
    /// A topic resource, identified by its name.
    Topic(String),
    /// A group resource, identified by its ID.
    Group(String),
    /// A broker resource, identified by its ID.
    Broker(i32),
}

/// What a resource specifier says.
pub enum ResourceSpecifierView {
    Topic(Seq<char>),
    Group(Seq<char>),
    Broker(i32),
}

impl<'a> View for ResourceSpecifier<'a> {
    type V = ResourceSpecifierView;

    open spec fn view(&self) -> ResourceSpecifierView {
        match self {
            ResourceSpecifier::Topic(n) => ResourceSpecifierView::Topic(n@),
            ResourceSpecifier::Group(n) => ResourceSpecifierView::Group(n@),
            ResourceSpecifier::Broker(id) => ResourceSpecifierView::Broker(*id),
        }
    }
}

impl View for OwnedResourceSpecifier {
    type V = ResourceSpecifierView;

    open spec fn view(&self) -> ResourceSpecifierView {
        match self {
            OwnedResourceSpecifier::Topic(n) => ResourceSpecifierView::Topic(n@),
            OwnedResourceSpecifier::Group(n) => ResourceSpecifierView::Group(n@),
            OwnedResourceSpecifier::Broker(id) => ResourceSpecifierView::Broker(*id),
        }
    }
}

/// The name and resource type librdkafka is given for a resource: a broker
/// is named by its ID in decimal.
pub open spec fn native_resource_spec(s: ResourceSpecifierView) -> (Seq<char>, RDKafkaResourceType) {
    match s {
        ResourceSpecifierView::Topic(n) => (n, RDKafkaResourceType::RD_KAFKA_RESOURCE_TOPIC),
        ResourceSpecifierView::Group(n) => (n, RDKafkaResourceType::RD_KAFKA_RESOURCE_GROUP),
        ResourceSpecifierView::Broker(id) => (
            decimal_int(id as int),
            RDKafkaResourceType::RD_KAFKA_RESOURCE_BROKER,
        ),
    }
}

proof fn lemma_decimal_has_no_nul(i: i32)
    ensures
        nul_kafka_error(decimal_int(i as int)) is None,
{
    crate::text::lemma_decimal_int_bytes(i as int);
    let s = decimal_int(i as int);
    let b = encode_utf8(s);
    assert forall|j: int| 0 <= j < b.len() implies b[j] != 0 by {
        crate::text::law_parse_reads_back_format(i);
        if i < 0 {
            if j > 0 {
                assert(b.drop_first()[j - 1] == b[j]);
            }
        }
    }
}

impl<'a> ResourceSpecifier<'a> {
    /// The name and resource type librdkafka is given for this resource;
    /// fails only when a topic or group name cannot be handed to C.
    pub fn to_native(&self) -> (r: Result<(String, RDKafkaResourceType), KafkaError>)
        ensures
            r is Err <==> nul_kafka_error(native_resource_spec(self@).0) is Some,
            r matches Err(e) ==> Some(e@) == nul_kafka_error(native_resource_spec(self@).0),
            r matches Ok((name, typ)) ==> (name@, typ) == native_resource_spec(self@),
            self is Broker ==> r is Ok,
            r matches Ok((name, typ)) ==> match self {
                ResourceSpecifier::Topic(n) => typ == RDKafkaResourceType::RD_KAFKA_RESOURCE_TOPIC
                    && name@ == n@,
                ResourceSpecifier::Group(n) => typ == RDKafkaResourceType::RD_KAFKA_RESOURCE_GROUP
                    && name@ == n@,
                ResourceSpecifier::Broker(_) => typ == RDKafkaResourceType::RD_KAFKA_RESOURCE_BROKER,
            },
    {
        match self {
            ResourceSpecifier::Topic(name) => {
                c_compatible(name)?;
                Ok((String::from_str(name), RDKafkaResourceType::RD_KAFKA_RESOURCE_TOPIC))
            },
            ResourceSpecifier::Group(name) => {
                c_compatible(name)?;
                Ok((String::from_str(name), RDKafkaResourceType::RD_KAFKA_RESOURCE_GROUP))
            },
            ResourceSpecifier::Broker(id) => {
                let name = format_i32(*id);
                proof {
                    lemma_decimal_has_no_nul(*id);
                }
                c_compatible(name.as_str())?;
                Ok((name, RDKafkaResourceType::RD_KAFKA_RESOURCE_BROKER))
            },
        }
    }
}

/// The message for a broker name that is no number.
pub open spec fn bogus_broker_message(name: Seq<char>) -> Seq<char> {
    "bogus broker ID in kafka response: "@ + name
}

/// The message for a resource type that names no resource.
pub open spec fn bogus_resource_type_message(t: RDKafkaResourceType) -> Seq<char> {
    "bogus resource type in kafka response: "@ + resource_type_name(t)
}

/// The resource an answer names by its type and name.
pub open spec fn specifier_spec(typ: RDKafkaResourceType, name: Seq<char>) -> Result<
    ResourceSpecifierView,
    KafkaErrorView,
> {
    match typ {
        RDKafkaResourceType::RD_KAFKA_RESOURCE_TOPIC => Ok(ResourceSpecifierView::Topic(name)),
        RDKafkaResourceType::RD_KAFKA_RESOURCE_GROUP => Ok(ResourceSpecifierView::Group(name)),
        RDKafkaResourceType::RD_KAFKA_RESOURCE_BROKER => match parse_i32_spec(encode_utf8(name)) {
            Some(id) => Ok(ResourceSpecifierView::Broker(id)),
            None => Err(KafkaErrorView::AdminOpCreation(bogus_broker_message(name))),
        },
        _ => Err(KafkaErrorView::AdminOpCreation(bogus_resource_type_message(typ))),
    }
}

/// The view of a result that holds a resource specifier.
pub open spec fn specifier_result_view(r: Result<OwnedResourceSpecifier, KafkaError>) -> Result<
    ResourceSpecifierView,
    KafkaErrorView,
> {
    match r {
        Ok(s) => Ok(s@),
        Err(e) => Err(e@),
    }
}

/// Reads the resource that an answer names by its type and name; a broker
/// is named by its ID in decimal.
pub fn extract_config_specifier(typ: RDKafkaResourceType, name: &str) -> (r: Result<
    OwnedResourceSpecifier,
    KafkaError,
>)
    ensures
        specifier_result_view(r) == specifier_spec(typ, name@),
        typ == RDKafkaResourceType::RD_KAFKA_RESOURCE_TOPIC ==> (r matches Ok(
            OwnedResourceSpecifier::Topic(n),
        ) && n@ == name@),
        typ == RDKafkaResourceType::RD_KAFKA_RESOURCE_GROUP ==> (r matches Ok(
            OwnedResourceSpecifier::Group(n),
        ) && n@ == name@),
{
    match typ {
        RDKafkaResourceType::RD_KAFKA_RESOURCE_TOPIC => Ok(
            OwnedResourceSpecifier::Topic(String::from_str(name)),
        ),
        RDKafkaResourceType::RD_KAFKA_RESOURCE_GROUP => Ok(
            OwnedResourceSpecifier::Group(String::from_str(name)),
        ),
        RDKafkaResourceType::RD_KAFKA_RESOURCE_BROKER => match parse_i32(name) {
            Some(id) => Ok(OwnedResourceSpecifier::Broker(id)),
            None => {
                let msg = String::from_str("bogus broker ID in kafka response: ");
                Err(KafkaError::AdminOpCreation(msg.concat(name)))
            },
        },
        _ => {
            let msg = String::from_str("bogus resource type in kafka response: ");
            Err(KafkaError::AdminOpCreation(msg.concat(resource_type_str(typ))))
        },
    }
}

/// A resource handed to librdkafka is read back as itself: the name and
/// type a specifier is sent as name the same resource in an answer.
pub proof fn law_specifier_round_trip(s: ResourceSpecifierView)
    ensures
        specifier_spec(native_resource_spec(s).1, native_resource_spec(s).0) == Ok::<
            ResourceSpecifierView,
            KafkaErrorView,
        >(s),
{
    if let ResourceSpecifierView::Broker(id) = s {
        crate::text::law_parse_reads_back_format(id);
    }
}

// ---------------------------------------------------------------------------
// Configuration entries
// ---------------------------------------------------------------------------

/// The source of a configuration entry.
#[derive(Clone, Copy, Debug, Eq, PartialEq, Structural)]
pub enum ConfigSource {
    /// Unknown. Note that Kafka brokers before v1.1.0 do not reliably provide
    /// configuration source information.
    Unknown,
    /// A dynamic topic configuration.
    DynamicTopic,
    /// A dynamic broker configuration.
    DynamicBroker,
    /// The default dynamic broker configuration.
    DynamicDefaultBroker,
    /// The static broker configuration.
    StaticBroker,
    /// The hardcoded default configuration.
    Default,
}

/// The message for a configuration source that names no source.
pub open spec fn bogus_source_message() -> Seq<char> {
    "bogus config source type in kafka response: RD_KAFKA_CONFIG_SOURCE__CNT"@
}

/// The source that librdkafka's source code stands for.
pub open spec fn config_source_spec(s: RDKafkaConfigSource) -> Result<ConfigSource, KafkaErrorView> {
    match s {
        RDKafkaConfigSource::RD_KAFKA_CONFIG_SOURCE_UNKNOWN_CONFIG => Ok(ConfigSource::Unknown),
        RDKafkaConfigSource::RD_KAFKA_CONFIG_SOURCE_DYNAMIC_TOPIC_CONFIG => Ok(
            ConfigSource::DynamicTopic,
        ),
        RDKafkaConfigSource::RD_KAFKA_CONFIG_SOURCE_DYNAMIC_BROKER_CONFIG => Ok(
            ConfigSource::DynamicBroker,
        ),
        RDKafkaConfigSource::RD_KAFKA_CONFIG_SOURCE_DYNAMIC_DEFAULT_BROKER_CONFIG => Ok(
            ConfigSource::DynamicDefaultBroker,
        ),
        RDKafkaConfigSource::RD_KAFKA_CONFIG_SOURCE_STATIC_BROKER_CONFIG => Ok(
            ConfigSource::StaticBroker,
        ),
        RDKafkaConfigSource::RD_KAFKA_CONFIG_SOURCE_DEFAULT_CONFIG => Ok(ConfigSource::Default),
        RDKafkaConfigSource::RD_KAFKA_CONFIG_SOURCE__CNT => Err(
            KafkaErrorView::AdminOpCreation(bogus_source_message()),
        ),
    }
}

/// Reads librdkafka's configuration source code.
pub fn extract_config_source(config_source: RDKafkaConfigSource) -> (r: Result<
    ConfigSource,
    KafkaError,
>)
    ensures
        match r {
            Ok(s) => config_source_spec(config_source) == Ok::<ConfigSource, KafkaErrorView>(s),
            Err(e) => config_source_spec(config_source) == Err::<ConfigSource, KafkaErrorView>(
                e@,
            ),
        },
{
    match config_source {
        RDKafkaConfigSource::RD_KAFKA_CONFIG_SOURCE_UNKNOWN_CONFIG => Ok(ConfigSource::Unknown),
        RDKafkaConfigSource::RD_KAFKA_CONFIG_SOURCE_DYNAMIC_TOPIC_CONFIG => Ok(
            ConfigSource::DynamicTopic,
        ),
        RDKafkaConfigSource::RD_KAFKA_CONFIG_SOURCE_DYNAMIC_BROKER_CONFIG => Ok(
            ConfigSource::DynamicBroker,
        ),
        RDKafkaConfigSource::RD_KAFKA_CONFIG_SOURCE_DYNAMIC_DEFAULT_BROKER_CONFIG => Ok(
            ConfigSource::DynamicDefaultBroker,
        ),
        RDKafkaConfigSource::RD_KAFKA_CONFIG_SOURCE_STATIC_BROKER_CONFIG => Ok(
            ConfigSource::StaticBroker,
        ),
        RDKafkaConfigSource::RD_KAFKA_CONFIG_SOURCE_DEFAULT_CONFIG => Ok(ConfigSource::Default),
        RDKafkaConfigSource::RD_KAFKA_CONFIG_SOURCE__CNT => Err(
            KafkaError::AdminOpCreation(
                String::from_str(
                    "bogus config source type in kafka response: RD_KAFKA_CONFIG_SOURCE__CNT",
                ),
            ),
        ),
    }
}

/// An individual configuration parameter for a `ConfigResource`.
#[derive(Clone, Debug, Eq, PartialEq)]
pub struct ConfigEntry {
    /// The name of the configuration parameter.
    pub name: String,
    /// The value of the configuration parameter.
    pub value: Option<String>,
    /// The source of the configuration parameter.
    pub source: ConfigSource,
    /// Whether the configuration parameter is read only.
    pub is_read_only: bool,
    /// Whether the configuration parameter currently has the default value.
    pub is_default: bool,
    /// Whether the configuration parameter contains sensitive data.
    pub is_sensitive: bool,
}

/// What a configuration entry says.
pub struct ConfigEntryView {
    pub name: Seq<char>,
    pub value: Option<Seq<char>>,
    pub source: ConfigSource,
    pub is_read_only: bool,
    pub is_default: bool,
    pub is_sensitive: bool,
}

/// The view of an optional string.
pub open spec fn opt_string_view(s: Option<String>) -> Option<Seq<char>> {
    match s {
        Some(v) => Some(v@),
        None => None,
    }
}

impl View for ConfigEntry {
    type V = ConfigEntryView;

    open spec fn view(&self) -> ConfigEntryView {
        ConfigEntryView {
            name: self.name@,
            value: opt_string_view(self.value),
            source: self.source,
            is_read_only: self.is_read_only,
            is_default: self.is_default,
            is_sensitive: self.is_sensitive,
        }
    }
}

/// A configurable resource and its current configuration values.
#[derive(Clone, Debug)]
pub struct ConfigResource {
    /// Identifies the resource.
    pub specifier: OwnedResourceSpecifier,
    /// The current configuration parameters.
    pub entries: Vec<ConfigEntry>,
}

/// What a configurable resource says.
pub struct ConfigResourceView {
    pub specifier: ResourceSpecifierView,
    pub entries: Seq<ConfigEntryView>,
}

impl View for ConfigResource {
    type V = ConfigResourceView;

    open spec fn view(&self) -> ConfigResourceView {
        ConfigResourceView {
            specifier: self.specifier@,
            entries: self.entries@.map_values(|e: ConfigEntry| e@),
        }
    }
}

/// The position of the first entry named `name` (the number of entries
/// when there is none).
pub open spec fn first_named(entries: Seq<ConfigEntry>, name: Seq<char>) -> int {
    first_failure(named_checks(entries, name))
}

/// For each entry, whether it has the name `name` (`Some`) or not.
pub open spec fn named_checks(entries: Seq<ConfigEntry>, name: Seq<char>) -> Seq<Option<()>> {
    entries.map_values(
        |e: ConfigEntry|
            if e.name@ == name {
                Some(())
            } else {
                None::<()>
            },
    )
}

/// The entries keyed by name; of several entries with one name the last
/// one is kept.
pub open spec fn entries_by_name(entries: Seq<ConfigEntry>) -> Map<Seq<char>, ConfigEntry>
    decreases entries.len(),
{
    if entries.len() == 0 {
        Map::empty()
    } else {
        entries_by_name(entries.drop_last()).insert(entries.last().name@, entries.last())
    }
}

/// The names that label the pairs of a map built by `ConfigResource::entry_map`,
/// with the entries they lead to; of several pairs with one name the last
/// one is kept.
pub open spec fn pairs_by_name(pairs: Seq<(&str, &ConfigEntry)>) -> Map<Seq<char>, ConfigEntry>
    decreases pairs.len(),
{
    if pairs.len() == 0 {
        Map::empty()
    } else {
        pairs_by_name(pairs.drop_last()).insert(pairs.last().0@, *pairs.last().1)
    }
}

/// Configuration entries keyed by name.
pub struct ConfigEntryMap<'a> {
    pairs: Vec<(&'a str, &'a ConfigEntry)>,
}

impl<'a> View for ConfigEntryMap<'a> {
    type V = Map<Seq<char>, ConfigEntry>;

    closed spec fn view(&self) -> Map<Seq<char>, ConfigEntry> {
        pairs_by_name(self.pairs@)
    }
}

proof fn lemma_pairs_by_name_from_end(pairs: Seq<(&str, &ConfigEntry)>, i: int, key: Seq<char>)
    requires
        0 <= i <= pairs.len(),
        forall|j: int| i <= j < pairs.len() ==> (#[trigger] pairs[j]).0@ != key,
    ensures
        pairs_by_name(pairs).contains_key(key) == pairs_by_name(pairs.take(i)).contains_key(key),
        pairs_by_name(pairs).contains_key(key) ==> pairs_by_name(pairs)[key] == pairs_by_name(
            pairs.take(i),
        )[key],
    decreases pairs.len(),
{
    if i == pairs.len() {
        assert(pairs.take(i) =~= pairs);
    } else {
        let p = pairs.drop_last();
        assert(pairs.last() == pairs[pairs.len() - 1]);
        assert forall|j: int| i <= j < p.len() implies (#[trigger] p[j]).0@ != key by {
            assert(p[j] == pairs[j]);
        }
        lemma_pairs_by_name_from_end(p, i, key);
        assert(p.take(i) =~= pairs.take(i));
    }
}

impl<'a> ConfigEntryMap<'a> {
    /// The entry with the given name, if any.
    pub fn get(&self, name: &str) -> (r: Option<&'a ConfigEntry>)
        ensures
            match r {
                Some(e) => self@.contains_key(name@) && *e == self@[name@],
                None => !self@.contains_key(name@),
            },
    {
        let key = name.to_owned();
        let mut i: usize = self.pairs.len();
        while i > 0
            invariant
                i <= self.pairs@.len(),
                key@ == name@,
                forall|j: int| i <= j < self.pairs@.len() ==> (#[trigger] self.pairs@[j]).0@ != name@,
            decreases i,
        {
            let candidate = self.pairs[i - 1].0.to_owned();
            if candidate == key {
                proof {
                    let pairs = self.pairs@;
                    lemma_pairs_by_name_from_end(pairs, i as int, name@);
                    assert(pairs.take(i as int).drop_last() =~= pairs.take(i - 1));
                    assert(pairs.take(i as int).last() == pairs[i - 1]);
                }
                return Some(self.pairs[i - 1].1);
            }
            i = i - 1;
        }
        proof {
            lemma_pairs_by_name_from_end(self.pairs@, 0, name@);
            assert(self.pairs@.take(0) =~= Seq::<(&str, &ConfigEntry)>::empty());
        }
        None
    }
}

impl ConfigResource {
    /// Builds a map of configuration entries, keyed by configuration entry
    /// name; of several entries with one name the last one is kept.
    pub fn entry_map(&self) -> (m: ConfigEntryMap)
        ensures
            m@ == entries_by_name(self.entries@),
    {
        let mut pairs: Vec<(&str, &ConfigEntry)> = Vec::new();
        let mut i: usize = 0;
        while i < self.entries.len()
            invariant
                i <= self.entries@.len(),
                pairs_by_name(pairs@) == entries_by_name(self.entries@.take(i as int)),
            decreases self.entries@.len() - i,
        {
            let e = &self.entries[i];
            let ghost old_pairs = pairs@;
            pairs.push((e.name.as_str(), e));
            proof {
                let es = self.entries@;
                assert(pairs@.drop_last() =~= old_pairs);
                assert(es.take(i + 1).drop_last() =~= es.take(i as int));
                assert(es.take(i + 1).last() == es[i as int]);
            }
            i = i + 1;
        }
        assert(self.entries@.take(i as int) =~= self.entries@);
        ConfigEntryMap { pairs }
    }

    /// Searches the configuration entries to find the named parameter: the
    /// first entry with that name, if any.
    pub fn get(&self, name: &str) -> (r: Option<&ConfigEntry>)
        ensures
            match r {
                Some(e) => first_named(self.entries@, name@) < self.entries@.len() && *e
                    == self.entries@[first_named(self.entries@, name@)],
                None => first_named(self.entries@, name@) == self.entries@.len(),
            },
    {
        let ghost checks = named_checks(self.entries@, name@);
        let key = name.to_owned();
        let mut i: usize = 0;
        while i < self.entries.len()
            invariant
                i <= self.entries@.len(),
                key@ == name@,
                checks == named_checks(self.entries@, name@),
                checks.len() == self.entries@.len(),
                forall|j: int|
                    0 <= j < checks.len() ==> #[trigger] checks[j] == (if self.entries@[j].name@
                        == name@ {
                        Some(())
                    } else {
                        None::<()>
                    }),
                forall|j: int| 0 <= j < i ==> checks[j] is None,
            decreases self.entries@.len() - i,
        {
            if self.entries[i].name == key {
                proof {
                    assert(self.entries@[i as int].name@ == name@);
                    assert(checks[i as int] is Some);
                    lemma_first_failure(checks, i as int);
                }
                return Some(&self.entries[i]);
            }
            i = i + 1;
        }
        proof {
            lemma_first_failure(checks, i as int);
        }
        None
    }
}

/// Where no two entries share a name, the map of `entry_map` and the search
/// of `get` agree on every name.
pub proof fn law_entry_map_agrees_with_get(entries: Seq<ConfigEntry>, name: Seq<char>)
    requires
        forall|i: int, j: int|
            0 <= i < j < entries.len() ==> (#[trigger] entries[i]).name@ != (#[trigger] entries[j]).name@,
    ensures
        entries_by_name(entries).contains_key(name) <==> first_named(entries, name) < entries.len(),
        first_named(entries, name) < entries.len() ==> entries_by_name(entries)[name] == entries[first_named(
            entries,
            name,
        )],
    decreases entries.len(),
{
    let checks = named_checks(entries, name);
    if entries.len() == 0 {
        lemma_first_failure(checks, 0);
    } else {
        let p = entries.drop_last();
        let last = entries.last();
        assert forall|i: int, j: int| 0 <= i < j < p.len() implies (#[trigger] p[i]).name@ != (
        #[trigger] p[j]).name@ by {
            assert(p[i] == entries[i] && p[j] == entries[j]);
        }
        law_entry_map_agrees_with_get(p, name);
        let pchecks = named_checks(p, name);
        let k = first_named(p, name);
        // the first failure among all entries is that among the first ones,
        // or the last entry when none of the first ones has the name
        crate::text::lemma_first_failure_is_some(pchecks);
        if k < p.len() {
            assert(p[k] == entries[k]);
            assert forall|j: int| 0 <= j < k implies checks[j] is None by {
                assert(checks[j] == pchecks[j]);
                crate::text::lemma_first_failure_none_before(pchecks, j);
            }
            assert(checks[k] == pchecks[k]);
            crate::text::lemma_first_failure_is_some(pchecks);
            lemma_first_failure(checks, k);
            assert(last.name@ != name) by {
                assert(entries[k] == p[k]);
                assert(entries[entries.len() - 1] == last);
            }
        } else {
            assert forall|j: int| 0 <= j < p.len() implies checks[j] is None by {
                assert(checks[j] == pchecks[j]);
                crate::text::lemma_first_failure_none_before(pchecks, j);
            }
            assert(entries[p.len() as int] == last);
            if last.name@ == name {
                lemma_first_failure(checks, p.len() as int);
            } else {
                lemma_first_failure(checks, entries.len() as int);
            }
        }
    }
}

// ---------------------------------------------------------------------------
// Altering configuration
// ---------------------------------------------------------------------------

/// Configuration for an AlterConfig operation.
pub struct AlterConfig<'a> {
    /// Identifies the resource to be altered.
    pub specifier: ResourceSpecifier<'a>,
    /// The configuration parameters to be updated, as key and value; `set`
    /// keeps the keys distinct, and of several pairs with one key the last
    /// one counts.
    pub entries: Vec<(&'a str, &'a str)>,
}

/// The parameters a list of pairs stands for: of several pairs with one
/// key, the last one counts.
pub open spec fn parameters_map(v: Seq<(&str, &str)>) -> Map<Seq<char>, Seq<char>>
    decreases v.len(),
{
    if v.len() == 0 {
        Map::empty()
    } else {
        parameters_map(v.drop_last()).insert(v.last().0@, v.last().1@)
    }
}

/// No two pairs share a key.
pub open spec fn distinct_keys(v: Seq<(&str, &str)>) -> bool {
    forall|i: int, j: int| 0 <= i < j < v.len() ==> (#[trigger] v[i]).0@ != (#[trigger] v[j]).0@
}

/// Some pair has the key `k`.
pub open spec fn has_key(v: Seq<(&str, &str)>, k: Seq<char>) -> bool {
    exists|j: int| 0 <= j < v.len() && (#[trigger] v[j]).0@ == k
}

/// The pair at `i` is the last one with the key `k`.
pub open spec fn is_last_with_key(v: Seq<(&str, &str)>, i: int, k: Seq<char>) -> bool {
    &&& 0 <= i < v.len()
    &&& v[i].0@ == k
    &&& forall|j: int| i < j < v.len() ==> (#[trigger] v[j]).0@ != k
}

/// The position of the last pair with the key `k` (meaningful where
/// `has_key(v, k)`).
pub open spec fn last_with_key(v: Seq<(&str, &str)>, k: Seq<char>) -> int {
    choose|i: int| is_last_with_key(v, i, k)
}

/// The pairs after setting `key` to `value`: the last pair with that key
/// takes the value, or the pair is added at the end.
pub open spec fn set_parameter<'a>(v: Seq<(&'a str, &'a str)>, key: &'a str, value: &'a str) -> Seq<
    (&'a str, &'a str),
> {
    if has_key(v, key@) {
        let i = last_with_key(v, key@);
        v.update(i, (v[i].0, value))
    } else {
        v.push((key, value))
    }
}

/// The first `n` pairs, without those that a later pair with the same key
/// overrides.
pub open spec fn kept_pairs<'a>(v: Seq<(&'a str, &'a str)>, n: int) -> Seq<(&'a str, &'a str)>
    decreases n,
{
    if n <= 0 {
        Seq::empty()
    } else {
        let r = kept_pairs(v, n - 1);
        if is_last_with_key(v, n - 1, v[n - 1].0@) {
            r.push(v[n - 1])
        } else {
            r
        }
    }
}

/// The pairs that count: for each key, its last pair, in their order.
pub open spec fn last_pairs<'a>(v: Seq<(&'a str, &'a str)>) -> Seq<(&'a str, &'a str)> {
    kept_pairs(v, v.len() as int)
}

proof fn lemma_last_with_key(v: Seq<(&str, &str)>, k: Seq<char>)
    requires
        has_key(v, k),
    ensures
        is_last_with_key(v, last_with_key(v, k), k),
    decreases v.len(),
{
    let p = v.drop_last();
    if v.last().0@ == k {
        assert(is_last_with_key(v, v.len() - 1, k));
    } else {
        let j = choose|j: int| 0 <= j < v.len() && (#[trigger] v[j]).0@ == k;
        assert(p[j] == v[j]);
        assert(has_key(p, k));
        lemma_last_with_key(p, k);
        let i = last_with_key(p, k);
        assert forall|l: int| i < l < v.len() implies (#[trigger] v[l]).0@ != k by {
            if l < p.len() {
                assert(p[l] == v[l]);
            }
        }
        assert(is_last_with_key(v, i, k));
    }
}

proof fn lemma_parameters_map(v: Seq<(&str, &str)>, k: Seq<char>)
    ensures
        parameters_map(v).contains_key(k) <==> has_key(v, k),
        forall|i: int| is_last_with_key(v, i, k) ==> parameters_map(v)[k] == (#[trigger] v[i]).1@,
    decreases v.len(),
{
    if v.len() > 0 {
        let p = v.drop_last();
        lemma_parameters_map(p, k);
        assert forall|j: int| 0 <= j < p.len() implies #[trigger] p[j] == v[j] by {}
        if has_key(v, k) && v.last().0@ != k {
            let j = choose|j: int| 0 <= j < v.len() && (#[trigger] v[j]).0@ == k;
            assert(p[j].0@ == k);
        }
        if has_key(p, k) {
            let j = choose|j: int| 0 <= j < p.len() && (#[trigger] p[j]).0@ == k;
            assert(v[j].0@ == k);
        }
        assert forall|i: int| is_last_with_key(v, i, k) implies parameters_map(v)[k] == (
        #[trigger] v[i]).1@ by {
            if v.last().0@ != k {
                assert(i < p.len());
                assert forall|l: int| i < l < p.len() implies (#[trigger] p[l]).0@ != k by {
                    assert(v[l].0@ != k);
                }
                assert(is_last_with_key(p, i, k));
                assert(p[i] == v[i]);
            } else {
                assert(i == v.len() - 1);
            }
        }
    }
}

proof fn lemma_set_parameter<'a>(v: Seq<(&'a str, &'a str)>, key: &'a str, value: &'a str)
    ensures
        parameters_map(set_parameter(v, key, value)) == parameters_map(v).insert(key@, value@),
        distinct_keys(v) ==> distinct_keys(set_parameter(v, key, value)),
{
    let w = set_parameter(v, key, value);
    if has_key(v, key@) {
        lemma_last_with_key(v, key@);
        let i = last_with_key(v, key@);
        assert forall|j: int| 0 <= j < v.len() implies (#[trigger] w[j]).0@ == v[j].0@ by {}
        assert forall|k: Seq<char>|
            #![trigger parameters_map(w).contains_key(k)]
            parameters_map(w).contains_key(k) == parameters_map(v).insert(
                key@,
                value@,
            ).contains_key(k) && (parameters_map(w).contains_key(k) ==> parameters_map(w)[k]
                == parameters_map(v).insert(key@, value@)[k]) by {
            lemma_parameters_map(v, k);
            lemma_parameters_map(w, k);
            if has_key(v, k) {
                let j = choose|j: int| 0 <= j < v.len() && (#[trigger] v[j]).0@ == k;
                assert(w[j].0@ == k);
            }
            if has_key(w, k) {
                let j = choose|j: int| 0 <= j < w.len() && (#[trigger] w[j]).0@ == k;
                assert(v[j].0@ == k);
            }
            if k == key@ {
                assert(is_last_with_key(w, i, k));
            } else if has_key(v, k) {
                lemma_last_with_key(v, k);
                let j = last_with_key(v, k);
                assert(j != i);
                assert(is_last_with_key(w, j, k));
                assert(w[j] == v[j]);
            }
        }
        assert(parameters_map(w) =~= parameters_map(v).insert(key@, value@));
        assert(distinct_keys(v) ==> distinct_keys(w)) by {
            if distinct_keys(v) {
                assert forall|a: int, b: int| 0 <= a < b < w.len() implies (#[trigger] w[a]).0@
                    != (#[trigger] w[b]).0@ by {
                    assert(v[a].0@ != v[b].0@);
                }
            }
        }
    } else {
        assert(w.drop_last() =~= v);
        assert(distinct_keys(v) ==> distinct_keys(w)) by {
            if distinct_keys(v) {
                assert forall|a: int, b: int| 0 <= a < b < w.len() implies (#[trigger] w[a]).0@
                    != (#[trigger] w[b]).0@ by {
                    assert(w[a] == v[a]);
                    if b < v.len() {
                        assert(w[b] == v[b]);
                    }
                }
            }
        }
    }
}

proof fn lemma_kept_pairs(v: Seq<(&str, &str)>, n: int, k: Seq<char>)
    requires
        0 <= n <= v.len(),
    ensures
        parameters_map(kept_pairs(v, n)).contains_key(k) <==> exists|i: int|
            0 <= i < n && #[trigger] is_last_with_key(v, i, k),
        forall|i: int|
            0 <= i < n && #[trigger] is_last_with_key(v, i, k) ==> parameters_map(
                kept_pairs(v, n),
            )[k] == v[i].1@,
        has_key(kept_pairs(v, n), k) <==> parameters_map(kept_pairs(v, n)).contains_key(k),
    decreases n,
{
    lemma_parameters_map(kept_pairs(v, n), k);
    if n > 0 {
        lemma_kept_pairs(v, n - 1, k);
        let r = kept_pairs(v, n - 1);
        let k0 = v[n - 1].0@;
        if is_last_with_key(v, n - 1, k0) {
            assert(r.push(v[n - 1]).drop_last() =~= r);
        } else {
            assert(!is_last_with_key(v, n - 1, k));
        }
        assert forall|i: int| 0 <= i < n && #[trigger] is_last_with_key(v, i, k) implies
            parameters_map(kept_pairs(v, n))[k] == v[i].1@ by {
            if i < n - 1 {
                if k == k0 {
                    assert(v[n - 1].0@ == k);
                }
            }
        }
    }
}

/// Sending the pairs that count keeps the parameters and sends each key
/// once; pairs whose keys are already distinct are all sent, in order.
pub proof fn law_last_pairs(v: Seq<(&str, &str)>)
    ensures
        parameters_map(last_pairs(v)) == parameters_map(v),
        distinct_keys(last_pairs(v)),
        distinct_keys(v) ==> last_pairs(v) == v,
{
    let n = v.len() as int;
    assert forall|k: Seq<char>|
        #![trigger parameters_map(last_pairs(v)).contains_key(k)]
        parameters_map(last_pairs(v)).contains_key(k) == parameters_map(v).contains_key(k) && (
        parameters_map(v).contains_key(k) ==> parameters_map(last_pairs(v))[k]
            == parameters_map(v)[k]) by {
        lemma_kept_pairs(v, n, k);
        lemma_parameters_map(v, k);
        if has_key(v, k) {
            lemma_last_with_key(v, k);
            let i = last_with_key(v, k);
            assert(is_last_with_key(v, i, k));
        }
        if exists|i: int| 0 <= i < n && #[trigger] is_last_with_key(v, i, k) {
            let i = choose|i: int| 0 <= i < n && #[trigger] is_last_with_key(v, i, k);
            assert(v[i].0@ == k);
        }
    }
    assert(parameters_map(last_pairs(v)) =~= parameters_map(v));
    lemma_kept_distinct(v, n);
    if distinct_keys(v) {
        lemma_kept_all(v, n);
    }
}

proof fn lemma_kept_distinct(v: Seq<(&str, &str)>, n: int)
    requires
        0 <= n <= v.len(),
    ensures
        distinct_keys(kept_pairs(v, n)),
    decreases n,
{
    if n > 0 {
        lemma_kept_distinct(v, n - 1);
        let r = kept_pairs(v, n - 1);
        let k0 = v[n - 1].0@;
        if is_last_with_key(v, n - 1, k0) {
            lemma_kept_pairs(v, n - 1, k0);
            let w = r.push(v[n - 1]);
            assert forall|a: int, b: int| 0 <= a < b < w.len() implies (#[trigger] w[a]).0@
                != (#[trigger] w[b]).0@ by {
                assert(w[a] == r[a]);
                if b < r.len() {
                    assert(w[b] == r[b]);
                } else if r[a].0@ == k0 {
                    assert(has_key(r, k0));
                    let i = choose|i: int| 0 <= i < n - 1 && #[trigger] is_last_with_key(v, i, k0);
                    assert(v[n - 1].0@ == k0);
                }
            }
        }
    }
}

proof fn lemma_kept_all(v: Seq<(&str, &str)>, n: int)
    requires
        0 <= n <= v.len(),
        distinct_keys(v),
    ensures
        kept_pairs(v, n) == v.take(n),
    decreases n,
{
    if n > 0 {
        lemma_kept_all(v, n - 1);
        assert forall|j: int| n - 1 < j < v.len() implies (#[trigger] v[j]).0@ != v[n - 1].0@ by {}
        assert(is_last_with_key(v, n - 1, v[n - 1].0@));
        assert(v.take(n - 1).push(v[n - 1]) =~= v.take(n));
    }
}

/// Whether the pair at `i` is the last one with its key.
fn is_last_of_its_key(v: &Vec<(&str, &str)>, i: usize) -> (b: bool)
    requires
        i < v@.len(),
    ensures
        b == is_last_with_key(v@, i as int, v@[i as int].0@),
{
    let key = v[i].0.to_owned();
    let n = v.len();
    let mut j: usize = i + 1;
    while j < n
        invariant
            n == v@.len(),
            i < j <= v@.len(),
            key@ == v@[i as int].0@,
            forall|l: int| i < l < j ==> (#[trigger] v@[l]).0@ != key@,
        decreases v@.len() - j,
    {
        if v[j].0.to_owned() == key {
            return false;
        }
        j = j + 1;
    }
    true
}

/// The pairs that count, in their order.
fn last_pairs_of<'a>(v: &Vec<(&'a str, &'a str)>) -> (out: Vec<(&'a str, &'a str)>)
    ensures
        out@ == last_pairs(v@),
{
    let mut out: Vec<(&'a str, &'a str)> = Vec::new();
    let mut i: usize = 0;
    while i < v.len()
        invariant
            i <= v@.len(),
            out@ == kept_pairs(v@, i as int),
        decreases v@.len() - i,
    {
        if is_last_of_its_key(v, i) {
            out.push(v[i]);
        }
        i = i + 1;
    }
    out
}

/// What librdkafka is given to alter a resource: the resource, then each
/// parameter; after them, `entries_error` if one parameter could not be
/// handed to C.
#[derive(Debug)]
pub struct NativeConfigResource {
    pub typ: RDKafkaResourceType,
    pub name: String,
    pub entries: Vec<(String, String)>,
    pub entries_error: Option<KafkaError>,
}

impl<'a> AlterConfig<'a> {
    /// Creates a new `AlterConfig`, with no parameters.
    pub fn new(specifier: ResourceSpecifier<'a>) -> (c: AlterConfig<'a>)
        ensures
            c.specifier == specifier,
            c.entries@ == Seq::<(&'a str, &'a str)>::empty(),
            distinct_keys(c.entries@),
    {
        AlterConfig { specifier, entries: Vec::new() }
    }

    /// Sets the configuration parameter named `key` to the specified `value`.
    pub fn set(self, key: &'a str, value: &'a str) -> (c: AlterConfig<'a>)
        ensures
            c.specifier == self.specifier,
            c.entries@ == set_parameter(self.entries@, key, value),
            parameters_map(c.entries@) == parameters_map(self.entries@).insert(key@, value@),
            distinct_keys(self.entries@) ==> distinct_keys(c.entries@),
    {
        proof {
            lemma_set_parameter(self.entries@, key, value);
        }
        let mut c = self;
        let wanted = key.to_owned();
        let mut i: usize = c.entries.len();
        while i > 0
            invariant
                c.entries@ == self.entries@,
                c.specifier == self.specifier,
                wanted@ == key@,
                i <= c.entries@.len(),
                forall|j: int| i <= j < c.entries@.len() ==> (#[trigger] c.entries@[j]).0@ != key@,
            decreases i,
        {
            let existing = c.entries[i - 1].0;
            if existing.to_owned() == wanted {
                proof {
                    let v = self.entries@;
                    assert(is_last_with_key(v, i - 1, key@));
                    assert(has_key(v, key@));
                    lemma_last_with_key(v, key@);
                    let l = last_with_key(v, key@);
                    if l < i - 1 {
                        assert(v[i - 1].0@ == key@);
                    } else if l > i - 1 {
                        assert(v[l].0@ == key@);
                    }
                }
                c.entries.set(i - 1, (existing, value));
                assert(c.entries@ =~= set_parameter(self.entries@, key, value));
                proof {
                    lemma_set_parameter(self.entries@, key, value);
                }
                return c;
            }
            i = i - 1;
        }
        assert(!has_key(self.entries@, key@));
        c.entries.push((key, value));
        c
    }

    /// What librdkafka is given to alter this resource: for each key, its
    /// last pair, in their order.
    ///
    /// Fails when the resource's name cannot be handed to C.
    pub fn to_native(&self) -> (r: Result<NativeConfigResource, KafkaError>)
        ensures
            r is Err <==> nul_kafka_error(native_resource_spec(self.specifier@).0) is Some,
            r matches Err(e) ==> Some(e@) == nul_kafka_error(native_resource_spec(self.specifier@).0),
            r matches Ok(n) ==> {
                let sent = last_pairs(self.entries@);
                &&& (n.name@, n.typ) == native_resource_spec(self.specifier@)
                &&& owned_prefix(n.entries@, sent, first_failure(config_checks(sent)))
                &&& opt_error_view(n.entries_error) == first_error(config_checks(sent))
            },
    {
        let (name, typ) = self.specifier.to_native()?;
        let sent = last_pairs_of(&self.entries);
        let entries = native_config_entries(&sent);
        Ok(NativeConfigResource { typ, name, entries: entries.entries, entries_error: entries.error })
    }
}

// ---------------------------------------------------------------------------
// Answers
// ---------------------------------------------------------------------------

/// The result of an individual DescribeConfig operation.
pub type ConfigResourceResult = Result<ConfigResource, RDKafkaError>;

/// The result of an individual AlterConfig operation.
pub type AlterConfigsResult = Result<OwnedResourceSpecifier, (OwnedResourceSpecifier, RDKafkaError)>;

/// What a `ConfigResourceResult` says.
pub open spec fn config_result_view(r: ConfigResourceResult) -> Result<ConfigResourceView, RDKafkaError> {
    match r {
        Ok(c) => Ok(c@),
        Err(e) => Err(e),
    }
}

/// What an `AlterConfigsResult` says.
pub open spec fn alter_result_view(r: AlterConfigsResult) -> Result<
    ResourceSpecifierView,
    (ResourceSpecifierView, RDKafkaError),
> {
    match r {
        Ok(s) => Ok(s@),
        Err((s, e)) => Err((s@, e)),
    }
}

/// The result for one resource of an AlterConfigs answer, given by its type,
/// name and error code (where the resource can be read): the resource, with
/// its error when the code is one.
pub open spec fn altered_view(r: (RDKafkaResourceType, String, RDKafkaError)) -> Result<
    ResourceSpecifierView,
    (ResourceSpecifierView, RDKafkaError),
> {
    let s = specifier_spec(r.0, r.1@)->Ok_0;
    if r.2.spec_is_error() {
        Err((s, r.2))
    } else {
        Ok(s)
    }
}

/// A configuration entry as librdkafka answers it.
pub struct RawConfigEntry {
    pub name: String,
    pub value: Option<String>,
    pub source: RDKafkaConfigSource,
    pub is_read_only: i32,
    pub is_default: i32,
    pub is_sensitive: i32,
}

/// A configurable resource as librdkafka answers it.
pub struct RawConfigResource {
    pub typ: RDKafkaResourceType,
    pub name: String,
    pub entries: Vec<RawConfigEntry>,
}

/// What librdkafka answered to a DescribeConfigs request.
pub struct DescribeConfigsEvent {
    pub error: RDKafkaError,
    pub result_present: bool,
    pub event_type: i32,
    pub resources: Vec<RawConfigResource>,
}

/// What librdkafka answered to an AlterConfigs request: each resource by its
/// type and name, with the error code of its alteration.
pub struct AlterConfigsEvent {
    pub error: RDKafkaError,
    pub result_present: bool,
    pub event_type: i32,
    pub resources: Vec<(RDKafkaResourceType, String, RDKafkaError)>,
}

/// The entry an answered entry stands for, given its source.
pub open spec fn entry_view(r: RawConfigEntry, source: ConfigSource) -> ConfigEntryView {
    ConfigEntryView {
        name: r.name@,
        value: opt_string_view(r.value),
        source,
        is_read_only: r.is_read_only != 0,
        is_default: r.is_default != 0,
        is_sensitive: r.is_sensitive != 0,
    }
}

/// Why an answered entry cannot be read, if it cannot.
pub open spec fn entry_check(r: RawConfigEntry) -> Option<KafkaErrorView> {
    match config_source_spec(r.source) {
        Err(e) => Some(e),
        Ok(_) => None,
    }
}

/// The checks of answered entries, in order.
pub open spec fn entry_checks(es: Seq<RawConfigEntry>) -> Seq<Option<KafkaErrorView>> {
    es.map_values(|e: RawConfigEntry| entry_check(e))
}

/// Why an answered resource cannot be read, if it cannot: its name and type
/// first, then its entries in order.
pub open spec fn resource_check(r: RawConfigResource) -> Option<KafkaErrorView> {
    match specifier_spec(r.typ, r.name@) {
        Err(e) => Some(e),
        Ok(_) => first_error(entry_checks(r.entries@)),
    }
}

/// The checks of answered resources, in order.
pub open spec fn resource_checks(rs: Seq<RawConfigResource>) -> Seq<Option<KafkaErrorView>> {
    rs.map_values(|r: RawConfigResource| resource_check(r))
}

/// The resource an answered resource stands for (where it can be read).
pub open spec fn resource_view(r: RawConfigResource) -> ConfigResourceView {
    ConfigResourceView {
        specifier: specifier_spec(r.typ, r.name@)->Ok_0,
        entries: r.entries@.map_values(
            |e: RawConfigEntry| entry_view(e, config_source_spec(e.source)->Ok_0),
        ),
    }
}

/// Reads the entries of an answered resource: all of them, or the error of
/// the first that cannot be read.
fn read_entries(raw: &Vec<RawConfigEntry>) -> (r: Result<Vec<ConfigEntry>, KafkaError>)
    ensures
        first_error(entry_checks(raw@)) is Some <==> r is Err,
        r matches Err(e) ==> first_error(entry_checks(raw@)) == Some(e@),
        r matches Ok(out) ==> out@.len() == raw@.len() && forall|i: int|
            0 <= i < raw@.len() ==> (#[trigger] out@[i])@ == entry_view(
                raw@[i],
                config_source_spec(raw@[i].source)->Ok_0,
            ),
        r matches Ok(out) ==> forall|i: int|
            0 <= i < raw@.len() ==> {
                &&& (#[trigger] out@[i]).name@ == raw@[i].name@
                &&& (raw@[i].value is None <==> out@[i].value is None)
                &&& (raw@[i].value matches Some(v) ==> out@[i].value matches Some(w) && w@ == v@)
                &&& out@[i].is_read_only == (raw@[i].is_read_only != 0)
                &&& out@[i].is_default == (raw@[i].is_default != 0)
                &&& out@[i].is_sensitive == (raw@[i].is_sensitive != 0)
            },
{
    let ghost checks = entry_checks(raw@);
    let mut out: Vec<ConfigEntry> = Vec::new();
    let mut i: usize = 0;
    while i < raw.len()
        invariant
            i <= raw@.len(),
            checks == entry_checks(raw@),
            out@.len() == i,
            forall|j: int| 0 <= j < i ==> checks[j] is None,
            forall|j: int|
                0 <= j < i ==> (#[trigger] out@[j])@ == entry_view(
                    raw@[j],
                    config_source_spec(raw@[j].source)->Ok_0,
                ),
        decreases raw@.len() - i,
    {
        let e = &raw[i];
        assert(checks[i as int] == entry_check(raw@[i as int]));
        let source = match extract_config_source(e.source) {
            Ok(s) => s,
            Err(err) => {
                proof {
                    lemma_first_failure(checks, i as int);
                }
                return Err(err);
            },
        };
        let value = match &e.value {
            Some(v) => Some(v.clone()),
            None => None,
        };
        out.push(
            ConfigEntry {
                name: e.name.clone(),
                value,
                source,
                is_read_only: e.is_read_only != 0,
                is_default: e.is_default != 0,
                is_sensitive: e.is_sensitive != 0,
            },
        );
        i = i + 1;
    }
    proof {
        lemma_first_failure(checks, i as int);
    }
    Ok(out)
}

/// Reads the answer to a DescribeConfigs request: the overall error first,
/// then an answer of the wrong kind, then the first resource or entry that
/// cannot be read; else each resource with its entries.
pub fn describe_configs_results(event: &DescribeConfigsEvent) -> (r: Result<
    Vec<ConfigResourceResult>,
    KafkaError,
>)
    ensures
        event.error.spec_is_error() ==> (r matches Err(e) && e@ == KafkaErrorView::AdminOp(
            event.error,
        )),
        !event.error.spec_is_error() && !event.result_present ==> (r matches Err(e) && e@
            == KafkaErrorView::AdminOpCreation(
            wrong_answer_message("describe configs"@, event.event_type),
        )),
        !event.error.spec_is_error() && event.result_present ==> {
            let checks = resource_checks(event.resources@);
            &&& first_error(checks) is Some <==> r is Err
            &&& r matches Err(e) ==> first_error(checks) == Some(e@)
            &&& r matches Ok(out) ==> out@.len() == event.resources@.len() && forall|i: int|
                0 <= i < out@.len() ==> config_result_view(#[trigger] out@[i]) == Ok::<
                    ConfigResourceView,
                    RDKafkaError,
                >(resource_view(event.resources@[i]))
        },
{
    check_event_error(event.error)?;
    if !event.result_present {
        return Err(wrong_answer_error("describe configs", event.event_type));
    }
    let ghost checks = resource_checks(event.resources@);
    let resources = &event.resources;
    let mut out: Vec<ConfigResourceResult> = Vec::new();
    let mut i: usize = 0;
    while i < resources.len()
        invariant
            i <= resources@.len(),
            resources@ == event.resources@,
            checks == resource_checks(event.resources@),
            !event.error.spec_is_error(),
            event.result_present,
            out@.len() == i,
            forall|j: int| 0 <= j < i ==> checks[j] is None,
            forall|j: int|
                0 <= j < i ==> config_result_view(#[trigger] out@[j]) == Ok::<
                    ConfigResourceView,
                    RDKafkaError,
                >(resource_view(resources@[j])),
        decreases resources@.len() - i,
    {
        let res = &resources[i];
        assert(checks[i as int] == resource_check(resources@[i as int]));
        let specifier = match extract_config_specifier(res.typ, res.name.as_str()) {
            Ok(s) => s,
            Err(err) => {
                proof {
                    lemma_first_failure(checks, i as int);
                }
                return Err(err);
            },
        };
        let entries = match read_entries(&res.entries) {
            Ok(es) => es,
            Err(err) => {
                proof {
                    lemma_first_failure(checks, i as int);
                }
                return Err(err);
            },
        };
        let resource = ConfigResource { specifier, entries };
        assert(resource@ =~= resource_view(resources@[i as int])) by {
            assert(resource@.entries =~= resource_view(resources@[i as int]).entries);
        }
        out.push(Ok(resource));
        i = i + 1;
    }
    proof {
        lemma_first_failure(checks, i as int);
    }
    Ok(out)
}

/// The checks of the resources of an AlterConfigs answer, in order.
pub open spec fn altered_checks(rs: Seq<(RDKafkaResourceType, String, RDKafkaError)>) -> Seq<
    Option<KafkaErrorView>,
> {
    rs.map_values(
        |r: (RDKafkaResourceType, String, RDKafkaError)|
            match specifier_spec(r.0, r.1@) {
                Err(e) => Some(e),
                Ok(_) => None,
            },
    )
}

/// Reads the answer to an AlterConfigs request: the overall error first,
/// then an answer of the wrong kind, then the first resource that cannot be
/// read; else one result per resource, in order: the resource when its
/// alteration succeeded, the resource and its error code when it failed.
/// Some alterations may fail while others succeed.
pub fn alter_configs_results(event: &AlterConfigsEvent) -> (r: Result<
    Vec<AlterConfigsResult>,
    KafkaError,
>)
    ensures
        event.error.spec_is_error() ==> (r matches Err(e) && e@ == KafkaErrorView::AdminOp(
            event.error,
        )),
        !event.error.spec_is_error() && !event.result_present ==> (r matches Err(e) && e@
            == KafkaErrorView::AdminOpCreation(
            wrong_answer_message("alter configs"@, event.event_type),
        )),
        !event.error.spec_is_error() && event.result_present ==> {
            let checks = altered_checks(event.resources@);
            &&& first_error(checks) is Some <==> r is Err
            &&& r matches Err(e) ==> first_error(checks) == Some(e@)
            &&& r matches Ok(out) ==> out@.len() == event.resources@.len() && forall|i: int|
                0 <= i < out@.len() ==> alter_result_view(#[trigger] out@[i]) == altered_view(
                    event.resources@[i],
                )
        },
{
    check_event_error(event.error)?;
    if !event.result_present {
        return Err(wrong_answer_error("alter configs", event.event_type));
    }
    let ghost checks = altered_checks(event.resources@);
    let resources = &event.resources;
    let mut out: Vec<AlterConfigsResult> = Vec::new();
    let mut i: usize = 0;
    while i < resources.len()
        invariant
            i <= resources@.len(),
            resources@ == event.resources@,
            checks == altered_checks(event.resources@),
            !event.error.spec_is_error(),
            event.result_present,
            out@.len() == i,
            forall|j: int| 0 <= j < i ==> checks[j] is None,
            forall|j: int|
                0 <= j < i ==> alter_result_view(#[trigger] out@[j]) == altered_view(resources@[j]),
        decreases resources@.len() - i,
    {
        let (typ, name, code) = (&resources[i].0, &resources[i].1, resources[i].2);
        match extract_config_specifier(*typ, name.as_str()) {
            Ok(s) => {
                if code.is_error() {
                    out.push(Err((s, code)));
                } else {
                    out.push(Ok(s));
                }
            },
            Err(err) => {
                proof {
                    lemma_first_failure(checks, i as int);
                }
                return Err(err);
            },
        }
        i = i + 1;
    }
    proof {
        lemma_first_failure(checks, i as int);
    }
    Ok(out)
}

/// A topic is sent as a topic and a group as a group, under their own names
/// whatever they are, and a broker as a broker; an answer naming a topic or a
/// group reads back as that topic or group under the name given, and an
/// answer of a type that names no resource cannot be read.
pub proof fn law_resource_types(n: Seq<char>, id: i32, t: RDKafkaResourceType)
    ensures
        native_resource_spec(ResourceSpecifierView::Topic(n)) == (
            n,
            RDKafkaResourceType::RD_KAFKA_RESOURCE_TOPIC,
        ),
        native_resource_spec(ResourceSpecifierView::Group(n)) == (
            n,
            RDKafkaResourceType::RD_KAFKA_RESOURCE_GROUP,
        ),
        native_resource_spec(ResourceSpecifierView::Broker(id)).1
            == RDKafkaResourceType::RD_KAFKA_RESOURCE_BROKER,
        specifier_spec(RDKafkaResourceType::RD_KAFKA_RESOURCE_TOPIC, n) == Ok::<
            ResourceSpecifierView,
            KafkaErrorView,
        >(ResourceSpecifierView::Topic(n)),
        specifier_spec(RDKafkaResourceType::RD_KAFKA_RESOURCE_GROUP, n) == Ok::<
            ResourceSpecifierView,
            KafkaErrorView,
        >(ResourceSpecifierView::Group(n)),
        specifier_spec(t, n) matches Ok(ResourceSpecifierView::Broker(_)) ==> t
            == RDKafkaResourceType::RD_KAFKA_RESOURCE_BROKER,
        t != RDKafkaResourceType::RD_KAFKA_RESOURCE_TOPIC && t
            != RDKafkaResourceType::RD_KAFKA_RESOURCE_GROUP && t
            != RDKafkaResourceType::RD_KAFKA_RESOURCE_BROKER ==> specifier_spec(t, n) is Err,
{
}

/// A described entry keeps what librdkafka answered for it: its name, no
/// value exactly when librdkafka gave none and otherwise that value's text,
/// and each flag set exactly when librdkafka's number for it is not zero.
pub proof fn law_described_entries(r: RawConfigResource)
    ensures
        resource_view(r).entries.len() == r.entries@.len(),
        forall|i: int|
            0 <= i < r.entries@.len() ==> {
                let e = #[trigger] resource_view(r).entries[i];
                let raw = r.entries@[i];
                &&& e.name == raw.name@
                &&& (raw.value is None <==> e.value is None)
                &&& (raw.value matches Some(v) ==> e.value == Some(v@))
                &&& e.is_read_only == (raw.is_read_only != 0)
                &&& e.is_default == (raw.is_default != 0)
                &&& e.is_sensitive == (raw.is_sensitive != 0)
            },
{
}

} // verus!
