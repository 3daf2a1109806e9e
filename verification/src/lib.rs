//! Verified core of a Kafka admin client: the requests an admin client sends
//! to librdkafka and the answers it reads back.
pub mod client;
pub mod config;
pub mod error;
pub mod options;
pub mod text;
pub mod topic;
