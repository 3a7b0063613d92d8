//! The write path of a service that stores metrics.
//!
//! Redundant senders write the same metrics, and of each group of them one
//! at a time is listened to. A batch that is accepted is taken apart into
//! records; each record goes through the transforms of its stream, is held
//! against the alerts of the stream, and is put into the bucket from which
//! it is written to the log.
//!
//! - `write`: who may write, and the unpacking of a request's body
//! - `labels`, `sample`, `series`: a batch and the records that it holds
//! - `election`: the choice of the sender that is listened to
//! - `settings`, `transform`, `evaluate`: transforms and alerts of a stream
//! - `record`, `partition`, `buffer`: records, their buckets and the writes
//! - `alerts`: the alerts that fire and the notices that are sent
//! - `lookup`, `promql`: reading back what was written
//! - `file_list`, `storage`, `metrics`: the catalogue of files, their store
//!   and the counters of a node
//! - `text`, `errors`: text and failures

pub mod alerts;
pub mod buffer;
pub mod election;
pub mod errors;
pub mod evaluate;
pub mod file_list;
pub mod labels;
pub mod lookup;
pub mod metrics;
pub mod partition;
pub mod promql;
pub mod record;
pub mod sample;
pub mod series;
pub mod settings;
pub mod storage;
pub mod text;
pub mod transform;
pub mod write;
