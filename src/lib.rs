//! Electricity telemetry kept in a stable, timestamp-keyed map: the record codec, the
//! store, the replace-all ingest step and the read queries.
pub mod event;
pub mod store;
pub mod query;
pub mod ingest;
