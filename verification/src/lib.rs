//! The decision logic of a telemetry agent: configuration, collection of
//! metrics and log lines, the processing pipeline and the payloads it ships.

pub mod clock;
pub mod config;
pub mod config_poller;
pub mod enrollment;
pub mod fingerprint;
pub mod json;
pub mod lint;
pub mod number;
pub mod otlp;
pub mod path;
pub mod pattern;
pub mod payload;
pub mod pipeline;
pub mod processors;
pub mod signal;
pub mod sources;
pub mod strmap;
pub mod tail;
pub mod targets;
pub mod text;
pub mod tomltree;
pub mod web;

