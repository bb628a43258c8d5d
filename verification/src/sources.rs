//! Where signals come from.

pub mod otlp_receiver;
pub mod windows_event_log;
pub mod kubernetes_pods;
pub mod file_logs;
pub mod journald;
pub mod docker;
pub mod host_metrics;
pub mod prom_scrape;
