//! Verified core of a dnsmasq query-log monitor.
pub mod cli;
pub mod model;
pub mod parser;
pub mod report;
pub mod text;
pub mod util;
pub mod store;
pub mod ingest;
pub mod tui;
