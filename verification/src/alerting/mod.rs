//! Alerting: rules on events, and what is sent where.

pub mod aggregations;
pub mod bundle;
pub mod bundle_laws;
pub mod config;
pub mod correlations;
pub mod dispatch;
pub mod endpoints;
pub mod escalations;
pub mod flow_laws;
pub mod ids;
pub mod laws;
pub mod presets;
pub mod recipients;
pub mod restore;
pub mod retry;
pub mod retry_laws;
pub mod routes;
pub mod rows;
pub mod rule_laws;
pub mod send_laws;
pub mod severity;
pub mod silences;
pub mod simulator;
pub mod sound;
pub mod stamps;
pub mod storage;
pub mod store;
pub mod table_laws;
pub mod template;
pub mod template_laws;
pub mod timeline;
pub mod trace_laws;
pub mod trial_laws;
pub mod types;
pub mod util;
