pub mod alerting;
pub mod appctl;
pub mod audio;
pub mod automation;
pub mod backup;
pub mod browser;
pub mod capability;
pub mod clipboard;
pub mod config;
pub mod context;
pub mod crypt;
pub mod declaration;
pub mod desk_laws;
pub mod event;
pub mod event_replay;
pub mod execution;
pub mod files;
pub mod graph;
pub mod json;
pub mod laws;
pub mod notice_laws;
pub mod order;
pub mod plugin_laws;
pub mod record_laws;
pub mod run_laws;
pub mod text;
pub mod text_laws;
pub mod tool_laws;
pub mod values;
pub mod words;
