//! The rules of DSH Desktop: how the DSH service is found, started, watched and repaired, how the
//! application and DSH are updated, and how plugins are kept.
//!
//! Nothing here reads a file, opens a socket or starts a process. What the program finds is handed
//! in as plain values, and what it is to do next comes back as plain values.
pub mod app_update;
pub mod boot;
pub mod config;
pub mod disk;
pub mod dsh_update;
pub mod json;
pub mod logging;
pub mod node;
pub mod paths;
pub mod plugins;
pub mod pnpm_forwarder;
pub mod service;
pub mod serviceout;
pub mod settings;
pub mod shell;
pub mod state;
pub mod supervisor;
pub mod text;
pub mod winproc;
pub mod yaml;
