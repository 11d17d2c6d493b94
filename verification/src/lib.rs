#![verifier::loop_isolation(false)]
//! Verified core of the `ruso` command-line scanner.

pub mod text;
pub mod report;

pub mod paths;
pub mod style;
pub mod targets;
pub mod throttle;
pub mod registry;
pub mod install_store;
pub mod install;
pub mod credentials;
pub mod order;
pub mod discover;
pub mod scheme;
pub mod args;
pub mod cmd_registry;
pub mod scan;
pub mod util;
