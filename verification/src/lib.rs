//! Tools for the reMarkable tablet: the logical document tree, folder sync planning,
//! `.rmdoc` bundles and the shell scripts that talk to the device.

pub mod action;
pub mod archive;
pub mod bundle;
pub mod bundle_laws;
pub mod cli;
pub mod client;
pub mod converge;
pub mod deletion;
pub mod device;
pub mod epub;
pub mod error;
pub mod execute;
pub mod execute_laws;
pub mod family;
pub mod file_laws;
pub mod glob;
pub mod ident;
pub mod json;
pub mod listing;
pub mod metadata;
pub mod mkdir;
pub mod number;
pub mod pairing;
pub mod path_laws;
pub mod pathmap;
pub mod plan;
pub mod plan_laws;
pub mod progress;
pub mod render;
pub mod render_laws;
pub mod reorganize;
pub mod reply;
pub mod resolve;
pub mod resolve_laws;
pub mod restart;
pub mod restore;
pub mod sections;
pub mod snapshot;
pub mod snapshot_laws;
pub mod ssh;
pub mod status;
pub mod status_laws;
pub mod sync;
pub mod sync_laws;
pub mod text;
pub mod text_laws;
pub mod transfer;
pub mod tree;
pub mod tree_laws;
pub mod units;
pub mod walk;
pub mod xochitl;
