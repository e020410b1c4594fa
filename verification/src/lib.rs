//! Routing of freshly created files into music libraries: the decisions of a
//! watcher that turns debounced filesystem notifications into sort requests.

pub mod config;
pub mod error;
pub mod event;
pub mod ignore;
pub mod path;
pub mod resource;
pub mod roots;
pub mod snapshot;
pub mod sorting;
pub mod table;
pub mod watcher;
