pub mod text;
pub mod registry;
pub mod paths;
pub mod sync;
pub mod query;
pub mod digest;
pub mod memory;
pub mod engram;
pub mod projects;
pub mod hooks;
pub mod impact;
pub mod bundle;
pub mod tree;
pub mod status;
pub mod git;
pub mod drift;
pub mod contracts;
pub mod language;
pub mod summary;
pub mod lessons;
pub mod exploration;
pub mod targets;
pub mod dashboard;
pub mod vectors;
pub mod watch;
pub mod graph;
pub mod reach;
