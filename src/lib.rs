//! An event-sourced property graph: an append-only log of facts, the graph
//! projection that replaying the log yields, and investigation cases built by
//! bounded traversal and time-windowed fact selection.

pub mod time;
pub mod text;
pub mod properties;
pub mod entity;
pub mod relationship;
pub mod fact;
pub mod store;
pub mod projection;
pub mod graph;
pub mod utils;
pub mod case;
pub mod search;
pub mod timeline;
