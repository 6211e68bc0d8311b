//! A graph-based world model for exploring a cluster of infrastructure
//! resources as connected rooms.
//!
//! Each resource (a namespace, a workload, a pod, a container) becomes a
//! navigable room, and related resources are linked by directed doors. The
//! crate builds such floor plans from resolved resource records, answers
//! connectivity queries on them, derives the occupied room's layout, and
//! sequences room changes through a small transition state machine.

pub mod builder;
pub mod cli;
pub mod floorplan;
pub mod generators;
pub mod layout;
pub mod resolver;
pub mod text;
pub mod transition;
pub mod world;
