//! Coverage instrumentation: the per-file coverage model, the resolution of
//! ignore hints in comments, and the visitor that injects counters into a
//! syntax tree.

pub mod hints;
pub mod model;
pub mod tree;
pub mod visitor;
