//! The VM side of a pluggable memory manager for a native runtime: the object
//! model, precise and conservative scanning, weak-reference clearing, and the
//! stop-the-world protocol, over a model of the heap that the binding reads.
pub mod abi;
pub mod active_plan;
pub mod api;
pub mod binding;
pub mod collection;
pub mod framework;
pub mod heap;
pub mod object_model;
pub mod object_scanning;
pub mod scanning;
pub mod weak_refs;
pub mod diagnostics;
