//! A frame-graph building library.
//!
//! Callers declare render passes — which attachments each one reads and
//! writes — and the library turns that declarative description into an
//! ordered, executable plan: a schedule that places every pass after the
//! passes it depends on, backing image/view storage for every attachment,
//! per-pass clear decisions, and the minimal semaphore wait edges between
//! dependent passes.
//!
//! The library also offers an epoch counter with a deletion queue, used to
//! hold resources alive until the device is known to be done with them.

pub use attachment::{Attachment, ColorAttachment, DepthStencilAttachment};
pub use graph::{Graph, GraphBuildError, GraphBuilder};
pub use pass::{PassBuilder, PassNode};

pub mod attachment;
pub mod epoch;
pub mod frame;
pub mod graph;
pub mod pass;
pub mod schedule;
