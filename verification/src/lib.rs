//! Render-phase queue engine: techniques, memoized batch construction,
//! an order-preserving draw queue, and a flush protocol with
//! failure-isolation semantics.

pub mod cull;
pub mod memory;
pub mod phase;
pub mod queue;
pub mod scene;
pub mod space;
pub mod types;
