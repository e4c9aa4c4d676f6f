//! Replicated state machines over the shared log.

pub mod base_engine;
pub mod batching;
pub mod laws;
pub mod observer;
pub mod stack;
pub mod traits;
pub mod view_tracking;

pub use base_engine::BaseEngine;
pub use batching::{BatchingApplicator, BatchingEngine};
pub use observer::{MetricsReporter, ObserverApplicator, ObserverEngine};
pub use stack::{EngineStackBuilder, MiddleEngine};
pub use traits::{Applicator, Engine, ReturnValue};
pub use view_tracking::{ViewTrackingApplicator, ViewTrackingEngine};
