//! A registry of typed layers that react to events, and the bounded cascade
//! that feeds their reactions back until the system settles.
//!
//! - [`layer`]: what a layer is, the shared handle that holds one, and its
//!   type-erased form;
//! - [`type_map`]: the ordered map by type identity under the registry;
//! - [`registry`]: the registry itself, with insert-once, typed lookup and
//!   removal, and the fan-out of one event to every layer;
//! - [`event_queue`]: the ordered queue of events, and the cascade over a
//!   registry;
//! - [`cascade`]: the rule of the bounded cascade, and the state machine that
//!   carries it out.

pub mod cascade;
pub mod event_queue;
pub mod layer;
pub mod registry;
pub mod type_map;

pub use crate::cascade::Cascade;
pub use crate::cascade::CascadeState;
pub use crate::cascade::ROUND_LIMIT;
pub use crate::event_queue::EventQueue;
pub use crate::layer::AnyLayer;
pub use crate::layer::Layer;
pub use crate::layer::LayerDispatch;
pub use crate::layer::LockPoisoned;
pub use crate::registry::LayerReg;
pub use crate::type_map::TypeMap;
