//! Deferred click-action dispatch: attach an ordered queue of behaviors to an
//! interactive object, and run that queue exactly once per press, with each
//! behavior initialized on its first run and safe against re-entrant mutation.
//!
//! The host (an ECS or UI layer) owns the world and the callables; this crate
//! owns the decisions: which objects are collected, in what order slots run,
//! when a slot is initialized, and what is written back after a pass.
#![allow(unused_imports)]
use vstd::prelude::*;

pub mod onclick;
pub mod dispatch;

verus! {

/// Marker for disabled interactive elements: an object carrying it is
/// excluded from click dispatch entirely, whatever its interaction state.
pub struct UiDisabled;

} // verus!
