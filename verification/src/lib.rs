//! An input-binding compatibility layer for an extended-reality runtime.
//!
//! The crate models the layer's core: a registry of native handles and their
//! typed wrappers, and a "god action" engine that synthesizes one virtual
//! action per input location of every known interaction profile, so that
//! application bindings can be absorbed whatever hardware the runtime reports.
//! Calls into the underlying runtime are made by the surrounding process; this
//! crate holds the data model and every decision around those calls.

pub mod errors;
pub mod god_actions;
pub mod path_map;
pub mod registry;
pub mod text;
pub mod wrappers;
pub mod xrapplication_info;
pub mod interaction_profiles;
pub mod laws;
