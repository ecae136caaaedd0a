//! Verified core of the Tangleaf notes application: the rules that decide what an
//! operation, a sync snapshot, a settings file or a desktop configuration means.

pub mod text;
pub mod settings;
pub mod window_controls;
pub mod model;
pub mod operation;
pub mod structure;
pub mod sync;
pub mod envelope;
pub mod identity;
pub mod snapshot;
pub mod apply;
pub mod effects;
pub mod refs;
pub mod plan;
