//! The grace-period domain and the rules for reclaiming detached nodes.

pub mod context;
pub mod reference;
pub mod callback;
pub mod cleanup;
