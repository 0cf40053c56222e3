//! A chained hash map whose removed nodes leave as deferred references.

pub mod container;
pub mod key;
pub mod history;
pub mod reference;
