//! Read-copy-update building blocks: a grace-period domain, deferred
//! references to detached nodes, reclamation queues and a chained hash map
//! whose removed nodes are only handed back once every earlier reader is done.

pub mod rcu;
pub mod hashmap;
