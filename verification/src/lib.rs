//! A virtual-tree reconciliation engine: immutable tree descriptions, live
//! trees bound to a rendering backend, and the diff that keeps the two in step.

pub mod dom;
pub mod laws;
pub mod map_diff;
pub mod props;
pub mod vnode;
pub mod vtree;
