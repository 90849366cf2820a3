//! Signed event chains for a peer-to-peer timeline: the verified core.

use vstd::prelude::*;

pub mod app;
pub mod chain;
pub mod cid;
pub mod dag_cbor;
pub mod event;
pub mod head;
pub mod identity;
pub mod keystore;
pub mod network;
pub mod order;
pub mod projection;
pub mod store;
pub mod sync;
pub mod table;
pub mod util;

verus! {

} // verus!
