//! A small real-time chat state core: an authoritative table store with
//! validated reducers on the server side, and a subscription snapshot, local
//! replica cache and callback decisions on the client side.

pub mod identity;
pub mod tables;
pub mod reducers;
pub mod executor;
pub mod broadcast;
pub mod cache;
pub mod client;
