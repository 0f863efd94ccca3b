//! What the operations are for, stated over what goes into them and what comes out, apart from how
//! their contracts put it.
pub mod clocks;
pub mod dialling;
pub mod discovery;
pub mod gossip;
pub mod mesh;
pub mod naming;
pub mod requests;
pub mod restart;
pub mod sequences;
pub mod subscriptions;
pub mod ticks;
pub mod topics;
pub mod values;
pub mod words;
