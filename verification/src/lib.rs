//! Identity-addressed, connection-multiplexing transport: the decisions and
//! wire formats of the plex layer, with machine-checked contracts.

pub mod frame;
pub mod hash;
pub mod lender;
pub mod listener;
pub mod multiplex;
pub mod pool;
pub mod receiver;
pub mod rendezvous;
pub mod sender;
pub mod unit;
