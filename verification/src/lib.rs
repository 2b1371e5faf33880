//! A mempool tracker core: observes a Bitcoin node's unconfirmed-transaction
//! pool, classifies each transaction (new / mined / replacement / coinbase /
//! CPFP child), and records its lifecycle in a persistent store model.

pub mod bytes;
pub mod decode;
pub mod digest;
pub mod encode;
pub mod fee;
pub mod laws;
pub mod migrations;
pub mod store;
pub mod tx;
pub mod worker;
pub mod zmq_factory;
