//! Where the live raw-transaction stream comes from: the upstream host and
//! the port of its push socket. Connecting is I/O and lives with the
//! runtime; this only carries the address.

use vstd::prelude::*;

verus! {

/// The address of the upstream node's push socket for raw transactions.
#[derive(Debug, Clone)]
pub struct BitcoinZmqFactory {
    /// The upstream host name or address.
    pub bitcoind_host: String,
    /// The port of the raw-transaction push socket.
    pub bitcoind_zmq_port: u16,
}

impl BitcoinZmqFactory {
    /// Remembers where to subscribe.
    pub fn new(bitcoind_host: String, bitcoind_zmq_port: u16) -> (s: Self)
        ensures
            s.bitcoind_host@ == bitcoind_host@,
            s.bitcoind_zmq_port == bitcoind_zmq_port,
    {
        BitcoinZmqFactory { bitcoind_host, bitcoind_zmq_port }
    }
}

} // verus!
