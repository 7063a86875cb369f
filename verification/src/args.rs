//! What the program is started with.

use vstd::prelude::*;

verus! {

/// What the program is started with.
#[derive(Debug)]
pub struct Args {
    pub command: Commands,
}

/// What the program is asked to do.
#[derive(Debug)]
pub enum Commands {
    /// Run a server.
    Server(ServerArgs),
    /// Write the configurations of a group of peers.
    GenPeers(GenPeerArgs),
}

/// How to run a server.
#[derive(Debug)]
pub struct ServerArgs {
    /// Where the server's configuration is.
    pub config: String,
}

/// Which configurations to write.
#[derive(Debug)]
pub struct GenPeerArgs {
    /// The number of peers.
    pub num: u32,
    /// Where the configurations go.
    pub dest: String,
}

} // verus!
