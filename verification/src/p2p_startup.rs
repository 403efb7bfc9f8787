//! Configuration and lifecycle of the node's networking.

use vstd::prelude::*;

verus! {

/// Where the node listens, what it announces and whom it dials first.
///
/// Addresses are in their canonical notation; `T` names the network's topics.
#[derive(Debug)]
pub struct MobileP2PConfig<T> {
    pub listen_addr: String,
    /// Addresses that are announced to peers.
    pub public_addresses: Vec<String>,
    /// Peers that are dialed first.
    pub seeds: Vec<String>,
    pub topics: T,
}

impl<T> MobileP2PConfig<T> {
    pub fn new(listen_addr: String, topics: T) -> (config: MobileP2PConfig<T>)
        ensures
            config.listen_addr == listen_addr,
            config.topics == topics,
            config.public_addresses@ == Seq::<String>::empty(),
            config.seeds@ == Seq::<String>::empty(),
    {
        MobileP2PConfig { listen_addr, public_addresses: Vec::new(), seeds: Vec::new(), topics }
    }

    /// Add a seed behind those that are there.
    pub fn with_seed(self, seed: String) -> (config: MobileP2PConfig<T>)
        ensures
            config.seeds@ == self.seeds@.push(seed),
            config.listen_addr == self.listen_addr,
            config.public_addresses == self.public_addresses,
            config.topics == self.topics,
    {
        let mut seeds = self.seeds;
        seeds.push(seed);
        MobileP2PConfig {
            listen_addr: self.listen_addr,
            public_addresses: self.public_addresses,
            seeds,
            topics: self.topics,
        }
    }

    /// Add seeds behind those that are there, in their order.
    pub fn with_seeds(self, seeds: Vec<String>) -> (config: MobileP2PConfig<T>)
        ensures
            config.seeds@ == self.seeds@ + seeds@,
            config.listen_addr == self.listen_addr,
            config.public_addresses == self.public_addresses,
            config.topics == self.topics,
    {
        let mut all = self.seeds;
        let mut more = seeds;
        all.append(&mut more);
        MobileP2PConfig {
            listen_addr: self.listen_addr,
            public_addresses: self.public_addresses,
            seeds: all,
            topics: self.topics,
        }
    }

    /// Announce another address.
    pub fn with_public_address(self, address: String) -> (config: MobileP2PConfig<T>)
        ensures
            config.public_addresses@ == self.public_addresses@.push(address),
            config.listen_addr == self.listen_addr,
            config.seeds == self.seeds,
            config.topics == self.topics,
    {
        let mut public_addresses = self.public_addresses;
        public_addresses.push(address);
        MobileP2PConfig {
            listen_addr: self.listen_addr,
            public_addresses,
            seeds: self.seeds,
            topics: self.topics,
        }
    }
}

/// The two tasks on which networking rests.
#[derive(Clone, Copy, Debug, PartialEq, Eq, Structural)]
pub enum NetworkTask {
    Reactor,
    EventActor,
}

/// How a task ended.
#[derive(Clone, Copy, Debug, PartialEq, Eq, Structural)]
pub enum TaskExit {
    /// It returned without an error, which it never should.
    Stopped,
    /// It returned an error.
    Failed,
    /// It panicked or was aborted.
    Lost,
}

/// The report of a task that ended.
pub open spec fn exit_words(task: NetworkTask, exit: TaskExit) -> Seq<char> {
    match (task, exit) {
        (NetworkTask::Reactor, TaskExit::Stopped) => "mobile P2P reactor stopped unexpectedly"@,
        (NetworkTask::Reactor, TaskExit::Failed) => "mobile P2P reactor failed"@,
        (NetworkTask::Reactor, TaskExit::Lost) => "mobile P2P reactor task failed"@,
        (NetworkTask::EventActor, TaskExit::Stopped) => "mobile P2P event actor stopped unexpectedly"@,
        (NetworkTask::EventActor, TaskExit::Failed) => "mobile P2P event actor failed"@,
        (NetworkTask::EventActor, TaskExit::Lost) => "mobile P2P event actor task failed"@,
    }
}

/// The report of a task that ended: however it ended, it is an error.
pub fn exit_report(task: NetworkTask, exit: TaskExit) -> (report: &'static str)
    ensures
        report@ == exit_words(task, exit),
{
    match (task, exit) {
        (NetworkTask::Reactor, TaskExit::Stopped) => "mobile P2P reactor stopped unexpectedly",
        (NetworkTask::Reactor, TaskExit::Failed) => "mobile P2P reactor failed",
        (NetworkTask::Reactor, TaskExit::Lost) => "mobile P2P reactor task failed",
        (NetworkTask::EventActor, TaskExit::Stopped) => "mobile P2P event actor stopped unexpectedly",
        (NetworkTask::EventActor, TaskExit::Failed) => "mobile P2P event actor failed",
        (NetworkTask::EventActor, TaskExit::Lost) => "mobile P2P event actor task failed",
    }
}

} // verus!
