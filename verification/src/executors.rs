//! The submission side: relay registries, fan-out construction, and the
//! bounded-concurrency scheduler.
//!
//! One executor is built per entry of the relay registry, so a single
//! emitted action is raced across every relay independently. Construction is
//! deterministic: the same registry always yields the same executors in the
//! same order. Within one executor, submissions of a batch run with at most
//! a fixed number in flight, tracked by [`SubmissionScheduler`]; the network
//! calls themselves happen outside the library.

use vstd::prelude::*;

use vstd::string::StringExecFns;

use crate::client::Chain;
use crate::client::Client;

verus! {

/// One relay or builder endpoint: a name and a base URL.
#[derive(Debug)]
pub struct RelayEndpoint {
    /// Short name of the relay.
    pub name: String,
    /// Base URL bundles are submitted to.
    pub url: String,
}

/// Mathematical value of a [`RelayEndpoint`].
pub ghost struct RelayEndpointV {
    /// Short name of the relay.
    pub name: Seq<char>,
    /// Base URL.
    pub url: Seq<char>,
}

impl View for RelayEndpoint {
    type V = RelayEndpointV;

    open spec fn view(&self) -> RelayEndpointV {
        RelayEndpointV { name: self.name@, url: self.url@ }
    }
}

/// The fixed registry of relays and builders raced on every action.
pub open spec fn spec_relay_registry() -> Seq<RelayEndpointV> {
    seq![
        RelayEndpointV { name: "flashbots"@, url: "https://relay.flashbots.net/"@ },
        RelayEndpointV { name: "builder0x69"@, url: "http://builder0x69.io/"@ },
        RelayEndpointV {
            name: "edennetwork"@,
            url: "https://api.edennetwork.io/v1/bundle"@,
        },
        RelayEndpointV { name: "beaverbuild"@, url: "https://rpc.beaverbuild.org/"@ },
        RelayEndpointV {
            name: "lightspeedbuilder"@,
            url: "https://rpc.lightspeedbuilder.info/"@,
        },
        RelayEndpointV { name: "eth-builder"@, url: "https://eth-builder.com/"@ },
        RelayEndpointV { name: "ultrasound"@, url: "https://relay.ultrasound.money/"@ },
        RelayEndpointV { name: "agnostic-relay"@, url: "https://agnostic-relay.net/"@ },
        RelayEndpointV { name: "relayoor-wtf"@, url: "https://relayooor.wtf/"@ },
        RelayEndpointV { name: "rsync-builder"@, url: "https://rsync-builder.xyz/"@ },
    ]
}

/// Builds the relay registry.
pub fn relay_registry() -> (r: Vec<RelayEndpoint>)
    ensures
        r@.map_values(|e: RelayEndpoint| e@) == spec_relay_registry(),
        r@.len() == 10,
{
    let mut r: Vec<RelayEndpoint> = Vec::new();
    r.push(
        RelayEndpoint {
            name: String::from_str("flashbots"),
            url: String::from_str("https://relay.flashbots.net/"),
        },
    );
    r.push(
        RelayEndpoint {
            name: String::from_str("builder0x69"),
            url: String::from_str("http://builder0x69.io/"),
        },
    );
    r.push(
        RelayEndpoint {
            name: String::from_str("edennetwork"),
            url: String::from_str("https://api.edennetwork.io/v1/bundle"),
        },
    );
    r.push(
        RelayEndpoint {
            name: String::from_str("beaverbuild"),
            url: String::from_str("https://rpc.beaverbuild.org/"),
        },
    );
    r.push(
        RelayEndpoint {
            name: String::from_str("lightspeedbuilder"),
            url: String::from_str("https://rpc.lightspeedbuilder.info/"),
        },
    );
    r.push(
        RelayEndpoint {
            name: String::from_str("eth-builder"),
            url: String::from_str("https://eth-builder.com/"),
        },
    );
    r.push(
        RelayEndpoint {
            name: String::from_str("ultrasound"),
            url: String::from_str("https://relay.ultrasound.money/"),
        },
    );
    r.push(
        RelayEndpoint {
            name: String::from_str("agnostic-relay"),
            url: String::from_str("https://agnostic-relay.net/"),
        },
    );
    r.push(
        RelayEndpoint {
            name: String::from_str("relayoor-wtf"),
            url: String::from_str("https://relayooor.wtf/"),
        },
    );
    r.push(
        RelayEndpoint {
            name: String::from_str("rsync-builder"),
            url: String::from_str("https://rsync-builder.xyz/"),
        },
    );
    assert(r@.map_values(|e: RelayEndpoint| e@) =~= spec_relay_registry());
    r
}

/// A bundle-submission executor: one signing client bound to one relay.
/// The signer identity and the HTTP transport live with the caller.
#[derive(Debug)]
pub struct MevshareExecutor {
    /// The signing client this executor submits through.
    pub matchmaker_client: Client,
}

impl MevshareExecutor {
    /// Builds the executor for one relay.
    pub fn new(chain: Chain, url: &str, relay_name: &str) -> (r: Self)
        ensures
            r.matchmaker_client@ == crate::client::spec_client(chain, url@, relay_name@),
    {
        MevshareExecutor { matchmaker_client: Client::new(chain, url, relay_name) }
    }
}

/// The executor set a registry gives rise to on one chain: one client per
/// entry, in registry order.
pub open spec fn spec_fanout(registry: Seq<RelayEndpointV>, chain: Chain) -> Seq<
    crate::client::ClientV,
> {
    registry.map_values(|e: RelayEndpointV| crate::client::spec_client(chain, e.url, e.name))
}

/// Builds one submission executor per registry entry, in registry order.
pub fn get_all_mev_share_endpoints(registry: &Vec<RelayEndpoint>, chain: Chain) -> (r: Vec<
    MevshareExecutor,
>)
    ensures
        r@.len() == registry@.len(),
        r@.map_values(|x: MevshareExecutor| x.matchmaker_client@) == spec_fanout(
            registry@.map_values(|e: RelayEndpoint| e@),
            chain,
        ),
{
    let ghost rv = registry@.map_values(|e: RelayEndpoint| e@);
    let mut r: Vec<MevshareExecutor> = Vec::new();
    let n = registry.len();
    let mut i: usize = 0;
    while i < n
        invariant
            n == registry@.len(),
            i <= n,
            rv == registry@.map_values(|e: RelayEndpoint| e@),
            rv.len() == n,
            r@.len() == i,
            r@.map_values(|x: MevshareExecutor| x.matchmaker_client@) == spec_fanout(
                rv,
                chain,
            ).take(i as int),
        decreases n - i,
    {
        let e = &registry[i];
        let ex = MevshareExecutor::new(chain, e.url.as_str(), e.name.as_str());
        r.push(ex);
        proof {
            assert(r@.map_values(|x: MevshareExecutor| x.matchmaker_client@) =~= spec_fanout(
                rv,
                chain,
            ).take(i + 1 as int));
        }
        i += 1;
    }
    proof {
        assert(spec_fanout(rv, chain).take(n as int) =~= spec_fanout(rv, chain));
    }
    r
}

/// Fan-out construction is deterministic: built twice from the same
/// registry, the executor set has the same size and the same clients in the
/// same order.
pub proof fn lemma_fanout_idempotent(
    registry: Seq<RelayEndpointV>,
    chain: Chain,
    a: Seq<crate::client::ClientV>,
    b: Seq<crate::client::ClientV>,
)
    requires
        a == spec_fanout(registry, chain),
        b == spec_fanout(registry, chain),
    ensures
        a.len() == b.len(),
        forall|i: int| 0 <= i < a.len() ==> a[i] == b[i],
{
}

/// A transaction-bundle executor for the block-building relay protocol that
/// simulates before sending; the middleware that signs and transports it
/// lives with the caller.
#[derive(Debug)]
pub struct FlashbotsExecutor {
    /// Base URL of the relay.
    pub relay_url: String,
    /// Short name of the relay.
    pub client_name: String,
}

impl FlashbotsExecutor {
    /// Builds the executor for one relay.
    pub fn new(relay_url: &str, relay_name: &str) -> (r: Self)
        ensures
            r.relay_url@ == relay_url@,
            r.client_name@ == relay_name@,
    {
        FlashbotsExecutor {
            relay_url: String::from_str(relay_url),
            client_name: String::from_str(relay_name),
        }
    }
}

/// Builds one simulating executor per registry entry, in registry order.
pub fn get_all_relay_endpoints(registry: &Vec<RelayEndpoint>) -> (r: Vec<FlashbotsExecutor>)
    ensures
        r@.len() == registry@.len(),
        forall|i: int|
            0 <= i < r@.len() ==> #[trigger] r@[i].relay_url@ == registry@[i].url@
                && r@[i].client_name@ == registry@[i].name@,
{
    let mut r: Vec<FlashbotsExecutor> = Vec::new();
    let n = registry.len();
    let mut i: usize = 0;
    while i < n
        invariant
            n == registry@.len(),
            i <= n,
            r@.len() == i,
            forall|j: int|
                0 <= j < r@.len() ==> #[trigger] r@[j].relay_url@ == registry@[j].url@
                    && r@[j].client_name@ == registry@[j].name@,
        decreases n - i,
    {
        let e = &registry[i];
        r.push(FlashbotsExecutor::new(e.url.as_str(), e.name.as_str()));
        i += 1;
    }
    r
}

/// The plan of one relay submission of signed transactions: target the next
/// block, simulate against the current one at timestamp zero.
#[derive(Debug)]
pub struct FlashbotsBundlePlan {
    /// Signed transactions of the bundle, in order.
    pub txs: Vec<Vec<u8>>,
    /// Block the bundle is offered for.
    pub target_block: u64,
    /// Block the simulation runs against.
    pub simulation_block: u64,
    /// Timestamp the simulation runs at.
    pub simulation_timestamp: u64,
}

/// Plans one relay submission: the signed transactions are offered for the
/// block after `block_number` and simulated against `block_number` itself.
pub fn plan_flashbots_bundle(signed_txs: Vec<Vec<u8>>, block_number: u64) -> (r:
    FlashbotsBundlePlan)
    requires
        block_number < u64::MAX,
    ensures
        r.txs@.map_values(|t: Vec<u8>| t@) == signed_txs@.map_values(|t: Vec<u8>| t@),
        r.target_block == block_number + 1,
        r.simulation_block == block_number,
        r.simulation_timestamp == 0,
{
    FlashbotsBundlePlan {
        txs: signed_txs,
        target_block: block_number + 1,
        simulation_block: block_number,
        simulation_timestamp: 0,
    }
}

/// Most submissions one executor keeps in flight at once.
pub const MAX_IN_FLIGHT: usize = 5;

/// Tracks one batch of relay submissions driven with bounded concurrency:
/// at most [`MAX_IN_FLIGHT`] submissions are pending at any time, every
/// item is started exactly once, and one item's failure never removes
/// another from the batch.
#[derive(Debug)]
pub struct SubmissionScheduler {
    /// How many submissions the batch holds.
    pub total: usize,
    /// The next submission to start.
    pub next: usize,
    /// How many submissions are in flight.
    pub in_flight: usize,
    /// How many submissions have completed, successfully or not.
    pub done: usize,
}

impl SubmissionScheduler {
    /// The scheduler's accounting invariant: starts never pass the batch,
    /// completions never pass starts, and the flight window stays bounded.
    pub open spec fn wf(&self) -> bool {
        &&& self.next <= self.total
        &&& self.done + self.in_flight == self.next
        &&& self.in_flight <= MAX_IN_FLIGHT
    }

    /// A scheduler for a batch of `total` submissions, none started.
    pub fn new(total: usize) -> (r: Self)
        ensures
            r.wf(),
            r.total == total,
            r.next == 0,
            r.in_flight == 0,
            r.done == 0,
    {
        SubmissionScheduler { total, next: 0, in_flight: 0, done: 0 }
    }

    /// Starts the next submission if the batch has one left and the flight
    /// window has room; says which submission to start, exactly once each.
    pub fn try_start(&mut self) -> (r: Option<usize>)
        requires
            old(self).wf(),
        ensures
            final(self).wf(),
            final(self).total == old(self).total,
            final(self).done == old(self).done,
            match r {
                Some(idx) => {
                    &&& old(self).next < old(self).total
                    &&& old(self).in_flight < MAX_IN_FLIGHT
                    &&& idx == old(self).next
                    &&& final(self).next == old(self).next + 1
                    &&& final(self).in_flight == old(self).in_flight + 1
                },
                None => {
                    &&& (old(self).next == old(self).total || old(self).in_flight
                        == MAX_IN_FLIGHT)
                    &&& *final(self) == *old(self)
                },
            },
    {
        if self.next < self.total && self.in_flight < MAX_IN_FLIGHT {
            let idx = self.next;
            self.next = self.next + 1;
            self.in_flight = self.in_flight + 1;
            Some(idx)
        } else {
            None
        }
    }

    /// Records one completed submission, successful or not: the outcome of
    /// one item never unseats another.
    pub fn complete(&mut self)
        requires
            old(self).wf(),
            old(self).in_flight > 0,
        ensures
            final(self).wf(),
            final(self).total == old(self).total,
            final(self).next == old(self).next,
            final(self).in_flight == old(self).in_flight - 1,
            final(self).done == old(self).done + 1,
    {
        self.in_flight = self.in_flight - 1;
        self.done = self.done + 1;
    }

    /// Whether every submission of the batch has completed.
    pub fn finished(&self) -> (r: bool)
        requires
            self.wf(),
        ensures
            r == (self.done == self.total),
            r ==> self.in_flight == 0 && self.next == self.total,
    {
        self.done == self.total
    }
}

} // verus!
