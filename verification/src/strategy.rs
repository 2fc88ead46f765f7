//! The pool-pair backrun strategy.
//!
//! The strategy holds a read-only table mapping watched pool addresses to
//! their paired pool and orientation. For every order-flow disclosure it
//! decides whether the touched pool is of interest; if so it plans a ladder
//! of candidate backruns, one per input size. Node access, transaction
//! filling and signing happen outside the library: the planner hands out
//! plain call descriptions and takes back the signed bytes per rung, so a
//! failed rung is skipped without touching its siblings.

use vstd::prelude::*;

use crate::bindings::BlindArb;
use crate::primitives::Address;
use crate::primitives::TxHash;
use crate::types::BundleRequest;
use crate::types::BundleRequestV;
use crate::types::BundleTx;
use crate::types::BundleTxV;
use crate::types::ProtocolVersion;
use crate::types::spec_default_privacy;
use crate::types::spec_default_validity;

verus! {

/// A partially redacted log entry of a disclosed transaction.
#[derive(Clone, Debug)]
pub struct MevShareLog {
    /// The contract the log was emitted by.
    pub address: Address,
}

/// An order-flow disclosure: a pending transaction's hash and its
/// partially redacted logs.
#[derive(Clone, Debug)]
pub struct MevShareEvent {
    /// Hash of the disclosed transaction.
    pub hash: TxHash,
    /// Redacted logs of the disclosed transaction.
    pub logs: Vec<MevShareLog>,
}

/// The engine's unified event type.
#[derive(Clone, Debug)]
pub enum Event {
    /// An order-flow disclosure arrived.
    MEVShareEvent(MevShareEvent),
}

/// The engine's unified action type.
#[derive(Clone, Debug)]
pub enum Action {
    /// Race these bundles across the registered relays.
    SubmitBundles(Vec<BundleRequest>),
}

/// What the strategy knows about the pool paired with a watched pool.
#[derive(Clone, Debug)]
pub struct V2PoolInfo {
    /// Address of the paired pool.
    pub v2_pool: Address,
    /// Whether the base asset is the paired pool's first token.
    pub is_weth_token0: bool,
}

/// Mathematical value of a [`V2PoolInfo`].
pub ghost struct V2PoolInfoV {
    /// Address bytes of the paired pool.
    pub v2_pool: Seq<u8>,
    /// Whether the base asset is the paired pool's first token.
    pub is_weth_token0: bool,
}

impl View for V2PoolInfo {
    type V = V2PoolInfoV;

    open spec fn view(&self) -> V2PoolInfoV {
        V2PoolInfoV { v2_pool: self.v2_pool@, is_weth_token0: self.is_weth_token0 }
    }
}

/// One row of the static pool reference data.
#[derive(Clone, Debug)]
pub struct V2V3PoolRecord {
    /// The watched pool.
    pub v3_pool: Address,
    /// The pool it is paired with.
    pub v2_pool: Address,
    /// Whether the base asset is the paired pool's first token.
    pub weth_token0: bool,
}

/// Looks an address up among table entries; the first match wins.
pub open spec fn spec_find_pool(
    entries: Seq<(Address, V2PoolInfo)>,
    addr: Seq<u8>,
) -> Option<V2PoolInfoV>
    decreases entries.len(),
{
    if entries.len() == 0 {
        None
    } else if entries[0].0@ == addr {
        Some(entries[0].1@)
    } else {
        spec_find_pool(entries.drop_first(), addr)
    }
}

/// The pool a record list maps an address to: the last record wins, as
/// repeated inserts into a map would leave it.
pub open spec fn spec_record_lookup(
    records: Seq<V2V3PoolRecord>,
    addr: Seq<u8>,
) -> Option<V2PoolInfoV>
    decreases records.len(),
{
    if records.len() == 0 {
        None
    } else if records.last().v3_pool@ == addr {
        Some(
            V2PoolInfoV {
                v2_pool: records.last().v2_pool@,
                is_weth_token0: records.last().weth_token0,
            },
        )
    } else {
        spec_record_lookup(records.drop_last(), addr)
    }
}

/// One planned backrun opportunity: everything the ladder builder and the
/// outside collaborators need to assemble the candidate transactions.
#[derive(Clone, Debug)]
pub struct ArbPlan {
    /// The watched pool the triggering transaction touched.
    pub v3_pool: Address,
    /// The paired pool to arbitrage against.
    pub v2_pool: Address,
    /// Whether the base asset is the paired pool's first token; decides
    /// which of the two call shapes is built.
    pub is_weth_token0: bool,
    /// Hash of the transaction being backrun.
    pub tx_hash: TxHash,
    /// Share of the profit paid to the block producer, in percent.
    pub payment_percentage: u128,
    /// Gas limit set on every candidate transaction.
    pub gas_limit: u64,
}

/// Mathematical value of an [`ArbPlan`].
pub ghost struct ArbPlanV {
    /// The watched pool.
    pub v3_pool: Seq<u8>,
    /// The paired pool.
    pub v2_pool: Seq<u8>,
    /// Orientation of the paired pool.
    pub is_weth_token0: bool,
    /// Hash of the transaction being backrun.
    pub tx_hash: Seq<u8>,
    /// Share of the profit paid to the block producer.
    pub payment_percentage: u128,
    /// Gas limit per candidate transaction.
    pub gas_limit: u64,
}

impl View for ArbPlan {
    type V = ArbPlanV;

    open spec fn view(&self) -> ArbPlanV {
        ArbPlanV {
            v3_pool: self.v3_pool@,
            v2_pool: self.v2_pool@,
            is_weth_token0: self.is_weth_token0,
            tx_hash: self.tx_hash@,
            payment_percentage: self.payment_percentage,
            gas_limit: self.gas_limit,
        }
    }
}

/// Share of the profit paid to the block producer, in percent.
pub const PAYMENT_PERCENTAGE: u128 = 40;

/// Gas limit set on every candidate transaction.
pub const ARB_GAS_LIMIT: u64 = 400000;

/// The candidate input sizes tried for every opportunity: a geometric
/// ladder from `10^5` to `10^18` base units.
pub open spec fn spec_ladder_sizes() -> Seq<u128> {
    seq![
        100000u128,
        1000000,
        10000000,
        100000000,
        1000000000,
        10000000000,
        100000000000,
        1000000000000,
        10000000000000,
        100000000000000,
        1000000000000000,
        10000000000000000,
        100000000000000000,
        1000000000000000000,
    ]
}

/// Builds the ladder of candidate input sizes.
pub fn ladder_sizes() -> (r: Vec<u128>)
    ensures
        r@ == spec_ladder_sizes(),
        r@.len() == 14,
{
    let r: Vec<u128> = vec![
        100000u128,
        1000000,
        10000000,
        100000000,
        1000000000,
        10000000000,
        100000000000,
        1000000000000,
        10000000000000,
        100000000000000,
        1000000000000000,
        10000000000000000,
        100000000000000000,
        1000000000000000000,
    ];
    assert(r@ =~= spec_ladder_sizes());
    r
}

/// The strategy: a pool reference table, read-only after start, and a
/// handle on the arbitrage contract.
#[derive(Debug)]
pub struct MevShareUniArb {
    /// Maps a watched pool address to its paired pool; read-only once the
    /// strategy has started.
    pub pool_map: Vec<(Address, V2PoolInfo)>,
    /// The deployed arbitrage contract.
    pub arb_contract: BlindArb,
}

impl MevShareUniArb {
    /// What the table maps an address to.
    pub open spec fn spec_lookup(&self, addr: Seq<u8>) -> Option<V2PoolInfoV> {
        spec_find_pool(self.pool_map@, addr)
    }

    /// Creates a strategy with an empty pool table, bound to the arbitrage
    /// contract at the given address.
    pub fn new(arb_contract_address: Address) -> (r: Self)
        ensures
            forall|addr: Seq<u8>| r.spec_lookup(addr) is None,
            r.arb_contract.address@ == arb_contract_address@,
    {
        let r = MevShareUniArb {
            pool_map: Vec::new(),
            arb_contract: BlindArb::new(arb_contract_address),
        };
        r
    }

    /// Loads the pool reference table from parsed records. A later record
    /// for the same watched pool replaces an earlier one, and records do
    /// not disturb unrelated entries.
    pub fn sync_state(&mut self, records: &Vec<V2V3PoolRecord>)
        ensures
            forall|addr: Seq<u8>| #[trigger] final(self).spec_lookup(addr) == (
            match spec_record_lookup(records@, addr) {
                Some(info) => Some(info),
                None => old(self).spec_lookup(addr),
            }),
            final(self).arb_contract == old(self).arb_contract,
    {
        let n = records.len();
        let mut i: usize = 0;
        while i < n
            invariant
                n == records@.len(),
                i <= n,
                self.arb_contract == old(self).arb_contract,
                forall|addr: Seq<u8>| #[trigger] self.spec_lookup(addr) == (
                match spec_record_lookup(records@.take(i as int), addr) {
                    Some(info) => Some(info),
                    None => old(self).spec_lookup(addr),
                }),
            decreases n - i,
        {
            let rec = &records[i];
            let entry = (
                rec.v3_pool.clone(),
                V2PoolInfo { v2_pool: rec.v2_pool.clone(), is_weth_token0: rec.weth_token0 },
            );
            let ghost pre = *self;
            let ghost before = self.pool_map@;
            self.pool_map.insert(0, entry);
            proof {
                assert(self.pool_map@.drop_first() =~= before);
                assert(records@.take(i + 1 as int).drop_last() =~= records@.take(i as int));
                assert(records@.take(i + 1 as int).last() == records@[i as int]);
                assert forall|addr: Seq<u8>| #[trigger] self.spec_lookup(addr) == (
                match spec_record_lookup(records@.take(i + 1 as int), addr) {
                    Some(info) => Some(info),
                    None => old(self).spec_lookup(addr),
                }) by {
                    assert(self.pool_map@[0] == entry);
                    assert(entry.0@ == records@[i as int].v3_pool@);
                    assert(entry.1@ == V2PoolInfoV {
                        v2_pool: records@[i as int].v2_pool@,
                        is_weth_token0: records@[i as int].weth_token0,
                    });
                    if entry.0@ == addr {
                        assert(self.spec_lookup(addr) == Some(entry.1@));
                        assert(spec_record_lookup(records@.take(i + 1 as int), addr) == Some(
                            entry.1@,
                        ));
                    } else {
                        assert(pre.spec_lookup(addr) == (
                        match spec_record_lookup(records@.take(i as int), addr) {
                            Some(info) => Some(info),
                            None => old(self).spec_lookup(addr),
                        }));
                        assert(spec_find_pool(self.pool_map@, addr) == spec_find_pool(
                            before,
                            addr,
                        ));
                        assert(spec_record_lookup(records@.take(i + 1 as int), addr)
                            == spec_record_lookup(records@.take(i as int), addr));
                    }
                }
            }
            i += 1;
        }
        proof {
            assert(records@.take(n as int) =~= records@);
        }
    }

    /// The plan an event gives rise to: nothing when the disclosure has no
    /// logs or touches no watched pool; otherwise a full backrun plan
    /// against the paired pool.
    pub open spec fn spec_plan(&self, ev: &MevShareEvent) -> Option<ArbPlanV> {
        if ev.logs@.len() == 0 {
            None
        } else {
            match self.spec_lookup(ev.logs@[0].address@) {
                Some(info) => Some(
                    ArbPlanV {
                        v3_pool: ev.logs@[0].address@,
                        v2_pool: info.v2_pool,
                        is_weth_token0: info.is_weth_token0,
                        tx_hash: ev.hash@,
                        payment_percentage: PAYMENT_PERCENTAGE as u128,
                        gas_limit: ARB_GAS_LIMIT,
                    },
                ),
                None => None,
            }
        }
    }

    /// Decides whether an event is a backrun opportunity.
    ///
    /// An event with no logs yields no plan, whatever the table holds; so
    /// does an event whose first log was emitted by a pool absent from the
    /// table. A hit yields the plan for the paired pool, oriented by the
    /// table's record.
    pub fn process_event(&self, event: &Event) -> (r: Option<ArbPlan>)
        ensures
            match event {
                Event::MEVShareEvent(ev) => {
                    &&& (match r {
                        Some(p) => self.spec_plan(ev) == Some(p@),
                        None => self.spec_plan(ev) is None,
                    })
                    &&& ev.logs@.len() == 0 ==> r is None
                    &&& (ev.logs@.len() > 0 && self.spec_lookup(ev.logs@[0].address@) is None)
                        ==> r is None
                },
            },
    {
        match event {
            Event::MEVShareEvent(ev) => {
                if ev.logs.len() == 0 {
                    return None;
                }
                let address = &ev.logs[0].address;
                match self.lookup(address) {
                    Some(info) => Some(
                        ArbPlan {
                            v3_pool: address.clone(),
                            v2_pool: info.v2_pool,
                            is_weth_token0: info.is_weth_token0,
                            tx_hash: ev.hash.clone(),
                            payment_percentage: PAYMENT_PERCENTAGE,
                            gas_limit: ARB_GAS_LIMIT,
                        },
                    ),
                    None => None,
                }
            },
        }
    }

    /// Looks a pool address up in the reference table.
    pub fn lookup(&self, addr: &Address) -> (r: Option<V2PoolInfo>)
        ensures
            match r {
                Some(info) => self.spec_lookup(addr@) == Some(info@),
                None => self.spec_lookup(addr@) is None,
            },
    {
        let n = self.pool_map.len();
        let mut i: usize = 0;
        proof {
            assert(self.pool_map@.skip(0) =~= self.pool_map@);
        }
        while i < n
            invariant
                n == self.pool_map@.len(),
                i <= n,
                spec_find_pool(self.pool_map@, addr@) == spec_find_pool(
                    self.pool_map@.skip(i as int),
                    addr@,
                ),
            decreases n - i,
        {
            proof {
                assert(self.pool_map@.skip(i as int)[0] == self.pool_map@[i as int]);
                assert(self.pool_map@.skip(i as int).drop_first() =~= self.pool_map@.skip(
                    i + 1 as int,
                ));
            }
            if self.pool_map[i].0.same_as(addr) {
                let info = &self.pool_map[i].1;
                return Some(
                    V2PoolInfo {
                        v2_pool: info.v2_pool.clone(),
                        is_weth_token0: info.is_weth_token0,
                    },
                );
            }
            i += 1;
        }
        proof {
            assert(self.pool_map@.skip(n as int) =~= Seq::<(Address, V2PoolInfo)>::empty());
        }
        None
    }
}

/// The bundle one successful rung contributes: the backrun target referenced
/// by hash, then the signed arbitrage transaction, valid from the next
/// block for thirty more.
pub open spec fn spec_bundle_for(tx_hash: Seq<u8>, block_number: u64, bytes: Seq<u8>) -> BundleRequestV {
    BundleRequestV {
        version: ProtocolVersion::Beta1,
        block: (block_number + 1) as u64,
        max_block: Some((block_number + 31) as u64),
        body: seq![
            BundleTxV::TxHash { hash: tx_hash },
            BundleTxV::Tx { tx: bytes, can_revert: false },
        ],
        validity: Some(spec_default_validity()),
        privacy: Some(spec_default_privacy()),
    }
}

/// The ladder of bundles that a list of per-rung signing outcomes yields:
/// one bundle per signed rung, failed rungs skipped.
pub open spec fn spec_generate(
    tx_hash: Seq<u8>,
    block_number: u64,
    signed: Seq<Option<Seq<u8>>>,
) -> Seq<BundleRequestV>
    decreases signed.len(),
{
    if signed.len() == 0 {
        Seq::empty()
    } else {
        (match signed[0] {
            Some(bytes) => seq![spec_bundle_for(tx_hash, block_number, bytes)],
            None => Seq::empty(),
        }) + spec_generate(tx_hash, block_number, signed.drop_first())
    }
}

/// Appending one more outcome appends its bundle, or nothing.
pub proof fn lemma_generate_push(
    tx_hash: Seq<u8>,
    block_number: u64,
    signed: Seq<Option<Seq<u8>>>,
    o: Option<Seq<u8>>,
)
    ensures
        spec_generate(tx_hash, block_number, signed.push(o)) == spec_generate(
            tx_hash,
            block_number,
            signed,
        ) + (match o {
            Some(bytes) => seq![spec_bundle_for(tx_hash, block_number, bytes)],
            None => Seq::<BundleRequestV>::empty(),
        }),
    decreases signed.len(),
{
    if signed.len() == 0 {
        assert(signed.push(o).drop_first() =~= Seq::<Option<Seq<u8>>>::empty());
        assert(signed.push(o)[0] == o);
        assert(spec_generate(tx_hash, block_number, Seq::<Option<Seq<u8>>>::empty()) =~= Seq::<
            BundleRequestV,
        >::empty());
        assert(spec_generate(tx_hash, block_number, signed.push(o)) =~= spec_generate(
            tx_hash,
            block_number,
            signed,
        ) + (match o {
            Some(bytes) => seq![spec_bundle_for(tx_hash, block_number, bytes)],
            None => Seq::<BundleRequestV>::empty(),
        }));
    } else {
        assert(signed.push(o).drop_first() =~= signed.drop_first().push(o));
        assert(signed.push(o)[0] == signed[0]);
        lemma_generate_push(tx_hash, block_number, signed.drop_first(), o);
        assert(spec_generate(tx_hash, block_number, signed.push(o)) =~= spec_generate(
            tx_hash,
            block_number,
            signed,
        ) + (match o {
            Some(bytes) => seq![spec_bundle_for(tx_hash, block_number, bytes)],
            None => Seq::<BundleRequestV>::empty(),
        }));
    }
}

/// Builds the bundle for one successful rung.
pub fn make_rung_bundle(plan: &ArbPlan, block_number: u64, bytes: Vec<u8>) -> (r: BundleRequest)
    requires
        block_number <= u64::MAX - 31,
    ensures
        r@ == spec_bundle_for(plan.tx_hash@, block_number, bytes@),
{
    let txs: Vec<BundleTx> = vec![
        BundleTx::TxHash { hash: plan.tx_hash.clone() },
        BundleTx::Tx { tx: bytes, can_revert: false },
    ];
    let ghost txsv = txs@;
    let r = BundleRequest::make_simple(block_number + 1, txs);
    proof {
        assert(txsv.map_values(|t: BundleTx| t@) =~= spec_bundle_for(
            plan.tx_hash@,
            block_number,
            txsv[1]->Tx_tx@,
        ).body);
    }
    r
}

/// Packages the signing outcomes of a planned ladder into bundles: one
/// bundle per successfully signed rung, in ladder order, each valid from
/// the block after `block_number` for thirty more blocks. A failed rung is
/// skipped without affecting its siblings.
pub fn generate_bundles(
    plan: &ArbPlan,
    block_number: u64,
    signed: Vec<Option<Vec<u8>>>,
) -> (r: Vec<BundleRequest>)
    requires
        block_number <= u64::MAX - 31,
    ensures
        r@.map_values(|b: BundleRequest| b@) == spec_generate(
            plan.tx_hash@,
            block_number,
            signed@.map_values(|o: Option<Vec<u8>>| match o {
                Some(bytes) => Some(bytes@),
                None => None,
            }),
        ),
{
    let ghost sv = signed@.map_values(|o: Option<Vec<u8>>| match o {
        Some(bytes) => Some(bytes@),
        None => None::<Seq<u8>>,
    });
    let mut r: Vec<BundleRequest> = Vec::new();
    let n = signed.len();
    let mut signed = signed;
    let mut i: usize = 0;
    proof {
        assert(spec_generate(plan.tx_hash@, block_number, sv.take(0)) =~= Seq::<
            BundleRequestV,
        >::empty());
        assert(r@.map_values(|b: BundleRequest| b@) =~= Seq::<BundleRequestV>::empty());
    }
    while i < n
        invariant
            n == signed@.len(),
            i <= n,
            block_number <= u64::MAX - 31,
            sv.len() == n,
            forall|k: int| i <= k < n ==> sv[k] == (match signed@[k] {
                Some(bytes) => Some(bytes@),
                None => None::<Seq<u8>>,
            }),
            r@.map_values(|b: BundleRequest| b@) == spec_generate(
                plan.tx_hash@,
                block_number,
                sv.take(i as int),
            ),
        decreases n - i,
    {
        let ghost rv_before = r@.map_values(|b: BundleRequest| b@);
        let rung = signed.remove(i);
        let dummy: Option<Vec<u8>> = None;
        signed.insert(i, dummy);
        match rung {
            Some(bytes) => {
                let b = make_rung_bundle(plan, block_number, bytes);
                r.push(b);
                proof {
                    assert(r@.map_values(|b: BundleRequest| b@) =~= rv_before.push(r@.last()@));
                }
            },
            None => {},
        }
        proof {
            assert(sv.take(i + 1 as int) =~= sv.take(i as int).push(sv[i as int]));
            lemma_generate_push(plan.tx_hash@, block_number, sv.take(i as int), sv[i as int]);
            assert(r@.map_values(|b: BundleRequest| b@) =~= spec_generate(
                plan.tx_hash@,
                block_number,
                sv.take(i + 1 as int),
            ));
        }
        i += 1;
    }
    proof {
        assert(sv.take(n as int) =~= sv);
    }
    r
}

/// How many rungs of a ladder were signed.
pub open spec fn count_signed(signed: Seq<Option<Seq<u8>>>) -> int
    decreases signed.len(),
{
    if signed.len() == 0 {
        0
    } else {
        (if signed[0] is Some {
            1int
        } else {
            0
        }) + count_signed(signed.drop_first())
    }
}

/// The ladder yields exactly one bundle per signed rung, in order, and
/// every bundle targets the window from the next block through the
/// thirty-first after it. With every rung of the full ladder signed, that
/// is exactly fourteen bundles.
pub proof fn lemma_generate_bundle_windows(
    tx_hash: Seq<u8>,
    block_number: u64,
    signed: Seq<Option<Seq<u8>>>,
)
    requires
        block_number <= u64::MAX - 31,
    ensures
        spec_generate(tx_hash, block_number, signed).len() == count_signed(signed),
        forall|j: int|
            0 <= j < spec_generate(tx_hash, block_number, signed).len() ==> {
                &&& (#[trigger] spec_generate(tx_hash, block_number, signed)[j]).block
                    == block_number + 1
                &&& spec_generate(tx_hash, block_number, signed)[j].max_block == Some(
                    (block_number + 31) as u64,
                )
            },
        (signed.len() == 14 && (forall|k: int| 0 <= k < signed.len() ==> signed[k] is Some))
            ==> spec_generate(tx_hash, block_number, signed).len() == 14,
    decreases signed.len(),
{
    if signed.len() == 0 {
    } else {
        lemma_generate_bundle_windows(tx_hash, block_number, signed.drop_first());
        assert(forall|k: int|
            0 <= k < signed.drop_first().len() ==> signed.drop_first()[k] == signed[k + 1]);
        if (forall|k: int| 0 <= k < signed.len() ==> signed[k] is Some) {
            assert(count_signed(signed) == signed.len()) by {
                lemma_count_signed_all(signed);
            }
        }
    }
}

/// A ladder whose rungs all signed has as many bundles as rungs.
proof fn lemma_count_signed_all(signed: Seq<Option<Seq<u8>>>)
    requires
        forall|k: int| 0 <= k < signed.len() ==> signed[k] is Some,
    ensures
        count_signed(signed) == signed.len(),
    decreases signed.len(),
{
    if signed.len() > 0 {
        assert(forall|k: int|
            0 <= k < signed.drop_first().len() ==> signed.drop_first()[k] == signed[k + 1]);
        lemma_count_signed_all(signed.drop_first());
    }
}

} // verus!
