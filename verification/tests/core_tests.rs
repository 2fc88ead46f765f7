//! Strategy, engine and executor tests: event decisions, the bundle ladder,
//! broadcast delivery, projections and the relay fan-out.

use artemis::bindings::BlindArb;
use artemis::engine::ActionProjection;
use artemis::engine::Bus;
use artemis::engine::Engine;
use artemis::engine::ExecutorMap;
use artemis::engine::SubmitBundlesProjection;
use artemis::engine::plan_executions;
use artemis::engine::run_strategy_feed;
use artemis::client::Chain;
use artemis::collector::GenericMempoolCollector;
use artemis::collector::flatten_pending;
use artemis::executors::MAX_IN_FLIGHT;
use artemis::executors::SubmissionScheduler;
use artemis::executors::get_all_mev_share_endpoints;
use artemis::executors::get_all_relay_endpoints;
use artemis::executors::plan_flashbots_bundle;
use artemis::executors::relay_registry;
use artemis::primitives::Address;
use artemis::primitives::TxHash;
use artemis::strategy::Action;
use artemis::strategy::ArbPlan;
use artemis::strategy::Event;
use artemis::strategy::MevShareEvent;
use artemis::strategy::MevShareLog;
use artemis::strategy::MevShareUniArb;
use artemis::strategy::V2V3PoolRecord;
use artemis::strategy::generate_bundles;
use artemis::strategy::ladder_sizes;
use artemis::types::BundleRequest;
use artemis::types::BundleTx;
use artemis::types::PrivacyHint;

fn addr(last: u8) -> Address {
    let mut bytes = vec![0u8; 20];
    bytes[19] = last;
    Address::from_bytes(bytes)
}

fn hash(fill: u8) -> TxHash {
    TxHash::from_bytes(vec![fill; 32])
}

fn strategy_with_pool(v3: u8, v2: u8, weth0: bool) -> MevShareUniArb {
    let mut s = MevShareUniArb::new(addr(0xcc));
    let records = vec![V2V3PoolRecord { v3_pool: addr(v3), v2_pool: addr(v2), weth_token0: weth0 }];
    s.sync_state(&records);
    s
}

fn event_touching(pool: u8, tx: u8) -> Event {
    Event::MEVShareEvent(MevShareEvent {
        hash: hash(tx),
        logs: vec![MevShareLog { address: addr(pool) }],
    })
}

#[test]
fn process_event_plans_a_hit() {
    let s = strategy_with_pool(0x11, 0x22, true);
    let plan = s.process_event(&event_touching(0x11, 0xaa)).unwrap();
    assert_eq!(plan.v3_pool, addr(0x11));
    assert_eq!(plan.v2_pool, addr(0x22));
    assert!(plan.is_weth_token0);
    assert_eq!(plan.tx_hash, hash(0xaa));
    assert_eq!(plan.payment_percentage, 40);
    assert_eq!(plan.gas_limit, 400000);
}

#[test]
fn process_event_ignores_unknown_pools() {
    let s = strategy_with_pool(0x11, 0x22, true);
    assert!(s.process_event(&event_touching(0x99, 0xaa)).is_none());
}

#[test]
fn process_event_ignores_events_without_logs() {
    let s = strategy_with_pool(0x11, 0x22, true);
    let ev = Event::MEVShareEvent(MevShareEvent { hash: hash(0xaa), logs: Vec::new() });
    assert!(s.process_event(&ev).is_none());
    let empty = MevShareUniArb::new(addr(0xcc));
    let ev = Event::MEVShareEvent(MevShareEvent { hash: hash(0xaa), logs: Vec::new() });
    assert!(empty.process_event(&ev).is_none());
}

#[test]
fn later_records_replace_earlier_ones() {
    let mut s = MevShareUniArb::new(addr(0xcc));
    let records = vec![
        V2V3PoolRecord { v3_pool: addr(0x11), v2_pool: addr(0x22), weth_token0: false },
        V2V3PoolRecord { v3_pool: addr(0x11), v2_pool: addr(0x33), weth_token0: true },
    ];
    s.sync_state(&records);
    let info = s.lookup(&addr(0x11)).unwrap();
    assert_eq!(info.v2_pool, addr(0x33));
    assert!(info.is_weth_token0);
}

#[test]
fn ladder_has_fourteen_geometric_sizes() {
    let sizes = ladder_sizes();
    assert_eq!(sizes.len(), 14);
    assert_eq!(sizes[0], 100_000);
    assert_eq!(sizes[13], 1_000_000_000_000_000_000);
    for i in 0..13 {
        assert_eq!(sizes[i + 1], sizes[i] * 10);
    }
}

fn plan() -> ArbPlan {
    ArbPlan {
        v3_pool: addr(0x11),
        v2_pool: addr(0x22),
        is_weth_token0: true,
        tx_hash: hash(0xaa),
        payment_percentage: 40,
        gas_limit: 400000,
    }
}

#[test]
fn full_ladder_yields_fourteen_bundles() {
    let signed: Vec<Option<Vec<u8>>> = (0..14).map(|i| Some(vec![i as u8])).collect();
    let bundles = generate_bundles(&plan(), 1000, signed);
    assert_eq!(bundles.len(), 14);
    for (i, b) in bundles.iter().enumerate() {
        assert_eq!(b.inclusion.block, 1001);
        assert_eq!(b.inclusion.max_block, Some(1031));
        assert_eq!(b.body.len(), 2);
        match &b.body[0] {
            BundleTx::TxHash { hash: h } => assert_eq!(h, &hash(0xaa)),
            other => panic!("unexpected first element: {:?}", other),
        }
        match &b.body[1] {
            BundleTx::Tx { tx, can_revert } => {
                assert_eq!(tx, &vec![i as u8]);
                assert!(!can_revert);
            }
            other => panic!("unexpected second element: {:?}", other),
        }
    }
}

#[test]
fn failed_rungs_are_skipped_without_unseating_siblings() {
    let mut signed: Vec<Option<Vec<u8>>> = (0..14).map(|i| Some(vec![i as u8])).collect();
    signed[3] = None;
    signed[7] = None;
    let bundles = generate_bundles(&plan(), 1000, signed);
    assert_eq!(bundles.len(), 12);
    match &bundles[3].body[1] {
        BundleTx::Tx { tx, .. } => assert_eq!(tx, &vec![4u8]),
        other => panic!("unexpected element: {:?}", other),
    }
}

#[test]
fn bus_broadcasts_every_event_once_in_order() {
    let mut bus: Bus<Event> = Bus::new();
    let k1 = bus.subscribe();
    let k2 = bus.subscribe();
    bus.publish(event_touching(0x11, 0x01));
    bus.publish(event_touching(0x99, 0x02));
    bus.publish(event_touching(0x11, 0x03));
    let s = strategy_with_pool(0x11, 0x22, false);
    let plans1 = run_strategy_feed(&s, &mut bus, k1);
    assert_eq!(plans1.len(), 3);
    assert!(plans1[0].is_some());
    assert!(plans1[1].is_none());
    assert!(plans1[2].is_some());
    assert_eq!(plans1[0].as_ref().unwrap().tx_hash, hash(0x01));
    assert_eq!(plans1[2].as_ref().unwrap().tx_hash, hash(0x03));
    // A second subscriber observes the same three events, independently.
    let plans2 = run_strategy_feed(&s, &mut bus, k2);
    assert_eq!(plans2.len(), 3);
    // Once drained, a subscriber sees nothing more until a new publication.
    let plans3 = run_strategy_feed(&s, &mut bus, k1);
    assert_eq!(plans3.len(), 0);
}

#[test]
fn late_subscribers_observe_only_later_events() {
    let mut bus: Bus<Event> = Bus::new();
    bus.publish(event_touching(0x11, 0x01));
    let k = bus.subscribe();
    bus.publish(event_touching(0x11, 0x02));
    let s = strategy_with_pool(0x11, 0x22, false);
    let plans = run_strategy_feed(&s, &mut bus, k);
    assert_eq!(plans.len(), 1);
    assert_eq!(plans[0].as_ref().unwrap().tx_hash, hash(0x02));
}

#[test]
fn projection_is_evaluated_once_per_action() {
    let b = BundleRequest::make_simple(9, vec![BundleTx::TxHash { hash: hash(0x01) }]);
    let actions = vec![
        Action::SubmitBundles(vec![b]),
        Action::SubmitBundles(Vec::new()),
    ];
    let em = ExecutorMap::new((), SubmitBundlesProjection);
    let outcomes = plan_executions(&em, &actions);
    assert_eq!(outcomes.len(), actions.len());
    assert_eq!(outcomes[0].as_ref().unwrap().len(), 1);
    assert_eq!(outcomes[1].as_ref().unwrap().len(), 0);
}

#[test]
fn projection_forwards_the_submitted_bundles() {
    let b = BundleRequest::make_simple(9, vec![BundleTx::TxHash { hash: hash(0x01) }]);
    let p = SubmitBundlesProjection;
    let out = p.project(&Action::SubmitBundles(vec![b.clone()])).unwrap();
    assert_eq!(out, vec![b]);
}

#[test]
fn engine_registers_in_order_and_freezes() {
    let mut engine: Engine<u8, u8, u8> = Engine::new();
    engine.add_collector(1);
    engine.add_strategy(2);
    engine.add_strategy(3);
    engine.add_executor(4);
    let run = engine.run();
    assert_eq!(run.collectors, vec![1]);
    assert_eq!(run.strategies, vec![2, 3]);
    assert_eq!(run.executors, vec![4]);
}

#[test]
fn relay_registry_holds_the_ten_relays() {
    let registry = relay_registry();
    assert_eq!(registry.len(), 10);
    assert_eq!(registry[0].name, "flashbots");
    assert_eq!(registry[0].url, "https://relay.flashbots.net/");
    assert_eq!(registry[9].name, "rsync-builder");
    assert_eq!(registry[9].url, "https://rsync-builder.xyz/");
}

#[test]
fn fanout_is_deterministic() {
    let executors1 = get_all_mev_share_endpoints(&relay_registry(), Chain::Mainnet);
    let executors2 = get_all_mev_share_endpoints(&relay_registry(), Chain::Mainnet);
    assert_eq!(executors1.len(), 10);
    assert_eq!(executors1.len(), executors2.len());
    for (a, b) in executors1.iter().zip(executors2.iter()) {
        assert_eq!(a.matchmaker_client.url, b.matchmaker_client.url);
        assert_eq!(a.matchmaker_client.client_name, b.matchmaker_client.client_name);
    }
    assert_eq!(executors1[1].matchmaker_client.url, "http://builder0x69.io/");
}

#[test]
fn simulating_executors_cover_the_registry() {
    let executors = get_all_relay_endpoints(&relay_registry());
    assert_eq!(executors.len(), 10);
    assert_eq!(executors[0].relay_url, "https://relay.flashbots.net/");
    assert_eq!(executors[0].client_name, "flashbots");
}

#[test]
fn flashbots_plan_targets_the_next_block() {
    let p = plan_flashbots_bundle(vec![vec![0x01], vec![0x02]], 500);
    assert_eq!(p.target_block, 501);
    assert_eq!(p.simulation_block, 500);
    assert_eq!(p.simulation_timestamp, 0);
    assert_eq!(p.txs, vec![vec![0x01], vec![0x02]]);
}

#[test]
fn scheduler_bounds_concurrent_submissions() {
    let mut sched = SubmissionScheduler::new(8);
    let mut started = Vec::new();
    while let Some(idx) = sched.try_start() {
        started.push(idx);
    }
    assert_eq!(started, vec![0, 1, 2, 3, 4]);
    assert_eq!(started.len(), MAX_IN_FLIGHT);
    sched.complete();
    assert_eq!(sched.try_start(), Some(5));
    assert_eq!(sched.try_start(), None);
    for _ in 0..5 {
        sched.complete();
    }
    assert_eq!(sched.try_start(), Some(6));
    assert_eq!(sched.try_start(), Some(7));
    assert_eq!(sched.try_start(), None);
    sched.complete();
    sched.complete();
    assert!(sched.finished());
}

#[test]
fn flatten_preserves_group_and_item_order() {
    let groups = vec![vec![1, 2], vec![], vec![3], vec![4, 5, 6]];
    assert_eq!(flatten_pending(groups), vec![1, 2, 3, 4, 5, 6]);
    let empty: Vec<Vec<u8>> = Vec::new();
    assert_eq!(flatten_pending(empty), Vec::<u8>::new());
}

#[test]
fn mempool_collector_keeps_its_provider() {
    let provider = std::sync::Arc::new(42u32);
    let c = GenericMempoolCollector::new(provider.clone());
    assert_eq!(*c.provider, 42);
}

#[test]
fn privacy_hint_builders_and_accessors() {
    let h = PrivacyHint::default();
    assert_eq!(h.num_hints(), 0);
    assert!(!h.has_calldata());
    let h = h.with_calldata().with_logs().with_hash();
    assert!(h.has_calldata());
    assert!(h.has_logs());
    assert!(h.has_hash());
    assert!(!h.has_contract_address());
    assert!(!h.has_function_selector());
    assert!(!h.has_tx_hash());
    assert_eq!(h.num_hints(), 3);
    let h = h.with_contract_address().with_function_selector().with_tx_hash();
    assert_eq!(h.num_hints(), 6);
}

#[test]
fn blind_arb_builds_typed_calls() {
    let contract = BlindArb::new(addr(0xcc));
    let call = contract.execute_arbitrage(addr(0x01), addr(0x02), 40);
    assert_eq!(call.first_pair_address, addr(0x01));
    assert_eq!(call.second_pair_address, addr(0x02));
    assert_eq!(call.percentage_to_pay_to_coinbase, 40);
    let transfer = contract.transfer_ownership(addr(0x07));
    assert_eq!(transfer.new_owner, addr(0x07));
    let filter = contract.events();
    assert_eq!(filter.contract, addr(0xcc));
}

#[test]
fn flash_loan_user_data_is_abi_encoded() {
    let out = artemis::bindings::flash_loan_user_data(true, &addr(0x11), &addr(0x22), 5, 40);
    // One static tuple: five 32-byte words, values right-aligned.
    let mut expected = Vec::new();
    for value in [0x01u8, 0x11, 0x22, 0x05, 40] {
        expected.extend_from_slice(&[0u8; 31]);
        expected.push(value);
    }
    assert_eq!(out, expected);
}

#[test]
fn addresses_compare_by_bytes() {
    assert!(addr(0x11).same_as(&addr(0x11)));
    assert!(!addr(0x11).same_as(&addr(0x12)));
}
