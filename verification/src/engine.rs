//! The orchestration core: two broadcast buses and the component registry.
//!
//! Events and actions travel over [`Bus`] values: every publication is kept,
//! and each subscriber holds a cursor it advances one item at a time, so a
//! subscriber present from the start observes every item exactly once, in
//! publish order. The [`Engine`] collects registered collectors, strategies
//! and executors and hands them over as an immutable run set; the
//! surrounding runtime spawns one task per component and drives the buses.

use vstd::prelude::*;

use crate::strategy::Action;
use crate::strategy::ArbPlan;
use crate::strategy::ArbPlanV;
use crate::strategy::Event;
use crate::strategy::MevShareUniArb;
use crate::types::BundleRequest;
use crate::types::BundleRequestV;

verus! {

/// A broadcast bus: an append-only log of items and one cursor per
/// subscriber.
pub struct Bus<T> {
    /// Everything ever published, in publish order.
    pub items: Vec<T>,
    /// Where each subscriber joined the log.
    pub starts: Vec<usize>,
    /// The next item each subscriber will observe.
    pub cursors: Vec<usize>,
}

impl<T> Bus<T> {
    /// Cursors exist for exactly the subscribers and sit between their
    /// subscription point and the end of the log.
    pub open spec fn wf(&self) -> bool {
        &&& self.starts@.len() == self.cursors@.len()
        &&& forall|k: int|
            0 <= k < self.cursors@.len() ==> #[trigger] self.starts@[k] <= self.cursors@[k]
                <= self.items@.len()
    }

    /// The items subscriber `k` has observed so far, in order.
    pub open spec fn delivered(&self, k: int) -> Seq<T> {
        self.items@.subrange(self.starts@[k] as int, self.cursors@[k] as int)
    }

    /// An empty bus with no subscribers.
    pub fn new() -> (r: Self)
        ensures
            r.wf(),
            r.items@.len() == 0,
            r.cursors@.len() == 0,
    {
        Bus { items: Vec::new(), starts: Vec::new(), cursors: Vec::new() }
    }

    /// Registers a new subscriber, which will observe everything published
    /// from this point on.
    pub fn subscribe(&mut self) -> (k: usize)
        requires
            old(self).wf(),
        ensures
            final(self).wf(),
            k == old(self).cursors@.len(),
            final(self).items == old(self).items,
            final(self).starts@ == old(self).starts@.push(old(self).items@.len() as usize),
            final(self).cursors@ == old(self).cursors@.push(old(self).items@.len() as usize),
    {
        let k = self.cursors.len();
        let here = self.items.len();
        self.starts.push(here);
        self.cursors.push(here);
        k
    }

    /// Publishes one item: it is appended to the log and every subscriber's
    /// pending suffix grows by it, with no cursor moved.
    pub fn publish(&mut self, t: T)
        requires
            old(self).wf(),
        ensures
            final(self).wf(),
            final(self).items@ == old(self).items@.push(t),
            final(self).starts == old(self).starts,
            final(self).cursors == old(self).cursors,
    {
        self.items.push(t);
    }

    /// Takes the index of subscriber `k`'s next unobserved item, advancing
    /// its cursor; returns nothing once the subscriber has observed the
    /// whole log.
    pub fn poll(&mut self, k: usize) -> (r: Option<usize>)
        requires
            old(self).wf(),
            k < old(self).cursors@.len(),
        ensures
            final(self).wf(),
            final(self).items == old(self).items,
            final(self).starts == old(self).starts,
            match r {
                Some(idx) => {
                    &&& idx == old(self).cursors@[k as int]
                    &&& idx < old(self).items@.len()
                    &&& final(self).cursors@ == old(self).cursors@.update(
                        k as int,
                        (idx + 1) as usize,
                    )
                    &&& final(self).delivered(k as int) == old(self).delivered(k as int).push(
                        old(self).items@[idx as int],
                    )
                },
                None => {
                    &&& old(self).cursors@[k as int] == old(self).items@.len()
                    &&& final(self).cursors == old(self).cursors
                },
            },
    {
        proof {
            assert(self.starts@[k as int] <= self.cursors@[k as int] <= self.items@.len());
        }
        let cur = self.cursors[k];
        if cur < self.items.len() {
            self.cursors.set(k, cur + 1);
            proof {
                assert forall|k2: int|
                    0 <= k2 < self.cursors@.len() implies #[trigger] self.starts@[k2]
                    <= self.cursors@[k2] <= self.items@.len() by {
                    assert(old(self).starts@[k2] <= old(self).cursors@[k2] <= old(
                        self,
                    ).items@.len());
                    if k2 == k {
                    }
                }
                assert(self.delivered(k as int) =~= old(self).delivered(k as int).push(
                    old(self).items@[cur as int],
                ));
            }
            Some(cur)
        } else {
            None
        }
    }

    /// The cursor of one subscriber sits between its subscription point and
    /// the end of the log.
    pub proof fn lemma_wf_at(&self, k: int)
        requires
            self.wf(),
            0 <= k < self.cursors@.len(),
        ensures
            self.starts@[k] <= self.cursors@[k] <= self.items@.len(),
    {
    }

    /// Reads one published item.
    pub fn get(&self, idx: usize) -> (r: &T)
        requires
            idx < self.items@.len(),
        ensures
            *r == self.items@[idx as int],
    {
        &self.items[idx]
    }
}

/// Broadcast delivery law: a subscriber that joined an empty log and has
/// polled to exhaustion has observed exactly the published sequence — every
/// item once, in publish order.
pub proof fn lemma_broadcast_delivers_all<T>(bus: Bus<T>, k: int)
    requires
        bus.wf(),
        0 <= k < bus.cursors@.len(),
        bus.starts@[k] == 0,
        bus.cursors@[k] == bus.items@.len(),
    ensures
        bus.delivered(k) == bus.items@,
{
    assert(bus.delivered(k) =~= bus.items@);
}

/// What a strategy answers for one unified event.
pub open spec fn event_plan(strat: &MevShareUniArb, ev: Event) -> Option<ArbPlanV> {
    match ev {
        Event::MEVShareEvent(e) => strat.spec_plan(&e),
    }
}

/// Feeds a strategy every event it has not yet observed, in publish order,
/// and collects its decisions: the strategy is invoked exactly once per
/// event.
pub fn run_strategy_feed(strat: &MevShareUniArb, bus: &mut Bus<Event>, k: usize) -> (plans: Vec<
    Option<ArbPlan>,
>)
    requires
        old(bus).wf(),
        k < old(bus).cursors@.len(),
    ensures
        final(bus).wf(),
        final(bus).items == old(bus).items,
        final(bus).starts == old(bus).starts,
        final(bus).cursors@[k as int] == final(bus).items@.len(),
        plans@.len() == old(bus).items@.len() - old(bus).cursors@[k as int],
        forall|j: int|
            #![trigger plans@[j]]
            0 <= j < plans@.len() ==> (match plans@[j] {
                Some(p) => event_plan(
                    strat,
                    old(bus).items@[old(bus).cursors@[k as int] + j],
                ) == Some(p@),
                None => event_plan(strat, old(bus).items@[old(bus).cursors@[k as int] + j])
                    is None,
            }),
{
    let mut plans: Vec<Option<ArbPlan>> = Vec::new();
    let ghost bus0 = *bus;
    proof {
        bus.lemma_wf_at(k as int);
    }
    while bus.cursors[k] < bus.items.len()
        invariant
            bus.wf(),
            k < bus.cursors@.len(),
            bus.items == bus0.items,
            bus.starts == bus0.starts,
            bus0.cursors@[k as int] <= bus.cursors@[k as int] <= bus.items@.len(),
            plans@.len() == bus.cursors@[k as int] - bus0.cursors@[k as int],
            forall|j: int|
                #![trigger plans@[j]]
                0 <= j < plans@.len() ==> (match plans@[j] {
                    Some(p) => event_plan(strat, bus0.items@[bus0.cursors@[k as int] + j])
                        == Some(p@),
                    None => event_plan(strat, bus0.items@[bus0.cursors@[k as int] + j]) is None,
                }),
        decreases bus.items@.len() - bus.cursors@[k as int],
    {
        let ghost prev_plans = plans@;
        let ghost prev_cursors = bus.cursors@;
        match bus.poll(k) {
            Some(idx) => {
                let ev = bus.get(idx);
                let plan = strat.process_event(ev);
                plans.push(plan);
                proof {
                    assert(bus.cursors@ == prev_cursors.update(k as int, (idx + 1) as usize));
                    assert(bus.cursors@[k as int] == idx + 1);
                    assert(idx + 1 <= bus.items@.len());
                    assert(*ev == bus.items@[idx as int]);
                    assert(idx == bus0.cursors@[k as int] + prev_plans.len());
                    assert(plans@ == prev_plans.push(plan));
                    assert forall|j: int|
                        0 <= j < plans@.len() implies (match #[trigger] plans@[j] {
                        Some(p) => event_plan(strat, bus0.items@[bus0.cursors@[k as int] + j])
                            == Some(p@),
                        None => event_plan(strat, bus0.items@[bus0.cursors@[k as int] + j])
                            is None,
                    }) by {
                        if j < prev_plans.len() {
                            assert(plans@[j] == prev_plans[j]);
                        } else {
                            assert(plans@[j] == plan);
                        }
                    }
                }
            },
            None => {
                proof {
                    assert(false);
                }
            },
        }
    }
    plans
}

/// A projection deciding which slice of a unified action one executor
/// understands; returning nothing makes the executor ignore the action.
pub trait ActionProjection: Sized {
    /// The slice of the action this executor receives, if any.
    spec fn project_spec(&self, a: Action) -> Option<Seq<BundleRequestV>>;

    /// Applies the projection to one action.
    fn project(&self, a: &Action) -> (r: Option<Vec<BundleRequest>>)
        ensures
            match r {
                Some(bs) => self.project_spec(*a) == Some(
                    bs@.map_values(|b: BundleRequest| b@),
                ),
                None => self.project_spec(*a) is None,
            },
    ;
}

/// The projection of the bundle-submission executors: they understand
/// exactly the submit-bundles action.
pub struct SubmitBundlesProjection;

impl ActionProjection for SubmitBundlesProjection {
    open spec fn project_spec(&self, a: Action) -> Option<Seq<BundleRequestV>> {
        match a {
            Action::SubmitBundles(bs) => Some(bs@.map_values(|b: BundleRequest| b@)),
        }
    }

    fn project(&self, a: &Action) -> (r: Option<Vec<BundleRequest>>) {
        match a {
            Action::SubmitBundles(bs) => {
                let mut out: Vec<BundleRequest> = Vec::new();
                let n = bs.len();
                let mut i: usize = 0;
                while i < n
                    invariant
                        n == bs@.len(),
                        i <= n,
                        out@.len() == i,
                        out@.map_values(|b: BundleRequest| b@) == bs@.map_values(
                            |b: BundleRequest| b@,
                        ).take(i as int),
                    decreases n - i,
                {
                    let ghost prev = out@;
                    let c = bs[i].clone();
                    proof {
                        assert(c@ == bs@[i as int]@);
                    }
                    out.push(c);
                    proof {
                        assert(prev.len() == i);
                        assert(out@ == prev.push(c));
                        assert forall|j: int|
                            #![trigger out@[j]]
                            0 <= j < i + 1 implies out@.map_values(
                            |b: BundleRequest| b@,
                        )[j] == bs@.map_values(|b: BundleRequest| b@).take(i + 1 as int)[j] by {
                            if j < i {
                                assert(out@[j] == prev[j]);
                                assert(prev.map_values(|b: BundleRequest| b@)[j] == prev[j]@);
                            } else {
                                assert(out@[j] == c);
                            }
                        }
                        assert(out@.map_values(|b: BundleRequest| b@) =~= bs@.map_values(
                            |b: BundleRequest| b@,
                        ).take(i + 1 as int));
                    }
                    i += 1;
                }
                proof {
                    assert(bs@.map_values(|b: BundleRequest| b@).take(n as int)
                        =~= bs@.map_values(|b: BundleRequest| b@));
                }
                Some(out)
            },
        }
    }
}

/// An executor adapter: a wrapped executor and the projection that selects
/// what it receives.
pub struct ExecutorMap<W, P> {
    /// The executor the adapter feeds.
    pub wrapped: W,
    /// The projection applied to every action before forwarding.
    pub projection: P,
}

impl<W, P: ActionProjection> ExecutorMap<W, P> {
    /// Wraps an executor with its projection.
    pub fn new(wrapped: W, projection: P) -> (r: Self)
        ensures
            r.wrapped == wrapped,
            r.projection == projection,
    {
        ExecutorMap { wrapped, projection }
    }
}

/// The payloads an executor with projection `p` actually receives from a
/// sequence of actions: one entry per action whose projection is a value.
pub open spec fn spec_executed<P: ActionProjection>(p: P, actions: Seq<Action>) -> Seq<
    Seq<BundleRequestV>,
>
    decreases actions.len(),
{
    if actions.len() == 0 {
        Seq::empty()
    } else {
        (match p.project_spec(actions[0]) {
            Some(bs) => seq![bs],
            None => Seq::empty(),
        }) + spec_executed(p, actions.drop_first())
    }
}

/// One more action appends its projection, or nothing.
pub proof fn lemma_executed_push<P: ActionProjection>(p: P, actions: Seq<Action>, a: Action)
    ensures
        spec_executed(p, actions.push(a)) == spec_executed(p, actions) + (
        match p.project_spec(a) {
            Some(bs) => seq![bs],
            None => Seq::<Seq<BundleRequestV>>::empty(),
        }),
    decreases actions.len(),
{
    if actions.len() == 0 {
        assert(actions.push(a).drop_first() =~= Seq::<Action>::empty());
        assert(actions.push(a)[0] == a);
        assert(spec_executed(p, Seq::<Action>::empty()) =~= Seq::<Seq<BundleRequestV>>::empty());
        assert(spec_executed(p, actions.push(a)) =~= spec_executed(p, actions) + (
        match p.project_spec(a) {
            Some(bs) => seq![bs],
            None => Seq::<Seq<BundleRequestV>>::empty(),
        }));
    } else {
        assert(actions.push(a).drop_first() =~= actions.drop_first().push(a));
        assert(actions.push(a)[0] == actions[0]);
        lemma_executed_push(p, actions.drop_first(), a);
        assert(spec_executed(p, actions.push(a)) =~= spec_executed(p, actions) + (
        match p.project_spec(a) {
            Some(bs) => seq![bs],
            None => Seq::<Seq<BundleRequestV>>::empty(),
        }));
    }
}

/// Projection law: an action whose projection yields nothing never reaches
/// the wrapped executor — the executed payloads are exactly those of the
/// other actions.
pub proof fn lemma_ignored_action_never_executes<P: ActionProjection>(
    p: P,
    actions: Seq<Action>,
    a: Action,
)
    requires
        p.project_spec(a) is None,
    ensures
        spec_executed(p, actions.push(a)) == spec_executed(p, actions),
{
    lemma_executed_push(p, actions, a);
    assert(spec_executed(p, actions) + Seq::<Seq<BundleRequestV>>::empty() =~= spec_executed(
        p,
        actions,
    ));
}

/// Evaluates an adapter's projection once per delivered action, in order,
/// and returns each payload the wrapped executor is to perform.
pub fn plan_executions<W, P: ActionProjection>(
    em: &ExecutorMap<W, P>,
    actions: &Vec<Action>,
) -> (r: Vec<Option<Vec<BundleRequest>>>)
    ensures
        r@.len() == actions@.len(),
        forall|i: int|
            #![trigger r@[i]]
            0 <= i < r@.len() ==> (match r@[i] {
                Some(bs) => em.projection.project_spec(actions@[i]) == Some(
                    bs@.map_values(|b: BundleRequest| b@),
                ),
                None => em.projection.project_spec(actions@[i]) is None,
            }),
{
    let n = actions.len();
    let mut r: Vec<Option<Vec<BundleRequest>>> = Vec::new();
    let mut i: usize = 0;
    while i < n
        invariant
            n == actions@.len(),
            i <= n,
            r@.len() == i,
            forall|j: int|
                #![trigger r@[j]]
                0 <= j < r@.len() ==> (match r@[j] {
                    Some(bs) => em.projection.project_spec(actions@[j]) == Some(
                        bs@.map_values(|b: BundleRequest| b@),
                    ),
                    None => em.projection.project_spec(actions@[j]) is None,
                }),
        decreases n - i,
    {
        let p = em.projection.project(&actions[i]);
        r.push(p);
        i += 1;
    }
    r
}

/// The registry the engine is built from: every component registered before
/// the run starts.
pub struct Engine<C, S, X> {
    /// Event sources, spawned first.
    pub collectors: Vec<C>,
    /// Decision units, spawned second.
    pub strategies: Vec<S>,
    /// Side-effect sinks, spawned last.
    pub executors: Vec<X>,
}

/// The immutable run set an engine turns into: the same components, with no
/// way to register more once the run has started.
pub struct RunSet<C, S, X> {
    /// Event sources, in registration order.
    pub collectors: Vec<C>,
    /// Decision units, in registration order.
    pub strategies: Vec<S>,
    /// Side-effect sinks, in registration order.
    pub executors: Vec<X>,
}

impl<C, S, X> Engine<C, S, X> {
    /// An engine with nothing registered.
    pub fn new() -> (r: Self)
        ensures
            r.collectors@.len() == 0,
            r.strategies@.len() == 0,
            r.executors@.len() == 0,
    {
        Engine { collectors: Vec::new(), strategies: Vec::new(), executors: Vec::new() }
    }

    /// Registers an event source.
    pub fn add_collector(&mut self, c: C)
        ensures
            final(self).collectors@ == old(self).collectors@.push(c),
            final(self).strategies == old(self).strategies,
            final(self).executors == old(self).executors,
    {
        self.collectors.push(c);
    }

    /// Registers a decision unit.
    pub fn add_strategy(&mut self, s: S)
        ensures
            final(self).strategies@ == old(self).strategies@.push(s),
            final(self).collectors == old(self).collectors,
            final(self).executors == old(self).executors,
    {
        self.strategies.push(s);
    }

    /// Registers a side-effect sink.
    pub fn add_executor(&mut self, x: X)
        ensures
            final(self).executors@ == old(self).executors@.push(x),
            final(self).collectors == old(self).collectors,
            final(self).strategies == old(self).strategies,
    {
        self.executors.push(x);
    }

    /// Ends registration: the engine becomes an immutable run set holding
    /// the same components in the same order, one task to be spawned per
    /// component — collectors, then strategies, then executors.
    pub fn run(self) -> (r: RunSet<C, S, X>)
        ensures
            r.collectors == self.collectors,
            r.strategies == self.strategies,
            r.executors == self.executors,
    {
        RunSet {
            collectors: self.collectors,
            strategies: self.strategies,
            executors: self.executors,
        }
    }
}


} // verus!
