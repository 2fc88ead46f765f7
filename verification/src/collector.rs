//! Collectors: turning outside sources into engine events.
//!
//! The mempool collector holds a provider handle and, given one snapshot of
//! the pending pool grouped by account, flattens it into a single ordered
//! list of transactions — the event stream the engine consumes. Fetching
//! the snapshot is the provider's job outside the library.

use std::sync::Arc;

use vstd::prelude::*;

verus! {

/// A collector that drains a node's pending-transaction pool.
#[derive(Debug)]
pub struct GenericMempoolCollector<M> {
    /// The node the pool is read from.
    pub provider: Arc<M>,
}

impl<M> GenericMempoolCollector<M> {
    /// Binds the collector to a node.
    pub fn new(provider: Arc<M>) -> (r: Self)
        ensures
            r.provider == provider,
    {
        GenericMempoolCollector { provider }
    }
}

/// Flattens a pending-pool snapshot, grouped by account, into one ordered
/// list: groups in snapshot order, each group's transactions in order,
/// none dropped.
pub fn flatten_pending<T>(groups: Vec<Vec<T>>) -> (r: Vec<T>)
    ensures
        r@ == groups@.map_values(|g: Vec<T>| g@).flatten(),
{
    let ghost gv = groups@.map_values(|g: Vec<T>| g@);
    let mut r: Vec<T> = Vec::new();
    let mut groups = groups;
    let n = groups.len();
    let mut i: usize = 0;
    proof {
        assert(gv.take(0) =~= Seq::<Seq<T>>::empty());
        assert(Seq::<Seq<T>>::empty().flatten() =~= Seq::<T>::empty());
    }
    while i < n
        invariant
            n == groups@.len(),
            i <= n,
            gv.len() == n,
            forall|k: int| i <= k < n ==> gv[k] == #[trigger] groups@[k]@,
            r@ == gv.take(i as int).flatten(),
        decreases n - i,
    {
        let mut g = groups.remove(i);
        let placeholder: Vec<T> = Vec::new();
        groups.insert(i, placeholder);
        let m = g.len();
        let ghost gseq = g@;
        let mut j: usize = 0;
        while j < m
            invariant
                m == gseq.len(),
                j <= m,
                g@ == gseq.skip(j as int),
                r@ == gv.take(i as int).flatten() + gseq.take(j as int),
            decreases m - j,
        {
            let t = g.remove(0);
            proof {
                assert(gseq.skip(j as int)[0] == gseq[j as int]);
                assert(gseq.skip(j as int).drop_first() =~= gseq.skip(j + 1 as int));
                assert(gseq.take(j + 1 as int) =~= gseq.take(j as int).push(gseq[j as int]));
            }
            r.push(t);
            j += 1;
        }
        proof {
            assert(gseq.take(m as int) =~= gseq);
            assert(gv.take(i + 1 as int) =~= gv.take(i as int).push(gv[i as int]));
            assert(gv.take(i as int).push(gseq).flatten() =~= gv.take(i as int).flatten()
                + gseq) by {
                gv.take(i as int).lemma_flatten_push(gseq);
            }
        }
        i += 1;
    }
    proof {
        assert(gv.take(n as int) =~= gv);
    }
    r
}

} // verus!
