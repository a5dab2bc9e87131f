//! The id-correlation table of the RPC broker.
//!
//! Every outbound call allocates a fresh id from a counter that starts at 1
//! for each child, and registers the id as pending until the matching
//! response arrives, the call times out, or the child dies. The table here
//! is the verified core of that bookkeeping; the channels that actually
//! carry the responses live with the caller.

use vstd::prelude::*;

verus! {

/// How long the caller of an outbound RPC waits for the matching response
/// before it times the call out.
pub const RPC_TIMEOUT_MS: u64 = 10000;

/// The outbound-call bookkeeping of the broker: the next id to hand out and
/// the ids still awaiting a response.
pub struct RpcBroker {
    pub next_id: u64,
    pub pending: Vec<u64>,
}

impl RpcBroker {
    /// Well-formed: ids start at 1, every pending id was handed out before
    /// the counter reached its current value, and no id is pending twice.
    pub open spec fn wf(&self) -> bool {
        &&& self.next_id >= 1
        &&& forall|i: int|
            0 <= i < self.pending@.len() ==> 1 <= #[trigger] self.pending@[i] < self.next_id
        &&& forall|i: int, j: int|
            0 <= i < j < self.pending@.len() ==> self.pending@[i] != self.pending@[j]
    }

    /// A fresh broker: ids start at 1, nothing pending.
    pub fn new() -> (r: Self)
        ensures
            r.wf(),
            r.next_id == 1,
            r.pending@ =~= Seq::<u64>::empty(),
    {
        RpcBroker { next_id: 1, pending: Vec::new() }
    }

    /// Forget everything and start over for a new child: ids restart at 1.
    pub fn reset(&mut self)
        ensures
            final (self).wf(),
            final (self).next_id == 1,
            final (self).pending@ =~= Seq::<u64>::empty(),
    {
        self.next_id = 1;
        self.pending.clear();
    }

    /// The relation `begin_call` establishes between the broker before and
    /// after, and the id it returns.
    pub open spec fn begin_call_rel(pre: RpcBroker, post: RpcBroker, id: u64) -> bool {
        &&& id == pre.next_id
        &&& post.next_id == id + 1
        &&& post.pending@ == pre.pending@.push(id)
    }

    /// Allocates a fresh id and registers it as pending. The id was never
    /// pending before and every later allocation returns a larger id.
    pub fn begin_call(&mut self) -> (id: u64)
        requires
            old(self).wf(),
            old(self).next_id < u64::MAX,
        ensures
            final (self).wf(),
            Self::begin_call_rel(*old(self), *final (self), id),
            !old(self).pending@.contains(id),
            final (self).pending@.len() == old(self).pending@.len() + 1,
    {
        let id = self.next_id;
        self.next_id = self.next_id + 1;
        proof {
            if self.pending@.contains(id) {
                let i = choose|i: int| 0 <= i < self.pending@.len() && self.pending@[i] == id;
                assert(self.pending@[i] < id);
            }
        }
        self.pending.push(id);
        id
    }

    /// The relation `resolve` establishes when it removes a pending id.
    pub open spec fn resolve_rel(pre: RpcBroker, post: RpcBroker, id: u64, found: bool) -> bool {
        &&& post.next_id == pre.next_id
        &&& found == pre.pending@.contains(id)
        &&& (found ==> post.pending@.len() == pre.pending@.len() - 1 && !post.pending@.contains(id)
            && forall|x: u64|
            x != id ==> (post.pending@.contains(x) == pre.pending@.contains(x)))
        &&& (!found ==> post.pending@ == pre.pending@)
    }

    /// Removes `id` from the pending table: the terminal fate of a call,
    /// whether it was resolved by a response, timed out, or was cancelled.
    /// Returns whether the id was pending.
    pub fn resolve(&mut self, id: u64) -> (found: bool)
        requires
            old(self).wf(),
        ensures
            final (self).wf(),
            Self::resolve_rel(*old(self), *final (self), id, found),
    {
        let ghost pre = self.pending@;
        let mut i: usize = 0;
        while i < self.pending.len()
            invariant
                old(self).wf(),
                pre == old(self).pending@,
                i <= self.pending@.len(),
                self.pending@ == pre,
                self.next_id == old(self).next_id,
                forall|j: int| 0 <= j < i ==> pre[j] != id,
            decreases self.pending@.len() - i,
        {
            if self.pending[i] == id {
                proof {
                    assert(pre[i as int] == id);
                }
                self.pending.remove(i);
                proof {
                    pre.remove_ensures(i as int);
                    assert(self.pending@ == pre.remove(i as int));
                    assert(pre.contains(id));
                    assert forall|k: int|
                        0 <= k < self.pending@.len() implies self.pending@[k] != id by {
                        if k < i {
                            assert(pre.remove(i as int)[k] == pre[k]);
                            assert(pre[k] != pre[i as int]);
                        } else {
                            assert(pre.remove(i as int)[k] == pre[k + 1]);
                            assert(pre[k + 1] != pre[i as int]);
                        }
                    }
                    assert(!self.pending@.contains(id));
                    assert forall|x: u64| x != id implies (self.pending@.contains(x)
                        == pre.contains(x)) by {
                        lemma_remove_contains(pre, i as int, x);
                    }
                    assert forall|a: int, b: int|
                        0 <= a < b < self.pending@.len() implies self.pending@[a]
                        != self.pending@[b] by {
                        if a < i {
                            assert(pre.remove(i as int)[a] == pre[a]);
                        } else {
                            assert(pre.remove(i as int)[a] == pre[a + 1]);
                        }
                        if b < i {
                            assert(pre.remove(i as int)[b] == pre[b]);
                        } else {
                            assert(pre.remove(i as int)[b] == pre[b + 1]);
                        }
                    }
                    assert forall|k: int|
                        0 <= k < self.pending@.len() implies 1 <= #[trigger] self.pending@[k]
                        < self.next_id by {
                        if k < i {
                            assert(pre.remove(i as int)[k] == pre[k]);
                        } else {
                            assert(pre.remove(i as int)[k] == pre[k + 1]);
                        }
                    }
                }
                return true;
            }
            i = i + 1;
        }
        proof {
            if pre.contains(id) {
                let k = choose|k: int| 0 <= k < pre.len() && pre[k] == id;
                assert(pre[k] != id);
            }
            assert(!pre.contains(id));
        }
        false
    }

    /// Empties the pending table and hands back every id that was still in
    /// flight, so the caller can fail each waiter when the child dies.
    pub fn drain(&mut self) -> (ids: Vec<u64>)
        requires
            old(self).wf(),
        ensures
            final (self).wf(),
            final (self).next_id == old(self).next_id,
            final (self).pending@ =~= Seq::<u64>::empty(),
            ids@ == old(self).pending@,
    {
        let mut ids: Vec<u64> = Vec::new();
        let mut i: usize = 0;
        while i < self.pending.len()
            invariant
                i <= self.pending@.len(),
                self.pending@ == old(self).pending@,
                self.next_id == old(self).next_id,
                ids@ =~= self.pending@.subrange(0, i as int),
            decreases self.pending@.len() - i,
        {
            ids.push(self.pending[i]);
            i = i + 1;
            proof {
                assert(ids@ =~= self.pending@.subrange(0, i as int));
            }
        }
        proof {
            assert(ids@ =~= self.pending@);
        }
        self.pending.clear();
        ids
    }

    /// How many calls are in flight.
    pub fn pending_len(&self) -> (r: usize)
        ensures
            r == self.pending@.len(),
    {
        self.pending.len()
    }
}

/// Membership in a sequence with one position removed, for an element that
/// is not the removed one.
proof fn lemma_remove_contains(s: Seq<u64>, i: int, x: u64)
    requires
        0 <= i < s.len(),
        x != s[i],
    ensures
        s.remove(i).contains(x) == s.contains(x),
{
    let r = s.remove(i);
    s.remove_ensures(i);
    if s.contains(x) {
        let k = choose|k: int| 0 <= k < s.len() && s[k] == x;
        if k < i {
            assert(r[k] == x);
        } else {
            assert(r[k - 1] == x);
        }
    }
    if r.contains(x) {
        let k = choose|k: int| 0 <= k < r.len() && r[k] == x;
        if k < i {
            assert(s[k] == x);
        } else {
            assert(s[k + 1] == x);
        }
    }
}

/// Ids never repeat: across any sequence of allocations the ids come out
/// strictly increasing, and on a fresh broker the first id is 1.
pub proof fn lemma_ids_strictly_increase(brokers: Seq<RpcBroker>, ids: Seq<u64>)
    requires
        brokers.len() == ids.len() + 1,
        forall|k: int|
            0 <= k < ids.len() ==> RpcBroker::begin_call_rel(
                brokers[k],
                brokers[k + 1],
                #[trigger] ids[k],
            ),
    ensures
        forall|a: int, b: int| 0 <= a < b < ids.len() ==> ids[a] < ids[b],
        ids.len() > 0 && brokers[0].next_id == 1 ==> ids[0] == 1,
{
    assert forall|a: int, b: int| 0 <= a < b < ids.len() implies ids[a] < ids[b] by {
        lemma_later_id_larger(brokers, ids, a, b);
    }
}

/// Helper: along the allocation chain a later id is strictly larger.
proof fn lemma_later_id_larger(brokers: Seq<RpcBroker>, ids: Seq<u64>, a: int, b: int)
    requires
        brokers.len() == ids.len() + 1,
        forall|k: int|
            0 <= k < ids.len() ==> RpcBroker::begin_call_rel(
                brokers[k],
                brokers[k + 1],
                #[trigger] ids[k],
            ),
        0 <= a < b < ids.len(),
    ensures
        ids[a] < ids[b],
    decreases b - a,
{
    if b == a + 1 {
        assert(RpcBroker::begin_call_rel(brokers[a], brokers[a + 1], ids[a]));
        assert(RpcBroker::begin_call_rel(brokers[b], brokers[b + 1], ids[b]));
        assert(ids[b] == brokers[b].next_id);
        assert(brokers[a + 1].next_id == ids[a] + 1);
    } else {
        lemma_later_id_larger(brokers, ids, a, b - 1);
        lemma_later_id_larger(brokers, ids, b - 1, b);
    }
}

/// A call leaks nothing: allocating an id and then removing it (however the
/// call ended) brings the pending table back to its size before the call.
pub proof fn lemma_call_no_leak(b0: RpcBroker, b1: RpcBroker, b2: RpcBroker, id: u64, found: bool)
    requires
        b0.wf(),
        RpcBroker::begin_call_rel(b0, b1, id),
        !b0.pending@.contains(id),
        RpcBroker::resolve_rel(b1, b2, id, found),
    ensures
        found,
        b2.pending@.len() == b0.pending@.len(),
{
    assert(b1.pending@.contains(id)) by {
        assert(b1.pending@[b1.pending@.len() - 1] == id);
    }
}

} // verus!
