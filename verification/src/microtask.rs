//! The microtask queue: a strict FIFO of uncategorized work items drained
//! to exhaustion at each checkpoint. A microtask enqueued while the queue
//! is draining is observed by the same drain.
//!
//! The body of a microtask is owned by the script collaborator; the engine
//! models it by an opaque tag together with the microtasks it enqueues
//! while it runs, so a microtask is a finite tree of spawned work and a
//! checkpoint's behaviour is a function of the queue's contents.

use vstd::prelude::*;
use vstd::multiset::Multiset;

verus! {

/// One microtask: an opaque body tag and the microtasks the body
/// enqueues, in order, while it runs.
pub struct Microtask {
    /// Opaque tag identifying the body.
    pub id: u64,
    /// The microtasks the body enqueues while it runs.
    pub spawns: Vec<Microtask>,
}

/// Total number of microtasks in the tree rooted at `m`, itself included.
pub open spec fn weight(m: Microtask) -> nat
    decreases m,
{
    1 + weight_seq(m.spawns@)
}

/// Total number of microtasks in all trees of `s`.
pub open spec fn weight_seq(s: Seq<Microtask>) -> nat
    decreases s,
{
    if s.len() == 0 {
        0
    } else {
        weight(s[0]) + weight_seq(s.subrange(1, s.len() as int))
    }
}

/// `weight_seq` distributes over concatenation.
pub proof fn lemma_weight_seq_add(a: Seq<Microtask>, b: Seq<Microtask>)
    ensures
        weight_seq(a + b) == weight_seq(a) + weight_seq(b),
    decreases a.len(),
{
    if a.len() == 0 {
        assert(a + b =~= b);
    } else {
        assert((a + b).subrange(1, (a + b).len() as int)
            =~= a.subrange(1, a.len() as int) + b);
        lemma_weight_seq_add(a.subrange(1, a.len() as int), b);
    }
}

/// The order in which a checkpoint runs the queue `q`: the head runs
/// first, and the microtasks it spawns are appended behind the rest of
/// the queue before draining continues.
pub open spec fn drain_order(q: Seq<Microtask>) -> Seq<u64>
    decreases weight_seq(q),
    via drain_order_decreases
{
    if q.len() == 0 {
        Seq::empty()
    } else {
        seq![q[0].id] + drain_order(q.subrange(1, q.len() as int) + q[0].spawns@)
    }
}

#[via_fn]
proof fn drain_order_decreases(q: Seq<Microtask>) {
    if q.len() != 0 {
        lemma_weight_seq_add(q.subrange(1, q.len() as int), q[0].spawns@);
        assert(weight_seq(q)
            == weight(q[0]) + weight_seq(q.subrange(1, q.len() as int)));
        assert(weight(q[0]) == 1 + weight_seq(q[0].spawns@));
    }
}

/// The multiset of all body tags in the tree rooted at `m`.
pub open spec fn tree_ids(m: Microtask) -> Multiset<u64>
    decreases m,
{
    seq_ids(m.spawns@).insert(m.id)
}

/// The multiset of all body tags in all trees of `s`.
pub open spec fn seq_ids(s: Seq<Microtask>) -> Multiset<u64>
    decreases s,
{
    if s.len() == 0 {
        Multiset::empty()
    } else {
        tree_ids(s[0]).add(seq_ids(s.subrange(1, s.len() as int)))
    }
}

/// `seq_ids` distributes over concatenation.
pub proof fn lemma_seq_ids_add(a: Seq<Microtask>, b: Seq<Microtask>)
    ensures
        seq_ids(a + b) =~= seq_ids(a).add(seq_ids(b)),
    decreases a.len(),
{
    if a.len() == 0 {
        assert(a + b =~= b);
    } else {
        assert((a + b).subrange(1, (a + b).len() as int)
            =~= a.subrange(1, a.len() as int) + b);
        lemma_seq_ids_add(a.subrange(1, a.len() as int), b);
    }
}

/// A checkpoint runs every microtask of the queue, and every microtask
/// any of them enqueues, directly or transitively, each exactly once:
/// the drained tags are a permutation of all tags reachable from the
/// queue. Nothing enqueued during a task is left for a later task.
pub proof fn lemma_checkpoint_drains_all(q: Seq<Microtask>)
    ensures
        drain_order(q).to_multiset() =~= seq_ids(q),
    decreases weight_seq(q),
{
    broadcast use vstd::seq_lib::group_to_multiset_ensures;

    if q.len() == 0 {
        assert(forall|x: u64| drain_order(q).to_multiset().count(x) == 0);
    } else {
        let rest = q.subrange(1, q.len() as int) + q[0].spawns@;
        lemma_weight_seq_add(q.subrange(1, q.len() as int), q[0].spawns@);
        assert(weight_seq(q)
            == weight(q[0]) + weight_seq(q.subrange(1, q.len() as int)));
        assert(weight(q[0]) == 1 + weight_seq(q[0].spawns@));
        lemma_checkpoint_drains_all(rest);
        vstd::seq_lib::lemma_multiset_commutative(seq![q[0].id], drain_order(rest));
        assert(Seq::<u64>::empty().to_multiset() =~= Multiset::<u64>::empty());
        assert(seq![q[0].id] =~= Seq::empty().push(q[0].id));
        assert(seq![q[0].id].to_multiset() =~= Multiset::empty().insert(q[0].id));
        lemma_seq_ids_add(q.subrange(1, q.len() as int), q[0].spawns@);
        assert(drain_order(q) == seq![q[0].id] + drain_order(rest));
        assert(drain_order(q).to_multiset()
            =~= Multiset::empty().insert(q[0].id).add(drain_order(rest).to_multiset()));
        assert(seq_ids(q)
            == tree_ids(q[0]).add(seq_ids(q.subrange(1, q.len() as int))));
        assert(tree_ids(q[0]) == seq_ids(q[0].spawns@).insert(q[0].id));
    }
}

/// The FIFO of pending microtasks of one event loop.
pub struct MicrotaskQueue {
    queue: Vec<Microtask>,
}

impl MicrotaskQueue {
    /// The pending microtasks, front first.
    pub closed spec fn pending(self) -> Seq<Microtask> {
        self.queue@
    }

    /// An empty microtask queue.
    pub fn new() -> (r: MicrotaskQueue)
        ensures
            r.pending() == Seq::<Microtask>::empty(),
    {
        MicrotaskQueue { queue: Vec::new() }
    }

    /// Appends one microtask at the back. Microtasks cannot be cancelled:
    /// once enqueued, a microtask runs at the next checkpoint.
    pub fn enqueue(&mut self, m: Microtask)
        ensures
            final(self).pending() == old(self).pending().push(m),
    {
        self.queue.push(m);
    }

    /// Whether no microtask is pending.
    pub fn is_empty(&self) -> (r: bool)
        ensures
            r == (self.pending().len() == 0),
    {
        self.queue.len() == 0
    }

    /// Runs a microtask checkpoint: drains the queue to exhaustion,
    /// appending whatever each microtask spawns behind the queue, and
    /// returns the tags of the bodies run, in execution order. A
    /// microtask enqueued during the drain is drained by this same call;
    /// the checkpoint ends only when nothing at all is pending.
    pub fn checkpoint(&mut self) -> (ran: Vec<u64>)
        ensures
            final(self).pending() == Seq::<Microtask>::empty(),
            ran@ == drain_order(old(self).pending()),
    {
        let mut ran: Vec<u64> = Vec::new();
        while self.queue.len() != 0
            invariant
                ran@ + drain_order(self.queue@) =~= drain_order(old(self).pending()),
            decreases weight_seq(self.queue@),
        {
            let ghost q_before = self.queue@;
            let ghost ran_before = ran@;
            let m = self.queue.remove(0);
            ran.push(m.id);
            let mut spawns = m.spawns;
            let ghost s0 = spawns@;
            let ghost q_mid = self.queue@;
            while spawns.len() != 0
                invariant
                    spawns@.len() <= s0.len(),
                    self.queue@ =~= q_mid + s0.subrange(0, s0.len() - spawns@.len()),
                    spawns@ =~= s0.subrange(s0.len() - spawns@.len(), s0.len() as int),
                decreases spawns@.len(),
            {
                let ghost k = s0.len() - spawns@.len();
                let c = spawns.remove(0);
                self.queue.push(c);
                proof {
                    assert(c == s0[k]);
                    assert(self.queue@
                        =~= q_mid + s0.subrange(0, s0.len() - spawns@.len()));
                    assert(spawns@
                        =~= s0.subrange(s0.len() - spawns@.len(), s0.len() as int));
                }
            }
            proof {
                assert(self.queue@ =~= q_mid + s0);
                assert(q_before[0] == m);
                assert(q_before.subrange(1, q_before.len() as int) =~= q_mid);
                assert(drain_order(q_before)
                    == seq![m.id] + drain_order(q_mid + s0));
                assert(ran@ =~= ran_before + seq![m.id]);
                assert(ran@ + drain_order(self.queue@)
                    =~= ran_before + (seq![m.id] + drain_order(q_mid + s0)));
                assert(ran@ + drain_order(self.queue@)
                    =~= drain_order(old(self).pending()));
                lemma_weight_seq_add(q_mid, s0);
                assert(weight_seq(q_before)
                    == weight(q_before[0]) + weight_seq(q_mid));
                assert(weight(m) == 1 + weight_seq(s0));
            }
        }
        ran
    }
}

} // verus!
