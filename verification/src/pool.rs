use vstd::prelude::*;

verus! {

/// A deserialized GraphQL request envelope awaiting execution: the query
/// text, an optional operation name, and optional variables carried as raw
/// JSON text.
pub struct WorkItem {
    pub query: String,
    pub operation_name: Option<String>,
    pub variables: Option<String>,
}

/// A queued work item together with the ticket its submitter holds while
/// awaiting the result.
pub struct PendingItem {
    pub ticket: u64,
    pub item: WorkItem,
}

/// The worker pool's dispatch state: a shared FIFO queue of pending work
/// items, one slot per worker recording the ticket it is currently
/// executing (`None` when idle), and the next fresh ticket.
///
/// Tickets are handed out in strictly increasing order, so the queue order
/// is the submission order.
pub struct Pool {
    pub queue: Vec<PendingItem>,
    pub running: Vec<Option<u64>>,
    pub next_ticket: u64,
}

impl Pool {
    /// Well-formedness: at least one worker; the queue is strictly ordered
    /// by ticket (hence duplicate-free and in submission order); every
    /// ticket anywhere in the pool was handed out before `next_ticket`;
    /// no two workers run the same ticket; and no ticket is both queued
    /// and running.
    pub open spec fn wf(self) -> bool {
        &&& self.running@.len() >= 1
        &&& forall|i: int, j: int|
            0 <= i < j < self.queue@.len() ==> self.queue@[i].ticket < self.queue@[j].ticket
        &&& forall|i: int| 0 <= i < self.queue@.len() ==> self.queue@[i].ticket < self.next_ticket
        &&& forall|w: int|
            0 <= w < self.running@.len() && self.running@[w] is Some
                ==> self.running@[w]->0 < self.next_ticket
        &&& forall|w1: int, w2: int|
            0 <= w1 < w2 < self.running@.len() && self.running@[w1] is Some
                && self.running@[w2] is Some ==> self.running@[w1]->0 != self.running@[w2]->0
        &&& forall|i: int, w: int|
            0 <= i < self.queue@.len() && 0 <= w < self.running@.len()
                && self.running@[w] is Some ==> self.queue@[i].ticket != self.running@[w]->0
    }

    /// How many workers the pool was built with.
    pub fn worker_count(&self) -> (n: usize)
        ensures
            n == self.running@.len(),
    {
        self.running.len()
    }

    /// How many items sit in the queue, not yet assigned to a worker.
    pub fn pending_count(&self) -> (n: usize)
        ensures
            n == self.queue@.len(),
    {
        self.queue.len()
    }

    /// Build a pool of `workers` idle workers with an empty queue.
    pub fn new(workers: usize) -> (p: Pool)
        requires
            1 <= workers,
        ensures
            p.wf(),
            p.queue@.len() == 0,
            p.running@.len() == workers,
            forall|w: int| 0 <= w < workers ==> p.running@[w] is None,
            p.next_ticket == 0,
    {
        let mut running: Vec<Option<u64>> = Vec::new();
        let mut i: usize = 0;
        while i < workers
            invariant
                i <= workers,
                running@.len() == i,
                forall|w: int| 0 <= w < i ==> running@[w] is None,
            decreases workers - i,
        {
            running.push(None);
            i = i + 1;
        }
        Pool { queue: Vec::new(), running, next_ticket: 0 }
    }

    /// Enqueue one work item at the back of the queue and hand its
    /// submitter a fresh ticket. Nothing already queued or running moves.
    pub fn submit(&mut self, item: WorkItem) -> (t: u64)
        requires
            old(self).wf(),
            old(self).next_ticket < u64::MAX,
        ensures
            final(self).wf(),
            submit_step(*old(self), *final(self), item, t),
            t == old(self).next_ticket,
            final(self).next_ticket == t + 1,
            final(self).queue@ == old(self).queue@.push((PendingItem { ticket: t, item })),
            final(self).running@ == old(self).running@,
    {
        let t = self.next_ticket;
        self.next_ticket = t + 1;
        self.queue.push(PendingItem { ticket: t, item });
        t
    }

    /// Hand the oldest queued item, if any, to the idle worker `w`.
    /// The front of the queue — the earliest submission still pending —
    /// is removed and recorded as running on `w`; nothing else changes.
    pub fn assign(&mut self, w: usize) -> (r: Option<PendingItem>)
        requires
            old(self).wf(),
            w < old(self).running@.len(),
            old(self).running@[w as int] is None,
        ensures
            final(self).wf(),
            old(self).queue@.len() == 0 ==> r is None && *final(self) == *old(self),
            old(self).queue@.len() > 0 ==> begin_step(
                *old(self),
                *final(self),
                w as int,
                old(self).queue@[0].ticket,
                old(self).queue@[0].item,
            ),
            old(self).queue@.len() > 0 ==> {
                &&& r is Some
                &&& r->0 == old(self).queue@[0]
                &&& final(self).queue@ == old(self).queue@.subrange(
                    1,
                    old(self).queue@.len() as int,
                )
                &&& final(self).running@ == old(self).running@.update(
                    w as int,
                    Some(old(self).queue@[0].ticket),
                )
                &&& final(self).next_ticket == old(self).next_ticket
            },
    {
        if self.queue.len() == 0 {
            return None;
        }
        let pending = self.queue.remove(0);
        let slot = &mut self.running[w];
        *slot = Some(pending.ticket);
        proof {
            assert(self.queue@ =~= old(self).queue@.subrange(
                1,
                old(self).queue@.len() as int,
            ));
        }
        Some(pending)
    }

    /// Worker `w` finished the item it was running: free its slot and
    /// report the ticket whose submitter now holds a result.
    pub fn complete(&mut self, w: usize) -> (t: u64)
        requires
            old(self).wf(),
            w < old(self).running@.len(),
            old(self).running@[w as int] is Some,
        ensures
            final(self).wf(),
            Some(t) == old(self).running@[w as int],
            complete_step(*old(self), *final(self), w as int, t),
            final(self).running@ == old(self).running@.update(w as int, Option::<u64>::None),
            final(self).queue@ == old(self).queue@,
            final(self).next_ticket == old(self).next_ticket,
    {
        let slot = &mut self.running[w];
        let t = slot.unwrap();
        *slot = None;
        t
    }
}

/// The submission transition: `post` is `pre` with `item` appended under
/// the fresh ticket `t`, and nothing else changed.
pub open spec fn submit_step(pre: Pool, post: Pool, item: WorkItem, t: u64) -> bool {
    &&& t == pre.next_ticket
    &&& post.next_ticket == t + 1
    &&& post.queue@ == pre.queue@.push(PendingItem { ticket: t, item })
    &&& post.running@ == pre.running@
}

/// The assignment transition: the idle worker `w` takes the front of the
/// non-empty queue — ticket `t` carrying `item` — and begins executing it.
pub open spec fn begin_step(pre: Pool, post: Pool, w: int, t: u64, item: WorkItem) -> bool {
    &&& 0 <= w < pre.running@.len()
    &&& pre.running@[w] is None
    &&& pre.queue@.len() > 0
    &&& pre.queue@[0] == (PendingItem { ticket: t, item })
    &&& post.queue@ == pre.queue@.subrange(1, pre.queue@.len() as int)
    &&& post.running@ == pre.running@.update(w, Some(t))
    &&& post.next_ticket == pre.next_ticket
}

/// The completion transition: worker `w` finishes the execution of ticket
/// `t` and becomes idle again.
pub open spec fn complete_step(pre: Pool, post: Pool, w: int, t: u64) -> bool {
    &&& 0 <= w < pre.running@.len()
    &&& pre.running@[w] == Some(t)
    &&& post.running@ == pre.running@.update(w, Option::<u64>::None)
    &&& post.queue@ == pre.queue@
    &&& post.next_ticket == pre.next_ticket
}

/// One observable event in the pool's life.
pub enum PoolEvent {
    Submit { item: WorkItem, ticket: u64 },
    Begin { worker: int, ticket: u64, item: WorkItem },
    Complete { worker: int, ticket: u64 },
}

/// What each event does to the pool's state.
pub open spec fn event_step(pre: Pool, post: Pool, e: PoolEvent) -> bool {
    match e {
        PoolEvent::Submit { item, ticket } => submit_step(pre, post, item, ticket),
        PoolEvent::Begin { worker, ticket, item } => begin_step(pre, post, worker, ticket, item),
        PoolEvent::Complete { worker, ticket } => complete_step(pre, post, worker, ticket),
    }
}

/// A run of the pool: `states` strung together by `events`, each step a
/// submission, an assignment, or a completion.
pub open spec fn is_execution(states: Seq<Pool>, events: Seq<PoolEvent>) -> bool {
    &&& states.len() == events.len() + 1
    &&& forall|k: int| 0 <= k < events.len() ==> event_step(states[k], states[k + 1], events[k])
}

/// A worker may take new work only while idle.
pub open spec fn assign_enabled(p: Pool, w: int) -> bool {
    &&& p.wf()
    &&& 0 <= w < p.running@.len()
    &&& p.running@[w] is None
}

/// Exactly-once delivery: in a well-formed pool a given ticket occupies at
/// most one place — at most one queue position, at most one worker slot,
/// and never a queue position and a worker slot at once. Together with
/// `assign`'s contract (the one queued copy moves to the one chosen
/// worker) this rules out both duplication and loss of a work item.
pub proof fn lemma_exactly_once(p: Pool, t: u64)
    requires
        p.wf(),
    ensures
        forall|i: int, j: int|
            0 <= i < p.queue@.len() && 0 <= j < p.queue@.len() && p.queue@[i].ticket == t
                && p.queue@[j].ticket == t ==> i == j,
        forall|w1: int, w2: int|
            0 <= w1 < p.running@.len() && 0 <= w2 < p.running@.len()
                && p.running@[w1] == Some(t) && p.running@[w2] == Some(t) ==> w1 == w2,
        forall|i: int, w: int|
            0 <= i < p.queue@.len() && 0 <= w < p.running@.len() ==> !(p.queue@[i].ticket == t
                && p.running@[w] == Some(t)),
{
    assert forall|i: int, j: int|
        0 <= i < p.queue@.len() && 0 <= j < p.queue@.len() && p.queue@[i].ticket == t
            && p.queue@[j].ticket == t implies i == j by {
        if i < j {
            assert(p.queue@[i].ticket < p.queue@[j].ticket);
        }
        if j < i {
            assert(p.queue@[j].ticket < p.queue@[i].ticket);
        }
    }
    assert forall|w1: int, w2: int|
        0 <= w1 < p.running@.len() && 0 <= w2 < p.running@.len() && p.running@[w1] == Some(t)
            && p.running@[w2] == Some(t) implies w1 == w2 by {
        if w1 < w2 {
            assert(p.running@[w1]->0 != p.running@[w2]->0);
        }
        if w2 < w1 {
            assert(p.running@[w2]->0 != p.running@[w1]->0);
        }
    }
}

/// The queue keeps submission order: tickets grow with the queue position,
/// so an earlier-submitted item stands closer to the front.
pub proof fn lemma_queue_in_submission_order(p: Pool, i: int, j: int)
    requires
        p.wf(),
        0 <= i < j < p.queue@.len(),
    ensures
        p.queue@[i].ticket < p.queue@[j].ticket,
{
}

/// `assign` serves the earliest submission: the front of a non-empty
/// well-formed queue carries a strictly smaller ticket than everything
/// behind it, so no later-submitted item can be handed out first.
pub proof fn lemma_assign_takes_oldest(p: Pool)
    requires
        p.wf(),
        p.queue@.len() > 0,
    ensures
        forall|j: int| 1 <= j < p.queue@.len() ==> p.queue@[0].ticket < #[trigger] p.queue@[j].ticket,
{
}

/// Per-worker seriality: while a worker holds an item, no further item can
/// be assigned to it; only `complete` frees the slot. Hence if two items
/// go to the same worker, the first one's execution completes before the
/// second one's begins.
pub proof fn lemma_worker_serial(p: Pool, w: int)
    requires
        0 <= w < p.running@.len(),
        p.running@[w] is Some,
    ensures
        !assign_enabled(p, w),
{
}

/// Every step keeps the pool well-formed.
pub proof fn lemma_step_preserves_wf(pre: Pool, post: Pool, e: PoolEvent)
    requires
        pre.wf(),
        event_step(pre, post, e),
    ensures
        post.wf(),
{
    match e {
        PoolEvent::Submit { item, ticket } => {
        },
        PoolEvent::Begin { worker, ticket, item } => {
        },
        PoolEvent::Complete { worker, ticket } => {
        },
    }
}

/// A run that starts well-formed stays well-formed.
pub proof fn lemma_execution_wf(states: Seq<Pool>, events: Seq<PoolEvent>, k: int)
    requires
        is_execution(states, events),
        states[0].wf(),
        0 <= k < states.len(),
    ensures
        states[k].wf(),
    decreases k,
{
    if k > 0 {
        lemma_execution_wf(states, events, k - 1);
        lemma_step_preserves_wf(states[k - 1], states[k], events[k - 1]);
    }
}

/// Tickets never run backwards: no step lowers `next_ticket`.
pub proof fn lemma_next_ticket_monotone(states: Seq<Pool>, events: Seq<PoolEvent>, i: int, j: int)
    requires
        is_execution(states, events),
        0 <= i <= j < states.len(),
    ensures
        states[i].next_ticket <= states[j].next_ticket,
    decreases j - i,
{
    if i < j {
        assert(event_step(states[i], states[i + 1], events[i]));
        assert(states[i].next_ticket <= states[i + 1].next_ticket);
        lemma_next_ticket_monotone(states, events, i + 1, j);
    }
}

/// While worker `w` runs ticket `a`, it goes on running `a` until the run
/// shows `Complete { worker: w, ticket: a }`.
pub proof fn lemma_running_until_complete(
    states: Seq<Pool>,
    events: Seq<PoolEvent>,
    i: int,
    j: int,
    w: int,
    a: u64,
)
    requires
        is_execution(states, events),
        0 <= i <= j < states.len(),
        0 <= w < states[i].running@.len(),
        states[i].running@[w] == Some(a),
        forall|k: int|
            i <= k < j ==> events[k] != (PoolEvent::Complete { worker: w, ticket: a }),
    ensures
        0 <= w < states[j].running@.len(),
        states[j].running@[w] == Some(a),
    decreases j - i,
{
    if i < j {
        match events[i] {
            PoolEvent::Submit { item, ticket } => {
            },
            PoolEvent::Begin { worker, ticket, item } => {
                assert(worker != w);
            },
            PoolEvent::Complete { worker, ticket } => {
                if worker == w {
                    assert(states[i].running@[w] == Some(ticket));
                    assert(ticket == a);
                    assert(false);
                }
            },
        }
        assert(states[i + 1].running@[w] == Some(a));
        lemma_running_until_complete(states, events, i + 1, j, w, a);
    }
}

/// Per-worker FIFO across a whole run: if worker `w` begins item A and
/// later begins item B, it completed A strictly in between — A's execution
/// finishes before B's begins.
pub proof fn lemma_per_worker_fifo(
    states: Seq<Pool>,
    events: Seq<PoolEvent>,
    i: int,
    j: int,
    w: int,
    a: u64,
    b: u64,
    item_a: WorkItem,
    item_b: WorkItem,
)
    requires
        is_execution(states, events),
        0 <= i < j < events.len(),
        events[i] == (PoolEvent::Begin { worker: w, ticket: a, item: item_a }),
        events[j] == (PoolEvent::Begin { worker: w, ticket: b, item: item_b }),
    ensures
        exists|k: int|
            i < k < j && events[k] == (PoolEvent::Complete { worker: w, ticket: a }),
{
    assert(begin_step(states[i], states[i + 1], w, a, item_a));
    assert(states[i + 1].running@[w] == Some(a));
    if !(exists|k: int|
        i < k < j && events[k] == (PoolEvent::Complete { worker: w, ticket: a })) {
        assert forall|k: int|
            i + 1 <= k < j implies events[k] != (PoolEvent::Complete {
            worker: w,
            ticket: a,
        }) by {
            assert(!(i < k < j && events[k] == (PoolEvent::Complete { worker: w, ticket: a })));
        }
        lemma_running_until_complete(states, events, i + 1, j, w, a);
        assert(states[j].running@[w] == Some(a));
        assert(begin_step(states[j], states[j + 1], w, b, item_b));
        assert(false);
    }
}

/// After worker `w` begins ticket `a`, that ticket is gone from the queue
/// for good, and every later ticket handed out is larger.
pub proof fn lemma_ticket_retired(
    states: Seq<Pool>,
    events: Seq<PoolEvent>,
    i: int,
    k: int,
    w: int,
    a: u64,
    item_a: WorkItem,
)
    requires
        is_execution(states, events),
        states[0].wf(),
        0 <= i < events.len(),
        events[i] == (PoolEvent::Begin { worker: w, ticket: a, item: item_a }),
        i < k < states.len(),
    ensures
        a < states[k].next_ticket,
        forall|q: int|
            0 <= q < states[k].queue@.len() ==> #[trigger] states[k].queue@[q].ticket != a,
    decreases k - i,
{
    lemma_execution_wf(states, events, i);
    assert(begin_step(states[i], states[i + 1], w, a, item_a));
    if k == i + 1 {
        assert(states[i].queue@[0].ticket == a);
        assert(a < states[i].next_ticket);
        assert forall|q: int|
            0 <= q < states[i + 1].queue@.len() implies #[trigger] states[i + 1].queue@[q].ticket
            != a by {
            assert(states[i + 1].queue@[q] == states[i].queue@[q + 1]);
            assert(states[i].queue@[0].ticket < states[i].queue@[q + 1].ticket);
        }
    } else {
        lemma_ticket_retired(states, events, i, k - 1, w, a, item_a);
        match events[k - 1] {
            PoolEvent::Submit { item, ticket } => {
                assert(ticket == states[k - 1].next_ticket);
                assert forall|q: int|
                    0 <= q < states[k].queue@.len() implies #[trigger] states[k].queue@[q].ticket
                    != a by {
                    if q < states[k - 1].queue@.len() {
                        assert(states[k].queue@[q] == states[k - 1].queue@[q]);
                    } else {
                        assert(states[k].queue@[q].ticket == ticket);
                    }
                }
            },
            PoolEvent::Begin { worker, ticket, item } => {
                assert forall|q: int|
                    0 <= q < states[k].queue@.len() implies #[trigger] states[k].queue@[q].ticket
                    != a by {
                    assert(states[k].queue@[q] == states[k - 1].queue@[q + 1]);
                }
            },
            PoolEvent::Complete { worker, ticket } => {
            },
        }
    }
}

/// Exactly-once execution across a whole run: no two `Begin` events carry
/// the same ticket, so no work item is ever executed twice — by two
/// workers, or again by the same one.
pub proof fn lemma_begin_exactly_once(
    states: Seq<Pool>,
    events: Seq<PoolEvent>,
    i: int,
    j: int,
    wi: int,
    wj: int,
    ti: u64,
    tj: u64,
    item_i: WorkItem,
    item_j: WorkItem,
)
    requires
        is_execution(states, events),
        states[0].wf(),
        0 <= i < j < events.len(),
        events[i] == (PoolEvent::Begin { worker: wi, ticket: ti, item: item_i }),
        events[j] == (PoolEvent::Begin { worker: wj, ticket: tj, item: item_j }),
    ensures
        ti != tj,
{
    lemma_ticket_retired(states, events, i, j, wi, ti, item_i);
    assert(begin_step(states[j], states[j + 1], wj, tj, item_j));
    assert(states[j].queue@[0].ticket == tj);
}

/// `e` is the event of worker `w` beginning the execution of ticket `t`.
pub open spec fn is_begin_event(e: PoolEvent, w: int, t: u64) -> bool {
    match e {
        PoolEvent::Begin { worker, ticket, item } => worker == w && ticket == t,
        _ => false,
    }
}

/// The pool never gains or loses workers along a run.
pub proof fn lemma_worker_count_constant(states: Seq<Pool>, events: Seq<PoolEvent>, k: int)
    requires
        is_execution(states, events),
        0 <= k < states.len(),
    ensures
        states[k].running@.len() == states[0].running@.len(),
    decreases k,
{
    if k > 0 {
        lemma_worker_count_constant(states, events, k - 1);
        assert(event_step(states[k - 1], states[k], events[k - 1]));
    }
}

/// The same, between any two steps of the run.
pub proof fn lemma_worker_count_window(states: Seq<Pool>, events: Seq<PoolEvent>, m: int, k: int)
    requires
        is_execution(states, events),
        0 <= m <= k < states.len(),
    ensures
        states[k].running@.len() == states[m].running@.len(),
    decreases k - m,
{
    if m < k {
        lemma_worker_count_window(states, events, m, k - 1);
        assert(event_step(states[k - 1], states[k], events[k - 1]));
    }
}

/// A worker idle at step `m` but found running ticket `t` at step `j` must
/// have begun `t` somewhere in between.
pub proof fn lemma_begun_in_window(
    states: Seq<Pool>,
    events: Seq<PoolEvent>,
    m: int,
    j: int,
    w: int,
    t: u64,
)
    requires
        is_execution(states, events),
        0 <= m <= j < states.len(),
        0 <= w < states[m].running@.len(),
        states[m].running@[w] is None,
        states[j].running@[w] == Some(t),
    ensures
        exists|b: int| m <= b < j && #[trigger] is_begin_event(events[b], w, t),
    decreases j - m,
{
    assert(j > m);
    assert(event_step(states[j - 1], states[j], events[j - 1]));
    lemma_worker_count_window(states, events, m, j - 1);
    lemma_worker_count_window(states, events, m, j);
    assert(0 <= w < states[j - 1].running@.len());
    assert(0 <= w < states[j].running@.len());
    match events[j - 1] {
        PoolEvent::Submit { item, ticket } => {
            lemma_begun_in_window(states, events, m, j - 1, w, t);
        },
        PoolEvent::Begin { worker, ticket, item } => {
            if worker == w {
                assert(ticket == t);
                assert(is_begin_event(events[j - 1], w, t));
            } else {
                assert(states[j - 1].running@[w] == Some(t));
                lemma_begun_in_window(states, events, m, j - 1, w, t);
            }
        },
        PoolEvent::Complete { worker, ticket } => {
            assert(worker != w);
            assert(states[j - 1].running@[w] == Some(t));
            lemma_begun_in_window(states, events, m, j - 1, w, t);
        },
    }
}

/// Exactly one result per work item: in a run that starts with every
/// worker idle, no two `Complete` events carry the same ticket, so no
/// submitter is ever handed a second result for one submission.
pub proof fn lemma_complete_exactly_once(
    states: Seq<Pool>,
    events: Seq<PoolEvent>,
    i: int,
    j: int,
    wi: int,
    wj: int,
    ti: u64,
    tj: u64,
)
    requires
        is_execution(states, events),
        states[0].wf(),
        forall|w: int| 0 <= w < states[0].running@.len() ==> states[0].running@[w] is None,
        0 <= i < j < events.len(),
        events[i] == (PoolEvent::Complete { worker: wi, ticket: ti }),
        events[j] == (PoolEvent::Complete { worker: wj, ticket: tj }),
    ensures
        ti != tj,
{
    if ti == tj {
        let t = ti;
        assert(event_step(states[i], states[i + 1], events[i]));
        assert(states[i].running@[wi] == Some(t));
        assert(event_step(states[j], states[j + 1], events[j]));
        assert(states[j].running@[wj] == Some(t));
        lemma_worker_count_constant(states, events, i);
        lemma_worker_count_constant(states, events, i + 1);
        lemma_worker_count_constant(states, events, j);
        if wi == wj {
            assert(states[i + 1].running@[wi] is None);
            lemma_begun_in_window(states, events, i + 1, j, wi, t);
            let b2 = choose|b: int| i + 1 <= b < j && #[trigger] is_begin_event(events[b], wi, t);
            lemma_begun_in_window(states, events, 0, i, wi, t);
            let b1 = choose|b: int| 0 <= b < i && #[trigger] is_begin_event(events[b], wi, t);
            match events[b1] {
                PoolEvent::Begin { worker: w1, ticket: t1, item: i1 } => {
                    match events[b2] {
                        PoolEvent::Begin { worker: w2, ticket: t2, item: i2 } => {
                            lemma_begin_exactly_once(
                                states,
                                events,
                                b1,
                                b2,
                                w1,
                                w2,
                                t1,
                                t2,
                                i1,
                                i2,
                            );
                        },
                        _ => {
                            assert(false);
                        },
                    }
                },
                _ => {
                    assert(false);
                },
            }
        } else {
            lemma_begun_in_window(states, events, 0, i, wi, t);
            let b1 = choose|b: int| 0 <= b < i && #[trigger] is_begin_event(events[b], wi, t);
            lemma_begun_in_window(states, events, 0, j, wj, t);
            let b2 = choose|b: int| 0 <= b < j && #[trigger] is_begin_event(events[b], wj, t);
            assert(b1 != b2);
            match events[b1] {
                PoolEvent::Begin { worker: w1, ticket: t1, item: i1 } => {
                    match events[b2] {
                        PoolEvent::Begin { worker: w2, ticket: t2, item: i2 } => {
                            if b1 < b2 {
                                lemma_begin_exactly_once(
                                    states,
                                    events,
                                    b1,
                                    b2,
                                    w1,
                                    w2,
                                    t1,
                                    t2,
                                    i1,
                                    i2,
                                );
                            } else {
                                lemma_begin_exactly_once(
                                    states,
                                    events,
                                    b2,
                                    b1,
                                    w2,
                                    w1,
                                    t2,
                                    t1,
                                    i2,
                                    i1,
                                );
                            }
                        },
                        _ => {
                            assert(false);
                        },
                    }
                },
                _ => {
                    assert(false);
                },
            }
        }
    }
}

/// No caching and no deduplication: submitting the same request twice
/// enqueues two distinct pending items under distinct tickets, each owed
/// its own execution and its own result.
pub proof fn lemma_resubmit_independent(p0: Pool, p1: Pool, p2: Pool, item: WorkItem, t1: u64, t2: u64)
    requires
        p0.wf(),
        submit_step(p0, p1, item, t1),
        submit_step(p1, p2, item, t2),
    ensures
        t1 != t2,
        p2.queue@.len() == p0.queue@.len() + 2,
        p2.queue@[p2.queue@.len() - 2] == (PendingItem { ticket: t1, item }),
        p2.queue@[p2.queue@.len() - 1] == (PendingItem { ticket: t2, item }),
{
}

} // verus!
