//! Per-server queue: the scheduler pushes, the server's workers pop.
//!
//! The caller guards the queue with a lock and parks workers until there is
//! something to wake them for; what each operation does to the queue is here.

use std::collections::VecDeque;

use vstd::prelude::*;

use crate::article::{items, ItemView, WorkItem};

verus! {

/// Items waiting for one server, and how many its workers hold.
pub struct ServerQueue {
    waiting: VecDeque<WorkItem>,
    closed: bool,
    inflight: usize,
}

/// What a [`ServerQueue`] holds.
#[verifier::ext_equal]
pub struct QueueView {
    pub waiting: Seq<ItemView>,
    pub closed: bool,
    pub inflight: usize,
}

impl View for ServerQueue {
    type V = QueueView;

    closed spec fn view(&self) -> QueueView {
        QueueView {
            waiting: items(self.waiting@),
            closed: self.closed,
            inflight: self.inflight,
        }
    }
}

/// What a worker gets when it asks for work.
pub enum Popped {
    /// Items, oldest first.
    Batch(Vec<WorkItem>),
    /// Nothing is waiting, and nothing will come.
    Closed,
    /// Nothing is waiting yet: ask again after the next wake-up.
    Wait,
}

impl QueueView {
    /// How many items a worker gets that asks for up to `max`: as many as
    /// there are, if it asked for more, and at least one, if there is one.
    pub open spec fn batch_size(self, max: usize) -> nat {
        let most = if max == 0 {
            1
        } else {
            max as nat
        };
        if self.waiting.len() < most {
            self.waiting.len()
        } else {
            most
        }
    }

    /// The queue with `work` behind what was waiting.
    pub open spec fn after_push(self, work: Seq<ItemView>) -> QueueView {
        QueueView { waiting: self.waiting + work, ..self }
    }

    /// The first `take` items.
    pub open spec fn front(self, take: int) -> Seq<ItemView> {
        self.waiting.take(take)
    }

    /// The queue without its first `take` items, which a worker holds.
    pub open spec fn after_pop(self, take: int) -> QueueView {
        QueueView {
            waiting: self.waiting.skip(take),
            inflight: self.inflight.wrapping_add(take as usize),
            ..self
        }
    }

    /// The queue after a worker is done with `n` items.
    pub open spec fn after_completed(self, n: usize) -> QueueView {
        QueueView { inflight: self.inflight.wrapping_sub(n), ..self }
    }
}

/// First in, first out: two workers that pop one after the other get what one
/// worker would have got with one larger pop.
pub proof fn law_pops_in_order(queue: QueueView, a: int, b: int)
    requires
        0 <= a,
        0 <= b,
        a + b <= queue.waiting.len(),
    ensures
        queue.front(a) + queue.after_pop(a).front(b) == queue.front(a + b),
        queue.after_pop(a).after_pop(b).waiting == queue.after_pop(a + b).waiting,
{
    assert(queue.front(a) + queue.after_pop(a).front(b) =~= queue.front(a + b));
    assert(queue.after_pop(a).after_pop(b).waiting =~= queue.after_pop(a + b).waiting);
}

/// What is pushed comes out after what was waiting: once that is gone, the
/// front of the queue is what was pushed.
pub proof fn law_push_then_pop(queue: QueueView, work: Seq<ItemView>)
    ensures
        queue.after_push(work).front(queue.waiting.len() as int) == queue.waiting,
        queue.after_push(work).after_pop(queue.waiting.len() as int).waiting == work,
{
    let pushed = queue.after_push(work);
    assert(pushed.front(queue.waiting.len() as int) =~= queue.waiting);
    assert(pushed.after_pop(queue.waiting.len() as int).waiting =~= work);
}

/// A batch that a worker is done with no longer counts for the depth.
pub proof fn law_completion_restores_depth(queue: QueueView, take: int)
    requires
        0 <= take <= queue.waiting.len(),
        take <= usize::MAX,
    ensures
        queue.after_pop(take).after_completed(take as usize).inflight == queue.inflight,
{
}

/// What is pushed stands behind what was waiting, in order, and neither opens or
/// closes the queue nor counts as held.
pub proof fn law_push_appends(queue: QueueView, work: Seq<ItemView>)
    ensures
        ({
            let after = queue.after_push(work);
            &&& after.waiting.len() == queue.waiting.len() + work.len()
            &&& forall|i: int|
                0 <= i < queue.waiting.len() ==> #[trigger] after.waiting[i] == queue.waiting[i]
            &&& forall|i: int|
                0 <= i < work.len() ==> after.waiting[queue.waiting.len() + i]
                    == #[trigger] work[i]
            &&& after.closed == queue.closed
            &&& after.inflight == queue.inflight
        }),
{
}

/// A pop takes the oldest items and leaves the others, each in order; those that
/// it took count as held, and the queue stays open or closed.
pub proof fn law_pop_takes_the_oldest(queue: QueueView, take: int)
    requires
        0 <= take <= queue.waiting.len(),
        queue.inflight + take <= usize::MAX,
    ensures
        queue.front(take).len() == take,
        queue.front(take) + queue.after_pop(take).waiting == queue.waiting,
        queue.after_pop(take).inflight == queue.inflight + take,
        queue.after_pop(take).closed == queue.closed,
{
    assert(queue.front(take) + queue.after_pop(take).waiting =~= queue.waiting);
}

/// A worker gets something if anything waits, no more than it asked for (but one
/// at least), and all that it asked for, if as much waits.
pub proof fn law_batch_size(queue: QueueView, max: usize)
    ensures
        queue.batch_size(max) <= queue.waiting.len(),
        queue.waiting.len() > 0 ==> queue.batch_size(max) > 0,
        max > 0 ==> queue.batch_size(max) <= max,
        max == 0 ==> queue.batch_size(max) <= 1,
        queue.waiting.len() >= max ==> queue.batch_size(max) >= max,
        queue.waiting.len() <= max ==> queue.batch_size(max) == queue.waiting.len(),
{
}

/// Items that a worker is done with no longer count as held, and nothing else
/// changes.
pub proof fn law_completed_items_are_not_held(queue: QueueView, n: usize)
    requires
        n <= queue.inflight,
    ensures
        queue.after_completed(n).inflight == queue.inflight - n,
        queue.after_completed(n).waiting == queue.waiting,
        queue.after_completed(n).closed == queue.closed,
{
}

impl ServerQueue {
    /// An empty, open queue.
    pub fn new() -> (queue: Self)
        ensures
            queue@ == (QueueView { waiting: Seq::empty(), closed: false, inflight: 0 }),
    {
        let queue = ServerQueue { waiting: VecDeque::new(), closed: false, inflight: 0 };
        assert(queue@.waiting =~= Seq::<ItemView>::empty());
        queue
    }

    /// Enqueue `work` behind what is waiting. Returns whether parked workers
    /// are to be woken: not for an empty push.
    pub fn push_many(&mut self, work: Vec<WorkItem>) -> (wake: bool)
        ensures
            wake == (work@.len() > 0),
            final(self)@ == old(self)@.after_push(items(work@)),
    {
        let wake = work.len() > 0;
        let ghost before = self.waiting@;
        for item in it: work
            invariant
                self.waiting@ == before + it.seq().take(it.index()),
                self.closed == old(self).closed,
                self.inflight == old(self).inflight,
        {
            self.waiting.push_back(item);
            assert(self.waiting@ =~= before + it.seq().take(it.index() + 1));
        }
        assert(self.waiting@ =~= before + work@);
        assert(self@.waiting =~= old(self)@.waiting + items(work@));
        wake
    }

    /// Take up to `max` items, and at least one, oldest first, and count them
    /// as held by a worker. With nothing waiting: whether more can come.
    pub fn pop_batch(&mut self, max: usize) -> (popped: Popped)
        ensures
            match popped {
                Popped::Batch(batch) => {
                    let take = old(self)@.batch_size(max) as int;
                    &&& old(self)@.waiting.len() > 0
                    &&& batch@.len() > 0
                    &&& items(batch@) == old(self)@.front(take)
                    &&& final(self)@ == old(self)@.after_pop(take)
                },
                Popped::Closed => {
                    &&& old(self)@.waiting.len() == 0
                    &&& old(self)@.closed
                    &&& final(self)@ == old(self)@
                },
                Popped::Wait => {
                    &&& old(self)@.waiting.len() == 0
                    &&& !old(self)@.closed
                    &&& final(self)@ == old(self)@
                },
            },
    {
        if self.waiting.len() == 0 {
            if self.closed {
                return Popped::Closed;
            }
            return Popped::Wait;
        }
        let ghost before = self.waiting@;
        let most = if max == 0 { 1 } else { max };
        let take = if self.waiting.len() < most { self.waiting.len() } else { most };
        let mut batch: Vec<WorkItem> = Vec::new();
        while batch.len() < take
            invariant
                take <= before.len(),
                batch@.len() <= take,
                batch@ == before.take(batch@.len() as int),
                self.waiting@ == before.skip(batch@.len() as int),
                self.closed == old(self).closed,
                self.inflight == old(self).inflight,
            decreases take - batch@.len(),
        {
            let ghost n = batch@.len() as int;
            match self.waiting.pop_front() {
                Some(item) => {
                    batch.push(item);
                    assert(batch@ =~= before.take(n + 1));
                    assert(self.waiting@ =~= before.skip(n + 1));
                },
                None => {},
            }
        }
        self.inflight = self.inflight.wrapping_add(take);
        assert(items(batch@) =~= items(before).take(take as int));
        assert(self@.waiting =~= items(before).skip(take as int));
        Popped::Batch(batch)
    }

    /// No more work will come: parked workers are to be woken.
    pub fn close(&mut self)
        ensures
            final(self)@ == (QueueView { closed: true, ..old(self)@ }),
    {
        self.closed = true;
    }

    /// Drain every remaining item from the queue. Intended for the
    /// last-wrapper-retirement path so stranded items can be rerouted.
    pub fn drain_all(&mut self) -> (stranded: Vec<WorkItem>)
        ensures
            items(stranded@) == old(self)@.waiting,
            final(self)@ == (QueueView { waiting: Seq::empty(), ..old(self)@ }),
    {
        let ghost before = self.waiting@;
        let mut stranded: Vec<WorkItem> = Vec::new();
        while self.waiting.len() > 0
            invariant
                stranded@.len() <= before.len(),
                stranded@ == before.take(stranded@.len() as int),
                self.waiting@ == before.skip(stranded@.len() as int),
                self.closed == old(self).closed,
                self.inflight == old(self).inflight,
            decreases self.waiting@.len(),
        {
            let ghost n = stranded@.len() as int;
            match self.waiting.pop_front() {
                Some(item) => {
                    stranded.push(item);
                    assert(stranded@ =~= before.take(n + 1));
                    assert(self.waiting@ =~= before.skip(n + 1));
                },
                None => {},
            }
        }
        assert(stranded@ =~= before);
        assert(self@.waiting =~= Seq::<ItemView>::empty());
        stranded
    }

    /// A worker is done with `n` items.
    pub fn note_completed(&mut self, n: usize)
        ensures
            final(self)@ == old(self)@.after_completed(n),
    {
        self.inflight = self.inflight.wrapping_sub(n);
    }

    /// How many items the server's workers hold.
    pub fn depth(&self) -> (depth: usize)
        ensures
            depth == self@.inflight,
    {
        self.inflight
    }

    /// How many items wait in the queue.
    pub fn backlog(&self) -> (count: usize)
        ensures
            count == self@.waiting.len(),
    {
        self.waiting.len()
    }

    /// How many items the server has on its hands: those that wait, and those
    /// that its workers hold.
    pub fn load(&self) -> (load: usize)
        ensures
            load == (if self@.waiting.len() + self@.inflight > usize::MAX {
                usize::MAX
            } else {
                (self@.waiting.len() + self@.inflight) as usize
            }),
    {
        self.waiting.len().saturating_add(self.inflight)
    }
}

} // verus!
