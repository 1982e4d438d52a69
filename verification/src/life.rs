//! A worker's whole life: whatever happens in whatever order, each item that it
//! takes off its server's queue is reported once, it never has more than its
//! depth at a time, and in the end the queue's depth is as if it had never been
//! there.

use vstd::multiset::Multiset;
use vstd::prelude::*;

use crate::article::ItemView;
use crate::flow::lemma_no_keys;
use crate::outcome::SchedulerMsg;
use crate::pass::{keys, lemma_keys_add, ItemKey};
use crate::queue::QueueView;
use crate::scheduler::{message_items, message_server};

verus! {

/// A worker with its server's queue: what it holds, whether it is connected,
/// what it has taken so far, the messages that it has sent, and how often it
/// has exited. `others` is what the queue's depth would be without this worker.
pub struct Life {
    pub server: usize,
    pub depth: u8,
    pub queue: QueueView,
    pub others: int,
    pub held: Seq<ItemView>,
    pub connected: bool,
    pub taken: Multiset<ItemKey>,
    pub sent: Seq<SchedulerMsg>,
    pub exits: nat,
}

/// Something that happens in a worker's life.
pub enum LifeStep {
    /// The scheduler and the server's other workers change the queue; its depth
    /// goes up by `effect`, or down.
    Others { waiting: Seq<ItemView>, closed: bool, effect: int },
    /// The worker takes what it has room for off the queue.
    Take,
    /// The connection is up.
    Connected,
    /// The connection attempt failed: the batch goes back with this message.
    ConnectFailed(SchedulerMsg),
    /// The item at `at` of what the worker holds is reported with this message.
    Report { at: int, msg: SchedulerMsg },
    /// The connection is gone.
    Disconnected,
    /// The worker exits, with so many workers remaining. The last one takes
    /// what waits in the queue back with this message, if anything does.
    Exit { remaining: usize, stranded: Option<SchedulerMsg> },
}

/// A number as a counter of machine size shows it.
pub open spec fn counter(n: int) -> usize {
    (n % (usize::MAX + 1)) as usize
}

/// The keys of the items that messages are about.
pub open spec fn sent_keys(sent: Seq<SchedulerMsg>) -> Multiset<ItemKey>
    decreases sent.len(),
{
    if sent.len() == 0 {
        Multiset::empty()
    } else {
        sent_keys(sent.drop_last()).add(keys(message_items(sent.last())))
    }
}

/// How much others have raised the queue's depth.
pub open spec fn effect_of_others(steps: Seq<LifeStep>) -> int
    decreases steps.len(),
{
    if steps.len() == 0 {
        0
    } else {
        effect_of_others(steps.drop_last()) + match steps.last() {
            LifeStep::Others { effect, .. } => effect,
            _ => 0,
        }
    }
}

impl Life {
    /// The start, with nothing taken.
    pub open spec fn initial(self) -> bool {
        &&& self.depth > 0
        &&& self.others == self.queue.inflight
        &&& self.held.len() == 0
        &&& !self.connected
        &&& self.taken == Multiset::<ItemKey>::empty()
        &&& self.sent.len() == 0
        &&& self.exits == 0
    }

    /// The step can happen.
    pub open spec fn allows(self, step: LifeStep) -> bool {
        match step {
            LifeStep::Others { .. } => true,
            LifeStep::Take => self.exits == 0 && (self.connected || self.held.len() == 0),
            LifeStep::Connected => self.exits == 0 && !self.connected && self.held.len() > 0,
            LifeStep::ConnectFailed(msg) => {
                &&& !self.connected
                &&& self.held.len() > 0
                &&& msg is ReturnUnattempted
                &&& message_items(msg) == self.held
                &&& message_server(msg) == self.server
            },
            LifeStep::Report { at, msg } => {
                &&& self.connected
                &&& 0 <= at < self.held.len()
                &&& msg is FetchResult
                &&& message_items(msg) == seq![self.held[at]]
                &&& message_server(msg) == self.server
            },
            LifeStep::Disconnected => self.held.len() == 0,
            LifeStep::Exit { remaining, stranded } => {
                &&& self.exits == 0
                &&& self.held.len() == 0
                &&& stranded is Some <==> remaining == 0 && self.queue.waiting.len() > 0
                &&& stranded matches Some(msg) ==> msg is ReturnUnattempted && message_items(msg)
                    == self.queue.waiting && message_server(msg) == self.server
            },
        }
    }

    /// What the step does.
    pub open spec fn after(self, step: LifeStep) -> Life {
        match step {
            LifeStep::Others { waiting, closed, effect } => Life {
                queue: QueueView { waiting, closed, inflight: counter(self.queue.inflight + effect) },
                others: self.others + effect,
                ..self
            },
            LifeStep::Take => {
                let take = self.queue.top_up_size(self.depth as nat, self.held.len()) as int;
                Life {
                    queue: self.queue.after_pop(take),
                    held: self.held + self.queue.front(take),
                    taken: self.taken.add(keys(self.queue.front(take))),
                    ..self
                }
            },
            LifeStep::Connected => Life { connected: true, ..self },
            LifeStep::ConnectFailed(msg) => Life {
                queue: self.queue.after_completed(self.held.len() as usize),
                held: Seq::empty(),
                sent: self.sent.push(msg),
                ..self
            },
            LifeStep::Report { at, msg } => Life {
                queue: self.queue.after_completed(1),
                held: self.held.remove(at),
                sent: self.sent.push(msg),
                ..self
            },
            LifeStep::Disconnected => Life { connected: false, ..self },
            LifeStep::Exit { remaining, stranded } => Life {
                queue: if remaining == 0 {
                    QueueView { waiting: Seq::empty(), closed: true, ..self.queue }
                } else {
                    self.queue
                },
                taken: match stranded {
                    Some(msg) => self.taken.add(keys(message_items(msg))),
                    None => self.taken,
                },
                sent: match stranded {
                    Some(msg) => self.sent.push(msg),
                    None => self.sent,
                },
                exits: self.exits + 1,
                ..self
            },
        }
    }

    /// The steps can happen one after the other.
    pub open spec fn allows_all(self, steps: Seq<LifeStep>) -> bool
        decreases steps.len(),
    {
        steps.len() == 0 || (self.allows_all(steps.drop_last()) && self.after_all(
            steps.drop_last(),
        ).allows(steps.last()))
    }

    /// What the steps do, one after the other.
    pub open spec fn after_all(self, steps: Seq<LifeStep>) -> Life
        decreases steps.len(),
    {
        if steps.len() == 0 {
            self
        } else {
            self.after_all(steps.drop_last()).after(steps.last())
        }
    }

    /// Every item that was taken is held, or was reported, once; the worker
    /// holds no more than its depth, and what it holds is what it adds to the
    /// queue's depth; it exits once, and holds nothing then.
    pub open spec fn in_order(self) -> bool {
        &&& self.held.len() <= self.depth
        &&& self.taken == keys(self.held).add(sent_keys(self.sent))
        &&& self.queue.inflight == counter(self.others + self.held.len())
        &&& self.exits <= 1
        &&& self.exits == 1 ==> self.held.len() == 0
    }

    /// Every message is from the worker's server, and is about one item that
    /// was attempted, or about a batch that was not.
    pub open spec fn well_reported(self) -> bool {
        forall|i: int|
            0 <= i < self.sent.len() ==> message_server(#[trigger] self.sent[i]) == self.server
                && message_items(self.sent[i]).len() > 0 && (self.sent[i] is FetchResult
                ==> message_items(self.sent[i]).len() == 1)
    }
}

/// Adding to a counter, and taking from it, shows in it.
proof fn lemma_counter(n: int, k: usize)
    ensures
        counter(n).wrapping_add(k) == counter(n + k),
        counter(n).wrapping_sub(k) == counter(n - k),
{
    let m = usize::MAX + 1;
    let (q, r) = (n / m, n % m);
    vstd::arithmetic::div_mod::lemma_fundamental_div_mod(n, m);
    assert(n == q * m + r) by (nonlinear_arith)
        requires
            n == m * q + r,
    ;
    assert((q + 1) * m == q * m + m) by (nonlinear_arith);
    assert((q - 1) * m == q * m - m) by (nonlinear_arith);
    if r + k < m {
        vstd::arithmetic::div_mod::lemma_fundamental_div_mod_converse(n + k, m, q, r + k);
    } else {
        vstd::arithmetic::div_mod::lemma_fundamental_div_mod_converse(n + k, m, q + 1, r + k - m);
    }
    if r - k >= 0 {
        vstd::arithmetic::div_mod::lemma_fundamental_div_mod_converse(n - k, m, q, r - k);
    } else {
        vstd::arithmetic::div_mod::lemma_fundamental_div_mod_converse(n - k, m, q - 1, r - k + m);
    }
}

/// Adding before and after counting comes to the same.
proof fn lemma_counter_add(n: int, k: int)
    ensures
        counter(counter(n) + k) == counter(n + k),
{
    let m = usize::MAX + 1;
    vstd::arithmetic::div_mod::lemma_add_mod_noop(n, k, m);
    vstd::arithmetic::div_mod::lemma_add_mod_noop(n % m, k, m);
    vstd::arithmetic::div_mod::lemma_mod_twice(n, m);
}

/// A small number is shown as it is.
proof fn lemma_counter_small(n: usize)
    ensures
        counter(n as int) == n,
{
    vstd::arithmetic::div_mod::lemma_small_mod(n as nat, (usize::MAX + 1) as nat);
}

/// One more message adds the keys of its items.
proof fn lemma_sent_push(sent: Seq<SchedulerMsg>, msg: SchedulerMsg)
    ensures
        sent_keys(sent.push(msg)) == sent_keys(sent).add(keys(message_items(msg))),
{
    assert(sent.push(msg).drop_last() =~= sent);
}

/// Whatever happens next in a worker's life, it stays in order.
pub proof fn law_every_step_of_a_worker_is_in_order(life: Life, step: LifeStep)
    requires
        life.in_order(),
        life.well_reported(),
        life.allows(step),
    ensures
        life.after(step).in_order(),
        life.after(step).well_reported(),
{
    broadcast use vstd::multiset::group_multiset_axioms;

    let next = life.after(step);
    match step {
        LifeStep::Others { effect, .. } => {
            lemma_counter_add(life.others + life.held.len(), effect);
        },
        LifeStep::Take => {
            let take = life.queue.top_up_size(life.depth as nat, life.held.len()) as int;
            lemma_counter(life.others + life.held.len(), take as usize);
            lemma_keys_add(life.held, life.queue.front(take));
            assert(next.taken =~= keys(next.held).add(sent_keys(next.sent)));
        },
        LifeStep::Connected => {},
        LifeStep::ConnectFailed(msg) => {
            lemma_counter(life.others + life.held.len(), life.held.len() as usize);
            lemma_sent_push(life.sent, msg);
            lemma_no_keys(next.held);
            assert(next.taken =~= keys(next.held).add(sent_keys(next.sent)));
        },
        LifeStep::Report { at, msg } => {
            lemma_counter(life.others + life.held.len(), 1);
            lemma_sent_push(life.sent, msg);
            let (head, tail) = (life.held.take(at), life.held.skip(at + 1));
            let one = seq![life.held[at]];
            assert(life.held =~= (head + one) + tail);
            assert(next.held =~= head + tail);
            lemma_keys_add(head + one, tail);
            lemma_keys_add(head, one);
            lemma_keys_add(head, tail);
            assert(next.taken =~= keys(next.held).add(sent_keys(next.sent)));
        },
        LifeStep::Disconnected => {},
        LifeStep::Exit { remaining, stranded } => {
            if let Some(msg) = stranded {
                lemma_sent_push(life.sent, msg);
                assert(next.taken =~= keys(next.held).add(sent_keys(next.sent)));
            }
        },
    }
}

/// Over a worker's whole life, whatever happens in whatever order: it never
/// holds more than its depth; every item that it has taken off the queue is
/// held, or was reported in one message; and once it has exited, which it does
/// once, all of them were reported, and its effect on the queue's depth is
/// nil.
pub proof fn law_worker_reports_every_item_once(start: Life, steps: Seq<LifeStep>)
    requires
        start.initial(),
        start.allows_all(steps),
    ensures
        start.after_all(steps).in_order(),
        start.after_all(steps).well_reported(),
        start.after_all(steps).others == start.queue.inflight + effect_of_others(steps),
        ({
            let end = start.after_all(steps);
            end.exits > 0 ==> {
                &&& end.exits == 1
                &&& end.taken == sent_keys(end.sent)
                &&& end.queue.inflight == counter(
                    start.queue.inflight + effect_of_others(steps),
                )
            }
        }),
    decreases steps.len(),
{
    if steps.len() == 0 {
        lemma_no_keys(start.held);
        lemma_counter_small(start.queue.inflight);
        assert(start.taken =~= keys(start.held).add(sent_keys(start.sent)));
    } else {
        law_worker_reports_every_item_once(start, steps.drop_last());
        law_every_step_of_a_worker_is_in_order(start.after_all(steps.drop_last()), steps.last());
    }
    let end = start.after_all(steps);
    if end.exits > 0 {
        lemma_no_keys(end.held);
        assert(end.taken =~= sent_keys(end.sent));
    }
}

/// A worker that is connected and has room takes items where some are waiting,
/// whether or not its requests are answered.
pub proof fn law_connected_worker_is_never_idle(life: Life)
    requires
        life.in_order(),
        life.connected,
        life.exits == 0,
        life.held.len() < life.depth,
        life.queue.waiting.len() > 0,
    ensures
        life.allows(LifeStep::Take),
        life.after(LifeStep::Take).held.len() > life.held.len(),
        ({
            let next = life.after(LifeStep::Take);
            next.held.len() == next.depth || next.queue.waiting.len() == 0
        }),
{
}

} // verus!
