//! Where items are: every item that was submitted is pending, waits in one
//! server's queue, is in the hands of a worker, or was resolved by exactly
//! one outcome, whatever the order in which things happen.

use vstd::multiset::Multiset;
use vstd::prelude::*;

use crate::article::{items, FileView, ItemView, JobView, LedgerView};
use crate::dispatch::ServerStatus;
use crate::outcome::{OutcomeView, SchedulerMsg};
use crate::pass::{
    batch_keys, held, key, keys, law_dispatch_keeps_every_item, law_dispatch_respects_caps,
    lemma_keys_add, lemma_keys_push, lemma_run_fits, ItemKey,
};
use crate::scheduler::{cancelled, exhausted, message_items, message_server, LoopEvent, SchedulerView};

verus! {

/// The whole driver: the scheduler, the files and jobs as they were entered in
/// its ledger, what waits in each server's queue, what its workers hold, in
/// the order in which they took it, what was submitted, and what was emitted
/// for whom.
pub struct Flow {
    pub scheduler: SchedulerView,
    pub entered: LedgerView,
    pub waiting: Seq<Seq<ItemView>>,
    pub held: Seq<Seq<ItemView>>,
    pub submitted: Multiset<ItemKey>,
    pub emitted: Seq<(ItemKey, OutcomeView)>,
}

/// Something that happens in the driver.
pub enum FlowStep {
    /// A file is entered in the ledger.
    AddFile(FileView),
    /// A job is entered in the ledger.
    AddJob(JobView),
    /// The scheduler handles an event, such as the submission of items.
    Event(LoopEvent),
    /// The scheduler runs a dispatch pass, and its batches go on the queues.
    Dispatch {
        status: Seq<ServerStatus>,
        depths: Seq<usize>,
        waiting: Seq<usize>,
        now: nat,
    },
    /// A worker of the server at position `server` takes `take` items.
    Pop { server: int, take: int },
    /// The message of a worker about items that it holds reaches the scheduler.
    /// They stand one behind the other, from `at` on, in what the workers of
    /// its server hold.
    Message { msg: SchedulerMsg, at: int, status: Seq<ServerStatus>, loads: Seq<usize> },
    /// The pending items are cancelled.
    Cancel,
}

/// The queues after each got its batch.
pub open spec fn pushed(
    waiting: Seq<Seq<ItemView>>,
    batches: Seq<Seq<ItemView>>,
) -> Seq<Seq<ItemView>> {
    Seq::new(waiting.len(), |k: int| waiting[k] + batches[k])
}

/// The keys of the items that outcomes were emitted for.
pub open spec fn resolved(emitted: Seq<(ItemKey, OutcomeView)>) -> Multiset<ItemKey> {
    emitted.map_values(|e: (ItemKey, OutcomeView)| e.0).to_multiset()
}

impl Flow {
    /// The start, with nothing submitted.
    pub open spec fn initial(self) -> bool {
        &&& self.consistent()
        &&& self.entered == self.scheduler.ledger
        &&& self.scheduler.pending.len() == 0
        &&& forall|k: int| 0 <= k < self.waiting.len() ==> #[trigger] self.waiting[k].len() == 0
        &&& forall|k: int| 0 <= k < self.held.len() ==> #[trigger] self.held[k].len() == 0
        &&& self.submitted == Multiset::<ItemKey>::empty()
        &&& self.emitted.len() == 0
    }

    /// The scheduler is well formed, and there is a queue for each server.
    pub open spec fn consistent(self) -> bool {
        &&& self.scheduler.well_formed()
        &&& self.waiting.len() == self.scheduler.servers.len()
        &&& self.held.len() == self.scheduler.servers.len()
    }

    /// The items of the message are those that its server's workers hold from
    /// `at` on.
    pub open spec fn holds(self, msg: SchedulerMsg, at: int) -> bool {
        let held = self.held[message_server(msg) as int];
        let end = at + message_items(msg).len();
        0 <= at && end <= held.len() && held.subrange(at, end) == message_items(msg)
    }

    /// The step can happen.
    pub open spec fn allows(self, step: FlowStep) -> bool {
        match step {
            FlowStep::AddFile(_) => true,
            FlowStep::AddJob(_) => true,
            FlowStep::Event(event) => event matches LoopEvent::Work(work)
                ==> self.scheduler.ledger.knows_all(items(work@)),
            FlowStep::Dispatch { status, depths, waiting, now } => self.scheduler.setting(
                status,
                depths,
                waiting,
                now,
            ).fits(self.scheduler.pass()),
            FlowStep::Pop { server, take } => 0 <= server < self.waiting.len() && 0 <= take
                <= self.waiting[server].len(),
            FlowStep::Message { msg, at, status, loads } => {
                &&& self.scheduler.expects(msg)
                &&& status.len() == self.scheduler.servers.len()
                &&& loads.len() == self.scheduler.servers.len()
                &&& self.holds(msg, at)
            },
            FlowStep::Cancel => true,
        }
    }

    /// What the step does.
    pub open spec fn after(self, step: FlowStep) -> Flow {
        match step {
            FlowStep::AddFile(file) => Flow {
                scheduler: SchedulerView {
                    ledger: LedgerView {
                        files: self.scheduler.ledger.files.push(file),
                        ..self.scheduler.ledger
                    },
                    ..self.scheduler
                },
                entered: LedgerView { files: self.entered.files.push(file), ..self.entered },
                ..self
            },
            FlowStep::AddJob(job) => Flow {
                scheduler: SchedulerView {
                    ledger: LedgerView {
                        jobs: self.scheduler.ledger.jobs.push(job),
                        ..self.scheduler.ledger
                    },
                    ..self.scheduler
                },
                entered: LedgerView { jobs: self.entered.jobs.push(job), ..self.entered },
                ..self
            },
            FlowStep::Event(event) => Flow {
                scheduler: self.scheduler.after_event(event),
                submitted: match event {
                    LoopEvent::Work(work) => self.submitted.add(keys(items(work@))),
                    _ => self.submitted,
                },
                ..self
            },
            FlowStep::Dispatch { status, depths, waiting, now } => {
                let setting = self.scheduler.setting(status, depths, waiting, now);
                let end = setting.run(self.scheduler.pass());
                Flow {
                    scheduler: SchedulerView {
                        ledger: end.ledger,
                        pending: end.pending,
                        retry: end.retry,
                        ..self.scheduler
                    },
                    waiting: pushed(self.waiting, end.batches),
                    emitted: self.emitted + end.given_up.map_values(
                        |item: ItemView| (key(item), exhausted(item)),
                    ),
                    ..self
                }
            },
            FlowStep::Pop { server, take } => Flow {
                waiting: self.waiting.update(server, self.waiting[server].skip(take)),
                held: self.held.update(
                    server,
                    self.held[server] + self.waiting[server].take(take),
                ),
                ..self
            },
            FlowStep::Message { msg, at, status, loads } => {
                let s = message_server(msg) as int;
                let end = at + message_items(msg).len();
                let (scheduler, outcome) = self.scheduler.after_message(msg, status, loads);
                Flow {
                    scheduler,
                    held: self.held.update(s, self.held[s].take(at) + self.held[s].skip(end)),
                    emitted: match outcome {
                        Some(o) => self.emitted.push((key(message_items(msg)[0]), o)),
                        None => self.emitted,
                    },
                    ..self
                }
            },
            FlowStep::Cancel => Flow {
                scheduler: SchedulerView { pending: Seq::empty(), ..self.scheduler },
                emitted: self.emitted + self.scheduler.pending.map_values(
                    |item: ItemView| (key(item), cancelled(item)),
                ),
                ..self
            },
        }
    }

    /// The steps can happen one after the other.
    pub open spec fn allows_all(self, steps: Seq<FlowStep>) -> bool
        decreases steps.len(),
    {
        steps.len() == 0 || (self.allows_all(steps.drop_last()) && self.after_all(
            steps.drop_last(),
        ).allows(steps.last()))
    }

    /// What the steps do, one after the other.
    pub open spec fn after_all(self, steps: Seq<FlowStep>) -> Flow
        decreases steps.len(),
    {
        if steps.len() == 0 {
            self
        } else {
            self.after_all(steps.drop_last()).after(steps.last())
        }
    }

    /// Every submitted item is in exactly one place.
    pub open spec fn accounted_for(self) -> bool {
        self.submitted == keys(self.scheduler.pending).add(batch_keys(self.waiting)).add(
            batch_keys(self.held),
        ).add(resolved(self.emitted))
    }

    /// Every outcome bears the tag of the item that it was emitted for.
    pub open spec fn tagged(self) -> bool {
        forall|i: int|
            0 <= i < self.emitted.len() ==> (#[trigger] self.emitted[i]).1.tag()
                == self.emitted[i].0.0
    }

    /// Nothing is left to do.
    pub open spec fn idle(self) -> bool {
        &&& self.scheduler.pending.len() == 0
        &&& forall|k: int| 0 <= k < self.waiting.len() ==> #[trigger] self.waiting[k].len() == 0
        &&& forall|k: int| 0 <= k < self.held.len() ==> #[trigger] self.held[k].len() == 0
    }
}

/// No items have no keys.
pub proof fn lemma_no_keys(work: Seq<ItemView>)
    requires
        work.len() == 0,
    ensures
        keys(work) == Multiset::<ItemKey>::empty(),
{
    broadcast use vstd::seq_lib::group_to_multiset_ensures;

    let f = |item: ItemView| key(item);
    assert(work.map_values(f) =~= Seq::<ItemKey>::empty());
    assert(keys(work) =~= Multiset::<ItemKey>::empty());
}

/// Empty batches have no keys.
proof fn lemma_no_batch_keys(batches: Seq<Seq<ItemView>>)
    requires
        forall|k: int| 0 <= k < batches.len() ==> #[trigger] batches[k].len() == 0,
    ensures
        batch_keys(batches) == Multiset::<ItemKey>::empty(),
    decreases batches.len(),
{
    if batches.len() > 0 {
        assert forall|k: int| 0 <= k < batches.drop_last().len() implies #[trigger] batches.drop_last()[k].len()
            == 0 by {
            assert(batches.drop_last()[k] == batches[k]);
        }
        lemma_no_batch_keys(batches.drop_last());
        lemma_no_keys(batches.last());
        assert(batch_keys(batches) =~= Multiset::<ItemKey>::empty());
    }
}

/// Pushing batches on queues adds their keys.
proof fn lemma_pushed_keys(waiting: Seq<Seq<ItemView>>, batches: Seq<Seq<ItemView>>)
    requires
        waiting.len() == batches.len(),
    ensures
        batch_keys(pushed(waiting, batches)) == batch_keys(waiting).add(batch_keys(batches)),
    decreases waiting.len(),
{
    let after = pushed(waiting, batches);
    if waiting.len() > 0 {
        lemma_pushed_keys(waiting.drop_last(), batches.drop_last());
        assert(after.drop_last() =~= pushed(waiting.drop_last(), batches.drop_last()));
        lemma_keys_add(waiting.last(), batches.last());
    }
    assert(batch_keys(after) =~= batch_keys(waiting).add(batch_keys(batches)));
}

/// Taking items off one queue takes their keys.
proof fn lemma_popped_keys(waiting: Seq<Seq<ItemView>>, server: int, take: int)
    requires
        0 <= server < waiting.len(),
        0 <= take <= waiting[server].len(),
    ensures
        batch_keys(waiting) == batch_keys(
            waiting.update(server, waiting[server].skip(take)),
        ).add(keys(waiting[server].take(take))),
    decreases waiting.len(),
{
    let after = waiting.update(server, waiting[server].skip(take));
    assert(waiting[server] =~= waiting[server].take(take) + waiting[server].skip(take));
    lemma_keys_add(waiting[server].take(take), waiting[server].skip(take));
    if server == waiting.len() - 1 {
        assert(after.drop_last() =~= waiting.drop_last());
    } else {
        lemma_popped_keys(waiting.drop_last(), server, take);
        assert(after.drop_last() =~= waiting.drop_last().update(
            server,
            waiting.drop_last()[server].skip(take),
        ));
    }
    assert(batch_keys(waiting) =~= batch_keys(after).add(keys(waiting[server].take(take))));
}

/// Appending items to one batch adds their keys.
proof fn lemma_appended_keys(held: Seq<Seq<ItemView>>, server: int, taken: Seq<ItemView>)
    requires
        0 <= server < held.len(),
    ensures
        batch_keys(held.update(server, held[server] + taken)) == batch_keys(held).add(keys(taken)),
    decreases held.len(),
{
    let after = held.update(server, held[server] + taken);
    lemma_keys_add(held[server], taken);
    if server == held.len() - 1 {
        assert(after.drop_last() =~= held.drop_last());
    } else {
        lemma_appended_keys(held.drop_last(), server, taken);
        assert(after.drop_last() =~= held.drop_last().update(
            server,
            held.drop_last()[server] + taken,
        ));
    }
    assert(batch_keys(after) =~= batch_keys(held).add(keys(taken)));
}

/// Cutting items out of one batch takes their keys.
proof fn lemma_cut_keys(held: Seq<Seq<ItemView>>, server: int, at: int, end: int)
    requires
        0 <= server < held.len(),
        0 <= at <= end <= held[server].len(),
    ensures
        batch_keys(held) == batch_keys(
            held.update(server, held[server].take(at) + held[server].skip(end)),
        ).add(keys(held[server].subrange(at, end))),
    decreases held.len(),
{
    let s = held[server];
    let (head, middle, tail) = (s.take(at), s.subrange(at, end), s.skip(end));
    let after = held.update(server, head + tail);
    assert(s =~= head + (middle + tail));
    lemma_keys_add(head, middle + tail);
    lemma_keys_add(middle, tail);
    lemma_keys_add(head, tail);
    if server == held.len() - 1 {
        assert(after.drop_last() =~= held.drop_last());
    } else {
        lemma_cut_keys(held.drop_last(), server, at, end);
        assert(after.drop_last() =~= held.drop_last().update(
            server,
            held.drop_last()[server].take(at) + held.drop_last()[server].skip(end),
        ));
    }
    assert(batch_keys(held) =~= batch_keys(after).add(keys(middle)));
}

/// Outcomes for a sequence of items resolve their keys.
proof fn lemma_resolved_add(
    emitted: Seq<(ItemKey, OutcomeView)>,
    work: Seq<ItemView>,
    outcome: spec_fn(ItemView) -> OutcomeView,
)
    ensures
        resolved(
            emitted + work.map_values(|item: ItemView| (key(item), outcome(item))),
        ) == resolved(emitted).add(keys(work)),
{
    let more = work.map_values(|item: ItemView| (key(item), outcome(item)));
    let first = |e: (ItemKey, OutcomeView)| e.0;
    let f = |item: ItemView| key(item);
    assert((emitted + more).map_values(first) =~= emitted.map_values(first) + work.map_values(f));
    vstd::seq_lib::lemma_multiset_commutative(emitted.map_values(first), work.map_values(f));
}

/// A message's items are afterwards pending, or resolved by the outcome that
/// bears the tag.
proof fn lemma_message_keeps_items(
    scheduler: SchedulerView,
    msg: SchedulerMsg,
    status: Seq<ServerStatus>,
    loads: Seq<usize>,
)
    ensures
        match scheduler.after_message(msg, status, loads) {
            (after, Some(o)) => {
                &&& after.pending == scheduler.pending
                &&& message_items(msg).len() == 1
                &&& o.tag() == message_items(msg)[0].tag
            },
            (after, None) => keys(after.pending) == keys(scheduler.pending).add(
                keys(message_items(msg)),
            ),
        },
{
    let f = |item: ItemView| key(item);
    let work = message_items(msg);
    match msg {
        SchedulerMsg::FetchResult { item, server, result } => {
            match result {
                Ok(_) => {},
                Err(err) => {
                    let failed = item@.after_failure(
                        scheduler.servers[server as int].id@,
                        !(err is ArticleNotFound),
                    );
                    lemma_keys_push(scheduler.pending, failed);
                    lemma_no_keys(Seq::empty());
                    lemma_keys_push(Seq::empty(), item@);
                    assert(Seq::<ItemView>::empty().push(item@) =~= work);
                    assert(keys(scheduler.pending).insert(key(failed)) =~= keys(
                        scheduler.pending,
                    ).add(keys(work)));
                },
            }
        },
        SchedulerMsg::ReturnUnattempted { items: returned, server, .. } => {
            let id = scheduler.servers[server as int].id@;
            let back = work.map_values(|item: ItemView| item.after_failure(id, true));
            assert(back.map_values(f) =~= work.map_values(f));
            lemma_keys_add(scheduler.pending, back);
        },
    }
}

/// Whatever happens next, the driver stays consistent, no submitted item is
/// lost and none is resolved twice, and outcomes bear their items' tags.
pub proof fn law_every_step_accounts_for_every_item(flow: Flow, step: FlowStep)
    requires
        flow.consistent(),
        flow.accounted_for(),
        flow.tagged(),
        flow.allows(step),
    ensures
        flow.after(step).consistent(),
        flow.after(step).accounted_for(),
        flow.after(step).tagged(),
{
    broadcast use vstd::multiset::group_multiset_axioms;

    let next = flow.after(step);
    match step {
        FlowStep::AddFile(_) => {},
        FlowStep::AddJob(_) => {},
        FlowStep::Event(event) => {
            if let LoopEvent::Work(submitted) = event {
                let work = items(submitted@);
                lemma_keys_add(flow.scheduler.pending, work);
                let pending = next.scheduler.pending;
                assert forall|i: int| 0 <= i < pending.len() implies next.scheduler.ledger.knows(
                    #[trigger] pending[i],
                ) by {
                    if i < flow.scheduler.pending.len() {
                        assert(pending[i] == flow.scheduler.pending[i]);
                    } else {
                        assert(pending[i] == work[i - flow.scheduler.pending.len()]);
                    }
                }
                assert(next.submitted =~= keys(pending).add(batch_keys(next.waiting)).add(
                    batch_keys(next.held),
                ).add(resolved(next.emitted)));
            }
        },
        FlowStep::Dispatch { status, depths, waiting, now } => {
            let setting = flow.scheduler.setting(status, depths, waiting, now);
            let start = flow.scheduler.pass();
            let end = setting.run(start);
            lemma_run_fits(setting, start);
            law_dispatch_keeps_every_item(setting, start);
            lemma_no_keys(start.given_up);
            lemma_no_batch_keys(start.batches);
            lemma_pushed_keys(flow.waiting, end.batches);
            lemma_resolved_add(flow.emitted, end.given_up, |item: ItemView| exhausted(item));
            assert(next.emitted =~= flow.emitted + end.given_up.map_values(
                |item: ItemView| (key(item), (|item: ItemView| exhausted(item))(item)),
            ));
            assert(held(start) =~= keys(flow.scheduler.pending));
            assert(next.submitted =~= keys(next.scheduler.pending).add(
                batch_keys(next.waiting),
            ).add(batch_keys(next.held)).add(resolved(next.emitted)));
        },
        FlowStep::Pop { server, take } => {
            let taken = flow.waiting[server].take(take);
            lemma_popped_keys(flow.waiting, server, take);
            lemma_appended_keys(flow.held, server, taken);
            assert(next.submitted =~= keys(next.scheduler.pending).add(
                batch_keys(next.waiting),
            ).add(batch_keys(next.held)).add(resolved(next.emitted)));
        },
        FlowStep::Message { msg, at, status, loads } => {
            let work = message_items(msg);
            lemma_message_keeps_items(flow.scheduler, msg, status, loads);
            lemma_message_keeps_consistent(flow.scheduler, msg, status, loads);
            lemma_cut_keys(flow.held, message_server(msg) as int, at, at + work.len());
            if let Some(o) = flow.scheduler.after_message(msg, status, loads).1 {
                lemma_no_keys(Seq::empty());
                lemma_keys_push(Seq::empty(), work[0]);
                assert(Seq::<ItemView>::empty().push(work[0]) =~= work);
                lemma_resolved_push(flow.emitted, key(work[0]), o);
            }
            assert(next.submitted =~= keys(next.scheduler.pending).add(
                batch_keys(next.waiting),
            ).add(batch_keys(next.held)).add(resolved(next.emitted)));
        },
        FlowStep::Cancel => {
            lemma_no_keys(next.scheduler.pending);
            lemma_resolved_add(
                flow.emitted,
                flow.scheduler.pending,
                |item: ItemView| cancelled(item),
            );
            assert(next.emitted =~= flow.emitted + flow.scheduler.pending.map_values(
                |item: ItemView| (key(item), (|item: ItemView| cancelled(item))(item)),
            ));
            assert(next.submitted =~= keys(next.scheduler.pending).add(
                batch_keys(next.waiting),
            ).add(batch_keys(next.held)).add(resolved(next.emitted)));
        },
    }
}

/// One more outcome resolves its item's key.
proof fn lemma_resolved_push(emitted: Seq<(ItemKey, OutcomeView)>, k: ItemKey, o: OutcomeView)
    ensures
        resolved(emitted.push((k, o))) == resolved(emitted).insert(k),
{
    broadcast use vstd::seq_lib::group_to_multiset_ensures;

    let first = |e: (ItemKey, OutcomeView)| e.0;
    assert(emitted.push((k, o)).map_values(first) =~= emitted.map_values(first).push(k));
}

/// A message leaves the scheduler well formed.
proof fn lemma_message_keeps_consistent(
    scheduler: SchedulerView,
    msg: SchedulerMsg,
    status: Seq<ServerStatus>,
    loads: Seq<usize>,
)
    requires
        scheduler.well_formed(),
        scheduler.expects(msg),
    ensures
        scheduler.after_message(msg, status, loads).0.well_formed(),
        scheduler.after_message(msg, status, loads).0.servers == scheduler.servers,
{
    let work = message_items(msg);
    let after = scheduler.after_message(msg, status, loads).0;
    if let SchedulerMsg::ReturnUnattempted { items: _, server, .. } = msg {
        let id = scheduler.servers[server as int].id@;
        crate::scheduler::lemma_return_keeps_size(scheduler.ledger, work, id, work.len() as int);
    } else {
        assert(scheduler.ledger.knows(work[0]));
    }
    assert forall|i: int| 0 <= i < after.pending.len() implies after.ledger.knows(
        #[trigger] after.pending[i],
    ) by {
        if i < scheduler.pending.len() {
            assert(after.pending[i] == scheduler.pending[i]);
        } else {
            assert(scheduler.ledger.knows(work[i - scheduler.pending.len()]));
        }
    }
}

/// From the start on, whatever happens in whatever order, every submitted
/// item is in exactly one place.
pub proof fn law_no_item_is_ever_lost(start: Flow, steps: Seq<FlowStep>)
    requires
        start.initial(),
        start.allows_all(steps),
    ensures
        start.after_all(steps).consistent(),
        start.after_all(steps).accounted_for(),
        start.after_all(steps).tagged(),
    decreases steps.len(),
{
    if steps.len() == 0 {
        lemma_no_keys(start.scheduler.pending);
        lemma_no_batch_keys(start.waiting);
        lemma_no_batch_keys(start.held);
        broadcast use vstd::seq_lib::group_to_multiset_ensures;

        let first = |e: (ItemKey, OutcomeView)| e.0;
        assert(start.emitted.map_values(first) =~= Seq::<ItemKey>::empty());
        assert(resolved(start.emitted) =~= Multiset::<ItemKey>::empty());
        assert(start.submitted =~= keys(start.scheduler.pending).add(
            batch_keys(start.waiting),
        ).add(batch_keys(start.held)).add(resolved(start.emitted)));
    } else {
        law_no_item_is_ever_lost(start, steps.drop_last());
        law_every_step_accounts_for_every_item(start.after_all(steps.drop_last()), steps.last());
    }
}

/// Once nothing is pending, waiting or held, every submitted item has been
/// resolved by exactly one outcome.
pub proof fn law_every_item_is_resolved_once(start: Flow, steps: Seq<FlowStep>)
    requires
        start.initial(),
        start.allows_all(steps),
        start.after_all(steps).idle(),
    ensures
        resolved(start.after_all(steps).emitted) == start.after_all(steps).submitted,
{
    law_no_item_is_ever_lost(start, steps);
    let end = start.after_all(steps);
    lemma_no_keys(end.scheduler.pending);
    lemma_no_batch_keys(end.waiting);
    lemma_no_batch_keys(end.held);
    assert(resolved(end.emitted) =~= end.submitted);
}

impl Flow {
    /// A dispatch pass is told how much waits for each server.
    pub open spec fn told_truly(self, step: FlowStep) -> bool {
        match step {
            FlowStep::Dispatch { waiting, .. } => forall|k: int|
                0 <= k < waiting.len() ==> #[trigger] waiting[k] == self.waiting[k].len(),
            _ => true,
        }
    }

    /// So is every one of them.
    pub open spec fn all_told_truly(self, steps: Seq<FlowStep>) -> bool
        decreases steps.len(),
    {
        steps.len() == 0 || (self.all_told_truly(steps.drop_last()) && self.after_all(
            steps.drop_last(),
        ).told_truly(steps.last()))
    }
}

/// Whatever happens next, a server's queue does not outgrow its cap.
pub proof fn law_every_step_keeps_within_the_cap(flow: Flow, step: FlowStep, k: int)
    requires
        flow.consistent(),
        flow.allows(step),
        flow.told_truly(step),
        0 <= k < flow.waiting.len(),
        flow.waiting[k].len() <= flow.scheduler.caps[k],
    ensures
        flow.after(step).waiting[k].len() <= flow.after(step).scheduler.caps[k],
{
    if let FlowStep::Dispatch { status, depths, waiting, now } = step {
        let setting = flow.scheduler.setting(status, depths, waiting, now);
        let start = flow.scheduler.pass();
        lemma_run_fits(setting, start);
        law_dispatch_respects_caps(setting, start, k);
        assert(waiting[k] == flow.waiting[k].len());
    }
}

/// No queue absorbs all pending work: from the start on, whatever happens in
/// whatever order, no more waits in a server's queue than its cap.
pub proof fn law_no_queue_outgrows_its_cap(start: Flow, steps: Seq<FlowStep>, k: int)
    requires
        start.initial(),
        start.allows_all(steps),
        start.all_told_truly(steps),
        0 <= k < start.waiting.len(),
    ensures
        start.after_all(steps).scheduler.caps == start.scheduler.caps,
        start.after_all(steps).waiting.len() == start.waiting.len(),
        start.after_all(steps).waiting[k].len() <= start.scheduler.caps[k],
    decreases steps.len(),
{
    if steps.len() > 0 {
        law_no_queue_outgrows_its_cap(start, steps.drop_last(), k);
        law_no_item_is_ever_lost(start, steps.drop_last());
        law_every_step_keeps_within_the_cap(start.after_all(steps.drop_last()), steps.last(), k);
    }
}

} // verus!
