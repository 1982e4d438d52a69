//! The scheduler: owns the pending queue, routes each article to the
//! appropriate server queue, and handles per-article outcomes (success →
//! emit, transient fail → re-queue, give-up → emit failed).
//!
//! It decides; its caller waits for events, moves batches to the queues and
//! sends outcomes.

use vstd::prelude::*;

use crate::article::{items, same_item, ItemView, Ledger, LedgerView, WorkItem};
use crate::config::ServerConfig;
use crate::dispatch::{
    law_selection_follows_the_servers, select_server, usable, Scene, Selection, ServerStatus,
};
use crate::error::{error_text, FetchError};
use crate::outcome::{outcomes, FetchOutcome, OutcomeView, SchedulerMsg};
use crate::pass::{
    earlier, lemma_run_fits, lemma_step_fits, swap_removed, Pass, Setting,
};
use crate::span::{Span, MAX_NANOS, NANOS_PER_MILLI};
use crate::text::joined;

verus! {

/// The scheduler's state.
pub struct Scheduler {
    /// The servers, in order of priority.
    pub servers: Vec<ServerConfig>,
    /// The soft cap on each server's queue.
    pub queue_caps: Vec<usize>,
    /// How many rounds over all servers an item may have after the first.
    pub max_cascades: u32,
    /// The files and jobs that the items belong to.
    pub ledger: Ledger,
    /// Items that wait to be dispatched.
    pub pending: Vec<WorkItem>,
    /// When to dispatch again without another event: nanoseconds since the
    /// start.
    pub next_retry: Option<u128>,
}

/// What a [`Scheduler`] holds.
#[verifier::ext_equal]
pub struct SchedulerView {
    pub servers: Seq<ServerConfig>,
    pub caps: Seq<usize>,
    pub max_cascades: u32,
    pub ledger: LedgerView,
    pub pending: Seq<ItemView>,
    pub retry: Option<u128>,
}

impl View for Scheduler {
    type V = SchedulerView;

    open spec fn view(&self) -> SchedulerView {
        SchedulerView {
            servers: self.servers@,
            caps: self.queue_caps@,
            max_cascades: self.max_cascades,
            ledger: self.ledger@,
            pending: items(self.pending@),
            retry: self.next_retry,
        }
    }
}

impl SchedulerView {
    /// There is a cap for each server, and the ledger knows the pending items.
    pub open spec fn well_formed(self) -> bool {
        self.caps.len() == self.servers.len() && self.servers.len() <= usize::MAX
            && self.ledger.knows_all(self.pending)
    }

    /// The setting of a dispatch pass at this moment.
    pub open spec fn setting(
        self,
        status: Seq<ServerStatus>,
        depths: Seq<usize>,
        waiting: Seq<usize>,
        now: nat,
    ) -> Setting {
        Setting {
            servers: self.servers,
            caps: self.caps,
            status,
            depths,
            waiting,
            now,
            max_cascades: self.max_cascades,
        }
    }

    /// The start of a dispatch pass.
    pub open spec fn pass(self) -> Pass {
        Pass {
            next: 0,
            pending: self.pending,
            ledger: self.ledger,
            batches: Seq::new(self.servers.len(), |k: int| Seq::<ItemView>::empty()),
            given_up: Seq::empty(),
            retry: self.retry,
        }
    }
}

/// The ledger after the first `n` of these items came back from `server`
/// without having been attempted.
pub open spec fn ledger_after_return(
    ledger: LedgerView,
    work: Seq<ItemView>,
    server: Seq<char>,
    n: int,
) -> LedgerView
    decreases n,
{
    if n <= 0 {
        ledger
    } else {
        ledger_after_return(ledger, work, server, n - 1).after_failure(work[n - 1], server)
    }
}

/// The items that a message is about.
pub open spec fn message_items(msg: SchedulerMsg) -> Seq<ItemView> {
    match msg {
        SchedulerMsg::FetchResult { item, .. } => seq![item@],
        SchedulerMsg::ReturnUnattempted { items: work, .. } => items(work@),
    }
}

/// The server that a message comes from.
pub open spec fn message_server(msg: SchedulerMsg) -> usize {
    match msg {
        SchedulerMsg::FetchResult { server, .. } => server,
        SchedulerMsg::ReturnUnattempted { server, .. } => server,
    }
}

impl SchedulerView {
    /// The message is from one of the servers, about items that the ledger
    /// knows.
    pub open spec fn expects(self, msg: SchedulerMsg) -> bool {
        message_server(msg) < self.servers.len() && self.ledger.knows_all(message_items(msg))
    }

    /// An article arrived: it counts for its file and its job, and the caller
    /// gets the bytes.
    pub open spec fn after_success(
        self,
        item: ItemView,
        server: int,
        bytes: Seq<u8>,
    ) -> (SchedulerView, Option<OutcomeView>) {
        (
            SchedulerView { ledger: self.ledger.after_download(item, bytes.len() as u64), ..self },
            Some(
                OutcomeView::Success {
                    tag: item.tag,
                    server_id: self.servers[server].id@,
                    bytes,
                    article_bytes: bytes.len() as u64,
                },
            ),
        )
    }

    /// An article did not arrive: the server is recorded as tried, and the
    /// item goes back to the pending ones, unless no server is left for it.
    pub open spec fn after_failure(
        self,
        item: ItemView,
        server: int,
        err: FetchError,
        status: Seq<ServerStatus>,
        loads: Seq<usize>,
    ) -> (SchedulerView, Option<OutcomeView>) {
        let id = self.servers[server].id@;
        let ledger = self.ledger.after_failure(item, id);
        let failed = item.after_failure(id, !(err is ArticleNotFound));
        let scene = Scene { servers: self.servers, status, loads };
        if scene.selection(ledger, failed, self.max_cascades) is GiveUp {
            (
                SchedulerView { ledger: ledger.after_give_up(failed), ..self },
                Some(OutcomeView::Failed { tag: item.tag, last_error: Some(error_text(err)) }),
            )
        } else {
            (SchedulerView { ledger, pending: self.pending.push(failed), ..self }, None)
        }
    }

    /// Items came back unattempted: the server is recorded as tried for each
    /// of them, and they go back to the pending ones.
    pub open spec fn after_return(self, work: Seq<ItemView>, server: int) -> SchedulerView {
        let id = self.servers[server].id@;
        SchedulerView {
            ledger: ledger_after_return(self.ledger, work, id, work.len() as int),
            pending: self.pending + work.map_values(|item: ItemView| item.after_failure(id, true)),
            ..self
        }
    }

    /// What a message from a worker does, and the outcome that it leads to.
    pub open spec fn after_message(
        self,
        msg: SchedulerMsg,
        status: Seq<ServerStatus>,
        loads: Seq<usize>,
    ) -> (SchedulerView, Option<OutcomeView>) {
        match msg {
            SchedulerMsg::FetchResult { item, server, result: Ok(bytes) } => self.after_success(
                item@,
                server as int,
                bytes@,
            ),
            SchedulerMsg::FetchResult { item, server, result: Err(err) } => self.after_failure(
                item@,
                server as int,
                err,
                status,
                loads,
            ),
            SchedulerMsg::ReturnUnattempted { items: work, server, .. } => (
                self.after_return(items(work@), server as int),
                None,
            ),
        }
    }
}

/// Returned items leave the ledger its size.
pub proof fn lemma_return_keeps_size(
    ledger: LedgerView,
    work: Seq<ItemView>,
    server: Seq<char>,
    n: int,
)
    requires
        ledger.knows_all(work),
        n <= work.len(),
    ensures
        ledger_after_return(ledger, work, server, n).same_size(ledger),
    decreases n,
{
    if n > 0 {
        lemma_return_keeps_size(ledger, work, server, n - 1);
        assert(ledger.knows(work[n - 1]));
    }
}

/// What wakes the scheduler, besides messages from its workers.
pub enum LoopEvent {
    /// The caller wants the driver to stop.
    Shutdown,
    /// Work items were submitted.
    Work(Vec<WorkItem>),
    /// No more work will be submitted.
    WorkClosed,
    /// All workers have exited.
    WorkersGone,
    /// The retry deadline has passed.
    RetryElapsed,
}

impl SchedulerView {
    /// What an event does to the scheduler.
    pub open spec fn after_event(self, event: LoopEvent) -> SchedulerView {
        match event {
            LoopEvent::Work(work) => SchedulerView {
                pending: self.pending + items(work@),
                ..self
            },
            LoopEvent::RetryElapsed => SchedulerView { retry: None, ..self },
            _ => self,
        }
    }

    /// Does the scheduler go on after an event?
    pub open spec fn goes_on(self, event: LoopEvent) -> bool {
        match event {
            LoopEvent::Shutdown => false,
            LoopEvent::Work(_) => true,
            LoopEvent::WorkClosed => self.pending.len() > 0,
            LoopEvent::WorkersGone => false,
            LoopEvent::RetryElapsed => true,
        }
    }
}

/// What a dispatch pass hands out.
pub struct Dispatched {
    /// For each server, what to push on its queue.
    pub batches: Vec<Vec<WorkItem>>,
    /// For each item that was given up on, its outcome.
    pub failed: Vec<FetchOutcome>,
}

/// What a sequence of batches holds.
pub open spec fn batch_items(batches: Seq<Vec<WorkItem>>) -> Seq<Seq<ItemView>> {
    batches.map_values(|batch: Vec<WorkItem>| items(batch@))
}

/// The outcome of an item that no server is left for.
pub open spec fn exhausted(item: ItemView) -> OutcomeView {
    OutcomeView::Failed {
        tag: item.tag,
        last_error: Some("all servers exhausted for "@ + item.article.message_id),
    }
}

/// The outcome of an item that is dropped because the driver shuts down.
pub open spec fn cancelled(item: ItemView) -> OutcomeView {
    OutcomeView::Cancelled { tag: item.tag }
}

/// Move a retry deadline up to `wait` from `now`, unless it is earlier.
pub fn bump_retry(slot: &mut Option<u128>, now: Span, wait: Span)
    ensures
        *final(slot) == earlier(*old(slot), (now@ + wait@) as u128),
        *final(slot) matches Some(t) && t <= now@ + wait@ && (*old(slot) matches Some(o) ==> t <= o)
            && (t == now@ + wait@ || *old(slot) == Some(t)),
{
    let candidate = now.as_nanos() + wait.as_nanos();
    *slot = match *slot {
        Some(existing) => if existing < candidate {
            Some(existing)
        } else {
            Some(candidate)
        },
        None => Some(candidate),
    };
}

impl Scheduler {
    /// A scheduler without work.
    pub fn new(servers: Vec<ServerConfig>, queue_caps: Vec<usize>, max_cascades: u32) -> (s: Self)
        requires
            queue_caps@.len() == servers@.len(),
        ensures
            s@ == (SchedulerView {
                servers: servers@,
                caps: queue_caps@,
                max_cascades,
                ledger: LedgerView { files: Seq::empty(), jobs: Seq::empty() },
                pending: Seq::empty(),
                retry: None,
            }),
            s@.well_formed(),
    {
        let s = Scheduler {
            servers,
            queue_caps,
            max_cascades,
            ledger: Ledger::new(),
            pending: Vec::new(),
            next_retry: None,
        };
        assert(s@.pending =~= Seq::<ItemView>::empty());
        assert(s.servers.len() == s@.servers.len());
        s
    }

    /// Drain pending items into per-server batches: one dispatch pass, given
    /// whether each server takes work, how many items its workers hold, and how
    /// many wait in its queue.
    pub fn dispatch_pending(
        &mut self,
        status: &Vec<ServerStatus>,
        depths: &Vec<usize>,
        waiting: &Vec<usize>,
        now: Span,
    ) -> (out: Dispatched)
        requires
            old(self)@.well_formed(),
            status@.len() == old(self)@.servers.len(),
            depths@.len() == old(self)@.servers.len(),
            waiting@.len() == old(self)@.servers.len(),
            forall|k: int|
                0 <= k < depths@.len() ==> #[trigger] depths@[k] + waiting@[k]
                    + old(self)@.pending.len() <= usize::MAX,
        ensures
            ({
                let setting = old(self)@.setting(status@, depths@, waiting@, now@);
                let end = setting.run(old(self)@.pass());
                &&& final(self)@ == (SchedulerView {
                    ledger: end.ledger,
                    pending: end.pending,
                    retry: end.retry,
                    ..old(self)@
                })
                &&& batch_items(out.batches@) == end.batches
                &&& outcomes(out.failed@) == end.given_up.map_values(
                    |item: ItemView| exhausted(item),
                )
            }),
            final(self)@.well_formed(),
            final(self)@.ledger.same_size(old(self)@.ledger),
            out.batches@.len() == old(self)@.servers.len(),
            ({
                let setting = old(self)@.setting(status@, depths@, waiting@, now@);
                let given_up = setting.run(old(self)@.pass()).given_up;
                &&& out.failed@.len() == given_up.len()
                &&& forall|i: int|
                    0 <= i < out.failed@.len() ==> (#[trigger] out.failed@[i] matches
                        FetchOutcome::Failed { tag, last_error: Some(text) } && tag
                        == given_up[i].tag && text@ == "all servers exhausted for "@
                        + given_up[i].article.message_id)
            }),
    {
        let ghost setting = self@.setting(status@, depths@, waiting@, now@);
        let ghost start = self@.pass();
        let since_start = now.as_nanos();
        assert(now@ == since_start <= MAX_NANOS);
        let n = self.servers.len();
        let mut batches: Vec<Vec<WorkItem>> = Vec::new();
        let mut totals: Vec<usize> = Vec::new();
        let mut give_ups: Vec<WorkItem> = Vec::new();
        while batches.len() < n
            invariant
                n == depths@.len(),
                n == waiting@.len(),
                forall|k: int|
                    0 <= k < n ==> #[trigger] depths@[k] + waiting@[k] <= usize::MAX,
                batches@.len() <= n,
                totals@.len() == batches@.len(),
                forall|k: int| 0 <= k < batches@.len() ==> #[trigger] batches@[k]@.len() == 0,
                forall|k: int|
                    0 <= k < totals@.len() ==> #[trigger] totals@[k] == depths@[k] + waiting@[k],
            decreases n - batches@.len(),
        {
            assert(depths@[batches@.len() as int] + waiting@[batches@.len() as int] <= usize::MAX);
            totals.push(depths[batches.len()] + waiting[batches.len()]);
            batches.push(Vec::new());
        }
        let mut i: usize = 0;
        let ghost mut p = Pass {
            next: i as int,
            pending: items(self.pending@),
            ledger: self.ledger@,
            batches: batch_items(batches@),
            given_up: items(give_ups@),
            retry: self.next_retry,
        };
        proof {
            assert forall|k: int| 0 <= k < n implies #[trigger] p.batches[k] == start.batches[k] by {
                assert(batches@[k]@.len() == 0);
                assert(items(batches@[k]@) =~= Seq::<ItemView>::empty());
            }
            assert(p.batches =~= start.batches);
            assert(p.given_up =~= start.given_up);
            assert(p =~= start);
            assert forall|k: int| 0 <= k < setting.servers.len() implies #[trigger] setting.load(k)
                + p.batches[k].len() + p.pending.len() <= usize::MAX by {
                assert(depths@[k] + waiting@[k] + old(self)@.pending.len() <= usize::MAX);
            }
        }
        while i < self.pending.len()
            invariant
                setting == old(self)@.setting(status@, depths@, waiting@, now@),
                setting.fits(p),
                setting.run(p) == setting.run(start),
                p == (Pass {
                    next: i as int,
                    pending: items(self.pending@),
                    ledger: self.ledger@,
                    batches: batch_items(batches@),
                    given_up: items(give_ups@),
                    retry: self.next_retry,
                }),
                self.servers == old(self).servers,
                self.queue_caps == old(self).queue_caps,
                self.max_cascades == old(self).max_cascades,
                totals@ == setting.scene(p.batches).loads,
            decreases p.pending.len() - p.next,
        {
            proof {
                lemma_step_fits(setting, p);
                assert(p.ledger.knows(p.pending[i as int]));
                assert(setting.scene(p.batches) == (Scene {
                    servers: self.servers@,
                    status: status@,
                    loads: totals@,
                }));
            }
            let ghost before = p;
            let mut selection = select_server(
                &self.pending[i],
                &self.ledger,
                &self.servers,
                status,
                &totals,
                self.max_cascades,
            );
            if let Selection::CascadeReset = selection {
                self.ledger.cascade_reset(&mut self.pending[i]);
                proof {
                    assert(items(self.pending@) =~= before.pending.update(
                        i as int,
                        before.pending[i as int].after_reset(),
                    ));
                    assert(self.ledger@.knows(self.pending@[i as int]@));
                }
                selection = select_server(
                    &self.pending[i],
                    &self.ledger,
                    &self.servers,
                    status,
                    &totals,
                    self.max_cascades,
                );
            }
            let ghost q = setting.reset_if_due(before);
            assert(q.pending == items(self.pending@));
            assert(q.ledger == self.ledger@);
            match selection {
                Selection::Server(t) => {
                    proof {
                        crate::dispatch::law_selected_server_is_untried(
                            setting.scene(q.batches),
                            q.ledger,
                            q.pending[i as int],
                            setting.max_cascades,
                            t,
                        );
                    }
                    assert(setting.load(t as int) + p.batches[t as int].len() <= usize::MAX);
                    let added = batches[t].len();
                    assert(added == p.batches[t as int].len());
                    if depths[t] + added >= self.queue_caps[t] || waiting[t] + added
                        >= self.queue_caps[t] {
                        bump_retry(&mut self.next_retry, now, Span::from_millis(25));
                        i += 1;
                    } else {
                        let mut item = self.pending.swap_remove(i);
                        item.article.set_fetcher_priority(self.servers[t].priority);
                        let ghost old_batches = batch_items(batches@);
                        batches[t].push(item);
                        let total = totals[t] + 1;
                        totals.set(t, total);
                        proof {
                            assert(items(self.pending@) =~= swap_removed(
                                q.pending,
                                i as int,
                            ));
                            assert(items(batches@[t as int]@) =~= old_batches[t as int].push(
                                item@,
                            ));
                            assert(batch_items(batches@) =~= old_batches.update(
                                t as int,
                                old_batches[t as int].push(item@),
                            ));
                        }
                    }
                },
                Selection::WaitRampup(wait) => {
                    bump_retry(&mut self.next_retry, now, wait);
                    i += 1;
                },
                Selection::CascadeReset => {
                    // After a reset there is a server for the item.
                    assert(false);
                    i += 1;
                },
                Selection::GiveUp => {
                    let item = self.pending.swap_remove(i);
                    self.ledger.record_article_given_up(&item);
                    give_ups.push(item);
                    proof {
                        assert(items(self.pending@) =~= swap_removed(
                            q.pending,
                            i as int,
                        ));
                        assert(items(give_ups@) =~= q.given_up.push(item@));
                    }
                },
            }
            proof {
                p = Pass {
                    next: i as int,
                    pending: items(self.pending@),
                    ledger: self.ledger@,
                    batches: batch_items(batches@),
                    given_up: items(give_ups@),
                    retry: self.next_retry,
                };
                assert(p =~= setting.step(before));
                assert(totals@ =~= setting.scene(p.batches).loads);
            }
        }
        proof {
            lemma_run_fits(setting, start);
        }
        let mut failed: Vec<FetchOutcome> = Vec::new();
        let mut k: usize = 0;
        while k < give_ups.len()
            invariant
                k <= give_ups@.len(),
                failed@.len() == k,
                forall|j: int|
                    0 <= j < k ==> #[trigger] failed@[j]@ == exhausted(give_ups@[j]@),
                forall|j: int|
                    0 <= j < k ==> (#[trigger] failed@[j] matches FetchOutcome::Failed {
                        tag,
                        last_error: Some(text),
                    } && tag == give_ups@[j].tag && text@ == "all servers exhausted for "@
                        + give_ups@[j].article.message_id@),
            decreases give_ups@.len() - k,
        {
            let text = joined("all servers exhausted for ", give_ups[k].article.message_id.as_str());
            failed.push(FetchOutcome::Failed { tag: give_ups[k].tag, last_error: Some(text) });
            k += 1;
        }
        assert(outcomes(failed@) =~= items(give_ups@).map_values(|item: ItemView| exhausted(item)));
        Dispatched { batches, failed }
    }

    /// Handle a message from a worker. `status` and `loads` are the servers'
    /// once the message's penalty was applied.
    pub fn handle_scheduler_msg(
        &mut self,
        msg: SchedulerMsg,
        status: &Vec<ServerStatus>,
        loads: &Vec<usize>,
    ) -> (emitted: Option<FetchOutcome>)
        requires
            old(self)@.well_formed(),
            old(self)@.expects(msg),
            status@.len() == old(self)@.servers.len(),
            loads@.len() == old(self)@.servers.len(),
        ensures
            final(self)@ == old(self)@.after_message(msg, status@, loads@).0,
            emitted is Some == old(self)@.after_message(msg, status@, loads@).1 is Some,
            emitted matches Some(outcome) ==> Some(outcome@) == old(self)@.after_message(
                msg,
                status@,
                loads@,
            ).1,
            final(self)@.well_formed(),
            final(self)@.ledger.same_size(old(self)@.ledger),
            msg matches SchedulerMsg::FetchResult { item, server, result: Ok(bytes) } ==> (
            emitted matches Some(
                FetchOutcome::Success { tag, server_id, bytes: got, article_bytes },
            ) && tag == item.tag && server_id@ == old(self).servers@[server as int].id@ && got@
                == bytes@ && article_bytes == bytes@.len()),
            msg matches SchedulerMsg::FetchResult { item, server: _, result: Err(err) } ==> (
            emitted is None || (emitted matches Some(
                FetchOutcome::Failed { tag, last_error: Some(text) },
            ) && tag == item.tag && text@ == error_text(err))),
            msg is ReturnUnattempted ==> emitted is None,
    {
        match msg {
            SchedulerMsg::FetchResult { item, server, result } => {
                assert(self@.ledger.knows(message_items(msg)[0]));
                match result {
                    Ok(bytes) => {
                        let article_bytes = bytes.len() as u64;
                        self.ledger.record_article_downloaded(&item, article_bytes);
                        assert(self.ledger@.knows_all(old(self)@.pending));
                        Some(
                            FetchOutcome::Success {
                                tag: item.tag,
                                server_id: self.servers[server].id.clone(),
                                bytes,
                                article_bytes,
                            },
                        )
                    },
                    Err(err) => {
                        let mut item = item;
                        self.ledger.record_failure(
                            &mut item,
                            self.servers[server].id.as_str(),
                            err.transient(),
                        );
                        let selection = select_server(
                            &item,
                            &self.ledger,
                            &self.servers,
                            status,
                            loads,
                            self.max_cascades,
                        );
                        match selection {
                            Selection::GiveUp => {
                                self.ledger.record_article_given_up(&item);
                                Some(
                                    FetchOutcome::Failed {
                                        tag: item.tag,
                                        last_error: Some(err.text()),
                                    },
                                )
                            },
                            _ => {
                                self.pending.push(item);
                                assert(items(self.pending@) =~= old(self)@.pending.push(item@));
                                None
                            },
                        }
                    },
                }
            },
            SchedulerMsg::ReturnUnattempted { items: work, server, error: _ } => {
                let ghost given = items(work@);
                let ghost id = self.servers@[server as int].id@;
                for item in it: work
                    invariant
                        given == items(it.seq()),
                        server < self.servers@.len(),
                        id == self.servers@[server as int].id@,
                        self.servers == old(self).servers,
                        self.queue_caps == old(self).queue_caps,
                        self.max_cascades == old(self).max_cascades,
                        self.next_retry == old(self).next_retry,
                        self.ledger@ == ledger_after_return(
                            old(self)@.ledger,
                            given,
                            id,
                            it.index(),
                        ),
                        items(self.pending@) == old(self)@.pending + given.take(
                            it.index(),
                        ).map_values(|item: ItemView| item.after_failure(id, true)),
                        old(self)@.ledger.knows_all(given),
                {
                    let ghost k = it.index();
                    let mut item = item;
                    proof {
                        lemma_return_keeps_size(old(self)@.ledger, given, id, k);
                        assert(given[k] == item@);
                        assert(old(self)@.ledger.knows(given[k]));
                    }
                    self.ledger.record_failure(&mut item, self.servers[server].id.as_str(), true);
                    assert(item@ == given[k].after_failure(id, true));
                    let ghost before = items(self.pending@);
                    self.pending.push(item);
                    assert(items(self.pending@) =~= before.push(item@));
                    assert(given.take(k + 1) =~= given.take(k).push(given[k]));
                    assert(items(self.pending@) =~= old(self)@.pending + given.take(
                        k + 1,
                    ).map_values(|item: ItemView| item.after_failure(id, true)));
                }
                proof {
                    lemma_return_keeps_size(old(self)@.ledger, given, id, given.len() as int);
                    assert(given.take(given.len() as int) =~= given);
                }
                None
            },
        }
    }

    /// Handle an event other than a message. Returns whether the scheduler
    /// goes on.
    pub fn handle_event(&mut self, event: LoopEvent) -> (go_on: bool)
        requires
            old(self)@.well_formed(),
            event matches LoopEvent::Work(work) ==> old(self)@.ledger.knows_all(items(work@)),
        ensures
            final(self)@ == old(self)@.after_event(event),
            go_on == old(self)@.goes_on(event),
            go_on <==> !(event is Shutdown) && !(event is WorkersGone) && !(event is WorkClosed
                && old(self)@.pending.len() == 0),
            final(self)@.well_formed(),
    {
        match event {
            LoopEvent::Shutdown => false,
            LoopEvent::Work(work) => {
                let ghost before = self.pending@;
                for item in it: work
                    invariant
                        self.pending@ == before + it.seq().take(it.index()),
                        self.servers == old(self).servers,
                        self.queue_caps == old(self).queue_caps,
                        self.max_cascades == old(self).max_cascades,
                        self.next_retry == old(self).next_retry,
                        self.ledger == old(self).ledger,
                {
                    self.pending.push(item);
                    assert(self.pending@ =~= before + it.seq().take(it.index() + 1));
                }
                proof {
                    assert(self.pending@ =~= before + work@);
                    assert(items(self.pending@) =~= old(self)@.pending + items(work@));
                    assert forall|i: int| 0 <= i < self@.pending.len() implies self@.ledger.knows(
                        #[trigger] self@.pending[i],
                    ) by {
                        if i < before.len() {
                            assert(self@.pending[i] == old(self)@.pending[i]);
                        } else {
                            assert(self@.pending[i] == items(work@)[i - before.len()]);
                        }
                    }
                }
                true
            },
            LoopEvent::WorkClosed => self.pending.len() > 0,
            LoopEvent::WorkersGone => false,
            LoopEvent::RetryElapsed => {
                self.next_retry = None;
                true
            },
        }
    }

    /// How long to wait for an event before dispatching again, in
    /// nanoseconds: until the retry deadline, but at least a millisecond.
    pub fn retry_delay(&self, now: Span) -> (delay: Option<u128>)
        ensures
            delay == match self@.retry {
                Some(at) => if at < now@ + NANOS_PER_MILLI {
                    Some(NANOS_PER_MILLI)
                } else {
                    Some((at - now@) as u128)
                },
                None => None,
            },
    {
        match self.next_retry {
            Some(at) => {
                let now = now.as_nanos();
                if at < now + NANOS_PER_MILLI {
                    Some(NANOS_PER_MILLI)
                } else {
                    Some(at - now)
                }
            },
            None => None,
        }
    }

    /// Give up the pending items because the driver shuts down.
    pub fn cancel_pending(&mut self) -> (emitted: Vec<FetchOutcome>)
        requires
            old(self)@.well_formed(),
        ensures
            outcomes(emitted@) == old(self)@.pending.map_values(|item: ItemView| cancelled(item)),
            final(self)@ == (SchedulerView { pending: Seq::empty(), ..old(self)@ }),
            final(self)@.well_formed(),
            emitted@.len() == old(self).pending@.len(),
            forall|i: int|
                0 <= i < emitted@.len() ==> (#[trigger] emitted@[i] matches FetchOutcome::Cancelled {
                    tag,
                } && tag == old(self).pending@[i].tag),
    {
        let mut emitted: Vec<FetchOutcome> = Vec::new();
        let mut i: usize = 0;
        while i < self.pending.len()
            invariant
                i <= self.pending@.len(),
                emitted@.len() == i,
                forall|j: int|
                    0 <= j < i ==> #[trigger] emitted@[j]@ == cancelled(self.pending@[j]@),
                forall|j: int|
                    0 <= j < i ==> (#[trigger] emitted@[j] matches FetchOutcome::Cancelled { tag }
                        && tag == self.pending@[j].tag),
                self.pending == old(self).pending,
            decreases self.pending@.len() - i,
        {
            emitted.push(FetchOutcome::Cancelled { tag: self.pending[i].tag });
            i += 1;
        }
        assert(outcomes(emitted@) =~= self@.pending.map_values(|item: ItemView| cancelled(item)));
        self.pending = Vec::new();
        assert(self@.pending =~= Seq::<ItemView>::empty());
        emitted
    }

    /// Handle a message that arrives after the scheduler has stopped: an item
    /// that would go back to the pending ones is cancelled instead.
    pub fn wind_down(
        &mut self,
        msg: SchedulerMsg,
        status: &Vec<ServerStatus>,
        loads: &Vec<usize>,
    ) -> (emitted: Vec<FetchOutcome>)
        requires
            old(self)@.well_formed(),
            old(self)@.expects(msg),
            status@.len() == old(self)@.servers.len(),
            loads@.len() == old(self)@.servers.len(),
        ensures
            ({
                let (after, outcome) = old(self)@.after_message(msg, status@, loads@);
                &&& final(self)@ == (SchedulerView { pending: Seq::empty(), ..after })
                &&& outcomes(emitted@) == after.pending.map_values(
                    |item: ItemView| cancelled(item),
                ) + (match outcome {
                    Some(o) => seq![o],
                    None => Seq::empty(),
                })
            }),
            final(self)@.well_formed(),
            final(self)@.ledger.same_size(old(self)@.ledger),
    {
        let outcome = self.handle_scheduler_msg(msg, status, loads);
        let mut emitted = self.cancel_pending();
        let ghost first = outcomes(emitted@);
        match outcome {
            Some(o) => {
                emitted.push(o);
                assert(outcomes(emitted@) =~= first + seq![o@]);
            },
            None => {
                assert(outcomes(emitted@) =~= first + Seq::<OutcomeView>::empty());
            },
        }
        emitted
    }
}

/// The scheduler's servers, caps, rounds and timer are the same.
pub open spec fn same_setup(a: SchedulerView, b: SchedulerView) -> bool {
    a.servers == b.servers && a.caps == b.caps && a.max_cascades == b.max_cascades && a.retry
        == b.retry
}

/// An article that arrives is reported once: with its tag, the id of the server
/// that its message came from, its bytes and their number. It counts as arrived
/// for its file and its job, with so many bytes, and no item is re-queued.
pub proof fn law_success_is_reported_as_it_came(
    scheduler: SchedulerView,
    msg: SchedulerMsg,
    item: WorkItem,
    server: usize,
    bytes: Vec<u8>,
    status: Seq<ServerStatus>,
    loads: Seq<usize>,
)
    requires
        msg == (SchedulerMsg::FetchResult { item, server, result: Ok(bytes) }),
    ensures
        ({
            let (after, outcome) = scheduler.after_message(msg, status, loads);
            &&& outcome matches Some(
                OutcomeView::Success { tag, server_id, bytes: got, article_bytes },
            ) && tag == item.tag && server_id == scheduler.servers[server as int].id@ && got
                == bytes@ && article_bytes == bytes@.len()
            &&& same_setup(after, scheduler)
            &&& after.pending == scheduler.pending
            &&& after.ledger == scheduler.ledger.after_download(item@, bytes@.len() as u64)
        }),
{
    assert(bytes@.len() == bytes.len());
}

/// A fetch that fails is not the end while a server is left: whenever some
/// enabled server has not failed on the item, ready or not, nothing is reported,
/// and the item is pending again, behind the others, with the server on its
/// try-list. Without one it starts over, where it may, and so is pending again
/// too; and otherwise it is reported as failed, with the text of the error, and
/// counts as given up. The failure is recorded in either case.
pub proof fn law_failed_fetch_is_retried_while_a_server_is_left(
    scheduler: SchedulerView,
    msg: SchedulerMsg,
    item: WorkItem,
    server: usize,
    err: FetchError,
    status: Seq<ServerStatus>,
    loads: Seq<usize>,
)
    requires
        scheduler.well_formed(),
        scheduler.expects(msg),
        status.len() == scheduler.servers.len(),
        loads.len() == scheduler.servers.len(),
        msg == (SchedulerMsg::FetchResult { item, server, result: Err(err) }),
    ensures
        ({
            let (after, outcome) = scheduler.after_message(msg, status, loads);
            let id = scheduler.servers[server as int].id@;
            let recorded = scheduler.ledger.after_failure(item@, id);
            let transient = item.article.transient_failure || !(err is ArticleNotFound);
            let in_service = |i: int|
                0 <= i < scheduler.servers.len() && scheduler.servers[i].enabled && !(
                status[i] is Offline);
            let left = |i: int|
                in_service(i) && scheduler.servers[i].id@ != id
                    && !item.article.tried@.contains(scheduler.servers[i].id@)
                    && !recorded.files[item.file as int].failures.tried.contains(
                    scheduler.servers[i].id@,
                ) && !recorded.jobs[item.job as int].failures.tried.contains(
                    scheduler.servers[i].id@,
                );
            let retried = (exists|i: int| #[trigger] left(i)) || (transient
                && item.article.cascades < scheduler.max_cascades && exists|i: int| #[trigger]
                in_service(i));
            &&& same_setup(after, scheduler)
            &&& retried ==> {
                &&& outcome is None
                &&& after.pending.len() == scheduler.pending.len() + 1
                &&& after.pending.drop_last() == scheduler.pending
                &&& same_item(after.pending.last(), item@)
                &&& forall|s: Seq<char>| #[trigger]
                    after.pending.last().article.tried.contains(s) <==> s == id
                        || item.article.tried@.contains(s)
                &&& after.pending.last().article.transient_failure == transient
                &&& after.pending.last().article.cascades == item.article.cascades
                &&& after.ledger == recorded
            }
            &&& !retried ==> {
                &&& outcome matches Some(OutcomeView::Failed { tag, last_error }) && tag == item.tag
                    && last_error == Some(error_text(err))
                &&& after.pending == scheduler.pending
                &&& after.ledger.files == recorded.files
                &&& after.ledger == recorded.after_give_up(item@)
            }
        }),
{
    let (after, outcome) = scheduler.after_message(msg, status, loads);
    let id = scheduler.servers[server as int].id@;
    let recorded = scheduler.ledger.after_failure(item@, id);
    let failed = item@.after_failure(id, !(err is ArticleNotFound));
    let scene = Scene { servers: scheduler.servers, status, loads };
    let in_service = |i: int|
        0 <= i < scheduler.servers.len() && scheduler.servers[i].enabled && !(status[i] is Offline);
    let left = |i: int|
        in_service(i) && scheduler.servers[i].id@ != id && !item.article.tried@.contains(
            scheduler.servers[i].id@,
        ) && !recorded.files[item.file as int].failures.tried.contains(scheduler.servers[i].id@)
            && !recorded.jobs[item.job as int].failures.tried.contains(scheduler.servers[i].id@);
    assert(scheduler.ledger.knows(message_items(msg)[0]));
    law_selection_follows_the_servers(scene, recorded, failed, scheduler.max_cascades);
    assert forall|i: int| #[trigger] left(i) <==> usable(scene, recorded, failed, i) by {}
    if exists|i: int| usable(scene, recorded, failed, i) {
        let i = choose|i: int| usable(scene, recorded, failed, i);
        assert(left(i));
    }
    if exists|i: int| #[trigger] left(i) {
        let i = choose|i: int| #[trigger] left(i);
        assert(usable(scene, recorded, failed, i));
    }
    if exists|i: int| #[trigger] in_service(i) {
        let i = choose|i: int| #[trigger] in_service(i);
        assert(scene.servers[i].enabled);
    }
    if exists|i: int|
        0 <= i < scene.servers.len() && (#[trigger] scene.servers[i]).enabled && !(
        scene.status[i] is Offline) {
        let i = choose|i: int|
            0 <= i < scene.servers.len() && (#[trigger] scene.servers[i]).enabled && !(
            scene.status[i] is Offline);
        assert(in_service(i));
    }
    if outcome is None {
        assert(after.pending.drop_last() =~= scheduler.pending);
    }
}

/// Items that come back unattempted are all pending again, in order and behind
/// the others, each with the server on its try-list and a failure that may pass;
/// nothing is reported, and each is recorded for its file and job.
pub proof fn law_returned_items_are_requeued(
    scheduler: SchedulerView,
    msg: SchedulerMsg,
    work: Vec<WorkItem>,
    server: usize,
    error: String,
    status: Seq<ServerStatus>,
    loads: Seq<usize>,
)
    requires
        msg == (SchedulerMsg::ReturnUnattempted { items: work, server, error }),
    ensures
        ({
            let (after, outcome) = scheduler.after_message(msg, status, loads);
            let id = scheduler.servers[server as int].id@;
            let before = scheduler.pending.len();
            &&& outcome is None
            &&& same_setup(after, scheduler)
            &&& after.pending.len() == before + work@.len()
            &&& forall|i: int|
                0 <= i < before ==> #[trigger] after.pending[i] == scheduler.pending[i]
            &&& forall|i: int|
                0 <= i < work@.len() ==> {
                    let now = #[trigger] after.pending[before + i];
                    &&& same_item(now, work@[i]@)
                    &&& now.article.tried == work@[i]@.article.tried.insert(id)
                    &&& now.article.transient_failure
                    &&& now.article.cascades == work@[i].article.cascades
                }
            &&& work@.len() == 0 ==> after.ledger == scheduler.ledger
            &&& work@.len() == 1 ==> after.ledger == scheduler.ledger.after_failure(work@[0]@, id)
        }),
{
    reveal_with_fuel(ledger_after_return, 2);
}

/// Returned items are recorded one after the other: those of a first part, and
/// then those of the rest.
pub proof fn law_returned_items_are_recorded_in_turn(
    ledger: LedgerView,
    first: Seq<ItemView>,
    rest: Seq<ItemView>,
    server: Seq<char>,
)
    ensures
        ledger_after_return(ledger, first + rest, server, (first.len() + rest.len()) as int)
            == ledger_after_return(
            ledger_after_return(ledger, first, server, first.len() as int),
            rest,
            server,
            rest.len() as int,
        ),
    decreases rest.len(),
{
    let all = first + rest;
    if rest.len() == 0 {
        assert(all =~= first);
    } else {
        law_returned_items_are_recorded_in_turn(ledger, first, rest.drop_last(), server);
        assert(all.drop_last() =~= first + rest.drop_last());
        lemma_return_of_prefix(ledger, all, server, all.len() - 1);
        lemma_return_of_prefix(
            ledger_after_return(ledger, first, server, first.len() as int),
            rest,
            server,
            rest.len() - 1,
        );
        assert(all.take(all.len() - 1) =~= all.drop_last());
        assert(rest.take(rest.len() - 1) =~= rest.drop_last());
        assert(all[all.len() - 1] == rest[rest.len() - 1]);
    }
}

/// Only the items up to `n` matter to what the first `n` do.
proof fn lemma_return_of_prefix(
    ledger: LedgerView,
    work: Seq<ItemView>,
    server: Seq<char>,
    n: int,
)
    requires
        0 <= n <= work.len(),
    ensures
        ledger_after_return(ledger, work, server, n) == ledger_after_return(
            ledger,
            work.take(n),
            server,
            n,
        ),
    decreases n,
{
    if n > 0 {
        lemma_return_of_prefix(ledger, work, server, n - 1);
        lemma_return_of_prefix(ledger, work.take(n), server, n - 1);
        assert(work.take(n).take(n - 1) =~= work.take(n - 1));
    }
}

/// The scheduler stops exactly when it is shut down, when all workers have
/// exited, or when no more work will come and nothing is pending: submitted work
/// and an elapsed timer never stop it. Submitted work joins the pending items,
/// in order and behind them; an elapsed timer is off; and nothing else changes.
pub proof fn law_scheduler_stops_only_when_it_must(scheduler: SchedulerView, event: LoopEvent)
    ensures
        !scheduler.goes_on(event) <==> event is Shutdown || event is WorkersGone || (
        event is WorkClosed && scheduler.pending.len() == 0),
        ({
            let after = scheduler.after_event(event);
            &&& after.servers == scheduler.servers
            &&& after.caps == scheduler.caps
            &&& after.max_cascades == scheduler.max_cascades
            &&& after.ledger == scheduler.ledger
            &&& event is RetryElapsed ==> after.retry is None
            &&& !(event is RetryElapsed) ==> after.retry == scheduler.retry
            &&& event matches LoopEvent::Work(work) ==> {
                &&& after.pending.len() == scheduler.pending.len() + work@.len()
                &&& forall|i: int|
                    0 <= i < scheduler.pending.len() ==> #[trigger] after.pending[i]
                        == scheduler.pending[i]
                &&& forall|i: int|
                    0 <= i < work@.len() ==> after.pending[scheduler.pending.len() + i] == (
                    #[trigger] work@[i])@
            }
            &&& !(event is Work) ==> after.pending == scheduler.pending
        }),
{
}

/// A dispatch pass starts at the first pending item, with all of them, an empty
/// batch for each server, nobody given up on, and the scheduler's own ledger and
/// timer; and it is set among the scheduler's servers, caps and rounds, as it
/// was told of them.
pub proof fn law_pass_starts_with_everything(
    scheduler: SchedulerView,
    status: Seq<ServerStatus>,
    depths: Seq<usize>,
    waiting: Seq<usize>,
    now: nat,
)
    ensures
        ({
            let p = scheduler.pass();
            &&& p.next == 0
            &&& p.pending == scheduler.pending
            &&& p.ledger == scheduler.ledger
            &&& p.batches.len() == scheduler.servers.len()
            &&& forall|k: int| 0 <= k < p.batches.len() ==> #[trigger] p.batches[k].len() == 0
            &&& p.given_up.len() == 0
            &&& p.retry == scheduler.retry
        }),
        ({
            let setting = scheduler.setting(status, depths, waiting, now);
            &&& setting.servers == scheduler.servers
            &&& setting.caps == scheduler.caps
            &&& setting.max_cascades == scheduler.max_cascades
            &&& setting.status == status
            &&& setting.depths == depths
            &&& setting.waiting == waiting
            &&& setting.now == now
        }),
{
}

/// What is said of an item that no server is left for, and of one that is
/// cancelled.
pub proof fn law_last_words(item: ItemView)
    ensures
        exhausted(item) matches OutcomeView::Failed { tag, last_error: Some(text) } && tag
            == item.tag && text == "all servers exhausted for "@ + item.article.message_id,
        cancelled(item) matches OutcomeView::Cancelled { tag } && tag == item.tag,
{
}

} // verus!
