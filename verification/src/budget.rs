//! The retry limit of the whole driver: however things happen, there are only
//! so many failed attempts for each submitted item.

use vstd::prelude::*;

use crate::article::{items, ItemView};
use crate::config::ServerConfig;
use crate::dispatch::{lemma_best, Selection};
use crate::flow::{pushed, Flow, FlowStep};
use crate::outcome::SchedulerMsg;
use crate::pass::{
    law_dispatched_items_are_well_placed, lemma_run_fits, lemma_step_fits, swap_removed,
    well_placed, Pass, Setting,
};
use crate::retries::{
    attempts_left, law_attempts_are_bounded, law_failure_uses_up_an_attempt,
    law_reset_adds_no_attempt,
};
use crate::scheduler::{message_items, message_server, LoopEvent};

verus! {

/// How often the items can still be attempted, taken together.
pub open spec fn budget(
    servers: Seq<ServerConfig>,
    max_cascades: u32,
    work: Seq<ItemView>,
) -> nat
    decreases work.len(),
{
    if work.len() == 0 {
        0
    } else {
        budget(servers, max_cascades, work.drop_last()) + attempts_left(
            servers,
            work.last(),
            max_cascades,
        )
    }
}

/// How often the items of all the batches can still be attempted.
pub open spec fn batch_budget(
    servers: Seq<ServerConfig>,
    max_cascades: u32,
    batches: Seq<Seq<ItemView>>,
) -> nat
    decreases batches.len(),
{
    if batches.len() == 0 {
        0
    } else {
        batch_budget(servers, max_cascades, batches.drop_last()) + budget(
            servers,
            max_cascades,
            batches.last(),
        )
    }
}

/// No item in a server's batch has failed on that server.
pub open spec fn untried_there(servers: Seq<ServerConfig>, batches: Seq<Seq<ItemView>>) -> bool {
    forall|k: int, i: int|
        0 <= k < batches.len() && 0 <= i < batches[k].len()
            ==> !(#[trigger] batches[k][i]).article.tried.contains(servers[k].id@)
}

/// The failed attempts that a step reports.
pub open spec fn failures_in(step: FlowStep) -> nat {
    match step {
        FlowStep::Message { msg, .. } => match msg {
            SchedulerMsg::FetchResult { result: Ok(_), .. } => 0,
            _ => message_items(msg).len(),
        },
        _ => 0,
    }
}

/// The failed attempts that the steps report.
pub open spec fn failures(steps: Seq<FlowStep>) -> nat
    decreases steps.len(),
{
    if steps.len() == 0 {
        0
    } else {
        failures(steps.drop_last()) + failures_in(steps.last())
    }
}

impl Flow {
    /// No item waits for, or is held by a worker of, a server that it has
    /// failed on.
    pub open spec fn placed(self) -> bool {
        untried_there(self.scheduler.servers, self.waiting) && untried_there(
            self.scheduler.servers,
            self.held,
        )
    }

    /// How often the items that are not resolved can still be attempted.
    pub open spec fn budget(self) -> nat {
        let (servers, max) = (self.scheduler.servers, self.scheduler.max_cascades);
        budget(servers, max, self.scheduler.pending) + batch_budget(servers, max, self.waiting)
            + batch_budget(servers, max, self.held)
    }
}

/// Two sequences together have the budget of both.
proof fn lemma_budget_add(
    servers: Seq<ServerConfig>,
    max: u32,
    a: Seq<ItemView>,
    b: Seq<ItemView>,
)
    ensures
        budget(servers, max, a + b) == budget(servers, max, a) + budget(servers, max, b),
    decreases b.len(),
{
    if b.len() == 0 {
        assert(a + b =~= a);
    } else {
        lemma_budget_add(servers, max, a, b.drop_last());
        assert((a + b).drop_last() =~= a + b.drop_last());
    }
}

/// Replacing an item exchanges its attempts.
proof fn lemma_budget_update(
    servers: Seq<ServerConfig>,
    max: u32,
    work: Seq<ItemView>,
    i: int,
    item: ItemView,
)
    requires
        0 <= i < work.len(),
    ensures
        budget(servers, max, work.update(i, item)) + attempts_left(servers, work[i], max) == budget(
            servers,
            max,
            work,
        ) + attempts_left(servers, item, max),
    decreases work.len(),
{
    if i == work.len() - 1 {
        assert(work.update(i, item).drop_last() =~= work.drop_last());
    } else {
        lemma_budget_update(servers, max, work.drop_last(), i, item);
        assert(work.update(i, item).drop_last() =~= work.drop_last().update(i, item));
    }
}

/// An item that leaves takes its attempts.
proof fn lemma_budget_swap_removed(
    servers: Seq<ServerConfig>,
    max: u32,
    work: Seq<ItemView>,
    i: int,
)
    requires
        0 <= i < work.len(),
    ensures
        budget(servers, max, swap_removed(work, i)) + attempts_left(servers, work[i], max)
            == budget(servers, max, work),
{
    lemma_budget_update(servers, max, work, i, work.last());
    assert(work.update(i, work.last()).last() == work.last());
}

/// Replacing a batch exchanges its budget.
proof fn lemma_batch_budget_update(
    servers: Seq<ServerConfig>,
    max: u32,
    batches: Seq<Seq<ItemView>>,
    k: int,
    batch: Seq<ItemView>,
)
    requires
        0 <= k < batches.len(),
    ensures
        batch_budget(servers, max, batches.update(k, batch)) + budget(servers, max, batches[k])
            == batch_budget(servers, max, batches) + budget(servers, max, batch),
    decreases batches.len(),
{
    if k == batches.len() - 1 {
        assert(batches.update(k, batch).drop_last() =~= batches.drop_last());
    } else {
        lemma_batch_budget_update(servers, max, batches.drop_last(), k, batch);
        assert(batches.update(k, batch).drop_last() =~= batches.drop_last().update(k, batch));
    }
}

/// Queues that got their batches have the budget of both.
proof fn lemma_pushed_budget(
    servers: Seq<ServerConfig>,
    max: u32,
    waiting: Seq<Seq<ItemView>>,
    batches: Seq<Seq<ItemView>>,
)
    requires
        waiting.len() == batches.len(),
    ensures
        batch_budget(servers, max, pushed(waiting, batches)) == batch_budget(servers, max, waiting)
            + batch_budget(servers, max, batches),
    decreases waiting.len(),
{
    let after = pushed(waiting, batches);
    if waiting.len() > 0 {
        lemma_pushed_budget(servers, max, waiting.drop_last(), batches.drop_last());
        assert(after.drop_last() =~= pushed(waiting.drop_last(), batches.drop_last()));
        lemma_budget_add(servers, max, waiting.last(), batches.last());
    }
}

/// Empty batches have no budget.
proof fn lemma_empty_budget(servers: Seq<ServerConfig>, max: u32, batches: Seq<Seq<ItemView>>)
    requires
        forall|k: int| 0 <= k < batches.len() ==> #[trigger] batches[k].len() == 0,
    ensures
        batch_budget(servers, max, batches) == 0,
    decreases batches.len(),
{
    if batches.len() > 0 {
        assert forall|k: int| 0 <= k < batches.drop_last().len() implies #[trigger] batches.drop_last()[k].len()
            == 0 by {
            assert(batches.drop_last()[k] == batches[k]);
        }
        lemma_empty_budget(servers, max, batches.drop_last());
        assert(batches[batches.len() - 1].len() == 0);
    }
}

/// Items have at most one attempt on each server in each round.
proof fn lemma_budget_bounded(servers: Seq<ServerConfig>, max: u32, work: Seq<ItemView>)
    ensures
        budget(servers, max, work) <= (max + 1) * servers.len() * work.len(),
    decreases work.len(),
{
    let each = (max + 1) * servers.len();
    if work.len() == 0 {
        assert(each * work.len() == 0) by (nonlinear_arith)
            requires
                work.len() == 0,
        ;
    } else {
        lemma_budget_bounded(servers, max, work.drop_last());
        law_attempts_are_bounded(servers, work.last(), max);
        assert(each * work.len() == each * (work.len() - 1) + each) by (nonlinear_arith);
    }
}

/// Items that all fail on a server that none of them had failed on use up as
/// many attempts.
proof fn lemma_failures_use_up_attempts(
    servers: Seq<ServerConfig>,
    max: u32,
    work: Seq<ItemView>,
    s: int,
    transient: bool,
)
    requires
        0 <= s < servers.len(),
        forall|i: int|
            0 <= i < work.len() ==> !(#[trigger] work[i]).article.tried.contains(servers[s].id@),
    ensures
        budget(
            servers,
            max,
            work.map_values(|item: ItemView| item.after_failure(servers[s].id@, transient)),
        ) + work.len() <= budget(servers, max, work),
    decreases work.len(),
{
    let f = |item: ItemView| item.after_failure(servers[s].id@, transient);
    if work.len() > 0 {
        assert forall|i: int| 0 <= i < work.drop_last().len() implies !(
        #[trigger] work.drop_last()[i]).article.tried.contains(servers[s].id@) by {
            assert(work.drop_last()[i] == work[i]);
        }
        lemma_failures_use_up_attempts(servers, max, work.drop_last(), s, transient);
        assert(work.map_values(f).drop_last() =~= work.drop_last().map_values(f));
        let last = work[work.len() - 1];
        assert(work.map_values(f).last() == f(last));
        law_failure_uses_up_an_attempt(servers, last, s, transient, max);
    }
}

/// A dispatch pass adds no attempts.
proof fn lemma_run_adds_no_attempt(setting: Setting, p: Pass)
    requires
        setting.fits(p),
    ensures
        ({
            let (servers, max, end) = (setting.servers, setting.max_cascades, setting.run(p));
            budget(servers, max, end.pending) + batch_budget(servers, max, end.batches) <= budget(
                servers,
                max,
                p.pending,
            ) + batch_budget(servers, max, p.batches)
        }),
    decreases p.pending.len() - p.next,
{
    if p.next < p.pending.len() {
        let (servers, max) = (setting.servers, setting.max_cascades);
        lemma_step_fits(setting, p);
        let q = setting.reset_if_due(p);
        let first = p.pending[p.next];
        if setting.selection(p.batches, p.ledger, first) is CascadeReset {
            law_reset_adds_no_attempt(setting.scene(p.batches), p.ledger, first, max);
            lemma_budget_update(servers, max, p.pending, p.next, first.after_reset());
        }
        let item = q.pending[q.next];
        lemma_best(setting.scene(q.batches), q.ledger, item, servers.len() as int);
        lemma_budget_swap_removed(servers, max, q.pending, q.next);
        if let Selection::Server(target) = setting.selection(
            q.batches,
            q.ledger,
            item,
        ) {
            let t = target as int;
            let handed = item.handed_to(servers[t].priority);
            lemma_batch_budget_update(servers, max, q.batches, t, q.batches[t].push(handed));
            assert(q.batches[t].push(handed).drop_last() =~= q.batches[t]);
        }
        lemma_run_adds_no_attempt(setting, setting.step(p));
    }
}

/// The budget of what a step submits.
pub open spec fn submitted_budget(flow: Flow, step: FlowStep) -> nat {
    match step {
        FlowStep::Event(LoopEvent::Work(work)) => budget(
            flow.scheduler.servers,
            flow.scheduler.max_cascades,
            items(work@),
        ),
        _ => 0,
    }
}

/// Whatever happens next, no item is with a server that it has failed on, and
/// each failed attempt uses up one that was left, or that was just submitted.
pub proof fn law_every_step_stays_within_budget(flow: Flow, step: FlowStep)
    requires
        flow.consistent(),
        flow.placed(),
        flow.allows(step),
    ensures
        flow.after(step).placed(),
        flow.after(step).budget() + failures_in(step) <= flow.budget() + submitted_budget(
            flow,
            step,
        ),
{
    let next = flow.after(step);
    let (servers, max) = (flow.scheduler.servers, flow.scheduler.max_cascades);
    let pending = flow.scheduler.pending;
    match step {
        FlowStep::AddFile(_) => {},
        FlowStep::AddJob(_) => {},
        FlowStep::Event(event) => {
            if let LoopEvent::Work(work) = event {
                lemma_budget_add(servers, max, pending, items(work@));
            }
        },
        FlowStep::Dispatch { status, depths, waiting, now } => {
            let setting = flow.scheduler.setting(status, depths, waiting, now);
            let start = flow.scheduler.pass();
            let end = setting.run(start);
            lemma_run_fits(setting, start);
            lemma_run_adds_no_attempt(setting, start);
            lemma_empty_budget(servers, max, start.batches);
            lemma_pushed_budget(servers, max, flow.waiting, end.batches);
            assert forall|k: int, i: int|
                0 <= k < next.waiting.len() && 0 <= i < next.waiting[k].len() implies !(
            #[trigger] next.waiting[k][i]).article.tried.contains(servers[k].id@) by {
                let before = flow.waiting[k].len() as int;
                if i < before {
                    assert(next.waiting[k][i] == flow.waiting[k][i]);
                } else {
                    law_dispatched_items_are_well_placed(setting, start, k, i - before);
                    assert(well_placed(setting, end, k, i - before));
                    assert(next.waiting[k][i] == end.batches[k][i - before]);
                }
            }
        },
        FlowStep::Pop { server, take } => {
            let (taken, left) = (flow.waiting[server].take(take), flow.waiting[server].skip(take));
            assert(flow.waiting[server] =~= taken + left);
            lemma_budget_add(servers, max, taken, left);
            lemma_budget_add(servers, max, flow.held[server], taken);
            lemma_batch_budget_update(servers, max, flow.waiting, server, left);
            lemma_batch_budget_update(
                servers,
                max,
                flow.held,
                server,
                flow.held[server] + taken,
            );
            assert forall|k: int, i: int|
                0 <= k < next.waiting.len() && 0 <= i < next.waiting[k].len() implies !(
            #[trigger] next.waiting[k][i]).article.tried.contains(servers[k].id@) by {
                if k == server {
                    assert(next.waiting[k][i] == flow.waiting[k][i + take]);
                } else {
                    assert(next.waiting[k][i] == flow.waiting[k][i]);
                }
            }
            assert forall|k: int, i: int|
                0 <= k < next.held.len() && 0 <= i < next.held[k].len() implies !(
            #[trigger] next.held[k][i]).article.tried.contains(servers[k].id@) by {
                let before = flow.held[k].len() as int;
                if k == server && i >= before {
                    assert(next.held[k][i] == flow.waiting[k][i - before]);
                } else {
                    assert(next.held[k][i] == flow.held[k][i]);
                }
            }
        },
        FlowStep::Message { msg, at, status, loads } => {
            let s = message_server(msg) as int;
            let work = message_items(msg);
            let held = flow.held[s];
            let (head, tail) = (held.take(at), held.skip(at + work.len()));
            assert(held =~= head + (work + tail));
            lemma_budget_add(servers, max, head, work + tail);
            lemma_budget_add(servers, max, work, tail);
            lemma_budget_add(servers, max, head, tail);
            lemma_batch_budget_update(servers, max, flow.held, s, head + tail);
            assert forall|k: int, i: int|
                0 <= k < next.held.len() && 0 <= i < next.held[k].len() implies !(
            #[trigger] next.held[k][i]).article.tried.contains(servers[k].id@) by {
                if k == s && i >= at {
                    assert(next.held[k][i] == flow.held[k][i + work.len()]);
                } else {
                    assert(next.held[k][i] == flow.held[k][i]);
                }
            }
            assert forall|i: int| 0 <= i < work.len() implies !(
            #[trigger] work[i]).article.tried.contains(servers[s].id@) by {
                assert(work[i] == flow.held[s][at + i]);
            }
            match msg {
                SchedulerMsg::FetchResult { item, server, result } => {
                    if let Err(err) = result {
                        let transient = !(err is ArticleNotFound);
                        let failed = item@.after_failure(servers[s].id@, transient);
                        law_failure_uses_up_an_attempt(servers, item@, s, transient, max);
                        assert(work.drop_last() =~= Seq::<ItemView>::empty());
                        assert(pending.push(failed).drop_last() =~= pending);
                    }
                },
                SchedulerMsg::ReturnUnattempted { items: _, server, error: _ } => {
                    lemma_failures_use_up_attempts(servers, max, work, s, true);
                    lemma_budget_add(
                        servers,
                        max,
                        pending,
                        work.map_values(
                            |item: ItemView| item.after_failure(servers[s].id@, true),
                        ),
                    );
                },
            }
        },
        FlowStep::Cancel => {},
    }
}

/// No endless retries: from the start on, whatever happens in whatever order,
/// there are at most so many failed attempts for each submitted item as there
/// are servers, in each of its rounds.
pub proof fn law_failed_attempts_are_bounded(start: Flow, steps: Seq<FlowStep>)
    requires
        start.initial(),
        start.allows_all(steps),
    ensures
        ({
            let end = start.after_all(steps);
            let each = (start.scheduler.max_cascades + 1) * start.scheduler.servers.len();
            &&& end.placed()
            &&& end.scheduler.servers == start.scheduler.servers
            &&& end.scheduler.max_cascades == start.scheduler.max_cascades
            &&& end.budget() + failures(steps) <= each * end.submitted.len()
        }),
    decreases steps.len(),
{
    broadcast use vstd::seq_lib::group_to_multiset_ensures;
    broadcast use vstd::multiset::group_multiset_axioms;

    let (servers, max) = (start.scheduler.servers, start.scheduler.max_cascades);
    let each = (max + 1) * servers.len();
    if steps.len() == 0 {
        lemma_empty_budget(servers, max, start.waiting);
        lemma_empty_budget(servers, max, start.held);
        assert(each * start.submitted.len() == 0) by (nonlinear_arith)
            requires
                start.submitted.len() == 0,
        ;
    } else {
        let before = start.after_all(steps.drop_last());
        let step = steps.last();
        law_failed_attempts_are_bounded(start, steps.drop_last());
        crate::flow::law_no_item_is_ever_lost(start, steps.drop_last());
        law_every_step_stays_within_budget(before, step);
        if let FlowStep::Event(LoopEvent::Work(submitted)) = step {
            let work = items(submitted@);
            let (a, b) = (before.submitted.len(), work.len());
            lemma_budget_bounded(servers, max, work);
            assert(before.after(step).submitted.len() == a + b);
            assert(each * (a + b) == each * a + each * b) by (nonlinear_arith);
        }
    }
}

} // verus!
