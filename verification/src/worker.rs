//! Wrapper worker: persistent loop, one per connection.
//!
//! A worker pulls a batch from its server's queue, connects if it has to,
//! fetches the batch, and reports to the scheduler. It keeps the pipeline
//! saturated: while requests are unanswered it pulls more work, as far as it
//! has room for it. The caller performs the waiting, connecting and fetching;
//! what follows from each result is here.

use vstd::prelude::*;

use crate::article::{items, WorkItem};
use crate::config::ServerConfig;
use crate::error::{error_text, is_terminal, FetchError};
use crate::outcome::SchedulerMsg;
use crate::queue::{Popped, QueueView, ServerQueue};
use crate::scheduler::{message_items, message_server};

verus! {

/// Persistent consecutive-connect-failure threshold. A wrapper that fails
/// to connect this many times in a row with a terminal-class error
/// (auth, service unavailable, account cap) exits permanently so we
/// don't hot-loop against a provider-side limit. The scheduler's
/// per-server penalty still gates retries at the server level: this is the
/// wrapper-local stop.
pub const MAX_CONSECUTIVE_CONNECT_FAILURES: u32 = 3;

/// Each failed attempt in a row adds this much to the wait for the next one.
pub const BACKOFF_STEP_MILLIS: u64 = 500;

/// After this many failed attempts in a row the wait no longer grows.
pub const MAX_BACKOFF_STEPS: u32 = 6;

/// A worker's state.
#[derive(Debug)]
pub struct Worker {
    /// Position of its server.
    pub server: usize,
    /// Its number at the server.
    pub id: u32,
    /// How many items it takes at a time.
    pub depth: u8,
    /// Connection attempts that have failed since the last success.
    pub connect_failures: u32,
    /// How many of them, the latest ones in a row, failed with a
    /// terminal-class error.
    pub turned_away: u32,
}

/// What to do with a batch.
#[derive(Debug, Clone, Copy, PartialEq, Eq)]
pub enum BatchStep {
    /// There is none, and there will be none: exit.
    Exit,
    /// Connect first.
    Connect,
    /// Fetch it.
    Fetch,
}

/// What to do after a failed connection attempt.
#[derive(Debug, Clone, Copy, PartialEq, Eq)]
pub enum ConnectStep {
    /// Wait this many milliseconds, then ask for the next batch.
    BackOff(u64),
    /// Exit for good.
    Retire,
}

/// How many attempts in a row have failed with a terminal-class error, once
/// one has failed with `err` after `turned_away` such ones.
pub open spec fn turned_away_after(turned_away: u32, err: FetchError) -> nat {
    if is_terminal(err) {
        (turned_away + 1) as nat
    } else {
        0
    }
}

/// The step after a connection attempt has failed, as the `failures`-th in a
/// row, the last `turned_away` of which failed with a terminal-class error.
pub open spec fn step_after_failure(failures: nat, turned_away: nat) -> ConnectStep {
    if turned_away >= MAX_CONSECUTIVE_CONNECT_FAILURES {
        ConnectStep::Retire
    } else {
        ConnectStep::BackOff(backoff_millis(failures))
    }
}

/// How long to wait after so many failed attempts in a row.
pub open spec fn backoff_millis(failures: nat) -> u64 {
    (BACKOFF_STEP_MILLIS * (if failures < MAX_BACKOFF_STEPS {
        failures
    } else {
        MAX_BACKOFF_STEPS as nat
    })) as u64
}

/// One item's result, as a message of a worker of `server`.
pub open spec fn is_report_of(
    msg: SchedulerMsg,
    server: usize,
    fetched: (WorkItem, Result<Vec<u8>, FetchError>),
) -> bool {
    msg == (SchedulerMsg::FetchResult { item: fetched.0, server, result: fetched.1 })
}

impl Worker {
    /// A worker of the server at position `server`, not connected yet.
    pub fn new(server: usize, id: u32, config: &ServerConfig) -> (worker: Self)
        ensures
            worker.server == server,
            worker.id == id,
            worker.depth == crate::config::pipeline_depth(*config),
            worker.connect_failures == 0,
            worker.turned_away == 0,
    {
        Worker { server, id, depth: config.depth(), connect_failures: 0, turned_away: 0 }
    }

    /// What to do with what the queue gave: an empty batch means that the
    /// queue is closed.
    pub fn on_batch(&self, batch: &Vec<WorkItem>, connected: bool) -> (step: BatchStep)
        ensures
            step == (if batch@.len() == 0 {
                BatchStep::Exit
            } else if connected {
                BatchStep::Fetch
            } else {
                BatchStep::Connect
            }),
    {
        if batch.len() == 0 {
            BatchStep::Exit
        } else if connected {
            BatchStep::Fetch
        } else {
            BatchStep::Connect
        }
    }

    /// The connection is up.
    pub fn on_connected(&mut self)
        ensures
            *final(self) == (Worker { connect_failures: 0, turned_away: 0, ..*old(self) }),
    {
        self.connect_failures = 0;
        self.turned_away = 0;
    }

    /// The connection attempt failed: the whole batch goes back to the
    /// scheduler, and the worker backs off or, where the provider keeps
    /// turning it away, retires.
    pub fn on_connect_failed(&mut self, batch: Vec<WorkItem>, err: &FetchError) -> (out: (
        SchedulerMsg,
        ConnectStep,
    ))
        requires
            old(self).connect_failures < u32::MAX,
            old(self).turned_away < u32::MAX,
        ensures
            *final(self) == (Worker {
                connect_failures: (old(self).connect_failures + 1) as u32,
                turned_away: turned_away_after(old(self).turned_away, *err) as u32,
                ..*old(self)
            }),
            out.0 matches SchedulerMsg::ReturnUnattempted { items: returned, server, error }
                && returned == batch && server == old(self).server && error@ == error_text(*err),
            out.1 == step_after_failure(
                (old(self).connect_failures + 1) as nat,
                turned_away_after(old(self).turned_away, *err),
            ),
            out.1 is Retire <==> is_terminal(*err) && old(self).turned_away + 1
                >= MAX_CONSECUTIVE_CONNECT_FAILURES,
    {
        let error = err.text();
        self.connect_failures = self.connect_failures + 1;
        self.turned_away = if err.terminal() { self.turned_away + 1 } else { 0 };
        let msg = SchedulerMsg::ReturnUnattempted { items: batch, server: self.server, error };
        if self.turned_away >= MAX_CONSECUTIVE_CONNECT_FAILURES {
            return (msg, ConnectStep::Retire);
        }
        let steps = if self.connect_failures < MAX_BACKOFF_STEPS {
            self.connect_failures
        } else {
            MAX_BACKOFF_STEPS
        };
        (msg, ConnectStep::BackOff(BACKOFF_STEP_MILLIS * steps as u64))
    }

    /// The batch was fetched: one message for each item, in order.
    pub fn on_fetched(
        &self,
        fetched: Vec<(WorkItem, Result<Vec<u8>, FetchError>)>,
    ) -> (messages: Vec<SchedulerMsg>)
        ensures
            messages@.len() == fetched@.len(),
            forall|i: int|
                0 <= i < messages@.len() ==> is_report_of(
                    #[trigger] messages@[i],
                    self.server,
                    fetched@[i],
                ),
    {
        let mut messages: Vec<SchedulerMsg> = Vec::new();
        for pair in it: fetched
            invariant
                messages@.len() == it.index(),
                forall|i: int|
                    0 <= i < messages@.len() ==> is_report_of(
                        #[trigger] messages@[i],
                        self.server,
                        it.seq()[i],
                    ),
        {
            let (item, result) = pair;
            messages.push(SchedulerMsg::FetchResult { item, server: self.server, result });
        }
        messages
    }

    /// The worker exits, and `remaining` workers of its server are left. The
    /// last one drains the server's queue back to the scheduler, so that the
    /// items can be dispatched elsewhere, and closes it.
    pub fn on_exit(&self, remaining: usize, queue: &mut ServerQueue) -> (stranded: Option<
        SchedulerMsg,
    >)
        ensures
            final(queue)@ == (if remaining == 0 {
                QueueView { waiting: Seq::empty(), closed: true, ..old(queue)@ }
            } else {
                old(queue)@
            }),
            stranded is Some <==> remaining == 0 && old(queue)@.waiting.len() > 0,
            stranded matches Some(msg) ==> (msg matches SchedulerMsg::ReturnUnattempted {
                items: returned,
                server,
                error,
            } && items(returned@) == old(queue)@.waiting && server == self.server && error@
                == "all wrapper workers retired"@),
    {
        if remaining > 0 {
            None
        } else {
            strand(self.server, queue)
        }
    }

    /// How many more items the worker has room for while `outstanding` of its
    /// requests are unanswered.
    pub fn room(&self, outstanding: usize) -> (n: usize)
        ensures
            n == room(self.depth as nat, outstanding as nat),
    {
        let depth = self.depth as usize;
        if outstanding < depth {
            depth - outstanding
        } else {
            0
        }
    }

    /// Keep the pipeline saturated: take what there is room for off the queue
    /// while `outstanding` requests are unanswered, without waiting.
    pub fn top_up(&self, outstanding: usize, queue: &mut ServerQueue) -> (more: Vec<WorkItem>)
        ensures
            ({
                let take = old(queue)@.top_up_size(self.depth as nat, outstanding as nat) as int;
                &&& items(more@) == old(queue)@.front(take)
                &&& more@.len() == take
                &&& final(queue)@ == old(queue)@.after_pop(take)
            }),
    {
        let room = self.room(outstanding);
        if room > 0 {
            if let Popped::Batch(more) = queue.pop_batch(room) {
                assert(items(more@).len() == more@.len());
                return more;
            }
        }
        let more: Vec<WorkItem> = Vec::new();
        assert(items(more@) =~= queue@.front(0));
        assert(queue@.after_pop(0).waiting =~= queue@.waiting);
        more
    }
}

/// How many more items there is room for in a pipeline of this depth.
pub open spec fn room(depth: nat, outstanding: nat) -> nat {
    if outstanding < depth {
        (depth - outstanding) as nat
    } else {
        0
    }
}

impl QueueView {
    /// How many items a worker takes while `outstanding` of its requests are
    /// unanswered: as many as it has room for, or all that are waiting.
    pub open spec fn top_up_size(self, depth: nat, outstanding: nat) -> nat {
        if self.waiting.len() < room(depth, outstanding) {
            self.waiting.len()
        } else {
            room(depth, outstanding)
        }
    }
}

/// The server has no worker left: close its queue, and take what waits there
/// back to the scheduler.
pub fn strand(server: usize, queue: &mut ServerQueue) -> (stranded: Option<SchedulerMsg>)
    ensures
        final(queue)@ == (QueueView { waiting: Seq::empty(), closed: true, ..old(queue)@ }),
        stranded is Some <==> old(queue)@.waiting.len() > 0,
        stranded matches Some(msg) ==> (msg matches SchedulerMsg::ReturnUnattempted {
            items: returned,
            server: from,
            error,
        } && items(returned@) == old(queue)@.waiting && from == server && error@
            == "all wrapper workers retired"@),
{
    let returned = queue.drain_all();
    queue.close();
    assert(items(returned@).len() == returned@.len());
    if returned.len() == 0 {
        None
    } else {
        Some(
            SchedulerMsg::ReturnUnattempted {
                items: returned,
                server,
                error: "all wrapper workers retired".to_owned(),
            },
        )
    }
}

/// The pipeline is kept saturated: a worker with unanswered requests, but fewer
/// than its depth, takes more items where some are waiting, before those are
/// answered. It never has more requests than its depth, and afterwards it has
/// no room left or nothing is waiting.
pub proof fn law_pipeline_is_kept_saturated(queue: QueueView, depth: nat, outstanding: nat)
    requires
        outstanding <= depth,
    ensures
        ({
            let take = queue.top_up_size(depth, outstanding);
            &&& outstanding < depth && queue.waiting.len() > 0 ==> take > 0
            &&& outstanding + take <= depth
            &&& outstanding + take == depth || queue.after_pop(take as int).waiting.len() == 0
        }),
{
}

/// A worker that is turned away by its provider from the start backs off half
/// a second, then a second, and retires at the third attempt.
pub proof fn law_turned_away_worker_retires(
    first: FetchError,
    second: FetchError,
    third: FetchError,
)
    requires
        is_terminal(first),
        is_terminal(second),
        is_terminal(third),
    ensures
        step_after_failure(1, turned_away_after(0, first)) == ConnectStep::BackOff(500),
        step_after_failure(2, turned_away_after(1, second)) == ConnectStep::BackOff(1000),
        step_after_failure(3, turned_away_after(2, third)) == ConnectStep::Retire,
{
}

/// A worker retires exactly at the third attempt in a row, or a later one,
/// that fails with an error of the terminal class: any other error starts that
/// count over, however many attempts have failed. Otherwise it waits between
/// half a second and three seconds, and never less than after the attempt
/// before.
pub proof fn law_backoff_is_bounded(failures: nat, turned_away: u32, err: FetchError)
    requires
        failures > 0,
    ensures
        step_after_failure(failures, turned_away_after(turned_away, err)) is Retire
            <==> is_terminal(err) && turned_away >= 2,
        !is_terminal(err) ==> turned_away_after(turned_away, err) == 0,
        500 <= backoff_millis(failures) <= 3000,
        backoff_millis(failures) <= backoff_millis(failures + 1),
{
}

/// A worker without outstanding requests gets from the queue what it has room
/// for: its next batch is a top-up of nothing, and no larger than its depth.
pub proof fn law_batch_fits_the_pipeline(queue: QueueView, depth: u8)
    requires
        depth > 0,
    ensures
        queue.batch_size(depth as usize) == queue.top_up_size(depth as nat, 0),
        queue.batch_size(depth as usize) <= depth,
{
}

/// How many of the latest attempts in a row failed with a terminal-class error,
/// after these failures since the last success.
pub open spec fn turned_away_by(errors: Seq<FetchError>) -> nat
    decreases errors.len(),
{
    if errors.len() == 0 {
        0
    } else {
        turned_away_after(turned_away_by(errors.drop_last()) as u32, errors.last())
    }
}

/// Persistent terminal-class failures: whatever went before, a worker retires
/// exactly when its last three attempts at least have all failed with a
/// terminal-class error.
pub proof fn law_retires_after_three_terminal_failures_in_a_row(errors: Seq<FetchError>)
    requires
        0 < errors.len() <= u32::MAX,
    ensures
        turned_away_by(errors) <= errors.len(),
        step_after_failure(errors.len(), turned_away_by(errors)) is Retire <==> errors.len() >= 3
            && is_terminal(errors[errors.len() - 1]) && is_terminal(errors[errors.len() - 2])
            && is_terminal(errors[errors.len() - 3]),
    decreases errors.len(),
{
    reveal_with_fuel(turned_away_by, 4);
    if errors.len() > 1 {
        law_retires_after_three_terminal_failures_in_a_row(errors.drop_last());
    }
    if errors.len() > 2 {
        law_retires_after_three_terminal_failures_in_a_row(errors.drop_last().drop_last());
    }
    if errors.len() > 3 {
        law_retires_after_three_terminal_failures_in_a_row(
            errors.drop_last().drop_last().drop_last(),
        );
    }
}

/// A worker reports every item of a batch that it has fetched, once and in
/// order, whatever came of it.
pub proof fn law_fetched_batch_is_reported(
    batch: Seq<WorkItem>,
    fetched: Seq<(WorkItem, Result<Vec<u8>, FetchError>)>,
    messages: Seq<SchedulerMsg>,
    server: usize,
)
    requires
        fetched.len() == batch.len(),
        forall|i: int| 0 <= i < batch.len() ==> (#[trigger] fetched[i]).0 == batch[i],
        messages.len() == fetched.len(),
        forall|i: int|
            0 <= i < messages.len() ==> is_report_of(#[trigger] messages[i], server, fetched[i]),
    ensures
        messages.len() == batch.len(),
        forall|i: int|
            0 <= i < messages.len() ==> message_items(#[trigger] messages[i]) == seq![batch[i]@]
                && message_server(messages[i]) == server,
        forall|i: int|
            0 <= i < messages.len() ==> (#[trigger] messages[i] matches SchedulerMsg::FetchResult {
                item,
                server: from,
                result,
            } && item == batch[i] && from == server && result == fetched[i].1),
{
    assert forall|i: int| 0 <= i < messages.len() implies message_items(#[trigger] messages[i])
        == seq![batch[i]@] && message_server(messages[i]) == server by {
        assert(is_report_of(messages[i], server, fetched[i]));
    }
    assert forall|i: int| 0 <= i < messages.len() implies (
    #[trigger] messages[i] matches SchedulerMsg::FetchResult { item, server: from, result } && item
        == batch[i] && from == server && result == fetched[i].1) by {
        assert(is_report_of(messages[i], server, fetched[i]));
    }
}

/// How long a worker waits: half a second for each failed attempt in a row, up
/// to six of them. And what it has room for: what is missing to its depth.
pub proof fn law_backoff_and_room(failures: nat, depth: nat, outstanding: nat)
    ensures
        failures <= 6 ==> backoff_millis(failures) == 500 * failures,
        failures >= 6 ==> backoff_millis(failures) == 3000,
        outstanding <= depth ==> outstanding + room(depth, outstanding) == depth,
        outstanding > depth ==> room(depth, outstanding) == 0,
{
}

/// What a worker takes on top of what is unanswered: nothing more than waits or
/// than it has room for, and all of one of the two.
pub proof fn law_top_up_size(queue: QueueView, depth: nat, outstanding: nat)
    ensures
        ({
            let take = queue.top_up_size(depth, outstanding);
            &&& take <= queue.waiting.len()
            &&& outstanding >= depth ==> take == 0
            &&& outstanding < depth ==> outstanding + take <= depth
            &&& outstanding < depth && take < queue.waiting.len() ==> outstanding + take == depth
        }),
{
}

/// What a failed attempt leads to: after two attempts in a row that failed with
/// a terminal-class error, a third one of that class is the last; any other
/// failure is followed by a wait.
pub proof fn law_step_after_failure(failures: nat, turned_away: u32, err: FetchError)
    requires
        failures > 0,
    ensures
        ({
            let step = step_after_failure(failures, turned_away_after(turned_away, err));
            let last = (err is Auth || err is AuthRequired || err is ServiceUnavailable)
                && turned_away >= 2;
            &&& last ==> step is Retire
            &&& !last && failures <= 6 ==> step == ConnectStep::BackOff((500 * failures) as u64)
            &&& !last && failures >= 6 ==> step == ConnectStep::BackOff(3000)
        }),
        err is Auth || err is AuthRequired || err is ServiceUnavailable ==> turned_away_after(
            turned_away,
            err,
        ) == turned_away + 1,
        !(err is Auth || err is AuthRequired || err is ServiceUnavailable) ==> turned_away_after(
            turned_away,
            err,
        ) == 0,
{
}

} // verus!
