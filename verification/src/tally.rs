//! What the counters of files and jobs say: how many of their articles have
//! arrived, with how many bytes, and how many were given up on, according to
//! the outcomes that were emitted.

use vstd::prelude::*;

use crate::article::{FileView, ItemView, JobView, LedgerView};
use crate::flow::{Flow, FlowStep};
use crate::outcome::{OutcomeView, SchedulerMsg};
use crate::pass::{key, lemma_step_fits, ItemKey, Pass, Setting};
use crate::scheduler::{
    cancelled, exhausted, ledger_after_return, lemma_return_keeps_size, message_items,
};

verus! {

/// An outcome, and the key of the item that it was emitted for.
pub type Emitted = (ItemKey, OutcomeView);

/// The sum of what each emitted outcome counts for.
pub open spec fn total(emitted: Seq<Emitted>, worth: spec_fn(Emitted) -> nat) -> nat
    decreases emitted.len(),
{
    if emitted.len() == 0 {
        0
    } else {
        total(emitted.drop_last(), worth) + worth(emitted.last())
    }
}

/// Counts the articles of a job that arrived.
pub open spec fn arrived_in(job: int) -> spec_fn(Emitted) -> nat {
    |e: Emitted|
        if e.0.3 == job && e.1 is Success {
            1
        } else {
            0
        }
}

/// Counts the bytes of a job that arrived.
pub open spec fn bytes_in(job: int) -> spec_fn(Emitted) -> nat {
    |e: Emitted|
        match e.1 {
            OutcomeView::Success { article_bytes, .. } => if e.0.3 == job {
                article_bytes as nat
            } else {
                0
            },
            _ => 0,
        }
}

/// Counts the articles of a job that were given up on.
pub open spec fn given_up_in(job: int) -> spec_fn(Emitted) -> nat {
    |e: Emitted|
        if e.0.3 == job && e.1 is Failed {
            1
        } else {
            0
        }
}

/// Counts the articles of a file that arrived.
pub open spec fn completed_in(file: int) -> spec_fn(Emitted) -> nat {
    |e: Emitted|
        if e.0.2 == file && e.1 is Success {
            1
        } else {
            0
        }
}

/// A number as a 64-bit counter shows it.
pub open spec fn shown(n: nat) -> u64 {
    (n % 0x1_0000_0000_0000_0000) as u64
}

/// The job's counters have moved since `entered` as the outcomes say.
pub open spec fn job_tallied(
    job: JobView,
    entered: JobView,
    emitted: Seq<Emitted>,
    j: int,
) -> bool {
    &&& job.downloaded == shown(entered.downloaded as nat + total(emitted, arrived_in(j)))
    &&& job.bytes == shown(entered.bytes as nat + total(emitted, bytes_in(j)))
    &&& job.failed == shown(entered.failed as nat + total(emitted, given_up_in(j)))
}

/// The file's counter has moved since `entered` as the outcomes say.
pub open spec fn file_tallied(
    file: FileView,
    entered: FileView,
    emitted: Seq<Emitted>,
    f: int,
) -> bool {
    file.completed == shown(entered.completed as nat + total(emitted, completed_in(f)))
}

/// The outcome was emitted for an item that the ledger knows.
pub open spec fn places(ledger: LedgerView, e: Emitted) -> bool {
    e.0.2 < ledger.files.len() && e.0.3 < ledger.jobs.len()
}

/// The counters of every file and every job in the ledger have moved, since
/// they were entered, as the outcomes say.
pub open spec fn tallied(ledger: LedgerView, entered: LedgerView, emitted: Seq<Emitted>) -> bool {
    &&& ledger.same_size(entered)
    &&& forall|i: int| 0 <= i < emitted.len() ==> places(ledger, #[trigger] emitted[i])
    &&& forall|j: int|
        0 <= j < ledger.jobs.len() ==> job_tallied(
            #[trigger] ledger.jobs[j],
            entered.jobs[j],
            emitted,
            j,
        )
    &&& forall|f: int|
        0 <= f < ledger.files.len() ==> file_tallied(
            #[trigger] ledger.files[f],
            entered.files[f],
            emitted,
            f,
        )
}

impl Flow {
    /// The counters of every file and every job say what was emitted.
    pub open spec fn tallied(self) -> bool {
        tallied(self.scheduler.ledger, self.entered, self.emitted)
    }
}

/// Adding to a counter adds to the number that it shows.
proof fn lemma_shown_add(n: nat, k: u64)
    ensures
        shown(n).wrapping_add(k) == shown(n + k as nat),
{
}

/// One more outcome adds its worth.
proof fn lemma_total_push(emitted: Seq<Emitted>, e: Emitted, worth: spec_fn(Emitted) -> nat)
    ensures
        total(emitted.push(e), worth) == total(emitted, worth) + worth(e),
{
    assert(emitted.push(e).drop_last() =~= emitted);
}

/// Outcomes that are worth nothing add nothing.
proof fn lemma_total_of_worthless(
    emitted: Seq<Emitted>,
    more: Seq<Emitted>,
    worth: spec_fn(Emitted) -> nat,
)
    requires
        forall|i: int| 0 <= i < more.len() ==> worth(#[trigger] more[i]) == 0,
    ensures
        total(emitted + more, worth) == total(emitted, worth),
    decreases more.len(),
{
    if more.len() == 0 {
        assert(emitted + more =~= emitted);
    } else {
        lemma_total_of_worthless(emitted, more.drop_last(), worth);
        assert((emitted + more).drop_last() =~= emitted + more.drop_last());
    }
}

/// Only counters are tallied: a ledger with the same counters is as good.
proof fn lemma_same_counters(
    ledger: LedgerView,
    other: LedgerView,
    entered: LedgerView,
    emitted: Seq<Emitted>,
)
    requires
        tallied(ledger, entered, emitted),
        other.same_size(ledger),
        forall|j: int|
            0 <= j < ledger.jobs.len() ==> (#[trigger] other.jobs[j]).downloaded
                == ledger.jobs[j].downloaded && other.jobs[j].bytes == ledger.jobs[j].bytes
                && other.jobs[j].failed == ledger.jobs[j].failed,
        forall|f: int|
            0 <= f < ledger.files.len() ==> (#[trigger] other.files[f]).completed
                == ledger.files[f].completed,
    ensures
        tallied(other, entered, emitted),
{
    assert forall|i: int| 0 <= i < emitted.len() implies places(other, #[trigger] emitted[i]) by {
        assert(places(ledger, emitted[i]));
    }
    assert forall|j: int| 0 <= j < other.jobs.len() implies job_tallied(
        #[trigger] other.jobs[j],
        entered.jobs[j],
        emitted,
        j,
    ) by {
        assert(job_tallied(ledger.jobs[j], entered.jobs[j], emitted, j));
    }
    assert forall|f: int| 0 <= f < other.files.len() implies file_tallied(
        #[trigger] other.files[f],
        entered.files[f],
        emitted,
        f,
    ) by {
        assert(file_tallied(ledger.files[f], entered.files[f], emitted, f));
    }
}

/// Giving an item up counts once, as its outcome does.
proof fn lemma_give_up_tallied(
    ledger: LedgerView,
    entered: LedgerView,
    emitted: Seq<Emitted>,
    item: ItemView,
    outcome: OutcomeView,
)
    requires
        tallied(ledger, entered, emitted),
        ledger.knows(item),
        outcome is Failed,
    ensures
        tallied(ledger.after_give_up(item), entered, emitted.push((key(item), outcome))),
{
    let e = (key(item), outcome);
    let after = ledger.after_give_up(item);
    assert forall|i: int| 0 <= i < emitted.push(e).len() implies places(
        after,
        #[trigger] emitted.push(e)[i],
    ) by {
        if i < emitted.len() {
            assert(places(ledger, emitted[i]));
        }
    }
    assert forall|j: int| 0 <= j < after.jobs.len() implies job_tallied(
        #[trigger] after.jobs[j],
        entered.jobs[j],
        emitted.push(e),
        j,
    ) by {
        assert(job_tallied(ledger.jobs[j], entered.jobs[j], emitted, j));
        lemma_total_push(emitted, e, arrived_in(j));
        lemma_total_push(emitted, e, bytes_in(j));
        lemma_total_push(emitted, e, given_up_in(j));
        lemma_shown_add(entered.jobs[j].failed as nat + total(emitted, given_up_in(j)), 1);
    }
    assert forall|f: int| 0 <= f < after.files.len() implies file_tallied(
        #[trigger] after.files[f],
        entered.files[f],
        emitted.push(e),
        f,
    ) by {
        assert(file_tallied(ledger.files[f], entered.files[f], emitted, f));
        lemma_total_push(emitted, e, completed_in(f));
    }
}

/// An article that arrives counts once, as its outcome does.
proof fn lemma_download_tallied(
    ledger: LedgerView,
    entered: LedgerView,
    emitted: Seq<Emitted>,
    item: ItemView,
    outcome: OutcomeView,
)
    requires
        tallied(ledger, entered, emitted),
        ledger.knows(item),
        outcome is Success,
    ensures
        tallied(
            ledger.after_download(item, outcome->article_bytes),
            entered,
            emitted.push((key(item), outcome)),
        ),
{
    let e = (key(item), outcome);
    let bytes = outcome->article_bytes;
    let after = ledger.after_download(item, bytes);
    assert forall|i: int| 0 <= i < emitted.push(e).len() implies places(
        after,
        #[trigger] emitted.push(e)[i],
    ) by {
        if i < emitted.len() {
            assert(places(ledger, emitted[i]));
        }
    }
    assert forall|j: int| 0 <= j < after.jobs.len() implies job_tallied(
        #[trigger] after.jobs[j],
        entered.jobs[j],
        emitted.push(e),
        j,
    ) by {
        assert(job_tallied(ledger.jobs[j], entered.jobs[j], emitted, j));
        lemma_total_push(emitted, e, arrived_in(j));
        lemma_total_push(emitted, e, bytes_in(j));
        lemma_total_push(emitted, e, given_up_in(j));
        lemma_shown_add(entered.jobs[j].downloaded as nat + total(emitted, arrived_in(j)), 1);
        lemma_shown_add(entered.jobs[j].bytes as nat + total(emitted, bytes_in(j)), bytes);
    }
    assert forall|f: int| 0 <= f < after.files.len() implies file_tallied(
        #[trigger] after.files[f],
        entered.files[f],
        emitted.push(e),
        f,
    ) by {
        assert(file_tallied(ledger.files[f], entered.files[f], emitted, f));
        lemma_total_push(emitted, e, completed_in(f));
        lemma_shown_add(entered.files[f].completed as nat + total(emitted, completed_in(f)), 1);
    }
}

/// Cancelled items do not count.
proof fn lemma_cancelled_tallied(
    ledger: LedgerView,
    entered: LedgerView,
    emitted: Seq<Emitted>,
    work: Seq<ItemView>,
)
    requires
        tallied(ledger, entered, emitted),
        ledger.knows_all(work),
    ensures
        tallied(
            ledger,
            entered,
            emitted + work.map_values(|item: ItemView| (key(item), cancelled(item))),
        ),
{
    let more = work.map_values(|item: ItemView| (key(item), cancelled(item)));
    assert forall|i: int| 0 <= i < (emitted + more).len() implies places(
        ledger,
        #[trigger] (emitted + more)[i],
    ) by {
        if i < emitted.len() {
            assert(places(ledger, emitted[i]));
        } else {
            assert(ledger.knows(work[i - emitted.len()]));
        }
    }
    assert forall|j: int| 0 <= j < ledger.jobs.len() implies job_tallied(
        #[trigger] ledger.jobs[j],
        entered.jobs[j],
        emitted + more,
        j,
    ) by {
        assert(job_tallied(ledger.jobs[j], entered.jobs[j], emitted, j));
        lemma_total_of_worthless(emitted, more, arrived_in(j));
        lemma_total_of_worthless(emitted, more, bytes_in(j));
        lemma_total_of_worthless(emitted, more, given_up_in(j));
    }
    assert forall|f: int| 0 <= f < ledger.files.len() implies file_tallied(
        #[trigger] ledger.files[f],
        entered.files[f],
        emitted + more,
        f,
    ) by {
        assert(file_tallied(ledger.files[f], entered.files[f], emitted, f));
        lemma_total_of_worthless(emitted, more, completed_in(f));
    }
}

/// The outcomes of a dispatch pass, behind those that were there before.
spec fn with_given_up(emitted: Seq<Emitted>, given_up: Seq<ItemView>) -> Seq<Emitted> {
    emitted + given_up.map_values(|item: ItemView| (key(item), exhausted(item)))
}

/// A dispatch pass counts the items that it gives up on, and nothing else.
proof fn lemma_run_tallied(setting: Setting, p: Pass, entered: LedgerView, emitted: Seq<Emitted>)
    requires
        setting.fits(p),
        tallied(p.ledger, entered, with_given_up(emitted, p.given_up)),
    ensures
        tallied(
            setting.run(p).ledger,
            entered,
            with_given_up(emitted, setting.run(p).given_up),
        ),
    decreases p.pending.len() - p.next,
{
    if p.next < p.pending.len() {
        lemma_step_fits(setting, p);
        let q = setting.reset_if_due(p);
        let r = setting.step(p);
        let item = q.pending[q.next];
        assert(p.ledger.knows(p.pending[p.next]));
        lemma_same_counters(p.ledger, q.ledger, entered, with_given_up(emitted, p.given_up));
        if setting.selection(q.batches, q.ledger, item) is GiveUp {
            lemma_give_up_tallied(
                q.ledger,
                entered,
                with_given_up(emitted, q.given_up),
                item,
                exhausted(item),
            );
            assert(with_given_up(emitted, r.given_up) =~= with_given_up(emitted, q.given_up).push(
                (key(item), exhausted(item)),
            ));
        }
        lemma_run_tallied(setting, r, entered, emitted);
    }
}

/// Items that come back unattempted do not count.
proof fn lemma_return_tallied(
    ledger: LedgerView,
    entered: LedgerView,
    emitted: Seq<Emitted>,
    work: Seq<ItemView>,
    server: Seq<char>,
    n: int,
)
    requires
        tallied(ledger, entered, emitted),
        ledger.knows_all(work),
        n <= work.len(),
    ensures
        tallied(ledger_after_return(ledger, work, server, n), entered, emitted),
    decreases n,
{
    if n > 0 {
        lemma_return_tallied(ledger, entered, emitted, work, server, n - 1);
        lemma_return_keeps_size(ledger, work, server, n - 1);
        assert(ledger.knows(work[n - 1]));
        lemma_same_counters(
            ledger_after_return(ledger, work, server, n - 1),
            ledger_after_return(ledger, work, server, n),
            entered,
            emitted,
        );
    }
}

/// Whatever happens next, the counters go on saying what was emitted.
pub proof fn law_every_step_is_tallied(flow: Flow, step: FlowStep)
    requires
        flow.consistent(),
        flow.tallied(),
        flow.allows(step),
    ensures
        flow.after(step).tallied(),
{
    let next = flow.after(step);
    let (ledger, entered, emitted) = (flow.scheduler.ledger, flow.entered, flow.emitted);
    match step {
        FlowStep::AddFile(_) => {
            assert forall|i: int| 0 <= i < emitted.len() implies places(
                next.scheduler.ledger,
                #[trigger] emitted[i],
            ) by {
                assert(places(ledger, emitted[i]));
            }
            let new = ledger.files.len() as int;
            assert(Seq::<Emitted>::empty() + emitted =~= emitted);
            assert forall|i: int| 0 <= i < emitted.len() implies completed_in(new)(
                #[trigger] emitted[i],
            ) == 0 by {
                assert(places(ledger, emitted[i]));
            }
            lemma_total_of_worthless(Seq::empty(), emitted, completed_in(new));
            assert forall|f: int| 0 <= f < next.scheduler.ledger.files.len() implies file_tallied(
                #[trigger] next.scheduler.ledger.files[f],
                next.entered.files[f],
                emitted,
                f,
            ) by {
                if f < new {
                    assert(file_tallied(ledger.files[f], entered.files[f], emitted, f));
                }
            }
        },
        FlowStep::AddJob(_) => {
            assert forall|i: int| 0 <= i < emitted.len() implies places(
                next.scheduler.ledger,
                #[trigger] emitted[i],
            ) by {
                assert(places(ledger, emitted[i]));
            }
            let new = ledger.jobs.len() as int;
            assert(Seq::<Emitted>::empty() + emitted =~= emitted);
            assert forall|i: int| 0 <= i < emitted.len() implies (#[trigger] emitted[i]).0.3
                != new by {
                assert(places(ledger, emitted[i]));
            }
            lemma_total_of_worthless(Seq::empty(), emitted, arrived_in(new));
            lemma_total_of_worthless(Seq::empty(), emitted, bytes_in(new));
            lemma_total_of_worthless(Seq::empty(), emitted, given_up_in(new));
            assert forall|j: int| 0 <= j < next.scheduler.ledger.jobs.len() implies job_tallied(
                #[trigger] next.scheduler.ledger.jobs[j],
                next.entered.jobs[j],
                emitted,
                j,
            ) by {
                if j < new {
                    assert(job_tallied(ledger.jobs[j], entered.jobs[j], emitted, j));
                }
            }
        },
        FlowStep::Event(_) => {},
        FlowStep::Dispatch { status, depths, waiting, now } => {
            let setting = flow.scheduler.setting(status, depths, waiting, now);
            let start = flow.scheduler.pass();
            assert(with_given_up(emitted, start.given_up) =~= emitted);
            lemma_run_tallied(setting, start, entered, emitted);
        },
        FlowStep::Pop { .. } => {},
        FlowStep::Message { msg, at: _, status, loads } => {
            let work = message_items(msg);
            match msg {
                SchedulerMsg::FetchResult { item, server, result } => {
                    assert(ledger.knows(work[0]));
                    let id = flow.scheduler.servers[server as int].id@;
                    match result {
                        Ok(bytes) => {
                            let outcome = flow.scheduler.after_message(msg, status, loads).1->0;
                            lemma_download_tallied(ledger, entered, emitted, item@, outcome);
                        },
                        Err(err) => {
                            let failed = item@.after_failure(id, !(err is ArticleNotFound));
                            let recorded = ledger.after_failure(item@, id);
                            lemma_same_counters(ledger, recorded, entered, emitted);
                            if let Some(outcome) = flow.scheduler.after_message(
                                msg,
                                status,
                                loads,
                            ).1 {
                                lemma_give_up_tallied(recorded, entered, emitted, failed, outcome);
                            }
                        },
                    }
                },
                SchedulerMsg::ReturnUnattempted { items: _, server, .. } => {
                    let id = flow.scheduler.servers[server as int].id@;
                    lemma_return_tallied(ledger, entered, emitted, work, id, work.len() as int);
                },
            }
        },
        FlowStep::Cancel => {
            lemma_cancelled_tallied(ledger, entered, emitted, flow.scheduler.pending);
        },
    }
}

/// From the start on, whatever happens in whatever order: a job's counters
/// have gone up by the articles (and bytes) of its that were emitted as
/// successes and by those that were emitted as failures, and a file's by its
/// successes.
pub proof fn law_counters_tell_the_outcomes(start: Flow, steps: Seq<FlowStep>)
    requires
        start.initial(),
        start.allows_all(steps),
    ensures
        start.after_all(steps).tallied(),
    decreases steps.len(),
{
    if steps.len() == 0 {
        assert forall|j: int| 0 <= j < start.entered.jobs.len() implies job_tallied(
            #[trigger] start.scheduler.ledger.jobs[j],
            start.entered.jobs[j],
            start.emitted,
            j,
        ) by {}
    } else {
        law_counters_tell_the_outcomes(start, steps.drop_last());
        crate::flow::law_no_item_is_ever_lost(start, steps.drop_last());
        law_every_step_is_tallied(start.after_all(steps.drop_last()), steps.last());
    }
}

} // verus!
