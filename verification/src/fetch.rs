//! Fetching a batch over one connection.
//!
//! Every item of a batch is issued pipelined on the connection, tagged with
//! its position in the batch; the results are mapped back to the items. The
//! caller runs the pipeline on its connection, under the batch's timeout. How
//! more items join a batch that is being fetched is in [`crate::window`].

use std::collections::HashMap;

use vstd::prelude::*;
use vstd::string::*;

use nzb_nntp::pipeline::Pipeline;

use crate::article::WorkItem;
use crate::error::{clone_err, FetchError};
use crate::span::{Span, MAX_NANOS};
use crate::text::{decimal, decimal_text, joined};

verus! {

broadcast use vstd::std_specs::hash::group_hash_axioms;

/// `nzb_nntp::pipeline::Pipeline`.
#[verifier::external_type_specification]
#[verifier::external_body]
pub struct ExPipeline(nzb_nntp::pipeline::Pipeline);

/// The requests that a pipeline holds and has not sent: message-id and tag,
/// in the order in which they will be sent.
pub uninterp spec fn queued_requests(pipeline: Pipeline) -> Seq<(Seq<char>, u64)>;

/// How many requests a pipeline keeps in flight.
pub uninterp spec fn flight_limit(pipeline: Pipeline) -> nat;

/// `nzb_nntp::pipeline::Pipeline::new`: no requests yet, and as many in
/// flight as asked for, but at least one.
pub assume_specification[ nzb_nntp::pipeline::Pipeline::new ](depth: u8) -> (pipeline: Pipeline)
    ensures
        queued_requests(pipeline) == Seq::<(Seq<char>, u64)>::empty(),
        flight_limit(pipeline) == if depth == 0 {
            1
        } else {
            depth as nat
        },
;

/// `nzb_nntp::pipeline::Pipeline::submit`: one more request, behind the
/// others.
pub assume_specification[ nzb_nntp::pipeline::Pipeline::submit ](
    pipeline: &mut Pipeline,
    message_id: String,
    tag: u64,
)
    ensures
        queued_requests(*final(pipeline)) == queued_requests(*old(pipeline)).push(
            (message_id@, tag),
        ),
        flight_limit(*final(pipeline)) == flight_limit(*old(pipeline)),
;

/// A pipeline that asks for every item of the batch, in order, each tagged
/// with its position.
pub fn build_pipeline(batch: &Vec<WorkItem>, depth: u8) -> (pipeline: Pipeline)
    ensures
        queued_requests(pipeline) == Seq::new(
            batch@.len(),
            |i: int| (batch@[i]@.article.message_id, i as u64),
        ),
        flight_limit(pipeline) == if depth == 0 {
            1
        } else {
            depth as nat
        },
{
    let mut pipeline = Pipeline::new(depth);
    let mut i: usize = 0;
    while i < batch.len()
        invariant
            i <= batch@.len(),
            queued_requests(pipeline) =~= Seq::new(
                i as nat,
                |k: int| (batch@[k]@.article.message_id, k as u64),
            ),
            flight_limit(pipeline) == if depth == 0 {
                1
            } else {
                depth as nat
            },
        decreases batch@.len() - i,
    {
        pipeline.submit(batch[i].article.message_id.clone(), i as u64);
        i += 1;
    }
    pipeline
}

/// How many nanoseconds a batch of `size` items may take, at `per_article` for
/// each: as long as its items together, or as long as one of them where that is
/// out of range.
pub open spec fn batch_limit(per_article: nat, size: usize) -> nat {
    if per_article * (size as u32) <= MAX_NANOS {
        (per_article * (size as u32)) as nat
    } else {
        per_article
    }
}

/// How many nanoseconds the next answer of such a batch may take once the batch
/// has taken `waited`: as long as one article, and no longer than what is left
/// for the batch.
pub open spec fn reply_limit(per_article: nat, waited: nat, size: usize) -> nat {
    let bound = batch_limit(per_article, size);
    let left = if bound < waited {
        0
    } else {
        (bound - waited) as nat
    };
    if left < per_article {
        left
    } else {
        per_article
    }
}

/// How long a batch of `size` items may take: as long as its items together,
/// or as long as one of them where that is out of range.
pub fn batch_timeout(per_article: Span, size: usize) -> (timeout: Span)
    ensures
        timeout@ == batch_limit(per_article@, size),
{
    match per_article.checked_mul(#[verifier::truncate] (size as u32)) {
        Some(timeout) => timeout,
        None => per_article,
    }
}

/// How long to wait for the next answer of a batch of `size` items that has
/// taken `waited` so far.
pub fn reply_timeout(per_article: Span, waited: Span, size: usize) -> (timeout: Span)
    ensures
        timeout@ == reply_limit(per_article@, waited@, size),
        timeout@ <= per_article@,
{
    let left = batch_timeout(per_article, size).saturating_sub(waited);
    if left.as_nanos() < per_article.as_nanos() {
        left
    } else {
        per_article
    }
}

/// The two timeouts together: no single fetch takes longer than the per-article
/// timeout, and the batch no longer than its articles together; and while the
/// answers so far have taken no longer than that for each, the next one has its
/// whole time.
pub proof fn law_article_timeout_bounds_each_fetch(
    per_article: nat,
    waited: nat,
    answered: nat,
    size: usize,
)
    ensures
        reply_limit(per_article, waited, size) <= per_article,
        waited <= batch_limit(per_article, size) ==> waited + reply_limit(per_article, waited, size)
            <= batch_limit(per_article, size),
        size <= u32::MAX && per_article * size <= MAX_NANOS && answered < size && waited
            <= per_article * answered ==> reply_limit(per_article, waited, size) == per_article,
{
    if size <= u32::MAX && per_article * size <= MAX_NANOS && answered < size && waited
        <= per_article * answered {
        assert(per_article * answered + per_article <= per_article * size) by (nonlinear_arith)
            requires
                answered + 1 <= size,
        ;
    }
}

/// One answer of the pipeline: the tag of the request, and the data that came
/// with the response, if any.
#[derive(Debug)]
pub struct PipelineReply {
    pub tag: u64,
    pub result: Result<Option<Vec<u8>>, FetchError>,
}

/// What came of running a batch's pipeline.
#[derive(Debug)]
pub enum BatchOutcome {
    /// It ran to its end.
    Replies(Vec<PipelineReply>),
    /// It broke off with this error.
    Aborted(FetchError),
    /// An answer took longer than it may.
    TimedOut,
}

/// The last of the first `n` replies that has this tag.
pub open spec fn last_with_tag(replies: Seq<PipelineReply>, n: int, tag: u64) -> Option<int>
    decreases n,
{
    if n <= 0 {
        None
    } else if replies[n - 1].tag == tag {
        Some(n - 1)
    } else {
        last_with_tag(replies, n - 1, tag)
    }
}

/// `result` is what a reply means for its item: the same error, or the data
/// that came, or no bytes where none came.
pub open spec fn is_result_of(
    result: Result<Vec<u8>, FetchError>,
    reply: Result<Option<Vec<u8>>, FetchError>,
) -> bool {
    match (result, reply) {
        (Ok(bytes), Ok(Some(data))) => bytes == data,
        (Ok(bytes), Ok(None)) => bytes@.len() == 0,
        (Err(e), Err(err)) => e == err,
        _ => false,
    }
}

/// `result` is what the batch's outcome means for the item at position `i`.
pub open spec fn is_item_result(
    result: Result<Vec<u8>, FetchError>,
    i: int,
    outcome: BatchOutcome,
    timeout: Span,
) -> bool {
    match outcome {
        BatchOutcome::Replies(replies) => match last_with_tag(
            replies@,
            replies@.len() as int,
            i as u64,
        ) {
            Some(j) => is_result_of(result, replies@[j].result),
            None => result matches Err(FetchError::Protocol(m)) && m@
                == "pipeline dropped response for tag"@,
        },
        BatchOutcome::Aborted(err) => result == Err::<Vec<u8>, FetchError>(err),
        BatchOutcome::TimedOut => result matches Err(FetchError::Timeout(m)) && m@
            == timeout_text(timeout@ / 1_000_000_000),
    }
}

/// What is said of a batch that took longer than so many seconds.
pub open spec fn timeout_text(secs: nat) -> Seq<char> {
    "batch timed out after "@ + decimal(secs) + "s"@
}

/// Map what came of a batch back to its items: one result for each, in the
/// order of the batch. `timeout` is the time after which it was broken off, if
/// it was.
pub fn collect_batch(batch: Vec<WorkItem>, outcome: BatchOutcome, timeout: Span) -> (results: Vec<
    (WorkItem, Result<Vec<u8>, FetchError>),
>)
    ensures
        results@.len() == batch@.len(),
        forall|i: int| 0 <= i < batch@.len() ==> (#[trigger] results@[i]).0 == batch@[i],
        forall|i: int|
            0 <= i < batch@.len() ==> is_item_result(
                (#[trigger] results@[i]).1,
                i,
                outcome,
                timeout,
            ),
{
    let mut results: Vec<(WorkItem, Result<Vec<u8>, FetchError>)> = Vec::new();
    match outcome {
        BatchOutcome::Replies(replies) => {
            let mut by_tag = replies_by_tag(replies);
            let ghost all = by_tag@;
            let size = batch.len();
            let mut i: usize = 0;
            for item in it: batch
                invariant
                    i == it.index(),
                    size == batch@.len(),
                    it.seq() == batch@,
                    results@.len() == i,
                    forall|k: int| 0 <= k < i ==> (#[trigger] results@[k]).0 == batch@[k],
                    forall|k: int|
                        0 <= k < i ==> is_item_result((#[trigger] results@[k]).1, k, outcome, timeout),
                    outcome == BatchOutcome::Replies(replies),
                    maps_replies(all, replies@, replies@.len() as int),
                    forall|t: u64|
                        t >= i ==> (#[trigger] by_tag@.contains_key(t) <==> all.contains_key(t)),
                    forall|t: u64|
                        t >= i && #[trigger] by_tag@.contains_key(t) ==> by_tag@[t] == all[t],
            {
                assert(i < size);
                let result = match by_tag.remove(&(i as u64)) {
                    Some(result) => result,
                    None => Err(
                        FetchError::Protocol("pipeline dropped response for tag".to_owned()),
                    ),
                };
                assert(all.contains_key(i as u64) <==> last_with_tag(
                    replies@,
                    replies@.len() as int,
                    i as u64,
                ) is Some);
                results.push((item, result));
                i += 1;
            }
        },
        BatchOutcome::Aborted(err) => {
            for item in it: batch
                invariant
                    it.seq() == batch@,
                    results@.len() == it.index(),
                    outcome == BatchOutcome::Aborted(err),
                    forall|k: int| 0 <= k < results@.len() ==> (#[trigger] results@[k]).0 == batch@[k],
                    forall|k: int|
                        0 <= k < results@.len() ==> is_item_result(
                            (#[trigger] results@[k]).1,
                            k,
                            outcome,
                            timeout,
                        ),
            {
                results.push((item, Err(clone_err(&err))));
            }
        },
        BatchOutcome::TimedOut => {
            for item in it: batch
                invariant
                    it.seq() == batch@,
                    results@.len() == it.index(),
                    outcome == BatchOutcome::TimedOut,
                    forall|k: int| 0 <= k < results@.len() ==> (#[trigger] results@[k]).0 == batch@[k],
                    forall|k: int|
                        0 <= k < results@.len() ==> is_item_result(
                            (#[trigger] results@[k]).1,
                            k,
                            outcome,
                            timeout,
                        ),
            {
                let secs = decimal_text(timeout.as_secs());
                let mut text = joined("batch timed out after ", secs.as_str());
                text.append("s");
                results.push((item, Err(FetchError::Timeout(text))));
            }
        },
    }
    results
}

/// The map holds, for each tag among the first `n` replies, what the last of
/// them with that tag means.
pub open spec fn maps_replies(
    by_tag: Map<u64, Result<Vec<u8>, FetchError>>,
    replies: Seq<PipelineReply>,
    n: int,
) -> bool {
    &&& forall|t: u64|
        #[trigger] by_tag.contains_key(t) <==> last_with_tag(replies, n, t) is Some
    &&& forall|t: u64| #[trigger]
        by_tag.contains_key(t) ==> is_result_of(
            by_tag[t],
            replies[last_with_tag(replies, n, t)->0].result,
        )
}

/// What a reply means for its item.
pub(crate) fn item_result(reply: Result<Option<Vec<u8>>, FetchError>) -> (result: Result<
    Vec<u8>,
    FetchError,
>)
    ensures
        is_result_of(result, reply),
{
    match reply {
        Ok(Some(data)) => Ok(data),
        Ok(None) => Ok(Vec::new()),
        Err(err) => Err(err),
    }
}

/// What each tag's last reply means for its item.
fn replies_by_tag(replies: Vec<PipelineReply>) -> (by_tag: HashMap<
    u64,
    Result<Vec<u8>, FetchError>,
>)
    ensures
        maps_replies(by_tag@, replies@, replies@.len() as int),
{
    let mut by_tag: HashMap<u64, Result<Vec<u8>, FetchError>> = HashMap::new();
    for reply in it: replies
        invariant
            it.seq() == replies@,
            maps_replies(by_tag@, replies@, it.index()),
    {
        by_tag.insert(reply.tag, item_result(reply.result));
    }
    by_tag
}

/// The sizes of the articles among the first `n` replies, in order.
pub open spec fn sizes(replies: Seq<PipelineReply>, n: int) -> Seq<u64>
    decreases n,
{
    if n <= 0 {
        Seq::empty()
    } else {
        match replies[n - 1].result {
            Ok(Some(data)) => sizes(replies, n - 1).push(data@.len() as u64),
            Ok(None) => sizes(replies, n - 1).push(0),
            Err(_) => sizes(replies, n - 1),
        }
    }
}

/// How many bytes each successful reply brought, for the connection's
/// statistics.
pub fn fetched_sizes(replies: &Vec<PipelineReply>) -> (fetched: Vec<u64>)
    ensures
        fetched@ == sizes(replies@, replies@.len() as int),
{
    let mut fetched: Vec<u64> = Vec::new();
    let mut i: usize = 0;
    while i < replies.len()
        invariant
            i <= replies@.len(),
            fetched@ == sizes(replies@, i as int),
        decreases replies@.len() - i,
    {
        match &replies[i].result {
            Ok(Some(data)) => fetched.push(data.len() as u64),
            Ok(None) => fetched.push(0),
            Err(_) => {},
        }
        i += 1;
    }
    fetched
}

/// Replies may come in any order: the only reply that bears an item's position
/// as its tag is what the item gets.
pub proof fn law_reply_reaches_its_item(
    replies: Seq<PipelineReply>,
    n: int,
    tag: u64,
    j: int,
)
    requires
        0 <= j < n <= replies.len(),
        replies[j].tag == tag,
        forall|k: int| 0 <= k < n && k != j ==> (#[trigger] replies[k]).tag != tag,
    ensures
        last_with_tag(replies, n, tag) == Some(j),
    decreases n,
{
    if n - 1 > j {
        law_reply_reaches_its_item(replies, n - 1, tag, j);
    }
}

/// What an item of a batch comes back with: what the last reply says that bears
/// its position as its tag, the data or no bytes or the error; a protocol error
/// where no reply bears it; the error that broke the pipeline off; or a timeout
/// that says after how many seconds.
pub proof fn law_item_comes_back_with_its_reply(
    result: Result<Vec<u8>, FetchError>,
    i: int,
    outcome: BatchOutcome,
    timeout: Span,
    j: int,
)
    requires
        0 <= i <= u64::MAX,
        is_item_result(result, i, outcome, timeout),
    ensures
        match outcome {
            BatchOutcome::Replies(replies) => {
                &&& 0 <= j < replies@.len() && replies@[j].tag == i && (forall|k: int|
                    j < k < replies@.len() ==> (#[trigger] replies@[k]).tag != i)
                    ==> match replies@[j].result {
                    Ok(Some(data)) => result matches Ok(bytes) && bytes@ == data@,
                    Ok(None) => result matches Ok(bytes) && bytes@ == Seq::<u8>::empty(),
                    Err(err) => result matches Err(e) && e == err,
                }
                &&& (forall|k: int| 0 <= k < replies@.len() ==> (#[trigger] replies@[k]).tag != i)
                    ==> (result matches Err(FetchError::Protocol(m)) && m@
                    == "pipeline dropped response for tag"@)
            },
            BatchOutcome::Aborted(err) => result matches Err(e) && e == err,
            BatchOutcome::TimedOut => result matches Err(FetchError::Timeout(m)) && m@
                == "batch timed out after "@ + decimal((timeout@ / 1_000_000_000) as nat) + "s"@,
        },
{
    if let BatchOutcome::Replies(replies) = outcome {
        lemma_last_with_tag(replies@, replies@.len() as int, i as u64);
    }
}

/// What `last_with_tag` finds: nothing, where no reply has the tag; else one that
/// has it, behind which no other has.
proof fn lemma_last_with_tag(replies: Seq<PipelineReply>, n: int, tag: u64)
    requires
        0 <= n <= replies.len(),
    ensures
        match last_with_tag(replies, n, tag) {
            Some(j) => 0 <= j < n && replies[j].tag == tag && forall|k: int|
                j < k < n ==> (#[trigger] replies[k]).tag != tag,
            None => forall|k: int| 0 <= k < n ==> (#[trigger] replies[k]).tag != tag,
        },
    decreases n,
{
    if n > 0 {
        lemma_last_with_tag(replies, n - 1, tag);
    }
}

/// What each further reply adds to the sizes: its number of bytes, nought where
/// it brought no data, and nothing where it failed.
pub proof fn law_each_success_adds_its_size(replies: Seq<PipelineReply>, n: int)
    requires
        0 <= n < replies.len(),
    ensures
        sizes(replies, 0) == Seq::<u64>::empty(),
        match replies[n].result {
            Ok(Some(data)) => sizes(replies, n + 1) == sizes(replies, n) + seq![data@.len() as u64],
            Ok(None) => sizes(replies, n + 1) == sizes(replies, n) + seq![0u64],
            Err(_) => sizes(replies, n + 1) == sizes(replies, n),
        },
{
    match replies[n].result {
        Ok(Some(data)) => {
            assert(sizes(replies, n + 1) =~= sizes(replies, n) + seq![data@.len() as u64]);
        },
        Ok(None) => {
            assert(sizes(replies, n + 1) =~= sizes(replies, n) + seq![0u64]);
        },
        Err(_) => {},
    }
}

/// A batch may take as long as its items one after the other, or as long as one
/// item where that is out of range; and an answer as long as one item, or as
/// long as is left for the batch, whichever is less.
pub proof fn law_timeouts_are_scaled(per_article: nat, waited: nat, size: usize)
    requires
        size <= u32::MAX,
        per_article <= MAX_NANOS,
    ensures
        per_article * size <= MAX_NANOS ==> batch_limit(per_article, size) == per_article * size,
        per_article * size > MAX_NANOS ==> batch_limit(per_article, size) == per_article,
        waited + per_article <= batch_limit(per_article, size) ==> reply_limit(
            per_article,
            waited,
            size,
        ) == per_article,
        waited <= batch_limit(per_article, size) < waited + per_article ==> waited + reply_limit(
            per_article,
            waited,
            size,
        ) == batch_limit(per_article, size),
        waited > batch_limit(per_article, size) ==> reply_limit(per_article, waited, size) == 0,
{
}

} // verus!
