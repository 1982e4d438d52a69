//! The requests of one connection that are unanswered.
//!
//! A worker does not wait for a batch to finish before it pulls more work: each
//! answer makes room for another request. The window holds the items whose
//! requests are outstanding, each under the tag of its request, hands an item
//! out when its answer comes, and gives back what is left when the connection
//! breaks.

use vstd::prelude::*;

use nzb_nntp::pipeline::Pipeline;

use crate::article::{items, ItemView, WorkItem};
use crate::error::{is_fatal, FetchError};
use crate::fetch::{
    build_pipeline, flight_limit, is_result_of, item_result, queued_requests, BatchOutcome,
    PipelineReply,
};

verus! {

/// Items whose requests are unanswered, with the tags of their requests.
pub struct Window {
    outstanding: Vec<(u64, WorkItem)>,
    next_tag: u64,
}

/// What a [`Window`] holds.
#[verifier::ext_equal]
pub struct WindowView {
    pub outstanding: Seq<(u64, ItemView)>,
    pub next_tag: u64,
}

impl View for Window {
    type V = WindowView;

    closed spec fn view(&self) -> WindowView {
        WindowView {
            outstanding: self.outstanding@.map_values(|e: (u64, WorkItem)| (e.0, e.1@)),
            next_tag: self.next_tag,
        }
    }
}

/// The requests for these items, tagged from `first` on.
pub open spec fn requests(work: Seq<ItemView>, first: u64) -> Seq<(Seq<char>, u64)> {
    Seq::new(work.len(), |i: int| (work[i].article.message_id, (first + i) as u64))
}

/// These items, under the tags from `first` on.
pub open spec fn entries(work: Seq<ItemView>, first: u64) -> Seq<(u64, ItemView)> {
    Seq::new(work.len(), |i: int| ((first + i) as u64, work[i]))
}

/// The first of the first `n` entries that has this tag.
pub open spec fn first_with_tag(
    outstanding: Seq<(u64, ItemView)>,
    tag: u64,
    n: int,
) -> Option<int>
    decreases n,
{
    if n <= 0 {
        None
    } else {
        match first_with_tag(outstanding, tag, n - 1) {
            Some(i) => Some(i),
            None => if outstanding[n - 1].0 == tag {
                Some(n - 1)
            } else {
                None
            },
        }
    }
}

impl WindowView {
    /// Tags are given out in rising order, and none twice.
    pub open spec fn well_formed(self) -> bool {
        &&& forall|i: int, j: int|
            0 <= i < j < self.outstanding.len() ==> (#[trigger] self.outstanding[i]).0 < (
            #[trigger] self.outstanding[j]).0
        &&& forall|i: int|
            0 <= i < self.outstanding.len() ==> (#[trigger] self.outstanding[i]).0 < self.next_tag
    }

    /// The items whose requests are unanswered, oldest first.
    pub open spec fn work(self) -> Seq<ItemView> {
        self.outstanding.map_values(|e: (u64, ItemView)| e.1)
    }

    /// Where the item stands whose request has this tag, if it is unanswered.
    pub open spec fn at(self, tag: u64) -> Option<int> {
        first_with_tag(self.outstanding, tag, self.outstanding.len() as int)
    }

    /// The window with `more` behind what was outstanding.
    pub open spec fn after_extend(self, more: Seq<ItemView>) -> WindowView {
        WindowView {
            outstanding: self.outstanding + entries(more, self.next_tag),
            next_tag: (self.next_tag + more.len()) as u64,
        }
    }

    /// The window without the item at `i`.
    pub open spec fn after_settle(self, i: int) -> WindowView {
        WindowView { outstanding: self.outstanding.remove(i), ..self }
    }
}

/// What `first_with_tag` finds: nothing, where no entry has the tag; else an
/// entry that has it, before which no other has.
pub proof fn lemma_first_with_tag(outstanding: Seq<(u64, ItemView)>, tag: u64, n: int)
    requires
        0 <= n <= outstanding.len(),
    ensures
        match first_with_tag(outstanding, tag, n) {
            Some(i) => 0 <= i < n && outstanding[i].0 == tag && forall|j: int|
                0 <= j < i ==> (#[trigger] outstanding[j]).0 != tag,
            None => forall|j: int| 0 <= j < n ==> (#[trigger] outstanding[j]).0 != tag,
        },
    decreases n,
{
    if n > 0 {
        lemma_first_with_tag(outstanding, tag, n - 1);
    }
}

/// Answers may come in any order: the one that bears the tag of an item's
/// request settles that item.
pub proof fn law_reply_settles_its_item(window: WindowView, i: int)
    requires
        window.well_formed(),
        0 <= i < window.outstanding.len(),
    ensures
        window.at(window.outstanding[i].0) == Some(i),
{
    let tag = window.outstanding[i].0;
    lemma_first_with_tag(window.outstanding, tag, window.outstanding.len() as int);
}

/// An answer that bears the tag of no outstanding request settles nothing.
pub proof fn law_unknown_tag_settles_nothing(window: WindowView, tag: u64)
    ensures
        window.at(tag) is None <==> forall|i: int|
            0 <= i < window.outstanding.len() ==> (#[trigger] window.outstanding[i]).0 != tag,
{
    lemma_first_with_tag(window.outstanding, tag, window.outstanding.len() as int);
}

impl Window {
    /// Start with a batch: its items are outstanding, and the pipeline asks for
    /// each of them.
    pub fn open(batch: Vec<WorkItem>, depth: u8) -> (opened: (Window, Pipeline))
        ensures
            opened.0@ == (WindowView { outstanding: Seq::empty(), next_tag: 0 }).after_extend(
                items(batch@),
            ),
            opened.0@.well_formed(),
            queued_requests(opened.1) == requests(items(batch@), 0),
            flight_limit(opened.1) == if depth == 0 {
                1
            } else {
                depth as nat
            },
            queued_requests(opened.1).len() == batch@.len(),
            opened.0@.outstanding.len() == batch@.len(),
            forall|k: int|
                0 <= k < batch@.len() ==> opened.0@.outstanding[k].1 == (#[trigger] batch@[k])@
                    && queued_requests(opened.1)[k] == (
                    batch@[k]@.article.message_id,
                    opened.0@.outstanding[k].0,
                ),
    {
        let size = batch.len();
        assert(size == batch@.len());
        let pipeline = build_pipeline(&batch, depth);
        assert(queued_requests(pipeline) =~= requests(items(batch@), 0));
        let mut window = Window { outstanding: Vec::new(), next_tag: 0 };
        window.hold(batch);
        assert(window@.outstanding =~= Seq::<(u64, ItemView)>::empty() + entries(
            items(batch@),
            0,
        ));
        (window, pipeline)
    }

    /// Hold these items, under the next tags.
    fn hold(&mut self, more: Vec<WorkItem>)
        requires
            old(self)@.well_formed(),
            old(self)@.next_tag + more@.len() <= u64::MAX,
        ensures
            final(self)@ == old(self)@.after_extend(items(more@)),
            final(self)@.well_formed(),
    {
        let ghost before = self@;
        let ghost all = items(more@);
        let ghost size = more@.len();
        for item in it: more
            invariant
                items(it.seq()) == all,
                size == all.len(),
                before.next_tag + size <= u64::MAX,
                self.next_tag == before.next_tag + it.index(),
                self@.outstanding == before.outstanding + entries(
                    all.take(it.index()),
                    before.next_tag,
                ),
        {
            let ghost k = it.index();
            let ghost held = self@.outstanding;
            assert(all[k] == item@);
            self.outstanding.push((self.next_tag, item));
            self.next_tag = self.next_tag + 1;
            assert(self@.outstanding =~= held.push(((before.next_tag + k) as u64, all[k])));
            assert(self@.outstanding =~= before.outstanding + entries(
                all.take(k + 1),
                before.next_tag,
            ));
        }
        assert(all.take(size as int) =~= all);
    }

    /// Take more items in while others are unanswered: they are outstanding
    /// too, and the pipeline asks for them behind the others.
    pub fn extend(&mut self, more: Vec<WorkItem>, pipeline: &mut Pipeline)
        requires
            old(self)@.well_formed(),
            old(self)@.next_tag + more@.len() <= u64::MAX,
        ensures
            final(self)@ == old(self)@.after_extend(items(more@)),
            final(self)@.well_formed(),
            queued_requests(*final(pipeline)) == queued_requests(*old(pipeline)) + requests(
                items(more@),
                old(self)@.next_tag,
            ),
            flight_limit(*final(pipeline)) == flight_limit(*old(pipeline)),
            forall|k: int|
                0 <= k < more@.len() ==> #[trigger] queued_requests(*final(pipeline))[queued_requests(
                    *old(pipeline),
                ).len() + k] == (
                    (#[trigger] more@[k])@.article.message_id,
                    final(self)@.outstanding[old(self)@.outstanding.len() + k].0,
                ),
    {
        let ghost before = queued_requests(*pipeline);
        let first = self.next_tag;
        let mut i: usize = 0;
        while i < more.len()
            invariant
                i <= more@.len(),
                first + more@.len() <= u64::MAX,
                queued_requests(*pipeline) == before + requests(items(more@).take(i as int), first),
                flight_limit(*pipeline) == flight_limit(*old(pipeline)),
            decreases more@.len() - i,
        {
            pipeline.submit(more[i].article.message_id.clone(), first + i as u64);
            assert(queued_requests(*pipeline) =~= before + requests(
                items(more@).take(i + 1),
                first,
            ));
            i += 1;
        }
        assert(items(more@).take(i as int) =~= items(more@));
        self.hold(more);
    }

    /// How many requests are unanswered.
    pub fn len(&self) -> (count: usize)
        ensures
            count == self@.outstanding.len(),
    {
        self.outstanding.len()
    }

    /// How many items the window has taken in since it was opened: the size of
    /// the batch, as it stands.
    pub fn taken(&self) -> (count: u64)
        ensures
            count == self@.next_tag,
    {
        self.next_tag
    }

    /// How many more items it may take in before it has to run empty: a timeout
    /// is scaled by a number of 32 bits.
    pub fn places_left(&self) -> (count: u64)
        ensures
            count == (if self@.next_tag < u32::MAX {
                (u32::MAX - self@.next_tag) as u64
            } else {
                0
            }),
    {
        let most = u32::MAX as u64;
        if self.next_tag < most {
            most - self.next_tag
        } else {
            0
        }
    }

    /// An answer came: hand its item out, with what the answer means for it.
    /// An answer to no outstanding request changes nothing.
    pub fn settle(&mut self, reply: PipelineReply) -> (settled: Option<
        (WorkItem, Result<Vec<u8>, FetchError>),
    >)
        requires
            old(self)@.well_formed(),
        ensures
            settled is Some <==> old(self)@.at(reply.tag) is Some,
            settled matches Some((item, result)) ==> {
                let i = old(self)@.at(reply.tag)->0;
                &&& item@ == old(self)@.outstanding[i].1
                &&& is_result_of(result, reply.result)
                &&& final(self)@ == old(self)@.after_settle(i)
            },
            settled is None ==> final(self)@ == old(self)@,
            final(self)@.well_formed(),
    {
        let ghost before = self@;
        let mut i: usize = 0;
        while i < self.outstanding.len() && self.outstanding[i].0 != reply.tag
            invariant
                i <= self.outstanding@.len(),
                forall|j: int| 0 <= j < i ==> (#[trigger] self.outstanding@[j]).0 != reply.tag,
            decreases self.outstanding@.len() - i,
        {
            i += 1;
        }
        proof {
            lemma_first_with_tag(before.outstanding, reply.tag, before.outstanding.len() as int);
            assert forall|j: int| 0 <= j < i implies (#[trigger] before.outstanding[j]).0
                != reply.tag by {
                assert(before.outstanding[j].0 == self.outstanding@[j].0);
            }
        }
        if i == self.outstanding.len() {
            return None;
        }
        assert(before.outstanding[i as int].0 == reply.tag);
        let (_, item) = self.outstanding.remove(i);
        assert(self@ =~= before.after_settle(i as int));
        Some((item, item_result(reply.result)))
    }

    /// Give back the items that are unanswered, oldest first.
    pub fn close(self) -> (rest: Vec<WorkItem>)
        ensures
            items(rest@) == self@.work(),
    {
        let ghost all = self.outstanding@;
        let mut rest: Vec<WorkItem> = Vec::new();
        for entry in it: self.outstanding
            invariant
                it.seq() == all,
                rest@.len() == it.index(),
                forall|j: int| 0 <= j < rest@.len() ==> #[trigger] rest@[j] == all[j].1,
        {
            let (_, item) = entry;
            rest.push(item);
        }
        assert(items(rest@) =~= self@.work());
        rest
    }
}

/// Does an answer end the fetching on its connection? After a fatal error the
/// requests that are still unanswered will not be answered.
pub fn cut_short(reply: &PipelineReply) -> (outcome: Option<BatchOutcome>)
    ensures
        outcome is Some <==> (reply.result matches Err(err) && is_fatal(err)),
        outcome matches Some(o) ==> (o matches BatchOutcome::Aborted(FetchError::Connection(m))
            && m@ == "Pipeline aborted due to fatal error"@),
{
    match &reply.result {
        Ok(_) => None,
        Err(err) => if err.fatal() {
            Some(
                BatchOutcome::Aborted(
                    FetchError::Connection("Pipeline aborted due to fatal error".to_owned()),
                ),
            )
        } else {
            None
        },
    }
}

/// Each request bears the tag under which the window holds its item: the `k`-th
/// request that extending a window adds is for the `k`-th item that it adds, by
/// its message-id, and bears the tag of that item's entry.
pub proof fn law_requests_bear_their_items_tags(window: WindowView, more: Seq<ItemView>, k: int)
    requires
        window.well_formed(),
        window.next_tag + more.len() <= u64::MAX,
        0 <= k < more.len(),
    ensures
        ({
            let after = window.after_extend(more);
            let added = requests(more, window.next_tag);
            let before = window.outstanding.len();
            &&& added.len() == more.len()
            &&& after.outstanding.len() == before + more.len()
            &&& added[k].0 == more[k].article.message_id
            &&& after.outstanding[before + k].1 == more[k]
            &&& added[k].1 == after.outstanding[before + k].0
            &&& after.at(added[k].1) == Some(before + k)
        }),
{
    let after = window.after_extend(more);
    lemma_extend_keeps_order(window, more);
    law_reply_settles_its_item(after, window.outstanding.len() + k);
}

/// No two requests of a window bear the same tag: those that are added bear
/// rising tags that no request before them bore, and leave the tags behind them
/// to later ones.
pub proof fn law_no_tag_is_given_twice(
    window: WindowView,
    more: Seq<ItemView>,
    later: Seq<ItemView>,
    i: int,
    j: int,
)
    requires
        window.well_formed(),
        window.next_tag + more.len() + later.len() <= u64::MAX,
        0 <= i < more.len(),
        0 <= j < later.len(),
    ensures
        ({
            let added = requests(more, window.next_tag);
            let then = requests(later, window.after_extend(more).next_tag);
            &&& forall|k: int|
                0 <= k < window.outstanding.len() ==> (#[trigger] window.outstanding[k]).0
                    < added[i].1
            &&& forall|k: int| i < k < more.len() ==> added[i].1 < (#[trigger] added[k]).1
            &&& added[i].1 < then[j].1
        }),
{
}

/// Extending a window keeps what was outstanding, and settling an answer takes
/// out the one item that it is for; either keeps the order.
pub proof fn law_window_keeps_its_items(window: WindowView, more: Seq<ItemView>, at: int)
    requires
        window.well_formed(),
        window.next_tag + more.len() <= u64::MAX,
        0 <= at < window.outstanding.len(),
    ensures
        window.after_extend(more).work() == window.work() + more,
        forall|i: int|
            0 <= i < window.outstanding.len() ==> #[trigger] window.after_extend(
                more,
            ).outstanding[i] == window.outstanding[i],
        window.after_settle(at).work() == window.work().take(at) + window.work().skip(at + 1),
        forall|i: int|
            0 <= i < at ==> #[trigger] window.after_settle(at).outstanding[i]
                == window.outstanding[i],
        forall|i: int|
            at <= i < window.outstanding.len() - 1 ==> #[trigger] window.after_settle(
                at,
            ).outstanding[i] == window.outstanding[i + 1],
        window.after_settle(at).next_tag == window.next_tag,
        window.work().len() == window.outstanding.len(),
        window.work()[at] == window.outstanding[at].1,
{
    assert(window.after_extend(more).work() =~= window.work() + more);
    assert(window.after_settle(at).work() =~= window.work().take(at) + window.work().skip(at + 1));
}

/// Extending a window keeps its tags in rising order.
proof fn lemma_extend_keeps_order(window: WindowView, more: Seq<ItemView>)
    requires
        window.well_formed(),
        window.next_tag + more.len() <= u64::MAX,
    ensures
        window.after_extend(more).well_formed(),
{
}

} // verus!
