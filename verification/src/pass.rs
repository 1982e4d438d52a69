//! What one dispatch pass over the pending items does.
//!
//! A pass looks at the pending items one after the other. An item goes into
//! the batch of the server selected for it, unless that server's queue has
//! reached its soft cap; it stays pending where its server is full or not
//! ready, and the retry timer is set; it leaves the queue for good where no
//! server is left. The last item takes the place of one that leaves.

use vstd::multiset::Multiset;
use vstd::prelude::*;

use crate::article::{ItemView, LedgerView, WorkTag};
use crate::config::{worker_count, ServerConfig};
use crate::dispatch::{
    law_ready_server_gets_the_item, law_reset_makes_progress, law_selection_follows_the_servers,
    law_wait_is_for_a_top_server, lemma_best, top_priority, usable, Scene, Selection, ServerStatus,
};
use crate::span::{Span, MAX_NANOS};

verus! {

/// A server whose queue is full is tried again after this long: 25 ms.
pub const FULL_QUEUE_RETRY_NANOS: u128 = 25_000_000;

/// The earlier of a deadline, if there is one, and `at`.
pub open spec fn earlier(deadline: Option<u128>, at: u128) -> Option<u128> {
    match deadline {
        Some(existing) if existing < at => Some(existing),
        _ => Some(at),
    }
}

/// A sequence without its element at `i`, whose place the last one takes.
pub open spec fn swap_removed<T>(s: Seq<T>, i: int) -> Seq<T> {
    s.update(i, s.last()).drop_last()
}

/// What a pass does not change: the servers with their caps and states, how
/// many items the workers of each hold, how many wait in its queue, the time
/// since the start in nanoseconds, and how many rounds an item may have.
pub struct Setting {
    pub servers: Seq<ServerConfig>,
    pub caps: Seq<usize>,
    pub status: Seq<ServerStatus>,
    pub depths: Seq<usize>,
    pub waiting: Seq<usize>,
    pub now: nat,
    pub max_cascades: u32,
}

/// How far a pass has come: the position that it looks at next, the pending
/// items, the ledger, the batch of each server, the items given up on, and
/// the retry deadline.
#[verifier::ext_equal]
pub struct Pass {
    pub next: int,
    pub pending: Seq<ItemView>,
    pub ledger: LedgerView,
    pub batches: Seq<Seq<ItemView>>,
    pub given_up: Seq<ItemView>,
    pub retry: Option<u128>,
}

impl Setting {
    /// The parts speak of the same servers, and time is in range.
    pub open spec fn well_formed(self) -> bool {
        &&& self.caps.len() == self.servers.len()
        &&& self.status.len() == self.servers.len()
        &&& self.depths.len() == self.servers.len()
        &&& self.waiting.len() == self.servers.len()
        &&& self.servers.len() <= usize::MAX
        &&& self.now <= MAX_NANOS
    }

    /// The pass fits the setting: it has a batch for each server, the ledger
    /// knows the pending items, and the loads can be counted.
    pub open spec fn fits(self, p: Pass) -> bool {
        &&& self.well_formed()
        &&& 0 <= p.next <= p.pending.len()
        &&& p.batches.len() == self.servers.len()
        &&& p.ledger.knows_all(p.pending)
        &&& forall|k: int|
            0 <= k < self.servers.len() ==> #[trigger] self.load(k) + p.batches[k].len()
                + p.pending.len() <= usize::MAX
    }

    /// How many items server `k` has on its hands: those that its workers hold,
    /// and those that wait in its queue.
    pub open spec fn load(self, k: int) -> nat {
        self.depths[k] as nat + self.waiting[k] as nat
    }

    /// Server `k` has reached its soft cap: what its workers hold, or what
    /// waits in its queue, comes to it with this batch on top.
    pub open spec fn full(self, batches: Seq<Seq<ItemView>>, k: int) -> bool {
        self.depths[k] + batches[k].len() >= self.caps[k] || self.waiting[k] + batches[k].len()
            >= self.caps[k]
    }

    /// The servers as they stand with these batches on top of what they have
    /// on their hands.
    pub open spec fn scene(self, batches: Seq<Seq<ItemView>>) -> Scene {
        Scene {
            servers: self.servers,
            status: self.status,
            loads: Seq::new(
                self.servers.len(),
                |k: int| (self.load(k) + batches[k].len()) as usize,
            ),
        }
    }

    /// Where `item` goes next.
    pub open spec fn selection(
        self,
        batches: Seq<Seq<ItemView>>,
        ledger: LedgerView,
        item: ItemView,
    ) -> Selection {
        self.scene(batches).selection(ledger, item, self.max_cascades)
    }

    /// The pass once the try-lists of the item that it looks at were reset,
    /// where that item is to start over.
    pub open spec fn reset_if_due(self, p: Pass) -> Pass {
        let item = p.pending[p.next];
        if self.selection(p.batches, p.ledger, item) is CascadeReset {
            Pass {
                pending: p.pending.update(p.next, item.after_reset()),
                ledger: p.ledger.after_reset(item),
                ..p
            }
        } else {
            p
        }
    }

    /// Leave the item where it is, and look again after `wait` nanoseconds.
    pub open spec fn postpone(self, p: Pass, wait: nat) -> Pass {
        Pass { next: p.next + 1, retry: earlier(p.retry, (self.now + wait) as u128), ..p }
    }

    /// Deal with the item that the pass looks at.
    pub open spec fn step(self, given: Pass) -> Pass {
        let p = self.reset_if_due(given);
        let item = p.pending[p.next];
        match self.selection(p.batches, p.ledger, item) {
            Selection::Server(target) => {
                let t = target as int;
                if self.full(p.batches, t) {
                    self.postpone(p, FULL_QUEUE_RETRY_NANOS as nat)
                } else {
                    Pass {
                        pending: swap_removed(p.pending, p.next),
                        batches: p.batches.update(
                            t,
                            p.batches[t].push(item.handed_to(self.servers[t].priority)),
                        ),
                        ..p
                    }
                }
            },
            Selection::WaitRampup(wait) => self.postpone(p, wait@),
            Selection::CascadeReset => self.postpone(p, 0),
            Selection::GiveUp => Pass {
                pending: swap_removed(p.pending, p.next),
                ledger: p.ledger.after_give_up(item),
                given_up: p.given_up.push(item),
                ..p
            },
        }
    }

    /// Deal with all the items that are left.
    pub open spec fn run(self, p: Pass) -> Pass
        decreases p.pending.len() - p.next,
    {
        if 0 <= p.next < p.pending.len() {
            self.run(self.step(p))
        } else {
            p
        }
    }
}

/// A step leaves a pass that fits, one item nearer to its end.
pub proof fn lemma_step_fits(setting: Setting, p: Pass)
    requires
        setting.fits(p),
        p.next < p.pending.len(),
    ensures
        setting.fits(setting.step(p)),
        setting.step(p).ledger.same_size(p.ledger),
        setting.step(p).pending.len() - setting.step(p).next == p.pending.len() - p.next - 1,
        !(setting.selection(
            setting.reset_if_due(p).batches,
            setting.reset_if_due(p).ledger,
            setting.reset_if_due(p).pending[p.next],
        ) is CascadeReset),
{
    let q = setting.reset_if_due(p);
    let scene = setting.scene(p.batches);
    assert(p.ledger.knows(p.pending[p.next]));
    if setting.selection(p.batches, p.ledger, p.pending[p.next]) is CascadeReset {
        law_reset_makes_progress(scene, p.ledger, p.pending[p.next], setting.max_cascades);
    }
    assert(q.ledger.knows_all(q.pending));
    lemma_best(scene, q.ledger, q.pending[q.next], setting.servers.len() as int);
    let r = setting.step(p);
    assert forall|i: int| 0 <= i < r.pending.len() implies r.ledger.knows(
        #[trigger] r.pending[i],
    ) by {
        if r.pending.len() < q.pending.len() {
            if i == q.next {
                assert(r.pending[i] == q.pending.last());
                assert(q.ledger.knows(q.pending[q.pending.len() - 1]));
            } else {
                assert(r.pending[i] == q.pending[i]);
                assert(q.ledger.knows(q.pending[i]));
            }
        } else {
            assert(q.ledger.knows(q.pending[i]));
        }
    }
    assert forall|k: int| 0 <= k < setting.servers.len() implies #[trigger] setting.load(k)
        + r.batches[k].len() + r.pending.len() <= usize::MAX by {
        assert(setting.load(k) + p.batches[k].len() + p.pending.len() <= usize::MAX);
    }
}

/// What identifies an item through all that happens to it: its tag, its
/// message-id, and the positions of its file and job.
pub type ItemKey = (WorkTag, Seq<char>, usize, usize);

/// The key of an item.
pub open spec fn key(item: ItemView) -> ItemKey {
    (item.tag, item.article.message_id, item.file, item.job)
}

/// The keys of a sequence of items.
pub open spec fn keys(work: Seq<ItemView>) -> Multiset<ItemKey> {
    work.map_values(|item: ItemView| key(item)).to_multiset()
}

/// The keys of all the batches.
pub open spec fn batch_keys(batches: Seq<Seq<ItemView>>) -> Multiset<ItemKey>
    decreases batches.len(),
{
    if batches.len() == 0 {
        Multiset::empty()
    } else {
        batch_keys(batches.drop_last()).add(keys(batches.last()))
    }
}

/// One more item adds its key.
pub proof fn lemma_keys_push(work: Seq<ItemView>, item: ItemView)
    ensures
        keys(work.push(item)) == keys(work).insert(key(item)),
{
    broadcast use vstd::seq_lib::group_to_multiset_ensures;

    let f = |item: ItemView| key(item);
    assert(work.push(item).map_values(f) =~= work.map_values(f).push(key(item)));
}

/// Two sequences together have the keys of both.
pub proof fn lemma_keys_add(a: Seq<ItemView>, b: Seq<ItemView>)
    ensures
        keys(a + b) == keys(a).add(keys(b)),
{
    let f = |item: ItemView| key(item);
    assert((a + b).map_values(f) =~= a.map_values(f) + b.map_values(f));
    vstd::seq_lib::lemma_multiset_commutative(a.map_values(f), b.map_values(f));
}

/// Without one item its key is gone once.
pub proof fn lemma_keys_swap_removed(work: Seq<ItemView>, i: int)
    requires
        0 <= i < work.len(),
    ensures
        keys(work) == keys(swap_removed(work, i)).insert(key(work[i])),
{
    broadcast use vstd::seq_lib::group_to_multiset_ensures;
    broadcast use vstd::multiset::group_multiset_axioms;

    let f = |item: ItemView| key(item);
    let s = work.map_values(f);
    let rest = swap_removed(work, i).map_values(f);
    assert(rest =~= s.update(i, s.last()).drop_last());
    assert(rest.push(s.last()) =~= s.update(i, s.last()));
    vstd::seq_lib::to_multiset_update(s, i, s.last());
    assert(s.to_multiset().insert(s.last()).remove(s[i]) =~= rest.to_multiset().insert(s.last()));
    assert(s.to_multiset().count(s[i]) > 0) by {
        assert(s.contains(s[i]));
    }
    assert forall|k: ItemKey|
        s.to_multiset().count(k) == rest.to_multiset().insert(s[i]).count(k) by {
        let moved = s.to_multiset().insert(s.last()).remove(s[i]);
        assert(moved.count(k) == rest.to_multiset().insert(s.last()).count(k));
    }
    assert(s.to_multiset() =~= rest.to_multiset().insert(s[i]));
}

/// One more item in one batch adds its key.
pub proof fn lemma_batch_keys_push(batches: Seq<Seq<ItemView>>, t: int, item: ItemView)
    requires
        0 <= t < batches.len(),
    ensures
        batch_keys(batches.update(t, batches[t].push(item))) == batch_keys(batches).insert(
            key(item),
        ),
    decreases batches.len(),
{
    let after = batches.update(t, batches[t].push(item));
    lemma_keys_push(batches[t], item);
    if t == batches.len() - 1 {
        assert(after.drop_last() =~= batches.drop_last());
    } else {
        lemma_batch_keys_push(batches.drop_last(), t, item);
        assert(after.drop_last() =~= batches.drop_last().update(
            t,
            batches.drop_last()[t].push(item),
        ));
    }
    assert(batch_keys(after) =~= batch_keys(batches).insert(key(item)));
}

/// Every item that the pass has to do with, wherever it stands.
pub open spec fn held(p: Pass) -> Multiset<ItemKey> {
    keys(p.pending).add(batch_keys(p.batches)).add(keys(p.given_up))
}

/// A step neither loses nor doubles an item.
proof fn lemma_step_keeps_items(setting: Setting, p: Pass)
    requires
        setting.fits(p),
        p.next < p.pending.len(),
    ensures
        held(setting.step(p)) == held(p),
{
    let q = setting.reset_if_due(p);
    let item = q.pending[q.next];
    let f = |item: ItemView| key(item);
    assert(q.pending.map_values(f) =~= p.pending.map_values(f));
    lemma_step_fits(setting, p);
    lemma_best(setting.scene(q.batches), q.ledger, item, setting.servers.len() as int);
    lemma_keys_swap_removed(q.pending, q.next);
    let r = setting.step(p);
    match setting.selection(q.batches, q.ledger, item) {
        Selection::Server(target) => {
            let t = target as int;
            lemma_batch_keys_push(q.batches, t, item.handed_to(setting.servers[t].priority));
        },
        Selection::GiveUp => {
            lemma_keys_push(q.given_up, item);
        },
        _ => {},
    }
    assert(held(r) =~= held(p));
}

/// No item is lost and none is doubled: what was pending before a dispatch
/// pass is afterwards still pending, in one server's batch, or given up on.
pub proof fn law_dispatch_keeps_every_item(setting: Setting, p: Pass)
    requires
        setting.fits(p),
    ensures
        held(setting.run(p)) == held(p),
    decreases p.pending.len() - p.next,
{
    if p.next < p.pending.len() {
        lemma_step_fits(setting, p);
        lemma_step_keeps_items(setting, p);
        law_dispatch_keeps_every_item(setting, setting.step(p));
    }
}

/// A pass that fits goes on fitting, and the ledger knows the same items.
pub proof fn lemma_run_fits(setting: Setting, p: Pass)
    requires
        setting.fits(p),
    ensures
        setting.fits(setting.run(p)),
        setting.run(p).ledger.same_size(p.ledger),
        setting.run(p).next == setting.run(p).pending.len(),
    decreases p.pending.len() - p.next,
{
    if p.next < p.pending.len() {
        lemma_step_fits(setting, p);
        lemma_run_fits(setting, setting.step(p));
    }
}

/// The soft cap holds: a pass adds to a server's batch only as long as the
/// batch with what waits in the server's queue, and the batch with what its
/// workers hold, stay within its cap.
pub proof fn law_dispatch_respects_caps(setting: Setting, p: Pass, k: int)
    requires
        setting.fits(p),
        0 <= k < setting.servers.len(),
        p.batches[k].len() > 0 ==> setting.waiting[k] + p.batches[k].len() <= setting.caps[k]
            && setting.depths[k] + p.batches[k].len() <= setting.caps[k],
    ensures
        ({
            let added = setting.run(p).batches[k].len();
            added > 0 ==> setting.waiting[k] + added <= setting.caps[k] && setting.depths[k] + added
                <= setting.caps[k]
        }),
    decreases p.pending.len() - p.next,
{
    if p.next < p.pending.len() {
        lemma_step_fits(setting, p);
        let q = setting.reset_if_due(p);
        lemma_best(
            setting.scene(q.batches),
            q.ledger,
            q.pending[q.next],
            setting.servers.len() as int,
        );
        law_dispatch_respects_caps(setting, setting.step(p), k);
    }
}

/// No silent stalls: whatever a pass leaves pending, it has set the retry
/// timer for, so the scheduler looks again. The timer is never moved back.
pub proof fn law_pending_items_are_retried(setting: Setting, p: Pass)
    requires
        setting.fits(p),
        p.next > 0 ==> p.retry is Some,
    ensures
        setting.run(p).pending.len() > 0 ==> setting.run(p).retry is Some,
        p.retry matches Some(at) ==> setting.run(p).retry is Some && setting.run(p).retry->0 <= at,
    decreases p.pending.len() - p.next,
{
    if p.next < p.pending.len() {
        lemma_step_fits(setting, p);
        law_pending_items_are_retried(setting, setting.step(p));
    }
}

/// A full queue gets nothing more: where as much waits for a server as its cap
/// allows, or its workers hold as much, a pass leaves its batch as it is.
pub proof fn law_full_queue_gets_nothing(setting: Setting, p: Pass, k: int)
    requires
        setting.fits(p),
        0 <= k < setting.servers.len(),
        setting.full(p.batches, k),
    ensures
        setting.run(p).batches[k] == p.batches[k],
    decreases p.pending.len() - p.next,
{
    if p.next < p.pending.len() {
        lemma_step_fits(setting, p);
        let q = setting.reset_if_due(p);
        lemma_best(
            setting.scene(q.batches),
            q.ledger,
            q.pending[q.next],
            setting.servers.len() as int,
        );
        law_full_queue_gets_nothing(setting, setting.step(p), k);
    }
}

/// An item whose server is full stays pending, and the scheduler looks again
/// after at most 25 ms.
pub proof fn law_full_queue_is_retried_soon(setting: Setting, p: Pass, k: usize)
    requires
        setting.fits(p),
        p.next < p.pending.len(),
        ({
            let q = setting.reset_if_due(p);
            setting.selection(q.batches, q.ledger, q.pending[q.next]) == Selection::Server(k)
        }),
        k < setting.servers.len(),
        setting.full(p.batches, k as int),
    ensures
        setting.step(p).pending == setting.reset_if_due(p).pending,
        setting.run(p).retry is Some,
        setting.run(p).retry->0 <= setting.now + FULL_QUEUE_RETRY_NANOS,
{
    lemma_step_fits(setting, p);
    law_pending_items_are_retried(setting, setting.step(p));
}

/// An item whose server takes work and is not full is handed to it.
pub proof fn law_server_with_room_gets_the_item(setting: Setting, p: Pass, k: usize)
    requires
        setting.fits(p),
        p.next < p.pending.len(),
        ({
            let q = setting.reset_if_due(p);
            setting.selection(q.batches, q.ledger, q.pending[q.next]) == Selection::Server(k)
        }),
        k < setting.servers.len(),
        setting.depths[k as int] + p.batches[k as int].len() < setting.caps[k as int],
        setting.waiting[k as int] + p.batches[k as int].len() < setting.caps[k as int],
    ensures
        setting.step(p).batches[k as int] == p.batches[k as int].push(
            setting.reset_if_due(p).pending[p.next].handed_to(setting.servers[k as int].priority),
        ),
{
}

/// Item `j` of server `k`'s batch belongs there: the server takes work now,
/// the article has not failed on it, and notes its priority.
pub open spec fn well_placed(setting: Setting, p: Pass, k: int, j: int) -> bool {
    let item = p.batches[k][j];
    &&& setting.servers[k].enabled
    &&& setting.status[k] is Ready
    &&& !item.article.tried.contains(setting.servers[k].id@)
    &&& item.article.fetcher_priority == Some(setting.servers[k].priority)
}

/// A pass only hands items to servers that take work and that their articles
/// have not failed on.
pub proof fn law_dispatched_items_are_well_placed(setting: Setting, p: Pass, k: int, j: int)
    requires
        setting.fits(p),
        forall|k: int, j: int|
            0 <= k < p.batches.len() && 0 <= j < p.batches[k].len() ==> #[trigger] well_placed(
                setting,
                p,
                k,
                j,
            ),
        0 <= k < setting.run(p).batches.len(),
        0 <= j < setting.run(p).batches[k].len(),
    ensures
        well_placed(setting, setting.run(p), k, j),
    decreases p.pending.len() - p.next,
{
    if p.next < p.pending.len() {
        lemma_step_fits(setting, p);
        let q = setting.reset_if_due(p);
        let item = q.pending[q.next];
        lemma_best(setting.scene(q.batches), q.ledger, item, setting.servers.len() as int);
        let r = setting.step(p);
        assert forall|k: int, j: int|
            0 <= k < r.batches.len() && 0 <= j < r.batches[k].len() implies #[trigger] well_placed(
            setting,
            r,
            k,
            j,
        ) by {
            if j < p.batches[k].len() {
                assert(well_placed(setting, p, k, j));
                assert(r.batches[k][j] == p.batches[k][j]);
            }
        }
        law_dispatched_items_are_well_placed(setting, r, k, j);
    }
}

impl Setting {
    /// The pass after `n` steps.
    pub open spec fn after_steps(self, p: Pass, n: nat) -> Pass
        decreases n,
    {
        if n == 0 {
            p
        } else {
            self.after_steps(self.step(p), (n - 1) as nat)
        }
    }

    /// The servers as they stand with these batches on top: each has what its
    /// workers hold, what waits in its queue and its batch on its hands.
    pub open spec fn standing(self, batches: Seq<Seq<ItemView>>) -> Scene {
        Scene {
            servers: self.servers,
            status: self.status,
            loads: Seq::new(
                self.servers.len(),
                |k: int| (self.depths[k] + self.waiting[k] + batches[k].len()) as usize,
            ),
        }
    }

    /// The batch of server `k` reaches its cap, on top of what its workers hold
    /// or of what waits in its queue.
    pub open spec fn at_cap(self, batches: Seq<Seq<ItemView>>, k: int) -> bool {
        self.caps[k] <= self.depths[k] + batches[k].len() || self.caps[k] <= self.waiting[k]
            + batches[k].len()
    }

    /// With the pass at `p`, `item` is what is handed to server `k`, and rightly:
    /// the server is enabled, ready and below its cap; the item has not failed
    /// on it, but on every enabled server of a higher priority; and no other
    /// such server of its priority has less load for each connection.
    pub open spec fn hands_over_fairly(self, p: Pass, item: ItemView, k: int) -> bool {
        let q = self.reset_if_due(p);
        let looked_at = q.pending[q.next];
        let scene = self.standing(q.batches);
        &&& 0 <= q.next < q.pending.len()
        &&& item == looked_at.handed_to(self.servers[k].priority)
        &&& usable(scene, q.ledger, looked_at, k)
        &&& self.status[k] is Ready
        &&& !self.at_cap(q.batches, k)
        &&& top_priority(scene, q.ledger, looked_at, k)
        &&& forall|i: int| #[trigger]
            usable(scene, q.ledger, looked_at, i) && self.status[i] is Ready
                && self.servers[i].priority == self.servers[k].priority ==> scene.loads[k]
                * worker_count(self.servers[i]) <= scene.loads[i] * worker_count(self.servers[k])
    }

    /// With the pass at `p`, `item` is left pending, and rightly: the server that
    /// it is for, usable and of the top priority, is ready but has reached its
    /// cap, or is not ready, and no usable one of that priority is.
    pub open spec fn postpones_rightly(self, p: Pass, item: ItemView) -> bool {
        let q = self.reset_if_due(p);
        let scene = self.standing(q.batches);
        &&& 0 <= q.next < q.pending.len()
        &&& item == q.pending[q.next]
        &&& exists|k: int|
            {
                &&& #[trigger] usable(scene, q.ledger, item, k)
                &&& top_priority(scene, q.ledger, item, k)
                &&& self.status[k] is Ready ==> self.at_cap(q.batches, k)
                &&& !(self.status[k] is Ready) ==> forall|i: int| #[trigger]
                    usable(scene, q.ledger, item, i) && self.servers[i].priority
                        == self.servers[k].priority ==> !(self.status[i] is Ready)
            }
    }

    /// With the pass at `p`, `item` is given up on, and rightly: no server is
    /// usable for it, and it may not start over.
    pub open spec fn gives_up_rightly(self, p: Pass, item: ItemView) -> bool {
        let q = self.reset_if_due(p);
        let scene = self.standing(q.batches);
        &&& 0 <= q.next < q.pending.len()
        &&& item == q.pending[q.next]
        &&& forall|i: int| !#[trigger] usable(scene, q.ledger, item, i)
        &&& !item.article.transient_failure || item.article.cascades >= self.max_cascades || forall|
            i: int,
        |
            0 <= i < self.servers.len() && (#[trigger] self.servers[i]).enabled
                ==> self.status[i] is Offline
    }
}

/// The pass looks at the servers as they stand.
proof fn lemma_standing(setting: Setting, p: Pass)
    ensures
        setting.scene(p.batches) == setting.standing(p.batches),
        forall|k: int| setting.full(p.batches, k) == setting.at_cap(p.batches, k),
{
    assert(setting.scene(p.batches).loads =~= setting.standing(p.batches).loads);
}

/// What a step hands over, it hands over rightly, and so with what it postpones
/// and what it gives up on.
proof fn lemma_step_is_right(setting: Setting, p: Pass)
    requires
        setting.fits(p),
        p.next < p.pending.len(),
    ensures
        ({
            let q = setting.reset_if_due(p);
            let r = setting.step(p);
            let item = q.pending[q.next];
            &&& r.next == p.next + 1 ==> r.pending == q.pending && r.batches == p.batches
                && r.given_up == p.given_up && setting.postpones_rightly(p, item)
            &&& r.next == p.next || r.next == p.next + 1
            &&& forall|k: int|
                0 <= k < r.batches.len() && (#[trigger] r.batches[k]) != p.batches[k] ==> {
                    let handed = item.handed_to(setting.servers[k].priority);
                    r.batches[k] == p.batches[k].push(handed) && setting.hands_over_fairly(
                        p,
                        handed,
                        k,
                    )
                }
            &&& r.given_up != p.given_up ==> r.given_up == p.given_up.push(item)
                && setting.gives_up_rightly(p, item)
        }),
{
    lemma_step_fits(setting, p);
    let q = setting.reset_if_due(p);
    let item = q.pending[q.next];
    let max = setting.max_cascades;
    lemma_standing(setting, q);
    let scene = setting.standing(q.batches);
    law_selection_follows_the_servers(scene, q.ledger, item, max);
    match scene.selection(q.ledger, item, max) {
        Selection::Server(k) => {
            law_ready_server_gets_the_item(scene, q.ledger, item, max, k as int);
            assert(usable(scene, q.ledger, item, k as int));
            if setting.full(q.batches, k as int) {
                assert(setting.postpones_rightly(p, item));
            } else {
                let handed = item.handed_to(setting.servers[k as int].priority);
                assert(setting.hands_over_fairly(p, handed, k as int));
            }
        },
        Selection::WaitRampup(wait) => {
            law_wait_is_for_a_top_server(scene, q.ledger, item, max, wait);
            assert(setting.postpones_rightly(p, item));
        },
        Selection::CascadeReset => {},
        Selection::GiveUp => {
            assert forall|i: int| !#[trigger] usable(scene, q.ledger, item, i) by {}
            assert(setting.gives_up_rightly(p, item));
        },
    }
}

/// What is in a batch stays there.
proof fn lemma_run_keeps_batches(setting: Setting, p: Pass, k: int, j: int)
    requires
        setting.fits(p),
        0 <= k < p.batches.len(),
        0 <= j < p.batches[k].len(),
    ensures
        j < setting.run(p).batches[k].len(),
        setting.run(p).batches[k][j] == p.batches[k][j],
    decreases p.pending.len() - p.next,
{
    if p.next < p.pending.len() {
        lemma_step_fits(setting, p);
        let q = setting.reset_if_due(p);
        lemma_best(
            setting.scene(q.batches),
            q.ledger,
            q.pending[q.next],
            setting.servers.len() as int,
        );
        lemma_run_keeps_batches(setting, setting.step(p), k, j);
    }
}

/// What was passed over stays where it is.
proof fn lemma_run_keeps_passed_over(setting: Setting, p: Pass, j: int)
    requires
        setting.fits(p),
        0 <= j < p.next,
    ensures
        j < setting.run(p).pending.len(),
        setting.run(p).pending[j] == p.pending[j],
    decreases p.pending.len() - p.next,
{
    if p.next < p.pending.len() {
        lemma_step_fits(setting, p);
        lemma_run_keeps_passed_over(setting, setting.step(p), j);
    }
}

/// What was given up on stays given up on.
proof fn lemma_run_keeps_given_up(setting: Setting, p: Pass, j: int)
    requires
        setting.fits(p),
        0 <= j < p.given_up.len(),
    ensures
        j < setting.run(p).given_up.len(),
        setting.run(p).given_up[j] == p.given_up[j],
    decreases p.pending.len() - p.next,
{
    if p.next < p.pending.len() {
        lemma_step_fits(setting, p);
        lemma_run_keeps_given_up(setting, setting.step(p), j);
    }
}

/// Priority-aware failover over a whole pass: each item that a pass adds to a
/// server's batch was handed over at a moment at which that server was ready,
/// below its cap and untried, every enabled server of a higher priority had
/// failed on the item, and no server of the same priority had less load for
/// each connection.
pub proof fn law_pass_obeys_priority(setting: Setting, p: Pass, k: int, j: int)
    requires
        setting.fits(p),
        0 <= k < setting.servers.len(),
        p.batches[k].len() <= j < setting.run(p).batches[k].len(),
    ensures
        exists|n: nat| #[trigger]
            setting.hands_over_fairly(
                setting.after_steps(p, n),
                setting.run(p).batches[k][j],
                k,
            ),
    decreases p.pending.len() - p.next,
{
    lemma_step_fits(setting, p);
    lemma_step_is_right(setting, p);
    let r = setting.step(p);
    let item = setting.run(p).batches[k][j];
    if j < r.batches[k].len() {
        lemma_run_keeps_batches(setting, r, k, j);
        assert(r.batches[k] != p.batches[k]);
        assert(setting.after_steps(p, 0) == p);
        assert(setting.hands_over_fairly(setting.after_steps(p, 0), item, k));
    } else {
        law_pass_obeys_priority(setting, r, k, j);
        let n = choose|n: nat| #[trigger]
            setting.hands_over_fairly(setting.after_steps(r, n), item, k);
        assert(setting.after_steps(p, n + 1) == setting.after_steps(r, n));
        assert(setting.hands_over_fairly(setting.after_steps(p, n + 1), item, k));
    }
}

/// A pass leaves no item pending without a reason: each item that is left was
/// looked at at a moment at which the server that it is for had reached its cap
/// or was not ready.
pub proof fn law_items_left_pending_have_a_reason(setting: Setting, p: Pass, j: int)
    requires
        setting.fits(p),
        p.next <= j < setting.run(p).pending.len(),
    ensures
        exists|n: nat| #[trigger]
            setting.postpones_rightly(setting.after_steps(p, n), setting.run(p).pending[j]),
    decreases p.pending.len() - p.next,
{
    lemma_run_fits(setting, p);
    lemma_step_fits(setting, p);
    lemma_step_is_right(setting, p);
    let r = setting.step(p);
    let item = setting.run(p).pending[j];
    if j < r.next {
        lemma_run_keeps_passed_over(setting, r, j);
        assert(setting.after_steps(p, 0) == p);
        assert(setting.postpones_rightly(setting.after_steps(p, 0), item));
    } else {
        law_items_left_pending_have_a_reason(setting, r, j);
        let n = choose|n: nat| #[trigger]
            setting.postpones_rightly(setting.after_steps(r, n), item);
        assert(setting.after_steps(p, n + 1) == setting.after_steps(r, n));
        assert(setting.postpones_rightly(setting.after_steps(p, n + 1), item));
    }
}

/// A pass gives up on no item for which a server is left: at the moment at which
/// it did, no enabled server had not failed on the item, and it could not start
/// over.
pub proof fn law_given_up_items_are_hopeless(setting: Setting, p: Pass, j: int)
    requires
        setting.fits(p),
        p.given_up.len() <= j < setting.run(p).given_up.len(),
    ensures
        exists|n: nat| #[trigger]
            setting.gives_up_rightly(setting.after_steps(p, n), setting.run(p).given_up[j]),
    decreases p.pending.len() - p.next,
{
    lemma_step_fits(setting, p);
    lemma_step_is_right(setting, p);
    let r = setting.step(p);
    let item = setting.run(p).given_up[j];
    if j < r.given_up.len() {
        lemma_run_keeps_given_up(setting, r, j);
        assert(setting.after_steps(p, 0) == p);
        assert(setting.gives_up_rightly(setting.after_steps(p, 0), item));
    } else {
        law_given_up_items_are_hopeless(setting, r, j);
        let n = choose|n: nat| #[trigger]
            setting.gives_up_rightly(setting.after_steps(r, n), item);
        assert(setting.after_steps(p, n + 1) == setting.after_steps(r, n));
        assert(setting.gives_up_rightly(setting.after_steps(p, n + 1), item));
    }
}

/// The retry timer is only ever set for a reason: to 25 ms from now, or to when
/// a server that is not ready yet will be.
pub proof fn law_timer_is_set_for_a_reason(setting: Setting, p: Pass)
    requires
        setting.fits(p),
        setting.run(p).retry != p.retry,
    ensures
        setting.run(p).retry is Some,
        ({
            let at = setting.run(p).retry->0;
            at == setting.now + 25_000_000 || exists|k: int|
                0 <= k < setting.servers.len() && (#[trigger] setting.status[k] matches
                    ServerStatus::RampUp(wait) && at == (setting.now + wait@) as u128)
        }),
    decreases p.pending.len() - p.next,
{
    if p.next < p.pending.len() {
        lemma_step_fits(setting, p);
        let q = setting.reset_if_due(p);
        let item = q.pending[q.next];
        let scene = setting.scene(q.batches);
        if let Selection::WaitRampup(wait) = setting.selection(q.batches, q.ledger, item) {
            law_wait_is_for_a_top_server(scene, q.ledger, item, setting.max_cascades, wait);
            let k = choose|k: int|
                #[trigger] usable(scene, q.ledger, item, k) && scene.status[k]
                    == ServerStatus::RampUp(wait);
            assert(setting.status[k] == ServerStatus::RampUp(wait));
        }
        let r = setting.step(p);
        if setting.run(r).retry != r.retry {
            law_timer_is_set_for_a_reason(setting, r);
        }
    }
}

/// An item that waits for a server to be ready is looked at again by then.
pub proof fn law_ramping_server_is_retried_in_time(setting: Setting, p: Pass, wait: Span)
    requires
        setting.fits(p),
        p.next < p.pending.len(),
        wait@ <= MAX_NANOS,
        ({
            let q = setting.reset_if_due(p);
            setting.standing(q.batches).selection(
                q.ledger,
                q.pending[q.next],
                setting.max_cascades,
            ) == Selection::WaitRampup(wait)
        }),
    ensures
        setting.step(p).pending == setting.reset_if_due(p).pending,
        setting.run(p).retry is Some,
        setting.run(p).retry->0 <= setting.now + wait@,
{
    lemma_step_fits(setting, p);
    lemma_standing(setting, setting.reset_if_due(p));
    law_pending_items_are_retried(setting, setting.step(p));
}

/// The earlier of two deadlines: no later than either, and one of them.
pub proof fn law_earlier_of_two(deadline: Option<u128>, at: u128)
    ensures
        earlier(deadline, at) matches Some(t) && t <= at && (deadline matches Some(d) ==> t <= d)
            && (t == at || deadline == Some(t)),
{
}

/// An item that leaves the pending ones makes room for the last of them, and the
/// others stay where they are.
pub proof fn law_last_item_takes_the_place<T>(s: Seq<T>, i: int)
    requires
        0 <= i < s.len(),
    ensures
        swap_removed(s, i).len() == s.len() - 1,
        forall|j: int|
            0 <= j < s.len() - 1 && j != i ==> #[trigger] swap_removed(s, i)[j] == s[j],
        i < s.len() - 1 ==> swap_removed(s, i)[i] == s[s.len() - 1],
{
}

/// What a step leaves alone: an item that stays where it is leaves batches and
/// given-up items as they were; one that leaves does so for one batch or for
/// the given-up ones, and does not touch the timer. The ledger changes only by
/// starting the item over, and by giving it up.
pub proof fn law_step_leaves_the_rest_alone(setting: Setting, p: Pass)
    requires
        setting.fits(p),
        p.next < p.pending.len(),
    ensures
        ({
            let r = setting.step(p);
            let item = p.pending[p.next];
            let started_over = setting.standing(p.batches).selection(
                p.ledger,
                item,
                setting.max_cascades,
            ) is CascadeReset;
            let ledger = if started_over {
                p.ledger.after_reset(item)
            } else {
                p.ledger
            };
            let now = if started_over {
                item.after_reset()
            } else {
                item
            };
            let left = r.pending.len() < p.pending.len();
            &&& !left ==> {
                &&& r.next == p.next + 1
                &&& r.pending == p.pending.update(p.next, now)
                &&& r.batches == p.batches
                &&& r.given_up == p.given_up
                &&& r.ledger == ledger
                &&& r.retry is Some
            }
            &&& left ==> {
                &&& r.next == p.next
                &&& r.pending == p.pending.update(p.next, p.pending.last()).drop_last()
                &&& r.retry == p.retry
                &&& r.given_up.len() > p.given_up.len() ==> r.batches == p.batches && r.given_up
                    == p.given_up.push(now) && r.ledger == ledger.after_give_up(now)
                &&& r.given_up.len() <= p.given_up.len() ==> {
                    &&& r.given_up == p.given_up
                    &&& r.ledger == ledger
                    &&& exists|k: int|
                        0 <= k < setting.servers.len() && r.batches == p.batches.update(
                            k,
                            (#[trigger] p.batches[k]).push(
                                now.handed_to(setting.servers[k].priority),
                            ),
                        )
                }
            }
        }),
{
    lemma_step_fits(setting, p);
    lemma_standing(setting, p);
    let q = setting.reset_if_due(p);
    lemma_best(
        setting.scene(q.batches),
        q.ledger,
        q.pending[q.next],
        setting.servers.len() as int,
    );
    let r = setting.step(p);
    let item = p.pending[p.next];
    let started_over = setting.selection(p.batches, p.ledger, item) is CascadeReset;
    let now = if started_over {
        item.after_reset()
    } else {
        item
    };
    assert(q.pending[q.next] == now);
    assert(q.pending =~= p.pending.update(p.next, now));
    if r.pending.len() < p.pending.len() {
        assert(r.pending =~= p.pending.update(p.next, p.pending.last()).drop_last());
        if let Selection::Server(k) = setting.selection(q.batches, q.ledger, q.pending[q.next]) {
            assert(r.batches == p.batches.update(
                k as int,
                p.batches[k as int].push(now.handed_to(setting.servers[k as int].priority)),
            ));
        }
    }
}

} // verus!
