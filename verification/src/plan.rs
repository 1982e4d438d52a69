//! What a downloader is made of: its servers in order of priority, its
//! worker tasks and the capacities of its channels.

use vstd::prelude::*;

use crate::config::{DownloaderConfig, ServerConfig};
use crate::span::Span;

verus! {

/// The servers are in order of priority.
pub open spec fn in_priority_order(servers: Seq<ServerConfig>) -> bool {
    forall|i: int, j: int|
        0 <= i <= j < servers.len() ==> #[trigger] servers[i].priority
            <= #[trigger] servers[j].priority
}

/// The servers of one priority, in order.
pub open spec fn of_priority(servers: Seq<ServerConfig>, priority: u8) -> Seq<ServerConfig> {
    servers.filter(|s: ServerConfig| s.priority == priority)
}

/// `sorted` holds the servers of `given` in order of priority, and servers
/// of the same priority in the order in which they were given.
pub open spec fn sorts(given: Seq<ServerConfig>, sorted: Seq<ServerConfig>) -> bool {
    &&& in_priority_order(sorted)
    &&& forall|priority: u8|
        #[trigger] of_priority(sorted, priority) == of_priority(given, priority)
}

/// Filtering keeps nothing where nothing fits.
proof fn lemma_none_of_priority(servers: Seq<ServerConfig>, priority: u8)
    requires
        forall|i: int| 0 <= i < servers.len() ==> #[trigger] servers[i].priority != priority,
    ensures
        of_priority(servers, priority) == Seq::<ServerConfig>::empty(),
    decreases servers.len(),
{
    reveal(Seq::filter);
    if servers.len() > 0 {
        assert forall|i: int| 0 <= i < servers.drop_last().len() implies #[trigger] servers.drop_last()[i].priority
            != priority by {
            assert(servers.drop_last()[i] == servers[i]);
        }
        lemma_none_of_priority(servers.drop_last(), priority);
    }
}

/// Putting a server before the first of its priority or a later one keeps the
/// order, and puts it first among its priority.
proof fn lemma_insert_first(sorted: Seq<ServerConfig>, at: int, server: ServerConfig)
    requires
        in_priority_order(sorted),
        0 <= at <= sorted.len(),
        forall|i: int| 0 <= i < at ==> #[trigger] sorted[i].priority < server.priority,
        at < sorted.len() ==> server.priority <= sorted[at].priority,
    ensures
        in_priority_order(sorted.insert(at, server)),
        forall|priority: u8|
            #[trigger] of_priority(sorted.insert(at, server), priority) == of_priority(
                seq![server] + sorted,
                priority,
            ),
{
    let after = sorted.insert(at, server);
    assert forall|i: int, j: int| 0 <= i <= j < after.len() implies #[trigger] after[i].priority
        <= #[trigger] after[j].priority by {
        let before = |k: int| if k < at { k } else { k - 1 };
        if i != at {
            assert(after[i] == sorted[before(i)]);
        }
        if j != at {
            assert(after[j] == sorted[before(j)]);
        }
    }
    let head = sorted.take(at);
    let tail = sorted.skip(at);
    assert(after =~= (head + seq![server]) + tail);
    assert(sorted =~= head + tail);
    assert forall|priority: u8| #[trigger] of_priority(after, priority) == of_priority(
        seq![server] + sorted,
        priority,
    ) by {
        let fits = |s: ServerConfig| s.priority == priority;
        Seq::filter_distributes_over_add(head + seq![server], tail, fits);
        Seq::filter_distributes_over_add(head, seq![server], fits);
        Seq::filter_distributes_over_add(seq![server], sorted, fits);
        Seq::filter_distributes_over_add(head, tail, fits);
        if priority == server.priority {
            assert forall|i: int| 0 <= i < head.len() implies #[trigger] head[i].priority
                != priority by {
                assert(head[i] == sorted[i]);
            }
            lemma_none_of_priority(head, priority);
        } else {
            assert forall|i: int| 0 <= i < seq![server].len() implies #[trigger] seq![server][i].priority
                != priority by {}
            lemma_none_of_priority(seq![server], priority);
        }
        assert((head.filter(fits) + seq![server].filter(fits)) + tail.filter(fits) =~= seq![
            server,
        ].filter(fits) + (head.filter(fits) + tail.filter(fits)));
    }
}

/// Sort servers by priority, lowest number first; servers of the same
/// priority keep their order.
pub fn sort_by_priority(servers: Vec<ServerConfig>) -> (sorted: Vec<ServerConfig>)
    ensures
        sorts(servers@, sorted@),
{
    let ghost given = servers@;
    let mut rest = servers;
    let mut sorted: Vec<ServerConfig> = Vec::new();
    assert(rest@ + sorted@ =~= given);
    while rest.len() > 0
        invariant
            in_priority_order(sorted@),
            rest@.len() <= given.len(),
            rest@ =~= given.take(rest@.len() as int),
            forall|priority: u8|
                #[trigger] of_priority(sorted@, priority) == of_priority(
                    given.skip(rest@.len() as int),
                    priority,
                ),
        decreases rest@.len(),
    {
        let ghost left = rest@.len() - 1;
        let server = rest.pop().unwrap();
        let ghost before = sorted@;
        let mut at: usize = 0;
        while at < sorted.len() && sorted[at].priority < server.priority
            invariant
                at <= sorted@.len(),
                forall|i: int| 0 <= i < at ==> #[trigger] sorted@[i].priority < server.priority,
            decreases sorted@.len() - at,
        {
            at += 1;
        }
        proof {
            lemma_insert_first(before, at as int, server);
            let tail = given.skip(left + 1);
            assert(given.skip(left) =~= seq![server] + tail);
            assert forall|priority: u8|
                #[trigger] of_priority(before.insert(at as int, server), priority) == of_priority(
                    given.skip(left),
                    priority,
                ) by {
                let fits = |s: ServerConfig| s.priority == priority;
                Seq::filter_distributes_over_add(seq![server], before, fits);
                Seq::filter_distributes_over_add(seq![server], tail, fits);
                assert(of_priority(before, priority) == of_priority(tail, priority));
            }
        }
        sorted.insert(at, server);
    }
    assert(given.skip(0) =~= given);
    sorted
}

/// A worker task: the position of its server, and its number there.
#[derive(Debug, Clone, Copy, PartialEq, Eq)]
pub struct WorkerSlot {
    pub server: usize,
    pub id: u32,
}

/// The workers of the first `n` servers: server by server, numbered from one.
pub open spec fn worker_slots(servers: Seq<ServerConfig>, n: nat) -> Seq<WorkerSlot>
    decreases n,
{
    if n == 0 {
        Seq::empty()
    } else {
        worker_slots(servers, (n - 1) as nat) + slots_of(
            (n - 1) as usize,
            crate::config::worker_count(servers[n - 1]),
        )
    }
}

/// So many workers of one server, numbered from one.
pub open spec fn slots_of(server: usize, count: nat) -> Seq<WorkerSlot> {
    Seq::new(count, |k: int| WorkerSlot { server, id: (k + 1) as u32 })
}

/// At least one.
pub open spec fn at_least_one(n: usize) -> usize {
    if n == 0 {
        1
    } else {
        n
    }
}

/// What to set up for a configuration.
#[derive(Debug)]
pub struct DownloaderPlan {
    /// The servers, sorted by priority.
    pub servers: Vec<ServerConfig>,
    /// The soft cap on each server's queue.
    pub queue_caps: Vec<usize>,
    /// One worker task per connection.
    pub workers: Vec<WorkerSlot>,
    /// Capacity of the work channel and of the channel from the workers.
    pub work_capacity: usize,
    /// Capacity of the outcome channel.
    pub outcome_capacity: usize,
    /// Per-article timeout.
    pub article_timeout: Span,
}

impl DownloaderPlan {
    /// Plan a downloader.
    pub fn new(config: DownloaderConfig) -> (plan: Self)
        ensures
            sorts(config.servers@, plan.servers@),
            plan.queue_caps@.len() == plan.servers@.len(),
            forall|i: int|
                0 <= i < plan.servers@.len() ==> #[trigger] plan.queue_caps@[i]
                    == crate::config::queue_cap(plan.servers@[i]),
            plan.workers@ == worker_slots(plan.servers@, plan.servers@.len()),
            plan.work_capacity == at_least_one(config.work_channel_capacity),
            plan.outcome_capacity == at_least_one(config.outcome_channel_capacity),
            plan.article_timeout == config.article_timeout,
    {
        let servers = sort_by_priority(config.servers);
        let mut queue_caps: Vec<usize> = Vec::new();
        let mut workers: Vec<WorkerSlot> = Vec::new();
        let mut i: usize = 0;
        while i < servers.len()
            invariant
                i <= servers@.len(),
                queue_caps@.len() == i,
                forall|j: int|
                    0 <= j < i ==> #[trigger] queue_caps@[j] == crate::config::queue_cap(servers@[j]),
                workers@ == worker_slots(servers@, i as nat),
            decreases servers@.len() - i,
        {
            queue_caps.push(servers[i].queue_cap());
            let count = servers[i].workers();
            let ghost before = workers@;
            let mut made: u16 = 0;
            while made < count
                invariant
                    made <= count,
                    workers@ == before + slots_of(i, made as nat),
                decreases count - made,
            {
                made += 1;
                workers.push(WorkerSlot { server: i, id: made as u32 });
                assert(workers@ =~= before + slots_of(i, made as nat));
            }
            i += 1;
        }
        DownloaderPlan {
            servers,
            queue_caps,
            workers,
            work_capacity: if config.work_channel_capacity == 0 {
                1
            } else {
                config.work_channel_capacity
            },
            outcome_capacity: if config.outcome_channel_capacity == 0 {
                1
            } else {
                config.outcome_channel_capacity
            },
            article_timeout: config.article_timeout,
        }
    }
}

/// There is a slot with this number at this server.
pub open spec fn has_slot(slots: Seq<WorkerSlot>, server: usize, id: u32) -> bool {
    exists|i: int|
        0 <= i < slots.len() && (#[trigger] slots[i]).server == server && slots[i].id == id
}

/// One worker task per connection: every slot is for one of the servers, with a
/// number from one up to its connections (one, where it has none); every such
/// number of every server has a slot; and no two slots are the same.
pub proof fn law_each_connection_has_one_worker(servers: Seq<ServerConfig>, n: nat)
    requires
        n <= servers.len() <= usize::MAX,
    ensures
        forall|i: int|
            0 <= i < worker_slots(servers, n).len() ==> {
                let slot = #[trigger] worker_slots(servers, n)[i];
                slot.server < n && 1 <= slot.id && (slot.id <= servers[slot.server as int].connections
                    || slot.id == 1)
            },
        forall|server: usize, id: u32|
            server < n && 1 <= id && (id <= servers[server as int].connections || id == 1)
                ==> #[trigger] has_slot(worker_slots(servers, n), server, id),
        forall|i: int, j: int|
            0 <= i < j < worker_slots(servers, n).len() ==> worker_slots(servers, n)[i]
                != worker_slots(servers, n)[j],
    decreases n,
{
    if n > 0 {
        let m = (n - 1) as nat;
        law_each_connection_has_one_worker(servers, m);
        let before = worker_slots(servers, m);
        let count = crate::config::worker_count(servers[n - 1]);
        let more = slots_of((n - 1) as usize, count);
        let all = worker_slots(servers, n);
        assert(all == before + more);
        assert forall|i: int| 0 <= i < all.len() implies {
            let slot = #[trigger] all[i];
            slot.server < n && 1 <= slot.id && (slot.id <= servers[slot.server as int].connections
                || slot.id == 1)
        } by {
            if i < before.len() {
                assert(all[i] == before[i]);
            } else {
                assert(all[i] == more[i - before.len()]);
            }
        }
        assert forall|server: usize, id: u32|
            server < n && 1 <= id && (id <= servers[server as int].connections || id
                == 1) implies #[trigger] has_slot(all, server, id) by {
            let slot = WorkerSlot { server, id };
            if server < m {
                assert(has_slot(before, server, id));
                let i = choose|i: int|
                    0 <= i < before.len() && (#[trigger] before[i]).server == server && before[i].id
                        == id;
                assert(all[i] == slot);
            } else {
                assert(more[id - 1] == slot);
                assert(all[before.len() + id - 1] == slot);
            }
        }
        assert forall|i: int, j: int| 0 <= i < j < all.len() implies all[i] != all[j] by {
            if j < before.len() {
                assert(before[i] != before[j]);
            } else if i < before.len() {
                assert(all[i] == before[i]);
                assert(all[j] == more[j - before.len()]);
            } else {
                assert(all[i] == more[i - before.len()]);
                assert(all[j] == more[j - before.len()]);
            }
        }
    }
}

/// A channel has the capacity that was asked for, and room for one item at
/// least.
pub proof fn law_capacity_is_positive(n: usize)
    ensures
        at_least_one(n) >= 1,
        n >= 1 ==> at_least_one(n) == n,
        n == 0 ==> at_least_one(n) == 1,
{
}

/// Sorting loses no server and adds none, a server never stands behind one of a
/// lower priority, and those of the same priority keep their order.
pub proof fn law_sorting_keeps_every_server(
    given: Seq<ServerConfig>,
    sorted: Seq<ServerConfig>,
    server: ServerConfig,
    priority: u8,
)
    requires
        sorts(given, sorted),
    ensures
        given.contains(server) <==> sorted.contains(server),
        forall|i: int, j: int|
            0 <= i < j < sorted.len() ==> (#[trigger] sorted[i]).priority <= (
            #[trigger] sorted[j]).priority,
        sorted.filter(|s: ServerConfig| s.priority == priority) == given.filter(
            |s: ServerConfig| s.priority == priority,
        ),
{
    broadcast use vstd::seq_lib::group_filter_ensures;

    assert(of_priority(sorted, priority) == of_priority(given, priority));
    let own = server.priority;
    let fits = |s: ServerConfig| s.priority == own;
    assert(of_priority(sorted, own) == of_priority(given, own));
    if given.contains(server) {
        assert(given.filter(fits).contains(server));
        sorted.lemma_filter_contains_rev(fits, server);
    }
    if sorted.contains(server) {
        assert(sorted.filter(fits).contains(server));
        given.lemma_filter_contains_rev(fits, server);
    }
}

} // verus!
