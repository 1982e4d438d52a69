//! Priority-aware selection + cascade retry.
//!
//! Article dispatch and retry obey server priority: a lower-priority server
//! only gets an article after every enabled higher-priority server has
//! failed on it. Servers of the same priority share the load in proportion
//! to their connections. When every enabled server has failed on an article,
//! and some of them for a reason that may pass, the article gets another
//! round, up to a limit; otherwise it is given up.

use vstd::prelude::*;

use crate::article::{ItemView, Ledger, LedgerView, WorkItem};
use crate::config::{worker_count, ServerConfig};
use crate::span::Span;

verus! {

/// Whether a server takes work at the moment.
#[derive(Debug, Clone, Copy)]
pub enum ServerStatus {
    /// It takes work.
    Ready,
    /// It takes work after this long.
    RampUp(Span),
    /// It takes no work: it is out of service or all its workers have retired.
    Offline,
}

/// Whether a server takes work, given how many workers it has left: without
/// any it takes none, whatever its health.
pub fn effective_status(workers: usize, status: ServerStatus) -> (effective: ServerStatus)
    ensures
        effective == if workers == 0 {
            ServerStatus::Offline
        } else {
            status
        },
{
    if workers == 0 {
        ServerStatus::Offline
    } else {
        status
    }
}

/// Where an item goes next.
#[derive(Debug, Clone, Copy)]
pub enum Selection {
    /// To the server at this position.
    Server(usize),
    /// Nowhere yet: the server that it is for takes work after this long.
    WaitRampup(Span),
    /// Every enabled server has failed on it: clear its try-lists, and select
    /// again.
    CascadeReset,
    /// Nowhere: no server is left to ask.
    GiveUp,
}

/// The servers at one moment: their configurations, whether they take work,
/// and how many items each has on its hands.
#[verifier::ext_equal]
pub struct Scene {
    pub servers: Seq<ServerConfig>,
    pub status: Seq<ServerStatus>,
    pub loads: Seq<usize>,
}

impl Scene {
    /// The three sequences speak of the same servers.
    pub open spec fn well_formed(self) -> bool {
        self.status.len() == self.servers.len() && self.loads.len() == self.servers.len()
    }

    /// The server takes work, now or later.
    pub open spec fn enabled(self, i: int) -> bool {
        0 <= i < self.servers.len() && self.servers[i].enabled && !(self.status[i] is Offline)
    }

    /// Some server takes work, now or later.
    pub open spec fn any_enabled(self) -> bool {
        exists|i: int| self.enabled(i)
    }

    /// The server takes work, and has not failed on the item.
    pub open spec fn candidate(self, ledger: LedgerView, item: ItemView, i: int) -> bool {
        self.enabled(i) && !ledger.tried(item, self.servers[i].id@)
    }

    /// Server `i` comes strictly before server `j`: it has the higher
    /// priority (the lower number); or the same, and it is ready and `j` is
    /// not; or both are ready and it has less load for each connection; or
    /// neither is ready and it will be sooner.
    pub open spec fn before(self, i: int, j: int) -> bool {
        if self.servers[i].priority != self.servers[j].priority {
            self.servers[i].priority < self.servers[j].priority
        } else {
            match (self.status[i], self.status[j]) {
                (ServerStatus::Ready, ServerStatus::Ready) => self.loads[i] * worker_count(
                    self.servers[j],
                ) < self.loads[j] * worker_count(self.servers[i]),
                (ServerStatus::Ready, _) => true,
                (_, ServerStatus::Ready) => false,
                (ServerStatus::RampUp(a), ServerStatus::RampUp(b)) => a@ < b@,
                (ServerStatus::RampUp(_), ServerStatus::Offline) => true,
                (ServerStatus::Offline, _) => false,
            }
        }
    }

    /// The first of the candidates among the first `n` servers that no other
    /// of them comes before.
    pub open spec fn best(self, ledger: LedgerView, item: ItemView, n: int) -> Option<int>
        decreases n,
    {
        if n <= 0 {
            None
        } else {
            match self.best(ledger, item, n - 1) {
                None => if self.candidate(ledger, item, n - 1) {
                    Some(n - 1)
                } else {
                    None
                },
                Some(b) => if self.candidate(ledger, item, n - 1) && self.before(n - 1, b) {
                    Some(n - 1)
                } else {
                    Some(b)
                },
            }
        }
    }

    /// Where the item goes next.
    pub open spec fn selection(
        self,
        ledger: LedgerView,
        item: ItemView,
        max_cascades: u32,
    ) -> Selection {
        match self.best(ledger, item, self.servers.len() as int) {
            Some(i) => match self.status[i] {
                ServerStatus::RampUp(d) => Selection::WaitRampup(d),
                _ => Selection::Server(i as usize),
            },
            None => if may_cascade(item, max_cascades) && self.any_enabled() {
                Selection::CascadeReset
            } else {
                Selection::GiveUp
            },
        }
    }
}

/// The item has failed for a reason that may pass, and has rounds left.
pub open spec fn may_cascade(item: ItemView, max_cascades: u32) -> bool {
    item.article.transient_failure && item.article.cascades < max_cascades
}

/// `before` is transitive.
proof fn lemma_before_transitive(scene: Scene, i: int, j: int, k: int)
    requires
        scene.before(i, j),
        scene.before(j, k),
    ensures
        scene.before(i, k),
{
    if scene.servers[i].priority == scene.servers[j].priority && scene.servers[j].priority
        == scene.servers[k].priority {
        match (scene.status[i], scene.status[j], scene.status[k]) {
            (ServerStatus::Ready, ServerStatus::Ready, ServerStatus::Ready) => {
                let (a, b, c) = (
                    scene.loads[i] as int,
                    scene.loads[j] as int,
                    scene.loads[k] as int,
                );
                let (x, y, z) = (
                    worker_count(scene.servers[i]) as int,
                    worker_count(scene.servers[j]) as int,
                    worker_count(scene.servers[k]) as int,
                );
                assert(a * z < c * x) by (nonlinear_arith)
                    requires
                        a * y < b * x,
                        b * z < c * y,
                        x > 0,
                        y > 0,
                        z > 0,
                {
                    assert((a * y) * z < (b * x) * z);
                    assert((b * z) * x < (c * y) * x);
                    assert((a * y) * z == (a * z) * y);
                    assert((b * x) * z == (b * z) * x);
                    assert((c * y) * x == (c * x) * y);
                    assert((a * z) * y < (c * x) * y);
                }
            },
            _ => {},
        }
    }
}

/// What `best` is: a candidate that no other candidate comes before, if there
/// is any candidate.
pub proof fn lemma_best(scene: Scene, ledger: LedgerView, item: ItemView, n: int)
    requires
        0 <= n <= scene.servers.len(),
    ensures
        match scene.best(ledger, item, n) {
            Some(b) => {
                &&& 0 <= b < n
                &&& scene.candidate(ledger, item, b)
                &&& forall|j: int|
                    0 <= j < n && #[trigger] scene.candidate(ledger, item, j) ==> !scene.before(
                        j,
                        b,
                    )
            },
            None => forall|j: int| 0 <= j < n ==> !#[trigger] scene.candidate(ledger, item, j),
        },
    decreases n,
{
    if n > 0 {
        lemma_best(scene, ledger, item, n - 1);
        match scene.best(ledger, item, n - 1) {
            None => {},
            Some(b) => {
                if scene.candidate(ledger, item, n - 1) && scene.before(n - 1, b) {
                    assert forall|j: int|
                        0 <= j < n && #[trigger] scene.candidate(
                            ledger,
                            item,
                            j,
                        ) implies !scene.before(j, n - 1) by {
                        if scene.before(j, n - 1) {
                            lemma_before_transitive(scene, j, n - 1, b);
                        }
                    }
                }
            },
        }
    }
}

/// Does server `i` come strictly before server `j`?
fn comes_before(
    servers: &Vec<ServerConfig>,
    status: &Vec<ServerStatus>,
    loads: &Vec<usize>,
    i: usize,
    j: usize,
) -> (first: bool)
    requires
        (Scene { servers: servers@, status: status@, loads: loads@ }).well_formed(),
        i < servers@.len(),
        j < servers@.len(),
    ensures
        first == (Scene { servers: servers@, status: status@, loads: loads@ }).before(
            i as int,
            j as int,
        ),
{
    if servers[i].priority != servers[j].priority {
        return servers[i].priority < servers[j].priority;
    }
    match (status[i], status[j]) {
        (ServerStatus::Ready, ServerStatus::Ready) => {
            let (a, b) = (loads[i] as u128, loads[j] as u128);
            let (x, y) = (servers[i].workers() as u128, servers[j].workers() as u128);
            assert(a * y <= 0xffff_ffff_ffff_ffff * 0xffff && b * x <= 0xffff_ffff_ffff_ffff
                * 0xffff) by (nonlinear_arith)
                requires
                    a <= 0xffff_ffff_ffff_ffff,
                    b <= 0xffff_ffff_ffff_ffff,
                    x <= 0xffff,
                    y <= 0xffff,
            ;
            a * y < b * x
        },
        (ServerStatus::Ready, _) => true,
        (_, ServerStatus::Ready) => false,
        (ServerStatus::RampUp(a), ServerStatus::RampUp(b)) => a.as_nanos() < b.as_nanos(),
        (ServerStatus::RampUp(_), ServerStatus::Offline) => true,
        (ServerStatus::Offline, _) => false,
    }
}

/// Select where `item` goes next, given whether each server takes work and
/// how many items it has on its hands.
pub fn select_server(
    item: &WorkItem,
    ledger: &Ledger,
    servers: &Vec<ServerConfig>,
    status: &Vec<ServerStatus>,
    loads: &Vec<usize>,
    max_cascades: u32,
) -> (selection: Selection)
    requires
        ledger@.knows(item@),
        (Scene { servers: servers@, status: status@, loads: loads@ }).well_formed(),
    ensures
        selection == (Scene { servers: servers@, status: status@, loads: loads@ }).selection(
            ledger@,
            item@,
            max_cascades,
        ),
{
    let ghost scene = Scene { servers: servers@, status: status@, loads: loads@ };
    let mut best: Option<usize> = None;
    let mut any_enabled = false;
    let mut i: usize = 0;
    while i < servers.len()
        invariant
            ledger@.knows(item@),
            scene.well_formed(),
            scene == (Scene { servers: servers@, status: status@, loads: loads@ }),
            i <= servers@.len(),
            any_enabled == exists|j: int| j < i && scene.enabled(j),
            best is Some <==> scene.best(ledger@, item@, i as int) is Some,
            best matches Some(b) ==> b < i && scene.best(ledger@, item@, i as int) == Some(
                b as int,
            ),
        decreases servers@.len() - i,
    {
        let offline = match status[i] {
            ServerStatus::Offline => true,
            _ => false,
        };
        if servers[i].enabled && !offline {
            assert(scene.enabled(i as int));
            any_enabled = true;
            if !ledger.server_tried(item, servers[i].id.as_str()) {
                best = match best {
                    None => Some(i),
                    Some(b) => if comes_before(servers, status, loads, i, b) {
                        Some(i)
                    } else {
                        Some(b)
                    },
                };
            }
        }
        i += 1;
    }
    match best {
        Some(b) => match status[b] {
            ServerStatus::RampUp(d) => Selection::WaitRampup(d),
            _ => Selection::Server(b),
        },
        None => {
            assert(any_enabled == scene.any_enabled());
            if item.article.transient_failure && item.article.cascades < max_cascades
                && any_enabled {
                Selection::CascadeReset
            } else {
                Selection::GiveUp
            }
        },
    }
}

/// A server is only selected if the item has not failed on it: neither its
/// article's try-list nor that of its file or job names it.
pub proof fn law_selected_server_is_untried(
    scene: Scene,
    ledger: LedgerView,
    item: ItemView,
    max_cascades: u32,
    i: usize,
)
    requires
        scene.well_formed(),
        scene.servers.len() <= usize::MAX,
        scene.selection(ledger, item, max_cascades) == Selection::Server(i),
    ensures
        i < scene.servers.len(),
        scene.enabled(i as int),
        scene.status[i as int] is Ready,
        !ledger.tried(item, scene.servers[i as int].id@),
{
    lemma_best(scene, ledger, item, scene.servers.len() as int);
}

/// Priority-aware failover: a server is only selected once every enabled
/// server of a higher priority has failed on the item.
pub proof fn law_priority_failover(
    scene: Scene,
    ledger: LedgerView,
    item: ItemView,
    max_cascades: u32,
    i: usize,
    j: int,
)
    requires
        scene.well_formed(),
        scene.servers.len() <= usize::MAX,
        scene.selection(ledger, item, max_cascades) == Selection::Server(i),
        scene.enabled(j),
        scene.servers[j].priority < scene.servers[i as int].priority,
    ensures
        ledger.tried(item, scene.servers[j].id@),
{
    lemma_best(scene, ledger, item, scene.servers.len() as int);
    if !ledger.tried(item, scene.servers[j].id@) {
        assert(scene.candidate(ledger, item, j));
        assert(scene.before(j, i as int));
    }
}

/// Servers of the same priority share the load: of those that are ready and
/// have not failed on the item, none has less load for each connection than
/// the selected one.
pub proof fn law_same_priority_shares_load(
    scene: Scene,
    ledger: LedgerView,
    item: ItemView,
    max_cascades: u32,
    i: usize,
    j: int,
)
    requires
        scene.well_formed(),
        scene.servers.len() <= usize::MAX,
        scene.selection(ledger, item, max_cascades) == Selection::Server(i),
        scene.candidate(ledger, item, j),
        scene.status[j] is Ready,
        scene.servers[j].priority == scene.servers[i as int].priority,
    ensures
        scene.loads[i as int] * worker_count(scene.servers[j]) <= scene.loads[j] * worker_count(
            scene.servers[i as int],
        ),
{
    lemma_best(scene, ledger, item, scene.servers.len() as int);
    assert(!scene.before(j, i as int));
}

/// An item is only given up on, or started over, once every enabled server
/// has failed on it; and it is given up on rather than started over exactly
/// when it has no round left, has met no failure that may pass, or no server
/// is enabled.
pub proof fn law_give_up_only_when_exhausted(
    scene: Scene,
    ledger: LedgerView,
    item: ItemView,
    max_cascades: u32,
)
    requires
        scene.well_formed(),
    ensures
        (scene.selection(ledger, item, max_cascades) is GiveUp || scene.selection(
            ledger,
            item,
            max_cascades,
        ) is CascadeReset) <==> (forall|j: int| #[trigger]
            scene.enabled(j) ==> ledger.tried(item, scene.servers[j].id@)),
        scene.selection(ledger, item, max_cascades) is CascadeReset ==> may_cascade(
            item,
            max_cascades,
        ) && scene.any_enabled(),
        scene.selection(ledger, item, max_cascades) is GiveUp ==> !may_cascade(item, max_cascades)
            || !scene.any_enabled(),
{
    lemma_best(scene, ledger, item, scene.servers.len() as int);
    match scene.best(ledger, item, scene.servers.len() as int) {
        Some(b) => {
            assert(scene.enabled(b) && !ledger.tried(item, scene.servers[b].id@));
        },
        None => {
            assert forall|j: int| #[trigger] scene.enabled(j) implies ledger.tried(
                item,
                scene.servers[j].id@,
            ) by {
                assert(!scene.candidate(ledger, item, j));
            }
        },
    }
}

/// An article is tried on each server at most once: once it has failed on a
/// server, that server is not selected for it again, whatever the servers'
/// state, until its try-lists are reset.
pub proof fn law_failed_server_is_not_selected_again(
    scene: Scene,
    ledger: LedgerView,
    item: ItemView,
    server: Seq<char>,
    transient: bool,
    max_cascades: u32,
    i: usize,
)
    requires
        scene.well_formed(),
        scene.servers.len() <= usize::MAX,
        ledger.knows(item),
        scene.selection(
            ledger.after_failure(item, server),
            item.after_failure(server, transient),
            max_cascades,
        ) == Selection::Server(i),
    ensures
        scene.servers[i as int].id@ != server,
{
    law_selected_server_is_untried(
        scene,
        ledger.after_failure(item, server),
        item.after_failure(server, transient),
        max_cascades,
        i,
    );
}

/// Articles of a file skip a server that the file has exhausted, and so do
/// articles of a job.
pub proof fn law_exhausted_server_is_skipped(
    scene: Scene,
    ledger: LedgerView,
    item: ItemView,
    max_cascades: u32,
    i: usize,
)
    requires
        scene.well_formed(),
        scene.servers.len() <= usize::MAX,
        ledger.knows(item),
        scene.selection(ledger, item, max_cascades) == Selection::Server(i),
    ensures
        !ledger.files[item.file as int].failures.tried.contains(scene.servers[i as int].id@),
        !ledger.jobs[item.job as int].failures.tried.contains(scene.servers[i as int].id@),
{
    law_selected_server_is_untried(scene, ledger, item, max_cascades, i);
}

/// Starting over helps: after a reset every enabled server is a candidate
/// again, so the next selection is a server or a wait for one.
pub proof fn law_reset_makes_progress(
    scene: Scene,
    ledger: LedgerView,
    item: ItemView,
    max_cascades: u32,
)
    requires
        scene.well_formed(),
        ledger.knows(item),
        scene.selection(ledger, item, max_cascades) is CascadeReset,
    ensures
        forall|j: int| #[trigger]
            scene.enabled(j) ==> scene.candidate(ledger.after_reset(item), item.after_reset(), j),
        ({
            let next = scene.selection(ledger.after_reset(item), item.after_reset(), max_cascades);
            next is Server || next is WaitRampup
        }),
{
    let (l, it) = (ledger.after_reset(item), item.after_reset());
    assert(it.article.tried == Set::<Seq<char>>::empty());
    assert(l.files[it.file as int].failures.tried == Set::<Seq<char>>::empty());
    assert(l.jobs[it.job as int].failures.tried == Set::<Seq<char>>::empty());
    assert forall|j: int| #[trigger] scene.enabled(j) implies scene.candidate(l, it, j) by {}
    lemma_best(scene, l, it, scene.servers.len() as int);
    let j = choose|j: int| scene.enabled(j);
    assert(scene.candidate(l, it, j));
}

/// Server `i` is enabled, is not out of service, and is on none of the
/// try-lists of the item: not its article's, its file's or its job's.
pub open spec fn usable(scene: Scene, ledger: LedgerView, item: ItemView, i: int) -> bool {
    &&& 0 <= i < scene.servers.len()
    &&& scene.servers[i].enabled
    &&& !(scene.status[i] is Offline)
    &&& !item.article.tried.contains(scene.servers[i].id@)
    &&& !ledger.files[item.file as int].failures.tried.contains(scene.servers[i].id@)
    &&& !ledger.jobs[item.job as int].failures.tried.contains(scene.servers[i].id@)
}

/// No usable server has a higher priority than server `i`.
pub open spec fn top_priority(scene: Scene, ledger: LedgerView, item: ItemView, i: int) -> bool {
    forall|j: int| #[trigger]
        usable(scene, ledger, item, j) ==> scene.servers[i].priority <= scene.servers[j].priority
}

/// A slow server does not hold up the rest: where a usable server of the top
/// priority is ready, the item goes to a ready server of that priority, and to
/// one that has no more load for each connection than any other of them.
pub proof fn law_ready_server_gets_the_item(
    scene: Scene,
    ledger: LedgerView,
    item: ItemView,
    max_cascades: u32,
    i: int,
)
    requires
        scene.well_formed(),
        scene.servers.len() <= usize::MAX,
        usable(scene, ledger, item, i),
        scene.status[i] is Ready,
        top_priority(scene, ledger, item, i),
    ensures
        scene.selection(ledger, item, max_cascades) matches Selection::Server(k) && {
            &&& usable(scene, ledger, item, k as int)
            &&& scene.status[k as int] is Ready
            &&& scene.servers[k as int].priority == scene.servers[i].priority
            &&& forall|j: int| #[trigger]
                usable(scene, ledger, item, j) && scene.status[j] is Ready
                    && scene.servers[j].priority == scene.servers[i].priority
                    ==> scene.loads[k as int] * worker_count(scene.servers[j]) <= scene.loads[j]
                    * worker_count(scene.servers[k as int])
        },
{
    lemma_best(scene, ledger, item, scene.servers.len() as int);
    assert(scene.candidate(ledger, item, i));
    let b = scene.best(ledger, item, scene.servers.len() as int)->0;
    assert(usable(scene, ledger, item, b));
    assert(!scene.before(i, b));
    assert forall|j: int| #[trigger]
        usable(scene, ledger, item, j) && scene.status[j] is Ready && scene.servers[j].priority
            == scene.servers[i].priority implies scene.loads[b] * worker_count(scene.servers[j])
        <= scene.loads[j] * worker_count(scene.servers[b]) by {
        assert(scene.candidate(ledger, item, j));
        assert(!scene.before(j, b));
    }
}

/// An item only waits for a server that it would go to: one that is usable and
/// of the top priority, where none of that priority is ready, and the one that
/// is ready soonest.
pub proof fn law_wait_is_for_a_top_server(
    scene: Scene,
    ledger: LedgerView,
    item: ItemView,
    max_cascades: u32,
    wait: Span,
)
    requires
        scene.well_formed(),
        scene.servers.len() <= usize::MAX,
        scene.selection(ledger, item, max_cascades) == Selection::WaitRampup(wait),
    ensures
        exists|i: int|
            {
                &&& #[trigger] usable(scene, ledger, item, i)
                &&& scene.status[i] == ServerStatus::RampUp(wait)
                &&& top_priority(scene, ledger, item, i)
                &&& forall|j: int| #[trigger]
                    usable(scene, ledger, item, j) && scene.servers[j].priority
                        == scene.servers[i].priority ==> (scene.status[j] matches
                        ServerStatus::RampUp(other) && wait@ <= other@)
            },
{
    lemma_best(scene, ledger, item, scene.servers.len() as int);
    let b = scene.best(ledger, item, scene.servers.len() as int)->0;
    assert(usable(scene, ledger, item, b));
    assert forall|j: int| #[trigger] usable(scene, ledger, item, j) implies {
        &&& scene.servers[b].priority <= scene.servers[j].priority
        &&& scene.servers[j].priority == scene.servers[b].priority ==> (scene.status[j] matches
            ServerStatus::RampUp(other) && wait@ <= other@)
    } by {
        assert(scene.candidate(ledger, item, j));
        assert(!scene.before(j, b));
    }
}

/// Where the item goes in any case: to a usable, ready server of the top
/// priority, or it waits for one, if there is any usable server; without one it
/// starts over exactly where a failure of its may pass, it has rounds left and
/// some server takes work, and is given up on otherwise.
pub proof fn law_selection_follows_the_servers(
    scene: Scene,
    ledger: LedgerView,
    item: ItemView,
    max_cascades: u32,
)
    requires
        scene.well_formed(),
        scene.servers.len() <= usize::MAX,
    ensures
        ({
            let selection = scene.selection(ledger, item, max_cascades);
            let any_usable = exists|i: int| usable(scene, ledger, item, i);
            let any_enabled = exists|i: int|
                0 <= i < scene.servers.len() && (#[trigger] scene.servers[i]).enabled && !(
                scene.status[i] is Offline);
            &&& selection is Server || selection is WaitRampup <==> any_usable
            &&& selection is CascadeReset <==> !any_usable && item.article.transient_failure
                && item.article.cascades < max_cascades && any_enabled
            &&& selection matches Selection::Server(k) ==> usable(scene, ledger, item, k as int)
                && scene.status[k as int] is Ready && top_priority(scene, ledger, item, k as int)
        }),
{
    lemma_best(scene, ledger, item, scene.servers.len() as int);
    assert forall|i: int| usable(scene, ledger, item, i) <==> 0 <= i < scene.servers.len()
        && #[trigger] scene.candidate(ledger, item, i) by {}
    let any_enabled = exists|i: int|
        0 <= i < scene.servers.len() && (#[trigger] scene.servers[i]).enabled && !(
        scene.status[i] is Offline);
    if any_enabled {
        let i = choose|i: int|
            0 <= i < scene.servers.len() && (#[trigger] scene.servers[i]).enabled && !(
            scene.status[i] is Offline);
        assert(scene.enabled(i));
    }
    match scene.best(ledger, item, scene.servers.len() as int) {
        Some(b) => {
            assert(usable(scene, ledger, item, b));
            assert forall|j: int| #[trigger] usable(
                scene,
                ledger,
                item,
                j,
            ) implies scene.servers[b].priority <= scene.servers[j].priority by {
                assert(scene.candidate(ledger, item, j));
                assert(!scene.before(j, b));
            }
        },
        None => {
            assert forall|i: int| !usable(scene, ledger, item, i) by {
                if usable(scene, ledger, item, i) {
                    assert(scene.candidate(ledger, item, i));
                }
            }
        },
    }
}

} // verus!
