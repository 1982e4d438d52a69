//! How often an article can be attempted: the retry limit.

use vstd::prelude::*;

use crate::article::{ItemView, LedgerView};
use crate::config::ServerConfig;
use crate::dispatch::Scene;

verus! {

/// How many of the first `n` servers are not on the list.
pub open spec fn untried(servers: Seq<ServerConfig>, tried: Set<Seq<char>>, n: int) -> nat
    decreases n,
{
    if n <= 0 {
        0
    } else {
        untried(servers, tried, n - 1) + (if tried.contains(servers[n - 1].id@) {
            0nat
        } else {
            1nat
        })
    }
}

/// How many rounds the item has left after this one.
pub open spec fn rounds_left(item: ItemView, max_cascades: u32) -> nat {
    if item.article.cascades < max_cascades {
        (max_cascades - item.article.cascades) as nat
    } else {
        0
    }
}

/// How often the item can still be attempted: once on each server that it has
/// not failed on in this round, and once on each server in each round left.
pub open spec fn attempts_left(
    servers: Seq<ServerConfig>,
    item: ItemView,
    max_cascades: u32,
) -> nat {
    rounds_left(item, max_cascades) * servers.len() + untried(
        servers,
        item.article.tried,
        servers.len() as int,
    )
}

/// There are no more untried servers than servers, and trying one leaves no
/// more, and fewer if it was untried.
proof fn lemma_untried(
    servers: Seq<ServerConfig>,
    tried: Set<Seq<char>>,
    server: Seq<char>,
    n: int,
)
    requires
        0 <= n <= servers.len(),
    ensures
        untried(servers, tried, n) <= n,
        untried(servers, tried.insert(server), n) <= untried(servers, tried, n),
        !tried.contains(server) && (exists|i: int|
            0 <= i < n && #[trigger] servers[i].id@ == server) ==> untried(
            servers,
            tried.insert(server),
            n,
        ) < untried(servers, tried, n),
    decreases n,
{
    if n > 0 {
        lemma_untried(servers, tried, server, n - 1);
    }
}

/// Each failed attempt uses one up: once an item has failed on a server that
/// it had not failed on, it has fewer attempts left.
pub proof fn law_failure_uses_up_an_attempt(
    servers: Seq<ServerConfig>,
    item: ItemView,
    i: int,
    transient: bool,
    max_cascades: u32,
)
    requires
        0 <= i < servers.len(),
        !item.article.tried.contains(servers[i].id@),
    ensures
        attempts_left(
            servers,
            item.after_failure(servers[i].id@, transient),
            max_cascades,
        ) < attempts_left(servers, item, max_cascades),
{
    lemma_untried(servers, item.article.tried, servers[i].id@, servers.len() as int);
}

/// Starting over adds no attempts: it trades a round for the servers in it.
pub proof fn law_reset_adds_no_attempt(
    scene: Scene,
    ledger: LedgerView,
    item: ItemView,
    max_cascades: u32,
)
    requires
        scene.selection(ledger, item, max_cascades) is CascadeReset,
    ensures
        attempts_left(scene.servers, item.after_reset(), max_cascades) <= attempts_left(
            scene.servers,
            item,
            max_cascades,
        ),
{
    let n = scene.servers.len();
    let rounds = rounds_left(item, max_cascades);
    lemma_untried(scene.servers, item.after_reset().article.tried, Seq::empty(), n as int);
    assert(rounds_left(item.after_reset(), max_cascades) == rounds - 1);
    assert((rounds - 1) * n + n == rounds * n) by (nonlinear_arith);
}

/// The retry limit: an item is attempted at most once on each server in each
/// of its rounds.
pub proof fn law_attempts_are_bounded(
    servers: Seq<ServerConfig>,
    item: ItemView,
    max_cascades: u32,
)
    ensures
        attempts_left(servers, item, max_cascades) <= (max_cascades + 1) * servers.len(),
{
    let n = servers.len();
    let rounds = rounds_left(item, max_cascades);
    lemma_untried(servers, item.article.tried, Seq::empty(), n as int);
    assert(rounds * n + n <= (max_cascades + 1) * n) by (nonlinear_arith)
        requires
            rounds <= max_cascades,
    ;
}

} // verus!
