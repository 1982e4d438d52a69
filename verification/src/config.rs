//! Configuration of servers and of the downloader.

use vstd::prelude::*;

use crate::span::Span;

verus! {

/// What the engine reads of a server's configuration.
#[derive(Debug, Clone)]
pub struct ServerConfig {
    /// Unique server identifier
    pub id: String,
    /// Server hostname
    pub host: String,
    /// Max simultaneous connections
    pub connections: u16,
    /// Server priority (0 = highest)
    pub priority: u8,
    /// Enable this server
    pub enabled: bool,
    /// Number of pipelined requests per connection
    pub pipelining: u8,
}

/// `nzb_nntp::config::ServerConfig::new`: the given id and host, eight
/// connections, the highest priority, enabled, and no pipelining.
#[verifier::external_body]
fn default_server(id: &str, host: &str) -> (config: ServerConfig)
    ensures
        config.id@ == id@,
        config.host@ == host@,
        config.connections == 8,
        config.priority == 0,
        config.enabled,
        config.pipelining == 1,
{
    let c = nzb_nntp::config::ServerConfig::new(id, host);
    ServerConfig {
        id: c.id,
        host: c.host,
        connections: c.connections,
        priority: c.priority,
        enabled: c.enabled,
        pipelining: c.pipelining,
    }
}

/// How many worker tasks a server gets: one per connection, and at least one.
pub open spec fn worker_count(config: ServerConfig) -> nat {
    if config.connections == 0 {
        1
    } else {
        config.connections as nat
    }
}

/// How many requests one connection keeps in flight: at least one.
pub open spec fn pipeline_depth(config: ServerConfig) -> nat {
    if config.pipelining == 0 {
        1
    } else {
        config.pipelining as nat
    }
}

/// Soft cap on a server's queue: twice what its connections keep in flight,
/// and at least eight.
pub open spec fn queue_cap(config: ServerConfig) -> nat {
    let twice = config.connections as nat * pipeline_depth(config) * 2;
    if twice < 8 {
        8
    } else {
        twice
    }
}

impl ServerConfig {
    /// Create a `ServerConfig` with the given id and host, using defaults for
    /// all other fields.
    pub fn new(id: &str, host: &str) -> (config: Self)
        ensures
            config.id@ == id@,
            config.host@ == host@,
            config.connections == 8,
            config.priority == 0,
            config.enabled,
            config.pipelining == 1,
    {
        default_server(id, host)
    }

    /// How many worker tasks the server gets.
    pub fn workers(&self) -> (count: u16)
        ensures
            count == worker_count(*self),
    {
        if self.connections == 0 {
            1
        } else {
            self.connections
        }
    }

    /// How many requests one connection keeps in flight.
    pub fn depth(&self) -> (depth: u8)
        ensures
            depth == pipeline_depth(*self),
    {
        if self.pipelining == 0 {
            1
        } else {
            self.pipelining
        }
    }

    /// Rough soft cap on the server's queue depth. Prevents one server's
    /// queue from absorbing all pending work when another server is blocked.
    pub fn queue_cap(&self) -> (cap: usize)
        ensures
            cap == queue_cap(*self),
    {
        let depth = self.depth();
        assert(self.connections * depth * 2 <= 0xffff * 0xff * 2) by (nonlinear_arith)
            requires
                self.connections <= 0xffff,
                depth <= 0xff,
        ;
        assert(self.connections * depth <= 0xffff * 0xff) by (nonlinear_arith)
            requires
                self.connections <= 0xffff,
                depth <= 0xff,
        ;
        let twice = self.connections as usize * depth as usize * 2;
        if twice < 8 {
            8
        } else {
            twice
        }
    }
}

/// The connections of all servers together.
pub open spec fn total_connections(servers: Seq<ServerConfig>) -> nat
    decreases servers.len(),
{
    if servers.len() == 0 {
        0
    } else {
        total_connections(servers.drop_last()) + servers.last().connections as nat
    }
}

/// Fewer servers have no more connections together.
proof fn lemma_total_connections_grows(servers: Seq<ServerConfig>, n: int)
    requires
        0 <= n <= servers.len(),
    ensures
        total_connections(servers.take(n)) <= total_connections(servers),
    decreases servers.len() - n,
{
    if n < servers.len() {
        lemma_total_connections_grows(servers, n + 1);
        assert(servers.take(n + 1).drop_last() =~= servers.take(n));
    } else {
        assert(servers.take(n) =~= servers);
    }
}

/// Configuration for a new downloader.
#[derive(Debug, Clone)]
pub struct DownloaderConfig {
    /// Servers to dispatch against. Priority order: lowest `priority` first.
    pub servers: Vec<ServerConfig>,
    /// Cap on total concurrent fetches (wrappers × pipeline depth). A
    /// reasonable default is `sum(server.connections) * pipelining`, but
    /// the persistent-worker model self-regulates via per-server queue
    /// depth so this is mostly a safety net. Currently unused by the
    /// worker model; retained for API stability.
    pub max_concurrent_fetches: usize,
    /// Per-article timeout. Bounds how long a single fetch may take before
    /// the batch is cancelled and its items re-queued onto other servers.
    pub article_timeout: Span,
    /// Bounded capacity of the incoming work channel.
    pub work_channel_capacity: usize,
    /// Bounded capacity of the outgoing outcome channel. When the
    /// assembler is slower than the driver, the channel fills and sending
    /// on it blocks the scheduler.
    pub outcome_channel_capacity: usize,
}

impl DownloaderConfig {
    /// The defaults for these servers: as many concurrent fetches as the
    /// servers have connections together, and at least four; a minute for
    /// each article; channels of 4096.
    pub fn from_servers(servers: Vec<ServerConfig>) -> (config: Self)
        requires
            total_connections(servers@) <= usize::MAX,
        ensures
            config.servers == servers,
            config.max_concurrent_fetches == if total_connections(servers@) < 4 {
                4
            } else {
                total_connections(servers@)
            },
            config.article_timeout@ == 60_000_000_000,
            config.work_channel_capacity == 4096,
            config.outcome_channel_capacity == 4096,
    {
        let mut total: usize = 0;
        let mut i: usize = 0;
        assert(servers@.take(0) =~= Seq::<ServerConfig>::empty());
        while i < servers.len()
            invariant
                i <= servers@.len(),
                total == total_connections(servers@.take(i as int)),
                total_connections(servers@) <= usize::MAX,
            decreases servers@.len() - i,
        {
            proof {
                assert(servers@.take(i + 1).drop_last() =~= servers@.take(i as int));
                lemma_total_connections_grows(servers@, i + 1);
            }
            total = total + servers[i].connections as usize;
            i += 1;
        }
        assert(servers@.take(i as int) =~= servers@);
        let max_concurrent_fetches = if total < 4 { 4 } else { total };
        DownloaderConfig {
            servers,
            max_concurrent_fetches,
            article_timeout: Span::from_secs(60),
            work_channel_capacity: 4096,
            outcome_channel_capacity: 4096,
        }
    }
}

/// A server has as many workers as connections, each keeps as many requests in
/// flight as it pipelines, and without a number it is one of each; the soft cap
/// is twice what all of them keep in flight, or eight where that is less.
pub proof fn law_server_sizes(config: ServerConfig)
    ensures
        config.connections > 0 ==> worker_count(config) == config.connections,
        config.connections == 0 ==> worker_count(config) == 1,
        config.pipelining > 0 ==> pipeline_depth(config) == config.pipelining,
        config.pipelining == 0 ==> pipeline_depth(config) == 1,
        queue_cap(config) >= 8,
        config.pipelining > 0 ==> queue_cap(config) >= 2 * (config.connections
            * config.pipelining),
        config.pipelining == 0 ==> queue_cap(config) >= 2 * config.connections,
        queue_cap(config) > 8 ==> queue_cap(config) == 2 * (config.connections * (
        if config.pipelining == 0 {
            1
        } else {
            config.pipelining as int
        })),
{
    assert(config.connections * 1 == config.connections) by (nonlinear_arith);
    assert(config.connections as nat * 1nat == config.connections) by (nonlinear_arith);
}

/// The connections of all servers together are those of some and those of the
/// others, and of a single one its own.
pub proof fn law_connections_add_up(some: Seq<ServerConfig>, others: Seq<ServerConfig>)
    ensures
        total_connections(some + others) == total_connections(some) + total_connections(others),
        forall|s: ServerConfig| #[trigger] total_connections(seq![s]) == s.connections,
    decreases others.len(),
{
    assert forall|s: ServerConfig| #[trigger] total_connections(seq![s]) == s.connections by {
        assert(seq![s].drop_last() =~= Seq::<ServerConfig>::empty());
        reveal_with_fuel(total_connections, 2);
    }
    if others.len() == 0 {
        assert(some + others =~= some);
    } else {
        law_connections_add_up(some, others.drop_last());
        assert((some + others).drop_last() =~= some + others.drop_last());
    }
}

} // verus!
