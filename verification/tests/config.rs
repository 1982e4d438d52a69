use nzb_news::config::{DownloaderConfig, ServerConfig};
use nzb_news::plan::{sort_by_priority, DownloaderPlan, WorkerSlot};
use nzb_news::span::Span;

fn server(id: &str, connections: u16, priority: u8, pipelining: u8) -> ServerConfig {
    let mut config = ServerConfig::new(id, "news.example.com");
    config.connections = connections;
    config.priority = priority;
    config.pipelining = pipelining;
    config
}

#[test]
fn downloader_config_from_servers_caps_max_conc() {
    let mut s1 = ServerConfig::new("a", "h1");
    s1.connections = 3;
    let mut s2 = ServerConfig::new("b", "h2");
    s2.connections = 5;
    let c = DownloaderConfig::from_servers(vec![s1, s2]);
    assert_eq!(c.max_concurrent_fetches, 8);
    assert!(c.article_timeout >= Span::from_secs(10));
}

#[test]
fn downloader_config_has_min_concurrency() {
    let c = DownloaderConfig::from_servers(vec![]);
    assert!(c.max_concurrent_fetches >= 4);
}

#[test]
fn downloader_config_defaults() {
    let c = DownloaderConfig::from_servers(vec![server("a", 3, 0, 1)]);
    assert_eq!(c.servers.len(), 1);
    assert_eq!(c.servers[0].id, "a");
    assert_eq!(c.max_concurrent_fetches, 4);
    assert_eq!(c.article_timeout, Span::from_secs(60));
    assert_eq!(c.work_channel_capacity, 4096);
    assert_eq!(c.outcome_channel_capacity, 4096);
}

#[test]
fn server_defaults() {
    let s = ServerConfig::new("main", "news.example.com");
    assert_eq!(s.id, "main");
    assert_eq!(s.host, "news.example.com");
    assert_eq!(s.connections, 8);
    assert_eq!(s.priority, 0);
    assert!(s.enabled);
    assert_eq!(s.pipelining, 1);
}

#[test]
fn server_defaults_are_those_of_the_client() {
    let ours = ServerConfig::new("main", "news.example.com");
    let theirs = nzb_nntp::config::ServerConfig::new("main", "news.example.com");
    assert_eq!(ours.id, theirs.id);
    assert_eq!(ours.host, theirs.host);
    assert_eq!(ours.connections, theirs.connections);
    assert_eq!(ours.priority, theirs.priority);
    assert_eq!(ours.enabled, theirs.enabled);
    assert_eq!(ours.pipelining, theirs.pipelining);
}

#[test]
fn soft_cap_is_twice_what_is_in_flight_and_at_least_eight() {
    assert_eq!(server("a", 10, 0, 4).queue_cap(), 80);
    assert_eq!(server("a", 10, 0, 0).queue_cap(), 20);
    assert_eq!(server("a", 2, 0, 1).queue_cap(), 8);
    assert_eq!(server("a", 0, 0, 5).queue_cap(), 8);
    assert_eq!(server("a", 65535, 0, 255).queue_cap(), 33_422_850);
}

#[test]
fn zero_connections_still_get_a_worker() {
    assert_eq!(server("a", 0, 0, 0).workers(), 1);
    assert_eq!(server("a", 0, 0, 0).depth(), 1);
    assert_eq!(server("a", 7, 0, 3).workers(), 7);
    assert_eq!(server("a", 7, 0, 3).depth(), 3);
}

#[test]
fn servers_are_sorted_by_priority_and_ties_keep_their_order() {
    let given = vec![
        server("backup", 1, 5, 1),
        server("first", 1, 1, 1),
        server("fill", 1, 9, 1),
        server("second", 1, 1, 1),
        server("top", 1, 0, 1),
    ];
    let sorted: Vec<String> = sort_by_priority(given).into_iter().map(|s| s.id).collect();
    assert_eq!(sorted, vec!["top", "first", "second", "backup", "fill"]);
}

#[test]
fn plan_has_a_worker_for_each_connection_in_priority_order() {
    let mut config = DownloaderConfig::from_servers(vec![server("b", 0, 5, 2), server("a", 2, 1, 10)]);
    config.work_channel_capacity = 0;
    config.outcome_channel_capacity = 1;
    config.article_timeout = Span::from_secs(10);
    let plan = DownloaderPlan::new(config);
    assert_eq!(plan.servers[0].id, "a");
    assert_eq!(plan.servers[1].id, "b");
    assert_eq!(plan.queue_caps, vec![40, 8]);
    assert_eq!(
        plan.workers,
        vec![
            WorkerSlot { server: 0, id: 1 },
            WorkerSlot { server: 0, id: 2 },
            WorkerSlot { server: 1, id: 1 },
        ]
    );
    assert_eq!(plan.work_capacity, 1);
    assert_eq!(plan.outcome_capacity, 1);
    assert_eq!(plan.article_timeout, Span::from_secs(10));
}

#[test]
fn spans_convert_and_multiply() {
    let span = Span::new(3, 250_000_000);
    assert_eq!(span.as_nanos(), 3_250_000_000);
    assert_eq!(span.as_secs(), 3);
    assert_eq!(span.subsec_nanos(), 250_000_000);
    assert_eq!(Span::from_millis(3250), span);
    assert_eq!(span.saturating_sub(Span::from_secs(1)), Span::from_millis(2250));
    assert_eq!(Span::from_secs(1).saturating_sub(span), Span::from_secs(0));
    assert_eq!(span.checked_mul(2), Some(Span::from_millis(6500)));
    assert_eq!(Span::from_secs(u64::MAX).checked_mul(1), Some(Span::from_secs(u64::MAX)));
    assert_eq!(Span::from_secs(u64::MAX).checked_mul(2), None);
}
