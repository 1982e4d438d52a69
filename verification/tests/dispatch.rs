use nzb_news::article::{Article, Ledger, NzbFile, NzbObject, WorkItem};
use nzb_news::config::ServerConfig;
use nzb_news::dispatch::{effective_status, select_server, Selection, ServerStatus};
use nzb_news::error::FetchError;
use nzb_news::outcome::{health_action, HealthAction, PenaltyAction, SchedulerMsg};
use nzb_news::span::Span;

fn server(id: &str, priority: u8, connections: u16) -> ServerConfig {
    let mut config = ServerConfig::new(id, "h");
    config.priority = priority;
    config.connections = connections;
    config
}

/// A ledger with one file and one job of so many articles, and an item of it.
fn one_item(articles: u64) -> (Ledger, WorkItem) {
    let mut ledger = Ledger::new();
    let file = ledger.add_file(NzbFile::new("f1", articles));
    let job = ledger.add_job(NzbObject::new("j1", articles));
    let item = WorkItem { tag: 1, article: Article::new("m1", "f1", "j1"), file, job };
    (ledger, item)
}

fn chosen(selection: Selection) -> usize {
    match selection {
        Selection::Server(i) => i,
        other => panic!("expected a server, got {other:?}"),
    }
}

#[test]
fn higher_priority_goes_first_whatever_its_load() {
    let (ledger, item) = one_item(9);
    let servers = vec![server("backup", 5, 10), server("primary", 1, 1)];
    let ready = vec![ServerStatus::Ready, ServerStatus::Ready];
    assert_eq!(chosen(select_server(&item, &ledger, &servers, &ready, &vec![0, 1000], 0)), 1);
}

#[test]
fn lower_priority_gets_it_only_after_the_higher_has_failed() {
    let (mut ledger, mut item) = one_item(9);
    let servers = vec![server("primary", 1, 2), server("backup", 5, 2)];
    let ready = vec![ServerStatus::Ready, ServerStatus::Ready];
    assert_eq!(chosen(select_server(&item, &ledger, &servers, &ready, &vec![0, 0], 0)), 0);
    ledger.record_failure(&mut item, "primary", false);
    assert_eq!(chosen(select_server(&item, &ledger, &servers, &ready, &vec![0, 0], 0)), 1);
}

#[test]
fn a_ramping_server_of_higher_priority_is_waited_for() {
    let (ledger, item) = one_item(9);
    let servers = vec![server("primary", 1, 2), server("backup", 5, 2)];
    let status = vec![ServerStatus::RampUp(Span::from_millis(40)), ServerStatus::Ready];
    match select_server(&item, &ledger, &servers, &status, &vec![0, 0], 0) {
        Selection::WaitRampup(wait) => assert_eq!(wait, Span::from_millis(40)),
        other => panic!("expected to wait, got {other:?}"),
    }
}

#[test]
fn a_ready_server_of_the_same_priority_is_not_waited_past() {
    let (ledger, item) = one_item(9);
    let servers = vec![server("a", 1, 2), server("b", 1, 2), server("c", 1, 2)];
    let status = vec![
        ServerStatus::RampUp(Span::from_millis(40)),
        ServerStatus::Offline,
        ServerStatus::Ready,
    ];
    assert_eq!(chosen(select_server(&item, &ledger, &servers, &status, &vec![0, 0, 50], 0)), 2);
}

#[test]
fn the_sooner_of_two_ramping_servers_is_waited_for() {
    let (ledger, item) = one_item(9);
    let servers = vec![server("a", 1, 2), server("b", 1, 2)];
    let status = vec![
        ServerStatus::RampUp(Span::from_millis(40)),
        ServerStatus::RampUp(Span::from_millis(30)),
    ];
    match select_server(&item, &ledger, &servers, &status, &vec![0, 0], 0) {
        Selection::WaitRampup(wait) => assert_eq!(wait, Span::from_millis(30)),
        other => panic!("expected to wait, got {other:?}"),
    }
}

#[test]
fn disabled_and_offline_servers_are_passed_over() {
    let (ledger, item) = one_item(9);
    let mut servers = vec![server("a", 0, 2), server("b", 1, 2), server("c", 2, 2)];
    servers[0].enabled = false;
    let status = vec![ServerStatus::Ready, ServerStatus::Offline, ServerStatus::Ready];
    assert_eq!(chosen(select_server(&item, &ledger, &servers, &status, &vec![0, 0, 0], 0)), 2);
}

#[test]
fn load_is_compared_per_connection() {
    let (ledger, item) = one_item(9);
    let servers = vec![server("a", 0, 4), server("b", 0, 10)];
    let ready = vec![ServerStatus::Ready, ServerStatus::Ready];
    // 1/4 against 2/10.
    assert_eq!(chosen(select_server(&item, &ledger, &servers, &ready, &vec![1, 2], 0)), 1);
    // 2/4 against 5/10: the first of equals.
    assert_eq!(chosen(select_server(&item, &ledger, &servers, &ready, &vec![2, 5], 0)), 0);
    // 1/4 against 3/10.
    assert_eq!(chosen(select_server(&item, &ledger, &servers, &ready, &vec![1, 3], 0)), 0);
}

#[test]
fn a_missing_article_is_given_up_after_every_server() {
    let (mut ledger, mut item) = one_item(9);
    let servers = vec![server("s1", 1, 2), server("s2", 5, 2)];
    let ready = vec![ServerStatus::Ready, ServerStatus::Ready];
    ledger.record_failure(&mut item, "s1", false);
    ledger.record_failure(&mut item, "s2", false);
    assert!(matches!(
        select_server(&item, &ledger, &servers, &ready, &vec![0, 0], 9),
        Selection::GiveUp
    ));
}

#[test]
fn a_transient_failure_earns_another_round_while_rounds_are_left() {
    let (mut ledger, mut item) = one_item(9);
    let servers = vec![server("s1", 1, 2)];
    let ready = vec![ServerStatus::Ready];
    ledger.record_failure(&mut item, "s1", true);
    assert!(matches!(
        select_server(&item, &ledger, &servers, &ready, &vec![0], 0),
        Selection::GiveUp
    ));
    assert!(matches!(
        select_server(&item, &ledger, &servers, &ready, &vec![0], 1),
        Selection::CascadeReset
    ));
    // With every server offline another round would lead nowhere.
    assert!(matches!(
        select_server(&item, &ledger, &servers, &vec![ServerStatus::Offline], &vec![0], 1),
        Selection::GiveUp
    ));
    ledger.cascade_reset(&mut item);
    assert_eq!(chosen(select_server(&item, &ledger, &servers, &ready, &vec![0], 1)), 0);
    ledger.record_failure(&mut item, "s1", true);
    assert!(matches!(
        select_server(&item, &ledger, &servers, &ready, &vec![0], 1),
        Selection::GiveUp
    ));
}

#[test]
fn no_servers_means_give_up() {
    let (ledger, item) = one_item(9);
    assert!(matches!(
        select_server(&item, &ledger, &vec![], &vec![], &vec![], 5),
        Selection::GiveUp
    ));
}

#[test]
fn articles_skip_a_server_that_their_file_has_exhausted() {
    let (mut ledger, mut item) = one_item(1);
    let file = item.file;
    let job = ledger.add_job(NzbObject::new("j2", 9));
    let second = WorkItem { tag: 2, article: Article::new("m2", "f1", "j2"), file, job };
    let servers = vec![server("s1", 1, 2), server("s2", 5, 2)];
    let ready = vec![ServerStatus::Ready, ServerStatus::Ready];
    ledger.record_failure(&mut item, "s1", false);
    assert!(!second.article.server_tried("s1"));
    assert_eq!(chosen(select_server(&second, &ledger, &servers, &ready, &vec![0, 0], 0)), 1);
}

#[test]
fn what_a_message_costs_its_server() {
    let (_, item) = one_item(1);
    let (d, default) = (Span::from_secs(3), Span::from_secs(30));
    let failed = |err| SchedulerMsg::FetchResult { item: item.clone(), server: 0, result: Err(err) };
    let arrived = SchedulerMsg::FetchResult { item: item.clone(), server: 0, result: Ok(vec![]) };
    let returned = SchedulerMsg::ReturnUnattempted { items: vec![], server: 0, error: "e".into() };
    let missing = failed(FetchError::ArticleNotFound("m".into()));
    let refused = failed(FetchError::Auth("a".into()));
    assert!(matches!(
        health_action(&arrived, PenaltyAction::Cooldown(d), default),
        HealthAction::Nothing
    ));
    assert!(matches!(
        health_action(&missing, PenaltyAction::NoPenalty, default),
        HealthAction::Nothing
    ));
    assert!(matches!(
        health_action(&refused, PenaltyAction::Cooldown(d), default),
        HealthAction::ApplyPenalty(rest) if rest == d
    ));
    assert!(matches!(
        health_action(&refused, PenaltyAction::BadCons(d), default),
        HealthAction::RegisterFailure(rest) if rest == d
    ));
    assert!(matches!(
        health_action(&returned, PenaltyAction::NoPenalty, default),
        HealthAction::RegisterFailure(rest) if rest == default
    ));
}

#[test]
fn server_without_workers_is_offline() {
    assert!(matches!(effective_status(0, ServerStatus::Ready), ServerStatus::Offline));
    assert!(matches!(effective_status(1, ServerStatus::Ready), ServerStatus::Ready));
    assert!(matches!(effective_status(2, ServerStatus::Offline), ServerStatus::Offline));
    let ramping = ServerStatus::RampUp(Span::from_millis(5));
    assert!(matches!(
        effective_status(1, ramping),
        ServerStatus::RampUp(wait) if wait == Span::from_millis(5)
    ));
}
