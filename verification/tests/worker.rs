use nzb_news::article::{Article, WorkItem};
use nzb_news::config::ServerConfig;
use nzb_news::error::FetchError;
use nzb_news::outcome::SchedulerMsg;
use nzb_news::queue::{Popped, ServerQueue};
use nzb_news::worker::{strand, BatchStep, ConnectStep, Worker};

fn item(tag: u64) -> WorkItem {
    WorkItem { tag, article: Article::new("m", "f", "j"), file: 0, job: 0 }
}

fn worker() -> Worker {
    let mut config = ServerConfig::new("s1", "h1");
    config.pipelining = 4;
    Worker::new(2, 7, &config)
}

#[test]
fn worker_takes_as_many_as_it_pipelines() {
    let worker = worker();
    assert_eq!(worker.server, 2);
    assert_eq!(worker.id, 7);
    assert_eq!(worker.depth, 4);
    assert_eq!(worker.connect_failures, 0);
    assert_eq!(worker.turned_away, 0);
    let mut config = ServerConfig::new("s1", "h1");
    config.pipelining = 0;
    assert_eq!(Worker::new(0, 1, &config).depth, 1);
}

#[test]
fn what_to_do_with_a_batch() {
    let worker = worker();
    assert_eq!(worker.on_batch(&vec![], true), BatchStep::Exit);
    assert_eq!(worker.on_batch(&vec![], false), BatchStep::Exit);
    assert_eq!(worker.on_batch(&vec![item(1)], false), BatchStep::Connect);
    assert_eq!(worker.on_batch(&vec![item(1)], true), BatchStep::Fetch);
}

#[test]
fn failed_connection_returns_the_batch() {
    let mut worker = worker();
    let (msg, step) =
        worker.on_connect_failed(vec![item(1), item(2)], &FetchError::Connection("refused".into()));
    match msg {
        SchedulerMsg::ReturnUnattempted { items, server, error } => {
            assert_eq!(items.iter().map(|i| i.tag).collect::<Vec<u64>>(), vec![1, 2]);
            assert_eq!(server, 2);
            assert_eq!(error, "Connection error: refused");
        }
        _ => panic!("expected the batch back"),
    }
    assert_eq!(step, ConnectStep::BackOff(500));
    assert_eq!(worker.connect_failures, 1);
}

#[test]
fn turned_away_worker_retires_at_the_third_attempt() {
    let mut worker = worker();
    let mut steps = vec![];
    for err in [
        FetchError::Auth("481".into()),
        FetchError::AuthRequired("480".into()),
        FetchError::ServiceUnavailable("502".into()),
    ] {
        steps.push(worker.on_connect_failed(vec![], &err).1);
    }
    assert_eq!(
        steps,
        vec![ConnectStep::BackOff(500), ConnectStep::BackOff(1000), ConnectStep::Retire]
    );
}

#[test]
fn other_errors_back_off_up_to_three_seconds() {
    let mut worker = worker();
    let mut waits = vec![];
    for _ in 0..8 {
        match worker.on_connect_failed(vec![], &FetchError::Timeout("t".into())).1 {
            ConnectStep::BackOff(millis) => waits.push(millis),
            ConnectStep::Retire => panic!("a timeout is no reason to retire"),
        }
    }
    assert_eq!(waits, vec![500, 1000, 1500, 2000, 2500, 3000, 3000, 3000]);
}

#[test]
fn one_terminal_error_after_others_is_no_reason_to_retire() {
    let mut worker = worker();
    let mut steps = vec![];
    for err in [
        FetchError::Connection("refused".into()),
        FetchError::Connection("refused".into()),
        FetchError::Auth("481".into()),
        FetchError::Auth("481".into()),
        FetchError::Timeout("t".into()),
        FetchError::Auth("481".into()),
        FetchError::ServiceUnavailable("502".into()),
        FetchError::AuthRequired("480".into()),
    ] {
        steps.push(worker.on_connect_failed(vec![], &err).1);
    }
    assert_eq!(
        steps,
        vec![
            ConnectStep::BackOff(500),
            ConnectStep::BackOff(1000),
            ConnectStep::BackOff(1500),
            ConnectStep::BackOff(2000),
            ConnectStep::BackOff(2500),
            ConnectStep::BackOff(3000),
            ConnectStep::BackOff(3000),
            ConnectStep::Retire,
        ]
    );
    assert_eq!(worker.turned_away, 3);
    assert_eq!(worker.connect_failures, 8);
}

#[test]
fn worker_tops_its_pipeline_up() {
    let mut queue = ServerQueue::new();
    queue.push_many(vec![item(1), item(2), item(3), item(4), item(5)]);
    let worker = worker();
    assert_eq!(worker.room(0), 4);
    assert_eq!(worker.room(3), 1);
    assert_eq!(worker.room(4), 0);
    assert_eq!(worker.room(9), 0);
    let tags = |items: Vec<WorkItem>| items.iter().map(|i| i.tag).collect::<Vec<u64>>();
    assert_eq!(tags(worker.top_up(2, &mut queue)), vec![1, 2]);
    assert_eq!(queue.depth(), 2);
    assert!(worker.top_up(4, &mut queue).is_empty());
    assert_eq!(tags(worker.top_up(0, &mut queue)), vec![3, 4, 5]);
    assert!(worker.top_up(0, &mut queue).is_empty());
    assert_eq!(queue.depth(), 5);
    assert_eq!(queue.load(), 5);
}

#[test]
fn queue_without_workers_is_stranded() {
    let mut queue = ServerQueue::new();
    queue.push_many(vec![item(1)]);
    assert!(matches!(
        strand(3, &mut queue),
        Some(SchedulerMsg::ReturnUnattempted { items, server: 3, error })
            if items.len() == 1 && error == "all wrapper workers retired"
    ));
    assert!(strand(3, &mut queue).is_none());
    assert!(matches!(queue.pop_batch(1), Popped::Closed));
}

#[test]
fn every_item_is_reported_once_over_a_worker_s_life() {
    let mut queue = ServerQueue::new();
    queue.push_many((0..9).map(item).collect());
    let mut worker = worker();
    let mut reported: Vec<u64> = vec![];
    // The first batch finds no connection.
    let Popped::Batch(batch) = queue.pop_batch(worker.depth as usize) else {
        panic!("items are waiting");
    };
    queue.note_completed(batch.len());
    match worker.on_connect_failed(batch, &FetchError::Connection("c".into())).0 {
        SchedulerMsg::ReturnUnattempted { items, .. } => {
            reported.extend(items.iter().map(|i| i.tag));
        }
        _ => panic!("expected the batch back"),
    }
    // The second is fetched, and topped up as answers come.
    let Popped::Batch(mut held) = queue.pop_batch(worker.depth as usize) else {
        panic!("items are waiting");
    };
    worker.on_connected();
    while !held.is_empty() {
        held.extend(worker.top_up(held.len(), &mut queue));
        assert!(held.len() <= worker.depth as usize);
        for msg in worker.on_fetched(vec![(held.remove(0), Ok(vec![]))]) {
            if let SchedulerMsg::FetchResult { item, .. } = msg {
                reported.push(item.tag);
            }
        }
        queue.note_completed(1);
    }
    assert_eq!(reported, (0..9).collect::<Vec<u64>>());
    assert_eq!(queue.depth(), 0);
    assert!(worker.on_exit(0, &mut queue).is_none());
}

#[test]
fn a_connection_starts_the_count_over() {
    let mut worker = worker();
    let err = FetchError::Auth("a".into());
    worker.on_connect_failed(vec![], &err);
    worker.on_connect_failed(vec![], &err);
    worker.on_connected();
    assert_eq!(worker.connect_failures, 0);
    assert_eq!(worker.on_connect_failed(vec![], &err).1, ConnectStep::BackOff(500));
}

#[test]
fn fetched_items_are_reported_one_by_one() {
    let worker = worker();
    let messages = worker.on_fetched(vec![
        (item(1), Ok(vec![1, 2, 3])),
        (item(2), Err(FetchError::ArticleNotFound("m".into()))),
    ]);
    assert_eq!(messages.len(), 2);
    assert!(matches!(
        &messages[0],
        SchedulerMsg::FetchResult { item, server: 2, result: Ok(bytes) }
            if item.tag == 1 && *bytes == vec![1, 2, 3]
    ));
    assert!(matches!(
        &messages[1],
        SchedulerMsg::FetchResult { item, server: 2, result: Err(FetchError::ArticleNotFound(_)) }
            if item.tag == 2
    ));
}

#[test]
fn last_worker_drains_and_closes_the_queue() {
    let mut queue = ServerQueue::new();
    queue.push_many(vec![item(1), item(2)]);
    let worker = worker();
    assert!(worker.on_exit(1, &mut queue).is_none());
    assert_eq!(queue.load(), 2);
    match worker.on_exit(0, &mut queue) {
        Some(SchedulerMsg::ReturnUnattempted { items, server, error }) => {
            assert_eq!(items.iter().map(|i| i.tag).collect::<Vec<u64>>(), vec![1, 2]);
            assert_eq!(server, 2);
            assert_eq!(error, "all wrapper workers retired");
        }
        _ => panic!("expected the stranded items"),
    }
    assert!(matches!(queue.pop_batch(1), Popped::Closed));
}

#[test]
fn last_worker_of_an_empty_queue_reports_nothing() {
    let mut queue = ServerQueue::new();
    assert!(worker().on_exit(0, &mut queue).is_none());
    assert!(matches!(queue.pop_batch(1), Popped::Closed));
}
