use nzb_news::article::{Article, NzbFile, NzbObject, WorkItem};
use nzb_news::config::ServerConfig;
use nzb_news::dispatch::ServerStatus;
use nzb_news::error::FetchError;
use nzb_news::fetch::{collect_batch, BatchOutcome, PipelineReply};
use nzb_news::outcome::{FetchOutcome, SchedulerMsg};
use nzb_news::plan::DownloaderPlan;
use nzb_news::queue::{Popped, ServerQueue};
use nzb_news::scheduler::{bump_retry, LoopEvent, Scheduler};
use nzb_news::span::Span;
use nzb_news::worker::{BatchStep, ConnectStep, Worker};
use nzb_news::DownloaderConfig;

fn server(id: &str, priority: u8, connections: u16) -> ServerConfig {
    let mut config = ServerConfig::new(id, "h");
    config.priority = priority;
    config.connections = connections;
    config
}

fn scheduler(servers: Vec<ServerConfig>, max_cascades: u32) -> Scheduler {
    let plan = DownloaderPlan::new(DownloaderConfig::from_servers(servers));
    Scheduler::new(plan.servers, plan.queue_caps, max_cascades)
}

/// Enter a file and a job of so many articles, and submit the articles, tagged
/// with their positions.
fn submit(scheduler: &mut Scheduler, message_ids: &[&str]) -> usize {
    let articles = message_ids.len() as u64;
    let file = scheduler.ledger.add_file(NzbFile::new("f1", articles));
    let job = scheduler.ledger.add_job(NzbObject::new("j1", articles));
    let work = message_ids
        .iter()
        .enumerate()
        .map(|(tag, id)| WorkItem {
            tag: tag as u64,
            article: Article::new(id, "f1", "j1"),
            file,
            job,
        })
        .collect();
    assert!(scheduler.handle_event(LoopEvent::Work(work)));
    job
}

fn tags(items: &[WorkItem]) -> Vec<u64> {
    items.iter().map(|item| item.tag).collect()
}

fn pending(scheduler: &Scheduler) -> Vec<u64> {
    tags(&scheduler.pending)
}

fn failed_text(outcome: &FetchOutcome) -> (u64, String) {
    match outcome {
        FetchOutcome::Failed { tag, last_error: Some(text) } => (*tag, text.clone()),
        other => panic!("expected a failure, got {other:?}"),
    }
}

fn now() -> Span {
    Span::from_secs(0)
}

/// Runs the scheduler with its queues and one worker per server, on a clock
/// that stands still. What a server answers is given by `fetch`; a server on
/// `refusing` turns every connection away.
struct Driver {
    scheduler: Scheduler,
    queues: Vec<ServerQueue>,
    workers: Vec<Option<Worker>>,
    refusing: Vec<bool>,
    outcomes: Vec<FetchOutcome>,
}

impl Driver {
    fn new(scheduler: Scheduler) -> Driver {
        let n = scheduler.servers.len();
        Driver {
            queues: (0..n).map(|_| ServerQueue::new()).collect(),
            workers: (0..n).map(|i| Some(Worker::new(i, 1, &scheduler.servers[i]))).collect(),
            refusing: vec![false; n],
            outcomes: vec![],
            scheduler,
        }
    }

    fn status(&self) -> Vec<ServerStatus> {
        self.workers
            .iter()
            .map(|w| if w.is_some() { ServerStatus::Ready } else { ServerStatus::Offline })
            .collect()
    }

    fn loads(&self) -> Vec<usize> {
        self.queues.iter().map(|q| q.load()).collect()
    }

    fn dispatch(&mut self) {
        let status = self.status();
        let depths = self.queues.iter().map(|q| q.depth()).collect();
        let waiting = self.queues.iter().map(|q| q.backlog()).collect();
        let out = self.scheduler.dispatch_pending(&status, &depths, &waiting, now());
        for (queue, batch) in self.queues.iter_mut().zip(out.batches) {
            queue.push_many(batch);
        }
        self.outcomes.extend(out.failed);
    }

    fn tell(&mut self, msg: SchedulerMsg) {
        let (status, loads) = (self.status(), self.loads());
        self.outcomes.extend(self.scheduler.handle_scheduler_msg(msg, &status, &loads));
    }

    /// Let the server's worker do what it can with one batch.
    fn work(&mut self, s: usize, fetch: &dyn Fn(&str, &str) -> Result<Vec<u8>, FetchError>) {
        let Some(mut worker) = self.workers[s].take() else { return };
        let batch = match self.queues[s].pop_batch(worker.depth as usize) {
            Popped::Batch(batch) => batch,
            _ => {
                self.workers[s] = Some(worker);
                return;
            }
        };
        let size = batch.len();
        if worker.on_batch(&batch, !self.refusing[s]) == BatchStep::Connect {
            self.queues[s].note_completed(size);
            let err = FetchError::ServiceUnavailable("502".into());
            let (msg, step) = worker.on_connect_failed(batch, &err);
            if step == ConnectStep::Retire {
                let stranded = worker.on_exit(0, &mut self.queues[s]);
                self.tell(msg);
                if let Some(stranded) = stranded {
                    self.tell(stranded);
                }
                return;
            }
            self.workers[s] = Some(worker);
            self.tell(msg);
            return;
        }
        let id = self.scheduler.servers[s].id.clone();
        let replies = batch
            .iter()
            .enumerate()
            .map(|(tag, item)| PipelineReply {
                tag: tag as u64,
                result: fetch(&id, &item.article.message_id).map(Some),
            })
            .collect();
        let fetched = collect_batch(batch, BatchOutcome::Replies(replies), Span::from_secs(10));
        let messages = worker.on_fetched(fetched);
        self.workers[s] = Some(worker);
        for msg in messages {
            self.tell(msg);
        }
        self.queues[s].note_completed(size);
    }

    fn run(&mut self, expected: usize, fetch: &dyn Fn(&str, &str) -> Result<Vec<u8>, FetchError>) {
        for _ in 0..1000 {
            self.dispatch();
            for s in 0..self.queues.len() {
                self.work(s, fetch);
            }
            if self.outcomes.len() >= expected {
                break;
            }
        }
        assert_eq!(self.outcomes.len(), expected);
        assert!(self.scheduler.pending.is_empty());
    }
}

fn missing(message_id: &str) -> Result<Vec<u8>, FetchError> {
    Err(FetchError::ArticleNotFound(message_id.to_string()))
}

#[test]
fn article_arrives_from_a_single_server() {
    let mut s = scheduler(vec![server("s1", 1, 2)], 0);
    let job = submit(&mut s, &["msg1"]);
    let mut driver = Driver::new(s);
    driver.run(1, &|_, _| Ok(b"hello".to_vec()));
    match &driver.outcomes[0] {
        FetchOutcome::Success { tag, server_id, bytes, article_bytes } => {
            assert_eq!(*tag, 0);
            assert_eq!(server_id, "s1");
            assert_eq!(bytes, b"hello");
            assert_eq!(*article_bytes, 5);
        }
        other => panic!("expected success, got {other:?}"),
    }
    assert_eq!(driver.scheduler.ledger.jobs[job].articles_downloaded(), 1);
    assert_eq!(driver.scheduler.ledger.jobs[job].bytes, 5);
    assert_eq!(driver.scheduler.ledger.jobs[job].articles_failed(), 0);
    assert_eq!(driver.scheduler.ledger.files[0].completed, 1);
}

#[test]
fn backup_takes_over_when_the_primary_does_not_have_it() {
    let mut s = scheduler(vec![server("backup", 5, 2), server("primary", 1, 2)], 0);
    submit(&mut s, &["msg2"]);
    let mut driver = Driver::new(s);
    driver.run(1, &|id, m| if id == "primary" { missing(m) } else { Ok(b"xyz".to_vec()) });
    assert!(matches!(
        &driver.outcomes[0],
        FetchOutcome::Success { server_id, .. } if server_id == "backup"
    ));
}

#[test]
fn ten_articles_all_arrive() {
    let ids: Vec<String> = (0..10).map(|i| format!("msg{i}")).collect();
    let ids: Vec<&str> = ids.iter().map(|id| id.as_str()).collect();
    let mut s = scheduler(vec![server("s1", 1, 5)], 0);
    let job = submit(&mut s, &ids);
    let mut driver = Driver::new(s);
    driver.run(10, &|_, _| Ok(vec![b'X'; 256]));
    assert_eq!(driver.scheduler.ledger.jobs[job].articles_downloaded(), 10);
    assert_eq!(driver.scheduler.ledger.jobs[job].bytes, 2560);
    assert_eq!(driver.scheduler.ledger.jobs[job].articles_failed(), 0);
    let mut seen: Vec<u64> = driver
        .outcomes
        .iter()
        .map(|o| match o {
            FetchOutcome::Success { tag, .. } => *tag,
            other => panic!("expected success, got {other:?}"),
        })
        .collect();
    seen.sort();
    assert_eq!(seen, (0..10).collect::<Vec<u64>>());
}

#[test]
fn given_up_once_no_server_has_it() {
    let mut s = scheduler(vec![server("s1", 1, 2), server("s2", 5, 2)], 3);
    let job = submit(&mut s, &["missing"]);
    let mut driver = Driver::new(s);
    driver.run(1, &|_, m| missing(m));
    assert_eq!(failed_text(&driver.outcomes[0]), (0, "Article not found: missing".to_string()));
    assert_eq!(driver.scheduler.ledger.jobs[job].articles_failed(), 1);
    assert_eq!(driver.scheduler.ledger.jobs[job].articles_downloaded(), 0);
}

#[test]
fn transient_failures_are_retried_within_the_budget() {
    let mut s = scheduler(vec![server("s1", 1, 2), server("s2", 5, 2)], 2);
    submit(&mut s, &["m"]);
    let mut driver = Driver::new(s);
    let attempts = std::cell::RefCell::new(vec![]);
    driver.run(1, &|id, _| {
        attempts.borrow_mut().push(id.to_string());
        Err(FetchError::Timeout("t".into()))
    });
    assert_eq!(attempts.into_inner(), vec!["s1", "s2", "s1", "s2", "s1", "s2"]);
    assert_eq!(failed_text(&driver.outcomes[0]), (0, "Timeout: t".to_string()));
}

#[test]
fn equal_servers_share_in_proportion_to_their_connections() {
    let ids: Vec<String> = (0..24).map(|i| format!("msg{i}")).collect();
    let ids: Vec<&str> = ids.iter().map(|id| id.as_str()).collect();
    let mut s = scheduler(vec![server("s1", 0, 4), server("s2", 0, 10), server("s3", 0, 10)], 0);
    submit(&mut s, &ids);
    let mut driver = Driver::new(s);
    driver.dispatch();
    assert_eq!(driver.loads(), vec![4, 10, 10]);
    driver.run(24, &|_, _| Ok(vec![b'A'; 32]));
}

#[test]
fn equal_servers_share_articles_that_come_one_by_one() {
    let mut s = scheduler(vec![server("s1", 0, 4), server("s2", 0, 10), server("s3", 0, 10)], 0);
    let file = s.ledger.add_file(NzbFile::new("f1", 24));
    let job = s.ledger.add_job(NzbObject::new("j1", 24));
    let mut driver = Driver::new(s);
    for tag in 0..24 {
        let item = WorkItem { tag, article: Article::new("m", "f1", "j1"), file, job };
        driver.scheduler.handle_event(LoopEvent::Work(vec![item]));
        driver.dispatch();
    }
    assert_eq!(driver.loads(), vec![4, 10, 10]);
}

#[test]
fn healthy_backup_delivers_when_the_primary_turns_everyone_away() {
    let primary = server("broken-primary", 1, 2);
    let backup = server("healthy-backup", 5, 2);
    let mut s = scheduler(vec![primary, backup], 0);
    submit(&mut s, &["msg-sup-1", "msg-sup-2", "msg-sup-3", "msg-sup-4"]);
    let mut driver = Driver::new(s);
    driver.refusing[0] = true;
    driver.run(4, &|_, _| Ok(b"payload".to_vec()));
    for outcome in &driver.outcomes {
        assert!(matches!(
            outcome,
            FetchOutcome::Success { server_id, .. } if server_id == "healthy-backup"
        ));
    }
    // The primary's worker has retired, and its queue takes nobody in.
    assert!(driver.workers[0].is_none());
    assert!(matches!(driver.queues[0].pop_batch(1), Popped::Closed));
}

#[test]
fn full_queue_leaves_items_pending_and_sets_the_timer() {
    let mut s = scheduler(vec![server("s1", 0, 1)], 0);
    submit(&mut s, &["m0", "m1", "m2", "m3", "m4", "m5", "m6", "m7", "m8", "m9"]);
    let ready = vec![ServerStatus::Ready];
    let at = Span::from_secs(100);
    // The cap is eight, and the server's workers hold three.
    let out = s.dispatch_pending(&ready, &vec![3], &vec![0], at);
    assert_eq!(out.batches.len(), 1);
    // The last pending item takes the place of each one that leaves.
    assert_eq!(tags(&out.batches[0]), vec![0, 9, 8, 7, 6]);
    assert_eq!(pending(&s), vec![5, 1, 2, 3, 4]);
    assert!(out.failed.is_empty());
    assert_eq!(s.next_retry, Some(100_025_000_000));
    assert!(out.batches[0].iter().all(|item| item.article.fetcher_priority == Some(0)));
    assert_eq!(s.retry_delay(at), Some(25_000_000));
    assert_eq!(s.retry_delay(Span::from_millis(100_024)), Some(1_000_000));
    assert_eq!(s.retry_delay(Span::from_secs(200)), Some(1_000_000));
    assert!(s.handle_event(LoopEvent::RetryElapsed));
    assert_eq!(s.next_retry, None);
    assert_eq!(s.retry_delay(at), None);
}

#[test]
fn queue_at_its_cap_gets_nothing_more() {
    let mut s = scheduler(vec![server("s1", 0, 1)], 0);
    submit(&mut s, &["m0", "m1"]);
    let ready = vec![ServerStatus::Ready];
    // Whether eight wait or the workers hold eight.
    for (depth, waiting) in [(0, 8), (8, 0), (3, 9)] {
        let out = s.dispatch_pending(&ready, &vec![depth], &vec![waiting], Span::from_secs(1));
        assert!(out.batches[0].is_empty());
        assert_eq!(pending(&s), vec![0, 1]);
        assert_eq!(s.next_retry, Some(1_025_000_000));
    }
}

#[test]
fn held_and_waiting_items_are_capped_apart() {
    let mut s = scheduler(vec![server("s1", 0, 1)], 0);
    submit(&mut s, &["m0"]);
    let out =
        s.dispatch_pending(&vec![ServerStatus::Ready], &vec![4], &vec![4], Span::from_secs(1));
    assert_eq!(tags(&out.batches[0]), vec![0]);
    assert!(s.pending.is_empty());
}

#[test]
fn queue_does_not_outgrow_its_cap_over_many_passes() {
    let ids: Vec<String> = (0..40).map(|i| format!("msg{i}")).collect();
    let ids: Vec<&str> = ids.iter().map(|id| id.as_str()).collect();
    let mut s = scheduler(vec![server("s1", 0, 1)], 0);
    submit(&mut s, &ids);
    let mut driver = Driver::new(s);
    for _ in 0..5 {
        driver.dispatch();
        assert_eq!(driver.loads(), vec![8]);
    }
    assert_eq!(driver.scheduler.pending.len(), 32);
    // What a worker takes off the queue makes room in it.
    let batch = driver.queues[0].pop_batch(3);
    assert!(matches!(batch, Popped::Batch(items) if items.len() == 3));
    driver.dispatch();
    assert_eq!(driver.queues[0].backlog(), 8);
    assert_eq!(driver.queues[0].depth(), 3);
    assert_eq!(driver.scheduler.pending.len(), 29);
    driver.dispatch();
    assert_eq!(driver.queues[0].backlog(), 8);
}

#[test]
fn ramping_server_leaves_items_pending_until_it_is_ready() {
    let mut s = scheduler(vec![server("s1", 0, 1)], 0);
    submit(&mut s, &["m0"]);
    let status = vec![ServerStatus::RampUp(Span::from_millis(7))];
    let out = s.dispatch_pending(&status, &vec![0], &vec![0], Span::from_secs(1));
    assert!(out.batches[0].is_empty());
    assert_eq!(pending(&s), vec![0]);
    assert_eq!(s.next_retry, Some(1_007_000_000));
}

#[test]
fn timer_is_never_moved_back() {
    let mut slot = None;
    bump_retry(&mut slot, Span::from_secs(1), Span::from_millis(25));
    assert_eq!(slot, Some(1_025_000_000));
    bump_retry(&mut slot, Span::from_secs(1), Span::from_millis(30));
    assert_eq!(slot, Some(1_025_000_000));
    bump_retry(&mut slot, Span::from_secs(1), Span::from_millis(10));
    assert_eq!(slot, Some(1_010_000_000));
}

#[test]
fn items_without_a_server_are_failed_at_dispatch() {
    let mut s = scheduler(vec![], 5);
    let job = submit(&mut s, &["m0", "m1"]);
    let out = s.dispatch_pending(&vec![], &vec![], &vec![], now());
    assert!(out.batches.is_empty());
    let failed: Vec<(u64, String)> = out.failed.iter().map(failed_text).collect();
    assert_eq!(
        failed,
        vec![
            (0, "all servers exhausted for m0".to_string()),
            (1, "all servers exhausted for m1".to_string()),
        ]
    );
    assert!(s.pending.is_empty());
    assert_eq!(s.next_retry, None);
    assert_eq!(s.ledger.jobs[job].articles_failed(), 2);
}

#[test]
fn cascade_starts_the_item_over_within_the_pass() {
    let mut s = scheduler(vec![server("s1", 3, 1)], 1);
    submit(&mut s, &["m0"]);
    let ready = vec![ServerStatus::Ready];
    let item = s.dispatch_pending(&ready, &vec![0], &vec![0], now()).batches.remove(0).remove(0);
    let msg = SchedulerMsg::ReturnUnattempted { items: vec![item], server: 0, error: "e".into() };
    assert!(s.handle_scheduler_msg(msg, &ready, &vec![0]).is_none());
    assert!(s.pending[0].article.server_tried("s1"));
    assert!(s.pending[0].article.transient_failure);
    let item = s.dispatch_pending(&ready, &vec![0], &vec![0], now()).batches.remove(0).remove(0);
    assert_eq!(item.article.cascades, 1);
    assert!(!item.article.server_tried("s1"));
    assert_eq!(item.article.fetcher_priority, Some(3));
}

#[test]
fn returned_items_are_given_up_at_dispatch_once_no_server_is_left() {
    let mut s = scheduler(vec![server("s1", 0, 1)], 0);
    let job = submit(&mut s, &["m0", "m1"]);
    let ready = vec![ServerStatus::Ready];
    let items = s.dispatch_pending(&ready, &vec![0], &vec![0], now()).batches.remove(0);
    let msg = SchedulerMsg::ReturnUnattempted { items, server: 0, error: "e".into() };
    assert!(s.handle_scheduler_msg(msg, &ready, &vec![0]).is_none());
    assert_eq!(pending(&s), vec![0, 1]);
    let out = s.dispatch_pending(&ready, &vec![0], &vec![0], now());
    assert!(out.batches[0].is_empty());
    assert_eq!(out.failed.len(), 2);
    assert_eq!(s.ledger.jobs[job].articles_failed(), 2);
}

#[test]
fn when_the_scheduler_goes_on() {
    let mut s = scheduler(vec![server("s1", 0, 1)], 0);
    assert!(!s.handle_event(LoopEvent::WorkClosed));
    assert!(!s.handle_event(LoopEvent::WorkersGone));
    assert!(!s.handle_event(LoopEvent::Shutdown));
    assert!(s.handle_event(LoopEvent::RetryElapsed));
    assert!(s.handle_event(LoopEvent::Work(vec![])));
    submit(&mut s, &["m0"]);
    assert!(s.handle_event(LoopEvent::WorkClosed));
    assert!(!s.handle_event(LoopEvent::WorkersGone));
    assert!(!s.handle_event(LoopEvent::Shutdown));
    assert_eq!(pending(&s), vec![0]);
}

#[test]
fn shutdown_cancels_what_is_pending() {
    let mut s = scheduler(vec![server("s1", 0, 1)], 0);
    let job = submit(&mut s, &["m0", "m1"]);
    let cancelled: Vec<u64> = s
        .cancel_pending()
        .iter()
        .map(|o| match o {
            FetchOutcome::Cancelled { tag } => *tag,
            other => panic!("expected a cancellation, got {other:?}"),
        })
        .collect();
    assert_eq!(cancelled, vec![0, 1]);
    assert!(s.pending.is_empty());
    assert_eq!(s.ledger.jobs[job].articles_failed(), 0);
    assert!(s.cancel_pending().is_empty());
}

#[test]
fn late_results_still_get_their_outcome() {
    let mut s = scheduler(vec![server("s1", 0, 1), server("s2", 1, 1)], 0);
    let job = submit(&mut s, &["m0", "m1", "m2", "m3"]);
    let ready = vec![ServerStatus::Ready, ServerStatus::Ready];
    let mut items =
        s.dispatch_pending(&ready, &vec![0, 0], &vec![0, 0], now()).batches.remove(0).into_iter();
    let mut next = || items.next().expect("four items were dispatched");
    let msg = SchedulerMsg::FetchResult { item: next(), server: 0, result: Ok(vec![1]) };
    let emitted = s.wind_down(msg, &ready, &vec![0, 0]);
    assert_eq!(emitted.len(), 1);
    assert!(matches!(&emitted[0], FetchOutcome::Success { tag: 0, .. }));
    // An item that would have gone to another server is cancelled.
    let result = Err(FetchError::ArticleNotFound("m".into()));
    let msg = SchedulerMsg::FetchResult { item: next(), server: 0, result };
    let emitted = s.wind_down(msg, &ready, &vec![0, 0]);
    assert_eq!(emitted.len(), 1);
    assert!(matches!(&emitted[0], FetchOutcome::Cancelled { tag: 3 }));
    // So are those that come back unattempted.
    let items = vec![next(), next()];
    let msg = SchedulerMsg::ReturnUnattempted { items, server: 0, error: "e".into() };
    let emitted = s.wind_down(msg, &ready, &vec![0, 0]);
    assert_eq!(emitted.len(), 2);
    assert!(emitted.iter().all(|o| matches!(o, FetchOutcome::Cancelled { .. })));
    assert!(s.pending.is_empty());
    assert_eq!(s.ledger.jobs[job].articles_downloaded(), 1);
    assert_eq!(s.ledger.jobs[job].articles_failed(), 0);
}

#[test]
fn late_failure_on_the_last_server_is_a_failure() {
    let mut s = scheduler(vec![server("s1", 0, 1)], 0);
    submit(&mut s, &["m0"]);
    let ready = vec![ServerStatus::Ready];
    let item = s.dispatch_pending(&ready, &vec![0], &vec![0], now()).batches.remove(0).remove(0);
    let result = Err(FetchError::Protocol("p".into()));
    let msg = SchedulerMsg::FetchResult { item, server: 0, result };
    let emitted = s.wind_down(msg, &ready, &vec![0]);
    assert_eq!(emitted.len(), 1);
    assert_eq!(failed_text(&emitted[0]), (0, "Protocol error: p".to_string()));
}

#[test]
fn attempts_stay_within_the_retry_limit() {
    let mut s = scheduler(vec![server("s1", 0, 1), server("s2", 0, 1), server("s3", 4, 1)], 3);
    submit(&mut s, &["m0", "m1"]);
    let mut driver = Driver::new(s);
    let attempts = std::cell::Cell::new(0);
    driver.run(2, &|_, m| {
        attempts.set(attempts.get() + 1);
        if m == "m0" {
            Err(FetchError::Connection("c".into()))
        } else {
            missing(m)
        }
    });
    // Two articles, three servers, at most four rounds.
    assert!(attempts.get() <= 24);
    assert!(attempts.get() >= 6);
}
