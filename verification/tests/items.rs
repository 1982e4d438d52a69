use nzb_news::article::{item_line_text, Article, Ledger, NzbFile, NzbObject, WorkItem};
use nzb_news::failures::ServerFailures;
use nzb_news::text::decimal_text;
use nzb_news::trylist::TryList;

fn item(tag: u64, message_id: &str, file: usize, job: usize) -> WorkItem {
    WorkItem { tag, article: Article::new(message_id, "f1", "j1"), file, job }
}

#[test]
fn debug_text_quotes_the_ids() {
    let work = WorkItem {
        tag: 1042,
        article: Article::new("a\"b\\c\n", "f1", "é"),
        file: 3,
        job: 4,
    };
    assert_eq!(
        work.debug_text(),
        "WorkItem { tag: 1042, message_id: \"a\\\"b\\\\c\\n\", file_id: \"f1\", job_id: \"é\" }"
    );
}

#[test]
fn item_line_takes_ids_as_they_are_quoted() {
    assert_eq!(
        item_line_text(7, "<a>", "", "\"j\""),
        "WorkItem { tag: 7, message_id: <a>, file_id: , job_id: \"j\" }"
    );
}

#[test]
fn numbers_are_written_in_decimal() {
    assert_eq!(decimal_text(0), "0");
    assert_eq!(decimal_text(9), "9");
    assert_eq!(decimal_text(10), "10");
    assert_eq!(decimal_text(u64::MAX), "18446744073709551615");
}

#[test]
fn article_keeps_the_state_of_its_retries() {
    let mut article = Article::new("m1", "f1", "j1");
    assert_eq!(article.message_id, "m1");
    assert!(!article.server_tried("s1"));
    assert!(!article.transient_failure);
    assert_eq!(article.fetcher_priority, None);
    assert!(article.mark_server_tried("s1"));
    assert!(!article.mark_server_tried("s1"));
    assert!(article.server_tried("s1"));
    article.mark_transient_failure();
    article.set_fetcher_priority(5);
    let copy = article.clone();
    assert!(copy.server_tried("s1"));
    assert!(copy.transient_failure);
    assert_eq!(copy.fetcher_priority, Some(5));
    assert_eq!(copy.cascades, 0);
}

#[test]
fn cloned_item_is_independent() {
    let work = item(7, "m1", 0, 0);
    let mut copy = work.clone();
    copy.article.mark_server_tried("s1");
    assert_eq!(copy.tag, 7);
    assert!(!work.article.server_tried("s1"));
}

#[test]
fn file_is_exhausted_once_every_article_has_failed() {
    let mut ledger = Ledger::new();
    let file = ledger.add_file(NzbFile::new("f1", 2));
    let job = ledger.add_job(NzbObject::new("j1", 3));
    let mut first = item(1, "m1", file, job);
    let mut second = item(2, "m2", file, job);
    let third = item(3, "m3", file, job);

    ledger.record_failure(&mut first, "s1", false);
    assert!(ledger.server_tried(&first, "s1"));
    assert!(!ledger.server_tried(&second, "s1"));
    // The same article failing there again does not count twice.
    ledger.record_failure(&mut first, "s1", true);
    assert!(!ledger.files[file].server_tried("s1"));
    assert!(first.article.transient_failure);

    ledger.record_failure(&mut second, "s1", false);
    assert!(ledger.files[file].server_tried("s1"));
    assert!(!ledger.jobs[job].server_tried("s1"));
    assert!(ledger.server_tried(&third, "s1"));
    assert!(!ledger.server_tried(&third, "s2"));
}

#[test]
fn reset_clears_the_try_lists_at_all_three_levels() {
    let mut ledger = Ledger::new();
    let file = ledger.add_file(NzbFile::new("f1", 1));
    let job = ledger.add_job(NzbObject::new("j1", 1));
    let mut work = item(1, "m1", file, job);
    ledger.record_failure(&mut work, "s1", true);
    assert!(ledger.jobs[job].server_tried("s1"));

    ledger.cascade_reset(&mut work);
    assert!(!ledger.server_tried(&work, "s1"));
    assert!(!work.article.transient_failure);
    assert_eq!(work.article.cascades, 1);

    // The article counts again when it fails again.
    ledger.record_failure(&mut work, "s1", false);
    assert!(ledger.files[file].server_tried("s1"));
}

#[test]
fn failures_on_one_server_do_not_concern_another() {
    let mut failures = ServerFailures::new(2);
    failures.record("s1");
    failures.record("s2");
    assert!(!failures.exhausted("s1"));
    assert!(!failures.exhausted("s2"));
    failures.record("s1");
    assert!(failures.exhausted("s1"));
    assert!(!failures.exhausted("s2"));

    let mut tried = TryList::new();
    tried.add("s1");
    failures.forget(&tried);
    assert!(!failures.exhausted("s1"));
    failures.record("s2");
    assert!(failures.exhausted("s2"));
    failures.record("s1");
    assert!(failures.exhausted("s1"));
}

#[test]
fn job_counts_what_arrives_and_what_is_given_up() {
    let mut ledger = Ledger::new();
    let file = ledger.add_file(NzbFile::new("f1", 3));
    let job = ledger.add_job(NzbObject::new("j1", 3));
    let other = ledger.add_job(NzbObject::new("j2", 1));
    assert_eq!((file, job, other), (0, 0, 1));
    let work = item(1, "m1", file, job);
    ledger.record_article_downloaded(&work, 5);
    ledger.record_article_downloaded(&work, 7);
    ledger.record_article_given_up(&work);
    assert_eq!(ledger.jobs[job].articles_downloaded(), 2);
    assert_eq!(ledger.jobs[job].bytes, 12);
    assert_eq!(ledger.jobs[job].articles_failed(), 1);
    assert_eq!(ledger.files[file].completed, 2);
    assert_eq!(ledger.jobs[other].articles_downloaded(), 0);
    assert_eq!(ledger.jobs[other].articles_failed(), 0);
}
