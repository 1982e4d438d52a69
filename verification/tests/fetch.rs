use nzb_news::article::{Article, WorkItem};
use nzb_news::error::FetchError;
use nzb_news::fetch::{
    batch_timeout, build_pipeline, collect_batch, fetched_sizes, reply_timeout, BatchOutcome,
    PipelineReply,
};
use nzb_news::span::Span;

fn item(tag: u64) -> WorkItem {
    WorkItem { tag, article: Article::new("m", "f", "j"), file: 0, job: 0 }
}

fn reply(tag: u64, result: Result<Option<Vec<u8>>, FetchError>) -> PipelineReply {
    PipelineReply { tag, result }
}

#[test]
fn pipeline_asks_for_every_item() {
    let pipeline = build_pipeline(&vec![item(1), item(2), item(3)], 2);
    assert_eq!(pipeline.pending_count(), 3);
    assert_eq!(pipeline.in_flight_count(), 0);
    assert!(build_pipeline(&vec![], 0).is_empty());
}

#[test]
fn timeout_grows_with_the_batch() {
    assert_eq!(batch_timeout(Span::from_secs(60), 10), Span::from_secs(600));
    assert_eq!(batch_timeout(Span::from_secs(60), 1), Span::from_secs(60));
    assert_eq!(batch_timeout(Span::from_secs(60), 0), Span::from_secs(0));
    assert_eq!(batch_timeout(Span::from_secs(u64::MAX), 2), Span::from_secs(u64::MAX));
}

#[test]
fn one_answer_may_take_as_long_as_one_article() {
    let per_article = Span::from_secs(60);
    assert_eq!(reply_timeout(per_article, Span::from_secs(0), 10), per_article);
    assert_eq!(reply_timeout(per_article, Span::from_secs(540), 10), per_article);
    // And no longer than what is left for the batch.
    assert_eq!(reply_timeout(per_article, Span::from_secs(570), 10), Span::from_secs(30));
    assert_eq!(reply_timeout(per_article, Span::from_secs(600), 10), Span::from_secs(0));
    assert_eq!(reply_timeout(per_article, Span::from_secs(700), 10), Span::from_secs(0));
    assert_eq!(reply_timeout(per_article, Span::from_secs(10), 1), Span::from_secs(50));
}

#[test]
fn replies_are_mapped_back_by_tag() {
    let outcome = BatchOutcome::Replies(vec![
        reply(2, Ok(Some(vec![7]))),
        reply(0, Ok(None)),
        reply(1, Err(FetchError::ArticleNotFound("m".into()))),
    ]);
    let results = collect_batch(vec![item(10), item(11), item(12)], outcome, Span::from_secs(1));
    let tags: Vec<u64> = results.iter().map(|r| r.0.tag).collect();
    assert_eq!(tags, vec![10, 11, 12]);
    assert!(matches!(&results[0].1, Ok(bytes) if bytes.is_empty()));
    assert!(matches!(&results[1].1, Err(FetchError::ArticleNotFound(m)) if m == "m"));
    assert!(matches!(&results[2].1, Ok(bytes) if *bytes == vec![7]));
}

#[test]
fn missing_reply_is_a_protocol_error() {
    let outcome = BatchOutcome::Replies(vec![reply(1, Ok(Some(vec![1]))), reply(9, Ok(None))]);
    let results = collect_batch(vec![item(10), item(11)], outcome, Span::from_secs(1));
    assert!(matches!(
        &results[0].1,
        Err(FetchError::Protocol(m)) if m == "pipeline dropped response for tag"
    ));
    assert!(matches!(&results[1].1, Ok(bytes) if *bytes == vec![1]));
}

#[test]
fn last_reply_of_a_tag_counts() {
    let outcome = BatchOutcome::Replies(vec![
        reply(0, Ok(Some(vec![1]))),
        reply(0, Err(FetchError::Shutdown)),
    ]);
    let results = collect_batch(vec![item(10)], outcome, Span::from_secs(1));
    assert!(matches!(&results[0].1, Err(FetchError::Shutdown)));
}

#[test]
fn aborted_batch_fails_every_item_alike() {
    let outcome = BatchOutcome::Aborted(FetchError::Connection("reset".into()));
    let results = collect_batch(vec![item(10), item(11)], outcome, Span::from_secs(1));
    assert_eq!(results.len(), 2);
    for (_, result) in &results {
        assert!(matches!(result, Err(FetchError::Connection(m)) if m == "reset"));
    }
}

#[test]
fn timed_out_batch_says_how_long_it_took() {
    let results =
        collect_batch(vec![item(10), item(11)], BatchOutcome::TimedOut, Span::new(120, 999_999_999));
    assert_eq!(results.len(), 2);
    for (_, result) in &results {
        assert!(matches!(
            result,
            Err(FetchError::Timeout(m)) if m == "batch timed out after 120s"
        ));
    }
}

#[test]
fn sizes_are_those_of_the_successes() {
    let replies = vec![
        reply(0, Ok(Some(vec![1, 2, 3]))),
        reply(1, Err(FetchError::Shutdown)),
        reply(2, Ok(None)),
        reply(3, Ok(Some(vec![4]))),
    ];
    assert_eq!(fetched_sizes(&replies), vec![3, 0, 1]);
}
