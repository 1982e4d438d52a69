use nzb_news::article::{Article, WorkItem};
use nzb_news::error::FetchError;
use nzb_news::fetch::{BatchOutcome, PipelineReply};
use nzb_news::window::{cut_short, Window};

fn work(tags: &[u64]) -> Vec<WorkItem> {
    tags.iter()
        .map(|tag| WorkItem { tag: *tag, article: Article::new("m", "f", "j"), file: 0, job: 0 })
        .collect()
}

fn arrived(tag: u64, byte: u8) -> PipelineReply {
    PipelineReply { tag, result: Ok(Some(vec![byte])) }
}

#[test]
fn answers_settle_their_items_in_any_order() {
    let (mut window, pipeline) = Window::open(work(&[10, 11, 12]), 4);
    assert_eq!(window.len(), 3);
    assert_eq!(pipeline.pending_count(), 3);
    let settled = window.settle(arrived(2, 7));
    assert!(matches!(settled, Some((item, Ok(bytes))) if item.tag == 12 && bytes == vec![7]));
    let settled = window.settle(arrived(0, 8));
    assert!(matches!(settled, Some((item, Ok(bytes))) if item.tag == 10 && bytes == vec![8]));
    // It is settled now.
    assert!(window.settle(arrived(0, 9)).is_none());
    assert!(window.settle(arrived(99, 9)).is_none());
    assert_eq!(window.len(), 1);
}

#[test]
fn more_items_join_before_the_batch_is_done() {
    let (mut window, mut pipeline) = Window::open(work(&[10, 11]), 2);
    window.settle(arrived(0, 1));
    assert_eq!(window.taken(), 2);
    assert_eq!(window.places_left(), u32::MAX as u64 - 2);
    window.extend(work(&[12]), &mut pipeline);
    assert_eq!(window.len(), 2);
    assert_eq!(window.taken(), 3);
    assert_eq!(window.places_left(), u32::MAX as u64 - 3);
    assert_eq!(pipeline.pending_count(), 3);
    let missing = FetchError::ArticleNotFound("m".into());
    let settled = window.settle(PipelineReply { tag: 2, result: Err(missing) });
    assert!(matches!(
        settled,
        Some((item, Err(FetchError::ArticleNotFound(_)))) if item.tag == 12
    ));
    let settled = window.settle(PipelineReply { tag: 1, result: Ok(None) });
    assert!(matches!(settled, Some((item, Ok(bytes))) if item.tag == 11 && bytes.is_empty()));
    assert_eq!(window.len(), 0);
}

#[test]
fn closing_gives_back_what_is_unanswered() {
    let (mut window, mut pipeline) = Window::open(work(&[10, 11, 12]), 3);
    window.settle(arrived(1, 1));
    window.extend(work(&[13]), &mut pipeline);
    let rest: Vec<u64> = window.close().iter().map(|item| item.tag).collect();
    assert_eq!(rest, vec![10, 12, 13]);
}

#[test]
fn a_fatal_answer_cuts_the_fetching_short() {
    let failed = |err| PipelineReply { tag: 0, result: Err(err) };
    assert!(cut_short(&arrived(0, 1)).is_none());
    assert!(cut_short(&failed(FetchError::ArticleNotFound("m".into()))).is_none());
    assert!(matches!(
        cut_short(&failed(FetchError::ServiceUnavailable("502".into()))),
        Some(BatchOutcome::Aborted(FetchError::Connection(m)))
            if m == "Pipeline aborted due to fatal error"
    ));
}
