use nzb_news::article::{Article, WorkItem};
use nzb_news::queue::{Popped, ServerQueue};

fn work(tags: &[u64]) -> Vec<WorkItem> {
    tags.iter()
        .map(|tag| WorkItem { tag: *tag, article: Article::new("m", "f", "j"), file: 0, job: 0 })
        .collect()
}

fn tags(items: &[WorkItem]) -> Vec<u64> {
    items.iter().map(|item| item.tag).collect()
}

fn batch(popped: Popped) -> Vec<u64> {
    match popped {
        Popped::Batch(items) => tags(&items),
        _ => panic!("expected a batch"),
    }
}

#[test]
fn pops_up_to_max_in_order() {
    let mut queue = ServerQueue::new();
    assert!(queue.push_many(work(&[1, 2, 3])));
    assert!(queue.push_many(work(&[4])));
    assert_eq!(queue.depth(), 0);
    assert_eq!(queue.load(), 4);
    assert_eq!(batch(queue.pop_batch(2)), vec![1, 2]);
    assert_eq!(queue.depth(), 2);
    assert_eq!(queue.load(), 4);
    assert_eq!(batch(queue.pop_batch(9)), vec![3, 4]);
    assert_eq!(queue.depth(), 4);
    queue.note_completed(2);
    assert_eq!(queue.depth(), 2);
    queue.note_completed(2);
    assert_eq!(queue.depth(), 0);
    assert_eq!(queue.load(), 0);
}

#[test]
fn empty_push_wakes_nobody() {
    let mut queue = ServerQueue::new();
    assert!(!queue.push_many(vec![]));
    assert!(matches!(queue.pop_batch(1), Popped::Wait));
}

#[test]
fn closed_queue_hands_out_what_is_left_first() {
    let mut queue = ServerQueue::new();
    queue.push_many(work(&[1]));
    queue.close();
    assert_eq!(batch(queue.pop_batch(5)), vec![1]);
    assert!(matches!(queue.pop_batch(5), Popped::Closed));
    assert!(matches!(queue.pop_batch(5), Popped::Closed));
}

#[test]
fn drain_takes_what_waits_and_leaves_what_is_held() {
    let mut queue = ServerQueue::new();
    queue.push_many(work(&[1, 2, 3]));
    assert_eq!(batch(queue.pop_batch(1)), vec![1]);
    assert_eq!(tags(&queue.drain_all()), vec![2, 3]);
    assert_eq!(queue.depth(), 1);
    assert!(queue.drain_all().is_empty());
    assert!(matches!(queue.pop_batch(1), Popped::Wait));
}

#[test]
fn pushed_work_comes_behind_what_waits() {
    let mut queue = ServerQueue::new();
    queue.push_many(work(&[1, 2]));
    queue.push_many(work(&[3, 4]));
    assert_eq!(batch(queue.pop_batch(2)), vec![1, 2]);
    assert_eq!(batch(queue.pop_batch(2)), vec![3, 4]);
}

#[test]
fn a_worker_that_asks_for_none_gets_one() {
    let mut queue = ServerQueue::new();
    assert!(matches!(queue.pop_batch(0), Popped::Wait));
    queue.push_many(work(&[1, 2]));
    assert_eq!(batch(queue.pop_batch(0)), vec![1]);
    assert_eq!(queue.depth(), 1);
}
