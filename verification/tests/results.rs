use scrape_rs::structs::{FetchLinkError, ScrapeJob};
use scrape_rs::FetchQueue;

fn page(text: &str) -> Result<String, FetchLinkError> {
    Ok(text.to_string())
}

fn queue_with_slots(slots: usize) -> FetchQueue {
    let mut queue = FetchQueue::new();
    for i in 0..slots {
        assert_eq!(queue.push(format!("http://a/{i}")), i);
    }
    queue
}

/// Ends a job with the slot `index`: whether it succeeded.
fn record(queue: &mut FetchQueue, index: usize, result: Result<String, FetchLinkError>) -> bool {
    let mut job = ScrapeJob::new_indexed(format!("http://a/{index}"), index);
    queue.finish(&mut job, Some(result))
}

fn texts(results: Vec<Result<String, FetchLinkError>>) -> Vec<String> {
    results.into_iter().map(|r| r.unwrap()).collect()
}

fn indexed(results: Vec<(usize, Result<String, FetchLinkError>)>) -> Vec<(usize, String)> {
    results.into_iter().map(|(i, r)| (i, r.unwrap())).collect()
}

fn pair(index: usize, text: &str) -> (usize, String) {
    (index, text.to_string())
}

#[test]
fn a_fresh_handle_is_finished() {
    let mut queue = FetchQueue::new();
    assert!(!queue.is_closed());
    let handle = queue.handle();
    assert!(handle.is_finished());
    assert_eq!(handle.completed(), 0);
    assert_eq!(handle.total(), 0);
    assert!(handle.ready_results().is_empty());
    assert!(!handle.must_wait());
    assert!(handle.wait_ready().is_empty());
    assert!(handle.try_results().unwrap().is_empty());
}

#[test]
fn results_arrive_in_completion_order() {
    let mut queue = queue_with_slots(3);
    assert!(queue.handle().must_wait());
    assert!(record(&mut queue, 2, page("c")));
    assert!(record(&mut queue, 0, page("a")));
    assert!(!queue.handle().must_wait());
    assert_eq!(queue.handle().completed(), 2);
    assert_eq!(queue.handle().total(), 3);
    let ready = queue.handle().ready_results();
    assert_eq!(indexed(ready), vec![pair(2, "c"), pair(0, "a")]);
    assert!(queue.handle().ready_results().is_empty());
    assert!(queue.handle().must_wait());
    assert!(record(&mut queue, 1, page("b")));
    assert_eq!(indexed(queue.handle().wait_ready()), vec![pair(1, "b")]);
    assert!(queue.handle().is_finished());
    assert!(queue.handle().wait_ready().is_empty());
}

#[test]
fn wait_returns_enqueue_order() {
    let mut queue = queue_with_slots(3);
    assert!(record(&mut queue, 1, page("b")));
    assert!(record(&mut queue, 2, page("c")));
    assert!(record(&mut queue, 0, page("a")));
    let handle = queue.handle();
    assert_eq!(texts(handle.wait()), vec!["a", "b", "c"]);
    assert!(handle.is_finished());
    assert_eq!(handle.completed(), 3);
    assert_eq!(handle.total(), 3);
    assert!(handle.wait().is_empty());
    assert!(handle.ready_results().is_empty());
}

#[test]
fn wait_skips_what_was_read_before() {
    let mut queue = queue_with_slots(4);
    assert!(record(&mut queue, 3, page("d")));
    assert!(record(&mut queue, 1, page("b")));
    let ready = queue.handle().ready_results();
    assert_eq!(indexed(ready), vec![pair(3, "d"), pair(1, "b")]);
    assert!(record(&mut queue, 2, page("c")));
    assert!(record(&mut queue, 0, page("a")));
    assert_eq!(texts(queue.handle().wait()), vec!["a", "c"]);
}

#[test]
fn try_results_waits_for_the_last_result() {
    let mut queue = queue_with_slots(2);
    assert!(queue.handle().try_results().is_none());
    assert!(record(&mut queue, 1, page("b")));
    assert!(queue.handle().try_results().is_none());
    assert_eq!(queue.handle().completed(), 1);
    assert!(!record(&mut queue, 0, Err(FetchLinkError::WorkerPanic)));
    let results = queue.handle().try_results().unwrap();
    assert_eq!(results.len(), 2);
    assert!(matches!(results[0], Err(FetchLinkError::WorkerPanic)));
    assert_eq!(results[1].as_ref().unwrap(), "b");
}

#[test]
fn a_result_without_a_slot_is_not_recorded() {
    let mut queue = queue_with_slots(1);
    assert!(!record(&mut queue, 1, page("x")));
    assert_eq!(queue.handle().completed(), 0);
    assert!(queue.handle().ready_results().is_empty());
}

#[test]
fn a_slot_filled_twice_is_read_once() {
    let mut queue = queue_with_slots(2);
    assert!(record(&mut queue, 0, page("old")));
    assert!(record(&mut queue, 1, page("b")));
    assert!(record(&mut queue, 0, page("new")));
    let ready = queue.handle().ready_results();
    assert_eq!(indexed(ready), vec![pair(0, "new"), pair(1, "b")]);
    assert_eq!(queue.handle().completed(), 3);
}

#[test]
fn slots_start_over_once_all_results_are_collected() {
    let mut queue = queue_with_slots(1);
    assert!(record(&mut queue, 0, page("a")));
    assert_eq!(texts(queue.handle().wait()), vec!["a"]);
    assert_eq!(queue.push("http://b".to_string()), 0);
    assert!(!queue.handle().is_finished());
    assert_eq!(queue.handle().total(), 2);
    assert!(record(&mut queue, 0, page("b")));
    assert_eq!(indexed(queue.handle().ready_results()), vec![pair(0, "b")]);
}

#[test]
fn every_result_comes_once_under_the_index_of_its_push() {
    let mut queue = FetchQueue::new();
    let mut pushed: Vec<(usize, String)> = Vec::new();
    let mut running: Vec<ScrapeJob> = Vec::new();
    for name in ["x", "y", "z"] {
        let url = format!("http://a/{name}");
        pushed.push((queue.push(url.clone()), url));
        running.push(queue.start_next().unwrap());
    }
    // The last job ends first; `x` and `z` give equal texts.
    let mut last = running.pop().unwrap();
    assert_eq!(last.url(), pushed[2].1);
    assert!(queue.finish(&mut last, Some(page("same"))));
    let mut handed = indexed(queue.handle().ready_results());
    assert_eq!(handed, vec![pair(pushed[2].0, "same")]);
    let mut middle = running.pop().unwrap();
    assert!(queue.finish(&mut middle, Some(page("other"))));
    let mut first = running.pop().unwrap();
    assert!(queue.finish(&mut first, Some(page("same"))));
    handed.extend(indexed(queue.handle().ready_results()));
    assert_eq!(
        handed,
        vec![pair(pushed[2].0, "same"), pair(pushed[1].0, "other"), pair(pushed[0].0, "same")]
    );
    assert!(queue.handle().ready_results().is_empty());
    // Once all is collected an index is used again, for another push.
    assert!(queue.handle().wait().is_empty());
    assert_eq!(queue.push("http://a/w".to_string()), pushed[0].0);
    let mut again = queue.start_next().unwrap();
    assert_eq!(again.url(), "http://a/w");
    assert!(queue.finish(&mut again, Some(page("new"))));
    assert_eq!(indexed(queue.handle().ready_results()), vec![pair(pushed[0].0, "new")]);
}
