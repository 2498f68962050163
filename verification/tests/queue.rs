use scrape_rs::structs::{JobStatus, Queue, ScrapeJob};

#[test]
fn queue_push_next_shutdown() {
    let mut q = Queue::new();
    q.push(ScrapeJob::new("http://a".to_string()));
    q.push(ScrapeJob::new("http://b".to_string()));
    assert_eq!(q.next().unwrap().url(), "http://a");
    assert_eq!(q.next().unwrap().url(), "http://b");

    // shutdown with 2 workers: next() should return None for each
    q.shutdown(2);
    assert!(q.next().is_none());
    assert!(q.next().is_none());
}

#[test]
fn jobs_start_pending() {
    let job = ScrapeJob::new("http://a".to_string());
    assert_eq!(job.url(), "http://a");
    assert_eq!(*job.status(), JobStatus::Pending);
    assert_eq!(job.index(), None);

    let job = ScrapeJob::new_indexed("http://b".to_string(), 7);
    assert_eq!(job.url(), "http://b");
    assert_eq!(*job.status(), JobStatus::Pending);
    assert_eq!(job.index(), Some(7));
}

#[test]
fn set_status_changes_only_the_status() {
    let mut job = ScrapeJob::new_indexed("http://a".to_string(), 3);
    job.set_status(JobStatus::Waiting);
    assert_eq!(*job.status(), JobStatus::Waiting);
    assert_eq!(job.url(), "http://a");
    assert_eq!(job.index(), Some(3));
}

#[test]
fn a_panic_settles_a_job_as_failed() {
    let mut job = ScrapeJob::new("http://a".to_string());
    job.settle(Some(true));
    assert_eq!(*job.status(), JobStatus::Finished);
    job.settle(Some(false));
    assert_eq!(*job.status(), JobStatus::Failed);
    job.set_status(JobStatus::Running);
    job.settle(None);
    assert_eq!(*job.status(), JobStatus::Failed);
}

#[test]
fn a_started_job_is_running() {
    let mut q = Queue::default();
    assert!(q.is_empty());
    q.push(ScrapeJob::new_indexed("http://a".to_string(), 0));
    q.shutdown(1);
    assert!(!q.is_empty());
    let job = q.start_next().unwrap();
    assert_eq!(*job.status(), JobStatus::Running);
    assert_eq!(job.url(), "http://a");
    assert!(q.start_next().is_none());
    assert!(q.is_empty());
}

#[test]
fn shutdown_leaves_queued_jobs_in_front() {
    let mut q = Queue::new();
    q.push(ScrapeJob::new("http://a".to_string()));
    q.shutdown(1);
    q.shutdown(0);
    assert_eq!(q.next().unwrap().url(), "http://a");
    assert!(q.next().is_none());
    assert!(q.is_empty());
}
