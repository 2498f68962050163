use scrape_rs::fetch::{
    effective_timeout, fetch_outcome, prepare_fetch, request_timeout, Method, Request,
};
use scrape_rs::pool::prepare_job;
use scrape_rs::structs::{FetchError, FetchLinkError, JobStatus, ScrapeJob};
use scrape_rs::{default_agent, fetch_many, fetch_many_with_agent, init_worker_pool};
use scrape_rs::{init_worker_pool_with_agent, WorkerPool, DEFAULT_TIMEOUT};
use std::sync::{Arc, Mutex};
use std::time::Duration;
use ureq::config::Config;
use ureq::http::Uri;
use ureq::unversioned::resolver::{ResolvedSocketAddrs, Resolver};
use ureq::unversioned::transport::{
    Buffers, ConnectionDetails, Connector, LazyBuffers, NextTimeout, Transport,
};
use ureq::Agent;

// -------------------------------------------------------------------------
// A server in memory
// -------------------------------------------------------------------------
type Handler = dyn Fn(&str, &str, &str) -> (u16, String) + Send + Sync;

/// `handler` is called for each request with (method, path, body) and must
/// return (status_code, response_body). Paths that contain `slow` are answered
/// after `delay`.
struct Server {
    handler: Arc<Handler>,
    slow: &'static str,
    delay: Duration,
    log: Arc<Mutex<Vec<(String, Option<Duration>)>>>,
}

impl Server {
    fn new<F>(handler: F) -> Self
    where
        F: Fn(&str, &str, &str) -> (u16, String) + Send + Sync + 'static,
    {
        Self::with_delay(handler, "", Duration::ZERO)
    }

    fn with_delay<F>(handler: F, slow: &'static str, delay: Duration) -> Self
    where
        F: Fn(&str, &str, &str) -> (u16, String) + Send + Sync + 'static,
    {
        Server {
            handler: Arc::new(handler),
            slow,
            delay,
            log: Arc::new(Mutex::new(Vec::new())),
        }
    }

    fn url(&self, path: &str) -> String {
        format!("http://server.test{path}")
    }

    fn agent(&self, limit: Option<Duration>) -> Agent {
        self.agent_with(Agent::config_builder().timeout_global(limit).build())
    }

    fn agent_with(&self, config: Config) -> Agent {
        let connector = MemoryConnector {
            handler: Arc::clone(&self.handler),
            slow: self.slow,
            delay: self.delay,
            log: Arc::clone(&self.log),
        };
        Agent::with_parts(config, connector, NoResolver)
    }

    /// The text of each request so far, and the limit it was sent with.
    fn requests(&self) -> Vec<(String, Option<Duration>)> {
        self.log.lock().unwrap().clone()
    }
}

#[derive(Debug)]
struct NoResolver;

impl Resolver for NoResolver {
    fn resolve(
        &self,
        _: &Uri,
        _: &Config,
        _: NextTimeout,
    ) -> Result<ResolvedSocketAddrs, ureq::Error> {
        let mut addrs = self.empty();
        addrs.push("127.0.0.1:80".parse().unwrap());
        Ok(addrs)
    }
}

struct MemoryConnector {
    handler: Arc<Handler>,
    slow: &'static str,
    delay: Duration,
    log: Arc<Mutex<Vec<(String, Option<Duration>)>>>,
}

impl std::fmt::Debug for MemoryConnector {
    fn fmt(&self, f: &mut std::fmt::Formatter<'_>) -> std::fmt::Result {
        f.write_str("MemoryConnector")
    }
}

impl<In: Transport> Connector<In> for MemoryConnector {
    type Out = MemoryTransport;

    fn connect(
        &self,
        details: &ConnectionDetails,
        _: Option<In>,
    ) -> Result<Option<MemoryTransport>, ureq::Error> {
        Ok(Some(MemoryTransport {
            buffers: LazyBuffers::new(65536, 65536),
            handler: Arc::clone(&self.handler),
            slow: self.slow,
            delay: self.delay,
            log: Arc::clone(&self.log),
            limit: details.config.timeouts().global,
            received: Vec::new(),
            answered: false,
        }))
    }
}

struct MemoryTransport {
    buffers: LazyBuffers,
    handler: Arc<Handler>,
    slow: &'static str,
    delay: Duration,
    log: Arc<Mutex<Vec<(String, Option<Duration>)>>>,
    limit: Option<Duration>,
    received: Vec<u8>,
    answered: bool,
}

impl std::fmt::Debug for MemoryTransport {
    fn fmt(&self, f: &mut std::fmt::Formatter<'_>) -> std::fmt::Result {
        f.write_str("MemoryTransport")
    }
}

impl Transport for MemoryTransport {
    fn buffers(&mut self) -> &mut dyn Buffers {
        &mut self.buffers
    }

    fn transmit_output(&mut self, amount: usize, _: NextTimeout) -> Result<(), ureq::Error> {
        let sent = self.buffers.output()[..amount].to_vec();
        self.received.extend(sent);
        Ok(())
    }

    fn await_input(&mut self, timeout: NextTimeout) -> Result<bool, ureq::Error> {
        if self.answered {
            return Ok(false);
        }
        self.answered = true;
        let request = String::from_utf8(self.received.clone()).unwrap();
        self.log.lock().unwrap().push((request.clone(), self.limit));
        let (head, body) = request.split_once("\r\n\r\n").unwrap();
        let mut parts = head.split(' ');
        let (method, path) = (parts.next().unwrap(), parts.next().unwrap());
        if path.contains(self.slow) {
            if *timeout.after < self.delay {
                pause(*timeout.after);
                return Err(ureq::Error::Timeout(timeout.reason));
            }
            pause(self.delay);
        }
        let (status, text) = (self.handler)(method, path, body);
        let response = format!(
            "HTTP/1.1 {status} Reason\r\nContent-Length: {}\r\nConnection: close\r\n\r\n{text}",
            text.len()
        );
        self.buffers.input_append_buf()[..response.len()].copy_from_slice(response.as_bytes());
        self.buffers.input_appended(response.len());
        Ok(true)
    }

    fn is_open(&mut self) -> bool {
        !self.answered
    }
}

fn pause(length: Duration) {
    let (sender, receiver) = std::sync::mpsc::channel::<()>();
    let _ = receiver.recv_timeout(length);
    drop(sender);
}

/// Sends a request and reads the response.
fn send(request: Request) -> Result<String, ureq::Error> {
    let response = match request {
        Request::Call(builder) => builder.call()?,
        Request::Send(builder, Some(body)) => builder.send(body)?,
        Request::Send(builder, None) => builder.send_empty()?,
    };
    response.into_body().read_to_string()
}

fn fetch(
    agent: &Agent,
    url: &str,
    method: Method,
    body: Option<String>,
    content_type: Option<&str>,
) -> Result<String, FetchLinkError> {
    let request = prepare_fetch(agent, url, method, body, content_type)?;
    fetch_outcome(send(request))
}

fn fast() -> Option<Duration> {
    Some(Duration::from_millis(300))
}

// -------------------------------------------------------------------------
// Single requests
// -------------------------------------------------------------------------
#[test]
fn fetch_link_success() {
    let srv = Server::new(|method, path, _body| {
        assert_eq!(method, "GET");
        match path {
            "/" => (200, "hello world".to_string()),
            _ => (404, "not found".to_string()),
        }
    });
    let body = fetch(&srv.agent(fast()), &srv.url("/"), Method::GET, None, None)
        .expect("fetch should succeed");
    assert_eq!(body, "hello world");
}

#[test]
fn fetch_link_default_agent_success() {
    // default_agent has 5s timeout — request that responds immediately must succeed
    let srv = Server::new(|_, path, _| match path {
        "/" => (200, "default ok".to_string()),
        _ => (404, "".to_string()),
    });
    let agent = default_agent();
    assert_eq!(agent.config().timeouts().global, Some(Duration::from_secs(5)));
    assert_eq!(request_timeout(&agent), DEFAULT_TIMEOUT);
    match prepare_fetch(&agent, &srv.url("/"), Method::GET, None, None) {
        Ok(Request::Call(builder)) => {
            assert_eq!(builder.method_ref(), Some(&ureq::http::Method::GET));
            assert_eq!(builder.uri_ref().unwrap().to_string(), srv.url("/"));
        }
        _ => panic!("a GET request carries no body"),
    }
    // The same configuration, on a connection to the server in memory.
    let connected = srv.agent_with(agent.config().clone());
    let body = fetch(&connected, &srv.url("/"), Method::GET, None, None).expect("default fetch");
    assert_eq!(body, "default ok");
    assert_eq!(srv.requests()[0].1, Some(Duration::from_secs(5)));
}

#[test]
fn fetch_link_timeout() {
    let srv = Server::with_delay(
        |_, path, _| {
            if path == "/delay" {
                (200, "too late".to_string())
            } else {
                (200, "fast".to_string())
            }
        },
        "/delay",
        Duration::from_secs(2),
    );
    let agent = srv.agent(Some(Duration::from_millis(400)));
    let start = std::time::Instant::now();
    let err = fetch(&agent, &srv.url("/delay"), Method::GET, None, None)
        .expect_err("should timeout");
    let elapsed = start.elapsed();
    assert!(
        matches!(err, scrape_rs::structs::FetchLinkError::Http(ureq::Error::Timeout(_))),
        "expected Timeout, got {err:?}"
    );
    // Must timeout quickly (~400ms), not wait for full 2s server delay
    assert!(
        elapsed >= Duration::from_millis(300) && elapsed < Duration::from_secs(1),
        "timeout should fire ~400ms, got {elapsed:?}"
    );
}

#[test]
fn fetch_link_post_and_content_type() {
    let srv = Server::new(|method, path, body| {
        assert_eq!(method, "POST");
        assert_eq!(path, "/echo");
        // echo body back
        (200, format!("echo:{body}"))
    });
    let body = fetch(
        &srv.agent(fast()),
        &srv.url("/echo"),
        Method::POST,
        Some("payload123".to_string()),
        Some("text/plain"),
    )
    .unwrap();
    assert_eq!(body, "echo:payload123");
    let (request, _) = &srv.requests()[0];
    assert!(request.to_lowercase().contains("\r\ncontent-type: text/plain\r\n"));
}

#[test]
fn fetch_link_status_error() {
    let srv = Server::new(|_, path, _| match path {
        "/missing" => (404, "not found".to_string()),
        _ => (200, "ok".to_string()),
    });
    // ureq returns Error::StatusCode for 4xx/5xx by default
    let err = fetch(
        &srv.agent(fast()),
        &srv.url("/missing"),
        Method::GET,
        None,
        None,
    )
    .unwrap_err();
    assert!(matches!(
        err,
        scrape_rs::structs::FetchLinkError::Http(ureq::Error::StatusCode(404))
    ));
}

#[test]
fn parsers_via_fetch() {
    let srv = Server::new(|_, _, _| {
        let html = r#"<div class="quote"><span class="text">Hello</span><span class="author">World</span></div>"#;
        (200, html.to_string())
    });
    let html = fetch(&srv.agent(fast()), &srv.url("/"), Method::GET, None, None).unwrap();
    let quotes = scrape_rs::parsers::select_html(&html, ".quote");
    assert_eq!(quotes.len(), 1);
}

#[test]
fn default_timeout_constant() {
    assert_eq!(Duration::from_nanos(DEFAULT_TIMEOUT), Duration::from_secs(5));
    let agent = default_agent();
    assert_eq!(agent.config().timeouts().global, Some(Duration::from_secs(5)));
    assert_eq!(request_timeout(&agent), DEFAULT_TIMEOUT);
}

#[test]
fn every_method_goes_out_under_its_name() {
    let srv = Server::new(|_, _, _| (200, String::new()));
    let agent = srv.agent(None);
    let names = ["GET", "DELETE", "HEAD", "OPTIONS", "POST", "PUT", "PATCH"];
    for name in names {
        let method = Method::from_name(name);
        fetch(&agent, &srv.url("/p"), method, Some("b".to_string()), Some("t/x")).unwrap();
    }
    let requests = srv.requests();
    assert_eq!(requests.len(), 7);
    for (i, name) in names.iter().enumerate() {
        let (request, limit) = &requests[i];
        assert!(request.starts_with(&format!("{name} /p HTTP/1.1\r\n")));
        assert_eq!(*limit, Some(Duration::from_secs(5)));
        let carries_body = i >= 4;
        assert_eq!(request.ends_with("\r\n\r\nb"), carries_body);
        assert_eq!(request.to_lowercase().contains("content-type: t/x"), carries_body);
    }
}

#[test]
fn without_a_text_an_empty_body_is_sent() {
    let srv = Server::new(|_, _, body| {
        assert_eq!(body, "");
        (200, "done".to_string())
    });
    let agent = srv.agent(None);
    assert_eq!(fetch(&agent, &srv.url("/"), Method::PUT, None, None).unwrap(), "done");
    let (request, _) = &srv.requests()[0];
    let head = request.to_lowercase();
    assert!(head.contains("content-length: 0"));
    assert!(!head.contains("content-type"));
}

#[test]
fn an_unknown_method_is_refused() {
    let srv = Server::new(|_, _, _| (200, String::new()));
    let agent = srv.agent(None);
    for name in ["TRACE", "CONNECT", "get", ""] {
        let refused = fetch(&agent, &srv.url("/"), Method::from_name(name), None, None);
        match refused {
            Err(FetchLinkError::UnsupportedMethod(method)) => {
                assert_eq!(method, Method::Other(name.to_string()));
            }
            _ => panic!("{name} should be refused"),
        }
    }
    assert!(srv.requests().is_empty());
}

#[test]
fn a_method_goes_by_its_name() {
    let srv = Server::new(|_, _, _| (200, "ok".to_string()));
    let agent = srv.agent(None);
    let names = ["GET", "DELETE", "HEAD", "OPTIONS", "POST", "PUT", "PATCH"];
    for (i, name) in names.iter().enumerate() {
        let spelled = Method::Other(name.to_string());
        fetch(&agent, &srv.url("/p"), spelled, Some("b".to_string()), Some("t/x")).unwrap();
        let known = Method::from_name(name);
        fetch(&agent, &srv.url("/p"), known, Some("b".to_string()), Some("t/x")).unwrap();
        let requests = srv.requests();
        assert_eq!(requests.len(), 2 * i + 2);
        assert_eq!(requests[2 * i].0, requests[2 * i + 1].0);
        assert!(requests[2 * i].0.starts_with(&format!("{name} /p HTTP/1.1\r\n")));
    }
}

#[test]
fn method_names_are_recognised() {
    assert_eq!(Method::from_name("GET"), Method::GET);
    assert_eq!(Method::from_name("POST"), Method::POST);
    assert_eq!(Method::from_name("PUT"), Method::PUT);
    assert_eq!(Method::from_name("PATCH"), Method::PATCH);
    assert_eq!(Method::from_name("DELETE"), Method::DELETE);
    assert_eq!(Method::from_name("HEAD"), Method::HEAD);
    assert_eq!(Method::from_name("OPTIONS"), Method::OPTIONS);
    assert_eq!(Method::from_name("Get"), Method::Other("Get".to_string()));
    for name in ["GET", "POST", "PUT", "PATCH", "DELETE", "HEAD", "OPTIONS", "TRACE"] {
        assert_eq!(Method::from_name(name).as_str(), name);
    }
}

#[test]
fn the_stricter_timeout_wins() {
    assert_eq!(effective_timeout(None), 5_000_000_000);
    assert_eq!(effective_timeout(Some(0)), 0);
    assert_eq!(effective_timeout(Some(4_999_999_999)), 4_999_999_999);
    assert_eq!(effective_timeout(Some(5_000_000_000)), 5_000_000_000);
    assert_eq!(effective_timeout(Some(5_000_000_001)), 5_000_000_000);
    assert_eq!(effective_timeout(Some(u128::MAX)), 5_000_000_000);
}

#[test]
fn requests_are_bounded_whatever_the_agent() {
    let limits = [
        (None, Duration::from_secs(5)),
        (Some(Duration::from_millis(400)), Duration::from_millis(400)),
        (Some(Duration::from_secs(60)), Duration::from_secs(5)),
    ];
    for (configured, expected) in limits {
        let srv = Server::new(|_, _, _| (200, String::new()));
        let agent = srv.agent(configured);
        assert_eq!(u128::from(request_timeout(&agent)), expected.as_nanos());
        fetch(&agent, &srv.url("/"), Method::GET, None, None).unwrap();
        fetch(&agent, &srv.url("/"), Method::PATCH, None, None).unwrap();
        for (_, limit) in srv.requests() {
            assert_eq!(limit, Some(expected));
        }
    }
}

#[test]
fn a_malformed_url_fails_when_it_is_sent() {
    let srv = Server::new(|_, _, _| (200, String::new()));
    let agent = srv.agent(None);
    let failed = fetch(&agent, "not a url", Method::GET, None, None);
    assert!(matches!(failed, Err(FetchLinkError::Http(_))));
}

#[test]
fn an_error_is_carried_into_the_outcome() {
    assert_eq!(fetch_outcome(Ok("text".to_string())).unwrap(), "text");
    let failed = fetch_outcome(Err(ureq::Error::HostNotFound));
    assert!(matches!(failed, Err(FetchLinkError::Http(ureq::Error::HostNotFound))));
    let converted: FetchLinkError = ureq::Error::ConnectionFailed.into();
    assert!(matches!(converted, FetchLinkError::Http(ureq::Error::ConnectionFailed)));
}

// -------------------------------------------------------------------------
// Pools
// -------------------------------------------------------------------------
/// Takes the next job, fetches it and ends it: whether there was one.
fn run_next(pool: &mut WorkerPool, agent: &Agent) -> bool {
    match pool.start_next() {
        Some(mut job) => {
            assert_eq!(*job.status(), JobStatus::Running);
            let attempt = fetch(agent, job.url(), Method::GET, None, None);
            let succeeded = attempt.is_ok();
            assert_eq!(pool.finish(&mut job, Some(attempt)), succeeded);
            let status = if succeeded { JobStatus::Finished } else { JobStatus::Failed };
            assert_eq!(*job.status(), status);
            true
        }
        None => false,
    }
}

/// Takes the next job and sends the request that the pool prepares for it:
/// whether there was one.
fn run_next_with_pool_agent(pool: &mut WorkerPool) -> bool {
    match pool.start_next() {
        Some(mut job) => {
            let request = prepare_job(pool.agent(), &job).unwrap();
            pool.finish(&mut job, Some(fetch_outcome(send(request))));
            true
        }
        None => false,
    }
}

#[test]
fn fetch_many_success_ordered() {
    let srv = Server::new(|_, path, _| {
        // path like /page/1 -> return page-1
        let body = format!("body for {path}");
        (200, body)
    });
    let urls: Vec<String> = (0..5).map(|i| srv.url(&format!("/page/{i}"))).collect();
    let mut pool = fetch_many_with_agent(urls.clone(), 2, Ok(4), srv.agent(fast())).unwrap();

    // poll ready_results until finished (also tests incremental API)
    let mut seen = 0;
    while !pool.handle().is_finished() {
        assert!(run_next_with_pool_agent(&mut pool));
        let ready = pool.handle().ready_results();
        seen += ready.len();
        // each ready result must correspond to the content of its url
        for (idx, res) in ready {
            assert!(res.is_ok());
            assert!(res.unwrap().contains(&format!("/page/{idx}")));
        }
    }
    // drain remaining
    seen += pool.handle().ready_results().len();
    assert_eq!(seen, 5);

    // wait() must return ordered results, whatever the order of completion
    let srv2 = Server::new(|_, path, _| {
        let body = format!("body for {path}");
        (200, body)
    });
    let urls2: Vec<String> = (0..5).map(|i| srv2.url(&format!("/page/{i}"))).collect();
    let mut pool = fetch_many_with_agent(urls2, 2, Ok(4), srv2.agent(fast())).unwrap();
    let mut jobs: Vec<ScrapeJob> = (0..5).map(|_| pool.start_next().unwrap()).collect();
    jobs.reverse();
    for mut job in jobs {
        let request = prepare_job(pool.agent(), &job).unwrap();
        assert!(pool.finish(&mut job, Some(fetch_outcome(send(request)))));
    }
    let results = pool.handle().wait();
    assert_eq!(results.len(), 5);
    for (i, r) in results.into_iter().enumerate() {
        assert!(
            r.is_ok(),
            "fetch_many ordered second batch failed at {i}: {r:?}"
        );
        assert_eq!(r.unwrap(), format!("body for /page/{i}"));
    }
}

#[test]
fn fetch_many_try_results_and_completed() {
    let srv = Server::new(|_, _, _| (200, "ok".to_string()));
    let urls: Vec<String> = (0..3).map(|i| srv.url(&format!("/{i}"))).collect();
    let mut pool = fetch_many_with_agent(urls, 1, Ok(1), srv.agent(fast())).unwrap();
    assert!(run_next_with_pool_agent(&mut pool));
    let completed = pool.handle().completed();
    assert!(completed <= 3);
    assert_eq!(completed, 1);
    assert!(pool.handle().try_results().is_none());
    while run_next_with_pool_agent(&mut pool) {}

    let results = pool.handle().wait();
    assert_eq!(results.len(), 3);
    assert!(pool.handle().is_finished());
    assert_eq!(pool.handle().completed(), 3);

    let urls2: Vec<String> = (0..2).map(|i| srv.url(&format!("/t/{i}"))).collect();
    let mut pool2 = fetch_many_with_agent(urls2, 1, Ok(1), srv.agent(fast())).unwrap();
    while run_next_with_pool_agent(&mut pool2) {}
    let opt = pool2.handle().try_results();
    assert!(opt.is_some());
    assert_eq!(opt.unwrap().len(), 2);
}

#[test]
fn fetch_many_timeout_mixed() {
    let srv = Server::with_delay(
        |_, path, _| {
            if path.contains("slow") {
                (200, "slow".to_string())
            } else {
                (200, "fast".to_string())
            }
        },
        "slow",
        Duration::from_secs(2),
    );
    let agent = srv.agent(Some(Duration::from_millis(350)));
    let urls = vec![srv.url("/fast"), srv.url("/slow")];
    let start = std::time::Instant::now();
    let mut pool = fetch_many_with_agent(urls, 2, Ok(2), agent).unwrap();
    while run_next_with_pool_agent(&mut pool) {}
    let results = pool.handle().wait();
    let elapsed = start.elapsed();
    assert_eq!(results.len(), 2);
    // fast should succeed, slow should timeout (order preserved)
    assert_eq!(results[0].as_ref().unwrap(), "fast");
    assert!(
        matches!(
            results[1].as_ref().unwrap_err(),
            scrape_rs::structs::FetchLinkError::Http(ureq::Error::Timeout(_))
        ),
        "second should timeout, got {:?}",
        results[1]
    );
    // Whole batch must finish ~350ms, not 2s
    assert!(
        elapsed >= Duration::from_millis(250) && elapsed < Duration::from_secs(1),
        "mixed timeout should finish ~350ms, got {elapsed:?}"
    );
}

#[test]
fn fetch_many_default_timeout() {
    // default timeout is 5s: a 800ms delay must succeed without another limit
    let srv = Server::with_delay(
        |_, path, _| {
            if path == "/delay1" {
                (200, "delayed ok".to_string())
            } else {
                (200, "ok".to_string())
            }
        },
        "/delay1",
        Duration::from_millis(800),
    );
    let urls = vec![srv.url("/delay1")];
    let start = std::time::Instant::now();
    let mut pool = fetch_many_with_agent(urls, 1, Ok(1), srv.agent(None)).unwrap();
    while run_next_with_pool_agent(&mut pool) {}
    let results = pool.handle().wait();
    let elapsed = start.elapsed();
    assert_eq!(results[0].as_ref().unwrap(), "delayed ok");
    // Should take ~800ms (the server delay) and be well below 5s default
    assert!(
        elapsed >= Duration::from_millis(700) && elapsed < Duration::from_secs(5),
        "default timeout test should take ~800ms, got {elapsed:?}"
    );
}

#[test]
fn jobs_are_fetched_through_the_shared_agent() {
    let srv = Server::new(|method, path, _| (200, format!("{method} {path}")));
    let agent = srv.agent(Some(Duration::from_secs(2)));
    let mut pool = init_worker_pool_with_agent(1, Ok(1), agent).unwrap();
    pool.push(srv.url("/a"));
    pool.close();
    assert!(run_next_with_pool_agent(&mut pool));
    assert_eq!(pool.handle().wait()[0].as_ref().unwrap(), "GET /a");
    assert_eq!(srv.requests()[0].1, Some(Duration::from_secs(2)));
    assert!(prepare_job(pool.agent(), &ScrapeJob::new(srv.url("/b"))).is_none());
}

#[test]
fn fetch_many_too_many_threads() {
    let available = 8;
    let too_many = available + 1;
    let err = match fetch_many(
        vec!["http://example.com".to_string()],
        too_many,
        Ok(available),
    ) {
        Ok(_) => panic!("expected TooManyThreads error"),
        Err(e) => e,
    };
    assert!(matches!(
        err,
        scrape_rs::structs::FetchError::TooManyThreads { requested: 9, available: 8 }
    ));
}

#[test]
fn all_available_threads_may_be_used() {
    let pool = init_worker_pool(8, Ok(8)).unwrap();
    assert_eq!(pool.workers(), 8);
    assert!(pool.is_idle());
}

#[test]
fn unknown_parallelism_is_reported() {
    let unknown = std::io::Error::new(std::io::ErrorKind::Unsupported, "no idea");
    match init_worker_pool(1, Err(unknown)) {
        Err(FetchError::ParallelismUnavailable(error)) => {
            assert_eq!(error.kind(), std::io::ErrorKind::Unsupported);
            assert_eq!(error.to_string(), "no idea");
        }
        _ => panic!("expected ParallelismUnavailable error"),
    }
}

#[test]
fn workers_drain_the_queue_before_they_stop() {
    let mut pool = init_worker_pool(2, Ok(2)).unwrap();
    assert_eq!(pool.push("http://a".to_string()), 0);
    assert_eq!(pool.push("http://b".to_string()), 1);
    assert!(!pool.is_closed());
    pool.close();
    assert!(pool.is_closed());
    pool.close();
    assert_eq!(pool.start_next().unwrap().url(), "http://a");
    assert_eq!(pool.start_next().unwrap().url(), "http://b");
    assert!(pool.start_next().is_none());
    assert!(pool.start_next().is_none());
    assert!(pool.is_idle());
}

#[test]
fn a_panicking_fetch_is_recorded() {
    let mut pool = init_worker_pool(1, Ok(1)).unwrap();
    pool.push("http://a".to_string());
    let mut job = pool.start_next().unwrap();
    assert!(!pool.finish(&mut job, None));
    assert_eq!(*job.status(), JobStatus::Failed);
    let results = pool.handle().wait();
    assert_eq!(results.len(), 1);
    assert!(matches!(results[0], Err(FetchLinkError::WorkerPanic)));
}

#[test]
fn a_job_without_a_slot_fails() {
    let mut pool = init_worker_pool(1, Ok(1)).unwrap();
    let mut job = ScrapeJob::new("http://a".to_string());
    assert!(!pool.finish(&mut job, Some(Ok("x".to_string()))));
    assert_eq!(*job.status(), JobStatus::Failed);
    let mut job = ScrapeJob::new_indexed("http://a".to_string(), 0);
    assert!(!pool.finish(&mut job, Some(Ok("x".to_string()))));
    assert_eq!(pool.handle().completed(), 0);
}

#[test]
fn reading_until_nothing_comes_gets_every_result() {
    let srv = Server::new(|_, path, _| (200, path.to_string()));
    let urls: Vec<String> = (0..4).map(|i| srv.url(&format!("/{i}"))).collect();
    let mut pool = fetch_many_with_agent(urls, 2, Ok(2), srv.agent(None)).unwrap();
    let mut seen: Vec<usize> = Vec::new();
    let mut steps = 0;
    loop {
        while pool.handle().must_wait() {
            assert!(run_next_with_pool_agent(&mut pool));
            steps += 1;
        }
        let results = pool.handle().wait_ready();
        if results.is_empty() {
            break;
        }
        for (index, result) in results {
            assert_eq!(result.unwrap(), format!("/{index}"));
            seen.push(index);
        }
    }
    assert_eq!(seen, vec![0, 1, 2, 3]);
    assert_eq!(steps, 4);
    // What is left are the requests to stop, one for each worker.
    assert!(!run_next_with_pool_agent(&mut pool));
    assert!(!run_next_with_pool_agent(&mut pool));
    assert!(pool.is_idle());
}

#[test]
fn urls_may_be_added_between_reads() {
    let srv = Server::new(|_, path, _| (200, path.to_string()));
    let agent = srv.agent(None);
    let mut pool = init_worker_pool(1, Ok(1)).unwrap();
    pool.push(srv.url("/a"));
    assert!(pool.handle().must_wait());
    assert!(run_next(&mut pool, &agent));
    assert_eq!(pool.handle().wait_ready().len(), 1);
    pool.push(srv.url("/b"));
    pool.push(srv.url("/c"));
    assert!(!pool.handle().is_finished());
    assert!(run_next(&mut pool, &agent));
    assert!(run_next(&mut pool, &agent));
    let rest: Vec<String> = pool.handle().wait().into_iter().map(|r| r.unwrap()).collect();
    assert_eq!(rest, vec!["/b", "/c"]);
    assert_eq!(pool.handle().total(), 3);
}

#[test]
fn batches_use_the_default_agent() {
    let urls = vec!["http://a".to_string(), "http://b".to_string()];
    let mut pool = fetch_many(urls, 1, Ok(1)).unwrap();
    assert!(pool.is_closed());
    let limit = pool.agent().config().timeouts().global;
    assert_eq!(limit, Some(Duration::from_secs(5)));
    assert_eq!(pool.handle().total(), 2);
    let job = pool.start_next().unwrap();
    assert_eq!(job.url(), "http://a");
    assert_eq!(job.index(), Some(0));
}
