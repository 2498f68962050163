//! Single requests: which request is sent for a URL and a method, how long it
//! may take, and what its outcome is.
use crate::errors::FetchLinkError;
use ureq::typestate::{WithBody, WithoutBody};
use ureq::{Agent, RequestBuilder};
use vstd::prelude::*;

verus! {

/// Default timeout of every fetch, in nanoseconds: five seconds. Applied even
/// when a caller-provided `Agent` has no timeout configured, so a silent server
/// can never hang a worker forever.
pub const DEFAULT_TIMEOUT: u64 = 5_000_000_000;

// ---------------------------------------------------------------------------
// Methods
// ---------------------------------------------------------------------------
/// An HTTP method.
#[derive(Debug, PartialEq, Eq)]
pub enum Method {
    GET,
    POST,
    PUT,
    PATCH,
    DELETE,
    HEAD,
    OPTIONS,
    /// A method given by its name. With one of the names above it is that method.
    Other(String),
}

/// Whether two texts are equal.
fn same_text(left: &str, right: &str) -> (same: bool)
    ensures
        same == (left@ == right@),
{
    left.to_owned() == right.to_owned()
}

impl Method {
    /// The name of the method, as it stands in a request line.
    pub open spec fn name(&self) -> Seq<char> {
        match self {
            Method::GET => "GET"@,
            Method::POST => "POST"@,
            Method::PUT => "PUT"@,
            Method::PATCH => "PATCH"@,
            Method::DELETE => "DELETE"@,
            Method::HEAD => "HEAD"@,
            Method::OPTIONS => "OPTIONS"@,
            Method::Other(name) => name@,
        }
    }

    /// Whether the library implements requests with this method, which goes by
    /// its name.
    pub open spec fn supported(&self) -> bool {
        ||| self.name() == "GET"@
        ||| self.name() == "DELETE"@
        ||| self.name() == "HEAD"@
        ||| self.name() == "OPTIONS"@
        ||| self.carries_body()
    }

    /// Whether requests with this method carry a body.
    pub open spec fn carries_body(&self) -> bool {
        ||| self.name() == "POST"@
        ||| self.name() == "PUT"@
        ||| self.name() == "PATCH"@
    }

    /// The name of the method.
    pub fn as_str(&self) -> (name: &str)
        ensures
            name@ == self.name(),
    {
        match self {
            Method::GET => "GET",
            Method::POST => "POST",
            Method::PUT => "PUT",
            Method::PATCH => "PATCH",
            Method::DELETE => "DELETE",
            Method::HEAD => "HEAD",
            Method::OPTIONS => "OPTIONS",
            Method::Other(name) => name.as_str(),
        }
    }

    /// The method with the given name. Names are case-sensitive.
    pub fn from_name(name: &str) -> (method: Method)
        ensures
            method.name() == name@,
            method is GET <==> name@ == "GET"@,
            method is POST <==> name@ == "POST"@,
            method is PUT <==> name@ == "PUT"@,
            method is PATCH <==> name@ == "PATCH"@,
            method is DELETE <==> name@ == "DELETE"@,
            method is HEAD <==> name@ == "HEAD"@,
            method is OPTIONS <==> name@ == "OPTIONS"@,
    {
        proof {
            lemma_method_names_differ();
        }
        if same_text(name, "GET") {
            Method::GET
        } else if same_text(name, "POST") {
            Method::POST
        } else if same_text(name, "PUT") {
            Method::PUT
        } else if same_text(name, "PATCH") {
            Method::PATCH
        } else if same_text(name, "DELETE") {
            Method::DELETE
        } else if same_text(name, "HEAD") {
            Method::HEAD
        } else if same_text(name, "OPTIONS") {
            Method::OPTIONS
        } else {
            Method::Other(name.to_owned())
        }
    }
}

/// No two of the implemented methods share a name.
pub(crate) proof fn lemma_method_names_differ()
    ensures
        "GET"@ != "POST"@,
        "GET"@ != "PUT"@,
        "GET"@ != "PATCH"@,
        "GET"@ != "DELETE"@,
        "GET"@ != "HEAD"@,
        "GET"@ != "OPTIONS"@,
        "POST"@ != "PUT"@,
        "POST"@ != "PATCH"@,
        "POST"@ != "DELETE"@,
        "POST"@ != "HEAD"@,
        "POST"@ != "OPTIONS"@,
        "PUT"@ != "PATCH"@,
        "PUT"@ != "DELETE"@,
        "PUT"@ != "HEAD"@,
        "PUT"@ != "OPTIONS"@,
        "PATCH"@ != "DELETE"@,
        "PATCH"@ != "HEAD"@,
        "PATCH"@ != "OPTIONS"@,
        "DELETE"@ != "HEAD"@,
        "DELETE"@ != "OPTIONS"@,
        "HEAD"@ != "OPTIONS"@,
{
    reveal_strlit("GET");
    reveal_strlit("POST");
    reveal_strlit("PUT");
    reveal_strlit("PATCH");
    reveal_strlit("DELETE");
    reveal_strlit("HEAD");
    reveal_strlit("OPTIONS");
    assert("GET"@[0] == 'G');
    assert("POST"@[0] == 'P' && "POST"@[1] == 'O');
    assert("PUT"@[0] == 'P' && "PUT"@[1] == 'U');
    assert("PATCH"@[0] == 'P' && "PATCH"@[1] == 'A');
    assert("DELETE"@[0] == 'D');
    assert("HEAD"@[0] == 'H');
    assert("OPTIONS"@[0] == 'O');
}

// ---------------------------------------------------------------------------
// Agents and timeouts
// ---------------------------------------------------------------------------
/// A connection pool with its configuration, [`ureq::Agent`].
#[verifier::external_type_specification]
#[verifier::external_body]
pub struct ExAgent(Agent);

/// The limit on a whole exchange that an agent was configured with, in
/// nanoseconds; `None` where it has no such limit.
pub uninterp spec fn agent_limit(agent: Agent) -> Option<nat>;

/// `Agent::config_builder`, with `ConfigBuilder::timeout_global` set to `limit`
/// nanoseconds: the agent is configured with that limit. Nothing is said of the
/// rest of its configuration.
#[verifier::external_body]
fn agent_with_limit(limit: u64) -> (agent: Agent)
    ensures
        agent_limit(agent) == Some(limit as nat),
{
    Agent::config_builder()
        .timeout_global(Some(std::time::Duration::from_nanos(limit)))
        .build()
        .new_agent()
}

/// `Agent::config`, `Config::timeouts`, and there the global limit.
#[verifier::external_body]
fn configured_limit(agent: &Agent) -> (limit: Option<u128>)
    ensures
        match limit {
            Some(nanoseconds) => agent_limit(*agent) == Some(nanoseconds as nat),
            None => agent_limit(*agent) is None,
        },
{
    agent.config().timeouts().global.map(|limit| limit.as_nanos())
}

/// The limit that applies to a request: the configured one where it is the
/// stricter one, else the default.
pub open spec fn stricter_limit(configured: Option<nat>) -> nat {
    match configured {
        Some(limit) if limit < DEFAULT_TIMEOUT => limit,
        _ => DEFAULT_TIMEOUT as nat,
    }
}

/// Default agent: a single `Agent` to be shared by all workers, with the default
/// timeout.
pub fn default_agent() -> (agent: Agent)
    ensures
        agent_limit(agent) == Some(DEFAULT_TIMEOUT as nat),
{
    agent_with_limit(DEFAULT_TIMEOUT)
}

/// The limit on a request end-to-end, in nanoseconds, for an agent configured
/// with the limit `configured`. If that is shorter than the default, the stricter
/// one wins; without any limit the default still applies.
pub fn effective_timeout(configured: Option<u128>) -> (limit: u64)
    ensures
        limit == stricter_limit(
            match configured {
                Some(nanoseconds) => Some(nanoseconds as nat),
                None => None,
            },
        ),
{
    match configured {
        Some(nanoseconds) => {
            if nanoseconds < DEFAULT_TIMEOUT as u128 {
                nanoseconds as u64
            } else {
                DEFAULT_TIMEOUT
            }
        },
        None => DEFAULT_TIMEOUT,
    }
}

/// The limit on a request made through `agent`, in nanoseconds.
pub fn request_timeout(agent: &Agent) -> (limit: u64)
    ensures
        limit == stricter_limit(agent_limit(*agent)),
        limit <= DEFAULT_TIMEOUT,
{
    effective_timeout(configured_limit(agent))
}

// ---------------------------------------------------------------------------
// Requests under construction
// ---------------------------------------------------------------------------
/// A request under construction, [`ureq::RequestBuilder`].
#[verifier::external_type_specification]
#[verifier::external_body]
#[verifier::reject_recursive_types(B)]
pub struct ExRequestBuilder<B>(RequestBuilder<B>);

/// Marks a request that carries a body, [`ureq::typestate::WithBody`].
#[verifier::external_type_specification]
#[verifier::external_body]
pub struct ExWithBody(WithBody);

/// Marks a request that carries no body, [`ureq::typestate::WithoutBody`].
#[verifier::external_type_specification]
#[verifier::external_body]
pub struct ExWithoutBody(WithoutBody);

/// What a request was told to send: through which agent, with which method, to
/// which URL, with which headers, and within which limit of its own, in
/// nanoseconds. Whether the URL and the headers are well-formed shows only when
/// the request is sent.
pub struct Head {
    pub agent: Agent,
    pub method: Seq<char>,
    pub url: Seq<char>,
    pub headers: Seq<(Seq<char>, Seq<char>)>,
    pub limit: Option<nat>,
}

/// What a request without a body was told to send.
pub uninterp spec fn call_head(builder: RequestBuilder<WithoutBody>) -> Head;

/// What a request with a body was told to send, besides the body.
pub uninterp spec fn send_head(builder: RequestBuilder<WithBody>) -> Head;

/// A request that only has its agent, its method and its URL.
pub open spec fn bare_head(agent: Agent, method: Seq<char>, url: Seq<char>) -> Head {
    Head { agent, method, url, headers: Seq::empty(), limit: None }
}

/// `Agent::get`: a request with the method GET, to the given URL.
#[verifier::external_body]
fn start_get(agent: &Agent, url: &str) -> (builder: RequestBuilder<WithoutBody>)
    ensures
        call_head(builder) == bare_head(*agent, "GET"@, url@),
{
    agent.get(url)
}

/// `Agent::delete`: a request with the method DELETE, to the given URL.
#[verifier::external_body]
fn start_delete(agent: &Agent, url: &str) -> (builder: RequestBuilder<WithoutBody>)
    ensures
        call_head(builder) == bare_head(*agent, "DELETE"@, url@),
{
    agent.delete(url)
}

/// `Agent::head`: a request with the method HEAD, to the given URL.
#[verifier::external_body]
fn start_head(agent: &Agent, url: &str) -> (builder: RequestBuilder<WithoutBody>)
    ensures
        call_head(builder) == bare_head(*agent, "HEAD"@, url@),
{
    agent.head(url)
}

/// `Agent::options`: a request with the method OPTIONS, to the given URL.
#[verifier::external_body]
fn start_options(agent: &Agent, url: &str) -> (builder: RequestBuilder<WithoutBody>)
    ensures
        call_head(builder) == bare_head(*agent, "OPTIONS"@, url@),
{
    agent.options(url)
}

/// `Agent::post`: a request with the method POST, to the given URL.
#[verifier::external_body]
fn start_post(agent: &Agent, url: &str) -> (builder: RequestBuilder<WithBody>)
    ensures
        send_head(builder) == bare_head(*agent, "POST"@, url@),
{
    agent.post(url)
}

/// `Agent::put`: a request with the method PUT, to the given URL.
#[verifier::external_body]
fn start_put(agent: &Agent, url: &str) -> (builder: RequestBuilder<WithBody>)
    ensures
        send_head(builder) == bare_head(*agent, "PUT"@, url@),
{
    agent.put(url)
}

/// `Agent::patch`: a request with the method PATCH, to the given URL.
#[verifier::external_body]
fn start_patch(agent: &Agent, url: &str) -> (builder: RequestBuilder<WithBody>)
    ensures
        send_head(builder) == bare_head(*agent, "PATCH"@, url@),
{
    agent.patch(url)
}

/// `RequestBuilder::config`, with `ConfigBuilder::timeout_global` set to `limit`
/// nanoseconds: the request has that limit of its own, and is else as before.
#[verifier::external_body]
fn limit_call(builder: RequestBuilder<WithoutBody>, limit: u64) -> (limited: RequestBuilder<
    WithoutBody,
>)
    ensures
        call_head(limited) == (Head { limit: Some(limit as nat), ..call_head(builder) }),
{
    builder.config().timeout_global(Some(std::time::Duration::from_nanos(limit))).build()
}

/// The same as [`limit_call`], for a request with a body.
#[verifier::external_body]
fn limit_send(builder: RequestBuilder<WithBody>, limit: u64) -> (limited: RequestBuilder<WithBody>)
    ensures
        send_head(limited) == (Head { limit: Some(limit as nat), ..send_head(builder) }),
{
    builder.config().timeout_global(Some(std::time::Duration::from_nanos(limit))).build()
}

/// `RequestBuilder::header`: the request has one more header, and is else as
/// before.
#[verifier::external_body]
fn add_header(builder: RequestBuilder<WithBody>, name: &str, value: &str) -> (extended:
    RequestBuilder<WithBody>)
    ensures
        send_head(extended) == (Head {
            headers: send_head(builder).headers.push((name@, value@)),
            ..send_head(builder)
        }),
{
    builder.header(name, value)
}

// ---------------------------------------------------------------------------
// Requests
// ---------------------------------------------------------------------------
/// A request that is ready to go out.
pub enum Request {
    /// A request without a body.
    Call(RequestBuilder<WithoutBody>),
    /// A request with a body, empty where the text is `None`.
    Send(RequestBuilder<WithBody>, Option<String>),
}

/// What goes out with a request. The body is `None` where the method has none.
pub struct RequestView {
    pub head: Head,
    pub body: Option<Seq<char>>,
}

impl View for Request {
    type V = RequestView;

    open spec fn view(&self) -> RequestView {
        match self {
            Request::Call(builder) => RequestView { head: call_head(*builder), body: None },
            Request::Send(builder, text) => RequestView {
                head: send_head(*builder),
                body: Some(text_or_empty(*text)),
            },
        }
    }
}

/// The text of a body, empty where there is none.
pub open spec fn text_or_empty(text: Option<String>) -> Seq<char> {
    match text {
        Some(chars) => chars@,
        None => Seq::empty(),
    }
}

/// The headers that a content type adds.
pub open spec fn content_type_headers(content_type: Option<&str>) -> Seq<(Seq<char>, Seq<char>)> {
    match content_type {
        Some(value) => seq![("Content-Type"@, value@)],
        None => Seq::empty(),
    }
}

/// What goes out for a URL, a method, a body and a content type: the last two
/// count only where the method carries a body. The limit is always set.
pub open spec fn planned(
    agent: Agent,
    url: Seq<char>,
    method: Method,
    body: Option<String>,
    content_type: Option<&str>,
) -> RequestView {
    RequestView {
        head: Head {
            agent,
            method: method.name(),
            url,
            headers: if method.carries_body() {
                content_type_headers(content_type)
            } else {
                Seq::empty()
            },
            limit: Some(stricter_limit(agent_limit(agent))),
        },
        body: if method.carries_body() {
            Some(text_or_empty(body))
        } else {
            None
        },
    }
}

/// A request without a body, within the limit that applies to it.
fn call_request(agent: &Agent, builder: RequestBuilder<WithoutBody>) -> (request: Request)
    ensures
        request@ == (RequestView {
            head: Head {
                limit: Some(stricter_limit(agent_limit(*agent))),
                ..call_head(builder)
            },
            body: None,
        }),
{
    Request::Call(limit_call(builder, request_timeout(agent)))
}

/// A request with a body, within the limit that applies to it: the header is set
/// where a content type is given, and without a text an empty body is sent.
fn send_request(
    agent: &Agent,
    builder: RequestBuilder<WithBody>,
    body: Option<String>,
    content_type: Option<&str>,
) -> (request: Request)
    ensures
        request@ == (RequestView {
            head: Head {
                headers: send_head(builder).headers + content_type_headers(content_type),
                limit: Some(stricter_limit(agent_limit(*agent))),
                ..send_head(builder)
            },
            body: Some(text_or_empty(body)),
        }),
        request matches Request::Send(_, sent) && sent == body,
{
    let limited = limit_send(builder, request_timeout(agent));
    let builder = match content_type {
        Some(value) => add_header(limited, "Content-Type", value),
        None => limited,
    };
    assert(send_head(builder).headers =~= send_head(limited).headers + content_type_headers(
        content_type,
    ));
    Request::Send(builder, body)
}

/// The request that fetches `url` through `agent`. A method that the library does
/// not implement is reported clearly, not faked as an HTTP 405 as if it came from
/// the server.
///
/// The default timeout is always applied on top of the agent's configuration, so
/// an `Agent` without any timeout configured still cannot hang.
pub fn prepare_fetch(
    agent: &Agent,
    url: &str,
    method: Method,
    body: Option<String>,
    content_type: Option<&str>,
) -> (prepared: Result<Request, FetchLinkError>)
    ensures
        match prepared {
            Ok(request) => method.supported() && request@ == planned(
                *agent,
                url@,
                method,
                body,
                content_type,
            ),
            Err(error) => !method.supported() && error == FetchLinkError::UnsupportedMethod(method),
        },
        prepared matches Ok(Request::Send(_, sent)) ==> sent == body,
{
    proof {
        lemma_method_names_differ();
    }
    let request = match Method::from_name(method.as_str()) {
        Method::GET => call_request(agent, start_get(agent, url)),
        Method::DELETE => call_request(agent, start_delete(agent, url)),
        Method::HEAD => call_request(agent, start_head(agent, url)),
        Method::OPTIONS => call_request(agent, start_options(agent, url)),
        Method::POST => send_request(agent, start_post(agent, url), body, content_type),
        Method::PUT => send_request(agent, start_put(agent, url), body, content_type),
        Method::PATCH => send_request(agent, start_patch(agent, url), body, content_type),
        Method::Other(_) => {
            return Err(FetchLinkError::UnsupportedMethod(method));
        },
    };
    assert(request@.head.headers =~= planned(*agent, url@, method, body, content_type).head.headers);
    Ok(request)
}

/// The outcome of a fetch, once its request went out: the text of the response,
/// or why the exchange failed.
pub fn fetch_outcome(reply: Result<String, ureq::Error>) -> (outcome: Result<
    String,
    FetchLinkError,
>)
    ensures
        outcome == match reply {
            Ok(text) => Ok::<String, FetchLinkError>(text),
            Err(error) => Err(FetchLinkError::Http(error)),
        },
{
    match reply {
        Ok(text) => Ok(text),
        Err(error) => Err(FetchLinkError::from(error)),
    }
}

// ---------------------------------------------------------------------------
// What holds of all requests
// ---------------------------------------------------------------------------
/// No request can hang: whatever limit an agent was configured with, the limit
/// on a request is at most the default and at most the configured one, and it is
/// one of the two.
pub proof fn law_every_request_is_bounded(configured: Option<nat>)
    ensures
        stricter_limit(configured) <= DEFAULT_TIMEOUT,
        configured matches Some(limit) ==> stricter_limit(configured) <= limit,
        stricter_limit(configured) == DEFAULT_TIMEOUT || Some(stricter_limit(configured))
            == configured,
        stricter_limit(None) == DEFAULT_TIMEOUT,
        stricter_limit(Some(DEFAULT_TIMEOUT as nat)) == DEFAULT_TIMEOUT,
{
}

/// A method without a body sends the same request whatever body and content type
/// it is given.
pub proof fn law_a_bodiless_method_ignores_the_body(
    agent: Agent,
    url: Seq<char>,
    method: Method,
    body: Option<String>,
    content_type: Option<&str>,
)
    requires
        !method.carries_body(),
    ensures
        planned(agent, url, method, body, content_type) == planned(agent, url, method, None, None),
{
}

} // verus!
