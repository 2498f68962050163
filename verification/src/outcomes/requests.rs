//! What goes out for a request, and what comes of it.
use crate::errors::FetchLinkError;
use crate::fetch::{
    agent_limit, call_head, default_agent, effective_timeout, fetch_outcome,
    lemma_method_names_differ, prepare_fetch, request_timeout, send_head, Head, Method, Request,
    DEFAULT_TIMEOUT,
};
use crate::pool::prepare_job;
use crate::queue::ScrapeJob;
use ureq::Agent;
use vstd::prelude::*;

verus! {

/// What a request was told to send, besides its body.
pub open spec fn request_head(request: Request) -> Head {
    match request {
        Request::Call(builder) => call_head(builder),
        Request::Send(builder, _) => send_head(builder),
    }
}

/// A request goes out through the given agent, to the given URL and under the name
/// of the method, for each of the seven methods; any other method is refused, and
/// the error names it.
pub proof fn law_seven_methods_go_out(
    agent: &Agent,
    url: &str,
    method: Method,
    body: Option<String>,
    content_type: Option<&str>,
    prepared: Result<Request, FetchLinkError>,
)
    requires
        call_ensures(prepare_fetch, (agent, url, method, body, content_type), prepared),
    ensures
        !(method is Other) ==> prepared is Ok,
        method matches Method::Other(name) ==> (prepared is Ok <==> {
            ||| name@ == "GET"@
            ||| name@ == "POST"@
            ||| name@ == "PUT"@
            ||| name@ == "PATCH"@
            ||| name@ == "DELETE"@
            ||| name@ == "HEAD"@
            ||| name@ == "OPTIONS"@
        }),
        prepared matches Err(error) ==> error == FetchLinkError::UnsupportedMethod(method),
        prepared matches Ok(request) ==> {
            &&& request_head(request).agent == *agent
            &&& request_head(request).url == url@
            &&& method is GET ==> request_head(request).method == "GET"@
            &&& method is POST ==> request_head(request).method == "POST"@
            &&& method is PUT ==> request_head(request).method == "PUT"@
            &&& method is PATCH ==> request_head(request).method == "PATCH"@
            &&& method is DELETE ==> request_head(request).method == "DELETE"@
            &&& method is HEAD ==> request_head(request).method == "HEAD"@
            &&& method is OPTIONS ==> request_head(request).method == "OPTIONS"@
            &&& method matches Method::Other(name) ==> request_head(request).method == name@
        },
{
}

/// The text that is given as body goes out as it is, for POST, PUT and PATCH and
/// whatever the content type; without a text the body is empty. No other method
/// sends a body.
pub proof fn law_the_given_body_goes_out(
    agent: &Agent,
    url: &str,
    method: Method,
    body: Option<String>,
    content_type: Option<&str>,
    request: Request,
)
    requires
        call_ensures(
            prepare_fetch,
            (agent, url, method, body, content_type),
            Ok::<Request, FetchLinkError>(request),
        ),
    ensures
        method is POST || method is PUT || method is PATCH ==> request is Send,
        method is GET || method is DELETE || method is HEAD || method is OPTIONS ==> request is Call,
        request is Send <==> {
            ||| request_head(request).method == "POST"@
            ||| request_head(request).method == "PUT"@
            ||| request_head(request).method == "PATCH"@
        },
        request matches Request::Send(_, sent) ==> sent == body,
        request is Send ==> request@.body == Some(
            match body {
                Some(text) => text@,
                None => Seq::<char>::empty(),
            },
        ),
        request is Call ==> request@.body is None,
        request@.head == request_head(request),
{
    lemma_method_names_differ();
}

/// A given content type goes out as the one header that is set, as it is and
/// whatever the body; without one, or where the method sends no body, no header
/// is set.
pub proof fn law_the_given_content_type_goes_out(
    agent: &Agent,
    url: &str,
    method: Method,
    body: Option<String>,
    content_type: Option<&str>,
    request: Request,
)
    requires
        call_ensures(
            prepare_fetch,
            (agent, url, method, body, content_type),
            Ok::<Request, FetchLinkError>(request),
        ),
    ensures
        request is Call || content_type is None ==> request_head(request).headers.len() == 0,
        content_type matches Some(value) ==> (request is Send ==> {
            &&& request_head(request).headers.len() == 1
            &&& request_head(request).headers[0].0 == "Content-Type"@
            &&& request_head(request).headers[0].1 == value@
        }),
{
}

/// No request is without a limit: it is five seconds, or what its agent is
/// configured with where that is less.
pub proof fn law_each_request_has_the_stricter_limit(
    agent: &Agent,
    url: &str,
    method: Method,
    body: Option<String>,
    content_type: Option<&str>,
    request: Request,
)
    requires
        call_ensures(
            prepare_fetch,
            (agent, url, method, body, content_type),
            Ok::<Request, FetchLinkError>(request),
        ),
    ensures
        agent_limit(*agent) is None ==> request_head(request).limit == Some(5_000_000_000nat),
        agent_limit(*agent) matches Some(configured) ==> request_head(request).limit == Some(
            if configured <= 5_000_000_000 {
                configured
            } else {
                5_000_000_000nat
            },
        ),
{
}

/// What goes out as body does not depend on the content type, and which headers
/// are set does not depend on the body: two requests that differ in these alone
/// have the same agent, method, URL and limit.
pub proof fn law_body_and_content_type_go_out_apart(
    agent: &Agent,
    url: &str,
    method: Method,
    body: Option<String>,
    other_body: Option<String>,
    content_type: Option<&str>,
    other_type: Option<&str>,
    request: Request,
    typed: Request,
    filled: Request,
)
    requires
        call_ensures(
            prepare_fetch,
            (agent, url, method, body, content_type),
            Ok::<Request, FetchLinkError>(request),
        ),
        call_ensures(
            prepare_fetch,
            (agent, url, method, body, other_type),
            Ok::<Request, FetchLinkError>(typed),
        ),
        call_ensures(
            prepare_fetch,
            (agent, url, method, other_body, content_type),
            Ok::<Request, FetchLinkError>(filled),
        ),
    ensures
        typed@.body == request@.body,
        filled@.head == request@.head,
        typed@.head.agent == request@.head.agent,
        typed@.head.method == request@.head.method,
        typed@.head.url == request@.head.url,
        typed@.head.limit == request@.head.limit,
{
}

/// The limit on a request is never more than five seconds nor more than the
/// configured limit, and it is one of the two.
pub proof fn law_the_stricter_limit_wins(
    agent: &Agent,
    configured: Option<u128>,
    limit: u64,
    effective: u64,
)
    requires
        call_ensures(request_timeout, (agent,), limit),
        call_ensures(effective_timeout, (configured,), effective),
    ensures
        effective <= 5_000_000_000,
        configured is None ==> effective == 5_000_000_000,
        configured matches Some(given) ==> effective <= given && (effective == given || effective
            == 5_000_000_000),
        limit <= 5_000_000_000,
        agent_limit(*agent) is None ==> limit == 5_000_000_000,
        agent_limit(*agent) matches Some(given) ==> limit <= given && (limit == given || limit
            == 5_000_000_000),
{
}

/// The default agent is configured with a limit of five seconds.
pub proof fn law_the_default_agent_gives_up_after_five_seconds(agent: Agent)
    requires
        call_ensures(default_agent, (), agent),
    ensures
        agent_limit(agent) == Some(5_000_000_000nat),
        DEFAULT_TIMEOUT == 5_000_000_000,
{
}

/// The outcome of a fetch is the text of its response as it came, or the error of
/// the exchange.
pub proof fn law_the_outcome_is_the_reply(
    reply: Result<String, ureq::Error>,
    outcome: Result<String, FetchLinkError>,
)
    requires
        call_ensures(fetch_outcome, (reply,), outcome),
    ensures
        reply matches Ok(text) ==> outcome == Ok::<String, FetchLinkError>(text),
        reply matches Err(error) ==> outcome == Err::<String, FetchLinkError>(
            FetchLinkError::Http(error),
        ),
{
}

/// A method made from a name goes by that name, and a method keeps its name.
pub proof fn law_a_method_keeps_its_name(
    name: &str,
    named: Method,
    back: &str,
    method: Method,
    shown: &str,
)
    requires
        call_ensures(Method::from_name, (name,), named),
        call_ensures(Method::as_str, (&named,), back),
        call_ensures(Method::as_str, (&method,), shown),
    ensures
        back@ == name@,
        method is GET ==> shown@ == "GET"@,
        method is POST ==> shown@ == "POST"@,
        method is PUT ==> shown@ == "PUT"@,
        method is PATCH ==> shown@ == "PATCH"@,
        method is DELETE ==> shown@ == "DELETE"@,
        method is HEAD ==> shown@ == "HEAD"@,
        method is OPTIONS ==> shown@ == "OPTIONS"@,
        method matches Method::Other(text) ==> shown@ == text@,
        !(method is Other) && shown@ == name@ ==> named == method,
{
    lemma_method_names_differ();
}

/// A worker fetches the URL of its job: with GET, through the agent of the pool,
/// without a body or headers and within the stricter limit. A job without an
/// index is not fetched.
pub proof fn law_a_worker_fetches_the_url_of_its_job(
    agent: &Agent,
    job: &ScrapeJob,
    prepared: Option<Request>,
)
    requires
        call_ensures(prepare_job, (agent, job), prepared),
    ensures
        prepared is Some <==> job@.index is Some,
        prepared matches Some(request) ==> {
            &&& request is Call
            &&& request_head(request).agent == *agent
            &&& request_head(request).method == "GET"@
            &&& request_head(request).url == job@.url
            &&& request_head(request).headers.len() == 0
            &&& agent_limit(*agent) is None ==> request_head(request).limit == Some(
                5_000_000_000nat,
            )
            &&& agent_limit(*agent) matches Some(configured) ==> request_head(request).limit
                == Some(
                if configured <= 5_000_000_000 {
                    configured
                } else {
                    5_000_000_000nat
                },
            )
        },
{
    lemma_method_names_differ();
}

} // verus!
