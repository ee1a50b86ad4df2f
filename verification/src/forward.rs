use vstd::prelude::*;

verus! {

/// The media type of DNS messages carried over HTTP, sent with both
/// the POST and the GET form of a DoH exchange.
pub const DNS_CONTENT_TYPE: &'static str = "application/dns-message";

/// The HTTP status that triggers the one POST-to-GET fallback.
pub const METHOD_NOT_ALLOWED: u16 = 405;

/// The outcome of one HTTP exchange, as the transport reports it.
pub enum HttpOutcome {
    /// Network-level failure: unreachable, reset, or timed out.
    Transport,
    /// A response, with its HTTP status code and raw body bytes.
    Response { status: u16, body: Vec<u8> },
}

/// Why a forwarded exchange failed.
#[derive(Debug)]
pub enum ForwardError {
    /// Network-level failure on either attempt.
    Transport,
    /// A non-success HTTP status other than the fallback trigger.
    Upstream(u16),
}

/// What to do after the POST attempt of a DoH exchange.
pub enum ForwardStep {
    /// The upstream answered: relay these bytes.
    Done(Vec<u8>),
    /// The upstream rejected the method: retry once as GET with the
    /// query base64url-encoded, unpadded, in the `dns` parameter.
    RetryGet { url: String, dns_param: String },
    /// Give up with this error; no further attempt follows.
    Fail(ForwardError),
}

/// HTTP statuses the proxy counts as success.
pub open spec fn is_success(status: u16) -> bool {
    200 <= status < 300
}

/// What base64's URL-safe alphabet encodes a byte string to, without
/// padding.
pub uninterp spec fn base64url(b: Seq<u8>) -> Seq<char>;

/// Encodes the query bytes for the `dns` parameter of a DoH GET
/// request.
///
/// Relies on base64's `Engine::encode` with the `URL_SAFE_NO_PAD`
/// engine: the result depends on the input bytes alone, and an empty
/// input encodes to the empty string.
#[verifier::external_body]
pub(crate) fn b64url_encode(data: &Vec<u8>) -> (r: String)
    ensures
        r@ == base64url(data@),
        data@.len() == 0 ==> r@.len() == 0,
{
    base64::Engine::encode(&base64::engine::general_purpose::URL_SAFE_NO_PAD, data)
}

/// Decides the next step after the POST attempt: a success relays the
/// body, a 405 retries once as GET with the query base64url-encoded in
/// the `dns` parameter, and any other outcome fails with no second
/// attempt.
pub fn after_post(url: &String, query: &Vec<u8>, outcome: HttpOutcome) -> (r: ForwardStep)
    ensures
        match outcome {
            HttpOutcome::Transport => r matches ForwardStep::Fail(ForwardError::Transport),
            HttpOutcome::Response { status, body } => {
                if is_success(status) {
                    r matches ForwardStep::Done(b) && b@ == body@
                } else if status == METHOD_NOT_ALLOWED {
                    r matches ForwardStep::RetryGet { url: u, dns_param: d } && u@ == url@ && d@
                        == base64url(query@)
                } else {
                    r matches ForwardStep::Fail(ForwardError::Upstream(s)) && s == status
                }
            },
        },
{
    match outcome {
        HttpOutcome::Transport => ForwardStep::Fail(ForwardError::Transport),
        HttpOutcome::Response { status, body } => {
            if 200 <= status && status < 300 {
                ForwardStep::Done(body)
            } else if status == METHOD_NOT_ALLOWED {
                ForwardStep::RetryGet { url: url.clone(), dns_param: b64url_encode(query) }
            } else {
                ForwardStep::Fail(ForwardError::Upstream(status))
            }
        },
    }
}

/// Decides the result after the GET fallback: a success relays the
/// body, any other outcome fails; no further attempt follows.
pub fn after_get(outcome: HttpOutcome) -> (r: Result<Vec<u8>, ForwardError>)
    ensures
        match outcome {
            HttpOutcome::Transport => r matches Err(ForwardError::Transport),
            HttpOutcome::Response { status, body } => {
                if is_success(status) {
                    r matches Ok(b) && b@ == body@
                } else {
                    r matches Err(ForwardError::Upstream(s)) && s == status
                }
            },
        },
{
    match outcome {
        HttpOutcome::Transport => Err(ForwardError::Transport),
        HttpOutcome::Response { status, body } => {
            if 200 <= status && status < 300 {
                Ok(body)
            } else {
                Err(ForwardError::Upstream(status))
            }
        },
    }
}

} // verus!
