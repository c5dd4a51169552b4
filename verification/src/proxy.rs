//! The per-request dispatcher: turns a backend fetch outcome into the
//! proxy-facing response — fetch, filter, serialize, respond — mapping every
//! backend fault to a bad-gateway response and a missed deadline to a
//! gateway timeout.

use crate::config::ConfigLabelFilter;
use crate::exposition::{parse_document, serialize_snapshot, spec_parse_document, spec_serialize};
use crate::filter::{apply_filters, spec_apply, FilterState};
use crate::metrics::Snapshot;
use crate::text::{decimal_string, spec_decimal};
use vstd::prelude::*;

verus! {

/// A backend reply with a status the proxy refuses to forward verbatim.
#[derive(Debug)]
pub struct HttpError {
    pub status: u16,
    pub headers: Vec<(String, String)>,
    pub data: String,
}

/// A successfully fetched and parsed backend snapshot, with the backend's
/// response headers kept for pass-through.
pub struct ScrapeResult {
    pub headers: Vec<(String, String)>,
    pub series: Snapshot,
}

/// Why a scrape produced no snapshot: the backend answered with a non-200
/// status, the transport failed (connection or timeout), or the body was not
/// a well-formed exposition document.
#[derive(Debug)]
pub enum ScrapeError {
    Non200(HttpError),
    FetchError(String),
    ParseError,
}

/// Digests a backend reply: a non-200 status is a backend-level error
/// carrying the reply for diagnostics, and a 200 body must parse as an
/// exposition document.
pub fn process_scrape_response(status: u16, headers: Vec<(String, String)>, body: String) -> (r:
    Result<ScrapeResult, ScrapeError>)
    requires
        body@.len() < usize::MAX,
    ensures
        status != 200 ==> match r {
            Err(ScrapeError::Non200(e)) => e.status == status && e.data == body && e.headers
                == headers,
            _ => false,
        },
        status == 200 && spec_parse_document(body@) is None ==> r matches Err(
            ScrapeError::ParseError,
        ),
        status == 200 && spec_parse_document(body@) is Some ==> match r {
            Ok(sr) => Some(sr.series.deep_view()) == spec_parse_document(body@) && sr.headers
                == headers,
            _ => false,
        },
{
    if status != 200 {
        return Err(ScrapeError::Non200(HttpError { status, headers, data: body }));
    }
    match parse_document(body.as_str()) {
        Some(series) => Ok(ScrapeResult { headers, series }),
        None => Err(ScrapeError::ParseError),
    }
}

/// What the fetch layer hands the dispatcher: a reply, or a transport-level
/// failure (connection refused, timeout) described in plain text.
pub enum FetchOutcome {
    Fetched { status: u16, headers: Vec<(String, String)>, body: String },
    TransportFailure { detail: String },
}

/// One proxy-facing response.
pub struct HttpResponse {
    pub status: u16,
    pub content_type: String,
    pub body: String,
}

fn exposition_content_type() -> (r: String)
    ensures
        r@ == "text/plain; version=0.0.4"@,
{
    "text/plain; version=0.0.4".to_owned()
}

fn plain_content_type() -> (r: String)
    ensures
        r@ == "text/plain"@,
{
    "text/plain".to_owned()
}

/// The body a transport failure reports.
pub open spec fn spec_fetch_failure_body(detail: Seq<char>) -> Seq<char> {
    "fetch failed: "@ + detail
}

/// The body a non-200 backend reply reports: the backend status in decimal,
/// then the backend's own body.
pub open spec fn spec_backend_error_body(status: u16, data: Seq<char>) -> Seq<char> {
    "backend returned status "@ + spec_decimal(status as u64) + "\n"@ + data
}

/// Handles one request once the fetch layer has answered: a transport
/// failure, a non-200 backend reply and an unparseable body each yield a 502
/// response whose body names the failure; a parsed snapshot is filtered with
/// the route's rules and state and re-serialized under a 200.
pub fn handle_fetched(
    outcome: FetchOutcome,
    filters: &Vec<ConfigLabelFilter>,
    state: &mut FilterState,
    now_millis: u64,
) -> (r: HttpResponse)
    requires
        outcome matches FetchOutcome::Fetched { body, .. } ==> body@.len() < usize::MAX,
    ensures
        match outcome {
            FetchOutcome::TransportFailure { detail } => r.status == 502 && r.body@
                == spec_fetch_failure_body(detail@) && final(state).deep_view() == old(
                state,
            ).deep_view(),
            FetchOutcome::Fetched { status, headers, body } => {
                if status != 200 {
                    &&& r.status == 502
                    &&& r.body@ == spec_backend_error_body(status, body@)
                    &&& final(state).deep_view() == old(state).deep_view()
                } else if spec_parse_document(body@) is None {
                    &&& r.status == 502
                    &&& r.body@ == "unparseable metrics from backend"@
                    &&& final(state).deep_view() == old(state).deep_view()
                } else {
                    &&& r.status == 200
                    &&& r.content_type@ == "text/plain; version=0.0.4"@
                    &&& r.body@ == spec_serialize(
                        spec_apply(
                            spec_parse_document(body@)->0,
                            filters.deep_view(),
                            old(state).deep_view(),
                            now_millis,
                        ).0,
                    )
                    &&& final(state).deep_view() == spec_apply(
                        spec_parse_document(body@)->0,
                        filters.deep_view(),
                        old(state).deep_view(),
                        now_millis,
                    ).1
                }
            },
        },
{
    match outcome {
        FetchOutcome::TransportFailure { detail } => {
            let mut body = "fetch failed: ".to_owned();
            body.append(detail.as_str());
            HttpResponse { status: 502, content_type: plain_content_type(), body }
        },
        FetchOutcome::Fetched { status, headers, body } => {
            match process_scrape_response(status, headers, body) {
                Err(ScrapeError::Non200(e)) => {
                    let mut out = "backend returned status ".to_owned();
                    let code = decimal_string(e.status as u64);
                    out.append(code.as_str());
                    proof {
                        reveal_strlit("\n");
                    }
                    out.append("\n");
                    out.append(e.data.as_str());
                    proof {
                        assert(out@ =~= spec_backend_error_body(e.status, e.data@));
                    }
                    HttpResponse { status: 502, content_type: plain_content_type(), body: out }
                },
                Err(ScrapeError::FetchError(detail)) => {
                    let mut out = "fetch failed: ".to_owned();
                    out.append(detail.as_str());
                    HttpResponse { status: 502, content_type: plain_content_type(), body: out }
                },
                Err(ScrapeError::ParseError) => {
                    HttpResponse {
                        status: 502,
                        content_type: plain_content_type(),
                        body: "unparseable metrics from backend".to_owned(),
                    }
                },
                Ok(sr) => {
                    let filtered = apply_filters(sr.series, filters, state, now_millis);
                    let out = serialize_snapshot(&filtered);
                    HttpResponse { status: 200, content_type: exposition_content_type(), body: out }
                },
            }
        },
    }
}

/// Remaps the transport layer's request-timeout status to the gateway
/// timeout the proxy owes its clients; every other status passes through.
pub fn remap_timeout_status(status: u16) -> (r: u16)
    ensures
        r == (if status == 408 {
            504u16
        } else {
            status
        }),
{
    if status == 408 {
        504
    } else {
        status
    }
}

/// The response a request whose deadline elapsed receives.
pub fn gateway_timeout_response() -> (r: HttpResponse)
    ensures
        r.status == 504,
        r.body@ == "gateway timeout"@,
{
    HttpResponse {
        status: 504,
        content_type: plain_content_type(),
        body: "gateway timeout".to_owned(),
    }
}

/// Finishes one request under the route deadline: `None` (the deadline
/// elapsed before the dispatcher answered) becomes 504 Gateway Timeout —
/// distinct from the 502 used for backend faults — and an answer passes
/// through with its internal timeout status remapped.
pub fn finish_request(result: Option<HttpResponse>) -> (r: HttpResponse)
    ensures
        match result {
            None => r.status == 504 && r.body@ == "gateway timeout"@,
            Some(resp) => r.status == (if resp.status == 408 {
                504u16
            } else {
                resp.status
            }) && r.body == resp.body && r.content_type == resp.content_type,
        },
{
    match result {
        Some(resp) => {
            let status = remap_timeout_status(resp.status);
            HttpResponse { status, content_type: resp.content_type, body: resp.body }
        },
        None => gateway_timeout_response(),
    }
}

} // verus!
