//! The steps of an ETA query: the cache is consulted first; on a miss the
//! permission gate decides whether the page may be fetched; the page's reply
//! gives the ETA, which is then stored.
//!
//! Each step is a short, synchronous decision on the state it is given, so a
//! caller that guards the cache and the permission check with locks holds each lock only
//! for one step and never while a fetch is in flight.
use vstd::prelude::*;
use vstd::string::StringSliceAdditionalSpecFns;
use vstd::utf8::encode_utf8;
use crate::extract::{extract, extract_spec, ExtractError};
use crate::gate::{is_success, status_is_success, HttpResponse, PermissionGate};

verus! {

/// Why a query gave no ETA.
#[derive(Clone, Debug)]
pub enum QueryError {
    /// The page fetch failed in the transport.
    Transport(String),
    /// The page fetch came back with a status other than success.
    HttpStatus(u16),
    /// The permission gate refused crawling, for this reason.
    PermissionDenied(String),
    /// The page held no ETA for the route.
    Extract(ExtractError),
    /// A guard of the shared state could not be taken.
    LockFailure,
}

/// What a query does next, once the cache has missed.
#[derive(Clone, Debug)]
pub enum QueryStep {
    /// Fetch the permission document and record its verdict.
    FetchPermission,
    /// Fetch the page at this address.
    FetchPage(String),
    /// Stop with this error.
    Fail(QueryError),
}

/// The address of the tracker page for `route` at `stop`.
pub open spec fn eta_url_spec(stop: Seq<char>, route: Seq<char>) -> Seq<char> {
    "https://www.ctabustracker.com/bustime/wireless/html/eta.jsp?route="@ + route
        + "&direction=---&displaydirection=---&stop="@ + stop
        + "&findstop=on&selectedRtpiFeeds=&id="@ + stop
}

/// The address of the tracker page for `route` at `stop`.
pub fn eta_url(stop: &str, route: &str) -> (r: String)
    ensures
        r@ == eta_url_spec(stop@, route@),
{
    let mut url = String::from_str(
        "https://www.ctabustracker.com/bustime/wireless/html/eta.jsp?route=",
    );
    url.append(route);
    url.append("&direction=---&displaydirection=---&stop=");
    url.append(stop);
    url.append("&findstop=on&selectedRtpiFeeds=&id=");
    url.append(stop);
    url
}

/// The step after a cache miss, given the permission check: fetch the permission document
/// while unchecked, fetch the page once permitted, fail once denied.
pub fn next_step(gate: &PermissionGate, stop: &str, route: &str) -> (r: QueryStep)
    ensures
        match r {
            QueryStep::FetchPermission => gate@ == None::<Result<(), Seq<char>>>,
            QueryStep::FetchPage(url) => gate@ == Some(Ok::<(), Seq<char>>(()))
                && url@ == eta_url_spec(stop@, route@),
            QueryStep::Fail(QueryError::PermissionDenied(reason)) => gate@ == Some(
                Err::<(), Seq<char>>(reason@),
            ),
            QueryStep::Fail(_) => false,
        },
{
    match gate.verdict() {
        None => QueryStep::FetchPermission,
        Some(Ok(())) => QueryStep::FetchPage(eta_url(stop, route)),
        Some(Err(reason)) => QueryStep::Fail(QueryError::PermissionDenied(reason)),
    }
}

/// The ETA of `route` that a reply to the page fetch gives: a transport
/// failure or a status other than success is an error, as is a page without
/// an ETA for the route.
pub fn page_eta(reply: &Result<HttpResponse, String>, route: &str) -> (r: Result<i32, QueryError>)
    ensures
        match *reply {
            Err(e) => match r {
                Err(QueryError::Transport(m)) => m@ == e@,
                _ => false,
            },
            Ok(resp) => if !is_success(resp.status) {
                match r {
                    Err(QueryError::HttpStatus(c)) => c == resp.status,
                    _ => false,
                }
            } else {
                match extract_spec(encode_utf8(resp.body@), route.spec_bytes()) {
                    Ok(v) => r matches Ok(w) && w == v,
                    Err(x) => match r {
                        Err(QueryError::Extract(y)) => y == x,
                        _ => false,
                    },
                }
            },
        },
{
    match reply {
        Err(e) => Err(QueryError::Transport(e.clone())),
        Ok(resp) => {
            if !status_is_success(resp.status) {
                return Err(QueryError::HttpStatus(resp.status));
            }
            match extract(resp.body.as_str(), route) {
                Ok(v) => Ok(v),
                Err(x) => Err(QueryError::Extract(x)),
            }
        },
    }
}

} // verus!
