//! The crawl-permission gate: the site's permission document is checked once,
//! and the verdict is then final for the life of the check.
//!
//! A document that cannot be fetched, or that comes back with a status other
//! than success, permits crawling. A successful reply permits it only when its
//! body is exactly the expected document.
//!
//! Two queries that both find it unchecked may both fetch the document;
//! the first verdict recorded stands, and checking twice is harmless.
use vstd::prelude::*;

verus! {

/// A reply of the transport: its status code and its body.
#[derive(Clone, Debug)]
pub struct HttpResponse {
    pub status: u16,
    pub body: String,
}

pub open spec fn is_success(status: u16) -> bool {
    200 <= status <= 299
}

/// Whether `status` is a success status (200 to 299).
pub fn status_is_success(status: u16) -> (r: bool)
    ensures
        r == is_success(status),
{
    200 <= status && status <= 299
}

/// The only permission document under which crawling is allowed.
pub open spec fn permission_document() -> Seq<char> {
    "User-agent: *\nDisallow:"@
}

/// Why crawling is refused when the document differs.
pub open spec fn denial_reason() -> Seq<char> {
    "Please check robots.txt manually"@
}

/// The verdict that a reply to the permission fetch gives: `Ok` permits,
/// `Err` carries the reason for the denial.
pub open spec fn verdict_spec(reply: Result<HttpResponse, String>) -> Result<(), Seq<char>> {
    match reply {
        Err(_) => Ok(()),
        Ok(resp) => if !is_success(resp.status) || resp.body@ == permission_document() {
            Ok(())
        } else {
            Err(denial_reason())
        },
    }
}

pub open spec fn result_view(r: Result<(), String>) -> Result<(), Seq<char>> {
    match r {
        Ok(()) => Ok(()),
        Err(e) => Err(e@),
    }
}

/// The verdict of a reply to the permission fetch.
pub fn verdict_for(reply: &Result<HttpResponse, String>) -> (r: Result<(), String>)
    ensures
        result_view(r) == verdict_spec(*reply),
{
    match reply {
        Err(_) => Ok(()),
        Ok(resp) => {
            if !status_is_success(resp.status) {
                return Ok(());
            }
            let expected = String::from_str("User-agent: *\nDisallow:");
            if resp.body == expected {
                Ok(())
            } else {
                Err(String::from_str("Please check robots.txt manually"))
            }
        },
    }
}

/// What a gate that holds `v` holds after it is given `reply`: an unchecked
/// gate takes the reply's verdict, a decided one keeps its own.
pub open spec fn record_spec(
    v: Option<Result<(), Seq<char>>>,
    reply: Result<HttpResponse, String>,
) -> Option<Result<(), Seq<char>>> {
    match v {
        None => Some(verdict_spec(reply)),
        Some(d) => Some(d),
    }
}

/// Remembers whether crawling is permitted; `None` until checked.
pub struct PermissionGate {
    verdict: Option<Result<(), String>>,
}

impl View for PermissionGate {
    type V = Option<Result<(), Seq<char>>>;

    closed spec fn view(&self) -> Self::V {
        match self.verdict {
            None => None,
            Some(r) => Some(result_view(r)),
        }
    }
}

fn clone_result(r: &Result<(), String>) -> (c: Result<(), String>)
    ensures
        result_view(c) == result_view(*r),
{
    match r {
        Ok(()) => Ok(()),
        Err(e) => Err(e.clone()),
    }
}

impl PermissionGate {
    /// A gate that has not checked yet.
    pub fn new() -> (r: PermissionGate)
        ensures
            r@ == None::<Result<(), Seq<char>>>,
    {
        PermissionGate { verdict: None }
    }

    /// The recorded verdict, or `None` while the document is still to be fetched.
    pub fn verdict(&self) -> (r: Option<Result<(), String>>)
        ensures
            match r {
                None => self@ == None::<Result<(), Seq<char>>>,
                Some(d) => self@ == Some(result_view(d)),
            },
    {
        match &self.verdict {
            None => None,
            Some(d) => Some(clone_result(d)),
        }
    }

    /// Records the verdict of `reply` unless one is recorded already, and
    /// returns the verdict that stands.
    pub fn record(&mut self, reply: &Result<HttpResponse, String>) -> (r: Result<(), String>)
        ensures
            final(self)@ == record_spec(old(self)@, *reply),
            final(self)@ == Some(result_view(r)),
    {
        match &self.verdict {
            Some(d) => clone_result(d),
            None => {
                let v = verdict_for(reply);
                self.verdict = Some(clone_result(&v));
                v
            },
        }
    }
}

/// Once a verdict is recorded, no later reply changes it: a denied gate stays
/// denied with the same reason, and a permitted one stays permitted.
pub proof fn lemma_verdict_is_final(
    v: Option<Result<(), Seq<char>>>,
    reply: Result<HttpResponse, String>,
)
    requires
        v is Some,
    ensures
        record_spec(v, reply) == v,
{
}

/// A permission fetch that fails in the transport permits crawling.
pub proof fn lemma_transport_failure_permits(e: String)
    ensures
        verdict_spec(Err(e)) == Ok::<(), Seq<char>>(()),
        record_spec(None, Err(e)) == Some(Ok::<(), Seq<char>>(())),
{
}

} // verus!
