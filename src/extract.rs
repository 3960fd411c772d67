//! Reading an ETA out of a transit-tracker page.
//!
//! A page lists routes as labels `<strong class="larger">#7&nbsp;</strong>`.
//! After the label of the requested route, either an arriving-now marker
//! `<strong class="larger">DUE</strong>` or a minutes marker
//! `<strong class="larger">12&nbsp;MIN</strong>` gives the ETA. Only text
//! after the first label of the route counts.
use vstd::prelude::*;
use vstd::string::StringSliceAdditionalSpecFns;

verus! {

/// Why no ETA could be read from a page.
#[derive(Clone, Copy, Debug, PartialEq, Eq, Structural)]
pub enum ExtractError {
    /// No label of the requested route occurs on the page.
    RouteNotFound,
    /// The route's label occurs, but no arrival marker follows it.
    NoEtaFound,
    /// The minutes after the route's label do not fit in an `i32`.
    UnparseableEta,
}

pub open spec fn is_digit(b: u8) -> bool {
    48 <= b <= 57
}

pub open spec fn all_digits(d: Seq<u8>) -> bool {
    forall|i: int| 0 <= i < d.len() ==> is_digit(#[trigger] d[i])
}

/// `lit` occurs in `s` at position `i`.
pub open spec fn matches_at(s: Seq<u8>, i: int, lit: Seq<u8>) -> bool {
    0 <= i && i + lit.len() <= s.len() && s.subrange(i, i + lit.len()) == lit
}

pub open spec fn label_open() -> Seq<u8> {
    "<strong class=\"larger\">#".spec_bytes()
}

pub open spec fn label_close() -> Seq<u8> {
    "&nbsp;</strong>".spec_bytes()
}

pub open spec fn due_marker() -> Seq<u8> {
    "<strong class=\"larger\">DUE</strong>".spec_bytes()
}

pub open spec fn min_open() -> Seq<u8> {
    "<strong class=\"larger\">".spec_bytes()
}

pub open spec fn min_close() -> Seq<u8> {
    "&nbsp;MIN</strong>".spec_bytes()
}

/// The label of route `r` starts at `i` of `s`.
pub open spec fn route_label_at(s: Seq<u8>, i: int, r: Seq<u8>) -> bool {
    &&& r.len() > 0
    &&& all_digits(r)
    &&& matches_at(s, i, label_open())
    &&& matches_at(s, i + label_open().len(), r)
    &&& matches_at(s, i + label_open().len() + r.len(), label_close())
}

/// Where a label of route `r` that starts at `i` ends.
pub open spec fn label_end(i: int, r: Seq<u8>) -> int {
    i + label_open().len() + r.len() + label_close().len()
}

/// The first label of route `r` in `s` starts at `i`.
pub open spec fn is_first_label(s: Seq<u8>, r: Seq<u8>, i: int) -> bool {
    route_label_at(s, i, r) && forall|j: int| 0 <= j < i ==> !route_label_at(s, j, r)
}

/// The end of the run of digits of `s` that starts at `p`.
pub open spec fn digit_run_end(s: Seq<u8>, p: int) -> int
    decreases s.len() - p,
{
    if 0 <= p < s.len() && is_digit(s[p]) {
        digit_run_end(s, p + 1)
    } else {
        p
    }
}

/// A minutes marker starts at `j`: its opening tag, one or more digits,
/// then `&nbsp;MIN</strong>`.
pub open spec fn min_marker_at(s: Seq<u8>, j: int) -> bool {
    let p = j + min_open().len();
    &&& matches_at(s, j, min_open())
    &&& digit_run_end(s, p) > p
    &&& matches_at(s, digit_run_end(s, p), min_close())
}

/// The first minutes marker at or after `e` starts at `j`.
pub open spec fn is_first_min_marker(s: Seq<u8>, e: int, j: int) -> bool {
    e <= j && min_marker_at(s, j) && forall|k: int| e <= k < j ==> !min_marker_at(s, k)
}

/// The number that a string of decimal digits denotes.
pub open spec fn digits_value(d: Seq<u8>) -> nat
    decreases d.len(),
{
    if d.len() == 0 {
        0
    } else {
        digits_value(d.drop_last()) * 10 + (d.last() - 48) as nat
    }
}

/// The number that the minutes marker at `j` shows.
pub open spec fn min_marker_value(s: Seq<u8>, j: int) -> nat {
    let p = j + min_open().len();
    digits_value(s.subrange(p, digit_run_end(s, p)))
}

pub open spec fn has_due_after(s: Seq<u8>, e: int) -> bool {
    exists|j: int| e <= j && #[trigger] matches_at(s, j, due_marker())
}

/// The ETA that the text of `s` from `e` on gives: arriving now counts as one
/// minute and wins over any minutes marker; otherwise the first minutes marker.
pub open spec fn eta_after(s: Seq<u8>, e: int) -> Result<i32, ExtractError> {
    if has_due_after(s, e) {
        Ok(1)
    } else if exists|j: int| is_first_min_marker(s, e, j) {
        let v = min_marker_value(s, choose|j: int| is_first_min_marker(s, e, j));
        if v <= i32::MAX {
            Ok(v as i32)
        } else {
            Err(ExtractError::UnparseableEta)
        }
    } else {
        Err(ExtractError::NoEtaFound)
    }
}

/// The outcome of reading the ETA of route `r` from page `s`.
pub open spec fn extract_spec(s: Seq<u8>, r: Seq<u8>) -> Result<i32, ExtractError> {
    if exists|i: int| is_first_label(s, r, i) {
        eta_after(s, label_end(choose|i: int| is_first_label(s, r, i), r))
    } else {
        Err(ExtractError::RouteNotFound)
    }
}

fn is_digit_byte(b: u8) -> (r: bool)
    ensures
        r == is_digit(b),
{
    48 <= b && b <= 57
}

fn bytes_match_at(s: &[u8], i: usize, lit: &[u8]) -> (r: bool)
    ensures
        r == matches_at(s@, i as int, lit@),
{
    if i > s.len() || lit.len() > s.len() - i {
        return false;
    }
    let mut t: usize = 0;
    while t < lit.len()
        invariant
            i + lit.len() <= s.len(),
            t <= lit.len(),
            forall|u: int| 0 <= u < t ==> s@[i + u] == lit@[u],
        decreases lit.len() - t,
    {
        if s[i + t] != lit[t] {
            assert(s@.subrange(i as int, i + lit@.len())[t as int] != lit@[t as int]);
            return false;
        }
        t += 1;
    }
    assert(s@.subrange(i as int, i + lit@.len()) =~= lit@);
    true
}

fn all_digit_bytes(d: &[u8]) -> (r: bool)
    ensures
        r == all_digits(d@),
{
    let mut t: usize = 0;
    while t < d.len()
        invariant
            t <= d@.len(),
            forall|u: int| 0 <= u < t ==> is_digit(#[trigger] d@[u]),
        decreases d.len() - t,
    {
        if !is_digit_byte(d[t]) {
            return false;
        }
        t += 1;
    }
    true
}

/// Start and end of the first label of route `r`.
fn first_route_label(s: &[u8], r: &[u8]) -> (res: Option<(usize, usize)>)
    ensures
        match res {
            Some((i, e)) => is_first_label(s@, r@, i as int) && e == label_end(i as int, r@),
            None => forall|i: int| !route_label_at(s@, i, r@),
        },
{
    let open = "<strong class=\"larger\">#".as_bytes();
    let close = "&nbsp;</strong>".as_bytes();
    if r.len() == 0 || !all_digit_bytes(r) {
        return None;
    }
    let mut i: usize = 0;
    while i < s.len()
        invariant
            i <= s@.len(),
            open@ == label_open(),
            close@ == label_close(),
            r@.len() > 0,
            all_digits(r@),
            forall|j: int| 0 <= j < i ==> !route_label_at(s@, j, r@),
        decreases s.len() - i,
    {
        if bytes_match_at(s, i, open) {
            let a = i + open.len();
            if bytes_match_at(s, a, r) {
                let b = a + r.len();
                if bytes_match_at(s, b, close) {
                    return Some((i, b + close.len()));
                }
            }
        }
        i += 1;
    }
    None
}

/// Whether an arriving-now marker occurs at or after `e`.
fn has_due_from(s: &[u8], e: usize) -> (r: bool)
    requires
        e <= s@.len(),
    ensures
        r == has_due_after(s@, e as int),
{
    let due = "<strong class=\"larger\">DUE</strong>".as_bytes();
    let mut i: usize = e;
    loop
        invariant
            e <= i <= s@.len(),
            due@ == due_marker(),
            forall|j: int| e <= j < i ==> !#[trigger] matches_at(s@, j, due_marker()),
        decreases s.len() - i,
    {
        if bytes_match_at(s, i, due) {
            return true;
        }
        if i == s.len() {
            return false;
        }
        i += 1;
    }
}

/// End of the run of digits that starts at `p`.
fn digit_run(s: &[u8], p: usize) -> (k: usize)
    requires
        p <= s@.len(),
    ensures
        k == digit_run_end(s@, p as int),
        p <= k <= s@.len(),
        forall|q: int| p <= q < k ==> is_digit(#[trigger] s@[q]),
{
    let mut k: usize = p;
    while k < s.len() && is_digit_byte(s[k])
        invariant
            p <= k <= s@.len(),
            digit_run_end(s@, k as int) == digit_run_end(s@, p as int),
            forall|q: int| p <= q < k ==> is_digit(#[trigger] s@[q]),
        decreases s.len() - k,
    {
        k += 1;
    }
    k
}

/// Start of the first minutes marker at or after `e`.
fn first_min_marker(s: &[u8], e: usize) -> (res: Option<usize>)
    requires
        e <= s@.len(),
    ensures
        match res {
            Some(j) => is_first_min_marker(s@, e as int, j as int),
            None => forall|j: int| e <= j ==> !min_marker_at(s@, j),
        },
{
    let open = "<strong class=\"larger\">".as_bytes();
    let close = "&nbsp;MIN</strong>".as_bytes();
    let mut i: usize = e;
    loop
        invariant
            e <= i <= s@.len(),
            open@ == min_open(),
            close@ == min_close(),
            forall|j: int| e <= j < i ==> !min_marker_at(s@, j),
        decreases s.len() - i,
    {
        if bytes_match_at(s, i, open) {
            let p = i + open.len();
            let k = digit_run(s, p);
            if k > p && bytes_match_at(s, k, close) {
                return Some(i);
            }
        }
        if i == s.len() {
            return None;
        }
        i += 1;
    }
}

/// The number that the digits `s[p..k]` denote, where it fits in an `i32`.
fn parse_digits(s: &[u8], p: usize, k: usize) -> (r: Option<i32>)
    requires
        p <= k <= s@.len(),
        forall|q: int| p <= q < k ==> is_digit(#[trigger] s@[q]),
    ensures
        r == (if digits_value(s@.subrange(p as int, k as int)) <= i32::MAX {
            Some(digits_value(s@.subrange(p as int, k as int)) as i32)
        } else {
            None::<i32>
        }),
{
    let cap: u64 = 2147483648;
    let mut acc: u64 = 0;
    let mut idx: usize = p;
    assert(s@.subrange(p as int, p as int) =~= Seq::<u8>::empty());
    while idx < k
        invariant
            p <= idx <= k <= s@.len(),
            cap == 2147483648,
            forall|q: int| p <= q < k ==> is_digit(#[trigger] s@[q]),
            acc <= cap,
            digits_value(s@.subrange(p as int, idx as int)) < cap ==> acc == digits_value(
                s@.subrange(p as int, idx as int),
            ),
            digits_value(s@.subrange(p as int, idx as int)) >= cap ==> acc == cap,
        decreases k - idx,
    {
        let d = s[idx];
        assert(is_digit(s@[idx as int]));
        let next: u64 = acc * 10 + (d - 48) as u64;
        proof {
            let sub = s@.subrange(p as int, idx + 1);
            assert(sub.drop_last() =~= s@.subrange(p as int, idx as int));
            assert(sub.last() == d);
        }
        acc = if next > cap {
            cap
        } else {
            next
        };
        idx += 1;
    }
    if acc < cap {
        Some(acc as i32)
    } else {
        None
    }
}

/// The ETA that the text from `e` on gives.
fn eta_from(s: &[u8], e: usize) -> (r: Result<i32, ExtractError>)
    requires
        e <= s@.len(),
    ensures
        r == eta_after(s@, e as int),
{
    if has_due_from(s, e) {
        return Ok(1);
    }
    match first_min_marker(s, e) {
        None => Err(ExtractError::NoEtaFound),
        Some(j) => {
            let open = "<strong class=\"larger\">".as_bytes();
            assert(open@ == min_open());
            assert(matches_at(s@, j as int, min_open()));
            assert(s@.len() == s.len());
            let p = j + open.len();
            let k = digit_run(s, p);
            proof {
                let c = choose|c: int| is_first_min_marker(s@, e as int, c);
                assert(is_first_min_marker(s@, e as int, c));
                assert(c == j);
            }
            match parse_digits(s, p, k) {
                Some(v) => Ok(v),
                None => Err(ExtractError::UnparseableEta),
            }
        }
    }
}

/// Reads the ETA, in minutes, of `route` from the text of a tracker page.
///
/// Only the first label of the route counts, and only markers after it:
/// an arriving-now marker gives 1, else the first minutes marker gives its
/// number.
pub fn extract(page: &str, route: &str) -> (r: Result<i32, ExtractError>)
    ensures
        r == extract_spec(page.spec_bytes(), route.spec_bytes()),
{
    let s = page.as_bytes();
    let rt = route.as_bytes();
    match first_route_label(s, rt) {
        None => Err(ExtractError::RouteNotFound),
        Some((i, e)) => {
            proof {
                let c = choose|c: int| is_first_label(s@, rt@, c);
                assert(is_first_label(s@, rt@, c));
                assert(c == i);
            }
            eta_from(s, e)
        }
    }
}

} // verus!
