//! Header handling: the case-insensitive routing-header lookup used in
//! single-target mode, the host-header exclusion on outbound requests,
//! and the fixed hop-by-hop set stripped when relaying a response.

use vstd::prelude::*;

use crate::text::{eq_ignore_ascii_case, str_eq_ignore_ascii_case};

verus! {

/// Whether `name` is the routing header `X-METRICNAME`, matched
/// case-insensitively.
pub open spec fn is_metric_header(name: Seq<char>) -> bool {
    eq_ignore_ascii_case(name, "x-metricname"@)
}

/// Value of the first routing header among `headers`, if any.
pub fn find_metric_header(headers: &Vec<(String, String)>) -> (r: Option<String>)
    ensures
        match r {
            Some(v) => exists|i: int|
                {
                    &&& 0 <= i < headers@.len()
                    &&& is_metric_header(#[trigger] headers@[i].0@)
                    &&& v@ == headers@[i].1@
                    &&& forall|j: int| 0 <= j < i ==> !is_metric_header(#[trigger] headers@[j].0@)
                },
            None => forall|i: int|
                0 <= i < headers@.len() ==> !is_metric_header(#[trigger] headers@[i].0@),
        },
{
    let n = headers.len();
    let mut i: usize = 0;
    while i < n
        invariant
            n == headers@.len(),
            i <= n,
            forall|j: int| 0 <= j < i ==> !is_metric_header(#[trigger] headers@[j].0@),
        decreases n - i,
    {
        if str_eq_ignore_ascii_case(headers[i].0.as_str(), "x-metricname") {
            let v = headers[i].1.clone();
            proof {
                assert(is_metric_header(headers@[i as int].0@));
            }
            return Some(v);
        }
        i = i + 1;
    }
    None
}

/// Whether a response header is hop-by-hop (or the host header) and so
/// must not be forwarded when relaying a backend response.
pub open spec fn spec_hop_by_hop(name: Seq<char>) -> bool {
    ||| eq_ignore_ascii_case(name, "connection"@)
    ||| eq_ignore_ascii_case(name, "keep-alive"@)
    ||| eq_ignore_ascii_case(name, "proxy-authenticate"@)
    ||| eq_ignore_ascii_case(name, "proxy-authorization"@)
    ||| eq_ignore_ascii_case(name, "te"@)
    ||| eq_ignore_ascii_case(name, "trailers"@)
    ||| eq_ignore_ascii_case(name, "transfer-encoding"@)
    ||| eq_ignore_ascii_case(name, "upgrade"@)
    ||| eq_ignore_ascii_case(name, "host"@)
}

/// Case-insensitive membership test in the hop-by-hop set.
pub fn is_hop_by_hop(name: &str) -> (r: bool)
    ensures
        r == spec_hop_by_hop(name@),
{
    str_eq_ignore_ascii_case(name, "connection") || str_eq_ignore_ascii_case(name, "keep-alive")
        || str_eq_ignore_ascii_case(name, "proxy-authenticate") || str_eq_ignore_ascii_case(
        name,
        "proxy-authorization",
    ) || str_eq_ignore_ascii_case(name, "te") || str_eq_ignore_ascii_case(name, "trailers")
        || str_eq_ignore_ascii_case(name, "transfer-encoding") || str_eq_ignore_ascii_case(
        name,
        "upgrade",
    ) || str_eq_ignore_ascii_case(name, "host")
}

/// The headers of `s` whose names satisfy `keep`, in order.
pub open spec fn spec_filter_headers(
    s: Seq<(String, String)>,
    keep: spec_fn(Seq<char>) -> bool,
) -> Seq<(String, String)>
    decreases s.len(),
{
    if s.len() == 0 {
        Seq::empty()
    } else {
        let rest = spec_filter_headers(s.drop_last(), keep);
        if keep(s.last().0@) {
            rest.push(s.last())
        } else {
            rest
        }
    }
}

/// Strip the hop-by-hop set from a relayed response's headers,
/// preserving the order of everything else.
pub fn filter_response_headers(headers: &Vec<(String, String)>) -> (r: Vec<(String, String)>)
    ensures
        r@ == spec_filter_headers(headers@, (|n: Seq<char>| !spec_hop_by_hop(n))),
{
    let ghost keep = (|n: Seq<char>| !spec_hop_by_hop(n));
    let n = headers.len();
    let mut out: Vec<(String, String)> = Vec::new();
    let mut i: usize = 0;
    while i < n
        invariant
            n == headers@.len(),
            i <= n,
            out@ == spec_filter_headers(headers@.subrange(0, i as int), keep),
            keep == (|n: Seq<char>| !spec_hop_by_hop(n)),
        decreases n - i,
    {
        proof {
            assert(headers@.subrange(0, i as int + 1).drop_last() =~= headers@.subrange(
                0,
                i as int,
            ));
            assert(headers@.subrange(0, i as int + 1).last() == headers@[i as int]);
        }
        if !is_hop_by_hop(headers[i].0.as_str()) {
            out.push((headers[i].0.clone(), headers[i].1.clone()));
            proof {
                assert(out@ =~= spec_filter_headers(headers@.subrange(0, i as int + 1), keep));
            }
        }
        i = i + 1;
    }
    proof {
        assert(headers@.subrange(0, n as int) =~= headers@);
    }
    out
}

/// Whether an inbound request header may be copied onto an outbound
/// backend request; only the host header is excluded.
pub open spec fn spec_forwardable(name: Seq<char>) -> bool {
    !eq_ignore_ascii_case(name, "host"@)
}

/// The request headers to copy onto an outbound call: all of them in
/// order, except the host header.
pub fn filter_request_headers(headers: &Vec<(String, String)>) -> (r: Vec<(String, String)>)
    ensures
        r@ == spec_filter_headers(headers@, (|n: Seq<char>| spec_forwardable(n))),
{
    let ghost keep = (|n: Seq<char>| spec_forwardable(n));
    let n = headers.len();
    let mut out: Vec<(String, String)> = Vec::new();
    let mut i: usize = 0;
    while i < n
        invariant
            n == headers@.len(),
            i <= n,
            out@ == spec_filter_headers(headers@.subrange(0, i as int), keep),
            keep == (|n: Seq<char>| spec_forwardable(n)),
        decreases n - i,
    {
        proof {
            assert(headers@.subrange(0, i as int + 1).drop_last() =~= headers@.subrange(
                0,
                i as int,
            ));
            assert(headers@.subrange(0, i as int + 1).last() == headers@[i as int]);
        }
        if !str_eq_ignore_ascii_case(headers[i].0.as_str(), "host") {
            out.push((headers[i].0.clone(), headers[i].1.clone()));
            proof {
                assert(out@ =~= spec_filter_headers(headers@.subrange(0, i as int + 1), keep));
            }
        }
        i = i + 1;
    }
    proof {
        assert(headers@.subrange(0, n as int) =~= headers@);
    }
    out
}

/// The gateway's query endpoints accept POST and nothing else.
pub fn method_allowed(method: &str) -> (r: bool)
    ensures
        r == (method@ == "POST"@),
{
    crate::text::str_eq(method, "POST")
}

} // verus!
