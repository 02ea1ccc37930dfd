//! Moving between JSON documents and the core's model: parsing an
//! inbound query, the partial parse single-target routing needs,
//! parsing a backend response leniently, and serializing outbound
//! payloads and the merged envelope.
//!
//! JSON values are opaque, but every serde_json call involved is a
//! fixed function of its arguments and carries a name in `json`; the
//! contracts here are exact over those names: what each function
//! returns, and exactly when it fails, for every input.

use vstd::prelude::*;

use crate::errors::GatewayError;
use crate::json::{
    entries_view, json_as_array, json_as_string, json_bytes_of, json_clone, json_elements,
    json_entries, json_field, json_get, json_make_array, json_make_object, json_make_string,
    json_object_entries, json_parse, json_string_of, json_text, json_to_bytes, json_value_of,
    json_wellformed, json_array_of, json_object_of,
};
use crate::model::{tags_view, results_view, Metric, MetricResult, MetricResultV, QueryRequest, TagEntry, TagEntryV};
use crate::text::{opt_text, str_eq};

verus! {

/// The `name` field's text of a metric or result object, if any.
pub open spec fn spec_name_of(v: serde_json::Value) -> Option<Seq<char>> {
    match json_field(v, "name"@) {
        Some(nv) => json_text(nv),
        None => None,
    }
}

/// The elements of an array-valued field; empty when the field is
/// absent or not an array.
pub open spec fn spec_field_elements(v: serde_json::Value, key: Seq<char>) -> Seq<
    serde_json::Value,
> {
    match json_field(v, key) {
        Some(f) => match json_elements(f) {
            Some(a) => a,
            None => Seq::empty(),
        },
        None => Seq::empty(),
    }
}

/// The top-level entries with every `metrics` entry removed, in order.
pub open spec fn spec_strip_metrics(es: Seq<(Seq<char>, serde_json::Value)>) -> Seq<
    (Seq<char>, serde_json::Value),
>
    decreases es.len(),
{
    if es.len() == 0 {
        Seq::empty()
    } else {
        let rest = spec_strip_metrics(es.drop_last());
        if es.last().0 == "metrics"@ {
            rest
        } else {
            rest.push(es.last())
        }
    }
}

/// The value of the last `metrics` entry among `es`, if any.
pub open spec fn spec_metrics_value(es: Seq<(Seq<char>, serde_json::Value)>) -> Option<
    serde_json::Value,
>
    decreases es.len(),
{
    if es.len() == 0 {
        None
    } else if es.last().0 == "metrics"@ {
        Some(es.last().1)
    } else {
        spec_metrics_value(es.drop_last())
    }
}

/// What a split-mode body parses to: its non-metrics entries and its
/// metric objects — or nothing, exactly when the body is not a JSON
/// object holding a non-empty `metrics` array.
pub open spec fn spec_parsed_request(bytes: Seq<u8>) -> Option<
    (Seq<(Seq<char>, serde_json::Value)>, Seq<serde_json::Value>),
> {
    if !json_wellformed(bytes) {
        None
    } else {
        match json_entries(json_value_of(bytes)) {
            None => None,
            Some(es) => match spec_metrics_value(es) {
                None => None,
                Some(mv) => match json_elements(mv) {
                    None => None,
                    Some(arr) => if arr.len() == 0 {
                        None
                    } else {
                        Some((spec_strip_metrics(es), arr))
                    },
                },
            },
        }
    }
}

/// Parse a split-mode query: succeeds exactly when the body is a JSON
/// object with a non-empty `metrics` array, returning every other
/// top-level entry in order and each metric object with its extracted
/// name; fails with a client error otherwise.
pub fn parse_query_request(bytes: &[u8]) -> (r: Result<QueryRequest, GatewayError>)
    ensures
        r is Err ==> r->Err_0 == GatewayError::BadRequest,
        match spec_parsed_request(bytes@) {
            None => r is Err,
            Some(pr) => r is Ok && {
                let q = r->Ok_0;
                &&& entries_view(q.extra@) == pr.0
                &&& q.metrics@.len() == pr.1.len()
                &&& forall|i: int|
                    0 <= i < pr.1.len() ==> (#[trigger] q.metrics@[i]).raw == pr.1[i] && opt_text(
                        q.metrics@[i].name,
                    ) == spec_name_of(pr.1[i])
            },
        },
{
    let v = match json_parse(bytes) {
        Ok(v) => v,
        Err(_) => {
            return Err(GatewayError::BadRequest);
        },
    };
    let entries = match json_object_entries(&v) {
        Some(e) => e,
        None => {
            return Err(GatewayError::BadRequest);
        },
    };
    let ghost es = entries_view(entries@);
    let n = entries.len();
    let mut extra: Vec<(String, serde_json::Value)> = Vec::new();
    let mut metrics_val: Option<serde_json::Value> = None;
    let mut i: usize = 0;
    proof {
        assert(es.subrange(0, 0) =~= Seq::<(Seq<char>, serde_json::Value)>::empty());
    }
    while i < n
        invariant
            n == entries@.len(),
            i <= n,
            es == entries_view(entries@),
            entries_view(extra@) == spec_strip_metrics(es.subrange(0, i as int)),
            metrics_val == spec_metrics_value(es.subrange(0, i as int)),
        decreases n - i,
    {
        proof {
            assert(es.subrange(0, i as int + 1).drop_last() =~= es.subrange(0, i as int));
            assert(es.subrange(0, i as int + 1).last() == es[i as int]);
            assert(es[i as int] == (entries@[i as int].0@, entries@[i as int].1));
        }
        if str_eq(entries[i].0.as_str(), "metrics") {
            metrics_val = Some(json_clone(&entries[i].1));
        } else {
            extra.push((entries[i].0.clone(), json_clone(&entries[i].1)));
            proof {
                assert(entries_view(extra@) =~= spec_strip_metrics(
                    es.subrange(0, i as int + 1),
                ));
            }
        }
        i = i + 1;
    }
    proof {
        assert(es.subrange(0, n as int) =~= es);
    }
    let mv = match metrics_val {
        Some(m) => m,
        None => {
            return Err(GatewayError::BadRequest);
        },
    };
    let arr = match json_as_array(&mv) {
        Some(a) => a,
        None => {
            return Err(GatewayError::BadRequest);
        },
    };
    if arr.len() == 0 {
        return Err(GatewayError::BadRequest);
    }
    let m = arr.len();
    let mut metrics: Vec<Metric> = Vec::new();
    let mut j: usize = 0;
    while j < m
        invariant
            m == arr@.len(),
            j <= m,
            metrics@.len() == j,
            forall|t: int|
                0 <= t < j ==> (#[trigger] metrics@[t]).raw == arr@[t] && opt_text(
                    metrics@[t].name,
                ) == spec_name_of(arr@[t]),
        decreases m - j,
    {
        let raw = json_clone(&arr[j]);
        let name = match json_get(&arr[j], "name") {
            Some(nv) => json_as_string(nv),
            None => None,
        };
        metrics.push(Metric { name, raw });
        j = j + 1;
    }
    Ok(QueryRequest { extra, metrics })
}

/// The single-target fallback routing key a body yields: the name of
/// its first metric — or nothing, exactly when the body is not a JSON
/// document whose `metrics` field is a non-empty array of objects
/// whose first element carries a textual name.
pub open spec fn spec_first_metric_name(bytes: Seq<u8>) -> Option<Seq<char>> {
    if !json_wellformed(bytes) {
        None
    } else {
        match json_field(json_value_of(bytes), "metrics"@) {
            None => None,
            Some(mf) => match json_elements(mf) {
                None => None,
                Some(arr) => if arr.len() == 0 {
                    None
                } else {
                    spec_name_of(arr[0])
                },
            },
        }
    }
}

/// The minimal partial parse single-target routing falls back to when
/// no routing header is present: succeeds exactly when the body yields
/// a first-metric name, and returns exactly that name; fails with a
/// client error otherwise.
pub fn parse_first_metric_name(bytes: &[u8]) -> (r: Result<String, GatewayError>)
    ensures
        r is Err ==> r->Err_0 == GatewayError::BadRequest,
        match spec_first_metric_name(bytes@) {
            None => r is Err,
            Some(n) => r is Ok && r->Ok_0@ == n,
        },
{
    let v = match json_parse(bytes) {
        Ok(v) => v,
        Err(_) => {
            return Err(GatewayError::BadRequest);
        },
    };
    let metrics = match json_get(&v, "metrics") {
        Some(m) => m,
        None => {
            return Err(GatewayError::BadRequest);
        },
    };
    let arr = match json_as_array(metrics) {
        Some(a) => a,
        None => {
            return Err(GatewayError::BadRequest);
        },
    };
    if arr.len() == 0 {
        return Err(GatewayError::BadRequest);
    }
    let namev = match json_get(&arr[0], "name") {
        Some(n) => n,
        None => {
            return Err(GatewayError::BadRequest);
        },
    };
    match json_as_string(namev) {
        Some(s) => Ok(s),
        None => Err(GatewayError::BadRequest),
    }
}

/// The string values among an array's elements, in order.
pub open spec fn spec_tag_strings(elems: Seq<serde_json::Value>) -> Seq<Seq<char>>
    decreases elems.len(),
{
    if elems.len() == 0 {
        Seq::empty()
    } else {
        let rest = spec_tag_strings(elems.drop_last());
        match json_text(elems.last()) {
            Some(s) => rest.push(s),
            None => rest,
        }
    }
}

/// The tag entries an object's entry list contributes: entries whose
/// values are arrays, keeping their string elements in order.
pub open spec fn spec_tag_entries(entries: Seq<(Seq<char>, serde_json::Value)>) -> Seq<TagEntryV>
    decreases entries.len(),
{
    if entries.len() == 0 {
        Seq::empty()
    } else {
        let rest = spec_tag_entries(entries.drop_last());
        match json_elements(entries.last().1) {
            Some(a) => rest.push(TagEntryV { key: entries.last().0, values: spec_tag_strings(a) }),
            None => rest,
        }
    }
}

/// The tags of one parsed result object: its `tags` object's entries,
/// empty when that field is absent or not an object.
pub open spec fn spec_tags_of(rv: serde_json::Value) -> Seq<TagEntryV> {
    match json_field(rv, "tags"@) {
        Some(t) => match json_entries(t) {
            Some(e) => spec_tag_entries(e),
            None => Seq::empty(),
        },
        None => Seq::empty(),
    }
}

/// The model of one named result object.
pub open spec fn spec_result_of(rv: serde_json::Value) -> MetricResultV {
    MetricResultV {
        name: match spec_name_of(rv) {
            Some(n) => n,
            None => Seq::empty(),
        },
        tags: spec_tags_of(rv),
        values: spec_field_elements(rv, "values"@),
    }
}

/// The named entries of one `results` array, in order.
pub open spec fn spec_results_list(rvs: Seq<serde_json::Value>) -> Seq<MetricResultV>
    decreases rvs.len(),
{
    if rvs.len() == 0 {
        Seq::empty()
    } else {
        let rest = spec_results_list(rvs.drop_last());
        if spec_name_of(rvs.last()) is Some {
            rest.push(spec_result_of(rvs.last()))
        } else {
            rest
        }
    }
}

/// Every named entry under the queries' `results` lists, flattened in
/// document order.
pub open spec fn spec_queries_results(qs: Seq<serde_json::Value>) -> Seq<MetricResultV>
    decreases qs.len(),
{
    if qs.len() == 0 {
        Seq::empty()
    } else {
        spec_queries_results(qs.drop_last()) + spec_results_list(
            spec_field_elements(qs.last(), "results"@),
        )
    }
}

/// What one backend response contributes to the merge.
pub open spec fn spec_response_results(doc: serde_json::Value) -> Seq<MetricResultV> {
    spec_queries_results(spec_field_elements(doc, "queries"@))
}

/// The string values under one tag entry's array value.
fn extract_tag_values(arr: &Vec<serde_json::Value>) -> (vals: Vec<String>)
    ensures
        vals@.map_values(|s: String| s@) == spec_tag_strings(arr@),
{
    let n = arr.len();
    let mut vals: Vec<String> = Vec::new();
    proof {
        assert(arr@.subrange(0, 0) =~= Seq::<serde_json::Value>::empty());
        assert(vals@.map_values(|s: String| s@) =~= spec_tag_strings(arr@.subrange(0, 0)));
    }
    let mut i: usize = 0;
    while i < n
        invariant
            n == arr@.len(),
            i <= n,
            vals@.map_values(|s: String| s@) == spec_tag_strings(arr@.subrange(0, i as int)),
        decreases n - i,
    {
        proof {
            assert(arr@.subrange(0, i as int + 1).drop_last() =~= arr@.subrange(0, i as int));
            assert(arr@.subrange(0, i as int + 1).last() == arr@[i as int]);
        }
        match json_as_string(&arr[i]) {
            Some(s) => {
                vals.push(s);
                proof {
                    assert(vals@.map_values(|s: String| s@) =~= spec_tag_strings(
                        arr@.subrange(0, i as int + 1),
                    ));
                }
            },
            None => {},
        }
        i = i + 1;
    }
    proof {
        assert(arr@.subrange(0, n as int) =~= arr@);
    }
    vals
}

/// The tag entries of one parsed result, in the object's iteration
/// order; tag values that are not arrays, and elements that are not
/// strings, contribute nothing.
fn extract_tags(res: &serde_json::Value) -> (tags: Vec<TagEntry>)
    ensures
        tags_view(tags@) == spec_tags_of(*res),
{
    let entries = match json_get(res, "tags") {
        Some(t) => match json_object_entries(t) {
            Some(e) => e,
            None => Vec::new(),
        },
        None => Vec::new(),
    };
    let ghost ev = entries_view(entries@);
    proof {
        assert(match json_field(*res, "tags"@) {
            Some(t) => match json_entries(t) {
                Some(e) => spec_tags_of(*res) == spec_tag_entries(e) && e == ev,
                None => spec_tags_of(*res) =~= Seq::<TagEntryV>::empty() && ev.len() == 0,
            },
            None => spec_tags_of(*res) =~= Seq::<TagEntryV>::empty() && ev.len() == 0,
        });
        assert(ev.subrange(0, 0) =~= Seq::<(Seq<char>, serde_json::Value)>::empty());
    }
    let n = entries.len();
    let mut tags: Vec<TagEntry> = Vec::new();
    let mut i: usize = 0;
    while i < n
        invariant
            n == entries@.len(),
            i <= n,
            ev == entries_view(entries@),
            tags_view(tags@) == spec_tag_entries(ev.subrange(0, i as int)),
        decreases n - i,
    {
        proof {
            assert(ev.subrange(0, i as int + 1).drop_last() =~= ev.subrange(0, i as int));
            assert(ev.subrange(0, i as int + 1).last() == ev[i as int]);
            assert(ev[i as int] == (entries@[i as int].0@, entries@[i as int].1));
        }
        match json_as_array(&entries[i].1) {
            Some(arr) => {
                let vals = extract_tag_values(&arr);
                tags.push(TagEntry { key: entries[i].0.clone(), values: vals });
                proof {
                    assert(tags_view(tags@) =~= spec_tag_entries(ev.subrange(0, i as int + 1)));
                }
            },
            None => {},
        }
        i = i + 1;
    }
    proof {
        assert(ev.subrange(0, n as int) =~= ev);
        assert(tags_view(tags@) =~= spec_tags_of(*res));
    }
    tags
}

/// The datapoints of one parsed result, opaque to the core; empty when
/// the `values` field is absent or not an array.
fn extract_values(res: &serde_json::Value) -> (vals: Vec<serde_json::Value>)
    ensures
        vals@ == spec_field_elements(*res, "values"@),
{
    match json_get(res, "values") {
        Some(v) => match json_as_array(v) {
            Some(a) => a,
            None => {
                let empty: Vec<serde_json::Value> = Vec::new();
                proof {
                    assert(empty@ =~= spec_field_elements(*res, "values"@));
                }
                empty
            },
        },
        None => {
            let empty: Vec<serde_json::Value> = Vec::new();
            proof {
                assert(empty@ =~= spec_field_elements(*res, "values"@));
            }
            empty
        },
    }
}

/// Parse one backend response leniently: an unparsable body yields
/// `None` (the backend then contributes nothing to the merge); a
/// parsed body yields exactly the named entries under
/// `queries[*].results`, flattened in document order. Entries without
/// a textual name are skipped, as are missing or oddly-shaped
/// `queries`, `results`, `tags` or `values` fields.
pub fn parse_backend_results(bytes: &[u8]) -> (r: Option<Vec<MetricResult>>)
    ensures
        r is Some <==> json_wellformed(bytes@),
        r is Some ==> results_view(r->0@) == spec_response_results(json_value_of(bytes@)),
{
    let v = match json_parse(bytes) {
        Ok(v) => v,
        Err(_) => {
            return None;
        },
    };
    let qarr = match json_get(&v, "queries") {
        Some(q) => match json_as_array(q) {
            Some(a) => a,
            None => Vec::new(),
        },
        None => Vec::new(),
    };
    let ghost qs = qarr@;
    proof {
        assert(qs =~= spec_field_elements(v, "queries"@));
        assert(qs.subrange(0, 0) =~= Seq::<serde_json::Value>::empty());
    }
    let mut flat: Vec<MetricResult> = Vec::new();
    let nq = qarr.len();
    let mut qi: usize = 0;
    while qi < nq
        invariant
            nq == qarr@.len(),
            qi <= nq,
            qs == qarr@,
            qs == spec_field_elements(v, "queries"@),
            results_view(flat@) == spec_queries_results(qs.subrange(0, qi as int)),
        decreases nq - qi,
    {
        proof {
            assert(qs.subrange(0, qi as int + 1).drop_last() =~= qs.subrange(0, qi as int));
            assert(qs.subrange(0, qi as int + 1).last() == qs[qi as int]);
        }
        let rarr = match json_get(&qarr[qi], "results") {
            Some(rs) => match json_as_array(rs) {
                Some(a) => a,
                None => Vec::new(),
            },
            None => Vec::new(),
        };
        let ghost rv = rarr@;
        proof {
            assert(rv =~= spec_field_elements(qs[qi as int], "results"@));
            assert(rv.subrange(0, 0) =~= Seq::<serde_json::Value>::empty());
            assert(results_view(flat@) + spec_results_list(rv.subrange(0, 0)) =~= results_view(
                flat@,
            ));
        }
        let ghost before = results_view(flat@);
        let nr = rarr.len();
        let mut ri: usize = 0;
        while ri < nr
            invariant
                nr == rarr@.len(),
                ri <= nr,
                rv == rarr@,
                before == spec_queries_results(qs.subrange(0, qi as int)),
                results_view(flat@) == before + spec_results_list(rv.subrange(0, ri as int)),
            decreases nr - ri,
        {
            proof {
                assert(rv.subrange(0, ri as int + 1).drop_last() =~= rv.subrange(0, ri as int));
                assert(rv.subrange(0, ri as int + 1).last() == rv[ri as int]);
            }
            let name = match json_get(&rarr[ri], "name") {
                Some(nv) => json_as_string(nv),
                None => None,
            };
            match name {
                Some(nm) => {
                    let tags = extract_tags(&rarr[ri]);
                    let values = extract_values(&rarr[ri]);
                    let ghost prevf = flat@;
                    let ghost prevv = results_view(flat@);
                    flat.push(MetricResult { name: nm, tags, values });
                    proof {
                        assert(spec_name_of(rv[ri as int]) is Some);
                        assert(flat@.last()@ == spec_result_of(rv[ri as int]));
                        assert(spec_results_list(rv.subrange(0, ri as int + 1))
                            == spec_results_list(rv.subrange(0, ri as int)).push(
                            spec_result_of(rv[ri as int]),
                        ));
                        assert forall|j: int| 0 <= j < prevv.len() implies results_view(
                            flat@,
                        )[j] == prevv[j] by {
                            assert(flat@[j] == prevf[j]);
                            assert(results_view(flat@)[j] == flat@[j]@);
                            assert(prevv[j] == prevf[j]@);
                        }
                        assert(results_view(flat@).len() == prevv.len() + 1);
                        assert(results_view(flat@).last() == flat@.last()@);
                        assert(results_view(flat@) =~= prevv.push(
                            spec_result_of(rv[ri as int]),
                        ));
                        assert(results_view(flat@) =~= before + spec_results_list(
                            rv.subrange(0, ri as int + 1),
                        ));
                    }
                },
                None => {
                    proof {
                        assert(spec_name_of(rv[ri as int]) is None);
                    }
                },
            }
            ri = ri + 1;
        }
        proof {
            assert(rv.subrange(0, nr as int) =~= rv);
            assert(results_view(flat@) =~= spec_queries_results(qs.subrange(0, qi as int + 1)));
        }
        qi = qi + 1;
    }
    proof {
        assert(qs.subrange(0, nq as int) =~= qs);
    }
    Some(flat)
}

/// Serialize an outbound payload assembled as object entries: always
/// succeeds — a JSON value cannot fail to serialize — and the bytes
/// are exactly the serialization of the object those entries collect
/// into. The error arm is kept for the gateway's error taxonomy and is
/// proved unreachable.
pub fn serialize_object(entries: Vec<(String, serde_json::Value)>) -> (r: Result<
    Vec<u8>,
    GatewayError,
>)
    ensures
        r is Ok,
        r->Ok_0@ == json_bytes_of(json_object_of(entries_view(entries@))),
{
    let v = json_make_object(entries);
    match json_to_bytes(&v) {
        Ok(b) => Ok(b),
        Err(_) => Err(GatewayError::Internal),
    }
}

/// The JSON value one merged result serializes to.
pub open spec fn spec_result_value(m: MetricResultV) -> serde_json::Value {
    json_object_of(
        seq![
            ("name"@, json_string_of(m.name)),
            (
                "tags"@,
                json_object_of(
                    m.tags.map_values(
                        |t: TagEntryV|
                            (
                                t.key,
                                json_array_of(
                                    t.values.map_values(|s: Seq<char>| json_string_of(s)),
                                ),
                            ),
                    ),
                ),
            ),
            ("values"@, json_array_of(m.values)),
        ],
    )
}

/// The response envelope a merged result list serializes to: one
/// `queries` entry whose `results` list is the given one, in order.
pub open spec fn spec_envelope_value(results: Seq<MetricResultV>) -> serde_json::Value {
    json_object_of(
        seq![
            (
                "queries"@,
                json_array_of(
                    seq![
                        json_object_of(
                            seq![
                                (
                                    "results"@,
                                    json_array_of(
                                        results.map_values(|m: MetricResultV| spec_result_value(m)),
                                    ),
                                ),
                            ],
                        ),
                    ],
                ),
            ),
        ],
    )
}

/// The serialized form of one merged result.
#[verifier::rlimit(80)]
fn result_to_value(m: &MetricResult) -> (v: serde_json::Value)
    ensures
        v == spec_result_value(m@),
{
    let ghost mv = m@;
    let nt = m.tags.len();
    let mut tag_fields: Vec<(String, serde_json::Value)> = Vec::new();
    let mut t: usize = 0;
    while t < nt
        invariant
            nt == m.tags@.len(),
            t <= nt,
            mv == m@,
            tag_fields@.len() == t,
            forall|j: int|
                0 <= j < t ==> (#[trigger] tag_fields@[j]).0@ == mv.tags[j].key
                    && tag_fields@[j].1 == json_array_of(
                    mv.tags[j].values.map_values((|s: Seq<char>| json_string_of(s))),
                ),
        decreases nt - t,
    {
        let entry = &m.tags[t];
        let nv = entry.values.len();
        let mut tvals: Vec<serde_json::Value> = Vec::new();
        proof {
            assert(entry@ == mv.tags[t as int]);
            assert(tvals@ =~= entry@.values.subrange(0, 0).map_values(
                |s: Seq<char>| json_string_of(s),
            ));
        }
        let mut k: usize = 0;
        while k < nv
            invariant
                nv == entry.values@.len(),
                k <= nv,
                entry@ == mv.tags[t as int],
                t < mv.tags.len(),
                tvals@ == entry@.values.subrange(0, k as int).map_values(
                    (|s: Seq<char>| json_string_of(s)),
                ),
            decreases nv - k,
        {
            tvals.push(json_make_string(entry.values[k].clone()));
            proof {
                assert(entry@.values[k as int] == entry.values@[k as int]@);
                assert(tvals@ =~= entry@.values.subrange(0, k as int + 1).map_values(
                    (|s: Seq<char>| json_string_of(s)),
                ));
            }
            k = k + 1;
        }
        proof {
            assert(entry@.values.subrange(0, nv as int) =~= entry@.values);
        }
        tag_fields.push((entry.key.clone(), json_make_array(tvals)));
        proof {
            assert(tag_fields@.last().0@ == entry@.key);
            assert(tag_fields@.last().1 == json_array_of(
                mv.tags[t as int].values.map_values((|s: Seq<char>| json_string_of(s))),
            ));
        }
        t = t + 1;
    }
    proof {
        assert(entries_view(tag_fields@) =~= mv.tags.map_values(
            (|t: TagEntryV|
                (t.key, json_array_of(t.values.map_values(|s: Seq<char>| json_string_of(s))))),
        ));
    }
    let tags_value = json_make_object(tag_fields);
    let nvals = m.values.len();
    let mut vals: Vec<serde_json::Value> = Vec::new();
    proof {
        assert(vals@ =~= mv.values.subrange(0, 0));
    }
    let mut w: usize = 0;
    while w < nvals
        invariant
            nvals == m.values@.len(),
            w <= nvals,
            mv == m@,
            vals@ == mv.values.subrange(0, w as int),
        decreases nvals - w,
    {
        vals.push(json_clone(&m.values[w]));
        proof {
            assert(vals@ =~= mv.values.subrange(0, w as int + 1));
        }
        w = w + 1;
    }
    proof {
        assert(mv.values.subrange(0, nvals as int) =~= mv.values);
    }
    let mut fields: Vec<(String, serde_json::Value)> = Vec::new();
    fields.push((String::from_str("name"), json_make_string(m.name.clone())));
    fields.push((String::from_str("tags"), tags_value));
    fields.push((String::from_str("values"), json_make_array(vals)));
    proof {
        assert(entries_view(fields@) =~= seq![
            ("name"@, json_string_of(mv.name)),
            (
                "tags"@,
                json_object_of(
                    mv.tags.map_values(
                        |t: TagEntryV|
                            (
                                t.key,
                                json_array_of(
                                    t.values.map_values(|s: Seq<char>| json_string_of(s)),
                                ),
                            ),
                    ),
                ),
            ),
            ("values"@, json_array_of(mv.values)),
        ]);
    }
    json_make_object(fields)
}

/// Serialize merged results into the response envelope: always
/// succeeds, and the bytes are exactly the serialization of one
/// `queries` entry whose `results` list is the given one, in order.
/// The error arm is kept for the gateway's error taxonomy and is
/// proved unreachable.
pub fn results_to_json(results: Vec<MetricResult>) -> (r: Result<Vec<u8>, GatewayError>)
    ensures
        r is Ok,
        r->Ok_0@ == json_bytes_of(spec_envelope_value(results_view(results@))),
{
    let ghost full = results_view(results@);
    let n = results.len();
    let mut out_results: Vec<serde_json::Value> = Vec::new();
    proof {
        assert(out_results@ =~= full.subrange(0, 0).map_values(
            |m: MetricResultV| spec_result_value(m),
        ));
    }
    let mut i: usize = 0;
    while i < n
        invariant
            n == results@.len(),
            i <= n,
            full == results_view(results@),
            out_results@ == full.subrange(0, i as int).map_values(
                (|m: MetricResultV| spec_result_value(m)),
            ),
        decreases n - i,
    {
        out_results.push(result_to_value(&results[i]));
        proof {
            assert(results@[i as int]@ == full[i as int]);
            assert(out_results@ =~= full.subrange(0, i as int + 1).map_values(
                (|m: MetricResultV| spec_result_value(m)),
            ));
        }
        i = i + 1;
    }
    proof {
        assert(full.subrange(0, n as int) =~= full);
    }
    let mut query_fields: Vec<(String, serde_json::Value)> = Vec::new();
    query_fields.push((String::from_str("results"), json_make_array(out_results)));
    proof {
        assert(entries_view(query_fields@) =~= seq![
            ("results"@, json_array_of(full.map_values(|m: MetricResultV| spec_result_value(m)))),
        ]);
    }
    let mut queries: Vec<serde_json::Value> = Vec::new();
    queries.push(json_make_object(query_fields));
    let mut top: Vec<(String, serde_json::Value)> = Vec::new();
    top.push((String::from_str("queries"), json_make_array(queries)));
    proof {
        assert(queries@ =~= seq![
            json_object_of(
                seq![
                    (
                        "results"@,
                        json_array_of(full.map_values(|m: MetricResultV| spec_result_value(m))),
                    ),
                ],
            ),
        ]);
        assert(entries_view(top@) =~= seq![
            (
                "queries"@,
                json_array_of(
                    seq![
                        json_object_of(
                            seq![
                                (
                                    "results"@,
                                    json_array_of(
                                        full.map_values(|m: MetricResultV| spec_result_value(m)),
                                    ),
                                ),
                            ],
                        ),
                    ],
                ),
            ),
        ]);
    }
    let v = json_make_object(top);
    match json_to_bytes(&v) {
        Ok(b) => Ok(b),
        Err(_) => Err(GatewayError::Internal),
    }
}

} // verus!
