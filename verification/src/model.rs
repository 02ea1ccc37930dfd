//! The core's view of a request and of a backend response. Only what
//! the routing and merging logic reads is modelled as plain values;
//! everything else rides along as opaque JSON.

use vstd::prelude::*;

use crate::text::opt_text;

verus! {

/// One metric of an inbound query: its name, if it has one, and the
/// full metric object as received, carried through untouched.
pub struct Metric {
    /// The metric's `name` field; a metric without a textual name never
    /// routes anywhere.
    pub name: Option<String>,
    /// The metric object exactly as it appeared in the request.
    pub raw: serde_json::Value,
}

impl Metric {
    /// View of the name as a character sequence.
    pub open spec fn spec_name(&self) -> Option<Seq<char>> {
        opt_text(self.name)
    }
}

/// An inbound query: the metrics list, plus every other top-level field
/// of the request object, in order, carried through untouched.
pub struct QueryRequest {
    /// Top-level fields other than `metrics`.
    pub extra: Vec<(String, serde_json::Value)>,
    /// The metrics in request order; never empty for a parsed request.
    pub metrics: Vec<Metric>,
}

/// One tag of a metric result: a key and its value strings in order.
pub struct TagEntry {
    pub key: String,
    pub values: Vec<String>,
}

/// Ghost view of a tag entry.
pub ghost struct TagEntryV {
    pub key: Seq<char>,
    pub values: Seq<Seq<char>>,
}

impl View for TagEntry {
    type V = TagEntryV;

    open spec fn view(&self) -> TagEntryV {
        TagEntryV { key: self.key@, values: self.values@.map_values(|s: String| s@) }
    }
}

/// One entry of a backend response's `results` list: the metric name,
/// its tags, and its datapoints (opaque to the core).
pub struct MetricResult {
    pub name: String,
    pub tags: Vec<TagEntry>,
    pub values: Vec<serde_json::Value>,
}

/// Ghost view of a metric result.
pub ghost struct MetricResultV {
    pub name: Seq<char>,
    pub tags: Seq<TagEntryV>,
    pub values: Seq<serde_json::Value>,
}

impl View for MetricResult {
    type V = MetricResultV;

    open spec fn view(&self) -> MetricResultV {
        MetricResultV {
            name: self.name@,
            tags: self.tags@.map_values(|t: TagEntry| t@),
            values: self.values@,
        }
    }
}

/// View of a result list.
pub open spec fn results_view(s: Seq<MetricResult>) -> Seq<MetricResultV> {
    s.map_values(|r: MetricResult| r@)
}

/// View of a tag list.
pub open spec fn tags_view(s: Seq<TagEntry>) -> Seq<TagEntryV> {
    s.map_values(|t: TagEntry| t@)
}

} // verus!
