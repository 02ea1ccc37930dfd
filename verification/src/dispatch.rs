//! Split-mode dispatch planning: one sub-request per matched backend,
//! each carrying every non-metrics top-level field of the original
//! request plus only that backend's assigned metrics.
//!
//! The plan is built before anything goes on the wire; issuing the k
//! calls concurrently under the shared permit pool, and tolerating
//! individual backend failures silently, is the caller's side of the
//! contract.

use vstd::prelude::*;

use crate::codec::serialize_object;
use crate::errors::GatewayError;
use crate::json::{
    entries_view, json_array_of, json_bytes_of, json_clone, json_make_array, json_object_of,
};
use crate::model::{Metric, QueryRequest};
use crate::registry::Registry;
use crate::router::{group_by_backend, route_metrics, spec_covered, spec_group_ok, spec_route_of};

verus! {

/// One planned outbound call of a split-mode request.
pub struct SubRequest {
    /// Index of the targeted backend in the registry.
    pub backend: usize,
    /// Positions, in the request's metric list, of the metrics this
    /// call carries, ascending.
    pub members: Vec<usize>,
    /// The serialized payload: every non-metrics top-level field of
    /// the original request, plus only the assigned metrics.
    pub body: Vec<u8>,
}

/// The raw metric objects at the given positions, in order.
pub fn gather_raw(metrics: &Vec<Metric>, members: &Vec<usize>) -> (vals: Vec<serde_json::Value>)
    requires
        forall|k: int| 0 <= k < members@.len() ==> (#[trigger] members@[k]) < metrics@.len(),
    ensures
        vals@.len() == members@.len(),
        forall|k: int|
            0 <= k < members@.len() ==> vals@[k] == metrics@[(#[trigger] members@[k]) as int].raw,
{
    let n = members.len();
    let mut vals: Vec<serde_json::Value> = Vec::new();
    let mut k: usize = 0;
    while k < n
        invariant
            n == members@.len(),
            k <= n,
            vals@.len() == k,
            forall|j: int| 0 <= j < members@.len() ==> (#[trigger] members@[j]) < metrics@.len(),
            forall|j: int|
                0 <= j < k ==> vals@[j] == metrics@[(#[trigger] members@[j]) as int].raw,
        decreases n - k,
    {
        let pos = members[k];
        vals.push(json_clone(&metrics[pos].raw));
        k = k + 1;
    }
    vals
}

/// The object entries of one sub-request payload: the original
/// request's non-metrics fields, unmodified and in order, followed by
/// a `metrics` field holding the assigned metric objects.
pub fn subrequest_entries(
    extra: &Vec<(String, serde_json::Value)>,
    metric_values: Vec<serde_json::Value>,
) -> (entries: Vec<(String, serde_json::Value)>)
    ensures
        entries_view(entries@) == entries_view(extra@).push(
            ("metrics"@, json_array_of(metric_values@)),
        ),
{
    let n = extra.len();
    let mut entries: Vec<(String, serde_json::Value)> = Vec::new();
    let mut i: usize = 0;
    while i < n
        invariant
            n == extra@.len(),
            i <= n,
            entries@.len() == i,
            forall|j: int|
                0 <= j < i ==> (#[trigger] entries@[j]).0@ == extra@[j].0@ && entries@[j].1
                    == extra@[j].1,
        decreases n - i,
    {
        entries.push((extra[i].0.clone(), json_clone(&extra[i].1)));
        i = i + 1;
    }
    entries.push((String::from_str("metrics"), json_make_array(metric_values)));
    proof {
        assert(entries_view(entries@) =~= entries_view(extra@).push(
            ("metrics"@, json_array_of(metric_values@)),
        ));
    }
    entries
}

/// The raw metric objects at the given positions of the request's
/// metric list, in order.
pub open spec fn spec_member_raws(metrics: Seq<Metric>, members: Seq<usize>) -> Seq<
    serde_json::Value,
> {
    members.map_values(|m: usize| metrics[m as int].raw)
}

/// The serialized payload a sub-request over `members` carries: the
/// request's non-metrics entries, then a `metrics` field holding
/// exactly the assigned metric objects.
pub open spec fn spec_subrequest_bytes(
    extra: Seq<(String, serde_json::Value)>,
    metrics: Seq<Metric>,
    members: Seq<usize>,
) -> Seq<u8> {
    json_bytes_of(
        json_object_of(
            entries_view(extra).push(("metrics"@, json_array_of(spec_member_raws(metrics, members)))),
        ),
    )
}

/// Whether metric position `i` is carried by some sub-request of
/// `plan`: one of the plan's calls targets `i`'s own backend and lists
/// position `i` among its members.
pub open spec fn spec_plan_covers(
    routes: Seq<crate::registry::BackendRoute>,
    metrics: Seq<Metric>,
    plan: Seq<SubRequest>,
    i: int,
) -> bool {
    exists|p: int, k: int|
        #![trigger plan[p].members@[k]]
        {
            &&& 0 <= p < plan.len()
            &&& 0 <= k < plan[p].members@.len()
            &&& (plan[p].members@[k] as int) == i
            &&& spec_route_of(routes, metrics[i]) == Some(plan[p].backend as int)
        }
}

/// Plan the fan-out of a split-mode request: route every metric, group
/// by backend, and build one serialized sub-request per matched
/// backend, in ascending backend order, each carrying exactly its
/// assigned metrics plus every non-metrics top-level field. The plan
/// fails — with a gateway error, and only then — exactly when some
/// metric is unroutable; nothing is dispatched on failure.
pub fn build_split_plan(req: &QueryRequest, reg: &Registry) -> (r: Result<
    Vec<SubRequest>,
    GatewayError,
>)
    ensures
        match r {
            Ok(plan) => {
                &&& forall|i: int|
                    0 <= i < req.metrics@.len() ==> spec_route_of(
                        reg.spec_routes(),
                        #[trigger] req.metrics@[i],
                    ) is Some
                &&& forall|p: int|
                    0 <= p < plan@.len() ==> ((#[trigger] plan@[p]).backend as int)
                        < reg.spec_routes().len()
                &&& forall|p1: int, p2: int|
                    0 <= p1 < p2 < plan@.len() ==> (#[trigger] plan@[p1]).backend < (
                    #[trigger] plan@[p2]).backend
                &&& forall|p: int| 0 <= p < plan@.len() ==> (#[trigger] plan@[p]).members@.len() > 0
                &&& forall|p: int, k: int|
                    0 <= p < plan@.len() && 0 <= k < plan@[p].members@.len() ==> {
                        let m = (#[trigger] plan@[p].members@[k]) as int;
                        &&& m < req.metrics@.len()
                        &&& spec_route_of(reg.spec_routes(), req.metrics@[m]) == Some(
                            plan@[p].backend as int,
                        )
                    }
                &&& forall|p: int, k1: int, k2: int|
                    0 <= p < plan@.len() && 0 <= k1 < k2 < plan@[p].members@.len() ==> (
                    #[trigger] plan@[p].members@[k1]) < (#[trigger] plan@[p].members@[k2])
                &&& forall|i: int|
                    0 <= i < req.metrics@.len() ==> spec_plan_covers(
                        reg.spec_routes(),
                        req.metrics@,
                        plan@,
                        i,
                    )
                &&& forall|p: int|
                    0 <= p < plan@.len() ==> (#[trigger] plan@[p]).body@ == spec_subrequest_bytes(
                        req.extra@,
                        req.metrics@,
                        plan@[p].members@,
                    )
            },
            Err(e) => {
                &&& e == GatewayError::BadGateway
                &&& exists|i: int|
                    0 <= i < req.metrics@.len() && spec_route_of(
                        reg.spec_routes(),
                        #[trigger] req.metrics@[i],
                    ) is None
            },
        },
        (exists|i: int|
            0 <= i < req.metrics@.len() && spec_route_of(
                reg.spec_routes(),
                #[trigger] req.metrics@[i],
            ) is None) ==> r == Result::<Vec<SubRequest>, GatewayError>::Err(
            GatewayError::BadGateway,
        ),
{
    let idx = match route_metrics(&req.metrics, reg) {
        Ok(idx) => idx,
        Err(e) => {
            return Err(e);
        },
    };
    let groups = group_by_backend(&idx, reg.len());
    let ghost idxv = idx@;
    let ghost groupsv = groups@;
    let mut plan: Vec<SubRequest> = Vec::new();
    let mut groups = groups;
    let ghost total = groupsv.len();
    while groups.len() > 0
        invariant
            idxv.len() == req.metrics@.len(),
            forall|i: int|
                0 <= i < req.metrics@.len() ==> spec_route_of(
                    reg.spec_routes(),
                    #[trigger] req.metrics@[i],
                ) == Some(idxv[i] as int),
            forall|i: int| 0 <= i < idxv.len() ==> (#[trigger] idxv[i]) < reg.spec_routes().len(),
            plan@.len() + groups@.len() == total,
            groupsv.len() == total,
            forall|j: int| 0 <= j < groups@.len() ==> (#[trigger] groups@[j]) == groupsv[plan@.len()
                + j],
            forall|g: int| 0 <= g < groupsv.len() ==> spec_group_ok(idxv, #[trigger] groupsv[g]),
            forall|g1: int, g2: int|
                0 <= g1 < g2 < groupsv.len() ==> (#[trigger] groupsv[g1]).backend < (
                #[trigger] groupsv[g2]).backend,
            forall|g: int|
                0 <= g < groupsv.len() ==> ((#[trigger] groupsv[g]).backend as int)
                    < reg.spec_routes().len(),
            forall|p: int|
                0 <= p < plan@.len() ==> (#[trigger] plan@[p]).backend == groupsv[p].backend
                    && plan@[p].members@ == groupsv[p].members@,
            forall|p: int|
                0 <= p < plan@.len() ==> (#[trigger] plan@[p]).body@ == spec_subrequest_bytes(
                    req.extra@,
                    req.metrics@,
                    plan@[p].members@,
                ),
        decreases groups@.len(),
    {
        let g = groups.remove(0);
        let raws = gather_raw(&req.metrics, &g.members);
        proof {
            assert(raws@ =~= spec_member_raws(req.metrics@, g.members@));
        }
        let entries = subrequest_entries(&req.extra, raws);
        let body = match serialize_object(entries) {
            Ok(b) => b,
            Err(e) => {
                return Err(e);
            },
        };
        plan.push(SubRequest { backend: g.backend, members: g.members, body });
    }
    proof {
        assert forall|i: int| 0 <= i < req.metrics@.len() implies spec_plan_covers(
            reg.spec_routes(),
            req.metrics@,
            plan@,
            i,
        ) by {
            vstd::std_specs::vec::axiom_spec_len(&idx);
            assert(idxv.len() <= usize::MAX);
            assert(((i as usize) as int) == i);
            assert(spec_covered(idxv, groupsv, i));
            let g = choose|g: int|
                0 <= g < groupsv.len() && (#[trigger] groupsv[g]).backend == idxv[i]
                    && groupsv[g].members@.contains(i as usize);
            assert(groupsv[g].members@.contains(i as usize));
            let k = choose|k: int|
                0 <= k < groupsv[g].members@.len() && groupsv[g].members@[k] == i as usize;
            assert(plan@[g].backend == groupsv[g].backend);
            assert(plan@[g].members@ == groupsv[g].members@);
            assert((plan@[g].members@[k] as int) == i);
            assert(spec_route_of(reg.spec_routes(), req.metrics@[i]) == Some(
                plan@[g].backend as int,
            ));
        }
    }
    Ok(plan)
}

} // verus!
