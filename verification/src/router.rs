//! The router: decides, per operating mode, which backend(s) a request
//! goes to. In split mode every metric is routed independently and the
//! whole request fails before any dispatch if a single metric is
//! unroutable; in single-target mode one routing key picks one backend
//! for the verbatim payload.

use vstd::prelude::*;

use crate::codec::{parse_first_metric_name, spec_first_metric_name};
use crate::errors::GatewayError;
use crate::model::Metric;
use crate::registry::{lemma_first_match_characterization, spec_first_match, BackendRoute, Registry};

verus! {

/// The backend a metric routes to: first pattern match on its name. A
/// metric without a textual name routes nowhere.
pub open spec fn spec_route_of(routes: Seq<BackendRoute>, m: Metric) -> Option<int> {
    match m.spec_name() {
        Some(n) => spec_first_match(routes, n),
        None => None,
    }
}

/// Route every metric of a split-mode request, atomically: either all
/// of them resolve — the result lists each metric's backend index in
/// request order — or the whole request fails with a gateway error
/// before anything is dispatched.
pub fn route_metrics(metrics: &Vec<Metric>, reg: &Registry) -> (r: Result<Vec<usize>, GatewayError>)
    ensures
        match r {
            Ok(idx) => {
                &&& idx@.len() == metrics@.len()
                &&& forall|i: int|
                    0 <= i < metrics@.len() ==> spec_route_of(
                        reg.spec_routes(),
                        #[trigger] metrics@[i],
                    ) == Some(idx@[i] as int)
                &&& forall|i: int|
                    0 <= i < idx@.len() ==> (#[trigger] idx@[i]) < reg.spec_routes().len()
            },
            Err(e) => {
                &&& e == GatewayError::BadGateway
                &&& exists|i: int|
                    0 <= i < metrics@.len() && spec_route_of(
                        reg.spec_routes(),
                        #[trigger] metrics@[i],
                    ) is None
            },
        },
{
    let n = metrics.len();
    let mut idx: Vec<usize> = Vec::new();
    let mut i: usize = 0;
    while i < n
        invariant
            n == metrics@.len(),
            i <= n,
            idx@.len() == i,
            forall|j: int|
                0 <= j < i ==> spec_route_of(reg.spec_routes(), #[trigger] metrics@[j]) == Some(
                    idx@[j] as int,
                ),
            forall|j: int| 0 <= j < i ==> (#[trigger] idx@[j]) < reg.spec_routes().len(),
        decreases n - i,
    {
        let hit = match &metrics[i].name {
            Some(nm) => {
                let h = reg.lookup(nm.as_str());
                proof {
                    lemma_first_match_characterization(reg.spec_routes(), nm@);
                }
                h
            },
            None => None,
        };
        match hit {
            Some(b) => {
                idx.push(b);
            },
            None => {
                return Err(GatewayError::BadGateway);
            },
        }
        i = i + 1;
    }
    Ok(idx)
}

/// One split-mode group: a backend index and the positions, in the
/// request's metric list, of the metrics assigned to it, ascending.
pub struct BackendGroup {
    pub backend: usize,
    pub members: Vec<usize>,
}

/// Whether `g` is a well-formed group over the routing assignment
/// `idx`: non-empty, positions valid and ascending, and every member
/// assigned to this group's backend.
pub open spec fn spec_group_ok(idx: Seq<usize>, g: BackendGroup) -> bool {
    &&& g.members@.len() > 0
    &&& forall|k: int|
        0 <= k < g.members@.len() ==> (#[trigger] g.members@[k]) < idx.len() && idx[g.members@[k] as int]
            == g.backend
    &&& forall|k1: int, k2: int|
        0 <= k1 < k2 < g.members@.len() ==> g.members@[k1] < g.members@[k2]
}

/// Whether metric position `i` is covered by some group: a group for
/// `i`'s own backend holds position `i`.
pub open spec fn spec_covered(idx: Seq<usize>, groups: Seq<BackendGroup>, i: int) -> bool {
    exists|g: int|
        0 <= g < groups.len() && (#[trigger] groups[g]).backend == idx[i]
            && groups[g].members@.contains(i as usize)
}

/// Group routed metrics by backend index. Groups come out in ascending
/// backend order — so each matched backend appears exactly once — and
/// together they cover every metric, each in the group of its own
/// backend, preserving its original position order within the group.
pub fn group_by_backend(idx: &Vec<usize>, n_backends: usize) -> (groups: Vec<BackendGroup>)
    requires
        forall|i: int| 0 <= i < idx@.len() ==> (#[trigger] idx@[i]) < n_backends,
    ensures
        forall|g: int| 0 <= g < groups@.len() ==> (#[trigger] groups@[g]).backend < n_backends,
        forall|g1: int, g2: int|
            0 <= g1 < g2 < groups@.len() ==> (#[trigger] groups@[g1]).backend < (
            #[trigger] groups@[g2]).backend,
        forall|g: int| 0 <= g < groups@.len() ==> spec_group_ok(idx@, #[trigger] groups@[g]),
        forall|i: int| 0 <= i < idx@.len() ==> spec_covered(idx@, groups@, i),
{
    let m = idx.len();
    let mut groups: Vec<BackendGroup> = Vec::new();
    let mut b: usize = 0;
    while b < n_backends
        invariant
            m == idx@.len(),
            b <= n_backends,
            forall|g: int| 0 <= g < groups@.len() ==> (#[trigger] groups@[g]).backend < b,
            forall|g1: int, g2: int|
                0 <= g1 < g2 < groups@.len() ==> (#[trigger] groups@[g1]).backend < (
                #[trigger] groups@[g2]).backend,
            forall|g: int| 0 <= g < groups@.len() ==> spec_group_ok(idx@, #[trigger] groups@[g]),
            forall|i: int|
                0 <= i < idx@.len() && (#[trigger] idx@[i]) < b ==> spec_covered(
                    idx@,
                    groups@,
                    i,
                ),
        decreases n_backends - b,
    {
        let mut members: Vec<usize> = Vec::new();
        let mut i: usize = 0;
        while i < m
            invariant
                m == idx@.len(),
                i <= m,
                b < n_backends,
                forall|k: int|
                    0 <= k < members@.len() ==> (#[trigger] members@[k]) < i && idx@[members@[k] as int]
                        == b,
                forall|k1: int, k2: int|
                    0 <= k1 < k2 < members@.len() ==> members@[k1] < members@[k2],
                forall|j: int|
                    0 <= j < i && (#[trigger] idx@[j]) == b ==> members@.contains(j as usize),
            decreases m - i,
        {
            if idx[i] == b {
                let ghost prev = members@;
                members.push(i);
                proof {
                    assert(members@[members@.len() - 1] == i as usize);
                    assert forall|j: int|
                        0 <= j < i + 1 && (#[trigger] idx@[j]) == b implies members@.contains(
                        j as usize,
                    ) by {
                        if j == i {
                            assert(members@[members@.len() - 1] == j as usize);
                        } else {
                            let k = choose|k: int| 0 <= k < prev.len() && prev[k] == j as usize;
                            assert(members@[k] == j as usize);
                        }
                    }
                }
            }
            i = i + 1;
        }
        if members.len() > 0 {
            let ghost gprev = groups@;
            groups.push(BackendGroup { backend: b, members });
            proof {
                assert(groups@[groups@.len() - 1].backend == b);
                assert forall|i2: int|
                    0 <= i2 < idx@.len() && (#[trigger] idx@[i2]) < b + 1 implies spec_covered(
                    idx@,
                    groups@,
                    i2,
                ) by {
                    if idx@[i2] == b {
                        let last = groups@.len() - 1;
                        assert(groups@[last].backend == idx@[i2]);
                        assert(groups@[last].members@.contains(i2 as usize));
                    } else {
                        assert(spec_covered(idx@, gprev, i2));
                        let g = choose|g: int|
                            0 <= g < gprev.len() && (#[trigger] gprev[g]).backend == idx@[i2]
                                && gprev[g].members@.contains(i2 as usize);
                        assert(groups@[g] == gprev[g]);
                        assert((groups@[g]).backend == idx@[i2]
                            && groups@[g].members@.contains(i2 as usize));
                    }
                }
            }
        } else {
            proof {
                assert forall|i2: int|
                    0 <= i2 < idx@.len() && (#[trigger] idx@[i2]) < b + 1 implies spec_covered(
                    idx@,
                    groups@,
                    i2,
                ) by {
                    if idx@[i2] == b {
                        assert(members@.contains(i2 as usize));
                        assert(members@.len() > 0);
                        assert(false);
                    } else {
                        assert(spec_covered(idx@, groups@, i2));
                    }
                }
            }
        }
        b = b + 1;
    }
    proof {
        assert forall|i: int| 0 <= i < idx@.len() implies spec_covered(idx@, groups@, i) by {
            assert(idx@[i] < n_backends);
        }
    }
    groups
}

/// Resolve the single-target routing key: the routing header's value
/// when one is present — the body is then not parsed at all — else the
/// name of the first metric in the body. The key is looked up in the
/// registry; no match fails the request with a gateway error, a body
/// that yields no key fails it with a client error.
pub fn resolve_single_target(header: &Option<String>, body: &[u8], reg: &Registry) -> (r: Result<
    usize,
    GatewayError,
>)
    ensures
        match header {
            Some(h) => match spec_first_match(reg.spec_routes(), h@) {
                Some(b) => r == Result::<usize, GatewayError>::Ok(b as usize),
                None => r == Result::<usize, GatewayError>::Err(GatewayError::BadGateway),
            },
            None => match spec_first_metric_name(body@) {
                None => r == Result::<usize, GatewayError>::Err(GatewayError::BadRequest),
                Some(nm) => match spec_first_match(reg.spec_routes(), nm) {
                    Some(b) => r == Result::<usize, GatewayError>::Ok(b as usize),
                    None => r == Result::<usize, GatewayError>::Err(GatewayError::BadGateway),
                },
            },
        },
        r is Ok ==> (r->Ok_0 as int) < reg.spec_routes().len(),
{
    let name = match header {
        Some(h) => h.clone(),
        None => {
            match parse_first_metric_name(body) {
                Ok(n) => n,
                Err(e) => {
                    return Err(e);
                },
            }
        },
    };
    match reg.lookup(name.as_str()) {
        Some(b) => {
            proof {
                lemma_first_match_characterization(reg.spec_routes(), name@);
            }
            Ok(b)
        },
        None => Err(GatewayError::BadGateway),
    }
}

} // verus!
