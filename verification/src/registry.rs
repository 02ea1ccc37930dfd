//! The backend registry: an ordered list of compiled routes, looked up
//! by first pattern match. Order is significant — it is the priority
//! order when a name matches more than one pattern.

use vstd::prelude::*;

use crate::config::Backend;
use crate::errors::ConfigError;
use crate::pattern::{pattern_accepts, pattern_compiles, Pattern};
use crate::text::opt_text;

verus! {

/// Whether `reqwest::Url::parse` accepts `s` as an absolute URL: a
/// fixed function of the text alone.
pub uninterp spec fn url_well_formed(s: Seq<char>) -> bool;

/// Relies on reqwest::Url::parse (the `url` crate's parser): whether a
/// base address is a valid absolute URL depends on the text alone.
#[verifier::external_body]
fn url_parses(s: &str) -> (r: bool)
    ensures
        r == url_well_formed(s@),
{
    reqwest::Url::parse(s).is_ok()
}

/// One registered route: a compiled pattern, a validated base address
/// and an optional outbound bearer token.
pub struct BackendRoute {
    pub pattern: Pattern,
    pub base_url: String,
    pub token: Option<String>,
}

impl BackendRoute {
    /// Whether this route's pattern matches the metric name.
    pub open spec fn spec_matches(&self, name: Seq<char>) -> bool {
        pattern_accepts(self.pattern.spec_source(), name)
    }
}

/// Whether a configured backend entry passes startup validation.
pub open spec fn backend_ok(b: Backend) -> bool {
    pattern_compiles(b.pattern@) && url_well_formed(b.url@)
}

/// Whether route `r` is the compiled form of backend entry `b`.
pub open spec fn route_corresponds(r: BackendRoute, b: Backend) -> bool {
    &&& r.pattern.spec_source() == b.pattern@
    &&& r.base_url@ == b.url@
    &&& opt_text(r.token) == opt_text(b.token)
}

/// Index of the first route whose pattern matches `name`, if any.
pub open spec fn spec_first_match(routes: Seq<BackendRoute>, name: Seq<char>) -> Option<int>
    decreases routes.len(),
{
    if routes.len() == 0 {
        None
    } else if routes[0].spec_matches(name) {
        Some(0int)
    } else {
        match spec_first_match(routes.subrange(1, routes.len() as int), name) {
            None => None,
            Some(i) => Some(i + 1),
        }
    }
}

/// What `spec_first_match` returns, spelled out: `None` means no route
/// matches; `Some(i)` means route `i` matches and no earlier one does.
pub proof fn lemma_first_match_characterization(routes: Seq<BackendRoute>, name: Seq<char>)
    ensures
        match spec_first_match(routes, name) {
            None => forall|i: int| 0 <= i < routes.len() ==> !routes[i].spec_matches(name),
            Some(i) => {
                &&& 0 <= i < routes.len()
                &&& routes[i].spec_matches(name)
                &&& forall|j: int| 0 <= j < i ==> !routes[j].spec_matches(name)
            },
        },
    decreases routes.len(),
{
    if routes.len() == 0 {
    } else if routes[0].spec_matches(name) {
    } else {
        let tail = routes.subrange(1, routes.len() as int);
        lemma_first_match_characterization(tail, name);
        match spec_first_match(tail, name) {
            None => {
                assert forall|i: int| 1 <= i < routes.len() implies !routes[i].spec_matches(
                    name,
                ) by {
                    assert(tail[i - 1] == routes[i]);
                    assert(!tail[i - 1].spec_matches(name));
                }
            },
            Some(k) => {
                assert(tail[k] == routes[k + 1]);
                assert(routes[k + 1].spec_matches(name));
                assert forall|j: int| 1 <= j < k + 1 implies !routes[j].spec_matches(name) by {
                    assert(tail[j - 1] == routes[j]);
                    assert(!tail[j - 1].spec_matches(name));
                }
            },
        }
    }
}

/// Lookup is first-match over registry order: whenever some route
/// matches a name, the lookup result exists, matches, lies no later
/// than any matching route, and no route before it matches. In
/// particular a name matching two patterns resolves to the
/// earlier-registered one.
pub proof fn lemma_first_match_is_earliest(routes: Seq<BackendRoute>, name: Seq<char>, i: int)
    requires
        0 <= i < routes.len(),
        routes[i].spec_matches(name),
    ensures
        spec_first_match(routes, name) is Some,
        ({
            let k = spec_first_match(routes, name).unwrap();
            &&& 0 <= k <= i
            &&& routes[k].spec_matches(name)
            &&& forall|j: int| 0 <= j < k ==> !routes[j].spec_matches(name)
        }),
{
    lemma_first_match_characterization(routes, name);
}

/// The ordered route list, built once at startup.
pub struct Registry {
    routes: Vec<BackendRoute>,
}

impl Registry {
    pub closed spec fn spec_routes(&self) -> Seq<BackendRoute> {
        self.routes@
    }

    /// Number of registered routes.
    pub fn len(&self) -> (n: usize)
        ensures
            n == self.spec_routes().len(),
    {
        self.routes.len()
    }

    /// The route at index `i`.
    pub fn route(&self, i: usize) -> (r: &BackendRoute)
        requires
            i < self.spec_routes().len(),
        ensures
            *r == self.spec_routes()[i as int],
    {
        &self.routes[i]
    }

    /// Compile every configured backend, in order, into a registry.
    /// Fails on the first entry whose pattern does not compile or whose
    /// base address is not a valid URL; success requires every entry to
    /// validate.
    pub fn from_backends(backends: &Vec<Backend>) -> (r: Result<Registry, ConfigError>)
        ensures
            r is Ok <==> (forall|i: int|
                0 <= i < backends@.len() ==> backend_ok(#[trigger] backends@[i])),
            r is Ok ==> {
                let reg = r->Ok_0;
                &&& reg.spec_routes().len() == backends@.len()
                &&& forall|i: int|
                    0 <= i < backends@.len() ==> route_corresponds(
                        #[trigger] reg.spec_routes()[i],
                        backends@[i],
                    )
            },
            r is Err ==> (exists|i: int|
                {
                    &&& 0 <= i < backends@.len()
                    &&& (forall|j: int| 0 <= j < i ==> backend_ok(#[trigger] backends@[j]))
                    &&& match r->Err_0 {
                        ConfigError::InvalidPattern(p) => {
                            &&& !pattern_compiles(backends@[i].pattern@)
                            &&& p@ == #[trigger] backends@[i].pattern@
                        },
                        ConfigError::InvalidUrl(u) => {
                            &&& pattern_compiles(backends@[i].pattern@)
                            &&& !url_well_formed(backends@[i].url@)
                            &&& u@ == backends@[i].url@
                        },
                    }
                }),
    {
        let n = backends.len();
        let mut routes: Vec<BackendRoute> = Vec::new();
        let mut i: usize = 0;
        while i < n
            invariant
                n == backends@.len(),
                i <= n,
                routes@.len() == i as int,
                forall|j: int| 0 <= j < i ==> backend_ok(#[trigger] backends@[j]),
                forall|j: int|
                    0 <= j < i ==> route_corresponds(#[trigger] routes@[j], backends@[j]),
            decreases n - i,
        {
            let b = &backends[i];
            let pattern = match Pattern::compile(b.pattern.as_str()) {
                Ok(p) => p,
                Err(_) => {
                    return Err(ConfigError::InvalidPattern(b.pattern.clone()));
                },
            };
            if !url_parses(b.url.as_str()) {
                return Err(ConfigError::InvalidUrl(b.url.clone()));
            }
            let token = match &b.token {
                Some(t) => Some(t.clone()),
                None => None,
            };
            routes.push(BackendRoute { pattern, base_url: b.url.clone(), token });
            i = i + 1;
        }
        Ok(Registry { routes })
    }

    /// First-match lookup of a metric name over registry order.
    pub fn lookup(&self, name: &str) -> (r: Option<usize>)
        ensures
            match r {
                Some(i) => spec_first_match(self.spec_routes(), name@) == Some(i as int),
                None => spec_first_match(self.spec_routes(), name@) is None,
            },
    {
        let n = self.routes.len();
        let mut i: usize = 0;
        while i < n
            invariant
                n == self.spec_routes().len(),
                i <= n,
                forall|j: int|
                    0 <= j < i ==> !(#[trigger] self.spec_routes()[j]).spec_matches(name@),
            decreases n - i,
        {
            if self.routes[i].pattern.is_match(name) {
                proof {
                    lemma_first_match_characterization(self.spec_routes(), name@);
                }
                return Some(i);
            }
            i = i + 1;
        }
        proof {
            lemma_first_match_characterization(self.spec_routes(), name@);
        }
        None
    }
}

} // verus!
