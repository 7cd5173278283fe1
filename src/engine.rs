//! A service's shared state and the per-request decisions of HTTP forwarding.
use vstd::prelude::*;
use std::sync::Arc;
use crate::arg::MystiEngine;
use crate::gateway::{RouteTable, RouteView, UriMapping, resolve_from, routes_of};
use crate::text::{chars_of, string_from_chars, slice_chars, append_chars, find_first, first_occurrence, occurs_at};

verus! {

/// The routes a service's mappings make; none without mappings.
pub open spec fn service_routes(e: MystiEngine) -> Seq<RouteView> {
    match e.uri_mapping {
        Some(ms) => routes_of(ms@),
        None => seq![],
    }
}

/// `pq` split at its first `?`: the path, and the query with its `?`.
pub open spec fn split_query(pq: Seq<char>) -> (Seq<char>, Seq<char>) {
    if exists|i: int| first_occurrence(pq, seq!['?'], i) {
        let i = choose|i: int| first_occurrence(pq, seq!['?'], i);
        (pq.subrange(0, i), pq.subrange(i, pq.len() as int))
    } else {
        (pq, seq![])
    }
}

/// The path and query a request is forwarded with: the path rewritten by the
/// first route that applies, the query kept; unchanged when none applies.
pub open spec fn outbound_uri_spec(rs: Seq<RouteView>, method: Seq<char>, pq: Seq<char>) -> Seq<
    char,
> {
    let (path, query) = split_query(pq);
    match resolve_from(rs, 0, method, path) {
        Some((_, p)) => p + query,
        None => pq,
    }
}

/// A service's shared, read-only state: its definition and compiled routes.
#[derive(Clone)]
pub struct Engine {
    engine: Arc<MystiEngine>,
    routes: Arc<RouteTable>,
}

impl Engine {
    /// The service definition this engine was made from.
    pub closed spec fn definition(&self) -> MystiEngine {
        *self.engine
    }

    pub closed spec fn routes(&self) -> Seq<RouteView> {
        self.routes.routes()
    }

    pub closed spec fn wf(&self) -> bool {
        &&& self.routes.wf()
        &&& self.routes.routes() == service_routes(*self.engine)
    }

    pub fn new(engine: Arc<MystiEngine>) -> (r: Engine)
        ensures
            r.wf(),
            r.definition() == *engine,
            r.routes() == service_routes(*engine),
    {
        let routes = match &engine.uri_mapping {
            Some(ms) => RouteTable::new(ms),
            None => {
                let empty: Vec<UriMapping> = Vec::new();
                let t = RouteTable::new(&empty);
                assert(routes_of(empty@) =~= seq![]);
                t
            },
        };
        Engine { engine, routes: Arc::new(routes) }
    }

    /// The service this engine serves.
    pub fn service(&self) -> (r: &MystiEngine)
        ensures
            *r == self.definition(),
    {
        &self.engine
    }

    /// The path and query to forward a request with.
    pub fn outbound_uri(&self, method: &str, path_and_query: &str) -> (r: String)
        requires
            self.wf(),
        ensures
            r@ == outbound_uri_spec(self.routes(), method@, path_and_query@),
    {
        let pq = chars_of(path_and_query);
        let q = vec!['?'];
        let (path, query) = match find_first(&pq, &q) {
            Some(i) => {
                proof {
                    let w = choose|w: int| first_occurrence(pq@, seq!['?'], w);
                    assert(q@ =~= seq!['?']);
                    if w < i {
                        assert(!occurs_at(pq@, q@, w));
                    } else if w > i {
                        assert(!occurs_at(pq@, seq!['?'], i as int));
                    }
                }
                let n = pq.len();
                (slice_chars(&pq, 0, i), slice_chars(&pq, i, n))
            },
            None => {
                proof {
                    assert(q@ =~= seq!['?']);
                    if exists|i: int| first_occurrence(pq@, seq!['?'], i) {
                        let i = choose|i: int| first_occurrence(pq@, seq!['?'], i);
                        assert(occurs_at(pq@, q@, i));
                    }
                }
                let n = pq.len();
                (slice_chars(&pq, 0, n), Vec::new())
            },
        };
        assert(pq@.subrange(0, pq@.len() as int) =~= pq@);
        let path_text = string_from_chars(path.as_slice());
        match self.routes.resolve(method, path_text.as_str()) {
            Some((_, p)) => {
                let mut out = chars_of(p.as_str());
                append_chars(&mut out, &query);
                string_from_chars(out.as_slice())
            },
            None => string_from_chars(pq.as_slice()),
        }
    }
}

/// The value an outbound request's `Host` header carries.
pub open spec fn placeholder_host() -> Seq<u8> {
    seq![108u8, 111u8, 99u8, 97u8, 108u8, 104u8, 111u8, 115u8, 116u8]
}

/// A header name is `host`, in any ASCII case.
pub open spec fn is_host_header(name: Seq<char>) -> bool {
    crate::text::eq_ignore_ascii_case(name, seq!['h', 'o', 's', 't'])
}

/// Prepares an inbound request's headers for the outbound request: every
/// header is kept, in order, but `Host`, whose value becomes `localhost`.
pub fn forward_headers(headers: &mut Vec<(String, Vec<u8>)>)
    ensures
        final(headers).len() == old(headers).len(),
        forall|i: int|
            0 <= i < old(headers).len() ==> {
                &&& (#[trigger] final(headers)@[i]).0 == old(headers)@[i].0
                &&& final(headers)@[i].1@ == if is_host_header(old(headers)@[i].0@) {
                    placeholder_host()
                } else {
                    old(headers)@[i].1@
                }
            },
{
    let ghost before = headers@;
    let mut i: usize = 0;
    while i < headers.len()
        invariant
            headers.len() == before.len(),
            i <= headers.len(),
            forall|j: int|
                0 <= j < i ==> {
                    &&& (#[trigger] headers@[j]).0 == before[j].0
                    &&& headers@[j].1@ == if is_host_header(before[j].0@) {
                        placeholder_host()
                    } else {
                        before[j].1@
                    }
                },
            forall|j: int| i <= j < headers.len() ==> #[trigger] headers@[j] == before[j],
        decreases headers.len() - i,
    {
        let host = string_from_chars(vec!['h', 'o', 's', 't'].as_slice());
        assert(host@ =~= seq!['h', 'o', 's', 't']);
        if crate::text::equals_ignore_ascii_case(headers[i].0.as_str(), host.as_str()) {
            let name = headers[i].0.clone();
            let value: Vec<u8> = vec![108u8, 111u8, 99u8, 97u8, 108u8, 104u8, 111u8, 115u8, 116u8];
            assert(value@ =~= placeholder_host());
            headers.set(i, (name, value));
        }
        i = i + 1;
    }
}

} // verus!
