//! The dispatcher's decisions for one HTTP request: serve a stored body,
//! rebuild from upstream, or answer 404, and the response head a hit is
//! served with.

use vstd::prelude::*;

use crate::configuration::{
    matching_at, param_of, try_match, BuildMode, Configuration, Route, RouteMethod,
};
use crate::data_loader::{load_path, resource_path_spec};
use crate::storage::{get_content_type, mime_of_path};
use crate::strutil::str_eq;
use vstd::pervasive::unreached;

verus! {

/// Index `i` names the first route that answers the request.
pub open spec fn first_match(routes: Seq<Route>, u: Seq<char>, m: RouteMethod, i: int) -> bool {
    matching_at(routes, u, m, i) && forall|j: int| 0 <= j < i ==> !matching_at(routes, u, m, j)
}

/// What the dispatcher does with one request.
pub enum EndpointPlan {
    /// No route matches and recording is on: fetch from upstream and
    /// record.
    Build,
    /// No route matches and recording is off: answer 404.
    NotFound,
    /// A route matches: serve the stored body read from `resource`; a route
    /// without a resource has no body to serve and is treated as a miss.
    Load {
        /// Index of the winning route in the catalog
        index: usize,
        /// The file to read, wildcard already substituted
        resource: Option<String>,
    },
}

/// Decides one request: the first matching route wins and its body is
/// served; a miss is rebuilt only under `Write` mode.
pub fn endpoint_plan(config: &Configuration, uri: &str, method: &RouteMethod) -> (r: EndpointPlan)
    ensures
        match r {
            EndpointPlan::Load { index, resource } => first_match(
                config.routes@,
                uri@,
                *method,
                index as int,
            ) && (match config.routes@[index as int].resource {
                Some(res) => resource matches Some(p) && p@ == resource_path_spec(
                    res@,
                    param_of(config.routes@[index as int].path@, uri@),
                ),
                None => resource is None,
            }),
            EndpointPlan::Build => config.build_mode == Some(BuildMode::Write) && (forall|i: int|
                0 <= i < config.routes@.len() ==> !matching_at(config.routes@, uri@, *method, i)),
            EndpointPlan::NotFound => config.build_mode != Some(BuildMode::Write) && (forall|
                i: int,
            |
                0 <= i < config.routes@.len() ==> !matching_at(config.routes@, uri@, *method, i)),
        },
{
    let mut idx: usize = 0;
    while idx < config.routes.len()
        invariant
            idx <= config.routes@.len(),
            forall|j: int| 0 <= j < idx ==> !matching_at(config.routes@, uri@, *method, j),
        decreases config.routes@.len() - idx,
    {
        let route = &config.routes[idx];
        if route.method == *method {
            let (hit, param) = try_match(route, uri);
            if hit {
                let resource = load_path(route, param);
                return EndpointPlan::Load { index: idx, resource };
            }
        }
        idx += 1;
    }
    match &config.build_mode {
        Some(BuildMode::Write) => EndpointPlan::Build,
        _ => EndpointPlan::NotFound,
    }
}

/// Recovers from a hit whose backing file vanished: the stale route leaves
/// the catalog, and the request is rebuilt exactly when recording is on.
/// Catalog uniqueness is preserved.
pub fn after_load_failure(config: &mut Configuration, index: usize) -> (r: bool)
    requires
        index < old(config).routes@.len(),
    ensures
        final(config).host == old(config).host,
        final(config).remote == old(config).remote,
        final(config).build_mode == old(config).build_mode,
        final(config).routes@ == old(config).routes@.remove(index as int),
        old(config).wf() ==> final(config).wf(),
        r == (old(config).build_mode == Some(BuildMode::Write)),
{
    let ghost prev = config.routes@;
    config.routes.remove(index);
    proof {
        let routes = config.routes@;
        if old(config).wf() {
            assert forall|i: int, j: int|
                0 <= i < j < routes.len() implies !(#[trigger] routes[i].method
                == #[trigger] routes[j].method && routes[i].path@ == routes[j].path@) by {
                let oi = if i < index { i } else { i + 1 };
                let oj = if j < index { j } else { j + 1 };
                assert(routes[i] == prev[oi]);
                assert(routes[j] == prev[oj]);
            }
        }
    }
    match &config.build_mode {
        Some(BuildMode::Write) => true,
        _ => false,
    }
}

/// Stale-route recovery: when the only route answering a request leaves the
/// catalog, the request matches nothing any more, so under `Write` mode the
/// dispatcher rebuilds it from upstream and under `Read` mode it answers
/// 404.
pub proof fn lemma_stale_recovery(
    before: Configuration,
    after: Configuration,
    uri: Seq<char>,
    method: RouteMethod,
    index: int,
)
    requires
        0 <= index < before.routes@.len(),
        first_match(before.routes@, uri, method, index),
        forall|j: int| index < j < before.routes@.len() ==> !matching_at(before.routes@, uri, method, j),
        after.routes@ == before.routes@.remove(index),
    ensures
        forall|i: int| 0 <= i < after.routes@.len() ==> !matching_at(after.routes@, uri, method, i),
{
    assert forall|i: int| 0 <= i < after.routes@.len() implies !matching_at(
        after.routes@,
        uri,
        method,
        i,
    ) by {
        let o = if i < index {
            i
        } else {
            i + 1
        };
        assert(after.routes@[i] == before.routes@[o]);
        assert(!matching_at(before.routes@, uri, method, o));
    }
}

/// The first value stored under this header name, if any.
pub fn header_value_of(headers: &Vec<(String, String)>, name: &str) -> (r: Option<String>)
    ensures
        match r {
            Some(v) => exists|i: int|
                #![auto]
                0 <= i < headers@.len() && headers@[i].0@ == name@ && headers@[i].1@ == v@ && (
                forall|j: int| 0 <= j < i ==> headers@[j].0@ != name@),
            None => forall|i: int| 0 <= i < headers@.len() ==> (#[trigger] headers@[i].0)@ != name@,
        },
{
    let mut idx: usize = 0;
    while idx < headers.len()
        invariant
            idx <= headers@.len(),
            forall|j: int| 0 <= j < idx ==> (#[trigger] headers@[j].0)@ != name@,
        decreases headers@.len() - idx,
    {
        if str_eq(headers[idx].0.as_str(), name) {
            return Some(headers[idx].1.clone());
        }
        idx += 1;
    }
    None
}

/// The content type a stored response is served with: the recorded
/// `content-type` header when one is present, else the type guessed from
/// the resource path, falling back to plain text. A response served from a
/// file always has a resource, which the caller guarantees.
pub fn get_content_type_with_fallback(
    headers: &Vec<(String, String)>,
    resource: &Option<String>,
) -> (r: String)
    requires
        (forall|i: int|
            0 <= i < headers@.len() ==> (#[trigger] headers@[i].0)@ != "content-type"@)
            ==> resource is Some,
    ensures
        ({
            if exists|i: int| 0 <= i < headers@.len() && (#[trigger] headers@[i].0)@
                == "content-type"@ {
                exists|i: int|
                    #![auto]
                    0 <= i < headers@.len() && headers@[i].0@ == "content-type"@ && r@
                        == headers@[i].1@ && (forall|j: int|
                        0 <= j < i ==> headers@[j].0@ != "content-type"@)
            } else {
                resource matches Some(res) && (match mime_of_path(res@) {
                    Some(m) => r@ == m,
                    None => r@ == "text/plain"@,
                })
            }
        }),
{
    match header_value_of(headers, "content-type") {
        Some(value) => value,
        None => match resource {
            Some(res) => get_content_type(res.clone()),
            None => unreached(),
        },
    }
}

/// Clones a header list entry by entry.
fn clone_headers(headers: &Vec<(String, String)>) -> (r: Vec<(String, String)>)
    ensures
        r@ == headers@,
{
    let mut out: Vec<(String, String)> = Vec::new();
    let mut idx: usize = 0;
    while idx < headers.len()
        invariant
            idx <= headers@.len(),
            out@ =~= headers@.subrange(0, idx as int),
        decreases headers@.len() - idx,
    {
        out.push((headers[idx].0.clone(), headers[idx].1.clone()));
        idx += 1;
    }
    proof {
        assert(out@ =~= headers@);
    }
    out
}

/// The status code and headers a stored route is served with: its recorded
/// metadata, or a bare 200 when none was recorded.
pub fn response_head(route: &Route) -> (r: (u16, Vec<(String, String)>))
    ensures
        match route.metadata {
            Some(m) => r.0 == m.code && r.1@ == m.header@,
            None => r.0 == 200 && r.1@.len() == 0,
        },
{
    match &route.metadata {
        Some(m) => (m.code, clone_headers(&m.header)),
        None => (200, Vec::new()),
    }
}

} // verus!
