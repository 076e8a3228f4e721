//! The record pipeline's decisions: where a miss is forwarded, how the
//! client is answered, whether the response is persisted, and how the
//! catalog grows.

use vstd::prelude::*;

use crate::configuration::{
    exact_match_at, lemma_self_match, lemma_suffix_match_implies, matching_at, route_matches,
    BuildMode, Configuration, Metadata, Route, RouteMethod,
};
use crate::router::first_match;
use crate::strutil::{ends_with, str_ends_with};

verus! {

/// Everything of an upstream response the pipeline keeps: the method it was
/// fetched with, the response headers in order, the status code, and the
/// body if one came back.
pub struct ResourceData {
    /// HTTP method
    pub method: RouteMethod,
    /// HTTP headers, in order, names lower-case
    pub headers: Vec<(String, String)>,
    /// HTTP status code
    pub code: u16,
    /// HTTP body
    pub payload: Option<Vec<u8>>,
}

/// The bare storage location for a URI when nothing is known of its content
/// type: rooted under `./db`, with `index` appended when it names a
/// directory.
pub fn get_save_path(uri: &str) -> (r: String)
    ensures
        r@ == if ends_with("./db"@ + uri@, "/"@) {
            "./db"@ + uri@ + "index"@
        } else {
            "./db"@ + uri@
        },
{
    let mut path = String::from_str("./db");
    path.append(uri);
    if str_ends_with(path.as_str(), "/") {
        path.append("index");
    }
    path
}

/// The forwarded URL: the upstream base followed by the request URI.
pub fn get_url(uri: &str, host: &str) -> (r: String)
    ensures
        r@ == host@ + uri@,
{
    let mut url = String::from_str(host);
    url.append(uri);
    url
}

/// The forwarded URL as a plain string, for the WebSocket path.
pub fn get_url_str(uri: &str, host: &str) -> (r: String)
    ensures
        r@ == host@ + uri@,
{
    let mut url = String::from_str(host);
    url.append(uri);
    url
}

/// Where a miss is forwarded: to the upstream base joined with the request
/// URI, and only when both a build mode and a remote are configured.
pub fn fetch_url_for(build_mode: &Option<BuildMode>, remote: &Option<String>, uri: &str) -> (r:
    Option<String>)
    ensures
        r is Some <==> (build_mode is Some && remote is Some),
        r matches Some(u) ==> (remote matches Some(h) && u@ == h@ + uri@),
{
    match build_mode {
        Some(_) => match remote {
            Some(host) => Some(get_url(uri, host.as_str())),
            None => None,
        },
        None => None,
    }
}

/// Whether a fetched upstream response is recorded: only a response that
/// carries a body and is no 404, and only under `Write` mode.
pub fn should_persist(build_mode: &Option<BuildMode>, response: &ResourceData) -> (r: bool)
    ensures
        r == (response.payload is Some && response.code != 404 && *build_mode == Some(
            BuildMode::Write,
        )),
{
    let write = match build_mode {
        Some(BuildMode::Write) => true,
        _ => false,
    };
    response.payload.is_some() && response.code != 404 && write
}

/// Grows the catalog after a successful fetch: when no route with this path
/// and method exists yet, a route pointing at `resource` is appended and
/// `true` is returned; otherwise a concurrent writer already recorded the
/// pair and the catalog is left alone.
///
/// Catalog uniqueness — at most one route per `(method, path)` — is
/// preserved.
pub fn save_route(
    config: &mut Configuration,
    method: &RouteMethod,
    uri: &str,
    metadata: Option<Metadata>,
    resource: Option<String>,
) -> (r: bool)
    ensures
        final(config).host == old(config).host,
        final(config).remote == old(config).remote,
        final(config).build_mode == old(config).build_mode,
        old(config).wf() ==> final(config).wf(),
        r == !(exists|i: int| exact_match_at(old(config).routes@, uri@, *method, i)),
        !r ==> final(config).routes@ == old(config).routes@,
        r ==> final(config).routes@.len() == old(config).routes@.len() + 1 && (forall|i: int|
            0 <= i < old(config).routes@.len() ==> final(config).routes@[i] == old(
                config,
            ).routes@[i]) && ({
            let added = final(config).routes@.last();
            &&& added.method == *method
            &&& added.path@ == uri@
            &&& added.metadata == metadata
            &&& added.resource == resource
            &&& added.messages@.len() == 0
        }),
{
    let duplicate = config.get_route(uri, method).is_some();
    if !duplicate {
        let route = Route {
            method: *method,
            path: String::from_str(uri),
            metadata,
            resource,
            messages: Vec::new(),
        };
        let ghost prev = config.routes@;
        config.routes.push(route);
        proof {
            let routes = config.routes@;
            let n = prev.len() as int;
            assert(routes[n].path@ == uri@);
            if old(config).wf() {
                assert forall|i: int, j: int|
                    0 <= i < j < routes.len() implies !(#[trigger] routes[i].method
                    == #[trigger] routes[j].method && routes[i].path@ == routes[j].path@) by {
                    if j == n {
                        assert(!exact_match_at(prev, uri@, *method, i));
                    } else {
                        assert(routes[i] == prev[i] && routes[j] == prev[j]);
                    }
                }
            }
        }
        true
    } else {
        false
    }
}

/// Miss-then-hit round trip: against an empty catalog in `Write` mode a
/// request matches nothing and is rebuilt from upstream; once the builder
/// has recorded the fetched route under the request's own path and method,
/// the same request resolves to exactly that route and is served locally,
/// so the upstream is asked only once.
pub proof fn lemma_miss_then_hit(
    before: Configuration,
    after: Configuration,
    method: RouteMethod,
    uri: Seq<char>,
)
    requires
        before.routes@.len() == 0,
        before.build_mode == Some(BuildMode::Write),
        after.routes@.len() == 1,
        after.routes@[0].method == method,
        after.routes@[0].path@ == uri,
    ensures
        forall|i: int|
            0 <= i < before.routes@.len() ==> !matching_at(before.routes@, uri, method, i),
        first_match(after.routes@, uri, method, 0),
{
    lemma_self_match(uri);
    lemma_suffix_match_implies(after.routes@[0].path@, uri);
    assert(route_matches(after.routes@[0], method, uri));
}

} // verus!
