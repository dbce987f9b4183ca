//! The remote endpoint resolver: which host has to receive the requests of
//! a project, and the store that remembers it between runs.

use vstd::prelude::*;
use crate::assoc::{
    distinct_keys, key_at, lemma_map_of, lemma_map_of_len, lemma_map_of_missing,
    lemma_map_of_push, lemma_map_of_remove, lemma_map_of_update, map_of,
};
use crate::builder::{
    availability, headers_view, probe_tag, routed, routed_headers, signing_headers,
    sticky_header_name, BodyView, Client, Method, SyncRequest,
};
use crate::configs::{Project, Vtex};
use crate::error::SyncError;
use crate::routes::{route_url, Routes};
use crate::json::{json_at, json_parse, json_shape_at, JsonProbe, JsonShape};
use crate::text::{
    chars_of, decimal, find_char, first_index, json_escaped, push_json_escaped, push_number,
    str_eq, string_of_range,
};

verus! {

/// The host that serves a project and workspace.
#[derive(Debug, Clone)]
pub struct StickyRoute {
    pub host: String,
}

/// One remembered route, as the store keeps it.
#[derive(Debug, Clone)]
pub struct RouteRecord {
    pub vendor: String,
    pub name: String,
    pub host: String,
    pub last_updated: u64,
}

/// The key a route is remembered under: vendor and name.
pub type RouteKey = (Seq<char>, Seq<char>);

/// What is remembered under a key: the host, and when it was written.
pub type RouteValue = (Seq<char>, u64);

/// The key for a project.
pub open spec fn route_key(project: Project) -> RouteKey {
    (project.vendor@, project.name@)
}

/// The keys of a list of records, in the order of the list.
pub open spec fn record_keys(records: Seq<RouteRecord>) -> Seq<RouteKey> {
    records.map_values(|r: RouteRecord| (r.vendor@, r.name@))
}

/// What a list of records keeps under its keys, in the order of the list.
pub open spec fn record_values(records: Seq<RouteRecord>) -> Seq<RouteValue> {
    records.map_values(|r: RouteRecord| (r.host@, r.last_updated))
}

/// The routes remembered between runs.
pub struct RouteStore {
    records: Vec<RouteRecord>,
}

impl RouteStore {
    /// The store as a map.
    pub closed spec fn routes(&self) -> Map<RouteKey, RouteValue> {
        map_of(record_keys(self.records@), record_values(self.records@))
    }

    /// The invariant: each key is kept once.
    pub closed spec fn wf(&self) -> bool {
        distinct_keys(record_keys(self.records@))
    }

    /// An empty store.
    pub fn new() -> (r: RouteStore)
        ensures
            r.wf(),
            r.routes() == Map::<RouteKey, RouteValue>::empty(),
    {
        let r = RouteStore { records: Vec::new() };
        assert(record_keys(r.records@) =~= Seq::empty());
        r
    }

    /// The number of routes kept.
    pub fn len(&self) -> (r: usize)
        requires
            self.wf(),
        ensures
            r == self.routes().dom().len(),
    {
        proof {
            lemma_map_of_len(record_keys(self.records@), record_values(self.records@));
        }
        self.records.len()
    }

    /// All routes kept, for writing the store out: each key once, and the
    /// list read as a map is the store.
    pub fn records(&self) -> (r: &Vec<RouteRecord>)
        requires
            self.wf(),
        ensures
            distinct_keys(record_keys(r@)),
            map_of(record_keys(r@), record_values(r@)) == self.routes(),
    {
        &self.records
    }

    fn position(&self, vendor: &str, name: &str) -> (r: usize)
        requires
            self.wf(),
        ensures
            r <= self.records@.len(),
            r < self.records@.len() ==> key_at(
                record_keys(self.records@),
                (vendor@, name@),
                r as int,
            ) && self.routes().contains_key((vendor@, name@)) && self.routes()[(vendor@, name@)]
                == (self.records@[r as int].host@, self.records@[r as int].last_updated),
            r == self.records@.len() ==> !self.routes().contains_key((vendor@, name@)),
    {
        let ghost keys = record_keys(self.records@);
        let ghost values = record_values(self.records@);
        let mut i: usize = 0;
        while i < self.records.len()
            invariant
                self.wf(),
                i <= self.records@.len(),
                keys == record_keys(self.records@),
                values == record_values(self.records@),
                forall|j: int| 0 <= j < i ==> !key_at(keys, (vendor@, name@), j),
            decreases self.records@.len() - i,
        {
            if str_eq(self.records[i].vendor.as_str(), vendor) && str_eq(
                self.records[i].name.as_str(),
                name,
            ) {
                proof {
                    lemma_map_of(keys, values);
                    assert(key_at(keys, (vendor@, name@), i as int));
                }
                return i;
            }
            i += 1;
        }
        proof {
            lemma_map_of_missing(keys, values, (vendor@, name@));
        }
        i
    }

    /// The host kept for a vendor and name, if one is kept.
    pub fn get(&self, vendor: &str, name: &str) -> (r: Option<String>)
        requires
            self.wf(),
        ensures
            match r {
                Some(host) => self.routes().contains_key((vendor@, name@)) && self.routes()[(
                    vendor@,
                    name@,
                )].0 == host@,
                None => !self.routes().contains_key((vendor@, name@)),
            },
    {
        let at = self.position(vendor, name);
        if at < self.records.len() {
            Some(self.records[at].host.clone())
        } else {
            None
        }
    }

    /// Keeps `host` for a vendor and name, in place of what was kept.
    pub fn put(&mut self, vendor: &str, name: &str, host: &str, last_updated: u64)
        requires
            old(self).wf(),
        ensures
            final(self).wf(),
            final(self).routes() == old(self).routes().insert(
                (vendor@, name@),
                (host@, last_updated),
            ),
    {
        let at = self.position(vendor, name);
        let ghost keys = record_keys(self.records@);
        let ghost values = record_values(self.records@);
        let record = RouteRecord {
            vendor: String::from_str(vendor),
            name: String::from_str(name),
            host: String::from_str(host),
            last_updated,
        };
        if at < self.records.len() {
            self.records.set(at, record);
            proof {
                assert(record_keys(self.records@) =~= keys);
                assert(record_values(self.records@) =~= values.update(
                    at as int,
                    (host@, last_updated),
                ));
                lemma_map_of_update(keys, values, at as int, (host@, last_updated));
            }
        } else {
            self.records.push(record);
            proof {
                assert(record_keys(self.records@) =~= keys.push((vendor@, name@)));
                assert(record_values(self.records@) =~= values.push((host@, last_updated)));
                lemma_map_of_push(keys, values, (vendor@, name@), (host@, last_updated));
            }
        }
    }

    /// Forgets what is kept for a vendor and name.
    pub fn remove(&mut self, vendor: &str, name: &str)
        requires
            old(self).wf(),
        ensures
            final(self).wf(),
            final(self).routes() == old(self).routes().remove((vendor@, name@)),
    {
        let at = self.position(vendor, name);
        let ghost keys = record_keys(self.records@);
        let ghost values = record_values(self.records@);
        if at < self.records.len() {
            self.records.remove(at);
            proof {
                assert(record_keys(self.records@) =~= keys.remove(at as int));
                assert(record_values(self.records@) =~= values.remove(at as int));
                lemma_map_of_remove(keys, values, at as int);
            }
        } else {
            assert(self.routes() =~= self.routes().remove((vendor@, name@)));
        }
    }

}

impl Vtex {
    /// Keeps `host` in `store` as the route of `project`, in place of what
    /// was kept for it.
    pub fn set_sticky_host(store: &mut RouteStore, project: &Project, host: &str, now: u64)
        requires
            old(store).wf(),
        ensures
            final(store).wf(),
            final(store).routes() == old(store).routes().insert(route_key(*project), (host@, now)),
    {
        store.put(project.vendor.as_str(), project.name.as_str(), host, now)
    }
}

/// One character of a key as it stands in a JSON pointer: a tilde and a
/// slash are written by their codes.
pub open spec fn pointer_escape(c: char) -> Seq<char> {
    if c == '~' {
        seq!['~', '0']
    } else if c == '/' {
        seq!['~', '1']
    } else {
        seq![c]
    }
}

/// A key as it stands in a JSON pointer.
pub open spec fn pointer_token(key: Seq<char>) -> Seq<char>
    decreases key.len(),
{
    if key.len() == 0 {
        Seq::empty()
    } else {
        pointer_token(key.drop_last()) + pointer_escape(key.last())
    }
}

/// Where the store document keeps the host of a project: under `apps`,
/// the vendor, the name and `sticky-host`, as `stickyHost`.
pub open spec fn host_place(project: Project) -> Seq<char> {
    "/apps/"@ + pointer_token(project.vendor@) + "/"@ + pointer_token(project.name@)
        + "/sticky-host/stickyHost"@
}

/// The host that a store document keeps for a project, if it keeps one as
/// a text.
pub open spec fn kept_host(document: Seq<char>, project: Project) -> Option<Seq<char>> {
    match json_shape_at(document, host_place(project)) {
        JsonShape::Text(host) => Some(host),
        _ => None,
    }
}

/// What the store document keeps under `sticky-host` for a route.
pub open spec fn route_entry(host: Seq<char>, last_updated: u64) -> Seq<char> {
    "{\"stickyHost\":\""@ + json_escaped(host) + "\",\"lastUpdated\":"@ + decimal(
        last_updated as nat,
    ) + "}"@
}

/// The routes that a store document gives a run: that of the project, if
/// the document keeps one.
pub open spec fn loaded(document: Seq<char>, project: Project) -> Map<RouteKey, RouteValue> {
    match kept_host(document, project) {
        Some(host) => Map::<RouteKey, RouteValue>::empty().insert(route_key(project), (host, 0)),
        None => Map::empty(),
    }
}

/// Appends a key as it stands in a JSON pointer.
fn push_pointer_token(out: &mut String, key: &str)
    ensures
        final(out)@ == old(out)@ + pointer_token(key@),
{
    let chars = chars_of(key);
    let mut i: usize = 0;
    while i < chars.len()
        invariant
            i <= chars.len(),
            chars@ == key@,
            out@ == old(out)@ + pointer_token(chars@.take(i as int)),
        decreases chars.len() - i,
    {
        let c = chars[i];
        let ghost before = out@;
        if c == '~' {
            out.push('~');
            out.push('0');
        } else if c == '/' {
            out.push('~');
            out.push('1');
        } else {
            out.push(c);
        }
        proof {
            assert(chars@.take(i + 1).drop_last() =~= chars@.take(i as int));
            assert(chars@.take(i + 1).last() == c);
            assert(out@ =~= before + pointer_escape(c));
        }
        i += 1;
    }
    proof {
        assert(chars@.take(chars.len() as int) =~= chars@);
    }
}

/// The JSON pointer to the host of a project in the store document.
pub fn host_pointer(project: &Project) -> (r: String)
    ensures
        r@ == host_place(*project),
{
    let mut out = String::from_str("/apps/");
    push_pointer_token(&mut out, project.vendor.as_str());
    out.append("/");
    push_pointer_token(&mut out, project.name.as_str());
    out.append("/sticky-host/stickyHost");
    out
}

/// The keys under which the store document keeps the route of a project,
/// from the top down.
pub fn store_keys(project: &Project) -> (r: Vec<String>)
    ensures
        r@.len() == 4,
        r@[0]@ == "apps"@,
        r@[1]@ == project.vendor@,
        r@[2]@ == project.name@,
        r@[3]@ == "sticky-host"@,
{
    let mut keys: Vec<String> = Vec::new();
    keys.push(String::from_str("apps"));
    keys.push(project.vendor.clone());
    keys.push(project.name.clone());
    keys.push(String::from_str("sticky-host"));
    keys
}

/// What the store document keeps under `sticky-host` for a route, as JSON.
pub fn sticky_entry(host: &str, last_updated: u64) -> (r: String)
    ensures
        r@ == route_entry(host@, last_updated),
{
    let mut out = String::from_str("{\"stickyHost\":\"");
    push_json_escaped(&mut out, host);
    out.append("\",\"lastUpdated\":");
    push_number(&mut out, last_updated);
    out.append("}");
    out
}

/// Reads the store document for a run: the store holds the route of the
/// project, if the document keeps one, and nothing else.
pub fn load(document: &str, project: &Project) -> (store: RouteStore)
    ensures
        store.wf(),
        store.routes() == loaded(document@, *project),
{
    let mut store = RouteStore::new();
    let pointer = host_pointer(project);
    match json_parse(document) {
        Ok(doc) => match json_at(&doc, pointer.as_str()) {
            JsonProbe::Text(host) => {
                store.put(project.vendor.as_str(), project.name.as_str(), host.as_str(), 0);
            },
            _ => {},
        },
        Err(_) => {},
    }
    store
}

/// The state of resolution for one project.
#[derive(Debug, Clone)]
pub enum Resolver {
    Unresolved,
    Resolved(StickyRoute),
}

/// `Resolver` as contracts see it.
pub enum ResolverView {
    Unresolved,
    Resolved(Seq<char>),
}

impl View for Resolver {
    type V = ResolverView;

    open spec fn view(&self) -> ResolverView {
        match self {
            Resolver::Unresolved => ResolverView::Unresolved,
            Resolver::Resolved(route) => ResolverView::Resolved(route.host@),
        }
    }
}

/// What resolution needs next.
#[derive(Debug, Clone)]
pub enum ResolveStep {
    /// The route is known: no request is needed.
    Cached(StickyRoute),
    /// The route is not known: this request has to be sent, and the sticky
    /// header of its reply handed to `check_availability`.
    Probe(SyncRequest),
}

/// The state that a store gives a project: resolved if a host is kept for
/// it and that host is not empty.
pub open spec fn resolution(routes: Map<RouteKey, RouteValue>, key: RouteKey) -> ResolverView {
    if routes.contains_key(key) && routes[key].0.len() > 0 {
        ResolverView::Resolved(routes[key].0)
    } else {
        ResolverView::Unresolved
    }
}

/// The host named by a sticky header of the form `host:suffix`: what stands
/// before the first colon, or all of it where there is none.
pub open spec fn host_part(header: Seq<char>) -> Seq<char> {
    header.subrange(0, first_index(header, ':'))
}

/// The host that a probe's reply gives, if it gives one.
pub open spec fn probed_host(header: Option<Seq<char>>) -> Option<Seq<char>> {
    match header {
        Some(h) => if host_part(h).len() > 0 {
            Some(host_part(h))
        } else {
            None
        },
        None => None,
    }
}

/// The store after a probe's reply: a host that was given is kept, and
/// without one nothing changes.
pub open spec fn settled(
    routes: Map<RouteKey, RouteValue>,
    key: RouteKey,
    header: Option<Seq<char>>,
    now: u64,
) -> Map<RouteKey, RouteValue> {
    match probed_host(header) {
        Some(host) => routes.insert(key, (host, now)),
        None => routes,
    }
}

/// The view of an optional text.
pub open spec fn header_view(header: Option<&str>) -> Option<Seq<char>> {
    match header {
        Some(h) => Some(h@),
        None => None,
    }
}

/// The host named by a sticky header.
pub fn parse_sticky_host(header: &str) -> (host: String)
    ensures
        host@ == host_part(header@),
{
    let chars = chars_of(header);
    let end = find_char(&chars, ':');
    string_of_range(&chars, 0, end)
}

impl Resolver {
    /// The state that the store gives `project`.
    pub fn of(store: &RouteStore, project: &Project) -> (r: Resolver)
        requires
            store.wf(),
        ensures
            r@ == resolution(store.routes(), route_key(*project)),
    {
        match store.get(project.vendor.as_str(), project.name.as_str()) {
            Some(host) => {
                if host.as_str().is_empty() {
                    Resolver::Unresolved
                } else {
                    Resolver::Resolved(StickyRoute { host })
                }
            },
            None => Resolver::Unresolved,
        }
    }
}

/// First half of resolution. With a route in the store the answer is that
/// route and no request is made; otherwise it is the availability probe to
/// send. The store is not changed.
pub fn resolve(store: &RouteStore, project: &Project, env: &Vtex) -> (step: ResolveStep)
    requires
        store.wf(),
    ensures
        match step {
            ResolveStep::Cached(route) => resolution(store.routes(), route_key(*project))
                == ResolverView::Resolved(route.host@),
            ResolveStep::Probe(request) => {
                &&& resolution(store.routes(), route_key(*project)) == ResolverView::Unresolved
                &&& request.method == Method::Post
                &&& request.url@ == route_url(Routes::Availability, *project, *env)
                &&& headers_view(request.headers@) == signing_headers(env.token@) + seq![
                    (sticky_header_name(), probe_tag(*project, *env)),
                ]
                &&& request.body@ == BodyView::Empty
            },
        },
{
    match Resolver::of(store, project) {
        Resolver::Resolved(route) => ResolveStep::Cached(route),
        Resolver::Unresolved => ResolveStep::Probe(availability(project, env)),
    }
}

/// Second half of resolution: reads the sticky header of the probe's reply.
/// A header that names a host gives that host, which is kept in the store;
/// a reply without the header, or with one that names no host, is a routing
/// error and leaves the store as it was.
pub fn check_availability(
    store: &mut RouteStore,
    project: &Project,
    sticky_header: Option<&str>,
    now: u64,
) -> (r: Result<StickyRoute, SyncError>)
    requires
        old(store).wf(),
    ensures
        final(store).wf(),
        final(store).routes() == settled(
            old(store).routes(),
            route_key(*project),
            header_view(sticky_header),
            now,
        ),
        match r {
            Ok(route) => probed_host(header_view(sticky_header)) == Some(route.host@),
            Err(e) => probed_host(header_view(sticky_header)) is None && e
                == SyncError::RoutingError,
        },
{
    match sticky_header {
        None => Err(SyncError::RoutingError),
        Some(header) => {
            let host = parse_sticky_host(header);
            if host.as_str().is_empty() {
                Err(SyncError::RoutingError)
            } else {
                Vtex::set_sticky_host(store, project, host.as_str(), now);
                Ok(StickyRoute { host })
            }
        },
    }
}

/// Forgets the route of `project`, so that the next resolution probes
/// again.
pub fn invalidate(store: &mut RouteStore, project: &Project)
    requires
        old(store).wf(),
    ensures
        final(store).wf(),
        final(store).routes() == old(store).routes().remove(route_key(*project)),
        resolution(final(store).routes(), route_key(*project)) == ResolverView::Unresolved,
{
    store.remove(project.vendor.as_str(), project.name.as_str());
}

/// The client for a resolved route: every request it builds carries the
/// route and the bearer token.
pub fn client_for(env: &Vtex, route: &StickyRoute) -> (client: Client)
    ensures
        headers_view(client.headers@) == routed_headers(env.token@, route.host@),
{
    routed(env.token.as_str(), route.host.as_str())
}

/// After a probe whose reply named a host, the same project resolves from
/// the store, to that host: a second resolution makes no request.
pub proof fn lemma_second_resolve_is_cached(
    routes: Map<RouteKey, RouteValue>,
    key: RouteKey,
    header: Option<Seq<char>>,
    now: u64,
)
    requires
        probed_host(header) is Some,
    ensures
        resolution(settled(routes, key, header, now), key) == ResolverView::Resolved(
            probed_host(header)->0,
        ),
{
}

/// A route that is in the store stays the same through any number of
/// resolutions, and a probe for another project does not touch it.
pub proof fn lemma_route_is_stable(
    routes: Map<RouteKey, RouteValue>,
    key: RouteKey,
    other: RouteKey,
    header: Option<Seq<char>>,
    now: u64,
)
    requires
        other != key,
    ensures
        resolution(settled(routes, other, header, now), key) == resolution(routes, key),
{
}

/// After invalidation the project is unresolved, whatever was kept.
pub proof fn lemma_invalidate_forces_probe(routes: Map<RouteKey, RouteValue>, key: RouteKey)
    ensures
        resolution(routes.remove(key), key) == ResolverView::Unresolved,
{
}

} // verus!
