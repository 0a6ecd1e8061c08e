//! The state of the front door: its routes, the connections it has not placed
//! yet, and the pairs of connections that it bridges.

use vstd::prelude::*;
use vstd::string::*;

use crate::seqs::{first_index, lemma_first_index_at, views};
use crate::text::str_eq;

verus! {

/// Sends connections for `hostname` to `backend`.
#[derive(Clone, Debug, PartialEq, Eq)]
pub struct Route {
    pub hostname: String,
    pub backend: String,
}

/// A connection that has not been placed yet. `kind` is
///   * `"unknown"`: no bytes seen yet; the first chunk tells what it is,
///   * `"tls"`: the bytes of a ClientHello are being gathered,
///   * `"control"`: lines of JSON are being gathered.
#[derive(Clone, Debug, PartialEq, Eq)]
pub struct Pending {
    pub conn_id: String,
    pub kind: String,
    pub buf: Vec<u8>,
}

/// Two connections that are bridged: what arrives on one is sent on the other.
#[derive(Clone, Debug, PartialEq, Eq)]
pub struct Pipe {
    pub a: String,
    pub b: String,
}

/// The state of the front door. An empty `default_backend` means that there
/// is none.
#[derive(Clone, Debug, PartialEq, Eq)]
pub struct FrontdoorState {
    pub public_listener_id: String,
    pub control_listener_id: String,
    pub routes: Vec<Route>,
    pub default_backend: String,
    pub pending: Vec<Pending>,
    pub pipes: Vec<Pipe>,
}

/// The view of a `Route`.
pub struct RouteView {
    pub hostname: Seq<char>,
    pub backend: Seq<char>,
}

/// The view of a `Pending`.
pub struct PendingView {
    pub conn_id: Seq<char>,
    pub kind: Seq<char>,
    pub buf: Seq<u8>,
}

/// The view of a `Pipe`.
pub struct PipeView {
    pub a: Seq<char>,
    pub b: Seq<char>,
}

/// The view of a `FrontdoorState`.
pub struct FrontdoorView {
    pub public_listener_id: Seq<char>,
    pub control_listener_id: Seq<char>,
    pub routes: Seq<RouteView>,
    pub default_backend: Seq<char>,
    pub pending: Seq<PendingView>,
    pub pipes: Seq<PipeView>,
}

impl View for Route {
    type V = RouteView;

    open spec fn view(&self) -> RouteView {
        RouteView { hostname: self.hostname@, backend: self.backend@ }
    }
}

impl View for Pending {
    type V = PendingView;

    open spec fn view(&self) -> PendingView {
        PendingView { conn_id: self.conn_id@, kind: self.kind@, buf: self.buf@ }
    }
}

impl View for Pipe {
    type V = PipeView;

    open spec fn view(&self) -> PipeView {
        PipeView { a: self.a@, b: self.b@ }
    }
}

impl View for FrontdoorState {
    type V = FrontdoorView;

    open spec fn view(&self) -> FrontdoorView {
        FrontdoorView {
            public_listener_id: self.public_listener_id@,
            control_listener_id: self.control_listener_id@,
            routes: views(self.routes@),
            default_backend: self.default_backend@,
            pending: views(self.pending@),
            pipes: views(self.pipes@),
        }
    }
}

impl PipeView {
    /// Whether `conn` is one of the two ends.
    pub open spec fn joins(self, conn: Seq<char>) -> bool {
        self.a == conn || self.b == conn
    }

    /// The end opposite to `conn`.
    pub open spec fn other_end(self, conn: Seq<char>) -> Seq<char> {
        if self.a == conn {
            self.b
        } else {
            self.a
        }
    }
}

/// The ids of the pending connections.
pub open spec fn conn_ids(pending: Seq<PendingView>) -> Seq<Seq<char>> {
    Seq::new(pending.len(), |i: int| pending[i].conn_id)
}

/// The position of the first pending connection with the id `conn`.
pub open spec fn pending_index(pending: Seq<PendingView>, conn: Seq<char>) -> Option<int> {
    first_index(conn_ids(pending), conn)
}

/// The connection that the first pipe with the end `conn` joins to it.
pub open spec fn peer_of(pipes: Seq<PipeView>, conn: Seq<char>) -> Option<Seq<char>>
    decreases pipes.len(),
{
    if pipes.len() == 0 {
        None
    } else if pipes[0].joins(conn) {
        Some(pipes[0].other_end(conn))
    } else {
        peer_of(pipes.drop_first(), conn)
    }
}

/// The host names that have a route.
pub open spec fn hostnames(routes: Seq<RouteView>) -> Seq<Seq<char>> {
    Seq::new(routes.len(), |i: int| routes[i].hostname)
}

/// The backend of the first route for `hostname`. The match is exact.
pub open spec fn route_to(routes: Seq<RouteView>, hostname: Seq<char>) -> Option<Seq<char>> {
    match first_index(hostnames(routes), hostname) {
        Some(i) => Some(routes[i].backend),
        None => None,
    }
}

/// The backend for connections that no route places, if there is one.
pub open spec fn default_of(s: FrontdoorView) -> Option<Seq<char>> {
    if s.default_backend.len() == 0 {
        None
    } else {
        Some(s.default_backend)
    }
}

/// The backend for `hostname`: that of its route, or else the default.
pub open spec fn backend_for(s: FrontdoorView, hostname: Seq<char>) -> Option<Seq<char>> {
    match route_to(s.routes, hostname) {
        Some(b) => Some(b),
        None => default_of(s),
    }
}

/// The position of the pending connection with the id `conn_id`.
pub fn find_pending(pending: &[Pending], conn_id: &str) -> (r: Option<usize>)
    ensures
        r is Some <==> pending_index(views(pending@), conn_id@) is Some,
        r matches Some(i) ==> pending_index(views(pending@), conn_id@) == Some(i as int) && i
            < pending@.len() && pending@[i as int].conn_id@ == conn_id@,
{
    let ghost ids = conn_ids(views(pending@));
    let mut i: usize = 0;
    while i < pending.len()
        invariant
            i <= pending@.len(),
            ids == conn_ids(views(pending@)),
            forall|j: int| 0 <= j < i ==> ids[j] != conn_id@,
        decreases pending@.len() - i,
    {
        if str_eq(pending[i].conn_id.as_str(), conn_id) {
            proof {
                lemma_first_index_at(ids, conn_id@, i as int);
            }
            return Some(i);
        }
        i = i + 1;
    }
    proof {
        lemma_first_index_at(ids, conn_id@, i as int);
    }
    None
}

/// The position of the route for `hostname`.
pub fn find_route(routes: &[Route], hostname: &str) -> (r: Option<usize>)
    ensures
        r is Some <==> first_index(hostnames(views(routes@)), hostname@) is Some,
        r matches Some(i) ==> first_index(hostnames(views(routes@)), hostname@) == Some(i as int)
            && i < routes@.len() && routes@[i as int].hostname@ == hostname@,
{
    let ghost names = hostnames(views(routes@));
    let mut i: usize = 0;
    while i < routes.len()
        invariant
            i <= routes@.len(),
            names == hostnames(views(routes@)),
            forall|j: int| 0 <= j < i ==> names[j] != hostname@,
        decreases routes@.len() - i,
    {
        if str_eq(routes[i].hostname.as_str(), hostname) {
            proof {
                lemma_first_index_at(names, hostname@, i as int);
            }
            return Some(i);
        }
        i = i + 1;
    }
    proof {
        lemma_first_index_at(names, hostname@, i as int);
    }
    None
}

/// The connection that `conn_id` is bridged to.
pub fn find_peer(pipes: &[Pipe], conn_id: &str) -> (r: Option<String>)
    ensures
        r is Some <==> peer_of(views(pipes@), conn_id@) is Some,
        r matches Some(p) ==> peer_of(views(pipes@), conn_id@) == Some(p@),
{
    let mut i: usize = 0;
    proof {
        assert(views(pipes@).skip(0) =~= views(pipes@));
    }
    while i < pipes.len()
        invariant
            i <= pipes@.len(),
            peer_of(views(pipes@), conn_id@) == peer_of(views(pipes@).skip(i as int), conn_id@),
        decreases pipes@.len() - i,
    {
        proof {
            let rest = views(pipes@).skip(i as int);
            assert(rest[0] == pipes@[i as int]@);
            assert(rest.drop_first() =~= views(pipes@).skip(i + 1));
        }
        let p = &pipes[i];
        if str_eq(p.a.as_str(), conn_id) {
            return Some(p.b.clone());
        }
        if str_eq(p.b.as_str(), conn_id) {
            return Some(p.a.clone());
        }
        i = i + 1;
    }
    None
}

/// The backend for connections that ask for `hostname`.
pub fn lookup_backend(state: &FrontdoorState, hostname: &str) -> (r: Option<String>)
    ensures
        r is Some <==> backend_for(state@, hostname@) is Some,
        r matches Some(b) ==> backend_for(state@, hostname@) == Some(b@),
{
    if let Some(i) = find_route(state.routes.as_slice(), hostname) {
        return Some(state.routes[i].backend.clone());
    }
    if !state.default_backend.as_str().is_empty() {
        return Some(state.default_backend.clone());
    }
    None
}

} // verus!
