//! What a lookup finds. Each law speaks of a call: of its arguments, and of
//! what it gave back.

use vstd::prelude::*;
use vstd::string::*;

use crate::seqs::lemma_first_index_at;
use crate::state::{find_peer, find_pending, find_route, lookup_backend};
use crate::state::{conn_ids, hostnames, peer_of, PendingView, PipeView, RouteView};
use crate::state::{FrontdoorState, Pending, Pipe, Route};

verus! {

/// Whether the route at `i` is for `hostname`, and none before it is.
pub open spec fn first_route(routes: Seq<RouteView>, hostname: Seq<char>, i: int) -> bool {
    &&& 0 <= i < routes.len()
    &&& routes[i].hostname == hostname
    &&& forall|j: int| 0 <= j < i ==> (#[trigger] routes[j]).hostname != hostname
}

/// Whether no route is for `hostname`.
pub open spec fn no_route(routes: Seq<RouteView>, hostname: Seq<char>) -> bool {
    forall|j: int| 0 <= j < routes.len() ==> (#[trigger] routes[j]).hostname != hostname
}

/// Whether the pending connection at `i` has the id `conn`, and none before it
/// has.
pub open spec fn first_pending(pending: Seq<PendingView>, conn: Seq<char>, i: int) -> bool {
    &&& 0 <= i < pending.len()
    &&& pending[i].conn_id == conn
    &&& forall|j: int| 0 <= j < i ==> (#[trigger] pending[j]).conn_id != conn
}

/// Whether no pending connection has the id `conn`.
pub open spec fn no_pending(pending: Seq<PendingView>, conn: Seq<char>) -> bool {
    forall|j: int| 0 <= j < pending.len() ==> (#[trigger] pending[j]).conn_id != conn
}

/// Whether the pipe at `i` has the end `conn`, and none before it has.
pub open spec fn first_pipe(pipes: Seq<PipeView>, conn: Seq<char>, i: int) -> bool {
    &&& 0 <= i < pipes.len()
    &&& pipes[i].a == conn || pipes[i].b == conn
    &&& forall|j: int|
        0 <= j < i ==> (#[trigger] pipes[j]).a != conn && pipes[j].b != conn
}

/// Whether no pipe has the end `conn`.
pub open spec fn no_pipe(pipes: Seq<PipeView>, conn: Seq<char>) -> bool {
    forall|j: int|
        0 <= j < pipes.len() ==> (#[trigger] pipes[j]).a != conn && pipes[j].b != conn
}

pub(crate) proof fn lemma_first_route(routes: Seq<RouteView>, hostname: Seq<char>, i: int)
    requires
        first_route(routes, hostname, i),
    ensures
        crate::seqs::first_index(hostnames(routes), hostname) == Some(i),
{
    let names = hostnames(routes);
    assert forall|j: int| 0 <= j < i implies names[j] != hostname by {
        assert(routes[j].hostname != hostname);
    }
    lemma_first_index_at(names, hostname, i);
}

pub(crate) proof fn lemma_no_route(routes: Seq<RouteView>, hostname: Seq<char>)
    requires
        no_route(routes, hostname),
    ensures
        crate::seqs::first_index(hostnames(routes), hostname) is None,
{
    let names = hostnames(routes);
    assert forall|j: int| 0 <= j < names.len() implies names[j] != hostname by {
        assert(routes[j].hostname != hostname);
    }
    lemma_first_index_at(names, hostname, names.len() as int);
}

pub(crate) proof fn lemma_first_pending(pending: Seq<PendingView>, conn: Seq<char>, i: int)
    requires
        first_pending(pending, conn, i),
    ensures
        crate::state::pending_index(pending, conn) == Some(i),
{
    let ids = conn_ids(pending);
    assert forall|j: int| 0 <= j < i implies ids[j] != conn by {
        assert(pending[j].conn_id != conn);
    }
    lemma_first_index_at(ids, conn, i);
}

pub(crate) proof fn lemma_no_pending(pending: Seq<PendingView>, conn: Seq<char>)
    requires
        no_pending(pending, conn),
    ensures
        crate::state::pending_index(pending, conn) is None,
{
    let ids = conn_ids(pending);
    assert forall|j: int| 0 <= j < ids.len() implies ids[j] != conn by {
        assert(pending[j].conn_id != conn);
    }
    lemma_first_index_at(ids, conn, ids.len() as int);
}

pub(crate) proof fn lemma_first_pipe(pipes: Seq<PipeView>, conn: Seq<char>, i: int)
    requires
        first_pipe(pipes, conn, i),
    ensures
        peer_of(pipes, conn) == Some(
            if pipes[i].a == conn {
                pipes[i].b
            } else {
                pipes[i].a
            },
        ),
    decreases i,
{
    if i > 0 {
        let rest = pipes.drop_first();
        assert(pipes[0].a != conn && pipes[0].b != conn);
        assert forall|j: int| 0 <= j < i - 1 implies (#[trigger] rest[j]).a != conn && rest[j].b
            != conn by {
            assert(rest[j] == pipes[j + 1]);
        }
        lemma_first_pipe(rest, conn, i - 1);
    }
}

pub(crate) proof fn lemma_no_pipe(pipes: Seq<PipeView>, conn: Seq<char>)
    requires
        no_pipe(pipes, conn),
    ensures
        peer_of(pipes, conn) is None,
    decreases pipes.len(),
{
    if pipes.len() > 0 {
        let rest = pipes.drop_first();
        assert(pipes[0].a != conn && pipes[0].b != conn);
        assert forall|j: int| 0 <= j < rest.len() implies (#[trigger] rest[j]).a != conn
            && rest[j].b != conn by {
            assert(rest[j] == pipes[j + 1]);
        }
        lemma_no_pipe(rest, conn);
    }
}

/// The view of a state holds all of the state, in order.
pub proof fn law_views_hold_everything(state: FrontdoorState, i: int)
    ensures
        state@.public_listener_id == state.public_listener_id@,
        state@.control_listener_id == state.control_listener_id@,
        state@.default_backend == state.default_backend@,
        state@.routes.len() == state.routes@.len(),
        state@.pending.len() == state.pending@.len(),
        state@.pipes.len() == state.pipes@.len(),
        0 <= i < state.routes@.len() ==> {
            &&& state@.routes[i].hostname == state.routes@[i].hostname@
            &&& state@.routes[i].backend == state.routes@[i].backend@
        },
        0 <= i < state.pending@.len() ==> {
            &&& state@.pending[i].conn_id == state.pending@[i].conn_id@
            &&& state@.pending[i].kind == state.pending@[i].kind@
            &&& state@.pending[i].buf == state.pending@[i].buf@
        },
        0 <= i < state.pipes@.len() ==> {
            &&& state@.pipes[i].a == state.pipes@[i].a@
            &&& state@.pipes[i].b == state.pipes@[i].b@
        },
{
}

/// The backend for a host is that of the first route for it, whatever the
/// default backend and the other routes are.
pub proof fn law_route_decides(
    state: &FrontdoorState,
    hostname: &str,
    found: Option<String>,
    i: int,
)
    requires
        call_ensures(lookup_backend, (state, hostname), found),
        first_route(state@.routes, hostname@, i),
    ensures
        found matches Some(backend) && backend@ == state@.routes[i].backend,
{
    lemma_first_route(state@.routes, hostname@, i);
}

/// A host without a route has the default backend, or none where there is no
/// default.
pub proof fn law_default_decides_without_a_route(
    state: &FrontdoorState,
    hostname: &str,
    found: Option<String>,
)
    requires
        call_ensures(lookup_backend, (state, hostname), found),
        no_route(state@.routes, hostname@),
    ensures
        state@.default_backend.len() > 0 ==> found is Some && found->0@
            == state@.default_backend,
        state@.default_backend.len() == 0 ==> found is None,
{
    lemma_no_route(state@.routes, hostname@);
}

/// The first route for a host is found, and none where there is none.
pub proof fn law_first_route_is_found(
    routes: &[Route],
    views: Seq<RouteView>,
    hostname: &str,
    found: Option<usize>,
    i: int,
)
    requires
        call_ensures(find_route, (routes, hostname), found),
        views.len() == routes@.len(),
        forall|k: int|
            0 <= k < views.len() ==> (#[trigger] views[k]).hostname == routes@[k].hostname@,
    ensures
        first_route(views, hostname@, i) ==> found == Some(i as usize) && i == i as usize,
        no_route(views, hostname@) ==> found is None,
{
    assert(hostnames(views) =~= hostnames(crate::seqs::views(routes@)));
    if first_route(views, hostname@, i) {
        lemma_first_route(views, hostname@, i);
    }
    if no_route(views, hostname@) {
        lemma_no_route(views, hostname@);
    }
}

/// The first pending connection with an id is found, and none where there is
/// none.
pub proof fn law_first_pending_is_found(
    pending: &[Pending],
    views: Seq<PendingView>,
    conn_id: &str,
    found: Option<usize>,
    i: int,
)
    requires
        call_ensures(find_pending, (pending, conn_id), found),
        views.len() == pending@.len(),
        forall|k: int|
            0 <= k < views.len() ==> (#[trigger] views[k]).conn_id == pending@[k].conn_id@,
    ensures
        first_pending(views, conn_id@, i) ==> found == Some(i as usize) && i == i as usize,
        no_pending(views, conn_id@) ==> found is None,
{
    assert(conn_ids(views) =~= conn_ids(crate::seqs::views(pending@)));
    if first_pending(views, conn_id@, i) {
        lemma_first_pending(views, conn_id@, i);
    }
    if no_pending(views, conn_id@) {
        lemma_no_pending(views, conn_id@);
    }
}

/// The peer of a connection is the other end of the first pipe that it is an
/// end of; a connection that is an end of none has none.
pub proof fn law_peer_is_the_other_end(
    pipes: &[Pipe],
    views: Seq<PipeView>,
    conn_id: &str,
    found: Option<String>,
    i: int,
)
    requires
        call_ensures(find_peer, (pipes, conn_id), found),
        views.len() == pipes@.len(),
        forall|k: int|
            0 <= k < views.len() ==> (#[trigger] views[k]).a == pipes@[k].a@ && views[k].b
                == pipes@[k].b@,
    ensures
        first_pipe(views, conn_id@, i) ==> {
            &&& found is Some
            &&& views[i].a == conn_id@ ==> found->0@ == views[i].b
            &&& views[i].a != conn_id@ ==> found->0@ == views[i].a
        },
        no_pipe(views, conn_id@) ==> found is None,
{
    assert(views =~= crate::seqs::views(pipes@));
    if first_pipe(views, conn_id@, i) {
        lemma_first_pipe(views, conn_id@, i);
    }
    if no_pipe(views, conn_id@) {
        lemma_no_pipe(views, conn_id@);
    }
}

} // verus!
