//! What holds of connections over their whole life.
//!
//! The host gives each connection an id of its own. As long as it does, every
//! connection that the front door knows is in one place only: it is pending,
//! or it is one end of one pipe.

use vstd::prelude::*;
use vstd::string::*;

use crate::actor::PENDING_BUFFER_CAP;
use crate::actor::{
    after_close, after_data, after_requests, bridged, close_all, kind_of, torn_down, unjoined, with_pending,
    without_pending_at, NextView,
};
use crate::control::NEWLINE;
use crate::control::{tail_of, RequestView};
use crate::control_laws::{law_commands_leave_connections_alone, law_lines_hold_no_newline};
use crate::init::{started, PlanView};
use crate::seqs::{first_index, lemma_first_index, lemma_first_index_at, swap_removed};
use crate::sni::{sni, SniView, RECORD_TYPE_HANDSHAKE};
use crate::state::{conn_ids, peer_of, pending_index, FrontdoorView, PendingView, PipeView};

verus! {

/// Whether no two pipes share an end, and no pipe has the same end twice.
pub open spec fn pipes_apart(pipes: Seq<PipeView>) -> bool {
    &&& forall|i: int| 0 <= i < pipes.len() ==> (#[trigger] pipes[i]).a != pipes[i].b
    &&& forall|i: int, j: int|
        0 <= i < pipes.len() && 0 <= j < pipes.len() && i != j ==> !(#[trigger] pipes[i]).joins(
            (#[trigger] pipes[j]).a,
        ) && !pipes[i].joins(pipes[j].b)
}

/// Whether every connection is in one place only.
pub open spec fn all_apart(s: FrontdoorView) -> bool {
    &&& pipes_apart(s.pipes)
    &&& forall|i: int, j: int|
        0 <= i < s.pending.len() && 0 <= j < s.pending.len() && i != j ==> (
        #[trigger] s.pending[i]).conn_id != (#[trigger] s.pending[j]).conn_id
    &&& forall|i: int, j: int|
        0 <= i < s.pending.len() && 0 <= j < s.pipes.len() ==> !(#[trigger] s.pipes[j]).joins(
            (#[trigger] s.pending[i]).conn_id,
        )
}

/// Whether a pending connection has a reason to wait: it has sent nothing yet,
/// or the start of a ClientHello, or the start of a line. Never more than the
/// cap is buffered.
pub open spec fn waits(p: PendingView) -> bool {
    &&& p.buf.len() <= PENDING_BUFFER_CAP
    &&& {
        ||| p.kind == "unknown"@ && p.buf.len() == 0
        ||| p.kind == "tls"@ && p.buf.len() > 0 && p.buf[0] == RECORD_TYPE_HANDSHAKE && sni(p.buf)
            == SniView::Incomplete
        ||| p.kind == "control"@ && !p.buf.contains(NEWLINE)
    }
}

/// The state between two callbacks.
pub open spec fn sound(s: FrontdoorView) -> bool {
    &&& all_apart(s)
    &&& forall|i: int| 0 <= i < s.pending.len() ==> waits(#[trigger] s.pending[i])
}

/// The state while `conn` is on its way from `pending` to `pipes`.
pub open spec fn sound_but(s: FrontdoorView, conn: Seq<char>) -> bool {
    &&& all_apart(s)
    &&& forall|i: int|
        0 <= i < s.pending.len() && (#[trigger] s.pending[i]).conn_id != conn ==> waits(
            s.pending[i],
        )
}

/// Whether `conn` is pending.
pub open spec fn is_pending(s: FrontdoorView, conn: Seq<char>) -> bool {
    exists|i: int| 0 <= i < s.pending.len() && (#[trigger] s.pending[i]).conn_id == conn
}

/// Whether `conn` is an end of a pipe.
pub open spec fn is_piped(s: FrontdoorView, conn: Seq<char>) -> bool {
    exists|j: int| 0 <= j < s.pipes.len() && (#[trigger] s.pipes[j]).joins(conn)
}

/// Whether the front door knows `conn`.
pub open spec fn is_known(s: FrontdoorView, conn: Seq<char>) -> bool {
    is_pending(s, conn) || is_piped(s, conn)
}

pub(crate) proof fn lemma_pending_index(pending: Seq<PendingView>, conn: Seq<char>)
    ensures
        pending_index(pending, conn) matches Some(i) ==> 0 <= i < pending.len()
            && pending[i].conn_id == conn && forall|j: int|
            0 <= j < i ==> (#[trigger] pending[j]).conn_id != conn,
        pending_index(pending, conn) is None ==> forall|j: int|
            0 <= j < pending.len() ==> (#[trigger] pending[j]).conn_id != conn,
{
    let ids = conn_ids(pending);
    lemma_first_index(ids, conn);
    assert forall|j: int|
        0 <= j < pending.len() && (pending_index(pending, conn) matches Some(i) ==> j
            < i) implies (#[trigger] pending[j]).conn_id != conn by {
        assert(ids[j] != conn);
    }
}

pub(crate) proof fn lemma_pending_at(s: FrontdoorView, i: int)
    requires
        all_apart(s),
        0 <= i < s.pending.len(),
    ensures
        pending_index(s.pending, s.pending[i].conn_id) == Some(i),
{
    let ids = conn_ids(s.pending);
    let conn = s.pending[i].conn_id;
    assert forall|j: int| 0 <= j < i implies ids[j] != conn by {
        assert(s.pending[j].conn_id != s.pending[i].conn_id);
    }
    lemma_first_index_at(ids, conn, i);
}

pub(crate) proof fn lemma_peer_of(pipes: Seq<PipeView>, conn: Seq<char>)
    ensures
        peer_of(pipes, conn) is None ==> forall|j: int|
            0 <= j < pipes.len() ==> !(#[trigger] pipes[j]).joins(conn),
        peer_of(pipes, conn) matches Some(peer) ==> exists|j: int|
            0 <= j < pipes.len() && (#[trigger] pipes[j]).joins(conn) && pipes[j].other_end(conn)
                == peer,
    decreases pipes.len(),
{
    if pipes.len() > 0 && !pipes[0].joins(conn) {
        let rest = pipes.drop_first();
        lemma_peer_of(rest, conn);
        match peer_of(rest, conn) {
            None => {
                assert forall|j: int| 0 <= j < pipes.len() implies !(#[trigger] pipes[j]).joins(
                    conn,
                ) by {
                    if j > 0 {
                        assert(rest[j - 1] == pipes[j]);
                    }
                }
            },
            Some(peer) => {
                let j = choose|j: int|
                    0 <= j < rest.len() && (#[trigger] rest[j]).joins(conn) && rest[j].other_end(
                        conn,
                    ) == peer;
                assert(pipes[j + 1] == rest[j]);
            },
        }
    }
}

proof fn lemma_peer_at(pipes: Seq<PipeView>, j: int, conn: Seq<char>)
    requires
        pipes_apart(pipes),
        0 <= j < pipes.len(),
        pipes[j].joins(conn),
    ensures
        peer_of(pipes, conn) == Some(pipes[j].other_end(conn)),
{
    lemma_peer_of(pipes, conn);
    if let Some(peer) = peer_of(pipes, conn) {
        let k = choose|k: int|
            0 <= k < pipes.len() && (#[trigger] pipes[k]).joins(conn) && pipes[k].other_end(conn)
                == peer;
        assert(k == j);
    }
}

proof fn lemma_unjoined(pipes: Seq<PipeView>, conn: Seq<char>)
    ensures
        forall|i: int|
            0 <= i < unjoined(pipes, conn).len() ==> !(#[trigger] unjoined(pipes, conn)[i]).joins(
                conn,
            ) && pipes.contains(unjoined(pipes, conn)[i]),
        forall|i: int|
            0 <= i < pipes.len() && !(#[trigger] pipes[i]).joins(conn) ==> unjoined(
                pipes,
                conn,
            ).contains(pipes[i]),
        pipes_apart(pipes) ==> pipes_apart(unjoined(pipes, conn)),
    decreases pipes.len(),
{
    if pipes.len() > 0 {
        let rest = pipes.drop_first();
        let kept = unjoined(rest, conn);
        let after = unjoined(pipes, conn);
        lemma_unjoined(rest, conn);
        assert forall|x: PipeView| rest.contains(x) implies pipes.contains(x) by {
            let k = choose|k: int| 0 <= k < rest.len() && rest[k] == x;
            assert(pipes[k + 1] == x);
        }
        if pipes_apart(pipes) {
            assert forall|i: int, j: int|
                0 <= i < rest.len() && 0 <= j < rest.len() && i != j implies !(
            #[trigger] rest[i]).joins((#[trigger] rest[j]).a) && !rest[i].joins(rest[j].b) by {
                assert(rest[i] == pipes[i + 1]);
                assert(rest[j] == pipes[j + 1]);
            }
            assert forall|i: int| 0 <= i < rest.len() implies (#[trigger] rest[i]).a
                != rest[i].b by {
                assert(rest[i] == pipes[i + 1]);
            }
            assert(pipes_apart(rest));
        }
        if pipes[0].joins(conn) {
            assert forall|i: int|
                0 <= i < pipes.len() && !(#[trigger] pipes[i]).joins(conn) implies after.contains(
                pipes[i],
            ) by {
                assert(rest[i - 1] == pipes[i]);
            }
        } else {
            assert(after =~= seq![pipes[0]] + kept);
            assert forall|i: int| 0 <= i < after.len() implies !(#[trigger] after[i]).joins(conn)
                && pipes.contains(after[i]) by {
                if i == 0 {
                    assert(pipes[0] == after[0]);
                } else {
                    assert(after[i] == kept[i - 1]);
                }
            }
            assert forall|i: int|
                0 <= i < pipes.len() && !(#[trigger] pipes[i]).joins(conn) implies after.contains(
                pipes[i],
            ) by {
                if i == 0 {
                    assert(after[0] == pipes[0]);
                } else {
                    assert(rest[i - 1] == pipes[i]);
                    let k = choose|k: int| 0 <= k < kept.len() && kept[k] == pipes[i];
                    assert(after[k + 1] == pipes[i]);
                }
            }
            if pipes_apart(pipes) {
                assert forall|i: int| 0 <= i < after.len() implies (#[trigger] after[i]).a
                    != after[i].b by {
                    if i > 0 {
                        assert(after[i] == kept[i - 1]);
                    }
                }
                assert forall|i: int, j: int|
                    0 <= i < after.len() && 0 <= j < after.len() && i != j implies !(
                #[trigger] after[i]).joins((#[trigger] after[j]).a) && !after[i].joins(
                    after[j].b,
                ) by {
                    if i > 0 && j > 0 {
                        assert(after[i] == kept[i - 1]);
                        assert(after[j] == kept[j - 1]);
                    } else {
                        let m = if i == 0 {
                            j
                        } else {
                            i
                        };
                        assert(after[m] == kept[m - 1]);
                        let k = choose|k: int| 0 <= k < rest.len() && rest[k] == kept[m - 1];
                        assert(pipes[k + 1] == after[m]);
                    }
                }
            }
        }
    }
}

/// A front door that has just started is sound.
pub proof fn law_start_is_sound(p: PlanView, public: Seq<char>, control: Seq<char>)
    ensures
        sound(started(p, public, control)),
{
}

/// Accepting a connection with a new id keeps the state sound.
pub proof fn law_accepting_keeps_sound(s: FrontdoorView, conn: Seq<char>)
    requires
        sound(s),
        !is_known(s, conn),
    ensures
        sound(with_pending(s, conn)),
        is_pending(with_pending(s, conn), conn),
{
    let after = with_pending(s, conn);
    assert(after.pending[s.pending.len() as int].conn_id == conn);
}

proof fn lemma_removing_keeps(s: FrontdoorView, i: int)
    requires
        sound_but(s, s.pending[i].conn_id),
        0 <= i < s.pending.len(),
    ensures
        sound(without_pending_at(s, i)),
        !is_known(without_pending_at(s, i), s.pending[i].conn_id),
{
    let after = without_pending_at(s, i);
    let n = s.pending.len() as int;
    assert(after.pending.len() == n - 1);
    assert(forall|k: int|
        0 <= k < n - 1 ==> #[trigger] after.pending[k] == if k == i {
            s.pending[n - 1]
        } else {
            s.pending[k]
        });
}

pub(crate) proof fn lemma_kinds()
    ensures
        "unknown"@ != "tls"@,
        "unknown"@ != "control"@,
        "tls"@ != "control"@,
        "junk"@ != "tls"@,
        "junk"@ != "control"@,
        "junk"@ != "unknown"@,
{
    reveal_strlit("unknown");
    reveal_strlit("tls");
    reveal_strlit("control");
    reveal_strlit("junk");
    assert("unknown"@[0] == 'u');
    assert("tls"@[0] == 't');
    assert("control"@[0] == 'c');
    assert("junk"@[0] == 'j');
}

proof fn lemma_replacing_keeps(s: FrontdoorView, i: int, p: PendingView)
    requires
        sound(s),
        0 <= i < s.pending.len(),
        p.conn_id == s.pending[i].conn_id,
    ensures
        sound_but(FrontdoorView { pending: s.pending.update(i, p), ..s }, p.conn_id),
        waits(p) ==> sound(FrontdoorView { pending: s.pending.update(i, p), ..s }),
{
}

pub(crate) proof fn lemma_tail_is_shorter(buf: Seq<u8>)
    ensures
        tail_of(buf).len() <= buf.len(),
    decreases buf.len(),
{
    lemma_first_index(buf, NEWLINE);
    if let Some(n) = first_index(buf, NEWLINE) {
        lemma_tail_is_shorter(buf.skip(n + 1));
    }
}

/// Whatever arrives, the state stays sound. Where the next step is to connect
/// to a backend, it does but for the connection that is to be bridged, which
/// is the one on which the bytes arrived.
pub proof fn law_data_keeps_sound(s: FrontdoorView, conn: Seq<char>, data: Seq<u8>)
    requires
        sound(s),
    ensures
        ({
            let (after, t) = after_data(s, conn, data);
            match t.next {
                NextView::Connect(p) => {
                    &&& p.inbound == conn
                    &&& 0 <= p.idx < after.pending.len()
                    &&& after.pending[p.idx].conn_id == conn
                    &&& sound_but(after, conn)
                },
                _ => sound(after),
            }
        }),
{
    lemma_pending_index(s.pending, conn);
    if let Some(i) = pending_index(s.pending, conn) {
        lemma_kinds();
        let p = s.pending[i];
        assert(waits(p));
        let kind = if p.kind == "unknown"@ && data.len() > 0 {
            kind_of(data[0])
        } else {
            p.kind
        };
        let buf = p.buf + data;
        let q = PendingView { conn_id: p.conn_id, kind, buf };
        let kept = FrontdoorView { pending: s.pending.update(i, q), ..s };
        lemma_replacing_keeps(s, i, q);
        lemma_removing_keeps(s, i);
        assert(kept.pending[i].conn_id == conn);
        assert(swap_removed(kept.pending, i) =~= swap_removed(s.pending, i));
        if buf.len() <= PENDING_BUFFER_CAP && kind == "tls"@ {
            assert(buf.len() > 0 && buf[0] == RECORD_TYPE_HANDSHAKE);
        }
        if buf.len() <= PENDING_BUFFER_CAP && kind == "control"@ {
            law_lines_hold_no_newline(buf);
            lemma_tail_is_shorter(buf);
            let r = PendingView { conn_id: p.conn_id, kind, buf: tail_of(buf) };
            lemma_replacing_keeps(s, i, r);
            assert(kept.pending.update(i, r) =~= s.pending.update(i, r));
        }
    } else if let Some(peer) = peer_of(s.pipes, conn) {
        law_teardown_forgets_both_ends(s, conn, peer, conn);
    }
}

/// Where the connection that is pending at `i` cannot be bridged, dropping it
/// leaves the state sound, and the connection is forgotten.
pub proof fn law_failed_promotion_forgets(s: FrontdoorView, i: int)
    requires
        0 <= i < s.pending.len(),
        sound_but(s, s.pending[i].conn_id),
    ensures
        sound(without_pending_at(s, i)),
        !is_known(without_pending_at(s, i), s.pending[i].conn_id),
{
    lemma_removing_keeps(s, i);
}

/// Bridging the connection that is pending at `i` to an outbound one with a new
/// id leaves the state sound, and each of the two is then the peer of the
/// other.
pub proof fn law_promotion_bridges(s: FrontdoorView, i: int, outbound: Seq<char>)
    requires
        0 <= i < s.pending.len(),
        sound_but(s, s.pending[i].conn_id),
        !is_known(s, outbound),
    ensures
        ({
            let inbound = s.pending[i].conn_id;
            let after = bridged(s, i, inbound, outbound);
            &&& sound(after)
            &&& !is_pending(after, inbound)
            &&& peer_of(after.pipes, inbound) == Some(outbound)
            &&& peer_of(after.pipes, outbound) == Some(inbound)
        }),
{
    let inbound = s.pending[i].conn_id;
    let pipe = PipeView { a: inbound, b: outbound };
    let gone = without_pending_at(s, i);
    let after = bridged(s, i, inbound, outbound);
    let n = s.pipes.len() as int;
    lemma_removing_keeps(s, i);
    assert(after.pending == gone.pending);
    assert(after.pipes[n] == pipe);
    assert(inbound != outbound);
    assert forall|j: int| 0 <= j < n implies !(#[trigger] after.pipes[j]).joins(inbound)
        && !after.pipes[j].joins(outbound) by {
        assert(after.pipes[j] == s.pipes[j]);
        assert(!s.pipes[j].joins(s.pending[i].conn_id));
    }
    assert forall|k: int| 0 <= k < gone.pending.len() implies (#[trigger] gone.pending[k]).conn_id
        != outbound && gone.pending[k].conn_id != inbound by {
        assert(gone.pending[k] == if k == i {
            s.pending[s.pending.len() - 1]
        } else {
            s.pending[k]
        });
    }
    assert(pipes_apart(after.pipes));
    assert(all_apart(after));
    lemma_peer_at(after.pipes, n, inbound);
    lemma_peer_at(after.pipes, n, outbound);
}

/// Each end of a pipe is the peer of the other.
pub proof fn law_peers_mirror_each_other(s: FrontdoorView, a: Seq<char>, b: Seq<char>)
    requires
        all_apart(s),
        peer_of(s.pipes, a) == Some(b),
    ensures
        peer_of(s.pipes, b) == Some(a),
        a != b,
{
    lemma_peer_of(s.pipes, a);
    let j = choose|j: int|
        0 <= j < s.pipes.len() && (#[trigger] s.pipes[j]).joins(a) && s.pipes[j].other_end(a) == b;
    lemma_peer_at(s.pipes, j, b);
}

/// Tearing a pipe down closes its two ends, forgets both, keeps connections
/// apart and the state sound, and touches no other connection.
pub proof fn law_teardown_forgets_both_ends(
    s: FrontdoorView,
    conn: Seq<char>,
    peer: Seq<char>,
    other: Seq<char>,
)
    requires
        all_apart(s),
        peer_of(s.pipes, conn) == Some(peer),
    ensures
        ({
            let (after, t) = torn_down(s, conn);
            &&& all_apart(after)
            &&& sound(s) ==> sound(after)
            &&& t == close_all(seq![conn, peer])
            &&& !is_known(after, conn)
            &&& !is_known(after, peer)
            &&& after.pending == s.pending
            &&& other != conn && other != peer ==> peer_of(after.pipes, other) == peer_of(
                s.pipes,
                other,
            )
        }),
{
    let after = torn_down(s, conn).0;
    lemma_unjoined(s.pipes, conn);
    lemma_peer_of(s.pipes, conn);
    let j = choose|j: int|
        0 <= j < s.pipes.len() && (#[trigger] s.pipes[j]).joins(conn) && s.pipes[j].other_end(conn)
            == peer;
    assert forall|k: int| 0 <= k < after.pipes.len() implies !(#[trigger] after.pipes[k]).joins(conn)
        && !after.pipes[k].joins(peer) by {
        let m = choose|m: int| 0 <= m < s.pipes.len() && s.pipes[m] == after.pipes[k];
        assert(m != j);
        assert(!s.pipes[m].joins(s.pipes[j].a) && !s.pipes[m].joins(s.pipes[j].b));
    }
    assert forall|i: int, k: int|
        0 <= i < after.pending.len() && 0 <= k < after.pipes.len() implies !(
    #[trigger] after.pipes[k]).joins((#[trigger] after.pending[i]).conn_id) by {
        let m = choose|m: int| 0 <= m < s.pipes.len() && s.pipes[m] == after.pipes[k];
        assert(!s.pipes[m].joins(s.pending[i].conn_id));
    }
    assert forall|i: int| 0 <= i < after.pending.len() implies (#[trigger] after.pending[i]).conn_id
        != conn && after.pending[i].conn_id != peer by {
        assert(!s.pipes[j].joins(s.pending[i].conn_id));
    }
    if other != conn && other != peer {
        lemma_peer_of(s.pipes, other);
        lemma_peer_of(after.pipes, other);
        match peer_of(s.pipes, other) {
            Some(x) => {
                let m = choose|m: int|
                    0 <= m < s.pipes.len() && (#[trigger] s.pipes[m]).joins(other)
                        && s.pipes[m].other_end(other) == x;
                assert(m != j);
                assert(!s.pipes[m].joins(conn)) by {
                    assert(!s.pipes[m].joins(s.pipes[j].a) && !s.pipes[m].joins(s.pipes[j].b));
                }
                let k = choose|k: int|
                    0 <= k < after.pipes.len() && after.pipes[k] == s.pipes[m];
                lemma_peer_at(after.pipes, k, other);
            },
            None => {
                if peer_of(after.pipes, other) is Some {
                    let k = choose|k: int|
                        0 <= k < after.pipes.len() && (#[trigger] after.pipes[k]).joins(other);
                    let m = choose|m: int| 0 <= m < s.pipes.len() && s.pipes[m] == after.pipes[k];
                    assert(s.pipes[m].joins(other));
                }
            },
        }
    }
}

/// The end of a connection leaves the state sound and the connection
/// forgotten. It and the connection that it was bridged to are closed, and
/// nothing else is.
pub proof fn law_close_forgets(s: FrontdoorView, conn: Seq<char>)
    requires
        sound(s),
    ensures
        ({
            let (after, t) = after_close(s, conn);
            &&& sound(after)
            &&& !is_known(after, conn)
            &&& t == match peer_of(s.pipes, conn) {
                Some(peer) => close_all(seq![conn, peer]),
                None => close_all(seq![conn]),
            }
        }),
{
    lemma_pending_index(s.pending, conn);
    lemma_peer_of(s.pipes, conn);
    match pending_index(s.pending, conn) {
        Some(i) => {
            lemma_removing_keeps(s, i);
            if let Some(peer) = peer_of(s.pipes, conn) {
                let j = choose|j: int|
                    0 <= j < s.pipes.len() && (#[trigger] s.pipes[j]).joins(conn);
                assert(!s.pipes[j].joins(s.pending[i].conn_id));
            }
        },
        None => {
            if let Some(peer) = peer_of(s.pipes, conn) {
                law_teardown_forgets_both_ends(s, conn, peer, conn);
            }
        },
    }
}

/// However many commands arrive, every pending and every bridged connection
/// stays as it is, and each line gets one answer.
pub proof fn law_commands_keep_connections(s: FrontdoorView, requests: Seq<RequestView>)
    ensures
        after_requests(s, requests).0.pending == s.pending,
        after_requests(s, requests).0.pipes == s.pipes,
        after_requests(s, requests).1.len() == requests.len(),
        sound(s) ==> sound(after_requests(s, requests).0),
    decreases requests.len(),
{
    if requests.len() > 0 {
        law_commands_keep_connections(s, requests.drop_last());
        law_commands_leave_connections_alone(
            after_requests(s, requests.drop_last()).0,
            requests.last(),
        );
    }
}

/// Something that happens to the front door: a callback of the host, together
/// with the outcomes of the operations that it leads to.
pub enum Event {
    /// A connection has been accepted, activated and armed.
    Accepted { conn: Seq<char> },
    /// Bytes have arrived. Where they lead to a backend, the connection to it
    /// is `outbound`, or could not be set up. Where they are forwarded, they
    /// have been `sent`, or could not be. Where they hold lines, these have
    /// been parsed as `requests`.
    Arrived {
        conn: Seq<char>,
        data: Seq<u8>,
        outbound: Option<Seq<char>>,
        sent: bool,
        requests: Seq<RequestView>,
    },
    /// A connection has been closed.
    Closed { conn: Seq<char> },
}

/// The state after an event.
pub open spec fn after_event(s: FrontdoorView, e: Event) -> FrontdoorView {
    match e {
        Event::Accepted { conn } => with_pending(s, conn),
        Event::Arrived { conn, data, outbound, sent, requests } => {
            let (after, t) = after_data(s, conn, data);
            match t.next {
                NextView::Connect(p) => match outbound {
                    Some(o) => bridged(after, p.idx, p.inbound, o),
                    None => without_pending_at(after, p.idx),
                },
                NextView::Forward { .. } => if sent {
                    after
                } else {
                    torn_down(after, conn).0
                },
                NextView::Parse { .. } => after_requests(after, requests).0,
                _ => after,
            }
        },
        Event::Closed { conn } => after_close(s, conn).0,
    }
}

/// Whether the host gives each connection an id that is not in use.
pub open spec fn ids_are_new(s: FrontdoorView, e: Event) -> bool {
    match e {
        Event::Accepted { conn } => !is_known(s, conn),
        Event::Arrived { outbound, .. } => outbound matches Some(o) ==> !is_known(s, o),
        Event::Closed { .. } => true,
    }
}

/// The state after a series of events.
pub open spec fn after_events(s: FrontdoorView, events: Seq<Event>) -> FrontdoorView
    decreases events.len(),
{
    if events.len() == 0 {
        s
    } else {
        after_event(after_events(s, events.drop_last()), events.last())
    }
}

/// Whether the host gives each connection of a series of events an id that is
/// not in use at that time.
pub open spec fn all_ids_are_new(s: FrontdoorView, events: Seq<Event>) -> bool
    decreases events.len(),
{
    events.len() == 0 || {
        &&& all_ids_are_new(s, events.drop_last())
        &&& ids_are_new(after_events(s, events.drop_last()), events.last())
    }
}

proof fn lemma_data_makes_nothing_known(
    s: FrontdoorView,
    conn: Seq<char>,
    data: Seq<u8>,
    other: Seq<char>,
)
    requires
        sound(s),
        !is_known(s, other),
    ensures
        !is_known(after_data(s, conn, data).0, other),
{
    let after = after_data(s, conn, data).0;
    lemma_pending_index(s.pending, conn);
    assert forall|k: int| 0 <= k < after.pending.len() implies (#[trigger] after.pending[k]).conn_id
        != other by {
        if let Some(i) = pending_index(s.pending, conn) {
            let n = s.pending.len() as int;
            if after.pending.len() == n {
                assert(after.pending[k].conn_id == s.pending[k].conn_id);
            } else {
                assert(after.pending =~= swap_removed(s.pending, i));
                assert(after.pending[k] == if k == i {
                    s.pending[n - 1]
                } else {
                    s.pending[k]
                });
            }
        }
    }
    assert forall|j: int| 0 <= j < after.pipes.len() implies !(#[trigger] after.pipes[j]).joins(
        other,
    ) by {
        lemma_unjoined(s.pipes, conn);
        assert(s.pipes.contains(after.pipes[j]));
        let k = choose|k: int| 0 <= k < s.pipes.len() && s.pipes[k] == after.pipes[j];
        assert(!s.pipes[k].joins(other));
    }
}

proof fn lemma_event_keeps_sound(s: FrontdoorView, e: Event)
    requires
        sound(s),
        ids_are_new(s, e),
    ensures
        sound(after_event(s, e)),
{
    match e {
        Event::Accepted { conn } => {
            law_accepting_keeps_sound(s, conn);
        },
        Event::Arrived { conn, data, outbound, sent, requests } => {
            let (after, t) = after_data(s, conn, data);
            law_data_keeps_sound(s, conn, data);
            match t.next {
                NextView::Connect(p) => match outbound {
                    Some(o) => {
                        lemma_data_makes_nothing_known(s, conn, data, o);
                        law_promotion_bridges(after, p.idx, o);
                    },
                    None => {
                        law_failed_promotion_forgets(after, p.idx);
                    },
                },
                NextView::Forward { peer, .. } => {
                    lemma_pending_index(s.pending, conn);
                    law_teardown_forgets_both_ends(after, conn, peer, conn);
                },
                NextView::Parse { .. } => {
                    law_commands_keep_connections(after, requests);
                },
                _ => {},
            }
        },
        Event::Closed { conn } => {
            law_close_forgets(s, conn);
        },
    }
}

/// Whatever happens after the start, and in whatever order, the state stays
/// sound, as long as the host gives each connection an id of its own.
pub proof fn law_every_run_is_sound(
    p: PlanView,
    public: Seq<char>,
    control: Seq<char>,
    events: Seq<Event>,
)
    requires
        all_ids_are_new(started(p, public, control), events),
    ensures
        sound(after_events(started(p, public, control), events)),
    decreases events.len(),
{
    if events.len() == 0 {
        law_start_is_sound(p, public, control);
    } else {
        law_every_run_is_sound(p, public, control, events.drop_last());
        lemma_event_keeps_sound(
            after_events(started(p, public, control), events.drop_last()),
            events.last(),
        );
    }
}

} // verus!
