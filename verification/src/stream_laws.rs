//! What becomes of the bytes of a connection.
//!
//! The host hands the bytes of a connection over in chunks of its choosing.
//! Where they end does not matter: a TLS connection is placed by its bytes
//! alone, and its backend gets to see all of them.

use vstd::prelude::*;
use vstd::string::*;

use crate::actor::PENDING_BUFFER_CAP;
use crate::actor::{
    after_close, after_data, after_requests, bridged, close_all, just, kind_of, refuse,
    with_pending, without_pending, without_pending_at, NextView, PromotionView, RefusalView,
};
use crate::actor_laws::{all_apart, is_known};
use crate::actor_laws::{
    lemma_kinds, lemma_peer_of, lemma_pending_at, lemma_pending_index, lemma_tail_is_shorter,
};
use crate::actor_laws::{
    law_commands_keep_connections, law_peers_mirror_each_other, law_teardown_forgets_both_ends,
};
use crate::control::{line_contents, tail_of, RequestView};
use crate::control_laws::law_chunks_do_not_matter;
use crate::hello::ClientHello;
use crate::hello::{law_partial_hello_is_incomplete, law_server_name_is_found};
use crate::seqs::swap_removed;
use crate::sni::{sni, SniView, RECORD_TYPE_HANDSHAKE};
use crate::state::{
    backend_for, conn_ids, default_of, peer_of, pending_index, route_to, FrontdoorView,
    PendingView, PipeView,
};

verus! {

/// What is known of `conn` while it is pending.
pub open spec fn entry_of(s: FrontdoorView, conn: Seq<char>) -> Option<PendingView> {
    match pending_index(s.pending, conn) {
        Some(i) => Some(s.pending[i]),
        None => None,
    }
}

/// All the bytes of `chunks`, in order.
pub open spec fn whole(chunks: Seq<Seq<u8>>) -> Seq<u8>
    decreases chunks.len(),
{
    if chunks.len() == 0 {
        Seq::empty()
    } else {
        whole(chunks.drop_last()) + chunks.last()
    }
}

/// The state after the chunks have arrived on `conn`.
pub open spec fn fed(s: FrontdoorView, conn: Seq<char>, chunks: Seq<Seq<u8>>) -> FrontdoorView
    decreases chunks.len(),
{
    if chunks.len() == 0 {
        s
    } else {
        after_data(fed(s, conn, chunks.drop_last()), conn, chunks.last()).0
    }
}

/// Whether, after each of the chunks, more bytes are awaited.
pub open spec fn asks_for_more(s: FrontdoorView, conn: Seq<char>, chunks: Seq<Seq<u8>>) -> bool
    decreases chunks.len(),
{
    chunks.len() == 0 || {
        &&& asks_for_more(s, conn, chunks.drop_last())
        &&& after_data(fed(s, conn, chunks.drop_last()), conn, chunks.last()).1 == just(
            NextView::Finished,
        )
    }
}

/// A chunk after which more bytes are awaited might as well have come together
/// with the next one.
pub proof fn law_split_does_not_matter(
    s: FrontdoorView,
    conn: Seq<char>,
    first: Seq<u8>,
    second: Seq<u8>,
)
    requires
        after_data(s, conn, first).1 == just(NextView::Finished),
    ensures
        after_data(after_data(s, conn, first).0, conn, second) == after_data(
            s,
            conn,
            first + second,
        ),
{
    lemma_pending_index(s.pending, conn);
    let i = pending_index(s.pending, conn)->0;
    let p = s.pending[i];
    let both = first + second;
    let kind = if p.kind == "unknown"@ && first.len() > 0 {
        kind_of(first[0])
    } else {
        p.kind
    };
    let mid = after_data(s, conn, first).0;
    assert(forall|conns: Seq<Seq<char>>|
        conns.len() > 0 ==> (#[trigger] close_all(conns)).effects.len() > 0);
    assert(kind == "tls"@);
    lemma_kinds();
    assert(p.kind == "unknown"@ ==> first.len() > 0 && both[0] == first[0]);
    assert(mid.pending == s.pending.update(
        i,
        PendingView { conn_id: p.conn_id, kind, buf: p.buf + first },
    ));
    assert(conn_ids(mid.pending) =~= conn_ids(s.pending));
    assert(p.buf + first + second =~= p.buf + both);
    let q = PendingView { conn_id: p.conn_id, kind, buf: p.buf + both };
    assert(mid.pending.update(i, q) =~= s.pending.update(i, q));
    assert(swap_removed(mid.pending, i) =~= swap_removed(s.pending, i));
}

/// Chunks after which more bytes are awaited might as well have come together
/// with the one that follows them.
pub proof fn law_chunks_add_up(
    s: FrontdoorView,
    conn: Seq<char>,
    chunks: Seq<Seq<u8>>,
    last: Seq<u8>,
)
    requires
        asks_for_more(s, conn, chunks),
    ensures
        after_data(fed(s, conn, chunks), conn, last) == after_data(s, conn, whole(chunks) + last),
    decreases chunks.len(),
{
    if chunks.len() == 0 {
        assert(whole(chunks) + last =~= last);
    } else {
        let before = chunks.drop_last();
        law_split_does_not_matter(fed(s, conn, before), conn, chunks.last(), last);
        law_chunks_add_up(s, conn, before, chunks.last() + last);
        assert(whole(before) + (chunks.last() + last) =~= whole(chunks) + last);
    }
}

proof fn lemma_fresh(s: FrontdoorView, conn: Seq<char>)
    requires
        !is_known(s, conn),
    ensures
        pending_index(with_pending(s, conn).pending, conn) == Some(s.pending.len() as int),
        swap_removed(with_pending(s, conn).pending, s.pending.len() as int) == s.pending,
{
    let n = s.pending.len() as int;
    let after = with_pending(s, conn);
    lemma_pending_index(after.pending, conn);
    assert(after.pending[n].conn_id == conn);
    assert forall|j: int| 0 <= j < n implies (#[trigger] after.pending[j]).conn_id != conn by {
        assert(after.pending[j] == s.pending[j]);
    }
    assert(swap_removed(after.pending, n) =~= s.pending);
}

/// The backend sees the stream from byte zero: however the bytes were cut into
/// chunks, what is replayed to it is all that the client has sent. It is the
/// backend for the server name in those bytes, or the default backend where
/// they name none.
pub proof fn law_backend_sees_every_byte(
    s: FrontdoorView,
    conn: Seq<char>,
    chunks: Seq<Seq<u8>>,
    last: Seq<u8>,
)
    requires
        !is_known(s, conn),
        asks_for_more(with_pending(s, conn), conn, chunks),
    ensures
        after_data(fed(with_pending(s, conn), conn, chunks), conn, last).1.next matches NextView::Connect(
            p,
        ) ==> {
            &&& p.idx == s.pending.len()
            &&& p.inbound == conn
            &&& p.replay == whole(chunks) + last
            &&& match sni(p.replay) {
                SniView::Found(name) => p.sni_label == name && backend_for(s, name) == Some(
                    p.backend,
                ),
                SniView::Absent => p.sni_label == "<no-sni>"@ && default_of(s) == Some(p.backend),
                _ => false,
            }
        },
{
    lemma_fresh(s, conn);
    law_chunks_add_up(with_pending(s, conn), conn, chunks, last);
    assert(Seq::<u8>::empty() + (whole(chunks) + last) =~= whole(chunks) + last);
}

/// What becomes of the first bytes of a new connection that start like a TLS
/// record.
proof fn lemma_first_bytes(s: FrontdoorView, conn: Seq<char>, data: Seq<u8>)
    requires
        !is_known(s, conn),
        0 < data.len() <= PENDING_BUFFER_CAP,
        data[0] == RECORD_TYPE_HANDSHAKE,
    ensures
        ({
            let (after, t) = after_data(with_pending(s, conn), conn, data);
            match sni(data) {
                SniView::Incomplete => t == just(NextView::Finished),
                SniView::Found(name) => match backend_for(s, name) {
                    Some(backend) => t == just(
                        NextView::Connect(
                            PromotionView {
                                idx: s.pending.len() as int,
                                inbound: conn,
                                sni_label: name,
                                backend,
                                replay: data,
                            },
                        ),
                    ),
                    None => after == s && t == refuse(conn, RefusalView::NoRoute(name)),
                },
                SniView::Absent => match default_of(s) {
                    Some(backend) => t == just(
                        NextView::Connect(
                            PromotionView {
                                idx: s.pending.len() as int,
                                inbound: conn,
                                sni_label: "<no-sni>"@,
                                backend,
                                replay: data,
                            },
                        ),
                    ),
                    None => after == s && t == refuse(conn, RefusalView::NoServerName),
                },
                SniView::Malformed(why) => after == s && t == refuse(
                    conn,
                    RefusalView::Malformed(why),
                ),
            }
        }),
{
    let n = s.pending.len() as int;
    let start = with_pending(s, conn);
    lemma_fresh(s, conn);
    assert(Seq::<u8>::empty() + data =~= data);
    let q = PendingView { conn_id: conn, kind: "tls"@, buf: data };
    assert(swap_removed(start.pending.update(n, q), n) =~= swap_removed(start.pending, n));
}

proof fn lemma_partial_hello_waits(
    s: FrontdoorView,
    conn: Seq<char>,
    h: ClientHello,
    chunks: Seq<Seq<u8>>,
)
    requires
        !is_known(s, conn),
        h.well_formed(),
        chunks.len() > 0 ==> chunks[0].len() > 0,
        whole(chunks).len() < h.record().len(),
        whole(chunks).len() <= PENDING_BUFFER_CAP,
        whole(chunks) == h.record().take(whole(chunks).len() as int),
    ensures
        asks_for_more(with_pending(s, conn), conn, chunks),
    decreases chunks.len(),
{
    if chunks.len() > 0 {
        let start = with_pending(s, conn);
        let before = chunks.drop_last();
        let all = whole(chunks);
        assert(whole(before) =~= all.take(whole(before).len() as int));
        assert(whole(before) =~= h.record().take(whole(before).len() as int));
        lemma_partial_hello_waits(s, conn, h, before);
        law_chunks_add_up(start, conn, before, chunks.last());
        lemma_first_chunk(chunks);
        assert(all[0] == h.record()[0]);
        law_partial_hello_is_incomplete(h, all.len() as int);
        lemma_first_bytes(s, conn, all);
    }
}

proof fn lemma_first_chunk(chunks: Seq<Seq<u8>>)
    requires
        chunks.len() > 0,
    ensures
        whole(chunks).len() >= chunks[0].len(),
    decreases chunks.len(),
{
    if chunks.len() > 1 {
        lemma_first_chunk(chunks.drop_last());
    }
}

/// A ClientHello that names a host leads to the backend for that host, and one
/// that names none to the default backend, however it is cut into chunks and
/// whatever follows it: until it is all there, more bytes are awaited, and with
/// the chunk that completes it the connection is to be bridged. (The first chunk of a connection must not be empty, and no
/// more than the cap is buffered.)
pub proof fn law_hello_leads_to_its_backend(
    s: FrontdoorView,
    conn: Seq<char>,
    h: ClientHello,
    rest: Seq<u8>,
    chunks: Seq<Seq<u8>>,
    last: Seq<u8>,
    label: Seq<char>,
    backend: Seq<char>,
)
    requires
        !is_known(s, conn),
        h.well_formed(),
        match h.server_name() {
            SniView::Found(name) => label == name && backend_for(s, name) == Some(backend),
            SniView::Absent => label == "<no-sni>"@ && default_of(s) == Some(backend),
            _ => false,
        },
        whole(chunks) + last == h.record() + rest,
        whole(chunks).len() < h.record().len(),
        (whole(chunks) + last).len() <= PENDING_BUFFER_CAP,
        chunks.len() > 0 ==> chunks[0].len() > 0,
    ensures
        asks_for_more(with_pending(s, conn), conn, chunks),
        after_data(fed(with_pending(s, conn), conn, chunks), conn, last).1 == just(
            NextView::Connect(
                PromotionView {
                    idx: s.pending.len() as int,
                    inbound: conn,
                    sni_label: label,
                    backend,
                    replay: whole(chunks) + last,
                },
            ),
        ),
{
    let all = whole(chunks) + last;
    let n = whole(chunks).len() as int;
    assert(whole(chunks) =~= all.take(n));
    assert(all.take(n) =~= h.record().take(n));
    lemma_partial_hello_waits(s, conn, h, chunks);
    law_chunks_add_up(with_pending(s, conn), conn, chunks, last);
    law_server_name_is_found(h, rest);
    assert(all[0] == h.record()[0]);
    lemma_first_bytes(s, conn, all);
}

/// Where there is no default backend, a connection whose ClientHello names no
/// host, or a host without a route, is dropped, and the state is as if it had
/// never come.
pub proof fn law_unroutable_is_dropped(
    s: FrontdoorView,
    conn: Seq<char>,
    h: ClientHello,
    rest: Seq<u8>,
    chunks: Seq<Seq<u8>>,
    last: Seq<u8>,
)
    requires
        !is_known(s, conn),
        h.well_formed(),
        s.default_backend.len() == 0,
        match h.server_name() {
            SniView::Found(name) => route_to(s.routes, name) is None,
            SniView::Absent => true,
            _ => false,
        },
        whole(chunks) + last == h.record() + rest,
        whole(chunks).len() < h.record().len(),
        (whole(chunks) + last).len() <= PENDING_BUFFER_CAP,
        chunks.len() > 0 ==> chunks[0].len() > 0,
    ensures
        after_data(fed(with_pending(s, conn), conn, chunks), conn, last) == (
            s,
            refuse(
                conn,
                match h.server_name() {
                    SniView::Found(name) => RefusalView::NoRoute(name),
                    _ => RefusalView::NoServerName,
                },
            ),
        ),
{
    let all = whole(chunks) + last;
    let n = whole(chunks).len() as int;
    assert(whole(chunks) =~= all.take(n));
    assert(all.take(n) =~= h.record().take(n));
    lemma_partial_hello_waits(s, conn, h, chunks);
    law_chunks_add_up(with_pending(s, conn), conn, chunks, last);
    law_server_name_is_found(h, rest);
    assert(all[0] == h.record()[0]);
    lemma_first_bytes(s, conn, all);
}

/// Bytes that arrive on either end of a pipe go to the other end, as they are,
/// and change nothing.
pub proof fn law_bridged_bytes_are_forwarded(
    s: FrontdoorView,
    a: Seq<char>,
    b: Seq<char>,
    data: Seq<u8>,
)
    requires
        all_apart(s),
        peer_of(s.pipes, a) == Some(b),
        data.len() > 0,
    ensures
        after_data(s, a, data) == (s, just(NextView::Forward { conn_id: a, peer: b, data })),
        after_data(s, b, data) == (s, just(NextView::Forward { conn_id: b, peer: a, data })),
{
    law_peers_mirror_each_other(s, a, b);
    lemma_piped_is_not_pending(s, a);
    lemma_piped_is_not_pending(s, b);
}

/// Where the stream of either end of a pipe has ended, both ends are closed and
/// forgotten.
pub proof fn law_end_of_stream_closes_both_ends(s: FrontdoorView, a: Seq<char>, b: Seq<char>)
    requires
        all_apart(s),
        peer_of(s.pipes, a) == Some(b),
    ensures
        ({
            let (after, t) = after_data(s, a, Seq::empty());
            &&& t == close_all(seq![a, b])
            &&& !is_known(after, a)
            &&& !is_known(after, b)
        }),
        ({
            let (after, t) = after_data(s, b, Seq::empty());
            &&& t == close_all(seq![b, a])
            &&& !is_known(after, a)
            &&& !is_known(after, b)
        }),
{
    law_peers_mirror_each_other(s, a, b);
    lemma_piped_is_not_pending(s, a);
    lemma_piped_is_not_pending(s, b);
    law_teardown_forgets_both_ends(s, a, b, a);
    law_teardown_forgets_both_ends(s, b, a, b);
}

proof fn lemma_piped_is_not_pending(s: FrontdoorView, conn: Seq<char>)
    requires
        all_apart(s),
        peer_of(s.pipes, conn) is Some,
    ensures
        pending_index(s.pending, conn) is None,
{
    lemma_pending_index(s.pending, conn);
    lemma_peer_of(s.pipes, conn);
    if let Some(i) = pending_index(s.pending, conn) {
        let j = choose|j: int| 0 <= j < s.pipes.len() && (#[trigger] s.pipes[j]).joins(conn);
        assert(!s.pipes[j].joins(s.pending[i].conn_id));
    }
}

proof fn lemma_entry(s: FrontdoorView, i: int)
    requires
        all_apart(s),
        0 <= i < s.pending.len(),
    ensures
        entry_of(s, s.pending[i].conn_id) == Some(s.pending[i]),
{
    lemma_pending_at(s, i);
}

proof fn lemma_removing_spares_others(s: FrontdoorView, conn: Seq<char>, other: Seq<char>)
    requires
        all_apart(s),
        other != conn,
    ensures
        entry_of(without_pending(s, conn), other) == entry_of(s, other),
{
    let after = without_pending(s, conn);
    lemma_pending_index(s.pending, conn);
    lemma_pending_index(s.pending, other);
    lemma_pending_index(after.pending, other);
    if let Some(i) = pending_index(s.pending, conn) {
        let n = s.pending.len() as int;
        assert(forall|k: int|
            0 <= k < n - 1 ==> #[trigger] after.pending[k] == if k == i {
                s.pending[n - 1]
            } else {
                s.pending[k]
            });
        assert(all_apart(after));
        match pending_index(s.pending, other) {
            Some(j) => {
                let k = if j == n - 1 {
                    i
                } else {
                    j
                };
                assert(after.pending[k] == s.pending[j]);
                lemma_entry(after, k);
            },
            None => {
                if let Some(k) = pending_index(after.pending, other) {
                    assert(after.pending[k].conn_id == other);
                }
            },
        }
    }
}

/// What arrives on a connection changes nothing for any other but the one that
/// it is bridged to: what is known of the others, their peers, the routes and
/// the default backend stay. Where bytes arrive, all pipes stay.
pub proof fn law_data_spares_others(
    s: FrontdoorView,
    conn: Seq<char>,
    data: Seq<u8>,
    other: Seq<char>,
)
    requires
        all_apart(s),
        other != conn,
    ensures
        ({
            let after = after_data(s, conn, data).0;
            &&& entry_of(after, other) == entry_of(s, other)
            &&& peer_of(s.pipes, conn) != Some(other) ==> peer_of(after.pipes, other) == peer_of(
                s.pipes,
                other,
            )
            &&& data.len() > 0 ==> after.pipes == s.pipes
            &&& after.routes == s.routes
            &&& after.default_backend == s.default_backend
        }),
{
    let after = after_data(s, conn, data).0;
    lemma_pending_index(s.pending, conn);
    lemma_pending_index(s.pending, other);
    lemma_removing_spares_others(s, conn, other);
    if let Some(i) = pending_index(s.pending, conn) {
        if after.pending.len() == s.pending.len() {
            assert(conn_ids(after.pending) =~= conn_ids(s.pending));
        } else {
            assert(after.pending =~= swap_removed(s.pending, i));
        }
    } else if let Some(peer) = peer_of(s.pipes, conn) {
        law_teardown_forgets_both_ends(s, conn, peer, other);
    }
}

/// The end of a connection changes nothing for any other but the one that it is
/// bridged to: what is known of the others, their peers, the routes and the
/// default backend stay.
pub proof fn law_close_spares_others(s: FrontdoorView, conn: Seq<char>, other: Seq<char>)
    requires
        all_apart(s),
        other != conn,
    ensures
        ({
            let after = after_close(s, conn).0;
            &&& entry_of(after, other) == entry_of(s, other)
            &&& peer_of(s.pipes, conn) != Some(other) ==> peer_of(after.pipes, other) == peer_of(
                s.pipes,
                other,
            )
            &&& after.routes == s.routes
            &&& after.default_backend == s.default_backend
        }),
{
    lemma_removing_spares_others(s, conn, other);
    if let Some(peer) = peer_of(s.pipes, conn) {
        law_teardown_forgets_both_ends(s, conn, peer, other);
    }
}

proof fn lemma_peer_push(pipes: Seq<PipeView>, pipe: PipeView, conn: Seq<char>)
    requires
        !pipe.joins(conn),
    ensures
        peer_of(pipes.push(pipe), conn) == peer_of(pipes, conn),
    decreases pipes.len(),
{
    let all = pipes.push(pipe);
    if pipes.len() == 0 {
        assert(all.drop_first() =~= pipes);
    } else {
        assert(all.drop_first() =~= pipes.drop_first().push(pipe));
        lemma_peer_push(pipes.drop_first(), pipe, conn);
    }
}

/// Whether a connection is bridged or has to be dropped changes nothing for any
/// other: what is known of the others, their peers, the routes and the default
/// backend stay.
pub proof fn law_promotion_spares_others(
    s: FrontdoorView,
    i: int,
    outbound: Seq<char>,
    other: Seq<char>,
)
    requires
        all_apart(s),
        0 <= i < s.pending.len(),
        other != s.pending[i].conn_id,
        other != outbound,
    ensures
        ({
            let after = without_pending_at(s, i);
            &&& entry_of(after, other) == entry_of(s, other)
            &&& after.pipes == s.pipes
            &&& after.routes == s.routes
            &&& after.default_backend == s.default_backend
        }),
        ({
            let after = bridged(s, i, s.pending[i].conn_id, outbound);
            &&& entry_of(after, other) == entry_of(s, other)
            &&& peer_of(after.pipes, other) == peer_of(s.pipes, other)
            &&& after.routes == s.routes
            &&& after.default_backend == s.default_backend
        }),
{
    let inbound = s.pending[i].conn_id;
    lemma_pending_at(s, i);
    lemma_removing_spares_others(s, inbound, other);
    lemma_peer_push(s.pipes, PipeView { a: inbound, b: outbound }, other);
}

/// Connections in flight are unaffected by commands: what arrives on a bridged
/// connection goes where it went before.
pub proof fn law_commands_spare_bridged_connections(
    s: FrontdoorView,
    requests: Seq<RequestView>,
    conn: Seq<char>,
    data: Seq<u8>,
)
    requires
        all_apart(s),
        peer_of(s.pipes, conn) is Some,
    ensures
        after_data(after_requests(s, requests).0, conn, data).1 == after_data(s, conn, data).1,
{
    law_commands_keep_connections(s, requests);
    lemma_piped_is_not_pending(s, conn);
}

proof fn lemma_commands_pass_pending_by(
    s: FrontdoorView,
    pending: Seq<PendingView>,
    requests: Seq<RequestView>,
)
    ensures
        after_requests(FrontdoorView { pending, ..s }, requests) == (
            FrontdoorView { pending, ..after_requests(s, requests).0 },
            after_requests(s, requests).1,
        ),
    decreases requests.len(),
{
    if requests.len() > 0 {
        lemma_commands_pass_pending_by(s, pending, requests.drop_last());
    }
}

/// Where the chunks of a control connection end does not matter, as long as
/// the cap is kept. The lines of the first of two chunks are carried out, as
/// `done`, before the second arrives; its lines are then carried out, as
/// `next`. The two chunks give the lines that they give together, and carrying
/// these out at once has the same effects and gets the same answers.
pub proof fn law_control_split_does_not_matter(
    s: FrontdoorView,
    conn: Seq<char>,
    first: Seq<u8>,
    second: Seq<u8>,
    done: Seq<RequestView>,
    next: Seq<RequestView>,
)
    requires
        after_data(s, conn, first).1.next is Parse,
        entry_of(s, conn) matches Some(p) && p.buf.len() + first.len() + second.len()
            <= PENDING_BUFFER_CAP,
    ensures
        ({
            let (s1, t1) = after_data(s, conn, first);
            let (s2, answers1) = after_requests(s1, done);
            let (s3, t2) = after_data(s2, conn, second);
            let (s4, answers2) = after_requests(s3, next);
            let (once, t) = after_data(s, conn, first + second);
            &&& t2.next is Parse
            &&& t.next is Parse
            &&& t.next->Parse_lines == t1.next->Parse_lines + t2.next->Parse_lines
            &&& after_requests(once, done + next) == (s4, answers1 + answers2)
        }),
{
    lemma_pending_index(s.pending, conn);
    lemma_kinds();
    let i = pending_index(s.pending, conn)->0;
    let p = s.pending[i];
    let a = p.buf + first;
    let kind = if p.kind == "unknown"@ && first.len() > 0 {
        kind_of(first[0])
    } else {
        p.kind
    };
    assert(kind == "control"@);
    let s1 = after_data(s, conn, first).0;
    let s2 = after_requests(s1, done).0;
    let s3 = after_data(s2, conn, second).0;
    let both = first + second;
    let once = after_data(s, conn, both).0;
    law_chunks_do_not_matter(a, second);
    lemma_tail_is_shorter(a);
    assert(p.buf + both =~= a + second);
    assert(p.kind == "unknown"@ ==> first.len() > 0 && both[0] == first[0]);
    let m = s.pending.update(i, PendingView { conn_id: p.conn_id, kind, buf: tail_of(a) });
    let q = s.pending.update(i, PendingView { conn_id: p.conn_id, kind, buf: tail_of(a + second) });
    assert(s1.pending =~= m);
    law_commands_keep_connections(s1, done);
    assert(conn_ids(m) =~= conn_ids(s.pending));
    assert(s3.pending =~= q);
    assert(once.pending =~= q);
    assert(line_contents(a + second) =~= line_contents(a) + line_contents(tail_of(a) + second));
    lemma_commands_pass_pending_by(s, m, done);
    lemma_commands_pass_pending_by(s, q, done);
    assert(s1 == FrontdoorView { pending: m, ..s });
    assert(once == FrontdoorView { pending: q, ..s });
    assert(s3 == FrontdoorView { pending: q, ..s2 });
    assert(s3 == after_requests(once, done).0);
    law_batches_add_up(once, done, next);
}

/// Commands that arrive in two batches have the effects, and get the answers,
/// that they have and get in one.
pub proof fn law_batches_add_up(s: FrontdoorView, first: Seq<RequestView>, second: Seq<RequestView>)
    ensures
        after_requests(s, first + second).0 == after_requests(
            after_requests(s, first).0,
            second,
        ).0,
        after_requests(s, first + second).1 == after_requests(s, first).1 + after_requests(
            after_requests(s, first).0,
            second,
        ).1,
    decreases second.len(),
{
    if second.len() == 0 {
        assert(first + second =~= first);
        assert(after_requests(s, first).1 + Seq::<Seq<char>>::empty() =~= after_requests(
            s,
            first,
        ).1);
    } else {
        assert((first + second).drop_last() =~= first + second.drop_last());
        law_batches_add_up(s, first, second.drop_last());
        assert(after_requests(s, first + second).1 =~= after_requests(s, first).1
            + after_requests(after_requests(s, first).0, second).1);
    }
}

} // verus!
