//! What each event leads to. Each law speaks of calls: of their arguments, of
//! what they gave back, and of the state before and after.

use vstd::prelude::*;
use vstd::string::*;

use crate::actor::{
    accept_armed, activate_and_arm, classify, close_pipe, control_parsed, forwarded,
    handle_connection, handle_control_pending, handle_pending_data, handle_tls_pending, on_close,
    on_data, outbound_armed, outbound_replayed, promote_to_pipe,
};
use crate::actor::{
    after_requests, unjoined, without_pending_at, Effect, EffectView, Next, NextView, Promotion,
    PromotionView, Refusal, RefusalView, Transition, TransitionView,
};
use crate::actor_laws::lemma_kinds;
use crate::control::{control_dispatch, control_lines, ControlLine, ControlRequest};
use crate::lookup_laws::{
    first_pending, first_pipe, lemma_first_pending, lemma_first_pipe, lemma_no_pending,
    lemma_no_pipe, no_pending, no_pipe,
};
use crate::seqs::views;
use crate::sni::{parse_sni, SniResult};
use crate::state::{lookup_backend, FrontdoorState, FrontdoorView, PendingView, PipeView};
use crate::stream_laws::law_batches_add_up;

verus! {

/// Whether `after` is `before` without the pending connection at `i`: the last
/// one has taken its place, and nothing else has changed.
pub open spec fn left_at(before: FrontdoorView, after: FrontdoorView, i: int) -> bool {
    let n = before.pending.len();
    &&& after.pending.len() == n - 1
    &&& forall|k: int|
        0 <= k < n - 1 ==> #[trigger] after.pending[k] == if k == i {
            before.pending[n - 1]
        } else {
            before.pending[k]
        }
    &&& after == (FrontdoorView { pending: after.pending, ..before })
}

/// The transition that does nothing and goes on with `next`.
pub open spec fn goes_on(next: NextView) -> TransitionView {
    TransitionView { effects: seq![], next }
}

/// The transition that closes `conn` and goes on with `next`.
pub open spec fn closes(conn: Seq<char>, next: NextView) -> TransitionView {
    TransitionView { effects: seq![EffectView::Close { conn_id: conn }], next }
}

/// The transition that closes `first`, then `second`, and ends there.
pub open spec fn closes_both(first: Seq<char>, second: Seq<char>) -> TransitionView {
    TransitionView {
        effects: seq![
            EffectView::Close { conn_id: first },
            EffectView::Close { conn_id: second },
        ],
        next: NextView::Finished,
    }
}

/// The view of a transition holds all of its effects, in order, and what comes
/// next.
pub proof fn law_views_hold_the_transition(t: Transition, i: int)
    ensures
        t@.effects.len() == t.effects@.len(),
        0 <= i < t.effects@.len() ==> match t.effects@[i] {
            Effect::Send { conn_id, data } => t@.effects[i] == (EffectView::Send {
                conn_id: conn_id@,
                data: data@,
            }),
            Effect::Close { conn_id } => t@.effects[i] == (EffectView::Close {
                conn_id: conn_id@,
            }),
        },
        match t.next {
            Next::Finished => t@.next == NextView::Finished,
            Next::Dropped(why) => t@.next == NextView::Dropped(
                match why {
                    Refusal::BufferFull => RefusalView::BufferFull,
                    Refusal::Unclassifiable => RefusalView::Unclassifiable,
                    Refusal::NoRoute(name) => RefusalView::NoRoute(name@),
                    Refusal::NoServerName => RefusalView::NoServerName,
                    Refusal::Malformed(reason) => RefusalView::Malformed(reason@),
                    Refusal::Unknown => RefusalView::Unknown,
                },
            ),
            Next::Activate { conn_id } => t@.next == (NextView::Activate { conn_id: conn_id@ }),
            Next::Arm { conn_id } => t@.next == (NextView::Arm { conn_id: conn_id@ }),
            Next::Connect(p) => t@.next == NextView::Connect(view_of(p)),
            Next::ArmOutbound { promotion, outbound } => t@.next == (NextView::ArmOutbound {
                promotion: view_of(promotion),
                outbound: outbound@,
            }),
            Next::Replay { promotion, outbound } => t@.next == (NextView::Replay {
                promotion: view_of(promotion),
                outbound: outbound@,
            }),
            Next::Forward { conn_id, peer, data } => t@.next == (NextView::Forward {
                conn_id: conn_id@,
                peer: peer@,
                data: data@,
            }),
            Next::Parse { conn_id, lines } => t@.next is Parse && t@.next->Parse_conn_id
                == conn_id@ && t@.next->Parse_lines.len() == lines@.len() && (0 <= i
                < lines@.len() ==> t@.next->Parse_lines[i] == lines@[i]@),
        },
{
}

/// The parts of a promotion.
pub open spec fn view_of(p: Promotion) -> PromotionView {
    PromotionView {
        idx: p.idx as int,
        inbound: p.inbound@,
        sni_label: p.sni_label@,
        backend: p.backend@,
        replay: p.replay@,
    }
}

proof fn lemma_left_at(before: FrontdoorView, i: int)
    requires
        0 <= i < before.pending.len(),
    ensures
        left_at(before, without_pending_at(before, i), i),
{
}

/// An accepted connection is activated, and then put in active mode; where the
/// first fails, it is closed.
pub proof fn law_accepted_connections_are_activated(
    conn_id: String,
    activated: Result<(), String>,
    first: Transition,
    second: Transition,
)
    requires
        call_ensures(handle_connection, (conn_id,), first),
        call_ensures(activate_and_arm, (conn_id, activated), second),
    ensures
        first@ == goes_on(NextView::Activate { conn_id: conn_id@ }),
        activated is Ok ==> second@ == goes_on(NextView::Arm { conn_id: conn_id@ }),
        activated is Err ==> second@ == closes(conn_id@, NextView::Finished),
{
    assert(first@.effects =~= seq![]);
    if activated is Ok {
        assert(second@.effects =~= seq![]);
    } else {
        assert(second@.effects =~= closes(conn_id@, NextView::Finished).effects);
    }
}

/// A connection that is in active mode waits behind the others for its first
/// bytes. One that could not be put in it is closed, and nothing changes.
pub proof fn law_armed_connections_wait(
    state: &mut FrontdoorState,
    conn_id: String,
    armed: Result<(), String>,
    t: Transition,
)
    requires
        call_ensures(accept_armed, (state, conn_id, armed), t),
    ensures
        armed is Ok ==> {
            let p = PendingView { conn_id: conn_id@, kind: "unknown"@, buf: seq![] };
            &&& t@ == goes_on(NextView::Finished)
            &&& final(state)@ == (FrontdoorView {
                pending: old(state)@.pending.push(p),
                ..old(state)@
            })
        },
        armed is Err ==> t@ == closes(conn_id@, NextView::Finished) && final(state)@ == old(state)@,
{
    if armed is Ok {
        assert(t@.effects =~= seq![]);
        assert(Seq::<u8>::empty() =~= seq![]);
    } else {
        assert(t@.effects =~= closes(conn_id@, NextView::Finished).effects);
    }
}

/// The first byte of a TLS handshake record makes a TLS connection, an opening
/// brace makes a control connection, and any other byte makes neither.
pub proof fn law_first_byte_tells(b: u8, kind: &'static str)
    requires
        call_ensures(classify, (b,), kind),
    ensures
        kind@ == "tls"@ <==> b == 22,
        kind@ == "control"@ <==> b == 123,
        kind@ != "unknown"@,
{
    lemma_kinds();
}

/// Bytes on a connection that is pending are handled where it is pending
/// first.
pub proof fn law_pending_comes_first(
    state: &mut FrontdoorState,
    conn_id: String,
    data: Vec<u8>,
    t: Transition,
    again: &mut FrontdoorState,
    idx: usize,
    same: Vec<u8>,
    u: Transition,
)
    requires
        call_ensures(on_data, (state, conn_id, data), t),
        call_ensures(handle_pending_data, (again, idx, same), u),
        old(again)@ == old(state)@,
        same@ == data@,
        first_pending(old(state)@.pending, conn_id@, idx as int),
    ensures
        t@ == u@,
        final(state)@ == final(again)@,
{
    lemma_first_pending(old(state)@.pending, conn_id@, idx as int);
}

/// A pending connection that has sent more than the buffer may hold is dropped,
/// whatever it is.
pub proof fn law_too_many_bytes_are_refused(
    state: &mut FrontdoorState,
    idx: usize,
    data: Vec<u8>,
    t: Transition,
)
    requires
        call_ensures(handle_pending_data, (state, idx, data), t),
        idx < old(state)@.pending.len(),
        old(state)@.pending[idx as int].buf.len() + data@.len() > 8192,
    ensures
        t@ == closes(
            old(state)@.pending[idx as int].conn_id,
            NextView::Dropped(RefusalView::BufferFull),
        ),
        left_at(old(state)@, final(state)@, idx as int),
{
    lemma_left_at(old(state)@, idx as int);
    assert(t@.effects =~= closes(
        old(state)@.pending[idx as int].conn_id,
        NextView::Finished,
    ).effects);
}

/// Whether a pending connection turns out to be a TLS connection when `data`
/// arrives: it was one, or these are its first bytes and start a record.
pub open spec fn is_tls(p: PendingView, data: Seq<u8>) -> bool {
    p.kind == "tls"@ || p.kind == "unknown"@ && data.len() > 0 && data[0] == 22
}

/// Whether a pending connection turns out to be a control connection when
/// `data` arrives: it was one, or these are its first bytes and start with a
/// brace.
pub open spec fn is_control(p: PendingView, data: Seq<u8>) -> bool {
    p.kind == "control"@ || p.kind == "unknown"@ && data.len() > 0 && data[0] == 123
}

/// A pending connection that turns out to be neither a TLS connection nor a
/// control connection is dropped.
pub proof fn law_junk_is_refused(
    state: &mut FrontdoorState,
    idx: usize,
    data: Vec<u8>,
    t: Transition,
)
    requires
        call_ensures(handle_pending_data, (state, idx, data), t),
        idx < old(state)@.pending.len(),
        old(state)@.pending[idx as int].buf.len() + data@.len() <= 8192,
        !is_tls(old(state)@.pending[idx as int], data@),
        !is_control(old(state)@.pending[idx as int], data@),
    ensures
        t@ == closes(
            old(state)@.pending[idx as int].conn_id,
            NextView::Dropped(RefusalView::Unclassifiable),
        ),
        left_at(old(state)@, final(state)@, idx as int),
{
    lemma_kinds();
    lemma_left_at(old(state)@, idx as int);
    assert(t@.effects =~= closes(
        old(state)@.pending[idx as int].conn_id,
        NextView::Finished,
    ).effects);
}

/// What a TLS connection has sent so far is kept, and looked at as a whole.
pub proof fn law_tls_bytes_are_gathered(
    state: &mut FrontdoorState,
    idx: usize,
    data: Vec<u8>,
    t: Transition,
    again: &mut FrontdoorState,
    conn_id: String,
    all: Vec<u8>,
    u: Transition,
)
    requires
        call_ensures(handle_pending_data, (state, idx, data), t),
        call_ensures(handle_tls_pending, (again, idx, conn_id, all), u),
        idx < old(state)@.pending.len(),
        is_tls(old(state)@.pending[idx as int], data@),
        all@ == old(state)@.pending[idx as int].buf + data@,
        all@.len() <= 8192,
        conn_id@ == old(state)@.pending[idx as int].conn_id,
        old(again)@ == (FrontdoorView {
            pending: old(state)@.pending.update(
                idx as int,
                PendingView { conn_id: conn_id@, kind: "tls"@, buf: all@ },
            ),
            ..old(state)@
        }),
    ensures
        t@ == u@,
        final(state)@ == final(again)@,
{
    lemma_kinds();
}

/// What a control connection has sent and is yet to be read is looked at as a
/// whole.
pub proof fn law_control_bytes_are_gathered(
    state: &mut FrontdoorState,
    idx: usize,
    data: Vec<u8>,
    t: Transition,
    again: &mut FrontdoorState,
    conn_id: String,
    all: Vec<u8>,
    u: Transition,
)
    requires
        call_ensures(handle_pending_data, (state, idx, data), t),
        call_ensures(handle_control_pending, (again, idx, conn_id, all), u),
        idx < old(state)@.pending.len(),
        is_control(old(state)@.pending[idx as int], data@),
        all@ == old(state)@.pending[idx as int].buf + data@,
        all@.len() <= 8192,
        conn_id@ == old(state)@.pending[idx as int].conn_id,
        old(again)@ == (FrontdoorView {
            pending: old(state)@.pending.update(
                idx as int,
                PendingView { conn_id: conn_id@, kind: "control"@, buf: all@ },
            ),
            ..old(state)@
        }),
    ensures
        t@ == u@,
        final(state)@ == final(again)@,
{
    lemma_kinds();
}

/// The verdict on what a TLS connection has sent decides what becomes of it.
/// Incomplete bytes: it waits. A server name with a backend: it is to be
/// bridged to that backend, to which all of its bytes are to be replayed. No
/// server name: the same with the default backend. Otherwise it is dropped, and
/// the reason is given.
pub proof fn law_verdict_decides(
    state: &mut FrontdoorState,
    idx: usize,
    conn_id: String,
    buf: Vec<u8>,
    t: Transition,
    bytes: &[u8],
    verdict: SniResult,
    before: &FrontdoorState,
    hostname: &str,
    backend: Option<String>,
)
    requires
        call_ensures(handle_tls_pending, (state, idx, conn_id, buf), t),
        idx < old(state)@.pending.len(),
        call_ensures(parse_sni, (bytes,), verdict),
        bytes@ == buf@,
        before@ == old(state)@,
        call_ensures(lookup_backend, (before, hostname), backend),
    ensures
        match verdict {
            SniResult::Incomplete => {
                &&& t@ == goes_on(NextView::Finished)
                &&& final(state)@ == old(state)@
            },
            SniResult::Found(name) => hostname@ == name@ ==> match backend {
                Some(b) => {
                    &&& t@ == goes_on(
                        NextView::Connect(
                            PromotionView {
                                idx: idx as int,
                                inbound: conn_id@,
                                sni_label: name@,
                                backend: b@,
                                replay: buf@,
                            },
                        ),
                    )
                    &&& final(state)@ == old(state)@
                },
                None => {
                    &&& t@ == closes(conn_id@, NextView::Dropped(RefusalView::NoRoute(name@)))
                    &&& left_at(old(state)@, final(state)@, idx as int)
                },
            },
            SniResult::Absent => if old(state)@.default_backend.len() > 0 {
                &&& t@ == goes_on(
                    NextView::Connect(
                        PromotionView {
                            idx: idx as int,
                            inbound: conn_id@,
                            sni_label: "<no-sni>"@,
                            backend: old(state)@.default_backend,
                            replay: buf@,
                        },
                    ),
                )
                &&& final(state)@ == old(state)@
            } else {
                &&& t@ == closes(conn_id@, NextView::Dropped(RefusalView::NoServerName))
                &&& left_at(old(state)@, final(state)@, idx as int)
            },
            SniResult::Malformed(why) => {
                &&& t@ == closes(conn_id@, NextView::Dropped(RefusalView::Malformed(why@)))
                &&& left_at(old(state)@, final(state)@, idx as int)
            },
        },
{
    lemma_left_at(old(state)@, idx as int);
    assert(t@.effects.len() == 0 ==> t@.effects =~= seq![]);
    assert(t@.effects.len() == 1 ==> t@.effects =~= seq![t@.effects[0]]);
}

/// The complete lines that a control connection has sent are to be parsed, and
/// what follows them is kept for later.
pub proof fn law_lines_are_handed_over(
    state: &mut FrontdoorState,
    idx: usize,
    conn_id: String,
    buf: Vec<u8>,
    t: Transition,
    bytes: &[u8],
    lines: (Vec<ControlLine>, Vec<u8>),
)
    requires
        call_ensures(handle_control_pending, (state, idx, conn_id, buf), t),
        idx < old(state)@.pending.len(),
        call_ensures(control_lines, (bytes,), lines),
        bytes@ == buf@,
    ensures
        t@ == goes_on(NextView::Parse { conn_id: conn_id@, lines: views(lines.0@) }),
        final(state)@ == (FrontdoorView {
            pending: old(state)@.pending.update(
                idx as int,
                PendingView { buf: lines.1@, ..old(state)@.pending[idx as int] },
            ),
            ..old(state)@
        }),
{
    assert(t@.effects =~= seq![]);
}

/// Bytes on an end of a pipe go to the other end, as they are, and change
/// nothing.
pub proof fn law_piped_bytes_go_to_the_other_end(
    state: &mut FrontdoorState,
    conn_id: String,
    data: Vec<u8>,
    t: Transition,
    i: int,
)
    requires
        call_ensures(on_data, (state, conn_id, data), t),
        no_pending(old(state)@.pending, conn_id@),
        first_pipe(old(state)@.pipes, conn_id@, i),
        data@.len() > 0,
    ensures
        final(state)@ == old(state)@,
        t@ == goes_on(
            NextView::Forward {
                conn_id: conn_id@,
                peer: if old(state)@.pipes[i].a == conn_id@ {
                    old(state)@.pipes[i].b
                } else {
                    old(state)@.pipes[i].a
                },
                data: data@,
            },
        ),
{
    lemma_no_pending(old(state)@.pending, conn_id@);
    lemma_first_pipe(old(state)@.pipes, conn_id@, i);
    assert(t@.effects =~= seq![]);
}

/// Bytes on a connection of which nothing is known close it and change nothing.
pub proof fn law_unknown_connections_are_refused(
    state: &mut FrontdoorState,
    conn_id: String,
    data: Vec<u8>,
    t: Transition,
)
    requires
        call_ensures(on_data, (state, conn_id, data), t),
        no_pending(old(state)@.pending, conn_id@),
        no_pipe(old(state)@.pipes, conn_id@),
    ensures
        final(state)@ == old(state)@,
        t@ == closes(conn_id@, NextView::Dropped(RefusalView::Unknown)),
{
    lemma_no_pending(old(state)@.pending, conn_id@);
    lemma_no_pipe(old(state)@.pipes, conn_id@);
    assert(t@.effects =~= closes(conn_id@, NextView::Finished).effects);
}

proof fn lemma_unjoined_is_filtered(pipes: Seq<PipeView>, conn: Seq<char>)
    ensures
        unjoined(pipes, conn) == pipes.filter(|p: PipeView| p.a != conn && p.b != conn),
    decreases pipes.len(),
{
    let keeps = |p: PipeView| p.a != conn && p.b != conn;
    if pipes.len() == 0 {
        reveal(Seq::filter);
        assert(pipes.filter(keeps) =~= Seq::<PipeView>::empty());
    } else {
        let rest = pipes.drop_first();
        lemma_unjoined_is_filtered(rest, conn);
        assert(pipes =~= seq![pipes[0]] + rest);
        Seq::filter_distributes_over_add(seq![pipes[0]], rest, keeps);
        assert(seq![pipes[0]].filter(keeps) =~= if keeps(pipes[0]) {
            seq![pipes[0]]
        } else {
            Seq::empty()
        }) by {
            reveal(Seq::filter);
            assert(seq![pipes[0]].drop_last() =~= Seq::<PipeView>::empty());
            assert(Seq::<PipeView>::empty().filter(keeps) =~= Seq::<PipeView>::empty());
        }
        assert(unjoined(pipes, conn) =~= pipes.filter(keeps));
    }
}

/// Closing a pipe closes the connection and then, where it is an end of a pipe,
/// the other end. The pipes of the connection are gone, and nothing else
/// changes.
pub proof fn law_close_pipe_closes_both_ends(
    state: &mut FrontdoorState,
    conn_id: String,
    t: Transition,
    i: int,
)
    requires
        call_ensures(close_pipe, (state, conn_id), t),
    ensures
        final(state)@ == (FrontdoorView {
            pipes: old(state)@.pipes.filter(|p: PipeView| p.a != conn_id@ && p.b != conn_id@),
            ..old(state)@
        }),
        first_pipe(old(state)@.pipes, conn_id@, i) ==> t@ == closes_both(
            conn_id@,
            if old(state)@.pipes[i].a == conn_id@ {
                old(state)@.pipes[i].b
            } else {
                old(state)@.pipes[i].a
            },
        ),
        no_pipe(old(state)@.pipes, conn_id@) ==> t@ == closes(conn_id@, NextView::Finished),
{
    lemma_unjoined_is_filtered(old(state)@.pipes, conn_id@);
    if first_pipe(old(state)@.pipes, conn_id@, i) {
        lemma_first_pipe(old(state)@.pipes, conn_id@, i);
        let peer = if old(state)@.pipes[i].a == conn_id@ {
            old(state)@.pipes[i].b
        } else {
            old(state)@.pipes[i].a
        };
        assert(t@.effects =~= closes_both(conn_id@, peer).effects);
    }
    if no_pipe(old(state)@.pipes, conn_id@) {
        lemma_no_pipe(old(state)@.pipes, conn_id@);
        assert(t@.effects =~= closes(conn_id@, NextView::Finished).effects);
    }
}

/// A pipe is closed where the stream of one of its ends is over, where bytes
/// could not be forwarded from it, and where it has been closed. Bytes that
/// have been forwarded change nothing.
pub proof fn law_pipes_are_closed(
    state: &mut FrontdoorState,
    conn_id: String,
    t: Transition,
    ended: &mut FrontdoorState,
    nothing: Vec<u8>,
    t1: Transition,
    failed: &mut FrontdoorState,
    sent: Result<u64, String>,
    t2: Transition,
    closed: &mut FrontdoorState,
    t3: Transition,
    i: int,
)
    requires
        call_ensures(close_pipe, (state, conn_id), t),
        call_ensures(on_data, (ended, conn_id, nothing), t1),
        call_ensures(forwarded, (failed, conn_id, sent), t2),
        call_ensures(on_close, (closed, conn_id), t3),
        old(ended)@ == old(state)@,
        old(failed)@ == old(state)@,
        old(closed)@ == old(state)@,
        nothing@.len() == 0,
    ensures
        no_pending(old(state)@.pending, conn_id@) && first_pipe(
            old(state)@.pipes,
            conn_id@,
            i,
        ) ==> {
            &&& t1@ == t@
            &&& final(ended)@ == final(state)@
            &&& t3@ == t@
            &&& final(closed)@ == final(state)@
        },
        sent is Err ==> t2@ == t@ && final(failed)@ == final(state)@,
        sent is Ok ==> t2@ == goes_on(NextView::Finished) && final(failed)@ == old(failed)@,
{
    if no_pending(old(state)@.pending, conn_id@) && first_pipe(old(state)@.pipes, conn_id@, i) {
        lemma_no_pending(old(state)@.pending, conn_id@);
        lemma_first_pipe(old(state)@.pipes, conn_id@, i);
    }
    if sent is Ok {
        assert(t2@.effects =~= seq![]);
    }
}

/// The end of a pending connection closes and forgets it. The end of a
/// connection of which nothing is known closes it and changes nothing.
pub proof fn law_closed_connections_are_forgotten(
    state: &mut FrontdoorState,
    conn_id: String,
    t: Transition,
    i: int,
)
    requires
        call_ensures(on_close, (state, conn_id), t),
    ensures
        first_pending(old(state)@.pending, conn_id@, i) ==> {
            &&& t@ == closes(conn_id@, NextView::Finished)
            &&& left_at(old(state)@, final(state)@, i)
        },
        no_pending(old(state)@.pending, conn_id@) && no_pipe(old(state)@.pipes, conn_id@) ==> {
            &&& t@ == closes(conn_id@, NextView::Finished)
            &&& final(state)@ == old(state)@
        },
{
    if first_pending(old(state)@.pending, conn_id@, i) {
        lemma_first_pending(old(state)@.pending, conn_id@, i);
        lemma_left_at(old(state)@, i);
        assert(t@.effects =~= closes(conn_id@, NextView::Finished).effects);
    }
    if no_pending(old(state)@.pending, conn_id@) && no_pipe(old(state)@.pipes, conn_id@) {
        lemma_no_pending(old(state)@.pending, conn_id@);
        lemma_no_pipe(old(state)@.pipes, conn_id@);
        assert(t@.effects =~= closes(conn_id@, NextView::Finished).effects);
    }
}

/// A promotion goes step by step: once the backend is connected, the outbound
/// connection is put in active mode, and then everything is replayed to it.
/// Until then nothing changes.
pub proof fn law_promotion_goes_step_by_step(
    state: &mut FrontdoorState,
    promotion: Promotion,
    outbound: String,
    t: Transition,
    next: &mut FrontdoorState,
    u: Transition,
)
    requires
        call_ensures(promote_to_pipe, (state, promotion, Ok::<String, String>(outbound)), t),
        call_ensures(outbound_armed, (next, promotion, outbound, Ok::<(), String>(())), u),
        promotion.idx < old(state)@.pending.len(),
        promotion.idx < old(next)@.pending.len(),
    ensures
        t@ == goes_on(NextView::ArmOutbound { promotion: promotion@, outbound: outbound@ }),
        final(state)@ == old(state)@,
        u@ == goes_on(NextView::Replay { promotion: promotion@, outbound: outbound@ }),
        final(next)@ == old(next)@,
{
    assert(t@.effects =~= seq![]);
    assert(u@.effects =~= seq![]);
}

/// Once everything has been replayed, the connection is no longer pending, and
/// it and the outbound one are the two ends of a new pipe. Nothing else
/// changes.
pub proof fn law_replay_makes_a_pipe(
    state: &mut FrontdoorState,
    promotion: Promotion,
    outbound: String,
    n: u64,
    t: Transition,
)
    requires
        call_ensures(outbound_replayed, (state, promotion, outbound, Ok::<u64, String>(n)), t),
        promotion.idx < old(state)@.pending.len(),
    ensures
        t@ == goes_on(NextView::Finished),
        final(state)@.pipes == old(state)@.pipes.push(
            PipeView { a: promotion.inbound@, b: outbound@ },
        ),
        left_at(
            old(state)@,
            FrontdoorView { pipes: old(state)@.pipes, ..final(state)@ },
            promotion.idx as int,
        ),
{
    lemma_left_at(old(state)@, promotion.idx as int);
    assert(t@.effects =~= seq![]);
}

/// A step of a promotion that fails drops the connection, and closes it and
/// then the outbound one, if there is one by then.
pub proof fn law_failed_steps_drop_the_connection(
    state: &mut FrontdoorState,
    promotion: Promotion,
    outbound: String,
    e: String,
    t: Transition,
    unarmed: &mut FrontdoorState,
    u: Transition,
    unsent: &mut FrontdoorState,
    v: Transition,
)
    requires
        call_ensures(promote_to_pipe, (state, promotion, Err::<String, String>(e)), t),
        call_ensures(outbound_armed, (unarmed, promotion, outbound, Err::<(), String>(e)), u),
        call_ensures(outbound_replayed, (unsent, promotion, outbound, Err::<u64, String>(e)), v),
        promotion.idx < old(state)@.pending.len(),
        promotion.idx < old(unarmed)@.pending.len(),
        promotion.idx < old(unsent)@.pending.len(),
    ensures
        t@ == closes(promotion.inbound@, NextView::Finished),
        left_at(old(state)@, final(state)@, promotion.idx as int),
        u@ == closes_both(promotion.inbound@, outbound@),
        left_at(old(unarmed)@, final(unarmed)@, promotion.idx as int),
        v@ == closes_both(promotion.inbound@, outbound@),
        left_at(old(unsent)@, final(unsent)@, promotion.idx as int),
{
    lemma_left_at(old(state)@, promotion.idx as int);
    lemma_left_at(old(unarmed)@, promotion.idx as int);
    lemma_left_at(old(unsent)@, promotion.idx as int);
    assert(t@.effects =~= closes(promotion.inbound@, NextView::Finished).effects);
    assert(u@.effects =~= closes_both(promotion.inbound@, outbound@).effects);
    assert(v@.effects =~= closes_both(promotion.inbound@, outbound@).effects);
}

/// A line of a control connection is carried out, and its answer is sent on the
/// connection.
pub proof fn law_line_is_carried_out(
    state: &mut FrontdoorState,
    conn_id: String,
    requests: Vec<ControlRequest>,
    t: Transition,
    again: &mut FrontdoorState,
    request: ControlRequest,
    answer: Vec<u8>,
)
    requires
        call_ensures(control_parsed, (state, conn_id, requests), t),
        call_ensures(control_dispatch, (again, request), answer),
        requests@ == seq![request],
        old(again)@ == old(state)@,
    ensures
        final(state)@ == final(again)@,
        t@ == (TransitionView {
            effects: seq![EffectView::Send { conn_id: conn_id@, data: answer@ }],
            next: NextView::Finished,
        }),
{
    let all = views(requests@);
    assert(all =~= seq![request@]);
    assert(all.drop_last() =~= Seq::empty());
    let none = after_requests(old(state)@, all.drop_last());
    assert(none.0 == old(state)@);
    assert(none.1 =~= Seq::<Seq<char>>::empty());
    assert(t@.effects =~= seq![EffectView::Send { conn_id: conn_id@, data: answer@ }]);
}

/// The lines of a control connection are carried out and answered in order:
/// doing so for some and then for the rest is the same as doing so for all. No
/// lines change nothing and get no answer.
pub proof fn law_lines_are_carried_out_in_order(
    state: &mut FrontdoorState,
    conn_id: String,
    all: Vec<ControlRequest>,
    t: Transition,
    first: &mut FrontdoorState,
    some: Vec<ControlRequest>,
    t1: Transition,
    second: &mut FrontdoorState,
    rest: Vec<ControlRequest>,
    t2: Transition,
)
    requires
        call_ensures(control_parsed, (state, conn_id, all), t),
        call_ensures(control_parsed, (first, conn_id, some), t1),
        call_ensures(control_parsed, (second, conn_id, rest), t2),
        all@ == some@ + rest@,
        old(first)@ == old(state)@,
        old(second)@ == final(first)@,
    ensures
        final(state)@ == final(second)@,
        t@.effects == t1@.effects + t2@.effects,
        t@.next == NextView::Finished,
        all@.len() == 0 ==> t@.effects.len() == 0 && final(state)@ == old(state)@,
{
    assert(views(all@) =~= views(some@) + views(rest@));
    law_batches_add_up(old(state)@, views(some@), views(rest@));
    assert(t@.effects =~= t1@.effects + t2@.effects);
}

} // verus!
