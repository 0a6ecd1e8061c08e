//! The life of a connection, as a state machine.
//!
//! A callback of the host starts with `handle_connection`, `on_data` or
//! `on_close`. Each function here changes the state and returns a
//! [`Transition`]: the effects that the host is to carry out, in order,
//! whose outcome does not matter, and then what comes next. Where the next
//! step is an operation whose outcome does matter, the host performs it and
//! hands the outcome to the function that the step names.

use vstd::prelude::*;
use vstd::string::*;
use vstd::utf8::encode_utf8;

use crate::control::{control_dispatch, control_lines, ControlLine, ControlRequest};
use crate::control::{after_request, line_contents, tail_of, LineView, RequestView};
use crate::seqs::{swap_removed, views};
use crate::sni::{parse_sni, SniResult};
use crate::sni::{sni, SniView};
use crate::state::{
    find_peer, find_pending, lookup_backend, FrontdoorState, Pending, Pipe,
};
use crate::state::{
    backend_for, default_of, peer_of, pending_index, FrontdoorView, PendingView, PipeView,
};
use crate::text::str_eq;

verus! {

/// How many bytes are buffered for a connection while its ClientHello or the
/// rest of its line is awaited. A connection that sends more is dropped.
pub const PENDING_BUFFER_CAP: usize = 8192;

/// An operation that the host carries out and whose outcome does not matter.
#[derive(Clone, Debug, PartialEq, Eq)]
pub enum Effect {
    /// Send the bytes on the connection.
    Send { conn_id: String, data: Vec<u8> },
    /// Close the connection.
    Close { conn_id: String },
}

/// Why a connection was dropped.
#[derive(Clone, Debug, PartialEq, Eq)]
pub enum Refusal {
    /// It sent more than `PENDING_BUFFER_CAP` bytes before it was placed.
    BufferFull,
    /// Its first byte starts neither a TLS record nor a command.
    Unclassifiable,
    /// There is no backend for the host that it names.
    NoRoute(String),
    /// It names no host, and there is no default backend.
    NoServerName,
    /// Its ClientHello does not parse, for the reason given.
    Malformed(&'static str),
    /// Nothing is known of it.
    Unknown,
}

/// An inbound connection that is to be bridged to a backend.
#[derive(Clone, Debug, PartialEq, Eq)]
pub struct Promotion {
    /// The position of the inbound connection among the pending ones.
    pub idx: usize,
    pub inbound: String,
    /// The server name, or `<no-sni>`.
    pub sni_label: String,
    pub backend: String,
    /// All that has arrived on the inbound connection so far.
    pub replay: Vec<u8>,
}

/// What the host does after the effects.
#[derive(Clone, Debug, PartialEq, Eq)]
pub enum Next {
    /// Nothing.
    Finished,
    /// Nothing: the connection has been dropped.
    Dropped(Refusal),
    /// Activate the connection and go on with `activate_and_arm`.
    Activate { conn_id: String },
    /// Set the connection to active mode and go on with `accept_armed`.
    Arm { conn_id: String },
    /// Connect to the backend and go on with `promote_to_pipe`.
    Connect(Promotion),
    /// Set `outbound` to active mode and go on with `outbound_armed`.
    ArmOutbound { promotion: Promotion, outbound: String },
    /// Send the replay on `outbound` and go on with `outbound_replayed`.
    Replay { promotion: Promotion, outbound: String },
    /// Send the bytes on `peer` and go on with `forwarded`.
    Forward { conn_id: String, peer: String, data: Vec<u8> },
    /// Parse the texts of the lines and go on with `control_parsed`.
    Parse { conn_id: String, lines: Vec<ControlLine> },
}

/// What the host does: the effects, in order, and then the next step.
#[derive(Clone, Debug, PartialEq, Eq)]
pub struct Transition {
    pub effects: Vec<Effect>,
    pub next: Next,
}

/// The view of an `Effect`.
pub enum EffectView {
    Send { conn_id: Seq<char>, data: Seq<u8> },
    Close { conn_id: Seq<char> },
}

/// The view of a `Refusal`.
pub enum RefusalView {
    BufferFull,
    Unclassifiable,
    NoRoute(Seq<char>),
    NoServerName,
    Malformed(Seq<char>),
    Unknown,
}

/// The view of a `Promotion`.
pub struct PromotionView {
    pub idx: int,
    pub inbound: Seq<char>,
    pub sni_label: Seq<char>,
    pub backend: Seq<char>,
    pub replay: Seq<u8>,
}

/// The view of a `Next`.
pub enum NextView {
    Finished,
    Dropped(RefusalView),
    Activate { conn_id: Seq<char> },
    Arm { conn_id: Seq<char> },
    Connect(PromotionView),
    ArmOutbound { promotion: PromotionView, outbound: Seq<char> },
    Replay { promotion: PromotionView, outbound: Seq<char> },
    Forward { conn_id: Seq<char>, peer: Seq<char>, data: Seq<u8> },
    Parse { conn_id: Seq<char>, lines: Seq<LineView> },
}

/// The view of a `Transition`.
pub struct TransitionView {
    pub effects: Seq<EffectView>,
    pub next: NextView,
}

impl View for Effect {
    type V = EffectView;

    open spec fn view(&self) -> EffectView {
        match self {
            Effect::Send { conn_id, data } => EffectView::Send { conn_id: conn_id@, data: data@ },
            Effect::Close { conn_id } => EffectView::Close { conn_id: conn_id@ },
        }
    }
}

impl View for Refusal {
    type V = RefusalView;

    open spec fn view(&self) -> RefusalView {
        match self {
            Refusal::BufferFull => RefusalView::BufferFull,
            Refusal::Unclassifiable => RefusalView::Unclassifiable,
            Refusal::NoRoute(name) => RefusalView::NoRoute(name@),
            Refusal::NoServerName => RefusalView::NoServerName,
            Refusal::Malformed(reason) => RefusalView::Malformed(reason@),
            Refusal::Unknown => RefusalView::Unknown,
        }
    }
}

impl View for Promotion {
    type V = PromotionView;

    open spec fn view(&self) -> PromotionView {
        PromotionView {
            idx: self.idx as int,
            inbound: self.inbound@,
            sni_label: self.sni_label@,
            backend: self.backend@,
            replay: self.replay@,
        }
    }
}

impl View for Next {
    type V = NextView;

    open spec fn view(&self) -> NextView {
        match self {
            Next::Finished => NextView::Finished,
            Next::Dropped(why) => NextView::Dropped(why@),
            Next::Activate { conn_id } => NextView::Activate { conn_id: conn_id@ },
            Next::Arm { conn_id } => NextView::Arm { conn_id: conn_id@ },
            Next::Connect(p) => NextView::Connect(p@),
            Next::ArmOutbound { promotion, outbound } => NextView::ArmOutbound {
                promotion: promotion@,
                outbound: outbound@,
            },
            Next::Replay { promotion, outbound } => NextView::Replay {
                promotion: promotion@,
                outbound: outbound@,
            },
            Next::Forward { conn_id, peer, data } => NextView::Forward {
                conn_id: conn_id@,
                peer: peer@,
                data: data@,
            },
            Next::Parse { conn_id, lines } => NextView::Parse {
                conn_id: conn_id@,
                lines: views(lines@),
            },
        }
    }
}

impl View for Transition {
    type V = TransitionView;

    open spec fn view(&self) -> TransitionView {
        TransitionView { effects: views(self.effects@), next: self.next@ }
    }
}

/// A transition without effects.
pub open spec fn just(next: NextView) -> TransitionView {
    TransitionView { effects: Seq::empty(), next }
}

/// A transition that closes `conn` and ends there.
pub open spec fn refuse(conn: Seq<char>, why: RefusalView) -> TransitionView {
    TransitionView {
        effects: seq![EffectView::Close { conn_id: conn }],
        next: NextView::Dropped(why),
    }
}

/// A transition that closes `conns`, in order, and ends there.
pub open spec fn close_all(conns: Seq<Seq<char>>) -> TransitionView {
    TransitionView {
        effects: Seq::new(conns.len(), |i: int| EffectView::Close { conn_id: conns[i] }),
        next: NextView::Finished,
    }
}

/// The kind of a connection whose first byte is `b`: a TLS handshake record,
/// a JSON object, or neither.
pub open spec fn kind_of(b: u8) -> Seq<char> {
    if b == 0x16 {
        "tls"@
    } else if b == 0x7b {
        "control"@
    } else {
        "junk"@
    }
}

/// `s` with `conn` waiting for its first bytes.
pub open spec fn with_pending(s: FrontdoorView, conn: Seq<char>) -> FrontdoorView {
    FrontdoorView {
        pending: s.pending.push(
            PendingView { conn_id: conn, kind: "unknown"@, buf: Seq::empty() },
        ),
        ..s
    }
}

/// `s` without the pending connection at `i`.
pub open spec fn without_pending_at(s: FrontdoorView, i: int) -> FrontdoorView {
    FrontdoorView { pending: swap_removed(s.pending, i), ..s }
}

/// `s` without the pending connection `conn`, if there is one.
pub open spec fn without_pending(s: FrontdoorView, conn: Seq<char>) -> FrontdoorView {
    match pending_index(s.pending, conn) {
        Some(i) => without_pending_at(s, i),
        None => s,
    }
}

/// `s` with `inbound`, which was pending at `i`, bridged to `outbound`.
pub open spec fn bridged(
    s: FrontdoorView,
    i: int,
    inbound: Seq<char>,
    outbound: Seq<char>,
) -> FrontdoorView {
    FrontdoorView {
        pipes: s.pipes.push(PipeView { a: inbound, b: outbound }),
        ..without_pending_at(s, i)
    }
}

/// `pipes` without those that have the end `conn`.
pub open spec fn unjoined(pipes: Seq<PipeView>, conn: Seq<char>) -> Seq<PipeView>
    decreases pipes.len(),
{
    if pipes.len() == 0 {
        Seq::empty()
    } else if pipes[0].joins(conn) {
        unjoined(pipes.drop_first(), conn)
    } else {
        seq![pipes[0]] + unjoined(pipes.drop_first(), conn)
    }
}

/// The pipe of `conn` is torn down: both its ends are closed.
pub open spec fn torn_down(s: FrontdoorView, conn: Seq<char>) -> (FrontdoorView, TransitionView) {
    (
        FrontdoorView { pipes: unjoined(s.pipes, conn), ..s },
        match peer_of(s.pipes, conn) {
            Some(peer) => close_all(seq![conn, peer]),
            None => close_all(seq![conn]),
        },
    )
}

/// What becomes of the TLS connection at `i`, of which `buf` has arrived.
pub open spec fn after_tls(s: FrontdoorView, i: int, conn: Seq<char>, buf: Seq<u8>) -> (
    FrontdoorView,
    TransitionView,
) {
    match sni(buf) {
        SniView::Incomplete => (s, just(NextView::Finished)),
        SniView::Found(name) => match backend_for(s, name) {
            Some(backend) => (
                s,
                just(
                    NextView::Connect(
                        PromotionView {
                            idx: i,
                            inbound: conn,
                            sni_label: name,
                            backend,
                            replay: buf,
                        },
                    ),
                ),
            ),
            None => (without_pending_at(s, i), refuse(conn, RefusalView::NoRoute(name))),
        },
        SniView::Absent => match default_of(s) {
            Some(backend) => (
                s,
                just(
                    NextView::Connect(
                        PromotionView {
                            idx: i,
                            inbound: conn,
                            sni_label: "<no-sni>"@,
                            backend,
                            replay: buf,
                        },
                    ),
                ),
            ),
            None => (without_pending_at(s, i), refuse(conn, RefusalView::NoServerName)),
        },
        SniView::Malformed(reason) => (
            without_pending_at(s, i),
            refuse(conn, RefusalView::Malformed(reason)),
        ),
    }
}

/// What becomes of the control connection at `i`, of which `buf` is yet to be
/// read: its complete lines go to the parser, the rest stays.
pub open spec fn after_control(s: FrontdoorView, i: int, conn: Seq<char>, buf: Seq<u8>) -> (
    FrontdoorView,
    TransitionView,
) {
    (
        FrontdoorView {
            pending: s.pending.update(i, PendingView { buf: tail_of(buf), ..s.pending[i] }),
            ..s
        },
        just(NextView::Parse { conn_id: conn, lines: line_contents(buf) }),
    )
}

/// What becomes of the pending connection at `i` when `data` arrives.
pub open spec fn after_pending_data(s: FrontdoorView, i: int, data: Seq<u8>) -> (
    FrontdoorView,
    TransitionView,
) {
    let p = s.pending[i];
    let kind = if p.kind == "unknown"@ && data.len() > 0 {
        kind_of(data[0])
    } else {
        p.kind
    };
    let buf = p.buf + data;
    let kept = FrontdoorView {
        pending: s.pending.update(i, PendingView { conn_id: p.conn_id, kind, buf }),
        ..s
    };
    if buf.len() > PENDING_BUFFER_CAP {
        (without_pending_at(s, i), refuse(p.conn_id, RefusalView::BufferFull))
    } else if kind == "tls"@ {
        after_tls(kept, i, p.conn_id, buf)
    } else if kind == "control"@ {
        after_control(kept, i, p.conn_id, buf)
    } else {
        (without_pending_at(s, i), refuse(p.conn_id, RefusalView::Unclassifiable))
    }
}

/// What happens when `data` arrives on `conn`. No bytes on a bridged connection
/// mean that its end of the stream has been reached.
pub open spec fn after_data(s: FrontdoorView, conn: Seq<char>, data: Seq<u8>) -> (
    FrontdoorView,
    TransitionView,
) {
    match pending_index(s.pending, conn) {
        Some(i) => after_pending_data(s, i, data),
        None => match peer_of(s.pipes, conn) {
            Some(peer) => if data.len() == 0 {
                torn_down(s, conn)
            } else {
                (s, just(NextView::Forward { conn_id: conn, peer, data }))
            },
            None => (s, refuse(conn, RefusalView::Unknown)),
        },
    }
}

/// What happens when `conn` is closed.
pub open spec fn after_close(s: FrontdoorView, conn: Seq<char>) -> (FrontdoorView, TransitionView) {
    if pending_index(s.pending, conn) is Some {
        (without_pending(s, conn), close_all(seq![conn]))
    } else if peer_of(s.pipes, conn) is Some {
        torn_down(s, conn)
    } else {
        (s, close_all(seq![conn]))
    }
}

/// The state after the lines of a control connection, and the answers.
pub open spec fn after_requests(s: FrontdoorView, requests: Seq<RequestView>) -> (
    FrontdoorView,
    Seq<Seq<char>>,
)
    decreases requests.len(),
{
    if requests.len() == 0 {
        (s, Seq::empty())
    } else {
        let before = after_requests(s, requests.drop_last());
        let last = after_request(before.0, requests.last());
        (last.0, before.1.push(last.1))
    }
}

/// The answers as they are sent on `conn`.
pub open spec fn sends(conn: Seq<char>, answers: Seq<Seq<char>>) -> Seq<EffectView> {
    Seq::new(
        answers.len(),
        |i: int| EffectView::Send { conn_id: conn, data: encode_utf8(answers[i]) },
    )
}

fn no_effects(next: Next) -> (t: Transition)
    ensures
        t@ == just(next@),
{
    let effects: Vec<Effect> = Vec::new();
    proof {
        assert(views(effects@) =~= Seq::<EffectView>::empty());
    }
    Transition { effects, next }
}

fn closing(conn_id: String, next: Next) -> (t: Transition)
    ensures
        t@.effects == seq![EffectView::Close { conn_id: conn_id@ }],
        t@.next == next@,
{
    let mut effects: Vec<Effect> = Vec::new();
    effects.push(Effect::Close { conn_id });
    proof {
        assert(views(effects@) =~= seq![EffectView::Close { conn_id: conn_id@ }]);
    }
    Transition { effects, next }
}

fn closing_one(conn_id: String) -> (t: Transition)
    ensures
        t@ == close_all(seq![conn_id@]),
{
    let t = closing(conn_id, Next::Finished);
    proof {
        assert(t@.effects =~= close_all(seq![conn_id@]).effects);
    }
    t
}

fn closing_two(first: String, second: String) -> (t: Transition)
    ensures
        t@ == close_all(seq![first@, second@]),
{
    let mut effects: Vec<Effect> = Vec::new();
    effects.push(Effect::Close { conn_id: first });
    effects.push(Effect::Close { conn_id: second });
    proof {
        assert(views(effects@) =~= close_all(seq![first@, second@]).effects);
    }
    Transition { effects, next: Next::Finished }
}

/// Starts on a connection that a listener has accepted.
pub fn handle_connection(conn_id: String) -> (t: Transition)
    ensures
        t@ == just(NextView::Activate { conn_id: conn_id@ }),
{
    no_effects(Next::Activate { conn_id })
}

/// Goes on once the activation of an accepted connection has succeeded or
/// failed. A failure closes this connection and nothing else.
pub fn activate_and_arm(conn_id: String, activated: Result<(), String>) -> (t: Transition)
    ensures
        t@ == if activated is Ok {
            just(NextView::Arm { conn_id: conn_id@ })
        } else {
            close_all(seq![conn_id@])
        },
{
    match activated {
        Ok(_) => no_effects(Next::Arm { conn_id }),
        Err(_) => closing_one(conn_id),
    }
}

/// Goes on once an accepted connection is in active mode, or could not be put
/// in it. From then on it waits for its first bytes.
pub fn accept_armed(
    state: &mut FrontdoorState,
    conn_id: String,
    armed: Result<(), String>,
) -> (t: Transition)
    ensures
        armed is Ok ==> final(state)@ == with_pending(old(state)@, conn_id@) && t@ == just(
            NextView::Finished,
        ),
        armed is Err ==> final(state)@ == old(state)@ && t@ == close_all(seq![conn_id@]),
{
    match armed {
        Ok(_) => {
            let ghost before = state@;
            state.pending.push(Pending { conn_id, kind: "unknown".to_owned(), buf: Vec::new() });
            proof {
                assert(state@.pending =~= with_pending(before, conn_id@).pending);
            }
            no_effects(Next::Finished)
        },
        Err(_) => closing_one(conn_id),
    }
}

/// Handles bytes that arrive on a connection: they tell what a pending
/// connection is, or go to the other end of a pipe. Where a bridged connection
/// has no bytes to hand over, its stream has ended, and the pipe is torn down.
pub fn on_data(state: &mut FrontdoorState, conn_id: String, data: Vec<u8>) -> (t: Transition)
    ensures
        (final(state)@, t@) == after_data(old(state)@, conn_id@, data@),
{
    if let Some(idx) = find_pending(state.pending.as_slice(), conn_id.as_str()) {
        handle_pending_data(state, idx, data)
    } else if let Some(peer) = find_peer(state.pipes.as_slice(), conn_id.as_str()) {
        if data.len() == 0 {
            close_pipe(state, conn_id)
        } else {
            no_effects(Next::Forward { conn_id, peer, data })
        }
    } else {
        closing(conn_id, Next::Dropped(Refusal::Unknown))
    }
}

/// Goes on once bytes have been forwarded to the other end of the pipe of
/// `conn_id`. A failure tears the pipe down.
pub fn forwarded(
    state: &mut FrontdoorState,
    conn_id: String,
    sent: Result<u64, String>,
) -> (t: Transition)
    ensures
        sent is Ok ==> final(state)@ == old(state)@ && t@ == just(NextView::Finished),
        sent is Err ==> (final(state)@, t@) == torn_down(old(state)@, conn_id@),
{
    match sent {
        Ok(_) => no_effects(Next::Finished),
        Err(_) => close_pipe(state, conn_id),
    }
}

/// Handles the end of a connection. A pending one is forgotten; the pipe of a
/// bridged one is torn down. Closing a connection that is closed already does
/// no harm.
pub fn on_close(state: &mut FrontdoorState, conn_id: String) -> (t: Transition)
    ensures
        (final(state)@, t@) == after_close(old(state)@, conn_id@),
{
    if let Some(idx) = find_pending(state.pending.as_slice(), conn_id.as_str()) {
        remove_pending_at(state, idx);
        return closing_one(conn_id);
    }
    if find_peer(state.pipes.as_slice(), conn_id.as_str()).is_some() {
        return close_pipe(state, conn_id);
    }
    closing_one(conn_id)
}

fn remove_pending_at(state: &mut FrontdoorState, idx: usize)
    requires
        idx < old(state).pending@.len(),
    ensures
        final(state)@ == without_pending_at(old(state)@, idx as int),
{
    let ghost before = state@.pending;
    let _ = state.pending.swap_remove(idx);
    proof {
        assert(state@.pending =~= swap_removed(before, idx as int));
    }
}

/// Handles bytes that arrive on the pending connection at `idx`.
pub fn handle_pending_data(state: &mut FrontdoorState, idx: usize, data: Vec<u8>) -> (t: Transition)
    requires
        idx < old(state).pending@.len(),
    ensures
        (final(state)@, t@) == after_pending_data(old(state)@, idx as int, data@),
{
    let ghost before = state@;
    let ghost i = idx as int;
    let ghost p = before.pending[i];
    if data.len() > 0 && str_eq(state.pending[idx].kind.as_str(), "unknown") {
        state.pending[idx].kind = classify(data[0]).to_owned();
    }
    let ghost kind = state.pending@[i].kind@;
    state.pending[idx].buf.extend_from_slice(data.as_slice());
    proof {
        assert(state.pending@[i].buf@ =~= p.buf + data@);
        assert(state@.pending =~= before.pending.update(
            i,
            PendingView { conn_id: p.conn_id, kind, buf: p.buf + data@ },
        ));
        assert(swap_removed(state@.pending, i) =~= swap_removed(before.pending, i));
    }
    let conn_id = state.pending[idx].conn_id.clone();
    if state.pending[idx].buf.len() > PENDING_BUFFER_CAP {
        remove_pending_at(state, idx);
        return closing(conn_id, Next::Dropped(Refusal::BufferFull));
    }
    let buf = copy_bytes(&state.pending[idx].buf);
    if str_eq(state.pending[idx].kind.as_str(), "tls") {
        handle_tls_pending(state, idx, conn_id, buf)
    } else if str_eq(state.pending[idx].kind.as_str(), "control") {
        handle_control_pending(state, idx, conn_id, buf)
    } else {
        remove_pending_at(state, idx);
        closing(conn_id, Next::Dropped(Refusal::Unclassifiable))
    }
}

fn copy_bytes(v: &Vec<u8>) -> (r: Vec<u8>)
    ensures
        r@ == v@,
{
    vstd::slice::slice_to_vec(v.as_slice())
}

/// Tells from its first byte what a connection is.
pub fn classify(first_byte: u8) -> (r: &'static str)
    ensures
        r@ == kind_of(first_byte),
{
    if first_byte == 0x16 {
        // the start of a TLS handshake record
        "tls"
    } else if first_byte == 0x7b {
        // an opening brace
        "control"
    } else {
        "junk"
    }
}

/// Looks for the server name in what has arrived on the TLS connection at
/// `idx`, and picks its backend. A connection that is to be bridged stays where
/// it is until the steps of its promotion are done.
pub fn handle_tls_pending(
    state: &mut FrontdoorState,
    idx: usize,
    conn_id: String,
    buf: Vec<u8>,
) -> (t: Transition)
    requires
        idx < old(state).pending@.len(),
    ensures
        (final(state)@, t@) == after_tls(old(state)@, idx as int, conn_id@, buf@),
{
    match parse_sni(buf.as_slice()) {
        SniResult::Incomplete => no_effects(Next::Finished),
        SniResult::Found(hostname) => match lookup_backend(state, hostname.as_str()) {
            Some(backend) => no_effects(
                Next::Connect(
                    Promotion { idx, inbound: conn_id, sni_label: hostname, backend, replay: buf },
                ),
            ),
            None => {
                remove_pending_at(state, idx);
                closing(conn_id, Next::Dropped(Refusal::NoRoute(hostname)))
            },
        },
        SniResult::Absent => {
            if state.default_backend.as_str().is_empty() {
                remove_pending_at(state, idx);
                return closing(conn_id, Next::Dropped(Refusal::NoServerName));
            }
            no_effects(
                Next::Connect(
                    Promotion {
                        idx,
                        inbound: conn_id,
                        sni_label: "<no-sni>".to_owned(),
                        backend: state.default_backend.clone(),
                        replay: buf,
                    },
                ),
            )
        },
        SniResult::Malformed(reason) => {
            remove_pending_at(state, idx);
            closing(conn_id, Next::Dropped(Refusal::Malformed(reason)))
        },
    }
}

/// Goes on once the connection to the backend has been opened, or could not
/// be. A failure drops the inbound connection.
///
/// Here and in the two steps that follow, the pending entry that leaves is the
/// one at the position that the promotion gives. These steps follow one another
/// within a callback, so that the entry is still there.
pub fn promote_to_pipe(
    state: &mut FrontdoorState,
    promotion: Promotion,
    connected: Result<String, String>,
) -> (t: Transition)
    requires
        promotion.idx < old(state).pending@.len(),
    ensures
        connected matches Ok(outbound) ==> final(state)@ == old(state)@ && t@ == just(
            NextView::ArmOutbound { promotion: promotion@, outbound: outbound@ },
        ),
        connected is Err ==> final(state)@ == without_pending_at(old(state)@, promotion.idx as int)
            && t@ == close_all(seq![promotion.inbound@]),
{
    match connected {
        Ok(outbound) => no_effects(Next::ArmOutbound { promotion, outbound }),
        Err(_) => {
            remove_pending_at(state, promotion.idx);
            closing_one(promotion.inbound)
        },
    }
}

/// Goes on once the outbound connection is in active mode, or could not be
/// put in it. A failure drops both connections.
pub fn outbound_armed(
    state: &mut FrontdoorState,
    promotion: Promotion,
    outbound: String,
    armed: Result<(), String>,
) -> (t: Transition)
    requires
        promotion.idx < old(state).pending@.len(),
    ensures
        armed is Ok ==> final(state)@ == old(state)@ && t@ == just(
            NextView::Replay { promotion: promotion@, outbound: outbound@ },
        ),
        armed is Err ==> final(state)@ == without_pending_at(old(state)@, promotion.idx as int) && t@
            == close_all(seq![promotion.inbound@, outbound@]),
{
    match armed {
        Ok(_) => no_effects(Next::Replay { promotion, outbound }),
        Err(_) => {
            remove_pending_at(state, promotion.idx);
            closing_two(promotion.inbound, outbound)
        },
    }
}

/// Goes on once the buffered bytes have been replayed to the backend, or could
/// not be. From then on the two connections are bridged; a failure drops both.
pub fn outbound_replayed(
    state: &mut FrontdoorState,
    promotion: Promotion,
    outbound: String,
    sent: Result<u64, String>,
) -> (t: Transition)
    requires
        promotion.idx < old(state).pending@.len(),
    ensures
        sent is Ok ==> final(state)@ == bridged(
            old(state)@,
            promotion.idx as int,
            promotion.inbound@,
            outbound@,
        ) && t@
            == just(NextView::Finished),
        sent is Err ==> final(state)@ == without_pending_at(old(state)@, promotion.idx as int) && t@
            == close_all(seq![promotion.inbound@, outbound@]),
{
    remove_pending_at(state, promotion.idx);
    match sent {
        Ok(_) => {
            let ghost before = state@.pipes;
            state.pipes.push(Pipe { a: promotion.inbound, b: outbound });
            proof {
                assert(state@.pipes =~= before.push(
                    PipeView { a: promotion.inbound@, b: outbound@ },
                ));
            }
            no_effects(Next::Finished)
        },
        Err(_) => closing_two(promotion.inbound, outbound),
    }
}

/// Cuts what has arrived on the control connection at `idx` into lines. What
/// follows the last newline stays in its buffer.
pub fn handle_control_pending(
    state: &mut FrontdoorState,
    idx: usize,
    conn_id: String,
    buf: Vec<u8>,
) -> (t: Transition)
    requires
        idx < old(state).pending@.len(),
    ensures
        (final(state)@, t@) == after_control(old(state)@, idx as int, conn_id@, buf@),
{
    let ghost before = state@;
    let (lines, tail) = control_lines(buf.as_slice());
    state.pending[idx].buf = tail;
    proof {
        assert(state@.pending =~= after_control(before, idx as int, conn_id@, buf@).0.pending);
    }
    no_effects(Next::Parse { conn_id, lines })
}

/// Goes on once the lines of a control connection have been parsed: carries
/// them out, in order, and sends the answers, one for each line.
pub fn control_parsed(
    state: &mut FrontdoorState,
    conn_id: String,
    requests: Vec<ControlRequest>,
) -> (t: Transition)
    ensures
        final(state)@ == after_requests(old(state)@, views(requests@)).0,
        t@.effects == sends(conn_id@, after_requests(old(state)@, views(requests@)).1),
        t@.next == NextView::Finished,
{
    let mut effects: Vec<Effect> = Vec::new();
    let ghost all = views(requests@);
    let ghost start = state@;
    proof {
        assert(views(effects@) =~= sends(conn_id@, Seq::empty()));
    }
    for request in it: requests
        invariant
            it.seq() == requests@,
            all == views(requests@),
            start == old(state)@,
            state@ == after_requests(start, all.take(it.index() as int)).0,
            views(effects@) == sends(
                conn_id@,
                after_requests(start, all.take(it.index() as int)).1,
            ),
    {
        let ghost i = it.index() as int;
        let ghost before = effects@;
        proof {
            assert(all.take(i + 1).drop_last() =~= all.take(i));
            assert(all.take(i + 1).last() == request@);
        }
        let data = control_dispatch(state, request);
        effects.push(Effect::Send { conn_id: conn_id.clone(), data });
        proof {
            assert(views(effects@) =~= views(before).push(effects@.last()@));
            assert(views(effects@) =~= sends(conn_id@, after_requests(start, all.take(i + 1)).1));
        }
    }
    proof {
        assert(all.take(all.len() as int) =~= all);
    }
    Transition { effects, next: Next::Finished }
}

/// Closes a connection and the one that it is bridged to, and forgets the
/// pipe.
pub fn close_pipe(state: &mut FrontdoorState, conn_id: String) -> (t: Transition)
    ensures
        (final(state)@, t@) == torn_down(old(state)@, conn_id@),
{
    let peer = find_peer(state.pipes.as_slice(), conn_id.as_str());
    let mut i: usize = 0;
    proof {
        assert(state@.pipes.skip(0) =~= state@.pipes);
        assert(state@.pipes.take(0) + unjoined(state@.pipes, conn_id@) =~= unjoined(
            state@.pipes,
            conn_id@,
        ));
    }
    while i < state.pipes.len()
        invariant
            i <= state.pipes@.len(),
            state@ == (FrontdoorView { pipes: state@.pipes, ..old(state)@ }),
            unjoined(old(state)@.pipes, conn_id@) == state@.pipes.take(i as int) + unjoined(
                state@.pipes.skip(i as int),
                conn_id@,
            ),
        decreases state.pipes@.len() - i,
    {
        let ghost before = state@.pipes;
        proof {
            assert(before.skip(i as int)[0] == state.pipes@[i as int]@);
            assert(before.skip(i as int).drop_first() =~= before.skip(i + 1));
        }
        if str_eq(state.pipes[i].a.as_str(), conn_id.as_str()) || str_eq(
            state.pipes[i].b.as_str(),
            conn_id.as_str(),
        ) {
            let _ = state.pipes.remove(i);
            proof {
                assert(state@.pipes =~= before.remove(i as int));
                assert(state@.pipes.take(i as int) =~= before.take(i as int));
                assert(state@.pipes.skip(i as int) =~= before.skip(i + 1));
            }
        } else {
            proof {
                let more = unjoined(before.skip(i + 1), conn_id@);
                assert(before.take(i as int) + (seq![before[i as int]] + more) =~= before.take(
                    i + 1,
                ) + more);
            }
            i = i + 1;
        }
    }
    proof {
        assert(state@.pipes.take(i as int) + unjoined(state@.pipes.skip(i as int), conn_id@)
            =~= state@.pipes);
    }
    match peer {
        Some(p) => closing_two(conn_id, p),
        None => closing_one(conn_id),
    }
}

} // verus!
