//! The control channel: lines of JSON commands that change the routes.
//!
//! The bytes of the channel are cut into lines here. Each line that holds text
//! is then parsed as JSON by the caller, and the outcome is carried out and
//! answered here.

use vstd::prelude::*;
use vstd::slice::{slice_subrange, slice_to_vec};
use vstd::string::*;
use vstd::utf8::{decode_utf8, encode_utf8, valid_utf8};

use crate::json::json_str;
use crate::json::json_text;
use crate::seqs::{first_index, lemma_first_index_at, views};
use crate::state::{find_route, FrontdoorState, Route};
use crate::state::{hostnames, FrontdoorView, RouteView};
use crate::text::{give, str_eq, str_from_utf8, trim};
use crate::text::{given, opt_view, trimmed};

verus! {

/// A command, as its JSON gives it. `hostname` and `backend` may be missing.
#[derive(Clone, Debug, PartialEq, Eq)]
pub struct ControlCommand {
    pub op: String,
    pub hostname: Option<String>,
    pub backend: Option<String>,
}

/// What a line of the control channel holds.
#[derive(Clone, Debug, PartialEq, Eq)]
pub enum ControlLine {
    /// The line is not valid UTF-8.
    InvalidUtf8,
    /// The line is blank.
    Empty,
    /// The line holds this text, without the white space around it. It is to
    /// be parsed as a command.
    Text(String),
}

/// A line of the control channel once its text has been parsed.
#[derive(Clone, Debug, PartialEq, Eq)]
pub enum ControlRequest {
    /// The line is not valid UTF-8.
    InvalidUtf8,
    /// The line is blank.
    Empty,
    /// The text is no command, for the reason given.
    Unparsable(String),
    /// The text is this command.
    Command(ControlCommand),
}

/// The view of a `ControlCommand`.
pub struct CommandView {
    pub op: Seq<char>,
    pub hostname: Option<Seq<char>>,
    pub backend: Option<Seq<char>>,
}

/// The view of a `ControlLine`.
pub enum LineView {
    InvalidUtf8,
    Empty,
    Text(Seq<char>),
}

/// The view of a `ControlRequest`.
pub enum RequestView {
    InvalidUtf8,
    Empty,
    Unparsable(Seq<char>),
    Command(CommandView),
}

impl View for ControlCommand {
    type V = CommandView;

    open spec fn view(&self) -> CommandView {
        CommandView {
            op: self.op@,
            hostname: opt_view(self.hostname),
            backend: opt_view(self.backend),
        }
    }
}

impl View for ControlLine {
    type V = LineView;

    open spec fn view(&self) -> LineView {
        match self {
            ControlLine::InvalidUtf8 => LineView::InvalidUtf8,
            ControlLine::Empty => LineView::Empty,
            ControlLine::Text(t) => LineView::Text(t@),
        }
    }
}

impl View for ControlRequest {
    type V = RequestView;

    open spec fn view(&self) -> RequestView {
        match self {
            ControlRequest::InvalidUtf8 => RequestView::InvalidUtf8,
            ControlRequest::Empty => RequestView::Empty,
            ControlRequest::Unparsable(e) => RequestView::Unparsable(e@),
            ControlRequest::Command(c) => RequestView::Command(c@),
        }
    }
}

/// The byte that ends a line.
pub const NEWLINE: u8 = 0x0a;

/// The complete lines of `buf`, without the newlines that end them.
pub open spec fn lines_of(buf: Seq<u8>) -> Seq<Seq<u8>>
    decreases buf.len(),
{
    match first_index(buf, NEWLINE) {
        None => Seq::empty(),
        Some(n) => if 0 <= n < buf.len() {
            seq![buf.take(n)] + lines_of(buf.skip(n + 1))
        } else {
            Seq::empty()
        },
    }
}

/// What follows the last newline of `buf`.
pub open spec fn tail_of(buf: Seq<u8>) -> Seq<u8>
    decreases buf.len(),
{
    match first_index(buf, NEWLINE) {
        None => buf,
        Some(n) => if 0 <= n < buf.len() {
            tail_of(buf.skip(n + 1))
        } else {
            buf
        },
    }
}

/// What the bytes of a line hold.
pub open spec fn line_content(line: Seq<u8>) -> LineView {
    if !valid_utf8(line) {
        LineView::InvalidUtf8
    } else if trimmed(decode_utf8(line)).len() == 0 {
        LineView::Empty
    } else {
        LineView::Text(trimmed(decode_utf8(line)))
    }
}

/// What the complete lines of `buf` hold.
pub open spec fn line_contents(buf: Seq<u8>) -> Seq<LineView> {
    Seq::new(lines_of(buf).len(), |i: int| line_content(lines_of(buf)[i]))
}

/// `routes` with the route for `hostname` leading to `backend`. A route that
/// is there keeps its place; a new one comes last.
pub open spec fn upserted(
    routes: Seq<RouteView>,
    hostname: Seq<char>,
    backend: Seq<char>,
) -> Seq<RouteView> {
    match first_index(hostnames(routes), hostname) {
        Some(i) => routes.update(i, RouteView { hostname, backend }),
        None => routes.push(RouteView { hostname, backend }),
    }
}

/// `routes` without the routes for `hostname`.
pub open spec fn deleted(routes: Seq<RouteView>, hostname: Seq<char>) -> Seq<RouteView>
    decreases routes.len(),
{
    if routes.len() == 0 {
        Seq::empty()
    } else if routes[0].hostname == hostname {
        deleted(routes.drop_first(), hostname)
    } else {
        seq![routes[0]] + deleted(routes.drop_first(), hostname)
    }
}

/// The answer to a command that succeeded and has nothing to tell.
pub open spec fn ok_text() -> Seq<char> {
    "{\"ok\":true}\n"@
}

/// The answer to a line that failed.
pub open spec fn error_text(msg: Seq<char>) -> Seq<char> {
    "{\"ok\":false,\"error\":"@ + json_text(msg) + "}\n"@
}

/// A route in the answer to `list_routes`.
pub open spec fn route_text(r: RouteView) -> Seq<char> {
    "{\"hostname\":"@ + json_text(r.hostname) + ",\"backend\":"@ + json_text(r.backend) + "}"@
}

/// Routes in the answer to `list_routes`, with commas between them.
pub open spec fn routes_text(routes: Seq<RouteView>) -> Seq<char>
    decreases routes.len(),
{
    if routes.len() == 0 {
        Seq::empty()
    } else if routes.len() == 1 {
        route_text(routes[0])
    } else {
        routes_text(routes.drop_last()) + ","@ + route_text(routes.last())
    }
}

/// The answer to `list_routes`.
pub open spec fn list_text(s: FrontdoorView) -> Seq<char> {
    "{\"ok\":true,\"routes\":["@ + routes_text(s.routes) + "],\"default_backend\":"@ + (
    if s.default_backend.len() == 0 {
        "null"@
    } else {
        json_text(s.default_backend)
    }) + "}\n"@
}

/// The state after a command, and the answer to it.
pub open spec fn after_command(s: FrontdoorView, c: CommandView) -> (FrontdoorView, Seq<char>) {
    if c.op == "upsert_route"@ {
        match (given(c.hostname), given(c.backend)) {
            (None, _) => (s, error_text("upsert_route requires hostname"@)),
            (Some(_), None) => (s, error_text("upsert_route requires backend"@)),
            (Some(h), Some(b)) => (
                FrontdoorView { routes: upserted(s.routes, h, b), ..s },
                ok_text(),
            ),
        }
    } else if c.op == "delete_route"@ {
        match given(c.hostname) {
            None => (s, error_text("delete_route requires hostname"@)),
            Some(h) => (FrontdoorView { routes: deleted(s.routes, h), ..s }, ok_text()),
        }
    } else if c.op == "set_default"@ {
        let backend = match c.backend {
            Some(b) => b,
            None => Seq::empty(),
        };
        (FrontdoorView { default_backend: backend, ..s }, ok_text())
    } else if c.op == "list_routes"@ {
        (s, list_text(s))
    } else {
        (s, error_text("unknown op: "@ + c.op))
    }
}

/// The state after a line, and the answer to it.
pub open spec fn after_request(s: FrontdoorView, r: RequestView) -> (FrontdoorView, Seq<char>) {
    match r {
        RequestView::InvalidUtf8 => (s, error_text("invalid utf-8"@)),
        RequestView::Empty => (s, error_text("empty line"@)),
        RequestView::Unparsable(e) => (s, error_text("parse: "@ + e)),
        RequestView::Command(c) => after_command(s, c),
    }
}

/// The position of the first newline.
pub fn memchr_nl(buf: &[u8]) -> (r: Option<usize>)
    ensures
        r is Some <==> first_index(buf@, NEWLINE) is Some,
        r matches Some(n) ==> first_index(buf@, NEWLINE) == Some(n as int) && n < buf@.len(),
{
    let mut i: usize = 0;
    while i < buf.len()
        invariant
            i <= buf@.len(),
            forall|j: int| 0 <= j < i ==> buf@[j] != NEWLINE,
        decreases buf@.len() - i,
    {
        if buf[i] == NEWLINE {
            proof {
                lemma_first_index_at(buf@, NEWLINE, i as int);
            }
            return Some(i);
        }
        i = i + 1;
    }
    proof {
        lemma_first_index_at(buf@, NEWLINE, i as int);
    }
    None
}

/// Reads one line: it must be UTF-8, and white space around it does not count.
pub fn control_line(line: &[u8]) -> (r: ControlLine)
    ensures
        r@ == line_content(line@),
{
    match str_from_utf8(line) {
        None => ControlLine::InvalidUtf8,
        Some(s) => {
            let text = trim(s);
            if text.as_str().is_empty() {
                ControlLine::Empty
            } else {
                ControlLine::Text(text)
            }
        },
    }
}

/// Cuts `buf` into its complete lines and the part of a line that follows
/// them.
pub fn control_lines(buf: &[u8]) -> (r: (Vec<ControlLine>, Vec<u8>))
    ensures
        views(r.0@) == line_contents(buf@),
        r.1@ == tail_of(buf@),
{
    let mut lines: Vec<ControlLine> = Vec::new();
    let mut consumed: usize = 0;
    let ghost done: Seq<Seq<u8>> = Seq::empty();
    proof {
        assert(buf@.skip(0) =~= buf@);
        assert(Seq::<Seq<u8>>::empty() + lines_of(buf@) =~= lines_of(buf@));
    }
    loop
        invariant
            consumed <= buf@.len(),
            lines_of(buf@) == done + lines_of(buf@.skip(consumed as int)),
            tail_of(buf@) == tail_of(buf@.skip(consumed as int)),
            lines@.len() == done.len(),
            forall|i: int| 0 <= i < done.len() ==> (#[trigger] lines@[i])@ == line_content(done[i]),
        ensures
            consumed <= buf@.len(),
            lines_of(buf@) == done,
            tail_of(buf@) == buf@.skip(consumed as int),
            lines@.len() == done.len(),
            forall|i: int| 0 <= i < done.len() ==> (#[trigger] lines@[i])@ == line_content(done[i]),
        decreases buf@.len() - consumed,
    {
        let rest = slice_subrange(buf, consumed, buf.len());
        assert(rest@ =~= buf@.skip(consumed as int));
        match memchr_nl(rest) {
            None => {
                proof {
                    assert(done + Seq::<Seq<u8>>::empty() =~= done);
                }
                break;
            },
            Some(nl) => {
                let line = slice_subrange(rest, 0, nl);
                lines.push(control_line(line));
                proof {
                    assert(line@ =~= rest@.take(nl as int));
                    assert(rest@.skip(nl + 1) =~= buf@.skip(consumed + nl + 1));
                    let more = lines_of(rest@.skip(nl + 1));
                    assert(done + (seq![line@] + more) =~= done.push(line@) + more);
                    done = done.push(line@);
                }
                consumed = consumed + nl + 1;
            },
        }
    }
    let tail = slice_to_vec(slice_subrange(buf, consumed, buf.len()));
    proof {
        assert(tail@ =~= buf@.skip(consumed as int));
        assert(views(lines@) =~= line_contents(buf@));
    }
    (lines, tail)
}

/// The bytes of a text.
fn bytes_of(s: &str) -> (r: Vec<u8>)
    ensures
        r@ == encode_utf8(s@),
{
    slice_to_vec(s.as_bytes())
}

/// The answer to a command that succeeded and has nothing to tell.
pub fn ok_response() -> (r: Vec<u8>)
    ensures
        r@ == encode_utf8(ok_text()),
{
    bytes_of("{\"ok\":true}\n")
}

/// The answer to a line that failed, with the reason.
pub fn error_response(msg: &str) -> (r: Vec<u8>)
    ensures
        r@ == encode_utf8(error_text(msg@)),
{
    let mut out = "{\"ok\":false,\"error\":".to_owned();
    out.append(json_str(msg).as_str());
    out.append("}\n");
    bytes_of(out.as_str())
}

/// The answer to `list_routes`: every route, in order, and the default
/// backend.
fn list_response(state: &FrontdoorState) -> (r: Vec<u8>)
    ensures
        r@ == encode_utf8(list_text(state@)),
{
    let mut out = "{\"ok\":true,\"routes\":[".to_owned();
    let mut i: usize = 0;
    let ghost head = out@;
    let ghost routes = state@.routes;
    proof {
        assert(head + routes_text(routes.take(0)) =~= head);
    }
    while i < state.routes.len()
        invariant
            i <= state.routes@.len(),
            routes == state@.routes,
            out@ == head + routes_text(routes.take(i as int)),
        decreases state.routes@.len() - i,
    {
        let ghost before = out@;
        let r = &state.routes[i];
        if i > 0 {
            out.append(",");
        }
        out.append("{\"hostname\":");
        out.append(json_str(r.hostname.as_str()).as_str());
        out.append(",\"backend\":");
        out.append(json_str(r.backend.as_str()).as_str());
        out.append("}");
        proof {
            let next = routes.take(i + 1);
            assert(next.last() == r@);
            assert(next.drop_last() =~= routes.take(i as int));
            if i == 0 {
                assert(out@ =~= before + route_text(r@));
                assert(out@ =~= head + routes_text(next));
            } else {
                assert(out@ =~= before + ","@ + route_text(r@));
                assert(out@ =~= head + routes_text(next));
            }
        }
        i = i + 1;
    }
    proof {
        assert(routes.take(routes.len() as int) =~= routes);
    }
    out.append("],\"default_backend\":");
    if state.default_backend.as_str().is_empty() {
        out.append("null");
    } else {
        out.append(json_str(state.default_backend.as_str()).as_str());
    }
    out.append("}\n");
    bytes_of(out.as_str())
}

/// Points the route for `hostname` to `backend`.
fn upsert_route(state: &mut FrontdoorState, hostname: String, backend: String)
    ensures
        final(state)@ == (FrontdoorView {
            routes: upserted(old(state)@.routes, hostname@, backend@),
            ..old(state)@
        }),
{
    let ghost before = state@.routes;
    match find_route(state.routes.as_slice(), hostname.as_str()) {
        Some(i) => {
            state.routes[i].backend = backend;
            proof {
                assert(state@.routes =~= before.update(
                    i as int,
                    RouteView { hostname: hostname@, backend: backend@ },
                ));
            }
        },
        None => {
            state.routes.push(Route { hostname, backend });
            proof {
                assert(state@.routes =~= before.push(
                    RouteView { hostname: hostname@, backend: backend@ },
                ));
            }
        },
    }
}

/// Removes the routes for `hostname`.
fn delete_route(state: &mut FrontdoorState, hostname: &str)
    ensures
        final(state)@ == (FrontdoorView {
            routes: deleted(old(state)@.routes, hostname@),
            ..old(state)@
        }),
{
    let mut i: usize = 0;
    proof {
        assert(state@.routes.skip(0) =~= state@.routes);
        assert(state@.routes.take(0) + deleted(state@.routes, hostname@) =~= deleted(
            state@.routes,
            hostname@,
        ));
    }
    while i < state.routes.len()
        invariant
            i <= state.routes@.len(),
            state@ == (FrontdoorView { routes: state@.routes, ..old(state)@ }),
            deleted(old(state)@.routes, hostname@) == state@.routes.take(i as int) + deleted(
                state@.routes.skip(i as int),
                hostname@,
            ),
        decreases state.routes@.len() - i,
    {
        let ghost before = state@.routes;
        proof {
            assert(before.skip(i as int)[0] == state.routes@[i as int]@);
            assert(before.skip(i as int).drop_first() =~= before.skip(i + 1));
        }
        if str_eq(state.routes[i].hostname.as_str(), hostname) {
            let _ = state.routes.remove(i);
            proof {
                assert(state@.routes =~= before.remove(i as int));
                assert(state@.routes.take(i as int) =~= before.take(i as int));
                assert(state@.routes.skip(i as int) =~= before.skip(i + 1));
            }
        } else {
            proof {
                let more = deleted(before.skip(i + 1), hostname@);
                assert(before.take(i as int) + (seq![before[i as int]] + more) =~= before.take(
                    i + 1,
                ) + more);
            }
            i = i + 1;
        }
    }
    proof {
        assert(state@.routes.take(i as int) + deleted(state@.routes.skip(i as int), hostname@)
            =~= state@.routes);
    }
}

/// Carries out one line of the control channel and gives the answer to it.
pub fn control_dispatch(state: &mut FrontdoorState, request: ControlRequest) -> (r: Vec<u8>)
    ensures
        final(state)@ == after_request(old(state)@, request@).0,
        r@ == encode_utf8(after_request(old(state)@, request@).1),
{
    let cmd = match request {
        ControlRequest::InvalidUtf8 => return error_response("invalid utf-8"),
        ControlRequest::Empty => return error_response("empty line"),
        ControlRequest::Unparsable(e) => {
            let mut msg = "parse: ".to_owned();
            msg.append(e.as_str());
            return error_response(msg.as_str());
        },
        ControlRequest::Command(c) => c,
    };
    if str_eq(cmd.op.as_str(), "upsert_route") {
        let h = match give(cmd.hostname) {
            Some(s) => s,
            None => return error_response("upsert_route requires hostname"),
        };
        let b = match give(cmd.backend) {
            Some(s) => s,
            None => return error_response("upsert_route requires backend"),
        };
        upsert_route(state, h, b);
        ok_response()
    } else if str_eq(cmd.op.as_str(), "delete_route") {
        let h = match give(cmd.hostname) {
            Some(s) => s,
            None => return error_response("delete_route requires hostname"),
        };
        delete_route(state, h.as_str());
        ok_response()
    } else if str_eq(cmd.op.as_str(), "set_default") {
        state.default_backend = match cmd.backend {
            Some(b) => b,
            None => String::new(),
        };
        ok_response()
    } else if str_eq(cmd.op.as_str(), "list_routes") {
        list_response(state)
    } else {
        let mut msg = "unknown op: ".to_owned();
        msg.append(cmd.op.as_str());
        error_response(msg.as_str())
    }
}

} // verus!
