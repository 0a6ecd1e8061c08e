//! What holds of the control channel as a whole.

use vstd::prelude::*;
use vstd::string::*;
use vstd::utf8::{encode_scalar, encode_utf8};

use crate::control::NEWLINE;
use crate::control::{
    after_command, after_request, deleted, error_text, lines_of, list_text, ok_text,
    route_text, routes_text, tail_of, upserted, CommandView, RequestView,
};
use crate::json::{json_text, law_json_has_no_control_character, law_json_shows_its_end};
use crate::seqs::{first_index, lemma_first_index, lemma_first_index_at};
use crate::state::{backend_for, hostnames, route_to, FrontdoorView, RouteView};
use crate::text::given;

verus! {

/// After a route has been set, its host leads to its backend, and every other
/// host leads where it led before.
pub proof fn law_upsert_sets_one_route(
    routes: Seq<RouteView>,
    hostname: Seq<char>,
    backend: Seq<char>,
    other: Seq<char>,
)
    ensures
        route_to(upserted(routes, hostname, backend), hostname) == Some(backend),
        other != hostname ==> route_to(upserted(routes, hostname, backend), other) == route_to(
            routes,
            other,
        ),
{
    let after = upserted(routes, hostname, backend);
    let names = hostnames(routes);
    lemma_first_index(names, hostname);
    lemma_first_index(names, other);
    match first_index(names, hostname) {
        Some(i) => {
            assert(hostnames(after) =~= names);
        },
        None => {
            assert(hostnames(after) =~= names.push(hostname));
            lemma_first_index_at(hostnames(after), hostname, names.len() as int);
            match first_index(names, other) {
                Some(k) => {
                    lemma_first_index_at(hostnames(after), other, k);
                },
                None => {
                    if other != hostname {
                        lemma_first_index_at(hostnames(after), other, hostnames(after).len() as int);
                    }
                },
            }
        },
    }
}

proof fn lemma_route_to_front(routes: Seq<RouteView>, hostname: Seq<char>)
    requires
        routes.len() > 0,
    ensures
        route_to(routes, hostname) == if routes[0].hostname == hostname {
            Some(routes[0].backend)
        } else {
            route_to(routes.drop_first(), hostname)
        },
{
    assert(hostnames(routes).drop_first() =~= hostnames(routes.drop_first()));
    lemma_first_index(hostnames(routes.drop_first()), hostname);
}

/// After a route has been deleted, its host has no route, and every other host
/// leads where it led before.
pub proof fn law_delete_removes_one_route(
    routes: Seq<RouteView>,
    hostname: Seq<char>,
    other: Seq<char>,
)
    ensures
        route_to(deleted(routes, hostname), hostname) is None,
        other != hostname ==> route_to(deleted(routes, hostname), other) == route_to(routes, other),
    decreases routes.len(),
{
    if routes.len() == 0 {
        assert(hostnames(deleted(routes, hostname)) =~= hostnames(routes));
    } else {
        let rest = deleted(routes.drop_first(), hostname);
        law_delete_removes_one_route(routes.drop_first(), hostname, other);
        lemma_route_to_front(routes, other);
        if routes[0].hostname != hostname {
            let after = seq![routes[0]] + rest;
            assert(after.drop_first() =~= rest);
            lemma_route_to_front(after, hostname);
            lemma_route_to_front(after, other);
        }
    }
}

/// Whether no host has two routes.
pub open spec fn one_route_each(routes: Seq<RouteView>) -> bool {
    hostnames(routes).no_duplicates()
}

/// Commands never give a host a second route.
pub proof fn law_hosts_keep_one_route(s: FrontdoorView, r: RequestView)
    requires
        one_route_each(s.routes),
    ensures
        one_route_each(after_request(s, r).0.routes),
{
    if let RequestView::Command(c) = r {
        if let Some(h) = given(c.hostname) {
            lemma_deleted(s.routes, h);
            if let Some(b) = given(c.backend) {
                let names = hostnames(s.routes);
                lemma_first_index(names, h);
                match first_index(names, h) {
                    Some(i) => {
                        assert(hostnames(upserted(s.routes, h, b)) =~= names);
                    },
                    None => {
                        assert(hostnames(upserted(s.routes, h, b)) =~= names.push(h));
                    },
                }
            }
        }
    }
}

proof fn lemma_deleted(routes: Seq<RouteView>, hostname: Seq<char>)
    ensures
        one_route_each(routes) ==> one_route_each(deleted(routes, hostname)),
        forall|x: Seq<char>| #[trigger]
            hostnames(deleted(routes, hostname)).contains(x) ==> hostnames(routes).contains(x),
    decreases routes.len(),
{
    let after = deleted(routes, hostname);
    if routes.len() > 0 {
        let names = hostnames(routes);
        let rest = routes.drop_first();
        lemma_deleted(rest, hostname);
        assert(hostnames(rest) =~= names.drop_first());
        assert forall|x: Seq<char>| hostnames(rest).contains(x) implies names.contains(x) by {
            let k = choose|k: int| 0 <= k < hostnames(rest).len() && hostnames(rest)[k] == x;
            assert(names[k + 1] == x);
        }
        if one_route_each(routes) {
            assert(one_route_each(rest));
        }
        if routes[0].hostname != hostname {
            assert(hostnames(after) =~= seq![routes[0].hostname] + hostnames(
                deleted(rest, hostname),
            ));
            let kept = hostnames(deleted(rest, hostname));
            assert(names[0] == routes[0].hostname);
            assert forall|x: Seq<char>| #[trigger] hostnames(after).contains(x) implies names.contains(
                x,
            ) by {
                let k = choose|k: int| 0 <= k < hostnames(after).len() && hostnames(after)[k] == x;
                if k > 0 {
                    assert(kept[k - 1] == x);
                    assert(kept.contains(x));
                }
            }
            if one_route_each(routes) {
                assert forall|i: int, j: int|
                    0 <= i < hostnames(after).len() && 0 <= j < hostnames(after).len() && i
                        != j implies hostnames(after)[i] != hostnames(after)[j] by {
                    let (lo, hi) = if i < j {
                        (i, j)
                    } else {
                        (j, i)
                    };
                    if lo == 0 {
                        assert(kept[hi - 1] == hostnames(after)[hi]);
                        assert(kept.contains(hostnames(after)[hi]));
                        assert(hostnames(rest).contains(hostnames(after)[hi]));
                        let k = choose|k: int|
                            0 <= k < hostnames(rest).len() && hostnames(rest)[k] == hostnames(
                                after,
                            )[hi];
                        assert(names[k + 1] != names[0]);
                    } else {
                        assert(kept[lo - 1] != kept[hi - 1]);
                    }
                }
            }
        }
    }
}

/// A line of the control channel changes nothing but the routes and the
/// default backend: connections that are pending or bridged stay as they are.
pub proof fn law_commands_leave_connections_alone(s: FrontdoorView, r: RequestView)
    ensures
        ({
            let after = after_request(s, r).0;
            &&& after.pending == s.pending
            &&& after.pipes == s.pipes
            &&& after.public_listener_id == s.public_listener_id
            &&& after.control_listener_id == s.control_listener_id
        }),
{
}

/// A line that is answered with anything but a bare success changes nothing.
pub proof fn law_refused_commands_change_nothing(s: FrontdoorView, r: RequestView)
    ensures
        after_request(s, r).1 != ok_text() ==> after_request(s, r).0 == s,
{
}

/// The answers to failures differ from the answers to successes: they say
/// `false` where those say `true`.
pub proof fn law_failures_say_so(msg: Seq<char>, s: FrontdoorView)
    ensures
        error_text(msg) != ok_text(),
        error_text(msg) != list_text(s),
{
    reveal_strlit("{\"ok\":false,\"error\":");
    reveal_strlit("{\"ok\":true}\n");
    reveal_strlit("{\"ok\":true,\"routes\":[");
    assert(error_text(msg)[6] == 'f');
    assert(ok_text()[6] == 't');
    assert(list_text(s)[6] == 't');
}

/// Routes in the answer to `list_routes`, each with a comma before it.
spec fn more_routes_text(routes: Seq<RouteView>) -> Seq<char>
    decreases routes.len(),
{
    if routes.len() == 0 {
        Seq::empty()
    } else {
        ","@ + route_text(routes[0]) + more_routes_text(routes.drop_first())
    }
}

proof fn lemma_more_routes_push(routes: Seq<RouteView>, r: RouteView)
    ensures
        more_routes_text(routes.push(r)) == more_routes_text(routes) + ","@ + route_text(r),
    decreases routes.len(),
{
    let all = routes.push(r);
    if routes.len() == 0 {
        assert(all.drop_first() =~= routes);
        assert(more_routes_text(all) =~= more_routes_text(routes) + ","@ + route_text(r));
    } else {
        assert(all.drop_first() =~= routes.drop_first().push(r));
        lemma_more_routes_push(routes.drop_first(), r);
        assert(more_routes_text(all) =~= more_routes_text(routes) + ","@ + route_text(r));
    }
}

proof fn lemma_routes_text_front(routes: Seq<RouteView>)
    requires
        routes.len() > 0,
    ensures
        routes_text(routes) == route_text(routes[0]) + more_routes_text(routes.drop_first()),
    decreases routes.len(),
{
    if routes.len() == 1 {
        assert(route_text(routes[0]) + more_routes_text(routes.drop_first()) =~= route_text(
            routes[0],
        ));
    } else {
        let before = routes.drop_last();
        lemma_routes_text_front(before);
        assert(routes.drop_first() =~= before.drop_first().push(routes.last()));
        lemma_more_routes_push(before.drop_first(), routes.last());
        assert(routes_text(routes) =~= route_text(routes[0]) + more_routes_text(
            routes.drop_first(),
        ));
    }
}

proof fn lemma_strip(head: Seq<char>, x: Seq<char>, y: Seq<char>)
    requires
        head + x == head + y,
    ensures
        x == y,
{
    assert(x =~= (head + x).skip(head.len() as int));
    assert(y =~= (head + y).skip(head.len() as int));
}

proof fn lemma_route_shows_its_end(r: RouteView, q: RouteView, x: Seq<char>, y: Seq<char>)
    requires
        route_text(r) + x == route_text(q) + y,
    ensures
        r == q,
        x == y,
{
    let x2 = "}"@ + x;
    let y2 = "}"@ + y;
    let x1 = ",\"backend\":"@ + (json_text(r.backend) + x2);
    let y1 = ",\"backend\":"@ + (json_text(q.backend) + y2);
    assert(route_text(r) + x =~= "{\"hostname\":"@ + (json_text(r.hostname) + x1));
    assert(route_text(q) + y =~= "{\"hostname\":"@ + (json_text(q.hostname) + y1));
    lemma_strip("{\"hostname\":"@, json_text(r.hostname) + x1, json_text(q.hostname) + y1);
    law_json_shows_its_end(r.hostname, q.hostname, x1, y1);
    lemma_strip(",\"backend\":"@, json_text(r.backend) + x2, json_text(q.backend) + y2);
    law_json_shows_its_end(r.backend, q.backend, x2, y2);
    lemma_strip("}"@, x, y);
}

proof fn lemma_more_routes_show_their_end(
    a: Seq<RouteView>,
    b: Seq<RouteView>,
    x: Seq<char>,
    y: Seq<char>,
)
    requires
        more_routes_text(a) + x == more_routes_text(b) + y,
        x.len() > 0 && x[0] == ']',
        y.len() > 0 && y[0] == ']',
    ensures
        a == b,
        x == y,
    decreases a.len(),
{
    reveal_strlit(",");
    let s = more_routes_text(a) + x;
    let t = more_routes_text(b) + y;
    if a.len() > 0 && b.len() > 0 {
        let x1 = more_routes_text(a.drop_first()) + x;
        let y1 = more_routes_text(b.drop_first()) + y;
        assert(s =~= ","@ + (route_text(a[0]) + x1));
        assert(t =~= ","@ + (route_text(b[0]) + y1));
        lemma_strip(","@, route_text(a[0]) + x1, route_text(b[0]) + y1);
        lemma_route_shows_its_end(a[0], b[0], x1, y1);
        lemma_more_routes_show_their_end(a.drop_first(), b.drop_first(), x, y);
        assert(a =~= seq![a[0]] + a.drop_first());
        assert(b =~= seq![b[0]] + b.drop_first());
    } else if a.len() > 0 {
        assert(s[0] == ',');
        assert(t[0] == ']');
    } else if b.len() > 0 {
        assert(t[0] == ',');
        assert(s[0] == ']');
    } else {
        assert(a =~= b);
        assert(s =~= x);
        assert(t =~= y);
    }
}

/// The answer to `list_routes` tells everything: two states that it describes
/// alike have the same routes, in the same order, and the same default backend.
pub proof fn law_list_tells_everything(s: FrontdoorView, t: FrontdoorView)
    requires
        list_text(s) == list_text(t),
    ensures
        s.routes == t.routes,
        s.default_backend == t.default_backend,
{
    reveal_strlit("],\"default_backend\":");
    reveal_strlit("null");
    reveal_strlit("{\"hostname\":");
    let head = "{\"ok\":true,\"routes\":["@;
    let key = "],\"default_backend\":"@;
    let value_s = if s.default_backend.len() == 0 {
        "null"@
    } else {
        json_text(s.default_backend)
    };
    let value_t = if t.default_backend.len() == 0 {
        "null"@
    } else {
        json_text(t.default_backend)
    };
    let x = key + (value_s + "}\n"@);
    let y = key + (value_t + "}\n"@);
    assert(list_text(s) =~= head + (routes_text(s.routes) + x));
    assert(list_text(t) =~= head + (routes_text(t.routes) + y));
    lemma_strip(head, routes_text(s.routes) + x, routes_text(t.routes) + y);
    if s.routes.len() > 0 && t.routes.len() > 0 {
        let a = more_routes_text(s.routes.drop_first());
        let b = more_routes_text(t.routes.drop_first());
        lemma_routes_text_front(s.routes);
        lemma_routes_text_front(t.routes);
        assert(routes_text(s.routes) + x =~= route_text(s.routes[0]) + (a + x));
        assert(routes_text(t.routes) + y =~= route_text(t.routes[0]) + (b + y));
        lemma_route_shows_its_end(s.routes[0], t.routes[0], a + x, b + y);
        lemma_more_routes_show_their_end(s.routes.drop_first(), t.routes.drop_first(), x, y);
        assert(s.routes =~= seq![s.routes[0]] + s.routes.drop_first());
        assert(t.routes =~= seq![t.routes[0]] + t.routes.drop_first());
    } else if s.routes.len() > 0 {
        lemma_routes_text_front(s.routes);
        assert((routes_text(s.routes) + x)[0] == '{');
        assert((routes_text(t.routes) + y)[0] == ']');
    } else if t.routes.len() > 0 {
        lemma_routes_text_front(t.routes);
        assert((routes_text(t.routes) + y)[0] == '{');
        assert((routes_text(s.routes) + x)[0] == ']');
    } else {
        assert(s.routes =~= t.routes);
        assert(routes_text(s.routes) + x =~= x);
        assert(routes_text(t.routes) + y =~= y);
    }
    lemma_strip(key, value_s + "}\n"@, value_t + "}\n"@);
    if s.default_backend.len() > 0 && t.default_backend.len() > 0 {
        law_json_shows_its_end(s.default_backend, t.default_backend, "}\n"@, "}\n"@);
    } else {
        assert(value_s[0] == (value_s + "}\n"@)[0]);
        assert(value_t[0] == (value_t + "}\n"@)[0]);
        assert(s.default_backend =~= t.default_backend);
    }
}

/// Once the default backend is set, it is where every host without a route
/// goes; once it is set to nothing, such a host goes nowhere.
pub proof fn law_default_catches_the_rest(s: FrontdoorView, c: CommandView, hostname: Seq<char>)
    requires
        c.op == "set_default"@,
        route_to(s.routes, hostname) is None,
    ensures
        backend_for(after_command(s, c).0, hostname) == given(c.backend),
        after_command(s, c).1 == ok_text(),
{
    reveal_strlit("set_default");
    reveal_strlit("upsert_route");
    reveal_strlit("delete_route");
    assert("set_default"@.len() != "upsert_route"@.len());
    assert("set_default"@.len() != "delete_route"@.len());
}

proof fn lemma_first_newline(a: Seq<u8>, b: Seq<u8>)
    ensures
        first_index(a, NEWLINE) is Some ==> first_index(a + b, NEWLINE) == first_index(a, NEWLINE),
{
    lemma_first_index(a, NEWLINE);
    if let Some(n) = first_index(a, NEWLINE) {
        assert forall|j: int| 0 <= j < n implies (a + b)[j] != NEWLINE by {
            assert(a[j] != NEWLINE);
        }
        lemma_first_index_at(a + b, NEWLINE, n);
    }
}

/// Where the chunks of a stream end does not matter: the lines of two chunks
/// are the lines of the first, and then those of what it left over followed by
/// the second.
pub proof fn law_chunks_do_not_matter(a: Seq<u8>, b: Seq<u8>)
    ensures
        lines_of(a + b) == lines_of(a) + lines_of(tail_of(a) + b),
        tail_of(a + b) == tail_of(tail_of(a) + b),
    decreases a.len(),
{
    lemma_first_index(a, NEWLINE);
    lemma_first_newline(a, b);
    match first_index(a, NEWLINE) {
        Some(n) => {
            let rest = a.skip(n + 1);
            assert((a + b).take(n) =~= a.take(n));
            assert((a + b).skip(n + 1) =~= rest + b);
            law_chunks_do_not_matter(rest, b);
            assert(lines_of(a + b) =~= lines_of(a) + lines_of(tail_of(a) + b));
        },
        None => {
            assert(lines_of(a + b) =~= lines_of(a) + lines_of(tail_of(a) + b));
        },
    }
}

/// What is left over holds no newline, and the lines hold none either.
pub proof fn law_lines_hold_no_newline(buf: Seq<u8>)
    ensures
        !tail_of(buf).contains(NEWLINE),
        forall|i: int| 0 <= i < lines_of(buf).len() ==> !(#[trigger] lines_of(buf)[i]).contains(NEWLINE),
    decreases buf.len(),
{
    lemma_first_index(buf, NEWLINE);
    if let Some(n) = first_index(buf, NEWLINE) {
        law_lines_hold_no_newline(buf.skip(n + 1));
        let more = lines_of(buf.skip(n + 1));
        assert forall|i: int| 0 <= i < lines_of(buf).len() implies !(#[trigger] lines_of(
            buf,
        )[i]).contains(NEWLINE) by {
            if i == 0 {
                assert(lines_of(buf)[0] == buf.take(n));
            } else {
                assert(lines_of(buf)[i] == more[i - 1]);
            }
        }
    }
}

/// The bytes that lines and a rest were cut from: each line is followed by a
/// newline.
pub open spec fn joined(lines: Seq<Seq<u8>>, tail: Seq<u8>) -> Seq<u8>
    decreases lines.len(),
{
    if lines.len() == 0 {
        tail
    } else {
        lines[0] + seq![NEWLINE] + joined(lines.drop_first(), tail)
    }
}

/// No byte is lost: the lines and what is left over make up the stream again.
pub proof fn law_lines_make_up_the_stream(buf: Seq<u8>)
    ensures
        joined(lines_of(buf), tail_of(buf)) == buf,
    decreases buf.len(),
{
    lemma_first_index(buf, NEWLINE);
    if let Some(n) = first_index(buf, NEWLINE) {
        law_lines_make_up_the_stream(buf.skip(n + 1));
        assert(lines_of(buf).drop_first() =~= lines_of(buf.skip(n + 1)));
        assert(buf.take(n) + seq![NEWLINE] + buf.skip(n + 1) =~= buf);
    }
}

/// Whether `t` is one line, newline included.
pub open spec fn is_one_line(t: Seq<char>) -> bool {
    &&& t.len() > 0
    &&& t.last() == '\n'
    &&& no_newline(t.drop_last())
}

/// Whether there is no newline in `t`.
pub open spec fn no_newline(t: Seq<char>) -> bool {
    forall|i: int| 0 <= i < t.len() ==> t[i] != '\n'
}

proof fn lemma_routes_have_no_newline(routes: Seq<RouteView>)
    ensures
        no_newline(routes_text(routes)),
    decreases routes.len(),
{
    if routes.len() > 0 {
        let last = routes.last();
        law_json_has_no_control_character(last.hostname);
        law_json_has_no_control_character(last.backend);
        reveal_strlit("{\"hostname\":");
        reveal_strlit(",\"backend\":");
        reveal_strlit("}");
        reveal_strlit(",");
        assert(no_newline(route_text(last)));
        lemma_routes_have_no_newline(routes.drop_last());
    }
}

proof fn lemma_answer_is_one_line(s: FrontdoorView, r: RequestView)
    ensures
        is_one_line(after_request(s, r).1),
{
    reveal_strlit("}\n");
    reveal_strlit("{\"ok\":true}\n");
    assert(is_one_line(ok_text()));
    assert forall|msg: Seq<char>| is_one_line(#[trigger] error_text(msg)) by {
        reveal_strlit("{\"ok\":false,\"error\":");
        reveal_strlit("}\n");
        law_json_has_no_control_character(msg);
    }
    assert(is_one_line(list_text(s))) by {
        reveal_strlit("{\"ok\":true,\"routes\":[");
        reveal_strlit("],\"default_backend\":");
        reveal_strlit("null");
        reveal_strlit("}\n");
        law_json_has_no_control_character(s.default_backend);
        lemma_routes_have_no_newline(s.routes);
    }
}

proof fn lemma_encode_concat(a: Seq<char>, b: Seq<char>)
    ensures
        encode_utf8(a + b) == encode_utf8(a) + encode_utf8(b),
    decreases a.len(),
{
    if a.len() == 0 {
        assert(a + b =~= b);
        assert(encode_utf8(a + b) =~= encode_utf8(a) + encode_utf8(b));
    } else {
        assert((a + b).drop_first() =~= a.drop_first() + b);
        lemma_encode_concat(a.drop_first(), b);
        assert(encode_utf8(a + b) =~= encode_utf8(a) + encode_utf8(b));
    }
}

proof fn lemma_scalar_newline(c: char)
    ensures
        c == '\n' ==> encode_scalar(c as u32) == seq![NEWLINE],
        c != '\n' ==> !encode_scalar(c as u32).contains(NEWLINE),
{
    let u = c as u32;
    assert(u <= 0x7f ==> (u & 0x7f) == u) by (bit_vector);
    assert((0xC0u8 | ((u >> 6) & 0x1F) as u8) >= 0x80) by (bit_vector);
    assert((0xE0u8 | ((u >> 12) & 0x0F) as u8) >= 0x80) by (bit_vector);
    assert((0xF0u8 | ((u >> 18) & 0x7) as u8) >= 0x80) by (bit_vector);
    assert((0x80u8 | (u & 0x3F) as u8) >= 0x80) by (bit_vector);
    assert((0x80u8 | ((u >> 6) & 0x3F) as u8) >= 0x80) by (bit_vector);
    assert((0x80u8 | ((u >> 12) & 0x3F) as u8) >= 0x80) by (bit_vector);
    let bytes = encode_scalar(u);
    if c == '\n' {
        assert(bytes =~= seq![NEWLINE]);
    } else {
        assert forall|i: int| 0 <= i < bytes.len() implies bytes[i] != NEWLINE by {}
    }
}

proof fn lemma_no_newline_bytes(t: Seq<char>)
    requires
        no_newline(t),
    ensures
        forall|i: int| 0 <= i < encode_utf8(t).len() ==> encode_utf8(t)[i] != NEWLINE,
    decreases t.len(),
{
    if t.len() > 0 {
        lemma_scalar_newline(t[0]);
        lemma_no_newline_bytes(t.drop_first());
        let front = encode_scalar(t[0] as u32);
        let rest = encode_utf8(t.drop_first());
        assert forall|i: int| 0 <= i < encode_utf8(t).len() implies encode_utf8(t)[i] != NEWLINE by {
            if i < front.len() {
                assert(encode_utf8(t)[i] == front[i]);
                assert(front.contains(front[i]));
            } else {
                assert(encode_utf8(t)[i] == rest[i - front.len()]);
            }
        }
    }
}

/// Every answer is one line on the wire: it ends with a newline, and that is
/// its only one.
pub proof fn law_each_answer_is_one_line(s: FrontdoorView, r: RequestView)
    ensures
        ({
            let answer = encode_utf8(after_request(s, r).1);
            &&& lines_of(answer) == seq![answer.drop_last()]
            &&& tail_of(answer) == Seq::<u8>::empty()
        }),
{
    let t = after_request(s, r).1;
    lemma_answer_is_one_line(s, r);
    let front = t.drop_last();
    assert(t =~= front + seq!['\n']);
    lemma_encode_concat(front, seq!['\n']);
    lemma_no_newline_bytes(front);
    lemma_scalar_newline('\n');
    assert(seq!['\n'].drop_first() =~= Seq::<char>::empty());
    reveal_with_fuel(encode_utf8, 2);
    assert(encode_utf8(seq!['\n']) =~= seq![NEWLINE]);
    let bytes = encode_utf8(t);
    let n = bytes.len() - 1;
    assert(bytes =~= encode_utf8(front) + seq![NEWLINE]);
    lemma_first_index_at(bytes, NEWLINE, n);
    assert(bytes.skip(n + 1) =~= Seq::<u8>::empty());
    assert(bytes.take(n) =~= bytes.drop_last());
    assert(lines_of(bytes.skip(n + 1)) =~= Seq::<Seq<u8>>::empty());
    assert(lines_of(bytes) =~= seq![bytes.drop_last()]);
    assert(tail_of(bytes.skip(n + 1)) =~= Seq::<u8>::empty());
    assert(tail_of(bytes) =~= Seq::<u8>::empty());
}

} // verus!
