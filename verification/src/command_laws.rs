//! What commands do and what they are answered. Each law speaks of calls: of
//! their arguments, of what they gave back, and of the state before and after.

use vstd::prelude::*;
use vstd::string::*;
use vstd::utf8::{encode_utf8, encode_utf8_decode_utf8};

use crate::control::{control_dispatch, error_response, ok_response};
use crate::control::{
    deleted, error_text, list_text, ok_text, route_text, routes_text, ControlCommand,
    ControlRequest,
};
use crate::control_laws::{law_list_tells_everything, law_upsert_sets_one_route};
use crate::json::json_text;
use crate::lookup_laws::{first_route, lemma_first_route, lemma_no_route, no_route};
use crate::state::{lookup_backend, FrontdoorState, FrontdoorView, RouteView};

verus! {

/// Texts with commas between them.
pub open spec fn commas(items: Seq<Seq<char>>) -> Seq<char>
    decreases items.len(),
{
    if items.len() == 0 {
        Seq::empty()
    } else if items.len() == 1 {
        items[0]
    } else {
        items[0] + ","@ + commas(items.drop_first())
    }
}

/// A field of a JSON object: its name, which needs no escapes, and its value.
pub open spec fn field(name: Seq<char>, value: Seq<char>) -> Seq<char> {
    "\""@ + name + "\":"@ + value
}

/// A JSON object with the given fields.
pub open spec fn object(fields: Seq<Seq<char>>) -> Seq<char> {
    "{"@ + commas(fields) + "}"@
}

/// A JSON array with the given elements.
pub open spec fn array(items: Seq<Seq<char>>) -> Seq<char> {
    "["@ + commas(items) + "]"@
}

/// A line with the given text, as it is sent.
pub open spec fn sent_line(text: Seq<char>) -> Seq<u8> {
    encode_utf8(text + "\n"@)
}

/// The bare success: `ok` is true.
pub open spec fn success() -> Seq<u8> {
    sent_line(object(seq![field("ok"@, "true"@)]))
}

/// A failure: `ok` is false, and `error` says why.
pub open spec fn failure(msg: Seq<char>) -> Seq<u8> {
    sent_line(object(seq![field("ok"@, "false"@), field("error"@, json_text(msg))]))
}

/// A route as a JSON object.
pub open spec fn route_object(r: RouteView) -> Seq<char> {
    object(
        seq![field("hostname"@, json_text(r.hostname)), field("backend"@, json_text(r.backend))],
    )
}

/// The list of routes: `ok` is true, `routes` has an object for each route, in
/// order, and `default_backend` is the default backend, or null.
pub open spec fn listing(s: FrontdoorView) -> Seq<u8> {
    sent_line(
        object(
            seq![
                field("ok"@, "true"@),
                field(
                    "routes"@,
                    array(Seq::new(s.routes.len(), |i: int| route_object(s.routes[i]))),
                ),
                field(
                    "default_backend"@,
                    if s.default_backend.len() == 0 {
                        "null"@
                    } else {
                        json_text(s.default_backend)
                    },
                ),
            ],
        ),
    )
}

proof fn lemma_commas_one(a: Seq<char>)
    ensures
        commas(seq![a]) == a,
{
}

proof fn lemma_commas_two(a: Seq<char>, b: Seq<char>)
    ensures
        commas(seq![a, b]) == a + ","@ + b,
{
    assert(seq![a, b].drop_first() =~= seq![b]);
    lemma_commas_one(b);
}

proof fn lemma_commas_three(a: Seq<char>, b: Seq<char>, c: Seq<char>)
    ensures
        commas(seq![a, b, c]) == a + ","@ + (b + ","@ + c),
{
    assert(seq![a, b, c].drop_first() =~= seq![b, c]);
    lemma_commas_two(b, c);
}

proof fn lemma_commas_push(items: Seq<Seq<char>>, x: Seq<char>)
    requires
        items.len() > 0,
    ensures
        commas(items.push(x)) == commas(items) + ","@ + x,
    decreases items.len(),
{
    let all = items.push(x);
    if items.len() == 1 {
        assert(all =~= seq![items[0], x]);
        lemma_commas_two(items[0], x);
    } else {
        assert(all.drop_first() =~= items.drop_first().push(x));
        lemma_commas_push(items.drop_first(), x);
        assert(commas(all) =~= commas(items) + ","@ + x);
    }
}

proof fn lemma_success()
    ensures
        success() == encode_utf8(ok_text()),
{
    reveal_strlit("{\"ok\":true}\n");
    reveal_strlit("{");
    reveal_strlit("}");
    reveal_strlit("\"");
    reveal_strlit("\":");
    reveal_strlit("ok");
    reveal_strlit("true");
    reveal_strlit("\n");
    lemma_commas_one(field("ok"@, "true"@));
    assert(object(seq![field("ok"@, "true"@)]) + "\n"@ =~= ok_text());
}

proof fn lemma_failure(msg: Seq<char>)
    ensures
        failure(msg) == encode_utf8(error_text(msg)),
{
    reveal_strlit("{\"ok\":false,\"error\":");
    reveal_strlit("}\n");
    reveal_strlit("{");
    reveal_strlit("}");
    reveal_strlit("\"");
    reveal_strlit("\":");
    reveal_strlit("ok");
    reveal_strlit("false");
    reveal_strlit("error");
    reveal_strlit(",");
    reveal_strlit("\n");
    lemma_commas_two(field("ok"@, "false"@), field("error"@, json_text(msg)));
    let fields = seq![field("ok"@, "false"@), field("error"@, json_text(msg))];
    assert("{"@ + field("ok"@, "false"@) + ","@ + "\""@ + "error"@ + "\":"@
        =~= "{\"ok\":false,\"error\":"@);
    assert(object(fields) + "\n"@ =~= error_text(msg));
}

proof fn lemma_route_object(r: RouteView)
    ensures
        route_object(r) == route_text(r),
{
    let h = field("hostname"@, json_text(r.hostname));
    let b = field("backend"@, json_text(r.backend));
    lemma_commas_two(h, b);
    reveal_strlit("{");
    reveal_strlit("\"");
    reveal_strlit("\":");
    reveal_strlit("hostname");
    reveal_strlit("backend");
    reveal_strlit(",");
    reveal_strlit("{\"hostname\":");
    reveal_strlit(",\"backend\":");
    assert("{"@ + "\""@ + "hostname"@ + "\":"@ =~= "{\"hostname\":"@);
    assert(","@ + "\""@ + "backend"@ + "\":"@ =~= ",\"backend\":"@);
    assert(route_object(r) =~= ("{"@ + "\""@ + "hostname"@ + "\":"@) + json_text(r.hostname) + (","@
        + "\""@ + "backend"@ + "\":"@) + json_text(r.backend) + "}"@);
}

proof fn lemma_route_objects(routes: Seq<RouteView>)
    ensures
        commas(Seq::new(routes.len(), |i: int| route_object(routes[i]))) == routes_text(routes),
    decreases routes.len(),
{
    let items = Seq::new(routes.len(), |i: int| route_object(routes[i]));
    if routes.len() == 1 {
        lemma_route_object(routes[0]);
    } else if routes.len() > 1 {
        let before = routes.drop_last();
        let front = Seq::new(before.len(), |i: int| route_object(before[i]));
        lemma_route_objects(before);
        lemma_route_object(routes.last());
        assert(items =~= front.push(route_object(routes.last())));
        lemma_commas_push(front, route_object(routes.last()));
    }
}

proof fn lemma_listing(s: FrontdoorView)
    ensures
        listing(s) == encode_utf8(list_text(s)),
{
    let items = Seq::new(s.routes.len(), |i: int| route_object(s.routes[i]));
    let value = if s.default_backend.len() == 0 {
        "null"@
    } else {
        json_text(s.default_backend)
    };
    let ok = field("ok"@, "true"@);
    let routes = field("routes"@, array(items));
    let default = field("default_backend"@, value);
    lemma_commas_three(ok, routes, default);
    lemma_route_objects(s.routes);
    reveal_strlit("{");
    reveal_strlit("}");
    reveal_strlit("[");
    reveal_strlit("]");
    reveal_strlit("\"");
    reveal_strlit("\":");
    reveal_strlit("ok");
    reveal_strlit("true");
    reveal_strlit("routes");
    reveal_strlit("default_backend");
    reveal_strlit(",");
    reveal_strlit("\n");
    reveal_strlit("}\n");
    reveal_strlit("{\"ok\":true,\"routes\":[");
    reveal_strlit("],\"default_backend\":");
    let head = "{"@ + "\""@ + "ok"@ + "\":"@ + "true"@ + ","@ + "\""@ + "routes"@ + "\":"@ + "["@;
    let key = "]"@ + ","@ + "\""@ + "default_backend"@ + "\":"@;
    assert(head =~= "{\"ok\":true,\"routes\":["@);
    assert(key =~= "],\"default_backend\":"@);
    assert("}"@ + "\n"@ =~= "}\n"@);
    assert(object(seq![ok, routes, default]) + "\n"@ =~= head + commas(items) + key + value + ("}"@
        + "\n"@));
}

/// The bare success is the JSON object in which `ok` is true.
pub proof fn law_success_is_json(r: Vec<u8>)
    requires
        call_ensures(ok_response, (), r),
    ensures
        r@ == success(),
{
    lemma_success();
}

/// A failure is the JSON object in which `ok` is false and `error` is the
/// message.
pub proof fn law_failure_is_json(msg: &str, r: Vec<u8>)
    requires
        call_ensures(error_response, (msg,), r),
    ensures
        r@ == failure(msg@),
{
    lemma_failure(msg@);
}

/// Whether an optional text is there and not empty.
pub open spec fn is_given(s: Option<String>) -> bool {
    s matches Some(t) && t@.len() > 0
}

proof fn lemma_ops()
    ensures
        "upsert_route"@ != "delete_route"@,
        "upsert_route"@ != "set_default"@,
        "upsert_route"@ != "list_routes"@,
        "delete_route"@ != "set_default"@,
        "delete_route"@ != "list_routes"@,
        "set_default"@ != "list_routes"@,
{
    reveal_strlit("upsert_route");
    reveal_strlit("delete_route");
    reveal_strlit("set_default");
    reveal_strlit("list_routes");
    assert("upsert_route"@[0] == 'u');
    assert("delete_route"@[0] == 'd');
    assert("set_default"@[0] == 's');
    assert("list_routes"@[0] == 'l');
}

/// `upsert_route` with a host and a backend succeeds. The first route for the
/// host then leads to the backend; where the host has no route, one is added
/// behind the others. Nothing else changes, whatever the state.
pub proof fn law_upsert_sets_the_route(
    state: &mut FrontdoorState,
    c: ControlCommand,
    r: Vec<u8>,
    i: int,
)
    requires
        call_ensures(control_dispatch, (state, ControlRequest::Command(c)), r),
        c.op@ == "upsert_route"@,
        is_given(c.hostname),
        is_given(c.backend),
    ensures
        ({
            let before = old(state)@;
            let after = final(state)@;
            let route = RouteView { hostname: c.hostname->0@, backend: c.backend->0@ };
            &&& r@ == success()
            &&& after == (FrontdoorView { routes: after.routes, ..before })
            &&& first_route(before.routes, route.hostname, i) ==> after.routes
                == before.routes.update(i, route)
            &&& no_route(before.routes, route.hostname) ==> after.routes == before.routes.push(
                route,
            )
        }),
{
    lemma_success();
    let h = c.hostname->0@;
    if first_route(old(state)@.routes, h, i) {
        lemma_first_route(old(state)@.routes, h, i);
    }
    if no_route(old(state)@.routes, h) {
        lemma_no_route(old(state)@.routes, h);
    }
}

/// Once `upsert_route` has succeeded, a lookup of the host finds the backend,
/// and a lookup of any other host finds what it found before.
pub proof fn law_upsert_is_looked_up(
    state: &mut FrontdoorState,
    c: ControlCommand,
    r: Vec<u8>,
    before: &FrontdoorState,
    after: &FrontdoorState,
    hostname: &str,
    found_before: Option<String>,
    found_after: Option<String>,
)
    requires
        call_ensures(control_dispatch, (state, ControlRequest::Command(c)), r),
        c.op@ == "upsert_route"@,
        is_given(c.hostname),
        is_given(c.backend),
        before@ == old(state)@,
        after@ == final(state)@,
        call_ensures(lookup_backend, (before, hostname), found_before),
        call_ensures(lookup_backend, (after, hostname), found_after),
    ensures
        hostname@ == c.hostname->0@ ==> found_after is Some && found_after->0@ == c.backend->0@,
        hostname@ != c.hostname->0@ ==> match (found_before, found_after) {
            (Some(x), Some(y)) => x@ == y@,
            (None, None) => true,
            _ => false,
        },
{
    law_upsert_sets_one_route(
        old(state)@.routes,
        c.hostname->0@,
        c.backend->0@,
        hostname@,
    );
}

/// `upsert_route` without a host, or without a backend, fails and says which is
/// missing, the host first. Nothing changes.
pub proof fn law_upsert_needs_its_arguments(
    state: &mut FrontdoorState,
    c: ControlCommand,
    r: Vec<u8>,
)
    requires
        call_ensures(control_dispatch, (state, ControlRequest::Command(c)), r),
        c.op@ == "upsert_route"@,
        !is_given(c.hostname) || !is_given(c.backend),
    ensures
        final(state)@ == old(state)@,
        r@ == failure(
            if !is_given(c.hostname) {
                "upsert_route requires hostname"@
            } else {
                "upsert_route requires backend"@
            },
        ),
{
    lemma_failure("upsert_route requires hostname"@);
    lemma_failure("upsert_route requires backend"@);
}

proof fn lemma_deleted_is_filtered(routes: Seq<RouteView>, h: Seq<char>)
    ensures
        deleted(routes, h) == routes.filter(|x: RouteView| x.hostname != h),
    decreases routes.len(),
{
    let keeps = |x: RouteView| x.hostname != h;
    if routes.len() == 0 {
        reveal(Seq::filter);
        assert(routes.filter(keeps) =~= Seq::<RouteView>::empty());
    } else {
        let rest = routes.drop_first();
        lemma_deleted_is_filtered(rest, h);
        assert(routes =~= seq![routes[0]] + rest);
        Seq::filter_distributes_over_add(seq![routes[0]], rest, keeps);
        assert(seq![routes[0]].filter(keeps) =~= if keeps(routes[0]) {
            seq![routes[0]]
        } else {
            Seq::empty()
        }) by {
            reveal(Seq::filter);
            assert(seq![routes[0]].drop_last() =~= Seq::<RouteView>::empty());
            assert(Seq::<RouteView>::empty().filter(keeps) =~= Seq::<RouteView>::empty());
        }
        assert(deleted(routes, h) =~= routes.filter(keeps));
    }
}

/// `delete_route` with a host succeeds. All routes for the host are gone, and
/// the others stay, in order. Nothing else changes, whatever the state.
pub proof fn law_delete_removes_the_routes(
    state: &mut FrontdoorState,
    c: ControlCommand,
    r: Vec<u8>,
)
    requires
        call_ensures(control_dispatch, (state, ControlRequest::Command(c)), r),
        c.op@ == "delete_route"@,
        is_given(c.hostname),
    ensures
        r@ == success(),
        final(state)@ == (FrontdoorView {
            routes: old(state)@.routes.filter(|x: RouteView| x.hostname != c.hostname->0@),
            ..old(state)@
        }),
{
    lemma_ops();
    lemma_success();
    lemma_deleted_is_filtered(old(state)@.routes, c.hostname->0@);
}

/// `delete_route` without a host fails and says so. Nothing changes.
pub proof fn law_delete_needs_a_host(state: &mut FrontdoorState, c: ControlCommand, r: Vec<u8>)
    requires
        call_ensures(control_dispatch, (state, ControlRequest::Command(c)), r),
        c.op@ == "delete_route"@,
        !is_given(c.hostname),
    ensures
        final(state)@ == old(state)@,
        r@ == failure("delete_route requires hostname"@),
{
    lemma_ops();
    lemma_failure("delete_route requires hostname"@);
}

/// `set_default` succeeds. The default backend is then the one that is given;
/// where none is, there is no default. Nothing else changes.
pub proof fn law_set_default_sets_the_default(
    state: &mut FrontdoorState,
    c: ControlCommand,
    r: Vec<u8>,
)
    requires
        call_ensures(control_dispatch, (state, ControlRequest::Command(c)), r),
        c.op@ == "set_default"@,
    ensures
        r@ == success(),
        c.backend matches Some(b) ==> final(state)@ == (FrontdoorView {
            default_backend: b@,
            ..old(state)@
        }),
        c.backend is None ==> final(state)@.default_backend.len() == 0 && final(state)@ == (
        FrontdoorView { default_backend: final(state)@.default_backend, ..old(state)@ }),
{
    lemma_ops();
    lemma_success();
}

/// `list_routes` is answered with the JSON object that lists all routes, in
/// order, and the default backend, however many routes there are. Nothing
/// changes.
pub proof fn law_list_lists_all_routes(
    state: &mut FrontdoorState,
    c: ControlCommand,
    r: Vec<u8>,
)
    requires
        call_ensures(control_dispatch, (state, ControlRequest::Command(c)), r),
        c.op@ == "list_routes"@,
    ensures
        final(state)@ == old(state)@,
        r@ == listing(old(state)@),
{
    lemma_ops();
    lemma_listing(old(state)@);
}

/// Two states for which `list_routes` gets the same answer have the same
/// routes, in the same order, and the same default backend.
pub proof fn law_list_tells_states_apart(
    s: &mut FrontdoorState,
    t: &mut FrontdoorState,
    c: ControlCommand,
    d: ControlCommand,
    answer_s: Vec<u8>,
    answer_t: Vec<u8>,
)
    requires
        call_ensures(control_dispatch, (s, ControlRequest::Command(c)), answer_s),
        call_ensures(control_dispatch, (t, ControlRequest::Command(d)), answer_t),
        c.op@ == "list_routes"@,
        d.op@ == "list_routes"@,
        answer_s@ == answer_t@,
    ensures
        old(s)@.routes == old(t)@.routes,
        old(s)@.default_backend == old(t)@.default_backend,
{
    lemma_ops();
    encode_utf8_decode_utf8(list_text(old(s)@));
    encode_utf8_decode_utf8(list_text(old(t)@));
    law_list_tells_everything(old(s)@, old(t)@);
}

/// A command that is none of the four fails and names the command. Nothing
/// changes.
pub proof fn law_other_commands_are_unknown(
    state: &mut FrontdoorState,
    c: ControlCommand,
    r: Vec<u8>,
)
    requires
        call_ensures(control_dispatch, (state, ControlRequest::Command(c)), r),
        c.op@ != "upsert_route"@,
        c.op@ != "delete_route"@,
        c.op@ != "set_default"@,
        c.op@ != "list_routes"@,
    ensures
        final(state)@ == old(state)@,
        r@ == failure("unknown op: "@ + c.op@),
{
    lemma_failure("unknown op: "@ + c.op@);
}

/// A line that holds no command fails and says why. Nothing changes.
pub proof fn law_lines_without_a_command_fail(
    state: &mut FrontdoorState,
    request: ControlRequest,
    r: Vec<u8>,
)
    requires
        call_ensures(control_dispatch, (state, request), r),
        request !is Command,
    ensures
        final(state)@ == old(state)@,
        match request {
            ControlRequest::InvalidUtf8 => r@ == failure("invalid utf-8"@),
            ControlRequest::Empty => r@ == failure("empty line"@),
            ControlRequest::Unparsable(e) => r@ == failure("parse: "@ + e@),
            ControlRequest::Command(_) => true,
        },
{
    lemma_failure("invalid utf-8"@);
    lemma_failure("empty line"@);
    if let ControlRequest::Unparsable(e) = request {
        lemma_failure("parse: "@ + e@);
    }
}

} // verus!
