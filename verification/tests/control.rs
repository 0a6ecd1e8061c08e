//! The control channel.

use frontdoor::control::{
    control_dispatch, control_line, control_lines, error_response, memchr_nl, ok_response,
};
use frontdoor::control::{ControlCommand, ControlLine, ControlRequest};
use frontdoor::state::{find_route, lookup_backend, FrontdoorState, Pending, Pipe, Route};

fn state_with(routes: &[(&str, &str)], default_backend: &str) -> FrontdoorState {
    FrontdoorState {
        public_listener_id: "L1".to_string(),
        control_listener_id: "L2".to_string(),
        routes: routes
            .iter()
            .map(|(h, b)| Route { hostname: h.to_string(), backend: b.to_string() })
            .collect(),
        default_backend: default_backend.to_string(),
        pending: vec![Pending {
            conn_id: "c0".to_string(),
            kind: "control".to_string(),
            buf: Vec::new(),
        }],
        pipes: vec![Pipe { a: "a".to_string(), b: "b".to_string() }],
    }
}

fn command(op: &str, hostname: Option<&str>, backend: Option<&str>) -> ControlRequest {
    ControlRequest::Command(ControlCommand {
        op: op.to_string(),
        hostname: hostname.map(|s| s.to_string()),
        backend: backend.map(|s| s.to_string()),
    })
}

fn answer(state: &mut FrontdoorState, request: ControlRequest) -> String {
    String::from_utf8(control_dispatch(state, request)).unwrap()
}

fn text_line(s: &str) -> ControlLine {
    ControlLine::Text(s.to_string())
}

#[test]
fn newlines_are_found() {
    assert_eq!(memchr_nl(b""), None);
    assert_eq!(memchr_nl(b"abc"), None);
    assert_eq!(memchr_nl(b"a\nb\n"), Some(1));
    assert_eq!(memchr_nl(b"\n"), Some(0));
}

#[test]
fn lines_are_trimmed_and_checked() {
    assert_eq!(control_line(b" {\"op\":\"list_routes\"} \r"), text_line("{\"op\":\"list_routes\"}"));
    assert_eq!(control_line(b""), ControlLine::Empty);
    assert_eq!(control_line(" \t\u{a0}\u{2003}".as_bytes()), ControlLine::Empty);
    assert_eq!(control_line(&[0x7b, 0xff]), ControlLine::InvalidUtf8);
    assert_eq!(control_line(&[0x20, 0xc3]), ControlLine::InvalidUtf8);
    assert_eq!(control_line("ü".as_bytes()), text_line("ü"));
}

#[test]
fn complete_lines_are_cut_off() {
    assert_eq!(control_lines(b""), (Vec::new(), Vec::new()));
    assert_eq!(control_lines(b"par"), (Vec::new(), b"par".to_vec()));
    assert_eq!(
        control_lines(b"one\n\n \xff\n two\nthr"),
        (
            vec![
                text_line("one"),
                ControlLine::Empty,
                ControlLine::InvalidUtf8,
                text_line("two"),
            ],
            b"thr".to_vec()
        )
    );
    assert_eq!(control_lines(b"x\n"), (vec![text_line("x")], Vec::new()));
}

#[test]
fn chunk_ends_do_not_change_the_lines() {
    let stream = b"one\n\ntwo two\nthree";
    let (all, rest) = control_lines(stream);
    for n in 0..=stream.len() {
        let (first, tail) = control_lines(&stream[..n]);
        let mut again = tail.clone();
        again.extend_from_slice(&stream[n..]);
        let (second, end) = control_lines(&again);
        let mut both = first.clone();
        both.extend(second);
        assert_eq!(both, all);
        assert_eq!(end, rest);
        assert!(memchr_nl(&tail).is_none());
    }
}

#[test]
fn plain_answers() {
    assert_eq!(ok_response(), b"{\"ok\":true}\n".to_vec());
    assert_eq!(error_response("a \"b\""), b"{\"ok\":false,\"error\":\"a \\\"b\\\"\"}\n".to_vec());
}

#[test]
fn lines_that_are_no_commands_are_refused() {
    let mut state = state_with(&[("h", "b")], "d");
    let before = state.clone();
    assert_eq!(
        answer(&mut state, ControlRequest::InvalidUtf8),
        "{\"ok\":false,\"error\":\"invalid utf-8\"}\n"
    );
    assert_eq!(
        answer(&mut state, ControlRequest::Empty),
        "{\"ok\":false,\"error\":\"empty line\"}\n"
    );
    assert_eq!(
        answer(&mut state, ControlRequest::Unparsable("missing field `op`".to_string())),
        "{\"ok\":false,\"error\":\"parse: missing field `op`\"}\n"
    );
    assert_eq!(
        answer(&mut state, command("reboot", None, None)),
        "{\"ok\":false,\"error\":\"unknown op: reboot\"}\n"
    );
    assert_eq!(state, before);
}

#[test]
fn commands_need_their_arguments() {
    let mut state = state_with(&[("h", "b")], "d");
    let before = state.clone();
    let no_host = "{\"ok\":false,\"error\":\"upsert_route requires hostname\"}\n";
    let no_backend = "{\"ok\":false,\"error\":\"upsert_route requires backend\"}\n";
    let no_delete = "{\"ok\":false,\"error\":\"delete_route requires hostname\"}\n";
    assert_eq!(answer(&mut state, command("upsert_route", None, Some("b2"))), no_host);
    assert_eq!(answer(&mut state, command("upsert_route", Some(""), Some("b2"))), no_host);
    assert_eq!(answer(&mut state, command("upsert_route", None, None)), no_host);
    assert_eq!(answer(&mut state, command("upsert_route", Some("h"), None)), no_backend);
    assert_eq!(answer(&mut state, command("upsert_route", Some("h"), Some(""))), no_backend);
    assert_eq!(answer(&mut state, command("delete_route", None, Some("b"))), no_delete);
    assert_eq!(answer(&mut state, command("delete_route", Some(""), None)), no_delete);
    assert_eq!(state, before);
}

#[test]
fn routes_are_set_and_kept_in_place() {
    let mut state = state_with(&[("h1", "b1"), ("h2", "b2")], "");
    let before = state.clone();
    assert_eq!(answer(&mut state, command("upsert_route", Some("h1"), Some("x"))), "{\"ok\":true}\n");
    assert_eq!(answer(&mut state, command("upsert_route", Some("h3"), Some("y"))), "{\"ok\":true}\n");
    assert_eq!(state.routes, state_with(&[("h1", "x"), ("h2", "b2"), ("h3", "y")], "").routes);
    assert_eq!(lookup_backend(&state, "h1"), Some("x".to_string()));
    assert_eq!(lookup_backend(&state, "h2"), Some("b2".to_string()));
    assert_eq!(lookup_backend(&state, "h3"), Some("y".to_string()));
    assert_eq!(lookup_backend(&state, "h4"), None);
    assert_eq!(find_route(&state.routes, "h3"), Some(2));
    assert_eq!(state.pending, before.pending);
    assert_eq!(state.pipes, before.pipes);
}

#[test]
fn only_the_first_of_two_routes_is_set() {
    let mut state = state_with(&[("h", "b1"), ("h", "b2")], "");
    answer(&mut state, command("upsert_route", Some("h"), Some("x")));
    assert_eq!(state.routes, state_with(&[("h", "x"), ("h", "b2")], "").routes);
}

#[test]
fn routes_are_deleted() {
    let mut state = state_with(&[("h1", "b1"), ("h2", "b2"), ("h1", "b3"), ("h3", "b4")], "");
    assert_eq!(answer(&mut state, command("delete_route", Some("h1"), None)), "{\"ok\":true}\n");
    assert_eq!(state.routes, state_with(&[("h2", "b2"), ("h3", "b4")], "").routes);
    // Deleting a route that is not there succeeds.
    assert_eq!(answer(&mut state, command("delete_route", Some("h1"), None)), "{\"ok\":true}\n");
    assert_eq!(lookup_backend(&state, "h1"), None);
    assert_eq!(lookup_backend(&state, "h2"), Some("b2".to_string()));
}

#[test]
fn the_default_is_set_and_unset() {
    let mut state = state_with(&[("h", "b")], "");
    assert_eq!(answer(&mut state, command("set_default", None, Some("d"))), "{\"ok\":true}\n");
    assert_eq!(lookup_backend(&state, "other"), Some("d".to_string()));
    assert_eq!(lookup_backend(&state, "h"), Some("b".to_string()));
    assert_eq!(answer(&mut state, command("set_default", Some("ignored"), None)), "{\"ok\":true}\n");
    assert_eq!(state.default_backend, "");
    assert_eq!(lookup_backend(&state, "other"), None);
}

#[test]
fn routes_are_listed() {
    let mut state = state_with(&[], "");
    assert_eq!(
        answer(&mut state, command("list_routes", None, None)),
        "{\"ok\":true,\"routes\":[],\"default_backend\":null}\n"
    );
    let mut state = state_with(&[("h1", "b1"), ("h\"2", "b2")], "d");
    let before = state.clone();
    assert_eq!(
        answer(&mut state, command("list_routes", None, None)),
        "{\"ok\":true,\"routes\":[{\"hostname\":\"h1\",\"backend\":\"b1\"},\
         {\"hostname\":\"h\\\"2\",\"backend\":\"b2\"}],\"default_backend\":\"d\"}\n"
    );
    assert_eq!(state, before);
}

#[test]
fn the_list_of_routes_is_json() {
    let mut state = state_with(&[("h\n1", "b\u{1}"), ("ü", "\\")], "\t");
    let text = answer(&mut state, command("list_routes", None, None));
    let value: serde_json::Value = serde_json::from_str(&text).unwrap();
    assert_eq!(value["ok"], serde_json::Value::Bool(true));
    assert_eq!(value["routes"].as_array().unwrap().len(), 2);
    for i in 0..2 {
        assert_eq!(value["routes"][i]["hostname"].as_str().unwrap(), state.routes[i].hostname);
        assert_eq!(value["routes"][i]["backend"].as_str().unwrap(), state.routes[i].backend);
    }
    assert_eq!(value["default_backend"].as_str().unwrap(), "\t");
}

#[test]
fn every_answer_is_one_line_of_json() {
    let mut state = state_with(&[("h\n", "b\r")], "d");
    let requests = vec![
        ControlRequest::InvalidUtf8,
        ControlRequest::Empty,
        ControlRequest::Unparsable("a\nb".to_string()),
        command("nope\n", None, None),
        command("list_routes", None, None),
        command("set_default", None, None),
        command("upsert_route", Some("x\ny"), Some("z")),
        command("list_routes", None, None),
    ];
    for (i, request) in requests.into_iter().enumerate() {
        let bytes = control_dispatch(&mut state, request);
        assert_eq!(memchr_nl(&bytes), Some(bytes.len() - 1));
        let value: serde_json::Value = serde_json::from_slice(&bytes).unwrap();
        assert_eq!(value["ok"].as_bool().unwrap(), i >= 4);
    }
}

#[test]
fn hosts_keep_one_route() {
    let mut state = state_with(&[("h1", "b1"), ("h2", "b2")], "");
    for host in ["h1", "h2", "h3", "h1"] {
        answer(&mut state, command("upsert_route", Some(host), Some("n")));
        answer(&mut state, command("delete_route", Some("h2"), None));
    }
    let mut names: Vec<String> = state.routes.iter().map(|r| r.hostname.clone()).collect();
    names.sort();
    assert_eq!(names, vec!["h1".to_string(), "h3".to_string()]);
}
