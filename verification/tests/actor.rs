//! The life of connections.

use frontdoor::actor::{
    accept_armed, activate_and_arm, classify, close_pipe, control_parsed, forwarded,
    handle_connection, handle_control_pending, handle_pending_data, handle_tls_pending, on_close,
    on_data, outbound_armed, outbound_replayed, promote_to_pipe,
};
use frontdoor::actor::{Effect, Next, Promotion, Refusal, Transition, PENDING_BUFFER_CAP};
use frontdoor::control::{ControlCommand, ControlLine, ControlRequest};
use frontdoor::state::{find_peer, find_pending, FrontdoorState, Pending, Pipe, Route};

/// A ClientHello record, with a server name or without one.
fn hello_record(name: Option<&str>) -> Vec<u8> {
    let mut body: Vec<u8> = vec![3, 3];
    body.extend_from_slice(&[9u8; 32]);
    body.push(0);
    body.extend_from_slice(&[0, 2, 0x13, 1]);
    body.extend_from_slice(&[1, 0]);
    if let Some(name) = name {
        let n = name.len() as u16;
        body.extend_from_slice(&(n + 9).to_be_bytes());
        body.extend_from_slice(&[0, 0]);
        body.extend_from_slice(&(n + 5).to_be_bytes());
        body.extend_from_slice(&(n + 3).to_be_bytes());
        body.push(0);
        body.extend_from_slice(&n.to_be_bytes());
        body.extend_from_slice(name.as_bytes());
    }
    let mut out: Vec<u8> = vec![0x16, 3, 1];
    out.extend_from_slice(&(body.len() as u16 + 4).to_be_bytes());
    out.extend_from_slice(&[1, 0]);
    out.extend_from_slice(&(body.len() as u16).to_be_bytes());
    out.extend_from_slice(&body);
    out
}

fn routed(routes: &[(&str, &str)], default_backend: &str) -> FrontdoorState {
    FrontdoorState {
        public_listener_id: "L1".to_string(),
        control_listener_id: "L2".to_string(),
        routes: routes
            .iter()
            .map(|(h, b)| Route { hostname: h.to_string(), backend: b.to_string() })
            .collect(),
        default_backend: default_backend.to_string(),
        pending: Vec::new(),
        pipes: Vec::new(),
    }
}

fn id(s: &str) -> String {
    s.to_string()
}

fn quiet(next: Next) -> Transition {
    Transition { effects: Vec::new(), next }
}

fn closes(conns: &[&str]) -> Transition {
    closes_and(conns, Next::Finished)
}

fn closes_and(conns: &[&str], next: Next) -> Transition {
    Transition {
        effects: conns.iter().map(|c| Effect::Close { conn_id: c.to_string() }).collect(),
        next,
    }
}

fn accepted(state: &mut FrontdoorState, conn: &str) {
    assert_eq!(accept_armed(state, id(conn), Ok(())), quiet(Next::Finished));
}

/// Bridges `inbound` to `outbound`, with a ClientHello for `name`.
fn bridged(state: &mut FrontdoorState, inbound: &str, name: &str, outbound: &str) {
    accepted(state, inbound);
    let t = on_data(state, id(inbound), hello_record(Some(name)));
    let p = match t.next {
        Next::Connect(p) => p,
        other => panic!("not to be bridged: {:?}", other),
    };
    let t = promote_to_pipe(state, p, Ok(id(outbound)));
    let (p, o) = match t.next {
        Next::ArmOutbound { promotion, outbound } => (promotion, outbound),
        other => panic!("not to be armed: {:?}", other),
    };
    let t = outbound_armed(state, p, o, Ok(()));
    let (p, o) = match t.next {
        Next::Replay { promotion, outbound } => (promotion, outbound),
        other => panic!("not to be replayed: {:?}", other),
    };
    assert_eq!(outbound_replayed(state, p, o, Ok(1)), quiet(Next::Finished));
}

#[test]
fn accepting_takes_three_steps() {
    let mut state = routed(&[], "");
    assert_eq!(handle_connection(id("c1")), quiet(Next::Activate { conn_id: id("c1") }));
    assert_eq!(activate_and_arm(id("c1"), Ok(())), quiet(Next::Arm { conn_id: id("c1") }));
    assert_eq!(accept_armed(&mut state, id("c1"), Ok(())), quiet(Next::Finished));
    assert_eq!(
        state.pending,
        vec![Pending { conn_id: id("c1"), kind: id("unknown"), buf: Vec::new() }]
    );
}

#[test]
fn a_failed_accept_closes_that_connection_only() {
    let mut state = routed(&[("h", "b")], "");
    let before = state.clone();
    assert_eq!(activate_and_arm(id("c1"), Err(id("gone"))), closes(&["c1"]));
    assert_eq!(accept_armed(&mut state, id("c1"), Err(id("gone"))), closes(&["c1"]));
    assert_eq!(state, before);
}

#[test]
fn the_first_byte_tells_the_kind() {
    for b in 0..=255u8 {
        let expected = match b {
            0x16 => "tls",
            0x7b => "control",
            _ => "junk",
        };
        assert_eq!(classify(b), expected);
    }
}

#[test]
fn junk_is_dropped() {
    let mut state = routed(&[], "d");
    accepted(&mut state, "c1");
    accepted(&mut state, "c2");
    let t = on_data(&mut state, id("c1"), b"GET /".to_vec());
    assert_eq!(t, closes_and(&["c1"], Next::Dropped(Refusal::Unclassifiable)));
    assert_eq!(find_pending(&state.pending, "c1"), None);
    assert_eq!(find_pending(&state.pending, "c2"), Some(0));
    // No first byte is no byte to go by.
    let t = on_data(&mut state, id("c2"), Vec::new());
    assert_eq!(t, closes_and(&["c2"], Next::Dropped(Refusal::Unclassifiable)));
    assert!(state.pending.is_empty());
}

#[test]
fn unknown_connections_are_closed() {
    let mut state = routed(&[], "");
    let before = state.clone();
    let t = on_data(&mut state, id("x"), vec![1]);
    assert_eq!(t, closes_and(&["x"], Next::Dropped(Refusal::Unknown)));
    assert_eq!(on_close(&mut state, id("x")), closes(&["x"]));
    assert_eq!(state, before);
}

#[test]
fn a_hello_leads_to_its_backend() {
    let mut state = routed(&[("a.example", "127.0.0.1:1"), ("b.example", "127.0.0.1:2")], "");
    accepted(&mut state, "c1");
    let hello = hello_record(Some("b.example"));
    let t = on_data(&mut state, id("c1"), hello.clone());
    let promotion = Promotion {
        idx: 0,
        inbound: id("c1"),
        sni_label: id("b.example"),
        backend: id("127.0.0.1:2"),
        replay: hello.clone(),
    };
    assert_eq!(t, quiet(Next::Connect(promotion.clone())));
    assert_eq!(state.pending.len(), 1);
    let t = promote_to_pipe(&mut state, promotion.clone(), Ok(id("o1")));
    assert_eq!(
        t,
        quiet(Next::ArmOutbound { promotion: promotion.clone(), outbound: id("o1") })
    );
    let t = outbound_armed(&mut state, promotion.clone(), id("o1"), Ok(()));
    assert_eq!(t, quiet(Next::Replay { promotion: promotion.clone(), outbound: id("o1") }));
    let t = outbound_replayed(&mut state, promotion, id("o1"), Ok(hello.len() as u64));
    assert_eq!(t, quiet(Next::Finished));
    assert!(state.pending.is_empty());
    assert_eq!(state.pipes, vec![Pipe { a: id("c1"), b: id("o1") }]);
    assert_eq!(find_peer(&state.pipes, "c1"), Some(id("o1")));
    assert_eq!(find_peer(&state.pipes, "o1"), Some(id("c1")));
}

#[test]
fn chunks_of_a_hello_add_up() {
    let mut stream = hello_record(Some("a.example"));
    let complete = stream.len();
    stream.extend_from_slice(&[0x14, 3, 3]);
    for first in 1..complete {
        for second in [first, first + 1, complete - 1] {
            if second < first || second >= complete {
                continue;
            }
            let mut state = routed(&[("a.example", "B")], "");
            accepted(&mut state, "c1");
            let t = on_data(&mut state, id("c1"), stream[..first].to_vec());
            assert_eq!(t, quiet(Next::Finished));
            let t = on_data(&mut state, id("c1"), stream[first..second].to_vec());
            assert_eq!(t, quiet(Next::Finished));
            assert_eq!(state.pending[0].kind, "tls");
            assert_eq!(state.pending[0].buf, stream[..second].to_vec());
            let t = on_data(&mut state, id("c1"), stream[second..].to_vec());
            match t.next {
                Next::Connect(p) => {
                    assert_eq!(p.backend, "B");
                    assert_eq!(p.replay, stream);
                }
                other => panic!("not to be bridged: {:?}", other),
            }
        }
    }
}

#[test]
fn hosts_without_a_route_go_to_the_default_or_nowhere() {
    let hello = hello_record(Some("c.example"));
    let mut state = routed(&[("a.example", "B")], "D");
    accepted(&mut state, "c1");
    let t = on_data(&mut state, id("c1"), hello.clone());
    assert_eq!(
        t.next,
        Next::Connect(Promotion {
            idx: 0,
            inbound: id("c1"),
            sni_label: id("c.example"),
            backend: id("D"),
            replay: hello.clone(),
        })
    );
    let mut state = routed(&[("a.example", "B")], "");
    let before = state.clone();
    accepted(&mut state, "c1");
    let t = on_data(&mut state, id("c1"), hello);
    assert_eq!(t, closes_and(&["c1"], Next::Dropped(Refusal::NoRoute(id("c.example")))));
    assert_eq!(state, before);
}

#[test]
fn a_hello_without_a_name_goes_to_the_default_or_nowhere() {
    let hello = hello_record(None);
    let mut state = routed(&[("a.example", "B")], "D");
    accepted(&mut state, "c1");
    let t = on_data(&mut state, id("c1"), hello.clone());
    assert_eq!(
        t.next,
        Next::Connect(Promotion {
            idx: 0,
            inbound: id("c1"),
            sni_label: id("<no-sni>"),
            backend: id("D"),
            replay: hello.clone(),
        })
    );
    let mut state = routed(&[("a.example", "B")], "");
    let before = state.clone();
    accepted(&mut state, "c1");
    let t = on_data(&mut state, id("c1"), hello);
    assert_eq!(t, closes_and(&["c1"], Next::Dropped(Refusal::NoServerName)));
    assert_eq!(state, before);
}

#[test]
fn a_malformed_hello_is_dropped() {
    let mut state = routed(&[], "D");
    accepted(&mut state, "c1");
    let t = on_data(&mut state, id("c1"), vec![0x16, 3, 1, 0, 1, 2]);
    assert_eq!(t, closes_and(&["c1"], Next::Dropped(Refusal::Malformed("not a ClientHello"))));
    assert!(state.pending.is_empty());
}

#[test]
fn the_buffer_has_a_cap() {
    assert_eq!(PENDING_BUFFER_CAP, 8192);
    for kind in [0x16u8, 0x7b] {
        let mut state = routed(&[], "D");
        accepted(&mut state, "c1");
        let mut data = vec![kind; 8192];
        if kind == 0x16 {
            // a record of 0xffff bytes
            data[3] = 0xff;
            data[4] = 0xff;
        }
        let t = on_data(&mut state, id("c1"), data.clone());
        assert!(t.effects.is_empty());
        assert_eq!(state.pending[0].buf, data);
        // An empty chunk does not hurt.
        let t = on_data(&mut state, id("c1"), Vec::new());
        assert!(t.effects.is_empty());
        let t = on_data(&mut state, id("c1"), vec![0]);
        assert_eq!(t, closes_and(&["c1"], Next::Dropped(Refusal::BufferFull)));
        assert!(state.pending.is_empty());
    }
    // Too much at once counts even where the first byte is junk.
    let mut state = routed(&[], "D");
    accepted(&mut state, "c1");
    let t = on_data(&mut state, id("c1"), vec![0; 8193]);
    assert_eq!(t, closes_and(&["c1"], Next::Dropped(Refusal::BufferFull)));
}

#[test]
fn a_backend_that_refuses_drops_the_client() {
    let mut state = routed(&[("a.example", "B")], "");
    for conn in ["c0", "c1", "c2"] {
        accepted(&mut state, conn);
    }
    let t = on_data(&mut state, id("c1"), hello_record(Some("a.example")));
    let p = match t.next {
        Next::Connect(p) => p,
        other => panic!("not to be bridged: {:?}", other),
    };
    let waiting = state.clone();
    let t = promote_to_pipe(&mut state, p.clone(), Err(id("refused")));
    assert_eq!(t, closes(&["c1"]));
    let dropped = state.clone();
    assert_eq!(find_pending(&dropped.pending, "c1"), None);
    assert_eq!(find_pending(&dropped.pending, "c0"), Some(0));
    assert_eq!(find_pending(&dropped.pending, "c2"), Some(1));

    let mut state = waiting.clone();
    let t = outbound_armed(&mut state, p.clone(), id("o1"), Err(id("no")));
    assert_eq!(t, closes(&["c1", "o1"]));
    assert_eq!(state, dropped);

    let mut state = waiting;
    let t = outbound_replayed(&mut state, p, id("o1"), Err(id("broken")));
    assert_eq!(t, closes(&["c1", "o1"]));
    assert_eq!(state, dropped);
}

#[test]
fn bridged_bytes_are_forwarded_both_ways() {
    let mut state = routed(&[("a.example", "B")], "");
    bridged(&mut state, "c1", "a.example", "o1");
    bridged(&mut state, "c2", "a.example", "o2");
    let before = state.clone();
    for (from, to) in [("c1", "o1"), ("o1", "c1"), ("c2", "o2"), ("o2", "c2")] {
        let t = on_data(&mut state, id(from), vec![0, 1, 0xff]);
        assert_eq!(
            t,
            quiet(Next::Forward { conn_id: id(from), peer: id(to), data: vec![0, 1, 0xff] })
        );
        assert_eq!(forwarded(&mut state, id(from), Ok(3)), quiet(Next::Finished));
    }
    assert_eq!(state, before);
}

#[test]
fn the_end_of_a_stream_tears_the_pipe_down() {
    for (ended, other) in [("c1", "o1"), ("o1", "c1")] {
        let mut state = routed(&[("a.example", "B")], "");
        bridged(&mut state, "c1", "a.example", "o1");
        bridged(&mut state, "c2", "a.example", "o2");
        let t = on_data(&mut state, id(ended), Vec::new());
        assert_eq!(t, closes(&[ended, other]));
        assert_eq!(state.pipes, vec![Pipe { a: id("c2"), b: id("o2") }]);
    }
}

#[test]
fn a_malformed_body_is_not_waited_for() {
    let mut state = routed(&[], "D");
    let before = state.clone();
    accepted(&mut state, "c1");
    let t = on_data(&mut state, id("c1"), vec![0x16, 3, 1, 0, 4, 1, 0, 0, 0]);
    assert_eq!(
        t,
        closes_and(&["c1"], Next::Dropped(Refusal::Malformed("ClientHello body too short")))
    );
    assert_eq!(state, before);
}

#[test]
fn a_failed_forward_tears_the_pipe_down() {
    let mut state = routed(&[("a.example", "B")], "");
    bridged(&mut state, "c1", "a.example", "o1");
    bridged(&mut state, "c2", "a.example", "o2");
    let t = forwarded(&mut state, id("o1"), Err(id("broken")));
    assert_eq!(t, closes(&["o1", "c1"]));
    assert_eq!(state.pipes, vec![Pipe { a: id("c2"), b: id("o2") }]);
    assert_eq!(find_peer(&state.pipes, "c1"), None);
    assert_eq!(find_peer(&state.pipes, "o1"), None);
}

#[test]
fn closing_one_end_closes_both() {
    let mut state = routed(&[("a.example", "B")], "");
    bridged(&mut state, "c1", "a.example", "o1");
    bridged(&mut state, "c2", "a.example", "o2");
    assert_eq!(on_close(&mut state, id("c1")), closes(&["c1", "o1"]));
    assert_eq!(state.pipes, vec![Pipe { a: id("c2"), b: id("o2") }]);
    // The other end reports its own end later.
    assert_eq!(on_close(&mut state, id("o1")), closes(&["o1"]));
    assert_eq!(close_pipe(&mut state, id("o2")), closes(&["o2", "c2"]));
    assert!(state.pipes.is_empty());
    assert_eq!(close_pipe(&mut state, id("o2")), closes(&["o2"]));
}

#[test]
fn closing_a_pending_connection_forgets_it() {
    let mut state = routed(&[], "");
    for conn in ["c0", "c1", "c2"] {
        accepted(&mut state, conn);
    }
    assert_eq!(on_close(&mut state, id("c0")), closes(&["c0"]));
    // The last entry takes the place of the one that left.
    assert_eq!(find_pending(&state.pending, "c2"), Some(0));
    assert_eq!(find_pending(&state.pending, "c1"), Some(1));
    assert_eq!(find_pending(&state.pending, "c0"), None);
}

#[test]
fn control_connections_hand_over_their_lines() {
    let mut state = routed(&[], "");
    accepted(&mut state, "c1");
    let t = on_data(&mut state, id("c1"), b"{\"op\":\"a\"}\n\n{\"op\"".to_vec());
    assert_eq!(
        t,
        quiet(Next::Parse {
            conn_id: id("c1"),
            lines: vec![ControlLine::Text(id("{\"op\":\"a\"}")), ControlLine::Empty],
        })
    );
    assert_eq!(
        state.pending,
        vec![Pending { conn_id: id("c1"), kind: id("control"), buf: b"{\"op\"".to_vec() }]
    );
    // Later chunks are not told apart again.
    let t = on_data(&mut state, id("c1"), b"\x16x\n".to_vec());
    assert_eq!(
        t,
        quiet(Next::Parse {
            conn_id: id("c1"),
            lines: vec![ControlLine::Text(id("{\"op\"\u{16}x"))],
        })
    );
    assert_eq!(state.pending[0].buf, Vec::<u8>::new());
    let t = on_data(&mut state, id("c1"), b"x".to_vec());
    assert_eq!(t, quiet(Next::Parse { conn_id: id("c1"), lines: Vec::new() }));
}

#[test]
fn control_chunks_add_up() {
    let stream = b"{one}\n{two}\n\n{thr";
    let mut whole = routed(&[], "");
    accepted(&mut whole, "c1");
    let all = match on_data(&mut whole, id("c1"), stream.to_vec()).next {
        Next::Parse { lines, .. } => lines,
        other => panic!("not to be parsed: {:?}", other),
    };
    for n in 1..stream.len() {
        let mut state = routed(&[], "");
        accepted(&mut state, "c1");
        let mut lines: Vec<ControlLine> = Vec::new();
        for chunk in [&stream[..n], &stream[n..]] {
            match on_data(&mut state, id("c1"), chunk.to_vec()).next {
                Next::Parse { lines: more, .. } => lines.extend(more),
                other => panic!("not to be parsed: {:?}", other),
            }
        }
        assert_eq!(lines, all);
        assert_eq!(state, whole);
    }
}

#[test]
fn control_chunks_add_up_with_commands_between() {
    let stream = b"{one}\n{two}\n";
    let requests = [set_route("h", "b1"), set_route("h", "b2"), list_all()];
    let mut whole = routed(&[], "");
    accepted(&mut whole, "c1");
    on_data(&mut whole, id("c1"), stream.to_vec());
    let all = control_parsed(&mut whole, id("c1"), requests.to_vec()).effects;
    for n in 1..stream.len() {
        for k in 0..=requests.len() {
            let mut state = routed(&[], "");
            accepted(&mut state, "c1");
            on_data(&mut state, id("c1"), stream[..n].to_vec());
            let mut sent = control_parsed(&mut state, id("c1"), requests[..k].to_vec()).effects;
            on_data(&mut state, id("c1"), stream[n..].to_vec());
            sent.extend(control_parsed(&mut state, id("c1"), requests[k..].to_vec()).effects);
            assert_eq!(sent, all);
            assert_eq!(state, whole);
        }
    }
}

fn set_route(hostname: &str, backend: &str) -> ControlRequest {
    ControlRequest::Command(ControlCommand {
        op: id("upsert_route"),
        hostname: Some(id(hostname)),
        backend: Some(id(backend)),
    })
}

fn list_all() -> ControlRequest {
    ControlRequest::Command(ControlCommand { op: id("list_routes"), hostname: None, backend: None })
}

#[test]
fn commands_are_answered_in_order() {
    let mut state = routed(&[], "");
    let requests = vec![set_route("h", "b"), list_all(), ControlRequest::Empty];
    let t = control_parsed(&mut state, id("c1"), requests.clone());
    let sent = |text: &str| Effect::Send { conn_id: id("c1"), data: text.as_bytes().to_vec() };
    let expected = vec![
        sent("{\"ok\":true}\n"),
        sent(
            "{\"ok\":true,\"routes\":[{\"hostname\":\"h\",\"backend\":\"b\"}],\
             \"default_backend\":null}\n",
        ),
        sent("{\"ok\":false,\"error\":\"empty line\"}\n"),
    ];
    assert_eq!(t, Transition { effects: expected.clone(), next: Next::Finished });
    assert_eq!(state, routed(&[("h", "b")], ""));

    // One by one, they do and say the same.
    let mut state = routed(&[], "");
    let mut effects: Vec<Effect> = Vec::new();
    for request in requests {
        effects.extend(control_parsed(&mut state, id("c1"), vec![request]).effects);
    }
    assert_eq!(effects, expected);
    assert_eq!(state, routed(&[("h", "b")], ""));
}

#[test]
fn commands_leave_connections_in_flight_alone() {
    let mut state = routed(&[("a.example", "B")], "");
    bridged(&mut state, "c1", "a.example", "o1");
    accepted(&mut state, "c2");
    let half = hello_record(Some("a.example"));
    on_data(&mut state, id("c2"), half[..20].to_vec());
    let before = state.clone();
    control_parsed(&mut state, id("k"), vec![set_route("a.example", "NEW")]);
    assert_eq!(state.pipes, before.pipes);
    assert_eq!(state.pending, before.pending);
    assert_eq!(
        on_data(&mut state, id("c1"), vec![5]).next,
        Next::Forward { conn_id: id("c1"), peer: id("o1"), data: vec![5] }
    );
    // The table is consulted when the ClientHello is complete.
    match on_data(&mut state, id("c2"), half[20..].to_vec()).next {
        Next::Connect(p) => assert_eq!(p.backend, "NEW"),
        other => panic!("not to be bridged: {:?}", other),
    }
}

#[test]
fn connections_do_not_disturb_each_other() {
    let mut state = routed(&[("a.example", "B")], "");
    for conn in ["c0", "c1", "c2"] {
        accepted(&mut state, conn);
    }
    let hello = hello_record(Some("a.example"));
    on_data(&mut state, id("c2"), hello[..9].to_vec());
    let mine = state.pending[find_pending(&state.pending, "c2").unwrap()].clone();
    on_data(&mut state, id("c0"), b"junk".to_vec());
    on_data(&mut state, id("c1"), b"{x}\n".to_vec());
    on_close(&mut state, id("c1"));
    assert_eq!(state.pending, vec![mine]);
    match on_data(&mut state, id("c2"), hello[9..].to_vec()).next {
        Next::Connect(p) => assert_eq!(p.replay, hello),
        other => panic!("not to be bridged: {:?}", other),
    }
}

#[test]
fn a_promotion_removes_the_entry_at_its_position() {
    let hello = hello_record(Some("a.example"));
    let mut state = routed(&[("a.example", "B")], "");
    for conn in ["x", "x", "y"] {
        accepted(&mut state, conn);
    }
    on_data(&mut state, id("x"), b"{first".to_vec());
    let p = match handle_pending_data(&mut state, 1, hello).next {
        Next::Connect(p) => p,
        other => panic!("not to be bridged: {:?}", other),
    };
    assert_eq!(p.idx, 1);
    let left = vec![state.pending[0].clone(), state.pending[2].clone()];
    let waiting = state.clone();
    promote_to_pipe(&mut state, p.clone(), Err(id("refused")));
    assert_eq!(state.pending, left);
    let mut state = waiting.clone();
    outbound_armed(&mut state, p.clone(), id("o"), Err(id("no")));
    assert_eq!(state.pending, left);
    let mut state = waiting.clone();
    outbound_replayed(&mut state, p.clone(), id("o"), Err(id("broken")));
    assert_eq!(state.pending, left);
    let mut state = waiting;
    outbound_replayed(&mut state, p, id("o"), Ok(1));
    assert_eq!(state.pending, left);
    assert_eq!(state.pipes, vec![Pipe { a: id("x"), b: id("o") }]);
}

#[test]
fn handlers_work_on_the_entry_they_are_given() {
    let mut state = routed(&[("a.example", "B")], "");
    accepted(&mut state, "c0");
    accepted(&mut state, "c1");
    let hello = hello_record(Some("a.example"));
    let before = state.clone();
    let t = handle_tls_pending(&mut state, 1, id("c1"), hello.clone());
    assert_eq!(state, before);
    match t.next {
        Next::Connect(p) => assert_eq!(p.replay, hello),
        other => panic!("not to be bridged: {:?}", other),
    }
    let t = handle_control_pending(&mut state, 0, id("c0"), b"a\nb".to_vec());
    assert_eq!(
        t,
        quiet(Next::Parse { conn_id: id("c0"), lines: vec![ControlLine::Text(id("a"))] })
    );
    assert_eq!(state.pending[0].buf, b"b".to_vec());
    let t = handle_pending_data(&mut state, 1, vec![1, 2]);
    assert_eq!(t, closes_and(&["c1"], Next::Dropped(Refusal::Unclassifiable)));
    assert_eq!(state.pending.len(), 1);
}

/// Every connection is in one place, and every pending one has a reason to
/// wait.
fn assert_sound(state: &FrontdoorState) {
    let mut ids: Vec<String> = state.pending.iter().map(|p| p.conn_id.clone()).collect();
    for p in &state.pipes {
        ids.push(p.a.clone());
        ids.push(p.b.clone());
    }
    let n = ids.len();
    ids.sort();
    ids.dedup();
    assert_eq!(ids.len(), n);
    for p in &state.pending {
        assert!(p.buf.len() <= PENDING_BUFFER_CAP);
        match p.kind.as_str() {
            "unknown" => assert!(p.buf.is_empty()),
            "tls" => assert_eq!(p.buf[0], 0x16),
            "control" => assert!(!p.buf.contains(&b'\n')),
            other => panic!("kind {}", other),
        }
    }
}

#[test]
fn a_long_run_stays_sound() {
    let mut state = routed(&[("a.example", "B")], "");
    let hello = hello_record(Some("a.example"));
    let mut seed: u32 = 1;
    let mut dice = |n: u32| {
        seed = seed.wrapping_mul(1664525).wrapping_add(1013904223);
        (seed >> 16) % n
    };
    let mut bridges = 0;
    for i in 0..3000u32 {
        let fresh = format!("c{}", i);
        let mut known: Vec<String> = state.pending.iter().map(|p| p.conn_id.clone()).collect();
        for p in &state.pipes {
            known.push(p.a.clone());
            known.push(p.b.clone());
        }
        if known.is_empty() || dice(4) == 0 {
            accepted(&mut state, &fresh);
        } else {
            let conn = known[dice(known.len() as u32) as usize].clone();
            if dice(8) == 0 {
                on_close(&mut state, conn);
            } else {
                let data = match dice(6) {
                    0 => hello.clone(),
                    1 => hello[..20].to_vec(),
                    2 => hello[20..].to_vec(),
                    3 => b"{\"op\":1}\n{".to_vec(),
                    4 => vec![0x7b; 3000],
                    _ => Vec::new(),
                };
                match on_data(&mut state, conn, data).next {
                    Next::Connect(p) => {
                        assert_eq!(p.backend, "B");
                        assert!(p.replay.starts_with(&hello));
                        if dice(3) == 0 {
                            promote_to_pipe(&mut state, p, Err(id("refused")));
                        } else {
                            outbound_replayed(&mut state, p, format!("o{}", i), Ok(1));
                            bridges += 1;
                        }
                    }
                    Next::Forward { conn_id, .. } => {
                        if dice(5) == 0 {
                            forwarded(&mut state, conn_id, Err(id("broken")));
                        }
                    }
                    _ => {}
                }
            }
        }
        assert_sound(&state);
    }
    assert!(bridges > 0);
}
