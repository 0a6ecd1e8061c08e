//! How the front door starts.

use frontdoor::init::{config_text, control_bound, init, public_bound};
use frontdoor::init::{InitConfig, InitRoute};
use frontdoor::state::lookup_backend;

fn empty_config() -> InitConfig {
    InitConfig {
        default_backend: None,
        routes: Vec::new(),
        public_listen_addr: None,
        control_listen_addr: None,
    }
}

#[test]
fn only_a_string_that_is_not_empty_is_a_configuration() {
    assert_eq!(config_text(None), None);
    assert_eq!(config_text(Some(String::new())), None);
    assert_eq!(config_text(Some("{}".to_string())), Some("{}".to_string()));
}

#[test]
fn defaults_apply_where_nothing_is_said() {
    for config in [None, Some(Ok(empty_config()))] {
        let plan = init(config).unwrap();
        assert_eq!(plan.routes, Vec::new());
        assert_eq!(plan.default_backend, "");
        assert_eq!(plan.public_addr, "0.0.0.0:443");
        assert_eq!(plan.control_addr, "127.0.0.1:9100");
    }
}

#[test]
fn a_configuration_that_does_not_parse_is_an_error() {
    assert_eq!(
        init(Some(Err("EOF while parsing".to_string()))),
        Err("initial_state must be JSON: EOF while parsing".to_string())
    );
}

#[test]
fn a_configuration_is_carried_out() {
    let config = InitConfig {
        default_backend: Some("127.0.0.1:8443".to_string()),
        routes: vec![
            InitRoute {
                hostname: "mail.colinrozzi.com".to_string(),
                backend: "127.0.0.1:8443".to_string(),
            },
            InitRoute {
                hostname: "tickets.colinrozzi.com".to_string(),
                backend: "127.0.0.1:8444".to_string(),
            },
        ],
        public_listen_addr: Some("127.0.0.1:4430".to_string()),
        control_listen_addr: Some("127.0.0.1:4431".to_string()),
    };
    let plan = init(Some(Ok(config))).unwrap();
    assert_eq!(plan.public_addr, "127.0.0.1:4430");
    assert_eq!(plan.control_addr, "127.0.0.1:4431");
    let (plan, public_id) = public_bound(plan, Ok("L1".to_string())).unwrap();
    let state = control_bound(plan, public_id, Ok("L2".to_string())).unwrap();
    assert_eq!(state.public_listener_id, "L1");
    assert_eq!(state.control_listener_id, "L2");
    assert_eq!(state.routes.len(), 2);
    assert_eq!(state.routes[1].hostname, "tickets.colinrozzi.com");
    assert_eq!(state.routes[1].backend, "127.0.0.1:8444");
    assert_eq!(state.default_backend, "127.0.0.1:8443");
    assert!(state.pending.is_empty());
    assert!(state.pipes.is_empty());
    assert_eq!(lookup_backend(&state, "tickets.colinrozzi.com"), Some("127.0.0.1:8444".to_string()));
    assert_eq!(lookup_backend(&state, "Tickets.colinrozzi.com"), Some("127.0.0.1:8443".to_string()));
}

#[test]
fn a_listener_that_cannot_be_bound_is_an_error() {
    let plan = init(None).unwrap();
    assert_eq!(
        public_bound(plan.clone(), Err("in use".to_string())),
        Err("listen public 0.0.0.0:443: in use".to_string())
    );
    assert_eq!(
        control_bound(plan, "L1".to_string(), Err("denied".to_string())),
        Err("listen control 127.0.0.1:9100: denied".to_string())
    );
}
