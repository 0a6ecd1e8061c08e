//! How the front door starts: its configuration and its two listeners.

use vstd::prelude::*;
use vstd::string::*;

use crate::seqs::views;
use crate::state::{FrontdoorState, Route};
use crate::state::{FrontdoorView, RouteView};
use crate::text::give;
use crate::text::{given, opt_view};

verus! {

/// A route in the configuration.
#[derive(Clone, Debug, PartialEq, Eq)]
pub struct InitRoute {
    pub hostname: String,
    pub backend: String,
}

/// The configuration. Each of its parts may be left out.
#[derive(Clone, Debug, PartialEq, Eq)]
pub struct InitConfig {
    pub default_backend: Option<String>,
    pub routes: Vec<InitRoute>,
    /// Where to listen for connections, in place of port 443 of any address.
    pub public_listen_addr: Option<String>,
    /// Where to listen for commands, in place of port 9100 of the loopback
    /// address.
    pub control_listen_addr: Option<String>,
}

/// What the front door starts with: where it listens, and its first routes.
#[derive(Clone, Debug, PartialEq, Eq)]
pub struct InitPlan {
    pub routes: Vec<Route>,
    pub default_backend: String,
    pub public_addr: String,
    pub control_addr: String,
}

/// The view of an `InitConfig`.
pub struct ConfigView {
    pub default_backend: Option<Seq<char>>,
    pub routes: Seq<RouteView>,
    pub public_listen_addr: Option<Seq<char>>,
    pub control_listen_addr: Option<Seq<char>>,
}

/// The view of an `InitPlan`.
pub struct PlanView {
    pub routes: Seq<RouteView>,
    pub default_backend: Seq<char>,
    pub public_addr: Seq<char>,
    pub control_addr: Seq<char>,
}

impl View for InitRoute {
    type V = RouteView;

    open spec fn view(&self) -> RouteView {
        RouteView { hostname: self.hostname@, backend: self.backend@ }
    }
}

impl View for InitConfig {
    type V = ConfigView;

    open spec fn view(&self) -> ConfigView {
        ConfigView {
            default_backend: opt_view(self.default_backend),
            routes: views(self.routes@),
            public_listen_addr: opt_view(self.public_listen_addr),
            control_listen_addr: opt_view(self.control_listen_addr),
        }
    }
}

impl View for InitPlan {
    type V = PlanView;

    open spec fn view(&self) -> PlanView {
        PlanView {
            routes: views(self.routes@),
            default_backend: self.default_backend@,
            public_addr: self.public_addr@,
            control_addr: self.control_addr@,
        }
    }
}

/// `s`, or `default` where it is missing.
pub open spec fn or_else(s: Option<Seq<char>>, default: Seq<char>) -> Seq<char> {
    match s {
        Some(t) => t,
        None => default,
    }
}

/// What a configuration asks for.
pub open spec fn plan_of(c: ConfigView) -> PlanView {
    PlanView {
        routes: c.routes,
        default_backend: or_else(c.default_backend, Seq::empty()),
        public_addr: or_else(c.public_listen_addr, "0.0.0.0:443"@),
        control_addr: or_else(c.control_listen_addr, "127.0.0.1:9100"@),
    }
}

/// The configuration that asks for nothing.
pub open spec fn no_config() -> ConfigView {
    ConfigView {
        default_backend: None,
        routes: Seq::empty(),
        public_listen_addr: None,
        control_listen_addr: None,
    }
}

/// The state of a front door that has just started.
pub open spec fn started(p: PlanView, public: Seq<char>, control: Seq<char>) -> FrontdoorView {
    FrontdoorView {
        public_listener_id: public,
        control_listener_id: control,
        routes: p.routes,
        default_backend: p.default_backend,
        pending: Seq::empty(),
        pipes: Seq::empty(),
    }
}

/// The text to parse as a configuration, given the initial state where that is
/// a string. An empty string is no configuration.
pub fn config_text(initial_state: Option<String>) -> (r: Option<String>)
    ensures
        opt_view(r) == given(opt_view(initial_state)),
{
    give(initial_state)
}

fn string_or(s: Option<String>, default: &str) -> (r: String)
    ensures
        r@ == or_else(opt_view(s), default@),
{
    match s {
        Some(t) => t,
        None => default.to_owned(),
    }
}

/// The message `head`, `addr`, a colon, `error`.
fn listen_error(head: &str, addr: &str, error: &str) -> (r: String)
    ensures
        r@ == head@ + addr@ + ": "@ + error@,
{
    let mut msg = head.to_owned();
    msg.append(addr);
    msg.append(": ");
    msg.append(error);
    msg
}

/// Starts: `config` is what came of parsing the text of the configuration, or
/// `None` where there is no such text. The next step is to listen on
/// `public_addr` and to go on with `public_bound`.
pub fn init(config: Option<Result<InitConfig, String>>) -> (r: Result<InitPlan, String>)
    ensures
        match config {
            None => r matches Ok(p) && p@ == plan_of(no_config()),
            Some(Ok(c)) => r matches Ok(p) && p@ == plan_of(c@),
            Some(Err(e)) => r matches Err(msg) && msg@ == "initial_state must be JSON: "@ + e@,
        },
{
    match config {
        None => {
            let routes: Vec<Route> = Vec::new();
            proof {
                assert(views(routes@) =~= Seq::<RouteView>::empty());
            }
            Ok(
                InitPlan {
                    routes,
                    default_backend: String::new(),
                    public_addr: "0.0.0.0:443".to_owned(),
                    control_addr: "127.0.0.1:9100".to_owned(),
                },
            )
        },
        Some(Err(e)) => {
            let mut msg = "initial_state must be JSON: ".to_owned();
            msg.append(e.as_str());
            Err(msg)
        },
        Some(Ok(c)) => {
            let mut routes: Vec<Route> = Vec::new();
            let ghost given_routes = c.routes@;
            for r in it: c.routes
                invariant
                    it.seq() == given_routes,
                    views(routes@) == views(given_routes).take(it.index() as int),
            {
                let ghost before = routes@;
                routes.push(Route { hostname: r.hostname, backend: r.backend });
                proof {
                    assert(views(routes@) =~= views(before).push(r@));
                    assert(views(routes@) =~= views(given_routes).take(it.index() + 1));
                }
            }
            proof {
                assert(views(given_routes).take(given_routes.len() as int) =~= views(given_routes));
            }
            Ok(
                InitPlan {
                    routes,
                    default_backend: match c.default_backend {
                        Some(b) => b,
                        None => String::new(),
                    },
                    public_addr: string_or(c.public_listen_addr, "0.0.0.0:443"),
                    control_addr: string_or(c.control_listen_addr, "127.0.0.1:9100"),
                },
            )
        },
    }
}

/// Goes on once the public listener is bound, or could not be. The next step
/// is to listen on `control_addr` and to go on with `control_bound`.
pub fn public_bound(plan: InitPlan, bound: Result<String, String>) -> (r: Result<
    (InitPlan, String),
    String,
>)
    ensures
        match bound {
            Ok(id) => r matches Ok((p, i)) && p@ == plan@ && i@ == id@,
            Err(e) => r matches Err(msg) && msg@ == "listen public "@ + plan.public_addr@ + ": "@
                + e@,
        },
{
    match bound {
        Ok(id) => Ok((plan, id)),
        Err(e) => Err(listen_error("listen public ", plan.public_addr.as_str(), e.as_str())),
    }
}

/// Goes on once the control listener is bound, or could not be. The front door
/// has then started, with no connection yet.
pub fn control_bound(
    plan: InitPlan,
    public_listener_id: String,
    bound: Result<String, String>,
) -> (r: Result<FrontdoorState, String>)
    ensures
        match bound {
            Ok(id) => r matches Ok(s) && s@ == started(plan@, public_listener_id@, id@),
            Err(e) => r matches Err(msg) && msg@ == "listen control "@ + plan.control_addr@ + ": "@
                + e@,
        },
{
    match bound {
        Ok(control_listener_id) => {
            let state = FrontdoorState {
                public_listener_id,
                control_listener_id,
                routes: plan.routes,
                default_backend: plan.default_backend,
                pending: Vec::new(),
                pipes: Vec::new(),
            };
            proof {
                assert(state@.pending =~= Seq::empty());
                assert(state@.pipes =~= Seq::empty());
            }
            Ok(state)
        },
        Err(e) => Err(listen_error("listen control ", plan.control_addr.as_str(), e.as_str())),
    }
}

} // verus!
