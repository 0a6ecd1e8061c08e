//! How the front door starts. Each law speaks of calls: of their arguments, and
//! of what they gave back.

use vstd::prelude::*;
use vstd::string::*;

use crate::init::{config_text, control_bound, init, public_bound};
use crate::init::{InitConfig, InitPlan};
use crate::lookup_laws::{lemma_first_route, lemma_no_route};
use crate::seqs::views;
use crate::state::{lookup_backend, FrontdoorState};

verus! {

/// Only a text that is there and not empty is a configuration.
pub proof fn law_empty_text_is_no_configuration(
    initial_state: Option<String>,
    text: Option<String>,
)
    requires
        call_ensures(config_text, (initial_state,), text),
    ensures
        text is Some <==> initial_state is Some && initial_state->0@.len() > 0,
        text is Some ==> text->0@ == initial_state->0@,
{
}

/// A configuration is taken over part by part: its routes, all of them and in
/// order, its default backend, and its two addresses. Whatever else is left
/// out of it, a part that is left out is an empty default backend or the usual
/// address.
pub proof fn law_configuration_is_taken_over(
    c: InitConfig,
    r: Result<InitPlan, String>,
    i: int,
)
    requires
        call_ensures(init, (Some(Ok(c)),), r),
    ensures
        r matches Ok(p) && {
            &&& p.routes@.len() == c.routes@.len()
            &&& 0 <= i < c.routes@.len() ==> p.routes@[i].hostname@ == c.routes@[i].hostname@
                && p.routes@[i].backend@ == c.routes@[i].backend@
            &&& p.default_backend@ == match c.default_backend {
                Some(b) => b@,
                None => Seq::<char>::empty(),
            }
            &&& p.public_addr@ == match c.public_listen_addr {
                Some(a) => a@,
                None => "0.0.0.0:443"@,
            }
            &&& p.control_addr@ == match c.control_listen_addr {
                Some(a) => a@,
                None => "127.0.0.1:9100"@,
            }
        },
{
    let p = r->Ok_0;
    assert(views(p.routes@) == views(c.routes@));
    if 0 <= i < c.routes@.len() {
        assert(views(p.routes@)[i] == views(c.routes@)[i]);
    }
}

/// Without a configuration there are no routes and no default backend, and the
/// usual addresses are listened on.
pub proof fn law_no_configuration_is_needed(r: Result<InitPlan, String>)
    requires
        call_ensures(init, (None::<Result<InitConfig, String>>,), r),
    ensures
        r matches Ok(p) && {
            &&& p.routes@.len() == 0
            &&& p.default_backend@.len() == 0
            &&& p.public_addr@ == "0.0.0.0:443"@
            &&& p.control_addr@ == "127.0.0.1:9100"@
        },
{
    assert(views(r->Ok_0.routes@).len() == 0);
}

/// A configuration that does not parse stops the start, and the error says why.
pub proof fn law_unparsable_configuration_stops_the_start(
    e: String,
    r: Result<InitPlan, String>,
)
    requires
        call_ensures(init, (Some(Err::<InitConfig, String>(e)),), r),
    ensures
        r matches Err(msg) && msg@ == "initial_state must be JSON: "@ + e@,
{
}

/// A listener that cannot be bound stops the start, and the error says which,
/// where and why.
pub proof fn law_unbound_listener_stops_the_start(
    plan: InitPlan,
    public_listener_id: String,
    e: String,
    public: Result<(InitPlan, String), String>,
    control: Result<FrontdoorState, String>,
)
    requires
        call_ensures(public_bound, (plan, Err::<String, String>(e)), public),
        call_ensures(control_bound, (plan, public_listener_id, Err::<String, String>(e)), control),
    ensures
        public matches Err(msg) && msg@ == "listen public "@ + plan.public_addr@ + ": "@ + e@,
        control matches Err(msg) && msg@ == "listen control "@ + plan.control_addr@ + ": "@ + e@,
{
}

/// Once both listeners are bound, the front door has started: it has the ids of
/// its listeners, each in its place, the routes and the default backend of the
/// plan, and no connection.
pub proof fn law_bound_listeners_start_the_front_door(
    plan: InitPlan,
    public_id: String,
    control_id: String,
    public: Result<(InitPlan, String), String>,
    control: Result<FrontdoorState, String>,
    i: int,
)
    requires
        call_ensures(public_bound, (plan, Ok::<String, String>(public_id)), public),
        public is Ok ==> call_ensures(
            control_bound,
            (public->Ok_0.0, public->Ok_0.1, Ok::<String, String>(control_id)),
            control,
        ),
    ensures
        public is Ok,
        control matches Ok(state) && {
            &&& state.public_listener_id@ == public_id@
            &&& state.control_listener_id@ == control_id@
            &&& state.routes@.len() == plan.routes@.len()
            &&& 0 <= i < plan.routes@.len() ==> state.routes@[i].hostname@
                == plan.routes@[i].hostname@ && state.routes@[i].backend@
                == plan.routes@[i].backend@
            &&& state.default_backend@ == plan.default_backend@
            &&& state.pending@.len() == 0
            &&& state.pipes@.len() == 0
        },
{
    let state = control->Ok_0;
    assert(state@.pending.len() == 0);
    assert(state@.pipes.len() == 0);
    assert(views(state.routes@) == views(plan.routes@));
    assert(views(state.routes@).len() == views(plan.routes@).len());
    if 0 <= i < plan.routes@.len() {
        assert(views(state.routes@)[i] == views(plan.routes@)[i]);
    }
}

/// A front door that has started with a configuration finds for each host the
/// backend of the first route that the configuration gives for it, and for any
/// other host the default backend of the configuration, if it gives one.
pub proof fn law_configured_routes_are_found(
    c: InitConfig,
    planned: Result<InitPlan, String>,
    public_id: String,
    public: Result<(InitPlan, String), String>,
    control_id: String,
    control: Result<FrontdoorState, String>,
    hostname: &str,
    found: Option<String>,
    i: int,
)
    requires
        call_ensures(init, (Some(Ok(c)),), planned),
        planned is Ok ==> call_ensures(
            public_bound,
            (planned->Ok_0, Ok::<String, String>(public_id)),
            public,
        ),
        public is Ok ==> call_ensures(
            control_bound,
            (public->Ok_0.0, public->Ok_0.1, Ok::<String, String>(control_id)),
            control,
        ),
        control is Ok ==> call_ensures(lookup_backend, (&control->Ok_0, hostname), found),
    ensures
        (0 <= i < c.routes@.len() && c.routes@[i].hostname@ == hostname@ && forall|j: int|
            0 <= j < i ==> (#[trigger] c.routes@[j]).hostname@ != hostname@) ==> found is Some && found->0@
            == c.routes@[i].backend@,
        (forall|j: int| 0 <= j < c.routes@.len() ==> (#[trigger] c.routes@[j]).hostname@ != hostname@)
            ==> match c.default_backend {
            Some(d) => if d@.len() > 0 {
                found matches Some(b) && b@ == d@
            } else {
                found is None
            },
            None => found is None,
        },
{
    let state = control->Ok_0;
    let routes = views(c.routes@);
    assert(state@.routes == routes);
    if 0 <= i < c.routes@.len() && c.routes@[i].hostname@ == hostname@ && forall|j: int|
        0 <= j < i ==> (#[trigger] c.routes@[j]).hostname@ != hostname@ {
        assert forall|j: int| 0 <= j < i implies (#[trigger] routes[j]).hostname != hostname@ by {
            assert(c.routes@[j].hostname@ != hostname@);
        }
        lemma_first_route(routes, hostname@, i);
    }
    if forall|j: int| 0 <= j < c.routes@.len() ==> (#[trigger] c.routes@[j]).hostname@ != hostname@ {
        assert forall|j: int| 0 <= j < routes.len() implies (#[trigger] routes[j]).hostname
            != hostname@ by {
            assert(c.routes@[j].hostname@ != hostname@);
        }
        lemma_no_route(routes, hostname@);
    }
}

} // verus!
