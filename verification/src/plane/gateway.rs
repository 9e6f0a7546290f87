//! Gateway and plane access decisions: bearer tokens, route dispatch and
//! request forwarding.

use vstd::prelude::*;

use crate::plane::types::{InstanceView, RouteDecl, RouteMode, Strategy};
use crate::text::{concat2, concat4, seq_starts_with, starts_with, str_eq};

verus! {

/// Whether an `Authorization` header value carries `Bearer ` and the token.
pub open spec fn bearer_ok(authorization: Option<Seq<char>>, token: Seq<char>) -> bool {
    match authorization {
        Some(v) => seq_starts_with(v, "Bearer "@) && v.subrange(7, v.len() as int) == token,
        None => false,
    }
}

/// Whether a request's `Authorization` header carries the bearer token.
pub fn bearer_matches(authorization: Option<&str>, token: &str) -> (r: bool)
    ensures
        r == bearer_ok(
            match authorization {
                Some(v) => Some(v@),
                None => None,
            },
            token@,
        ),
{
    proof {
        reveal_strlit("Bearer ");
    }
    match authorization {
        Some(v) => {
            if !starts_with(v, "Bearer ") {
                return false;
            }
            let n = v.unicode_len();
            str_eq(v.substring_char(7, n), token)
        },
        None => false,
    }
}

/// Whether a request may reach the plane API: always without a configured
/// token, else only with the bearer token.
pub fn authorized(token: &Option<String>, authorization: Option<&str>) -> (r: bool)
    ensures
        r == match token {
            None => true,
            Some(t) => bearer_ok(
                match authorization {
                    Some(v) => Some(v@),
                    None => None,
                },
                t@,
            ),
        },
{
    match token {
        None => true,
        Some(t) => bearer_matches(authorization, t.as_str()),
    }
}

/// What the gateway does with a request.
#[derive(Debug)]
pub enum GatewayAction {
    /// No route matches the path (404).
    NotFound,
    /// A bus route without a topic (400).
    NoTopic,
    /// Publish the body into the topic's relay mailbox (202).
    Publish { topic: String },
    /// Forward the request to the route's instances.
    Proxy,
}

/// Decide what the gateway does with a request, given the route its path
/// matched.
pub fn gateway_action(route: Option<&RouteDecl>) -> (r: GatewayAction)
    ensures
        match route {
            None => r is NotFound,
            Some(rt) => match rt.mode {
                RouteMode::Bus => match rt.topic {
                    Some(t) => r matches GatewayAction::Publish { topic } && topic == t,
                    None => r is NoTopic,
                },
                RouteMode::Proxy => r is Proxy,
            },
        },
{
    match route {
        None => GatewayAction::NotFound,
        Some(rt) => match rt.mode {
            RouteMode::Bus => match &rt.topic {
                Some(t) => GatewayAction::Publish { topic: t.clone() },
                None => GatewayAction::NoTopic,
            },
            RouteMode::Proxy => GatewayAction::Proxy,
        },
    }
}

/// The URL a request is forwarded to on an instance trigger.
pub fn forward_url(target: &str, path: &str) -> (r: String)
    ensures
        r@ == "http://"@ + target@ + "/"@ + path@,
{
    concat4("http://", target, "/", path)
}

/// Whether a request header is forwarded: all but `host` and
/// `content-length` (header names are lower case).
pub fn forwards_header(name: &str) -> (r: bool)
    ensures
        r == (name@ != "host"@ && name@ != "content-length"@),
{
    !str_eq(name, "host") && !str_eq(name, "content-length")
}

/// How many candidate instances a proxied request is tried on: at most two.
pub fn proxy_attempts(candidates: usize) -> (r: usize)
    ensures
        r == if candidates < 2 {
            candidates
        } else {
            2
        },
{
    if candidates < 2 {
        candidates
    } else {
        2
    }
}

/// Route `i` is the first whose path prefix starts the request path (`/`
/// and the path under `/gw/`).
pub open spec fn first_route(routes: Seq<RouteDecl>, request: Seq<char>, i: int) -> bool {
    &&& 0 <= i < routes.len()
    &&& seq_starts_with(request, routes[i].path@)
    &&& forall|j: int| 0 <= j < i ==> !seq_starts_with(request, (#[trigger] routes[j]).path@)
}

/// The route a gateway path (the part after `/gw/`) goes to: the first
/// declared route whose path is a prefix of `/` and the path; `None` when
/// none is.
pub fn match_route(routes: &Vec<RouteDecl>, path: &str) -> (r: Option<usize>)
    ensures
        match r {
            Some(i) => first_route(routes@, "/"@ + path@, i as int),
            None => forall|j: int| 0 <= j < routes@.len() ==> !seq_starts_with("/"@ + path@, (#[trigger] routes@[j]).path@),
        },
{
    proof {
        reveal_strlit("/");
    }
    let request = concat2("/", path);
    let mut i: usize = 0;
    while i < routes.len()
        invariant
            i <= routes@.len(),
            request@ == "/"@ + path@,
            forall|j: int| 0 <= j < i ==> !seq_starts_with(request@, (#[trigger] routes@[j]).path@),
        decreases routes.len() - i,
    {
        if starts_with(request.as_str(), routes[i].path.as_str()) {
            return Some(i);
        }
        i = i + 1;
    }
    None
}

/// An instance can take gateway traffic for flow `flow`: it runs that flow
/// and reports a trigger address.
pub open spec fn serves_flow(view: InstanceView, flow: Seq<char>) -> bool {
    &&& view.flow_id matches Some(f) && f@ == flow
    &&& view.actual matches Some(a) && a@ == "running"@
    &&& view.trigger is Some
}

/// The trigger addresses of the instances that can take traffic for `flow`,
/// in listing order.
pub open spec fn candidate_triggers(views: Seq<InstanceView>, flow: Seq<char>) -> Seq<Seq<char>>
    decreases views.len(),
{
    if views.len() == 0 {
        Seq::empty()
    } else {
        candidate_triggers(views.drop_last(), flow) + if serves_flow(views.last(), flow) {
            seq![views.last().trigger.unwrap()@]
        } else {
            Seq::empty()
        }
    }
}

/// The texts of a list of strings.
pub open spec fn texts(v: Seq<String>) -> Seq<Seq<char>> {
    v.map_values(|s: String| s@)
}

/// The candidate instances of a route's flow: the trigger address of each
/// running instance of the flow that reports one, in listing order.
pub fn gateway_candidates(views: &Vec<InstanceView>, flow: &str) -> (r: Vec<String>)
    ensures
        texts(r@) == candidate_triggers(views@, flow@),
{
    proof {
        reveal_strlit("running");
    }
    let mut r: Vec<String> = Vec::new();
    let mut i: usize = 0;
    while i < views.len()
        invariant
            i <= views@.len(),
            texts(r@) == candidate_triggers(views@.subrange(0, i as int), flow@),
        decreases views.len() - i,
    {
        let v = &views[i];
        let ghost before = r@;
        assert(views@.subrange(0, i + 1).drop_last() =~= views@.subrange(0, i as int));
        let runs_flow = match &v.flow_id {
            Some(f) => str_eq(f.as_str(), flow),
            None => false,
        };
        let running = match &v.actual {
            Some(a) => str_eq(a.as_str(), "running"),
            None => false,
        };
        if runs_flow && running {
            match &v.trigger {
                Some(t) => {
                    r.push(t.clone());
                    assert(texts(r@) =~= texts(before).push(t@));
                },
                None => {},
            }
        }
        assert(texts(r@) =~= candidate_triggers(views@.subrange(0, i + 1), flow@));
        i = i + 1;
    }
    assert(views@.subrange(0, views@.len() as int) =~= views@);
    r
}

/// The slot a sticky key picks among `n` candidates: its characters'
/// codes summed modulo `n`, one character at a time.
pub open spec fn key_slot(key: Seq<char>, n: nat) -> nat
    decreases key.len(),
{
    if key.len() == 0 {
        0
    } else {
        ((key_slot(key.drop_last(), n) + key.last() as nat) % n) as nat
    }
}

/// The candidate a request is tried on first: for the `hash` strategy with
/// a sticky key, the key's slot, so one key always goes to the same
/// instance; otherwise (round robin) the request's turn modulo the number
/// of candidates.
pub open spec fn first_slot(count: nat, strategy: Strategy, key: Option<Seq<char>>, turn: nat) -> nat {
    match (strategy, key) {
        (Strategy::Hash, Some(k)) => key_slot(k, count),
        _ => turn % count,
    }
}

/// Which candidate a proxied request is tried on first.
pub fn first_candidate(count: usize, strategy: &Strategy, key: Option<&str>, turn: usize) -> (r: usize)
    requires
        count > 0,
    ensures
        r == first_slot(count as nat, *strategy, match key {
            Some(k) => Some(k@),
            None => None,
        }, turn as nat),
        r < count,
{
    match (strategy, key) {
        (Strategy::Hash, Some(k)) => {
            let n = k.unicode_len();
            let mut slot: usize = 0;
            let mut i: usize = 0;
            while i < n
                invariant
                    n == k@.len(),
                    i <= n,
                    count > 0,
                    slot < count,
                    slot == key_slot(k@.subrange(0, i as int), count as nat),
                decreases n - i,
            {
                let c = k.get_char(i);
                assert(k@.subrange(0, i + 1).drop_last() =~= k@.subrange(0, i as int));
                let code: u32 = c as u32;
                slot = ((slot as u128 + code as u128) % (count as u128)) as usize;
                i = i + 1;
            }
            assert(k@.subrange(0, n as int) =~= k@);
            slot
        },
        _ => turn % count,
    }
}

/// The candidates in the order a proxied request tries them: from the
/// `first`-th on, wrapping around.
pub fn rotate_candidates(candidates: Vec<String>, first: usize) -> (r: Vec<String>)
    requires
        first < candidates@.len(),
    ensures
        r@ == candidates@.subrange(first as int, candidates@.len() as int) + candidates@.subrange(0, first as int),
{
    let n = candidates.len();
    let mut r: Vec<String> = Vec::new();
    let mut k: usize = 0;
    while k < n
        invariant
            n == candidates@.len(),
            first < n,
            k <= n,
            r@ =~= (candidates@.subrange(first as int, n as int) + candidates@.subrange(0, first as int)).subrange(0, k as int),
        decreases n - k,
    {
        let idx = if k < n - first { first + k } else { k - (n - first) };
        r.push(candidates[idx].clone());
        k = k + 1;
    }
    r
}

} // verus!
