//! The verdict on a lobby.
use vstd::prelude::*;

use crate::counts::{
    added, count_in, counted, lemma_added_count, lemma_counted, plus, sat_add, Tally,
};
use crate::enrich::{
    classify_endpoint, endpoint_role, first_field2, first_field3, get3, phase_code, phase_number,
    role_index, role_number, RoleRule,
};
use crate::fixed::{
    clamp, clamped, deviation, equal_values_do_not_deviate, fmt0, larger, last_of, lemma_ticks,
    mean, mean_and_deviation, seven_tenths, seven_tenths_of, ticks, ticks_are_near, ticks_of,
    whole_text, within_limit, LIMIT, ONE,
};
use crate::json::{
    array_of, entry_views, items_or_empty, json_views, lemma_obj_view, number, opt_view, real_of,
    str_or_empty, text_or_empty, uint_or, Json, JsonView,
};
use crate::learning::AdaptiveThresholds;
use crate::packets::PacketAnalysis;
use crate::signals::{weigh, Findings, FindingsView};
use crate::snapshot::{conn_total, connections, gaming, is_gaming, wan_latency, wan_latency_of};
use crate::text::{cat3, dec_int, decimal_int, position, same, views};
use crate::traffic::{carried_role, role_carried, InboundAnalysis};

verus! {

/// The verdict on a lobby. The confidence is in millionths of a percent.
pub struct CheaterVerdict {
    pub label: String,
    pub confidence: i64,
    pub reasons: Vec<String>,
    /// How much slower the worst matchmaking server is than the line, in millionths of a
    /// millisecond.
    pub mm_delta: Option<i64>,
}

// ---------------------------------------------------------------------------------------------
// What a snapshot lists

/// An endpoint with its role and its latency.
pub struct RoleLatency {
    pub role: String,
    pub latency: Option<i64>,
}

pub open spec fn latency_views(v: Seq<RoleLatency>) -> Seq<(Seq<char>, Option<int>)> {
    v.map_values(
        |e: RoleLatency|
            (
                e.role@,
                match e.latency {
                    Some(n) => Some(n as int),
                    None => None,
                },
            ),
    )
}

/// The lists of a snapshot that hold endpoints.
pub enum EndpointList {
    Connections,
    Destinations,
    Flows,
}

/// An item of a list as an endpoint. A flow without host name and remote is none.
pub open spec fn listed_endpoint(
    rules: Seq<RoleRule>,
    list: EndpointList,
    item: JsonView,
) -> Option<(Seq<char>, Option<int>)> {
    let latency = number(item.field("latencyMs"@));
    match list {
        EndpointList::Connections => Some((carried_role(rules, item), latency)),
        EndpointList::Destinations => {
            let given = match item.field("roleId"@) {
                Some(v) => v.text(),
                None => None,
            };
            let role = match given {
                Some(s) => s,
                None => endpoint_role(
                    rules,
                    text_or_empty(item.field("ip"@)),
                    text_or_empty(first_field2(item, "hostname"@, "label"@)),
                    None,
                    ""@,
                ),
            };
            Some((role, latency))
        },
        EndpointList::Flows => {
            let remote = text_or_empty(item.field("remote"@));
            let host = text_or_empty(first_field3(item, "hostname"@, "host"@, "label"@));
            if host.len() == 0 && remote.len() == 0 {
                None
            } else {
                Some((endpoint_role(rules, remote, host, None, ""@), latency))
            }
        },
    }
}

pub open spec fn listed_endpoints(
    rules: Seq<RoleRule>,
    list: EndpointList,
    items: Seq<JsonView>,
) -> Seq<(Seq<char>, Option<int>)>
    decreases items.len(),
{
    if items.len() == 0 {
        Seq::empty()
    } else {
        let before = listed_endpoints(rules, list, items.drop_last());
        match listed_endpoint(rules, list, items.last()) {
            Some(e) => before.push(e),
            None => before,
        }
    }
}

/// All endpoints of a snapshot with their roles and latencies.
pub open spec fn endpoints(rules: Seq<RoleRule>, snapshot: JsonView) -> Seq<
    (Seq<char>, Option<int>),
> {
    listed_endpoints(
        rules,
        EndpointList::Connections,
        items_or_empty(snapshot.field_in("connections"@, "items"@)),
    ) + listed_endpoints(
        rules,
        EndpointList::Destinations,
        items_or_empty(snapshot.field("destinations"@)),
    ) + listed_endpoints(
        rules,
        EndpointList::Flows,
        items_or_empty(snapshot.field("recentFlows"@)),
    ) + listed_endpoints(
        rules,
        EndpointList::Flows,
        items_or_empty(snapshot.field("recent_flows"@)),
    )
}

fn endpoint_of(rules: &Vec<RoleRule>, list: &EndpointList, item: &Json) -> (r: Option<RoleLatency>)
    ensures
        match r {
            Some(e) => listed_endpoint(rules@, *list, item@) == Some(latency_views(seq![e])[0])
                && latency_kept(e),
            None => listed_endpoint(rules@, *list, item@) is None,
        },
{
    let latency = real_of(item.get("latencyMs"));
    match list {
        EndpointList::Connections => {
            let role = role_carried(rules, item);
            Some(RoleLatency { role, latency })
        },
        EndpointList::Destinations => {
            let given = match item.get("roleId") {
                Some(v) => v.as_str(),
                None => None,
            };
            let role = match given {
                Some(s) => s.to_owned(),
                None => classify_endpoint(
                    rules,
                    str_or_empty(item.get("ip")),
                    str_or_empty(item.get_either("hostname", "label")),
                ),
            };
            Some(RoleLatency { role, latency })
        },
        EndpointList::Flows => {
            let remote = str_or_empty(item.get("remote"));
            let host = str_or_empty(get3(item, "hostname", "host", "label"));
            if host.is_empty() && remote.is_empty() {
                return None;
            }
            let role = classify_endpoint(rules, remote, host);
            Some(RoleLatency { role, latency })
        },
    }
}

pub open spec fn latency_kept(e: RoleLatency) -> bool {
    e.latency is Some ==> -LIMIT <= e.latency->0 <= LIMIT
}

fn push_endpoints(
    rules: &Vec<RoleRule>,
    list: EndpointList,
    items: Option<&Json>,
    out: &mut Vec<RoleLatency>,
)
    requires
        forall|i: int| 0 <= i < old(out).len() ==> latency_kept(#[trigger] old(out)@[i]),
    ensures
        latency_views(final(out)@) == latency_views(old(out)@) + listed_endpoints(
            rules@,
            list,
            items_or_empty(opt_view(items)),
        ),
        forall|i: int| 0 <= i < final(out).len() ==> latency_kept(#[trigger] final(out)@[i]),
{
    if let Some(v) = array_of(items) {
        let mut i: usize = 0;
        assert(latency_views(out@) =~= latency_views(old(out)@) + listed_endpoints(
            rules@,
            list,
            json_views(v@).take(0),
        ));
        while i < v.len()
            invariant
                i <= v.len(),
                latency_views(out@) == latency_views(old(out)@) + listed_endpoints(
                    rules@,
                    list,
                    json_views(v@).take(i as int),
                ),
                forall|k: int| 0 <= k < out.len() ==> latency_kept(#[trigger] out@[k]),
            decreases v.len() - i,
        {
            let ghost before = out@;
            proof {
                let t = json_views(v@).take(i + 1);
                assert(t.drop_last() =~= json_views(v@).take(i as int));
                assert(t.last() == v@[i as int]@);
            }
            match endpoint_of(rules, &list, &v[i]) {
                Some(e) => {
                    out.push(e);
                    assert(latency_views(out@) =~= latency_views(before).push(
                        latency_views(seq![e])[0],
                    ));
                },
                None => {},
            }
            assert(latency_views(out@) =~= latency_views(old(out)@) + listed_endpoints(
                rules@,
                list,
                json_views(v@).take(i + 1),
            ));
            i += 1;
        }
        assert(json_views(v@).take(i as int) =~= json_views(v@));
    } else {
        assert(latency_views(out@) =~= latency_views(old(out)@) + Seq::empty());
    }
}

/// All endpoints of a snapshot with their roles and latencies.
pub fn items_with_roles(rules: &Vec<RoleRule>, snapshot: &Json) -> (r: Vec<RoleLatency>)
    ensures
        latency_views(r@) == endpoints(rules@, snapshot@),
        forall|i: int| 0 <= i < r.len() ==> latency_kept(#[trigger] r@[i]),
{
    let mut out: Vec<RoleLatency> = Vec::new();
    assert(latency_views(out@) =~= Seq::empty());
    push_endpoints(
        rules,
        EndpointList::Connections,
        snapshot.get_in("connections", "items"),
        &mut out,
    );
    push_endpoints(rules, EndpointList::Destinations, snapshot.get("destinations"), &mut out);
    push_endpoints(rules, EndpointList::Flows, snapshot.get("recentFlows"), &mut out);
    push_endpoints(rules, EndpointList::Flows, snapshot.get("recent_flows"), &mut out);
    assert(latency_views(out@) =~= endpoints(rules@, snapshot@));
    out
}

/// How often each known role stands among the endpoints.
pub open spec fn endpoint_roles(items: Seq<(Seq<char>, Option<int>)>) -> Seq<(Seq<char>, u64)>
    decreases items.len(),
{
    if items.len() == 0 {
        Seq::empty()
    } else {
        let before = endpoint_roles(items.drop_last());
        if items.last().0 == "unknown"@ {
            before
        } else {
            counted(before, items.last().0)
        }
    }
}

/// The counts of an object added to those of `start`, unknown hosts left out; of a count only the
/// lowest 32 bits are taken.
pub open spec fn with_stated_roles(
    start: Seq<(Seq<char>, u64)>,
    stated: Seq<(Seq<char>, JsonView)>,
) -> Seq<(Seq<char>, u64)>
    decreases stated.len(),
{
    if stated.len() == 0 {
        start
    } else {
        let before = with_stated_roles(start, stated.drop_last());
        let e = stated.last();
        if e.0 == "unknown"@ {
            before
        } else {
            added(before, e.0, uint_or(Some(e.1), 0) % 0x1_0000_0000)
        }
    }
}

/// The role counts that an enriched snapshot states.
pub open spec fn stated_roles(snapshot: JsonView) -> Seq<(Seq<char>, JsonView)> {
    match snapshot.field_in("_enriched"@, "roleCounts"@) {
        Some(v) => match v {
            JsonView::Obj(o) => o,
            _ => Seq::empty(),
        },
        None => Seq::empty(),
    }
}

/// The roles of a lobby: those of its endpoints and those that the snapshot states.
pub open spec fn lobby_roles(rules: Seq<RoleRule>, snapshot: JsonView) -> Seq<(Seq<char>, u64)> {
    with_stated_roles(endpoint_roles(endpoints(rules, snapshot)), stated_roles(snapshot))
}

fn stated_entries(snapshot: &Json) -> (r: Option<&Vec<(String, Json)>>)
    ensures
        match r {
            Some(v) => stated_roles(snapshot@) == entry_views(v@),
            None => stated_roles(snapshot@) == Seq::<(Seq<char>, JsonView)>::empty(),
        },
{
    match snapshot.get_in("_enriched", "roleCounts") {
        Some(v) => match v {
            Json::Obj(o) => {
                proof {
                    lemma_obj_view(*o);
                }
                Some(o)
            },
            _ => None,
        },
        None => None,
    }
}

fn count_roles(items: &Vec<RoleLatency>, snapshot: &Json) -> (r: Tally)
    ensures
        r@ == with_stated_roles(endpoint_roles(latency_views(items@)), stated_roles(snapshot@)),
{
    let mut t = Tally::new();
    let mut i: usize = 0;
    let ghost all = latency_views(items@);
    while i < items.len()
        invariant
            i <= items.len(),
            all == latency_views(items@),
            t@ == endpoint_roles(all.take(i as int)),
        decreases items.len() - i,
    {
        proof {
            let u = all.take(i + 1);
            assert(u.drop_last() =~= all.take(i as int));
            assert(u.last().0 == items@[i as int].role@);
        }
        if !same(items[i].role.as_str(), "unknown") {
            t.add(items[i].role.as_str());
        }
        i += 1;
    }
    assert(all.take(i as int) =~= all);
    let ghost start = t@;
    match stated_entries(snapshot) {
        Some(v) => {
            let mut k: usize = 0;
            while k < v.len()
                invariant
                    k <= v.len(),
                    t@ == with_stated_roles(start, entry_views(v@).take(k as int)),
                decreases v.len() - k,
            {
                proof {
                    let u = entry_views(v@).take(k + 1);
                    assert(u.drop_last() =~= entry_views(v@).take(k as int));
                    assert(u.last() == (v@[k as int].0@, v@[k as int].1@));
                }
                let e = &v[k];
                if !same(e.0.as_str(), "unknown") {
                    let n: u64 = match e.1.as_u64() {
                        Some(n) => n,
                        None => 0,
                    };
                    t.add_n(e.0.as_str(), n % 0x1_0000_0000);
                }
                k += 1;
            }
            assert(entry_views(v@).take(k as int) =~= entry_views(v@));
        },
        None => {},
    }
    t
}

// ---------------------------------------------------------------------------------------------
// In the queue

pub open spec fn is_queue_role(role: Seq<char>) -> bool {
    role == "matchmaking"@ || role == "warzone-game"@ || role == "azure-qos"@
}

/// The highest latency of a server that the queue talks to.
pub open spec fn worst_queue_latency(items: Seq<(Seq<char>, Option<int>)>) -> Option<int>
    decreases items.len(),
{
    if items.len() == 0 {
        None
    } else {
        let before = worst_queue_latency(items.drop_last());
        let e = items.last();
        if e.1 is Some && is_queue_role(e.0) {
            match before {
                Some(w) => Some(larger(w, e.1->0)),
                None => e.1,
            }
        } else {
            before
        }
    }
}

/// How much slower the worst server of the queue is than the line.
pub open spec fn queue_delta(rules: Seq<RoleRule>, snapshot: JsonView) -> Option<int> {
    match (worst_queue_latency(endpoints(rules, snapshot)), wan_latency(snapshot)) {
        (Some(worst), Some(wan)) => Some(worst - wan),
        _ => None,
    }
}

fn worst_latency(items: &Vec<RoleLatency>) -> (r: Option<i64>)
    requires
        forall|i: int| 0 <= i < items.len() ==> latency_kept(#[trigger] items@[i]),
    ensures
        match r {
            Some(n) => worst_queue_latency(latency_views(items@)) == Some(n as int) && -LIMIT <= n
                <= LIMIT,
            None => worst_queue_latency(latency_views(items@)) is None,
        },
{
    let ghost all = latency_views(items@);
    let mut worst: Option<i64> = None;
    let mut i: usize = 0;
    while i < items.len()
        invariant
            i <= items.len(),
            all == latency_views(items@),
            forall|k: int| 0 <= k < items.len() ==> latency_kept(#[trigger] items@[k]),
            match worst {
                Some(n) => worst_queue_latency(all.take(i as int)) == Some(n as int) && -LIMIT <= n
                    <= LIMIT,
                None => worst_queue_latency(all.take(i as int)) is None,
            },
        decreases items.len() - i,
    {
        let e = &items[i];
        proof {
            let u = all.take(i + 1);
            assert(u.drop_last() =~= all.take(i as int));
            assert(u.last().0 == e.role@);
            assert(latency_kept(*e));
        }
        if same(e.role.as_str(), "matchmaking") || same(e.role.as_str(), "warzone-game") || same(
            e.role.as_str(),
            "azure-qos",
        ) {
            if let Some(n) = e.latency {
                worst = match worst {
                    Some(w) => {
                        if w >= n {
                            Some(w)
                        } else {
                            Some(n)
                        }
                    },
                    None => Some(n),
                };
            }
        }
        i += 1;
    }
    assert(all.take(i as int) =~= all);
    worst
}

/// The highest of the values; 0 of none.
pub open spec fn peak(v: Seq<i64>) -> int
    decreases v.len(),
{
    if v.len() == 0 {
        0
    } else if v.len() == 1 {
        v[0] as int
    } else {
        larger(peak(v.drop_last()), v.last() as int)
    }
}

fn peak_of_last(v: &Vec<i64>, n: usize) -> (r: i64)
    ensures
        r == peak(last_of(v@, n as nat)),
{
    let from: usize = if v.len() > n {
        v.len() - n
    } else {
        0
    };
    let ghost t = last_of(v@, n as nat);
    assert(t =~= v@.skip(from as int));
    let mut best: i64 = 0;
    let mut i: usize = from;
    while i < v.len()
        invariant
            from <= i <= v.len(),
            t == v@.skip(from as int),
            best == peak(t.take(i - from)),
        decreases v.len() - i,
    {
        proof {
            let u = t.take(i - from + 1);
            assert(u.drop_last() =~= t.take(i - from));
            assert(u.last() == v@[i as int]);
            assert(u[0] == t[0]);
        }
        if i == from || v[i] > best {
            best = v[i];
        }
        i += 1;
    }
    assert(t.take(i - from) =~= t);
    best
}

/// Fan-out, session endpoints and region probing while waiting in the queue.
pub open spec fn queue_argued(
    f: FindingsView,
    conns: int,
    roles: Seq<(Seq<char>, u64)>,
    th: AdaptiveThresholds,
) -> FindingsView {
    let f1 = if conns * ONE >= th.conn_matchmaking_high {
        f.argued(
            280_000,
            "Shadow-pool fan-out ("@ + decimal_int(conns) + " live connections during queue)"@,
        )
    } else if conns * ONE >= th.conn_matchmaking_elevated {
        f.argued(
            140_000,
            "Elevated matchmaking traffic ("@ + decimal_int(conns) + " connections)"@,
        )
    } else {
        f
    };
    let f2 = if count_in(roles, "matchmaking"@) >= 2 {
        f1.argued(120_000, "Multiple PlayFab session endpoints active"@)
    } else {
        f1
    };
    if count_in(roles, "azure-qos"@) >= 2 {
        f2.argued(150_000, "Multi-region QoS probing — distant lobby selection pattern"@)
    } else {
        f2
    }
}

fn argue_queue(f: &mut Findings, conns: i64, roles: &Tally, th: &AdaptiveThresholds)
    requires
        -ONE <= old(f)@.score <= 10 * ONE,
    ensures
        final(f)@ == queue_argued(old(f)@, conns as int, roles@, *th),
{
    let c: i128 = conns as i128 * ONE as i128;
    if c >= th.conn_matchmaking_high as i128 {
        let n = dec_int(conns);
        f.argue(
            280_000,
            cat3("Shadow-pool fan-out (", n.as_str(), " live connections during queue)"),
        );
    } else if c >= th.conn_matchmaking_elevated as i128 {
        let n = dec_int(conns);
        f.argue(
            140_000,
            cat3("Elevated matchmaking traffic (", n.as_str(), " connections)"),
        );
    }
    if roles.count("matchmaking") >= 2 {
        f.argue(120_000, "Multiple PlayFab session endpoints active".to_owned());
    }
    if roles.count("azure-qos") >= 2 {
        f.argue(
            150_000,
            "Multi-region QoS probing — distant lobby selection pattern".to_owned(),
        );
    }
}

/// A far server, churn, and a fan-out that lasts through the queue.
pub open spec fn placement_argued(
    f: FindingsView,
    conns: int,
    roles: Seq<(Seq<char>, u64)>,
    delta: Option<int>,
    conn_history: Seq<i64>,
    th: AdaptiveThresholds,
) -> FindingsView {
    let f1 = match delta {
        Some(d) => if d >= th.mm_delta_bad {
            f.argued(
                320_000,
                "Bad lobby placement (+"@ + whole_text(d) + " ms vs your best path)"@,
            )
        } else if d >= th.mm_delta_warn {
            f.argued(
                180_000,
                "Distant matchmaking server (+"@ + whole_text(d) + " ms vs baseline)"@,
            )
        } else {
            f
        },
        None => f,
    };
    let f2 = if count_in(roles, "xbox-live"@) >= 4 {
        f1.argued(100_000, "Xbox Live session churn — unstable lobby assignment"@)
    } else {
        f1
    };
    let top = peak(last_of(conn_history, 6));
    if conn_history.len() >= 6 && top >= 80 && conns >= seven_tenths(top as nat) {
        f2.argued(80_000, "Sustained high fan-out through entire queue"@)
    } else {
        f2
    }
}

fn argue_placement(
    f: &mut Findings,
    conns: i64,
    roles: &Tally,
    delta: Option<i64>,
    conn_history: &Vec<i64>,
    th: &AdaptiveThresholds,
)
    requires
        -ONE <= old(f)@.score <= 10 * ONE,
    ensures
        final(f)@ == placement_argued(
            old(f)@,
            conns as int,
            roles@,
            opt_int(delta),
            conn_history@,
            *th,
        ),
{
    if let Some(d) = delta {
        if d >= th.mm_delta_bad {
            let n = fmt0(d);
            f.argue(
                320_000,
                cat3("Bad lobby placement (+", n.as_str(), " ms vs your best path)"),
            );
        } else if d >= th.mm_delta_warn {
            let n = fmt0(d);
            f.argue(
                180_000,
                cat3("Distant matchmaking server (+", n.as_str(), " ms vs baseline)"),
            );
        }
    }
    if roles.count("xbox-live") >= 4 {
        f.argue(100_000, "Xbox Live session churn — unstable lobby assignment".to_owned());
    }
    if conn_history.len() >= 6 {
        let top: i64 = peak_of_last(conn_history, 6);
        if top >= 80 {
            let floor: u128 = seven_tenths_of(top as u64);
            if conns >= 0 && conns as u128 >= floor {
                f.argue(80_000, "Sustained high fan-out through entire queue".to_owned());
            }
        }
    }
}

pub open spec fn opt_int(n: Option<i64>) -> Option<int> {
    match n {
        Some(x) => Some(x as int),
        None => None,
    }
}

// ---------------------------------------------------------------------------------------------
// In a match

/// Telemetry against gameplay, and latencies that swing.
pub open spec fn match_argued(
    f: FindingsView,
    conns: int,
    roles: Seq<(Seq<char>, u64)>,
    wan_history: Seq<i64>,
    crit_history: Seq<i64>,
    th: AdaptiveThresholds,
) -> FindingsView {
    let demonware = count_in(roles, "warzone-game"@);
    let gameplay = plus(
        plus(demonware, count_in(roles, "matchmaking"@)),
        count_in(roles, "game-assets"@),
    );
    let telemetry = count_in(roles, "telemetry"@);
    let jitter = deviation(last_of(crit_history, 6));
    let latency = mean(last_of(crit_history, 6));
    let f1 = if demonware >= 1 && telemetry >= 2 && telemetry >= demonware {
        f.argued(220_000, "Anti-cheat telemetry spike vs Demonware gameplay"@)
    } else {
        f
    };
    let f2 = if crit_history.len() >= 6 && jitter >= th.jitter_bad {
        f1.argued(
            250_000,
            "Server latency unstable (σ="@ + whole_text(jitter) + " ms) — lag-comp lobby sign"@,
        )
    } else {
        f1
    };
    let f3 = if crit_history.len() >= 6 && latency >= 75_000_000 {
        f2.argued(
            180_000,
            "High Demonware latency ("@ + whole_text(latency) + " ms) — overseas shadow route"@,
        )
    } else {
        f2
    };
    let f4 = if wan_history.len() >= 8 && deviation(last_of(wan_history, 8)) >= th.wan_jitter_bad {
        f3.argued(200_000, "WAN latency swinging mid-match — manipulation pattern"@)
    } else {
        f3
    };
    if gameplay >= 2 && telemetry == 0 && conns < 40 {
        f4.shifted(-80_000)
    } else {
        f4
    }
}

fn argue_match(
    f: &mut Findings,
    conns: i64,
    roles: &Tally,
    wan_history: &Vec<i64>,
    crit_history: &Vec<i64>,
    th: &AdaptiveThresholds,
)
    requires
        -ONE <= old(f)@.score <= 10 * ONE,
        within_limit(wan_history@),
        within_limit(crit_history@),
    ensures
        final(f)@ == match_argued(
            old(f)@,
            conns as int,
            roles@,
            wan_history@,
            crit_history@,
            *th,
        ),
{
    let demonware: u64 = roles.count("warzone-game");
    let gameplay: u64 = sat_add(
        sat_add(demonware, roles.count("matchmaking")),
        roles.count("game-assets"),
    );
    let telemetry: u64 = roles.count("telemetry");
    if demonware >= 1 && telemetry >= 2 && telemetry >= demonware {
        f.argue(220_000, "Anti-cheat telemetry spike vs Demonware gameplay".to_owned());
    }
    if crit_history.len() >= 6 {
        let (latency, jitter) = mean_and_deviation(crit_history, 6);
        if jitter >= th.jitter_bad {
            let n = fmt0(jitter);
            f.argue(
                250_000,
                cat3("Server latency unstable (σ=", n.as_str(), " ms) — lag-comp lobby sign"),
            );
        }
        if latency >= 75_000_000 {
            let n = fmt0(latency);
            f.argue(
                180_000,
                cat3("High Demonware latency (", n.as_str(), " ms) — overseas shadow route"),
            );
        }
    }
    if wan_history.len() >= 8 {
        let (_, jitter) = mean_and_deviation(wan_history, 8);
        if jitter >= th.wan_jitter_bad {
            f.argue(
                200_000,
                "WAN latency swinging mid-match — manipulation pattern".to_owned(),
            );
        }
    }
    if gameplay >= 2 && telemetry == 0 && conns < 40 {
        f.shift(-80_000);
    }
}

/// The connections and services of a console in a match.
pub open spec fn console_argued(
    f: FindingsView,
    conns: int,
    roles: Seq<(Seq<char>, u64)>,
) -> FindingsView {
    let assets = count_in(roles, "game-assets"@);
    let f1 = if conns >= 100 {
        f.argued(
            260_000,
            "Heavy in-match fan-out ("@ + decimal_int(conns)
                + " connections) — shadow-pool / lag-comp load"@,
        )
    } else if conns >= 65 {
        f.argued(160_000, "Elevated in-match connections ("@ + decimal_int(conns) + ")"@)
    } else {
        f
    };
    let f2 = if assets >= 1 && count_in(roles, "telemetry"@) >= 1 && count_in(roles, "xbox-live"@)
        >= 3 {
        f1.argued(180_000, "Xbox in-match pattern (CoD assets + telemetry + Xbox Live churn)"@)
    } else {
        f1
    };
    if count_in(roles, "warzone-game"@) == 0 && assets >= 1 && conns >= 50 {
        f2.argued(
            120_000,
            "Live Warzone session without Demonware DNS — typical Xbox UDP gameplay"@,
        )
    } else {
        f2
    }
}

fn argue_console(f: &mut Findings, conns: i64, roles: &Tally)
    requires
        -ONE <= old(f)@.score <= 10 * ONE,
    ensures
        final(f)@ == console_argued(old(f)@, conns as int, roles@),
{
    let assets: u64 = roles.count("game-assets");
    if conns >= 100 {
        let n = dec_int(conns);
        f.argue(
            260_000,
            cat3(
                "Heavy in-match fan-out (",
                n.as_str(),
                " connections) — shadow-pool / lag-comp load",
            ),
        );
    } else if conns >= 65 {
        let n = dec_int(conns);
        f.argue(160_000, cat3("Elevated in-match connections (", n.as_str(), ")"));
    }
    if assets >= 1 && roles.count("telemetry") >= 1 && roles.count("xbox-live") >= 3 {
        f.argue(
            180_000,
            "Xbox in-match pattern (CoD assets + telemetry + Xbox Live churn)".to_owned(),
        );
    }
    if roles.count("warzone-game") == 0 && assets >= 1 && conns >= 50 {
        f.argue(
            120_000,
            "Live Warzone session without Demonware DNS — typical Xbox UDP gameplay".to_owned(),
        );
    }
}

// ---------------------------------------------------------------------------------------------
// Other opinions

/// A higher opinion replaces the score; one that reaches `floor` replaces a score below it.
pub open spec fn raised(score: int, opinion: int, floor: int) -> int {
    if opinion > score || (score < floor && opinion >= floor) {
        opinion
    } else {
        score
    }
}

/// `reasons` with those of the first `n` that they do not hold yet.
pub open spec fn with_new(
    reasons: Seq<Seq<char>>,
    more: Seq<Seq<char>>,
    n: nat,
) -> Seq<Seq<char>>
    decreases n,
{
    if n == 0 {
        reasons
    } else {
        let before = with_new(reasons, more, (n - 1) as nat);
        if n <= more.len() && !before.contains(more[n - 1]) {
            before.push(more[n - 1])
        } else {
            before
        }
    }
}

fn push_new(reasons: &mut Vec<String>, more: &Vec<String>, n: usize)
    ensures
        views(final(reasons)@) == with_new(views(old(reasons)@), views(more@), n as nat),
{
    let mut i: usize = 0;
    while i < n
        invariant
            i <= n,
            views(reasons@) == with_new(views(old(reasons)@), views(more@), i as nat),
        decreases n - i,
    {
        if i < more.len() {
            let ghost before = reasons@;
            assert(views(more@)[i as int] == more@[i as int]@);
            match position(reasons, more[i].as_str()) {
                Some(k) => {
                    assert(views(reasons@)[k as int] == more@[i as int]@);
                },
                None => {
                    reasons.push(more[i].clone());
                    assert(views(reasons@) =~= views(before).push(more@[i as int]@));
                },
            }
        }
        i += 1;
    }
}

/// What learning makes of the score: its adjusted score, and up to three of its notes.
pub open spec fn learned_argued(
    f: FindingsView,
    adjust: Option<int>,
    notes: Option<Seq<Seq<char>>>,
) -> FindingsView {
    match adjust {
        Some(a) => FindingsView {
            score: raised(f.score, a, 120_000),
            signals: f.signals,
            alerts: match notes {
                Some(n) => f.alerts + if n.len() <= 3 {
                    n
                } else {
                    n.take(3)
                },
                None => f.alerts,
            },
        },
        None => f,
    }
}

fn argue_learned(f: &mut Findings, adjust: Option<i64>, notes: Option<&Vec<String>>)
    ensures
        final(f)@ == learned_argued(old(f)@, opt_int(adjust), opt_views(notes)),
{
    if let Some(a) = adjust {
        if a > f.score || (f.score < 120_000 && a >= 120_000) {
            f.score = a;
        }
        if let Some(n) = notes {
            let end: usize = if n.len() < 3 {
                n.len()
            } else {
                3
            };
            let mut i: usize = 0;
            let ghost start = f@;
            assert(f@.alerts =~= start.alerts + views(n@).take(0));
            while i < end
                invariant
                    i <= end <= n.len(),
                    f@.score == start.score,
                    f@.signals == start.signals,
                    f@.alerts == start.alerts + views(n@).take(i as int),
                decreases end - i,
            {
                let ghost before = f@.alerts;
                f.alerts.push(n[i].clone());
                assert(f@.alerts =~= before.push(n@[i as int]@));
                assert(f@.alerts =~= start.alerts + views(n@).take(i + 1));
                i += 1;
            }
            assert(views(n@).len() == n.len());
            assert(n.len() <= 3 ==> views(n@).take(i as int) =~= views(n@));
        }
    }
}

pub open spec fn opt_views(v: Option<&Vec<String>>) -> Option<Seq<Seq<char>>> {
    match v {
        Some(n) => Some(views(n@)),
        None => None,
    }
}

/// What another analysis makes of the score: its own, and up to four of its alerts.
pub open spec fn other_argued(f: FindingsView, other: Option<FindingsView>) -> FindingsView {
    match other {
        Some(o) => FindingsView {
            score: raised(f.score, o.score, 150_000),
            signals: f.signals,
            alerts: with_new(f.alerts, o.alerts, 4),
        },
        None => f,
    }
}

fn argue_other(f: &mut Findings, score: i64, alerts: &Vec<String>)
    ensures
        final(f)@.score == raised(old(f)@.score, score as int, 150_000),
        final(f)@.signals == old(f)@.signals,
        final(f)@.alerts == with_new(old(f)@.alerts, views(alerts@), 4),
{
    if score > f.score || (f.score < 150_000 && score >= 150_000) {
        f.score = score;
    }
    push_new(&mut f.alerts, alerts, 4);
}

// ---------------------------------------------------------------------------------------------
// The verdict

/// The confidence that belongs to a score, in millionths of a percent: a tenth of a percent is
/// the smallest step.
pub open spec fn confidence_of(score: int) -> int {
    ticks(score, 1000) * 100_000
}

/// The score and the reasons of everything that was looked at.
#[verifier::opaque]
pub open spec fn lobby_case(
    rules: Seq<RoleRule>,
    snapshot: JsonView,
    phase: Seq<char>,
    wan_history: Seq<i64>,
    crit_history: Seq<i64>,
    conn_history: Seq<i64>,
    th: AdaptiveThresholds,
    adjust: Option<int>,
    notes: Option<Seq<Seq<char>>>,
    inbound: Option<FindingsView>,
    packets: Option<FindingsView>,
) -> FindingsView {
    let conns = conn_total(snapshot);
    let roles = lobby_roles(rules, snapshot);
    let f = FindingsView::none();
    let f = if phase == "matchmaking"@ {
        placement_argued(
            queue_argued(f, conns, roles, th),
            conns,
            roles,
            queue_delta(rules, snapshot),
            conn_history,
            th,
        )
    } else {
        f
    };
    let f = if phase == "in-match"@ {
        console_argued(
            match_argued(f, conns, roles, wan_history, crit_history, th),
            conns,
            roles,
        )
    } else {
        f
    };
    other_argued(other_argued(learned_argued(f, adjust, notes), inbound), packets)
}

/// The label, the confidence and the reasons for a case.
#[verifier::opaque]
pub open spec fn verdict_on(
    f: FindingsView,
    phase: Seq<char>,
    conns: int,
    roles: Seq<(Seq<char>, u64)>,
) -> (Seq<char>, int, Seq<Seq<char>>) {
    let score = clamped(f.score, 0, ONE as int);
    let possible = if confidence_of(score) < 22_000_000 {
        24_000_000
    } else {
        confidence_of(score)
    };
    if score >= 480_000 {
        ("LIKELY"@, confidence_of(score), f.alerts)
    } else if score >= 220_000 {
        ("POSSIBLE"@, possible, f.alerts)
    } else if phase == "in-match"@ && score >= 120_000 && (conns >= 65 || count_in(
        roles,
        "telemetry"@,
    ) >= 1) {
        (
            "POSSIBLE"@,
            possible,
            f.alerts.push("In-match Xbox telemetry elevated — possible bad pool"@),
        )
    } else if phase == "matchmaking"@ && score >= 120_000 && count_in(roles, "xbox-live"@) >= 2
        && 18 <= conns <= 45 {
        (
            "POSSIBLE"@,
            possible,
            f.alerts.push(
                "Quiet matchmaking pool ("@ + decimal_int(conns)
                    + " conns) with Xbox Live churn — cheater lobby pattern"@,
            ),
        )
    } else {
        ("CLEAN"@, confidence_of(score), seq!["Telemetry matches normal Warzone pools"@])
    }
}

fn judge(f: Findings, phase: &str, conns: i64, roles: &Tally, mm_delta: Option<i64>) -> (r:
    CheaterVerdict)
    ensures
        (r.label@, r.confidence as int, views(r.reasons@)) == verdict_on(
            f@,
            phase@,
            conns as int,
            roles@,
        ),
        r.mm_delta == mm_delta,
        0 <= r.confidence <= 100_000_000,
{
    proof {
        reveal(verdict_on);
    }
    let score: i64 = clamp(f.score, 0, ONE);
    let mut reasons: Vec<String> = f.alerts;
    proof {
        lemma_ticks(score as int, 1000);
    }
    let confidence: i64 = ticks_of(score, 1000) as i64 * 100_000;
    let possible: i64 = if confidence < 22_000_000 {
        24_000_000
    } else {
        confidence
    };
    if score >= 480_000 {
        return CheaterVerdict { label: "LIKELY".to_owned(), confidence, reasons, mm_delta };
    }
    if score >= 220_000 {
        return CheaterVerdict {
            label: "POSSIBLE".to_owned(),
            confidence: possible,
            reasons,
            mm_delta,
        };
    }
    if same(phase, "in-match") && score >= 120_000 && (conns >= 65 || roles.count("telemetry")
        >= 1) {
        let ghost before = reasons@;
        reasons.push("In-match Xbox telemetry elevated — possible bad pool".to_owned());
        assert(views(reasons@) =~= views(before).push(
            "In-match Xbox telemetry elevated — possible bad pool"@,
        ));
        return CheaterVerdict {
            label: "POSSIBLE".to_owned(),
            confidence: possible,
            reasons,
            mm_delta,
        };
    }
    if same(phase, "matchmaking") && score >= 120_000 && roles.count("xbox-live") >= 2 && conns
        >= 18 && conns <= 45 {
        let ghost before = reasons@;
        let n = dec_int(conns);
        let reason = cat3(
            "Quiet matchmaking pool (",
            n.as_str(),
            " conns) with Xbox Live churn — cheater lobby pattern",
        );
        reasons.push(reason);
        assert(views(reasons@) =~= views(before).push(reason@));
        return CheaterVerdict {
            label: "POSSIBLE".to_owned(),
            confidence: possible,
            reasons,
            mm_delta,
        };
    }
    let mut clean: Vec<String> = Vec::new();
    clean.push("Telemetry matches normal Warzone pools".to_owned());
    assert(views(clean@) =~= seq!["Telemetry matches normal Warzone pools"@]);
    CheaterVerdict { label: "CLEAN".to_owned(), confidence, reasons: clean, mm_delta }
}

pub open spec fn inbound_opinion(a: Option<&InboundAnalysis>) -> Option<FindingsView> {
    match a {
        Some(x) => Some(x.findings()),
        None => None,
    }
}

pub open spec fn packet_opinion(a: Option<&PacketAnalysis>) -> Option<FindingsView> {
    match a {
        Some(x) => Some(x.findings()),
        None => None,
    }
}

/// The verdict on the lobby that a snapshot shows.
pub fn assess(
    rules: &Vec<RoleRule>,
    snapshot: &Json,
    phase: &str,
    wan_history: &Vec<i64>,
    crit_history: &Vec<i64>,
    conn_history: &Vec<i64>,
    th: &AdaptiveThresholds,
    learn_adjust: Option<i64>,
    learn_notes: Option<&Vec<String>>,
    inbound: Option<&InboundAnalysis>,
    packets: Option<&PacketAnalysis>,
) -> (r: CheaterVerdict)
    requires
        within_limit(wan_history@),
        within_limit(crit_history@),
    ensures
        !gaming(phase@) ==> r.label@ == "CLEAN"@ && r.confidence == 0 && views(r.reasons@)
            == seq!["Not in lobby or match"@] && r.mm_delta is None,
        gaming(phase@) ==> (r.label@, r.confidence as int, views(r.reasons@)) == verdict_on(
            lobby_case(
                rules@,
                snapshot@,
                phase@,
                wan_history@,
                crit_history@,
                conn_history@,
                *th,
                opt_int(learn_adjust),
                opt_views(learn_notes),
                inbound_opinion(inbound),
                packet_opinion(packets),
            ),
            phase@,
            conn_total(snapshot@),
            lobby_roles(rules@, snapshot@),
        ),
        opt_int(r.mm_delta) == if phase@ == "matchmaking"@ {
            queue_delta(rules@, snapshot@)
        } else {
            None
        },
        r.mm_delta is Some ==> -2 * LIMIT <= r.mm_delta->0 <= 2 * LIMIT,
        0 <= r.confidence <= 100_000_000,
{
    proof {
        reveal(lobby_case);
    }
    if !is_gaming(phase) {
        let mut reasons: Vec<String> = Vec::new();
        reasons.push("Not in lobby or match".to_owned());
        assert(views(reasons@) =~= seq!["Not in lobby or match"@]);
        return CheaterVerdict {
            label: "CLEAN".to_owned(),
            confidence: 0,
            reasons,
            mm_delta: None,
        };
    }
    let items = items_with_roles(rules, snapshot);
    let roles = count_roles(&items, snapshot);
    let conns: i64 = connections(snapshot);
    let mut f = Findings::new();
    let mut mm_delta: Option<i64> = None;
    if same(phase, "matchmaking") {
        if let Some(worst) = worst_latency(&items) {
            if let Some(wan) = wan_latency_of(snapshot) {
                mm_delta = Some(worst - wan);
            }
        }
        argue_queue(&mut f, conns, &roles, th);
        argue_placement(&mut f, conns, &roles, mm_delta, conn_history, th);
    }
    if same(phase, "in-match") {
        argue_match(&mut f, conns, &roles, wan_history, crit_history, th);
        argue_console(&mut f, conns, &roles);
    }
    argue_learned(&mut f, learn_adjust, learn_notes);
    if let Some(a) = inbound {
        argue_other(&mut f, a.score, &a.alerts);
    }
    if let Some(a) = packets {
        argue_other(&mut f, a.score, &a.alerts);
    }
    judge(f, phase, conns, &roles, mm_delta)
}

/// The roles that an enriched snapshot states, by their short numbers; of a count only the lowest
/// 16 bits are taken.
pub open spec fn numbered_roles(stated: Seq<(Seq<char>, JsonView)>) -> Seq<(u8, u16)>
    decreases stated.len(),
{
    if stated.len() == 0 {
        Seq::empty()
    } else {
        let before = numbered_roles(stated.drop_last());
        let e = stated.last();
        if e.0 == "unknown"@ {
            before
        } else {
            before.push((role_number(e.0), (uint_or(Some(e.1), 0) % 0x1_0000) as u16))
        }
    }
}

/// The roles that an enriched snapshot states, by their short numbers.
pub fn role_pairs(snapshot: &Json) -> (r: Vec<(u8, u16)>)
    ensures
        r@ == numbered_roles(stated_roles(snapshot@)),
{
    let mut out: Vec<(u8, u16)> = Vec::new();
    match stated_entries(snapshot) {
        Some(v) => {
            let mut k: usize = 0;
            while k < v.len()
                invariant
                    k <= v.len(),
                    out@ == numbered_roles(entry_views(v@).take(k as int)),
                decreases v.len() - k,
            {
                proof {
                    let u = entry_views(v@).take(k + 1);
                    assert(u.drop_last() =~= entry_views(v@).take(k as int));
                    assert(u.last() == (v@[k as int].0@, v@[k as int].1@));
                }
                let e = &v[k];
                if !same(e.0.as_str(), "unknown") {
                    let n: u64 = match e.1.as_u64() {
                        Some(n) => n,
                        None => 0,
                    };
                    out.push((role_index(e.0.as_str()), (n % 0x1_0000) as u16));
                }
                k += 1;
            }
            assert(entry_views(v@).take(k as int) =~= entry_views(v@));
        },
        None => {},
    }
    out
}

/// The phase that an enriched snapshot states, or "idle".
pub open spec fn stated_phase(snapshot: JsonView) -> Seq<char> {
    match snapshot.field_in("_enriched"@, "phase"@) {
        Some(v) => match v.text() {
            Some(s) => s,
            None => "idle"@,
        },
        None => "idle"@,
    }
}

/// The phase that an enriched snapshot states, or "idle".
pub fn phase_str(snapshot: &Json) -> (r: String)
    ensures
        r@ == stated_phase(snapshot@),
{
    match snapshot.get_in("_enriched", "phase") {
        Some(v) => match v.as_str() {
            Some(s) => s.to_owned(),
            None => "idle".to_owned(),
        },
        None => "idle".to_owned(),
    }
}

/// The number of a phase.
pub fn phase_code_from_str(phase: &str) -> (r: u8)
    ensures
        r == phase_number(phase@),
{
    phase_code(phase)
}

/// A verdict in plain words. The confidence is in millionths of a percent.
pub struct LobbyAnswer {
    pub is_cheater_lobby: &'static str,
    pub headline: &'static str,
    pub plain: String,
    pub label: String,
    pub confidence: i64,
    pub reasons: Vec<String>,
}

pub open spec fn answer_label(cheater: JsonView) -> Seq<char> {
    match cheater.field("label"@) {
        Some(v) => match v.text() {
            Some(s) => s,
            None => "CLEAN"@,
        },
        None => "CLEAN"@,
    }
}

/// The first `n` texts among the items.
pub open spec fn first_texts(items: Seq<JsonView>, n: nat) -> Seq<Seq<char>>
    decreases items.len(),
{
    if items.len() == 0 {
        Seq::empty()
    } else {
        let before = first_texts(items.drop_last(), n);
        match items.last().text() {
            Some(s) => if before.len() < n {
                before.push(s)
            } else {
                before
            },
            None => before,
        }
    }
}

fn texts_up_to(items: Option<&Json>, n: usize) -> (r: Vec<String>)
    ensures
        views(r@) == first_texts(items_or_empty(opt_view(items)), n as nat),
{
    let mut out: Vec<String> = Vec::new();
    assert(views(out@) =~= Seq::empty());
    if let Some(v) = array_of(items) {
        let mut i: usize = 0;
        while i < v.len()
            invariant
                i <= v.len(),
                views(out@) == first_texts(json_views(v@).take(i as int), n as nat),
            decreases v.len() - i,
        {
            let ghost before = out@;
            proof {
                let t = json_views(v@).take(i + 1);
                assert(t.drop_last() =~= json_views(v@).take(i as int));
                assert(t.last() == v@[i as int]@);
                assert(views(out@).len() == out.len());
            }
            if let Some(s) = v[i].as_str() {
                if out.len() < n {
                    out.push(s.to_owned());
                    assert(views(out@) =~= views(before).push(s@));
                }
            }
            i += 1;
        }
        assert(json_views(v@).take(i as int) =~= json_views(v@));
    }
    out
}

/// Answer, headline and sentence for a label.
pub open spec fn answer_words(label: Seq<char>, confidence: int) -> (
    Seq<char>,
    Seq<char>,
    Seq<char>,
) {
    if label == "LIKELY"@ || label == "USER_BAD"@ {
        (
            "yes"@,
            "CHEATER LOBBY"@,
            "Yes — likely cheater lobby ("@ + whole_text(confidence) + "% confidence)"@,
        )
    } else if label == "POSSIBLE"@ {
        (
            "maybe"@,
            "POSSIBLE CHEATER LOBBY"@,
            "Maybe — possible cheater lobby ("@ + whole_text(confidence) + "% confidence)"@,
        )
    } else {
        ("no"@, "CLEAN LOBBY"@, "No — telemetry looks like a normal lobby"@)
    }
}

/// The answer in plain words to the verdict that a document holds.
pub fn answer_json(cheater: &Json) -> (r: LobbyAnswer)
    ensures
        r.label@ == answer_label(cheater@),
        r.confidence == match number(cheater@.field("confidence"@)) {
            Some(n) => n,
            None => 0,
        },
        views(r.reasons@) == first_texts(items_or_empty(cheater@.field("reasons"@)), 4),
        (r.is_cheater_lobby@, r.headline@, r.plain@) == answer_words(
            r.label@,
            r.confidence as int,
        ),
{
    let label = match cheater.get("label") {
        Some(v) => match v.as_str() {
            Some(s) => s.to_owned(),
            None => "CLEAN".to_owned(),
        },
        None => "CLEAN".to_owned(),
    };
    let confidence: i64 = match real_of(cheater.get("confidence")) {
        Some(n) => n,
        None => 0,
    };
    let reasons = texts_up_to(cheater.get("reasons"), 4);
    if same(label.as_str(), "LIKELY") || same(label.as_str(), "USER_BAD") {
        let n = fmt0(confidence);
        let plain = cat3("Yes — likely cheater lobby (", n.as_str(), "% confidence)");
        return LobbyAnswer {
            is_cheater_lobby: "yes",
            headline: "CHEATER LOBBY",
            plain,
            label,
            confidence,
            reasons,
        };
    }
    if same(label.as_str(), "POSSIBLE") {
        let n = fmt0(confidence);
        let plain = cat3("Maybe — possible cheater lobby (", n.as_str(), "% confidence)");
        return LobbyAnswer {
            is_cheater_lobby: "maybe",
            headline: "POSSIBLE CHEATER LOBBY",
            plain,
            label,
            confidence,
            reasons,
        };
    }
    LobbyAnswer {
        is_cheater_lobby: "no",
        headline: "CLEAN LOBBY",
        plain: "No — telemetry looks like a normal lobby".to_owned(),
        label,
        confidence,
        reasons,
    }
}

// ---------------------------------------------------------------------------------------------
// Laws

/// Learning and the analyses of the traffic only ever raise the score of a lobby: none of them
/// takes back what the telemetry says.
pub proof fn opinions_only_raise(
    rules: Seq<RoleRule>,
    snapshot: JsonView,
    phase: Seq<char>,
    wan_history: Seq<i64>,
    crit_history: Seq<i64>,
    conn_history: Seq<i64>,
    th: AdaptiveThresholds,
    adjust: int,
    notes: Option<Seq<Seq<char>>>,
    inbound: FindingsView,
    packets: FindingsView,
)
    ensures
        ({
            let alone = lobby_case(
                rules,
                snapshot,
                phase,
                wan_history,
                crit_history,
                conn_history,
                th,
                None,
                None,
                None,
                None,
            ).score;
            let all = lobby_case(
                rules,
                snapshot,
                phase,
                wan_history,
                crit_history,
                conn_history,
                th,
                Some(adjust),
                notes,
                Some(inbound),
                Some(packets),
            ).score;
            all >= alone && all >= adjust && all >= inbound.score && all >= packets.score
        }),
{
    reveal(lobby_case);
}

/// A higher score never has a milder label, all else equal.
pub proof fn labels_follow_the_score(
    f: FindingsView,
    g: FindingsView,
    phase: Seq<char>,
    conns: int,
    roles: Seq<(Seq<char>, u64)>,
)
    requires
        f.score <= g.score,
    ensures
        verdict_on(f, phase, conns, roles).0 == "LIKELY"@ ==> verdict_on(
            g,
            phase,
            conns,
            roles,
        ).0 == "LIKELY"@,
        verdict_on(f, phase, conns, roles).0 == "POSSIBLE"@ ==> verdict_on(
            g,
            phase,
            conns,
            roles,
        ).0 != "CLEAN"@,
{
    reveal(verdict_on);
    reveal_strlit("LIKELY");
    reveal_strlit("POSSIBLE");
    reveal_strlit("CLEAN");
    assert("LIKELY"@.len() == 6 && "POSSIBLE"@.len() == 8 && "CLEAN"@.len() == 5);
}

proof fn lemma_argued(f: FindingsView, weight: int, reason: Seq<char>)
    ensures
        forall|y: Seq<char>| #[trigger]
            f.argued(weight, reason).alerts.contains(y) <==> f.alerts.contains(y) || y == reason,
{
    let g = f.argued(weight, reason).alerts;
    assert forall|y: Seq<char>| #[trigger] g.contains(y) <==> f.alerts.contains(y)
        || y == reason by {
        if f.alerts.contains(y) {
            let k = choose|k: int| 0 <= k < f.alerts.len() && f.alerts[k] == y;
            assert(g[k] == y);
        }
        if y == reason {
            assert(g[f.alerts.len() as int] == y);
        }
        if g.contains(y) && y != reason {
            let k = choose|k: int| 0 <= k < g.len() && g[k] == y;
            assert(f.alerts[k] == y);
        }
    }
}

/// What the telemetry of a lobby says by itself, before learning and the analyses of the traffic
/// are heard.
pub open spec fn telemetry_case(
    rules: Seq<RoleRule>,
    snapshot: JsonView,
    phase: Seq<char>,
    wan_history: Seq<i64>,
    crit_history: Seq<i64>,
    conn_history: Seq<i64>,
    th: AdaptiveThresholds,
) -> FindingsView {
    lobby_case(
        rules,
        snapshot,
        phase,
        wan_history,
        crit_history,
        conn_history,
        th,
        None,
        None,
        None,
        None,
    )
}

/// In a match a reason is given exactly when there is cause for it, and the score is what the
/// reasons weigh, less 0.08 where the game is in sight, no telemetry is and few connections are.
#[verifier::spinoff_prover]
#[verifier::rlimit(60)]
pub proof fn a_match_is_judged_by_its_reasons(
    rules: Seq<RoleRule>,
    snapshot: JsonView,
    wan_history: Seq<i64>,
    crit_history: Seq<i64>,
    conn_history: Seq<i64>,
    th: AdaptiveThresholds,
)
    ensures
        ({
            let c = telemetry_case(
                rules,
                snapshot,
                "in-match"@,
                wan_history,
                crit_history,
                conn_history,
                th,
            );
            let conns = conn_total(snapshot);
            let roles = lobby_roles(rules, snapshot);
            let servers = count_in(roles, "warzone-game"@);
            let assets = count_in(roles, "game-assets"@);
            let telemetry = count_in(roles, "telemetry"@);
            let jitter = deviation(last_of(crit_history, 6));
            let latency = mean(last_of(crit_history, 6));
            let spike = c.alerts.contains("Anti-cheat telemetry spike vs Demonware gameplay"@);
            let unstable = c.alerts.contains(
                "Server latency unstable (σ="@ + whole_text(jitter) + " ms) — lag-comp lobby sign"@,
            );
            let distant = c.alerts.contains(
                "High Demonware latency ("@ + whole_text(latency) + " ms) — overseas shadow route"@,
            );
            let swinging = c.alerts.contains(
                "WAN latency swinging mid-match — manipulation pattern"@,
            );
            let heavy = c.alerts.contains(
                "Heavy in-match fan-out ("@ + decimal_int(conns)
                    + " connections) — shadow-pool / lag-comp load"@,
            );
            let elevated = c.alerts.contains(
                "Elevated in-match connections ("@ + decimal_int(conns) + ")"@,
            );
            let churn = c.alerts.contains(
                "Xbox in-match pattern (CoD assets + telemetry + Xbox Live churn)"@,
            );
            let nameless = c.alerts.contains(
                "Live Warzone session without Demonware DNS — typical Xbox UDP gameplay"@,
            );
            &&& spike <==> servers >= 1 && telemetry >= 2 && telemetry >= servers
            &&& unstable <==> crit_history.len() >= 6 && jitter >= th.jitter_bad
            &&& distant <==> crit_history.len() >= 6 && latency >= 75_000_000
            &&& swinging <==> wan_history.len() >= 8 && deviation(last_of(wan_history, 8))
                >= th.wan_jitter_bad
            &&& heavy <==> conns >= 100
            &&& elevated <==> 65 <= conns < 100
            &&& churn <==> assets >= 1 && telemetry >= 1 && count_in(roles, "xbox-live"@) >= 3
            &&& nameless <==> servers == 0 && assets >= 1 && conns >= 50
            &&& c.score == weigh(spike, 220_000) + weigh(unstable, 250_000) + weigh(
                distant,
                180_000,
            ) + weigh(swinging, 200_000) + weigh(heavy, 260_000) + weigh(
                elevated,
                160_000,
            ) + weigh(churn, 180_000) + weigh(nameless, 120_000) - weigh(
                servers + count_in(roles, "matchmaking"@) + assets >= 2 && telemetry == 0 && conns
                    < 40,
                80_000,
            )
        }),
{
    reveal(lobby_case);
    reveal_strlit("in-match");
    reveal_strlit("matchmaking");
    assert("in-match"@.len() == 8 && "matchmaking"@.len() == 11);
    let conns = conn_total(snapshot);
    let roles = lobby_roles(rules, snapshot);
    let f = FindingsView::none();
    let demonware = count_in(roles, "warzone-game"@);
    let telemetry = count_in(roles, "telemetry"@);
    let assets = count_in(roles, "game-assets"@);
    let jitter = deviation(last_of(crit_history, 6));
    let latency = mean(last_of(crit_history, 6));
    let t1 = "Anti-cheat telemetry spike vs Demonware gameplay"@;
    let t2 = "Server latency unstable (σ="@ + whole_text(jitter) + " ms) — lag-comp lobby sign"@;
    let t3 = "High Demonware latency ("@ + whole_text(latency) + " ms) — overseas shadow route"@;
    let t4 = "WAN latency swinging mid-match — manipulation pattern"@;
    let t5 = "Heavy in-match fan-out ("@ + decimal_int(conns)
        + " connections) — shadow-pool / lag-comp load"@;
    let t6 = "Elevated in-match connections ("@ + decimal_int(conns) + ")"@;
    let t7 = "Xbox in-match pattern (CoD assets + telemetry + Xbox Live churn)"@;
    let t8 = "Live Warzone session without Demonware DNS — typical Xbox UDP gameplay"@;
    reveal_strlit("Anti-cheat telemetry spike vs Demonware gameplay");
    reveal_strlit("Server latency unstable (σ=");
    reveal_strlit("High Demonware latency (");
    reveal_strlit("WAN latency swinging mid-match — manipulation pattern");
    reveal_strlit("Heavy in-match fan-out (");
    reveal_strlit("Elevated in-match connections (");
    reveal_strlit("Xbox in-match pattern (CoD assets + telemetry + Xbox Live churn)");
    reveal_strlit("Live Warzone session without Demonware DNS — typical Xbox UDP gameplay");
    assert(t1[0] == 'A' && t2[0] == 'S' && t3[0] == 'H' && t3[1] == 'i' && t4[0] == 'W' && t5[0]
        == 'H' && t5[1] == 'e' && t6[0] == 'E' && t7[0] == 'X' && t8[0] == 'L');
    lemma_argued(f, 220_000, t1);
    let f1 = if demonware >= 1 && telemetry >= 2 && telemetry >= demonware {
        f.argued(220_000, t1)
    } else {
        f
    };
    lemma_argued(f1, 250_000, t2);
    let f2 = if crit_history.len() >= 6 && jitter >= th.jitter_bad {
        f1.argued(250_000, t2)
    } else {
        f1
    };
    lemma_argued(f2, 180_000, t3);
    let f3 = if crit_history.len() >= 6 && latency >= 75_000_000 {
        f2.argued(180_000, t3)
    } else {
        f2
    };
    lemma_argued(f3, 200_000, t4);
    let f5 = match_argued(f, conns, roles, wan_history, crit_history, th);
    lemma_argued(f5, 260_000, t5);
    lemma_argued(f5, 160_000, t6);
    let f6 = if conns >= 100 {
        f5.argued(260_000, t5)
    } else if conns >= 65 {
        f5.argued(160_000, t6)
    } else {
        f5
    };
    lemma_argued(f6, 180_000, t7);
    let f7 = if assets >= 1 && telemetry >= 1 && count_in(roles, "xbox-live"@) >= 3 {
        f6.argued(180_000, t7)
    } else {
        f6
    };
    lemma_argued(f7, 120_000, t8);
}

/// In the queue a reason is given exactly when there is cause for it, and the score is what the
/// reasons weigh.
#[verifier::spinoff_prover]
#[verifier::rlimit(60)]
pub proof fn a_queue_is_judged_by_its_reasons(
    rules: Seq<RoleRule>,
    snapshot: JsonView,
    wan_history: Seq<i64>,
    crit_history: Seq<i64>,
    conn_history: Seq<i64>,
    th: AdaptiveThresholds,
)
    ensures
        ({
            let c = telemetry_case(
                rules,
                snapshot,
                "matchmaking"@,
                wan_history,
                crit_history,
                conn_history,
                th,
            );
            let conns = conn_total(snapshot);
            let roles = lobby_roles(rules, snapshot);
            let delta = queue_delta(rules, snapshot);
            let d = delta->0;
            let top = peak(last_of(conn_history, 6));
            let shadow = c.alerts.contains(
                "Shadow-pool fan-out ("@ + decimal_int(conns) + " live connections during queue)"@,
            );
            let elevated = c.alerts.contains(
                "Elevated matchmaking traffic ("@ + decimal_int(conns) + " connections)"@,
            );
            let sessions = c.alerts.contains("Multiple PlayFab session endpoints active"@);
            let probing = c.alerts.contains(
                "Multi-region QoS probing — distant lobby selection pattern"@,
            );
            let bad = delta is Some && c.alerts.contains(
                "Bad lobby placement (+"@ + whole_text(d) + " ms vs your best path)"@,
            );
            let distant = delta is Some && c.alerts.contains(
                "Distant matchmaking server (+"@ + whole_text(d) + " ms vs baseline)"@,
            );
            let churn = c.alerts.contains("Xbox Live session churn — unstable lobby assignment"@);
            let sustained = c.alerts.contains("Sustained high fan-out through entire queue"@);
            &&& shadow <==> conns * 1_000_000 >= th.conn_matchmaking_high
            &&& elevated <==> th.conn_matchmaking_elevated <= conns * 1_000_000
                < th.conn_matchmaking_high
            &&& sessions <==> count_in(roles, "matchmaking"@) >= 2
            &&& probing <==> count_in(roles, "azure-qos"@) >= 2
            &&& bad <==> delta is Some && d >= th.mm_delta_bad
            &&& distant <==> delta is Some && th.mm_delta_warn <= d < th.mm_delta_bad
            &&& churn <==> count_in(roles, "xbox-live"@) >= 4
            &&& sustained <==> conn_history.len() >= 6 && top >= 80 && conns >= seven_tenths(
                top as nat,
            )
            &&& c.score == weigh(shadow, 280_000) + weigh(elevated, 140_000) + weigh(
                sessions,
                120_000,
            ) + weigh(probing, 150_000) + weigh(bad, 320_000) + weigh(distant, 180_000)
                + weigh(churn, 100_000) + weigh(sustained, 80_000)
        }),
{
    reveal(lobby_case);
    reveal_strlit("in-match");
    reveal_strlit("matchmaking");
    assert("in-match"@.len() == 8 && "matchmaking"@.len() == 11);
    let conns = conn_total(snapshot);
    let roles = lobby_roles(rules, snapshot);
    let delta = queue_delta(rules, snapshot);
    let d = delta->0;
    let f = FindingsView::none();
    let t1 = "Shadow-pool fan-out ("@ + decimal_int(conns) + " live connections during queue)"@;
    let t2 = "Elevated matchmaking traffic ("@ + decimal_int(conns) + " connections)"@;
    let t3 = "Multiple PlayFab session endpoints active"@;
    let t4 = "Multi-region QoS probing — distant lobby selection pattern"@;
    let t5 = "Bad lobby placement (+"@ + whole_text(d) + " ms vs your best path)"@;
    let t6 = "Distant matchmaking server (+"@ + whole_text(d) + " ms vs baseline)"@;
    let t7 = "Xbox Live session churn — unstable lobby assignment"@;
    let t8 = "Sustained high fan-out through entire queue"@;
    reveal_strlit("Shadow-pool fan-out (");
    reveal_strlit("Elevated matchmaking traffic (");
    reveal_strlit("Multiple PlayFab session endpoints active");
    reveal_strlit("Multi-region QoS probing — distant lobby selection pattern");
    reveal_strlit("Bad lobby placement (+");
    reveal_strlit("Distant matchmaking server (+");
    reveal_strlit("Xbox Live session churn — unstable lobby assignment");
    reveal_strlit("Sustained high fan-out through entire queue");
    assert(t1[0] == 'S' && t1[1] == 'h' && t2[0] == 'E' && t3[0] == 'M' && t3[5] == 'p' && t4[0]
        == 'M' && t4[5] == '-' && t5[0] == 'B' && t6[0] == 'D' && t7[0] == 'X' && t8[0] == 'S'
        && t8[1] == 'u');
    lemma_argued(f, 280_000, t1);
    lemma_argued(f, 140_000, t2);
    let f1 = if conns * ONE >= th.conn_matchmaking_high {
        f.argued(280_000, t1)
    } else if conns * ONE >= th.conn_matchmaking_elevated {
        f.argued(140_000, t2)
    } else {
        f
    };
    lemma_argued(f1, 120_000, t3);
    let f2 = if count_in(roles, "matchmaking"@) >= 2 {
        f1.argued(120_000, t3)
    } else {
        f1
    };
    lemma_argued(f2, 150_000, t4);
    let f3 = queue_argued(f, conns, roles, th);
    lemma_argued(f3, 320_000, t5);
    lemma_argued(f3, 180_000, t6);
    let f4 = match delta {
        Some(d) => if d >= th.mm_delta_bad {
            f3.argued(320_000, t5)
        } else if d >= th.mm_delta_warn {
            f3.argued(180_000, t6)
        } else {
            f3
        },
        None => f3,
    };
    lemma_argued(f4, 100_000, t7);
    let f5 = if count_in(roles, "xbox-live"@) >= 4 {
        f4.argued(100_000, t7)
    } else {
        f4
    };
    lemma_argued(f5, 80_000, t8);
}

/// Outside queue and match the telemetry says nothing.
pub proof fn elsewhere_nothing_is_said(
    rules: Seq<RoleRule>,
    snapshot: JsonView,
    phase: Seq<char>,
    wan_history: Seq<i64>,
    crit_history: Seq<i64>,
    conn_history: Seq<i64>,
    th: AdaptiveThresholds,
)
    requires
        phase != "in-match"@,
        phase != "matchmaking"@,
    ensures
        telemetry_case(rules, snapshot, phase, wan_history, crit_history, conn_history, th)
            == FindingsView::none(),
{
    reveal(lobby_case);
}

/// In a match, a server that swings more at the same mean is never judged milder.
pub proof fn swinging_servers_are_not_milder(
    rules: Seq<RoleRule>,
    snapshot: JsonView,
    wan_history: Seq<i64>,
    steadier: Seq<i64>,
    wilder: Seq<i64>,
    conn_history: Seq<i64>,
    th: AdaptiveThresholds,
)
    requires
        steadier.len() >= 6,
        wilder.len() >= 6,
        mean(last_of(steadier, 6)) == mean(last_of(wilder, 6)),
        deviation(last_of(steadier, 6)) <= deviation(last_of(wilder, 6)),
    ensures
        telemetry_case(rules, snapshot, "in-match"@, wan_history, steadier, conn_history, th).score
            <= telemetry_case(
            rules,
            snapshot,
            "in-match"@,
            wan_history,
            wilder,
            conn_history,
            th,
        ).score,
{
    a_match_is_judged_by_its_reasons(rules, snapshot, wan_history, steadier, conn_history, th);
    a_match_is_judged_by_its_reasons(rules, snapshot, wan_history, wilder, conn_history, th);
}

/// In a match, a server whose last six latencies are the same and below 75 ms is judged as one of
/// which nothing is known.
pub proof fn steady_servers_add_nothing(
    rules: Seq<RoleRule>,
    snapshot: JsonView,
    wan_history: Seq<i64>,
    crit_history: Seq<i64>,
    latency: i64,
    conn_history: Seq<i64>,
    th: AdaptiveThresholds,
)
    requires
        crit_history.len() >= 6,
        forall|i: int|
            crit_history.len() - 6 <= i < crit_history.len() ==> #[trigger] crit_history[i]
                == latency,
        latency < 75_000_000,
        th.jitter_bad > 0,
    ensures
        telemetry_case(rules, snapshot, "in-match"@, wan_history, crit_history, conn_history, th)
            == telemetry_case(
            rules,
            snapshot,
            "in-match"@,
            wan_history,
            Seq::empty(),
            conn_history,
            th,
        ),
{
    reveal(lobby_case);
    let v = last_of(crit_history, 6);
    assert forall|i: int| 0 <= i < v.len() implies #[trigger] v[i] == latency by {
        assert(v[i] == crit_history[crit_history.len() - 6 + i]);
    }
    equal_values_do_not_deviate(v, latency);
}

/// Opinions are weighed by their scores: a lobby has the highest of the scores that were given,
/// and keeps the reasons of the telemetry in front.
pub proof fn the_highest_score_counts(
    rules: Seq<RoleRule>,
    snapshot: JsonView,
    phase: Seq<char>,
    wan_history: Seq<i64>,
    crit_history: Seq<i64>,
    conn_history: Seq<i64>,
    th: AdaptiveThresholds,
    adjust: Option<int>,
    notes: Option<Seq<Seq<char>>>,
    inbound: Option<FindingsView>,
    packets: Option<FindingsView>,
)
    ensures
        ({
            let alone = telemetry_case(
                rules,
                snapshot,
                phase,
                wan_history,
                crit_history,
                conn_history,
                th,
            );
            let all = lobby_case(
                rules,
                snapshot,
                phase,
                wan_history,
                crit_history,
                conn_history,
                th,
                adjust,
                notes,
                inbound,
                packets,
            );
            &&& all.score >= alone.score
            &&& adjust is Some ==> all.score >= adjust->0
            &&& inbound is Some ==> all.score >= inbound->0.score
            &&& packets is Some ==> all.score >= packets->0.score
            &&& all.score == alone.score || adjust == Some(all.score) || (inbound is Some
                && inbound->0.score == all.score) || (packets is Some && packets->0.score
                == all.score)
            &&& alone.alerts.is_prefix_of(all.alerts)
        }),
{
    reveal(lobby_case);
    let alone = telemetry_case(
        rules,
        snapshot,
        phase,
        wan_history,
        crit_history,
        conn_history,
        th,
    );
    let l = learned_argued(alone, adjust, notes);
    let m = other_argued(l, inbound);
    if inbound is Some {
        lemma_with_new(l.alerts, inbound->0.alerts, 4);
    }
    if packets is Some {
        lemma_with_new(m.alerts, packets->0.alerts, 4);
    }
    let all = other_argued(m, packets).alerts;
    let n = alone.alerts.len() as int;
    assert(l.alerts.subrange(0, n) =~= alone.alerts);
    assert(m.alerts.subrange(0, n) =~= alone.alerts) by {
        assert(m.alerts.subrange(0, l.alerts.len() as int) =~= l.alerts);
        assert(m.alerts.subrange(0, n) =~= l.alerts.subrange(0, n));
    }
    assert(all.subrange(0, n) =~= alone.alerts) by {
        assert(all.subrange(0, m.alerts.len() as int) =~= m.alerts);
        assert(all.subrange(0, n) =~= m.alerts.subrange(0, n));
    }
}

/// New reasons stand behind those that were there, each once.
pub(crate) proof fn lemma_with_new(reasons: Seq<Seq<char>>, more: Seq<Seq<char>>, n: nat)
    ensures
        reasons.is_prefix_of(with_new(reasons, more, n)),
        forall|i: int| 0 <= i < n && i < more.len() ==> with_new(reasons, more, n).contains(
            #[trigger] more[i],
        ),
        with_new(reasons, more, n).len() <= reasons.len() + n,
        forall|x: Seq<char>| #[trigger]
            with_new(reasons, more, n).contains(x) ==> reasons.contains(x) || more.contains(x),
    decreases n,
{
    if n > 0 {
        let before = with_new(reasons, more, (n - 1) as nat);
        let w = with_new(reasons, more, n);
        lemma_with_new(reasons, more, (n - 1) as nat);
        assert forall|x: Seq<char>| before.contains(x) implies #[trigger] w.contains(x) by {
            let k = choose|k: int| 0 <= k < before.len() && before[k] == x;
            assert(w[k] == x);
        }
        if n <= more.len() {
            if !before.contains(more[n - 1]) {
                assert(w[before.len() as int] == more[n - 1]);
            }
            assert(w.contains(more[n - 1]));
        }
        assert forall|i: int| 0 <= i < n && i < more.len() implies w.contains(
            #[trigger] more[i],
        ) by {
            if i < n - 1 {
                assert(before.contains(more[i]));
            }
        }
        assert forall|x: Seq<char>| #[trigger] w.contains(x) implies reasons.contains(x)
            || more.contains(x) by {
            if !before.contains(x) {
                let k = choose|k: int| 0 <= k < w.len() && w[k] == x;
                if k < before.len() {
                    assert(before[k] == x);
                }
                assert(x == more[n - 1]);
            }
        }
    }
}

/// A verdict is what its score stands for: likely from 0.48 on, possible from 0.22 on, clean below
/// 0.12, and in between possible only for the patterns of a bad pool. A clean lobby has one plain
/// reason, any other all the reasons of its case; and a possible one has 22 percent at least.
pub proof fn verdicts_follow_their_case(
    f: FindingsView,
    phase: Seq<char>,
    conns: int,
    roles: Seq<(Seq<char>, u64)>,
)
    ensures
        ({
            let (label, confidence, reasons) = verdict_on(f, phase, conns, roles);
            let noisy = phase == "in-match"@ && (conns >= 65 || count_in(roles, "telemetry"@) >= 1);
            let quiet = phase == "matchmaking"@ && count_in(roles, "xbox-live"@) >= 2 && 18 <= conns
                <= 45;
            &&& label == "LIKELY"@ <==> f.score >= 480_000
            &&& label == "POSSIBLE"@ <==> 220_000 <= f.score < 480_000 || (120_000 <= f.score
                < 220_000 && (noisy || quiet))
            &&& label == "CLEAN"@ <==> f.score < 120_000 || (f.score < 220_000 && !noisy && !quiet)
            &&& label == "CLEAN"@ ==> reasons == seq!["Telemetry matches normal Warzone pools"@]
            &&& label != "CLEAN"@ ==> f.alerts.is_prefix_of(reasons)
            &&& f.score >= 220_000 ==> reasons == f.alerts
            &&& label == "POSSIBLE"@ ==> confidence >= 22_000_000
            &&& 0 <= confidence <= 100_000_000
        }),
{
    reveal(verdict_on);
    reveal_strlit("LIKELY");
    reveal_strlit("POSSIBLE");
    reveal_strlit("CLEAN");
    assert("LIKELY"@.len() == 6 && "POSSIBLE"@.len() == 8 && "CLEAN"@.len() == 5);
    lemma_ticks(clamped(f.score, 0, ONE as int), 1000);
}

/// A confidence is the score as a percentage, to the tenth that is nearest; only a possible lobby
/// that would stand below 22 percent is shown with 24.
pub proof fn confidence_is_the_score(
    f: FindingsView,
    phase: Seq<char>,
    conns: int,
    roles: Seq<(Seq<char>, u64)>,
)
    requires
        0 <= f.score <= ONE,
    ensures
        ({
            let (label, confidence, reasons) = verdict_on(f, phase, conns, roles);
            ||| f.score * 100 - 50_001 <= confidence <= f.score * 100 + 50_001
            ||| label == "POSSIBLE"@ && f.score < 220_000 && confidence == 24_000_000
        }),
{
    reveal(verdict_on);
    ticks_are_near(f.score, 1000);
}

/// How much slower the queue is than the line: the latency of one of its servers, and of none a
/// higher one.
pub proof fn the_slowest_server_counts(rules: Seq<RoleRule>, snapshot: JsonView)
    ensures
        queue_delta(rules, snapshot) matches Some(d) ==> {
            let all = endpoints(rules, snapshot);
            &&& wan_latency(snapshot) is Some
            &&& exists|i: int|
                0 <= i < all.len() && is_queue_role((#[trigger] all[i]).0) && all[i].1 == Some(
                    d + wan_latency(snapshot)->0,
                )
            &&& forall|i: int|
                0 <= i < all.len() && is_queue_role((#[trigger] all[i]).0) && all[i].1 is Some
                    ==> all[i].1->0 <= d + wan_latency(snapshot)->0
        },
        queue_delta(rules, snapshot) is None ==> wan_latency(snapshot) is None || forall|i: int|
            0 <= i < endpoints(rules, snapshot).len() ==> !(is_queue_role(
                (#[trigger] endpoints(rules, snapshot)[i]).0,
            ) && endpoints(rules, snapshot)[i].1 is Some),
{
    lemma_worst(endpoints(rules, snapshot));
}

proof fn lemma_worst(all: Seq<(Seq<char>, Option<int>)>)
    ensures
        match worst_queue_latency(all) {
            Some(w) => {
                &&& exists|i: int|
                    0 <= i < all.len() && is_queue_role((#[trigger] all[i]).0)
                        && all[i].1 == Some(w)
                &&& forall|i: int|
                    0 <= i < all.len() && is_queue_role((#[trigger] all[i]).0) && all[i].1 is Some
                        ==> all[i].1->0 <= w
            },
            None => forall|i: int|
                0 <= i < all.len() ==> !(is_queue_role((#[trigger] all[i]).0) && all[i].1 is Some),
        },
    decreases all.len(),
{
    if all.len() > 0 {
        let u = all.drop_last();
        lemma_worst(u);
        let e = all.last();
        assert(all[all.len() - 1] == e);
        assert forall|i: int| 0 <= i < all.len() - 1 implies #[trigger] all[i] == u[i] by {}
        let w = worst_queue_latency(all);
        if e.1 is Some && is_queue_role(e.0) && w == e.1 {
            assert(all[all.len() - 1].1 == w);
        } else if w is Some {
            let k = choose|i: int|
                0 <= i < u.len() && is_queue_role((#[trigger] u[i]).0) && u[i].1 == Some(w->0);
            assert(all[k] == u[k]);
        }
    }
}

/// The servers of the queue: those of the matchmaking, of the game and of the region probes.
pub proof fn queue_roles_are_known(role: Seq<char>)
    ensures
        is_queue_role("matchmaking"@) && is_queue_role("warzone-game"@) && is_queue_role(
            "azure-qos"@,
        ),
        is_queue_role(role) ==> role == "matchmaking"@ || role == "warzone-game"@ || role
            == "azure-qos"@,
{
}

/// A peak is one of the values, and none is higher.
pub proof fn peaks_are_highest(v: Seq<i64>)
    requires
        v.len() > 0,
    ensures
        exists|i: int| 0 <= i < v.len() && #[trigger] v[i] == peak(v),
        forall|i: int| 0 <= i < v.len() ==> #[trigger] v[i] <= peak(v),
    decreases v.len(),
{
    if v.len() > 1 {
        let u = v.drop_last();
        peaks_are_highest(u);
        let k = choose|i: int| 0 <= i < u.len() && #[trigger] u[i] == peak(u);
        assert(v[k] == u[k]);
        assert(v[v.len() - 1] == v.last());
        assert forall|i: int| 0 <= i < v.len() implies #[trigger] v[i] <= peak(v) by {
            if i < u.len() {
                assert(u[i] == v[i]);
            }
        }
    } else {
        assert(v[0] == peak(v));
    }
}

/// The lobby is called a cheater lobby exactly where it is likely or the user said so, and clean
/// exactly where it is neither that nor possible.
pub proof fn answers_follow_labels(label: Seq<char>, confidence: int)
    ensures
        ({
            let (word, headline, plain) = answer_words(label, confidence);
            &&& word == "yes"@ <==> label == "LIKELY"@ || label == "USER_BAD"@
            &&& word == "maybe"@ <==> label == "POSSIBLE"@
            &&& word == "no"@ <==> label != "LIKELY"@ && label != "USER_BAD"@ && label
                != "POSSIBLE"@
            &&& headline == "CHEATER LOBBY"@ <==> word == "yes"@
            &&& headline == "POSSIBLE CHEATER LOBBY"@ <==> word == "maybe"@
            &&& headline == "CLEAN LOBBY"@ <==> word == "no"@
        }),
{
    reveal_strlit("yes");
    reveal_strlit("maybe");
    reveal_strlit("no");
    reveal_strlit("LIKELY");
    reveal_strlit("POSSIBLE");
    reveal_strlit("USER_BAD");
    reveal_strlit("CHEATER LOBBY");
    reveal_strlit("POSSIBLE CHEATER LOBBY");
    reveal_strlit("CLEAN LOBBY");
    assert("yes"@.len() == 3 && "maybe"@.len() == 5 && "no"@.len() == 2 && "CHEATER LOBBY"@.len()
        == 13 && "POSSIBLE CHEATER LOBBY"@.len() == 22 && "CLEAN LOBBY"@.len() == 11);
    assert("POSSIBLE"@[0] == 'P' && "LIKELY"@[0] == 'L' && "USER_BAD"@[0] == 'U');
}

/// What is stated of a lobby is taken as it is, and what is not stated is as harmless as can be: no
/// phase is idle, no label is clean.
pub proof fn nothing_stated_is_harmless(snapshot: JsonView, lobby: JsonView)
    ensures
        snapshot.field_in("_enriched"@, "phase"@) is None ==> stated_phase(snapshot) == "idle"@,
        snapshot.field_in("_enriched"@, "phase"@) matches Some(JsonView::Str(s)) ==> stated_phase(
            snapshot,
        ) == s,
        lobby.field("label"@) is None ==> answer_label(lobby) == "CLEAN"@,
        lobby.field("label"@) matches Some(JsonView::Str(s)) ==> answer_label(lobby) == s,
{
}

/// A stated role counts under its number, unless it is unknown, in the order in which they stand.
pub proof fn stated_roles_are_numbered(
    stated: Seq<(Seq<char>, JsonView)>,
    role: Seq<char>,
    n: u64,
)
    ensures
        role == "unknown"@ ==> numbered_roles(stated.push((role, JsonView::UInt(n))))
            == numbered_roles(stated),
        role != "unknown"@ && n < 0x1_0000 ==> numbered_roles(
            stated.push((role, JsonView::UInt(n))),
        ) == numbered_roles(stated).push((role_number(role), n as u16)),
{
    let x = (role, JsonView::UInt(n));
    assert(stated.push(x).drop_last() =~= stated);
}

/// The texts that are shown are the first ones, as many as are wanted, and no other kind of value.
pub proof fn first_texts_are_texts(items: Seq<JsonView>, x: JsonView, n: nat)
    ensures
        first_texts(items, n).len() <= n,
        x is Str && first_texts(items, n).len() < n ==> first_texts(items.push(x), n)
            == first_texts(items, n).push(x->Str_0),
        !(x is Str) || first_texts(items, n).len() == n ==> first_texts(items.push(x), n)
            == first_texts(items, n),
    decreases items.len(),
{
    assert(items.push(x).drop_last() =~= items);
    if items.len() > 0 {
        first_texts_are_texts(items.drop_last(), items.last(), n);
        assert(items.drop_last().push(items.last()) =~= items);
    }
}

/// Each endpoint counts once for its role, unless that is unknown; a stated count adds to it.
pub proof fn endpoints_count_for_their_role(
    items: Seq<(Seq<char>, Option<int>)>,
    x: (Seq<char>, Option<int>),
    start: Seq<(Seq<char>, u64)>,
    stated: Seq<(Seq<char>, JsonView)>,
    n: u64,
    other: Seq<char>,
)
    requires
        count_in(endpoint_roles(items), x.0) < u64::MAX,
        n < 0x1_0000_0000,
        count_in(with_stated_roles(start, stated), x.0) + n <= u64::MAX,
    ensures
        ({
            let a = endpoint_roles(items);
            let b = endpoint_roles(items.push(x));
            let c = with_stated_roles(start, stated);
            let d = with_stated_roles(start, stated.push((x.0, JsonView::UInt(n))));
            &&& x.0 == "unknown"@ ==> b == a && d == c
            &&& x.0 != "unknown"@ ==> count_in(b, x.0) == count_in(a, x.0) + 1 && count_in(d, x.0)
                == count_in(c, x.0) + n
            &&& other != x.0 ==> count_in(b, other) == count_in(a, other) && count_in(d, other)
                == count_in(c, other)
        }),
{
    assert(items.push(x).drop_last() =~= items);
    lemma_counted(endpoint_roles(items), x.0, other);
    let e = (x.0, JsonView::UInt(n));
    assert(stated.push(e).drop_last() =~= stated);
    lemma_added_count(with_stated_roles(start, stated), x.0, n, other);
}

/// The endpoints of a list are those of its items, in their order; a connection and a destination
/// always count, a flow where it names a host or an address.
pub proof fn items_are_endpoints(
    rules: Seq<RoleRule>,
    list: EndpointList,
    items: Seq<JsonView>,
    x: JsonView,
)
    ensures
        ({
            let e = listed_endpoint(rules, list, x);
            let (role, latency) = e->0;
            let a = listed_endpoints(rules, list, items);
            let b = listed_endpoints(rules, list, items.push(x));
            let named = text_or_empty(first_field3(x, "hostname"@, "host"@, "label"@)).len() > 0
                || text_or_empty(x.field("remote"@)).len() > 0;
            &&& e is None ==> b == a
            &&& e is Some ==> b == a.push(e->0) && latency == number(x.field("latencyMs"@))
            &&& e is None <==> list == EndpointList::Flows && !named
            &&& list == EndpointList::Connections ==> role == carried_role(rules, x)
            &&& list == EndpointList::Destinations ==> (x.field("roleId"@) matches Some(
                JsonView::Str(s),
            ) ==> role == s)
        }),
{
    assert(items.push(x).drop_last() =~= items);
}

} // verus!
