//! The session on the network: its phase, its risk, and when to speak up.
use vstd::prelude::*;

use crate::cheater_lobby::{stated_roles, with_stated_roles};
use crate::counts::{count_in, occurrences, tally_counts_occurrences, tally_of, Tally};
use crate::enrich::{first_field2, first_field3, get3, RoleRule};
use crate::fixed::{
    deviation, divide, larger, last_of, lemma_quotient, max_i64, mean, mean_and_deviation, smaller,
    sum, within_limit, LIMIT,
};
use crate::game_state::GameStateStore;
use crate::json::{
    array_of, entry_views, items_or_empty, json_views, lemma_obj_view, number, opt_view, or_else,
    real_of, str_or_empty, text_or_empty, Json, JsonView,
};
use crate::learning::{newest_is_kept, one_more_u32, plus_one_u32, push_sample, pushed};
use crate::snapshot::{
    conn_total, connections, gaming, is_gaming, lemma_phase_words, wan_latency, wan_latency_of,
};
use crate::text::{contains, has_text, lower, lowercase, same};
use crate::traffic::{carried_roles, role_carried};

verus! {

/// How many measurements of a kind the scorer keeps.
pub const MAX_HISTORY: usize = 120;

/// The state of the session. Latencies and times are in millionths.
pub struct NetworkSessionScorer {
    wan_history: Vec<i64>,
    crit_history: Vec<i64>,
    conn_history: Vec<i64>,
    last_phase: String,
    last_verdict_label: String,
    last_alert_at: i64,
    last_alert_label: String,
    gaming_session: bool,
    session_peak_conns: i64,
    low_activity_polls: u8,
    lobby_exited: bool,
    saw_warzone_game: bool,
    in_match_polls: u32,
    conn_decline_polls: u8,
    manual_in_match: bool,
    score_history: Vec<i64>,
    last_kick_handled_at: i64,
}

#[verifier::ext_equal]
pub struct ScorerView {
    pub wan_history: Seq<i64>,
    pub crit_history: Seq<i64>,
    pub conn_history: Seq<i64>,
    pub last_phase: Seq<char>,
    pub last_verdict_label: Seq<char>,
    pub last_alert_at: i64,
    pub last_alert_label: Seq<char>,
    pub gaming_session: bool,
    pub session_peak_conns: i64,
    pub low_activity_polls: u8,
    pub lobby_exited: bool,
    pub saw_warzone_game: bool,
    pub in_match_polls: u32,
    pub conn_decline_polls: u8,
    pub manual_in_match: bool,
    pub score_history: Seq<i64>,
    pub last_kick_handled_at: i64,
}

impl View for NetworkSessionScorer {
    type V = ScorerView;

    closed spec fn view(&self) -> ScorerView {
        ScorerView {
            wan_history: self.wan_history@,
            crit_history: self.crit_history@,
            conn_history: self.conn_history@,
            last_phase: self.last_phase@,
            last_verdict_label: self.last_verdict_label@,
            last_alert_at: self.last_alert_at,
            last_alert_label: self.last_alert_label@,
            gaming_session: self.gaming_session,
            session_peak_conns: self.session_peak_conns,
            low_activity_polls: self.low_activity_polls,
            lobby_exited: self.lobby_exited,
            saw_warzone_game: self.saw_warzone_game,
            in_match_polls: self.in_match_polls,
            conn_decline_polls: self.conn_decline_polls,
            manual_in_match: self.manual_in_match,
            score_history: self.score_history@,
            last_kick_handled_at: self.last_kick_handled_at,
        }
    }
}

impl ScorerView {
    /// No history is longer than it may be, and all latencies are in the range that is kept.
    pub open spec fn wf(self) -> bool {
        &&& self.wan_history.len() <= MAX_HISTORY
        &&& self.crit_history.len() <= MAX_HISTORY
        &&& self.conn_history.len() <= MAX_HISTORY
        &&& self.score_history.len() <= MAX_SCORES
        &&& within_limit(self.wan_history)
        &&& within_limit(self.crit_history)
        &&& percentages(self.score_history)
    }
}

/// Percentages in millionths.
pub open spec fn percentages(v: Seq<i64>) -> bool {
    forall|i: int| 0 <= i < v.len() ==> 0 <= #[trigger] v[i] <= 100_000_000
}

/// How many scores the scorer keeps.
pub const MAX_SCORES: usize = 48;

// ---------------------------------------------------------------------------------------------
// Tracking

pub open spec fn is_critical(item: JsonView) -> bool {
    match item.field("tier"@) {
        Some(t) => t.text() == Some("critical"@),
        None => false,
    }
}

/// The latencies of the items that are critical.
pub open spec fn critical_in(items: Seq<JsonView>) -> Seq<i64>
    decreases items.len(),
{
    if items.len() == 0 {
        Seq::empty()
    } else {
        let before = critical_in(items.drop_last());
        let latency = number(items.last().field("latencyMs"@));
        if is_critical(items.last()) && latency is Some {
            before.push(latency->0 as i64)
        } else {
            before
        }
    }
}

/// The latencies of all critical connections and destinations.
pub open spec fn critical(snapshot: JsonView) -> Seq<i64> {
    critical_in(items_or_empty(snapshot.field_in("connections"@, "items"@))) + critical_in(
        items_or_empty(snapshot.field("destinations"@)),
    )
}

fn push_critical(items: Option<&Json>, out: &mut Vec<i64>)
    requires
        within_limit(old(out)@),
    ensures
        final(out)@ == old(out)@ + critical_in(items_or_empty(opt_view(items))),
        within_limit(final(out)@),
{
    if let Some(v) = array_of(items) {
        let mut i: usize = 0;
        assert(out@ =~= old(out)@ + critical_in(json_views(v@).take(0)));
        while i < v.len()
            invariant
                i <= v.len(),
                out@ == old(out)@ + critical_in(json_views(v@).take(i as int)),
                within_limit(out@),
            decreases v.len() - i,
        {
            proof {
                let t = json_views(v@).take(i + 1);
                assert(t.drop_last() =~= json_views(v@).take(i as int));
                assert(t.last() == v@[i as int]@);
            }
            let crit = match v[i].get("tier") {
                Some(t) => match t.as_str() {
                    Some(s) => same(s, "critical"),
                    None => false,
                },
                None => false,
            };
            if crit {
                if let Some(n) = real_of(v[i].get("latencyMs")) {
                    out.push(n);
                }
            }
            assert(out@ =~= old(out)@ + critical_in(json_views(v@).take(i + 1)));
            i += 1;
        }
        assert(json_views(v@).take(i as int) =~= json_views(v@));
    } else {
        assert(out@ =~= old(out)@ + Seq::empty());
    }
}

/// The latencies of all critical connections and destinations.
pub fn critical_latencies(snapshot: &Json) -> (r: Vec<i64>)
    ensures
        r@ == critical(snapshot@),
        within_limit(r@),
{
    let mut out: Vec<i64> = Vec::new();
    push_critical(snapshot.get_in("connections", "items"), &mut out);
    push_critical(snapshot.get("destinations"), &mut out);
    assert(out@ =~= critical(snapshot@));
    out
}

fn mean_of(v: &Vec<i64>) -> (r: i64)
    requires
        within_limit(v@),
    ensures
        r == mean(v@),
        -LIMIT <= r <= LIMIT,
{
    if v.len() == 0 {
        return 0;
    }
    let mut a: i128 = 0;
    let mut i: usize = 0;
    while i < v.len()
        invariant
            i <= v.len(),
            within_limit(v@),
            a == sum(v@.take(i as int)),
            -(i * LIMIT) <= a <= i * LIMIT,
        decreases v.len() - i,
    {
        proof {
            let u = v@.take(i + 1);
            assert(u.drop_last() =~= v@.take(i as int));
            assert(u.last() == v@[i as int]);
        }
        a = a + v[i] as i128;
        i += 1;
    }
    assert(v@.take(i as int) =~= v@);
    let c: i128 = v.len() as i128;
    proof {
        assert(-LIMIT * c <= a <= LIMIT * c) by (nonlinear_arith)
            requires
                -(c * LIMIT) <= a <= c * LIMIT,
        ;
        lemma_quotient(a as int, c as int, -LIMIT as int, LIMIT as int);
    }
    divide(a, c) as i64
}

impl ScorerView {
    /// After the measurements of a snapshot.
    pub open spec fn measured(self, snapshot: JsonView) -> ScorerView {
        let c = critical(snapshot);
        ScorerView {
            wan_history: match wan_latency(snapshot) {
                Some(n) => pushed(self.wan_history, n as i64, MAX_HISTORY as nat),
                None => self.wan_history,
            },
            crit_history: if c.len() > 0 {
                pushed(self.crit_history, mean(c) as i64, MAX_HISTORY as nat)
            } else {
                self.crit_history
            },
            conn_history: pushed(
                self.conn_history,
                conn_total(snapshot) as i64,
                MAX_HISTORY as nat,
            ),
            ..self
        }
    }
}

// ---------------------------------------------------------------------------------------------
// Phase and game

/// What an advisor says of the phase.
pub open spec fn phase_info(insights: JsonView) -> Option<JsonView> {
    or_else(insights.field("sessionPhase"@), insights.field("phase"@))
}

pub open spec fn text_in(j: Option<JsonView>) -> Option<Seq<char>> {
    match j {
        Some(v) => v.text(),
        None => None,
    }
}

/// The phase that the advisor states, else that of the snapshot, else "idle".
pub open spec fn claimed_phase(snapshot: JsonView, insights: JsonView) -> Seq<char> {
    let advised = match phase_info(insights) {
        Some(p) => text_in(p.field("phase"@)),
        None => None,
    };
    match advised {
        Some(s) => s,
        None => match text_in(snapshot.field_in("_enriched"@, "phase"@)) {
            Some(s) => s,
            None => "idle"@,
        },
    }
}

pub open spec fn advised_game(insights: JsonView, key: Seq<char>) -> Option<Seq<char>> {
    match phase_info(insights) {
        Some(p) => text_in(p.field_in("game"@, key)),
        None => None,
    }
}

/// The host name belongs to the game.
pub open spec fn game_host(host: Seq<char>, flow: bool) -> bool {
    ||| has_text(host, "demonware"@)
    ||| has_text(host, "playfab"@)
    ||| has_text(host, "callofduty"@)
    ||| flow && has_text(host, "activision"@)
}

pub open spec fn item_host(item: JsonView, flow: bool) -> Seq<char> {
    lowercase(
        text_or_empty(
            if flow {
                first_field3(item, "hostname"@, "host"@, "label"@)
            } else {
                first_field2(item, "hostname"@, "label"@)
            },
        ),
    )
}

pub open spec fn any_game_host(items: Seq<JsonView>, flow: bool) -> bool {
    exists|i: int| 0 <= i < items.len() && game_host(item_host(#[trigger] items[i], flow), flow)
}

/// The game that the hosts of a snapshot point to.
pub open spec fn inferred_game(snapshot: JsonView) -> Seq<char> {
    if text_in(snapshot.field_in("_enriched"@, "game"@)) == Some("warzone"@) || any_game_host(
        items_or_empty(snapshot.field_in("connections"@, "items"@)),
        false,
    ) || any_game_host(items_or_empty(snapshot.field("recentFlows"@)), true) || any_game_host(
        items_or_empty(snapshot.field("recent_flows"@)),
        true,
    ) {
        "warzone"@
    } else {
        "unknown"@
    }
}

/// The game: the advisor's, else that of the snapshot, else the one that its hosts point to.
pub open spec fn claimed_game(snapshot: JsonView, insights: JsonView) -> Seq<char> {
    match advised_game(insights, "id"@) {
        Some(s) => s,
        None => match text_in(snapshot.field_in("_enriched"@, "game"@)) {
            Some(s) => s,
            None => inferred_game(snapshot),
        },
    }
}

pub open spec fn game_label(snapshot: JsonView, insights: JsonView) -> Seq<char> {
    match advised_game(insights, "label"@) {
        Some(s) => s,
        None => claimed_game(snapshot, insights),
    }
}

fn text_at<'a>(j: Option<&'a Json>) -> (r: Option<&'a str>)
    ensures
        match r {
            Some(s) => text_in(opt_view(j)) == Some(s@),
            None => text_in(opt_view(j)) is None,
        },
{
    match j {
        Some(v) => v.as_str(),
        None => None,
    }
}

fn phase_claim(snapshot: &Json, insights: &Json) -> (r: String)
    ensures
        r@ == claimed_phase(snapshot@, insights@),
{
    if let Some(p) = insights.get_either("sessionPhase", "phase") {
        if let Some(s) = text_at(p.get("phase")) {
            return s.to_owned();
        }
    }
    match text_at(snapshot.get_in("_enriched", "phase")) {
        Some(s) => s.to_owned(),
        None => "idle".to_owned(),
    }
}

fn has_game_host(items: Option<&Json>, flow: bool) -> (r: bool)
    ensures
        r == any_game_host(items_or_empty(opt_view(items)), flow),
{
    if let Some(v) = array_of(items) {
        let ghost all = json_views(v@);
        let mut i: usize = 0;
        while i < v.len()
            invariant
                i <= v.len(),
                all == json_views(v@),
                all == items_or_empty(opt_view(items)),
                forall|k: int| 0 <= k < i ==> !game_host(item_host(#[trigger] all[k], flow), flow),
            decreases v.len() - i,
        {
            assert(all[i as int] == v@[i as int]@);
            let name = if flow {
                str_or_empty(get3(&v[i], "hostname", "host", "label"))
            } else {
                str_or_empty(v[i].get_either("hostname", "label"))
            };
            let host = lower(name);
            let h = host.as_str();
            if contains(h, "demonware") || contains(h, "playfab") || contains(h, "callofduty") || (
            flow && contains(h, "activision")) {
                return true;
            }
            i += 1;
        }
        return false;
    }
    false
}

/// The game that the hosts of a snapshot point to.
pub fn infer_game(snapshot: &Json) -> (r: String)
    ensures
        r@ == inferred_game(snapshot@),
{
    if let Some(s) = text_at(snapshot.get_in("_enriched", "game")) {
        if same(s, "warzone") {
            return "warzone".to_owned();
        }
    }
    if has_game_host(snapshot.get_in("connections", "items"), false) || has_game_host(
        snapshot.get("recentFlows"),
        true,
    ) || has_game_host(snapshot.get("recent_flows"), true) {
        return "warzone".to_owned();
    }
    "unknown".to_owned()
}

fn game_claim(snapshot: &Json, insights: &Json) -> (r: (String, String))
    ensures
        r.0@ == claimed_game(snapshot@, insights@),
        r.1@ == game_label(snapshot@, insights@),
{
    let mut id: Option<String> = None;
    let mut label: Option<String> = None;
    if let Some(p) = insights.get_either("sessionPhase", "phase") {
        if let Some(s) = text_at(p.get_in("game", "id")) {
            id = Some(s.to_owned());
        }
        if let Some(s) = text_at(p.get_in("game", "label")) {
            label = Some(s.to_owned());
        }
    }
    let game = match id {
        Some(s) => s,
        None => match text_at(snapshot.get_in("_enriched", "game")) {
            Some(s) => s.to_owned(),
            None => infer_game(snapshot),
        },
    };
    let shown = match label {
        Some(s) => s,
        None => game.clone(),
    };
    (game, shown)
}

/// The snapshot states role counts.
pub open spec fn states_roles(snapshot: JsonView) -> bool {
    snapshot.field_in("_enriched"@, "roleCounts"@) is Some && snapshot.field_in(
        "_enriched"@,
        "roleCounts"@,
    )->0 is Obj
}

/// The roles of a session: those that the snapshot states, else those of its connections.
pub open spec fn session_roles(rules: Seq<RoleRule>, snapshot: JsonView) -> Seq<(Seq<char>, u64)> {
    if states_roles(snapshot) {
        with_stated_roles(Seq::empty(), stated_roles(snapshot))
    } else {
        tally_of(
            carried_roles(rules, items_or_empty(snapshot.field_in("connections"@, "items"@))),
        )
    }
}

/// The roles of a session.
pub fn role_counts(rules: &Vec<RoleRule>, snapshot: &Json) -> (r: Tally)
    ensures
        r@ == session_roles(rules@, snapshot@),
{
    let mut t = Tally::new();
    if let Some(c) = snapshot.get_in("_enriched", "roleCounts") {
        if let Json::Obj(v) = c {
            proof {
                lemma_obj_view(*v);
            }
            let mut k: usize = 0;
            while k < v.len()
                invariant
                    k <= v.len(),
                    t@ == with_stated_roles(Seq::empty(), entry_views(v@).take(k as int)),
                decreases v.len() - k,
            {
                proof {
                    let u = entry_views(v@).take(k + 1);
                    assert(u.drop_last() =~= entry_views(v@).take(k as int));
                    assert(u.last() == (v@[k as int].0@, v@[k as int].1@));
                }
                let e = &v[k];
                if !same(e.0.as_str(), "unknown") {
                    let n: u64 = match e.1.as_u64() {
                        Some(n) => n,
                        None => 0,
                    };
                    t.add_n(e.0.as_str(), n % 0x1_0000_0000);
                }
                k += 1;
            }
            assert(entry_views(v@).take(k as int) =~= entry_views(v@));
            return t;
        }
    }
    let items = snapshot.get_in("connections", "items");
    let ghost names = carried_roles(rules@, items_or_empty(opt_view(items)));
    match array_of(items) {
        Some(v) => {
            let mut i: usize = 0;
            while i < v.len()
                invariant
                    i <= v.len(),
                    names == carried_roles(rules@, json_views(v@)),
                    t@ == tally_of(names.take(i as int)),
                decreases v.len() - i,
            {
                let role = role_carried(rules, &v[i]);
                t.add(role.as_str());
                proof {
                    let n = names.take(i + 1);
                    assert(n.drop_last() =~= names.take(i as int));
                    assert(n.last() == role@);
                }
                i += 1;
            }
            assert(names.take(i as int) =~= names);
        },
        None => {
            assert(names =~= Seq::empty());
        },
    }
    t
}

pub open spec fn plus_one_u8(n: u8) -> u8 {
    if n < u8::MAX {
        (n + 1) as u8
    } else {
        n
    }
}

fn one_more_u8(n: u8) -> (r: u8)
    ensures
        r == plus_one_u8(n),
{
    if n < u8::MAX {
        n + 1
    } else {
        n
    }
}

/// Xbox Live alone is no matchmaking: nothing of the game is seen.
pub open spec fn home_screen(roles: Seq<(Seq<char>, u64)>) -> bool {
    &&& count_in(roles, "warzone-game"@) == 0
    &&& count_in(roles, "matchmaking"@) == 0
    &&& count_in(roles, "game-assets"@) == 0
    &&& count_in(roles, "telemetry"@) < 2
    &&& count_in(roles, "azure-qos"@) < 2
}

impl ScorerView {
    /// Counts what the phase is refined by: whether the game's servers were seen, and for how
    /// many polls the match is on.
    pub open spec fn noticed(self, phase: Seq<char>, roles: Seq<(Seq<char>, u64)>) -> ScorerView {
        ScorerView {
            saw_warzone_game: self.saw_warzone_game || count_in(roles, "warzone-game"@) > 0,
            in_match_polls: if phase == "in-match"@ {
                plus_one_u32(self.in_match_polls)
            } else {
                self.in_match_polls
            },
            ..self
        }
    }

    /// Counts the polls over which the connections fell by more than eight.
    pub open spec fn declined(self, conns: int) -> ScorerView {
        let n = self.conn_history.len();
        if n >= 2 {
            ScorerView {
                conn_decline_polls: if conns + 8 < self.conn_history[n - 2] {
                    plus_one_u8(self.conn_decline_polls)
                } else {
                    0
                },
                ..self
            }
        } else {
            self
        }
    }

    /// Counts the polls with little going on.
    pub open spec fn quieted(self, conns: int) -> ScorerView {
        ScorerView {
            low_activity_polls: if conns < 35 {
                plus_one_u8(self.low_activity_polls)
            } else {
                0
            },
            ..self
        }
    }

    /// The phase in the light of what was seen before, with the state after it. A session that
    /// was left stays over; a match is over once the game's servers are gone, the connections
    /// collapsed or little is going on.
    pub open spec fn refined(
        self,
        phase: Seq<char>,
        roles: Seq<(Seq<char>, u64)>,
        conns: int,
        persisted_peak: int,
    ) -> (ScorerView, Seq<char>) {
        let over = "post-match"@;
        let servers = count_in(roles, "warzone-game"@) > 0;
        let queue = count_in(roles, "matchmaking"@) > 0;
        let peak = larger(larger(self.session_peak_conns as int, conns), persisted_peak);
        let s1 = self.noticed(phase, roles);
        let s2 = s1.declined(conns);
        let s3 = s2.quieted(conns);
        if self.lobby_exited {
            (self, over)
        } else if !gaming(phase) {
            (self, phase)
        } else if phase == "matchmaking"@ && home_screen(roles) {
            (self, "background"@)
        } else if phase == "in-match"@ && s1.saw_warzone_game && !servers && s1.in_match_polls
            >= 3 {
            (s1, over)
        } else if self.conn_history.len() >= 2 && s2.conn_decline_polls >= 3 && peak >= 50 {
            (s2, over)
        } else if servers || queue {
            (s2, phase)
        } else if (peak >= 50 && conns < peak / 2) || (peak >= 80 && conns < 50) {
            (s2, over)
        } else if conns < 35 && s3.low_activity_polls >= 2 {
            (s3, over)
        } else {
            (s3, phase)
        }
    }

    /// A lobby or match keeps the session going; leaving one ends it.
    pub open spec fn entered(self, phase: Seq<char>, conns: i64) -> ScorerView {
        let s = if gaming(phase) {
            ScorerView {
                gaming_session: true,
                session_peak_conns: larger(self.session_peak_conns as int, conns as int) as i64,
                low_activity_polls: 0,
                lobby_exited: if phase == "matchmaking"@ {
                    false
                } else {
                    self.lobby_exited
                },
                ..self
            }
        } else if self.gaming_session && (phase == "background"@ || phase == "idle"@) && gaming(
            self.last_phase,
        ) {
            ScorerView {
                last_verdict_label: "CLEAN"@,
                gaming_session: false,
                session_peak_conns: 0,
                low_activity_polls: 0,
                in_match_polls: 0,
                conn_decline_polls: 0,
                ..self
            }
        } else {
            self
        };
        let s = if phase == "post-match"@ {
            ScorerView { lobby_exited: true, gaming_session: false, ..s }
        } else {
            s
        };
        ScorerView { last_phase: phase, ..s }
    }

    /// After the beginning of a poll, with the phase that it is in.
    pub open spec fn begun(
        self,
        snapshot: JsonView,
        insights: JsonView,
        roles: Seq<(Seq<char>, u64)>,
        persisted_peak: int,
    ) -> (ScorerView, Seq<char>) {
        let conns = conn_total(snapshot);
        let r = self.measured(snapshot).refined(
            claimed_phase(snapshot, insights),
            roles,
            conns,
            persisted_peak,
        );
        let phase = if r.0.manual_in_match && !r.0.lobby_exited {
            "in-match"@
        } else {
            r.1
        };
        (r.0.entered(phase, conns as i64), phase)
    }
}

/// What a poll is about.
#[derive(Clone, Copy, PartialEq, Eq, Structural)]
pub enum PollKind {
    /// Another game is on.
    Elsewhere,
    /// Nothing is on; the poll is only recorded.
    Resting,
    /// There is something to judge.
    Live,
}

pub open spec fn poll_kind(game: Seq<char>, phase: Seq<char>) -> PollKind {
    if game != "warzone"@ && game != "unknown"@ && phase != "in-match"@ {
        PollKind::Elsewhere
    } else if phase == "background"@ || phase == "idle"@ || phase == "post-match"@ {
        PollKind::Resting
    } else {
        PollKind::Live
    }
}

/// The beginning of a poll.
pub struct PollStart {
    pub kind: PollKind,
    pub phase: String,
    pub game: String,
    pub game_label: String,
}

impl NetworkSessionScorer {
    /// A scorer that has seen nothing.
    pub fn new() -> (r: NetworkSessionScorer)
        ensures
            r@ == (ScorerView {
                wan_history: Seq::empty(),
                crit_history: Seq::empty(),
                conn_history: Seq::empty(),
                last_phase: "idle"@,
                last_verdict_label: "CLEAN"@,
                last_alert_at: 0,
                last_alert_label: Seq::empty(),
                gaming_session: false,
                session_peak_conns: 0,
                low_activity_polls: 0,
                lobby_exited: false,
                saw_warzone_game: false,
                in_match_polls: 0,
                conn_decline_polls: 0,
                manual_in_match: false,
                score_history: Seq::empty(),
                last_kick_handled_at: 0,
            }),
            r@.wf(),
    {
        NetworkSessionScorer {
            wan_history: Vec::new(),
            crit_history: Vec::new(),
            conn_history: Vec::new(),
            last_phase: "idle".to_owned(),
            last_verdict_label: "CLEAN".to_owned(),
            last_alert_at: 0,
            last_alert_label: String::new(),
            gaming_session: false,
            session_peak_conns: 0,
            low_activity_polls: 0,
            lobby_exited: false,
            saw_warzone_game: false,
            in_match_polls: 0,
            conn_decline_polls: 0,
            manual_in_match: false,
            score_history: Vec::new(),
            last_kick_handled_at: 0,
        }
    }

    fn track(&mut self, snapshot: &Json)
        requires
            old(self)@.wf(),
        ensures
            final(self)@ == old(self)@.measured(snapshot@),
            final(self)@.wf(),
    {
        if let Some(n) = wan_latency_of(snapshot) {
            push_sample(&mut self.wan_history, n, MAX_HISTORY);
        }
        let crit = critical_latencies(snapshot);
        if crit.len() > 0 {
            push_sample(&mut self.crit_history, mean_of(&crit), MAX_HISTORY);
        }
        push_sample(&mut self.conn_history, connections(snapshot), MAX_HISTORY);
    }

    fn refine_phase(&mut self, phase: &str, roles: &Tally, conns: i64, persisted_peak: i64) -> (r:
        String)
        requires
            old(self)@.wf(),
        ensures
            (final(self)@, r@) == old(self)@.refined(
                phase@,
                roles@,
                conns as int,
                persisted_peak as int,
            ),
            final(self)@.wf(),
    {
        if self.lobby_exited {
            return "post-match".to_owned();
        }
        if !is_gaming(phase) {
            return phase.to_owned();
        }
        let servers: u64 = roles.count("warzone-game");
        let queue: u64 = roles.count("matchmaking");
        if same(phase, "matchmaking") && servers == 0 && queue == 0 && roles.count("game-assets")
            == 0 && roles.count("telemetry") < 2 && roles.count("azure-qos") < 2 {
            return "background".to_owned();
        }
        let peak: i64 = max_i64(max_i64(self.session_peak_conns, conns), persisted_peak);
        if servers > 0 {
            self.saw_warzone_game = true;
        }
        let in_match = same(phase, "in-match");
        if in_match {
            self.in_match_polls = one_more_u32(self.in_match_polls);
        }
        if in_match && self.saw_warzone_game && servers == 0 && self.in_match_polls >= 3 {
            return "post-match".to_owned();
        }
        if self.conn_history.len() >= 2 {
            let prev: i64 = self.conn_history[self.conn_history.len() - 2];
            if (conns as i128 + 8) < prev as i128 {
                self.conn_decline_polls = one_more_u8(self.conn_decline_polls);
            } else {
                self.conn_decline_polls = 0;
            }
            if self.conn_decline_polls >= 3 && peak >= 50 {
                return "post-match".to_owned();
            }
        }
        if servers == 0 && queue == 0 {
            if peak >= 50 && conns < peak / 2 {
                return "post-match".to_owned();
            }
            if peak >= 80 && conns < 50 {
                return "post-match".to_owned();
            }
            if conns < 35 {
                self.low_activity_polls = one_more_u8(self.low_activity_polls);
                if self.low_activity_polls >= 2 {
                    return "post-match".to_owned();
                }
            } else {
                self.low_activity_polls = 0;
            }
        }
        phase.to_owned()
    }

    fn enter(&mut self, phase: &str, conns: i64)
        requires
            old(self)@.wf(),
        ensures
            final(self)@ == old(self)@.entered(phase@, conns),
            final(self)@.wf(),
    {
        let was_gaming = is_gaming(self.last_phase.as_str());
        if is_gaming(phase) {
            self.gaming_session = true;
            self.session_peak_conns = max_i64(self.session_peak_conns, conns);
            self.low_activity_polls = 0;
            if same(phase, "matchmaking") {
                self.lobby_exited = false;
            }
        } else if self.gaming_session && (same(phase, "background") || same(phase, "idle"))
            && was_gaming {
            self.last_verdict_label = "CLEAN".to_owned();
            self.gaming_session = false;
            self.session_peak_conns = 0;
            self.low_activity_polls = 0;
            self.in_match_polls = 0;
            self.conn_decline_polls = 0;
        }
        if same(phase, "post-match") {
            self.lobby_exited = true;
            self.gaming_session = false;
        }
        self.last_phase = phase.to_owned();
    }

    /// Begins a poll: takes the measurements of the snapshot and settles the phase.
    /// `persisted_peak` is the peak of the session that the records hold.
    pub fn begin_poll(
        &mut self,
        rules: &Vec<RoleRule>,
        snapshot: &Json,
        insights: &Json,
        persisted_peak: i64,
    ) -> (r: PollStart)
        requires
            old(self)@.wf(),
        ensures
            (final(self)@, r.phase@) == old(self)@.begun(
                snapshot@,
                insights@,
                session_roles(rules@, snapshot@),
                persisted_peak as int,
            ),
            final(self)@.wf(),
            r.game@ == claimed_game(snapshot@, insights@),
            r.game_label@ == game_label(snapshot@, insights@),
            r.kind == poll_kind(r.game@, r.phase@),
    {
        let claim = phase_claim(snapshot, insights);
        let (game, game_label) = game_claim(snapshot, insights);
        self.track(snapshot);
        let roles = role_counts(rules, snapshot);
        let conns: i64 = connections(snapshot);
        let refined = self.refine_phase(claim.as_str(), &roles, conns, persisted_peak);
        let phase = if self.manual_in_match && !self.lobby_exited {
            "in-match".to_owned()
        } else {
            refined
        };
        self.enter(phase.as_str(), conns);
        let p = phase.as_str();
        let kind = if !same(game.as_str(), "warzone") && !same(game.as_str(), "unknown") && !same(
            p,
            "in-match",
        ) {
            PollKind::Elsewhere
        } else if same(p, "background") || same(p, "idle") || same(p, "post-match") {
            PollKind::Resting
        } else {
            PollKind::Live
        };
        PollStart { kind, phase, game, game_label }
    }

    /// Whether a kick was reported that was not handled yet; it counts as handled from now on.
    pub fn take_kick(&mut self, store: &GameStateStore, now: i64) -> (r: bool)
        ensures
            r == (store@.kicked_within(120_000_000, now) && old(self)@.last_kick_handled_at
                < store@.last_kick_at),
            final(self)@ == (ScorerView {
                last_kick_handled_at: if r {
                    store@.last_kick_at
                } else {
                    old(self)@.last_kick_handled_at
                },
                ..old(self)@
            }),
    {
        if store.recent_kick(120_000_000, now) && self.last_kick_handled_at < store.last_kick_at {
            self.last_kick_handled_at = store.last_kick_at;
            true
        } else {
            false
        }
    }

    /// The user left the lobby.
    pub fn mark_lobby_exit(&mut self)
        ensures
            final(self)@ == (ScorerView {
                lobby_exited: true,
                manual_in_match: false,
                gaming_session: false,
                last_verdict_label: "CLEAN"@,
                session_peak_conns: 0,
                in_match_polls: 0,
                conn_decline_polls: 0,
                low_activity_polls: 0,
                last_phase: "post-match"@,
                last_kick_handled_at: 0,
                ..old(self)@
            }),
    {
        self.lobby_exited = true;
        self.manual_in_match = false;
        self.gaming_session = false;
        self.last_verdict_label = "CLEAN".to_owned();
        self.session_peak_conns = 0;
        self.in_match_polls = 0;
        self.conn_decline_polls = 0;
        self.low_activity_polls = 0;
        self.last_phase = "post-match".to_owned();
        self.last_kick_handled_at = 0;
    }

    /// The user says that a match is on.
    pub fn mark_in_match(&mut self)
        ensures
            final(self)@ == (ScorerView {
                manual_in_match: true,
                lobby_exited: false,
                gaming_session: true,
                last_verdict_label: "CLEAN"@,
                last_phase: "in-match"@,
                in_match_polls: 0,
                conn_decline_polls: 0,
                low_activity_polls: 0,
                ..old(self)@
            }),
    {
        self.manual_in_match = true;
        self.lobby_exited = false;
        self.gaming_session = true;
        self.last_verdict_label = "CLEAN".to_owned();
        self.last_phase = "in-match".to_owned();
        self.in_match_polls = 0;
        self.conn_decline_polls = 0;
        self.low_activity_polls = 0;
    }
}

// ---------------------------------------------------------------------------------------------
// Alerts

/// Whether to send an alert, and why or why not.
#[derive(Clone, Copy)]
pub struct AlertDecision {
    pub send: bool,
    pub reason: &'static str,
}

/// How bad a verdict is.
pub open spec fn verdict_weight(label: Seq<char>) -> u8 {
    if label == "USER_BAD"@ || label == "LIKELY"@ {
        2
    } else if label == "POSSIBLE"@ {
        1
    } else {
        0
    }
}

/// How bad a verdict is.
pub fn verdict_rank(label: &str) -> (r: u8)
    ensures
        r == verdict_weight(label@),
{
    if same(label, "USER_BAD") || same(label, "LIKELY") {
        2
    } else if same(label, "POSSIBLE") {
        1
    } else {
        0
    }
}

/// How long a verdict stays silent after an alert.
pub open spec fn alert_cooldown(label: Seq<char>) -> int {
    if label == "LIKELY"@ || label == "USER_BAD"@ {
        45_000_000
    } else {
        90_000_000
    }
}

impl ScorerView {
    /// The verdict that an alert is held against: none after a new queue or match began.
    pub open spec fn previous_label(self, phase: Seq<char>) -> Seq<char> {
        if gaming(phase) && !gaming(self.last_phase) {
            "CLEAN"@
        } else {
            self.last_verdict_label
        }
    }

    /// The reason of the decision on an alert; the first line that applies decides.
    pub open spec fn alert_reason(self, phase: Seq<char>, label: Seq<char>, now: i64) -> Seq<char> {
        let prev = verdict_weight(self.previous_label(phase));
        let rank = verdict_weight(label);
        if self.lobby_exited {
            "left_lobby"@
        } else if !gaming(phase) {
            "idle"@
        } else if rank == 0 {
            "clean"@
        } else if prev == 0 {
            "auto_detect"@
        } else if rank > prev {
            "escalation"@
        } else if now - self.last_alert_at >= alert_cooldown(label) {
            "reminder"@
        } else {
            "cooldown"@
        }
    }

    pub open spec fn alert_sent(self, phase: Seq<char>, label: Seq<char>, now: i64) -> bool {
        let prev = verdict_weight(self.previous_label(phase));
        let rank = verdict_weight(label);
        &&& !self.lobby_exited
        &&& gaming(phase)
        &&& rank > 0
        &&& prev == 0 || rank > prev || now - self.last_alert_at >= alert_cooldown(label)
    }

    /// After the decision on an alert.
    pub open spec fn alerted(self, phase: Seq<char>, label: Seq<char>, now: i64) -> ScorerView {
        if self.lobby_exited {
            self
        } else {
            let sent = self.alert_sent(phase, label, now);
            ScorerView {
                last_phase: phase,
                last_verdict_label: label,
                last_alert_at: if sent {
                    now
                } else {
                    self.last_alert_at
                },
                last_alert_label: if sent {
                    label
                } else {
                    self.last_alert_label
                },
                ..self
            }
        }
    }
}

impl NetworkSessionScorer {
    /// Decides on an alert for the verdict `label` in `phase`: the first bad verdict of a session
    /// and every worse one is told at once, the same one again after a while.
    pub fn should_alert(&mut self, phase: &str, label: &str, now: i64) -> (r: AlertDecision)
        ensures
            final(self)@ == old(self)@.alerted(phase@, label@, now),
            r.send == old(self)@.alert_sent(phase@, label@, now),
            r.reason@ == old(self)@.alert_reason(phase@, label@, now),
    {
        if self.lobby_exited {
            return AlertDecision { send: false, reason: "left_lobby" };
        }
        if !same(self.last_phase.as_str(), phase) && is_gaming(phase) && !is_gaming(
            self.last_phase.as_str(),
        ) {
            self.last_verdict_label = "CLEAN".to_owned();
        }
        self.last_phase = phase.to_owned();
        if !is_gaming(phase) {
            self.last_verdict_label = label.to_owned();
            return AlertDecision { send: false, reason: "idle" };
        }
        let rank: u8 = verdict_rank(label);
        let prev: u8 = verdict_rank(self.last_verdict_label.as_str());
        proof {
            lemma_clean_weighs_nothing();
        }
        self.last_verdict_label = label.to_owned();
        if rank == 0 {
            return AlertDecision { send: false, reason: "clean" };
        }
        let escalated = rank > prev;
        let first_bad = prev == 0;
        let cooldown: i128 = if same(label, "LIKELY") || same(label, "USER_BAD") {
            45_000_000
        } else {
            90_000_000
        };
        if first_bad || escalated {
            self.last_alert_at = now;
            self.last_alert_label = label.to_owned();
            let reason = if escalated && !first_bad {
                "escalation"
            } else {
                "auto_detect"
            };
            return AlertDecision { send: true, reason };
        }
        if now as i128 - self.last_alert_at as i128 >= cooldown {
            self.last_alert_at = now;
            self.last_alert_label = label.to_owned();
            return AlertDecision { send: true, reason: "reminder" };
        }
        AlertDecision { send: false, reason: "cooldown" }
    }

    /// Time and verdict of the last alert.
    pub fn last_auto_alert(&self) -> (r: Option<(i64, &str)>)
        ensures
            match r {
                Some(a) => self@.last_alert_at > 0 && a.0 == self@.last_alert_at && a.1@
                    == self@.last_alert_label,
                None => self@.last_alert_at <= 0,
            },
    {
        if self.last_alert_at <= 0 {
            return None;
        }
        Some((self.last_alert_at, self.last_alert_label.as_str()))
    }

    pub fn wan_history(&self) -> (r: &Vec<i64>)
        ensures
            r@ == self@.wan_history,
    {
        &self.wan_history
    }

    pub fn crit_history(&self) -> (r: &Vec<i64>)
        ensures
            r@ == self@.crit_history,
    {
        &self.crit_history
    }

    pub fn conn_history(&self) -> (r: &Vec<i64>)
        ensures
            r@ == self@.conn_history,
    {
        &self.conn_history
    }

    pub fn score_history(&self) -> (r: &Vec<i64>)
        ensures
            r@ == self@.score_history,
    {
        &self.score_history
    }

    /// Records the score of a poll.
    pub(crate) fn push_score(&mut self, score: i64)
        requires
            old(self)@.wf(),
            0 <= score <= 100_000_000,
        ensures
            final(self)@ == (ScorerView {
                score_history: pushed(old(self)@.score_history, score, MAX_SCORES as nat),
                ..old(self)@
            }),
            final(self)@.wf(),
    {
        push_sample(&mut self.score_history, score, MAX_SCORES);
    }
}

proof fn lemma_clean_weighs_nothing()
    ensures
        verdict_weight("CLEAN"@) == 0,
{
    reveal_strlit("CLEAN");
    reveal_strlit("USER_BAD");
    reveal_strlit("LIKELY");
    reveal_strlit("POSSIBLE");
    assert("CLEAN"@.len() == 5);
}

/// What the dashboard shows of the session.
pub struct DashboardMeta {
    pub manual_in_match: bool,
    pub gaming_session: bool,
    pub lobby_exited: bool,
    pub session_peak_conns: i64,
    pub wan_latency_ms: Option<i64>,
    pub wan_jitter_ms: Option<i64>,
    pub server_latency_ms: Option<i64>,
    pub server_jitter_ms: Option<i64>,
    pub conn_count: Option<i64>,
    /// The last 24 measurements of each kind, newest first.
    pub wan_history: Vec<i64>,
    pub server_history: Vec<i64>,
    pub conn_history: Vec<i64>,
}

pub open spec fn newest(v: Seq<i64>) -> Option<i64> {
    if v.len() > 0 {
        Some(v.last())
    } else {
        None
    }
}

/// The deviation of the last eight measurements, once there are six.
pub open spec fn jitter(v: Seq<i64>) -> Option<i64> {
    if v.len() >= 6 {
        Some(deviation(last_of(v, 8)) as i64)
    } else {
        None
    }
}

pub open spec fn newest_24(v: Seq<i64>) -> Seq<i64> {
    last_of(v, 24).reverse()
}

fn newest_of(v: &Vec<i64>) -> (r: Option<i64>)
    ensures
        r == newest(v@),
{
    if v.len() > 0 {
        Some(v[v.len() - 1])
    } else {
        None
    }
}

pub(crate) fn jitter_of(v: &Vec<i64>) -> (r: Option<i64>)
    requires
        within_limit(v@),
    ensures
        r == jitter(v@),
{
    if v.len() >= 6 {
        let (_, d) = mean_and_deviation(v, 8);
        Some(d)
    } else {
        None
    }
}

fn newest_24_of(v: &Vec<i64>) -> (r: Vec<i64>)
    ensures
        r@ == newest_24(v@),
{
    let mut out: Vec<i64> = Vec::new();
    let n: usize = if v.len() < 24 {
        v.len()
    } else {
        24
    };
    let ghost want = newest_24(v@);
    assert(want.len() == n);
    let mut i: usize = 0;
    while i < n
        invariant
            i <= n <= v.len(),
            n == if v.len() < 24 {
                v.len()
            } else {
                24
            },
            want == newest_24(v@),
            want.len() == n,
            out@ == want.take(i as int),
        decreases n - i,
    {
        out.push(v[v.len() - 1 - i]);
        assert(want[i as int] == v@[v.len() - 1 - i]);
        assert(out@ =~= want.take(i + 1));
        i += 1;
    }
    assert(want.take(i as int) =~= want);
    out
}

impl NetworkSessionScorer {
    /// What the dashboard shows of the session.
    pub fn dashboard_meta(&self) -> (r: DashboardMeta)
        requires
            self@.wf(),
        ensures
            r.manual_in_match == self@.manual_in_match,
            r.gaming_session == self@.gaming_session,
            r.lobby_exited == self@.lobby_exited,
            r.session_peak_conns == self@.session_peak_conns,
            r.wan_latency_ms == newest(self@.wan_history),
            r.wan_jitter_ms == jitter(self@.wan_history),
            r.server_latency_ms == newest(self@.crit_history),
            r.server_jitter_ms == jitter(self@.crit_history),
            r.conn_count == newest(self@.conn_history),
            r.wan_history@ == newest_24(self@.wan_history),
            r.server_history@ == newest_24(self@.crit_history),
            r.conn_history@ == newest_24(self@.conn_history),
    {
        DashboardMeta {
            manual_in_match: self.manual_in_match,
            gaming_session: self.gaming_session,
            lobby_exited: self.lobby_exited,
            session_peak_conns: self.session_peak_conns,
            wan_latency_ms: newest_of(&self.wan_history),
            wan_jitter_ms: jitter_of(&self.wan_history),
            server_latency_ms: newest_of(&self.crit_history),
            server_jitter_ms: jitter_of(&self.crit_history),
            conn_count: newest_of(&self.conn_history),
            wan_history: newest_24_of(&self.wan_history),
            server_history: newest_24_of(&self.crit_history),
            conn_history: newest_24_of(&self.conn_history),
        }
    }
}

// ---------------------------------------------------------------------------------------------
// Laws

/// Once the lobby was left, every poll is in "post-match" until a match is declared or the state
/// is otherwise changed: what the snapshot or an advisor claims does not matter.
pub proof fn left_lobby_stays_left(
    s: ScorerView,
    snapshot: JsonView,
    insights: JsonView,
    roles: Seq<(Seq<char>, u64)>,
    peak: int,
)
    requires
        s.lobby_exited,
    ensures
        s.begun(snapshot, insights, roles, peak).1 == "post-match"@,
        s.begun(snapshot, insights, roles, peak).0.lobby_exited,
{
    reveal_strlit("post-match");
    reveal_strlit("matchmaking");
    reveal_strlit("in-match");
    assert("post-match"@.len() == 10);
    assert("matchmaking"@.len() == 11);
    assert("in-match"@.len() == 8);
}

/// After the user left the lobby no alert is sent, whatever the verdict.
pub proof fn left_lobby_is_silent(s: ScorerView, phase: Seq<char>, label: Seq<char>, now: i64)
    requires
        s.lobby_exited,
    ensures
        !s.alert_sent(phase, label, now),
        s.alerted(phase, label, now) == s,
{
}

/// A declared match is in "in-match" on every poll on which the lobby was not left.
pub proof fn declared_match_is_on(
    s: ScorerView,
    snapshot: JsonView,
    insights: JsonView,
    roles: Seq<(Seq<char>, u64)>,
    peak: int,
)
    requires
        s.manual_in_match,
        !s.lobby_exited,
    ensures
        s.begun(snapshot, insights, roles, peak).1 == "in-match"@,
        s.begun(snapshot, insights, roles, peak).0.manual_in_match,
        !s.begun(snapshot, insights, roles, peak).0.lobby_exited,
{
    reveal_strlit("post-match");
    reveal_strlit("in-match");
    assert("post-match"@.len() == 10);
    assert("in-match"@.len() == 8);
}

/// The same verdict again within its cooldown sends no second alert.
pub proof fn no_alert_within_cooldown(
    s: ScorerView,
    phase: Seq<char>,
    label: Seq<char>,
    t1: i64,
    t2: i64,
)
    requires
        s.alert_sent(phase, label, t1),
        t1 <= t2,
        t2 - t1 < alert_cooldown(label),
    ensures
        !s.alerted(phase, label, t1).alert_sent(phase, label, t2),
{
}

/// A verdict that is worse than the one before is told at once, within any cooldown.
pub proof fn worse_verdict_is_told(
    s: ScorerView,
    phase: Seq<char>,
    before: Seq<char>,
    label: Seq<char>,
    t1: i64,
    t2: i64,
)
    requires
        gaming(phase),
        !s.lobby_exited,
        verdict_weight(label) > verdict_weight(before),
    ensures
        s.alerted(phase, before, t1).alert_sent(phase, label, t2),
{
}

/// The connections that a session had at most: as recorded, as seen, and now.
pub open spec fn known_peak(s: ScorerView, conns: int, persisted_peak: int) -> int {
    larger(larger(s.session_peak_conns as int, conns), persisted_peak)
}

/// For how many polls in a row the connections fell by more than eight, this poll counted in.
pub open spec fn falling_polls(s: ScorerView, conns: int) -> int {
    if s.conn_history.len() == 0 {
        s.conn_decline_polls as int
    } else if conns + 8 < s.conn_history.last() {
        smaller(s.conn_decline_polls + 1, 255)
    } else {
        0
    }
}

proof fn lemma_measured(s: ScorerView, snapshot: JsonView)
    requires
        s.conn_history.len() <= MAX_HISTORY,
    ensures
        ({
            let m = s.measured(snapshot);
            let n = m.conn_history.len();
            &&& n >= 1
            &&& m.conn_history[n - 1] == conn_total(snapshot)
            &&& n >= 2 <==> s.conn_history.len() >= 1
            &&& n >= 2 ==> m.conn_history[n - 2] == s.conn_history.last()
        }),
{
    let x = conn_total(snapshot) as i64;
    let t = s.conn_history.push(x);
    let m = s.measured(snapshot).conn_history;
    assert(m == last_of(t, MAX_HISTORY as nat));
    if t.len() <= MAX_HISTORY {
        assert(m == t);
    } else {
        assert(m =~= t.skip(t.len() - MAX_HISTORY as int));
    }
}

/// A lobby or match that was not left is over at a poll for one of these reasons and no other: the
/// servers of a match were seen and are gone from its third poll on; the connections fell three
/// polls in a row; or nothing of the game is in sight, and the connections are below half of a
/// peak of fifty, below fifty after one of eighty, or below 35 for the second time.
#[verifier::spinoff_prover]
pub proof fn a_session_ends_for_a_reason(
    s: ScorerView,
    snapshot: JsonView,
    insights: JsonView,
    roles: Seq<(Seq<char>, u64)>,
    persisted_peak: int,
)
    requires
        s.conn_history.len() <= MAX_HISTORY,
        !s.lobby_exited,
        !s.manual_in_match,
        claimed_phase(snapshot, insights) == "in-match"@ || claimed_phase(snapshot, insights)
            == "matchmaking"@,
    ensures
        ({
            let claim = claimed_phase(snapshot, insights);
            let conns = conn_total(snapshot);
            let peak = known_peak(s, conns, persisted_peak);
            let servers = count_in(roles, "warzone-game"@);
            let sessions = count_in(roles, "matchmaking"@);
            let blind = servers == 0 && sessions == 0;
            let home = claim == "matchmaking"@ && blind && count_in(roles, "game-assets"@) == 0
                && count_in(roles, "telemetry"@) < 2 && count_in(roles, "azure-qos"@) < 2;
            let gone = claim == "in-match"@ && s.saw_warzone_game && servers == 0
                && s.in_match_polls >= 2;
            let fallen = s.conn_history.len() >= 1 && falling_polls(s, conns) >= 3 && peak >= 50;
            let collapsed = blind && ((peak >= 50 && 2 * conns + 2 <= peak) || (peak >= 80 && conns
                < 50));
            let quiet = blind && conns < 35 && s.low_activity_polls >= 1;
            let (after, phase) = s.begun(snapshot, insights, roles, persisted_peak);
            &&& phase == "background"@ <==> home
            &&& phase == "post-match"@ <==> !home && (gone || fallen || collapsed || quiet)
            &&& phase != "background"@ && phase != "post-match"@ ==> phase == claim
            &&& after.lobby_exited <==> phase == "post-match"@
        }),
{
    lemma_phase_words();
    lemma_measured(s, snapshot);
    let conns = conn_total(snapshot);
    let peak = known_peak(s, conns, persisted_peak);
    assert(peak >= conns);
    assert(peak >= 50 ==> (conns < peak / 2 <==> 2 * conns + 2 <= peak));
}

/// A match whose servers were never seen goes on while its connections are at their peak and have
/// not fallen.
pub proof fn a_match_at_its_peak_goes_on(
    s: ScorerView,
    snapshot: JsonView,
    insights: JsonView,
    roles: Seq<(Seq<char>, u64)>,
    persisted_peak: int,
)
    requires
        s.conn_history.len() <= MAX_HISTORY,
        !s.lobby_exited,
        claimed_phase(snapshot, insights) == "in-match"@,
        !s.saw_warzone_game,
        conn_total(snapshot) >= 50,
        conn_total(snapshot) >= s.session_peak_conns,
        conn_total(snapshot) >= persisted_peak,
        s.conn_history.len() == 0 || s.conn_history.last() <= conn_total(snapshot),
    ensures
        s.begun(snapshot, insights, roles, persisted_peak).1 == "in-match"@,
        !s.begun(snapshot, insights, roles, persisted_peak).0.lobby_exited,
        poll_kind("warzone"@, s.begun(snapshot, insights, roles, persisted_peak).1)
            == PollKind::Live,
{
    lemma_phase_words();
    if s.manual_in_match {
        declared_match_is_on(s, snapshot, insights, roles, persisted_peak);
    } else {
        a_session_ends_for_a_reason(s, snapshot, insights, roles, persisted_peak);
    }
}

/// Fewer connections never turn a session that is over back into one that goes on, all else
/// equal: where fifty were reached, they were reached before.
pub proof fn fewer_connections_never_revive_a_session(
    s: ScorerView,
    less: JsonView,
    more: JsonView,
    insights: JsonView,
    roles: Seq<(Seq<char>, u64)>,
    persisted_peak: int,
)
    requires
        s.conn_history.len() <= MAX_HISTORY,
        conn_total(less) <= conn_total(more),
        claimed_phase(less, insights) == claimed_phase(more, insights),
        s.session_peak_conns >= 50 || persisted_peak >= 50 || conn_total(more) < 50,
        s.begun(more, insights, roles, persisted_peak).1 == "post-match"@,
    ensures
        s.begun(less, insights, roles, persisted_peak).1 == "post-match"@,
        s.begun(less, insights, roles, persisted_peak).0.lobby_exited,
{
    lemma_phase_words();
    let claim = claimed_phase(more, insights);
    if s.lobby_exited {
        left_lobby_stays_left(s, less, insights, roles, persisted_peak);
    } else if s.manual_in_match {
        declared_match_is_on(s, more, insights, roles, persisted_peak);
    } else if claim == "in-match"@ || claim == "matchmaking"@ {
        a_session_ends_for_a_reason(s, more, insights, roles, persisted_peak);
        a_session_ends_for_a_reason(s, less, insights, roles, persisted_peak);
    }
}

/// What a snapshot or an advisor claims other than a lobby or match stands, unless the lobby was
/// left or a match is declared.
pub proof fn other_phases_stand(
    s: ScorerView,
    snapshot: JsonView,
    insights: JsonView,
    roles: Seq<(Seq<char>, u64)>,
    persisted_peak: int,
)
    requires
        !s.lobby_exited,
        !s.manual_in_match,
        claimed_phase(snapshot, insights) != "in-match"@,
        claimed_phase(snapshot, insights) != "matchmaking"@,
    ensures
        s.begun(snapshot, insights, roles, persisted_peak).1 == claimed_phase(snapshot, insights),
{
    lemma_phase_words();
}

/// While a lobby or match is on, the session knows the most connections that it had; a session
/// that goes back to the home screen forgets them, and the verdict with them.
pub proof fn sessions_know_their_peak(
    s: ScorerView,
    snapshot: JsonView,
    insights: JsonView,
    roles: Seq<(Seq<char>, u64)>,
    persisted_peak: int,
)
    ensures
        ({
            let (after, phase) = s.begun(snapshot, insights, roles, persisted_peak);
            let on = phase == "in-match"@ || phase == "matchmaking"@;
            &&& after.last_phase == phase
            &&& on ==> after.gaming_session && after.session_peak_conns >= conn_total(snapshot)
                && after.session_peak_conns >= s.session_peak_conns && (after.session_peak_conns
                == conn_total(snapshot) || after.session_peak_conns == s.session_peak_conns)
            &&& (phase == "background"@ || phase == "idle"@) && s.gaming_session && (s.last_phase
                == "in-match"@ || s.last_phase == "matchmaking"@) ==> !after.gaming_session
                && after.session_peak_conns == 0 && after.last_verdict_label == "CLEAN"@
            &&& phase == "post-match"@ ==> !after.gaming_session && after.lobby_exited
        }),
{
    lemma_phase_words();
}

/// What a poll is about: a match is always judged; another game is left alone outside of one; and
/// a game that is not played rests.
pub proof fn polls_are_of_three_kinds(game: Seq<char>, phase: Seq<char>)
    ensures
        phase == "in-match"@ ==> poll_kind(game, phase) == PollKind::Live,
        phase != "in-match"@ ==> (poll_kind(game, phase) == PollKind::Elsewhere <==> game
            != "warzone"@ && game != "unknown"@),
        game == "warzone"@ || game == "unknown"@ ==> (poll_kind(game, phase) == PollKind::Resting
            <==> phase == "background"@ || phase == "idle"@ || phase == "post-match"@),
        game == "warzone"@ && phase == "matchmaking"@ ==> poll_kind(game, phase) == PollKind::Live,
{
    lemma_phase_words();
}

/// Verdicts are ranked: a likely lobby and one that the user called bad above a possible one, and
/// that above all others.
pub proof fn verdicts_are_ranked(label: Seq<char>)
    ensures
        verdict_weight("LIKELY"@) == verdict_weight("USER_BAD"@),
        verdict_weight("LIKELY"@) > verdict_weight("POSSIBLE"@) > verdict_weight("CLEAN"@),
        label != "LIKELY"@ && label != "USER_BAD"@ && label != "POSSIBLE"@ ==> verdict_weight(label)
            == verdict_weight("CLEAN"@),
        alert_cooldown("LIKELY"@) < alert_cooldown("POSSIBLE"@),
{
    reveal_strlit("LIKELY");
    reveal_strlit("POSSIBLE");
    reveal_strlit("CLEAN");
    reveal_strlit("USER_BAD");
    assert("LIKELY"@.len() == 6 && "POSSIBLE"@.len() == 8 && "CLEAN"@.len() == 5);
    assert("POSSIBLE"@[0] == 'P' && "USER_BAD"@[0] == 'U');
}

/// Nobody is told of a clean lobby, nor of any outside queue and match; the first bad verdict of a
/// session is told; and a verdict that stays is told again once its cooldown is over: 45 seconds
/// for a likely lobby, 90 for a possible one.
pub proof fn bad_verdicts_are_told(s: ScorerView, phase: Seq<char>, label: Seq<char>, now: i64)
    ensures
        s.alert_sent(phase, label, now) ==> (phase == "in-match"@ || phase == "matchmaking"@) && (
        label == "LIKELY"@ || label == "USER_BAD"@ || label == "POSSIBLE"@),
        ({
            let on = !s.lobby_exited && (phase == "in-match"@ || phase == "matchmaking"@);
            let fresh = s.last_phase != "in-match"@ && s.last_phase != "matchmaking"@;
            let wait: int = if label == "POSSIBLE"@ {
                90_000_000
            } else {
                45_000_000
            };
            &&& on && (label == "LIKELY"@ || label == "USER_BAD"@ || label == "POSSIBLE"@) && (fresh
                || s.last_verdict_label == "CLEAN"@ || now - s.last_alert_at >= wait)
                ==> s.alert_sent(phase, label, now)
            &&& s.alert_sent(phase, label, now) ==> s.alerted(phase, label, now).last_alert_at
                == now
            &&& !s.alert_sent(phase, label, now) ==> s.alerted(phase, label, now).last_alert_at
                == s.last_alert_at
        }),
{
    verdicts_are_ranked(label);
    reveal_strlit("LIKELY");
    reveal_strlit("POSSIBLE");
    reveal_strlit("CLEAN");
    reveal_strlit("USER_BAD");
    assert("LIKELY"@.len() == 6 && "POSSIBLE"@.len() == 8 && "CLEAN"@.len() == 5);
    assert("POSSIBLE"@[0] == 'P' && "USER_BAD"@[0] == 'U');
}

/// A host is the game's where its name holds one of three words, and for a flow a fourth.
pub proof fn game_hosts_are_named(host: Seq<char>)
    ensures
        has_text(host, "demonware"@) || has_text(host, "playfab"@) || has_text(host, "callofduty"@)
            ==> game_host(host, true) && game_host(host, false),
        has_text(host, "activision"@) ==> game_host(host, true),
        game_host(host, false) ==> game_host(host, true),
        game_host(host, false) ==> has_text(host, "demonware"@) || has_text(host, "playfab"@)
            || has_text(host, "callofduty"@),
        game_host(host, true) && !game_host(host, false) ==> has_text(host, "activision"@),
{
}

/// The game is the one that is advised, else the one that is stated, else the one that the hosts
/// of connections and flows tell of; its label is the advised one, else its name.
pub proof fn games_are_told_in_order(snapshot: JsonView, insights: JsonView, i: int)
    ensures
        ({
            let stated = text_in(snapshot.field_in("_enriched"@, "game"@));
            let items = items_or_empty(snapshot.field_in("connections"@, "items"@));
            let flows = items_or_empty(snapshot.field("recentFlows"@));
            let id = advised_game(insights, "id"@);
            let label = advised_game(insights, "label"@);
            &&& id is Some ==> claimed_game(snapshot, insights) == id->0
            &&& id is None && stated is Some ==> claimed_game(snapshot, insights) == stated->0
            &&& id is None && stated is None ==> claimed_game(snapshot, insights) == inferred_game(
                snapshot,
            )
            &&& label is Some ==> game_label(snapshot, insights) == label->0
            &&& label is None ==> game_label(snapshot, insights) == claimed_game(
                snapshot,
                insights,
            )
            &&& stated == Some("warzone"@) ==> inferred_game(snapshot) == "warzone"@
            &&& 0 <= i < items.len() && game_host(item_host(items[i], false), false)
                ==> inferred_game(snapshot) == "warzone"@
            &&& 0 <= i < flows.len() && game_host(item_host(flows[i], true), true)
                ==> inferred_game(snapshot) == "warzone"@
            &&& inferred_game(snapshot) == "warzone"@ || inferred_game(snapshot) == "unknown"@
        }),
{
    let items = items_or_empty(snapshot.field_in("connections"@, "items"@));
    let flows = items_or_empty(snapshot.field("recentFlows"@));
    if 0 <= i < items.len() && game_host(item_host(items[i], false), false) {
        assert(any_game_host(items, false));
    }
    if 0 <= i < flows.len() && game_host(item_host(flows[i], true), true) {
        assert(any_game_host(flows, true));
    }
}

/// Why an alert is sent or not: nothing is after the lobby was left, outside of play, and for a
/// clean lobby; the first bad verdict is, one that got worse is, and one that stays bad is again
/// after its pause.
pub proof fn alerts_have_a_reason(
    s: ScorerView,
    phase: Seq<char>,
    label: Seq<char>,
    now: i64,
)
    ensures
        ({
            let r = s.alert_reason(phase, label, now);
            let play = phase == "matchmaking"@ || phase == "in-match"@;
            let prev = verdict_weight(s.previous_label(phase));
            let rank = verdict_weight(label);
            let on = !s.lobby_exited && play;
            &&& r == "left_lobby"@ <==> s.lobby_exited
            &&& r == "idle"@ <==> !s.lobby_exited && !play
            &&& r == "clean"@ <==> on && rank == 0
            &&& r == "auto_detect"@ <==> on && rank != 0 && prev == 0
            &&& r == "escalation"@ <==> on && rank > prev && prev != 0
            &&& r == "reminder"@ <==> on && rank != 0 && prev != 0 && rank <= prev && now
                >= s.last_alert_at + alert_cooldown(label)
            &&& r == "cooldown"@ <==> on && rank != 0 && prev != 0 && rank <= prev && now
                < s.last_alert_at + alert_cooldown(label)
        }),
{
    lemma_phase_words();
    reveal_strlit("left_lobby");
    reveal_strlit("idle");
    reveal_strlit("clean");
    reveal_strlit("auto_detect");
    reveal_strlit("escalation");
    reveal_strlit("reminder");
    reveal_strlit("cooldown");
    assert("left_lobby"@.len() == 10 && "idle"@.len() == 4 && "clean"@.len() == 5
        && "auto_detect"@.len() == 11 && "escalation"@.len() == 10 && "reminder"@.len() == 8
        && "cooldown"@.len() == 8 && "left_lobby"@[0] == 'l' && "escalation"@[0] == 'e'
        && "reminder"@[0] == 'r' && "cooldown"@[0] == 'c');
}

/// The roles of a session are those that the snapshot states, and else those of its connections.
pub proof fn stated_roles_come_first(rules: Seq<RoleRule>, snapshot: JsonView, role: Seq<char>)
    requires
        items_or_empty(snapshot.field_in("connections"@, "items"@)).len() <= u64::MAX,
    ensures
        snapshot.field_in("_enriched"@, "roleCounts"@) is None ==> count_in(
            session_roles(rules, snapshot),
            role,
        ) == occurrences(
            carried_roles(rules, items_or_empty(snapshot.field_in("connections"@, "items"@))),
            role,
        ),
        states_roles(snapshot) ==> session_roles(rules, snapshot) == with_stated_roles(
            Seq::empty(),
            stated_roles(snapshot),
        ),
{
    tally_counts_occurrences(
        carried_roles(rules, items_or_empty(snapshot.field_in("connections"@, "items"@))),
        role,
    );
}

/// Critical are the latencies of what is marked so, in connections and destinations; each poll
/// leaves their mean, the latency of the line and the number of connections at the end of their
/// series, as far as they are known.
pub proof fn polls_are_measured(s: ScorerView, snapshot: JsonView, items: Seq<JsonView>,
    x: JsonView)
    ensures
        ({
            let t = s.measured(snapshot);
            let c = critical(snapshot);
            let tier = x.field("tier"@) == Some(JsonView::Str("critical"@));
            let latency = number(x.field("latencyMs"@));
            &&& t.conn_history.last() == conn_total(snapshot) as i64
            &&& wan_latency(snapshot) is Some ==> t.wan_history.last() == wan_latency(
                snapshot,
            )->0 as i64
            &&& wan_latency(snapshot) is None ==> t.wan_history == s.wan_history
            &&& c.len() > 0 ==> t.crit_history.last() == mean(c) as i64
            &&& c.len() == 0 ==> t.crit_history == s.crit_history
            &&& tier && latency is Some ==> critical_in(items.push(x)) == critical_in(items).push(
                latency->0 as i64,
            )
            &&& !tier || latency is None ==> critical_in(items.push(x)) == critical_in(items)
        }),
{
    assert(items.push(x).drop_last() =~= items);
    assert forall|v: Seq<i64>, y: i64| (#[trigger] pushed(v, y,
        MAX_HISTORY as nat)).last() == y by {
        newest_is_kept(v, y, MAX_HISTORY as nat);
    }
}

/// A console is at its home screen where nothing of the game is seen: no server, no queue, no
/// assets, and less than two hosts of telemetry and of measuring.
pub proof fn home_screens_show_nothing_of_the_game(roles: Seq<(Seq<char>, u64)>)
    ensures
        count_in(roles, "warzone-game"@) > 0 || count_in(roles, "matchmaking"@) > 0 || count_in(
            roles,
            "game-assets"@,
        ) > 0 || count_in(roles, "telemetry"@) >= 2 || count_in(roles, "azure-qos"@) >= 2
            <==> !home_screen(roles),
        roles.len() == 0 ==> home_screen(roles),
{
}

/// Entering a phase: a queue takes back that the lobby was left; the end of a match says so; play
/// starts the session, and only play keeps counting.
pub proof fn queues_begin_anew(s: ScorerView, phase: Seq<char>, conns: i64)
    ensures
        ({
            let t = s.entered(phase, conns);
            &&& t.last_phase == phase
            &&& phase == "matchmaking"@ ==> !t.lobby_exited && t.gaming_session
            &&& phase == "in-match"@ ==> t.lobby_exited == s.lobby_exited && t.gaming_session
            &&& phase == "post-match"@ ==> t.lobby_exited && !t.gaming_session
            &&& phase == "matchmaking"@ || phase == "in-match"@ ==> t.low_activity_polls == 0
            &&& phase == "idle"@ || phase == "background"@ ==> t.lobby_exited == s.lobby_exited
            &&& (phase == "idle"@ || phase == "background"@) && s.gaming_session && (s.last_phase
                == "matchmaking"@ || s.last_phase == "in-match"@) ==> t.in_match_polls == 0
                && t.conn_decline_polls == 0 && t.low_activity_polls == 0 && t.session_peak_conns
                == 0
            &&& t.conn_history == s.conn_history && t.wan_history == s.wan_history
        }),
{
    lemma_phase_words();
    reveal_strlit("post-match");
    reveal_strlit("background");
    reveal_strlit("idle");
    assert("post-match"@.len() == 10 && "background"@.len() == 10 && "idle"@.len() == 4
        && "post-match"@[0] == 'p' && "background"@[0] == 'b');
}

/// The phase is the one that is advised, else the one that the snapshot states, else idle. What is
/// advised stands under the phase of the session, or under the phase.
pub proof fn phases_are_advised_first(snapshot: JsonView, insights: JsonView, s: Seq<char>)
    ensures
        ({
            let a = insights.field("sessionPhase"@);
            let b = insights.field("phase"@);
            let stated = snapshot.field_in("_enriched"@, "phase"@);
            let p = claimed_phase(snapshot, insights);
            &&& a is Some && a->0.field("phase"@) == Some(JsonView::Str(s)) ==> p == s
            &&& a is None && b is Some && b->0.field("phase"@) == Some(JsonView::Str(s)) ==> p == s
            &&& a is None && b is None && stated == Some(JsonView::Str(s)) ==> p == s
            &&& a is Some && a->0.field("phase"@) is None && stated == Some(JsonView::Str(s)) ==> p
                == s
            &&& a is None && b is None && stated is None ==> p == "idle"@
        }),
{
}

/// A poll begins with what was measured, and its phase is the refined one unless a match was
/// declared and the lobby not left.
pub proof fn polls_begin_with_the_refined_phase(
    s: ScorerView,
    snapshot: JsonView,
    insights: JsonView,
    roles: Seq<(Seq<char>, u64)>,
    peak: int,
)
    ensures
        ({
            let claimed = claimed_phase(snapshot, insights);
            let r = s.measured(snapshot).refined(claimed, roles, conn_total(snapshot), peak);
            let (t, phase) = s.begun(snapshot, insights, roles, peak);
            &&& !s.manual_in_match ==> phase == r.1
            &&& s.lobby_exited ==> phase == "post-match"@
            &&& s.manual_in_match && !s.lobby_exited ==> phase == "in-match"@
            &&& t.last_phase == phase
            &&& t.conn_history.last() == conn_total(snapshot) as i64
            &&& t.manual_in_match == s.manual_in_match
        }),
{
    newest_is_kept(s.conn_history, conn_total(snapshot) as i64, MAX_HISTORY as nat);
    lemma_phase_words();
}

/// What an alert leaves: the phase and the verdict always, the time and its verdict where one was
/// sent; nothing after the lobby was left.
pub proof fn alerts_leave_their_time(s: ScorerView, phase: Seq<char>, label: Seq<char>, now: i64)
    ensures
        ({
            let t = s.alerted(phase, label, now);
            let sent = s.alert_sent(phase, label, now);
            &&& s.lobby_exited ==> t == s
            &&& !s.lobby_exited ==> t.last_phase == phase && t.last_verdict_label == label
            &&& !s.lobby_exited && sent ==> t.last_alert_at == now && t.last_alert_label == label
            &&& !sent ==> t.last_alert_at == s.last_alert_at && t.last_alert_label
                == s.last_alert_label
            &&& t.conn_history == s.conn_history && t.session_peak_conns == s.session_peak_conns
        }),
{
}

/// A verdict of an earlier session does not count: with play it begins clean.
pub proof fn play_begins_clean(s: ScorerView, phase: Seq<char>)
    ensures
        ({
            let play = phase == "matchmaking"@ || phase == "in-match"@;
            let was_play = s.last_phase == "matchmaking"@ || s.last_phase == "in-match"@;
            &&& play && !was_play ==> s.previous_label(phase) == "CLEAN"@
            &&& !play || was_play ==> s.previous_label(phase) == s.last_verdict_label
        }),
{
}

/// Series are shown from the newest on, 24 values at most; the newest is the last that came.
pub proof fn series_are_shown_newest_first(v: Seq<i64>)
    ensures
        newest_24(v).len() <= 24,
        v.len() > 0 ==> newest_24(v)[0] == v.last() && newest(v) == Some(v.last()),
        v.len() <= 24 ==> newest_24(v).len() == v.len(),
        v.len() == 0 ==> newest(v) is None,
        v.len() > 1 ==> newest_24(v)[1] == v[v.len() - 2],
{
}

} // verus!
