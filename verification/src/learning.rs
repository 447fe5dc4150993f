//! What earlier sessions teach: the recorded samples, lobbies and sessions.
use vstd::prelude::*;

use crate::cheater_lobby::CheaterVerdict;
use crate::fixed::{from_whole, kept, larger, last_of, max_i64, smaller, ONE};
use crate::json::{Json, JsonView};
use crate::snapshot::{
    conn_total, connections, gaming, in_out_ratio, in_out_ratio_of, is_gaming, kpps, kpps_of,
    lemma_phase_words, mbps,
    mbps_of, sampled, sampled_of, wan_latency, wan_latency_of, window, window_of,
};
use crate::text::{chars_of, contains, has_text, lower, lowercase, same, text_of};

verus! {

/// How many samples of a kind are kept.
pub const MAX_SAMPLES: usize = 120;

/// How many samples it takes to learn from them.
pub const MIN_SAMPLES: usize = 8;

/// How many finished sessions are kept.
pub const MAX_SESSIONS: usize = 40;

/// How many outcomes are kept.
pub const MAX_OUTCOMES: usize = 50;

/// How many lobbies are kept.
pub const MAX_LOBBIES: usize = 200;

/// How many marks of the user are kept.
pub const MAX_FEEDBACK: usize = 100;

/// Where thresholds come from.
#[derive(Clone, Copy, PartialEq, Eq, Structural)]
pub enum ThresholdSource {
    Default,
    Learned,
}

/// The thresholds that the analyses work with, in millionths of their units.
#[derive(Clone, Copy)]
pub struct AdaptiveThresholds {
    pub conn_matchmaking_high: i64,
    pub conn_matchmaking_elevated: i64,
    pub mm_delta_bad: i64,
    pub mm_delta_warn: i64,
    pub jitter_bad: i64,
    pub wan_jitter_bad: i64,
    pub conn_good_ceiling: i64,
    pub conn_marginal_low: i64,
    pub conn_marginal_high: i64,
    pub inbound_mbps_elevated: i64,
    pub inbound_mbps_bad: i64,
    pub in_out_ratio_bad: i64,
    pub source: ThresholdSource,
    pub samples: usize,
}

/// A measured value with its time. Both are in millionths, the time of a second.
pub struct Sample {
    pub ts: i64,
    pub v: i64,
    pub phase: String,
    pub label: String,
}

/// The measured values by kind, oldest first.
pub struct History {
    pub wan_latency: Vec<Sample>,
    pub conn_count: Vec<Sample>,
    pub matchmaking_latency: Vec<Sample>,
    pub mm_delta: Vec<Sample>,
    pub cheater_scores: Vec<Sample>,
    pub server_jitter: Vec<Sample>,
    pub inbound_mbps: Vec<Sample>,
    pub outbound_mbps: Vec<Sample>,
    pub packet_kpps: Vec<Sample>,
    pub in_out_ratio: Vec<Sample>,
}

/// A phase of a session and when it began.
pub struct PhaseMark {
    pub phase: String,
    pub at: i64,
}

/// A session of play. The score is in millionths of a percent.
pub struct Session {
    pub started_at: i64,
    pub game: String,
    pub phases: Vec<PhaseMark>,
    pub peak_conns: i64,
    pub worst_verdict: String,
    pub worst_score: i64,
    pub confirmed_bad: bool,
    pub user_marked_good: bool,
    pub desync_polls: u32,
    pub flood_polls: u32,
    pub gaming_polls: u32,
    pub ended_at: Option<i64>,
    pub duration_sec: Option<i64>,
}

/// A lobby as it was judged. The fold holds the bits of 32 single-precision numbers.
pub struct LobbyEntry {
    pub ts: i64,
    pub phase: String,
    pub label: String,
    pub confidence: i64,
    pub conns: i64,
    pub mm_delta: Option<i64>,
    pub fold: Option<[u32; 32]>,
}

/// How a session ended.
pub struct SessionOutcome {
    pub ended_at: i64,
    pub worst_verdict: String,
    pub worst_score: i64,
    pub peak_conns: i64,
    pub confirmed_bad: bool,
    pub user_marked_good: bool,
    pub desync_polls: u32,
    pub flood_polls: u32,
    pub duration_sec: i64,
}

/// A mark of the user on a lobby.
pub struct Feedback {
    pub ts: i64,
    pub bad_lobby: bool,
    pub note: String,
    pub last_lobby: Option<LobbyEntry>,
    pub verdict_at_feedback: String,
    pub score_at_feedback: i64,
}

/// Everything that was recorded.
pub struct LearningEngine {
    pub history: History,
    pub active: Option<Session>,
    pub completed: Vec<Session>,
    pub lobbies: Vec<LobbyEntry>,
    pub feedback: Vec<Feedback>,
    pub outcomes: Vec<SessionOutcome>,
    pub folded_blob: Option<Vec<u8>>,
}

// ---------------------------------------------------------------------------------------------
// Views

#[verifier::ext_equal]
pub struct SampleView {
    pub ts: i64,
    pub v: i64,
    pub phase: Seq<char>,
    pub label: Seq<char>,
}

#[verifier::ext_equal]
pub struct HistoryView {
    pub wan_latency: Seq<SampleView>,
    pub conn_count: Seq<SampleView>,
    pub matchmaking_latency: Seq<SampleView>,
    pub mm_delta: Seq<SampleView>,
    pub cheater_scores: Seq<SampleView>,
    pub server_jitter: Seq<SampleView>,
    pub inbound_mbps: Seq<SampleView>,
    pub outbound_mbps: Seq<SampleView>,
    pub packet_kpps: Seq<SampleView>,
    pub in_out_ratio: Seq<SampleView>,
}

#[verifier::ext_equal]
pub struct SessionView {
    pub started_at: i64,
    pub game: Seq<char>,
    pub phases: Seq<(Seq<char>, i64)>,
    pub peak_conns: i64,
    pub worst_verdict: Seq<char>,
    pub worst_score: i64,
    pub confirmed_bad: bool,
    pub user_marked_good: bool,
    pub desync_polls: u32,
    pub flood_polls: u32,
    pub gaming_polls: u32,
    pub ended_at: Option<i64>,
    pub duration_sec: Option<i64>,
}

#[verifier::ext_equal]
pub struct LobbyView {
    pub ts: i64,
    pub phase: Seq<char>,
    pub label: Seq<char>,
    pub confidence: i64,
    pub conns: i64,
    pub mm_delta: Option<i64>,
    pub fold: Option<[u32; 32]>,
}

#[verifier::ext_equal]
pub struct OutcomeView {
    pub ended_at: i64,
    pub worst_verdict: Seq<char>,
    pub worst_score: i64,
    pub peak_conns: i64,
    pub confirmed_bad: bool,
    pub user_marked_good: bool,
    pub desync_polls: u32,
    pub flood_polls: u32,
    pub duration_sec: i64,
}

#[verifier::ext_equal]
pub struct FeedbackView {
    pub ts: i64,
    pub bad_lobby: bool,
    pub note: Seq<char>,
    pub last_lobby: Option<LobbyView>,
    pub verdict_at_feedback: Seq<char>,
    pub score_at_feedback: i64,
}

#[verifier::ext_equal]
pub struct LearningView {
    pub history: HistoryView,
    pub active: Option<SessionView>,
    pub completed: Seq<SessionView>,
    pub lobbies: Seq<LobbyView>,
    pub feedback: Seq<FeedbackView>,
    pub outcomes: Seq<OutcomeView>,
    pub folded_blob: Option<Seq<u8>>,
}

impl View for Sample {
    type V = SampleView;

    open spec fn view(&self) -> SampleView {
        SampleView { ts: self.ts, v: self.v, phase: self.phase@, label: self.label@ }
    }
}

pub open spec fn sample_views(s: Seq<Sample>) -> Seq<SampleView> {
    s.map_values(|x: Sample| x@)
}

impl View for History {
    type V = HistoryView;

    open spec fn view(&self) -> HistoryView {
        HistoryView {
            wan_latency: sample_views(self.wan_latency@),
            conn_count: sample_views(self.conn_count@),
            matchmaking_latency: sample_views(self.matchmaking_latency@),
            mm_delta: sample_views(self.mm_delta@),
            cheater_scores: sample_views(self.cheater_scores@),
            server_jitter: sample_views(self.server_jitter@),
            inbound_mbps: sample_views(self.inbound_mbps@),
            outbound_mbps: sample_views(self.outbound_mbps@),
            packet_kpps: sample_views(self.packet_kpps@),
            in_out_ratio: sample_views(self.in_out_ratio@),
        }
    }
}

pub open spec fn phase_views(s: Seq<PhaseMark>) -> Seq<(Seq<char>, i64)> {
    s.map_values(|p: PhaseMark| (p.phase@, p.at))
}

impl View for Session {
    type V = SessionView;

    open spec fn view(&self) -> SessionView {
        SessionView {
            started_at: self.started_at,
            game: self.game@,
            phases: phase_views(self.phases@),
            peak_conns: self.peak_conns,
            worst_verdict: self.worst_verdict@,
            worst_score: self.worst_score,
            confirmed_bad: self.confirmed_bad,
            user_marked_good: self.user_marked_good,
            desync_polls: self.desync_polls,
            flood_polls: self.flood_polls,
            gaming_polls: self.gaming_polls,
            ended_at: self.ended_at,
            duration_sec: self.duration_sec,
        }
    }
}

pub open spec fn session_views(s: Seq<Session>) -> Seq<SessionView> {
    s.map_values(|x: Session| x@)
}

impl View for LobbyEntry {
    type V = LobbyView;

    open spec fn view(&self) -> LobbyView {
        LobbyView {
            ts: self.ts,
            phase: self.phase@,
            label: self.label@,
            confidence: self.confidence,
            conns: self.conns,
            mm_delta: self.mm_delta,
            fold: self.fold,
        }
    }
}

pub open spec fn lobby_views(s: Seq<LobbyEntry>) -> Seq<LobbyView> {
    s.map_values(|x: LobbyEntry| x@)
}

impl View for SessionOutcome {
    type V = OutcomeView;

    open spec fn view(&self) -> OutcomeView {
        OutcomeView {
            ended_at: self.ended_at,
            worst_verdict: self.worst_verdict@,
            worst_score: self.worst_score,
            peak_conns: self.peak_conns,
            confirmed_bad: self.confirmed_bad,
            user_marked_good: self.user_marked_good,
            desync_polls: self.desync_polls,
            flood_polls: self.flood_polls,
            duration_sec: self.duration_sec,
        }
    }
}

pub open spec fn outcome_views(s: Seq<SessionOutcome>) -> Seq<OutcomeView> {
    s.map_values(|x: SessionOutcome| x@)
}

impl View for Feedback {
    type V = FeedbackView;

    open spec fn view(&self) -> FeedbackView {
        FeedbackView {
            ts: self.ts,
            bad_lobby: self.bad_lobby,
            note: self.note@,
            last_lobby: match self.last_lobby {
                Some(l) => Some(l@),
                None => None,
            },
            verdict_at_feedback: self.verdict_at_feedback@,
            score_at_feedback: self.score_at_feedback,
        }
    }
}

pub open spec fn feedback_views(s: Seq<Feedback>) -> Seq<FeedbackView> {
    s.map_values(|x: Feedback| x@)
}

impl View for LearningEngine {
    type V = LearningView;

    open spec fn view(&self) -> LearningView {
        LearningView {
            history: self.history@,
            active: match self.active {
                Some(s) => Some(s@),
                None => None,
            },
            completed: session_views(self.completed@),
            lobbies: lobby_views(self.lobbies@),
            feedback: feedback_views(self.feedback@),
            outcomes: outcome_views(self.outcomes@),
            folded_blob: match self.folded_blob {
                Some(b) => Some(b@),
                None => None,
            },
        }
    }
}

// ---------------------------------------------------------------------------------------------
// Recording

/// With one more element, of which only the last `limit` are kept.
pub open spec fn pushed<A>(s: Seq<A>, x: A, limit: nat) -> Seq<A> {
    last_of(s.push(x), limit)
}

/// Appends an element and drops the oldest ones beyond `limit`.
pub fn push_sample<T>(arr: &mut Vec<T>, item: T, limit: usize)
    ensures
        final(arr)@ == pushed(old(arr)@, item, limit as nat),
        final(arr).len() <= limit,
{
    arr.push(item);
    let ghost all = arr@;
    let ghost mut gone: int = 0;
    assert(all.skip(0) =~= all);
    while arr.len() > limit
        invariant
            arr@ == all.skip(gone),
            0 <= gone <= all.len(),
            all.len() == old(arr).len() + 1,
            gone == 0 || all.len() - gone >= limit,
        decreases arr.len(),
    {
        let _ = arr.remove(0);
        proof {
            assert(arr@ =~= all.skip(gone + 1));
            gone = gone + 1;
        }
    }
    assert(arr@ =~= last_of(all, limit as nat));
}

/// A history with one more sample.
pub open spec fn sampled_more(
    s: Seq<SampleView>,
    ts: i64,
    v: int,
    phase: Seq<char>,
    label: Seq<char>,
) -> Seq<SampleView> {
    pushed(s, SampleView { ts, v: v as i64, phase, label }, MAX_SAMPLES as nat)
}

fn record(arr: &mut Vec<Sample>, ts: i64, v: i64, phase: &str, label: &str)
    ensures
        sample_views(final(arr)@) == sampled_more(
            sample_views(old(arr)@),
            ts,
            v as int,
            phase@,
            label@,
        ),
{
    let s = Sample { ts, v, phase: phase.to_owned(), label: label.to_owned() };
    push_sample(arr, s, MAX_SAMPLES);
    assert(sample_views(arr@) =~= sampled_more(
        sample_views(old(arr)@),
        ts,
        v as int,
        phase@,
        label@,
    ));
}

/// The samples with those of one poll.
pub open spec fn history_after(
    h: HistoryView,
    ts: i64,
    snapshot: JsonView,
    phase: Seq<char>,
    label: Seq<char>,
    confidence: i64,
    mm_delta: Option<i64>,
    server_jitter: Option<i64>,
) -> HistoryView {
    let w = window(snapshot);
    let bytes_in = sampled(snapshot, "bytesIn"@);
    let bytes_out = sampled(snapshot, "bytesOut"@);
    let none = ""@;
    HistoryView {
        wan_latency: match wan_latency(snapshot) {
            Some(n) => sampled_more(h.wan_latency, ts, n, phase, none),
            None => h.wan_latency,
        },
        conn_count: sampled_more(
            h.conn_count,
            ts,
            kept(conn_total(snapshot) * ONE),
            phase,
            label,
        ),
        matchmaking_latency: h.matchmaking_latency,
        mm_delta: match mm_delta {
            Some(n) => sampled_more(h.mm_delta, ts, n as int, phase, none),
            None => h.mm_delta,
        },
        server_jitter: match server_jitter {
            Some(n) => sampled_more(h.server_jitter, ts, n as int, phase, none),
            None => h.server_jitter,
        },
        inbound_mbps: sampled_more(h.inbound_mbps, ts, mbps(bytes_in, w), phase, label),
        outbound_mbps: sampled_more(h.outbound_mbps, ts, mbps(bytes_out, w), phase, none),
        packet_kpps: sampled_more(
            h.packet_kpps,
            ts,
            kpps(sampled(snapshot, "packets"@), w),
            phase,
            none,
        ),
        in_out_ratio: sampled_more(
            h.in_out_ratio,
            ts,
            in_out_ratio(bytes_in, bytes_out),
            phase,
            none,
        ),
        cheater_scores: sampled_more(h.cheater_scores, ts, confidence as int, phase, label),
    }
}

fn record_history(
    h: &mut History,
    ts: i64,
    snapshot: &Json,
    phase: &str,
    verdict: &CheaterVerdict,
    mm_delta: Option<i64>,
    server_jitter: Option<i64>,
)
    ensures
        final(h)@ == history_after(
            old(h)@,
            ts,
            snapshot@,
            phase@,
            verdict.label@,
            verdict.confidence,
            mm_delta,
            server_jitter,
        ),
{
    let label = verdict.label.as_str();
    if let Some(n) = wan_latency_of(snapshot) {
        record(&mut h.wan_latency, ts, n, phase, "");
    }
    let conns: i64 = from_whole(connections(snapshot));
    record(&mut h.conn_count, ts, conns, phase, label);
    if let Some(n) = mm_delta {
        record(&mut h.mm_delta, ts, n, phase, "");
    }
    if let Some(n) = server_jitter {
        record(&mut h.server_jitter, ts, n, phase, "");
    }
    let w: i64 = window_of(snapshot);
    let bytes_in: u64 = sampled_of(snapshot, "bytesIn");
    let bytes_out: u64 = sampled_of(snapshot, "bytesOut");
    let packets: u64 = sampled_of(snapshot, "packets");
    record(&mut h.inbound_mbps, ts, mbps_of(bytes_in, w), phase, label);
    record(&mut h.outbound_mbps, ts, mbps_of(bytes_out, w), phase, "");
    record(&mut h.packet_kpps, ts, kpps_of(packets, w), phase, "");
    record(&mut h.in_out_ratio, ts, in_out_ratio_of(bytes_in, bytes_out), phase, "");
    record(&mut h.cheater_scores, ts, verdict.confidence, phase, label);
}

// ---------------------------------------------------------------------------------------------
// Sessions

pub open spec fn plus_one_u32(n: u32) -> u32 {
    if n < u32::MAX {
        (n + 1) as u32
    } else {
        n
    }
}

pub(crate) fn one_more_u32(n: u32) -> (r: u32)
    ensures
        r == plus_one_u32(n),
{
    if n < u32::MAX {
        n + 1
    } else {
        n
    }
}

/// The game that an enriched snapshot states, or "warzone".
pub open spec fn stated_game(snapshot: JsonView) -> Seq<char> {
    match snapshot.field_in("_enriched"@, "game"@) {
        Some(v) => match v.text() {
            Some(s) => s,
            None => "warzone"@,
        },
        None => "warzone"@,
    }
}

pub open spec fn session_begun(
    ts: i64,
    game: Seq<char>,
    conns: i64,
    label: Seq<char>,
    confidence: i64,
) -> SessionView {
    SessionView {
        started_at: ts,
        game,
        phases: Seq::empty(),
        peak_conns: conns,
        worst_verdict: label,
        worst_score: confidence,
        confirmed_bad: false,
        user_marked_good: false,
        desync_polls: 0,
        flood_polls: 0,
        gaming_polls: 0,
        ended_at: None,
        duration_sec: None,
    }
}

impl SessionView {
    /// After one more poll.
    pub open spec fn polled(
        self,
        ts: i64,
        phase: Seq<char>,
        conns: i64,
        label: Seq<char>,
        confidence: i64,
    ) -> SessionView {
        SessionView {
            peak_conns: larger(self.peak_conns as int, conns as int) as i64,
            gaming_polls: plus_one_u32(self.gaming_polls),
            phases: if self.phases.len() > 0 && self.phases.last().0 == phase {
                self.phases
            } else {
                self.phases.push((phase, ts))
            },
            worst_score: if confidence >= self.worst_score {
                confidence
            } else {
                self.worst_score
            },
            worst_verdict: if confidence >= self.worst_score {
                label
            } else {
                self.worst_verdict
            },
            ..self
        }
    }

    /// After its end.
    pub open spec fn ended(self, ts: i64) -> SessionView {
        SessionView {
            ended_at: Some(ts),
            duration_sec: Some(whole_seconds(ts - self.started_at) as i64),
            ..self
        }
    }

    pub open spec fn outcome(self, ts: i64) -> OutcomeView {
        OutcomeView {
            ended_at: ts,
            worst_verdict: self.worst_verdict,
            worst_score: self.worst_score,
            peak_conns: self.peak_conns,
            confirmed_bad: self.confirmed_bad,
            user_marked_good: self.user_marked_good,
            desync_polls: self.desync_polls,
            flood_polls: self.flood_polls,
            duration_sec: whole_seconds(ts - self.started_at) as i64,
        }
    }
}

/// A time in whole seconds, the fraction cut off.
pub open spec fn whole_seconds(t: int) -> int {
    if t >= 0 {
        t / 1_000_000
    } else {
        -((-t) / 1_000_000)
    }
}

pub(crate) fn whole_seconds_of(a: i64, b: i64) -> (r: i64)
    ensures
        r == whole_seconds(a - b),
{
    let t: i128 = a as i128 - b as i128;
    if t >= 0 {
        (t / 1_000_000) as i64
    } else {
        -(((-t) / 1_000_000) as i64)
    }
}

/// A phase that ends a session.
pub open spec fn resting(phase: Seq<char>) -> bool {
    phase == "idle"@ || phase == "background"@ || phase == "post-match"@
}

impl LearningView {
    /// With the session, if there is one, brought to its end.
    pub open spec fn closed_session(self, s: SessionView, ts: i64) -> LearningView {
        LearningView {
            active: None,
            completed: pushed(self.completed, s.ended(ts), MAX_SESSIONS as nat),
            outcomes: pushed(self.outcomes, s.outcome(ts), MAX_OUTCOMES as nat),
            ..self
        }
    }

    /// A lobby or match begins a session; each poll goes into it; a phase of rest ends it.
    pub open spec fn session_polled(
        self,
        ts: i64,
        snapshot: JsonView,
        phase: Seq<char>,
        conns: i64,
        label: Seq<char>,
        confidence: i64,
    ) -> LearningView {
        let current = match self.active {
            Some(s) => Some(s),
            None => if gaming(phase) {
                Some(session_begun(ts, stated_game(snapshot), conns, label, confidence))
            } else {
                None
            },
        };
        match current {
            Some(s) => {
                let p = s.polled(ts, phase, conns, label, confidence);
                if resting(phase) && !gaming(phase) {
                    self.closed_session(p, ts)
                } else {
                    LearningView { active: Some(p), ..self }
                }
            },
            None => self,
        }
    }

    /// A lobby or match is recorded with its fold.
    pub open spec fn lobby_polled(
        self,
        ts: i64,
        phase: Seq<char>,
        conns: i64,
        label: Seq<char>,
        confidence: i64,
        mm_delta: Option<i64>,
        fold: [u32; 32],
    ) -> LearningView {
        if gaming(phase) {
            LearningView {
                lobbies: pushed(
                    self.lobbies,
                    LobbyView {
                        ts,
                        phase,
                        label,
                        confidence,
                        conns,
                        mm_delta,
                        fold: Some(fold),
                    },
                    MAX_LOBBIES as nat,
                ),
                ..self
            }
        } else {
            self
        }
    }

    /// With everything that one poll adds.
    pub open spec fn polled(
        self,
        ts: i64,
        snapshot: JsonView,
        phase: Seq<char>,
        label: Seq<char>,
        confidence: i64,
        mm_delta: Option<i64>,
        server_jitter: Option<i64>,
        fold: [u32; 32],
    ) -> LearningView {
        let conns = conn_total(snapshot) as i64;
        let a = LearningView {
            history: history_after(
                self.history,
                ts,
                snapshot,
                phase,
                label,
                confidence,
                mm_delta,
                server_jitter,
            ),
            ..self
        };
        let b = a.session_polled(ts, snapshot, phase, conns, label, confidence);
        b.lobby_polled(ts, phase, conns, label, confidence, mm_delta, fold)
    }
}

fn poll_session(s: &mut Session, ts: i64, phase: &str, conns: i64, label: &str, confidence: i64)
    ensures
        final(s)@ == old(s)@.polled(ts, phase@, conns, label@, confidence),
{
    s.peak_conns = max_i64(s.peak_conns, conns);
    s.gaming_polls = one_more_u32(s.gaming_polls);
    let same_phase = s.phases.len() > 0 && same(s.phases[s.phases.len() - 1].phase.as_str(), phase);
    proof {
        if s.phases.len() > 0 {
            assert(phase_views(s.phases@).last() == (
                s.phases@[s.phases.len() - 1].phase@,
                s.phases@[s.phases.len() - 1].at,
            ));
        }
    }
    let ghost before = s.phases@;
    if !same_phase {
        s.phases.push(PhaseMark { phase: phase.to_owned(), at: ts });
        assert(phase_views(s.phases@) =~= phase_views(before).push((phase@, ts)));
    }
    if confidence >= s.worst_score {
        s.worst_score = confidence;
        s.worst_verdict = label.to_owned();
    }
    assert(s@ =~= old(s)@.polled(ts, phase@, conns, label@, confidence));
}

fn outcome_of(s: &Session, ts: i64) -> (r: SessionOutcome)
    ensures
        r@ == s@.outcome(ts),
{
    SessionOutcome {
        ended_at: ts,
        worst_verdict: s.worst_verdict.clone(),
        worst_score: s.worst_score,
        peak_conns: s.peak_conns,
        confirmed_bad: s.confirmed_bad,
        user_marked_good: s.user_marked_good,
        desync_polls: s.desync_polls,
        flood_polls: s.flood_polls,
        duration_sec: whole_seconds_of(ts, s.started_at),
    }
}

proof fn lemma_pushed_sessions(s: Seq<Session>, x: Session, n: nat)
    ensures
        session_views(pushed(s, x, n)) == pushed(session_views(s), x@, n),
{
    assert(session_views(pushed(s, x, n)) =~= pushed(session_views(s), x@, n));
}

proof fn lemma_pushed_outcomes(s: Seq<SessionOutcome>, x: SessionOutcome, n: nat)
    ensures
        outcome_views(pushed(s, x, n)) == pushed(outcome_views(s), x@, n),
{
    assert(outcome_views(pushed(s, x, n)) =~= pushed(outcome_views(s), x@, n));
}

proof fn lemma_pushed_lobbies(s: Seq<LobbyEntry>, x: LobbyEntry, n: nat)
    ensures
        lobby_views(pushed(s, x, n)) == pushed(lobby_views(s), x@, n),
{
    assert(lobby_views(pushed(s, x, n)) =~= pushed(lobby_views(s), x@, n));
}

proof fn lemma_pushed_feedback(s: Seq<Feedback>, x: Feedback, n: nat)
    ensures
        feedback_views(pushed(s, x, n)) == pushed(feedback_views(s), x@, n),
{
    assert(feedback_views(pushed(s, x, n)) =~= pushed(feedback_views(s), x@, n));
}

impl LearningEngine {
    /// An engine that has recorded nothing.
    pub fn new() -> (r: LearningEngine)
        ensures
            r@ == (LearningView {
                history: HistoryView {
                    wan_latency: Seq::empty(),
                    conn_count: Seq::empty(),
                    matchmaking_latency: Seq::empty(),
                    mm_delta: Seq::empty(),
                    cheater_scores: Seq::empty(),
                    server_jitter: Seq::empty(),
                    inbound_mbps: Seq::empty(),
                    outbound_mbps: Seq::empty(),
                    packet_kpps: Seq::empty(),
                    in_out_ratio: Seq::empty(),
                },
                active: None,
                completed: Seq::empty(),
                lobbies: Seq::empty(),
                feedback: Seq::empty(),
                outcomes: Seq::empty(),
                folded_blob: None,
            }),
    {
        let r = LearningEngine {
            history: History {
                wan_latency: Vec::new(),
                conn_count: Vec::new(),
                matchmaking_latency: Vec::new(),
                mm_delta: Vec::new(),
                cheater_scores: Vec::new(),
                server_jitter: Vec::new(),
                inbound_mbps: Vec::new(),
                outbound_mbps: Vec::new(),
                packet_kpps: Vec::new(),
                in_out_ratio: Vec::new(),
            },
            active: None,
            completed: Vec::new(),
            lobbies: Vec::new(),
            feedback: Vec::new(),
            outcomes: Vec::new(),
            folded_blob: None,
        };
        assert(sample_views(r.history.wan_latency@) =~= Seq::empty());
        assert(session_views(r.completed@) =~= Seq::empty());
        assert(lobby_views(r.lobbies@) =~= Seq::empty());
        assert(feedback_views(r.feedback@) =~= Seq::empty());
        assert(outcome_views(r.outcomes@) =~= Seq::empty());
        r
    }

    fn close_session(&mut self, s: Session, ts: i64)
        requires
            old(self).active is None,
        ensures
            final(self)@ == old(self)@.closed_session(s@, ts),
    {
        let outcome = outcome_of(&s, ts);
        let mut done = s;
        done.ended_at = Some(ts);
        done.duration_sec = Some(whole_seconds_of(ts, done.started_at));
        proof {
            lemma_pushed_sessions(self.completed@, done, MAX_SESSIONS as nat);
            lemma_pushed_outcomes(self.outcomes@, outcome, MAX_OUTCOMES as nat);
        }
        push_sample(&mut self.completed, done, MAX_SESSIONS);
        push_sample(&mut self.outcomes, outcome, MAX_OUTCOMES);
    }

    fn update_session(
        &mut self,
        ts: i64,
        snapshot: &Json,
        phase: &str,
        conns: i64,
        verdict: &CheaterVerdict,
    )
        ensures
            final(self)@ == old(self)@.session_polled(
                ts,
                snapshot@,
                phase@,
                conns,
                verdict.label@,
                verdict.confidence,
            ),
    {
        let playing = is_gaming(phase);
        let current = match self.active.take() {
            Some(s) => Some(s),
            None => {
                if playing {
                    let game = match snapshot.get_in("_enriched", "game") {
                        Some(v) => match v.as_str() {
                            Some(s) => s.to_owned(),
                            None => "warzone".to_owned(),
                        },
                        None => "warzone".to_owned(),
                    };
                    let s = Session {
                        started_at: ts,
                        game,
                        phases: Vec::new(),
                        peak_conns: conns,
                        worst_verdict: verdict.label.clone(),
                        worst_score: verdict.confidence,
                        confirmed_bad: false,
                        user_marked_good: false,
                        desync_polls: 0,
                        flood_polls: 0,
                        gaming_polls: 0,
                        ended_at: None,
                        duration_sec: None,
                    };
                    assert(s@ =~= session_begun(
                        ts,
                        stated_game(snapshot@),
                        conns,
                        verdict.label@,
                        verdict.confidence,
                    ));
                    Some(s)
                } else {
                    None
                }
            },
        };
        match current {
            Some(s) => {
                let mut s = s;
                poll_session(
                    &mut s,
                    ts,
                    phase,
                    conns,
                    verdict.label.as_str(),
                    verdict.confidence,
                );
                let rest = same(phase, "idle") || same(phase, "background") || same(
                    phase,
                    "post-match",
                );
                if rest && !playing {
                    self.close_session(s, ts);
                } else {
                    self.active = Some(s);
                }
            },
            None => {},
        }
    }

    fn record_lobby(
        &mut self,
        ts: i64,
        phase: &str,
        conns: i64,
        verdict: &CheaterVerdict,
        mm_delta: Option<i64>,
        fold: [u32; 32],
    )
        ensures
            final(self)@ == old(self)@.lobby_polled(
                ts,
                phase@,
                conns,
                verdict.label@,
                verdict.confidence,
                mm_delta,
                fold,
            ),
    {
        if !is_gaming(phase) {
            return ;
        }
        let l = LobbyEntry {
            ts,
            phase: phase.to_owned(),
            label: verdict.label.clone(),
            confidence: verdict.confidence,
            conns,
            mm_delta,
            fold: Some(fold),
        };
        proof {
            lemma_pushed_lobbies(self.lobbies@, l, MAX_LOBBIES as nat);
        }
        push_sample(&mut self.lobbies, l, MAX_LOBBIES);
    }

    /// Records one poll: its samples, the session it belongs to, and the lobby with its fold.
    pub fn record_poll(
        &mut self,
        now: i64,
        snapshot: &Json,
        phase: &str,
        verdict: &CheaterVerdict,
        mm_delta: Option<i64>,
        server_jitter: Option<i64>,
        fold: [u32; 32],
    )
        ensures
            final(self)@ == old(self)@.polled(
                now,
                snapshot@,
                phase@,
                verdict.label@,
                verdict.confidence,
                mm_delta,
                server_jitter,
                fold,
            ),
    {
        record_history(
            &mut self.history,
            now,
            snapshot,
            phase,
            verdict,
            mm_delta,
            server_jitter,
        );
        let conns: i64 = connections(snapshot);
        self.update_session(now, snapshot, phase, conns, verdict);
        self.record_lobby(now, phase, conns, verdict, mm_delta, fold);
    }

    /// Counts a poll during which the guard was at work.
    pub fn record_guard_activity(&mut self, desync_active: bool, flood_active: bool)
        ensures
            final(self)@ == (LearningView {
                active: match old(self)@.active {
                    Some(s) => Some(
                        SessionView {
                            desync_polls: if desync_active {
                                plus_one_u32(s.desync_polls)
                            } else {
                                s.desync_polls
                            },
                            flood_polls: if flood_active {
                                plus_one_u32(s.flood_polls)
                            } else {
                                s.flood_polls
                            },
                            ..s
                        },
                    ),
                    None => None,
                },
                ..old(self)@
            }),
    {
        match self.active.take() {
            Some(s) => {
                let mut s = s;
                if desync_active {
                    s.desync_polls = one_more_u32(s.desync_polls);
                }
                if flood_active {
                    s.flood_polls = one_more_u32(s.flood_polls);
                }
                self.active = Some(s);
            },
            None => {},
        }
    }

    /// Ends the session that is on; tells whether there was one.
    pub fn end_active_session(&mut self, now: i64) -> (r: bool)
        ensures
            r == (old(self)@.active is Some),
            final(self)@ == match old(self)@.active {
                Some(s) => old(self)@.closed_session(s, now),
                None => old(self)@,
            },
    {
        match self.active.take() {
            Some(s) => {
                self.close_session(s, now);
                true
            },
            None => false,
        }
    }

    /// The size of the compressed archive of folds.
    pub fn folded_archive_size(&self) -> (r: usize)
        ensures
            r == match self@.folded_blob {
                Some(b) => b.len(),
                None => 0,
            },
    {
        match &self.folded_blob {
            Some(b) => b.len(),
            None => 0,
        }
    }
}

// ---------------------------------------------------------------------------------------------
// Marks of the user

/// How far the connections of two lobbies may differ for them to count as alike: a quarter, and
/// eight at least.
pub open spec fn tolerance(conns: int) -> int {
    if conns >= 32 {
        conns / 4
    } else {
        8
    }
}

pub open spec fn distance(a: int, b: int) -> int {
    if a >= b {
        a - b
    } else {
        b - a
    }
}

pub open spec fn alike(recorded: int, conns: int) -> bool {
    distance(recorded, conns) <= tolerance(recorded)
}

pub(crate) fn is_alike(recorded: i64, conns: i64) -> (r: bool)
    ensures
        r == alike(recorded as int, conns as int),
{
    let tol: i64 = if recorded >= 32 {
        recorded / 4
    } else {
        8
    };
    let d: i128 = if recorded >= conns {
        recorded as i128 - conns as i128
    } else {
        conns as i128 - recorded as i128
    };
    d <= tol as i128
}

/// The lobbies, from position `at` backwards at most `left` of them and none older than `limit`,
/// with `label` for those that are alike.
pub open spec fn relabelled(
    l: Seq<LobbyView>,
    at: int,
    left: nat,
    ts: i64,
    limit: int,
    conns: i64,
    label: Seq<char>,
) -> Seq<LobbyView>
    decreases left,
{
    if left == 0 || at < 0 || at >= l.len() || ts - l[at].ts > limit {
        l
    } else {
        let entry = if alike(l[at].conns as int, conns as int) {
            LobbyView { label, ..l[at] }
        } else {
            l[at]
        };
        relabelled(l.update(at, entry), at - 1, (left - 1) as nat, ts, limit, conns, label)
    }
}

/// The last thirty lobbies of the last ten minutes, with `label` for those that are alike.
pub open spec fn recent_relabelled(
    l: Seq<LobbyView>,
    ts: i64,
    conns: i64,
    label: Seq<char>,
) -> Seq<LobbyView> {
    relabelled(l, l.len() - 1, 30, ts, 600_000_000, conns, label)
}

/// The lobbies after a mark: the last one gets it, with at least `floor` as confidence, and those
/// like it get `spread`.
pub open spec fn lobbies_marked(
    l: Seq<LobbyView>,
    ts: i64,
    label: Seq<char>,
    floor: i64,
    spread: Seq<char>,
) -> Seq<LobbyView> {
    if l.len() == 0 {
        l
    } else {
        let last = LobbyView {
            label,
            confidence: larger(l.last().confidence as int, floor as int) as i64,
            ..l.last()
        };
        recent_relabelled(l.update(l.len() - 1, last), ts, last.conns, spread)
    }
}

/// The last three sessions confirmed as bad.
pub open spec fn last_three_confirmed(s: Seq<SessionView>) -> Seq<SessionView> {
    Seq::new(
        s.len(),
        |i: int|
            if i >= s.len() - 3 {
                SessionView { confirmed_bad: true, ..s[i] }
            } else {
                s[i]
            },
    )
}

impl SessionView {
    pub open spec fn marked_bad(self, kicked: bool) -> SessionView {
        SessionView {
            confirmed_bad: true,
            worst_verdict: "LIKELY"@,
            worst_score: larger(
                self.worst_score as int,
                if kicked {
                    90_000_000
                } else {
                    75_000_000
                },
            ) as i64,
            ..self
        }
    }

    pub open spec fn marked_good(self) -> SessionView {
        let alarmed = self.worst_verdict == "LIKELY"@ || self.worst_verdict == "POSSIBLE"@;
        SessionView {
            user_marked_good: true,
            worst_verdict: if alarmed {
                "CLEAN"@
            } else {
                self.worst_verdict
            },
            worst_score: if alarmed {
                smaller(self.worst_score as int, 20_000_000) as i64
            } else {
                self.worst_score
            },
            ..self
        }
    }
}

pub open spec fn first_chars(s: Seq<char>, n: nat) -> Seq<char> {
    if s.len() <= n {
        s
    } else {
        s.take(n as int)
    }
}

impl LearningView {
    /// With a mark of the user on the last lobby.
    pub open spec fn marked(
        self,
        ts: i64,
        bad_lobby: bool,
        note: Seq<char>,
        verdict_label: Seq<char>,
        verdict_score: i64,
    ) -> LearningView {
        let lobbies = if bad_lobby {
            lobbies_marked(
                self.lobbies,
                ts,
                if verdict_label == "POSSIBLE"@ {
                    "USER_MARGINAL"@
                } else {
                    "USER_BAD"@
                },
                55_000_000,
                "USER_BAD"@,
            )
        } else {
            lobbies_marked(self.lobbies, ts, "USER_GOOD"@, i64::MIN, "USER_GOOD"@)
        };
        LearningView {
            lobbies,
            active: match self.active {
                Some(s) => Some(
                    if bad_lobby {
                        s.marked_bad(has_text(lowercase(note), "kick"@))
                    } else {
                        s.marked_good()
                    },
                ),
                None => None,
            },
            completed: if bad_lobby {
                last_three_confirmed(self.completed)
            } else {
                self.completed
            },
            feedback: pushed(
                self.feedback,
                FeedbackView {
                    ts,
                    bad_lobby,
                    note: first_chars(note, 200),
                    last_lobby: if lobbies.len() > 0 {
                        Some(lobbies.last())
                    } else {
                        None
                    },
                    verdict_at_feedback: verdict_label,
                    score_at_feedback: verdict_score,
                },
                MAX_FEEDBACK as nat,
            ),
            ..self
        }
    }
}

fn dup_lobby(l: &LobbyEntry) -> (r: LobbyEntry)
    ensures
        r@ == l@,
{
    LobbyEntry {
        ts: l.ts,
        phase: l.phase.clone(),
        label: l.label.clone(),
        confidence: l.confidence,
        conns: l.conns,
        mm_delta: l.mm_delta,
        fold: l.fold,
    }
}

/// Gives `label` to those of the last thirty lobbies of the last ten minutes that are alike.
pub fn relabel_recent_lobbies(lobbies: &mut Vec<LobbyEntry>, ts: i64, conns: i64, label: &str)
    ensures
        lobby_views(final(lobbies)@) == recent_relabelled(
            lobby_views(old(lobbies)@),
            ts,
            conns,
            label@,
        ),
{
    let mut left: usize = 30;
    let mut at: usize = lobbies.len();
    let ghost want = recent_relabelled(lobby_views(lobbies@), ts, conns, label@);
    while left > 0 && at > 0
        invariant
            at <= lobbies.len(),
            left <= 30,
            want == relabelled(
                lobby_views(lobbies@),
                at - 1,
                left as nat,
                ts,
                600_000_000,
                conns,
                label@,
            ),
            want == recent_relabelled(lobby_views(old(lobbies)@), ts, conns, label@),
        decreases at,
    {
        let ghost before = lobby_views(lobbies@);
        let k: usize = at - 1;
        assert(before[k as int] == lobbies@[k as int]@);
        if ts as i128 - lobbies[k].ts as i128 > 600_000_000 {
            return ;
        }
        if is_alike(lobbies[k].conns, conns) {
            let mut l = lobbies.remove(k);
            l.label = label.to_owned();
            lobbies.insert(k, l);
            assert(lobby_views(lobbies@) =~= before.update(
                k as int,
                LobbyView { label: label@, ..before[k as int] },
            ));
        } else {
            assert(before.update(k as int, before[k as int]) =~= before);
        }
        at = k;
        left = left - 1;
    }
}

fn mark_lobbies(lobbies: &mut Vec<LobbyEntry>, ts: i64, label: &str, floor: i64, spread: &str)
    ensures
        lobby_views(final(lobbies)@) == lobbies_marked(
            lobby_views(old(lobbies)@),
            ts,
            label@,
            floor,
            spread@,
        ),
{
    if lobbies.len() == 0 {
        return ;
    }
    let ghost before = lobby_views(lobbies@);
    let k: usize = lobbies.len() - 1;
    let mut l = lobbies.remove(k);
    let conns: i64 = l.conns;
    l.label = label.to_owned();
    l.confidence = max_i64(l.confidence, floor);
    lobbies.push(l);
    assert(lobby_views(lobbies@) =~= before.update(k as int, l@));
    relabel_recent_lobbies(lobbies, ts, conns, spread);
}

fn confirm_last_three(sessions: &mut Vec<Session>)
    ensures
        session_views(final(sessions)@) == last_three_confirmed(session_views(old(sessions)@)),
{
    let n: usize = sessions.len();
    let mut i: usize = if n > 3 {
        n - 3
    } else {
        0
    };
    let ghost start = i as int;
    let ghost before = session_views(sessions@);
    while i < n
        invariant
            n == sessions.len(),
            n == before.len(),
            start <= i <= n,
            start == if n > 3 {
                n - 3
            } else {
                0
            },
            forall|k: int|
                0 <= k < n ==> (#[trigger] sessions@[k])@ == if start <= k < i {
                    (SessionView { confirmed_bad: true, ..before[k] })
                } else {
                    before[k]
                },
        decreases n - i,
    {
        let mut s = sessions.remove(i);
        s.confirmed_bad = true;
        sessions.insert(i, s);
        i += 1;
    }
    assert(session_views(sessions@) =~= last_three_confirmed(before));
}

fn shorten(s: &str, n: usize) -> (r: String)
    ensures
        r@ == first_chars(s@, n as nat),
{
    let v = chars_of(s);
    let end: usize = if v.len() < n {
        v.len()
    } else {
        n
    };
    let t = text_of(&v, 0, end);
    assert(t@ =~= first_chars(s@, n as nat));
    t
}

impl LearningEngine {
    /// Records a mark of the user on the last lobby and on those like it.
    pub fn record_feedback(
        &mut self,
        now: i64,
        bad_lobby: bool,
        note: &str,
        verdict_label: &str,
        verdict_score: i64,
    )
        ensures
            final(self)@ == old(self)@.marked(
                now,
                bad_lobby,
                note@,
                verdict_label@,
                verdict_score,
            ),
    {
        if bad_lobby {
            if same(verdict_label, "POSSIBLE") {
                mark_lobbies(&mut self.lobbies, now, "USER_MARGINAL", 55_000_000, "USER_BAD");
            } else {
                mark_lobbies(&mut self.lobbies, now, "USER_BAD", 55_000_000, "USER_BAD");
            }
            match self.active.take() {
                Some(s) => {
                    let mut s = s;
                    s.confirmed_bad = true;
                    s.worst_verdict = "LIKELY".to_owned();
                    let low = lower(note);
                    let floor: i64 = if contains(low.as_str(), "kick") {
                        90_000_000
                    } else {
                        75_000_000
                    };
                    s.worst_score = max_i64(s.worst_score, floor);
                    self.active = Some(s);
                },
                None => {},
            }
            confirm_last_three(&mut self.completed);
        } else {
            mark_lobbies(&mut self.lobbies, now, "USER_GOOD", i64::MIN, "USER_GOOD");
            match self.active.take() {
                Some(s) => {
                    let mut s = s;
                    s.user_marked_good = true;
                    if same(s.worst_verdict.as_str(), "LIKELY") || same(
                        s.worst_verdict.as_str(),
                        "POSSIBLE",
                    ) {
                        s.worst_verdict = "CLEAN".to_owned();
                        if s.worst_score > 20_000_000 {
                            s.worst_score = 20_000_000;
                        }
                    }
                    self.active = Some(s);
                },
                None => {},
            }
        }
        let last = if self.lobbies.len() > 0 {
            Some(dup_lobby(&self.lobbies[self.lobbies.len() - 1]))
        } else {
            None
        };
        proof {
            if self.lobbies.len() > 0 {
                assert(lobby_views(self.lobbies@).last() == self.lobbies@[self.lobbies.len()
                    - 1]@);
            }
        }
        let f = Feedback {
            ts: now,
            bad_lobby,
            note: shorten(note, 200),
            last_lobby: last,
            verdict_at_feedback: verdict_label.to_owned(),
            score_at_feedback: verdict_score,
        };
        proof {
            lemma_pushed_feedback(self.feedback@, f, MAX_FEEDBACK as nat);
        }
        push_sample(&mut self.feedback, f, MAX_FEEDBACK);
    }
}

/// A bounded record keeps the newest element, loses none while there is room, and never grows
/// beyond its limit.
pub proof fn newest_is_kept<A>(s: Seq<A>, x: A, limit: nat)
    requires
        limit > 0,
    ensures
        pushed(s, x, limit).len() <= limit,
        pushed(s, x, limit).last() == x,
        s.len() < limit ==> pushed(s, x, limit) == s.push(x),
{
    if s.len() < limit {
        assert(pushed(s, x, limit) =~= s.push(x));
    }
}

/// Connections are alike where they differ by no more than a quarter of those recorded, or by
/// eight where fewer than 32 were.
pub proof fn alike_is_within_a_quarter(recorded: int, conns: int)
    requires
        recorded >= 0,
    ensures
        alike(recorded, conns) <==> (-8 <= conns - recorded <= 8 || (4 * (conns - recorded)
            <= recorded && 4 * (recorded - conns) <= recorded)),
        alike(recorded, recorded),
{
}

/// A mark spreads over the lobbies that are near: of the last thirty, each that is no older than
/// ten minutes and alike gets the label, and so does every other entry keep all that it had. The
/// search ends at the first that is too old.
pub proof fn marks_spread_over_near_lobbies(
    l: Seq<LobbyView>,
    ts: i64,
    conns: i64,
    label: Seq<char>,
    i: int,
)
    requires
        0 <= i < l.len(),
    ensures
        ({
            let m = recent_relabelled(l, ts, conns, label);
            let looked_at = i >= l.len() - 30 && forall|k: int|
                i <= k < l.len() ==> ts - (#[trigger] l[k]).ts <= 600_000_000;
            &&& m.len() == l.len()
            &&& looked_at && alike(l[i].conns as int, conns as int) ==> m[i].label == label
            &&& !(looked_at && alike(l[i].conns as int, conns as int)) ==> m[i] == l[i]
            &&& m[i].ts == l[i].ts && m[i].conns == l[i].conns && m[i].confidence
                == l[i].confidence && m[i].fold == l[i].fold && m[i].phase == l[i].phase
                && m[i].mm_delta == l[i].mm_delta
        }),
{
    lemma_relabelled(l, l.len() - 1, 30, ts, 600_000_000, conns, label, i);
}

proof fn lemma_relabelled(
    l: Seq<LobbyView>,
    at: int,
    left: nat,
    ts: i64,
    limit: int,
    conns: i64,
    label: Seq<char>,
    i: int,
)
    requires
        0 <= i < l.len(),
        at < l.len(),
    ensures
        ({
            let m = relabelled(l, at, left, ts, limit, conns, label);
            let looked_at = at - left < i <= at && forall|k: int|
                i <= k <= at ==> ts - (#[trigger] l[k]).ts <= limit;
            &&& m.len() == l.len()
            &&& m[i] == if looked_at && alike(l[i].conns as int, conns as int) {
                LobbyView { label, ..l[i] }
            } else {
                l[i]
            }
        }),
    decreases left,
{
    if left == 0 || at < 0 {
    } else if ts - l[at].ts > limit {
    } else {
        let entry = if alike(l[at].conns as int, conns as int) {
            LobbyView { label, ..l[at] }
        } else {
            l[at]
        };
        let u = l.update(at, entry);
        lemma_relabelled(u, at - 1, (left - 1) as nat, ts, limit, conns, label, i);
        if i < at {
            assert(u[i] == l[i]);
            assert forall|k: int| i <= k <= at - 1 implies u[k] == l[k] by {}
            assert((forall|k: int| i <= k <= at ==> ts - (#[trigger] l[k]).ts <= limit) <==> (
            forall|k: int| i <= k <= at - 1 ==> ts - (#[trigger] u[k]).ts <= limit)) by {
                if forall|k: int| i <= k <= at - 1 ==> ts - (#[trigger] u[k]).ts <= limit {
                    assert forall|k: int| i <= k <= at implies ts - (#[trigger] l[k]).ts
                        <= limit by {
                        if k < at {
                            assert(u[k] == l[k]);
                        }
                    }
                }
            }
        }
    }
}

/// What a mark leaves: the newest lobby has its label, a bad one at least 55 % of confidence; the
/// active session is confirmed bad with at least 75 %, after a kick 90 %, or marked good; the last
/// three sessions are confirmed with a bad mark; and the newest mark tells of the newest lobby.
pub proof fn marks_are_kept(
    v: LearningView,
    ts: i64,
    bad_lobby: bool,
    note: Seq<char>,
    verdict_label: Seq<char>,
    verdict_score: i64,
)
    ensures
        ({
            let w = v.marked(ts, bad_lobby, note, verdict_label, verdict_score);
            let n = v.lobbies.len();
            let x = w.feedback.last();
            &&& w.lobbies.len() == n
            &&& n > 0 && !bad_lobby ==> w.lobbies.last().confidence == v.lobbies.last().confidence
                && w.lobbies.last().label == "USER_GOOD"@
            &&& n > 0 && bad_lobby ==> w.lobbies.last().confidence >= 55_000_000
                && w.lobbies.last().confidence >= v.lobbies.last().confidence
            &&& n > 0 && bad_lobby ==> w.lobbies.last().label == "USER_BAD"@
                || w.lobbies.last().label == "USER_MARGINAL"@
            &&& n > 0 && bad_lobby && verdict_label != "POSSIBLE"@ ==> w.lobbies.last().label
                == "USER_BAD"@
            &&& w.active is Some <==> v.active is Some
            &&& v.active is Some && bad_lobby ==> {
                &&& w.active->0.confirmed_bad
                &&& w.active->0.worst_verdict == "LIKELY"@
                &&& w.active->0.worst_score >= 75_000_000
                &&& has_text(lowercase(note), "kick"@) ==> w.active->0.worst_score >= 90_000_000
                &&& w.active->0.worst_score >= v.active->0.worst_score
            }
            &&& v.active is Some && !bad_lobby ==> {
                &&& w.active->0.user_marked_good
                &&& w.active->0.confirmed_bad == v.active->0.confirmed_bad
                &&& w.active->0.worst_verdict != "LIKELY"@
                &&& w.active->0.worst_verdict != "POSSIBLE"@
                &&& w.active->0.worst_score <= v.active->0.worst_score
                &&& w.active->0.worst_verdict != v.active->0.worst_verdict
                    ==> w.active->0.worst_score <= 20_000_000
            }
            &&& !bad_lobby ==> w.completed == v.completed
            &&& w.completed.len() == v.completed.len()
            &&& bad_lobby ==> forall|i: int|
                v.completed.len() - 3 <= i < v.completed.len() && 0 <= i ==> (
                #[trigger] w.completed[i]).confirmed_bad
            &&& forall|i: int|
                0 <= i < v.completed.len() - 3 ==> #[trigger] w.completed[i] == v.completed[i]
            &&& x.ts == ts && x.bad_lobby == bad_lobby && x.verdict_at_feedback == verdict_label
                && x.score_at_feedback == verdict_score
            &&& x.note.len() <= 200 && x.note.is_prefix_of(note)
            &&& note.len() <= 200 ==> x.note == note
            &&& x.last_lobby == if n > 0 {
                Some(w.lobbies.last())
            } else {
                None
            }
            &&& w.history == v.history && w.outcomes == v.outcomes
        }),
{
    lemma_phase_words();
    reveal_strlit("CLEAN");
    reveal_strlit("LIKELY");
    reveal_strlit("POSSIBLE");
    assert("CLEAN"@.len() == 5 && "LIKELY"@.len() == 6 && "POSSIBLE"@.len() == 8);
    let n = v.lobbies.len();
    let label = if bad_lobby {
        if verdict_label == "POSSIBLE"@ {
            "USER_MARGINAL"@
        } else {
            "USER_BAD"@
        }
    } else {
        "USER_GOOD"@
    };
    let floor: i64 = if bad_lobby {
        55_000_000
    } else {
        i64::MIN
    };
    let spread = if bad_lobby {
        "USER_BAD"@
    } else {
        "USER_GOOD"@
    };
    let w = v.marked(ts, bad_lobby, note, verdict_label, verdict_score);
    if n > 0 {
        let last = LobbyView {
            label,
            confidence: larger(v.lobbies.last().confidence as int, floor as int) as i64,
            ..v.lobbies.last()
        };
        let u = v.lobbies.update(n - 1, last);
        lemma_relabelled(u, n - 1, 30, ts, 600_000_000, last.conns, spread, n - 1);
        assert(u[n - 1] == last);
        assert(w.lobbies == recent_relabelled(u, ts, last.conns, spread));
    }
    let x = FeedbackView {
        ts,
        bad_lobby,
        note: first_chars(note, 200),
        last_lobby: if n > 0 {
            Some(w.lobbies.last())
        } else {
            None
        },
        verdict_at_feedback: verdict_label,
        score_at_feedback: verdict_score,
    };
    newest_is_kept(v.feedback, x, MAX_FEEDBACK as nat);
    assert(w.feedback == pushed(v.feedback, x, MAX_FEEDBACK as nat));
    assert(x.note.is_prefix_of(note)) by {
        assert(note.subrange(0, x.note.len() as int) =~= x.note);
    }
}

/// What a poll leaves of a session: one begins with play and ends with rest, and until then it
/// keeps its highest connections and the worst of its verdicts.
pub proof fn sessions_last_while_there_is_play(
    v: LearningView,
    ts: i64,
    snapshot: JsonView,
    phase: Seq<char>,
    conns: i64,
    label: Seq<char>,
    confidence: i64,
)
    ensures
        ({
            let w = v.session_polled(ts, snapshot, phase, conns, label, confidence);
            let play = phase == "matchmaking"@ || phase == "in-match"@;
            let rest = phase == "idle"@ || phase == "background"@ || phase == "post-match"@;
            &&& play ==> w.active is Some
            &&& rest ==> w.active is None
            &&& !play && !rest ==> (w.active is Some <==> v.active is Some)
            &&& v.active is None && !play ==> w == v
            &&& v.active is None && play ==> {
                &&& w.active->0.started_at == ts
                &&& w.active->0.peak_conns == conns
                &&& w.active->0.worst_verdict == label
                &&& w.active->0.worst_score == confidence
                &&& w.active->0.gaming_polls == 1
                &&& w.active->0.phases == seq![(phase, ts)]
                &&& !w.active->0.confirmed_bad
            }
            &&& v.active is Some && !rest ==> {
                &&& w.active->0.started_at == v.active->0.started_at
                &&& w.active->0.peak_conns >= conns
                &&& w.active->0.peak_conns >= v.active->0.peak_conns
                &&& w.active->0.peak_conns == conns || w.active->0.peak_conns
                    == v.active->0.peak_conns
                &&& w.active->0.worst_score >= confidence
                &&& w.active->0.worst_score >= v.active->0.worst_score
                &&& w.active->0.worst_score > confidence ==> w.active->0.worst_verdict
                    == v.active->0.worst_verdict && w.active->0.worst_score
                    == v.active->0.worst_score
                &&& w.active->0.worst_score == confidence ==> w.active->0.worst_verdict == label
                &&& v.active->0.gaming_polls < u32::MAX ==> w.active->0.gaming_polls
                    == v.active->0.gaming_polls + 1
                &&& w.active->0.phases.last().0 == phase
                &&& v.active->0.phases.is_prefix_of(w.active->0.phases)
            }
            &&& v.active is Some && rest ==> {
                &&& w.completed.last().ended_at == Some(ts)
                &&& w.outcomes.last().ended_at == ts
                &&& w.outcomes.last().worst_score == w.completed.last().worst_score
                &&& w.outcomes.last().worst_verdict == w.completed.last().worst_verdict
                &&& w.outcomes.last().confirmed_bad == v.active->0.confirmed_bad
                &&& w.outcomes.last().peak_conns >= conns
                &&& w.completed.last().worst_score >= confidence
            }
            &&& !(v.active is Some && rest) ==> w.completed == v.completed && w.outcomes
                == v.outcomes
            &&& w.history == v.history && w.lobbies == v.lobbies && w.feedback == v.feedback
        }),
{
    lemma_phase_words();
    reveal_strlit("post-match");
    reveal_strlit("background");
    reveal_strlit("idle");
    assert("post-match"@.len() == 10 && "background"@.len() == 10 && "idle"@.len() == 4);
    let w = v.session_polled(ts, snapshot, phase, conns, label, confidence);
    if v.active is Some {
        let p = v.active->0.polled(ts, phase, conns, label, confidence);
        newest_is_kept(v.completed, p.ended(ts), MAX_SESSIONS as nat);
        newest_is_kept(v.outcomes, p.outcome(ts), MAX_OUTCOMES as nat);
        let a = v.active->0.phases;
        assert(p.phases.subrange(0, a.len() as int) =~= a);
    } else if gaming(phase) {
        let b = session_begun(ts, stated_game(snapshot), conns, label, confidence);
        assert(b.polled(ts, phase, conns, label, confidence).phases =~= seq![(phase, ts)]);
    }
}

/// A session lasts from its start to its end, in whole seconds.
pub proof fn sessions_are_timed(s: SessionView, ts: i64)
    requires
        ts >= s.started_at,
        (ts - s.started_at) / 1_000_000 <= i64::MAX,
    ensures
        ({
            let d = s.ended(ts).duration_sec->0;
            &&& d * 1_000_000 <= ts - s.started_at < (d + 1) * 1_000_000
            &&& s.outcome(ts).duration_sec == d
        }),
{
}

/// Lobbies are kept while there is play, and only then: with what was seen of them, and their
/// fold.
pub proof fn lobbies_are_kept_in_play(
    v: LearningView,
    ts: i64,
    phase: Seq<char>,
    conns: i64,
    label: Seq<char>,
    confidence: i64,
    mm_delta: Option<i64>,
    fold: [u32; 32],
)
    ensures
        ({
            let w = v.lobby_polled(ts, phase, conns, label, confidence, mm_delta, fold);
            let play = phase == "matchmaking"@ || phase == "in-match"@;
            let x = w.lobbies.last();
            &&& !play ==> w == v
            &&& play ==> w.lobbies.len() > 0 && w.lobbies.len() >= v.lobbies.len()
                || v.lobbies.len() > MAX_LOBBIES
            &&& play ==> x.ts == ts && x.conns == conns && x.label == label && x.confidence
                == confidence && x.phase == phase && x.fold == Some(fold) && x.mm_delta == mm_delta
            &&& w.history == v.history && w.active == v.active && w.feedback == v.feedback
        }),
{
    let x = LobbyView { ts, phase, label, confidence, conns, mm_delta, fold: Some(fold) };
    newest_is_kept(v.lobbies, x, MAX_LOBBIES as nat);
}

/// Each poll leaves one sample of what it measured at the end of each series, with its time and
/// phase; what was not measured leaves none.
pub proof fn polls_leave_samples(
    h: HistoryView,
    ts: i64,
    snapshot: JsonView,
    phase: Seq<char>,
    label: Seq<char>,
    confidence: i64,
    mm_delta: Option<i64>,
    server_jitter: Option<i64>,
)
    ensures
        ({
            let g = history_after(
                h,
                ts,
                snapshot,
                phase,
                label,
                confidence,
                mm_delta,
                server_jitter,
            );
            let c = g.cheater_scores.last();
            &&& c.v == confidence && c.ts == ts && c.phase == phase && c.label == label
            &&& g.conn_count.last().v == kept(conn_total(snapshot) * 1_000_000) as i64
            &&& g.conn_count.last().phase == phase
            &&& mm_delta is Some ==> g.mm_delta.last().v == mm_delta->0 && g.mm_delta.last().ts
                == ts
            &&& mm_delta is None ==> g.mm_delta == h.mm_delta
            &&& server_jitter is Some ==> g.server_jitter.last().v == server_jitter->0
            &&& server_jitter is None ==> g.server_jitter == h.server_jitter
            &&& wan_latency(snapshot) is Some ==> g.wan_latency.last().v == wan_latency(
                snapshot,
            )->0 as i64
            &&& wan_latency(snapshot) is None ==> g.wan_latency == h.wan_latency
            &&& g.inbound_mbps.last().v == mbps(sampled(snapshot, "bytesIn"@),
                window(snapshot)) as i64
            &&& g.outbound_mbps.last().v == mbps(
                sampled(snapshot, "bytesOut"@),
                window(snapshot),
            ) as i64
            &&& g.in_out_ratio.last().v == in_out_ratio(
                sampled(snapshot, "bytesIn"@),
                sampled(snapshot, "bytesOut"@),
            ) as i64
            &&& g.packet_kpps.last().v == kpps(sampled(snapshot, "packets"@),
                window(snapshot)) as i64
        }),
{
    let g = history_after(h, ts, snapshot, phase, label, confidence, mm_delta, server_jitter);
    let n = MAX_SAMPLES as nat;
    assert forall|s: Seq<SampleView>, x: SampleView| (#[trigger] pushed(s, x, n)).last() == x by {
        newest_is_kept(s, x, n);
    }
}

/// A poll leaves its samples, goes on with the session, and in play leaves its lobby; marks and
/// archive stay as they were.
pub proof fn polls_leave_all_they_saw(
    v: LearningView,
    ts: i64,
    snapshot: JsonView,
    phase: Seq<char>,
    label: Seq<char>,
    confidence: i64,
    mm_delta: Option<i64>,
    server_jitter: Option<i64>,
    fold: [u32; 32],
)
    ensures
        ({
            let w = v.polled(
                ts,
                snapshot,
                phase,
                label,
                confidence,
                mm_delta,
                server_jitter,
                fold,
            );
            let play = phase == "matchmaking"@ || phase == "in-match"@;
            let x = w.lobbies.last();
            &&& w.history.cheater_scores.last().v == confidence
            &&& w.history.cheater_scores.last().ts == ts
            &&& play ==> w.active is Some
            &&& play && v.active is None ==> w.active->0.started_at == ts
            &&& play ==> x.ts == ts && x.label == label && x.confidence == confidence && x.conns
                == conn_total(snapshot) as i64 && x.fold == Some(fold)
            &&& !play ==> w.lobbies == v.lobbies
            &&& w.feedback == v.feedback && w.folded_blob == v.folded_blob
        }),
{
    let conns = conn_total(snapshot) as i64;
    let h = history_after(
        v.history,
        ts,
        snapshot,
        phase,
        label,
        confidence,
        mm_delta,
        server_jitter,
    );
    let a = LearningView { history: h, ..v };
    let b = a.session_polled(ts, snapshot, phase, conns, label, confidence);
    polls_leave_samples(
        v.history,
        ts,
        snapshot,
        phase,
        label,
        confidence,
        mm_delta,
        server_jitter,
    );
    sessions_last_while_there_is_play(a, ts, snapshot, phase, conns, label, confidence);
    lobbies_are_kept_in_play(b, ts, phase, conns, label, confidence, mm_delta, fold);
    newest_is_kept(
        b.lobbies,
        LobbyView { ts, phase, label, confidence, conns, mm_delta, fold: Some(fold) },
        MAX_LOBBIES as nat,
    );
}

} // verus!
