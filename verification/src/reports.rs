//! The documents that records, advice, defenses and sessions are shown and kept as.
use vstd::prelude::*;

use crate::ai_advisor::{AiContext, AiReport, Prediction, Recommendation, ScoreSource, Trajectory};
use crate::documents::{
    plain_answer, plain_answer_fields, signal_fields, signals_json, threshold_fields,
};
use crate::fields::{
    int_json, int_view, ints, ints_view, opt_real_json, opt_real_view, opt_rounded_json,
    opt_rounded_view, opt_text, opt_text_view, real_json, real_view, reals, reals_view,
    rounded_json, rounded_view, texts, texts_view, Entries, Fields,
};
use crate::fold::FOLD_DIM;
use crate::game_state::IngestReply;
use crate::insights::{Calibration, Insights};
use crate::json::{array, bool_or, dup_first, entry, flag_or, json_views, text, Json, JsonView};
use crate::learning::{PhaseMark, Session};
use crate::network_guard::{
    moca_dscp, BriefStatus, FloodStatus, GuardStatus, MocaStatus, RqdSample, ShieldStatus,
    UploadStatus,
};
use crate::network_session::DashboardMeta;
use crate::peer_tracker::{ClearedTable, PeerLine, SessionMeta, TrackerReport};
use crate::session_export::Format;
use crate::session_files::SessionDetail;
use crate::session_risk::SessionRisk;
use crate::signals::{signal_views, Signal};
use crate::text::{cat3, dec, decimal, same, views};

verus! {

// ---------------------------------------------------------------------------------------------
// Records

/// When a phase began.
pub open spec fn phase_fields(m: PhaseMark) -> Entries {
    seq![
        ("phase"@, JsonView::Str(m.phase@)),
        ("at"@, real_view(m.at as int)),
    ]
}

fn phase_json(m: &PhaseMark) -> (r: Json)
    ensures
        r@ == JsonView::Obj(phase_fields(*m)),
{
    let f = Fields::new()
        .put("phase", text(m.phase.as_str()))
        .put("at", real_json(m.at));
    assert(f@ =~= phase_fields(*m));
    f.done()
}

/// The phases of a session.
pub open spec fn phases_view(v: Seq<PhaseMark>) -> JsonView {
    JsonView::Arr(v.map_values(|x: PhaseMark| JsonView::Obj(phase_fields(x))))
}

fn phases_json(v: &Vec<PhaseMark>) -> (r: Json)
    ensures
        r@ == phases_view(v@),
{
    let ghost want = v@.map_values(|x: PhaseMark| JsonView::Obj(phase_fields(x)));
    let mut out: Vec<Json> = Vec::new();
    let mut i: usize = 0;
    while i < v.len()
        invariant
            i <= v.len(),
            want == v@.map_values(|x: PhaseMark| JsonView::Obj(phase_fields(x))),
            json_views(out@) == want.take(i as int),
        decreases v.len() - i,
    {
        let ghost before = out@;
        let d = phase_json(&v[i]);
        out.push(d);
        assert(json_views(out@) =~= json_views(before).push(d@));
        assert(json_views(out@) =~= want.take(i + 1));
        i += 1;
    }
    assert(want.take(i as int) =~= want);
    array(out)
}

/// What is known of a session while it runs.
pub open spec fn open_session_fields(x: Session) -> Entries {
    seq![
        ("started_at"@, real_view(x.started_at as int)),
        ("game"@, JsonView::Str(x.game@)),
        ("phases"@, phases_view(x.phases@)),
        ("peak_conns"@, int_view(x.peak_conns as int)),
        ("worst_verdict"@, JsonView::Str(x.worst_verdict@)),
        ("worst_score"@, real_view(x.worst_score as int)),
        ("confirmed_bad"@, JsonView::Bool(x.confirmed_bad)),
        ("user_marked_good"@, JsonView::Bool(x.user_marked_good)),
        ("desync_polls"@, JsonView::UInt(x.desync_polls as u64)),
        ("flood_polls"@, JsonView::UInt(x.flood_polls as u64)),
        ("gaming_polls"@, JsonView::UInt(x.gaming_polls as u64)),
    ]
}

/// A session of the records; what is not known yet is left out.
pub open spec fn session_fields(x: Session) -> Entries {
    let f = open_session_fields(x);
    let f = match x.ended_at {
        Some(t) => f.push(("ended_at"@, real_view(t as int))),
        None => f,
    };
    match x.duration_sec {
        Some(n) => f.push(("duration_sec"@, int_view(n as int))),
        None => f,
    }
}

impl Session {
    /// The session as it is shown.
    pub fn to_json(&self) -> (r: Json)
        ensures
            r@ == JsonView::Obj(session_fields(*self)),
    {
        let x = self;
        let f = Fields::new()
            .put("started_at", real_json(x.started_at))
            .put("game", text(x.game.as_str()))
            .put("phases", phases_json(&x.phases))
            .put("peak_conns", int_json(x.peak_conns))
            .put("worst_verdict", text(x.worst_verdict.as_str()))
            .put("worst_score", real_json(x.worst_score))
            .put("confirmed_bad", Json::Bool(x.confirmed_bad))
            .put("user_marked_good", Json::Bool(x.user_marked_good))
            .put("desync_polls", Json::UInt(x.desync_polls as u64))
            .put("flood_polls", Json::UInt(x.flood_polls as u64))
            .put("gaming_polls", Json::UInt(x.gaming_polls as u64));
        assert(f@ =~= open_session_fields(*self));
        let f = match x.ended_at {
            Some(t) => f.put("ended_at", real_json(t)),
            None => f,
        };
        let f = match x.duration_sec {
            Some(n) => f.put("duration_sec", int_json(n)),
            None => f,
        };
        f.done()
    }
}

/// How many lobbies and marks of each kind the records hold.
pub open spec fn profile_fields(i: Insights) -> Entries {
    seq![
        ("good_samples"@, JsonView::UInt(i.good_samples as u64)),
        ("bad_samples"@, JsonView::UInt(i.bad_samples as u64)),
        ("marginal_samples"@, JsonView::UInt(i.marginal_samples as u64)),
        ("good_feedback"@, JsonView::UInt(i.good_feedback)),
        ("bad_feedback"@, JsonView::UInt(i.bad_feedback)),
    ]
}

fn profiles_json(i: &Insights) -> (r: Json)
    ensures
        r@ == JsonView::Obj(profile_fields(*i)),
{
    let f = Fields::new()
        .put("good_samples", Json::UInt(i.good_samples as u64))
        .put("bad_samples", Json::UInt(i.bad_samples as u64))
        .put("marginal_samples", Json::UInt(i.marginal_samples as u64))
        .put("good_feedback", Json::UInt(i.good_feedback))
        .put("bad_feedback", Json::UInt(i.bad_feedback));
    assert(f@ =~= profile_fields(*i));
    f.done()
}

/// How many samples of each kind the records hold.
pub open spec fn sample_fields(i: Insights) -> Entries {
    seq![
        ("wan_latency"@, JsonView::UInt(i.wan_latency as u64)),
        ("conn_count"@, JsonView::UInt(i.conn_count as u64)),
        ("matchmaking_latency"@, JsonView::UInt(i.matchmaking_latency as u64)),
        ("mm_delta"@, JsonView::UInt(i.mm_delta as u64)),
        ("cheater_scores"@, JsonView::UInt(i.cheater_scores as u64)),
    ]
}

fn samples_json(i: &Insights) -> (r: Json)
    ensures
        r@ == JsonView::Obj(sample_fields(*i)),
{
    let f = Fields::new()
        .put("wan_latency", Json::UInt(i.wan_latency as u64))
        .put("conn_count", Json::UInt(i.conn_count as u64))
        .put("matchmaking_latency", Json::UInt(i.matchmaking_latency as u64))
        .put("mm_delta", Json::UInt(i.mm_delta as u64))
        .put("cheater_scores", Json::UInt(i.cheater_scores as u64));
    assert(f@ =~= sample_fields(*i));
    f.done()
}

/// What the records know, with the session that is on.
pub open spec fn insight_fields(i: Insights, active: Option<Session>) -> Entries {
    seq![
        ("engine"@, JsonView::Str("rust"@)),
        ("fold_dim"@, JsonView::UInt(FOLD_DIM as u64)),
        ("folded_lobbies"@, JsonView::UInt(i.folded_lobbies as u64)),
        ("fold_blob_kb"@, rounded_view(i.fold_blob_bytes * 1_000_000 / 1024, 100_000)),
        ("thresholds"@, JsonView::Obj(threshold_fields(i.thresholds))),
        ("profiles"@, JsonView::Obj(profile_fields(i))),
        ("samples"@, JsonView::Obj(sample_fields(i))),
        ("sessions_completed"@, JsonView::UInt(i.sessions_completed as u64)),
        ("outcomes_tracked"@, JsonView::UInt(i.outcomes_tracked as u64)),
        ("lobbies_tracked"@, JsonView::UInt(i.lobbies_tracked as u64)),
        ("feedback_count"@, JsonView::UInt(i.feedback_count as u64)),
        ("patterns"@, texts_view(views(i.patterns@))),
        (
            "active_session"@,
            match active {
                Some(x) => JsonView::Obj(session_fields(x)),
                None => JsonView::Null,
            },
        ),
    ]
}

impl Insights {
    /// The insights as they are shown, with the session that is on.
    pub fn to_json(&self, active: &Option<Session>) -> (r: Json)
        ensures
            r@ == JsonView::Obj(insight_fields(*self, *active)),
    {
        let i = self;
        let session = match active {
            Some(x) => x.to_json(),
            None => Json::Null,
        };
        let f = Fields::new()
            .put("engine", text("rust"))
            .put("fold_dim", Json::UInt(FOLD_DIM as u64))
            .put("folded_lobbies", Json::UInt(i.folded_lobbies as u64))
            .put(
                "fold_blob_kb",
                rounded_json(i.fold_blob_bytes as i128 * 1_000_000 / 1024, 100_000),
            )
            .put("thresholds", i.thresholds.to_json())
            .put("profiles", profiles_json(i))
            .put("samples", samples_json(i))
            .put("sessions_completed", Json::UInt(i.sessions_completed as u64))
            .put("outcomes_tracked", Json::UInt(i.outcomes_tracked as u64))
            .put("lobbies_tracked", Json::UInt(i.lobbies_tracked as u64))
            .put("feedback_count", Json::UInt(i.feedback_count as u64))
            .put("patterns", texts(&i.patterns))
            .put("active_session", session);
        assert(f@ =~= insight_fields(*self, *active));
        f.done()
    }
}

/// How the verdicts stood up to the marks.
pub open spec fn calibration_fields(c: Calibration) -> Entries {
    seq![
        ("feedback_total"@, JsonView::UInt(c.feedback_total as u64)),
        ("true_positives"@, JsonView::UInt(c.true_positives)),
        ("false_alarms"@, JsonView::UInt(c.false_alarms)),
        ("missed_bad"@, JsonView::UInt(c.missed_bad)),
        ("good_marks"@, JsonView::UInt(c.good_marks)),
        ("bad_marks"@, JsonView::UInt(c.bad_marks)),
        ("needs_clean_marks"@, JsonView::Bool(c.needs_clean_marks)),
        (
            "precision_pct"@,
            match c.precision_tenths {
                Some(t) => rounded_view(t * 100_000, 100_000),
                None => JsonView::Null,
            },
        ),
    ]
}

impl Calibration {
    /// The calibration as it is shown.
    pub fn to_json(&self) -> (r: Json)
        ensures
            r@ == JsonView::Obj(calibration_fields(*self)),
    {
        let c = self;
        let precision = match c.precision_tenths {
            Some(t) => rounded_json(t as i128 * 100_000, 100_000),
            None => Json::Null,
        };
        let f = Fields::new()
            .put("feedback_total", Json::UInt(c.feedback_total as u64))
            .put("true_positives", Json::UInt(c.true_positives))
            .put("false_alarms", Json::UInt(c.false_alarms))
            .put("missed_bad", Json::UInt(c.missed_bad))
            .put("good_marks", Json::UInt(c.good_marks))
            .put("bad_marks", Json::UInt(c.bad_marks))
            .put("needs_clean_marks", Json::Bool(c.needs_clean_marks))
            .put("precision_pct", precision);
        assert(f@ =~= calibration_fields(*self));
        f.done()
    }
}

// ---------------------------------------------------------------------------------------------
// Advice

/// A part of the score.
pub open spec fn source_fields(x: ScoreSource) -> Entries {
    let f = seq![
        ("source"@, JsonView::Str(x.source@)),
        ("label"@, JsonView::Str(x.label@)),
        ("contribution"@, real_view(x.contribution as int)),
        ("detail"@, texts_view(views(x.detail@))),
    ];
    match x.adjusted_score {
        Some(n) => f.push(("adjusted_score"@, real_view(n as int))),
        None => f,
    }
}

fn source_json(x: &ScoreSource) -> (r: Json)
    ensures
        r@ == JsonView::Obj(source_fields(*x)),
{
    let f = Fields::new()
        .put("source", text(x.source))
        .put("label", text(x.label))
        .put("contribution", real_json(x.contribution))
        .put("detail", texts(&x.detail));
    let f = match x.adjusted_score {
        Some(n) => f.put("adjusted_score", real_json(n)),
        None => f,
    };
    assert(f@ =~= source_fields(*x));
    f.done()
}

/// The parts of the score.
pub open spec fn sources_view(v: Seq<ScoreSource>) -> JsonView {
    JsonView::Arr(v.map_values(|x: ScoreSource| JsonView::Obj(source_fields(x))))
}

fn sources_json(v: &Vec<ScoreSource>) -> (r: Json)
    ensures
        r@ == sources_view(v@),
{
    let ghost want = v@.map_values(|x: ScoreSource| JsonView::Obj(source_fields(x)));
    let mut out: Vec<Json> = Vec::new();
    let mut i: usize = 0;
    while i < v.len()
        invariant
            i <= v.len(),
            want == v@.map_values(|x: ScoreSource| JsonView::Obj(source_fields(x))),
            json_views(out@) == want.take(i as int),
        decreases v.len() - i,
    {
        let ghost before = out@;
        let d = source_json(&v[i]);
        out.push(d);
        assert(json_views(out@) =~= json_views(before).push(d@));
        assert(json_views(out@) =~= want.take(i + 1));
        i += 1;
    }
    assert(want.take(i as int) =~= want);
    array(out)
}

/// Where the score comes from.
pub open spec fn breakdown_fields(ctx: AiContext, sources: Seq<ScoreSource>) -> Entries {
    seq![
        ("final_score"@, rounded_view(ctx.final_score as int, 100_000)),
        ("final_label"@, JsonView::Str(ctx.final_label@)),
        ("sources"@, sources_view(sources)),
    ]
}

fn breakdown_json(ctx: &AiContext, sources: &Vec<ScoreSource>) -> (r: Json)
    ensures
        r@ == JsonView::Obj(breakdown_fields(*ctx, sources@)),
{
    let f = Fields::new()
        .put("final_score", rounded_json(ctx.final_score as i128, 100_000))
        .put("final_label", text(ctx.final_label.as_str()))
        .put("sources", sources_json(sources));
    assert(f@ =~= breakdown_fields(*ctx, sources@));
    f.done()
}

/// The course of the last twelve polls.
pub open spec fn trajectory_fields(t: Trajectory) -> Entries {
    seq![
        ("connections"@, ints_view(t.connections@)),
        ("scores"@, reals_view(t.scores@)),
        ("conn_delta_12p"@, int_view(t.conn_delta as int)),
        ("score_delta_12p"@, real_view(t.score_delta as int)),
    ]
}

fn trajectory_json(t: &Trajectory) -> (r: Json)
    ensures
        r@ == JsonView::Obj(trajectory_fields(*t)),
{
    let f = Fields::new()
        .put("connections", ints(&t.connections))
        .put("scores", reals(&t.scores))
        .put("conn_delta_12p", int_json(t.conn_delta))
        .put("score_delta_12p", real_json(t.score_delta));
    assert(f@ =~= trajectory_fields(*t));
    f.done()
}

/// Where the session is heading.
pub open spec fn prediction_fields(p: Prediction) -> Entries {
    seq![
        ("trend"@, JsonView::Str(p.trend@)),
        ("estimated_bad_probability"@, real_view(p.estimated_bad_probability as int)),
        ("risk_factors"@, texts_view(views(p.risk_factors@))),
        ("early_warning"@, JsonView::Bool(p.early_warning)),
    ]
}

fn prediction_json(p: &Prediction) -> (r: Json)
    ensures
        r@ == JsonView::Obj(prediction_fields(*p)),
{
    let f = Fields::new()
        .put("trend", text(p.trend))
        .put("estimated_bad_probability", real_json(p.estimated_bad_probability))
        .put("risk_factors", texts(&p.risk_factors))
        .put("early_warning", Json::Bool(p.early_warning));
    assert(f@ =~= prediction_fields(*p));
    f.done()
}

/// A piece of advice.
pub open spec fn recommendation_fields(a: Recommendation) -> Entries {
    seq![
        ("priority"@, JsonView::Str(a.priority@)),
        ("action"@, JsonView::Str(a.action@)),
        ("text"@, JsonView::Str(a.text@)),
    ]
}

fn recommendation_json(a: &Recommendation) -> (r: Json)
    ensures
        r@ == JsonView::Obj(recommendation_fields(*a)),
{
    let f = Fields::new()
        .put("priority", text(a.priority))
        .put("action", text(a.action))
        .put("text", text(a.text.as_str()));
    assert(f@ =~= recommendation_fields(*a));
    f.done()
}

/// All recommendations.
pub open spec fn recommendations_view(v: Seq<Recommendation>) -> JsonView {
    JsonView::Arr(v.map_values(|x: Recommendation| JsonView::Obj(recommendation_fields(x))))
}

fn recommendations_json(v: &Vec<Recommendation>) -> (r: Json)
    ensures
        r@ == recommendations_view(v@),
{
    let ghost want = v@.map_values(|x: Recommendation| JsonView::Obj(recommendation_fields(x)));
    let mut out: Vec<Json> = Vec::new();
    let mut i: usize = 0;
    while i < v.len()
        invariant
            i <= v.len(),
            want == v@.map_values(|x: Recommendation| JsonView::Obj(recommendation_fields(x))),
            json_views(out@) == want.take(i as int),
        decreases v.len() - i,
    {
        let ghost before = out@;
        let d = recommendation_json(&v[i]);
        out.push(d);
        assert(json_views(out@) =~= json_views(before).push(d@));
        assert(json_views(out@) =~= want.take(i + 1));
        i += 1;
    }
    assert(want.take(i as int) =~= want);
    array(out)
}

/// What the advice is based on.
pub open spec fn feature_fields(ctx: AiContext, snapshot: JsonView) -> Entries {
    seq![
        ("connections"@, int_view(ctx.conns as int)),
        ("phase"@, JsonView::Str(ctx.phase@)),
        ("wan_jitter_ms"@, opt_rounded_view(ctx.wan_jitter, 100_000)),
        ("server_jitter_ms"@, opt_rounded_view(ctx.server_jitter, 100_000)),
        ("mm_delta_ms"@, opt_rounded_view(ctx.mm_delta, 100_000)),
        (
            "role_counts"@,
            match snapshot.field_in("_enriched"@, "roleCounts"@) {
                Some(v) => v,
                None => JsonView::Obj(Seq::empty()),
            },
        ),
        ("fold_dim"@, JsonView::UInt(FOLD_DIM as u64)),
    ]
}

/// What the advice is based on.
pub fn active_features(ctx: &AiContext, snapshot: &Json) -> (r: Json)
    ensures
        r@ == JsonView::Obj(feature_fields(*ctx, snapshot@)),
{
    let roles = match snapshot.get_in("_enriched", "roleCounts") {
        Some(v) => v.dup(),
        None => Fields::new().done(),
    };
    let f = Fields::new()
        .put("connections", int_json(ctx.conns))
        .put("phase", text(ctx.phase.as_str()))
        .put("wan_jitter_ms", opt_rounded_json(ctx.wan_jitter, 100_000))
        .put("server_jitter_ms", opt_rounded_json(ctx.server_jitter, 100_000))
        .put("mm_delta_ms", opt_rounded_json(ctx.mm_delta, 100_000))
        .put("role_counts", roles)
        .put("fold_dim", Json::UInt(FOLD_DIM as u64));
    assert(f@ =~= feature_fields(*ctx, snapshot@));
    f.done()
}

/// The advice on a poll. `similar` lists the lobbies like it.
pub open spec fn advice_fields(
    a: AiReport,
    ctx: AiContext,
    similar: JsonView,
    calibration: Calibration,
    snapshot: JsonView,
) -> Entries {
    seq![
        ("version"@, JsonView::Str("2.1"@)),
        ("summary"@, JsonView::Str(a.summary@)),
        ("score_breakdown"@, JsonView::Obj(breakdown_fields(ctx, a.sources@))),
        ("similar_lobbies"@, similar),
        ("trajectory"@, JsonView::Obj(trajectory_fields(a.trajectory))),
        ("prediction"@, JsonView::Obj(prediction_fields(a.prediction))),
        ("recommendations"@, recommendations_view(a.recommendations@)),
        ("calibration"@, JsonView::Obj(calibration_fields(calibration))),
        ("features"@, JsonView::Obj(feature_fields(ctx, snapshot))),
    ]
}

impl AiReport {
    /// The advice as it is shown. `similar` lists the lobbies like the one that is on.
    pub fn to_json(
        &self,
        ctx: &AiContext,
        similar: &Json,
        calibration: &Calibration,
        snapshot: &Json,
    ) -> (r: Json)
        ensures
            r@ == JsonView::Obj(
                advice_fields(*self, *ctx, similar@, *calibration, snapshot@),
            ),
    {
        let a = self;
        let f = Fields::new()
            .put("version", text("2.1"))
            .put("summary", text(a.summary))
            .put("score_breakdown", breakdown_json(ctx, &a.sources))
            .put("similar_lobbies", similar.dup())
            .put("trajectory", trajectory_json(&a.trajectory))
            .put("prediction", prediction_json(&a.prediction))
            .put("recommendations", recommendations_json(&a.recommendations))
            .put("calibration", calibration.to_json())
            .put("features", active_features(ctx, snapshot));
        assert(f@ =~= advice_fields(*self, *ctx, similar@, *calibration, snapshot@));
        f.done()
    }
}

// ---------------------------------------------------------------------------------------------
// The session on the dashboard

/// The last alert that was sent by itself.
pub open spec fn alert_view(alert: Option<(i64, Seq<char>)>) -> JsonView {
    match alert {
        Some(a) => JsonView::Obj(
            seq![("at"@, real_view(a.0 as int)), ("label"@, JsonView::Str(a.1))],
        ),
        None => JsonView::Null,
    }
}

fn alert_json(alert: Option<(i64, &str)>) -> (r: Json)
    ensures
        r@ == alert_view(alert_seq(alert)),
{
    match alert {
        Some((at, label)) => {
            let f = Fields::new().put("at", real_json(at)).put("label", text(label));
            assert(f@ =~= alert_view(Some((at, label@)))->Obj_0);
            f.done()
        },
        None => Json::Null,
    }
}

pub open spec fn alert_seq(alert: Option<(i64, &str)>) -> Option<(i64, Seq<char>)> {
    match alert {
        Some(a) => Some((a.0, a.1@)),
        None => None,
    }
}

/// What the dashboard shows of the session, with the last alert.
pub open spec fn meta_fields(m: DashboardMeta, alert: Option<(i64, Seq<char>)>) -> Entries {
    seq![
        ("manual_in_match"@, JsonView::Bool(m.manual_in_match)),
        ("gaming_session"@, JsonView::Bool(m.gaming_session)),
        ("lobby_exited"@, JsonView::Bool(m.lobby_exited)),
        ("session_peak_conns"@, int_view(m.session_peak_conns as int)),
        ("wan_latency_ms"@, opt_real_view(m.wan_latency_ms)),
        ("wan_jitter_ms"@, opt_real_view(m.wan_jitter_ms)),
        ("server_latency_ms"@, opt_real_view(m.server_latency_ms)),
        ("server_jitter_ms"@, opt_real_view(m.server_jitter_ms)),
        (
            "conn_count"@,
            match m.conn_count {
                Some(n) => int_view(n as int),
                None => JsonView::Null,
            },
        ),
        ("wan_history"@, reals_view(m.wan_history@)),
        ("server_history"@, reals_view(m.server_history@)),
        ("conn_history"@, ints_view(m.conn_history@)),
        ("last_alert"@, alert_view(alert)),
    ]
}

impl DashboardMeta {
    /// The session as the dashboard shows it, with the last alert that was sent by itself.
    pub fn to_json(&self, alert: Option<(i64, &str)>) -> (r: Json)
        ensures
            r@ == JsonView::Obj(meta_fields(*self, alert_seq(alert))),
    {
        let m = self;
        let count = match m.conn_count {
            Some(n) => int_json(n),
            None => Json::Null,
        };
        let f = Fields::new()
            .put("manual_in_match", Json::Bool(m.manual_in_match))
            .put("gaming_session", Json::Bool(m.gaming_session))
            .put("lobby_exited", Json::Bool(m.lobby_exited))
            .put("session_peak_conns", int_json(m.session_peak_conns))
            .put("wan_latency_ms", opt_real_json(m.wan_latency_ms))
            .put("wan_jitter_ms", opt_real_json(m.wan_jitter_ms))
            .put("server_latency_ms", opt_real_json(m.server_latency_ms))
            .put("server_jitter_ms", opt_real_json(m.server_jitter_ms))
            .put("conn_count", count)
            .put("wan_history", reals(&m.wan_history))
            .put("server_history", reals(&m.server_history))
            .put("conn_history", ints(&m.conn_history))
            .put("last_alert", alert_json(alert));
        assert(f@ =~= meta_fields(*self, alert_seq(alert)));
        f.done()
    }
}

/// The documents that a risk is shown with.
pub struct RiskParts {
    pub cheater_lobby: Json,
    pub learning: Json,
    pub ai: Json,
    pub inbound: Json,
    pub packets: Json,
    pub information_flow: Json,
    pub lobby_reputation: Json,
    pub game_state: Json,
    pub playlist: String,
}

/// A risk with its signals and the documents behind it.
pub open spec fn risk_fields(
    x: SessionRisk,
    signals: Seq<(Seq<char>,
    int)>,
    p: RiskParts,
) -> Entries {
    seq![
        ("score"@, rounded_view(x.score as int, 100_000)),
        ("level"@, JsonView::Str(x.level@)),
        ("phase"@, JsonView::Str(x.phase@)),
        ("game"@, JsonView::Str(x.game@)),
        ("recommendation"@, JsonView::Str(x.recommendation@)),
        ("cheater_answer"@, JsonView::Obj(plain_answer_fields(p.cheater_lobby@))),
        ("signals"@, JsonView::Obj(signal_fields(signals))),
        ("anomalies"@, texts_view(views(x.anomalies@))),
        ("cheater_lobby"@, p.cheater_lobby@),
        ("learning"@, p.learning@),
        ("ai"@, p.ai@),
        ("inbound_analysis"@, p.inbound@),
        ("packet_analysis"@, p.packets@),
        ("information_flow"@, p.information_flow@),
        ("lobby_reputation"@, p.lobby_reputation@),
        ("game_state"@, p.game_state@),
        ("playlist"@, JsonView::Str(p.playlist@)),
    ]
}

impl SessionRisk {
    /// The risk as it is shown.
    pub fn to_json(&self, signals: &Vec<Signal>, parts: &RiskParts) -> (r: Json)
        ensures
            r@ == JsonView::Obj(risk_fields(*self, signal_views(signals@), *parts)),
    {
        let x = self;
        let p = parts;
        let f = Fields::new()
            .put("score", rounded_json(x.score as i128, 100_000))
            .put("level", text(x.level))
            .put("phase", text(x.phase.as_str()))
            .put("game", text(x.game.as_str()))
            .put("recommendation", text(x.recommendation))
            .put("cheater_answer", plain_answer(&p.cheater_lobby))
            .put("signals", signals_json(signals))
            .put("anomalies", texts(&x.anomalies))
            .put("cheater_lobby", p.cheater_lobby.dup())
            .put("learning", p.learning.dup())
            .put("ai", p.ai.dup())
            .put("inbound_analysis", p.inbound.dup())
            .put("packet_analysis", p.packets.dup())
            .put("information_flow", p.information_flow.dup())
            .put("lobby_reputation", p.lobby_reputation.dup())
            .put("game_state", p.game_state.dup())
            .put("playlist", text(p.playlist.as_str()));
        assert(f@ =~= risk_fields(*self, signal_views(signals@), *parts));
        f.done()
    }
}

// ---------------------------------------------------------------------------------------------
// Defenses

/// How the defense against floods stands.
pub open spec fn flood_fields(g: FloodStatus) -> Entries {
    seq![
        ("active"@, JsonView::Bool(g.active)),
        ("level"@, JsonView::Str(g.level@)),
        ("engage"@, JsonView::Bool(g.active)),
        ("connections"@, JsonView::UInt(g.connections)),
        ("description"@, JsonView::Str(g.description@)),
    ]
}

fn flood_json(g: &FloodStatus) -> (r: Json)
    ensures
        r@ == JsonView::Obj(flood_fields(*g)),
{
    let f = Fields::new()
        .put("active", Json::Bool(g.active))
        .put("level", text(g.level))
        .put("engage", Json::Bool(g.active))
        .put("connections", Json::UInt(g.connections))
        .put("description", text(g.description));
    assert(f@ =~= flood_fields(*g));
    f.done()
}

/// How the shield stands, with the hosts that it is raised against.
pub open spec fn shield_fields(g: ShieldStatus, peers: Seq<Seq<char>>) -> Entries {
    seq![
        ("active"@, JsonView::Bool(g.active)),
        ("console_mode"@, JsonView::Bool(g.console_mode)),
        ("in_match_mode"@, JsonView::Bool(g.in_match_mode)),
        ("non_game_drop"@, JsonView::Bool(g.non_game_drop)),
        ("peer_attack"@, JsonView::Bool(g.peer_attack)),
        ("suspicious_peers"@, texts_view(peers)),
        ("tiny_max_bytes"@, JsonView::UInt(g.tiny_max_bytes)),
        ("description"@, JsonView::Str(g.description@)),
    ]
}

fn shield_json(g: &ShieldStatus, peers: &Vec<String>) -> (r: Json)
    ensures
        r@ == JsonView::Obj(shield_fields(*g, views(peers@))),
{
    let f = Fields::new()
        .put("active", Json::Bool(g.active))
        .put("console_mode", Json::Bool(g.console_mode))
        .put("in_match_mode", Json::Bool(g.in_match_mode))
        .put("non_game_drop", Json::Bool(g.non_game_drop))
        .put("peer_attack", Json::Bool(g.peer_attack))
        .put("suspicious_peers", texts(peers))
        .put("tiny_max_bytes", Json::UInt(g.tiny_max_bytes))
        .put("description", text(g.description));
    assert(f@ =~= shield_fields(*g, views(peers@)));
    f.done()
}

/// How the priority of the game's ports stands.
pub open spec fn moca_fields(g: MocaStatus) -> Entries {
    seq![
        ("active"@, JsonView::Bool(g.active)),
        ("dscp"@, JsonView::Str(g.dscp@)),
        ("description"@, JsonView::Str(g.description@)),
    ]
}

fn moca_json(g: &MocaStatus) -> (r: Json)
    ensures
        r@ == JsonView::Obj(moca_fields(*g)),
{
    let f = Fields::new()
        .put("active", Json::Bool(g.active))
        .put("dscp", text(g.dscp))
        .put("description", text(g.description));
    assert(f@ =~= moca_fields(*g));
    f.done()
}

/// How the upload is helped, with what tells of its pressure.
pub open spec fn upload_fields(g: UploadStatus, alerts: Seq<Seq<char>>) -> Entries {
    seq![
        ("active"@, JsonView::Bool(g.active)),
        ("buffer_profile"@, JsonView::Str(g.buffer_profile@)),
        ("in_match_desync"@, JsonView::Bool(g.in_match_desync)),
        ("pressure"@, JsonView::Bool(g.pressure)),
        ("egress_mbps"@, real_view(g.egress_mbps as int)),
        ("shaped_mbps"@, real_view(g.shaped_mbps as int)),
        ("utilization_pct"@, real_view(g.utilization_pct as int)),
        ("alerts"@, texts_view(alerts)),
        ("rqd_profile"@, JsonView::Str(g.rqd_profile@)),
        ("rqd_auto_on_pressure"@, JsonView::Bool(true)),
        ("description"@, JsonView::Str(g.description@)),
    ]
}

fn upload_json(g: &UploadStatus, alerts: &Vec<String>) -> (r: Json)
    ensures
        r@ == JsonView::Obj(upload_fields(*g, views(alerts@))),
{
    let f = Fields::new()
        .put("active", Json::Bool(g.active))
        .put("buffer_profile", text(g.buffer_profile))
        .put("in_match_desync", Json::Bool(g.in_match_desync))
        .put("pressure", Json::Bool(g.pressure))
        .put("egress_mbps", real_json(g.egress_mbps))
        .put("shaped_mbps", real_json(g.shaped_mbps))
        .put("utilization_pct", real_json(g.utilization_pct))
        .put("alerts", texts(alerts))
        .put("rqd_profile", text(g.rqd_profile.as_str()))
        .put("rqd_auto_on_pressure", Json::Bool(true))
        .put("description", text(g.description));
    assert(f@ =~= upload_fields(*g, views(alerts@)));
    f.done()
}

/// How the console is connected.
pub open spec fn path_fields(label: Seq<char>) -> Entries {
    seq![
        ("type"@, JsonView::Str("wired-moca"@)),
        ("label"@, JsonView::Str(label)),
    ]
}

fn path_json(label: &str) -> (r: Json)
    ensures
        r@ == JsonView::Obj(path_fields(label@)),
{
    let f = Fields::new()
        .put("type", text("wired-moca"))
        .put("label", text(label));
    assert(f@ =~= path_fields(label@));
    f.done()
}

/// The scripts that carry out what the guard calls for.
pub open spec fn action_fields() -> Entries {
    seq![
        ("buffer_profile"@, JsonView::Str("gaming-buffer-tune.sh apply gaming|light|desync|kick"@)),
        ("moca_qos"@, JsonView::Str("gaming-moca-tune.sh (DSCP EF on game ports)"@)),
        ("firewalla_cpu"@, JsonView::Str("gaming-firewalla-tune.sh apply"@)),
        ("flood_guard"@, JsonView::Str("gaming-flood-guard.sh defend|harden|relax"@)),
        ("packet_shield"@, JsonView::Str("gaming-packet-shield.sh shield|strict|relax"@)),
        ("upload_boost"@, JsonView::Str("gaming-upload-boost.sh apply|relax"@)),
    ]
}

fn actions_json() -> (r: Json)
    ensures
        r@ == JsonView::Obj(action_fields()),
{
    let f = Fields::new()
        .put("buffer_profile", text("gaming-buffer-tune.sh apply gaming|light|desync|kick"))
        .put("moca_qos", text("gaming-moca-tune.sh (DSCP EF on game ports)"))
        .put("firewalla_cpu", text("gaming-firewalla-tune.sh apply"))
        .put("flood_guard", text("gaming-flood-guard.sh defend|harden|relax"))
        .put("packet_shield", text("gaming-packet-shield.sh shield|strict|relax"))
        .put("upload_boost", text("gaming-upload-boost.sh apply|relax"));
    assert(f@ =~= action_fields());
    f.done()
}

/// The defenses after a poll: `peers` are the hosts that are shielded against, `alerts` tell of a
/// full upload.
pub open spec fn guard_fields(
    g: GuardStatus,
    peers: Seq<Seq<char>>,
    alerts: Seq<Seq<char>>,
    xbox_ip: Seq<char>,
    path_label: Seq<char>,
) -> Entries {
    seq![
        ("mode"@, JsonView::Str(g.mode@)),
        ("wan_jitter_ms"@, real_view(g.wan_jitter_ms as int)),
        ("engage"@, JsonView::Bool(g.engage)),
        ("defense_active"@, JsonView::Bool(g.engage)),
        ("kick_spike"@, JsonView::Bool(g.kick_spike)),
        ("kick_source"@, JsonView::Str(g.kick_source@)),
        ("lobby_reputation_gate"@, JsonView::Bool(g.lobby_reputation_gate)),
        ("kick_spikes_session"@, JsonView::UInt(g.kick_spikes_session as u64)),
        ("paused"@, JsonView::Bool(g.paused)),
        ("monitor_only_in_match"@, JsonView::Bool(g.monitor_only_in_match)),
        ("pause_remaining_sec"@, JsonView::UInt(g.pause_remaining_sec)),
        ("flood_guard"@, JsonView::Obj(flood_fields(g.flood_guard))),
        ("mitigation"@, JsonView::Str(g.mitigation@)),
        ("packet_shield"@, JsonView::Obj(shield_fields(g.packet_shield, peers))),
        ("xbox_ip"@, JsonView::Str(xbox_ip)),
        ("path"@, JsonView::Obj(path_fields(path_label))),
        ("moca_qos"@, JsonView::Obj(moca_fields(g.moca_qos))),
        ("upload_assist"@, JsonView::Obj(upload_fields(g.upload_assist, alerts))),
        ("actions"@, JsonView::Obj(action_fields())),
    ]
}

impl GuardStatus {
    /// The defenses as they are shown after a poll.
    pub fn to_json(
        &self,
        peers: &Vec<String>,
        alerts: &Vec<String>,
        xbox_ip: &str,
        path_label: &str,
    ) -> (r: Json)
        ensures
            r@ == JsonView::Obj(
                guard_fields(*self, views(peers@), views(alerts@), xbox_ip@, path_label@),
            ),
    {
        let g = self;
        let f = Fields::new()
            .put("mode", text(g.mode))
            .put("wan_jitter_ms", real_json(g.wan_jitter_ms))
            .put("engage", Json::Bool(g.engage))
            .put("defense_active", Json::Bool(g.engage))
            .put("kick_spike", Json::Bool(g.kick_spike))
            .put("kick_source", text(g.kick_source))
            .put("lobby_reputation_gate", Json::Bool(g.lobby_reputation_gate))
            .put("kick_spikes_session", Json::UInt(g.kick_spikes_session as u64))
            .put("paused", Json::Bool(g.paused))
            .put("monitor_only_in_match", Json::Bool(g.monitor_only_in_match))
            .put("pause_remaining_sec", Json::UInt(g.pause_remaining_sec))
            .put("flood_guard", flood_json(&g.flood_guard))
            .put("mitigation", text(g.mitigation.as_str()))
            .put("packet_shield", shield_json(&g.packet_shield, peers))
            .put("xbox_ip", text(xbox_ip))
            .put("path", path_json(path_label))
            .put("moca_qos", moca_json(&g.moca_qos))
            .put("upload_assist", upload_json(&g.upload_assist, alerts))
            .put("actions", actions_json());
        assert(f@ =~= guard_fields(
            *self,
            views(peers@),
            views(alerts@),
            xbox_ip@,
            path_label@,
        ));
        f.done()
    }
}

/// The level of the defense against floods.
pub open spec fn level_fields(level: Seq<char>) -> Entries {
    seq![
        ("active"@, JsonView::Bool(level != "off"@)),
        ("level"@, JsonView::Str(level)),
    ]
}

fn level_json(level: &str) -> (r: Json)
    ensures
        r@ == JsonView::Obj(level_fields(level@)),
{
    let f = Fields::new()
        .put("active", Json::Bool(!same(level, "off")))
        .put("level", text(level));
    assert(f@ =~= level_fields(level@));
    f.done()
}

/// Whether the game's ports have priority.
pub open spec fn priority_fields(active: bool) -> Entries {
    seq![
        ("active"@, JsonView::Bool(active)),
        ("dscp"@, JsonView::Str(moca_dscp(active))),
    ]
}

fn priority_json(active: bool) -> (r: Json)
    ensures
        r@ == JsonView::Obj(priority_fields(active)),
{
    let word = if active {
        "ef"
    } else {
        "off"
    };
    let f = Fields::new()
        .put("active", Json::Bool(active))
        .put("dscp", text(word));
    assert(f@ =~= priority_fields(active));
    f.done()
}

/// The defenses between polls.
pub open spec fn brief_fields(g: BriefStatus) -> Entries {
    seq![
        ("mode"@, JsonView::Str(g.mode@)),
        ("engage"@, JsonView::Bool(g.engage)),
        ("defense_active"@, JsonView::Bool(g.engage)),
        ("paused"@, JsonView::Bool(g.paused)),
        ("pause_remaining_sec"@, JsonView::UInt(g.pause_remaining_sec)),
        ("flood_guard"@, JsonView::Obj(level_fields(g.flood_level@))),
        ("moca_qos"@, JsonView::Obj(priority_fields(g.moca_active))),
        ("mitigation"@, JsonView::Str(g.mitigation@)),
    ]
}

impl BriefStatus {
    /// The defenses as they are shown between polls.
    pub fn to_json(&self) -> (r: Json)
        ensures
            r@ == JsonView::Obj(brief_fields(*self)),
    {
        let g = self;
        let f = Fields::new()
            .put("mode", text(g.mode))
            .put("engage", Json::Bool(g.engage))
            .put("defense_active", Json::Bool(g.engage))
            .put("paused", Json::Bool(g.paused))
            .put("pause_remaining_sec", Json::UInt(g.pause_remaining_sec))
            .put("flood_guard", level_json(g.flood_level))
            .put("moca_qos", priority_json(g.moca_active))
            .put("mitigation", text(g.mitigation.as_str()));
        assert(f@ =~= brief_fields(*self));
        f.done()
    }
}

/// 1 or 0, with a fraction.
pub open spec fn flag_real(b: bool) -> JsonView {
    if b {
        real_view(1_000_000)
    } else {
        real_view(0)
    }
}

fn flag_json(b: bool) -> (r: Json)
    ensures
        r@ == flag_real(b),
{
    if b {
        real_json(1_000_000)
    } else {
        real_json(0)
    }
}

/// The sample that the firewall's queues are tuned by; what is not known is left out.
pub open spec fn rqd_fields(x: RqdSample) -> Entries {
    let f = seq![
        ("upload_util_pct"@, real_view(x.upload_util_pct as int)),
        ("utilization_pct"@, real_view(x.upload_util_pct as int)),
        ("kick_spike"@, flag_real(x.kick_spike)),
        ("in_match"@, flag_real(x.in_match)),
        ("desync_hint"@, flag_real(x.desync_hint)),
    ];
    let f = match x.egress_mbps {
        Some(m) => f.push(("egress_mbps"@, real_view(m as int))),
        None => f,
    };
    let f = match x.backlog_bytes {
        Some(b) => f.push(("queue_pressure"@, JsonView::UInt(b))).push(
            ("backlog_bytes"@, JsonView::UInt(b)),
        ),
        None => f,
    };
    match x.wan_jitter_ms {
        Some(j) => f.push(("wan_jitter_ms"@, real_view(j as int))),
        None => f,
    }
}

impl RqdSample {
    /// The sample as the firewall takes it.
    pub fn to_json(&self) -> (r: Json)
        ensures
            r@ == JsonView::Obj(rqd_fields(*self)),
    {
        let f = Fields::new()
            .put("upload_util_pct", real_json(self.upload_util_pct))
            .put("utilization_pct", real_json(self.upload_util_pct))
            .put("kick_spike", flag_json(self.kick_spike))
            .put("in_match", flag_json(self.in_match))
            .put("desync_hint", flag_json(self.desync_hint));
        let f = match self.egress_mbps {
            Some(m) => f.put("egress_mbps", real_json(m)),
            None => f,
        };
        let f = match self.backlog_bytes {
            Some(b) => f.put("queue_pressure", Json::UInt(b)).put("backlog_bytes", Json::UInt(b)),
            None => f,
        };
        let f = match self.wan_jitter_ms {
            Some(j) => f.put("wan_jitter_ms", real_json(j)),
            None => f,
        };
        assert(f@ =~= rqd_fields(*self));
        f.done()
    }
}

// ---------------------------------------------------------------------------------------------
// The peers of a session

/// A peer of a session.
pub open spec fn line_fields(l: PeerLine) -> Entries {
    seq![
        ("ip"@, JsonView::Str(l.row.ip@)),
        ("remote"@, JsonView::Str(l.row.remote@)),
        ("label"@, JsonView::Str(l.row.label@)),
        ("role"@, JsonView::Str(l.row.role@)),
        ("identical_count"@, JsonView::UInt(l.row.identical_count as u64)),
        ("identical_size"@, JsonView::UInt(l.row.identical_size)),
        ("packet_size_min"@, JsonView::UInt(l.row.packet_size_min)),
        ("packet_size_max"@, JsonView::UInt(l.row.packet_size_max)),
        ("fixed_size"@, JsonView::Bool(l.fixed_size)),
        ("total_packets"@, JsonView::UInt(l.row.total_packets)),
        ("tiny_packets"@, JsonView::UInt(l.row.tiny_packets)),
        ("poll_hits"@, JsonView::UInt(l.row.poll_hits as u64)),
        ("first_seen"@, real_view(l.row.first_seen as int)),
        ("last_seen"@, real_view(l.row.last_seen as int)),
        ("suspicious"@, JsonView::Bool(l.row.suspicious)),
        ("vps_probe"@, JsonView::Bool(l.row.vps_probe)),
    ]
}

impl PeerLine {
    /// The peer as it is shown and kept.
    pub fn to_json(&self) -> (r: Json)
        ensures
            r@ == JsonView::Obj(line_fields(*self)),
    {
        let l = self;
        let f = Fields::new()
            .put("ip", text(l.row.ip.as_str()))
            .put("remote", text(l.row.remote.as_str()))
            .put("label", text(l.row.label.as_str()))
            .put("role", text(l.row.role.as_str()))
            .put("identical_count", Json::UInt(l.row.identical_count as u64))
            .put("identical_size", Json::UInt(l.row.identical_size))
            .put("packet_size_min", Json::UInt(l.row.packet_size_min))
            .put("packet_size_max", Json::UInt(l.row.packet_size_max))
            .put("fixed_size", Json::Bool(l.fixed_size))
            .put("total_packets", Json::UInt(l.row.total_packets))
            .put("tiny_packets", Json::UInt(l.row.tiny_packets))
            .put("poll_hits", Json::UInt(l.row.poll_hits as u64))
            .put("first_seen", real_json(l.row.first_seen))
            .put("last_seen", real_json(l.row.last_seen))
            .put("suspicious", Json::Bool(l.row.suspicious))
            .put("vps_probe", Json::Bool(l.row.vps_probe));
        assert(f@ =~= line_fields(*self));
        f.done()
    }
}

/// The peers of a session.
pub open spec fn lines_view(v: Seq<PeerLine>) -> JsonView {
    JsonView::Arr(v.map_values(|x: PeerLine| JsonView::Obj(line_fields(x))))
}

pub fn lines_json(v: &Vec<PeerLine>) -> (r: Json)
    ensures
        r@ == lines_view(v@),
{
    let ghost want = v@.map_values(|x: PeerLine| JsonView::Obj(line_fields(x)));
    let mut out: Vec<Json> = Vec::new();
    let mut i: usize = 0;
    while i < v.len()
        invariant
            i <= v.len(),
            want == v@.map_values(|x: PeerLine| JsonView::Obj(line_fields(x))),
            json_views(out@) == want.take(i as int),
        decreases v.len() - i,
    {
        let ghost before = out@;
        let d = v[i].to_json();
        out.push(d);
        assert(json_views(out@) =~= json_views(before).push(d@));
        assert(json_views(out@) =~= want.take(i + 1));
        i += 1;
    }
    assert(want.take(i as int) =~= want);
    array(out)
}

/// What is kept of a session; the end only once there is one.
pub open spec fn session_meta_fields(m: SessionMeta) -> Entries {
    let f = seq![
        ("session_hex"@, JsonView::Str(m.session_hex@)),
        ("started_at"@, real_view(m.started_at as int)),
        ("phase"@, JsonView::Str(m.phase@)),
        ("clear_count"@, JsonView::UInt(m.clear_count as u64)),
        ("snapshot_files"@, texts_view(views(m.snapshot_files@))),
    ];
    match m.ended_at {
        Some(t) => f.push(("ended_at"@, real_view(t as int))),
        None => f,
    }
}

impl SessionMeta {
    /// What is kept of the session.
    pub fn to_json(&self) -> (r: Json)
        ensures
            r@ == JsonView::Obj(session_meta_fields(*self)),
    {
        let f = Fields::new()
            .put("session_hex", text(self.session_hex.as_str()))
            .put("started_at", real_json(self.started_at))
            .put("phase", text(self.phase.as_str()))
            .put("clear_count", Json::UInt(self.clear_count as u64))
            .put("snapshot_files", texts(&self.snapshot_files));
        let f = match self.ended_at {
            Some(t) => f.put("ended_at", real_json(t)),
            None => f,
        };
        assert(f@ =~= session_meta_fields(*self));
        f.done()
    }
}

/// A table of peers as it is kept; `stamp` names the time: "updated_at" for the latest table,
/// "saved_at" for a snapshot.
pub open spec fn table_fields(
    hex: Seq<char>,
    phase: Seq<char>,
    stamp: Seq<char>,
    now: i64,
    peers: Seq<PeerLine>,
) -> Entries {
    seq![
        ("session_hex"@, JsonView::Str(hex)),
        ("phase"@, JsonView::Str(phase)),
        (stamp, real_view(now as int)),
        ("peers"@, lines_view(peers)),
    ]
}

/// A table of peers as it is kept.
pub fn table_json(hex: &str, phase: &str, stamp: &str, now: i64, peers: &Vec<PeerLine>) -> (r: Json)
    ensures
        r@ == JsonView::Obj(table_fields(hex@, phase@, stamp@, now, peers@)),
{
    let f = Fields::new()
        .put("session_hex", text(hex))
        .put("phase", text(phase))
        .put(stamp, real_json(now))
        .put("peers", lines_json(peers));
    assert(f@ =~= table_fields(hex@, phase@, stamp@, now, peers@));
    f.done()
}

/// The running session; `storage_dir` is where its files are.
pub open spec fn tracker_fields(t: TrackerReport, storage_dir: Option<Seq<char>>) -> Entries {
    seq![
        ("session_hex"@, opt_text_view(crate::enrich::opt_text(t.session_hex))),
        ("session_started"@, real_view(t.session_started as int)),
        ("phase"@, JsonView::Str(t.phase@)),
        ("clear_count"@, JsonView::UInt(t.clear_count as u64)),
        ("peer_count"@, JsonView::UInt(t.peer_count as u64)),
        ("snapshots"@, texts_view(views(t.snapshots@))),
        ("storage_dir"@, opt_text_view(storage_dir)),
        ("peers"@, lines_view(t.peers@)),
    ]
}

impl TrackerReport {
    /// The running session as it is shown.
    pub fn to_json(&self, storage_dir: &Option<String>) -> (r: Json)
        ensures
            r@ == JsonView::Obj(tracker_fields(*self, crate::enrich::opt_text(*storage_dir))),
    {
        let t = self;
        let f = Fields::new()
            .put("session_hex", opt_text(&t.session_hex))
            .put("session_started", real_json(t.session_started))
            .put("phase", text(t.phase.as_str()))
            .put("clear_count", Json::UInt(t.clear_count as u64))
            .put("peer_count", Json::UInt(t.peer_count as u64))
            .put("snapshots", texts(&t.snapshots))
            .put("storage_dir", opt_text(storage_dir))
            .put("peers", lines_json(&t.peers));
        assert(f@ =~= tracker_fields(*self, crate::enrich::opt_text(*storage_dir)));
        f.done()
    }
}

/// A session that was read back.
pub open spec fn detail_fields(d: SessionDetail, storage_dir: Seq<char>) -> Entries {
    seq![
        ("ok"@, JsonView::Bool(true)),
        ("session_hex"@, JsonView::Str(d.session_hex@)),
        ("meta"@, d.meta@),
        ("peers"@, d.peers@),
        ("peer_count"@, JsonView::UInt(d.peer_count)),
        ("snapshots"@, JsonView::Arr(json_views(d.snapshots@))),
        ("snapshot_count"@, JsonView::UInt(d.snapshots@.len() as u64)),
        ("storage_dir"@, JsonView::Str(storage_dir)),
    ]
}

impl SessionDetail {
    /// The session as it is shown; `storage_dir` is where its files are.
    pub fn to_json(&self, storage_dir: &str) -> (r: Json)
        ensures
            r@ == JsonView::Obj(detail_fields(*self, storage_dir@)),
    {
        let d = self;
        let f = Fields::new()
            .put("ok", Json::Bool(true))
            .put("session_hex", text(d.session_hex.as_str()))
            .put("meta", d.meta.dup())
            .put("peers", d.peers.dup())
            .put("peer_count", Json::UInt(d.peer_count))
            .put("snapshots", array(dup_first(&d.snapshots, d.snapshots.len())))
            .put("snapshot_count", Json::UInt(d.snapshots.len() as u64))
            .put("storage_dir", text(storage_dir));
        assert(f@ =~= detail_fields(*self, storage_dir@));
        f.done()
    }
}

/// A table that was cleared.
pub open spec fn cleared_fields(c: ClearedTable) -> Entries {
    seq![
        ("ok"@, JsonView::Bool(true)),
        ("message"@, JsonView::Str(c.message@)),
        ("session_hex"@, JsonView::Str(c.hex@)),
        ("snapshot"@, JsonView::Str(c.snapshot@)),
        ("cleared_peers"@, JsonView::UInt(c.rows@.len() as u64)),
        ("clear_count"@, JsonView::UInt(c.clear_count as u64)),
    ]
}

/// There was no session whose table could be kept.
pub open spec fn nothing_cleared_fields() -> Entries {
    seq![
        ("ok"@, JsonView::Bool(true)),
        ("message"@, JsonView::Str("Table cleared (no active session)"@)),
        ("session_hex"@, JsonView::Null),
    ]
}

/// What is answered once the table is cleared.
pub fn cleared_json(c: &Option<ClearedTable>) -> (r: Json)
    ensures
        r@ == match *c {
            Some(t) => JsonView::Obj(cleared_fields(t)),
            None => JsonView::Obj(nothing_cleared_fields()),
        },
{
    match c {
        Some(c) => {
            let f = Fields::new()
                .put("ok", Json::Bool(true))
                .put("message", text(c.message.as_str()))
                .put("session_hex", text(c.hex.as_str()))
                .put("snapshot", text(c.snapshot.as_str()))
                .put("cleared_peers", Json::UInt(c.rows.len() as u64))
                .put("clear_count", Json::UInt(c.clear_count as u64));
            assert(f@ =~= cleared_fields(*c));
            f.done()
        },
        None => {
            let f = Fields::new()
                .put("ok", Json::Bool(true))
                .put("message", text("Table cleared (no active session)"))
                .put("session_hex", Json::Null);
            assert(f@ =~= nothing_cleared_fields());
            f.done()
        },
    }
}

/// The sessions that are kept under `base_dir`.
pub open spec fn session_list_fields(sessions: Seq<Json>, base_dir: Seq<char>) -> Entries {
    seq![
        ("sessions"@, JsonView::Arr(json_views(sessions))),
        ("base_dir"@, JsonView::Str(base_dir)),
        ("count"@, JsonView::UInt(sessions.len() as u64)),
    ]
}

/// The sessions that are kept under `base_dir`.
pub fn session_list_json(sessions: &Vec<Json>, base_dir: &str) -> (r: Json)
    ensures
        r@ == JsonView::Obj(session_list_fields(sessions@, base_dir@)),
{
    let f = Fields::new()
        .put("sessions", array(dup_first(sessions, sessions.len())))
        .put("base_dir", text(base_dir))
        .put("count", Json::UInt(sessions.len() as u64));
    assert(f@ =~= session_list_fields(sessions@, base_dir@));
    f.done()
}

/// A file of a session, by its path below the session's directory.
pub struct SessionFile {
    pub path: String,
    pub data: Json,
}

/// A file with what it holds.
pub open spec fn file_fields(x: SessionFile) -> Entries {
    seq![
        ("path"@, JsonView::Str(x.path@)),
        ("data"@, x.data@),
    ]
}

fn file_json(x: &SessionFile) -> (r: Json)
    ensures
        r@ == JsonView::Obj(file_fields(*x)),
{
    let f = Fields::new()
        .put("path", text(x.path.as_str()))
        .put("data", x.data.dup());
    assert(f@ =~= file_fields(*x));
    f.done()
}

/// The files of a session.
pub open spec fn files_view(v: Seq<SessionFile>) -> JsonView {
    JsonView::Arr(v.map_values(|x: SessionFile| JsonView::Obj(file_fields(x))))
}

fn files_json(v: &Vec<SessionFile>) -> (r: Json)
    ensures
        r@ == files_view(v@),
{
    let ghost want = v@.map_values(|x: SessionFile| JsonView::Obj(file_fields(x)));
    let mut out: Vec<Json> = Vec::new();
    let mut i: usize = 0;
    while i < v.len()
        invariant
            i <= v.len(),
            want == v@.map_values(|x: SessionFile| JsonView::Obj(file_fields(x))),
            json_views(out@) == want.take(i as int),
        decreases v.len() - i,
    {
        let ghost before = out@;
        let d = file_json(&v[i]);
        out.push(d);
        assert(json_views(out@) =~= json_views(before).push(d@));
        assert(json_views(out@) =~= want.take(i + 1));
        i += 1;
    }
    assert(want.take(i as int) =~= want);
    array(out)
}

/// A session with all its files.
pub open spec fn bundle_fields(
    now: i64,
    hex: Seq<char>,
    detail: JsonView,
    files: Seq<SessionFile>,
) -> Entries {
    seq![
        ("exported_at"@, real_view(now as int)),
        ("format"@, JsonView::Str("warzone-sentinel-session-v1"@)),
        ("session_hex"@, JsonView::Str(hex)),
        ("detail"@, detail),
        ("files"@, files_view(files)),
    ]
}

/// A session with all its files, as it is exported.
pub fn export_session_bundle(
    now: i64,
    hex: &str,
    detail: &Json,
    files: &Vec<SessionFile>,
) -> (r: Json)
    ensures
        r@ == JsonView::Obj(bundle_fields(now, hex@, detail@, files@)),
{
    let f = Fields::new()
        .put("exported_at", real_json(now))
        .put("format", text("warzone-sentinel-session-v1"))
        .put("session_hex", text(hex))
        .put("detail", detail.dup())
        .put("files", files_json(files));
    assert(f@ =~= bundle_fields(now, hex@, detail@, files@));
    f.done()
}

/// A format of an export.
pub open spec fn format_fields(x: Format) -> Entries {
    seq![
        ("id"@, JsonView::Str(x.id@)),
        ("ext"@, JsonView::Str(x.ext@)),
        ("mime"@, JsonView::Str(x.mime@)),
        ("label"@, JsonView::Str(x.label@)),
    ]
}

fn format_json(x: &Format) -> (r: Json)
    ensures
        r@ == JsonView::Obj(format_fields(*x)),
{
    let f = Fields::new()
        .put("id", text(x.id))
        .put("ext", text(x.ext))
        .put("mime", text(x.mime))
        .put("label", text(x.label));
    assert(f@ =~= format_fields(*x));
    f.done()
}

/// The formats of an export, by their names.
pub open spec fn formats_view(v: Seq<Format>) -> JsonView {
    JsonView::Arr(v.map_values(|x: Format| JsonView::Obj(format_fields(x))))
}

fn formats_list_json(v: &Vec<Format>) -> (r: Json)
    ensures
        r@ == formats_view(v@),
{
    let ghost want = v@.map_values(|x: Format| JsonView::Obj(format_fields(x)));
    let mut out: Vec<Json> = Vec::new();
    let mut i: usize = 0;
    while i < v.len()
        invariant
            i <= v.len(),
            want == v@.map_values(|x: Format| JsonView::Obj(format_fields(x))),
            json_views(out@) == want.take(i as int),
        decreases v.len() - i,
    {
        let ghost before = out@;
        let d = format_json(&v[i]);
        out.push(d);
        assert(json_views(out@) =~= json_views(before).push(d@));
        assert(json_views(out@) =~= want.take(i + 1));
        i += 1;
    }
    assert(want.take(i as int) =~= want);
    array(out)
}

/// All formats of an export.
pub open spec fn offer_fields(v: Seq<Format>) -> Entries {
    seq![
        ("ok"@, JsonView::Bool(true)),
        ("formats"@, formats_view(v)),
    ]
}

/// The formats that an export can have, as they are offered.
pub fn formats_document(v: &Vec<Format>) -> (r: Json)
    ensures
        r@ == JsonView::Obj(offer_fields(v@)),
{
    let f = Fields::new()
        .put("ok", Json::Bool(true))
        .put("formats", formats_list_json(v));
    assert(f@ =~= offer_fields(v@));
    f.done()
}

/// What is answered to a reported event.
pub open spec fn reply_fields(e: IngestReply) -> Entries {
    seq![
        ("ok"@, JsonView::Bool(true)),
        ("accepted"@, JsonView::UInt(1)),
        ("type"@, JsonView::Str(e.event_type@)),
        ("playlist"@, JsonView::Str(e.playlist@)),
        ("recent_kick"@, JsonView::Bool(e.recent_kick)),
    ]
}

impl IngestReply {
    /// The answer to a reported event.
    pub fn to_json(&self) -> (r: Json)
        ensures
            r@ == JsonView::Obj(reply_fields(*self)),
    {
        let e = self;
        let f = Fields::new()
            .put("ok", Json::Bool(true))
            .put("accepted", Json::UInt(1))
            .put("type", text(e.event_type.as_str()))
            .put("playlist", text(e.playlist.as_str()))
            .put("recent_kick", Json::Bool(e.recent_kick));
        assert(f@ =~= reply_fields(*self));
        f.done()
    }
}

/// What is answered to a list of reported events.
pub open spec fn batch_fields(n: u64) -> Entries {
    seq![
        ("ok"@, JsonView::Bool(true)),
        ("accepted"@, JsonView::UInt(n)),
    ]
}

/// The answer to a list of reported events.
pub fn batch_json(n: u64) -> (r: Json)
    ensures
        r@ == JsonView::Obj(batch_fields(n)),
{
    let f = Fields::new()
        .put("ok", Json::Bool(true))
        .put("accepted", Json::UInt(n));
    assert(f@ =~= batch_fields(n));
    f.done()
}

// ---------------------------------------------------------------------------------------------
// Blocked peers

/// What is answered where something failed.
pub open spec fn failure_fields(error: Seq<char>) -> Entries {
    seq![("ok"@, JsonView::Bool(false)), ("error"@, JsonView::Str(error))]
}

/// The answer where something failed.
pub fn failure_json(error: &str) -> (r: Json)
    ensures
        r@ == JsonView::Obj(failure_fields(error@)),
{
    let f = Fields::new()
        .put("ok", Json::Bool(false))
        .put("error", text(error));
    assert(f@ =~= failure_fields(error@));
    f.done()
}

/// What is answered where the second of two steps failed: `name` is what the first is called,
/// `done` what it gave.
pub open spec fn half_done_fields(error: Seq<char>, name: Seq<char>, done: JsonView) -> Entries {
    failure_fields(error).push((name, done))
}

fn half_done_json(error: &str, name: &str, done: &Json) -> (r: Json)
    ensures
        r@ == JsonView::Obj(half_done_fields(error@, name@, done@)),
{
    let f = Fields::new()
        .put("ok", Json::Bool(false))
        .put("error", text(error))
        .put(name, done.dup());
    assert(f@ =~= half_done_fields(error@, name@, done@));
    f.done()
}

pub open spec fn says_ok(reply: JsonView) -> bool {
    flag_or(reply.field("ok"@), false)
}

/// What the user reads once peers are blocked.
pub open spec fn block_message(n: nat, restrict: bool) -> Seq<char> {
    if restrict {
        "Restricted "@ + decimal(n) + " peer(s) for 7 days — full peer block + shield"@
    } else {
        "Shield active for "@ + decimal(n) + " peer(s) — tiny probes dropped"@
    }
}

/// What is answered once peers are blocked and the shield knows them. All is well where both
/// replies say so.
pub open spec fn block_fields(
    ips: Seq<Seq<char>>,
    restrict: bool,
    blocked: JsonView,
    shield: JsonView,
) -> Entries {
    seq![
        ("ok"@, JsonView::Bool(says_ok(blocked) && says_ok(shield))),
        ("action"@, JsonView::Str(if restrict { "restrict"@ } else { "shield"@ })),
        ("ips"@, texts_view(ips)),
        ("blocklist"@, blocked),
        ("shield"@, shield),
        ("message"@, JsonView::Str(block_message(ips.len(), restrict))),
    ]
}

/// The answer to a request to shield against peers or to restrict them: `blocked` is the reply to
/// the request to block them, `shield` the reply of the shield, or why there is none.
pub fn block_reply(
    ips: &Vec<String>,
    restrict: bool,
    blocked: &Json,
    shield: Result<&Json, &str>,
) -> (r: Json)
    ensures
        match shield {
            Ok(s) => r@ == JsonView::Obj(block_fields(views(ips@), restrict, blocked@, s@)),
            Err(e) => r@ == JsonView::Obj(half_done_fields(e@, "blocklist"@, blocked@)),
        },
{
    match shield {
        Ok(s) => {
            let n = dec(ips.len() as u64);
            let message = if restrict {
                cat3("Restricted ", n.as_str(), " peer(s) for 7 days — full peer block + shield")
            } else {
                cat3("Shield active for ", n.as_str(), " peer(s) — tiny probes dropped")
            };
            let both = bool_or(blocked.get("ok"), false) && bool_or(s.get("ok"), false);
            let f = Fields::new()
                .put("ok", Json::Bool(both))
                .put("action", text(if restrict { "restrict" } else { "shield" }))
                .put("ips", texts(ips))
                .put("blocklist", blocked.dup())
                .put("shield", s.dup())
                .put("message", text(message.as_str()));
            assert(views(ips@).len() == ips@.len());
            assert(f@ =~= block_fields(views(ips@), restrict, blocked@, s@));
            f.done()
        },
        Err(e) => half_done_json(e, "blocklist", blocked),
    }
}

/// What is answered once peers are free again.
pub open spec fn unblock_fields(
    ips: Seq<Seq<char>>,
    removed: JsonView,
    shield: JsonView,
) -> Entries {
    seq![
        ("ok"@, JsonView::Bool(true)),
        ("action"@, JsonView::Str("unrestrict"@)),
        ("ips"@, texts_view(ips)),
        ("removed"@, removed),
        ("shield"@, shield),
        ("message"@, JsonView::Str("Removed restriction from "@ + decimal(ips.len()) + " peer(s)"@)),
    ]
}

/// The answer to a request to free peers: `removed` is the reply to the request to unblock them,
/// `shield` the reply of the shield, or why there is none.
pub fn unblock_reply(ips: &Vec<String>, removed: &Json, shield: Result<&Json, &str>) -> (r: Json)
    ensures
        match shield {
            Ok(s) => r@ == JsonView::Obj(unblock_fields(views(ips@), removed@, s@)),
            Err(e) => r@ == JsonView::Obj(half_done_fields(e@, "removed"@, removed@)),
        },
{
    match shield {
        Ok(s) => {
            let n = dec(ips.len() as u64);
            let message = cat3("Removed restriction from ", n.as_str(), " peer(s)");
            let f = Fields::new()
                .put("ok", Json::Bool(true))
                .put("action", text("unrestrict"))
                .put("ips", texts(ips))
                .put("removed", removed.dup())
                .put("shield", s.dup())
                .put("message", text(message.as_str()));
            assert(views(ips@).len() == ips@.len());
            assert(f@ =~= unblock_fields(views(ips@), removed@, s@));
            f.done()
        },
        Err(e) => half_done_json(e, "removed", removed),
    }
}

/// A block went well where both of its parts did, and names what was done to how many peers.
pub proof fn blocks_need_both_parts(
    ips: Seq<Seq<char>>,
    restrict: bool,
    blocked: JsonView,
    shield: JsonView,
)
    ensures
        ({
            let r = JsonView::Obj(block_fields(ips, restrict, blocked, shield));
            let both = blocked.field("ok"@) == Some(JsonView::Bool(true)) && shield.field("ok"@)
                == Some(JsonView::Bool(true));
            &&& r.field("ok"@) == Some(JsonView::Bool(both))
            &&& r.field("action"@) == Some(
                JsonView::Str(
                    if restrict {
                        "restrict"@
                    } else {
                        "shield"@
                    },
                ),
            )
        }),
{
    reveal_strlit("ok");
    reveal_strlit("action");
    assert("ok"@.len() == 2 && "action"@.len() == 6);
    let f = block_fields(ips, restrict, blocked, shield);
    reveal_with_fuel(entry, 3);
    assert(f.skip(1)[0] == f[1]);
}

/// What failed says so, with its error, and what was done says that all is well.
pub proof fn failures_say_so(error: Seq<char>, n: u64, e: IngestReply)
    ensures
        JsonView::Obj(failure_fields(error)).field("ok"@) == Some(JsonView::Bool(false)),
        JsonView::Obj(failure_fields(error)).field("error"@) == Some(JsonView::Str(error)),
        JsonView::Obj(batch_fields(n)).field("ok"@) == Some(JsonView::Bool(true)),
        JsonView::Obj(batch_fields(n)).field("accepted"@) == Some(JsonView::UInt(n)),
        JsonView::Obj(reply_fields(e)).field("ok"@) == Some(JsonView::Bool(true)),
        JsonView::Obj(reply_fields(e)).field("accepted"@) == Some(JsonView::UInt(1)),
{
    reveal_strlit("ok");
    reveal_strlit("error");
    reveal_strlit("accepted");
    assert("ok"@.len() == 2 && "error"@.len() == 5 && "accepted"@.len() == 8);
    reveal_with_fuel(entry, 3);
    let f = failure_fields(error);
    assert(f.skip(1)[0] == f[1]);
    let g = batch_fields(n);
    assert(g.skip(1)[0] == g[1]);
    let h = reply_fields(e);
    assert(h.skip(1)[0] == h[1]);
}

/// A shield is active at every level but off.
pub proof fn shields_are_active_unless_off(level: Seq<char>)
    ensures
        JsonView::Obj(level_fields(level)).field("active"@) == Some(
            JsonView::Bool(level != "off"@),
        ),
{
}

/// A session tells when it ended, and how long it lasted, once it has.
pub proof fn ended_sessions_tell_their_end(x: Session)
    ensures
        open_session_fields(x).is_prefix_of(session_fields(x)),
        session_fields(x).len() == open_session_fields(x).len() + (if x.ended_at is Some {
            1int
        } else {
            0
        }) + (if x.duration_sec is Some {
            1int
        } else {
            0
        }),
        x.duration_sec is Some ==> session_fields(x).last() == (
            "duration_sec"@,
            int_view(x.duration_sec->0 as int),
        ),
{
    let f = open_session_fields(x);
    let g = session_fields(x);
    assert(g.subrange(0, f.len() as int) =~= f);
}

} // verus!
