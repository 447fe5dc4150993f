//! Explanations: where a score comes from, where it is heading, and what to do.
use vstd::prelude::*;

use crate::adaptive::good_label;
use crate::fixed::{
    clamped, double_hundredth, double_hundredth_of, double_part, double_sum, double_sum_of,
    double_tenths, double_tenths_of, double_times, double_times_of, double_units, double_units_of,
    fmt0, larger, last_of, lemma_hundred_times, lemma_hundredth_fine, lemma_large_times,
    lemma_minus_near, lemma_part_fine, lemma_small_times, lemma_sum_fine, lemma_sum_near,
    lemma_tenths_near, lemma_times_fine, lemma_units_fine, lemma_units_near, lemma_units_sign,
    lies_fine, lies_near, magnitude, share, share_text, smaller, whole_part_of, whole_text,
    FINE_UNITS, LIMIT, ONE, UNITS,
};
use crate::insights::{Calibration, SimilarLobby};
use crate::learning::AdaptiveThresholds;
use crate::signals::{signal_views, weigh, Signal};
use crate::snapshot::{gaming, is_gaming};
use crate::text::{cat3, dec, dec_int, decimal, decimal_int, same, views};

verus! {

/// What a poll came to. Scores are percentages, all in millionths.
pub struct AiContext {
    pub phase: String,
    pub conns: i64,
    pub base_score: i64,
    pub adjusted_score: i64,
    pub final_score: i64,
    pub final_label: String,
    pub learn_notes: Vec<String>,
    pub base_reasons: Vec<String>,
    pub signals: Vec<Signal>,
    pub mm_delta: Option<i64>,
    pub wan_jitter: Option<i64>,
    pub server_jitter: Option<i64>,
    pub conn_history: Vec<i64>,
    pub score_history: Vec<i64>,
}

impl AiContext {
    /// The scores are in the range that is kept.
    pub open spec fn wf(self) -> bool {
        &&& -LIMIT <= self.base_score <= LIMIT
        &&& -LIMIT <= self.adjusted_score <= LIMIT
        &&& -LIMIT <= self.final_score <= LIMIT
        &&& forall|i: int|
            0 <= i < self.score_history@.len() ==> -LIMIT <= #[trigger] self.score_history@[i]
                <= LIMIT
    }
}

/// A number rounded to one decimal, halves away from zero.
pub open spec fn one_decimal(x: int) -> int {
    if x >= 0 {
        ((x + 50_000) / 100_000) * 100_000
    } else {
        -(((50_000 - x) / 100_000) * 100_000)
    }
}

/// A number rounded to one decimal.
pub fn round1(x: i64) -> (r: i64)
    requires
        -4 * LIMIT <= x <= 4 * LIMIT,
    ensures
        r == one_decimal(x as int),
        -5 * LIMIT <= r <= 5 * LIMIT,
{
    if x >= 0 {
        ((x + 50_000) / 100_000) * 100_000
    } else {
        -(((50_000 - x) / 100_000) * 100_000)
    }
}

// ---------------------------------------------------------------------------------------------
// Where the score comes from

/// A part of the score with its origin.
pub struct ScoreSource {
    pub source: &'static str,
    pub label: &'static str,
    pub contribution: i64,
    /// The score after learning, for the part that learning gave.
    pub adjusted_score: Option<i64>,
    pub detail: Vec<String>,
}

pub open spec fn first_n(v: Seq<Seq<char>>, n: nat) -> Seq<Seq<char>> {
    if v.len() <= n {
        v
    } else {
        v.take(n as int)
    }
}

fn take_texts(v: &Vec<String>, n: usize) -> (r: Vec<String>)
    ensures
        views(r@) == first_n(views(v@), n as nat),
{
    let mut out: Vec<String> = Vec::new();
    let end: usize = if v.len() < n {
        v.len()
    } else {
        n
    };
    let mut i: usize = 0;
    while i < end
        invariant
            i <= end <= v.len(),
            views(out@) == views(v@).take(i as int),
        decreases end - i,
    {
        let ghost before = views(out@);
        out.push(v[i].clone());
        assert(views(out@) =~= before.push(v@[i as int]@));
        assert(views(out@) =~= views(v@).take(i + 1));
        i += 1;
    }
    assert(views(out@) =~= first_n(views(v@), n as nat));
    out
}

/// The first `n` signals of at least a quarter of their strength, as texts.
pub open spec fn strong_signals(s: Seq<(Seq<char>, int)>, n: nat) -> Seq<Seq<char>>
    decreases s.len(),
{
    if s.len() == 0 {
        Seq::empty()
    } else {
        let before = strong_signals(s.drop_last(), n);
        if s.last().1 >= 250_000 && before.len() < n {
            before.push(s.last().0 + ": "@ + share_text(s.last().1) + "%"@)
        } else {
            before
        }
    }
}

fn strong_texts(signals: &Vec<Signal>, n: usize) -> (r: Vec<String>)
    ensures
        views(r@) == strong_signals(signal_views(signals@), n as nat),
{
    let ghost all = signal_views(signals@);
    let mut out: Vec<String> = Vec::new();
    let mut i: usize = 0;
    assert(views(out@) =~= Seq::empty());
    while i < signals.len()
        invariant
            i <= signals.len(),
            all == signal_views(signals@),
            views(out@) == strong_signals(all.take(i as int), n as nat),
        decreases signals.len() - i,
    {
        let s = &signals[i];
        let ghost before = out@;
        proof {
            let u = all.take(i + 1);
            assert(u.drop_last() =~= all.take(i as int));
            assert(u.last() == (s.name@, s.strength as int));
            assert(views(out@).len() == out.len());
        }
        if s.strength >= 250_000 && out.len() < n {
            let mut t = s.name.clone();
            t.append(": ");
            t.append(share(s.strength).as_str());
            t.append("%");
            out.push(t);
            assert(views(out@) =~= views(before).push(t@));
        }
        i += 1;
    }
    assert(all.take(i as int) =~= all);
    out
}

/// A score as a percentage, in double precision and with one decimal: at most a hundred, and in
/// the range that is kept.
pub open spec fn score_percent(x: int) -> int {
    double_tenths(
        clamped(double_times(double_units(x), 100), -double_units(LIMIT as int), 100 * UNITS),
        UNITS as int,
    )
}

/// What the rules alone stand for.
pub open spec fn rules_part(ctx: AiContext) -> int {
    score_percent(ctx.base_score as int)
}

/// What learning changed in percent, cut to 30 either way: a double, in units.
pub open spec fn learning_part(ctx: AiContext) -> int {
    clamped(
        double_times(
            double_sum(
                double_units(ctx.adjusted_score as int),
                -double_units(ctx.base_score as int),
            ),
            100,
        ),
        -30 * UNITS,
        30 * UNITS,
    )
}

/// What the signals added in percent, cut to 25: a double, in finer units.
pub open spec fn signal_part(ctx: AiContext) -> int {
    clamped(
        double_times(
            double_sum(
                double_hundredth(ctx.final_score as int),
                -(double_units(ctx.adjusted_score as int) * 256),
            ),
            100,
        ),
        0,
        25 * FINE_UNITS,
    )
}

pub open spec fn learning_counts(ctx: AiContext) -> bool {
    ctx.learn_notes@.len() > 0 || 2 * learning_part(ctx) > UNITS || 2
        * learning_part(ctx) < -UNITS
}

pub open spec fn signals_count(ctx: AiContext) -> bool {
    strong_signals(signal_views(ctx.signals@), 4).len() > 0
}

pub open spec fn is_source(
    s: ScoreSource,
    source: Seq<char>,
    label: Seq<char>,
    contribution: int,
    adjusted: Option<int>,
    detail: Seq<Seq<char>>,
) -> bool {
    &&& s.source@ == source
    &&& s.label@ == label
    &&& s.contribution == contribution
    &&& (match s.adjusted_score {
        Some(n) => adjusted == Some(n as int),
        None => adjusted is None,
    })
    &&& views(s.detail@) == detail
}

/// The rules always count; learning where it changed or noted something; signals where one is
/// strong.
pub open spec fn are_sources(v: Seq<ScoreSource>, ctx: AiContext) -> bool {
    let l = learning_counts(ctx);
    let s = signals_count(ctx);
    &&& v.len() == 1 + (if l {
        1int
    } else {
        0int
    }) + (if s {
        1int
    } else {
        0int
    })
    &&& is_source(
        v[0],
        "rules"@,
        "Firewalla telemetry rules"@,
        rules_part(ctx),
        None,
        first_n(views(ctx.base_reasons@), 3),
    )
    &&& l ==> is_source(
        v[1],
        "learning"@,
        "Personalized AI (your network)"@,
        double_tenths(learning_part(ctx), UNITS as int),
        Some(score_percent(ctx.adjusted_score as int)),
        first_n(views(ctx.learn_notes@), 4),
    )
    &&& s ==> is_source(
        v[v.len() - 1],
        "signals"@,
        "Live session signals"@,
        double_tenths(signal_part(ctx), FINE_UNITS as int),
        None,
        strong_signals(signal_views(ctx.signals@), 4),
    )
}

fn cap_i128(x: i128, lo: i64, hi: i64) -> (r: i64)
    requires
        lo <= hi,
    ensures
        r == clamped(x as int, lo as int, hi as int),
{
    if x < lo as i128 {
        lo
    } else if x > hi as i128 {
        hi
    } else {
        x as i64
    }
}

fn cap_wide(x: i128, lo: i128, hi: i128) -> (r: i128)
    requires
        lo <= hi,
    ensures
        r == clamped(x as int, lo as int, hi as int),
{
    if x < lo {
        lo
    } else if x > hi {
        hi
    } else {
        x
    }
}

fn percent_of(x: i64) -> (r: i64)
    requires
        -LIMIT <= x <= LIMIT,
    ensures
        r == score_percent(x as int),
{
    let p: i128 = double_times_of(double_units_of(x), 100);
    let least: i128 = double_units_of(LIMIT);
    double_tenths_of(cap_wide(p, -least, 100 * UNITS), UNITS as u128) as i64
}

fn learning_of(ctx: &AiContext) -> (r: i128)
    requires
        ctx.wf(),
    ensures
        r == learning_part(*ctx),
        -30 * UNITS <= r <= 30 * UNITS,
{
    let d: i128 = double_sum_of(
        double_units_of(ctx.adjusted_score),
        -double_units_of(ctx.base_score),
    );
    cap_wide(double_times_of(d, 100), -30 * UNITS, 30 * UNITS)
}

fn signal_of(ctx: &AiContext) -> (r: i128)
    requires
        ctx.wf(),
    ensures
        r == signal_part(*ctx),
        0 <= r <= 25 * FINE_UNITS,
{
    let d: i128 = double_sum_of(
        double_hundredth_of(ctx.final_score),
        -(double_units_of(ctx.adjusted_score) * 256),
    );
    if d >= FINE_UNITS {
        proof {
            lemma_large_times(d as int);
        }
        return 25 * FINE_UNITS;
    }
    if d <= 0 {
        proof {
            lemma_small_times(d as int);
        }
        return 0;
    }
    cap_wide(double_times_of(d, 100), 0, 25 * FINE_UNITS)
}

/// Where the score comes from.
pub fn score_breakdown(ctx: &AiContext) -> (r: Vec<ScoreSource>)
    requires
        ctx.wf(),
    ensures
        are_sources(r@, *ctx),
{
    let learning: i128 = learning_of(ctx);
    let mut out: Vec<ScoreSource> = Vec::new();
    out.push(
        ScoreSource {
            source: "rules",
            label: "Firewalla telemetry rules",
            contribution: percent_of(ctx.base_score),
            adjusted_score: None,
            detail: take_texts(&ctx.base_reasons, 3),
        },
    );
    if ctx.learn_notes.len() > 0 || 2 * learning > UNITS || 2 * learning < -UNITS {
        out.push(
            ScoreSource {
                source: "learning",
                label: "Personalized AI (your network)",
                contribution: double_tenths_of(learning, UNITS as u128) as i64,
                adjusted_score: Some(percent_of(ctx.adjusted_score)),
                detail: take_texts(&ctx.learn_notes, 4),
            },
        );
    }
    let detail = strong_texts(&ctx.signals, 4);
    assert(views(detail@).len() == detail.len());
    if detail.len() > 0 {
        out.push(
            ScoreSource {
                source: "signals",
                label: "Live session signals",
                contribution: double_tenths_of(signal_of(ctx), FINE_UNITS as u128) as i64,
                adjusted_score: None,
                detail,
            },
        );
    }
    out
}

// ---------------------------------------------------------------------------------------------
// Where it is heading

/// The last twelve polls.
pub struct Trajectory {
    /// Newest first.
    pub connections: Vec<i64>,
    /// Newest first, rounded to one decimal.
    pub scores: Vec<i64>,
    pub conn_delta: i64,
    pub score_delta: i64,
}

pub open spec fn newest_12(v: Seq<i64>) -> Seq<i64> {
    last_of(v, 12).reverse()
}

/// The newest of the last twelve less the oldest of them; 0 of fewer than two.
pub open spec fn change_12(v: Seq<i64>) -> int {
    let t = last_of(v, 12);
    if t.len() >= 2 {
        t.last() - t[0]
    } else {
        0
    }
}

pub open spec fn conn_change(ctx: AiContext) -> int {
    clamped(change_12(ctx.conn_history@), i64::MIN as int, i64::MAX as int)
}

pub open spec fn score_change(ctx: AiContext) -> int {
    one_decimal(change_12(ctx.score_history@))
}

fn newest_12_of(v: &Vec<i64>) -> (r: Vec<i64>)
    ensures
        r@ == newest_12(v@),
{
    let mut out: Vec<i64> = Vec::new();
    let n: usize = if v.len() < 12 {
        v.len()
    } else {
        12
    };
    let ghost want = newest_12(v@);
    assert(want.len() == n);
    let mut i: usize = 0;
    while i < n
        invariant
            i <= n <= v.len(),
            n == if v.len() < 12 {
                v.len()
            } else {
                12
            },
            want == newest_12(v@),
            want.len() == n,
            out@ == want.take(i as int),
        decreases n - i,
    {
        out.push(v[v.len() - 1 - i]);
        assert(want[i as int] == v@[v.len() - 1 - i]);
        assert(out@ =~= want.take(i + 1));
        i += 1;
    }
    assert(want.take(i as int) =~= want);
    out
}

fn change_12_of(v: &Vec<i64>) -> (r: i128)
    ensures
        r == change_12(v@),
{
    if v.len() < 2 {
        return 0;
    }
    let from: usize = if v.len() > 12 {
        v.len() - 12
    } else {
        0
    };
    let ghost t = last_of(v@, 12);
    assert(t[0] == v@[from as int]);
    assert(t.last() == v@[v.len() - 1]);
    v[v.len() - 1] as i128 - v[from] as i128
}

/// The last twelve polls.
pub fn trajectory_analysis(ctx: &AiContext) -> (r: Trajectory)
    requires
        ctx.wf(),
    ensures
        r.connections@ == newest_12(ctx.conn_history@),
        r.scores@ == newest_12(ctx.score_history@).map_values(
            |s: i64| one_decimal(s as int) as i64,
        ),
        r.conn_delta == conn_change(*ctx),
        r.score_delta == score_change(*ctx),
{
    let raw = newest_12_of(&ctx.score_history);
    let ghost want = raw@.map_values(|s: i64| one_decimal(s as int) as i64);
    let mut scores: Vec<i64> = Vec::new();
    let mut i: usize = 0;
    while i < raw.len()
        invariant
            i <= raw.len(),
            raw@ == newest_12(ctx.score_history@),
            ctx.wf(),
            want == raw@.map_values(|s: i64| one_decimal(s as int) as i64),
            scores@ == want.take(i as int),
        decreases raw.len() - i,
    {
        proof {
            let t = last_of(ctx.score_history@, 12);
            assert(raw@[i as int] == t[t.len() - 1 - i]);
            assert(ctx.score_history@.contains(raw@[i as int]));
        }
        scores.push(round1(raw[i]));
        assert(scores@ =~= want.take(i + 1));
        i += 1;
    }
    assert(want.take(i as int) =~= want);
    let d: i128 = change_12_of(&ctx.score_history);
    proof {
        let t = last_of(ctx.score_history@, 12);
        if t.len() >= 2 {
            assert(ctx.score_history@.contains(t[0]) && ctx.score_history@.contains(t.last()));
        }
        assert(-2 * LIMIT <= d <= 2 * LIMIT);
    }
    Trajectory {
        connections: newest_12_of(&ctx.conn_history),
        scores,
        conn_delta: cap_i128(change_12_of(&ctx.conn_history), i64::MIN, i64::MAX),
        score_delta: round1(d as i64),
    }
}

/// Where the session is heading. The probability is a percentage in millionths.
pub struct Prediction {
    pub trend: &'static str,
    pub estimated_bad_probability: i64,
    pub risk_factors: Vec<String>,
    pub early_warning: bool,
}

pub open spec fn trend_of(conn_delta: int, score_delta: int) -> Seq<char> {
    if score_delta > 5_000_000 || conn_delta > 20 {
        "worsening"@
    } else if score_delta < -5_000_000 && conn_delta < -10 {
        "improving"@
    } else {
        "stable"@
    }
}

pub open spec fn worsening(conn_delta: int, score_delta: int) -> bool {
    score_delta > 5_000_000 || conn_delta > 20
}

pub open spec fn risk_factors(
    ctx: AiContext,
    conn_delta: int,
    score_delta: int,
    th: AdaptiveThresholds,
) -> Seq<Seq<char>> {
    let jitter = match ctx.server_jitter {
        Some(n) => n as int,
        None => 0,
    };
    let f = Seq::<Seq<char>>::empty();
    let f = if conn_delta > 15 {
        f.push("Connection fan-out rising (+"@ + decimal_int(conn_delta) + " over ~48s)"@)
    } else {
        f
    };
    let f = if score_delta > 8_000_000 {
        f.push("Verdict score climbing (+"@ + whole_text(score_delta) + " pts)"@)
    } else {
        f
    };
    let f = if ctx.conns * ONE > th.conn_matchmaking_high && ctx.phase@ != "post-match"@ {
        f.push(
            "Above your learned high baseline ("@ + whole_text(th.conn_matchmaking_high as int)
                + " conns)"@,
        )
    } else {
        f
    };
    if jitter > th.jitter_bad {
        f.push("Server jitter exceeds learned bad threshold"@)
    } else {
        f
    }
}

/// What rising connections add to the chance, as a double in finer units: a hundredth each, at most
/// 0.15.
pub open spec fn conn_share(delta: int) -> int {
    if delta <= 0 {
        0
    } else if delta >= 15 {
        fine_units(150_000)
    } else {
        double_part((delta * FINE_UNITS) as nat, 100) as int
    }
}

/// What a rising score adds to the chance, as a double in finer units: a hundredth of each
/// percent, at most 0.12.
pub open spec fn score_share(delta: int) -> int {
    if delta <= 0 {
        0
    } else if delta >= 12_000_000 {
        fine_units(120_000)
    } else {
        double_hundredth(delta)
    }
}

/// What risk factors add to the chance, as a double in finer units: 0.03 each, at most 0.12.
pub open spec fn factor_share(n: nat) -> int {
    if n >= 4 {
        fine_units(120_000)
    } else {
        double_times(fine_units(30_000), n)
    }
}

/// The double next to a number of millionths, in finer units.
pub open spec fn fine_units(x: int) -> int {
    double_units(x) * 256
}

/// The chance that the lobby is bad, as a double in finer units: the score, plus what its course
/// and the risk factors add, at least what the verdict stands for, and never certain.
#[verifier::opaque]
pub open spec fn bad_chance(
    final_score: int,
    label: Seq<char>,
    conn_delta: int,
    score_delta: int,
    factors: nat,
) -> int {
    let p = double_sum(double_hundredth(final_score), conn_share(conn_delta));
    let p = double_sum(p, score_share(score_delta));
    let p = double_sum(p, factor_share(factors));
    let q = if label == "LIKELY"@ {
        larger(p, fine_units(550_000))
    } else if label == "POSSIBLE"@ {
        larger(p, fine_units(280_000))
    } else {
        p
    };
    clamped(q, 0, fine_units(950_000))
}

fn fine_units_of(x: i64) -> (r: i128)
    requires
        0 <= x <= 1_000_000,
    ensures
        r == fine_units(x as int),
        0 <= r <= FINE_UNITS,
{
    double_units_of(x) * 256
}

fn conn_share_of(delta: i64) -> (r: i128)
    ensures
        r == conn_share(delta as int),
        0 <= r <= 0x1000 * FINE_UNITS,
{
    if delta <= 0 {
        0
    } else if delta >= 15 {
        fine_units_of(150_000)
    } else {
        whole_part_of(delta as u64, 100)
    }
}

fn score_share_of(delta: i64) -> (r: i128)
    ensures
        r == score_share(delta as int),
        magnitude(r as int) <= 0x100_0000_0000_0000_0000_0000_0000_0000 + 100,
{
    if delta <= 0 {
        0
    } else if delta >= 12_000_000 {
        fine_units_of(120_000)
    } else {
        double_hundredth_of(delta)
    }
}

fn factor_share_of(n: usize) -> (r: i128)
    ensures
        r == factor_share(n as nat),
        0 <= r <= 0x1000 * FINE_UNITS,
{
    if n >= 4 {
        fine_units_of(120_000)
    } else {
        let u: i128 = fine_units_of(30_000);
        assert(magnitude(u as int) * n <= 4 * FINE_UNITS) by (nonlinear_arith)
            requires
                0 <= magnitude(u as int) <= FINE_UNITS,
                0 <= n <= 4,
        ;
        double_times_of(u, n as u128)
    }
}

/// The chance that the lobby is bad, as a double in units of which `fixed::FINE_UNITS` make one.
pub fn estimate_bad_probability(
    final_score: i64,
    label: &str,
    conn_delta: i64,
    score_delta: i64,
    factors: usize,
) -> (r: i128)
    requires
        -LIMIT <= final_score <= LIMIT,
    ensures
        r == bad_chance(
            final_score as int,
            label@,
            conn_delta as int,
            score_delta as int,
            factors as nat,
        ),
        0 <= r <= FINE_UNITS,
{
    reveal(bad_chance);
    let p: i128 = double_sum_of(double_hundredth_of(final_score), conn_share_of(conn_delta));
    let p: i128 = double_sum_of(p, score_share_of(score_delta));
    let p: i128 = double_sum_of(p, factor_share_of(factors));
    let least: i128 = if same(label, "LIKELY") {
        fine_units_of(550_000)
    } else if same(label, "POSSIBLE") {
        fine_units_of(280_000)
    } else {
        p
    };
    let q: i128 = if p >= least {
        p
    } else {
        least
    };
    cap_wide(q, 0, fine_units_of(950_000))
}

/// A chance as a percentage with one decimal.
pub open spec fn chance_percent(p: int) -> int {
    double_tenths(double_times(p, 100), FINE_UNITS as int)
}

fn list_risk_factors(ctx: &AiContext, conn_delta: i64, score_delta: i64, th: &AdaptiveThresholds)
    -> (r: Vec<String>)
    ensures
        views(r@) == risk_factors(*ctx, conn_delta as int, score_delta as int, *th),
{
    let mut f: Vec<String> = Vec::new();
    assert(views(f@) =~= Seq::empty());
    if conn_delta > 15 {
        let n = dec_int(conn_delta);
        push(&mut f, cat3("Connection fan-out rising (+", n.as_str(), " over ~48s)"));
    }
    if score_delta > 8_000_000 {
        let n = fmt0(score_delta);
        push(&mut f, cat3("Verdict score climbing (+", n.as_str(), " pts)"));
    }
    if ctx.conns as i128 * 1_000_000 > th.conn_matchmaking_high as i128 && !same(
        ctx.phase.as_str(),
        "post-match",
    ) {
        let n = fmt0(th.conn_matchmaking_high);
        push(&mut f, cat3("Above your learned high baseline (", n.as_str(), " conns)"));
    }
    let jitter: i64 = match ctx.server_jitter {
        Some(n) => n,
        None => 0,
    };
    if jitter > th.jitter_bad {
        push(&mut f, "Server jitter exceeds learned bad threshold".to_owned());
    }
    f
}

fn push(v: &mut Vec<String>, t: String)
    ensures
        views(final(v)@) == views(old(v)@).push(t@),
{
    v.push(t);
    assert(views(v@) =~= views(old(v)@).push(t@));
}

/// Where the session is heading.
pub fn predict_trajectory(ctx: &AiContext, t: &Trajectory, th: &AdaptiveThresholds) -> (r:
    Prediction)
    requires
        -LIMIT <= ctx.final_score <= LIMIT,
    ensures
        r.trend@ == trend_of(t.conn_delta as int, t.score_delta as int),
        views(r.risk_factors@) == risk_factors(
            *ctx,
            t.conn_delta as int,
            t.score_delta as int,
            *th,
        ),
        r.estimated_bad_probability == chance_percent(
            bad_chance(
                ctx.final_score as int,
                ctx.final_label@,
                t.conn_delta as int,
                t.score_delta as int,
                r.risk_factors@.len(),
            ),
        ),
        r.early_warning == (worsening(t.conn_delta as int, t.score_delta as int)
            && ctx.final_label@ == "CLEAN"@),
{
    let factors = list_risk_factors(ctx, t.conn_delta, t.score_delta, th);
    let bad = t.score_delta > 5_000_000 || t.conn_delta > 20;
    let trend = if bad {
        "worsening"
    } else if t.score_delta < -5_000_000 && t.conn_delta < -10 {
        "improving"
    } else {
        "stable"
    };
    let p: i128 = estimate_bad_probability(
        ctx.final_score,
        ctx.final_label.as_str(),
        t.conn_delta,
        t.score_delta,
        factors.len(),
    );
    Prediction {
        trend,
        estimated_bad_probability: double_tenths_of(
            double_times_of(p, 100),
            FINE_UNITS as u128,
        ) as i64,
        risk_factors: factors,
        early_warning: bad && same(ctx.final_label.as_str(), "CLEAN"),
    }
}

/// The verdict and its course in one sentence.
pub open spec fn summary_of(label: Seq<char>, worse: bool) -> Seq<char> {
    if label == "LIKELY"@ {
        if worse {
            "High-confidence bad lobby — cheater detection active; network path unchanged in-match."@
        } else {
            "Likely cheater lobby — flood guard + buffers active to protect your connection."@
        }
    } else if label == "POSSIBLE"@ {
        if worse {
            "Marginal lobby worsening — defenses escalating if attack signals appear."@
        } else {
            "Borderline lobby — partial defense engaged; monitoring for kick floods."@
        }
    } else if label == "CLEAN"@ && worse {
        "Currently clean but fan-out rising — early warning before verdict flips."@
    } else {
        "Telemetry matches your learned clean profile for this phase."@
    }
}

/// The verdict and its course in one sentence.
pub fn ai_summary(label: &str, worse: bool) -> (r: &'static str)
    ensures
        r@ == summary_of(label@, worse),
{
    if same(label, "LIKELY") {
        if worse {
            "High-confidence bad lobby — cheater detection active; network path unchanged in-match."
        } else {
            "Likely cheater lobby — flood guard + buffers active to protect your connection."
        }
    } else if same(label, "POSSIBLE") {
        if worse {
            "Marginal lobby worsening — defenses escalating if attack signals appear."
        } else {
            "Borderline lobby — partial defense engaged; monitoring for kick floods."
        }
    } else if same(label, "CLEAN") && worse {
        "Currently clean but fan-out rising — early warning before verdict flips."
    } else {
        "Telemetry matches your learned clean profile for this phase."
    }
}

// ---------------------------------------------------------------------------------------------
// What to do

/// A piece of advice.
pub struct Recommendation {
    pub priority: &'static str,
    pub action: &'static str,
    pub text: String,
}

pub open spec fn rec_views(v: Seq<Recommendation>) -> Seq<(Seq<char>, Seq<char>, Seq<char>)> {
    v.map_values(|r: Recommendation| (r.priority@, r.action@, r.text@))
}

/// The advice that the verdict alone gives.
pub open spec fn verdict_advice(label: Seq<char>, early: bool) -> Seq<
    (Seq<char>, Seq<char>, Seq<char>),
> {
    if label == "LIKELY"@ {
        seq![
            (
                "high"@,
                "defend"@,
                "Cheater lobby — peer probe shield targets VPS/player tiny floods; normal game packets pass."@,
            ),
            (
                "medium"@,
                "stop_defenses"@,
                "Still glitching when aiming? Hit Stop defenses — removes all network rules."@,
            ),
            (
                "high"@,
                "mark_bad"@,
                "Mark cheater lobby after match — trains defense thresholds for your network."@,
            ),
        ]
    } else if label == "POSSIBLE"@ {
        seq![
            (
                "medium"@,
                "defend"@,
                "Defenses partially engaged — per-source limits active on suspicious traffic."@,
            ),
            (
                "high"@,
                "mark_bad"@,
                "Seeing cheaters? Hit Mark cheater lobby — do not mark clean in a bad lobby."@,
            ),
        ]
    } else if early {
        seq![
            (
                "medium"@,
                "watch"@,
                "Early warning — fan-out rising while verdict still CLEAN. Re-check in 10s."@,
            ),
        ]
    } else {
        seq![
            (
                "low"@,
                "continue"@,
                "Telemetry looks normal for your MoCA path — mark clean after match to train AI."@,
            ),
        ]
    }
}

pub open spec fn is_bad_neighbor(label: Seq<char>) -> bool {
    label == "USER_BAD"@ || label == "LIKELY"@ || label == "USER_MARGINAL"@
}

/// How many of the similar lobbies were bad, or where `good` is set clean.
pub open spec fn neighbors(s: Seq<SimilarLobby>, good: bool) -> nat
    decreases s.len(),
{
    if s.len() == 0 {
        0
    } else {
        neighbors(s.drop_last(), good) + if (if good {
            good_label(s.last().label@)
        } else {
            is_bad_neighbor(s.last().label@)
        }) {
            1nat
        } else {
            0nat
        }
    }
}

/// All advice on a poll.
pub open spec fn recommendations(
    ctx: AiContext,
    bad: nat,
    good: nat,
    early: bool,
    needs_clean: bool,
) -> Seq<(Seq<char>, Seq<char>, Seq<char>)> {
    let label = ctx.final_label@;
    let r = verdict_advice(label, early);
    let r = if bad >= 2 {
        r.push(
            (
                "high"@,
                "pattern_match"@,
                "32D fold matches "@ + decimal(bad)
                    + " prior bad lobbies — high pattern confidence."@,
            ),
        )
    } else {
        r
    };
    let r = if good >= 2 && label == "POSSIBLE"@ && ctx.final_score < 42_000_000 {
        r.push(
            (
                "low"@,
                "false_positive_hint"@,
                "Also similar to "@ + decimal(good)
                    + " lobbies you marked clean — possible false alarm."@,
            ),
        )
    } else {
        r
    };
    let r = if gaming(ctx.phase@) {
        r.push(
            (
                "info"@,
                "network_guard"@,
                "In-match: tiny-packet shield only. Matchmaking: light buffers + shield on cheater lobbies."@,
            ),
        )
    } else {
        r
    };
    if needs_clean && label == "CLEAN"@ && !gaming(ctx.phase@) {
        r.push(
            (
                "info"@,
                "train_ai"@,
                "Next time you have a genuinely good lobby, mark it clean — builds your normal fan-out profile."@,
            ),
        )
    } else {
        r
    }
}

fn recommend(
    v: &mut Vec<Recommendation>,
    priority: &'static str,
    action: &'static str,
    text: String,
)
    ensures
        rec_views(final(v)@) == rec_views(old(v)@).push((priority@, action@, text@)),
{
    v.push(Recommendation { priority, action, text });
    assert(rec_views(v@) =~= rec_views(old(v)@).push((priority@, action@, text@)));
}

fn count_neighbors(s: &Vec<SimilarLobby>, good: bool) -> (r: u64)
    ensures
        r == neighbors(s@, good),
{
    let mut n: u64 = 0;
    let mut i: usize = 0;
    while i < s.len()
        invariant
            i <= s.len(),
            n <= i,
            n == neighbors(s@.take(i as int), good),
        decreases s.len() - i,
    {
        proof {
            let u = s@.take(i + 1);
            assert(u.drop_last() =~= s@.take(i as int));
            assert(u.last() == s@[i as int]);
        }
        let l = s[i].label.as_str();
        let counts = if good {
            crate::adaptive::is_good_label(l)
        } else {
            same(l, "USER_BAD") || same(l, "LIKELY") || same(l, "USER_MARGINAL")
        };
        if counts {
            n += 1;
        }
        i += 1;
    }
    assert(s@.take(i as int) =~= s@);
    n
}

/// All advice on a poll.
pub fn build_recommendations(
    ctx: &AiContext,
    similar: &Vec<SimilarLobby>,
    prediction: &Prediction,
    calibration: &Calibration,
) -> (r: Vec<Recommendation>)
    ensures
        rec_views(r@) == recommendations(
            *ctx,
            neighbors(similar@, false),
            neighbors(similar@, true),
            prediction.early_warning,
            calibration.needs_clean_marks,
        ),
{
    let mut r: Vec<Recommendation> = Vec::new();
    let label = ctx.final_label.as_str();
    assert(rec_views(r@) =~= Seq::empty());
    if same(label, "LIKELY") {
        recommend(
            &mut r,
            "high",
            "defend",
            "Cheater lobby — peer probe shield targets VPS/player tiny floods; normal game packets pass.".to_owned(),
        );
        recommend(
            &mut r,
            "medium",
            "stop_defenses",
            "Still glitching when aiming? Hit Stop defenses — removes all network rules.".to_owned(),
        );
        recommend(
            &mut r,
            "high",
            "mark_bad",
            "Mark cheater lobby after match — trains defense thresholds for your network.".to_owned(),
        );
    } else if same(label, "POSSIBLE") {
        recommend(
            &mut r,
            "medium",
            "defend",
            "Defenses partially engaged — per-source limits active on suspicious traffic.".to_owned(),
        );
        recommend(
            &mut r,
            "high",
            "mark_bad",
            "Seeing cheaters? Hit Mark cheater lobby — do not mark clean in a bad lobby.".to_owned(),
        );
    } else if prediction.early_warning {
        recommend(
            &mut r,
            "medium",
            "watch",
            "Early warning — fan-out rising while verdict still CLEAN. Re-check in 10s.".to_owned(),
        );
    } else {
        recommend(
            &mut r,
            "low",
            "continue",
            "Telemetry looks normal for your MoCA path — mark clean after match to train AI.".to_owned(),
        );
    }
    assert(rec_views(r@) =~= verdict_advice(label@, prediction.early_warning));
    let bad: u64 = count_neighbors(similar, false);
    if bad >= 2 {
        let n = dec(bad);
        recommend(
            &mut r,
            "high",
            "pattern_match",
            cat3(
                "32D fold matches ",
                n.as_str(),
                " prior bad lobbies — high pattern confidence.",
            ),
        );
    }
    let good: u64 = count_neighbors(similar, true);
    if good >= 2 && same(label, "POSSIBLE") && ctx.final_score < 42_000_000 {
        let n = dec(good);
        recommend(
            &mut r,
            "low",
            "false_positive_hint",
            cat3(
                "Also similar to ",
                n.as_str(),
                " lobbies you marked clean — possible false alarm.",
            ),
        );
    }
    if is_gaming(ctx.phase.as_str()) {
        recommend(
            &mut r,
            "info",
            "network_guard",
            "In-match: tiny-packet shield only. Matchmaking: light buffers + shield on cheater lobbies.".to_owned(),
        );
    }
    if calibration.needs_clean_marks && same(label, "CLEAN") && !is_gaming(ctx.phase.as_str()) {
        recommend(
            &mut r,
            "info",
            "train_ai",
            "Next time you have a genuinely good lobby, mark it clean — builds your normal fan-out profile.".to_owned(),
        );
    }
    r
}

/// The explanation of a poll.
pub struct AiReport {
    pub summary: &'static str,
    pub sources: Vec<ScoreSource>,
    pub trajectory: Trajectory,
    pub prediction: Prediction,
    pub recommendations: Vec<Recommendation>,
}

/// Explains a poll.
pub fn analyze(
    ctx: &AiContext,
    similar: &Vec<SimilarLobby>,
    calibration: &Calibration,
    th: &AdaptiveThresholds,
) -> (r: AiReport)
    requires
        ctx.wf(),
    ensures
        r.summary@ == summary_of(
            ctx.final_label@,
            worsening(conn_change(*ctx), score_change(*ctx)),
        ),
        are_sources(r.sources@, *ctx),
        r.trajectory.connections@ == newest_12(ctx.conn_history@),
        r.trajectory.scores@ == newest_12(ctx.score_history@).map_values(
            |s: i64| one_decimal(s as int) as i64,
        ),
        r.trajectory.conn_delta == conn_change(*ctx),
        r.trajectory.score_delta == score_change(*ctx),
        r.prediction.trend@ == trend_of(conn_change(*ctx), score_change(*ctx)),
        views(r.prediction.risk_factors@) == risk_factors(
            *ctx,
            conn_change(*ctx),
            score_change(*ctx),
            *th,
        ),
        r.prediction.estimated_bad_probability == chance_percent(
            bad_chance(
                ctx.final_score as int,
                ctx.final_label@,
                conn_change(*ctx),
                score_change(*ctx),
                r.prediction.risk_factors@.len(),
            ),
        ),
        r.prediction.early_warning == (worsening(conn_change(*ctx), score_change(*ctx))
            && ctx.final_label@ == "CLEAN"@),
        rec_views(r.recommendations@) == recommendations(
            *ctx,
            neighbors(similar@, false),
            neighbors(similar@, true),
            r.prediction.early_warning,
            calibration.needs_clean_marks,
        ),
{
    let sources = score_breakdown(ctx);
    let trajectory = trajectory_analysis(ctx);
    let prediction = predict_trajectory(ctx, &trajectory, th);
    let recommendations = build_recommendations(ctx, similar, &prediction, calibration);
    let worse = trajectory.score_delta > 5_000_000 || trajectory.conn_delta > 20;
    AiReport {
        summary: ai_summary(ctx.final_label.as_str(), worse),
        sources,
        trajectory,
        prediction,
        recommendations,
    }
}

/// A trend worsens where the score rose by more than five points or the connections by more than
/// twenty, improves where both fell, by more than five and ten, and is stable otherwise. Rising
/// further never makes it better.
pub proof fn trends_follow_the_changes(conns: int, score: int, more_conns: int, more_score: int)
    requires
        conns <= more_conns,
        score <= more_score,
    ensures
        trend_of(conns, score) == "worsening"@ <==> score > 5_000_000 || conns > 20,
        trend_of(conns, score) == "improving"@ <==> score < -5_000_000 && conns < -10,
        trend_of(conns, score) == "stable"@ <==> score <= 5_000_000 && conns <= 20 && (score
            >= -5_000_000 || conns >= -10),
        worsening(conns, score) <==> trend_of(conns, score) == "worsening"@,
        worsening(conns, score) ==> worsening(more_conns, more_score),
        trend_of(more_conns, more_score) == "improving"@ ==> trend_of(conns, score)
            == "improving"@,
{
    reveal_strlit("worsening");
    reveal_strlit("improving");
    reveal_strlit("stable");
    assert("worsening"@.len() == 9 && "improving"@.len() == 9 && "stable"@.len() == 6);
    assert("worsening"@[0] == 'w' && "improving"@[0] == 'i');
}

/// The change of a series is its newest value less that of eleven polls before, or the first that
/// is known; of fewer than two values it is nothing.
pub proof fn changes_are_newest_less_oldest(v: Seq<i64>)
    ensures
        v.len() < 2 ==> change_12(v) == 0,
        2 <= v.len() <= 12 ==> change_12(v) == v.last() - v[0],
        v.len() > 12 ==> change_12(v) == v.last() - v[v.len() - 12],
        v.len() > 0 ==> newest_12(v)[0] == v.last(),
        newest_12(v).len() <= 12,
{
}

/// What makes a risk: connections that rose by more than fifteen, a score that rose by more than
/// eight points, more connections than the learned high outside of the end of a match, and servers
/// that swing by more than was learned to be bad.
pub proof fn risks_have_factors(
    ctx: AiContext,
    conns: int,
    score: int,
    th: AdaptiveThresholds,
)
    ensures
        risk_factors(ctx, conns, score, th).len() == weigh(conns >= 16, 1) + weigh(
            score > 8_000_000,
            1,
        ) + weigh(
            ctx.conns * 1_000_000 > th.conn_matchmaking_high && ctx.phase@ != "post-match"@,
            1,
        ) + weigh(
            (ctx.server_jitter is Some && ctx.server_jitter->0 > th.jitter_bad) || (
            ctx.server_jitter is None && th.jitter_bad < 0),
            1,
        ),
{
}

/// The signals that are told are the first of a quarter or more, each as a text of its own.
pub proof fn strong_signals_are_told(s: Seq<(Seq<char>, int)>, x: (Seq<char>, int), n: nat)
    ensures
        strong_signals(s, n).len() <= n,
        x.1 < 250_000 ==> strong_signals(s.push(x), n) == strong_signals(s, n),
        x.1 >= 250_000 && strong_signals(s, n).len() < n ==> strong_signals(s.push(x), n).len()
            == strong_signals(s, n).len() + 1,
        x.1 >= 250_000 && strong_signals(s, n).len() < n ==> x.0.is_prefix_of(
            strong_signals(s.push(x), n).last(),
        ),
        strong_signals(s, n).len() == n ==> strong_signals(s.push(x), n) == strong_signals(s, n),
    decreases s.len(),
{
    assert(s.push(x).drop_last() =~= s);
    let t = x.0 + ": "@ + share_text(x.1) + "%"@;
    assert(t.subrange(0, x.0.len() as int) =~= x.0);
    if s.len() > 0 {
        strong_signals_are_told(s.drop_last(), s.last(), n);
        assert(s.drop_last().push(s.last()) =~= s);
    }
}

/// How many neighbors there are of each kind: clean ones by their label, and likely, bad and
/// marginal ones.
pub proof fn neighbors_are_counted(s: Seq<SimilarLobby>, x: SimilarLobby)
    ensures
        neighbors(s.push(x), true) == neighbors(s, true) + weigh(
            x.label@ == "CLEAN"@ || x.label@ == "USER_GOOD"@,
            1,
        ),
        neighbors(s.push(x), false) == neighbors(s, false) + weigh(
            x.label@ == "LIKELY"@ || x.label@ == "USER_BAD"@ || x.label@ == "USER_MARGINAL"@,
            1,
        ),
{
    assert(s.push(x).drop_last() =~= s);
}

/// What is advised: for a likely lobby first to defend, and to mark it; for a possible one the
/// same, less urgently; a clean one is watched where it worsens. Then come what neighbors tell, a
/// hint in play, and one to train outside of it.
pub proof fn advice_follows_the_verdict(
    ctx: AiContext,
    bad: nat,
    good: nat,
    early: bool,
    needs_clean: bool,
)
    ensures
        ({
            let r = recommendations(ctx, bad, good, early, needs_clean);
            let label = ctx.final_label@;
            let likely = label == "LIKELY"@;
            let possible = label == "POSSIBLE"@;
            let play = ctx.phase@ == "matchmaking"@ || ctx.phase@ == "in-match"@;
            &&& r.len() == (if likely {
                3int
            } else if possible {
                2
            } else {
                1
            }) + weigh(bad >= 2, 1) + weigh(
                possible && good >= 2 && ctx.final_score < 42_000_000,
                1,
            ) + weigh(play, 1) + weigh(needs_clean && label == "CLEAN"@ && !play, 1)
            &&& r[0].1 == "defend"@ <==> likely || possible
            &&& r[0].1 == "watch"@ <==> !likely && !possible && early
            &&& r[0].1 == "continue"@ <==> !likely && !possible && !early
            &&& likely ==> r[0].0 == "high"@ && r[2].1 == "mark_bad"@
            &&& possible ==> r[0].0 == "medium"@ && r[1].1 == "mark_bad"@
        }),
{
    reveal_strlit("LIKELY");
    reveal_strlit("POSSIBLE");
    reveal_strlit("defend");
    reveal_strlit("watch");
    reveal_strlit("continue");
    assert("LIKELY"@.len() == 6 && "POSSIBLE"@.len() == 8 && "defend"@.len() == 6 && "watch"@.len()
        == 5 && "continue"@.len() == 8);
}

/// A value is shown to one decimal: the nearest tenth, halves away from nothing.
pub proof fn one_decimal_is_nearest(x: int)
    ensures
        -50_000 <= one_decimal(x) - x <= 50_000,
        one_decimal(x) % 100_000 == 0,
        one_decimal(-x) == -one_decimal(x),
{
}

/// The chance of a bad lobby, in percent, is its score, one more for each connection that it
/// gained up to fifteen, as many as the score rose up to twelve, and three for each risk up to
/// four of them; at least 55 where the lobby is likely and 28 where it is possible; and 95 at most.
/// It is shown to a tenth.
pub proof fn chances_add_up(
    final_score: int,
    label: Seq<char>,
    conn_delta: int,
    score_delta: int,
    factors: nat,
)
    requires
        0 <= final_score <= 100_000_000,
    ensures
        ({
            let sum = final_score + 1_000_000 * clamped(conn_delta, 0, 15) + clamped(
                score_delta,
                0,
                12_000_000,
            ) + 3_000_000 * clamped(factors as int, 0, 4);
            let least: int = if label == "LIKELY"@ {
                55_000_000
            } else if label == "POSSIBLE"@ {
                28_000_000
            } else {
                0
            };
            let chance = smaller(larger(sum, least), 95_000_000);
            let told = chance_percent(
                bad_chance(final_score, label, conn_delta, score_delta, factors),
            );
            chance - 50_002 <= told <= chance + 50_002
        }),
{
    let c = clamped(conn_delta, 0, 15);
    let s = clamped(score_delta, 0, 12_000_000);
    let n = clamped(factors as int, 0, 4);
    let e1 = final_score + 1_000_000 * c;
    let e2 = e1 + s;
    let e3 = e2 + 3_000_000 * n;
    lemma_hundredth_fine(final_score);
    lemma_units_fine(150_000);
    lemma_units_fine(120_000);
    lemma_units_fine(30_000);
    lemma_units_fine(550_000);
    lemma_units_fine(280_000);
    lemma_units_fine(950_000);
    if 0 < conn_delta < 15 {
        lemma_part_fine(conn_delta);
    }
    assert(lies_fine(conn_share(conn_delta), 1_000_000 * c, 8));
    if 0 < score_delta < 12_000_000 {
        lemma_hundredth_fine(score_delta);
    }
    assert(lies_fine(score_share(score_delta), s, 8));
    if factors < 4 {
        lemma_times_fine(fine_units(30_000), factors, 3_000_000, 8);
    }
    assert(lies_fine(factor_share(factors), 3_000_000 * n, 32));
    let p0 = double_hundredth(final_score);
    let p1 = double_sum(p0, conn_share(conn_delta));
    lemma_sum_fine(p0, conn_share(conn_delta), final_score, 1_000_000 * c, 1, 8);
    let p2 = double_sum(p1, score_share(score_delta));
    lemma_sum_fine(p1, score_share(score_delta), e1, s, 10, 8);
    let p3 = double_sum(p2, factor_share(factors));
    lemma_sum_fine(p2, factor_share(factors), e2, 3_000_000 * n, 19, 32);
    assert(lies_fine(p3, e3, 52));
    let least: int = if label == "LIKELY"@ {
        55_000_000
    } else if label == "POSSIBLE"@ {
        28_000_000
    } else {
        0
    };
    let chance = smaller(larger(e3, least), 95_000_000);
    let p = bad_chance(final_score, label, conn_delta, score_delta, factors);
    lemma_labels_differ();
    let q = if label == "LIKELY"@ {
        larger(p3, fine_units(550_000))
    } else if label == "POSSIBLE"@ {
        larger(p3, fine_units(280_000))
    } else {
        p3
    };
    assert(p == clamped(q, 0, fine_units(950_000))) by {
        reveal(bad_chance);
    }
    assert(lies_fine(q, larger(e3, least), 52));
    assert(lies_fine(fine_units(950_000), 95_000_000, 8));
    assert(lies_fine(p, chance, 52));
    lemma_hundred_times(p);
    lemma_tenths_near(double_times(p, 100), FINE_UNITS as int, chance);
}

proof fn lemma_labels_differ()
    ensures
        "LIKELY"@ != "POSSIBLE"@,
{
    reveal_strlit("LIKELY");
    reveal_strlit("POSSIBLE");
    assert("LIKELY"@.len() == 6 && "POSSIBLE"@.len() == 8);
}

/// What each source adds to a score, in percent: the rules their own score, the records what they
/// changed, thirty at most either way, and the signals what is left, from nothing to 25. Each is
/// shown to a tenth.
pub proof fn sources_add_their_part(ctx: AiContext)
    requires
        0 <= ctx.base_score <= 1_000_000,
        0 <= ctx.adjusted_score <= 1_000_000,
        0 <= ctx.final_score <= 100_000_000,
    ensures
        ({
            let rules = 100 * ctx.base_score;
            let records = clamped(
                100 * (ctx.adjusted_score - ctx.base_score),
                -30_000_000,
                30_000_000,
            );
            let signals = clamped(ctx.final_score - 100 * ctx.adjusted_score, 0, 25_000_000);
            let by_records = double_tenths(learning_part(ctx), UNITS as int);
            let by_signals = double_tenths(signal_part(ctx), FINE_UNITS as int);
            &&& rules - 50_001 <= rules_part(ctx) <= rules + 50_001
            &&& records - 50_001 <= by_records <= records + 50_001
            &&& signals - 50_001 <= by_signals <= signals + 50_001
        }),
{
    lemma_percent_near(ctx.base_score as int);
    let (b, a) = (ctx.base_score as int, ctx.adjusted_score as int);
    lemma_units_near(a);
    lemma_units_near(b);
    lemma_minus_near(double_units(b), b, 1);
    lemma_sum_near(double_units(a), -double_units(b), a, -b, 1, 1);
    let d = double_sum(double_units(a), -double_units(b));
    assert(lies_near(d, a - b, 3));
    lemma_hundred_times(d);
    let records = clamped(100 * (a - b), -30_000_000, 30_000_000);
    lemma_tenths_near(learning_part(ctx), UNITS as int, records);
    let f = ctx.final_score as int;
    lemma_hundredth_fine(f);
    lemma_units_fine(a);
    let h = double_hundredth(f);
    let u = double_units(a) * 256;
    assert(lies_fine(-u, -(100 * a), 8));
    lemma_sum_fine(h, -u, f, -(100 * a), 1, 8);
    let g = double_sum(h, -u);
    lemma_hundred_times(g);
    let signals = clamped(f - 100 * a, 0, 25_000_000);
    lemma_tenths_near(signal_part(ctx), FINE_UNITS as int, signals);
}

proof fn lemma_percent_near(x: int)
    requires
        0 <= x <= 1_000_000,
    ensures
        100 * x - 50_001 <= score_percent(x) <= 100 * x + 50_001,
{
    lemma_units_near(x);
    lemma_units_sign(x);
    lemma_units_sign(LIMIT as int);
    let u = double_units(x);
    lemma_hundred_times(u);
    let a = clamped(double_times(u, 100), -double_units(LIMIT as int), 100 * UNITS);
    lemma_tenths_near(a, UNITS as int, 100 * x);
}

/// The records count as a source where they have something to say, or where they changed the score
/// by more than half a percent; the signals where one of them is strong.
pub proof fn sources_count_where_they_matter(ctx: AiContext)
    requires
        0 <= ctx.base_score <= 1_000_000,
        0 <= ctx.adjusted_score <= 1_000_000,
    ensures
        ctx.learn_notes@.len() > 0 ==> learning_counts(ctx),
        ctx.adjusted_score - ctx.base_score > 5_001 || ctx.base_score - ctx.adjusted_score > 5_001
            ==> learning_counts(ctx),
        ctx.learn_notes@.len() == 0 && -4_999 < ctx.adjusted_score - ctx.base_score < 4_999
            ==> !learning_counts(ctx),
        signals_count(ctx) <==> exists|i: int|
            0 <= i < ctx.signals@.len() && (#[trigger] signal_views(ctx.signals@)[i]).1 >= 250_000,
{
    let (b, a) = (ctx.base_score as int, ctx.adjusted_score as int);
    lemma_units_near(a);
    lemma_units_near(b);
    lemma_minus_near(double_units(b), b, 1);
    lemma_sum_near(double_units(a), -double_units(b), a, -b, 1, 1);
    let d = double_sum(double_units(a), -double_units(b));
    lemma_hundred_times(d);
    lemma_any_strong(signal_views(ctx.signals@), 4);
}

proof fn lemma_any_strong(s: Seq<(Seq<char>, int)>, n: nat)
    requires
        n > 0,
    ensures
        strong_signals(s, n).len() > 0 <==> exists|i: int|
            0 <= i < s.len() && (#[trigger] s[i]).1 >= 250_000,
    decreases s.len(),
{
    if s.len() > 0 {
        let u = s.drop_last();
        lemma_any_strong(u, n);
        assert(s.last() == s[s.len() - 1]);
        if exists|i: int| 0 <= i < u.len() && (#[trigger] u[i]).1 >= 250_000 {
            let i = choose|i: int| 0 <= i < u.len() && (#[trigger] u[i]).1 >= 250_000;
            assert(s[i] == u[i]);
        }
        if exists|i: int| 0 <= i < s.len() && (#[trigger] s[i]).1 >= 250_000 {
            let i = choose|i: int| 0 <= i < s.len() && (#[trigger] s[i]).1 >= 250_000;
            if i < u.len() {
                assert(u[i] == s[i]);
            }
        }
    }
}

/// What is said of a lobby: a likely one is called so, a possible one borderline, and a clean one
/// is warned of while it worsens; whether it worsens changes what is said of each of them.
pub proof fn summaries_go_by_the_verdict(label: Seq<char>, worse: bool)
    ensures
        label == "LIKELY"@ && worse ==> summary_of(label, worse)
            == "High-confidence bad lobby — cheater detection active; network path unchanged in-match."@,
        label == "LIKELY"@ && !worse ==> summary_of(label, worse)
            == "Likely cheater lobby — flood guard + buffers active to protect your connection."@,
        label == "POSSIBLE"@ && worse ==> summary_of(label, worse)
            == "Marginal lobby worsening — defenses escalating if attack signals appear."@,
        label == "POSSIBLE"@ && !worse ==> summary_of(label, worse)
            == "Borderline lobby — partial defense engaged; monitoring for kick floods."@,
        label == "CLEAN"@ && worse ==> summary_of(label, worse)
            == "Currently clean but fan-out rising — early warning before verdict flips."@,
        label == "CLEAN"@ && !worse ==> summary_of(label, worse)
            == "Telemetry matches your learned clean profile for this phase."@,
{
    lemma_labels_differ();
    reveal_strlit("LIKELY");
    reveal_strlit("POSSIBLE");
    reveal_strlit("CLEAN");
    assert("LIKELY"@.len() == 6 && "POSSIBLE"@.len() == 8 && "CLEAN"@.len() == 5);
}

/// The first lines of a list are its beginning, as many as are wanted.
pub proof fn first_lines_are_the_beginning(v: Seq<Seq<char>>, n: nat)
    ensures
        first_n(v, n).len() <= n,
        first_n(v, n).is_prefix_of(v),
        v.len() <= n ==> first_n(v, n) == v,
        v.len() >= n ==> first_n(v, n).len() == n,
{
    let f = first_n(v, n);
    assert(v.subrange(0, f.len() as int) =~= f);
}

} // verus!
