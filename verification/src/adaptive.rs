//! Thresholds and adjustments learned from what was recorded.
use vstd::prelude::*;

use crate::fixed::{
    clamp, clamped, deviation, divide, from_whole, keep, kept, larger, last_of, lemma_quotient,
    max_i64, mean_and_deviation, min_i64, product_within, product_within_of, products_are_near,
    quotient, quotients_compare, smaller, within_limit, ONE,
};
use crate::learning::{
    feedback_views, lobby_views, sample_views, AdaptiveThresholds, Feedback, FeedbackView,
    LearningEngine, LearningView, LobbyEntry, LobbyView, Sample, SampleView, ThresholdSource,
    MIN_SAMPLES,
};
use crate::metrics::InboundBaseline;
use crate::ranks::{
    median, median_of, percentile, percentile_of, percentiles_divide_the_values, up_to,
};
use crate::text::same;

verus! {

// ---------------------------------------------------------------------------------------------
// Values out of the records

/// A clean lobby, by verdict or by the user's mark.
pub open spec fn good_label(label: Seq<char>) -> bool {
    label == "CLEAN"@ || label == "USER_GOOD"@
}

pub open spec fn marginal_label(label: Seq<char>) -> bool {
    label == "POSSIBLE"@ || label == "USER_MARGINAL"@
}

pub open spec fn bad_label(label: Seq<char>) -> bool {
    label == "USER_BAD"@ || label == "LIKELY"@
}

/// Whether a label is that of a clean lobby.
pub fn is_good_label(label: &str) -> (r: bool)
    ensures
        r == good_label(label@),
{
    same(label, "CLEAN") || same(label, "USER_GOOD")
}

/// Whether a label is that of a lobby on the edge.
pub fn is_marginal_label(label: &str) -> (r: bool)
    ensures
        r == marginal_label(label@),
{
    same(label, "POSSIBLE") || same(label, "USER_MARGINAL")
}

pub(crate) fn is_bad_label(label: &str) -> (r: bool)
    ensures
        r == bad_label(label@),
{
    same(label, "USER_BAD") || same(label, "LIKELY")
}

/// The values of all samples.
pub open spec fn values(s: Seq<SampleView>) -> Seq<i64> {
    s.map_values(|x: SampleView| x.v)
}

/// The values of the samples from the queue, or where `matches` is set from queue and match.
pub open spec fn phase_values(s: Seq<SampleView>, matches: bool) -> Seq<i64>
    decreases s.len(),
{
    if s.len() == 0 {
        Seq::empty()
    } else {
        let before = phase_values(s.drop_last(), matches);
        let p = s.last().phase;
        if p == "matchmaking"@ || (matches && p == "in-match"@) {
            before.push(s.last().v)
        } else {
            before
        }
    }
}

/// The kinds of lobbies that thresholds are learned from.
#[derive(Clone, Copy, PartialEq, Eq, Structural)]
pub enum LobbyKind {
    Good,
    Marginal,
    Bad,
}

pub open spec fn is_kind(kind: LobbyKind, label: Seq<char>) -> bool {
    match kind {
        LobbyKind::Good => good_label(label),
        LobbyKind::Marginal => marginal_label(label),
        LobbyKind::Bad => bad_label(label),
    }
}

/// The connections of the lobbies of one kind, in millionths.
pub open spec fn kind_conns(l: Seq<LobbyView>, kind: LobbyKind) -> Seq<i64>
    decreases l.len(),
{
    if l.len() == 0 {
        Seq::empty()
    } else {
        let before = kind_conns(l.drop_last(), kind);
        if is_kind(kind, l.last().label) {
            before.push(kept(l.last().conns * ONE) as i64)
        } else {
            before
        }
    }
}

/// The connections of the lobbies that the user marked as clean, in millionths.
pub open spec fn clean_mark_conns(f: Seq<FeedbackView>) -> Seq<i64>
    decreases f.len(),
{
    if f.len() == 0 {
        Seq::empty()
    } else {
        let before = clean_mark_conns(f.drop_last());
        let x = f.last();
        if !x.bad_lobby && x.last_lobby is Some {
            before.push(kept(x.last_lobby->0.conns * ONE) as i64)
        } else {
            before
        }
    }
}

/// The deviations of each eight values in a row, for ten values or more.
pub open spec fn window_deviations(v: Seq<i64>) -> Seq<i64> {
    if v.len() < 10 {
        Seq::empty()
    } else {
        Seq::new((v.len() - 8) as nat, |k: int| deviation(v.subrange(k, k + 8)) as i64)
    }
}

pub open spec fn kept_values(s: Seq<SampleView>) -> Seq<i64> {
    s.map_values(|x: SampleView| kept(x.v as int) as i64)
}

fn values_of(s: &Vec<Sample>) -> (r: Vec<i64>)
    ensures
        r@ == values(sample_views(s@)),
{
    let mut out: Vec<i64> = Vec::new();
    let mut i: usize = 0;
    while i < s.len()
        invariant
            i <= s.len(),
            out@ == values(sample_views(s@)).take(i as int),
        decreases s.len() - i,
    {
        out.push(s[i].v);
        assert(out@ =~= values(sample_views(s@)).take(i + 1));
        i += 1;
    }
    assert(out@ =~= values(sample_views(s@)));
    out
}

fn kept_values_of(s: &Vec<Sample>) -> (r: Vec<i64>)
    ensures
        r@ == kept_values(sample_views(s@)),
        within_limit(r@),
{
    let mut out: Vec<i64> = Vec::new();
    let mut i: usize = 0;
    while i < s.len()
        invariant
            i <= s.len(),
            out@ == kept_values(sample_views(s@)).take(i as int),
            within_limit(out@),
        decreases s.len() - i,
    {
        out.push(keep(s[i].v as i128));
        assert(out@ =~= kept_values(sample_views(s@)).take(i + 1));
        i += 1;
    }
    assert(out@ =~= kept_values(sample_views(s@)));
    out
}

fn phase_values_of(s: &Vec<Sample>, matches: bool) -> (r: Vec<i64>)
    ensures
        r@ == phase_values(sample_views(s@), matches),
{
    let mut out: Vec<i64> = Vec::new();
    let mut i: usize = 0;
    while i < s.len()
        invariant
            i <= s.len(),
            out@ == phase_values(sample_views(s@).take(i as int), matches),
        decreases s.len() - i,
    {
        proof {
            let u = sample_views(s@).take(i + 1);
            assert(u.drop_last() =~= sample_views(s@).take(i as int));
            assert(u.last() == s@[i as int]@);
        }
        let p = s[i].phase.as_str();
        if same(p, "matchmaking") || (matches && same(p, "in-match")) {
            out.push(s[i].v);
        }
        i += 1;
    }
    assert(sample_views(s@).take(i as int) =~= sample_views(s@));
    out
}

fn of_kind(kind: LobbyKind, label: &str) -> (r: bool)
    ensures
        r == is_kind(kind, label@),
{
    match kind {
        LobbyKind::Good => is_good_label(label),
        LobbyKind::Marginal => is_marginal_label(label),
        LobbyKind::Bad => is_bad_label(label),
    }
}

fn kind_conns_of(l: &Vec<LobbyEntry>, kind: LobbyKind) -> (r: Vec<i64>)
    ensures
        r@ == kind_conns(lobby_views(l@), kind),
{
    let mut out: Vec<i64> = Vec::new();
    let mut i: usize = 0;
    while i < l.len()
        invariant
            i <= l.len(),
            out@ == kind_conns(lobby_views(l@).take(i as int), kind),
        decreases l.len() - i,
    {
        proof {
            let u = lobby_views(l@).take(i + 1);
            assert(u.drop_last() =~= lobby_views(l@).take(i as int));
            assert(u.last() == l@[i as int]@);
        }
        if of_kind(kind, l[i].label.as_str()) {
            out.push(from_whole(l[i].conns));
        }
        i += 1;
    }
    assert(lobby_views(l@).take(i as int) =~= lobby_views(l@));
    out
}

fn push_clean_marks(f: &Vec<Feedback>, out: &mut Vec<i64>)
    ensures
        final(out)@ == old(out)@ + clean_mark_conns(feedback_views(f@)),
{
    let mut i: usize = 0;
    assert(out@ =~= old(out)@ + clean_mark_conns(feedback_views(f@).take(0)));
    while i < f.len()
        invariant
            i <= f.len(),
            out@ == old(out)@ + clean_mark_conns(feedback_views(f@).take(i as int)),
        decreases f.len() - i,
    {
        proof {
            let u = feedback_views(f@).take(i + 1);
            assert(u.drop_last() =~= feedback_views(f@).take(i as int));
            assert(u.last() == f@[i as int]@);
        }
        if !f[i].bad_lobby {
            if let Some(l) = &f[i].last_lobby {
                out.push(from_whole(l.conns));
            }
        }
        assert(out@ =~= old(out)@ + clean_mark_conns(feedback_views(f@).take(i + 1)));
        i += 1;
    }
    assert(feedback_views(f@).take(i as int) =~= feedback_views(f@));
}

fn window_deviations_of(v: &Vec<i64>) -> (r: Vec<i64>)
    requires
        within_limit(v@),
    ensures
        r@ == window_deviations(v@),
{
    let mut out: Vec<i64> = Vec::new();
    if v.len() < 10 {
        return out;
    }
    let n: usize = v.len() - 8;
    let mut k: usize = 0;
    while k < n
        invariant
            k <= n,
            n == v.len() - 8,
            v.len() >= 10,
            within_limit(v@),
            out@ == window_deviations(v@).take(k as int),
        decreases n - k,
    {
        let mut chunk: Vec<i64> = Vec::new();
        let mut i: usize = k;
        while i < k + 8
            invariant
                k <= i <= k + 8,
                k < n,
                n == v.len() - 8,
                within_limit(v@),
                chunk@ == v@.subrange(k as int, i as int),
            decreases k + 8 - i,
        {
            chunk.push(v[i]);
            assert(chunk@ =~= v@.subrange(k as int, i + 1));
            i += 1;
        }
        assert(within_limit(chunk@));
        let (_, d) = mean_and_deviation(&chunk, 8);
        out.push(d);
        assert(out@ =~= window_deviations(v@).take(k + 1));
        k += 1;
    }
    assert(out@ =~= window_deviations(v@));
    out
}

// ---------------------------------------------------------------------------------------------
// Thresholds

/// The thresholds of a network that nothing is known of.
pub open spec fn default_thresholds() -> AdaptiveThresholds {
    AdaptiveThresholds {
        conn_matchmaking_high: 90_000_000,
        conn_matchmaking_elevated: 55_000_000,
        mm_delta_bad: 45_000_000,
        mm_delta_warn: 25_000_000,
        jitter_bad: 14_000_000,
        wan_jitter_bad: 18_000_000,
        conn_good_ceiling: 0,
        conn_marginal_low: 0,
        conn_marginal_high: 0,
        inbound_mbps_elevated: 25_000_000,
        inbound_mbps_bad: 80_000_000,
        in_out_ratio_bad: 6_000_000,
        source: ThresholdSource::Default,
        samples: 0,
    }
}

impl Default for AdaptiveThresholds {
    fn default() -> (r: AdaptiveThresholds)
        ensures
            r == default_thresholds(),
    {
        AdaptiveThresholds {
            conn_matchmaking_high: 90_000_000,
            conn_matchmaking_elevated: 55_000_000,
            mm_delta_bad: 45_000_000,
            mm_delta_warn: 25_000_000,
            jitter_bad: 14_000_000,
            wan_jitter_bad: 18_000_000,
            conn_good_ceiling: 0,
            conn_marginal_low: 0,
            conn_marginal_high: 0,
            inbound_mbps_elevated: 25_000_000,
            inbound_mbps_bad: 80_000_000,
            in_out_ratio_bad: 6_000_000,
            source: ThresholdSource::Default,
            samples: 0,
        }
    }
}

/// The factors by which thresholds stand off from what was seen: the doubles next to 1.1, 1.15,
/// 1.35, 2 and 3.5, over two to the power of 52.
pub const TIMES_1_10: u64 = 4_953_959_590_107_546;

pub const TIMES_1_15: u64 = 5_179_139_571_476_070;

pub const TIMES_1_35: u64 = 6_079_859_496_950_170;

pub const TIMES_2: u64 = 9_007_199_254_740_992;

pub const TIMES_3_5: u64 = 15_762_598_695_796_736;

/// A value times a factor, in double precision and cut to a range.
pub open spec fn scaled(x: i64, factor: u64, lo: int, hi: int) -> i64 {
    product_within(x as int, factor as nat, lo, hi) as i64
}

fn scale(x: i64, factor: u64, lo: i64, hi: i64) -> (r: i64)
    requires
        factor <= TIMES_3_5,
        0 <= lo <= hi <= 200_000_000,
    ensures
        r == scaled(x, factor, lo as int, hi as int),
{
    product_within_of(x, factor, lo, hi)
}

/// The fan-out that is normal in the queue.
pub open spec fn with_queue(t: AdaptiveThresholds, conns: Seq<i64>) -> AdaptiveThresholds {
    match percentile_of(conns, 75) {
        Some(p75) => AdaptiveThresholds {
            conn_matchmaking_elevated: scaled(p75, TIMES_1_15, 40_000_000, 120_000_000),
            conn_matchmaking_high: scaled(
                percentile_of(conns, 90)->0,
                TIMES_1_10,
                60_000_000,
                180_000_000,
            ),
            ..t
        },
        None => t,
    }
}

/// Confirmed bad lobbies anchor lower thresholds: a cheater pool can look quiet.
pub open spec fn with_bad(t: AdaptiveThresholds, bad: Seq<i64>) -> AdaptiveThresholds {
    match percentile_of(bad, 50) {
        Some(p50) => AdaptiveThresholds {
            conn_matchmaking_elevated: smaller(
                t.conn_matchmaking_elevated as int,
                scaled(p50, TIMES_1_10, 18_000_000, 80_000_000) as int,
            ) as i64,
            conn_matchmaking_high: smaller(
                t.conn_matchmaking_high as int,
                scaled(p50, TIMES_1_35, 28_000_000, 100_000_000) as int,
            ) as i64,
            ..t
        },
        None => t,
    }
}

/// What clean lobbies reach at most, once five are known.
pub open spec fn with_good(t: AdaptiveThresholds, good: Seq<i64>) -> AdaptiveThresholds {
    if good.len() >= 5 {
        AdaptiveThresholds {
            conn_good_ceiling: scaled(
                percentile_of(good, 75)->0,
                TIMES_1_10,
                15_000_000,
                100_000_000,
            ),
            ..t
        }
    } else {
        t
    }
}

/// The zone between clean and elevated.
pub open spec fn with_marginal(t: AdaptiveThresholds, marginal: Seq<i64>) -> AdaptiveThresholds {
    if t.conn_good_ceiling <= 0 {
        t
    } else if marginal.len() > 0 {
        AdaptiveThresholds {
            conn_marginal_low: larger(
                percentile_of(marginal, 25)->0 as int,
                quotient(t.conn_good_ceiling * 9, 10),
            ) as i64,
            conn_marginal_high: smaller(
                percentile_of(marginal, 75)->0 as int,
                t.conn_matchmaking_elevated as int,
            ) as i64,
            ..t
        }
    } else {
        AdaptiveThresholds {
            conn_marginal_low: t.conn_good_ceiling,
            conn_marginal_high: t.conn_matchmaking_elevated,
            ..t
        }
    }
}

/// Latencies and jitters.
pub open spec fn with_latencies(
    t: AdaptiveThresholds,
    mm_deltas: Seq<i64>,
    wan_jitters: Seq<i64>,
    server_jitters: Seq<i64>,
) -> AdaptiveThresholds {
    AdaptiveThresholds {
        mm_delta_warn: match percentile_of(mm_deltas, 75) {
            Some(p) => clamped(p as int, 15_000_000, 50_000_000) as i64,
            None => t.mm_delta_warn,
        },
        mm_delta_bad: match percentile_of(mm_deltas, 90) {
            Some(p) => clamped(p as int, 30_000_000, 80_000_000) as i64,
            None => t.mm_delta_bad,
        },
        wan_jitter_bad: match percentile_of(wan_jitters, 90) {
            Some(p) => clamped(p as int, 12_000_000, 35_000_000) as i64,
            None => t.wan_jitter_bad,
        },
        jitter_bad: if server_jitters.len() >= MIN_SAMPLES {
            clamped(percentile_of(server_jitters, 90)->0 as int, 10_000_000, 30_000_000) as i64
        } else {
            t.jitter_bad
        },
        ..t
    }
}

/// Inbound rates and ratios.
pub open spec fn with_rates(
    t: AdaptiveThresholds,
    inbound: Seq<i64>,
    ratios: Seq<i64>,
) -> AdaptiveThresholds {
    let learned = inbound.len() >= MIN_SAMPLES;
    AdaptiveThresholds {
        inbound_mbps_elevated: if learned {
            scaled(percentile_of(inbound, 75)->0, TIMES_2, 8_000_000, 60_000_000)
        } else {
            t.inbound_mbps_elevated
        },
        inbound_mbps_bad: if learned {
            scaled(percentile_of(inbound, 90)->0, TIMES_3_5, 25_000_000, 200_000_000)
        } else {
            t.inbound_mbps_bad
        },
        in_out_ratio_bad: if ratios.len() >= MIN_SAMPLES {
            clamped(percentile_of(ratios, 90)->0 as int, 3_000_000, 15_000_000) as i64
        } else {
            t.in_out_ratio_bad
        },
        ..t
    }
}

/// The thresholds that the records teach, once there are eight samples.
pub open spec fn learned_thresholds(v: LearningView) -> AdaptiveThresholds {
    let n = v.history.conn_count.len();
    if n < MIN_SAMPLES {
        AdaptiveThresholds { samples: n as usize, ..default_thresholds() }
    } else {
        let t = AdaptiveThresholds {
            source: ThresholdSource::Learned,
            samples: n as usize,
            ..default_thresholds()
        };
        let t = with_queue(t, phase_values(v.history.conn_count, false));
        let t = with_bad(t, kind_conns(v.lobbies, LobbyKind::Bad));
        let t = with_good(
            t,
            kind_conns(v.lobbies, LobbyKind::Good) + clean_mark_conns(v.feedback),
        );
        let t = with_marginal(t, kind_conns(v.lobbies, LobbyKind::Marginal));
        let t = with_latencies(
            t,
            values(v.history.mm_delta),
            window_deviations(kept_values(v.history.wan_latency)),
            values(v.history.server_jitter),
        );
        with_rates(t, phase_values(v.history.inbound_mbps, true), values(v.history.in_out_ratio))
    }
}

fn learn_queue(t: &mut AdaptiveThresholds, conns: &Vec<i64>)
    ensures
        *final(t) == with_queue(*old(t), conns@),
{
    if let Some(p75) = percentile(conns, 75) {
        if let Some(p90) = percentile(conns, 90) {
            t.conn_matchmaking_elevated = scale(p75, TIMES_1_15, 40_000_000, 120_000_000);
            t.conn_matchmaking_high = scale(p90, TIMES_1_10, 60_000_000, 180_000_000);
        }
    }
}

fn learn_bad(t: &mut AdaptiveThresholds, bad: &Vec<i64>)
    ensures
        *final(t) == with_bad(*old(t), bad@),
{
    if let Some(p50) = percentile(bad, 50) {
        t.conn_matchmaking_elevated = min_i64(
            t.conn_matchmaking_elevated,
            scale(p50, TIMES_1_10, 18_000_000, 80_000_000),
        );
        t.conn_matchmaking_high = min_i64(
            t.conn_matchmaking_high,
            scale(p50, TIMES_1_35, 28_000_000, 100_000_000),
        );
    }
}

fn learn_good(t: &mut AdaptiveThresholds, good: &Vec<i64>)
    ensures
        *final(t) == with_good(*old(t), good@),
{
    if good.len() >= 5 {
        if let Some(p75) = percentile(good, 75) {
            t.conn_good_ceiling = scale(p75, TIMES_1_10, 15_000_000, 100_000_000);
        }
    }
}

fn learn_marginal(t: &mut AdaptiveThresholds, marginal: &Vec<i64>)
    ensures
        *final(t) == with_marginal(*old(t), marginal@),
{
    if t.conn_good_ceiling > 0 {
        if marginal.len() > 0 {
            proof {
                lemma_quotient(t.conn_good_ceiling * 9, 10, 0, t.conn_good_ceiling as int);
            }
            let ceiling: i64 = divide(t.conn_good_ceiling as i128 * 9, 10) as i64;
            if let Some(p25) = percentile(marginal, 25) {
                if let Some(p75) = percentile(marginal, 75) {
                    t.conn_marginal_low = max_i64(p25, ceiling);
                    t.conn_marginal_high = min_i64(p75, t.conn_matchmaking_elevated);
                }
            }
        } else {
            t.conn_marginal_low = t.conn_good_ceiling;
            t.conn_marginal_high = t.conn_matchmaking_elevated;
        }
    }
}

fn learn_latencies(
    t: &mut AdaptiveThresholds,
    mm_deltas: &Vec<i64>,
    wan_jitters: &Vec<i64>,
    server_jitters: &Vec<i64>,
)
    ensures
        *final(t) == with_latencies(*old(t), mm_deltas@, wan_jitters@, server_jitters@),
{
    if let Some(p) = percentile(mm_deltas, 75) {
        t.mm_delta_warn = clamp(p, 15_000_000, 50_000_000);
    }
    if let Some(p) = percentile(mm_deltas, 90) {
        t.mm_delta_bad = clamp(p, 30_000_000, 80_000_000);
    }
    if let Some(p) = percentile(wan_jitters, 90) {
        t.wan_jitter_bad = clamp(p, 12_000_000, 35_000_000);
    }
    if server_jitters.len() >= MIN_SAMPLES {
        if let Some(p) = percentile(server_jitters, 90) {
            t.jitter_bad = clamp(p, 10_000_000, 30_000_000);
        }
    }
}

fn learn_rates(t: &mut AdaptiveThresholds, inbound: &Vec<i64>, ratios: &Vec<i64>)
    ensures
        *final(t) == with_rates(*old(t), inbound@, ratios@),
{
    if inbound.len() >= MIN_SAMPLES {
        if let Some(p) = percentile(inbound, 75) {
            t.inbound_mbps_elevated = scale(p, TIMES_2, 8_000_000, 60_000_000);
        }
        if let Some(p) = percentile(inbound, 90) {
            t.inbound_mbps_bad = scale(p, TIMES_3_5, 25_000_000, 200_000_000);
        }
    }
    if ratios.len() >= MIN_SAMPLES {
        if let Some(p) = percentile(ratios, 90) {
            t.in_out_ratio_bad = clamp(p, 3_000_000, 15_000_000);
        }
    }
}

/// The values of the last forty samples, newest first.
pub open spec fn newest_first(s: Seq<SampleView>) -> Seq<i64> {
    values(last_of(s, 40)).reverse()
}

/// The medians of the last forty samples, once there are eight.
pub open spec fn learned_baseline(v: LearningView) -> Option<InboundBaseline> {
    if v.history.inbound_mbps.len() >= 8 {
        Some(
            InboundBaseline {
                inbound_mbps: median_of(newest_first(v.history.inbound_mbps)) as i64,
                outbound_mbps: median_of(newest_first(v.history.outbound_mbps)) as i64,
                total_kpps: median_of(newest_first(v.history.packet_kpps)) as i64,
                connections: median_of(newest_first(v.history.conn_count)) as i64,
                wan_latency_ms: median_of(newest_first(v.history.wan_latency)) as i64,
            },
        )
    } else {
        None
    }
}

fn newest_first_of(s: &Vec<Sample>) -> (r: Vec<i64>)
    ensures
        r@ == newest_first(sample_views(s@)),
{
    let mut out: Vec<i64> = Vec::new();
    let n: usize = if s.len() < 40 {
        s.len()
    } else {
        40
    };
    let ghost want = newest_first(sample_views(s@));
    assert(want.len() == n);
    let mut i: usize = 0;
    while i < n
        invariant
            i <= n <= s.len(),
            n == if s.len() < 40 {
                s.len()
            } else {
                40
            },
            want == newest_first(sample_views(s@)),
            want.len() == n,
            out@ == want.take(i as int),
        decreases n - i,
    {
        out.push(s[s.len() - 1 - i].v);
        assert(want[i as int] == s@[s.len() - 1 - i].v);
        assert(out@ =~= want.take(i + 1));
        i += 1;
    }
    assert(want.take(i as int) =~= want);
    out
}

impl LearningEngine {
    /// The thresholds that the records teach.
    pub fn thresholds(&self) -> (r: AdaptiveThresholds)
        ensures
            r == learned_thresholds(self@),
    {
        let n: usize = self.history.conn_count.len();
        assert(sample_views(self.history.conn_count@).len() == n);
        let mut t = AdaptiveThresholds::default();
        t.samples = n;
        if n < MIN_SAMPLES {
            return t;
        }
        t.source = ThresholdSource::Learned;
        learn_queue(&mut t, &phase_values_of(&self.history.conn_count, false));
        learn_bad(&mut t, &kind_conns_of(&self.lobbies, LobbyKind::Bad));
        let mut good = kind_conns_of(&self.lobbies, LobbyKind::Good);
        push_clean_marks(&self.feedback, &mut good);
        learn_good(&mut t, &good);
        learn_marginal(&mut t, &kind_conns_of(&self.lobbies, LobbyKind::Marginal));
        let wan = kept_values_of(&self.history.wan_latency);
        learn_latencies(
            &mut t,
            &values_of(&self.history.mm_delta),
            &window_deviations_of(&wan),
            &values_of(&self.history.server_jitter),
        );
        learn_rates(
            &mut t,
            &phase_values_of(&self.history.inbound_mbps, true),
            &values_of(&self.history.in_out_ratio),
        );
        t
    }

    /// The medians of the last forty samples, once there are eight.
    pub fn inbound_baseline(&self) -> (r: Option<InboundBaseline>)
        ensures
            r == learned_baseline(self@),
    {
        assert(sample_views(self.history.inbound_mbps@).len() == self.history.inbound_mbps.len());
        if self.history.inbound_mbps.len() < 8 {
            return None;
        }
        Some(
            InboundBaseline {
                inbound_mbps: median(&newest_first_of(&self.history.inbound_mbps)),
                outbound_mbps: median(&newest_first_of(&self.history.outbound_mbps)),
                total_kpps: median(&newest_first_of(&self.history.packet_kpps)),
                connections: median(&newest_first_of(&self.history.conn_count)),
                wan_latency_ms: median(&newest_first_of(&self.history.wan_latency)),
            },
        )
    }
}

// ---------------------------------------------------------------------------------------------
// Laws

/// Whatever the records hold, what is learned from them stays within fixed bounds: no history
/// makes the library blind to a lobby, and none makes it call every lobby bad.
pub proof fn learned_thresholds_are_bounded(v: LearningView)
    ensures
        ({
            let t = learned_thresholds(v);
            &&& 18_000_000 <= t.conn_matchmaking_elevated <= 120_000_000
            &&& 28_000_000 <= t.conn_matchmaking_high <= 180_000_000
            &&& t.conn_good_ceiling == 0 || 15_000_000 <= t.conn_good_ceiling <= 100_000_000
            &&& 15_000_000 <= t.mm_delta_warn <= 50_000_000
            &&& 30_000_000 <= t.mm_delta_bad <= 80_000_000
            &&& 12_000_000 <= t.wan_jitter_bad <= 35_000_000
            &&& 10_000_000 <= t.jitter_bad <= 30_000_000
            &&& 8_000_000 <= t.inbound_mbps_elevated <= 60_000_000
            &&& 25_000_000 <= t.inbound_mbps_bad <= 200_000_000
            &&& 3_000_000 <= t.in_out_ratio_bad <= 15_000_000
        }),
{
    reveal(product_within);
}

/// A learned limit on times and ratios is a percentile of what was seen, cut to its range: where
/// it lies within the range, more than that share of the samples are at or below it, and no more
/// than that share below it.
pub proof fn limits_are_percentiles(v: LearningView)
    requires
        v.history.conn_count.len() >= 8,
    ensures
        ({
            let t = learned_thresholds(v);
            let far = values(v.history.mm_delta);
            let swing = values(v.history.server_jitter);
            let ratios = values(v.history.in_out_ratio);
            let line = window_deviations(kept_values(v.history.wan_latency));
            &&& t.source == ThresholdSource::Learned
            &&& t.samples == v.history.conn_count.len() as usize
            &&& far.len() > 0 && 15_000_000 < t.mm_delta_warn < 50_000_000 ==> splits(
                far,
                t.mm_delta_warn as int,
                75,
            )
            &&& far.len() > 0 && 30_000_000 < t.mm_delta_bad < 80_000_000 ==> splits(
                far,
                t.mm_delta_bad as int,
                90,
            )
            &&& swing.len() >= 8 && 10_000_000 < t.jitter_bad < 30_000_000 ==> splits(
                swing,
                t.jitter_bad as int,
                90,
            )
            &&& ratios.len() >= 8 && 3_000_000 < t.in_out_ratio_bad < 15_000_000 ==> splits(
                ratios,
                t.in_out_ratio_bad as int,
                90,
            )
            &&& line.len() > 0 && 12_000_000 < t.wan_jitter_bad < 35_000_000 ==> splits(
                line,
                t.wan_jitter_bad as int,
                90,
            )
            &&& far.len() == 0 ==> t.mm_delta_warn == 25_000_000 && t.mm_delta_bad == 45_000_000
            &&& swing.len() < 8 ==> t.jitter_bad == 14_000_000
            &&& ratios.len() < 8 ==> t.in_out_ratio_bad == 6_000_000
            &&& line.len() == 0 ==> t.wan_jitter_bad == 18_000_000
        }),
{
    percentiles_divide_the_values(values(v.history.mm_delta), 75);
    percentiles_divide_the_values(values(v.history.mm_delta), 90);
    percentiles_divide_the_values(values(v.history.server_jitter), 90);
    percentiles_divide_the_values(values(v.history.in_out_ratio), 90);
    percentiles_divide_the_values(
        window_deviations(kept_values(v.history.wan_latency)),
        90,
    );
}

/// More than a share of the values, in percent, are at or below a bound, and no more than that
/// share below it.
pub open spec fn splits(v: Seq<i64>, bound: int, percent: int) -> bool {
    100 * up_to(v, bound) > percent * v.len() && 100 * up_to(v, bound - 1) <= percent * v.len()
}

/// Before there are eight samples nothing is learned, and the limits are those of an unknown
/// network.
pub proof fn nothing_is_learned_from_few_samples(v: LearningView)
    requires
        v.history.conn_count.len() < 8,
    ensures
        ({
            let t = learned_thresholds(v);
            &&& t.source == ThresholdSource::Default
            &&& t.conn_matchmaking_high == 90_000_000 && t.conn_matchmaking_elevated == 55_000_000
            &&& t.mm_delta_bad == 45_000_000 && t.mm_delta_warn == 25_000_000
            &&& t.jitter_bad == 14_000_000 && t.wan_jitter_bad == 18_000_000
            &&& t.conn_good_ceiling == 0 && t.conn_marginal_low == 0 && t.conn_marginal_high == 0
            &&& t.inbound_mbps_elevated == 25_000_000 && t.inbound_mbps_bad == 80_000_000
            &&& t.in_out_ratio_bad == 6_000_000
        }),
{
}

/// A limit on rates or connections is a percentile of what was seen times a factor, in hundredths,
/// to five millionths, or an end of its range: `y` is then the limit for the percentile `x`.
pub open spec fn about(y: int, x: int, hundredths: int, lo: int, hi: int) -> bool {
    &&& lo <= y <= hi
    &&& y < hi ==> x * hundredths <= (y + 5) * 100
    &&& y > lo ==> x * hundredths >= (y - 5) * 100
}

/// What is learned of rates: twice the 75th percentile of what came in is elevated, three and a
/// half times the 90th is bad.
pub proof fn rates_are_learned(v: LearningView)
    requires
        v.history.conn_count.len() >= 8,
    ensures
        ({
            let t = learned_thresholds(v);
            let inbound = phase_values(v.history.inbound_mbps, true);
            &&& inbound.len() < 8 ==> t.inbound_mbps_elevated == 25_000_000 && t.inbound_mbps_bad
                == 80_000_000
            &&& inbound.len() >= 8 ==> about(
                t.inbound_mbps_elevated as int,
                larger(percentile_of(inbound, 75)->0 as int, 0),
                200,
                8_000_000,
                60_000_000,
            ) && about(
                t.inbound_mbps_bad as int,
                larger(percentile_of(inbound, 90)->0 as int, 0),
                350,
                25_000_000,
                200_000_000,
            )
        }),
{
    let inbound = phase_values(v.history.inbound_mbps, true);
    lemma_about(percentile_of(inbound, 75)->0, TIMES_2, 200, 8_000_000, 60_000_000);
    lemma_about(percentile_of(inbound, 90)->0, TIMES_3_5, 350, 25_000_000, 200_000_000);
}

/// What is learned of connections: 1.15 times the 75th percentile of those in the queue is
/// elevated, 1.1 times the 90th is high; bad lobbies can only lower both, to 1.1 and 1.35 times
/// their middle; and five clean lobbies set a ceiling of 1.1 times their 75th percentile.
pub proof fn connections_are_learned(v: LearningView)
    requires
        v.history.conn_count.len() >= 8,
    ensures
        ({
            let t = learned_thresholds(v);
            let queue = phase_values(v.history.conn_count, false);
            let bad = kind_conns(v.lobbies, LobbyKind::Bad);
            let good = kind_conns(v.lobbies, LobbyKind::Good) + clean_mark_conns(v.feedback);
            let middle = percentile_of(bad, 50)->0 as int;
            &&& queue.len() == 0 && bad.len() == 0 ==> t.conn_matchmaking_elevated == 55_000_000
                && t.conn_matchmaking_high == 90_000_000
            &&& queue.len() > 0 && bad.len() == 0 ==> about(
                t.conn_matchmaking_elevated as int,
                larger(percentile_of(queue, 75)->0 as int, 0),
                115,
                40_000_000,
                120_000_000,
            ) && about(
                t.conn_matchmaking_high as int,
                larger(percentile_of(queue, 90)->0 as int, 0),
                110,
                60_000_000,
                180_000_000,
            )
            &&& bad.len() > 0 && t.conn_matchmaking_elevated > 18_000_000 && middle > 0
                ==> t.conn_matchmaking_elevated * 100 <= middle * 110 + 500
            &&& bad.len() > 0 && t.conn_matchmaking_high > 28_000_000 && middle > 0
                ==> t.conn_matchmaking_high * 100 <= middle * 135 + 500
            &&& bad.len() > 0 ==> t.conn_matchmaking_elevated <= 80_000_000
                && t.conn_matchmaking_high <= 100_000_000
            &&& good.len() < 5 ==> t.conn_good_ceiling == 0 && t.conn_marginal_low == 0
                && t.conn_marginal_high == 0
            &&& good.len() >= 5 ==> about(
                t.conn_good_ceiling as int,
                larger(percentile_of(good, 75)->0 as int, 0),
                110,
                15_000_000,
                100_000_000,
            )
        }),
{
    let queue = phase_values(v.history.conn_count, false);
    let bad = kind_conns(v.lobbies, LobbyKind::Bad);
    let good = kind_conns(v.lobbies, LobbyKind::Good) + clean_mark_conns(v.feedback);
    lemma_about(percentile_of(queue, 75)->0, TIMES_1_15, 115, 40_000_000, 120_000_000);
    lemma_about(percentile_of(queue, 90)->0, TIMES_1_10, 110, 60_000_000, 180_000_000);
    lemma_about(percentile_of(bad, 50)->0, TIMES_1_10, 110, 18_000_000, 80_000_000);
    lemma_about(percentile_of(bad, 50)->0, TIMES_1_35, 135, 28_000_000, 100_000_000);
    lemma_about(percentile_of(good, 75)->0, TIMES_1_10, 110, 15_000_000, 100_000_000);
}

proof fn lemma_about(x: i64, factor: u64, hundredths: int, lo: int, hi: int)
    requires
        0 < lo < hi <= 200_000_000,
        0x10_0000_0000_0000 <= factor <= 0x40_0000_0000_0000,
        100 <= hundredths <= 350,
        -100 <= factor * 100 - hundredths * 0x10_0000_0000_0000 <= 100,
    ensures
        about(scaled(x, factor, lo, hi) as int, larger(x as int, 0), hundredths, lo, hi),
{
    if x <= 0 {
        reveal(product_within);
        assert(0 * hundredths == 0) by (nonlinear_arith);
    } else {
        products_are_near(x as int, factor as nat, lo, hi);
        let y = scaled(x, factor, lo, hi) as int;
        let xf = x * factor;
        let e = factor * 100 - hundredths * 0x10_0000_0000_0000;
        let xh = x * hundredths;
        assert(xf * 100 == xh * 0x10_0000_0000_0000 + x * e) by (nonlinear_arith)
            requires
                xf == x * factor,
                xh == x * hundredths,
                e == factor * 100 - hundredths * 0x10_0000_0000_0000,
        ;
        assert(-(x * 100) <= x * e <= x * 100) by (nonlinear_arith)
            requires
                x > 0,
                -100 <= e <= 100,
        ;
        assert(xh >= x * 100) by (nonlinear_arith)
            requires
                xh == x * hundredths,
                hundredths >= 100,
                x > 0,
        ;
        if x >= hi {
            reveal(product_within);
            assert(y == hi);
        }
    }
}

/// Which lobbies teach what: clean ones and those marked good, possible and marginal ones, likely
/// ones and those marked bad.
pub proof fn lobbies_teach_by_their_label(label: Seq<char>)
    ensures
        is_kind(LobbyKind::Good, label) <==> label == "CLEAN"@ || label == "USER_GOOD"@,
        is_kind(LobbyKind::Marginal, label) <==> label == "POSSIBLE"@ || label
            == "USER_MARGINAL"@,
        is_kind(LobbyKind::Bad, label) <==> label == "LIKELY"@ || label == "USER_BAD"@,
{
}

/// A new lobby adds its connections to those of its kind, and to no other; a clean mark adds those
/// of its lobby.
pub proof fn lobbies_add_their_connections(
    l: Seq<LobbyView>,
    x: LobbyView,
    kind: LobbyKind,
    f: Seq<FeedbackView>,
    m: FeedbackView,
)
    ensures
        is_kind(kind, x.label) ==> kind_conns(l.push(x), kind) == kind_conns(l, kind).push(
            kept(x.conns * 1_000_000) as i64,
        ),
        !is_kind(kind, x.label) ==> kind_conns(l.push(x), kind) == kind_conns(l, kind),
        m.bad_lobby || m.last_lobby is None ==> clean_mark_conns(f.push(m)) == clean_mark_conns(f),
        !m.bad_lobby && m.last_lobby is Some ==> clean_mark_conns(f.push(m)) == clean_mark_conns(
            f,
        ).push(kept(m.last_lobby->0.conns * 1_000_000) as i64),
{
    assert(l.push(x).drop_last() =~= l);
    assert(f.push(m).drop_last() =~= f);
}

/// The samples of the queue teach, with those of a match where asked for.
pub proof fn samples_teach_by_their_phase(s: Seq<SampleView>, x: SampleView, matches: bool)
    ensures
        ({
            let taken = x.phase == "matchmaking"@ || (matches && x.phase == "in-match"@);
            &&& taken ==> phase_values(s.push(x), matches) == phase_values(s, matches).push(x.v)
            &&& !taken ==> phase_values(s.push(x), matches) == phase_values(s, matches)
        }),
{
    assert(s.push(x).drop_last() =~= s);
}

/// Once eight rates are known the baseline is the middle of the last forty of each series.
pub proof fn baselines_are_medians(v: LearningView)
    requires
        v.history.inbound_mbps.len() >= 1,
    ensures
        learned_baseline(v) is Some <==> v.history.inbound_mbps.len() >= 8,
        learned_baseline(v) is Some ==> {
            let b = learned_baseline(v)->0;
            let seen = newest_first(v.history.inbound_mbps);
            &&& seen.len() <= 40
            &&& seen[0] == v.history.inbound_mbps.last().v
            &&& b.inbound_mbps == median_of(seen) as i64
            &&& b.outbound_mbps == median_of(newest_first(v.history.outbound_mbps)) as i64
            &&& b.total_kpps == median_of(newest_first(v.history.packet_kpps)) as i64
            &&& b.connections == median_of(newest_first(v.history.conn_count)) as i64
            &&& b.wan_latency_ms == median_of(newest_first(v.history.wan_latency)) as i64
        },
{
}

/// The zone between clean and high: it begins at the 25th percentile of the marginal lobbies, or at
/// nine tenths of the clean ceiling where that is more, and ends at their 75th percentile, or at
/// what is elevated where that is less. Without such lobbies it lies between ceiling and elevated.
pub proof fn the_marginal_zone_lies_between(
    t: AdaptiveThresholds,
    marginal: Seq<i64>,
    even: int,
)
    requires
        even % 2 == 0,
        0 <= t.conn_good_ceiling <= 100_000_000,
    ensures
        ({
            let u = with_marginal(t, marginal);
            let (lo, hi) = (u.conn_marginal_low, u.conn_marginal_high);
            &&& t.conn_good_ceiling == 0 ==> u == t
            &&& t.conn_good_ceiling > 0 && marginal.len() == 0 ==> lo == t.conn_good_ceiling && hi
                == t.conn_matchmaking_elevated
            &&& t.conn_good_ceiling > 0 && marginal.len() > 0 ==> {
                &&& lo >= percentile_of(marginal, 25)->0
                &&& lo < even ==> 9 * t.conn_good_ceiling < 10 * even
                &&& lo > even ==> percentile_of(marginal, 25)->0 > even || 9 * t.conn_good_ceiling
                    > 10 * even
                &&& hi <= percentile_of(marginal, 75)->0
                &&& hi <= t.conn_matchmaking_elevated
                &&& hi == percentile_of(marginal, 75)->0 || hi == t.conn_matchmaking_elevated
            }
            &&& u.conn_good_ceiling == t.conn_good_ceiling
            &&& u.conn_matchmaking_elevated == t.conn_matchmaking_elevated
        }),
{
    quotients_compare(t.conn_good_ceiling * 9, 10, even);
    lemma_quotient(t.conn_good_ceiling * 9, 10, 0, t.conn_good_ceiling as int);
}

/// The jitter of a line is taken over every eight latencies in a row, once there are ten.
pub proof fn jitters_are_taken_in_a_row(v: Seq<i64>, k: int)
    requires
        0 <= k <= v.len() - 8,
    ensures
        v.len() < 10 ==> window_deviations(v).len() == 0,
        v.len() >= 10 ==> window_deviations(v).len() == v.len() - 8,
        v.len() >= 10 && k < v.len() - 8 ==> window_deviations(v)[k] == deviation(
            v.subrange(k, k + 8),
        ) as i64,
{
}

} // verus!
