//! How the records move the score of a lobby.
use vstd::prelude::*;

use crate::adaptive::{bad_label, good_label, is_bad_label, is_good_label, learned_thresholds};
use crate::fixed::{
    as_double, clamped, double_of, double_sum, double_sum_of, double_units, double_units_of, fmt0,
    in_millionths, larger, lemma_minus_near, lemma_near_millionths, lemma_sum_near,
    lemma_times_near, lemma_units_near, lies_near, magnitude, millionths_come_back, millionths_of,
    smaller, whole_text, LIMIT, ONE, UNITS,
};
use crate::learning::{
    alike, distance, feedback_views, is_alike, lobby_views, AdaptiveThresholds, Feedback,
    FeedbackView, LearningEngine, LearningView, LobbyEntry, LobbyView, ThresholdSource, MIN_SAMPLES,
};
use crate::signals::{weigh, FindingsView};
use crate::snapshot::lemma_phase_words;
use crate::text::{cat3, dec, dec_int, decimal, decimal_int, same, views};

verus! {

/// The bits of 0.82 in single precision: above it a fold is like that of a clean lobby.
pub const GOOD_SIMILARITY: u32 = 0x3f51_eb85;

/// The bits of 0.85 in single precision: above it a fold is like that of a bad lobby.
pub const BAD_SIMILARITY: u32 = 0x3f59_999a;

/// A score that is being adjusted, and why. The score is a double, in units.
pub struct Weighing {
    pub score: i128,
    pub notes: Vec<String>,
}

#[verifier::ext_equal]
pub struct WeighingView {
    pub score: int,
    pub notes: Seq<Seq<char>>,
}

impl View for Weighing {
    type V = WeighingView;

    open spec fn view(&self) -> WeighingView {
        WeighingView { score: self.score as int, notes: views(self.notes@) }
    }
}

impl WeighingView {
    /// With `d` units added in double precision.
    pub open spec fn moved(self, d: int) -> WeighingView {
        WeighingView { score: double_sum(self.score, d), notes: self.notes }
    }

    /// With one more note.
    pub open spec fn noted(self, note: Seq<char>) -> WeighingView {
        WeighingView { score: self.score, notes: self.notes.push(note) }
    }

    /// With a number of millionths added in double precision, and a note that says why.
    pub open spec fn argued(self, weight: int, note: Seq<char>) -> WeighingView {
        self.moved(double_units(weight)).noted(note)
    }

    /// The score of any base fits, with room for some steps.
    pub open spec fn fits(self, steps: int) -> bool {
        magnitude(self.score) <= (0x1000_0000_0000 + steps) * UNITS
    }
}

impl Weighing {
    fn shift(&mut self, d: i128)
        requires
            old(self)@.fits(16),
            -UNITS <= d <= UNITS,
        ensures
            final(self)@ == old(self)@.moved(d as int),
            magnitude(final(self)@.score) <= magnitude(old(self)@.score) + 2 * UNITS,
    {
        self.score = double_sum_of(self.score, d);
    }

    fn note(&mut self, note: String)
        ensures
            final(self)@ == old(self)@.noted(note@),
    {
        self.notes.push(note);
        assert(self@ =~= old(self)@.noted(note@));
    }

    fn argue(&mut self, weight: i64, note: String)
        requires
            old(self)@.fits(16),
            -1_000_000 <= weight <= 1_000_000,
        ensures
            final(self)@ == old(self)@.argued(weight as int, note@),
            magnitude(final(self)@.score) <= magnitude(old(self)@.score) + 2 * UNITS,
    {
        self.shift(double_units_of(weight));
        self.note(note);
    }
}

/// Fan-out against what was learned for the queue.
pub open spec fn fanout_adjusted(
    f: WeighingView,
    t: AdaptiveThresholds,
    base: int,
    conns: int,
    phase: Seq<char>,
) -> WeighingView {
    let c = conns * ONE;
    if t.source != ThresholdSource::Learned || phase != "matchmaking"@ {
        f
    } else if c > t.conn_matchmaking_high {
        f.argued(
            120_000,
            "Conn fan-out above your learned baseline ("@ + decimal_int(conns) + ">"@ + whole_text(
                t.conn_matchmaking_high as int,
            ) + ")"@,
        )
    } else if t.conn_good_ceiling > 0 && c <= t.conn_good_ceiling {
        f.argued(
            -120_000,
            "Conn fan-out within your learned clean profile (≤"@ + whole_text(
                t.conn_good_ceiling as int,
            ) + ")"@,
        )
    } else if t.conn_marginal_low > 0 && t.conn_marginal_low <= c <= t.conn_marginal_high {
        f.argued(
            60_000,
            "Marginal fan-out zone for your network ("@ + whole_text(t.conn_marginal_low as int)
                + "–"@ + whole_text(t.conn_marginal_high as int) + " conns)"@,
        )
    } else if c * 10 < t.conn_matchmaking_elevated * 6 && base > 150_000 {
        f.argued(-100_000, "Conn count below your normal matchmaking baseline"@)
    } else {
        f
    }
}

fn adjust_fanout(f: &mut Weighing, t: &AdaptiveThresholds, base: i64, conns: i64, phase: &str)
    requires
        old(f)@.fits(0),
    ensures
        final(f)@ == fanout_adjusted(old(f)@, *t, base as int, conns as int, phase@),
        final(f)@.fits(2),
{
    let c: i128 = conns as i128 * 1_000_000;
    if t.source != ThresholdSource::Learned || !same(phase, "matchmaking") {
        return ;
    }
    if c > t.conn_matchmaking_high as i128 {
        let mut s = "Conn fan-out above your learned baseline (".to_owned();
        s.append(dec_int(conns).as_str());
        s.append(">");
        s.append(fmt0(t.conn_matchmaking_high).as_str());
        s.append(")");
        f.argue(120_000, s);
    } else if t.conn_good_ceiling > 0 && c <= t.conn_good_ceiling as i128 {
        let n = fmt0(t.conn_good_ceiling);
        f.argue(
            -120_000,
            cat3("Conn fan-out within your learned clean profile (≤", n.as_str(), ")"),
        );
    } else if t.conn_marginal_low > 0 && c >= t.conn_marginal_low as i128 && c
        <= t.conn_marginal_high as i128 {
        let mut s = "Marginal fan-out zone for your network (".to_owned();
        s.append(fmt0(t.conn_marginal_low).as_str());
        s.append("–");
        s.append(fmt0(t.conn_marginal_high).as_str());
        s.append(" conns)");
        f.argue(60_000, s);
    } else if c * 10 < t.conn_matchmaking_elevated as i128 * 6 && base > 150_000 {
        f.argue(-100_000, "Conn count below your normal matchmaking baseline".to_owned());
    }
}

/// The distance of the queue's server against what was learned.
pub open spec fn delta_adjusted(
    f: WeighingView,
    t: AdaptiveThresholds,
    mm_delta: Option<i64>,
) -> WeighingView {
    match mm_delta {
        Some(d) => if t.source != ThresholdSource::Learned {
            f
        } else if d >= t.mm_delta_bad {
            f.argued(
                100_000,
                "Matchmaking path worse than your learned bad threshold (+"@ + whole_text(d as int)
                    + " ms)"@,
            )
        } else if d * 10 < t.mm_delta_warn * 8 && f.score > double_units(200_000) {
            f.moved(double_units(-80_000))
        } else {
            f
        },
        None => f,
    }
}

fn adjust_delta(f: &mut Weighing, t: &AdaptiveThresholds, mm_delta: Option<i64>)
    requires
        old(f)@.fits(2),
    ensures
        final(f)@ == delta_adjusted(old(f)@, *t, mm_delta),
        final(f)@.fits(4),
{
    if let Some(d) = mm_delta {
        if t.source != ThresholdSource::Learned {
            return ;
        }
        if d >= t.mm_delta_bad {
            let n = fmt0(d);
            f.argue(
                100_000,
                cat3(
                    "Matchmaking path worse than your learned bad threshold (+",
                    n.as_str(),
                    " ms)",
                ),
            );
        } else if (d as i128 * 10) < t.mm_delta_warn as i128 * 8 && f.score > double_units_of(200_000) {
            f.shift(double_units_of(-80_000));
        }
    }
}

/// The connections of the newest confirmed bad lobby of the last day that is alike: looked for
/// from position `at` backwards among at most `left` marks.
pub open spec fn confirmed_match(
    f: Seq<FeedbackView>,
    at: int,
    left: nat,
    now: i64,
    conns: i64,
    phase: Seq<char>,
) -> Option<i64>
    decreases left,
{
    if left == 0 || at < 0 || at >= f.len() {
        None
    } else {
        let x = f[at];
        if x.bad_lobby && now - x.ts > 86_400_000_000 {
            None
        } else if x.bad_lobby && x.last_lobby is Some && (x.last_lobby->0.phase == phase || phase
            == "in-match"@) && alike(x.last_lobby->0.conns as int, conns as int) {
            Some(x.last_lobby->0.conns)
        } else {
            confirmed_match(f, at - 1, (left - 1) as nat, now, conns, phase)
        }
    }
}

pub open spec fn confirmed_adjusted(f: WeighingView, found: Option<i64>) -> WeighingView {
    match found {
        Some(c) => WeighingView {
            score: larger(f.score, double_units(300_000)),
            notes: f.notes.push(
                "Matches your confirmed bad lobby (~"@ + decimal_int(c as int)
                    + " conns) — treating as POSSIBLE"@,
            ),
        },
        None => f,
    }
}

fn find_confirmed(f: &Vec<Feedback>, now: i64, conns: i64, phase: &str) -> (r: Option<i64>)
    ensures
        r == confirmed_match(feedback_views(f@), f.len() - 1, 20, now, conns, phase@),
{
    let ghost v = feedback_views(f@);
    let mut left: usize = 20;
    let mut at: usize = f.len();
    while left > 0 && at > 0
        invariant
            at <= f.len(),
            left <= 20,
            v == feedback_views(f@),
            confirmed_match(v, f.len() - 1, 20, now, conns, phase@) == confirmed_match(
                v,
                at - 1,
                left as nat,
                now,
                conns,
                phase@,
            ),
        decreases at,
    {
        let x = &f[at - 1];
        assert(v[at - 1] == x@);
        if x.bad_lobby {
            if now as i128 - x.ts as i128 > 86_400_000_000 {
                return None;
            }
            if let Some(l) = &x.last_lobby {
                if (same(l.phase.as_str(), phase) || same(phase, "in-match")) && is_alike(
                    l.conns,
                    conns,
                ) {
                    return Some(l.conns);
                }
            }
        }
        at = at - 1;
        left = left - 1;
    }
    None
}

fn adjust_confirmed(f: &mut Weighing, found: Option<i64>)
    requires
        old(f)@.fits(4),
    ensures
        final(f)@ == confirmed_adjusted(old(f)@, found),
        final(f)@.fits(4),
{
    if let Some(c) = found {
        let n = dec_int(c);
        let s = cat3(
            "Matches your confirmed bad lobby (~",
            n.as_str(),
            " conns) — treating as POSSIBLE",
        );
        let floor: i128 = double_units_of(300_000);
        if f.score < floor {
            f.score = floor;
        }
        f.notes.push(s);
        assert(f@ =~= confirmed_adjusted(old(f)@, found));
    }
}

// ---------------------------------------------------------------------------------------------
// Folds

/// A mark of a bad lobby within five minutes of `ts`.
pub open spec fn near_bad_mark(f: Seq<FeedbackView>, ts: i64) -> bool {
    exists|i: int|
        0 <= i < f.len() && (#[trigger] f[i]).bad_lobby && distance(f[i].ts as int, ts as int)
            < 300_000_000
}

/// The lobbies that a new one is held against.
#[derive(Clone, Copy, PartialEq, Eq, Structural)]
pub enum Reference {
    /// Clean lobbies with a fold.
    GoodFolds,
    /// Bad lobbies with a fold.
    BadFolds,
    /// Bad lobbies by verdict or by a mark near them.
    BadLobbies,
}

pub open spec fn is_reference(r: Reference, l: LobbyView, f: Seq<FeedbackView>) -> bool {
    match r {
        Reference::GoodFolds => good_label(l.label) && l.fold is Some,
        Reference::BadFolds => l.fold is Some && (bad_label(l.label) || l.label
            == "USER_MARGINAL"@ || near_bad_mark(f, l.ts)),
        Reference::BadLobbies => l.label == "LIKELY"@ || near_bad_mark(f, l.ts),
    }
}

pub open spec fn any_reference(r: Reference, l: Seq<LobbyView>, f: Seq<FeedbackView>) -> bool {
    exists|i: int| 0 <= i < l.len() && is_reference(r, #[trigger] l[i], f)
}

/// The lobby at a position is like the one that is on: by the similarity of their folds, or for
/// references without folds by their connections.
pub open spec fn hit(r: Reference, l: LobbyView, sim: u32, conns: i64) -> bool {
    match r {
        Reference::GoodFolds => sim > GOOD_SIMILARITY,
        Reference::BadFolds => sim > BAD_SIMILARITY,
        Reference::BadLobbies => distance(l.conns as int, conns as int) <= larger(
            15,
            conns as int / 4,
        ),
    }
}

/// How many of the newest `left` references, from position `at` backwards, are hits.
pub open spec fn hits(
    r: Reference,
    l: Seq<LobbyView>,
    f: Seq<FeedbackView>,
    sims: Seq<u32>,
    conns: i64,
    at: int,
    left: nat,
) -> nat
    decreases at + 1,
{
    if left == 0 || at < 0 || at >= l.len() {
        0
    } else if !is_reference(r, l[at], f) {
        hits(r, l, f, sims, conns, at - 1, left)
    } else {
        hits(r, l, f, sims, conns, at - 1, (left - 1) as nat) + if hit(r, l[at], sims[at], conns) {
            1nat
        } else {
            0nat
        }
    }
}

fn is_near_bad_mark(f: &Vec<Feedback>, ts: i64) -> (r: bool)
    ensures
        r == near_bad_mark(feedback_views(f@), ts),
{
    let ghost v = feedback_views(f@);
    let mut i: usize = 0;
    while i < f.len()
        invariant
            i <= f.len(),
            v == feedback_views(f@),
            forall|k: int|
                0 <= k < i ==> !((#[trigger] v[k]).bad_lobby && distance(v[k].ts as int, ts as int)
                    < 300_000_000),
        decreases f.len() - i,
    {
        assert(v[i as int] == f@[i as int]@);
        let d: i128 = if f[i].ts >= ts {
            f[i].ts as i128 - ts as i128
        } else {
            ts as i128 - f[i].ts as i128
        };
        if f[i].bad_lobby && d < 300_000_000 {
            return true;
        }
        i += 1;
    }
    false
}

fn refers(r: Reference, l: &LobbyEntry, f: &Vec<Feedback>) -> (b: bool)
    ensures
        b == is_reference(r, l@, feedback_views(f@)),
{
    match r {
        Reference::GoodFolds => is_good_label(l.label.as_str()) && l.fold.is_some(),
        Reference::BadFolds => l.fold.is_some() && (is_bad_label(l.label.as_str()) || same(
            l.label.as_str(),
            "USER_MARGINAL",
        ) || is_near_bad_mark(f, l.ts)),
        Reference::BadLobbies => same(l.label.as_str(), "LIKELY") || is_near_bad_mark(f, l.ts),
    }
}

fn has_reference(r: Reference, l: &Vec<LobbyEntry>, f: &Vec<Feedback>) -> (b: bool)
    ensures
        b == any_reference(r, lobby_views(l@), feedback_views(f@)),
{
    let ghost v = lobby_views(l@);
    let mut i: usize = 0;
    while i < l.len()
        invariant
            i <= l.len(),
            v == lobby_views(l@),
            forall|k: int| 0 <= k < i ==> !is_reference(r, #[trigger] v[k], feedback_views(f@)),
        decreases l.len() - i,
    {
        assert(v[i as int] == l@[i as int]@);
        if refers(r, &l[i], f) {
            return true;
        }
        i += 1;
    }
    false
}

fn is_hit(r: Reference, l: &LobbyEntry, sim: u32, conns: i64) -> (b: bool)
    requires
        r == Reference::BadLobbies ==> conns > 0,
    ensures
        b == hit(r, l@, sim, conns),
{
    match r {
        Reference::GoodFolds => sim > GOOD_SIMILARITY,
        Reference::BadFolds => sim > BAD_SIMILARITY,
        Reference::BadLobbies => {
            let tol: i64 = if conns / 4 > 15 {
                conns / 4
            } else {
                15
            };
            let d: i128 = if l.conns >= conns {
                l.conns as i128 - conns as i128
            } else {
                conns as i128 - l.conns as i128
            };
            d <= tol as i128
        },
    }
}

fn count_hits(
    r: Reference,
    l: &Vec<LobbyEntry>,
    f: &Vec<Feedback>,
    sims: &Vec<u32>,
    conns: i64,
    most: u64,
) -> (n: u64)
    requires
        sims.len() == l.len(),
        r == Reference::BadLobbies ==> conns > 0,
    ensures
        n == hits(
            r,
            lobby_views(l@),
            feedback_views(f@),
            sims@,
            conns,
            l.len() - 1,
            most as nat,
        ),
        n <= most,
{
    let ghost v = lobby_views(l@);
    let ghost w = feedback_views(f@);
    let mut n: u64 = 0;
    let mut left: u64 = most;
    let mut at: usize = l.len();
    while left > 0 && at > 0
        invariant
            at <= l.len(),
            left <= most,
            n <= most - left,
            sims.len() == l.len(),
            r == Reference::BadLobbies ==> conns > 0,
            v == lobby_views(l@),
            w == feedback_views(f@),
            hits(r, v, w, sims@, conns, l.len() - 1, most as nat) == n + hits(
                r,
                v,
                w,
                sims@,
                conns,
                at - 1,
                left as nat,
            ),
        decreases at,
    {
        assert(v[at - 1] == l@[at - 1]@);
        if refers(r, &l[at - 1], f) {
            left = left - 1;
            if is_hit(r, &l[at - 1], sims[at - 1], conns) {
                n = n + 1;
            }
        }
        at = at - 1;
    }
    n
}

/// `n` times a step, at most `most`, in double precision.
pub open spec fn boost(n: nat, step: int, most: int) -> int {
    smaller(as_double((n * double_units(step)) as nat) as int, double_units(most))
}

fn boost_of(n: u64, step: i64, most: i64) -> (r: i128)
    requires
        n <= 64,
        0 <= step <= 1_000_000,
        0 <= most <= 1_000_000,
    ensures
        r == boost(n as nat, step as int, most as int),
        0 <= r <= UNITS,
{
    let u: i128 = double_units_of(step);
    let top: i128 = double_units_of(most);
    assert(0 <= n * u <= 64 * UNITS) by (nonlinear_arith)
        requires
            0 <= n <= 64,
            0 <= u <= UNITS,
    ;
    let p: i128 = double_of((n as i128 * u) as u128) as i128;
    if p <= top {
        p
    } else {
        top
    }
}

/// Folds of clean lobbies lower the score.
pub open spec fn clean_folds_adjusted(f: WeighingView, n: nat) -> WeighingView {
    if n >= 2 {
        f.moved(-boost(n, 40_000, 150_000)).noted(
            "32D fold matches "@ + decimal(n) + " prior clean-lobby fingerprints"@,
        )
    } else {
        f
    }
}

/// Folds of bad lobbies raise the score.
pub open spec fn bad_folds_adjusted(f: WeighingView, n: nat) -> WeighingView {
    if n >= 2 {
        f.moved(boost(n, 50_000, 180_000)).noted(
            "32D fold matches "@ + decimal(n) + " prior bad-lobby fingerprints (sim>0.85)"@,
        )
    } else {
        f
    }
}

/// So do the connections of bad lobbies, where no bad lobby has a fold.
pub open spec fn bad_lobbies_adjusted(f: WeighingView, n: nat) -> WeighingView {
    if n >= 3 {
        f.moved(boost(n, 40_000, 150_000)).noted(
            "Matches "@ + decimal(n) + " prior bad-lobby sessions on your network"@,
        )
    } else {
        f
    }
}

/// The effect of all earlier lobbies.
pub open spec fn lobbies_adjusted(
    f: WeighingView,
    v: LearningView,
    sims: Seq<u32>,
    conns: i64,
) -> WeighingView {
    let end = v.lobbies.len() - 1;
    let good = hits(Reference::GoodFolds, v.lobbies, v.feedback, sims, conns, end, 40);
    let bad = hits(Reference::BadFolds, v.lobbies, v.feedback, sims, conns, end, 30);
    let near = hits(Reference::BadLobbies, v.lobbies, v.feedback, sims, conns, end, 30);
    let f1 = clean_folds_adjusted(f, good);
    if any_reference(Reference::BadFolds, v.lobbies, v.feedback) {
        bad_folds_adjusted(f1, bad)
    } else if conns > 0 {
        bad_lobbies_adjusted(f1, near)
    } else {
        f1
    }
}

fn adjust_lobbies(f: &mut Weighing, e: &LearningEngine, sims: &Vec<u32>, conns: i64)
    requires
        old(f)@.fits(4),
        sims.len() == e.lobbies.len(),
    ensures
        final(f)@ == lobbies_adjusted(old(f)@, e@, sims@, conns),
        final(f)@.fits(8),
{
    assert(lobby_views(e.lobbies@).len() == e.lobbies.len());
    let good: u64 = count_hits(
        Reference::GoodFolds,
        &e.lobbies,
        &e.feedback,
        sims,
        conns,
        40,
    );
    if good >= 2 {
        f.shift(-boost_of(good, 40_000, 150_000));
        let n = dec(good);
        f.note(cat3("32D fold matches ", n.as_str(), " prior clean-lobby fingerprints"));
    }
    if has_reference(Reference::BadFolds, &e.lobbies, &e.feedback) {
        let bad: u64 = count_hits(
            Reference::BadFolds,
            &e.lobbies,
            &e.feedback,
            sims,
            conns,
            30,
        );
        if bad >= 2 {
            f.shift(boost_of(bad, 50_000, 180_000));
            let n = dec(bad);
            f.note(
                cat3(
                    "32D fold matches ",
                    n.as_str(),
                    " prior bad-lobby fingerprints (sim>0.85)",
                ),
            );
        }
    } else if conns > 0 {
        let near: u64 = count_hits(
            Reference::BadLobbies,
            &e.lobbies,
            &e.feedback,
            sims,
            conns,
            30,
        );
        if near >= 3 {
            f.shift(boost_of(near, 40_000, 150_000));
            let n = dec(near);
            f.note(cat3("Matches ", n.as_str(), " prior bad-lobby sessions on your network"));
        }
    }
}

// ---------------------------------------------------------------------------------------------
// Marks

pub open spec fn any_clean_mark(f: Seq<FeedbackView>) -> bool {
    exists|i: int| 0 <= i < f.len() && !(#[trigger] f[i]).bad_lobby
}

pub open spec fn false_alarm(x: FeedbackView) -> bool {
    !x.bad_lobby && (x.verdict_at_feedback == "LIKELY"@ || x.verdict_at_feedback == "POSSIBLE"@)
}

/// One of the last fifteen marks says that an alarm was false.
pub open spec fn recent_false_alarm(f: Seq<FeedbackView>) -> bool {
    exists|i: int| 0 <= i < f.len() && i >= f.len() - 15 && false_alarm(#[trigger] f[i])
}

/// Clean marks and false alarms lower the score.
pub open spec fn marks_adjusted(
    f: WeighingView,
    feedback: Seq<FeedbackView>,
    base: int,
    phase: Seq<char>,
) -> WeighingView {
    let f1 = if any_clean_mark(feedback) && base < 350_000 && phase != "in-match"@ {
        f.argued(-80_000, "Recent clean-lobby feedback on your network"@)
    } else {
        f
    };
    if recent_false_alarm(feedback) {
        f1.argued(-60_000, "Prior false alarm — similar session marked clean"@)
    } else {
        f1
    }
}

fn has_clean_mark(f: &Vec<Feedback>) -> (r: bool)
    ensures
        r == any_clean_mark(feedback_views(f@)),
{
    let ghost v = feedback_views(f@);
    let mut i: usize = 0;
    while i < f.len()
        invariant
            i <= f.len(),
            v == feedback_views(f@),
            forall|k: int| 0 <= k < i ==> (#[trigger] v[k]).bad_lobby,
        decreases f.len() - i,
    {
        assert(v[i as int] == f@[i as int]@);
        if !f[i].bad_lobby {
            return true;
        }
        i += 1;
    }
    false
}

fn has_recent_false_alarm(f: &Vec<Feedback>) -> (r: bool)
    ensures
        r == recent_false_alarm(feedback_views(f@)),
{
    let ghost v = feedback_views(f@);
    let start: usize = if f.len() > 15 {
        f.len() - 15
    } else {
        0
    };
    let mut i: usize = start;
    while i < f.len()
        invariant
            start <= i <= f.len(),
            start == if f.len() > 15 {
                f.len() - 15
            } else {
                0
            },
            v == feedback_views(f@),
            forall|k: int| start <= k < i ==> !false_alarm(#[trigger] v[k]),
        decreases f.len() - i,
    {
        assert(v[i as int] == f@[i as int]@);
        if !f[i].bad_lobby && (same(f[i].verdict_at_feedback.as_str(), "LIKELY") || same(
            f[i].verdict_at_feedback.as_str(),
            "POSSIBLE",
        )) {
            return true;
        }
        i += 1;
    }
    false
}

fn adjust_marks(f: &mut Weighing, feedback: &Vec<Feedback>, base: i64, phase: &str)
    requires
        old(f)@.fits(8),
    ensures
        final(f)@ == marks_adjusted(old(f)@, feedback_views(feedback@), base as int, phase@),
{
    if has_clean_mark(feedback) && base < 350_000 && !same(phase, "in-match") {
        f.argue(-80_000, "Recent clean-lobby feedback on your network".to_owned());
    }
    if has_recent_false_alarm(feedback) {
        f.argue(-60_000, "Prior false alarm — similar session marked clean".to_owned());
    }
}

/// Many connections in a match keep the score up.
pub open spec fn load_adjusted(f: WeighingView, conns: int, phase: Seq<char>) -> WeighingView {
    if phase == "in-match"@ && conns >= 65 {
        WeighingView {
            score: larger(f.score, double_units(260_000)),
            notes: if f.notes.len() == 0 {
                f.notes.push(
                    "In-match connection load ("@ + decimal_int(conns)
                        + ") above learned baseline"@,
                )
            } else {
                f.notes
            },
        }
    } else {
        f
    }
}

fn adjust_load(f: &mut Weighing, conns: i64, phase: &str)
    ensures
        final(f)@ == load_adjusted(old(f)@, conns as int, phase@),
{
    if same(phase, "in-match") && conns >= 65 {
        let floor: i128 = double_units_of(260_000);
        if f.score < floor {
            f.score = floor;
        }
        assert(f@.notes.len() == f.notes.len());
        if f.notes.len() == 0 {
            let n = dec_int(conns);
            f.notes.push(
                cat3("In-match connection load (", n.as_str(), ") above learned baseline"),
            );
        }
        assert(f@ =~= load_adjusted(old(f)@, conns as int, phase@));
    }
}

/// Score and notes after all adjustments, before the score is cut to its range: the score is added
/// up in double precision. A session that the user confirmed as bad is always treated as likely.
pub open spec fn adjusted(
    v: LearningView,
    base: i64,
    conns: i64,
    phase: Seq<char>,
    mm_delta: Option<i64>,
    sims: Seq<u32>,
    now: i64,
) -> FindingsView {
    let t = learned_thresholds(v);
    let start = WeighingView { score: double_units(base as int), notes: Seq::empty() };
    if v.active is Some && v.active->0.confirmed_bad {
        FindingsView {
            score: 580_000,
            signals: Seq::empty(),
            alerts: seq!["You confirmed cheaters this session — treating as LIKELY"@],
        }
    } else {
        let f = fanout_adjusted(start, t, base as int, conns as int, phase);
        let f = delta_adjusted(f, t, mm_delta);
        let f = confirmed_adjusted(
            f,
            confirmed_match(v.feedback, v.feedback.len() - 1, 20, now, conns, phase),
        );
        let f = lobbies_adjusted(f, v, sims, conns);
        let f = marks_adjusted(f, v.feedback, base as int, phase);
        let f = load_adjusted(f, conns as int, phase);
        FindingsView { score: in_millionths(f.score), signals: Seq::empty(), alerts: f.notes }
    }
}

impl LearningEngine {
    /// The score as the records see it, with notes that say why. `sims` holds for each recorded
    /// lobby the bits of the similarity of its fold to that of the lobby that is on, as a single-
    /// precision number that is not negative.
    pub fn adjust_score(
        &self,
        base_score: i64,
        conns: i64,
        phase: &str,
        mm_delta: Option<i64>,
        sims: &Vec<u32>,
        now: i64,
    ) -> (r: (i64, Vec<String>))
        requires
            -LIMIT <= base_score <= LIMIT,
            sims.len() == self.lobbies.len(),
        ensures
            r.0 == clamped(
                adjusted(self@, base_score, conns, phase@, mm_delta, sims@, now).score,
                0,
                ONE as int,
            ),
            views(r.1@) == adjusted(
                self@,
                base_score,
                conns,
                phase@,
                mm_delta,
                sims@,
                now,
            ).alerts,
    {
        if let Some(s) = &self.active {
            if s.confirmed_bad {
                let mut notes: Vec<String> = Vec::new();
                notes.push("You confirmed cheaters this session — treating as LIKELY".to_owned());
                assert(views(notes@)
                    =~= seq!["You confirmed cheaters this session — treating as LIKELY"@]);
                return (580_000, notes);
            }
        }
        let t = self.thresholds();
        let mut f = Weighing { score: double_units_of(base_score), notes: Vec::new() };
        assert(f@ =~= WeighingView { score: double_units(base_score as int), notes: Seq::empty() });
        adjust_fanout(&mut f, &t, base_score, conns, phase);
        adjust_delta(&mut f, &t, mm_delta);
        assert(feedback_views(self.feedback@).len() == self.feedback.len());
        let found = find_confirmed(&self.feedback, now, conns, phase);
        adjust_confirmed(&mut f, found);
        adjust_lobbies(&mut f, self, sims, conns);
        adjust_marks(&mut f, &self.feedback, base_score, phase);
        adjust_load(&mut f, conns, phase);
        (millionths_of(f.score), f.notes)
    }
}

/// Records that teach nothing change nothing: without enough polls, earlier lobbies and marks the
/// score stands as it was, and there is nothing to note. Only the load of a match speaks for
/// itself.
pub proof fn without_records_a_score_stands(
    v: LearningView,
    base: i64,
    conns: i64,
    phase: Seq<char>,
    mm_delta: Option<i64>,
    sims: Seq<u32>,
    now: i64,
)
    requires
        0 <= base <= ONE,
        v.history.conn_count.len() < MIN_SAMPLES,
        v.lobbies.len() == 0,
        v.feedback.len() == 0,
        v.active is None || !v.active->0.confirmed_bad,
        phase != "in-match"@ || conns < 65,
    ensures
        adjusted(v, base, conns, phase, mm_delta, sims, now) == (FindingsView {
            score: base as int,
            signals: Seq::empty(),
            alerts: Seq::empty(),
        }),
{
    millionths_come_back(base as int);
}

proof fn lemma_boost_near(n: nat, step: int, most: int)
    requires
        n <= 40,
        0 <= step <= 100_000,
        0 <= most <= 1_000_000,
    ensures
        lies_near(boost(n, step, most), smaller((n * step) as int, most), 42),
{
    lemma_times_near(n, step);
    lemma_units_near(most);
    let a = as_double((n * double_units(step)) as nat) as int;
    let b = double_units(most);
    let x = (n * step) as int;
    if x <= most {
        assert(x * UNITS <= most * UNITS) by (nonlinear_arith)
            requires
                x <= most,
                UNITS > 0,
        ;
    } else {
        assert(x * UNITS >= most * UNITS) by (nonlinear_arith)
            requires
                x >= most,
                UNITS > 0,
        ;
    }
}

proof fn lemma_larger_near(a: int, x: int, least: int, k: int)
    requires
        lies_near(a, x, k),
        k >= 1,
        0 <= least <= 1_000_000,
    ensures
        lies_near(larger(a, double_units(least)), larger(x, least), k),
{
    lemma_units_near(least);
    let b = double_units(least);
    if x >= least {
        assert(x * UNITS >= least * UNITS) by (nonlinear_arith)
            requires
                x >= least,
                UNITS > 0,
        ;
    } else {
        assert(x * UNITS <= least * UNITS) by (nonlinear_arith)
            requires
                x <= least,
                UNITS > 0,
        ;
    }
}

proof fn lemma_hits_bounded(
    r: Reference,
    l: Seq<LobbyView>,
    f: Seq<FeedbackView>,
    sims: Seq<u32>,
    conns: i64,
    at: int,
    left: nat,
)
    ensures
        hits(r, l, f, sims, conns, at, left) <= left,
    decreases at + 1,
{
    if left == 0 || at < 0 || at >= l.len() {
    } else if !is_reference(r, l[at], f) {
        lemma_hits_bounded(r, l, f, sims, conns, at - 1, left);
    } else {
        lemma_hits_bounded(r, l, f, sims, conns, at - 1, (left - 1) as nat);
    }
}

/// What fan-out changes: a learned queue with more connections than the learned high raises the
/// score by 0.12; one within the clean profile lowers it by as much; the zone between raises it by
/// 0.06; and a suspicious lobby far below what is normal is lowered by 0.1. Nothing else moves it,
/// and each move is noted. The score lies where that sum lies.
pub proof fn fan_out_moves_the_score(
    f: WeighingView,
    t: AdaptiveThresholds,
    base: int,
    conns: int,
    phase: Seq<char>,
    before: int,
    k: int,
)
    requires
        lies_near(f.score, before, k),
        0 <= k <= 100,
        -4_000_000 <= before <= 4_000_000,
    ensures
        ({
            let g = fanout_adjusted(f, t, base, conns, phase);
            let c = conns * 1_000_000;
            let queue = t.source == ThresholdSource::Learned && phase == "matchmaking"@;
            let high = queue && c > t.conn_matchmaking_high;
            let clean = queue && !high && t.conn_good_ceiling > 0 && c <= t.conn_good_ceiling;
            let edge = queue && !high && !clean && t.conn_marginal_low > 0 && t.conn_marginal_low
                <= c && c <= t.conn_marginal_high;
            let low = queue && !high && !clean && !edge && 10 * c < 6 * t.conn_matchmaking_elevated
                && base > 150_000;
            &&& high ==> lies_near(g.score, before + 120_000, k + 2) && g.notes.len()
                == f.notes.len() + 1
            &&& clean ==> lies_near(g.score, before - 120_000, k + 2) && g.notes.len()
                == f.notes.len() + 1
            &&& edge ==> lies_near(g.score, before + 60_000, k + 2) && g.notes.len()
                == f.notes.len() + 1
            &&& low ==> lies_near(g.score, before - 100_000, k + 2) && g.notes.len()
                == f.notes.len() + 1
            &&& !high && !clean && !edge && !low ==> g == f
            &&& high ==> g.score > f.score
            &&& clean ==> g.score < f.score
        }),
{
    lemma_units_near(120_000);
    lemma_units_near(-120_000);
    lemma_units_near(60_000);
    lemma_units_near(-100_000);
    lemma_sum_near(f.score, double_units(120_000), before, 120_000, k, 1);
    lemma_sum_near(f.score, double_units(-120_000), before, -120_000, k, 1);
    lemma_sum_near(f.score, double_units(60_000), before, 60_000, k, 1);
    lemma_sum_near(f.score, double_units(-100_000), before, -100_000, k, 1);
    assert((before + 120_000) * UNITS == before * UNITS + 120_000 * UNITS && (before - 120_000)
        * UNITS == before * UNITS - 120_000 * UNITS) by (nonlinear_arith);
}

/// How the records move a score, from the base on: what the fan-out, the distance of the server,
/// a confirmed bad lobby, earlier lobbies, marks and the load of a match change. The adjusted
/// score is that sum, to a millionth.
#[verifier::spinoff_prover]
#[verifier::rlimit(60)]
pub proof fn records_move_a_score(
    v: LearningView,
    base: i64,
    conns: i64,
    phase: Seq<char>,
    mm_delta: Option<i64>,
    sims: Seq<u32>,
    now: i64,
)
    requires
        0 <= base <= ONE,
        v.active is None || !v.active->0.confirmed_bad,
    ensures
        ({
            let t = learned_thresholds(v);
            let c = conns * 1_000_000;
            let learned = t.source == ThresholdSource::Learned;
            let queue = learned && phase == "matchmaking"@;
            let high = queue && c > t.conn_matchmaking_high;
            let clean = queue && !high && t.conn_good_ceiling > 0 && c <= t.conn_good_ceiling;
            let edge = queue && !high && !clean && t.conn_marginal_low > 0 && t.conn_marginal_low
                <= c && c <= t.conn_marginal_high;
            let low = queue && !high && !clean && !edge && 10 * c < 6 * t.conn_matchmaking_elevated
                && base > 150_000;
            let far = learned && mm_delta is Some && mm_delta->0 >= t.mm_delta_bad;
            let near_by = learned && mm_delta is Some && !far && 10 * mm_delta->0 < 8
                * t.mm_delta_warn;
            let fan = base + weigh(high, 120_000) - weigh(clean, 120_000) + weigh(edge, 60_000)
                - weigh(low, 100_000);
            let score = adjusted(v, base, conns, phase, mm_delta, sims, now).score;
            &&& far ==> within_one(
                score,
                moved_by_records(fan + 100_000, v, base, conns, phase, sims, now),
            )
            &&& near_by && fan > 200_001 ==> within_one(
                score,
                moved_by_records(fan - 80_000, v, base, conns, phase, sims, now),
            )
            &&& (!far && !near_by) || (near_by && fan < 200_000) ==> within_one(
                score,
                moved_by_records(fan, v, base, conns, phase, sims, now),
            )
            &&& near_by ==> within_one(
                score,
                moved_by_records(fan, v, base, conns, phase, sims, now),
            ) || within_one(
                score,
                moved_by_records(fan - 80_000, v, base, conns, phase, sims, now),
            )
        }),
{
    let t = learned_thresholds(v);
    let c = conns * 1_000_000;
    let learned = t.source == ThresholdSource::Learned;
    let queue = learned && phase == "matchmaking"@;
    let high = queue && c > t.conn_matchmaking_high;
    let clean = queue && !high && t.conn_good_ceiling > 0 && c <= t.conn_good_ceiling;
    let edge = queue && !high && !clean && t.conn_marginal_low > 0 && t.conn_marginal_low <= c && c
        <= t.conn_marginal_high;
    let low = queue && !high && !clean && !edge && 10 * c < 6 * t.conn_matchmaking_elevated && base
        > 150_000;
    let far = learned && mm_delta is Some && mm_delta->0 >= t.mm_delta_bad;
    let near_by = learned && mm_delta is Some && !far && 10 * mm_delta->0 < 8 * t.mm_delta_warn;
    let fan = base + weigh(high, 120_000) - weigh(clean, 120_000) + weigh(edge, 60_000) - weigh(
        low,
        100_000,
    );
    let f0 = WeighingView { score: double_units(base as int), notes: Seq::empty() };
    lemma_units_near(base as int);
    let f1 = fanout_adjusted(f0, t, base as int, conns as int, phase);
    fan_out_moves_the_score(f0, t, base as int, conns as int, phase, base as int, 1);
    assert(lies_near(f1.score, fan, 3));
    let f2 = delta_adjusted(f1, t, mm_delta);
    lemma_units_near(100_000);
    lemma_units_near(-80_000);
    lemma_units_near(200_000);
    lemma_sum_near(f1.score, double_units(100_000), fan, 100_000, 3, 1);
    lemma_sum_near(f1.score, double_units(-80_000), fan, -80_000, 3, 1);
    assert(fan * UNITS >= 200_002 * UNITS || fan < 200_002) by (nonlinear_arith)
        requires
            UNITS > 0,
    ;
    assert(fan * UNITS <= 199_999 * UNITS || fan > 199_999) by (nonlinear_arith)
        requires
            UNITS > 0,
    ;
    let s2 = if far {
        fan + 100_000
    } else if near_by && f1.score > double_units(200_000) {
        fan - 80_000
    } else {
        fan
    };
    assert(lies_near(f2.score, s2, 5));
    let found = confirmed_match(v.feedback, v.feedback.len() - 1, 20, now, conns, phase);
    let f3 = confirmed_adjusted(f2, found);
    lemma_larger_near(f2.score, s2, 300_000, 5);
    let s3 = if found is Some {
        larger(s2, 300_000)
    } else {
        s2
    };
    assert(lies_near(f3.score, s3, 5));
    lemma_records_after(f3, s3, v, base, conns, phase, sims);
    let f = lobbies_adjusted(f3, v, sims, conns);
    let f = marks_adjusted(f, v.feedback, base as int, phase);
    let f = load_adjusted(f, conns as int, phase);
    assert(adjusted(v, base, conns, phase, mm_delta, sims, now).score == in_millionths(f.score));
}

/// What earlier lobbies, marks and the load of a match make of a score, in exact millionths: a
/// confirmed bad lobby that is alike lifts it to 0.3; two clean folds or more lower it, by 0.04
/// each and at most 0.15; two bad ones or more raise it, by 0.05 each and at most 0.18, and where
/// no bad lobby has a fold three alike do, by 0.04 each and at most 0.15; a clean mark lowers it by
/// 0.08, a false alarm by 0.06; and a loaded match keeps it at 0.26.
pub open spec fn moved_by_records(
    start: int,
    v: LearningView,
    base: i64,
    conns: i64,
    phase: Seq<char>,
    sims: Seq<u32>,
    now: i64,
) -> int {
    let end = v.lobbies.len() - 1;
    let good = hits(Reference::GoodFolds, v.lobbies, v.feedback, sims, conns, end, 40);
    let bad = hits(Reference::BadFolds, v.lobbies, v.feedback, sims, conns, end, 30);
    let like = hits(Reference::BadLobbies, v.lobbies, v.feedback, sims, conns, end, 30);
    let folds = any_reference(Reference::BadFolds, v.lobbies, v.feedback);
    let found = confirmed_match(v.feedback, v.feedback.len() - 1, 20, now, conns, phase);
    let marked = any_clean_mark(v.feedback) && base < 350_000 && phase != "in-match"@;
    let s3 = if found is Some {
        larger(start, 300_000)
    } else {
        start
    };
    let s4 = s3 - weigh(good >= 2, smaller((40_000 * good) as int, 150_000)) + weigh(
        folds && bad >= 2,
        smaller((50_000 * bad) as int, 180_000),
    ) + weigh(!folds && conns > 0 && like >= 3, smaller((40_000 * like) as int, 150_000)) - weigh(
        marked,
        80_000,
    ) - weigh(recent_false_alarm(v.feedback), 60_000);
    if phase == "in-match"@ && conns >= 65 {
        larger(s4, 260_000)
    } else {
        s4
    }
}

/// Two numbers of millionths that are the same, or neighbours.
pub open spec fn within_one(a: int, b: int) -> bool {
    b - 1 <= a <= b + 1
}

#[verifier::spinoff_prover]
proof fn lemma_records_after(
    f3: WeighingView,
    s3: int,
    v: LearningView,
    base: i64,
    conns: i64,
    phase: Seq<char>,
    sims: Seq<u32>,
)
    requires
        lies_near(f3.score, s3, 5),
        -1_000_000 <= s3 <= 2_000_000,
    ensures
        ({
            let end = v.lobbies.len() - 1;
            let good = hits(Reference::GoodFolds, v.lobbies, v.feedback, sims, conns, end, 40);
            let bad = hits(Reference::BadFolds, v.lobbies, v.feedback, sims, conns, end, 30);
            let like = hits(Reference::BadLobbies, v.lobbies, v.feedback, sims, conns, end, 30);
            let folds = any_reference(Reference::BadFolds, v.lobbies, v.feedback);
            let marked = any_clean_mark(v.feedback) && base < 350_000 && phase != "in-match"@;
            let s4 = s3 - weigh(good >= 2, smaller((40_000 * good) as int, 150_000)) + weigh(
                folds && bad >= 2,
                smaller((50_000 * bad) as int, 180_000),
            ) + weigh(!folds && conns > 0 && like >= 3, smaller((40_000 * like) as int,
                150_000)) - weigh(
                marked,
                80_000,
            ) - weigh(recent_false_alarm(v.feedback), 60_000);
            let s5 = if phase == "in-match"@ && conns >= 65 {
                larger(s4, 260_000)
            } else {
                s4
            };
            let f = load_adjusted(
                marks_adjusted(
                    lobbies_adjusted(f3, v, sims, conns),
                    v.feedback,
                    base as int,
                    phase,
                ),
                conns as int,
                phase,
            );
            within_one(in_millionths(f.score), s5)
        }),
{
    let end = v.lobbies.len() - 1;
    let good = hits(Reference::GoodFolds, v.lobbies, v.feedback, sims, conns, end, 40);
    let bad = hits(Reference::BadFolds, v.lobbies, v.feedback, sims, conns, end, 30);
    let like = hits(Reference::BadLobbies, v.lobbies, v.feedback, sims, conns, end, 30);
    lemma_hits_bounded(Reference::GoodFolds, v.lobbies, v.feedback, sims, conns, end, 40);
    lemma_hits_bounded(Reference::BadFolds, v.lobbies, v.feedback, sims, conns, end, 30);
    lemma_hits_bounded(Reference::BadLobbies, v.lobbies, v.feedback, sims, conns, end, 30);
    let folds = any_reference(Reference::BadFolds, v.lobbies, v.feedback);
    lemma_boost_near(good, 40_000, 150_000);
    lemma_boost_near(bad, 50_000, 180_000);
    lemma_boost_near(like, 40_000, 150_000);
    let b1 = smaller((good * 40_000) as int, 150_000);
    let b2 = smaller((bad * 50_000) as int, 180_000);
    let b3 = smaller((like * 40_000) as int, 150_000);
    lemma_minus_near(boost(good, 40_000, 150_000), b1, 42);
    let g1 = clean_folds_adjusted(f3, good);
    lemma_sum_near(f3.score, -boost(good, 40_000, 150_000), s3, -b1, 5, 42);
    let e1 = s3 - weigh(good >= 2, b1);
    assert(lies_near(g1.score, e1, 48));
    let g2 = lobbies_adjusted(f3, v, sims, conns);
    lemma_sum_near(g1.score, boost(bad, 50_000, 180_000), e1, b2, 48, 42);
    lemma_sum_near(g1.score, boost(like, 40_000, 150_000), e1, b3, 48, 42);
    let e2 = e1 + weigh(folds && bad >= 2, b2) + weigh(!folds && conns > 0 && like >= 3, b3);
    assert(lies_near(g2.score, e2, 91));
    let marked = any_clean_mark(v.feedback) && base < 350_000 && phase != "in-match"@;
    lemma_units_near(-80_000);
    lemma_units_near(-60_000);
    lemma_sum_near(g2.score, double_units(-80_000), e2, -80_000, 91, 1);
    let m1 = if marked {
        g2.argued(-80_000, "Recent clean-lobby feedback on your network"@)
    } else {
        g2
    };
    let e3 = e2 - weigh(marked, 80_000);
    assert(lies_near(m1.score, e3, 93));
    lemma_sum_near(m1.score, double_units(-60_000), e3, -60_000, 93, 1);
    let g3 = marks_adjusted(g2, v.feedback, base as int, phase);
    let e4 = e3 - weigh(recent_false_alarm(v.feedback), 60_000);
    assert(lies_near(g3.score, e4, 95));
    lemma_larger_near(g3.score, e4, 260_000, 95);
    let g4 = load_adjusted(g3, conns as int, phase);
    let e5 = if phase == "in-match"@ && conns >= 65 {
        larger(e4, 260_000)
    } else {
        e4
    };
    assert(lies_near(g4.score, e5, 95));
    lemma_near_millionths(g4.score, e5, 95);
}

/// A lobby that fits the learned clean profile is never made more suspicious by that: with nothing
/// else recorded but clean lobbies without folds, its score falls by 0.12.
pub proof fn clean_profiles_lower_the_score(
    v: LearningView,
    base: i64,
    conns: i64,
    sims: Seq<u32>,
    now: i64,
)
    requires
        0 <= base <= ONE,
        v.active is None || !v.active->0.confirmed_bad,
        v.feedback.len() == 0,
        forall|i: int|
            0 <= i < v.lobbies.len() ==> (#[trigger] v.lobbies[i]).fold is None
                && v.lobbies[i].label == "CLEAN"@,
        learned_thresholds(v).source == ThresholdSource::Learned,
        conns * 1_000_000 <= learned_thresholds(v).conn_matchmaking_high,
        0 < learned_thresholds(v).conn_good_ceiling,
        conns * 1_000_000 <= learned_thresholds(v).conn_good_ceiling,
    ensures
        within_one(
            adjusted(v, base, conns, "matchmaking"@, None, sims, now).score,
            base - 120_000,
        ),
{
    records_move_a_score(v, base, conns, "matchmaking"@, None, sims, now);
    lemma_phase_words();
    reveal_strlit("CLEAN");
    reveal_strlit("LIKELY");
    reveal_strlit("USER_BAD");
    reveal_strlit("USER_MARGINAL");
    assert("CLEAN"@.len() == 5 && "LIKELY"@.len() == 6 && "USER_BAD"@.len() == 8
        && "USER_MARGINAL"@.len() == 13);
    let end = v.lobbies.len() - 1;
    lemma_no_hits(Reference::GoodFolds, v.lobbies, v.feedback, sims, conns, end, 40);
    lemma_no_hits(Reference::BadFolds, v.lobbies, v.feedback, sims, conns, end, 30);
    lemma_no_hits(Reference::BadLobbies, v.lobbies, v.feedback, sims, conns, end, 30);
}

proof fn lemma_no_hits(
    r: Reference,
    l: Seq<LobbyView>,
    f: Seq<FeedbackView>,
    sims: Seq<u32>,
    conns: i64,
    at: int,
    left: nat,
)
    requires
        forall|i: int| 0 <= i < l.len() ==> !is_reference(r, #[trigger] l[i], f),
    ensures
        hits(r, l, f, sims, conns, at, left) == 0,
    decreases at + 1,
{
    if left == 0 || at < 0 || at >= l.len() {
    } else {
        lemma_no_hits(r, l, f, sims, conns, at - 1, left);
    }
}

/// A confirmed bad lobby is found exactly where one is alike: among the last twenty marks there is
/// one of a bad lobby, with connections close to those that are on and in the same phase (any, in
/// a match), and no mark of a bad lobby from it on is more than a day old.
pub proof fn confirmed_lobbies_are_found(
    f: Seq<FeedbackView>,
    now: i64,
    conns: i64,
    phase: Seq<char>,
    i: int,
)
    requires
        f.len() - 20 <= i < f.len(),
        0 <= i,
    ensures
        ({
            let found = confirmed_match(f, f.len() - 1, 20, now, conns, phase);
            let x = f[i];
            let close = x.last_lobby is Some && x.bad_lobby && (x.last_lobby->0.phase == phase
                || phase == "in-match"@) && alike(x.last_lobby->0.conns as int, conns as int);
            &&& close && (forall|k: int|
                i <= k < f.len() && (#[trigger] f[k]).bad_lobby ==> now - f[k].ts <= 86_400_000_000)
                ==> found is Some
            &&& close && i == f.len() - 1 && now - x.ts <= 86_400_000_000 ==> found == Some(
                x.last_lobby->0.conns,
            )
            &&& found is Some ==> exists|k: int|
                {
                    &&& f.len() - 20 <= k < f.len()
                    &&& 0 <= k
                    &&& (#[trigger] f[k]).bad_lobby
                    &&& now - f[k].ts <= 86_400_000_000
                    &&& f[k].last_lobby is Some
                    &&& f[k].last_lobby->0.conns == found->0
                    &&& alike(found->0 as int, conns as int)
                    &&& f[k].last_lobby->0.phase == phase || phase == "in-match"@
                }
        }),
{
    lemma_confirmed(f, f.len() - 1, 20, now, conns, phase, i);
}

proof fn lemma_confirmed(
    f: Seq<FeedbackView>,
    at: int,
    left: nat,
    now: i64,
    conns: i64,
    phase: Seq<char>,
    i: int,
)
    requires
        at < f.len(),
    ensures
        ({
            let found = confirmed_match(f, at, left, now, conns, phase);
            let x = f[i];
            let close = x.last_lobby is Some && x.bad_lobby && (x.last_lobby->0.phase == phase
                || phase == "in-match"@) && alike(x.last_lobby->0.conns as int, conns as int);
            &&& 0 <= i && at - left < i <= at && close && (forall|k: int|
                i <= k <= at && (#[trigger] f[k]).bad_lobby ==> now - f[k].ts <= 86_400_000_000)
                ==> found is Some
            &&& found is Some ==> exists|k: int|
                {
                    &&& at - left < k <= at
                    &&& 0 <= k
                    &&& (#[trigger] f[k]).bad_lobby
                    &&& now - f[k].ts <= 86_400_000_000
                    &&& f[k].last_lobby is Some
                    &&& f[k].last_lobby->0.conns == found->0
                    &&& alike(found->0 as int, conns as int)
                    &&& f[k].last_lobby->0.phase == phase || phase == "in-match"@
                }
        }),
    decreases left,
{
    if left > 0 && at >= 0 {
        lemma_confirmed(f, at - 1, (left - 1) as nat, now, conns, phase, i);
        let x = f[at];
        assert(f[at].bad_lobby ==> x.bad_lobby);
    }
}

/// What a lobby is held against: clean lobbies with a fold; bad or marginal ones with a fold, or
/// those that were marked bad within five minutes; and, by connections alone, likely ones and
/// those marked bad.
pub proof fn references_are_judged_lobbies(l: LobbyView, f: Seq<FeedbackView>, i: int)
    requires
        0 <= i < f.len(),
    ensures
        is_reference(Reference::GoodFolds, l, f) <==> l.fold is Some && (l.label == "CLEAN"@
            || l.label == "USER_GOOD"@),
        l.fold is Some && (l.label == "LIKELY"@ || l.label == "USER_BAD"@ || l.label
            == "USER_MARGINAL"@) ==> is_reference(Reference::BadFolds, l, f),
        l.label == "LIKELY"@ ==> is_reference(Reference::BadLobbies, l, f),
        f[i].bad_lobby && -300_000_000 < l.ts - f[i].ts < 300_000_000 ==> is_reference(
            Reference::BadLobbies,
            l,
            f,
        ) && (l.fold is Some ==> is_reference(Reference::BadFolds, l, f)),
        is_reference(Reference::BadFolds, l, f) ==> l.fold is Some,
        (forall|k: int|
            0 <= k < f.len() && (#[trigger] f[k]).bad_lobby ==> l.ts - f[k].ts >= 300_000_000
                || f[k].ts
                - l.ts >= 300_000_000) && is_reference(Reference::BadLobbies, l, f) ==> l.label
            == "LIKELY"@,
        (forall|k: int|
            0 <= k < f.len() && (#[trigger] f[k]).bad_lobby ==> l.ts - f[k].ts >= 300_000_000
                || f[k].ts
                - l.ts >= 300_000_000) && is_reference(Reference::BadFolds, l, f) ==> l.label
            == "LIKELY"@ || l.label == "USER_BAD"@ || l.label == "USER_MARGINAL"@,
{
}

/// When an earlier lobby is like the one that is on: its fold is closer than 0.82 to a clean one,
/// than 0.85 to a bad one; without folds, its connections differ by fifteen at most, or by a
/// quarter of those that are on.
pub proof fn close_lobbies_are_hits(l: LobbyView, sim: u32, closer: u32, conns: i64)
    requires
        sim <= closer,
    ensures
        hit(Reference::GoodFolds, l, sim, conns) <==> sim > 0x3f51_eb85,
        hit(Reference::BadFolds, l, sim, conns) <==> sim > 0x3f59_999a,
        hit(Reference::GoodFolds, l, sim, conns) ==> hit(Reference::GoodFolds, l, closer, conns),
        hit(Reference::BadFolds, l, sim, conns) ==> hit(Reference::BadFolds, l, closer, conns),
        conns >= 0 ==> (hit(Reference::BadLobbies, l, sim, conns) <==> (-15 <= l.conns - conns
            <= 15 || (4 * (l.conns - conns) <= conns && 4 * (conns - l.conns) <= conns))),
{
}

/// Each reference counts once: a new lobby adds one to the hits where it is a reference and like
/// the one that is on, and nothing otherwise, as long as no more lobbies are known than are looked
/// at. What is counted is never more than that.
pub proof fn hits_are_counted_once(
    r: Reference,
    l: Seq<LobbyView>,
    f: Seq<FeedbackView>,
    sims: Seq<u32>,
    conns: i64,
    x: LobbyView,
    sim: u32,
    left: nat,
)
    requires
        l.len() < left,
        sims.len() == l.len(),
    ensures
        hits(r, l.push(x), f, sims.push(sim), conns, l.len() as int, left) == hits(
            r,
            l,
            f,
            sims,
            conns,
            l.len() - 1,
            left,
        ) + weigh(is_reference(r, x, f) && hit(r, x, sim, conns), 1),
{
    let m = l.push(x);
    let s = sims.push(sim);
    lemma_hits_prefix(r, l, m, f, sims, s, conns, l.len() - 1, left);
    if is_reference(r, x, f) {
        lemma_hits_prefix(r, l, m, f, sims, s, conns, l.len() - 1, (left - 1) as nat);
        lemma_hits_enough(r, l, f, sims, conns, l.len() - 1, (left - 1) as nat, left);
    }
}

/// No more lobbies are hits than are looked at, and nothing is a hit where nothing is known.
pub proof fn hits_are_bounded(
    r: Reference,
    l: Seq<LobbyView>,
    f: Seq<FeedbackView>,
    sims: Seq<u32>,
    conns: i64,
    left: nat,
)
    ensures
        hits(r, l, f, sims, conns, l.len() - 1, left) <= left,
        l.len() == 0 ==> hits(r, l, f, sims, conns, l.len() - 1, left) == 0,
{
    lemma_hits_at_most(r, l, f, sims, conns, l.len() - 1, left);
}

proof fn lemma_hits_at_most(
    r: Reference,
    l: Seq<LobbyView>,
    f: Seq<FeedbackView>,
    sims: Seq<u32>,
    conns: i64,
    at: int,
    left: nat,
)
    ensures
        hits(r, l, f, sims, conns, at, left) <= left,
    decreases at + 1,
{
    if left > 0 && 0 <= at < l.len() {
        lemma_hits_at_most(r, l, f, sims, conns, at - 1, left);
        lemma_hits_at_most(r, l, f, sims, conns, at - 1, (left - 1) as nat);
    }
}

proof fn lemma_hits_prefix(
    r: Reference,
    l: Seq<LobbyView>,
    m: Seq<LobbyView>,
    f: Seq<FeedbackView>,
    sims: Seq<u32>,
    s: Seq<u32>,
    conns: i64,
    at: int,
    left: nat,
)
    requires
        at < l.len() <= m.len(),
        l.len() <= sims.len() <= s.len(),
        forall|i: int| 0 <= i < l.len() ==> l[i] == m[i] && sims[i] == s[i],
    ensures
        hits(r, m, f, s, conns, at, left) == hits(r, l, f, sims, conns, at, left),
    decreases at + 1,
{
    if left > 0 && at >= 0 {
        assert(l[at] == m[at]);
        lemma_hits_prefix(r, l, m, f, sims, s, conns, at - 1, left);
        lemma_hits_prefix(r, l, m, f, sims, s, conns, at - 1, (left - 1) as nat);
    }
}

proof fn lemma_hits_enough(
    r: Reference,
    l: Seq<LobbyView>,
    f: Seq<FeedbackView>,
    sims: Seq<u32>,
    conns: i64,
    at: int,
    few: nat,
    many: nat,
)
    requires
        at < l.len(),
        at + 1 <= few <= many,
    ensures
        hits(r, l, f, sims, conns, at, few) == hits(r, l, f, sims, conns, at, many),
    decreases at + 1,
{
    if at >= 0 {
        lemma_hits_enough(r, l, f, sims, conns, at - 1, few, many);
        lemma_hits_enough(r, l, f, sims, conns, at - 1, (few - 1) as nat, (many - 1) as nat);
    }
}

/// A false alarm is a clean mark on a lobby that was called likely or possible, and it counts
/// while it is among the last fifteen marks.
pub proof fn false_alarms_are_remembered(f: Seq<FeedbackView>, i: int)
    requires
        0 <= i < f.len(),
    ensures
        !f[i].bad_lobby ==> any_clean_mark(f),
        (forall|k: int| 0 <= k < f.len() ==> (#[trigger] f[k]).bad_lobby) ==> !any_clean_mark(f)
            && !recent_false_alarm(f),
        f.len() - 15 <= i && !f[i].bad_lobby && (f[i].verdict_at_feedback == "LIKELY"@
            || f[i].verdict_at_feedback == "POSSIBLE"@) ==> recent_false_alarm(f),
        (forall|k: int|
            f.len() - 15 <= k < f.len() && 0 <= k ==> (#[trigger] f[k]).bad_lobby || (
            f[k].verdict_at_feedback != "LIKELY"@ && f[k].verdict_at_feedback != "POSSIBLE"@))
            ==> !recent_false_alarm(f),
{
    assert(false_alarm(f[i]) ==> recent_false_alarm(f) || i < f.len() - 15);
}

/// A session that the user confirmed as bad scores 0.58, whatever else is known, and one note says
/// so.
pub proof fn confirmed_sessions_are_likely(
    v: LearningView,
    base: i64,
    conns: i64,
    phase: Seq<char>,
    mm_delta: Option<i64>,
    sims: Seq<u32>,
    now: i64,
)
    requires
        v.active is Some,
        v.active->0.confirmed_bad,
    ensures
        adjusted(v, base, conns, phase, mm_delta, sims, now).score == 580_000,
        adjusted(v, base, conns, phase, mm_delta, sims, now).alerts.len() == 1,
{
}

} // verus!
