//! What the records say in words.
use vstd::prelude::*;

use crate::adaptive::{
    good_label, is_good_label, is_marginal_label, learned_thresholds, marginal_label,
};
use crate::fixed::{
    fmt0, last_of, magnitude, nearest, percent_tenths, percent_tenths_of, round_div, sign_text,
    smaller, whole_text,
};
use crate::learning::{
    feedback_views, lobby_views, outcome_views, session_views, AdaptiveThresholds, Feedback,
    FeedbackView, LearningEngine, LearningView, LobbyEntry, LobbyView, OutcomeView, Session,
    SessionOutcome, SessionView, ThresholdSource,
};
use crate::ranks::{largest_first, lemma_placed, place, placed};
use crate::signals::weigh;
use crate::text::{cat, cat3, dec, dec_wide, decimal, same, views};

verus! {

// ---------------------------------------------------------------------------------------------
// Counts

/// The lobbies of a profile.
#[derive(Clone, Copy, PartialEq, Eq, Structural)]
pub enum Profile {
    Good,
    Bad,
    Marginal,
    /// Marked as clean by the user.
    UserGood,
    /// With a fold.
    Folded,
}

pub open spec fn in_profile(p: Profile, l: LobbyView) -> bool {
    match p {
        Profile::Good => good_label(l.label),
        Profile::Bad => l.label == "LIKELY"@ || l.label == "USER_BAD"@ || l.label
            == "USER_MARGINAL"@,
        Profile::Marginal => marginal_label(l.label),
        Profile::UserGood => l.label == "USER_GOOD"@,
        Profile::Folded => l.fold is Some,
    }
}

/// The lobbies of a profile, oldest first.
pub open spec fn profile(p: Profile, l: Seq<LobbyView>) -> Seq<LobbyView>
    decreases l.len(),
{
    if l.len() == 0 {
        Seq::empty()
    } else if in_profile(p, l.last()) {
        profile(p, l.drop_last()).push(l.last())
    } else {
        profile(p, l.drop_last())
    }
}

pub open spec fn conn_sum(l: Seq<LobbyView>) -> int
    decreases l.len(),
{
    if l.len() == 0 {
        0
    } else {
        conn_sum(l.drop_last()) + l.last().conns
    }
}

/// A mean of whole numbers without decimals, rounded to nearest.
pub open spec fn mean_text(sum: int, n: nat) -> Seq<char> {
    sign_text(sum) + decimal(nearest(magnitude(sum), n))
}

fn profiled(p: Profile, l: &LobbyEntry) -> (r: bool)
    ensures
        r == in_profile(p, l@),
{
    let label = l.label.as_str();
    match p {
        Profile::Good => is_good_label(label),
        Profile::Bad => same(label, "LIKELY") || same(label, "USER_BAD") || same(
            label,
            "USER_MARGINAL",
        ),
        Profile::Marginal => is_marginal_label(label),
        Profile::UserGood => same(label, "USER_GOOD"),
        Profile::Folded => l.fold.is_some(),
    }
}

/// The connections of the lobbies of a profile.
fn profile_conns(p: Profile, l: &Vec<LobbyEntry>) -> (r: Vec<i64>)
    ensures
        r@ == profile(p, lobby_views(l@)).map_values(|x: LobbyView| x.conns),
{
    let mut out: Vec<i64> = Vec::new();
    let mut i: usize = 0;
    assert(out@ =~= profile(p, lobby_views(l@).take(0)).map_values(|x: LobbyView| x.conns));
    while i < l.len()
        invariant
            i <= l.len(),
            out@ == profile(p, lobby_views(l@).take(i as int)).map_values(
                |x: LobbyView| x.conns,
            ),
        decreases l.len() - i,
    {
        proof {
            let u = lobby_views(l@).take(i + 1);
            assert(u.drop_last() =~= lobby_views(l@).take(i as int));
            assert(u.last() == l@[i as int]@);
        }
        if profiled(p, &l[i]) {
            out.push(l[i].conns);
        }
        assert(out@ =~= profile(p, lobby_views(l@).take(i + 1)).map_values(
            |x: LobbyView| x.conns,
        ));
        i += 1;
    }
    assert(lobby_views(l@).take(i as int) =~= lobby_views(l@));
    out
}

pub open spec fn int_sum(v: Seq<i64>) -> int
    decreases v.len(),
{
    if v.len() == 0 {
        0
    } else {
        int_sum(v.drop_last()) + v.last()
    }
}

proof fn lemma_conn_sum(l: Seq<LobbyView>)
    ensures
        conn_sum(l) == int_sum(l.map_values(|x: LobbyView| x.conns)),
    decreases l.len(),
{
    if l.len() > 0 {
        lemma_conn_sum(l.drop_last());
        let m = l.map_values(|x: LobbyView| x.conns);
        assert(m.drop_last() =~= l.drop_last().map_values(|x: LobbyView| x.conns));
        assert(m.last() == l.last().conns);
    }
}

fn sum_from(v: &Vec<i64>, from: usize) -> (r: i128)
    requires
        from <= v.len(),
    ensures
        r == int_sum(v@.skip(from as int)),
        -0x8000_0000_0000_0000 * (v.len() - from) <= r <= 0x8000_0000_0000_0000 * (v.len() - from),
{
    let ghost t = v@.skip(from as int);
    let mut n: i128 = 0;
    let mut i: usize = from;
    while i < v.len()
        invariant
            from <= i <= v.len(),
            t == v@.skip(from as int),
            n == int_sum(t.take(i - from)),
            -0x8000_0000_0000_0000 * (i - from) <= n <= 0x8000_0000_0000_0000 * (i - from),
        decreases v.len() - i,
    {
        proof {
            let u = t.take(i - from + 1);
            assert(u.drop_last() =~= t.take(i - from));
            assert(u.last() == v@[i as int]);
        }
        n = n + v[i] as i128;
        i += 1;
    }
    assert(t.take(i - from) =~= t);
    n
}

fn mean_str(sum: i128, n: usize) -> (r: String)
    requires
        n > 0,
        sum > i128::MIN,
    ensures
        r@ == mean_text(sum as int, n as nat),
{
    let mut s = String::new();
    let m: u128 = if sum < 0 {
        s.push('-');
        (-sum) as u128
    } else {
        sum as u128
    };
    assert(s@ =~= sign_text(sum as int));
    s.append(dec_wide(round_div(m, n as u128)).as_str());
    s
}

/// The kinds of marks that are counted.
#[derive(Clone, Copy, PartialEq, Eq, Structural)]
pub enum Mark {
    Good,
    Bad,
    FalseAlarm,
    TruePositive,
    Missed,
}

pub open spec fn is_mark(m: Mark, f: FeedbackView) -> bool {
    let alarmed = f.verdict_at_feedback == "LIKELY"@ || f.verdict_at_feedback == "POSSIBLE"@;
    match m {
        Mark::Good => !f.bad_lobby,
        Mark::Bad => f.bad_lobby,
        Mark::FalseAlarm => !f.bad_lobby && alarmed,
        Mark::TruePositive => f.bad_lobby && alarmed,
        Mark::Missed => f.bad_lobby && f.verdict_at_feedback == "CLEAN"@,
    }
}

pub open spec fn mark_count(m: Mark, f: Seq<FeedbackView>) -> nat
    decreases f.len(),
{
    if f.len() == 0 {
        0
    } else {
        mark_count(m, f.drop_last()) + if is_mark(m, f.last()) {
            1nat
        } else {
            0nat
        }
    }
}

fn marked(m: Mark, f: &Feedback) -> (r: bool)
    ensures
        r == is_mark(m, f@),
{
    let v = f.verdict_at_feedback.as_str();
    let alarmed = same(v, "LIKELY") || same(v, "POSSIBLE");
    match m {
        Mark::Good => !f.bad_lobby,
        Mark::Bad => f.bad_lobby,
        Mark::FalseAlarm => !f.bad_lobby && alarmed,
        Mark::TruePositive => f.bad_lobby && alarmed,
        Mark::Missed => f.bad_lobby && same(v, "CLEAN"),
    }
}

proof fn lemma_alarms(f: Seq<FeedbackView>)
    ensures
        mark_count(Mark::TruePositive, f) + mark_count(Mark::FalseAlarm, f) <= f.len(),
    decreases f.len(),
{
    if f.len() > 0 {
        lemma_alarms(f.drop_last());
    }
}

fn count_marks(m: Mark, f: &Vec<Feedback>) -> (r: u64)
    ensures
        r == mark_count(m, feedback_views(f@)),
        r <= f.len(),
{
    let mut n: u64 = 0;
    let mut i: usize = 0;
    while i < f.len()
        invariant
            i <= f.len(),
            n <= i,
            n == mark_count(m, feedback_views(f@).take(i as int)),
        decreases f.len() - i,
    {
        proof {
            let u = feedback_views(f@).take(i + 1);
            assert(u.drop_last() =~= feedback_views(f@).take(i as int));
            assert(u.last() == f@[i as int]@);
        }
        if marked(m, &f[i]) {
            n += 1;
        }
        i += 1;
    }
    assert(feedback_views(f@).take(i as int) =~= feedback_views(f@));
    n
}

// ---------------------------------------------------------------------------------------------
// Hints

/// `s` with one more text, where the condition holds.
pub open spec fn with_if(s: Seq<Seq<char>>, cond: bool, t: Seq<char>) -> Seq<Seq<char>> {
    if cond {
        s.push(t)
    } else {
        s
    }
}

fn push_text(v: &mut Vec<String>, t: String)
    ensures
        views(final(v)@) == views(old(v)@).push(t@),
{
    v.push(t);
    assert(views(v@) =~= views(old(v)@).push(t@));
}

pub open spec fn alarming(label: Seq<char>) -> bool {
    label == "LIKELY"@ || label == "POSSIBLE"@ || label == "USER_BAD"@ || label
        == "USER_MARGINAL"@
}

/// A bad lobby is on, going by the session's worst verdict.
pub open spec fn in_bad_lobby(v: LearningView) -> bool {
    v.active is Some && alarming(v.active->0.worst_verdict)
}

pub open spec fn any_helped(o: Seq<OutcomeView>) -> bool {
    exists|i: int| 0 <= i < o.len() && (#[trigger] o[i]).desync_polls > 5 && o[i].user_marked_good
}

pub open spec fn any_unguarded(o: Seq<OutcomeView>) -> bool {
    exists|i: int| 0 <= i < o.len() && (#[trigger] o[i]).confirmed_bad && o[i].desync_polls == 0
}

/// What the user can do for the records, and what they show.
pub open spec fn improvement_hints(v: LearningView) -> Seq<Seq<char>> {
    let good = mark_count(Mark::Good, v.feedback);
    let bad = mark_count(Mark::Bad, v.feedback);
    let alarms = mark_count(Mark::FalseAlarm, v.feedback);
    let missed = mark_count(Mark::Missed, v.feedback);
    let calm = !in_bad_lobby(v);
    let h = with_if(
        Seq::empty(),
        good < 3 && calm,
        "When you get a genuinely good lobby, mark it clean — teaches the AI your normal fan-out"@,
    );
    let h = with_if(
        h,
        bad >= 2 && good == 0 && calm,
        "After a good match (no cheaters), mark clean so the AI learns what normal looks like on your network"@,
    );
    let h = with_if(
        h,
        alarms >= 2 && calm,
        decimal(alarms)
            + " false alarms logged — mark clean only on lobbies that were actually good"@,
    );
    let h = with_if(
        h,
        missed >= 1,
        decimal(missed)
            + " missed bad lobby(ies) — bad marks anchor lower detection thresholds"@,
    );
    let h = with_if(
        h,
        any_helped(v.outcomes),
        "Desync+flood guard ran during sessions you marked clean — network tuning may be helping"@,
    );
    let h = with_if(
        h,
        any_unguarded(v.outcomes),
        "Bad lobby with no guard engagement — auto-tuning will engage earlier next time"@,
    );
    with_if(
        h,
        profile(Profile::UserGood, v.lobbies).len() >= 5,
        "32D fold has clean fingerprints — similarity matching active for false-positive reduction"@,
    )
}

fn helped(o: &Vec<SessionOutcome>) -> (r: bool)
    ensures
        r == any_helped(outcome_views(o@)),
{
    let ghost v = outcome_views(o@);
    let mut i: usize = 0;
    while i < o.len()
        invariant
            i <= o.len(),
            v == outcome_views(o@),
            forall|k: int|
                0 <= k < i ==> !((#[trigger] v[k]).desync_polls > 5 && v[k].user_marked_good),
        decreases o.len() - i,
    {
        assert(v[i as int] == o@[i as int]@);
        if o[i].desync_polls > 5 && o[i].user_marked_good {
            return true;
        }
        i += 1;
    }
    false
}

fn unguarded(o: &Vec<SessionOutcome>) -> (r: bool)
    ensures
        r == any_unguarded(outcome_views(o@)),
{
    let ghost v = outcome_views(o@);
    let mut i: usize = 0;
    while i < o.len()
        invariant
            i <= o.len(),
            v == outcome_views(o@),
            forall|k: int|
                0 <= k < i ==> !((#[trigger] v[k]).confirmed_bad && v[k].desync_polls == 0),
        decreases o.len() - i,
    {
        assert(v[i as int] == o@[i as int]@);
        if o[i].confirmed_bad && o[i].desync_polls == 0 {
            return true;
        }
        i += 1;
    }
    false
}

/// Hints for the user.
pub fn build_improvement_hints(e: &LearningEngine) -> (r: Vec<String>)
    ensures
        views(r@) == improvement_hints(e@),
{
    let good: u64 = count_marks(Mark::Good, &e.feedback);
    let bad: u64 = count_marks(Mark::Bad, &e.feedback);
    let alarms: u64 = count_marks(Mark::FalseAlarm, &e.feedback);
    let missed: u64 = count_marks(Mark::Missed, &e.feedback);
    let calm = match &e.active {
        Some(s) => {
            let w = s.worst_verdict.as_str();
            !(same(w, "LIKELY") || same(w, "POSSIBLE") || same(w, "USER_BAD") || same(
                w,
                "USER_MARGINAL",
            ))
        },
        None => true,
    };
    let mut h: Vec<String> = Vec::new();
    assert(views(h@) =~= Seq::empty());
    if good < 3 && calm {
        push_text(
            &mut h,
            "When you get a genuinely good lobby, mark it clean — teaches the AI your normal fan-out".to_owned(),
        );
    }
    if bad >= 2 && good == 0 && calm {
        push_text(
            &mut h,
            "After a good match (no cheaters), mark clean so the AI learns what normal looks like on your network".to_owned(),
        );
    }
    if alarms >= 2 && calm {
        let n = dec(alarms);
        push_text(
            &mut h,
            cat(
                n.as_str(),
                " false alarms logged — mark clean only on lobbies that were actually good",
            ),
        );
    }
    if missed >= 1 {
        let n = dec(missed);
        push_text(
            &mut h,
            cat(
                n.as_str(),
                " missed bad lobby(ies) — bad marks anchor lower detection thresholds",
            ),
        );
    }
    if helped(&e.outcomes) {
        push_text(
            &mut h,
            "Desync+flood guard ran during sessions you marked clean — network tuning may be helping".to_owned(),
        );
    }
    if unguarded(&e.outcomes) {
        push_text(
            &mut h,
            "Bad lobby with no guard engagement — auto-tuning will engage earlier next time".to_owned(),
        );
    }
    let clean = profile_conns(Profile::UserGood, &e.lobbies);
    assert(profile(Profile::UserGood, lobby_views(e.lobbies@)).len() == clean.len());
    if clean.len() >= 5 {
        push_text(
            &mut h,
            "32D fold has clean fingerprints — similarity matching active for false-positive reduction".to_owned(),
        );
    }
    h
}

// ---------------------------------------------------------------------------------------------
// Patterns

/// What was learned about the fan-out.
pub open spec fn threshold_patterns(t: AdaptiveThresholds) -> Seq<Seq<char>> {
    let p = with_if(
        Seq::empty(),
        t.source == ThresholdSource::Learned,
        "Learned baselines from "@ + decimal(t.samples as nat)
            + " samples — matchmaking fan-out ~"@ + whole_text(t.conn_matchmaking_elevated as int)
            + "/"@ + whole_text(t.conn_matchmaking_high as int) + " conns"@,
    );
    let p = with_if(
        p,
        t.conn_good_ceiling > 0,
        "Clean lobbies on your network: typically ≤"@ + whole_text(t.conn_good_ceiling as int)
            + " connections"@,
    );
    with_if(
        p,
        t.conn_marginal_low > 0 && t.conn_marginal_high > t.conn_marginal_low,
        "Marginal zone (watch closely): "@ + whole_text(t.conn_marginal_low as int) + "–"@
            + whole_text(t.conn_marginal_high as int) + " connections"@,
    )
}

fn push_threshold_patterns(p: &mut Vec<String>, t: &AdaptiveThresholds)
    requires
        old(p)@.len() == 0,
    ensures
        views(final(p)@) == threshold_patterns(*t),
{
    assert(views(p@) =~= Seq::empty());
    if t.source == ThresholdSource::Learned {
        let mut s = "Learned baselines from ".to_owned();
        s.append(dec(t.samples as u64).as_str());
        s.append(" samples — matchmaking fan-out ~");
        s.append(fmt0(t.conn_matchmaking_elevated).as_str());
        s.append("/");
        s.append(fmt0(t.conn_matchmaking_high).as_str());
        s.append(" conns");
        push_text(p, s);
    }
    if t.conn_good_ceiling > 0 {
        let n = fmt0(t.conn_good_ceiling);
        push_text(
            p,
            cat3("Clean lobbies on your network: typically ≤", n.as_str(), " connections"),
        );
    }
    if t.conn_marginal_low > 0 && t.conn_marginal_high > t.conn_marginal_low {
        let mut s = "Marginal zone (watch closely): ".to_owned();
        s.append(fmt0(t.conn_marginal_low).as_str());
        s.append("–");
        s.append(fmt0(t.conn_marginal_high).as_str());
        s.append(" connections");
        push_text(p, s);
    }
}

/// The mean connections of clean, bad and marginal lobbies; of the bad ones only the last twenty
/// count.
pub open spec fn profile_patterns(p: Seq<Seq<char>>, lobbies: Seq<LobbyView>) -> Seq<Seq<char>> {
    let good = profile(Profile::Good, lobbies);
    let bad = profile(Profile::Bad, lobbies);
    let newest = last_of(bad, 20);
    let marginal = profile(Profile::Marginal, lobbies);
    let p = with_if(
        p,
        good.len() >= 3,
        "Good lobby profile: ~"@ + mean_text(conn_sum(good), good.len()) + " avg connections ("@
            + decimal(good.len()) + " samples)"@,
    );
    let p = with_if(
        p,
        bad.len() >= 3,
        "Bad lobby profile: ~"@ + mean_text(conn_sum(newest), newest.len())
            + " avg connections ("@ + decimal(newest.len()) + " samples)"@,
    );
    with_if(
        p,
        marginal.len() >= 2,
        "Marginal lobbies avg "@ + mean_text(conn_sum(marginal), marginal.len())
            + " connections — often borderline shadow-pool"@,
    )
}

fn push_profile_patterns(p: &mut Vec<String>, lobbies: &Vec<LobbyEntry>)
    ensures
        views(final(p)@) == profile_patterns(views(old(p)@), lobby_views(lobbies@)),
{
    let good = profile_conns(Profile::Good, lobbies);
    let bad = profile_conns(Profile::Bad, lobbies);
    let marginal = profile_conns(Profile::Marginal, lobbies);
    let from: usize = if bad.len() > 20 {
        bad.len() - 20
    } else {
        0
    };
    proof {
        let l = lobby_views(lobbies@);
        let b = profile(Profile::Bad, l);
        lemma_conn_sum(profile(Profile::Good, l));
        lemma_conn_sum(last_of(b, 20));
        lemma_conn_sum(profile(Profile::Marginal, l));
        assert(good@.skip(0) =~= good@);
        assert(marginal@.skip(0) =~= marginal@);
        assert(bad@.skip(from as int) =~= last_of(b, 20).map_values(|x: LobbyView| x.conns));
        assert(bad.len() == b.len());
    }
    if good.len() >= 3 {
        let mut s = "Good lobby profile: ~".to_owned();
        s.append(mean_str(sum_from(&good, 0), good.len()).as_str());
        s.append(" avg connections (");
        s.append(dec(good.len() as u64).as_str());
        s.append(" samples)");
        push_text(p, s);
    }
    if bad.len() >= 3 {
        let mut s = "Bad lobby profile: ~".to_owned();
        s.append(mean_str(sum_from(&bad, from), bad.len() - from).as_str());
        s.append(" avg connections (");
        s.append(dec((bad.len() - from) as u64).as_str());
        s.append(" samples)");
        push_text(p, s);
    }
    if marginal.len() >= 2 {
        let n = mean_str(sum_from(&marginal, 0), marginal.len());
        push_text(
            p,
            cat3(
                "Marginal lobbies avg ",
                n.as_str(),
                " connections — often borderline shadow-pool",
            ),
        );
    }
}

/// How many sessions the guard worked in, how many of them the user confirmed as bad, and how
/// many of the others were judged likely.
pub open spec fn guarded_counts(o: Seq<OutcomeView>) -> (nat, nat, nat)
    decreases o.len(),
{
    if o.len() == 0 {
        (0, 0, 0)
    } else {
        let b = guarded_counts(o.drop_last());
        let x = o.last();
        if x.desync_polls > 0 || x.flood_polls > 0 {
            (
                b.0 + 1,
                b.1 + if x.confirmed_bad {
                    1nat
                } else {
                    0nat
                },
                b.2 + if !x.confirmed_bad && x.worst_verdict == "LIKELY"@ {
                    1nat
                } else {
                    0nat
                },
            )
        } else {
            b
        }
    }
}

pub open spec fn guard_detail(confirmed: nat, auto: nat) -> Seq<char> {
    if confirmed > 0 && auto > 0 {
        decimal(confirmed) + " you marked bad, "@ + decimal(auto) + " auto LIKELY"@
    } else if confirmed > 0 {
        decimal(confirmed) + " you marked bad"@
    } else {
        decimal(auto) + " auto-detected LIKELY"@
    }
}

pub open spec fn guard_pattern(p: Seq<Seq<char>>, o: Seq<OutcomeView>) -> Seq<Seq<char>> {
    let c = guarded_counts(o);
    with_if(
        p,
        c.0 > 0,
        "Network guard (desync+flood) ran in "@ + decimal(c.0) + " sessions — "@ + guard_detail(
            c.1,
            c.2,
        ),
    )
}

fn push_guard_pattern(p: &mut Vec<String>, o: &Vec<SessionOutcome>)
    ensures
        views(final(p)@) == guard_pattern(views(old(p)@), outcome_views(o@)),
{
    let ghost v = outcome_views(o@);
    let mut all: u64 = 0;
    let mut confirmed: u64 = 0;
    let mut auto: u64 = 0;
    let mut i: usize = 0;
    while i < o.len()
        invariant
            i <= o.len(),
            v == outcome_views(o@),
            p@ == old(p)@,
            all <= i,
            confirmed <= i,
            auto <= i,
            (all as nat, confirmed as nat, auto as nat) == guarded_counts(v.take(i as int)),
        decreases o.len() - i,
    {
        proof {
            let u = v.take(i + 1);
            assert(u.drop_last() =~= v.take(i as int));
            assert(u.last() == o@[i as int]@);
        }
        if o[i].desync_polls > 0 || o[i].flood_polls > 0 {
            all += 1;
            if o[i].confirmed_bad {
                confirmed += 1;
            } else if same(o[i].worst_verdict.as_str(), "LIKELY") {
                auto += 1;
            }
        }
        i += 1;
    }
    assert(v.take(i as int) =~= v);
    if all > 0 {
        let mut s = "Network guard (desync+flood) ran in ".to_owned();
        s.append(dec(all).as_str());
        s.append(" sessions — ");
        let detail = if confirmed > 0 && auto > 0 {
            let mut d = dec(confirmed);
            d.append(" you marked bad, ");
            d.append(dec(auto).as_str());
            d.append(" auto LIKELY");
            d
        } else if confirmed > 0 {
            let d = dec(confirmed);
            cat(d.as_str(), " you marked bad")
        } else {
            let d = dec(auto);
            cat(d.as_str(), " auto-detected LIKELY")
        };
        s.append(detail.as_str());
        push_text(p, s);
    }
}

/// The oldest of the sessions with the highest score, for at least one session.
pub open spec fn worst_at(s: Seq<SessionView>) -> int
    decreases s.len(),
{
    if s.len() <= 1 {
        0
    } else {
        let best = worst_at(s.drop_last());
        if s.last().worst_score > s[best].worst_score {
            s.len() - 1
        } else {
            best
        }
    }
}

/// The worst of the last ten sessions, once there are three.
pub open spec fn session_pattern(p: Seq<Seq<char>>, s: Seq<SessionView>) -> Seq<Seq<char>> {
    let newest = last_of(s, 10);
    let worst = newest[worst_at(newest)];
    with_if(
        p,
        s.len() >= 3,
        "Recent worst session: "@ + worst.worst_verdict + " ("@ + whole_text(
            worst.worst_score as int,
        ) + "%)"@,
    )
}

fn push_session_pattern(p: &mut Vec<String>, s: &Vec<Session>)
    ensures
        views(final(p)@) == session_pattern(views(old(p)@), session_views(s@)),
{
    assert(session_views(s@).len() == s.len());
    if s.len() < 3 {
        return ;
    }
    let from: usize = if s.len() > 10 {
        s.len() - 10
    } else {
        0
    };
    let ghost t = last_of(session_views(s@), 10);
    assert(t =~= session_views(s@).skip(from as int));
    let mut best: usize = from;
    let mut i: usize = from + 1;
    while i < s.len()
        invariant
            from < i <= s.len(),
            from <= best < i,
            t == session_views(s@).skip(from as int),
            best - from == worst_at(t.take(i - from)),
            p@ == old(p)@,
        decreases s.len() - i,
    {
        proof {
            let u = t.take(i - from + 1);
            assert(u.drop_last() =~= t.take(i - from));
            assert(u.last() == s@[i as int]@);
            assert(u[best - from] == s@[best as int]@);
        }
        if s[i].worst_score > s[best].worst_score {
            best = i;
        }
        i += 1;
    }
    assert(t.take(i - from) =~= t);
    assert(t[best - from] == s@[best as int]@);
    let mut text = "Recent worst session: ".to_owned();
    text.append(s[best].worst_verdict.as_str());
    text.append(" (");
    text.append(fmt0(s[best].worst_score).as_str());
    text.append("%)");
    push_text(p, text);
}

/// Everything that the records show, in words.
#[verifier::opaque]
pub open spec fn all_patterns(v: LearningView) -> Seq<Seq<char>> {
    let p = threshold_patterns(learned_thresholds(v));
    let p = profile_patterns(p, v.lobbies);
    let p = guard_pattern(p, v.outcomes);
    let p = p + improvement_hints(v);
    session_pattern(p, v.completed)
}

/// A summary of the records.
pub struct Insights {
    pub folded_lobbies: usize,
    pub fold_blob_bytes: usize,
    pub thresholds: AdaptiveThresholds,
    pub good_samples: usize,
    pub bad_samples: usize,
    pub marginal_samples: usize,
    pub good_feedback: u64,
    pub bad_feedback: u64,
    pub wan_latency: usize,
    pub conn_count: usize,
    pub matchmaking_latency: usize,
    pub mm_delta: usize,
    pub cheater_scores: usize,
    pub sessions_completed: usize,
    pub outcomes_tracked: usize,
    pub lobbies_tracked: usize,
    pub feedback_count: usize,
    /// At most ten.
    pub patterns: Vec<String>,
}

/// The counts of a summary.
pub open spec fn sums_up(r: Insights, v: LearningView) -> bool {
    &&& r.folded_lobbies == profile(Profile::Folded, v.lobbies).len()
    &&& r.fold_blob_bytes == match v.folded_blob {
        Some(b) => b.len(),
        None => 0,
    }
    &&& r.thresholds == learned_thresholds(v)
    &&& r.good_samples == profile(Profile::Good, v.lobbies).len()
    &&& r.bad_samples == profile(Profile::Bad, v.lobbies).len()
    &&& r.marginal_samples == profile(Profile::Marginal, v.lobbies).len()
    &&& r.good_feedback == mark_count(Mark::Good, v.feedback)
    &&& r.bad_feedback == mark_count(Mark::Bad, v.feedback)
    &&& r.wan_latency == v.history.wan_latency.len()
    &&& r.conn_count == v.history.conn_count.len()
    &&& r.matchmaking_latency == v.history.matchmaking_latency.len()
    &&& r.mm_delta == v.history.mm_delta.len()
    &&& r.cheater_scores == v.history.cheater_scores.len()
    &&& r.sessions_completed == v.completed.len()
    &&& r.outcomes_tracked == v.outcomes.len()
    &&& r.lobbies_tracked == v.lobbies.len()
    &&& r.feedback_count == v.feedback.len()
}

fn append_texts(p: &mut Vec<String>, more: &Vec<String>)
    ensures
        views(final(p)@) == views(old(p)@) + views(more@),
{
    let mut i: usize = 0;
    assert(views(p@) =~= views(old(p)@) + views(more@).take(0));
    while i < more.len()
        invariant
            i <= more.len(),
            views(p@) == views(old(p)@) + views(more@).take(i as int),
        decreases more.len() - i,
    {
        push_text(p, more[i].clone());
        assert(views(p@) =~= views(old(p)@) + views(more@).take(i + 1));
        i += 1;
    }
    assert(views(more@).take(i as int) =~= views(more@));
}

impl LearningEngine {
    #[verifier::rlimit(50)]
    fn patterns(&self, t: &AdaptiveThresholds) -> (r: Vec<String>)
        requires
            *t == learned_thresholds(self@),
        ensures
            views(r@) == crate::json::first_of(all_patterns(self@), 10),
    {
        proof {
            reveal(all_patterns);
        }
        let mut p: Vec<String> = Vec::new();
        push_threshold_patterns(&mut p, t);
        push_profile_patterns(&mut p, &self.lobbies);
        push_guard_pattern(&mut p, &self.outcomes);
        let hints = build_improvement_hints(self);
        append_texts(&mut p, &hints);
        push_session_pattern(&mut p, &self.completed);
        let ghost all = views(p@);
        assert(all.len() == p.len());
        p.truncate(10);
        assert(views(p@) =~= crate::json::first_of(all, 10));
        p
    }

    /// A summary of the records, with at most ten sentences on what they show.
    pub fn insights(&self) -> (r: Insights)
        ensures
            sums_up(r, self@),
            views(r.patterns@) == crate::json::first_of(all_patterns(self@), 10),
    {
        let t = self.thresholds();
        let p = self.patterns(&t);
        let folded = profile_conns(Profile::Folded, &self.lobbies);
        let good = profile_conns(Profile::Good, &self.lobbies);
        let bad = profile_conns(Profile::Bad, &self.lobbies);
        let marginal = profile_conns(Profile::Marginal, &self.lobbies);
        Insights {
            folded_lobbies: folded.len(),
            fold_blob_bytes: self.folded_archive_size(),
            thresholds: t,
            good_samples: good.len(),
            bad_samples: bad.len(),
            marginal_samples: marginal.len(),
            good_feedback: count_marks(Mark::Good, &self.feedback),
            bad_feedback: count_marks(Mark::Bad, &self.feedback),
            wan_latency: self.history.wan_latency.len(),
            conn_count: self.history.conn_count.len(),
            matchmaking_latency: self.history.matchmaking_latency.len(),
            mm_delta: self.history.mm_delta.len(),
            cheater_scores: self.history.cheater_scores.len(),
            sessions_completed: self.completed.len(),
            outcomes_tracked: self.outcomes.len(),
            lobbies_tracked: self.lobbies.len(),
            feedback_count: self.feedback.len(),
            patterns: p,
        }
    }
}

// ---------------------------------------------------------------------------------------------
// Calibration

/// How well the verdicts agree with the user's marks.
pub struct Calibration {
    pub feedback_total: usize,
    pub true_positives: u64,
    pub false_alarms: u64,
    pub missed_bad: u64,
    pub good_marks: u64,
    pub bad_marks: u64,
    pub needs_clean_marks: bool,
    /// The share of true alarms in tenths of a percent, once there was an alarm.
    pub precision_tenths: Option<u64>,
}

impl LearningEngine {
    /// How well the verdicts agree with the user's marks.
    pub fn calibration(&self) -> (r: Calibration)
        ensures
            r.feedback_total == self@.feedback.len(),
            r.true_positives == mark_count(Mark::TruePositive, self@.feedback),
            r.false_alarms == mark_count(Mark::FalseAlarm, self@.feedback),
            r.missed_bad == mark_count(Mark::Missed, self@.feedback),
            r.good_marks == mark_count(Mark::Good, self@.feedback),
            r.bad_marks == mark_count(Mark::Bad, self@.feedback),
            r.needs_clean_marks == (mark_count(Mark::Good, self@.feedback) < 5),
            match r.precision_tenths {
                Some(n) => r.true_positives + r.false_alarms > 0 && n == percent_tenths(
                    r.true_positives as nat,
                    (r.true_positives + r.false_alarms) as nat,
                ),
                None => r.true_positives + r.false_alarms == 0,
            },
    {
        let tp: u64 = count_marks(Mark::TruePositive, &self.feedback);
        let fa: u64 = count_marks(Mark::FalseAlarm, &self.feedback);
        let good: u64 = count_marks(Mark::Good, &self.feedback);
        proof {
            lemma_alarms(feedback_views(self.feedback@));
        }
        let all: u64 = tp + fa;
        let precision: Option<u64> = if all > 0 {
            Some(percent_tenths_of(tp, all))
        } else {
            None
        };
        Calibration {
            feedback_total: self.feedback.len(),
            true_positives: tp,
            false_alarms: fa,
            missed_bad: count_marks(Mark::Missed, &self.feedback),
            good_marks: good,
            bad_marks: count_marks(Mark::Bad, &self.feedback),
            needs_clean_marks: good < 5,
            precision_tenths: precision,
        }
    }
}

// ---------------------------------------------------------------------------------------------
// Similar lobbies

/// The bits of 0.55 in single precision: below it folds have nothing in common.
pub const LOW_SIMILARITY: u32 = 0x3f0c_cccd;

/// The positions of the lobbies whose folds have something in common with the current one, most
/// similar first, equally similar ones in their order.
pub open spec fn similar_ranking(l: Seq<LobbyView>, sims: Seq<u32>) -> Seq<(u64, usize)>
    decreases l.len(),
{
    if l.len() == 0 {
        Seq::empty()
    } else {
        let before = similar_ranking(l.drop_last(), sims);
        let k = l.len() - 1;
        if l.last().fold is Some && sims[k] > LOW_SIMILARITY {
            placed(before, (sims[k] as u64, k as usize))
        } else {
            before
        }
    }
}

/// The ranked lobbies come with the most similar first.
pub proof fn similar_ranking_is_largest_first(l: Seq<LobbyView>, sims: Seq<u32>)
    ensures
        largest_first(similar_ranking(l, sims)),
    decreases l.len(),
{
    if l.len() > 0 {
        similar_ranking_is_largest_first(l.drop_last(), sims);
        lemma_placed(
            similar_ranking(l.drop_last(), sims),
            (sims[l.len() - 1] as u64, (l.len() - 1) as usize),
        );
    }
}

/// A recorded lobby like the current one.
pub struct SimilarLobby {
    /// The bits of the similarity in single precision.
    pub similarity: u32,
    pub label: String,
    pub confidence: i64,
    pub conns: i64,
    pub phase: String,
    pub age_sec: i64,
}

/// A time in seconds, rounded to the nearest, halves away from zero.
pub open spec fn nearest_seconds(t: int) -> int {
    if t >= 0 {
        (t + 500_000) / 1_000_000
    } else {
        -((500_000 - t) / 1_000_000)
    }
}

fn age_of(now: i64, ts: i64) -> (r: i64)
    ensures
        r == nearest_seconds(now - ts),
{
    let t: i128 = now as i128 - ts as i128;
    if t >= 0 {
        ((t + 500_000) / 1_000_000) as i64
    } else {
        -(((500_000 - t) / 1_000_000) as i64)
    }
}

/// `s` describes the lobby `l` with the similarity `sim`.
pub open spec fn describes(s: SimilarLobby, l: LobbyView, sim: u64, now: i64) -> bool {
    &&& s.similarity == sim
    &&& s.label@ == l.label
    &&& s.confidence == l.confidence
    &&& s.conns == l.conns
    &&& s.phase@ == l.phase
    &&& s.age_sec == nearest_seconds(now - l.ts)
}

fn rank_similar(l: &Vec<LobbyEntry>, sims: &Vec<u32>) -> (r: Vec<(u64, usize)>)
    requires
        sims.len() == l.len(),
    ensures
        r@ == similar_ranking(lobby_views(l@), sims@),
        forall|i: int|
            0 <= i < r.len() ==> (#[trigger] r@[i]).1 < l.len() && r@[i].0 == sims@[r@[i].1 as int],
{
    let ghost v = lobby_views(l@);
    let mut out: Vec<(u64, usize)> = Vec::new();
    let mut i: usize = 0;
    while i < l.len()
        invariant
            i <= l.len(),
            sims.len() == l.len(),
            v == lobby_views(l@),
            out@ == similar_ranking(v.take(i as int), sims@),
            forall|k: int|
                0 <= k < out.len() ==> (#[trigger] out@[k]).1 < l.len() && out@[k].0
                    == sims@[out@[k].1 as int],
        decreases l.len() - i,
    {
        let ghost before = out@;
        proof {
            let u = v.take(i + 1);
            assert(u.drop_last() =~= v.take(i as int));
            assert(u.last() == l@[i as int]@);
            similar_ranking_is_largest_first(v.take(i as int), sims@);
            lemma_placed(before, (sims@[i as int] as u64, i));
        }
        if l[i].fold.is_some() && sims[i] > LOW_SIMILARITY {
            place(&mut out, sims[i] as u64, i);
            assert forall|k: int| 0 <= k < out.len() implies (#[trigger] out@[k]).1 < l.len()
                && out@[k].0 == sims@[out@[k].1 as int] by {
                if out@[k] != (sims@[i as int] as u64, i) {
                    assert(before.contains(out@[k]));
                }
            }
        }
        i += 1;
    }
    assert(v.take(i as int) =~= v);
    out
}

impl LearningEngine {
    /// The recorded lobbies most like the current one, at most `limit` of them. `sims` holds for
    /// each recorded lobby the bits of the similarity of its fold.
    pub fn find_similar_lobbies(&self, sims: &Vec<u32>, limit: usize, now: i64) -> (r: Vec<
        SimilarLobby,
    >)
        requires
            sims.len() == self.lobbies.len(),
        ensures
            r.len() == smaller(
                similar_ranking(self@.lobbies, sims@).len() as int,
                limit as int,
            ),
            forall|i: int|
                0 <= i < r.len() ==> describes(
                    #[trigger] r@[i],
                    self@.lobbies[similar_ranking(self@.lobbies, sims@)[i].1 as int],
                    similar_ranking(self@.lobbies, sims@)[i].0,
                    now,
                ),
    {
        let ranked = rank_similar(&self.lobbies, sims);
        let end: usize = if ranked.len() < limit {
            ranked.len()
        } else {
            limit
        };
        let mut out: Vec<SimilarLobby> = Vec::new();
        let mut i: usize = 0;
        while i < end
            invariant
                i <= end <= ranked.len(),
                out.len() == i,
                sims.len() == self.lobbies.len(),
                ranked@ == similar_ranking(self@.lobbies, sims@),
                forall|k: int|
                    0 <= k < ranked.len() ==> (#[trigger] ranked@[k]).1 < self.lobbies.len()
                        && ranked@[k].0 == sims@[ranked@[k].1 as int],
                forall|k: int|
                    0 <= k < i ==> describes(
                        #[trigger] out@[k],
                        self@.lobbies[ranked@[k].1 as int],
                        ranked@[k].0,
                        now,
                    ),
            decreases end - i,
        {
            let k: usize = ranked[i].1;
            let l = &self.lobbies[k];
            assert(self@.lobbies[k as int] == l@);
            let s = SimilarLobby {
                similarity: ranked[i].0 as u32,
                label: l.label.clone(),
                confidence: l.confidence,
                conns: l.conns,
                phase: l.phase.clone(),
                age_sec: age_of(now, l.ts),
            };
            out.push(s);
            i += 1;
        }
        out
    }
}

/// Which lobbies a profile is made of, by their label, or by whether they have a fold.
pub proof fn profiles_go_by_label(l: LobbyView)
    ensures
        in_profile(Profile::Good, l) <==> l.label == "CLEAN"@ || l.label == "USER_GOOD"@,
        in_profile(Profile::Bad, l) <==> l.label == "LIKELY"@ || l.label == "USER_BAD"@ || l.label
            == "USER_MARGINAL"@,
        in_profile(Profile::Marginal, l) <==> l.label == "POSSIBLE"@ || l.label
            == "USER_MARGINAL"@,
        in_profile(Profile::UserGood, l) <==> l.label == "USER_GOOD"@,
        in_profile(Profile::Folded, l) <==> l.fold is Some,
{
}

/// A new lobby joins the profiles that it belongs to, at their end, and no other.
pub proof fn lobbies_join_their_profiles(p: Profile, l: Seq<LobbyView>, x: LobbyView)
    ensures
        in_profile(p, x) ==> profile(p, l.push(x)) == profile(p, l).push(x),
        !in_profile(p, x) ==> profile(p, l.push(x)) == profile(p, l),
        conn_sum(l.push(x)) == conn_sum(l) + x.conns,
        profile(p, l).len() <= l.len(),
    decreases l.len(),
{
    assert(l.push(x).drop_last() =~= l);
    if l.len() > 0 {
        lobbies_join_their_profiles(p, l.drop_last(), l.last());
        assert(l.drop_last().push(l.last()) =~= l);
    }
}

/// What a mark says of the verdict that it came with: a clean mark on an alarm is a false alarm, a
/// bad one a true positive, and a bad mark on a clean verdict a miss.
pub proof fn marks_judge_the_verdict(f: Seq<FeedbackView>, x: FeedbackView)
    ensures
        ({
            let alarmed = x.verdict_at_feedback == "LIKELY"@ || x.verdict_at_feedback
                == "POSSIBLE"@;
            let g = f.push(x);
            &&& mark_count(Mark::Good, g) == mark_count(Mark::Good, f) + weigh(!x.bad_lobby, 1)
            &&& mark_count(Mark::Bad, g) == mark_count(Mark::Bad, f) + weigh(x.bad_lobby, 1)
            &&& mark_count(Mark::FalseAlarm, g) == mark_count(Mark::FalseAlarm, f) + weigh(
                !x.bad_lobby && alarmed,
                1,
            )
            &&& mark_count(Mark::TruePositive, g) == mark_count(Mark::TruePositive, f) + weigh(
                x.bad_lobby && alarmed,
                1,
            )
            &&& mark_count(Mark::Missed, g) == mark_count(Mark::Missed, f) + weigh(
                x.bad_lobby && x.verdict_at_feedback == "CLEAN"@,
                1,
            )
        }),
{
    assert(f.push(x).drop_last() =~= f);
}

/// Good and bad marks are all the marks there are.
pub proof fn marks_are_good_or_bad(f: Seq<FeedbackView>)
    ensures
        mark_count(Mark::Good, f) + mark_count(Mark::Bad, f) == f.len(),
        mark_count(Mark::FalseAlarm, f) <= mark_count(Mark::Good, f),
        mark_count(Mark::TruePositive, f) + mark_count(Mark::Missed, f) <= mark_count(Mark::Bad, f),
    decreases f.len(),
{
    reveal_strlit("CLEAN");
    reveal_strlit("LIKELY");
    reveal_strlit("POSSIBLE");
    assert("CLEAN"@.len() == 5 && "LIKELY"@.len() == 6 && "POSSIBLE"@.len() == 8);
    if f.len() > 0 {
        marks_are_good_or_bad(f.drop_last());
    }
}

/// How many hints there are: two ask for clean marks while no bad lobby is on, one tells of two
/// false alarms then, one of a missed lobby, one of a guard that helped, one of a bad session
/// without a guard, and one of five folds of clean lobbies.
pub proof fn hints_have_a_reason(v: LearningView)
    ensures
        ({
            let good = mark_count(Mark::Good, v.feedback);
            let bad = mark_count(Mark::Bad, v.feedback);
            let worst = v.active->0.worst_verdict;
            let calm = v.active is None || (worst != "LIKELY"@ && worst != "POSSIBLE"@ && worst
                != "USER_BAD"@ && worst != "USER_MARGINAL"@);
            let helped = exists|i: int|
                0 <= i < v.outcomes.len() && (#[trigger] v.outcomes[i]).user_marked_good
                    && v.outcomes[i].desync_polls >= 6;
            let unguarded = exists|i: int|
                0 <= i < v.outcomes.len() && (#[trigger] v.outcomes[i]).confirmed_bad
                    && v.outcomes[i].desync_polls == 0;
            improvement_hints(v).len() == weigh(good <= 2 && calm, 1) + weigh(
                good == 0 && bad >= 2 && calm,
                1,
            ) + weigh(mark_count(Mark::FalseAlarm, v.feedback) >= 2 && calm, 1) + weigh(
                mark_count(Mark::Missed, v.feedback) > 0,
                1,
            ) + weigh(helped, 1) + weigh(unguarded, 1) + weigh(
                profile(Profile::UserGood, v.lobbies).len() >= 5,
                1,
            )
        }),
{
}

/// How many patterns the learned limits make, and the profiles of lobbies.
pub proof fn patterns_have_a_reason(
    t: AdaptiveThresholds,
    p: Seq<Seq<char>>,
    lobbies: Seq<LobbyView>,
    s: Seq<SessionView>,
)
    ensures
        threshold_patterns(t).len() == weigh(t.source == ThresholdSource::Learned, 1) + weigh(
            t.conn_good_ceiling > 0,
            1,
        ) + weigh(0 < t.conn_marginal_low && t.conn_marginal_low < t.conn_marginal_high, 1),
        profile_patterns(p, lobbies).len() == p.len() + weigh(
            profile(Profile::Good, lobbies).len() >= 3,
            1,
        ) + weigh(profile(Profile::Bad, lobbies).len() >= 3, 1) + weigh(
            profile(Profile::Marginal, lobbies).len() >= 2,
            1,
        ),
        p.is_prefix_of(profile_patterns(p, lobbies)),
        session_pattern(p, s).len() == p.len() + weigh(s.len() >= 3, 1),
        p.is_prefix_of(session_pattern(p, s)),
{
    let q = profile_patterns(p, lobbies);
    assert(q.subrange(0, p.len() as int) =~= p);
    let r = session_pattern(p, s);
    assert(r.subrange(0, p.len() as int) =~= p);
}

/// How the sessions of the guard are counted: those in which it was on, and of these the ones
/// that the user confirmed as bad, and the others that were called likely.
pub proof fn guarded_sessions_are_counted(o: Seq<OutcomeView>, x: OutcomeView)
    ensures
        ({
            let (a, b) = (guarded_counts(o), guarded_counts(o.push(x)));
            let guarded = x.desync_polls > 0 || x.flood_polls > 0;
            &&& b.0 == a.0 + weigh(guarded, 1)
            &&& b.1 == a.1 + weigh(guarded && x.confirmed_bad, 1)
            &&& b.2 == a.2 + weigh(
                guarded && !x.confirmed_bad && x.worst_verdict == "LIKELY"@,
                1,
            )
        }),
{
    assert(o.push(x).drop_last() =~= o);
}

/// The worst session is the first with the highest score.
pub proof fn the_worst_session_scores_highest(s: Seq<SessionView>, i: int)
    requires
        0 <= i < s.len(),
    ensures
        0 <= worst_at(s) < s.len(),
        s[i].worst_score <= s[worst_at(s)].worst_score,
        i < worst_at(s) ==> s[i].worst_score < s[worst_at(s)].worst_score,
    decreases s.len(),
{
    if s.len() > 1 {
        let u = s.drop_last();
        let j = if i < u.len() {
            i
        } else {
            0
        };
        the_worst_session_scores_highest(u, j);
        assert(u[j] == s[j]);
        assert(u[worst_at(u)] == s[worst_at(u)]);
        assert(s.last() == s[s.len() - 1]);
    }
}

/// An age is the time in whole seconds, to the nearest.
pub proof fn ages_are_nearest(t: int)
    ensures
        -500_000 <= nearest_seconds(t) * 1_000_000 - t <= 500_000,
{
}

/// The patterns of all records are those of the limits, the profiles and the guard, then the hints,
/// then that of the sessions.
pub proof fn patterns_add_up(v: LearningView)
    ensures
        ({
            let t = learned_thresholds(v);
            let good = profile(Profile::Good, v.lobbies).len();
            let bad = profile(Profile::Bad, v.lobbies).len();
            let marginal = profile(Profile::Marginal, v.lobbies).len();
            all_patterns(v).len() == threshold_patterns(t).len() + weigh(good >= 3, 1) + weigh(
                bad >= 3,
                1,
            ) + weigh(marginal >= 2, 1) + weigh(guarded_counts(v.outcomes).0 > 0, 1)
                + improvement_hints(v).len() + weigh(v.completed.len() >= 3, 1)
        }),
{
    let t = learned_thresholds(v);
    let p1 = threshold_patterns(t);
    patterns_have_a_reason(t, p1, v.lobbies, v.completed);
    let p2 = profile_patterns(p1, v.lobbies);
    let p3 = guard_pattern(p2, v.outcomes);
    assert(p3.len() == p2.len() + weigh(guarded_counts(v.outcomes).0 > 0, 1));
    let p4 = p3 + improvement_hints(v);
    patterns_have_a_reason(t, p4, v.lobbies, v.completed);
    reveal(all_patterns);
}

/// How the guard is told of: by the lobbies that were marked bad, by those that were found likely,
/// or by both.
pub proof fn guards_are_told_of(confirmed: nat, auto: nat)
    ensures
        confirmed > 0 && auto > 0 ==> guard_detail(confirmed, auto) == decimal(confirmed)
            + " you marked bad, "@ + decimal(auto) + " auto LIKELY"@,
        confirmed > 0 && auto == 0 ==> guard_detail(confirmed, auto) == decimal(confirmed)
            + " you marked bad"@,
        confirmed == 0 ==> guard_detail(confirmed, auto) == decimal(auto)
            + " auto-detected LIKELY"@,
{
}

} // verus!
