//! The steps of a poll, from the snapshot to the advice.
use vstd::prelude::*;

use crate::ai_advisor::AiContext;
use crate::enrich::RoleRule;
use crate::fixed::{divide, lemma_quotient, quotient, LIMIT, ONE};
use crate::information_flow::{
    bits_fit, fingerprint, network_state, packet_byte_fingerprint, state_from_snapshot, state_key,
    FlowBits, FlowObservation, FlowStep, InformationFlowTracker,
};
use crate::json::Json;
use crate::learning::LearningEngine;
use crate::network_session::{
    claimed_game, game_label, jitter, jitter_of, poll_kind, session_roles, NetworkSessionScorer,
    PollKind, PollStart,
};
use crate::session_risk::{LiveCase, SessionRisk};
use crate::signals::{signal_views, Signal};
use crate::snapshot::{conn_total, connections};
use crate::text::{dup_texts, views};

verus! {

/// A poll that has begun: its phase, and what there is to weigh where a lobby is to be judged.
pub struct Opening {
    pub start: PollStart,
    pub seen: Option<FlowObservation>,
}

fn dup_signals(v: &Vec<Signal>) -> (r: Vec<Signal>)
    ensures
        signal_views(r@) == signal_views(v@),
{
    let mut out: Vec<Signal> = Vec::new();
    let mut i: usize = 0;
    while i < v.len()
        invariant
            i <= v.len(),
            signal_views(out@) =~= signal_views(v@).take(i as int),
        decreases v.len() - i,
    {
        let ghost before = out@;
        out.push(Signal { name: v[i].name.clone(), strength: v[i].strength });
        assert(signal_views(out@) =~= signal_views(before).push(
            (v@[i as int].name@, v@[i as int].strength as int),
        ));
        i += 1;
    }
    assert(signal_views(v@).take(i as int) =~= signal_views(v@));
    out
}

fn dup_numbers(v: &Vec<i64>) -> (r: Vec<i64>)
    ensures
        r@ == v@,
{
    let mut out: Vec<i64> = Vec::new();
    let mut i: usize = 0;
    while i < v.len()
        invariant
            i <= v.len(),
            out@ == v@.take(i as int),
        decreases v.len() - i,
    {
        out.push(v[i]);
        assert(out@ =~= v@.take(i + 1));
        i += 1;
    }
    assert(v@.take(i as int) =~= v@);
    out
}

impl NetworkSessionScorer {
    /// Begins a poll. Where there is a lobby to judge, the step that the network took is observed
    /// too; its logarithms are then called for.
    pub fn open_poll(
        &mut self,
        flow: &mut InformationFlowTracker,
        rules: &Vec<RoleRule>,
        snapshot: &Json,
        insights: &Json,
        persisted_peak: i64,
    ) -> (r: Opening)
        requires
            old(self)@.wf(),
        ensures
            (final(self)@, r.start.phase@) == old(self)@.begun(
                snapshot@,
                insights@,
                session_roles(rules@, snapshot@),
                persisted_peak as int,
            ),
            final(self)@.wf(),
            r.start.game@ == claimed_game(snapshot@, insights@),
            r.start.game_label@ == game_label(snapshot@, insights@),
            r.start.kind == poll_kind(r.start.game@, r.start.phase@),
            r.seen is Some <==> r.start.kind == PollKind::Live,
            r.seen is None ==> final(flow)@ == old(flow)@,
            r.seen is Some ==> {
                let state = network_state(snapshot@, conn_total(snapshot@), r.start.phase@);
                &&& final(flow)@ == old(flow)@.moved(state_key(state), fingerprint(snapshot@))
                &&& r.seen->0.shows(old(flow)@, state, fingerprint(snapshot@))
                &&& r.seen->0.can_be_weighed()
            },
    {
        let start = self.begin_poll(rules, snapshot, insights, persisted_peak);
        let seen = match start.kind {
            PollKind::Live => {
                let state = state_from_snapshot(
                    snapshot,
                    connections(snapshot),
                    start.phase.as_str(),
                );
                Some(flow.observe(&state, &packet_byte_fingerprint(snapshot)))
            },
            _ => None,
        };
        Opening { start, seen }
    }

    /// Weighs what a poll observed with its logarithms, and gathers its case.
    pub fn weigh_poll(
        &self,
        flow: &mut InformationFlowTracker,
        engine: &LearningEngine,
        rules: &Vec<RoleRule>,
        snapshot: &Json,
        insights: &Json,
        start: &PollStart,
        seen: &FlowObservation,
        bits: FlowBits,
    ) -> (r: (FlowStep, LiveCase))
        requires
            self@.wf(),
            seen.can_be_weighed(),
            bits_fit(bits),
        ensures
            final(flow)@ == old(flow)@.weighed(*seen, bits),
            r.0.weighs(final(flow)@, *seen, bits),
            r.1.describes(self@, engine@, rules@, snapshot@, insights@, start.phase@, r.0),
            0 <= r.1.base.confidence <= 100_000_000,
            0 <= r.1.signal_score <= 100_000_000,
    {
        let step = flow.step(seen, bits);
        let case = self.build_case(rules, engine, snapshot, insights, start.phase.as_str(), &step);
        (step, case)
    }

    /// What the advisor is told of a poll that was judged.
    pub fn advice_context(&self, start: &PollStart, case: &LiveCase, risk: &SessionRisk) -> (r:
        AiContext)
        requires
            self@.wf(),
            0 <= case.base.confidence <= 100_000_000,
            -LIMIT <= risk.adjusted <= LIMIT,
            -LIMIT <= risk.score <= LIMIT,
        ensures
            r.wf(),
            r.phase@ == start.phase@,
            r.conns == case.conns,
            r.base_score == quotient(case.base.confidence as int, 100),
            r.adjusted_score == risk.adjusted,
            r.final_score == risk.score,
            r.final_label@ == risk.verdict.label@,
            views(r.learn_notes@) == views(risk.learn_notes@),
            views(r.base_reasons@) == views(case.base.reasons@),
            signal_views(r.signals@) == signal_views(case.signals@),
            r.mm_delta == case.base.mm_delta,
            r.wan_jitter == jitter(self@.wan_history),
            r.server_jitter == case.server_jitter,
            r.conn_history@ == self@.conn_history,
            r.score_history@ == self@.score_history,
    {
        proof {
            lemma_quotient(case.base.confidence as int, 100, 0, ONE as int);
        }
        AiContext {
            phase: start.phase.clone(),
            conns: case.conns,
            base_score: divide(case.base.confidence as i128, 100) as i64,
            adjusted_score: risk.adjusted,
            final_score: risk.score,
            final_label: risk.verdict.label.clone(),
            learn_notes: dup_texts(&risk.learn_notes),
            base_reasons: dup_texts(&case.base.reasons),
            signals: dup_signals(&case.signals),
            mm_delta: case.base.mm_delta,
            wan_jitter: jitter_of(self.wan_history()),
            server_jitter: case.server_jitter,
            conn_history: dup_numbers(self.conn_history()),
            score_history: dup_numbers(self.score_history()),
        }
    }
}

} // verus!
