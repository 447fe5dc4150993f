//! What an analysis found: a score, named signals and alerts.
use vstd::prelude::*;

use crate::text::{same, views};

verus! {

/// A named signal with its strength in millionths.
pub struct Signal {
    pub name: String,
    pub strength: i64,
}

/// The score in millionths with the signals and alerts behind it.
pub struct Findings {
    pub score: i64,
    pub signals: Vec<Signal>,
    pub alerts: Vec<String>,
}

#[verifier::ext_equal]
pub struct FindingsView {
    pub score: int,
    pub signals: Seq<(Seq<char>, int)>,
    pub alerts: Seq<Seq<char>>,
}

pub open spec fn signal_views(v: Seq<Signal>) -> Seq<(Seq<char>, int)> {
    v.map_values(|s: Signal| (s.name@, s.strength as int))
}

/// The strength of the first signal with this name.
pub open spec fn strength_of(signals: Seq<(Seq<char>, int)>, name: Seq<char>) -> Option<int>
    decreases signals.len(),
{
    if signals.len() == 0 {
        None
    } else if signals[0].0 == name {
        Some(signals[0].1)
    } else {
        strength_of(signals.skip(1), name)
    }
}

impl FindingsView {
    pub open spec fn none() -> FindingsView {
        FindingsView { score: 0, signals: Seq::empty(), alerts: Seq::empty() }
    }

    /// With one more signal, and an alert that tells of it.
    pub open spec fn noted(
        self,
        weight: int,
        name: Seq<char>,
        strength: int,
        alert: Seq<char>,
    ) -> FindingsView {
        FindingsView {
            score: self.score + weight,
            signals: self.signals.push((name, strength)),
            alerts: self.alerts.push(alert),
        }
    }

    /// With one more signal and no alert.
    pub open spec fn marked(self, weight: int, name: Seq<char>, strength: int) -> FindingsView {
        FindingsView {
            score: self.score + weight,
            signals: self.signals.push((name, strength)),
            alerts: self.alerts,
        }
    }
}

impl FindingsView {
    /// With a reason in place of a signal.
    pub open spec fn argued(self, weight: int, reason: Seq<char>) -> FindingsView {
        FindingsView {
            score: self.score + weight,
            signals: self.signals,
            alerts: self.alerts.push(reason),
        }
    }

    pub open spec fn shifted(self, weight: int) -> FindingsView {
        FindingsView { score: self.score + weight, signals: self.signals, alerts: self.alerts }
    }
}

impl View for Findings {
    type V = FindingsView;

    open spec fn view(&self) -> FindingsView {
        FindingsView {
            score: self.score as int,
            signals: signal_views(self.signals@),
            alerts: views(self.alerts@),
        }
    }
}

impl Findings {
    pub fn new() -> (r: Findings)
        ensures
            r@ == FindingsView::none(),
    {
        let r = Findings { score: 0, signals: Vec::new(), alerts: Vec::new() };
        assert(r@ =~= FindingsView::none());
        r
    }

    /// Adds a signal, and an alert that tells of it.
    pub fn note(&mut self, weight: i64, name: &str, strength: i64, alert: String)
        requires
            i64::MIN <= old(self)@.score + weight <= i64::MAX,
        ensures
            final(self)@ == old(self)@.noted(weight as int, name@, strength as int, alert@),
    {
        self.score = self.score + weight;
        self.signals.push(Signal { name: name.to_owned(), strength });
        self.alerts.push(alert);
        assert(self@ =~= old(self)@.noted(weight as int, name@, strength as int, alert@));
    }

    /// Adds a signal without an alert.
    pub fn mark(&mut self, weight: i64, name: &str, strength: i64)
        requires
            i64::MIN <= old(self)@.score + weight <= i64::MAX,
        ensures
            final(self)@ == old(self)@.marked(weight as int, name@, strength as int),
    {
        self.score = self.score + weight;
        self.signals.push(Signal { name: name.to_owned(), strength });
        assert(self@ =~= old(self)@.marked(weight as int, name@, strength as int));
    }
}

impl Findings {
    /// Adds a reason in place of a signal.
    pub fn argue(&mut self, weight: i64, reason: String)
        requires
            i64::MIN <= old(self)@.score + weight <= i64::MAX,
        ensures
            final(self)@ == old(self)@.argued(weight as int, reason@),
    {
        self.score = self.score + weight;
        self.alerts.push(reason);
        assert(self@ =~= old(self)@.argued(weight as int, reason@));
    }

    /// Changes the score alone.
    pub fn shift(&mut self, weight: i64)
        requires
            i64::MIN <= old(self)@.score + weight <= i64::MAX,
        ensures
            final(self)@ == old(self)@.shifted(weight as int),
    {
        self.score = self.score + weight;
        assert(self@ =~= old(self)@.shifted(weight as int));
    }
}

/// The strength of the first signal with this name.
pub fn find_strength(signals: &Vec<Signal>, name: &str) -> (r: Option<i64>)
    ensures
        match r {
            Some(n) => strength_of(signal_views(signals@), name@) == Some(n as int),
            None => strength_of(signal_views(signals@), name@) is None,
        },
{
    let ghost s = signal_views(signals@);
    let mut i: usize = 0;
    assert(s.skip(0) =~= s);
    while i < signals.len()
        invariant
            i <= signals.len(),
            s == signal_views(signals@),
            strength_of(s, name@) == strength_of(s.skip(i as int), name@),
        decreases signals.len() - i,
    {
        assert(s.skip(i as int)[0] == s[i as int]);
        assert(s.skip(i as int).skip(1) =~= s.skip(i + 1));
        if same(signals[i].name.as_str(), name) {
            return Some(signals[i].strength);
        }
        i += 1;
    }
    assert(s.skip(i as int) =~= Seq::empty());
    None
}

/// A signal of this name was given.
pub open spec fn named(signals: Seq<(Seq<char>, int)>, name: Seq<char>) -> bool {
    exists|i: int| 0 <= i < signals.len() && (#[trigger] signals[i]).0 == name
}

/// What a finding weighs where it is given.
pub open spec fn weigh(given: bool, weight: int) -> int {
    if given {
        weight
    } else {
        0
    }
}

pub(crate) proof fn lemma_given(s: Seq<(Seq<char>, int)>, name: Seq<char>, strength: int)
    ensures
        forall|n: Seq<char>| #[trigger]
            named(s.push((name, strength)), n) <==> named(s, n) || n == name,
        forall|x: (Seq<char>, int)| #[trigger]
            s.push((name, strength)).contains(x) <==> s.contains(x) || x == (name, strength),
{
    let t = s.push((name, strength));
    assert(t[s.len() as int] == (name, strength));
    assert forall|n: Seq<char>| #[trigger] named(t, n) <==> named(s, n) || n == name by {
        if named(s, n) {
            let k = choose|k: int| 0 <= k < s.len() && (#[trigger] s[k]).0 == n;
            assert(t[k].0 == n);
        }
        if named(t, n) && n != name {
            let k = choose|k: int| 0 <= k < t.len() && (#[trigger] t[k]).0 == n;
            assert(s[k].0 == n);
        }
    }
    assert forall|x: (Seq<char>, int)| #[trigger] t.contains(x) <==> s.contains(x) || x == (
        name,
        strength,
    ) by {
        if s.contains(x) {
            let k = choose|k: int| 0 <= k < s.len() && s[k] == x;
            assert(t[k] == x);
        }
        if t.contains(x) && x != (name, strength) {
            let k = choose|k: int| 0 <= k < t.len() && t[k] == x;
            assert(s[k] == x);
        }
    }
}

/// `t` is `s`, with one more signal where it is given.
pub open spec fn grown(
    s: Seq<(Seq<char>, int)>,
    t: Seq<(Seq<char>, int)>,
    given: bool,
    name: Seq<char>,
    strength: int,
) -> bool {
    t == if given {
        s.push((name, strength))
    } else {
        s
    }
}

/// A chain of signals, each given or not: of each name there is one exactly where it was given.
pub open spec fn chained(
    s: Seq<(Seq<char>, int)>,
    given: Seq<bool>,
    names: Seq<Seq<char>>,
    strengths: Seq<int>,
) -> bool
    decreases given.len(),
{
    if given.len() == 0 || names.len() != given.len() || strengths.len() != given.len() {
        s.len() == 0
    } else {
        exists|t: Seq<(Seq<char>, int)>|
            chained(t, given.drop_last(), names.drop_last(), strengths.drop_last())
                && #[trigger] grown(t, s, given.last(), names.last(), strengths.last())
    }
}

/// Names that differ in length, or else in their first character.
pub open spec fn apart(names: Seq<Seq<char>>) -> bool {
    forall|i: int, j: int|
        0 <= i < j < names.len() ==> (#[trigger] names[i]) != (#[trigger] names[j])
}

pub(crate) proof fn lemma_chained(
    s: Seq<(Seq<char>, int)>,
    given: Seq<bool>,
    names: Seq<Seq<char>>,
    strengths: Seq<int>,
)
    requires
        chained(s, given, names, strengths),
        names.len() == given.len(),
        strengths.len() == given.len(),
        apart(names),
    ensures
        forall|i: int|
            0 <= i < names.len() ==> (named(s, #[trigger] names[i]) <==> given[i]) && (given[i]
                ==> s.contains((names[i], strengths[i]))),
        forall|n: Seq<char>| named(s, n) ==> names.contains(n),
    decreases given.len(),
{
    if given.len() > 0 {
        let g = given.drop_last();
        let ns = names.drop_last();
        let st = strengths.drop_last();
        let t = choose|t: Seq<(Seq<char>, int)>|
            chained(t, g, ns, st) && #[trigger] grown(
                t,
                s,
                given.last(),
                names.last(),
                strengths.last(),
            );
        assert forall|i: int, j: int| 0 <= i < j < ns.len() implies (#[trigger] ns[i]) != (
        #[trigger] ns[j]) by {
            assert(names[i] != names[j]);
        }
        lemma_chained(t, g, ns, st);
        lemma_given(t, names.last(), strengths.last());
        let k = names.len() - 1;
        assert forall|i: int| 0 <= i < names.len() implies (named(s, #[trigger] names[i])
            <==> given[i]) && (given[i] ==> s.contains((names[i], strengths[i]))) by {
            if i < k {
                assert(ns[i] == names[i]);
                assert(names[i] != names[k]);
            } else if !given[k] {
                if named(t, names[k]) {
                    let j = choose|j: int| 0 <= j < ns.len() && ns[j] == names[k];
                    assert(names[j] != names[k]);
                }
            }
        }
        assert forall|n: Seq<char>| named(s, n) implies names.contains(n) by {
            if named(t, n) {
                let j = choose|j: int| 0 <= j < ns.len() && ns[j] == n;
                assert(names[j] == n);
            } else {
                assert(names[k] == n);
            }
        }
    } else {
        assert forall|n: Seq<char>| named(s, n) implies names.contains(n) by {
        }
    }
}

/// One more link of a chain.
pub(crate) proof fn lemma_link(
    s: Seq<(Seq<char>, int)>,
    t: Seq<(Seq<char>, int)>,
    given: Seq<bool>,
    names: Seq<Seq<char>>,
    strengths: Seq<int>,
    g: bool,
    name: Seq<char>,
    strength: int,
)
    requires
        chained(s, given, names, strengths),
        names.len() == given.len(),
        strengths.len() == given.len(),
        grown(s, t, g, name, strength),
    ensures
        chained(t, given.push(g), names.push(name), strengths.push(strength)),
{
    assert(given.push(g).drop_last() =~= given);
    assert(names.push(name).drop_last() =~= names);
    assert(strengths.push(strength).drop_last() =~= strengths);
    assert(grown(
        s,
        t,
        given.push(g).last(),
        names.push(name).last(),
        strengths.push(strength).last(),
    ));
}

/// A text that was pushed is there, and so is what was there before.
pub(crate) proof fn lemma_pushed(s: Seq<Seq<char>>, t: Seq<char>)
    ensures
        forall|y: Seq<char>| #[trigger] s.push(t).contains(y) <==> s.contains(y) || y == t,
{
    let u = s.push(t);
    assert(u[s.len() as int] == t);
    assert forall|y: Seq<char>| #[trigger] u.contains(y) <==> s.contains(y) || y == t by {
        if s.contains(y) {
            let k = choose|k: int| 0 <= k < s.len() && s[k] == y;
            assert(u[k] == y);
        }
        if u.contains(y) && y != t {
            let k = choose|k: int| 0 <= k < u.len() && u[k] == y;
            assert(s[k] == y);
        }
    }
}

} // verus!
