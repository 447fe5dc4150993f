//! Counting by name.
use vstd::prelude::*;

use crate::text::{
    before, lemma_text_less_total, lemma_text_less_trans, same, text_less, views,
};

verus! {

/// How often each name was counted, in the order in which the names first came.
pub struct Tally {
    entries: Vec<(String, u64)>,
}

/// The sum of both, up to the largest `u64`.
pub open spec fn plus(a: u64, b: u64) -> u64 {
    if a + b <= u64::MAX {
        (a + b) as u64
    } else {
        u64::MAX
    }
}

/// One more, up to the largest `u64`.
pub open spec fn plus_one(n: u64) -> u64 {
    plus(n, 1)
}

/// The count under `name`; 0 where the name was never counted.
pub open spec fn count_in(s: Seq<(Seq<char>, u64)>, name: Seq<char>) -> u64
    decreases s.len(),
{
    if s.len() == 0 {
        0
    } else if s[0].0 == name {
        s[0].1
    } else {
        count_in(s.skip(1), name)
    }
}

/// The counts after `n` was added under `name`.
pub open spec fn added(s: Seq<(Seq<char>, u64)>, name: Seq<char>, n: u64) -> Seq<(Seq<char>, u64)>
    decreases s.len(),
{
    if s.len() == 0 {
        seq![(name, n)]
    } else if s[0].0 == name {
        s.update(0, (name, plus(s[0].1, n)))
    } else {
        seq![s[0]] + added(s.skip(1), name, n)
    }
}

/// The counts after `name` was counted once more.
pub open spec fn counted(s: Seq<(Seq<char>, u64)>, name: Seq<char>) -> Seq<(Seq<char>, u64)> {
    added(s, name, 1)
}

/// The counts of a whole list of names.
pub open spec fn tally_of(names: Seq<Seq<char>>) -> Seq<(Seq<char>, u64)>
    decreases names.len(),
{
    if names.len() == 0 {
        Seq::empty()
    } else {
        counted(tally_of(names.drop_last()), names.last())
    }
}

/// How often `name` stands in `names`.
pub open spec fn occurrences(names: Seq<Seq<char>>, name: Seq<char>) -> nat
    decreases names.len(),
{
    if names.len() == 0 {
        0
    } else {
        occurrences(names.drop_last(), name) + if names.last() == name {
            1nat
        } else {
            0nat
        }
    }
}

pub(crate) proof fn lemma_added(
    s: Seq<(Seq<char>, u64)>,
    name: Seq<char>,
    n: u64,
    other: Seq<char>,
)
    ensures
        count_in(added(s, name, n), other) == if other == name {
            plus(count_in(s, other), n)
        } else {
            count_in(s, other)
        },
    decreases s.len(),
{
    if s.len() == 0 {
        let t = seq![(name, n)];
        assert(t.skip(1) =~= Seq::empty());
        assert(count_in(t.skip(1), other) == 0);
    } else if s[0].0 == name {
        let t = added(s, name, n);
        assert(t.skip(1) =~= s.skip(1));
    } else {
        lemma_added(s.skip(1), name, n, other);
        let t = added(s, name, n);
        assert(t.skip(1) =~= added(s.skip(1), name, n));
    }
}

/// The tally of a list holds, under each name, how often the list has it.
pub proof fn tally_counts_occurrences(names: Seq<Seq<char>>, name: Seq<char>)
    requires
        names.len() <= u64::MAX,
    ensures
        count_in(tally_of(names), name) == occurrences(names, name),
        occurrences(names, name) <= names.len(),
    decreases names.len(),
{
    if names.len() > 0 {
        tally_counts_occurrences(names.drop_last(), name);
        lemma_added(tally_of(names.drop_last()), names.last(), 1, name);
    }
}

spec fn entry_seq(v: Seq<(String, u64)>) -> Seq<(Seq<char>, u64)> {
    v.map_values(|e: (String, u64)| (e.0@, e.1))
}

/// The sum of both, up to the largest `u64`.
pub(crate) fn sat_add(a: u64, b: u64) -> (r: u64)
    ensures
        r == plus(a, b),
{
    if a <= u64::MAX - b {
        a + b
    } else {
        u64::MAX
    }
}

impl View for Tally {
    type V = Seq<(Seq<char>, u64)>;

    closed spec fn view(&self) -> Seq<(Seq<char>, u64)> {
        entry_seq(self.entries@)
    }
}

impl Tally {
    pub fn new() -> (r: Tally)
        ensures
            r@ == Seq::<(Seq<char>, u64)>::empty(),
    {
        let r = Tally { entries: Vec::new() };
        assert(r@ =~= Seq::<(Seq<char>, u64)>::empty());
        r
    }

    /// The count under `name`; 0 where the name was never counted.
    pub fn count(&self, name: &str) -> (r: u64)
        ensures
            r == count_in(self@, name@),
    {
        let mut i: usize = 0;
        assert(self@.skip(0) =~= self@);
        while i < self.entries.len()
            invariant
                i <= self.entries.len(),
                count_in(self@, name@) == count_in(self@.skip(i as int), name@),
            decreases self.entries.len() - i,
        {
            assert(self@.skip(i as int)[0] == self@[i as int]);
            if same(self.entries[i].0.as_str(), name) {
                return self.entries[i].1;
            }
            assert(self@.skip(i as int).skip(1) =~= self@.skip(i + 1));
            i += 1;
        }
        assert(self@.skip(i as int) =~= Seq::empty());
        0
    }

    /// Counts `name` once more.
    pub fn add(&mut self, name: &str)
        ensures
            final(self)@ == counted(old(self)@, name@),
    {
        self.add_n(name, 1);
    }

    /// Adds `n` under `name`.
    pub fn add_n(&mut self, name: &str, n: u64)
        ensures
            final(self)@ == added(old(self)@, name@, n),
    {
        let mut i: usize = 0;
        let ghost s = self@;
        assert(s.take(0) + added(s.skip(0), name@, n) =~= added(s, name@, n)) by {
            assert(s.skip(0) =~= s);
        }
        while i < self.entries.len()
            invariant
                i <= self.entries.len(),
                s == old(self)@,
                self@ == s,
                added(s, name@, n) == s.take(i as int) + added(s.skip(i as int), name@, n),
            decreases self.entries.len() - i,
        {
            let ghost t = s.skip(i as int);
            assert(t[0] == s[i as int]);
            if same(self.entries[i].0.as_str(), name) {
                let m: u64 = sat_add(self.entries[i].1, n);
                self.entries[i] = (name.to_owned(), m);
                assert(self@ =~= s.update(i as int, (name@, m)));
                assert(s.take(i as int) + t.update(0, (name@, m)) =~= self@);
                return ;
            }
            proof {
                assert(t.skip(1) =~= s.skip(i + 1));
                assert(s.take(i as int) + (seq![t[0]] + added(t.skip(1), name@, n)) =~= s.take(
                    i + 1,
                ) + added(s.skip(i + 1), name@, n));
            }
            i += 1;
        }
        assert(s.skip(i as int) =~= Seq::empty());
        self.entries.push((name.to_owned(), n));
        assert(self@ =~= s.push((name@, n)));
        assert(s.take(i as int) + seq![(name@, n)] =~= s.push((name@, n)));
    }

    pub fn len(&self) -> (r: usize)
        ensures
            r == self@.len(),
    {
        self.entries.len()
    }

    pub fn name_at(&self, i: usize) -> (r: &str)
        requires
            i < self@.len(),
        ensures
            r@ == self@[i as int].0,
    {
        self.entries[i].0.as_str()
    }

    pub fn count_at(&self, i: usize) -> (r: u64)
        requires
            i < self@.len(),
        ensures
            r == self@[i as int].1,
    {
        self.entries[i].1
    }

    /// The tally of a list of names.
    pub fn of(names: &Vec<String>) -> (r: Tally)
        ensures
            r@ == tally_of(views(names@)),
    {
        let mut t = Tally::new();
        let mut i: usize = 0;
        while i < names.len()
            invariant
                i <= names.len(),
                t@ == tally_of(views(names@).take(i as int)),
            decreases names.len() - i,
        {
            t.add(names[i].as_str());
            proof {
                let n = views(names@).take(i + 1);
                assert(n.drop_last() =~= views(names@).take(i as int));
            }
            i += 1;
        }
        assert(views(names@).take(i as int) =~= views(names@));
        t
    }
}

/// `a` ranks above `b`: its count is higher, or as high and its name comes first.
pub open spec fn ranks_above(a: (Seq<char>, u64), b: (Seq<char>, u64)) -> bool {
    a.1 > b.1 || (a.1 == b.1 && text_less(a.0, b.0))
}

pub open spec fn is_ranked(s: Seq<(Seq<char>, u64)>) -> bool {
    forall|i: int, j: int|
        0 <= i < j < s.len() ==> !ranks_above(#[trigger] s[j], #[trigger] s[i])
}

pub open spec fn name_counts(v: Seq<(String, u64)>) -> Seq<(Seq<char>, u64)> {
    v.map_values(|e: (String, u64)| (e.0@, e.1))
}

proof fn lemma_ranks_above(a: (Seq<char>, u64), b: (Seq<char>, u64), c: (Seq<char>, u64))
    requires
        ranks_above(a, b),
        !ranks_above(c, b),
    ensures
        !ranks_above(c, a),
{
    lemma_text_less_total(a.0, c.0);
    lemma_text_less_total(b.0, c.0);
    if text_less(a.0, b.0) && text_less(b.0, c.0) {
        lemma_text_less_trans(a.0, b.0, c.0);
    }
    if text_less(c.0, a.0) && text_less(a.0, b.0) {
        lemma_text_less_trans(c.0, a.0, b.0);
    }
}

/// Puts an entry in its place among ranked ones.
fn place(list: &mut Vec<(String, u64)>, name: &str, n: u64)
    requires
        is_ranked(name_counts(old(list)@)),
    ensures
        is_ranked(name_counts(final(list)@)),
        name_counts(final(list)@).to_multiset() == name_counts(old(list)@).to_multiset().insert(
            (name@, n),
        ),
        final(list).len() == old(list).len() + 1,
{
    let ghost s = name_counts(list@);
    let ghost x = (name@, n);
    let mut at: usize = 0;
    while at < list.len() && !(n > list[at].1 || (n == list[at].1 && before(
        name,
        list[at].0.as_str(),
    )))
        invariant
            at <= list.len(),
            list@ == old(list)@,
            s == name_counts(list@),
            x == (name@, n),
            forall|j: int| 0 <= j < at ==> !ranks_above(x, #[trigger] s[j]),
        decreases list.len() - at,
    {
        assert(s[at as int] == (list@[at as int].0@, list@[at as int].1));
        at += 1;
    }
    list.insert(at, (name.to_owned(), n));
    proof {
        if at < s.len() {
            assert(s[at as int] == (old(list)@[at as int].0@, old(list)@[at as int].1));
        }
        let after = name_counts(list@);
        assert(after =~= s.insert(at as int, x));
        lemma_insert_multiset(s, at as int, x);
        assert forall|i: int, j: int| 0 <= i < j < after.len() implies !ranks_above(
            #[trigger] after[j],
            #[trigger] after[i],
        ) by {
            if j == at {
                assert(after[i] == s[i]);
            } else if i == at {
                assert(after[j] == s[j - 1]);
                if at < j - 1 {
                    lemma_ranks_above(x, s[at as int], s[j - 1]);
                } else {
                    lemma_text_less_total(x.0, s[at as int].0);
                }
            } else {
                let a = if i < at {
                    i
                } else {
                    i - 1
                };
                let b = if j < at {
                    j
                } else {
                    j - 1
                };
                assert(after[i] == s[a] && after[j] == s[b]);
            }
        }
    }
}

/// The entries of a tally, highest count first; equal counts in the order of their names.
pub fn ranking(t: &Tally) -> (r: Vec<(String, u64)>)
    ensures
        is_ranked(name_counts(r@)),
        name_counts(r@).to_multiset() == t@.to_multiset(),
        r.len() == t@.len(),
{
    let mut out: Vec<(String, u64)> = Vec::new();
    let mut i: usize = 0;
    assert(name_counts(out@) =~= t@.take(0));
    while i < t.len()
        invariant
            i <= t@.len(),
            out.len() == i,
            is_ranked(name_counts(out@)),
            name_counts(out@).to_multiset() == t@.take(i as int).to_multiset(),
        decreases t@.len() - i,
    {
        proof {
            broadcast use vstd::seq_lib::group_to_multiset_ensures;
            assert(t@.take(i + 1) =~= t@.take(i as int).push(t@[i as int]));
        }
        place(&mut out, t.name_at(i), t.count_at(i));
        i += 1;
    }
    assert(t@.take(i as int) =~= t@);
    out
}

pub(crate) proof fn lemma_insert_multiset<A>(s: Seq<A>, at: int, x: A)
    requires
        0 <= at <= s.len(),
    ensures
        s.insert(at, x).to_multiset() == s.to_multiset().insert(x),
{
    broadcast use vstd::seq_lib::group_to_multiset_ensures;
    let head = s.take(at);
    let tail = s.skip(at);
    vstd::seq_lib::lemma_multiset_commutative(head, tail);
    vstd::seq_lib::lemma_multiset_commutative(head.push(x), tail);
    assert(s =~= head + tail);
    assert(s.insert(at, x) =~= head.push(x) + tail);
    assert(head.push(x).to_multiset() =~= head.to_multiset().insert(x));
    assert(s.insert(at, x).to_multiset() =~= s.to_multiset().insert(x));
}

// ---------------------------------------------------------------------------------------------
// The order of the names

/// `s` with the entry `e` before the first one whose name comes later.
pub open spec fn put_by_name(s: Seq<(Seq<char>, u64)>, e: (Seq<char>, u64)) -> Seq<
    (Seq<char>, u64),
>
    decreases s.len(),
{
    if s.len() == 0 {
        seq![e]
    } else if text_less(e.0, s[0].0) {
        seq![e] + s
    } else {
        seq![s[0]] + put_by_name(s.skip(1), e)
    }
}

/// The counts in the order of their names.
pub open spec fn by_name(s: Seq<(Seq<char>, u64)>) -> Seq<(Seq<char>, u64)>
    decreases s.len(),
{
    if s.len() == 0 {
        Seq::empty()
    } else {
        put_by_name(by_name(s.drop_last()), s.last())
    }
}

/// The entries of a tally in the order of their names.
pub fn name_order(t: &Tally) -> (r: Vec<(String, u64)>)
    ensures
        name_counts(r@) == by_name(t@),
{
    let mut out: Vec<(String, u64)> = Vec::new();
    let mut i: usize = 0;
    assert(name_counts(out@) =~= Seq::empty());
    while i < t.len()
        invariant
            i <= t@.len(),
            name_counts(out@) == by_name(t@.take(i as int)),
        decreases t@.len() - i,
    {
        let ghost s = name_counts(out@);
        let ghost e = t@[i as int];
        let mut at: usize = 0;
        assert(s.take(0) + put_by_name(s.skip(0), e) =~= put_by_name(s, e)) by {
            assert(s.skip(0) =~= s);
        }
        while at < out.len() && !before(t.name_at(i), out[at].0.as_str())
            invariant
                at <= out.len(),
                i < t@.len(),
                s == name_counts(out@),
                e == t@[i as int],
                put_by_name(s, e) == s.take(at as int) + put_by_name(s.skip(at as int), e),
            decreases out.len() - at,
        {
            proof {
                let u = s.skip(at as int);
                assert(u[0] == s[at as int] && s[at as int].0 == out@[at as int].0@);
                assert(u.skip(1) =~= s.skip(at + 1));
                assert(s.take(at as int) + (seq![u[0]] + put_by_name(u.skip(1), e)) =~= s.take(
                    at + 1,
                ) + put_by_name(s.skip(at + 1), e));
            }
            at += 1;
        }
        out.insert(at, (t.name_at(i).to_owned(), t.count_at(i)));
        proof {
            let u = s.skip(at as int);
            if u.len() > 0 {
                assert(u[0] == s[at as int]);
            }
            assert(name_counts(out@) =~= s.insert(at as int, e));
            assert(s.take(at as int) + (seq![e] + u) =~= s.insert(at as int, e));
            if u.len() == 0 {
                assert(seq![e] + u =~= seq![e]);
            }
            let n = t@.take(i + 1);
            assert(n.drop_last() =~= t@.take(i as int));
        }
        i += 1;
    }
    assert(t@.take(i as int) =~= t@);
    out
}

/// Each name stands once.
pub open spec fn names_once(s: Seq<(Seq<char>, u64)>) -> bool {
    forall|i: int, j: int|
        0 <= i < s.len() && 0 <= j < s.len() && i != j ==> (#[trigger] s[i]).0 != (
        #[trigger] s[j]).0
}

spec fn named(s: Seq<(Seq<char>, u64)>, name: Seq<char>) -> bool {
    exists|i: int| 0 <= i < s.len() && (#[trigger] s[i]).0 == name
}

proof fn lemma_put_by_name(s: Seq<(Seq<char>, u64)>, e: (Seq<char>, u64), name: Seq<char>)
    ensures
        named(put_by_name(s, e), name) <==> named(s, name) || e.0 == name,
        !named(s, e.0) ==> count_in(put_by_name(s, e), name) == if e.0 == name {
            e.1
        } else {
            count_in(s, name)
        },
    decreases s.len(),
{
    let r = put_by_name(s, e);
    if s.len() == 0 {
        assert(r[0] == e);
        assert(r.skip(1) =~= Seq::empty());
        assert(count_in(r.skip(1), name) == 0);
    } else if text_less(e.0, s[0].0) {
        assert(r.skip(1) =~= s);
        assert(r[0] == e);
        assert(forall|i: int| 0 <= i < s.len() ==> s[i] == #[trigger] r[i + 1]);
        assert(forall|i: int| 1 <= i < r.len() ==> #[trigger] r[i] == s[i - 1]);
    } else {
        let t = s.skip(1);
        lemma_put_by_name(t, e, name);
        assert(r.skip(1) =~= put_by_name(t, e));
        assert(r[0] == s[0]);
        lemma_named_tail(r, name);
        lemma_named_tail(s, name);
        lemma_named_tail(s, e.0);
    }
}

proof fn lemma_named_tail(s: Seq<(Seq<char>, u64)>, name: Seq<char>)
    requires
        s.len() > 0,
    ensures
        named(s, name) <==> s[0].0 == name || named(s.skip(1), name),
{
    let t = s.skip(1);
    if named(s, name) {
        let i = choose|i: int| 0 <= i < s.len() && (#[trigger] s[i]).0 == name;
        if i > 0 {
            assert(t[i - 1] == s[i]);
        }
    }
    if named(t, name) {
        let i = choose|i: int| 0 <= i < t.len() && (#[trigger] t[i]).0 == name;
        assert(s[i + 1] == t[i]);
    }
    if s[0].0 == name {
        assert(named(s, name));
    }
}

proof fn lemma_count_of_last(s: Seq<(Seq<char>, u64)>, name: Seq<char>)
    requires
        s.len() > 0,
    ensures
        count_in(s, name) == if named(s.drop_last(), name) {
            count_in(s.drop_last(), name)
        } else if s.last().0 == name {
            s.last().1
        } else {
            0
        },
    decreases s.len(),
{
    let d = s.drop_last();
    if s.len() == 1 {
        assert(s.skip(1) =~= Seq::empty());
        assert(count_in(s.skip(1), name) == 0);
    } else {
        lemma_count_of_last(s.skip(1), name);
        assert(s.skip(1).drop_last() =~= d.skip(1));
        lemma_named_tail(d, name);
    }
}

proof fn lemma_unnamed(s: Seq<(Seq<char>, u64)>, name: Seq<char>)
    requires
        !named(s, name),
    ensures
        count_in(s, name) == 0,
    decreases s.len(),
{
    if s.len() > 0 {
        lemma_named_tail(s, name);
        lemma_unnamed(s.skip(1), name);
    }
}

/// In the order of their names the counts are the same.
pub proof fn by_name_keeps_counts(s: Seq<(Seq<char>, u64)>, name: Seq<char>)
    requires
        names_once(s),
    ensures
        count_in(by_name(s), name) == count_in(s, name),
{
    lemma_by_name(s, name);
}

proof fn lemma_by_name(s: Seq<(Seq<char>, u64)>, name: Seq<char>)
    requires
        names_once(s),
    ensures
        count_in(by_name(s), name) == count_in(s, name),
        named(by_name(s), name) <==> named(s, name),
    decreases s.len(),
{
    if s.len() > 0 {
        let d = s.drop_last();
        let e = s.last();
        lemma_by_name(d, name);
        lemma_by_name(d, e.0);
        assert(!named(d, e.0)) by {
            if named(d, e.0) {
                let i = choose|i: int| 0 <= i < d.len() && (#[trigger] d[i]).0 == e.0;
                assert(s[i] == d[i]);
                assert(s[s.len() - 1] == e);
            }
        }
        lemma_put_by_name(by_name(d), e, name);
        lemma_count_of_last(s, name);
        if !named(d, name) {
            lemma_unnamed(d, name);
        }
        if named(s, name) {
            let i = choose|i: int| 0 <= i < s.len() && (#[trigger] s[i]).0 == name;
            if i < d.len() {
                assert(d[i] == s[i]);
            }
        }
        if named(d, name) {
            let i = choose|i: int| 0 <= i < d.len() && (#[trigger] d[i]).0 == name;
            assert(s[i] == d[i]);
        }
        if e.0 == name {
            assert(s[s.len() - 1] == e);
        }
    }
}

proof fn lemma_added_names(s: Seq<(Seq<char>, u64)>, name: Seq<char>, n: u64, other: Seq<char>)
    ensures
        named(added(s, name, n), other) <==> named(s, other) || other == name,
        names_once(s) ==> names_once(added(s, name, n)),
    decreases s.len(),
{
    let r = added(s, name, n);
    if s.len() == 0 {
        assert(r[0].0 == name);
    } else if s[0].0 == name {
        assert(forall|i: int| 0 <= i < s.len() ==> (#[trigger] r[i]).0 == s[i].0);
        assert(forall|i: int| 0 <= i < s.len() ==> (#[trigger] s[i]).0 == r[i].0);
        if named(s, other) {
            let i = choose|i: int| 0 <= i < s.len() && (#[trigger] s[i]).0 == other;
            assert(r[i].0 == other);
        }
        if other == name {
            assert(s[0].0 == other && r[0].0 == other);
        }
    } else {
        let t = s.skip(1);
        lemma_added_names(t, name, n, other);
        lemma_added_names(t, name, n, s[0].0);
        assert(r.skip(1) =~= added(t, name, n));
        assert(r[0] == s[0]);
        lemma_named_tail(r, other);
        lemma_named_tail(s, other);
        if names_once(s) {
            assert forall|i: int, j: int| 0 <= i < t.len() && 0 <= j < t.len() && i != j implies (
            #[trigger] t[i]).0 != (#[trigger] t[j]).0 by {
                assert(t[i] == s[i + 1] && t[j] == s[j + 1]);
            }
            assert(!named(t, s[0].0)) by {
                if named(t, s[0].0) {
                    let i = choose|i: int| 0 <= i < t.len() && (#[trigger] t[i]).0 == s[0].0;
                    assert(s[i + 1] == t[i]);
                }
            }
            let u = added(t, name, n);
            assert forall|i: int, j: int| 0 <= i < r.len() && 0 <= j < r.len() && i != j implies (
            #[trigger] r[i]).0 != (#[trigger] r[j]).0 by {
                if i > 0 {
                    assert(r[i] == u[i - 1]);
                }
                if j > 0 {
                    assert(r[j] == u[j - 1]);
                }
            }
        }
    }
}

/// A tally has each name once.
pub proof fn tally_has_names_once(names: Seq<Seq<char>>)
    ensures
        names_once(tally_of(names)),
    decreases names.len(),
{
    if names.len() > 0 {
        tally_has_names_once(names.drop_last());
        lemma_added_names(tally_of(names.drop_last()), names.last(), 1, names.last());
    }
}

/// No name comes before the one in front of it.
pub open spec fn in_name_order(s: Seq<(Seq<char>, u64)>) -> bool {
    forall|i: int, j: int|
        0 <= i < j < s.len() ==> !text_less((#[trigger] s[j]).0, (#[trigger] s[i]).0)
}

proof fn lemma_put_keeps_order(s: Seq<(Seq<char>, u64)>, e: (Seq<char>, u64), first: Seq<char>)
    requires
        in_name_order(s),
        !text_less(e.0, first),
        forall|i: int| 0 <= i < s.len() ==> !text_less((#[trigger] s[i]).0, first),
    ensures
        in_name_order(put_by_name(s, e)),
        forall|i: int|
            0 <= i < put_by_name(s, e).len() ==> !text_less(
                (#[trigger] put_by_name(s, e)[i]).0,
                first,
            ),
    decreases s.len(),
{
    let r = put_by_name(s, e);
    if s.len() > 0 {
        let t = s.skip(1);
        assert forall|i: int, j: int| 0 <= i < j < t.len() implies !text_less(
            (#[trigger] t[j]).0,
            (#[trigger] t[i]).0,
        ) by {
            assert(t[i] == s[i + 1] && t[j] == s[j + 1]);
        }
        assert forall|i: int| 0 <= i < t.len() implies !text_less((#[trigger] t[i]).0, s[0].0) by {
            assert(t[i] == s[i + 1]);
        }
        if text_less(e.0, s[0].0) {
            assert forall|i: int, j: int| 0 <= i < j < r.len() implies !text_less(
                (#[trigger] r[j]).0,
                (#[trigger] r[i]).0,
            ) by {
                let x = r[j].0;
                assert(r[j] == s[j - 1]);
                if i == 0 {
                    lemma_text_less_total(x, s[0].0);
                    lemma_text_less_total(e.0, x);
                    if text_less(x, e.0) {
                        lemma_text_less_trans(x, e.0, s[0].0);
                    }
                } else {
                    assert(r[i] == s[i - 1]);
                }
            }
            assert forall|i: int| 0 <= i < r.len() implies !text_less(
                (#[trigger] r[i]).0,
                first,
            ) by {
                if i > 0 {
                    assert(r[i] == s[i - 1]);
                }
            }
        } else {
            let u = put_by_name(t, e);
            lemma_put_keeps_order(t, e, s[0].0);
            assert forall|i: int| 0 <= i < t.len() implies !text_less(
                (#[trigger] t[i]).0,
                first,
            ) by {
                assert(t[i] == s[i + 1]);
            }
            lemma_put_keeps_order(t, e, first);
            assert forall|i: int, j: int| 0 <= i < j < r.len() implies !text_less(
                (#[trigger] r[j]).0,
                (#[trigger] r[i]).0,
            ) by {
                assert(r[j] == u[j - 1]);
                if i > 0 {
                    assert(r[i] == u[i - 1]);
                }
            }
            assert forall|i: int| 0 <= i < r.len() implies !text_less(
                (#[trigger] r[i]).0,
                first,
            ) by {
                if i > 0 {
                    assert(r[i] == u[i - 1]);
                }
            }
        }
    }
}

/// `by_name` sorts by name.
pub proof fn by_name_is_in_order(s: Seq<(Seq<char>, u64)>)
    ensures
        in_name_order(by_name(s)),
    decreases s.len(),
{
    if s.len() > 0 {
        by_name_is_in_order(s.drop_last());
        lemma_put_keeps_order(by_name(s.drop_last()), s.last(), Seq::empty());
    }
}

/// One more of a name counts for that name alone.
pub(crate) proof fn lemma_counted(s: Seq<(Seq<char>, u64)>, name: Seq<char>, other: Seq<char>)
    ensures
        count_in(s, name) < u64::MAX ==> count_in(counted(s, name), name) == count_in(s, name) + 1,
        other != name ==> count_in(counted(s, name), other) == count_in(s, other),
    decreases s.len(),
{
    let u = counted(s, name);
    reveal_with_fuel(count_in, 2);
    if s.len() == 0 {
        assert(u.skip(1) =~= Seq::empty());
    } else if s[0].0 == name {
        assert(u.skip(1) =~= s.skip(1));
    } else {
        lemma_counted(s.skip(1), name, other);
        assert(u.skip(1) =~= counted(s.skip(1), name));
    }
}

/// A number of a name counts for that name alone.
pub(crate) proof fn lemma_added_count(
    s: Seq<(Seq<char>, u64)>,
    name: Seq<char>,
    n: u64,
    other: Seq<char>,
)
    ensures
        count_in(s, name) + n <= u64::MAX ==> count_in(added(s, name, n), name) == count_in(s, name)
            + n,
        other != name ==> count_in(added(s, name, n), other) == count_in(s, other),
    decreases s.len(),
{
    let u = added(s, name, n);
    reveal_with_fuel(count_in, 2);
    if s.len() == 0 {
        assert(u.skip(1) =~= Seq::empty());
    } else if s[0].0 == name {
        assert(u.skip(1) =~= s.skip(1));
    } else {
        lemma_added_count(s.skip(1), name, n, other);
        assert(u.skip(1) =~= added(s.skip(1), name, n));
    }
}

/// A higher count ranks above a lower one, and of equal counts the name that comes first does.
pub proof fn higher_counts_rank_above(a: (Seq<char>, u64), b: (Seq<char>, u64))
    ensures
        a.1 > b.1 ==> ranks_above(a, b) && !ranks_above(b, a),
        a.1 == b.1 ==> (ranks_above(a, b) <==> text_less(a.0, b.0)),
        !(ranks_above(a, b) && ranks_above(b, a)),
{
    lemma_text_less_total(a.0, b.0);
}

/// Counts add up, and stay at the highest number where they would pass it.
pub proof fn counts_never_wrap(a: u64, b: u64)
    ensures
        a + b <= u64::MAX ==> plus(a, b) == a + b,
        a + b > u64::MAX ==> plus(a, b) == u64::MAX,
        plus(a, b) >= a && plus(a, b) >= b,
{
}

} // verus!
