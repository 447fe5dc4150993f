//! Order statistics of samples.
use vstd::prelude::*;

use crate::fixed::{divide, lemma_quotient, quotient, smaller};

verus! {

/// `x` put in its place: behind all values that are not greater.
pub open spec fn put(s: Seq<i64>, x: i64) -> Seq<i64>
    decreases s.len(),
{
    if s.len() == 0 {
        seq![x]
    } else if s[0] > x {
        seq![x] + s
    } else {
        seq![s[0]] + put(s.skip(1), x)
    }
}

/// The values from the lowest to the highest.
pub open spec fn ascending(v: Seq<i64>) -> Seq<i64>
    decreases v.len(),
{
    if v.len() == 0 {
        Seq::empty()
    } else {
        put(ascending(v.drop_last()), v.last())
    }
}

pub open spec fn is_ascending(s: Seq<i64>) -> bool {
    forall|i: int, j: int| 0 <= i < j < s.len() ==> #[trigger] s[i] <= #[trigger] s[j]
}

proof fn lemma_put(s: Seq<i64>, x: i64)
    ensures
        put(s, x).len() == s.len() + 1,
        put(s, x).to_multiset() == s.to_multiset().insert(x),
        is_ascending(s) ==> is_ascending(put(s, x)),
        forall|i: int| 0 <= i < put(s, x).len() ==> #[trigger] put(s, x)[i] == x || s.contains(
            put(s, x)[i],
        ),
    decreases s.len(),
{
    broadcast use vstd::seq_lib::group_to_multiset_ensures;
    let r = put(s, x);
    if s.len() == 0 {
        assert(seq![x] =~= s.push(x));
    } else if s[0] > x {
        crate::counts::lemma_insert_multiset(s, 0, x);
        assert(r =~= s.insert(0, x));
        assert forall|i: int| 0 <= i < r.len() implies #[trigger] r[i] == x || s.contains(r[i]) by {
            if i > 0 {
                assert(r[i] == s[i - 1]);
            }
        }
        if is_ascending(s) {
            assert forall|i: int, j: int| 0 <= i < j < r.len() implies #[trigger] r[i]
                <= #[trigger] r[j] by {
                assert(r[j] == s[j - 1]);
                if i > 0 {
                    assert(r[i] == s[i - 1]);
                } else if j > 1 {
                    assert(s[0] <= s[j - 1]);
                }
            }
        }
    } else {
        let t = s.skip(1);
        lemma_put(t, x);
        let u = put(t, x);
        assert(r =~= u.insert(0, s[0]));
        crate::counts::lemma_insert_multiset(u, 0, s[0]);
        crate::counts::lemma_insert_multiset(t, 0, s[0]);
        assert(s =~= t.insert(0, s[0]));
        assert(r.to_multiset() =~= s.to_multiset().insert(x));
        assert forall|i: int| 0 <= i < r.len() implies #[trigger] r[i] == x || s.contains(r[i]) by {
            if i == 0 {
                assert(s.contains(s[0]));
            } else {
                assert(r[i] == u[i - 1]);
                if u[i - 1] != x {
                    assert(t.contains(u[i - 1]));
                    let k = choose|k: int| 0 <= k < t.len() && t[k] == u[i - 1];
                    assert(s[k + 1] == u[i - 1]);
                }
            }
        }
        if is_ascending(s) {
            assert forall|i: int, j: int| 0 <= i < j < t.len() implies #[trigger] t[i]
                <= #[trigger] t[j] by {
                assert(t[i] == s[i + 1] && t[j] == s[j + 1]);
            }
            assert forall|i: int, j: int| 0 <= i < j < r.len() implies #[trigger] r[i]
                <= #[trigger] r[j] by {
                assert(r[j] == u[j - 1]);
                if i > 0 {
                    assert(r[i] == u[i - 1]);
                } else if u[j - 1] != x {
                    assert(t.contains(u[j - 1]));
                    let k = choose|k: int| 0 <= k < t.len() && t[k] == u[j - 1];
                    assert(s[0] <= s[k + 1]);
                }
            }
        }
    }
}

/// The values from the lowest to the highest are the same values, in ascending order.
pub proof fn ascending_sorts(v: Seq<i64>)
    ensures
        is_ascending(ascending(v)),
        ascending(v).to_multiset() == v.to_multiset(),
        ascending(v).len() == v.len(),
    decreases v.len(),
{
    if v.len() > 0 {
        broadcast use vstd::seq_lib::group_to_multiset_ensures;
        ascending_sorts(v.drop_last());
        lemma_put(ascending(v.drop_last()), v.last());
        assert(v =~= v.drop_last().push(v.last()));
    } else {
        assert(v =~= Seq::empty());
    }
}

/// The value below which `p` percent of the values lie; none of no values.
pub open spec fn percentile_of(v: Seq<i64>, p: int) -> Option<i64> {
    if v.len() == 0 {
        None
    } else {
        Some(ascending(v)[smaller(p * v.len() / 100, v.len() - 1)])
    }
}

/// The middle value, or the mean of the two middle ones; 0 of no values.
pub open spec fn median_of(v: Seq<i64>) -> int {
    let s = ascending(v);
    let mid = v.len() as int / 2;
    if v.len() == 0 {
        0
    } else if v.len() % 2 == 0 {
        quotient(s[mid - 1] + s[mid], 2)
    } else {
        s[mid] as int
    }
}

fn sort(v: &Vec<i64>) -> (r: Vec<i64>)
    ensures
        r@ == ascending(v@),
        r.len() == v.len(),
{
    let mut out: Vec<i64> = Vec::new();
    let mut i: usize = 0;
    while i < v.len()
        invariant
            i <= v.len(),
            out.len() == i,
            out@ == ascending(v@.take(i as int)),
        decreases v.len() - i,
    {
        let x: i64 = v[i];
        let ghost s = out@;
        proof {
            let u = v@.take(i + 1);
            assert(u.drop_last() =~= v@.take(i as int));
            assert(u.last() == x);
        }
        let mut at: usize = 0;
        assert(s.take(0) + put(s.skip(0), x) =~= put(s, x)) by {
            assert(s.skip(0) =~= s);
        }
        while at < out.len() && out[at] <= x
            invariant
                at <= out.len(),
                out@ == s,
                put(s, x) == s.take(at as int) + put(s.skip(at as int), x),
            decreases out.len() - at,
        {
            proof {
                let t = s.skip(at as int);
                assert(t[0] == s[at as int]);
                assert(t.skip(1) =~= s.skip(at + 1));
                assert(s.take(at as int) + (seq![t[0]] + put(t.skip(1), x)) =~= s.take(at + 1)
                    + put(s.skip(at + 1), x));
            }
            at += 1;
        }
        out.insert(at, x);
        proof {
            let t = s.skip(at as int);
            if at < s.len() {
                assert(t[0] == s[at as int]);
            }
            assert(out@ =~= s.take(at as int) + put(t, x));
        }
        i += 1;
    }
    assert(v@.take(i as int) =~= v@);
    out
}

/// The value below which `p` percent of the values lie.
pub fn percentile(values: &Vec<i64>, p: u32) -> (r: Option<i64>)
    requires
        p <= 100,
    ensures
        r == percentile_of(values@, p as int),
        r is Some ==> values@.contains(r->0),
{
    if values.len() == 0 {
        return None;
    }
    let s = sort(values);
    let count: usize = values.len();
    assert(p * count <= 100 * count) by (nonlinear_arith)
        requires
            p <= 100,
    ;
    let at: u128 = (p as u128 * count as u128) / 100;
    let last: usize = values.len() - 1;
    let idx: usize = if at <= last as u128 {
        at as usize
    } else {
        last
    };
    proof {
        broadcast use vstd::seq_lib::group_to_multiset_ensures;
        ascending_sorts(values@);
        assert(s@.contains(s@[idx as int]));
        assert(s@.to_multiset().count(s@[idx as int]) > 0);
        assert(values@.to_multiset().count(s@[idx as int]) > 0);
    }
    Some(s[idx])
}

/// The middle value, or the mean of the two middle ones.
pub fn median(values: &Vec<i64>) -> (r: i64)
    ensures
        r == median_of(values@),
{
    if values.len() == 0 {
        return 0;
    }
    let s = sort(values);
    let mid: usize = values.len() / 2;
    if values.len() % 2 == 0 {
        let total: i128 = s[mid - 1] as i128 + s[mid] as i128;
        proof {
            lemma_quotient(total as int, 2, i64::MIN as int, i64::MAX as int);
        }
        divide(total, 2) as i64
    } else {
        s[mid]
    }
}

// ---------------------------------------------------------------------------------------------
// Rankings

/// An item put in its place: behind all items of at least its size.
pub open spec fn placed<A>(s: Seq<(u64, A)>, x: (u64, A)) -> Seq<(u64, A)>
    decreases s.len(),
{
    if s.len() == 0 {
        seq![x]
    } else if s[0].0 < x.0 {
        seq![x] + s
    } else {
        seq![s[0]] + placed(s.skip(1), x)
    }
}

pub open spec fn largest_first<A>(s: Seq<(u64, A)>) -> bool {
    forall|i: int, j: int| 0 <= i < j < s.len() ==> (#[trigger] s[i]).0 >= (#[trigger] s[j]).0
}

pub(crate) proof fn lemma_placed<A>(s: Seq<(u64, A)>, x: (u64, A))
    requires
        largest_first(s),
    ensures
        largest_first(placed(s, x)),
        placed(s, x).len() == s.len() + 1,
        forall|i: int|
            0 <= i < placed(s, x).len() ==> (#[trigger] placed(s, x)[i] == x || s.contains(
                placed(s, x)[i],
            )),
    decreases s.len(),
{
    if s.len() > 0 {
        let t = s.skip(1);
        assert forall|i: int, j: int| 0 <= i < j < t.len() implies (#[trigger] t[i]).0 >= (
        #[trigger] t[j]).0 by {
            assert(t[i] == s[i + 1] && t[j] == s[j + 1]);
        }
        lemma_placed(t, x);
        let r = placed(s, x);
        if s[0].0 < x.0 {
            assert forall|i: int| 0 <= i < r.len() implies (#[trigger] r[i] == x || s.contains(
                r[i],
            )) by {
                if i > 0 {
                    assert(r[i] == s[i - 1]);
                }
            }
            assert forall|i: int, j: int| 0 <= i < j < r.len() implies (#[trigger] r[i]).0 >= (
            #[trigger] r[j]).0 by {
                assert(r[j] == s[j - 1]);
                if i > 0 {
                    assert(r[i] == s[i - 1]);
                } else if j > 1 {
                    assert(s[0].0 >= s[j - 1].0);
                }
            }
        } else {
            let u = placed(t, x);
            assert forall|i: int| 0 <= i < r.len() implies (#[trigger] r[i] == x || s.contains(
                r[i],
            )) by {
                if i == 0 {
                    assert(r[0] == s[0]);
                } else {
                    assert(r[i] == u[i - 1]);
                    if u[i - 1] != x {
                        assert(t.contains(u[i - 1]));
                        let k = choose|k: int| 0 <= k < t.len() && t[k] == u[i - 1];
                        assert(s[k + 1] == u[i - 1]);
                    }
                }
            }
            assert forall|i: int, j: int| 0 <= i < j < r.len() implies (#[trigger] r[i]).0 >= (
            #[trigger] r[j]).0 by {
                assert(r[j] == u[j - 1]);
                if i > 0 {
                    assert(r[i] == u[i - 1]);
                } else if u[j - 1] != x {
                    assert(t.contains(u[j - 1]));
                    let k = choose|k: int| 0 <= k < t.len() && t[k] == u[j - 1];
                    assert(s[k + 1] == u[j - 1]);
                    assert(s[0].0 >= s[k + 1].0);
                }
            }
        }
    }
}

/// Puts an item in its place: behind all items of at least its size.
pub(crate) fn place<T>(list: &mut Vec<(u64, T)>, key: u64, item: T)
    ensures
        final(list)@ == placed(old(list)@, (key, item)),
{
    let ghost s = list@;
    let ghost x = (key, item);
    let mut at: usize = 0;
    assert(s.take(0) + placed(s.skip(0), x) =~= placed(s, x)) by {
        assert(s.skip(0) =~= s);
    }
    while at < list.len() && list[at].0 >= key
        invariant
            at <= list.len(),
            list@ == s,
            x.0 == key,
            placed(s, x) == s.take(at as int) + placed(s.skip(at as int), x),
        decreases list.len() - at,
    {
        proof {
            let t = s.skip(at as int);
            assert(t[0] == s[at as int]);
            assert(t.skip(1) =~= s.skip(at + 1));
            assert(s.take(at as int) + (seq![t[0]] + placed(t.skip(1), x)) =~= s.take(at + 1)
                + placed(s.skip(at + 1), x));
        }
        at += 1;
    }
    list.insert(at, (key, item));
    proof {
        let t = s.skip(at as int);
        if at < s.len() {
            assert(t[0] == s[at as int]);
        }
        assert(list@ =~= s.take(at as int) + placed(t, x));
    }
}

/// How many values are not above a bound.
pub open spec fn up_to(v: Seq<i64>, bound: int) -> nat
    decreases v.len(),
{
    if v.len() == 0 {
        0
    } else {
        up_to(v.drop_last(), bound) + if v.last() <= bound {
            1nat
        } else {
            0nat
        }
    }
}

proof fn lemma_up_to_joined(a: Seq<i64>, b: Seq<i64>, bound: int)
    ensures
        up_to(a + b, bound) == up_to(a, bound) + up_to(b, bound),
    decreases b.len(),
{
    if b.len() == 0 {
        assert(a + b =~= a);
    } else {
        assert((a + b).drop_last() =~= a + b.drop_last());
        lemma_up_to_joined(a, b.drop_last(), bound);
    }
}

proof fn lemma_up_to_one(x: i64, bound: int)
    ensures
        up_to(seq![x], bound) == if x <= bound {
            1nat
        } else {
            0nat
        },
{
    assert(seq![x].drop_last() =~= Seq::empty());
    assert(up_to(Seq::empty(), bound) == 0);
}

proof fn lemma_up_to_put(s: Seq<i64>, x: i64, bound: int)
    ensures
        up_to(put(s, x), bound) == up_to(s.push(x), bound),
    decreases s.len(),
{
    lemma_up_to_one(x, bound);
    assert(s.push(x) =~= s + seq![x]);
    lemma_up_to_joined(s, seq![x], bound);
    if s.len() == 0 {
        assert(s + seq![x] =~= seq![x]);
    } else if s[0] > x {
        lemma_up_to_joined(seq![x], s, bound);
    } else {
        let t = s.skip(1);
        lemma_up_to_put(t, x, bound);
        lemma_up_to_joined(seq![s[0]], put(t, x), bound);
        assert(t.push(x) =~= t + seq![x]);
        lemma_up_to_joined(t, seq![x], bound);
        assert(s =~= seq![s[0]] + t);
        lemma_up_to_joined(seq![s[0]], t, bound);
    }
}

proof fn lemma_up_to_ascending(v: Seq<i64>, bound: int)
    ensures
        up_to(ascending(v), bound) == up_to(v, bound),
    decreases v.len(),
{
    if v.len() > 0 {
        let u = v.drop_last();
        lemma_up_to_ascending(u, bound);
        lemma_up_to_put(ascending(u), v.last(), bound);
        assert(ascending(u).push(v.last()).drop_last() =~= ascending(u));
    }
}

proof fn lemma_up_to_in_order(s: Seq<i64>, bound: int, k: int)
    requires
        is_ascending(s),
        0 <= k < s.len(),
    ensures
        s[k] <= bound ==> up_to(s, bound) >= k + 1,
        s[k] > bound ==> up_to(s, bound) <= k,
        up_to(s, bound) <= s.len(),
    decreases s.len(),
{
    let u = s.drop_last();
    let last = s.len() - 1;
    assert(s.last() == s[last]);
    if u.len() > 0 {
        let j = if k < u.len() {
            k
        } else {
            u.len() - 1
        };
        lemma_up_to_in_order(u, bound, j);
        assert(u[j] == s[j]);
        assert(s[k] <= s[last] || k == last);
    } else {
        assert(up_to(u, bound) == 0);
    }
}

/// A percentile is one of the values, with at least its share of them at or below it and no more
/// than its share below.
pub proof fn percentiles_divide_the_values(v: Seq<i64>, p: int)
    requires
        0 <= p < 100,
    ensures
        percentile_of(v, p) is None <==> v.len() == 0,
        v.len() > 0 ==> {
            let x = percentile_of(v, p)->0;
            &&& v.contains(x)
            &&& 100 * up_to(v, x as int) > p * v.len()
            &&& 100 * up_to(v, x - 1) <= p * v.len()
        },
{
    if v.len() > 0 {
        let s = ascending(v);
        ascending_sorts(v);
        let n = v.len() as int;
        assert(0 <= p * n < 100 * n) by (nonlinear_arith)
            requires
                0 <= p < 100,
                n > 0,
        ;
        let k = p * n / 100;
        let x = s[k];
        assert(percentile_of(v, p) == Some(x));
        lemma_up_to_ascending(v, x as int);
        lemma_up_to_ascending(v, x - 1);
        lemma_up_to_in_order(s, x as int, k);
        lemma_up_to_in_order(s, x - 1, k);
        s.to_multiset_ensures();
        v.to_multiset_ensures();
        assert(s.contains(x));
        assert(s.to_multiset().count(x) > 0);
        assert(v.contains(x));
    }
}

/// The middle of the values: no more than half of them lie below it, and at least half of them at
/// or below it. Of two values it is the middle between them, to the nearest.
pub proof fn medians_halve_the_values(v: Seq<i64>)
    requires
        v.len() > 0,
    ensures
        2 * up_to(v, median_of(v)) >= v.len(),
        2 * up_to(v, median_of(v) - 1) <= v.len(),
        v.len() == 2 ==> -1 <= 2 * median_of(v) - (v[0] + v[1]) <= 1,
        v.len() % 2 == 1 ==> exists|i: int| 0 <= i < v.len() && #[trigger] v[i] == median_of(v),
{
    let s = ascending(v);
    ascending_sorts(v);
    let n = v.len() as int;
    let mid = n / 2;
    let m = median_of(v);
    lemma_up_to_ascending(v, m);
    lemma_up_to_ascending(v, m - 1);
    lemma_up_to_in_order(s, m, mid);
    lemma_up_to_in_order(s, m - 1, mid);
    if n % 2 == 0 {
        let a = s[mid - 1];
        let b = s[mid];
        assert(a <= b);
        lemma_quotient(a + b, 2, a as int, b as int);
        lemma_up_to_in_order(s, m, mid - 1);
        if n == 2 {
            reveal_with_fuel(ascending, 3);
            reveal_with_fuel(put, 3);
            let u = v.drop_last();
            assert(u.drop_last() =~= Seq::empty());
            assert(ascending(u) =~= seq![v[0]]);
            assert(s[0] + s[1] == v[0] + v[1]) by {
                let t = seq![v[0]];
                assert(t.skip(1) =~= Seq::empty());
                if v[0] > v[1] {
                    assert(s =~= seq![v[1], v[0]]);
                } else {
                    assert(s =~= seq![v[0], v[1]]);
                }
            }
        }
    } else {
        s.to_multiset_ensures();
        v.to_multiset_ensures();
        assert(s.contains(s[mid]));
        assert(s.to_multiset().count(s[mid]) > 0);
        assert(v.contains(s[mid]));
    }
}

} // verus!
