//! Text helpers: every string is described by the sequence of its characters.
use vstd::prelude::*;

verus! {

/// Appends one character to the end of a `String` (`String::push`).
pub assume_specification [String::push] (s: &mut String, c: char)
    ensures
        final(s)@ == old(s)@.push(c),
;

/// The lower-case form of a text, as the Unicode tables of std define it.
pub uninterp spec fn unicode_lowercase(s: Seq<char>) -> Seq<char>;

/// The text holds ASCII characters alone.
pub open spec fn all_ascii(s: Seq<char>) -> bool {
    forall|i: int| 0 <= i < s.len() ==> (#[trigger] s[i] as u32) < 128
}

/// The lower-case form of a text: character by character where it is ASCII, and by the Unicode
/// tables elsewhere.
pub open spec fn lowercase(s: Seq<char>) -> Seq<char> {
    if all_ascii(s) {
        s.map_values(|c: char| ascii_lower(c))
    } else {
        unicode_lowercase(s)
    }
}

/// The lower-case form of an ASCII character.
pub open spec fn ascii_lower(c: char) -> char {
    if 'A' <= c && c <= 'Z' {
        ((c as u32) + 32) as char
    } else {
        c
    }
}

/// `needle` stands in `hay` from position `at` on.
pub open spec fn occurs_at(hay: Seq<char>, needle: Seq<char>, at: int) -> bool {
    0 <= at && at + needle.len() <= hay.len() && hay.subrange(at, at + needle.len()) == needle
}

/// `needle` stands somewhere in `hay`.
pub open spec fn has_text(hay: Seq<char>, needle: Seq<char>) -> bool {
    exists|at: int| #[trigger] occurs_at(hay, needle, at)
}

/// `hay` begins with `needle`.
pub open spec fn begins(hay: Seq<char>, needle: Seq<char>) -> bool {
    occurs_at(hay, needle, 0)
}

/// `hay` ends with `needle`.
pub open spec fn ends(hay: Seq<char>, needle: Seq<char>) -> bool {
    occurs_at(hay, needle, hay.len() - needle.len())
}

/// The characters with the Unicode property `White_Space`.
pub open spec fn is_space(c: char) -> bool {
    let n = c as u32;
    ||| 0x9 <= n <= 0xd
    ||| n == 0x20
    ||| n == 0x85
    ||| n == 0xa0
    ||| n == 0x1680
    ||| 0x2000 <= n <= 0x200a
    ||| n == 0x2028
    ||| n == 0x2029
    ||| n == 0x202f
    ||| n == 0x205f
    ||| n == 0x3000
}

/// The text without its leading white space.
pub open spec fn trimmed_start(s: Seq<char>) -> Seq<char>
    decreases s.len(),
{
    if s.len() > 0 && is_space(s[0]) {
        trimmed_start(s.skip(1))
    } else {
        s
    }
}

/// The text without its trailing white space.
pub open spec fn trimmed_end(s: Seq<char>) -> Seq<char>
    decreases s.len(),
{
    if s.len() > 0 && is_space(s.last()) {
        trimmed_end(s.drop_last())
    } else {
        s
    }
}

/// The text without white space at either end.
pub open spec fn trimmed(s: Seq<char>) -> Seq<char> {
    trimmed_end(trimmed_start(s))
}

/// The position of the first `c` in `s`, or the length of `s` where there is none.
pub open spec fn first_at(s: Seq<char>, c: char) -> int
    decreases s.len(),
{
    if s.len() == 0 {
        0
    } else if s[0] == c {
        0
    } else {
        1 + first_at(s.skip(1), c)
    }
}

/// The position of the last `c` in `s`, or -1 where there is none.
pub open spec fn last_at(s: Seq<char>, c: char) -> int
    decreases s.len(),
{
    if s.len() == 0 {
        -1
    } else if s.last() == c {
        s.len() - 1
    } else {
        last_at(s.drop_last(), c)
    }
}

/// The pieces of `s` between the occurrences of `c`, in order; there is always at least one.
pub open spec fn split_on(s: Seq<char>, c: char) -> Seq<Seq<char>>
    decreases s.len(),
{
    let at = last_at(s, c);
    if at < 0 || at >= s.len() {
        seq![s]
    } else {
        split_on(s.take(at), c).push(s.skip(at + 1))
    }
}

/// The first position from which `needle` stands in `s`, or -1 where there is none.
pub open spec fn first_occurrence(s: Seq<char>, needle: Seq<char>) -> int
    decreases s.len(),
{
    if begins(s, needle) {
        0
    } else if s.len() == 0 {
        -1
    } else {
        let rest = first_occurrence(s.skip(1), needle);
        if rest < 0 {
            -1
        } else {
            rest + 1
        }
    }
}

pub open spec fn is_digit(c: char) -> bool {
    '0' <= c && c <= '9'
}

pub open spec fn all_digits(s: Seq<char>) -> bool {
    forall|i: int| 0 <= i < s.len() ==> is_digit(#[trigger] s[i])
}

/// The number that a row of decimal digits writes.
pub open spec fn digits_value(s: Seq<char>) -> nat
    decreases s.len(),
{
    if s.len() == 0 {
        0
    } else {
        digits_value(s.drop_last()) * 10 + ((s.last() as u32 - '0' as u32) as nat)
    }
}

/// The text without one leading plus sign.
pub open spec fn unsigned_part(s: Seq<char>) -> Seq<char> {
    if s.len() > 0 && s[0] == '+' {
        s.skip(1)
    } else {
        s
    }
}

/// The unsigned number that `s` writes, where it is at most `max`: an optional plus sign, then
/// one decimal digit or more, nothing else.
pub open spec fn parsed_uint(s: Seq<char>, max: nat) -> Option<nat> {
    let d = unsigned_part(s);
    if d.len() > 0 && all_digits(d) && digits_value(d) <= max {
        Some(digits_value(d))
    } else {
        None
    }
}

/// The decimal digit `d`, for `d` below ten.
pub open spec fn digit_char(d: nat) -> char {
    (('0' as u32) + d) as char
}

/// The decimal digits of `n`.
pub open spec fn decimal(n: nat) -> Seq<char>
    decreases n,
{
    if n < 10 {
        seq![digit_char(n)]
    } else {
        decimal(n / 10).push(digit_char(n % 10))
    }
}

/// The decimal digits of `n`, with a minus sign where it is negative.
pub open spec fn decimal_int(n: int) -> Seq<char> {
    if n < 0 {
        seq!['-'] + decimal((-n) as nat)
    } else {
        decimal(n as nat)
    }
}

/// `sep` between each two neighbours of `parts`.
pub open spec fn joined(parts: Seq<Seq<char>>, sep: Seq<char>) -> Seq<char>
    decreases parts.len(),
{
    if parts.len() == 0 {
        Seq::empty()
    } else if parts.len() == 1 {
        parts[0]
    } else {
        joined(parts.drop_last(), sep) + sep + parts.last()
    }
}

/// The views of the strings of a vector.
pub open spec fn views(v: Seq<String>) -> Seq<Seq<char>> {
    v.map_values(|s: String| s@)
}

/// Whether two texts hold the same characters.
pub(crate) fn same(a: &str, b: &str) -> (r: bool)
    ensures
        r == (a@ == b@),
{
    let x: String = a.to_owned();
    let y: String = b.to_owned();
    x == y
}

/// The lower-case form of a text (`str::to_lowercase`), a function of the text alone. A text of
/// ASCII characters is lowered character by character.
#[verifier::external_body]
pub(crate) fn lower(s: &str) -> (r: String)
    ensures
        r@ == unicode_lowercase(s@),
        all_ascii(s@) ==> r@ == s@.map_values(|c: char| ascii_lower(c)),
{
    s.to_lowercase()
}

/// The characters of a text.
pub(crate) fn chars_of(s: &str) -> (r: Vec<char>)
    ensures
        r@ == s@,
{
    let mut r: Vec<char> = Vec::new();
    for c in it: s.chars()
        invariant
            r@ == it.seq().take(it.index() as int),
    {
        r.push(c);
    }
    r
}

/// The text of `v[from..to]`.
pub(crate) fn text_of(v: &Vec<char>, from: usize, to: usize) -> (r: String)
    requires
        from <= to <= v.len(),
    ensures
        r@ == v@.subrange(from as int, to as int),
{
    let mut s = String::new();
    let mut i: usize = from;
    while i < to
        invariant
            from <= i <= to <= v.len(),
            s@ == v@.subrange(from as int, i as int),
        decreases to - i,
    {
        s.push(v[i]);
        i += 1;
    }
    s
}

fn match_at(hay: &Vec<char>, needle: &Vec<char>, at: usize) -> (r: bool)
    ensures
        r == occurs_at(hay@, needle@, at as int),
{
    if needle.len() > hay.len() || at > hay.len() - needle.len() {
        return false;
    }
    let mut i: usize = 0;
    while i < needle.len()
        invariant
            i <= needle.len(),
            at + needle.len() <= hay.len(),
            forall|j: int| 0 <= j < i ==> hay@[at + j] == #[trigger] needle@[j],
        decreases needle.len() - i,
    {
        if hay[at + i] != needle[i] {
            proof {
                assert(hay@.subrange(at as int, at + needle@.len())[i as int] != needle@[i as int]);
            }
            return false;
        }
        i += 1;
    }
    assert(hay@.subrange(at as int, at + needle@.len()) =~= needle@);
    true
}

/// Whether `needle` stands somewhere in `hay`.
pub(crate) fn contains(hay: &str, needle: &str) -> (r: bool)
    ensures
        r == has_text(hay@, needle@),
{
    let h = chars_of(hay);
    let n = chars_of(needle);
    let mut i: usize = 0;
    while i < h.len()
        invariant
            i <= h.len(),
            h@ == hay@,
            n@ == needle@,
            forall|at: int| 0 <= at < i ==> !#[trigger] occurs_at(hay@, needle@, at),
        decreases h.len() - i,
    {
        if match_at(&h, &n, i) {
            return true;
        }
        i += 1;
    }
    let r = match_at(&h, &n, i);
    proof {
        if has_text(hay@, needle@) {
            let at = choose|at: int| #[trigger] occurs_at(hay@, needle@, at);
            assert(0 <= at <= i);
        }
    }
    r
}

proof fn lemma_first_occurrence(s: Seq<char>, needle: Seq<char>, k: int)
    requires
        occurs_at(s, needle, k),
        forall|at: int| 0 <= at < k ==> !#[trigger] occurs_at(s, needle, at),
    ensures
        first_occurrence(s, needle) == k,
    decreases s.len(),
{
    if k > 0 {
        assert(!occurs_at(s, needle, 0));
        let t = s.skip(1);
        assert forall|at: int| 0 <= at < k - 1 implies !#[trigger] occurs_at(t, needle, at) by {
            assert(!occurs_at(s, needle, at + 1));
            if occurs_at(t, needle, at) {
                assert(t.subrange(at, at + needle.len()) =~= s.subrange(
                    at + 1,
                    at + 1 + needle.len(),
                ));
            }
        }
        assert(t.subrange(k - 1, k - 1 + needle.len()) =~= s.subrange(k, k + needle.len()));
        lemma_first_occurrence(t, needle, k - 1);
    }
}

proof fn lemma_no_occurrence(s: Seq<char>, needle: Seq<char>)
    requires
        forall|at: int| !#[trigger] occurs_at(s, needle, at),
    ensures
        first_occurrence(s, needle) == -1,
    decreases s.len(),
{
    assert(!occurs_at(s, needle, 0));
    if s.len() > 0 {
        let t = s.skip(1);
        assert forall|at: int| !#[trigger] occurs_at(t, needle, at) by {
            assert(!occurs_at(s, needle, at + 1));
            if occurs_at(t, needle, at) {
                assert(t.subrange(at, at + needle.len()) =~= s.subrange(
                    at + 1,
                    at + 1 + needle.len(),
                ));
            }
        }
        lemma_no_occurrence(t, needle);
    }
}

/// The first position from which `needle` stands in `h`.
pub(crate) fn find_text(h: &Vec<char>, needle: &str) -> (r: Option<usize>)
    ensures
        match r {
            Some(k) => first_occurrence(h@, needle@) == k && occurs_at(h@, needle@, k as int),
            None => first_occurrence(h@, needle@) == -1 && !has_text(h@, needle@),
        },
{
    let n = chars_of(needle);
    let mut i: usize = 0;
    while i < h.len()
        invariant
            i <= h.len(),
            n@ == needle@,
            forall|at: int| 0 <= at < i ==> !#[trigger] occurs_at(h@, needle@, at),
        decreases h.len() - i,
    {
        if match_at(h, &n, i) {
            proof {
                lemma_first_occurrence(h@, needle@, i as int);
            }
            return Some(i);
        }
        i += 1;
    }
    if match_at(h, &n, i) {
        proof {
            lemma_first_occurrence(h@, needle@, i as int);
        }
        return Some(i);
    }
    proof {
        assert forall|at: int| !#[trigger] occurs_at(h@, needle@, at) by {
            assert(at < 0 || at > h.len() || 0 <= at < i || at == i);
        }
        lemma_no_occurrence(h@, needle@);
    }
    None
}

/// Whether `hay` begins with `needle`.
pub(crate) fn starts_with(hay: &str, needle: &str) -> (r: bool)
    ensures
        r == begins(hay@, needle@),
{
    let h = chars_of(hay);
    let n = chars_of(needle);
    match_at(&h, &n, 0)
}

/// Whether `hay` ends with `needle`.
pub(crate) fn ends_with(hay: &str, needle: &str) -> (r: bool)
    ensures
        r == ends(hay@, needle@),
{
    let h = chars_of(hay);
    let n = chars_of(needle);
    if n.len() > h.len() {
        return false;
    }
    match_at(&h, &n, h.len() - n.len())
}

fn space(c: char) -> (r: bool)
    ensures
        r == is_space(c),
{
    let n: u32 = c as u32;
    (0x9 <= n && n <= 0xd) || n == 0x20 || n == 0x85 || n == 0xa0 || n == 0x1680 || (0x2000 <= n && n
        <= 0x200a) || n == 0x2028 || n == 0x2029 || n == 0x202f || n == 0x205f || n == 0x3000
}

proof fn lemma_trim_start(s: Seq<char>, k: int)
    requires
        0 <= k <= s.len(),
        forall|i: int| 0 <= i < k ==> is_space(#[trigger] s[i]),
        k < s.len() ==> !is_space(s[k]),
    ensures
        trimmed_start(s) == s.skip(k),
    decreases k,
{
    if k > 0 {
        assert(is_space(s[0]));
        let t = s.skip(1);
        assert(forall|i: int| 0 <= i < k - 1 ==> #[trigger] t[i] == s[i + 1]);
        lemma_trim_start(t, k - 1);
        assert(t.skip(k - 1) =~= s.skip(k));
    } else {
        assert(s.skip(0) =~= s);
    }
}

proof fn lemma_trim_end(s: Seq<char>, k: int)
    requires
        0 <= k <= s.len(),
        forall|i: int| k <= i < s.len() ==> is_space(#[trigger] s[i]),
        k > 0 ==> !is_space(s[k - 1]),
    ensures
        trimmed_end(s) == s.take(k),
    decreases s.len(),
{
    if k < s.len() {
        assert(is_space(s[s.len() - 1]));
        let t = s.drop_last();
        lemma_trim_end(t, k);
        assert(t.take(k) =~= s.take(k));
    } else {
        assert(s.take(k) =~= s);
    }
}

/// A text without white space at its ends stays as it is, and a text that was trimmed has none.
pub(crate) proof fn lemma_trimmed(s: Seq<char>)
    ensures
        s.len() > 0 && !is_space(s[0]) && !is_space(s.last()) ==> trimmed(s) == s,
        trimmed(s).len() > 0 ==> !is_space(trimmed(s)[0]) && !is_space(trimmed(s).last()),
        trimmed(trimmed(s)) == trimmed(s),
        all_ascii(s) ==> all_ascii(trimmed(s)),
{
    lemma_trimmed_start(s);
    lemma_trimmed_end(trimmed_start(s));
}

proof fn lemma_trimmed_start(s: Seq<char>)
    ensures
        trimmed_start(s).len() > 0 ==> !is_space(trimmed_start(s)[0]),
        all_ascii(s) ==> all_ascii(trimmed_start(s)),
    decreases s.len(),
{
    if s.len() > 0 && is_space(s[0]) {
        lemma_trimmed_start(s.skip(1));
    }
}

proof fn lemma_trimmed_end(s: Seq<char>)
    ensures
        trimmed_end(s).len() > 0 ==> !is_space(trimmed_end(s).last()) && trimmed_end(s)[0] == s[0],
        all_ascii(s) ==> all_ascii(trimmed_end(s)),
    decreases s.len(),
{
    if s.len() > 0 && is_space(s.last()) {
        lemma_trimmed_end(s.drop_last());
    }
}

/// The text without white space at either end.
pub(crate) fn trim(s: &str) -> (r: String)
    ensures
        r@ == trimmed(s@),
{
    let v = chars_of(s);
    let mut a: usize = 0;
    while a < v.len() && space(v[a])
        invariant
            a <= v.len(),
            forall|i: int| 0 <= i < a ==> is_space(#[trigger] v@[i]),
        decreases v.len() - a,
    {
        a += 1;
    }
    let mut b: usize = v.len();
    while b > a && space(v[b - 1])
        invariant
            a <= b <= v.len(),
            forall|i: int| b <= i < v.len() ==> is_space(#[trigger] v@[i]),
        decreases b,
    {
        b -= 1;
    }
    proof {
        lemma_trim_start(v@, a as int);
        let t = v@.skip(a as int);
        assert(forall|i: int| b - a <= i < t.len() ==> #[trigger] t[i] == v@[i + a]);
        lemma_trim_end(t, b - a);
        assert(t.take(b - a) =~= v@.subrange(a as int, b as int));
    }
    text_of(&v, a, b)
}

proof fn lemma_last_at(s: Seq<char>, c: char, k: int)
    requires
        -1 <= k < s.len(),
        k >= 0 ==> s[k] == c,
        forall|i: int| k < i < s.len() ==> #[trigger] s[i] != c,
    ensures
        last_at(s, c) == k,
    decreases s.len(),
{
    if s.len() > 0 && k < s.len() - 1 {
        assert(s[s.len() - 1] != c);
        lemma_last_at(s.drop_last(), c, k);
    }
}

/// The position of the last `c`, where there is one.
pub(crate) fn rfind(v: &Vec<char>, c: char) -> (r: Option<usize>)
    ensures
        match r {
            Some(k) => k < v.len() && last_at(v@, c) == k && v@[k as int] == c,
            None => last_at(v@, c) == -1,
        },
{
    let mut i: usize = v.len();
    while i > 0
        invariant
            i <= v.len(),
            forall|j: int| i <= j < v.len() ==> #[trigger] v@[j] != c,
        decreases i,
    {
        i -= 1;
        if v[i] == c {
            proof {
                lemma_last_at(v@, c, i as int);
            }
            return Some(i);
        }
    }
    proof {
        lemma_last_at(v@, c, -1);
    }
    None
}

proof fn lemma_first_at(s: Seq<char>, c: char, k: int)
    requires
        0 <= k <= s.len(),
        k < s.len() ==> s[k] == c,
        forall|i: int| 0 <= i < k ==> #[trigger] s[i] != c,
    ensures
        first_at(s, c) == k,
    decreases s.len(),
{
    if k > 0 {
        assert(s[0] != c);
        let t = s.skip(1);
        assert(forall|i: int| 0 <= i < k - 1 ==> #[trigger] t[i] == s[i + 1]);
        lemma_first_at(t, c, k - 1);
    }
}

/// The position of the first `c`, or the length where there is none.
pub(crate) fn find(v: &Vec<char>, c: char) -> (r: usize)
    ensures
        r <= v.len(),
        r == first_at(v@, c),
        r < v.len() ==> v@[r as int] == c,
        forall|j: int| 0 <= j < r ==> #[trigger] v@[j] != c,
{
    let mut i: usize = 0;
    while i < v.len() && v[i] != c
        invariant
            i <= v.len(),
            forall|j: int| 0 <= j < i ==> #[trigger] v@[j] != c,
        decreases v.len() - i,
    {
        i += 1;
    }
    proof {
        lemma_first_at(v@, c, i as int);
    }
    i
}

/// The pieces of a text between the occurrences of `c`.
pub(crate) fn split(s: &str, c: char) -> (r: Vec<String>)
    ensures
        views(r@) == split_on(s@, c),
        r.len() >= 1,
{
    let v = chars_of(s);
    let mut r: Vec<String> = Vec::new();
    let mut from: usize = 0;
    let mut i: usize = 0;
    while i < v.len()
        invariant
            from <= i <= v.len(),
            forall|j: int| from <= j < i ==> #[trigger] v@[j] != c,
            from == 0 ==> r.len() == 0,
            from > 0 ==> v@[from - 1] == c && views(r@) == split_on(v@.take(from - 1), c),
        decreases v.len() - i,
    {
        if v[i] == c {
            let ghost before = r@;
            let piece = text_of(&v, from, i);
            r.push(piece);
            proof {
                lemma_split_step(v@.take(i as int), c, from as int);
                if from > 0 {
                    assert(v@.take(i as int).take(from - 1) =~= v@.take(from - 1));
                }
                assert(v@.take(i as int).skip(from as int) =~= v@.subrange(from as int, i as int));
                assert(views(r@) =~= views(before).push(piece@));
                if from == 0 {
                    assert(views(before) =~= Seq::empty());
                    assert(v@.subrange(0, i as int) =~= v@.take(i as int));
                }
            }
            from = i + 1;
        }
        i += 1;
    }
    let ghost before = r@;
    let piece = text_of(&v, from, i);
    r.push(piece);
    proof {
        assert(v@.take(i as int) =~= v@);
        lemma_split_step(v@, c, from as int);
        assert(v@.skip(from as int) =~= v@.subrange(from as int, i as int));
        assert(views(r@) =~= views(before).push(piece@));
        if from == 0 {
            assert(views(before) =~= Seq::empty());
        }
    }
    r
}

proof fn lemma_split_step(s: Seq<char>, c: char, from: int)
    requires
        0 <= from <= s.len(),
        from > 0 ==> s[from - 1] == c,
        forall|j: int| from <= j < s.len() ==> #[trigger] s[j] != c,
    ensures
        from == 0 ==> split_on(s, c) == seq![s],
        from > 0 ==> split_on(s, c) == split_on(s.take(from - 1), c).push(s.skip(from)),
{
    lemma_last_at(s, c, from - 1);
}

/// The unsigned number that `v[from..]` writes, up to `max`.
fn uint_from(v: &Vec<char>, from: usize, max: u64) -> (r: Option<u64>)
    requires
        from <= v.len(),
        max <= 0xffff_ffff,
    ensures
        r is Some <==> {
            let d = v@.skip(from as int);
            d.len() > 0 && all_digits(d) && digits_value(d) <= max
        },
        r is Some ==> r->0 == digits_value(v@.skip(from as int)),
{
    if from == v.len() {
        return None;
    }
    let ghost d = v@.skip(from as int);
    let mut n: u64 = 0;
    let mut i: usize = from;
    while i < v.len()
        invariant
            from <= i <= v.len(),
            d == v@.skip(from as int),
            all_digits(d.take(i - from)),
            n == digits_value(d.take(i - from)),
            n <= max,
            max <= 0xffff_ffff,
        decreases v.len() - i,
    {
        let ch: char = v[i];
        assert(d[i - from] == ch);
        if !('0' <= ch && ch <= '9') {
            assert(!is_digit(d[i - from]));
            return None;
        }
        let m: u64 = n * 10 + ((ch as u32 - '0' as u32) as u64);
        proof {
            let t = d.take(i - from + 1);
            assert(t.drop_last() =~= d.take(i - from));
            assert(t.last() == ch);
            assert(m == digits_value(t));
            assert forall|k: int| 0 <= k < t.len() implies is_digit(#[trigger] t[k]) by {
                if k < i - from {
                    assert(t[k] == d.take(i - from)[k]);
                }
            }
        }
        if m > max {
            proof {
                lemma_digits_grow(d, i - from + 1);
            }
            return None;
        }
        n = m;
        i += 1;
    }
    assert(d.take(i - from) =~= d);
    Some(n)
}

proof fn lemma_digits_grow(s: Seq<char>, k: int)
    requires
        0 <= k <= s.len(),
    ensures
        digits_value(s.take(k)) <= digits_value(s) || !all_digits(s),
    decreases s.len() - k,
{
    if k == s.len() {
        assert(s.take(k) =~= s);
    } else if all_digits(s) {
        lemma_digits_grow(s, k + 1);
        let t = s.take(k + 1);
        assert(t.drop_last() =~= s.take(k));
        assert(is_digit(s[k]));
    }
}

/// The unsigned number that `s` writes, where it is at most `max`.
pub(crate) fn parse_uint(s: &str, max: u64) -> (r: Option<u64>)
    requires
        max <= 0xffff_ffff,
    ensures
        match r {
            Some(n) => parsed_uint(s@, max as nat) == Some(n as nat),
            None => parsed_uint(s@, max as nat) is None,
        },
{
    let v = chars_of(s);
    if v.len() > 0 && v[0] == '+' {
        uint_from(&v, 1, max)
    } else {
        proof {
            assert(v@.skip(0) =~= v@);
        }
        uint_from(&v, 0, max)
    }
}

pub(crate) fn digit(d: u64) -> (c: char)
    requires
        d < 10,
    ensures
        c == digit_char(d as nat),
{
    (48u8 + d as u8) as char
}

/// The decimal digits of `n`.
pub(crate) fn dec_wide(n: u128) -> (r: String)
    ensures
        r@ == decimal(n as nat),
    decreases n,
{
    if n < 10 {
        let mut s = String::new();
        s.push(digit(n as u64));
        s
    } else {
        let mut s = dec_wide(n / 10);
        s.push(digit((n % 10) as u64));
        s
    }
}

/// The decimal digits of `n`.
pub(crate) fn dec(n: u64) -> (r: String)
    ensures
        r@ == decimal(n as nat),
{
    dec_wide(n as u128)
}

/// The decimal digits of `n`, with its sign where it is negative.
pub(crate) fn dec_int(n: i64) -> (r: String)
    ensures
        r@ == decimal_int(n as int),
{
    if n < 0 {
        let m: u64 = (-(n as i128)) as u64;
        let mut s = String::new();
        s.push('-');
        let d = dec(m);
        s.append(d.as_str());
        assert(s@ =~= seq!['-'] + decimal((-(n as int)) as nat));
        s
    } else {
        dec(n as u64)
    }
}

/// `a` followed by `b`.
pub(crate) fn cat(a: &str, b: &str) -> (r: String)
    ensures
        r@ == a@ + b@,
{
    let mut s = a.to_owned();
    s.append(b);
    s
}

/// `a`, `b` and `c`, one after the other.
pub(crate) fn cat3(a: &str, b: &str, c: &str) -> (r: String)
    ensures
        r@ == a@ + b@ + c@,
{
    let mut s = a.to_owned();
    s.append(b);
    s.append(c);
    s
}

/// `sep` between each two neighbours of `parts`.
pub(crate) fn join(parts: &Vec<String>, sep: &str) -> (r: String)
    ensures
        r@ == joined(views(parts@), sep@),
{
    let mut s = String::new();
    let mut i: usize = 0;
    while i < parts.len()
        invariant
            i <= parts.len(),
            s@ == joined(views(parts@).take(i as int), sep@),
        decreases parts.len() - i,
    {
        if i > 0 {
            s.append(sep);
        }
        s.append(parts[i].as_str());
        proof {
            let t = views(parts@).take(i + 1);
            assert(t.drop_last() =~= views(parts@).take(i as int));
            assert(t.last() == parts@[i as int]@);
            if i == 0 {
                assert(s@ =~= t[0]);
            }
        }
        i += 1;
    }
    assert(views(parts@).take(i as int) =~= views(parts@));
    s
}

/// The position of `s` in `list`, by content.
pub(crate) fn position(list: &Vec<String>, s: &str) -> (r: Option<usize>)
    ensures
        match r {
            Some(k) => k < list.len() && list@[k as int]@ == s@,
            None => !views(list@).contains(s@),
        },
{
    let mut i: usize = 0;
    while i < list.len()
        invariant
            i <= list.len(),
            forall|j: int| 0 <= j < i ==> (#[trigger] list@[j])@ != s@,
        decreases list.len() - i,
    {
        if same(list[i].as_str(), s) {
            return Some(i);
        }
        i += 1;
    }
    assert forall|j: int| 0 <= j < views(list@).len() implies views(list@)[j] != s@ by {
        assert(views(list@)[j] == list@[j]@);
    }
    None
}

/// `a` comes before `b` in the order of their characters.
pub open spec fn text_less(a: Seq<char>, b: Seq<char>) -> bool
    decreases a.len(),
{
    if b.len() == 0 {
        false
    } else if a.len() == 0 {
        true
    } else if a[0] != b[0] {
        a[0] < b[0]
    } else {
        text_less(a.skip(1), b.skip(1))
    }
}

pub(crate) proof fn lemma_text_less_total(a: Seq<char>, b: Seq<char>)
    ensures
        text_less(a, b) || text_less(b, a) || a == b,
        !(text_less(a, b) && text_less(b, a)),
        a == b ==> !text_less(a, b),
    decreases a.len(),
{
    if a.len() > 0 && b.len() > 0 {
        lemma_text_less_total(a.skip(1), b.skip(1));
        if a[0] == b[0] && a.skip(1) == b.skip(1) {
            assert(a =~= seq![a[0]] + a.skip(1));
            assert(b =~= seq![b[0]] + b.skip(1));
            assert(a == b);
        }
    } else if a.len() == 0 && b.len() == 0 {
        assert(a =~= b);
    }
}

pub(crate) proof fn lemma_text_less_trans(a: Seq<char>, b: Seq<char>, c: Seq<char>)
    requires
        text_less(a, b),
        text_less(b, c),
    ensures
        text_less(a, c),
    decreases a.len(),
{
    if a.len() > 0 && b.len() > 0 && c.len() > 0 && a[0] == b[0] && b[0] == c[0] {
        lemma_text_less_trans(a.skip(1), b.skip(1), c.skip(1));
    }
}

/// Whether `a` comes before `b` in the order of their characters.
pub(crate) fn before(a: &str, b: &str) -> (r: bool)
    ensures
        r == text_less(a@, b@),
{
    let x = chars_of(a);
    let y = chars_of(b);
    let mut i: usize = 0;
    assert(x@.skip(0) =~= x@);
    assert(y@.skip(0) =~= y@);
    while i < x.len() && i < y.len()
        invariant
            i <= x.len(),
            i <= y.len(),
            x@ == a@,
            y@ == b@,
            text_less(a@, b@) == text_less(x@.skip(i as int), y@.skip(i as int)),
        decreases x.len() - i,
    {
        assert(x@.skip(i as int)[0] == x@[i as int]);
        assert(y@.skip(i as int)[0] == y@[i as int]);
        if x[i] != y[i] {
            return x[i] < y[i];
        }
        assert(x@.skip(i as int).skip(1) =~= x@.skip(i + 1));
        assert(y@.skip(i as int).skip(1) =~= y@.skip(i + 1));
        i += 1;
    }
    i < y.len()
}

/// A copy of the texts.
pub(crate) fn dup_texts(v: &Vec<String>) -> (r: Vec<String>)
    ensures
        views(r@) == views(v@),
{
    let mut out: Vec<String> = Vec::new();
    let mut i: usize = 0;
    while i < v.len()
        invariant
            i <= v.len(),
            views(out@) =~= views(v@).take(i as int),
        decreases v.len() - i,
    {
        let ghost before = out@;
        out.push(v[i].as_str().to_owned());
        assert(views(out@) =~= views(before).push(v@[i as int]@));
        i += 1;
    }
    assert(views(v@).take(i as int) =~= views(v@));
    out
}

/// A number that is written is read back, as long as it fits.
pub proof fn written_numbers_are_read(n: nat, max: nat)
    ensures
        parsed_uint(decimal(n), max) == if n <= max {
            Some(n)
        } else {
            None
        },
{
    lemma_decimal(n);
    let d = decimal(n);
    assert(is_digit(d[0]));
    assert(unsigned_part(d) == d);
}

pub(crate) proof fn lemma_decimal(n: nat)
    ensures
        decimal(n).len() > 0,
        all_digits(decimal(n)),
        digits_value(decimal(n)) == n,
    decreases n,
{
    reveal_with_fuel(digits_value, 2);
    if n < 10 {
        let d = seq![digit_char(n)];
        assert(d.drop_last() =~= Seq::empty());
        assert(d.last() == digit_char(n));
    } else {
        lemma_decimal(n / 10);
        let d = decimal(n);
        assert(d.drop_last() =~= decimal(n / 10));
        assert(d.last() == digit_char(n % 10));
        assert forall|i: int| 0 <= i < d.len() implies is_digit(#[trigger] d[i]) by {
            if i < d.len() - 1 {
                assert(d[i] == decimal(n / 10)[i]);
            }
        }
    }
}

/// Different numbers are written differently.
pub proof fn numbers_are_told_apart(a: nat, b: nat)
    ensures
        decimal(a) == decimal(b) ==> a == b,
{
    lemma_decimal(a);
    lemma_decimal(b);
}

/// The first place of a character holds it, and none before does; where there is none the place is
/// the end.
pub proof fn first_places_are_first(s: Seq<char>, c: char, i: int)
    requires
        0 <= i < s.len(),
    ensures
        0 <= first_at(s, c) <= s.len(),
        first_at(s, c) < s.len() ==> s[first_at(s, c)] == c,
        i < first_at(s, c) ==> s[i] != c,
    decreases s.len(),
{
    if s[0] != c {
        let t = s.skip(1);
        if t.len() > 0 {
            first_places_are_first(
                t,
                c,
                if i > 0 {
                    i - 1
                } else {
                    0
                },
            );
            assert(first_at(t, c) < t.len() ==> t[first_at(t, c)] == s[first_at(s, c)]);
            if i > 0 {
                assert(t[i - 1] == s[i]);
            }
        } else {
            assert(first_at(t, c) == 0);
        }
    }
}

/// The last place of a character holds it, and none after does; where there is none the place lies
/// before the start.
pub proof fn last_places_are_last(s: Seq<char>, c: char, i: int)
    requires
        0 <= i < s.len(),
    ensures
        -1 <= last_at(s, c) < s.len(),
        last_at(s, c) >= 0 ==> s[last_at(s, c)] == c,
        i > last_at(s, c) ==> s[i] != c,
    decreases s.len(),
{
    if s.last() != c {
        let t = s.drop_last();
        if t.len() > 0 {
            last_places_are_last(
                t,
                c,
                if i < t.len() {
                    i
                } else {
                    0
                },
            );
            if i < t.len() {
                assert(t[i] == s[i]);
            }
        } else {
            assert(last_at(t, c) == -1);
        }
    }
}

/// A split text comes back from its pieces, and no piece holds the separator.
pub proof fn split_texts_come_back(s: Seq<char>, c: char)
    ensures
        split_on(s, c).len() > 0,
        joined(split_on(s, c), seq![c]) == s,
        forall|k: int| 0 <= k < split_on(s, c).len() ==> !(#[trigger] split_on(s,
            c)[k]).contains(c),
    decreases s.len(),
{
    let at = last_at(s, c);
    if s.len() > 0 {
        last_places_are_last(s, c, 0);
    }
    if at < 0 || at >= s.len() {
        assert(split_on(s, c) =~= seq![s]);
        assert(!s.contains(c)) by {
            assert forall|i: int| 0 <= i < s.len() implies s[i] != c by {
                last_places_are_last(s, c, i);
            }
        }
    } else {
        let head = s.take(at);
        let tail = s.skip(at + 1);
        split_texts_come_back(head, c);
        let p = split_on(head, c);
        let q = split_on(s, c);
        assert(q == p.push(tail));
        assert(q.drop_last() =~= p);
        assert(joined(q, seq![c]) == joined(p, seq![c]) + seq![c] + tail);
        assert(head + seq![c] + tail =~= s);
        assert(!tail.contains(c)) by {
            assert forall|i: int| 0 <= i < tail.len() implies tail[i] != c by {
                last_places_are_last(s, c, i + at + 1);
            }
        }
        assert forall|k: int| 0 <= k < q.len() implies !(#[trigger] q[k]).contains(c) by {
            if k < p.len() {
                assert(q[k] == p[k]);
            }
        }
    }
}

/// A trimmed text stands in the text that it was, with white space alone around it, and neither
/// begins nor ends with any.
pub proof fn trimmed_texts_have_no_blanks_around(s: Seq<char>)
    ensures
        trimmed(s).len() > 0 ==> !is_space(trimmed(s)[0]) && !is_space(trimmed(s).last()),
        trimmed(trimmed(s)) == trimmed(s),
        trimmed(s).len() <= s.len(),
        s.len() > 0 && !is_space(s[0]) && !is_space(s.last()) ==> trimmed(s) == s,
        (forall|i: int| 0 <= i < s.len() ==> is_space(#[trigger] s[i])) ==> trimmed(s).len() == 0,
{
    lemma_start_trimmed(s);
    let t = trimmed_start(s);
    lemma_end_trimmed(t);
    let r = trimmed_end(t);
    if r.len() > 0 {
        assert(r[0] == t[0]);
    }
    if forall|i: int| 0 <= i < s.len() ==> is_space(#[trigger] s[i]) {
        lemma_blank(s);
    }
}

proof fn lemma_start_trimmed(s: Seq<char>)
    ensures
        trimmed_start(s).len() <= s.len(),
        trimmed_start(s).len() > 0 ==> !is_space(trimmed_start(s)[0]),
        trimmed_start(s).len() > 0 ==> trimmed_start(s).last() == s.last(),
    decreases s.len(),
{
    if s.len() > 0 && is_space(s[0]) {
        lemma_start_trimmed(s.skip(1));
    }
}

proof fn lemma_end_trimmed(s: Seq<char>)
    ensures
        trimmed_end(s).len() <= s.len(),
        trimmed_end(s).len() > 0 ==> !is_space(trimmed_end(s).last()),
        trimmed_end(s).len() > 0 ==> trimmed_end(s)[0] == s[0],
    decreases s.len(),
{
    if s.len() > 0 && is_space(s.last()) {
        lemma_end_trimmed(s.drop_last());
    }
}

proof fn lemma_blank(s: Seq<char>)
    requires
        forall|i: int| 0 <= i < s.len() ==> is_space(#[trigger] s[i]),
    ensures
        trimmed_start(s).len() == 0,
    decreases s.len(),
{
    if s.len() > 0 {
        let t = s.skip(1);
        assert forall|i: int| 0 <= i < t.len() implies is_space(#[trigger] t[i]) by {
            assert(t[i] == s[i + 1]);
        }
        lemma_blank(t);
    }
}

/// The blanks are the space, the controls from tab to carriage return, and the wide and narrow
/// spaces of Unicode; no letter, digit or mark of ASCII is one.
pub proof fn blanks_are_no_letters(c: char)
    ensures
        is_space(' ') && is_space('\t') && is_space('\n') && is_space('\r'),
        '!' <= c && c <= '~' ==> !is_space(c),
{
}

/// Lower case keeps lengths, has no capital letter, and changes nothing but those; done twice it
/// changes nothing more.
pub proof fn lower_case_has_no_capitals(c: char)
    ensures
        !('A' <= ascii_lower(c) && ascii_lower(c) <= 'Z'),
        ascii_lower(ascii_lower(c)) == ascii_lower(c),
        !('A' <= c && c <= 'Z') ==> ascii_lower(c) == c,
        ascii_lower('A') == 'a' && ascii_lower('M') == 'm' && ascii_lower('Z') == 'z',
        'A' <= c && c <= 'Z' ==> 'a' <= ascii_lower(c) && ascii_lower(c) <= 'z',
{
}

/// The first place of a text is the least at which it stands; it has none exactly where it does not
/// occur.
pub proof fn first_occurrences_are_first(s: Seq<char>, needle: Seq<char>, i: int)
    requires
        0 <= i,
    ensures
        first_occurrence(s, needle) >= 0 ==> occurs_at(s, needle, first_occurrence(s, needle)),
        occurs_at(s, needle, i) ==> 0 <= first_occurrence(s, needle) <= i,
    decreases s.len(),
{
    if begins(s, needle) {
    } else if s.len() == 0 {
    } else {
        let t = s.skip(1);
        first_occurrences_are_first(
            t,
            needle,
            if i > 0 {
                i - 1
            } else {
                0
            },
        );
        let k = first_occurrence(t, needle);
        if k >= 0 {
            assert(s.subrange(k + 1, k + 1 + needle.len()) =~= t.subrange(k, k + needle.len()));
        }
        if occurs_at(s, needle, i) {
            assert(i > 0);
            assert(s.subrange(i, i + needle.len()) =~= t.subrange(i - 1, i - 1 + needle.len()));
        }
    }
}

/// The order of texts goes by their first difference, and a text comes before what it begins.
pub proof fn texts_are_ordered_by_their_first_difference(p: Seq<char>, a: Seq<char>, b: Seq<char>)
    requires
        b.len() > 0,
    ensures
        a.len() == 0 ==> text_less(p + a, p + b),
        a.len() > 0 && a[0] < b[0] ==> text_less(p + a, p + b) && !text_less(p + b, p + a),
        !text_less(p, p),
    decreases p.len(),
{
    if p.len() == 0 {
        assert(p + a =~= a && p + b =~= b);
    } else {
        let q = p.skip(1);
        texts_are_ordered_by_their_first_difference(q, a, b);
        assert((p + a).skip(1) =~= q + a);
        assert((p + b).skip(1) =~= q + b);
        assert((p + a)[0] == p[0] && (p + b)[0] == p[0]);
    }
}

} // verus!
