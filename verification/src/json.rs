//! JSON documents as plain values.
use vstd::prelude::*;

use crate::fixed::{keep, kept, LIMIT, ONE};
use crate::text::same;

verus! {

/// A JSON document. A number with a fraction or an exponent is kept as a count of millionths,
/// beside the text that writes it.
pub enum Json {
    Null,
    Bool(bool),
    /// An integer that is not negative.
    UInt(u64),
    /// A negative integer.
    Int(i64),
    Real { micro: i64, text: String },
    Str(String),
    Arr(Vec<Json>),
    Obj(Vec<(String, Json)>),
}

/// What a `Json` document says.
#[verifier::ext_equal]
pub enum JsonView {
    Null,
    Bool(bool),
    UInt(u64),
    Int(i64),
    Real { micro: i64, text: Seq<char> },
    Str(Seq<char>),
    Arr(Seq<JsonView>),
    Obj(Seq<(Seq<char>, JsonView)>),
}

/// The value that stands under `key`: that of the first entry with this key.
pub open spec fn entry(o: Seq<(Seq<char>, JsonView)>, key: Seq<char>) -> Option<JsonView>
    decreases o.len(),
{
    if o.len() == 0 {
        None
    } else if o[0].0 == key {
        Some(o[0].1)
    } else {
        entry(o.skip(1), key)
    }
}

/// The entries with `value` under `key`: in the place of the first entry with this key, or at
/// the end where there is none.
pub open spec fn with_entry(
    o: Seq<(Seq<char>, JsonView)>,
    key: Seq<char>,
    value: JsonView,
) -> Seq<(Seq<char>, JsonView)>
    decreases o.len(),
{
    if o.len() == 0 {
        seq![(key, value)]
    } else if o[0].0 == key {
        o.update(0, (key, value))
    } else {
        seq![o[0]] + with_entry(o.skip(1), key, value)
    }
}

impl JsonView {
    pub open spec fn field(self, key: Seq<char>) -> Option<JsonView> {
        match self {
            JsonView::Obj(o) => entry(o, key),
            _ => None,
        }
    }

    /// The value under `inner` in the object under `outer`.
    pub open spec fn field_in(self, outer: Seq<char>, inner: Seq<char>) -> Option<JsonView> {
        match self.field(outer) {
            Some(o) => o.field(inner),
            None => None,
        }
    }

    pub open spec fn text(self) -> Option<Seq<char>> {
        match self {
            JsonView::Str(s) => Some(s),
            _ => None,
        }
    }

    pub open spec fn uint(self) -> Option<u64> {
        match self {
            JsonView::UInt(n) => Some(n),
            _ => None,
        }
    }

    pub open spec fn integer(self) -> Option<int> {
        match self {
            JsonView::UInt(n) => if n <= i64::MAX {
                Some(n as int)
            } else {
                None
            },
            JsonView::Int(n) => Some(n as int),
            _ => None,
        }
    }

    pub open spec fn flag(self) -> Option<bool> {
        match self {
            JsonView::Bool(b) => Some(b),
            _ => None,
        }
    }

    pub open spec fn items(self) -> Option<Seq<JsonView>> {
        match self {
            JsonView::Arr(a) => Some(a),
            _ => None,
        }
    }

    /// The number in millionths.
    pub open spec fn micro(self) -> Option<int> {
        match self {
            JsonView::UInt(n) => Some(n * ONE),
            JsonView::Int(n) => Some(n * ONE),
            JsonView::Real { micro, .. } => Some(micro as int),
            _ => None,
        }
    }
}

/// The first of the two that is there.
pub open spec fn or_else(a: Option<JsonView>, b: Option<JsonView>) -> Option<JsonView> {
    if a is Some {
        a
    } else {
        b
    }
}

pub open spec fn text_or_empty(j: Option<JsonView>) -> Seq<char> {
    match j {
        Some(v) => match v.text() {
            Some(s) => s,
            None => Seq::empty(),
        },
        None => Seq::empty(),
    }
}

pub open spec fn uint_or(j: Option<JsonView>, default: u64) -> u64 {
    match j {
        Some(v) => match v.uint() {
            Some(n) => n,
            None => default,
        },
        None => default,
    }
}

pub open spec fn flag_or(j: Option<JsonView>, default: bool) -> bool {
    match j {
        Some(v) => match v.flag() {
            Some(b) => b,
            None => default,
        },
        None => default,
    }
}

/// The number in millionths, cut to the range that is kept.
pub open spec fn number(j: Option<JsonView>) -> Option<int> {
    match j {
        Some(v) => match v.micro() {
            Some(n) => Some(kept(n)),
            None => None,
        },
        None => None,
    }
}

pub open spec fn real_or(j: Option<JsonView>, default: int) -> int {
    match number(j) {
        Some(n) => n,
        None => default,
    }
}

/// The items of an array; none where `j` is missing or no array.
pub open spec fn items_or_empty(j: Option<JsonView>) -> Seq<JsonView> {
    match j {
        Some(v) => match v.items() {
            Some(a) => a,
            None => Seq::empty(),
        },
        None => Seq::empty(),
    }
}

/// The views of the documents of a vector.
pub open spec fn json_views(v: Seq<Json>) -> Seq<JsonView> {
    v.map_values(|j: Json| j@)
}

pub open spec fn entry_views(v: Seq<(String, Json)>) -> Seq<(Seq<char>, JsonView)> {
    v.map_values(|e: (String, Json)| (e.0@, e.1@))
}

pub open spec fn opt_view(j: Option<&Json>) -> Option<JsonView> {
    match j {
        Some(v) => Some(v@),
        None => None,
    }
}

/// What the document says.
pub open spec fn json_view(j: Json) -> JsonView
    decreases j,
{
    match j {
        Json::Null => JsonView::Null,
        Json::Bool(b) => JsonView::Bool(b),
        Json::UInt(n) => JsonView::UInt(n),
        Json::Int(n) => JsonView::Int(n),
        Json::Real { micro, text } => JsonView::Real { micro, text: text@ },
        Json::Str(s) => JsonView::Str(s@),
        Json::Arr(v) => JsonView::Arr(
            Seq::new(
                v@.len(),
                |i: int|
                    if 0 <= i < v@.len() {
                        json_view(v@[i])
                    } else {
                        JsonView::Null
                    },
            ),
        ),
        Json::Obj(v) => JsonView::Obj(
            Seq::new(
                v@.len(),
                |i: int|
                    if 0 <= i < v@.len() {
                        (v@[i].0@, json_view(v@[i].1))
                    } else {
                        (Seq::empty(), JsonView::Null)
                    },
            ),
        ),
    }
}

impl View for Json {
    type V = JsonView;

    open spec fn view(&self) -> JsonView {
        json_view(*self)
    }
}

pub(crate) proof fn lemma_arr_view(v: Vec<Json>)
    ensures
        Json::Arr(v)@ == JsonView::Arr(json_views(v@)),
{
    reveal_with_fuel(json_view, 2);
    assert(Json::Arr(v)@->Arr_0 =~= json_views(v@));
}

pub(crate) proof fn lemma_obj_view(v: Vec<(String, Json)>)
    ensures
        Json::Obj(v)@ == JsonView::Obj(entry_views(v@)),
{
    reveal_with_fuel(json_view, 2);
    assert(Json::Obj(v)@->Obj_0 =~= entry_views(v@));
}

/// The position of the first entry with `key`.
fn key_at(v: &Vec<(String, Json)>, key: &str) -> (r: Option<usize>)
    ensures
        match r {
            Some(k) => k < v.len() && v@[k as int].0@ == key@ && entry(entry_views(v@), key@)
                == Some(v@[k as int].1@) && (forall|x: JsonView| #[trigger]
                with_entry(entry_views(v@), key@, x) == entry_views(v@).update(
                    k as int,
                    (key@, x),
                )),
            None => entry(entry_views(v@), key@) is None && (forall|x: JsonView| #[trigger]
                with_entry(entry_views(v@), key@, x) == entry_views(v@).push((key@, x))),
        },
{
    let ghost o = entry_views(v@);
    let mut i: usize = 0;
    assert(o.skip(0) =~= o);
    assert forall|x: JsonView| #[trigger] with_entry(o, key@, x) == o.take(0) + with_entry(
        o.skip(0),
        key@,
        x,
    ) by {
        assert(o.take(0) + with_entry(o.skip(0), key@, x) =~= with_entry(o, key@, x));
    }
    while i < v.len()
        invariant
            i <= v.len(),
            o == entry_views(v@),
            entry(o, key@) == entry(o.skip(i as int), key@),
            forall|x: JsonView| #[trigger]
                with_entry(o, key@, x) == o.take(i as int) + with_entry(o.skip(i as int), key@, x),
        decreases v.len() - i,
    {
        let ghost t = o.skip(i as int);
        assert(t[0] == o[i as int]);
        if same(v[i].0.as_str(), key) {
            proof {
                assert forall|x: JsonView| #[trigger] with_entry(o, key@, x) == o.update(
                    i as int,
                    (key@, x),
                ) by {
                    assert(o.take(i as int) + t.update(0, (key@, x)) =~= o.update(
                        i as int,
                        (key@, x),
                    ));
                }
            }
            return Some(i);
        }
        proof {
            assert(t.skip(1) =~= o.skip(i + 1));
            assert forall|x: JsonView| #[trigger] with_entry(o, key@, x) == o.take(i + 1)
                + with_entry(o.skip(i + 1), key@, x) by {
                assert(o.take(i as int) + (seq![t[0]] + with_entry(t.skip(1), key@, x)) =~= o.take(
                    i + 1,
                ) + with_entry(o.skip(i + 1), key@, x));
            }
        }
        i += 1;
    }
    assert(o.skip(i as int) =~= Seq::empty());
    assert forall|x: JsonView| #[trigger] with_entry(o, key@, x) == o.push((key@, x)) by {
        assert(o.take(i as int) + seq![(key@, x)] =~= o.push((key@, x)));
    }
    None
}

impl Json {
    /// The value under `key`, where the document is an object that has it.
    pub fn get(&self, key: &str) -> (r: Option<&Json>)
        ensures
            opt_view(r) == self@.field(key@),
    {
        match self {
            Json::Obj(v) => {
                proof {
                    lemma_obj_view(*v);
                }
                match key_at(v, key) {
                    Some(k) => Some(&v[k].1),
                    None => None,
                }
            },
            _ => None,
        }
    }

    /// The value under `inner` in the object under `outer`.
    pub fn get_in(&self, outer: &str, inner: &str) -> (r: Option<&Json>)
        ensures
            opt_view(r) == self@.field_in(outer@, inner@),
    {
        match self.get(outer) {
            Some(o) => o.get(inner),
            None => None,
        }
    }

    /// The value under `a`, or where there is none that under `b`.
    pub fn get_either(&self, a: &str, b: &str) -> (r: Option<&Json>)
        ensures
            opt_view(r) == or_else(self@.field(a@), self@.field(b@)),
    {
        match self.get(a) {
            Some(v) => Some(v),
            None => self.get(b),
        }
    }

    /// Puts `value` under `key` and tells whether it could: whether the document is an object.
    pub fn set(&mut self, key: &str, value: Json) -> (r: bool)
        ensures
            r == (old(self)@ is Obj),
            r ==> final(self)@ == JsonView::Obj(
                with_entry(old(self)@->Obj_0, key@, value@),
            ),
            !r ==> final(self)@ == old(self)@,
    {
        match self {
            Json::Obj(v) => {
                let ghost before = *v;
                proof {
                    lemma_obj_view(before);
                }
                match key_at(v, key) {
                    Some(k) => {
                        v[k] = (key.to_owned(), value);
                        proof {
                            assert(entry_views(v@) =~= entry_views(before@).update(
                                k as int,
                                (key@, value@),
                            ));
                            lemma_obj_view(*v);
                        }
                    },
                    None => {
                        v.push((key.to_owned(), value));
                        proof {
                            assert(entry_views(v@) =~= entry_views(before@).push((key@, value@)));
                            lemma_obj_view(*v);
                        }
                    },
                }
                true
            },
            _ => false,
        }
    }

    pub fn as_str(&self) -> (r: Option<&str>)
        ensures
            match r {
                Some(s) => self@.text() == Some(s@),
                None => self@.text() is None,
            },
    {
        match self {
            Json::Str(s) => Some(s.as_str()),
            _ => None,
        }
    }

    pub fn as_u64(&self) -> (r: Option<u64>)
        ensures
            r == self@.uint(),
    {
        match self {
            Json::UInt(n) => Some(*n),
            _ => None,
        }
    }

    pub fn as_i64(&self) -> (r: Option<i64>)
        ensures
            match r {
                Some(n) => self@.integer() == Some(n as int),
                None => self@.integer() is None,
            },
    {
        match self {
            Json::UInt(n) => {
                if *n <= 0x7fff_ffff_ffff_ffff {
                    Some(*n as i64)
                } else {
                    None
                }
            },
            Json::Int(n) => Some(*n),
            _ => None,
        }
    }

    pub fn as_bool(&self) -> (r: Option<bool>)
        ensures
            r == self@.flag(),
    {
        match self {
            Json::Bool(b) => Some(*b),
            _ => None,
        }
    }

    /// The number in millionths.
    pub fn as_micro(&self) -> (r: Option<i128>)
        ensures
            match r {
                Some(n) => self@.micro() == Some(n as int) && i64::MIN * ONE <= n <= u64::MAX
                    * ONE,
                None => self@.micro() is None,
            },
    {
        match self {
            Json::UInt(n) => Some(*n as i128 * ONE as i128),
            Json::Int(n) => Some(*n as i128 * ONE as i128),
            Json::Real { micro, text: _ } => Some(*micro as i128),
            _ => None,
        }
    }

    pub fn as_array(&self) -> (r: Option<&Vec<Json>>)
        ensures
            match r {
                Some(v) => self@.items() == Some(json_views(v@)),
                None => self@.items() is None,
            },
    {
        match self {
            Json::Arr(v) => {
                proof {
                    lemma_arr_view(*v);
                }
                Some(v)
            },
            _ => None,
        }
    }

    pub fn is_null(&self) -> (r: bool)
        ensures
            r == (self@ is Null),
    {
        match self {
            Json::Null => true,
            _ => false,
        }
    }

    /// A copy of the document.
    pub fn dup(&self) -> (r: Json)
        ensures
            r@ == self@,
        decreases self,
    {
        match self {
            Json::Null => Json::Null,
            Json::Bool(b) => Json::Bool(*b),
            Json::UInt(n) => Json::UInt(*n),
            Json::Int(n) => Json::Int(*n),
            Json::Real { micro, text } => Json::Real { micro: *micro, text: text.clone() },
            Json::Str(s) => Json::Str(s.clone()),
            Json::Arr(v) => {
                let mut o: Vec<Json> = Vec::new();
                let mut i: usize = 0;
                while i < v.len()
                    invariant
                        i <= v.len(),
                        self == Json::Arr(*v),
                        json_views(o@) == json_views(v@).take(i as int),
                    decreases v.len() - i,
                {
                    let ghost before = o@;
                    assert(decreases_to!(*self => self->Arr_0));
                    assert(decreases_to!(self->Arr_0 => self->Arr_0@));
                    assert(decreases_to!(self->Arr_0@ => self->Arr_0@[i as int]));
                    let c = v[i].dup();
                    o.push(c);
                    assert(json_views(o@) =~= json_views(before).push(c@));
                    i += 1;
                }
                assert(json_views(o@) =~= json_views(v@));
                proof {
                    lemma_arr_view(o);
                    lemma_arr_view(*v);
                }
                Json::Arr(o)
            },
            Json::Obj(v) => {
                let mut o: Vec<(String, Json)> = Vec::new();
                let mut i: usize = 0;
                while i < v.len()
                    invariant
                        i <= v.len(),
                        self == Json::Obj(*v),
                        entry_views(o@) == entry_views(v@).take(i as int),
                    decreases v.len() - i,
                {
                    let ghost before = o@;
                    assert(decreases_to!(*self => self->Obj_0));
                    assert(decreases_to!(self->Obj_0 => self->Obj_0@));
                    assert(decreases_to!(self->Obj_0@ => self->Obj_0@[i as int]));
                    assert(decreases_to!(self->Obj_0@[i as int] => self->Obj_0@[i as int].1));
                    let e = &v[i];
                    let c = e.1.dup();
                    let k = e.0.clone();
                    o.push((k, c));
                    assert(entry_views(o@) =~= entry_views(before).push((k@, c@)));
                    i += 1;
                }
                assert(entry_views(o@) =~= entry_views(v@));
                proof {
                    lemma_obj_view(o);
                    lemma_obj_view(*v);
                }
                Json::Obj(o)
            },
        }
    }
}

pub open spec fn or_null(j: Option<JsonView>) -> JsonView {
    match j {
        Some(v) => v,
        None => JsonView::Null,
    }
}

/// A copy of the document, or null where there is none.
pub fn dup_or_null(j: Option<&Json>) -> (r: Json)
    ensures
        r@ == or_null(opt_view(j)),
{
    match j {
        Some(v) => v.dup(),
        None => Json::Null,
    }
}

/// Copies of the first `n` documents.
pub fn dup_first(v: &Vec<Json>, n: usize) -> (r: Vec<Json>)
    ensures
        json_views(r@) == first_of(json_views(v@), n as nat),
{
    let mut out: Vec<Json> = Vec::new();
    let end: usize = if v.len() < n {
        v.len()
    } else {
        n
    };
    let mut i: usize = 0;
    while i < end
        invariant
            i <= end <= v.len(),
            json_views(out@) == json_views(v@).take(i as int),
        decreases end - i,
    {
        let ghost before = out@;
        let c = v[i].dup();
        out.push(c);
        assert(json_views(out@) =~= json_views(before).push(c@));
        i += 1;
    }
    assert(json_views(out@) =~= first_of(json_views(v@), n as nat));
    out
}

/// The first `n` elements, or all where there are fewer.
pub open spec fn first_of<A>(s: Seq<A>, n: nat) -> Seq<A> {
    if s.len() <= n {
        s
    } else {
        s.take(n as int)
    }
}

/// An object with these entries.
pub fn object(entries: Vec<(String, Json)>) -> (r: Json)
    ensures
        r@ == JsonView::Obj(entry_views(entries@)),
{
    proof {
        lemma_obj_view(entries);
    }
    Json::Obj(entries)
}

/// An array of these documents.
pub fn array(items: Vec<Json>) -> (r: Json)
    ensures
        r@ == JsonView::Arr(json_views(items@)),
{
    proof {
        lemma_arr_view(items);
    }
    Json::Arr(items)
}

/// A text as a document.
pub fn text(s: &str) -> (r: Json)
    ensures
        r@ == JsonView::Str(s@),
{
    Json::Str(s.to_owned())
}

/// The text of `j`, or the empty text where it is missing or no text.
pub fn str_or_empty(j: Option<&Json>) -> (r: &str)
    ensures
        r@ == text_or_empty(opt_view(j)),
{
    match j {
        Some(v) => match v.as_str() {
            Some(s) => s,
            None => empty_str(),
        },
        None => empty_str(),
    }
}

fn empty_str() -> (r: &'static str)
    ensures
        r@ == Seq::<char>::empty(),
{
    proof {
        reveal_strlit("");
    }
    assert(""@ =~= Seq::<char>::empty());
    ""
}

pub fn u64_or(j: Option<&Json>, default: u64) -> (r: u64)
    ensures
        r == uint_or(opt_view(j), default),
{
    match j {
        Some(v) => match v.as_u64() {
            Some(n) => n,
            None => default,
        },
        None => default,
    }
}

pub fn bool_or(j: Option<&Json>, default: bool) -> (r: bool)
    ensures
        r == flag_or(opt_view(j), default),
{
    match j {
        Some(v) => match v.as_bool() {
            Some(b) => b,
            None => default,
        },
        None => default,
    }
}

/// The number of `j` in millionths, cut to the range that is kept.
pub fn real_of(j: Option<&Json>) -> (r: Option<i64>)
    ensures
        match r {
            Some(n) => number(opt_view(j)) == Some(n as int) && -LIMIT <= n <= LIMIT,
            None => number(opt_view(j)) is None,
        },
{
    match j {
        Some(v) => match v.as_micro() {
            Some(n) => Some(keep(n)),
            None => None,
        },
        None => None,
    }
}

pub fn real_or_default(j: Option<&Json>, default: i64) -> (r: i64)
    requires
        -LIMIT <= default <= LIMIT,
    ensures
        r == real_or(opt_view(j), default as int),
        -LIMIT <= r <= LIMIT,
{
    match real_of(j) {
        Some(n) => n,
        None => default,
    }
}

/// The items of `j`, where it is an array.
pub fn array_of(j: Option<&Json>) -> (r: Option<&Vec<Json>>)
    ensures
        match r {
            Some(v) => items_or_empty(opt_view(j)) == json_views(v@) && opt_view(j) == Some(
                JsonView::Arr(json_views(v@)),
            ),
            None => items_or_empty(opt_view(j)) == Seq::<JsonView>::empty() && !(opt_view(
                j,
            ) is Some && opt_view(j)->0 is Arr),
        },
{
    match j {
        Some(v) => v.as_array(),
        None => None,
    }
}

/// What is written under a key is read back, and what stands under any other key stays.
pub proof fn written_entries_are_read(
    o: Seq<(Seq<char>, JsonView)>,
    key: Seq<char>,
    value: JsonView,
    other: Seq<char>,
)
    ensures
        entry(with_entry(o, key, value), key) == Some(value),
        other != key ==> entry(with_entry(o, key, value), other) == entry(o, other),
        entry(o, key) is None ==> with_entry(o, key, value).len() == o.len() + 1,
        entry(o, key) is Some ==> with_entry(o, key, value).len() == o.len(),
    decreases o.len(),
{
    reveal_with_fuel(entry, 2);
    let u = with_entry(o, key, value);
    if o.len() == 0 {
        assert(u.skip(1) =~= Seq::empty());
    } else if o[0].0 == key {
        assert(u.skip(1) =~= o.skip(1));
    } else {
        written_entries_are_read(o.skip(1), key, value, other);
        assert(u.skip(1) =~= with_entry(o.skip(1), key, value));
    }
}

/// Each kind of value is read as what it is, and as nothing else; a whole number is read as one
/// where it fits, and as a number of millionths.
pub proof fn values_are_read_as_they_are(j: JsonView)
    ensures
        j.text() is Some <==> j is Str,
        j.uint() is Some <==> j is UInt,
        j.flag() is Some <==> j is Bool,
        j.items() is Some <==> j is Arr,
        j.integer() is Some <==> j is Int || (j is UInt && j->UInt_0 <= i64::MAX),
        j.micro() is Some <==> j is Int || j is UInt || j is Real,
        j is UInt ==> j.micro() == Some(j->UInt_0 * 1_000_000),
        j is Int ==> j.integer() == Some(j->Int_0 as int) && j.micro() == Some(
            j->Int_0 * 1_000_000,
        ),
        j is UInt && j.integer() is Some ==> j.integer()->0 == j.uint()->0,
        text_or_empty(Some(j)).len() > 0 ==> j is Str,
        uint_or(None, 7) == 7 && flag_or(None, true) && !flag_or(None, false),
{
}

/// A number is read in millionths, cut to the limits of what is counted with; what is no number is
/// none, or the default.
pub proof fn numbers_are_kept_in_range(j: JsonView, default: int)
    ensures
        number(Some(j)) is Some <==> j is UInt || j is Int || j is Real,
        number(None) is None && real_or(None, default) == default,
        number(Some(j)) is Some ==> -LIMIT <= number(Some(j))->0 <= LIMIT && real_or(
            Some(j),
            default,
        ) == number(Some(j))->0,
        number(Some(j)) is None ==> real_or(Some(j), default) == default,
        j is UInt && j->UInt_0 * 1_000_000 <= LIMIT ==> number(Some(j)) == Some(
            j->UInt_0 * 1_000_000,
        ),
        j is Int && -LIMIT <= j->Int_0 * 1_000_000 <= LIMIT ==> number(Some(j)) == Some(
            j->Int_0 * 1_000_000,
        ),
{
}

/// The first of two is taken where it is there, and else the second; the first of a list are its
/// beginning.
pub proof fn the_first_is_taken<A>(a: Option<JsonView>, b: Option<JsonView>, s: Seq<A>, n: nat)
    ensures
        a is Some ==> or_else(a, b) == a,
        a is None ==> or_else(a, b) == b,
        first_of(s, n).len() <= n,
        first_of(s, n).is_prefix_of(s),
        s.len() <= n ==> first_of(s, n) == s,
        s.len() >= n ==> first_of(s, n).len() == n,
{
    let f = first_of(s, n);
    assert(s.subrange(0, f.len() as int) =~= f);
}

} // verus!
