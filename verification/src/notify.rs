//! Alerts to the phone and to the console: when they go out, and what they say.
use vstd::prelude::*;

use crate::cheater_lobby::{answer_json, answer_label, answer_words};
use crate::codec::{percent_encode, percent_encoded};
use crate::fixed::{fmt0, whole_text};
use crate::json::{
    array_of, first_of, json_views, opt_view, or_else, or_null, dup_or_null, number, with_entry,
    written_entries_are_read, Json, JsonView,
};
use crate::text::{
    begins, cat, cat3, chars_of, join, joined, same, split, split_on, starts_with, text_of, trim,
    trimmed, views,
};

verus! {

// ---------------------------------------------------------------------------------------------
// Settings

/// The setting switches something off.
pub open spec fn says_off(v: Seq<char>) -> bool {
    v == "0"@ || v == "false"@ || v == "no"@
}

pub open spec fn opt_str(s: Option<&str>) -> Option<Seq<char>> {
    match s {
        Some(t) => Some(t@),
        None => None,
    }
}

/// Whether something is on by a setting. What is not set is on.
pub fn is_enabled(setting: Option<&str>) -> (r: bool)
    ensures
        r == match opt_str(setting) {
            Some(v) => !says_off(v),
            None => true,
        },
{
    match setting {
        Some(v) => !(same(v, "0") || same(v, "false") || same(v, "no")),
        None => true,
    }
}

/// Without the slashes at its end.
pub open spec fn without_slashes(s: Seq<char>) -> Seq<char>
    decreases s.len(),
{
    if s.len() > 0 && s.last() == '/' {
        without_slashes(s.drop_last())
    } else {
        s
    }
}

/// An address without the slashes at its end.
pub fn base_address(s: &str) -> (r: String)
    ensures
        r@ == without_slashes(s@),
{
    let v = chars_of(s);
    let mut end: usize = v.len();
    assert(v@.take(end as int) =~= v@);
    while end > 0 && v[end - 1] == '/'
        invariant
            end <= v.len(),
            without_slashes(s@) == without_slashes(v@.take(end as int)),
        decreases end,
    {
        assert(v@.take(end as int).drop_last() =~= v@.take(end - 1));
        end -= 1;
    }
    let t = text_of(&v, 0, end);
    assert(t@ =~= v@.take(end as int));
    t
}

// ---------------------------------------------------------------------------------------------
// The topic

/// The hexadecimal digits of a number, without leading zeros.
pub open spec fn hex_digits(n: nat) -> Seq<char>
    decreases n,
{
    let d = crate::peer_tracker::hex_char(n % 16);
    if n < 16 {
        seq![d]
    } else {
        hex_digits(n / 16).push(d)
    }
}

fn hex(n: u32) -> (r: String)
    ensures
        r@ == hex_digits(n as nat),
    decreases n,
{
    let d: u32 = n % 16;
    let c: char = if d < 10 {
        (48u8 + d as u8) as char
    } else {
        (97u8 + (d - 10) as u8) as char
    };
    if n < 16 {
        let mut s = String::new();
        s.push(c);
        assert(s@ =~= seq![c]);
        s
    } else {
        let mut s = hex(n / 16);
        s.push(c);
        s
    }
}

/// The topic that a random number gives.
pub open spec fn random_topic(n: u32) -> Seq<char> {
    "warzone-sentinel-"@ + hex_digits(n as nat)
}

/// The topic that a random number gives.
pub fn topic_from(n: u32) -> (r: String)
    ensures
        r@ == random_topic(n),
{
    let h = hex(n);
    cat("warzone-sentinel-", h.as_str())
}

/// The topic of the setting, or else of the configuration.
pub open spec fn set_topic(setting: Option<Seq<char>>, config: Option<JsonView>) -> Option<
    Seq<char>,
> {
    if setting matches Some(t) && trimmed(t).len() > 0 {
        Some(trimmed(setting->0))
    } else {
        match config {
            Some(c) => match c.field("topic"@) {
                Some(v) => v.text(),
                None => None,
            },
            None => None,
        }
    }
}

pub open spec fn opt_text(s: Option<String>) -> Option<Seq<char>> {
    match s {
        Some(t) => Some(t@),
        None => None,
    }
}

/// The topic of the setting, or else of the configuration, where one is set.
pub fn configured_topic(setting: Option<&str>, config: Option<&Json>) -> (r: Option<String>)
    ensures
        opt_text(r) == set_topic(opt_str(setting), opt_view(config)),
{
    if let Some(s) = setting {
        let t = trim(s);
        if !t.as_str().is_empty() {
            return Some(t);
        }
        assert(t@.len() == 0);
    }
    if let Some(c) = config {
        if let Some(v) = c.get("topic") {
            if let Some(t) = v.as_str() {
                return Some(t.to_owned());
            }
        }
    }
    None
}

/// A random number (`rand::random`): any that a `u32` holds.
#[verifier::external_body]
fn random_number() -> (r: u32) {
    rand::random::<u32>()
}

/// The topic of the pushes, and whether it was made up and is to be kept.
pub struct Topic {
    pub text: String,
    pub generated: bool,
}

/// The topic of the pushes. Where none is set, one is made up.
pub fn topic(setting: Option<&str>, config: Option<&Json>) -> (r: Topic)
    ensures
        ({
            let t = set_topic(opt_str(setting), opt_view(config));
            &&& r.generated == (t is None)
            &&& t is Some ==> r.text@ == t->0
            &&& t is None ==> exists|n: u32| r.text@ == #[trigger] random_topic(n)
        }),
{
    match configured_topic(setting, config) {
        Some(t) => Topic { text: t, generated: false },
        None => {
            let n: u32 = random_number();
            let text = topic_from(n);
            assert(text@ == random_topic(n));
            Topic { text, generated: true }
        },
    }
}

/// Where the phone subscribes.
pub fn subscribe_url(server: &str, topic: &str) -> (r: String)
    ensures
        r@ == server@ + "/"@ + topic@,
{
    cat3(server, "/", topic)
}

/// Which alerts can be sent.
pub struct AlertStatus {
    pub phone_push: bool,
    pub phone_subscribe_url: Option<String>,
    pub xbox_live: bool,
}

/// Which alerts can be sent.
pub fn alert_status(phone: bool, url: String, xbox: bool) -> (r: AlertStatus)
    ensures
        r.phone_push == phone,
        r.xbox_live == xbox,
        opt_text(r.phone_subscribe_url) == if phone {
            Some(url@)
        } else {
            None
        },
{
    let phone_subscribe_url = if phone {
        Some(url)
    } else {
        None
    };
    AlertStatus { phone_push: phone, phone_subscribe_url, xbox_live: xbox }
}

// ---------------------------------------------------------------------------------------------
// Titles

pub open spec fn is_ascii_char(c: char) -> bool {
    c <= '\x7f'
}

/// A text as a header can hold it: long dashes become hyphens, and what is not ASCII goes.
pub open spec fn header_text(s: Seq<char>) -> Seq<char>
    decreases s.len(),
{
    if s.len() == 0 {
        Seq::empty()
    } else {
        let t = header_text(s.drop_last());
        let c = s.last();
        if c == '\u{2014}' || c == '\u{2013}' {
            t.push('-')
        } else if is_ascii_char(c) {
            t.push(c)
        } else {
            t
        }
    }
}

/// A header holds ASCII characters only.
pub proof fn headers_are_ascii(s: Seq<char>)
    ensures
        forall|i: int| 0 <= i < header_text(s).len() ==> is_ascii_char(#[trigger] header_text(s)[i]),
    decreases s.len(),
{
    if s.len() > 0 {
        headers_are_ascii(s.drop_last());
        let t = header_text(s.drop_last());
        assert forall|i: int| 0 <= i < header_text(s).len() implies is_ascii_char(
            #[trigger] header_text(s)[i],
        ) by {
            if i < t.len() {
                assert(header_text(s)[i] == t[i]);
            }
        }
    }
}

/// A text as a header can hold it.
pub fn header_safe(text: &str) -> (r: String)
    ensures
        r@ == header_text(text@),
{
    let v = chars_of(text);
    assert(v@.take(v.len() as int) =~= text@);
    safe_part(&v, v.len())
}

fn safe_part(v: &Vec<char>, n: usize) -> (r: String)
    requires
        n <= v.len(),
    ensures
        r@ == header_text(v@.take(n as int)),
{
    let mut out = String::new();
    let mut i: usize = 0;
    assert(out@ =~= header_text(v@.take(0)));
    while i < n
        invariant
            i <= n <= v.len(),
            out@ == header_text(v@.take(i as int)),
        decreases n - i,
    {
        let c = v[i];
        proof {
            let t = v@.take(i + 1);
            assert(t.drop_last() =~= v@.take(i as int));
            assert(t.last() == c);
        }
        if c == '\u{2014}' || c == '\u{2013}' {
            out.push('-');
        } else if c <= '\x7f' {
            out.push(c);
        }
        i += 1;
    }
    out
}

/// The title of a push: its first 200 characters, as a header can hold them.
pub fn push_title(title: &str) -> (r: String)
    ensures
        r@ == header_text(first_of(title@, 200)),
{
    let v = chars_of(title);
    if v.len() > 200 {
        assert(v@.take(200) =~= first_of(title@, 200));
        safe_part(&v, 200)
    } else {
        assert(v@.take(v.len() as int) =~= first_of(title@, 200));
        safe_part(&v, v.len())
    }
}

// ---------------------------------------------------------------------------------------------
// When an alert goes out

/// How bad a score is.
pub open spec fn band_of(score: i64) -> Seq<char> {
    if score >= 750_000 {
        "high"@
    } else if score >= 450_000 {
        "med"@
    } else {
        "low"@
    }
}

/// What tells alerts apart.
pub open spec fn alert_key(phase: Seq<char>, score: i64, level: Seq<char>) -> Seq<char> {
    phase + ":"@ + band_of(score) + ":"@ + level
}

/// What tells alerts apart: the phase, the band of the score and the level.
pub fn coalesce_key(phase: &str, score: i64, level: &str) -> (r: String)
    ensures
        r@ == alert_key(phase@, score, level@),
{
    let band = if score >= 750_000 {
        "high"
    } else if score >= 450_000 {
        "med"
    } else {
        "low"
    };
    let mut s = cat3(phase, ":", band);
    s.append(":");
    s.append(level);
    s
}

/// The last alerts that went out. Times are in millionths of a second.
pub struct AlertGate {
    last_key: String,
    last_at: i64,
    last_xbox_at: i64,
}

#[verifier::ext_equal]
pub struct GateView {
    pub last_key: Seq<char>,
    pub last_at: i64,
    pub last_xbox_at: i64,
}

impl View for AlertGate {
    type V = GateView;

    closed spec fn view(&self) -> GateView {
        GateView {
            last_key: self.last_key@,
            last_at: self.last_at,
            last_xbox_at: self.last_xbox_at,
        }
    }
}

impl GateView {
    /// An alert says again what another said less than two minutes ago.
    pub open spec fn repeats(self, key: Seq<char>, now: i64) -> bool {
        self.last_key == key && now - self.last_at < 120_000_000
    }

    /// The console was written to less than the cooldown ago.
    pub open spec fn xbox_cools(self, now: i64, cooldown: i64) -> bool {
        now - self.last_xbox_at < cooldown
    }
}

impl AlertGate {
    /// Nothing went out yet.
    pub fn new() -> (r: AlertGate)
        ensures
            r@ == (GateView { last_key: Seq::empty(), last_at: 0, last_xbox_at: 0 }),
    {
        AlertGate { last_key: String::new(), last_at: 0, last_xbox_at: 0 }
    }

    /// Whether an alert is held back. One that is forced is not.
    pub fn holds_back(&self, key: &str, force: bool, now: i64) -> (r: bool)
        ensures
            r == (!force && self@.repeats(key@, now)),
    {
        !force && same(self.last_key.as_str(), key) && (now as i128 - self.last_at as i128)
            < 120_000_000
    }

    /// Takes in whether an alert reached the phone or the console; tells whether it did.
    pub fn sent(&mut self, key: &str, phone: bool, xbox: bool, now: i64) -> (r: bool)
        ensures
            r == (phone || xbox),
            final(self)@ == if r {
                GateView { last_key: key@, last_at: now, ..old(self)@ }
            } else {
                old(self)@
            },
    {
        if phone || xbox {
            self.last_key = key.to_owned();
            self.last_at = now;
            true
        } else {
            false
        }
    }

    /// Whether a message to the console is due. One that is forced is.
    pub fn xbox_due(&self, force: bool, now: i64, cooldown: i64) -> (r: bool)
        ensures
            r == (force || !self@.xbox_cools(now, cooldown)),
    {
        force || now as i128 - self.last_xbox_at as i128 >= cooldown as i128
    }

    /// Takes in that a message reached the console.
    pub fn xbox_sent(&mut self, now: i64)
        ensures
            final(self)@ == (GateView { last_xbox_at: now, ..old(self)@ }),
    {
        self.last_xbox_at = now;
    }
}

/// An alert that went out is not repeated for two minutes, and one that says something else is
/// never held back.
pub proof fn alerts_are_not_repeated(g: GateView, key: Seq<char>, other: Seq<char>, at: i64, now: i64)
    ensures
        ({
            let h = GateView { last_key: key, last_at: at, ..g };
            &&& now - at < 120_000_000 ==> h.repeats(key, now)
            &&& now - at >= 120_000_000 ==> !h.repeats(key, now)
            &&& other != key ==> !h.repeats(other, now)
        }),
{
}

// ---------------------------------------------------------------------------------------------
// What an alert says

/// A push to the phone.
pub struct Push {
    pub title: String,
    pub body: String,
}

/// The texts among items.
pub open spec fn texts_in(items: Seq<JsonView>) -> Seq<Seq<char>>
    decreases items.len(),
{
    if items.len() == 0 {
        Seq::empty()
    } else {
        let t = texts_in(items.drop_last());
        match items.last().text() {
            Some(s) => t.push(s),
            None => t,
        }
    }
}

/// The reasons that a push gives: the first three of the verdict, or of the anomalies where the
/// verdict lists none.
pub open spec fn push_reasons(lobby: JsonView, anomalies: Seq<Seq<char>>) -> Seq<Seq<char>> {
    match lobby.field("reasons"@) {
        Some(JsonView::Arr(items)) => texts_in(first_of(items, 3)),
        _ => first_of(anomalies, 3),
    }
}

pub open spec fn lobby_words(lobby: JsonView) -> (Seq<char>, Seq<char>, Seq<char>) {
    answer_words(
        answer_label(lobby),
        match number(lobby.field("confidence"@)) {
            Some(n) => n,
            None => 0,
        },
    )
}

fn append_first(out: &mut Vec<String>, v: &Vec<String>, n: usize)
    ensures
        views(final(out)@) == views(old(out)@) + first_of(views(v@), n as nat),
{
    let ghost before = views(out@);
    let ghost all = views(v@);
    let mut i: usize = 0;
    assert(before + all.take(0) =~= before);
    while i < v.len() && i < n
        invariant
            i <= v.len(),
            i <= n,
            all == views(v@),
            views(out@) == before + all.take(i as int),
        decreases v.len() - i,
    {
        let ghost o = out@;
        out.push(v[i].as_str().to_owned());
        assert(views(out@) =~= views(o).push(all[i as int]));
        assert(before + all.take(i + 1) =~= (before + all.take(i as int)).push(all[i as int]));
        i += 1;
    }
    assert(all.take(i as int) =~= first_of(all, n as nat));
}

fn append_texts(out: &mut Vec<String>, v: &Vec<Json>, n: usize)
    ensures
        views(final(out)@) == views(old(out)@) + texts_in(first_of(json_views(v@), n as nat)),
{
    let ghost before = views(out@);
    let ghost all = json_views(v@);
    let mut i: usize = 0;
    assert(before + texts_in(all.take(0)) =~= before);
    while i < v.len() && i < n
        invariant
            i <= v.len(),
            i <= n,
            all == json_views(v@),
            views(out@) == before + texts_in(all.take(i as int)),
        decreases v.len() - i,
    {
        proof {
            let t = all.take(i + 1);
            assert(t.drop_last() =~= all.take(i as int));
            assert(t.last() == v@[i as int]@);
        }
        if let Some(s) = v[i].as_str() {
            let ghost o = out@;
            out.push(s.to_owned());
            assert(views(out@) =~= views(o).push(s@));
            assert(before + texts_in(all.take(i + 1)) =~= (before + texts_in(
                all.take(i as int),
            )).push(s@));
        }
        i += 1;
    }
    assert(all.take(i as int) =~= first_of(all, n as nat));
}

/// What a push on a lobby says: the verdict in plain words, its reasons, and what to do.
pub fn session_push(lobby: &Json, anomalies: &Vec<String>, recommendation: &str) -> (r: Push)
    ensures
        r.title@ == "Warzone — "@ + lobby_words(lobby@).1,
        r.body@ == joined(
            seq![lobby_words(lobby@).2] + push_reasons(lobby@, views(anomalies@)) + seq![
                recommendation@,
            ],
            "\n"@,
        ),
{
    let answer = answer_json(lobby);
    let title = cat("Warzone — ", answer.headline);
    let mut lines: Vec<String> = Vec::new();
    lines.push(answer.plain);
    assert(views(lines@) =~= seq![lobby_words(lobby@).2]);
    match array_of(lobby.get("reasons")) {
        Some(v) => {
            append_texts(&mut lines, v, 3);
        },
        None => {
            append_first(&mut lines, anomalies, 3);
        },
    }
    let ghost before = lines@;
    lines.push(recommendation.to_owned());
    assert(views(lines@) =~= views(before) + seq![recommendation@]);
    Push { title, body: join(&lines, "\n") }
}

/// The bytes of a character in UTF-8.
pub open spec fn char_bytes(c: char) -> nat {
    let n = c as u32;
    if n < 0x80 {
        1
    } else if n < 0x800 {
        2
    } else if n < 0x1_0000 {
        3
    } else {
        4
    }
}

/// The bytes of a text in UTF-8.
pub open spec fn text_bytes(s: Seq<char>) -> nat
    decreases s.len(),
{
    if s.len() == 0 {
        0
    } else {
        text_bytes(s.drop_last()) + char_bytes(s.last())
    }
}

/// How many characters fit in a number of bytes.
pub open spec fn fitting(s: Seq<char>, max: nat) -> nat
    decreases s.len(),
{
    if text_bytes(s) <= max || s.len() == 0 {
        s.len()
    } else {
        fitting(s.drop_last(), max)
    }
}

/// A text cut to a number of bytes, with dots where something was cut off.
pub open spec fn cut_to_bytes(s: Seq<char>, max: nat) -> Seq<char> {
    if text_bytes(s) <= max {
        s
    } else {
        s.take(
            fitting(
                s,
                if max < 3 {
                    0
                } else {
                    (max - 3) as nat
                },
            ) as int,
        ) + "..."@
    }
}

fn bytes_of_char(c: char) -> (r: usize)
    ensures
        r == char_bytes(c),
{
    let n: u32 = c as u32;
    if n < 0x80 {
        1
    } else if n < 0x800 {
        2
    } else if n < 0x1_0000 {
        3
    } else {
        4
    }
}

proof fn lemma_text_bytes(s: Seq<char>, k: int)
    requires
        0 <= k <= s.len(),
    ensures
        text_bytes(s.take(k)) <= text_bytes(s),
        k < s.len() ==> text_bytes(s.take(k)) < text_bytes(s),
        k < s.len() ==> text_bytes(s.take(k + 1)) == text_bytes(s.take(k)) + char_bytes(s[k]),
    decreases s.len() - k,
{
    if k < s.len() {
        assert(s.take(k + 1).drop_last() =~= s.take(k));
        lemma_text_bytes(s, k + 1);
    } else {
        assert(s.take(k) =~= s);
    }
}

proof fn lemma_fitting(s: Seq<char>, max: nat, k: int)
    requires
        0 <= k <= s.len(),
        text_bytes(s.take(k)) <= max,
        k < s.len() ==> text_bytes(s.take(k + 1)) > max,
    ensures
        fitting(s, max) == k,
    decreases s.len(),
{
    if k == s.len() {
        assert(s.take(k) =~= s);
    } else {
        lemma_text_bytes(s, k + 1);
        let t = s.drop_last();
        assert(t.take(k) =~= s.take(k));
        if k < t.len() {
            assert(t.take(k + 1) =~= s.take(k + 1));
        }
        lemma_fitting(t, max, k);
    }
}

/// A text cut to a number of bytes.
pub fn truncate_utf8(s: &str, max_bytes: usize) -> (r: String)
    ensures
        r@ == cut_to_bytes(s@, max_bytes as nat),
{
    let v = chars_of(s);
    let limit: usize = if max_bytes < 3 {
        0
    } else {
        max_bytes - 3
    };
    // The bytes of the first `i` characters, and how many characters fit with the dots.
    let mut used: usize = 0;
    let mut fits: usize = 0;
    let mut i: usize = 0;
    proof {
        assert(v@.take(0) =~= Seq::<char>::empty());
        if v@.len() > 0 {
            lemma_text_bytes(v@, 0);
        }
    }
    while i < v.len()
        invariant
            i <= v.len(),
            v@ == s@,
            limit == if max_bytes < 3 {
                0int
            } else {
                max_bytes - 3
            },
            used == text_bytes(v@.take(i as int)),
            used <= max_bytes,
            fits <= i,
            text_bytes(v@.take(fits as int)) <= limit,
            fits < i ==> text_bytes(v@.take(fits + 1)) > limit,
        decreases v.len() - i,
    {
        let w: usize = bytes_of_char(v[i]);
        proof {
            lemma_text_bytes(v@, i as int);
        }
        if w > max_bytes - used {
            proof {
                lemma_text_bytes(v@, i + 1);
                lemma_fitting(v@, limit as nat, fits as int);
            }
            let t = text_of(&v, 0, fits);
            assert(t@ =~= s@.take(fits as int));
            return cat(t.as_str(), "...");
        }
        used += w;
        if fits == i && used <= limit {
            fits += 1;
        }
        i += 1;
    }
    assert(v@.take(i as int) =~= s@);
    s.to_owned()
}

/// A text that was cut fits: it has no more bytes than were asked for, where the dots fit.
pub proof fn cut_texts_fit(s: Seq<char>, max: nat)
    requires
        max >= 3,
    ensures
        text_bytes(cut_to_bytes(s, max)) <= max,
{
    if text_bytes(s) > max {
        lemma_fits(s, (max - 3) as nat);
        let t = s.take(fitting(s, (max - 3) as nat) as int);
        reveal_strlit("...");
        let d = "..."@;
        assert(d =~= seq!['.', '.', '.']);
        assert((t + d).drop_last() =~= t + seq!['.', '.']);
        assert((t + seq!['.', '.']).drop_last() =~= t + seq!['.']);
        assert((t + seq!['.']).drop_last() =~= t);
        assert(text_bytes(t + seq!['.']) == text_bytes(t) + 1);
        assert(text_bytes(t + seq!['.', '.']) == text_bytes(t) + 2);
    }
}

proof fn lemma_fits(s: Seq<char>, max: nat)
    ensures
        fitting(s, max) <= s.len(),
        text_bytes(s.take(fitting(s, max) as int)) <= max,
    decreases s.len(),
{
    if text_bytes(s) <= max || s.len() == 0 {
        assert(s.take(s.len() as int) =~= s);
    } else {
        lemma_fits(s.drop_last(), max);
        let k = fitting(s, max) as int;
        assert(s.drop_last().take(k) =~= s.take(k));
    }
}

/// The lines of a message to the console.
pub open spec fn console_lines(
    level: Seq<char>,
    score: int,
    phase: Seq<char>,
    game: Seq<char>,
    recommendation: Seq<char>,
    anomalies: Seq<Seq<char>>,
) -> Seq<char> {
    "Warzone Sentinel — "@ + level + "\n"@ + joined(
        seq![
            recommendation,
            "Integrity "@ + whole_text(score) + "% · "@ + phase + " · "@ + game,
        ] + first_of(anomalies, 3),
        "\n"@,
    )
}

/// The message to the console, of at most 256 bytes.
pub fn console_message(
    level: &str,
    score: i64,
    phase: &str,
    game: &str,
    recommendation: &str,
    anomalies: &Vec<String>,
) -> (r: String)
    ensures
        r@ == cut_to_bytes(
            console_lines(
                level@,
                score as int,
                phase@,
                game@,
                recommendation@,
                views(anomalies@),
            ),
            256,
        ),
{
    let mut second = "Integrity ".to_owned();
    second.append(fmt0(score).as_str());
    second.append("% · ");
    second.append(phase);
    second.append(" · ");
    second.append(game);
    let mut lines: Vec<String> = Vec::new();
    lines.push(recommendation.to_owned());
    lines.push(second);
    assert(views(lines@) =~= seq![recommendation@, second@]);
    append_first(&mut lines, anomalies, 3);
    let mut body = cat3("Warzone Sentinel — ", level, "\n");
    body.append(join(&lines, "\n").as_str());
    truncate_utf8(body.as_str(), 256)
}

// ---------------------------------------------------------------------------------------------
// Signing in

pub open spec fn authorize_text(id: Seq<char>, redirect: Seq<char>, scopes: Seq<char>) -> Seq<char> {
    "https://login.live.com/oauth20_authorize.srf?client_id="@ + percent_encoded(id)
        + "&response_type=code&redirect_uri="@ + percent_encoded(redirect) + "&scope="@
        + percent_encoded(scopes) + "&state=wzsentinel"@
}

/// Where the user signs in.
pub fn xbox_authorize_url(client_id: &str, redirect: &str, scopes: &str) -> (r: String)
    ensures
        r@ == authorize_text(client_id@, redirect@, scopes@),
{
    let mut s = "https://login.live.com/oauth20_authorize.srf?client_id=".to_owned();
    s.append(percent_encode(client_id).as_str());
    s.append("&response_type=code&redirect_uri=");
    s.append(percent_encode(redirect).as_str());
    s.append("&scope=");
    s.append(percent_encode(scopes).as_str());
    s.append("&state=wzsentinel");
    s
}

/// The fields of the form that asks for tokens: `kind` is what is handed in, `field` the name
/// under which `value` goes.
pub open spec fn token_fields(
    id: Seq<char>,
    kind: Seq<char>,
    field: Seq<char>,
    value: Seq<char>,
    redirect: Seq<char>,
) -> Seq<(Seq<char>, Seq<char>)> {
    seq![
        ("client_id"@, id),
        ("grant_type"@, kind),
        (field, value),
        ("redirect_uri"@, redirect),
    ]
}

fn token_form(client_id: &str, kind: &str, field: &str, value: &str, redirect: &str) -> (r: Vec<
    (String, String),
>)
    ensures
        pair_views(r@) == token_fields(client_id@, kind@, field@, value@, redirect@),
{
    let mut v: Vec<(String, String)> = Vec::new();
    v.push(("client_id".to_owned(), client_id.to_owned()));
    v.push(("grant_type".to_owned(), kind.to_owned()));
    v.push((field.to_owned(), value.to_owned()));
    v.push(("redirect_uri".to_owned(), redirect.to_owned()));
    assert(pair_views(v@) =~= token_fields(client_id@, kind@, field@, value@, redirect@));
    v
}

/// The form that trades the code of a sign-in for tokens.
pub fn code_form(client_id: &str, code: &str, redirect: &str) -> (r: Vec<(String, String)>)
    ensures
        pair_views(r@) == token_fields(
            client_id@,
            "authorization_code"@,
            "code"@,
            code@,
            redirect@,
        ),
{
    token_form(client_id, "authorization_code", "code", code, redirect)
}

/// The form that trades a refresh token for new tokens.
pub fn refresh_form(client_id: &str, token: &str, redirect: &str) -> (r: Vec<(String, String)>)
    ensures
        pair_views(r@) == token_fields(
            client_id@,
            "refresh_token"@,
            "refresh_token"@,
            token@,
            redirect@,
        ),
{
    token_form(client_id, "refresh_token", "refresh_token", token, redirect)
}

/// The pairs in the query of a URL, decoded; or why the text is no URL.
pub uninterp spec fn url_query(text: Seq<char>) -> Result<Seq<(Seq<char>, Seq<char>)>, Seq<char>>;

pub open spec fn pair_views(v: Seq<(String, String)>) -> Seq<(Seq<char>, Seq<char>)> {
    v.map_values(|p: (String, String)| (p.0@, p.1@))
}

pub open spec fn query_view(q: Result<Vec<(String, String)>, String>) -> Result<
    Seq<(Seq<char>, Seq<char>)>,
    Seq<char>,
> {
    match q {
        Ok(v) => Ok(pair_views(v@)),
        Err(e) => Err(e@),
    }
}

/// Reads a URL and the pairs of its query (`url::Url::parse`, `url::Url::query_pairs`). Pairs and
/// error are a function of the text alone.
#[verifier::external_body]
fn query_of(text: &str) -> (r: Result<Vec<(String, String)>, String>)
    ensures
        query_view(r) == url_query(text@),
{
    match url::Url::parse(text) {
        Ok(u) => Ok(u.query_pairs().map(|(k, v)| (k.into_owned(), v.into_owned())).collect()),
        Err(e) => Err(e.to_string()),
    }
}

/// The first value under a name.
pub open spec fn first_value(pairs: Seq<(Seq<char>, Seq<char>)>, name: Seq<char>) -> Option<Seq<char>>
    decreases pairs.len(),
{
    if pairs.len() == 0 {
        None
    } else if pairs[0].0 == name {
        Some(pairs[0].1)
    } else {
        first_value(pairs.skip(1), name)
    }
}

/// The rest of the first part that begins with a word.
pub open spec fn first_rest(parts: Seq<Seq<char>>, word: Seq<char>) -> Option<Seq<char>>
    decreases parts.len(),
{
    if parts.len() == 0 {
        None
    } else if begins(parts[0], word) {
        Some(parts[0].skip(word.len() as int))
    } else {
        first_rest(parts.skip(1), word)
    }
}

/// The code in the fragment of a URL.
pub open spec fn fragment_code(url: Seq<char>) -> Option<Seq<char>> {
    let parts = split_on(url, '#');
    if parts.len() > 1 {
        first_rest(split_on(parts[1], '&'), "code="@)
    } else {
        None
    }
}

/// The code that a redirect carries: in its query, or else in its fragment.
pub open spec fn code_in(
    query: Result<Seq<(Seq<char>, Seq<char>)>, Seq<char>>,
    url: Seq<char>,
) -> Result<Seq<char>, Seq<char>> {
    match query {
        Err(e) => Err(e),
        Ok(pairs) => match first_value(pairs, "code"@) {
            Some(c) => Ok(c),
            None => match fragment_code(url) {
                Some(c) => Ok(c),
                None => Err("No authorization code in redirect URL"@),
            },
        },
    }
}

pub open spec fn result_text(r: Result<String, String>) -> Result<Seq<char>, Seq<char>> {
    match r {
        Ok(t) => Ok(t@),
        Err(e) => Err(e@),
    }
}

fn find_value(pairs: &Vec<(String, String)>, name: &str) -> (r: Option<String>)
    ensures
        opt_text(r) == first_value(pair_views(pairs@), name@),
{
    let ghost all = pair_views(pairs@);
    let mut i: usize = 0;
    assert(all.skip(0) =~= all);
    while i < pairs.len()
        invariant
            i <= pairs.len(),
            all == pair_views(pairs@),
            first_value(all, name@) == first_value(all.skip(i as int), name@),
        decreases pairs.len() - i,
    {
        assert(all.skip(i as int)[0] == (pairs@[i as int].0@, pairs@[i as int].1@));
        assert(all.skip(i as int).skip(1) =~= all.skip(i + 1));
        if same(pairs[i].0.as_str(), name) {
            return Some(pairs[i].1.as_str().to_owned());
        }
        i += 1;
    }
    assert(all.skip(i as int) =~= Seq::empty());
    None
}

fn find_rest(parts: &Vec<String>, word: &str) -> (r: Option<String>)
    ensures
        opt_text(r) == first_rest(views(parts@), word@),
{
    let ghost all = views(parts@);
    let n: usize = chars_of(word).len();
    let mut i: usize = 0;
    assert(all.skip(0) =~= all);
    while i < parts.len()
        invariant
            i <= parts.len(),
            n == word@.len(),
            all == views(parts@),
            first_rest(all, word@) == first_rest(all.skip(i as int), word@),
        decreases parts.len() - i,
    {
        assert(all.skip(i as int)[0] == parts@[i as int]@);
        assert(all.skip(i as int).skip(1) =~= all.skip(i + 1));
        if starts_with(parts[i].as_str(), word) {
            let v = chars_of(parts[i].as_str());
            let t = text_of(&v, n, v.len());
            assert(t@ =~= parts@[i as int]@.skip(n as int));
            return Some(t);
        }
        i += 1;
    }
    assert(all.skip(i as int) =~= Seq::empty());
    None
}

/// The code that a redirect carries, given the pairs of its query.
pub fn auth_code_in(query: Result<Vec<(String, String)>, String>, redirect_url: &str) -> (r: Result<
    String,
    String,
>)
    ensures
        result_text(r) == code_in(query_view(query), redirect_url@),
{
    let pairs = match query {
        Ok(v) => v,
        Err(e) => return Err(e),
    };
    if let Some(c) = find_value(&pairs, "code") {
        return Ok(c);
    }
    let parts = split(redirect_url, '#');
    assert(views(parts@).len() == parts@.len());
    if parts.len() > 1 {
        assert(views(parts@)[1] == parts@[1]@);
        let pieces = split(parts[1].as_str(), '&');
        if let Some(c) = find_rest(&pieces, "code=") {
            return Ok(c);
        }
    }
    Err("No authorization code in redirect URL".to_owned())
}

/// The code that a redirect carries.
pub fn extract_auth_code(redirect_url: &str) -> (r: Result<String, String>)
    ensures
        result_text(r) == code_in(url_query(trimmed(redirect_url@)), redirect_url@),
{
    let t = trim(redirect_url);
    auth_code_in(query_of(t.as_str()), redirect_url)
}

// ---------------------------------------------------------------------------------------------
// Tokens

pub open spec fn field_text(doc: JsonView, key: Seq<char>) -> Option<Seq<char>> {
    match doc.field(key) {
        Some(v) => v.text(),
        None => None,
    }
}

/// A text of a reply, or what is missing in it.
pub fn required_text(doc: &Json, key: &str, missing: &str) -> (r: Result<String, String>)
    ensures
        result_text(r) == match field_text(doc@, key@) {
            Some(t) => Ok(t),
            None => Err(missing@),
        },
{
    if let Some(v) = doc.get(key) {
        if let Some(t) = v.as_str() {
            return Ok(t.to_owned());
        }
    }
    Err(missing.to_owned())
}

/// Whether the console can be written to: a token is stored.
pub fn xbox_configured(store: Option<&Json>) -> (r: bool)
    ensures
        r == (opt_view(store) is Some && opt_view(store)->0.field("refresh_token"@) is Some),
{
    match store {
        Some(s) => s.get("refresh_token").is_some(),
        None => false,
    }
}

/// What is stored after the user signed in; `updated_at` is the time.
pub open spec fn first_store(refresh: Seq<char>, resp: JsonView, updated_at: JsonView) -> JsonView {
    JsonView::Obj(
        seq![
            ("refresh_token"@, JsonView::Str(refresh)),
            ("access_token"@, or_null(resp.field("access_token"@))),
            ("updated_at"@, updated_at),
        ],
    )
}

/// What is stored after the user signed in.
pub fn exchanged_store(resp: &Json, updated_at: Json) -> (r: Result<Json, String>)
    ensures
        match field_text(resp@, "refresh_token"@) {
            Some(t) => r matches Ok(s) && s@ == first_store(t, resp@, updated_at@),
            None => r matches Err(e) && e@ == "no refresh_token"@,
        },
{
    let refresh = match required_text(resp, "refresh_token", "no refresh_token") {
        Ok(t) => t,
        Err(e) => return Err(e),
    };
    let mut v: Vec<(String, Json)> = Vec::new();
    v.push(("refresh_token".to_owned(), crate::json::text(refresh.as_str())));
    v.push(("access_token".to_owned(), dup_or_null(resp.get("access_token"))));
    v.push(("updated_at".to_owned(), updated_at));
    assert(crate::json::entry_views(v@) =~= seq![
        ("refresh_token"@, JsonView::Str(refresh@)),
        ("access_token"@, or_null(resp@.field("access_token"@))),
        ("updated_at"@, updated_at@),
    ]);
    Ok(crate::json::object(v))
}

/// What is stored after the tokens were renewed: a new refresh token where there is one, the new
/// access token, and the time.
pub open spec fn renewed(o: Seq<(Seq<char>, JsonView)>, tok: JsonView, updated_at: JsonView) -> Seq<
    (Seq<char>, JsonView),
> {
    let a = match field_text(tok, "refresh_token"@) {
        Some(t) => with_entry(o, "refresh_token"@, JsonView::Str(t)),
        None => o,
    };
    with_entry(
        with_entry(a, "access_token"@, or_null(tok.field("access_token"@))),
        "updated_at"@,
        updated_at,
    )
}

/// What is stored after the tokens were renewed.
pub fn renewed_store(store: Json, tok: &Json, updated_at: Json) -> (r: Json)
    requires
        store@ is Obj,
    ensures
        r@ == JsonView::Obj(renewed(store@->Obj_0, tok@, updated_at@)),
{
    let mut s = store;
    if let Some(v) = tok.get("refresh_token") {
        if let Some(t) = v.as_str() {
            let _ok = s.set("refresh_token", crate::json::text(t));
        }
    }
    let _ok = s.set("access_token", dup_or_null(tok.get("access_token")));
    let _ok = s.set("updated_at", updated_at);
    s
}

/// The first claim of an authorization.
pub open spec fn first_claim(xsts: JsonView) -> Option<JsonView> {
    match xsts.field_in("DisplayClaims"@, "xui"@) {
        Some(JsonView::Arr(items)) => if items.len() > 0 {
            Some(items[0])
        } else {
            None
        },
        Some(JsonView::Obj(o)) => JsonView::Obj(o).field("0"@),
        _ => None,
    }
}

/// Who the user is.
pub struct XboxIdentity {
    pub uhs: String,
    pub xuid: String,
}

pub open spec fn claim_xuid(claim: JsonView) -> Option<Seq<char>> {
    match or_else(claim.field("xid"@), claim.field("xuid"@)) {
        Some(v) => v.text(),
        None => None,
    }
}

/// What is missing in an authorization, in the order in which it is looked for.
pub open spec fn claim_error(xsts: JsonView) -> Option<Seq<char>> {
    match first_claim(xsts) {
        None => Some("no xui claims"@),
        Some(c) => if field_text(c, "uhs"@) is None {
            Some("no uhs"@)
        } else if claim_xuid(c) is None {
            Some("no xuid"@)
        } else {
            None
        },
    }
}

fn claim_of(xsts: &Json) -> (r: Option<&Json>)
    ensures
        opt_view(r) == first_claim(xsts@),
{
    match xsts.get_in("DisplayClaims", "xui") {
        None => None,
        Some(v) => match v.as_array() {
            Some(items) => {
                if items.len() > 0 {
                    assert(json_views(items@)[0] == items@[0]@);
                    Some(&items[0])
                } else {
                    None
                }
            },
            None => v.get("0"),
        },
    }
}

/// Who the user is, by an authorization.
pub fn identity_of(xsts: &Json) -> (r: Result<XboxIdentity, String>)
    ensures
        match claim_error(xsts@) {
            Some(e) => r matches Err(t) && t@ == e,
            None => r matches Ok(id) && Some(id.uhs@) == field_text(
                first_claim(xsts@)->0,
                "uhs"@,
            ) && Some(id.xuid@) == claim_xuid(first_claim(xsts@)->0),
        },
{
    let claim = match claim_of(xsts) {
        Some(c) => c,
        None => return Err("no xui claims".to_owned()),
    };
    let uhs = match required_text(claim, "uhs", "no uhs") {
        Ok(t) => t,
        Err(e) => return Err(e),
    };
    if let Some(v) = claim.get_either("xid", "xuid") {
        if let Some(t) = v.as_str() {
            return Ok(XboxIdentity { uhs, xuid: t.to_owned() });
        }
    }
    Err("no xuid".to_owned())
}

/// What is to be stored where the user was not known yet.
pub fn store_with_user(store: &Json, xuid: &str) -> (r: Option<Json>)
    requires
        store@ is Obj,
    ensures
        r is Some <==> store@.field("xuid"@) is None,
        r matches Some(s) ==> s@ == JsonView::Obj(
            with_entry(store@->Obj_0, "xuid"@, JsonView::Str(xuid@)),
        ),
{
    if store.get("xuid").is_some() {
        return None;
    }
    let mut s = store.dup();
    let _ok = s.set("xuid", crate::json::text(xuid));
    Some(s)
}

/// Where a message to a user goes.
pub fn message_url(xuid: &str) -> (r: String)
    ensures
        r@ == "https://xblmessaging.xboxlive.com/network/Xbox/users/me/conversations/users/xuid("@
            + xuid@ + ")"@,
{
    cat3(
        "https://xblmessaging.xboxlive.com/network/Xbox/users/me/conversations/users/xuid(",
        xuid,
        ")",
    )
}

/// The header that authorizes a message.
pub fn message_authorization(uhs: &str, token: &str) -> (r: String)
    ensures
        r@ == "XBL3.0 x="@ + uhs@ + ";"@ + token@,
{
    let mut s = cat3("XBL3.0 x=", uhs, ";");
    s.append(token);
    s
}

/// A score is high from 0.75 on, middling from 0.45 on and low below; two scores of one band, in
/// one phase and at one level, make the same alert.
pub proof fn scores_have_bands(score: i64, other: i64, phase: Seq<char>, level: Seq<char>)
    ensures
        band_of(score) == "high"@ <==> score >= 750_000,
        band_of(score) == "med"@ <==> 450_000 <= score < 750_000,
        band_of(score) == "low"@ <==> score < 450_000,
        (score >= 750_000 && other >= 750_000) || (score < 450_000 && other < 450_000) || (450_000
            <= score < 750_000 && 450_000 <= other < 750_000) ==> alert_key(phase, score, level)
            == alert_key(phase, other, level),
{
    reveal_strlit("high");
    reveal_strlit("med");
    reveal_strlit("low");
    assert("high"@.len() == 4 && "med"@.len() == 3 && "low"@.len() == 3 && "med"@[0] == 'm'
        && "low"@[0] == 'l');
}

/// An alert repeats where the same was sent less than two minutes ago, and a message waits while
/// the last is younger than the pause.
pub proof fn alerts_wait_for_their_time(g: GateView, key: Seq<char>, now: i64, cooldown: i64)
    ensures
        g.repeats(key, now) <==> g.last_key == key && now < g.last_at + 120_000_000,
        g.xbox_cools(now, cooldown) <==> now < g.last_xbox_at + cooldown,
{
}

/// A header keeps every character of ASCII in its place, writes dashes as hyphens, and leaves out
/// all others.
pub proof fn headers_keep_ascii(s: Seq<char>, c: char)
    ensures
        is_ascii_char(c) ==> header_text(s.push(c)) == header_text(s).push(c),
        c == '\u{2014}' || c == '\u{2013}' ==> header_text(s.push(c)) == header_text(s).push('-'),
        !is_ascii_char(c) && c != '\u{2014}' && c != '\u{2013}' ==> header_text(s.push(c))
            == header_text(s),
        (forall|i: int| 0 <= i < s.len() ==> is_ascii_char(#[trigger] s[i]))
            ==> header_text(s) == s,
    decreases s.len(),
{
    assert(s.push(c).drop_last() =~= s);
    if s.len() > 0 {
        let u = s.drop_last();
        headers_keep_ascii(u, s.last());
        assert(u.push(s.last()) =~= s);
        if forall|i: int| 0 <= i < s.len() ==> is_ascii_char(#[trigger] s[i]) {
            assert forall|i: int| 0 <= i < u.len() implies is_ascii_char(#[trigger] u[i]) by {
                assert(u[i] == s[i]);
            }
            assert(is_ascii_char(s[s.len() - 1]));
        }
    }
}

/// A text that is cut keeps as much as fits: what fits stays whole; what does not ends in three
/// dots, is a beginning of the text before them, and one character more would not have fitted.
pub proof fn cut_texts_keep_what_fits(s: Seq<char>, max: nat)
    requires
        max >= 3,
    ensures
        ({
            let t = cut_to_bytes(s, max);
            let k = t.len() - 3;
            &&& text_bytes(s) <= max ==> t == s
            &&& text_bytes(s) > max ==> {
                &&& 0 <= k < s.len()
                &&& t == s.take(k) + "..."@
                &&& text_bytes(s.take(k)) <= max - 3
                &&& text_bytes(s.take(k + 1)) > max - 3
            }
        }),
{
    reveal_strlit("...");
    assert("..."@.len() == 3);
    if text_bytes(s) > max {
        lemma_most_fits(s, (max - 3) as nat);
    }
}

proof fn lemma_most_fits(s: Seq<char>, max: nat)
    ensures
        fitting(s, max) <= s.len(),
        text_bytes(s.take(fitting(s, max) as int)) <= max,
        fitting(s, max) < s.len() ==> text_bytes(s.take((fitting(s, max) + 1) as int)) > max,
        text_bytes(s) > max ==> fitting(s, max) < s.len(),
    decreases s.len(),
{
    if text_bytes(s) <= max || s.len() == 0 {
        assert(s.take(s.len() as int) =~= s);
    } else {
        let u = s.drop_last();
        lemma_most_fits(u, max);
        let k = fitting(u, max) as int;
        assert(u.take(k) =~= s.take(k));
        if k < u.len() {
            assert(u.take(k + 1) =~= s.take(k + 1));
        } else {
            assert(s.take(k + 1) =~= s);
        }
    }
}

/// Characters take one to four bytes, by the ranges of UTF-8.
pub proof fn characters_take_bytes(c: char, s: Seq<char>)
    ensures
        c <= '\x7f' ==> char_bytes(c) == 1,
        '\u{80}' <= c && c <= '\u{7ff}' ==> char_bytes(c) == 2,
        '\u{800}' <= c && c <= '\u{ffff}' ==> char_bytes(c) == 3,
        '\u{10000}' <= c ==> char_bytes(c) == 4,
        text_bytes(s.push(c)) == text_bytes(s) + char_bytes(c),
{
    assert(s.push(c).drop_last() =~= s);
}

/// An address has no slash at its end, and is otherwise as it was.
pub proof fn slashes_are_left_out(s: Seq<char>)
    ensures
        without_slashes(s).len() > 0 ==> without_slashes(s).last() != '/',
        without_slashes(s).is_prefix_of(s),
        s.len() > 0 && s.last() != '/' ==> without_slashes(s) == s,
        without_slashes(s.push('/')) == without_slashes(s),
    decreases s.len(),
{
    assert(s.push('/').drop_last() =~= s);
    if s.len() > 0 && s.last() == '/' {
        let u = s.drop_last();
        slashes_are_left_out(u);
        let w = without_slashes(u);
        assert(s.subrange(0, w.len() as int) =~= u.subrange(0, w.len() as int));
    } else {
        assert(s.subrange(0, s.len() as int) =~= s);
    }
}

/// The topic is the one that is set, without blanks around it; else the one of the configuration.
pub proof fn settings_come_before_the_configuration(
    setting: Option<Seq<char>>,
    config: Option<JsonView>,
)
    ensures
        setting is Some && trimmed(setting->0).len() > 0 ==> set_topic(setting, config) == Some(
            trimmed(setting->0),
        ),
        setting is None || trimmed(setting->0).len() == 0 ==> set_topic(setting, config) == (
        match config {
            Some(c) => field_text(c, "topic"@),
            None => None,
        }),
{
}

/// The code is the first that the query names; without one, the one of the fragment; and without
/// that none. A query that cannot be read is told as it is.
pub proof fn codes_are_looked_for_in_order(
    pairs: Seq<(Seq<char>, Seq<char>)>,
    x: (Seq<char>, Seq<char>),
    name: Seq<char>,
    url: Seq<char>,
)
    ensures
        x.0 == name ==> first_value(seq![x] + pairs, name) == Some(x.1),
        x.0 != name ==> first_value(seq![x] + pairs, name) == first_value(pairs, name),
        first_value(pairs, "code"@) is Some ==> code_in(Ok(pairs), url) == Ok::<
            Seq<char>,
            Seq<char>,
        >(first_value(pairs, "code"@)->0),
        first_value(pairs, "code"@) is None && fragment_code(url) is Some ==> code_in(
            Ok(pairs),
            url,
        ) == Ok::<Seq<char>, Seq<char>>(fragment_code(url)->0),
        first_value(pairs, "code"@) is None && fragment_code(url) is None ==> code_in(
            Ok(pairs),
            url,
        ) is Err,
        code_in(Err(name), url) == Err::<Seq<char>, Seq<char>>(name),
{
    let p = seq![x] + pairs;
    assert(p.skip(1) =~= pairs);
    assert(p[0] == x);
}

/// What a fragment gives is behind the first of its parts that begins with the word.
pub proof fn fragments_give_what_follows(
    parts: Seq<Seq<char>>,
    rest: Seq<char>,
    word: Seq<char>,
)
    ensures
        first_rest(seq![word + rest] + parts, word) == Some(rest),
{
    let p = seq![word + rest] + parts;
    assert(p[0] == word + rest);
    assert((word + rest).subrange(0, word.len() as int) =~= word);
    assert((word + rest).skip(word.len() as int) =~= rest);
}

/// A store that is renewed has the new access token and time; its refresh token is the new one
/// where there is one, and else stays. Nothing else changes.
pub proof fn renewed_stores_keep_the_rest(
    o: Seq<(Seq<char>, JsonView)>,
    tok: JsonView,
    updated_at: JsonView,
    other: Seq<char>,
)
    ensures
        ({
            let r = JsonView::Obj(renewed(o, tok, updated_at));
            let s = JsonView::Obj(o);
            &&& r.field("access_token"@) == Some(or_null(tok.field("access_token"@)))
            &&& r.field("updated_at"@) == Some(updated_at)
            &&& field_text(tok, "refresh_token"@) is Some ==> r.field("refresh_token"@) == Some(
                JsonView::Str(field_text(tok, "refresh_token"@)->0),
            )
            &&& field_text(tok, "refresh_token"@) is None ==> r.field("refresh_token"@) == s.field(
                "refresh_token"@,
            )
            &&& other != "access_token"@ && other != "updated_at"@ && other != "refresh_token"@
                ==> r.field(other) == s.field(other)
        }),
{
    reveal_strlit("access_token");
    reveal_strlit("updated_at");
    reveal_strlit("refresh_token");
    assert("access_token"@.len() == 12 && "updated_at"@.len() == 10 && "refresh_token"@.len()
        == 13);
    let a = match field_text(tok, "refresh_token"@) {
        Some(t) => with_entry(o, "refresh_token"@, JsonView::Str(t)),
        None => o,
    };
    let t = JsonView::Str(field_text(tok, "refresh_token"@)->0);
    written_entries_are_read(o, "refresh_token"@, t, other);
    let v = or_null(tok.field("access_token"@));
    let b = with_entry(a, "access_token"@, v);
    written_entries_are_read(a, "access_token"@, v, other);
    written_entries_are_read(a, "access_token"@, v, "refresh_token"@);
    written_entries_are_read(b, "updated_at"@, updated_at, other);
    written_entries_are_read(b, "updated_at"@, updated_at, "access_token"@);
    written_entries_are_read(b, "updated_at"@, updated_at, "refresh_token"@);
}

/// Claims are refused for the first thing that they lack: any claim at all, the user hash, the user
/// number; and for nothing else.
pub proof fn claims_are_refused_in_order(xsts: JsonView)
    ensures
        ({
            let c = first_claim(xsts);
            &&& claim_error(xsts) is None <==> c is Some && field_text(c->0, "uhs"@) is Some
                && claim_xuid(c->0) is Some
            &&& c is None ==> claim_error(xsts) == Some("no xui claims"@)
            &&& c is Some && field_text(c->0, "uhs"@) is None ==> claim_error(xsts) == Some(
                "no uhs"@,
            )
            &&& c is Some && field_text(c->0, "uhs"@) is Some && claim_xuid(c->0) is None
                ==> claim_error(xsts) == Some("no xuid"@)
        }),
{
}

/// The reasons of a message are the first three that the lobby gives, or the first three
/// anomalies where it gives none.
pub proof fn messages_give_three_reasons(lobby: JsonView, anomalies: Seq<Seq<char>>)
    ensures
        push_reasons(lobby, anomalies).len() <= 3,
        !(lobby.field("reasons"@) is Some && lobby.field("reasons"@)->0 is Arr) ==> push_reasons(
            lobby,
            anomalies,
        ).is_prefix_of(anomalies),
        !(lobby.field("reasons"@) is Some && lobby.field("reasons"@)->0 is Arr) && anomalies.len()
            >= 3 ==> push_reasons(lobby, anomalies).len() == 3,
{
    let r = push_reasons(lobby, anomalies);
    match lobby.field("reasons"@) {
        Some(JsonView::Arr(items)) => {
            lemma_texts_in(first_of(items, 3));
        },
        _ => {
            assert(anomalies.subrange(0, r.len() as int) =~= r);
        },
    }
}

proof fn lemma_texts_in(items: Seq<JsonView>)
    ensures
        texts_in(items).len() <= items.len(),
    decreases items.len(),
{
    if items.len() > 0 {
        lemma_texts_in(items.drop_last());
    }
}

/// The texts of a list are those of its items that are texts, in their order.
pub proof fn texts_are_listed(items: Seq<JsonView>, x: JsonView)
    ensures
        x is Str ==> texts_in(items.push(x)) == texts_in(items).push(x->Str_0),
        !(x is Str) ==> texts_in(items.push(x)) == texts_in(items),
{
    assert(items.push(x).drop_last() =~= items);
}

/// A setting is off where it says so in one of three words.
pub proof fn three_words_say_off(v: Seq<char>)
    ensures
        says_off("0"@) && says_off("false"@) && says_off("no"@),
        v != "0"@ && v != "false"@ && v != "no"@ ==> !says_off(v),
{
}

/// Topics of different numbers differ.
pub proof fn topics_differ(a: u32, b: u32)
    requires
        a != b,
    ensures
        random_topic(a) != random_topic(b),
{
    if random_topic(a) == random_topic(b) {
        let p = "warzone-sentinel-"@;
        let (x, y) = (hex_digits(a as nat), hex_digits(b as nat));
        assert((p + x).skip(p.len() as int) =~= x);
        assert((p + y).skip(p.len() as int) =~= y);
        lemma_hex_digits(a as nat, b as nat);
    }
}

proof fn lemma_hex_digits(a: nat, b: nat)
    requires
        hex_digits(a) == hex_digits(b),
    ensures
        a == b,
    decreases a,
{
    let (x, y) = (hex_digits(a), hex_digits(b));
    assert(x.last() == crate::peer_tracker::hex_char(a % 16));
    assert(y.last() == crate::peer_tracker::hex_char(b % 16));
    assert(a % 16 == b % 16);
    lemma_hex_length(a);
    lemma_hex_length(b);
    if a >= 16 && b >= 16 {
        assert(x.drop_last() =~= hex_digits(a / 16));
        assert(y.drop_last() =~= hex_digits(b / 16));
        lemma_hex_digits(a / 16, b / 16);
    }
}

proof fn lemma_hex_length(n: nat)
    ensures
        hex_digits(n).len() >= 1,
        n < 16 <==> hex_digits(n).len() == 1,
    decreases n,
{
    if n >= 16 {
        lemma_hex_length(n / 16);
    }
}

} // verus!
