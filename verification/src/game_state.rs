//! Events that a companion of the game reports: kicks, the playlist, flagged players.
use vstd::prelude::*;

use crate::counts::{count_in, counted, lemma_counted, Tally};
use crate::enrich::{first_field2, first_field3, get3};
use crate::json::{entry_views, lemma_obj_view, str_or_empty, text_or_empty, Json, JsonView};
use crate::learning::{push_sample, pushed};
use crate::text::same;

verus! {

/// How many events are kept.
pub const MAX_EVENTS: usize = 200;

/// An event. Times are in millionths of a second.
pub struct GameEvent {
    pub ts: i64,
    pub event_type: String,
    pub player: String,
    pub playlist: String,
    pub note: String,
    pub source: String,
    /// The fields that have no place of their own.
    pub extra: Vec<(String, Json)>,
}

#[verifier::ext_equal]
pub struct EventView {
    pub ts: i64,
    pub event_type: Seq<char>,
    pub player: Seq<char>,
    pub playlist: Seq<char>,
    pub note: Seq<char>,
    pub source: Seq<char>,
    pub extra: Seq<(Seq<char>, JsonView)>,
}

impl View for GameEvent {
    type V = EventView;

    open spec fn view(&self) -> EventView {
        EventView {
            ts: self.ts,
            event_type: self.event_type@,
            player: self.player@,
            playlist: self.playlist@,
            note: self.note@,
            source: self.source@,
            extra: entry_views(self.extra@),
        }
    }
}

pub open spec fn event_views(s: Seq<GameEvent>) -> Seq<EventView> {
    s.map_values(|e: GameEvent| e@)
}

/// The reported events and what they add up to. The time of the last kick is 0 where there was
/// none.
pub struct GameStateStore {
    pub events: Vec<GameEvent>,
    pub playlist: String,
    pub last_kick_at: i64,
    pub player_flags: Tally,
}

#[verifier::ext_equal]
pub struct StoreView {
    pub events: Seq<EventView>,
    pub playlist: Seq<char>,
    pub last_kick_at: i64,
    pub player_flags: Seq<(Seq<char>, u64)>,
}

impl View for GameStateStore {
    type V = StoreView;

    open spec fn view(&self) -> StoreView {
        StoreView {
            events: event_views(self.events@),
            playlist: self.playlist@,
            last_kick_at: self.last_kick_at,
            player_flags: self.player_flags@,
        }
    }
}

pub open spec fn text_or(j: Option<JsonView>, default: Seq<char>) -> Seq<char> {
    match j {
        Some(v) => match v.text() {
            Some(s) => s,
            None => default,
        },
        None => default,
    }
}

fn str_or<'a>(j: Option<&'a Json>, default: &'a str) -> (r: &'a str)
    ensures
        r@ == text_or(crate::json::opt_view(j), default@),
{
    match j {
        Some(v) => match v.as_str() {
            Some(s) => s,
            None => default,
        },
        None => default,
    }
}

pub open spec fn type_of(raw: JsonView) -> Seq<char> {
    text_or(raw.field("type"@), "unknown"@)
}

/// The playlist after an event: the one that it states, and for the start of a match its mode.
pub open spec fn playlist_after(playlist: Seq<char>, raw: JsonView) -> Seq<char> {
    let stated = text_or_empty(raw.field("playlist"@));
    let p = if stated.len() > 0 {
        stated
    } else {
        playlist
    };
    let begins = type_of(raw) == "match"@ || type_of(raw) == "match_start"@;
    if begins {
        text_or(raw.field("mode"@), p)
    } else {
        p
    }
}

/// The fields that have a place of their own.
pub open spec fn is_known_field(key: Seq<char>) -> bool {
    ||| key == "type"@
    ||| key == "player"@
    ||| key == "victim"@
    ||| key == "killer"@
    ||| key == "playlist"@
    ||| key == "mode"@
}

pub open spec fn other_fields(o: Seq<(Seq<char>, JsonView)>) -> Seq<(Seq<char>, JsonView)>
    decreases o.len(),
{
    if o.len() == 0 {
        Seq::empty()
    } else {
        let before = other_fields(o.drop_last());
        if is_known_field(o.last().0) {
            before
        } else {
            before.push(o.last())
        }
    }
}

pub open spec fn fields_of(raw: JsonView) -> Seq<(Seq<char>, JsonView)> {
    match raw {
        JsonView::Obj(o) => o,
        _ => Seq::empty(),
    }
}

pub open spec fn player_of(raw: JsonView) -> Seq<char> {
    text_or_empty(first_field3(raw, "player"@, "victim"@, "killer"@))
}

/// The event tells of a kick.
pub open spec fn is_kick(raw: JsonView) -> bool {
    let t = type_of(raw);
    ||| t == "kick"@
    ||| t == "kicked"@
    ||| t == "disconnect"@
    ||| t == "lobby_kick"@
    ||| raw.field("kicked"@) is Some && raw.field("kicked"@)->0.flag() == Some(true)
}

/// The event speaks against a player.
pub open spec fn is_flag(raw: JsonView) -> bool {
    let t = type_of(raw);
    t == "prefire"@ || t == "killcam_result"@ || t == "snap"@ || t == "wallhack"@ || t
        == "cheater"@
}

pub open spec fn event_of(ts: i64, playlist: Seq<char>, raw: JsonView) -> EventView {
    EventView {
        ts,
        event_type: type_of(raw),
        player: player_of(raw),
        playlist,
        note: text_or_empty(first_field2(raw, "note"@, "detail"@)),
        source: text_or(raw.field("source"@), "api"@),
        extra: other_fields(fields_of(raw)),
    }
}

impl StoreView {
    /// After an event.
    pub open spec fn ingested(self, ts: i64, raw: JsonView) -> StoreView {
        let playlist = playlist_after(self.playlist, raw);
        StoreView {
            events: pushed(self.events, event_of(ts, playlist, raw), MAX_EVENTS as nat),
            playlist,
            last_kick_at: if is_kick(raw) {
                ts
            } else {
                self.last_kick_at
            },
            player_flags: if is_flag(raw) && player_of(raw).len() > 0 {
                counted(self.player_flags, player_of(raw))
            } else {
                self.player_flags
            },
        }
    }

    /// A kick was reported within the last `window`.
    pub open spec fn kicked_within(self, window: int, now: i64) -> bool {
        self.last_kick_at > 0 && now - self.last_kick_at <= window
    }

    /// After those events of a batch that are objects.
    pub open spec fn batch_ingested(self, ts: i64, items: Seq<JsonView>) -> StoreView
        decreases items.len(),
    {
        if items.len() == 0 {
            self
        } else {
            let before = self.batch_ingested(ts, items.drop_last());
            if items.last() is Obj {
                before.ingested(ts, items.last())
            } else {
                before
            }
        }
    }
}

/// How many items of a batch are objects.
pub open spec fn object_count(items: Seq<JsonView>) -> nat
    decreases items.len(),
{
    if items.len() == 0 {
        0
    } else {
        object_count(items.drop_last()) + if items.last() is Obj {
            1nat
        } else {
            0nat
        }
    }
}

/// The reply to an event.
pub struct IngestReply {
    pub event_type: String,
    pub playlist: String,
    pub recent_kick: bool,
}

fn other_fields_of(raw: &Json) -> (r: Vec<(String, Json)>)
    ensures
        entry_views(r@) == other_fields(fields_of(raw@)),
{
    let mut out: Vec<(String, Json)> = Vec::new();
    assert(entry_views(out@) =~= Seq::empty());
    if let Json::Obj(v) = raw {
        proof {
            lemma_obj_view(*v);
        }
        let ghost all = entry_views(v@);
        let mut i: usize = 0;
        while i < v.len()
            invariant
                i <= v.len(),
                all == entry_views(v@),
                entry_views(out@) == other_fields(all.take(i as int)),
            decreases v.len() - i,
        {
            let ghost before = out@;
            let e = &v[i];
            proof {
                let u = all.take(i + 1);
                assert(u.drop_last() =~= all.take(i as int));
                assert(u.last() == (e.0@, e.1@));
            }
            let k = e.0.as_str();
            if !(same(k, "type") || same(k, "player") || same(k, "victim") || same(k, "killer")
                || same(k, "playlist") || same(k, "mode")) {
                let key = e.0.clone();
                let value = e.1.dup();
                out.push((key, value));
                assert(entry_views(out@) =~= entry_views(before).push((key@, value@)));
            }
            i += 1;
        }
        assert(all.take(i as int) =~= all);
    }
    out
}

impl GameStateStore {
    pub fn new() -> (r: GameStateStore)
        ensures
            r@ == (StoreView {
                events: Seq::empty(),
                playlist: Seq::empty(),
                last_kick_at: 0,
                player_flags: Seq::empty(),
            }),
    {
        let r = GameStateStore {
            events: Vec::new(),
            playlist: String::new(),
            last_kick_at: 0,
            player_flags: Tally::new(),
        };
        assert(event_views(r.events@) =~= Seq::empty());
        r
    }

    /// Takes in an event.
    pub fn ingest(&mut self, raw: &Json, now: i64) -> (r: IngestReply)
        ensures
            final(self)@ == old(self)@.ingested(now, raw@),
            r.event_type@ == type_of(raw@),
            r.playlist@ == final(self)@.playlist,
            r.recent_kick == final(self)@.kicked_within(120_000_000, now),
    {
        let event_type = str_or(raw.get("type"), "unknown").to_owned();
        let t = event_type.as_str();
        let stated = str_or_empty(raw.get("playlist"));
        if !stated.is_empty() {
            self.playlist = stated.to_owned();
        }
        if same(t, "match") || same(t, "match_start") {
            if let Some(v) = raw.get("mode") {
                if let Some(mode) = v.as_str() {
                    self.playlist = mode.to_owned();
                }
            }
        }
        let player = str_or_empty(get3(raw, "player", "victim", "killer")).to_owned();
        let kicked = match raw.get("kicked") {
            Some(v) => match v.as_bool() {
                Some(b) => b,
                None => false,
            },
            None => false,
        };
        if same(t, "kick") || same(t, "kicked") || same(t, "disconnect") || same(t, "lobby_kick")
            || kicked {
            self.last_kick_at = now;
        }
        let flag = same(t, "prefire") || same(t, "killcam_result") || same(t, "snap") || same(
            t,
            "wallhack",
        ) || same(t, "cheater");
        if !player.as_str().is_empty() && flag {
            self.player_flags.add(player.as_str());
        }
        let ev = GameEvent {
            ts: now,
            event_type: event_type.clone(),
            player,
            playlist: self.playlist.clone(),
            note: str_or_empty(raw.get_either("note", "detail")).to_owned(),
            source: str_or(raw.get("source"), "api").to_owned(),
            extra: other_fields_of(raw),
        };
        let ghost before = self.events@;
        push_sample(&mut self.events, ev, MAX_EVENTS);
        assert(event_views(self.events@) =~= pushed(
            event_views(before),
            ev@,
            MAX_EVENTS as nat,
        ));
        IngestReply {
            event_type,
            playlist: self.playlist.clone(),
            recent_kick: self.recent_kick(120_000_000, now),
        }
    }

    /// Takes in those items of a batch that are objects, and tells how many these are.
    pub fn ingest_batch(&mut self, items: &Vec<Json>, now: i64) -> (r: usize)
        ensures
            final(self)@ == old(self)@.batch_ingested(now, crate::json::json_views(items@)),
            r == object_count(crate::json::json_views(items@)),
    {
        let ghost all = crate::json::json_views(items@);
        let mut n: usize = 0;
        let mut i: usize = 0;
        while i < items.len()
            invariant
                i <= items.len(),
                n <= i,
                all == crate::json::json_views(items@),
                self@ == old(self)@.batch_ingested(now, all.take(i as int)),
                n == object_count(all.take(i as int)),
            decreases items.len() - i,
        {
            proof {
                let u = all.take(i + 1);
                assert(u.drop_last() =~= all.take(i as int));
                assert(u.last() == items@[i as int]@);
            }
            let is_object = match &items[i] {
                Json::Obj(_) => true,
                _ => false,
            };
            if is_object {
                let _ = self.ingest(&items[i], now);
                n += 1;
            }
            i += 1;
        }
        assert(all.take(i as int) =~= all);
        n
    }

    /// The playlist that was reported last.
    pub fn playlist(&self) -> (r: &str)
        ensures
            r@ == self@.playlist,
    {
        self.playlist.as_str()
    }

    /// Whether a kick was reported within the last `window`.
    pub fn recent_kick(&self, window: i64, now: i64) -> (r: bool)
        ensures
            r == self@.kicked_within(window as int, now),
    {
        self.last_kick_at > 0 && now as i128 - self.last_kick_at as i128 <= window as i128
    }

    /// How long ago the last kick was, in millionths of a second.
    pub fn kick_age_sec(&self, now: i64) -> (r: Option<i128>)
        ensures
            r is Some <==> self@.last_kick_at > 0,
            r is Some ==> r->0 == now - self@.last_kick_at,
    {
        if self.last_kick_at <= 0 {
            return None;
        }
        Some(now as i128 - self.last_kick_at as i128)
    }

    /// Forgets the events, the kick and the flags; the playlist stays.
    pub fn clear_session(&mut self)
        ensures
            final(self)@ == (StoreView {
                events: Seq::empty(),
                playlist: old(self)@.playlist,
                last_kick_at: 0,
                player_flags: Seq::empty(),
            }),
    {
        self.events = Vec::new();
        self.last_kick_at = 0;
        self.player_flags = Tally::new();
        assert(event_views(self.events@) =~= Seq::empty());
    }
}

/// An event as it is listed.
pub struct EventLine {
    pub ts: i64,
    pub event_type: String,
    pub player: String,
    pub playlist: String,
    pub source: String,
    pub note: String,
}

/// The line says of the event all but what has no place of its own.
pub open spec fn lists(l: EventLine, e: EventView) -> bool {
    &&& l.ts == e.ts
    &&& l.event_type@ == e.event_type
    &&& l.player@ == e.player
    &&& l.playlist@ == e.playlist
    &&& l.source@ == e.source
    &&& l.note@ == e.note
}

/// The reported events as they are shown.
pub struct GameReport {
    pub playlist: String,
    pub recent_kick: bool,
    pub kick_age_sec: Option<i128>,
    pub flagged_players: usize,
    /// The newest first, 24 at most.
    pub events: Vec<EventLine>,
}

impl GameStateStore {
    /// The reported events as they are shown: a kick within three minutes, and the newest events.
    pub fn to_json(&self, now: i64) -> (r: GameReport)
        ensures
            r.playlist@ == self@.playlist,
            r.recent_kick == self@.kicked_within(180_000_000, now),
            r.kick_age_sec is Some <==> self@.last_kick_at > 0,
            r.kick_age_sec is Some ==> r.kick_age_sec->0 == now - self@.last_kick_at,
            r.flagged_players == self@.player_flags.len(),
            r.events@.len() == if self@.events.len() < 24 {
                self@.events.len()
            } else {
                24
            },
            forall|i: int|
                0 <= i < r.events@.len() ==> lists(
                    #[trigger] r.events@[i],
                    self@.events[self@.events.len() - 1 - i],
                ),
    {
        let mut events: Vec<EventLine> = Vec::new();
        let n: usize = self.events.len();
        assert(self@.events.len() == n);
        let mut i: usize = 0;
        while i < n && i < 24
            invariant
                i <= n == self.events@.len(),
                i <= 24,
                n == self@.events.len(),
                events@.len() == i,
                forall|k: int|
                    0 <= k < i ==> lists(#[trigger] events@[k], self@.events[n - 1 - k]),
            decreases n - i,
        {
            let e = &self.events[n - 1 - i];
            assert(self@.events[n - 1 - i] == e@);
            events.push(
                EventLine {
                    ts: e.ts,
                    event_type: e.event_type.as_str().to_owned(),
                    player: e.player.as_str().to_owned(),
                    playlist: e.playlist.as_str().to_owned(),
                    source: e.source.as_str().to_owned(),
                    note: e.note.as_str().to_owned(),
                },
            );
            i += 1;
        }
        GameReport {
            playlist: self.playlist.as_str().to_owned(),
            recent_kick: self.recent_kick(180_000_000, now),
            kick_age_sec: self.kick_age_sec(now),
            flagged_players: self.player_flags.len(),
            events,
        }
    }
}

/// A report is remembered: right after a kick was taken in, it counts as recent.
pub proof fn kick_is_recent(s: StoreView, ts: i64, raw: JsonView, window: int)
    requires
        ts > 0,
        window >= 0,
        is_kick(raw),
    ensures
        s.ingested(ts, raw).kicked_within(window, ts),
{
}

/// The store never holds more events than it may, whatever was reported.
pub proof fn events_are_bounded(s: StoreView, ts: i64, raw: JsonView)
    ensures
        s.ingested(ts, raw).events.len() <= MAX_EVENTS,
        s.ingested(ts, raw).events.last() == event_of(
            ts,
            s.ingested(ts, raw).playlist,
            raw,
        ),
{
}

/// A kick is an event of one of four types, or one that says so; a flag is one of five.
pub proof fn events_are_told_by_their_type(raw: JsonView)
    ensures
        ({
            let t = type_of(raw);
            let said = raw.field("kicked"@) == Some(JsonView::Bool(true));
            &&& is_kick(raw) <==> t == "kick"@ || t == "kicked"@ || t == "disconnect"@ || t
                == "lobby_kick"@ || said
            &&& is_flag(raw) <==> t == "prefire"@ || t == "killcam_result"@ || t == "snap"@ || t
                == "wallhack"@ || t == "cheater"@
            &&& raw.field("type"@) is None ==> t == "unknown"@
        }),
{
}

/// What an event leaves: a kick its time, a flag one more for its player, and nothing of these
/// otherwise; the playlist is the one that it states, and at the start of a match its mode.
pub proof fn events_leave_their_mark(s: StoreView, ts: i64, raw: JsonView, other: Seq<char>)
    requires
        count_in(s.player_flags, player_of(raw)) < u64::MAX,
    ensures
        ({
            let t = s.ingested(ts, raw);
            let flagged = is_flag(raw) && player_of(raw).len() > 0;
            let stated = text_or_empty(raw.field("playlist"@));
            let start = type_of(raw) == "match"@ || type_of(raw) == "match_start"@;
            &&& is_kick(raw) ==> t.last_kick_at == ts
            &&& !is_kick(raw) ==> t.last_kick_at == s.last_kick_at
            &&& flagged ==> count_in(t.player_flags, player_of(raw)) == count_in(
                s.player_flags,
                player_of(raw),
            ) + 1
            &&& !flagged ==> t.player_flags == s.player_flags
            &&& other != player_of(raw) ==> count_in(t.player_flags, other) == count_in(
                s.player_flags,
                other,
            )
            &&& !start && stated.len() > 0 ==> t.playlist == stated
            &&& !start && stated.len() == 0 ==> t.playlist == s.playlist
            &&& start && text_or_empty(raw.field("mode"@)).len() > 0 ==> t.playlist
                == text_or_empty(raw.field("mode"@))
            &&& start && raw.field("mode"@) is None && stated.len() == 0 ==> t.playlist
                == s.playlist
        }),
{
    lemma_counted(s.player_flags, player_of(raw), other);
}

/// A kick counts for a window from its time on, and no longer; without one nothing does.
pub proof fn kicks_are_recent_for_a_while(s: StoreView, window: int, longer: int, now: i64)
    requires
        window <= longer,
    ensures
        s.kicked_within(window, now) <==> s.last_kick_at > 0 && now <= s.last_kick_at + window,
        s.kicked_within(window, now) ==> s.kicked_within(longer, now),
        s.last_kick_at <= 0 ==> !s.kicked_within(window, now),
{
}

/// The fields that an event keeps besides its own are all others, in their order.
pub proof fn other_fields_are_kept(o: Seq<(Seq<char>, JsonView)>, x: (Seq<char>, JsonView))
    ensures
        ({
            let own = x.0 == "type"@ || x.0 == "player"@ || x.0 == "victim"@ || x.0 == "killer"@
                || x.0 == "playlist"@ || x.0 == "mode"@;
            &&& own ==> other_fields(o.push(x)) == other_fields(o)
            &&& !own ==> other_fields(o.push(x)) == other_fields(o).push(x)
        }),
{
    assert(o.push(x).drop_last() =~= o);
}

/// A batch takes each of its objects in turn, and nothing else.
pub proof fn batches_take_objects(s: StoreView, ts: i64, items: Seq<JsonView>, x: JsonView)
    ensures
        x is Obj ==> s.batch_ingested(ts, items.push(x)) == s.batch_ingested(ts, items).ingested(
            ts,
            x,
        ) && object_count(items.push(x)) == object_count(items) + 1,
        !(x is Obj) ==> s.batch_ingested(ts, items.push(x)) == s.batch_ingested(ts, items)
            && object_count(items.push(x)) == object_count(items),
        items.len() == 0 ==> s.batch_ingested(ts, items) == s,
{
    assert(items.push(x).drop_last() =~= items);
}

} // verus!
