//! The decisions of the polling loop and of the handlers around it.
use vstd::prelude::*;

use crate::json::{
    array, array_of, bool_or, dup_first, flag_or, items_or_empty, json_views, number, opt_view,
    real_of, str_or_empty, text, text_or_empty, u64_or, uint_or, with_entry,
    written_entries_are_read, Json, JsonView,
};
use crate::network_guard::{rows_in, BufferMode, FloodMode};
use crate::notify::{field_text, opt_str};
use crate::packets::{row_views, PacketAnalysis, PacketMetrics, PeerRowView};
use crate::snapshot::{gaming, is_gaming};
use crate::text::{cat, contains, has_text, position, same, trim, trimmed, views};

verus! {

// ---------------------------------------------------------------------------------------------
// The loop

pub open spec fn is_online(raw: JsonView) -> bool {
    match raw.field_in("xbox"@, "online"@) {
        Some(v) => flag_or(Some(v), false),
        None => false,
    }
}

/// Whether the console is on.
pub fn xbox_online(raw: &Json) -> (r: bool)
    ensures
        r == is_online(raw@),
{
    bool_or(raw.get_in("xbox", "online"), false)
}

/// Whether a poll also takes a deep capture: every sixth does, while the console is on.
pub fn deep_capture_due(online: bool, poll_n: u64) -> (r: bool)
    ensures
        r == (online && poll_n % 6 == 0),
{
    online && poll_n % 6 == 0
}

pub open spec fn record_count(capture: Option<JsonView>) -> nat {
    match capture {
        Some(c) => items_or_empty(c.field("records"@)).len(),
        None => 0,
    }
}

/// A snapshot with the deep capture in place of its own, where that holds more packets.
pub open spec fn deepened(raw: JsonView, deep: JsonView) -> JsonView {
    let capture = deep.field("packetCapture"@);
    match raw {
        JsonView::Obj(o) => if record_count(capture) > record_count(raw.field("packetCapture"@)) {
            JsonView::Obj(with_entry(o, "packetCapture"@, capture->0))
        } else {
            raw
        },
        other => other,
    }
}

fn count_records(capture: Option<&Json>) -> (r: usize)
    ensures
        r == record_count(opt_view(capture)),
{
    match capture {
        Some(c) => match array_of(c.get("records")) {
            Some(v) => {
                assert(json_views(v@).len() == v@.len());
                v.len()
            },
            None => 0,
        },
        None => 0,
    }
}

/// A snapshot with the deep capture in place of its own, where that holds more packets.
pub fn with_deep_capture(raw: Json, deep: &Json) -> (r: Json)
    ensures
        r@ == deepened(raw@, deep@),
{
    let capture = deep.get("packetCapture");
    let more = count_records(capture) > count_records(raw.get("packetCapture"));
    let mut out = raw;
    if more {
        if let Some(c) = capture {
            let _ok = out.set("packetCapture", c.dup());
        }
    }
    out
}

/// The capture of a deep snapshot; the snapshot itself where it holds none.
pub fn capture_in(deep: &Json) -> (r: Json)
    ensures
        r@ == match deep@.field("packetCapture"@) {
            Some(c) => c,
            None => deep@,
        },
{
    match deep.get("packetCapture") {
        Some(c) => c.dup(),
        None => deep.dup(),
    }
}

/// The next poll comes soon: in lobby and match, and where the game runs with some connections.
pub open spec fn polls_soon(phase: Seq<char>, online: bool, snapshot: JsonView) -> bool {
    gaming(phase) || (online && text_or_empty(snapshot.field_in("_enriched"@, "game"@))
        == "warzone"@ && uint_or(snapshot.field_in("connections"@, "count"@), 0) >= 20)
}

/// Whether the next poll comes soon.
pub fn is_active(phase: &str, online: bool, snapshot: &Json) -> (r: bool)
    ensures
        r == polls_soon(phase@, online, snapshot@),
{
    if is_gaming(phase) {
        return true;
    }
    if !online {
        return false;
    }
    let conns: u64 = u64_or(snapshot.get_in("connections", "count"), 0);
    same(str_or_empty(snapshot.get_in("_enriched", "game")), "warzone") && conns >= 20
}

/// What the guard's modes count as in the record of a session: the tight profile, and any defense
/// against floods.
pub fn guard_activity(buffer: BufferMode, flood: FloodMode) -> (r: (bool, bool))
    ensures
        r.0 == (buffer == BufferMode::Desync),
        r.1 == (flood != FloodMode::Off),
{
    (buffer == BufferMode::Desync, flood != FloodMode::Off)
}

/// Whether an error of a poll is worth a line in the log: the first, and every twentieth.
pub fn error_is_logged(polls: u64) -> (r: bool)
    ensures
        r == (polls % 20 == 0),
{
    polls % 20 == 0
}

/// Whether the service is well: the last poll worked, or an earlier one did.
pub fn is_well(error: bool, judged: bool) -> (r: bool)
    ensures
        r == (!error || judged),
{
    !error || judged
}

// ---------------------------------------------------------------------------------------------
// Probe hosts

/// The addresses of the probe hosts among the rows, in their order.
pub open spec fn probe_ips(rows: Seq<PeerRowView>) -> Seq<Seq<char>>
    decreases rows.len(),
{
    if rows.len() == 0 {
        Seq::empty()
    } else {
        let earlier = probe_ips(rows.drop_last());
        if rows.last().vps_probe && rows.last().ip.len() > 0 {
            earlier.push(rows.last().ip)
        } else {
            earlier
        }
    }
}

/// The addresses of the probe hosts that an analysis found; none where there are none.
pub fn extract_vps_game_peer_ips(a: &PacketAnalysis) -> (r: Option<Vec<String>>)
    ensures
        match r {
            Some(v) => views(v@) == probe_ips(rows_in(*a)) && v.len() > 0,
            None => probe_ips(rows_in(*a)).len() == 0,
        },
{
    let mut out: Vec<String> = Vec::new();
    let ghost rows = rows_in(*a);
    assert(views(out@) =~= probe_ips(Seq::empty()));
    match &a.metrics {
        PacketMetrics::Capture { peers, .. } => {
            let mut i: usize = 0;
            assert(rows.take(0) =~= Seq::empty());
            while i < peers.len()
                invariant
                    i <= peers.len(),
                    rows == row_views(peers@),
                    views(out@) == probe_ips(rows.take(i as int)),
                decreases peers.len() - i,
            {
                proof {
                    let t = rows.take(i + 1);
                    assert(t.drop_last() =~= rows.take(i as int));
                    assert(t.last() == peers@[i as int]@);
                }
                if peers[i].vps_probe && !peers[i].ip.as_str().is_empty() {
                    let ghost before = out@;
                    out.push(peers[i].ip.as_str().to_owned());
                    assert(views(out@) =~= views(before).push(peers@[i as int]@.ip));
                }
                i += 1;
            }
            assert(rows.take(i as int) =~= rows);
        },
        _ => {},
    }
    assert(views(out@).len() == out@.len());
    if out.len() > 0 {
        Some(out)
    } else {
        None
    }
}

/// The peers that were blocked in this session.
pub struct BlockedPeers {
    ips: Vec<String>,
}

impl View for BlockedPeers {
    type V = Seq<Seq<char>>;

    closed spec fn view(&self) -> Seq<Seq<char>> {
        views(self.ips@)
    }
}

/// The addresses that are not on a list yet.
pub open spec fn not_in(ips: Seq<Seq<char>>, list: Seq<Seq<char>>) -> Seq<Seq<char>>
    decreases ips.len(),
{
    if ips.len() == 0 {
        Seq::empty()
    } else {
        let earlier = not_in(ips.drop_last(), list);
        if list.contains(ips.last()) {
            earlier
        } else {
            earlier.push(ips.last())
        }
    }
}

impl BlockedPeers {
    /// Nothing was blocked yet.
    pub fn new() -> (r: BlockedPeers)
        ensures
            r@.len() == 0,
    {
        BlockedPeers { ips: Vec::new() }
    }

    /// Takes in addresses; gives those that are to be blocked now.
    pub fn take_new(&mut self, ips: &Vec<String>) -> (r: Vec<String>)
        ensures
            views(r@) == not_in(views(ips@), old(self)@),
            final(self)@ == old(self)@ + not_in(views(ips@), old(self)@),
    {
        let mut fresh: Vec<String> = Vec::new();
        let ghost all = views(ips@);
        let mut i: usize = 0;
        assert(views(fresh@) =~= not_in(all.take(0), old(self)@));
        while i < ips.len()
            invariant
                i <= ips.len(),
                all == views(ips@),
                *self == *old(self),
                views(fresh@) == not_in(all.take(i as int), old(self)@),
            decreases ips.len() - i,
        {
            proof {
                let t = all.take(i + 1);
                assert(t.drop_last() =~= all.take(i as int));
                assert(t.last() == ips@[i as int]@);
            }
            match position(&self.ips, ips[i].as_str()) {
                Some(k) => {
                    assert(views(self.ips@)[k as int] == ips@[i as int]@);
                },
                None => {
                    let ghost before = fresh@;
                    fresh.push(ips[i].as_str().to_owned());
                    assert(views(fresh@) =~= views(before).push(ips@[i as int]@));
                },
            }
            i += 1;
        }
        assert(all.take(i as int) =~= all);
        let ghost had = views(self.ips@);
        let mut k: usize = 0;
        let ghost new = views(fresh@);
        assert(had + new.take(0) =~= had);
        while k < fresh.len()
            invariant
                k <= fresh.len(),
                new == views(fresh@),
                views(self.ips@) == had + new.take(k as int),
            decreases fresh.len() - k,
        {
            let ghost before = self.ips@;
            self.ips.push(fresh[k].as_str().to_owned());
            assert(views(self.ips@) =~= views(before).push(new[k as int]));
            assert(had + new.take(k + 1) =~= (had + new.take(k as int)).push(new[k as int]));
            k += 1;
        }
        assert(new.take(k as int) =~= new);
        fresh
    }

    /// Forgets the session.
    pub fn clear(&mut self)
        ensures
            final(self)@.len() == 0,
    {
        self.ips = Vec::new();
    }
}

proof fn lemma_not_in(ips: Seq<Seq<char>>, list: Seq<Seq<char>>)
    ensures
        forall|i: int| 0 <= i < ips.len() ==> list.contains(ips[i]) || not_in(ips, list).contains(
            #[trigger] ips[i],
        ),
        forall|i: int|
            0 <= i < not_in(ips, list).len() ==> !list.contains(#[trigger] not_in(ips, list)[i]),
    decreases ips.len(),
{
    if ips.len() > 0 {
        let u = ips.drop_last();
        lemma_not_in(u, list);
        let a = not_in(u, list);
        let b = not_in(ips, list);
        assert forall|i: int| 0 <= i < ips.len() implies list.contains(ips[i]) || b.contains(
            #[trigger] ips[i],
        ) by {
            if i < u.len() {
                assert(u[i] == ips[i]);
                if a.contains(u[i]) {
                    let k = choose|k: int| 0 <= k < a.len() && a[k] == u[i];
                    assert(b[k] == ips[i]);
                }
            } else if !list.contains(ips.last()) {
                assert(b[b.len() - 1] == ips[i]);
            }
        }
        assert forall|i: int| 0 <= i < b.len() implies !list.contains(#[trigger] b[i]) by {
            if i < a.len() {
                assert(a[i] == b[i]);
            }
        }
    }
}

/// A peer is blocked once in a session: after addresses were taken in, none of them is new.
pub proof fn peers_are_blocked_once(ips: Seq<Seq<char>>, list: Seq<Seq<char>>)
    ensures
        not_in(ips, list + not_in(ips, list)).len() == 0,
{
    let grown = list + not_in(ips, list);
    lemma_not_in(ips, list);
    assert forall|i: int| 0 <= i < ips.len() implies grown.contains(#[trigger] ips[i]) by {
        if list.contains(ips[i]) {
            let k = choose|k: int| 0 <= k < list.len() && list[k] == ips[i];
            assert(grown[k] == ips[i]);
        } else {
            let n = not_in(ips, list);
            let k = choose|k: int| 0 <= k < n.len() && n[k] == ips[i];
            assert(grown[list.len() + k] == ips[i]);
        }
    }
    lemma_none_left(ips, grown);
}

proof fn lemma_none_left(ips: Seq<Seq<char>>, list: Seq<Seq<char>>)
    requires
        forall|i: int| 0 <= i < ips.len() ==> list.contains(#[trigger] ips[i]),
    ensures
        not_in(ips, list).len() == 0,
    decreases ips.len(),
{
    if ips.len() > 0 {
        let u = ips.drop_last();
        assert forall|i: int| 0 <= i < u.len() implies list.contains(#[trigger] u[i]) by {
            assert(ips[i] == u[i]);
        }
        lemma_none_left(u, list);
        assert(list.contains(ips[ips.len() - 1]));
    }
}

// ---------------------------------------------------------------------------------------------
// Reputation

/// The reputation of a lobby in which offenders were seen: three of them make it a bad one.
pub open spec fn seen_with(rep: JsonView, offenders: nat) -> JsonView {
    match rep {
        JsonView::Obj(o) => if offenders > 0 {
            let a = with_entry(o, "offender_ips"@, JsonView::UInt(offenders as u64));
            JsonView::Obj(
                with_entry(
                    a,
                    "gate"@,
                    JsonView::Bool(
                        flag_or(JsonView::Obj(a).field("gate"@), false) || offenders >= 3,
                    ),
                ),
            )
        } else {
            rep
        },
        other => other,
    }
}

/// The reputation of a lobby in which offenders were seen.
pub fn with_reputation(reputation: Json, offender_ips: &Vec<String>) -> (r: Json)
    ensures
        r@ == seen_with(reputation@, offender_ips@.len()),
{
    let mut rep = reputation;
    let n: usize = offender_ips.len();
    if n > 0 {
        if rep.set("offender_ips", Json::UInt(n as u64)) {
            let gate = bool_or(rep.get("gate"), false) || n >= 3;
            let _ok = rep.set("gate", Json::Bool(gate));
        }
    }
    rep
}

/// Whether the lobby has a bad reputation.
pub fn lobby_reputation_gate(reputation: &Json) -> (r: bool)
    ensures
        r == flag_or(reputation@.field("gate"@), false),
{
    bool_or(reputation.get("gate"), false)
}

// ---------------------------------------------------------------------------------------------
// Caches

/// The addresses of offenders, as they were last asked for. Times are in millionths of a second.
pub struct OffenderCache {
    at: i64,
    ips: Vec<String>,
}

#[verifier::ext_equal]
pub struct OffenderView {
    pub at: i64,
    pub ips: Seq<Seq<char>>,
}

impl View for OffenderCache {
    type V = OffenderView;

    closed spec fn view(&self) -> OffenderView {
        OffenderView { at: self.at, ips: views(self.ips@) }
    }
}

/// The addresses in the entries of a reply; entries without one are left out.
pub open spec fn entry_ips(items: Seq<JsonView>) -> Seq<Seq<char>>
    decreases items.len(),
{
    if items.len() == 0 {
        Seq::empty()
    } else {
        let earlier = entry_ips(items.drop_last());
        match field_text(items.last(), "ip"@) {
            Some(ip) => earlier.push(ip),
            None => earlier,
        }
    }
}

/// The addresses of offenders in a reply.
pub fn offenders_in(reply: &Json) -> (r: Vec<String>)
    ensures
        views(r@) == entry_ips(items_or_empty(reply@.field("offenders"@))),
{
    let mut out: Vec<String> = Vec::new();
    assert(views(out@) =~= entry_ips(Seq::empty()));
    if let Some(v) = array_of(reply.get("offenders")) {
        let ghost all = json_views(v@);
        let mut i: usize = 0;
        assert(all.take(0) =~= Seq::empty());
        while i < v.len()
            invariant
                i <= v.len(),
                all == json_views(v@),
                views(out@) == entry_ips(all.take(i as int)),
            decreases v.len() - i,
        {
            proof {
                let t = all.take(i + 1);
                assert(t.drop_last() =~= all.take(i as int));
                assert(t.last() == v@[i as int]@);
            }
            if let Some(f) = v[i].get("ip") {
                if let Some(ip) = f.as_str() {
                    let ghost before = out@;
                    out.push(ip.to_owned());
                    assert(views(out@) =~= views(before).push(ip@));
                }
            }
            i += 1;
        }
        assert(all.take(i as int) =~= all);
    }
    out
}

impl OffenderCache {
    /// Nothing was asked for yet.
    pub fn new() -> (r: OffenderCache)
        ensures
            r@ == (OffenderView { at: 0, ips: Seq::empty() }),
    {
        let c = OffenderCache { at: 0, ips: Vec::new() };
        assert(c@ =~= OffenderView { at: 0, ips: Seq::empty() });
        c
    }

    /// Whether the firewall is asked anew: at every eighth poll, 45 seconds after the last time.
    pub fn wants_refresh(&self, now: i64, poll_n: u64) -> (r: bool)
        ensures
            r == (now - self@.at >= 45_000_000 && poll_n % 8 == 0),
    {
        now as i128 - self.at as i128 >= 45_000_000 && poll_n % 8 == 0
    }

    /// Takes in a reply.
    pub fn refresh(&mut self, reply: &Json, now: i64)
        ensures
            final(self)@ == (OffenderView {
                at: now,
                ips: entry_ips(items_or_empty(reply@.field("offenders"@))),
            }),
    {
        self.ips = offenders_in(reply);
        self.at = now;
    }

    /// The addresses as they are known.
    pub fn ips(&self) -> (r: &Vec<String>)
        ensures
            views(r@) == self@.ips,
    {
        &self.ips
    }
}

/// Whether restrictions that were asked for at a time are still taken as they were: for 15
/// seconds.
pub fn restrictions_are_fresh(at: i64, now: i64) -> (r: bool)
    ensures
        r == (now - at < 15_000_000),
{
    (now as i128 - at as i128) < 15_000_000
}

// ---------------------------------------------------------------------------------------------
// Restrictions

/// What is said of a peer's restriction.
pub struct Restriction {
    pub restricted: bool,
    pub shielded: bool,
    /// The reason, where the peer is restricted.
    pub reason: Option<String>,
    pub repeat_offender: Option<Json>,
}

/// The last entry for an address.
pub open spec fn last_entry(items: Seq<JsonView>, ip: Seq<char>) -> Option<JsonView>
    decreases items.len(),
{
    if items.len() == 0 {
        None
    } else if field_text(items.last(), "ip"@) == Some(ip) {
        Some(items.last())
    } else {
        last_entry(items.drop_last(), ip)
    }
}

fn find_last(items: &Vec<Json>, ip: &str) -> (r: Option<usize>)
    ensures
        match r {
            Some(k) => k < items.len() && last_entry(json_views(items@), ip@) == Some(
                items@[k as int]@,
            ),
            None => last_entry(json_views(items@), ip@) is None,
        },
{
    let ghost all = json_views(items@);
    let mut i: usize = items.len();
    assert(all.take(i as int) =~= all);
    while i > 0
        invariant
            i <= items.len(),
            all == json_views(items@),
            last_entry(all, ip@) == last_entry(all.take(i as int), ip@),
        decreases i,
    {
        let ghost t = all.take(i as int);
        proof {
            assert(t.last() == items@[i - 1]@);
            assert(t.drop_last() =~= all.take(i - 1));
        }
        if let Some(f) = items[i - 1].get("ip") {
            if let Some(s) = f.as_str() {
                if same(s, ip) {
                    return Some(i - 1);
                }
            }
        }
        i -= 1;
    }
    None
}

/// What is said of a peer by the list of restrictions; the last entry for its address counts.
pub fn restriction_of(restrictions: &Json, ip: &str) -> (r: Restriction)
    ensures
        match last_entry(items_or_empty(restrictions@.field("peers"@)), ip@) {
            Some(e) => {
                let reason = text_or_empty(e.field("reason"@));
                &&& r.restricted
                &&& r.reason matches Some(t) && t@ == reason
                &&& r.repeat_offender matches Some(j) && j@ == match e.field("repeat_offender"@) {
                    Some(v) => v,
                    None => JsonView::Bool(false),
                }
                &&& r.shielded == (has_text(reason, "shield"@) || has_text(reason, "restrict"@))
            },
            None => !r.restricted && !r.shielded && r.reason is None && r.repeat_offender is None,
        },
{
    if let Some(items) = array_of(restrictions.get("peers")) {
        if let Some(k) = find_last(items, ip) {
            let e = &items[k];
            let reason = str_or_empty(e.get("reason"));
            let repeat = match e.get("repeat_offender") {
                Some(v) => v.dup(),
                None => Json::Bool(false),
            };
            return Restriction {
                restricted: true,
                shielded: contains(reason, "shield") || contains(reason, "restrict"),
                reason: Some(reason.to_owned()),
                repeat_offender: Some(repeat),
            };
        }
    }
    Restriction { restricted: false, shielded: false, reason: None, repeat_offender: None }
}

/// A row of the peer table with what the list of restrictions says of its address; a row without
/// an address stays as it is.
pub open spec fn restricted_row(row: JsonView, list: Seq<JsonView>) -> JsonView {
    match row.field("ip"@) {
        Some(v) => match (row, v.text()) {
            (JsonView::Obj(o), Some(ip)) => JsonView::Obj(
                with_restriction(o, last_entry(list, ip)),
            ),
            _ => row,
        },
        None => row,
    }
}

/// The entries of a row with what an entry of the list of restrictions says.
pub open spec fn with_restriction(
    o: Seq<(Seq<char>, JsonView)>,
    e: Option<JsonView>,
) -> Seq<(Seq<char>, JsonView)> {
    match e {
        Some(e) => {
            let reason = text_or_empty(e.field("reason"@));
            let repeat = match e.field("repeat_offender"@) {
                Some(v) => v,
                None => JsonView::Bool(false),
            };
            let shielded = has_text(reason, "shield"@) || has_text(reason, "restrict"@);
            let o = with_entry(o, "restricted"@, JsonView::Bool(true));
            let o = with_entry(o, "restriction_reason"@, JsonView::Str(reason));
            let o = with_entry(o, "repeat_offender"@, repeat);
            with_entry(o, "shielded"@, JsonView::Bool(shielded))
        },
        None => with_entry(
            with_entry(o, "restricted"@, JsonView::Bool(false)),
            "shielded"@,
            JsonView::Bool(false),
        ),
    }
}

/// The report of a peer tracker with the restrictions of its peers, where they are known.
pub open spec fn with_restrictions(tracker: JsonView, restrictions: Option<JsonView>) -> JsonView {
    match (tracker, tracker.field("peers"@), restrictions) {
        (JsonView::Obj(o), Some(JsonView::Arr(rows)), Some(doc)) => {
            let list = items_or_empty(doc.field("peers"@));
            let peers = rows.map_values(|row: JsonView| restricted_row(row, list));
            JsonView::Obj(with_entry(o, "peers"@, JsonView::Arr(peers)))
        },
        _ => tracker,
    }
}

fn restrict_row(row: &mut Json, restrictions: &Json)
    ensures
        final(row)@ == restricted_row(
            old(row)@,
            items_or_empty(restrictions@.field("peers"@)),
        ),
{
    let ip = match row.get("ip") {
        Some(v) => match v.as_str() {
            Some(s) => s.to_owned(),
            None => {
                return ;
            },
        },
        None => {
            return ;
        },
    };
    let x = restriction_of(restrictions, ip.as_str());
    match (x.reason, x.repeat_offender) {
        (Some(reason), Some(repeat)) => {
            row.set("restricted", Json::Bool(true));
            row.set("restriction_reason", text(reason.as_str()));
            row.set("repeat_offender", repeat);
            row.set("shielded", Json::Bool(x.shielded));
        },
        _ => {
            row.set("restricted", Json::Bool(false));
            row.set("shielded", Json::Bool(false));
        },
    }
}

/// Puts the restrictions of the peers into the report of a peer tracker, where they are known.
pub fn merge_peer_restrictions(peer_tracker: &mut Json, restrictions: Option<&Json>)
    ensures
        final(peer_tracker)@ == with_restrictions(old(peer_tracker)@, opt_view(restrictions)),
{
    let doc = match restrictions {
        Some(d) => d,
        None => {
            return ;
        },
    };
    let rows = match array_of(peer_tracker.get("peers")) {
        Some(v) => dup_first(v, v.len()),
        None => {
            return ;
        },
    };
    let ghost all = json_views(rows@);
    let ghost list = items_or_empty(doc@.field("peers"@));
    let ghost want = all.map_values(|row: JsonView| restricted_row(row, list));
    let mut done: Vec<Json> = Vec::new();
    let mut i: usize = 0;
    assert(json_views(done@) =~= want.take(0));
    while i < rows.len()
        invariant
            i <= rows.len(),
            all == json_views(rows@),
            list == items_or_empty(doc@.field("peers"@)),
            want == all.map_values(|row: JsonView| restricted_row(row, list)),
            json_views(done@) == want.take(i as int),
        decreases rows.len() - i,
    {
        let ghost before = done@;
        let mut row = rows[i].dup();
        restrict_row(&mut row, doc);
        done.push(row);
        assert(json_views(done@) =~= json_views(before).push(row@));
        assert(all[i as int] == rows@[i as int]@);
        assert(json_views(done@) =~= want.take(i + 1));
        i += 1;
    }
    assert(want.take(i as int) =~= want);
    peer_tracker.set("peers", array(done));
}

// ---------------------------------------------------------------------------------------------
// Requests of the user

/// Addresses without white space around them; empty ones are left out.
pub open spec fn clean_ips(ips: Seq<Seq<char>>) -> Seq<Seq<char>>
    decreases ips.len(),
{
    if ips.len() == 0 {
        Seq::empty()
    } else {
        let earlier = clean_ips(ips.drop_last());
        let t = trimmed(ips.last());
        if t.len() > 0 {
            earlier.push(t)
        } else {
            earlier
        }
    }
}

/// Addresses without white space around them; empty ones are left out.
pub fn normalize_ips(ips: &Vec<String>) -> (r: Vec<String>)
    ensures
        views(r@) == clean_ips(views(ips@)),
{
    let mut out: Vec<String> = Vec::new();
    let ghost all = views(ips@);
    let mut i: usize = 0;
    assert(views(out@) =~= clean_ips(all.take(0)));
    while i < ips.len()
        invariant
            i <= ips.len(),
            all == views(ips@),
            views(out@) == clean_ips(all.take(i as int)),
        decreases ips.len() - i,
    {
        proof {
            let t = all.take(i + 1);
            assert(t.drop_last() =~= all.take(i as int));
            assert(t.last() == ips@[i as int]@);
        }
        let t = trim(ips[i].as_str());
        if !t.as_str().is_empty() {
            let ghost before = out@;
            out.push(t);
            assert(views(out@) =~= views(before).push(t@));
        } else {
            assert(t@.len() == 0);
        }
        i += 1;
    }
    assert(all.take(i as int) =~= all);
    out
}

/// Why the user has peers blocked: to shield against them or to restrict them, in which session.
pub fn block_reason(restrict: bool, session_hex: Option<&str>) -> (r: String)
    ensures
        r@ == (if restrict {
            "sentinel-restrict:"@
        } else {
            "sentinel-shield:"@
        }) + match opt_str(session_hex) {
            Some(h) => h,
            None => "manual"@,
        },
{
    let hex = match session_hex {
        Some(h) => h,
        None => "manual",
    };
    if restrict {
        cat("sentinel-restrict:", hex)
    } else {
        cat("sentinel-shield:", hex)
    }
}

/// For how many seconds the user has peers blocked: a day to shield, a week to restrict.
pub fn block_seconds(restrict: bool) -> (r: u64)
    ensures
        r == if restrict {
            604_800u64
        } else {
            86_400u64
        },
{
    if restrict {
        604_800
    } else {
        86_400
    }
}

/// Whether a setting in a query asks for offenders only.
pub open spec fn asks_offenders(s: Seq<char>) -> bool {
    s == "1"@ || s.map_values(|c: char| crate::text::ascii_lower(c)) == "true"@
}

/// Whether a setting in a query asks for offenders only.
pub fn offenders_only(setting: Option<&str>) -> (r: bool)
    ensures
        r == match opt_str(setting) {
            Some(s) => asks_offenders(s),
            None => false,
        },
{
    match setting {
        None => false,
        Some(s) => {
            if same(s, "1") {
                return true;
            }
            let v = crate::text::chars_of(s);
            let mut low = String::new();
            let mut i: usize = 0;
            let ghost want = s@.map_values(|c: char| crate::text::ascii_lower(c));
            assert(low@ =~= want.take(0));
            while i < v.len()
                invariant
                    i <= v.len(),
                    v@ == s@,
                    want == s@.map_values(|c: char| crate::text::ascii_lower(c)),
                    low@ == want.take(i as int),
                decreases v.len() - i,
            {
                let c = v[i];
                let d: char = if 'A' <= c && c <= 'Z' {
                    (c as u8 + 32) as char
                } else {
                    c
                };
                assert(d == crate::text::ascii_lower(c));
                low.push(d);
                assert(want.take(i + 1) =~= want.take(i as int).push(d));
                i += 1;
            }
            assert(want.take(i as int) =~= want);
            same(low.as_str(), "true")
        },
    }
}

/// The label and the confidence of the verdict of a session.
pub open spec fn verdict_in(risk: Option<JsonView>) -> (Seq<char>, int) {
    let lobby = match risk {
        Some(r) => r.field("cheater_lobby"@),
        None => None,
    };
    match lobby {
        Some(c) => if field_text(c, "label"@) is Some && c.field("confidence"@) is Some {
            (
                field_text(c, "label"@)->0,
                match number(c.field("confidence"@)) {
                    Some(n) => n,
                    None => 0,
                },
            )
        } else {
            ("UNKNOWN"@, 0)
        },
        None => ("UNKNOWN"@, 0),
    }
}

/// The label and the confidence of the verdict of a session.
pub fn session_verdict(risk: Option<&Json>) -> (r: (String, i64))
    ensures
        (r.0@, r.1 as int) == verdict_in(opt_view(risk)),
{
    if let Some(doc) = risk {
        if let Some(c) = doc.get("cheater_lobby") {
            if let Some(l) = c.get("label") {
                if let Some(label) = l.as_str() {
                    if let Some(n) = c.get("confidence") {
                        let confidence: i64 = match real_of(Some(n)) {
                            Some(k) => k,
                            None => 0,
                        };
                        return (label.to_owned(), confidence);
                    }
                }
            }
        }
    }
    ("UNKNOWN".to_owned(), 0)
}

/// A console is polled soon while there is play, and while it is online in the game with twenty
/// connections or more. Fewer connections never make it sooner.
pub proof fn play_is_polled_soon(phase: Seq<char>, online: bool, snapshot: JsonView)
    ensures
        ({
            let n = uint_or(snapshot.field_in("connections"@, "count"@), 0);
            let game = text_or_empty(snapshot.field_in("_enriched"@, "game"@)) == "warzone"@;
            let play = phase == "matchmaking"@ || phase == "in-match"@;
            &&& play ==> polls_soon(phase, online, snapshot)
            &&& !play ==> (polls_soon(phase, online, snapshot) <==> online && game && n >= 20)
        }),
{
}

/// A deeper capture takes the place of the first exactly where it holds more packets, and nothing
/// else of the snapshot changes.
pub proof fn deeper_captures_hold_more(
    o: Seq<(Seq<char>, JsonView)>,
    deep: JsonView,
)
    ensures
        ({
            let raw = JsonView::Obj(o);
            let new = deep.field("packetCapture"@);
            let old = raw.field("packetCapture"@);
            let more = new is Some && items_or_empty(new->0.field("records"@)).len() > (
            match old {
                Some(c) => items_or_empty(c.field("records"@)).len(),
                None => 0,
            });
            &&& !more ==> deepened(raw, deep) == raw
            &&& more ==> deepened(raw, deep).field("packetCapture"@) == new
        }),
{
    if deep.field("packetCapture"@) is Some {
        written_entries_are_read(
            o,
            "packetCapture"@,
            deep.field("packetCapture"@)->0,
            "packetCapture"@,
        );
    }
}

/// A row gives its address where it is a probe host with an address, and no other row does.
pub proof fn probe_rows_give_their_address(rows: Seq<PeerRowView>, x: PeerRowView)
    ensures
        x.vps_probe && x.ip.len() > 0 ==> probe_ips(rows.push(x)) == probe_ips(rows).push(x.ip),
        !x.vps_probe || x.ip.len() == 0 ==> probe_ips(rows.push(x)) == probe_ips(rows),
{
    assert(rows.push(x).drop_last() =~= rows);
}

/// What is new in a list are the addresses that the other does not hold, and all of them.
pub proof fn new_addresses_are_not_listed(ips: Seq<Seq<char>>, list: Seq<Seq<char>>, ip: Seq<char>)
    ensures
        not_in(ips, list).contains(ip) <==> ips.contains(ip) && !list.contains(ip),
    decreases ips.len(),
{
    if ips.len() == 0 {
        assert(!ips.contains(ip));
    } else {
        let u = ips.drop_last();
        new_addresses_are_not_listed(u, list, ip);
        let e = not_in(u, list);
        assert(ips =~= u.push(ips.last()));
        assert(ips.contains(ip) <==> u.contains(ip) || ip == ips.last()) by {
            if u.contains(ip) {
                let k = choose|k: int| 0 <= k < u.len() && u[k] == ip;
                assert(ips[k] == ip);
            }
            if ip == ips.last() {
                assert(ips[ips.len() - 1] == ip);
            }
        }
        if !list.contains(ips.last()) {
            let r = e.push(ips.last());
            assert(r.contains(ip) <==> e.contains(ip) || ip == ips.last()) by {
                if e.contains(ip) {
                    let k = choose|k: int| 0 <= k < e.len() && e[k] == ip;
                    assert(r[k] == ip);
                }
                if ip == ips.last() {
                    assert(r[r.len() - 1] == ip);
                }
            }
        }
    }
}

/// A lobby with three offenders or more is gated, and one that was gated stays so; one without
/// offenders keeps the reputation that it had.
pub proof fn three_offenders_gate_a_lobby(o: Seq<(Seq<char>, JsonView)>, offenders: nat)
    requires
        offenders <= u64::MAX,
    ensures
        ({
            let rep = JsonView::Obj(o);
            let r = seen_with(rep, offenders);
            let gated = flag_or(rep.field("gate"@), false);
            &&& offenders == 0 ==> r == rep
            &&& offenders > 0 ==> r.field("gate"@) == Some(
                JsonView::Bool(gated || offenders >= 3),
            )
            &&& offenders > 0 ==> r.field("offender_ips"@) == Some(
                JsonView::UInt(offenders as u64),
            )
        }),
{
    reveal_strlit("gate");
    reveal_strlit("offender_ips");
    assert("gate"@.len() == 4 && "offender_ips"@.len() == 12);
    let a = with_entry(o, "offender_ips"@, JsonView::UInt(offenders as u64));
    written_entries_are_read(o, "offender_ips"@, JsonView::UInt(offenders as u64), "gate"@);
    let g = JsonView::Bool(flag_or(JsonView::Obj(a).field("gate"@), false) || offenders >= 3);
    written_entries_are_read(a, "gate"@, g, "offender_ips"@);
}

/// The address of an item counts where it is a text, in the order of the items; the last item of
/// an address is the one that counts for it.
pub proof fn items_give_their_address(items: Seq<JsonView>, x: JsonView, ip: Seq<char>)
    ensures
        field_text(x, "ip"@) is Some ==> entry_ips(items.push(x)) == entry_ips(items).push(
            field_text(x, "ip"@)->0,
        ),
        field_text(x, "ip"@) is None ==> entry_ips(items.push(x)) == entry_ips(items),
        field_text(x, "ip"@) == Some(ip) ==> last_entry(items.push(x), ip) == Some(x),
        field_text(x, "ip"@) != Some(ip) ==> last_entry(items.push(x), ip) == last_entry(items, ip),
        items.len() == 0 ==> last_entry(items, ip) is None,
{
    assert(items.push(x).drop_last() =~= items);
}

/// Addresses are taken without the blanks around them, and empty ones are left out.
pub proof fn addresses_are_trimmed(ips: Seq<Seq<char>>, x: Seq<char>)
    ensures
        trimmed(x).len() > 0 ==> clean_ips(ips.push(x)) == clean_ips(ips).push(trimmed(x)),
        trimmed(x).len() == 0 ==> clean_ips(ips.push(x)) == clean_ips(ips),
{
    assert(ips.push(x).drop_last() =~= ips);
}

/// A peer with an entry in the list is restricted, for the reason that the last entry gives, and
/// shielded where that speaks of a shield or a restriction; one without is neither.
pub proof fn listed_peers_are_restricted(
    o: Seq<(Seq<char>, JsonView)>,
    e: JsonView,
)
    ensures
        ({
            let r = JsonView::Obj(with_restriction(o, Some(e)));
            let q = JsonView::Obj(with_restriction(o, None));
            let reason = text_or_empty(e.field("reason"@));
            &&& r.field("restricted"@) == Some(JsonView::Bool(true))
            &&& r.field("restriction_reason"@) == Some(JsonView::Str(reason))
            &&& r.field("shielded"@) == Some(
                JsonView::Bool(has_text(reason, "shield"@) || has_text(reason, "restrict"@)),
            )
            &&& e.field("repeat_offender"@) is None ==> r.field("repeat_offender"@) == Some(
                JsonView::Bool(false),
            )
            &&& e.field("repeat_offender"@) is Some ==> r.field("repeat_offender"@) == e.field(
                "repeat_offender"@,
            )
            &&& q.field("restricted"@) == Some(JsonView::Bool(false))
            &&& q.field("shielded"@) == Some(JsonView::Bool(false))
        }),
{
    reveal_strlit("restricted");
    reveal_strlit("restriction_reason");
    reveal_strlit("repeat_offender");
    reveal_strlit("shielded");
    assert("restricted"@.len() == 10 && "restriction_reason"@.len() == 18
        && "repeat_offender"@.len()
        == 15 && "shielded"@.len() == 8);
    let reason = text_or_empty(e.field("reason"@));
    let repeat = match e.field("repeat_offender"@) {
        Some(v) => v,
        None => JsonView::Bool(false),
    };
    let shielded = JsonView::Bool(has_text(reason, "shield"@) || has_text(reason, "restrict"@));
    let yes = JsonView::Bool(true);
    let no = JsonView::Bool(false);
    let a = with_entry(o, "restricted"@, yes);
    let b = with_entry(a, "restriction_reason"@, JsonView::Str(reason));
    let c = with_entry(b, "repeat_offender"@, repeat);
    written_entries_are_read(o, "restricted"@, yes, "restricted"@);
    written_entries_are_read(a, "restriction_reason"@, JsonView::Str(reason), "restricted"@);
    written_entries_are_read(b, "repeat_offender"@, repeat, "restricted"@);
    written_entries_are_read(b, "repeat_offender"@, repeat, "restriction_reason"@);
    written_entries_are_read(c, "shielded"@, shielded, "restricted"@);
    written_entries_are_read(c, "shielded"@, shielded, "restriction_reason"@);
    written_entries_are_read(c, "shielded"@, shielded, "repeat_offender"@);
    let d = with_entry(o, "restricted"@, no);
    written_entries_are_read(o, "restricted"@, no, "restricted"@);
    written_entries_are_read(d, "shielded"@, no, "restricted"@);
}

/// Each row of a tracker is looked up by its own address, and rows without one stay as they are.
pub proof fn rows_are_looked_up_by_address(row: JsonView, list: Seq<JsonView>, ip: Seq<char>)
    ensures
        row.field("ip"@) is None ==> restricted_row(row, list) == row,
        (row matches JsonView::Obj(o) && row.field("ip"@) == Some(JsonView::Str(ip)))
            ==> restricted_row(row, list) == JsonView::Obj(
            with_restriction(row->Obj_0, last_entry(list, ip)),
        ),
        list.len() == 0 && row is Obj && row.field("ip"@) == Some(JsonView::Str(ip))
            ==> restricted_row(row, list).field("restricted"@) == Some(JsonView::Bool(false)),
{
    if row is Obj {
        listed_peers_are_restricted(row->Obj_0, JsonView::Null);
    }
}

/// A console is online where the firewall says so, and else it is not.
pub proof fn consoles_are_online_where_said(raw: JsonView)
    ensures
        is_online(raw) <==> raw.field_in("xbox"@, "online"@) == Some(JsonView::Bool(true)),
{
}

/// A verdict is taken where it has a label and a confidence; any other is unknown, with nothing for
/// it.
pub proof fn verdicts_need_label_and_confidence(risk: Option<JsonView>)
    ensures
        risk is None ==> verdict_in(risk) == ("UNKNOWN"@, 0int),
        risk is Some && risk->0.field("cheater_lobby"@) is None ==> verdict_in(risk) == (
            "UNKNOWN"@,
            0int,
        ),
        ({
            let c = risk->0.field("cheater_lobby"@)->0;
            &&& risk is Some && risk->0.field("cheater_lobby"@) is Some && field_text(c, "label"@)
                is Some && number(c.field("confidence"@)) is Some ==> verdict_in(risk) == (
                field_text(c, "label"@)->0,
                number(c.field("confidence"@))->0,
            )
            &&& risk is Some && risk->0.field("cheater_lobby"@) is Some && (field_text(
                c,
                "label"@,
            ) is None || c.field("confidence"@) is None) ==> verdict_in(risk) == ("UNKNOWN"@, 0int)
        }),
{
}

} // verus!
