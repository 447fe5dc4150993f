//! The firewall's interface: what is asked of it, and how its replies are read.
use vstd::prelude::*;

use crate::codec::{b64_encode, b64_text, percent_encode, percent_encoded};
use crate::json::{
    array, bool_or, dup_or_null, entry_views, flag_or, json_views, object, opt_view, or_else,
    or_null, str_or_empty, text, text_or_empty, with_entry, Json, JsonView,
};
use crate::network_guard::{field_text_or, refused, text_field_or};
use crate::notify::{base_address, opt_str, opt_text, result_text, without_slashes};
use crate::text::{
    begins, cat, chars_of, contains, dec, decimal, join, joined, split, split_on, starts_with,
    text_of, trim, trimmed, views,
};

verus! {

// ---------------------------------------------------------------------------------------------
// The token

/// Without the quotation marks in front.
pub open spec fn unquoted_start(s: Seq<char>) -> Seq<char>
    decreases s.len(),
{
    if s.len() > 0 && s[0] == '"' {
        unquoted_start(s.skip(1))
    } else {
        s
    }
}

/// Without the quotation marks behind.
pub open spec fn unquoted_end(s: Seq<char>) -> Seq<char>
    decreases s.len(),
{
    if s.len() > 0 && s.last() == '"' {
        unquoted_end(s.drop_last())
    } else {
        s
    }
}

/// Without the quotation marks at either end.
pub open spec fn unquoted(s: Seq<char>) -> Seq<char> {
    unquoted_end(unquoted_start(s))
}

fn strip_quotes(s: &str) -> (r: String)
    ensures
        r@ == unquoted(s@),
{
    let v = chars_of(s);
    let mut from: usize = 0;
    assert(v@.skip(0) =~= v@);
    while from < v.len() && v[from] == '"'
        invariant
            from <= v.len(),
            unquoted_start(s@) == unquoted_start(v@.skip(from as int)),
        decreases v.len() - from,
    {
        assert(v@.skip(from as int)[0] == v@[from as int]);
        assert(v@.skip(from as int).skip(1) =~= v@.skip(from + 1));
        from += 1;
    }
    let ghost t = v@.skip(from as int);
    proof {
        if from < v.len() {
            assert(t[0] == v@[from as int]);
        }
        assert(unquoted_start(s@) == t);
    }
    let mut to: usize = v.len();
    assert(v@.subrange(from as int, to as int) =~= t);
    while to > from && v[to - 1] == '"'
        invariant
            from <= to <= v.len(),
            unquoted_end(t) == unquoted_end(v@.subrange(from as int, to as int)),
        decreases to - from,
    {
        assert(v@.subrange(from as int, to as int).last() == v@[to - 1]);
        assert(v@.subrange(from as int, to as int).drop_last() =~= v@.subrange(
            from as int,
            to - 1,
        ));
        to -= 1;
    }
    proof {
        let u = v@.subrange(from as int, to as int);
        if to > from {
            assert(u.last() == v@[to - 1]);
        }
        assert(unquoted_end(u) == u);
    }
    text_of(&v, from, to)
}

/// The names under which a file can hold the token.
pub open spec fn token_names() -> Seq<Seq<char>> {
    seq![
        "ARRAY_FW_API_TOKEN="@,
        "FIREWALLA_API_TOKEN="@,
        "WZ_ARRAY_FW_API_TOKEN="@,
        "WZ_FIREWALLA_API_TOKEN="@,
    ]
}

/// The token that a line assigns to the first of the names that begins it.
pub open spec fn assigned_token(line: Seq<char>, names: Seq<Seq<char>>) -> Option<Seq<char>>
    decreases names.len(),
{
    if names.len() == 0 {
        None
    } else {
        let name = names[0];
        let tok = unquoted(trimmed(line.skip(name.len() as int)));
        if begins(line, name) && tok.len() > 0 {
            Some(tok)
        } else {
            assigned_token(line, names.skip(1))
        }
    }
}

/// The token that a line holds: one that is assigned, or the whole line where it assigns nothing.
/// Empty lines and comments hold none.
pub open spec fn line_token(raw: Seq<char>) -> Option<Seq<char>> {
    let line = trimmed(raw);
    if line.len() == 0 || line[0] == '#' {
        None
    } else {
        match assigned_token(line, token_names()) {
            Some(t) => Some(t),
            None => if line.contains('=') {
                None
            } else {
                Some(line)
            },
        }
    }
}

/// The token of the first line that holds one.
pub open spec fn first_token(lines: Seq<Seq<char>>) -> Option<Seq<char>>
    decreases lines.len(),
{
    if lines.len() == 0 {
        None
    } else {
        match line_token(lines[0]) {
            Some(t) => Some(t),
            None => first_token(lines.skip(1)),
        }
    }
}

/// The token that the text of a file holds.
pub open spec fn file_token(text: Seq<char>) -> Option<Seq<char>> {
    first_token(split_on(text, '\n'))
}

fn name_list() -> (r: Vec<String>)
    ensures
        views(r@) == token_names(),
{
    let mut v: Vec<String> = Vec::new();
    v.push("ARRAY_FW_API_TOKEN=".to_owned());
    v.push("FIREWALLA_API_TOKEN=".to_owned());
    v.push("WZ_ARRAY_FW_API_TOKEN=".to_owned());
    v.push("WZ_FIREWALLA_API_TOKEN=".to_owned());
    assert(views(v@) =~= token_names());
    v
}

fn find_assigned(line: &str, names: &Vec<String>) -> (r: Option<String>)
    ensures
        opt_text(r) == assigned_token(line@, views(names@)),
{
    let v = chars_of(line);
    let ghost all = views(names@);
    let mut i: usize = 0;
    assert(all.skip(0) =~= all);
    while i < names.len()
        invariant
            i <= names.len(),
            v@ == line@,
            all == views(names@),
            assigned_token(line@, all) == assigned_token(line@, all.skip(i as int)),
        decreases names.len() - i,
    {
        assert(all.skip(i as int)[0] == names@[i as int]@);
        assert(all.skip(i as int).skip(1) =~= all.skip(i + 1));
        if starts_with(line, names[i].as_str()) {
            let n: usize = chars_of(names[i].as_str()).len();
            let rest = text_of(&v, n, v.len());
            assert(rest@ =~= line@.skip(n as int));
            let t = trim(rest.as_str());
            let tok = strip_quotes(t.as_str());
            if !tok.as_str().is_empty() {
                return Some(tok);
            }
            assert(tok@.len() == 0);
        }
        i += 1;
    }
    assert(all.skip(i as int) =~= Seq::empty());
    None
}

fn has_char(v: &Vec<char>, c: char) -> (r: bool)
    ensures
        r == v@.contains(c),
{
    let mut i: usize = 0;
    while i < v.len()
        invariant
            i <= v.len(),
            forall|k: int| 0 <= k < i ==> #[trigger] v@[k] != c,
        decreases v.len() - i,
    {
        if v[i] == c {
            return true;
        }
        i += 1;
    }
    false
}

fn token_of_line(raw: &str) -> (r: Option<String>)
    ensures
        opt_text(r) == line_token(raw@),
{
    let line = trim(raw);
    let v = chars_of(line.as_str());
    if v.len() == 0 || v[0] == '#' {
        return None;
    }
    let names = name_list();
    match find_assigned(line.as_str(), &names) {
        Some(t) => Some(t),
        None => if has_char(&v, '=') {
            None
        } else {
            Some(line)
        },
    }
}

/// The token that the text of a file holds.
pub fn read_token(text: &str) -> (r: Option<String>)
    ensures
        opt_text(r) == file_token(text@),
{
    let lines = split(text, '\n');
    let ghost all = views(lines@);
    let mut i: usize = 0;
    assert(all.skip(0) =~= all);
    while i < lines.len()
        invariant
            i <= lines.len(),
            all == views(lines@),
            all == split_on(text@, '\n'),
            first_token(all) == first_token(all.skip(i as int)),
        decreases lines.len() - i,
    {
        assert(all.skip(i as int)[0] == lines@[i as int]@);
        assert(all.skip(i as int).skip(1) =~= all.skip(i + 1));
        if let Some(t) = token_of_line(lines[i].as_str()) {
            return Some(t);
        }
        i += 1;
    }
    assert(all.skip(i as int) =~= Seq::empty());
    None
}

pub open spec fn opt_views(v: Seq<Option<String>>) -> Seq<Option<Seq<char>>> {
    v.map_values(|s: Option<String>| opt_text(s))
}

/// The first setting that is not empty.
pub open spec fn first_setting(v: Seq<Option<Seq<char>>>) -> Option<Seq<char>>
    decreases v.len(),
{
    if v.len() == 0 {
        None
    } else if v[0] is Some && trimmed(v[0]->0).len() > 0 {
        Some(trimmed(v[0]->0))
    } else {
        first_setting(v.skip(1))
    }
}

/// The token of the first file that holds one.
pub open spec fn first_file_token(v: Seq<Option<Seq<char>>>) -> Option<Seq<char>>
    decreases v.len(),
{
    if v.len() == 0 {
        None
    } else if v[0] is Some && file_token(v[0]->0) is Some {
        file_token(v[0]->0)
    } else {
        first_file_token(v.skip(1))
    }
}

/// The token: of the settings first, then of the files that could be read, each in its order.
pub fn load_token(settings: &Vec<Option<String>>, files: &Vec<Option<String>>) -> (r: Result<
    String,
    String,
>)
    ensures
        result_text(r) == match first_setting(opt_views(settings@)) {
            Some(t) => Ok(t),
            None => match first_file_token(opt_views(files@)) {
                Some(t) => Ok(t),
                None => Err("array-firewall API token not configured"@),
            },
        },
{
    let ghost a = opt_views(settings@);
    let mut i: usize = 0;
    assert(a.skip(0) =~= a);
    while i < settings.len()
        invariant
            i <= settings.len(),
            a == opt_views(settings@),
            first_setting(a) == first_setting(a.skip(i as int)),
        decreases settings.len() - i,
    {
        assert(a.skip(i as int)[0] == opt_text(settings@[i as int]));
        assert(a.skip(i as int).skip(1) =~= a.skip(i + 1));
        if let Some(s) = &settings[i] {
            let t = trim(s.as_str());
            if !t.as_str().is_empty() {
                return Ok(t);
            }
            assert(t@.len() == 0);
        }
        i += 1;
    }
    assert(a.skip(i as int) =~= Seq::empty());
    let ghost b = opt_views(files@);
    let mut k: usize = 0;
    assert(b.skip(0) =~= b);
    while k < files.len()
        invariant
            k <= files.len(),
            b == opt_views(files@),
            first_setting(a) is None,
            a == opt_views(settings@),
            first_file_token(b) == first_file_token(b.skip(k as int)),
        decreases files.len() - k,
    {
        assert(b.skip(k as int)[0] == opt_text(files@[k as int]));
        assert(b.skip(k as int).skip(1) =~= b.skip(k + 1));
        if let Some(s) = &files[k] {
            if let Some(t) = read_token(s.as_str()) {
                return Ok(t);
            }
        }
        k += 1;
    }
    assert(b.skip(k as int) =~= Seq::empty());
    Err("array-firewall API token not configured".to_owned())
}

// ---------------------------------------------------------------------------------------------
// Requests

/// A request to the firewall: a path and a body; without a body it only asks.
pub struct Request {
    pub path: String,
    pub body: Option<Json>,
}

#[verifier::ext_equal]
pub struct RequestView {
    pub path: Seq<char>,
    pub body: Option<JsonView>,
}

impl View for Request {
    type V = RequestView;

    open spec fn view(&self) -> RequestView {
        RequestView {
            path: self.path@,
            body: match self.body {
                Some(b) => Some(b@),
                None => None,
            },
        }
    }
}

pub open spec fn asks(path: Seq<char>) -> RequestView {
    RequestView { path, body: None }
}

pub open spec fn sends(path: Seq<char>, entries: Seq<(Seq<char>, JsonView)>) -> RequestView {
    RequestView { path, body: Some(JsonView::Obj(entries)) }
}

/// Texts as a list.
pub open spec fn text_list(v: Seq<Seq<char>>) -> JsonView {
    JsonView::Arr(v.map_values(|s: Seq<char>| JsonView::Str(s)))
}

fn list_of(v: &Vec<String>) -> (r: Json)
    ensures
        r@ == text_list(views(v@)),
{
    let ghost want = views(v@).map_values(|s: Seq<char>| JsonView::Str(s));
    let mut out: Vec<Json> = Vec::new();
    let mut i: usize = 0;
    while i < v.len()
        invariant
            i <= v.len(),
            want == views(v@).map_values(|s: Seq<char>| JsonView::Str(s)),
            json_views(out@) =~= want.take(i as int),
        decreases v.len() - i,
    {
        let ghost before = out@;
        let t = text(v[i].as_str());
        out.push(t);
        assert(json_views(out@) =~= json_views(before).push(t@));
        assert(want[i as int] == t@);
        i += 1;
    }
    assert(want.take(i as int) =~= want);
    array(out)
}

fn ask(path: &str) -> (r: Request)
    ensures
        r@ == asks(path@),
{
    Request { path: path.to_owned(), body: None }
}

fn send(path: &str, entries: Vec<(String, Json)>) -> (r: Request)
    ensures
        r@ == sends(path@, entry_views(entries@)),
{
    Request { path: path.to_owned(), body: Some(object(entries)) }
}

fn one(key: &str, value: Json) -> (r: Vec<(String, Json)>)
    ensures
        entry_views(r@) == seq![(key@, value@)],
{
    let mut v: Vec<(String, Json)> = Vec::new();
    v.push((key.to_owned(), value));
    assert(entry_views(v@) =~= seq![(key@, value@)]);
    v
}

fn and(entries: Vec<(String, Json)>, key: &str, value: Json) -> (r: Vec<(String, Json)>)
    ensures
        entry_views(r@) == entry_views(entries@).push((key@, value@)),
{
    let mut v = entries;
    let ghost before = v@;
    v.push((key.to_owned(), value));
    assert(entry_views(v@) =~= entry_views(before).push((key@, value@)));
    v
}

/// What a body holds of an optional text: nothing where it is empty.
pub open spec fn maybe_text(key: Seq<char>, s: Option<Seq<char>>) -> Seq<(Seq<char>, JsonView)> {
    if s is Some && s->0.len() > 0 {
        seq![(key, JsonView::Str(s->0))]
    } else {
        Seq::empty()
    }
}

fn and_text(entries: Vec<(String, Json)>, key: &str, s: Option<&str>) -> (r: Vec<(String, Json)>)
    ensures
        entry_views(r@) == entry_views(entries@) + maybe_text(key@, opt_str(s)),
{
    if let Some(t) = s {
        if !t.is_empty() {
            let r = and(entries, key, text(t));
            assert(entry_views(r@) =~= entry_views(entries@) + maybe_text(key@, opt_str(s)));
            return r;
        }
        assert(t@.len() == 0);
    }
    assert(entry_views(entries@) =~= entry_views(entries@) + maybe_text(key@, opt_str(s)));
    entries
}

/// A parameter of a query that is left out where it is empty.
pub open spec fn with_param(q: Seq<Seq<char>>, key: Seq<char>, s: Option<Seq<char>>) -> Seq<Seq<char>> {
    if s is Some && s->0.len() > 0 {
        q.push(key + percent_encoded(s->0))
    } else {
        q
    }
}

fn add_param(q: &mut Vec<String>, key: &str, s: Option<&str>)
    ensures
        views(final(q)@) == with_param(views(old(q)@), key@, opt_str(s)),
{
    if let Some(t) = s {
        if !t.is_empty() {
            let e = percent_encode(t);
            let p = cat(key, e.as_str());
            q.push(p);
            assert(views(q@) =~= views(old(q)@).push(p@));
        } else {
            assert(t@.len() == 0);
        }
    }
}

/// The query for connections.
pub open spec fn connection_query(
    session_hex: Option<Seq<char>>,
    ip: Option<Seq<char>>,
    conn_type: Option<Seq<char>>,
    policy: Option<Seq<char>>,
    offenders_only: bool,
    limit: u32,
    offset: u32,
) -> Seq<char> {
    let a = seq!["limit="@ + decimal(limit as nat), "offset="@ + decimal(offset as nat)];
    let b = with_param(a, "session_hex="@, session_hex);
    let c = with_param(b, "ip="@, ip);
    let d = with_param(c, "type="@, conn_type);
    let e = with_param(d, "policy="@, policy);
    let f = if offenders_only {
        e.push("offenders=1"@)
    } else {
        e
    };
    "/api/v1/gaming/connections?"@ + joined(f, "&"@)
}

/// The way to the firewall.
pub struct FirewallaClient {
    pub base: String,
    pub token: String,
    pub xbox_ip: String,
}

impl FirewallaClient {
    /// The way to a firewall at an address.
    pub fn new(address: &str, token: String, xbox_ip: String) -> (r: FirewallaClient)
        ensures
            r.base@ == without_slashes(address@),
            r.token == token,
            r.xbox_ip == xbox_ip,
    {
        FirewallaClient { base: base_address(address), token, xbox_ip }
    }

    /// The address of the console.
    pub fn xbox_ip(&self) -> (r: String)
        ensures
            r@ == self.xbox_ip@,
    {
        self.xbox_ip.as_str().to_owned()
    }

    /// Where a path leads.
    pub fn url(&self, path: &str) -> (r: String)
        ensures
            r@ == self.base@ + path@,
    {
        cat(self.base.as_str(), path)
    }

    /// The header that authorizes a request.
    pub fn authorization(&self) -> (r: String)
        ensures
            r@ == "Bearer "@ + self.token@,
    {
        cat("Bearer ", self.token.as_str())
    }

    /// Runs a script on the firewall.
    pub fn run_script(&self, script: &str, args: &Vec<String>, sudo: bool) -> (r: Request)
        ensures
            r@ == sends(
                "/api/v1/run"@,
                seq![
                    ("script"@, JsonView::Str(script@)),
                    ("args"@, text_list(views(args@))),
                    ("sudo"@, JsonView::Bool(sudo)),
                ],
            ),
    {
        let e = and(one("script", text(script)), "args", list_of(args));
        let e = and(e, "sudo", Json::Bool(sudo));
        let r = send("/api/v1/run", e);
        assert(entry_views(e@) =~= seq![
            ("script"@, JsonView::Str(script@)),
            ("args"@, text_list(views(args@))),
            ("sudo"@, JsonView::Bool(sudo)),
        ]);
        r
    }

    /// Asks for a snapshot of the console's traffic.
    pub fn fetch_snapshot(&self) -> (r: Request)
        ensures
            r@ == sends(
                "/api/v1/run"@,
                seq![
                    ("script"@, JsonView::Str("gaming-snapshot.sh"@)),
                    ("args"@, text_list(seq![self.xbox_ip@])),
                    ("sudo"@, JsonView::Bool(false)),
                ],
            ),
    {
        let mut args: Vec<String> = Vec::new();
        args.push(self.xbox_ip());
        assert(views(args@) =~= seq![self.xbox_ip@]);
        self.run_script("gaming-snapshot.sh", &args, false)
    }

    /// Asks for a snapshot with a capture of packets.
    pub fn fetch_packet_capture(&self) -> (r: Request)
        ensures
            r@ == sends(
                "/api/v1/run"@,
                seq![
                    ("script"@, JsonView::Str("gaming-snapshot.sh"@)),
                    ("args"@, text_list(seq![self.xbox_ip@, "--deep-packets"@])),
                    ("sudo"@, JsonView::Bool(false)),
                ],
            ),
    {
        let mut args: Vec<String> = Vec::new();
        args.push(self.xbox_ip());
        args.push("--deep-packets".to_owned());
        assert(views(args@) =~= seq![self.xbox_ip@, "--deep-packets"@]);
        self.run_script("gaming-snapshot.sh", &args, false)
    }

    /// Has the firewall mitigate a session: the risk, with whether a kick is on.
    pub fn mitigate_session(&self, risk: Json, kick_spike: bool) -> (r: Request)
        ensures
            r@ == (RequestView {
                path: "/api/v1/gaming/mitigate"@,
                body: Some(
                    match risk@ {
                        JsonView::Obj(o) => JsonView::Obj(
                            with_entry(o, "kick_spike"@, JsonView::Bool(kick_spike)),
                        ),
                        other => other,
                    },
                ),
            }),
    {
        let mut body = risk;
        let _ok = body.set("kick_spike", Json::Bool(kick_spike));
        Request { path: "/api/v1/gaming/mitigate".to_owned(), body: Some(body) }
    }

    /// Tells what came of an operation.
    pub fn ai_ops_outcome(&self, body: Json) -> (r: Request)
        ensures
            r@ == (RequestView { path: "/api/v1/ai-ops/outcome"@, body: Some(body@) }),
    {
        Request { path: "/api/v1/ai-ops/outcome".to_owned(), body: Some(body) }
    }

    /// Asks which peers are blocked.
    pub fn peer_blocklist_status(&self) -> (r: Request)
        ensures
            r@ == asks("/api/v1/gaming/peers"@),
    {
        ask("/api/v1/gaming/peers")
    }

    /// Has peers blocked, for a time where one is given.
    pub fn block_peers(&self, ips: &Vec<String>, reason: &str, ttl_sec: Option<u64>) -> (r: Request)
        ensures
            r@ == sends(
                "/api/v1/gaming/peers/block"@,
                seq![("ips"@, text_list(views(ips@))), ("reason"@, JsonView::Str(reason@))]
                    + match ttl_sec {
                    Some(n) => seq![("ttl_sec"@, JsonView::UInt(n))],
                    None => Seq::empty(),
                },
            ),
    {
        let e = and(one("ips", list_of(ips)), "reason", text(reason));
        match ttl_sec {
            Some(n) => {
                let f = and(e, "ttl_sec", Json::UInt(n));
                let r = send("/api/v1/gaming/peers/block", f);
                assert(entry_views(f@) =~= seq![
                    ("ips"@, text_list(views(ips@))),
                    ("reason"@, JsonView::Str(reason@)),
                ] + seq![("ttl_sec"@, JsonView::UInt(n))]);
                r
            },
            None => {
                let r = send("/api/v1/gaming/peers/block", e);
                assert(entry_views(e@) =~= seq![
                    ("ips"@, text_list(views(ips@))),
                    ("reason"@, JsonView::Str(reason@)),
                ] + Seq::empty());
                r
            },
        }
    }

    /// Asks which networks are blocked.
    pub fn subnet_blocklist_status(&self) -> (r: Request)
        ensures
            r@ == asks("/api/v1/subnets"@),
    {
        ask("/api/v1/subnets")
    }

    /// Has the networks of addresses blocked.
    pub fn block_subnets_from_ips(&self, ips: &Vec<String>, reason: &str) -> (r: Request)
        ensures
            r@ == sends(
                "/api/v1/subnets/block"@,
                seq![("ips"@, text_list(views(ips@))), ("reason"@, JsonView::Str(reason@))],
            ),
    {
        let e = and(one("ips", list_of(ips)), "reason", text(reason));
        let r = send("/api/v1/subnets/block", e);
        assert(entry_views(e@) =~= seq![
            ("ips"@, text_list(views(ips@))),
            ("reason"@, JsonView::Str(reason@)),
        ]);
        r
    }

    /// Has the networks of providers looked up again.
    pub fn refresh_subnet_providers(&self) -> (r: Request)
        ensures
            r@ == sends("/api/v1/subnets/refresh-providers"@, Seq::empty()),
    {
        nothing("/api/v1/subnets/refresh-providers")
    }

    /// Has peers taken off the list.
    pub fn remove_peers(&self, ips: &Vec<String>) -> (r: Request)
        ensures
            r@ == sends(
                "/api/v1/gaming/peers/remove"@,
                seq![("ips"@, text_list(views(ips@)))],
            ),
    {
        send("/api/v1/gaming/peers/remove", one("ips", list_of(ips)))
    }

    /// Has the shield take over peers.
    pub fn sync_shield_peers(&self, level: &str, ips: &Vec<String>) -> (r: Request)
        ensures
            r@ == sends(
                "/api/v1/gaming/peers/sync-shield"@,
                seq![("level"@, JsonView::Str(level@)), ("ips"@, text_list(views(ips@)))],
            ),
    {
        level_and_ips("/api/v1/gaming/peers/sync-shield", level, ips)
    }

    /// Has the shield put up at a level.
    pub fn enable_shield_level(&self, level: &str) -> (r: Request)
        ensures
            r@ == sends("/api/v1/shield/enable"@, seq![("level"@, JsonView::Str(level@))]),
    {
        send("/api/v1/shield/enable", one("level", text(level)))
    }

    /// Hands over connections.
    pub fn ingest_connections(&self, body: Json) -> (r: Request)
        ensures
            r@ == (RequestView {
                path: "/api/v1/gaming/connections/ingest"@,
                body: Some(body@),
            }),
    {
        Request { path: "/api/v1/gaming/connections/ingest".to_owned(), body: Some(body) }
    }

    /// Ends a session of connections.
    pub fn end_connection_session(&self, session_hex: &str) -> (r: Request)
        ensures
            r@ == sends(
                "/api/v1/gaming/connections/end-session"@,
                seq![("session_hex"@, JsonView::Str(session_hex@))],
            ),
    {
        send("/api/v1/gaming/connections/end-session", one("session_hex", text(session_hex)))
    }

    /// Asks for connections.
    pub fn query_connections(
        &self,
        session_hex: Option<&str>,
        ip: Option<&str>,
        conn_type: Option<&str>,
        policy: Option<&str>,
        offenders_only: bool,
        limit: u32,
        offset: u32,
    ) -> (r: Request)
        ensures
            r@ == asks(
                connection_query(
                    opt_str(session_hex),
                    opt_str(ip),
                    opt_str(conn_type),
                    opt_str(policy),
                    offenders_only,
                    limit,
                    offset,
                ),
            ),
    {
        let mut q: Vec<String> = Vec::new();
        q.push(cat("limit=", dec(limit as u64).as_str()));
        q.push(cat("offset=", dec(offset as u64).as_str()));
        assert(views(q@) =~= seq![
            "limit="@ + decimal(limit as nat),
            "offset="@ + decimal(offset as nat),
        ]);
        add_param(&mut q, "session_hex=", session_hex);
        add_param(&mut q, "ip=", ip);
        add_param(&mut q, "type=", conn_type);
        add_param(&mut q, "policy=", policy);
        if offenders_only {
            let ghost before = q@;
            q.push("offenders=1".to_owned());
            assert(views(q@) =~= views(before).push("offenders=1"@));
        }
        let params = join(&q, "&");
        ask(cat("/api/v1/gaming/connections?", params.as_str()).as_str())
    }

    /// Asks who offended in several sessions.
    pub fn connection_offenders(&self, min_sessions: u32, limit: u32) -> (r: Request)
        ensures
            r@ == asks(
                "/api/v1/gaming/connections/offenders?min_sessions="@ + decimal(
                    min_sessions as nat,
                ) + "&limit="@ + decimal(limit as nat),
            ),
    {
        let mut s = "/api/v1/gaming/connections/offenders?min_sessions=".to_owned();
        s.append(dec(min_sessions as u64).as_str());
        s.append("&limit=");
        s.append(dec(limit as u64).as_str());
        ask(s.as_str())
    }

    /// Asks for the sessions of connections.
    pub fn list_connection_sessions(&self, limit: u32) -> (r: Request)
        ensures
            r@ == asks("/api/v1/gaming/connections/sessions?limit="@ + decimal(limit as nat)),
    {
        ask(cat("/api/v1/gaming/connections/sessions?limit=", dec(limit as u64).as_str()).as_str())
    }

    /// Has something done to addresses.
    pub fn connections_action(
        &self,
        ips: &Vec<String>,
        action: &str,
        session_hex: Option<&str>,
    ) -> (r: Request)
        ensures
            r@ == sends(
                "/api/v1/gaming/connections/action"@,
                seq![("ips"@, text_list(views(ips@))), ("action"@, JsonView::Str(action@))]
                    + maybe_text("session_hex"@, opt_str(session_hex)),
            ),
    {
        let e = and(one("ips", list_of(ips)), "action", text(action));
        assert(entry_views(e@) =~= seq![
            ("ips"@, text_list(views(ips@))),
            ("action"@, JsonView::Str(action@)),
        ]);
        send("/api/v1/gaming/connections/action", and_text(e, "session_hex", session_hex))
    }

    /// Has unknown hosts looked into.
    pub fn investigate_unknowns(&self, limit: u32) -> (r: Request)
        ensures
            r@ == sends(
                "/api/v1/gaming/investigate/run"@,
                seq![("limit"@, JsonView::UInt(limit as u64))],
            ),
    {
        send("/api/v1/gaming/investigate/run", one("limit", Json::UInt(limit as u64)))
    }

    /// Hands over what is known of lobbies.
    pub fn import_lobby_intel(&self, body: Json) -> (r: Request)
        ensures
            r@ == (RequestView { path: "/api/v1/gaming/intel/import"@, body: Some(body@) }),
    {
        Request { path: "/api/v1/gaming/intel/import".to_owned(), body: Some(body) }
    }

    /// Has old blocks fade.
    pub fn decay_peer_blocks(&self) -> (r: Request)
        ensures
            r@ == sends("/api/v1/gaming/peers/decay"@, Seq::empty()),
    {
        nothing("/api/v1/gaming/peers/decay")
    }

    /// Has the probes of a session matched.
    pub fn correlate_probe_sink(&self, session_hex: &str) -> (r: Request)
        ensures
            r@ == sends(
                "/api/v1/gaming/probe-sink/correlate"@,
                seq![("session_hex"@, JsonView::Str(session_hex@))],
            ),
    {
        send("/api/v1/gaming/probe-sink/correlate", one("session_hex", text(session_hex)))
    }

    /// Has the shield take over peers at once.
    pub fn sync_shield_fast(&self, level: &str, ips: &Vec<String>) -> (r: Request)
        ensures
            r@ == sends(
                "/api/v1/shield/sync-fast"@,
                seq![("level"@, JsonView::Str(level@)), ("ips"@, text_list(views(ips@)))],
            ),
    {
        level_and_ips("/api/v1/shield/sync-fast", level, ips)
    }

    /// Asks for the telemetry of the queues.
    pub fn fetch_telemetry_queues(&self) -> (r: Request)
        ensures
            r@ == asks("/api/v1/telemetry/queues"@),
    {
        ask("/api/v1/telemetry/queues")
    }

    /// Asks how the upload boost stands.
    pub fn upload_boost_status(&self) -> (r: Request)
        ensures
            r@ == asks("/api/v1/qos/upload-boost"@),
    {
        ask("/api/v1/qos/upload-boost")
    }

    /// Has a profile chosen by the queues and set.
    pub fn apply_rqd_buffer_profile(&self, sample: Json) -> (r: Request)
        ensures
            r@ == sends(
                "/api/v1/rqd/buffer-profile"@,
                seq![("apply"@, JsonView::Bool(true)), ("sample"@, sample@)],
            ),
    {
        let e = and(one("apply", Json::Bool(true)), "sample", sample);
        let r = send("/api/v1/rqd/buffer-profile", e);
        assert(entry_views(e@) =~= seq![("apply"@, JsonView::Bool(true)), ("sample"@, sample@)]);
        r
    }

    /// Asks which profile the queues call for.
    pub fn rqd_buffer_recommendation(&self, sample: Json) -> (r: Request)
        ensures
            r@ == sends("/api/v1/rqd/buffer-profile"@, seq![("sample"@, sample@)]),
    {
        send("/api/v1/rqd/buffer-profile", one("sample", sample))
    }

    /// Has a session scanned.
    pub fn asvi_scan(&self, session_hex: Option<&str>, limit: u32) -> (r: Request)
        ensures
            r@ == sends(
                "/api/v1/asvi/scan"@,
                seq![("limit"@, JsonView::UInt(limit as u64))] + maybe_text(
                    "session_hex"@,
                    opt_str(session_hex),
                ),
            ),
    {
        let e = one("limit", Json::UInt(limit as u64));
        send("/api/v1/asvi/scan", and_text(e, "session_hex", session_hex))
    }

    /// Has bytes packed for the wire.
    pub fn wire_compress_bytes(&self, raw: &Vec<u8>) -> (r: Request)
        requires
            raw@.len() <= usize::MAX / 2,
        ensures
            r@ == sends(
                "/api/v1/folding/wire/compress"@,
                seq![("payload_b64"@, JsonView::Str(b64_text(raw@)))],
            ),
    {
        let b64 = b64_encode(raw);
        send("/api/v1/folding/wire/compress", one("payload_b64", text(b64.as_str())))
    }
}

fn nothing(path: &str) -> (r: Request)
    ensures
        r@ == sends(path@, Seq::empty()),
{
    let v: Vec<(String, Json)> = Vec::new();
    assert(entry_views(v@) =~= Seq::empty());
    send(path, v)
}

fn level_and_ips(path: &str, level: &str, ips: &Vec<String>) -> (r: Request)
    ensures
        r@ == sends(
            path@,
            seq![("level"@, JsonView::Str(level@)), ("ips"@, text_list(views(ips@)))],
        ),
{
    let e = and(one("level", text(level)), "ips", list_of(ips));
    let r = send(path, e);
    assert(entry_views(e@) =~= seq![
        ("level"@, JsonView::Str(level@)),
        ("ips"@, text_list(views(ips@))),
    ]);
    r
}

// ---------------------------------------------------------------------------------------------
// Large bodies

/// Whether a body of this many bytes is packed for the wire first.
pub fn goes_packed(bytes: usize, min_bytes: usize) -> (r: bool)
    ensures
        r == (bytes >= min_bytes),
{
    bytes >= min_bytes
}

/// What is sent of a body that was packed: what the packing gave; nothing where it failed, and the
/// body goes as it is.
pub open spec fn wire_envelope(wire: JsonView) -> Option<Seq<(Seq<char>, JsonView)>> {
    if flag_or(wire.field("ok"@), false) {
        Some(
            seq![
                ("_wire"@, JsonView::Bool(true)),
                (
                    "encoding"@,
                    match wire.field("encoding"@) {
                        Some(v) => v,
                        None => JsonView::Str("gzip+blsb"@),
                    },
                ),
                ("orig_size"@, or_null(wire.field("orig_size"@))),
                ("compressed_size"@, or_null(wire.field("compressed_size"@))),
                ("ratio"@, or_null(wire.field("ratio"@))),
                (
                    "effective_throughput_factor"@,
                    or_null(wire.field("effective_throughput_factor"@)),
                ),
                ("preservation_ratio"@, or_null(wire.field("preservation_ratio"@))),
                ("payload_b64"@, or_null(wire.field("payload_b64"@))),
                ("fold_sidecar"@, or_null(wire.field("fold_sidecar"@))),
            ],
        )
    } else {
        None
    }
}

/// What is sent of a body that was packed, where packing worked.
pub fn envelope(wire: &Json) -> (r: Option<Json>)
    ensures
        match wire_envelope(wire@) {
            Some(e) => r matches Some(j) && j@ == JsonView::Obj(e),
            None => r is None,
        },
{
    if !bool_or(wire.get("ok"), false) {
        return None;
    }
    let encoding = match wire.get("encoding") {
        Some(v) => v.dup(),
        None => text("gzip+blsb"),
    };
    let e = and(one("_wire", Json::Bool(true)), "encoding", encoding);
    let e = and(e, "orig_size", dup_or_null(wire.get("orig_size")));
    let e = and(e, "compressed_size", dup_or_null(wire.get("compressed_size")));
    let e = and(e, "ratio", dup_or_null(wire.get("ratio")));
    let e = and(
        e,
        "effective_throughput_factor",
        dup_or_null(wire.get("effective_throughput_factor")),
    );
    let e = and(e, "preservation_ratio", dup_or_null(wire.get("preservation_ratio")));
    let e = and(e, "payload_b64", dup_or_null(wire.get("payload_b64")));
    let e = and(e, "fold_sidecar", dup_or_null(wire.get("fold_sidecar")));
    assert(entry_views(e@) =~= wire_envelope(wire@)->0);
    Some(object(e))
}

// ---------------------------------------------------------------------------------------------
// Replies

/// Whether the firewall is well.
pub fn is_healthy(reply: Option<&Json>) -> (r: bool)
    ensures
        r == match opt_view(reply) {
            Some(v) => flag_or(v.field("ok"@), false),
            None => false,
        },
{
    match reply {
        Some(v) => bool_or(v.get("ok"), false),
        None => false,
    }
}

/// What a script wrote, by the reply to it; or why it failed.
pub fn script_output(reply: &Json) -> (r: Result<String, String>)
    ensures
        result_text(r) == if refused(reply@) {
            Err(
                text_field_or(
                    or_else(reply@.field("error"@), reply@.field("stderr"@)),
                    "script failed"@,
                ),
            )
        } else {
            Ok(trimmed(text_or_empty(reply@.field("stdout"@))))
        },
{
    if let Some(v) = reply.get("ok") {
        if let Some(b) = v.as_bool() {
            if !b {
                return Err(field_text_or(reply.get_either("error", "stderr"), "script failed"));
            }
        }
    }
    Ok(trim(str_or_empty(reply.get("stdout"))))
}

/// The text of the document that a script wrote, by the reply to it; or why there is none. Here a
/// reply that does not say that it is in order is a failure.
pub fn script_document(reply: &Json, script: &str) -> (r: Result<String, String>)
    ensures
        result_text(r) == if !flag_or(reply@.field("ok"@), false) {
            Err(
                text_field_or(
                    or_else(reply@.field("stderr"@), reply@.field("error"@)),
                    "script failed"@,
                ),
            )
        } else if trimmed(text_or_empty(reply@.field("stdout"@))).len() == 0 {
            Err("empty output from "@ + script@)
        } else {
            Ok(text_or_empty(reply@.field("stdout"@)))
        },
{
    if !bool_or(reply.get("ok"), false) {
        return Err(field_text_or(reply.get_either("stderr", "error"), "script failed"));
    }
    let out = str_or_empty(reply.get("stdout"));
    let t = trim(out);
    if t.as_str().is_empty() {
        assert(t@.len() == 0);
        return Err(cat("empty output from ", script));
    }
    Ok(out.to_owned())
}

/// A token is what is assigned to one of its names, without blanks and quotes around it; a line of
/// its own, without an equals sign, is one too; a comment and an empty line are none, and neither
/// is what is assigned to another name.
pub proof fn lines_give_their_token(line: Seq<char>, i: int)
    requires
        trimmed(line) == line,
        0 <= i < 4,
    ensures
        ({
            let names = token_names();
            let tok = unquoted(trimmed(line.skip(names[i].len() as int)));
            &&& line.len() == 0 || line[0] == '#' ==> line_token(line) is None
            &&& line.len() > 0 && line[0] != '#' && !line.contains('=') && assigned_token(
                line,
                names,
            ) is None ==> line_token(line) == Some(line)
            &&& line.len() > 0 && line[0] != '#' && begins(line, names[i]) && tok.len() > 0 && (
            forall|k: int| 0 <= k < i ==> !begins(line, #[trigger] names[k])) ==> line_token(line)
                == Some(tok)
            &&& line.contains('=') && (forall|k: int|
                0 <= k < 4 ==> !begins(line, #[trigger] names[k])) ==> line_token(line) is None
        }),
{
    lemma_assigned(line, token_names(), i);
}

proof fn lemma_assigned(line: Seq<char>, names: Seq<Seq<char>>, i: int)
    requires
        0 <= i < names.len(),
    ensures
        ({
            let tok = unquoted(trimmed(line.skip(names[i].len() as int)));
            &&& begins(line, names[i]) && tok.len() > 0 && (forall|k: int|
                0 <= k < i ==> !begins(line, #[trigger] names[k])) ==> assigned_token(line, names)
                == Some(tok)
            &&& (forall|k: int| 0 <= k < names.len() ==> !begins(line, #[trigger] names[k]))
                ==> assigned_token(line, names) is None
        }),
    decreases names.len(),
{
    let t = names.skip(1);
    assert(names[0] == names[0]);
    if t.len() > 0 {
        lemma_assigned(
            line,
            t,
            if i > 0 {
                i - 1
            } else {
                0
            },
        );
        if i > 0 {
            assert(t[i - 1] == names[i]);
        }
        if forall|k: int| 0 <= k < i ==> !begins(line, #[trigger] names[k]) {
            assert forall|k: int| 0 <= k < i - 1 implies !begins(line, #[trigger] t[k]) by {
                assert(t[k] == names[k + 1]);
            }
        }
        if forall|k: int| 0 <= k < names.len() ==> !begins(line, #[trigger] names[k]) {
            assert forall|k: int| 0 <= k < t.len() implies !begins(line, #[trigger] t[k]) by {
                assert(t[k] == names[k + 1]);
            }
        }
    } else {
        assert(assigned_token(line, t) is None);
    }
}

/// The names of a token, in the order in which they are looked for.
pub proof fn tokens_have_four_names()
    ensures
        token_names().len() == 4,
        token_names()[0] == "ARRAY_FW_API_TOKEN="@,
        token_names()[1] == "FIREWALLA_API_TOKEN="@,
        token_names()[2] == "WZ_ARRAY_FW_API_TOKEN="@,
        token_names()[3] == "WZ_FIREWALLA_API_TOKEN="@,
{
}

/// The first line with a token gives it; settings come in their order, those that are blank being
/// passed over, and so do files.
pub proof fn the_first_token_is_taken(
    line: Seq<char>,
    lines: Seq<Seq<char>>,
    setting: Option<Seq<char>>,
    more: Seq<Option<Seq<char>>>,
)
    ensures
        line_token(line) is Some ==> first_token(seq![line] + lines) == line_token(line),
        line_token(line) is None ==> first_token(seq![line] + lines) == first_token(lines),
        setting is Some && trimmed(setting->0).len() > 0 ==> first_setting(seq![setting] + more)
            == Some(trimmed(setting->0)),
        setting is None || trimmed(setting->0).len() == 0 ==> first_setting(seq![setting] + more)
            == first_setting(more),
        setting is Some && file_token(setting->0) is Some ==> first_file_token(
            seq![setting] + more,
        ) == file_token(setting->0),
        setting is None || file_token(setting->0) is None ==> first_file_token(
            seq![setting] + more,
        ) == first_file_token(more),
{
    let a = seq![line] + lines;
    assert(a.skip(1) =~= lines && a[0] == line);
    let b = seq![setting] + more;
    assert(b.skip(1) =~= more && b[0] == setting);
}

/// Quotes around a text are left out, and no other.
pub proof fn quotes_are_left_out(s: Seq<char>)
    ensures
        unquoted(s).len() > 0 ==> unquoted(s)[0] != '"' && unquoted(s).last() != '"',
        s.len() > 0 && s[0] != '"' && s.last() != '"' ==> unquoted(s) == s,
        unquoted(s).len() <= s.len(),
{
    lemma_quotes_before(s);
    let t = unquoted_start(s);
    lemma_quotes_behind(t);
}

proof fn lemma_quotes_before(s: Seq<char>)
    ensures
        unquoted_start(s).len() <= s.len(),
        unquoted_start(s).len() > 0 ==> unquoted_start(s)[0] != '"',
    decreases s.len(),
{
    if s.len() > 0 && s[0] == '"' {
        lemma_quotes_before(s.skip(1));
    }
}

proof fn lemma_quotes_behind(s: Seq<char>)
    ensures
        unquoted_end(s).len() <= s.len(),
        unquoted_end(s).len() > 0 ==> unquoted_end(s).last() != '"' && unquoted_end(s)[0] == s[0],
    decreases s.len(),
{
    if s.len() > 0 && s.last() == '"' {
        lemma_quotes_behind(s.drop_last());
    }
}

/// A parameter stands in a query where it is given and not empty, behind those before.
pub proof fn parameters_stand_where_given(q: Seq<Seq<char>>, key: Seq<char>, s: Option<Seq<char>>)
    ensures
        s is None || s->0.len() == 0 ==> with_param(q, key, s) == q && maybe_text(key, s).len()
            == 0,
        s is Some && s->0.len() > 0 ==> with_param(q, key, s).len() == q.len() + 1
            && q.is_prefix_of(
            with_param(q, key, s),
        ) && key.is_prefix_of(with_param(q, key, s).last()) && maybe_text(key, s) == seq![
            (key, JsonView::Str(s->0)),
        ],
{
    let r = with_param(q, key, s);
    assert(r.subrange(0, q.len() as int) =~= q);
    if s is Some {
        let t = key + percent_encoded(s->0);
        assert(t.subrange(0, key.len() as int) =~= key);
    }
}

/// An envelope is made of a reply that is in order, and of no other; it says what it is, and how
/// the reply was packed.
pub proof fn replies_in_order_are_enveloped(wire: JsonView)
    ensures
        wire_envelope(wire) is Some <==> wire.field("ok"@) == Some(JsonView::Bool(true)),
        wire_envelope(wire) is Some ==> {
            let e = wire_envelope(wire)->0;
            &&& e[0] == ("_wire"@, JsonView::Bool(true))
            &&& e[1].0 == "encoding"@
            &&& wire.field("encoding"@) is Some ==> e[1].1 == wire.field("encoding"@)->0
            &&& wire.field("encoding"@) is None ==> e[1].1 == JsonView::Str("gzip+blsb"@)
            &&& e[7] == ("payload_b64"@, or_null(wire.field("payload_b64"@)))
        },
{
}

} // verus!
