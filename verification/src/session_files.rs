//! What the files of past sessions are put together to.
use vstd::prelude::*;

use crate::json::{
    array_of, entry_views, items_or_empty, json_views, object, real_or, real_or_default,
    str_or_empty, text, text_or_empty, with_entry, written_entries_are_read, Json, JsonView,
};
use crate::peer_tracker::{is_session_hex, valid_session_hex, PeerTracker};
use crate::ranks::{largest_first, lemma_placed, place, placed};
use crate::text::{
    before, cat, ends, ends_with, lemma_text_less_total, lemma_text_less_trans, text_less,
};
use crate::traffic::{keyed_views, lemma_keyed_placed, rows_only};

verus! {

/// A directory of a session, as it was found.
pub struct FoundSession {
    pub hex: String,
    /// What is written of the session, where it could be read.
    pub meta: Option<Json>,
    /// The last table, where it could be read.
    pub peers: Option<Json>,
    pub snapshots: u64,
}

pub open spec fn counted_meta(o: Seq<(Seq<char>, JsonView)>, peers: Option<JsonView>, snaps: u64) -> Seq<
    (Seq<char>, JsonView),
> {
    let a = match peers {
        Some(doc) => with_entry(
            o,
            "peer_count"@,
            JsonView::UInt(items_or_empty(doc.field("peers"@)).len() as u64),
        ),
        None => o,
    };
    with_entry(a, "snapshot_count"@, JsonView::UInt(snaps))
}

pub open spec fn opt_doc(j: Option<Json>) -> Option<JsonView> {
    match j {
        Some(v) => Some(v@),
        None => None,
    }
}

/// What a list of sessions says of a session: what is written of it with the number of its peers
/// and snapshots, or its name alone.
pub open spec fn session_entry(f: FoundSession) -> JsonView {
    match f.meta {
        Some(m) => match m@ {
            JsonView::Obj(o) => JsonView::Obj(counted_meta(o, opt_doc(f.peers), f.snapshots)),
            other => other,
        },
        None => JsonView::Obj(seq![("session_hex"@, JsonView::Str(f.hex@))]),
    }
}

/// Where a session stands in the order of their beginnings.
pub open spec fn start_key(e: JsonView) -> u64 {
    (real_or(e.field("started_at"@), 0) + 0x4000_0000_0000_0000) as u64
}

/// The sessions with a proper name, the latest first.
pub open spec fn newest_first(found: Seq<FoundSession>) -> Seq<(u64, JsonView)>
    decreases found.len(),
{
    if found.len() == 0 {
        Seq::empty()
    } else {
        let earlier = newest_first(found.drop_last());
        let e = session_entry(found.last());
        if is_session_hex(found.last().hex@) {
            placed(earlier, (start_key(e), e))
        } else {
            earlier
        }
    }
}

/// Sessions are listed with the latest first.
pub proof fn sessions_are_newest_first(found: Seq<FoundSession>)
    ensures
        largest_first(newest_first(found)),
    decreases found.len(),
{
    if found.len() > 0 {
        sessions_are_newest_first(found.drop_last());
        let e = session_entry(found.last());
        lemma_placed(newest_first(found.drop_last()), (start_key(e), e));
    }
}

fn item_count(doc: &Json) -> (r: u64)
    ensures
        r == items_or_empty(doc@.field("peers"@)).len() as u64,
{
    match array_of(doc.get("peers")) {
        Some(v) => v.len() as u64,
        None => 0,
    }
}

fn entry_of(f: &FoundSession) -> (r: Json)
    ensures
        r@ == session_entry(*f),
{
    match &f.meta {
        Some(m) => {
            let mut doc = m.dup();
            if let Json::Obj(_) = &doc {
                if let Some(p) = &f.peers {
                    let _ok = doc.set("peer_count", Json::UInt(item_count(p)));
                }
                let _ok = doc.set("snapshot_count", Json::UInt(f.snapshots));
            }
            doc
        },
        None => {
            let mut v: Vec<(String, Json)> = Vec::new();
            v.push(("session_hex".to_owned(), text(f.hex.as_str())));
            assert(entry_views(v@) =~= seq![("session_hex"@, JsonView::Str(f.hex@))]);
            object(v)
        },
    }
}

/// The name of a file that holds a document.
pub open spec fn is_document_name(name: Seq<char>) -> bool {
    ends(name, ".json"@)
}

/// Whether a file holds a document, by its name.
pub fn holds_document(name: &str) -> (r: bool)
    ensures
        r == is_document_name(name@),
{
    ends_with(name, ".json")
}

/// A snapshot as it was read.
pub struct SnapshotFile {
    pub name: String,
    pub doc: Json,
}

/// A snapshot that says which file it came from.
pub open spec fn named_snapshot(f: SnapshotFile) -> JsonView {
    match f.doc@ {
        JsonView::Obj(o) => if f.doc@.field("filename"@) is Some {
            f.doc@
        } else {
            JsonView::Obj(with_entry(o, "filename"@, JsonView::Str(f.name@)))
        },
        _ => JsonView::Obj(seq![("filename"@, JsonView::Str(f.name@))]),
    }
}

pub open spec fn filename(doc: JsonView) -> Seq<char> {
    text_or_empty(doc.field("filename"@))
}

/// A snapshot put in its place by name: behind all whose name is not greater.
pub open spec fn name_placed(s: Seq<JsonView>, x: JsonView) -> Seq<JsonView>
    decreases s.len(),
{
    if s.len() == 0 {
        seq![x]
    } else if text_less(filename(x), filename(s[0])) {
        seq![x] + s
    } else {
        seq![s[0]] + name_placed(s.skip(1), x)
    }
}

/// The snapshots in the order of their names.
pub open spec fn by_name(files: Seq<SnapshotFile>) -> Seq<JsonView>
    decreases files.len(),
{
    if files.len() == 0 {
        Seq::empty()
    } else {
        name_placed(by_name(files.drop_last()), named_snapshot(files.last()))
    }
}

pub open spec fn names_ordered(s: Seq<JsonView>) -> bool {
    forall|i: int, j: int|
        0 <= i < j < s.len() ==> !text_less(filename(#[trigger] s[j]), filename(#[trigger] s[i]))
}

proof fn lemma_name_placed(s: Seq<JsonView>, x: JsonView)
    requires
        names_ordered(s),
    ensures
        names_ordered(name_placed(s, x)),
        name_placed(s, x).len() == s.len() + 1,
        forall|i: int|
            0 <= i < name_placed(s, x).len() ==> (#[trigger] name_placed(s, x)[i] == x
                || s.contains(name_placed(s, x)[i])),
    decreases s.len(),
{
    if s.len() > 0 {
        let t = s.skip(1);
        assert forall|i: int, j: int| 0 <= i < j < t.len() implies !text_less(
            filename(#[trigger] t[j]),
            filename(#[trigger] t[i]),
        ) by {
            assert(t[i] == s[i + 1] && t[j] == s[j + 1]);
        }
        lemma_name_placed(t, x);
        let r = name_placed(s, x);
        let u = name_placed(t, x);
        let first = text_less(filename(x), filename(s[0]));
        assert forall|i: int| 0 <= i < r.len() implies (#[trigger] r[i] == x || s.contains(
            r[i],
        )) by {
            if first {
                if i > 0 {
                    assert(r[i] == s[i - 1]);
                }
            } else if i == 0 {
                assert(r[0] == s[0]);
            } else {
                assert(r[i] == u[i - 1]);
                if u[i - 1] != x {
                    let k = choose|k: int| 0 <= k < t.len() && t[k] == u[i - 1];
                    assert(s[k + 1] == u[i - 1]);
                }
            }
        }
        assert forall|i: int, j: int| 0 <= i < j < r.len() implies !text_less(
            filename(#[trigger] r[j]),
            filename(#[trigger] r[i]),
        ) by {
            if first {
                assert(r[j] == s[j - 1]);
                if i > 0 {
                    assert(r[i] == s[i - 1]);
                } else {
                    let y = filename(s[j - 1]);
                    if j > 1 {
                        assert(!text_less(filename(s[j - 1]), filename(s[0])));
                    }
                    lemma_text_less_total(y, filename(x));
                    lemma_text_less_total(y, filename(s[0]));
                    if text_less(y, filename(x)) {
                        lemma_text_less_trans(y, filename(x), filename(s[0]));
                    }
                }
            } else {
                assert(r[j] == u[j - 1]);
                if i > 0 {
                    assert(r[i] == u[i - 1]);
                } else if u[j - 1] != x {
                    let k = choose|k: int| 0 <= k < t.len() && t[k] == u[j - 1];
                    assert(s[k + 1] == u[j - 1]);
                    assert(!text_less(filename(s[k + 1]), filename(s[0])));
                }
            }
        }
    }
}

/// Snapshots come in the order of their names.
pub proof fn snapshots_are_in_order(files: Seq<SnapshotFile>)
    ensures
        names_ordered(by_name(files)),
        by_name(files).len() == files.len(),
    decreases files.len(),
{
    if files.len() > 0 {
        snapshots_are_in_order(files.drop_last());
        lemma_name_placed(by_name(files.drop_last()), named_snapshot(files.last()));
    }
}

/// A snapshot is an object, or empty.
pub open spec fn is_snapshot(doc: JsonView) -> bool {
    doc is Obj || doc is Null
}

fn name_snapshot(f: &SnapshotFile) -> (r: Json)
    requires
        is_snapshot(f.doc@),
    ensures
        r@ == named_snapshot(*f),
{
    let mut doc = f.doc.dup();
    if doc.get("filename").is_some() {
        return doc;
    }
    if !doc.set("filename", text(f.name.as_str())) {
        let mut v: Vec<(String, Json)> = Vec::new();
        v.push(("filename".to_owned(), text(f.name.as_str())));
        assert(entry_views(v@) =~= seq![("filename"@, JsonView::Str(f.name@))]);
        doc = object(v);
    }
    doc
}

fn place_by_name(list: &mut Vec<Json>, x: Json)
    ensures
        json_views(final(list)@) == name_placed(json_views(old(list)@), x@),
{
    let ghost s = json_views(list@);
    let ghost y = x@;
    let mut at: usize = 0;
    assert(s.take(0) + name_placed(s.skip(0), y) =~= name_placed(s, y)) by {
        assert(s.skip(0) =~= s);
    }
    while at < list.len() && !before(
        str_or_empty(x.get("filename")),
        str_or_empty(list[at].get("filename")),
    )
        invariant
            at <= list.len(),
            json_views(list@) == s,
            list@ == old(list)@,
            y == x@,
            name_placed(s, y) == s.take(at as int) + name_placed(s.skip(at as int), y),
        decreases list.len() - at,
    {
        proof {
            let t = s.skip(at as int);
            assert(t[0] == s[at as int]);
            assert(s[at as int] == list@[at as int]@);
            assert(t.skip(1) =~= s.skip(at + 1));
            assert(s.take(at as int) + (seq![t[0]] + name_placed(t.skip(1), y)) =~= s.take(at + 1)
                + name_placed(s.skip(at + 1), y));
        }
        at += 1;
    }
    list.insert(at, x);
    proof {
        let t = s.skip(at as int);
        if at < s.len() {
            assert(t[0] == s[at as int]);
            assert(s[at as int] == old(list)@[at as int]@);
        }
        assert(json_views(list@) =~= s.take(at as int) + name_placed(t, y));
    }
}

/// A session as it was read back.
pub struct SessionDetail {
    pub session_hex: String,
    pub meta: Json,
    pub peers: Json,
    pub peer_count: u64,
    pub snapshots: Vec<Json>,
}

pub open spec fn peers_of(doc: Option<JsonView>) -> JsonView {
    match doc {
        Some(d) => match d.field("peers"@) {
            Some(p) => p,
            None => JsonView::Arr(Seq::empty()),
        },
        None => JsonView::Arr(Seq::empty()),
    }
}

impl PeerTracker {
    /// The sessions that were found, the latest first.
    pub fn list_sessions(found: &Vec<FoundSession>) -> (r: Vec<Json>)
        ensures
            json_views(r@) == rows_only(newest_first(found@)),
    {
        let mut ranked: Vec<(u64, Json)> = Vec::new();
        let mut i: usize = 0;
        assert(keyed_views(ranked@) =~= newest_first(found@.take(0)));
        while i < found.len()
            invariant
                i <= found.len(),
                keyed_views(ranked@) == newest_first(found@.take(i as int)),
            decreases found.len() - i,
        {
            proof {
                let t = found@.take(i + 1);
                assert(t.drop_last() =~= found@.take(i as int));
                assert(t.last() == found@[i as int]);
            }
            if valid_session_hex(found[i].hex.as_str()) {
                let e = entry_of(&found[i]);
                let started: i64 = real_or_default(e.get("started_at"), 0);
                let key: u64 = (started as i128 + 0x4000_0000_0000_0000) as u64;
                proof {
                    lemma_keyed_placed(ranked@, (key, e));
                }
                place(&mut ranked, key, e);
            }
            i += 1;
        }
        assert(found@.take(i as int) =~= found@);
        let mut out: Vec<Json> = Vec::new();
        let ghost want = rows_only(newest_first(found@));
        let mut k: usize = 0;
        while k < ranked.len()
            invariant
                k <= ranked.len(),
                want == rows_only(keyed_views(ranked@)),
                json_views(out@) =~= want.take(k as int),
            decreases ranked.len() - k,
        {
            let ghost before = out@;
            out.push(ranked[k].1.dup());
            assert(json_views(out@) =~= json_views(before).push(ranked@[k as int].1@));
            assert(want[k as int] == ranked@[k as int].1@);
            k += 1;
        }
        assert(want.take(k as int) =~= want);
        out
    }

    /// A session as it is read back from what its files hold.
    pub fn read_session(
        hex: &str,
        dir_found: bool,
        meta: Result<Json, String>,
        peers: Option<Json>,
        snapshots: Result<Vec<SnapshotFile>, String>,
    ) -> (r: Result<SessionDetail, String>)
        requires
            snapshots matches Ok(v) ==> forall|i: int|
                0 <= i < v@.len() ==> is_snapshot((#[trigger] v@[i]).doc@),
        ensures
            r is Ok <==> is_session_hex(hex@) && dir_found && meta is Ok && snapshots is Ok,
            r matches Err(e) ==> e@ == if !is_session_hex(hex@) {
                "invalid session_hex"@
            } else if !dir_found {
                "session not found"@
            } else if meta is Err {
                meta->Err_0@
            } else {
                snapshots->Err_0@
            },
            r matches Ok(d) ==> {
                &&& d.session_hex@ == hex@
                &&& d.meta@ == meta->Ok_0@
                &&& d.peers@ == peers_of(opt_doc(peers))
                &&& d.peer_count == items_or_empty(Some(d.peers@)).len() as u64
                &&& json_views(d.snapshots@) == by_name(snapshots->Ok_0@)
            },
    {
        if !valid_session_hex(hex) {
            return Err("invalid session_hex".to_owned());
        }
        if !dir_found {
            return Err("session not found".to_owned());
        }
        let meta = match meta {
            Ok(m) => m,
            Err(e) => return Err(e),
        };
        let files = match snapshots {
            Ok(v) => v,
            Err(e) => return Err(e),
        };
        let mut table = Json::Arr(Vec::new());
        proof {
            let empty: Vec<Json> = table->Arr_0;
            crate::json::lemma_arr_view(empty);
            assert(json_views(empty@) =~= Seq::empty());
        }
        if let Some(doc) = &peers {
            if let Some(p) = doc.get("peers") {
                table = p.dup();
            }
        }
        let peer_count: u64 = match array_of(Some(&table)) {
            Some(v) => v.len() as u64,
            None => 0,
        };
        let mut docs: Vec<Json> = Vec::new();
        let mut i: usize = 0;
        assert(json_views(docs@) =~= by_name(files@.take(0)));
        while i < files.len()
            invariant
                i <= files.len(),
                forall|k: int| 0 <= k < files@.len() ==> is_snapshot((#[trigger] files@[k]).doc@),
                json_views(docs@) == by_name(files@.take(i as int)),
            decreases files.len() - i,
        {
            proof {
                let t = files@.take(i + 1);
                assert(t.drop_last() =~= files@.take(i as int));
                assert(t.last() == files@[i as int]);
            }
            let doc = name_snapshot(&files[i]);
            place_by_name(&mut docs, doc);
            i += 1;
        }
        assert(files@.take(i as int) =~= files@);
        Ok(
            SessionDetail {
                session_hex: hex.to_owned(),
                meta,
                peers: table,
                peer_count,
                snapshots: docs,
            },
        )
    }

    /// The path under which an export of a session holds a file; none for a file that is no
    /// document.
    pub fn export_path(name: &str, in_snapshots: bool) -> (r: Option<String>)
        ensures
            r is Some <==> is_document_name(name@),
            r matches Some(p) ==> p@ == if in_snapshots {
                "snapshots/"@ + name@
            } else {
                name@
            },
    {
        if !holds_document(name) {
            return None;
        }
        if in_snapshots {
            Some(cat("snapshots/", name))
        } else {
            Some(name.to_owned())
        }
    }
}

/// A session that was found has the counts that were made: its peers where their document is there,
/// and its snapshots; what else its description held stays.
pub proof fn found_sessions_are_counted(
    o: Seq<(Seq<char>, JsonView)>,
    peers: Option<JsonView>,
    snaps: u64,
    other: Seq<char>,
)
    ensures
        ({
            let r = JsonView::Obj(counted_meta(o, peers, snaps));
            let s = JsonView::Obj(o);
            &&& r.field("snapshot_count"@) == Some(JsonView::UInt(snaps))
            &&& peers is Some ==> r.field("peer_count"@) == Some(
                JsonView::UInt(items_or_empty(peers->0.field("peers"@)).len() as u64),
            )
            &&& peers is None ==> r.field("peer_count"@) == s.field("peer_count"@)
            &&& other != "peer_count"@ && other != "snapshot_count"@ ==> r.field(other) == s.field(
                other,
            )
        }),
{
    reveal_strlit("peer_count");
    reveal_strlit("snapshot_count");
    assert("peer_count"@.len() == 10 && "snapshot_count"@.len() == 14);
    let a = match peers {
        Some(doc) => with_entry(
            o,
            "peer_count"@,
            JsonView::UInt(items_or_empty(doc.field("peers"@)).len() as u64),
        ),
        None => o,
    };
    if peers is Some {
        written_entries_are_read(
            o,
            "peer_count"@,
            JsonView::UInt(items_or_empty(peers->0.field("peers"@)).len() as u64),
            other,
        );
    }
    written_entries_are_read(a, "snapshot_count"@, JsonView::UInt(snaps), other);
    written_entries_are_read(a, "snapshot_count"@, JsonView::UInt(snaps), "peer_count"@);
}

/// Sessions are ordered by when they began: a later start has the larger key.
pub proof fn later_sessions_have_larger_keys(a: JsonView, b: JsonView)
    ensures
        start_key(a) > start_key(b) <==> real_or(a.field("started_at"@), 0) > real_or(
            b.field("started_at"@),
            0,
        ),
{
}

/// Every session with a valid name is listed, and no other.
pub proof fn valid_sessions_are_listed(found: Seq<FoundSession>, x: FoundSession)
    ensures
        newest_first(found.push(x)).len() == newest_first(found).len() + (if is_session_hex(
            x.hex@,
        ) {
            1int
        } else {
            0
        }),
        !is_session_hex(x.hex@) ==> newest_first(found.push(x)) == newest_first(found),
{
    assert(found.push(x).drop_last() =~= found);
    sessions_are_newest_first(found);
    lemma_placed(newest_first(found), (start_key(session_entry(x)), session_entry(x)));
}

/// A snapshot has a file name: its own, or the one of its file.
pub proof fn snapshots_have_a_name(f: SnapshotFile)
    ensures
        named_snapshot(f).field("filename"@) is Some,
        f.doc@.field("filename"@) is Some ==> named_snapshot(f) == f.doc@,
        f.doc@.field("filename"@) is None ==> named_snapshot(f).field("filename"@) == Some(
            JsonView::Str(f.name@),
        ),
{
    match f.doc@ {
        JsonView::Obj(o) => {
            written_entries_are_read(o, "filename"@, JsonView::Str(f.name@), "filename"@);
        },
        _ => {},
    }
}

} // verus!
