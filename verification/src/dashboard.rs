//! What the dashboard shows of a snapshot.
use vstd::prelude::*;

use crate::json::{
    array, array_of, dup_first, dup_or_null, entry_views, first_of, items_or_empty, json_views,
    object, opt_view, or_else, or_null, Json, JsonView,
};

verus! {

/// The first items of a list; none where it is missing.
pub open spec fn head(j: Option<JsonView>, n: nat) -> JsonView {
    JsonView::Arr(first_of(items_or_empty(j), n))
}

/// A snapshot cut to what the dashboard shows: the state of console and line, and the first
/// entries of each list.
pub open spec fn trimmed_snapshot(s: JsonView) -> Seq<(Seq<char>, JsonView)> {
    seq![
        ("xbox"@, or_null(s.field("xbox"@))),
        ("wan"@, or_null(s.field("wan"@))),
        ("sample"@, or_null(s.field("sample"@))),
        ("flowSource"@, or_null(s.field("flowSource"@))),
        (
            "connections"@,
            JsonView::Obj(
                seq![
                    ("count"@, or_null(s.field_in("connections"@, "count"@))),
                    ("items"@, head(s.field_in("connections"@, "items"@), 48)),
                ],
            ),
        ),
        ("_enriched"@, or_null(s.field("_enriched"@))),
        ("recentFlows"@, head(or_else(s.field("recentFlows"@), s.field("recent_flows"@)), 32)),
        (
            "dnsDestinations"@,
            head(or_else(s.field("dnsDestinations"@), s.field("dns_destinations"@)), 16),
        ),
        ("topFlows"@, head(or_else(s.field("topFlows"@), s.field("top_flows"@)), 20)),
        (
            "packetCapture"@,
            or_null(or_else(s.field("packetCapture"@), s.field("packet_capture"@))),
        ),
    ]
}

fn head_of(j: Option<&Json>, n: usize) -> (r: Json)
    ensures
        r@ == head(opt_view(j), n as nat),
{
    match array_of(j) {
        Some(v) => array(dup_first(v, n)),
        None => {
            let none: Vec<Json> = Vec::new();
            assert(json_views(none@) =~= first_of(items_or_empty(opt_view(j)), n as nat));
            array(none)
        },
    }
}

/// A snapshot cut to what the dashboard shows.
pub fn trim_snapshot(snapshot: &Json) -> (r: Json)
    ensures
        r@ == JsonView::Obj(trimmed_snapshot(snapshot@)),
{
    let mut c: Vec<(String, Json)> = Vec::new();
    c.push(("count".to_owned(), dup_or_null(snapshot.get_in("connections", "count"))));
    c.push(("items".to_owned(), head_of(snapshot.get_in("connections", "items"), 48)));
    assert(entry_views(c@) =~= seq![
        ("count"@, or_null(snapshot@.field_in("connections"@, "count"@))),
        ("items"@, head(snapshot@.field_in("connections"@, "items"@), 48)),
    ]);
    let connections = object(c);
    let mut v: Vec<(String, Json)> = Vec::new();
    v.push(("xbox".to_owned(), dup_or_null(snapshot.get("xbox"))));
    v.push(("wan".to_owned(), dup_or_null(snapshot.get("wan"))));
    v.push(("sample".to_owned(), dup_or_null(snapshot.get("sample"))));
    v.push(("flowSource".to_owned(), dup_or_null(snapshot.get("flowSource"))));
    v.push(("connections".to_owned(), connections));
    v.push(("_enriched".to_owned(), dup_or_null(snapshot.get("_enriched"))));
    v.push(
        ("recentFlows".to_owned(), head_of(snapshot.get_either("recentFlows", "recent_flows"), 32)),
    );
    v.push(
        (
            "dnsDestinations".to_owned(),
            head_of(snapshot.get_either("dnsDestinations", "dns_destinations"), 16),
        ),
    );
    v.push(("topFlows".to_owned(), head_of(snapshot.get_either("topFlows", "top_flows"), 20)));
    v.push(
        (
            "packetCapture".to_owned(),
            dup_or_null(snapshot.get_either("packetCapture", "packet_capture")),
        ),
    );
    assert(entry_views(v@) =~= trimmed_snapshot(snapshot@));
    object(v)
}

/// What is shown of a snapshot is bounded: 48 connections, 32 flows, 16 names and 20 top flows, the
/// first of each.
pub proof fn snapshots_are_trimmed(s: JsonView, j: Option<JsonView>, n: nat)
    ensures
        head(j, n) is Arr,
        head(j, n)->Arr_0.len() <= n,
        head(j, n)->Arr_0.is_prefix_of(items_or_empty(j)),
        items_or_empty(j).len() <= n ==> head(j, n)->Arr_0 == items_or_empty(j),
        ({
            let t = trimmed_snapshot(s);
            &&& t[4].0 == "connections"@ && t[4].1 is Obj && t[4].1->Obj_0[1] == (
                "items"@,
                head(s.field_in("connections"@, "items"@), 48),
            )
            &&& t[6] == (
                "recentFlows"@,
                head(or_else(s.field("recentFlows"@), s.field("recent_flows"@)), 32),
            )
            &&& t[0] == ("xbox"@, or_null(s.field("xbox"@)))
            &&& t[5] == ("_enriched"@, or_null(s.field("_enriched"@)))
        }),
{
    let h = head(j, n)->Arr_0;
    assert(items_or_empty(j).subrange(0, h.len() as int) =~= h);
}

} // verus!
