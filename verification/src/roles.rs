//! The role table that holds where no other is given.
use vstd::prelude::*;

use crate::enrich::RoleRule;
use crate::text::views;

verus! {

/// A role with the words in its host names and its networks.
pub open spec fn rule_is(r: RoleRule, id: Seq<char>, words: Seq<Seq<char>>, nets: Seq<Seq<char>>) -> bool {
    &&& r.id@ == id
    &&& views(r.match_patterns@) == words
    &&& views(r.cidrs@) == nets
    &&& r.exclude@.len() == 0
}

/// The game's own servers, the delivery network of its assets, and the console's service.
pub open spec fn is_default_table(t: Seq<RoleRule>) -> bool {
    &&& t.len() == 3
    &&& rule_is(t[0], "warzone-game"@, seq!["demonware"@], seq!["185.34.104.0/22"@])
    &&& rule_is(
        t[1],
        "game-assets"@,
        seq!["akamai"@],
        seq!["23.192.0.0/11"@, "23.64.0.0/14"@],
    )
    &&& rule_is(t[2], "xbox-live"@, seq!["xboxlive"@], seq!["20.201.0.0/16"@, "4.144.0.0/12"@])
}

fn list1(a: &str) -> (r: Vec<String>)
    ensures
        views(r@) == seq![a@],
{
    let mut v: Vec<String> = Vec::new();
    v.push(a.to_owned());
    assert(views(v@) =~= seq![a@]);
    v
}

fn list2(a: &str, b: &str) -> (r: Vec<String>)
    ensures
        views(r@) == seq![a@, b@],
{
    let mut v: Vec<String> = Vec::new();
    v.push(a.to_owned());
    v.push(b.to_owned());
    assert(views(v@) =~= seq![a@, b@]);
    v
}

/// The role table that holds where no other is given.
pub fn default_roles() -> (r: Vec<RoleRule>)
    ensures
        is_default_table(r@),
{
    let mut t: Vec<RoleRule> = Vec::new();
    t.push(
        RoleRule {
            id: "warzone-game".to_owned(),
            match_patterns: list1("demonware"),
            cidrs: list1("185.34.104.0/22"),
            exclude: Vec::new(),
        },
    );
    t.push(
        RoleRule {
            id: "game-assets".to_owned(),
            match_patterns: list1("akamai"),
            cidrs: list2("23.192.0.0/11", "23.64.0.0/14"),
            exclude: Vec::new(),
        },
    );
    t.push(
        RoleRule {
            id: "xbox-live".to_owned(),
            match_patterns: list1("xboxlive"),
            cidrs: list2("20.201.0.0/16", "4.144.0.0/12"),
            exclude: Vec::new(),
        },
    );
    t
}

} // verus!
