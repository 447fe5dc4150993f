//! Readings of a snapshot that several analyses share.
use vstd::prelude::*;

use crate::fixed::{
    divide, keep, larger, lemma_quotient, max_i64, quotient, quotients_compare, ratio, ratio_of,
    smaller, LIMIT,
};
use crate::json::{number, real_of, real_or, real_or_default, u64_or, uint_or, Json, JsonView};
use crate::text::same;

verus! {

/// The 64 bits of `n` as a signed number.
pub open spec fn as_signed(n: u64) -> int {
    if n <= i64::MAX {
        n as int
    } else {
        n - 0x1_0000_0000_0000_0000
    }
}

pub(crate) fn signed(n: u64) -> (r: i64)
    ensures
        r == as_signed(n),
{
    if n <= 0x7fff_ffff_ffff_ffff {
        n as i64
    } else {
        -((0xffff_ffff_ffff_ffff - n) as i64) - 1
    }
}

/// The number of connections that a snapshot states.
pub open spec fn conn_total(snapshot: JsonView) -> int {
    as_signed(uint_or(snapshot.field_in("connections"@, "count"@), 0))
}

pub(crate) fn connections(snapshot: &Json) -> (r: i64)
    ensures
        r == conn_total(snapshot@),
{
    signed(u64_or(snapshot.get_in("connections", "count"), 0))
}

/// The latency of the line to the provider, in millionths of a millisecond.
pub open spec fn wan_latency(snapshot: JsonView) -> Option<int> {
    number(snapshot.field_in("wan"@, "latencyMs"@))
}

pub(crate) fn wan_latency_of(snapshot: &Json) -> (r: Option<i64>)
    ensures
        match r {
            Some(n) => wan_latency(snapshot@) == Some(n as int) && -LIMIT <= n <= LIMIT,
            None => wan_latency(snapshot@) is None,
        },
{
    real_of(snapshot.get_in("wan", "latencyMs"))
}

/// The length of the sampled window in millionths of a second: three seconds where nothing is
/// stated, and half a second at least.
pub open spec fn window(snapshot: JsonView) -> int {
    larger(real_or(snapshot.field_in("sample"@, "windowSec"@), 3_000_000), 500_000)
}

pub(crate) fn window_of(snapshot: &Json) -> (r: i64)
    ensures
        r == window(snapshot@),
        500_000 <= r <= LIMIT,
{
    max_i64(real_or_default(snapshot.get_in("sample", "windowSec"), 3_000_000), 500_000)
}

/// A count of the sample block.
pub open spec fn sampled(snapshot: JsonView, key: Seq<char>) -> u64 {
    uint_or(snapshot.field_in("sample"@, key), 0)
}

pub(crate) fn sampled_of(snapshot: &Json, key: &str) -> (r: u64)
    ensures
        r == sampled(snapshot@, key@),
{
    u64_or(snapshot.get_in("sample", key), 0)
}

/// Bytes in a window as megabits per second.
pub open spec fn mbps(bytes: u64, window: int) -> int {
    smaller(quotient(bytes * 8_000_000, window), LIMIT as int)
}

/// Packets in a window as thousands per second.
pub open spec fn kpps(packets: u64, window: int) -> int {
    smaller(quotient(packets * 1_000_000_000, window), LIMIT as int)
}

fn per_window(n: u128, window: i64) -> (r: i64)
    requires
        window > 0,
        n <= 0xffff_ffff_ffff_ffff * 1_000_000_000,
    ensures
        r == smaller(quotient(n as int, window as int), LIMIT as int),
        0 <= r <= LIMIT,
{
    proof {
        assert(n <= n * window) by (nonlinear_arith)
            requires
                n >= 0,
                window >= 1,
        ;
        lemma_quotient(n as int, window as int, 0, n as int);
    }
    keep(divide(n as i128, window as i128))
}

pub(crate) fn mbps_of(bytes: u64, window: i64) -> (r: i64)
    requires
        window > 0,
    ensures
        r == mbps(bytes, window as int),
        0 <= r <= LIMIT,
{
    per_window(bytes as u128 * 8_000_000, window)
}

pub(crate) fn kpps_of(packets: u64, window: i64) -> (r: i64)
    requires
        window > 0,
    ensures
        r == kpps(packets, window as int),
        0 <= r <= LIMIT,
{
    per_window(packets as u128 * 1_000_000_000, window)
}

/// What came in for each unit that went out: 99 where nothing went out, 1 where nothing moved.
pub open spec fn in_out_ratio(down: u64, up: u64) -> int {
    if up > 0 {
        smaller(ratio(down as nat, up as nat), LIMIT as int)
    } else if down > 0 {
        99_000_000
    } else {
        1_000_000
    }
}

pub(crate) fn in_out_ratio_of(down: u64, up: u64) -> (r: i64)
    ensures
        r == in_out_ratio(down, up),
        0 <= r <= LIMIT,
{
    if up > 0 {
        keep(ratio_of(down, up))
    } else if down > 0 {
        99_000_000
    } else {
        1_000_000
    }
}

/// A lobby or a match is on.
pub open spec fn gaming(phase: Seq<char>) -> bool {
    phase == "matchmaking"@ || phase == "in-match"@
}

pub fn is_gaming(phase: &str) -> (r: bool)
    ensures
        r == gaming(phase@),
{
    same(phase, "matchmaking") || same(phase, "in-match")
}

/// The words for the phases differ.
pub(crate) proof fn lemma_phase_words()
    ensures
        "idle"@.len() == 4,
        "in-match"@.len() == 8,
        "matchmaking"@.len() == 11,
        "background"@.len() == 10,
        "post-match"@.len() == 10,
        "background"@[0] == 'b',
        "post-match"@[0] == 'p',
        "warzone"@.len() == 7,
        "unknown"@.len() == 7,
        "warzone"@[0] == 'w',
        "unknown"@[0] == 'u',
{
    reveal_strlit("idle");
    reveal_strlit("in-match");
    reveal_strlit("matchmaking");
    reveal_strlit("background");
    reveal_strlit("post-match");
    reveal_strlit("warzone");
    reveal_strlit("unknown");
}

/// A lobby or a match is on in these two phases and in no other.
pub proof fn two_phases_are_played(phase: Seq<char>)
    ensures
        gaming("matchmaking"@) && gaming("in-match"@),
        !gaming("idle"@) && !gaming("background"@) && !gaming("post-match"@),
        gaming(phase) ==> phase == "matchmaking"@ || phase == "in-match"@,
{
    lemma_phase_words();
}

/// A rate is the bytes of the window in megabits a second: above, at or below an even number of
/// millionths exactly when the bytes say so, as long as it is kept.
pub proof fn rates_are_true(bytes: u64, window: int, even: int)
    requires
        window > 0,
        even % 2 == 0,
        0 <= even < LIMIT,
    ensures
        mbps(bytes, window) > even <==> bytes * 8_000_000 > even * window,
        mbps(bytes, window) < even <==> bytes * 8_000_000 < even * window,
        kpps(bytes, window) > even <==> bytes * 1_000_000_000 > even * window,
        kpps(bytes, window) < even <==> bytes * 1_000_000_000 < even * window,
{
    quotients_compare(bytes * 8_000_000, window, even);
    quotients_compare(bytes * 1_000_000_000, window, even);
}

/// What came in for each unit that went out: more than an even number of millionths exactly when
/// as much came in. Where nothing went out it is 99, and 1 where nothing moved at all.
pub proof fn in_and_out_are_compared(down: u64, up: u64, even: int)
    requires
        even % 2 == 0,
        0 <= even < LIMIT,
    ensures
        up > 0 ==> (in_out_ratio(down, up) > even <==> down * 1_000_000 > even * up),
        up == 0 && down > 0 ==> in_out_ratio(down, up) == 99_000_000,
        up == 0 && down == 0 ==> in_out_ratio(down, up) == 1_000_000,
{
    if up > 0 {
        quotients_compare(down * 1_000_000, up as int, even);
    }
}

/// What a snapshot states is read as it is: the connections as a signed number, the window of its
/// sample as half a second at least and three where none is stated.
pub proof fn snapshots_state_what_is_read(snapshot: JsonView)
    ensures
        ({
            let n = uint_or(snapshot.field_in("connections"@, "count"@), 0);
            let w = number(snapshot.field_in("sample"@, "windowSec"@));
            &&& n <= i64::MAX ==> conn_total(snapshot) == n
            &&& n > i64::MAX ==> conn_total(snapshot) == n - 0x1_0000_0000_0000_0000
            &&& window(snapshot) >= 500_000
            &&& w is None ==> window(snapshot) == 3_000_000
            &&& w is Some && w->0 >= 500_000 ==> window(snapshot) == w->0
            &&& w is Some && w->0 < 500_000 ==> window(snapshot) == 500_000
            &&& wan_latency(snapshot) == number(snapshot.field_in("wan"@, "latencyMs"@))
        }),
{
}

} // verus!
