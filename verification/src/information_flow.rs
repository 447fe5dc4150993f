//! Information flow: how much new information each step of the network brings,
//! `Flow(M, x, t) = H(State_t | State_{t-1})`.
use vstd::prelude::*;

use crate::counts::{count_in, counted, lemma_counted, plus, sat_add, Tally};
use crate::fixed::{
    clamped, divide, fmt2, hundredths_text, lemma_quotient, quotient, smaller, ticks, ticks_of,
    LIMIT, ONE,
};
use crate::json::{
    array_of, items_or_empty, json_views, opt_view, or_else, real_or, real_or_default, str_or_empty,
    text_or_empty, u64_or, uint_or, Json, JsonView,
};
use crate::learning::{one_more_u32, plus_one_u32};
use crate::snapshot::lemma_phase_words;
use crate::text::{
    cat3, dec, decimal, is_digit, lemma_decimal, numbers_are_told_apart, parse_uint, parsed_uint,
    same, split, split_on, views,
};

verus! {

/// The network in coarse steps.
#[derive(Clone, Copy, PartialEq, Eq, Structural)]
pub struct NetworkState {
    pub flows: u8,
    pub ports: u8,
    pub hosts: u8,
    pub tcp_ratio: u8,
    pub udp_ratio: u8,
    pub tiny_in_ratio: u8,
    pub unique_in_remotes: u8,
    pub conns: u8,
    pub phase: u8,
}

/// The text that stands for a state: its nine numbers, each behind a short name.
pub open spec fn state_key(s: NetworkState) -> Seq<char> {
    "f="@ + decimal(s.flows as nat) + " p="@ + decimal(s.ports as nat) + " h="@ + decimal(
        s.hosts as nat,
    ) + " t="@ + decimal(s.tcp_ratio as nat) + " u="@ + decimal(s.udp_ratio as nat) + " ti="@
        + decimal(s.tiny_in_ratio as nat) + " ir="@ + decimal(s.unique_in_remotes as nat) + " c="@
        + decimal(s.conns as nat) + " ph="@ + decimal(s.phase as nat)
}

impl NetworkState {
    /// The text that stands for the state.
    pub fn key(&self) -> (r: String)
        ensures
            r@ == state_key(*self),
    {
        let mut s = "f=".to_owned();
        s.append(dec(self.flows as u64).as_str());
        s.append(" p=");
        s.append(dec(self.ports as u64).as_str());
        s.append(" h=");
        s.append(dec(self.hosts as u64).as_str());
        s.append(" t=");
        s.append(dec(self.tcp_ratio as u64).as_str());
        s.append(" u=");
        s.append(dec(self.udp_ratio as u64).as_str());
        s.append(" ti=");
        s.append(dec(self.tiny_in_ratio as u64).as_str());
        s.append(" ir=");
        s.append(dec(self.unique_in_remotes as u64).as_str());
        s.append(" c=");
        s.append(dec(self.conns as u64).as_str());
        s.append(" ph=");
        s.append(dec(self.phase as u64).as_str());
        s
    }
}

/// The number of the first band that `num / den` does not exceed, of bands that end at the given
/// multiples of `1 / unit`.
pub open spec fn band4(num: int, den: int, unit: int, e: (int, int, int, int)) -> u8 {
    if num * unit <= e.0 * den {
        0
    } else if num * unit <= e.1 * den {
        1
    } else if num * unit <= e.2 * den {
        2
    } else if num * unit <= e.3 * den {
        3
    } else {
        4
    }
}

fn discretize(num: i64, den: i64, unit: i64, e: (i64, i64, i64, i64)) -> (r: u8)
    requires
        1 <= unit <= 1_000_000,
        0 <= e.0 <= 1_000_000,
        0 <= e.1 <= 1_000_000,
        0 <= e.2 <= 1_000_000,
        0 <= e.3 <= 1_000_000,
    ensures
        r == band4(
            num as int,
            den as int,
            unit as int,
            (e.0 as int, e.1 as int, e.2 as int, e.3 as int),
        ),
{
    proof {
        lemma_product_fits(num as int, unit as int);
        lemma_product_fits(den as int, e.0 as int);
        lemma_product_fits(den as int, e.1 as int);
        lemma_product_fits(den as int, e.2 as int);
        lemma_product_fits(den as int, e.3 as int);
    }
    let x: i128 = num as i128 * unit as i128;
    if x <= e.0 as i128 * den as i128 {
        0
    } else if x <= e.1 as i128 * den as i128 {
        1
    } else if x <= e.2 as i128 * den as i128 {
        2
    } else if x <= e.3 as i128 * den as i128 {
        3
    } else {
        4
    }
}

proof fn lemma_product_fits(a: int, b: int)
    requires
        -0x8000_0000_0000_0000 <= a <= 0x7fff_ffff_ffff_ffff,
        0 <= b <= 1_000_000,
    ensures
        -0x8000_0000_0000_0000 * 1_000_000 <= a * b <= 0x7fff_ffff_ffff_ffff * 1_000_000,
        -0x8000_0000_0000_0000 * 1_000_000 <= b * a <= 0x7fff_ffff_ffff_ffff * 1_000_000,
{
    assert(-0x8000_0000_0000_0000 * 1_000_000 <= a * b <= 0x7fff_ffff_ffff_ffff * 1_000_000)
        by (nonlinear_arith)
        requires
            -0x8000_0000_0000_0000 <= a <= 0x7fff_ffff_ffff_ffff,
            0 <= b <= 1_000_000,
    ;
    assert(b * a == a * b) by (nonlinear_arith);
}

/// The statistics of the capture, under either name of the block.
pub open spec fn flow_stats(snapshot: JsonView) -> Option<JsonView> {
    or_else(
        snapshot.field_in("packetCapture"@, "stats"@),
        snapshot.field_in("packet_capture"@, "stats"@),
    )
}

pub open spec fn stat(snapshot: JsonView, key: Seq<char>) -> int {
    match flow_stats(snapshot) {
        Some(s) => real_or(s.field(key), 0),
        None => 0,
    }
}

fn stat_of(snapshot: &Json, key: &str) -> (r: i64)
    ensures
        r == stat(snapshot@, key@),
        -LIMIT <= r <= LIMIT,
{
    let st = match snapshot.get_in("packetCapture", "stats") {
        Some(s) => Some(s),
        None => snapshot.get_in("packet_capture", "stats"),
    };
    match st {
        Some(s) => real_or_default(s.get(key), 0),
        None => 0,
    }
}

pub open spec fn phase_step(phase: Seq<char>) -> u8 {
    if phase == "matchmaking"@ {
        2
    } else if phase == "in-match"@ {
        3
    } else if phase == "background"@ {
        1
    } else {
        0
    }
}

/// A share in fifths; 0 of nothing.
pub open spec fn fifths(part: int, whole: int) -> u8 {
    if whole > 0 {
        band4(part, whole, 10, (2, 4, 6, 8))
    } else {
        0
    }
}

/// The state of the network that a snapshot shows.
pub open spec fn network_state(snapshot: JsonView, conns: int, phase: Seq<char>) -> NetworkState {
    let total = stat(snapshot, "total"@);
    let inbound = stat(snapshot, "inbound"@);
    let tiny = stat(snapshot, "tinyInbound"@);
    let unique = stat(snapshot, "uniqueInboundRemotes"@);
    let udp = stat(snapshot, "udpInbound"@);
    let flows = match snapshot.field_in("connections"@, "count"@) {
        Some(v) => match v.integer() {
            Some(n) => n,
            None => conns,
        },
        None => conns,
    };
    NetworkState {
        flows: if flows <= 15 {
            0
        } else if flows <= 40 {
            1
        } else if flows <= 70 {
            2
        } else if flows <= 100 {
            3
        } else if flows <= 150 {
            4
        } else {
            5
        },
        ports: band4(unique, 1_000_000, 1, (3, 8, 14, 22)),
        hosts: band4(unique, 1_000_000, 1, (4, 10, 18, 30)),
        tcp_ratio: fifths(
            total - if udp <= total {
                udp
            } else {
                total
            },
            total,
        ),
        udp_ratio: fifths(udp, total),
        tiny_in_ratio: if inbound > 0 {
            band4(tiny, inbound, 100, (15, 30, 45, 60))
        } else {
            0
        },
        unique_in_remotes: band4(unique, 1_000_000, 1, (4, 8, 14, 20)),
        conns: band4(conns, 1, 1, (30, 60, 90, 130)),
        phase: phase_step(phase),
    }
}

fn fifths_of(part: i64, whole: i64) -> (r: u8)
    ensures
        r == fifths(part as int, whole as int),
{
    if whole > 0 {
        discretize(part, whole, 10, (2, 4, 6, 8))
    } else {
        0
    }
}

/// The state of the network that a snapshot shows.
pub fn state_from_snapshot(snapshot: &Json, conns: i64, phase: &str) -> (r: NetworkState)
    ensures
        r == network_state(snapshot@, conns as int, phase@),
{
    let total: i64 = stat_of(snapshot, "total");
    let inbound: i64 = stat_of(snapshot, "inbound");
    let tiny: i64 = stat_of(snapshot, "tinyInbound");
    let unique: i64 = stat_of(snapshot, "uniqueInboundRemotes");
    let udp: i64 = stat_of(snapshot, "udpInbound");
    let flows: i64 = match snapshot.get_in("connections", "count") {
        Some(v) => match v.as_i64() {
            Some(n) => n,
            None => conns,
        },
        None => conns,
    };
    let flow_band: u8 = if flows <= 15 {
        0
    } else if flows <= 40 {
        1
    } else if flows <= 70 {
        2
    } else if flows <= 100 {
        3
    } else if flows <= 150 {
        4
    } else {
        5
    };
    let tcp: i64 = total - if udp <= total {
        udp
    } else {
        total
    };
    let phase_band: u8 = if same(phase, "matchmaking") {
        2
    } else if same(phase, "in-match") {
        3
    } else if same(phase, "background") {
        1
    } else {
        0
    };
    NetworkState {
        flows: flow_band,
        ports: discretize(unique, 1_000_000, 1, (3, 8, 14, 22)),
        hosts: discretize(unique, 1_000_000, 1, (4, 10, 18, 30)),
        tcp_ratio: fifths_of(tcp, total),
        udp_ratio: fifths_of(udp, total),
        tiny_in_ratio: if inbound > 0 {
            discretize(tiny, inbound, 100, (15, 30, 45, 60))
        } else {
            0
        },
        unique_in_remotes: discretize(unique, 1_000_000, 1, (4, 8, 14, 20)),
        conns: discretize(conns, 1, 1, (30, 60, 90, 130)),
        phase: phase_band,
    }
}

// ---------------------------------------------------------------------------------------------
// Bytes

/// The octets that the first `n` pieces write.
pub open spec fn first_octets(parts: Seq<Seq<char>>, n: nat) -> Seq<u8>
    decreases n,
{
    if n == 0 {
        Seq::empty()
    } else {
        let before = first_octets(parts, (n - 1) as nat);
        if n <= parts.len() && parsed_uint(parts[n - 1], 255) is Some {
            before.push(parsed_uint(parts[n - 1], 255)->0 as u8)
        } else {
            before
        }
    }
}

/// The bytes of one record: its length, its protocol, and the octets of its remote.
pub open spec fn record_bytes(r: JsonView) -> Seq<u8> {
    let udp = match r.field("proto"@) {
        Some(p) => p.text() == Some("udp"@),
        None => false,
    };
    seq![
        (uint_or(r.field("len"@), 0) % 256) as u8,
        if udp {
            1u8
        } else {
            2u8
        },
    ] + first_octets(
        split_on(text_or_empty(or_else(r.field("remote"@), r.field("src"@))), '.'),
        4,
    )
}

pub open spec fn records_bytes(recs: Seq<JsonView>, n: nat) -> Seq<u8>
    decreases n,
{
    if n == 0 {
        Seq::empty()
    } else if n <= recs.len() {
        records_bytes(recs, (n - 1) as nat) + record_bytes(recs[n - 1])
    } else {
        records_bytes(recs, (n - 1) as nat)
    }
}

/// The bytes that stand for the first 128 records of a capture.
pub open spec fn fingerprint(snapshot: JsonView) -> Seq<u8> {
    records_bytes(
        items_or_empty(
            or_else(
                snapshot.field_in("packetCapture"@, "records"@),
                snapshot.field_in("packet_capture"@, "records"@),
            ),
        ),
        128,
    )
}

fn push_record(r: &Json, out: &mut Vec<u8>)
    ensures
        final(out)@ == old(out)@ + record_bytes(r@),
{
    let len: u8 = (u64_or(r.get("len"), 0) % 256) as u8;
    let udp = match r.get("proto") {
        Some(p) => match p.as_str() {
            Some(s) => same(s, "udp"),
            None => false,
        },
        None => false,
    };
    out.push(len);
    out.push(
        if udp {
            1u8
        } else {
            2u8
        },
    );
    let ghost start = out@;
    let parts = split(str_or_empty(r.get_either("remote", "src")), '.');
    let mut i: usize = 0;
    assert(out@ =~= start + first_octets(views(parts@), 0));
    while i < 4
        invariant
            i <= 4,
            out@ == start + first_octets(views(parts@), i as nat),
        decreases 4 - i,
    {
        if i < parts.len() {
            assert(views(parts@)[i as int] == parts@[i as int]@);
            if let Some(n) = parse_uint(parts[i].as_str(), 255) {
                out.push(n as u8);
            }
        }
        assert(out@ =~= start + first_octets(views(parts@), (i + 1) as nat));
        i += 1;
    }
    assert(out@ =~= old(out)@ + record_bytes(r@));
}

/// The bytes that stand for the first 128 records of a capture.
pub fn packet_byte_fingerprint(snapshot: &Json) -> (r: Vec<u8>)
    ensures
        r@ == fingerprint(snapshot@),
{
    let mut out: Vec<u8> = Vec::new();
    let recs = match snapshot.get_in("packetCapture", "records") {
        Some(v) => Some(v),
        None => snapshot.get_in("packet_capture", "records"),
    };
    let ghost items = items_or_empty(opt_view(recs));
    let mut i: usize = 0;
    match array_of(recs) {
        Some(v) => {
            while i < 128
                invariant
                    i <= 128,
                    items == json_views(v@),
                    out@ == records_bytes(items, i as nat),
                decreases 128 - i,
            {
                if i < v.len() {
                    assert(items[i as int] == v@[i as int]@);
                    push_record(&v[i], &mut out);
                }
                i += 1;
            }
        },
        None => {
            while i < 128
                invariant
                    i <= 128,
                    items == Seq::<JsonView>::empty(),
                    out@ == records_bytes(items, i as nat),
                decreases 128 - i,
            {
                i += 1;
            }
        },
    }
    out
}

/// How often each byte stands in `data`.
pub open spec fn byte_count(data: Seq<u8>, b: int) -> nat
    decreases data.len(),
{
    if data.len() == 0 {
        0
    } else {
        byte_count(data.drop_last(), b) + if data.last() == b {
            1nat
        } else {
            0nat
        }
    }
}

/// `counts` holds for each of the 256 bytes how often it stands in `data`.
pub open spec fn is_histogram(counts: Seq<u64>, data: Seq<u8>) -> bool {
    &&& counts.len() == 256
    &&& forall|b: int| 0 <= b < 256 ==> #[trigger] counts[b] == byte_count(data, b)
}

/// How often each byte stands in the data.
pub fn histogram(data: &Vec<u8>) -> (r: Vec<u64>)
    ensures
        is_histogram(r@, data@),
        forall|b: int| 0 <= b < 256 ==> #[trigger] r@[b] <= data.len(),
{
    let mut counts: Vec<u64> = Vec::new();
    let mut k: usize = 0;
    while k < 256
        invariant
            k <= 256,
            counts.len() == k,
            forall|b: int| 0 <= b < k ==> #[trigger] counts@[b] == 0,
        decreases 256 - k,
    {
        counts.push(0);
        k += 1;
    }
    let mut i: usize = 0;
    while i < data.len()
        invariant
            i <= data.len(),
            counts.len() == 256,
            forall|b: int|
                0 <= b < 256 ==> #[trigger] counts@[b] == byte_count(data@.take(i as int), b)
                    && counts@[b] <= i,
        decreases data.len() - i,
    {
        proof {
            let u = data@.take(i + 1);
            assert(u.drop_last() =~= data@.take(i as int));
            assert(u.last() == data@[i as int]);
        }
        let b: usize = data[i] as usize;
        let n: u64 = counts[b];
        counts[b] = n + 1;
        i += 1;
    }
    assert(data@.take(i as int) =~= data@);
    counts
}

/// The bytes that changed between two packets windows, over the first 4096 positions that both
/// have.
pub open spec fn byte_changes(prev: Seq<u8>, cur: Seq<u8>) -> Seq<u8> {
    let n = if prev.len() <= cur.len() {
        prev.len()
    } else {
        cur.len()
    };
    Seq::new(
        if n <= 4096 {
            n
        } else {
            4096
        },
        |i: int| cur[i] ^ prev[i],
    )
}

/// The bytes that changed between two packet windows.
pub fn changed_bytes(prev: &Vec<u8>, cur: &Vec<u8>) -> (r: Vec<u8>)
    ensures
        r@ == byte_changes(prev@, cur@),
{
    let mut out: Vec<u8> = Vec::new();
    let mut i: usize = 0;
    while i < prev.len() && i < cur.len() && i < 4096
        invariant
            i <= prev.len(),
            i <= cur.len(),
            i <= 4096,
            out@ == byte_changes(prev@, cur@).take(i as int),
        decreases prev.len() - i,
    {
        out.push(cur[i] ^ prev[i]);
        assert(out@ =~= byte_changes(prev@, cur@).take(i + 1));
        i += 1;
    }
    assert(out@ =~= byte_changes(prev@, cur@));
    out
}

/// The sum of the squares of `256 c - n` over all counts `c`: the chi-square statistic against an
/// even spread, times `256 n`.
pub open spec fn unevenness(counts: Seq<u64>, n: int) -> int
    decreases counts.len(),
{
    if counts.len() == 0 {
        0
    } else {
        unevenness(counts.drop_last(), n) + (256 * counts.last() - n) * (256 * counts.last() - n)
    }
}

/// The bytes are spread as evenly as random ones: one less a 512th of the chi-square statistic is
/// 0.65 at least.
pub open spec fn evenly_spread(counts: Seq<u64>, n: int) -> bool {
    10 * unevenness(counts, n) <= 458_752 * n
}

/// One less a 512th of the chi-square statistic, in millionths, cut to the range from 0 to 1.
pub open spec fn evenness(counts: Seq<u64>, n: int) -> int {
    clamped(ONE - quotient(unevenness(counts, n) * ONE, 131_072 * n), 0, ONE as int)
}

fn unevenness_of(counts: &Vec<u64>, n: u64) -> (r: i128)
    requires
        counts.len() == 256,
        n <= 512,
        forall|b: int| 0 <= b < 256 ==> #[trigger] counts@[b] <= n,
    ensures
        r == unevenness(counts@, n as int),
        0 <= r <= 256 * 0x4_0000_0000,
{
    let mut sum: i128 = 0;
    let mut i: usize = 0;
    while i < counts.len()
        invariant
            i <= counts.len(),
            counts.len() == 256,
            n <= 512,
            forall|b: int| 0 <= b < 256 ==> #[trigger] counts@[b] <= n,
            sum == unevenness(counts@.take(i as int), n as int),
            0 <= sum <= i * 0x4_0000_0000,
        decreases counts.len() - i,
    {
        let d: i128 = 256 * counts[i] as i128 - n as i128;
        proof {
            let u = counts@.take(i + 1);
            assert(u.drop_last() =~= counts@.take(i as int));
            assert(u.last() == counts@[i as int]);
            assert(0 <= d * d <= 0x4_0000_0000) by (nonlinear_arith)
                requires
                    -512 <= d <= 0x2_0000,
            ;
        }
        sum = sum + d * d;
        i += 1;
    }
    assert(counts@.take(i as int) =~= counts@);
    sum
}

/// The bytes look like those of a pseudo-random generator.
pub open spec fn looks_random(bytes: Seq<u64>, sample: int, entropy: int) -> bool {
    sample >= 32 && entropy >= 7_200_000 && evenly_spread(bytes, sample)
}

/// The entropy and the evenness of a sample of bytes, and whether it looks like the output of a
/// pseudo-random generator. `counts` tells how often each value stands in the sample, and `entropy`
/// is that of the sample, in millionths of a bit. Fewer than 32 bytes say nothing.
pub fn prg_uniformity(counts: &Vec<u64>, sample: u64, entropy: i64) -> (r: (i64, i64, bool))
    requires
        counts.len() == 256,
        sample <= 512,
        forall|b: int| 0 <= b < 256 ==> #[trigger] counts@[b] <= sample,
    ensures
        sample < 32 ==> r.0 == 0 && r.1 == 0,
        sample >= 32 ==> r.0 == entropy && r.1 == evenness(counts@, sample as int),
        r.2 == looks_random(counts@, sample as int, entropy as int),
{
    if sample < 32 {
        return (0, 0, false);
    }
    let sum: i128 = unevenness_of(counts, sample);
    let lost: i128 = divide(sum * ONE as i128, 131_072 * sample as i128);
    let even: i128 = ONE as i128 - lost;
    let evenness: i64 = if even < 0 {
        0
    } else {
        even as i64
    };
    (entropy, evenness, entropy >= 7_200_000 && 10 * sum <= 458_752 * sample as i128)
}

/// The bits that each of `steps` steps brings at least, where together they bring `total_bits`.
pub fn pigeonhole_min_flow(total_bits: i64, steps: u32) -> (r: i64)
    ensures
        r == if steps == 0 {
            total_bits as int
        } else {
            quotient(total_bits as int, steps as int)
        },
{
    if steps == 0 {
        total_bits
    } else {
        proof {
            let (lo, hi) = (i64::MIN as int, i64::MAX as int);
            assert(lo * steps <= total_bits <= hi * steps) by (nonlinear_arith)
                requires
                    lo < 0 < hi,
                    lo <= total_bits <= hi,
                    steps >= 1,
            ;
            lemma_quotient(total_bits as int, steps as int, lo, hi);
        }
        divide(total_bits as i128, steps as i128) as i64
    }
}

/// The first `n` bytes, or all where there are fewer.
pub open spec fn head(data: Seq<u8>, n: nat) -> Seq<u8> {
    if data.len() <= n {
        data
    } else {
        data.take(n as int)
    }
}

pub(crate) fn head_of(data: &Vec<u8>, n: usize) -> (r: Vec<u8>)
    ensures
        r@ == head(data@, n as nat),
        r.len() <= n,
{
    let mut out: Vec<u8> = Vec::new();
    let mut i: usize = 0;
    while i < data.len() && i < n
        invariant
            i <= data.len(),
            i <= n,
            out@ == data@.take(i as int),
        decreases data.len() - i,
    {
        out.push(data[i]);
        assert(out@ =~= data@.take(i + 1));
        i += 1;
    }
    assert(out@ =~= head(data@, n as nat));
    out
}

// ---------------------------------------------------------------------------------------------
// The tracker

/// Where the network went from one state, and how often.
pub struct Transitions {
    pub from: String,
    pub to: Tally,
}

pub open spec fn transition_views(v: Seq<Transitions>) -> Seq<(Seq<char>, Seq<(Seq<char>, u64)>)> {
    v.map_values(|t: Transitions| (t.from@, t.to@))
}

/// Where the network went from the state `from`.
pub open spec fn moves_from(
    t: Seq<(Seq<char>, Seq<(Seq<char>, u64)>)>,
    from: Seq<char>,
) -> Seq<(Seq<char>, u64)>
    decreases t.len(),
{
    if t.len() == 0 {
        Seq::empty()
    } else if t[0].0 == from {
        t[0].1
    } else {
        moves_from(t.skip(1), from)
    }
}

/// With one more move.
pub open spec fn with_move(
    t: Seq<(Seq<char>, Seq<(Seq<char>, u64)>)>,
    from: Seq<char>,
    to: Seq<char>,
) -> Seq<(Seq<char>, Seq<(Seq<char>, u64)>)>
    decreases t.len(),
{
    if t.len() == 0 {
        seq![(from, counted(Seq::empty(), to))]
    } else if t[0].0 == from {
        t.update(0, (from, counted(t[0].1, to)))
    } else {
        seq![t[0]] + with_move(t.skip(1), from, to)
    }
}

/// The sum of all counts, up to the largest `u64`.
pub open spec fn total_of(s: Seq<(Seq<char>, u64)>) -> u64
    decreases s.len(),
{
    if s.len() == 0 {
        0
    } else {
        plus(total_of(s.drop_last()), s.last().1)
    }
}

/// How likely the last move was, going by the moves before it.
#[derive(Clone, Copy, PartialEq, Eq, Structural)]
pub enum FlowOdds {
    /// The state did not change.
    Still,
    /// Nothing was known of the state before: eight bits.
    Unknown,
    /// The move was seen `count` times among `total` moves; its probability is taken as
    /// `max(count, 1) / (total + 1)`.
    Known { count: u64, total: u64 },
}

pub open spec fn odds_of(
    t: Seq<(Seq<char>, Seq<(Seq<char>, u64)>)>,
    from: Seq<char>,
    to: Seq<char>,
) -> FlowOdds {
    let m = moves_from(t, from);
    if from.len() == 0 || from == to {
        FlowOdds::Still
    } else if total_of(m) == 0 {
        FlowOdds::Unknown
    } else {
        FlowOdds::Known { count: count_in(m, to), total: total_of(m) }
    }
}

fn find_moves(t: &Vec<Transitions>, from: &str) -> (r: Option<usize>)
    ensures
        match r {
            Some(k) => k < t.len() && t@[k as int].from@ == from@ && moves_from(
                transition_views(t@),
                from@,
            ) == t@[k as int].to@ && (forall|to: Seq<char>| #[trigger]
                with_move(transition_views(t@), from@, to) == transition_views(t@).update(
                    k as int,
                    (from@, counted(t@[k as int].to@, to)),
                )),
            None => moves_from(transition_views(t@), from@) == Seq::<(Seq<char>, u64)>::empty() && (
            forall|to: Seq<char>| #[trigger]
                with_move(transition_views(t@), from@, to) == transition_views(t@).push(
                    (from@, counted(Seq::empty(), to)),
                )),
        },
{
    let ghost v = transition_views(t@);
    let mut i: usize = 0;
    assert(v.skip(0) =~= v);
    assert forall|to: Seq<char>| #[trigger] with_move(v, from@, to) == v.take(0) + with_move(
        v.skip(0),
        from@,
        to,
    ) by {
        assert(v.take(0) + with_move(v.skip(0), from@, to) =~= with_move(v, from@, to));
    }
    while i < t.len()
        invariant
            i <= t.len(),
            v == transition_views(t@),
            moves_from(v, from@) == moves_from(v.skip(i as int), from@),
            forall|to: Seq<char>| #[trigger]
                with_move(v, from@, to) == v.take(i as int) + with_move(
                    v.skip(i as int),
                    from@,
                    to,
                ),
        decreases t.len() - i,
    {
        let ghost u = v.skip(i as int);
        assert(u[0] == v[i as int]);
        if same(t[i].from.as_str(), from) {
            proof {
                assert forall|to: Seq<char>| #[trigger] with_move(v, from@, to) == v.update(
                    i as int,
                    (from@, counted(t@[i as int].to@, to)),
                ) by {
                    assert(v.take(i as int) + u.update(0, (from@, counted(u[0].1, to)))
                        =~= v.update(i as int, (from@, counted(t@[i as int].to@, to))));
                }
            }
            return Some(i);
        }
        proof {
            assert(u.skip(1) =~= v.skip(i + 1));
            assert forall|to: Seq<char>| #[trigger] with_move(v, from@, to) == v.take(i + 1)
                + with_move(v.skip(i + 1), from@, to) by {
                assert(v.take(i as int) + (seq![u[0]] + with_move(u.skip(1), from@, to)) =~= v.take(
                    i + 1,
                ) + with_move(v.skip(i + 1), from@, to));
            }
        }
        i += 1;
    }
    assert(v.skip(i as int) =~= Seq::empty());
    assert forall|to: Seq<char>| #[trigger] with_move(v, from@, to) == v.push(
        (from@, counted(Seq::empty(), to)),
    ) by {
        assert(v.take(i as int) + seq![(from@, counted(Seq::empty(), to))] =~= v.push(
            (from@, counted(Seq::empty(), to)),
        ));
    }
    None
}

fn tally_total(t: &Tally) -> (r: u64)
    ensures
        r == total_of(t@),
{
    let mut n: u64 = 0;
    let mut i: usize = 0;
    while i < t.len()
        invariant
            i <= t@.len(),
            n == total_of(t@.take(i as int)),
        decreases t@.len() - i,
    {
        proof {
            let u = t@.take(i + 1);
            assert(u.drop_last() =~= t@.take(i as int));
            assert(u.last() == t@[i as int]);
        }
        n = sat_add(n, t.count_at(i));
        i += 1;
    }
    assert(t@.take(i as int) =~= t@);
    n
}

/// The moves of the network so far. The bits are in millionths.
pub struct InformationFlowTracker {
    pub transitions: Vec<Transitions>,
    pub last_key: String,
    pub total_flow_bits: i64,
    pub steps: u32,
    pub prev_bytes: Vec<u8>,
}

#[verifier::ext_equal]
pub struct TrackerView {
    pub transitions: Seq<(Seq<char>, Seq<(Seq<char>, u64)>)>,
    pub last_key: Seq<char>,
    pub total_flow_bits: i64,
    pub steps: u32,
    pub prev_bytes: Seq<u8>,
}

impl View for InformationFlowTracker {
    type V = TrackerView;

    open spec fn view(&self) -> TrackerView {
        TrackerView {
            transitions: transition_views(self.transitions@),
            last_key: self.last_key@,
            total_flow_bits: self.total_flow_bits,
            steps: self.steps,
            prev_bytes: self.prev_bytes@,
        }
    }
}

/// What a step brought, before its bits are known.
pub struct FlowObservation {
    pub odds: FlowOdds,
    /// How often each value stands among the bytes that changed, where there are bytes before and
    /// after.
    pub changes: Option<Vec<u64>>,
    /// How often each value stands among the first 512 bytes.
    pub bytes: Vec<u64>,
    /// How many these are.
    pub sample: u64,
    /// How many states the network left so far.
    pub states: usize,
    pub phase: u8,
}

impl FlowObservation {
    /// The observation is of the step that a tracker takes to `state`, with these packet bytes.
    pub open spec fn shows(self, t: TrackerView, state: NetworkState, bytes: Seq<u8>) -> bool {
        &&& self.odds == odds_of(t.transitions, t.last_key, state_key(state))
        &&& self.changes is Some <==> t.prev_bytes.len() > 0 && bytes.len() > 0
        &&& self.changes is Some ==> is_histogram(
            self.changes->0@,
            byte_changes(t.prev_bytes, bytes),
        )
        &&& is_histogram(self.bytes@, head(bytes, 512))
        &&& self.sample == head(bytes, 512).len()
        &&& self.states == t.moved(state_key(state), bytes).transitions.len()
        &&& self.phase == state.phase
    }

    /// There is a count for each value of a byte, and none is higher than the size of the sample.
    pub open spec fn can_be_weighed(self) -> bool {
        &&& self.bytes@.len() == 256
        &&& self.sample <= 512
        &&& forall|b: int| 0 <= b < 256 ==> #[trigger] self.bytes@[b] <= self.sample
    }
}

/// Bits that logarithms give, in millionths.
#[derive(Clone, Copy)]
pub struct FlowBits {
    /// The surprisal of a move with known odds.
    pub surprisal: i64,
    /// The entropy of the bytes that changed.
    pub change_entropy: i64,
    /// The entropy of the bytes.
    pub entropy: i64,
    /// The logarithm of eight times the number of states left so far, or of eight where that is 0.
    pub bound: i64,
}

/// A step with its bits, in millionths.
pub struct FlowStep {
    pub flow_bits: i64,
    pub total_flow_bits: i64,
    pub steps: u32,
    pub superlinear: bool,
    pub prg_like: bool,
    pub byte_flow: i64,
    pub alerts: Vec<String>,
}

impl FlowStep {
    /// The step is what was observed, weighed with these bits by a tracker that is now `t`.
    pub open spec fn weighs(self, t: TrackerView, o: FlowObservation, bits: FlowBits) -> bool {
        let flow = flow_of(o.odds, bits);
        &&& self.flow_bits == four_decimals(flow)
        &&& self.total_flow_bits == four_decimals(t.total_flow_bits as int)
        &&& self.steps == t.steps
        &&& self.superlinear == is_superlinear(flow, bits.bound as int, t.steps)
        &&& self.prg_like == looks_random(o.bytes@, o.sample as int, bits.entropy as int)
        &&& self.byte_flow == four_decimals(byte_flow_of(o, bits))
        &&& views(self.alerts@) == step_alerts(o, bits, t.steps)
    }
}

impl TrackerView {
    /// After the bits of a step were added up.
    pub open spec fn weighed(self, o: FlowObservation, bits: FlowBits) -> TrackerView {
        TrackerView {
            total_flow_bits: smaller(
                self.total_flow_bits + flow_of(o.odds, bits),
                i64::MAX as int,
            ) as i64,
            ..self
        }
    }

    /// After a step to the state `key` with these packet bytes.
    pub open spec fn moved(self, key: Seq<char>, bytes: Seq<u8>) -> TrackerView {
        let moves = odds_of(self.transitions, self.last_key, key) != FlowOdds::Still;
        TrackerView {
            transitions: if moves {
                with_move(self.transitions, self.last_key, key)
            } else {
                self.transitions
            },
            steps: if moves {
                plus_one_u32(self.steps)
            } else {
                self.steps
            },
            last_key: key,
            prev_bytes: if bytes.len() > 0 {
                head(bytes, 512)
            } else {
                self.prev_bytes
            },
            total_flow_bits: self.total_flow_bits,
        }
    }
}

/// The bits of the step itself.
pub open spec fn flow_of(odds: FlowOdds, bits: FlowBits) -> int {
    match odds {
        FlowOdds::Still => 0,
        FlowOdds::Unknown => 8_000_000,
        FlowOdds::Known { .. } => if bits.surprisal > 0 {
            bits.surprisal as int
        } else {
            0
        },
    }
}

pub open spec fn at_least_one(n: u32) -> int {
    if n == 0 {
        1
    } else {
        n as int
    }
}

/// The step brings more than twice the bits that the states so far call for, four at least, and
/// is not among the first two.
pub open spec fn is_superlinear(flow: int, bound: int, steps: u32) -> bool {
    flow * at_least_one(steps) > bound * 2 && flow >= 4_000_000 && steps >= 3
}

/// Bits rounded to four decimals in double precision, cut to what can be held.
pub open spec fn four_decimals(x: int) -> int {
    clamped(ticks(x, 10_000) * 100, i64::MIN as int, i64::MAX as int)
}

fn four_decimals_of(x: i64) -> (r: i64)
    ensures
        r == four_decimals(x as int),
        x >= 0 ==> r >= 0,
{
    let n: i128 = ticks_of(x, 10_000) * 100;
    if n < i64::MIN as i128 {
        i64::MIN
    } else if n > i64::MAX as i128 {
        i64::MAX
    } else {
        n as i64
    }
}

/// What a step says: `o` was observed, `bits` are its logarithms, `total` the bits of all steps
/// before.
pub open spec fn step_alerts(o: FlowObservation, bits: FlowBits, steps: u32) -> Seq<Seq<char>> {
    let flow = flow_of(o.odds, bits);
    let lobby = o.phase == 2 || o.phase == 3;
    let a = if is_superlinear(flow, bits.bound as int, steps) {
        seq![
            "Super-linear IFC step: "@ + hundredths_text(flow) + " bits (bound "@ + hundredths_text(
                quotient(bits.bound as int, at_least_one(steps) as int),
            ) + ")"@,
        ]
    } else {
        Seq::empty()
    };
    let a = if looks_random(o.bytes@, o.sample as int, bits.entropy as int) && lobby {
        a.push("PRG-like byte uniformity in packet window — synthetic traffic proxy"@)
    } else {
        a
    };
    if byte_flow_of(o, bits) >= 7_000_000 && lobby {
        a.push("High byte-transition entropy "@ + hundredths_text(byte_flow_of(o, bits)) + " bits"@)
    } else {
        a
    }
}

pub open spec fn byte_flow_of(o: FlowObservation, bits: FlowBits) -> int {
    if o.changes is Some {
        bits.change_entropy as int
    } else {
        0
    }
}

/// Logarithms of counts are not negative and small.
pub open spec fn bits_fit(bits: FlowBits) -> bool {
    &&& 0 <= bits.surprisal <= LIMIT
    &&& 0 <= bits.change_entropy <= LIMIT
    &&& 0 <= bits.entropy <= LIMIT
    &&& 0 <= bits.bound <= LIMIT
}

impl InformationFlowTracker {
    pub fn new() -> (r: InformationFlowTracker)
        ensures
            r@ == (TrackerView {
                transitions: Seq::empty(),
                last_key: Seq::empty(),
                total_flow_bits: 0,
                steps: 0,
                prev_bytes: Seq::empty(),
            }),
    {
        let r = InformationFlowTracker {
            transitions: Vec::new(),
            last_key: String::new(),
            total_flow_bits: 0,
            steps: 0,
            prev_bytes: Vec::new(),
        };
        assert(transition_views(r.transitions@) =~= Seq::empty());
        r
    }

    fn add_move(&mut self, from: &str, to: &str)
        ensures
            final(self)@ == (TrackerView {
                transitions: with_move(old(self)@.transitions, from@, to@),
                ..old(self)@
            }),
    {
        let ghost before = transition_views(self.transitions@);
        match find_moves(&self.transitions, from) {
            Some(k) => {
                let mut t = self.transitions.remove(k);
                t.to.add(to);
                self.transitions.insert(k, t);
                assert(transition_views(self.transitions@) =~= before.update(
                    k as int,
                    (from@, t.to@),
                ));
            },
            None => {
                let mut to_tally = Tally::new();
                to_tally.add(to);
                self.transitions.push(Transitions { from: from.to_owned(), to: to_tally });
                assert(transition_views(self.transitions@) =~= before.push((from@, to_tally@)));
            },
        }
    }

    /// Takes a step to `state`, with the bytes of its packets, and tells what logarithms are
    /// needed to weigh it.
    pub fn observe(&mut self, state: &NetworkState, packet_bytes: &Vec<u8>) -> (r: FlowObservation)
        ensures
            final(self)@ == old(self)@.moved(state_key(*state), packet_bytes@),
            r.shows(old(self)@, *state, packet_bytes@),
            r.can_be_weighed(),
    {
        let key = state.key();
        let from = self.last_key.clone();
        let mut odds = FlowOdds::Still;
        if !from.as_str().is_empty() && !same(from.as_str(), key.as_str()) {
            let empty = Tally::new();
            let moves: &Tally = match find_moves(&self.transitions, from.as_str()) {
                Some(k) => &self.transitions[k].to,
                None => &empty,
            };
            let total: u64 = tally_total(moves);
            odds = if total == 0 {
                FlowOdds::Unknown
            } else {
                FlowOdds::Known { count: moves.count(key.as_str()), total }
            };
            self.add_move(from.as_str(), key.as_str());
            self.steps = one_more_u32(self.steps);
        }
        self.last_key = key;
        let changes = if self.prev_bytes.len() > 0 && packet_bytes.len() > 0 {
            Some(histogram(&changed_bytes(&self.prev_bytes, packet_bytes)))
        } else {
            None
        };
        let sample = head_of(packet_bytes, 512);
        let bytes = histogram(&sample);
        let n: u64 = sample.len() as u64;
        if packet_bytes.len() > 0 {
            self.prev_bytes = sample;
        }
        assert(transition_views(self.transitions@).len() == self.transitions.len());
        FlowObservation {
            odds,
            changes,
            bytes,
            sample: n,
            states: self.transitions.len(),
            phase: state.phase,
        }
    }

    /// Weighs the step that was observed last.
    pub fn step(&mut self, o: &FlowObservation, bits: FlowBits) -> (r: FlowStep)
        requires
            bits_fit(bits),
            o.can_be_weighed(),
        ensures
            final(self)@ == old(self)@.weighed(*o, bits),
            r.weighs(final(self)@, *o, bits),
            r.flow_bits >= 0,
            r.byte_flow >= 0,
    {
        let flow: i64 = match o.odds {
            FlowOdds::Still => 0,
            FlowOdds::Unknown => 8_000_000,
            FlowOdds::Known { .. } => bits.surprisal,
        };
        let byte_flow: i64 = if o.changes.is_some() {
            bits.change_entropy
        } else {
            0
        };
        let total: i128 = self.total_flow_bits as i128 + flow as i128;
        self.total_flow_bits = if total <= i64::MAX as i128 {
            total as i64
        } else {
            i64::MAX
        };
        let steps: i128 = if self.steps == 0 {
            1
        } else {
            self.steps as i128
        };
        proof {
            assert(0 <= flow * steps <= LIMIT * 0xffff_ffff) by (nonlinear_arith)
                requires
                    0 <= flow <= LIMIT,
                    1 <= steps <= 0xffff_ffff,
            ;
        }
        let superlinear = flow as i128 * steps > bits.bound as i128 * 2 && flow >= 4_000_000
            && self.steps >= 3;
        let prg_like = prg_uniformity(&o.bytes, o.sample, bits.entropy).2;
        let lobby = o.phase == 2 || o.phase == 3;
        let mut alerts: Vec<String> = Vec::new();
        assert(views(alerts@) =~= Seq::empty());
        if superlinear {
            let mut s = "Super-linear IFC step: ".to_owned();
            s.append(fmt2(flow).as_str());
            s.append(" bits (bound ");
            s.append(fmt2(pigeonhole_min_flow(bits.bound, self.steps)).as_str());
            s.append(")");
            alerts.push(s);
            assert(views(alerts@) =~= seq![s@]);
        }
        let ghost a1 = alerts@;
        if prg_like && lobby {
            alerts.push(
                "PRG-like byte uniformity in packet window — synthetic traffic proxy".to_owned(),
            );
            assert(views(alerts@) =~= views(a1).push(
                "PRG-like byte uniformity in packet window — synthetic traffic proxy"@,
            ));
        }
        let ghost a2 = alerts@;
        if byte_flow >= 7_000_000 && lobby {
            let n = fmt2(byte_flow);
            let s = cat3("High byte-transition entropy ", n.as_str(), " bits");
            alerts.push(s);
            assert(views(alerts@) =~= views(a2).push(s@));
        }
        FlowStep {
            flow_bits: four_decimals_of(flow),
            total_flow_bits: four_decimals_of(self.total_flow_bits),
            steps: self.steps,
            superlinear,
            prg_like,
            byte_flow: four_decimals_of(byte_flow),
            alerts,
        }
    }
}

/// A part of a whole falls into a fifth by its share: more than two tenths into the second, and so
/// on up to more than eight. A larger part never falls into a lower one.
pub proof fn fifths_follow_the_share(part: int, more: int, whole: int)
    requires
        whole > 0,
        part <= more,
    ensures
        fifths(part, whole) >= 1 <==> 5 * part > whole,
        fifths(part, whole) >= 2 <==> 5 * part > 2 * whole,
        fifths(part, whole) >= 3 <==> 5 * part > 3 * whole,
        fifths(part, whole) >= 4 <==> 5 * part > 4 * whole,
        fifths(part, whole) <= 4,
        fifths(part, whole) <= fifths(more, whole),
        fifths(part, 0) == 0,
{
}

/// How a state is read: the connections and the capture in steps, each step from a count on.
pub proof fn states_are_read_in_steps(snapshot: JsonView, conns: int, phase: Seq<char>)
    ensures
        ({
            let s = network_state(snapshot, conns, phase);
            let unique = stat(snapshot, "uniqueInboundRemotes"@);
            let tiny = stat(snapshot, "tinyInbound"@);
            let inbound = stat(snapshot, "inbound"@);
            let total = stat(snapshot, "total"@);
            let udp = stat(snapshot, "udpInbound"@);
            &&& s.conns >= 1 <==> conns > 30
            &&& s.conns >= 2 <==> conns > 60
            &&& s.conns >= 3 <==> conns > 90
            &&& s.conns >= 4 <==> conns > 130
            &&& s.unique_in_remotes >= 1 <==> unique > 4_000_000
            &&& s.unique_in_remotes >= 2 <==> unique > 8_000_000
            &&& s.unique_in_remotes >= 3 <==> unique > 14_000_000
            &&& s.unique_in_remotes >= 4 <==> unique > 20_000_000
            &&& s.ports >= 1 <==> unique > 3_000_000
            &&& s.ports >= 2 <==> unique > 8_000_000
            &&& s.ports >= 3 <==> unique > 14_000_000
            &&& s.ports >= 4 <==> unique > 22_000_000
            &&& s.hosts >= 1 <==> unique > 4_000_000
            &&& s.hosts >= 2 <==> unique > 10_000_000
            &&& s.hosts >= 3 <==> unique > 18_000_000
            &&& s.hosts >= 4 <==> unique > 30_000_000
            &&& inbound > 0 ==> (s.tiny_in_ratio >= 1 <==> 100 * tiny > 15 * inbound)
            &&& inbound > 0 ==> (s.tiny_in_ratio >= 2 <==> 100 * tiny > 30 * inbound)
            &&& inbound > 0 ==> (s.tiny_in_ratio >= 3 <==> 100 * tiny > 45 * inbound)
            &&& inbound > 0 ==> (s.tiny_in_ratio >= 4 <==> 100 * tiny > 60 * inbound)
            &&& inbound <= 0 ==> s.tiny_in_ratio == 0
            &&& total > 0 ==> (s.udp_ratio >= 3 <==> 5 * udp > 3 * total)
            &&& total > 0 ==> (s.udp_ratio >= 1 <==> 5 * udp > total)
            &&& 0 <= udp <= total && total > 0 ==> (s.tcp_ratio >= 3 <==> 5 * udp < 2 * total)
            &&& 0 <= udp <= total && total > 0 ==> (s.tcp_ratio >= 1 <==> 5 * udp < 4 * total)
            &&& s.phase == 2 <==> phase == "matchmaking"@
            &&& s.phase == 3 <==> phase == "in-match"@
            &&& s.phase == 1 <==> phase == "background"@
            &&& s.phase <= 3
        }),
{
    lemma_phase_words();
    reveal_strlit("background");
    assert("background"@.len() == 10);
}

/// The flows of a state: the connections that the snapshot counts, and else those given, in six
/// steps.
pub proof fn flows_are_read_in_steps(snapshot: JsonView, conns: int, phase: Seq<char>)
    requires
        snapshot.field_in("connections"@, "count"@) is None,
    ensures
        ({
            let s = network_state(snapshot, conns, phase);
            &&& s.flows >= 1 <==> conns > 15
            &&& s.flows >= 2 <==> conns > 40
            &&& s.flows >= 3 <==> conns > 70
            &&& s.flows >= 4 <==> conns > 100
            &&& s.flows >= 5 <==> conns > 150
            &&& s.flows <= 5
        }),
{
}

/// A move is counted: from a state to another the count grows by one, and no other count changes.
/// So does the sum of what leaves the state.
pub proof fn moves_are_counted(
    t: Seq<(Seq<char>, Seq<(Seq<char>, u64)>)>,
    from: Seq<char>,
    to: Seq<char>,
    other: Seq<char>,
)
    requires
        total_of(moves_from(t, from)) < u64::MAX,
    ensures
        ({
            let u = with_move(t, from, to);
            let (m, n) = (moves_from(t, from), moves_from(u, from));
            &&& count_in(m, to) < u64::MAX ==> count_in(n, to) == count_in(m, to) + 1
            &&& other != to ==> count_in(n, other) == count_in(m, other)
            &&& other != from ==> moves_from(u, other) == moves_from(t, other)
        }),
    decreases t.len(),
{
    let u = with_move(t, from, to);
    reveal_with_fuel(moves_from, 2);
    if t.len() == 0 {
        lemma_counted(Seq::empty(), to, other);
        assert(u.skip(1) =~= Seq::empty());
    } else if t[0].0 == from {
        lemma_counted(t[0].1, to, other);
        assert(u.skip(1) =~= t.skip(1));
    } else {
        moves_are_counted(t.skip(1), from, to, other);
        assert(u.skip(1) =~= with_move(t.skip(1), from, to));
    }
}

/// What a step tells: nothing where the state stays or is the first, eight bits where nothing is
/// known of the state that was left, and otherwise what the odds say.
pub proof fn steps_tell_by_their_odds(
    t: Seq<(Seq<char>, Seq<(Seq<char>, u64)>)>,
    from: Seq<char>,
    to: Seq<char>,
    bits: FlowBits,
)
    requires
        bits_fit(bits),
    ensures
        ({
            let o = odds_of(t, from, to);
            &&& from == to || from.len() == 0 ==> flow_of(o, bits) == 0
            &&& from != to && from.len() > 0 && total_of(moves_from(t, from)) == 0 ==> flow_of(
                o,
                bits,
            ) == 8_000_000
            &&& from != to && from.len() > 0 && total_of(moves_from(t, from)) > 0 ==> flow_of(
                o,
                bits,
            ) == bits.surprisal && o is Known
            &&& o is Known ==> o->count == count_in(moves_from(t, from), to) && o->total
                == total_of(moves_from(t, from))
        }),
{
}

/// A step is beyond what grows in line with time: four bits at least, after three steps, and more
/// than twice the share of the bound that one step has. A step that tells more stays so.
pub proof fn superlinear_steps_tell_much(flow: int, more: int, bound: int, steps: u32)
    requires
        0 <= flow <= more,
        0 <= bound,
    ensures
        is_superlinear(flow, bound, steps) <==> steps >= 3 && flow >= 4_000_000 && flow * steps > 2
            * bound,
        is_superlinear(flow, bound, steps) ==> is_superlinear(more, bound, steps),
        steps < 3 ==> !is_superlinear(flow, bound, steps),
{
    assert(flow * at_least_one(steps) <= more * at_least_one(steps)) by (nonlinear_arith)
        requires
            flow <= more,
            at_least_one(steps) >= 0,
    ;
}

/// Bytes look random where 32 of them at least are spread evenly, at 7.2 bits or more. Counts that
/// are all the same are spread evenly; bytes that are all one value never are.
pub proof fn random_bytes_are_even(counts: Seq<u64>, n: int, entropy: int, b: int)
    requires
        counts.len() == 256,
        0 <= b < 256,
        n > 0,
    ensures
        looks_random(counts, n, entropy) ==> n >= 32 && entropy >= 7_200_000,
        (forall|i: int| 0 <= i < 256 ==> 256 * (#[trigger] counts[i]) == n) ==> (looks_random(
            counts,
            n,
            entropy,
        ) <==> n >= 32 && entropy >= 7_200_000) && evenness(counts, n) == 1_000_000,
        counts[b] == n ==> !looks_random(counts, n, entropy),
        unevenness(counts, n) >= 0,
        evenly_spread(counts, n) <==> 100 * unevenness(counts, n) <= 35 * (512 * (256 * n)),
{
    lemma_unevenness(counts, n, b);
    let u = unevenness(counts, n);
    if forall|i: int| 0 <= i < 256 ==> 256 * (#[trigger] counts[i]) == n {
        lemma_even(counts, n);
        lemma_quotient(0, 131_072 * n, 0, 0);
    }
    if counts[b] == n {
        let d = 256 * counts[b] - n;
        assert(d == 255 * n);
        assert(d * d >= 2_080_800 * n || n < 32) by (nonlinear_arith)
            requires
                d == 255 * n,
                n > 0,
        ;
    }
}

proof fn lemma_unevenness(counts: Seq<u64>, n: int, b: int)
    requires
        0 <= b < counts.len(),
    ensures
        unevenness(counts, n) >= (256 * counts[b] - n) * (256 * counts[b] - n),
        unevenness(counts, n) >= 0,
    decreases counts.len(),
{
    let u = counts.drop_last();
    let d = 256 * counts.last() - n;
    assert(d * d >= 0) by (nonlinear_arith);
    if u.len() > 0 {
        lemma_unevenness(
            u,
            n,
            if b < u.len() {
                b
            } else {
                0
            },
        );
        let e = 256 * counts[b] - n;
        assert(e * e >= 0) by (nonlinear_arith);
    } else {
        assert(unevenness(u, n) == 0);
    }
}

proof fn lemma_even(counts: Seq<u64>, n: int)
    requires
        forall|i: int| 0 <= i < counts.len() ==> 256 * (#[trigger] counts[i]) == n,
    ensures
        unevenness(counts, n) == 0,
    decreases counts.len(),
{
    if counts.len() > 0 {
        let u = counts.drop_last();
        assert forall|i: int| 0 <= i < u.len() implies 256 * (#[trigger] u[i]) == n by {
            assert(u[i] == counts[i]);
        }
        lemma_even(u, n);
        assert(256 * counts[counts.len() - 1] == n);
        assert(0 * 0 == 0);
    }
}

/// Each byte is counted once, under its value.
pub proof fn bytes_are_counted_once(data: Seq<u8>, x: u8, b: int)
    ensures
        b == x ==> byte_count(data.push(x), b) == byte_count(data, b) + 1,
        b != x ==> byte_count(data.push(x), b) == byte_count(data, b),
        byte_count(data, b) <= data.len(),
    decreases data.len(),
{
    assert(data.push(x).drop_last() =~= data);
    if data.len() > 0 {
        bytes_are_counted_once(data.drop_last(), x, b);
    }
}

/// Bytes that stay the same change nothing, and a byte changes where it differs.
pub proof fn only_different_bytes_change(prev: Seq<u8>, cur: Seq<u8>, i: int)
    requires
        0 <= i < prev.len(),
        i < cur.len(),
        i < 4096,
    ensures
        byte_changes(prev, cur).len() <= 4096,
        byte_changes(prev, cur)[i] == 0 <==> prev[i] == cur[i],
        byte_changes(prev, cur).len() == cur.len() || byte_changes(prev, cur).len() == prev.len()
            || byte_changes(prev, cur).len() == 4096,
{
    let a = cur[i];
    let b = prev[i];
    assert(a ^ b == 0 <==> a == b) by (bit_vector);
}

/// A tracker takes a step where the state changes, and only then; it remembers the state, and the
/// first 512 bytes where there are any. What a step tells is added to the total.
pub proof fn trackers_count_their_steps(
    t: TrackerView,
    key: Seq<char>,
    bytes: Seq<u8>,
    o: FlowObservation,
    bits: FlowBits,
)
    requires
        bits_fit(bits),
        0 <= t.total_flow_bits <= LIMIT,
    ensures
        ({
            let u = t.moved(key, bytes);
            let step = t.last_key.len() > 0 && t.last_key != key;
            &&& u.last_key == key
            &&& step && t.steps < u32::MAX ==> u.steps == t.steps + 1
            &&& !step ==> u.steps == t.steps && u.transitions == t.transitions
            &&& bytes.len() == 0 ==> u.prev_bytes == t.prev_bytes
            &&& bytes.len() > 0 ==> u.prev_bytes.is_prefix_of(bytes) && u.prev_bytes.len() <= 512
            &&& 0 < bytes.len() <= 512 ==> u.prev_bytes == bytes
            &&& u.total_flow_bits == t.total_flow_bits
            &&& t.weighed(o, bits).total_flow_bits == t.total_flow_bits + flow_of(o.odds, bits)
            &&& t.weighed(o, bits).steps == t.steps
        }),
{
    let u = t.moved(key, bytes);
    if bytes.len() > 0 {
        assert(bytes.subrange(0, u.prev_bytes.len() as int) =~= u.prev_bytes);
    }
}

/// What a step is told of: one alert where it is beyond bounds, one where bytes look random in
/// queue or match, and one there where bytes change by seven bits or more.
pub proof fn steps_are_told_of(o: FlowObservation, bits: FlowBits, steps: u32)
    ensures
        ({
            let play = o.phase == 2 || o.phase == 3;
            let a = is_superlinear(flow_of(o.odds, bits), bits.bound as int, steps);
            let b = looks_random(o.bytes@, o.sample as int, bits.entropy as int) && play;
            let c = o.changes is Some && bits.change_entropy >= 7_000_000 && play;
            step_alerts(o, bits, steps).len() == (if a {
                1int
            } else {
                0
            }) + (if b {
                1int
            } else {
                0
            }) + (if c {
                1int
            } else {
                0
            })
        }),
{
}

/// A state is told by its key: two states with one key are the same.
pub proof fn states_are_told_by_their_key(a: NetworkState, b: NetworkState)
    requires
        state_key(a) == state_key(b),
    ensures
        a == b,
{
    let a0 = "f="@ + decimal(a.flows as nat);
    let b0 = "f="@ + decimal(b.flows as nat);
    let a1 = a0 + " p="@ + decimal(a.ports as nat);
    let b1 = b0 + " p="@ + decimal(b.ports as nat);
    let a2 = a1 + " h="@ + decimal(a.hosts as nat);
    let b2 = b1 + " h="@ + decimal(b.hosts as nat);
    let a3 = a2 + " t="@ + decimal(a.tcp_ratio as nat);
    let b3 = b2 + " t="@ + decimal(b.tcp_ratio as nat);
    let a4 = a3 + " u="@ + decimal(a.udp_ratio as nat);
    let b4 = b3 + " u="@ + decimal(b.udp_ratio as nat);
    let a5 = a4 + " ti="@ + decimal(a.tiny_in_ratio as nat);
    let b5 = b4 + " ti="@ + decimal(b.tiny_in_ratio as nat);
    let a6 = a5 + " ir="@ + decimal(a.unique_in_remotes as nat);
    let b6 = b5 + " ir="@ + decimal(b.unique_in_remotes as nat);
    let a7 = a6 + " c="@ + decimal(a.conns as nat);
    let b7 = b6 + " c="@ + decimal(b.conns as nat);
    reveal_strlit("f=");
    reveal_strlit(" p=");
    reveal_strlit(" h=");
    reveal_strlit(" t=");
    reveal_strlit(" u=");
    reveal_strlit(" ti=");
    reveal_strlit(" ir=");
    reveal_strlit(" c=");
    reveal_strlit(" ph=");
    lemma_numbered_end(a7, b7, " ph="@, a.phase as nat, b.phase as nat);
    lemma_numbered_end(a6, b6, " c="@, a.conns as nat, b.conns as nat);
    lemma_numbered_end(a5, b5, " ir="@, a.unique_in_remotes as nat, b.unique_in_remotes as nat);
    lemma_numbered_end(a4, b4, " ti="@, a.tiny_in_ratio as nat, b.tiny_in_ratio as nat);
    lemma_numbered_end(a3, b3, " u="@, a.udp_ratio as nat, b.udp_ratio as nat);
    lemma_numbered_end(a2, b2, " t="@, a.tcp_ratio as nat, b.tcp_ratio as nat);
    lemma_numbered_end(a1, b1, " h="@, a.hosts as nat, b.hosts as nat);
    lemma_numbered_end(a0, b0, " p="@, a.ports as nat, b.ports as nat);
    let e: Seq<char> = Seq::empty();
    assert(e + "f="@ + decimal(a.flows as nat) =~= a0);
    assert(e + "f="@ + decimal(b.flows as nat) =~= b0);
    lemma_numbered_end(e, e, "f="@, a.flows as nat, b.flows as nat);
}

proof fn lemma_numbered_end(a: Seq<char>, b: Seq<char>, sep: Seq<char>, m: nat, n: nat)
    requires
        a + sep + decimal(m) == b + sep + decimal(n),
        sep.len() > 0,
        sep.last() == '=',
    ensures
        a == b,
        m == n,
{
    let s = a + sep + decimal(m);
    let t = b + sep + decimal(n);
    let i = (a.len() + sep.len() - 1) as int;
    let j = (b.len() + sep.len() - 1) as int;
    lemma_decimal(m);
    lemma_decimal(n);
    assert(s == t);
    assert((a + sep).len() == i + 1 && (b + sep).len() == j + 1);
    assert(s.len() == i + 1 + decimal(m).len() && t.len() == j + 1 + decimal(n).len());
    assert(s[i] == '=' && t[j] == '=');
    if i < j {
        assert(s[j] == decimal(m)[j - i - 1]);
        assert(is_digit(decimal(m)[j - i - 1]));
    }
    if j < i {
        assert(t[i] == decimal(n)[i - j - 1]);
        assert(is_digit(decimal(n)[i - j - 1]));
    }
    assert(i == j);
    assert(s.skip(i + 1) =~= decimal(m));
    assert(t.skip(j + 1) =~= decimal(n));
    assert(s.take(a.len() as int) =~= a);
    assert(t.take(b.len() as int) =~= b);
    numbers_are_told_apart(m, n);
}

/// What a packet leaves in the fingerprint: the low byte of its length, one for UDP and two for any
/// other protocol, and the octets of its address, four at most. The fingerprint is that of the
/// first 128 packets, in their order.
pub proof fn packets_leave_their_bytes(recs: Seq<JsonView>, n: nat, r: JsonView)
    requires
        n < recs.len(),
    ensures
        record_bytes(r).len() >= 2,
        record_bytes(r).len() <= 6,
        uint_or(r.field("len"@), 0) < 256 ==> record_bytes(r)[0] == uint_or(r.field("len"@), 0),
        r.field("proto"@) == Some(JsonView::Str("udp"@)) <==> record_bytes(r)[1] == 1,
        r.field("proto"@) != Some(JsonView::Str("udp"@)) <==> record_bytes(r)[1] == 2,
        records_bytes(recs, n + 1) == records_bytes(recs, n) + record_bytes(recs[n as int]),
        records_bytes(recs, 0).len() == 0,
{
    lemma_first_octets(
        split_on(text_or_empty(or_else(r.field("remote"@), r.field("src"@))), '.'),
        4,
    );
}

proof fn lemma_first_octets(parts: Seq<Seq<char>>, n: nat)
    ensures
        first_octets(parts, n).len() <= n,
    decreases n,
{
    if n > 0 {
        lemma_first_octets(parts, (n - 1) as nat);
    }
}

/// More packets than 128 do not change the fingerprint.
pub proof fn fingerprints_hold_the_first_packets(recs: Seq<JsonView>, more: Seq<JsonView>, n: nat)
    requires
        n <= recs.len(),
    ensures
        records_bytes(recs + more, n) == records_bytes(recs, n),
    decreases n,
{
    if n > 0 {
        fingerprints_hold_the_first_packets(recs, more, (n - 1) as nat);
        assert((recs + more)[n - 1] == recs[n - 1]);
    }
}

} // verus!
