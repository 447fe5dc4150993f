//! Fingerprints of lobbies: 32 numbers each, kept by the bit patterns of their single-precision
//! form.
use vstd::prelude::*;

use crate::codec::{
    b64_decode, b64_encode, b64_text, b64_texts_differ, lemma_b64_trimmed, zstd_content,
    zstd_frame, zstd_pack, zstd_unpack,
};
use crate::learning::{lobby_views, LearningEngine, LearningView, LobbyView};
use crate::text::{trim, trimmed};

verus! {

/// The numbers of a fingerprint.
pub const FOLD_DIM: usize = 32;

/// The features that a fingerprint is folded from.
pub const SOURCE_DIM: usize = 8196;

/// The blocks of features that are laid over each other.
pub const BLOCKS: usize = SOURCE_DIM / FOLD_DIM;

// ---------------------------------------------------------------------------------------------
// Bytes

/// The four bytes of a number, least significant first.
pub open spec fn le_bytes(x: u32) -> Seq<u8> {
    seq![
        (x % 256) as u8,
        (x / 256 % 256) as u8,
        (x / 65_536 % 256) as u8,
        (x / 16_777_216) as u8,
    ]
}

/// The number of four bytes, least significant first, from a position on.
pub open spec fn le_number(b: Seq<u8>, at: int) -> u32 {
    (b[at] + b[at + 1] * 256 + b[at + 2] * 65_536 + b[at + 3] * 16_777_216) as u32
}

/// The bytes of numbers, one after the other.
pub open spec fn number_bytes(v: Seq<u32>) -> Seq<u8>
    decreases v.len(),
{
    if v.len() == 0 {
        Seq::empty()
    } else {
        number_bytes(v.drop_last()) + le_bytes(v.last())
    }
}

/// The bytes of fingerprints, one after the other.
pub open spec fn fold_bytes(folds: Seq<[u32; 32]>) -> Seq<u8>
    decreases folds.len(),
{
    if folds.len() == 0 {
        Seq::empty()
    } else {
        fold_bytes(folds.drop_last()) + number_bytes(folds.last()@)
    }
}

/// `f` is the fingerprint whose bytes stand in `raw` from `at` on.
pub open spec fn is_fold_at(f: [u32; 32], raw: Seq<u8>, at: int) -> bool {
    forall|d: int| 0 <= d < 32 ==> #[trigger] f@[d] == le_number(raw, at + d * 4)
}

proof fn lemma_le(x: u32, b: Seq<u8>, at: int)
    requires
        0 <= at,
        at + 4 <= b.len(),
        b.subrange(at, at + 4) == le_bytes(x),
    ensures
        le_number(b, at) == x,
{
    let s = b.subrange(at, at + 4);
    assert(s[0] == b[at] && s[1] == b[at + 1] && s[2] == b[at + 2] && s[3] == b[at + 3]);
    assert(x == x % 256 + x / 256 % 256 * 256 + x / 65_536 % 256 * 65_536 + x / 16_777_216
        * 16_777_216);
}

proof fn lemma_number_bytes(v: Seq<u32>)
    ensures
        number_bytes(v).len() == v.len() * 4,
        forall|i: int|
            0 <= i < v.len() ==> #[trigger] v[i] == le_number(number_bytes(v), i * 4),
    decreases v.len(),
{
    if v.len() > 0 {
        let u = v.drop_last();
        lemma_number_bytes(u);
        let b = number_bytes(v);
        let c = number_bytes(u);
        assert forall|i: int| 0 <= i < v.len() implies #[trigger] v[i] == le_number(b, i * 4) by {
            if i < u.len() {
                assert(u[i] == le_number(c, i * 4));
                assert(b[i * 4] == c[i * 4] && b[i * 4 + 1] == c[i * 4 + 1] && b[i * 4 + 2] == c[i
                    * 4 + 2] && b[i * 4 + 3] == c[i * 4 + 3]);
            } else {
                assert(b.subrange(i * 4, i * 4 + 4) =~= le_bytes(v.last()));
                lemma_le(v.last(), b, i * 4);
            }
        }
    }
}

proof fn lemma_fold_bytes(folds: Seq<[u32; 32]>)
    ensures
        fold_bytes(folds).len() == folds.len() * 128,
        forall|i: int|
            0 <= i < folds.len() ==> is_fold_at(#[trigger] folds[i], fold_bytes(folds), i * 128),
    decreases folds.len(),
{
    if folds.len() > 0 {
        let u = folds.drop_last();
        lemma_fold_bytes(u);
        lemma_number_bytes(folds.last()@);
        let b = fold_bytes(folds);
        let c = fold_bytes(u);
        let n = number_bytes(folds.last()@);
        assert forall|i: int| 0 <= i < folds.len() implies is_fold_at(
            #[trigger] folds[i],
            b,
            i * 128,
        ) by {
            assert forall|d: int| 0 <= d < 32 implies #[trigger] folds[i]@[d] == le_number(
                b,
                i * 128 + d * 4,
            ) by {
                let at = i * 128 + d * 4;
                if i < u.len() {
                    assert(is_fold_at(u[i], c, i * 128));
                    assert(u[i]@[d] == le_number(c, at));
                    assert(at + 3 < c.len());
                    assert(b[at] == c[at] && b[at + 1] == c[at + 1] && b[at + 2] == c[at + 2]
                        && b[at + 3] == c[at + 3]);
                } else {
                    assert(c.len() == i * 128);
                    assert(folds.last()@[d] == le_number(n, d * 4));
                    assert(b[at] == n[d * 4] && b[at + 1] == n[d * 4 + 1] && b[at + 2] == n[d * 4
                        + 2] && b[at + 3] == n[d * 4 + 3]);
                }
            }
        }
    }
}

fn push_number(out: &mut Vec<u8>, x: u32)
    ensures
        final(out)@ == old(out)@ + le_bytes(x),
{
    out.push((x % 256) as u8);
    out.push((x / 256 % 256) as u8);
    out.push((x / 65_536 % 256) as u8);
    out.push((x / 16_777_216) as u8);
    assert(out@ =~= old(out)@ + le_bytes(x));
}

fn push_fold(out: &mut Vec<u8>, fold: &[u32; 32])
    ensures
        final(out)@ == old(out)@ + number_bytes(fold@),
{
    let ghost before = out@;
    let mut d: usize = 0;
    assert(before + number_bytes(fold@.take(0)) =~= before);
    while d < 32
        invariant
            d <= 32,
            fold@.len() == 32,
            out@ == before + number_bytes(fold@.take(d as int)),
        decreases 32 - d,
    {
        proof {
            let t = fold@.take(d + 1);
            assert(t.drop_last() =~= fold@.take(d as int));
            assert(t.last() == fold@[d as int]);
            assert(before + number_bytes(t) =~= before + number_bytes(fold@.take(d as int))
                + le_bytes(fold@[d as int]));
        }
        push_number(out, fold[d]);
        d += 1;
    }
    assert(fold@.take(32) =~= fold@);
}

fn read_fold(raw: &Vec<u8>, at: usize) -> (r: [u32; 32])
    requires
        at + 128 <= raw@.len(),
    ensures
        is_fold_at(r, raw@, at as int),
{
    let end: usize = raw.len();
    let mut f: [u32; 32] = [0u32;32];
    let mut d: usize = 0;
    while d < 32
        invariant
            d <= 32,
            at + 128 <= end == raw@.len(),
            forall|k: int| 0 <= k < d ==> #[trigger] f@[k] == le_number(raw@, at + k * 4),
        decreases 32 - d,
    {
        let o: usize = at + d * 4;
        let x: u32 = raw[o] as u32 + raw[o + 1] as u32 * 256 + raw[o + 2] as u32 * 65_536 + raw[o
            + 3] as u32 * 16_777_216;
        f[d] = x;
        d += 1;
    }
    f
}

// ---------------------------------------------------------------------------------------------
// The archive

fn bytes_of(folds: &Vec<[u32; 32]>) -> (r: Vec<u8>)
    ensures
        r@ == fold_bytes(folds@),
{
    let mut out: Vec<u8> = Vec::new();
    let mut i: usize = 0;
    assert(out@ =~= fold_bytes(folds@.take(0)));
    while i < folds.len()
        invariant
            i <= folds.len(),
            out@ == fold_bytes(folds@.take(i as int)),
        decreases folds.len() - i,
    {
        proof {
            let t = folds@.take(i + 1);
            assert(t.drop_last() =~= folds@.take(i as int));
            assert(t.last() == folds@[i as int]);
        }
        push_fold(&mut out, &folds[i]);
        i += 1;
    }
    assert(folds@.take(i as int) =~= folds@);
    out
}

/// What is kept of what packing gave: nothing where it failed.
pub fn packed_or_nothing(packed: Option<Vec<u8>>) -> (r: Vec<u8>)
    ensures
        r@ == match packed {
            Some(v) => v@,
            None => Seq::empty(),
        },
{
    match packed {
        Some(v) => v,
        None => Vec::new(),
    }
}

/// Packs fingerprints.
pub fn compress_folds(folds: &Vec<[u32; 32]>) -> (r: Vec<u8>)
    ensures
        r@ == zstd_frame(fold_bytes(folds@), 3),
        zstd_content(r@) == Some(fold_bytes(folds@)),
{
    let bytes = bytes_of(folds);
    packed_or_nothing(zstd_pack(&bytes, 3))
}

/// `folds` are the first `count` fingerprints in what was unpacked; none where it holds fewer.
pub open spec fn are_unpacked_folds(
    folds: Seq<[u32; 32]>,
    raw: Option<Seq<u8>>,
    count: nat,
) -> bool {
    match raw {
        Some(b) => if b.len() < count * 128 {
            folds.len() == 0
        } else {
            &&& folds.len() == count
            &&& forall|i: int| 0 <= i < count ==> is_fold_at(#[trigger] folds[i], b, i * 128)
        },
        None => folds.len() == 0,
    }
}

pub open spec fn opt_bytes(v: Option<Vec<u8>>) -> Option<Seq<u8>> {
    match v {
        Some(b) => Some(b@),
        None => None,
    }
}

/// The first `count` fingerprints in what was unpacked.
pub fn folds_in(raw: &Option<Vec<u8>>, count: usize) -> (r: Vec<[u32; 32]>)
    requires
        count * 128 <= usize::MAX,
    ensures
        are_unpacked_folds(r@, opt_bytes(*raw), count as nat),
{
    let mut out: Vec<[u32; 32]> = Vec::new();
    if let Some(b) = raw {
        if b.len() < count * 128 {
            return out;
        }
        let mut i: usize = 0;
        while i < count
            invariant
                i <= count,
                count * 128 <= b@.len(),
                count * 128 <= usize::MAX,
                out@.len() == i,
                forall|k: int| 0 <= k < i ==> is_fold_at(#[trigger] out@[k], b@, k * 128),
            decreases count - i,
        {
            let f = read_fold(b, i * 128);
            out.push(f);
            i += 1;
        }
    }
    out
}

/// Unpacks the first `count` fingerprints of an archive; none where the archive is not in order
/// or holds fewer.
pub fn decompress_folds(data: &Vec<u8>, count: usize) -> (r: Vec<[u32; 32]>)
    requires
        count * 128 <= usize::MAX,
    ensures
        are_unpacked_folds(r@, zstd_content(data@), count as nat),
{
    let raw = zstd_unpack(data);
    folds_in(&raw, count)
}

/// What was packed comes back: any reading of an archive of fingerprints gives those fingerprints,
/// and nothing else.
pub proof fn packed_folds_come_back(folds: Seq<[u32; 32]>, data: Seq<u8>, back: Seq<[u32; 32]>)
    requires
        zstd_content(data) == Some(fold_bytes(folds)),
        are_unpacked_folds(back, zstd_content(data), folds.len()),
    ensures
        back.len() == folds.len(),
        forall|i: int| 0 <= i < folds.len() ==> (#[trigger] back[i])@ == folds[i]@,
{
    lemma_fold_bytes(folds);
    assert forall|i: int| 0 <= i < folds.len() implies (#[trigger] back[i])@ == folds[i]@ by {
        lemma_same_fold(back[i], folds[i], fold_bytes(folds), i * 128);
    }
}

proof fn lemma_same_fold(f: [u32; 32], g: [u32; 32], raw: Seq<u8>, at: int)
    requires
        is_fold_at(f, raw, at),
        is_fold_at(g, raw, at),
    ensures
        f@ == g@,
{
    assert(f@.len() == 32 && g@.len() == 32);
    assert forall|d: int| 0 <= d < 32 implies f@[d] == g@[d] by {
        assert(f@[d] == le_number(raw, at + d * 4));
        assert(g@[d] == le_number(raw, at + d * 4));
    }
    assert(f@ =~= g@);
}

// ---------------------------------------------------------------------------------------------
// As text

/// A fingerprint as text.
pub fn fold_to_b64(fold: &[u32; 32]) -> (r: String)
    ensures
        r@ == b64_text(number_bytes(fold@)),
{
    let mut bytes: Vec<u8> = Vec::new();
    push_fold(&mut bytes, fold);
    proof {
        assert(bytes@ =~= number_bytes(fold@));
        lemma_number_bytes(fold@);
    }
    b64_encode(&bytes)
}

/// The fingerprint of a text: of base64 with or without white space around it that holds enough
/// bytes. Bytes beyond the fingerprint are ignored.
pub fn fold_from_b64(payload: &str) -> (r: Option<[u32; 32]>)
    ensures
        r is Some <==> exists|b: Seq<u8>|
            #[trigger] b64_text(b) == trimmed(payload@) && b.len() >= 128,
        r matches Some(f) ==> forall|b: Seq<u8>|
            #[trigger] b64_text(b) == trimmed(payload@) ==> is_fold_at(f, b, 0),
{
    let text = trim(payload);
    let raw = match b64_decode(text.as_str()) {
        Some(v) => v,
        None => return None,
    };
    if raw.len() < FOLD_DIM * 4 {
        proof {
            assert forall|b: Seq<u8>| #[trigger]
                b64_text(b) == trimmed(payload@) implies b.len() < 128 by {
                b64_texts_differ(b, raw@);
            }
        }
        return None;
    }
    let f = read_fold(&raw, 0);
    proof {
        assert forall|b: Seq<u8>| #[trigger]
            b64_text(b) == trimmed(payload@) implies is_fold_at(f, b, 0) by {
            b64_texts_differ(b, raw@);
        }
    }
    Some(f)
}

/// What is written as text comes back: the text of a fingerprint is read as that fingerprint.
pub proof fn fold_texts_come_back(fold: [u32; 32], text: Seq<char>, back: [u32; 32])
    requires
        text == b64_text(number_bytes(fold@)),
        forall|b: Seq<u8>| #[trigger] b64_text(b) == trimmed(text) ==> is_fold_at(back, b, 0),
    ensures
        exists|b: Seq<u8>| #[trigger] b64_text(b) == trimmed(text) && b.len() >= 128,
        back@ == fold@,
{
    let n = number_bytes(fold@);
    lemma_number_bytes(fold@);
    lemma_b64_trimmed(n);
    assert(b64_text(n) == trimmed(text) && n.len() >= 128);
    assert(is_fold_at(back, n, 0));
    assert(back@.len() == 32 && fold@.len() == 32);
    assert forall|d: int| 0 <= d < 32 implies back@[d] == fold@[d] by {
        assert(back@[d] == le_number(n, 0 + d * 4));
        assert(fold@[d] == le_number(n, d * 4));
    }
    assert(back@ =~= fold@);
}

// ---------------------------------------------------------------------------------------------
// The state on disk

/// Packs the state for the disk.
pub fn pack_state(bytes: &Vec<u8>) -> (r: Option<Vec<u8>>)
    ensures
        r is Some,
        r matches Some(c) ==> c@ == zstd_frame(bytes@, 5) && zstd_content(c@) == Some(bytes@),
{
    zstd_pack(bytes, 5)
}

/// Unpacks the state from the disk; nothing where the data are not in order.
pub fn unpack_state(data: &Vec<u8>) -> (r: Option<Vec<u8>>)
    ensures
        opt_bytes(r) == zstd_content(data@),
{
    zstd_unpack(data)
}

/// The fingerprints of lobbies, without those of lobbies that have none.
pub open spec fn folds_of(lobbies: Seq<LobbyView>) -> Seq<[u32; 32]>
    decreases lobbies.len(),
{
    if lobbies.len() == 0 {
        Seq::empty()
    } else {
        let earlier = folds_of(lobbies.drop_last());
        match lobbies.last().fold {
            Some(f) => earlier.push(f),
            None => earlier,
        }
    }
}

/// `blob` is the archive of fingerprints: none where there are none.
pub open spec fn is_archive(blob: Option<Seq<u8>>, folds: Seq<[u32; 32]>) -> bool {
    match blob {
        Some(b) => folds.len() > 0 && b == zstd_frame(fold_bytes(folds), 3) && zstd_content(b)
            == Some(fold_bytes(folds)),
        None => folds.len() == 0,
    }
}

impl LearningEngine {
    /// Makes the engine ready for the disk: the archive is packed anew from the lobbies.
    pub fn save(&mut self)
        ensures
            final(self)@ == (LearningView { folded_blob: final(self)@.folded_blob, ..old(self)@ }),
            is_archive(final(self)@.folded_blob, folds_of(old(self)@.lobbies)),
    {
        let mut folds: Vec<[u32; 32]> = Vec::new();
        let ghost all = lobby_views(self.lobbies@);
        let mut i: usize = 0;
        assert(folds@ =~= folds_of(all.take(0)));
        while i < self.lobbies.len()
            invariant
                i <= self.lobbies.len(),
                all == lobby_views(self.lobbies@),
                *self == *old(self),
                folds@ == folds_of(all.take(i as int)),
            decreases self.lobbies.len() - i,
        {
            proof {
                let t = all.take(i + 1);
                assert(t.drop_last() =~= all.take(i as int));
                assert(t.last() == self.lobbies@[i as int]@);
            }
            if let Some(f) = self.lobbies[i].fold {
                folds.push(f);
            }
            i += 1;
        }
        assert(all.take(i as int) =~= all);
        if folds.len() == 0 {
            self.folded_blob = None;
        } else {
            self.folded_blob = Some(compress_folds(&folds));
        }
    }
}

/// A number comes back from its four bytes, the lowest first.
pub proof fn numbers_come_back_from_bytes(x: u32)
    ensures
        le_number(le_bytes(x), 0) == x,
        le_bytes(x).len() == 4,
        x < 256 ==> le_bytes(x)[0] == x && le_bytes(x)[3] == 0,
{
}

/// The folds of lobbies are those of the lobbies that have one, in their order.
pub proof fn lobbies_give_their_fold(lobbies: Seq<LobbyView>, x: LobbyView)
    ensures
        x.fold is Some ==> folds_of(lobbies.push(x)) == folds_of(lobbies).push(x.fold->0),
        x.fold is None ==> folds_of(lobbies.push(x)) == folds_of(lobbies),
{
    assert(lobbies.push(x).drop_last() =~= lobbies);
}

} // verus!
