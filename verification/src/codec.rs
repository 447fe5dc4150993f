//! Text and byte codecs.
use vstd::prelude::*;
use vstd::utf8::encode_utf8;

use crate::text::{is_space, trimmed, trimmed_end, trimmed_start};

verus! {

// ---------------------------------------------------------------------------------------------
// Base64

/// The digit of base64 for six bits.
pub open spec fn b64_char(d: nat) -> char {
    if d < 26 {
        (('A' as u32) + d) as char
    } else if d < 52 {
        (('a' as u32) + d - 26) as char
    } else if d < 62 {
        (('0' as u32) + d - 52) as char
    } else if d == 62 {
        '+'
    } else {
        '/'
    }
}

/// Three bytes as four digits.
pub open spec fn b64_group(a: u8, b: u8, c: u8) -> Seq<char> {
    seq![
        b64_char((a / 4) as nat),
        b64_char(((a % 4) * 16 + b / 16) as nat),
        b64_char(((b % 16) * 4 + c / 64) as nat),
        b64_char((c % 64) as nat),
    ]
}

/// Bytes in base64 with the standard alphabet and with padding (RFC 4648, section 4).
pub open spec fn b64_text(b: Seq<u8>) -> Seq<char>
    decreases b.len(),
{
    if b.len() == 0 {
        Seq::empty()
    } else if b.len() == 1 {
        b64_group(b[0], 0, 0).take(2) + seq!['=', '=']
    } else if b.len() == 2 {
        b64_group(b[0], b[1], 0).take(3) + seq!['=']
    } else {
        b64_group(b[0], b[1], b[2]) + b64_text(b.skip(3))
    }
}

/// Encodes bytes in base64 (`base64::Engine::encode` of `general_purpose::STANDARD`): standard
/// alphabet, padded to a multiple of four digits. It panics where the length of the text does not
/// fit a `usize`, which half of the range of `usize` keeps away from.
#[verifier::external_body]
pub(crate) fn b64_encode(bytes: &Vec<u8>) -> (r: String)
    requires
        bytes@.len() <= usize::MAX / 2,
    ensures
        r@ == b64_text(bytes@),
{
    base64::Engine::encode(&base64::engine::general_purpose::STANDARD, bytes)
}

/// Decodes base64 (`base64::Engine::decode` of `general_purpose::STANDARD`). The engine wants
/// canonical padding and no stray bits, so it takes exactly the texts that the encoding of some
/// bytes gives, and gives those bytes.
#[verifier::external_body]
pub(crate) fn b64_decode(text: &str) -> (r: Option<Vec<u8>>)
    ensures
        match r {
            Some(b) => b64_text(b@) == text@,
            None => forall|b: Seq<u8>| #[trigger] b64_text(b) != text@,
        },
{
    base64::Engine::decode(&base64::engine::general_purpose::STANDARD, text).ok()
}

proof fn lemma_b64_char(d: nat, e: nat)
    requires
        d < 64,
        e < 64,
    ensures
        b64_char(d) == b64_char(e) ==> d == e,
        b64_char(d) != '=',
        !is_space(b64_char(d)),
{
}

proof fn lemma_b64_group(a: u8, b: u8, c: u8, x: u8, y: u8, z: u8)
    ensures
        b64_group(a, b, c) == b64_group(x, y, z) ==> a == x && b == y && c == z,
        forall|i: int| 0 <= i < 4 ==> #[trigger] b64_group(a, b, c)[i] != '=',
        forall|i: int| 0 <= i < 4 ==> !is_space(#[trigger] b64_group(a, b, c)[i]),
        b64_group(a, b, c).take(2) == b64_group(x, y, z).take(2) && b < 16 && y < 16 ==> a == x,
        b64_group(a, b, c).take(3) == b64_group(x, y, z).take(3) && c < 64 && z < 64 ==> a == x
            && b == y,
{
    let g = b64_group(a, b, c);
    let h = b64_group(x, y, z);
    lemma_b64_char((a / 4) as nat, (x / 4) as nat);
    lemma_b64_char(((a % 4) * 16 + b / 16) as nat, ((x % 4) * 16 + y / 16) as nat);
    lemma_b64_char(((b % 16) * 4 + c / 64) as nat, ((y % 16) * 4 + z / 64) as nat);
    lemma_b64_char((c % 64) as nat, (z % 64) as nat);
    if g == h {
        assert(g[0] == h[0] && g[1] == h[1] && g[2] == h[2] && g[3] == h[3]);
    }
    if g.take(2) == h.take(2) {
        assert(g.take(2)[0] == g[0] && g.take(2)[1] == g[1]);
        assert(h.take(2)[0] == h[0] && h.take(2)[1] == h[1]);
    }
    if g.take(3) == h.take(3) {
        assert(g.take(3)[0] == g[0] && g.take(3)[1] == g[1] && g.take(3)[2] == g[2]);
        assert(h.take(3)[0] == h[0] && h.take(3)[1] == h[1] && h.take(3)[2] == h[2]);
    }
}

/// The tail of a text after its first four characters decides which kind of group begins it.
proof fn lemma_b64_shape(b: Seq<u8>)
    requires
        b.len() > 0,
    ensures
        b64_text(b).len() >= 4,
        b.len() == 1 <==> b64_text(b)[2] == '=',
        b.len() <= 2 <==> b64_text(b)[3] == '=',
        b.len() >= 3 ==> b64_text(b).take(4) == b64_group(b[0], b[1], b[2]) && b64_text(b).skip(4)
            == b64_text(b.skip(3)),
        b.len() == 2 ==> b64_text(b).take(3) == b64_group(b[0], b[1], 0).take(3),
        b.len() == 1 ==> b64_text(b).take(2) == b64_group(b[0], 0, 0).take(2),
        forall|i: int| 0 <= i < 4 ==> !is_space(#[trigger] b64_text(b)[i]),
{
    let t = b64_text(b);
    if b.len() == 1 {
        lemma_b64_group(b[0], 0, 0, 0, 0, 0);
        let g = b64_group(b[0], 0, 0);
        assert(t.take(2) =~= g.take(2));
        assert(t[0] == g[0] && t[1] == g[1]);
    } else if b.len() == 2 {
        lemma_b64_group(b[0], b[1], 0, 0, 0, 0);
        let g = b64_group(b[0], b[1], 0);
        assert(t.take(3) =~= g.take(3));
        assert(t[0] == g[0] && t[1] == g[1] && t[2] == g[2]);
    } else {
        lemma_b64_group(b[0], b[1], b[2], 0, 0, 0);
        let g = b64_group(b[0], b[1], b[2]);
        assert(t.take(4) =~= g);
        assert(t.skip(4) =~= b64_text(b.skip(3)));
        assert(t[0] == g[0] && t[1] == g[1] && t[2] == g[2] && t[3] == g[3]);
    }
}

/// Different bytes have different texts in base64, so that decoding undoes encoding.
pub proof fn b64_texts_differ(a: Seq<u8>, b: Seq<u8>)
    requires
        b64_text(a) == b64_text(b),
    ensures
        a == b,
    decreases a.len(),
{
    if a.len() > 0 {
        lemma_b64_shape(a);
    }
    if b.len() > 0 {
        lemma_b64_shape(b);
    }
    if a.len() == 0 || b.len() == 0 {
        assert(a =~= b);
    } else if a.len() == 1 {
        lemma_b64_group(a[0], 0, 0, b[0], 0, 0);
        assert(a =~= b);
    } else if a.len() == 2 {
        lemma_b64_group(a[0], a[1], 0, b[0], b[1], 0);
        assert(a =~= b);
    } else {
        lemma_b64_group(a[0], a[1], a[2], b[0], b[1], b[2]);
        b64_texts_differ(a.skip(3), b.skip(3));
        assert forall|i: int| 0 <= i < a.len() implies a[i] == b[i] by {
            if i >= 3 {
                assert(a[i] == a.skip(3)[i - 3]);
                assert(b[i] == b.skip(3)[i - 3]);
            }
        }
        assert(a.len() == b.len()) by {
            assert(a.skip(3).len() == b.skip(3).len());
        }
        assert(a =~= b);
    }
}

proof fn lemma_b64_no_space(b: Seq<u8>)
    ensures
        forall|i: int| 0 <= i < b64_text(b).len() ==> !is_space(#[trigger] b64_text(b)[i]),
    decreases b.len(),
{
    if b.len() > 0 {
        lemma_b64_shape(b);
        let t = b64_text(b);
        if b.len() >= 3 {
            lemma_b64_no_space(b.skip(3));
            let u = b64_text(b.skip(3));
            assert forall|i: int| 0 <= i < t.len() implies !is_space(#[trigger] t[i]) by {
                if i >= 4 {
                    assert(t[i] == u[i - 4]);
                }
            }
        }
    }
}

/// White space around a text in base64 is no part of it: trimming leaves the text as it is.
pub(crate) proof fn lemma_b64_trimmed(b: Seq<u8>)
    ensures
        trimmed(b64_text(b)) == b64_text(b),
{
    lemma_b64_no_space(b);
    let t = b64_text(b);
    if t.len() > 0 {
        assert(!is_space(t[0]));
        assert(!is_space(t[t.len() - 1]));
    }
    assert(trimmed_start(t) == t);
    assert(trimmed_end(t) == t);
}

// ---------------------------------------------------------------------------------------------
// Percent-encoding

/// The bytes that percent-encoding keeps: letters, digits, and `-`, `_`, `.`, `~`.
pub open spec fn unreserved(b: u8) -> bool {
    ||| 0x30 <= b <= 0x39
    ||| 0x41 <= b <= 0x5a
    ||| 0x61 <= b <= 0x7a
    ||| b == 0x2d
    ||| b == 0x5f
    ||| b == 0x2e
    ||| b == 0x7e
}

/// A hexadecimal digit in upper case.
pub open spec fn upper_hex(d: nat) -> char {
    if d < 10 {
        (('0' as u32) + d) as char
    } else {
        (('A' as u32) + d - 10) as char
    }
}

/// One byte in percent-encoding.
pub open spec fn percent_byte(b: u8) -> Seq<char> {
    if unreserved(b) {
        seq![b as char]
    } else {
        seq!['%', upper_hex((b / 16) as nat), upper_hex((b % 16) as nat)]
    }
}

pub open spec fn percent_bytes(b: Seq<u8>) -> Seq<char>
    decreases b.len(),
{
    if b.len() == 0 {
        Seq::empty()
    } else {
        percent_bytes(b.drop_last()) + percent_byte(b.last())
    }
}

/// A text in percent-encoding, by the bytes of its UTF-8 form.
pub open spec fn percent_encoded(s: Seq<char>) -> Seq<char> {
    percent_bytes(encode_utf8(s))
}

/// Percent-encodes a text (`urlencoding::encode`): every byte of its UTF-8 form except letters,
/// digits and `-`, `_`, `.`, `~` becomes `%` and two upper-case hexadecimal digits.
#[verifier::external_body]
pub(crate) fn percent_encode(s: &str) -> (r: String)
    ensures
        r@ == percent_encoded(s@),
{
    urlencoding::encode(s).into_owned()
}

/// A character that has no meaning of its own in the query of a URL.
pub open spec fn plain_in_query(c: char) -> bool {
    ||| '0' <= c <= '9'
    ||| 'A' <= c <= 'Z'
    ||| 'a' <= c <= 'z'
    ||| c == '-'
    ||| c == '_'
    ||| c == '.'
    ||| c == '~'
    ||| c == '%'
}

/// A value in percent-encoding cannot end its place in a query or begin another: it holds none of
/// the characters that a query is made of.
pub proof fn encoded_values_stay_in_place(b: Seq<u8>)
    ensures
        forall|i: int|
            0 <= i < percent_bytes(b).len() ==> plain_in_query(#[trigger] percent_bytes(b)[i]),
    decreases b.len(),
{
    if b.len() > 0 {
        encoded_values_stay_in_place(b.drop_last());
        let t = percent_bytes(b.drop_last());
        let g = percent_byte(b.last());
        assert forall|i: int| 0 <= i < percent_bytes(b).len() implies plain_in_query(
            #[trigger] percent_bytes(b)[i],
        ) by {
            if i < t.len() {
                assert(percent_bytes(b)[i] == t[i]);
            } else {
                assert(percent_bytes(b)[i] == g[i - t.len()]);
            }
        }
    }
}

// ---------------------------------------------------------------------------------------------
// Compression

/// The frame in which zstd packs bytes at a level.
pub uninterp spec fn zstd_frame(source: Seq<u8>, level: i32) -> Seq<u8>;

/// The bytes that zstd reads from frames; none where they are not in order.
pub uninterp spec fn zstd_content(data: Seq<u8>) -> Option<Seq<u8>>;

/// Packs bytes with zstd (`zstd::encode_all`). What comes out is a function of the bytes and the
/// level, and unpacking it gives the bytes back. Reading from bytes and writing to a vector cannot
/// fail, and at these levels the compressor fails only where it gets no memory. Memory is taken to
/// suffice, here as for every vector.
#[verifier::external_body]
pub(crate) fn zstd_pack(source: &Vec<u8>, level: i32) -> (r: Option<Vec<u8>>)
    requires
        1 <= level <= 19,
    ensures
        r is Some,
        r matches Some(c) ==> c@ == zstd_frame(source@, level) && zstd_content(c@) == Some(source@),
{
    zstd::encode_all(source.as_slice(), level).ok()
}

/// Unpacks frames of zstd (`zstd::decode_all`): a function of the data alone. Data that are not
/// in order give nothing. Memory is taken to suffice, as in packing.
#[verifier::external_body]
pub(crate) fn zstd_unpack(data: &Vec<u8>) -> (r: Option<Vec<u8>>)
    ensures
        match r {
            Some(v) => zstd_content(data@) == Some(v@),
            None => zstd_content(data@) is None,
        },
{
    zstd::decode_all(data.as_slice()).ok()
}

/// The text of bytes has four characters for each three of them, or part of three.
pub proof fn b64_texts_have_four_for_three(b: Seq<u8>)
    ensures
        b64_text(b).len() == 4 * ((b.len() + 2) / 3),
        b.len() % 3 == 0 && b.len() > 0 ==> b64_text(b).last() != '=',
        b.len() % 3 != 0 ==> b64_text(b).last() == '=',
    decreases b.len(),
{
    if b.len() >= 3 {
        b64_texts_have_four_for_three(b.skip(3));
        let g = b64_group(b[0], b[1], b[2]);
        let t = b64_text(b.skip(3));
        assert(g.len() == 4);
        if t.len() > 0 {
            assert((g + t).last() == t.last());
        } else {
            assert((g + t).last() == g[3]);
        }
    }
}

/// A byte that needs no escape is written as its character, any other as a percent sign and its two
/// hexadecimal digits; letters, digits and four marks need none.
pub proof fn bytes_are_escaped(b: u8, s: Seq<u8>)
    ensures
        ({
            let c = b as char;
            let plain = ('a' <= c && c <= 'z') || ('A' <= c && c <= 'Z') || ('0' <= c && c <= '9')
                || c == '-' || c == '_' || c == '.' || c == '~';
            &&& plain <==> percent_byte(b) == seq![c]
            &&& !plain ==> percent_byte(b).len() == 3 && percent_byte(b)[0] == '%'
            &&& percent_bytes(s.push(b)) == percent_bytes(s) + percent_byte(b)
        }),
{
    assert(s.push(b).drop_last() =~= s);
    if !unreserved(b) {
        assert(percent_byte(b).len() == 3);
        assert(seq![b as char].len() == 1);
    }
}

/// The digits of an escape write the byte: each digit stands for its value, from zero to fifteen.
pub proof fn hex_digits_have_their_value(d: nat)
    requires
        d < 16,
    ensures
        d < 10 ==> upper_hex(d) as u32 == 0x30 + d,
        d >= 10 ==> upper_hex(d) as u32 == 0x41 + d - 10,
{
}

/// Three bytes are written as one number of 24 bits, six bits to a character, the highest first.
pub proof fn b64_groups_write_one_number(a: u8, b: u8, c: u8)
    ensures
        ({
            let n = (a * 65_536 + b * 256 + c) as nat;
            let g = b64_group(a, b, c);
            &&& g.len() == 4
            &&& g[0] == b64_char(n / 262_144)
            &&& g[1] == b64_char((n / 4096) % 64)
            &&& g[2] == b64_char((n / 64) % 64)
            &&& g[3] == b64_char(n % 64)
        }),
{
    let n = (a * 65_536 + b * 256 + c) as nat;
    let v0 = (a / 4) as nat;
    let v1 = ((a % 4) * 16 + b / 16) as nat;
    let v2 = ((b % 16) * 4 + c / 64) as nat;
    let v3 = (c % 64) as nat;
    assert(a == 4 * (a / 4) + a % 4 && b == 16 * (b / 16) + b % 16 && c == 64 * (c / 64) + c % 64);
    assert(v0 < 64 && v1 < 64 && v2 < 64 && v3 < 64);
    assert(n == 262_144 * v0 + 4096 * v1 + 64 * v2 + v3);
    lemma_digits_of_64(v0, v1, v2, v3, n);
}

proof fn lemma_digits_of_64(v0: nat, v1: nat, v2: nat, v3: nat, n: nat)
    requires
        v1 < 64,
        v2 < 64,
        v3 < 64,
        n == 262_144 * v0 + 4096 * v1 + 64 * v2 + v3,
    ensures
        n / 262_144 == v0,
        (n / 4096) % 64 == v1,
        (n / 64) % 64 == v2,
        n % 64 == v3,
{
    assert(n / 4096 == 64 * v0 + v1);
    assert(n / 64 == 4096 * v0 + 64 * v1 + v2);
}

/// The characters are the capital letters, the small ones, the digits, plus and slash, in that
/// order.
pub proof fn b64_characters_are_in_order(d: nat)
    requires
        d < 64,
    ensures
        d < 26 ==> b64_char(d) as u32 == 'A' as u32 + d,
        26 <= d < 52 ==> b64_char(d) as u32 == 'a' as u32 + (d - 26),
        52 <= d < 62 ==> b64_char(d) as u32 == '0' as u32 + (d - 52),
        b64_char(62) == '+' && b64_char(63) == '/',
{
}

} // verus!
