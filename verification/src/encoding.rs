//! Text encodings the library relies on: UUID text, Base64, lowercase hex
//! and SHA-256 digests. Each outside function is reached through one
//! trusted wrapper whose contract states what the crate documents.

use vstd::prelude::*;
use vstd::arithmetic::power2::pow2;
use base64::Engine as _;
use sha2::Digest as _;

verus! {

/// Lowercase hexadecimal digit for `n` in `0..16`.
pub open spec fn hex_char(n: int) -> char {
    if n < 10 {
        ((48 + n) as u32) as char
    } else {
        ((87 + n) as u32) as char
    }
}

/// Whether `c` is a lowercase hexadecimal digit.
pub open spec fn is_hex_char(c: char) -> bool {
    ('0' <= c && c <= '9') || ('a' <= c && c <= 'f')
}

/// The `i`-th four-bit group of `u`, counting from the most significant.
pub open spec fn nibble(u: u128, i: int) -> int {
    ((u as int) / (pow2((4 * (31 - i)) as nat) as int)) % 16
}

/// The 32 lowercase hex digits of a UUID, most significant first.
pub open spec fn uuid_simple(u: u128) -> Seq<char> {
    Seq::new(32, |i: int| hex_char(nibble(u, i)))
}

/// The hyphenated lowercase text of a UUID (`8-4-4-4-12` digits), which is
/// how a UUID displays.
pub open spec fn uuid_text(u: u128) -> Seq<char> {
    let h = uuid_simple(u);
    h.subrange(0, 8) + seq!['-'] + h.subrange(8, 12) + seq!['-'] + h.subrange(12, 16) + seq![
        '-',
    ] + h.subrange(16, 20) + seq!['-'] + h.subrange(20, 32)
}

/// What `Uuid::parse_str` reads from a text (a function of the text alone).
pub uninterp spec fn uuid_parsed(s: Seq<char>) -> Option<u128>;

/// The hyphenated text of a UUID has 36 characters, each a lowercase hex
/// digit or a hyphen.
pub proof fn lemma_uuid_text_shape(u: u128)
    ensures
        uuid_text(u).len() == 36,
        forall|i: int| 0 <= i < 36 ==> is_hex_char(#[trigger] uuid_text(u)[i]) || uuid_text(u)[i] == '-',
{
    let h = uuid_simple(u);
    assert forall|i: int| 0 <= i < 32 implies is_hex_char(#[trigger] h[i]) by {
        vstd::arithmetic::power2::lemma_pow2_pos((4 * (31 - i)) as nat);
        let n = nibble(u, i);
        assert(0 <= n < 16);
    }
    let t = uuid_text(u);
    assert forall|i: int| 0 <= i < 36 implies is_hex_char(#[trigger] t[i]) || t[i] == '-' by {
        if i < 8 {
            assert(t[i] == h[i]);
        } else if i == 8 {
        } else if i < 13 {
            assert(t[i] == h[i - 1]);
        } else if i == 13 {
        } else if i < 18 {
            assert(t[i] == h[i - 2]);
        } else if i == 18 {
        } else if i < 23 {
            assert(t[i] == h[i - 3]);
        } else if i == 23 {
        } else {
            assert(t[i] == h[i - 4]);
        }
    }
}

/// The value of `u` above its lowest `k` four-bit groups.
pub open spec fn high_part(u: u128, k: nat) -> int {
    (u as int) / (pow2(4 * k) as int)
}

proof fn lemma_high_part_step(u: u128, k: nat)
    requires
        k < 32,
    ensures
        high_part(u, k) == 16 * high_part(u, k + 1) + nibble(u, 31 - k),
{
    let p = pow2(4 * k) as int;
    vstd::arithmetic::power2::lemma_pow2_pos(4 * k);
    vstd::arithmetic::power2::lemma_pow2_adds(4 * k, 4);
    vstd::arithmetic::power2::lemma2_to64();
    assert(4 * (k + 1) == 4 * k + 4);
    assert(pow2(4 * (k + 1)) == pow2(4 * k) * 16);
    vstd::arithmetic::div_mod::lemma_div_denominator(u as int, p, 16);
    assert(4 * (31 - (31 - k)) == 4 * k);
    vstd::arithmetic::div_mod::lemma_fundamental_div_mod(high_part(u, k), 16);
}

proof fn lemma_high_parts_equal(u1: u128, u2: u128, k: nat)
    requires
        k <= 32,
        forall|i: int| 0 <= i < 32 ==> nibble(u1, i) == nibble(u2, i),
    ensures
        high_part(u1, k) == high_part(u2, k),
    decreases 32 - k,
{
    if k == 32 {
        vstd::arithmetic::power2::lemma2_to64();
        vstd::arithmetic::power2::lemma_pow2_adds(64, 64);
        assert(pow2(4 * 32) == pow2(64) * pow2(64));
        vstd::arithmetic::div_mod::lemma_basic_div(u1 as int, pow2(128) as int);
        vstd::arithmetic::div_mod::lemma_basic_div(u2 as int, pow2(128) as int);
    } else {
        lemma_high_parts_equal(u1, u2, k + 1);
        lemma_high_part_step(u1, k);
        lemma_high_part_step(u2, k);
        assert(nibble(u1, 31 - k) == nibble(u2, 31 - k));
    }
}

proof fn lemma_hex_char_injective(a: int, b: int)
    requires
        0 <= a < 16,
        0 <= b < 16,
        hex_char(a) == hex_char(b),
    ensures
        a == b,
{
    let x: u32 = (if a < 10 { 48 + a } else { 87 + a }) as u32;
    let y: u32 = (if b < 10 { 48 + b } else { 87 + b }) as u32;
    assert((x as char) as u32 == x);
    assert((y as char) as u32 == y);
}

/// Different UUIDs have different texts.
pub proof fn lemma_uuid_text_injective(u1: u128, u2: u128)
    requires
        uuid_text(u1) == uuid_text(u2),
    ensures
        u1 == u2,
{
    let h1 = uuid_simple(u1);
    let h2 = uuid_simple(u2);
    let t1 = uuid_text(u1);
    let t2 = uuid_text(u2);
    assert forall|i: int| 0 <= i < 32 implies nibble(u1, i) == nibble(u2, i) by {
        vstd::arithmetic::power2::lemma_pow2_pos((4 * (31 - i)) as nat);
        let j: int = if i < 8 {
            i
        } else if i < 12 {
            i + 1
        } else if i < 16 {
            i + 2
        } else if i < 20 {
            i + 3
        } else {
            i + 4
        };
        assert(t1[j] == h1[i]);
        assert(t2[j] == h2[i]);
        lemma_hex_char_injective(nibble(u1, i), nibble(u2, i));
    }
    lemma_high_parts_equal(u1, u2, 0);
    vstd::arithmetic::power2::lemma2_to64();
    assert(pow2(4 * 0) == 1);
    assert((u1 as int) / 1 == u1 as int);
    assert((u2 as int) / 1 == u2 as int);
}

/// Renders a UUID as text. Calls `uuid::Uuid::to_string`; the contract
/// claims the documented hyphenated lowercase form and that
/// `Uuid::parse_str` reads the value back from it.
#[verifier::external_body]
pub fn uuid_to_string(u: u128) -> (res: String)
    ensures
        res@ == uuid_text(u),
        uuid_parsed(res@) == Some(u),
{
    uuid::Uuid::from_u128(u).to_string()
}

/// Parses a UUID from text. Calls `uuid::Uuid::parse_str`; the contract
/// claims only that the result is the named function of the text, with the
/// error's display text on failure.
#[verifier::external_body]
pub fn uuid_parse(s: &str) -> (res: Result<u128, String>)
    ensures
        res is Ok <==> uuid_parsed(s@) is Some,
        res matches Ok(u) ==> uuid_parsed(s@) == Some(u),
{
    match uuid::Uuid::parse_str(s) {
        Ok(u) => Ok(u.as_u128()),
        Err(e) => Err(e.to_string()),
    }
}

/// A fresh random (version 4) UUID. Calls `uuid::Uuid::new_v4`; the
/// contract claims only the version and variant bits that it documents.
#[verifier::external_body]
pub fn uuid_new_v4() -> (res: u128)
    ensures
        (res >> 76u128) & 0xfu128 == 4,
        (res >> 62u128) & 0x3u128 == 2,
{
    uuid::Uuid::new_v4().as_u128()
}

/// Whether `c` belongs to the standard Base64 alphabet or is padding.
pub open spec fn is_base64_char(c: char) -> bool {
    ('A' <= c && c <= 'Z') || ('a' <= c && c <= 'z') || ('0' <= c && c <= '9') || c == '+' || c
        == '/' || c == '='
}

/// The number of padding characters that standard Base64 appends to `n` bytes.
pub open spec fn base64_pad(n: nat) -> nat {
    ((3 - n % 3) % 3) as nat
}

/// The digit of a six-bit value in the standard Base64 alphabet
/// (`A`-`Z`, `a`-`z`, `0`-`9`, `+`, `/`).
pub open spec fn base64_digit(n: int) -> char {
    if n < 26 {
        ((65 + n) as u32) as char
    } else if n < 52 {
        ((71 + n) as u32) as char
    } else if n < 62 {
        ((n - 4) as u32) as char
    } else if n == 62 {
        '+'
    } else {
        '/'
    }
}

/// Standard padded Base64 text of some bytes (RFC 4648): each group of
/// three bytes becomes four digits, and a last group of one or two bytes
/// becomes two or three digits padded with `=` to four.
pub open spec fn base64_text(data: Seq<u8>) -> Seq<char>
    decreases data.len(),
{
    if data.len() == 0 {
        Seq::empty()
    } else if data.len() == 1 {
        let a = data[0] as int;
        seq![base64_digit(a / 4), base64_digit((a % 4) * 16), '=', '=']
    } else if data.len() == 2 {
        let a = data[0] as int;
        let b = data[1] as int;
        seq![base64_digit(a / 4), base64_digit((a % 4) * 16 + b / 16), base64_digit((b % 16) * 4), '=']
    } else {
        let a = data[0] as int;
        let b = data[1] as int;
        let c = data[2] as int;
        seq![
            base64_digit(a / 4),
            base64_digit((a % 4) * 16 + b / 16),
            base64_digit((b % 16) * 4 + c / 64),
            base64_digit(c % 64),
        ] + base64_text(data.subrange(3, data.len() as int))
    }
}

proof fn lemma_base64_digit(n: int)
    requires
        0 <= n < 64,
    ensures
        is_base64_char(base64_digit(n)),
        base64_digit(n) != '=',
{
    let x: u32 = (if n < 26 { 65 + n } else if n < 52 { 71 + n } else { n - 4 }) as u32;
    assert((x as char) as u32 == x);
}

/// The shape of standard Base64 text: four characters per started group of
/// three bytes, all of the alphabet, with exactly the padding at the end.
pub proof fn lemma_base64_text_shape(data: Seq<u8>)
    ensures
        base64_text(data).len() == 4 * ((data.len() + 2) / 3),
        forall|i: int| 0 <= i < base64_text(data).len() ==> is_base64_char(#[trigger] base64_text(data)[i]),
        forall|i: int|
            0 <= i < base64_text(data).len() ==> (#[trigger] base64_text(data)[i] == '=' <==> i >= base64_text(
                data,
            ).len() - base64_pad(data.len())),
    decreases data.len(),
{
    let t = base64_text(data);
    if data.len() == 0 {
    } else if data.len() == 1 {
        let a = data[0] as int;
        lemma_base64_digit(a / 4);
        lemma_base64_digit((a % 4) * 16);
    } else if data.len() == 2 {
        let a = data[0] as int;
        let b = data[1] as int;
        lemma_base64_digit(a / 4);
        lemma_base64_digit((a % 4) * 16 + b / 16);
        lemma_base64_digit((b % 16) * 4);
    } else {
        let a = data[0] as int;
        let b = data[1] as int;
        let c = data[2] as int;
        lemma_base64_digit(a / 4);
        lemma_base64_digit((a % 4) * 16 + b / 16);
        lemma_base64_digit((b % 16) * 4 + c / 64);
        lemma_base64_digit(c % 64);
        let rest = data.subrange(3, data.len() as int);
        lemma_base64_text_shape(rest);
        let head = seq![
            base64_digit(a / 4),
            base64_digit((a % 4) * 16 + b / 16),
            base64_digit((b % 16) * 4 + c / 64),
            base64_digit(c % 64),
        ];
        let r = base64_text(rest);
        assert(t == head + r);
        assert(base64_pad(data.len()) == base64_pad(rest.len()));
        assert forall|i: int| 0 <= i < t.len() implies is_base64_char(#[trigger] t[i]) && (t[i] == '=' <==> i >= t.len()
            - base64_pad(data.len())) by {
            if i >= 4 {
                assert(t[i] == r[i - 4]);
            }
        }
    }
}

/// What the standard Base64 decoder (canonical padding required) reads from
/// a text, if it accepts it.
pub uninterp spec fn base64_decoded(s: Seq<char>) -> Option<Seq<u8>>;

/// Encodes bytes as standard padded Base64. Calls
/// `base64::engine::general_purpose::STANDARD.encode` (standard alphabet,
/// with padding); the contract claims the RFC 4648 text and that the same
/// engine decodes it back to the bytes.
#[verifier::external_body]
pub fn base64_encode(data: &[u8]) -> (res: String)
    ensures
        res@ == base64_text(data@),
        base64_decoded(res@) == Some(data@),
{
    base64::engine::general_purpose::STANDARD.encode(data)
}

/// Decodes standard padded Base64. Calls
/// `base64::engine::general_purpose::STANDARD.decode`; the contract claims
/// that the outcome is the named decoding of the text, with the error's
/// display text on failure.
#[verifier::external_body]
pub fn base64_decode(s: &str) -> (res: Result<Vec<u8>, String>)
    ensures
        res is Ok <==> base64_decoded(s@) is Some,
        res matches Ok(v) ==> base64_decoded(s@) == Some(v@),
{
    match base64::engine::general_purpose::STANDARD.decode(s.as_bytes()) {
        Ok(v) => Ok(v),
        Err(e) => Err(e.to_string()),
    }
}

/// Lowercase hex text of bytes, two digits per byte, high digit first.
pub open spec fn hex_lower(data: Seq<u8>) -> Seq<char>
    decreases data.len(),
{
    if data.len() == 0 {
        Seq::empty()
    } else {
        seq![hex_char(data[0] as int / 16), hex_char(data[0] as int % 16)] + hex_lower(
            data.drop_first(),
        )
    }
}

/// Lowercase hex text has two characters per byte.
pub proof fn lemma_hex_lower_len(data: Seq<u8>)
    ensures
        hex_lower(data).len() == 2 * data.len(),
    decreases data.len(),
{
    if data.len() > 0 {
        lemma_hex_lower_len(data.drop_first());
    }
}

/// Different bytes have different lowercase hex texts.
pub proof fn lemma_hex_lower_injective(a: Seq<u8>, b: Seq<u8>)
    requires
        hex_lower(a) == hex_lower(b),
    ensures
        a == b,
    decreases a.len(),
{
    lemma_hex_lower_len(a);
    lemma_hex_lower_len(b);
    if a.len() > 0 {
        let ha = hex_lower(a);
        let hb = hex_lower(b);
        let x = a[0] as int;
        let y = b[0] as int;
        assert(ha[0] == hex_char(x / 16) && hb[0] == hex_char(y / 16));
        assert(ha[1] == hex_char(x % 16) && hb[1] == hex_char(y % 16));
        lemma_hex_char_injective(x / 16, y / 16);
        lemma_hex_char_injective(x % 16, y % 16);
        assert(x == 16 * (x / 16) + x % 16);
        assert(y == 16 * (y / 16) + y % 16);
        assert(hex_lower(a.drop_first()) =~= ha.subrange(2, ha.len() as int));
        assert(hex_lower(b.drop_first()) =~= hb.subrange(2, hb.len() as int));
        lemma_hex_lower_injective(a.drop_first(), b.drop_first());
        assert(a =~= seq![a[0]] + a.drop_first());
        assert(b =~= seq![b[0]] + b.drop_first());
    }
}

/// Lowercase hex encoding. Calls `hex::encode`, which documents exactly
/// this lowercase two-digits-per-byte form.
#[verifier::external_body]
pub fn hex_encode(data: &[u8]) -> (res: String)
    ensures
        res@ == hex_lower(data@),
{
    hex::encode(data)
}

/// The SHA-256 digest of some bytes (named: the hash is left to the crate).
pub uninterp spec fn sha256_of(data: Seq<u8>) -> Seq<u8>;

/// SHA-256 of bytes. Calls `sha2::Sha256::digest`; the contract claims the
/// named digest and its 32-byte length.
#[verifier::external_body]
pub fn sha256(data: &[u8]) -> (res: Vec<u8>)
    ensures
        res@ == sha256_of(data@),
        res@.len() == 32,
{
    sha2::Sha256::digest(data).to_vec()
}

} // verus!
