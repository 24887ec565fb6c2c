//! Character-level text handling used by the parsers and formatters of the
//! library: conversion between `String` and character vectors, decimal
//! numbers, trimming, searching and ordering of text.

use vstd::prelude::*;

verus! {

/// Appends one character to a string.
#[verifier::external_body]
pub fn push_char(s: &mut String, c: char)
    ensures
        final(s)@ == old(s)@.push(c),
{
    s.push(c);
}

/// The characters of `s`, in order.
pub fn chars_of(s: &str) -> (res: Vec<char>)
    ensures
        res@ == s@,
{
    let mut res: Vec<char> = Vec::new();
    for c in it: s.chars()
        invariant
            it.seq() == s@,
            res@ == it.seq().take(it.index() as int),
    {
        res.push(c);
    }
    res
}

/// The string made of the characters of `v`, in order.
pub fn string_of(v: &Vec<char>) -> (res: String)
    ensures
        res@ == v@,
{
    let mut res = String::new();
    let mut i: usize = 0;
    while i < v.len()
        invariant
            i <= v.len(),
            res@ == v@.take(i as int),
        decreases v.len() - i,
    {
        push_char(&mut res, v[i]);
        i += 1;
        assert(res@ == v@.take(i as int));
    }
    assert(v@.take(v.len() as int) == v@);
    res
}


/// The decimal digit character for `d` (0..=9).
pub open spec fn digit_char(d: nat) -> char {
    ((48 + d) as u32) as char
}

/// Whether `c` is one of the ASCII digits `0`..=`9`.
pub open spec fn is_digit(c: char) -> bool {
    '0' <= c && c <= '9'
}

/// The value of the ASCII digit `c`.
pub open spec fn digit_value(c: char) -> nat {
    ((c as u32) - 48) as nat
}

/// The shortest decimal text of `n` (no sign, no leading zeros).
pub open spec fn decimal(n: nat) -> Seq<char>
    decreases n,
{
    if n < 10 {
        seq![digit_char(n)]
    } else {
        decimal(n / 10).push(digit_char(n % 10))
    }
}

fn digit(d: u64) -> (c: char)
    requires
        d < 10,
    ensures
        c == digit_char(d as nat),
{
    let b: u8 = 48u8 + (d as u8);
    b as char
}

/// The decimal text of `n`, as `to_string` renders an unsigned integer.
pub fn decimal_chars(n: u64) -> (res: Vec<char>)
    ensures
        res@ == decimal(n as nat),
    decreases n,
{
    if n < 10 {
        let mut v: Vec<char> = Vec::new();
        v.push(digit(n));
        v
    } else {
        let mut v = decimal_chars(n / 10);
        v.push(digit(n % 10));
        v
    }
}

/// Why a text is not the decimal form of a `u16`, in the order the
/// standard integer parser reports it.
#[derive(Debug, Clone, Copy, PartialEq, Eq)]
pub enum IntParseError {
    Empty,
    InvalidDigit,
    PosOverflow,
}

/// The message the standard integer parser shows for each kind of error.
pub open spec fn int_error_text(e: IntParseError) -> Seq<char> {
    match e {
        IntParseError::Empty => "cannot parse integer from empty string"@,
        IntParseError::InvalidDigit => "invalid digit found in string"@,
        IntParseError::PosOverflow => "number too large to fit in target type"@,
    }
}

/// Left-to-right scan of the digits of an unsigned number below 65536.
pub open spec fn scan_u16(digits: Seq<char>, acc: nat) -> Result<nat, IntParseError>
    decreases digits.len(),
{
    if digits.len() == 0 {
        Ok(acc)
    } else if !is_digit(digits[0]) {
        Err(IntParseError::InvalidDigit)
    } else if acc * 10 + digit_value(digits[0]) > 65535 {
        Err(IntParseError::PosOverflow)
    } else {
        scan_u16(digits.drop_first(), acc * 10 + digit_value(digits[0]))
    }
}

/// How `str::parse::<u16>` reads `s`: an optional `+` then decimal digits.
pub open spec fn parse_u16_spec(s: Seq<char>) -> Result<u16, IntParseError> {
    if s.len() == 0 {
        Err(IntParseError::Empty)
    } else if s.len() == 1 && (s[0] == '+' || s[0] == '-') {
        Err(IntParseError::InvalidDigit)
    } else {
        let digits = if s[0] == '+' { s.drop_first() } else { s };
        match scan_u16(digits, 0) {
            Ok(v) => Ok(v as u16),
            Err(e) => Err(e),
        }
    }
}

proof fn lemma_scan_bounded(digits: Seq<char>, acc: nat)
    requires
        acc <= 65535,
    ensures
        scan_u16(digits, acc) matches Ok(v) ==> v <= 65535,
    decreases digits.len(),
{
    if digits.len() > 0 && is_digit(digits[0]) && acc * 10 + digit_value(digits[0]) <= 65535 {
        lemma_scan_bounded(digits.drop_first(), acc * 10 + digit_value(digits[0]));
    }
}

/// Parses a port number the way `str::parse::<u16>` does.
pub fn parse_u16(s: &Vec<char>) -> (res: Result<u16, IntParseError>)
    ensures
        res == parse_u16_spec(s@),
{
    if s.len() == 0 {
        return Err(IntParseError::Empty);
    }
    if s.len() == 1 && (s[0] == '+' || s[0] == '-') {
        return Err(IntParseError::InvalidDigit);
    }
    let start: usize = if s[0] == '+' { 1 } else { 0 };
    let ghost digits = if s@[0] == '+' { s@.drop_first() } else { s@ };
    assert(digits == s@.skip(start as int));
    let mut acc: u32 = 0;
    let mut i: usize = start;
    while i < s.len()
        invariant
            start <= i <= s.len(),
            acc <= 65535,
            s.len() > 0,
            !(s.len() == 1 && (s@[0] == '+' || s@[0] == '-')),
            digits == (if s@[0] == '+' { s@.drop_first() } else { s@ }),
            digits == s@.skip(start as int),
            scan_u16(digits, 0) == scan_u16(s@.skip(i as int), acc as nat),
        decreases s.len() - i,
    {
        let c = s[i];
        assert(s@.skip(i as int)[0] == c);
        assert(s@.skip(i as int).drop_first() == s@.skip(i + 1));
        if !('0' <= c && c <= '9') {
            return Err(IntParseError::InvalidDigit);
        }
        let d: u32 = (c as u32) - 48;
        if acc * 10 + d > 65535 {
            assert(scan_u16(s@.skip(i as int), acc as nat) == Err::<nat, IntParseError>(
                IntParseError::PosOverflow,
            ));
            return Err(IntParseError::PosOverflow);
        }
        acc = acc * 10 + d;
        i += 1;
    }
    assert(s@.skip(i as int).len() == 0);
    Ok(acc as u16)
}

/// The number of bytes UTF-8 uses for `c`.
pub open spec fn utf8_width(c: char) -> nat {
    let u = c as u32;
    if u < 0x80 {
        1
    } else if u < 0x800 {
        2
    } else if u < 0x10000 {
        3
    } else {
        4
    }
}

/// The UTF-8 byte length of a text (what `str::len` reports).
pub open spec fn utf8_len(s: Seq<char>) -> nat
    decreases s.len(),
{
    if s.len() == 0 {
        0
    } else {
        utf8_len(s.drop_last()) + utf8_width(s.last())
    }
}

/// The UTF-8 length of a prefix grows by the width of its last character.
pub proof fn lemma_utf8_len_prefix(s: Seq<char>, i: int)
    requires
        0 < i <= s.len(),
    ensures
        utf8_len(s.take(i)) == utf8_len(s.take(i - 1)) + utf8_width(s[i - 1]),
        utf8_len(s.take(i)) <= utf8_len(s),
{
    assert(s.take(i).drop_last() == s.take(i - 1));
    lemma_utf8_len_mono(s, i);
}

proof fn lemma_utf8_len_mono(s: Seq<char>, i: int)
    requires
        0 <= i <= s.len(),
    ensures
        utf8_len(s.take(i)) <= utf8_len(s),
    decreases s.len() - i,
{
    if i < s.len() {
        lemma_utf8_len_mono(s, i + 1);
        assert(s.take(i + 1).drop_last() == s.take(i));
    } else {
        assert(s.take(i) == s);
    }
}

/// Whether the UTF-8 length of `s` exceeds `limit`.
pub fn utf8_len_exceeds(s: &Vec<char>, limit: u64) -> (b: bool)
    ensures
        b == (utf8_len(s@) > limit),
{
    let mut total: u128 = 0;
    let mut i: usize = 0;
    while i < s.len()
        invariant
            i <= s.len(),
            total == utf8_len(s@.take(i as int)),
            total <= limit,
        decreases s.len() - i,
    {
        let u = s[i] as u32;
        let w: u128 = if u < 0x80 {
            1
        } else if u < 0x800 {
            2
        } else if u < 0x10000 {
            3
        } else {
            4
        };
        assert(s@.take(i + 1).drop_last() == s@.take(i as int));
        total = total + w;
        i += 1;
        if total > limit as u128 {
            proof { lemma_utf8_len_mono(s@, i as int); }
            return true;
        }
    }
    assert(s@.take(s.len() as int) == s@);
    false
}

/// Unicode `White_Space`, the set `char::is_whitespace` documents.
pub open spec fn is_white(c: char) -> bool {
    let u = c as u32;
    ||| 0x09 <= u <= 0x0d
    ||| u == 0x20
    ||| u == 0x85
    ||| u == 0xa0
    ||| u == 0x1680
    ||| 0x2000 <= u <= 0x200a
    ||| u == 0x2028
    ||| u == 0x2029
    ||| u == 0x202f
    ||| u == 0x205f
    ||| u == 0x3000
}

/// Whether `c` is white space (Unicode `White_Space`).
pub fn white(c: char) -> (b: bool)
    ensures
        b == is_white(c),
{
    let u = c as u32;
    (0x09 <= u && u <= 0x0d) || u == 0x20 || u == 0x85 || u == 0xa0 || u == 0x1680 || (0x2000
        <= u && u <= 0x200a) || u == 0x2028 || u == 0x2029 || u == 0x202f || u == 0x205f || u
        == 0x3000
}

/// `s` without its leading white space.
pub open spec fn trim_start(s: Seq<char>) -> Seq<char>
    decreases s.len(),
{
    if s.len() > 0 && is_white(s[0]) {
        trim_start(s.drop_first())
    } else {
        s
    }
}

/// `s` without its trailing white space.
pub open spec fn trim_end(s: Seq<char>) -> Seq<char>
    decreases s.len(),
{
    if s.len() > 0 && is_white(s.last()) {
        trim_end(s.drop_last())
    } else {
        s
    }
}

/// `s` without leading and trailing white space, as `str::trim` gives it.
pub open spec fn trim(s: Seq<char>) -> Seq<char> {
    trim_end(trim_start(s))
}

/// The characters of `s` from `lo` to `hi`.
pub fn slice_chars(s: &Vec<char>, lo: usize, hi: usize) -> (res: Vec<char>)
    requires
        lo <= hi <= s.len(),
    ensures
        res@ == s@.subrange(lo as int, hi as int),
{
    let mut res: Vec<char> = Vec::new();
    let mut i = lo;
    while i < hi
        invariant
            lo <= i <= hi <= s.len(),
            res@ == s@.subrange(lo as int, i as int),
        decreases hi - i,
    {
        res.push(s[i]);
        i += 1;
    }
    res
}

/// `s` with leading and trailing white space removed.
pub fn trim_chars(s: &Vec<char>) -> (res: Vec<char>)
    ensures
        res@ == trim(s@),
{
    let mut lo: usize = 0;
    assert(s@.skip(0) =~= s@);
    while lo < s.len() && white(s[lo])
        invariant
            lo <= s.len(),
            trim_start(s@) == trim_start(s@.skip(lo as int)),
        decreases s.len() - lo,
    {
        assert(s@.skip(lo as int).drop_first() == s@.skip(lo + 1));
        lo += 1;
    }
    assert(trim_start(s@) == s@.skip(lo as int)) by {
        assert(s@.skip(lo as int).len() == 0 || !is_white(s@.skip(lo as int)[0]));
    }
    let mut hi: usize = s.len();
    while hi > lo && white(s[hi - 1])
        invariant
            lo <= hi <= s.len(),
            trim_start(s@) == s@.skip(lo as int),
            trim(s@) == trim_end(s@.subrange(lo as int, hi as int)),
        decreases hi,
    {
        assert(s@.subrange(lo as int, hi as int).drop_last() == s@.subrange(lo as int, hi - 1));
        hi -= 1;
    }
    assert(s@.skip(lo as int) == s@.subrange(lo as int, s.len() as int));
    slice_chars(s, lo, hi)
}

/// Whether `needle` occurs in `s` at position `i`.
pub open spec fn occurs_at(s: Seq<char>, needle: Seq<char>, i: int) -> bool {
    0 <= i && i + needle.len() <= s.len() && s.subrange(i, i + needle.len()) == needle
}

/// Whether `needle` occurs anywhere in `s` (as `str::contains` answers).
pub open spec fn contains_seq(s: Seq<char>, needle: Seq<char>) -> bool {
    exists|i: int| occurs_at(s, needle, i)
}

/// Whether `needle` occurs in `s`.
pub fn contains_chars(s: &Vec<char>, needle: &Vec<char>) -> (b: bool)
    ensures
        b == contains_seq(s@, needle@),
{
    if needle.len() > s.len() {
        assert(forall|i: int| !occurs_at(s@, needle@, i));
        return false;
    }
    let mut i: usize = 0;
    while i <= s.len() - needle.len()
        invariant
            needle.len() <= s.len(),
            i <= s.len() - needle.len() + 1,
            forall|k: int| 0 <= k < i ==> !occurs_at(s@, needle@, k),
        decreases s.len() - i,
    {
        let mut j: usize = 0;
        let mut same = true;
        while j < needle.len()
            invariant
                i + needle.len() <= s.len(),
                j <= needle.len(),
                same == (forall|k: int| 0 <= k < j ==> s@[i + k] == needle@[k]),
            decreases needle.len() - j,
        {
            if s[i + j] != needle[j] {
                same = false;
            }
            j += 1;
        }
        if same {
            assert(s@.subrange(i as int, i + needle.len()) =~= needle@);
            assert(occurs_at(s@, needle@, i as int));
            return true;
        }
        assert(!occurs_at(s@, needle@, i as int)) by {
            if occurs_at(s@, needle@, i as int) {
                assert forall|k: int| 0 <= k < needle.len() implies s@[i + k] == needle@[k] by {
                    assert(s@.subrange(i as int, i + needle.len())[k] == s@[i + k]);
                }
            }
        }
        i += 1;
    }
    assert forall|k: int| !occurs_at(s@, needle@, k) by {
        if 0 <= k && k < i {
        }
    }
    false
}

/// Strict lexicographic order on character sequences, by code point (the
/// order of `String`'s `Ord`, since UTF-8 preserves code point order).
pub open spec fn text_lt(a: Seq<char>, b: Seq<char>) -> bool
    decreases a.len(),
{
    if a.len() == 0 {
        b.len() > 0
    } else if b.len() == 0 {
        false
    } else if a[0] != b[0] {
        (a[0] as int) < (b[0] as int)
    } else {
        text_lt(a.drop_first(), b.drop_first())
    }
}

/// The text order is transitive.
pub proof fn lemma_text_lt_transitive(a: Seq<char>, b: Seq<char>, c: Seq<char>)
    requires
        text_lt(a, b),
        text_lt(b, c),
    ensures
        text_lt(a, c),
    decreases a.len(),
{
    if a.len() > 0 && b.len() > 0 && c.len() > 0 && a[0] == b[0] && b[0] == c[0] {
        lemma_text_lt_transitive(a.drop_first(), b.drop_first(), c.drop_first());
    }
}

/// The text order is asymmetric.
pub proof fn lemma_text_lt_asymmetric(a: Seq<char>, b: Seq<char>)
    requires
        text_lt(a, b),
    ensures
        !text_lt(b, a),
    decreases a.len(),
{
    if a.len() > 0 && b.len() > 0 && a[0] == b[0] {
        lemma_text_lt_asymmetric(a.drop_first(), b.drop_first());
    }
}

/// No text sorts before itself.
pub proof fn lemma_text_lt_irreflexive(a: Seq<char>)
    ensures
        !text_lt(a, a),
    decreases a.len(),
{
    if a.len() > 0 {
        lemma_text_lt_irreflexive(a.drop_first());
        assert(a.drop_first() == a.drop_first());
    }
}

/// Of two different texts, one sorts before the other.
pub proof fn lemma_text_lt_total(a: Seq<char>, b: Seq<char>)
    requires
        a != b,
    ensures
        text_lt(a, b) || text_lt(b, a),
    decreases a.len(),
{
    if a.len() > 0 && b.len() > 0 && a[0] == b[0] {
        if a.drop_first() == b.drop_first() {
            assert(a =~= seq![a[0]] + a.drop_first());
            assert(b =~= seq![b[0]] + b.drop_first());
        }
        lemma_text_lt_total(a.drop_first(), b.drop_first());
    } else if a.len() == 0 && b.len() == 0 {
        assert(a =~= b);
    } else if a.len() > 0 && b.len() > 0 {
        assert((a[0] as int) != (b[0] as int));
    }
}

/// Whether `a` sorts strictly before `b`.
pub fn chars_lt(a: &Vec<char>, b: &Vec<char>) -> (res: bool)
    ensures
        res == text_lt(a@, b@),
{
    let mut i: usize = 0;
    assert(a@.skip(0) =~= a@);
    assert(b@.skip(0) =~= b@);
    while i < a.len() && i < b.len()
        invariant
            i <= a.len(),
            i <= b.len(),
            text_lt(a@, b@) == text_lt(a@.skip(i as int), b@.skip(i as int)),
        decreases a.len() - i,
    {
        assert(a@.skip(i as int).drop_first() == a@.skip(i + 1));
        assert(b@.skip(i as int).drop_first() == b@.skip(i + 1));
        assert(a@.skip(i as int)[0] == a@[i as int]);
        assert(b@.skip(i as int)[0] == b@[i as int]);
        let x = a[i];
        let y = b[i];
        if x != y {
            return x < y;
        }
        i += 1;
    }
    i == a.len() && i < b.len()
}


/// `s` cut at its first `c`: the text before it and the text after it
/// (`str::split_once`).
pub open spec fn split_first(s: Seq<char>, c: char) -> Option<(Seq<char>, Seq<char>)>
    decreases s.len(),
{
    if s.len() == 0 {
        None
    } else if s[0] == c {
        Some((Seq::empty(), s.drop_first()))
    } else {
        match split_first(s.drop_first(), c) {
            Some((a, b)) => Some((seq![s[0]] + a, b)),
            None => None,
        }
    }
}

/// `s` cut at its last `c` (`str::rsplit_once`).
pub open spec fn split_last(s: Seq<char>, c: char) -> Option<(Seq<char>, Seq<char>)>
    decreases s.len(),
{
    if s.len() == 0 {
        None
    } else if s.last() == c {
        Some((s.drop_last(), Seq::empty()))
    } else {
        match split_last(s.drop_last(), c) {
            Some((a, b)) => Some((a, b.push(s.last()))),
            None => None,
        }
    }
}

/// Where the first `c` of `s` stands, `split_first` cuts there.
pub proof fn lemma_split_first_at(s: Seq<char>, c: char, i: int)
    requires
        0 <= i < s.len(),
        s[i] == c,
        forall|q: int| 0 <= q < i ==> s[q] != c,
    ensures
        split_first(s, c) == Some((s.take(i), s.skip(i + 1))),
    decreases i,
{
    if i > 0 {
        lemma_split_first_at(s.drop_first(), c, i - 1);
        assert(seq![s[0]] + s.drop_first().take(i - 1) =~= s.take(i));
        assert(s.drop_first().skip(i) =~= s.skip(i + 1));
    } else {
        assert(s.take(0) =~= Seq::<char>::empty());
        assert(s.skip(1) =~= s.drop_first());
    }
}

/// Without a `c`, `split_first` finds nothing.
pub proof fn lemma_split_first_none(s: Seq<char>, c: char)
    requires
        forall|q: int| 0 <= q < s.len() ==> s[q] != c,
    ensures
        split_first(s, c) is None,
    decreases s.len(),
{
    if s.len() > 0 {
        lemma_split_first_none(s.drop_first(), c);
    }
}

/// Where the last `c` of `s` stands, `split_last` cuts there.
pub proof fn lemma_split_last_at(s: Seq<char>, c: char, i: int)
    requires
        0 <= i < s.len(),
        s[i] == c,
        forall|q: int| i < q < s.len() ==> s[q] != c,
    ensures
        split_last(s, c) == Some((s.take(i), s.skip(i + 1))),
    decreases s.len() - i,
{
    if i < s.len() - 1 {
        lemma_split_last_at(s.drop_last(), c, i);
        assert(s.drop_last().take(i) =~= s.take(i));
        assert(s.drop_last().skip(i + 1).push(s.last()) =~= s.skip(i + 1));
    } else {
        assert(s.drop_last() =~= s.take(i));
        assert(s.skip(i + 1) =~= Seq::<char>::empty());
    }
}

/// Without a `c`, `split_last` finds nothing.
pub proof fn lemma_split_last_none(s: Seq<char>, c: char)
    requires
        forall|q: int| 0 <= q < s.len() ==> s[q] != c,
    ensures
        split_last(s, c) is None,
    decreases s.len(),
{
    if s.len() > 0 {
        lemma_split_last_none(s.drop_last(), c);
    }
}

/// Cuts `s` at its first `c`.
pub fn split_first_chars(s: &Vec<char>, c: char) -> (res: Option<(Vec<char>, Vec<char>)>)
    ensures
        match res {
            Some((a, b)) => split_first(s@, c) == Some((a@, b@)),
            None => split_first(s@, c) is None,
        },
{
    let mut i: usize = 0;
    while i < s.len()
        invariant
            i <= s@.len(),
            forall|q: int| 0 <= q < i ==> s@[q] != c,
        decreases s@.len() - i,
    {
        if s[i] == c {
            proof { lemma_split_first_at(s@, c, i as int); }
            let a = slice_chars(s, 0, i);
            let b = slice_chars(s, i + 1, s.len());
            assert(a@ =~= s@.take(i as int));
            assert(b@ =~= s@.skip(i + 1));
            return Some((a, b));
        }
        i += 1;
    }
    proof { lemma_split_first_none(s@, c); }
    None
}

/// Cuts `s` at its last `c`.
pub fn split_last_chars(s: &Vec<char>, c: char) -> (res: Option<(Vec<char>, Vec<char>)>)
    ensures
        match res {
            Some((a, b)) => split_last(s@, c) == Some((a@, b@)),
            None => split_last(s@, c) is None,
        },
{
    let mut j: usize = s.len();
    while j > 0
        invariant
            j <= s@.len(),
            forall|q: int| j <= q < s@.len() ==> s@[q] != c,
        decreases j,
    {
        if s[j - 1] == c {
            let i = j - 1;
            proof { lemma_split_last_at(s@, c, i as int); }
            let a = slice_chars(s, 0, i);
            let b = slice_chars(s, i + 1, s.len());
            assert(a@ =~= s@.take(i as int));
            assert(b@ =~= s@.skip(i + 1));
            return Some((a, b));
        }
        j -= 1;
    }
    proof { lemma_split_last_none(s@, c); }
    None
}

/// The text cut at every `\n` (the last piece is what follows the last
/// newline, possibly empty).
pub open spec fn split_nl(s: Seq<char>) -> Seq<Seq<char>>
    decreases s.len(),
{
    if s.len() == 0 {
        seq![Seq::empty()]
    } else if s.last() == '\n' {
        split_nl(s.drop_last()).push(Seq::empty())
    } else {
        let p = split_nl(s.drop_last());
        p.update(p.len() - 1, p.last().push(s.last()))
    }
}

/// `split_nl` always gives at least one piece.
pub proof fn lemma_split_nl_nonempty(s: Seq<char>)
    ensures
        split_nl(s).len() >= 1,
    decreases s.len(),
{
    if s.len() > 0 {
        lemma_split_nl_nonempty(s.drop_last());
    }
}


/// The message of an integer parsing error.
pub fn int_error_message(e: IntParseError) -> (res: &'static str)
    ensures
        res@ == int_error_text(e),
{
    match e {
        IntParseError::Empty => "cannot parse integer from empty string",
        IntParseError::InvalidDigit => "invalid digit found in string",
        IntParseError::PosOverflow => "number too large to fit in target type",
    }
}

/// Splitting a text that ends with a newline, then more text: the pieces of
/// the first part (less its empty last piece) followed by those of the rest.
pub proof fn lemma_split_nl_append(t: Seq<char>, u: Seq<char>)
    requires
        t.len() > 0,
        t.last() == '\n',
    ensures
        split_nl(t + u) == split_nl(t).drop_last() + split_nl(u),
    decreases u.len(),
{
    if u.len() == 0 {
        assert(t + u =~= t);
        assert(split_nl(t) == split_nl(t.drop_last()).push(Seq::empty()));
        assert(split_nl(t).drop_last() + split_nl(u) =~= split_nl(t));
    } else {
        lemma_split_nl_append(t, u.drop_last());
        assert((t + u).drop_last() =~= t + u.drop_last());
        assert((t + u).last() == u.last());
        lemma_split_nl_nonempty(u.drop_last());
        let a = split_nl(t).drop_last();
        let b = split_nl(u.drop_last());
        if u.last() == '\n' {
            assert((a + b).push(Seq::empty()) =~= a + b.push(Seq::empty()));
        } else {
            let ab = a + b;
            assert(ab.update(ab.len() - 1, ab.last().push(u.last())) =~= a + b.update(
                b.len() - 1,
                b.last().push(u.last()),
            ));
        }
    }
}

/// The pieces of a text with no newline: the text itself.
pub proof fn lemma_split_nl_single(s: Seq<char>)
    requires
        forall|i: int| 0 <= i < s.len() ==> s[i] != '\n',
    ensures
        split_nl(s) == seq![s],
    decreases s.len(),
{
    if s.len() > 0 {
        lemma_split_nl_single(s.drop_last());
        assert(s.drop_last().push(s.last()) =~= s);
        assert(seq![s.drop_last()].update(0, s.drop_last().push(s.last())) =~= seq![s]);
    } else {
        assert(s =~= Seq::<char>::empty());
    }
}


/// A digit character reads back as its value.
pub proof fn lemma_digit_roundtrip(d: nat)
    requires
        d < 10,
    ensures
        is_digit(digit_char(d)),
        digit_value(digit_char(d)) == d,
{
    let u: u32 = (48 + d) as u32;
    assert(u == 48 + d);
    assert((u as char) as u32 == u);
}

/// The decimal text of a number is non-empty and made of digits.
pub proof fn lemma_decimal_digits(n: nat)
    ensures
        decimal(n).len() >= 1,
        forall|i: int| 0 <= i < decimal(n).len() ==> is_digit(#[trigger] decimal(n)[i]),
    decreases n,
{
    lemma_digit_roundtrip(n % 10);
    if n >= 10 {
        lemma_decimal_digits(n / 10);
    }
}

/// Scanning one more character continues from where the scan stood.
pub proof fn lemma_scan_push(s: Seq<char>, c: char, acc: nat)
    ensures
        scan_u16(s.push(c), acc) == match scan_u16(s, acc) {
            Ok(v) => if !is_digit(c) {
                Err(IntParseError::InvalidDigit)
            } else if v * 10 + digit_value(c) > 65535 {
                Err(IntParseError::PosOverflow)
            } else {
                Ok(v * 10 + digit_value(c))
            },
            Err(e) => Err(e),
        },
    decreases s.len(),
{
    reveal_with_fuel(scan_u16, 2);
    if s.len() == 0 {
        assert(s.push(c).drop_first() =~= Seq::<char>::empty());
        assert(s.push(c)[0] == c);
    } else {
        assert(s.push(c).drop_first() =~= s.drop_first().push(c));
        assert(s.push(c)[0] == s[0]);
        if is_digit(s[0]) && acc * 10 + digit_value(s[0]) <= 65535 {
            lemma_scan_push(s.drop_first(), c, acc * 10 + digit_value(s[0]));
        }
    }
}

/// The decimal text of a port number reads back as the number.
pub proof fn lemma_parse_decimal(n: nat)
    requires
        n <= 65535,
    ensures
        parse_u16_spec(decimal(n)) == Ok::<u16, IntParseError>(n as u16),
{
    lemma_scan_decimal(n);
    lemma_decimal_digits(n);
    assert(is_digit(decimal(n)[0]));
}

proof fn lemma_scan_decimal(n: nat)
    requires
        n <= 65535,
    ensures
        scan_u16(decimal(n), 0) == Ok::<nat, IntParseError>(n),
    decreases n,
{
    lemma_digit_roundtrip(n % 10);
    if n < 10 {
        reveal_with_fuel(scan_u16, 2);
        assert(decimal(n) == seq![digit_char(n)]);
        assert(decimal(n).drop_first() =~= Seq::<char>::empty());
    } else {
        lemma_scan_decimal(n / 10);
        lemma_scan_push(decimal(n / 10), digit_char(n % 10), 0);
    }
}

/// A text that neither starts nor ends with white space trims to itself.
pub proof fn lemma_trim_id(s: Seq<char>)
    requires
        s.len() > 0,
        !is_white(s[0]),
        !is_white(s.last()),
    ensures
        trim(s) == s,
{
}

/// Trimming gives a piece of the text that, when not empty, neither starts
/// nor ends with white space.
pub proof fn lemma_trim_piece(s: Seq<char>)
    ensures
        exists|lo: int, hi: int| 0 <= lo <= hi <= s.len() && trim(s) == s.subrange(lo, hi),
        trim(s).len() > 0 ==> !is_white(trim(s)[0]) && !is_white(trim(s).last()),
{
    let (lo, hi) = lemma_trim_bounds(s);
}

proof fn lemma_trim_start_bounds(s: Seq<char>) -> (lo: int)
    ensures
        0 <= lo <= s.len(),
        trim_start(s) == s.subrange(lo, s.len() as int),
        trim_start(s).len() > 0 ==> !is_white(trim_start(s)[0]),
    decreases s.len(),
{
    if s.len() > 0 && is_white(s[0]) {
        let l = lemma_trim_start_bounds(s.drop_first());
        assert(s.drop_first().subrange(l, s.drop_first().len() as int) =~= s.subrange(l + 1, s.len() as int));
        l + 1
    } else {
        assert(s.subrange(0, s.len() as int) =~= s);
        0
    }
}

proof fn lemma_trim_end_bounds(s: Seq<char>) -> (hi: int)
    ensures
        0 <= hi <= s.len(),
        trim_end(s) == s.subrange(0, hi),
        trim_end(s).len() > 0 ==> !is_white(trim_end(s).last()) && trim_end(s)[0] == s[0],
    decreases s.len(),
{
    if s.len() > 0 && is_white(s.last()) {
        let h = lemma_trim_end_bounds(s.drop_last());
        assert(s.drop_last().subrange(0, h) =~= s.subrange(0, h));
        h
    } else {
        assert(s.subrange(0, s.len() as int) =~= s);
        s.len() as int
    }
}

proof fn lemma_trim_bounds(s: Seq<char>) -> (r: (int, int))
    ensures
        0 <= r.0 <= r.1 <= s.len(),
        trim(s) == s.subrange(r.0, r.1),
        trim(s).len() > 0 ==> !is_white(trim(s)[0]) && !is_white(trim(s).last()),
{
    let lo = lemma_trim_start_bounds(s);
    let t = trim_start(s);
    let h = lemma_trim_end_bounds(t);
    assert(t.subrange(0, h) =~= s.subrange(lo, lo + h));
    (lo, lo + h)
}

/// What `split_first` gives puts the text back together around the first
/// `c`.
pub proof fn lemma_split_first_parts(s: Seq<char>, c: char)
    ensures
        split_first(s, c) matches Some((a, b)) ==> s == a + seq![c] + b && forall|i: int| 0 <= i < a.len() ==> a[i] != c,
    decreases s.len(),
{
    if s.len() > 0 {
        lemma_split_first_parts(s.drop_first(), c);
        if s[0] == c {
            assert(s =~= Seq::<char>::empty() + seq![c] + s.drop_first());
        } else if let Some((a, b)) = split_first(s.drop_first(), c) {
            assert(s.drop_first() == a + seq![c] + b);
            assert(s =~= seq![s[0]] + s.drop_first());
            assert(s =~= (seq![s[0]] + a) + seq![c] + b);
            assert(forall|i: int| 0 < i < a.len() + 1 ==> (seq![s[0]] + a)[i] == a[i - 1]);
        }
    }
}

/// What `split_last` gives puts the text back together around the last
/// `c`.
pub proof fn lemma_split_last_parts(s: Seq<char>, c: char)
    ensures
        split_last(s, c) matches Some((a, b)) ==> s == a + seq![c] + b && forall|i: int| 0 <= i < b.len() ==> b[i] != c,
    decreases s.len(),
{
    if s.len() > 0 {
        lemma_split_last_parts(s.drop_last(), c);
        if s.last() == c {
            assert(s =~= s.drop_last() + seq![c] + Seq::<char>::empty());
        } else if let Some((a, b)) = split_last(s.drop_last(), c) {
            assert(s.drop_last() == a + seq![c] + b);
            assert(s =~= s.drop_last().push(s.last()));
            assert(s =~= a + seq![c] + b.push(s.last()));
        }
    }
}

/// No piece of `split_nl` holds a newline.
pub proof fn lemma_split_nl_pieces(s: Seq<char>)
    ensures
        forall|k: int, i: int| 0 <= k < split_nl(s).len() && 0 <= i < split_nl(s)[k].len() ==> #[trigger] split_nl(s)[k][i] != '\n',
    decreases s.len(),
{
    if s.len() > 0 {
        lemma_split_nl_pieces(s.drop_last());
        lemma_split_nl_nonempty(s.drop_last());
    }
}


/// Reads bytes as UTF-8 text. Calls `std::str::from_utf8`, which the
/// standard library documents as failing exactly on bytes that are not
/// valid UTF-8.
#[verifier::external_body]
pub(crate) fn utf8_text(bytes: &[u8]) -> (res: Option<String>)
    ensures
        res is Some <==> vstd::utf8::valid_utf8(bytes@),
        res matches Some(s) ==> s@ == vstd::utf8::decode_utf8(bytes@),
{
    match std::str::from_utf8(bytes) {
        Ok(s) => Some(s.to_string()),
        Err(_) => None,
    }
}

/// `text_lt` is the lexicographic order by code point: `a` comes before
/// `b` exactly when `a` is a proper prefix of `b`, or at the first position
/// where they differ `a` has the smaller character.
pub proof fn law_text_lt_is_lexicographic(a: Seq<char>, b: Seq<char>)
    ensures
        text_lt(a, b) == ((a.len() < b.len() && b.take(a.len() as int) == a) || exists|k: int|
            0 <= k < a.len() && k < b.len() && a.take(k) == b.take(k) && (a[k] as int) < (#[trigger] b[k] as int)),
    decreases a.len(),
{
    let lex = exists|k: int| 0 <= k < a.len() && k < b.len() && a.take(k) == b.take(k) && (a[k] as int) < (#[trigger] b[k] as int);
    if a.len() == 0 {
        assert(b.take(0) =~= a);
    } else if b.len() == 0 {
    } else if a[0] != b[0] {
        if (a[0] as int) < (b[0] as int) {
            assert(a.take(0) =~= b.take(0));
        }
        if lex {
            let k = choose|k: int| 0 <= k < a.len() && k < b.len() && a.take(k) == b.take(k) && (a[k] as int) < (#[trigger] b[k] as int);
            if k > 0 {
                assert(a.take(k)[0] == b.take(k)[0]);
            }
        }
        if a.len() < b.len() && b.take(a.len() as int) == a {
            assert(b.take(a.len() as int)[0] == a[0]);
        }
    } else {
        let a1 = a.drop_first();
        let b1 = b.drop_first();
        law_text_lt_is_lexicographic(a1, b1);
        let lex1 = exists|k: int| 0 <= k < a1.len() && k < b1.len() && a1.take(k) == b1.take(k) && (a1[k] as int) < (#[trigger] b1[k] as int);
        if lex1 {
            let k = choose|k: int| 0 <= k < a1.len() && k < b1.len() && a1.take(k) == b1.take(k) && (a1[k] as int) < (#[trigger] b1[k] as int);
            assert(a.take(k + 1) =~= seq![a[0]] + a1.take(k));
            assert(b.take(k + 1) =~= seq![b[0]] + b1.take(k));
            assert(a[k + 1] == a1[k] && b[k + 1] == b1[k]);
        }
        if lex {
            let k = choose|k: int| 0 <= k < a.len() && k < b.len() && a.take(k) == b.take(k) && (a[k] as int) < (#[trigger] b[k] as int);
            assert(k > 0);
            assert(a1.take(k - 1) =~= a.take(k).drop_first());
            assert(b1.take(k - 1) =~= b.take(k).drop_first());
            assert(a1[k - 1] == a[k] && b1[k - 1] == b[k]);
        }
        if a.len() < b.len() && b.take(a.len() as int) == a {
            assert(b1.take(a1.len() as int) =~= b.take(a.len() as int).drop_first());
        }
        if a1.len() < b1.len() && b1.take(a1.len() as int) == a1 {
            assert(b.take(a.len() as int) =~= seq![b[0]] + b1.take(a1.len() as int));
            assert(a =~= seq![a[0]] + a1);
        }
    }
}

} // verus!
