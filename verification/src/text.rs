//! Character and decimal helpers shared by the rest of the library.

use vstd::prelude::*;

verus! {

// ---------------------------------------------------------------------------
// Searching and splitting sequences
// ---------------------------------------------------------------------------

/// The first index at or after `i` where `x` occurs in `s`, or `s.len()`.
pub open spec fn find_from<T>(s: Seq<T>, x: T, i: int) -> int
    decreases s.len() - i,
{
    if i < 0 || i >= s.len() {
        s.len() as int
    } else if s[i] == x {
        i
    } else {
        find_from(s, x, i + 1)
    }
}

/// Facts about `find_from`: it lands between `i` and the end, skips only
/// other elements, and stops on an occurrence of `x`.
pub proof fn lemma_find_from<T>(s: Seq<T>, x: T, i: int)
    requires
        0 <= i <= s.len(),
    ensures
        i <= find_from(s, x, i) <= s.len(),
        forall|k: int| i <= k < find_from(s, x, i) ==> s[k] != x,
        find_from(s, x, i) < s.len() ==> s[find_from(s, x, i)] == x,
    decreases s.len() - i,
{
    if i < s.len() && s[i] != x {
        lemma_find_from(s, x, i + 1);
    }
}

/// Whether `x` occurs in `s` (the search from the start stops before the end).
pub open spec fn occurs<T>(s: Seq<T>, x: T) -> bool {
    find_from(s, x, 0) < s.len()
}

/// The pieces of `s[i..]` between occurrences of `sep` (as `str::split`).
pub open spec fn split_from(s: Seq<char>, sep: char, i: int) -> Seq<Seq<char>>
    decreases s.len() - i,
{
    if i < 0 || i > s.len() {
        Seq::empty()
    } else {
        let j = find_from(s, sep, i);
        if j >= s.len() {
            seq![s.subrange(i, s.len() as int)]
        } else {
            proof {
                lemma_find_from(s, sep, i);
            }
            seq![s.subrange(i, j)] + split_from(s, sep, j + 1)
        }
    }
}

/// The pieces of `s` between occurrences of `sep`, as `str::split` yields them.
pub open spec fn split_chars(s: Seq<char>, sep: char) -> Seq<Seq<char>> {
    split_from(s, sep, 0)
}

/// The part of `s` before the first `sep` (all of `s` when there is none).
pub open spec fn before_first(s: Seq<char>, sep: char) -> Seq<char> {
    s.subrange(0, find_from(s, sep, 0))
}

/// The part of `s` after the first `sep`, if there is one.
pub open spec fn after_first(s: Seq<char>, sep: char) -> Option<Seq<char>> {
    if occurs(s, sep) {
        Some(s.subrange(find_from(s, sep, 0) + 1, s.len() as int))
    } else {
        None
    }
}

/// Index of the first `x` in `v` at or after `from`.
pub fn find_char(v: &Vec<char>, x: char, from: usize) -> (r: usize)
    requires
        from <= v@.len(),
    ensures
        r == find_from(v@, x, from as int),
{
    let mut i = from;
    while i < v.len()
        invariant
            from <= i <= v@.len(),
            find_from(v@, x, from as int) == find_from(v@, x, i as int),
        decreases v@.len() - i,
    {
        if v[i] == x {
            return i;
        }
        i += 1;
    }
    i
}

/// Index of the first byte `x` in `v` at or after `from`.
pub fn find_byte(v: &[u8], x: u8, from: usize) -> (r: usize)
    requires
        from <= v@.len(),
    ensures
        r == find_from(v@, x, from as int),
{
    let mut i = from;
    while i < v.len()
        invariant
            from <= i <= v@.len(),
            find_from(v@, x, from as int) == find_from(v@, x, i as int),
        decreases v@.len() - i,
    {
        if v[i] == x {
            return i;
        }
        i += 1;
    }
    i
}

// ---------------------------------------------------------------------------
// Strings and character vectors
// ---------------------------------------------------------------------------

/// Appends one character to a string (`String::push`).
#[verifier::external_body]
pub(crate) fn push_char(s: &mut String, c: char)
    ensures
        final(s)@ == old(s)@.push(c),
{
    s.push(c);
}

/// `std::str::from_utf8`. Claims: it succeeds exactly on valid UTF-8, and the
/// text it gives encodes back to the same bytes.
#[verifier::external_body]
pub(crate) fn utf8_text(bytes: &[u8]) -> (r: Option<&str>)
    ensures
        r is Some <==> vstd::utf8::valid_utf8(bytes@),
        r matches Some(s) ==> vstd::utf8::encode_utf8(s@) == bytes@,
{
    std::str::from_utf8(bytes).ok()
}

/// The characters of a string slice, in order.
pub fn chars_of(s: &str) -> (v: Vec<char>)
    ensures
        v@ == s@,
{
    let mut v: Vec<char> = Vec::new();
    for c in it: s.chars()
        invariant
            v@ == it.seq().take(it.index() as int),
            it.seq() == s@,
    {
        v.push(c);
    }
    v
}

/// A string holding `v[from..to]`.
pub fn string_from_range(v: &Vec<char>, from: usize, to: usize) -> (s: String)
    requires
        from <= to <= v@.len(),
    ensures
        s@ == v@.subrange(from as int, to as int),
{
    let mut s = String::new();
    let mut i = from;
    while i < to
        invariant
            from <= i <= to <= v@.len(),
            s@ == v@.subrange(from as int, i as int),
        decreases to - i,
    {
        push_char(&mut s, v[i]);
        assert(v@.subrange(from as int, i + 1) == v@.subrange(from as int, i as int).push(v@[i as int]));
        i += 1;
    }
    s
}

/// Appends the characters of `v` to `s`.
pub fn push_all(s: &mut String, v: &str)
    ensures
        final(s)@ == old(s)@ + v@,
{
    s.append(v);
}

/// Whether two character vectors are equal.
pub fn chars_eq(a: &Vec<char>, b: &Vec<char>) -> (r: bool)
    ensures
        r == (a@ == b@),
{
    if a.len() != b.len() {
        return false;
    }
    let mut i: usize = 0;
    while i < a.len()
        invariant
            a@.len() == b@.len(),
            i <= a@.len(),
            forall|k: int| 0 <= k < i ==> a@[k] == b@[k],
        decreases a@.len() - i,
    {
        if a[i] != b[i] {
            return false;
        }
        i += 1;
    }
    assert(a@ =~= b@);
    true
}

/// Whether two string slices hold the same characters.
pub fn str_eq(a: &str, b: &str) -> (r: bool)
    ensures
        r == (a@ == b@),
{
    let va = chars_of(a);
    let vb = chars_of(b);
    chars_eq(&va, &vb)
}

/// Whether `s` begins with `prefix`.
pub open spec fn starts_with(s: Seq<char>, prefix: Seq<char>) -> bool {
    prefix.len() <= s.len() && s.subrange(0, prefix.len() as int) == prefix
}

/// Whether `s` begins with `prefix` (`str::starts_with` on character data).
pub fn chars_start_with(s: &Vec<char>, prefix: &str) -> (r: bool)
    ensures
        r == starts_with(s@, prefix@),
{
    let p = chars_of(prefix);
    if p.len() > s.len() {
        return false;
    }
    let mut i: usize = 0;
    while i < p.len()
        invariant
            p@ == prefix@,
            p@.len() <= s@.len(),
            i <= p@.len(),
            forall|k: int| 0 <= k < i ==> s@[k] == p@[k],
        decreases p@.len() - i,
    {
        if s[i] != p[i] {
            assert(s@.subrange(0, p@.len() as int)[i as int] != p@[i as int]);
            return false;
        }
        i += 1;
    }
    assert(s@.subrange(0, p@.len() as int) =~= p@);
    true
}

/// Whether `needle` occurs as a contiguous run inside `s`.
pub open spec fn contains_run(s: Seq<char>, needle: Seq<char>) -> bool {
    exists|i: int| 0 <= i <= s.len() - needle.len() && #[trigger] s.subrange(i, i + needle.len()) == needle
}

// ---------------------------------------------------------------------------
// ASCII classes
// ---------------------------------------------------------------------------

/// `char::is_ascii_digit`.
pub open spec fn is_digit(c: char) -> bool {
    '0' <= c && c <= '9'
}

/// `char::is_ascii_hexdigit`.
pub open spec fn is_hex_digit(c: char) -> bool {
    ('0' <= c && c <= '9') || ('a' <= c && c <= 'f') || ('A' <= c && c <= 'F')
}

/// `char::to_ascii_lowercase`.
pub open spec fn ascii_lower(c: char) -> char {
    if 'A' <= c && c <= 'Z' {
        ((c as u32) + 32) as char
    } else {
        c
    }
}

pub fn is_hex_digit_exec(c: char) -> (r: bool)
    ensures
        r == is_hex_digit(c),
{
    ('0' <= c && c <= '9') || ('a' <= c && c <= 'f') || ('A' <= c && c <= 'F')
}

pub fn ascii_lower_exec(c: char) -> (r: char)
    ensures
        r == ascii_lower(c),
{
    if 'A' <= c && c <= 'Z' {
        let u = (c as u32) + 32;
        assert('a' <= u && u <= 'z');
        char_from_ascii_code(u)
    } else {
        c
    }
}

/// The character with an ASCII code (`char::from_u32` on a code below 128).
fn char_from_ascii_code(u: u32) -> (c: char)
    requires
        u < 128,
    ensures
        c == u as char,
{
    (u as u8) as char
}

/// Equality up to ASCII case (`str::eq_ignore_ascii_case`).
pub open spec fn eq_ignore_ascii_case(a: Seq<char>, b: Seq<char>) -> bool {
    a.len() == b.len() && forall|k: int| 0 <= k < a.len() ==> ascii_lower(#[trigger] a[k]) == ascii_lower(b[k])
}

pub fn chars_eq_ignore_ascii_case(a: &Vec<char>, b: &str) -> (r: bool)
    ensures
        r == eq_ignore_ascii_case(a@, b@),
{
    let vb = chars_of(b);
    if a.len() != vb.len() {
        return false;
    }
    let mut i: usize = 0;
    while i < a.len()
        invariant
            vb@ == b@,
            a@.len() == vb@.len(),
            i <= a@.len(),
            forall|k: int| 0 <= k < i ==> ascii_lower(#[trigger] a@[k]) == ascii_lower(vb@[k]),
        decreases a@.len() - i,
    {
        if ascii_lower_exec(a[i]) != ascii_lower_exec(vb[i]) {
            return false;
        }
        i += 1;
    }
    true
}

/// Keeps the hex-digit characters of `s`, at most `n` of them, in order.
pub open spec fn hex_filter_take(s: Seq<char>, n: nat) -> Seq<char>
    decreases s.len(),
{
    if s.len() == 0 || n == 0 {
        Seq::empty()
    } else if is_hex_digit(s[0]) {
        seq![s[0]] + hex_filter_take(s.drop_first(), (n - 1) as nat)
    } else {
        hex_filter_take(s.drop_first(), n)
    }
}

// ---------------------------------------------------------------------------
// Decimal numbers
// ---------------------------------------------------------------------------

/// The ASCII digit for a value below ten.
pub open spec fn digit_char(d: nat) -> char {
    (('0' as u32) + d) as char
}

/// The value of an ASCII digit.
pub open spec fn digit_value(c: char) -> nat {
    ((c as u32) - ('0' as u32)) as nat
}

/// Decimal digits of a natural number, most significant first, without leading zeros.
pub open spec fn decimal(n: nat) -> Seq<char>
    decreases n,
{
    if n < 10 {
        seq![digit_char(n)]
    } else {
        decimal(n / 10).push(digit_char(n % 10))
    }
}

/// Decimal text of a signed integer, with a leading `-` for negative values.
pub open spec fn signed_decimal(n: int) -> Seq<char> {
    if n < 0 {
        seq!['-'] + decimal((-n) as nat)
    } else {
        decimal(n as nat)
    }
}

/// Whether every character of `s` is an ASCII digit.
pub open spec fn all_digits(s: Seq<char>) -> bool {
    forall|k: int| 0 <= k < s.len() ==> is_digit(#[trigger] s[k])
}

/// The value of a string of ASCII digits.
pub open spec fn digits_value(s: Seq<char>) -> nat
    decreases s.len(),
{
    if s.len() == 0 {
        0
    } else {
        digits_value(s.drop_last()) * 10 + digit_value(s.last())
    }
}

/// The digits that follow an optional leading sign character `sign`.
pub open spec fn unsigned_body(s: Seq<char>) -> Seq<char> {
    if s.len() > 0 && s[0] == '+' {
        s.drop_first()
    } else {
        s
    }
}

/// What `from_str` of an unsigned integer type whose largest value is `max`
/// returns: an optional `+`, then at least one digit, and a value that fits.
pub open spec fn parse_unsigned(s: Seq<char>, max: nat) -> Option<nat> {
    let body = unsigned_body(s);
    if body.len() > 0 && all_digits(body) && digits_value(body) <= max {
        Some(digits_value(body))
    } else {
        None
    }
}

/// What `i64::from_str` returns: an optional sign, at least one digit, and a
/// value in the range of `i64`.
pub open spec fn parse_i64_spec(s: Seq<char>) -> Option<int> {
    if s.len() > 0 && s[0] == '-' {
        let body = s.drop_first();
        if body.len() > 0 && all_digits(body) && digits_value(body) <= 0x8000_0000_0000_0000 {
            Some(-(digits_value(body) as int))
        } else {
            None
        }
    } else {
        match parse_unsigned(s, 0x7fff_ffff_ffff_ffff) {
            Some(v) => Some(v as int),
            None => None,
        }
    }
}

proof fn lemma_digits_value_take(s: Seq<char>, i: int)
    requires
        0 <= i < s.len(),
    ensures
        digits_value(s.take(i + 1)) == digits_value(s.take(i)) * 10 + digit_value(s[i]),
{
    assert(s.take(i + 1).drop_last() =~= s.take(i));
}

proof fn lemma_digits_value_grows(s: Seq<char>, i: int, j: int)
    requires
        0 <= i <= j <= s.len(),
        all_digits(s),
    ensures
        digits_value(s.take(i)) <= digits_value(s.take(j)),
    decreases j - i,
{
    if i < j {
        lemma_digits_value_grows(s, i, j - 1);
        lemma_digits_value_take(s, j - 1);
    }
}

/// Parses the digits of `v[from..]` as an unsigned value no larger than `max`.
fn parse_digits(v: &Vec<char>, from: usize, max: u64) -> (r: Option<u64>)
    requires
        from <= v@.len(),
    ensures
        ({
            let body = v@.subrange(from as int, v@.len() as int);
            r == (if body.len() > 0 && all_digits(body) && digits_value(body) <= max {
                Some(digits_value(body) as u64)
            } else {
                None
            })
        }),
{
    let ghost body = v@.subrange(from as int, v@.len() as int);
    if from == v.len() {
        return None;
    }
    let mut acc: u64 = 0;
    let mut i = from;
    while i < v.len()
        invariant
            from <= i <= v@.len(),
            body == v@.subrange(from as int, v@.len() as int),
            all_digits(body.take(i - from)),
            acc == digits_value(body.take(i - from)),
            acc <= max,
        decreases v@.len() - i,
    {
        let c = v[i];
        if !('0' <= c && c <= '9') {
            assert(body[i - from] == c);
            return None;
        }
        let d = (c as u32 - '0' as u32) as u64;
        proof {
            lemma_digits_value_take(body, i - from);
            assert(body.take(i - from + 1).drop_last() =~= body.take(i - from));
            assert forall|k: int| 0 <= k < body.take(i - from + 1).len() implies is_digit(#[trigger] body.take(i - from + 1)[k]) by {
                if k < i - from {
                    assert(body.take(i - from + 1)[k] == body.take(i - from)[k]);
                }
            }
        }
        if d > max || acc > (max - d) / 10 {
            proof {
                // the value only grows from here, or a later character is not a digit
                if d <= max {
                    assert(acc * 10 + d > max) by (nonlinear_arith)
                        requires acc > (max - d) / 10, d <= max;
                }
                if all_digits(body) {
                    lemma_digits_value_grows(body, i - from + 1, body.len() as int);
                    assert(body.take(body.len() as int) =~= body);
                }
            }
            return None;
        }
        acc = acc * 10 + d;
        i += 1;
    }
    assert(body.take(i - from) =~= body);
    Some(acc)
}

/// `u64::from_str`, limited to values no larger than `max` (as `u16`, `u32`
/// and `u64` parsing do with their own bounds).
pub fn parse_unsigned_chars(v: &Vec<char>, max: u64) -> (r: Option<u64>)
    ensures
        r == (match parse_unsigned(v@, max as nat) {
            Some(n) => Some(n as u64),
            None => None,
        }),
{
    let from: usize = if v.len() > 0 && v[0] == '+' { 1 } else { 0 };
    let r = parse_digits(v, from, max);
    proof {
        if from == 1 {
            assert(v@.drop_first() =~= v@.subrange(1, v@.len() as int));
        } else {
            assert(v@ =~= v@.subrange(0, v@.len() as int));
        }
    }
    r
}

/// `u64::from_str`.
pub fn parse_u64(s: &str) -> (r: Option<u64>)
    ensures
        r == (match parse_unsigned(s@, u64::MAX as nat) {
            Some(n) => Some(n as u64),
            None => None,
        }),
{
    let v = chars_of(s);
    parse_unsigned_chars(&v, u64::MAX)
}

/// `u16::from_str`.
pub fn parse_u16(s: &str) -> (r: Option<u16>)
    ensures
        r == (match parse_unsigned(s@, u16::MAX as nat) {
            Some(n) => Some(n as u16),
            None => None,
        }),
{
    let v = chars_of(s);
    match parse_unsigned_chars(&v, u16::MAX as u64) {
        Some(n) => Some(n as u16),
        None => None,
    }
}

/// `i64::from_str`.
pub fn parse_i64(s: &str) -> (r: Option<i64>)
    ensures
        r == (match parse_i64_spec(s@) {
            Some(n) => Some(n as i64),
            None => None,
        }),
{
    let v = chars_of(s);
    if v.len() > 0 && v[0] == '-' {
        let r = parse_digits(&v, 1, 0x8000_0000_0000_0000u64);
        assert(v@.drop_first() =~= v@.subrange(1, v@.len() as int));
        match r {
            Some(m) => {
                if m == 0x8000_0000_0000_0000u64 {
                    Some(i64::MIN)
                } else {
                    Some(-(m as i64))
                }
            },
            None => None,
        }
    } else {
        match parse_unsigned_chars(&v, 0x7fff_ffff_ffff_ffffu64) {
            Some(n) => Some(n as i64),
            None => None,
        }
    }
}

proof fn lemma_decimal_len(n: nat)
    ensures
        decimal(n).len() >= 1,
    decreases n,
{
    if n >= 10 {
        lemma_decimal_len(n / 10);
    }
}

/// Decimal text of an unsigned integer (`u64::to_string`).
pub fn u64_to_decimal(n: u64) -> (s: String)
    ensures
        s@ == decimal(n as nat),
    decreases n,
{
    let d = (n % 10) as u32;
    let c = char_from_ascii_code('0' as u32 + d);
    if n < 10 {
        let mut s = String::new();
        push_char(&mut s, c);
        assert(s@ =~= decimal(n as nat));
        s
    } else {
        let mut s = u64_to_decimal(n / 10);
        push_char(&mut s, c);
        s
    }
}

/// Decimal text of a signed integer (`i64::to_string`).
pub fn i64_to_decimal(n: i64) -> (s: String)
    ensures
        s@ == signed_decimal(n as int),
{
    if n < 0 {
        let m: u64 = if n == i64::MIN { 0x8000_0000_0000_0000u64 } else { (-n) as u64 };
        let digits = u64_to_decimal(m);
        let mut s = String::new();
        push_char(&mut s, '-');
        push_all(&mut s, digits.as_str());
        assert(s@ =~= signed_decimal(n as int));
        s
    } else {
        u64_to_decimal(n as u64)
    }
}

// ---------------------------------------------------------------------------
// Hexadecimal text
// ---------------------------------------------------------------------------

/// The lowercase hex digit for a value below sixteen.
pub open spec fn hex_digit_lower(d: nat) -> char {
    if d < 10 {
        digit_char(d)
    } else {
        (('a' as u32) + (d - 10)) as char
    }
}

/// Lowercase hex text of a byte string, two digits per byte.
pub open spec fn hex_lower(bytes: Seq<u8>) -> Seq<char>
    decreases bytes.len(),
{
    if bytes.len() == 0 {
        Seq::empty()
    } else {
        hex_lower(bytes.drop_last()) + seq![
            hex_digit_lower((bytes.last() / 16) as nat),
            hex_digit_lower((bytes.last() % 16) as nat),
        ]
    }
}

fn hex_digit_lower_exec(d: u8) -> (c: char)
    requires
        d < 16,
    ensures
        c == hex_digit_lower(d as nat),
{
    if d < 10 {
        char_from_ascii_code('0' as u32 + d as u32)
    } else {
        char_from_ascii_code('a' as u32 + (d as u32 - 10))
    }
}

/// Lowercase hex text of a byte string.
pub fn bytes_to_hex_lower(bytes: &[u8]) -> (s: String)
    ensures
        s@ == hex_lower(bytes@),
{
    let mut s = String::new();
    let mut i: usize = 0;
    while i < bytes.len()
        invariant
            i <= bytes@.len(),
            s@ == hex_lower(bytes@.take(i as int)),
        decreases bytes@.len() - i,
    {
        let b = bytes[i];
        push_char(&mut s, hex_digit_lower_exec(b / 16));
        push_char(&mut s, hex_digit_lower_exec(b % 16));
        proof {
            assert(bytes@.take(i + 1).drop_last() =~= bytes@.take(i as int));
            assert(s@ =~= hex_lower(bytes@.take(i + 1)));
        }
        i += 1;
    }
    assert(bytes@.take(i as int) =~= bytes@);
    s
}

} // verus!

verus! {

/// A new vector holding `v[from..to]`.
pub fn bytes_range(v: &[u8], from: usize, to: usize) -> (r: Vec<u8>)
    requires
        from <= to <= v@.len(),
    ensures
        r@ == v@.subrange(from as int, to as int),
{
    let mut r: Vec<u8> = Vec::new();
    let mut i = from;
    while i < to
        invariant
            from <= i <= to <= v@.len(),
            r@ == v@.subrange(from as int, i as int),
        decreases to - i,
    {
        r.push(v[i]);
        assert(v@.subrange(from as int, i + 1) =~= v@.subrange(from as int, i as int).push(v@[i as int]));
        i += 1;
    }
    r
}

/// Appends all of `b` to `a`.
pub fn extend_bytes(a: &mut Vec<u8>, b: &[u8])
    ensures
        final(a)@ == old(a)@ + b@,
{
    let mut i: usize = 0;
    while i < b.len()
        invariant
            i <= b@.len(),
            a@ == old(a)@ + b@.subrange(0, i as int),
        decreases b@.len() - i,
    {
        a.push(b[i]);
        assert(b@.subrange(0, i + 1) =~= b@.subrange(0, i as int).push(b@[i as int]));
        i += 1;
    }
    assert(b@.subrange(0, b@.len() as int) =~= b@);
}

} // verus!

verus! {

/// Searching a sub-range from its start finds the same occurrence as
/// searching the whole sequence from the sub-range's start, cut off at its end.
pub proof fn lemma_find_in_subrange<T>(s: Seq<T>, x: T, i: int, j: int)
    requires
        0 <= i <= j <= s.len(),
    ensures
        find_from(s.subrange(i, j), x, 0) == (if find_from(s, x, i) < j {
            find_from(s, x, i)
        } else {
            j
        }) - i,
{
    let t = s.subrange(i, j);
    lemma_find_from(s, x, i);
    lemma_find_from(t, x, 0);
    let a = find_from(s, x, i);
    let b = find_from(t, x, 0);
    if b < t.len() {
        assert(t[b] == s[i + b]);
        if a < i + b {
            assert(t[a - i] == s[a]);
        }
    } else {
        if a < j {
            assert(t[a - i] == s[a]);
        }
    }
}

/// Whether `v[from..to]` holds exactly the characters of `w`.
pub fn range_eq(v: &Vec<char>, from: usize, to: usize, w: &Vec<char>) -> (r: bool)
    requires
        from <= to <= v@.len(),
    ensures
        r == (v@.subrange(from as int, to as int) == w@),
{
    if to - from != w.len() {
        return false;
    }
    let mut k: usize = 0;
    while k < w.len()
        invariant
            from <= to <= v@.len(),
            to - from == w@.len(),
            k <= w@.len(),
            forall|m: int| 0 <= m < k ==> v@[from + m] == w@[m],
        decreases w@.len() - k,
    {
        if v[from + k] != w[k] {
            assert(v@.subrange(from as int, to as int)[k as int] != w@[k as int]);
            return false;
        }
        k += 1;
    }
    assert(v@.subrange(from as int, to as int) =~= w@);
    true
}

} // verus!

verus! {

/// The first index at or after `i` where `pat` occurs in `s`, or `s.len()`.
pub open spec fn find_seq_from(s: Seq<char>, pat: Seq<char>, i: int) -> int
    decreases s.len() - i,
{
    if i < 0 || i >= s.len() || i + pat.len() > s.len() {
        s.len() as int
    } else if s.subrange(i, i + pat.len()) == pat {
        i
    } else {
        find_seq_from(s, pat, i + 1)
    }
}

/// The last index where `x` occurs in `s`, or -1.
pub open spec fn find_last(s: Seq<char>, x: char) -> int
    decreases s.len(),
{
    if s.len() == 0 {
        -1
    } else if s.last() == x {
        s.len() - 1
    } else {
        find_last(s.drop_last(), x)
    }
}

pub proof fn lemma_find_seq_from(s: Seq<char>, pat: Seq<char>, i: int)
    requires
        0 <= i <= s.len(),
    ensures
        i <= find_seq_from(s, pat, i) <= s.len(),
        find_seq_from(s, pat, i) < s.len() ==> find_seq_from(s, pat, i) + pat.len() <= s.len(),
    decreases s.len() - i,
{
    if i < s.len() && i + pat.len() <= s.len() && s.subrange(i, i + pat.len()) != pat {
        lemma_find_seq_from(s, pat, i + 1);
    }
}

pub proof fn lemma_find_last(s: Seq<char>, x: char)
    ensures
        -1 <= find_last(s, x) < s.len(),
        find_last(s, x) >= 0 ==> s[find_last(s, x)] == x,
    decreases s.len(),
{
    if s.len() > 0 && s.last() != x {
        lemma_find_last(s.drop_last(), x);
    }
}

/// Index of the first occurrence of `pat` in `v` at or after `from`.
pub fn find_seq(v: &Vec<char>, pat: &Vec<char>, from: usize) -> (r: usize)
    requires
        from <= v@.len(),
    ensures
        r == find_seq_from(v@, pat@, from as int),
{
    let mut i = from;
    while i < v.len() && pat.len() <= v.len() - i
        invariant
            from <= i,
            i <= v@.len(),
            find_seq_from(v@, pat@, from as int) == find_seq_from(v@, pat@, i as int),
        decreases v@.len() - i,
    {
        if range_eq(v, i, i + pat.len(), pat) {
            return i;
        }
        i += 1;
    }
    v.len()
}

/// Index of the last `x` in `v`, if any.
pub fn find_last_char(v: &Vec<char>, x: char) -> (r: Option<usize>)
    ensures
        match r {
            Some(k) => k == find_last(v@, x),
            None => find_last(v@, x) == -1,
        },
{
    let mut j = v.len();
    assert(v@.subrange(0, v@.len() as int) =~= v@);
    while j > 0
        invariant
            j <= v@.len(),
            find_last(v@, x) == find_last(v@.subrange(0, j as int), x),
        decreases j,
    {
        if v[j - 1] == x {
            return Some(j - 1);
        }
        assert(v@.subrange(0, j as int).drop_last() =~= v@.subrange(0, j - 1));
        j -= 1;
    }
    None
}


/// The filtered text holds at most `n` characters, all of them hex digits.
pub proof fn lemma_hex_filter_take(s: Seq<char>, n: nat)
    ensures
        hex_filter_take(s, n).len() <= n,
        forall|k: int| 0 <= k < hex_filter_take(s, n).len() ==> is_hex_digit(#[trigger] hex_filter_take(s, n)[k]),
    decreases s.len(),
{
    if s.len() > 0 && n > 0 {
        if is_hex_digit(s[0]) {
            lemma_hex_filter_take(s.drop_first(), (n - 1) as nat);
            let rest = hex_filter_take(s.drop_first(), (n - 1) as nat);
            assert forall|k: int| 0 <= k < hex_filter_take(s, n).len() implies is_hex_digit(#[trigger] hex_filter_take(s, n)[k]) by {
                if k > 0 {
                    assert(hex_filter_take(s, n)[k] == rest[k - 1]);
                }
            }
        } else {
            lemma_hex_filter_take(s.drop_first(), n);
        }
    }
}

} // verus!
