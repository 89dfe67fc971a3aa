//! Text helpers shared by the parsers and formatters: conversions between
//! `str`, `String` and character vectors, decimal and hexadecimal digits.

use vstd::prelude::*;
use vstd::string::StringExecFns;

verus! {

/// Appends one character (`String::push`).
#[verifier::external_body]
pub(crate) fn push_char(s: &mut String, c: char)
    ensures
        final(s)@ == old(s)@.push(c),
{
    s.push(c);
}

/// Decodes UTF-8 bytes (`String::from_utf8`); `None` exactly when the
/// bytes are not valid UTF-8.
#[verifier::external_body]
pub(crate) fn string_from_utf8(bytes: Vec<u8>) -> (r: Option<String>)
    ensures
        r is Some <==> vstd::utf8::valid_utf8(bytes@),
        r matches Some(s) ==> s@ == vstd::utf8::decode_utf8(bytes@),
{
    String::from_utf8(bytes).ok()
}

/// The characters of a string slice.
pub fn chars_of(s: &str) -> (res: Vec<char>)
    ensures
        res@ == s@,
{
    let mut out: Vec<char> = Vec::new();
    for c in it: s.chars()
        invariant
            out@ == it.seq().take(it.index() as int),
            it.seq() == s@,
    {
        out.push(c);
    }
    out
}

/// Appends a character sequence to a string.
pub fn push_chars(out: &mut String, chars: &[char])
    ensures
        final(out)@ == old(out)@ + chars@,
{
    let ghost start = out@;
    let mut i: usize = 0;
    while i < chars.len()
        invariant
            0 <= i <= chars@.len(),
            out@ == start + chars@.take(i as int),
        decreases chars@.len() - i,
    {
        push_char(out, chars[i]);
        assert(chars@.take(i + 1) =~= chars@.take(i as int).push(chars@[i as int]));
        i = i + 1;
    }
    assert(chars@.take(chars@.len() as int) =~= chars@);
}

/// A string holding exactly the given characters.
pub fn string_of(chars: &[char]) -> (res: String)
    ensures
        res@ == chars@,
{
    let mut out = String::new();
    push_chars(&mut out, chars);
    assert(out@ =~= chars@);
    out
}

/// Appends a string slice.
pub fn push_str(out: &mut String, s: &str)
    ensures
        final(out)@ == old(out)@ + s@,
{
    out.append(s);
}

/// A copy of a string slice.
pub fn owned(s: &str) -> (res: String)
    ensures
        res@ == s@,
{
    String::from_str(s)
}

/// Character-wise equality of two string slices.
pub fn str_eq(a: &str, b: &str) -> (r: bool)
    ensures
        r == (a@ == b@),
{
    let x = chars_of(a);
    let y = chars_of(b);
    chars_eq(x.as_slice(), y.as_slice())
}

pub fn chars_eq(x: &[char], y: &[char]) -> (r: bool)
    ensures
        r == (x@ == y@),
{
    if x.len() != y.len() {
        return false;
    }
    let mut i: usize = 0;
    while i < x.len()
        invariant
            0 <= i <= x@.len(),
            x@.len() == y@.len(),
            forall|j: int| 0 <= j < i ==> x@[j] == y@[j],
        decreases x@.len() - i,
    {
        if x[i] != y[i] {
            return false;
        }
        i = i + 1;
    }
    assert(x@ =~= y@);
    true
}

/// Whether `prefix` starts the character sequence `s` at position `at`.
pub open spec fn has_at(s: Seq<char>, at: int, prefix: Seq<char>) -> bool {
    0 <= at && at + prefix.len() <= s.len() && s.subrange(at, at + prefix.len()) == prefix
}

pub fn chars_have_at(s: &[char], at: usize, prefix: &[char]) -> (r: bool)
    ensures
        r == has_at(s@, at as int, prefix@),
{
    if at > s.len() || prefix.len() > s.len() - at {
        return false;
    }
    let _ = s.len();
    let mut i: usize = 0;
    while i < prefix.len()
        invariant
            0 <= i <= prefix@.len(),
            at + prefix@.len() <= s@.len(),
            s@.len() <= usize::MAX,
            forall|j: int| 0 <= j < i ==> s@[at + j] == prefix@[j],
        decreases prefix@.len() - i,
    {
        if s[at + i] != prefix[i] {
            assert(s@.subrange(at as int, at + prefix@.len())[i as int] != prefix@[i as int]);
            return false;
        }
        i = i + 1;
    }
    assert(s@.subrange(at as int, at + prefix@.len()) =~= prefix@);
    true
}

/// Lowercase hexadecimal digit of a value below sixteen.
pub open spec fn hex_digit(d: int) -> char {
    if d < 10 {
        (d + 48) as char
    } else {
        (d - 10 + 97) as char
    }
}

pub open spec fn decimal_digit(d: int) -> char {
    (d + 48) as char
}

/// Decimal rendering without leading zeros.
pub open spec fn decimal(v: nat) -> Seq<char>
    decreases v,
{
    if v < 10 {
        seq![decimal_digit(v as int)]
    } else {
        decimal(v / 10).push(decimal_digit((v % 10) as int))
    }
}

/// Lowercase hexadecimal rendering in exactly `width` digits (high digits
/// beyond the width are dropped).
pub open spec fn hex_fixed(v: nat, width: nat) -> Seq<char>
    decreases width,
{
    if width == 0 {
        Seq::empty()
    } else {
        hex_fixed(v / 16, (width - 1) as nat).push(hex_digit((v % 16) as int))
    }
}

/// Lowercase hexadecimal rendering without leading zeros.
pub open spec fn hex(v: nat) -> Seq<char>
    decreases v,
{
    if v < 16 {
        seq![hex_digit(v as int)]
    } else {
        hex(v / 16).push(hex_digit((v % 16) as int))
    }
}

fn digit_char(d: u64) -> (c: char)
    requires
        d < 16,
    ensures
        c == hex_digit(d as int),
        d < 10 ==> c == decimal_digit(d as int),
{
    if d < 10 {
        ((d as u8) + 48) as char
    } else {
        ((d as u8) - 10 + 97) as char
    }
}

/// Appends the decimal rendering of `v`.
pub fn push_decimal(out: &mut String, v: u64)
    ensures
        final(out)@ == old(out)@ + decimal(v as nat),
    decreases v,
{
    if v >= 10 {
        push_decimal(out, v / 10);
    }
    push_char(out, digit_char(v % 10));
}

/// Appends the fixed-width lowercase hexadecimal rendering of `v`.
pub fn push_hex_fixed(out: &mut String, v: u64, width: u32)
    ensures
        final(out)@ == old(out)@ + hex_fixed(v as nat, width as nat),
    decreases width,
{
    if width == 0 {
        assert(old(out)@ + hex_fixed(v as nat, 0) =~= old(out)@);
        return;
    }
    push_hex_fixed(out, v / 16, width - 1);
    push_char(out, digit_char(v % 16));
}

/// Appends the lowercase hexadecimal rendering of `v`.
pub fn push_hex(out: &mut String, v: u64)
    ensures
        final(out)@ == old(out)@ + hex(v as nat),
    decreases v,
{
    if v >= 16 {
        push_hex(out, v / 16);
    }
    push_char(out, digit_char(v % 16));
}

pub open spec fn is_ascii_digit(c: char) -> bool {
    '0' <= c <= '9'
}

pub open spec fn is_ascii_lower(c: char) -> bool {
    'a' <= c <= 'z'
}

pub open spec fn is_ascii_upper(c: char) -> bool {
    'A' <= c <= 'Z'
}

pub open spec fn is_ascii_alphanumeric(c: char) -> bool {
    is_ascii_digit(c) || is_ascii_lower(c) || is_ascii_upper(c)
}

/// Value of a hexadecimal digit of either case.
pub open spec fn hex_value(c: char) -> Option<nat> {
    if '0' <= c <= '9' {
        Some((c as nat - 48) as nat)
    } else if 'a' <= c <= 'f' {
        Some((c as nat - 97 + 10) as nat)
    } else if 'A' <= c <= 'F' {
        Some((c as nat - 65 + 10) as nat)
    } else {
        None
    }
}

pub fn hex_value_of(c: char) -> (r: Option<u8>)
    ensures
        match hex_value(c) {
            Some(v) => r == Some(v as u8),
            None => r is None,
        },
{
    if '0' <= c && c <= '9' {
        Some(((c as u32) - 48) as u8)
    } else if 'a' <= c && c <= 'f' {
        Some(((c as u32) - 97 + 10) as u8)
    } else if 'A' <= c && c <= 'F' {
        Some(((c as u32) - 65 + 10) as u8)
    } else {
        None
    }
}

/// Value of a digit sequence in the given base, if every character is a
/// digit of that base (any case for hexadecimal).
pub open spec fn digits_value(s: Seq<char>, base: nat) -> Option<nat>
    decreases s.len(),
{
    if s.len() == 0 {
        Some(0)
    } else {
        match (digits_value(s.drop_last(), base), digit_in_base(s.last(), base)) {
            (Some(hi), Some(d)) => Some(hi * base + d),
            _ => None,
        }
    }
}

pub open spec fn digit_in_base(c: char, base: nat) -> Option<nat> {
    match hex_value(c) {
        Some(v) => if v < base {
            Some(v)
        } else {
            None
        },
        None => None,
    }
}

/// Parses an unsigned number written only with digits of `base` (10 or
/// 16), as `u32::from_str_radix` does for non-empty digit strings without a
/// sign; `None` when empty, on a foreign character or above `max`.
pub fn parse_digits(s: &[char], base: u64, max: u64) -> (r: Option<u64>)
    requires
        base == 10 || base == 16,
        max >= 16,
    ensures
        match r {
            Some(v) => s@.len() > 0 && digits_value(s@, base as nat) == Some(v as nat) && v <= max,
            None => s@.len() == 0 || match digits_value(s@, base as nat) {
                Some(v) => v > max,
                None => true,
            },
        },
{
    if s.len() == 0 {
        return None;
    }
    let mut acc: u64 = 0;
    let mut i: usize = 0;
    while i < s.len()
        invariant
            0 <= i <= s@.len(),
            base == 10 || base == 16,
            max >= 16,
            acc <= max,
            digits_value(s@.take(i as int), base as nat) == Some(acc as nat),
        decreases s@.len() - i,
    {
        proof {
            assert(s@.take(i + 1).drop_last() =~= s@.take(i as int));
            assert(s@.take(i + 1).last() == s@[i as int]);
        }
        let d = match hex_value_of(s[i]) {
            Some(d) => d,
            None => {
                proof {
                    lemma_digits_none_extends(s@, base as nat, i + 1);
                }
                return None;
            },
        };
        if (d as u64) >= base {
            proof {
                lemma_digits_none_extends(s@, base as nat, i + 1);
            }
            return None;
        }
        let limit = (max - d as u64) / base;
        if acc > limit {
            proof {
                assert(acc * base + d > max) by (nonlinear_arith)
                    requires
                        acc > limit,
                        limit == (max - d) as int / base as int,
                        base > 0,
                        d <= max,
                ;
                lemma_digits_grow(s@, base as nat, i + 1);
            }
            return None;
        }
        proof {
            assert(acc * base + d <= max) by (nonlinear_arith)
                requires
                    acc <= limit,
                    limit == (max - d) as int / base as int,
                    base > 0,
                    d <= max,
            ;
        }
        acc = acc * base + d as u64;
        i = i + 1;
    }
    assert(s@.take(s@.len() as int) =~= s@);
    Some(acc)
}

proof fn lemma_digits_none_extends(s: Seq<char>, base: nat, k: int)
    requires
        0 < k <= s.len(),
        digits_value(s.take(k), base) is None,
    ensures
        digits_value(s, base) is None,
    decreases s.len() - k,
{
    if k < s.len() {
        assert(s.take(k + 1).drop_last() =~= s.take(k));
        lemma_digits_none_extends(s, base, k + 1);
    } else {
        assert(s.take(k) =~= s);
    }
}

proof fn lemma_digits_grow(s: Seq<char>, base: nat, k: int)
    requires
        0 < k <= s.len(),
        base > 0,
        digits_value(s.take(k), base) matches Some(v) && v > 0,
    ensures
        match digits_value(s, base) {
            Some(w) => w >= digits_value(s.take(k), base)->0,
            None => true,
        },
    decreases s.len() - k,
{
    if k < s.len() {
        assert(s.take(k + 1).drop_last() =~= s.take(k));
        let v = digits_value(s.take(k), base)->0;
        match digits_value(s.take(k + 1), base) {
            Some(w) => {
                assert(w >= v) by (nonlinear_arith)
                    requires
                        base > 0,
                        w >= v * base,
                ;
                lemma_digits_grow(s, base, k + 1);
            },
            None => {
                lemma_digits_none_extends(s, base, k + 1);
            },
        }
    } else {
        assert(s.take(k) =~= s);
    }
}


/// Unicode `White_Space` (what `char::is_whitespace` tests).
pub open spec fn is_whitespace(c: char) -> bool {
    ('\u{9}' <= c <= '\u{d}') || c == ' ' || c == '\u{85}' || c == '\u{a0}' || c == '\u{1680}'
        || ('\u{2000}' <= c <= '\u{200a}') || c == '\u{2028}' || c == '\u{2029}' || c
        == '\u{202f}' || c == '\u{205f}' || c == '\u{3000}'
}

pub fn char_is_whitespace(c: char) -> (r: bool)
    ensures
        r == is_whitespace(c),
{
    ('\u{9}' <= c && c <= '\u{d}') || c == ' ' || c == '\u{85}' || c == '\u{a0}' || c == '\u{1680}'
        || ('\u{2000}' <= c && c <= '\u{200a}') || c == '\u{2028}' || c == '\u{2029}' || c
        == '\u{202f}' || c == '\u{205f}' || c == '\u{3000}'
}

/// The sequence without leading whitespace (`str::trim_start`).
pub open spec fn trim_start(s: Seq<char>) -> Seq<char>
    decreases s.len(),
{
    if s.len() > 0 && is_whitespace(s[0]) {
        trim_start(s.drop_first())
    } else {
        s
    }
}

/// The sequence without trailing whitespace (`str::trim_end`).
pub open spec fn trim_end(s: Seq<char>) -> Seq<char>
    decreases s.len(),
{
    if s.len() > 0 && is_whitespace(s.last()) {
        trim_end(s.drop_last())
    } else {
        s
    }
}

/// Whitespace removed at both ends (`str::trim`).
pub open spec fn trim(s: Seq<char>) -> Seq<char> {
    trim_end(trim_start(s))
}

/// First index of `s[from..to]` past its leading whitespace.
pub fn skip_whitespace(s: &[char], from: usize, to: usize) -> (r: usize)
    requires
        from <= to <= s@.len(),
    ensures
        from <= r <= to,
        trim_start(s@.subrange(from as int, to as int)) == s@.subrange(r as int, to as int),
{
    let mut i = from;
    while i < to && char_is_whitespace(s[i])
        invariant
            from <= i <= to <= s@.len(),
            trim_start(s@.subrange(from as int, to as int)) == trim_start(
                s@.subrange(i as int, to as int),
            ),
        decreases to - i,
    {
        assert(s@.subrange(i as int, to as int).drop_first() =~= s@.subrange(i + 1, to as int));
        i = i + 1;
    }
    proof {
        if i < to {
            assert(s@.subrange(i as int, to as int)[0] == s@[i as int]);
        }
    }
    i
}

/// End index of `s[from..to]` once its trailing whitespace is removed.
pub fn trim_end_index(s: &[char], from: usize, to: usize) -> (r: usize)
    requires
        from <= to <= s@.len(),
    ensures
        from <= r <= to,
        trim_end(s@.subrange(from as int, to as int)) == s@.subrange(from as int, r as int),
{
    let mut i = to;
    while i > from && char_is_whitespace(s[i - 1])
        invariant
            from <= i <= to <= s@.len(),
            trim_end(s@.subrange(from as int, to as int)) == trim_end(
                s@.subrange(from as int, i as int),
            ),
        decreases i,
    {
        assert(s@.subrange(from as int, i as int).drop_last() =~= s@.subrange(
            from as int,
            i - 1,
        ));
        i = i - 1;
    }
    proof {
        if i > from {
            assert(s@.subrange(from as int, i as int).last() == s@[i - 1]);
        }
    }
    i
}

/// Bounds of `s[from..to]` with whitespace trimmed at both ends.
pub fn trim_bounds(s: &[char], from: usize, to: usize) -> (r: (usize, usize))
    requires
        from <= to <= s@.len(),
    ensures
        from <= r.0 <= r.1 <= to,
        trim(s@.subrange(from as int, to as int)) == s@.subrange(r.0 as int, r.1 as int),
{
    let a = skip_whitespace(s, from, to);
    let b = trim_end_index(s, a, to);
    (a, b)
}

/// A copy of `s[from..to]`.
pub fn copy_range(s: &[char], from: usize, to: usize) -> (r: Vec<char>)
    requires
        from <= to <= s@.len(),
    ensures
        r@ == s@.subrange(from as int, to as int),
{
    let mut out: Vec<char> = Vec::new();
    let mut k = from;
    while k < to
        invariant
            from <= k <= to <= s@.len(),
            out@ == s@.subrange(from as int, k as int),
        decreases to - k,
    {
        out.push(s[k]);
        assert(s@.subrange(from as int, k + 1) =~= s@.subrange(from as int, k as int).push(
            s@[k as int],
        ));
        k = k + 1;
    }
    out
}

/// Lexicographic comparison of character sequences by code point: -1, 0 or
/// 1 (the order `str` comparison uses, since UTF-8 keeps code-point order).
pub open spec fn chars_order(a: Seq<char>, b: Seq<char>) -> int
    decreases a.len(),
{
    if a.len() == 0 {
        if b.len() == 0 {
            0
        } else {
            -1
        }
    } else if b.len() == 0 {
        1
    } else if a[0] < b[0] {
        -1
    } else if a[0] > b[0] {
        1
    } else {
        chars_order(a.skip(1), b.skip(1))
    }
}

/// The order is total and antisymmetric, and equal only on equal sequences.
pub proof fn lemma_chars_order(a: Seq<char>, b: Seq<char>)
    ensures
        -1 <= chars_order(a, b) <= 1,
        chars_order(a, b) == -chars_order(b, a),
        chars_order(a, b) == 0 <==> a == b,
    decreases a.len(),
{
    if a.len() > 0 && b.len() > 0 {
        lemma_chars_order(a.skip(1), b.skip(1));
        if a[0] == b[0] && a.skip(1) == b.skip(1) {
            assert(a =~= seq![a[0]] + a.skip(1));
            assert(b =~= seq![b[0]] + b.skip(1));
        }
        if a == b {
            assert(a.skip(1) == b.skip(1));
        }
    } else if a.len() == 0 && b.len() == 0 {
        assert(a =~= b);
    }
}

/// The order is transitive.
pub proof fn lemma_chars_order_trans(a: Seq<char>, b: Seq<char>, c: Seq<char>)
    requires
        chars_order(a, b) <= 0,
        chars_order(b, c) <= 0,
    ensures
        chars_order(a, c) <= 0,
    decreases a.len(),
{
    if a.len() > 0 && b.len() > 0 && c.len() > 0 {
        if a[0] == b[0] && b[0] == c[0] {
            lemma_chars_order_trans(a.skip(1), b.skip(1), c.skip(1));
        }
    }
}

/// Lexicographic comparison of two strings by code point.
pub fn compare_chars(a: &[char], b: &[char]) -> (r: i8)
    ensures
        r as int == chars_order(a@, b@),
{
    let mut i: usize = 0;
    proof {
        assert(a@.skip(0) =~= a@);
        assert(b@.skip(0) =~= b@);
    }
    while i < a.len() && i < b.len()
        invariant
            0 <= i <= a@.len(),
            i <= b@.len(),
            chars_order(a@, b@) == chars_order(a@.skip(i as int), b@.skip(i as int)),
        decreases a@.len() - i,
    {
        let x = a[i];
        let y = b[i];
        if x < y {
            return -1;
        }
        if x > y {
            return 1;
        }
        assert(a@.skip(i as int).skip(1) =~= a@.skip(i + 1));
        assert(b@.skip(i as int).skip(1) =~= b@.skip(i + 1));
        i = i + 1;
    }
    if a.len() == i && b.len() == i {
        0
    } else if a.len() == i {
        -1
    } else {
        1
    }
}

/// `{:?}` of a string: quoted, with the characters Rust escapes escaped.
pub uninterp spec fn debug_escaped(s: Seq<char>) -> Seq<char>;

/// `format!("{s:?}")`: the string quoted with Rust's debug escapes.
#[verifier::external_body]
pub(crate) fn debug_quote(s: &str) -> (r: String)
    ensures
        r@ == debug_escaped(s@),
{
    format!("{s:?}")
}


/// The length `str::len` reports: the string's UTF-8 byte count.
pub open spec fn byte_length(s: Seq<char>) -> int {
    (vstd::utf8::encode_utf8(s).len() as usize) as int
}

/// UTF-8 byte count of a string slice.
pub fn byte_length_of(s: &str) -> (r: usize)
    ensures
        r == byte_length(s@),
{
    s.len()
}

} // verus!
