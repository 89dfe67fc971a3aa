//! Redaction of credentials in messages a source plugin hands back: the
//! rest of an `Authorization:` or `Cookie:` header line, and the value of
//! token and cookie parameters, are replaced by a marker.
//!
//! Every marker and every character that ends a value is ASCII, so working
//! on characters finds the same spans that byte offsets would.

use vstd::prelude::*;
use crate::text::{char_is_whitespace, chars_have_at, chars_of, has_at, is_whitespace, string_of};

verus! {

/// How a redacted value ends and what replaces it.
#[derive(Debug, Clone, Copy, PartialEq, Eq, Structural)]
pub enum RedactKind {
    /// A header value, up to the end of its line.
    HeaderLine,
    /// A parameter value, up to whitespace or a delimiter.
    TokenValue,
}

pub open spec fn ends_value(kind: RedactKind, c: char) -> bool {
    match kind {
        RedactKind::HeaderLine => c == '\r' || c == '\n',
        RedactKind::TokenValue => is_whitespace(c) || c == '&' || c == ',' || c == '}' || c == ']' || c == '"'
            || c == '\'',
    }
}

pub open spec fn replacement(kind: RedactKind) -> Seq<char> {
    match kind {
        RedactKind::HeaderLine => " [REDACTED]"@,
        RedactKind::TokenValue => "[REDACTED]"@,
    }
}

/// The first position at or after `i` where `m` occurs in `s`.
pub open spec fn find_from(s: Seq<char>, i: int, m: Seq<char>) -> Option<int>
    decreases s.len() + 1 - i,
{
    if i < 0 || i + m.len() > s.len() {
        None
    } else if has_at(s, i, m) {
        Some(i)
    } else {
        find_from(s, i + 1, m)
    }
}

/// Where the value starting at `i` ends: the first ending character at or
/// after `i`, or the end of `s`.
pub open spec fn end_from(s: Seq<char>, i: int, kind: RedactKind) -> int
    decreases s.len() - i,
{
    if i < 0 || i >= s.len() {
        s.len() as int
    } else if ends_value(kind, s[i]) {
        i
    } else {
        end_from(s, i + 1, kind)
    }
}

proof fn lemma_find_from(s: Seq<char>, i: int, m: Seq<char>)
    ensures
        find_from(s, i, m) matches Some(p) ==> i <= p && p + m.len() <= s.len() && has_at(s, p, m),
    decreases s.len() + 1 - i,
{
    if !(i < 0 || i + m.len() > s.len()) && !has_at(s, i, m) {
        lemma_find_from(s, i + 1, m);
    }
}

proof fn lemma_end_from(s: Seq<char>, i: int, kind: RedactKind)
    requires
        0 <= i <= s.len(),
    ensures
        i <= end_from(s, i, kind) <= s.len(),
    decreases s.len() - i,
{
    if i < s.len() && !ends_value(kind, s[i]) {
        lemma_end_from(s, i + 1, kind);
    }
}

/// `s` with the value after each occurrence of `m` at or after `from`
/// replaced, scanning on after each replacement.
pub open spec fn redact_from(s: Seq<char>, from: int, m: Seq<char>, kind: RedactKind) -> Seq<char>
    decreases s.len() - from,
    when 0 <= from <= s.len() && m.len() > 0
    via redact_from_decreases
{
    match find_from(s, from, m) {
        None => s,
        Some(p) => {
            let start = p + m.len();
            let end = end_from(s, start, kind);
            let t = s.subrange(0, start) + replacement(kind) + s.subrange(end, s.len() as int);
            redact_from(t, start + replacement(kind).len(), m, kind)
        },
    }
}

#[via_fn]
proof fn redact_from_decreases(s: Seq<char>, from: int, m: Seq<char>, kind: RedactKind) {
    lemma_find_from(s, from, m);
    if let Some(p) = find_from(s, from, m) {
        let start = p + m.len();
        lemma_end_from(s, start, kind);
    }
}

/// The header markers, in the order they are handled.
pub open spec fn header_markers() -> Seq<Seq<char>> {
    seq!["Authorization:"@, "authorization:"@, "Cookie:"@, "cookie:"@]
}

/// The parameter markers, in the order they are handled.
pub open spec fn token_markers() -> Seq<Seq<char>> {
    seq![
        "access_token="@,
        "refresh_token="@,
        "authorization="@,
        "cookie="@,
        "\"access_token\":\""@,
        "\"access_token\": \""@,
        "\"refresh_token\":\""@,
        "\"refresh_token\": \""@,
    ]
}

/// `s` redacted for each marker in turn.
pub open spec fn redact_all(s: Seq<char>, markers: Seq<Seq<char>>, kind: RedactKind) -> Seq<char>
    decreases markers.len(),
{
    if markers.len() == 0 {
        s
    } else {
        redact_from(redact_all(s, markers.drop_last(), kind), 0, markers.last(), kind)
    }
}

pub open spec fn spec_redact_secrets(s: Seq<char>) -> Seq<char> {
    redact_all(redact_all(s, header_markers(), RedactKind::HeaderLine), token_markers(), RedactKind::TokenValue)
}

fn ends_value_exec(kind: RedactKind, c: char) -> (r: bool)
    ensures
        r == ends_value(kind, c),
{
    match kind {
        RedactKind::HeaderLine => c == '\r' || c == '\n',
        RedactKind::TokenValue => char_is_whitespace(c) || c == '&' || c == ',' || c == '}' || c == ']' || c
            == '"' || c == '\'',
    }
}

/// Redacts every value after `marker` in `buf`.
fn redact_marker(buf: Vec<char>, marker: &[char], kind: RedactKind) -> (r: Vec<char>)
    requires
        marker@.len() > 0,
    ensures
        r@ == redact_from(buf@, 0, marker@, kind),
{
    let repl = match kind {
        RedactKind::HeaderLine => chars_of(" [REDACTED]"),
        RedactKind::TokenValue => chars_of("[REDACTED]"),
    };
    let ghost goal = redact_from(buf@, 0, marker@, kind);
    let mut cur = buf;
    let mut from: usize = 0;
    loop
        invariant
            marker@.len() > 0,
            goal == redact_from(buf@, 0, marker@, kind),
            repl@ == replacement(kind),
            0 <= from <= cur@.len(),
            redact_from(cur@, from as int, marker@, kind) == goal,
        decreases cur@.len() - from,
    {
        let n = cur.len();
        let mut p = from;
        let mut found = false;
        while !found && p <= n && marker.len() <= n - p
            invariant
                from <= p <= n + 1,
                n == cur@.len(),
                marker@.len() > 0,
                found ==> p + marker@.len() <= n && has_at(cur@, p as int, marker@),
                !found ==> find_from(cur@, from as int, marker@) == find_from(cur@, p as int, marker@),
                found ==> find_from(cur@, from as int, marker@) == Some(p as int),
            decreases n + 1 - p, (if found { 0int } else { 1int }),
        {
            if chars_have_at(cur.as_slice(), p, marker) {
                found = true;
            } else {
                p = p + 1;
            }
        }
        if !found {
            return cur;
        }
        let start = p + marker.len();
        let mut end = start;
        while end < n && !ends_value_exec(kind, cur[end])
            invariant
                start <= end <= n,
                n == cur@.len(),
                end_from(cur@, start as int, kind) == end_from(cur@, end as int, kind),
            decreases n - end,
        {
            end = end + 1;
        }
        let mut next: Vec<char> = Vec::new();
        let mut i: usize = 0;
        while i < start
            invariant
                0 <= i <= start <= n,
                n == cur@.len(),
                next@ == cur@.subrange(0, i as int),
            decreases start - i,
        {
            next.push(cur[i]);
            proof {
                assert(cur@.subrange(0, i + 1) =~= cur@.subrange(0, i as int).push(cur@[i as int]));
            }
            i = i + 1;
        }
        let mut j: usize = 0;
        while j < repl.len()
            invariant
                0 <= j <= repl@.len(),
                next@ == cur@.subrange(0, start as int) + repl@.subrange(0, j as int),
            decreases repl@.len() - j,
        {
            next.push(repl[j]);
            proof {
                assert(repl@.subrange(0, j + 1) =~= repl@.subrange(0, j as int).push(repl@[j as int]));
            }
            j = j + 1;
        }
        let mut k: usize = end;
        while k < n
            invariant
                end <= k <= n,
                n == cur@.len(),
                next@ == cur@.subrange(0, start as int) + repl@ + cur@.subrange(end as int, k as int),
            decreases n - k,
        {
            next.push(cur[k]);
            proof {
                assert(cur@.subrange(end as int, k + 1) =~= cur@.subrange(end as int, k as int).push(cur@[k as int]));
            }
            k = k + 1;
        }
        proof {
            assert(repl@.subrange(0, repl@.len() as int) =~= repl@);
            assert(end_from(cur@, end as int, kind) == end as int);
        }
        let ghost old_cur = cur@;
        cur = next;
        proof {
            assert(cur@ =~= old_cur.subrange(0, start as int) + replacement(kind) + old_cur.subrange(
                end as int,
                old_cur.len() as int,
            ));
            assert(start + repl@.len() <= cur@.len());
        }
        let _ = cur.len();
        from = start + repl.len();
    }
}

/// A message with its credentials redacted.
pub fn redact_secrets(message: &str) -> (r: String)
    ensures
        r@ == spec_redact_secrets(message@),
{
    let mut buf = chars_of(message);
    let ghost headers = header_markers();
    let ghost tokens = token_markers();
    let hm = [
        chars_of("Authorization:"),
        chars_of("authorization:"),
        chars_of("Cookie:"),
        chars_of("cookie:"),
    ];
    let tm = [
        chars_of("access_token="),
        chars_of("refresh_token="),
        chars_of("authorization="),
        chars_of("cookie="),
        chars_of("\"access_token\":\""),
        chars_of("\"access_token\": \""),
        chars_of("\"refresh_token\":\""),
        chars_of("\"refresh_token\": \""),
    ];
    proof {
        reveal_strlit("Authorization:");
        reveal_strlit("authorization:");
        reveal_strlit("Cookie:");
        reveal_strlit("cookie:");
        reveal_strlit("access_token=");
        reveal_strlit("refresh_token=");
        reveal_strlit("authorization=");
        reveal_strlit("cookie=");
        reveal_strlit("\"access_token\":\"");
        reveal_strlit("\"access_token\": \"");
        reveal_strlit("\"refresh_token\":\"");
        reveal_strlit("\"refresh_token\": \"");
        assert(headers.take(0) =~= Seq::<Seq<char>>::empty());
        assert(tokens.take(0) =~= Seq::<Seq<char>>::empty());
    }
    let mut i: usize = 0;
    while i < 4
        invariant
            0 <= i <= 4,
            headers == header_markers(),
            forall|k: int| 0 <= k < 4 ==> (#[trigger] hm@[k])@ == headers[k],
            forall|k: int| 0 <= k < 4 ==> headers[k].len() > 0,
            buf@ == redact_all(message@, headers.take(i as int), RedactKind::HeaderLine),
        decreases 4 - i,
    {
        proof {
            assert(headers.take(i + 1).drop_last() =~= headers.take(i as int));
        }
        buf = redact_marker(buf, hm[i].as_slice(), RedactKind::HeaderLine);
        i = i + 1;
    }
    proof {
        assert(headers.take(4) =~= headers);
    }
    let ghost after_headers = buf@;
    let mut i: usize = 0;
    while i < 8
        invariant
            0 <= i <= 8,
            tokens == token_markers(),
            forall|k: int| 0 <= k < 8 ==> (#[trigger] tm@[k])@ == tokens[k],
            forall|k: int| 0 <= k < 8 ==> tokens[k].len() > 0,
            buf@ == redact_all(after_headers, tokens.take(i as int), RedactKind::TokenValue),
        decreases 8 - i,
    {
        proof {
            assert(tokens.take(i + 1).drop_last() =~= tokens.take(i as int));
        }
        buf = redact_marker(buf, tm[i].as_slice(), RedactKind::TokenValue);
        i = i + 1;
    }
    proof {
        assert(tokens.take(8) =~= tokens);
    }
    string_of(buf.as_slice())
}

} // verus!
