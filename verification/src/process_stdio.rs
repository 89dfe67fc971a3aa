//! A child process's standard error as the daemon keeps it: bytes split
//! into bounded lines, a bounded tail of recent lines, and the last line
//! shortened on a character boundary for error reports.

use vstd::prelude::*;
use std::collections::VecDeque;
use crate::text::{byte_length, byte_length_of, chars_of, owned, push_char, push_str, trim};
use vstd::utf8::{encode_scalar, encode_utf8};

verus! {

broadcast use vstd::utf8::char_is_scalar;

/// Longest kept line, in bytes.
pub const MAX_LINE_BYTES: usize = 8192;

/// Most bytes of lines kept in the tail.
pub const MAX_TAIL_BYTES: usize = 32768;

/// Most lines kept in the tail.
pub const MAX_TAIL_LINES: usize = 64;

proof fn lemma_encode_append(a: Seq<char>, b: Seq<char>)
    ensures
        encode_utf8(a + b) == encode_utf8(a) + encode_utf8(b),
    decreases a.len(),
{
    if a.len() == 0 {
        assert(a + b =~= b);
    } else {
        lemma_encode_append(a.drop_first(), b);
        assert((a + b).drop_first() =~= a.drop_first() + b);
    }
}

proof fn lemma_encode_push(a: Seq<char>, c: char)
    ensures
        encode_utf8(a.push(c)).len() == encode_utf8(a).len() + encode_scalar(c as u32).len(),
{
    lemma_encode_append(a, seq![c]);
    assert(a.push(c) =~= a + seq![c]);
    assert(seq![c].drop_first() =~= Seq::<char>::empty());
    assert(encode_utf8(Seq::<char>::empty()) =~= Seq::<u8>::empty());
    assert(encode_utf8(seq![c]) == encode_scalar(c as u32) + encode_utf8(seq![c].drop_first()));
    assert(encode_utf8(seq![c]) =~= encode_scalar(c as u32));
}

fn char_width(c: char) -> (r: usize)
    ensures
        r == encode_scalar(c as u32).len(),
        1 <= r <= 4,
{
    let v = c as u32;
    if v < 0x80 {
        1
    } else if v < 0x800 {
        2
    } else if v < 0x10000 {
        3
    } else {
        4
    }
}

/// Bytes of the first `k` characters.
pub open spec fn prefix_bytes(s: Seq<char>, k: int) -> int {
    encode_utf8(s.take(k)).len() as int
}

/// `k` characters of `s` fit in `max` bytes and one more would not.
pub open spec fn longest_fit(s: Seq<char>, max: int, k: int) -> bool {
    &&& 0 <= k <= s.len()
    &&& prefix_bytes(s, k) <= max
    &&& k < s.len() ==> prefix_bytes(s, k + 1) > max
}

/// The captured lines, oldest first.
#[derive(Debug)]
pub struct StderrSnapshot {
    pub lines: Vec<String>,
}

impl Default for StderrSnapshot {
    fn default() -> (r: Self)
        ensures
            r.lines@.len() == 0,
    {
        StderrSnapshot { lines: Vec::new() }
    }
}

impl StderrSnapshot {
    pub fn last_line(&self) -> (r: Option<&str>)
        ensures
            self.lines@.len() == 0 ==> r is None,
            self.lines@.len() > 0 ==> (r matches Some(l) && l@ == self.lines@.last()@),
    {
        if self.lines.len() == 0 {
            None
        } else {
            Some(self.lines[self.lines.len() - 1].as_str())
        }
    }

    /// The last line cut to at most `max_bytes` bytes on a character
    /// boundary, with an ellipsis when something was cut.
    pub fn last_line_limited(&self, max_bytes: usize) -> (r: Option<String>)
        ensures
            self.lines@.len() == 0 ==> r is None,
            self.lines@.len() > 0 ==> (r matches Some(out) && exists|k: int|
                longest_fit(self.lines@.last()@, max_bytes as int, k) && out@ == (if k
                    < self.lines@.last()@.len() {
                    self.lines@.last()@.take(k).push('…')
                } else {
                    self.lines@.last()@
                })),
    {
        let line = match self.last_line() {
            Some(l) => l,
            None => {
                return None;
            },
        };
        let chars = chars_of(line);
        let mut out = String::new();
        let mut used: usize = 0;
        let mut k: usize = 0;
        let mut full = false;
        proof {
            assert(chars@.take(0) =~= Seq::<char>::empty());
        }
        while k < chars.len() && !full
            invariant
                0 <= k <= chars@.len(),
                out@ == chars@.take(k as int),
                used as int == prefix_bytes(chars@, k as int),
                used <= max_bytes,
                full ==> k < chars@.len() && prefix_bytes(chars@, k + 1) > max_bytes,
            decreases chars@.len() - k, if full { 0int } else { 1int },
        {
            let w = char_width(chars[k]);
            proof {
                assert(chars@.take(k + 1) =~= chars@.take(k as int).push(chars@[k as int]));
                lemma_encode_push(chars@.take(k as int), chars@[k as int]);
            }
            if w > max_bytes - used {
                full = true;
            } else {
                push_char(&mut out, chars[k]);
                used = used + w;
                k = k + 1;
            }
        }
        proof {
            assert(longest_fit(chars@, max_bytes as int, k as int));
            if k == chars@.len() {
                assert(chars@.take(k as int) =~= chars@);
            }
        }
        if k < chars.len() {
            push_char(&mut out, '…');
        }
        Some(out)
    }
}

// ---------------------------------------------------------------------------
// The tail

/// Byte count of the lines.
pub open spec fn lines_bytes(s: Seq<String>) -> int
    decreases s.len(),
{
    if s.len() == 0 {
        0
    } else {
        lines_bytes(s.drop_last()) + byte_length(s.last()@)
    }
}

proof fn lemma_lines_bytes_first(s: Seq<String>)
    requires
        s.len() > 0,
    ensures
        lines_bytes(s) == byte_length(s[0]@) + lines_bytes(s.skip(1)),
    decreases s.len(),
{
    if s.len() > 1 {
        lemma_lines_bytes_first(s.drop_last());
        assert(s.drop_last().skip(1) =~= s.skip(1).drop_last());
    } else {
        assert(s.skip(1) =~= Seq::<String>::empty());
        assert(s.drop_last() =~= Seq::<String>::empty());
    }
}

proof fn lemma_lines_bytes_nonneg(s: Seq<String>)
    ensures
        lines_bytes(s) >= 0,
    decreases s.len(),
{
    if s.len() > 0 {
        lemma_lines_bytes_nonneg(s.drop_last());
    }
}

/// Drops the oldest lines until at most `MAX_TAIL_LINES` lines of at most
/// `MAX_TAIL_BYTES` bytes remain.
pub open spec fn trimmed_tail(s: Seq<String>) -> Seq<String>
    decreases s.len(),
{
    if s.len() > 0 && (s.len() > MAX_TAIL_LINES || lines_bytes(s) > MAX_TAIL_BYTES) {
        trimmed_tail(s.skip(1))
    } else {
        s
    }
}

/// The most recent lines of a child's standard error.
pub struct StderrTail {
    lines: VecDeque<String>,
    bytes: usize,
}

impl StderrTail {
    #[verifier::type_invariant]
    spec fn counted(self) -> bool {
        &&& self.bytes == lines_bytes(self.lines@)
        &&& self.bytes <= MAX_TAIL_BYTES
        &&& self.lines@.len() <= MAX_TAIL_LINES
    }

    pub closed spec fn view_lines(self) -> Seq<String> {
        self.lines@
    }

    pub fn new() -> (r: Self)
        ensures
            r.view_lines().len() == 0,
    {
        StderrTail { lines: VecDeque::new(), bytes: 0 }
    }

    /// Keeps `line`, dropping the oldest lines beyond the bounds.
    pub fn push(&mut self, line: String)
        requires
            byte_length(line@) <= isize::MAX,
        ensures
            final(self).view_lines() == trimmed_tail(old(self).view_lines().push(line)),
    {
        proof {
            use_type_invariant(&*self);
        }
        let n = byte_length_of(line.as_str());
        let mut taken = StderrTail::new();
        std::mem::swap(&mut taken, self);
        proof {
            use_type_invariant(&taken);
        }
        let StderrTail { lines, bytes } = taken;
        let mut lines = lines;
        let ghost before = lines@;
        let mut bytes = bytes + n;
        lines.push_back(line);
        proof {
            assert(lines@.drop_last() =~= before);
        }
        while lines.len() > 0 && (lines.len() > MAX_TAIL_LINES || bytes > MAX_TAIL_BYTES)
            invariant
                bytes == lines_bytes(lines@),
                trimmed_tail(lines@) == trimmed_tail(before.push(line)),
            decreases lines@.len(),
        {
            proof {
                lemma_lines_bytes_first(lines@);
                lemma_lines_bytes_nonneg(lines@.skip(1));
            }
            let removed = lines.pop_front().unwrap();
            bytes = bytes - byte_length_of(removed.as_str());
        }
        proof {
            lemma_lines_bytes_nonneg(lines@);
        }
        *self = StderrTail { lines, bytes };
    }

    /// The kept lines, oldest first.
    pub fn snapshot(&self) -> (r: StderrSnapshot)
        ensures
            r.lines@ == self.view_lines(),
    {
        let mut lines: Vec<String> = Vec::new();
        let mut i: usize = 0;
        while i < self.lines.len()
            invariant
                0 <= i <= self.lines@.len(),
                lines@ == self.lines@.take(i as int),
            decreases self.lines@.len() - i,
        {
            lines.push(self.lines[i].clone());
            assert(self.lines@.take(i + 1) =~= self.lines@.take(i as int).push(self.lines@[i as int]));
            i = i + 1;
        }
        assert(self.lines@.take(self.lines@.len() as int) =~= self.lines@);
        StderrSnapshot { lines }
    }
}

// ---------------------------------------------------------------------------
// Lines from bytes

/// Bytes of the line being read and whether some were dropped.
pub struct StderrLineSplitter {
    pub line: Vec<u8>,
    pub truncated: bool,
}

impl StderrLineSplitter {
    pub fn new() -> (r: Self)
        ensures
            r.line@.len() == 0 && !r.truncated,
    {
        StderrLineSplitter { line: Vec::new(), truncated: false }
    }

    /// Takes one byte: a newline completes the line (returned with its
    /// truncation flag); other bytes join the line up to `MAX_LINE_BYTES`,
    /// beyond which they are dropped and the line is marked truncated.
    pub fn push_byte(&mut self, byte: u8) -> (r: Option<(Vec<u8>, bool)>)
        requires
            old(self).line@.len() <= MAX_LINE_BYTES,
        ensures
            final(self).line@.len() <= MAX_LINE_BYTES,
            byte == 10 ==> (r matches Some((l, t)) && l@ == old(self).line@ && t
                == old(self).truncated) && final(self).line@.len() == 0 && !final(self).truncated,
            byte != 10 && old(self).line@.len() < MAX_LINE_BYTES ==> r is None && final(self).line@ == old(self).line@.push(byte) && final(self).truncated == old(self).truncated,
            byte != 10 && old(self).line@.len() >= MAX_LINE_BYTES ==> r is None && final(self).line@ == old(self).line@ && final(self).truncated,
    {
        if byte == 10 {
            let mut done: Vec<u8> = Vec::new();
            std::mem::swap(&mut done, &mut self.line);
            let t = self.truncated;
            self.truncated = false;
            Some((done, t))
        } else if self.line.len() < MAX_LINE_BYTES {
            self.line.push(byte);
            None
        } else {
            self.truncated = true;
            None
        }
    }

    /// The pending line at the end of the stream.
    pub fn finish(&mut self) -> (r: (Vec<u8>, bool))
        ensures
            r.0@ == old(self).line@ && r.1 == old(self).truncated,
            final(self).line@.len() == 0 && !final(self).truncated,
    {
        let mut done: Vec<u8> = Vec::new();
        std::mem::swap(&mut done, &mut self.line);
        let t = self.truncated;
        self.truncated = false;
        (done, t)
    }
}

/// UTF-8 decoding that replaces each invalid sequence by U+FFFD
/// (`String::from_utf8_lossy`).
pub uninterp spec fn utf8_lossy(bytes: Seq<u8>) -> Seq<char>;

/// `String::from_utf8_lossy(bytes).into_owned()`.
#[verifier::external_body]
fn from_utf8_lossy(bytes: &[u8]) -> (r: String)
    ensures
        r@ == utf8_lossy(bytes@),
{
    String::from_utf8_lossy(bytes).into_owned()
}

/// The message a completed line becomes: without a final carriage return,
/// decoded, marked when truncated; `None` when nothing but whitespace is
/// left.
pub open spec fn spec_line_message(line: Seq<u8>, truncated: bool) -> Option<Seq<char>> {
    let body = if line.len() > 0 && line.last() == 13 {
        line.drop_last()
    } else {
        line
    };
    let text = utf8_lossy(body) + if truncated {
        " [truncated]"@
    } else {
        Seq::empty()
    };
    if trim(text).len() == 0 {
        None
    } else {
        Some(text)
    }
}

pub fn line_message(line: Vec<u8>, truncated: bool) -> (r: Option<String>)
    ensures
        match spec_line_message(line@, truncated) {
            Some(t) => r matches Some(s) && s@ == t,
            None => r is None,
        },
{
    let mut line = line;
    if line.len() > 0 && line[line.len() - 1] == 13 {
        line.pop();
    }
    let mut message = from_utf8_lossy(line.as_slice());
    if truncated {
        push_str(&mut message, " [truncated]");
    }
    let chars = chars_of(message.as_str());
    let (a, b) = crate::text::trim_bounds(chars.as_slice(), 0, chars.len());
    proof {
        assert(chars@.subrange(0, chars@.len() as int) =~= chars@);
    }
    if a == b {
        return None;
    }
    Some(message)
}

} // verus!
