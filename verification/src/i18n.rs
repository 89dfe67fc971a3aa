//! Plugin-provided localisation: texts that are either raw or a message id
//! of a plugin's catalogue, translation documents, their canonical order
//! and the locale tags they may carry.

use vstd::prelude::*;
use crate::text::{chars_order, compare_chars, lemma_chars_order, lemma_chars_order_trans, chars_of, decimal, is_ascii_alphanumeric, is_ascii_digit, is_ascii_lower,
    is_ascii_upper, owned, push_decimal, push_str};

verus! {

/// Largest single translation file.
pub const MAX_TRANSLATION_FILE_BYTES: u64 = 1048576;

/// Largest sum of one plugin's translation files.
pub const MAX_PLUGIN_TRANSLATION_BYTES: u64 = 4194304;

/// Largest sum of all documents in a translation snapshot.
pub const MAX_TRANSLATION_SNAPSHOT_BYTES: usize = 16777216;

/// A message id in a plugin's catalogue.
#[derive(Debug, Clone, PartialEq, Eq)]
pub struct PluginMessage {
    pub plugin_id: String,
    pub msgid: String,
}

/// Text shown to users: raw, or a message to translate.
#[derive(Debug, Clone, PartialEq, Eq)]
pub enum LocalizedText {
    Raw(String),
    Message(PluginMessage),
}

impl Default for LocalizedText {
    fn default() -> (r: Self)
        ensures
            r matches LocalizedText::Raw(s) && s@ == Seq::<char>::empty(),
    {
        LocalizedText::Raw(String::new())
    }
}

impl LocalizedText {
    /// Untranslated text.
    pub fn raw(value: String) -> (r: Self)
        ensures
            r == LocalizedText::Raw(value),
    {
        LocalizedText::Raw(value)
    }

    /// A message of a plugin's catalogue.
    pub fn translated(plugin_id: String, msgid: String) -> (r: Self)
        ensures
            r == LocalizedText::Message(PluginMessage { plugin_id, msgid }),
    {
        LocalizedText::Message(PluginMessage { plugin_id, msgid })
    }

    pub fn is_translated(&self) -> (r: bool)
        ensures
            r == (self is Message),
    {
        match self {
            LocalizedText::Raw(_) => false,
            LocalizedText::Message(_) => true,
        }
    }

    /// The raw text, or the message id (the untranslated fallback).
    pub fn text(&self) -> (r: &str)
        ensures
            r@ == match self {
                LocalizedText::Raw(v) => v@,
                LocalizedText::Message(m) => m.msgid@,
            },
    {
        match self {
            LocalizedText::Raw(value) => value.as_str(),
            LocalizedText::Message(value) => value.msgid.as_str(),
        }
    }

    pub fn message(&self) -> (r: Option<&PluginMessage>)
        ensures
            match self {
                LocalizedText::Raw(_) => r is None,
                LocalizedText::Message(m) => r == Some(m),
            },
    {
        match self {
            LocalizedText::Raw(_) => None,
            LocalizedText::Message(value) => Some(value),
        }
    }
}

/// A translatable text as a plugin declares it.
#[derive(Debug, Clone)]
pub struct LocalizedTextDef {
    pub msgid: String,
}

impl LocalizedTextDef {
    /// The declared message, in the catalogue of `plugin_id`.
    pub fn resolve(&self, plugin_id: &str) -> (r: LocalizedText)
        ensures
            r matches LocalizedText::Message(m) && m.plugin_id@ == plugin_id@ && m.msgid@
                == self.msgid@,
    {
        LocalizedText::translated(owned(plugin_id), self.msgid.clone())
    }

    /// A declaration needs a message id.
    pub fn is_valid(&self) -> (r: bool)
        ensures
            r == (self.msgid@.len() > 0),
    {
        let chars = chars_of(self.msgid.as_str());
        chars.len() > 0
    }
}

/// Where a plugin keeps its translations, relative to its root.
#[derive(Debug, Clone)]
pub struct PluginTranslationMeta {
    pub directory: String,
}

/// One plugin's catalogue for one locale, as raw `.po` bytes.
#[derive(Debug, Clone, PartialEq, Eq)]
pub struct PluginTranslationDocument {
    pub plugin_id: String,
    pub locale: String,
    pub po: Vec<u8>,
}

/// The documents published to clients, with a generation counter.
#[derive(Debug, Clone, PartialEq, Eq)]
pub struct PluginTranslationSnapshot {
    pub generation: u64,
    pub documents: Vec<PluginTranslationDocument>,
}

impl Default for PluginTranslationSnapshot {
    fn default() -> (r: Self)
        ensures
            r.generation == 0 && r.documents@.len() == 0,
    {
        PluginTranslationSnapshot { generation: 0, documents: Vec::new() }
    }
}

// ---------------------------------------------------------------------------
// Canonical order of documents

/// Comparison of documents by plugin id, then locale.
pub open spec fn doc_order(x: PluginTranslationDocument, y: PluginTranslationDocument) -> int {
    let c = chars_order(x.plugin_id@, y.plugin_id@);
    if c != 0 {
        c
    } else {
        chars_order(x.locale@, y.locale@)
    }
}

/// Index of the first document that sorts strictly after `x`.
pub open spec fn first_after(s: Seq<PluginTranslationDocument>, x: PluginTranslationDocument) -> int
    decreases s.len(),
{
    if s.len() == 0 {
        0
    } else {
        let r = first_after(s.drop_last(), x);
        if r < s.len() - 1 {
            r
        } else if doc_order(s.last(), x) > 0 {
            s.len() - 1
        } else {
            s.len() as int
        }
    }
}

/// Stable sort by (plugin id, locale): each document goes after every
/// earlier one that does not sort after it.
pub open spec fn sort_docs(s: Seq<PluginTranslationDocument>) -> Seq<PluginTranslationDocument>
    decreases s.len(),
{
    if s.len() == 0 {
        s
    } else {
        let t = sort_docs(s.drop_last());
        t.insert(first_after(t, s.last()), s.last())
    }
}

/// Sum of the documents' sizes.
pub open spec fn total_po_len(s: Seq<PluginTranslationDocument>) -> nat
    decreases s.len(),
{
    if s.len() == 0 {
        0
    } else {
        total_po_len(s.drop_last()) + s.last().po@.len()
    }
}

pub open spec fn snapshot_too_large_message(total: nat) -> Seq<char> {
    "plugin translation snapshot is "@ + decimal(total) + " bytes, limit is 16777216"@
}

proof fn lemma_doc_order(x: PluginTranslationDocument, y: PluginTranslationDocument)
    ensures
        doc_order(x, y) == -doc_order(y, x),
{
    lemma_chars_order(x.plugin_id@, y.plugin_id@);
    lemma_chars_order(x.locale@, y.locale@);
}

proof fn lemma_doc_order_trans(
    x: PluginTranslationDocument,
    y: PluginTranslationDocument,
    z: PluginTranslationDocument,
)
    requires
        doc_order(x, y) <= 0,
        doc_order(y, z) <= 0,
    ensures
        doc_order(x, z) <= 0,
{
    lemma_chars_order(x.plugin_id@, y.plugin_id@);
    lemma_chars_order(y.plugin_id@, z.plugin_id@);
    lemma_chars_order(x.plugin_id@, z.plugin_id@);
    lemma_chars_order_trans(x.plugin_id@, y.plugin_id@, z.plugin_id@);
    if chars_order(x.plugin_id@, y.plugin_id@) == 0 && chars_order(y.plugin_id@, z.plugin_id@) == 0 {
        lemma_chars_order_trans(x.locale@, y.locale@, z.locale@);
    }
    if chars_order(x.plugin_id@, z.plugin_id@) == 0 {
        // x.plugin_id == z.plugin_id, so y's id sits between equal ids.
        lemma_chars_order_trans(y.plugin_id@, z.plugin_id@, x.plugin_id@);
        lemma_chars_order(y.plugin_id@, x.plugin_id@);
        if chars_order(x.plugin_id@, y.plugin_id@) == 0 {
            lemma_chars_order_trans(x.locale@, y.locale@, z.locale@);
        }
    }
}

pub open spec fn docs_sorted(s: Seq<PluginTranslationDocument>) -> bool {
    forall|i: int, j: int| 0 <= i < j < s.len() ==> doc_order(#[trigger] s[i], #[trigger] s[j]) <= 0
}

proof fn lemma_first_after(s: Seq<PluginTranslationDocument>, x: PluginTranslationDocument)
    ensures
        0 <= first_after(s, x) <= s.len(),
        forall|j: int| 0 <= j < first_after(s, x) ==> doc_order(#[trigger] s[j], x) <= 0,
        first_after(s, x) < s.len() ==> doc_order(s[first_after(s, x)], x) > 0,
    decreases s.len(),
{
    if s.len() > 0 {
        let d = s.drop_last();
        lemma_first_after(d, x);
        assert forall|j: int| 0 <= j < first_after(s, x) implies doc_order(#[trigger] s[j], x) <= 0 by {
            if j < s.len() - 1 {
                assert(s[j] == d[j]);
            }
        }
        if first_after(d, x) < d.len() {
            assert(s[first_after(s, x)] == d[first_after(d, x)]);
        }
    }
}

/// Sorting yields a sequence in (plugin id, locale) order holding the same
/// documents.
proof fn lemma_sort_docs(s: Seq<PluginTranslationDocument>)
    ensures
        docs_sorted(sort_docs(s)),
        sort_docs(s).to_multiset() == s.to_multiset(),
        sort_docs(s).len() == s.len(),
    decreases s.len(),
{
    broadcast use vstd::seq_lib::group_to_multiset_ensures;

    if s.len() > 0 {
        let d = s.drop_last();
        let x = s.last();
        lemma_sort_docs(d);
        let t = sort_docs(d);
        let k = first_after(t, x);
        lemma_first_after(t, x);
        let r = t.insert(k, x);
        t.insert_ensures(k, x);
        assert forall|i: int, j: int| 0 <= i < j < r.len() implies doc_order(
            #[trigger] r[i],
            #[trigger] r[j],
        ) <= 0 by {
            if j < k {
                assert(r[i] == t[i] && r[j] == t[j]);
            } else if j == k {
                assert(r[i] == t[i]);
            } else if i < k {
                assert(r[i] == t[i] && r[j] == t[j - 1]);
                assert(doc_order(t[i], x) <= 0);
                lemma_doc_order(t[k], x);
                if k < j - 1 {
                    assert(doc_order(t[k], t[j - 1]) <= 0);
                    lemma_doc_order_trans(x, t[k], t[j - 1]);
                    lemma_doc_order_trans(t[i], x, t[j - 1]);
                } else {
                    lemma_doc_order_trans(t[i], x, t[j - 1]);
                }
            } else if i == k {
                assert(r[j] == t[j - 1]);
                lemma_doc_order(t[k], x);
                if k < j - 1 {
                    assert(doc_order(t[k], t[j - 1]) <= 0);
                    lemma_doc_order_trans(x, t[k], t[j - 1]);
                }
            } else {
                assert(r[i] == t[i - 1] && r[j] == t[j - 1]);
            }
        }
        assert(r =~= t.subrange(0, k).push(x) + t.subrange(k, t.len() as int));
        assert(t =~= t.subrange(0, k) + t.subrange(k, t.len() as int));
        vstd::seq_lib::lemma_multiset_commutative(t.subrange(0, k).push(x), t.subrange(k, t.len() as int));
        vstd::seq_lib::lemma_multiset_commutative(t.subrange(0, k), t.subrange(k, t.len() as int));
        assert(s =~= d.push(x));
    }
}

fn compare_docs(x: &PluginTranslationDocument, y: &PluginTranslationDocument) -> (r: i8)
    ensures
        r as int == doc_order(*x, *y),
{
    let xp = chars_of(x.plugin_id.as_str());
    let yp = chars_of(y.plugin_id.as_str());
    let c = compare_chars(xp.as_slice(), yp.as_slice());
    if c != 0 {
        return c;
    }
    let xl = chars_of(x.locale.as_str());
    let yl = chars_of(y.locale.as_str());
    compare_chars(xl.as_slice(), yl.as_slice())
}

/// Orders the documents by plugin id, then locale (documents that compare
/// equal keep their order) and refuses a snapshot whose documents sum to more
/// than `MAX_TRANSLATION_SNAPSHOT_BYTES`; the bytes are left as they are.
pub fn prepare_plugin_translation_documents(documents: Vec<PluginTranslationDocument>) -> (r:
    Result<Vec<PluginTranslationDocument>, String>)
    requires
        total_po_len(documents@) <= usize::MAX,
    ensures
        total_po_len(documents@) <= MAX_TRANSLATION_SNAPSHOT_BYTES ==> (r matches Ok(v) && v@
            == sort_docs(documents@)),
        total_po_len(documents@) > MAX_TRANSLATION_SNAPSHOT_BYTES ==> (r matches Err(e) && e@
            == snapshot_too_large_message(total_po_len(documents@))),
{
    let ghost all = documents@;
    let n = documents.len();
    let mut rest = documents;
    let mut sorted: Vec<PluginTranslationDocument> = Vec::new();
    let mut total: usize = 0;
    let mut i: usize = 0;
    proof {
        assert(all.take(0) =~= Seq::<PluginTranslationDocument>::empty());
    }
    while i < n
        invariant
            n == all.len(),
            0 <= i <= n,
            rest@ == all.skip(i as int),
            sorted@ == sort_docs(all.take(i as int)),
            total == total_po_len(all.take(i as int)),
            total_po_len(all) <= usize::MAX,
        decreases n - i,
    {
        let doc = rest.remove(0);
        proof {
            assert(doc == all[i as int]);
            assert(all.take(i + 1).drop_last() =~= all.take(i as int));
            lemma_total_prefix(all, i as int + 1);
        }
        total = total + doc.po.len();
        let m = sorted.len();
        let mut k: usize = 0;
        let mut j: usize = 0;
        proof {
            assert(sorted@.take(0) =~= Seq::<PluginTranslationDocument>::empty());
        }
        while j < m
            invariant
                m == sorted@.len(),
                0 <= j <= m,
                k <= j,
                k as int == first_after(sorted@.take(j as int), doc),
            decreases m - j,
        {
            proof {
                assert(sorted@.take(j + 1).drop_last() =~= sorted@.take(j as int));
            }
            if k == j && compare_docs(&sorted[j], &doc) <= 0 {
                k = j + 1;
            }
            j = j + 1;
        }
        proof {
            assert(sorted@.take(m as int) =~= sorted@);
            lemma_sort_docs(all.take(i as int));
            lemma_first_after(sorted@, doc);
        }
        sorted.insert(k, doc);
        i = i + 1;
    }
    proof {
        assert(all.take(n as int) =~= all);
    }
    if total > MAX_TRANSLATION_SNAPSHOT_BYTES {
        let mut msg = owned("plugin translation snapshot is ");
        push_decimal(&mut msg, total as u64);
        push_str(&mut msg, " bytes, limit is 16777216");
        return Err(msg);
    }
    Ok(sorted)
}

proof fn lemma_total_prefix(s: Seq<PluginTranslationDocument>, i: int)
    requires
        0 <= i <= s.len(),
    ensures
        total_po_len(s.take(i)) <= total_po_len(s),
    decreases s.len() - i,
{
    if i < s.len() {
        lemma_total_prefix(s, i + 1);
        assert(s.take(i + 1).drop_last() =~= s.take(i));
    } else {
        assert(s.take(i) =~= s);
    }
}

/// The snapshot order is by (plugin id, locale) and loses no document.
pub proof fn law_translation_order(documents: Seq<PluginTranslationDocument>)
    ensures
        docs_sorted(sort_docs(documents)),
        sort_docs(documents).to_multiset() == documents.to_multiset(),
{
    lemma_sort_docs(documents);
}

// ---------------------------------------------------------------------------
// Locale tags

/// The pieces of `s` between dashes (one empty piece for an empty string).
pub open spec fn split_dash(s: Seq<char>) -> Seq<Seq<char>>
    decreases s.len(),
{
    if s.len() == 0 {
        seq![Seq::<char>::empty()]
    } else {
        let rest = split_dash(s.drop_last());
        if s.last() == '-' {
            rest.push(Seq::<char>::empty())
        } else {
            rest.update(rest.len() - 1, rest.last().push(s.last()))
        }
    }
}

pub open spec fn all_chars(s: Seq<char>, p: spec_fn(char) -> bool) -> bool {
    forall|i: int| 0 <= i < s.len() ==> p(#[trigger] s[i])
}

/// A language subtag: two to eight lower-case ASCII letters.
pub open spec fn language_ok(s: Seq<char>) -> bool {
    2 <= s.len() <= 8 && all_chars(s, |c: char| is_ascii_lower(c))
}

/// A later subtag: ASCII letters and digits, shaped as a script, a region,
/// a numeric region or a variant.
pub open spec fn subtag_ok(s: Seq<char>) -> bool {
    &&& s.len() > 0
    &&& all_chars(s, |c: char| is_ascii_alphanumeric(c))
    &&& {
        ||| (s.len() == 4 && is_ascii_upper(s[0]) && all_chars(s.skip(1), |c: char| is_ascii_lower(c)))
        ||| (s.len() == 2 && all_chars(s, |c: char| is_ascii_upper(c)))
        ||| (s.len() == 3 && all_chars(s, |c: char| is_ascii_digit(c)))
        ||| (4 <= s.len() <= 8)
    }
}

/// A canonical BCP 47 tag as translation file names use it.
pub open spec fn spec_canonical_locale_tag(s: Seq<char>) -> bool {
    let parts = split_dash(s);
    language_ok(parts[0]) && forall|i: int| 1 <= i < parts.len() ==> subtag_ok(#[trigger] parts[i])
}

proof fn lemma_split_dash_len(s: Seq<char>)
    ensures
        split_dash(s).len() >= 1,
    decreases s.len(),
{
    if s.len() > 0 {
        lemma_split_dash_len(s.drop_last());
    }
}

fn split_on_dash(s: &[char]) -> (r: Vec<Vec<char>>)
    ensures
        r@.len() >= 1,
        r@.len() == split_dash(s@).len(),
        forall|i: int| 0 <= i < r@.len() ==> #[trigger] r@[i]@ == split_dash(s@)[i],
{
    let mut parts: Vec<Vec<char>> = Vec::new();
    let mut cur: Vec<char> = Vec::new();
    let mut i: usize = 0;
    proof {
        assert(s@.take(0) =~= Seq::<char>::empty());
    }
    while i < s.len()
        invariant
            0 <= i <= s@.len(),
            split_dash(s@.take(i as int)).len() == parts@.len() + 1,
            forall|j: int| 0 <= j < parts@.len() ==> #[trigger] parts@[j]@ == split_dash(s@.take(i as int))[j],
            cur@ == split_dash(s@.take(i as int)).last(),
        decreases s@.len() - i,
    {
        proof {
            assert(s@.take(i + 1).drop_last() =~= s@.take(i as int));
            lemma_split_dash_len(s@.take(i as int));
        }
        if s[i] == '-' {
            let mut done: Vec<char> = Vec::new();
            std::mem::swap(&mut done, &mut cur);
            parts.push(done);
        } else {
            cur.push(s[i]);
        }
        i = i + 1;
    }
    proof {
        assert(s@.take(s@.len() as int) =~= s@);
        lemma_split_dash_len(s@);
    }
    parts.push(cur);
    parts
}

fn all_lower(s: &[char], from: usize) -> (r: bool)
    requires
        from <= s@.len(),
    ensures
        r == all_chars(s@.skip(from as int), |c: char| is_ascii_lower(c)),
{
    let mut i = from;
    while i < s.len()
        invariant
            from <= i <= s@.len(),
            forall|j: int| from <= j < i ==> is_ascii_lower(#[trigger] s@[j]),
        decreases s@.len() - i,
    {
        if !('a' <= s[i] && s[i] <= 'z') {
            assert(s@.skip(from as int)[i - from] == s@[i as int]);
            return false;
        }
        i = i + 1;
    }
    assert forall|j: int| 0 <= j < s@.skip(from as int).len() implies is_ascii_lower(
        #[trigger] s@.skip(from as int)[j],
    ) by {
        assert(s@.skip(from as int)[j] == s@[from + j]);
    }
    true
}

fn all_upper(s: &[char]) -> (r: bool)
    ensures
        r == all_chars(s@, |c: char| is_ascii_upper(c)),
{
    let mut i: usize = 0;
    while i < s.len()
        invariant
            0 <= i <= s@.len(),
            forall|j: int| 0 <= j < i ==> is_ascii_upper(#[trigger] s@[j]),
        decreases s@.len() - i,
    {
        if !('A' <= s[i] && s[i] <= 'Z') {
            return false;
        }
        i = i + 1;
    }
    true
}

fn all_digits(s: &[char]) -> (r: bool)
    ensures
        r == all_chars(s@, |c: char| is_ascii_digit(c)),
{
    let mut i: usize = 0;
    while i < s.len()
        invariant
            0 <= i <= s@.len(),
            forall|j: int| 0 <= j < i ==> is_ascii_digit(#[trigger] s@[j]),
        decreases s@.len() - i,
    {
        if !('0' <= s[i] && s[i] <= '9') {
            return false;
        }
        i = i + 1;
    }
    true
}

fn all_alnum(s: &[char]) -> (r: bool)
    ensures
        r == all_chars(s@, |c: char| is_ascii_alphanumeric(c)),
{
    let mut i: usize = 0;
    while i < s.len()
        invariant
            0 <= i <= s@.len(),
            forall|j: int| 0 <= j < i ==> is_ascii_alphanumeric(#[trigger] s@[j]),
        decreases s@.len() - i,
    {
        let c = s[i];
        if !(('0' <= c && c <= '9') || ('a' <= c && c <= 'z') || ('A' <= c && c <= 'Z')) {
            return false;
        }
        i = i + 1;
    }
    true
}

fn subtag_is_ok(s: &[char]) -> (r: bool)
    ensures
        r == subtag_ok(s@),
{
    if s.len() == 0 || !all_alnum(s) {
        return false;
    }
    let script = s.len() == 4 && 'A' <= s[0] && s[0] <= 'Z' && all_lower(s, 1);
    let region = s.len() == 2 && all_upper(s);
    let numeric = s.len() == 3 && all_digits(s);
    let variant = 4 <= s.len() && s.len() <= 8;
    script || region || numeric || variant
}

/// Whether `locale` is a canonical BCP 47 tag: a lower-case language of two
/// to eight letters, then subtags that are a title-case script, an upper-case
/// region, a three-digit region or a variant of four to eight characters.
pub fn is_canonical_locale_tag(locale: &str) -> (r: bool)
    ensures
        r == spec_canonical_locale_tag(locale@),
{
    let chars = chars_of(locale);
    let parts = split_on_dash(chars.as_slice());
    let language = parts[0].as_slice();
    if !(2 <= language.len() && language.len() <= 8) || !all_lower(language, 0) {
        proof {
            assert(language@.skip(0) =~= language@);
        }
        return false;
    }
    proof {
        assert(language@.skip(0) =~= language@);
    }
    let mut i: usize = 1;
    while i < parts.len()
        invariant
            1 <= i <= parts@.len(),
            parts@.len() == split_dash(locale@).len(),
            forall|j: int| 0 <= j < parts@.len() ==> #[trigger] parts@[j]@ == split_dash(locale@)[j],
            forall|j: int| 1 <= j < i ==> subtag_ok(#[trigger] split_dash(locale@)[j]),
        decreases parts@.len() - i,
    {
        if !subtag_is_ok(parts[i].as_slice()) {
            return false;
        }
        i = i + 1;
    }
    true
}

/// The path segments between separators, empty ones included.
pub open spec fn path_segments(p: Seq<char>) -> Seq<Seq<char>>
    decreases p.len(),
{
    if p.len() == 0 {
        seq![Seq::empty()]
    } else {
        let rest = path_segments(p.drop_last());
        if p.last() == '/' {
            rest.push(Seq::empty())
        } else {
            rest.update(rest.len() - 1, rest.last().push(p.last()))
        }
    }
}

/// A relative path made only of plain names: not absolute, no `..`
/// segment, and not starting with a `.` segment (other `.` and empty
/// segments are no components at all).
pub open spec fn is_safe_relative_path(p: Seq<char>) -> bool {
    let segs = path_segments(p);
    &&& !(p.len() > 0 && p[0] == '/')
    &&& segs[0] != seq!['.']
    &&& forall|i: int| 0 <= i < segs.len() ==> segs[i] != seq!['.', '.']
}

/// Whether a translation file path inside a plugin stays inside it.
pub fn safe_relative_path(path: &str) -> (r: bool)
    ensures
        r == is_safe_relative_path(path@),
{
    let chars = chars_of(path);
    let ghost p = path@;
    let mut segs_ok = true;
    let mut seen_sep = false;
    let mut first_is_dot = false;
    let mut i: usize = 0;
    let mut seg: Vec<char> = Vec::new();
    proof {
        assert(p.take(0) =~= Seq::<char>::empty());
    }
    while i < chars.len()
        invariant
            chars@ == p,
            0 <= i <= p.len(),
            path_segments(p.take(i as int)).len() >= 1,
            seg@ == path_segments(p.take(i as int)).last(),
            segs_ok == forall|k: int| 0 <= k < path_segments(p.take(i as int)).len() - 1 ==> path_segments(p.take(i as int))[k] != seq!['.', '.'],
            seen_sep == (path_segments(p.take(i as int)).len() > 1),
            seen_sep ==> (first_is_dot == (path_segments(p.take(i as int))[0] == seq!['.'])),
        decreases p.len() - i,
    {
        let c = chars[i];
        let ghost before = path_segments(p.take(i as int));
        proof {
            assert(p.take(i + 1).drop_last() =~= p.take(i as int));
            assert(p.take(i + 1).last() == c);
        }
        if c == '/' {
            let dotdot = seg.len() == 2 && seg[0] == '.' && seg[1] == '.';
            let dot = seg.len() == 1 && seg[0] == '.';
            proof {
                if dotdot {
                    assert(seg@ =~= seq!['.', '.']);
                }
                if dot {
                    assert(seg@ =~= seq!['.']);
                }
            }
            if dotdot {
                segs_ok = false;
            }
            if !seen_sep {
                first_is_dot = dot;
                seen_sep = true;
            }
            seg = Vec::new();
            proof {
                let after = path_segments(p.take(i + 1));
                assert(after == before.push(Seq::<char>::empty()));
                assert(after[before.len() - 1] == before.last());
                if segs_ok {
                    assert forall|k: int| 0 <= k < after.len() - 1 implies after[k] != seq!['.', '.'] by {
                        assert(after[k] == before[k]);
                        if k == before.len() - 1 && before[k] == seq!['.', '.'] {
                            assert(seg@.len() == 2 && seg@[0] == '.' && seg@[1] == '.');
                        }
                    }
                } else if dotdot {
                    assert(after[before.len() - 1] == seq!['.', '.']);
                } else {
                    let k = choose|k: int| 0 <= k < before.len() - 1 && before[k] == seq!['.', '.'];
                    assert(after[k] == before[k]);
                }
            }
        } else {
            seg.push(c);
            proof {
                let after = path_segments(p.take(i + 1));
                assert(after == before.update(before.len() - 1, before.last().push(c)));
                assert(seg@ == after.last());
                assert forall|k: int| 0 <= k < after.len() - 1 implies after[k] == before[k] by {}
                if !segs_ok {
                    let k = choose|k: int| 0 <= k < before.len() - 1 && before[k] == seq!['.', '.'];
                    assert(after[k] == before[k]);
                }
            }
        }
        i = i + 1;
    }
    proof {
        assert(p.take(p.len() as int) =~= p);
    }
    let last_dotdot = seg.len() == 2 && seg[0] == '.' && seg[1] == '.';
    let last_dot = seg.len() == 1 && seg[0] == '.';
    proof {
        let segs = path_segments(p);
        if last_dotdot {
            assert(seg@ =~= seq!['.', '.']);
        } else if seg@ == seq!['.', '.'] {
            assert(seg@.len() == 2 && seg@[0] == '.' && seg@[1] == '.');
        }
        if last_dot {
            assert(seg@ =~= seq!['.']);
        } else if seg@ == seq!['.'] {
            assert(seg@.len() == 1 && seg@[0] == '.');
        }
        assert((forall|k: int| 0 <= k < segs.len() ==> segs[k] != seq!['.', '.']) == (segs_ok && !last_dotdot)) by {
            if segs_ok && !last_dotdot {
                assert forall|k: int| 0 <= k < segs.len() implies segs[k] != seq!['.', '.'] by {
                    if k < segs.len() - 1 {
                    }
                }
            }
            if last_dotdot {
                assert(segs[segs.len() - 1] == seq!['.', '.']);
            }
        }
    }
    let absolute = chars.len() > 0 && chars[0] == '/';
    let first_dot = if seen_sep { first_is_dot } else { last_dot };
    !absolute && !first_dot && segs_ok && !last_dotdot
}

} // verus!
