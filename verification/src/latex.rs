//! LaTeX span extraction and rendering.
//!
//! A page's raw text is split, in one left-to-right scan, into literal spans
//! and equation spans.  A block equation is delimited by `$$` on both sides;
//! an inline equation is delimited by `\\(` and `\\)`.  Block markers are
//! tried before inline markers at each position, a literal run is the longest
//! stretch of text up to the next marker, and an open marker with no matching
//! close marker fails the whole parse.

use vstd::prelude::*;

verus! {

/// A classified contiguous region of source text.
#[derive(Clone, Debug, PartialEq)]
pub enum AST {
    /// Passthrough text, opaque to the extractor.
    Literal(String),
    /// Equation source meant for inline (non-display) rendering.
    InlineEq(String),
    /// Equation source meant for display-mode rendering.
    BlockEq(String),
}

/// Mathematical model of one span.
pub enum SpanView {
    Literal(Seq<char>),
    InlineEq(Seq<char>),
    BlockEq(Seq<char>),
}

impl View for AST {
    type V = SpanView;

    open spec fn view(&self) -> SpanView {
        match self {
            AST::Literal(s) => SpanView::Literal(s@),
            AST::InlineEq(s) => SpanView::InlineEq(s@),
            AST::BlockEq(s) => SpanView::BlockEq(s@),
        }
    }
}

impl DeepView for AST {
    type V = SpanView;

    open spec fn deep_view(&self) -> SpanView {
        self.view()
    }
}

/// The two-character marker that opens and closes a block equation.
pub open spec fn block_marker() -> Seq<char> {
    seq!['$', '$']
}

/// The three-character marker that opens an inline equation.
pub open spec fn inline_open_marker() -> Seq<char> {
    seq!['\\', '\\', '(']
}

/// The three-character marker that closes an inline equation.
pub open spec fn inline_close_marker() -> Seq<char> {
    seq!['\\', '\\', ')']
}

/// `pat` occurs in `s` at position `i`.
pub open spec fn is_at(s: Seq<char>, pat: Seq<char>, i: int) -> bool {
    0 <= i && i + pat.len() <= s.len() && s.subrange(i, i + pat.len() as int) == pat
}

/// Some equation marker opens at position `i` of `s`.
pub open spec fn marker_at(s: Seq<char>, i: int) -> bool {
    is_at(s, block_marker(), i) || is_at(s, inline_open_marker(), i)
}

/// Position of the first occurrence of `pat` in `s`, if any.
pub open spec fn find_seq(s: Seq<char>, pat: Seq<char>) -> Option<int>
    decreases s.len(),
{
    if is_at(s, pat, 0) {
        Some(0)
    } else if s.len() == 0 {
        None
    } else {
        match find_seq(s.drop_first(), pat) {
            Some(i) => Some(i + 1),
            None => None,
        }
    }
}

/// Length of the literal run at the start of `s`: the number of characters
/// before the first marker, or all of `s` if no marker occurs.
pub open spec fn literal_len(s: Seq<char>) -> nat
    decreases s.len(),
{
    if s.len() == 0 || marker_at(s, 0) {
        0
    } else {
        1 + literal_len(s.drop_first())
    }
}

/// Content and remainder of a delimited region opening at the start of `s`,
/// or `None` if `s` does not start with `open` or the first `close` after it
/// is missing.  The content is everything up to the first `close`; nested
/// delimiters are out of the grammar.
pub open spec fn delimited_at(s: Seq<char>, open: Seq<char>, close: Seq<char>) -> Option<
    (Seq<char>, Seq<char>),
> {
    if is_at(s, open, 0) {
        let rest = s.skip(open.len() as int);
        match find_seq(rest, close) {
            Some(k) => Some((rest.take(k), rest.skip(k + close.len()))),
            None => None,
        }
    } else {
        None
    }
}

/// The extraction grammar: split `s` into spans, or fail with the remainder
/// of the input starting at an open marker that has no matching close.
pub open spec fn extract_spans(s: Seq<char>) -> Result<Seq<SpanView>, Seq<char>>
    decreases s.len(),
{
    if s.len() == 0 {
        Ok(Seq::empty())
    } else if is_at(s, block_marker(), 0) {
        match delimited_at(s, block_marker(), block_marker()) {
            Some(pair) => {
                proof {
                    lemma_delimited_at_bounds(s, block_marker(), block_marker());
                }
                match extract_spans(pair.1) {
                    Ok(tl) => Ok(seq![SpanView::BlockEq(pair.0)] + tl),
                    Err(e) => Err(e),
                }
            },
            None => Err(s),
        }
    } else if is_at(s, inline_open_marker(), 0) {
        match delimited_at(s, inline_open_marker(), inline_close_marker()) {
            Some(pair) => {
                proof {
                    lemma_delimited_at_bounds(s, inline_open_marker(), inline_close_marker());
                }
                match extract_spans(pair.1) {
                    Ok(tl) => Ok(seq![SpanView::InlineEq(pair.0)] + tl),
                    Err(e) => Err(e),
                }
            },
            None => Err(s),
        }
    } else {
        let l = literal_len(s) as int;
        proof {
            lemma_literal_len_le(s);
        }
        match extract_spans(s.skip(l)) {
            Ok(tl) => Ok(seq![SpanView::Literal(s.take(l))] + tl),
            Err(e) => Err(e),
        }
    }
}

/// Substituting each equation span with its original delimited text.
pub open spec fn reconstruct(spans: Seq<SpanView>) -> Seq<char>
    decreases spans.len(),
{
    if spans.len() == 0 {
        Seq::empty()
    } else {
        (match spans[0] {
            SpanView::Literal(t) => t,
            SpanView::InlineEq(t) => inline_open_marker() + t + inline_close_marker(),
            SpanView::BlockEq(t) => block_marker() + t + block_marker(),
        }) + reconstruct(spans.drop_first())
    }
}

// ---------------------------------------------------------------------------
// Lemmas about the scanning primitives.
// ---------------------------------------------------------------------------

/// Occurrences of `pat` shift with `skip`.
pub proof fn lemma_is_at_skip(s: Seq<char>, pat: Seq<char>, m: int, j: int)
    requires
        0 <= m <= s.len(),
        m <= j,
    ensures
        is_at(s, pat, j) == is_at(s.skip(m), pat, j - m),
{
    if is_at(s, pat, j) {
        assert(s.skip(m).subrange(j - m, j - m + pat.len()) =~= s.subrange(j, j + pat.len()));
    }
    if is_at(s.skip(m), pat, j - m) {
        assert(s.subrange(j, j + pat.len()) =~= s.skip(m).subrange(j - m, j - m + pat.len()));
    }
}

/// Markers shift with `skip`.
pub proof fn lemma_marker_at_skip(s: Seq<char>, m: int, j: int)
    requires
        0 <= m <= s.len(),
        m <= j,
    ensures
        marker_at(s, j) == marker_at(s.skip(m), j - m),
{
    lemma_is_at_skip(s, block_marker(), m, j);
    lemma_is_at_skip(s, inline_open_marker(), m, j);
}

/// What a successful `find_seq` means: a match at the result, none earlier.
pub proof fn lemma_find_seq_some(s: Seq<char>, pat: Seq<char>)
    requires
        find_seq(s, pat) is Some,
    ensures
        is_at(s, pat, find_seq(s, pat)->0),
        forall|j: int| 0 <= j < find_seq(s, pat)->0 ==> !is_at(s, pat, j),
    decreases s.len(),
{
    let k = find_seq(s, pat)->0;
    if is_at(s, pat, 0) {
    } else {
        lemma_find_seq_some(s.drop_first(), pat);
        assert(s.drop_first() == s.skip(1));
        lemma_is_at_skip(s, pat, 1, k);
        assert forall|j: int| 0 <= j < k implies !is_at(s, pat, j) by {
            if j > 0 {
                lemma_is_at_skip(s, pat, 1, j);
            }
        }
    }
}

/// A minimal occurrence is what `find_seq` returns.
pub proof fn lemma_find_seq_min(s: Seq<char>, pat: Seq<char>, k: int)
    requires
        0 <= k,
        is_at(s, pat, k),
        forall|j: int| 0 <= j < k ==> !is_at(s, pat, j),
    ensures
        find_seq(s, pat) == Some(k),
    decreases k,
{
    if k == 0 {
    } else {
        assert(!is_at(s, pat, 0));
        assert(s.len() > 0);
        assert(s.drop_first() == s.skip(1));
        lemma_is_at_skip(s, pat, 1, k);
        assert forall|j: int| 0 <= j < k - 1 implies !is_at(s.drop_first(), pat, j) by {
            lemma_is_at_skip(s, pat, 1, j + 1);
        }
        lemma_find_seq_min(s.drop_first(), pat, k - 1);
    }
}

/// If `pat` occurs nowhere in `s`, `find_seq` fails.
pub proof fn lemma_find_seq_none(s: Seq<char>, pat: Seq<char>)
    requires
        forall|j: int| 0 <= j ==> !is_at(s, pat, j),
    ensures
        find_seq(s, pat) is None,
    decreases s.len(),
{
    if s.len() == 0 {
    } else {
        assert(s.drop_first() == s.skip(1));
        assert forall|j: int| 0 <= j implies !is_at(s.drop_first(), pat, j) by {
            lemma_is_at_skip(s, pat, 1, j + 1);
        }
        lemma_find_seq_none(s.drop_first(), pat);
    }
}

/// The literal run never runs past the end of the input.
pub proof fn lemma_literal_len_le(s: Seq<char>)
    ensures
        literal_len(s) <= s.len(),
    decreases s.len(),
{
    if s.len() == 0 || marker_at(s, 0) {
    } else {
        lemma_literal_len_le(s.drop_first());
    }
}

/// A run with no marker inside and a marker (or the end) after it is the
/// literal run.
pub proof fn lemma_literal_len_min(s: Seq<char>, l: int)
    requires
        0 <= l <= s.len(),
        forall|j: int| 0 <= j < l ==> !marker_at(s, j),
        l == s.len() || marker_at(s, l),
    ensures
        literal_len(s) == l,
    decreases l,
{
    if l == 0 {
    } else {
        assert(!marker_at(s, 0));
        assert(s.drop_first() == s.skip(1));
        assert forall|j: int| 0 <= j < l - 1 implies !marker_at(s.drop_first(), j) by {
            lemma_marker_at_skip(s, 1, j + 1);
        }
        if l < s.len() {
            lemma_marker_at_skip(s, 1, l);
        }
        lemma_literal_len_min(s.drop_first(), l - 1);
    }
}

/// A successful delimited region sits inside the input, and its remainder is
/// strictly shorter than the input.
pub proof fn lemma_delimited_at_bounds(s: Seq<char>, open: Seq<char>, close: Seq<char>)
    requires
        open.len() > 0,
        close.len() > 0,
        delimited_at(s, open, close) is Some,
    ensures
        (delimited_at(s, open, close)->0).1.len() < s.len(),
        (delimited_at(s, open, close)->0).1.len() == s.len() - open.len() - close.len() - (
        delimited_at(s, open, close)->0).0.len(),
{
    let rest = s.skip(open.len() as int);
    lemma_find_seq_some(rest, close);
    let k = find_seq(rest, close)->0;
    assert(k + close.len() <= rest.len());
}

// ---------------------------------------------------------------------------
// The grammar's laws.
// ---------------------------------------------------------------------------

/// Substituting each equation span with its original delimited text
/// reproduces the input exactly: extraction loses nothing.
pub proof fn lemma_extract_roundtrip(s: Seq<char>)
    ensures
        extract_spans(s) matches Ok(spans) ==> reconstruct(spans) == s,
    decreases s.len(),
{
    if s.len() == 0 {
        assert(reconstruct(Seq::empty()) =~= s);
    } else if is_at(s, block_marker(), 0) {
        match delimited_at(s, block_marker(), block_marker()) {
            Some(pair) => {
                lemma_delimited_at_bounds(s, block_marker(), block_marker());
                lemma_extract_roundtrip(pair.1);
                let rest = s.skip(2);
                lemma_find_seq_some(rest, block_marker());
                match extract_spans(pair.1) {
                    Ok(tl) => {
                        let spans = seq![SpanView::BlockEq(pair.0)] + tl;
                        assert(spans.drop_first() =~= tl);
                        assert(spans[0] == SpanView::BlockEq(pair.0));
                        assert(((block_marker() + pair.0) + block_marker()) + pair.1 =~= s);
                    },
                    Err(_) => {},
                }
            },
            None => {},
        }
    } else if is_at(s, inline_open_marker(), 0) {
        match delimited_at(s, inline_open_marker(), inline_close_marker()) {
            Some(pair) => {
                lemma_delimited_at_bounds(s, inline_open_marker(), inline_close_marker());
                lemma_extract_roundtrip(pair.1);
                let rest = s.skip(3);
                lemma_find_seq_some(rest, inline_close_marker());
                match extract_spans(pair.1) {
                    Ok(tl) => {
                        let spans = seq![SpanView::InlineEq(pair.0)] + tl;
                        assert(spans.drop_first() =~= tl);
                        assert(spans[0] == SpanView::InlineEq(pair.0));
                        assert(((inline_open_marker() + pair.0) + inline_close_marker()) + pair.1
                            =~= s);
                    },
                    Err(_) => {},
                }
            },
            None => {},
        }
    } else {
        let l = literal_len(s) as int;
        lemma_literal_len_le(s);
        lemma_extract_roundtrip(s.skip(l));
        match extract_spans(s.skip(l)) {
            Ok(tl) => {
                let spans = seq![SpanView::Literal(s.take(l))] + tl;
                assert(spans.drop_first() =~= tl);
                assert(spans[0] == SpanView::Literal(s.take(l)));
                assert(s.take(l) + s.skip(l) =~= s);
            },
            Err(_) => {},
        }
    }
}

/// A block-open marker with no later close fails the parse, with the
/// remainder starting at the open marker.  `k` is the position the scan
/// reaches: no marker occurs before it.
pub proof fn lemma_unmatched_block_open_fails(s: Seq<char>, k: int)
    requires
        is_at(s, block_marker(), k),
        forall|j: int| 0 <= j < k ==> !marker_at(s, j),
        forall|j: int| k + 2 <= j ==> !is_at(s, block_marker(), j),
    ensures
        extract_spans(s) == Err::<Seq<SpanView>, _>(s.skip(k)),
{
    let suffix = s.skip(k);
    lemma_is_at_skip(s, block_marker(), k, k);
    assert(is_at(suffix, block_marker(), 0));
    let rest = suffix.skip(2);
    assert(rest =~= s.skip(k + 2));
    assert forall|j: int| 0 <= j implies !is_at(rest, block_marker(), j) by {
        lemma_is_at_skip(s, block_marker(), k + 2, j + k + 2);
    }
    lemma_find_seq_none(rest, block_marker());
    assert(extract_spans(suffix) == Err::<Seq<SpanView>, _>(suffix));
    if k == 0 {
        assert(s.skip(0) =~= s);
        assert(extract_spans(s) == extract_spans(suffix));
    } else {
        lemma_literal_len_min(s, k);
        assert(!marker_at(s, 0));
        assert(extract_spans(s) == Err::<Seq<SpanView>, _>(suffix));
    }
}

/// An inline-open marker with no later inline close fails the parse, with
/// the remainder starting at the open marker.
pub proof fn lemma_unmatched_inline_open_fails(s: Seq<char>, k: int)
    requires
        is_at(s, inline_open_marker(), k),
        !is_at(s, block_marker(), k),
        forall|j: int| 0 <= j < k ==> !marker_at(s, j),
        forall|j: int| k + 3 <= j ==> !is_at(s, inline_close_marker(), j),
    ensures
        extract_spans(s) == Err::<Seq<SpanView>, _>(s.skip(k)),
{
    let suffix = s.skip(k);
    lemma_is_at_skip(s, inline_open_marker(), k, k);
    lemma_is_at_skip(s, block_marker(), k, k);
    assert(is_at(suffix, inline_open_marker(), 0));
    assert(!is_at(suffix, block_marker(), 0));
    let rest = suffix.skip(3);
    assert(rest =~= s.skip(k + 3));
    assert forall|j: int| 0 <= j implies !is_at(rest, inline_close_marker(), j) by {
        lemma_is_at_skip(s, inline_close_marker(), k + 3, j + k + 3);
    }
    lemma_find_seq_none(rest, inline_close_marker());
    assert(extract_spans(suffix) == Err::<Seq<SpanView>, _>(suffix));
    if k == 0 {
        assert(s.skip(0) =~= s);
        assert(extract_spans(s) == extract_spans(suffix));
    } else {
        lemma_literal_len_min(s, k);
        assert(!marker_at(s, 0));
        assert(extract_spans(s) == Err::<Seq<SpanView>, _>(suffix));
    }
}

// ---------------------------------------------------------------------------
// The scanner.
// ---------------------------------------------------------------------------

/// Unmatched LaTeX open marker; carries the unmatched input remainder.
#[derive(Clone, Debug, PartialEq)]
pub struct DelimiterError {
    pub remainder: String,
}

fn block_marker_at(s: &str, i: usize) -> (b: bool)
    ensures
        b == is_at(s@, block_marker(), i as int),
{
    let n = s.unicode_len();
    if i < n && n - i >= 2 {
        let b = s.get_char(i) == '$' && s.get_char(i + 1) == '$';
        proof {
            let sub = s@.subrange(i as int, i + 2);
            assert(sub[0] == s@[i as int]);
            assert(sub[1] == s@[i + 1]);
            if b {
                assert(sub =~= block_marker());
            }
        }
        b
    } else {
        proof {
            assert(block_marker().len() == 2);
        }
        false
    }
}

fn inline_open_at(s: &str, i: usize) -> (b: bool)
    ensures
        b == is_at(s@, inline_open_marker(), i as int),
{
    let n = s.unicode_len();
    if i < n && n - i >= 3 {
        let b = s.get_char(i) == '\\' && s.get_char(i + 1) == '\\' && s.get_char(i + 2) == '(';
        proof {
            let sub = s@.subrange(i as int, i + 3);
            assert(sub[0] == s@[i as int]);
            assert(sub[1] == s@[i + 1]);
            assert(sub[2] == s@[i + 2]);
            if b {
                assert(sub =~= inline_open_marker());
            }
        }
        b
    } else {
        proof {
            assert(inline_open_marker().len() == 3);
        }
        false
    }
}

fn inline_close_at(s: &str, i: usize) -> (b: bool)
    ensures
        b == is_at(s@, inline_close_marker(), i as int),
{
    let n = s.unicode_len();
    if i < n && n - i >= 3 {
        let b = s.get_char(i) == '\\' && s.get_char(i + 1) == '\\' && s.get_char(i + 2) == ')';
        proof {
            let sub = s@.subrange(i as int, i + 3);
            assert(sub[0] == s@[i as int]);
            assert(sub[1] == s@[i + 1]);
            assert(sub[2] == s@[i + 2]);
            if b {
                assert(sub =~= inline_close_marker());
            }
        }
        b
    } else {
        proof {
            assert(inline_close_marker().len() == 3);
        }
        false
    }
}

/// First block marker at or after `from`.
fn find_block_from(s: &str, from: usize) -> (r: Option<usize>)
    requires
        from <= s@.len(),
    ensures
        r matches Some(k) ==> from <= k && is_at(s@, block_marker(), k as int) && (forall|j: int|
            from <= j < k ==> !is_at(s@, block_marker(), j)),
        r is None ==> forall|j: int| from <= j ==> !is_at(s@, block_marker(), j),
{
    let n = s.unicode_len();
    let mut idx = from;
    while idx < n
        invariant
            from <= idx <= n,
            n == s@.len(),
            forall|j: int| from <= j < idx ==> !is_at(s@, block_marker(), j),
        decreases n - idx,
    {
        if block_marker_at(s, idx) {
            return Some(idx);
        }
        idx = idx + 1;
    }
    proof {
        assert(block_marker().len() == 2);
    }
    None
}

/// First inline-close marker at or after `from`.
fn find_inline_close_from(s: &str, from: usize) -> (r: Option<usize>)
    requires
        from <= s@.len(),
    ensures
        r matches Some(k) ==> from <= k && is_at(s@, inline_close_marker(), k as int) && (forall|
            j: int,
        |
            from <= j < k ==> !is_at(s@, inline_close_marker(), j)),
        r is None ==> forall|j: int| from <= j ==> !is_at(s@, inline_close_marker(), j),
{
    let n = s.unicode_len();
    let mut idx = from;
    while idx < n
        invariant
            from <= idx <= n,
            n == s@.len(),
            forall|j: int| from <= j < idx ==> !is_at(s@, inline_close_marker(), j),
        decreases n - idx,
    {
        if inline_close_at(s, idx) {
            return Some(idx);
        }
        idx = idx + 1;
    }
    proof {
        assert(inline_close_marker().len() == 3);
    }
    None
}

/// End of the literal run that starts at `from`: the position of the next
/// marker, or the end of the input.
fn scan_literal(s: &str, from: usize) -> (l: usize)
    requires
        from <= s@.len(),
    ensures
        from <= l <= s@.len(),
        forall|j: int| from <= j < l ==> !marker_at(s@, j),
        l == s@.len() || marker_at(s@, l as int),
{
    let n = s.unicode_len();
    let mut idx = from;
    while idx < n
        invariant
            from <= idx <= n,
            n == s@.len(),
            forall|j: int| from <= j < idx ==> !marker_at(s@, j),
        decreases n - idx,
    {
        if block_marker_at(s, idx) {
            return idx;
        }
        if inline_open_at(s, idx) {
            return idx;
        }
        idx = idx + 1;
    }
    idx
}

/// Consume the literal run at the start of the input; always succeeds and
/// returns the remainder beside the span.  The run may be empty when the
/// input begins with a marker or is empty.
pub fn parse_text(i: &str) -> (r: Result<(String, AST), DelimiterError>)
    ensures
        r is Ok,
        r matches Ok(p) ==> p.0@ == i@.skip(literal_len(i@) as int) && p.1@ == SpanView::Literal(
            i@.take(literal_len(i@) as int),
        ),
{
    let n = i.unicode_len();
    let l = scan_literal(i, 0);
    proof {
        lemma_literal_len_min(i@, l as int);
    }
    let content = i.substring_char(0, l);
    let rest = i.substring_char(l, n);
    Ok((String::from_str(rest), AST::Literal(String::from_str(content))))
}

/// Consume a block equation at the start of the input: `$$`, content up to
/// the next `$$`, and that close marker; fails otherwise.
pub fn parse_block_equation(i: &str) -> (r: Result<(String, AST), DelimiterError>)
    ensures
        r matches Ok(p) ==> delimited_at(i@, block_marker(), block_marker()) matches Some(pair)
            && p.0@ == pair.1 && p.1@ == SpanView::BlockEq(pair.0),
        r is Err ==> delimited_at(i@, block_marker(), block_marker()) is None,
{
    let n = i.unicode_len();
    if !block_marker_at(i, 0) {
        return Err(DelimiterError { remainder: String::from_str(i) });
    }
    match find_block_from(i, 2) {
        None => {
            proof {
                assert forall|j: int| 0 <= j implies !is_at(i@.skip(2), block_marker(), j) by {
                    lemma_is_at_skip(i@, block_marker(), 2, j + 2);
                }
                lemma_find_seq_none(i@.skip(2), block_marker());
            }
            Err(DelimiterError { remainder: String::from_str(i) })
        },
        Some(k) => {
            let content = i.substring_char(2, k);
            let rest = i.substring_char(k + 2, n);
            proof {
                assert forall|j: int| 0 <= j < k - 2 implies !is_at(
                    i@.skip(2),
                    block_marker(),
                    j,
                ) by {
                    lemma_is_at_skip(i@, block_marker(), 2, j + 2);
                }
                lemma_is_at_skip(i@, block_marker(), 2, k as int);
                lemma_find_seq_min(i@.skip(2), block_marker(), k - 2);
                assert(i@.skip(2).take(k - 2) =~= i@.subrange(2, k as int));
                assert(i@.skip(2).skip(k - 2 + 2) =~= i@.subrange(k + 2, n as int));
            }
            Ok((String::from_str(rest), AST::BlockEq(String::from_str(content))))
        },
    }
}

/// Consume an inline equation at the start of the input: `\\(`, content up
/// to the next `\\)`, and that close marker; fails otherwise.
pub fn parse_inline_equation(i: &str) -> (r: Result<(String, AST), DelimiterError>)
    ensures
        r matches Ok(p) ==> delimited_at(i@, inline_open_marker(), inline_close_marker()) matches
            Some(pair) && p.0@ == pair.1 && p.1@ == SpanView::InlineEq(pair.0),
        r is Err ==> delimited_at(i@, inline_open_marker(), inline_close_marker()) is None,
{
    let n = i.unicode_len();
    if !inline_open_at(i, 0) {
        return Err(DelimiterError { remainder: String::from_str(i) });
    }
    match find_inline_close_from(i, 3) {
        None => {
            proof {
                assert forall|j: int| 0 <= j implies !is_at(
                    i@.skip(3),
                    inline_close_marker(),
                    j,
                ) by {
                    lemma_is_at_skip(i@, inline_close_marker(), 3, j + 3);
                }
                lemma_find_seq_none(i@.skip(3), inline_close_marker());
            }
            Err(DelimiterError { remainder: String::from_str(i) })
        },
        Some(k) => {
            let content = i.substring_char(3, k);
            let rest = i.substring_char(k + 3, n);
            proof {
                assert forall|j: int| 0 <= j < k - 3 implies !is_at(
                    i@.skip(3),
                    inline_close_marker(),
                    j,
                ) by {
                    lemma_is_at_skip(i@, inline_close_marker(), 3, j + 3);
                }
                lemma_is_at_skip(i@, inline_close_marker(), 3, k as int);
                lemma_find_seq_min(i@.skip(3), inline_close_marker(), k - 3);
                assert(i@.skip(3).take(k - 3) =~= i@.subrange(3, k as int));
                assert(i@.skip(3).skip(k - 3 + 3) =~= i@.subrange(k + 3, n as int));
            }
            Ok((String::from_str(rest), AST::InlineEq(String::from_str(content))))
        },
    }
}

/// Split raw page text into literal and equation spans in one left-to-right
/// scan.  On success the spans reconstruct the input exactly; an open marker
/// with no matching close fails the whole parse, and no spans are produced.
pub fn parse_latex(i: &str) -> (r: Result<Vec<AST>, DelimiterError>)
    ensures
        r matches Ok(v) ==> extract_spans(i@) matches Ok(sp) && v.deep_view() == sp,
        r matches Err(e) ==> extract_spans(i@) matches Err(rem) && e.remainder@ == rem,
{
    let n = i.unicode_len();
    let mut out: Vec<AST> = Vec::new();
    let mut pos: usize = 0;
    proof {
        assert(i@.skip(0) =~= i@);
        assert(out.deep_view() =~= Seq::<SpanView>::empty());
        match extract_spans(i@) {
            Ok(tl) => {
                assert(out.deep_view() + tl =~= tl);
            },
            Err(_) => {},
        }
    }
    while pos < n
        invariant
            pos <= n,
            n == i@.len(),
            (extract_spans(i@.skip(pos as int)) matches Ok(tl) ==> extract_spans(i@) == Ok::<
                _,
                Seq<char>,
            >(out.deep_view() + tl)),
            (extract_spans(i@.skip(pos as int)) matches Err(e) ==> extract_spans(i@) == Err::<
                Seq<SpanView>,
                _,
            >(e)),
        decreases n - pos,
    {
        let ghost p0 = pos as int;
        let ghost suffix = i@.skip(p0);
        let ghost old_view = out.deep_view();
        if block_marker_at(i, pos) {
            proof {
                lemma_is_at_skip(i@, block_marker(), p0, p0);
            }
            match find_block_from(i, pos + 2) {
                None => {
                    proof {
                        assert(suffix.skip(2) =~= i@.skip(p0 + 2));
                        assert forall|j: int| 0 <= j implies !is_at(
                            suffix.skip(2),
                            block_marker(),
                            j,
                        ) by {
                            lemma_is_at_skip(i@, block_marker(), p0 + 2, j + p0 + 2);
                        }
                        lemma_find_seq_none(suffix.skip(2), block_marker());
                        assert(extract_spans(suffix) == Err::<Seq<SpanView>, _>(suffix));
                    }
                    return Err(
                        DelimiterError { remainder: String::from_str(i.substring_char(pos, n)) },
                    );
                },
                Some(k) => {
                    let content = i.substring_char(pos + 2, k);
                    proof {
                        assert(suffix.skip(2) =~= i@.skip(p0 + 2));
                        assert forall|j: int| 0 <= j < k - p0 - 2 implies !is_at(
                            suffix.skip(2),
                            block_marker(),
                            j,
                        ) by {
                            lemma_is_at_skip(i@, block_marker(), p0 + 2, j + p0 + 2);
                        }
                        lemma_is_at_skip(i@, block_marker(), p0 + 2, k as int);
                        lemma_find_seq_min(suffix.skip(2), block_marker(), k - p0 - 2);
                        assert(suffix.skip(2).take(k - p0 - 2) =~= i@.subrange(p0 + 2, k as int));
                        assert(suffix.skip(2).skip(k - p0 - 2 + 2) =~= i@.skip(k + 2));
                    }
                    out.push(AST::BlockEq(String::from_str(content)));
                    pos = k + 2;
                    proof {
                        let ghost sv = SpanView::BlockEq(content@);
                        assert(out.deep_view() =~= old_view + seq![sv]);
                        match extract_spans(i@.skip(k + 2)) {
                            Ok(tl2) => {
                                assert(extract_spans(suffix) == Ok::<_, Seq<char>>(
                                    seq![sv] + tl2,
                                ));
                                assert(out.deep_view() + tl2 =~= old_view + (seq![sv] + tl2));
                            },
                            Err(e2) => {
                                assert(extract_spans(suffix) == Err::<Seq<SpanView>, _>(e2));
                            },
                        }
                    }
                },
            }
        } else if inline_open_at(i, pos) {
            proof {
                lemma_is_at_skip(i@, inline_open_marker(), p0, p0);
                lemma_is_at_skip(i@, block_marker(), p0, p0);
            }
            match find_inline_close_from(i, pos + 3) {
                None => {
                    proof {
                        assert(suffix.skip(3) =~= i@.skip(p0 + 3));
                        assert forall|j: int| 0 <= j implies !is_at(
                            suffix.skip(3),
                            inline_close_marker(),
                            j,
                        ) by {
                            lemma_is_at_skip(i@, inline_close_marker(), p0 + 3, j + p0 + 3);
                        }
                        lemma_find_seq_none(suffix.skip(3), inline_close_marker());
                        assert(extract_spans(suffix) == Err::<Seq<SpanView>, _>(suffix));
                    }
                    return Err(
                        DelimiterError { remainder: String::from_str(i.substring_char(pos, n)) },
                    );
                },
                Some(k) => {
                    let content = i.substring_char(pos + 3, k);
                    proof {
                        assert(suffix.skip(3) =~= i@.skip(p0 + 3));
                        assert forall|j: int| 0 <= j < k - p0 - 3 implies !is_at(
                            suffix.skip(3),
                            inline_close_marker(),
                            j,
                        ) by {
                            lemma_is_at_skip(i@, inline_close_marker(), p0 + 3, j + p0 + 3);
                        }
                        lemma_is_at_skip(i@, inline_close_marker(), p0 + 3, k as int);
                        lemma_find_seq_min(suffix.skip(3), inline_close_marker(), k - p0 - 3);
                        assert(suffix.skip(3).take(k - p0 - 3) =~= i@.subrange(p0 + 3, k as int));
                        assert(suffix.skip(3).skip(k - p0 - 3 + 3) =~= i@.skip(k + 3));
                    }
                    out.push(AST::InlineEq(String::from_str(content)));
                    pos = k + 3;
                    proof {
                        let ghost sv = SpanView::InlineEq(content@);
                        assert(out.deep_view() =~= old_view + seq![sv]);
                        match extract_spans(i@.skip(k + 3)) {
                            Ok(tl2) => {
                                assert(extract_spans(suffix) == Ok::<_, Seq<char>>(
                                    seq![sv] + tl2,
                                ));
                                assert(out.deep_view() + tl2 =~= old_view + (seq![sv] + tl2));
                            },
                            Err(e2) => {
                                assert(extract_spans(suffix) == Err::<Seq<SpanView>, _>(e2));
                            },
                        }
                    }
                },
            }
        } else {
            let l = scan_literal(i, pos);
            let content = i.substring_char(pos, l);
            proof {
                assert forall|j: int| 0 <= j < l - p0 implies !marker_at(suffix, j) by {
                    lemma_marker_at_skip(i@, p0, j + p0);
                }
                if (l as int) < n {
                    lemma_marker_at_skip(i@, p0, l as int);
                }
                lemma_literal_len_min(suffix, l - p0);
                assert(suffix.take(l - p0) =~= i@.subrange(p0, l as int));
                assert(suffix.skip(l - p0) =~= i@.skip(l as int));
            }
            out.push(AST::Literal(String::from_str(content)));
            pos = l;
            proof {
                let ghost sv = SpanView::Literal(content@);
                assert(out.deep_view() =~= old_view + seq![sv]);
                match extract_spans(i@.skip(l as int)) {
                    Ok(tl2) => {
                        assert(extract_spans(suffix) == Ok::<_, Seq<char>>(seq![sv] + tl2));
                        assert(out.deep_view() + tl2 =~= old_view + (seq![sv] + tl2));
                    },
                    Err(e2) => {
                        assert(extract_spans(suffix) == Err::<Seq<SpanView>, _>(e2));
                    },
                }
            }
        }
    }
    proof {
        assert(i@.skip(pos as int) =~= Seq::<char>::empty());
        assert(extract_spans(i@.skip(pos as int)) == Ok::<_, Seq<char>>(Seq::<SpanView>::empty()));
        assert(out.deep_view() + Seq::<SpanView>::empty() =~= out.deep_view());
    }
    Ok(out)
}

// ---------------------------------------------------------------------------
// Equation rendering.
// ---------------------------------------------------------------------------

/// Malformed equation source; carries the offending source snippet.
#[derive(Clone, Debug, PartialEq)]
pub struct EquationRenderError {
    pub source: String,
}

/// The macro table as a sequence of (name, expansion) pairs.
pub open spec fn macros_view(m: Seq<(String, String)>) -> Seq<(Seq<char>, Seq<char>)> {
    Seq::new(m.len(), |j: int| (m[j].0@, m[j].1@))
}

/// What the equation renderer returns for one equation source: the rendered
/// HTML fragment, or `None` for malformed source.  The result is a function
/// of the source, the display mode, and the macro table alone.
pub uninterp spec fn katex_out(src: Seq<char>, display: bool, macros: Seq<(Seq<char>, Seq<char>)>) -> Option<Seq<char>>;

/// Relies on `katex::render_with_opts`, called with trust enabled and the
/// given macro table: the rendered HTML, or the failure, is deterministic
/// for identical source, display mode, and macro set.  The options builder
/// cannot fail, as every option has a default.
#[verifier::external_body]
pub(crate) fn katex_render(src: &str, display: bool, macros: &Vec<(String, String)>) -> (r: Option<
    String,
>)
    ensures
        r is Some <==> katex_out(src@, display, macros_view(macros@)) is Some,
        r matches Some(h) ==> katex_out(src@, display, macros_view(macros@)) matches Some(v) && h@
            == v,
{
    let table: std::collections::HashMap<String, String> = macros.iter().cloned().collect();
    let opts = katex::Opts::builder()
        .display_mode(display)
        .trust(true)
        .macros(table)
        .build()
        .unwrap();
    katex::render_with_opts(src, &opts).ok()
}

/// Rendering a span sequence: literals pass through, equation spans become
/// the renderer's HTML, and the first malformed equation source fails the
/// whole rendering with that source.
pub open spec fn spec_render_latex(ast: Seq<SpanView>, macros: Seq<(Seq<char>, Seq<char>)>) -> Result<
    Seq<char>,
    Seq<char>,
>
    decreases ast.len(),
{
    if ast.len() == 0 {
        Ok(Seq::empty())
    } else {
        match ast[0] {
            SpanView::Literal(t) => match spec_render_latex(ast.drop_first(), macros) {
                Ok(r) => Ok(t + r),
                Err(e) => Err(e),
            },
            SpanView::InlineEq(t) => match katex_out(t, false, macros) {
                Some(h) => match spec_render_latex(ast.drop_first(), macros) {
                    Ok(r) => Ok(h + r),
                    Err(e) => Err(e),
                },
                None => Err(t),
            },
            SpanView::BlockEq(t) => match katex_out(t, true, macros) {
                Some(h) => match spec_render_latex(ast.drop_first(), macros) {
                    Ok(r) => Ok(h + r),
                    Err(e) => Err(e),
                },
                None => Err(t),
            },
        }
    }
}

/// Render a span sequence to one HTML string: literal spans verbatim, inline
/// equations in inline mode, block equations in display mode, in document
/// order.  The first malformed equation aborts the rendering and names its
/// source.
pub fn render_latex(ast: Vec<AST>, macros: &Vec<(String, String)>) -> (r: Result<
    String,
    EquationRenderError,
>)
    ensures
        r matches Ok(h) ==> spec_render_latex(ast.deep_view(), macros_view(macros@)) matches Ok(v)
            && h@ == v,
        r matches Err(e) ==> spec_render_latex(ast.deep_view(), macros_view(macros@)) matches Err(
            t,
        ) && e.source@ == t,
{
    let ghost all = ast.deep_view();
    let ghost m = macros_view(macros@);
    let mut outp = String::new();
    let mut idx: usize = 0;
    proof {
        assert(all.skip(0) =~= all);
    }
    while idx < ast.len()
        invariant
            idx <= ast.len(),
            all == ast.deep_view(),
            m == macros_view(macros@),
            (spec_render_latex(all.skip(idx as int), m) matches Ok(tl) ==> spec_render_latex(
                all,
                m,
            ) == Ok::<_, Seq<char>>(outp@ + tl)),
            (spec_render_latex(all.skip(idx as int), m) matches Err(e) ==> spec_render_latex(
                all,
                m,
            ) == Err::<Seq<char>, _>(e)),
        decreases ast.len() - idx,
    {
        let ghost i0 = idx as int;
        let ghost rest = all.skip(i0);
        let ghost out0 = outp@;
        proof {
            assert(rest[0] == all[i0]);
            assert(rest.drop_first() =~= all.skip(i0 + 1));
        }
        match &ast[idx] {
            AST::Literal(s) => {
                outp.append(s.as_str());
                proof {
                    lemma_render_latex_step(all, m, i0, out0, s@, outp@);
                }
            },
            AST::InlineEq(s) => {
                match katex_render(s.as_str(), false, macros) {
                    Some(h) => {
                        outp.append(h.as_str());
                        proof {
                            lemma_render_latex_step(all, m, i0, out0, h@, outp@);
                        }
                    },
                    None => {
                        return Err(EquationRenderError { source: s.clone() });
                    },
                }
            },
            AST::BlockEq(s) => {
                match katex_render(s.as_str(), true, macros) {
                    Some(h) => {
                        outp.append(h.as_str());
                        proof {
                            lemma_render_latex_step(all, m, i0, out0, h@, outp@);
                        }
                    },
                    None => {
                        return Err(EquationRenderError { source: s.clone() });
                    },
                }
            },
        }
        idx = idx + 1;
    }
    proof {
        assert(all.skip(ast.len() as int).len() == 0);
        assert(outp@ + Seq::<char>::empty() =~= outp@);
    }
    Ok(outp)
}

/// One step of the rendering loop: if the head span contributed `piece` and
/// the accumulator grew from `before` to `after == before + piece`, the
/// continuation claim carries from position `i + 1` back to position `i`.
proof fn lemma_render_latex_step(
    all: Seq<SpanView>,
    m: Seq<(Seq<char>, Seq<char>)>,
    i: int,
    before: Seq<char>,
    piece: Seq<char>,
    after: Seq<char>,
)
    requires
        0 <= i < all.len(),
        after == before + piece,
        (spec_render_latex(all.skip(i), m) matches Ok(tl) ==> spec_render_latex(all, m) == Ok::<
            _,
            Seq<char>,
        >(before + tl)),
        (spec_render_latex(all.skip(i), m) matches Err(e) ==> spec_render_latex(all, m) == Err::<
            Seq<char>,
            _,
        >(e)),
        match all[i] {
            SpanView::Literal(t) => piece == t,
            SpanView::InlineEq(t) => katex_out(t, false, m) == Some(piece),
            SpanView::BlockEq(t) => katex_out(t, true, m) == Some(piece),
        },
    ensures
        (spec_render_latex(all.skip(i + 1), m) matches Ok(tl) ==> spec_render_latex(all, m) == Ok::<
            _,
            Seq<char>,
        >(after + tl)),
        (spec_render_latex(all.skip(i + 1), m) matches Err(e) ==> spec_render_latex(all, m)
            == Err::<Seq<char>, _>(e)),
{
    let rest = all.skip(i);
    assert(rest[0] == all[i]);
    assert(rest.drop_first() =~= all.skip(i + 1));
    match spec_render_latex(all.skip(i + 1), m) {
        Ok(tl) => {
            assert(spec_render_latex(rest, m) == Ok::<_, Seq<char>>(piece + tl));
            assert(before + (piece + tl) =~= after + tl);
        },
        Err(_) => {},
    }
}

} // verus!
