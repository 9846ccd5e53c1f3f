//! Byte ranges of a query's source.

use vstd::prelude::*;

use crate::text;

verus! {

/// The half-open byte range `start..end` of a source text.
#[derive(Debug, Clone, Copy, PartialEq, Eq, Structural)]
pub struct Span {
    pub start: usize,
    pub end: usize,
}

impl Default for Span {
    fn default() -> (r: Span)
        ensures
            r == no_span(),
    {
        Span { start: 0, end: 0 }
    }
}

/// The empty range at the start of the source.
pub open spec fn no_span() -> Span {
    Span { start: 0, end: 0 }
}

/// The range from the start of `a` to the end of `b`.
pub open spec fn joined(a: Span, b: Span) -> Span {
    Span { start: a.start, end: b.end }
}

/// The characters of `source` that begin before the byte `at`.
pub open spec fn text_before(source: Seq<char>, at: nat) -> Seq<char>
    decreases source.len(),
{
    if source.len() == 0 || text::byte_len(source.drop_last()) < at {
        source
    } else {
        text_before(source.drop_last(), at)
    }
}

/// The characters of `source` that begin at the byte `start` or behind it, and
/// before the byte `end`.
pub open spec fn text_between(source: Seq<char>, start: nat, end: nat) -> Seq<char> {
    let before = text_before(source, start).len();
    let all = text_before(source, end);
    if before <= all.len() {
        all.skip(before as int)
    } else {
        seq![]
    }
}

/// The 1-based line on which a text that begins with `before` goes on.
pub open spec fn line_after(before: Seq<char>) -> nat
    decreases before.len(),
{
    if before.len() == 0 {
        1
    } else if before.last() == '\n' {
        line_after(before.drop_last()) + 1
    } else {
        line_after(before.drop_last())
    }
}

/// The 1-based column, in characters, at which a text that begins with
/// `before` goes on.
pub open spec fn column_after(before: Seq<char>) -> nat
    decreases before.len(),
{
    if before.len() == 0 || before.last() == '\n' {
        1
    } else {
        column_after(before.drop_last()) + 1
    }
}

proof fn lemma_before_prefix(source: Seq<char>, i: int, at: nat)
    requires
        0 <= i <= source.len(),
        i == 0 || text::byte_len(source.take(i - 1)) < at,
        text::byte_len(source.take(i)) >= at || i == source.len(),
    ensures
        text_before(source, at) == source.take(i),
    decreases source.len(),
{
    if i == source.len() {
        assert(source.take(i) =~= source);
        if i > 0 {
            assert(source.take(i - 1) =~= source.drop_last());
        }
    } else {
        let s = source.drop_last();
        text::lemma_byte_len_take(source, i, source.len() - 1);
        assert(source.take(source.len() - 1) =~= s);
        assert(s.take(i) =~= source.take(i));
        if i > 0 {
            assert(s.take(i - 1) =~= source.take(i - 1));
        }
        lemma_before_prefix(s, i, at);
    }
}

impl Span {
    pub fn new(start: usize, end: usize) -> (r: Span)
        ensures
            r == (Span { start, end }),
    {
        Span { start, end }
    }

    /// The range from the start of this one to the end of `other`.
    pub fn to(self, other: Span) -> (r: Span)
        ensures
            r == joined(self, other),
    {
        Span { start: self.start, end: other.end }
    }

    /// The 1-based line and column, in characters, at which the range starts.
    pub fn line_col(&self, source: &str) -> (r: (usize, usize))
        ensures
            r.0 == line_after(text_before(source@, self.start as nat)),
            r.1 == column_after(text_before(source@, self.start as nat)),
    {
        let chars = text::chars_of(source);
        let mut line: usize = 1;
        let mut col: usize = 1;
        let mut i: usize = 0;
        let mut at: usize = 0;
        proof {
            assert(chars@.take(0) =~= Seq::<char>::empty());
        }
        while i < chars.len() && at < self.start
            invariant
                i <= chars.len(),
                chars@ == source@,
                text::byte_len(chars@) <= isize::MAX,
                at == text::byte_len(chars@.take(i as int)),
                i == 0 || text::byte_len(chars@.take(i - 1)) < self.start,
                line == line_after(chars@.take(i as int)),
                col == column_after(chars@.take(i as int)),
                1 <= line <= i + 1,
                1 <= col <= i + 1,
            decreases chars.len() - i,
        {
            let c = chars[i];
            proof {
                text::lemma_byte_len_take_next(chars@, i as int);
                text::lemma_byte_len_take(chars@, i + 1, chars@.len() as int);
                assert(chars@.take(chars@.len() as int) =~= chars@);
                text::lemma_byte_len_at_least(chars@);
                assert(chars@.take(i + 1).drop_last() =~= chars@.take(i as int));
            }
            if c == '\n' {
                line += 1;
                col = 1;
            } else {
                col += 1;
            }
            at += text::utf8_width(c);
            i += 1;
            assert(chars@.take(i - 1) =~= chars@.take(i as int).drop_last());
        }
        proof {
            lemma_before_prefix(chars@, i as int, self.start as nat);
        }
        (line, col)
    }
}

/// How many characters begin before the byte `at`.
fn count_before(chars: &Vec<char>, at: usize) -> (r: usize)
    requires
        text::byte_len(chars@) <= isize::MAX,
    ensures
        r <= chars@.len(),
        text_before(chars@, at as nat) == chars@.take(r as int),
{
    let mut i: usize = 0;
    let mut done: usize = 0;
    assert(chars@.take(0) =~= Seq::<char>::empty());
    while i < chars.len() && done < at
        invariant
            i <= chars.len(),
            text::byte_len(chars@) <= isize::MAX,
            done == text::byte_len(chars@.take(i as int)),
            i == 0 || text::byte_len(chars@.take(i - 1)) < at,
        decreases chars.len() - i,
    {
        proof {
            text::lemma_byte_len_take_next(chars@, i as int);
            text::lemma_byte_len_take(chars@, i + 1, chars@.len() as int);
            assert(chars@.take(chars@.len() as int) =~= chars@);
        }
        done += text::utf8_width(chars[i]);
        i += 1;
        assert(chars@.take(i - 1) =~= chars@.take(i as int).drop_last());
    }
    proof {
        lemma_before_prefix(chars@, i as int, at as nat);
    }
    i
}

/// The characters of `source` between two bytes.
pub(crate) fn slice_between(source: &str, start: usize, end: usize) -> (r: String)
    ensures
        r@ == text_between(source@, start as nat, end as nat),
{
    let chars = text::chars_of(source);
    let from: usize = count_before(&chars, start);
    let to: usize = count_before(&chars, end);
    if from <= to {
        let r = text::text_of(&chars, from, to);
        assert(r@ =~= text_between(source@, start as nat, end as nat));
        r
    } else {
        String::new()
    }
}

/// How an error with text `shown` at `span` reads against its source.
pub open spec fn rendered(span: Span, shown: Seq<char>, source: Seq<char>) -> Seq<char> {
    let before = text_before(source, span.start as nat);
    "line "@ + text::decimal(line_after(before)) + ", column "@ + text::decimal(column_after(before)) + ": "@
        + shown
}

/// The text `shown` behind the line and column at which `span` starts.
pub(crate) fn render_at(span: Span, shown: &str, source: &str) -> (r: String)
    ensures
        r@ == rendered(span, shown@, source@),
{
    let (line, col) = span.line_col(source);
    let mut out = text::join3("line ", text::decimal_text(line as u64).as_str(), ", column ");
    let rest = text::join3(text::decimal_text(col as u64).as_str(), ": ", shown);
    out = text::join2(out.as_str(), rest.as_str());
    proof {
        let before = text_before(source@, span.start as nat);
        assert(out@ =~= "line "@ + text::decimal(line_after(before)) + ", column "@ + text::decimal(
            column_after(before),
        ) + ": "@ + shown@);
    }
    out
}

/// ` at bytes start..end`.
pub open spec fn at_bytes(span: Span) -> Seq<char> {
    " at bytes "@ + text::decimal(span.start as nat) + ".."@ + text::decimal(span.end as nat)
}

pub(crate) fn at_bytes_text(span: Span) -> (r: String)
    ensures
        r@ == at_bytes(span),
{
    let start = text::decimal_text(span.start as u64);
    let end = text::decimal_text(span.end as u64);
    let head = text::join2(" at bytes ", start.as_str());
    text::join3(head.as_str(), "..", end.as_str())
}

} // verus!
