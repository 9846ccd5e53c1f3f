//! What the tokens of a text are for: marks, names, texts and numbers are read as they
//! are written, and white space and comments are passed over.

use vstd::prelude::*;
use vstd::string::*;

use crate::error::ParseErrorView;
use crate::lex::{self, Digits, TokenKindView};
use crate::text;

verus! {

// --- Marks ------------------------------------------------------------------------------------------

/// The text of a mark.
pub open spec fn mark_text(kind: TokenKindView) -> Seq<char> {
    match kind {
        TokenKindView::LParen => seq!['('],
        TokenKindView::RParen => seq![')'],
        TokenKindView::LBracket => seq!['['],
        TokenKindView::RBracket => seq![']'],
        TokenKindView::LBrace => seq!['{'],
        TokenKindView::RBrace => seq!['}'],
        TokenKindView::Comma => seq![','],
        TokenKindView::Dot => seq!['.'],
        TokenKindView::DotDot => seq!['.', '.'],
        TokenKindView::Colon => seq![':'],
        TokenKindView::Semicolon => seq![';'],
        TokenKindView::Pipe => seq!['|'],
        TokenKindView::Star => seq!['*'],
        TokenKindView::Plus => seq!['+'],
        TokenKindView::Minus => seq!['-'],
        TokenKindView::Slash => seq!['/'],
        TokenKindView::Percent => seq!['%'],
        TokenKindView::Caret => seq!['^'],
        TokenKindView::Eq => seq!['='],
        TokenKindView::Ne => seq!['<', '>'],
        TokenKindView::Lt => seq!['<'],
        TokenKindView::Le => seq!['<', '='],
        TokenKindView::Gt => seq!['>'],
        TokenKindView::Ge => seq!['>', '='],
        TokenKindView::RegexEq => seq!['=', '~'],
        TokenKindView::Arrow => seq!['-', '>'],
        TokenKindView::LArrow => seq!['<', '-'],
        _ => seq![],
    }
}

/// Whether a text stands in another at a place.
pub open spec fn is_at(t: Seq<char>, s: Seq<char>, i: int) -> bool {
    &&& 0 <= i
    &&& i + t.len() <= s.len()
    &&& forall|k: int| 0 <= k < t.len() ==> s[i + k] == #[trigger] t[k]
}

/// Whether a text ends at a place or white space stands there.
pub open spec fn breaks_at(s: Seq<char>, i: int) -> bool {
    i == s.len() || (0 <= i < s.len() && text::is_whitespace(s[i]))
}

/// What is read as a mark is the text of that mark, and the text of a mark with a break
/// behind it is read as that mark.
pub proof fn marks_are_read_as_they_are_written(
    s: Seq<char>,
    i: int,
    kind: TokenKindView,
    end: int,
)
    requires
        0 <= i < s.len(),
        mark_text(kind).len() > 0,
    ensures
        lex::token_at(s, i) == Ok::<_, ParseErrorView>((kind, end)) ==> is_at(
            mark_text(kind),
            s,
            i,
        ) && end == i + mark_text(kind).len(),
        is_at(mark_text(kind), s, i) && end == i + mark_text(kind).len() && breaks_at(s, end)
            ==> lex::token_at(s, i) == Ok::<_, ParseErrorView>((kind, end)),
{
    lemma_only_marks(s, i, kind, end);
    if lex::punctuation_at(s, i) == Some((kind, end)) {
        lemma_mark_read(s, i, kind, end);
    }
    if is_at(mark_text(kind), s, i) && end == i + mark_text(kind).len() && breaks_at(s, end) {
        lemma_mark_written(s, i, kind);
    }
}

proof fn lemma_only_marks(s: Seq<char>, i: int, kind: TokenKindView, end: int)
    requires
        0 <= i < s.len(),
        mark_text(kind).len() > 0,
    ensures
        lex::token_at(s, i) == Ok::<_, ParseErrorView>((kind, end)) <==> lex::punctuation_at(s, i)
            == Some((kind, end)),
{
    reveal(lex::token_at);
    assert(!(kind is Str || kind is Parameter || kind is Ident || kind is Integer || kind is Float
        || kind is IntegerTooLarge));
}

proof fn lemma_mark_read(s: Seq<char>, i: int, kind: TokenKindView, end: int)
    requires
        0 <= i < s.len(),
        lex::punctuation_at(s, i) == Some((kind, end)),
    ensures
        is_at(mark_text(kind), s, i),
        end == i + mark_text(kind).len(),
{
    let t = mark_text(kind);
    assert(t[0] == s[i]);
    assert(t.len() == 1 || t.len() == 2);
    if t.len() == 2 {
        assert(lex::char_at(s, i + 1, t[1]));
    }
    assert forall|k: int| 0 <= k < t.len() implies s[i + k] == #[trigger] t[k] by {
        assert(k == 0 || k == 1);
    }
}

proof fn lemma_mark_written(s: Seq<char>, i: int, kind: TokenKindView)
    requires
        0 <= i < s.len(),
        mark_text(kind).len() > 0,
        is_at(mark_text(kind), s, i),
        breaks_at(s, i + mark_text(kind).len()),
    ensures
        lex::punctuation_at(s, i) == Some((kind, i + mark_text(kind).len() as int)),
{
    let t = mark_text(kind);
    assert(s[i + 0] == t[0]);
    assert(t.len() == 1 || t.len() == 2);
    if t.len() == 2 {
        assert(s[i + 1] == t[1]);
    } else {
        assert(!lex::char_at(s, i + 1, '.') && !lex::char_at(s, i + 1, '~') && !lex::char_at(
            s,
            i + 1,
            '=',
        ) && !lex::char_at(s, i + 1, '>') && !lex::char_at(s, i + 1, '-') && !lex::digit_at(
            s,
            i + 1,
        ));
    }
}

/// Errors show a mark by its text.
pub proof fn marks_are_shown_by_their_text(kind: TokenKindView)
    requires
        mark_text(kind).len() > 0,
    ensures
        kind.described() == seq!['\''] + mark_text(kind) + seq!['\''],
{
    reveal_strlit("'('");
    reveal_strlit("')'");
    reveal_strlit("'['");
    reveal_strlit("']'");
    reveal_strlit("'{'");
    reveal_strlit("'}'");
    reveal_strlit("','");
    reveal_strlit("'.'");
    reveal_strlit("'..'");
    reveal_strlit("':'");
    reveal_strlit("';'");
    reveal_strlit("'|'");
    reveal_strlit("'*'");
    reveal_strlit("'+'");
    reveal_strlit("'-'");
    reveal_strlit("'/'");
    reveal_strlit("'%'");
    reveal_strlit("'^'");
    reveal_strlit("'='");
    reveal_strlit("'<>'");
    reveal_strlit("'<'");
    reveal_strlit("'<='");
    reveal_strlit("'>'");
    reveal_strlit("'>='");
    reveal_strlit("'=~'");
    reveal_strlit("'->'");
    reveal_strlit("'<-'");
    assert(kind.described() =~= seq!['\''] + mark_text(kind) + seq!['\'']);
}

// --- Names and parameters ---------------------------------------------------------------------------

proof fn lemma_run(s: Seq<char>, i: int, end: int, p: spec_fn(char) -> bool)
    requires
        0 <= i <= end <= s.len(),
        forall|k: int| i <= k < end ==> p(#[trigger] s[k]),
        end < s.len() ==> !p(s[end]),
    ensures
        lex::run_end(s, i, p) == end,
    decreases end - i,
{
    if i < end {
        lemma_run(s, i + 1, end, p);
    }
}

pub open spec fn is_name_char(c: char) -> bool {
    text::is_alphanumeric(c) || c == '_'
}

/// Whether a name stands at a place, with nothing behind it that could be part of it.
pub open spec fn name_is_at(name: Seq<char>, s: Seq<char>, i: int) -> bool {
    &&& is_at(name, s, i)
    &&& name.len() > 0
    &&& forall|k: int| 0 <= k < name.len() ==> is_name_char(#[trigger] name[k])
    &&& i + name.len() < s.len() ==> !is_name_char(s[i + name.len()])
}

proof fn lemma_name(name: Seq<char>, s: Seq<char>, i: int, from: int)
    requires
        name_is_at(name, s, i),
        i <= from <= i + name.len(),
    ensures
        lex::run_end(s, from, lex::name_chars()) == i + name.len(),
        s.subrange(i, i + name.len()) == name,
{
    assert(s.subrange(i, i + name.len()) =~= name);
    assert forall|k: int| from <= k < i + name.len() implies (lex::name_chars())(
        #[trigger] s[k],
    ) by {
        assert(s[i + (k - i)] == name[k - i]);
    }
    lemma_run(s, from, i + name.len(), lex::name_chars());
}

/// A name is read whole, a parameter by the name behind its sign.
pub proof fn names_are_read_whole(name: Seq<char>, s: Seq<char>, i: int)
    requires
        name_is_at(name, s, i),
    ensures
        text::is_alphabetic(name[0]) || name[0] == '_' ==> lex::token_at(s, i) == Ok::<
            _,
            ParseErrorView,
        >((TokenKindView::Ident { name, backquoted: false }, i + name.len())),
        i > 0 && s[i - 1] == '$' && !text::is_digit(name[0]) ==> lex::token_at(s, i - 1) == Ok::<
            _,
            ParseErrorView,
        >((TokenKindView::Parameter(name), i + name.len())),
{
    reveal(lex::token_at);
    assert(s[i + 0] == name[0]);
    lemma_name(name, s, i, i);
    lemma_name(name, s, i, i + 1);
}

/// Whether a text is written from `i` to `j` between quotes: what would end it stands
/// behind a mark.
pub open spec fn is_quoted(
    s: Seq<char>,
    i: int,
    j: int,
    value: Seq<char>,
    quote: char,
) -> bool
    decreases value.len(),
{
    if value.len() == 0 {
        i == j
    } else {
        let c = value[0];
        if c == '\\' || c == quote {
            0 <= i && i + 1 < s.len() && s[i] == '\\' && s[i + 1] == c && is_quoted(
                s,
                i + 2,
                j,
                value.skip(1),
                quote,
            )
        } else {
            0 <= i < s.len() && s[i] == c && is_quoted(s, i + 1, j, value.skip(1), quote)
        }
    }
}

proof fn lemma_quoted(
    s: Seq<char>,
    at: int,
    i: int,
    j: int,
    value: Seq<char>,
    quote: char,
    read: Seq<char>,
)
    requires
        quote == '\'' || quote == '"',
        is_quoted(s, i, j, value, quote),
        0 <= j < s.len(),
        s[j] == quote,
    ensures
        lex::string_from(s, at, quote, i, read) == Ok::<_, ParseErrorView>((read + value, j + 1)),
    decreases value.len(),
{
    if value.len() == 0 {
        assert(read + value =~= read);
    } else {
        let c = value[0];
        let rest = value.skip(1);
        assert(read + value =~= read.push(c) + rest);
        if c == '\\' || c == quote {
            lemma_quoted(s, at, i + 2, j, rest, quote, read.push(c));
            assert(lex::escape_at(s, at, i) == Ok::<_, ParseErrorView>((c, i + 2)));
        } else {
            lemma_quoted(s, at, i + 1, j, rest, quote, read.push(c));
        }
    }
}

/// A text between quotes is read back, whatever it holds.
pub proof fn a_quoted_text_is_read_back(s: Seq<char>, i: int, j: int, value: Seq<char>)
    requires
        0 <= i < j < s.len(),
        s[i] == '\'' || s[i] == '"',
        s[j] == s[i],
        is_quoted(s, i + 1, j, value, s[i]),
    ensures
        lex::token_at(s, i) == Ok::<_, ParseErrorView>((TokenKindView::Str(value), j + 1)),
{
    reveal(lex::token_at);
    lemma_quoted(s, i, i + 1, j, value, s[i], Seq::empty());
    assert(Seq::<char>::empty() + value =~= value);
}

/// The letters behind a mark stand for line ends and the like.
pub proof fn escapes_stand_for_controls(c: char)
    ensures
        lex::simple_escape(c) matches Some(x) ==> {
            &&& c == 'n' ==> x as u32 == 10
            &&& c == 't' ==> x as u32 == 9
            &&& c == 'r' ==> x as u32 == 13
            &&& c == 'b' ==> x as u32 == 8
            &&& c == 'f' ==> x as u32 == 12
            &&& c == '\\' || c == '\'' || c == '"' ==> x == c
        },
        lex::simple_escape(c) is Some <==> c == 'n' || c == 't' || c == 'r' || c == 'b' || c == 'f'
            || c == '\\' || c == '\'' || c == '"',
{
}

/// Whether a name is written from `i` to `j` between backquotes, each one in it doubled.
pub open spec fn is_backquoted(s: Seq<char>, i: int, j: int, name: Seq<char>) -> bool
    decreases name.len(),
{
    if name.len() == 0 {
        i == j
    } else if name[0] == '`' {
        0 <= i && i + 1 < s.len() && s[i] == '`' && s[i + 1] == '`' && is_backquoted(
            s,
            i + 2,
            j,
            name.skip(1),
        )
    } else {
        0 <= i < s.len() && s[i] == name[0] && is_backquoted(s, i + 1, j, name.skip(1))
    }
}

proof fn lemma_backquoted(s: Seq<char>, at: int, i: int, j: int, name: Seq<char>, read: Seq<char>)
    requires
        is_backquoted(s, i, j, name),
        0 <= j < s.len(),
        s[j] == '`',
        j + 1 < s.len() ==> s[j + 1] != '`',
    ensures
        lex::backquoted_from(s, at, i, read) == Ok::<_, ParseErrorView>((read + name, j + 1)),
    decreases name.len(),
{
    if name.len() == 0 {
        assert(read + name =~= read);
    } else {
        let c = name[0];
        let rest = name.skip(1);
        assert(read + name =~= read.push(c) + rest);
        if c == '`' {
            lemma_backquoted(s, at, i + 2, j, rest, read.push(c));
        } else {
            lemma_backquoted(s, at, i + 1, j, rest, read.push(c));
        }
    }
}

/// A name between backquotes is read back, whatever it holds.
pub proof fn a_backquoted_name_is_read_back(s: Seq<char>, i: int, j: int, name: Seq<char>)
    requires
        0 <= i < j < s.len(),
        s[i] == '`',
        s[j] == '`',
        j + 1 < s.len() ==> s[j + 1] != '`',
        is_backquoted(s, i + 1, j, name),
    ensures
        lex::token_at(s, i) == Ok::<_, ParseErrorView>(
            (TokenKindView::Ident { name, backquoted: true }, j + 1),
        ),
{
    reveal(lex::token_at);
    lemma_backquoted(s, i, i + 1, j, name, Seq::empty());
    assert(Seq::<char>::empty() + name =~= name);
}

// --- Numbers ----------------------------------------------------------------------------------------

proof fn lemma_next_digit(s: Seq<char>, i: int, e: int, read: nat)
    requires
        0 <= i <= e < s.len(),
        text::is_digit(s[e]),
        lex::digits_value(s, i, e, 10, read) matches Digits::Value(v) && v * 10 + ((s[e] as u32)
            - 48) <= u64::MAX,
    ensures
        lex::digits_value(s, i, e + 1, 10, read) == Digits::Value(
            (lex::digits_value(s, i, e, 10, read)->Value_0 * 10 + ((s[e] as u32) - 48)) as nat,
        ),
    decreases e - i,
{
    if i < e {
        let d = lex::digit_value(s[i], 10)->0;
        lemma_next_digit(s, i + 1, e, read * 10 + d);
    } else {
        let v = (read * 10 + ((s[e] as u32) - 48)) as nat;
        assert(lex::digit_value(s[e], 10) == Some(((s[e] as u32) - 48) as nat));
        assert(lex::digits_value(s, e + 1, e + 1, 10, v) == Digits::Value(v));
    }
}

proof fn lemma_decimal(s: Seq<char>, i: int, n: nat)
    requires
        is_at(text::decimal(n), s, i),
        n <= u64::MAX,
    ensures
        lex::digits_value(s, i, i + text::decimal(n).len(), 10, 0) == Digits::Value(n),
        text::decimal(n).len() > 0,
        forall|k: int|
            i <= k < i + text::decimal(n).len() ==> text::is_digit(#[trigger] s[k]),
        n < 10 || s[i] != '0',
    decreases n,
{
    let t = text::decimal(n);
    if n < 10 {
        assert(t =~= seq![text::digit_char(n)]);
        assert(s[i + 0] == t[0]);
        assert(lex::digit_value(s[i], 10) == Some(n));
        assert(lex::digits_value(s, i + 1, i + 1, 10, n) == Digits::Value(n));
    } else {
        let before = text::decimal(n / 10);
        assert(t == before.push(text::digit_char(n % 10)));
        assert forall|k: int| 0 <= k < before.len() implies s[i + k] == #[trigger] before[k] by {
            assert(t[k] == before[k]);
        }
        lemma_decimal(s, i, n / 10);
        let e = i + before.len();
        assert(s[i + before.len()] == t[before.len() as int]);
        assert(s[e] == text::digit_char(n % 10));
        assert(n == (n / 10) * 10 + n % 10) by (nonlinear_arith);
        lemma_next_digit(s, i, e, 0);
        assert forall|k: int| i <= k < i + t.len() implies text::is_digit(#[trigger] s[k]) by {}
        if n / 10 < 10 {
            assert(before =~= seq![text::digit_char(n / 10)]);
            assert(s[i + 0] == before[0]);
        }
    }
}

/// An integer in decimal, with a break behind it, is read as that integer; one too large
/// is kept for a sign before it.
pub proof fn integers_are_read_back(s: Seq<char>, i: int, n: nat)
    requires
        is_at(text::decimal(n), s, i),
        n <= u64::MAX,
        breaks_at(s, i + text::decimal(n).len()),
    ensures
        n <= i64::MAX ==> lex::token_at(s, i) == Ok::<_, ParseErrorView>(
            (TokenKindView::Integer(n as i64), i + text::decimal(n).len()),
        ),
        n > i64::MAX ==> lex::token_at(s, i) == Ok::<_, ParseErrorView>(
            (TokenKindView::IntegerTooLarge(n as u64), i + text::decimal(n).len()),
        ),
{
    reveal(lex::token_at);
    lemma_decimal(s, i, n);
    let end = i + text::decimal(n).len();
    assert(text::is_digit(s[i]));
    assert forall|k: int| i <= k < end implies (lex::digits())(#[trigger] s[k]) by {}
    lemma_run(s, i, end, lex::digits());
    assert(lex::prefix_radix(s, i) is None) by {
        if n < 10 {
            assert(text::decimal(n).len() == 1);
        }
    }
}

// --- White space and comments -----------------------------------------------------------------------

/// White space and comments are passed over.
pub proof fn blanks_are_passed_over(s: Seq<char>, i: int, j: int)
    requires
        0 <= i < j <= s.len(),
    ensures
        text::is_whitespace(s[i]) ==> lex::tokens_from(s, i) == lex::tokens_from(s, i + 1),
        i + 2 <= j && s[i] == '/' && s[i + 1] == '/' && (forall|k: int|
            i + 2 <= k < j ==> #[trigger] s[k] != '\n') && (j == s.len() || s[j] == '\n')
            ==> lex::tokens_from(s, i) == lex::tokens_from(s, j),
        i + 4 <= j && s[i] == '/' && s[i + 1] == '*' && s[j - 2] == '*' && s[j - 1] == '/' && (
        forall|k: int| i + 2 <= k < j - 2 ==> !(#[trigger] s[k] == '*' && s[k + 1] == '/'))
            ==> lex::tokens_from(s, i) == lex::tokens_from(s, j),
{
    if i + 2 <= j && s[i] == '/' && s[i + 1] == '/' && (forall|k: int|
        i + 2 <= k < j ==> #[trigger] s[k] != '\n') && (j == s.len() || s[j] == '\n') {
        assert forall|k: int| i <= k < j implies (lex::other_than('\n'))(#[trigger] s[k]) by {}
        lemma_run(s, i, j, lex::other_than('\n'));
    }
    if i + 4 <= j && s[i] == '/' && s[i + 1] == '*' && s[j - 2] == '*' && s[j - 1] == '/' && (
    forall|k: int| i + 2 <= k < j - 2 ==> !(#[trigger] s[k] == '*' && s[k + 1] == '/')) {
        lemma_comment(s, i + 2, j);
    }
}

proof fn lemma_comment(s: Seq<char>, i: int, j: int)
    requires
        0 <= i <= j - 2,
        j <= s.len(),
        s[j - 2] == '*',
        s[j - 1] == '/',
        forall|k: int| i <= k < j - 2 ==> !(#[trigger] s[k] == '*' && s[k + 1] == '/'),
    ensures
        lex::block_comment_end(s, i) == Some(j),
    decreases j - i,
{
    if i < j - 2 {
        assert(!(s[i] == '*' && s[i + 1] == '/'));
        lemma_comment(s, i + 1, j);
    }
}

/// What is read at a place comes before what is read behind it.
pub proof fn tokens_come_in_order(s: Seq<char>, i: int, kind: TokenKindView, end: int)
    requires
        0 <= i < end <= s.len(),
        !text::is_whitespace(s[i]),
        !(s[i] == '/' && i + 1 < s.len() && (s[i + 1] == '/' || s[i + 1] == '*')),
        lex::token_at(s, i) == Ok::<_, ParseErrorView>((kind, end)),
        lex::tokens_from(s, end) is Ok,
    ensures
        lex::tokens_from(s, i) matches Ok(all) && all.len() == lex::tokens_from(
            s,
            end,
        )->Ok_0.len() + 1 && all[0].kind == kind && all.skip(1) == lex::tokens_from(s, end)->Ok_0,
{
    let rest = lex::tokens_from(s, end)->Ok_0;
    let all = lex::tokens_from(s, i)->Ok_0;
    assert(all.skip(1) =~= rest);
}

} // verus!
