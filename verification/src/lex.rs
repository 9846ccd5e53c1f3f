//! Spanned lexer for openCypher. Keywords are not distinguished here: they
//! surface as `Ident` tokens and the parser decides contextually, because
//! openCypher keywords are unreserved in many positions (property names,
//! labels, map keys).

use vstd::prelude::*;
use vstd::string::*;

use crate::decimal;
use crate::error::{ParseError, ParseErrorView};
use crate::exec::value::Value;
use crate::span::Span;
use crate::text;

verus! {

/// What a token is.
#[derive(Debug, Clone, PartialEq, Eq)]
pub enum TokenKind {
    /// Identifier or keyword (case preserved). `backquoted: true` means the
    /// name was written `` `so quoted` `` and is never treated as a keyword.
    Ident { name: String, backquoted: bool },
    Integer(i64),
    /// An integer literal beyond `i64::MAX` that still fits in 64 bits; only a
    /// leading minus can make a value of it.
    IntegerTooLarge(u64),
    /// A floating-point literal: the bit pattern of the IEEE-754 binary64 number
    /// nearest to what it writes down.
    Float(u64),
    Str(String),
    /// `$name` or `$0`.
    Parameter(String),
    LParen,
    RParen,
    LBracket,
    RBracket,
    LBrace,
    RBrace,
    Comma,
    Dot,
    DotDot,
    Colon,
    Semicolon,
    Pipe,
    Star,
    Plus,
    Minus,
    Slash,
    Percent,
    Caret,
    Eq,
    Ne,
    Lt,
    Le,
    Gt,
    Ge,
    /// `=~`
    RegexEq,
    /// `->`
    Arrow,
    /// `<-`
    LArrow,
    Eof,
}

/// The value that a [`TokenKind`] stands for.
pub enum TokenKindView {
    Ident { name: Seq<char>, backquoted: bool },
    Integer(i64),
    IntegerTooLarge(u64),
    Float(u64),
    Str(Seq<char>),
    Parameter(Seq<char>),
    LParen,
    RParen,
    LBracket,
    RBracket,
    LBrace,
    RBrace,
    Comma,
    Dot,
    DotDot,
    Colon,
    Semicolon,
    Pipe,
    Star,
    Plus,
    Minus,
    Slash,
    Percent,
    Caret,
    Eq,
    Ne,
    Lt,
    Le,
    Gt,
    Ge,
    RegexEq,
    Arrow,
    LArrow,
    Eof,
}

/// A token and where it stands.
#[derive(Debug, Clone)]
pub struct Token {
    pub kind: TokenKind,
    pub span: Span,
}

/// The value that a [`Token`] stands for.
pub struct TokenView {
    pub kind: TokenKindView,
    pub span: Span,
}

impl TokenKind {
    pub open spec fn view(&self) -> TokenKindView
    {
        match self {
            TokenKind::Ident { name, backquoted } => TokenKindView::Ident {
                name: name@,
                backquoted: *backquoted,
            },
            TokenKind::Integer(x) => TokenKindView::Integer(*x),
            TokenKind::IntegerTooLarge(x) => TokenKindView::IntegerTooLarge(*x),
            TokenKind::Float(x) => TokenKindView::Float(*x),
            TokenKind::Str(x) => TokenKindView::Str(x@),
            TokenKind::Parameter(x) => TokenKindView::Parameter(x@),
            TokenKind::LParen => TokenKindView::LParen,
            TokenKind::RParen => TokenKindView::RParen,
            TokenKind::LBracket => TokenKindView::LBracket,
            TokenKind::RBracket => TokenKindView::RBracket,
            TokenKind::LBrace => TokenKindView::LBrace,
            TokenKind::RBrace => TokenKindView::RBrace,
            TokenKind::Comma => TokenKindView::Comma,
            TokenKind::Dot => TokenKindView::Dot,
            TokenKind::DotDot => TokenKindView::DotDot,
            TokenKind::Colon => TokenKindView::Colon,
            TokenKind::Semicolon => TokenKindView::Semicolon,
            TokenKind::Pipe => TokenKindView::Pipe,
            TokenKind::Star => TokenKindView::Star,
            TokenKind::Plus => TokenKindView::Plus,
            TokenKind::Minus => TokenKindView::Minus,
            TokenKind::Slash => TokenKindView::Slash,
            TokenKind::Percent => TokenKindView::Percent,
            TokenKind::Caret => TokenKindView::Caret,
            TokenKind::Eq => TokenKindView::Eq,
            TokenKind::Ne => TokenKindView::Ne,
            TokenKind::Lt => TokenKindView::Lt,
            TokenKind::Le => TokenKindView::Le,
            TokenKind::Gt => TokenKindView::Gt,
            TokenKind::Ge => TokenKindView::Ge,
            TokenKind::RegexEq => TokenKindView::RegexEq,
            TokenKind::Arrow => TokenKindView::Arrow,
            TokenKind::LArrow => TokenKindView::LArrow,
            TokenKind::Eof => TokenKindView::Eof,
        }
    }
}

impl Token {
    pub open spec fn view(&self) -> TokenView
    {
        TokenView {
            kind: self.kind@,
            span: self.span,
        }
    }
}

pub open spec fn tokens_view(v: Seq<Token>) -> Seq<TokenView> {
    Seq::new(v.len(), |i: int| v[i]@)
}

// --- What the tokens of a text are ------------------------------------------------

/// The span of `s[a..b]`, in bytes.
pub open spec fn span_at(s: Seq<char>, a: int, b: int) -> Span {
    Span { start: text::byte_len(s.take(a)) as usize, end: text::byte_len(s.take(b)) as usize }
}

pub open spec fn failure(message: Seq<char>, s: Seq<char>, a: int, b: int) -> ParseErrorView {
    ParseErrorView::Lex { message, span: span_at(s, a, b) }
}

/// The end of the run of characters that satisfy `p` and starts at `i`.
pub open spec fn run_end(s: Seq<char>, i: int, p: spec_fn(char) -> bool) -> int
    decreases s.len() - i,
{
    if 0 <= i < s.len() && p(s[i]) {
        run_end(s, i + 1, p)
    } else {
        i
    }
}

pub open spec fn digits() -> spec_fn(char) -> bool {
    |c: char| text::is_digit(c)
}

pub open spec fn ascii_alphanumerics() -> spec_fn(char) -> bool {
    |c: char| text::is_digit(c) || text::is_ascii_letter(c)
}

pub open spec fn name_chars() -> spec_fn(char) -> bool {
    |c: char| text::is_alphanumeric(c) || c == '_'
}

pub open spec fn other_than(d: char) -> spec_fn(char) -> bool {
    |c: char| c != d
}

pub open spec fn char_at(s: Seq<char>, i: int, c: char) -> bool {
    0 <= i < s.len() && s[i] == c
}

pub open spec fn digit_at(s: Seq<char>, i: int) -> bool {
    0 <= i < s.len() && text::is_digit(s[i])
}

/// Where the block comment whose body starts at `i` ends, if it does.
pub open spec fn block_comment_end(s: Seq<char>, i: int) -> Option<int>
    decreases s.len() - i,
{
    if i + 1 >= s.len() {
        None
    } else if s[i] == '*' && s[i + 1] == '/' {
        Some(i + 2)
    } else {
        block_comment_end(s, i + 1)
    }
}

/// The value of `c` as a digit of base `radix` (at most 36).
pub open spec fn digit_value(c: char, radix: nat) -> Option<nat> {
    let v: nat = if text::is_digit(c) {
        ((c as u32) - 48) as nat
    } else if 'a' <= c && c <= 'z' {
        ((c as u32) - 87) as nat
    } else if 'A' <= c && c <= 'Z' {
        ((c as u32) - 55) as nat
    } else {
        1000
    };
    if v < radix {
        Some(v)
    } else {
        None
    }
}

/// What reading an integer's digits comes to.
pub enum Digits {
    Value(nat),
    BadDigit,
    TooLarge,
}

/// Reads the digits `s[i..end]` behind the value `read`; what does not fit in
/// 64 bits is too large.
pub open spec fn digits_value(s: Seq<char>, i: int, end: int, radix: nat, read: nat) -> Digits
    decreases end - i,
{
    if i >= end {
        Digits::Value(read)
    } else {
        match digit_value(s[i], radix) {
            None => Digits::BadDigit,
            Some(d) => if read * radix + d > u64::MAX {
                Digits::TooLarge
            } else {
                digits_value(s, i + 1, end, radix, read * radix + d)
            },
        }
    }
}

/// The integer token whose digits are `s[from..end]` and which starts at `at`.
pub open spec fn integer_token(s: Seq<char>, at: int, from: int, end: int, radix: nat) -> Result<
    (TokenKindView, int),
    ParseErrorView,
> {
    match digits_value(s, from, end, radix, 0) {
        Digits::Value(v) => if v <= i64::MAX {
            Ok((TokenKindView::Integer(v as i64), end))
        } else {
            Ok((TokenKindView::IntegerTooLarge(v as u64), end))
        },
        Digits::BadDigit => Err(
            failure("invalid integer literal: invalid digit found in string"@, s, at, end),
        ),
        Digits::TooLarge => Err(
            failure("invalid integer literal: number too large to fit in target type"@, s, at, end),
        ),
    }
}

/// The base that a numeric prefix at `at` announces.
pub open spec fn prefix_radix(s: Seq<char>, at: int) -> Option<nat> {
    if !char_at(s, at, '0') {
        None
    } else if char_at(s, at + 1, 'x') || char_at(s, at + 1, 'X') {
        Some(16)
    } else if char_at(s, at + 1, 'o') || char_at(s, at + 1, 'O') {
        Some(8)
    } else {
        None
    }
}

/// Where the fraction that may start at `i` ends. A lone `.` joins the number
/// only where a digit follows, so that `1..2` stays a range.
pub open spec fn fraction_end(s: Seq<char>, i: int) -> int {
    if char_at(s, i, '.') && digit_at(s, i + 1) {
        run_end(s, i + 1, digits())
    } else {
        i
    }
}

/// Where the exponent that may start at `i` ends.
pub open spec fn exponent_end(s: Seq<char>, i: int) -> int {
    if char_at(s, i, 'e') || char_at(s, i, 'E') {
        let j = if char_at(s, i + 1, '+') || char_at(s, i + 1, '-') {
            i + 2
        } else {
            i + 1
        };
        if digit_at(s, j) {
            run_end(s, j, digits())
        } else {
            i
        }
    } else {
        i
    }
}

/// The number that starts at `at`, and where it ends.
pub open spec fn number_at(s: Seq<char>, at: int) -> Result<(TokenKindView, int), ParseErrorView> {
    match prefix_radix(s, at) {
        Some(radix) => {
            let end = run_end(s, at + 2, ascii_alphanumerics());
            if end == at + 2 {
                Err(failure("missing digits after numeric prefix"@, s, at, at + 2))
            } else {
                integer_token(s, at, at + 2, end, radix)
            }
        },
        None => {
            let whole = run_end(s, at, digits());
            let end = exponent_end(s, fraction_end(s, whole));
            if end != whole {
                Ok((TokenKindView::Float(decimal::bits_of(s.subrange(at, end))), end))
            } else {
                integer_token(s, at, at, end, 10)
            }
        },
    }
}

/// The parameter whose `$` stands at `at`, and where it ends.
pub open spec fn parameter_at(s: Seq<char>, at: int) -> Result<(Seq<char>, int), ParseErrorView> {
    let end = if digit_at(s, at + 1) {
        run_end(s, at + 1, digits())
    } else {
        run_end(s, at + 1, name_chars())
    };
    if end == at + 1 {
        Err(failure("expected a parameter name after '$'"@, s, at, at + 1))
    } else {
        Ok((s.subrange(at + 1, end), end))
    }
}

/// The backquoted name that starts at `at` and of which `read` was read up to
/// `i`; a doubled backquote stands for one.
pub open spec fn backquoted_from(s: Seq<char>, at: int, i: int, read: Seq<char>) -> Result<
    (Seq<char>, int),
    ParseErrorView,
>
    decreases s.len() - i,
{
    if i >= s.len() {
        Err(failure("unterminated backquoted name"@, s, at, s.len() as int))
    } else if s[i] != '`' {
        backquoted_from(s, at, i + 1, read.push(s[i]))
    } else if char_at(s, i + 1, '`') {
        backquoted_from(s, at, i + 2, read.push('`'))
    } else {
        Ok((read, i + 1))
    }
}

/// The index at which exactly `bytes` bytes of `s[i..]` end, if one does.
pub open spec fn cut_at(s: Seq<char>, i: int, bytes: nat) -> Option<int>
    decreases s.len() - i,
{
    if bytes == 0 {
        Some(i)
    } else if !(0 <= i < s.len()) || text::width(s[i]) > bytes {
        None
    } else {
        cut_at(s, i + 1, (bytes - text::width(s[i])) as nat)
    }
}

/// The code that the hexadecimal digits `s[i..end]`, which may stand behind a
/// plus sign, write.
pub open spec fn escape_code(s: Seq<char>, i: int, end: int) -> Option<u32> {
    let from = if char_at(s, i, '+') {
        i + 1
    } else {
        i
    };
    if from >= end {
        None
    } else {
        match digits_value(s, from, end, 16, 0) {
            Digits::Value(v) => if v <= u32::MAX {
                Some(v as u32)
            } else {
                None
            },
            _ => None,
        }
    }
}

/// What a one-letter escape stands for.
pub open spec fn simple_escape(c: char) -> Option<char> {
    if c == 'n' {
        Some('\n')
    } else if c == 't' {
        Some('\t')
    } else if c == 'r' {
        Some('\r')
    } else if c == 'b' {
        Some('\u{8}')
    } else if c == 'f' {
        Some('\u{c}')
    } else if c == '\\' || c == '\'' || c == '"' {
        Some(c)
    } else {
        None
    }
}

/// The escape whose backslash stands at `i`, in the string that starts at
/// `at`: the character and where the escape ends.
pub open spec fn escape_at(s: Seq<char>, at: int, i: int) -> Result<(char, int), ParseErrorView> {
    if i + 1 >= s.len() {
        Err(failure("unterminated string literal"@, s, at, s.len() as int))
    } else {
        let e = s[i + 1];
        match simple_escape(e) {
            Some(c) => Ok((c, i + 2)),
            None => if e == 'u' || e == 'U' {
                match cut_at(s, i + 2, if e == 'u' { 4 } else { 8 }) {
                    None => Err(failure("truncated unicode escape"@, s, i, s.len() as int)),
                    Some(end) => match escape_code(s, i + 2, end) {
                        None => Err(failure("invalid unicode escape"@, s, i, end)),
                        Some(code) => if text::is_scalar_value(code) {
                            Ok((code as char, end))
                        } else {
                            Err(
                                failure(
                                    "U+"@ + text::zero_padded(
                                        text::upper_hexadecimal(code as nat),
                                        4,
                                    )
                                        + " is not a valid character"@,
                                    s,
                                    i,
                                    end,
                                ),
                            )
                        },
                    },
                }
            } else {
                Err(failure("unknown escape '\\"@ + text::escaped(e) + "'"@, s, i, i + 2))
            },
        }
    }
}

/// The string literal that starts at `at` with `quote` and of which `read`
/// was read up to `i`: its value and where it ends.
pub open spec fn string_from(s: Seq<char>, at: int, quote: char, i: int, read: Seq<char>) -> Result<
    (Seq<char>, int),
    ParseErrorView,
>
    decreases s.len() - i,
{
    if i >= s.len() {
        Err(failure("unterminated string literal"@, s, at, s.len() as int))
    } else if s[i] == '\\' {
        match escape_at(s, at, i) {
            Err(e) => Err(e),
            Ok((c, next)) => if i < next <= s.len() {
                string_from(s, at, quote, next, read.push(c))
            } else {
                arbitrary()
            },
        }
    } else if s[i] == quote {
        Ok((read, i + 1))
    } else {
        string_from(s, at, quote, i + 1, read.push(s[i]))
    }
}

/// The punctuation that starts at `i`, and where it ends.
pub open spec fn punctuation_at(s: Seq<char>, i: int) -> Option<(TokenKindView, int)> {
    let c = s[i];
    if c == '(' {
        Some((TokenKindView::LParen, i + 1))
    } else if c == ')' {
        Some((TokenKindView::RParen, i + 1))
    } else if c == '[' {
        Some((TokenKindView::LBracket, i + 1))
    } else if c == ']' {
        Some((TokenKindView::RBracket, i + 1))
    } else if c == '{' {
        Some((TokenKindView::LBrace, i + 1))
    } else if c == '}' {
        Some((TokenKindView::RBrace, i + 1))
    } else if c == ',' {
        Some((TokenKindView::Comma, i + 1))
    } else if c == ';' {
        Some((TokenKindView::Semicolon, i + 1))
    } else if c == '|' {
        Some((TokenKindView::Pipe, i + 1))
    } else if c == '*' {
        Some((TokenKindView::Star, i + 1))
    } else if c == '+' {
        Some((TokenKindView::Plus, i + 1))
    } else if c == '%' {
        Some((TokenKindView::Percent, i + 1))
    } else if c == '^' {
        Some((TokenKindView::Caret, i + 1))
    } else if c == '/' {
        Some((TokenKindView::Slash, i + 1))
    } else if c == ':' {
        Some((TokenKindView::Colon, i + 1))
    } else if c == '.' {
        if char_at(s, i + 1, '.') {
            Some((TokenKindView::DotDot, i + 2))
        } else if digit_at(s, i + 1) {
            None
        } else {
            Some((TokenKindView::Dot, i + 1))
        }
    } else if c == '=' {
        if char_at(s, i + 1, '~') {
            Some((TokenKindView::RegexEq, i + 2))
        } else {
            Some((TokenKindView::Eq, i + 1))
        }
    } else if c == '<' {
        if char_at(s, i + 1, '=') {
            Some((TokenKindView::Le, i + 2))
        } else if char_at(s, i + 1, '>') {
            Some((TokenKindView::Ne, i + 2))
        } else if char_at(s, i + 1, '-') {
            Some((TokenKindView::LArrow, i + 2))
        } else {
            Some((TokenKindView::Lt, i + 1))
        }
    } else if c == '>' {
        if char_at(s, i + 1, '=') {
            Some((TokenKindView::Ge, i + 2))
        } else {
            Some((TokenKindView::Gt, i + 1))
        }
    } else if c == '-' {
        if char_at(s, i + 1, '>') {
            Some((TokenKindView::Arrow, i + 2))
        } else {
            Some((TokenKindView::Minus, i + 1))
        }
    } else {
        None
    }
}

/// The token that starts at `i`, where neither white space nor a comment
/// does, and where it ends.
#[verifier::opaque]
pub open spec fn token_at(s: Seq<char>, i: int) -> Result<(TokenKindView, int), ParseErrorView> {
    let c = s[i];
    match punctuation_at(s, i) {
        Some(found) => Ok(found),
        None => if c == '\'' || c == '"' {
            match string_from(s, i, c, i + 1, Seq::empty()) {
                Ok((value, end)) => Ok((TokenKindView::Str(value), end)),
                Err(e) => Err(e),
            }
        } else if c == '$' {
            match parameter_at(s, i) {
                Ok((name, end)) => Ok((TokenKindView::Parameter(name), end)),
                Err(e) => Err(e),
            }
        } else if c == '`' {
            match backquoted_from(s, i, i + 1, Seq::empty()) {
                Ok((name, end)) => Ok((TokenKindView::Ident { name, backquoted: true }, end)),
                Err(e) => Err(e),
            }
        } else if c == '.' || text::is_digit(c) {
            number_at(s, i)
        } else if text::is_alphabetic(c) || c == '_' {
            let end = run_end(s, i + 1, name_chars());
            Ok((TokenKindView::Ident { name: s.subrange(i, end), backquoted: false }, end))
        } else {
            Err(failure("unexpected character '"@ + text::escaped(c) + "'"@, s, i, i + 1))
        },
    }
}

/// The tokens of `s[i..]`, with an `Eof` behind the last.
pub open spec fn tokens_from(s: Seq<char>, i: int) -> Result<Seq<TokenView>, ParseErrorView>
    decreases s.len() - i,
{
    if i >= s.len() {
        Ok(
            seq![
                TokenView {
                    kind: TokenKindView::Eof,
                    span: span_at(s, s.len() as int, s.len() as int),
                },
            ],
        )
    } else if text::is_whitespace(s[i]) {
        tokens_from(s, i + 1)
    } else if s[i] == '/' && char_at(s, i + 1, '/') {
        let end = run_end(s, i, other_than('\n'));
        if i < end <= s.len() {
            tokens_from(s, end)
        } else {
            arbitrary()
        }
    } else if s[i] == '/' && char_at(s, i + 1, '*') {
        match block_comment_end(s, i + 2) {
            Some(end) => if i < end <= s.len() {
            tokens_from(s, end)
        } else {
            arbitrary()
        },
            None => Err(failure("unterminated block comment"@, s, i, s.len() as int)),
        }
    } else {
        match token_at(s, i) {
            Err(e) => Err(e),
            Ok((kind, end)) => if i < end <= s.len() {
                match tokens_from(s, end) {
                    Err(e) => Err(e),
                    Ok(rest) => Ok(seq![TokenView { kind, span: span_at(s, i, end) }] + rest),
                }
            } else {
                arbitrary()
            },
        }
    }
}

/// The tokens of a text, or why it has none.
pub open spec fn tokens_of(s: Seq<char>) -> Result<Seq<TokenView>, ParseErrorView> {
    tokens_from(s, 0)
}

// --- Lexing --------------------------------------------------------------------------

/// A source text: its characters and the byte offset of each.
struct Source {
    chars: Vec<char>,
    offsets: Vec<usize>,
}

impl Source {
    spec fn wf(&self) -> bool {
        &&& self.offsets@.len() == self.chars@.len() + 1
        &&& forall|i: int|
            0 <= i <= self.chars@.len() ==> #[trigger] self.offsets@[i] == text::byte_len(
                self.chars@.take(i),
            )
        &&& self.chars@.len() < usize::MAX
    }

    fn new(input: &str) -> (r: Source)
        ensures
            r.wf(),
            r.chars@ == input@,
    {
        let chars = text::chars_of(input);
        let mut offsets: Vec<usize> = Vec::new();
        let mut at: usize = 0;
        let mut i: usize = 0;
        offsets.push(0);
        proof {
            assert(chars@.take(0) =~= Seq::<char>::empty());
            text::lemma_byte_len_at_least(chars@);
        }
        while i < chars.len()
            invariant
                i <= chars.len(),
                text::byte_len(chars@) <= isize::MAX,
                chars@.len() < usize::MAX,
                at == text::byte_len(chars@.take(i as int)),
                offsets@.len() == i + 1,
                forall|k: int|
                    0 <= k <= i ==> #[trigger] offsets@[k] == text::byte_len(chars@.take(k)),
            decreases chars.len() - i,
        {
            proof {
                text::lemma_byte_len_take_next(chars@, i as int);
                text::lemma_byte_len_take(chars@, i + 1, chars@.len() as int);
                assert(chars@.take(chars@.len() as int) =~= chars@);
            }
            at += text::utf8_width(chars[i]);
            offsets.push(at);
            i += 1;
        }
        Source { chars, offsets }
    }

    fn span(&self, a: usize, b: usize) -> (r: Span)
        requires
            self.wf(),
            a <= self.chars@.len(),
            b <= self.chars@.len(),
        ensures
            r == span_at(self.chars@, a as int, b as int),
    {
        Span { start: self.offsets[a], end: self.offsets[b] }
    }

    fn is_at(&self, i: usize, c: char) -> (r: bool)
        ensures
            r == char_at(self.chars@, i as int, c),
    {
        i < self.chars.len() && self.chars[i] == c
    }

    /// The end of the run of digits at `i`.
    fn digits_end(&self, i: usize) -> (r: usize)
        requires
            i <= self.chars@.len(),
        ensures
            r == run_end(self.chars@, i as int, digits()),
            i <= r <= self.chars@.len(),
    {
        let mut j: usize = i;
        while j < self.chars.len() && text::char_is_digit(self.chars[j])
            invariant
                i <= j <= self.chars@.len(),
                run_end(self.chars@, i as int, digits()) == run_end(
                    self.chars@,
                    j as int,
                    digits(),
                ),
            decreases self.chars.len() - j,
        {
            j += 1;
        }
        j
    }

    /// The end of the run of ASCII letters and digits at `i`.
    fn alphanumerics_end(&self, i: usize) -> (r: usize)
        requires
            i <= self.chars@.len(),
        ensures
            r == run_end(self.chars@, i as int, ascii_alphanumerics()),
            i <= r <= self.chars@.len(),
    {
        let mut j: usize = i;
        while j < self.chars.len() && (text::char_is_digit(self.chars[j]) || text::char_is_ascii_letter(
            self.chars[j],
        ))
            invariant
                i <= j <= self.chars@.len(),
                run_end(self.chars@, i as int, ascii_alphanumerics()) == run_end(
                    self.chars@,
                    j as int,
                    ascii_alphanumerics(),
                ),
            decreases self.chars.len() - j,
        {
            j += 1;
        }
        j
    }

    /// The end of the line at `i`.
    fn line_end(&self, i: usize) -> (r: usize)
        requires
            i <= self.chars@.len(),
        ensures
            r == run_end(self.chars@, i as int, other_than('\n')),
            i <= r <= self.chars@.len(),
    {
        let mut j: usize = i;
        while j < self.chars.len() && self.chars[j] != '\n'
            invariant
                i <= j <= self.chars@.len(),
                run_end(self.chars@, i as int, other_than('\n')) == run_end(
                    self.chars@,
                    j as int,
                    other_than('\n'),
                ),
            decreases self.chars.len() - j,
        {
            j += 1;
        }
        j
    }

    /// Where the block comment whose body starts at `i` ends.
    fn comment_end(&self, i: usize) -> (r: Option<usize>)
        requires
            self.wf(),
            i <= self.chars@.len(),
        ensures
            r matches Some(j) ==> block_comment_end(self.chars@, i as int) == Some(j as int) && i
                < j <= self.chars@.len(),
            r is None ==> block_comment_end(self.chars@, i as int) is None,
    {
        let mut j: usize = i;
        while j + 1 < self.chars.len()
            invariant
                self.wf(),
                i <= j <= self.chars@.len(),
                block_comment_end(self.chars@, i as int) == block_comment_end(
                    self.chars@,
                    j as int,
                ),
            decreases self.chars.len() - j,
        {
            if self.chars[j] == '*' && self.chars[j + 1] == '/' {
                return Some(j + 2);
            }
            j += 1;
        }
        None
    }
}

fn lex_error(message: &str, src: &Source, start: usize, end: usize) -> (r: ParseError)
    requires
        src.wf(),
        start <= src.chars@.len(),
        end <= src.chars@.len(),
    ensures
        r@ == failure(message@, src.chars@, start as int, end as int),
{
    ParseError::Lex { message: message.to_owned(), span: src.span(start, end) }
}

fn next_is_ascii_digit(src: &Source, at: usize) -> (r: bool)
    ensures
        r == digit_at(src.chars@, at as int),
{
    at < src.chars.len() && text::char_is_digit(src.chars[at])
}

/// The end of the run of name characters at `i`.
fn ident_end(src: &Source, i: usize) -> (r: usize)
    requires
        i <= src.chars@.len(),
    ensures
        r == run_end(src.chars@, i as int, name_chars()),
        i <= r <= src.chars@.len(),
{
    let mut j: usize = i;
    while j < src.chars.len() && (text::char_is_alphanumeric(src.chars[j]) || src.chars[j] == '_')
        invariant
            i <= j <= src.chars@.len(),
            run_end(src.chars@, i as int, name_chars()) == run_end(
                src.chars@,
                j as int,
                name_chars(),
            ),
        decreases src.chars.len() - j,
    {
        j += 1;
    }
    j
}

/// `$name` or `$123`: the name and where the parameter ends.
fn lex_parameter(src: &Source, at: usize) -> (r: Result<(String, usize), ParseError>)
    requires
        src.wf(),
        at < src.chars@.len(),
    ensures
        r matches Ok((name, end)) ==> parameter_at(src.chars@, at as int) == Ok::<
            _,
            ParseErrorView,
        >((name@, end as int)) && at < end <= src.chars@.len(),
        r matches Err(e) ==> parameter_at(src.chars@, at as int) == Err::<(Seq<char>, int), _>(e@),
{
    let end: usize = if next_is_ascii_digit(src, at + 1) {
        src.digits_end(at + 1)
    } else {
        ident_end(src, at + 1)
    };
    if end == at + 1 {
        return Err(lex_error("expected a parameter name after '$'", src, at, at + 1));
    }
    Ok((text::text_of(&src.chars, at + 1, end), end))
}

/// `` `name` `` with a doubled backquote for a literal one: the name and where
/// it ends.
fn lex_backquoted(src: &Source, at: usize) -> (r: Result<(String, usize), ParseError>)
    requires
        src.wf(),
        at < src.chars@.len(),
    ensures
        r matches Ok((name, end)) ==> backquoted_from(src.chars@, at as int, at + 1, Seq::empty())
            == Ok::<_, ParseErrorView>((name@, end as int)) && at < end <= src.chars@.len(),
        r matches Err(e) ==> backquoted_from(src.chars@, at as int, at + 1, Seq::empty()) == Err::<
            (Seq<char>, int),
            _,
        >(e@),
{
    let mut name = String::new();
    let mut i: usize = at + 1;
    while i < src.chars.len()
        invariant
            src.wf(),
            at < i <= src.chars@.len(),
            backquoted_from(src.chars@, at as int, at + 1, Seq::empty()) == backquoted_from(
                src.chars@,
                at as int,
                i as int,
                name@,
            ),
        decreases src.chars.len() - i,
    {
        let c = src.chars[i];
        if c != '`' {
            name.push(c);
            i += 1;
        } else if src.is_at(i + 1, '`') {
            name.push('`');
            i += 2;
        } else {
            return Ok((name, i + 1));
        }
    }
    Err(lex_error("unterminated backquoted name", src, at, src.chars.len()))
}

fn digit_of(c: char, radix: u32) -> (r: Option<u32>)
    requires
        radix <= 36,
    ensures
        r matches Some(d) ==> digit_value(c, radix as nat) == Some(d as nat) && d < radix,
        r is None ==> digit_value(c, radix as nat) is None,
{
    let code: u32 = c as u32;
    let v: u32 = if 48 <= code && code <= 57 {
        code - 48
    } else if 97 <= code && code <= 122 {
        code - 87
    } else if 65 <= code && code <= 90 {
        code - 55
    } else {
        1000
    };
    if v < radix {
        Some(v)
    } else {
        None
    }
}

/// What reading digits comes to, when it fails.
enum DigitsError {
    BadDigit,
    TooLarge,
}

/// Reads the digits `chars[from..end]`.
fn read_digits(chars: &Vec<char>, from: usize, end: usize, radix: u32) -> (r: Result<
    u64,
    DigitsError,
>)
    requires
        from <= end <= chars@.len(),
        2 <= radix <= 36,
    ensures
        r matches Ok(v) ==> digits_value(chars@, from as int, end as int, radix as nat, 0)
            == Digits::Value(v as nat),
        r matches Err(DigitsError::BadDigit) ==> digits_value(
            chars@,
            from as int,
            end as int,
            radix as nat,
            0,
        ) == Digits::BadDigit,
        r matches Err(DigitsError::TooLarge) ==> digits_value(
            chars@,
            from as int,
            end as int,
            radix as nat,
            0,
        ) == Digits::TooLarge,
{
    let mut value: u64 = 0;
    let mut i: usize = from;
    while i < end
        invariant
            from <= i <= end <= chars@.len(),
            2 <= radix <= 36,
            digits_value(chars@, from as int, end as int, radix as nat, 0) == digits_value(
                chars@,
                i as int,
                end as int,
                radix as nat,
                value as nat,
            ),
        decreases end - i,
    {
        let d: u32 = match digit_of(chars[i], radix) {
            None => {
                return Err(DigitsError::BadDigit);
            },
            Some(d) => d,
        };
        proof {
            assert(0 <= value * radix <= 0xffff_ffff_ffff_ffff * 36) by (nonlinear_arith)
                requires
                    0 <= value <= 0xffff_ffff_ffff_ffff,
                    0 <= radix <= 36,
            ;
        }
        let wide: u128 = (value as u128) * (radix as u128) + (d as u128);
        if wide > u64::MAX as u128 {
            return Err(DigitsError::TooLarge);
        }
        value = wide as u64;
        i += 1;
    }
    Ok(value)
}

fn integer(src: &Source, at: usize, from: usize, end: usize, radix: u32) -> (r: Result<
    (TokenKind, usize),
    ParseError,
>)
    requires
        src.wf(),
        at <= from <= end <= src.chars@.len(),
        2 <= radix <= 36,
    ensures
        r matches Ok((kind, next)) ==> next == end && integer_token(
            src.chars@,
            at as int,
            from as int,
            end as int,
            radix as nat,
        ) == Ok::<_, ParseErrorView>((kind@, next as int)),
        r matches Err(e) ==> integer_token(
            src.chars@,
            at as int,
            from as int,
            end as int,
            radix as nat,
        ) == Err::<(TokenKindView, int), _>(e@),
{
    match read_digits(&src.chars, from, end, radix) {
        Ok(v) => if v <= i64::MAX as u64 {
            Ok((TokenKind::Integer(v as i64), end))
        } else {
            Ok((TokenKind::IntegerTooLarge(v), end))
        },
        Err(DigitsError::BadDigit) => Err(
            lex_error(
                "invalid integer literal: invalid digit found in string",
                src,
                at,
                end,
            ),
        ),
        Err(DigitsError::TooLarge) => Err(
            lex_error(
                "invalid integer literal: number too large to fit in target type",
                src,
                at,
                end,
            ),
        ),
    }
}

/// The number that starts at `at`, and where it ends.
fn lex_number(src: &Source, at: usize) -> (r: Result<(TokenKind, usize), ParseError>)
    requires
        src.wf(),
        at < src.chars@.len(),
        digit_at(src.chars@, at as int) || (char_at(src.chars@, at as int, '.') && digit_at(
            src.chars@,
            at + 1,
        )),
    ensures
        r matches Ok((kind, end)) ==> number_at(src.chars@, at as int) == Ok::<_, ParseErrorView>(
            (kind@, end as int),
        ) && at < end <= src.chars@.len(),
        r matches Err(e) ==> number_at(src.chars@, at as int) == Err::<(TokenKindView, int), _>(
            e@,
        ),
{
    if src.is_at(at, '0') && (src.is_at(at + 1, 'x') || src.is_at(at + 1, 'X') || src.is_at(
        at + 1,
        'o',
    ) || src.is_at(at + 1, 'O')) {
        let radix: u32 = if src.is_at(at + 1, 'x') || src.is_at(at + 1, 'X') {
            16
        } else {
            8
        };
        let end: usize = src.alphanumerics_end(at + 2);
        if end == at + 2 {
            return Err(lex_error("missing digits after numeric prefix", src, at, at + 2));
        }
        return integer(src, at, at + 2, end, radix);
    }
    let whole: usize = src.digits_end(at);
    proof {
        if digit_at(src.chars@, at as int) {
            assert(run_end(src.chars@, at as int, digits()) == run_end(
                src.chars@,
                at + 1,
                digits(),
            ));
            lemma_run_end(src.chars@, at + 1, digits());
        }
    }
    let mut end: usize = whole;
    if src.is_at(whole, '.') && next_is_ascii_digit(src, whole + 1) {
        end = src.digits_end(whole + 1);
        proof {
            lemma_run_end(src.chars@, whole + 2, digits());
        }
    }
    let ghost fraction = end as int;
    assert(fraction == fraction_end(src.chars@, whole as int));
    if src.is_at(end, 'e') || src.is_at(end, 'E') {
        let mut j: usize = end + 1;
        if src.is_at(j, '+') || src.is_at(j, '-') {
            j += 1;
        }
        if next_is_ascii_digit(src, j) {
            end = src.digits_end(j);
        }
    }
    assert(end == exponent_end(src.chars@, fraction));
    if end != whole {
        let written = text::text_of(&src.chars, at, end);
        Ok((TokenKind::Float(decimal::bits(written.as_str())), end))
    } else {
        integer(src, at, at, end, 10)
    }
}

proof fn lemma_run_end(s: Seq<char>, i: int, p: spec_fn(char) -> bool)
    requires
        0 <= i <= s.len(),
    ensures
        i <= run_end(s, i, p) <= s.len(),
    decreases s.len() - i,
{
    if i < s.len() && p(s[i]) {
        lemma_run_end(s, i + 1, p);
    }
}

/// What a one-letter escape stands for.
fn letter_escape(c: char) -> (r: Option<char>)
    ensures
        r == simple_escape(c),
{
    match c {
        'n' => Some('\n'),
        't' => Some('\t'),
        'r' => Some('\r'),
        'b' => Some('\u{8}'),
        'f' => Some('\u{c}'),
        '\\' => Some('\\'),
        '\'' => Some('\''),
        '"' => Some('"'),
        _ => None,
    }
}

/// The index at which exactly `bytes` bytes from `i` on end.
fn find_cut(src: &Source, i: usize, bytes: usize) -> (r: Option<usize>)
    requires
        i <= src.chars@.len(),
        bytes > 0,
    ensures
        r matches Some(j) ==> cut_at(src.chars@, i as int, bytes as nat) == Some(j as int) && i < j
            <= src.chars@.len(),
        r is None ==> cut_at(src.chars@, i as int, bytes as nat) is None,
{
    let mut j: usize = i;
    let mut left: usize = bytes;
    while left > 0
        invariant
            i <= j <= src.chars@.len(),
            left < bytes ==> i < j,
            left <= bytes,
            bytes > 0,
            cut_at(src.chars@, i as int, bytes as nat) == cut_at(src.chars@, j as int, left as nat),
        decreases left,
    {
        if j >= src.chars.len() {
            return None;
        }
        let w: usize = text::utf8_width(src.chars[j]);
        if w > left {
            return None;
        }
        left -= w;
        j += 1;
    }
    Some(j)
}

/// The code that the hexadecimal digits `from..end` write.
fn read_escape_code(src: &Source, from: usize, end: usize) -> (r: Option<u32>)
    requires
        from < end <= src.chars@.len(),
    ensures
        r == escape_code(src.chars@, from as int, end as int),
{
    let first: usize = if src.is_at(from, '+') {
        from + 1
    } else {
        from
    };
    if first >= end {
        return None;
    }
    match read_digits(&src.chars, first, end, 16) {
        Ok(v) => if v <= u32::MAX as u64 {
            Some(v as u32)
        } else {
            None
        },
        Err(_) => None,
    }
}

proof fn lemma_char_of_code(c: char, code: u32)
    requires
        c as u32 == code,
    ensures
        c == code as char,
{
}

/// The escape whose backslash stands at `i`: its character and where it ends.
fn lex_escape(src: &Source, at: usize, i: usize) -> (r: Result<(char, usize), ParseError>)
    requires
        src.wf(),
        at < i < src.chars@.len(),
    ensures
        r matches Ok((c, end)) ==> escape_at(src.chars@, at as int, i as int) == Ok::<
            _,
            ParseErrorView,
        >((c, end as int)) && i < end <= src.chars@.len(),
        r matches Err(e) ==> escape_at(src.chars@, at as int, i as int) == Err::<(char, int), _>(
            e@,
        ),
{
    if i + 1 >= src.chars.len() {
        return Err(lex_error("unterminated string literal", src, at, src.chars.len()));
    }
    let e = src.chars[i + 1];
    if let Some(c) = letter_escape(e) {
        return Ok((c, i + 2));
    }
    if e == 'u' || e == 'U' {
        let digits: usize = if e == 'u' {
            4
        } else {
            8
        };
        let end: usize = match find_cut(src, i + 2, digits) {
            None => {
                return Err(lex_error("truncated unicode escape", src, i, src.chars.len()));
            },
            Some(end) => end,
        };
        let code: u32 = match read_escape_code(src, i + 2, end) {
            None => {
                return Err(lex_error("invalid unicode escape", src, i, end));
            },
            Some(code) => code,
        };
        match text::char_from_code(code) {
            None => {
                let shown = text::padded_upper_hex_text(code, 4);
                let message = text::join3("U+", shown.as_str(), " is not a valid character");
                Err(lex_error(message.as_str(), src, i, end))
            },
            Some(c) => {
                proof {
                    lemma_char_of_code(c, code);
                }
                Ok((c, end))
            },
        }
    } else {
        let shown = text::escape(e);
        let message = text::join3("unknown escape '\\", shown.as_str(), "'");
        Err(lex_error(message.as_str(), src, i, i + 2))
    }
}

/// The string literal that starts at `at`: its value and where it ends.
fn lex_string(src: &Source, at: usize, quote: char) -> (r: Result<(String, usize), ParseError>)
    requires
        src.wf(),
        at < src.chars@.len(),
    ensures
        r matches Ok((value, end)) ==> string_from(
            src.chars@,
            at as int,
            quote,
            at + 1,
            Seq::empty(),
        ) == Ok::<_, ParseErrorView>((value@, end as int)) && at < end <= src.chars@.len(),
        r matches Err(e) ==> string_from(src.chars@, at as int, quote, at + 1, Seq::empty())
            == Err::<(Seq<char>, int), _>(e@),
{
    let mut value = String::new();
    let mut i: usize = at + 1;
    while i < src.chars.len()
        invariant
            src.wf(),
            at < i <= src.chars@.len(),
            string_from(src.chars@, at as int, quote, at + 1, Seq::empty()) == string_from(
                src.chars@,
                at as int,
                quote,
                i as int,
                value@,
            ),
        decreases src.chars.len() - i,
    {
        let c = src.chars[i];
        if c == '\\' {
            match lex_escape(src, at, i) {
                Err(e) => {
                    return Err(e);
                },
                Ok((c, next)) => {
                    value.push(c);
                    i = next;
                },
            }
        } else if c == quote {
            return Ok((value, i + 1));
        } else {
            value.push(c);
            i += 1;
        }
    }
    Err(lex_error("unterminated string literal", src, at, src.chars.len()))
}

/// The punctuation that starts at `i`, and where it ends.
fn lex_punctuation(src: &Source, i: usize) -> (r: Option<(TokenKind, usize)>)
    requires
        src.wf(),
        i < src.chars@.len(),
    ensures
        r matches Some((kind, end)) ==> punctuation_at(src.chars@, i as int) == Some(
            (kind@, end as int),
        ) && i < end <= src.chars@.len(),
        r is None ==> punctuation_at(src.chars@, i as int) is None,
{
    match src.chars[i] {
        '(' => Some((TokenKind::LParen, i + 1)),
        ')' => Some((TokenKind::RParen, i + 1)),
        '[' => Some((TokenKind::LBracket, i + 1)),
        ']' => Some((TokenKind::RBracket, i + 1)),
        '{' => Some((TokenKind::LBrace, i + 1)),
        '}' => Some((TokenKind::RBrace, i + 1)),
        ',' => Some((TokenKind::Comma, i + 1)),
        ';' => Some((TokenKind::Semicolon, i + 1)),
        '|' => Some((TokenKind::Pipe, i + 1)),
        '*' => Some((TokenKind::Star, i + 1)),
        '+' => Some((TokenKind::Plus, i + 1)),
        '%' => Some((TokenKind::Percent, i + 1)),
        '^' => Some((TokenKind::Caret, i + 1)),
        '/' => Some((TokenKind::Slash, i + 1)),
        ':' => Some((TokenKind::Colon, i + 1)),
        '.' => if src.is_at(i + 1, '.') {
            Some((TokenKind::DotDot, i + 2))
        } else if next_is_ascii_digit(src, i + 1) {
            None
        } else {
            Some((TokenKind::Dot, i + 1))
        },
        '=' => if src.is_at(i + 1, '~') {
            Some((TokenKind::RegexEq, i + 2))
        } else {
            Some((TokenKind::Eq, i + 1))
        },
        '<' => if src.is_at(i + 1, '=') {
            Some((TokenKind::Le, i + 2))
        } else if src.is_at(i + 1, '>') {
            Some((TokenKind::Ne, i + 2))
        } else if src.is_at(i + 1, '-') {
            Some((TokenKind::LArrow, i + 2))
        } else {
            Some((TokenKind::Lt, i + 1))
        },
        '>' => if src.is_at(i + 1, '=') {
            Some((TokenKind::Ge, i + 2))
        } else {
            Some((TokenKind::Gt, i + 1))
        },
        '-' => if src.is_at(i + 1, '>') {
            Some((TokenKind::Arrow, i + 2))
        } else {
            Some((TokenKind::Minus, i + 1))
        },
        _ => None,
    }
}

/// The token that starts at `i`, and where it ends.
fn lex_token(src: &Source, i: usize) -> (r: Result<(TokenKind, usize), ParseError>)
    requires
        src.wf(),
        i < src.chars@.len(),
    ensures
        r matches Ok((kind, end)) ==> token_at(src.chars@, i as int) == Ok::<_, ParseErrorView>(
            (kind@, end as int),
        ) && i < end <= src.chars@.len(),
        r matches Err(e) ==> token_at(src.chars@, i as int) == Err::<(TokenKindView, int), _>(e@),
{
    reveal(token_at);
    if let Some(found) = lex_punctuation(src, i) {
        return Ok(found);
    }
    let c = src.chars[i];
    if c == '\'' || c == '"' {
        match lex_string(src, i, c) {
            Ok((value, end)) => Ok((TokenKind::Str(value), end)),
            Err(e) => Err(e),
        }
    } else if c == '$' {
        match lex_parameter(src, i) {
            Ok((name, end)) => Ok((TokenKind::Parameter(name), end)),
            Err(e) => Err(e),
        }
    } else if c == '`' {
        match lex_backquoted(src, i) {
            Ok((name, end)) => Ok((TokenKind::Ident { name, backquoted: true }, end)),
            Err(e) => Err(e),
        }
    } else if c == '.' || text::char_is_digit(c) {
        lex_number(src, i)
    } else if text::char_is_alphabetic(c) || c == '_' {
        let end: usize = ident_end(src, i + 1);
        Ok((TokenKind::Ident { name: text::text_of(&src.chars, i, end), backquoted: false }, end))
    } else {
        let shown = text::escape(c);
        let message = text::join3("unexpected character '", shown.as_str(), "'");
        Err(lex_error(message.as_str(), src, i, i + 1))
    }
}

/// `read` put in front of `rest`.
spec fn after_tokens(
    read: Seq<TokenView>,
    rest: Result<Seq<TokenView>, ParseErrorView>,
) -> Result<Seq<TokenView>, ParseErrorView> {
    match rest {
        Ok(rest) => Ok(read + rest),
        Err(e) => Err(e),
    }
}

/// Tokenises the whole input. The tokens end with an `Eof`.
pub fn lex(input: &str) -> (r: Result<Vec<Token>, ParseError>)
    ensures
        r matches Ok(tokens) ==> tokens_of(input@) == Ok::<_, ParseErrorView>(
            tokens_view(tokens@),
        ),
        r matches Err(e) ==> tokens_of(input@) == Err::<Seq<TokenView>, _>(e@),
{
    let src = Source::new(input);
    let mut tokens: Vec<Token> = Vec::new();
    let mut i: usize = 0;
    let ghost s = input@;
    proof {
        assert(tokens_of(s) == after_tokens(tokens_view(tokens@), tokens_from(s, 0))) by {
            if let Ok(rest) = tokens_from(s, 0) {
                assert(tokens_view(tokens@) + rest =~= rest);
            }
        }
    }
    while i < src.chars.len()
        invariant
            src.wf(),
            src.chars@ == s,
            s == input@,
            i <= src.chars@.len(),
            tokens_of(s) == after_tokens(tokens_view(tokens@), tokens_from(s, i as int)),
        decreases src.chars.len() - i,
    {
        let c = src.chars[i];
        if text::char_is_whitespace(c) {
            i += 1;
        } else if c == '/' && src.is_at(i + 1, '/') {
            let end: usize = src.line_end(i);
            proof {
                assert(run_end(s, i as int, other_than('\n')) == run_end(
                    s,
                    i + 1,
                    other_than('\n'),
                ));
                lemma_run_end(s, i + 1, other_than('\n'));
            }
            i = end;
        } else if c == '/' && src.is_at(i + 1, '*') {
            match src.comment_end(i + 2) {
                Some(end) => {
                    i = end;
                },
                None => {
                    return Err(lex_error("unterminated block comment", &src, i, src.chars.len()));
                },
            }
        } else {
            match lex_token(&src, i) {
                Err(e) => {
                    return Err(e);
                },
                Ok((kind, end)) => {
                    let token = Token { kind, span: src.span(i, end) };
                    let ghost before = tokens@;
                    proof {
                        assert(tokens_view(before.push(token)) =~= tokens_view(before).push(
                            token@,
                        ));
                        if let Ok(rest) = tokens_from(s, end as int) {
                            assert(tokens_view(before) + (seq![token@] + rest) =~= tokens_view(
                                before,
                            ).push(token@) + rest);
                        }
                    }
                    tokens.push(token);
                    i = end;
                },
            }
        }
    }
    let token = Token { kind: TokenKind::Eof, span: src.span(src.chars.len(), src.chars.len()) };
    proof {
        assert(tokens_view(tokens@.push(token)) =~= tokens_view(tokens@) + seq![token@]);
    }
    tokens.push(token);
    Ok(tokens)
}

// --- Laws ------------------------------------------------------------------------------

proof fn lemma_cut_end(s: Seq<char>, i: int, bytes: nat)
    requires
        0 <= i <= s.len(),
    ensures
        cut_at(s, i, bytes) matches Some(end) ==> i <= end <= s.len(),
    decreases s.len() - i,
{
    if bytes > 0 && i < s.len() && text::width(s[i]) <= bytes {
        lemma_cut_end(s, i + 1, (bytes - text::width(s[i])) as nat);
    }
}

proof fn lemma_string_end(s: Seq<char>, at: int, quote: char, i: int, read: Seq<char>)
    requires
        0 <= at < i <= s.len(),
    ensures
        string_from(s, at, quote, i, read) matches Ok((v, end)) ==> i < end <= s.len(),
    decreases s.len() - i,
{
    if i < s.len() {
        if s[i] == '\\' {
            if let Ok((c, next)) = escape_at(s, at, i) {
                if i + 2 <= s.len() {
                    lemma_cut_end(s, i + 2, 4);
                    lemma_cut_end(s, i + 2, 8);
                }
                assert(i < next <= s.len());
                lemma_string_end(s, at, quote, next, read.push(c));
            }
        } else if s[i] != quote {
            lemma_string_end(s, at, quote, i + 1, read.push(s[i]));
        }
    }
}

proof fn lemma_backquoted_end(s: Seq<char>, at: int, i: int, read: Seq<char>)
    requires
        0 <= at < i <= s.len(),
    ensures
        backquoted_from(s, at, i, read) matches Ok((v, end)) ==> i < end <= s.len(),
    decreases s.len() - i,
{
    if i < s.len() {
        if s[i] != '`' {
            lemma_backquoted_end(s, at, i + 1, read.push(s[i]));
        } else if char_at(s, i + 1, '`') {
            lemma_backquoted_end(s, at, i + 2, read.push('`'));
        }
    }
}

proof fn lemma_comment_end(s: Seq<char>, i: int)
    ensures
        block_comment_end(s, i) matches Some(end) ==> i < end <= s.len(),
    decreases s.len() - i,
{
    if i + 1 < s.len() && !(s[i] == '*' && s[i + 1] == '/') {
        lemma_comment_end(s, i + 1);
    }
}

proof fn lemma_number_end(s: Seq<char>, i: int)
    requires
        0 <= i < s.len(),
        digit_at(s, i) || (char_at(s, i, '.') && digit_at(s, i + 1)),
    ensures
        number_at(s, i) matches Ok((kind, end)) ==> i < end <= s.len() && kind
            != TokenKindView::Eof,
{
    match prefix_radix(s, i) {
        Some(radix) => {
            lemma_run_end(s, i + 2, ascii_alphanumerics());
        },
        None => {
            let whole = run_end(s, i, digits());
            lemma_run_end(s, i, digits());
            if digit_at(s, i) {
                lemma_run_end(s, i + 1, digits());
            }
            if char_at(s, whole, '.') && digit_at(s, whole + 1) {
                lemma_run_end(s, whole + 1, digits());
                lemma_run_end(s, whole + 2, digits());
            }
            let f = fraction_end(s, whole);
            if f + 1 <= s.len() {
                lemma_run_end(s, f + 1, digits());
            }
            if f + 2 <= s.len() {
                lemma_run_end(s, f + 2, digits());
            }
        },
    }
}

proof fn lemma_token_end(s: Seq<char>, i: int)
    requires
        0 <= i < s.len(),
    ensures
        token_at(s, i) matches Ok((kind, end)) ==> i < end <= s.len() && kind
            != TokenKindView::Eof,
{
    reveal(token_at);
    lemma_run_end(s, i + 1, name_chars());
    lemma_run_end(s, i + 1, digits());
    lemma_string_end(s, i, s[i], i + 1, Seq::empty());
    lemma_backquoted_end(s, i, i + 1, Seq::empty());
    if punctuation_at(s, i) is None && (s[i] == '.' || text::is_digit(s[i])) {
        lemma_number_end(s, i);
    }
}

/// Whether `tokens` end with an `Eof` at the end of `s` and hold no other.
pub open spec fn closed_by_eof(s: Seq<char>, tokens: Seq<TokenView>) -> bool {
    &&& tokens.len() > 0
    &&& tokens.last().kind == TokenKindView::Eof
    &&& tokens.last().span == span_at(s, s.len() as int, s.len() as int)
    &&& forall|k: int|
        0 <= k < tokens.len() - 1 ==> (#[trigger] tokens[k]).kind != TokenKindView::Eof
}

/// Whether the tokens stand one behind the other, none of them but an `Eof`
/// empty.
pub open spec fn in_order(s: Seq<char>, from: int, tokens: Seq<TokenView>) -> bool {
    &&& forall|k: int|
        0 <= k < tokens.len() ==> text::byte_len(s.take(from)) <= (#[trigger] tokens[k]).span.start
            <= tokens[k].span.end <= text::byte_len(s)
    &&& forall|k: int|
        0 <= k < tokens.len() && (#[trigger] tokens[k]).kind != TokenKindView::Eof
            ==> tokens[k].span.start < tokens[k].span.end
    &&& forall|j: int, k: int|
        0 <= j < k < tokens.len() ==> (#[trigger] tokens[j]).span.end <= (
        #[trigger] tokens[k]).span.start
}

proof fn lemma_tokens(s: Seq<char>, i: int)
    requires
        0 <= i <= s.len(),
        text::byte_len(s) <= usize::MAX,
    ensures
        tokens_from(s, i) matches Ok(tokens) ==> closed_by_eof(s, tokens) && in_order(
            s,
            i,
            tokens,
        ),
    decreases s.len() - i,
{
    assert(s.take(s.len() as int) =~= s);
    text::lemma_byte_len_take(s, i, s.len() as int);
    if i >= s.len() {
    } else if text::is_whitespace(s[i]) {
        lemma_tokens(s, i + 1);
        text::lemma_byte_len_take(s, i, i + 1);
    } else if s[i] == '/' && char_at(s, i + 1, '/') {
        let end = run_end(s, i, other_than('\n'));
        assert(end == run_end(s, i + 1, other_than('\n')));
        lemma_run_end(s, i + 1, other_than('\n'));
        lemma_tokens(s, end);
        text::lemma_byte_len_take(s, i, end);
    } else if s[i] == '/' && char_at(s, i + 1, '*') {
        lemma_comment_end(s, i + 2);
        if let Some(end) = block_comment_end(s, i + 2) {
            lemma_tokens(s, end);
            text::lemma_byte_len_take(s, i, end);
        }
    } else {
        lemma_token_end(s, i);
        if let Ok((kind, end)) = token_at(s, i) {
            lemma_tokens(s, end);
            text::lemma_byte_len_take(s, i, end);
            text::lemma_byte_len_take(s, end, s.len() as int);
            if let Ok(rest) = tokens_from(s, end) {
                let all = seq![TokenView { kind, span: span_at(s, i, end) }] + rest;
                assert(all.last() == rest.last());
                assert forall|k: int| 0 < k < all.len() implies #[trigger] all[k] == rest[
                k - 1] by {}
            }
        }
    }
}

/// The tokens of a text end with an `Eof` at its end, and it is the only one.
pub proof fn tokens_are_closed_by_eof(s: Seq<char>)
    requires
        text::byte_len(s) <= usize::MAX,
    ensures
        tokens_of(s) matches Ok(tokens) ==> closed_by_eof(s, tokens),
{
    lemma_tokens(s, 0);
}

/// The tokens of a text lie within it, one behind the other without overlap.
pub proof fn token_spans_are_in_order(s: Seq<char>)
    requires
        text::byte_len(s) <= usize::MAX,
    ensures
        tokens_of(s) matches Ok(tokens) ==> in_order(s, 0, tokens),
{
    lemma_tokens(s, 0);
}

} // verus!
