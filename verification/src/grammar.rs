//! The grammar, as functions from a token sequence and a position to a tree and
//! the position behind it.
//!
//! Binary operators stand on levels of precedence, from the loosest (1, `OR`) to
//! the tightest (9, `^`), and fold to the left. `NOT` stands between `AND` and
//! the comparisons, prefix signs bind tighter than `^`, and postfix forms bind
//! tightest.

use vstd::prelude::*;
use vstd::string::*;

use crate::ast::{
    self, BinaryOp, Direction, ExprView, LiteralView, NodePatternView, PathPatternView,
    QuantifierKind, RelPatternView, UnaryOp, VarLength,
};
use crate::error::ParseErrorView;
use crate::lex::{TokenKindView, TokenView};
use crate::span::{self, Span};
use crate::text;

verus! {

/// Maximum parse-time recursion depth (parenthesis/list/map/argument nesting).
pub const MAX_DEPTH: usize = 64;

/// Maximum total depth of the tree that [`parse`](crate::parser::parse) returns.
/// Loop-folded operator chains (`a + b + ...`, `NOT NOT ...`, `x.a.b...`) nest
/// the tree without recursing at parse time, so the recursion guard alone cannot
/// bound it. The bound is what makes recursive walks over the tree safe.
pub const MAX_AST_DEPTH: usize = 256;

/// What parsing comes to: a tree and the position behind it.
pub type Step<V> = Result<(V, nat), ParseErrorView>;

// --- Tokens -----------------------------------------------------------------------------------------

/// The token at `p`; behind the last one stands the last one.
pub open spec fn tok(ts: Seq<TokenView>, p: nat) -> TokenView {
    if p < ts.len() {
        ts[p as int]
    } else {
        ts.last()
    }
}

pub open spec fn kind_at(ts: Seq<TokenView>, p: nat) -> TokenKindView {
    tok(ts, p).kind
}

pub open spec fn span_of(ts: Seq<TokenView>, p: nat) -> Span {
    tok(ts, p).span
}

/// The position behind the token at `p`; the last token is not passed.
pub open spec fn next(ts: Seq<TokenView>, p: nat) -> nat {
    if p + 1 < ts.len() {
        p + 1
    } else {
        p
    }
}

/// The place of the token before `p`.
pub open spec fn span_before(ts: Seq<TokenView>, p: nat) -> Span {
    if p == 0 {
        span_of(ts, 0)
    } else {
        span_of(ts, (p - 1) as nat)
    }
}

/// Whether `q` lies behind `p`, within the tokens.
pub open spec fn advances(ts: Seq<TokenView>, p: nat, q: nat) -> bool {
    p < q && q <= ts.len()
}

/// Whether the token at `p` is the keyword `kw`. A backquoted name is none.
pub open spec fn is_kw(ts: Seq<TokenView>, p: nat, kw: Seq<char>) -> bool {
    match kind_at(ts, p) {
        TokenKindView::Ident { name, backquoted } => !backquoted && text::same_ignoring_case(name, kw),
        _ => false,
    }
}

pub open spec fn is_kw2(ts: Seq<TokenView>, p: nat, first: Seq<char>, second: Seq<char>) -> bool {
    is_kw(ts, p, first) && is_kw(ts, p + 1, second)
}

pub open spec fn is_name(ts: Seq<TokenView>, p: nat) -> bool {
    kind_at(ts, p) is Ident
}

/// The error of finding another token at `p` than what is expected.
pub open spec fn unexpected(ts: Seq<TokenView>, p: nat, expected: Seq<char>) -> ParseErrorView {
    ParseErrorView::Unexpected {
        expected,
        found: kind_at(ts, p).described(),
        span: span_of(ts, p),
    }
}

/// The position behind the mark `kind`, which has to stand at `p`.
pub open spec fn expect_at(
    ts: Seq<TokenView>,
    p: nat,
    kind: TokenKindView,
    expected: Seq<char>,
) -> Result<nat, ParseErrorView> {
    if kind_at(ts, p) == kind {
        Ok(next(ts, p))
    } else {
        Err(unexpected(ts, p, expected))
    }
}

/// The position behind the keyword `kw`, which has to stand at `p`.
pub open spec fn expect_kw_at(ts: Seq<TokenView>, p: nat, kw: Seq<char>) -> Result<
    nat,
    ParseErrorView,
> {
    if is_kw(ts, p, kw) {
        Ok(next(ts, p))
    } else {
        Err(unexpected(ts, p, kw))
    }
}

/// Words that cannot be used as variable names, aliases or yield items unless
/// backquoted. Labels, relationship types, property names, map keys and
/// procedure names are not restricted.
pub open spec fn is_reserved_word(w: Seq<char>) -> bool {
    ||| text::same_ignoring_case(w, "ALL"@)
    ||| text::same_ignoring_case(w, "AND"@)
    ||| text::same_ignoring_case(w, "AS"@)
    ||| text::same_ignoring_case(w, "ASC"@)
    ||| text::same_ignoring_case(w, "ASCENDING"@)
    ||| text::same_ignoring_case(w, "BY"@)
    ||| text::same_ignoring_case(w, "CALL"@)
    ||| text::same_ignoring_case(w, "CASE"@)
    ||| text::same_ignoring_case(w, "CONTAINS"@)
    ||| text::same_ignoring_case(w, "CREATE"@)
    ||| text::same_ignoring_case(w, "DELETE"@)
    ||| text::same_ignoring_case(w, "DESC"@)
    ||| text::same_ignoring_case(w, "DESCENDING"@)
    ||| text::same_ignoring_case(w, "DETACH"@)
    ||| text::same_ignoring_case(w, "DISTINCT"@)
    ||| text::same_ignoring_case(w, "ELSE"@)
    ||| text::same_ignoring_case(w, "END"@)
    ||| text::same_ignoring_case(w, "ENDS"@)
    ||| text::same_ignoring_case(w, "EXISTS"@)
    ||| text::same_ignoring_case(w, "FALSE"@)
    ||| text::same_ignoring_case(w, "IN"@)
    ||| text::same_ignoring_case(w, "IS"@)
    ||| text::same_ignoring_case(w, "LIMIT"@)
    ||| text::same_ignoring_case(w, "MATCH"@)
    ||| text::same_ignoring_case(w, "MERGE"@)
    ||| text::same_ignoring_case(w, "NOT"@)
    ||| text::same_ignoring_case(w, "NULL"@)
    ||| text::same_ignoring_case(w, "ON"@)
    ||| text::same_ignoring_case(w, "OPTIONAL"@)
    ||| text::same_ignoring_case(w, "OR"@)
    ||| text::same_ignoring_case(w, "ORDER"@)
    ||| text::same_ignoring_case(w, "REMOVE"@)
    ||| text::same_ignoring_case(w, "RETURN"@)
    ||| text::same_ignoring_case(w, "SET"@)
    ||| text::same_ignoring_case(w, "SKIP"@)
    ||| text::same_ignoring_case(w, "STARTS"@)
    ||| text::same_ignoring_case(w, "THEN"@)
    ||| text::same_ignoring_case(w, "TRUE"@)
    ||| text::same_ignoring_case(w, "UNION"@)
    ||| text::same_ignoring_case(w, "UNWIND"@)
    ||| text::same_ignoring_case(w, "WHEN"@)
    ||| text::same_ignoring_case(w, "WHERE"@)
    ||| text::same_ignoring_case(w, "WITH"@)
    ||| text::same_ignoring_case(w, "XOR"@)
    ||| text::same_ignoring_case(w, "YIELD"@)
}

/// A name, keyword or not.
pub open spec fn name_at(ts: Seq<TokenView>, p: nat, expected: Seq<char>) -> Step<Seq<char>> {
    match kind_at(ts, p) {
        TokenKindView::Ident { name, .. } => Ok((name, next(ts, p))),
        _ => Err(unexpected(ts, p, expected)),
    }
}

/// A name in a binding position: reserved words are rejected unless backquoted.
pub open spec fn binding_at(
    ts: Seq<TokenView>,
    p: nat,
    expected: Seq<char>,
    usage: Seq<char>,
) -> Step<Seq<char>> {
    match kind_at(ts, p) {
        TokenKindView::Ident { name, backquoted } => if !backquoted && is_reserved_word(name) {
            Err(ParseErrorView::ReservedWord { word: name, usage, span: span_of(ts, p) })
        } else {
            Ok((name, next(ts, p)))
        },
        _ => Err(unexpected(ts, p, expected)),
    }
}

// --- Scans ------------------------------------------------------------------------------------------

/// Where the group that opens at `p` closes, with `depth` groups open before it.
pub open spec fn close_of(
    ts: Seq<TokenView>,
    p: nat,
    open: TokenKindView,
    close: TokenKindView,
    depth: nat,
) -> Option<nat>
    decreases ts.len() - p,
{
    if p >= ts.len() || kind_at(ts, p) == TokenKindView::Eof {
        None
    } else if kind_at(ts, p) == open {
        close_of(ts, p + 1, open, close, depth + 1)
    } else if kind_at(ts, p) == close {
        if depth <= 1 {
            Some(p)
        } else {
            close_of(ts, p + 1, open, close, (depth - 1) as nat)
        }
    } else {
        close_of(ts, p + 1, open, close, depth)
    }
}

/// Whether a relationship connector follows the group that closes at `close`:
/// `<-` does; `-` only as `-->`, as `--` before `(`, or as `-[...]` whose bracket
/// group is closed by `-` or `->`.
pub open spec fn connector_follows(ts: Seq<TokenView>, close: nat) -> bool {
    match kind_at(ts, close + 1) {
        TokenKindView::LArrow => true,
        TokenKindView::Minus => match kind_at(ts, close + 2) {
            TokenKindView::Arrow => true,
            TokenKindView::Minus => kind_at(ts, close + 3) == TokenKindView::LParen,
            TokenKindView::LBracket => match close_of(
                ts,
                close + 2,
                TokenKindView::LBracket,
                TokenKindView::RBracket,
                0,
            ) {
                Some(end) => kind_at(ts, end + 1) == TokenKindView::Minus || kind_at(ts, end + 1)
                == TokenKindView::Arrow,
                None => false,
            },
            _ => false,
        },
        _ => false,
    }
}

/// The position behind a run of `:Label`s.
pub open spec fn labels_end(ts: Seq<TokenView>, p: nat) -> nat
    decreases ts.len() - p,
{
    if p < ts.len() && kind_at(ts, p) == TokenKindView::Colon && is_name(ts, p + 1) {
        labels_end(ts, p + 2)
    } else {
        p
    }
}

/// Whether what stands between the parenthesis at `p` and `close` has the form
/// `[variable] (':' label)* [properties]`.
pub open spec fn is_node_shaped(ts: Seq<TokenView>, p: nat, close: nat) -> bool {
    let q = labels_end(
        ts,
        if is_name(ts, p + 1) {
            p + 2
        } else {
            p + 1
        },
    );
    match kind_at(ts, q) {
        TokenKindView::Parameter(_) => q + 1 == close,
        TokenKindView::LBrace => match close_of(
            ts,
            q,
            TokenKindView::LBrace,
            TokenKindView::RBrace,
            0,
        ) {
            Some(end) => end + 1 == close,
            None => false,
        },
        _ => q == close,
    }
}

/// Whether the group that opens at `p` is a node pattern followed by a
/// relationship connector.
pub open spec fn starts_pattern(ts: Seq<TokenView>, p: nat) -> bool {
    match close_of(ts, p, TokenKindView::LParen, TokenKindView::RParen, 0) {
        Some(close) => connector_follows(ts, close) && is_node_shaped(ts, p, close),
        None => false,
    }
}

/// How many segments a dotted name at `p` has, where it ends in `(`: it is a
/// function's name then.
pub open spec fn call_segments(ts: Seq<TokenView>, p: nat, n: nat) -> Option<nat>
    decreases ts.len() - p - 2 * n,
{
    if p + 2 * n >= ts.len() || !is_name(ts, p + 2 * n) {
        None
    } else if kind_at(ts, p + 2 * n + 1) == TokenKindView::Dot {
        call_segments(ts, p, n + 1)
    } else if kind_at(ts, p + 2 * n + 1) == TokenKindView::LParen {
        Some(n + 1)
    } else {
        None
    }
}

/// The text of a name token.
pub open spec fn name_in(kind: TokenKindView) -> Seq<char> {
    match kind {
        TokenKindView::Ident { name, .. } => name,
        _ => seq![],
    }
}

/// The segments of a dotted name.
pub open spec fn segments_at(ts: Seq<TokenView>, p: nat, n: nat) -> Seq<Seq<char>> {
    Seq::new(n, |i: int| name_in(kind_at(ts, (p + 2 * i) as nat)))
}

/// The quantifier that a name stands for.
pub open spec fn quantifier_named(name: Seq<char>) -> Option<QuantifierKind> {
    if text::same_ignoring_case(name, "all"@) {
        Some(QuantifierKind::All)
    } else if text::same_ignoring_case(name, "any"@) {
        Some(QuantifierKind::Any)
    } else if text::same_ignoring_case(name, "none"@) {
        Some(QuantifierKind::NoneOf)
    } else if text::same_ignoring_case(name, "single"@) {
        Some(QuantifierKind::Single)
    } else {
        None
    }
}

/// Whether `( name IN` follows the token at `p`.
pub open spec fn quantifier_follows(ts: Seq<TokenView>, p: nat) -> bool {
    kind_at(ts, p + 1) == TokenKindView::LParen && is_name(ts, p + 2) && is_kw(ts, p + 3, "IN"@)
}

/// Whether `( name =` follows the token at `p`.
pub open spec fn reduce_follows(ts: Seq<TokenView>, p: nat) -> bool {
    kind_at(ts, p + 1) == TokenKindView::LParen && is_name(ts, p + 2) && kind_at(ts, p + 3)
    == TokenKindView::Eq
}

/// The binary operator of a level that stands at `p`, and the position behind
/// it.
pub open spec fn operator_at(ts: Seq<TokenView>, p: nat, level: nat) -> Option<(BinaryOp, nat)> {
    let k = kind_at(ts, p);
    let q = next(ts, p);
    if level == 1 {
        if is_kw(ts, p, "OR"@) {
            Some((BinaryOp::Or, q))
        } else {
            None
        }
    } else if level == 2 {
        if is_kw(ts, p, "XOR"@) {
            Some((BinaryOp::Xor, q))
        } else {
            None
        }
    } else if level == 3 {
        if is_kw(ts, p, "AND"@) {
            Some((BinaryOp::And, q))
        } else {
            None
        }
    } else if level == 5 {
        match k {
            TokenKindView::Eq => Some((BinaryOp::Eq, q)),
            TokenKindView::Ne => Some((BinaryOp::Ne, q)),
            TokenKindView::Le => Some((BinaryOp::Le, q)),
            TokenKindView::Ge => Some((BinaryOp::Ge, q)),
            TokenKindView::Lt => Some((BinaryOp::Lt, q)),
            TokenKindView::Gt => Some((BinaryOp::Gt, q)),
            _ => None,
        }
    } else if level == 6 {
        if k == TokenKindView::RegexEq {
            Some((BinaryOp::RegexMatch, q))
        } else if is_kw(ts, p, "IN"@) {
            Some((BinaryOp::In, q))
        } else if is_kw2(ts, p, "STARTS"@, "WITH"@) {
            Some((BinaryOp::StartsWith, next(ts, q)))
        } else if is_kw2(ts, p, "ENDS"@, "WITH"@) {
            Some((BinaryOp::EndsWith, next(ts, q)))
        } else if is_kw(ts, p, "CONTAINS"@) {
            Some((BinaryOp::Contains, q))
        } else {
            None
        }
    } else if level == 7 {
        match k {
            TokenKindView::Plus => Some((BinaryOp::Add, q)),
            TokenKindView::Minus => Some((BinaryOp::Sub, q)),
            _ => None,
        }
    } else if level == 8 {
        match k {
            TokenKindView::Star => Some((BinaryOp::Mul, q)),
            TokenKindView::Slash => Some((BinaryOp::Div, q)),
            TokenKindView::Percent => Some((BinaryOp::Mod, q)),
            _ => None,
        }
    } else if level == 9 {
        match k {
            TokenKindView::Caret => Some((BinaryOp::Pow, q)),
            _ => None,
        }
    } else {
        None
    }
}

/// The position behind a run of `NOT`s.
pub open spec fn nots_end(ts: Seq<TokenView>, p: nat) -> nat
    decreases ts.len() - p,
{
    if p < ts.len() && is_kw(ts, p, "NOT"@) {
        nots_end(ts, p + 1)
    } else {
        p
    }
}

/// `e` behind the `NOT`s from `p` to `q`.
pub open spec fn negated(ts: Seq<TokenView>, p: nat, q: nat, e: ExprView) -> ExprView
    decreases q - p,
{
    if p >= q {
        e
    } else {
        let inner = negated(ts, p + 1, q, e);
        ExprView::Unary {
            op: UnaryOp::Not,
            operand: Box::new(inner),
            span: span::joined(span_of(ts, p), inner.place()),
        }
    }
}

pub open spec fn is_sign(kind: TokenKindView) -> bool {
    kind == TokenKindView::Minus || kind == TokenKindView::Plus
}

/// The position behind a run of prefix signs.
pub open spec fn signs_end(ts: Seq<TokenView>, p: nat) -> nat
    decreases ts.len() - p,
{
    if p < ts.len() && is_sign(kind_at(ts, p)) {
        signs_end(ts, p + 1)
    } else {
        p
    }
}

/// `e` behind the signs from `p` to `q`.
pub open spec fn signed(ts: Seq<TokenView>, p: nat, q: nat, e: ExprView) -> ExprView
    decreases q - p,
{
    if p >= q {
        e
    } else {
        let inner = signed(ts, p + 1, q, e);
        ExprView::Unary {
            op: if kind_at(ts, p) == TokenKindView::Minus {
                UnaryOp::Minus
            } else {
                UnaryOp::Plus
            },
            operand: Box::new(inner),
            span: span::joined(span_of(ts, p), inner.place()),
        }
    }
}

/// Whether the last of the signs from `p` to `q` is a minus before the magnitude
/// that only fits an integer when negated.
pub open spec fn folds_smallest(ts: Seq<TokenView>, p: nat, q: nat) -> bool {
    p < q && kind_at(ts, (q - 1) as nat) == TokenKindView::Minus && kind_at(ts, q)
    == TokenKindView::IntegerTooLarge(0x8000_0000_0000_0000)
}

// --- Expressions ------------------------------------------------------------------------------------

/// An expression, `d` levels deep in others.
pub open spec fn expression_at(ts: Seq<TokenView>, p: nat, d: nat) -> Step<ExprView>
    decreases MAX_DEPTH - d, 0int, 0int,
{
    if d >= MAX_DEPTH {
        Err(ParseErrorView::RecursionLimit { limit: MAX_DEPTH, span: span_of(ts, p) })
    } else {
        level_at(ts, p, d + 1, 1)
    }
}

/// An expression of a level of precedence.
pub open spec fn level_at(ts: Seq<TokenView>, p: nat, d: nat, level: nat) -> Step<ExprView>
    decreases
        MAX_DEPTH - d,
        if level >= 10 {
            20int
        } else {
            40 - 2 * level
        },
        0int,
{
    if level == 4 {
        let q = nots_end(ts, p);
        match level_at(ts, q, d, 5) {
            Err(e) => Err(e),
            Ok((e, r)) => {
                Ok((negated(ts, p, q, e), r))
            },
        }
    } else if level >= 10 {
        unary_at(ts, p, d)
    } else {
        match level_at(ts, p, d, level + 1) {
            Err(e) => Err(e),
            Ok((lhs, q)) => {
                chain_at(ts, lhs, q, d, level)
            },
        }
    }
}

/// `lhs` and what operators of a level at `p` fold it with.
pub open spec fn chain_at(ts: Seq<TokenView>, lhs: ExprView, p: nat, d: nat, level: nat) -> Step<
    ExprView,
>
    decreases MAX_DEPTH - d, 39 - 2 * level, ts.len() - p,
{
    if level == 4 || level >= 10 {
        Ok((lhs, p))
    } else {
        match operator_at(ts, p, level) {
            None => Ok((lhs, p)),
            Some((op, q)) => {
                match level_at(ts, q, d, level + 1) {
                    Err(e) => Err(e),
                    Ok((rhs, r)) => {
                        let both = ExprView::Binary {
                            op,
                            lhs: Box::new(lhs),
                            rhs: Box::new(rhs),
                            span: span::joined(lhs.place(), rhs.place()),
                        };
                        if advances(ts, p, r) {
                            chain_at(ts, both, r, d, level)
                        } else {
                            Ok((both, r))
                        }
                    },
                }
            },
        }
    }
}

/// Prefix signs and what they stand before.
pub open spec fn unary_at(ts: Seq<TokenView>, p: nat, d: nat) -> Step<ExprView>
    decreases MAX_DEPTH - d, 12int, 0int,
{
    let q = signs_end(ts, p);
    if folds_smallest(ts, p, q) {
        let smallest = ExprView::Literal {
            value: LiteralView::Integer(i64::MIN),
            span: span::joined(span_of(ts, (q - 1) as nat), span_of(ts, q)),
        };
        match postfix_at(ts, smallest, next(ts, q), d) {
            Err(e) => Err(e),
            Ok((e, r)) => {
                Ok((signed(ts, p, (q - 1) as nat, e), r))
            },
        }
    } else {
        match atom_at(ts, q, d) {
            Err(e) => Err(e),
            Ok((atom, r)) => {
                match postfix_at(ts, atom, r, d) {
                    Err(e) => Err(e),
                    Ok((e, r)) => {
                        Ok((signed(ts, p, q, e), r))
                    },
                }
            },
        }
    }
}

/// `e` and the property accesses, brackets and null tests that follow it.
pub open spec fn postfix_at(ts: Seq<TokenView>, e: ExprView, p: nat, d: nat) -> Step<ExprView>
    decreases MAX_DEPTH - d, 10int, ts.len() - p,
{
    if kind_at(ts, p) == TokenKindView::Dot {
        match name_at(ts, next(ts, p), "a property name after '.'"@) {
            Err(e) => Err(e),
            Ok((key, q)) => {
                let accessed = ExprView::Property {
                    base: Box::new(e),
                    key,
                    span: span::joined(e.place(), span_of(ts, next(ts, p))),
                };
                if advances(ts, p, q) {
                    postfix_at(ts, accessed, q, d)
                } else {
                    Ok((accessed, q))
                }
            },
        }
    } else if kind_at(ts, p) == TokenKindView::LBracket {
        match bracket_at(ts, e, next(ts, p), d) {
            Err(e) => Err(e),
            Ok((indexed, q)) => {
                if advances(ts, p, q) {
                    postfix_at(ts, indexed, q, d)
                } else {
                    Ok((indexed, q))
                }
            },
        }
    } else if is_kw2(ts, p, "IS"@, "NULL"@) {
        let tested = ExprView::IsNull {
            operand: Box::new(e),
            negated: false,
            span: span::joined(e.place(), span_of(ts, p + 1)),
        };
        let q = next(ts, next(ts, p));
        if advances(ts, p, q) {
            postfix_at(ts, tested, q, d)
        } else {
            Ok((tested, q))
        }
    } else if is_kw2(ts, p, "IS"@, "NOT"@) && is_kw(ts, p + 2, "NULL"@) {
        let tested = ExprView::IsNull {
            operand: Box::new(e),
            negated: true,
            span: span::joined(e.place(), span_of(ts, p + 2)),
        };
        let q = next(ts, next(ts, next(ts, p)));
        if advances(ts, p, q) {
            postfix_at(ts, tested, q, d)
        } else {
            Ok((tested, q))
        }
    } else {
        Ok((e, p))
    }
}

/// The end of a slice: an expression unless the bracket closes.
pub open spec fn slice_end_at(ts: Seq<TokenView>, p: nat, d: nat) -> Step<Option<Box<ExprView>>>
    decreases MAX_DEPTH - d, 1int, 0int,
{
    if kind_at(ts, p) == TokenKindView::RBracket {
        Ok((None, p))
    } else {
        match expression_at(ts, p, d) {
            Err(e) => Err(e),
            Ok((e, q)) => {
                Ok((Some(Box::new(e)), q))
            },
        }
    }
}

/// What follows `[`: `[e]`, `[a..b]`, `[..b]`, `[a..]`, `[..]`.
pub open spec fn bracket_at(ts: Seq<TokenView>, base: ExprView, p: nat, d: nat) -> Step<ExprView>
    decreases MAX_DEPTH - d, 7int, 0int,
{
    if kind_at(ts, p) == TokenKindView::DotDot {
        match slice_end_at(ts, next(ts, p), d) {
            Err(e) => Err(e),
            Ok((to, q)) => {
                match expect_at(ts, q, TokenKindView::RBracket, "']' to close the slice"@) {
                    Err(e) => Err(e),
                    Ok(r) => {
                        Ok(
                            (
                                ExprView::Slice {
                                    base: Box::new(base),
                                    from: None,
                                    to,
                                    span: span::joined(base.place(), span_of(ts, q)),
                                },
                                r,
                            ),
                        )
                    },
                }
            },
        }
    } else {
        match expression_at(ts, p, d) {
            Err(e) => Err(e),
            Ok((first, q)) => {
                if kind_at(ts, q) == TokenKindView::DotDot {
                    match slice_end_at(ts, next(ts, q), d) {
                        Err(e) => Err(e),
                        Ok((to, q)) => {
                            match expect_at(
                                ts,
                                q,
                                TokenKindView::RBracket,
                                "']' to close the slice"@,
                            ) {
                                Err(e) => Err(e),
                                Ok(r) => {
                                    Ok(
                                        (
                                            ExprView::Slice {
                                                base: Box::new(base),
                                                from: Some(Box::new(first)),
                                                to,
                                                span: span::joined(base.place(), span_of(ts, q)),
                                            },
                                            r,
                                        ),
                                    )
                                },
                            }
                        },
                    }
                } else {
                    match expect_at(ts, q, TokenKindView::RBracket, "']' to close the index"@) {
                        Err(e) => Err(e),
                        Ok(r) => {
                            Ok(
                                (
                                    ExprView::Index {
                                        base: Box::new(base),
                                        index: Box::new(first),
                                        span: span::joined(base.place(), span_of(ts, q)),
                                    },
                                    r,
                                ),
                            )
                        },
                    }
                }
            },
        }
    }
}

pub open spec fn literal_at(ts: Seq<TokenView>, p: nat, value: LiteralView) -> Step<ExprView> {
    Ok((ExprView::Literal { value, span: span_of(ts, p) }, next(ts, p)))
}

/// The error of an integer literal that no integer fits.
pub open spec fn out_of_range(magnitude: u64, span: Span) -> ParseErrorView {
    ParseErrorView::Lex {
        message: "integer literal "@ + text::decimal(magnitude as nat)
        + " is out of range (integers span -9223372036854775808 to 9223372036854775807)"@,
        span,
    }
}

/// A literal, a parameter, a list, a map, a group or what a name opens.
pub open spec fn atom_at(ts: Seq<TokenView>, p: nat, d: nat) -> Step<ExprView>
    decreases MAX_DEPTH - d, 9int, 0int,
{
    match kind_at(ts, p) {
        TokenKindView::Integer(n) => literal_at(ts, p, LiteralView::Integer(n)),
        TokenKindView::IntegerTooLarge(n) => Err(out_of_range(n, span_of(ts, p))),
        TokenKindView::Float(bits) => literal_at(ts, p, LiteralView::Float(bits)),
        TokenKindView::Str(s) => literal_at(ts, p, LiteralView::String(s)),
        TokenKindView::Parameter(name) => Ok(
            (ExprView::Parameter { name, span: span_of(ts, p) }, next(ts, p)),
        ),
        TokenKindView::LBracket => list_at(ts, p, d),
        TokenKindView::LBrace => map_at(ts, p, d),
        TokenKindView::LParen => group_at(ts, p, d),
        TokenKindView::Ident { name, backquoted } => named_at(ts, p, d, name, backquoted),
        _ => Err(unexpected(ts, p, "an expression"@)),
    }
}

/// What a name opens: a constant, `CASE`, a quantifier, `reduce`, a function
/// call or a variable. Quantifiers and `reduce` are told from functions of the
/// same name by what follows the parenthesis.
pub open spec fn named_at(
    ts: Seq<TokenView>,
    p: nat,
    d: nat,
    name: Seq<char>,
    backquoted: bool,
) -> Step<ExprView>
    decreases MAX_DEPTH - d, 8int, 0int,
{
    if !backquoted && text::same_ignoring_case(name, "null"@) {
        literal_at(ts, p, LiteralView::Null)
    } else if !backquoted && text::same_ignoring_case(name, "true"@) {
        literal_at(ts, p, LiteralView::Boolean(true))
    } else if !backquoted && text::same_ignoring_case(name, "false"@) {
        literal_at(ts, p, LiteralView::Boolean(false))
    } else if !backquoted && text::same_ignoring_case(name, "case"@) {
        case_at(ts, p, d)
    } else if !backquoted && quantifier_named(name) is Some && quantifier_follows(ts, p) {
        quantifier_at(ts, p, d, quantifier_named(name)->0)
    } else if !backquoted && text::same_ignoring_case(name, "reduce"@) && reduce_follows(ts, p) {
        reduce_at(ts, p, d)
    } else {
        match call_segments(ts, p, 0) {
            Some(n) => call_at(ts, p, d, n),
            None => {
                match binding_at(ts, p, "a variable"@, "a variable"@) {
                    Err(e) => Err(e),
                    Ok((name, q)) => {
                        Ok((ExprView::Variable { name, span: span_of(ts, p) }, q))
                    },
                }
            },
        }
    }
}

/// Expressions behind `before`, separated by commas.
pub open spec fn expressions_at(ts: Seq<TokenView>, p: nat, d: nat, before: Seq<ExprView>) -> Step<
    Seq<ExprView>,
>
    decreases MAX_DEPTH - d, 1int, ts.len() - p,
{
    match expression_at(ts, p, d) {
        Err(e) => Err(e),
        Ok((e, q)) => {
            if kind_at(ts, q) == TokenKindView::Comma && advances(ts, p, next(ts, q)) {
                expressions_at(ts, next(ts, q), d, before.push(e))
            } else {
                Ok((before.push(e), q))
            }
        },
    }
}

/// A function call whose name has `n` segments.
pub open spec fn call_at(ts: Seq<TokenView>, p: nat, d: nat, n: nat) -> Step<ExprView>
    decreases MAX_DEPTH - d, 7int, 0int,
{
    let name = segments_at(ts, p, n);
    let q = p + 2 * n;
    if kind_at(ts, q) == TokenKindView::Star {
        match expect_at(ts, next(ts, q), TokenKindView::RParen, "')' to close the call"@) {
            Err(e) => Err(e),
            Ok(r) => {
                Ok(
                    (
                        ExprView::FunctionCall {
                            name,
                            distinct: false,
                            args: seq![],
                            star: true,
                            span: span::joined(span_of(ts, p), span_of(ts, next(ts, q))),
                        },
                        r,
                    ),
                )
            },
        }
    } else if kind_at(ts, q) == TokenKindView::RParen {
        Ok(
            (
                ExprView::FunctionCall {
                    name,
                    distinct: false,
                    args: seq![],
                    star: false,
                    span: span::joined(span_of(ts, p), span_of(ts, q)),
                },
                next(ts, q),
            ),
        )
    } else {
        let distinct = is_kw(ts, q, "DISTINCT"@);
        let first = if distinct {
            next(ts, q)
        } else {
            q
        };
        match expressions_at(ts, first, d, seq![]) {
            Err(e) => Err(e),
            Ok((args, r)) => {
                match expect_at(ts, r, TokenKindView::RParen, "')' to close the call"@) {
                    Err(e) => Err(e),
                    Ok(end) => {
                        Ok(
                            (
                                ExprView::FunctionCall {
                                    name,
                                    distinct,
                                    args,
                                    star: false,
                                    span: span::joined(span_of(ts, p), span_of(ts, r)),
                                },
                                end,
                            ),
                        )
                    },
                }
            },
        }
    }
}

/// The expression that follows a keyword, where the keyword stands at `p`.
pub open spec fn optional_at(ts: Seq<TokenView>, p: nat, d: nat, kw: Seq<char>) -> Step<
    Option<ExprView>,
>
    decreases MAX_DEPTH - d, 1int, 0int,
{
    if is_kw(ts, p, kw) {
        match expression_at(ts, next(ts, p), d) {
            Err(e) => Err(e),
            Ok((e, q)) => {
                Ok((Some(e), q))
            },
        }
    } else {
        Ok((None, p))
    }
}

pub open spec fn boxed_expr(o: Option<ExprView>) -> Option<Box<ExprView>> {
    match o {
        Some(e) => Some(Box::new(e)),
        None => None,
    }
}

/// `WHEN ... THEN ...` branches behind `before`.
pub open spec fn whens_at(
    ts: Seq<TokenView>,
    p: nat,
    d: nat,
    before: Seq<(ExprView, ExprView)>,
) -> Step<Seq<(ExprView, ExprView)>>
    decreases MAX_DEPTH - d, 1int, ts.len() - p,
{
    if is_kw(ts, p, "WHEN"@) {
        match expression_at(ts, next(ts, p), d) {
            Err(e) => Err(e),
            Ok((condition, q)) => {
                match expect_kw_at(ts, q, "THEN"@) {
                    Err(e) => Err(e),
                    Ok(q) => {
                        match expression_at(ts, q, d) {
                            Err(e) => Err(e),
                            Ok((value, q)) => {
                                if advances(ts, p, q) {
                                    whens_at(ts, q, d, before.push((condition, value)))
                                } else {
                                    Ok((before.push((condition, value)), q))
                                }
                            },
                        }
                    },
                }
            },
        }
    } else {
        Ok((before, p))
    }
}

/// The operand of `CASE`, where it has one.
pub open spec fn case_operand_at(ts: Seq<TokenView>, p: nat, d: nat) -> Step<Option<Box<ExprView>>>
    decreases MAX_DEPTH - d, 1int, 0int,
{
    if is_kw(ts, p, "WHEN"@) {
        Ok((None, p))
    } else {
        match expression_at(ts, p, d) {
            Err(e) => Err(e),
            Ok((e, q)) => {
                Ok((Some(Box::new(e)), q))
            },
        }
    }
}

/// `CASE [operand] (WHEN ... THEN ...)+ [ELSE ...] END`.
pub open spec fn case_at(ts: Seq<TokenView>, p: nat, d: nat) -> Step<ExprView>
    decreases MAX_DEPTH - d, 7int, 0int,
{
    match case_operand_at(ts, next(ts, p), d) {
        Err(e) => Err(e),
        Ok((operand, q)) => {
            match whens_at(ts, q, d, seq![]) {
                Err(e) => Err(e),
                Ok((whens, q)) => {
                    if whens.len() == 0 {
                        Err(unexpected(ts, q, "WHEN after CASE"@))
                    } else {
                        match optional_at(ts, q, d, "ELSE"@) {
                            Err(e) => Err(e),
                            Ok((otherwise, q)) => {
                                match expect_kw_at(ts, q, "END"@) {
                                    Err(e) => Err(e),
                                    Ok(r) => {
                                        Ok(
                                            (
                                                ExprView::Case {
                                                    operand,
                                                    whens,
                                                    else_expr: boxed_expr(otherwise),
                                                    span: span::joined(
                                                        span_of(ts, p),
                                                        span_of(ts, q),
                                                    ),
                                                },
                                                r,
                                            ),
                                        )
                                    },
                                }
                            },
                        }
                    }
                },
            }
        },
    }
}

/// `all|any|none|single ( variable IN list WHERE predicate )`.
pub open spec fn quantifier_at(ts: Seq<TokenView>, p: nat, d: nat, kind: QuantifierKind) -> Step<
    ExprView,
>
    decreases MAX_DEPTH - d, 7int, 0int,
{
    match expect_at(ts, next(ts, p), TokenKindView::LParen, "'(' to open the quantifier"@) {
        Err(e) => Err(e),
        Ok(q) => {
            match binding_at(ts, q, "a quantifier variable"@, "a quantifier variable"@) {
                Err(e) => Err(e),
                Ok((variable, q)) => {
                    match expect_kw_at(ts, q, "IN"@) {
                        Err(e) => Err(e),
                        Ok(q) => {
                            match expression_at(ts, q, d) {
                                Err(e) => Err(e),
                                Ok((list, q)) => {
                                    match expect_kw_at(ts, q, "WHERE"@) {
                                        Err(e) => Err(e),
                                        Ok(q) => {
                                            match expression_at(ts, q, d) {
                                                Err(e) => Err(e),
                                                Ok((predicate, q)) => {
                                                    match expect_at(
                                                        ts,
                                                        q,
                                                        TokenKindView::RParen,
                                                        "')' to close the quantifier"@,
                                                    ) {
                                                        Err(e) => Err(e),
                                                        Ok(r) => {
                                                            Ok(
                                                                (
                                                                    ExprView::Quantifier {
                                                                        kind,
                                                                        variable,
                                                                        list: Box::new(list),
                                                                        predicate: Box::new(predicate),
                                                                        span: span::joined(
                                                                            span_of(ts, p),
                                                                            span_of(ts, q),
                                                                        ),
                                                                    },
                                                                    r,
                                                                ),
                                                            )
                                                        },
                                                    }
                                                },
                                            }
                                        },
                                    }
                                },
                            }
                        },
                    }
                },
            }
        },
    }
}

/// `reduce ( accumulator = init , variable IN list | expr )`.
pub open spec fn reduce_at(ts: Seq<TokenView>, p: nat, d: nat) -> Step<ExprView>
    decreases MAX_DEPTH - d, 7int, 0int,
{
    match expect_at(ts, next(ts, p), TokenKindView::LParen, "'(' to open reduce"@) {
        Err(e) => Err(e),
        Ok(q) => {
            match binding_at(ts, q, "an accumulator"@, "an accumulator"@) {
                Err(e) => Err(e),
                Ok((accumulator, q)) => {
                    match expect_at(ts, q, TokenKindView::Eq, "'=' in reduce"@) {
                        Err(e) => Err(e),
                        Ok(q) => {
                            match expression_at(ts, q, d) {
                                Err(e) => Err(e),
                                Ok((init, q)) => {
                                    match expect_at(ts, q, TokenKindView::Comma, "',' in reduce"@) {
                                        Err(e) => Err(e),
                                        Ok(q) => {
                                            match binding_at(
                                                ts,
                                                q,
                                                "a reduce variable"@,
                                                "a reduce variable"@,
                                            ) {
                                                Err(e) => Err(e),
                                                Ok((variable, q)) => {
                                                    match expect_kw_at(ts, q, "IN"@) {
                                                        Err(e) => Err(e),
                                                        Ok(q) => {
                                                            match expression_at(ts, q, d) {
                                                                Err(e) => Err(e),
                                                                Ok((list, q)) => {
                                                                    match expect_at(ts, q, TokenKindView::Pipe, "'|' in reduce"@) {
                                                                        Err(e) => Err(e),
                                                                        Ok(q) => {
                                                                            match expression_at(ts, q, d) {
                                                                                Err(e) => Err(e),
                                                                                Ok((expr, q)) => {
                                                                                    match expect_at(
                                                                                        ts,
                                                                                        q,
                                                                                        TokenKindView::RParen,
                                                                                        "')' to close reduce"@,
                                                                                    ) {
                                                                                        Err(e) => Err(e),
                                                                                        Ok(r) => {
                                                                                            Ok(
                                                                                                (
                                                                                                    ExprView::Reduce {
                                                                                                        accumulator,
                                                                                                        init: Box::new(init),
                                                                                                        variable,
                                                                                                        list: Box::new(list),
                                                                                                        expr: Box::new(expr),
                                                                                                        span: span::joined(span_of(ts, p), span_of(ts, q)),
                                                                                                    },
                                                                                                    r,
                                                                                                ),
                                                                                            )
                                                                                        },
                                                                                    }
                                                                                },
                                                                            }
                                                                        },
                                                                    }
                                                                },
                                                            }
                                                        },
                                                    }
                                                },
                                            }
                                        },
                                    }
                                },
                            }
                        },
                    }
                },
            }
        },
    }
}

/// The expression behind `|`, where it stands at `p`.
pub open spec fn mapped_at(ts: Seq<TokenView>, p: nat, d: nat) -> Step<Option<ExprView>>
    decreases MAX_DEPTH - d, 1int, 0int,
{
    if kind_at(ts, p) == TokenKindView::Pipe {
        match expression_at(ts, next(ts, p), d) {
            Err(e) => Err(e),
            Ok((e, q)) => {
                Ok((Some(e), q))
            },
        }
    } else {
        Ok((None, p))
    }
}

/// A list literal, or a comprehension when `name IN` follows the bracket.
pub open spec fn list_at(ts: Seq<TokenView>, p: nat, d: nat) -> Step<ExprView>
    decreases MAX_DEPTH - d, 7int, 0int,
{
    let first = next(ts, p);
    if is_name(ts, first) && is_kw(ts, first + 1, "IN"@) {
        match binding_at(
            ts,
            first,
            "a comprehension variable"@,
            "a comprehension variable"@,
        ) {
            Err(e) => Err(e),
            Ok((variable, q)) => {
                match expect_kw_at(ts, q, "IN"@) {
                    Err(e) => Err(e),
                    Ok(q) => {
                        match expression_at(ts, q, d) {
                            Err(e) => Err(e),
                            Ok((list, q)) => {
                                match optional_at(ts, q, d, "WHERE"@) {
                                    Err(e) => Err(e),
                                    Ok((filter, q)) => {
                                        match mapped_at(ts, q, d) {
                                            Err(e) => Err(e),
                                            Ok((mapped, q)) => {
                                                match expect_at(
                                                    ts,
                                                    q,
                                                    TokenKindView::RBracket,
                                                    "']' to close the comprehension"@,
                                                ) {
                                                    Err(e) => Err(e),
                                                    Ok(r) => {
                                                        Ok(
                                                            (
                                                                ExprView::ListComprehension {
                                                                    variable,
                                                                    list: Box::new(list),
                                                                    where_clause: boxed_expr(filter),
                                                                    map: boxed_expr(mapped),
                                                                    span: span::joined(
                                                                        span_of(ts, p),
                                                                        span_of(ts, q),
                                                                    ),
                                                                },
                                                                r,
                                                            ),
                                                        )
                                                    },
                                                }
                                            },
                                        }
                                    },
                                }
                            },
                        }
                    },
                }
            },
        }
    } else if kind_at(ts, first) == TokenKindView::RBracket {
        Ok(
            (
                ExprView::ListLiteral {
                    items: seq![],
                    span: span::joined(span_of(ts, p), span_of(ts, first)),
                },
                next(ts, first),
            ),
        )
    } else {
        match expressions_at(ts, first, d, seq![]) {
            Err(e) => Err(e),
            Ok((items, q)) => {
                match expect_at(ts, q, TokenKindView::RBracket, "']' to close the list"@) {
                    Err(e) => Err(e),
                    Ok(r) => {
                        Ok(
                            (
                                ExprView::ListLiteral { items, span: span::joined(span_of(ts, p), span_of(ts, q)) },
                                r,
                            ),
                        )
                    },
                }
            },
        }
    }
}

/// Map entries behind `before`, separated by commas.
pub open spec fn entries_at(
    ts: Seq<TokenView>,
    p: nat,
    d: nat,
    before: Seq<(Seq<char>, ExprView)>,
) -> Step<Seq<(Seq<char>, ExprView)>>
    decreases MAX_DEPTH - d, 1int, ts.len() - p,
{
    match name_at(ts, p, "a map key"@) {
        Err(e) => Err(e),
        Ok((key, q)) => {
            match expect_at(ts, q, TokenKindView::Colon, "':' after the map key"@) {
                Err(e) => Err(e),
                Ok(q) => {
                    match expression_at(ts, q, d) {
                        Err(e) => Err(e),
                        Ok((value, q)) => {
                            if kind_at(ts, q) == TokenKindView::Comma && advances(ts, p, next(ts, q)) {
                                entries_at(ts, next(ts, q), d, before.push((key, value)))
                            } else {
                                Ok((before.push((key, value)), q))
                            }
                        },
                    }
                },
            }
        },
    }
}

/// A map literal.
pub open spec fn map_at(ts: Seq<TokenView>, p: nat, d: nat) -> Step<ExprView>
    decreases MAX_DEPTH - d, 2int, 0int,
{
    let first = next(ts, p);
    if kind_at(ts, first) == TokenKindView::RBrace {
        Ok(
            (
                ExprView::MapLiteral {
                    entries: seq![],
                    span: span::joined(span_of(ts, p), span_of(ts, first)),
                },
                next(ts, first),
            ),
        )
    } else {
        match entries_at(ts, first, d, seq![]) {
            Err(e) => Err(e),
            Ok((entries, q)) => {
                match expect_at(ts, q, TokenKindView::RBrace, "'}' to close the map"@) {
                    Err(e) => Err(e),
                    Ok(r) => {
                        Ok(
                            (
                                ExprView::MapLiteral { entries, span: span::joined(span_of(ts, p), span_of(ts, q)) },
                                r,
                            ),
                        )
                    },
                }
            },
        }
    }
}

/// `(` at an atom's position opens a pattern predicate or a parenthesised
/// expression, whose range then covers the parentheses. Which of them is told by
/// scanning tokens: a group of a node's form that a connector follows is always
/// a pattern.
pub open spec fn group_at(ts: Seq<TokenView>, p: nat, d: nat) -> Step<ExprView>
    decreases MAX_DEPTH - d, 8int, 0int,
{
    if starts_pattern(ts, p) {
        match pattern_at(ts, p, d) {
            Err(e) => Err(e),
            Ok((pattern, q)) => {
                if pattern.steps.len() == 0 {
                    Err(unexpected(ts, q, "a relationship pattern"@))
                } else {
                    Ok(
                        (
                            ExprView::PatternPredicate { pattern: Box::new(pattern), span: pattern.span },
                            q,
                        ),
                    )
                }
            },
        }
    } else {
        match expression_at(ts, next(ts, p), d) {
            Err(e) => Err(e),
            Ok((inner, q)) => {
                match expect_at(ts, q, TokenKindView::RParen, "')' to close the expression"@) {
                    Err(e) => Err(e),
                    Ok(r) => {
                        Ok((ast::with_span(inner, span::joined(span_of(ts, p), span_of(ts, q))), r))
                    },
                }
            },
        }
    }
}

// --- Patterns ---------------------------------------------------------------------------------------

/// Whether a path variable opens a pattern: `p =`.
pub open spec fn names_path(ts: Seq<TokenView>, p: nat) -> bool {
    is_name(ts, p) && kind_at(ts, p + 1) == TokenKindView::Eq
}

/// The variable of a path, where it has one.
pub open spec fn path_variable_at(ts: Seq<TokenView>, p: nat) -> Step<Option<Seq<char>>> {
    if names_path(ts, p) {
        match binding_at(ts, p, "a path variable"@, "a path variable"@) {
            Err(e) => Err(e),
            Ok((name, q)) => {
                Ok((Some(name), next(ts, q)))
            },
        }
    } else {
        Ok((None, p))
    }
}

/// A path pattern.
pub open spec fn pattern_at(ts: Seq<TokenView>, p: nat, d: nat) -> Step<PathPatternView>
    decreases MAX_DEPTH - d, 7int, 0int,
{
    match path_variable_at(ts, p) {
        Err(e) => Err(e),
        Ok((variable, first)) => {
            match node_at(ts, first, d) {
                Err(e) => Err(e),
                Ok((start, q)) => {
                    match steps_at(ts, q, d, seq![]) {
                        Err(e) => Err(e),
                        Ok((steps, q)) => {
                            Ok(
                                (
                                    PathPatternView {
                                        variable,
                                        start,
                                        steps,
                                        span: span::joined(span_of(ts, first), span_before(ts, q)),
                                    },
                                    q,
                                ),
                            )
                        },
                    }
                },
            }
        },
    }
}

pub open spec fn opens_rel(kind: TokenKindView) -> bool {
    kind == TokenKindView::Minus || kind == TokenKindView::LArrow || kind == TokenKindView::Arrow
}

/// The steps of a path behind `before`.
pub open spec fn steps_at(
    ts: Seq<TokenView>,
    p: nat,
    d: nat,
    before: Seq<(RelPatternView, NodePatternView)>,
) -> Step<Seq<(RelPatternView, NodePatternView)>>
    decreases MAX_DEPTH - d, 6int, ts.len() - p,
{
    if opens_rel(kind_at(ts, p)) {
        match rel_at(ts, p, d) {
            Err(e) => Err(e),
            Ok((rel, q)) => {
                match node_at(ts, q, d) {
                    Err(e) => Err(e),
                    Ok((node, q)) => {
                        if advances(ts, p, q) {
                            steps_at(ts, q, d, before.push((rel, node)))
                        } else {
                            Ok((before.push((rel, node)), q))
                        }
                    },
                }
            },
        }
    } else {
        Ok((before, p))
    }
}

/// A variable in a binding position, where a name stands at `p`.
pub open spec fn variable_at(ts: Seq<TokenView>, p: nat) -> Step<Option<Seq<char>>> {
    if is_name(ts, p) {
        match binding_at(ts, p, "a variable"@, "a variable"@) {
            Err(e) => Err(e),
            Ok((name, q)) => {
                Ok((Some(name), q))
            },
        }
    } else {
        Ok((None, p))
    }
}

/// A run of `:Label`s behind `before`.
pub open spec fn labels_at(ts: Seq<TokenView>, p: nat, before: Seq<Seq<char>>) -> Step<
    Seq<Seq<char>>,
>
    decreases ts.len() - p,
{
    if kind_at(ts, p) == TokenKindView::Colon {
        match name_at(ts, next(ts, p), "a label"@) {
            Err(e) => Err(e),
            Ok((label, q)) => {
                if advances(ts, p, q) {
                    labels_at(ts, q, before.push(label))
                } else {
                    Ok((before.push(label), q))
                }
            },
        }
    } else {
        Ok((before, p))
    }
}

/// A node pattern.
pub open spec fn node_at(ts: Seq<TokenView>, p: nat, d: nat) -> Step<NodePatternView>
    decreases MAX_DEPTH - d, 4int, 0int,
{
    match expect_at(ts, p, TokenKindView::LParen, "'(' to open a node pattern"@) {
        Err(e) => Err(e),
        Ok(q) => {
            match variable_at(ts, q) {
                Err(e) => Err(e),
                Ok((variable, q)) => {
                    match labels_at(ts, q, seq![]) {
                        Err(e) => Err(e),
                        Ok((labels, q)) => {
                            match properties_at(ts, q, d) {
                                Err(e) => Err(e),
                                Ok((properties, q)) => {
                                    match expect_at(
                                        ts,
                                        q,
                                        TokenKindView::RParen,
                                        "')' to close the node pattern"@,
                                    ) {
                                        Err(e) => Err(e),
                                        Ok(r) => {
                                            Ok(
                                                (
                                                    NodePatternView {
                                                        variable,
                                                        labels,
                                                        properties,
                                                        span: span::joined(
                                                            span_of(ts, p),
                                                            span_of(ts, q),
                                                        ),
                                                    },
                                                    r,
                                                ),
                                            )
                                        },
                                    }
                                },
                            }
                        },
                    }
                },
            }
        },
    }
}

/// A property map of a pattern: a map literal or a parameter.
pub open spec fn properties_at(ts: Seq<TokenView>, p: nat, d: nat) -> Step<Option<ExprView>>
    decreases MAX_DEPTH - d, 3int, 0int,
{
    match kind_at(ts, p) {
        TokenKindView::LBrace => {
            match map_at(ts, p, d) {
                Err(e) => Err(e),
                Ok((m, q)) => {
                    Ok((Some(m), q))
                },
            }
        },
        TokenKindView::Parameter(name) => Ok(
            (Some(ExprView::Parameter { name, span: span_of(ts, p) }), next(ts, p)),
        ),
        _ => Ok((None, p)),
    }
}

/// Alternative relationship types behind `before`; the legacy `|:TYPE` form is
/// tolerated.
pub open spec fn types_at(ts: Seq<TokenView>, p: nat, before: Seq<Seq<char>>) -> Step<
    Seq<Seq<char>>,
>
    decreases ts.len() - p,
{
    match name_at(ts, p, "a relationship type"@) {
        Err(e) => Err(e),
        Ok((name, q)) => {
            if kind_at(ts, q) == TokenKindView::Pipe {
                let r = next(ts, q);
                let s = if kind_at(ts, r) == TokenKindView::Colon {
                    next(ts, r)
                } else {
                    r
                };
                if advances(ts, p, s) {
                    types_at(ts, s, before.push(name))
                } else {
                    Ok((before.push(name), s))
                }
            } else {
                Ok((before.push(name), q))
            }
        },
    }
}

/// A bound of a variable length.
pub open spec fn bound_at(ts: Seq<TokenView>, p: nat) -> Step<Option<u64>> {
    match kind_at(ts, p) {
        TokenKindView::Integer(n) => if n < 0 {
            Err(
                ParseErrorView::Unexpected {
                    expected: "a non-negative length bound"@,
                    found: text::signed_decimal(n as int),
                    span: span_of(ts, p),
                },
            )
        } else {
            Ok((Some(n as u64), next(ts, p)))
        },
        _ => Ok((None, p)),
    }
}

/// What follows `*`: nothing, `n`, `n..m`, `n..`, `..m`.
pub open spec fn length_at(ts: Seq<TokenView>, p: nat) -> Step<VarLength> {
    match bound_at(ts, p) {
        Err(e) => Err(e),
        Ok((min, q)) => {
            if kind_at(ts, q) == TokenKindView::DotDot {
                match bound_at(ts, next(ts, q)) {
                    Err(e) => Err(e),
                    Ok((max, r)) => {
                        Ok((VarLength { min, max }, r))
                    },
                }
            } else {
                Ok((VarLength { min, max: min }, q))
            }
        },
    }
}

/// What a relationship's brackets hold.
pub struct RelDetail {
    pub variable: Option<Seq<char>>,
    pub types: Seq<Seq<char>>,
    pub var_length: Option<VarLength>,
    pub properties: Option<ExprView>,
}

pub open spec fn rel_types_at(ts: Seq<TokenView>, p: nat) -> Step<Seq<Seq<char>>> {
    if kind_at(ts, p) == TokenKindView::Colon {
        types_at(ts, next(ts, p), seq![])
    } else {
        Ok((seq![], p))
    }
}

pub open spec fn rel_length_at(ts: Seq<TokenView>, p: nat) -> Step<Option<VarLength>> {
    if kind_at(ts, p) == TokenKindView::Star {
        match length_at(ts, next(ts, p)) {
            Err(e) => Err(e),
            Ok((length, q)) => {
                Ok((Some(length), q))
            },
        }
    } else {
        Ok((None, p))
    }
}

/// A relationship's detail, where a bracket opens it.
pub open spec fn detail_at(ts: Seq<TokenView>, p: nat, d: nat) -> Step<RelDetail>
    decreases MAX_DEPTH - d, 4int, 0int,
{
    if kind_at(ts, p) == TokenKindView::LBracket {
        match variable_at(ts, next(ts, p)) {
            Err(e) => Err(e),
            Ok((variable, q)) => {
                match rel_types_at(ts, q) {
                    Err(e) => Err(e),
                    Ok((types, q)) => {
                        match rel_length_at(ts, q) {
                            Err(e) => Err(e),
                            Ok((var_length, q)) => {
                                match properties_at(ts, q, d) {
                                    Err(e) => Err(e),
                                    Ok((properties, q)) => {
                                        match expect_at(
                                            ts,
                                            q,
                                            TokenKindView::RBracket,
                                            "']' to close the relationship detail"@,
                                        ) {
                                            Err(e) => Err(e),
                                            Ok(r) => {
                                                Ok(
                                                    (
                                                        RelDetail { variable, types, var_length, properties },
                                                        r,
                                                    ),
                                                )
                                            },
                                        }
                                    },
                                }
                            },
                        }
                    },
                }
            },
        }
    } else {
        Ok((RelDetail { variable: None, types: seq![], var_length: None, properties: None }, p))
    }
}

/// The position behind what opens a relationship: `<-` or `-`.
pub open spec fn rel_open_at(ts: Seq<TokenView>, p: nat) -> Result<nat, ParseErrorView> {
    if kind_at(ts, p) == TokenKindView::LArrow {
        Ok(next(ts, p))
    } else {
        expect_at(ts, p, TokenKindView::Minus, "'-' to open a relationship pattern"@)
    }
}

/// The position behind what closes a relationship: `->` or `-`.
pub open spec fn rel_close_at(ts: Seq<TokenView>, p: nat) -> Result<nat, ParseErrorView> {
    if kind_at(ts, p) == TokenKindView::Arrow {
        Ok(next(ts, p))
    } else {
        expect_at(ts, p, TokenKindView::Minus, "'-' or '->' to close the relationship pattern"@)
    }
}

/// A relationship pattern.
pub open spec fn rel_at(ts: Seq<TokenView>, p: nat, d: nat) -> Step<RelPatternView>
    decreases MAX_DEPTH - d, 5int, 0int,
{
    let incoming = kind_at(ts, p) == TokenKindView::LArrow;
    match rel_open_at(ts, p) {
        Err(e) => Err(e),
        Ok(q) => {
            match detail_at(ts, q, d) {
                Err(e) => Err(e),
                Ok((detail, q)) => {
                    match rel_close_at(ts, q) {
                        Err(e) => Err(e),
                        Ok(r) => {
                            let outgoing = kind_at(ts, q) == TokenKindView::Arrow;
                            let span = span::joined(span_of(ts, p), span_before(ts, r));
                            if incoming && outgoing {
                                Err(
                                    ParseErrorView::Unexpected {
                                        expected: "a relationship pointing one way"@,
                                        found: "'<-...->'"@,
                                        span,
                                    },
                                )
                            } else {
                                Ok(
                                    (
                                        RelPatternView {
                                            variable: detail.variable,
                                            types: detail.types,
                                            direction: if incoming {
                                                Direction::In
                                            } else if outgoing {
                                                Direction::Out
                                            } else {
                                                Direction::Undirected
                                            },
                                            var_length: detail.var_length,
                                            properties: detail.properties,
                                            span,
                                        },
                                        r,
                                    ),
                                )
                            }
                        },
                    }
                },
            }
        },
    }
}

} // verus!
