//! What the grammar is for: expressions are read as they are written. Every operator
//! has a spelling and a level of its own, and a tree that is written out with
//! parentheses is read back.

use vstd::prelude::*;
use vstd::string::*;

use crate::ast::{self, BinaryOp, ExprView, LiteralView, UnaryOp};
use crate::error::ParseErrorView;
use crate::grammar;
use crate::lex::{TokenKindView, TokenView};
use crate::span::{self, Span};
use crate::text;

verus! {

// --- Operators --------------------------------------------------------------------------------------

/// How an operator is written.
pub enum Spelling {
    Mark(TokenKindView),
    Word(Seq<char>),
    Words(Seq<char>, Seq<char>),
}

pub open spec fn spelling(op: BinaryOp) -> Spelling {
    match op {
        BinaryOp::Or => Spelling::Word("OR"@),
        BinaryOp::Xor => Spelling::Word("XOR"@),
        BinaryOp::And => Spelling::Word("AND"@),
        BinaryOp::Eq => Spelling::Mark(TokenKindView::Eq),
        BinaryOp::Ne => Spelling::Mark(TokenKindView::Ne),
        BinaryOp::Lt => Spelling::Mark(TokenKindView::Lt),
        BinaryOp::Le => Spelling::Mark(TokenKindView::Le),
        BinaryOp::Gt => Spelling::Mark(TokenKindView::Gt),
        BinaryOp::Ge => Spelling::Mark(TokenKindView::Ge),
        BinaryOp::Add => Spelling::Mark(TokenKindView::Plus),
        BinaryOp::Sub => Spelling::Mark(TokenKindView::Minus),
        BinaryOp::Mul => Spelling::Mark(TokenKindView::Star),
        BinaryOp::Div => Spelling::Mark(TokenKindView::Slash),
        BinaryOp::Mod => Spelling::Mark(TokenKindView::Percent),
        BinaryOp::Pow => Spelling::Mark(TokenKindView::Caret),
        BinaryOp::In => Spelling::Word("IN"@),
        BinaryOp::StartsWith => Spelling::Words("STARTS"@, "WITH"@),
        BinaryOp::EndsWith => Spelling::Words("ENDS"@, "WITH"@),
        BinaryOp::Contains => Spelling::Word("CONTAINS"@),
        BinaryOp::RegexMatch => Spelling::Mark(TokenKindView::RegexEq),
    }
}

/// How tightly an operator binds.
pub open spec fn level_of(op: BinaryOp) -> nat {
    match op {
        BinaryOp::Or => 1,
        BinaryOp::Xor => 2,
        BinaryOp::And => 3,
        BinaryOp::Eq | BinaryOp::Ne | BinaryOp::Lt | BinaryOp::Le | BinaryOp::Gt | BinaryOp::Ge
            => 5,
        BinaryOp::In | BinaryOp::StartsWith | BinaryOp::EndsWith | BinaryOp::Contains
        | BinaryOp::RegexMatch => 6,
        BinaryOp::Add | BinaryOp::Sub => 7,
        BinaryOp::Mul | BinaryOp::Div | BinaryOp::Mod => 8,
        BinaryOp::Pow => 9,
    }
}

/// Whether an operator is written from `p` to `q`, in capitals or small letters.
pub open spec fn is_spelled(ts: Seq<TokenView>, p: nat, q: nat, op: BinaryOp) -> bool {
    match spelling(op) {
        Spelling::Mark(kind) => q == p + 1 && grammar::kind_at(ts, p) == kind,
        Spelling::Word(w) => q == p + 1 && grammar::is_kw(ts, p, w),
        Spelling::Words(first, second) => q == p + 2 && grammar::is_kw(ts, p, first)
            && grammar::is_kw(ts, p + 1, second),
    }
}

/// Whether tokens end with the one that closes them.
pub open spec fn is_closed(ts: Seq<TokenView>) -> bool {
    ts.len() > 0 && ts.last().kind == TokenKindView::Eof
}

pub(crate) proof fn lemma_word(name: Seq<char>, w: Seq<char>)
    requires
        text::same_ignoring_case(name, w),
    ensures
        name.len() == w.len(),
        forall|i: int|
            0 <= i < w.len() ==> text::ascii_lower(#[trigger] name[i]) == text::ascii_lower(w[i]),
{
    let (a, b) = (text::ascii_lower_all(name), text::ascii_lower_all(w));
    assert(a.len() == name.len() && b.len() == w.len());
    assert forall|i: int| 0 <= i < w.len() implies text::ascii_lower(#[trigger] name[i])
        == text::ascii_lower(w[i]) by {
        assert(a[i] == text::ascii_lower(name[i]));
        assert(b[i] == text::ascii_lower(w[i]));
    }
}

/// Stands for a name and one of the operators' words.
spec fn is_word(name: Seq<char>, k: u8) -> bool {
    match k {
        1 => text::same_ignoring_case(name, "OR"@),
        2 => text::same_ignoring_case(name, "XOR"@),
        3 => text::same_ignoring_case(name, "AND"@),
        4 => text::same_ignoring_case(name, "IN"@),
        5 => text::same_ignoring_case(name, "STARTS"@),
        6 => text::same_ignoring_case(name, "ENDS"@),
        7 => text::same_ignoring_case(name, "CONTAINS"@),
        8 => text::same_ignoring_case(name, "NOT"@),
        9 => text::same_ignoring_case(name, "IS"@),
        _ => false,
    }
}

spec fn first_letter(k: u8) -> char {
    match k {
        1 => 'o',
        2 => 'x',
        3 => 'a',
        4 | 9 => 'i',
        5 => 's',
        6 => 'e',
        7 => 'c',
        _ => 'n',
    }
}

proof fn lemma_letters(name: Seq<char>, k: u8)
    requires
        is_word(name, k),
    ensures
        name.len() >= 2,
        text::ascii_lower(name[0]) == first_letter(k),
        k == 4 ==> text::ascii_lower(name[1]) == 'n',
        k == 9 ==> text::ascii_lower(name[1]) == 's',
{
    reveal_strlit("OR");
    reveal_strlit("XOR");
    reveal_strlit("AND");
    reveal_strlit("IN");
    reveal_strlit("STARTS");
    reveal_strlit("ENDS");
    reveal_strlit("CONTAINS");
    reveal_strlit("NOT");
    reveal_strlit("IS");
    let w = match k {
        1 => "OR"@,
        2 => "XOR"@,
        3 => "AND"@,
        4 => "IN"@,
        5 => "STARTS"@,
        6 => "ENDS"@,
        7 => "CONTAINS"@,
        8 => "NOT"@,
        _ => "IS"@,
    };
    lemma_word(name, w);
    assert(name[0] == name[0] && name[1] == name[1]);
}

/// The words of the operators are different.
proof fn lemma_words(name: Seq<char>, k: u8)
    requires
        1 <= k <= 9,
        is_word(name, k),
    ensures
        forall|j: u8| 1 <= j <= 9 && j != k ==> !#[trigger] is_word(name, j),
{
    lemma_letters(name, k);
    assert forall|j: u8| 1 <= j <= 9 && j != k implies !#[trigger] is_word(name, j) by {
        if is_word(name, j) {
            lemma_letters(name, j);
        }
    }
}

/// What is known of a token that may be an operator's word.
proof fn lemma_token(ts: Seq<TokenView>, p: nat)
    ensures
        forall|k: u8|
            1 <= k <= 9 && grammar::kind_at(ts, p) is Ident && #[trigger] is_word(
                grammar::kind_at(ts, p)->name,
                k,
            ) ==> forall|j: u8|
                1 <= j <= 9 && j != k ==> !#[trigger] is_word(grammar::kind_at(ts, p)->name, j),
{
    let name = grammar::kind_at(ts, p)->name;
    assert forall|k: u8|
        1 <= k <= 9 && grammar::kind_at(ts, p) is Ident && #[trigger] is_word(
            name,
            k,
        ) implies forall|j: u8| 1 <= j <= 9 && j != k ==> !#[trigger] is_word(name, j) by {
        lemma_words(name, k);
    }
}

proof fn lemma_exclusive(ts: Seq<TokenView>, p: nat)
    ensures
        ({
            let or = grammar::is_kw(ts, p, "OR"@);
            let xor = grammar::is_kw(ts, p, "XOR"@);
            let and = grammar::is_kw(ts, p, "AND"@);
            let within = grammar::is_kw(ts, p, "IN"@);
            let starts = grammar::is_kw(ts, p, "STARTS"@);
            let ends = grammar::is_kw(ts, p, "ENDS"@);
            let contains = grammar::is_kw(ts, p, "CONTAINS"@);
            let not = grammar::is_kw(ts, p, "NOT"@);
            let tests = grammar::is_kw(ts, p, "IS"@);
            &&& or ==> !xor && !and && !within && !starts && !ends && !contains && !not && !tests
            &&& xor ==> !and && !within && !starts && !ends && !contains && !not && !tests
            &&& and ==> !within && !starts && !ends && !contains && !not && !tests
            &&& within ==> !starts && !ends && !contains && !not && !tests
            &&& starts ==> !ends && !contains && !not && !tests
            &&& ends ==> !contains && !not && !tests
            &&& contains ==> !not && !tests
            &&& not ==> !tests
        }),
{
    lemma_token(ts, p);
    if grammar::kind_at(ts, p) is Ident {
        let name = grammar::kind_at(ts, p)->name;
        assert(is_word(name, 1) == text::same_ignoring_case(name, "OR"@));
        assert(is_word(name, 2) == text::same_ignoring_case(name, "XOR"@));
        assert(is_word(name, 3) == text::same_ignoring_case(name, "AND"@));
        assert(is_word(name, 4) == text::same_ignoring_case(name, "IN"@));
        assert(is_word(name, 5) == text::same_ignoring_case(name, "STARTS"@));
        assert(is_word(name, 6) == text::same_ignoring_case(name, "ENDS"@));
        assert(is_word(name, 7) == text::same_ignoring_case(name, "CONTAINS"@));
        assert(is_word(name, 8) == text::same_ignoring_case(name, "NOT"@));
        assert(is_word(name, 9) == text::same_ignoring_case(name, "IS"@));
    }
}

/// An operator is found at a place exactly where it is spelled there.
pub proof fn operators_are_read_as_they_are_spelled(
    ts: Seq<TokenView>,
    p: nat,
    q: nat,
    op: BinaryOp,
    level: nat,
)
    requires
        is_closed(ts),
    ensures
        grammar::operator_at(ts, p, level) == Some((op, q)) <==> is_spelled(ts, p, q, op)
            && level == level_of(op),
{
    lemma_exclusive(ts, p);
}

/// No two operators are spelled alike, and none is spelled as the beginning of
/// another.
pub proof fn every_operator_has_its_own_spelling(
    ts: Seq<TokenView>,
    p: nat,
    q: nat,
    r: nat,
    a: BinaryOp,
    b: BinaryOp,
)
    requires
        is_spelled(ts, p, q, a),
        is_spelled(ts, p, r, b),
    ensures
        a == b,
        q == r,
{
    lemma_exclusive(ts, p);
}

/// Whether no operator of a level is written at a place.
pub open spec fn no_operator(ts: Seq<TokenView>, p: nat, level: nat) -> bool {
    forall|op: BinaryOp, q: nat| level_of(op) == level ==> !#[trigger] is_spelled(ts, p, q, op)
}

proof fn lemma_no_operator(ts: Seq<TokenView>, p: nat, level: nat)
    requires
        is_closed(ts),
        no_operator(ts, p, level),
    ensures
        grammar::operator_at(ts, p, level) is None,
{
    if let Some((op, q)) = grammar::operator_at(ts, p, level) {
        operators_are_read_as_they_are_spelled(ts, p, q, op, level);
        assert(is_spelled(ts, p, q, op));
    }
}

/// Two operands with an operator between them are read as that operator's
/// expression.
pub proof fn a_binary_expression_is_read_back(
    ts: Seq<TokenView>,
    p: nat,
    q: nat,
    r: nat,
    s: nat,
    d: nat,
    op: BinaryOp,
    lhs: ExprView,
    rhs: ExprView,
)
    requires
        is_closed(ts),
        grammar::level_at(ts, p, d, level_of(op) + 1) == Ok::<_, ParseErrorView>((lhs, q)),
        is_spelled(ts, q, r, op),
        grammar::level_at(ts, r, d, level_of(op) + 1) == Ok::<_, ParseErrorView>((rhs, s)),
        q < s <= ts.len(),
        no_operator(ts, s, level_of(op)),
    ensures
        grammar::level_at(ts, p, d, level_of(op)) == Ok::<_, ParseErrorView>(
            (
                ExprView::Binary {
                    op,
                    lhs: Box::new(lhs),
                    rhs: Box::new(rhs),
                    span: span::joined(lhs.place(), rhs.place()),
                },
                s,
            ),
        ),
{
    operators_are_read_as_they_are_spelled(ts, q, r, op, level_of(op));
    lemma_no_operator(ts, s, level_of(op));
    let both = ExprView::Binary {
        op,
        lhs: Box::new(lhs),
        rhs: Box::new(rhs),
        span: span::joined(lhs.place(), rhs.place()),
    };
    let level = level_of(op);
    assert(grammar::chain_at(ts, both, s, d, level) == Ok::<_, ParseErrorView>((both, s)));
    assert(grammar::advances(ts, q, s));
    assert(grammar::operator_at(ts, q, level) == Some((op, r)));
    assert(grammar::chain_at(ts, lhs, q, d, level) == grammar::chain_at(ts, both, s, d, level));
    assert(grammar::level_at(ts, p, d, level) == grammar::chain_at(ts, lhs, q, d, level));
}

/// Operators of one level fold to the left.
pub proof fn operators_of_a_level_fold_to_the_left(
    ts: Seq<TokenView>,
    ps: Seq<nat>,
    d: nat,
    op: BinaryOp,
    other: BinaryOp,
    a: ExprView,
    b: ExprView,
    c: ExprView,
)
    requires
        is_closed(ts),
        ps.len() == 6,
        level_of(op) == level_of(other),
        grammar::level_at(ts, ps[0], d, level_of(op) + 1) == Ok::<_, ParseErrorView>((a, ps[1])),
        is_spelled(ts, ps[1], ps[2], op),
        grammar::level_at(ts, ps[2], d, level_of(op) + 1) == Ok::<_, ParseErrorView>((b, ps[3])),
        is_spelled(ts, ps[3], ps[4], other),
        grammar::level_at(ts, ps[4], d, level_of(op) + 1) == Ok::<_, ParseErrorView>((c, ps[5])),
        ps[1] < ps[3] < ps[5] <= ts.len(),
        no_operator(ts, ps[5], level_of(op)),
    ensures
        ({
            let first = ExprView::Binary {
                op,
                lhs: Box::new(a),
                rhs: Box::new(b),
                span: span::joined(a.place(), b.place()),
            };
            grammar::level_at(ts, ps[0], d, level_of(op)) == Ok::<_, ParseErrorView>(
                (
                    ExprView::Binary {
                        op: other,
                        lhs: Box::new(first),
                        rhs: Box::new(c),
                        span: span::joined(first.place(), c.place()),
                    },
                    ps[5],
                ),
            )
        }),
{
    let level = level_of(op);
    operators_are_read_as_they_are_spelled(ts, ps[1], ps[2], op, level);
    operators_are_read_as_they_are_spelled(ts, ps[3], ps[4], other, level);
    lemma_no_operator(ts, ps[5], level);
    let first = ExprView::Binary {
        op,
        lhs: Box::new(a),
        rhs: Box::new(b),
        span: span::joined(a.place(), b.place()),
    };
    let whole = ExprView::Binary {
        op: other,
        lhs: Box::new(first),
        rhs: Box::new(c),
        span: span::joined(first.place(), c.place()),
    };
    assert(grammar::chain_at(ts, whole, ps[5], d, level) == Ok::<_, ParseErrorView>(
        (whole, ps[5]),
    ));
    assert(grammar::advances(ts, ps[1], ps[3]) && grammar::advances(ts, ps[3], ps[5]));
    assert(grammar::operator_at(ts, ps[1], level) == Some((op, ps[2])));
    assert(grammar::operator_at(ts, ps[3], level) == Some((other, ps[4])));
    assert(grammar::chain_at(ts, first, ps[3], d, level) == grammar::chain_at(
        ts,
        whole,
        ps[5],
        d,
        level,
    ));
    assert(grammar::chain_at(ts, a, ps[1], d, level) == grammar::chain_at(
        ts,
        first,
        ps[3],
        d,
        level,
    ));
    assert(grammar::level_at(ts, ps[0], d, level) == grammar::chain_at(ts, a, ps[1], d, level));
}

/// What binds tighter is an expression of a looser level too, where no operator of
/// that level follows.
pub proof fn tighter_expressions_stand_alone(
    ts: Seq<TokenView>,
    p: nat,
    q: nat,
    d: nat,
    level: nat,
    e: ExprView,
)
    requires
        is_closed(ts),
        1 <= level < 10,
        grammar::level_at(ts, p, d, level + 1) == Ok::<_, ParseErrorView>((e, q)),
        no_operator(ts, q, level),
        level == 4 ==> !grammar::is_kw(ts, p, "NOT"@),
    ensures
        grammar::level_at(ts, p, d, level) == Ok::<_, ParseErrorView>((e, q)),
{
    if level != 4 {
        lemma_no_operator(ts, q, level);
        assert(grammar::chain_at(ts, e, q, d, level) == Ok::<_, ParseErrorView>((e, q)));
    } else {
        assert(grammar::nots_end(ts, p) == p);
        assert(grammar::negated(ts, p, p, e) == e);
    }
}

// --- Written trees ----------------------------------------------------------------------------------

/// An expression without its places in a text.
pub enum Tree {
    Leaf(TokenKindView),
    Unary(UnaryOp, Box<Tree>),
    Binary(BinaryOp, Box<Tree>, Box<Tree>),
    IsNull(bool, Box<Tree>),
    Property(Box<Tree>, Seq<char>),
    Index(Box<Tree>, Box<Tree>),
    Slice(Box<Tree>, Box<Tree>, Box<Tree>),
}

/// Whether an expression is a tree, at whatever places.
pub open spec fn is_tree(e: ExprView, t: Tree) -> bool
    decreases t,
{
    match t {
        Tree::Leaf(kind) => match kind {
            TokenKindView::Integer(n) => e matches ExprView::Literal { value, .. } && value
                == LiteralView::Integer(n),
            TokenKindView::Float(x) => e matches ExprView::Literal { value, .. } && value
                == LiteralView::Float(x),
            TokenKindView::Str(s) => e matches ExprView::Literal { value, .. } && value
                == LiteralView::String(s),
            TokenKindView::Parameter(n) => e matches ExprView::Parameter { name, .. } && name == n,
            _ => false,
        },
        Tree::Unary(o, x) => e matches ExprView::Unary { op, operand, .. } && op == o && is_tree(
            *operand,
            *x,
        ),
        Tree::Binary(o, l, r) => e matches ExprView::Binary { op, lhs, rhs, .. } && op == o
            && is_tree(*lhs, *l) && is_tree(*rhs, *r),
        Tree::IsNull(n, x) => e matches ExprView::IsNull { operand, negated, .. } && negated == n
            && is_tree(*operand, *x),
        Tree::Property(x, k) => e matches ExprView::Property { base, key, .. } && key == k
            && is_tree(*base, *x),
        Tree::Index(x, i) => e matches ExprView::Index { base, index, .. } && is_tree(*base, *x)
            && is_tree(*index, *i),
        Tree::Slice(x, a, b) => e matches ExprView::Slice { base, from, to, .. } && is_tree(*base, *x)
            && (from matches Some(f) && is_tree(*f, *a)) && (to matches Some(f) && is_tree(*f, *b)),
    }
}

/// Whether the leaves of a tree are literals and parameters.
pub open spec fn is_plain(t: Tree) -> bool
    decreases t,
{
    match t {
        Tree::Leaf(kind) => kind is Integer || kind is Float || kind is Str || kind is Parameter,
        Tree::Unary(_, x) => is_plain(*x),
        Tree::Binary(_, l, r) => is_plain(*l) && is_plain(*r),
        Tree::IsNull(_, x) => is_plain(*x),
        Tree::Property(x, _) => is_plain(*x),
        Tree::Index(x, i) => is_plain(*x) && is_plain(*i),
        Tree::Slice(x, a, b) => is_plain(*x) && is_plain(*a) && is_plain(*b),
    }
}

/// How deep a tree is.
pub open spec fn height(t: Tree) -> nat
    decreases t,
{
    match t {
        Tree::Leaf(_) => 1,
        Tree::Unary(_, x) => height(*x) + 1,
        Tree::Binary(_, l, r) => height(*l) + height(*r) + 1,
        Tree::IsNull(_, x) => height(*x) + 1,
        Tree::Property(x, _) => height(*x) + 1,
        Tree::Index(x, i) => height(*x) + height(*i) + 1,
        Tree::Slice(x, a, b) => height(*x) + height(*a) + height(*b) + 1,
    }
}

/// A word as a token.
pub open spec fn word(w: Seq<char>) -> TokenKindView {
    TokenKindView::Ident { name: w, backquoted: false }
}

/// The tokens of an operator.
pub open spec fn operator_tokens(op: BinaryOp) -> Seq<TokenKindView> {
    match spelling(op) {
        Spelling::Mark(kind) => seq![kind],
        Spelling::Word(w) => seq![word(w)],
        Spelling::Words(first, second) => seq![word(first), word(second)],
    }
}

/// The tokens of a tree, with parentheses round the parts of it that have parts.
pub open spec fn written(t: Tree) -> Seq<TokenKindView>
    decreases t, 0nat,
{
    match t {
        Tree::Leaf(kind) => seq![kind],
        Tree::Unary(UnaryOp::Not, x) => seq![word("NOT"@)] + (seq![TokenKindView::LParen] + written(
            *x,
        ) + seq![TokenKindView::RParen]),
        Tree::Unary(UnaryOp::Minus, x) => seq![TokenKindView::Minus] + operand(*x),
        Tree::Unary(UnaryOp::Plus, x) => seq![TokenKindView::Plus] + operand(*x),
        Tree::Binary(op, l, r) => operand(*l) + (operator_tokens(op) + operand(*r)),
        Tree::IsNull(false, x) => operand(*x) + seq![word("IS"@), word("NULL"@)],
        Tree::IsNull(true, x) => operand(*x) + seq![word("IS"@), word("NOT"@), word("NULL"@)],
        Tree::Property(x, key) => operand(*x) + seq![TokenKindView::Dot, word(key)],
        Tree::Index(x, i) => operand(*x) + (seq![TokenKindView::LBracket] + (written(*i)
            + seq![TokenKindView::RBracket])),
        Tree::Slice(x, a, b) => operand(*x) + (seq![TokenKindView::LBracket] + (written(*a) + (
        seq![TokenKindView::DotDot] + (written(*b) + seq![TokenKindView::RBracket])))),
    }
}

/// The tokens of a part of a tree.
pub open spec fn operand(t: Tree) -> Seq<TokenKindView>
    decreases t, 1nat,
{
    if t is Leaf {
        written(t)
    } else {
        seq![TokenKindView::LParen] + written(t) + seq![TokenKindView::RParen]
    }
}

/// Whether tokens of these kinds stand at a place, and something behind them.
pub open spec fn stand_at(ts: Seq<TokenView>, p: nat, kinds: Seq<TokenKindView>) -> bool {
    &&& p + kinds.len() < ts.len()
    &&& forall|i: int| 0 <= i < kinds.len() ==> (#[trigger] ts[p + i]).kind == kinds[i]
}

pub(crate) proof fn lemma_split(
    ts: Seq<TokenView>,
    p: nat,
    a: Seq<TokenKindView>,
    b: Seq<TokenKindView>,
)
    requires
        stand_at(ts, p, a + b),
    ensures
        stand_at(ts, p, a),
        stand_at(ts, p + a.len(), b),
{
    let all = a + b;
    assert forall|i: int| 0 <= i < a.len() implies (#[trigger] ts[p + i]).kind == a[i] by {
        assert(all[i] == a[i]);
    }
    assert forall|i: int| 0 <= i < b.len() implies (#[trigger] ts[(p + a.len()) + i]).kind
        == b[i] by {
        assert(ts[p + (a.len() + i)].kind == all[a.len() + i]);
        assert(all[a.len() + i] == b[i]);
    }
}

pub(crate) proof fn lemma_one(ts: Seq<TokenView>, p: nat, kinds: Seq<TokenKindView>)
    requires
        stand_at(ts, p, kinds),
        kinds.len() >= 1,
    ensures
        grammar::kind_at(ts, p) == kinds[0],
        grammar::next(ts, p) == p + 1,
        kinds.len() >= 2 ==> grammar::kind_at(ts, p + 1) == kinds[1] && grammar::next(ts, p + 1)
            == p + 2,
        kinds.len() >= 3 ==> grammar::kind_at(ts, p + 2) == kinds[2] && grammar::next(ts, p + 2)
            == p + 3,
{
    assert(ts[p + 0int].kind == kinds[0]);
    if kinds.len() >= 2 {
        assert(ts[p + 1int].kind == kinds[1]);
    }
    if kinds.len() >= 3 {
        assert(ts[p + 2int].kind == kinds[2]);
    }
}

/// Whether a token ends an expression.
pub open spec fn ends(kind: TokenKindView) -> bool {
    kind is RParen || kind is RBracket || kind is DotDot || kind is Eof
}

/// Whether a token starts a part of a tree.
spec fn starts(kind: TokenKindView) -> bool {
    kind is LParen || kind is Integer || kind is Float || kind is Str || kind is Parameter
}

proof fn lemma_operand_starts(t: Tree)
    requires
        is_plain(t),
    ensures
        operand(t).len() > 0,
        starts(operand(t)[0]),
{
}

/// What the tokens of a tree that is no leaf start with: a sign, a `NOT` before a
/// parenthesis, or a part of the tree and something behind it that does not close it.
proof fn lemma_written_starts(t: Tree)
    requires
        is_plain(t),
    ensures
        written(t).len() > 0,
        !(t is Leaf) ==> written(t).len() >= 2 && ({
            let (a, b) = (written(t)[0], written(t)[1]);
            ||| a is Minus
            ||| a is Plus
            ||| a is LParen
            ||| a is Ident && b is LParen
            ||| starts(a) && !(b is RParen)
        }),
        !(t is Leaf) || starts(written(t)[0]),
{
    match t {
        Tree::Leaf(_) => {},
        Tree::Unary(UnaryOp::Not, x) => {},
        Tree::Unary(_, x) => {
            lemma_operand_starts(*x);
        },
        Tree::Binary(op, l, r) => {
            lemma_operand_starts(*l);
            lemma_operand_starts(*r);
        },
        Tree::IsNull(_, x) => {
            lemma_operand_starts(*x);
        },
        Tree::Property(x, _) => {
            lemma_operand_starts(*x);
        },
        Tree::Index(x, i) => {
            lemma_operand_starts(*x);
        },
        Tree::Slice(x, a, b) => {
            lemma_operand_starts(*x);
        },
    }
}

proof fn lemma_close_closes(
    ts: Seq<TokenView>,
    p: nat,
    open: TokenKindView,
    close: TokenKindView,
    depth: nat,
)
    ensures
        grammar::close_of(ts, p, open, close, depth) matches Some(c) ==> p <= c
            && grammar::kind_at(ts, c) == close,
    decreases ts.len() - p,
{
    if p >= ts.len() || grammar::kind_at(ts, p) == TokenKindView::Eof {
    } else if grammar::kind_at(ts, p) == open {
        lemma_close_closes(ts, p + 1, open, close, depth + 1);
    } else if grammar::kind_at(ts, p) == close {
        if depth > 1 {
            lemma_close_closes(ts, p + 1, open, close, (depth - 1) as nat);
        }
    } else {
        lemma_close_closes(ts, p + 1, open, close, depth);
    }
}

/// Parentheses round a tree that is no leaf do not open a pattern, nor do those round
/// a leaf where an expression ends behind them.
proof fn lemma_no_pattern(ts: Seq<TokenView>, p: nat, t: Tree)
    requires
        is_plain(t),
        grammar::kind_at(ts, p) == TokenKindView::LParen,
        stand_at(ts, p + 1, written(t) + seq![TokenKindView::RParen]),
        t is Leaf ==> ends(grammar::kind_at(ts, p + 3)),
    ensures
        !grammar::starts_pattern(ts, p),
{
    let all = written(t) + seq![TokenKindView::RParen];
    let (open, close) = (TokenKindView::LParen, TokenKindView::RParen);
    lemma_written_starts(t);
    assert(all[0] == written(t)[0]);
    lemma_one(ts, p + 1, all);
    lemma_close_closes(ts, p, open, close, 0);
    if t is Leaf {
        assert(all[1] == TokenKindView::RParen);
        assert(grammar::close_of(ts, p + 2, open, close, 1) == Some((p + 2) as nat));
        assert(grammar::close_of(ts, p + 1, open, close, 1) == Some((p + 2) as nat));
        assert(grammar::close_of(ts, p, open, close, 0) == Some((p + 2) as nat));
        assert(!grammar::connector_follows(ts, p + 2));
    } else {
        assert(all[1] == written(t)[1]);
        assert(grammar::labels_end(ts, p + 1) == p + 1);
        assert(grammar::labels_end(ts, p + 2) == p + 2 || !(grammar::kind_at(ts, p + 2) is LParen));
    }
}

proof fn lemma_quiet(ts: Seq<TokenView>, p: nat, level: nat)
    requires
        ends(grammar::kind_at(ts, p)),
    ensures
        no_operator(ts, p, level),
{
}

/// Operators of other levels are not written where one of a level is.
proof fn lemma_other_levels(ts: Seq<TokenView>, p: nat, q: nat, op: BinaryOp, level: nat)
    requires
        is_spelled(ts, p, q, op),
        level != level_of(op),
    ensures
        no_operator(ts, p, level),
{
    assert forall|other: BinaryOp, r: nat| level_of(other) == level implies !#[trigger] is_spelled(
        ts,
        p,
        r,
        other,
    ) by {
        if is_spelled(ts, p, r, other) {
            every_operator_has_its_own_spelling(ts, p, q, r, op, other);
        }
    }
}

/// An expression of a level is one of every looser level down to `low`.
proof fn lemma_climb(
    ts: Seq<TokenView>,
    p: nat,
    q: nat,
    d: nat,
    high: nat,
    low: nat,
    e: ExprView,
)
    requires
        is_closed(ts),
        1 <= low <= high <= 10,
        grammar::level_at(ts, p, d, high) == Ok::<_, ParseErrorView>((e, q)),
        forall|k: nat| low <= k < high ==> #[trigger] no_operator(ts, q, k),
        low <= 4 < high ==> !grammar::is_kw(ts, p, "NOT"@),
    ensures
        grammar::level_at(ts, p, d, low) == Ok::<_, ParseErrorView>((e, q)),
    decreases high - low,
{
    if low < high {
        let k = (high - 1) as nat;
        assert(no_operator(ts, q, k));
        tighter_expressions_stand_alone(ts, p, q, d, k, e);
        lemma_climb(ts, p, q, d, k, low, e);
    }
}

proof fn lemma_spelled(ts: Seq<TokenView>, p: nat, op: BinaryOp)
    requires
        stand_at(ts, p, operator_tokens(op)),
    ensures
        is_spelled(ts, p, p + operator_tokens(op).len(), op),
{
    lemma_one(ts, p, operator_tokens(op));
}

proof fn lemma_placed(e: ExprView, span: Span, t: Tree)
    requires
        is_tree(e, t),
    ensures
        is_tree(ast::with_span(e, span), t),
{
}

proof fn lemma_leaf(ts: Seq<TokenView>, p: nat, d: nat, t: Tree) -> (e: ExprView)
    requires
        t is Leaf,
        is_plain(t),
        stand_at(ts, p, written(t)),
    ensures
        grammar::atom_at(ts, p, d) == Ok::<_, ParseErrorView>((e, p + 1)),
        is_tree(e, t),
{
    lemma_one(ts, p, written(t));
    grammar::atom_at(ts, p, d)->Ok_0.0
}

proof fn lemma_group(ts: Seq<TokenView>, p: nat, q: nat, d: nat, inner: ExprView)
    requires
        grammar::kind_at(ts, p) == TokenKindView::LParen,
        grammar::next(ts, p) == p + 1,
        !grammar::starts_pattern(ts, p),
        grammar::expression_at(ts, p + 1, d) == Ok::<_, ParseErrorView>((inner, q)),
        grammar::kind_at(ts, q) == TokenKindView::RParen,
        grammar::next(ts, q) == q + 1,
    ensures
        grammar::atom_at(ts, p, d) == Ok::<_, ParseErrorView>(
            (
                ast::with_span(
                    inner,
                    span::joined(grammar::span_of(ts, p), grammar::span_of(ts, q)),
                ),
                q + 1,
            ),
        ),
{
    assert(grammar::atom_at(ts, p, d) == grammar::group_at(ts, p, d));
}

/// A part of a tree is read back by itself.
proof fn lemma_operand(ts: Seq<TokenView>, p: nat, d: nat, t: Tree) -> (e: ExprView)
    requires
        is_closed(ts),
        is_plain(t),
        stand_at(ts, p, operand(t)),
        d + height(t) <= grammar::MAX_DEPTH,
    ensures
        grammar::atom_at(ts, p, d) == Ok::<_, ParseErrorView>((e, p + operand(t).len())),
        is_tree(e, t),
    decreases height(t), 3nat,
{
    if t is Leaf {
        lemma_leaf(ts, p, d, t)
    } else {
        lemma_bracketed(ts, p, d, t)
    }
}

proof fn lemma_bracketed(ts: Seq<TokenView>, p: nat, d: nat, t: Tree) -> (e: ExprView)
    requires
        is_closed(ts),
        is_plain(t),
        stand_at(
            ts,
            p,
            seq![TokenKindView::LParen] + written(t) + seq![TokenKindView::RParen],
        ),
        t is Leaf ==> ends(grammar::kind_at(ts, p + 3)),
        d + height(t) <= grammar::MAX_DEPTH,
    ensures
        grammar::atom_at(ts, p, d) == Ok::<_, ParseErrorView>((e, p + written(t).len() + 2)),
        is_tree(e, t),
    decreases height(t), 2nat,
{
    let open = seq![TokenKindView::LParen];
    let close = seq![TokenKindView::RParen];
    assert(open + written(t) + close =~= open + (written(t) + close));
    lemma_split(ts, p, open, written(t) + close);
    lemma_split(ts, p + 1, written(t), close);
    lemma_one(ts, p, open);
    let q = p + 1 + written(t).len();
    lemma_one(ts, q, close);
    lemma_no_pattern(ts, p, t);
    let inner = lemma_written(ts, p + 1, d, t);
    let at = span::joined(grammar::span_of(ts, p), grammar::span_of(ts, q));
    lemma_placed(inner, at, t);
    lemma_group(ts, p, q, d, inner);
    ast::with_span(inner, at)
}

proof fn lemma_unsigned(
    ts: Seq<TokenView>,
    p: nat,
    q: nat,
    r: nat,
    d: nat,
    atom: ExprView,
    e: ExprView,
)
    requires
        starts(grammar::kind_at(ts, p)),
        grammar::atom_at(ts, p, d) == Ok::<_, ParseErrorView>((atom, q)),
        grammar::postfix_at(ts, atom, q, d) == Ok::<_, ParseErrorView>((e, r)),
    ensures
        grammar::level_at(ts, p, d, 10) == Ok::<_, ParseErrorView>((e, r)),
{
    assert(grammar::signs_end(ts, p) == p);
    assert(grammar::signed(ts, p, p, e) == e);
    assert(grammar::unary_at(ts, p, d) == Ok::<_, ParseErrorView>((e, r)));
}

proof fn lemma_nothing_behind(ts: Seq<TokenView>, e: ExprView, p: nat, d: nat)
    requires
        ends(grammar::kind_at(ts, p)) || exists|op: BinaryOp, q: nat| is_spelled(ts, p, q, op),
    ensures
        grammar::postfix_at(ts, e, p, d) == Ok::<_, ParseErrorView>((e, p)),
{
    lemma_exclusive(ts, p);
}

/// A part of a tree with an end or an operator behind it is an expression of every
/// level that the operator leaves.
proof fn lemma_part(ts: Seq<TokenView>, p: nat, d: nat, t: Tree, level: nat) -> (e: ExprView)
    requires
        is_closed(ts),
        is_plain(t),
        stand_at(ts, p, operand(t)),
        d + height(t) <= grammar::MAX_DEPTH,
        1 <= level <= 10,
        ({
            let q = p + operand(t).len();
            ends(grammar::kind_at(ts, q)) || exists|op: BinaryOp, r: nat|
                level_of(op) < level && #[trigger] is_spelled(ts, q, r, op)
        }),
    ensures
        grammar::level_at(ts, p, d, level) == Ok::<_, ParseErrorView>((e, p + operand(t).len())),
        is_tree(e, t),
    decreases height(t), 4nat,
{
    let q = p + operand(t).len();
    lemma_operand_starts(t);
    lemma_one(ts, p, operand(t));
    let e = lemma_operand(ts, p, d, t);
    lemma_nothing_behind(ts, e, q, d);
    lemma_unsigned(ts, p, q, q, d, e, e);
    assert forall|k: nat| level <= k < 10 implies #[trigger] no_operator(ts, q, k) by {
        if ends(grammar::kind_at(ts, q)) {
            lemma_quiet(ts, q, k);
        } else {
            let (op, r) = choose|op: BinaryOp, r: nat|
                level_of(op) < level && #[trigger] is_spelled(ts, q, r, op);
            lemma_other_levels(ts, q, r, op, k);
        }
    }
    lemma_climb(ts, p, q, d, 10, level, e);
    e
}

proof fn lemma_binary(
    ts: Seq<TokenView>,
    p: nat,
    d: nat,
    op: BinaryOp,
    l: Tree,
    r: Tree,
) -> (e: ExprView)
    requires
        is_closed(ts),
        is_plain(l),
        is_plain(r),
        stand_at(ts, p, operand(l) + (operator_tokens(op) + operand(r))),
        ends(
            grammar::kind_at(
                ts,
                p + (operand(l) + (operator_tokens(op) + operand(r))).len(),
            ),
        ),
        d + height(l) <= grammar::MAX_DEPTH,
        d + height(r) <= grammar::MAX_DEPTH,
    ensures
        grammar::level_at(ts, p, d, 1) == Ok::<_, ParseErrorView>(
            (e, p + (operand(l) + (operator_tokens(op) + operand(r))).len()),
        ),
        e matches ExprView::Binary { op: o, lhs, rhs, .. } && o == op && is_tree(*lhs, l)
            && is_tree(*rhs, r),
    decreases height(l) + height(r) + 1, 0nat,
{
    let level = level_of(op);
    let q = p + operand(l).len();
    let m = q + operator_tokens(op).len();
    let s = m + operand(r).len();
    lemma_split(ts, p, operand(l), operator_tokens(op) + operand(r));
    lemma_split(ts, q, operator_tokens(op), operand(r));
    lemma_spelled(ts, q, op);
    lemma_operand_starts(l);
    lemma_one(ts, p, operand(l));
    let lhs = lemma_part(ts, p, d, l, level + 1);
    let rhs = lemma_part(ts, m, d, r, level + 1);
    lemma_quiet(ts, s, level);
    a_binary_expression_is_read_back(ts, p, q, m, s, d, op, lhs, rhs);
    let e = ExprView::Binary {
        op,
        lhs: Box::new(lhs),
        rhs: Box::new(rhs),
        span: span::joined(lhs.place(), rhs.place()),
    };
    assert forall|k: nat| 1 <= k < level implies #[trigger] no_operator(ts, s, k) by {
        lemma_quiet(ts, s, k);
    }
    lemma_climb(ts, p, s, d, level, 1, e);
    e
}

proof fn lemma_postfix(
    ts: Seq<TokenView>,
    p: nat,
    q: nat,
    s: nat,
    d: nat,
    atom: ExprView,
    e: ExprView,
)
    requires
        is_closed(ts),
        starts(grammar::kind_at(ts, p)),
        grammar::atom_at(ts, p, d) == Ok::<_, ParseErrorView>((atom, q)),
        grammar::postfix_at(ts, atom, q, d) == grammar::postfix_at(ts, e, s, d),
        ends(grammar::kind_at(ts, s)),
    ensures
        grammar::level_at(ts, p, d, 1) == Ok::<_, ParseErrorView>((e, s)),
{
    lemma_nothing_behind(ts, e, s, d);
    lemma_unsigned(ts, p, q, s, d, atom, e);
    assert forall|k: nat| 1 <= k < 10 implies #[trigger] no_operator(ts, s, k) by {
        lemma_quiet(ts, s, k);
    }
    lemma_climb(ts, p, s, d, 10, 1, e);
}

proof fn lemma_unary(ts: Seq<TokenView>, p: nat, d: nat, op: UnaryOp, x: Tree) -> (e: ExprView)
    requires
        is_closed(ts),
        is_plain(x),
        stand_at(ts, p, written(Tree::Unary(op, Box::new(x)))),
        ends(grammar::kind_at(ts, p + written(Tree::Unary(op, Box::new(x))).len())),
        d + height(x) <= grammar::MAX_DEPTH,
    ensures
        grammar::level_at(ts, p, d, 1) == Ok::<_, ParseErrorView>(
            (e, p + written(Tree::Unary(op, Box::new(x))).len()),
        ),
        e matches ExprView::Unary { op: o, operand, .. } && o == op && is_tree(*operand, x),
    decreases height(x) + 1, 0nat,
{
    let s = p + written(Tree::Unary(op, Box::new(x))).len();
    assert forall|k: nat| 1 <= k < 10 implies #[trigger] no_operator(ts, s, k) by {
        lemma_quiet(ts, s, k);
    }
    if op == UnaryOp::Not {
        let group = seq![TokenKindView::LParen] + written(x) + seq![TokenKindView::RParen];
        let not = seq![word("NOT"@)];
        lemma_split(ts, p, not, group);
        lemma_one(ts, p, not);
        lemma_one(ts, p + 1, group);
        let inner = lemma_bracketed(ts, p + 1, d, x);
        lemma_nothing_behind(ts, inner, s, d);
        lemma_unsigned(ts, p + 1, s, s, d, inner, inner);
        lemma_climb(ts, p + 1, s, d, 10, 5, inner);
        assert(grammar::nots_end(ts, p + 1) == p + 1);
        assert(grammar::nots_end(ts, p) == p + 1);
        let e = grammar::negated(ts, p, p + 1, inner);
        assert(grammar::negated(ts, p + 1, p + 1, inner) == inner);
        assert(grammar::level_at(ts, p, d, 4) == Ok::<_, ParseErrorView>((e, s)));
        lemma_climb(ts, p, s, d, 4, 1, e);
        e
    } else {
        let kind = if op == UnaryOp::Minus {
            TokenKindView::Minus
        } else {
            TokenKindView::Plus
        };
        lemma_split(ts, p, seq![kind], operand(x));
        lemma_one(ts, p, seq![kind]);
        lemma_operand_starts(x);
        lemma_one(ts, p + 1, operand(x));
        let inner = lemma_operand(ts, p + 1, d, x);
        lemma_nothing_behind(ts, inner, s, d);
        assert(grammar::signs_end(ts, p + 1) == p + 1);
        assert(grammar::signs_end(ts, p) == p + 1);
        assert(grammar::signed(ts, p + 1, p + 1, inner) == inner);
        let e = grammar::signed(ts, p, p + 1, inner);
        assert(grammar::unary_at(ts, p, d) == Ok::<_, ParseErrorView>((e, s)));
        assert(grammar::level_at(ts, p, d, 10) == Ok::<_, ParseErrorView>((e, s)));
        lemma_climb(ts, p, s, d, 10, 1, e);
        e
    }
}

proof fn lemma_null_test(
    ts: Seq<TokenView>,
    p: nat,
    d: nat,
    negated: bool,
    x: Tree,
) -> (e: ExprView)
    requires
        is_closed(ts),
        is_plain(x),
        stand_at(ts, p, written(Tree::IsNull(negated, Box::new(x)))),
        ends(grammar::kind_at(ts, p + written(Tree::IsNull(negated, Box::new(x))).len())),
        d + height(x) + 1 <= grammar::MAX_DEPTH + 1,
    ensures
        grammar::level_at(ts, p, d, 1) == Ok::<_, ParseErrorView>(
            (e, p + written(Tree::IsNull(negated, Box::new(x))).len())
        ),
        is_tree(e, Tree::IsNull(negated, Box::new(x))),
    decreases height(x) + 1, 0nat,
{
    let s = p + written(Tree::IsNull(negated, Box::new(x))).len();
    let q = p + operand(x).len();
    let tail = if negated {
        seq![word("IS"@), word("NOT"@), word("NULL"@)]
    } else {
        seq![word("IS"@), word("NULL"@)]
    };
    lemma_split(ts, p, operand(x), tail);
    lemma_operand_starts(x);
    lemma_one(ts, p, operand(x));
    lemma_one(ts, q, tail);
    let base = lemma_operand(ts, p, d, x);
    lemma_not_is_not_null();
    let last = if negated {
        q + 2
    } else {
        q + 1
    };
    let e = ExprView::IsNull {
        operand: Box::new(base),
        negated,
        span: span::joined(base.place(), grammar::span_of(ts, last)),
    };
    assert(grammar::postfix_at(ts, base, q, d) == grammar::postfix_at(ts, e, s, d));
    lemma_postfix(ts, p, q, s, d, base, e);
    e
}

proof fn lemma_access(ts: Seq<TokenView>, p: nat, d: nat, x: Tree, key: Seq<char>) -> (e: ExprView)
    requires
        is_closed(ts),
        is_plain(x),
        stand_at(ts, p, written(Tree::Property(Box::new(x), key))),
        ends(grammar::kind_at(ts, p + written(Tree::Property(Box::new(x), key)).len())),
        d + height(x) + 1 <= grammar::MAX_DEPTH + 1,
    ensures
        grammar::level_at(ts, p, d, 1) == Ok::<_, ParseErrorView>(
            (e, p + written(Tree::Property(Box::new(x), key)).len())
        ),
        is_tree(e, Tree::Property(Box::new(x), key)),
    decreases height(x) + 1, 0nat,
{
    let s = p + written(Tree::Property(Box::new(x), key)).len();
    let q = p + operand(x).len();
    let tail = seq![TokenKindView::Dot, word(key)];
    lemma_split(ts, p, operand(x), tail);
    lemma_operand_starts(x);
    lemma_one(ts, p, operand(x));
    lemma_one(ts, q, tail);
    let base = lemma_operand(ts, p, d, x);
    let e = ExprView::Property {
        base: Box::new(base),
        key,
        span: span::joined(base.place(), grammar::span_of(ts, q + 1)),
    };
    assert(grammar::postfix_at(ts, base, q, d) == grammar::postfix_at(ts, e, s, d));
    lemma_postfix(ts, p, q, s, d, base, e);
    e
}

proof fn lemma_index(ts: Seq<TokenView>, p: nat, d: nat, x: Tree, i: Tree) -> (e: ExprView)
    requires
        is_closed(ts),
        is_plain(x),
        is_plain(i),
        stand_at(ts, p, written(Tree::Index(Box::new(x), Box::new(i)))),
        ends(grammar::kind_at(ts, p + written(Tree::Index(Box::new(x), Box::new(i))).len())),
        d + height(x) + height(i) + 1 <= grammar::MAX_DEPTH + 1,
    ensures
        grammar::level_at(ts, p, d, 1) == Ok::<_, ParseErrorView>(
            (e, p + written(Tree::Index(Box::new(x), Box::new(i))).len())
        ),
        is_tree(e, Tree::Index(Box::new(x), Box::new(i))),
    decreases height(x) + height(i) + 1, 0nat,
{
    let s = p + written(Tree::Index(Box::new(x), Box::new(i))).len();
    let q = p + operand(x).len();
    let open = seq![TokenKindView::LBracket];
    let close = seq![TokenKindView::RBracket];
    let m = q + 1 + written(i).len();
    lemma_split(ts, p, operand(x), open + (written(i) + close));
    lemma_split(ts, q, open, written(i) + close);
    lemma_split(ts, q + 1, written(i), close);
    lemma_operand_starts(x);
    lemma_one(ts, p, operand(x));
    lemma_one(ts, q, open);
    lemma_one(ts, m, close);
    let base = lemma_operand(ts, p, d, x);
    let index = lemma_written(ts, q + 1, d, i);
    lemma_not_dots(i);
    lemma_one(ts, q + 1, written(i));
    let e = ExprView::Index {
        base: Box::new(base),
        index: Box::new(index),
        span: span::joined(base.place(), grammar::span_of(ts, m)),
    };
    assert(grammar::bracket_at(ts, base, q + 1, d) == Ok::<_, ParseErrorView>((e, s)));
    assert(grammar::postfix_at(ts, base, q, d) == grammar::postfix_at(ts, e, s, d));
    lemma_postfix(ts, p, q, s, d, base, e);
    e
}

/// A tree is read back from its tokens, where an expression ends behind them.
proof fn lemma_written(ts: Seq<TokenView>, p: nat, d: nat, t: Tree) -> (e: ExprView)
    requires
        is_closed(ts),
        is_plain(t),
        stand_at(ts, p, written(t)),
        ends(grammar::kind_at(ts, p + written(t).len())),
        d + height(t) <= grammar::MAX_DEPTH,
    ensures
        grammar::expression_at(ts, p, d) == Ok::<_, ParseErrorView>((e, p + written(t).len())),
        is_tree(e, t),
    decreases height(t), 1nat,
{
    assert(grammar::expression_at(ts, p, d) == grammar::level_at(ts, p, d + 1, 1));
    match t {
        Tree::Leaf(_) => {
            let e = lemma_leaf(ts, p, d + 1, t);
            lemma_one(ts, p, written(t));
            lemma_postfix(ts, p, p + 1, p + 1, d + 1, e, e);
            e
        },
        Tree::Unary(op, x) => lemma_unary(ts, p, d + 1, op, *x),
        Tree::Binary(op, l, r) => lemma_binary(ts, p, d + 1, op, *l, *r),
        Tree::IsNull(negated, x) => lemma_null_test(ts, p, d + 1, negated, *x),
        Tree::Property(x, key) => lemma_access(ts, p, d + 1, *x, key),
        Tree::Index(x, i) => lemma_index(ts, p, d + 1, *x, *i),
        Tree::Slice(x, a, b) => lemma_slice(ts, p, d + 1, *x, *a, *b),
    }
}

proof fn lemma_slice(ts: Seq<TokenView>, p: nat, d: nat, x: Tree, a: Tree, b: Tree) -> (e: ExprView)
    requires
        is_closed(ts),
        is_plain(x),
        is_plain(a),
        is_plain(b),
        stand_at(ts, p, written(Tree::Slice(Box::new(x), Box::new(a), Box::new(b)))),
        ends(
            grammar::kind_at(
                ts,
                p + written(Tree::Slice(Box::new(x), Box::new(a), Box::new(b))).len(),
            ),
        ),
        d + height(x) <= grammar::MAX_DEPTH,
        d + height(a) <= grammar::MAX_DEPTH,
        d + height(b) <= grammar::MAX_DEPTH,
    ensures
        grammar::level_at(ts, p, d, 1) == Ok::<_, ParseErrorView>(
            (e, p + written(Tree::Slice(Box::new(x), Box::new(a), Box::new(b))).len()),
        ),
        is_tree(e, Tree::Slice(Box::new(x), Box::new(a), Box::new(b))),
    decreases height(x) + height(a) + height(b) + 1, 0nat,
{
    let s = p + written(Tree::Slice(Box::new(x), Box::new(a), Box::new(b))).len();
    let q = p + operand(x).len();
    let open = seq![TokenKindView::LBracket];
    let dots = seq![TokenKindView::DotDot];
    let close = seq![TokenKindView::RBracket];
    let m = q + 1 + written(a).len();
    let n = m + 1 + written(b).len();
    lemma_split(ts, p, operand(x), open + (written(a) + (dots + (written(b) + close))));
    lemma_split(ts, q, open, written(a) + (dots + (written(b) + close)));
    lemma_split(ts, q + 1, written(a), dots + (written(b) + close));
    lemma_split(ts, m, dots, written(b) + close);
    lemma_split(ts, m + 1, written(b), close);
    lemma_operand_starts(x);
    lemma_one(ts, p, operand(x));
    lemma_one(ts, q, open);
    lemma_one(ts, m, dots);
    lemma_one(ts, n, close);
    let base = lemma_operand(ts, p, d, x);
    let from = lemma_written(ts, q + 1, d, a);
    let to = lemma_written(ts, m + 1, d, b);
    lemma_written_starts(a);
    lemma_one(ts, q + 1, written(a));
    lemma_not_dots(a);
    lemma_written_starts(b);
    lemma_one(ts, m + 1, written(b));
    lemma_not_dots(b);
    let e = ExprView::Slice {
        base: Box::new(base),
        from: Some(Box::new(from)),
        to: Some(Box::new(to)),
        span: span::joined(base.place(), grammar::span_of(ts, n)),
    };
    assert(grammar::slice_end_at(ts, m + 1, d) == Ok::<_, ParseErrorView>((Some(Box::new(to)), n)));
    assert(grammar::bracket_at(ts, base, q + 1, d) == Ok::<_, ParseErrorView>((e, s)));
    assert(grammar::postfix_at(ts, base, q, d) == grammar::postfix_at(ts, e, s, d));
    lemma_postfix(ts, p, q, s, d, base, e);
    e
}

proof fn lemma_not_dots(t: Tree)
    requires
        is_plain(t),
    ensures
        written(t).len() > 0,
        !(written(t)[0] is DotDot),
        !(written(t)[0] is RBracket),
{
    lemma_written_starts(t);
}

proof fn lemma_not_is_not_null()
    ensures
        !text::same_ignoring_case("NOT"@, "NULL"@),
{
    reveal_strlit("NOT");
    reveal_strlit("NULL");
    if text::same_ignoring_case("NOT"@, "NULL"@) {
        lemma_word("NOT"@, "NULL"@);
    }
}

/// A tree of any operators, written out with its operators' own words and with
/// parentheses, is read back: what the parser makes of its tokens is that tree.
pub proof fn what_is_written_is_read_back(ts: Seq<TokenView>, p: nat, t: Tree)
    requires
        is_closed(ts),
        is_plain(t),
        stand_at(ts, p, written(t)),
        ends(grammar::kind_at(ts, p + written(t).len())),
        height(t) <= grammar::MAX_DEPTH,
    ensures
        grammar::expression_at(ts, p, 0) matches Ok((e, q)) && is_tree(e, t) && q == p + written(
            t,
        ).len(),
{
    lemma_written(ts, p, 0, t);
}

/// Trees that are written alike are alike: no two operators share a text.
pub proof fn different_trees_are_written_differently(a: Tree, b: Tree)
    requires
        is_plain(a),
        is_plain(b),
        written(a) == written(b),
        height(a) <= grammar::MAX_DEPTH,
        height(b) <= grammar::MAX_DEPTH,
    ensures
        exists|e: ExprView| #[trigger] is_tree(e, a) && is_tree(e, b),
{
    let nowhere = Span { start: 0, end: 0 };
    let kinds = written(a).push(TokenKindView::Eof);
    let ts = kinds.map_values(|kind: TokenKindView| TokenView { kind, span: nowhere });
    assert(ts.last().kind == TokenKindView::Eof);
    assert forall|i: int| 0 <= i < written(a).len() implies (#[trigger] ts[0 + i]).kind
        == written(a)[i] by {
        assert(kinds[i] == written(a)[i]);
    }
    assert(stand_at(ts, 0, written(a)));
    let x = lemma_written(ts, 0, 0, a);
    let y = lemma_written(ts, 0, 0, b);
    assert(is_tree(x, a) && is_tree(x, b));
}

} // verus!
