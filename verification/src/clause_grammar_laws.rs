//! Clauses are read as they are written: each keyword opens its own clause, and the parts
//! of a clause land where their words say.

use vstd::prelude::*;
use vstd::string::*;

use crate::ast::{ClauseView, ExprView, ProjectionItemView, RemoveItemView, SetItemView};
use crate::error::ParseErrorView;
use crate::grammar;
use crate::grammar_laws::{self, stand_at};
use crate::lex::{TokenKindView, TokenView};
use crate::pattern_grammar_laws::{self, named};
use crate::span::Span;
use crate::structure::{self, Actions};
use crate::text;

verus! {

// --- Keywords ---------------------------------------------------------------------------------------

/// What tells keywords apart: the length, the first and the third letter.
spec fn outline(s: Seq<char>) -> (nat, char, char) {
    (s.len(), text::ascii_lower(s[0]), text::ascii_lower(s[2]))
}

proof fn lemma_keyword(ts: Seq<TokenView>, p: nat, w: Seq<char>)
    requires
        grammar::is_kw(ts, p, w),
        w.len() >= 3,
    ensures
        outline(grammar::kind_at(ts, p)->name) == outline(w),
{
    let name = grammar::kind_at(ts, p)->name;
    grammar_laws::lemma_word(name, w);
    assert(name[0] == name[0] && name[2] == name[2]);
}

/// The keywords are different: no token is two of them.
proof fn lemma_keywords(ts: Seq<TokenView>, p: nat)
    ensures
        grammar::is_kw(ts, p, "OPTIONAL"@) ==> outline(grammar::kind_at(ts, p)->name) == (
            8nat,
            'o',
            't',
        ),
        grammar::is_kw(ts, p, "MATCH"@) ==> outline(grammar::kind_at(ts, p)->name) == (
            5nat,
            'm',
            't',
        ),
        grammar::is_kw(ts, p, "UNWIND"@) ==> outline(grammar::kind_at(ts, p)->name) == (
            6nat,
            'u',
            'w',
        ),
        grammar::is_kw(ts, p, "WITH"@) ==> outline(grammar::kind_at(ts, p)->name) == (
            4nat,
            'w',
            't',
        ),
        grammar::is_kw(ts, p, "RETURN"@) ==> outline(grammar::kind_at(ts, p)->name) == (
            6nat,
            'r',
            't',
        ),
        grammar::is_kw(ts, p, "CALL"@) ==> outline(grammar::kind_at(ts, p)->name) == (
            4nat,
            'c',
            'l',
        ),
        grammar::is_kw(ts, p, "CREATE"@) ==> outline(grammar::kind_at(ts, p)->name) == (
            6nat,
            'c',
            'e',
        ),
        grammar::is_kw(ts, p, "SET"@) ==> outline(grammar::kind_at(ts, p)->name) == (
            3nat,
            's',
            't',
        ),
        grammar::is_kw(ts, p, "REMOVE"@) ==> outline(grammar::kind_at(ts, p)->name) == (
            6nat,
            'r',
            'm',
        ),
        grammar::is_kw(ts, p, "DETACH"@) ==> outline(grammar::kind_at(ts, p)->name) == (
            6nat,
            'd',
            't',
        ),
        grammar::is_kw(ts, p, "DELETE"@) ==> outline(grammar::kind_at(ts, p)->name) == (
            6nat,
            'd',
            'l',
        ),
        grammar::is_kw(ts, p, "MERGE"@) ==> outline(grammar::kind_at(ts, p)->name) == (
            5nat,
            'm',
            'r',
        ),
{
    reveal_strlit("OPTIONAL");
    reveal_strlit("MATCH");
    reveal_strlit("UNWIND");
    reveal_strlit("WITH");
    reveal_strlit("RETURN");
    reveal_strlit("CALL");
    reveal_strlit("CREATE");
    reveal_strlit("SET");
    reveal_strlit("REMOVE");
    reveal_strlit("DETACH");
    reveal_strlit("DELETE");
    reveal_strlit("MERGE");
    if grammar::is_kw(ts, p, "OPTIONAL"@) {
        lemma_keyword(ts, p, "OPTIONAL"@);
    }
    if grammar::is_kw(ts, p, "MATCH"@) {
        lemma_keyword(ts, p, "MATCH"@);
    }
    if grammar::is_kw(ts, p, "UNWIND"@) {
        lemma_keyword(ts, p, "UNWIND"@);
    }
    if grammar::is_kw(ts, p, "WITH"@) {
        lemma_keyword(ts, p, "WITH"@);
    }
    if grammar::is_kw(ts, p, "RETURN"@) {
        lemma_keyword(ts, p, "RETURN"@);
    }
    if grammar::is_kw(ts, p, "CALL"@) {
        lemma_keyword(ts, p, "CALL"@);
    }
    if grammar::is_kw(ts, p, "CREATE"@) {
        lemma_keyword(ts, p, "CREATE"@);
    }
    if grammar::is_kw(ts, p, "SET"@) {
        lemma_keyword(ts, p, "SET"@);
    }
    if grammar::is_kw(ts, p, "REMOVE"@) {
        lemma_keyword(ts, p, "REMOVE"@);
    }
    if grammar::is_kw(ts, p, "DETACH"@) {
        lemma_keyword(ts, p, "DETACH"@);
    }
    if grammar::is_kw(ts, p, "DELETE"@) {
        lemma_keyword(ts, p, "DELETE"@);
    }
    if grammar::is_kw(ts, p, "MERGE"@) {
        lemma_keyword(ts, p, "MERGE"@);
    }
}

/// Each keyword opens the clause that is named after it; `OPTIONAL` and `DETACH` mark the
/// clause behind them, and nothing else does.
pub proof fn keywords_open_their_clauses(ts: Seq<TokenView>, p: nat, source: Seq<char>)
    ensures
        structure::clause_at(ts, p, source) matches Ok((clause, _)) ==> match clause {
            ClauseView::Match(c) => if c.optional {
                grammar::is_kw(ts, p, "OPTIONAL"@) && grammar::is_kw(ts, p + 1, "MATCH"@)
            } else {
                grammar::is_kw(ts, p, "MATCH"@)
            },
            ClauseView::Unwind(_) => grammar::is_kw(ts, p, "UNWIND"@),
            ClauseView::With(_) => grammar::is_kw(ts, p, "WITH"@),
            ClauseView::Return(_) => grammar::is_kw(ts, p, "RETURN"@),
            ClauseView::Call(_) => grammar::is_kw(ts, p, "CALL"@),
            ClauseView::Create(_) => grammar::is_kw(ts, p, "CREATE"@),
            ClauseView::SetItems(_) => grammar::is_kw(ts, p, "SET"@),
            ClauseView::Remove(_) => grammar::is_kw(ts, p, "REMOVE"@),
            ClauseView::Delete(c) => if c.detach {
                grammar::is_kw(ts, p, "DETACH"@) && grammar::is_kw(ts, p + 1, "DELETE"@)
            } else {
                grammar::is_kw(ts, p, "DELETE"@)
            },
            ClauseView::Merge(_) => grammar::is_kw(ts, p, "MERGE"@),
        },
{
    lemma_keywords(ts, p);
    reveal(structure::clause_at);
    reveal(structure::match_at);
    reveal(structure::unwind_at);
    reveal(structure::procedure_call_at);
    reveal(structure::create_at);
    reveal(structure::set_at);
    reveal(structure::remove_at);
    reveal(structure::delete_at);
    reveal(structure::merge_at);
}

// --- Set and remove ---------------------------------------------------------------------------------

/// `SET` items are read as they are written: `x.key = v` sets a property, `x = v` all of
/// them, and `x += v` adds some.
pub proof fn assignments_are_read_back(
    ts: Seq<TokenView>,
    p: nat,
    var: Seq<char>,
    key: Seq<char>,
    value: ExprView,
    q: nat,
)
    ensures
        stand_at(
            ts,
            p,
            seq![named(var), TokenKindView::Dot, named(key), TokenKindView::Eq],
        ) && grammar::expression_at(ts, p + 4, 0) == Ok::<_, ParseErrorView>((value, q)) ==> (
        structure::set_item_at(ts, p) matches Ok((item, end)) && end == q && (
        item matches SetItemView::Property { var: v, key: k, value: x, .. } && v == var && k == key
            && x == value)),
        stand_at(ts, p, seq![named(var), TokenKindView::Eq]) && grammar::expression_at(
            ts,
            p + 2,
            0,
        ) == Ok::<_, ParseErrorView>((value, q)) ==> (structure::set_item_at(ts, p) matches Ok(
            (item, end),
        ) && end == q && (item matches SetItemView::Replace { var: v, value: x, .. } && v == var
            && x == value)),
        stand_at(ts, p, seq![named(var), TokenKindView::Plus, TokenKindView::Eq])
            && grammar::expression_at(ts, p + 3, 0) == Ok::<_, ParseErrorView>((value, q)) ==> (
        structure::set_item_at(ts, p) matches Ok((item, end)) && end == q && (
        item matches SetItemView::Merge { var: v, value: x, .. } && v == var && x == value)),
{
    let a = seq![named(var), TokenKindView::Dot, named(key), TokenKindView::Eq];
    let b = seq![named(var), TokenKindView::Eq];
    let c = seq![named(var), TokenKindView::Plus, TokenKindView::Eq];
    if stand_at(ts, p, a) {
        grammar_laws::lemma_one(ts, p, a);
        assert(ts[p + 3int].kind == a[3]);
    }
    if stand_at(ts, p, b) {
        grammar_laws::lemma_one(ts, p, b);
    }
    if stand_at(ts, p, c) {
        grammar_laws::lemma_one(ts, p, c);
    }
}

/// Labels behind a variable are added by `SET` and taken away by `REMOVE`; `REMOVE x.key`
/// takes a property away.
pub proof fn labels_and_removals_are_read_back(
    ts: Seq<TokenView>,
    p: nat,
    var: Seq<char>,
    key: Seq<char>,
    labels: Seq<Seq<char>>,
)
    ensures
        labels.len() > 0 && stand_at(
            ts,
            p,
            seq![named(var)] + pattern_grammar_laws::written_labels(labels),
        ) && grammar::kind_at(
            ts,
            p + 1 + pattern_grammar_laws::written_labels(labels).len(),
        ) != TokenKindView::Colon ==> (structure::set_item_at(ts, p) matches Ok((item, _)) && (
        item matches SetItemView::AddLabels { var: v, labels: ls, .. } && v == var && ls == labels))
            && (structure::remove_item_at(ts, p) matches Ok((item, _)) && (
        item matches RemoveItemView::Labels { var: v, labels: ls, .. } && v == var && ls
            == labels)),
        stand_at(ts, p, seq![named(var), TokenKindView::Dot, named(key)]) ==> (
        structure::remove_item_at(ts, p) matches Ok((item, end)) && end == p + 3 && (
        item matches RemoveItemView::Property { var: v, key: k, .. } && v == var && k == key)),
{
    let first = seq![named(var)];
    let rest = pattern_grammar_laws::written_labels(labels);
    if labels.len() > 0 && stand_at(ts, p, first + rest) && grammar::kind_at(
        ts,
        p + 1 + rest.len(),
    ) != TokenKindView::Colon {
        grammar_laws::lemma_split(ts, p, first, rest);
        grammar_laws::lemma_one(ts, p, first);
        grammar_laws::lemma_one(ts, p + 1, rest);
        pattern_grammar_laws::lemma_labels(ts, p + 1, labels, seq![]);
        assert(Seq::<Seq<char>>::empty() + labels =~= labels);
        assert(rest[0] == TokenKindView::Colon);
    }
    let dotted = seq![named(var), TokenKindView::Dot, named(key)];
    if stand_at(ts, p, dotted) {
        grammar_laws::lemma_one(ts, p, dotted);
    }
}

/// What `MERGE` sets behind `ON CREATE` and behind `ON MATCH` is kept apart.
pub proof fn merge_actions_are_kept_apart(
    ts: Seq<TokenView>,
    p: nat,
    before: Actions,
    items: Seq<SetItemView>,
    q: nat,
)
    requires
        p + 3 < ts.len(),
        grammar::is_kw(ts, p, "ON"@),
        grammar::is_kw(ts, p + 2, "SET"@),
        p < q <= ts.len(),
        !grammar::is_kw(ts, q, "ON"@),
    ensures
        grammar::is_kw(ts, p + 1, "CREATE"@) && structure::set_items_at(
            ts,
            p + 3,
            before.on_create,
        ) == Ok::<_, ParseErrorView>((items, q)) ==> structure::actions_at(ts, p, before) == Ok::<
            _,
            ParseErrorView,
        >((Actions { on_create: items, on_match: before.on_match }, q)),
        grammar::is_kw(ts, p + 1, "MATCH"@) && structure::set_items_at(
            ts,
            p + 3,
            before.on_match,
        ) == Ok::<_, ParseErrorView>((items, q)) ==> structure::actions_at(ts, p, before) == Ok::<
            _,
            ParseErrorView,
        >((Actions { on_create: before.on_create, on_match: items }, q)),
{
    lemma_keywords(ts, p + 1);
    let one = Actions { on_create: items, on_match: before.on_match };
    let two = Actions { on_create: before.on_create, on_match: items };
    assert(structure::actions_at(ts, q, one) == Ok::<_, ParseErrorView>((one, q)));
    assert(structure::actions_at(ts, q, two) == Ok::<_, ParseErrorView>((two, q)));
    assert(grammar::next(ts, p) == p + 1);
    assert(grammar::next(ts, p + 1) == p + 2);
    assert(grammar::next(ts, p + 2) == p + 3);
    assert(grammar::advances(ts, p, q));
}

// --- Projections ------------------------------------------------------------------------------------

/// `DISTINCT` marks a projection, and what stands behind `SKIP` and behind `LIMIT` is its
/// page.
pub proof fn pages_are_read_back(
    ts: Seq<TokenView>,
    p: nat,
    start: Span,
    is_with: bool,
    items: Seq<ProjectionItemView>,
    a: ExprView,
    b: ExprView,
    ps: Seq<nat>,
)
    requires
        ps.len() == 4,
        ps[0] == (if grammar::is_kw(ts, p, "DISTINCT"@) {
            grammar::next(ts, p)
        } else {
            p
        }),
        structure::items_at(ts, ps[0], seq![]) == Ok::<_, ParseErrorView>((items, ps[1])),
        !grammar::is_kw(ts, ps[1], "ORDER"@),
        grammar::is_kw(ts, ps[1], "SKIP"@),
        ps[1] + 1 < ts.len(),
        grammar::expression_at(ts, ps[1] + 1, 0) == Ok::<_, ParseErrorView>((a, ps[2])),
        grammar::is_kw(ts, ps[2], "LIMIT"@),
        ps[2] + 1 < ts.len(),
        grammar::expression_at(ts, ps[2] + 1, 0) == Ok::<_, ParseErrorView>((b, ps[3])),
        !grammar::is_kw(ts, ps[3], "WHERE"@),
    ensures
        structure::projection_at(ts, p, start, is_with) matches Ok((made, end)) && {
            &&& made.distinct == grammar::is_kw(ts, p, "DISTINCT"@)
            &&& made.items == items
            &&& made.order_by.len() == 0
            &&& made.skip == Some(a)
            &&& made.limit == Some(b)
            &&& made.where_clause is None
            &&& end == ps[3]
        },
{
    reveal(structure::projection_at);
    assert(grammar::optional_at(ts, ps[1], 0, "SKIP"@) == Ok::<_, ParseErrorView>(
        (Some(a), ps[2]),
    ));
    assert(grammar::optional_at(ts, ps[2], 0, "LIMIT"@) == Ok::<_, ParseErrorView>(
        (Some(b), ps[3]),
    ));
}

} // verus!
