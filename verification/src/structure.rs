//! The grammar of clauses and queries.

use vstd::prelude::*;
use vstd::string::*;

use crate::ast::{
    self, AtRefView, CallClauseView, ClauseView, CreateClauseView, DeleteClauseView, ExprView,
    MatchClauseView, MergeClauseView, PathPatternView, ProjectionItemView, ProjectionView,
    QueryView, RemoveClauseView, RemoveItemView, SetClauseView, SetItemView, SortItemView,
    UnwindClauseView,
};
use crate::error::ParseErrorView;
use crate::grammar::{self, MAX_AST_DEPTH, Step};
use crate::lex::{self, TokenKindView, TokenView};
use crate::nesting;
use crate::span::{self, Span};

verus! {

// --- Parts of clauses -------------------------------------------------------------------------------

/// Path patterns behind `before`, separated by commas.
pub open spec fn patterns_at(ts: Seq<TokenView>, p: nat, before: Seq<PathPatternView>) -> Step<
    Seq<PathPatternView>,
>
    decreases ts.len() - p,
{
    match grammar::pattern_at(ts, p, 0) {
        Err(e) => Err(e),
        Ok((pattern, q)) => {
            if grammar::kind_at(ts, q) == TokenKindView::Comma && grammar::advances(
                ts,
                p,
                grammar::next(ts, q),
            ) {
                patterns_at(ts, grammar::next(ts, q), before.push(pattern))
            } else {
                Ok((before.push(pattern), q))
            }
        },
    }
}

/// One `SET` assignment: `x.key = v`, `x = map`, `x += map`, or `x:A:B`.
pub open spec fn set_item_at(ts: Seq<TokenView>, p: nat) -> Step<SetItemView> {
    match grammar::binding_at(ts, p, "a variable"@, "a SET target"@) {
        Err(e) => Err(e),
        Ok((var, q)) => {
            if grammar::kind_at(ts, q) == TokenKindView::Colon {
                match grammar::labels_at(ts, q, seq![]) {
                    Err(e) => Err(e),
                    Ok((labels, r)) => {
                        Ok(
                            (
                                SetItemView::AddLabels {
                                    var,
                                    labels,
                                    span: span::joined(
                                        grammar::span_of(ts, p),
                                        grammar::span_before(ts, r),
                                    ),
                                },
                                r,
                            ),
                        )
                    },
                }
            } else if grammar::kind_at(ts, q) == TokenKindView::Dot {
                match grammar::name_at(ts, grammar::next(ts, q), "a property name after '.'"@) {
                    Err(e) => Err(e),
                    Ok((key, r)) => {
                        match grammar::expect_at(
                            ts,
                            r,
                            TokenKindView::Eq,
                            "'=' in a SET assignment"@,
                        ) {
                            Err(e) => Err(e),
                            Ok(r) => {
                                match grammar::expression_at(ts, r, 0) {
                                    Err(e) => Err(e),
                                    Ok((value, r)) => {
                                        Ok(
                                            (
                                                SetItemView::Property {
                                                    var,
                                                    key,
                                                    value,
                                                    span: span::joined(
                                                        grammar::span_of(ts, p),
                                                        grammar::span_before(ts, r),
                                                    ),
                                                },
                                                r,
                                            ),
                                        )
                                    },
                                }
                            },
                        }
                    },
                }
            } else if grammar::kind_at(ts, q) == TokenKindView::Plus && grammar::kind_at(ts, q + 1) == TokenKindView::Eq {
                match grammar::expression_at(ts, grammar::next(ts, grammar::next(ts, q)), 0) {
                    Err(e) => Err(e),
                    Ok((value, r)) => {
                        Ok(
                            (
                                SetItemView::Merge {
                                    var,
                                    value,
                                    span: span::joined(
                                        grammar::span_of(ts, p),
                                        grammar::span_before(ts, r),
                                    ),
                                },
                                r,
                            ),
                        )
                    },
                }
            } else {
                match grammar::expect_at(
                    ts,
                    q,
                    TokenKindView::Eq,
                    "'.property', ':Label', '=' or '+=' after a SET target"@,
                ) {
                    Err(e) => Err(e),
                    Ok(r) => {
                        match grammar::expression_at(ts, r, 0) {
                            Err(e) => Err(e),
                            Ok((value, r)) => {
                                Ok(
                                    (
                                        SetItemView::Replace {
                                            var,
                                            value,
                                            span: span::joined(
                                                grammar::span_of(ts, p),
                                                grammar::span_before(ts, r),
                                            ),
                                        },
                                        r,
                                    ),
                                )
                            },
                        }
                    },
                }
            }
        },
    }
}

/// `SET` assignments behind `before`, separated by commas.
pub open spec fn set_items_at(ts: Seq<TokenView>, p: nat, before: Seq<SetItemView>) -> Step<
    Seq<SetItemView>,
>
    decreases ts.len() - p,
{
    match set_item_at(ts, p) {
        Err(e) => Err(e),
        Ok((item, q)) => {
            if grammar::kind_at(ts, q) == TokenKindView::Comma && grammar::advances(
                ts,
                p,
                grammar::next(ts, q),
            ) {
                set_items_at(ts, grammar::next(ts, q), before.push(item))
            } else {
                Ok((before.push(item), q))
            }
        },
    }
}

/// One `REMOVE` item: `x.key` or `x:A:B`.
pub open spec fn remove_item_at(ts: Seq<TokenView>, p: nat) -> Step<RemoveItemView> {
    match grammar::binding_at(ts, p, "a variable"@, "a REMOVE target"@) {
        Err(e) => Err(e),
        Ok((var, q)) => {
            if grammar::kind_at(ts, q) == TokenKindView::Colon {
                match grammar::labels_at(ts, q, seq![]) {
                    Err(e) => Err(e),
                    Ok((labels, r)) => {
                        Ok(
                            (
                                RemoveItemView::Labels {
                                    var,
                                    labels,
                                    span: span::joined(
                                        grammar::span_of(ts, p),
                                        grammar::span_before(ts, r),
                                    ),
                                },
                                r,
                            ),
                        )
                    },
                }
            } else {
                match grammar::expect_at(
                    ts,
                    q,
                    TokenKindView::Dot,
                    "'.property' or ':Label' after a REMOVE target"@,
                ) {
                    Err(e) => Err(e),
                    Ok(r) => {
                        match grammar::name_at(ts, r, "a property name after '.'"@) {
                            Err(e) => Err(e),
                            Ok((key, r)) => {
                                Ok(
                                    (
                                        RemoveItemView::Property {
                                            var,
                                            key,
                                            span: span::joined(
                                                grammar::span_of(ts, p),
                                                grammar::span_before(ts, r),
                                            ),
                                        },
                                        r,
                                    ),
                                )
                            },
                        }
                    },
                }
            }
        },
    }
}

/// `REMOVE` items behind `before`, separated by commas.
pub open spec fn remove_items_at(ts: Seq<TokenView>, p: nat, before: Seq<RemoveItemView>) -> Step<
    Seq<RemoveItemView>,
>
    decreases ts.len() - p,
{
    match remove_item_at(ts, p) {
        Err(e) => Err(e),
        Ok((item, q)) => {
            if grammar::kind_at(ts, q) == TokenKindView::Comma && grammar::advances(
                ts,
                p,
                grammar::next(ts, q),
            ) {
                remove_items_at(ts, grammar::next(ts, q), before.push(item))
            } else {
                Ok((before.push(item), q))
            }
        },
    }
}

/// The end of the run of tokens without white space between them that goes on at
/// `p` behind the byte `end`.
pub open spec fn run_end(ts: Seq<TokenView>, p: nat, end: usize) -> usize
    decreases ts.len() - p,
{
    if p >= ts.len() || grammar::kind_at(ts, p) == TokenKindView::Eof || grammar::span_of(ts, p).start != end {
        end
    } else {
        run_end(ts, p + 1, grammar::span_of(ts, p).end)
    }
}

/// Whether a token could be meant as a refspec.
pub open spec fn like_refspec(kind: TokenKindView) -> bool {
    match kind {
        TokenKindView::Integer(_) => true,
        TokenKindView::IntegerTooLarge(_) => true,
        TokenKindView::Float(_) => true,
        TokenKindView::Ident { name, backquoted } => !backquoted && !grammar::is_reserved_word(name),
        _ => false,
    }
}

/// The error of a token after `AT` that is neither a string nor a parameter. A
/// bare commit hash or branch name, which may be several adjacent tokens, gets a
/// suggestion that quotes the source text; anything else means that the refspec
/// is missing.
pub open spec fn bare_refspec(ts: Seq<TokenView>, p: nat, source: Seq<char>) -> ParseErrorView {
    if like_refspec(grammar::kind_at(ts, p)) {
        let start = grammar::span_of(ts, p).start;
        let end = run_end(ts, p + 1, grammar::span_of(ts, p).end);
        ParseErrorView::QueryStructure {
            message: "a refspec after AT must be a string literal or a parameter — try AT '"@
            + span::text_between(source, start as nat, end as nat) + "' (or AT $ref)"@,
            span: Span { start, end },
        }
    } else {
        grammar::unexpected(ts, p, "a refspec string or parameter after AT"@)
    }
}

/// `AT <refspec>`, where it stands at `p`.
pub open spec fn at_ref_at(ts: Seq<TokenView>, p: nat, source: Seq<char>) -> Step<
    Option<AtRefView>,
> {
    if grammar::is_kw(ts, p, "AT"@) {
        let q = grammar::next(ts, p);
        match grammar::kind_at(ts, q) {
            TokenKindView::Str(value) => Ok(
                (
                    Some(AtRefView::Refspec { value, span: grammar::span_of(ts, q) }),
                    grammar::next(ts, q),
                ),
            ),
            TokenKindView::Parameter(name) => Ok(
                (
                    Some(AtRefView::Parameter { name, span: grammar::span_of(ts, q) }),
                    grammar::next(ts, q),
                ),
            ),
            _ => Err(bare_refspec(ts, q, source)),
        }
    } else {
        Ok((None, p))
    }
}

/// One item of a projection.
pub open spec fn item_at(ts: Seq<TokenView>, p: nat) -> Step<ProjectionItemView> {
    if grammar::kind_at(ts, p) == TokenKindView::Star {
        Ok((ProjectionItemView::Star { span: grammar::span_of(ts, p) }, grammar::next(ts, p)))
    } else {
        match grammar::expression_at(ts, p, 0) {
            Err(e) => Err(e),
            Ok((expr, q)) => {
                if grammar::is_kw(ts, q, "AS"@) {
                    match grammar::binding_at(
                        ts,
                        grammar::next(ts, q),
                        "alias after AS"@,
                        "an alias"@,
                    ) {
                        Err(e) => Err(e),
                        Ok((alias, r)) => {
                            Ok(
                                (
                                    ProjectionItemView::Expr {
                                        expr,
                                        alias: Some(alias),
                                        span: span::joined(
                                            expr.place(),
                                            grammar::span_before(ts, r),
                                        ),
                                    },
                                    r,
                                ),
                            )
                        },
                    }
                } else {
                    Ok(
                        (
                            ProjectionItemView::Expr {
                                expr,
                                alias: None,
                                span: span::joined(expr.place(), grammar::span_before(ts, q)),
                            },
                            q,
                        ),
                    )
                }
            },
        }
    }
}

/// Items of a projection behind `before`, separated by commas.
pub open spec fn items_at(ts: Seq<TokenView>, p: nat, before: Seq<ProjectionItemView>) -> Step<
    Seq<ProjectionItemView>,
>
    decreases ts.len() - p,
{
    match item_at(ts, p) {
        Err(e) => Err(e),
        Ok((item, q)) => {
            if grammar::kind_at(ts, q) == TokenKindView::Comma && grammar::advances(
                ts,
                p,
                grammar::next(ts, q),
            ) {
                items_at(ts, grammar::next(ts, q), before.push(item))
            } else {
                Ok((before.push(item), q))
            }
        },
    }
}

/// Whether a sort direction at `p` is descending, and the position behind the
/// direction; it is ascending where none is written.
pub open spec fn direction_at(ts: Seq<TokenView>, p: nat) -> (bool, nat) {
    if grammar::is_kw(ts, p, "DESC"@) || grammar::is_kw(ts, p, "DESCENDING"@) {
        (true, grammar::next(ts, p))
    } else if grammar::is_kw(ts, p, "ASC"@) || grammar::is_kw(ts, p, "ASCENDING"@) {
        (false, grammar::next(ts, p))
    } else {
        (false, p)
    }
}

/// Sort items behind `before`, separated by commas.
pub open spec fn sort_items_at(ts: Seq<TokenView>, p: nat, before: Seq<SortItemView>) -> Step<
    Seq<SortItemView>,
>
    decreases ts.len() - p,
{
    match grammar::expression_at(ts, p, 0) {
        Err(e) => Err(e),
        Ok((expr, q)) => {
            let (descending, q) = direction_at(ts, q);
            let items = before.push(SortItemView { expr, descending });
            if grammar::kind_at(ts, q) == TokenKindView::Comma && grammar::advances(
                ts,
                p,
                grammar::next(ts, q),
            ) {
                sort_items_at(ts, grammar::next(ts, q), items)
            } else {
                Ok((items, q))
            }
        },
    }
}

/// `ORDER BY ...`, where it stands at `p`.
pub open spec fn order_at(ts: Seq<TokenView>, p: nat) -> Step<Seq<SortItemView>> {
    if grammar::is_kw2(ts, p, "ORDER"@, "BY"@) {
        sort_items_at(ts, grammar::next(ts, grammar::next(ts, p)), seq![])
    } else {
        Ok((seq![], p))
    }
}

/// The `WHERE` of a projection; only `WITH` has one.
pub open spec fn filter_at(ts: Seq<TokenView>, p: nat, is_with: bool) -> Step<Option<ExprView>> {
    if is_with {
        grammar::optional_at(ts, p, 0, "WHERE"@)
    } else {
        Ok((None, p))
    }
}

/// The shared body of `WITH` and `RETURN`, whose keyword stands at `start`.
#[verifier::opaque]
pub open spec fn projection_at(ts: Seq<TokenView>, p: nat, start: Span, is_with: bool) -> Step<
    ProjectionView,
> {
    let distinct = grammar::is_kw(ts, p, "DISTINCT"@);
    let first = if distinct {
        grammar::next(ts, p)
    } else {
        p
    };
    match items_at(ts, first, seq![]) {
        Err(e) => Err(e),
        Ok((items, q)) => {
            match order_at(ts, q) {
                Err(e) => Err(e),
                Ok((order_by, q)) => {
                    match grammar::optional_at(ts, q, 0, "SKIP"@) {
                        Err(e) => Err(e),
                        Ok((skip, q)) => {
                            match grammar::optional_at(ts, q, 0, "LIMIT"@) {
                                Err(e) => Err(e),
                                Ok((limit, q)) => {
                                    match filter_at(ts, q, is_with) {
                                        Err(e) => Err(e),
                                        Ok((where_clause, q)) => {
                                            Ok(
                                                (
                                                    ProjectionView {
                                                        distinct,
                                                        items,
                                                        order_by,
                                                        skip,
                                                        limit,
                                                        where_clause,
                                                        span: span::joined(
                                                            start,
                                                            grammar::span_before(ts, q),
                                                        ),
                                                    },
                                                    q,
                                                ),
                                            )
                                        },
                                    }
                                },
                            }
                        },
                    }
                },
            }
        },
    }
}

/// Segments of a procedure's name behind `before`, each behind a dot.
pub open spec fn procedure_at(ts: Seq<TokenView>, p: nat, before: Seq<Seq<char>>) -> Step<
    Seq<Seq<char>>,
>
    decreases ts.len() - p,
{
    if grammar::kind_at(ts, p) == TokenKindView::Dot {
        match grammar::name_at(ts, grammar::next(ts, p), "a procedure name segment"@) {
            Err(e) => Err(e),
            Ok((segment, q)) => {
                if grammar::advances(ts, p, q) {
                    procedure_at(ts, q, before.push(segment))
                } else {
                    Ok((before.push(segment), q))
                }
            },
        }
    } else {
        Ok((before, p))
    }
}

/// The arguments of a procedure, where a parenthesis opens them.
pub open spec fn arguments_at(ts: Seq<TokenView>, p: nat) -> Step<Seq<ExprView>> {
    if grammar::kind_at(ts, p) == TokenKindView::LParen {
        let first = grammar::next(ts, p);
        if grammar::kind_at(ts, first) == TokenKindView::RParen {
            Ok((seq![], grammar::next(ts, first)))
        } else {
            match grammar::expressions_at(ts, first, 0, seq![]) {
                Err(e) => Err(e),
                Ok((args, q)) => {
                    match grammar::expect_at(
                        ts,
                        q,
                        TokenKindView::RParen,
                        "')' after procedure arguments"@,
                    ) {
                        Err(e) => Err(e),
                        Ok(r) => {
                            Ok((args, r))
                        },
                    }
                },
            }
        }
    } else {
        Ok((seq![], p))
    }
}

/// Yielded columns behind `before`, separated by commas.
pub open spec fn columns_at(ts: Seq<TokenView>, p: nat, before: Seq<Seq<char>>) -> Step<
    Seq<Seq<char>>,
>
    decreases ts.len() - p,
{
    match grammar::binding_at(ts, p, "a yield column"@, "a yield item"@) {
        Err(e) => Err(e),
        Ok((name, q)) => {
            if grammar::kind_at(ts, q) == TokenKindView::Comma && grammar::advances(
                ts,
                p,
                grammar::next(ts, q),
            ) {
                columns_at(ts, grammar::next(ts, q), before.push(name))
            } else {
                Ok((before.push(name), q))
            }
        },
    }
}

/// `YIELD ...`, where it stands at `p`.
pub open spec fn yields_at(ts: Seq<TokenView>, p: nat) -> Step<Seq<Seq<char>>> {
    if grammar::is_kw(ts, p, "YIELD"@) {
        columns_at(ts, grammar::next(ts, p), seq![])
    } else {
        Ok((seq![], p))
    }
}

// --- Clauses ----------------------------------------------------------------------------------------

/// What follows `MATCH`.
#[verifier::opaque]
pub open spec fn match_at(
    ts: Seq<TokenView>,
    p: nat,
    optional: bool,
    start: Span,
    source: Seq<char>,
) -> Step<ClauseView> {
    match patterns_at(ts, p, seq![]) {
        Err(e) => Err(e),
        Ok((patterns, q)) => {
            match at_ref_at(ts, q, source) {
                Err(e) => Err(e),
                Ok((at_ref, q)) => {
                    match grammar::optional_at(ts, q, 0, "WHERE"@) {
                        Err(e) => Err(e),
                        Ok((where_clause, q)) => {
                            Ok(
                                (
                                    ClauseView::Match(
                                        MatchClauseView {
                                            optional,
                                            patterns,
                                            at_ref,
                                            where_clause,
                                            span: span::joined(start, grammar::span_before(ts, q)),
                                        },
                                    ),
                                    q,
                                ),
                            )
                        },
                    }
                },
            }
        },
    }
}

/// `UNWIND <expr> AS <alias>`.
#[verifier::opaque]
pub open spec fn unwind_at(ts: Seq<TokenView>, p: nat) -> Step<ClauseView> {
    match grammar::expression_at(ts, grammar::next(ts, p), 0) {
        Err(e) => Err(e),
        Ok((expr, q)) => {
            match grammar::expect_kw_at(ts, q, "AS"@) {
                Err(e) => Err(e),
                Ok(q) => {
                    match grammar::binding_at(ts, q, "alias after AS"@, "an alias"@) {
                        Err(e) => Err(e),
                        Ok((alias, r)) => {
                            Ok(
                                (
                                    ClauseView::Unwind(
                                        UnwindClauseView { expr, alias, span: span::joined(grammar::span_of(ts, p), grammar::span_of(ts, q)) },
                                    ),
                                    r,
                                ),
                            )
                        },
                    }
                },
            }
        },
    }
}

/// `CALL name(args) YIELD ... WHERE ...`.
#[verifier::opaque]
pub open spec fn procedure_call_at(ts: Seq<TokenView>, p: nat) -> Step<ClauseView> {
    match grammar::name_at(ts, grammar::next(ts, p), "a procedure name"@) {
        Err(e) => Err(e),
        Ok((name, q)) => {
            match procedure_at(ts, q, seq![name]) {
                Err(e) => Err(e),
                Ok((procedure, q)) => {
                    match arguments_at(ts, q) {
                        Err(e) => Err(e),
                        Ok((args, q)) => {
                            match yields_at(ts, q) {
                                Err(e) => Err(e),
                                Ok((yield_items, q)) => {
                                    match grammar::optional_at(ts, q, 0, "WHERE"@) {
                                        Err(e) => Err(e),
                                        Ok((where_clause, q)) => {
                                            Ok(
                                                (
                                                    ClauseView::Call(
                                                        CallClauseView {
                                                            procedure,
                                                            args,
                                                            yield_items,
                                                            where_clause,
                                                            span: span::joined(
                                                                grammar::span_of(ts, p),
                                                                grammar::span_before(ts, q),
                                                            ),
                                                        },
                                                    ),
                                                    q,
                                                ),
                                            )
                                        },
                                    }
                                },
                            }
                        },
                    }
                },
            }
        },
    }
}

/// What follows `DELETE`.
#[verifier::opaque]
pub open spec fn delete_at(ts: Seq<TokenView>, p: nat, detach: bool, start: Span) -> Step<
    ClauseView,
> {
    match grammar::expressions_at(ts, p, 0, seq![]) {
        Err(e) => Err(e),
        Ok((targets, q)) => {
            Ok(
                (
                    ClauseView::Delete(
                        DeleteClauseView { detach, targets, span: span::joined(start, grammar::span_before(ts, q)) },
                    ),
                    q,
                ),
            )
        },
    }
}

/// The `ON CREATE SET` and `ON MATCH SET` items of a `MERGE`.
pub struct Actions {
    pub on_create: Seq<SetItemView>,
    pub on_match: Seq<SetItemView>,
}

/// `ON CREATE SET ...` and `ON MATCH SET ...` behind `before`.
pub open spec fn actions_at(ts: Seq<TokenView>, p: nat, before: Actions) -> Step<Actions>
    decreases ts.len() - p,
{
    let q = grammar::next(ts, grammar::next(ts, p));
    if grammar::is_kw2(ts, p, "ON"@, "CREATE"@) {
        match grammar::expect_kw_at(ts, q, "SET"@) {
            Err(e) => Err(e),
            Ok(r) => {
                match set_items_at(ts, r, before.on_create) {
                    Err(e) => Err(e),
                    Ok((on_create, r)) => {
                        let all = Actions { on_create, ..before };
                        if grammar::advances(ts, p, r) {
                            actions_at(ts, r, all)
                        } else {
                            Ok((all, r))
                        }
                    },
                }
            },
        }
    } else if grammar::is_kw2(ts, p, "ON"@, "MATCH"@) {
        match grammar::expect_kw_at(ts, q, "SET"@) {
            Err(e) => Err(e),
            Ok(r) => {
                match set_items_at(ts, r, before.on_match) {
                    Err(e) => Err(e),
                    Ok((on_match, r)) => {
                        let all = Actions { on_match, ..before };
                        if grammar::advances(ts, p, r) {
                            actions_at(ts, r, all)
                        } else {
                            Ok((all, r))
                        }
                    },
                }
            },
        }
    } else {
        Ok((before, p))
    }
}

/// `MERGE <pattern> (ON CREATE SET ... | ON MATCH SET ...)*`.
#[verifier::opaque]
pub open spec fn merge_at(ts: Seq<TokenView>, p: nat) -> Step<ClauseView> {
    match grammar::pattern_at(ts, grammar::next(ts, p), 0) {
        Err(e) => Err(e),
        Ok((pattern, q)) => {
            match actions_at(ts, q, Actions { on_create: seq![], on_match: seq![] }) {
                Err(e) => Err(e),
                Ok((actions, q)) => {
                    Ok(
                        (
                            ClauseView::Merge(
                                MergeClauseView {
                                    pattern,
                                    on_create: actions.on_create,
                                    on_match: actions.on_match,
                                    span: span::joined(
                                        grammar::span_of(ts, p),
                                        grammar::span_before(ts, q),
                                    ),
                                },
                            ),
                            q,
                        ),
                    )
                },
            }
        },
    }
}

/// `CREATE <patterns>`.
#[verifier::opaque]
pub open spec fn create_at(ts: Seq<TokenView>, p: nat) -> Step<ClauseView> {
    match patterns_at(ts, grammar::next(ts, p), seq![]) {
        Err(e) => Err(e),
        Ok((patterns, q)) => {
            Ok(
                (
                    ClauseView::Create(
                        CreateClauseView { patterns, span: span::joined(grammar::span_of(ts, p), grammar::span_before(ts, q)) },
                    ),
                    q,
                ),
            )
        },
    }
}

/// `SET <items>`.
#[verifier::opaque]
pub open spec fn set_at(ts: Seq<TokenView>, p: nat) -> Step<ClauseView> {
    match set_items_at(ts, grammar::next(ts, p), seq![]) {
        Err(e) => Err(e),
        Ok((items, q)) => {
            Ok(
                (
                    ClauseView::SetItems(
                        SetClauseView { items, span: span::joined(grammar::span_of(ts, p), grammar::span_before(ts, q)) },
                    ),
                    q,
                ),
            )
        },
    }
}

/// `REMOVE <items>`.
#[verifier::opaque]
pub open spec fn remove_at(ts: Seq<TokenView>, p: nat) -> Step<ClauseView> {
    match remove_items_at(ts, grammar::next(ts, p), seq![]) {
        Err(e) => Err(e),
        Ok((items, q)) => {
            Ok(
                (
                    ClauseView::Remove(
                        RemoveClauseView { items, span: span::joined(grammar::span_of(ts, p), grammar::span_before(ts, q)) },
                    ),
                    q,
                ),
            )
        },
    }
}

/// One clause.
#[verifier::opaque]
pub open spec fn clause_at(ts: Seq<TokenView>, p: nat, source: Seq<char>) -> Step<ClauseView> {
    if grammar::is_kw2(ts, p, "OPTIONAL"@, "MATCH"@) {
        match_at(ts, grammar::next(ts, grammar::next(ts, p)), true, grammar::span_of(ts, p), source)
    } else if grammar::is_kw(ts, p, "MATCH"@) {
        match_at(ts, grammar::next(ts, p), false, grammar::span_of(ts, p), source)
    } else if grammar::is_kw(ts, p, "UNWIND"@) {
        unwind_at(ts, p)
    } else if grammar::is_kw(ts, p, "WITH"@) {
        match projection_at(ts, grammar::next(ts, p), grammar::span_of(ts, p), true) {
            Err(e) => Err(e),
            Ok((projection, q)) => {
                Ok((ClauseView::With(projection), q))
            },
        }
    } else if grammar::is_kw(ts, p, "RETURN"@) {
        match projection_at(ts, grammar::next(ts, p), grammar::span_of(ts, p), false) {
            Err(e) => Err(e),
            Ok((projection, q)) => {
                Ok((ClauseView::Return(projection), q))
            },
        }
    } else if grammar::is_kw(ts, p, "CALL"@) {
        procedure_call_at(ts, p)
    } else if grammar::is_kw(ts, p, "CREATE"@) {
        create_at(ts, p)
    } else if grammar::is_kw(ts, p, "SET"@) {
        set_at(ts, p)
    } else if grammar::is_kw(ts, p, "REMOVE"@) {
        remove_at(ts, p)
    } else if grammar::is_kw2(ts, p, "DETACH"@, "DELETE"@) {
        delete_at(ts, grammar::next(ts, grammar::next(ts, p)), true, grammar::span_of(ts, p))
    } else if grammar::is_kw(ts, p, "DELETE"@) {
        delete_at(ts, grammar::next(ts, p), false, grammar::span_of(ts, p))
    } else if grammar::is_kw(ts, p, "MERGE"@) {
        merge_at(ts, p)
    } else {
        Err(
            grammar::unexpected(
                ts,
                p,
                "a clause (MATCH, OPTIONAL MATCH, UNWIND, WITH, RETURN, CALL, CREATE, SET, REMOVE, DELETE or DETACH DELETE)"@,
            ),
        )
    }
}

/// Whether the token at `p` ends a query.
pub open spec fn query_ends(ts: Seq<TokenView>, p: nat) -> bool {
    grammar::kind_at(ts, p) == TokenKindView::Eof || grammar::kind_at(ts, p) == TokenKindView::Semicolon
}

/// Clauses behind `before`; none may follow `RETURN`.
#[verifier::opaque]
pub open spec fn clauses_at(
    ts: Seq<TokenView>,
    p: nat,
    source: Seq<char>,
    before: Seq<ClauseView>,
) -> Step<Seq<ClauseView>>
    decreases ts.len() - p,
{
    if query_ends(ts, p) {
        Ok((before, p))
    } else if before.len() > 0 && before.last() is Return {
        Err(
            ParseErrorView::QueryStructure {
                message: "no clause may follow RETURN"@,
                span: grammar::span_of(ts, p),
            },
        )
    } else {
        match clause_at(ts, p, source) {
            Err(e) => Err(e),
            Ok((clause, q)) => {
                if grammar::advances(ts, p, q) {
                    clauses_at(ts, q, source, before.push(clause))
                } else {
                    Ok((before.push(clause), q))
                }
            },
        }
    }
}

/// Whether a clause may end a query: `RETURN`, a standalone `CALL`, or a write
/// clause.
pub open spec fn may_end(clause: ClauseView) -> bool {
    clause is Return || clause is Call || ast::writes(clause)
}

/// A query: clauses of which the last may end it.
pub open spec fn query_at(ts: Seq<TokenView>, p: nat, source: Seq<char>) -> Step<QueryView> {
    match clauses_at(ts, p, source, seq![]) {
        Err(e) => Err(e),
        Ok((clauses, q)) => {
            if clauses.len() == 0 {
                Err(
                    ParseErrorView::QueryStructure { message: "empty query"@, span: span::no_span() },
                )
            } else if may_end(clauses.last()) {
                Ok(
                    (
                        QueryView { clauses, span: span::joined(grammar::span_of(ts, p), grammar::span_before(ts, q)) },
                        q,
                    ),
                )
            } else {
                Err(
                    ParseErrorView::QueryStructure {
                        message: "query must end with RETURN, a write clause, or a standalone CALL"@,
                        span: ast::clause_place(clauses.last()),
                    },
                )
            }
        },
    }
}

/// The end of the text, behind at most one semicolon.
pub open spec fn end_at(ts: Seq<TokenView>, p: nat) -> Result<(), ParseErrorView> {
    let q = if grammar::kind_at(ts, p) == TokenKindView::Semicolon {
        grammar::next(ts, p)
    } else {
        p
    };
    if grammar::kind_at(ts, q) == TokenKindView::Eof {
        Ok(())
    } else {
        Err(grammar::unexpected(ts, q, "end of query"@))
    }
}

/// The tree of a query's text: its tokens make up one query, whose tree is no
/// deeper than [`MAX_AST_DEPTH`].
pub open spec fn parsed(source: Seq<char>) -> Result<QueryView, ParseErrorView> {
    match lex::tokens_of(source) {
        Err(e) => Err(e),
        Ok(ts) => {
            match query_at(ts, 0, source) {
                Err(e) => Err(e),
                Ok((query, q)) => {
                    match end_at(ts, q) {
                        Err(e) => Err(e),
                        Ok(done) => {
                            if nesting::query_depth(query) > MAX_AST_DEPTH {
                                Err(
                                    ParseErrorView::RecursionLimit { limit: MAX_AST_DEPTH, span: query.span },
                                )
                            } else {
                                Ok(query)
                            }
                        },
                    }
                },
            }
        },
    }
}

} // verus!
