//! Recursive-descent parser with precedence levels for expressions, for the
//! read and write clauses, the `AT <ref>` extension and `CALL ... YIELD`.
//!
//! - It never panics on any input.
//! - Expression nesting is bounded by an explicit depth limit (queries are
//!   untrusted input; unbounded recursion is a stack-overflow abort).
//! - Every error carries a byte span into the source.

use vstd::prelude::*;
use vstd::string::*;

use crate::ast::{
    self, AtRef, AtRefView, BinaryOp, CallClause, Clause, ClauseView, CreateClause, DeleteClause,
    Direction, Expr, ExprView, Literal, MatchClause, MergeClause, NodePattern, NodePatternView,
    PathPattern, PathPatternView, Projection, ProjectionItem, ProjectionItemView, ProjectionView,
    QuantifierKind, Query, QueryView, RelPattern, RelPatternView, RemoveClause, RemoveItem,
    RemoveItemView, SetClause, SetItem, SetItemView, SortItem, SortItemView, UnaryOp, UnwindClause,
    VarLength,
};
use crate::error::{ParseError, ParseErrorView};
use crate::grammar::{self, MAX_AST_DEPTH, MAX_DEPTH, RelDetail, Step};
use crate::lex::{self, Token, TokenKind, TokenKindView, TokenView};
use crate::nesting;
use crate::span::{self, Span};
use crate::structure::{self, Actions};
use crate::teardown;
use crate::text;

verus! {

/// Whether a word is reserved.
fn is_reserved(word: &str) -> (r: bool)
    ensures
        r == grammar::is_reserved_word(word@),
{
    text::eq_ignore_case(word, "ALL")
    || text::eq_ignore_case(word, "AND")
    || text::eq_ignore_case(word, "AS")
    || text::eq_ignore_case(word, "ASC")
    || text::eq_ignore_case(word, "ASCENDING")
    || text::eq_ignore_case(word, "BY")
    || text::eq_ignore_case(word, "CALL")
    || text::eq_ignore_case(word, "CASE")
    || text::eq_ignore_case(word, "CONTAINS")
    || text::eq_ignore_case(word, "CREATE")
    || text::eq_ignore_case(word, "DELETE")
    || text::eq_ignore_case(word, "DESC")
    || text::eq_ignore_case(word, "DESCENDING")
    || text::eq_ignore_case(word, "DETACH")
    || text::eq_ignore_case(word, "DISTINCT")
    || text::eq_ignore_case(word, "ELSE")
    || text::eq_ignore_case(word, "END")
    || text::eq_ignore_case(word, "ENDS")
    || text::eq_ignore_case(word, "EXISTS")
    || text::eq_ignore_case(word, "FALSE")
    || text::eq_ignore_case(word, "IN")
    || text::eq_ignore_case(word, "IS")
    || text::eq_ignore_case(word, "LIMIT")
    || text::eq_ignore_case(word, "MATCH")
    || text::eq_ignore_case(word, "MERGE")
    || text::eq_ignore_case(word, "NOT")
    || text::eq_ignore_case(word, "NULL")
    || text::eq_ignore_case(word, "ON")
    || text::eq_ignore_case(word, "OPTIONAL")
    || text::eq_ignore_case(word, "OR")
    || text::eq_ignore_case(word, "ORDER")
    || text::eq_ignore_case(word, "REMOVE")
    || text::eq_ignore_case(word, "RETURN")
    || text::eq_ignore_case(word, "SET")
    || text::eq_ignore_case(word, "SKIP")
    || text::eq_ignore_case(word, "STARTS")
    || text::eq_ignore_case(word, "THEN")
    || text::eq_ignore_case(word, "TRUE")
    || text::eq_ignore_case(word, "UNION")
    || text::eq_ignore_case(word, "UNWIND")
    || text::eq_ignore_case(word, "WHEN")
    || text::eq_ignore_case(word, "WHERE")
    || text::eq_ignore_case(word, "WITH")
    || text::eq_ignore_case(word, "XOR")
    || text::eq_ignore_case(word, "YIELD")
}

spec fn opt_expr_view(o: Option<Expr>) -> Option<ExprView> {
    match o {
        Some(x) => Some(x@),
        None => None,
    }
}

spec fn opt_box_view(o: Option<Box<Expr>>) -> Option<Box<ExprView>> {
    match o {
        Some(x) => Some(Box::new(x@)),
        None => None,
    }
}

spec fn opt_name_view(o: Option<String>) -> Option<Seq<char>> {
    match o {
        Some(x) => Some(x@),
        None => None,
    }
}

spec fn opt_at_ref_view(o: Option<AtRef>) -> Option<AtRefView> {
    match o {
        Some(x) => Some(x@),
        None => None,
    }
}

/// Whether parsing came to what the grammar says.
spec fn gives_expr(r: Result<Expr, ParseError>, q: nat, model: Step<ExprView>) -> bool {
    match r {
        Ok(x) => model == Ok::<_, ParseErrorView>((x@, q)),
        Err(e) => model == Err::<(ExprView, nat), _>(e@),
    }
}

spec fn gives_opt_expr(
    r: Result<Option<Expr>, ParseError>,
    q: nat,
    model: Step<Option<ExprView>>,
) -> bool {
    match r {
        Ok(x) => model == Ok::<_, ParseErrorView>((opt_expr_view(x), q)),
        Err(e) => model == Err::<(Option<ExprView>, nat), _>(e@),
    }
}

spec fn gives_opt_box(
    r: Result<Option<Box<Expr>>, ParseError>,
    q: nat,
    model: Step<Option<Box<ExprView>>>,
) -> bool {
    match r {
        Ok(x) => model == Ok::<_, ParseErrorView>((opt_box_view(x), q)),
        Err(e) => model == Err::<(Option<Box<ExprView>>, nat), _>(e@),
    }
}

spec fn gives_exprs(r: Result<Vec<Expr>, ParseError>, q: nat, model: Step<Seq<ExprView>>) -> bool {
    match r {
        Ok(x) => model == Ok::<_, ParseErrorView>((ast::exprs_view(x@), q)),
        Err(e) => model == Err::<(Seq<ExprView>, nat), _>(e@),
    }
}

spec fn gives_whens(
    r: Result<Vec<(Expr, Expr)>, ParseError>,
    q: nat,
    model: Step<Seq<(ExprView, ExprView)>>,
) -> bool {
    match r {
        Ok(x) => model == Ok::<_, ParseErrorView>((ast::expr_exprs_view(x@), q)),
        Err(e) => model == Err::<(Seq<(ExprView, ExprView)>, nat), _>(e@),
    }
}

spec fn gives_entries(
    r: Result<Vec<(String, Expr)>, ParseError>,
    q: nat,
    model: Step<Seq<(Seq<char>, ExprView)>>,
) -> bool {
    match r {
        Ok(x) => model == Ok::<_, ParseErrorView>((ast::string_exprs_view(x@), q)),
        Err(e) => model == Err::<(Seq<(Seq<char>, ExprView)>, nat), _>(e@),
    }
}

spec fn gives_name(r: Result<String, ParseError>, q: nat, model: Step<Seq<char>>) -> bool {
    match r {
        Ok(x) => model == Ok::<_, ParseErrorView>((x@, q)),
        Err(e) => model == Err::<(Seq<char>, nat), _>(e@),
    }
}

spec fn gives_opt_name(
    r: Result<Option<String>, ParseError>,
    q: nat,
    model: Step<Option<Seq<char>>>,
) -> bool {
    match r {
        Ok(x) => model == Ok::<_, ParseErrorView>((opt_name_view(x), q)),
        Err(e) => model == Err::<(Option<Seq<char>>, nat), _>(e@),
    }
}

spec fn gives_names(
    r: Result<Vec<String>, ParseError>,
    q: nat,
    model: Step<Seq<Seq<char>>>,
) -> bool {
    match r {
        Ok(x) => model == Ok::<_, ParseErrorView>((text::strings_view(x@), q)),
        Err(e) => model == Err::<(Seq<Seq<char>>, nat), _>(e@),
    }
}

spec fn gives_pattern(
    r: Result<PathPattern, ParseError>,
    q: nat,
    model: Step<PathPatternView>,
) -> bool {
    match r {
        Ok(x) => model == Ok::<_, ParseErrorView>((x@, q)),
        Err(e) => model == Err::<(PathPatternView, nat), _>(e@),
    }
}

spec fn gives_patterns(
    r: Result<Vec<PathPattern>, ParseError>,
    q: nat,
    model: Step<Seq<PathPatternView>>,
) -> bool {
    match r {
        Ok(x) => model == Ok::<_, ParseErrorView>((ast::path_patterns_view(x@), q)),
        Err(e) => model == Err::<(Seq<PathPatternView>, nat), _>(e@),
    }
}

spec fn gives_steps(
    r: Result<Vec<(RelPattern, NodePattern)>, ParseError>,
    q: nat,
    model: Step<Seq<(RelPatternView, NodePatternView)>>,
) -> bool {
    match r {
        Ok(x) => model == Ok::<_, ParseErrorView>((ast::rel_pattern_node_patterns_view(x@), q)),
        Err(e) => model == Err::<(Seq<(RelPatternView, NodePatternView)>, nat), _>(e@),
    }
}

spec fn gives_node(
    r: Result<NodePattern, ParseError>,
    q: nat,
    model: Step<NodePatternView>,
) -> bool {
    match r {
        Ok(x) => model == Ok::<_, ParseErrorView>((x@, q)),
        Err(e) => model == Err::<(NodePatternView, nat), _>(e@),
    }
}

spec fn gives_rel(r: Result<RelPattern, ParseError>, q: nat, model: Step<RelPatternView>) -> bool {
    match r {
        Ok(x) => model == Ok::<_, ParseErrorView>((x@, q)),
        Err(e) => model == Err::<(RelPatternView, nat), _>(e@),
    }
}

spec fn gives_detail(r: Result<Detail, ParseError>, q: nat, model: Step<RelDetail>) -> bool {
    match r {
        Ok(x) => model == Ok::<_, ParseErrorView>((x@, q)),
        Err(e) => model == Err::<(RelDetail, nat), _>(e@),
    }
}

spec fn gives_bound(r: Result<Option<u64>, ParseError>, q: nat, model: Step<Option<u64>>) -> bool {
    match r {
        Ok(x) => model == Ok::<_, ParseErrorView>((x, q)),
        Err(e) => model == Err::<(Option<u64>, nat), _>(e@),
    }
}

spec fn gives_length(r: Result<VarLength, ParseError>, q: nat, model: Step<VarLength>) -> bool {
    match r {
        Ok(x) => model == Ok::<_, ParseErrorView>((x, q)),
        Err(e) => model == Err::<(VarLength, nat), _>(e@),
    }
}

spec fn gives_opt_length(
    r: Result<Option<VarLength>, ParseError>,
    q: nat,
    model: Step<Option<VarLength>>,
) -> bool {
    match r {
        Ok(x) => model == Ok::<_, ParseErrorView>((x, q)),
        Err(e) => model == Err::<(Option<VarLength>, nat), _>(e@),
    }
}

spec fn gives_set_item(r: Result<SetItem, ParseError>, q: nat, model: Step<SetItemView>) -> bool {
    match r {
        Ok(x) => model == Ok::<_, ParseErrorView>((x@, q)),
        Err(e) => model == Err::<(SetItemView, nat), _>(e@),
    }
}

spec fn gives_remove_item(
    r: Result<RemoveItem, ParseError>,
    q: nat,
    model: Step<RemoveItemView>,
) -> bool {
    match r {
        Ok(x) => model == Ok::<_, ParseErrorView>((x@, q)),
        Err(e) => model == Err::<(RemoveItemView, nat), _>(e@),
    }
}

spec fn gives_remove_items(
    r: Result<Vec<RemoveItem>, ParseError>,
    q: nat,
    model: Step<Seq<RemoveItemView>>,
) -> bool {
    match r {
        Ok(x) => model == Ok::<_, ParseErrorView>((ast::remove_items_view(x@), q)),
        Err(e) => model == Err::<(Seq<RemoveItemView>, nat), _>(e@),
    }
}

spec fn gives_item(
    r: Result<ProjectionItem, ParseError>,
    q: nat,
    model: Step<ProjectionItemView>,
) -> bool {
    match r {
        Ok(x) => model == Ok::<_, ParseErrorView>((x@, q)),
        Err(e) => model == Err::<(ProjectionItemView, nat), _>(e@),
    }
}

spec fn gives_items(
    r: Result<Vec<ProjectionItem>, ParseError>,
    q: nat,
    model: Step<Seq<ProjectionItemView>>,
) -> bool {
    match r {
        Ok(x) => model == Ok::<_, ParseErrorView>((ast::projection_items_view(x@), q)),
        Err(e) => model == Err::<(Seq<ProjectionItemView>, nat), _>(e@),
    }
}

spec fn gives_sort_items(
    r: Result<Vec<SortItem>, ParseError>,
    q: nat,
    model: Step<Seq<SortItemView>>,
) -> bool {
    match r {
        Ok(x) => model == Ok::<_, ParseErrorView>((ast::sort_items_view(x@), q)),
        Err(e) => model == Err::<(Seq<SortItemView>, nat), _>(e@),
    }
}

spec fn gives_at_ref(
    r: Result<Option<AtRef>, ParseError>,
    q: nat,
    model: Step<Option<AtRefView>>,
) -> bool {
    match r {
        Ok(x) => model == Ok::<_, ParseErrorView>((opt_at_ref_view(x), q)),
        Err(e) => model == Err::<(Option<AtRefView>, nat), _>(e@),
    }
}

spec fn gives_projection(
    r: Result<Projection, ParseError>,
    q: nat,
    model: Step<ProjectionView>,
) -> bool {
    match r {
        Ok(x) => model == Ok::<_, ParseErrorView>((x@, q)),
        Err(e) => model == Err::<(ProjectionView, nat), _>(e@),
    }
}

spec fn gives_clause(r: Result<Clause, ParseError>, q: nat, model: Step<ClauseView>) -> bool {
    match r {
        Ok(x) => model == Ok::<_, ParseErrorView>((x@, q)),
        Err(e) => model == Err::<(ClauseView, nat), _>(e@),
    }
}

spec fn gives_clauses(
    r: Result<Vec<Clause>, ParseError>,
    q: nat,
    model: Step<Seq<ClauseView>>,
) -> bool {
    match r {
        Ok(x) => model == Ok::<_, ParseErrorView>((ast::clauses_view(x@), q)),
        Err(e) => model == Err::<(Seq<ClauseView>, nat), _>(e@),
    }
}

spec fn gives_query(r: Result<Query, ParseError>, q: nat, model: Step<QueryView>) -> bool {
    match r {
        Ok(x) => model == Ok::<_, ParseErrorView>((x@, q)),
        Err(e) => model == Err::<(QueryView, nat), _>(e@),
    }
}

spec fn gives_pos(r: Result<(), ParseError>, q: nat, model: Result<nat, ParseErrorView>) -> bool {
    match r {
        Ok(_) => model == Ok::<_, ParseErrorView>(q),
        Err(e) => model == Err::<nat, _>(e@),
    }
}

spec fn actions_view(on_create: Seq<SetItem>, on_match: Seq<SetItem>) -> Actions {
    Actions { on_create: ast::set_items_view(on_create), on_match: ast::set_items_view(on_match) }
}

fn quantifier_kind(name: &str) -> (r: Option<QuantifierKind>)
    ensures
        r == grammar::quantifier_named(name@),
{
    if text::eq_ignore_case(name, "all") {
        Some(QuantifierKind::All)
    } else if text::eq_ignore_case(name, "any") {
        Some(QuantifierKind::Any)
    } else if text::eq_ignore_case(name, "none") {
        Some(QuantifierKind::NoneOf)
    } else if text::eq_ignore_case(name, "single") {
        Some(QuantifierKind::Single)
    } else {
        None
    }
}

fn boxed(o: Option<Expr>) -> (r: Option<Box<Expr>>)
    ensures
        opt_box_view(r) == grammar::boxed_expr(opt_expr_view(o)),
{
    match o {
        Some(e) => Some(Box::new(e)),
        None => None,
    }
}

/// The tokens of a query and a position in them.
struct Parser<'a> {
    /// The query text the tokens were lexed from, for diagnostics that quote raw
    /// source.
    source: &'a str,
    tokens: Vec<Token>,
    pos: usize,
}

impl<'a> Parser<'a> {
    spec fn ts(&self) -> Seq<TokenView> {
        lex::tokens_view(self.tokens@)
    }

    /// Whether the position is one of a token, and the last token is the end.
    spec fn ready(&self) -> bool {
        &&& self.pos < self.tokens@.len()
        &&& self.ts().last().kind == TokenKindView::Eof
    }

    /// Whether this is `before`, at the same or a later position.
    spec fn follows(&self, before: &Self) -> bool {
        &&& self.ready()
        &&& self.tokens == before.tokens
        &&& self.source == before.source
        &&& self.pos >= before.pos
    }

    // --- Tokens -----------------------------------------------------------------------------------

    fn ahead(&self, n: usize) -> (r: &Token)
        requires
            self.ready(),
        ensures
            r@ == grammar::tok(self.ts(), (self.pos + n) as nat),
    {
        let at: usize = if n < self.tokens.len() - self.pos {
            self.pos + n
        } else {
            self.tokens.len() - 1
        };
        assert(self.ts()[at as int] == self.tokens@[at as int]@);
        &self.tokens[at]
    }

    fn peek(&self) -> (r: &Token)
        requires
            self.ready(),
        ensures
            r@ == grammar::tok(self.ts(), self.pos as nat),
    {
        self.ahead(0)
    }

    fn span(&self) -> (r: Span)
        requires
            self.ready(),
        ensures
            r == grammar::span_of(self.ts(), self.pos as nat),
    {
        self.peek().span
    }

    fn prev_span(&self) -> (r: Span)
        requires
            self.ready(),
        ensures
            r == grammar::span_before(self.ts(), self.pos as nat),
    {
        let at: usize = if self.pos == 0 {
            0
        } else {
            self.pos - 1
        };
        assert(self.ts()[at as int] == self.tokens@[at as int]@);
        self.tokens[at].span
    }

    fn bump(&mut self)
        requires
            old(self).ready(),
        ensures
            final(self).follows(old(self)),
            final(self).pos == grammar::next(old(self).ts(), old(self).pos as nat),
            grammar::kind_at(
                old(self).ts(),
                old(self).pos as nat,
            ) != TokenKindView::Eof ==> final(self).pos
            == old(self).pos + 1,
    {
        if self.pos < self.tokens.len() - 1 {
            self.pos += 1;
        }
    }

    fn at(&self, kind: &TokenKind) -> (r: bool)
        requires
            self.ready(),
            kind@.is_mark(),
        ensures
            r == (grammar::kind_at(self.ts(), self.pos as nat) == kind@),
    {
        self.peek().kind.is(kind)
    }

    fn at_ahead(&self, n: usize, kind: &TokenKind) -> (r: bool)
        requires
            self.ready(),
            kind@.is_mark(),
        ensures
            r == (grammar::kind_at(self.ts(), (self.pos + n) as nat) == kind@),
    {
        self.ahead(n).kind.is(kind)
    }

    fn name_ahead(&self, n: usize) -> (r: bool)
        requires
            self.ready(),
        ensures
            r == grammar::is_name(self.ts(), (self.pos + n) as nat),
    {
        matches!(self.ahead(n).kind, TokenKind::Ident { .. })
    }

    fn eat(&mut self, kind: &TokenKind) -> (r: bool)
        requires
            old(self).ready(),
            kind@.is_mark(),
        ensures
            final(self).follows(old(self)),
            r == (grammar::kind_at(old(self).ts(), old(self).pos as nat) == kind@),
            final(self).pos == if r {
                grammar::next(old(self).ts(), old(self).pos as nat)
            } else {
                old(self).pos as nat
            },
            r && kind@ != TokenKindView::Eof ==> final(self).pos == old(self).pos + 1,
    {
        if self.at(kind) {
            self.bump();
            true
        } else {
            false
        }
    }

    fn unexpected(&self, expected: &str) -> (r: ParseError)
        requires
            self.ready(),
        ensures
            r@ == grammar::unexpected(self.ts(), self.pos as nat, expected@),
    {
        ParseError::Unexpected {
            expected: expected.to_owned(),
            found: self.peek().kind.describe(),
            span: self.span(),
        }
    }

    fn expect(&mut self, kind: &TokenKind, expected: &str) -> (r: Result<(), ParseError>)
        requires
            old(self).ready(),
            kind@.is_mark(),
        ensures
            final(self).follows(old(self)),
            gives_pos(
                r,
                final(self).pos as nat,
                grammar::expect_at(old(self).ts(), old(self).pos as nat, kind@, expected@),
            ),
            r is Ok && kind@ != TokenKindView::Eof ==> final(self).pos == old(self).pos + 1,
    {
        if self.eat(kind) {
            Ok(())
        } else {
            Err(self.unexpected(expected))
        }
    }

    /// Non-backquoted keyword check, case-insensitive, without consuming.
    fn at_kw_ahead(&self, n: usize, kw: &str) -> (r: bool)
        requires
            self.ready(),
        ensures
            r == grammar::is_kw(self.ts(), (self.pos + n) as nat, kw@),
    {
        match &self.ahead(n).kind {
            TokenKind::Ident { name, backquoted } => !*backquoted && text::eq_ignore_case(
                name.as_str(),
                kw,
            ),
            _ => false,
        }
    }

    fn at_kw(&self, kw: &str) -> (r: bool)
        requires
            self.ready(),
        ensures
            r == grammar::is_kw(self.ts(), self.pos as nat, kw@),
    {
        self.at_kw_ahead(0, kw)
    }

    fn at_kw2(&self, first: &str, second: &str) -> (r: bool)
        requires
            self.ready(),
        ensures
            r == grammar::is_kw2(self.ts(), self.pos as nat, first@, second@),
    {
        self.at_kw(first) && self.at_kw_ahead(1, second)
    }

    fn eat_kw(&mut self, kw: &str) -> (r: bool)
        requires
            old(self).ready(),
        ensures
            final(self).follows(old(self)),
            r == grammar::is_kw(old(self).ts(), old(self).pos as nat, kw@),
            final(self).pos == if r {
                grammar::next(old(self).ts(), old(self).pos as nat)
            } else {
                old(self).pos as nat
            },
            r ==> final(self).pos == old(self).pos + 1,
    {
        if self.at_kw(kw) {
            self.bump();
            true
        } else {
            false
        }
    }

    fn expect_kw(&mut self, kw: &str) -> (r: Result<(), ParseError>)
        requires
            old(self).ready(),
        ensures
            final(self).follows(old(self)),
            gives_pos(
                r,
                final(self).pos as nat,
                grammar::expect_kw_at(old(self).ts(), old(self).pos as nat, kw@),
            ),
    {
        if self.eat_kw(kw) {
            Ok(())
        } else {
            Err(self.unexpected(kw))
        }
    }

    /// Any name, keyword or not. For positions where openCypher leaves keywords
    /// legal: labels, relationship types, property names, map keys, procedure
    /// names.
    fn any_name(&mut self, expected: &str) -> (r: Result<String, ParseError>)
        requires
            old(self).ready(),
        ensures
            final(self).follows(old(self)),
            gives_name(
                r,
                final(self).pos as nat,
                grammar::name_at(old(self).ts(), old(self).pos as nat, expected@),
            ),
            r is Ok ==> final(self).pos > old(self).pos,
    {
        match &self.peek().kind {
            TokenKind::Ident { name, .. } => {
                let name = name.clone();
                self.bump();
                Ok(name)
            },
            _ => Err(self.unexpected(expected)),
        }
    }

    /// A name in a binding position: reserved words rejected unless backquoted.
    fn binding_name(
        &mut self,
        expected: &str,
        usage: &'static str,
    ) -> (r: Result<String, ParseError>)
        requires
            old(self).ready(),
        ensures
            final(self).follows(old(self)),
            gives_name(
                r,
                final(self).pos as nat,
                grammar::binding_at(old(self).ts(), old(self).pos as nat, expected@, usage@),
            ),
            r is Ok ==> final(self).pos > old(self).pos,
    {
        match &self.peek().kind {
            TokenKind::Ident { name, backquoted } => {
                let name = name.clone();
                if !*backquoted && is_reserved(name.as_str()) {
                    return Err(ParseError::ReservedWord { word: name, usage, span: self.span() });
                }
                self.bump();
                Ok(name)
            },
            _ => Err(self.unexpected(expected)),
        }
    }

    // --- Scans ------------------------------------------------------------------------------------

    /// Offset of the token that closes the group opened at `offset` (tracking
    /// nesting of the same delimiter kind), or `None` if input ends first.
    fn matching_close(&self, offset: usize, open: &TokenKind, close: &TokenKind) -> (r: Option<
        usize,
        >)
        requires
            self.ready(),
            open@.is_mark(),
            close@.is_mark(),
            open@ != TokenKindView::Eof,
            close@ != TokenKindView::Eof,
            grammar::kind_at(self.ts(), (self.pos + offset) as nat) == open@,
        ensures
            grammar::close_of(self.ts(), (self.pos + offset) as nat, open@, close@, 0) == match r {
                Some(n) => Some((self.pos + n) as nat),
                None => None::<nat>,
            },
            r is Some ==> self.pos + r->0 < self.tokens@.len() - 1,
    {
        let ghost ts = self.ts();
        let mut at: usize = offset;
        let mut depth: usize = 0;
        loop
            invariant
                self.ready(),
                ts == self.ts(),
                open@.is_mark(),
                close@.is_mark(),
                open@ != TokenKindView::Eof,
                close@ != TokenKindView::Eof,
                depth <= at - offset,
                offset <= at,
                depth == 0 ==> at == offset && grammar::kind_at(
                    ts,
                    (self.pos + at) as nat,
                ) == open@,
                self.pos + at < self.tokens.len(),
                grammar::close_of(ts, (self.pos + offset) as nat, open@, close@, 0) == grammar::close_of(
                    ts,
                    (self.pos + at) as nat,
                    open@,
                    close@,
                    depth as nat,
                ),
            decreases self.tokens.len() - self.pos - at,
        {
            if self.at_ahead(at, &TokenKind::Eof) {
                return None;
            }
            if self.at_ahead(at, open) {
                depth += 1;
            } else if self.at_ahead(at, close) {
                if depth == 1 {
                    return Some(at);
                }
                depth -= 1;
            }
            at += 1;
        }
    }

    fn connector_follows(&self, close: usize) -> (r: bool)
        requires
            self.ready(),
            self.pos + close < self.tokens.len() - 1,
        ensures
            r == grammar::connector_follows(self.ts(), (self.pos + close) as nat),
    {
        match &self.ahead(close + 1).kind {
            TokenKind::LArrow => true,
            TokenKind::Minus => {
                assert(self.pos + close + 1 < self.tokens.len() - 1);
                match &self.ahead(close + 2).kind {
                    TokenKind::Arrow => true,
                    TokenKind::Minus => {
                        assert(self.pos + close + 2 < self.tokens.len() - 1);
                        self.at_ahead(close + 3, &TokenKind::LParen)
                    },
                    TokenKind::LBracket => match self.matching_close(
                        close + 2,
                        &TokenKind::LBracket,
                        &TokenKind::RBracket,
                    ) {
                        Some(end) => {
                            assert(self.pos + end < self.tokens.len() - 1);
                            self.at_ahead(end + 1, &TokenKind::Minus) || self.at_ahead(
                                end + 1,
                                &TokenKind::Arrow,
                            )
                        },
                        None => false,
                    },
                    _ => false,
                }
            },
            _ => false,
        }
    }

    /// Do the tokens inside the group closing at `close` match the node pattern
    /// grammar `[variable] (':' label)* [properties]`?
    fn node_shaped_interior(&self, close: usize) -> (r: bool)
        requires
            self.ready(),
            self.pos + close < self.tokens.len() - 1,
            grammar::kind_at(self.ts(), self.pos as nat) == TokenKindView::LParen,
        ensures
            r == grammar::is_node_shaped(self.ts(), self.pos as nat, (self.pos + close) as nat),
    {
        let ghost ts = self.ts();
        let ghost p = self.pos as nat;
        let mut at: usize = 1;
        if self.name_ahead(at) {
            at += 1;
        }
        let ghost first = (p + at) as nat;
        while self.at_ahead(at, &TokenKind::Colon) && self.name_ahead(at + 1)
            invariant
                self.ready(),
                ts == self.ts(),
                p == self.pos,
                self.pos + at < self.tokens.len(),
                grammar::labels_end(ts, first) == grammar::labels_end(ts, (p + at) as nat),
            decreases self.tokens.len() - self.pos - at,
        {
            assert(self.pos + at + 1 < self.tokens.len() - 1);
            at += 2;
        }
        match &self.ahead(at).kind {
            TokenKind::Parameter(_) => at + 1 == close,
            TokenKind::LBrace => match self.matching_close(
                at,
                &TokenKind::LBrace,
                &TokenKind::RBrace,
            ) {
                Some(end) => {
                    assert(self.pos + end < self.tokens.len() - 1);
                    end + 1 == close
                },
                None => false,
            },
            _ => at == close,
        }
    }

    /// With the cursor on `(`: is this group a node pattern followed by a
    /// relationship connector? Linear in the distance to the close paren.
    fn paren_group_starts_pattern(&self) -> (r: bool)
        requires
            self.ready(),
            grammar::kind_at(self.ts(), self.pos as nat) == TokenKindView::LParen,
        ensures
            r == grammar::starts_pattern(self.ts(), self.pos as nat),
    {
        match self.matching_close(0, &TokenKind::LParen, &TokenKind::RParen) {
            Some(close) => self.connector_follows(close) && self.node_shaped_interior(close),
            None => false,
        }
    }

    fn at_quantifier_body(&self) -> (r: bool)
        requires
            self.ready(),
        ensures
            r == grammar::quantifier_follows(self.ts(), self.pos as nat),
    {
        self.at_ahead(1, &TokenKind::LParen) && self.name_ahead(2) && self.at_kw_ahead(3, "IN")
    }

    fn at_reduce_body(&self) -> (r: bool)
        requires
            self.ready(),
        ensures
            r == grammar::reduce_follows(self.ts(), self.pos as nat),
    {
        self.at_ahead(1, &TokenKind::LParen) && self.name_ahead(2) && self.at_ahead(
            3,
            &TokenKind::Eq,
        )
    }

    /// How many segments the name at the cursor has, where it ends in `(`.
    fn called_segments(&self) -> (r: Option<usize>)
        requires
            self.ready(),
        ensures
            grammar::call_segments(self.ts(), self.pos as nat, 0) == match r {
                Some(n) => Some(n as nat),
                None => None::<nat>,
            },
            r is Some ==> self.pos + 2 * r->0 < self.tokens@.len(),
            r is Some ==> forall|i: int|
            0 <= i < r->0 ==> #[trigger] grammar::is_name(self.ts(), (self.pos + 2 * i) as nat),
            r is Some ==> r->0 > 0,
    {
        let ghost ts = self.ts();
        let mut n: usize = 0;
        loop
            invariant
                self.ready(),
                ts == self.ts(),
                self.pos + 2 * n < self.tokens.len(),
                grammar::call_segments(ts, self.pos as nat, 0) == grammar::call_segments(
                    ts,
                    self.pos as nat,
                    n as nat,
                ),
                forall|i: int| 0 <= i < n ==> #[trigger] grammar::is_name(ts, (self.pos + 2 * i) as nat),
            decreases self.tokens.len() - self.pos - 2 * n,
        {
            if !self.name_ahead(2 * n) {
                return None;
            }
            assert(self.pos + 2 * n < self.tokens.len() - 1);
            if self.at_ahead(2 * n + 1, &TokenKind::Dot) {
                assert(self.pos + 2 * n + 1 < self.tokens.len() - 1);
                n += 1;
            } else if self.at_ahead(2 * n + 1, &TokenKind::LParen) {
                assert(self.pos + 2 * n + 1 < self.tokens.len() - 1);
                return Some(n + 1);
            } else {
                return None;
            }
        }
    }

    /// The binary operator of a level at the cursor, which then moves behind it.
    fn eat_operator(&mut self, level: usize) -> (r: Option<BinaryOp>)
        requires
            old(self).ready(),
        ensures
            final(self).follows(old(self)),
            grammar::operator_at(old(self).ts(), old(self).pos as nat, level as nat) == match r {
                Some(op) => Some((op, final(self).pos as nat)),
                None => None::<(BinaryOp, nat)>,
            },
            r is Some ==> final(self).pos > old(self).pos,
            r is None ==> final(self).pos == old(self).pos,
    {
        if level == 1 {
            if self.eat_kw("OR") {
                return Some(BinaryOp::Or);
            }
        } else if level == 2 {
            if self.eat_kw("XOR") {
                return Some(BinaryOp::Xor);
            }
        } else if level == 3 {
            if self.eat_kw("AND") {
                return Some(BinaryOp::And);
            }
        } else if level == 5 {
            if self.eat(&TokenKind::Eq) {
                return Some(BinaryOp::Eq);
            } else if self.eat(&TokenKind::Ne) {
                return Some(BinaryOp::Ne);
            } else if self.eat(&TokenKind::Le) {
                return Some(BinaryOp::Le);
            } else if self.eat(&TokenKind::Ge) {
                return Some(BinaryOp::Ge);
            } else if self.eat(&TokenKind::Lt) {
                return Some(BinaryOp::Lt);
            } else if self.eat(&TokenKind::Gt) {
                return Some(BinaryOp::Gt);
            }
        } else if level == 6 {
            if self.eat(&TokenKind::RegexEq) {
                return Some(BinaryOp::RegexMatch);
            } else if self.eat_kw("IN") {
                return Some(BinaryOp::In);
            } else if self.at_kw2("STARTS", "WITH") {
                self.bump();
                self.bump();
                return Some(BinaryOp::StartsWith);
            } else if self.at_kw2("ENDS", "WITH") {
                self.bump();
                self.bump();
                return Some(BinaryOp::EndsWith);
            } else if self.eat_kw("CONTAINS") {
                return Some(BinaryOp::Contains);
            }
        } else if level == 7 {
            if self.eat(&TokenKind::Plus) {
                return Some(BinaryOp::Add);
            } else if self.eat(&TokenKind::Minus) {
                return Some(BinaryOp::Sub);
            }
        } else if level == 8 {
            if self.eat(&TokenKind::Star) {
                return Some(BinaryOp::Mul);
            } else if self.eat(&TokenKind::Slash) {
                return Some(BinaryOp::Div);
            } else if self.eat(&TokenKind::Percent) {
                return Some(BinaryOp::Mod);
            }
        } else if level == 9 {
            if self.eat(&TokenKind::Caret) {
                return Some(BinaryOp::Pow);
            }
        }
        None
    }

    // --- Expressions ------------------------------------------------------------------------------

    /// The single depth-guarded entry point for expression parsing. All nested
    /// expression positions (parentheses, arguments, list/map elements,
    /// comprehension bodies, index/slice operands) come back through here, so
    /// nesting depth is bounded by [`MAX_DEPTH`].
    ///
    /// Operator chains folded by loops nest the tree without recursing here; the
    /// total depth they can build is bounded separately by [`parse`].
    fn expression(&mut self, d: usize) -> (r: Result<Expr, ParseError>)
        requires
            old(self).ready(),
            d <= MAX_DEPTH,
        ensures
            final(self).follows(old(self)),
            gives_expr(
                r,
                final(self).pos as nat,
                grammar::expression_at(old(self).ts(), old(self).pos as nat, d as nat),
            ),
        decreases MAX_DEPTH - d, 0int,
    {
        if d >= MAX_DEPTH {
            return Err(ParseError::RecursionLimit { limit: MAX_DEPTH, span: self.span() });
        }
        self.expr_level(d + 1, 1)
    }

    /// An expression of a level of precedence.
    fn expr_level(&mut self, d: usize, level: usize) -> (r: Result<Expr, ParseError>)
        requires
            old(self).ready(),
            1 <= level <= 10,
            1 <= d <= MAX_DEPTH,
        ensures
            final(self).follows(old(self)),
            gives_expr(
                r,
                final(self).pos as nat,
                grammar::level_at(old(self).ts(), old(self).pos as nat, d as nat, level as nat),
            ),
        decreases MAX_DEPTH - d, 40 - 2 * level,
    {
        if level == 4 {
            return self.expr_not(d);
        }
        if level == 10 {
            return self.expr_unary(d);
        }
        let mut lhs = match self.expr_level(d, level + 1) {
            Err(e) => {
                return Err(e);
            },
            Ok(x) => x,
        };
        let ghost ts = self.ts();
        let ghost model = grammar::chain_at(ts, lhs@, self.pos as nat, d as nat, level as nat);
        loop
            invariant
                self.follows(old(self)),
                ts == self.ts(),
                ts == old(self).ts(),
                1 <= level < 10,
                level != 4,
                1 <= d <= MAX_DEPTH,
                model == grammar::chain_at(ts, lhs@, self.pos as nat, d as nat, level as nat),
                grammar::level_at(ts, old(self).pos as nat, d as nat, level as nat) == model,
            decreases self.tokens.len() - self.pos,
        {
            let op = match self.eat_operator(level) {
                None => {
                    return Ok(lhs);
                },
                Some(op) => op,
            };
            let rhs = match self.expr_level(d, level + 1) {
                Err(e) => {
                    lhs.discard();
                    return Err(e);
                },
                Ok(x) => x,
            };
            let span = lhs.span().to(rhs.span());
            lhs = Expr::Binary { op, lhs: Box::new(lhs), rhs: Box::new(rhs), span };
        }
    }

    /// `NOT` chains are folded iteratively so adversarial `NOT NOT NOT ...`
    /// input cannot recurse.
    fn expr_not(&mut self, d: usize) -> (r: Result<Expr, ParseError>)
        requires
            old(self).ready(),
            1 <= d <= MAX_DEPTH,
        ensures
            final(self).follows(old(self)),
            gives_expr(
                r,
                final(self).pos as nat,
                grammar::level_at(old(self).ts(), old(self).pos as nat, d as nat, 4),
            ),
        decreases MAX_DEPTH - d, 31int,
    {
        let ghost ts = self.ts();
        let first: usize = self.pos;
        while self.at_kw("NOT")
            invariant
                self.follows(old(self)),
                ts == self.ts(),
                grammar::nots_end(ts, first as nat) == grammar::nots_end(ts, self.pos as nat),
            decreases self.tokens.len() - self.pos,
        {
            self.bump();
        }
        let last: usize = self.pos;
        let mut e = match self.expr_level(d, 5) {
            Err(e) => {
                return Err(e);
            },
            Ok(x) => x,
        };
        let ghost inner = e@;
        let mut i: usize = last;
        while i > first
            invariant
                self.follows(old(self)),
                ts == self.ts(),
                first <= i <= last <= self.pos,
                e@ == grammar::negated(ts, i as nat, last as nat, inner),
            decreases i,
        {
            i -= 1;
            assert(ts[i as int] == self.tokens@[i as int]@);
            let span = self.tokens[i].span.to(e.span());
            e = Expr::Unary { op: UnaryOp::Not, operand: Box::new(e), span };
        }
        Ok(e)
    }

    /// Prefix `+`/`-` chains are folded iteratively so `----5` cannot recurse.
    ///
    /// openCypher's smallest integer: a magnitude of exactly 2^63 only fits an
    /// integer when negated, so the innermost unary minus folds into the
    /// literal. Folding is token-level, so `- 9223372036854775808` folds too.
    fn expr_unary(&mut self, d: usize) -> (r: Result<Expr, ParseError>)
        requires
            old(self).ready(),
            1 <= d <= MAX_DEPTH,
        ensures
            final(self).follows(old(self)),
            gives_expr(
                r,
                final(self).pos as nat,
                grammar::unary_at(old(self).ts(), old(self).pos as nat, d as nat),
            ),
        decreases MAX_DEPTH - d, 12int,
    {
        let ghost ts = self.ts();
        let first: usize = self.pos;
        while self.at(&TokenKind::Minus) || self.at(&TokenKind::Plus)
            invariant
                self.follows(old(self)),
                ts == self.ts(),
                first <= self.pos,
                grammar::signs_end(ts, first as nat) == grammar::signs_end(ts, self.pos as nat),
            decreases self.tokens.len() - self.pos,
        {
            self.bump();
        }
        let end: usize = self.pos;
        let mut last: usize = end;
        let smallest = matches!(
            self.peek().kind,
            TokenKind::IntegerTooLarge(0x8000_0000_0000_0000)
        );
        if first < end {
            assert(ts[end - 1] == self.tokens@[end - 1]@);
        }
        let mut e = if smallest && first < end && matches!(
            self.tokens[end - 1].kind,
            TokenKind::Minus
        ) {
            let span = self.prev_span().to(self.span());
            self.bump();
            last = end - 1;
            let e = match self.expr_postfix_from(
                Expr::Literal { value: Literal::Integer(i64::MIN), span },
                d,
            ) {
                Err(e) => {
                    return Err(e);
                },
                Ok(x) => x,
            };
            e
        } else {
            let atom = match self.expr_atom(d) {
                Err(e) => {
                    return Err(e);
                },
                Ok(x) => x,
            };
            let e = match self.expr_postfix_from(atom, d) {
                Err(e) => {
                    return Err(e);
                },
                Ok(x) => x,
            };
            e
        };
        let ghost inner = e@;
        let mut i: usize = last;
        while i > first
            invariant
                self.follows(old(self)),
                ts == self.ts(),
                first <= i <= last <= self.pos,
                e@ == grammar::signed(ts, i as nat, last as nat, inner),
            decreases i,
        {
            i -= 1;
            assert(ts[i as int] == self.tokens@[i as int]@);
            let op = if matches!(self.tokens[i].kind, TokenKind::Minus) {
                UnaryOp::Minus
            } else {
                UnaryOp::Plus
            };
            let span = self.tokens[i].span.to(e.span());
            e = Expr::Unary { op, operand: Box::new(e), span };
        }
        Ok(e)
    }

    /// The postfix loop (property access, indexing/slicing, `IS [NOT] NULL`)
    /// applied to an already-parsed head expression.
    fn expr_postfix_from(&mut self, head: Expr, d: usize) -> (r: Result<Expr, ParseError>)
        requires
            old(self).ready(),
            1 <= d <= MAX_DEPTH,
        ensures
            final(self).follows(old(self)),
            gives_expr(
                r,
                final(self).pos as nat,
                grammar::postfix_at(old(self).ts(), head@, old(self).pos as nat, d as nat),
            ),
        decreases MAX_DEPTH - d, 11int,
    {
        let mut e = head;
        let ghost ts = self.ts();
        let ghost model = grammar::postfix_at(ts, e@, self.pos as nat, d as nat);
        loop
            invariant
                self.follows(old(self)),
                ts == self.ts(),
                1 <= d <= MAX_DEPTH,
                model == grammar::postfix_at(ts, head@, old(self).pos as nat, d as nat),
                model == grammar::postfix_at(ts, e@, self.pos as nat, d as nat),
            decreases self.tokens.len() - self.pos,
        {
            if self.eat(&TokenKind::Dot) {
                let end = self.span();
                let key = match self.any_name("a property name after '.'") {
                    Err(error) => {
                        e.discard();
                        return Err(error);
                    },
                    Ok(x) => x,
                };
                let span = e.span().to(end);
                e = Expr::Property { base: Box::new(e), key, span };
            } else if self.eat(&TokenKind::LBracket) {
                e = match self.index_or_slice(e, d) {
                    Err(e) => {
                        return Err(e);
                    },
                    Ok(x) => x,
                };
            } else if self.at_kw2("IS", "NULL") {
                let end = self.ahead(1).span;
                self.bump();
                self.bump();
                let span = e.span().to(end);
                e = Expr::IsNull { operand: Box::new(e), negated: false, span };
            } else if self.at_kw2("IS", "NOT") && self.at_kw_ahead(2, "NULL") {
                let end = self.ahead(2).span;
                self.bump();
                self.bump();
                self.bump();
                let span = e.span().to(end);
                e = Expr::IsNull { operand: Box::new(e), negated: true, span };
            } else {
                return Ok(e);
            }
        }
    }

    fn slice_end(&mut self, d: usize) -> (r: Result<Option<Box<Expr>>, ParseError>)
        requires
            old(self).ready(),
            1 <= d <= MAX_DEPTH,
        ensures
            final(self).follows(old(self)),
            gives_opt_box(
                r,
                final(self).pos as nat,
                grammar::slice_end_at(old(self).ts(), old(self).pos as nat, d as nat),
            ),
        decreases MAX_DEPTH - d, 1int,
    {
        if self.at(&TokenKind::RBracket) {
            return Ok(None);
        }
        let e = match self.expression(d) {
            Err(e) => {
                return Err(e);
            },
            Ok(x) => x,
        };
        Ok(Some(Box::new(e)))
    }

    /// After a consumed `[`: `[e]`, `[a..b]`, `[..b]`, `[a..]`, `[..]`.
    fn index_or_slice(&mut self, base: Expr, d: usize) -> (r: Result<Expr, ParseError>)
        requires
            old(self).ready(),
            1 <= d <= MAX_DEPTH,
        ensures
            final(self).follows(old(self)),
            gives_expr(
                r,
                final(self).pos as nat,
                grammar::bracket_at(old(self).ts(), base@, old(self).pos as nat, d as nat),
            ),
        decreases MAX_DEPTH - d, 7int,
    {
        if self.eat(&TokenKind::DotDot) {
            let to = match self.slice_end(d) {
                Err(e) => {
                    base.discard();
                    return Err(e);
                },
                Ok(x) => x,
            };
            let end = self.span();
            if let Err(e) = self.expect(&TokenKind::RBracket, "']' to close the slice") {
                teardown::discard_boxed(to);
                base.discard();
                return Err(e);
            }
            let span = base.span().to(end);
            return Ok(Expr::Slice { base: Box::new(base), from: None, to, span });
        }
        let first = match self.expression(d) {
            Err(e) => {
                base.discard();
                return Err(e);
            },
            Ok(x) => x,
        };
        if self.eat(&TokenKind::DotDot) {
            let to = match self.slice_end(d) {
                Err(e) => {
                    first.discard();
                    base.discard();
                    return Err(e);
                },
                Ok(x) => x,
            };
            let end = self.span();
            if let Err(e) = self.expect(&TokenKind::RBracket, "']' to close the slice") {
                teardown::discard_boxed(to);
                first.discard();
                base.discard();
                return Err(e);
            }
            let span = base.span().to(end);
            return Ok(
                Expr::Slice { base: Box::new(base), from: Some(Box::new(first)), to, span },
            );
        }
        let end = self.span();
        if let Err(e) = self.expect(&TokenKind::RBracket, "']' to close the index") {
            first.discard();
            base.discard();
            return Err(e);
        }
        let span = base.span().to(end);
        Ok(Expr::Index { base: Box::new(base), index: Box::new(first), span })
    }

    fn expr_atom(&mut self, d: usize) -> (r: Result<Expr, ParseError>)
        requires
            old(self).ready(),
            1 <= d <= MAX_DEPTH,
        ensures
            final(self).follows(old(self)),
            gives_expr(
                r,
                final(self).pos as nat,
                grammar::atom_at(old(self).ts(), old(self).pos as nat, d as nat),
            ),
        decreases MAX_DEPTH - d, 10int,
    {
        let span = self.span();
        match &self.peek().kind {
            TokenKind::Integer(n) => {
                let value = Literal::Integer(*n);
                self.bump();
                Ok(Expr::Literal { value, span })
            },
            // Not directly preceded by a foldable unary minus, so this
            // magnitude cannot fit an integer.
            TokenKind::IntegerTooLarge(magnitude) => {
                let message = text::join3(
                    "integer literal ",
                    text::decimal_text(*magnitude).as_str(),
                    " is out of range (integers span -9223372036854775808 to 9223372036854775807)",
                );
                Err(ParseError::Lex { message, span })
            },
            TokenKind::Float(bits) => {
                let value = Literal::Float(*bits);
                self.bump();
                Ok(Expr::Literal { value, span })
            },
            TokenKind::Str(s) => {
                let value = Literal::String(s.clone());
                self.bump();
                Ok(Expr::Literal { value, span })
            },
            TokenKind::Parameter(name) => {
                let name = name.clone();
                self.bump();
                Ok(Expr::Parameter { name, span })
            },
            TokenKind::LBracket => self.list_literal_or_comprehension(d),
            TokenKind::LBrace => self.map_literal(d),
            TokenKind::LParen => self.paren_expr_or_pattern_predicate(d),
            TokenKind::Ident { name, backquoted } => {
                let name = name.clone();
                let backquoted = *backquoted;
                self.expr_named(d, name, backquoted)
            },
            _ => Err(self.unexpected("an expression")),
        }
    }

    /// What a name opens.
    fn expr_named(&mut self, d: usize, name: String, backquoted: bool) -> (r: Result<
        Expr,
        ParseError,
        >)
        requires
            old(self).ready(),
            1 <= d <= MAX_DEPTH,
            grammar::kind_at(old(self).ts(), old(self).pos as nat) == (TokenKindView::Ident {
                    name: name@,
                    backquoted,
            }),
        ensures
            final(self).follows(old(self)),
            gives_expr(
                r,
                final(self).pos as nat,
                grammar::named_at(
                    old(self).ts(),
                    old(self).pos as nat,
                    d as nat,
                    name@,
                    backquoted,
                ),
            ),
        decreases MAX_DEPTH - d, 8int,
    {
        let span = self.span();
        if !backquoted {
            if text::eq_ignore_case(name.as_str(), "null") {
                self.bump();
                return Ok(Expr::Literal { value: Literal::Null, span });
            }
            if text::eq_ignore_case(name.as_str(), "true") {
                self.bump();
                return Ok(Expr::Literal { value: Literal::Boolean(true), span });
            }
            if text::eq_ignore_case(name.as_str(), "false") {
                self.bump();
                return Ok(Expr::Literal { value: Literal::Boolean(false), span });
            }
            if text::eq_ignore_case(name.as_str(), "case") {
                return self.case_expression(d);
            }
            // List-predicate quantifiers and reduce have their own argument
            // grammar, distinguished from a same-named function only when the
            // parenthesised body opens with that shape.
            if let Some(kind) = quantifier_kind(name.as_str()) {
                if self.at_quantifier_body() {
                    return self.quantifier(kind, d);
                }
            }
            if text::eq_ignore_case(name.as_str(), "reduce") && self.at_reduce_body() {
                return self.reduce_expression(d);
            }
        }
        self.variable_or_function_call(d, span)
    }

    /// `name(...)`, `ns.name(...)`, `count(*)`, `collect(DISTINCT x)` or a plain
    /// variable. Dotted segments become part of the function name only when the
    /// chain ends in `(`; otherwise the postfix loop treats them as property
    /// accesses.
    fn variable_or_function_call(&mut self, d: usize, span: Span) -> (r: Result<Expr, ParseError>)
        requires
            old(self).ready(),
            1 <= d <= MAX_DEPTH,
            span == grammar::span_of(old(self).ts(), old(self).pos as nat),
        ensures
            final(self).follows(old(self)),
            gives_expr(
                r,
                final(self).pos as nat,
                match grammar::call_segments(old(self).ts(), old(self).pos as nat, 0) {
                    Some(n) => grammar::call_at(old(self).ts(), old(self).pos as nat, d as nat, n),
                    None => match grammar::binding_at(
                        old(self).ts(),
                        old(self).pos as nat,
                        "a variable"@,
                        "a variable"@,
                    ) {
                        Err(e) => Err(e),
                        Ok((name, q)) => Ok((ExprView::Variable { name, span }, q)),
                    },
                },
            ),
        decreases MAX_DEPTH - d, 7int, 1int,
    {
        match self.called_segments() {
            Some(n) => self.function_call(n, d),
            None => {
                let name = match self.binding_name("a variable", "a variable") {
                    Err(e) => {
                        return Err(e);
                    },
                    Ok(x) => x,
                };
                Ok(Expr::Variable { name, span })
            },
        }
    }

    /// The segments of a function's name and the parenthesis behind them.
    fn call_name(&mut self, segments: usize) -> (r: Vec<String>)
        requires
            old(self).ready(),
            old(self).pos + 2 * segments < old(self).tokens@.len(),
            forall|i: int|
            0 <= i < segments ==> #[trigger] grammar::is_name(
                old(self).ts(),
                (old(self).pos + 2 * i) as nat,
            ),
        ensures
            final(self).follows(old(self)),
            final(self).pos == old(self).pos + 2 * segments,
            text::strings_view(r@) == grammar::segments_at(
                old(self).ts(),
                old(self).pos as nat,
                segments as nat,
            ),
    {
        let ghost ts = self.ts();
        let ghost p = self.pos as nat;
        let mut out: Vec<String> = Vec::new();
        let mut i: usize = 0;
        while i < segments
            invariant
                self.follows(old(self)),
                ts == self.ts(),
                ts == old(self).ts(),
                p == old(self).pos,
                i <= segments,
                p + 2 * segments < self.tokens.len(),
                self.pos == p + 2 * i,
                out@.len() == i,
                forall|k: int|
                0 <= k < i ==> (#[trigger] out@[k])@ == grammar::name_in(
                    grammar::kind_at(ts, (p + 2 * k) as nat),
                ),
            decreases segments - i,
        {
            let name = match &self.peek().kind {
                TokenKind::Ident { name, .. } => name.clone(),
                _ => String::new(),
            };
            out.push(name);
            self.pos += 2;
            i += 1;
        }
        assert(text::strings_view(out@) =~= grammar::segments_at(ts, p, segments as nat));
        out
    }

    fn function_call(&mut self, segments: usize, d: usize) -> (r: Result<Expr, ParseError>)
        requires
            old(self).ready(),
            1 <= d <= MAX_DEPTH,
            old(self).pos + 2 * segments < old(self).tokens@.len(),
            forall|i: int|
            0 <= i < segments ==> #[trigger] grammar::is_name(
                old(self).ts(),
                (old(self).pos + 2 * i) as nat,
            ),
        ensures
            final(self).follows(old(self)),
            gives_expr(
                r,
                final(self).pos as nat,
                grammar::call_at(old(self).ts(), old(self).pos as nat, d as nat, segments as nat),
            ),
        decreases MAX_DEPTH - d, 7int, 0int,
    {
        let start = self.span();
        let name = self.call_name(segments);
        let mut distinct = false;
        let mut star = false;
        let mut args: Vec<Expr> = Vec::new();
        assert(ast::exprs_view(args@) =~= seq![]);
        if self.eat(&TokenKind::Star) {
            star = true;
        } else if !self.at(&TokenKind::RParen) {
            distinct = self.eat_kw("DISTINCT");
            args = match self.expressions(d) {
                Err(e) => {
                    teardown::discard_all(args);
                    return Err(e);
                },
                Ok(x) => x,
            };
        }
        let end = self.span();
        if let Err(e) = self.expect(&TokenKind::RParen, "')' to close the call") {
            teardown::discard_all(args);
            return Err(e);
        }
        Ok(Expr::FunctionCall { name, distinct, args, star, span: start.to(end) })
    }

    /// Expressions separated by commas.
    fn expressions(&mut self, d: usize) -> (r: Result<Vec<Expr>, ParseError>)
        requires
            old(self).ready(),
            d <= MAX_DEPTH,
        ensures
            final(self).follows(old(self)),
            gives_exprs(
                r,
                final(self).pos as nat,
                grammar::expressions_at(old(self).ts(), old(self).pos as nat, d as nat, seq![]),
            ),
        decreases MAX_DEPTH - d, 1int,
    {
        let ghost ts = self.ts();
        let mut out: Vec<Expr> = Vec::new();
        assert(ast::exprs_view(out@) =~= seq![]);
        let ghost model = grammar::expressions_at(ts, self.pos as nat, d as nat, seq![]);
        loop
            invariant
                self.follows(old(self)),
                ts == self.ts(),
                d <= MAX_DEPTH,
                model == grammar::expressions_at(ts, old(self).pos as nat, d as nat, seq![]),
                model == grammar::expressions_at(
                    ts,
                    self.pos as nat,
                    d as nat,
                    ast::exprs_view(out@),
                ),
            decreases self.tokens.len() - self.pos,
        {
            let e = match self.expression(d) {
                Err(e) => {
                    teardown::discard_all(out);
                    return Err(e);
                },
                Ok(x) => x,
            };
            assert(ast::exprs_view(out@.push(e)) =~= ast::exprs_view(out@).push(e@));
            out.push(e);
            if !self.eat(&TokenKind::Comma) {
                return Ok(out);
            }
        }
    }

    /// The expression behind a keyword, where the keyword stands at the cursor.
    fn optional_expr(&mut self, d: usize, kw: &str) -> (r: Result<Option<Expr>, ParseError>)
        requires
            old(self).ready(),
            d <= MAX_DEPTH,
        ensures
            final(self).follows(old(self)),
            gives_opt_expr(
                r,
                final(self).pos as nat,
                grammar::optional_at(old(self).ts(), old(self).pos as nat, d as nat, kw@),
            ),
        decreases MAX_DEPTH - d, 1int,
    {
        if self.eat_kw(kw) {
            let e = match self.expression(d) {
                Err(e) => {
                    return Err(e);
                },
                Ok(x) => x,
            };
            Ok(Some(e))
        } else {
            Ok(None)
        }
    }

    fn case_operand(&mut self, d: usize) -> (r: Result<Option<Box<Expr>>, ParseError>)
        requires
            old(self).ready(),
            1 <= d <= MAX_DEPTH,
        ensures
            final(self).follows(old(self)),
            gives_opt_box(
                r,
                final(self).pos as nat,
                grammar::case_operand_at(old(self).ts(), old(self).pos as nat, d as nat),
            ),
        decreases MAX_DEPTH - d, 1int,
    {
        if self.at_kw("WHEN") {
            return Ok(None);
        }
        let e = match self.expression(d) {
            Err(e) => {
                return Err(e);
            },
            Ok(x) => x,
        };
        Ok(Some(Box::new(e)))
    }

    fn case_branches(&mut self, d: usize) -> (r: Result<Vec<(Expr, Expr)>, ParseError>)
        requires
            old(self).ready(),
            1 <= d <= MAX_DEPTH,
        ensures
            final(self).follows(old(self)),
            gives_whens(
                r,
                final(self).pos as nat,
                grammar::whens_at(old(self).ts(), old(self).pos as nat, d as nat, seq![]),
            ),
        decreases MAX_DEPTH - d, 1int,
    {
        let ghost ts = self.ts();
        let mut out: Vec<(Expr, Expr)> = Vec::new();
        assert(ast::expr_exprs_view(out@) =~= seq![]);
        let ghost model = grammar::whens_at(ts, self.pos as nat, d as nat, seq![]);
        while self.eat_kw("WHEN")
            invariant
                self.follows(old(self)),
                ts == self.ts(),
                1 <= d <= MAX_DEPTH,
                model == grammar::whens_at(ts, old(self).pos as nat, d as nat, seq![]),
                model == grammar::whens_at(
                    ts,
                    self.pos as nat,
                    d as nat,
                    ast::expr_exprs_view(out@),
                ),
            decreases self.tokens.len() - self.pos,
        {
            let condition = match self.expression(d) {
                Err(e) => {
                    teardown::discard_branches(out);
                    return Err(e);
                },
                Ok(x) => x,
            };
            if let Err(e) = self.expect_kw("THEN") {
                condition.discard();
                teardown::discard_branches(out);
                return Err(e);
            }
            let value = match self.expression(d) {
                Err(e) => {
                    condition.discard();
                    teardown::discard_branches(out);
                    return Err(e);
                },
                Ok(x) => x,
            };
            let branch = (condition, value);
            assert(ast::expr_exprs_view(out@.push(branch)) =~= ast::expr_exprs_view(out@).push(
                    (branch.0@, branch.1@),
            ));
            out.push(branch);
        }
        Ok(out)
    }

    fn case_expression(&mut self, d: usize) -> (r: Result<Expr, ParseError>)
        requires
            old(self).ready(),
            1 <= d <= MAX_DEPTH,
        ensures
            final(self).follows(old(self)),
            gives_expr(
                r,
                final(self).pos as nat,
                grammar::case_at(old(self).ts(), old(self).pos as nat, d as nat),
            ),
        decreases MAX_DEPTH - d, 7int,
    {
        let start = self.span();
        self.bump();
        let operand = match self.case_operand(d) {
            Err(e) => {
                return Err(e);
            },
            Ok(x) => x,
        };
        let whens = match self.case_branches(d) {
            Err(e) => {
                teardown::discard_boxed(operand);
                return Err(e);
            },
            Ok(x) => x,
        };
        if whens.len() == 0 {
            teardown::discard_branches(whens);
            teardown::discard_boxed(operand);
            return Err(self.unexpected("WHEN after CASE"));
        }
        let otherwise = match self.optional_expr(d, "ELSE") {
            Err(e) => {
                teardown::discard_branches(whens);
                teardown::discard_boxed(operand);
                return Err(e);
            },
            Ok(x) => x,
        };
        let end = self.span();
        if let Err(e) = self.expect_kw("END") {
            teardown::discard_optional(otherwise);
            teardown::discard_branches(whens);
            teardown::discard_boxed(operand);
            return Err(e);
        }
        Ok(Expr::Case { operand, whens, else_expr: boxed(otherwise), span: start.to(end) })
    }

    /// `all|any|none|single ( variable IN list WHERE predicate )`.
    fn quantifier(&mut self, kind: QuantifierKind, d: usize) -> (r: Result<Expr, ParseError>)
        requires
            old(self).ready(),
            1 <= d <= MAX_DEPTH,
        ensures
            final(self).follows(old(self)),
            gives_expr(
                r,
                final(self).pos as nat,
                grammar::quantifier_at(old(self).ts(), old(self).pos as nat, d as nat, kind),
            ),
        decreases MAX_DEPTH - d, 7int,
    {
        let start = self.span();
        self.bump();
        if let Err(e) = self.expect(&TokenKind::LParen, "'(' to open the quantifier") {
            return Err(e);
        }
        let variable = match self.binding_name("a quantifier variable", "a quantifier variable") {
            Err(e) => {
                return Err(e);
            },
            Ok(x) => x,
        };
        if let Err(e) = self.expect_kw("IN") {
            return Err(e);
        }
        let list = match self.expression(d) {
            Err(e) => {
                return Err(e);
            },
            Ok(x) => x,
        };
        if let Err(e) = self.expect_kw("WHERE") {
            list.discard();
            return Err(e);
        }
        let predicate = match self.expression(d) {
            Err(e) => {
                list.discard();
                return Err(e);
            },
            Ok(x) => x,
        };
        let end = self.span();
        if let Err(e) = self.expect(&TokenKind::RParen, "')' to close the quantifier") {
            predicate.discard();
            list.discard();
            return Err(e);
        }
        Ok(
            Expr::Quantifier {
                kind,
                variable,
                list: Box::new(list),
                predicate: Box::new(predicate),
                span: start.to(end),
            },
        )
    }

    /// `reduce ( accumulator = init , variable IN list | expr )`.
    fn reduce_expression(&mut self, d: usize) -> (r: Result<Expr, ParseError>)
        requires
            old(self).ready(),
            1 <= d <= MAX_DEPTH,
        ensures
            final(self).follows(old(self)),
            gives_expr(
                r,
                final(self).pos as nat,
                grammar::reduce_at(old(self).ts(), old(self).pos as nat, d as nat),
            ),
        decreases MAX_DEPTH - d, 7int,
    {
        let start = self.span();
        self.bump();
        if let Err(e) = self.expect(&TokenKind::LParen, "'(' to open reduce") {
            return Err(e);
        }
        let accumulator = match self.binding_name("an accumulator", "an accumulator") {
            Err(e) => {
                return Err(e);
            },
            Ok(x) => x,
        };
        if let Err(e) = self.expect(&TokenKind::Eq, "'=' in reduce") {
            return Err(e);
        }
        let init = match self.expression(d) {
            Err(e) => {
                return Err(e);
            },
            Ok(x) => x,
        };
        if let Err(e) = self.expect(&TokenKind::Comma, "',' in reduce") {
            init.discard();
            return Err(e);
        }
        let variable = match self.binding_name("a reduce variable", "a reduce variable") {
            Err(e) => {
                init.discard();
                return Err(e);
            },
            Ok(x) => x,
        };
        if let Err(e) = self.expect_kw("IN") {
            init.discard();
            return Err(e);
        }
        let list = match self.expression(d) {
            Err(e) => {
                init.discard();
                return Err(e);
            },
            Ok(x) => x,
        };
        if let Err(e) = self.expect(&TokenKind::Pipe, "'|' in reduce") {
            list.discard();
            init.discard();
            return Err(e);
        }
        let expr = match self.expression(d) {
            Err(e) => {
                list.discard();
                init.discard();
                return Err(e);
            },
            Ok(x) => x,
        };
        let end = self.span();
        if let Err(e) = self.expect(&TokenKind::RParen, "')' to close reduce") {
            expr.discard();
            list.discard();
            init.discard();
            return Err(e);
        }
        Ok(
            Expr::Reduce {
                accumulator,
                init: Box::new(init),
                variable,
                list: Box::new(list),
                expr: Box::new(expr),
                span: start.to(end),
            },
        )
    }

    fn mapped_expr(&mut self, d: usize) -> (r: Result<Option<Expr>, ParseError>)
        requires
            old(self).ready(),
            1 <= d <= MAX_DEPTH,
        ensures
            final(self).follows(old(self)),
            gives_opt_expr(
                r,
                final(self).pos as nat,
                grammar::mapped_at(old(self).ts(), old(self).pos as nat, d as nat),
            ),
        decreases MAX_DEPTH - d, 1int,
    {
        if self.eat(&TokenKind::Pipe) {
            let e = match self.expression(d) {
                Err(e) => {
                    return Err(e);
                },
                Ok(x) => x,
            };
            Ok(Some(e))
        } else {
            Ok(None)
        }
    }

    /// After seeing `[` at atom position: a list literal, or a list
    /// comprehension when the next tokens are `name IN`.
    fn list_literal_or_comprehension(&mut self, d: usize) -> (r: Result<Expr, ParseError>)
        requires
            old(self).ready(),
            1 <= d <= MAX_DEPTH,
        ensures
            final(self).follows(old(self)),
            gives_expr(
                r,
                final(self).pos as nat,
                grammar::list_at(old(self).ts(), old(self).pos as nat, d as nat),
            ),
        decreases MAX_DEPTH - d, 7int,
    {
        let start = self.span();
        self.bump();
        if self.name_ahead(0) && self.at_kw_ahead(1, "IN") {
            let variable = match self.binding_name(
                "a comprehension variable",
                "a comprehension variable",
            ) {
                Err(e) => {
                    return Err(e);
                },
                Ok(x) => x,
            };
            if let Err(e) = self.expect_kw("IN") {
                return Err(e);
            }
            let list = match self.expression(d) {
                Err(e) => {
                    return Err(e);
                },
                Ok(x) => x,
            };
            let filter = match self.optional_expr(d, "WHERE") {
                Err(e) => {
                    list.discard();
                    return Err(e);
                },
                Ok(x) => x,
            };
            let mapped = match self.mapped_expr(d) {
                Err(e) => {
                    teardown::discard_optional(filter);
                    list.discard();
                    return Err(e);
                },
                Ok(x) => x,
            };
            let end = self.span();
            if let Err(e) = self.expect(&TokenKind::RBracket, "']' to close the comprehension") {
                teardown::discard_optional(mapped);
                teardown::discard_optional(filter);
                list.discard();
                return Err(e);
            }
            return Ok(
                Expr::ListComprehension {
                    variable,
                    list: Box::new(list),
                    where_clause: boxed(filter),
                    map: boxed(mapped),
                    span: start.to(end),
                },
            );
        }
        let mut items: Vec<Expr> = Vec::new();
        assert(ast::exprs_view(items@) =~= seq![]);
        if !self.at(&TokenKind::RBracket) {
            items = match self.expressions(d) {
                Err(e) => {
                    teardown::discard_all(items);
                    return Err(e);
                },
                Ok(x) => x,
            };
        }
        let end = self.span();
        if let Err(e) = self.expect(&TokenKind::RBracket, "']' to close the list") {
            teardown::discard_all(items);
            return Err(e);
        }
        Ok(Expr::ListLiteral { items, span: start.to(end) })
    }

    fn map_entries(&mut self, d: usize) -> (r: Result<Vec<(String, Expr)>, ParseError>)
        requires
            old(self).ready(),
            d <= MAX_DEPTH,
        ensures
            final(self).follows(old(self)),
            gives_entries(
                r,
                final(self).pos as nat,
                grammar::entries_at(old(self).ts(), old(self).pos as nat, d as nat, seq![]),
            ),
        decreases MAX_DEPTH - d, 1int,
    {
        let ghost ts = self.ts();
        let mut out: Vec<(String, Expr)> = Vec::new();
        assert(ast::string_exprs_view(out@) =~= seq![]);
        let ghost model = grammar::entries_at(ts, self.pos as nat, d as nat, seq![]);
        loop
            invariant
                self.follows(old(self)),
                ts == self.ts(),
                d <= MAX_DEPTH,
                model == grammar::entries_at(ts, old(self).pos as nat, d as nat, seq![]),
                model == grammar::entries_at(
                    ts,
                    self.pos as nat,
                    d as nat,
                    ast::string_exprs_view(out@),
                ),
            decreases self.tokens.len() - self.pos,
        {
            let key = match self.any_name("a map key") {
                Err(e) => {
                    teardown::discard_entries(out);
                    return Err(e);
                },
                Ok(x) => x,
            };
            if let Err(e) = self.expect(&TokenKind::Colon, "':' after the map key") {
                teardown::discard_entries(out);
                return Err(e);
            }
            let value = match self.expression(d) {
                Err(e) => {
                    teardown::discard_entries(out);
                    return Err(e);
                },
                Ok(x) => x,
            };
            let entry = (key, value);
            assert(ast::string_exprs_view(out@.push(entry)) =~= ast::string_exprs_view(out@).push(
                    (entry.0@, entry.1@),
            ));
            out.push(entry);
            if !self.eat(&TokenKind::Comma) {
                return Ok(out);
            }
        }
    }

    fn map_literal(&mut self, d: usize) -> (r: Result<Expr, ParseError>)
        requires
            old(self).ready(),
            d <= MAX_DEPTH,
            grammar::kind_at(old(self).ts(), old(self).pos as nat) == TokenKindView::LBrace,
        ensures
            final(self).follows(old(self)),
            gives_expr(
                r,
                final(self).pos as nat,
                grammar::map_at(old(self).ts(), old(self).pos as nat, d as nat),
            ),
        decreases MAX_DEPTH - d, 2int,
    {
        let start = self.span();
        self.bump();
        let mut entries: Vec<(String, Expr)> = Vec::new();
        assert(ast::string_exprs_view(entries@) =~= seq![]);
        if !self.at(&TokenKind::RBrace) {
            entries = match self.map_entries(d) {
                Err(e) => {
                    teardown::discard_entries(entries);
                    return Err(e);
                },
                Ok(x) => x,
            };
        }
        let end = self.span();
        if let Err(e) = self.expect(&TokenKind::RBrace, "'}' to close the map") {
            teardown::discard_entries(entries);
            return Err(e);
        }
        Ok(Expr::MapLiteral { entries, span: start.to(end) })
    }

    /// `(` at atom position opens either a parenthesised expression or a pattern
    /// predicate (`(h)-[:RUNS]->(:Software)`). Decided by linear token scans,
    /// not by speculative parsing, which is exponential on nested parentheses.
    /// Committed patterns that then fail to parse are hard errors.
    fn paren_expr_or_pattern_predicate(&mut self, d: usize) -> (r: Result<Expr, ParseError>)
        requires
            old(self).ready(),
            1 <= d <= MAX_DEPTH,
            grammar::kind_at(old(self).ts(), old(self).pos as nat) == TokenKindView::LParen,
        ensures
            final(self).follows(old(self)),
            gives_expr(
                r,
                final(self).pos as nat,
                grammar::group_at(old(self).ts(), old(self).pos as nat, d as nat),
            ),
        decreases MAX_DEPTH - d, 9int,
    {
        if self.paren_group_starts_pattern() {
            self.pattern_predicate(d)
        } else {
            self.parenthesised(d)
        }
    }

    fn pattern_predicate(&mut self, d: usize) -> (r: Result<Expr, ParseError>)
        requires
            old(self).ready(),
            1 <= d <= MAX_DEPTH,
            grammar::starts_pattern(old(self).ts(), old(self).pos as nat),
        ensures
            final(self).follows(old(self)),
            gives_expr(
                r,
                final(self).pos as nat,
                grammar::group_at(old(self).ts(), old(self).pos as nat, d as nat),
            ),
        decreases MAX_DEPTH - d, 8int,
    {
        let pattern = match self.path_pattern(d) {
            Err(e) => {
                return Err(e);
            },
            Ok(x) => x,
        };
        proof {
            pattern.lemma_view();
        }
        if pattern.steps.len() == 0 {
            teardown::discard_pattern(pattern);
            return Err(self.unexpected("a relationship pattern"));
        }
        let span = pattern.span;
        Ok(Expr::PatternPredicate { pattern: Box::new(pattern), span })
    }

    fn parenthesised(&mut self, d: usize) -> (r: Result<Expr, ParseError>)
        requires
            old(self).ready(),
            1 <= d <= MAX_DEPTH,
            grammar::kind_at(old(self).ts(), old(self).pos as nat) == TokenKindView::LParen,
            !grammar::starts_pattern(old(self).ts(), old(self).pos as nat),
        ensures
            final(self).follows(old(self)),
            gives_expr(
                r,
                final(self).pos as nat,
                grammar::group_at(old(self).ts(), old(self).pos as nat, d as nat),
            ),
        decreases MAX_DEPTH - d, 8int,
    {
        let start = self.span();
        self.bump();
        let mut inner = match self.expression(d) {
            Err(e) => {
                return Err(e);
            },
            Ok(x) => x,
        };
        let end = self.span();
        if let Err(e) = self.expect(&TokenKind::RParen, "')' to close the expression") {
            inner.discard();
            return Err(e);
        }
        // The expression's span covers the parentheses, so derived column names
        // (`RETURN (x)`) render faithfully.
        inner.set_span(start.to(end));
        Ok(inner)
    }

    // --- Patterns ---------------------------------------------------------------------------------

    fn path_variable(&mut self) -> (r: Result<Option<String>, ParseError>)
        requires
            old(self).ready(),
        ensures
            final(self).follows(old(self)),
            gives_opt_name(
                r,
                final(self).pos as nat,
                grammar::path_variable_at(old(self).ts(), old(self).pos as nat),
            ),
    {
        if self.name_ahead(0) && self.at_ahead(1, &TokenKind::Eq) {
            let name = match self.binding_name("a path variable", "a path variable") {
                Err(e) => {
                    return Err(e);
                },
                Ok(x) => x,
            };
            self.bump();
            Ok(Some(name))
        } else {
            Ok(None)
        }
    }

    fn path_pattern(&mut self, d: usize) -> (r: Result<PathPattern, ParseError>)
        requires
            old(self).ready(),
            d <= MAX_DEPTH,
        ensures
            final(self).follows(old(self)),
            gives_pattern(
                r,
                final(self).pos as nat,
                grammar::pattern_at(old(self).ts(), old(self).pos as nat, d as nat),
            ),
        decreases MAX_DEPTH - d, 7int,
    {
        let variable = match self.path_variable() {
            Err(e) => {
                return Err(e);
            },
            Ok(x) => x,
        };
        let first = self.span();
        let start = match self.node_pattern(d) {
            Err(e) => {
                return Err(e);
            },
            Ok(x) => x,
        };
        let steps = match self.path_steps(d) {
            Err(e) => {
                teardown::discard_node(start);
                return Err(e);
            },
            Ok(x) => x,
        };
        let r = PathPattern { variable, start, steps, span: first.to(self.prev_span()) };
        proof {
            r.lemma_view();
        }
        Ok(r)
    }

    fn path_steps(&mut self, d: usize) -> (r: Result<Vec<(RelPattern, NodePattern)>, ParseError>)
        requires
            old(self).ready(),
            d <= MAX_DEPTH,
        ensures
            final(self).follows(old(self)),
            gives_steps(
                r,
                final(self).pos as nat,
                grammar::steps_at(old(self).ts(), old(self).pos as nat, d as nat, seq![]),
            ),
        decreases MAX_DEPTH - d, 6int,
    {
        let ghost ts = self.ts();
        let mut out: Vec<(RelPattern, NodePattern)> = Vec::new();
        assert(ast::rel_pattern_node_patterns_view(out@) =~= seq![]);
        let ghost model = grammar::steps_at(ts, self.pos as nat, d as nat, seq![]);
        while self.at(&TokenKind::Minus) || self.at(&TokenKind::LArrow) || self.at(
            &TokenKind::Arrow,
        )
            invariant
                self.follows(old(self)),
                ts == self.ts(),
                d <= MAX_DEPTH,
                model == grammar::steps_at(ts, old(self).pos as nat, d as nat, seq![]),
                model == grammar::steps_at(
                    ts,
                    self.pos as nat,
                    d as nat,
                    ast::rel_pattern_node_patterns_view(out@),
                ),
            decreases self.tokens.len() - self.pos,
        {
            let rel = match self.rel_pattern(d) {
                Err(e) => {
                    teardown::discard_steps(out);
                    return Err(e);
                },
                Ok(x) => x,
            };
            let node = match self.node_pattern(d) {
                Err(e) => {
                    teardown::discard_rel(rel);
                    teardown::discard_steps(out);
                    return Err(e);
                },
                Ok(x) => x,
            };
            let step = (rel, node);
            assert(ast::rel_pattern_node_patterns_view(out@.push(step))
                =~= ast::rel_pattern_node_patterns_view(out@).push((step.0@, step.1@)));
            out.push(step);
        }
        Ok(out)
    }

    fn variable(&mut self) -> (r: Result<Option<String>, ParseError>)
        requires
            old(self).ready(),
        ensures
            final(self).follows(old(self)),
            gives_opt_name(
                r,
                final(self).pos as nat,
                grammar::variable_at(old(self).ts(), old(self).pos as nat),
            ),
    {
        if self.name_ahead(0) {
            let name = match self.binding_name("a variable", "a variable") {
                Err(e) => {
                    return Err(e);
                },
                Ok(x) => x,
            };
            Ok(Some(name))
        } else {
            Ok(None)
        }
    }

    fn labels(&mut self) -> (r: Result<Vec<String>, ParseError>)
        requires
            old(self).ready(),
        ensures
            final(self).follows(old(self)),
            gives_names(
                r,
                final(self).pos as nat,
                grammar::labels_at(old(self).ts(), old(self).pos as nat, seq![]),
            ),
    {
        let ghost ts = self.ts();
        let mut out: Vec<String> = Vec::new();
        assert(text::strings_view(out@) =~= seq![]);
        let ghost model = grammar::labels_at(ts, self.pos as nat, seq![]);
        while self.eat(&TokenKind::Colon)
            invariant
                self.follows(old(self)),
                ts == self.ts(),
                model == grammar::labels_at(ts, old(self).pos as nat, seq![]),
                model == grammar::labels_at(ts, self.pos as nat, text::strings_view(out@)),
            decreases self.tokens.len() - self.pos,
        {
            let label = match self.any_name("a label") {
                Err(e) => {
                    return Err(e);
                },
                Ok(x) => x,
            };
            assert(text::strings_view(out@.push(label)) =~= text::strings_view(out@).push(label@));
            out.push(label);
        }
        Ok(out)
    }

    fn node_pattern(&mut self, d: usize) -> (r: Result<NodePattern, ParseError>)
        requires
            old(self).ready(),
            d <= MAX_DEPTH,
        ensures
            final(self).follows(old(self)),
            gives_node(
                r,
                final(self).pos as nat,
                grammar::node_at(old(self).ts(), old(self).pos as nat, d as nat),
            ),
        decreases MAX_DEPTH - d, 4int,
    {
        let start = self.span();
        if let Err(e) = self.expect(&TokenKind::LParen, "'(' to open a node pattern") {
            return Err(e);
        }
        let variable = match self.variable() {
            Err(e) => {
                return Err(e);
            },
            Ok(x) => x,
        };
        let labels = match self.labels() {
            Err(e) => {
                return Err(e);
            },
            Ok(x) => x,
        };
        let properties = match self.pattern_properties(d) {
            Err(e) => {
                return Err(e);
            },
            Ok(x) => x,
        };
        let end = self.span();
        if let Err(e) = self.expect(&TokenKind::RParen, "')' to close the node pattern") {
            teardown::discard_optional(properties);
            return Err(e);
        }
        let r = NodePattern { variable, labels, properties, span: start.to(end) };
        proof {
            r.lemma_view();
        }
        Ok(r)
    }

    /// Property map on a node or relationship pattern: a map literal or a
    /// parameter.
    fn pattern_properties(&mut self, d: usize) -> (r: Result<Option<Expr>, ParseError>)
        requires
            old(self).ready(),
            d <= MAX_DEPTH,
        ensures
            final(self).follows(old(self)),
            gives_opt_expr(
                r,
                final(self).pos as nat,
                grammar::properties_at(old(self).ts(), old(self).pos as nat, d as nat),
            ),
        decreases MAX_DEPTH - d, 3int,
    {
        let span = self.span();
        match &self.peek().kind {
            TokenKind::LBrace => {
                let m = match self.map_literal(d) {
                    Err(e) => {
                        return Err(e);
                    },
                    Ok(x) => x,
                };
                Ok(Some(m))
            },
            TokenKind::Parameter(name) => {
                let name = name.clone();
                self.bump();
                Ok(Some(Expr::Parameter { name, span }))
            },
            _ => Ok(None),
        }
    }

    fn type_alternatives(&mut self) -> (r: Result<Vec<String>, ParseError>)
        requires
            old(self).ready(),
        ensures
            final(self).follows(old(self)),
            gives_names(
                r,
                final(self).pos as nat,
                grammar::types_at(old(self).ts(), old(self).pos as nat, seq![]),
            ),
    {
        let ghost ts = self.ts();
        let mut out: Vec<String> = Vec::new();
        assert(text::strings_view(out@) =~= seq![]);
        let ghost model = grammar::types_at(ts, self.pos as nat, seq![]);
        loop
            invariant
                self.follows(old(self)),
                ts == self.ts(),
                model == grammar::types_at(ts, old(self).pos as nat, seq![]),
                model == grammar::types_at(ts, self.pos as nat, text::strings_view(out@)),
            decreases self.tokens.len() - self.pos,
        {
            let name = match self.any_name("a relationship type") {
                Err(e) => {
                    return Err(e);
                },
                Ok(x) => x,
            };
            assert(text::strings_view(out@.push(name)) =~= text::strings_view(out@).push(name@));
            out.push(name);
            if !self.eat(&TokenKind::Pipe) {
                return Ok(out);
            }
            // Tolerate the legacy `|:TYPE` alternative form.
            self.eat(&TokenKind::Colon);
        }
    }

    fn rel_types(&mut self) -> (r: Result<Vec<String>, ParseError>)
        requires
            old(self).ready(),
        ensures
            final(self).follows(old(self)),
            gives_names(
                r,
                final(self).pos as nat,
                grammar::rel_types_at(old(self).ts(), old(self).pos as nat),
            ),
    {
        if self.eat(&TokenKind::Colon) {
            self.type_alternatives()
        } else {
            let out: Vec<String> = Vec::new();
            assert(text::strings_view(out@) =~= seq![]);
            Ok(out)
        }
    }

    fn length_bound(&mut self) -> (r: Result<Option<u64>, ParseError>)
        requires
            old(self).ready(),
        ensures
            final(self).follows(old(self)),
            gives_bound(
                r,
                final(self).pos as nat,
                grammar::bound_at(old(self).ts(), old(self).pos as nat),
            ),
    {
        let span = self.span();
        match &self.peek().kind {
            TokenKind::Integer(n) => {
                let n: i64 = *n;
                if n < 0 {
                    return Err(
                        ParseError::Unexpected {
                            expected: "a non-negative length bound".to_owned(),
                            found: text::int_text(n),
                            span,
                        },
                    );
                }
                self.bump();
                Ok(Some(n as u64))
            },
            _ => Ok(None),
        }
    }

    /// After a consumed `*`: `*`, `*n`, `*n..m`, `*n..`, `*..m`.
    fn var_length(&mut self) -> (r: Result<VarLength, ParseError>)
        requires
            old(self).ready(),
        ensures
            final(self).follows(old(self)),
            gives_length(
                r,
                final(self).pos as nat,
                grammar::length_at(old(self).ts(), old(self).pos as nat),
            ),
    {
        let min = match self.length_bound() {
            Err(e) => {
                return Err(e);
            },
            Ok(x) => x,
        };
        if self.eat(&TokenKind::DotDot) {
            let max = match self.length_bound() {
                Err(e) => {
                    return Err(e);
                },
                Ok(x) => x,
            };
            Ok(VarLength { min, max })
        } else {
            Ok(VarLength { min, max: min })
        }
    }

    fn rel_length(&mut self) -> (r: Result<Option<VarLength>, ParseError>)
        requires
            old(self).ready(),
        ensures
            final(self).follows(old(self)),
            gives_opt_length(
                r,
                final(self).pos as nat,
                grammar::rel_length_at(old(self).ts(), old(self).pos as nat),
            ),
    {
        if self.eat(&TokenKind::Star) {
            let length = match self.var_length() {
                Err(e) => {
                    return Err(e);
                },
                Ok(x) => x,
            };
            Ok(Some(length))
        } else {
            Ok(None)
        }
    }

    fn rel_detail(&mut self, d: usize) -> (r: Result<Detail, ParseError>)
        requires
            old(self).ready(),
            d <= MAX_DEPTH,
        ensures
            final(self).follows(old(self)),
            gives_detail(
                r,
                final(self).pos as nat,
                grammar::detail_at(old(self).ts(), old(self).pos as nat, d as nat),
            ),
        decreases MAX_DEPTH - d, 4int,
    {
        if self.eat(&TokenKind::LBracket) {
            let variable = match self.variable() {
                Err(e) => {
                    return Err(e);
                },
                Ok(x) => x,
            };
            let types = match self.rel_types() {
                Err(e) => {
                    return Err(e);
                },
                Ok(x) => x,
            };
            let var_length = match self.rel_length() {
                Err(e) => {
                    return Err(e);
                },
                Ok(x) => x,
            };
            let properties = match self.pattern_properties(d) {
                Err(e) => {
                    return Err(e);
                },
                Ok(x) => x,
            };
            if let Err(e) = self.expect(
                &TokenKind::RBracket,
                "']' to close the relationship detail",
            ) {
                teardown::discard_optional(properties);
                return Err(e);
            }
            Ok(Detail { variable, types, var_length, properties })
        } else {
            let types: Vec<String> = Vec::new();
            assert(text::strings_view(types@) =~= seq![]);
            Ok(Detail { variable: None, types, var_length: None, properties: None })
        }
    }

    fn rel_pattern(&mut self, d: usize) -> (r: Result<RelPattern, ParseError>)
        requires
            old(self).ready(),
            d <= MAX_DEPTH,
        ensures
            final(self).follows(old(self)),
            gives_rel(
                r,
                final(self).pos as nat,
                grammar::rel_at(old(self).ts(), old(self).pos as nat, d as nat),
            ),
            r is Ok ==> final(self).pos > old(self).pos,
        decreases MAX_DEPTH - d, 5int,
    {
        let start = self.span();
        let incoming = self.eat(&TokenKind::LArrow);
        if !incoming {
            if let Err(e) = self.expect(&TokenKind::Minus, "'-' to open a relationship pattern") {
                return Err(e);
            }
        }
        let detail = match self.rel_detail(d) {
            Err(e) => {
                return Err(e);
            },
            Ok(x) => x,
        };
        let outgoing = self.eat(&TokenKind::Arrow);
        if !outgoing {
            if let Err(e) = self.expect(
                &TokenKind::Minus,
                "'-' or '->' to close the relationship pattern",
            ) {
                teardown::discard_optional(detail.properties);
                return Err(e);
            }
        }
        let span = start.to(self.prev_span());
        let direction = if incoming {
            if outgoing {
                teardown::discard_optional(detail.properties);
                return Err(
                    ParseError::Unexpected {
                        expected: "a relationship pointing one way".to_owned(),
                        found: "'<-...->'".to_owned(),
                        span,
                    },
                );
            }
            Direction::In
        } else if outgoing {
            Direction::Out
        } else {
            Direction::Undirected
        };
        let r = RelPattern {
            variable: detail.variable,
            types: detail.types,
            direction,
            var_length: detail.var_length,
            properties: detail.properties,
            span,
        };
        proof {
            r.lemma_view();
        }
        Ok(r)
    }

    // --- Clauses ----------------------------------------------------------------------------------

    fn pattern_list(&mut self) -> (r: Result<Vec<PathPattern>, ParseError>)
        requires
            old(self).ready(),
        ensures
            final(self).follows(old(self)),
            gives_patterns(
                r,
                final(self).pos as nat,
                structure::patterns_at(old(self).ts(), old(self).pos as nat, seq![]),
            ),
    {
        let ghost ts = self.ts();
        let mut out: Vec<PathPattern> = Vec::new();
        assert(ast::path_patterns_view(out@) =~= seq![]);
        let ghost model = structure::patterns_at(ts, self.pos as nat, seq![]);
        loop
            invariant
                self.follows(old(self)),
                ts == self.ts(),
                model == structure::patterns_at(ts, old(self).pos as nat, seq![]),
                model == structure::patterns_at(ts, self.pos as nat, ast::path_patterns_view(out@)),
            decreases self.tokens.len() - self.pos,
        {
            let pattern = match self.path_pattern(0) {
                Err(e) => {
                    teardown::discard_patterns(out);
                    return Err(e);
                },
                Ok(x) => x,
            };
            assert(ast::path_patterns_view(out@.push(pattern)) =~= ast::path_patterns_view(out@).push(
                    pattern@,
            ));
            out.push(pattern);
            if !self.eat(&TokenKind::Comma) {
                return Ok(out);
            }
        }
    }

    /// One `SET` assignment: `x.key = v`, `x = map`, `x += map`, or `x:A:B`.
    fn set_item(&mut self) -> (r: Result<SetItem, ParseError>)
        requires
            old(self).ready(),
        ensures
            final(self).follows(old(self)),
            gives_set_item(
                r,
                final(self).pos as nat,
                structure::set_item_at(old(self).ts(), old(self).pos as nat),
            ),
    {
        let start = self.span();
        let var = match self.binding_name("a variable", "a SET target") {
            Err(e) => {
                return Err(e);
            },
            Ok(x) => x,
        };
        if self.at(&TokenKind::Colon) {
            let labels = match self.labels() {
                Err(e) => {
                    return Err(e);
                },
                Ok(x) => x,
            };
            return Ok(SetItem::AddLabels { var, labels, span: start.to(self.prev_span()) });
        }
        if self.eat(&TokenKind::Dot) {
            let key = match self.any_name("a property name after '.'") {
                Err(e) => {
                    return Err(e);
                },
                Ok(x) => x,
            };
            if let Err(e) = self.expect(&TokenKind::Eq, "'=' in a SET assignment") {
                return Err(e);
            }
            let value = match self.expression(0) {
                Err(e) => {
                    return Err(e);
                },
                Ok(x) => x,
            };
            return Ok(SetItem::Property { var, key, value, span: start.to(self.prev_span()) });
        }
        // `+=` lexes as Plus then Eq (there is no combined token).
        if self.at(&TokenKind::Plus) && self.at_ahead(1, &TokenKind::Eq) {
            self.bump();
            self.bump();
            let value = match self.expression(0) {
                Err(e) => {
                    return Err(e);
                },
                Ok(x) => x,
            };
            return Ok(SetItem::Merge { var, value, span: start.to(self.prev_span()) });
        }
        if let Err(e) = self.expect(
            &TokenKind::Eq,
            "'.property', ':Label', '=' or '+=' after a SET target",
        ) {
            return Err(e);
        }
        let value = match self.expression(0) {
            Err(e) => {
                return Err(e);
            },
            Ok(x) => x,
        };
        Ok(SetItem::Replace { var, value, span: start.to(self.prev_span()) })
    }

    /// `SET` items behind those in `out`.
    fn push_set_items(&mut self, out: &mut Vec<SetItem>) -> (r: Result<(), ParseError>)
        requires
            old(self).ready(),
        ensures
            final(self).follows(old(self)),
            ({
                    let model = structure::set_items_at(
                        old(self).ts(),
                        old(self).pos as nat,
                        ast::set_items_view(old(out)@),
                    );
                    match r {
                        Ok(_) => model == Ok::<_, ParseErrorView>(
                            (ast::set_items_view(final(out)@), final(self).pos as nat),
                        ),
                        Err(e) => model == Err::<(Seq<SetItemView>, nat), _>(e@),
            }
    }),
    {
        let ghost ts = self.ts();
        let ghost model = structure::set_items_at(ts, self.pos as nat, ast::set_items_view(out@));
        loop
            invariant
                self.follows(old(self)),
                ts == self.ts(),
                model == structure::set_items_at(
                    ts,
                    old(self).pos as nat,
                    ast::set_items_view(old(out)@),
                ),
                model == structure::set_items_at(ts, self.pos as nat, ast::set_items_view(out@)),
            decreases self.tokens.len() - self.pos,
        {
            let item = match self.set_item() {
                Err(e) => {
                    return Err(e);
                },
                Ok(x) => x,
            };
            let ghost before = out@;
            out.push(item);
            assert(
                ast::set_items_view(before.push(item)) =~= ast::set_items_view(before).push(item@)
            );
            if !self.eat(&TokenKind::Comma) {
                return Ok(());
            }
        }
    }

    /// One `REMOVE` item: `x.key` or `x:A:B`.
    fn remove_item(&mut self) -> (r: Result<RemoveItem, ParseError>)
        requires
            old(self).ready(),
        ensures
            final(self).follows(old(self)),
            gives_remove_item(
                r,
                final(self).pos as nat,
                structure::remove_item_at(old(self).ts(), old(self).pos as nat),
            ),
    {
        let start = self.span();
        let var = match self.binding_name("a variable", "a REMOVE target") {
            Err(e) => {
                return Err(e);
            },
            Ok(x) => x,
        };
        if self.at(&TokenKind::Colon) {
            let labels = match self.labels() {
                Err(e) => {
                    return Err(e);
                },
                Ok(x) => x,
            };
            return Ok(RemoveItem::Labels { var, labels, span: start.to(self.prev_span()) });
        }
        if let Err(e) = self.expect(
            &TokenKind::Dot,
            "'.property' or ':Label' after a REMOVE target",
        ) {
            return Err(e);
        }
        let key = match self.any_name("a property name after '.'") {
            Err(e) => {
                return Err(e);
            },
            Ok(x) => x,
        };
        Ok(RemoveItem::Property { var, key, span: start.to(self.prev_span()) })
    }

    fn remove_items(&mut self) -> (r: Result<Vec<RemoveItem>, ParseError>)
        requires
            old(self).ready(),
        ensures
            final(self).follows(old(self)),
            gives_remove_items(
                r,
                final(self).pos as nat,
                structure::remove_items_at(old(self).ts(), old(self).pos as nat, seq![]),
            ),
    {
        let ghost ts = self.ts();
        let mut out: Vec<RemoveItem> = Vec::new();
        assert(ast::remove_items_view(out@) =~= seq![]);
        let ghost model = structure::remove_items_at(ts, self.pos as nat, seq![]);
        loop
            invariant
                self.follows(old(self)),
                ts == self.ts(),
                model == structure::remove_items_at(ts, old(self).pos as nat, seq![]),
                model == structure::remove_items_at(
                    ts,
                    self.pos as nat,
                    ast::remove_items_view(out@),
                ),
            decreases self.tokens.len() - self.pos,
        {
            let item = match self.remove_item() {
                Err(e) => {
                    return Err(e);
                },
                Ok(x) => x,
            };
            assert(
                ast::remove_items_view(out@.push(item)) =~= ast::remove_items_view(out@).push(item@)
            );
            out.push(item);
            if !self.eat(&TokenKind::Comma) {
                return Ok(out);
            }
        }
    }

    /// The error for a non-string, non-parameter token after `AT`. A bare commit
    /// hash or branch name, which may lex as several adjacent tokens (`3db804f9`
    /// is integer `3` then ident `db804f9`), gets an actionable suggestion
    /// quoting the raw source text.
    fn bare_refspec_error(&self) -> (r: ParseError)
        requires
            self.ready(),
        ensures
            r@ == structure::bare_refspec(self.ts(), self.pos as nat, self.source@),
    {
        let like = match &self.peek().kind {
            TokenKind::Integer(_) => true,
            TokenKind::IntegerTooLarge(_) => true,
            TokenKind::Float(_) => true,
            TokenKind::Ident { name, backquoted } => !*backquoted && !is_reserved(name.as_str()),
            _ => false,
        };
        if !like {
            return self.unexpected("a refspec string or parameter after AT");
        }
        // Reassemble the refspec the user wrote: the run of tokens with no
        // intervening whitespace, sliced from the source.
        let ghost ts = self.ts();
        let start: usize = self.span().start;
        let mut end: usize = self.span().end;
        assert(self.pos < self.tokens.len());
        let mut at: usize = self.pos + 1;
        let ghost model = structure::run_end(ts, at as nat, end);
        while at < self.tokens.len()
        invariant_except_break
        model == structure::run_end(ts, at as nat, end),
            invariant
                ts == self.ts(),
                self.pos < at <= self.tokens.len(),
                model == structure::run_end(
                    ts,
                    (self.pos + 1) as nat,
                    grammar::span_of(ts, self.pos as nat).end,
                ),
            ensures
                model == end,
            decreases self.tokens.len() - at,
        {
            assert(ts[at as int] == self.tokens@[at as int]@);
            if matches!(self.tokens[at].kind, TokenKind::Eof) || self.tokens[at].span.start != end {
                break;
            }
            end = self.tokens[at].span.end;
            at += 1;
        }
        let raw = span::slice_between(self.source, start, end);
        let message = text::join3(
            "a refspec after AT must be a string literal or a parameter — try AT '",
            raw.as_str(),
            "' (or AT $ref)",
        );
        ParseError::QueryStructure { message, span: Span::new(start, end) }
    }

    fn at_ref(&mut self) -> (r: Result<Option<AtRef>, ParseError>)
        requires
            old(self).ready(),
        ensures
            final(self).follows(old(self)),
            gives_at_ref(
                r,
                final(self).pos as nat,
                structure::at_ref_at(old(self).ts(), old(self).pos as nat, old(self).source@),
            ),
    {
        if !self.eat_kw("AT") {
            return Ok(None);
        }
        let span = self.span();
        match &self.peek().kind {
            TokenKind::Str(value) => {
                let value = value.clone();
                self.bump();
                Ok(Some(AtRef::Refspec { value, span }))
            },
            TokenKind::Parameter(name) => {
                let name = name.clone();
                self.bump();
                Ok(Some(AtRef::Parameter { name, span }))
            },
            _ => Err(self.bare_refspec_error()),
        }
    }

    fn match_clause(&mut self, optional: bool, start: Span) -> (r: Result<Clause, ParseError>)
        requires
            old(self).ready(),
        ensures
            final(self).follows(old(self)),
            gives_clause(
                r,
                final(self).pos as nat,
                structure::match_at(
                    old(self).ts(),
                    old(self).pos as nat,
                    optional,
                    start,
                    old(self).source@,
                ),
            ),
    {
        reveal(structure::match_at);
        let patterns = match self.pattern_list() {
            Err(e) => {
                return Err(e);
            },
            Ok(x) => x,
        };
        let at_ref = match self.at_ref() {
            Err(e) => {
                teardown::discard_patterns(patterns);
                return Err(e);
            },
            Ok(x) => x,
        };
        let where_clause = match self.optional_expr(0, "WHERE") {
            Err(e) => {
                teardown::discard_patterns(patterns);
                return Err(e);
            },
            Ok(x) => x,
        };
        Ok(
            Clause::Match(
                MatchClause {
                    optional,
                    patterns,
                    at_ref,
                    where_clause,
                    span: start.to(self.prev_span()),
                },
            ),
        )
    }

    fn projection_item(&mut self) -> (r: Result<ProjectionItem, ParseError>)
        requires
            old(self).ready(),
        ensures
            final(self).follows(old(self)),
            gives_item(
                r,
                final(self).pos as nat,
                structure::item_at(old(self).ts(), old(self).pos as nat),
            ),
    {
        let span = self.span();
        if self.eat(&TokenKind::Star) {
            return Ok(ProjectionItem::Star { span });
        }
        let expr = match self.expression(0) {
            Err(e) => {
                return Err(e);
            },
            Ok(x) => x,
        };
        let mut alias: Option<String> = None;
        if self.eat_kw("AS") {
            let name = match self.binding_name("alias after AS", "an alias") {
                Err(e) => {
                    expr.discard();
                    return Err(e);
                },
                Ok(x) => x,
            };
            alias = Some(name);
        }
        let span = expr.span().to(self.prev_span());
        Ok(ProjectionItem::Expr { expr, alias, span })
    }

    fn projection_items(&mut self) -> (r: Result<Vec<ProjectionItem>, ParseError>)
        requires
            old(self).ready(),
        ensures
            final(self).follows(old(self)),
            gives_items(
                r,
                final(self).pos as nat,
                structure::items_at(old(self).ts(), old(self).pos as nat, seq![]),
            ),
    {
        let ghost ts = self.ts();
        let mut out: Vec<ProjectionItem> = Vec::new();
        assert(ast::projection_items_view(out@) =~= seq![]);
        let ghost model = structure::items_at(ts, self.pos as nat, seq![]);
        loop
            invariant
                self.follows(old(self)),
                ts == self.ts(),
                model == structure::items_at(ts, old(self).pos as nat, seq![]),
                model == structure::items_at(ts, self.pos as nat, ast::projection_items_view(out@)),
            decreases self.tokens.len() - self.pos,
        {
            let item = match self.projection_item() {
                Err(e) => {
                    teardown::discard_items(out);
                    return Err(e);
                },
                Ok(x) => x,
            };
            assert(ast::projection_items_view(out@.push(item)) =~= ast::projection_items_view(out@).push(
                    item@,
            ));
            out.push(item);
            if !self.eat(&TokenKind::Comma) {
                return Ok(out);
            }
        }
    }

    fn sort_direction(&mut self) -> (r: bool)
        requires
            old(self).ready(),
        ensures
            final(self).follows(old(self)),
            (r, final(self).pos as nat) == structure::direction_at(
                old(self).ts(),
                old(self).pos as nat,
            ),
    {
        if self.eat_kw("DESC") {
            return true;
        }
        if self.eat_kw("DESCENDING") {
            return true;
        }
        if self.eat_kw("ASC") {
            return false;
        }
        self.eat_kw("ASCENDING");
        false
    }

    fn sort_items(&mut self) -> (r: Result<Vec<SortItem>, ParseError>)
        requires
            old(self).ready(),
        ensures
            final(self).follows(old(self)),
            gives_sort_items(
                r,
                final(self).pos as nat,
                structure::sort_items_at(old(self).ts(), old(self).pos as nat, seq![]),
            ),
    {
        let ghost ts = self.ts();
        let mut out: Vec<SortItem> = Vec::new();
        assert(ast::sort_items_view(out@) =~= seq![]);
        let ghost model = structure::sort_items_at(ts, self.pos as nat, seq![]);
        loop
            invariant
                self.follows(old(self)),
                ts == self.ts(),
                model == structure::sort_items_at(ts, old(self).pos as nat, seq![]),
                model == structure::sort_items_at(ts, self.pos as nat, ast::sort_items_view(out@)),
            decreases self.tokens.len() - self.pos,
        {
            let expr = match self.expression(0) {
                Err(e) => {
                    teardown::discard_sort_items(out);
                    return Err(e);
                },
                Ok(x) => x,
            };
            let descending = self.sort_direction();
            let item = SortItem { expr, descending };
            assert(
                ast::sort_items_view(out@.push(item)) =~= ast::sort_items_view(out@).push(item@)
            );
            out.push(item);
            if !self.eat(&TokenKind::Comma) {
                return Ok(out);
            }
        }
    }

    fn order_by(&mut self) -> (r: Result<Vec<SortItem>, ParseError>)
        requires
            old(self).ready(),
        ensures
            final(self).follows(old(self)),
            gives_sort_items(
                r,
                final(self).pos as nat,
                structure::order_at(old(self).ts(), old(self).pos as nat),
            ),
    {
        if self.at_kw2("ORDER", "BY") {
            self.bump();
            self.bump();
            self.sort_items()
        } else {
            let out: Vec<SortItem> = Vec::new();
            assert(ast::sort_items_view(out@) =~= seq![]);
            Ok(out)
        }
    }

    fn projection(&mut self, start: Span, is_with: bool) -> (r: Result<Projection, ParseError>)
        requires
            old(self).ready(),
        ensures
            final(self).follows(old(self)),
            gives_projection(
                r,
                final(self).pos as nat,
                structure::projection_at(old(self).ts(), old(self).pos as nat, start, is_with),
            ),
    {
        reveal(structure::projection_at);
        let distinct = self.eat_kw("DISTINCT");
        let items = match self.projection_items() {
            Err(e) => {
                return Err(e);
            },
            Ok(x) => x,
        };
        let order_by = match self.order_by() {
            Err(e) => {
                teardown::discard_items(items);
                return Err(e);
            },
            Ok(x) => x,
        };
        let skip = match self.optional_expr(0, "SKIP") {
            Err(e) => {
                teardown::discard_sort_items(order_by);
                teardown::discard_items(items);
                return Err(e);
            },
            Ok(x) => x,
        };
        let limit = match self.optional_expr(0, "LIMIT") {
            Err(e) => {
                teardown::discard_optional(skip);
                teardown::discard_sort_items(order_by);
                teardown::discard_items(items);
                return Err(e);
            },
            Ok(x) => x,
        };
        let mut where_clause: Option<Expr> = None;
        if is_with {
            where_clause = match self.optional_expr(0, "WHERE") {
                Err(e) => {
                    teardown::discard_optional(limit);
                    teardown::discard_optional(skip);
                    teardown::discard_sort_items(order_by);
                    teardown::discard_items(items);
                    return Err(e);
                },
                Ok(x) => x,
            };
        }
        Ok(
            Projection {
                distinct,
                items,
                order_by,
                skip,
                limit,
                where_clause,
                span: start.to(self.prev_span()),
            },
        )
    }

    fn procedure_name(&mut self, first: String) -> (r: Result<Vec<String>, ParseError>)
        requires
            old(self).ready(),
        ensures
            final(self).follows(old(self)),
            gives_names(
                r,
                final(self).pos as nat,
                structure::procedure_at(old(self).ts(), old(self).pos as nat, seq![first@]),
            ),
    {
        let ghost ts = self.ts();
        let mut out: Vec<String> = Vec::new();
        out.push(first);
        assert(text::strings_view(out@) =~= seq![first@]);
        let ghost model = structure::procedure_at(ts, self.pos as nat, seq![first@]);
        while self.eat(&TokenKind::Dot)
            invariant
                self.follows(old(self)),
                ts == self.ts(),
                model == structure::procedure_at(ts, old(self).pos as nat, seq![first@]),
                model == structure::procedure_at(ts, self.pos as nat, text::strings_view(out@)),
            decreases self.tokens.len() - self.pos,
        {
            let segment = match self.any_name("a procedure name segment") {
                Err(e) => {
                    return Err(e);
                },
                Ok(x) => x,
            };
            assert(
                text::strings_view(out@.push(segment)) =~= text::strings_view(out@).push(segment@)
            );
            out.push(segment);
        }
        Ok(out)
    }

    fn procedure_arguments(&mut self) -> (r: Result<Vec<Expr>, ParseError>)
        requires
            old(self).ready(),
        ensures
            final(self).follows(old(self)),
            gives_exprs(
                r,
                final(self).pos as nat,
                structure::arguments_at(old(self).ts(), old(self).pos as nat),
            ),
    {
        let mut args: Vec<Expr> = Vec::new();
        assert(ast::exprs_view(args@) =~= seq![]);
        if self.eat(&TokenKind::LParen) {
            if !self.at(&TokenKind::RParen) {
                args = match self.expressions(0) {
                    Err(e) => {
                        teardown::discard_all(args);
                        return Err(e);
                    },
                    Ok(x) => x,
                };
            }
            if let Err(e) = self.expect(&TokenKind::RParen, "')' after procedure arguments") {
                teardown::discard_all(args);
                return Err(e);
            }
        }
        Ok(args)
    }

    fn yield_columns(&mut self) -> (r: Result<Vec<String>, ParseError>)
        requires
            old(self).ready(),
        ensures
            final(self).follows(old(self)),
            gives_names(
                r,
                final(self).pos as nat,
                structure::columns_at(old(self).ts(), old(self).pos as nat, seq![]),
            ),
    {
        let ghost ts = self.ts();
        let mut out: Vec<String> = Vec::new();
        assert(text::strings_view(out@) =~= seq![]);
        let ghost model = structure::columns_at(ts, self.pos as nat, seq![]);
        loop
            invariant
                self.follows(old(self)),
                ts == self.ts(),
                model == structure::columns_at(ts, old(self).pos as nat, seq![]),
                model == structure::columns_at(ts, self.pos as nat, text::strings_view(out@)),
            decreases self.tokens.len() - self.pos,
        {
            let name = match self.binding_name("a yield column", "a yield item") {
                Err(e) => {
                    return Err(e);
                },
                Ok(x) => x,
            };
            assert(text::strings_view(out@.push(name)) =~= text::strings_view(out@).push(name@));
            out.push(name);
            if !self.eat(&TokenKind::Comma) {
                return Ok(out);
            }
        }
    }

    fn yields(&mut self) -> (r: Result<Vec<String>, ParseError>)
        requires
            old(self).ready(),
        ensures
            final(self).follows(old(self)),
            gives_names(
                r,
                final(self).pos as nat,
                structure::yields_at(old(self).ts(), old(self).pos as nat),
            ),
    {
        if self.eat_kw("YIELD") {
            self.yield_columns()
        } else {
            let out: Vec<String> = Vec::new();
            assert(text::strings_view(out@) =~= seq![]);
            Ok(out)
        }
    }

    fn call_clause(&mut self) -> (r: Result<Clause, ParseError>)
        requires
            old(self).ready(),
            grammar::is_name(old(self).ts(), old(self).pos as nat),
        ensures
            final(self).follows(old(self)),
            gives_clause(
                r,
                final(self).pos as nat,
                structure::procedure_call_at(old(self).ts(), old(self).pos as nat),
            ),
            r is Ok ==> final(self).pos > old(self).pos,
    {
        reveal(structure::procedure_call_at);
        let start = self.span();
        self.bump();
        let first = match self.any_name("a procedure name") {
            Err(e) => {
                return Err(e);
            },
            Ok(x) => x,
        };
        let procedure = match self.procedure_name(first) {
            Err(e) => {
                return Err(e);
            },
            Ok(x) => x,
        };
        let args = match self.procedure_arguments() {
            Err(e) => {
                return Err(e);
            },
            Ok(x) => x,
        };
        let yield_items = match self.yields() {
            Err(e) => {
                teardown::discard_all(args);
                return Err(e);
            },
            Ok(x) => x,
        };
        let where_clause = match self.optional_expr(0, "WHERE") {
            Err(e) => {
                teardown::discard_all(args);
                return Err(e);
            },
            Ok(x) => x,
        };
        Ok(
            Clause::Call(
                CallClause {
                    procedure,
                    args,
                    yield_items,
                    where_clause,
                    span: start.to(self.prev_span()),
                },
            ),
        )
    }

    fn unwind_clause(&mut self) -> (r: Result<Clause, ParseError>)
        requires
            old(self).ready(),
            grammar::is_name(old(self).ts(), old(self).pos as nat),
        ensures
            final(self).follows(old(self)),
            gives_clause(
                r,
                final(self).pos as nat,
                structure::unwind_at(old(self).ts(), old(self).pos as nat),
            ),
            r is Ok ==> final(self).pos > old(self).pos,
    {
        reveal(structure::unwind_at);
        let start = self.span();
        self.bump();
        let expr = match self.expression(0) {
            Err(e) => {
                return Err(e);
            },
            Ok(x) => x,
        };
        if let Err(e) = self.expect_kw("AS") {
            expr.discard();
            return Err(e);
        }
        let end = self.span();
        let alias = match self.binding_name("alias after AS", "an alias") {
            Err(e) => {
                expr.discard();
                return Err(e);
            },
            Ok(x) => x,
        };
        Ok(Clause::Unwind(UnwindClause { expr, alias, span: start.to(end) }))
    }

    /// `DELETE e1, e2, ...`: the targets are ordinary expressions that must
    /// evaluate to nodes, relationships or paths.
    fn delete_clause(&mut self, detach: bool, start: Span) -> (r: Result<Clause, ParseError>)
        requires
            old(self).ready(),
        ensures
            final(self).follows(old(self)),
            gives_clause(
                r,
                final(self).pos as nat,
                structure::delete_at(old(self).ts(), old(self).pos as nat, detach, start),
            ),
    {
        reveal(structure::delete_at);
        let targets = match self.expressions(0) {
            Err(e) => {
                return Err(e);
            },
            Ok(x) => x,
        };
        Ok(Clause::Delete(DeleteClause { detach, targets, span: start.to(self.prev_span()) }))
    }

    /// `ON CREATE SET ...` and `ON MATCH SET ...` items, behind those there are.
    fn merge_actions(
        &mut self,
        on_create: &mut Vec<SetItem>,
        on_match: &mut Vec<SetItem>,
    ) -> (r: Result<(), ParseError>)
        requires
            old(self).ready(),
        ensures
            final(self).follows(old(self)),
            ({
                    let model = structure::actions_at(
                        old(self).ts(),
                        old(self).pos as nat,
                        actions_view(old(on_create)@, old(on_match)@),
                    );
                    match r {
                        Ok(_) => model == Ok::<_, ParseErrorView>(
                            (
                                actions_view(final(on_create)@, final(on_match)@),
                                final(self).pos as nat,
                            ),
                        ),
                        Err(e) => model == Err::<(Actions, nat), _>(e@),
            }
    }),
    {
        let ghost ts = self.ts();
        let ghost before = actions_view(on_create@, on_match@);
        let ghost model = structure::actions_at(ts, self.pos as nat, before);
        loop
            invariant
                self.follows(old(self)),
                ts == self.ts(),
                before == actions_view(old(on_create)@, old(on_match)@),
                model == structure::actions_at(ts, old(self).pos as nat, before),
                model == structure::actions_at(
                    ts,
                    self.pos as nat,
                    actions_view(on_create@, on_match@),
                ),
            decreases self.tokens.len() - self.pos,
        {
            if self.at_kw2("ON", "CREATE") {
                self.bump();
                self.bump();
                if let Err(e) = self.expect_kw("SET") {
                    return Err(e);
                }
                if let Err(e) = self.push_set_items(on_create) {
                    return Err(e);
                }
            } else if self.at_kw2("ON", "MATCH") {
                self.bump();
                self.bump();
                if let Err(e) = self.expect_kw("SET") {
                    return Err(e);
                }
                if let Err(e) = self.push_set_items(on_match) {
                    return Err(e);
                }
            } else {
                return Ok(());
            }
        }
    }

    /// `MERGE <pattern> (ON CREATE SET ... | ON MATCH SET ...)*`.
    fn merge_clause(&mut self) -> (r: Result<Clause, ParseError>)
        requires
            old(self).ready(),
            grammar::is_name(old(self).ts(), old(self).pos as nat),
        ensures
            final(self).follows(old(self)),
            gives_clause(
                r,
                final(self).pos as nat,
                structure::merge_at(old(self).ts(), old(self).pos as nat),
            ),
            r is Ok ==> final(self).pos > old(self).pos,
    {
        reveal(structure::merge_at);
        let ghost ts = self.ts();
        let start = self.span();
        self.bump();
        let pattern = match self.path_pattern(0) {
            Err(e) => {
                return Err(e);
            },
            Ok(x) => x,
        };
        let mut on_create: Vec<SetItem> = Vec::new();
        let mut on_match: Vec<SetItem> = Vec::new();
        assert(ast::set_items_view(on_create@) =~= seq![]);
        assert(ast::set_items_view(on_match@) =~= seq![]);
        if let Err(e) = self.merge_actions(&mut on_create, &mut on_match) {
            teardown::discard_set_items(on_match);
            teardown::discard_set_items(on_create);
            teardown::discard_pattern(pattern);
            return Err(e);
        }
        Ok(
            Clause::Merge(
                MergeClause { pattern, on_create, on_match, span: start.to(self.prev_span()) },
            ),
        )
    }

    fn create_clause(&mut self) -> (r: Result<Clause, ParseError>)
        requires
            old(self).ready(),
            grammar::is_name(old(self).ts(), old(self).pos as nat),
        ensures
            final(self).follows(old(self)),
            gives_clause(
                r,
                final(self).pos as nat,
                structure::create_at(old(self).ts(), old(self).pos as nat),
            ),
            r is Ok ==> final(self).pos > old(self).pos,
    {
        reveal(structure::create_at);
        let start = self.span();
        self.bump();
        let patterns = match self.pattern_list() {
            Err(e) => {
                return Err(e);
            },
            Ok(x) => x,
        };
        Ok(Clause::Create(CreateClause { patterns, span: start.to(self.prev_span()) }))
    }

    fn set_clause(&mut self) -> (r: Result<Clause, ParseError>)
        requires
            old(self).ready(),
            grammar::is_name(old(self).ts(), old(self).pos as nat),
        ensures
            final(self).follows(old(self)),
            gives_clause(
                r,
                final(self).pos as nat,
                structure::set_at(old(self).ts(), old(self).pos as nat),
            ),
            r is Ok ==> final(self).pos > old(self).pos,
    {
        reveal(structure::set_at);
        let start = self.span();
        self.bump();
        let mut items: Vec<SetItem> = Vec::new();
        assert(ast::set_items_view(items@) =~= seq![]);
        if let Err(e) = self.push_set_items(&mut items) {
            teardown::discard_set_items(items);
            return Err(e);
        }
        Ok(Clause::SetItems(SetClause { items, span: start.to(self.prev_span()) }))
    }

    fn remove_clause(&mut self) -> (r: Result<Clause, ParseError>)
        requires
            old(self).ready(),
            grammar::is_name(old(self).ts(), old(self).pos as nat),
        ensures
            final(self).follows(old(self)),
            gives_clause(
                r,
                final(self).pos as nat,
                structure::remove_at(old(self).ts(), old(self).pos as nat),
            ),
            r is Ok ==> final(self).pos > old(self).pos,
    {
        reveal(structure::remove_at);
        let start = self.span();
        self.bump();
        let items = match self.remove_items() {
            Err(e) => {
                return Err(e);
            },
            Ok(x) => x,
        };
        Ok(Clause::Remove(RemoveClause { items, span: start.to(self.prev_span()) }))
    }

    fn clause(&mut self) -> (r: Result<Clause, ParseError>)
        requires
            old(self).ready(),
        ensures
            final(self).follows(old(self)),
            gives_clause(
                r,
                final(self).pos as nat,
                structure::clause_at(old(self).ts(), old(self).pos as nat, old(self).source@),
            ),
            r is Ok ==> final(self).pos > old(self).pos,
    {
        reveal(structure::clause_at);
        let start = self.span();
        if self.at_kw2("OPTIONAL", "MATCH") {
            self.bump();
            self.bump();
            return self.match_clause(true, start);
        }
        if self.eat_kw("MATCH") {
            return self.match_clause(false, start);
        }
        if self.at_kw("UNWIND") {
            return self.unwind_clause();
        }
        if self.eat_kw("WITH") {
            let projection = match self.projection(start, true) {
                Err(e) => {
                    return Err(e);
                },
                Ok(x) => x,
            };
            return Ok(Clause::With(projection));
        }
        if self.eat_kw("RETURN") {
            let projection = match self.projection(start, false) {
                Err(e) => {
                    return Err(e);
                },
                Ok(x) => x,
            };
            return Ok(Clause::Return(projection));
        }
        if self.at_kw("CALL") {
            return self.call_clause();
        }
        if self.at_kw("CREATE") {
            return self.create_clause();
        }
        if self.at_kw("SET") {
            return self.set_clause();
        }
        if self.at_kw("REMOVE") {
            return self.remove_clause();
        }
        if self.at_kw2("DETACH", "DELETE") {
            self.bump();
            self.bump();
            return self.delete_clause(true, start);
        }
        if self.eat_kw("DELETE") {
            return self.delete_clause(false, start);
        }
        if self.at_kw("MERGE") {
            return self.merge_clause();
        }
        Err(
            self.unexpected(
                "a clause (MATCH, OPTIONAL MATCH, UNWIND, WITH, RETURN, CALL, CREATE, SET, REMOVE, DELETE or DETACH DELETE)",
            ),
        )
    }

    fn clauses(&mut self) -> (r: Result<Vec<Clause>, ParseError>)
        requires
            old(self).ready(),
        ensures
            final(self).follows(old(self)),
            gives_clauses(
                r,
                final(self).pos as nat,
                structure::clauses_at(
                    old(self).ts(),
                    old(self).pos as nat,
                    old(self).source@,
                    seq![],
                ),
            ),
    {
        let ghost ts = self.ts();
        let ghost source = self.source@;
        let mut out: Vec<Clause> = Vec::new();
        assert(ast::clauses_view(out@) =~= seq![]);
        let ghost model = structure::clauses_at(ts, self.pos as nat, source, seq![]);
        while !self.at(&TokenKind::Eof) && !self.at(&TokenKind::Semicolon)
            invariant
                self.follows(old(self)),
                ts == self.ts(),
                source == self.source@,
                model == structure::clauses_at(ts, old(self).pos as nat, source, seq![]),
                model == structure::clauses_at(
                    ts,
                    self.pos as nat,
                    source,
                    ast::clauses_view(out@),
                ),
            decreases self.tokens.len() - self.pos,
        {
            reveal(structure::clauses_at);
            if out.len() > 0 {
                assert(ast::clauses_view(out@).last() == out@.last()@);
                if matches!(out[out.len() - 1], Clause::Return(_)) {
                    teardown::discard_clauses(out);
                    return Err(
                        ParseError::QueryStructure {
                            message: "no clause may follow RETURN".to_owned(),
                            span: self.span(),
                        },
                    );
                }
            }
            let clause = match self.clause() {
                Err(e) => {
                    teardown::discard_clauses(out);
                    return Err(e);
                },
                Ok(x) => x,
            };
            assert(ast::clauses_view(out@.push(clause)) =~= ast::clauses_view(out@).push(clause@));
            out.push(clause);
        }
        reveal(structure::clauses_at);
        Ok(out)
    }

    fn query(&mut self) -> (r: Result<Query, ParseError>)
        requires
            old(self).ready(),
        ensures
            final(self).follows(old(self)),
            gives_query(
                r,
                final(self).pos as nat,
                structure::query_at(old(self).ts(), old(self).pos as nat, old(self).source@),
            ),
    {
        let start = self.span();
        let clauses = match self.clauses() {
            Err(e) => {
                return Err(e);
            },
            Ok(x) => x,
        };
        let span = start.to(self.prev_span());
        if clauses.len() == 0 {
            teardown::discard_clauses(clauses);
            return Err(
                ParseError::QueryStructure {
                    message: "empty query".to_owned(),
                    span: Span::new(0, 0),
                },
            );
        }
        let last = &clauses[clauses.len() - 1];
        assert(ast::clauses_view(clauses@).last() == last@);
        // A query ends on RETURN, a standalone CALL, or a write clause (a bare
        // `CREATE ...` with no trailing projection).
        if matches!(last, Clause::Return(_)) || matches!(last, Clause::Call(_)) || last.is_write() {
            return Ok(Query { clauses, span });
        }
        let at = last.span();
        teardown::discard_clauses(clauses);
        Err(
            ParseError::QueryStructure {
                message:
                "query must end with RETURN, a write clause, or a standalone CALL".to_owned(),
                span: at,
            },
        )
    }

    fn expect_end(&mut self) -> (r: Result<(), ParseError>)
        requires
            old(self).ready(),
        ensures
            structure::end_at(old(self).ts(), old(self).pos as nat) == match r {
                Ok(_) => Ok::<_, ParseErrorView>(()),
                Err(e) => Err(e@),
            },
    {
        self.eat(&TokenKind::Semicolon);
        if self.at(&TokenKind::Eof) {
            Ok(())
        } else {
            Err(self.unexpected("end of query"))
        }
    }
}

/// What a relationship's brackets hold.
struct Detail {
    variable: Option<String>,
    types: Vec<String>,
    var_length: Option<VarLength>,
    properties: Option<Expr>,
}

impl Detail {
    spec fn view(&self) -> RelDetail {
        RelDetail {
            variable: opt_name_view(self.variable),
            types: text::strings_view(self.types@),
            var_length: self.var_length,
            properties: opt_expr_view(self.properties),
        }
    }
}

/// Parse a single openCypher query into a spanned tree.
///
/// Guarantees, whatever the input: no panics, bounded parse-time recursion
/// ([`MAX_DEPTH`]), and any returned `Query` has expression nesting no deeper
/// than [`MAX_AST_DEPTH`].
pub fn parse(input: &str) -> (r: Result<Query, ParseError>)
    ensures
        structure::parsed(input@) == match r {
            Ok(query) => Ok::<_, ParseErrorView>(query@),
            Err(e) => Err(e@),
        },
        r matches Ok(query) ==> nesting::query_depth(query@) <= MAX_AST_DEPTH,
{
    let tokens = match lex::lex(input) {
        Err(e) => {
            return Err(e);
        },
        Ok(x) => x,
    };
    let bytes: usize = text::str_bytes(input);
    proof {
        lex::tokens_are_closed_by_eof(input@);
    }
    let mut parser = Parser { source: input, tokens, pos: 0 };
    let query = match parser.query() {
        Err(e) => {
            return Err(e);
        },
        Ok(x) => x,
    };
    if let Err(e) = parser.expect_end() {
        query.discard();
        return Err(e);
    }
    if query.depth() > MAX_AST_DEPTH {
        let span = query.span;
        query.discard();
        return Err(ParseError::RecursionLimit { limit: MAX_AST_DEPTH, span });
    }
    Ok(query)
}

} // verus!
