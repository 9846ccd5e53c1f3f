//! Name resolution, scoping and validation of a parsed query against a schema
//! catalogue, lowering the syntax tree to its bound form.
//!
//! Recursion here mirrors expression nesting, which the parser bounds at
//! `MAX_AST_DEPTH`: the binder never recurses deeper than the tree it is given.

use vstd::prelude::*;
use vstd::string::*;

use crate::ast::{
    self, AtRef, AtRefView, CallClause, Clause, DeleteClause, Direction, Expr, ExprView, Literal,
    MatchClause, MergeClause, NodePattern, PathPattern, Projection, ProjectionItem, Query,
    RelPattern, RemoveItem, SetItem, SortItem, UnwindClause,
};
use crate::bind::bound::{
    self, BoundClause, BoundClauseView, BoundExpr, BoundExprView, BoundNodePattern,
    BoundNodePatternView, BoundPathPattern, BoundPathPatternView, BoundProjection,
    BoundProjectionItem, BoundProjectionItemView, BoundProjectionView, BoundQuery, BoundRelPattern,
    BoundRelPatternView, BoundRemoveItem, BoundSetItem, BoundSetItemView, EntityKind, IndexHint,
    IndexHintView, ProcedureDef, VarBinding, VarId,
};
use crate::bind::catalogue::Catalogue;
use crate::bind::clause_rules::{self, Draft, Drafted, Ordered, Projected};
use crate::bind::error::{BindError, BindErrorView, Suggestion};
use crate::bind::grouping::{self, KeyIndex, RefErrorMode, RefRule, Rule};
use crate::bind::rules::{self, BindMode, Bindings, ExprCtx, Lowered, Setting};
use crate::bind::subtrees;
use crate::exec::create;
use crate::exec::matching;
use crate::exec::projection_model;
use crate::exec::run;
use crate::names::NameMap;
use crate::span::{self, Span};
use crate::suggest;
use crate::text;

verus! {

spec fn opt_expr_view(o: Option<Expr>) -> Option<ExprView> {
    match o {
        Some(x) => Some(x@),
        None => None,
    }
}

spec fn opt_box_view(o: Option<Box<Expr>>) -> Option<Box<ExprView>> {
    match o {
        Some(x) => Some(Box::new(x@)),
        None => None,
    }
}

spec fn opt_bound_box_view(o: Option<Box<BoundExpr>>) -> Option<Box<BoundExprView>> {
    match o {
        Some(x) => Some(Box::new(x@)),
        None => None,
    }
}

spec fn opt_name_view(o: Option<String>) -> Option<Seq<char>> {
    match o {
        Some(x) => Some(x@),
        None => None,
    }
}

spec fn opt_at_view(o: Option<AtRef>) -> Option<AtRefView> {
    match o {
        Some(x) => Some(x@),
        None => None,
    }
}

spec fn opt_hint_view(o: Option<IndexHint>) -> Option<IndexHintView> {
    match o {
        Some(x) => Some(x@),
        None => None,
    }
}

/// Whether binding came to what the rules say.
spec fn gives_expr(
    r: Result<BoundExpr, BindError>,
    b: Bindings,
    model: Lowered<BoundExprView>,
) -> bool {
    match r {
        Ok(x) => model == Ok::<_, BindErrorView>((x@, b)),
        Err(e) => model == Err::<(BoundExprView, Bindings), _>(e@),
    }
}

spec fn gives_obox(
    r: Result<Option<Box<BoundExpr>>, BindError>,
    b: Bindings,
    model: Lowered<Option<Box<BoundExprView>>>,
) -> bool {
    match r {
        Ok(x) => model == Ok::<_, BindErrorView>((opt_bound_box_view(x), b)),
        Err(e) => model == Err::<(Option<Box<BoundExprView>>, Bindings), _>(e@),
    }
}

spec fn gives_oexpr(
    r: Result<Option<BoundExpr>, BindError>,
    b: Bindings,
    model: Lowered<Option<BoundExprView>>,
) -> bool {
    match r {
        Ok(x) => model == Ok::<_, BindErrorView>((matching::optional_expr(x), b)),
        Err(e) => model == Err::<(Option<BoundExprView>, Bindings), _>(e@),
    }
}

spec fn gives_exprs(
    r: Result<Vec<BoundExpr>, BindError>,
    b: Bindings,
    model: Lowered<Seq<BoundExprView>>,
) -> bool {
    match r {
        Ok(x) => model == Ok::<_, BindErrorView>((bound::bound_exprs_view(x@), b)),
        Err(e) => model == Err::<(Seq<BoundExprView>, Bindings), _>(e@),
    }
}

spec fn gives_branches(
    r: Result<Vec<(BoundExpr, BoundExpr)>, BindError>,
    b: Bindings,
    model: Lowered<Seq<(BoundExprView, BoundExprView)>>,
) -> bool {
    match r {
        Ok(x) => model == Ok::<_, BindErrorView>((bound::bound_expr_bound_exprs_view(x@), b)),
        Err(e) => model == Err::<(Seq<(BoundExprView, BoundExprView)>, Bindings), _>(e@),
    }
}

spec fn gives_entries(
    r: Result<Vec<(String, BoundExpr)>, BindError>,
    b: Bindings,
    model: Lowered<Seq<(Seq<char>, BoundExprView)>>,
) -> bool {
    match r {
        Ok(x) => model == Ok::<_, BindErrorView>((bound::string_bound_exprs_view(x@), b)),
        Err(e) => model == Err::<(Seq<(Seq<char>, BoundExprView)>, Bindings), _>(e@),
    }
}

spec fn gives_ovar(
    r: Result<Option<VarId>, BindError>,
    b: Bindings,
    model: Lowered<Option<VarId>>,
) -> bool {
    match r {
        Ok(x) => model == Ok::<_, BindErrorView>((x, b)),
        Err(e) => model == Err::<(Option<VarId>, Bindings), _>(e@),
    }
}

spec fn gives_path(
    r: Result<BoundPathPattern, BindError>,
    b: Bindings,
    model: Lowered<BoundPathPatternView>,
) -> bool {
    match r {
        Ok(x) => model == Ok::<_, BindErrorView>((x@, b)),
        Err(e) => model == Err::<(BoundPathPatternView, Bindings), _>(e@),
    }
}

spec fn gives_paths(
    r: Result<Vec<BoundPathPattern>, BindError>,
    b: Bindings,
    model: Lowered<Seq<BoundPathPatternView>>,
) -> bool {
    match r {
        Ok(x) => model == Ok::<_, BindErrorView>((bound::bound_path_patterns_view(x@), b)),
        Err(e) => model == Err::<(Seq<BoundPathPatternView>, Bindings), _>(e@),
    }
}

spec fn gives_steps(
    r: Result<Vec<(BoundRelPattern, BoundNodePattern)>, BindError>,
    b: Bindings,
    model: Lowered<Seq<(BoundRelPatternView, BoundNodePatternView)>>,
) -> bool {
    match r {
        Ok(x) => model == Ok::<_, BindErrorView>(
            (bound::bound_rel_pattern_bound_node_patterns_view(x@), b)
        ),
        Err(e) => model == Err::<(
            Seq<(BoundRelPatternView, BoundNodePatternView)>,
            Bindings,
        ), _>(e@),
    }
}

spec fn gives_node(
    r: Result<BoundNodePattern, BindError>,
    b: Bindings,
    model: Lowered<BoundNodePatternView>,
) -> bool {
    match r {
        Ok(x) => model == Ok::<_, BindErrorView>((x@, b)),
        Err(e) => model == Err::<(BoundNodePatternView, Bindings), _>(e@),
    }
}

spec fn gives_rel(
    r: Result<BoundRelPattern, BindError>,
    b: Bindings,
    model: Lowered<BoundRelPatternView>,
) -> bool {
    match r {
        Ok(x) => model == Ok::<_, BindErrorView>((x@, b)),
        Err(e) => model == Err::<(BoundRelPatternView, Bindings), _>(e@),
    }
}

spec fn gives_set_item(
    r: Result<BoundSetItem, BindError>,
    b: Bindings,
    model: Lowered<BoundSetItemView>,
) -> bool {
    match r {
        Ok(x) => model == Ok::<_, BindErrorView>((x@, b)),
        Err(e) => model == Err::<(BoundSetItemView, Bindings), _>(e@),
    }
}

spec fn gives_set_items(
    r: Result<Vec<BoundSetItem>, BindError>,
    b: Bindings,
    model: Lowered<Seq<BoundSetItemView>>,
) -> bool {
    match r {
        Ok(x) => model == Ok::<_, BindErrorView>((bound::bound_set_items_view(x@), b)),
        Err(e) => model == Err::<(Seq<BoundSetItemView>, Bindings), _>(e@),
    }
}

spec fn gives_yields(
    r: Result<Vec<(String, VarId)>, BindError>,
    b: Bindings,
    model: Lowered<Seq<(Seq<char>, VarId)>>,
) -> bool {
    match r {
        Ok(x) => model == Ok::<_, BindErrorView>((bound::string_var_ids_view(x@), b)),
        Err(e) => model == Err::<(Seq<(Seq<char>, VarId)>, Bindings), _>(e@),
    }
}

spec fn gives_drafts(
    r: Result<Vec<DraftItem>, BindError>,
    b: Bindings,
    model: Lowered<Seq<Draft>>,
) -> bool {
    match r {
        Ok(x) => model == Ok::<_, BindErrorView>((drafts_view(x@), b)),
        Err(e) => model == Err::<(Seq<Draft>, Bindings), _>(e@),
    }
}

spec fn gives_sorts(
    r: Result<Vec<(BoundExpr, bool)>, BindError>,
    b: Bindings,
    model: Lowered<Seq<(BoundExprView, bool)>>,
) -> bool {
    match r {
        Ok(x) => model == Ok::<_, BindErrorView>((bound::bound_expr_bools_view(x@), b)),
        Err(e) => model == Err::<(Seq<(BoundExprView, bool)>, Bindings), _>(e@),
    }
}

spec fn gives_projection(
    r: Result<BoundProjection, BindError>,
    b: Bindings,
    model: Lowered<BoundProjectionView>,
) -> bool {
    match r {
        Ok(x) => model == Ok::<_, BindErrorView>((x@, b)),
        Err(e) => model == Err::<(BoundProjectionView, Bindings), _>(e@),
    }
}

spec fn gives_clause(
    r: Result<BoundClause, BindError>,
    b: Bindings,
    model: Lowered<BoundClauseView>,
) -> bool {
    match r {
        Ok(x) => model == Ok::<_, BindErrorView>((x@, b)),
        Err(e) => model == Err::<(BoundClauseView, Bindings), _>(e@),
    }
}

spec fn gives_clauses(
    r: Result<Vec<BoundClause>, BindError>,
    b: Bindings,
    model: Lowered<Seq<BoundClauseView>>,
) -> bool {
    match r {
        Ok(x) => model == Ok::<_, BindErrorView>((bound::bound_clauses_view(x@), b)),
        Err(e) => model == Err::<(Seq<BoundClauseView>, Bindings), _>(e@),
    }
}

spec fn gives_none(r: Result<(), BindError>, model: Option<BindErrorView>) -> bool {
    model == match r {
        Ok(_) => None,
        Err(e) => Some(e@),
    }
}

pub(crate) fn dup_literal(l: &Literal) -> (r: Literal)
    ensures
        r@ == l@,
{
    match l {
        Literal::Null => Literal::Null,
        Literal::Boolean(b) => Literal::Boolean(*b),
        Literal::Integer(n) => Literal::Integer(*n),
        Literal::Float(x) => Literal::Float(*x),
        Literal::String(s) => Literal::String(s.clone()),
    }
}

fn dup_at_ref(at: &Option<AtRef>) -> (r: Option<AtRef>)
    ensures
        opt_at_view(r) == opt_at_view(*at),
{
    match at {
        Some(AtRef::Refspec { value, span }) => Some(
            AtRef::Refspec { value: value.clone(), span: *span },
        ),
        Some(AtRef::Parameter { name, span }) => Some(
            AtRef::Parameter { name: name.clone(), span: *span },
        ),
        None => None,
    }
}

/// The segments of a name, joined by dots.
fn join_dotted(segments: &Vec<String>) -> (r: String)
    ensures
        r@ == rules::dotted(text::strings_view(segments@), segments@.len()),
{
    let ghost all = text::strings_view(segments@);
    if segments.len() == 0 {
        return String::new();
    }
    let mut out = segments[0].clone();
    assert(all[0] == segments@[0]@);
    let mut i: usize = 1;
    while i < segments.len()
        invariant
            1 <= i <= segments.len(),
            all == text::strings_view(segments@),
            out@ == rules::dotted(all, i as nat),
        decreases segments.len() - i,
    {
        assert(all[i as int] == segments@[i as int]@);
        out = text::join3(out.as_str(), ".", segments[i].as_str());
        i += 1;
    }
    out
}

fn arity(min: usize, max: usize) -> (r: String)
    ensures
        r@ == rules::arity_text(min, max),
{
    if max == usize::MAX {
        text::join2("at least ", text::decimal_text(min as u64).as_str())
    } else if min == max {
        text::decimal_text(min as u64)
    } else {
        text::join3(
            text::decimal_text(min as u64).as_str(),
            "..",
            text::decimal_text(max as u64).as_str(),
        )
    }
}

fn is_constant_value(e: &Expr) -> (r: bool)
    ensures
        r == rules::is_constant(e@),
{
    matches!(e, Expr::Literal { .. } | Expr::Parameter { .. })
}

/// A projection item whose variable is not declared yet.
struct DraftItem {
    expr: BoundExpr,
    name: String,
    span: Span,
}

impl DraftItem {
    spec fn view(&self) -> Draft {
        Draft { expr: self.expr@, name: self.name@, span: self.span }
    }
}

spec fn drafts_view(v: Seq<DraftItem>) -> Seq<Draft> {
    Seq::new(v.len(), |i: int| v[i]@)
}

/// The part of a projection that sees the scope before it.
struct DraftProjection {
    drafts: Vec<DraftItem>,
    skip: Option<BoundExpr>,
    limit: Option<BoundExpr>,
    aggregating: bool,
}

/// The part of a projection that sees the projected names too.
struct OrderProjection {
    order_by: Vec<(BoundExpr, bool)>,
    where_clause: Option<BoundExpr>,
}

spec fn gives_drafted(
    r: Result<DraftProjection, BindError>,
    b: Bindings,
    model: Lowered<Drafted>,
) -> bool {
    match r {
        Ok(x) => model == Ok::<_, BindErrorView>(
            (
                Drafted {
                    drafts: drafts_view(x.drafts@),
                    skip: matching::optional_expr(x.skip),
                    limit: matching::optional_expr(x.limit),
                },
                b,
            ),
        ) && x.aggregating == clause_rules::aggregates(drafts_view(x.drafts@), x.drafts@.len()),
        Err(e) => model == Err::<(Drafted, Bindings), _>(e@),
    }
}

spec fn gives_ordered(
    r: Result<OrderProjection, BindError>,
    b: Bindings,
    model: Lowered<Ordered>,
) -> bool {
    match r {
        Ok(x) => model == Ok::<_, BindErrorView>(
            (
                Ordered {
                    order_by: bound::bound_expr_bools_view(x.order_by@),
                    where_clause: matching::optional_expr(x.where_clause),
                },
                b,
            ),
        ),
        Err(e) => model == Err::<(Ordered, Bindings), _>(e@),
    }
}

struct Binder<'a> {
    source: &'a str,
    catalogue: &'a Catalogue,
    mode: BindMode,
    variables: Vec<VarBinding>,
    /// Names currently visible.
    scope: NameMap<VarId>,
    autodeclare: bool,
    /// Relationship types that the query itself declares.
    coined: NameMap<()>,
}

fn no_agg() -> (r: ExprCtx)
    ensures
        r == rules::no_aggregates(),
{
    ExprCtx { aggregates_allowed: false, in_aggregate: false }
}

fn agg_ok() -> (r: ExprCtx)
    ensures
        r == rules::aggregates_ok(),
{
    ExprCtx { aggregates_allowed: true, in_aggregate: false }
}

impl<'a> Binder<'a> {
    spec fn view(&self) -> Bindings {
        Bindings {
            variables: bound::var_bindings_view(self.variables@),
            scope: self.scope@,
            coined: self.coined@,
        }
    }

    spec fn setting(&self) -> Setting {
        Setting {
            source: self.source@,
            catalogue: self.catalogue@,
            mode: self.mode,
            autodeclare: self.autodeclare,
        }
    }

    fn next_id(&self) -> (r: VarId)
        ensures
            r == self@.next_id(),
    {
        VarId(self.variables.len() as u32)
    }

    fn add_variable(&mut self, name: &str, kind: EntityKind, labels: Vec<String>) -> (r: VarId)
        ensures
            final(self).setting() == old(self).setting(),
            final(self)@ == old(self)@.with_variable(name@, kind, text::strings_view(labels@)),
            r == old(self)@.next_id(),
    {
        let id = self.next_id();
        let v = VarBinding { id, name: name.to_owned(), kind, labels };
        let ghost before = self.variables@;
        self.variables.push(v);
        assert(
            bound::var_bindings_view(before.push(v)) =~= bound::var_bindings_view(before).push(v@)
        );
        id
    }

    fn declare(&mut self, name: &str, kind: EntityKind, labels: Vec<String>) -> (r: VarId)
        ensures
            final(self).setting() == old(self).setting(),
            final(self)@ == old(self)@.declared(name@, kind, text::strings_view(labels@)),
            r == old(self)@.next_id(),
    {
        let id = self.add_variable(name, kind, labels);
        self.scope.insert(name.to_owned(), id);
        id
    }

    fn declare_value(&mut self, name: &str) -> (r: VarId)
        ensures
            final(self).setting() == old(self).setting(),
            final(self)@ == old(self)@.declared(name@, EntityKind::Value, seq![]),
            r == old(self)@.next_id(),
    {
        let none: Vec<String> = Vec::new();
        assert(text::strings_view(none@) =~= seq![]);
        self.declare(name, EntityKind::Value, none)
    }

    fn seen(&self, name: &str) -> (r: Option<VarId>)
        ensures
            r == self@.seen(name@),
    {
        match self.scope.get(name) {
            Some(id) => Some(*id),
            None => None,
        }
    }

    fn kind_of(&self, id: VarId) -> (r: EntityKind)
        ensures
            r == self@.kind_of(id),
    {
        let at: usize = id.0 as usize;
        if at < self.variables.len() {
            assert(self@.variables[at as int] == self.variables@[at as int]@);
            self.variables[at].kind
        } else {
            EntityKind::Value
        }
    }

    fn labels_of(&self, id: VarId) -> (r: Vec<String>)
        ensures
            text::strings_view(r@) == self@.labels_of(id),
    {
        let at: usize = id.0 as usize;
        if at < self.variables.len() {
            assert(self@.variables[at as int] == self.variables@[at as int]@);
            text::dup_strings(&self.variables[at].labels)
        } else {
            let none: Vec<String> = Vec::new();
            assert(text::strings_view(none@) =~= seq![]);
            none
        }
    }

    /// Restore a name to its pre-shadow binding (or remove it) after a scoped
    /// sub-expression (comprehension/quantifier/reduce variable).
    fn restore(&mut self, name: &str, before: Option<VarId>)
        ensures
            final(self).setting() == old(self).setting(),
            final(self)@ == old(self)@.restored(name@, before),
    {
        match before {
            Some(id) => {
                self.scope.insert(name.to_owned(), id);
            },
            None => {
                self.scope.remove(name);
            },
        }
    }

    // --- Against the schema -----------------------------------------------------------------------

    /// In Strict mode, labels have to be declared.
    fn check_labels(&self, labels: &Vec<String>, span: Span) -> (r: Result<(), BindError>)
        ensures
            gives_none(
                r,
                rules::undeclared_label(text::strings_view(labels@), 0, span, self.setting()),
            ),
    {
        if self.mode != BindMode::Strict {
            return Ok(());
        }
        let ghost all = text::strings_view(labels@);
        let ghost st = self.setting();
        let mut i: usize = 0;
        while i < labels.len()
            invariant
                i <= labels.len(),
                all == text::strings_view(labels@),
                st == self.setting(),
                st.mode == BindMode::Strict,
                rules::undeclared_label(all, 0, span, st) == rules::undeclared_label(all, i as int, span, st),
            decreases labels.len() - i,
        {
            assert(all[i as int] == labels@[i as int]@);
            if self.catalogue.label(labels[i].as_str()).is_none() {
                let suggestion = Suggestion(
                    suggest::nearest(labels[i].as_str(), &self.catalogue.label_names()),
                );
                return Err(
                    BindError::UnknownLabel { name: labels[i].clone(), span, suggestion },
                );
            }
            i += 1;
        }
        Ok(())
    }

    /// In Strict mode, relationship types have to be declared.
    fn check_types(&self, types: &Vec<String>, span: Span) -> (r: Result<(), BindError>)
        ensures
            gives_none(
                r,
                rules::undeclared_type(
                    text::strings_view(types@),
                    0,
                    span,
                    self@,
                    self.setting(),
                ),
            ),
    {
        if self.mode != BindMode::Strict {
            return Ok(());
        }
        let ghost all = text::strings_view(types@);
        let ghost st = self.setting();
        let mut i: usize = 0;
        while i < types.len()
            invariant
                i <= types.len(),
                all == text::strings_view(types@),
                st == self.setting(),
                st.mode == BindMode::Strict,
                rules::undeclared_type(all, 0, span, self@, st) == rules::undeclared_type(
                    all,
                    i as int,
                    span,
                    self@,
                    st,
                ),
            decreases types.len() - i,
        {
            assert(all[i as int] == types@[i as int]@);
            if self.catalogue.rel_type(types[i].as_str()).is_none() && !self.coined.contains(
                types[i].as_str(),
            ) {
                let suggestion = Suggestion(
                    suggest::nearest(types[i].as_str(), &self.catalogue.rel_type_names()),
                );
                return Err(
                    BindError::UnknownRelType {
                        name: types[i].clone(),
                        declare_cmd: text::quote(types[i].as_str()),
                        span,
                        suggestion,
                    },
                );
            }
            i += 1;
        }
        Ok(())
    }

    fn declared_by_any(&self, labels: &Vec<String>, property: &str) -> (r: bool)
        ensures
            r == rules::any_declares(text::strings_view(labels@), property@, self.setting()),
    {
        let ghost all = text::strings_view(labels@);
        let ghost st = self.setting();
        let mut i: usize = 0;
        while i < labels.len()
            invariant
                i <= labels.len(),
                all == text::strings_view(labels@),
                st == self.setting(),
                forall|k: int|
                0 <= k < i ==> !st.catalogue.declares_property(#[trigger] all[k], property@),
            decreases labels.len() - i,
        {
            assert(all[i as int] == labels@[i as int]@);
            if self.catalogue.declares_property(labels[i].as_str(), property) {
                return true;
            }
            i += 1;
        }
        false
    }

    fn shaped_label(&self, labels: &Vec<String>) -> (r: Option<String>)
        ensures
            rules::first_shaped(text::strings_view(labels@), 0, self.setting()) == match r {
                Some(label) => Some(label@),
                None => None,
            },
    {
        let ghost all = text::strings_view(labels@);
        let ghost st = self.setting();
        let mut i: usize = 0;
        while i < labels.len()
            invariant
                i <= labels.len(),
                all == text::strings_view(labels@),
                st == self.setting(),
                rules::first_shaped(all, 0, st) == rules::first_shaped(all, i as int, st),
            decreases labels.len() - i,
        {
            assert(all[i as int] == labels@[i as int]@);
            if self.catalogue.is_shaped(labels[i].as_str()) {
                return Some(labels[i].clone());
            }
            i += 1;
        }
        None
    }

    /// In Strict mode, a property that a map literal names has to be declared
    /// where a label declares a shape.
    fn check_properties(&self, properties: &Option<Expr>, labels: &Vec<String>) -> (r: Result<
        (),
        BindError,
        >)
        ensures
            gives_none(
                r,
                rules::undeclared_in(
                    opt_expr_view(*properties),
                    text::strings_view(labels@),
                    self.setting(),
                ),
            ),
    {
        if self.mode != BindMode::Strict {
            return Ok(());
        }
        match properties {
            Some(Expr::MapLiteral { entries, span }) => self.check_entries(entries, *span, labels),
            _ => Ok(()),
        }
    }

    fn check_entries(&self, entries: &Vec<(String, Expr)>, span: Span, labels: &Vec<String>) -> (r:
        Result<(), BindError>)
        requires
            self.mode == BindMode::Strict,
        ensures
            gives_none(
                r,
                rules::undeclared_property(
                    ast::string_exprs_view(entries@),
                    0,
                    text::strings_view(labels@),
                    span,
                    self.setting(),
                ),
            ),
    {
        let ghost all = ast::string_exprs_view(entries@);
        let ghost ls = text::strings_view(labels@);
        let ghost st = self.setting();
        let mut i: usize = 0;
        while i < entries.len()
            invariant
                i <= entries.len(),
                all == ast::string_exprs_view(entries@),
                ls == text::strings_view(labels@),
                st == self.setting(),
                st.mode == BindMode::Strict,
                rules::undeclared_property(all, 0, ls, span, st) == rules::undeclared_property(
                    all,
                    i as int,
                    ls,
                    span,
                    st,
                ),
            decreases entries.len() - i,
        {
            assert(all[i as int] == (entries@[i as int].0@, entries@[i as int].1@));
            let property = entries[i].0.as_str();
            if !self.declared_by_any(labels, property) {
                if let Some(label) = self.shaped_label(labels) {
                    let suggestion = Suggestion(
                        suggest::nearest(property, &self.catalogue.property_names(label.as_str())),
                    );
                    return Err(
                        BindError::UnknownProperty {
                            label,
                            property: property.to_owned(),
                            span,
                            suggestion,
                        },
                    );
                }
            }
            i += 1;
        }
        Ok(())
    }

    /// Planner hint: does the pattern's property map pin the leading key
    /// property (KeySeek on the primary map) or an indexed property
    /// (IndexSeek)? Only constant-ish values (literals, parameters) count.
    fn index_hint(&self, node: &NodePattern) -> (r: Option<IndexHint>)
        ensures
            rules::hint_for(node@, self.setting()) == opt_hint_view(r),
    {
        proof {
            node.lemma_view();
        }
        if node.labels.len() != 1 {
            return None;
        }
        let ghost st = self.setting();
        let label = node.labels[0].as_str();
        assert(text::strings_view(node.labels@)[0] == label@);
        match &node.properties {
            Some(Expr::MapLiteral { entries, .. }) => {
                if self.key_pinned(entries, label) {
                    Some(IndexHint::KeySeek { label: label.to_owned() })
                } else {
                    self.index_pinned(entries, label)
                }
            },
            _ => None,
        }
    }

    fn key_pinned(&self, entries: &Vec<(String, Expr)>, label: &str) -> (r: bool)
        ensures
            r == rules::pins_key(ast::string_exprs_view(entries@), 0, label@, self.setting()),
    {
        let ghost all = ast::string_exprs_view(entries@);
        let ghost st = self.setting();
        let mut i: usize = 0;
        while i < entries.len()
            invariant
                i <= entries.len(),
                all == ast::string_exprs_view(entries@),
                st == self.setting(),
                rules::pins_key(all, 0, label@, st) == rules::pins_key(all, i as int, label@, st),
            decreases entries.len() - i,
        {
            assert(all[i as int] == (entries@[i as int].0@, entries@[i as int].1@));
            if is_constant_value(&entries[i].1) && self.catalogue.is_key_prefix(
                label,
                entries[i].0.as_str(),
            ) {
                return true;
            }
            i += 1;
        }
        false
    }

    fn index_pinned(&self, entries: &Vec<(String, Expr)>, label: &str) -> (r: Option<IndexHint>)
        ensures
            opt_hint_view(r) == rules::pinned_index(
                ast::string_exprs_view(entries@),
                0,
                label@,
                self.setting(),
            ),
    {
        let ghost all = ast::string_exprs_view(entries@);
        let ghost st = self.setting();
        let mut j: usize = 0;
        while j < entries.len()
            invariant
                j <= entries.len(),
                all == ast::string_exprs_view(entries@),
                st == self.setting(),
                rules::pinned_index(all, 0, label@, st) == rules::pinned_index(
                    all,
                    j as int,
                    label@,
                    st,
                ),
            decreases entries.len() - j,
        {
            assert(all[j as int] == (entries@[j as int].0@, entries@[j as int].1@));
            if is_constant_value(&entries[j].1) {
                if let Some((name, def)) = self.catalogue.index_on(label, entries[j].0.as_str()) {
                    return Some(
                        IndexHint::IndexSeek {
                            name: name.to_owned(),
                            label: label.to_owned(),
                            property: entries[j].0.clone(),
                        },
                    );
                }
            }
            j += 1;
        }
        None
    }

    // --- Expressions ------------------------------------------------------------------------------

    fn expr(&mut self, e: &Expr, ctx: ExprCtx) -> (r: Result<BoundExpr, BindError>)
        ensures
            final(self).setting() == old(self).setting(),
            gives_expr(
                r,
                final(self)@,
                rules::expr_bound(e@, ctx, old(self)@, old(self).setting()),
            ),
        decreases e, 1int,
    {
        match e {
            Expr::Literal { value, span } => Ok(
                BoundExpr::Literal { value: dup_literal(value), span: *span },
            ),
            Expr::Parameter { name, span } => Ok(
                BoundExpr::Parameter { name: name.clone(), span: *span },
            ),
            Expr::Variable { name, span } => match self.seen(name.as_str()) {
                Some(id) => Ok(BoundExpr::Variable { id, span: *span }),
                None => Err(BindError::UndefinedVariable { name: name.clone(), span: *span }),
            },
            Expr::Property { base, key, span } => {
                let x = match self.expr(base, ctx) {
                    Err(e) => {
                        return Err(e);
                    },
                    Ok(x) => x,
                };
                Ok(BoundExpr::Property { base: Box::new(x), key: key.clone(), span: *span })
            },
            Expr::Unary { op, operand, span } => {
                let x = match self.expr(operand, ctx) {
                    Err(e) => {
                        return Err(e);
                    },
                    Ok(x) => x,
                };
                Ok(BoundExpr::Unary { op: *op, operand: Box::new(x), span: *span })
            },
            Expr::Binary { op, lhs, rhs, span } => {
                let x = match self.expr(lhs, ctx) {
                    Err(e) => {
                        return Err(e);
                    },
                    Ok(x) => x,
                };
                let y = match self.expr(rhs, ctx) {
                    Err(e) => {
                        return Err(e);
                    },
                    Ok(x) => x,
                };
                Ok(
                    BoundExpr::Binary { op: *op, lhs: Box::new(x), rhs: Box::new(y), span: *span },
                )
            },
            Expr::IsNull { operand, negated, span } => {
                let x = match self.expr(operand, ctx) {
                    Err(e) => {
                        return Err(e);
                    },
                    Ok(x) => x,
                };
                Ok(BoundExpr::IsNull { operand: Box::new(x), negated: *negated, span: *span })
            },
            Expr::FunctionCall { name, distinct, args, star, span } => {
                let name = join_dotted(name);
                self.function_call(name, *distinct, args, *star, *span, ctx)
            },
            Expr::Case { operand, whens, else_expr, span } => {
                let x = match self.boxed(operand, ctx) {
                    Err(e) => {
                        return Err(e);
                    },
                    Ok(x) => x,
                };
                let bound = match self.branches(whens, ctx) {
                    Err(e) => {
                        return Err(e);
                    },
                    Ok(x) => x,
                };
                let y = match self.boxed(else_expr, ctx) {
                    Err(e) => {
                        return Err(e);
                    },
                    Ok(x) => x,
                };
                Ok(BoundExpr::Case { operand: x, whens: bound, else_expr: y, span: *span })
            },
            Expr::ListLiteral { items, span } => {
                let bound = match self.exprs(items, ctx) {
                    Err(e) => {
                        return Err(e);
                    },
                    Ok(x) => x,
                };
                Ok(BoundExpr::ListLiteral { items: bound, span: *span })
            },
            Expr::ListComprehension { variable, list, where_clause, map, span } => {
                let x = match self.expr(list, ctx) {
                    Err(e) => {
                        return Err(e);
                    },
                    Ok(x) => x,
                };
                // The comprehension variable shadows any outer binding for the
                // where/map sub-expressions, which run per element, outside any
                // grouping.
                let before = self.seen(variable.as_str());
                let id = self.declare_value(variable.as_str());
                let filter = match self.boxed(where_clause, no_agg()) {
                    Err(e) => {
                        return Err(e);
                    },
                    Ok(x) => x,
                };
                let mapped = match self.boxed(map, no_agg()) {
                    Err(e) => {
                        return Err(e);
                    },
                    Ok(x) => x,
                };
                self.restore(variable.as_str(), before);
                Ok(
                    BoundExpr::ListComprehension {
                        variable: id,
                        list: Box::new(x),
                        where_clause: filter,
                        map: mapped,
                        span: *span,
                    },
                )
            },
            Expr::Quantifier { kind, variable, list, predicate, span } => {
                let x = match self.expr(list, ctx) {
                    Err(e) => {
                        return Err(e);
                    },
                    Ok(x) => x,
                };
                let before = self.seen(variable.as_str());
                let id = self.declare_value(variable.as_str());
                let p = match self.expr(predicate, no_agg()) {
                    Err(e) => {
                        return Err(e);
                    },
                    Ok(x) => x,
                };
                self.restore(variable.as_str(), before);
                Ok(
                    BoundExpr::Quantifier {
                        kind: *kind,
                        variable: id,
                        list: Box::new(x),
                        predicate: Box::new(p),
                        span: *span,
                    },
                )
            },
            Expr::Reduce { accumulator, init, variable, list, expr, span } => {
                let x = match self.expr(init, ctx) {
                    Err(e) => {
                        return Err(e);
                    },
                    Ok(x) => x,
                };
                let y = match self.expr(list, ctx) {
                    Err(e) => {
                        return Err(e);
                    },
                    Ok(x) => x,
                };
                // The accumulator and element variables scope the body.
                let outer = self.seen(accumulator.as_str());
                let acc = self.declare_value(accumulator.as_str());
                let before = self.seen(variable.as_str());
                let id = self.declare_value(variable.as_str());
                let body = match self.expr(expr, no_agg()) {
                    Err(e) => {
                        return Err(e);
                    },
                    Ok(x) => x,
                };
                self.restore(variable.as_str(), before);
                self.restore(accumulator.as_str(), outer);
                Ok(
                    BoundExpr::Reduce {
                        accumulator: acc,
                        init: Box::new(x),
                        variable: id,
                        list: Box::new(y),
                        expr: Box::new(body),
                        span: *span,
                    },
                )
            },
            Expr::MapLiteral { entries, span } => {
                let bound = match self.entries(entries, ctx) {
                    Err(e) => {
                        return Err(e);
                    },
                    Ok(x) => x,
                };
                Ok(BoundExpr::MapLiteral { entries: bound, span: *span })
            },
            Expr::Index { base, index, span } => {
                let x = match self.expr(base, ctx) {
                    Err(e) => {
                        return Err(e);
                    },
                    Ok(x) => x,
                };
                let y = match self.expr(index, ctx) {
                    Err(e) => {
                        return Err(e);
                    },
                    Ok(x) => x,
                };
                Ok(BoundExpr::Index { base: Box::new(x), index: Box::new(y), span: *span })
            },
            Expr::Slice { base, from, to, span } => {
                let x = match self.expr(base, ctx) {
                    Err(e) => {
                        return Err(e);
                    },
                    Ok(x) => x,
                };
                let y = match self.boxed(from, ctx) {
                    Err(e) => {
                        return Err(e);
                    },
                    Ok(x) => x,
                };
                let z = match self.boxed(to, ctx) {
                    Err(e) => {
                        return Err(e);
                    },
                    Ok(x) => x,
                };
                Ok(BoundExpr::Slice { base: Box::new(x), from: y, to: z, span: *span })
            },
            Expr::PatternPredicate { pattern, span } => {
                reveal(rules::pattern_bound);
                let p = match self.path_pattern(pattern, false) {
                    Err(e) => {
                        return Err(e);
                    },
                    Ok(x) => x,
                };
                Ok(BoundExpr::PatternPredicate { pattern: Box::new(p), span: *span })
            },
        }
    }

    fn boxed(
        &mut self,
        e: &Option<Box<Expr>>,
        ctx: ExprCtx,
    ) -> (r: Result<Option<Box<BoundExpr>>, BindError>)
        ensures
            final(self).setting() == old(self).setting(),
            gives_obox(
                r,
                final(self)@,
                rules::boxed_bound(opt_box_view(*e), ctx, old(self)@, old(self).setting()),
            ),
        decreases e, 0int,
    {
        match e {
            Some(x) => {
                let y = match self.expr(x, ctx) {
                    Err(e) => {
                        return Err(e);
                    },
                    Ok(x) => x,
                };
                Ok(Some(Box::new(y)))
            },
            None => Ok(None),
        }
    }

    fn exprs(&mut self, items: &Vec<Expr>, ctx: ExprCtx) -> (r: Result<Vec<BoundExpr>, BindError>)
        ensures
            final(self).setting() == old(self).setting(),
            gives_exprs(
                r,
                final(self)@,
                rules::exprs_bound(
                    ast::exprs_view(items@),
                    0,
                    ctx,
                    old(self)@,
                    old(self).setting(),
                    seq![],
                ),
            ),
        decreases items, 0int,
    {
        let ghost all = ast::exprs_view(items@);
        let ghost st = self.setting();
        let mut out: Vec<BoundExpr> = Vec::new();
        assert(bound::bound_exprs_view(out@) =~= seq![]);
        let ghost model = rules::exprs_bound(all, 0, ctx, self@, st, seq![]);
        let mut i: usize = 0;
        while i < items.len()
            invariant
                i <= items.len(),
                all == ast::exprs_view(items@),
                st == self.setting(),
                st == old(self).setting(),
                model == rules::exprs_bound(all, 0, ctx, old(self)@, st, seq![]),
                model == rules::exprs_bound(
                    all,
                    i as int,
                    ctx,
                    self@,
                    st,
                    bound::bound_exprs_view(out@),
                ),
            decreases items.len() - i,
        {
            proof {
                assert(decreases_to!(*items => items@[i as int]));
                assert(all[i as int] == items@[i as int]@);
            }
            let x = match self.expr(&items[i], ctx) {
                Err(e) => {
                    return Err(e);
                },
                Ok(x) => x,
            };
            assert(
                bound::bound_exprs_view(out@.push(x)) =~= bound::bound_exprs_view(out@).push(x@)
            );
            out.push(x);
            i += 1;
        }
        Ok(out)
    }

    fn branches(
        &mut self,
        whens: &Vec<(Expr, Expr)>,
        ctx: ExprCtx,
    ) -> (r: Result<Vec<(BoundExpr, BoundExpr)>, BindError>)
        ensures
            final(self).setting() == old(self).setting(),
            gives_branches(
                r,
                final(self)@,
                rules::branches_bound(
                    ast::expr_exprs_view(whens@),
                    0,
                    ctx,
                    old(self)@,
                    old(self).setting(),
                    seq![],
                ),
            ),
        decreases whens, 0int,
    {
        let ghost all = ast::expr_exprs_view(whens@);
        let ghost st = self.setting();
        let mut out: Vec<(BoundExpr, BoundExpr)> = Vec::new();
        assert(bound::bound_expr_bound_exprs_view(out@) =~= seq![]);
        let ghost model = rules::branches_bound(all, 0, ctx, self@, st, seq![]);
        let mut i: usize = 0;
        while i < whens.len()
            invariant
                i <= whens.len(),
                all == ast::expr_exprs_view(whens@),
                st == self.setting(),
                st == old(self).setting(),
                model == rules::branches_bound(all, 0, ctx, old(self)@, st, seq![]),
                model == rules::branches_bound(
                    all,
                    i as int,
                    ctx,
                    self@,
                    st,
                    bound::bound_expr_bound_exprs_view(out@),
                ),
            decreases whens.len() - i,
        {
            proof {
                assert(decreases_to!(*whens => whens@[i as int].0));
                assert(decreases_to!(*whens => whens@[i as int].1));
                assert(all[i as int] == (whens@[i as int].0@, whens@[i as int].1@));
            }
            let x = match self.expr(&whens[i].0, ctx) {
                Err(e) => {
                    return Err(e);
                },
                Ok(x) => x,
            };
            let y = match self.expr(&whens[i].1, ctx) {
                Err(e) => {
                    return Err(e);
                },
                Ok(x) => x,
            };
            let branch = (x, y);
            assert(bound::bound_expr_bound_exprs_view(out@.push(branch)) =~= bound::bound_expr_bound_exprs_view(
                    out@,
                ).push((x@, y@)));
            out.push(branch);
            i += 1;
        }
        Ok(out)
    }

    fn entries(
        &mut self,
        entries: &Vec<(String, Expr)>,
        ctx: ExprCtx,
    ) -> (r: Result<Vec<(String, BoundExpr)>, BindError>)
        ensures
            final(self).setting() == old(self).setting(),
            gives_entries(
                r,
                final(self)@,
                rules::entries_bound(
                    ast::string_exprs_view(entries@),
                    0,
                    ctx,
                    old(self)@,
                    old(self).setting(),
                    seq![],
                ),
            ),
        decreases entries, 0int,
    {
        let ghost all = ast::string_exprs_view(entries@);
        let ghost st = self.setting();
        let mut out: Vec<(String, BoundExpr)> = Vec::new();
        assert(bound::string_bound_exprs_view(out@) =~= seq![]);
        let ghost model = rules::entries_bound(all, 0, ctx, self@, st, seq![]);
        let mut i: usize = 0;
        while i < entries.len()
            invariant
                i <= entries.len(),
                all == ast::string_exprs_view(entries@),
                st == self.setting(),
                st == old(self).setting(),
                model == rules::entries_bound(all, 0, ctx, old(self)@, st, seq![]),
                model == rules::entries_bound(
                    all,
                    i as int,
                    ctx,
                    self@,
                    st,
                    bound::string_bound_exprs_view(out@),
                ),
            decreases entries.len() - i,
        {
            proof {
                assert(decreases_to!(*entries => entries@[i as int].1));
                assert(all[i as int] == (entries@[i as int].0@, entries@[i as int].1@));
            }
            let x = match self.expr(&entries[i].1, ctx) {
                Err(e) => {
                    return Err(e);
                },
                Ok(x) => x,
            };
            let entry = (entries[i].0.clone(), x);
            assert(bound::string_bound_exprs_view(out@.push(entry)) =~= bound::string_bound_exprs_view(out@).push(
                    (entry.0@, entry.1@),
            ));
            out.push(entry);
            i += 1;
        }
        Ok(out)
    }

    fn function_call(
        &mut self,
        name: String,
        distinct: bool,
        args: &Vec<Expr>,
        star: bool,
        span: Span,
        ctx: ExprCtx,
    ) -> (r: Result<BoundExpr, BindError>)
        ensures
            final(self).setting() == old(self).setting(),
            gives_expr(
                r,
                final(self)@,
                rules::call_bound(
                    name@,
                    distinct,
                    ast::exprs_view(args@),
                    star,
                    span,
                    ctx,
                    old(self)@,
                    old(self).setting(),
                ),
            ),
        decreases args, 1int,
    {
        assert(ast::exprs_view(args@).len() == args@.len());
        if let Some(def) = bound::lookup_aggregate(name.as_str()) {
            if !ctx.aggregates_allowed {
                return Err(BindError::InvalidAggregation { span });
            }
            if ctx.in_aggregate {
                return Err(BindError::NestedAggregation { span });
            }
            if star {
                if !text::str_eq(def.name, "count") {
                    return Err(
                        BindError::InvalidNumberOfArguments {
                            name,
                            expected: "1".to_owned(),
                            got: 0,
                            span,
                        },
                    );
                }
                return Ok(BoundExpr::Aggregate { def, distinct, arg: None, span });
            }
            if args.len() != 1 {
                return Err(
                    BindError::InvalidNumberOfArguments {
                        name,
                        expected: "1".to_owned(),
                        got: args.len(),
                        span,
                    },
                );
            }
            let inner = ExprCtx { aggregates_allowed: true, in_aggregate: true };
            proof {
                assert(decreases_to!(*args => args@[0]));
                assert(ast::exprs_view(args@)[0] == args@[0]@);
            }
            let x = match self.expr(&args[0], inner) {
                Err(e) => {
                    return Err(e);
                },
                Ok(x) => x,
            };
            return Ok(BoundExpr::Aggregate { def, distinct, arg: Some(Box::new(x)), span });
        }
        let def = match bound::lookup_function(name.as_str()) {
            None => {
                let suggestion = Suggestion(
                    suggest::nearest(name.as_str(), &bound::function_names()),
                );
                return Err(BindError::UnknownFunction { name, span, suggestion });
            },
            Some(def) => def,
        };
        if star || distinct {
            // `f(*)` and `f(DISTINCT x)` are aggregate-only forms.
            return Err(BindError::InvalidAggregation { span });
        }
        if args.len() < def.min_args || args.len() > def.max_args {
            return Err(
                BindError::InvalidNumberOfArguments {
                    name,
                    expected: arity(def.min_args, def.max_args),
                    got: args.len(),
                    span,
                },
            );
        }
        let bound = match self.exprs(args, ctx) {
            Err(e) => {
                return Err(e);
            },
            Ok(x) => x,
        };
        Ok(BoundExpr::Function { def, args: bound, span })
    }

    // --- Patterns ---------------------------------------------------------------------------------

    fn path_variable(
        &mut self,
        variable: &Option<String>,
        introduce: bool,
        span: Span,
    ) -> (r: Result<Option<VarId>, BindError>)
        ensures
            final(self).setting() == old(self).setting(),
            gives_ovar(
                r,
                final(self)@,
                rules::path_var_bound(opt_name_view(*variable), introduce, span, old(self)@),
            ),
    {
        match variable {
            None => Ok(None),
            Some(name) => {
                if self.seen(name.as_str()).is_some() {
                    return Err(BindError::VariableAlreadyBound { name: name.clone(), span });
                }
                if !introduce {
                    return Err(
                        BindError::NewVariableInPatternPredicate { name: name.clone(), span },
                    );
                }
                let none: Vec<String> = Vec::new();
                assert(text::strings_view(none@) =~= seq![]);
                Ok(Some(self.declare(name.as_str(), EntityKind::Path, none)))
            },
        }
    }

    fn path_pattern(
        &mut self,
        p: &PathPattern,
        introduce: bool,
    ) -> (r: Result<BoundPathPattern, BindError>)
        ensures
            final(self).setting() == old(self).setting(),
            gives_path(
                r,
                final(self)@,
                rules::pattern_bound(p@, introduce, old(self)@, old(self).setting()),
            ),
        decreases p, 0int,
    {
        reveal(rules::pattern_bound);
        reveal(rules::node_bound);
        reveal(rules::steps_bound);
        proof {
            p.lemma_view();
        }
        let path_var = match self.path_variable(&p.variable, introduce, p.span) {
            Err(e) => {
                return Err(e);
            },
            Ok(x) => x,
        };
        let start = match self.node_pattern(&p.start, introduce) {
            Err(e) => {
                return Err(e);
            },
            Ok(x) => x,
        };
        let steps = match self.path_steps(&p.steps, introduce) {
            Err(e) => {
                return Err(e);
            },
            Ok(x) => x,
        };
        let r = BoundPathPattern { path_var, start, steps, span: p.span };
        proof {
            r.lemma_view();
        }
        Ok(r)
    }

    fn path_steps(
        &mut self,
        steps: &Vec<(RelPattern, NodePattern)>,
        introduce: bool,
    ) -> (r: Result<Vec<(BoundRelPattern, BoundNodePattern)>, BindError>)
        ensures
            final(self).setting() == old(self).setting(),
            gives_steps(
                r,
                final(self)@,
                rules::steps_bound(
                    ast::rel_pattern_node_patterns_view(steps@),
                    0,
                    introduce,
                    old(self)@,
                    old(self).setting(),
                    seq![],
                ),
            ),
        decreases steps, 0int,
    {
        reveal(rules::steps_bound);
        let ghost all = ast::rel_pattern_node_patterns_view(steps@);
        let ghost st = self.setting();
        let mut out: Vec<(BoundRelPattern, BoundNodePattern)> = Vec::new();
        assert(bound::bound_rel_pattern_bound_node_patterns_view(out@) =~= seq![]);
        let ghost model = rules::steps_bound(all, 0, introduce, self@, st, seq![]);
        let mut i: usize = 0;
        while i < steps.len()
            invariant
                i <= steps.len(),
                all == ast::rel_pattern_node_patterns_view(steps@),
                st == self.setting(),
                st == old(self).setting(),
                model == rules::steps_bound(all, 0, introduce, old(self)@, st, seq![]),
                model == rules::steps_bound(
                    all,
                    i as int,
                    introduce,
                    self@,
                    st,
                    bound::bound_rel_pattern_bound_node_patterns_view(out@),
                ),
            decreases steps.len() - i,
        {
            reveal(rules::steps_bound);
            reveal(rules::rel_bound);
            reveal(rules::node_bound);
            proof {
                assert(decreases_to!(*steps => steps@[i as int].0));
                assert(decreases_to!(*steps => steps@[i as int].1));
                assert(all[i as int] == (steps@[i as int].0@, steps@[i as int].1@));
            }
            let rel = match self.rel_pattern(&steps[i].0, introduce) {
                Err(e) => {
                    return Err(e);
                },
                Ok(x) => x,
            };
            let node = match self.node_pattern(&steps[i].1, introduce) {
                Err(e) => {
                    return Err(e);
                },
                Ok(x) => x,
            };
            let step = (rel, node);
            assert(bound::bound_rel_pattern_bound_node_patterns_view(out@.push(step))
                =~= bound::bound_rel_pattern_bound_node_patterns_view(out@).push((step.0@, step.1@)));
            out.push(step);
            i += 1;
        }
        Ok(out)
    }

    fn optional(&mut self, e: &Option<Expr>) -> (r: Result<Option<BoundExpr>, BindError>)
        ensures
            final(self).setting() == old(self).setting(),
            gives_oexpr(
                r,
                final(self)@,
                rules::properties_bound(opt_expr_view(*e), old(self)@, old(self).setting()),
            ),
        decreases e, 0int,
    {
        match e {
            Some(x) => {
                let y = match self.expr(x, no_agg()) {
                    Err(e) => {
                        return Err(e);
                    },
                    Ok(x) => x,
                };
                Ok(Some(y))
            },
            None => Ok(None),
        }
    }

    fn node_variable(
        &mut self,
        node: &NodePattern,
        introduce: bool,
    ) -> (r: Result<Option<VarId>, BindError>)
        ensures
            final(self).setting() == old(self).setting(),
            gives_ovar(r, final(self)@, rules::node_var_bound(node@, introduce, old(self)@)),
    {
        proof {
            node.lemma_view();
        }
        let name = match &node.variable {
            None => {
                return Ok(None);
            },
            Some(name) => name,
        };
        match self.seen(name.as_str()) {
            Some(id) => {
                let kind = self.kind_of(id);
                match kind {
                    // Values may hold nodes at run time (UNWIND elements,
                    // coalesce results, nulls): the executor re-checks.
                    EntityKind::Node | EntityKind::Value => Ok(Some(id)),
                    EntityKind::Relationship | EntityKind::RelationshipList => Err(
                        BindError::VariableTypeConflict {
                            name: name.clone(),
                            expected: EntityKind::Node.describe(),
                            actual: kind.describe(),
                            span: node.span,
                        },
                    ),
                    // Paths rebind nowhere, per openCypher.
                    EntityKind::Path => Err(
                        BindError::VariableAlreadyBound { name: name.clone(), span: node.span },
                    ),
                }
            },
            None => {
                if !introduce {
                    return Err(
                        BindError::NewVariableInPatternPredicate {
                            name: name.clone(),
                            span: node.span,
                        },
                    );
                }
                let id = self.declare(
                    name.as_str(),
                    EntityKind::Node,
                    text::dup_strings(&node.labels),
                );
                Ok(Some(id))
            },
        }
    }

    fn node_pattern(
        &mut self,
        node: &NodePattern,
        introduce: bool,
    ) -> (r: Result<BoundNodePattern, BindError>)
        ensures
            final(self).setting() == old(self).setting(),
            gives_node(
                r,
                final(self)@,
                rules::node_bound(node@, introduce, old(self)@, old(self).setting()),
            ),
        decreases node, 0int,
    {
        reveal(rules::node_bound);
        proof {
            node.lemma_view();
        }
        if let Err(e) = self.check_labels(&node.labels, node.span) {
            return Err(e);
        }
        let var = match self.node_variable(node, introduce) {
            Err(e) => {
                return Err(e);
            },
            Ok(x) => x,
        };
        if let Err(e) = self.check_properties(&node.properties, &node.labels) {
            return Err(e);
        }
        let properties = match self.optional(&node.properties) {
            Err(e) => {
                return Err(e);
            },
            Ok(x) => x,
        };
        let index_hint = self.index_hint(node);
        let r = BoundNodePattern {
            var,
            labels: text::dup_strings(&node.labels),
            properties,
            index_hint,
            span: node.span,
        };
        proof {
            r.lemma_view();
        }
        Ok(r)
    }

    fn rel_variable(
        &mut self,
        rel: &RelPattern,
        introduce: bool,
    ) -> (r: Result<Option<VarId>, BindError>)
        ensures
            final(self).setting() == old(self).setting(),
            gives_ovar(r, final(self)@, rules::rel_var_bound(rel@, introduce, old(self)@)),
    {
        proof {
            rel.lemma_view();
        }
        let name = match &rel.variable {
            None => {
                return Ok(None);
            },
            Some(name) => name,
        };
        match self.seen(name.as_str()) {
            // A bound relationship (or list, or projected value) may reappear in
            // a later pattern as an equality constraint. Nodes and paths in
            // relationship position are conflicts.
            Some(id) => {
                let kind = self.kind_of(id);
                match kind {
                    EntityKind::Relationship | EntityKind::RelationshipList | EntityKind::Value => {
                        Ok(Some(id))
                    },
                    EntityKind::Node => Err(
                        BindError::VariableTypeConflict {
                            name: name.clone(),
                            expected: EntityKind::Relationship.describe(),
                            actual: kind.describe(),
                            span: rel.span,
                        },
                    ),
                    EntityKind::Path => Err(
                        BindError::VariableAlreadyBound { name: name.clone(), span: rel.span },
                    ),
                }
            },
            None => {
                if !introduce {
                    return Err(
                        BindError::NewVariableInPatternPredicate {
                            name: name.clone(),
                            span: rel.span,
                        },
                    );
                }
                let kind = if rel.var_length.is_some() {
                    EntityKind::RelationshipList
                } else {
                    EntityKind::Relationship
                };
                let none: Vec<String> = Vec::new();
                assert(text::strings_view(none@) =~= seq![]);
                Ok(Some(self.declare(name.as_str(), kind, none)))
            },
        }
    }

    fn rel_pattern(
        &mut self,
        rel: &RelPattern,
        introduce: bool,
    ) -> (r: Result<BoundRelPattern, BindError>)
        ensures
            final(self).setting() == old(self).setting(),
            gives_rel(
                r,
                final(self)@,
                rules::rel_bound(rel@, introduce, old(self)@, old(self).setting()),
            ),
        decreases rel, 0int,
    {
        reveal(rules::rel_bound);
        proof {
            rel.lemma_view();
        }
        if let Err(e) = self.check_types(&rel.types, rel.span) {
            return Err(e);
        }
        let var = match self.rel_variable(rel, introduce) {
            Err(e) => {
                return Err(e);
            },
            Ok(x) => x,
        };
        let properties = match self.optional(&rel.properties) {
            Err(e) => {
                return Err(e);
            },
            Ok(x) => x,
        };
        let r = BoundRelPattern {
            var,
            types: text::dup_strings(&rel.types),
            direction: rel.direction,
            var_length: rel.var_length,
            properties,
            span: rel.span,
        };
        proof {
            r.lemma_view();
        }
        Ok(r)
    }

    // --- SET and REMOVE ---------------------------------------------------------------------------

    /// Resolve a SET/REMOVE target variable. Label operations pass
    /// `allow_rel = false`: a relationship carries no labels.
    fn entity_target(&self, name: &str, span: Span, allow_rel: bool) -> (r: Result<
        VarId,
        BindError,
        >)
        ensures
            clause_rules::target_of(name@, span, allow_rel, self@) == match r {
                Ok(id) => Ok::<_, BindErrorView>(id),
                Err(e) => Err(e@),
            },
    {
        let id = match self.seen(name) {
            None => {
                return Err(BindError::UndefinedVariable { name: name.to_owned(), span });
            },
            Some(id) => id,
        };
        let kind = self.kind_of(id);
        if kind == EntityKind::Node || kind == EntityKind::Value || (kind
            == EntityKind::Relationship && allow_rel) {
            return Ok(id);
        }
        Err(
            BindError::VariableTypeConflict {
                name: name.to_owned(),
                expected: if allow_rel {
                    "node or relationship"
                } else {
                    EntityKind::Node.describe()
                },
                actual: kind.describe(),
                span,
            },
        )
    }

    /// In Strict mode, reject touching a key property of a statically-known
    /// label.
    fn reject_key_property(&self, labels: &Vec<String>, property: &str, span: Span) -> (r: Result<
        (),
        BindError,
        >)
        ensures
            gives_none(
                r,
                clause_rules::key_touched(
                    text::strings_view(labels@),
                    0,
                    property@,
                    span,
                    self.setting(),
                ),
            ),
    {
        if self.mode != BindMode::Strict {
            return Ok(());
        }
        let ghost all = text::strings_view(labels@);
        let ghost st = self.setting();
        let mut i: usize = 0;
        while i < labels.len()
            invariant
                i <= labels.len(),
                all == text::strings_view(labels@),
                st == self.setting(),
                st.mode == BindMode::Strict,
                clause_rules::key_touched(all, 0, property@, span, st) == clause_rules::key_touched(
                    all,
                    i as int,
                    property@,
                    span,
                    st,
                ),
            decreases labels.len() - i,
        {
            assert(all[i as int] == labels@[i as int]@);
            if self.catalogue.is_key_property(labels[i].as_str(), property) {
                return Err(
                    BindError::SetKeyProperty {
                        label: labels[i].clone(),
                        property: property.to_owned(),
                        span,
                    },
                );
            }
            i += 1;
        }
        Ok(())
    }

    /// A `+=` map literal that names a key property is rejected.
    fn reject_key_entries(&self, labels: &Vec<String>, value: &Expr, span: Span) -> (r: Result<
        (),
        BindError,
        >)
        ensures
            gives_none(
                r,
                clause_rules::key_merged(value@, text::strings_view(labels@), span, self.setting()),
            ),
    {
        match value {
            Expr::MapLiteral { entries, .. } => self.reject_key_names(labels, entries, span),
            _ => Ok(()),
        }
    }

    fn reject_key_names(
        &self,
        labels: &Vec<String>,
        entries: &Vec<(String, Expr)>,
        span: Span,
    ) -> (r: Result<(), BindError>)
        ensures
            gives_none(
                r,
                clause_rules::key_in_entries(
                    ast::string_exprs_view(entries@),
                    0,
                    text::strings_view(labels@),
                    span,
                    self.setting(),
                ),
            ),
    {
        let ghost all = ast::string_exprs_view(entries@);
        let ghost ls = text::strings_view(labels@);
        let ghost st = self.setting();
        let mut k: usize = 0;
        while k < entries.len()
            invariant
                k <= entries.len(),
                all == ast::string_exprs_view(entries@),
                ls == text::strings_view(labels@),
                st == self.setting(),
                clause_rules::key_in_entries(all, 0, ls, span, st) == clause_rules::key_in_entries(
                    all,
                    k as int,
                    ls,
                    span,
                    st,
                ),
            decreases entries.len() - k,
        {
            assert(all[k as int] == (entries@[k as int].0@, entries@[k as int].1@));
            if let Err(e) = self.reject_key_property(labels, entries[k].0.as_str(), span) {
                return Err(e);
            }
            k += 1;
        }
        Ok(())
    }

    /// Replacing the whole map would wipe key properties.
    fn reject_keyed(&self, labels: &Vec<String>, span: Span) -> (r: Result<(), BindError>)
        ensures
            gives_none(
                r,
                clause_rules::key_replaced(text::strings_view(labels@), 0, span, self.setting()),
            ),
    {
        if self.mode != BindMode::Strict {
            return Ok(());
        }
        let ghost all = text::strings_view(labels@);
        let ghost st = self.setting();
        let mut i: usize = 0;
        while i < labels.len()
            invariant
                i <= labels.len(),
                all == text::strings_view(labels@),
                st == self.setting(),
                st.mode == BindMode::Strict,
                clause_rules::key_replaced(all, 0, span, st) == clause_rules::key_replaced(all, i as int, span, st),
            decreases labels.len() - i,
        {
            assert(all[i as int] == labels@[i as int]@);
            if let Some(def) = self.catalogue.label(labels[i].as_str()) {
                if def.key.len() > 0 {
                    return Err(
                        BindError::SetKeyProperty {
                            label: labels[i].clone(),
                            property: def.key[0].clone(),
                            span,
                        },
                    );
                }
            }
            i += 1;
        }
        Ok(())
    }

    fn set_item(&mut self, item: &SetItem) -> (r: Result<BoundSetItem, BindError>)
        ensures
            final(self).setting() == old(self).setting(),
            gives_set_item(
                r,
                final(self)@,
                clause_rules::set_item_bound(item@, old(self)@, old(self).setting()),
            ),
    {
        reveal(clause_rules::set_item_bound);
        match item {
            SetItem::Property { var, key, value, span } => {
                let target = match self.entity_target(var.as_str(), *span, true) {
                    Err(e) => {
                        return Err(e);
                    },
                    Ok(x) => x,
                };
                let labels = self.labels_of(target);
                if let Err(e) = self.reject_key_property(&labels, key.as_str(), *span) {
                    return Err(e);
                }
                let value = match self.expr(value, no_agg()) {
                    Err(e) => {
                        return Err(e);
                    },
                    Ok(x) => x,
                };
                Ok(BoundSetItem::Property { target, key: key.clone(), value, span: *span })
            },
            SetItem::Replace { var, value, span } => {
                let target = match self.entity_target(var.as_str(), *span, true) {
                    Err(e) => {
                        return Err(e);
                    },
                    Ok(x) => x,
                };
                let labels = self.labels_of(target);
                if let Err(e) = self.reject_keyed(&labels, *span) {
                    return Err(e);
                }
                let value = match self.expr(value, no_agg()) {
                    Err(e) => {
                        return Err(e);
                    },
                    Ok(x) => x,
                };
                Ok(BoundSetItem::Replace { target, value, span: *span })
            },
            SetItem::Merge { var, value, span } => {
                let target = match self.entity_target(var.as_str(), *span, true) {
                    Err(e) => {
                        return Err(e);
                    },
                    Ok(x) => x,
                };
                let labels = self.labels_of(target);
                if let Err(e) = self.reject_key_entries(&labels, value, *span) {
                    return Err(e);
                }
                let value = match self.expr(value, no_agg()) {
                    Err(e) => {
                        return Err(e);
                    },
                    Ok(x) => x,
                };
                Ok(BoundSetItem::Merge { target, value, span: *span })
            },
            SetItem::AddLabels { var, labels, span } => {
                let target = match self.entity_target(var.as_str(), *span, false) {
                    Err(e) => {
                        return Err(e);
                    },
                    Ok(x) => x,
                };
                if let Err(e) = self.check_labels(labels, *span) {
                    return Err(e);
                }
                Ok(
                    BoundSetItem::AddLabels { target, labels: text::dup_strings(labels), span: *span },
                )
            },
        }
    }

    fn set_items(&mut self, items: &Vec<SetItem>) -> (r: Result<Vec<BoundSetItem>, BindError>)
        ensures
            final(self).setting() == old(self).setting(),
            gives_set_items(
                r,
                final(self)@,
                clause_rules::set_items_bound(
                    ast::set_items_view(items@),
                    0,
                    old(self)@,
                    old(self).setting(),
                    seq![],
                ),
            ),
    {
        reveal(clause_rules::set_items_bound);
        let ghost all = ast::set_items_view(items@);
        let ghost st = self.setting();
        let mut out: Vec<BoundSetItem> = Vec::new();
        assert(bound::bound_set_items_view(out@) =~= seq![]);
        let ghost model = clause_rules::set_items_bound(all, 0, self@, st, seq![]);
        let mut i: usize = 0;
        while i < items.len()
            invariant
                i <= items.len(),
                all == ast::set_items_view(items@),
                st == self.setting(),
                st == old(self).setting(),
                model == clause_rules::set_items_bound(all, 0, old(self)@, st, seq![]),
                model == clause_rules::set_items_bound(
                    all,
                    i as int,
                    self@,
                    st,
                    bound::bound_set_items_view(out@),
                ),
            decreases items.len() - i,
        {
            reveal(clause_rules::set_items_bound);
            assert(all[i as int] == items@[i as int]@);
            let item = match self.set_item(&items[i]) {
                Err(e) => {
                    return Err(e);
                },
                Ok(x) => x,
            };
            assert(
                bound::bound_set_items_view(out@.push(item)) =~= bound::bound_set_items_view(out@).push(item@)
            );
            out.push(item);
            i += 1;
        }
        Ok(out)
    }

    fn remove_item(&self, item: &RemoveItem) -> (r: Result<BoundRemoveItem, BindError>)
        ensures
            clause_rules::remove_item_bound(item@, self@, self.setting()) == match r {
                Ok(x) => Ok::<_, BindErrorView>(x@),
                Err(e) => Err(e@),
            },
    {
        match item {
            RemoveItem::Property { var, key, span } => {
                let target = match self.entity_target(var.as_str(), *span, true) {
                    Err(e) => {
                        return Err(e);
                    },
                    Ok(x) => x,
                };
                let labels = self.labels_of(target);
                if let Err(e) = self.reject_key_property(&labels, key.as_str(), *span) {
                    return Err(e);
                }
                Ok(BoundRemoveItem::Property { target, key: key.clone(), span: *span })
            },
            RemoveItem::Labels { var, labels, span } => {
                let target = match self.entity_target(var.as_str(), *span, false) {
                    Err(e) => {
                        return Err(e);
                    },
                    Ok(x) => x,
                };
                Ok(
                    BoundRemoveItem::Labels { target, labels: text::dup_strings(labels), span: *span },
                )
            },
        }
    }

    fn remove_items(&self, items: &Vec<RemoveItem>) -> (r: Result<Vec<BoundRemoveItem>, BindError>)
        ensures
            clause_rules::remove_items_bound(
                ast::remove_items_view(items@),
                0,
                self@,
                self.setting(),
                seq![],
            )
            == match r {
                Ok(x) => Ok::<_, BindErrorView>(bound::bound_remove_items_view(x@)),
                Err(e) => Err(e@),
            },
    {
        reveal(clause_rules::remove_items_bound);
        let ghost all = ast::remove_items_view(items@);
        let ghost st = self.setting();
        let mut out: Vec<BoundRemoveItem> = Vec::new();
        assert(bound::bound_remove_items_view(out@) =~= seq![]);
        let mut i: usize = 0;
        while i < items.len()
            invariant
                i <= items.len(),
                all == ast::remove_items_view(items@),
                st == self.setting(),
                clause_rules::remove_items_bound(all, 0, self@, st, seq![]) == clause_rules::remove_items_bound(
                    all,
                    i as int,
                    self@,
                    st,
                    bound::bound_remove_items_view(out@),
                ),
            decreases items.len() - i,
        {
            reveal(clause_rules::remove_items_bound);
            assert(all[i as int] == items@[i as int]@);
            let item = match self.remove_item(&items[i]) {
                Err(e) => {
                    return Err(e);
                },
                Ok(x) => x,
            };
            assert(bound::bound_remove_items_view(out@.push(item)) =~= bound::bound_remove_items_view(out@).push(
                    item@,
            ));
            out.push(item);
            i += 1;
        }
        Ok(out)
    }

    // --- CREATE and MERGE -------------------------------------------------------------------------

    /// Bind a CREATE node position. A fresh (or anonymous) position is created;
    /// an already-bound variable is *referenced*, but openCypher forbids
    /// attaching labels or properties to that reference.
    fn create_node_pattern(&mut self, node: &NodePattern) -> (
        r: Result<BoundNodePattern, BindError>
    )
        ensures
            final(self).setting() == old(self).setting(),
            gives_node(
                r,
                final(self)@,
                clause_rules::new_node_bound(node@, old(self)@, old(self).setting()),
            ),
    {
        reveal(clause_rules::new_node_bound);
        proof {
            node.lemma_view();
        }
        if let Some(name) = &node.variable {
            if self.seen(name.as_str()).is_some() && (node.labels.len() > 0
                || node.properties.is_some()) {
                return Err(
                    BindError::CreateBoundNodeWithProperties {
                        name: name.clone(),
                        span: node.span,
                    },
                );
            }
        }
        self.node_pattern(node, true)
    }

    /// Record the type of a created relationship, where creating declares it.
    fn coin(&mut self, name: &str)
        ensures
            final(self).setting() == old(self).setting(),
            final(self)@ == old(self)@.coining(name@, old(self).setting()),
    {
        if self.mode == BindMode::Strict && self.autodeclare && self.catalogue.rel_type(
            name,
        ).is_none() {
            self.coined.insert(name.to_owned(), ());
        }
    }

    fn create_rel_variable(&mut self, rel: &RelPattern) -> (r: Result<Option<VarId>, BindError>)
        ensures
            final(self).setting() == old(self).setting(),
            gives_ovar(r, final(self)@, clause_rules::new_rel_var_bound(rel@, old(self)@)),
    {
        proof {
            rel.lemma_view();
        }
        match &rel.variable {
            None => Ok(None),
            Some(name) => {
                if self.seen(name.as_str()).is_some() {
                    return Err(
                        BindError::VariableAlreadyBound { name: name.clone(), span: rel.span },
                    );
                }
                let none: Vec<String> = Vec::new();
                assert(text::strings_view(none@) =~= seq![]);
                Ok(Some(self.declare(name.as_str(), EntityKind::Relationship, none)))
            },
        }
    }

    fn create_rel_pattern(&mut self, rel: &RelPattern) -> (r: Result<BoundRelPattern, BindError>)
        ensures
            final(self).setting() == old(self).setting(),
            gives_rel(
                r,
                final(self)@,
                clause_rules::new_rel_bound(rel@, old(self)@, old(self).setting()),
            ),
            r matches Ok(x) ==> x@.types.len() > 0,
    {
        reveal(clause_rules::new_rel_bound);
        proof {
            rel.lemma_view();
        }
        if rel.var_length.is_some() {
            return Err(BindError::CreateVarLengthRelationship { span: rel.span });
        }
        if rel.direction == Direction::Undirected {
            return Err(BindError::CreateRequiresDirectedRelationship { span: rel.span });
        }
        if rel.types.len() == 0 {
            return Err(BindError::CreateRequiresRelType { span: rel.span });
        }
        if rel.types.len() != 1 {
            return Err(BindError::CreateRequiresSingleRelType { span: rel.span });
        }
        if !self.autodeclare {
            if let Err(e) = self.check_types(&rel.types, rel.span) {
                return Err(e);
            }
        }
        self.coin(rel.types[0].as_str());
        // A created relationship needs a fresh variable: reusing a bound one
        // would be an equality constraint, which CREATE cannot express.
        let var = match self.create_rel_variable(rel) {
            Err(e) => {
                return Err(e);
            },
            Ok(x) => x,
        };
        let properties = match self.optional(&rel.properties) {
            Err(e) => {
                return Err(e);
            },
            Ok(x) => x,
        };
        let r = BoundRelPattern {
            var,
            types: text::dup_strings(&rel.types),
            direction: rel.direction,
            var_length: rel.var_length,
            properties,
            span: rel.span,
        };
        proof {
            r.lemma_view();
        }
        Ok(r)
    }

    fn create_steps(&mut self, steps: &Vec<(RelPattern, NodePattern)>) -> (
        r: Result<Vec<(BoundRelPattern, BoundNodePattern)>, BindError>
    )
        ensures
            final(self).setting() == old(self).setting(),
            gives_steps(
                r,
                final(self)@,
                clause_rules::new_steps_bound(
                    ast::rel_pattern_node_patterns_view(steps@),
                    0,
                    old(self)@,
                    old(self).setting(),
                    seq![],
                ),
            ),
            r matches Ok(x) ==> forall|k: int| 0 <= k < x@.len() ==> (#[trigger] x@[k]).0@.types.len() > 0,
    {
        reveal(clause_rules::new_steps_bound);
        let ghost all = ast::rel_pattern_node_patterns_view(steps@);
        let ghost st = self.setting();
        let mut out: Vec<(BoundRelPattern, BoundNodePattern)> = Vec::new();
        assert(bound::bound_rel_pattern_bound_node_patterns_view(out@) =~= seq![]);
        let ghost model = clause_rules::new_steps_bound(all, 0, self@, st, seq![]);
        let mut i: usize = 0;
        while i < steps.len()
            invariant
                i <= steps.len(),
                all == ast::rel_pattern_node_patterns_view(steps@),
                st == self.setting(),
                st == old(self).setting(),
                forall|k: int| 0 <= k < out@.len() ==> (#[trigger] out@[k]).0@.types.len() > 0,
                model == clause_rules::new_steps_bound(all, 0, old(self)@, st, seq![]),
                model == clause_rules::new_steps_bound(
                    all,
                    i as int,
                    self@,
                    st,
                    bound::bound_rel_pattern_bound_node_patterns_view(out@),
                ),
            decreases steps.len() - i,
        {
            reveal(clause_rules::new_steps_bound);
            assert(all[i as int] == (steps@[i as int].0@, steps@[i as int].1@));
            let rel = match self.create_rel_pattern(&steps[i].0) {
                Err(e) => {
                    return Err(e);
                },
                Ok(x) => x,
            };
            let node = match self.create_node_pattern(&steps[i].1) {
                Err(e) => {
                    return Err(e);
                },
                Ok(x) => x,
            };
            let step = (rel, node);
            assert(bound::bound_rel_pattern_bound_node_patterns_view(out@.push(step))
                =~= bound::bound_rel_pattern_bound_node_patterns_view(out@).push((step.0@, step.1@)));
            out.push(step);
            i += 1;
        }
        Ok(out)
    }

    /// Bind a CREATE path pattern. Node variables follow ordinary
    /// introduce-rules (bound: referenced, fresh: created); relationship
    /// variables must be fresh and directed, with exactly one type and no
    /// var-length.
    fn create_pattern(&mut self, p: &PathPattern) -> (r: Result<BoundPathPattern, BindError>)
        ensures
            final(self).setting() == old(self).setting(),
            gives_path(
                r,
                final(self)@,
                clause_rules::new_path_bound(p@, old(self)@, old(self).setting()),
            ),
            r matches Ok(x) ==> create::creatable(x@),
    {
        reveal(clause_rules::new_path_bound);
        proof {
            p.lemma_view();
        }
        let path_var = match self.path_variable(&p.variable, true, p.span) {
            Err(e) => {
                return Err(e);
            },
            Ok(x) => x,
        };
        let start = match self.create_node_pattern(&p.start) {
            Err(e) => {
                return Err(e);
            },
            Ok(x) => x,
        };
        let steps = match self.create_steps(&p.steps) {
            Err(e) => {
                return Err(e);
            },
            Ok(x) => x,
        };
        let r = BoundPathPattern { path_var, start, steps, span: p.span };
        proof {
            r.lemma_view();
            let all = bound::bound_rel_pattern_bound_node_patterns_view(steps@);
            assert forall|i: int| 0 <= i < r@.steps.len() implies (#[trigger] r@.steps[i]).0.types.len()
            > 0 by {
                assert(all[i] == (steps@[i].0@, steps@[i].1@));
            }
        }
        Ok(r)
    }

    fn create_patterns(&mut self, patterns: &Vec<PathPattern>) -> (
        r: Result<Vec<BoundPathPattern>, BindError>
    )
        ensures
            final(self).setting() == old(self).setting(),
            gives_paths(
                r,
                final(self)@,
                clause_rules::new_paths_bound(
                    ast::path_patterns_view(patterns@),
                    0,
                    old(self)@,
                    old(self).setting(),
                    seq![],
                ),
            ),
            r matches Ok(x) ==> forall|k: int| 0 <= k < x@.len() ==> create::creatable((#[trigger] x@[k])@),
    {
        reveal(clause_rules::new_paths_bound);
        let ghost all = ast::path_patterns_view(patterns@);
        let ghost st = self.setting();
        let mut out: Vec<BoundPathPattern> = Vec::new();
        assert(bound::bound_path_patterns_view(out@) =~= seq![]);
        let ghost model = clause_rules::new_paths_bound(all, 0, self@, st, seq![]);
        let mut i: usize = 0;
        while i < patterns.len()
            invariant
                i <= patterns.len(),
                all == ast::path_patterns_view(patterns@),
                st == self.setting(),
                st == old(self).setting(),
                forall|k: int| 0 <= k < out@.len() ==> create::creatable((#[trigger] out@[k])@),
                model == clause_rules::new_paths_bound(all, 0, old(self)@, st, seq![]),
                model == clause_rules::new_paths_bound(
                    all,
                    i as int,
                    self@,
                    st,
                    bound::bound_path_patterns_view(out@),
                ),
            decreases patterns.len() - i,
        {
            reveal(clause_rules::new_paths_bound);
            assert(all[i as int] == patterns@[i as int]@);
            let p = match self.create_pattern(&patterns[i]) {
                Err(e) => {
                    return Err(e);
                },
                Ok(x) => x,
            };
            assert(bound::bound_path_patterns_view(out@.push(p)) =~= bound::bound_path_patterns_view(out@).push(
                    p@,
            ));
            out.push(p);
            i += 1;
        }
        Ok(out)
    }

    // --- MATCH and CALL ---------------------------------------------------------------------------

    fn match_patterns(&mut self, patterns: &Vec<PathPattern>) -> (
        r: Result<Vec<BoundPathPattern>, BindError>
    )
        ensures
            final(self).setting() == old(self).setting(),
            gives_paths(
                r,
                final(self)@,
                clause_rules::paths_bound(
                    ast::path_patterns_view(patterns@),
                    0,
                    old(self)@,
                    old(self).setting(),
                    seq![],
                ),
            ),
    {
        reveal(clause_rules::paths_bound);
        let ghost all = ast::path_patterns_view(patterns@);
        let ghost st = self.setting();
        let mut out: Vec<BoundPathPattern> = Vec::new();
        assert(bound::bound_path_patterns_view(out@) =~= seq![]);
        let ghost model = clause_rules::paths_bound(all, 0, self@, st, seq![]);
        let mut i: usize = 0;
        while i < patterns.len()
            invariant
                i <= patterns.len(),
                all == ast::path_patterns_view(patterns@),
                st == self.setting(),
                st == old(self).setting(),
                model == clause_rules::paths_bound(all, 0, old(self)@, st, seq![]),
                model == clause_rules::paths_bound(
                    all,
                    i as int,
                    self@,
                    st,
                    bound::bound_path_patterns_view(out@),
                ),
            decreases patterns.len() - i,
        {
            reveal(clause_rules::paths_bound);
            assert(all[i as int] == patterns@[i as int]@);
            let p = match self.path_pattern(&patterns[i], true) {
                Err(e) => {
                    return Err(e);
                },
                Ok(x) => x,
            };
            assert(bound::bound_path_patterns_view(out@.push(p)) =~= bound::bound_path_patterns_view(out@).push(
                    p@,
            ));
            out.push(p);
            i += 1;
        }
        Ok(out)
    }

    fn yields(
        &mut self,
        columns: &Vec<String>,
        def: &ProcedureDef,
        name: &str,
        span: Span,
    ) -> (r: Result<Vec<(String, VarId)>, BindError>)
        ensures
            final(self).setting() == old(self).setting(),
            gives_yields(
                r,
                final(self)@,
                clause_rules::yields_bound(
                    text::strings_view(columns@),
                    0,
                    def@,
                    name@,
                    span,
                    old(self)@,
                    seq![],
                ),
            ),
    {
        reveal(clause_rules::yields_bound);
        let ghost all = text::strings_view(columns@);
        let ghost d = def@;
        let mut out: Vec<(String, VarId)> = Vec::new();
        assert(bound::string_var_ids_view(out@) =~= seq![]);
        let ghost model = clause_rules::yields_bound(all, 0, d, name@, span, self@, seq![]);
        let mut i: usize = 0;
        while i < columns.len()
            invariant
                i <= columns.len(),
                all == text::strings_view(columns@),
                d == def@,
                self.setting() == old(self).setting(),
                model == clause_rules::yields_bound(all, 0, d, name@, span, old(self)@, seq![]),
                model == clause_rules::yields_bound(
                    all,
                    i as int,
                    d,
                    name@,
                    span,
                    self@,
                    bound::string_var_ids_view(out@),
                ),
            decreases columns.len() - i,
        {
            reveal(clause_rules::yields_bound);
            assert(all[i as int] == columns@[i as int]@);
            let column = columns[i].as_str();
            if !strs_contain(&def.yields, column) {
                return Err(
                    BindError::UnknownYieldColumn {
                        procedure: name.to_owned(),
                        column: column.to_owned(),
                        span,
                    },
                );
            }
            if self.seen(column).is_some() || is_yielded(&out, column) {
                return Err(BindError::VariableAlreadyBound { name: column.to_owned(), span });
            }
            let id = self.declare_value(column);
            let y = (column.to_owned(), id);
            assert(
                bound::string_var_ids_view(out@.push(y)) =~= bound::string_var_ids_view(out@).push((y.0@, y.1))
            );
            out.push(y);
            i += 1;
        }
        Ok(out)
    }

    fn all_columns(&mut self, columns: &Vec<&'static str>) -> (
        r: Result<Vec<(String, VarId)>, BindError>
    )
        ensures
            final(self).setting() == old(self).setting(),
            gives_yields(
                r,
                final(self)@,
                clause_rules::unnamed_yields(bound::strs_view(columns@), 0, old(self)@, seq![]),
            ),
    {
        let ghost all = bound::strs_view(columns@);
        let mut out: Vec<(String, VarId)> = Vec::new();
        assert(bound::string_var_ids_view(out@) =~= seq![]);
        let ghost model = clause_rules::unnamed_yields(all, 0, self@, seq![]);
        let mut i: usize = 0;
        while i < columns.len()
            invariant
                i <= columns.len(),
                all == bound::strs_view(columns@),
                self.setting() == old(self).setting(),
                model == clause_rules::unnamed_yields(all, 0, old(self)@, seq![]),
                model == clause_rules::unnamed_yields(
                    all,
                    i as int,
                    self@,
                    bound::string_var_ids_view(out@),
                ),
            decreases columns.len() - i,
        {
            assert(all[i as int] == columns@[i as int]@);
            let none: Vec<String> = Vec::new();
            assert(text::strings_view(none@) =~= seq![]);
            let id = self.add_variable(columns[i], EntityKind::Value, none);
            let y = (columns[i].to_owned(), id);
            assert(
                bound::string_var_ids_view(out@.push(y)) =~= bound::string_var_ids_view(out@).push((y.0@, y.1))
            );
            out.push(y);
            i += 1;
        }
        Ok(out)
    }

    fn call_clause(&mut self, c: &CallClause, last: bool) -> (r: Result<BoundClause, BindError>)
        ensures
            final(self).setting() == old(self).setting(),
            gives_clause(
                r,
                final(self)@,
                clause_rules::call_clause_bound(c@, last, old(self)@, old(self).setting()),
            ),
            r matches Ok(x) ==> run::clause_is_sound(x@),
    {
        reveal(clause_rules::call_clause_bound);
        assert(ast::exprs_view(c.args@).len() == c.args@.len());
        assert(text::strings_view(c.yield_items@).len() == c.yield_items@.len());
        assert(text::strings_view(c.procedure@).len() == c.procedure@.len());
        let name = join_dotted(&c.procedure);
        let def = match bound::lookup_procedure(name.as_str()) {
            None => {
                return Err(BindError::ProcedureNotFound { name, span: c.span });
            },
            Some(def) => def,
        };
        if c.args.len() < def.min_args || c.args.len() > def.max_args {
            return Err(
                BindError::InvalidNumberOfArguments {
                    name,
                    expected: arity(def.min_args, def.max_args),
                    got: c.args.len(),
                    span: c.span,
                },
            );
        }
        let args = match self.exprs(&c.args, no_agg()) {
            Err(e) => {
                return Err(e);
            },
            Ok(x) => x,
        };
        let mut yields: Vec<(String, VarId)> = Vec::new();
        if last && c.yield_items.len() == 0 {
            yields = match self.all_columns(&def.yields) {
                Err(e) => {
                    return Err(e);
                },
                Ok(x) => x,
            };
        } else {
            yields = match self.yields(&c.yield_items, &def, name.as_str(), c.span) {
                Err(e) => {
                    return Err(e);
                },
                Ok(x) => x,
            };
        }
        let where_clause = match self.optional(&c.where_clause) {
            Err(e) => {
                return Err(e);
            },
            Ok(x) => x,
        };
        Ok(BoundClause::Call { procedure: def, args, yields, where_clause, span: c.span })
    }

    // --- WITH and RETURN --------------------------------------------------------------------------

    fn push_star(&self, span: Span, out: &mut Vec<DraftItem>)
        ensures
            drafts_view(final(out)@) == drafts_view(old(out)@) + clause_rules::star_items(self@.scope, span),
    {
        let ghost all = clause_rules::star_items(self@.scope, span);
        let ghost before = drafts_view(out@);
        let mut i: usize = 0;
        assert(drafts_view(out@) =~= before + all.take(0));
        while i < self.scope.len()
            invariant
                i <= self.scope@.len(),
                all == clause_rules::star_items(self.scope@, span),
                drafts_view(out@) == before + all.take(i as int),
            decreases self.scope@.len() - i,
        {
            let item = DraftItem {
                expr: BoundExpr::Variable { id: *self.scope.at(i), span },
                name: self.scope.name(i).to_owned(),
                span,
            };
            let ghost v = out@;
            out.push(item);
            assert(drafts_view(v.push(item)) =~= drafts_view(v).push(item@));
            assert(item@ == all[i as int]);
            assert(all.take(i + 1) =~= all.take(i as int).push(all[i as int]));
            i += 1;
            assert(drafts_view(out@) =~= before + all.take(i as int));
        }
        assert(all.take(i as int) =~= all);
    }

    fn draft_items(
        &mut self,
        items: &Vec<ProjectionItem>,
        is_with: bool,
    ) -> (r: Result<Vec<DraftItem>, BindError>)
        ensures
            final(self).setting() == old(self).setting(),
            gives_drafts(
                r,
                final(self)@,
                clause_rules::items_bound(
                    ast::projection_items_view(items@),
                    0,
                    is_with,
                    old(self)@,
                    old(self).setting(),
                    seq![],
                ),
            ),
    {
        reveal(clause_rules::items_bound);
        let ghost all = ast::projection_items_view(items@);
        let ghost st = self.setting();
        let mut out: Vec<DraftItem> = Vec::new();
        assert(drafts_view(out@) =~= seq![]);
        let ghost model = clause_rules::items_bound(all, 0, is_with, self@, st, seq![]);
        let mut i: usize = 0;
        while i < items.len()
            invariant
                i <= items.len(),
                all == ast::projection_items_view(items@),
                st == self.setting(),
                st == old(self).setting(),
                model == clause_rules::items_bound(all, 0, is_with, old(self)@, st, seq![]),
                model == clause_rules::items_bound(
                    all,
                    i as int,
                    is_with,
                    self@,
                    st,
                    drafts_view(out@),
                ),
            decreases items.len() - i,
        {
            reveal(clause_rules::items_bound);
            assert(all[i as int] == items@[i as int]@);
            match &items[i] {
                ProjectionItem::Star { span } => {
                    if self.scope.len() == 0 {
                        return Err(BindError::NoVariablesInScope { span: *span });
                    }
                    // `*` projects every visible variable, by name order.
                    self.push_star(*span, &mut out);
                },
                ProjectionItem::Expr { expr, alias, span } => {
                    let name = match alias {
                        Some(alias) => alias.clone(),
                        None => {
                            // WITH requires an alias unless the item is a plain
                            // variable; RETURN derives the column name from the
                            // expression text.
                            if is_with && !matches!(expr, Expr::Variable { .. }) {
                                return Err(BindError::NoExpressionAlias { span: *span });
                            }
                            let place = expr.span();
                            span::slice_between(self.source, place.start, place.end)
                        },
                    };
                    let bound = match self.expr(expr, agg_ok()) {
                        Err(e) => {
                            return Err(e);
                        },
                        Ok(x) => x,
                    };
                    let item = DraftItem { expr: bound, name, span: *span };
                    assert(drafts_view(out@.push(item)) =~= drafts_view(out@).push(item@));
                    out.push(item);
                },
            }
            i += 1;
        }
        Ok(out)
    }

    /// Beside an aggregate, an item may refer only to grouping keys.
    fn check_mixtures(&self, items: &Vec<DraftItem>) -> (r: Result<(), BindError>)
        ensures
            gives_none(r, clause_rules::mixture(drafts_view(items@), 0, self@)),
    {
        let ghost all = drafts_view(items@);
        let mut i: usize = 0;
        while i < items.len()
            invariant
                i <= items.len(),
                all == drafts_view(items@),
                clause_rules::mixture(all, 0, self@) == clause_rules::mixture(all, i as int, self@),
            decreases items.len() - i,
        {
            assert(all[i as int] == items@[i as int]@);
            if subtrees::contains_aggregate(&items[i].expr) {
                let keys = KeyIndex::build(target_exprs(items, true));
                let rule = Rule {
                    keys,
                    outputs: Vec::new(),
                    mode: RefErrorMode::Ambiguous,
                    span: items[i].span,
                };
                let mut locals: Vec<u32> = Vec::new();
                assert(locals@ =~= seq![]);
                assert(rule.outputs@ =~= seq![]);
                if let Err(e) = grouping::validate_grouping_refs(
                    &items[i].expr,
                    &rule,
                    &mut locals,
                    &self.variables,
                ) {
                    return Err(e);
                }
            }
            i += 1;
        }
        Ok(())
    }

    fn check_items(&self, items: &Vec<DraftItem>, aggregating: bool) -> (r: Result<(), BindError>)
        requires
            aggregating == clause_rules::aggregates(drafts_view(items@), items@.len()),
        ensures
            gives_none(r, clause_rules::items_checked(drafts_view(items@), self@)),
    {
        reveal(clause_rules::items_checked);
        if let Err(e) = check_names(items) {
            return Err(e);
        }
        if aggregating {
            self.check_mixtures(items)
        } else {
            Ok(())
        }
    }

    /// Declares a variable for each item; a plain variable keeps its kind and
    /// labels, so that a projected node or relationship can be matched again.
    fn declare_items(&mut self, drafts: Vec<DraftItem>) -> (r: (
            Vec<BoundProjectionItem>,
            NameMap<VarId>,
    ))
        ensures
            final(self).setting() == old(self).setting(),
            clause_rules::items_declared(drafts_view(drafts@), drafts@.len(), old(self)@) == (Projected {
                    items: bound::bound_projection_items_view(r.0@),
                    bindings: final(self)@,
                    scope: r.1@,
            }),
    {
        reveal(clause_rules::items_declared);
        let ghost all = drafts_view(drafts@);
        let ghost raw = drafts@;
        let ghost b = self@;
        let mut rest = drafts;
        let mut items: Vec<BoundProjectionItem> = Vec::new();
        let mut scope: NameMap<VarId> = NameMap::new();
        let n: usize = rest.len();
        let mut i: usize = 0;
        assert(bound::bound_projection_items_view(items@) =~= seq![]);
        while i < n
            invariant
                i <= n,
                n == raw.len(),
                all == drafts_view(raw),
                rest@ == raw.skip(i as int),
                self.setting() == old(self).setting(),
                clause_rules::items_declared(all, i as nat, b) == (Projected {
                        items: bound::bound_projection_items_view(items@),
                        bindings: self@,
                        scope: scope@,
                }),
            decreases n - i,
        {
            reveal(clause_rules::items_declared);
            let d = rest.remove(0);
            assert(d == raw[i as int]);
            assert(all[i as int] == d@);
            assert(rest@ =~= raw.skip(i + 1));
            let mut kind = EntityKind::Value;
            let mut labels: Vec<String> = Vec::new();
            assert(text::strings_view(labels@) =~= seq![]);
            if let BoundExpr::Variable { id, .. } = &d.expr {
                kind = self.kind_of(*id);
                labels = self.labels_of(*id);
            }
            let id = self.add_variable(d.name.as_str(), kind, labels);
            scope.insert(d.name.clone(), id);
            let item = BoundProjectionItem { expr: d.expr, name: d.name, var: id, span: d.span };
            assert(bound::bound_projection_items_view(items@.push(item)) =~= bound::bound_projection_items_view(
                    items@,
                ).push(item@));
            items.push(item);
            i += 1;
        }
        (items, scope)
    }

    /// The scope with the projected names in place of its own.
    fn unite(&self, more: &NameMap<VarId>) -> (r: NameMap<VarId>)
        ensures
            r@ == clause_rules::united(self@.scope, more@, more@.len()),
    {
        let mut out = self.scope.dup();
        let mut i: usize = 0;
        while i < more.len()
            invariant
                i <= more@.len(),
                out@ == clause_rules::united(self@.scope, more@, i as nat),
            decreases more@.len() - i,
        {
            out.insert(more.name(i).to_owned(), *more.at(i));
            i += 1;
        }
        out
    }

    fn sort_items(
        &mut self,
        sorts: &Vec<SortItem>,
        ctx: ExprCtx,
    ) -> (r: Result<Vec<(BoundExpr, bool)>, BindError>)
        ensures
            final(self).setting() == old(self).setting(),
            gives_sorts(
                r,
                final(self)@,
                clause_rules::sorts_bound(
                    ast::sort_items_view(sorts@),
                    0,
                    ctx,
                    old(self)@,
                    old(self).setting(),
                    seq![],
                ),
            ),
    {
        reveal(clause_rules::sorts_bound);
        let ghost all = ast::sort_items_view(sorts@);
        let ghost st = self.setting();
        let mut out: Vec<(BoundExpr, bool)> = Vec::new();
        assert(bound::bound_expr_bools_view(out@) =~= seq![]);
        let ghost model = clause_rules::sorts_bound(all, 0, ctx, self@, st, seq![]);
        let mut i: usize = 0;
        while i < sorts.len()
            invariant
                i <= sorts.len(),
                all == ast::sort_items_view(sorts@),
                st == self.setting(),
                st == old(self).setting(),
                model == clause_rules::sorts_bound(all, 0, ctx, old(self)@, st, seq![]),
                model == clause_rules::sorts_bound(
                    all,
                    i as int,
                    ctx,
                    self@,
                    st,
                    bound::bound_expr_bools_view(out@),
                ),
            decreases sorts.len() - i,
        {
            reveal(clause_rules::sorts_bound);
            assert(all[i as int] == sorts@[i as int]@);
            let x = match self.expr(&sorts[i].expr, ctx) {
                Err(e) => {
                    return Err(e);
                },
                Ok(x) => x,
            };
            let sort = (x, sorts[i].descending);
            assert(bound::bound_expr_bools_view(out@.push(sort)) =~= bound::bound_expr_bools_view(out@).push(
                    (sort.0@, sort.1),
            ));
            out.push(sort);
            i += 1;
        }
        Ok(out)
    }

    /// After DISTINCT or aggregation an ordering expression may refer to what is
    /// projected only: as far as it reduces to projected expressions, aliases and
    /// constants.
    fn check_order(
        &self,
        order_by: &Vec<(BoundExpr, bool)>,
        keys: Vec<&BoundExpr>,
        outputs: Vec<u32>,
        span: Span,
    ) -> (r: Result<(), BindError>)
        ensures
            gives_none(
                r,
                clause_rules::unreduced(
                    bound::bound_expr_bools_view(order_by@),
                    0,
                    RefRule {
                        keys: subtrees::referenced(keys@),
                        outputs: outputs@,
                        mode: RefErrorMode::Undefined,
                        span,
                        variables: self@.variables,
                    },
                ),
            ),
    {
        let ghost all = bound::bound_expr_bools_view(order_by@);
        let ghost rr = RefRule {
            keys: subtrees::referenced(keys@),
            outputs: outputs@,
            mode: RefErrorMode::Undefined,
            span,
            variables: self@.variables,
        };
        let rule = Rule {
            keys: KeyIndex::build(keys),
            outputs,
            mode: RefErrorMode::Undefined,
            span,
        };
        let mut i: usize = 0;
        while i < order_by.len()
            invariant
                i <= order_by.len(),
                all == bound::bound_expr_bools_view(order_by@),
                rule.keys.indexed(),
                rr == rule.over(bound::var_bindings_view(self.variables@)),
                rr == (RefRule {
                        keys: subtrees::referenced(keys@),
                        outputs: outputs@,
                        mode: RefErrorMode::Undefined,
                        span,
                        variables: self@.variables,
                }),
                clause_rules::unreduced(all, 0, rr) == clause_rules::unreduced(all, i as int, rr),
            decreases order_by.len() - i,
        {
            assert(all[i as int] == (order_by@[i as int].0@, order_by@[i as int].1));
            let mut locals: Vec<u32> = Vec::new();
            assert(locals@ =~= seq![]);
            if let Err(e) = grouping::validate_grouping_refs(
                &order_by[i].0,
                &rule,
                &mut locals,
                &self.variables,
            ) {
                return Err(e);
            }
            i += 1;
        }
        Ok(())
    }

    fn draft_projection(
        &mut self,
        p: &Projection,
        is_with: bool,
    ) -> (r: Result<DraftProjection, BindError>)
        ensures
            final(self).setting() == old(self).setting(),
            gives_drafted(
                r,
                final(self)@,
                clause_rules::drafted(p@, is_with, old(self)@, old(self).setting()),
            ),
    {
        reveal(clause_rules::drafted);
        let drafts = match self.draft_items(&p.items, is_with) {
            Err(e) => {
                return Err(e);
            },
            Ok(x) => x,
        };
        let aggregating = any_aggregate(&drafts);
        if let Err(e) = self.check_items(&drafts, aggregating) {
            return Err(e);
        }
        // SKIP/LIMIT bind before re-scoping and cannot aggregate.
        let skip = match self.optional(&p.skip) {
            Err(e) => {
                return Err(e);
            },
            Ok(x) => x,
        };
        let limit = match self.optional(&p.limit) {
            Err(e) => {
                return Err(e);
            },
            Ok(x) => x,
        };
        Ok(DraftProjection { drafts, skip, limit, aggregating })
    }

    fn order_projection(
        &mut self,
        p: &Projection,
        items: &Vec<BoundProjectionItem>,
        scope: &NameMap<VarId>,
        aggregating: bool,
        drafts: Ghost<Seq<Draft>>,
    ) -> (r: Result<OrderProjection, BindError>)
        requires
            aggregating == clause_rules::aggregates(drafts@, drafts@.len()),
            declared_targets(bound::bound_projection_items_view(items@), items@.len(), aggregating)
            == clause_rules::targets(drafts@, drafts@.len(), aggregating),
        ensures
            final(self).setting() == old(self).setting(),
            gives_ordered(
                r,
                final(self)@,
                clause_rules::ordered(p@, drafts@, scope@, old(self)@, old(self).setting()),
            ),
    {
        reveal(clause_rules::ordered);
        reveal(clause_rules::order_checked);
        let ctx = if aggregating {
            agg_ok()
        } else {
            no_agg()
        };
        let order_by = match self.sort_items(&p.order_by, ctx) {
            Err(e) => {
                return Err(e);
            },
            Ok(x) => x,
        };
        if p.distinct || aggregating {
            if let Err(e) = self.check_order(
                &order_by,
                item_targets(items, aggregating),
                scope_ids(scope),
                p.span,
            ) {
                return Err(e);
            }
        }
        let where_clause = match self.optional(&p.where_clause) {
            Err(e) => {
                return Err(e);
            },
            Ok(x) => x,
        };
        Ok(OrderProjection { order_by, where_clause })
    }

    fn projection(
        &mut self,
        p: &Projection,
        is_with: bool,
    ) -> (r: Result<BoundProjection, BindError>)
        ensures
            final(self).setting() == old(self).setting(),
            gives_projection(
                r,
                final(self)@,
                clause_rules::projection_bound(p@, is_with, old(self)@, old(self).setting()),
            ),
            r matches Ok(x) ==> projection_model::grouping_is_sound(x@),
    {
        reveal(clause_rules::projection_bound);
        let d = match self.draft_projection(p, is_with) {
            Err(e) => {
                return Err(e);
            },
            Ok(x) => x,
        };
        let ghost ds = drafts_view(d.drafts@);
        let aggregating = d.aggregating;
        let grouping_items = grouping_positions(&d.drafts);
        assert(ds.len() == d.drafts.len());
        let ghost b = self@;
        let (items, scope) = self.declare_items(d.drafts);
        proof {
            lemma_scope_untouched(ds, ds.len(), b);
            lemma_items_length(ds, ds.len(), b);
            lemma_grouping_in_range(ds, ds.len());
            lemma_item_targets(ds, ds.len(), b, aggregating);
        }
        // ORDER BY and WITH ... WHERE see both the pre-projection scope and the
        // new output names; the scope narrows to the projected names
        // afterwards.
        self.scope = self.unite(&scope);
        let o = match self.order_projection(p, &items, &scope, aggregating, Ghost(ds)) {
            Err(e) => {
                return Err(e);
            },
            Ok(x) => x,
        };
        // Re-scope: only the projected names survive.
        self.scope = scope;
        let r = BoundProjection {
            distinct: p.distinct,
            items,
            order_by: o.order_by,
            skip: d.skip,
            limit: d.limit,
            where_clause: o.where_clause,
            grouping_items,
            aggregating,
            span: p.span,
        };
        Ok(r)
    }

    // --- Clauses ----------------------------------------------------------------------------------

    fn match_clause(&mut self, m: &MatchClause) -> (r: Result<BoundClause, BindError>)
        ensures
            final(self).setting() == old(self).setting(),
            gives_clause(
                r,
                final(self)@,
                clause_rules::match_bound(m@, old(self)@, old(self).setting()),
            ),
            r matches Ok(x) ==> run::clause_is_sound(x@),
    {
        reveal(clause_rules::match_bound);
        let patterns = match self.match_patterns(&m.patterns) {
            Err(e) => {
                return Err(e);
            },
            Ok(x) => x,
        };
        let where_clause = match self.optional(&m.where_clause) {
            Err(e) => {
                return Err(e);
            },
            Ok(x) => x,
        };
        Ok(
            BoundClause::Match {
                optional: m.optional,
                patterns,
                at_ref: dup_at_ref(&m.at_ref),
                where_clause,
                span: m.span,
            },
        )
    }

    fn unwind_clause(&mut self, u: &UnwindClause) -> (r: Result<BoundClause, BindError>)
        ensures
            final(self).setting() == old(self).setting(),
            gives_clause(
                r,
                final(self)@,
                clause_rules::unwind_bound(u@, old(self)@, old(self).setting()),
            ),
            r matches Ok(x) ==> run::clause_is_sound(x@),
    {
        reveal(clause_rules::unwind_bound);
        let expr = match self.expr(&u.expr, no_agg()) {
            Err(e) => {
                return Err(e);
            },
            Ok(x) => x,
        };
        // openCypher: an UNWIND alias cannot shadow a bound name.
        if self.seen(u.alias.as_str()).is_some() {
            return Err(BindError::VariableAlreadyBound { name: u.alias.clone(), span: u.span });
        }
        let alias = self.declare_value(u.alias.as_str());
        Ok(BoundClause::Unwind { expr, alias, span: u.span })
    }

    fn delete_clause(&mut self, d: &DeleteClause) -> (r: Result<BoundClause, BindError>)
        ensures
            final(self).setting() == old(self).setting(),
            gives_clause(
                r,
                final(self)@,
                clause_rules::delete_bound(d@, old(self)@, old(self).setting()),
            ),
            r matches Ok(x) ==> run::clause_is_sound(x@),
    {
        reveal(clause_rules::delete_bound);
        let targets = match self.exprs(&d.targets, no_agg()) {
            Err(e) => {
                return Err(e);
            },
            Ok(x) => x,
        };
        Ok(BoundClause::Delete { detach: d.detach, targets, span: d.span })
    }

    fn merge_clause(&mut self, m: &MergeClause) -> (r: Result<BoundClause, BindError>)
        ensures
            final(self).setting() == old(self).setting(),
            gives_clause(
                r,
                final(self)@,
                clause_rules::merge_bound(m@, old(self)@, old(self).setting()),
            ),
            r matches Ok(x) ==> run::clause_is_sound(x@),
    {
        reveal(clause_rules::merge_bound);
        // The MERGE pattern may be created, so it obeys the CREATE rules; its
        // variables are then in scope for ON CREATE/MATCH.
        let pattern = match self.create_pattern(&m.pattern) {
            Err(e) => {
                return Err(e);
            },
            Ok(x) => x,
        };
        let on_create = match self.set_items(&m.on_create) {
            Err(e) => {
                return Err(e);
            },
            Ok(x) => x,
        };
        let on_match = match self.set_items(&m.on_match) {
            Err(e) => {
                return Err(e);
            },
            Ok(x) => x,
        };
        Ok(BoundClause::Merge { pattern, on_create, on_match, span: m.span })
    }

    fn clause(&mut self, c: &Clause, last: bool) -> (r: Result<BoundClause, BindError>)
        ensures
            final(self).setting() == old(self).setting(),
            gives_clause(
                r,
                final(self)@,
                clause_rules::clause_bound(c@, last, old(self)@, old(self).setting()),
            ),
            r matches Ok(x) ==> run::clause_is_sound(x@),
    {
        reveal(clause_rules::clause_bound);
        match c {
            Clause::Match(m) => self.match_clause(m),
            Clause::Unwind(u) => self.unwind_clause(u),
            Clause::With(p) => {
                let projection = match self.projection(p, true) {
                    Err(e) => {
                        return Err(e);
                    },
                    Ok(x) => x,
                };
                Ok(BoundClause::With(projection))
            },
            Clause::Return(p) => {
                let projection = match self.projection(p, false) {
                    Err(e) => {
                        return Err(e);
                    },
                    Ok(x) => x,
                };
                Ok(BoundClause::Return(projection))
            },
            Clause::Call(call) => self.call_clause(call, last),
            Clause::Create(create) => {
                let patterns = match self.create_patterns(&create.patterns) {
                    Err(e) => {
                        return Err(e);
                    },
                    Ok(x) => x,
                };
                proof {
                    let all = bound::bound_path_patterns_view(patterns@);
                    assert forall|k: int| 0 <= k < all.len() implies create::creatable(
                        #[trigger] all[k],
                    ) by {
                        assert(all[k] == patterns@[k]@);
                    }
                }
                Ok(BoundClause::Create { patterns, span: create.span })
            },
            Clause::SetItems(set) => {
                let items = match self.set_items(&set.items) {
                    Err(e) => {
                        return Err(e);
                    },
                    Ok(x) => x,
                };
                Ok(BoundClause::SetItems { items, span: set.span })
            },
            Clause::Remove(remove) => {
                let items = match self.remove_items(&remove.items) {
                    Err(e) => {
                        return Err(e);
                    },
                    Ok(x) => x,
                };
                Ok(BoundClause::Remove { items, span: remove.span })
            },
            Clause::Delete(delete) => self.delete_clause(delete),
            Clause::Merge(merge) => self.merge_clause(merge),
        }
    }

    fn clauses(&mut self, clauses: &Vec<Clause>) -> (r: Result<Vec<BoundClause>, BindError>)
        ensures
            final(self).setting() == old(self).setting(),
            gives_clauses(
                r,
                final(self)@,
                clause_rules::clauses_bound(
                    ast::clauses_view(clauses@),
                    0,
                    old(self)@,
                    old(self).setting(),
                    seq![],
                ),
            ),
            r matches Ok(x) ==> forall|k: int| 0 <= k < x@.len() ==> run::clause_is_sound((#[trigger] x@[k])@),
    {
        let ghost all = ast::clauses_view(clauses@);
        let ghost st = self.setting();
        let mut out: Vec<BoundClause> = Vec::new();
        assert(bound::bound_clauses_view(out@) =~= seq![]);
        let ghost model = clause_rules::clauses_bound(all, 0, self@, st, seq![]);
        let mut i: usize = 0;
        while i < clauses.len()
            invariant
                i <= clauses.len(),
                all == ast::clauses_view(clauses@),
                st == self.setting(),
                st == old(self).setting(),
                forall|k: int| 0 <= k < out@.len() ==> run::clause_is_sound((#[trigger] out@[k])@),
                model == clause_rules::clauses_bound(all, 0, old(self)@, st, seq![]),
                model == clause_rules::clauses_bound(
                    all,
                    i as int,
                    self@,
                    st,
                    bound::bound_clauses_view(out@),
                ),
            decreases clauses.len() - i,
        {
            reveal(clause_rules::clauses_bound);
            assert(all[i as int] == clauses@[i as int]@);
            let last = i == clauses.len() - 1;
            let c = match self.clause(&clauses[i], last) {
                Err(e) => {
                    return Err(e);
                },
                Ok(x) => x,
            };
            assert(
                bound::bound_clauses_view(out@.push(c)) =~= bound::bound_clauses_view(out@).push(c@)
            );
            out.push(c);
            i += 1;
        }
        reveal(clause_rules::clauses_bound);
        Ok(out)
    }
}

fn is_yielded(out: &Vec<(String, VarId)>, column: &str) -> (r: bool)
    ensures
        r == clause_rules::yields_column(bound::string_var_ids_view(out@), column@),
{
    let ghost all = bound::string_var_ids_view(out@);
    let mut i: usize = 0;
    while i < out.len()
        invariant
            i <= out.len(),
            all == bound::string_var_ids_view(out@),
            forall|k: int| 0 <= k < i ==> (#[trigger] all[k]).0 != column@,
        decreases out.len() - i,
    {
        assert(all[i as int] == (out@[i as int].0@, out@[i as int].1));
        if text::str_eq(out[i].0.as_str(), column) {
            return true;
        }
        i += 1;
    }
    false
}

fn strs_contain(all: &Vec<&'static str>, wanted: &str) -> (r: bool)
    ensures
        r == bound::strs_view(all@).contains(wanted@),
{
    let ghost names = bound::strs_view(all@);
    let mut i: usize = 0;
    while i < all.len()
        invariant
            i <= all.len(),
            names == bound::strs_view(all@),
            forall|k: int| 0 <= k < i ==> #[trigger] names[k] != wanted@,
        decreases all.len() - i,
    {
        assert(names[i as int] == all@[i as int]@);
        if text::str_eq(all[i], wanted) {
            return true;
        }
        i += 1;
    }
    false
}

/// Column names must be unique.
fn check_names(items: &Vec<DraftItem>) -> (r: Result<(), BindError>)
    ensures
        gives_none(r, clause_rules::name_conflict(drafts_view(items@), 0)),
{
    let ghost all = drafts_view(items@);
    let mut i: usize = 0;
    while i < items.len()
        invariant
            i <= items.len(),
            all == drafts_view(items@),
            clause_rules::name_conflict(all, 0) == clause_rules::name_conflict(all, i as int),
        decreases items.len() - i,
    {
        assert(all[i as int] == items@[i as int]@);
        let mut j: usize = 0;
        while j < i
            invariant
                j <= i < items.len(),
                all == drafts_view(items@),
                all[i as int] == items@[i as int]@,
                clause_rules::name_conflict(all, 0) == clause_rules::name_conflict(all, i as int),
                forall|k: int| 0 <= k < j ==> (#[trigger] all[k]).name != all[i as int].name,
            decreases i - j,
        {
            assert(all[j as int] == items@[j as int]@);
            if text::str_eq(items[j].name.as_str(), items[i].name.as_str()) {
                assert(clause_rules::named_before(all, i as int, all[i as int].name));
                return Err(
                    BindError::ColumnNameConflict {
                        name: items[i].name.clone(),
                        span: items[i].span,
                    },
                );
            }
            j += 1;
        }
        i += 1;
    }
    Ok(())
}

fn any_aggregate(items: &Vec<DraftItem>) -> (r: bool)
    ensures
        r == clause_rules::aggregates(drafts_view(items@), items@.len()),
{
    let ghost all = drafts_view(items@);
    let mut found_one = false;
    let mut i: usize = 0;
    while i < items.len()
        invariant
            i <= items.len(),
            all == drafts_view(items@),
            found_one == clause_rules::aggregates(all, i as nat),
        decreases items.len() - i,
    {
        assert(all[i as int] == items@[i as int]@);
        if subtrees::contains_aggregate(&items[i].expr) {
            found_one = true;
        }
        i += 1;
    }
    found_one
}

fn grouping_positions(items: &Vec<DraftItem>) -> (r: Vec<usize>)
    ensures
        r@ == clause_rules::grouping_indices(drafts_view(items@), items@.len()),
{
    let ghost all = drafts_view(items@);
    let mut out: Vec<usize> = Vec::new();
    let mut i: usize = 0;
    assert(out@ =~= clause_rules::grouping_indices(all, 0));
    while i < items.len()
        invariant
            i <= items.len(),
            all == drafts_view(items@),
            out@ == clause_rules::grouping_indices(all, i as nat),
        decreases items.len() - i,
    {
        assert(all[i as int] == items@[i as int]@);
        if !subtrees::contains_aggregate(&items[i].expr) {
            out.push(i);
        }
        i += 1;
    }
    out
}

fn target_exprs<'b>(items: &'b Vec<DraftItem>, plain: bool) -> (r: Vec<&'b BoundExpr>)
    ensures
        subtrees::referenced(r@) == clause_rules::targets(drafts_view(items@), items@.len(), plain),
{
    let ghost all = drafts_view(items@);
    let mut out: Vec<&'b BoundExpr> = Vec::new();
    let mut i: usize = 0;
    assert(subtrees::referenced(out@) =~= clause_rules::targets(all, 0, plain));
    while i < items.len()
        invariant
            i <= items.len(),
            all == drafts_view(items@),
            subtrees::referenced(out@) == clause_rules::targets(all, i as nat, plain),
        decreases items.len() - i,
    {
        assert(all[i as int] == items@[i as int]@);
        if !plain || !subtrees::contains_aggregate(&items[i].expr) {
            let ghost v = out@;
            out.push(&items[i].expr);
            assert(subtrees::referenced(out@) =~= subtrees::referenced(v).push(all[i as int].expr));
        }
        i += 1;
    }
    out
}

/// Those of the first `n` items that are references' targets.
spec fn declared_targets(items: Seq<BoundProjectionItemView>, n: nat, plain: bool) -> Seq<
    BoundExprView,
>
    decreases n,
{
    if n == 0 || n > items.len() {
        seq![]
    } else {
        let before = declared_targets(items, (n - 1) as nat, plain);
        if plain && subtrees::has_aggregate(items[n - 1].expr) {
            before
        } else {
            before.push(items[n - 1].expr)
        }
    }
}

fn item_targets<'b>(items: &'b Vec<BoundProjectionItem>, plain: bool) -> (r: Vec<&'b BoundExpr>)
    ensures
        subtrees::referenced(r@) == declared_targets(
            bound::bound_projection_items_view(items@),
            items@.len(),
            plain,
        ),
{
    let ghost all = bound::bound_projection_items_view(items@);
    let mut out: Vec<&'b BoundExpr> = Vec::new();
    let mut i: usize = 0;
    assert(subtrees::referenced(out@) =~= declared_targets(all, 0, plain));
    while i < items.len()
        invariant
            i <= items.len(),
            all == bound::bound_projection_items_view(items@),
            subtrees::referenced(out@) == declared_targets(all, i as nat, plain),
        decreases items.len() - i,
    {
        assert(all[i as int] == items@[i as int]@);
        if !plain || !subtrees::contains_aggregate(&items[i].expr) {
            let ghost v = out@;
            out.push(&items[i].expr);
            assert(subtrees::referenced(out@) =~= subtrees::referenced(v).push(all[i as int].expr));
        }
        i += 1;
    }
    out
}

fn scope_ids(scope: &NameMap<VarId>) -> (r: Vec<u32>)
    ensures
        r@ == clause_rules::ids_in(scope@),
{
    let mut out: Vec<u32> = Vec::new();
    let mut i: usize = 0;
    while i < scope.len()
        invariant
            i <= scope@.len(),
            out@.len() == i,
            forall|k: int| 0 <= k < i ==> #[trigger] out@[k] == scope@[k].1.0,
        decreases scope@.len() - i,
    {
        out.push(scope.at(i).0);
        i += 1;
    }
    assert(out@ =~= clause_rules::ids_in(scope@));
    out
}

proof fn lemma_scope_untouched(items: Seq<Draft>, n: nat, b: Bindings)
    ensures
        clause_rules::items_declared(items, n, b).bindings.scope == b.scope,
    decreases n,
{
    reveal(clause_rules::items_declared);
    if n > 0 && n <= items.len() {
        lemma_scope_untouched(items, (n - 1) as nat, b);
    }
}

proof fn lemma_items_length(items: Seq<Draft>, n: nat, b: Bindings)
    requires
        n <= items.len(),
    ensures
        clause_rules::items_declared(items, n, b).items.len() == n,
        forall|i: int|
        0 <= i < n ==> (
            #[trigger] clause_rules::items_declared(items, n, b).items[i]
        ).expr == items[i].expr,
    decreases n,
{
    reveal(clause_rules::items_declared);
    if n > 0 {
        lemma_items_length(items, (n - 1) as nat, b);
        let before = clause_rules::items_declared(items, (n - 1) as nat, b).items;
        let now = clause_rules::items_declared(items, n, b).items;
        assert forall|i: int| 0 <= i < n implies (#[trigger] now[i]).expr == items[i].expr by {
            if i < n - 1 {
                assert(now[i] == before[i]);
            }
        }
    }
}

proof fn lemma_grouping_in_range(items: Seq<Draft>, n: nat)
    requires
        n <= items.len(),
        items.len() <= usize::MAX,
    ensures
        forall|i: int|
        0 <= i < clause_rules::grouping_indices(items, n).len() ==> (
            #[trigger] clause_rules::grouping_indices(items, n)[i]
        )
        < n,
    decreases n,
{
    if n > 0 {
        lemma_grouping_in_range(items, (n - 1) as nat);
        let before = clause_rules::grouping_indices(items, (n - 1) as nat);
        let now = clause_rules::grouping_indices(items, n);
        assert forall|i: int| 0 <= i < now.len() implies (#[trigger] now[i]) < n by {
            if i < before.len() {
                assert(now[i] == before[i]);
            }
        }
    }
}

proof fn lemma_item_targets(items: Seq<Draft>, n: nat, b: Bindings, plain: bool)
    requires
        n <= items.len(),
    ensures
        declared_targets(clause_rules::items_declared(items, items.len(), b).items, n, plain) == clause_rules::targets(
            items,
            n,
            plain,
        ),
    decreases n,
{
    lemma_items_length(items, items.len(), b);
    if n > 0 {
        lemma_item_targets(items, (n - 1) as nat, b, plain);
    }
}

/// Bind `query` against `catalogue`. `source` is the original query text (for
/// deriving output column names from expression spans).
pub fn bind(source: &str, query: &Query, catalogue: &Catalogue, mode: BindMode) -> (r: Result<
    BoundQuery,
    BindError,
>)
    ensures
        clause_rules::query_bound(
            query@,
            Setting { source: source@, catalogue: catalogue@, mode, autodeclare: false },
        ) == match r {
            Ok(bound) => Ok::<_, BindErrorView>(bound@),
            Err(e) => Err(e@),
        },
        r matches Ok(bound) ==> run::query_is_sound(bound@),
{
    match bind_with(source, query, catalogue, mode, false) {
        Ok((bound, _)) => Ok(bound),
        Err(e) => Err(e),
    }
}

/// As [`bind`], with relationship-type autodeclare: in Strict mode an unknown type
/// in CREATE/MERGE position is recorded instead of being an error, and the
/// recorded types come with the query, by name. Match positions still err, for
/// reading never coins a type, except for types that this query coins earlier in
/// clause order.
pub fn bind_with(
    source: &str,
    query: &Query,
    catalogue: &Catalogue,
    mode: BindMode,
    autodeclare: bool,
) -> (r: Result<(BoundQuery, Vec<String>), BindError>)
    ensures
        clause_rules::query_bound(
            query@,
            Setting { source: source@, catalogue: catalogue@, mode, autodeclare },
        ) == match r {
            Ok((bound, _)) => Ok::<_, BindErrorView>(bound@),
            Err(e) => Err(e@),
        },
        r matches Ok((bound, coined)) ==> run::query_is_sound(bound@) && text::strings_view(coined@)
            == clause_rules::types_coined(
            query@,
            Setting { source: source@, catalogue: catalogue@, mode, autodeclare },
        ),
{
    let mut binder = Binder {
        source,
        catalogue,
        mode,
        variables: Vec::new(),
        scope: NameMap::new(),
        autodeclare,
        coined: NameMap::new(),
    };
    assert(binder@.variables =~= seq![]);
    assert(binder@.coined =~= seq![]);
    let clauses = match binder.clauses(&query.clauses) {
        Err(e) => {
            return Err(e);
        },
        Ok(x) => x,
    };
    proof {
        let all = bound::bound_clauses_view(clauses@);
        assert forall|i: int| 0 <= i < all.len() implies run::clause_is_sound(#[trigger] all[i]) by {
            assert(all[i] == clauses@[i]@);
        }
    }
    let coined = binder.coined.names();
    Ok((BoundQuery { clauses, variables: binder.variables }, coined))
}

} // verus!
