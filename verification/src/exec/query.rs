//! Parse, bind and execute in one go.

use vstd::prelude::*;
use vstd::string::*;

use crate::bind::binder;
use crate::bind::bound::{BoundQuery, BoundQueryView};
use crate::bind::catalogue::{Catalogue, CatalogueView};
use crate::bind::clause_rules;
use crate::bind::error::{BindError, BindErrorView};
use crate::bind::rules::{BindMode, Setting};
use crate::error::{ParseError, ParseErrorView};
use crate::exec::create::Given;
use crate::exec::fault::{ExecError, ExecErrorView};
use crate::exec::float::FloatTable;
use crate::exec::governor::{self, QueryLimits};
use crate::exec::run::{self, QueryResult};
use crate::exec::source::{GraphSource, GraphView};
use crate::exec::value::PropertyMap;
use crate::parser;
use crate::span::{self, Span};
use crate::structure;

verus! {

/// Why a query's text came to no result.
#[derive(Debug)]
pub enum QueryError {
    Parse(ParseError),
    Bind(BindError),
    Exec(ExecError),
}

/// The value that a [`QueryError`] stands for.
pub enum QueryErrorView {
    Parse(ParseErrorView),
    Bind(BindErrorView),
    Exec(ExecErrorView),
}

impl QueryErrorView {
    /// The source range the error points at.
    pub open spec fn place(self) -> Span {
        match self {
            QueryErrorView::Parse(e) => e.place(),
            QueryErrorView::Bind(e) => e.place(),
            QueryErrorView::Exec(e) => e.place(),
        }
    }

    /// The error's text: that of the wrapped layer.
    pub open spec fn shown(self) -> Seq<char> {
        match self {
            QueryErrorView::Parse(e) => e.shown(),
            QueryErrorView::Bind(e) => e.shown(),
            QueryErrorView::Exec(e) => e.shown(),
        }
    }
}

impl QueryError {
    pub open spec fn view(&self) -> QueryErrorView {
        match self {
            QueryError::Parse(e) => QueryErrorView::Parse(e@),
            QueryError::Bind(e) => QueryErrorView::Bind(e@),
            QueryError::Exec(e) => QueryErrorView::Exec(e@),
        }
    }

    /// The error's text.
    pub fn display(&self) -> (r: String)
        ensures
            r@ == self@.shown(),
    {
        match self {
            QueryError::Parse(e) => e.display(),
            QueryError::Bind(e) => e.display(),
            QueryError::Exec(e) => e.display(),
        }
    }

    /// Render with 1-based line/column against the source, delegating to the
    /// wrapped layer's `render` so a query's parse, bind and execution errors
    /// are all located the same way.
    pub fn render(&self, source: &str) -> (r: String)
        ensures
            r@ == span::rendered(self@.place(), self@.shown(), source@),
    {
        match self {
            QueryError::Parse(e) => e.render(source),
            QueryError::Bind(e) => e.render(source),
            QueryError::Exec(e) => e.render(source),
        }
    }
}

/// The bound form of a query's text, without a schema.
pub open spec fn prepared(text: Seq<char>) -> Result<BoundQueryView, QueryErrorView> {
    match structure::parsed(text) {
        Err(e) => Err(QueryErrorView::Parse(e)),
        Ok(query) => match clause_rules::query_bound(
            query,
            Setting {
                source: text,
                catalogue: CatalogueView::empty(),
                mode: BindMode::Lenient,
                autodeclare: false,
            },
        ) {
            Err(e) => Err(QueryErrorView::Bind(e)),
            Ok(bound) => Ok(bound),
        },
    }
}

fn prepare(text: &str) -> (r: Result<BoundQuery, QueryError>)
    ensures
        prepared(text@) == match r {
            Ok(bound) => Ok::<_, QueryErrorView>(bound@),
            Err(e) => Err(e@),
        },
        r matches Ok(bound) ==> run::query_is_sound(bound@),
{
    let query = match parser::parse(text) {
        Err(e) => {
            return Err(QueryError::Parse(e));
        },
        Ok(query) => query,
    };
    match binder::bind(text, &query, &Catalogue::empty(), BindMode::Lenient) {
        Err(e) => Err(QueryError::Bind(e)),
        Ok(bound) => Ok(bound),
    }
}

/// Whether a query's text came to what the model says, under limits.
pub open spec fn text_answers(
    r: Result<QueryResult, QueryError>,
    text: Seq<char>,
    graph: GraphView,
    given: Given,
    limits: QueryLimits,
) -> bool {
    match prepared(text) {
        Err(e) => r matches Err(error) && error@ == e,
        Ok(bound) => match r {
            Ok(out) => run::answers_within(
                Ok(out),
                bound,
                graph,
                given,
                run::closed_world(),
                limits,
            ),
            Err(QueryError::Exec(e)) => run::answers_within(
                Err(e),
                bound,
                graph,
                given,
                run::closed_world(),
                limits,
            ),
            Err(_) => false,
        },
    }
}

/// Parse, bind (lenient) and execute a query against a graph, under explicit
/// limits.
pub fn run_query_with_limits<G: GraphSource>(
    query_text: &str,
    graph: &G,
    parameters: &PropertyMap,
    floats: &FloatTable,
    limits: QueryLimits,
) -> (r: Result<QueryResult, QueryError>)
    ensures
        text_answers(
            r,
            query_text@,
            graph.graph(),
            (Given { parameters: parameters@, floats: floats@ }),
            limits,
        ),
{
    let bound = match prepare(query_text) {
        Err(e) => {
            return Err(e);
        },
        Ok(bound) => bound,
    };
    match run::execute_with_limits(&bound, graph, parameters, floats, limits) {
        Err(e) => Err(QueryError::Exec(e)),
        Ok(out) => Ok(out),
    }
}

/// Parse, bind (lenient) and execute a query against a graph.
pub fn run_query<G: GraphSource>(
    query_text: &str,
    graph: &G,
    parameters: &PropertyMap,
    floats: &FloatTable,
) -> (r: Result<QueryResult, QueryError>)
    ensures
        text_answers(
            r,
            query_text@,
            graph.graph(),
            (Given { parameters: parameters@, floats: floats@ }),
            governor::default_limits(),
        ),
{
    run_query_with_limits(query_text, graph, parameters, floats, QueryLimits::default())
}

} // verus!
