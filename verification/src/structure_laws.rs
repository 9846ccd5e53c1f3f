//! What every parsed query looks like.

use vstd::prelude::*;

use crate::ast::ClauseView;
use crate::grammar::{self, MAX_AST_DEPTH};
use crate::lex::{self, TokenView};
use crate::nesting;
use crate::structure;

verus! {

/// Whether no clause but the last is a `RETURN`.
pub open spec fn only_the_last_returns(clauses: Seq<ClauseView>) -> bool {
    forall|i: int| 0 <= i < clauses.len() - 1 ==> !((#[trigger] clauses[i]) is Return)
}

proof fn lemma_clauses(ts: Seq<TokenView>, p: nat, source: Seq<char>, before: Seq<ClauseView>)
    requires
        only_the_last_returns(before),
    ensures
        structure::clauses_at(ts, p, source, before) matches Ok((clauses, _))
            ==> only_the_last_returns(clauses),
    decreases ts.len() - p,
{
    reveal(structure::clauses_at);
    if !structure::query_ends(ts, p) && !(before.len() > 0 && before.last() is Return) {
        match structure::clause_at(ts, p, source) {
            Err(e) => {},
            Ok((clause, q)) => {
                let next = before.push(clause);
                assert forall|i: int| 0 <= i < next.len() - 1 implies !((
                #[trigger] next[i]) is Return) by {
                    assert(next[i] == before[i]);
                    if i == before.len() - 1 {
                        assert(before[i] == before.last());
                    }
                }
                if grammar::advances(ts, p, q) {
                    lemma_clauses(ts, q, source, next);
                }
            },
        }
    }
}

/// A query that parses has a clause; its last clause is a `RETURN`, a `CALL` or a
/// write clause; no clause follows a `RETURN`; and its expressions nest no deeper
/// than the limit.
pub proof fn queries_are_well_formed(source: Seq<char>)
    ensures
        structure::parsed(source) matches Ok(query) ==> {
            &&& query.clauses.len() > 0
            &&& structure::may_end(query.clauses.last())
            &&& only_the_last_returns(query.clauses)
            &&& nesting::query_depth(query) <= MAX_AST_DEPTH
        },
{
    match lex::tokens_of(source) {
        Err(e) => {},
        Ok(ts) => {
            lemma_clauses(ts, 0, source, seq![]);
        },
    }
}

} // verus!
