//! Trees.

use acetone_cypher::ast::{
    AtRef, BinaryOp, Clause, Direction, Expr, Literal, ProjectionItem, Query, QuantifierKind,
    RemoveItem, SetItem, UnaryOp, VarLength,
};
use acetone_cypher::grammar::MAX_AST_DEPTH;
use acetone_cypher::{parse, ParseError, Span};

fn parse_ok(input: &str) -> Query {
    match parse(input) {
        Ok(q) => q,
        Err(e) => panic!("{input:?} should parse, got: {e:?}"),
    }
}

fn parse_err(input: &str) -> ParseError {
    match parse(input) {
        Ok(_) => panic!("{input:?} should not parse"),
        Err(e) => e,
    }
}

fn only_return_expr(query: &Query) -> &Expr {
    let Some(Clause::Return(p)) = query.clauses.last() else {
        panic!("expected a RETURN clause");
    };
    let ProjectionItem::Expr { expr, .. } = &p.items[0] else {
        panic!("expected an expression item");
    };
    expr
}

#[test]
fn create_clause_can_terminate_a_query() {
    // A bare CREATE with no trailing RETURN is a complete query.
    let q = parse_ok("CREATE (a:Host {name: 'h1'})");
    assert!(matches!(q.clauses.last(), Some(Clause::Create(_))));

    // CREATE may precede RETURN and follow MATCH.
    let q = parse_ok("MATCH (a:Host) CREATE (a)-[:RUNS]->(s:Software) RETURN s");
    assert!(matches!(q.clauses[0], Clause::Match(_)));
    assert!(matches!(q.clauses[1], Clause::Create(_)));
    assert!(matches!(q.clauses[2], Clause::Return(_)));
}

#[test]
fn create_relationship_pattern_parses() {
    let q = parse_ok("CREATE (a:A)-[r:R {w: 2}]->(b:B)");
    let Some(Clause::Create(c)) = q.clauses.last() else {
        panic!("expected CREATE");
    };
    let pattern = &c.patterns[0];
    assert_eq!(pattern.start.labels, vec!["A"]);
    assert_eq!(pattern.steps.len(), 1);
    assert_eq!(pattern.steps[0].0.direction, Direction::Out);
}

#[test]
fn set_and_remove_clauses_parse() {
    let q = parse_ok("MATCH (n) SET n.x = 1, n = {a: 1}, n += {b: 2}, n:Label");
    let Some(Clause::SetItems(c)) = q.clauses.last() else {
        panic!("expected SET");
    };
    assert_eq!(c.items.len(), 4);
    assert!(matches!(c.items[0], SetItem::Property { .. }));
    assert!(matches!(c.items[1], SetItem::Replace { .. }));
    assert!(matches!(c.items[2], SetItem::Merge { .. }));
    assert!(matches!(c.items[3], SetItem::AddLabels { .. }));

    let q = parse_ok("MATCH (n) REMOVE n.x, n:Label");
    let Some(Clause::Remove(c)) = q.clauses.last() else {
        panic!("expected REMOVE");
    };
    assert_eq!(c.items.len(), 2);
    assert!(matches!(c.items[0], RemoveItem::Property { .. }));
    assert!(matches!(c.items[1], RemoveItem::Labels { .. }));
}

#[test]
fn merge_clause_parses_with_on_actions() {
    let q = parse_ok("MERGE (a:N {k: 1}) ON CREATE SET a.x = 1 ON MATCH SET a.y = 2, a.z = 3");
    let Some(Clause::Merge(c)) = q.clauses.last() else {
        panic!("expected MERGE");
    };
    assert!(c.pattern.start.labels == vec!["N"]);
    assert_eq!(c.on_create.len(), 1);
    assert_eq!(c.on_match.len(), 2);

    // A bare MERGE terminates a query.
    let q = parse_ok("MERGE (a:N {k: 1})");
    assert!(matches!(q.clauses.last(), Some(Clause::Merge(_))));
}

#[test]
fn delete_clauses_parse() {
    let q = parse_ok("MATCH (n) DELETE n");
    let Some(Clause::Delete(c)) = q.clauses.last() else {
        panic!("expected DELETE");
    };
    assert!(!c.detach);
    assert_eq!(c.targets.len(), 1);

    let q = parse_ok("MATCH (a)-[r]->(b) DETACH DELETE a, b");
    let Some(Clause::Delete(c)) = q.clauses.last() else {
        panic!("expected DETACH DELETE");
    };
    assert!(c.detach);
    assert_eq!(c.targets.len(), 2);
}

#[test]
fn bare_match_is_not_a_complete_query() {
    // A non-write, non-RETURN terminal clause is still rejected.
    let err = parse_err("MATCH (n)");
    assert!(matches!(err, ParseError::QueryStructure { .. }));
}

#[test]
fn precedence_add_mul() {
    let q = parse_ok("RETURN 1 + 2 * 3");
    let Expr::Binary {
        op: BinaryOp::Add,
        rhs,
        ..
    } = only_return_expr(&q)
    else {
        panic!("expected + at the top");
    };
    assert!(matches!(
        **rhs,
        Expr::Binary {
            op: BinaryOp::Mul,
            ..
        }
    ));
}

#[test]
fn power_is_right_associative_over_unary_minus() {
    // openCypher grammar: unary minus is an operand of ^, so -2^2 is (-2)^2.
    let q = parse_ok("RETURN -2 ^ 2");
    let Expr::Binary {
        op: BinaryOp::Pow,
        lhs,
        ..
    } = only_return_expr(&q)
    else {
        panic!("expected ^ at the top");
    };
    assert!(matches!(
        **lhs,
        Expr::Unary {
            op: UnaryOp::Minus,
            ..
        }
    ));

    // Left-associative per openCypher (TCK Precedence2).
    let q = parse_ok("RETURN 2 ^ 3 ^ 4");
    let Expr::Binary {
        op: BinaryOp::Pow,
        lhs: pow_lhs,
        ..
    } = only_return_expr(&q)
    else {
        panic!("expected ^ at the top");
    };
    assert!(matches!(
        **pow_lhs,
        Expr::Binary {
            op: BinaryOp::Pow,
            ..
        }
    ));
}

#[test]
fn boolean_layering() {
    let q = parse_ok("RETURN true OR false XOR true AND NOT false");
    let Expr::Binary {
        op: BinaryOp::Or,
        rhs,
        ..
    } = only_return_expr(&q)
    else {
        panic!("expected OR at the top");
    };
    let Expr::Binary {
        op: BinaryOp::Xor,
        rhs,
        ..
    } = &**rhs
    else {
        panic!("expected XOR under OR");
    };
    let Expr::Binary {
        op: BinaryOp::And,
        rhs,
        ..
    } = &**rhs
    else {
        panic!("expected AND under XOR");
    };
    assert!(matches!(
        &**rhs,
        Expr::Unary {
            op: UnaryOp::Not,
            ..
        }
    ));
}

#[test]
fn quantifiers_and_reduce_parse() {
    // Quantifiers use list-predicate syntax, not function-call args.
    for (query, kind) in [
        ("RETURN all(x IN xs WHERE x > 0)", QuantifierKind::All),
        ("RETURN any(x IN xs WHERE x > 0)", QuantifierKind::Any),
        ("RETURN none(x IN xs WHERE x > 0)", QuantifierKind::NoneOf),
        ("RETURN single(x IN xs WHERE x > 0)", QuantifierKind::Single),
    ] {
        let q = parse_ok(query);
        let Expr::Quantifier { kind: k, .. } = only_return_expr(&q) else {
            panic!("expected a quantifier for {query}");
        };
        assert_eq!(*k, kind);
    }
    // reduce has its own accumulator grammar.
    let q = parse_ok("RETURN reduce(acc = 0, x IN xs | acc + x)");
    assert!(matches!(only_return_expr(&q), Expr::Reduce { .. }));

    // The same names remain callable as ordinary functions when not
    // followed by the quantifier body shape.
    let q = parse_ok("RETURN any([1, 2])");
    assert!(matches!(only_return_expr(&q), Expr::FunctionCall { .. }));
}

#[test]
fn subtraction_vs_pattern() {
    let q = parse_ok("RETURN (1) - (2)");
    assert!(matches!(
        only_return_expr(&q),
        Expr::Binary {
            op: BinaryOp::Sub,
            ..
        }
    ));

    let q = parse_ok("MATCH (h) WHERE (h)--(x) RETURN h");
    let Some(Clause::Match(m)) = q.clauses.first() else {
        panic!()
    };
    assert!(matches!(
        m.where_clause,
        Some(Expr::PatternPredicate { .. })
    ));
}

/// Arithmetic whose surface mimics relationship connectors must stay
/// arithmetic: the shape checks look at
/// both sides of the `-`.
#[test]
fn connector_lookalike_arithmetic_parses() {
    for query in [
        "RETURN (1) - -2",
        "RETURN (a.x) - -1",
        "RETURN (1) - -(2 + 3)",
        "RETURN (1 + 2) - [0]",
        "RETURN (xs) - [0]",
        "RETURN (1) * -2",
        "RETURN (1) + -2",
    ] {
        let q = parse_ok(query);
        assert!(
            !matches!(only_return_expr(&q), Expr::PatternPredicate { .. }),
            "parsed as pattern: {query}"
        );
    }
}

/// The deliberate residual divergence: a node-shaped group followed
/// by a genuine connector shape always reads as a pattern, matching
/// Neo4j. `(a) - -(b)` is therefore the undirected pattern
/// `(a)--(b)`, not `a - (-b)`; and rel-detail-shaped brackets after a
/// node-shaped group commit to a pattern even when their contents
/// then fail to parse as one.
#[test]
fn node_shaped_group_with_connector_is_a_pattern() {
    let q = parse_ok("MATCH (n) WHERE (a) - -(b) RETURN n");
    let Some(Clause::Match(m)) = q.clauses.first() else {
        panic!()
    };
    assert!(matches!(
        m.where_clause,
        Some(Expr::PatternPredicate { .. })
    ));

    // Committed pattern whose bracket contents are not a relationship
    // detail: hard error, not silent reinterpretation as arithmetic.
    assert!(parse("RETURN (xs) - [0] - 1").is_err());
}

#[test]
fn at_ref_forms() {
    let q = parse_ok("MATCH (n:Host) AT 'main~5' RETURN n");
    let Some(Clause::Match(m)) = q.clauses.first() else {
        panic!()
    };
    assert!(matches!(&m.at_ref, Some(AtRef::Refspec { value, .. }) if value == "main~5"));

    let q = parse_ok("MATCH (n) AT $ref WHERE n.x = 1 RETURN n");
    let Some(Clause::Match(m)) = q.clauses.first() else {
        panic!()
    };
    assert!(matches!(&m.at_ref, Some(AtRef::Parameter { name, .. }) if name == "ref"));
    assert!(m.where_clause.is_some());
}

#[test]
fn at_bare_refspec_error_suggests_quoting() {
    // A digit-leading abbreviated commit hash lexes as integer + ident;
    // the error must reproduce the raw text and tell the user to quote.
    let e = parse_err("MATCH (n) AT 3db804f9 RETURN n");
    assert!(e.display().contains("AT '3db804f9'"), "{e:?}");

    // A full 40-hex-character hash.
    let e = parse_err("MATCH (n) AT 4cdc014851d5c50e2bfa9b3d4a2e1a2b3c4d5e6f RETURN n");
    assert!(
        e.display()
            .contains("AT '4cdc014851d5c50e2bfa9b3d4a2e1a2b3c4d5e6f'"),
        "{e:?}"
    );

    // A hash whose leading digits form a float-looking prefix (4e5...).
    let e = parse_err("MATCH (n) AT 4e5c014851 RETURN n");
    assert!(e.display().contains("AT '4e5c014851'"), "{e:?}");

    // An unquoted branch name gets the same suggestion.
    let e = parse_err("MATCH (n) AT main RETURN n");
    assert!(e.display().contains("AT 'main'"), "{e:?}");

    // Punctuated refspecs are reassembled from the adjacent-token run.
    let e = parse_err("MATCH (n) AT feature/foo-1.2 RETURN n");
    assert!(e.display().contains("AT 'feature/foo-1.2'"), "{e:?}");
}

#[test]
fn at_without_refspec_keeps_the_generic_error() {
    // A reserved word after AT means the refspec is missing, not
    // unquoted — suggesting AT 'RETURN' would mislead.
    let e = parse_err("MATCH (n) AT RETURN n");
    assert!(
        e.display()
            .contains("a refspec string or parameter after AT"),
        "{e:?}"
    );
    let e = parse_err("MATCH (n) AT");
    assert!(
        e.display()
            .contains("a refspec string or parameter after AT"),
        "{e:?}"
    );
}

#[test]
fn i64_min_literal_parses_in_all_bases() {
    for q in [
        "RETURN -9223372036854775808 AS literal",
        "RETURN -0x8000000000000000 AS literal",
        "RETURN -0o1000000000000000000000 AS literal",
        // Folding is token-level, so whitespace after '-' is allowed.
        "RETURN - 9223372036854775808 AS literal",
    ] {
        let query = parse_ok(q);
        let expr = only_return_expr(&query);
        assert!(
            matches!(
                expr,
                Expr::Literal {
                    value: Literal::Integer(n),
                    ..
                } if *n == i64::MIN
            ),
            "{q} should fold to i64::MIN, got {expr:?}"
        );
    }
}

#[test]
fn double_minus_folds_the_inner_minus_only() {
    // `--2^63` is -(i64::MIN): parses (one minus folds into the
    // literal), and the remaining negation overflows at runtime.
    let q = parse_ok("RETURN --9223372036854775808");
    let Expr::Unary {
        op: UnaryOp::Minus,
        operand,
        ..
    } = only_return_expr(&q)
    else {
        panic!("expected an outer unary minus");
    };
    assert!(matches!(
        **operand,
        Expr::Literal {
            value: Literal::Integer(i64::MIN),
            ..
        }
    ));
}

#[test]
fn out_of_range_integers_error_cleanly() {
    for q in [
        // 2^63 with no unary minus to fold.
        "RETURN 9223372036854775808",
        "RETURN 0x8000000000000000",
        "RETURN 0o1000000000000000000000",
        // One below i64::MIN.
        "RETURN -9223372036854775809",
        "RETURN -0x8000000000000001",
        // Binary minus is subtraction, not literal negation.
        "RETURN 1-9223372036854775808",
        // u64::MAX negated.
        "RETURN -18446744073709551615",
    ] {
        let e = parse_err(q);
        assert!(e.display().contains("out of range"), "{q}: {e:?}");
    }
}

#[test]
fn reserved_words_are_rejected_in_binding_positions() {
    assert!(matches!(
        parse_err("MATCH (return) RETURN 1"),
        ParseError::ReservedWord { .. }
    ));
    assert!(matches!(
        parse_err("MATCH (n) RETURN n.x AS match"),
        ParseError::ReservedWord { .. }
    ));
    assert!(matches!(
        parse_err("UNWIND [1] AS limit RETURN limit"),
        ParseError::ReservedWord { .. }
    ));
    // RETURN must not parse as a variable.
    assert!(parse("MATCH (n) WHERE n.x > RETURN n").is_err());
}

#[test]
fn backquoting_lifts_reservation() {
    parse_ok("MATCH (`return`) RETURN `return`");
    parse_ok("MATCH (n) RETURN n.x AS `match`");
}

#[test]
fn keywords_stay_legal_as_labels_types_and_property_names() {
    parse_ok("MATCH (n:Return)-[:CONTAINS]->(m) RETURN n.merge, m");
    parse_ok("RETURN {order: 1}.order");
}

#[test]
fn clause_order_is_validated() {
    assert!(matches!(
        parse_err("MATCH (n)"),
        ParseError::QueryStructure { .. }
    ));
    assert!(matches!(
        parse_err("MATCH (n) RETURN n MATCH (m) RETURN m"),
        ParseError::QueryStructure { .. }
    ));
    assert!(matches!(parse_err(""), ParseError::QueryStructure { .. }));
    assert!(matches!(
        parse_err("   "),
        ParseError::QueryStructure { .. }
    ));
    // Standalone CALL needs no RETURN.
    parse_ok("CALL acetone.log('main')");
    // WITH cannot end a query.
    assert!(matches!(
        parse_err("MATCH (n) WITH n"),
        ParseError::QueryStructure { .. }
    ));
}

/// Recursion-guarded nesting: deep parens/lists error cleanly on a
/// normal test stack. (MAX_DEPTH levels of debug-build parser frames
/// legitimately need on the order of 1 MiB, so callers are expected to
/// provide an ordinary >= 2 MiB stack; the guard's job is bounding
/// depth *beyond* that.)
#[test]
fn depth_limit_is_an_error_not_a_stack_overflow() {
    let deep = format!("RETURN {}1{}", "(".repeat(10_000), ")".repeat(10_000));
    assert!(matches!(
        parse(&deep),
        Err(ParseError::RecursionLimit { .. })
    ));

    let deep_lists = format!("RETURN {}1{}", "[".repeat(10_000), "]".repeat(10_000));
    assert!(matches!(
        parse(&deep_lists),
        Err(ParseError::RecursionLimit { .. })
    ));
}

/// Loop-folded operator chains build deep trees with constant parse-time
/// recursion; the depth check must reject them.
#[test]
fn deep_operator_chains_are_rejected() {
    let inputs = vec![
        format!("RETURN {} true", "NOT ".repeat(10_000)),
        format!("RETURN {}1", "-".repeat(10_000)),
        format!("RETURN 1{}", " + 1".repeat(10_000)),
        format!("RETURN 1{}", " ^ 1".repeat(10_000)),
        format!("RETURN true{}", " OR true".repeat(10_000)),
        format!("RETURN x{}", ".p".repeat(10_000)),
        format!("RETURN x{}", "[0]".repeat(10_000)),
        // Mixed precedence levels compounding on one spine.
        format!("RETURN 1{}", " + 1 * -2 ^ x.p".repeat(5_000)),
    ];
    for pathological in &inputs {
        assert!(
            matches!(parse(pathological), Err(ParseError::RecursionLimit { .. })),
            "expected RecursionLimit for: {}...",
            &pathological[..40]
        );
    }
}

/// Nested parenthesised map values: the token-scan decision is linear; at depth
/// 500 an exponential parser would never return, so this test completing at all
/// is the assertion.
#[test]
fn nested_paren_map_values_parse_in_linear_time() {
    let depth = 500;
    let query = format!("RETURN {}1{}", "({a: ".repeat(depth), "})".repeat(depth));
    // Two expression levels per textual level: exceeds MAX_DEPTH and
    // must fail fast with the recursion guard, not hang.
    assert!(matches!(
        parse(&query),
        Err(ParseError::RecursionLimit { .. })
    ));

    // A shallow instance of the same shape parses fine.
    let depth = 20;
    let query = format!("RETURN {}1{}", "({a: ".repeat(depth), "})".repeat(depth));
    parse_ok(&query);
}

#[test]
fn depth_limit_leaves_reasonable_queries_alone() {
    let nested = format!("RETURN {}1{}", "(".repeat(60), ")".repeat(60));
    parse_ok(&nested);
    let chain = format!("RETURN 1{}", " + 1".repeat(200));
    parse_ok(&chain);
    let nots = format!("RETURN {} true", "NOT ".repeat(50));
    parse_ok(&nots);
}

/// The returned AST's depth is bounded by MAX_AST_DEPTH exactly: a
/// chain just inside the bound parses, one just past it is rejected.
#[test]
fn ast_depth_bound_is_exact() {
    let ok = format!("RETURN 1{}", " + 1".repeat(MAX_AST_DEPTH - 1));
    let query = parse_ok(&ok);
    assert!(query.depth() <= MAX_AST_DEPTH);

    let too_deep = format!("RETURN 1{}", " + 1".repeat(MAX_AST_DEPTH));
    assert!(matches!(
        parse(&too_deep),
        Err(ParseError::RecursionLimit { limit, .. }) if limit == MAX_AST_DEPTH
    ));
}

#[test]
fn var_length_bounds() {
    let q = parse_ok("MATCH (a)-[:R*2..5]->(b) RETURN a");
    let Some(Clause::Match(m)) = q.clauses.first() else {
        panic!()
    };
    let (rel, _) = &m.patterns[0].steps[0];
    assert_eq!(
        rel.var_length,
        Some(VarLength {
            min: Some(2),
            max: Some(5)
        })
    );

    let q = parse_ok("MATCH (a)-[*3]->(b) RETURN a");
    let Some(Clause::Match(m)) = q.clauses.first() else {
        panic!()
    };
    let (rel, _) = &m.patterns[0].steps[0];
    assert_eq!(
        rel.var_length,
        Some(VarLength {
            min: Some(3),
            max: Some(3)
        })
    );

    let q = parse_ok("MATCH (a)-[*..4]->(b) RETURN a");
    let Some(Clause::Match(m)) = q.clauses.first() else {
        panic!()
    };
    let (rel, _) = &m.patterns[0].steps[0];
    assert_eq!(
        rel.var_length,
        Some(VarLength {
            min: None,
            max: Some(4)
        })
    );

    assert!(parse("MATCH (a)-[*-1]->(b) RETURN a").is_err());
}

#[test]
fn bracketless_relationships() {
    let q = parse_ok("MATCH (a)-->(b)<--(c)--(d) RETURN a");
    let Some(Clause::Match(m)) = q.clauses.first() else {
        panic!()
    };
    let dirs: Vec<Direction> = m.patterns[0]
        .steps
        .iter()
        .map(|(r, _)| r.direction)
        .collect();
    assert_eq!(
        dirs,
        vec![Direction::Out, Direction::In, Direction::Undirected]
    );
}

#[test]
fn parameters_as_pattern_properties() {
    let q = parse_ok("MATCH (n:Host $props) RETURN n");
    let Some(Clause::Match(m)) = q.clauses.first() else {
        panic!()
    };
    assert!(matches!(
        m.patterns[0].start.properties,
        Some(Expr::Parameter { .. })
    ));
}

#[test]
fn count_star_and_distinct_aggregates() {
    parse_ok("MATCH (n) RETURN count(*) AS n_total, count(DISTINCT n.name) AS names");
}

#[test]
fn errors_carry_spans_and_render_line_col() {
    let source = "MATCH (n)\nRETURN n.";
    let err = parse_err(source);
    assert!(err.span().start >= 10);
    let rendered = err.render(source);
    assert!(rendered.starts_with("line 2"), "got: {rendered}");
}

#[test]
fn is_null_forms() {
    let q = parse_ok("RETURN null IS NULL, 1 IS NOT NULL");
    let Some(Clause::Return(p)) = q.clauses.last() else {
        panic!()
    };
    assert_eq!(p.items.len(), 2);
    let ProjectionItem::Expr { expr, .. } = &p.items[1] else {
        panic!()
    };
    assert!(matches!(expr, Expr::IsNull { negated: true, .. }));
}

#[test]
fn return_star_and_order_by() {
    parse_ok("MATCH (n) RETURN * ORDER BY n.name ASC, n.age DESCENDING SKIP 1 LIMIT 2");
}

#[test]
fn with_where_then_return() {
    parse_ok("MATCH (v)<-[:S]-(s) WITH v, count(s) AS n WHERE n > 3 RETURN v.name, n");
}

#[test]
fn trailing_semicolon_is_allowed() {
    parse_ok("RETURN 1;");
    assert!(parse("RETURN 1; RETURN 2").is_err());
}

/// Chains that are refused are torn down without recursion, also where the error
/// stands behind them.
#[test]
fn very_long_chains_are_torn_down() {
    let chain = format!("RETURN 1{}", " + 1".repeat(200_000));
    assert!(matches!(parse(&chain), Err(ParseError::RecursionLimit { .. })));
    let broken = format!("{chain} + )");
    assert!(matches!(parse(&broken), Err(ParseError::Unexpected { .. })));
    let trailing = format!("{chain} ; RETURN 2");
    assert!(parse(&trailing).is_err());
}

/// A chain of `n` property steps.
fn long_chain(n: usize) -> String {
    let mut text = String::from("x");
    for _ in 0..n {
        text.push_str(".p");
    }
    text
}

#[test]
fn long_chains_before_an_error_are_torn_down() {
    let chain = long_chain(200_000);
    // A step without a name, an unclosed index, list, map, call and pattern.
    for broken in [
        format!("RETURN {chain}."),
        format!("RETURN {chain}[1"),
        format!("RETURN {chain}[1..2"),
        format!("RETURN [{chain}, 1"),
        format!("RETURN {{a: {chain}, b: 1"),
        format!("RETURN f({chain}, 1"),
        format!("RETURN ({chain}"),
        format!("RETURN CASE WHEN {chain} THEN 1"),
        format!("RETURN reduce(a = {chain}, y IN z"),
        format!("RETURN all(y IN {chain} WHERE true"),
        format!("RETURN {chain} AS"),
        format!("RETURN 1 AS a ORDER BY {chain} SKIP"),
        format!("MATCH (n {{a: {chain}}})-[r"),
        format!("MATCH (n) SET n.a = {chain}, n."),
        format!("UNWIND {chain} AS"),
        format!("WITH {chain} AS a MATCH (n) WHERE"),
        format!("MERGE (n {{a: {chain}}}) ON CREATE"),
        format!("MATCH (n) WHERE n.a = {chain}"),
    ] {
        parse_err(&broken);
    }
}

#[test]
fn a_float_literal_is_described_by_its_value() {
    let err = format!("{:?}", parse_err("RETURN (1 1e3"));
    assert!(err.contains("float 1000\""), "{err}");
    let err = format!("{:?}", parse_err("RETURN (1 2.50"));
    assert!(err.contains("float 2.5\""), "{err}");
    let err = format!("{:?}", parse_err("RETURN (1 5e-3"));
    assert!(err.contains("float 0.005\""), "{err}");
}

#[test]
fn children_are_taken_in_order_and_leave_placeholders() {
    let literal = |n: i64, at: usize| Expr::Literal {
        value: Literal::Integer(n),
        span: Span { start: at, end: at + 1 },
    };
    let mut sum = Expr::Binary {
        op: BinaryOp::Add,
        lhs: Box::new(literal(1, 0)),
        rhs: Box::new(literal(2, 4)),
        span: Span { start: 0, end: 5 },
    };
    let mut out = vec![literal(0, 9)];
    sum.take_children(&mut out);
    assert_eq!(out, vec![literal(0, 9), literal(1, 0), literal(2, 4)]);
    let null = || Expr::Literal { value: Literal::Null, span: Span { start: 0, end: 0 } };
    assert_eq!(
        sum,
        Expr::Binary {
            op: BinaryOp::Add,
            lhs: Box::new(null()),
            rhs: Box::new(null()),
            span: Span { start: 0, end: 5 },
        }
    );
    let mut list = Expr::ListLiteral {
        items: vec![literal(3, 1), literal(4, 3)],
        span: Span { start: 0, end: 5 },
    };
    let mut out = Vec::new();
    list.take_children(&mut out);
    assert_eq!(out, vec![literal(3, 1), literal(4, 3)]);
    assert_eq!(list, Expr::ListLiteral { items: vec![], span: Span { start: 0, end: 5 } });
}

#[test]
fn taking_children_keeps_a_pattern_without_its_maps() {
    let query = parse_ok("MATCH (n) WHERE (n {a: 1})-[:R {b: 2}]->(:M) RETURN n");
    let Clause::Match(m) = query.clauses.into_iter().next().unwrap() else {
        panic!("no match");
    };
    let mut predicate = m.where_clause.unwrap();
    let mut out = Vec::new();
    predicate.take_children(&mut out);
    assert_eq!(out.len(), 2);
    let Expr::PatternPredicate { pattern, .. } = predicate else {
        panic!("no pattern");
    };
    assert!(pattern.start.properties.is_none());
    assert_eq!(pattern.steps.len(), 1);
    assert!(pattern.steps[0].0.properties.is_none());
    assert_eq!(pattern.steps[0].1.labels, vec!["M".to_string()]);
}

#[test]
fn float_literals_are_described_as_numbers_print() {
    for written in [
        "0.1", "0.10000000000000000555", "1e22", "1e23", "123.456", "5e-324", "1e308", "9.5", "99.5",
        "1.7976931348623157e308", "9007199254740993.0", "0.30000000000000004", "1e-7", "0.0", "1e400",
        "2.2250738585072014e-308", "4.35", "1234567.125",
    ] {
        let x: f64 = written.parse().unwrap();
        let err = format!("{:?}", parse_err(&format!("RETURN (1 {written}")));
        assert!(err.contains(&format!("float {x}\"")), "{written}: {err}");
    }
}
