//! Characters beyond ASCII, and how texts show in messages.

use acetone_cypher::exec::float::FloatTable;
use acetone_cypher::exec::value::PropertyMap;
use acetone_cypher::exec::{run_query, EmptyGraph, QueryError, Value};
use acetone_cypher::{parse, ParseError};

fn text(query: &str) -> String {
    let result = run_query(query, &EmptyGraph, &PropertyMap::new(), &FloatTable::new())
        .expect(query);
    match &result.rows[0][0] {
        Value::String(s) => s.clone(),
        other => panic!("not a text: {other:?}"),
    }
}

#[test]
fn case_conversion_follows_unicode() {
    assert_eq!(text("RETURN toUpper('straße')"), "STRASSE");
    assert_eq!(text("RETURN toLower('ÀÉ')"), "àé");
}

#[test]
fn escapes_name_characters() {
    assert_eq!(text("RETURN 'a\\u00e9\\n\\''"), "aé\n'");
    assert!(matches!(parse("RETURN '\\ud800'"), Err(ParseError::Lex { .. })));
}

#[test]
fn letters_of_any_script_make_names() {
    assert_eq!(text("WITH 'x' AS été RETURN été"), "x");
    assert_eq!(text("WITH 'y' AS имя2 RETURN имя2"), "y");
    assert!(parse("RETURN 1 AS ²").is_err());
}

#[test]
fn white_space_of_any_kind_separates() {
    assert_eq!(text("RETURN\u{a0}'x'\u{2003}AS\ty"), "x");
}

#[test]
fn spans_count_bytes_and_columns_count_characters() {
    let query = "RETURN 'é' + m";
    let error = run_query(query, &EmptyGraph, &PropertyMap::new(), &FloatTable::new()).unwrap_err();
    let QueryError::Bind(bind_error) = &error else {
        panic!("wrong error: {error:?}");
    };
    assert_eq!(bind_error.span().start, 14);
    assert_eq!(error.render(query), "line 1, column 14: undefined variable 'm'");
}

#[test]
fn names_are_escaped_in_suggestions() {
    let query = "RETURN toUper('a')";
    let error = run_query(query, &EmptyGraph, &PropertyMap::new(), &FloatTable::new()).unwrap_err();
    assert_eq!(
        error.display(),
        "unknown function 'toUper' — did you mean \"toUpper\"?"
    );
}
