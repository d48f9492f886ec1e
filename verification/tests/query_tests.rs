use lance_engines::fts::{build_fts_query, build_query, sanitize_query, FtsQuery, MatchQuery, Occur, Operator};

fn m(terms: &str, op: Option<Operator>) -> MatchQuery {
    MatchQuery { terms: terms.to_string(), column: Some("text".to_string()), operator: op }
}

#[test]
fn single_term_is_a_plain_match() {
    assert_eq!(build_fts_query("hello", "text"), Some(FtsQuery::Match(m("hello", Some(Operator::Or)))));
}

#[test]
fn quoted_phrase_matches_all_terms() {
    assert_eq!(
        build_fts_query("\"hello world\"", "text"),
        Some(FtsQuery::Match(m("hello world", Some(Operator::And))))
    );
}

#[test]
fn prefixed_terms_make_a_boolean_query() {
    assert_eq!(
        build_fts_query("+hello +world", "text"),
        Some(FtsQuery::Boolean(vec![
            (Occur::Must, m("hello", Some(Operator::Or))),
            (Occur::Must, m("world", Some(Operator::Or))),
        ]))
    );
    assert_eq!(
        build_fts_query("-spam", "text"),
        Some(FtsQuery::Boolean(vec![(Occur::MustNot, m("spam", Some(Operator::Or)))]))
    );
    assert_eq!(
        build_fts_query("a \"b c\"", "text"),
        Some(FtsQuery::Boolean(vec![
            (Occur::Should, m("a", Some(Operator::Or))),
            (Occur::Should, m("b c", Some(Operator::And))),
        ]))
    );
}

#[test]
fn empty_query_matches_empty_text() {
    assert_eq!(build_fts_query("   ", "text"), Some(FtsQuery::Match(m("", None))));
    assert_eq!(build_fts_query("", "body"), Some(FtsQuery::Match(MatchQuery {
        terms: String::new(),
        column: Some("body".to_string()),
        operator: None,
    })));
}

#[test]
fn sanitize_keeps_the_query() {
    assert_eq!(sanitize_query("+hello \"x y\""), "+hello \"x y\"");
}

#[test]
fn build_query_is_an_any_term_match_on_text() {
    assert_eq!(build_query("hello world"), Some(FtsQuery::Match(m("hello world", Some(Operator::Or)))));
    assert_eq!(build_query(" \t "), None);
    assert_eq!(build_query(""), None);
}

#[test]
fn build_query_keeps_quotes_and_prefixes_as_any_term_text() {
    assert_eq!(
        build_query("\"hello world\""),
        Some(FtsQuery::Match(m("\"hello world\"", Some(Operator::Or))))
    );
    assert_eq!(build_query("+hello +world"), Some(FtsQuery::Match(m("+hello +world", Some(Operator::Or)))));
}
