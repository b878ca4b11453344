use cat_query::json::{Json, Member};
use cat_query::predicate::{CatQuery, Occurrence, Predicate, PredicateNode, PredicateTree, TermValue};
use cat_query::query_builder::QueryBuilder;
use cat_query::query_parser::{parse, parse_document, try_parse, ParseError};
use cat_query::schema::{designated_field, UnknownField};
use tantivy::schema::{Schema, FAST, INDEXED, STRING};

fn schema() -> Schema {
    let mut builder = Schema::builder();
    builder.add_text_field("status", STRING);
    builder.add_u64_field("time", INDEXED | FAST);
    builder.add_u64_field("size", INDEXED);
    builder.build()
}

fn must(tree: PredicateTree) -> PredicateNode {
    PredicateNode { occurrence: Occurrence::Must, tree }
}

fn should(tree: PredicateTree) -> PredicateNode {
    PredicateNode { occurrence: Occurrence::Should, tree }
}

fn status_is(value: &str) -> PredicateTree {
    PredicateTree::Leaf(Predicate::Term { field: 0, value: TermValue::Text(value.to_string()) })
}

fn range_leaf(field: u32, from: u64, to: u64) -> PredicateTree {
    PredicateTree::Leaf(Predicate::Range {
        field,
        from,
        to,
        include_lower: true,
        include_upper: true,
    })
}

#[test]
fn filter_with_term_and_range_gives_range_constrained_query() {
    let text = r#"{"query": {"bool": {"filter": [
        {"term": {"status": {"value": "0"}}},
        {"range": {"time": {"from": 100, "to": 200, "include_lower": true, "include_upper": false}}}
    ]}}}"#;
    let tree = parse(text.to_string(), schema(), 5);
    let expected = PredicateTree::RangeConstrained(CatQuery {
        query: vec![must(status_is("0"))],
        field: 1,
        left: 100,
        right: 199,
        limit: 5,
    });
    assert_eq!(tree, expected);
}

#[test]
fn text_that_is_not_json_gives_the_empty_group() {
    assert_eq!(parse(String::new(), schema(), 10), PredicateTree::Group(vec![]));
    assert_eq!(parse("{not json".to_string(), schema(), 10), PredicateTree::Group(vec![]));
    assert_eq!(try_parse("", schema(), 10), Err(ParseError));
    assert_eq!(try_parse("[1, 2", schema(), 10), Err(ParseError));
}

#[test]
fn try_parse_agrees_with_parse_on_json() {
    let text = r#"{"term": {"status": {"value": "ok"}}}"#;
    assert_eq!(try_parse(text, schema(), 3), Ok(status_is("ok")));
    assert_eq!(parse(text.to_string(), schema(), 3), status_is("ok"));
}

#[test]
fn json_without_clauses_gives_the_empty_group() {
    assert_eq!(parse("{}".to_string(), schema(), 10), PredicateTree::Group(vec![]));
    assert_eq!(parse("null".to_string(), schema(), 10), PredicateTree::Group(vec![]));
    assert_eq!(parse("17".to_string(), schema(), 10), PredicateTree::Group(vec![]));
    assert_eq!(parse("[]".to_string(), schema(), 10), PredicateTree::Group(vec![]));
}

#[test]
fn second_range_of_a_scope_is_an_ordinary_clause() {
    let text = r#"[
        {"range": {"time": {"from": 10, "to": 20, "include_lower": false, "include_upper": true}}},
        {"range": {"size": {"from": 1, "to": 9, "include_lower": true, "include_upper": false}}}
    ]"#;
    let tree = parse(text.to_string(), schema(), 7);
    let expected = PredicateTree::RangeConstrained(CatQuery {
        query: vec![must(range_leaf(2, 1, 8))],
        field: 1,
        left: 11,
        right: 20,
        limit: 7,
    });
    assert_eq!(tree, expected);
}

#[test]
fn ranges_of_one_clause_are_read_in_the_order_of_their_keys() {
    let text = r#"{"range": {
        "time": {"from": 10, "to": 20, "include_lower": true, "include_upper": true},
        "size": {"from": 1, "to": 9, "include_lower": true, "include_upper": true}
    }}"#;
    let tree = parse(text.to_string(), schema(), 7);
    let expected = PredicateTree::RangeConstrained(CatQuery {
        query: vec![must(range_leaf(1, 10, 20))],
        field: 2,
        left: 1,
        right: 9,
        limit: 7,
    });
    assert_eq!(tree, expected);
}

#[test]
fn range_needs_all_four_parameters() {
    let missing = [
        r#"{"range": {"time": {"to": 20, "include_lower": true, "include_upper": true}}}"#,
        r#"{"range": {"time": {"from": 10, "include_lower": true, "include_upper": true}}}"#,
        r#"{"range": {"time": {"from": 10, "to": 20, "include_upper": true}}}"#,
        r#"{"range": {"time": {"from": 10, "to": 20, "include_lower": true}}}"#,
        r#"{"range": {"time": {"from": "10", "to": 20, "include_lower": true, "include_upper": true}}}"#,
        r#"{"range": {"time": {"from": 10, "to": -20, "include_lower": true, "include_upper": true}}}"#,
        r#"{"range": {"time": {"from": 10, "to": 20, "include_lower": 1, "include_upper": true}}}"#,
    ];
    for text in missing {
        assert_eq!(parse(text.to_string(), schema(), 4), PredicateTree::Group(vec![]));
    }
}

#[test]
fn bound_that_excludes_its_only_value_is_empty() {
    let text = r#"{"range": {"time": {"from": 18446744073709551615, "to": 18446744073709551615,
        "include_lower": false, "include_upper": true}}}"#;
    let tree = parse(text.to_string(), schema(), 4);
    let expected = PredicateTree::RangeConstrained(CatQuery {
        query: vec![],
        field: 1,
        left: 1,
        right: 0,
        limit: 4,
    });
    assert_eq!(tree, expected);
    let text = r#"{"range": {"time": {"from": 0, "to": 0, "include_lower": true, "include_upper": false}}}"#;
    assert_eq!(parse(text.to_string(), schema(), 4), expected);
}

#[test]
fn clause_on_unknown_field_is_dropped() {
    let text = r#"{"bool": {"filter": [
        {"term": {"nowhere": {"value": "x"}}},
        {"prefix": {"nowhere": {"value": "x"}}},
        {"range": {"nowhere": {"from": 1, "to": 2, "include_lower": true, "include_upper": true}}},
        {"term": {"status": {"value": "1"}}}
    ]}}"#;
    let tree = parse(text.to_string(), schema(), 4);
    assert_eq!(tree, status_is("1"));
}

#[test]
fn term_value_is_a_number_or_a_text() {
    let text = r#"[{"term": {"size": {"value": 20000, "boost": 1}}},
                   {"term": {"status": {"value": "20000"}}},
                   {"term": {"status": {"value": true}}},
                   {"term": {"status": {"boost": 1}}}]"#;
    let tree = parse(text.to_string(), schema(), 4);
    let expected = PredicateTree::Group(vec![
        must(PredicateTree::Leaf(Predicate::Term { field: 2, value: TermValue::Unsigned(20000) })),
        must(status_is("20000")),
    ]);
    assert_eq!(tree, expected);
}

#[test]
fn should_group_reads_its_clauses_under_should() {
    let text = r#"{"query": {"bool": {"should": [
        {"prefix": {"status": {"value": "ab"}}},
        {"term": {"status": {"value": "cd"}}}
    ]}}}"#;
    let tree = parse(text.to_string(), schema(), 4);
    let group = PredicateTree::Group(vec![
        should(PredicateTree::Leaf(Predicate::Prefix { field: 0, prefix: "ab".to_string() })),
        should(status_is("cd")),
    ]);
    assert_eq!(tree, group);
}

#[test]
fn filter_and_should_of_one_bool_are_both_read() {
    let text = r#"{"query": {"bool": {
        "should": [{"prefix": {"status": {"value": "ab"}}}],
        "filter": [{"term": {"status": {"value": "0"}}}, {"term": {"size": {"value": 3}}}]
    }}}"#;
    let tree = parse(text.to_string(), schema(), 4);
    let expected = PredicateTree::Group(vec![
        must(PredicateTree::Group(vec![
            must(status_is("0")),
            must(PredicateTree::Leaf(Predicate::Term { field: 2, value: TermValue::Unsigned(3) })),
        ])),
        must(PredicateTree::Leaf(Predicate::Prefix { field: 0, prefix: "ab".to_string() })),
    ]);
    assert_eq!(tree, expected);
}

#[test]
fn nested_range_query_keeps_the_limit_of_its_scope() {
    let text = r#"[
        {"term": {"status": {"value": "0"}}},
        {"bool": {"filter": [
            {"range": {"time": {"from": 1, "to": 5, "include_lower": true, "include_upper": true}}},
            {"term": {"status": {"value": "1"}}}
        ]}}
    ]"#;
    let tree = parse(text.to_string(), schema(), 9);
    let nested = PredicateTree::RangeConstrained(CatQuery {
        query: vec![must(status_is("1"))],
        field: 1,
        left: 1,
        right: 5,
        limit: 0,
    });
    assert_eq!(tree, PredicateTree::Group(vec![must(status_is("0")), must(nested)]));
}

#[test]
fn only_clause_that_is_a_nested_range_query_gets_the_limit() {
    let text = r#"{"bool": {"filter": [
        {"range": {"time": {"from": 1, "to": 5, "include_lower": true, "include_upper": true}}}
    ]}}"#;
    let tree = parse(text.to_string(), schema(), 9);
    let expected = PredicateTree::RangeConstrained(CatQuery {
        query: vec![],
        field: 1,
        left: 1,
        right: 5,
        limit: 9,
    });
    assert_eq!(tree, expected);
}

#[test]
fn query_key_takes_precedence_over_the_rest() {
    let text = r#"{"term": {"status": {"value": "a"}}, "query": {"term": {"status": {"value": "b"}}}}"#;
    assert_eq!(parse(text.to_string(), schema(), 1), status_is("b"));
    let text = r#"{"term": {"status": {"value": "a"}}, "prefix": {"status": {"value": "b"}}}"#;
    assert_eq!(
        parse(text.to_string(), schema(), 1),
        PredicateTree::Leaf(Predicate::Prefix { field: 0, prefix: "b".to_string() })
    );
    let text = r#"{"term": {"status": {"value": "a"}}, "prefix": 3, "bool": {"must": []}}"#;
    assert_eq!(parse(text.to_string(), schema(), 1), status_is("a"));
}

#[test]
fn document_given_as_values_is_read_like_its_text() {
    let doc = Json::Object(vec![Member {
        key: "term".to_string(),
        value: Json::Object(vec![Member {
            key: "size".to_string(),
            value: Json::Object(vec![Member {
                key: "value".to_string(),
                value: Json::Number(Some(8)),
            }]),
        }]),
    }]);
    let tree = parse_document(Some(&doc), schema(), 2);
    assert_eq!(tree, parse(r#"{"term": {"size": {"value": 8}}}"#.to_string(), schema(), 2));
    assert_eq!(
        tree,
        PredicateTree::Leaf(Predicate::Term { field: 2, value: TermValue::Unsigned(8) })
    );
    assert_eq!(parse_document(None, schema(), 2), PredicateTree::Group(vec![]));
}

#[test]
fn builder_parse_adds_to_the_current_scope() {
    let doc = Json::Array(vec![Json::Object(vec![Member {
        key: "prefix".to_string(),
        value: Json::Object(vec![Member {
            key: "status".to_string(),
            value: Json::Object(vec![Member {
                key: "value".to_string(),
                value: Json::Text("ab".to_string()),
            }]),
        }]),
    }])]);
    let tree = QueryBuilder::new(schema(), Occurrence::Should, 3)
        .add_term_query("status", "x")
        .parse(&doc)
        .build();
    let expected = PredicateTree::Group(vec![
        should(status_is("x")),
        should(PredicateTree::Leaf(Predicate::Prefix { field: 0, prefix: "ab".to_string() })),
    ]);
    assert_eq!(tree, expected);
}

#[test]
fn designated_field_must_be_in_the_schema() {
    assert_eq!(designated_field(&schema(), "time"), Ok(1));
    assert_eq!(designated_field(&schema(), "status"), Ok(0));
    assert_eq!(designated_field(&schema(), "when"), Err(UnknownField { name: "when".to_string() }));
}
