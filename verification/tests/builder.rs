use cat_query::json::{Json, Member};
use cat_query::predicate::{
    prefix_pattern, CatQuery, Occurrence, Predicate, PredicateNode, PredicateTree, TermValue,
};
use cat_query::query_builder::{CatQueryBuilder, QueryBuilder};
use tantivy::schema::{Schema, FAST, INDEXED, STRING};

fn schema() -> Schema {
    let mut builder = Schema::builder();
    builder.add_text_field("status", STRING);
    builder.add_u64_field("time", INDEXED | FAST);
    builder.add_u64_field("size", INDEXED);
    builder.build()
}

fn text_term(field: u32, value: &str) -> PredicateTree {
    PredicateTree::Leaf(Predicate::Term { field, value: TermValue::Text(value.to_string()) })
}

#[test]
fn range_bound_with_excluded_left_end_starts_one_later() {
    let tree = QueryBuilder::new(schema(), Occurrence::Must, 3)
        .add_range_query("time", 10, 20, false, true)
        .build();
    let expected =
        PredicateTree::RangeConstrained(CatQuery { query: vec![], field: 1, left: 11, right: 20, limit: 3 });
    assert_eq!(tree, expected);
}

#[test]
fn range_bound_with_excluded_right_end_stops_one_earlier() {
    let tree = QueryBuilder::new(schema(), Occurrence::Must, 3)
        .add_range_query("time", 10, 20, true, false)
        .build();
    let expected =
        PredicateTree::RangeConstrained(CatQuery { query: vec![], field: 1, left: 10, right: 19, limit: 3 });
    assert_eq!(tree, expected);
}

#[test]
fn range_bound_with_both_ends_excluded_or_included() {
    let both_out = QueryBuilder::new(schema(), Occurrence::Must, 3)
        .add_range_query("time", 10, 20, false, false)
        .build();
    assert_eq!(
        both_out,
        PredicateTree::RangeConstrained(CatQuery { query: vec![], field: 1, left: 11, right: 19, limit: 3 })
    );
    let both_in = QueryBuilder::new(schema(), Occurrence::Must, 3)
        .add_range_query("time", 10, 20, true, true)
        .build();
    assert_eq!(
        both_in,
        PredicateTree::RangeConstrained(CatQuery { query: vec![], field: 1, left: 10, right: 20, limit: 3 })
    );
}

#[test]
fn excluded_end_that_cannot_move_gives_the_empty_bound() {
    let high = QueryBuilder::new(schema(), Occurrence::Must, 3)
        .add_range_query("time", u64::MAX, u64::MAX, false, true)
        .build();
    assert_eq!(
        high,
        PredicateTree::RangeConstrained(CatQuery { query: vec![], field: 1, left: 1, right: 0, limit: 3 })
    );
    let low = QueryBuilder::new(schema(), Occurrence::Must, 3)
        .add_range_query("time", 0, 0, true, false)
        .build();
    assert_eq!(
        low,
        PredicateTree::RangeConstrained(CatQuery { query: vec![], field: 1, left: 1, right: 0, limit: 3 })
    );
}

#[test]
fn first_range_is_hoisted_and_second_is_a_clause() {
    let tree = QueryBuilder::new(schema(), Occurrence::Must, 3)
        .add_range_query("time", 10, 20, true, true)
        .add_range_query("size", 5, 6, false, false)
        .add_range_query("time", 1, 2, true, true)
        .build();
    let clause = |field: u32, from: u64, to: u64| PredicateNode {
        occurrence: Occurrence::Must,
        tree: PredicateTree::Leaf(Predicate::Range {
            field,
            from,
            to,
            include_lower: true,
            include_upper: true,
        }),
    };
    let expected = PredicateTree::RangeConstrained(CatQuery {
        query: vec![clause(2, 6, 5), clause(1, 1, 2)],
        field: 1,
        left: 10,
        right: 20,
        limit: 3,
    });
    assert_eq!(tree, expected);
}

#[test]
fn single_clause_is_built_without_a_group() {
    let tree = QueryBuilder::new(schema(), Occurrence::Should, 3).add_term_query("status", "a").build();
    assert_eq!(tree, text_term(0, "a"));
}

#[test]
fn no_clause_builds_the_empty_group() {
    let tree = QueryBuilder::new(schema(), Occurrence::Must, 3).build();
    assert_eq!(tree, PredicateTree::Group(vec![]));
}

#[test]
fn clauses_carry_the_occurrence_they_were_added_under() {
    let tree = QueryBuilder::new(schema(), Occurrence::Must, 3)
        .add_term_query_str("status", "a")
        .also(Occurrence::Should)
        .add_term_query_u64("size", 4)
        .add_prefix_query("status", "b")
        .build();
    let expected = PredicateTree::Group(vec![
        PredicateNode { occurrence: Occurrence::Must, tree: text_term(0, "a") },
        PredicateNode {
            occurrence: Occurrence::Should,
            tree: PredicateTree::Leaf(Predicate::Term { field: 2, value: TermValue::Unsigned(4) }),
        },
        PredicateNode {
            occurrence: Occurrence::Should,
            tree: PredicateTree::Leaf(Predicate::Prefix { field: 0, prefix: "b".to_string() }),
        },
    ]);
    assert_eq!(tree, expected);
}

#[test]
fn nested_scope_folds_into_its_parent_under_the_parents_occurrence() {
    let tree = QueryBuilder::new(schema(), Occurrence::Should, 3)
        .add_term_query("status", "a")
        .down(Occurrence::Must)
        .add_term_query("status", "b")
        .add_term_query("status", "c")
        .up()
        .build();
    let expected = PredicateTree::Group(vec![
        PredicateNode { occurrence: Occurrence::Should, tree: text_term(0, "a") },
        PredicateNode {
            occurrence: Occurrence::Should,
            tree: PredicateTree::Group(vec![
                PredicateNode { occurrence: Occurrence::Must, tree: text_term(0, "b") },
                PredicateNode { occurrence: Occurrence::Must, tree: text_term(0, "c") },
            ]),
        },
    ]);
    assert_eq!(tree, expected);
}

#[test]
fn each_scope_hoists_its_own_range() {
    let tree = QueryBuilder::new(schema(), Occurrence::Must, 3)
        .add_range_query("time", 1, 2, true, true)
        .down(Occurrence::Must)
        .add_range_query("size", 3, 4, true, true)
        .up()
        .build();
    let nested =
        PredicateTree::RangeConstrained(CatQuery { query: vec![], field: 2, left: 3, right: 4, limit: 0 });
    let expected = PredicateTree::RangeConstrained(CatQuery {
        query: vec![PredicateNode { occurrence: Occurrence::Must, tree: nested }],
        field: 1,
        left: 1,
        right: 2,
        limit: 3,
    });
    assert_eq!(tree, expected);
}

#[test]
fn build_of_a_nested_scope_gives_that_scope_only() {
    let tree = QueryBuilder::new(schema(), Occurrence::Must, 3)
        .add_term_query("status", "a")
        .down(Occurrence::Should)
        .add_term_query("status", "b")
        .build();
    assert_eq!(tree, text_term(0, "b"));
}

#[test]
fn unknown_field_leaves_the_builder_as_it_is() {
    let tree = QueryBuilder::new(schema(), Occurrence::Must, 3)
        .add_term_query("none", "a")
        .add_term_query_str("none", "a")
        .add_term_query_u64("none", 1)
        .add_prefix_query("none", "a")
        .add_range_query("none", 1, 2, true, true)
        .build();
    assert_eq!(tree, PredicateTree::Group(vec![]));
}

#[test]
fn scope_builder_builds_by_its_bound_and_clauses() {
    let mut scope = CatQueryBuilder { c: vec![], left: 0, right: 0, field: None, limit: 6 };
    scope.push(PredicateNode { occurrence: Occurrence::Should, tree: text_term(0, "a") });
    scope.add_range_query(1, 4, 8, Occurrence::Must);
    scope.add_range_query(2, 5, 9, Occurrence::Must);
    let expected = PredicateTree::RangeConstrained(CatQuery::new(
        vec![
            PredicateNode { occurrence: Occurrence::Should, tree: text_term(0, "a") },
            PredicateNode {
                occurrence: Occurrence::Must,
                tree: PredicateTree::Leaf(Predicate::Range {
                    field: 2,
                    from: 5,
                    to: 9,
                    include_lower: true,
                    include_upper: true,
                }),
            },
        ],
        1,
        4,
        8,
        6,
    ));
    assert_eq!(scope.build(), expected);
}

#[test]
fn cat_query_limit_can_be_replaced() {
    let mut query = CatQuery::new(vec![], 1, 2, 3, 4);
    query.set_limit(9);
    assert_eq!(query, CatQuery { query: vec![], field: 1, left: 2, right: 3, limit: 9 });
}

#[test]
fn json_accessors_read_what_the_value_holds() {
    let object = Json::Object(vec![
        Member { key: "a".to_string(), value: Json::Number(Some(1)) },
        Member { key: "b".to_string(), value: Json::Text("x".to_string()) },
        Member { key: "a".to_string(), value: Json::Bool(true) },
    ]);
    assert_eq!(object.get("a"), Some(&Json::Number(Some(1))));
    assert_eq!(object.get("b"), Some(&Json::Text("x".to_string())));
    assert_eq!(object.get("c"), None);
    assert_eq!(Json::Null.get("a"), None);
    assert_eq!(Json::Number(Some(4)).as_u64(), Some(4));
    assert_eq!(Json::Number(None).as_u64(), None);
    assert_eq!(Json::Text("4".to_string()).as_u64(), None);
    assert_eq!(Json::Text("4".to_string()).as_str(), Some("4"));
    assert_eq!(Json::Bool(false).as_bool(), Some(false));
    assert_eq!(Json::Null.as_bool(), None);
    assert!(object.as_object().is_some());
    assert!(object.as_array().is_none());
    assert_eq!(Json::Array(vec![Json::Null]).as_array(), Some(&vec![Json::Null]));
}

#[test]
fn prefix_pattern_is_the_prefix_followed_by_any_characters() {
    assert_eq!(prefix_pattern("ab"), "ab[u:\\x00-u:\\xFF]*");
    assert_eq!(prefix_pattern(""), "[u:\\x00-u:\\xFF]*");
    assert_eq!(prefix_pattern("ab").len(), 18);
}
