//! The query language: a JSON document of `query`, `bool`, `filter`,
//! `should`, `term`, `prefix` and `range` keys, read into a predicate tree.

use crate::json::{json_document, member_index, read_document, Json, Member};
use crate::predicate::{NodeModel, Occurrence, PredicateTree, TreeModel, CatQueryModel};
use crate::query_builder::{QueryBuilder, ScopeModel};
use crate::schema::schema_fields;
use tantivy::schema::Schema;
use vstd::prelude::*;

verus! {

/// The text under `key` of the object `v`.
pub open spec fn text_under(v: Json, key: Seq<char>) -> Option<Seq<char>> {
    match v.lookup(key) {
        Some(found) => found.text(),
        None => None,
    }
}

/// The unsigned integer under `key` of the object `v`.
pub open spec fn unsigned_under(v: Json, key: Seq<char>) -> Option<u64> {
    match v.lookup(key) {
        Some(found) => found.unsigned(),
        None => None,
    }
}

/// The truth value under `key` of the object `v`.
pub open spec fn boolean_under(v: Json, key: Seq<char>) -> Option<bool> {
    match v.lookup(key) {
        Some(found) => found.boolean(),
        None => None,
    }
}

/// The entries of the object under `key` of the object `v`.
pub open spec fn object_under(v: Json, key: Seq<char>) -> Option<Seq<Member>> {
    match v.lookup(key) {
        Some(Json::Object(m)) => Some(m@),
        _ => None,
    }
}

/// One entry of a `prefix` clause: a prefix match on the field that the key
/// names, where the entry has a text under `value`.
pub open spec fn prefix_entry(
    scope: ScopeModel,
    fields: Map<Seq<char>, u32>,
    occur: Occurrence,
    entry: Member,
) -> ScopeModel {
    match text_under(entry.value, "value"@) {
        Some(s) => scope.add_prefix(fields, occur, entry.key@, s),
        None => scope,
    }
}

/// One entry of a `term` clause: an exact match on the number under `value`
/// if it is an unsigned integer, else on the text under `value`.
pub open spec fn term_entry(
    scope: ScopeModel,
    fields: Map<Seq<char>, u32>,
    occur: Occurrence,
    entry: Member,
) -> ScopeModel {
    match unsigned_under(entry.value, "value"@) {
        Some(n) => scope.add_term_u64(fields, occur, entry.key@, n),
        None => match text_under(entry.value, "value"@) {
            Some(s) => scope.add_term_str(fields, occur, entry.key@, s),
            None => scope,
        },
    }
}

/// One entry of a `range` clause: a range on the field that the key names,
/// where `from`, `to`, `include_lower` and `include_upper` are all there and
/// of the right type.
pub open spec fn range_entry(
    scope: ScopeModel,
    fields: Map<Seq<char>, u32>,
    occur: Occurrence,
    entry: Member,
) -> ScopeModel {
    match (
        unsigned_under(entry.value, "from"@),
        unsigned_under(entry.value, "to"@),
        boolean_under(entry.value, "include_lower"@),
        boolean_under(entry.value, "include_upper"@),
    ) {
        (Some(left), Some(right), Some(include_left), Some(include_right)) => scope.add_range(
            fields,
            occur,
            entry.key@,
            left,
            right,
            include_left,
            include_right,
        ),
        _ => scope,
    }
}

/// The first `n` entries of a `prefix` clause, in order.
pub open spec fn prefix_entries(
    scope: ScopeModel,
    fields: Map<Seq<char>, u32>,
    occur: Occurrence,
    entries: Seq<Member>,
    n: nat,
) -> ScopeModel
    decreases n,
{
    if n == 0 || n > entries.len() {
        scope
    } else {
        prefix_entry(
            prefix_entries(scope, fields, occur, entries, (n - 1) as nat),
            fields,
            occur,
            entries[n - 1],
        )
    }
}

/// The first `n` entries of a `term` clause, in order.
pub open spec fn term_entries(
    scope: ScopeModel,
    fields: Map<Seq<char>, u32>,
    occur: Occurrence,
    entries: Seq<Member>,
    n: nat,
) -> ScopeModel
    decreases n,
{
    if n == 0 || n > entries.len() {
        scope
    } else {
        term_entry(
            term_entries(scope, fields, occur, entries, (n - 1) as nat),
            fields,
            occur,
            entries[n - 1],
        )
    }
}

/// The first `n` entries of a `range` clause, in order.
pub open spec fn range_entries(
    scope: ScopeModel,
    fields: Map<Seq<char>, u32>,
    occur: Occurrence,
    entries: Seq<Member>,
    n: nat,
) -> ScopeModel
    decreases n,
{
    if n == 0 || n > entries.len() {
        scope
    } else {
        range_entry(
            range_entries(scope, fields, occur, entries, (n - 1) as nat),
            fields,
            occur,
            entries[n - 1],
        )
    }
}

/// A leaf clause: the entries of the object under `prefix`, else of the one
/// under `term`, else of the one under `range`; anything else adds nothing.
pub open spec fn parse_leaf(
    scope: ScopeModel,
    fields: Map<Seq<char>, u32>,
    occur: Occurrence,
    v: Json,
) -> ScopeModel {
    match object_under(v, "prefix"@) {
        Some(entries) => prefix_entries(scope, fields, occur, entries, entries.len()),
        None => match object_under(v, "term"@) {
            Some(entries) => term_entries(scope, fields, occur, entries, entries.len()),
            None => match object_under(v, "range"@) {
                Some(entries) => range_entries(scope, fields, occur, entries, entries.len()),
                None => scope,
            },
        },
    }
}

/// Whether `group`, the value under `bool`, has a `filter` or a `should`.
pub open spec fn has_groups(group: Json) -> bool {
    group.lookup("filter"@) is Some || group.lookup("should"@) is Some
}

/// The scope after a nested group: the group's clauses are read into a
/// scope of their own under `inner`, and what that scope builds into becomes
/// one clause under `occur`.
pub open spec fn nested(scope: ScopeModel, occur: Occurrence, built: TreeModel) -> ScopeModel {
    scope.push(NodeModel { occurrence: occur, tree: built })
}

/// What reading `v` adds to `scope`, whose clauses are added under `occur`.
///
/// An object with a `query` stands for the value under it. One with a `bool`
/// that has a `filter` or a `should` adds a nested group for each, the
/// `filter` first, read under `Must` and `Should`. An array adds its items in
/// order. Any other value is read as a leaf clause.
pub open spec fn parse_value(
    scope: ScopeModel,
    fields: Map<Seq<char>, u32>,
    occur: Occurrence,
    v: Json,
) -> ScopeModel
    decreases v, 0nat,
{
    match v {
        Json::Array(items) => parse_items(scope, fields, occur, items@, items@.len()),
        Json::Object(m) => {
            let q = member_index(m@, "query"@);
            let g = member_index(m@, "bool"@);
            if 0 <= q < m@.len() {
                parse_value(scope, fields, occur, m@[q].value)
            } else if 0 <= g < m@.len() && has_groups(m@[g].value) {
                parse_groups(scope, fields, occur, m@[g].value)
            } else {
                parse_leaf(scope, fields, occur, v)
            }
        },
        _ => scope,
    }
}

/// What the groups of `group`, the value under `bool`, add to `scope`.
pub open spec fn parse_groups(
    scope: ScopeModel,
    fields: Map<Seq<char>, u32>,
    occur: Occurrence,
    group: Json,
) -> ScopeModel
    decreases group, 0nat,
{
    match group {
        Json::Object(m) => {
            let f = member_index(m@, "filter"@);
            let s = member_index(m@, "should"@);
            let filtered = if 0 <= f < m@.len() {
                nested(
                    scope,
                    occur,
                    parse_value(ScopeModel::empty(0), fields, Occurrence::Must, m@[f].value).built(),
                )
            } else {
                scope
            };
            if 0 <= s < m@.len() {
                nested(
                    filtered,
                    occur,
                    parse_value(ScopeModel::empty(0), fields, Occurrence::Should, m@[s].value).built(),
                )
            } else {
                filtered
            }
        },
        _ => scope,
    }
}

/// What the first `n` of `items` add to `scope`, in order.
pub open spec fn parse_items(
    scope: ScopeModel,
    fields: Map<Seq<char>, u32>,
    occur: Occurrence,
    items: Seq<Json>,
    n: nat,
) -> ScopeModel
    decreases items, n,
{
    if n == 0 || n > items.len() {
        scope
    } else {
        parse_value(
            parse_items(scope, fields, occur, items, (n - 1) as nat),
            fields,
            occur,
            items[n - 1],
        )
    }
}

impl QueryBuilder {
    /// Adds the entries of a `prefix` clause.
    fn parse_prefix(self, entries: &Vec<Member>) -> (r: QueryBuilder)
        ensures
            r@ == self@.with_scope(
                prefix_entries(
                    self@.current.scope,
                    self@.fields,
                    self@.current.occurrence,
                    entries@,
                    entries@.len(),
                ),
            ),
    {
        let ghost start = self@;
        let mut b = self;
        let mut i: usize = 0;
        while i < entries.len()
            invariant
                i <= entries.len(),
                b@ == start.with_scope(
                    prefix_entries(start.current.scope, start.fields, start.current.occurrence, entries@, i as nat),
                ),
            decreases entries.len() - i,
        {
            let entry = &entries[i];
            b = match entry.value.get("value") {
                Some(found) => match found.as_str() {
                    Some(text) => b.add_prefix_query(entry.key.as_str(), text),
                    None => b,
                },
                None => b,
            };
            i += 1;
        }
        b
    }

    /// Adds the entries of a `term` clause.
    fn parse_term(self, entries: &Vec<Member>) -> (r: QueryBuilder)
        ensures
            r@ == self@.with_scope(
                term_entries(
                    self@.current.scope,
                    self@.fields,
                    self@.current.occurrence,
                    entries@,
                    entries@.len(),
                ),
            ),
    {
        let ghost start = self@;
        let mut b = self;
        let mut i: usize = 0;
        while i < entries.len()
            invariant
                i <= entries.len(),
                b@ == start.with_scope(
                    term_entries(start.current.scope, start.fields, start.current.occurrence, entries@, i as nat),
                ),
            decreases entries.len() - i,
        {
            let entry = &entries[i];
            b = match entry.value.get("value") {
                Some(found) => match found.as_u64() {
                    Some(number) => b.add_term_query_u64(entry.key.as_str(), number),
                    None => match found.as_str() {
                        Some(text) => b.add_term_query_str(entry.key.as_str(), text),
                        None => b,
                    },
                },
                None => b,
            };
            i += 1;
        }
        b
    }

    /// Adds the entries of a `range` clause.
    fn parse_range(self, entries: &Vec<Member>) -> (r: QueryBuilder)
        ensures
            r@ == self@.with_scope(
                range_entries(
                    self@.current.scope,
                    self@.fields,
                    self@.current.occurrence,
                    entries@,
                    entries@.len(),
                ),
            ),
    {
        let ghost start = self@;
        let mut b = self;
        let mut i: usize = 0;
        while i < entries.len()
            invariant
                i <= entries.len(),
                b@ == start.with_scope(
                    range_entries(start.current.scope, start.fields, start.current.occurrence, entries@, i as nat),
                ),
            decreases entries.len() - i,
        {
            let entry = &entries[i];
            let left = unsigned_at(&entry.value, "from");
            let right = unsigned_at(&entry.value, "to");
            let include_left = boolean_at(&entry.value, "include_lower");
            let include_right = boolean_at(&entry.value, "include_upper");
            b = match (left, right, include_left, include_right) {
                (Some(left), Some(right), Some(include_left), Some(include_right)) => b.add_range_query(
                    entry.key.as_str(),
                    left,
                    right,
                    include_left,
                    include_right,
                ),
                _ => b,
            };
            i += 1;
        }
        b
    }

    /// Reads `v` as a leaf clause.
    fn parse_clause(self, v: &Json) -> (r: QueryBuilder)
        ensures
            r@ == self@.with_scope(
                parse_leaf(self@.current.scope, self@.fields, self@.current.occurrence, *v),
            ),
    {
        if let Some(found) = v.get("prefix") {
            if let Some(entries) = found.as_object() {
                return self.parse_prefix(entries);
            }
        }
        if let Some(found) = v.get("term") {
            if let Some(entries) = found.as_object() {
                return self.parse_term(entries);
            }
        }
        if let Some(found) = v.get("range") {
            if let Some(entries) = found.as_object() {
                return self.parse_range(entries);
            }
        }
        self
    }

    /// Reads one nested group: its clauses are read under `inner` into a
    /// scope of their own, which is then folded into the current one.
    fn parse_nested(self, inner: Occurrence, v: &Json) -> (r: QueryBuilder)
        ensures
            r@ == self@.with_scope(
                nested(
                    self@.current.scope,
                    self@.current.occurrence,
                    parse_value(ScopeModel::empty(0), self@.fields, inner, *v).built(),
                ),
            ),
        decreases v, 1nat,
    {
        let ghost start = self@;
        let entered = self.down(inner);
        let read = entered.parse(v);
        let r = read.up();
        assert(r@.parents =~= start.parents);
        r
    }

    /// Adds what the query document `v` says to the scope being filled.
    pub fn parse(self, v: &Json) -> (r: QueryBuilder)
        ensures
            r@ == self@.with_scope(
                parse_value(self@.current.scope, self@.fields, self@.current.occurrence, *v),
            ),
        decreases v, 0nat,
    {
        if let Some(query) = v.get("query") {
            return self.parse(query);
        }
        if let Some(group) = v.get("bool") {
            let filter = group.get("filter");
            let should = group.get("should");
            if filter.is_some() || should.is_some() {
                let ghost start = self@;
                let mut b = self;
                if let Some(clauses) = filter {
                    b = b.parse_nested(Occurrence::Must, clauses);
                }
                if let Some(clauses) = should {
                    b = b.parse_nested(Occurrence::Should, clauses);
                }
                assert(b@ == start.with_scope(
                    parse_groups(start.current.scope, start.fields, start.current.occurrence, *group),
                ));
                return b;
            }
        }
        if let Some(items) = v.as_array() {
            let ghost start = self@;
            let mut b = self;
            let mut i: usize = 0;
            while i < items.len()
                invariant
                    i <= items.len(),
                    *v == Json::Array(*items),
                    b@ == start.with_scope(
                        parse_items(
                            start.current.scope,
                            start.fields,
                            start.current.occurrence,
                            items@,
                            i as nat,
                        ),
                    ),
                decreases items.len() - i,
            {
                proof {
                    vstd::std_specs::vec::axiom_vec_index_decreases(*items, i as int);
                    assert(decreases_to!(*v => v->Array_0));
                }
                b = b.parse(&items[i]);
                i += 1;
            }
            return b;
        }
        self.parse_clause(v)
    }
}

/// The unsigned integer under `key` of the object `v`.
fn unsigned_at(v: &Json, key: &str) -> (r: Option<u64>)
    ensures
        r == unsigned_under(*v, key@),
{
    match v.get(key) {
        Some(found) => found.as_u64(),
        None => None,
    }
}

/// The truth value under `key` of the object `v`.
fn boolean_at(v: &Json, key: &str) -> (r: Option<bool>)
    ensures
        r == boolean_under(*v, key@),
{
    match v.get(key) {
        Some(found) => found.as_bool(),
        None => None,
    }
}

/// The tree with `size` as its limit where it is a range-constrained query;
/// any other tree as it is.
pub open spec fn with_limit(tree: TreeModel, size: usize) -> TreeModel {
    match tree {
        TreeModel::RangeConstrained(c) => TreeModel::RangeConstrained(
            CatQueryModel { limit: size, ..c },
        ),
        _ => tree,
    }
}

/// The query that a document gives: its clauses are read into a root scope
/// under `Must`, and the scope is built with `size` as the limit. No
/// document gives the empty group.
pub open spec fn parse_outcome(doc: Option<Json>, fields: Map<Seq<char>, u32>, size: usize) -> TreeModel {
    let scope = match doc {
        Some(v) => parse_value(ScopeModel::empty(size), fields, Occurrence::Must, v),
        None => ScopeModel::empty(size),
    };
    with_limit(scope.built(), size)
}

/// Without a document the query is the group without clauses.
pub proof fn law_no_document_gives_empty_group(fields: Map<Seq<char>, u32>, size: usize)
    ensures
        parse_outcome(None, fields, size) == TreeModel::Group(Seq::empty()),
{
}

/// The text of a query was not a JSON document.
#[derive(Clone, Copy, Debug, PartialEq, Eq, Structural)]
pub struct ParseError;

/// Builds the query that `doc` describes, for `size` results. Without a
/// document the query is the group without clauses.
pub fn parse_document(doc: Option<&Json>, schema: Schema, size: usize) -> (r: PredicateTree)
    ensures
        r.view() == parse_outcome(
            match doc {
                Some(v) => Some(*v),
                None => None,
            },
            schema_fields(schema),
            size,
        ),
{
    let builder = QueryBuilder::new(schema, Occurrence::Must, size);
    let built = match doc {
        Some(v) => builder.parse(v).build(),
        None => builder.build(),
    };
    match built {
        PredicateTree::RangeConstrained(c) => {
            let mut c = c;
            c.set_limit(size);
            PredicateTree::RangeConstrained(c)
        },
        other => other,
    }
}

/// Reads the query text and builds its query for `size` results. A text that
/// is not JSON gives the group without clauses.
pub fn parse(query: String, schema: Schema, size: usize) -> (r: PredicateTree)
    ensures
        r.view() == parse_outcome(json_document(query@), schema_fields(schema), size),
{
    let doc = read_document(query.as_str());
    parse_document(doc.as_ref(), schema, size)
}

/// Reads the query text and builds its query for `size` results, or fails
/// where the text is not JSON.
pub fn try_parse(query: &str, schema: Schema, size: usize) -> (r: Result<PredicateTree, ParseError>)
    ensures
        match r {
            Ok(tree) => json_document(query@) is Some && tree.view() == parse_outcome(
                json_document(query@),
                schema_fields(schema),
                size,
            ),
            Err(_) => json_document(query@) is None,
        },
{
    match read_document(query) {
        Some(v) => Ok(parse_document(Some(&v), schema, size)),
        None => Err(ParseError),
    }
}

} // verus!
