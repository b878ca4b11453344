//! A builder of plain predicate trees: every scope builds into a group, and
//! a range clause is an ordinary clause with its ends as they were given.

use crate::predicate::{
    nodes_view, NodeModel, Occurrence, Predicate, PredicateModel, PredicateNode, PredicateTree,
    TermValue, TermValueModel, TreeModel,
};
use crate::query_builder::lemma_nodes_view_push;
use crate::schema::{get_field, lookup_field, schema_fields};
use tantivy::schema::Schema;
use vstd::prelude::*;

verus! {

/// One level of the builder: the clauses of a scope and the occurrence
/// under which clauses are added to it.
pub struct LevelModel {
    pub clauses: Seq<NodeModel>,
    pub occurrence: Occurrence,
}

/// Mathematical value of a [`QueryBuilder`]: the scope being filled, the
/// scopes that enclose it (outermost first), and the schema's fields.
pub struct PlainModel {
    pub current: LevelModel,
    pub parents: Seq<LevelModel>,
    pub fields: Map<Seq<char>, u32>,
}

impl PlainModel {
    /// A builder at its root scope.
    pub open spec fn root(fields: Map<Seq<char>, u32>, occur: Occurrence) -> PlainModel {
        PlainModel {
            current: LevelModel { clauses: Seq::empty(), occurrence: occur },
            parents: Seq::empty(),
            fields,
        }
    }

    /// Enters a nested scope, which starts empty.
    pub open spec fn down(self, occur: Occurrence) -> PlainModel {
        PlainModel {
            current: LevelModel { clauses: Seq::empty(), occurrence: occur },
            parents: self.parents.push(self.current),
            ..self
        }
    }

    /// Changes the occurrence under which later clauses are added.
    pub open spec fn also(self, occur: Occurrence) -> PlainModel {
        PlainModel { current: LevelModel { occurrence: occur, ..self.current }, ..self }
    }

    /// The builder with one more clause in the scope being filled, under
    /// the current occurrence.
    pub open spec fn with_clause(self, tree: TreeModel) -> PlainModel {
        PlainModel {
            current: LevelModel {
                clauses: self.current.clauses.push(
                    NodeModel { occurrence: self.current.occurrence, tree },
                ),
                ..self.current
            },
            ..self
        }
    }

    /// Leaves the nested scope: the group of its clauses becomes a clause
    /// of the enclosing scope, under that scope's occurrence.
    pub open spec fn up(self) -> PlainModel
        recommends
            self.parents.len() > 0,
    {
        PlainModel {
            current: self.parents.last(),
            parents: self.parents.drop_last(),
            ..self
        }.with_clause(TreeModel::Group(self.current.clauses))
    }

    /// Adds the leaf clause that `leaf` makes of the identifier of the
    /// field named `field`; a name that the schema lacks leaves the builder
    /// as it is.
    pub open spec fn with_leaf(self, field: Seq<char>, leaf: spec_fn(u32) -> PredicateModel) -> PlainModel {
        match lookup_field(self.fields, field) {
            Some(id) => self.with_clause(TreeModel::Leaf(leaf(id))),
            None => self,
        }
    }

    /// Adds an exact match on a text value.
    pub open spec fn add_term_str(self, field: Seq<char>, value: Seq<char>) -> PlainModel {
        self.with_leaf(
            field,
            |id: u32| PredicateModel::Term { field: id, value: TermValueModel::Text(value) },
        )
    }

    /// Adds an exact match on an unsigned value.
    pub open spec fn add_term_u64(self, field: Seq<char>, value: u64) -> PlainModel {
        self.with_leaf(
            field,
            |id: u32| PredicateModel::Term { field: id, value: TermValueModel::Unsigned(value) },
        )
    }

    /// Adds a prefix match.
    pub open spec fn add_prefix(self, field: Seq<char>, prefix: Seq<char>) -> PlainModel {
        self.with_leaf(field, |id: u32| PredicateModel::Prefix { field: id, prefix })
    }

    /// Adds a range clause, each end included or not as given.
    pub open spec fn add_range(
        self,
        field: Seq<char>,
        left: u64,
        right: u64,
        include_left: bool,
        include_right: bool,
    ) -> PlainModel {
        self.with_leaf(
            field,
            |id: u32|
                PredicateModel::Range {
                    field: id,
                    from: left,
                    to: right,
                    include_lower: include_left,
                    include_upper: include_right,
                },
        )
    }
}

/// An enclosing scope with the occurrence it was left with.
struct Level {
    c: Vec<PredicateNode>,
    o: Occurrence,
}

impl View for Level {
    type V = LevelModel;

    closed spec fn view(&self) -> LevelModel {
        LevelModel { clauses: nodes_view(self.c@), occurrence: self.o }
    }
}

/// Builds a plain predicate tree clause by clause. `down` and `up` bracket
/// a nested group.
pub struct QueryBuilder {
    c: Vec<PredicateNode>,
    p: Vec<Level>,
    s: Schema,
    o: Occurrence,
}

impl View for QueryBuilder {
    type V = PlainModel;

    closed spec fn view(&self) -> PlainModel {
        PlainModel {
            current: LevelModel { clauses: nodes_view(self.c@), occurrence: self.o },
            parents: self.p@.map_values(|level: Level| level@),
            fields: schema_fields(self.s),
        }
    }
}

impl QueryBuilder {
    /// A builder at its root scope.
    pub fn new(schema: Schema, occur: Occurrence) -> (r: QueryBuilder)
        ensures
            r@ == PlainModel::root(schema_fields(schema), occur),
    {
        let r = QueryBuilder { c: Vec::new(), p: Vec::new(), s: schema, o: occur };
        assert(r@.parents =~= Seq::empty());
        assert(r@.current.clauses =~= Seq::empty());
        r
    }

    /// Enters a nested scope whose clauses are added under `occur`.
    pub fn down(self, occur: Occurrence) -> (r: QueryBuilder)
        ensures
            r@ == self@.down(occur),
    {
        let mut p = self.p;
        let ghost before = p@;
        let level = Level { c: self.c, o: self.o };
        p.push(level);
        let r = QueryBuilder { c: Vec::new(), p, s: self.s, o: occur };
        assert(r@.parents =~= before.map_values(|level: Level| level@).push(level@));
        assert(r@.current.clauses =~= Seq::empty());
        r
    }

    /// Adds the clauses that follow under `occur`.
    pub fn also(self, occur: Occurrence) -> (r: QueryBuilder)
        ensures
            r@ == self@.also(occur),
    {
        let mut this = self;
        this.o = occur;
        this
    }

    /// Adds `tree` as a clause under the current occurrence.
    fn push(self, tree: PredicateTree) -> (r: QueryBuilder)
        ensures
            r@ == self@.with_clause(tree.view()),
    {
        let mut this = self;
        let node = PredicateNode { occurrence: this.o, tree };
        proof {
            lemma_nodes_view_push(this.c@, node);
        }
        this.c.push(node);
        this
    }

    /// Leaves the current scope, folding it into the enclosing one.
    pub fn up(self) -> (r: QueryBuilder)
        requires
            self@.parents.len() > 0,
        ensures
            r@ == self@.up(),
    {
        let mut p = self.p;
        let ghost before = p@;
        match p.pop() {
            Some(level) => {
                let parent = QueryBuilder { c: level.c, p, s: self.s, o: level.o };
                assert(parent@.parents =~= before.map_values(|level: Level| level@).drop_last());
                parent.push(PredicateTree::Group(self.c))
            },
            None => QueryBuilder { c: self.c, p, s: self.s, o: self.o },
        }
    }

    /// Adds an exact match of the field named `field` on the text `value`.
    pub fn add_term_query(self, field: &str, value: &str) -> (r: QueryBuilder)
        ensures
            r@ == self@.add_term_str(field@, value@),
    {
        self.add_term_query_str(field, value)
    }

    /// Adds a match of the field named `field` on the values that start
    /// with `value`.
    pub fn add_prefix_query(self, field: &str, value: &str) -> (r: QueryBuilder)
        ensures
            r@ == self@.add_prefix(field@, value@),
    {
        match get_field(&self.s, field) {
            Some(id) => self.push(
                PredicateTree::Leaf(Predicate::Prefix { field: id, prefix: value.to_owned() }),
            ),
            None => self,
        }
    }

    /// Builds the current scope into the group of its clauses.
    pub fn build(self) -> (r: PredicateTree)
        ensures
            r.view() == TreeModel::Group(self@.current.clauses),
    {
        PredicateTree::Group(self.c)
    }

    /// Adds a range clause on the field named `field`.
    pub fn add_range_query(
        self,
        field: &str,
        left: u64,
        right: u64,
        include_left: bool,
        include_right: bool,
    ) -> (r: QueryBuilder)
        ensures
            r@ == self@.add_range(field@, left, right, include_left, include_right),
    {
        match get_field(&self.s, field) {
            Some(id) => self.push(
                PredicateTree::Leaf(
                    Predicate::Range {
                        field: id,
                        from: left,
                        to: right,
                        include_lower: include_left,
                        include_upper: include_right,
                    },
                ),
            ),
            None => self,
        }
    }

    /// Adds an exact match of the field named `field` on the text `value`.
    pub fn add_term_query_str(self, field: &str, value: &str) -> (r: QueryBuilder)
        ensures
            r@ == self@.add_term_str(field@, value@),
    {
        match get_field(&self.s, field) {
            Some(id) => self.push(
                PredicateTree::Leaf(
                    Predicate::Term { field: id, value: TermValue::Text(value.to_owned()) },
                ),
            ),
            None => self,
        }
    }

    /// Adds an exact match of the field named `field` on the number `value`.
    pub fn add_term_query_u64(self, field: &str, value: u64) -> (r: QueryBuilder)
        ensures
            r@ == self@.add_term_u64(field@, value),
    {
        match get_field(&self.s, field) {
            Some(id) => self.push(
                PredicateTree::Leaf(Predicate::Term { field: id, value: TermValue::Unsigned(value) }),
            ),
            None => self,
        }
    }
}

} // verus!
