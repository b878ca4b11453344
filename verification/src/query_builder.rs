//! The builder that assembles a predicate tree scope by scope, hoisting the
//! first range clause of each scope into the bound of a range-constrained
//! query.

use crate::predicate::{
    nodes_view, CatQuery, CatQueryModel, NodeModel, Occurrence, Predicate, PredicateModel,
    PredicateNode, PredicateTree, TermValue, TermValueModel, TreeModel,
};
use crate::schema::{get_field, lookup_field, schema_fields};
use tantivy::schema::Schema;
use vstd::prelude::*;

verus! {

/// The clauses and the hoisted bound of one nesting scope.
pub struct CatQueryBuilder {
    pub c: Vec<PredicateNode>,
    pub left: u64,
    pub right: u64,
    pub field: Option<u32>,
    pub limit: usize,
}

/// Mathematical value of a scope under construction.
pub struct ScopeModel {
    pub clauses: Seq<NodeModel>,
    /// The field and the inclusive bound that the scope hoisted, if any.
    pub bound: Option<(u32, u64, u64)>,
    pub limit: usize,
}

impl ScopeModel {
    /// A scope without clauses or bound.
    pub open spec fn empty(limit: usize) -> ScopeModel {
        ScopeModel { clauses: Seq::empty(), bound: None, limit }
    }

    /// The scope with one more clause.
    pub open spec fn push(self, node: NodeModel) -> ScopeModel {
        ScopeModel { clauses: self.clauses.push(node), ..self }
    }

    /// The scope after a range clause on `field` with the inclusive bound
    /// `[left, right]`: the first one is hoisted, a later one is an ordinary
    /// range predicate among the clauses.
    pub open spec fn with_range(self, field: u32, left: u64, right: u64, occur: Occurrence) -> ScopeModel {
        if self.bound is Some {
            self.push(
                NodeModel {
                    occurrence: occur,
                    tree: TreeModel::Leaf(
                        PredicateModel::Range {
                            field,
                            from: left,
                            to: right,
                            include_lower: true,
                            include_upper: true,
                        },
                    ),
                },
            )
        } else {
            ScopeModel { bound: Some((field, left, right)), ..self }
        }
    }

    /// The scope with one more leaf clause under `occur`.
    pub open spec fn with_leaf(self, occur: Occurrence, predicate: PredicateModel) -> ScopeModel {
        self.push(NodeModel { occurrence: occur, tree: TreeModel::Leaf(predicate) })
    }

    /// Adds an exact match of the field named `field` on a text value; a
    /// name that `fields` lacks leaves the scope as it is.
    pub open spec fn add_term_str(
        self,
        fields: Map<Seq<char>, u32>,
        occur: Occurrence,
        field: Seq<char>,
        value: Seq<char>,
    ) -> ScopeModel {
        match lookup_field(fields, field) {
            Some(id) => self.with_leaf(
                occur,
                PredicateModel::Term { field: id, value: TermValueModel::Text(value) },
            ),
            None => self,
        }
    }

    /// Adds an exact match of the field named `field` on an unsigned value;
    /// a name that `fields` lacks leaves the scope as it is.
    pub open spec fn add_term_u64(
        self,
        fields: Map<Seq<char>, u32>,
        occur: Occurrence,
        field: Seq<char>,
        value: u64,
    ) -> ScopeModel {
        match lookup_field(fields, field) {
            Some(id) => self.with_leaf(
                occur,
                PredicateModel::Term { field: id, value: TermValueModel::Unsigned(value) },
            ),
            None => self,
        }
    }

    /// Adds a prefix match on the field named `field`; a name that `fields`
    /// lacks leaves the scope as it is.
    pub open spec fn add_prefix(
        self,
        fields: Map<Seq<char>, u32>,
        occur: Occurrence,
        field: Seq<char>,
        prefix: Seq<char>,
    ) -> ScopeModel {
        match lookup_field(fields, field) {
            Some(id) => self.with_leaf(occur, PredicateModel::Prefix { field: id, prefix }),
            None => self,
        }
    }

    /// Adds a range clause on the field named `field`, its bound made
    /// inclusive; a name that `fields` lacks leaves the scope as it is.
    pub open spec fn add_range(
        self,
        fields: Map<Seq<char>, u32>,
        occur: Occurrence,
        field: Seq<char>,
        left: u64,
        right: u64,
        include_left: bool,
        include_right: bool,
    ) -> ScopeModel {
        match lookup_field(fields, field) {
            Some(id) => {
                let (lo, hi) = inclusive_bound(left, right, include_left, include_right);
                self.with_range(id, lo, hi, occur)
            },
            None => self,
        }
    }

    /// The query that the scope builds into: a range-constrained query when a
    /// bound was hoisted, else the only clause's tree, else the group of the
    /// clauses.
    pub open spec fn built(self) -> TreeModel {
        match self.bound {
            Some((field, left, right)) => TreeModel::RangeConstrained(
                CatQueryModel { query: self.clauses, field, left, right, limit: self.limit },
            ),
            None => if self.clauses.len() == 1 {
                self.clauses[0].tree
            } else {
                TreeModel::Group(self.clauses)
            },
        }
    }
}

/// Of two range clauses added to a scope that has no bound yet, the first
/// becomes the bound of the scope and the second an ordinary range clause
/// among its clauses; both are part of the query that the scope builds into.
pub proof fn law_first_range_is_hoisted(
    scope: ScopeModel,
    first: (u32, u64, u64),
    second: (u32, u64, u64),
    occur: Occurrence,
)
    requires
        scope.bound is None,
    ensures
        scope.with_range(first.0, first.1, first.2, occur).with_range(
            second.0,
            second.1,
            second.2,
            occur,
        ) == (ScopeModel {
            bound: Some(first),
            clauses: scope.clauses.push(
                NodeModel {
                    occurrence: occur,
                    tree: TreeModel::Leaf(
                        PredicateModel::Range {
                            field: second.0,
                            from: second.1,
                            to: second.2,
                            include_lower: true,
                            include_upper: true,
                        },
                    ),
                },
            ),
            limit: scope.limit,
        }),
        scope.with_range(first.0, first.1, first.2, occur).with_range(
            second.0,
            second.1,
            second.2,
            occur,
        ).built() is RangeConstrained,
{
}

/// An excluded end of a bound moves inwards by one, an included end stays.
pub proof fn law_excluded_ends_move_by_one(left: u64, right: u64)
    requires
        left < u64::MAX,
        right > 0,
    ensures
        inclusive_bound(left, right, true, true) == (left, right),
        inclusive_bound(left, right, false, true) == ((left + 1) as u64, right),
        inclusive_bound(left, right, true, false) == (left, (right - 1) as u64),
        inclusive_bound(left, right, false, false) == ((left + 1) as u64, (right - 1) as u64),
{
}

impl View for CatQueryBuilder {
    type V = ScopeModel;

    open spec fn view(&self) -> ScopeModel {
        ScopeModel {
            clauses: nodes_view(self.c@),
            bound: match self.field {
                Some(field) => Some((field, self.left, self.right)),
                None => None,
            },
            limit: self.limit,
        }
    }
}

/// Appending a clause to a list appends its model to the list's model.
pub proof fn lemma_nodes_view_push(nodes: Seq<PredicateNode>, node: PredicateNode)
    ensures
        nodes_view(nodes.push(node)) == nodes_view(nodes).push(node.view()),
{
    assert(nodes_view(nodes.push(node)) =~= nodes_view(nodes).push(node.view()));
}

/// The inclusive bound that stands for a bound whose ends may be excluded.
/// An excluded end moves by one; where it cannot move, no value lies within
/// the bound, which `(1, 0)` stands for.
pub open spec fn inclusive_bound(left: u64, right: u64, include_left: bool, include_right: bool) -> (u64, u64) {
    if (!include_left && left == u64::MAX) || (!include_right && right == 0) {
        (1, 0)
    } else {
        (
            if include_left { left } else { (left + 1) as u64 },
            if include_right { right } else { (right - 1) as u64 },
        )
    }
}

impl CatQueryBuilder {
    fn new(limit: usize) -> (r: CatQueryBuilder)
        ensures
            r@ == ScopeModel::empty(limit),
    {
        let r = CatQueryBuilder { c: Vec::new(), left: 0, right: 0, field: None, limit };
        assert(r@.clauses =~= Seq::empty());
        r
    }

    /// Builds the scope into a query.
    pub fn build(self) -> (r: PredicateTree)
        ensures
            r.view() == self@.built(),
    {
        let mut this = self;
        match this.field {
            Some(field) => PredicateTree::RangeConstrained(
                CatQuery::new(this.c, field, this.left, this.right, this.limit),
            ),
            None => {
                if this.c.len() == 1 {
                    match this.c.pop() {
                        Some(node) => node.tree,
                        None => PredicateTree::Group(this.c),
                    }
                } else {
                    PredicateTree::Group(this.c)
                }
            },
        }
    }

    /// Adds a clause.
    pub fn push(&mut self, c: PredicateNode)
        ensures
            final(self)@ == old(self)@.push(c.view()),
    {
        proof {
            lemma_nodes_view_push(self.c@, c);
        }
        self.c.push(c);
    }

    /// Adds a range clause on `field` with the inclusive bound `[left, right]`.
    pub fn add_range_query(&mut self, field: u32, left: u64, right: u64, occur: Occurrence)
        ensures
            final(self)@ == old(self)@.with_range(field, left, right, occur),
    {
        if self.field.is_some() {
            self.push(
                PredicateNode {
                    occurrence: occur,
                    tree: PredicateTree::Leaf(
                        Predicate::Range {
                            field,
                            from: left,
                            to: right,
                            include_lower: true,
                            include_upper: true,
                        },
                    ),
                },
            );
        } else {
            self.left = left;
            self.right = right;
            self.field = Some(field);
        }
    }
}

/// One level of the builder: a scope and the occurrence under which its
/// clauses are added.
pub struct FrameModel {
    pub scope: ScopeModel,
    pub occurrence: Occurrence,
}

/// Mathematical value of a [`QueryBuilder`]: the scope being filled, the
/// scopes that enclose it (outermost first), and the schema's fields.
pub struct BuilderModel {
    pub current: FrameModel,
    pub parents: Seq<FrameModel>,
    pub fields: Map<Seq<char>, u32>,
}

impl BuilderModel {
    /// A builder at its root scope.
    pub open spec fn root(fields: Map<Seq<char>, u32>, occur: Occurrence, size: usize) -> BuilderModel {
        BuilderModel {
            current: FrameModel { scope: ScopeModel::empty(size), occurrence: occur },
            parents: Seq::empty(),
            fields,
        }
    }

    /// Enters a nested scope, which starts empty with a limit of zero.
    pub open spec fn down(self, occur: Occurrence) -> BuilderModel {
        BuilderModel {
            current: FrameModel { scope: ScopeModel::empty(0), occurrence: occur },
            parents: self.parents.push(self.current),
            ..self
        }
    }

    /// Changes the occurrence under which later clauses are added.
    pub open spec fn also(self, occur: Occurrence) -> BuilderModel {
        BuilderModel { current: FrameModel { occurrence: occur, ..self.current }, ..self }
    }

    /// Leaves the nested scope: what it builds into becomes a clause of the
    /// enclosing scope, under that scope's occurrence.
    pub open spec fn up(self) -> BuilderModel
        recommends
            self.parents.len() > 0,
    {
        let parent = self.parents.last();
        BuilderModel {
            current: FrameModel {
                scope: parent.scope.push(
                    NodeModel { occurrence: parent.occurrence, tree: self.current.scope.built() },
                ),
                ..parent
            },
            parents: self.parents.drop_last(),
            ..self
        }
    }

    /// The builder with `scope` in place of the scope being filled.
    pub open spec fn with_scope(self, scope: ScopeModel) -> BuilderModel {
        BuilderModel { current: FrameModel { scope, ..self.current }, ..self }
    }

    /// Adds an exact match on a text value to the scope being filled.
    pub open spec fn add_term_str(self, field: Seq<char>, value: Seq<char>) -> BuilderModel {
        self.with_scope(
            self.current.scope.add_term_str(self.fields, self.current.occurrence, field, value),
        )
    }

    /// Adds an exact match on an unsigned value to the scope being filled.
    pub open spec fn add_term_u64(self, field: Seq<char>, value: u64) -> BuilderModel {
        self.with_scope(
            self.current.scope.add_term_u64(self.fields, self.current.occurrence, field, value),
        )
    }

    /// Adds a prefix match to the scope being filled.
    pub open spec fn add_prefix(self, field: Seq<char>, prefix: Seq<char>) -> BuilderModel {
        self.with_scope(
            self.current.scope.add_prefix(self.fields, self.current.occurrence, field, prefix),
        )
    }

    /// Adds a range clause to the scope being filled.
    pub open spec fn add_range(
        self,
        field: Seq<char>,
        left: u64,
        right: u64,
        include_left: bool,
        include_right: bool,
    ) -> BuilderModel {
        self.with_scope(
            self.current.scope.add_range(
                self.fields,
                self.current.occurrence,
                field,
                left,
                right,
                include_left,
                include_right,
            ),
        )
    }
}

/// An enclosing scope with the occurrence it was left with.
struct Frame {
    c: CatQueryBuilder,
    o: Occurrence,
}

impl View for Frame {
    type V = FrameModel;

    closed spec fn view(&self) -> FrameModel {
        FrameModel { scope: self.c@, occurrence: self.o }
    }
}

/// Builds a predicate tree clause by clause. `down` and `up` bracket a nested
/// group; each scope hoists at most one range clause.
pub struct QueryBuilder {
    c: CatQueryBuilder,
    p: Vec<Frame>,
    s: Schema,
    o: Occurrence,
}

impl View for QueryBuilder {
    type V = BuilderModel;

    closed spec fn view(&self) -> BuilderModel {
        BuilderModel {
            current: FrameModel { scope: self.c@, occurrence: self.o },
            parents: self.p@.map_values(|f: Frame| f@),
            fields: schema_fields(self.s),
        }
    }
}

impl QueryBuilder {
    /// A builder at its root scope, whose query will ask for `size` results.
    pub fn new(schema: Schema, occur: Occurrence, size: usize) -> (r: QueryBuilder)
        ensures
            r@ == BuilderModel::root(schema_fields(schema), occur, size),
    {
        let r = QueryBuilder { c: CatQueryBuilder::new(size), p: Vec::new(), s: schema, o: occur };
        assert(r@.parents =~= Seq::empty());
        r
    }

    /// Enters a nested scope whose clauses are added under `occur`.
    pub fn down(self, occur: Occurrence) -> (r: QueryBuilder)
        ensures
            r@ == self@.down(occur),
    {
        let mut p = self.p;
        let ghost before = p@;
        let frame = Frame { c: self.c, o: self.o };
        p.push(frame);
        let r = QueryBuilder { c: CatQueryBuilder::new(0), p, s: self.s, o: occur };
        assert(r@.parents =~= before.map_values(|f: Frame| f@).push(frame@));
        r
    }

    /// Adds the clauses that follow under `occur`.
    pub fn also(self, occur: Occurrence) -> (r: QueryBuilder)
        ensures
            r@ == self@.also(occur),
    {
        let mut this = self;
        this.o = occur;
        this
    }

    /// Leaves the current scope, folding it into the enclosing one.
    pub fn up(self) -> (r: QueryBuilder)
        requires
            self@.parents.len() > 0,
        ensures
            r@ == self@.up(),
    {
        let mut p = self.p;
        let ghost before = p@;
        match p.pop() {
            Some(frame) => {
                let mut c = frame.c;
                c.push(PredicateNode { occurrence: frame.o, tree: self.c.build() });
                let r = QueryBuilder { c, p, s: self.s, o: frame.o };
                assert(r@.parents =~= before.map_values(|f: Frame| f@).drop_last());
                r
            },
            None => QueryBuilder { c: self.c, p, s: self.s, o: self.o },
        }
    }

    /// Adds an exact match of the field named `field` on the text `value`.
    pub fn add_term_query(self, field: &str, value: &str) -> (r: QueryBuilder)
        ensures
            r@ == self@.add_term_str(field@, value@),
    {
        self.add_term_query_str(field, value)
    }

    /// Adds a match of the field named `field` on the values that start with
    /// `value`.
    pub fn add_prefix_query(self, field: &str, value: &str) -> (r: QueryBuilder)
        ensures
            r@ == self@.add_prefix(field@, value@),
    {
        let mut this = self;
        let id = match get_field(&this.s, field) {
            Some(id) => id,
            None => return this,
        };
        let occurrence = this.o;
        this.c.push(
            PredicateNode {
                occurrence,
                tree: PredicateTree::Leaf(Predicate::Prefix { field: id, prefix: value.to_owned() }),
            },
        );
        this
    }

    /// Builds the current scope into a query.
    pub fn build(self) -> (r: PredicateTree)
        ensures
            r.view() == self@.current.scope.built(),
    {
        self.c.build()
    }

    /// Adds a range clause on the field named `field`. The first range
    /// clause of a scope becomes the scope's bound; a later one is an
    /// ordinary clause.
    pub fn add_range_query(
        self,
        field: &str,
        left: u64,
        right: u64,
        include_left: bool,
        include_right: bool,
    ) -> (r: QueryBuilder)
        ensures
            r@ == self@.add_range(field@, left, right, include_left, include_right),
    {
        let mut this = self;
        let id = match get_field(&this.s, field) {
            Some(id) => id,
            None => return this,
        };
        let occurrence = this.o;
        if (!include_left && left == u64::MAX) || (!include_right && right == 0) {
            this.c.add_range_query(id, 1, 0, occurrence);
        } else {
            let lo: u64 = if include_left { left } else { left + 1 };
            let hi: u64 = if include_right { right } else { right - 1 };
            this.c.add_range_query(id, lo, hi, occurrence);
        }
        this
    }

    /// Adds an exact match of the field named `field` on the text `value`.
    pub fn add_term_query_str(self, field: &str, value: &str) -> (r: QueryBuilder)
        ensures
            r@ == self@.add_term_str(field@, value@),
    {
        let mut this = self;
        let id = match get_field(&this.s, field) {
            Some(id) => id,
            None => return this,
        };
        let occurrence = this.o;
        this.c.push(
            PredicateNode {
                occurrence,
                tree: PredicateTree::Leaf(
                    Predicate::Term { field: id, value: TermValue::Text(value.to_owned()) },
                ),
            },
        );
        this
    }

    /// Adds an exact match of the field named `field` on the number `value`.
    pub fn add_term_query_u64(self, field: &str, value: u64) -> (r: QueryBuilder)
        ensures
            r@ == self@.add_term_u64(field@, value),
    {
        let mut this = self;
        let id = match get_field(&this.s, field) {
            Some(id) => id,
            None => return this,
        };
        let occurrence = this.o;
        this.c.push(
            PredicateNode {
                occurrence,
                tree: PredicateTree::Leaf(
                    Predicate::Term { field: id, value: TermValue::Unsigned(value) },
                ),
            },
        );
        this
    }
}

} // verus!
