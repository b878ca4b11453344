//! The predicate model: leaf predicates, occurrence semantics and the trees
//! that a query is built into.

use vstd::prelude::*;

verus! {

/// How a clause combines with its siblings.
#[derive(Clone, Copy, Debug, PartialEq, Eq, Structural)]
pub enum Occurrence {
    /// Conjunctive: the clause is required.
    Must,
    /// Disjunctive: any such clause suffices.
    Should,
}

/// The value that a term predicate matches exactly.
#[derive(Clone, Debug, PartialEq, Eq)]
pub enum TermValue {
    Text(String),
    Unsigned(u64),
}

/// Mathematical value of a [`TermValue`].
pub enum TermValueModel {
    Text(Seq<char>),
    Unsigned(u64),
}

impl View for TermValue {
    type V = TermValueModel;

    open spec fn view(&self) -> TermValueModel {
        match self {
            TermValue::Text(s) => TermValueModel::Text(s@),
            TermValue::Unsigned(n) => TermValueModel::Unsigned(*n),
        }
    }
}

/// A leaf clause over one field, named by the field's identifier in the schema.
#[derive(Clone, Debug, PartialEq, Eq)]
pub enum Predicate {
    /// Exact match on a text or an unsigned value.
    Term { field: u32, value: TermValue },
    /// Matches every value of the field that starts with `prefix`.
    Prefix { field: u32, prefix: String },
    /// Matches the values between `from` and `to`, each end included or not.
    Range { field: u32, from: u64, to: u64, include_lower: bool, include_upper: bool },
}

/// Mathematical value of a [`Predicate`].
pub enum PredicateModel {
    Term { field: u32, value: TermValueModel },
    Prefix { field: u32, prefix: Seq<char> },
    Range { field: u32, from: u64, to: u64, include_lower: bool, include_upper: bool },
}

impl View for Predicate {
    type V = PredicateModel;

    open spec fn view(&self) -> PredicateModel {
        match self {
            Predicate::Term { field, value } => PredicateModel::Term { field: *field, value: value@ },
            Predicate::Prefix { field, prefix } => PredicateModel::Prefix {
                field: *field,
                prefix: prefix@,
            },
            Predicate::Range { field, from, to, include_lower, include_upper } => PredicateModel::Range {
                field: *field,
                from: *from,
                to: *to,
                include_lower: *include_lower,
                include_upper: *include_upper,
            },
        }
    }
}

/// The pattern that matches every value starting with `prefix`: the prefix
/// itself, followed by any characters.
pub fn prefix_pattern(prefix: &str) -> (r: String)
    ensures
        r@ == prefix@ + "[u:\\x00-u:\\xFF]*"@,
{
    prefix.to_owned().concat("[u:\\x00-u:\\xFF]*")
}

/// A built query: one leaf, a group of clauses, or a range-constrained composite.
#[derive(Debug, PartialEq, Eq)]
pub enum PredicateTree {
    Leaf(Predicate),
    Group(Vec<PredicateNode>),
    RangeConstrained(CatQuery),
}

/// A clause of a group: a tree with the occurrence under which it was added.
#[derive(Debug, PartialEq, Eq)]
pub struct PredicateNode {
    pub occurrence: Occurrence,
    pub tree: PredicateTree,
}

/// A predicate tree fused with an inclusive bound `[left, right]` on one
/// numeric field, and the number of results wanted.
#[derive(Debug, PartialEq, Eq)]
pub struct CatQuery {
    pub query: Vec<PredicateNode>,
    pub field: u32,
    pub left: u64,
    pub right: u64,
    pub limit: usize,
}

/// Mathematical value of a [`PredicateTree`].
pub enum TreeModel {
    Leaf(PredicateModel),
    Group(Seq<NodeModel>),
    RangeConstrained(CatQueryModel),
}

/// Mathematical value of a [`PredicateNode`].
pub struct NodeModel {
    pub occurrence: Occurrence,
    pub tree: TreeModel,
}

/// Mathematical value of a [`CatQuery`].
pub struct CatQueryModel {
    pub query: Seq<NodeModel>,
    pub field: u32,
    pub left: u64,
    pub right: u64,
    pub limit: usize,
}

/// The models of a list of clauses, in order.
pub open spec fn nodes_view(nodes: Seq<PredicateNode>) -> Seq<NodeModel>
    decreases nodes,
{
    Seq::new(
        nodes.len(),
        |i: int|
            if 0 <= i < nodes.len() {
                nodes[i].view()
            } else {
                arbitrary()
            },
    )
}

impl PredicateTree {
    /// The mathematical value of the tree.
    pub open spec fn view(&self) -> TreeModel
        decreases self,
    {
        match self {
            PredicateTree::Leaf(p) => TreeModel::Leaf(p@),
            PredicateTree::Group(nodes) => TreeModel::Group(nodes_view(nodes@)),
            PredicateTree::RangeConstrained(c) => TreeModel::RangeConstrained(c.view()),
        }
    }
}

impl PredicateNode {
    /// The mathematical value of the clause.
    pub open spec fn view(&self) -> NodeModel
        decreases self,
    {
        NodeModel { occurrence: self.occurrence, tree: self.tree.view() }
    }
}

impl CatQuery {
    /// The mathematical value of the query.
    pub open spec fn view(&self) -> CatQueryModel
        decreases self,
    {
        CatQueryModel {
            query: nodes_view(self.query@),
            field: self.field,
            left: self.left,
            right: self.right,
            limit: self.limit,
        }
    }

    /// Replaces the number of results wanted.
    pub fn set_limit(&mut self, limit: usize)
        ensures
            final(self).view() == (CatQueryModel { limit, ..old(self).view() }),
    {
        self.limit = limit;
    }

    /// The query that asks for the `limit` best documents that the clauses
    /// of `query` match and whose value of `field` lies within
    /// `[left, right]`.
    pub fn new(query: Vec<PredicateNode>, field: u32, left: u64, right: u64, limit: usize) -> (r: CatQuery)
        ensures
            r.view() == (CatQueryModel { query: nodes_view(query@), field, left, right, limit }),
            r.query == query,
            r.field == field,
            r.left == left,
            r.right == right,
            r.limit == limit,
    {
        CatQuery { query, field, left, right, limit }
    }
}

} // verus!
