//! The plan tree model: typed operator payloads, the tree node, and the
//! grammar error type, together with their ghost views.
//!
//! Executable values hold `String` and `Vec`; each type has a view made of
//! `Seq<char>` and `Seq`, over which all contracts in this crate are stated.

use vstd::prelude::*;

verus! {

/// The kind of a join.  Only `Inner` is reachable from the current
/// annotation grammar; the other variants are reserved for grammars that
/// may produce them later.
#[derive(Debug, Clone, PartialEq, Eq, Hash)]
pub enum JoinType {
    Inner,
    LeftOuter,
    RightOuter,
    FullOuter,
}

/// A fully qualified reference to a column: `table_name.attr_name`.
#[derive(Debug, Clone, PartialEq, Eq, Hash)]
pub struct Attribute {
    pub table_name: String,
    pub attr_name: String,
}

impl Attribute {
    /// The reference written the way the grammar writes it:
    /// `table_name.attr_name`.
    pub fn qualified_name(&self) -> (r: String)
        ensures
            r@ == self.table_name@ + "."@ + self.attr_name@,
    {
        let mut s = self.table_name.clone();
        s.append(".");
        s.append(self.attr_name.as_str());
        s
    }
}

/// Ghost view of an [`Attribute`].
pub struct AttrView {
    pub table_name: Seq<char>,
    pub attr_name: Seq<char>,
}

impl View for Attribute {
    type V = AttrView;

    open spec fn view(&self) -> AttrView {
        AttrView { table_name: self.table_name@, attr_name: self.attr_name@ }
    }
}

/// An equality join predicate `left_attr = right_attr`; left/right is
/// purely positional as parsed.
#[derive(Debug, Clone, PartialEq, Eq, Hash)]
pub struct Condition {
    pub left_attr: Attribute,
    pub right_attr: Attribute,
}

/// Ghost view of a [`Condition`].
pub struct CondView {
    pub left_attr: AttrView,
    pub right_attr: AttrView,
}

impl View for Condition {
    type V = CondView;

    open spec fn view(&self) -> CondView {
        CondView { left_attr: self.left_attr@, right_attr: self.right_attr@ }
    }
}

/// A join operator: its kind and its equality predicates in file order.
#[derive(Debug, Clone, PartialEq, Eq, Hash)]
pub struct Join {
    pub join_type: JoinType,
    pub equalizers: Vec<Condition>,
}

/// Ghost view of a [`Join`].
pub struct JoinView {
    pub join_type: JoinType,
    pub equalizers: Seq<CondView>,
}

impl View for Join {
    type V = JoinView;

    open spec fn view(&self) -> JoinView {
        JoinView {
            join_type: self.join_type,
            equalizers: Seq::new(self.equalizers.len() as nat, |i: int| self.equalizers[i]@),
        }
    }
}

/// A sequential scan: the scanned table and the columns read from it.
/// Every attribute is qualified with the scan's own table name; see
/// [`scan_wf`].
#[derive(Debug, Clone, PartialEq, Eq, Hash)]
pub struct Scan {
    pub table_name: String,
    pub attributes: Vec<Attribute>,
}

/// Ghost view of a [`Scan`].
pub struct ScanView {
    pub table_name: Seq<char>,
    pub attributes: Seq<AttrView>,
}

impl View for Scan {
    type V = ScanView;

    open spec fn view(&self) -> ScanView {
        ScanView {
            table_name: self.table_name@,
            attributes: Seq::new(self.attributes.len() as nat, |i: int| self.attributes[i]@),
        }
    }
}

/// The scan invariant: every attribute of the scan names the scan's own
/// table.
pub open spec fn scan_wf(s: ScanView) -> bool {
    forall|i: int| 0 <= i < s.attributes.len() ==> #[trigger] s.attributes[i].table_name == s.table_name
}

/// A projection: its output columns, in order.
#[derive(Debug, Clone, PartialEq, Eq, Hash)]
pub struct Project {
    pub columns: Vec<Attribute>,
}

/// Ghost view of a [`Project`].
pub struct ProjectView {
    pub columns: Seq<AttrView>,
}

impl View for Project {
    type V = ProjectView;

    open spec fn view(&self) -> ProjectView {
        ProjectView {
            columns: Seq::new(self.columns.len() as nat, |i: int| self.columns[i]@),
        }
    }
}

/// The typed operator payload written onto a node by enrichment.
/// `Filter` carries no payload; its presence alone is the signal.
#[derive(Debug, Clone, PartialEq, Eq, Hash)]
pub enum Op {
    Join(Join),
    Scan(Scan),
    Project(Project),
    Filter,
}

/// Ghost view of an [`Op`].
pub enum OpView {
    Join(JoinView),
    Scan(ScanView),
    Project(ProjectView),
    Filter,
}

impl View for Op {
    type V = OpView;

    open spec fn view(&self) -> OpView {
        match self {
            Op::Join(j) => OpView::Join(j@),
            Op::Scan(s) => OpView::Scan(s@),
            Op::Project(p) => OpView::Project(p@),
            Op::Filter => OpView::Filter,
        }
    }
}

/// A vertex of the plan tree.
///
/// `name` is the raw operator-kind tag from the profile; `extra_info` is
/// the raw annotation text to be parsed; `attr` starts empty and is
/// populated by enrichment.  `timing_bits` carries the node's timing
/// measurement as the bit pattern of an IEEE-754 double; it is opaque to
/// this crate (measurement noise, not identity-relevant) and is only
/// carried through unchanged.
#[derive(Debug)]
pub struct Node {
    pub name: String,
    pub timing_bits: u64,
    pub cardinality: u64,
    pub extra_info: String,
    pub children: Vec<Node>,
    pub attr: Option<Op>,
}

/// Ghost view of a [`Node`]: the same tree, over mathematical sequences.
pub struct NodeView {
    pub name: Seq<char>,
    pub timing_bits: u64,
    pub cardinality: u64,
    pub extra_info: Seq<char>,
    pub children: Seq<NodeView>,
    pub attr: Option<OpView>,
}

impl View for Node {
    type V = NodeView;

    open spec fn view(&self) -> NodeView {
        node_view(*self)
    }
}

/// The view of a node, computed recursively over its children.
pub open spec fn node_view(n: Node) -> NodeView
    decreases n, 1nat, 0nat,
{
    NodeView {
        name: n.name@,
        timing_bits: n.timing_bits,
        cardinality: n.cardinality,
        extra_info: n.extra_info@,
        children: nodes_view_from(n.children, 0),
        attr: match n.attr {
            Some(op) => Some(op@),
            None => None,
        },
    }
}

/// The views of the nodes `v[i..]`, in order.
pub open spec fn nodes_view_from(v: Vec<Node>, i: int) -> Seq<NodeView>
    decreases v, 0nat, v.len() - i,
{
    if 0 <= i < v.len() {
        seq![node_view(v[i])] + nodes_view_from(v, i + 1)
    } else {
        Seq::empty()
    }
}

/// `nodes_view_from(v, i)` is the element-wise view of `v[i..]`.
pub proof fn lemma_nodes_view(v: Vec<Node>, i: int)
    requires
        0 <= i <= v.len(),
    ensures
        nodes_view_from(v, i).len() == v.len() - i,
        forall|k: int| i <= k < v.len() ==> nodes_view_from(v, i)[k - i] == node_view(v[k]),
    decreases v.len() - i,
{
    if i < v.len() {
        lemma_nodes_view(v, i + 1);
    }
}

/// The children of a node's view are the views of its children.
pub proof fn lemma_node_view_children(n: Node)
    ensures
        node_view(n).children.len() == n.children.len(),
        forall|k: int| 0 <= k < n.children.len() ==> node_view(n).children[k] == node_view(
            n.children[k],
        ),
{
    lemma_nodes_view(n.children, 0);
}

/// A violation of the annotation grammar.  Enrichment is all-or-nothing:
/// the first violation aborts the whole pass, and each variant carries the
/// offending fragment so the grammar mismatch can be diagnosed.
#[derive(Debug, Clone, PartialEq, Eq, Hash)]
pub enum GrammarError {
    /// The node's kind tag is not one the grammar table knows.
    UnknownNodeKind { kind: String },
    /// A `HASH_JOIN` annotation had no join-type line at all.
    MissingJoinType,
    /// A `HASH_JOIN` annotation opened with an unrecognized join-type tag.
    UnknownJoinType { tag: String },
    /// A `HASH_JOIN` predicate line carried no `=`.
    MissingEquality { predicate: String },
    /// A `SEQ_SCAN` annotation did not split into exactly two parts on the
    /// `[INFOSEPARATOR]` marker.
    BadScanInfo { info: String },
}

/// Ghost view of a [`GrammarError`].
pub enum ErrView {
    UnknownNodeKind { kind: Seq<char> },
    MissingJoinType,
    UnknownJoinType { tag: Seq<char> },
    MissingEquality { predicate: Seq<char> },
    BadScanInfo { info: Seq<char> },
}

impl View for GrammarError {
    type V = ErrView;

    open spec fn view(&self) -> ErrView {
        match self {
            GrammarError::UnknownNodeKind { kind } => ErrView::UnknownNodeKind { kind: kind@ },
            GrammarError::MissingJoinType => ErrView::MissingJoinType,
            GrammarError::UnknownJoinType { tag } => ErrView::UnknownJoinType { tag: tag@ },
            GrammarError::MissingEquality { predicate } => ErrView::MissingEquality {
                predicate: predicate@,
            },
            GrammarError::BadScanInfo { info } => ErrView::BadScanInfo { info: info@ },
        }
    }
}

/// What [`GrammarError::describe`] returns, over views.
pub open spec fn describe_of(e: ErrView) -> Seq<char> {
    match e {
        ErrView::UnknownNodeKind { kind } => "unknown node kind: "@ + kind,
        ErrView::MissingJoinType => "hash join annotation has no join-type line"@,
        ErrView::UnknownJoinType { tag } => "unrecognized join type: "@ + tag,
        ErrView::MissingEquality { predicate } => "join predicate has no '=': "@ + predicate,
        ErrView::BadScanInfo { info } => "scan annotation lacks a single [INFOSEPARATOR]: "@
            + info,
    }
}

impl GrammarError {
    /// A human-readable account of the violation, carrying the offending
    /// fragment.
    pub fn describe(&self) -> (r: String)
        ensures
            r@ == describe_of(self@),
    {
        match self {
            GrammarError::UnknownNodeKind { kind } => {
                let mut s = String::from_str("unknown node kind: ");
                s.append(kind.as_str());
                s
            },
            GrammarError::MissingJoinType => String::from_str(
                "hash join annotation has no join-type line",
            ),
            GrammarError::UnknownJoinType { tag } => {
                let mut s = String::from_str("unrecognized join type: ");
                s.append(tag.as_str());
                s
            },
            GrammarError::MissingEquality { predicate } => {
                let mut s = String::from_str("join predicate has no '=': ");
                s.append(predicate.as_str());
                s
            },
            GrammarError::BadScanInfo { info } => {
                let mut s = String::from_str("scan annotation lacks a single [INFOSEPARATOR]: ");
                s.append(info.as_str());
                s
            },
        }
    }
}

} // verus!
