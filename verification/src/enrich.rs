//! The enrichment pass over the plan tree.
//!
//! Enrichment visits every node of the tree exactly once, decides each
//! node from its own kind tag and annotation alone, and either returns
//! the fully enriched tree or aborts on the first grammar violation.
//! The traversal order is first child, then the node itself, then the
//! remaining children left to right; since the decision for a node does
//! not depend on any other node, the order only determines which of
//! several violations is reported.

use crate::model::{
    lemma_node_view_children, scan_wf, ErrView, GrammarError, Node, NodeView, OpView,
};
use crate::parse::{lemma_parsed_scan_qualified, parse_operator, spec_parse_op};
use vstd::prelude::*;

verus! {

/// The node's payload after its decision: a parsed operator replaces the
/// payload, and a pass-through decision keeps it.
pub open spec fn apply_decision(attr: Option<OpView>, d: Option<OpView>) -> Option<OpView> {
    match d {
        Some(op) => Some(op),
        None => attr,
    }
}

/// `t` after its own decision `d`, with `children` as its children.
pub open spec fn enriched_node(t: NodeView, d: Option<OpView>, children: Seq<NodeView>) -> NodeView {
    NodeView {
        name: t.name,
        timing_bits: t.timing_bits,
        cardinality: t.cardinality,
        extra_info: t.extra_info,
        children,
        attr: apply_decision(t.attr, d),
    }
}

/// What enrichment returns on the tree `t`: the same tree with every
/// node decided, or the first grammar violation in traversal order
/// (first child, the node itself, then the remaining children).
pub open spec fn spec_enrich(t: NodeView) -> Result<NodeView, ErrView>
    decreases t, 0nat, 0nat,
{
    if t.children.len() == 0 {
        match spec_parse_op(t.name, t.extra_info) {
            Ok(d) => Ok(enriched_node(t, d, t.children)),
            Err(e) => Err(e),
        }
    } else {
        match spec_enrich(t.children[0]) {
            Ok(c0) => match spec_parse_op(t.name, t.extra_info) {
                Ok(d) => match spec_enrich_rest(t.children, 1) {
                    Ok(cs) => Ok(enriched_node(t, d, seq![c0] + cs)),
                    Err(e) => Err(e),
                },
                Err(e) => Err(e),
            },
            Err(e) => Err(e),
        }
    }
}

/// Enrichment of the subtrees `s[i..]`, left to right.
pub open spec fn spec_enrich_rest(s: Seq<NodeView>, i: int) -> Result<Seq<NodeView>, ErrView>
    decreases s, s.len() - i, 1nat,
{
    if i < 0 || i >= s.len() {
        Ok(Seq::empty())
    } else {
        match spec_enrich(s[i]) {
            Ok(u) => match spec_enrich_rest(s, i + 1) {
                Ok(rest) => Ok(seq![u] + rest),
                Err(e) => Err(e),
            },
            Err(e) => Err(e),
        }
    }
}

/// A successful `spec_enrich_rest` enriches each subtree in place.
proof fn lemma_enrich_rest_ok(s: Seq<NodeView>, i: int)
    requires
        0 <= i <= s.len(),
        spec_enrich_rest(s, i) is Ok,
    ensures
        spec_enrich_rest(s, i)->Ok_0.len() == s.len() - i,
        forall|k: int|
            0 <= k < s.len() - i ==> spec_enrich(#[trigger] s[i + k]) is Ok
                && spec_enrich_rest(s, i)->Ok_0[k] == spec_enrich(s[i + k])->Ok_0,
    decreases s.len() - i,
{
    if i < s.len() {
        lemma_enrich_rest_ok(s, i + 1);
        let rest = spec_enrich_rest(s, i + 1)->Ok_0;
        assert forall|k: int|
            0 <= k < s.len() - i implies spec_enrich(#[trigger] s[i + k]) is Ok
            && spec_enrich_rest(s, i)->Ok_0[k] == spec_enrich(s[i + k])->Ok_0 by {
            if k > 0 {
                assert(spec_enrich(s[(i + 1) + (k - 1)]) is Ok);
                assert(rest[k - 1] == spec_enrich(s[(i + 1) + (k - 1)])->Ok_0);
                assert(s[(i + 1) + (k - 1)] == s[i + k]);
            }
        }
    }
}

/// The converse: when each subtree enriches, `spec_enrich_rest` succeeds.
proof fn lemma_enrich_rest_all_ok(s: Seq<NodeView>, i: int)
    requires
        0 <= i <= s.len(),
        forall|k: int| i <= k < s.len() ==> spec_enrich(#[trigger] s[k]) is Ok,
    ensures
        spec_enrich_rest(s, i) is Ok,
    decreases s.len() - i,
{
    if i < s.len() {
        lemma_enrich_rest_all_ok(s, i + 1);
    }
}

/// The first failing subtree is the error `spec_enrich_rest` reports.
proof fn lemma_enrich_rest_err(s: Seq<NodeView>, i: int, j: int)
    requires
        0 <= i <= j < s.len(),
        forall|k: int| i <= k < j ==> spec_enrich(#[trigger] s[k]) is Ok,
        spec_enrich(s[j]) is Err,
    ensures
        spec_enrich_rest(s, i) == Err::<Seq<NodeView>, ErrView>(spec_enrich(s[j])->Err_0),
    decreases j - i,
{
    if i < j {
        lemma_enrich_rest_err(s, i + 1, j);
    }
}

/// Enrich the whole tree: visit every node exactly once and, for nodes
/// of a recognized kind, parse `extra_info` into the matching operator
/// and store it on the node; pass-through kinds are left untouched, and
/// the first grammar violation aborts the whole pass with its error.
///
/// The pass is specified for a freshly deserialized tree, whose payloads
/// are still empty; running it again on a tree it already enriched is
/// outside its contract.
pub fn parse_tree_extra_info(root: Node) -> (res: Result<Node, GrammarError>)
    ensures
        res is Ok <==> spec_enrich(root@) is Ok,
        res matches Ok(u) ==> u@ == spec_enrich(root@)->Ok_0,
        res matches Err(e) ==> e@ == spec_enrich(root@)->Err_0,
    decreases root,
{
    let ghost g = root;
    let Node { name, timing_bits, cardinality, extra_info, children, attr } = root;
    let mut rest = children;
    proof {
        lemma_node_view_children(g);
    }
    if rest.len() == 0 {
        let new_attr = match parse_operator(name.as_str(), extra_info.as_str()) {
            Ok(Some(op)) => Some(op),
            Ok(None) => attr,
            Err(e) => {
                return Err(e);
            },
        };
        let out = Node {
            name,
            timing_bits,
            cardinality,
            extra_info,
            children: rest,
            attr: new_attr,
        };
        proof {
            lemma_node_view_children(out);
            assert(out@.children =~= g@.children);
            assert(out@ == spec_enrich(g@)->Ok_0);
        }
        return Ok(out);
    }
    let ghost n = g.children@.len() as int;
    let c0 = rest.remove(0);
    proof {
        assert(c0 == g.children[0]);
        assert(decreases_to!(g => g.children));
        assert(decreases_to!(g.children => g.children[0]));
        assert(rest@ =~= g.children@.subrange(1, n));
    }
    let mut done: Vec<Node> = Vec::new();
    match parse_tree_extra_info(c0) {
        Ok(u) => {
            done.push(u);
        },
        Err(e) => {
            return Err(e);
        },
    }
    let new_attr = match parse_operator(name.as_str(), extra_info.as_str()) {
        Ok(Some(op)) => Some(op),
        Ok(None) => attr,
        Err(e) => {
            return Err(e);
        },
    };
    let ghost mut k: int = 1;
    while rest.len() > 0
        invariant
            g == root,
            n == g.children@.len(),
            1 <= k <= n,
            rest@ == g.children@.subrange(k, n),
            done@.len() == k,
            g@.children.len() == n,
            forall|j: int|
                0 <= j < k ==> spec_enrich(#[trigger] g@.children[j]) is Ok && done@[j]@
                    == spec_enrich(g@.children[j])->Ok_0,
            spec_parse_op(g@.name, g@.extra_info) is Ok,
        decreases n - k,
    {
        let c = rest.remove(0);
        proof {
            lemma_node_view_children(g);
            assert(c == g.children@.subrange(k, n)[0]);
            assert(c == g.children[k]);
            assert(decreases_to!(g => g.children));
            assert(decreases_to!(g.children => g.children[k]));
            assert(rest@ =~= g.children@.subrange(k + 1, n));
        }
        match parse_tree_extra_info(c) {
            Ok(u) => {
                done.push(u);
            },
            Err(e) => {
                proof {
                    lemma_enrich_rest_err(g@.children, 1, k);
                }
                return Err(e);
            },
        }
        proof {
            k = k + 1;
        }
    }
    proof {
        assert(g.children@.subrange(k, n).len() == 0);
        assert(k == n);
    }
    let out = Node { name, timing_bits, cardinality, extra_info, children: done, attr: new_attr };
    proof {
        lemma_node_view_children(out);
        assert forall|j: int| 1 <= j < n implies spec_enrich(#[trigger] g@.children[j]) is Ok by {
            assert(done@[j]@ == spec_enrich(g@.children[j])->Ok_0);
        }
        lemma_enrich_rest_all_ok(g@.children, 1);
        lemma_enrich_rest_ok(g@.children, 1);
        let cs = spec_enrich_rest(g@.children, 1)->Ok_0;
        assert forall|j: int| 0 <= j < n implies out@.children[j] == (seq![spec_enrich(
            g@.children[0],
        )->Ok_0] + cs)[j] by {
            assert(out@.children[j] == done[j]@);
            if j > 0 {
                assert(cs[j - 1] == spec_enrich(g@.children[1 + (j - 1)])->Ok_0);
                assert(g@.children[1 + (j - 1)] == g@.children[j]);
            }
        }
        assert(out@.children =~= seq![spec_enrich(g@.children[0])->Ok_0] + cs);
        assert(out@ == spec_enrich(g@)->Ok_0);
    }
    Ok(out)
}

/// Number of nodes in the tree rooted at `t`.
pub open spec fn node_count(t: NodeView) -> nat
    decreases t, 0nat, 0nat,
{
    1 + node_count_from(t.children, 0)
}

/// Number of nodes in the subtrees `s[i..]`.
pub open spec fn node_count_from(s: Seq<NodeView>, i: int) -> nat
    decreases s, s.len() - i, 1nat,
{
    if 0 <= i < s.len() {
        node_count(s[i]) + node_count_from(s, i + 1)
    } else {
        0
    }
}

/// Whether `u` is `t` with a decision recorded on every node: each
/// node's kind and annotation parsed, the payload written (or kept) as
/// that decision says, and the tree shape unchanged.
pub open spec fn nodes_decided(t: NodeView, u: NodeView) -> bool
    decreases t, 0nat, 0nat,
{
    &&& spec_parse_op(t.name, t.extra_info) is Ok
    &&& u.attr == apply_decision(t.attr, spec_parse_op(t.name, t.extra_info)->Ok_0)
    &&& u.children.len() == t.children.len()
    &&& nodes_decided_from(t.children, u.children, 0)
}

/// `nodes_decided`, child by child from `i` on.
pub open spec fn nodes_decided_from(a: Seq<NodeView>, b: Seq<NodeView>, i: int) -> bool
    decreases a, a.len() - i, 1nat,
{
    if 0 <= i < a.len() {
        &&& i < b.len()
        &&& nodes_decided(a[i], b[i])
        &&& nodes_decided_from(a, b, i + 1)
    } else {
        true
    }
}

/// Fold a per-child property into `nodes_decided_from`.
proof fn lemma_decided_from(a: Seq<NodeView>, b: Seq<NodeView>, i: int)
    requires
        0 <= i <= a.len(),
        a.len() == b.len(),
        forall|j: int| i <= j < a.len() ==> nodes_decided(#[trigger] a[j], b[j]),
    ensures
        nodes_decided_from(a, b, i),
    decreases a.len() - i,
{
    if i < a.len() {
        lemma_decided_from(a, b, i + 1);
    }
}

/// Node counts agree when they agree child by child.
proof fn lemma_count_pointwise(a: Seq<NodeView>, b: Seq<NodeView>, i: int)
    requires
        0 <= i <= a.len(),
        a.len() == b.len(),
        forall|j: int| i <= j < a.len() ==> node_count(#[trigger] b[j]) == node_count(a[j]),
    ensures
        node_count_from(b, i) == node_count_from(a, i),
    decreases a.len() - i,
{
    if i < a.len() {
        lemma_count_pointwise(a, b, i + 1);
    }
}

/// Whether every node of the tree still has an empty payload, as a
/// freshly deserialized profile does.
pub open spec fn unenriched(t: NodeView) -> bool
    decreases t, 0nat, 0nat,
{
    &&& t.attr is None
    &&& unenriched_from(t.children, 0)
}

/// `unenriched`, child by child from `i` on.
pub open spec fn unenriched_from(s: Seq<NodeView>, i: int) -> bool
    decreases s, s.len() - i, 1nat,
{
    if 0 <= i < s.len() {
        unenriched(s[i]) && unenriched_from(s, i + 1)
    } else {
        true
    }
}

/// Whether every scan payload in the tree satisfies the scan invariant.
pub open spec fn all_scans_wf(t: NodeView) -> bool
    decreases t, 0nat, 0nat,
{
    &&& match t.attr {
        Some(OpView::Scan(s)) => scan_wf(s),
        _ => true,
    }
    &&& all_scans_wf_from(t.children, 0)
}

/// `all_scans_wf`, child by child from `i` on.
pub open spec fn all_scans_wf_from(s: Seq<NodeView>, i: int) -> bool
    decreases s, s.len() - i, 1nat,
{
    if 0 <= i < s.len() {
        all_scans_wf(s[i]) && all_scans_wf_from(s, i + 1)
    } else {
        true
    }
}

/// `unenriched` holds of each child in range.
proof fn lemma_unenriched_at(s: Seq<NodeView>, i: int, j: int)
    requires
        0 <= i <= j < s.len(),
        unenriched_from(s, i),
    ensures
        unenriched(s[j]),
    decreases j - i,
{
    if i < j {
        lemma_unenriched_at(s, i + 1, j);
    }
}

/// Fold a per-child property into `all_scans_wf_from`.
proof fn lemma_scans_wf_from(s: Seq<NodeView>, i: int)
    requires
        0 <= i <= s.len(),
        forall|j: int| i <= j < s.len() ==> all_scans_wf(#[trigger] s[j]),
    ensures
        all_scans_wf_from(s, i),
    decreases s.len() - i,
{
    if i < s.len() {
        lemma_scans_wf_from(s, i + 1);
    }
}

/// Enriching a freshly deserialized tree only ever writes well-formed
/// scans: every attribute of every scan payload in the result names the
/// scan's own table.
pub proof fn lemma_enrich_scans_wf(t: NodeView)
    requires
        unenriched(t),
        spec_enrich(t) is Ok,
    ensures
        all_scans_wf(spec_enrich(t)->Ok_0),
    decreases t, 0nat, 0nat,
{
    let u = spec_enrich(t)->Ok_0;
    let d = spec_parse_op(t.name, t.extra_info)->Ok_0;
    match d {
        Some(OpView::Scan(s)) => {
            lemma_parsed_scan_qualified(t.extra_info);
            assert(scan_wf(s));
        },
        _ => {},
    }
    if t.children.len() == 0 {
        assert(all_scans_wf_from(u.children, 0));
    } else {
        lemma_enrich_rest_ok(t.children, 1);
        assert forall|j: int| 0 <= j < u.children.len() implies all_scans_wf(
            #[trigger] u.children[j],
        ) by {
            lemma_unenriched_at(t.children, 0, j);
            if j == 0 {
                lemma_enrich_scans_wf(t.children[0]);
            } else {
                let cs = spec_enrich_rest(t.children, 1)->Ok_0;
                assert(cs[j - 1] == spec_enrich(t.children[1 + (j - 1)])->Ok_0);
                assert(t.children[1 + (j - 1)] == t.children[j]);
                lemma_enrich_scans_wf(t.children[j]);
            }
        }
        lemma_scans_wf_from(u.children, 0);
    }
}

/// Enrichment visits every node exactly once: a successful pass returns
/// a tree with exactly as many nodes as it was given, and on every one
/// of them the decision for the corresponding input node — parsed
/// payload or deliberate pass-through — has been recorded.
pub proof fn lemma_enrich_visits_every_node(t: NodeView)
    requires
        spec_enrich(t) is Ok,
    ensures
        node_count(spec_enrich(t)->Ok_0) == node_count(t),
        nodes_decided(t, spec_enrich(t)->Ok_0),
    decreases t, 0nat, 0nat,
{
    let u = spec_enrich(t)->Ok_0;
    if t.children.len() == 0 {
        assert(u.children.len() == 0);
        assert(node_count_from(u.children, 0) == 0);
        assert(node_count_from(t.children, 0) == 0);
    } else {
        lemma_enrich_visits_every_node(t.children[0]);
        lemma_enrich_rest_ok(t.children, 1);
        let c0 = spec_enrich(t.children[0])->Ok_0;
        let cs = spec_enrich_rest(t.children, 1)->Ok_0;
        assert(u.children == seq![c0] + cs);
        assert forall|j: int|
            0 <= j < t.children.len() implies nodes_decided(#[trigger] t.children[j], u.children[j])
            && node_count(u.children[j]) == node_count(t.children[j]) by {
            if j == 0 {
                assert(u.children[0] == c0);
            } else {
                assert(cs[j - 1] == spec_enrich(t.children[1 + (j - 1)])->Ok_0);
                assert(t.children[1 + (j - 1)] == t.children[j]);
                assert(spec_enrich(t.children[j]) is Ok);
                lemma_enrich_visits_every_node(t.children[j]);
            }
        }
        lemma_decided_from(t.children, u.children, 0);
        lemma_count_pointwise(t.children, u.children, 0);
    }
}

} // verus!
