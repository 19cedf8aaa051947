//! Deterministic layout skeleton: the graph's nodes in ascending id order,
//! each with its slot index, and every adjacency pair as a slot-index edge.
//!
//! The display layer places slot `i` of `n` at angle `2*pi*i/n` on a circle;
//! everything it needs beyond trigonometry is fixed here, so that two
//! layouts of the same graph can never differ.

use vstd::prelude::*;

use crate::graph::NodeKind;
use crate::graph::TopologyGraph;

verus! {

/// One node's place in the layout: its id, its classification for styling,
/// and its position `index` among the `slots` of the layout.
#[derive(Clone, Copy, Debug, PartialEq, Eq, Structural)]
pub struct LayoutSlot {
    pub id: u8,
    pub kind: NodeKind,
    pub index: usize,
}

/// One rendered link, as a pair of slot indices.
#[derive(Clone, Copy, Debug, PartialEq, Eq, Structural)]
pub struct LayoutEdge {
    pub from: usize,
    pub to: usize,
}

/// The full render model derived from one topology snapshot.
pub struct GraphLayout {
    pub slots: Vec<LayoutSlot>,
    pub edges: Vec<LayoutEdge>,
}

/// `slots` lists exactly the graph's nodes, in strictly ascending id order,
/// each slot carrying its own position and the node's classification.
pub open spec fn slots_match(g: TopologyGraph, slots: Seq<LayoutSlot>) -> bool {
    &&& forall|i: int|
        0 <= i < slots.len() ==> {
            let sl = #[trigger] slots[i];
            g.contains_node(sl.id) && sl.kind == g.kind_of(sl.id) && sl.index == i
        }
    &&& forall|i: int, j: int|
        0 <= i < j < slots.len() ==> (#[trigger] slots[i]).id < (#[trigger] slots[j]).id
    &&& forall|id: u8|
        #[trigger] g.contains_node(id) ==> exists|i: int| 0 <= i < slots.len() && slots[i].id == id
}

/// `edges` lists exactly the adjacency pairs of the graph, as slot indices,
/// in strictly ascending lexicographic order.
pub open spec fn edges_match(
    g: TopologyGraph,
    slots: Seq<LayoutSlot>,
    edges: Seq<LayoutEdge>,
) -> bool {
    &&& forall|k: int|
        0 <= k < edges.len() ==> {
            let e = #[trigger] edges[k];
            &&& 0 <= e.from < slots.len()
            &&& 0 <= e.to < slots.len()
            &&& g.has_edge(slots[e.from as int].id, slots[e.to as int].id)
        }
    &&& forall|i: int, j: int|
        0 <= i < slots.len() && 0 <= j < slots.len() && g.has_edge(
            slots[i].id,
            slots[j].id,
        ) ==> exists|k: int|
            0 <= k < edges.len() && (#[trigger] edges[k]).from == i && edges[k].to == j
    &&& forall|k1: int, k2: int|
        0 <= k1 < k2 < edges.len() ==> ((#[trigger] edges[k1]).from < (#[trigger] edges[k2]).from
            || (edges[k1].from == edges[k2].from && edges[k1].to < edges[k2].to))
}

/// The whole layout is the one determined by the graph.
pub open spec fn layout_matches(g: TopologyGraph, l: GraphLayout) -> bool {
    slots_match(g, l.slots@) && edges_match(g, l.slots@, l.edges@)
}

/// Computes the layout skeleton of a topology snapshot.
///
/// An empty graph yields no slots and no edges; otherwise the slots are the
/// nodes sorted by id and the edges are all adjacency pairs whose both
/// endpoints exist, in lexicographic slot order.
#[verifier::rlimit(60)]
pub fn compute_layout(g: &TopologyGraph) -> (l: GraphLayout)
    requires
        g.wf(),
    ensures
        layout_matches(*g, l),
        g.nodes@.len() == 0 ==> l.slots@.len() == 0 && l.edges@.len() == 0,
{
    let mut slots: Vec<LayoutSlot> = Vec::new();
    let mut v: u16 = 0;
    while v < 256
        invariant
            g.wf(),
            v <= 256,
            forall|i: int|
                0 <= i < slots@.len() ==> {
                    let sl = #[trigger] slots@[i];
                    g.contains_node(sl.id) && sl.kind == g.kind_of(sl.id) && sl.index == i
                },
            forall|i: int, j: int|
                0 <= i < j < slots@.len() ==> (#[trigger] slots@[i]).id < (
                #[trigger] slots@[j]).id,
            forall|i: int| 0 <= i < slots@.len() ==> (#[trigger] slots@[i]).id < v,
            forall|id: u8|
                id < v && #[trigger] g.contains_node(id) ==> exists|i: int|
                    0 <= i < slots@.len() && slots@[i].id == id,
        decreases 256 - v,
    {
        let ghost s0 = slots@;
        let id = v as u8;
        match g.find(id) {
            Some(i) => {
                let slot = LayoutSlot { id, kind: g.nodes[i].kind, index: slots.len() };
                proof {
                    g.lemma_index_of(i as int);
                }
                slots.push(slot);
            },
            None => {},
        }
        proof {
            assert forall|id2: u8| id2 < v + 1 && #[trigger] g.contains_node(id2) implies exists|
                i: int,
            | 0 <= i < slots@.len() && slots@[i].id == id2 by {
                if id2 < v {
                    let i = choose|i: int| 0 <= i < s0.len() && (#[trigger] s0[i]).id == id2;
                    assert(slots@[i].id == id2);
                } else {
                    assert(slots@.last().id == id2);
                }
            }
        }
        v += 1;
    }
    proof {
        if g.nodes@.len() > 0 {
            g.lemma_index_of(0);
        }
        if slots@.len() > 0 {
            assert(g.contains_node(slots@[0].id));
        }
    }
    let mut edges: Vec<LayoutEdge> = Vec::new();
    let n = slots.len();
    let mut si: usize = 0;
    while si < n
        invariant
            g.wf(),
            n == slots@.len(),
            si <= n,
            slots_match(*g, slots@),
            forall|k: int|
                0 <= k < edges@.len() ==> {
                    let e = #[trigger] edges@[k];
                    &&& 0 <= e.from < slots@.len()
                    &&& 0 <= e.to < slots@.len()
                    &&& g.has_edge(slots@[e.from as int].id, slots@[e.to as int].id)
                },
            forall|i: int, j: int|
                0 <= i < si && 0 <= j < slots@.len() && g.has_edge(
                    slots@[i].id,
                    slots@[j].id,
                ) ==> exists|k: int|
                    0 <= k < edges@.len() && (#[trigger] edges@[k]).from == i && edges@[k].to == j,
            forall|k: int| 0 <= k < edges@.len() ==> (#[trigger] edges@[k]).from < si,
            forall|k1: int, k2: int|
                0 <= k1 < k2 < edges@.len() ==> ((#[trigger] edges@[k1]).from < (
                #[trigger] edges@[k2]).from || (edges@[k1].from == edges@[k2].from
                    && edges@[k1].to < edges@[k2].to)),
        decreases n - si,
    {
        let mut tj: usize = 0;
        while tj < n
            invariant
                g.wf(),
                n == slots@.len(),
                0 <= si < n,
                tj <= n,
                slots_match(*g, slots@),
                forall|k: int|
                    0 <= k < edges@.len() ==> {
                        let e = #[trigger] edges@[k];
                        &&& 0 <= e.from < slots@.len()
                        &&& 0 <= e.to < slots@.len()
                        &&& g.has_edge(slots@[e.from as int].id, slots@[e.to as int].id)
                    },
                forall|i: int, j: int|
                    0 <= i < si && 0 <= j < slots@.len() && g.has_edge(
                        slots@[i].id,
                        slots@[j].id,
                    ) ==> exists|k: int|
                        0 <= k < edges@.len() && (#[trigger] edges@[k]).from == i && edges@[k].to
                            == j,
                forall|j: int|
                    0 <= j < tj && g.has_edge(slots@[si as int].id, slots@[j].id) ==> exists|k: int|
                        0 <= k < edges@.len() && (#[trigger] edges@[k]).from == si && edges@[k].to
                            == j,
                forall|k: int|
                    0 <= k < edges@.len() ==> ((#[trigger] edges@[k]).from < si || (edges@[k].from
                        == si && edges@[k].to < tj)),
                forall|k1: int, k2: int|
                    0 <= k1 < k2 < edges@.len() ==> ((#[trigger] edges@[k1]).from < (
                    #[trigger] edges@[k2]).from || (edges@[k1].from == edges@[k2].from
                        && edges@[k1].to < edges@[k2].to)),
            decreases n - tj,
        {
            let ghost e0 = edges@;
            if g.adjacent(slots[si].id, slots[tj].id) {
                edges.push(LayoutEdge { from: si, to: tj });
            }
            proof {
                assert forall|i: int, j: int|
                    0 <= i < si && 0 <= j < slots@.len() && g.has_edge(
                        slots@[i].id,
                        slots@[j].id,
                    ) implies exists|k: int|
                    0 <= k < edges@.len() && (#[trigger] edges@[k]).from == i && edges@[k].to
                        == j by {
                    let k = choose|k: int|
                        0 <= k < e0.len() && (#[trigger] e0[k]).from == i && e0[k].to == j;
                    assert(edges@[k].from == i && edges@[k].to == j);
                }
                assert forall|j: int|
                    0 <= j < tj + 1 && g.has_edge(slots@[si as int].id, slots@[j].id) implies
                    exists|k: int|
                        0 <= k < edges@.len() && (#[trigger] edges@[k]).from == si && edges@[k].to
                            == j by {
                    if j < tj {
                        let k = choose|k: int|
                            0 <= k < e0.len() && (#[trigger] e0[k]).from == si && e0[k].to == j;
                        assert(edges@[k].from == si && edges@[k].to == j);
                    } else {
                        assert(edges@.last().from == si && edges@.last().to == j);
                    }
                }
            }
            tj += 1;
        }
        proof {
            assert forall|i: int, j: int|
                0 <= i < si + 1 && 0 <= j < slots@.len() && g.has_edge(
                    slots@[i].id,
                    slots@[j].id,
                ) implies exists|k: int|
                0 <= k < edges@.len() && (#[trigger] edges@[k]).from == i && edges@[k].to
                    == j by {}
        }
        si += 1;
    }
    proof {
        if g.nodes@.len() == 0 {
            if slots@.len() > 0 {
                assert(g.contains_node(slots@[0].id));
            }
            if edges@.len() > 0 {
                assert(0 <= edges@[0].from < slots@.len());
            }
        }
    }
    GraphLayout { slots, edges }
}

/// Two strictly increasing sequences with the same members are the same
/// sequence.
proof fn lemma_strictly_increasing_same_members(s1: Seq<int>, s2: Seq<int>)
    requires
        forall|i: int, j: int| 0 <= i < j < s1.len() ==> #[trigger] s1[i] < #[trigger] s1[j],
        forall|i: int, j: int| 0 <= i < j < s2.len() ==> #[trigger] s2[i] < #[trigger] s2[j],
        forall|x: int| s1.contains(x) <==> s2.contains(x),
    ensures
        s1 =~= s2,
    decreases s1.len(),
{
    if s1.len() == 0 {
        if s2.len() > 0 {
            assert(s2.contains(s2[0]));
            assert(s1.contains(s2[0]));
        }
    } else {
        assert(s1.contains(s1[0]));
        assert(s2.contains(s1[0]));
        let j = choose|j: int| 0 <= j < s2.len() && s2[j] == s1[0];
        assert(s2.contains(s2[0]));
        assert(s1.contains(s2[0]));
        let i = choose|i: int| 0 <= i < s1.len() && s1[i] == s2[0];
        if j > 0 {
            assert(s2[0] < s2[j]);
        }
        if i > 0 {
            assert(s1[0] < s1[i]);
        }
        assert(s1[0] == s2[0]);
        let t1 = s1.drop_first();
        let t2 = s2.drop_first();
        assert forall|x: int| t1.contains(x) implies t2.contains(x) by {
            let k = choose|k: int| 0 <= k < t1.len() && t1[k] == x;
            assert(s1[k + 1] == x);
            assert(s1.contains(x));
            assert(s2.contains(x));
            let m = choose|m: int| 0 <= m < s2.len() && s2[m] == x;
            assert(s1[0] < s1[k + 1]);
            assert(m != 0);
            assert(t2[m - 1] == x);
        }
        assert forall|x: int| t2.contains(x) implies t1.contains(x) by {
            let k = choose|k: int| 0 <= k < t2.len() && t2[k] == x;
            assert(s2[k + 1] == x);
            assert(s2.contains(x));
            assert(s1.contains(x));
            let m = choose|m: int| 0 <= m < s1.len() && s1[m] == x;
            assert(s2[0] < s2[k + 1]);
            assert(m != 0);
            assert(t1[m - 1] == x);
        }
        assert forall|i2: int, j2: int|
            0 <= i2 < j2 < t1.len() implies #[trigger] t1[i2] < #[trigger] t1[j2] by {
            assert(s1[i2 + 1] < s1[j2 + 1]);
        }
        assert forall|i2: int, j2: int|
            0 <= i2 < j2 < t2.len() implies #[trigger] t2[i2] < #[trigger] t2[j2] by {
            assert(s2[i2 + 1] < s2[j2 + 1]);
        }
        lemma_strictly_increasing_same_members(t1, t2);
        assert forall|k: int| 0 <= k < s1.len() implies s1[k] == s2[k] by {
            if k > 0 {
                assert(t1[k - 1] == t2[k - 1]);
            }
        }
    }
}

/// A packed edge key decomposes uniquely.
proof fn lemma_edge_key_inject(n: int, f1: int, t1: int, f2: int, t2: int)
    by (nonlinear_arith)
    requires
        0 <= t1 < n + 1,
        0 <= t2 < n + 1,
        0 <= f1,
        0 <= f2,
        f1 * (n + 1) + t1 == f2 * (n + 1) + t2,
    ensures
        f1 == f2,
        t1 == t2,
{
}

/// Packed edge keys respect the lexicographic order.
proof fn lemma_edge_key_mono(n: int, f1: int, t1: int, f2: int, t2: int)
    by (nonlinear_arith)
    requires
        0 <= t1 < n + 1,
        0 <= t2 < n + 1,
        0 <= f1,
        0 <= f2,
        f1 < f2 || (f1 == f2 && t1 < t2),
    ensures
        f1 * (n + 1) + t1 < f2 * (n + 1) + t2,
{
}

/// The slots of any two conforming layouts agree.
#[verifier::rlimit(100)]
proof fn lemma_slots_deterministic(g: TopologyGraph, l1: GraphLayout, l2: GraphLayout)
    requires
        g.wf(),
        layout_matches(g, l1),
        layout_matches(g, l2),
    ensures
        l1.slots@ =~= l2.slots@,
{
    let ids1 = l1.slots@.map_values(|sl: LayoutSlot| sl.id as int);
    let ids2 = l2.slots@.map_values(|sl: LayoutSlot| sl.id as int);
    assert forall|x: int| ids1.contains(x) implies ids2.contains(x) by {
        let k = choose|k: int| 0 <= k < ids1.len() && ids1[k] == x;
        assert(g.contains_node(l1.slots@[k].id));
        let m = choose|m: int| 0 <= m < l2.slots@.len() && l2.slots@[m].id == l1.slots@[k].id;
        assert(ids2[m] == x);
    }
    assert forall|x: int| ids2.contains(x) implies ids1.contains(x) by {
        let k = choose|k: int| 0 <= k < ids2.len() && ids2[k] == x;
        assert(g.contains_node(l2.slots@[k].id));
        let m = choose|m: int| 0 <= m < l1.slots@.len() && l1.slots@[m].id == l2.slots@[k].id;
        assert(ids1[m] == x);
    }
    lemma_strictly_increasing_same_members(ids1, ids2);
    assert forall|k: int| 0 <= k < l1.slots@.len() implies l1.slots@[k] == l2.slots@[k] by {
        assert(ids1[k] == ids2[k]);
    }
    assert(l1.slots@ =~= l2.slots@);
}

#[verifier::rlimit(100)]
proof fn lemma_edges_deterministic(g: TopologyGraph, l1: GraphLayout, l2: GraphLayout)
    requires
        g.wf(),
        layout_matches(g, l1),
        layout_matches(g, l2),
        l1.slots@ == l2.slots@,
    ensures
        l1.edges@ =~= l2.edges@,
{
    let n = l1.slots@.len() as int;
    let keys1 = l1.edges@.map_values(|e: LayoutEdge| (e.from as int) * (n + 1) + (e.to as int));
    let keys2 = l2.edges@.map_values(|e: LayoutEdge| (e.from as int) * (n + 1) + (e.to as int));
    assert forall|i: int, j: int| 0 <= i < j < keys1.len() implies #[trigger] keys1[i] < (
    #[trigger] keys1[j]) by {
        let e1 = l1.edges@[i];
        let e2 = l1.edges@[j];
        lemma_edge_key_mono(n, e1.from as int, e1.to as int, e2.from as int, e2.to as int);
    }
    assert forall|i: int, j: int| 0 <= i < j < keys2.len() implies #[trigger] keys2[i] < (
    #[trigger] keys2[j]) by {
        let e1 = l2.edges@[i];
        let e2 = l2.edges@[j];
        lemma_edge_key_mono(n, e1.from as int, e1.to as int, e2.from as int, e2.to as int);
    }
    assert forall|x: int| keys1.contains(x) implies keys2.contains(x) by {
        let k = choose|k: int| 0 <= k < keys1.len() && keys1[k] == x;
        let e = l1.edges@[k];
        assert(g.has_edge(l2.slots@[e.from as int].id, l2.slots@[e.to as int].id));
        let m = choose|m: int|
            0 <= m < l2.edges@.len() && (#[trigger] l2.edges@[m]).from == e.from as int
                && l2.edges@[m].to == e.to as int;
        assert(keys2[m] == x);
    }
    assert forall|x: int| keys2.contains(x) implies keys1.contains(x) by {
        let k = choose|k: int| 0 <= k < keys2.len() && keys2[k] == x;
        let e = l2.edges@[k];
        assert(g.has_edge(l1.slots@[e.from as int].id, l1.slots@[e.to as int].id));
        let m = choose|m: int|
            0 <= m < l1.edges@.len() && (#[trigger] l1.edges@[m]).from == e.from as int
                && l1.edges@[m].to == e.to as int;
        assert(keys1[m] == x);
    }
    lemma_strictly_increasing_same_members(keys1, keys2);
    assert forall|k: int| 0 <= k < l1.edges@.len() implies l1.edges@[k] == l2.edges@[k] by {
        assert(keys1[k] == keys2[k]);
        let e1 = l1.edges@[k];
        let e2 = l2.edges@[k];
        lemma_edge_key_inject(n, e1.from as int, e1.to as int, e2.from as int, e2.to as int);
    }
}

/// Layout determinism: any two layouts of the same graph are identical, so
/// recomputing the layout of an unchanged topology can never move a node
/// or an edge.
pub proof fn lemma_layout_deterministic(g: TopologyGraph, l1: GraphLayout, l2: GraphLayout)
    requires
        g.wf(),
        layout_matches(g, l1),
        layout_matches(g, l2),
    ensures
        l1.slots@ =~= l2.slots@,
        l1.edges@ =~= l2.edges@,
{
    lemma_slots_deterministic(g, l1, l2);
    lemma_edges_deterministic(g, l1, l2);
}

} // verus!
