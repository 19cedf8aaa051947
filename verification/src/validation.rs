//! Structural safety rules: destructive operations must not leave a server
//! with fewer than two adjacent drones.

use vstd::prelude::*;

use crate::graph::NodeKind;
use crate::graph::TopologyGraph;

verus! {

/// How many entries of `s` are drones of `g` other than `excl`.
pub open spec fn count_drones_excl(g: TopologyGraph, s: Seq<u8>, excl: u8) -> nat {
    s.filter(|n: u8| g.contains_node(n) && g.kind_of(n) == NodeKind::Drone && n != excl).len()
}

/// How many drones neighbor `s`, not counting `excl`.
pub open spec fn drone_neighbor_count(g: TopologyGraph, s: u8, excl: u8) -> nat {
    count_drones_excl(g, g.adj_of(s), excl)
}

/// Removing drone `d` leaves every server with at least two adjacent drones.
pub open spec fn spec_can_remove_drone(g: TopologyGraph, d: u8) -> bool {
    forall|s: u8|
        g.contains_node(s) && #[trigger] g.kind_of(s) == NodeKind::Server ==> drone_neighbor_count(
            g,
            s,
            d,
        ) >= 2
}

/// The link from drone `d` to `target` may go: either `target` is no
/// server, or it keeps at least two other adjacent drones.
pub open spec fn spec_can_remove_sender_link(g: TopologyGraph, d: u8, target: u8) -> bool {
    if g.contains_node(target) && g.kind_of(target) == NodeKind::Server {
        drone_neighbor_count(g, target, d) >= 2
    } else {
        true
    }
}

/// Counts the drones adjacent to the node at index `i`, skipping `excl`.
fn count_drone_neighbors(g: &TopologyGraph, i: usize, excl: u8) -> (r: usize)
    requires
        g.wf(),
        0 <= i < g.nodes@.len(),
    ensures
        r == drone_neighbor_count(*g, g.nodes@[i as int].id, excl),
{
    proof {
        g.lemma_index_of(i as int);
    }
    let ghost s = g.nodes@[i as int].id;
    let mut count: usize = 0;
    let mut k: usize = 0;
    while k < g.nodes[i].adj.len()
        invariant
            g.wf(),
            0 <= i < g.nodes@.len(),
            g.nodes@[i as int].id == s,
            g.index_of(s) == i,
            g.contains_node(s),
            k <= g.nodes@[i as int].adj@.len(),
            count == count_drones_excl(*g, g.adj_of(s).take(k as int), excl),
            count <= k,
        decreases g.nodes@[i as int].adj@.len() - k,
    {
        let n = g.nodes[i].adj[k];
        let is_drone = match g.kind_lookup(n) {
            Some(NodeKind::Drone) => true,
            _ => false,
        };
        proof {
            assert(g.adj_of(s).take(k + 1).drop_last() == g.adj_of(s).take(k as int));
            reveal(Seq::filter);
            assert(g.adj_of(s).take(k + 1).last() == n);
        }
        if is_drone && n != excl {
            count += 1;
        }
        k += 1;
    }
    proof {
        assert(g.adj_of(s).take(g.adj_of(s).len() as int) == g.adj_of(s));
    }
    count
}

/// The first server that would fall below two adjacent drones if drone `d`
/// were removed, or `None` when every server keeps its coverage.
pub fn first_blocking_server(g: &TopologyGraph, d: u8) -> (r: Option<u8>)
    requires
        g.wf(),
    ensures
        r is None <==> spec_can_remove_drone(*g, d),
        r is Some ==> {
            &&& g.contains_node(r->0)
            &&& g.kind_of(r->0) == NodeKind::Server
            &&& drone_neighbor_count(*g, r->0, d) < 2
        },
{
    let mut i: usize = 0;
    while i < g.nodes.len()
        invariant
            g.wf(),
            i <= g.nodes@.len(),
            forall|j: int|
                0 <= j < i && (#[trigger] g.nodes@[j]).kind == NodeKind::Server
                    ==> drone_neighbor_count(*g, g.nodes@[j].id, d) >= 2,
        decreases g.nodes@.len() - i,
    {
        proof {
            g.lemma_index_of(i as int);
        }
        let is_server = match g.nodes[i].kind {
            NodeKind::Server => true,
            _ => false,
        };
        if is_server {
            if count_drone_neighbors(g, i, d) < 2 {
                return Some(g.nodes[i].id);
            }
        }
        i += 1;
    }
    proof {
        assert forall|s: u8|
            g.contains_node(s) && #[trigger] g.kind_of(s) == NodeKind::Server implies
            drone_neighbor_count(*g, s, d) >= 2 by {
            let j = g.index_of(s);
            assert(g.nodes@[j].kind == NodeKind::Server);
        }
    }
    None
}

/// Whether drone `d` may be removed outright: every server must keep at
/// least two adjacent drones without it.
pub fn can_remove_drone(g: &TopologyGraph, drone_id: u8) -> (r: bool)
    requires
        g.wf(),
    ensures
        r == spec_can_remove_drone(*g, drone_id),
{
    first_blocking_server(g, drone_id).is_none()
}

/// Whether the link from drone `drone_id` to `sender_id` may be removed:
/// always, unless `sender_id` is a server that would then keep fewer than
/// two adjacent drones.
pub fn can_remove_sender_drone(g: &TopologyGraph, drone_id: u8, sender_id: u8) -> (r: bool)
    requires
        g.wf(),
    ensures
        r == spec_can_remove_sender_link(*g, drone_id, sender_id),
{
    match g.find(sender_id) {
        None => true,
        Some(i) => {
            let is_server = match g.nodes[i].kind {
                NodeKind::Server => true,
                _ => false,
            };
            if !is_server {
                proof {
                    g.lemma_index_of(i as int);
                }
                true
            } else {
                proof {
                    g.lemma_index_of(i as int);
                }
                count_drone_neighbors(g, i, drone_id) >= 2
            }
        },
    }
}

} // verus!
