//! The command dispatcher and the topology mutations it performs.
//!
//! Each control operation is one transition over the shared state:
//! endpoint lookup, command send and graph mutation happen in a single
//! call whose contract ties them together, and every abort leaves the
//! state exactly as it was. The embedding holds the controller's one lock
//! across a call, so no observer can see a command sent without its graph
//! effect or the other way round.

use vstd::prelude::*;

use crate::channels::channel_try_send;
use crate::channels::clone_sender;
use crate::channels::SendOutcome;
use crate::controller::CommsEndpoint;
use crate::controller::DroneCmd;
use crate::controller::DroneEndpoint;
use crate::controller::NodeCmd;
use crate::controller::NodeEndpoint;
use crate::controller::Packet;
use crate::controller::SimulationController;
use crate::graph::NodeKind;
use crate::validation::can_remove_sender_drone;
use crate::validation::first_blocking_server;
use crate::validation::spec_can_remove_drone;
use crate::validation::spec_can_remove_sender_link;
use crate::graph::del_adj;
use crate::graph::TopologyGraph;
use crate::ControllerError;

verus! {

/// The adjacency list with one neighbor added, unless already present.
pub open spec fn add_adj(s: Seq<u8>, x: u8) -> Seq<u8> {
    if s.contains(x) {
        s
    } else {
        s.push(x)
    }
}

/// The two graphs have the same nodes, ids and kinds, position by position.
pub open spec fn same_shape(g1: TopologyGraph, g2: TopologyGraph) -> bool {
    &&& g2.nodes@.len() == g1.nodes@.len()
    &&& forall|i: int|
        0 <= i < g1.nodes@.len() ==> (#[trigger] g2.nodes@[i]).id == g1.nodes@[i].id
            && g2.nodes@[i].kind == g1.nodes@[i].kind
}

/// `g2` is `g1` after inserting the link between `a` and `b`: `b` joins
/// `a`'s adjacency and `a` joins `b`'s, where each endpoint exists.
pub open spec fn add_edge_post(g1: TopologyGraph, g2: TopologyGraph, a: u8, b: u8) -> bool {
    &&& same_shape(g1, g2)
    &&& forall|i: int|
        0 <= i < g1.nodes@.len() ==> (#[trigger] g2.nodes@[i]).adj@ == (if g1.nodes@[i].id == a {
            add_adj(g1.nodes@[i].adj@, b)
        } else if g1.nodes@[i].id == b {
            add_adj(g1.nodes@[i].adj@, a)
        } else {
            g1.nodes@[i].adj@
        })
}

/// `g2` is `g1` after removing the link between `a` and `b` from both
/// sides.
pub open spec fn remove_edge_post(g1: TopologyGraph, g2: TopologyGraph, a: u8, b: u8) -> bool {
    &&& same_shape(g1, g2)
    &&& forall|i: int|
        0 <= i < g1.nodes@.len() ==> (#[trigger] g2.nodes@[i]).adj@ == (if g1.nodes@[i].id == a {
            del_adj(g1.nodes@[i].adj@, b)
        } else if g1.nodes@[i].id == b {
            del_adj(g1.nodes@[i].adj@, a)
        } else {
            g1.nodes@[i].adj@
        })
}

/// Membership and uniqueness facts about `add_adj`.
proof fn lemma_add_adj_props(s: Seq<u8>, x: u8)
    ensures
        forall|y: u8| add_adj(s, x).contains(y) <==> (s.contains(y) || y == x),
        s.no_duplicates() ==> add_adj(s, x).no_duplicates(),
{
    if s.contains(x) {
    } else {
        let t = s.push(x);
        assert(t.last() == x);
        assert(t.contains(x));
        assert forall|y: u8| t.contains(y) implies (s.contains(y) || y == x) by {
            let k = choose|k: int| 0 <= k < t.len() && t[k] == y;
            if k < s.len() {
                assert(s[k] == y);
            }
        }
        assert forall|y: u8| s.contains(y) implies t.contains(y) by {
            let k = choose|k: int| 0 <= k < s.len() && s[k] == y;
            assert(t[k] == y);
        }
        if s.no_duplicates() {
            assert forall|i: int, j: int| 0 <= i < j < t.len() implies t[i] != t[j] by {
                if j == s.len() {
                    assert(t[i] == s[i]);
                    assert(s.contains(s[i]));
                }
            }
        }
    }
}

/// Membership and uniqueness facts about `del_adj`.
proof fn lemma_del_adj_props(s: Seq<u8>, x: u8)
    ensures
        forall|y: u8| del_adj(s, x).contains(y) <==> (s.contains(y) && y != x),
        s.no_duplicates() ==> del_adj(s, x).no_duplicates(),
    decreases s.len(),
{
    reveal(Seq::filter);
    if s.len() == 0 {
        assert(del_adj(s, x) =~= Seq::<u8>::empty());
    } else {
        let dl = s.drop_last();
        lemma_del_adj_props(dl, x);
        assert(del_adj(s, x) == if s.last() != x {
            del_adj(dl, x).push(s.last())
        } else {
            del_adj(dl, x)
        });
        assert forall|y: u8| del_adj(s, x).contains(y) implies (s.contains(y) && y != x) by {
            let k = choose|k: int| 0 <= k < del_adj(s, x).len() && del_adj(s, x)[k] == y;
            if s.last() != x && k == del_adj(s, x).len() - 1 {
                assert(y == s.last());
                assert(s.contains(s.last()));
            } else {
                if s.last() != x {
                    assert(del_adj(s, x)[k] == del_adj(dl, x).push(s.last())[k]);
                    assert(0 <= k < del_adj(dl, x).len());
                    assert(del_adj(dl, x)[k] == y);
                } else {
                    assert(0 <= k < del_adj(dl, x).len());
                    assert(del_adj(dl, x)[k] == y);
                }
                assert(del_adj(dl, x).contains(y));
                assert(dl.contains(y));
                let m = choose|m: int| 0 <= m < dl.len() && dl[m] == y;
                assert(s[m] == dl[m]);
                assert(s.contains(y));
            }
        }
        assert forall|y: u8| s.contains(y) && y != x implies del_adj(s, x).contains(y) by {
            let k = choose|k: int| 0 <= k < s.len() && s[k] == y;
            if k < dl.len() {
                assert(dl[k] == y);
                assert(del_adj(dl, x).contains(y));
                let m = choose|m: int| 0 <= m < del_adj(dl, x).len() && del_adj(dl, x)[m] == y;
                assert(del_adj(s, x)[m] == y);
            } else {
                assert(y == s.last());
                assert(del_adj(s, x).last() == y);
            }
        }
        if s.no_duplicates() {
            assert(dl.no_duplicates());
            if s.last() != x {
                assert(!dl.contains(s.last()));
                assert(!del_adj(dl, x).contains(s.last()));
                let t = del_adj(dl, x).push(s.last());
                assert forall|i: int, j: int| 0 <= i < j < t.len() implies t[i] != t[j] by {
                    if j == t.len() - 1 {
                        assert(t[i] == del_adj(dl, x)[i]);
                        assert(del_adj(dl, x).contains(del_adj(dl, x)[i]));
                    }
                }
            }
        }
    }
}

/// Shared consequences of a shape-preserving adjacency update: membership,
/// indices and kinds carry over.
proof fn lemma_same_shape_indices(g1: TopologyGraph, g2: TopologyGraph)
    requires
        g1.wf(),
        same_shape(g1, g2),
    ensures
        forall|id: u8| g1.contains_node(id) <==> g2.contains_node(id),
        forall|id: u8|
            #![trigger g2.index_of(id)]
            g1.contains_node(id) ==> g2.index_of(id) == g1.index_of(id) && g2.kind_of(id)
                == g1.kind_of(id),
        forall|i: int, j: int|
            0 <= i < j < g2.nodes@.len() ==> (#[trigger] g2.nodes@[i]).id != (
            #[trigger] g2.nodes@[j]).id,
{
    assert forall|id: u8| g1.contains_node(id) implies g2.contains_node(id) by {
        let i = choose|i: int| 0 <= i < g1.nodes@.len() && g1.nodes@[i].id == id;
        assert(g2.nodes@[i].id == id);
    }
    assert forall|id: u8| g2.contains_node(id) implies g1.contains_node(id) by {
        let i = choose|i: int| 0 <= i < g2.nodes@.len() && g2.nodes@[i].id == id;
        assert(g1.nodes@[i].id == id);
    }
    assert forall|id: u8| g1.contains_node(id) implies #[trigger] g2.index_of(id)
        == g1.index_of(id) && g2.kind_of(id) == g1.kind_of(id) by {
        let i1 = g1.index_of(id);
        g1.lemma_index_of(i1);
        let i2 = g2.index_of(id);
        assert(g2.nodes@[i1].id == id);
        assert(0 <= i2 < g2.nodes@.len() && g2.nodes@[i2].id == id);
        if i1 < i2 {
            assert(g1.nodes@[i1].id != g1.nodes@[i2].id);
        } else if i2 < i1 {
            assert(g1.nodes@[i2].id != g1.nodes@[i1].id);
        }
    }
}

/// Inserting a link keeps the graph well-formed and symmetric.
proof fn lemma_add_edge_preserves(g1: TopologyGraph, g2: TopologyGraph, a: u8, b: u8)
    requires
        g1.wf(),
        g1.symmetric(),
        add_edge_post(g1, g2, a, b),
    ensures
        g2.wf(),
        g2.symmetric(),
{
    lemma_same_shape_indices(g1, g2);
    assert forall|i: int| 0 <= i < g2.nodes@.len() implies (
    #[trigger] g2.nodes@[i]).adj@.no_duplicates() by {
        lemma_add_adj_props(g1.nodes@[i].adj@, b);
        lemma_add_adj_props(g1.nodes@[i].adj@, a);
    }
    assert(g2.wf());
    assert forall|x: u8, y: u8|
        g2.contains_node(x) && g2.contains_node(y) && #[trigger] g2.has_edge(x, y) implies
        #[trigger] g2.has_edge(y, x) by {
        let i = g2.index_of(x);
        assert(i == g1.index_of(x));
        lemma_add_adj_props(g1.nodes@[i].adj@, b);
        lemma_add_adj_props(g1.nodes@[i].adj@, a);
        let j = g2.index_of(y);
        assert(j == g1.index_of(y));
        g1.lemma_index_of(j);
        lemma_add_adj_props(g1.nodes@[j].adj@, b);
        lemma_add_adj_props(g1.nodes@[j].adj@, a);
        if g1.has_edge(x, y) {
            assert(g1.has_edge(y, x));
            assert(g1.nodes@[j].adj@.contains(x));
        } else {
            assert((x == a && y == b) || (x == b && y == a));
        }
    }
}

/// Removing a link keeps the graph well-formed and symmetric.
proof fn lemma_remove_edge_preserves(g1: TopologyGraph, g2: TopologyGraph, a: u8, b: u8)
    requires
        g1.wf(),
        g1.symmetric(),
        remove_edge_post(g1, g2, a, b),
    ensures
        g2.wf(),
        g2.symmetric(),
{
    lemma_same_shape_indices(g1, g2);
    assert forall|i: int| 0 <= i < g2.nodes@.len() implies (
    #[trigger] g2.nodes@[i]).adj@.no_duplicates() by {
        lemma_del_adj_props(g1.nodes@[i].adj@, b);
        lemma_del_adj_props(g1.nodes@[i].adj@, a);
    }
    assert(g2.wf());
    assert forall|x: u8, y: u8|
        g2.contains_node(x) && g2.contains_node(y) && #[trigger] g2.has_edge(x, y) implies
        #[trigger] g2.has_edge(y, x) by {
        let i = g2.index_of(x);
        assert(i == g1.index_of(x));
        lemma_del_adj_props(g1.nodes@[i].adj@, b);
        lemma_del_adj_props(g1.nodes@[i].adj@, a);
        assert(g1.nodes@[i].adj@.contains(y));
        assert(g1.has_edge(x, y));
        assert(g1.has_edge(y, x));
        let j = g2.index_of(y);
        assert(j == g1.index_of(y));
        g1.lemma_index_of(j);
        lemma_del_adj_props(g1.nodes@[j].adj@, b);
        lemma_del_adj_props(g1.nodes@[j].adj@, a);
        if g1.nodes@[i].id == a && y == b {
            assert(g2.nodes@[i].adj@ == del_adj(g1.nodes@[i].adj@, b));
            assert(!g2.nodes@[i].adj@.contains(b));
        }
        if g1.nodes@[i].id == b && y == a {
            assert(!g2.nodes@[i].adj@.contains(a));
        }
        assert(g2.nodes@[j].adj@.contains(x));
    }
}

/// Adds the link between the two ids to both adjacency lists, where each
/// endpoint exists; elsewhere the graph is untouched.
pub(crate) fn add_edge(node_id: u8, args_node_id: u8, sc: &mut SimulationController)
    requires
        old(sc).wf(),
    ensures
        final(sc).wf(),
        add_edge_post(old(sc).graph, final(sc).graph, node_id, args_node_id),
        final(sc).running == old(sc).running,
        final(sc).clients == old(sc).clients,
        final(sc).servers == old(sc).servers,
        final(sc).drones == old(sc).drones,
        final(sc).comms == old(sc).comms,
        final(sc).logger == old(sc).logger,
{
    let n = sc.graph.nodes.len();
    let mut i: usize = 0;
    while i < n
        invariant
            old(sc).wf(),
            n == old(sc).graph.nodes@.len(),
            i <= n,
            sc.graph.nodes@.len() == n,
            sc.running == old(sc).running,
            sc.clients == old(sc).clients,
            sc.servers == old(sc).servers,
            sc.drones == old(sc).drones,
            sc.comms == old(sc).comms,
            sc.logger == old(sc).logger,
            forall|j: int| i <= j < n ==> sc.graph.nodes@[j] == old(sc).graph.nodes@[j],
            forall|j: int|
                0 <= j < i ==> (#[trigger] sc.graph.nodes@[j]).id == old(sc).graph.nodes@[j].id
                    && sc.graph.nodes@[j].kind == old(sc).graph.nodes@[j].kind
                    && sc.graph.nodes@[j].adj@ == (if old(sc).graph.nodes@[j].id == node_id {
                    add_adj(old(sc).graph.nodes@[j].adj@, args_node_id)
                } else if old(sc).graph.nodes@[j].id == args_node_id {
                    add_adj(old(sc).graph.nodes@[j].adj@, node_id)
                } else {
                    old(sc).graph.nodes@[j].adj@
                }),
        decreases n - i,
    {
        let ghost pre = sc.graph.nodes@;
        let nid = sc.graph.nodes[i].id;
        if nid == node_id {
            sc.graph.nodes[i].add_adjacent(args_node_id);
        } else if nid == args_node_id {
            sc.graph.nodes[i].add_adjacent(node_id);
        }
        proof {
            assert forall|j: int|
                0 <= j < i + 1 implies (#[trigger] sc.graph.nodes@[j]).id == old(
                sc,
            ).graph.nodes@[j].id && sc.graph.nodes@[j].kind == old(sc).graph.nodes@[j].kind
                && sc.graph.nodes@[j].adj@ == (if old(sc).graph.nodes@[j].id == node_id {
                add_adj(old(sc).graph.nodes@[j].adj@, args_node_id)
            } else if old(sc).graph.nodes@[j].id == args_node_id {
                add_adj(old(sc).graph.nodes@[j].adj@, node_id)
            } else {
                old(sc).graph.nodes@[j].adj@
            }) by {
                if j < i {
                    assert(sc.graph.nodes@[j] == pre[j]);
                } else {
                    assert(pre[i as int] == old(sc).graph.nodes@[i as int]);
                    if pre[i as int].id == node_id {
                        assert(sc.graph.nodes@[i as int].adj@ == add_adj(
                            pre[i as int].adj@,
                            args_node_id,
                        ));
                    } else if pre[i as int].id == args_node_id {
                        assert(sc.graph.nodes@[i as int].adj@ == add_adj(
                            pre[i as int].adj@,
                            node_id,
                        ));
                    } else {
                        assert(sc.graph.nodes@[i as int] == pre[i as int]);
                    }
                }
            }
        }
        i += 1;
    }
    proof {
        lemma_add_edge_preserves(old(sc).graph, sc.graph, node_id, args_node_id);
    }
}

/// Removes the link between the two ids from both adjacency lists.
pub(crate) fn remove_edge(node_id: u8, args_node_id: u8, sc: &mut SimulationController)
    requires
        old(sc).wf(),
    ensures
        final(sc).wf(),
        remove_edge_post(old(sc).graph, final(sc).graph, node_id, args_node_id),
        final(sc).running == old(sc).running,
        final(sc).clients == old(sc).clients,
        final(sc).servers == old(sc).servers,
        final(sc).drones == old(sc).drones,
        final(sc).comms == old(sc).comms,
        final(sc).logger == old(sc).logger,
{
    let n = sc.graph.nodes.len();
    let mut i: usize = 0;
    while i < n
        invariant
            old(sc).wf(),
            n == old(sc).graph.nodes@.len(),
            i <= n,
            sc.graph.nodes@.len() == n,
            sc.running == old(sc).running,
            sc.clients == old(sc).clients,
            sc.servers == old(sc).servers,
            sc.drones == old(sc).drones,
            sc.comms == old(sc).comms,
            sc.logger == old(sc).logger,
            forall|j: int| i <= j < n ==> sc.graph.nodes@[j] == old(sc).graph.nodes@[j],
            forall|j: int|
                0 <= j < i ==> (#[trigger] sc.graph.nodes@[j]).id == old(sc).graph.nodes@[j].id
                    && sc.graph.nodes@[j].kind == old(sc).graph.nodes@[j].kind
                    && sc.graph.nodes@[j].adj@ == (if old(sc).graph.nodes@[j].id == node_id {
                    del_adj(old(sc).graph.nodes@[j].adj@, args_node_id)
                } else if old(sc).graph.nodes@[j].id == args_node_id {
                    del_adj(old(sc).graph.nodes@[j].adj@, node_id)
                } else {
                    old(sc).graph.nodes@[j].adj@
                }),
        decreases n - i,
    {
        let ghost pre = sc.graph.nodes@;
        let nid = sc.graph.nodes[i].id;
        if nid == node_id {
            sc.graph.nodes[i].remove_adjacent(args_node_id);
        } else if nid == args_node_id {
            sc.graph.nodes[i].remove_adjacent(node_id);
        }
        proof {
            assert forall|j: int|
                0 <= j < i + 1 implies (#[trigger] sc.graph.nodes@[j]).id == old(
                sc,
            ).graph.nodes@[j].id && sc.graph.nodes@[j].kind == old(sc).graph.nodes@[j].kind
                && sc.graph.nodes@[j].adj@ == (if old(sc).graph.nodes@[j].id == node_id {
                del_adj(old(sc).graph.nodes@[j].adj@, args_node_id)
            } else if old(sc).graph.nodes@[j].id == args_node_id {
                del_adj(old(sc).graph.nodes@[j].adj@, node_id)
            } else {
                old(sc).graph.nodes@[j].adj@
            }) by {
                if j < i {
                    assert(sc.graph.nodes@[j] == pre[j]);
                } else {
                    assert(pre[i as int] == old(sc).graph.nodes@[i as int]);
                    if pre[i as int].id == node_id {
                        assert(sc.graph.nodes@[i as int].adj@ == del_adj(
                            pre[i as int].adj@,
                            args_node_id,
                        ));
                    } else if pre[i as int].id == args_node_id {
                        assert(sc.graph.nodes@[i as int].adj@ == del_adj(
                            pre[i as int].adj@,
                            node_id,
                        ));
                    } else {
                        assert(sc.graph.nodes@[i as int] == pre[i as int]);
                    }
                }
            }
        }
        i += 1;
    }
    proof {
        lemma_remove_edge_preserves(old(sc).graph, sc.graph, node_id, args_node_id);
    }
}


/// `news` is `olds` with the transport endpoint of this id gone, when
/// there was one.
pub open spec fn comms_registry_without(
    olds: Seq<CommsEndpoint>,
    news: Seq<CommsEndpoint>,
    id: u8,
) -> bool {
    if exists|k: int| 0 <= k < olds.len() && (#[trigger] olds[k]).id == id {
        news == olds.remove(choose|k: int| 0 <= k < olds.len() && (#[trigger] olds[k]).id == id)
    } else {
        news == olds
    }
}

/// `del_adj` leaves a list without the removed id untouched.
proof fn lemma_del_adj_absent(s: Seq<u8>, x: u8)
    requires
        !s.contains(x),
    ensures
        del_adj(s, x) == s,
    decreases s.len(),
{
    reveal(Seq::filter);
    if s.len() == 0 {
        assert(del_adj(s, x) =~= s);
    } else {
        let dl = s.drop_last();
        assert forall|j: int| 0 <= j < dl.len() implies dl[j] != x by {
            assert(s[j] == dl[j]);
            assert(!s.contains(x));
        }
        if dl.contains(x) {
            let j = choose|j: int| 0 <= j < dl.len() && dl[j] == x;
            assert(s[j] == x);
        }
        lemma_del_adj_absent(dl, x);
        assert(s.last() != x);
        assert(del_adj(s, x) == del_adj(dl, x).push(s.last()));
        assert(del_adj(s, x) =~= s);
    }
}


/// Adding a link and removing it again restores every adjacency list
/// exactly, provided the link was absent to begin with.
pub proof fn lemma_add_remove_edge_inverse(
    g0: TopologyGraph,
    g1: TopologyGraph,
    g2: TopologyGraph,
    a: u8,
    b: u8,
)
    requires
        g0.wf(),
        !g0.has_edge(a, b),
        !g0.has_edge(b, a),
        add_edge_post(g0, g1, a, b),
        remove_edge_post(g1, g2, a, b),
    ensures
        g2.nodes@.len() == g0.nodes@.len(),
        forall|i: int|
            0 <= i < g0.nodes@.len() ==> (#[trigger] g2.nodes@[i]).id == g0.nodes@[i].id
                && g2.nodes@[i].kind == g0.nodes@[i].kind && g2.nodes@[i].adj@
                == g0.nodes@[i].adj@,
{
    assert forall|i: int|
        0 <= i < g0.nodes@.len() implies (#[trigger] g2.nodes@[i]).id == g0.nodes@[i].id
        && g2.nodes@[i].kind == g0.nodes@[i].kind && g2.nodes@[i].adj@ == g0.nodes@[i].adj@ by {
        let s0 = g0.nodes@[i].adj@;
        g0.lemma_index_of(i);
        reveal(Seq::filter);
        if g0.nodes@[i].id == a {
            assert(g0.index_of(a) == i);
            assert(!s0.contains(b));
            assert(g1.nodes@[i].adj@ == s0.push(b));
            assert(g2.nodes@[i].adj@ == del_adj(s0.push(b), b));
            assert(s0.push(b).drop_last() == s0);
            assert(s0.push(b).last() == b);
            assert(del_adj(s0.push(b), b) == del_adj(s0, b));
            lemma_del_adj_absent(s0, b);
        } else if g0.nodes@[i].id == b {
            assert(g0.index_of(b) == i);
            assert(!s0.contains(a));
            assert(g1.nodes@[i].adj@ == s0.push(a));
            assert(g2.nodes@[i].adj@ == del_adj(s0.push(a), a));
            assert(s0.push(a).drop_last() == s0);
            assert(s0.push(a).last() == a);
            assert(del_adj(s0.push(a), a) == del_adj(s0, a));
            lemma_del_adj_absent(s0, a);
        } else {
            assert(g1.nodes@[i].adj@ == s0);
            assert(g2.nodes@[i].adj@ == s0);
        }
    }
}


/// `g2` is `g1` with the node of this id gone and the id dropped from
/// every remaining adjacency list.
pub open spec fn remove_node_post(g1: TopologyGraph, g2: TopologyGraph, id: u8) -> bool {
    if g1.contains_node(id) {
        let k = g1.index_of(id);
        &&& g2.nodes@.len() == g1.nodes@.len() - 1
        &&& forall|j: int|
            0 <= j < g2.nodes@.len() ==> {
                let srcn = if j < k {
                    g1.nodes@[j]
                } else {
                    g1.nodes@[j + 1]
                };
                (#[trigger] g2.nodes@[j]).id == srcn.id && g2.nodes@[j].kind == srcn.kind
                    && g2.nodes@[j].adj@ == del_adj(srcn.adj@, id)
            }
    } else {
        &&& g2.nodes@.len() == g1.nodes@.len()
        &&& forall|j: int|
            0 <= j < g2.nodes@.len() ==> (#[trigger] g2.nodes@[j]).id == g1.nodes@[j].id
                && g2.nodes@[j].kind == g1.nodes@[j].kind && g2.nodes@[j].adj@ == del_adj(
                g1.nodes@[j].adj@,
                id,
            )
    }
}

/// `news` is `olds` with the endpoint of this id gone, when there was one.
pub open spec fn node_registry_without(olds: Seq<NodeEndpoint>, news: Seq<NodeEndpoint>, id: u8) -> bool {
    if exists|k: int| 0 <= k < olds.len() && (#[trigger] olds[k]).id == id {
        news == olds.remove(choose|k: int| 0 <= k < olds.len() && (#[trigger] olds[k]).id == id)
    } else {
        news == olds
    }
}

/// `news` is `olds` with the drone endpoint of this id gone, when there
/// was one.
pub open spec fn drone_registry_without(
    olds: Seq<DroneEndpoint>,
    news: Seq<DroneEndpoint>,
    id: u8,
) -> bool {
    if exists|k: int| 0 <= k < olds.len() && (#[trigger] olds[k]).id == id {
        news == olds.remove(choose|k: int| 0 <= k < olds.len() && (#[trigger] olds[k]).id == id)
    } else {
        news == olds
    }
}

/// Removing a node keeps the graph well-formed and symmetric.
proof fn lemma_remove_node_preserves(g1: TopologyGraph, g2: TopologyGraph, id: u8)
    requires
        g1.wf(),
        g1.symmetric(),
        remove_node_post(g1, g2, id),
    ensures
        g2.wf(),
        g2.symmetric(),
        !g2.contains_node(id),
{
    let k: int = if g1.contains_node(id) {
        g1.index_of(id)
    } else {
        g1.nodes@.len() as int
    };
    if g1.contains_node(id) {
        g1.lemma_index_of(k);
    }
    let src_of = |j: int| if j < k { j } else { j + 1 };
    assert forall|j: int| 0 <= j < g2.nodes@.len() implies (#[trigger] g2.nodes@[j]).id
        == g1.nodes@[src_of(j)].id && g2.nodes@[j].kind == g1.nodes@[src_of(j)].kind
        && g2.nodes@[j].adj@ == del_adj(g1.nodes@[src_of(j)].adj@, id) by {}
    assert forall|j: int| 0 <= j < g2.nodes@.len() implies (#[trigger] g2.nodes@[j]).id != id by {
        if g1.contains_node(id) {
            let sj = src_of(j);
            if sj < k {
                assert(g1.nodes@[sj].id != g1.nodes@[k].id);
            } else {
                assert(g1.nodes@[k].id != g1.nodes@[sj].id);
            }
        } else {
            assert(g1.contains_node(g1.nodes@[src_of(j)].id));
        }
    }
    assert(!g2.contains_node(id));
    assert forall|i: int, j: int|
        0 <= i < j < g2.nodes@.len() implies (#[trigger] g2.nodes@[i]).id != (
    #[trigger] g2.nodes@[j]).id by {
        assert(g1.nodes@[src_of(i)].id != g1.nodes@[src_of(j)].id);
    }
    assert forall|i: int| 0 <= i < g2.nodes@.len() implies (
    #[trigger] g2.nodes@[i]).adj@.no_duplicates() by {
        lemma_del_adj_props(g1.nodes@[src_of(i)].adj@, id);
    }
    assert(g2.wf());
    assert forall|x: u8, y: u8|
        g2.contains_node(x) && g2.contains_node(y) && #[trigger] g2.has_edge(x, y) implies
        #[trigger] g2.has_edge(y, x) by {
        let i2 = g2.index_of(x);
        let i1 = src_of(i2);
        g1.lemma_index_of(i1);
        assert(g1.index_of(x) == i1);
        lemma_del_adj_props(g1.nodes@[i1].adj@, id);
        assert(g2.nodes@[i2].adj@.contains(y));
        assert(g1.nodes@[i1].adj@.contains(y) && y != id);
        assert(g1.has_edge(x, y));
        let j2 = g2.index_of(y);
        let j1 = src_of(j2);
        g1.lemma_index_of(j1);
        assert(g1.index_of(y) == j1);
        assert(g1.has_edge(y, x));
        assert(g1.nodes@[j1].adj@.contains(x));
        lemma_del_adj_props(g1.nodes@[j1].adj@, id);
        assert(x != id);
        assert(g2.nodes@[j2].adj@.contains(x));
    }
}

impl SimulationController {
    /// Whether any registry holds an endpoint for this id.
    fn has_endpoint_check(&self, id: u8) -> (r: bool)
        ensures
            r == self.has_endpoint(id),
    {
        self.find_drone(id).is_some() || self.find_client(id).is_some() || self.find_server(
            id,
        ).is_some()
    }

}

/// A sequence with one element removed keeps its ids pairwise distinct.
proof fn lemma_node_registry_remove_unique(olds: Seq<NodeEndpoint>, news: Seq<NodeEndpoint>, id: u8)
    requires
        forall|i: int, j: int|
            0 <= i < j < olds.len() ==> (#[trigger] olds[i]).id != (#[trigger] olds[j]).id,
        node_registry_without(olds, news, id),
    ensures
        forall|i: int, j: int|
            0 <= i < j < news.len() ==> (#[trigger] news[i]).id != (#[trigger] news[j]).id,
{
    if exists|k: int| 0 <= k < olds.len() && (#[trigger] olds[k]).id == id {
        let k = choose|k: int| 0 <= k < olds.len() && (#[trigger] olds[k]).id == id;
        assert forall|i: int, j: int|
            0 <= i < j < news.len() implies (#[trigger] news[i]).id != (#[trigger] news[j]).id by {
            let i1: int = if i < k {
                i
            } else {
                i + 1
            };
            let j1: int = if j < k {
                j
            } else {
                j + 1
            };
            assert(olds[i1].id != olds[j1].id);
        }
    }
}

/// As `lemma_node_registry_remove_unique`, for drone endpoints.
proof fn lemma_drone_registry_remove_unique(
    olds: Seq<DroneEndpoint>,
    news: Seq<DroneEndpoint>,
    id: u8,
)
    requires
        forall|i: int, j: int|
            0 <= i < j < olds.len() ==> (#[trigger] olds[i]).id != (#[trigger] olds[j]).id,
        forall|i: int| 0 <= i < olds.len() ==> (#[trigger] olds[i]).rate_hundredths <= 10000,
        drone_registry_without(olds, news, id),
    ensures
        forall|i: int, j: int|
            0 <= i < j < news.len() ==> (#[trigger] news[i]).id != (#[trigger] news[j]).id,
        forall|i: int| 0 <= i < news.len() ==> (#[trigger] news[i]).rate_hundredths <= 10000,
{
    if exists|k: int| 0 <= k < olds.len() && (#[trigger] olds[k]).id == id {
        let k = choose|k: int| 0 <= k < olds.len() && (#[trigger] olds[k]).id == id;
        assert forall|i: int, j: int|
            0 <= i < j < news.len() implies (#[trigger] news[i]).id != (#[trigger] news[j]).id by {
            let i1: int = if i < k {
                i
            } else {
                i + 1
            };
            let j1: int = if j < k {
                j
            } else {
                j + 1
            };
            assert(olds[i1].id != olds[j1].id);
        }
        assert forall|i: int| 0 <= i < news.len() implies (
        #[trigger] news[i]).rate_hundredths <= 10000 by {
            if i < k {
                assert(news[i] == olds[i]);
                assert(olds[i].rate_hundredths <= 10000);
            } else {
                assert(news[i] == olds[i + 1]);
                assert(olds[i + 1].rate_hundredths <= 10000);
            }
        }
    } else {
        assert forall|i: int| 0 <= i < news.len() implies (
        #[trigger] news[i]).rate_hundredths <= 10000 by {
            assert(news[i] == olds[i]);
            assert(olds[i].rate_hundredths <= 10000);
        }
    }
}

/// As `lemma_node_registry_remove_unique`, for transport endpoints.
proof fn lemma_comms_registry_remove_unique(
    olds: Seq<CommsEndpoint>,
    news: Seq<CommsEndpoint>,
    id: u8,
)
    requires
        forall|i: int, j: int|
            0 <= i < j < olds.len() ==> (#[trigger] olds[i]).id != (#[trigger] olds[j]).id,
        comms_registry_without(olds, news, id),
    ensures
        forall|i: int, j: int|
            0 <= i < j < news.len() ==> (#[trigger] news[i]).id != (#[trigger] news[j]).id,
{
    if exists|k: int| 0 <= k < olds.len() && (#[trigger] olds[k]).id == id {
        let k = choose|k: int| 0 <= k < olds.len() && (#[trigger] olds[k]).id == id;
        assert forall|i: int, j: int|
            0 <= i < j < news.len() implies (#[trigger] news[i]).id != (#[trigger] news[j]).id by {
            let i1: int = if i < k {
                i
            } else {
                i + 1
            };
            let j1: int = if j < k {
                j
            } else {
                j + 1
            };
            assert(olds[i1].id != olds[j1].id);
        }
    }
}

/// Removes the node from the graph, drops its id from every remaining
/// adjacency list, and drops its endpoints from the three command
/// registries and the transport map, as one operation.
pub fn remove_node(node_id: u8, sc: &mut SimulationController)
    requires
        old(sc).wf(),
    ensures
        final(sc).wf(),
        remove_node_post(old(sc).graph, final(sc).graph, node_id),
        node_registry_without(old(sc).clients@, final(sc).clients@, node_id),
        node_registry_without(old(sc).servers@, final(sc).servers@, node_id),
        drone_registry_without(old(sc).drones@, final(sc).drones@, node_id),
        comms_registry_without(old(sc).comms@, final(sc).comms@, node_id),
        final(sc).running == old(sc).running,
        final(sc).logger == old(sc).logger,
{
    let ghost g1 = sc.graph;
    match sc.graph.find(node_id) {
        Some(k) => {
            sc.graph.nodes.remove(k);
        },
        None => {},
    }
    let ghost gmid = sc.graph;
    let n = sc.graph.nodes.len();
    let mut i: usize = 0;
    while i < n
        invariant
            n == gmid.nodes@.len(),
            i <= n,
            sc.graph.nodes@.len() == n,
            sc.running == old(sc).running,
            sc.clients == old(sc).clients,
            sc.servers == old(sc).servers,
            sc.drones == old(sc).drones,
            sc.comms == old(sc).comms,
            sc.logger == old(sc).logger,
            forall|j: int| i <= j < n ==> sc.graph.nodes@[j] == gmid.nodes@[j],
            forall|j: int|
                0 <= j < i ==> (#[trigger] sc.graph.nodes@[j]).id == gmid.nodes@[j].id
                    && sc.graph.nodes@[j].kind == gmid.nodes@[j].kind && sc.graph.nodes@[j].adj@
                    == del_adj(gmid.nodes@[j].adj@, node_id),
        decreases n - i,
    {
        let ghost pre = sc.graph.nodes@;
        sc.graph.nodes[i].remove_adjacent(node_id);
        proof {
            assert forall|j: int|
                0 <= j < i + 1 implies (#[trigger] sc.graph.nodes@[j]).id == gmid.nodes@[j].id
                && sc.graph.nodes@[j].kind == gmid.nodes@[j].kind && sc.graph.nodes@[j].adj@
                == del_adj(gmid.nodes@[j].adj@, node_id) by {
                if j < i {
                    assert(sc.graph.nodes@[j] == pre[j]);
                } else {
                    assert(pre[i as int] == gmid.nodes@[i as int]);
                }
            }
        }
        i += 1;
    }
    proof {
        if g1.contains_node(node_id) {
            let k = g1.index_of(node_id);
            assert(gmid.nodes@ == g1.nodes@.remove(k));
        } else {
            assert(gmid == g1);
        }
        assert(remove_node_post(g1, sc.graph, node_id));
        lemma_remove_node_preserves(g1, sc.graph, node_id);
    }
    let ghost s_before = *sc;
    self_remove_registries(node_id, sc);
    proof {
        lemma_node_registry_remove_unique(s_before.clients@, sc.clients@, node_id);
        lemma_node_registry_remove_unique(s_before.servers@, sc.servers@, node_id);
        lemma_drone_registry_remove_unique(s_before.drones@, sc.drones@, node_id);
        lemma_comms_registry_remove_unique(s_before.comms@, sc.comms@, node_id);
    }
}

/// Drops the id's endpoints from the three registries.
fn self_remove_registries(node_id: u8, sc: &mut SimulationController)
    requires
        forall|i: int, j: int|
            0 <= i < j < old(sc).clients@.len() ==> (#[trigger] old(sc).clients@[i]).id != (
            #[trigger] old(sc).clients@[j]).id,
        forall|i: int, j: int|
            0 <= i < j < old(sc).servers@.len() ==> (#[trigger] old(sc).servers@[i]).id != (
            #[trigger] old(sc).servers@[j]).id,
        forall|i: int, j: int|
            0 <= i < j < old(sc).drones@.len() ==> (#[trigger] old(sc).drones@[i]).id != (
            #[trigger] old(sc).drones@[j]).id,
        forall|i: int, j: int|
            0 <= i < j < old(sc).comms@.len() ==> (#[trigger] old(sc).comms@[i]).id != (
            #[trigger] old(sc).comms@[j]).id,
    ensures
        node_registry_without(old(sc).clients@, final(sc).clients@, node_id),
        node_registry_without(old(sc).servers@, final(sc).servers@, node_id),
        drone_registry_without(old(sc).drones@, final(sc).drones@, node_id),
        comms_registry_without(old(sc).comms@, final(sc).comms@, node_id),
        final(sc).running == old(sc).running,
        final(sc).graph == old(sc).graph,
        final(sc).logger == old(sc).logger,
{
    match sc.find_client(node_id) {
        Some(i) => {
            sc.clients.remove(i);
            proof {
                let k = choose|k: int|
                    0 <= k < old(sc).clients@.len() && (#[trigger] old(sc).clients@[k]).id
                        == node_id;
                if k < i {
                    assert(old(sc).clients@[k].id != old(sc).clients@[i as int].id);
                } else if i < k {
                    assert(old(sc).clients@[i as int].id != old(sc).clients@[k].id);
                }
            }
        },
        None => {},
    }
    match sc.find_server(node_id) {
        Some(i) => {
            sc.servers.remove(i);
            proof {
                let k = choose|k: int|
                    0 <= k < old(sc).servers@.len() && (#[trigger] old(sc).servers@[k]).id
                        == node_id;
                if k < i {
                    assert(old(sc).servers@[k].id != old(sc).servers@[i as int].id);
                } else if i < k {
                    assert(old(sc).servers@[i as int].id != old(sc).servers@[k].id);
                }
            }
        },
        None => {},
    }
    match sc.find_drone(node_id) {
        Some(i) => {
            sc.drones.remove(i);
            proof {
                let k = choose|k: int|
                    0 <= k < old(sc).drones@.len() && (#[trigger] old(sc).drones@[k]).id
                        == node_id;
                if k < i {
                    assert(old(sc).drones@[k].id != old(sc).drones@[i as int].id);
                } else if i < k {
                    assert(old(sc).drones@[i as int].id != old(sc).drones@[k].id);
                }
            }
        },
        None => {},
    }
    match sc.find_comms(node_id) {
        Some(i) => {
            sc.comms.remove(i);
            proof {
                let k = choose|k: int|
                    0 <= k < old(sc).comms@.len() && (#[trigger] old(sc).comms@[k]).id == node_id;
                if k < i {
                    assert(old(sc).comms@[k].id != old(sc).comms@[i as int].id);
                } else if i < k {
                    assert(old(sc).comms@[i as int].id != old(sc).comms@[k].id);
                }
            }
        },
        None => {},
    }
}



/// The link between `a` and `b` may be removed: always, unless one end is
/// a drone, the other a server, and the server would keep fewer than two
/// other adjacent drones.
pub open spec fn remove_link_allowed(g: TopologyGraph, a: u8, b: u8) -> bool {
    if g.contains_node(a) && g.kind_of(a) == NodeKind::Drone && g.contains_node(b) && g.kind_of(b)
        == NodeKind::Server {
        spec_can_remove_sender_link(g, a, b)
    } else if g.contains_node(b) && g.kind_of(b) == NodeKind::Drone && g.contains_node(a)
        && g.kind_of(a) == NodeKind::Server {
        spec_can_remove_sender_link(g, b, a)
    } else {
        true
    }
}

/// The server whose coverage blocks removing the link between `a` and `b`.
pub open spec fn blocked_server(g: TopologyGraph, a: u8, b: u8) -> u8 {
    if g.contains_node(a) && g.kind_of(a) == NodeKind::Drone && g.contains_node(b) && g.kind_of(b)
        == NodeKind::Server {
        b
    } else {
        a
    }
}

/// Sends the add-neighbor command for `other`, with its transport sender,
/// to `target`'s own command vocabulary. `None` when `target` has no
/// endpoint anywhere.
fn send_add_neighbor(
    sc: &SimulationController,
    target: u8,
    other: u8,
    transport: crossbeam::channel::Sender<Packet>,
) -> (r: Option<SendOutcome>)
    ensures
        r is Some <==> sc.has_endpoint(target),
{
    match sc.find_drone(target) {
        Some(i) => Some(
            channel_try_send(&sc.drones[i].sender, DroneCmd::AddSender(other, transport)),
        ),
        None => match sc.find_client(target) {
            Some(i) => Some(
                channel_try_send(&sc.clients[i].sender, NodeCmd::AddSender(other, transport)),
            ),
            None => match sc.find_server(target) {
                Some(i) => Some(
                    channel_try_send(&sc.servers[i].sender, NodeCmd::AddSender(other, transport)),
                ),
                None => None,
            },
        },
    }
}

/// Sends the remove-neighbor command for `other` to `target`. `None` when
/// `target` has no endpoint anywhere.
fn send_remove_neighbor(sc: &SimulationController, target: u8, other: u8) -> (r: Option<
    SendOutcome,
>)
    ensures
        r is Some <==> sc.has_endpoint(target),
{
    match sc.find_drone(target) {
        Some(i) => Some(channel_try_send(&sc.drones[i].sender, DroneCmd::RemoveSender(other))),
        None => match sc.find_client(target) {
            Some(i) => Some(channel_try_send(&sc.clients[i].sender, NodeCmd::RemoveSender(other))),
            None => match sc.find_server(target) {
                Some(i) => Some(
                    channel_try_send(&sc.servers[i].sender, NodeCmd::RemoveSender(other)),
                ),
                None => None,
            },
        },
    }
}

/// Links `a` and `b`: sends each side an add-neighbor command carrying the
/// other's transport endpoint, then inserts the edge into both adjacency
/// lists, all as one transition under the caller's lock.
///
/// A missing endpoint aborts with `NodeNotFound` and no mutation; a dead
/// command channel aborts with `ChannelClosed` and no mutation.
pub fn add_link(sc: &mut SimulationController, a: u8, b: u8) -> (r: Result<(), ControllerError>)
    requires
        old(sc).wf(),
    ensures
        final(sc).wf(),
        final(sc).running == old(sc).running,
        final(sc).clients == old(sc).clients,
        final(sc).servers == old(sc).servers,
        final(sc).drones == old(sc).drones,
        final(sc).comms == old(sc).comms,
        final(sc).logger == old(sc).logger,
        r is Err ==> SimulationController::same_state(*old(sc), *final(sc)),
        !(old(sc).has_endpoint(a) && old(sc).has_comms(a)) ==> r is Err && r->Err_0
            == ControllerError::NodeNotFound(a),
        old(sc).has_endpoint(a) && old(sc).has_comms(a) && !(old(sc).has_endpoint(b) && old(
            sc,
        ).has_comms(b)) ==> r is Err && r->Err_0 == ControllerError::NodeNotFound(b),
        old(sc).has_endpoint(a) && old(sc).has_comms(a) && old(sc).has_endpoint(b) && old(
            sc,
        ).has_comms(b) && r is Err ==> (r->Err_0 == ControllerError::ChannelClosed(a) || r->Err_0
            == ControllerError::ChannelClosed(b)),
        r is Ok ==> add_edge_post(old(sc).graph, final(sc).graph, a, b),
{
    let ca = sc.find_comms(a);
    if !(sc.has_endpoint_check(a) && ca.is_some()) {
        return Err(ControllerError::NodeNotFound(a));
    }
    let cb = sc.find_comms(b);
    if !(sc.has_endpoint_check(b) && cb.is_some()) {
        return Err(ControllerError::NodeNotFound(b));
    }
    let ca = ca.unwrap();
    let cb = cb.unwrap();
    let transport_b = clone_sender(&sc.comms[cb].sender);
    let oa = match send_add_neighbor(sc, a, b, transport_b) {
        Some(o) => o,
        None => SendOutcome::Disconnected,
    };
    if oa != SendOutcome::Sent {
        return Err(ControllerError::ChannelClosed(a));
    }
    let transport_a = clone_sender(&sc.comms[ca].sender);
    let ob = match send_add_neighbor(sc, b, a, transport_a) {
        Some(o) => o,
        None => SendOutcome::Disconnected,
    };
    if ob != SendOutcome::Sent {
        return Err(ControllerError::ChannelClosed(b));
    }
    add_edge(a, b, sc);
    Ok(())
}

/// Unlinks `a` and `b`: runs the coverage validator first when the link
/// ties a drone to a server, then sends each side a remove-neighbor
/// command and removes the edge from both adjacency lists.
///
/// A validator rejection aborts with `InvariantViolation` carrying the
/// offending server id; a missing endpoint aborts with `NodeNotFound`; a
/// dead channel aborts with `ChannelClosed`. No aborted call mutates
/// anything.
pub fn remove_link(sc: &mut SimulationController, a: u8, b: u8) -> (r: Result<(), ControllerError>)
    requires
        old(sc).wf(),
    ensures
        final(sc).wf(),
        final(sc).running == old(sc).running,
        final(sc).clients == old(sc).clients,
        final(sc).servers == old(sc).servers,
        final(sc).drones == old(sc).drones,
        final(sc).comms == old(sc).comms,
        final(sc).logger == old(sc).logger,
        r is Err ==> SimulationController::same_state(*old(sc), *final(sc)),
        !remove_link_allowed(old(sc).graph, a, b) ==> r is Err && r->Err_0
            == ControllerError::InvariantViolation(blocked_server(old(sc).graph, a, b)),
        remove_link_allowed(old(sc).graph, a, b) && !old(sc).has_endpoint(a) ==> r is Err
            && r->Err_0 == ControllerError::NodeNotFound(a),
        remove_link_allowed(old(sc).graph, a, b) && old(sc).has_endpoint(a) && !old(
            sc,
        ).has_endpoint(b) ==> r is Err && r->Err_0 == ControllerError::NodeNotFound(b),
        remove_link_allowed(old(sc).graph, a, b) && old(sc).has_endpoint(a) && old(
            sc,
        ).has_endpoint(b) && r is Err ==> (r->Err_0 == ControllerError::ChannelClosed(a)
            || r->Err_0 == ControllerError::ChannelClosed(b)),
        r is Ok ==> remove_edge_post(old(sc).graph, final(sc).graph, a, b),
{
    let ka = sc.graph.kind_lookup(a);
    let kb = sc.graph.kind_lookup(b);
    let a_drone = matches!(ka, Some(NodeKind::Drone));
    let a_server = matches!(ka, Some(NodeKind::Server));
    let b_drone = matches!(kb, Some(NodeKind::Drone));
    let b_server = matches!(kb, Some(NodeKind::Server));
    if a_drone && b_server {
        if !can_remove_sender_drone(&sc.graph, a, b) {
            return Err(ControllerError::InvariantViolation(b));
        }
    } else if b_drone && a_server {
        if !can_remove_sender_drone(&sc.graph, b, a) {
            return Err(ControllerError::InvariantViolation(a));
        }
    }
    if !sc.has_endpoint_check(a) {
        return Err(ControllerError::NodeNotFound(a));
    }
    if !sc.has_endpoint_check(b) {
        return Err(ControllerError::NodeNotFound(b));
    }
    let oa = match send_remove_neighbor(sc, a, b) {
        Some(o) => o,
        None => SendOutcome::Disconnected,
    };
    if oa != SendOutcome::Sent {
        return Err(ControllerError::ChannelClosed(a));
    }
    let ob = match send_remove_neighbor(sc, b, a) {
        Some(o) => o,
        None => SendOutcome::Disconnected,
    };
    if ob != SendOutcome::Sent {
        return Err(ControllerError::ChannelClosed(b));
    }
    remove_edge(a, b, sc);
    Ok(())
}

/// Shuts a client or server down: sends the shutdown command, then removes
/// the node from the graph and from every registry as one operation.
pub fn shutdown(sc: &mut SimulationController, node: u8) -> (r: Result<(), ControllerError>)
    requires
        old(sc).wf(),
    ensures
        final(sc).wf(),
        final(sc).running == old(sc).running,
        final(sc).logger == old(sc).logger,
        r is Err ==> SimulationController::same_state(*old(sc), *final(sc)),
        !(old(sc).is_client(node) || old(sc).is_server(node)) ==> r is Err && r->Err_0
            == ControllerError::NodeNotFound(node),
        (old(sc).is_client(node) || old(sc).is_server(node)) && r is Err ==> r->Err_0
            == ControllerError::ChannelClosed(node),
        r is Ok ==> {
            &&& remove_node_post(old(sc).graph, final(sc).graph, node)
            &&& node_registry_without(old(sc).clients@, final(sc).clients@, node)
            &&& node_registry_without(old(sc).servers@, final(sc).servers@, node)
            &&& drone_registry_without(old(sc).drones@, final(sc).drones@, node)
            &&& comms_registry_without(old(sc).comms@, final(sc).comms@, node)
        },
{
    let outcome = match sc.find_client(node) {
        Some(i) => channel_try_send(&sc.clients[i].sender, NodeCmd::Shutdown),
        None => match sc.find_server(node) {
            Some(i) => channel_try_send(&sc.servers[i].sender, NodeCmd::Shutdown),
            None => {
                return Err(ControllerError::NodeNotFound(node));
            },
        },
    };
    if outcome != SendOutcome::Sent {
        return Err(ControllerError::ChannelClosed(node));
    }
    remove_node(node, sc);
    Ok(())
}

/// Crashes a drone: runs the coverage validator, sends the crash command,
/// then removes the drone from the graph and every registry.
pub fn crash(sc: &mut SimulationController, drone: u8) -> (r: Result<(), ControllerError>)
    requires
        old(sc).wf(),
    ensures
        final(sc).wf(),
        final(sc).running == old(sc).running,
        final(sc).logger == old(sc).logger,
        r is Err ==> SimulationController::same_state(*old(sc), *final(sc)),
        !old(sc).is_drone(drone) ==> r is Err && r->Err_0 == ControllerError::NodeNotFound(drone),
        old(sc).is_drone(drone) && !spec_can_remove_drone(old(sc).graph, drone) ==> r is Err && (
        r->Err_0 matches ControllerError::InvariantViolation(s) ==> {
            &&& old(sc).graph.contains_node(s)
            &&& old(sc).graph.kind_of(s) == NodeKind::Server
            &&& crate::validation::drone_neighbor_count(old(sc).graph, s, drone) < 2
        }) && r->Err_0 is InvariantViolation,
        old(sc).is_drone(drone) && spec_can_remove_drone(old(sc).graph, drone) && r is Err
            ==> r->Err_0 == ControllerError::ChannelClosed(drone),
        r is Ok ==> {
            &&& remove_node_post(old(sc).graph, final(sc).graph, drone)
            &&& node_registry_without(old(sc).clients@, final(sc).clients@, drone)
            &&& node_registry_without(old(sc).servers@, final(sc).servers@, drone)
            &&& drone_registry_without(old(sc).drones@, final(sc).drones@, drone)
            &&& comms_registry_without(old(sc).comms@, final(sc).comms@, drone)
        },
{
    let di = match sc.find_drone(drone) {
        Some(i) => i,
        None => {
            return Err(ControllerError::NodeNotFound(drone));
        },
    };
    match first_blocking_server(&sc.graph, drone) {
        Some(s) => {
            return Err(ControllerError::InvariantViolation(s));
        },
        None => {},
    }
    let outcome = channel_try_send(&sc.drones[di].sender, DroneCmd::Crash);
    if outcome != SendOutcome::Sent {
        return Err(ControllerError::ChannelClosed(drone));
    }
    remove_node(drone, sc);
    Ok(())
}

/// Sets a drone's packet drop rate, given in hundredths of a percent:
/// sends the rate command, then stores the rate for display.
pub fn set_drop_rate(sc: &mut SimulationController, drone: u8, rate: u16) -> (r: Result<
    (),
    ControllerError,
>)
    requires
        old(sc).wf(),
        rate <= 10000,
    ensures
        final(sc).wf(),
        final(sc).running == old(sc).running,
        final(sc).graph == old(sc).graph,
        final(sc).clients == old(sc).clients,
        final(sc).servers == old(sc).servers,
        final(sc).comms == old(sc).comms,
        final(sc).logger == old(sc).logger,
        r is Err ==> SimulationController::same_state(*old(sc), *final(sc)),
        !old(sc).is_drone(drone) ==> r is Err && r->Err_0 == ControllerError::NodeNotFound(drone),
        old(sc).is_drone(drone) && r is Err ==> r->Err_0 == ControllerError::ChannelClosed(drone),
        r is Ok ==> {
            &&& final(sc).drones@.len() == old(sc).drones@.len()
            &&& forall|i: int|
                0 <= i < old(sc).drones@.len() ==> (#[trigger] final(sc).drones@[i]).id == old(
                    sc,
                ).drones@[i].id && final(sc).drones@[i].sender == old(sc).drones@[i].sender
                    && final(sc).drones@[i].rate_hundredths == (if old(sc).drones@[i].id == drone {
                    rate
                } else {
                    old(sc).drones@[i].rate_hundredths
                })
        },
{
    let di = match sc.find_drone(drone) {
        Some(i) => i,
        None => {
            return Err(ControllerError::NodeNotFound(drone));
        },
    };
    let outcome = channel_try_send(&sc.drones[di].sender, DroneCmd::SetPacketDropRate(rate));
    if outcome != SendOutcome::Sent {
        return Err(ControllerError::ChannelClosed(drone));
    }
    let ghost pre = sc.drones@;
    sc.drones[di].rate_hundredths = rate;
    proof {
        assert forall|i: int|
            0 <= i < pre.len() implies (#[trigger] sc.drones@[i]).id == pre[i].id
            && sc.drones@[i].sender == pre[i].sender && sc.drones@[i].rate_hundredths == (if pre[i].id
            == drone {
            rate
        } else {
            pre[i].rate_hundredths
        }) by {
            if i != di {
                assert(sc.drones@[i] == pre[i]);
                if pre[i].id == drone {
                    assert(pre[i].id != pre[di as int].id || i == di);
                }
            }
        }
    }
    Ok(())
}

/// Sends a domain command to a client's or server's endpoint, without
/// touching any state. `NodeNotFound` exactly when no such endpoint is
/// registered; the outcome says whether the channel took the command.
pub fn send_command(sc: &SimulationController, node: u8, cmd: NodeCmd) -> (r: Result<
    SendOutcome,
    ControllerError,
>)
    ensures
        r is Err <==> !(sc.is_client(node) || sc.is_server(node)),
        r is Err ==> r->Err_0 == ControllerError::NodeNotFound(node),
{
    match sc.find_client(node) {
        Some(i) => Ok(channel_try_send(&sc.clients[i].sender, cmd)),
        None => match sc.find_server(node) {
            Some(i) => Ok(channel_try_send(&sc.servers[i].sender, cmd)),
            None => Err(ControllerError::NodeNotFound(node)),
        },
    }
}

/// Redelivers a packet straight to its declared destination's transport
/// endpoint, bypassing per-hop simulation. Reads the controller state but
/// never mutates it, so the topology cannot change here.
pub fn deliver_shortcut(sc: &SimulationController, p: Packet) -> (r: Result<
    SendOutcome,
    ControllerError,
>)
    ensures
        p.hops@.len() == 0 ==> r is Err && r->Err_0 == ControllerError::ParseError,
        p.hops@.len() > 0 && !sc.has_comms(p.destination()) ==> r is Err && r->Err_0
            == ControllerError::NodeNotFound(p.destination()),
        p.hops@.len() > 0 && sc.has_comms(p.destination()) ==> r is Ok,
{
    if p.hops.len() == 0 {
        return Err(ControllerError::ParseError);
    }
    let dest = p.hops[p.hops.len() - 1];
    match sc.find_comms(dest) {
        Some(i) => Ok(channel_try_send(&sc.comms[i].sender, p)),
        None => Err(ControllerError::NodeNotFound(dest)),
    }
}

} // verus!
