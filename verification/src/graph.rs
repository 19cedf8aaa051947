//! The topology graph: typed nodes with symmetric adjacency.

use vstd::prelude::*;

verus! {

/// Classification of a node. A neighbor that is mentioned in some adjacency
/// list but registered nowhere keeps the `Unknown` kind until it is resolved.
#[derive(Clone, Copy, Debug, PartialEq, Eq, Structural)]
pub enum NodeKind {
    Drone,
    Client,
    Server,
    Unknown,
}

/// One node of the topology graph: a stable id, its classification, and the
/// ids of its neighbors.
pub struct GraphNode {
    pub id: u8,
    pub kind: NodeKind,
    pub adj: Vec<u8>,
}

/// The authoritative in-memory network shape.
pub struct TopologyGraph {
    pub nodes: Vec<GraphNode>,
}

/// The adjacency list with every occurrence of one neighbor removed.
pub open spec fn del_adj(s: Seq<u8>, x: u8) -> Seq<u8> {
    s.filter(|y: u8| y != x)
}

impl GraphNode {
    /// Appends `other` to the adjacency list, unless it is already there.
    pub fn add_adjacent(&mut self, other: u8)
        ensures
            old(self).adj@.contains(other) ==> final(self).adj@ == old(self).adj@,
            !old(self).adj@.contains(other) ==> final(self).adj@ == old(self).adj@.push(other),
            final(self).id == old(self).id,
            final(self).kind == old(self).kind,
    {
        let mut i: usize = 0;
        while i < self.adj.len()
            invariant
                i <= self.adj.len(),
                forall|j: int| 0 <= j < i ==> self.adj@[j] != other,
                self.id == old(self).id,
                self.kind == old(self).kind,
                self.adj == old(self).adj,
            decreases self.adj.len() - i,
        {
            if self.adj[i] == other {
                return ;
            }
            i += 1;
        }
        self.adj.push(other);
    }

    /// Removes every occurrence of `other` from the adjacency list,
    /// preserving the order of the remaining neighbors.
    pub fn remove_adjacent(&mut self, other: u8)
        ensures
            final(self).adj@ == del_adj(old(self).adj@, other),
            final(self).id == old(self).id,
            final(self).kind == old(self).kind,
    {
        let mut kept: Vec<u8> = Vec::new();
        let mut i: usize = 0;
        while i < self.adj.len()
            invariant
                i <= self.adj.len(),
                kept@ == del_adj(self.adj@.take(i as int), other),
                self.id == old(self).id,
                self.kind == old(self).kind,
                self.adj == old(self).adj,
            decreases self.adj.len() - i,
        {
            let x = self.adj[i];
            proof {
                assert(self.adj@.take(i + 1).drop_last() == self.adj@.take(i as int));
                reveal(Seq::filter);
            }
            if x != other {
                kept.push(x);
            }
            i += 1;
        }
        proof {
            assert(self.adj@.take(self.adj@.len() as int) == self.adj@);
        }
        self.adj = kept;
    }
}

impl TopologyGraph {
    /// The empty graph.
    pub fn new() -> (g: TopologyGraph)
        ensures
            g.nodes@.len() == 0,
            g.wf(),
    {
        TopologyGraph { nodes: Vec::new() }
    }

    /// True when some node carries this id.
    pub open spec fn contains_node(self, id: u8) -> bool {
        exists|i: int| 0 <= i < self.nodes@.len() && self.nodes@[i].id == id
    }

    /// The index of the node with this id (meaningful only under `wf`,
    /// which makes ids unique).
    pub open spec fn index_of(self, id: u8) -> int {
        choose|i: int| 0 <= i < self.nodes@.len() && self.nodes@[i].id == id
    }

    /// The classification of the node with this id.
    pub open spec fn kind_of(self, id: u8) -> NodeKind {
        self.nodes@[self.index_of(id)].kind
    }

    /// The adjacency list of the node with this id.
    pub open spec fn adj_of(self, id: u8) -> Seq<u8> {
        self.nodes@[self.index_of(id)].adj@
    }

    /// `a` lists `b` as a neighbor.
    pub open spec fn has_edge(self, a: u8, b: u8) -> bool {
        self.contains_node(a) && self.adj_of(a).contains(b)
    }

    /// Well-formed: ids are unique and no adjacency list repeats a neighbor.
    pub open spec fn wf(self) -> bool {
        &&& forall|i: int, j: int|
            0 <= i < j < self.nodes@.len() ==> (#[trigger] self.nodes@[i]).id != (
            #[trigger] self.nodes@[j]).id
        &&& forall|i: int|
            0 <= i < self.nodes@.len() ==> (#[trigger] self.nodes@[i]).adj@.no_duplicates()
    }

    /// Adjacency is symmetric: whenever both endpoints exist and `a` lists
    /// `b`, `b` lists `a` back.
    pub open spec fn symmetric(self) -> bool {
        forall|a: u8, b: u8|
            self.contains_node(a) && self.contains_node(b) && #[trigger] self.has_edge(a, b)
                ==> #[trigger] self.has_edge(b, a)
    }

    /// Under `wf`, a node found at index `i` is the node the spec-level
    /// accessors talk about.
    pub proof fn lemma_index_of(self, i: int)
        requires
            self.wf(),
            0 <= i < self.nodes@.len(),
        ensures
            self.contains_node(self.nodes@[i].id),
            self.index_of(self.nodes@[i].id) == i,
    {
        let id = self.nodes@[i].id;
        assert(self.contains_node(id));
        let j = self.index_of(id);
        if i < j {
            assert(self.nodes@[i].id != self.nodes@[j].id);
        } else if j < i {
            assert(self.nodes@[j].id != self.nodes@[i].id);
        }
    }

    /// The index of the node with this id, or `None` when no node has it.
    pub fn find(&self, id: u8) -> (r: Option<usize>)
        ensures
            r is Some ==> {
                &&& self.contains_node(id)
                &&& 0 <= r->0 < self.nodes@.len()
                &&& self.nodes@[r->0 as int].id == id
                &&& forall|j: int| 0 <= j < r->0 ==> self.nodes@[j].id != id
            },
            r is None ==> !self.contains_node(id),
            self.wf() && r is Some ==> r->0 == self.index_of(id),
    {
        let mut i: usize = 0;
        while i < self.nodes.len()
            invariant
                i <= self.nodes@.len(),
                forall|j: int| 0 <= j < i ==> self.nodes@[j].id != id,
            decreases self.nodes@.len() - i,
        {
            if self.nodes[i].id == id {
                proof {
                    if self.wf() {
                        self.lemma_index_of(i as int);
                    }
                }
                return Some(i);
            }
            i += 1;
        }
        None
    }

    /// Whether a node with this id exists.
    pub fn has_node(&self, id: u8) -> (r: bool)
        ensures
            r == self.contains_node(id),
    {
        self.find(id).is_some()
    }

    /// The classification of the node with this id, if it exists.
    pub fn kind_lookup(&self, id: u8) -> (r: Option<NodeKind>)
        requires
            self.wf(),
        ensures
            r is Some <==> self.contains_node(id),
            r is Some ==> r->0 == self.kind_of(id),
    {
        match self.find(id) {
            Some(i) => Some(self.nodes[i].kind),
            None => None,
        }
    }

    /// Whether `a` currently lists `b` as a neighbor.
    pub fn adjacent(&self, a: u8, b: u8) -> (r: bool)
        requires
            self.wf(),
        ensures
            r == self.has_edge(a, b),
    {
        match self.find(a) {
            Some(i) => {
                let mut k: usize = 0;
                while k < self.nodes[i].adj.len()
                    invariant
                        0 <= i < self.nodes@.len(),
                        i == self.index_of(a),
                        self.contains_node(a),
                        k <= self.nodes@[i as int].adj@.len(),
                        forall|j: int| 0 <= j < k ==> self.nodes@[i as int].adj@[j] != b,
                    decreases self.nodes@[i as int].adj@.len() - k,
                {
                    if self.nodes[i].adj[k] == b {
                        proof {
                            assert(self.adj_of(a)[k as int] == b);
                        }
                        return true;
                    }
                    k += 1;
                }
                false
            },
            None => false,
        }
    }
}

/// A node as the external initializer reports it: its id, its declared
/// classification, and the neighbors it claims.
pub struct RawNode {
    pub id: u8,
    pub kind: NodeKind,
    pub adj: Vec<u8>,
}

/// Some reported node carries this id.
pub open spec fn raw_contains(raw: Seq<RawNode>, id: u8) -> bool {
    exists|i: int| 0 <= i < raw.len() && raw[i].id == id
}

/// Some reported node with id `a` lists `b` as a neighbor.
pub open spec fn raw_lists(raw: Seq<RawNode>, a: u8, b: u8) -> bool {
    exists|i: int, j: int|
        0 <= i < raw.len() && 0 <= j < raw[i].adj@.len() && raw[i].id == a && raw[i].adj@[j] == b
}

/// Some reported node lists this id as a neighbor.
pub open spec fn raw_mentioned(raw: Seq<RawNode>, id: u8) -> bool {
    exists|i: int, j: int| 0 <= i < raw.len() && 0 <= j < raw[i].adj@.len() && raw[i].adj@[j] == id
}

/// The classification the endpoint registries give to an id that the
/// initializer's node list does not describe.
pub open spec fn registry_kind_spec(
    drones: Seq<u8>,
    clients: Seq<u8>,
    servers: Seq<u8>,
    id: u8,
) -> NodeKind {
    if drones.contains(id) {
        NodeKind::Drone
    } else if clients.contains(id) {
        NodeKind::Client
    } else if servers.contains(id) {
        NodeKind::Server
    } else {
        NodeKind::Unknown
    }
}

/// Whether a plain id list holds this id.
fn ids_contain(ids: &Vec<u8>, id: u8) -> (r: bool)
    ensures
        r == ids@.contains(id),
{
    let mut i: usize = 0;
    while i < ids.len()
        invariant
            i <= ids@.len(),
            forall|j: int| 0 <= j < i ==> ids@[j] != id,
        decreases ids@.len() - i,
    {
        if ids[i] == id {
            proof {
                assert(ids@[i as int] == id);
            }
            return true;
        }
        i += 1;
    }
    false
}

/// Whether the initializer's node list describes this id.
fn raw_has_node(raw: &Vec<RawNode>, id: u8) -> (r: bool)
    ensures
        r == raw_contains(raw@, id),
{
    let mut i: usize = 0;
    while i < raw.len()
        invariant
            i <= raw@.len(),
            forall|j: int| 0 <= j < i ==> raw@[j].id != id,
        decreases raw@.len() - i,
    {
        if raw[i].id == id {
            return true;
        }
        i += 1;
    }
    false
}

/// Whether some reported node with id `a` lists `b`.
fn raw_lists_exec(raw: &Vec<RawNode>, a: u8, b: u8) -> (r: bool)
    ensures
        r == raw_lists(raw@, a, b),
{
    let mut i: usize = 0;
    while i < raw.len()
        invariant
            i <= raw@.len(),
            forall|i2: int, j2: int|
                0 <= i2 < i && 0 <= j2 < raw@[i2].adj@.len() ==> !(raw@[i2].id == a
                    && raw@[i2].adj@[j2] == b),
        decreases raw@.len() - i,
    {
        if raw[i].id == a {
            let mut j: usize = 0;
            while j < raw[i].adj.len()
                invariant
                    0 <= i < raw@.len(),
                    raw@[i as int].id == a,
                    j <= raw@[i as int].adj@.len(),
                    forall|j2: int| 0 <= j2 < j ==> raw@[i as int].adj@[j2] != b,
                decreases raw@[i as int].adj@.len() - j,
            {
                if raw[i].adj[j] == b {
                    return true;
                }
                j += 1;
            }
        }
        i += 1;
    }
    false
}

/// Whether any reported node lists this id as a neighbor.
fn raw_mentioned_exec(raw: &Vec<RawNode>, id: u8) -> (r: bool)
    ensures
        r == raw_mentioned(raw@, id),
{
    let mut i: usize = 0;
    while i < raw.len()
        invariant
            i <= raw@.len(),
            forall|i2: int, j2: int|
                0 <= i2 < i && 0 <= j2 < raw@[i2].adj@.len() ==> raw@[i2].adj@[j2] != id,
        decreases raw@.len() - i,
    {
        let mut j: usize = 0;
        while j < raw[i].adj.len()
            invariant
                0 <= i < raw@.len(),
                j <= raw@[i as int].adj@.len(),
                forall|j2: int| 0 <= j2 < j ==> raw@[i as int].adj@[j2] != id,
            decreases raw@[i as int].adj@.len() - j,
        {
            if raw[i].adj[j] == id {
                return true;
            }
            j += 1;
        }
        i += 1;
    }
    false
}

/// The classification of the first reported node with this id.
fn raw_kind_of(raw: &Vec<RawNode>, id: u8) -> (r: NodeKind)
    requires
        raw_contains(raw@, id),
    ensures
        exists|i: int|
            0 <= i < raw@.len() && (#[trigger] raw@[i]).id == id && raw@[i].kind == r && (forall|
                j: int,
            | 0 <= j < i ==> raw@[j].id != id),
{
    let mut i: usize = 0;
    while i < raw.len()
        invariant
            i <= raw@.len(),
            raw_contains(raw@, id),
            forall|j: int| 0 <= j < i ==> raw@[j].id != id,
        decreases raw@.len() - i,
    {
        if raw[i].id == id {
            return raw[i].kind;
        }
        i += 1;
    }
    proof {
        assert(false);
    }
    NodeKind::Unknown
}

/// Derives the authoritative topology graph from the initializer's node
/// list and the three endpoint registries' id lists.
///
/// Every described node and every mentioned neighbor becomes one graph node;
/// ids and adjacency lists come out in ascending order, so the graph built
/// from a given snapshot is unique. A link appears in both endpoints'
/// adjacency lists whenever either side reported it, which makes the result
/// symmetric by construction. A described node takes the classification of
/// the first entry carrying its id; a node the initializer did not describe
/// takes its classification from the registries and otherwise stays
/// `Unknown`.
pub fn generate_generic_network_view(
    raw: &Vec<RawNode>,
    drones: &Vec<u8>,
    clients: &Vec<u8>,
    servers: &Vec<u8>,
) -> (g: TopologyGraph)
    ensures
        g.wf(),
        g.symmetric(),
        forall|id: u8|
            #[trigger] g.contains_node(id) <==> (raw_contains(raw@, id) || raw_mentioned(
                raw@,
                id,
            )),
        forall|a: u8, b: u8|
            #[trigger] g.has_edge(a, b) <==> (raw_lists(raw@, a, b) || raw_lists(raw@, b, a)),
        forall|i: int, j: int|
            0 <= i < j < g.nodes@.len() ==> (#[trigger] g.nodes@[i]).id < (
            #[trigger] g.nodes@[j]).id,
        forall|i: int, k1: int, k2: int|
            0 <= i < g.nodes@.len() && 0 <= k1 < k2 < g.nodes@[i].adj@.len()
                ==> #[trigger] g.nodes@[i].adj@[k1] < #[trigger] g.nodes@[i].adj@[k2],
        forall|id: u8|
            raw_contains(raw@, id) ==> exists|i: int|
                0 <= i < raw@.len() && (#[trigger] raw@[i]).id == id && g.kind_of(id)
                    == raw@[i].kind && (forall|j: int| 0 <= j < i ==> raw@[j].id != id),
        forall|id: u8|
            raw_mentioned(raw@, id) && !raw_contains(raw@, id) ==> #[trigger] g.kind_of(id)
                == registry_kind_spec(drones@, clients@, servers@, id),
{
    let mut g = TopologyGraph { nodes: Vec::new() };
    let mut v: u16 = 0;
    while v < 256
        invariant
            v <= 256,
            forall|i: int, j: int|
                0 <= i < j < g.nodes@.len() ==> (#[trigger] g.nodes@[i]).id < (
                #[trigger] g.nodes@[j]).id,
            forall|i: int| 0 <= i < g.nodes@.len() ==> (#[trigger] g.nodes@[i]).id < v,
            forall|i: int|
                0 <= i < g.nodes@.len() ==> (#[trigger] g.nodes@[i]).adj@.no_duplicates(),
            forall|i: int|
                0 <= i < g.nodes@.len() ==> (raw_contains(raw@, (#[trigger] g.nodes@[i]).id)
                    || raw_mentioned(raw@, g.nodes@[i].id)),
            forall|id: u8|
                id < v && (raw_contains(raw@, id) || raw_mentioned(raw@, id)) ==> exists|i: int|
                    0 <= i < g.nodes@.len() && (#[trigger] g.nodes@[i]).id == id,
            forall|i: int, b: u8|
                0 <= i < g.nodes@.len() ==> (#[trigger] g.nodes@[i].adj@.contains(b) <==> (
                raw_lists(raw@, g.nodes@[i].id, b) || raw_lists(raw@, b, g.nodes@[i].id))),
            forall|i: int, k1: int, k2: int|
                0 <= i < g.nodes@.len() && 0 <= k1 < k2 < g.nodes@[i].adj@.len()
                    ==> #[trigger] g.nodes@[i].adj@[k1] < #[trigger] g.nodes@[i].adj@[k2],
            forall|i: int|
                0 <= i < g.nodes@.len() && raw_contains(raw@, (#[trigger] g.nodes@[i]).id)
                    ==> exists|k: int|
                    0 <= k < raw@.len() && (#[trigger] raw@[k]).id == g.nodes@[i].id && raw@[k].kind
                        == g.nodes@[i].kind && (forall|j: int|
                        0 <= j < k ==> raw@[j].id != g.nodes@[i].id),
            forall|i: int|
                0 <= i < g.nodes@.len() && !raw_contains(raw@, (#[trigger] g.nodes@[i]).id)
                    ==> g.nodes@[i].kind == registry_kind_spec(
                    drones@,
                    clients@,
                    servers@,
                    g.nodes@[i].id,
                ),
        decreases 256 - v,
    {
        let ghost n0 = g.nodes@;
        let id = v as u8;
        let described = raw_has_node(raw, id);
        if described || raw_mentioned_exec(raw, id) {
            let kind = if described {
                raw_kind_of(raw, id)
            } else {
                if ids_contain(drones, id) {
                    NodeKind::Drone
                } else if ids_contain(clients, id) {
                    NodeKind::Client
                } else if ids_contain(servers, id) {
                    NodeKind::Server
                } else {
                    NodeKind::Unknown
                }
            };
            let mut adj: Vec<u8> = Vec::new();
            let mut w: u16 = 0;
            while w < 256
                invariant
                    w <= 256,
                    forall|i: int, j: int|
                        0 <= i < j < adj@.len() ==> #[trigger] adj@[i] < #[trigger] adj@[j],
                    forall|i: int| 0 <= i < adj@.len() ==> #[trigger] adj@[i] < w,
                    forall|b: u8|
                        #[trigger] adj@.contains(b) <==> (b < w && (raw_lists(raw@, id, b)
                            || raw_lists(raw@, b, id))),
                decreases 256 - w,
            {
                let ghost a0 = adj@;
                let b = w as u8;
                if raw_lists_exec(raw, id, b) || raw_lists_exec(raw, b, id) {
                    adj.push(b);
                }
                proof {
                    assert forall|c: u8| #[trigger]
                        adj@.contains(c) implies (c < w + 1 && (raw_lists(raw@, id, c)
                        || raw_lists(raw@, c, id))) by {
                        let k = choose|k: int| 0 <= k < adj@.len() && adj@[k] == c;
                        if k < a0.len() {
                            assert(a0[k] == c);
                            assert(a0.contains(c));
                        }
                    }
                    assert forall|c: u8|
                        c < w + 1 && (raw_lists(raw@, id, c) || raw_lists(raw@, c, id)) implies
                        #[trigger] adj@.contains(c) by {
                        if c < w {
                            assert(a0.contains(c));
                            let k = choose|k: int| 0 <= k < a0.len() && a0[k] == c;
                            assert(adj@[k] == c);
                        } else {
                            assert(c == b);
                            assert(adj@.last() == c);
                        }
                    }
                }
                w += 1;
            }
            proof {
                sorted_u8_no_duplicates(adj@);
            }
            g.nodes.push(GraphNode { id, kind, adj });
        }
        proof {
            assert forall|id2: u8|
                id2 < v + 1 && (raw_contains(raw@, id2) || raw_mentioned(raw@, id2)) implies exists|
                i: int,
            | 0 <= i < g.nodes@.len() && (#[trigger] g.nodes@[i]).id == id2 by {
                if id2 < v {
                    let i = choose|i: int| 0 <= i < n0.len() && (#[trigger] n0[i]).id == id2;
                    assert(g.nodes@[i].id == id2);
                } else {
                    assert(id2 == id);
                    assert(g.nodes@.last().id == id2);
                }
            }
        }
        v += 1;
    }
    proof {
        assert forall|id: u8| #[trigger]
            g.contains_node(id) <==> (raw_contains(raw@, id) || raw_mentioned(raw@, id)) by {
            if raw_contains(raw@, id) || raw_mentioned(raw@, id) {
                assert(id < 256);
            }
        }
        assert forall|a: u8, b: u8| #[trigger]
            g.has_edge(a, b) <==> (raw_lists(raw@, a, b) || raw_lists(raw@, b, a)) by {
            if raw_lists(raw@, a, b) || raw_lists(raw@, b, a) {
                assert(raw_contains(raw@, a) || raw_mentioned(raw@, a));
                assert(g.contains_node(a));
                let i = g.index_of(a);
                assert(g.nodes@[i].adj@.contains(b));
            }
            if g.has_edge(a, b) {
                let i = g.index_of(a);
                assert(g.nodes@[i].adj@.contains(b));
            }
        }
        assert forall|id: u8| raw_contains(raw@, id) implies exists|i: int|
            0 <= i < raw@.len() && (#[trigger] raw@[i]).id == id && g.kind_of(id) == raw@[i].kind
            && (forall|j: int| 0 <= j < i ==> raw@[j].id != id) by {
            assert(g.contains_node(id));
            let i = g.index_of(id);
            g.lemma_index_of(i);
        }
        assert forall|id: u8| raw_mentioned(raw@, id) && !raw_contains(raw@, id) implies #[trigger]
            g.kind_of(id) == registry_kind_spec(drones@, clients@, servers@, id) by {
            assert(g.contains_node(id));
            let i = g.index_of(id);
        }
        assert forall|a: u8, b: u8|
            g.contains_node(a) && g.contains_node(b) && #[trigger] g.has_edge(a, b) implies (
        #[trigger] g.has_edge(b, a)) by {
            assert(raw_lists(raw@, a, b) || raw_lists(raw@, b, a));
        }
    }
    g
}

/// A strictly increasing id list has no duplicates.
proof fn sorted_u8_no_duplicates(s: Seq<u8>)
    requires
        forall|i: int, j: int| 0 <= i < j < s.len() ==> #[trigger] s[i] < #[trigger] s[j],
    ensures
        s.no_duplicates(),
{
}

} // verus!
