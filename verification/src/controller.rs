//! The shared controller state: the single source of truth for the
//! topology and the per-node command endpoints, together with the
//! lifecycle transitions of a simulation run.
//!
//! The embedding wraps one value of `SimulationController` in one
//! mutual-exclusion lock. Every dispatch operation over it is a single
//! transition from the old state to the new one, so a command send and
//! the graph mutation it belongs to can never be observed apart.

use vstd::prelude::*;

use crate::graph::TopologyGraph;
use crate::logging::Logger;
use crate::logging::Rgb;

verus! {

/// The role label a client or server carries, used only for display.
#[derive(Clone, Copy, Debug, PartialEq, Eq, Structural)]
pub enum NodeRole {
    ChatClient,
    WebBrowser,
    ChatServer,
    WebServer,
}

impl NodeRole {
    /// The display label of the role.
    pub open spec fn spec_label(self) -> Seq<char> {
        match self {
            NodeRole::ChatClient => "Chat Client"@,
            NodeRole::WebBrowser => "Web Browser"@,
            NodeRole::ChatServer => "Chat Server"@,
            NodeRole::WebServer => "Web Server"@,
        }
    }

    /// Renders the display label.
    pub fn label(&self) -> (r: &'static str)
        ensures
            r@ == self.spec_label(),
    {
        match self {
            NodeRole::ChatClient => "Chat Client",
            NodeRole::WebBrowser => "Web Browser",
            NodeRole::ChatServer => "Chat Server",
            NodeRole::WebServer => "Web Server",
        }
    }
}

/// A routed packet: its session, its planned route, and how far along the
/// route it is. The destination is the last hop.
#[derive(Clone, Debug)]
pub struct Packet {
    pub session_id: u64,
    pub hops: Vec<u8>,
    pub hop_index: usize,
}

impl Packet {
    /// The declared destination: the final hop of the route.
    pub open spec fn destination(self) -> u8 {
        self.hops@.last()
    }
}

/// A chat message between two clients.
#[derive(Clone, Debug)]
pub struct Message {
    pub from: u8,
    pub to: u8,
    pub text: String,
}

/// A reference from a text file to a media file held elsewhere.
#[derive(Clone, Debug)]
pub struct MediaReference {
    pub location: u8,
    pub id: String,
}

/// A text file a web node serves.
#[derive(Clone, Debug)]
pub struct TextFileData {
    pub title: String,
    pub content: String,
    pub media_refs: Vec<MediaReference>,
}

/// The chat-domain commands a chat node accepts.
#[derive(Clone, Debug)]
pub enum ChatCmd {
    GetChatsHistory,
    GetRegisteredClients,
    SendMessage(Message),
    RegisterToServer(u8),
}

/// The web-domain commands a web node accepts. File ids travel as their
/// canonical text form.
#[derive(Clone, Debug)]
pub enum WebCmd {
    GetCachedFiles,
    GetFile(String),
    GetTextFiles,
    GetTextFile(String),
    GetMediaFiles,
    GetMediaFile { media_id: String, location: u8 },
    AddTextFile(TextFileData),
    AddTextFileFromPath(String),
    AddMediaFileFromPath(String),
    RemoveTextFile(String),
    RemoveMediaFile(String),
    QueryTextFilesList,
    GetTextFilesList,
}

/// The command vocabulary of clients and servers.
pub enum NodeCmd {
    AddSender(u8, crossbeam::channel::Sender<Packet>),
    RemoveSender(u8),
    Shutdown,
    Chat(ChatCmd),
    Web(WebCmd),
}

/// The command vocabulary of drones. The drop rate travels in hundredths
/// of a percent.
pub enum DroneCmd {
    Crash,
    SetPacketDropRate(u16),
    AddSender(u8, crossbeam::channel::Sender<Packet>),
    RemoveSender(u8),
}

/// A client's or server's command endpoint.
pub struct NodeEndpoint {
    pub id: u8,
    pub role: NodeRole,
    pub sender: crossbeam::channel::Sender<NodeCmd>,
}

/// A drone's command endpoint, together with the drop rate it was last
/// given, in hundredths of a percent, kept for display.
pub struct DroneEndpoint {
    pub id: u8,
    pub rate_hundredths: u16,
    pub sender: crossbeam::channel::Sender<DroneCmd>,
}

/// A node's raw transport endpoint, used only for shortcut redelivery.
pub struct CommsEndpoint {
    pub id: u8,
    pub sender: crossbeam::channel::Sender<Packet>,
}

/// The shared controller state: the topology plus the endpoint registries.
pub struct SimulationController {
    pub running: bool,
    pub graph: TopologyGraph,
    pub clients: Vec<NodeEndpoint>,
    pub servers: Vec<NodeEndpoint>,
    pub drones: Vec<DroneEndpoint>,
    pub comms: Vec<CommsEndpoint>,
    pub logger: Option<Logger>,
}

impl SimulationController {
    /// A registered client id.
    pub open spec fn is_client(self, id: u8) -> bool {
        exists|i: int| 0 <= i < self.clients@.len() && self.clients@[i].id == id
    }

    /// A registered server id.
    pub open spec fn is_server(self, id: u8) -> bool {
        exists|i: int| 0 <= i < self.servers@.len() && self.servers@[i].id == id
    }

    /// A registered drone id.
    pub open spec fn is_drone(self, id: u8) -> bool {
        exists|i: int| 0 <= i < self.drones@.len() && self.drones@[i].id == id
    }

    /// A node with a command endpoint in any registry.
    pub open spec fn has_endpoint(self, id: u8) -> bool {
        self.is_client(id) || self.is_server(id) || self.is_drone(id)
    }

    /// A node with a raw transport endpoint.
    pub open spec fn has_comms(self, id: u8) -> bool {
        exists|i: int| 0 <= i < self.comms@.len() && self.comms@[i].id == id
    }

    /// Well-formed: the graph is well-formed and symmetric, each registry
    /// holds at most one endpoint per id, and every stored drop rate is a
    /// valid fraction.
    pub open spec fn wf(self) -> bool {
        &&& self.graph.wf()
        &&& self.graph.symmetric()
        &&& forall|i: int, j: int|
            0 <= i < j < self.clients@.len() ==> (#[trigger] self.clients@[i]).id != (
            #[trigger] self.clients@[j]).id
        &&& forall|i: int, j: int|
            0 <= i < j < self.servers@.len() ==> (#[trigger] self.servers@[i]).id != (
            #[trigger] self.servers@[j]).id
        &&& forall|i: int, j: int|
            0 <= i < j < self.drones@.len() ==> (#[trigger] self.drones@[i]).id != (
            #[trigger] self.drones@[j]).id
        &&& forall|i: int, j: int|
            0 <= i < j < self.comms@.len() ==> (#[trigger] self.comms@[i]).id != (
            #[trigger] self.comms@[j]).id
        &&& forall|i: int|
            0 <= i < self.drones@.len() ==> (#[trigger] self.drones@[i]).rate_hundredths <= 10000
    }

    /// Everything but the logger is the same in both states.
    pub open spec fn same_core(s0: SimulationController, s1: SimulationController) -> bool {
        &&& s1.running == s0.running
        &&& s1.graph == s0.graph
        &&& s1.clients == s0.clients
        &&& s1.servers == s0.servers
        &&& s1.drones == s0.drones
        &&& s1.comms == s0.comms
    }

    /// The two states are the same.
    pub open spec fn same_state(s0: SimulationController, s1: SimulationController) -> bool {
        Self::same_core(s0, s1) && s1.logger == s0.logger
    }

    /// The index of the client endpoint with this id.
    pub(crate) fn find_client(&self, id: u8) -> (r: Option<usize>)
        ensures
            r is Some ==> 0 <= r->0 < self.clients@.len() && self.clients@[r->0 as int].id == id,
            r is None ==> !self.is_client(id),
            r is Some ==> self.is_client(id),
    {
        let mut i: usize = 0;
        while i < self.clients.len()
            invariant
                i <= self.clients@.len(),
                forall|j: int| 0 <= j < i ==> (#[trigger] self.clients@[j]).id != id,
            decreases self.clients@.len() - i,
        {
            if self.clients[i].id == id {
                return Some(i);
            }
            i += 1;
        }
        None
    }

    /// The index of the server endpoint with this id.
    pub(crate) fn find_server(&self, id: u8) -> (r: Option<usize>)
        ensures
            r is Some ==> 0 <= r->0 < self.servers@.len() && self.servers@[r->0 as int].id == id,
            r is None ==> !self.is_server(id),
            r is Some ==> self.is_server(id),
    {
        let mut i: usize = 0;
        while i < self.servers.len()
            invariant
                i <= self.servers@.len(),
                forall|j: int| 0 <= j < i ==> (#[trigger] self.servers@[j]).id != id,
            decreases self.servers@.len() - i,
        {
            if self.servers[i].id == id {
                return Some(i);
            }
            i += 1;
        }
        None
    }

    /// The index of the drone endpoint with this id.
    pub(crate) fn find_drone(&self, id: u8) -> (r: Option<usize>)
        ensures
            r is Some ==> 0 <= r->0 < self.drones@.len() && self.drones@[r->0 as int].id == id,
            r is None ==> !self.is_drone(id),
            r is Some ==> self.is_drone(id),
    {
        let mut i: usize = 0;
        while i < self.drones.len()
            invariant
                i <= self.drones@.len(),
                forall|j: int| 0 <= j < i ==> (#[trigger] self.drones@[j]).id != id,
            decreases self.drones@.len() - i,
        {
            if self.drones[i].id == id {
                return Some(i);
            }
            i += 1;
        }
        None
    }

    /// The index of the raw transport endpoint with this id.
    pub(crate) fn find_comms(&self, id: u8) -> (r: Option<usize>)
        ensures
            r is Some ==> 0 <= r->0 < self.comms@.len() && self.comms@[r->0 as int].id == id,
            r is None ==> !self.has_comms(id),
            r is Some ==> self.has_comms(id),
    {
        let mut i: usize = 0;
        while i < self.comms.len()
            invariant
                i <= self.comms@.len(),
                forall|j: int| 0 <= j < i ==> (#[trigger] self.comms@[j]).id != id,
            decreases self.comms@.len() - i,
        {
            if self.comms[i].id == id {
                return Some(i);
            }
            i += 1;
        }
        None
    }

    /// The drone ids, strictly ascending.
    fn sorted_drone_ids(&self) -> (ids: Vec<u8>)
        requires
            self.wf(),
        ensures
            forall|k1: int, k2: int|
                0 <= k1 < k2 < ids@.len() ==> #[trigger] ids@[k1] < #[trigger] ids@[k2],
            forall|k: int| 0 <= k < ids@.len() ==> self.is_drone(#[trigger] ids@[k]),
            forall|i: int|
                0 <= i < self.drones@.len() ==> ids@.contains((#[trigger] self.drones@[i]).id),
    {
        let mut ids: Vec<u8> = Vec::new();
        let mut v: u16 = 0;
        while v < 256
            invariant
                self.wf(),
                v <= 256,
                forall|k1: int, k2: int|
                    0 <= k1 < k2 < ids@.len() ==> #[trigger] ids@[k1] < #[trigger] ids@[k2],
                forall|k: int| 0 <= k < ids@.len() ==> #[trigger] ids@[k] < v,
                forall|k: int| 0 <= k < ids@.len() ==> self.is_drone(#[trigger] ids@[k]),
                forall|i: int|
                    0 <= i < self.drones@.len() && (#[trigger] self.drones@[i]).id < v
                        ==> ids@.contains(self.drones@[i].id),
            decreases 256 - v,
        {
            let ghost s0 = ids@;
            let id = v as u8;
            if self.find_drone(id).is_some() {
                ids.push(id);
            }
            proof {
                assert forall|i: int|
                    0 <= i < self.drones@.len() && (#[trigger] self.drones@[i]).id < v
                        + 1 implies ids@.contains(self.drones@[i].id) by {
                    if self.drones@[i].id < v {
                        let k = choose|k: int| 0 <= k < s0.len() && s0[k] == self.drones@[i].id;
                        assert(ids@[k] == self.drones@[i].id);
                    } else {
                        assert(ids@.last() == self.drones@[i].id);
                    }
                }
            }
            v += 1;
        }
        ids
    }

    /// The client ids, strictly ascending.
    fn sorted_client_ids(&self) -> (ids: Vec<u8>)
        requires
            self.wf(),
        ensures
            forall|k1: int, k2: int|
                0 <= k1 < k2 < ids@.len() ==> #[trigger] ids@[k1] < #[trigger] ids@[k2],
            forall|k: int| 0 <= k < ids@.len() ==> self.is_client(#[trigger] ids@[k]),
            forall|i: int|
                0 <= i < self.clients@.len() ==> ids@.contains((#[trigger] self.clients@[i]).id),
    {
        let mut ids: Vec<u8> = Vec::new();
        let mut v: u16 = 0;
        while v < 256
            invariant
                self.wf(),
                v <= 256,
                forall|k1: int, k2: int|
                    0 <= k1 < k2 < ids@.len() ==> #[trigger] ids@[k1] < #[trigger] ids@[k2],
                forall|k: int| 0 <= k < ids@.len() ==> #[trigger] ids@[k] < v,
                forall|k: int| 0 <= k < ids@.len() ==> self.is_client(#[trigger] ids@[k]),
                forall|i: int|
                    0 <= i < self.clients@.len() && (#[trigger] self.clients@[i]).id < v
                        ==> ids@.contains(self.clients@[i].id),
            decreases 256 - v,
        {
            let ghost s0 = ids@;
            let id = v as u8;
            if self.find_client(id).is_some() {
                ids.push(id);
            }
            proof {
                assert forall|i: int|
                    0 <= i < self.clients@.len() && (#[trigger] self.clients@[i]).id < v
                        + 1 implies ids@.contains(self.clients@[i].id) by {
                    if self.clients@[i].id < v {
                        let k = choose|k: int| 0 <= k < s0.len() && s0[k] == self.clients@[i].id;
                        assert(ids@[k] == self.clients@[i].id);
                    } else {
                        assert(ids@.last() == self.clients@[i].id);
                    }
                }
            }
            v += 1;
        }
        ids
    }

    /// The server ids, strictly ascending.
    fn sorted_server_ids(&self) -> (ids: Vec<u8>)
        requires
            self.wf(),
        ensures
            forall|k1: int, k2: int|
                0 <= k1 < k2 < ids@.len() ==> #[trigger] ids@[k1] < #[trigger] ids@[k2],
            forall|k: int| 0 <= k < ids@.len() ==> self.is_server(#[trigger] ids@[k]),
            forall|i: int|
                0 <= i < self.servers@.len() ==> ids@.contains((#[trigger] self.servers@[i]).id),
    {
        let mut ids: Vec<u8> = Vec::new();
        let mut v: u16 = 0;
        while v < 256
            invariant
                self.wf(),
                v <= 256,
                forall|k1: int, k2: int|
                    0 <= k1 < k2 < ids@.len() ==> #[trigger] ids@[k1] < #[trigger] ids@[k2],
                forall|k: int| 0 <= k < ids@.len() ==> #[trigger] ids@[k] < v,
                forall|k: int| 0 <= k < ids@.len() ==> self.is_server(#[trigger] ids@[k]),
                forall|i: int|
                    0 <= i < self.servers@.len() && (#[trigger] self.servers@[i]).id < v
                        ==> ids@.contains(self.servers@[i].id),
            decreases 256 - v,
        {
            let ghost s0 = ids@;
            let id = v as u8;
            if self.find_server(id).is_some() {
                ids.push(id);
            }
            proof {
                assert forall|i: int|
                    0 <= i < self.servers@.len() && (#[trigger] self.servers@[i]).id < v
                        + 1 implies ids@.contains(self.servers@[i].id) by {
                    if self.servers@[i].id < v {
                        let k = choose|k: int| 0 <= k < s0.len() && s0[k] == self.servers@[i].id;
                        assert(ids@[k] == self.servers@[i].id);
                    } else {
                        assert(ids@.last() == self.servers@[i].id);
                    }
                }
            }
            v += 1;
        }
        ids
    }

    /// Every listed pair is a registered drone's id with its stored rate.
    pub open spec fn drone_listing_sound(self, entries: Seq<(u8, u16)>) -> bool {
        forall|k: int|
            #![trigger entries[k]]
            0 <= k < entries.len() ==> exists|i: int|
                0 <= i < self.drones@.len() && (#[trigger] self.drones@[i]).id == entries[k].0
                    && self.drones@[i].rate_hundredths == entries[k].1
    }

    /// Every listed pair is a registered endpoint's id with its role.
    pub open spec fn role_listing_sound(entries: Seq<(u8, NodeRole)>, eps: Seq<NodeEndpoint>) -> bool {
        forall|k: int|
            #![trigger entries[k]]
            0 <= k < entries.len() ==> exists|i: int|
                0 <= i < eps.len() && (#[trigger] eps[i]).id == entries[k].0 && eps[i].role
                    == entries[k].1
    }

    /// Every drone's id with its stored drop rate in hundredths of a
    /// percent, in ascending id order.
    pub fn get_drones_pdr(&self) -> (r: Vec<(u8, u16)>)
        requires
            self.wf(),
        ensures
            forall|k1: int, k2: int|
                0 <= k1 < k2 < r@.len() ==> (#[trigger] r@[k1]).0 < (#[trigger] r@[k2]).0,
            self.drone_listing_sound(r@),
            r@.len() == self.drones@.len(),
    {
        let ids = self.sorted_drone_ids();
        let mut r: Vec<(u8, u16)> = Vec::new();
        let mut k: usize = 0;
        while k < ids.len()
            invariant
                self.wf(),
                k <= ids@.len(),
                r@.len() == k,
                forall|m: int| 0 <= m < k ==> (#[trigger] r@[m]).0 == ids@[m],
                self.drone_listing_sound(r@),
                forall|k1: int, k2: int|
                    0 <= k1 < k2 < ids@.len() ==> #[trigger] ids@[k1] < #[trigger] ids@[k2],
                forall|m: int| 0 <= m < ids@.len() ==> self.is_drone(#[trigger] ids@[m]),
                forall|i: int|
                    0 <= i < self.drones@.len() ==> ids@.contains(
                        (#[trigger] self.drones@[i]).id,
                    ),
            decreases ids@.len() - k,
        {
            match self.find_drone(ids[k]) {
                Some(i) => {
                    r.push((ids[k], self.drones[i].rate_hundredths));
                },
                None => {
                    proof {
                        assert(self.is_drone(ids@[k as int]));
                    }
                },
            }
            k += 1;
        }
        proof {
            let dids = self.drones@.map_values(|e: DroneEndpoint| e.id);
            assert forall|i: int, j: int| 0 <= i < j < dids.len() implies dids[i] != dids[j] by {
                assert(self.drones@[i].id != self.drones@[j].id);
            }
            sorted_no_duplicates(ids@);
            assert forall|x: u8| ids@.contains(x) <==> dids.contains(x) by {
                if ids@.contains(x) {
                    assert(self.is_drone(x));
                    let i = choose|i: int|
                        0 <= i < self.drones@.len() && self.drones@[i].id == x;
                    assert(dids[i] == x);
                }
                if dids.contains(x) {
                    let k = choose|k: int| 0 <= k < dids.len() && dids[k] == x;
                    assert(ids@.contains(self.drones@[k].id));
                }
            }
            lemma_same_members_same_len(ids@, dids);
        }
        r
    }

    /// Every client and every server, as id and role pairs, each list in
    /// ascending id order.
    pub fn get_nodes_with_type(&self) -> (r: (Vec<(u8, NodeRole)>, Vec<(u8, NodeRole)>))
        requires
            self.wf(),
        ensures
            forall|k1: int, k2: int|
                0 <= k1 < k2 < r.0@.len() ==> (#[trigger] r.0@[k1]).0 < (#[trigger] r.0@[k2]).0,
            Self::role_listing_sound(r.0@, self.clients@),
            r.0@.len() == self.clients@.len(),
            forall|k1: int, k2: int|
                0 <= k1 < k2 < r.1@.len() ==> (#[trigger] r.1@[k1]).0 < (#[trigger] r.1@[k2]).0,
            Self::role_listing_sound(r.1@, self.servers@),
            r.1@.len() == self.servers@.len(),
    {
        let cids = self.sorted_client_ids();
        let mut cl: Vec<(u8, NodeRole)> = Vec::new();
        let mut k: usize = 0;
        while k < cids.len()
            invariant
                self.wf(),
                k <= cids@.len(),
                cl@.len() == k,
                forall|m: int| 0 <= m < k ==> (#[trigger] cl@[m]).0 == cids@[m],
                Self::role_listing_sound(cl@, self.clients@),
                forall|k1: int, k2: int|
                    0 <= k1 < k2 < cids@.len() ==> #[trigger] cids@[k1] < #[trigger] cids@[k2],
                forall|m: int| 0 <= m < cids@.len() ==> self.is_client(#[trigger] cids@[m]),
                forall|i: int|
                    0 <= i < self.clients@.len() ==> cids@.contains(
                        (#[trigger] self.clients@[i]).id,
                    ),
            decreases cids@.len() - k,
        {
            match self.find_client(cids[k]) {
                Some(i) => {
                    cl.push((cids[k], self.clients[i].role));
                },
                None => {
                    proof {
                        assert(self.is_client(cids@[k as int]));
                    }
                },
            }
            k += 1;
        }
        proof {
            let pids = self.clients@.map_values(|e: NodeEndpoint| e.id);
            assert forall|i: int, j: int| 0 <= i < j < pids.len() implies pids[i] != pids[j] by {
                assert(self.clients@[i].id != self.clients@[j].id);
            }
            sorted_no_duplicates(cids@);
            assert forall|x: u8| cids@.contains(x) <==> pids.contains(x) by {
                if cids@.contains(x) {
                    assert(self.is_client(x));
                    let i = choose|i: int|
                        0 <= i < self.clients@.len() && self.clients@[i].id == x;
                    assert(pids[i] == x);
                }
                if pids.contains(x) {
                    let k = choose|k: int| 0 <= k < pids.len() && pids[k] == x;
                    assert(cids@.contains(self.clients@[k].id));
                }
            }
            lemma_same_members_same_len(cids@, pids);
        }
        let sids = self.sorted_server_ids();
        let mut sv: Vec<(u8, NodeRole)> = Vec::new();
        let mut k2: usize = 0;
        while k2 < sids.len()
            invariant
                self.wf(),
                k2 <= sids@.len(),
                sv@.len() == k2,
                forall|m: int| 0 <= m < k2 ==> (#[trigger] sv@[m]).0 == sids@[m],
                Self::role_listing_sound(sv@, self.servers@),
                forall|ka: int, kb: int|
                    0 <= ka < kb < sids@.len() ==> #[trigger] sids@[ka] < #[trigger] sids@[kb],
                forall|m: int| 0 <= m < sids@.len() ==> self.is_server(#[trigger] sids@[m]),
                forall|i: int|
                    0 <= i < self.servers@.len() ==> sids@.contains(
                        (#[trigger] self.servers@[i]).id,
                    ),
            decreases sids@.len() - k2,
        {
            match self.find_server(sids[k2]) {
                Some(i) => {
                    sv.push((sids[k2], self.servers[i].role));
                },
                None => {
                    proof {
                        assert(self.is_server(sids@[k2 as int]));
                    }
                },
            }
            k2 += 1;
        }
        proof {
            let pids = self.servers@.map_values(|e: NodeEndpoint| e.id);
            assert forall|i: int, j: int| 0 <= i < j < pids.len() implies pids[i] != pids[j] by {
                assert(self.servers@[i].id != self.servers@[j].id);
            }
            sorted_no_duplicates(sids@);
            assert forall|x: u8| sids@.contains(x) <==> pids.contains(x) by {
                if sids@.contains(x) {
                    assert(self.is_server(x));
                    let i = choose|i: int|
                        0 <= i < self.servers@.len() && self.servers@[i].id == x;
                    assert(pids[i] == x);
                }
                if pids.contains(x) {
                    let k = choose|k: int| 0 <= k < pids.len() && pids[k] == x;
                    assert(sids@.contains(self.servers@[k].id));
                }
            }
            lemma_same_members_same_len(sids@, pids);
        }
        (cl, sv)
    }

    /// A controller with no run installed: no nodes, no endpoints, the
    /// running flag clear, no logging sink yet.
    pub fn new() -> (sc: SimulationController)
        ensures
            !sc.running,
            sc.graph.nodes@.len() == 0,
            sc.clients@.len() == 0,
            sc.servers@.len() == 0,
            sc.drones@.len() == 0,
            sc.comms@.len() == 0,
            sc.logger is None,
            sc.wf(),
    {
        SimulationController {
            running: false,
            graph: crate::graph::TopologyGraph::new(),
            clients: Vec::new(),
            servers: Vec::new(),
            drones: Vec::new(),
            comms: Vec::new(),
            logger: None,
        }
    }

    /// Begins a run: installs the derived topology view, the three
    /// endpoint registries and the transport map, and raises the running
    /// flag. Starting while a run is active changes nothing. The
    /// embedding derives the graph from the initializer's data, spawns
    /// the bridge thread, and shares the flag with it.
    pub fn start_simulation(
        &mut self,
        graph: crate::graph::TopologyGraph,
        clients: Vec<NodeEndpoint>,
        servers: Vec<NodeEndpoint>,
        drones: Vec<DroneEndpoint>,
        comms: Vec<CommsEndpoint>,
    )
        requires
            graph.wf(),
            graph.symmetric(),
            forall|i: int, j: int|
                0 <= i < j < clients@.len() ==> (#[trigger] clients@[i]).id != (
                #[trigger] clients@[j]).id,
            forall|i: int, j: int|
                0 <= i < j < servers@.len() ==> (#[trigger] servers@[i]).id != (
                #[trigger] servers@[j]).id,
            forall|i: int, j: int|
                0 <= i < j < drones@.len() ==> (#[trigger] drones@[i]).id != (
                #[trigger] drones@[j]).id,
            forall|i: int, j: int|
                0 <= i < j < comms@.len() ==> (#[trigger] comms@[i]).id != (
                #[trigger] comms@[j]).id,
            forall|i: int| 0 <= i < drones@.len() ==> (#[trigger] drones@[i]).rate_hundredths <= 10000,
        ensures
            old(self).running ==> Self::same_state(*old(self), *final(self)),
            !old(self).running ==> {
                &&& final(self).running
                &&& final(self).graph == graph
                &&& final(self).clients == clients
                &&& final(self).servers == servers
                &&& final(self).drones == drones
                &&& final(self).comms == comms
                &&& final(self).logger == old(self).logger
                &&& final(self).wf()
            },
    {
        if self.running {
            return ;
        }
        self.running = true;
        self.graph = graph;
        self.clients = clients;
        self.servers = servers;
        self.drones = drones;
        self.comms = comms;
    }

    /// Ends a run: clears the running flag so the bridge thread leaves its
    /// loop at its next wakeup, then drops every endpoint and clears the
    /// graph. Stopping while no run is active changes nothing; the
    /// embedding joins the bridge thread after this returns.
    pub fn stop_simulation(&mut self)
        ensures
            !old(self).running ==> Self::same_state(*old(self), *final(self)),
            old(self).running ==> {
                &&& !final(self).running
                &&& final(self).graph.nodes@.len() == 0
                &&& final(self).clients@.len() == 0
                &&& final(self).servers@.len() == 0
                &&& final(self).drones@.len() == 0
                &&& final(self).comms@.len() == 0
                &&& final(self).logger == old(self).logger
                &&& final(self).wf()
            },
    {
        if !self.running {
            return ;
        }
        self.running = false;
        self.clients.clear();
        self.servers.clear();
        self.drones.clear();
        self.comms.clear();
        self.graph.nodes.clear();
    }
}

/// Installs the logging sink, once: a second call leaves the first sink in
/// place, as the original set-once registration did.
pub fn set_logger(sc: &mut SimulationController, lg: Logger)
    ensures
        old(sc).logger is None ==> final(sc).logger == Some(lg),
        old(sc).logger is Some ==> final(sc).logger == old(sc).logger,
        SimulationController::same_core(*old(sc), *final(sc)),
{
    if sc.logger.is_none() {
        sc.logger = Some(lg);
    }
}

/// Appends a timestamped, color-coded line to the installed sink; without
/// a sink the call does nothing.
pub fn log(sc: &mut SimulationController, msg: &str, color: Rgb)
    ensures
        SimulationController::same_core(*old(sc), *final(sc)),
        old(sc).logger is None ==> final(sc).logger is None,
        old(sc).logger is Some ==> {
            &&& final(sc).logger is Some
            &&& final(sc).logger->0.entries@.len() == old(sc).logger->0.entries@.len() + 1
            &&& crate::logging::is_log_line_for(final(sc).logger->0.entries@.last().text@, msg@)
            &&& final(sc).logger->0.entries@.last().color == color
            &&& forall|i: int|
                0 <= i < old(sc).logger->0.entries@.len() ==> final(sc).logger->0.entries@[i]
                    == old(sc).logger->0.entries@[i]
        },
{
    match &mut sc.logger {
        Some(lg) => {
            lg.log(msg, color);
        },
        None => {},
    }
}

/// Appends with the default (white) severity.
pub fn log_default(sc: &mut SimulationController, msg: &str)
    ensures
        SimulationController::same_core(*old(sc), *final(sc)),
        old(sc).logger is None ==> final(sc).logger is None,
        old(sc).logger is Some ==> {
            &&& final(sc).logger is Some
            &&& final(sc).logger->0.entries@.len() == old(sc).logger->0.entries@.len() + 1
            &&& crate::logging::is_log_line_for(final(sc).logger->0.entries@.last().text@, msg@)
            &&& final(sc).logger->0.entries@.last().color == (Rgb {
                red: 255,
                green: 255,
                blue: 255,
            })
            &&& forall|i: int|
                0 <= i < old(sc).logger->0.entries@.len() ==> final(sc).logger->0.entries@[i]
                    == old(sc).logger->0.entries@[i]
        },
{
    log(sc, msg, Rgb { red: 255, green: 255, blue: 255 });
}

/// A strictly increasing byte sequence has no duplicates.
proof fn sorted_no_duplicates(s: Seq<u8>)
    requires
        forall|i: int, j: int| 0 <= i < j < s.len() ==> #[trigger] s[i] < #[trigger] s[j],
    ensures
        s.no_duplicates(),
{
}

/// Two duplicate-free sequences with the same members have the same length.
proof fn lemma_same_members_same_len(s1: Seq<u8>, s2: Seq<u8>)
    requires
        s1.no_duplicates(),
        s2.no_duplicates(),
        forall|x: u8| s1.contains(x) <==> s2.contains(x),
    ensures
        s1.len() == s2.len(),
{
    broadcast use vstd::set::group_set_axioms;

    s1.unique_seq_to_set();
    s2.unique_seq_to_set();
    assert(s1.to_set() =~= s2.to_set());
}

} // verus!
