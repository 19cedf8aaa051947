//! The event bridge: decodes the two event streams and decides, per event,
//! what is logged, what the display layer must do, and where a shortcut
//! packet is redelivered.
//!
//! The blocking fair wait over the two sources and the background thread
//! live with the embedding; it feeds every received event through
//! `bridge_step`, so each event is handled exactly once and the decisions
//! here are checked for all of them.

use vstd::prelude::*;
use vstd::string::StringExecFns;

use crate::channels::SendOutcome;
use crate::controller::log;
use crate::controller::Message;
use crate::controller::NodeRole;
use crate::controller::Packet;
use crate::controller::SimulationController;
use crate::dispatch::deliver_shortcut;
use crate::logging::is_log_line_for;
use crate::logging::Rgb;
use crate::text::dec_digits;
use crate::text::fmt_u64;

verus! {

/// A media file as it arrives in an event, its id in canonical text form.
pub struct MediaFileData {
    pub id: String,
    pub title: String,
    pub content: Vec<Vec<u8>>,
}

/// A text file as it arrives in an event.
pub struct StoredTextFile {
    pub id: String,
    pub title: String,
    pub content: String,
}

/// File-transfer notifications from web nodes.
pub enum WebEvent {
    CachedFiles { notification_from: u8, files: Vec<MediaFileData> },
    File { notification_from: u8, file: MediaFileData },
    TextFiles { notification_from: u8, files: Vec<StoredTextFile> },
    TextFile { notification_from: u8, file: StoredTextFile },
    MediaFiles { notification_from: u8, files: Vec<MediaFileData> },
    MediaFile { notification_from: u8, file: MediaFileData },
    FilesListQueried { notification_from: u8, from: u8 },
    FileNotFound { notification_from: u8, id: String },
    TextFileAdded { notification_from: u8, id: String },
    MediaFileAdded { notification_from: u8, id: String },
    TextFileRemoved { notification_from: u8, id: String },
    MediaFileRemoved { notification_from: u8, id: String },
    FileOperationError { notification_from: u8, msg: String },
    FileRequested { notification_from: u8, from: u8, id: String },
    BadUuid { notification_from: u8, from: u8, id: String },
    FileServed { notification_from: u8, file: String },
    FilesLists { notification_from: u8 },
}

/// Chat notifications from chat nodes.
pub enum ChatEvent {
    ChatHistory { notification_from: u8, history: Vec<(u8, Vec<Message>)> },
    RegisteredClients { notification_from: u8, list: Vec<u8> },
    MessageSent { notification_from: u8, to: u8 },
    MessageReceived { notification_from: u8, msg: Message },
    ClientRegistered { client: u8, server: u8 },
    ClientListQueried { notification_from: u8, from: u8 },
    ClientNotInList { notification_from: u8, id: u8 },
    ErrorClientNotFound { notification_from: u8, not_found: u8 },
    RegistrationSucceeded { notification_from: u8, to: u8 },
}

/// Generic topology notifications from any node.
pub enum NodeNotice {
    PacketSent(Packet),
    FloodStarted { flood_counter: u64, node_id: u8 },
    NodeRemoved { node_id: u8 },
    MessageReceived { notification_from: u8, from: u8 },
    MessageSent { notification_from: u8, to: u8 },
    ServerTypeQueried { notification_from: u8, from: u8 },
}

/// Everything the drone-event source can carry: a forwarding report, a
/// drop report, or a request to redeliver a packet out of band.
pub enum DroneEvent {
    PacketSent(Packet),
    PacketDropped(Packet),
    ControllerShortcut(Packet),
}

/// Everything the node-event source can carry.
pub enum NodeSourceEvent {
    Web(WebEvent),
    Chat(ChatEvent),
    Node(NodeNotice),
}

/// What the display layer must do after a node event, beyond logging:
/// persist received payloads or refresh the registered-clients lists.
pub enum NodeEventAction {
    Nothing,
    SaveCachedFiles { owner: u8, files: Vec<MediaFileData> },
    SaveFile { owner: u8, file: MediaFileData },
    SaveTextFiles { owner: u8, files: Vec<StoredTextFile> },
    SaveTextFile { owner: u8, file: StoredTextFile },
    SaveMediaFiles { owner: u8, files: Vec<MediaFileData> },
    SaveMediaFile { owner: u8, file: MediaFileData },
    SaveChatHistory { owner: u8, history: Vec<(u8, Vec<Message>)> },
    RefreshLists { owner: u8, list: Vec<u8> },
}

/// The hop named by the packet's current hop index, or a question mark
/// when the index runs past the route.
pub open spec fn hop_text(p: Packet) -> Seq<char> {
    if p.hop_index < p.hops@.len() {
        dec_digits(p.hops@[p.hop_index as int] as nat)
    } else {
        "?"@
    }
}

/// The packet's declared destination, or a question mark for an empty
/// route.
pub open spec fn dest_text(p: Packet) -> Seq<char> {
    if p.hops@.len() > 0 {
        dec_digits(p.destination() as nat)
    } else {
        "?"@
    }
}

/// The `NOTIFICATION FROM: <id>, ` prefix most log lines share.
pub open spec fn notif_pre(from: u8) -> Seq<char> {
    "NOTIFICATION FROM: "@ + dec_digits(from as nat) + ", "@
}

/// The log message of a drone event.
pub open spec fn drone_event_message(ev: DroneEvent) -> Seq<char> {
    match ev {
        DroneEvent::PacketSent(p) => "PACKET SENT: session "@ + dec_digits(
            p.session_id as nat,
        ) + " at hop "@ + hop_text(p),
        DroneEvent::PacketDropped(p) => "PACKET DROPPED BY "@ + hop_text(p) + ": session "@
            + dec_digits(p.session_id as nat),
        DroneEvent::ControllerShortcut(p) => "CONTROLLER SHORTCUT TO "@ + dest_text(p),
    }
}

/// The severity color of a drone event: informational grey for a sent
/// packet, red for a drop, white for a shortcut.
pub open spec fn drone_event_color(ev: DroneEvent) -> Rgb {
    match ev {
        DroneEvent::PacketSent(_) => Rgb { red: 123, green: 132, blue: 150 },
        DroneEvent::PacketDropped(_) => Rgb { red: 255, green: 0, blue: 0 },
        DroneEvent::ControllerShortcut(_) => Rgb { red: 255, green: 255, blue: 255 },
    }
}

/// The log message of a node event.
pub open spec fn node_event_message(ev: NodeSourceEvent) -> Seq<char> {
    match ev {
        NodeSourceEvent::Web(w) => match w {
            WebEvent::CachedFiles { notification_from, files } => notif_pre(notification_from)
                + "CACHED FILES RECEIVED: "@ + dec_digits(files@.len() as nat) + " files"@,
            WebEvent::File { notification_from, file } => notif_pre(notification_from)
                + "FILE RECEIVED: "@ + file.id@,
            WebEvent::TextFiles { notification_from, files } => notif_pre(notification_from)
                + "TEXT FILES RECEIVED: "@ + dec_digits(files@.len() as nat) + " files"@,
            WebEvent::TextFile { notification_from, file } => notif_pre(notification_from)
                + "TEXT FILE RECEIVED: "@ + file.id@,
            WebEvent::MediaFiles { notification_from, files } => notif_pre(notification_from)
                + "MEDIA FILES RECEIVED: "@ + dec_digits(files@.len() as nat) + " files"@,
            WebEvent::MediaFile { notification_from, file } => notif_pre(notification_from)
                + "MEDIA FILE RECEIVED: "@ + file.id@,
            WebEvent::FilesListQueried { notification_from, from } => notif_pre(notification_from)
                + "FILES LIST QUERIED FROM: "@ + dec_digits(from as nat),
            WebEvent::FileNotFound { notification_from, id } => notif_pre(notification_from)
                + "FILE NOT FOUND: "@ + id@,
            WebEvent::TextFileAdded { notification_from, id } => notif_pre(notification_from)
                + "TEXT FILE ADDED: "@ + id@,
            WebEvent::MediaFileAdded { notification_from, id } => notif_pre(notification_from)
                + "MEDIA FILE ADDED: "@ + id@,
            WebEvent::TextFileRemoved { notification_from, id } => notif_pre(notification_from)
                + "TEXT FILE REMOVED: "@ + id@,
            WebEvent::MediaFileRemoved { notification_from, id } => notif_pre(notification_from)
                + "MEDIA FILE REMOVED: "@ + id@,
            WebEvent::FileOperationError { notification_from, msg } => notif_pre(notification_from)
                + "FILE OPERATION ERROR: "@ + msg@,
            WebEvent::FileRequested { notification_from, from, id } => notif_pre(notification_from)
                + "FILE REQUESTED FROM: "@ + dec_digits(from as nat) + ", UUID: "@ + id@,
            WebEvent::BadUuid { notification_from, from, id } => notif_pre(notification_from)
                + "BAD UUID FROM: "@ + dec_digits(from as nat) + ", UUID: "@ + id@,
            WebEvent::FileServed { notification_from, file } => notif_pre(notification_from)
                + "FILE SERVED: "@ + file@,
            WebEvent::FilesLists { notification_from } => notif_pre(notification_from)
                + "FILE LISTS"@,
        },
        NodeSourceEvent::Chat(c) => match c {
            ChatEvent::ChatHistory { notification_from, history } => notif_pre(notification_from)
                + "CHAT HISTORY RECEIVED"@,
            ChatEvent::RegisteredClients { notification_from, list } => notif_pre(
                notification_from,
            ) + "REGISTERED CLIENTS RECEIVED"@,
            ChatEvent::MessageSent { notification_from, to } => notif_pre(notification_from)
                + "MESSAGE SENT TO: "@ + dec_digits(to as nat),
            ChatEvent::MessageReceived { notification_from, msg } => notif_pre(notification_from)
                + "RECEIVED MESSAGE From "@ + dec_digits(msg.from as nat) + " to "@ + dec_digits(
                msg.to as nat,
            ) + ": "@ + msg.text@,
            ChatEvent::ClientRegistered { client, server } => notif_pre(server)
                + "REGISTERED CLIENT "@ + dec_digits(client as nat),
            ChatEvent::ClientListQueried { notification_from, from } => notif_pre(
                notification_from,
            ) + "CLIENT LIST QUERIED BY "@ + dec_digits(from as nat),
            ChatEvent::ClientNotInList { notification_from, id } => notif_pre(notification_from)
                + "CLIENT "@ + dec_digits(id as nat) + " NOT IN REGISTERED CLIENTS"@,
            ChatEvent::ErrorClientNotFound { notification_from, not_found } => notif_pre(
                notification_from,
            ) + "CLIENT "@ + dec_digits(not_found as nat) + " IS NOT REGISTERED IN SERVER"@,
            ChatEvent::RegistrationSucceeded { notification_from, to } => notif_pre(
                notification_from,
            ) + "SUCCESSFULLY REGISTERED TO SERVER "@ + dec_digits(to as nat),
        },
        NodeSourceEvent::Node(n) => match n {
            NodeNotice::PacketSent(p) => "PACKET SENT: session "@ + dec_digits(p.session_id as nat)
                + " at hop "@ + hop_text(p),
            NodeNotice::FloodStarted { flood_counter, node_id } => notif_pre(node_id)
                + "FLOOD STARTED "@ + dec_digits(flood_counter as nat) + " FLOOD"@,
            NodeNotice::NodeRemoved { node_id } => "REMOVED "@ + dec_digits(node_id as nat)
                + " NODE"@,
            NodeNotice::MessageReceived { notification_from, from } => notif_pre(notification_from)
                + "MESSAGE RECEIVED FROM: "@ + dec_digits(from as nat),
            NodeNotice::MessageSent { notification_from, to } => notif_pre(notification_from)
                + "MESSAGE SENT TO: "@ + dec_digits(to as nat),
            NodeNotice::ServerTypeQueried { notification_from, from } => notif_pre(
                notification_from,
            ) + "SERVER TYPE QUERIED FROM: "@ + dec_digits(from as nat),
        },
    }
}

/// The severity color of a node event: grey for a forwarded packet, white
/// for everything else.
pub open spec fn node_event_color(ev: NodeSourceEvent) -> Rgb {
    match ev {
        NodeSourceEvent::Node(NodeNotice::PacketSent(_)) => Rgb {
            red: 123,
            green: 132,
            blue: 150,
        },
        _ => Rgb { red: 255, green: 255, blue: 255 },
    }
}

/// Whether a node event produces a log line. Everything does but a
/// registered-clients reply, which only refreshes the lists.
pub open spec fn node_event_logs(ev: NodeSourceEvent) -> bool {
    !(ev matches NodeSourceEvent::Chat(ChatEvent::RegisteredClients { .. }))
}

/// The display action a node event demands.
pub open spec fn node_event_action(ev: NodeSourceEvent) -> NodeEventAction {
    match ev {
        NodeSourceEvent::Web(w) => match w {
            WebEvent::CachedFiles { notification_from, files } => NodeEventAction::SaveCachedFiles {
                owner: notification_from,
                files,
            },
            WebEvent::File { notification_from, file } => NodeEventAction::SaveFile {
                owner: notification_from,
                file,
            },
            WebEvent::TextFiles { notification_from, files } => NodeEventAction::SaveTextFiles {
                owner: notification_from,
                files,
            },
            WebEvent::TextFile { notification_from, file } => NodeEventAction::SaveTextFile {
                owner: notification_from,
                file,
            },
            WebEvent::MediaFiles { notification_from, files } => NodeEventAction::SaveMediaFiles {
                owner: notification_from,
                files,
            },
            WebEvent::MediaFile { notification_from, file } => NodeEventAction::SaveMediaFile {
                owner: notification_from,
                file,
            },
            _ => NodeEventAction::Nothing,
        },
        NodeSourceEvent::Chat(c) => match c {
            ChatEvent::ChatHistory { notification_from, history } => {
                NodeEventAction::SaveChatHistory { owner: notification_from, history }
            },
            ChatEvent::RegisteredClients { notification_from, list } => {
                NodeEventAction::RefreshLists { owner: notification_from, list }
            },
            _ => NodeEventAction::Nothing,
        },
        NodeSourceEvent::Node(_) => NodeEventAction::Nothing,
    }
}

/// The logger gained exactly this one stamped line.
pub open spec fn logged_once(
    s0: SimulationController,
    s1: SimulationController,
    msg: Seq<char>,
    color: Rgb,
) -> bool {
    &&& s0.logger is None ==> s1.logger is None
    &&& s0.logger is Some ==> {
        &&& s1.logger is Some
        &&& s1.logger->0.entries@.len() == s0.logger->0.entries@.len() + 1
        &&& is_log_line_for(s1.logger->0.entries@.last().text@, msg)
        &&& s1.logger->0.entries@.last().color == color
        &&& forall|i: int|
            0 <= i < s0.logger->0.entries@.len() ==> s1.logger->0.entries@[i]
                == s0.logger->0.entries@[i]
    }
}

/// Renders the hop named by the packet's current hop index.
fn fmt_hop(p: &Packet) -> (r: String)
    ensures
        r@ == hop_text(*p),
{
    if p.hop_index < p.hops.len() {
        fmt_u64(p.hops[p.hop_index] as u64)
    } else {
        let s = String::from_str("?");
        proof {
            assert(s@ == "?"@);
        }
        s
    }
}

/// Renders the packet's declared destination.
fn fmt_dest(p: &Packet) -> (r: String)
    ensures
        r@ == dest_text(*p),
{
    if p.hops.len() > 0 {
        fmt_u64(p.hops[p.hops.len() - 1] as u64)
    } else {
        let s = String::from_str("?");
        proof {
            assert(s@ == "?"@);
        }
        s
    }
}

/// Renders the shared notification prefix.
fn fmt_notif(from: u8) -> (r: String)
    ensures
        r@ == notif_pre(from),
{
    let mut s = String::from_str("NOTIFICATION FROM: ");
    s.append(fmt_u64(from as u64).as_str());
    s.append(", ");
    proof {
        assert(s@ =~= notif_pre(from));
    }
    s
}

/// Handles one drone event: logs it with its severity, and for a
/// controller shortcut redelivers the packet straight to its destination's
/// transport endpoint. The topology, the registries and the running flag
/// are untouched; only the log grows.
///
/// The result names the redelivery: the destination and the send outcome,
/// present exactly when a shortcut packet had a route and its destination
/// a transport endpoint.
pub fn handle_drone_event(sc: &mut SimulationController, ev: DroneEvent) -> (r: Option<
    (u8, SendOutcome),
>)
    ensures
        SimulationController::same_core(*old(sc), *final(sc)),
        logged_once(*old(sc), *final(sc), drone_event_message(ev), drone_event_color(ev)),
        (ev matches DroneEvent::ControllerShortcut(p) && p.hops@.len() > 0 && old(
            sc,
        ).has_comms(p.destination())) <==> r is Some,
        ev matches DroneEvent::ControllerShortcut(p) ==> (r is Some ==> (r->0).0
            == p.destination()),
{
    match ev {
        DroneEvent::PacketSent(p) => {
            let mut s = String::from_str("PACKET SENT: session ");
            s.append(fmt_u64(p.session_id).as_str());
            s.append(" at hop ");
            s.append(fmt_hop(&p).as_str());
            proof {
                assert(s@ =~= drone_event_message(ev));
            }
            log(sc, s.as_str(), Rgb { red: 123, green: 132, blue: 150 });
            None
        },
        DroneEvent::PacketDropped(p) => {
            let mut s = String::from_str("PACKET DROPPED BY ");
            s.append(fmt_hop(&p).as_str());
            s.append(": session ");
            s.append(fmt_u64(p.session_id).as_str());
            proof {
                assert(s@ =~= drone_event_message(ev));
            }
            log(sc, s.as_str(), Rgb { red: 255, green: 0, blue: 0 });
            None
        },
        DroneEvent::ControllerShortcut(p) => {
            let mut s = String::from_str("CONTROLLER SHORTCUT TO ");
            s.append(fmt_dest(&p).as_str());
            proof {
                assert(s@ =~= drone_event_message(ev));
            }
            log(sc, s.as_str(), Rgb { red: 255, green: 255, blue: 255 });
            if p.hops.len() == 0 {
                return None;
            }
            let dest = p.hops[p.hops.len() - 1];
            match deliver_shortcut(sc, p) {
                Ok(outcome) => Some((dest, outcome)),
                Err(_) => None,
            }
        },
    }
}


/// Handles one node event: logs it (a registered-clients reply only
/// refreshes the lists and logs nothing, as the update handlers are keyed
/// by notification kind) and hands the display layer its action with the
/// received payload. Nothing but the log changes.
pub fn handle_node_event(sc: &mut SimulationController, ev: NodeSourceEvent) -> (r: NodeEventAction)
    ensures
        SimulationController::same_core(*old(sc), *final(sc)),
        node_event_logs(ev) ==> logged_once(
            *old(sc),
            *final(sc),
            node_event_message(ev),
            node_event_color(ev),
        ),
        !node_event_logs(ev) ==> final(sc).logger == old(sc).logger,
        r == node_event_action(ev),
{
    let ghost ev0 = ev;
    let white = Rgb { red: 255, green: 255, blue: 255 };
    match ev {
        NodeSourceEvent::Web(w) => match w {
            WebEvent::CachedFiles { notification_from, files } => {
                let mut s = fmt_notif(notification_from);
                s.append("CACHED FILES RECEIVED: ");
                s.append(fmt_u64(files.len() as u64).as_str());
                s.append(" files");
                proof {
                    assert(s@ =~= node_event_message(ev0));
                }
                log(sc, s.as_str(), white);
                NodeEventAction::SaveCachedFiles { owner: notification_from, files }
            },
            WebEvent::File { notification_from, file } => {
                let mut s = fmt_notif(notification_from);
                s.append("FILE RECEIVED: ");
                s.append(file.id.as_str());
                proof {
                    assert(s@ =~= node_event_message(ev0));
                }
                log(sc, s.as_str(), white);
                NodeEventAction::SaveFile { owner: notification_from, file }
            },
            WebEvent::TextFiles { notification_from, files } => {
                let mut s = fmt_notif(notification_from);
                s.append("TEXT FILES RECEIVED: ");
                s.append(fmt_u64(files.len() as u64).as_str());
                s.append(" files");
                proof {
                    assert(s@ =~= node_event_message(ev0));
                }
                log(sc, s.as_str(), white);
                NodeEventAction::SaveTextFiles { owner: notification_from, files }
            },
            WebEvent::TextFile { notification_from, file } => {
                let mut s = fmt_notif(notification_from);
                s.append("TEXT FILE RECEIVED: ");
                s.append(file.id.as_str());
                proof {
                    assert(s@ =~= node_event_message(ev0));
                }
                log(sc, s.as_str(), white);
                NodeEventAction::SaveTextFile { owner: notification_from, file }
            },
            WebEvent::MediaFiles { notification_from, files } => {
                let mut s = fmt_notif(notification_from);
                s.append("MEDIA FILES RECEIVED: ");
                s.append(fmt_u64(files.len() as u64).as_str());
                s.append(" files");
                proof {
                    assert(s@ =~= node_event_message(ev0));
                }
                log(sc, s.as_str(), white);
                NodeEventAction::SaveMediaFiles { owner: notification_from, files }
            },
            WebEvent::MediaFile { notification_from, file } => {
                let mut s = fmt_notif(notification_from);
                s.append("MEDIA FILE RECEIVED: ");
                s.append(file.id.as_str());
                proof {
                    assert(s@ =~= node_event_message(ev0));
                }
                log(sc, s.as_str(), white);
                NodeEventAction::SaveMediaFile { owner: notification_from, file }
            },
            WebEvent::FilesListQueried { notification_from, from } => {
                let mut s = fmt_notif(notification_from);
                s.append("FILES LIST QUERIED FROM: ");
                s.append(fmt_u64(from as u64).as_str());
                proof {
                    assert(s@ =~= node_event_message(ev0));
                }
                log(sc, s.as_str(), white);
                NodeEventAction::Nothing
            },
            WebEvent::FileNotFound { notification_from, id } => {
                let mut s = fmt_notif(notification_from);
                s.append("FILE NOT FOUND: ");
                s.append(id.as_str());
                proof {
                    assert(s@ =~= node_event_message(ev0));
                }
                log(sc, s.as_str(), white);
                NodeEventAction::Nothing
            },
            WebEvent::TextFileAdded { notification_from, id } => {
                let mut s = fmt_notif(notification_from);
                s.append("TEXT FILE ADDED: ");
                s.append(id.as_str());
                proof {
                    assert(s@ =~= node_event_message(ev0));
                }
                log(sc, s.as_str(), white);
                NodeEventAction::Nothing
            },
            WebEvent::MediaFileAdded { notification_from, id } => {
                let mut s = fmt_notif(notification_from);
                s.append("MEDIA FILE ADDED: ");
                s.append(id.as_str());
                proof {
                    assert(s@ =~= node_event_message(ev0));
                }
                log(sc, s.as_str(), white);
                NodeEventAction::Nothing
            },
            WebEvent::TextFileRemoved { notification_from, id } => {
                let mut s = fmt_notif(notification_from);
                s.append("TEXT FILE REMOVED: ");
                s.append(id.as_str());
                proof {
                    assert(s@ =~= node_event_message(ev0));
                }
                log(sc, s.as_str(), white);
                NodeEventAction::Nothing
            },
            WebEvent::MediaFileRemoved { notification_from, id } => {
                let mut s = fmt_notif(notification_from);
                s.append("MEDIA FILE REMOVED: ");
                s.append(id.as_str());
                proof {
                    assert(s@ =~= node_event_message(ev0));
                }
                log(sc, s.as_str(), white);
                NodeEventAction::Nothing
            },
            WebEvent::FileOperationError { notification_from, msg } => {
                let mut s = fmt_notif(notification_from);
                s.append("FILE OPERATION ERROR: ");
                s.append(msg.as_str());
                proof {
                    assert(s@ =~= node_event_message(ev0));
                }
                log(sc, s.as_str(), white);
                NodeEventAction::Nothing
            },
            WebEvent::FileRequested { notification_from, from, id } => {
                let mut s = fmt_notif(notification_from);
                s.append("FILE REQUESTED FROM: ");
                s.append(fmt_u64(from as u64).as_str());
                s.append(", UUID: ");
                s.append(id.as_str());
                proof {
                    assert(s@ =~= node_event_message(ev0));
                }
                log(sc, s.as_str(), white);
                NodeEventAction::Nothing
            },
            WebEvent::BadUuid { notification_from, from, id } => {
                let mut s = fmt_notif(notification_from);
                s.append("BAD UUID FROM: ");
                s.append(fmt_u64(from as u64).as_str());
                s.append(", UUID: ");
                s.append(id.as_str());
                proof {
                    assert(s@ =~= node_event_message(ev0));
                }
                log(sc, s.as_str(), white);
                NodeEventAction::Nothing
            },
            WebEvent::FileServed { notification_from, file } => {
                let mut s = fmt_notif(notification_from);
                s.append("FILE SERVED: ");
                s.append(file.as_str());
                proof {
                    assert(s@ =~= node_event_message(ev0));
                }
                log(sc, s.as_str(), white);
                NodeEventAction::Nothing
            },
            WebEvent::FilesLists { notification_from } => {
                let mut s = fmt_notif(notification_from);
                s.append("FILE LISTS");
                proof {
                    assert(s@ =~= node_event_message(ev0));
                }
                log(sc, s.as_str(), white);
                NodeEventAction::Nothing
            },
        },
        NodeSourceEvent::Chat(c) => match c {
            ChatEvent::ChatHistory { notification_from, history } => {
                let mut s = fmt_notif(notification_from);
                s.append("CHAT HISTORY RECEIVED");
                proof {
                    assert(s@ =~= node_event_message(ev0));
                }
                log(sc, s.as_str(), white);
                NodeEventAction::SaveChatHistory { owner: notification_from, history }
            },
            ChatEvent::RegisteredClients { notification_from, list } => {
                NodeEventAction::RefreshLists { owner: notification_from, list }
            },
            ChatEvent::MessageSent { notification_from, to } => {
                let mut s = fmt_notif(notification_from);
                s.append("MESSAGE SENT TO: ");
                s.append(fmt_u64(to as u64).as_str());
                proof {
                    assert(s@ =~= node_event_message(ev0));
                }
                log(sc, s.as_str(), white);
                NodeEventAction::Nothing
            },
            ChatEvent::MessageReceived { notification_from, msg } => {
                let mut s = fmt_notif(notification_from);
                s.append("RECEIVED MESSAGE From ");
                s.append(fmt_u64(msg.from as u64).as_str());
                s.append(" to ");
                s.append(fmt_u64(msg.to as u64).as_str());
                s.append(": ");
                s.append(msg.text.as_str());
                proof {
                    assert(s@ =~= node_event_message(ev0));
                }
                log(sc, s.as_str(), white);
                NodeEventAction::Nothing
            },
            ChatEvent::ClientRegistered { client, server } => {
                let mut s = fmt_notif(server);
                s.append("REGISTERED CLIENT ");
                s.append(fmt_u64(client as u64).as_str());
                proof {
                    assert(s@ =~= node_event_message(ev0));
                }
                log(sc, s.as_str(), white);
                NodeEventAction::Nothing
            },
            ChatEvent::ClientListQueried { notification_from, from } => {
                let mut s = fmt_notif(notification_from);
                s.append("CLIENT LIST QUERIED BY ");
                s.append(fmt_u64(from as u64).as_str());
                proof {
                    assert(s@ =~= node_event_message(ev0));
                }
                log(sc, s.as_str(), white);
                NodeEventAction::Nothing
            },
            ChatEvent::ClientNotInList { notification_from, id } => {
                let mut s = fmt_notif(notification_from);
                s.append("CLIENT ");
                s.append(fmt_u64(id as u64).as_str());
                s.append(" NOT IN REGISTERED CLIENTS");
                proof {
                    assert(s@ =~= node_event_message(ev0));
                }
                log(sc, s.as_str(), white);
                NodeEventAction::Nothing
            },
            ChatEvent::ErrorClientNotFound { notification_from, not_found } => {
                let mut s = fmt_notif(notification_from);
                s.append("CLIENT ");
                s.append(fmt_u64(not_found as u64).as_str());
                s.append(" IS NOT REGISTERED IN SERVER");
                proof {
                    assert(s@ =~= node_event_message(ev0));
                }
                log(sc, s.as_str(), white);
                NodeEventAction::Nothing
            },
            ChatEvent::RegistrationSucceeded { notification_from, to } => {
                let mut s = fmt_notif(notification_from);
                s.append("SUCCESSFULLY REGISTERED TO SERVER ");
                s.append(fmt_u64(to as u64).as_str());
                proof {
                    assert(s@ =~= node_event_message(ev0));
                }
                log(sc, s.as_str(), white);
                NodeEventAction::Nothing
            },
        },
        NodeSourceEvent::Node(n) => match n {
            NodeNotice::PacketSent(p) => {
                let mut s = String::from_str("PACKET SENT: session ");
                s.append(fmt_u64(p.session_id).as_str());
                s.append(" at hop ");
                s.append(fmt_hop(&p).as_str());
                proof {
                    assert(s@ =~= node_event_message(ev0));
                }
                log(sc, s.as_str(), Rgb { red: 123, green: 132, blue: 150 });
                NodeEventAction::Nothing
            },
            NodeNotice::FloodStarted { flood_counter, node_id } => {
                let mut s = fmt_notif(node_id);
                s.append("FLOOD STARTED ");
                s.append(fmt_u64(flood_counter).as_str());
                s.append(" FLOOD");
                proof {
                    assert(s@ =~= node_event_message(ev0));
                }
                log(sc, s.as_str(), white);
                NodeEventAction::Nothing
            },
            NodeNotice::NodeRemoved { node_id } => {
                let mut s = String::from_str("REMOVED ");
                s.append(fmt_u64(node_id as u64).as_str());
                s.append(" NODE");
                proof {
                    assert(s@ =~= node_event_message(ev0));
                }
                log(sc, s.as_str(), white);
                NodeEventAction::Nothing
            },
            NodeNotice::MessageReceived { notification_from, from } => {
                let mut s = fmt_notif(notification_from);
                s.append("MESSAGE RECEIVED FROM: ");
                s.append(fmt_u64(from as u64).as_str());
                proof {
                    assert(s@ =~= node_event_message(ev0));
                }
                log(sc, s.as_str(), white);
                NodeEventAction::Nothing
            },
            NodeNotice::MessageSent { notification_from, to } => {
                let mut s = fmt_notif(notification_from);
                s.append("MESSAGE SENT TO: ");
                s.append(fmt_u64(to as u64).as_str());
                proof {
                    assert(s@ =~= node_event_message(ev0));
                }
                log(sc, s.as_str(), white);
                NodeEventAction::Nothing
            },
            NodeNotice::ServerTypeQueried { notification_from, from } => {
                let mut s = fmt_notif(notification_from);
                s.append("SERVER TYPE QUERIED FROM: ");
                s.append(fmt_u64(from as u64).as_str());
                proof {
                    assert(s@ =~= node_event_message(ev0));
                }
                log(sc, s.as_str(), white);
                NodeEventAction::Nothing
            },
        },
    }
}

/// What the event-bridge loop receives on one wakeup.
pub enum BridgeInput {
    Node(NodeSourceEvent),
    Drone(DroneEvent),
    NodeSourceClosed,
    DroneSourceClosed,
}

/// What one bridge step decided.
pub enum BridgeStep {
    HandledNode(NodeEventAction),
    HandledDrone(Option<(u8, SendOutcome)>),
    Stop,
}

/// The loop goes on: the running flag is set and neither source closed.
pub open spec fn bridge_continues(running: bool, input: BridgeInput) -> bool {
    running && !(input is NodeSourceClosed) && !(input is DroneSourceClosed)
}

/// The line logged when the drone-event source closes underneath the loop.
pub open spec fn drone_closed_message() -> Seq<char> {
    "DRONE EVENT SOURCE CLOSED"@
}

/// One decision of the event-bridge loop: with the running flag clear or a
/// source closed the loop ends; otherwise the event is handled exactly
/// once. The embedding blocks on a fair wait across both sources, calls
/// this for whatever arrives first, and performs the returned action.
pub fn bridge_step(sc: &mut SimulationController, running: bool, input: BridgeInput) -> (r:
    BridgeStep)
    ensures
        SimulationController::same_core(*old(sc), *final(sc)),
        (r is Stop) <==> !bridge_continues(running, input),
        !running ==> SimulationController::same_state(*old(sc), *final(sc)),
        running ==> (input matches BridgeInput::Node(ev) ==> {
            &&& r == BridgeStep::HandledNode(node_event_action(ev))
            &&& node_event_logs(ev) ==> logged_once(
                *old(sc),
                *final(sc),
                node_event_message(ev),
                node_event_color(ev),
            )
            &&& !node_event_logs(ev) ==> final(sc).logger == old(sc).logger
        }),
        running ==> (input matches BridgeInput::Drone(ev) ==> {
            &&& logged_once(*old(sc), *final(sc), drone_event_message(ev), drone_event_color(ev))
            &&& r is HandledDrone
            &&& (ev matches DroneEvent::ControllerShortcut(p) ==> (r matches
            BridgeStep::HandledDrone(x) ==> ((p.hops@.len() > 0 && old(sc).has_comms(
                p.destination(),
            )) <==> x is Some) && (x is Some ==> (x->0).0 == p.destination())))
        }),
        running && input is NodeSourceClosed ==> SimulationController::same_state(
            *old(sc),
            *final(sc),
        ),
        running && input is DroneSourceClosed ==> logged_once(
            *old(sc),
            *final(sc),
            drone_closed_message(),
            (Rgb { red: 255, green: 0, blue: 0 }),
        ),
{
    if !running {
        return BridgeStep::Stop;
    }
    match input {
        BridgeInput::Node(ev) => BridgeStep::HandledNode(handle_node_event(sc, ev)),
        BridgeInput::Drone(ev) => BridgeStep::HandledDrone(handle_drone_event(sc, ev)),
        BridgeInput::NodeSourceClosed => BridgeStep::Stop,
        BridgeInput::DroneSourceClosed => {
            proof {
                reveal_strlit("DRONE EVENT SOURCE CLOSED");
            }
            log(sc, "DRONE EVENT SOURCE CLOSED", Rgb { red: 255, green: 0, blue: 0 });
            BridgeStep::Stop
        },
    }
}


/// The items of a display id list, comma separated.
pub open spec fn id_list_items(s: Seq<u8>) -> Seq<char>
    decreases s.len(),
{
    if s.len() == 0 {
        Seq::empty()
    } else if s.len() == 1 {
        dec_digits(s[0] as nat)
    } else {
        id_list_items(s.drop_last()) + ", "@ + dec_digits(s.last() as nat)
    }
}

/// A display id list, bracketed.
pub open spec fn id_list_text(s: Seq<u8>) -> Seq<char> {
    "["@ + id_list_items(s) + "]"@
}

/// Renders an id list for display.
fn fmt_id_list(v: &Vec<u8>) -> (r: String)
    ensures
        r@ == id_list_text(v@),
{
    let mut s = String::from_str("[");
    let mut i: usize = 0;
    while i < v.len()
        invariant
            i <= v@.len(),
            s@ == "["@ + id_list_items(v@.take(i as int)),
        decreases v@.len() - i,
    {
        if i > 0 {
            s.append(", ");
        }
        s.append(fmt_u64(v[i] as u64).as_str());
        proof {
            assert(v@.take(i + 1).drop_last() == v@.take(i as int));
            assert(v@.take(i + 1).last() == v@[i as int]);
            assert(s@ =~= "["@ + id_list_items(v@.take(i + 1)));
        }
        i += 1;
    }
    proof {
        assert(v@.take(v@.len() as int) == v@);
    }
    s.append("]");
    proof {
        assert(s@ =~= id_list_text(v@));
    }
    s
}

/// One entry of a display list.
pub struct DisplayRow {
    pub id: String,
    pub title: String,
    pub subtitle: String,
    pub kind: String,
}

/// The fields a client's display row must carry.
pub open spec fn client_row_ok(row: DisplayRow, id: u8, role: NodeRole) -> bool {
    &&& row.id@ == dec_digits(id as nat)
    &&& row.title@ == "Client "@ + dec_digits(id as nat)
    &&& row.subtitle@ == role.spec_label()
    &&& row.kind@ == role.spec_label()
}

/// The fields a server's display row must carry: the server the
/// registered-clients reply came from shows the list in its subtitle.
pub open spec fn server_row_ok(
    row: DisplayRow,
    id: u8,
    role: NodeRole,
    highlight: u8,
    list: Seq<u8>,
) -> bool {
    &&& row.id@ == dec_digits(id as nat)
    &&& row.title@ == "Server "@ + dec_digits(id as nat)
    &&& row.subtitle@ == (if id == highlight {
        role.spec_label() + " | "@ + id_list_text(list)
    } else {
        role.spec_label()
    })
    &&& row.kind@ == role.spec_label()
}

/// Builds the refreshed client and server display rows after a
/// registered-clients reply: every client and server appears once, in the
/// given order, and the replying server's subtitle carries the list.
pub fn handle_registered_clients(
    notification_from: u8,
    list: &Vec<u8>,
    clients: &Vec<(u8, NodeRole)>,
    servers: &Vec<(u8, NodeRole)>,
) -> (r: (Vec<DisplayRow>, Vec<DisplayRow>))
    ensures
        r.0@.len() == clients@.len(),
        forall|k: int|
            0 <= k < clients@.len() ==> client_row_ok(
                #[trigger] r.0@[k],
                clients@[k].0,
                clients@[k].1,
            ),
        r.1@.len() == servers@.len(),
        forall|k: int|
            0 <= k < servers@.len() ==> server_row_ok(
                #[trigger] r.1@[k],
                servers@[k].0,
                servers@[k].1,
                notification_from,
                list@,
            ),
{
    let mut cl: Vec<DisplayRow> = Vec::new();
    let mut i: usize = 0;
    while i < clients.len()
        invariant
            i <= clients@.len(),
            cl@.len() == i,
            forall|k: int|
                0 <= k < i ==> client_row_ok(#[trigger] cl@[k], clients@[k].0, clients@[k].1),
        decreases clients@.len() - i,
    {
        let (id, role) = clients[i];
        let mut title = String::from_str("Client ");
        title.append(fmt_u64(id as u64).as_str());
        let row = DisplayRow {
            id: fmt_u64(id as u64),
            title,
            subtitle: String::from_str(role.label()),
            kind: String::from_str(role.label()),
        };
        proof {
            assert(row.title@ =~= "Client "@ + dec_digits(id as nat));
        }
        cl.push(row);
        i += 1;
    }
    let mut sv: Vec<DisplayRow> = Vec::new();
    let mut j: usize = 0;
    while j < servers.len()
        invariant
            j <= servers@.len(),
            sv@.len() == j,
            forall|k: int|
                0 <= k < j ==> server_row_ok(
                    #[trigger] sv@[k],
                    servers@[k].0,
                    servers@[k].1,
                    notification_from,
                    list@,
                ),
        decreases servers@.len() - j,
    {
        let (id, role) = servers[j];
        let mut title = String::from_str("Server ");
        title.append(fmt_u64(id as u64).as_str());
        let subtitle = if id == notification_from {
            let mut st = String::from_str(role.label());
            st.append(" | ");
            st.append(fmt_id_list(list).as_str());
            proof {
                assert(st@ =~= role.spec_label() + " | "@ + id_list_text(list@));
            }
            st
        } else {
            String::from_str(role.label())
        };
        let row = DisplayRow { id: fmt_u64(id as u64), title, subtitle, kind: String::from_str(
            role.label(),
        ) };
        proof {
            assert(row.title@ =~= "Server "@ + dec_digits(id as nat));
        }
        sv.push(row);
        j += 1;
    }
    (cl, sv)
}

} // verus!
