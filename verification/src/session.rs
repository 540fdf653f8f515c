//! The per-connection session: a small state machine that owns the
//! connection's liveness timer and command interpreter.
//!
//! The session never touches the registry's maps.  Each method consumes a
//! transport event (or a timer tick) and returns the actions the caller
//! must perform: lines to write to the peer, requests to forward to the
//! registry, or an order to close the transport.
use crate::registry::ClientMessage;
use crate::registry::Disconnect;
use crate::registry::Join;
use crate::registry::ListRooms;
use crate::text::debug_of;
use crate::text::debug_quote;
use crate::text::str_eq;
use crate::text::trim;
use crate::text::trim_of;
use vstd::prelude::*;

verus! {

/// Seconds between two liveness probes.
pub const HEARTBEAT_INTERVAL: u64 = 5;

/// Seconds of silence after which the peer counts as dead: two missed
/// probe intervals.
pub const CLIENT_TIMEOUT: u64 = 10;

/// Where a session stands in its life cycle.
#[derive(Clone, Copy, Debug, PartialEq, Eq, Structural)]
pub enum SessionState {
    Connecting,
    Active,
    Closing,
    Closed,
}

/// One inbound transport event.
pub enum WsEvent {
    /// A liveness probe from the peer, with its payload.
    Ping(Vec<u8>),
    /// The peer answered a probe.
    Pong,
    /// A text frame: a command or a chat line.
    Text(String),
    /// A binary frame: accepted but ignored.
    Binary,
    /// The peer closed the connection.
    Close,
    /// An unexpected continuation frame: a protocol violation.
    Continuation,
    /// Nothing to do.
    Nop,
    /// The transport failed while reading.
    Error,
}

/// A request the session forwards to the registry.
pub enum RegistryMsg {
    Disconnect(Disconnect),
    ClientMessage(ClientMessage),
    ListRooms(ListRooms),
    Join(Join),
}

/// One action the caller must perform on the session's behalf.
pub enum WsAction {
    /// Write this text line to the session's own peer.
    ToPeer(String),
    /// Answer a probe, echoing its payload.
    PongPeer(Vec<u8>),
    /// Send a liveness probe to the peer.
    PingPeer,
    /// Forward this request to the registry.
    ToRegistry(RegistryMsg),
    /// Terminate the transport.
    CloseTransport,
}

/// Per-connection state: the registry-assigned identity, the timestamp of
/// the last observed activity, the current room, and the optional display
/// name.
pub struct WsChatSession {
    pub id: usize,
    pub hb: u64,
    pub room: String,
    pub name: Option<String>,
    pub state: SessionState,
}

/// The interpretation of one trimmed inbound line.
pub ghost enum CmdSpec {
    List,
    Join(Seq<char>),
    JoinMissing,
    Name(Seq<char>),
    NameMissing,
    Unknown,
    Chat(Seq<char>),
}

/// The index of the first space at or after `i`, or `line.len()` if none.
pub open spec fn first_space_from(line: Seq<char>, i: int) -> int
    decreases line.len() - i,
{
    if i < 0 || i >= line.len() {
        line.len() as int
    } else if line[i] == ' ' {
        i
    } else {
        first_space_from(line, i + 1)
    }
}

/// How one trimmed line is interpreted: a line that starts with `/` is
/// split at the first space into a command token and a remainder; any
/// other line is chat content.
pub open spec fn parsed(line: Seq<char>) -> CmdSpec {
    if line.len() == 0 || line[0] != '/' {
        CmdSpec::Chat(line)
    } else {
        let k = first_space_from(line, 0);
        let token = line.take(k);
        if token == "/list"@ {
            CmdSpec::List
        } else if token == "/join"@ {
            if k < line.len() {
                CmdSpec::Join(line.subrange(k + 1, line.len() as int))
            } else {
                CmdSpec::JoinMissing
            }
        } else if token == "/name"@ {
            if k < line.len() {
                CmdSpec::Name(line.subrange(k + 1, line.len() as int))
            } else {
                CmdSpec::NameMissing
            }
        } else {
            CmdSpec::Unknown
        }
    }
}

/// The executable form of a parsed command.
pub enum Command {
    List,
    Join(String),
    JoinMissing,
    Name(String),
    NameMissing,
    Unknown,
    Chat,
}

/// The executable command carries the same interpretation as the spec one.
pub open spec fn cmd_matches(c: Command, s: CmdSpec) -> bool {
    match c {
        Command::List => s is List,
        Command::Join(r) => s matches CmdSpec::Join(rs) && r@ == rs,
        Command::JoinMissing => s is JoinMissing,
        Command::Name(n) => s matches CmdSpec::Name(ns) && n@ == ns,
        Command::NameMissing => s is NameMissing,
        Command::Unknown => s is Unknown,
        Command::Chat => s is Chat,
    }
}

proof fn lemma_first_space_from(line: Seq<char>, j: int, i: int)
    requires
        0 <= j <= i <= line.len(),
        forall|k: int| j <= k < i ==> line[k] != ' ',
        i == line.len() || line[i] == ' ',
    ensures
        first_space_from(line, j) == i,
    decreases i - j,
{
    if j < i {
        assert(line[j] != ' ');
        lemma_first_space_from(line, j + 1, i);
    }
}

/// Splits one trimmed line into its command.
pub fn parse_line(m: &str) -> (c: Command)
    ensures
        cmd_matches(c, parsed(m@)),
{
    let n = m.unicode_len();
    if n == 0 {
        return Command::Chat;
    }
    if m.get_char(0) != '/' {
        return Command::Chat;
    }
    let mut i: usize = 0;
    while i < n && m.get_char(i) != ' '
        invariant
            n == m@.len(),
            i <= n,
            forall|k: int| 0 <= k < i ==> m@[k] != ' ',
        decreases n - i,
    {
        i = i + 1;
    }
    proof {
        lemma_first_space_from(m@, 0, i as int);
    }
    if i == n {
        proof {
            assert(m@.take(i as int) =~= m@);
        }
        if str_eq(m, "/list") {
            Command::List
        } else if str_eq(m, "/join") {
            Command::JoinMissing
        } else if str_eq(m, "/name") {
            Command::NameMissing
        } else {
            Command::Unknown
        }
    } else {
        let token = m.substring_char(0, i);
        let rest = m.substring_char(i + 1, n);
        proof {
            assert(token@ =~= m@.take(i as int));
        }
        if str_eq(token, "/list") {
            Command::List
        } else if str_eq(token, "/join") {
            Command::Join(rest.to_owned())
        } else if str_eq(token, "/name") {
            Command::Name(rest.to_owned())
        } else {
            Command::Unknown
        }
    }
}

/// The chat line that reaches the room: the content itself, prefixed with
/// the display name and a colon when a name is set.
pub open spec fn chat_text(name: Option<String>, content: Seq<char>) -> Seq<char> {
    match name {
        Some(n) => n@ + ": "@ + content,
        None => content,
    }
}

/// What one interpreted line does to an active session `pre`, leaving
/// `post` and emitting `acts`.  The liveness timestamp is tracked
/// separately by the caller.
pub open spec fn line_step(
    pre: WsChatSession,
    line: Seq<char>,
    post: WsChatSession,
    acts: Seq<WsAction>,
) -> bool {
    let c = parsed(line);
    &&& post.state is Active
    &&& post.id == pre.id
    &&& (c is List ==> post.room == pre.room && post.name == pre.name && acts.len() == 1 && (
    acts[0] matches WsAction::ToRegistry(RegistryMsg::ListRooms(_))))
    &&& (c matches CmdSpec::Join(room) ==> {
        &&& post.room@ == room
        &&& post.name == pre.name
        &&& acts.len() == 2
        &&& (acts[0] matches WsAction::ToRegistry(RegistryMsg::Join(jm)) && jm.id == pre.id
            && jm.name@ == room)
        &&& (acts[1] matches WsAction::ToPeer(t) && t@ == "joined"@)
    })
    &&& (c is JoinMissing ==> post.room == pre.room && post.name == pre.name && acts.len() == 1
        && (acts[0] matches WsAction::ToPeer(t) && t@ == "!!! room name is required"@))
    &&& (c matches CmdSpec::Name(n) ==> post.room == pre.room && (post.name matches Some(s) && s@
        == n) && acts.len() == 0)
    &&& (c is NameMissing ==> post.room == pre.room && post.name == pre.name && acts.len() == 1 && (
    acts[0] matches WsAction::ToPeer(t) && t@ == "!!! name is required"@))
    &&& (c is Unknown ==> post.room == pre.room && post.name == pre.name && acts.len() == 1 && (
    acts[0] matches WsAction::ToPeer(t) && t@ == "!!! unknown command: "@ + debug_of(line)))
    &&& (c matches CmdSpec::Chat(content) ==> post.room == pre.room && post.name == pre.name
        && acts.len() == 1 && (acts[0] matches WsAction::ToRegistry(RegistryMsg::ClientMessage(cm))
        && cm.id == pre.id && cm.room@ == pre.room@ && cm.msg@ == chat_text(pre.name, content)))
}

impl WsChatSession {
    /// A fresh session for a transport just accepted: not yet registered,
    /// sitting in the default room, with no display name.
    pub fn new(now: u64) -> (s: WsChatSession)
        ensures
            s.state is Connecting,
            s.hb == now,
            s.id == 0,
            s.room@ == "main"@,
            s.name is None,
    {
        WsChatSession {
            id: 0,
            hb: now,
            room: "main".to_owned(),
            name: None,
            state: SessionState::Connecting,
        }
    }

    /// The registry accepted the registration and assigned `id`.
    pub fn on_registered(&mut self, id: usize)
        requires
            old(self).state is Connecting,
        ensures
            final(self).state is Active,
            final(self).id == id,
            final(self).hb == old(self).hb,
            final(self).room == old(self).room,
            final(self).name == old(self).name,
    {
        self.id = id;
        self.state = SessionState::Active;
    }

    /// The registration was refused: the session ends without ever
    /// becoming active.
    pub fn on_register_failed(&mut self)
        requires
            old(self).state is Connecting,
        ensures
            final(self).state is Closed,
            final(self).id == old(self).id,
            final(self).hb == old(self).hb,
            final(self).room == old(self).room,
            final(self).name == old(self).name,
    {
        self.state = SessionState::Closed;
    }

    /// One liveness-probe tick at time `now`.  An active session that has
    /// observed nothing from its peer for longer than the timeout
    /// unregisters itself and closes the transport; otherwise it probes
    /// the peer.  This is the only mechanism that detects a silently dead
    /// peer.
    pub fn heartbeat_tick(&mut self, now: u64) -> (r: Vec<WsAction>)
        requires
            old(self).hb <= now,
        ensures
            !(old(self).state is Active) ==> *final(self) == *old(self) && r@.len() == 0,
            old(self).state is Active && now - old(self).hb > CLIENT_TIMEOUT ==> {
                &&& final(self).state is Closing
                &&& final(self).id == old(self).id
                &&& final(self).hb == old(self).hb
                &&& final(self).room == old(self).room
                &&& final(self).name == old(self).name
                &&& r@.len() == 2
                &&& (r@[0] matches WsAction::ToRegistry(RegistryMsg::Disconnect(d)) && d.id == old(
                    self,
                ).id)
                &&& r@[1] is CloseTransport
            },
            old(self).state is Active && now - old(self).hb <= CLIENT_TIMEOUT ==> *final(self)
                == *old(self) && r@.len() == 1 && r@[0] is PingPeer,
    {
        let mut out: Vec<WsAction> = Vec::new();
        match self.state {
            SessionState::Active => {
                if now - self.hb > CLIENT_TIMEOUT {
                    self.state = SessionState::Closing;
                    out.push(WsAction::ToRegistry(RegistryMsg::Disconnect(Disconnect { id: self.id })));
                    out.push(WsAction::CloseTransport);
                } else {
                    out.push(WsAction::PingPeer);
                }
            },
            _ => {},
        }
        out
    }

    /// Interprets one already-trimmed text line from the peer: `/list`,
    /// `/join <room>`, `/name <name>`, an unknown command, or chat
    /// content.  Usage errors go back to the peer only and leave all
    /// state untouched.
    pub fn handle_line(&mut self, line: &str) -> (r: Vec<WsAction>)
        ensures
            !(old(self).state is Active) ==> *final(self) == *old(self) && r@.len() == 0,
            old(self).state is Active ==> line_step(*old(self), line@, *final(self), r@)
                && final(self).hb == old(self).hb,
    {
        let mut out: Vec<WsAction> = Vec::new();
        match self.state {
            SessionState::Active => {
                match parse_line(line) {
                    Command::List => {
                        out.push(WsAction::ToRegistry(RegistryMsg::ListRooms(ListRooms {})));
                    },
                    Command::Join(room) => {
                        self.room = room;
                        out.push(
                            WsAction::ToRegistry(
                                RegistryMsg::Join(Join { id: self.id, name: self.room.clone() }),
                            ),
                        );
                        out.push(WsAction::ToPeer("joined".to_owned()));
                    },
                    Command::JoinMissing => {
                        out.push(WsAction::ToPeer("!!! room name is required".to_owned()));
                    },
                    Command::Name(n) => {
                        self.name = Some(n);
                    },
                    Command::NameMissing => {
                        out.push(WsAction::ToPeer("!!! name is required".to_owned()));
                    },
                    Command::Unknown => {
                        let quoted = debug_quote(line);
                        let mut t = "!!! unknown command: ".to_owned();
                        t.append(quoted.as_str());
                        out.push(WsAction::ToPeer(t));
                    },
                    Command::Chat => {
                        let content = match &self.name {
                            Some(nm) => {
                                let mut s = nm.clone();
                                s.append(": ");
                                s.append(line);
                                s
                            },
                            None => line.to_owned(),
                        };
                        out.push(
                            WsAction::ToRegistry(
                                RegistryMsg::ClientMessage(
                                    ClientMessage {
                                        id: self.id,
                                        msg: content,
                                        room: self.room.clone(),
                                    },
                                ),
                            ),
                        );
                    },
                }
            },
            _ => {},
        }
        out
    }

    /// Applies one transport event at time `now`.  Any frame from the
    /// peer counts as activity and refreshes the liveness timestamp; a
    /// close, a protocol violation or a read error moves the session to
    /// `Closing` and unregisters it.
    pub fn handle_event(&mut self, ev: WsEvent, now: u64) -> (r: Vec<WsAction>)
        ensures
            !(old(self).state is Active) ==> *final(self) == *old(self) && r@.len() == 0,
            old(self).state is Active ==> match ev {
                WsEvent::Ping(p) => {
                    &&& final(self).state is Active
                    &&& final(self).hb == now
                    &&& final(self).id == old(self).id
                    &&& final(self).room == old(self).room
                    &&& final(self).name == old(self).name
                    &&& r@.len() == 1
                    &&& (r@[0] matches WsAction::PongPeer(q) && q@ == p@)
                },
                WsEvent::Pong => {
                    &&& final(self).state is Active
                    &&& final(self).hb == now
                    &&& final(self).id == old(self).id
                    &&& final(self).room == old(self).room
                    &&& final(self).name == old(self).name
                    &&& r@.len() == 0
                },
                WsEvent::Binary => {
                    &&& final(self).state is Active
                    &&& final(self).hb == now
                    &&& final(self).id == old(self).id
                    &&& final(self).room == old(self).room
                    &&& final(self).name == old(self).name
                    &&& r@.len() == 0
                },
                WsEvent::Nop => *final(self) == *old(self) && r@.len() == 0,
                WsEvent::Text(t) => {
                    &&& line_step(*old(self), trim_of(t@), *final(self), r@)
                    &&& final(self).hb == now
                },
                WsEvent::Close | WsEvent::Continuation | WsEvent::Error => {
                    &&& final(self).state is Closing
                    &&& final(self).id == old(self).id
                    &&& final(self).hb == old(self).hb
                    &&& final(self).room == old(self).room
                    &&& final(self).name == old(self).name
                    &&& r@.len() == 2
                    &&& (r@[0] matches WsAction::ToRegistry(RegistryMsg::Disconnect(d)) && d.id
                        == old(self).id)
                    &&& r@[1] is CloseTransport
                },
            },
    {
        let mut out: Vec<WsAction> = Vec::new();
        match self.state {
            SessionState::Active => {
                match ev {
                    WsEvent::Ping(p) => {
                        self.hb = now;
                        out.push(WsAction::PongPeer(p));
                    },
                    WsEvent::Pong => {
                        self.hb = now;
                    },
                    WsEvent::Binary => {
                        self.hb = now;
                    },
                    WsEvent::Nop => {},
                    WsEvent::Text(t) => {
                        self.hb = now;
                        let trimmed = trim(t.as_str());
                        let acts = self.handle_line(trimmed);
                        return acts;
                    },
                    WsEvent::Close | WsEvent::Continuation | WsEvent::Error => {
                        self.state = SessionState::Closing;
                        out.push(
                            WsAction::ToRegistry(
                                RegistryMsg::Disconnect(Disconnect { id: self.id }),
                            ),
                        );
                        out.push(WsAction::CloseTransport);
                    },
                }
            },
            _ => {},
        }
        out
    }

    /// The transport is stopping for good: the session reaches its
    /// terminal state and unregisters its identity once more — the
    /// registry treats a repeated unregistration as a harmless no-op.
    pub fn stopping(&mut self) -> (m: Disconnect)
        ensures
            final(self).state is Closed,
            final(self).id == old(self).id,
            final(self).hb == old(self).hb,
            final(self).room == old(self).room,
            final(self).name == old(self).name,
            m.id == old(self).id,
    {
        self.state = SessionState::Closed;
        Disconnect { id: self.id }
    }

    /// Writes the room listing back to the peer, one name per line.
    pub fn on_rooms_list(&self, rooms: &Vec<String>) -> (r: Vec<WsAction>)
        ensures
            r@.len() == rooms@.len(),
            forall|i: int|
                0 <= i < r@.len() ==> (#[trigger] r@[i] matches WsAction::ToPeer(t) && t@
                    == rooms@[i]@),
    {
        let mut out: Vec<WsAction> = Vec::new();
        let mut i: usize = 0;
        while i < rooms.len()
            invariant
                i <= rooms@.len(),
                out@.len() == i,
                forall|k: int|
                    0 <= k < i ==> (#[trigger] out@[k] matches WsAction::ToPeer(t) && t@
                        == rooms@[k]@),
            decreases rooms@.len() - i,
        {
            out.push(WsAction::ToPeer(rooms[i].clone()));
            i = i + 1;
        }
        out
    }
}

} // verus!
