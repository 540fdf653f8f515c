use demcru::registry::ChatServer;
use demcru::registry::Connect;
use demcru::registry::Delivery;
use demcru::session::Command;
use demcru::session::RegistryMsg;
use demcru::session::SessionState;
use demcru::session::WsAction;
use demcru::session::WsChatSession;
use demcru::session::WsEvent;
use demcru::session::CLIENT_TIMEOUT;

fn pairs(ds: &[Delivery]) -> Vec<(usize, String)> {
    ds.iter().map(|d| (d.to, d.msg.0.clone())).collect()
}

/// Plays the part of the surrounding program: forwards the session's
/// registry requests and collects what came back for the peer.
fn run_actions(srv: &mut ChatServer, acts: Vec<WsAction>) -> Vec<Delivery> {
    let mut out = Vec::new();
    for act in acts {
        if let WsAction::ToRegistry(msg) = act {
            match msg {
                RegistryMsg::Disconnect(d) => {
                    out.append(&mut srv.handle_disconnect(d));
                }
                RegistryMsg::ClientMessage(cm) => {
                    out.append(&mut srv.handle_client_message(&cm));
                }
                RegistryMsg::Join(j) => {
                    out.append(&mut srv.handle_join(j));
                }
                RegistryMsg::ListRooms(_) => {}
            }
        }
    }
    out
}

fn peer_lines(acts: &[WsAction]) -> Vec<String> {
    let mut out = Vec::new();
    for act in acts {
        if let WsAction::ToPeer(t) = act {
            out.push(t.clone());
        }
    }
    out
}

fn new_active(srv: &mut ChatServer, now: u64) -> WsChatSession {
    let mut sess = WsChatSession::new(now);
    let (id, _) = srv.handle_connect(Connect {});
    sess.on_registered(id);
    sess
}

#[test]
fn named_chat_reaches_the_other_member_only() {
    let mut srv = ChatServer::new();
    let mut a = new_active(&mut srv, 0);
    let mut b = new_active(&mut srv, 0);
    let acts = a.handle_event(WsEvent::Text("/join lobby".to_string()), 1);
    run_actions(&mut srv, acts);
    let acts = b.handle_event(WsEvent::Text("/join lobby".to_string()), 1);
    run_actions(&mut srv, acts);
    let acts = a.handle_event(WsEvent::Text("/name Alice".to_string()), 2);
    assert!(acts.is_empty());
    let acts = a.handle_event(WsEvent::Text("hi".to_string()), 3);
    let delivered = run_actions(&mut srv, acts);
    assert_eq!(pairs(&delivered), vec![(b.id, "Alice: hi".to_string())]);
}

#[test]
fn join_without_argument_is_a_usage_error() {
    let mut srv = ChatServer::new();
    let mut a = new_active(&mut srv, 0);
    let room_before = a.room.clone();
    let acts = a.handle_event(WsEvent::Text("/join ".to_string()), 1);
    assert_eq!(peer_lines(&acts), vec!["!!! room name is required".to_string()]);
    assert!(!acts.iter().any(|x| matches!(x, WsAction::ToRegistry(_))));
    assert_eq!(a.room, room_before);
    // membership is unchanged: a still receives broadcasts in "main"
    let delivered = srv.handle_client_message(&demcru::registry::ClientMessage {
        id: 0,
        msg: "still here".to_string(),
        room: "main".to_string(),
    });
    assert_eq!(pairs(&delivered), vec![(a.id, "still here".to_string())]);
}

#[test]
fn heartbeat_timeout_evicts_the_silent_peer() {
    let mut srv = ChatServer::new();
    let mut a = new_active(&mut srv, 0);
    assert_eq!(srv.session_count(), 1);
    // within the timeout: only a probe goes out
    let acts = a.heartbeat_tick(CLIENT_TIMEOUT);
    assert!(matches!(acts[..], [WsAction::PingPeer]));
    assert_eq!(srv.session_count(), 1);
    // past the timeout: the session closes and unregisters itself
    let acts = a.heartbeat_tick(CLIENT_TIMEOUT + 1);
    assert!(matches!(
        acts[..],
        [WsAction::ToRegistry(RegistryMsg::Disconnect(_)), WsAction::CloseTransport]
    ));
    assert_eq!(a.state, SessionState::Closing);
    run_actions(&mut srv, acts);
    assert_eq!(srv.session_count(), 0);
}

#[test]
fn pong_refreshes_the_liveness_clock() {
    let mut srv = ChatServer::new();
    let mut a = new_active(&mut srv, 0);
    let acts = a.handle_event(WsEvent::Pong, 8);
    assert!(acts.is_empty());
    // 12 - 8 is within the timeout, although 12 alone would not have been
    let acts = a.heartbeat_tick(12);
    assert!(matches!(acts[..], [WsAction::PingPeer]));
    assert_eq!(a.state, SessionState::Active);
}

#[test]
fn ping_is_answered_with_its_payload() {
    let mut srv = ChatServer::new();
    let mut a = new_active(&mut srv, 0);
    let acts = a.handle_event(WsEvent::Ping(vec![1, 2, 3]), 4);
    assert_eq!(acts.len(), 1);
    assert!(matches!(&acts[0], WsAction::PongPeer(p) if p == &vec![1u8, 2, 3]));
    assert_eq!(a.hb, 4);
}

#[test]
fn binary_frames_are_ignored_but_count_as_activity() {
    let mut srv = ChatServer::new();
    let mut a = new_active(&mut srv, 0);
    let acts = a.handle_event(WsEvent::Binary, 5);
    assert!(acts.is_empty());
    let acts = a.heartbeat_tick(14);
    assert!(matches!(acts[..], [WsAction::PingPeer]));
}

#[test]
fn unknown_command_is_echoed() {
    let mut srv = ChatServer::new();
    let mut a = new_active(&mut srv, 0);
    let acts = a.handle_event(WsEvent::Text("/frobnicate now".to_string()), 1);
    // the echoed line is quoted and escaped, as the debug format writes it
    assert_eq!(
        peer_lines(&acts),
        vec!["!!! unknown command: \"/frobnicate now\"".to_string()]
    );
}

#[test]
fn list_round_trip_prints_every_room() {
    let mut srv = ChatServer::new();
    let mut a = new_active(&mut srv, 0);
    let acts = a.handle_event(WsEvent::Text("/join lobby".to_string()), 1);
    run_actions(&mut srv, acts);
    let acts = a.handle_event(WsEvent::Text("/list".to_string()), 2);
    assert!(matches!(
        acts[..],
        [WsAction::ToRegistry(RegistryMsg::ListRooms(_))]
    ));
    let rooms = srv.handle_list_rooms(&demcru::registry::ListRooms {});
    let replies = a.on_rooms_list(&rooms);
    assert_eq!(peer_lines(&replies), rooms);
}

#[test]
fn inbound_lines_are_trimmed() {
    let mut srv = ChatServer::new();
    let mut a = new_active(&mut srv, 0);
    let mut b = new_active(&mut srv, 0);
    let acts = a.handle_event(WsEvent::Text("   hello there   ".to_string()), 1);
    let delivered = run_actions(&mut srv, acts);
    assert_eq!(pairs(&delivered), vec![(b.id, "hello there".to_string())]);
    // a trimmed command is still a command
    let acts = b.handle_event(WsEvent::Text("  /name Bob  ".to_string()), 1);
    assert!(acts.is_empty());
    assert_eq!(b.name.as_deref(), Some("Bob"));
}

#[test]
fn close_frame_unregisters_and_ends_the_session() {
    let mut srv = ChatServer::new();
    let mut a = new_active(&mut srv, 0);
    let acts = a.handle_event(WsEvent::Close, 2);
    assert!(matches!(
        acts[..],
        [WsAction::ToRegistry(RegistryMsg::Disconnect(_)), WsAction::CloseTransport]
    ));
    assert_eq!(a.state, SessionState::Closing);
    run_actions(&mut srv, acts);
    assert_eq!(srv.session_count(), 0);
    // terminal: further input does nothing
    let acts = a.handle_event(WsEvent::Text("hi".to_string()), 3);
    assert!(acts.is_empty());
    let d = a.stopping();
    assert_eq!(d.id, a.id);
    assert_eq!(a.state, SessionState::Closed);
}

#[test]
fn protocol_violation_ends_the_session() {
    let mut srv = ChatServer::new();
    let mut a = new_active(&mut srv, 0);
    let acts = a.handle_event(WsEvent::Nop, 1);
    assert!(acts.is_empty());
    assert_eq!(a.state, SessionState::Active);
    let acts = a.handle_event(WsEvent::Continuation, 2);
    assert!(matches!(
        acts[..],
        [WsAction::ToRegistry(RegistryMsg::Disconnect(_)), WsAction::CloseTransport]
    ));
    assert_eq!(a.state, SessionState::Closing);
    run_actions(&mut srv, acts);
    // only this session is affected
    assert_eq!(srv.session_count(), 0);
    assert_eq!(srv.get_count(), 1);
}

#[test]
fn read_error_ends_the_session() {
    let mut srv = ChatServer::new();
    let mut a = new_active(&mut srv, 0);
    let acts = a.handle_event(WsEvent::Error, 2);
    assert!(matches!(
        acts[..],
        [WsAction::ToRegistry(RegistryMsg::Disconnect(_)), WsAction::CloseTransport]
    ));
    assert_eq!(a.state, SessionState::Closing);
}

#[test]
fn registration_failure_closes_the_session() {
    let mut a = WsChatSession::new(0);
    assert_eq!(a.state, SessionState::Connecting);
    a.on_register_failed();
    assert_eq!(a.state, SessionState::Closed);
}

#[test]
fn parse_line_covers_every_command_shape() {
    assert!(matches!(demcru::session::parse_line("/list"), Command::List));
    assert!(matches!(demcru::session::parse_line("/list rooms"), Command::List));
    assert!(matches!(
        demcru::session::parse_line("/join lobby"),
        Command::Join(r) if r == "lobby"
    ));
    assert!(matches!(demcru::session::parse_line("/join"), Command::JoinMissing));
    assert!(matches!(
        demcru::session::parse_line("/name Alice B"),
        Command::Name(n) if n == "Alice B"
    ));
    assert!(matches!(demcru::session::parse_line("/name"), Command::NameMissing));
    assert!(matches!(demcru::session::parse_line("/what now"), Command::Unknown));
    assert!(matches!(demcru::session::parse_line("hello"), Command::Chat));
    assert!(matches!(demcru::session::parse_line(""), Command::Chat));
}
