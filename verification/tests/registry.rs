use demcru::registry::ChatServer;
use demcru::registry::ClientMessage;
use demcru::registry::Connect;
use demcru::registry::Delivery;
use demcru::registry::Disconnect;
use demcru::registry::Join;
use demcru::registry::ListRooms;

fn pairs(ds: &[Delivery]) -> Vec<(usize, String)> {
    ds.iter().map(|d| (d.to, d.msg.0.clone())).collect()
}

fn join(srv: &mut ChatServer, id: usize, room: &str) -> Vec<Delivery> {
    srv.handle_join(Join { id, name: room.to_string() })
}

fn say(srv: &ChatServer, id: usize, room: &str, text: &str) -> Vec<Delivery> {
    srv.handle_client_message(&ClientMessage {
        id,
        msg: text.to_string(),
        room: room.to_string(),
    })
}

#[test]
fn register_assigns_fresh_ids_and_counts() {
    let mut srv = ChatServer::new();
    assert_eq!(srv.get_count(), 0);
    assert_eq!(srv.session_count(), 0);
    let (a, _) = srv.handle_connect(Connect {});
    let (b, _) = srv.handle_connect(Connect {});
    assert_ne!(a, b);
    assert!(srv.is_registered(a));
    assert!(srv.is_registered(b));
    assert_eq!(srv.session_count(), 2);
    assert_eq!(srv.get_count(), 2);
}

#[test]
fn register_broadcasts_join_and_total() {
    let mut srv = ChatServer::new();
    let (a, first) = srv.handle_connect(Connect {});
    // both lines reach the room's existing and new members alike
    assert_eq!(
        pairs(&first),
        vec![
            (a, "Someone joined".to_string()),
            (a, "Total visitors 1".to_string()),
        ]
    );
    let (b, second) = srv.handle_connect(Connect {});
    assert_eq!(
        pairs(&second),
        vec![
            (a, "Someone joined".to_string()),
            (b, "Someone joined".to_string()),
            (a, "Total visitors 2".to_string()),
            (b, "Total visitors 2".to_string()),
        ]
    );
}

#[test]
fn unregister_twice_is_noop() {
    let mut srv = ChatServer::new();
    let (a, _) = srv.handle_connect(Connect {});
    let (b, _) = srv.handle_connect(Connect {});
    let first = srv.handle_disconnect(Disconnect { id: a });
    assert_eq!(pairs(&first), vec![(b, "Someone dissconnected".to_string())]);
    assert_eq!(srv.session_count(), 1);
    assert!(!srv.is_registered(a));
    let second = srv.handle_disconnect(Disconnect { id: a });
    assert!(second.is_empty());
    assert_eq!(srv.session_count(), 1);
    assert!(srv.is_registered(b));
}

#[test]
fn broadcast_to_nonexistent_room_is_noop() {
    let mut srv = ChatServer::new();
    let (a, _) = srv.handle_connect(Connect {});
    let out = say(&srv, a, "nowhere", "hello");
    assert!(out.is_empty());
    assert_eq!(srv.session_count(), 1);
    let rooms = srv.handle_list_rooms(&ListRooms {});
    assert_eq!(rooms, vec!["main".to_string()]);
}

#[test]
fn broadcast_reaches_members_but_not_sender() {
    let mut srv = ChatServer::new();
    let (a, _) = srv.handle_connect(Connect {});
    let (b, _) = srv.handle_connect(Connect {});
    join(&mut srv, a, "lobby");
    join(&mut srv, b, "lobby");
    let from_a = say(&srv, a, "lobby", "x");
    assert_eq!(pairs(&from_a), vec![(b, "x".to_string())]);
    let from_b = say(&srv, b, "lobby", "x");
    assert_eq!(pairs(&from_b), vec![(a, "x".to_string())]);
}

#[test]
fn join_makes_membership_exclusive() {
    let mut srv = ChatServer::new();
    let (a, _) = srv.handle_connect(Connect {});
    let (b, _) = srv.handle_connect(Connect {});
    let moved = join(&mut srv, a, "lobby");
    // the departure notice goes to the member left behind; the new room is empty
    assert_eq!(pairs(&moved), vec![(b, "Someone dissconneted".to_string())]);
    // a broadcast in "main" no longer reaches a; one in "lobby" reaches only a
    let in_main = say(&srv, 0, "main", "m");
    assert_eq!(pairs(&in_main), vec![(b, "m".to_string())]);
    let in_lobby = say(&srv, 0, "lobby", "l");
    assert_eq!(pairs(&in_lobby), vec![(a, "l".to_string())]);
}

#[test]
fn rejoining_the_same_room_still_announces() {
    let mut srv = ChatServer::new();
    let (a, _) = srv.handle_connect(Connect {});
    let (b, _) = srv.handle_connect(Connect {});
    join(&mut srv, a, "lobby");
    join(&mut srv, b, "lobby");
    let again = join(&mut srv, a, "lobby");
    assert_eq!(
        pairs(&again),
        vec![
            (b, "Someone dissconneted".to_string()),
            (b, "Someone connected".to_string()),
        ]
    );
}

#[test]
fn list_rooms_includes_empty_rooms() {
    let mut srv = ChatServer::new();
    let (a, _) = srv.handle_connect(Connect {});
    join(&mut srv, a, "lobby");
    let rooms = srv.handle_list_rooms(&ListRooms {});
    assert_eq!(rooms.len(), 2);
    assert!(rooms.contains(&"main".to_string()));
    assert!(rooms.contains(&"lobby".to_string()));
    // the rooms persist even when their last member leaves
    srv.handle_disconnect(Disconnect { id: a });
    let rooms = srv.handle_list_rooms(&ListRooms {});
    assert_eq!(rooms.len(), 2);
    assert!(rooms.contains(&"main".to_string()));
    assert!(rooms.contains(&"lobby".to_string()));
}

#[test]
fn disconnect_announces_to_each_room_left() {
    let mut srv = ChatServer::new();
    let (a, _) = srv.handle_connect(Connect {});
    let (b, _) = srv.handle_connect(Connect {});
    let out = srv.handle_disconnect(Disconnect { id: b });
    assert_eq!(pairs(&out), vec![(a, "Someone dissconnected".to_string())]);
    assert!(!srv.is_registered(b));
    assert_eq!(srv.get_count(), 2);
}
