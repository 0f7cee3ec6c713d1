use speer_chat::app::{AppState, NetLevel};
use speer_chat::ffi::Identity;
use speer_chat::rendezvous::{
    ends_reply, handle_rendezvous_client, list_peers, register_peer, rendezvous_request,
    rendezvous_round, rendezvous_turn, round_done, server_arrival, server_bound, token, Arrival,
    Rooms, Round, ENTRY_TTL,
};

fn state() -> AppState {
    let identity = Identity {
        static_pub: [1; 32],
        static_priv: [2; 32],
        ed_pub: [3; 32],
        ed_seed: [4; 32],
        peer_id: "me".to_string(),
    };
    AppState::new(identity, "me".to_string(), "midnight", 0)
}

fn last_log(app: &AppState) -> (NetLevel, String) {
    let e = app.netlog.back().unwrap();
    (e.level, e.text.clone())
}

fn listed(rooms: &mut Rooms, room: &str, mono: u64) -> Vec<(String, String)> {
    list_peers(rooms, room, mono).into_iter().map(|e| (e.peer_id, e.addr)).collect()
}

#[test]
fn tokens_lose_space_and_control() {
    assert_eq!(token(" a\tb\u{7}c\u{a0}d "), "abcd");
    assert_eq!(token(""), "");
    assert_eq!(token("héllo"), "héllo");
}

#[test]
fn the_newest_entry_of_a_peer_stays() {
    let mut rooms = Rooms::new();
    register_peer(&mut rooms, "den", "p", "a:1", 0);
    register_peer(&mut rooms, "den", "q", "b:2", 1);
    register_peer(&mut rooms, "den", "p", "a:3", 2);
    register_peer(&mut rooms, "attic", "p", "c:4", 3);
    assert_eq!(
        listed(&mut rooms, "den", 4),
        vec![("q".to_string(), "b:2".to_string()), ("p".to_string(), "a:3".to_string())]
    );
    assert_eq!(listed(&mut rooms, "attic", 4).len(), 1);
    assert!(listed(&mut rooms, "cellar", 4).is_empty());
}

#[test]
fn entries_expire() {
    let mut rooms = Rooms::new();
    register_peer(&mut rooms, "den", "p", "a:1", 10);
    register_peer(&mut rooms, "den", "q", "b:2", 20);
    assert_eq!(listed(&mut rooms, "den", 9 + ENTRY_TTL).len(), 2);
    assert_eq!(
        listed(&mut rooms, "den", 10 + ENTRY_TTL),
        vec![("q".to_string(), "b:2".to_string())]
    );
    assert!(listed(&mut rooms, "den", 20 + ENTRY_TTL).is_empty());
    assert!(listed(&mut rooms, "den", 0).is_empty());
}

#[test]
fn lines_of_a_client() {
    let mut rooms = Rooms::new();
    let r = handle_rendezvous_client(&mut rooms, "REGISTER den p a:1\r\n", 0);
    assert_eq!(r.lines, vec!["OK".to_string()]);
    assert!(!r.done);
    let r = handle_rendezvous_client(&mut rooms, "LIST den\n", 0);
    assert_eq!(r.lines, vec!["PEER p a:1".to_string(), "END".to_string()]);
    let r = handle_rendezvous_client(&mut rooms, "LIST attic", 0);
    assert_eq!(r.lines, vec!["END".to_string()]);
    for line in ["REGISTER den p", "REGISTER", "LIST", "list den", ""] {
        let r = handle_rendezvous_client(&mut rooms, line, 0);
        assert!(r.lines.is_empty() && !r.done, "{line}");
    }
    let r = handle_rendezvous_client(&mut rooms, " QUIT ", 0);
    assert!(r.lines.is_empty() && r.done);
}

#[test]
fn a_client_finds_itself_and_others() {
    let mut rooms = Rooms::new();
    register_peer(&mut rooms, "myroom", "q", "b:2", 0);
    let mut reply = Vec::new();
    for line in rendezvous_request("my room", "p", "a:1 ") {
        reply.extend(handle_rendezvous_client(&mut rooms, &line, 1).lines);
    }
    assert_eq!(
        rendezvous_round(&reply),
        vec![("q".to_string(), "b:2".to_string()), ("p".to_string(), "a:1".to_string())]
    );
}

#[test]
fn requests() {
    assert_eq!(
        rendezvous_request("r m", "p", "a:1"),
        vec!["REGISTER rm p a:1".to_string(), "LIST rm".to_string(), "QUIT".to_string()]
    );
}

#[test]
fn replies_are_read_up_to_their_end() {
    let lines: Vec<String> = ["OK", "PEER p a:1 x", "PEER q", "junk", " END ", "PEER z b:2"]
        .iter()
        .map(|s| s.to_string())
        .collect();
    assert_eq!(rendezvous_round(&lines), vec![("p".to_string(), "a:1 x".to_string())]);
    assert!(ends_reply("END\n"));
    assert!(!ends_reply("PEER END x"));
}

#[test]
fn the_server_is_asked_every_twenty_seconds() {
    let mut tick = 0;
    let mut asked = Vec::new();
    for second in 0..41 {
        let (ask, next) = rendezvous_turn(tick);
        if ask {
            asked.push(second);
        }
        tick = next;
    }
    assert_eq!(asked, vec![0, 20, 40]);
}

#[test]
fn rounds_are_logged() {
    let mut app = state();
    let found = vec![
        ("me".to_string(), "a:1".to_string()),
        ("q".to_string(), "b:2".to_string()),
    ];
    let dial = round_done(&mut app, "den", Round::Hints(found), 0);
    assert_eq!(dial, vec![("q".to_string(), "b:2".to_string())]);
    assert_eq!(last_log(&app), (NetLevel::Info, "rendezvous den: 2 peer hints".to_string()));
    let dial = round_done(&mut app, "den", Round::Failed("refused".to_string()), 0);
    assert!(dial.is_empty());
    assert_eq!(last_log(&app), (NetLevel::Warn, "rendezvous failed refused".to_string()));
}

#[test]
fn the_server_starts() {
    let mut app = state();
    assert!(!server_bound(&mut app, "b:1", false, true, 0));
    assert_eq!(last_log(&app), (NetLevel::Error, "rendezvous listen failed b:1".to_string()));
    assert!(!server_bound(&mut app, "b:1", true, false, 0));
    assert_eq!(last_log(&app), (NetLevel::Error, "rendezvous nonblocking failed".to_string()));
    assert!(server_bound(&mut app, "b:1", true, true, 0));
    assert_eq!(last_log(&app), (NetLevel::Okay, "rendezvous listen b:1".to_string()));
    assert_eq!(server_arrival(&mut app, Arrival::Client, 0), 0);
    assert_eq!(server_arrival(&mut app, Arrival::Nobody, 0), 100);
    assert_eq!(server_arrival(&mut app, Arrival::Failed("x".to_string()), 0), 1000);
    assert_eq!(last_log(&app), (NetLevel::Warn, "rendezvous accept failed x".to_string()));
}
