use speer_chat::app::{AppState, MsgKind, NetLevel};
use speer_chat::constants::{
    CHAT_TYPE_BYE, CHAT_TYPE_FILE_META, CHAT_TYPE_HELLO, CHAT_TYPE_MSG, HANDSHAKE_TIMEOUT_MS,
    MAX_FRAME_LEN, MAX_PEERS,
};
use speer_chat::discovery::{
    bootstrap_turn, discovery_step, on_mdns_discover, Discovery, DiscoveryAction, DiscoveryEvent,
};
use speer_chat::ffi::Identity;
use speer_chat::files::FileAction;
use speer_chat::net::{
    dial_done, dial_peer_addr, end_peer, parse_multiaddr, start_peer, WorkerError,
};
use speer_chat::protocol::{chat_frame_decode, chat_frame_encode};
use speer_chat::worker::{
    peer_reader, peer_worker, ReaderAction, ReaderEvent, Worker, WorkerAction, WorkerEvent,
    WorkerPhase,
};

const ME: &str = "12D3KooWmmmmmmmmmmmmmmmmmmmm";
const OTHER: &str = "12D3KooWzzzzzzzzzzzzzzzzzzzz";
const SMALL: &str = "12D3KooWaaaaaaaaaaaaaaaaaaaa";

fn state() -> AppState {
    let identity = Identity {
        static_pub: [1; 32],
        static_priv: [2; 32],
        ed_pub: [3; 32],
        ed_seed: [4; 32],
        peer_id: ME.to_string(),
    };
    AppState::new(identity, "me".to_string(), "midnight", 0)
}

fn last_log(app: &AppState) -> (NetLevel, String) {
    let e = app.netlog.back().unwrap();
    (e.level, e.text.clone())
}

fn buffer(frame: &[u8]) -> Vec<u8> {
    let mut buf = frame.to_vec();
    buf.resize(MAX_FRAME_LEN, 0);
    buf
}

/// A connection whose handshake is done.
fn connected(app: &mut AppState, addr: &str, remote: &str) -> Worker {
    let key = start_peer(app, true, addr.to_string(), 0).unwrap();
    let mut w = Worker::new(key);
    assert!(matches!(
        peer_worker(app, &mut w, WorkerEvent::Begin, 1, 1),
        WorkerAction::Init { dialer: true, timeout_ms: HANDSHAKE_TIMEOUT_MS }
    ));
    let event = WorkerEvent::Session { rc: 0, remote: remote.to_string() };
    assert!(matches!(
        peer_worker(app, &mut w, event, 2, 2),
        WorkerAction::Negotiate { dialer: true }
    ));
    let event = WorkerEvent::Stream { rc: 0, present: true };
    assert!(matches!(peer_worker(app, &mut w, event, 3, 3), WorkerAction::Send { .. }));
    assert!(matches!(
        peer_worker(app, &mut w, WorkerEvent::Sent { rc: 0 }, 4, 4),
        WorkerAction::Serve
    ));
    w
}

#[test]
fn parses_ip4_multiaddr() {
    assert_eq!(
        parse_multiaddr("/ip4/127.0.0.1/tcp/4001/p2p/peer"),
        Some(("127.0.0.1".to_string(), 4001))
    );
}

#[test]
fn parses_dns_multiaddr() {
    assert_eq!(
        parse_multiaddr("/dns/example.com/tcp/4001"),
        Some(("example.com".to_string(), 4001))
    );
    assert_eq!(
        parse_multiaddr("/dns4/bootstrap.example/tcp/4002/p2p/peer"),
        Some(("bootstrap.example".to_string(), 4002))
    );
}

#[test]
fn parses_plain_host_port() {
    assert_eq!(
        parse_multiaddr("example.com:4001"),
        Some(("example.com".to_string(), 4001))
    );
    assert_eq!(
        parse_multiaddr("127.0.0.1:4002"),
        Some(("127.0.0.1".to_string(), 4002))
    );
}

#[test]
fn parses_bracketed_and_padded_addresses() {
    assert_eq!(parse_multiaddr("  [::1]:80\n"), Some(("::1".to_string(), 80)));
    assert_eq!(parse_multiaddr("/ip6/::1/tcp/65535"), Some(("::1".to_string(), 65535)));
    assert_eq!(parse_multiaddr("/dns6/h/tcp/+7"), Some(("h".to_string(), 7)));
}

#[test]
fn refuses_bad_addresses() {
    for bad in [
        "",
        "host",
        ":80",
        "host:",
        "host:65536",
        "host:-1",
        "/ip4//tcp/80",
        "/ip4/1.2.3.4/udp/80",
        "/ip4/1.2.3.4/tcp/",
        "/unix/x/tcp/80",
        "/ip4/tcp/tcp/4001",
    ] {
        assert_eq!(parse_multiaddr(bad), None, "{bad}");
    }
}

#[test]
fn dials_a_peer_once_and_from_one_side() {
    let mut app = state();
    let addr = "/ip4/10.0.0.2/tcp/4001/p2p/x";
    let plan = dial_peer_addr(&mut app, "mDNS", Some(OTHER), addr, true, true, 5).unwrap();
    assert_eq!((plan.host.as_str(), plan.port, plan.addr.as_str()), ("10.0.0.2", 4001, "10.0.0.2:4001"));
    assert_eq!(last_log(&app), (NetLevel::Info, format!("mDNS dial {addr}")));
    assert!(dial_peer_addr(&mut app, "mDNS", Some(OTHER), addr, true, true, 6).is_none());
    assert!(dial_peer_addr(&mut app, "mDNS", Some(SMALL), addr, true, true, 7).is_none());
    assert!(dial_peer_addr(&mut app, "mDNS", Some(SMALL), addr, false, false, 7).is_some());
    assert!(dial_peer_addr(&mut app, "mDNS", Some(ME), addr, false, false, 8).is_none());
    assert!(dial_peer_addr(&mut app, "mDNS", Some(""), addr, false, false, 8).is_none());
}

#[test]
fn a_peer_is_tried_once_however_it_went() {
    let mut app = state();
    assert!(dial_peer_addr(&mut app, "mDNS", Some(OTHER), "nowhere", false, true, 5).is_none());
    assert_eq!(app.attempted, vec![format!("peer:{OTHER}")]);
    let logged = app.netlog.len();
    assert!(dial_peer_addr(&mut app, "x", Some(OTHER), "h:1", true, true, 900).is_none());
    assert_eq!(app.netlog.len(), logged);
}

#[test]
fn an_address_is_tried_once_in_whatever_form() {
    let mut app = state();
    assert!(dial_peer_addr(&mut app, "x", None, "/ip4/10.0.0.1/tcp/7", false, true, 1).is_some());
    assert!(dial_peer_addr(&mut app, "y", None, "10.0.0.1:7", false, true, 900).is_none());
    assert_eq!(app.attempted, vec!["addr:10.0.0.1:7".to_string()]);
}

#[test]
fn remembers_addresses_of_unknown_peers() {
    let mut app = state();
    assert!(dial_peer_addr(&mut app, "x", None, "h:1", false, true, 0).is_some());
    assert!(dial_peer_addr(&mut app, "x", None, "h:1", false, true, 0).is_none());
    assert!(dial_peer_addr(&mut app, "x", None, "h:2", false, true, 0).is_some());
    assert_eq!(app.attempted, vec!["addr:h:1".to_string(), "addr:h:2".to_string()]);
}

#[test]
fn bad_address_is_logged() {
    let mut app = state();
    assert!(dial_peer_addr(&mut app, "manual", None, "nowhere", false, false, 9).is_none());
    assert_eq!(last_log(&app), (NetLevel::Warn, "manual bad addr nowhere".to_string()));
}

#[test]
fn connected_peers_are_not_dialled() {
    let mut app = state();
    connected(&mut app, "h:1", OTHER);
    assert!(dial_peer_addr(&mut app, "x", Some(OTHER), "h:9", false, false, 0).is_none());
    assert!(dial_peer_addr(&mut app, "x", None, "h:1", false, false, 0).is_none());
    assert!(dial_peer_addr(&mut app, "x", None, "h:2", false, false, 0).is_some());
}

#[test]
fn dial_outcomes() {
    let mut app = state();
    let plan = dial_peer_addr(&mut app, "x", None, "h:1", false, false, 0).unwrap();
    assert_eq!(dial_done(&mut app, plan, false, 1), None);
    assert_eq!(last_log(&app), (NetLevel::Warn, "dial failed h:1".to_string()));
    let plan = dial_peer_addr(&mut app, "x", None, "h:1", false, false, 2).unwrap();
    assert_eq!(dial_done(&mut app, plan, true, 3), Some(0));
    assert_eq!(app.peers[0].info.addr, "h:1");
    assert!(app.peers[0].info.initiator);
}

#[test]
fn a_full_list_refuses_and_a_slot_is_released() {
    let mut app = state();
    for i in 0..MAX_PEERS as u64 {
        assert_eq!(start_peer(&mut app, false, format!("a{i}"), 0), Some(i));
    }
    assert_eq!(start_peer(&mut app, false, "late".to_string(), 7), None);
    assert_eq!(last_log(&app), (NetLevel::Error, "too many peers".to_string()));
    end_peer(&mut app, 3, Some(WorkerError::Session), 8);
    assert_eq!(app.peers.len(), MAX_PEERS - 1);
    assert!(app.peers.iter().all(|p| p.key != 3));
    assert_eq!(
        last_log(&app),
        (
            NetLevel::Warn,
            "incoming connection closed: tcp/noise/yamux session init failed".to_string()
        )
    );
    assert_eq!(start_peer(&mut app, false, "late".to_string(), 9), Some(16));
}

#[test]
fn errors_after_the_handshake_are_shown() {
    let mut app = state();
    let w = connected(&mut app, "h:1", OTHER);
    end_peer(&mut app, w.key, Some(WorkerError::Negotiation), 8);
    let m = app.history.back().unwrap();
    assert_eq!(m.kind, MsgKind::Error);
    assert_eq!(m.text, "peer error: chat protocol negotiation failed");
    assert!(app.peers.is_empty());
}

#[test]
fn worker_fails_to_set_up_a_session() {
    let mut app = state();
    let key = start_peer(&mut app, false, "h:1".to_string(), 0).unwrap();
    let mut w = Worker::new(key);
    peer_worker(&mut app, &mut w, WorkerEvent::Begin, 1, 1);
    assert_eq!(last_log(&app), (NetLevel::Info, "accept tcp h:1".to_string()));
    let event = WorkerEvent::Session { rc: -1, remote: String::new() };
    let action = peer_worker(&mut app, &mut w, event, 2, 2);
    assert!(matches!(
        action,
        WorkerAction::End { close_session: false, fault: Some(WorkerError::Session) }
    ));
    assert_eq!(w.phase, WorkerPhase::Over);
}

#[test]
fn worker_leaves_itself_alone() {
    let mut app = state();
    let key = start_peer(&mut app, true, "h:1".to_string(), 0).unwrap();
    let mut w = Worker::new(key);
    peer_worker(&mut app, &mut w, WorkerEvent::Begin, 1, 1);
    let event = WorkerEvent::Session { rc: 0, remote: ME.to_string() };
    let action = peer_worker(&mut app, &mut w, event, 2, 2);
    assert!(matches!(action, WorkerAction::End { close_session: true, fault: None }));
    assert_eq!(app.peers[0].info.remote_pid_full, "");
}

#[test]
fn worker_fails_to_open_a_stream() {
    for (rc, present) in [(1, true), (0, false)] {
        let mut app = state();
        let key = start_peer(&mut app, true, "h:1".to_string(), 0).unwrap();
        let mut w = Worker::new(key);
        peer_worker(&mut app, &mut w, WorkerEvent::Begin, 1, 1);
        let event = WorkerEvent::Session { rc: 0, remote: OTHER.to_string() };
        peer_worker(&mut app, &mut w, event, 2, 2);
        assert_eq!(last_log(&app), (NetLevel::Okay, "peer id 12D3Ko..zzzzzz".to_string()));
        let event = WorkerEvent::Stream { rc, present };
        let action = peer_worker(&mut app, &mut w, event, 3, 3);
        assert!(matches!(
            action,
            WorkerAction::End { close_session: true, fault: Some(WorkerError::Negotiation) }
        ));
        assert!(!app.peers[0].info.handshake_done);
    }
}

#[test]
fn worker_greets_and_sends_in_order() {
    let mut app = state();
    let mut w = connected(&mut app, "h:1", OTHER);
    assert!(app.peers[0].info.handshake_done);
    assert_eq!(app.peers[0].info.connected_at, Some(3));
    assert_eq!(app.peers[0].info.bytes_tx, 7);
    assert_eq!(last_log(&app), (NetLevel::Traffic, "tx hello 7B".to_string()));
    assert_eq!(app.history.back().unwrap().text, "(unknown) joined (12D3Ko..zzzzzz)");
    app.broadcast(CHAT_TYPE_MSG, "one");
    app.broadcast(CHAT_TYPE_FILE_META, "two");
    let frame = match peer_worker(&mut app, &mut w, WorkerEvent::Turn, 5, 5) {
        WorkerAction::Send { frame } => frame,
        _ => panic!(),
    };
    assert_eq!(
        chat_frame_decode(&frame),
        Ok((CHAT_TYPE_MSG, "me".to_string(), "one".to_string()))
    );
    let frame = match peer_worker(&mut app, &mut w, WorkerEvent::Sent { rc: 0 }, 6, 6) {
        WorkerAction::Send { frame } => frame,
        _ => panic!(),
    };
    assert_eq!(
        chat_frame_decode(&frame),
        Ok((CHAT_TYPE_FILE_META, "me".to_string(), "two".to_string()))
    );
    assert_eq!(app.peers[0].info.msgs_tx, 1);
    assert_eq!(app.peers[0].info.bytes_tx, 7 + 12);
    assert_eq!(app.peers[0].info.last_seen, Some(6));
    let action = peer_worker(&mut app, &mut w, WorkerEvent::Sent { rc: 0 }, 7, 7);
    assert!(matches!(action, WorkerAction::Sleep));
    assert_eq!(app.peers[0].info.msgs_tx, 1);
}

#[test]
fn worker_ends_when_a_frame_cannot_be_sent() {
    let mut app = state();
    let mut w = connected(&mut app, "h:1", OTHER);
    app.broadcast(CHAT_TYPE_MSG, "one");
    peer_worker(&mut app, &mut w, WorkerEvent::Turn, 5, 5);
    let action = peer_worker(&mut app, &mut w, WorkerEvent::Sent { rc: 1 }, 6, 6);
    assert!(matches!(action, WorkerAction::Sleep));
    assert!(app.peers[0].dead);
    let action = peer_worker(&mut app, &mut w, WorkerEvent::Turn, 7, 7);
    assert!(matches!(action, WorkerAction::Close));
    let action = peer_worker(&mut app, &mut w, WorkerEvent::Closed, 8, 8);
    assert!(matches!(action, WorkerAction::End { close_session: false, fault: None }));
    assert_eq!(app.history.back().unwrap().text, "12D3Ko..zzzzzz left");
}

#[test]
fn worker_ends_when_a_frame_does_not_fit() {
    let mut app = state();
    let mut w = connected(&mut app, "h:1", OTHER);
    app.broadcast(CHAT_TYPE_MSG, &"x".repeat(2000));
    let action = peer_worker(&mut app, &mut w, WorkerEvent::Turn, 5, 5);
    assert!(matches!(action, WorkerAction::Sleep));
    assert!(app.peers[0].dead);
}

#[test]
fn worker_stops_when_the_chat_ends() {
    let mut app = state();
    let mut w = connected(&mut app, "h:1", OTHER);
    app.broadcast(CHAT_TYPE_MSG, "never sent");
    app.quit = true;
    let action = peer_worker(&mut app, &mut w, WorkerEvent::Turn, 5, 5);
    assert!(matches!(action, WorkerAction::Close));
    assert!(app.peers[0].dead);
    assert_eq!(app.peers[0].out.len(), 1);
}

#[test]
fn events_out_of_turn_change_nothing() {
    let mut app = state();
    let mut w = connected(&mut app, "h:1", OTHER);
    let before = app.netlog.len();
    let action = peer_worker(&mut app, &mut w, WorkerEvent::Begin, 5, 5);
    assert!(matches!(action, WorkerAction::Nothing));
    assert_eq!(w.phase, WorkerPhase::Serving);
    assert_eq!(app.netlog.len(), before);
}

#[test]
fn reader_shows_messages() {
    let mut app = state();
    let w = connected(&mut app, "h:1", OTHER);
    assert!(matches!(
        peer_reader(&mut app, w.key, ReaderEvent::Check, 5, 5),
        ReaderAction::Receive
    ));
    let frame = chat_frame_encode(CHAT_TYPE_MSG, "zoe", "hel\0lo").unwrap();
    let event = ReaderEvent::Received { buf: buffer(&frame), len: frame.len(), rc: 0 };
    let action = peer_reader(&mut app, w.key, event, 6, 6);
    assert!(matches!(action, ReaderAction::Act { file: FileAction::Nothing }));
    let m = app.history.back().unwrap();
    assert_eq!((m.kind, m.nick.as_str(), m.text.as_str()), (MsgKind::Chat, "zoe", "hello"));
    assert_eq!(app.peers[0].info.msgs_rx, 1);
    assert_eq!(app.peers[0].info.bytes_rx, frame.len() as u64 + 1);
    assert_eq!(last_log(&app), (NetLevel::Traffic, format!("rx chat {}B", frame.len() + 1)));
}

#[test]
fn a_message_without_a_nick_is_shown_under_the_known_name() {
    let mut app = state();
    let w = connected(&mut app, "h:1", OTHER);
    let frame = chat_frame_encode(CHAT_TYPE_MSG, "", "one").unwrap();
    let event = ReaderEvent::Received { buf: buffer(&frame), len: frame.len(), rc: 0 };
    peer_reader(&mut app, w.key, event, 6, 6);
    let m = app.history.back().unwrap();
    assert_eq!((m.nick.as_str(), m.text.as_str()), ("12D3Ko..zzzzzz", "one"));
    let frame = chat_frame_encode(CHAT_TYPE_HELLO, "zoe", "").unwrap();
    let event = ReaderEvent::Received { buf: buffer(&frame), len: frame.len(), rc: 0 };
    peer_reader(&mut app, w.key, event, 7, 7);
    let frame = chat_frame_encode(CHAT_TYPE_MSG, "\0", "two").unwrap();
    let event = ReaderEvent::Received { buf: buffer(&frame), len: frame.len(), rc: 0 };
    peer_reader(&mut app, w.key, event, 8, 8);
    let m = app.history.back().unwrap();
    assert_eq!((m.nick.as_str(), m.text.as_str()), ("zoe", "two"));
}

#[test]
fn reader_takes_greetings_and_goodbyes() {
    let mut app = state();
    let w = connected(&mut app, "h:1", OTHER);
    let frame = chat_frame_encode(CHAT_TYPE_HELLO, "zoe", "").unwrap();
    let event = ReaderEvent::Received { buf: buffer(&frame), len: frame.len(), rc: 0 };
    peer_reader(&mut app, w.key, event, 6, 6);
    assert_eq!(app.history.back().unwrap().text, "zoe joined (12D3Ko..zzzzzz)");
    let frame = chat_frame_encode(CHAT_TYPE_BYE, "", "").unwrap();
    let event = ReaderEvent::Received { buf: buffer(&frame), len: frame.len(), rc: 0 };
    let action = peer_reader(&mut app, w.key, event, 7, 7);
    assert!(matches!(action, ReaderAction::Stop));
    assert!(app.peers[0].dead);
    assert_eq!(app.peers[0].info.remote_nick, "zoe");
}

#[test]
fn reader_passes_over_garbage_and_stops_on_failure() {
    let mut app = state();
    let w = connected(&mut app, "h:1", OTHER);
    let event = ReaderEvent::Received { buf: buffer(&[0xff]), len: 1, rc: 0 };
    let action = peer_reader(&mut app, w.key, event, 6, 6);
    assert!(matches!(action, ReaderAction::Act { file: FileAction::Nothing }));
    assert_eq!(app.peers[0].info.bytes_rx, 0);
    let event = ReaderEvent::Received { buf: buffer(&[]), len: 0, rc: -1 };
    assert!(matches!(peer_reader(&mut app, w.key, event, 7, 7), ReaderAction::Stop));
    assert!(matches!(
        peer_reader(&mut app, w.key, ReaderEvent::Check, 8, 8),
        ReaderAction::Stop
    ));
}

#[test]
fn reader_takes_file_offers() {
    let mut app = state();
    let w = connected(&mut app, "h:1", OTHER);
    let frame = chat_frame_encode(CHAT_TYPE_FILE_META, "zoe", "5|10|a b.txt").unwrap();
    let event = ReaderEvent::Received { buf: buffer(&frame), len: frame.len(), rc: 0 };
    peer_reader(&mut app, w.key, event, 6, 6);
    assert_eq!(app.files.rx.len(), 1);
    assert_eq!(app.files.rx[0].path, "speer_received/zoe_5_a_b.txt");
}

#[test]
fn mdns_needs_both_texts() {
    let mut app = state();
    let addr = b"/ip4/10.0.0.2/tcp/4001".as_slice();
    assert!(on_mdns_discover(&mut app, None, Some(addr), 0).is_none());
    assert!(on_mdns_discover(&mut app, Some(OTHER.as_bytes()), None, 0).is_none());
    let plan = on_mdns_discover(&mut app, Some(OTHER.as_bytes()), Some(addr), 0).unwrap();
    assert_eq!(plan.addr, "10.0.0.2:4001");
    assert!(on_mdns_discover(&mut app, Some(OTHER.as_bytes()), Some(addr), 0).is_none());
}

#[test]
fn mdns_reads_broken_text() {
    let mut app = state();
    assert!(on_mdns_discover(&mut app, Some(OTHER.as_bytes()), Some(b"\xffhost:1"), 0).is_some());
    assert_eq!(last_log(&app), (NetLevel::Info, "mDNS dial \u{fffd}host:1".to_string()));
}

#[test]
fn bootstrap_peers_are_dialled_every_half_minute() {
    let mut tick = 0;
    let mut dials = Vec::new();
    for second in 0..61 {
        let (dial, next) = bootstrap_turn(tick);
        if dial {
            dials.push(second);
        }
        tick = next;
    }
    assert_eq!(dials, vec![0, 30, 60]);
}

#[test]
fn discovery_announces_and_accepts() {
    let mut app = state();
    app.lan_ip = "10.0.0.9".to_string();
    app.listen_port = 4001;
    let mut d = Discovery::Starting;
    let txt = match discovery_step(&mut app, &mut d, DiscoveryEvent::Ready { rc: 0 }, 0, 0) {
        DiscoveryAction::Register { port: 4001, txt } => txt,
        _ => panic!(),
    };
    let text = format!("dnsaddr=/ip4/10.0.0.9/tcp/4001/p2p/{ME}");
    assert_eq!(txt[0] as usize, text.len());
    assert_eq!(&txt[1..], text.as_bytes());
    match discovery_step(&mut app, &mut d, DiscoveryEvent::Registered { rc: 0 }, 0, 5) {
        DiscoveryAction::Announce { query } => assert_eq!(query, "_speer-chat._tcp.local"),
        _ => panic!(),
    }
    assert!(matches!(
        discovery_step(&mut app, &mut d, DiscoveryEvent::Turn, 0, 6),
        DiscoveryAction::Accept
    ));
    let event = DiscoveryEvent::Accepted { rc: -1, fd: -1, addr: vec![0; 64] };
    assert!(matches!(
        discovery_step(&mut app, &mut d, event, 0, 1_000_000_004),
        DiscoveryAction::Poll { started: None, close: false, refresh: false }
    ));
    let mut addr: Vec<i8> = b"10.0.0.7:9".iter().map(|b| *b as i8).collect();
    addr.resize(64, 0);
    let event = DiscoveryEvent::Accepted { rc: 0, fd: 4, addr };
    assert!(matches!(
        discovery_step(&mut app, &mut d, event, 0, 1_000_000_005),
        DiscoveryAction::Poll { started: Some(0), close: false, refresh: true }
    ));
    assert_eq!(d, Discovery::Running { announced_at: 1_000_000_005 });
    assert_eq!(last_log(&app), (NetLevel::Info, "tcp accept 10.0.0.7:9".to_string()));
    assert_eq!(app.peers[0].info.addr, "10.0.0.7:9");
    assert!(!app.peers[0].info.initiator);
    app.quit = true;
    assert!(matches!(
        discovery_step(&mut app, &mut d, DiscoveryEvent::Turn, 0, 6),
        DiscoveryAction::End { unregister: true, release: true }
    ));
}

#[test]
fn discovery_failures_are_shown() {
    let mut app = state();
    let mut d = Discovery::Starting;
    assert!(matches!(
        discovery_step(&mut app, &mut d, DiscoveryEvent::Ready { rc: 1 }, 0, 0),
        DiscoveryAction::End { unregister: false, release: false }
    ));
    assert_eq!(last_log(&app), (NetLevel::Error, "mdns init failed".to_string()));
    let mut d = Discovery::Registering;
    assert!(matches!(
        discovery_step(&mut app, &mut d, DiscoveryEvent::Registered { rc: 1 }, 0, 0),
        DiscoveryAction::End { unregister: false, release: true }
    ));
    assert_eq!(last_log(&app), (NetLevel::Error, "mdns register failed".to_string()));
}

#[test]
fn a_full_list_closes_what_is_accepted() {
    let mut app = state();
    for i in 0..MAX_PEERS {
        start_peer(&mut app, false, format!("a{i}"), 0);
    }
    let mut d = Discovery::Running { announced_at: 0 };
    let event = DiscoveryEvent::Accepted { rc: 0, fd: 4, addr: vec![0; 64] };
    assert!(matches!(
        discovery_step(&mut app, &mut d, event, 0, 1),
        DiscoveryAction::Poll { started: None, close: true, refresh: false }
    ));
}

#[test]
fn what_is_announced_can_be_dialled() {
    let mut app = state();
    let announced = format!("/ip4/10.0.0.9/tcp/4001/p2p/{OTHER}");
    let plan = on_mdns_discover(
        &mut app,
        Some(OTHER.as_bytes()),
        Some(announced.as_bytes()),
        0,
    )
    .unwrap();
    assert_eq!((plan.host.as_str(), plan.port), ("10.0.0.9", 4001));
}

#[test]
fn of_two_peers_one_dials() {
    let mut mine = state();
    let mut theirs = state();
    theirs.identity.peer_id = OTHER.to_string();
    let addr = "10.0.0.2:4001";
    let here = dial_peer_addr(&mut mine, "mDNS", Some(OTHER), addr, true, true, 0).is_some();
    let there = dial_peer_addr(&mut theirs, "mDNS", Some(ME), addr, true, true, 0).is_some();
    assert!(here);
    assert!(!there);
}
