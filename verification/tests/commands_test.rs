use speer_chat::app::{theme, AppState, MsgKind, NetLevel};
use speer_chat::commands::{
    farewell, handle_command, is_private_or_loopback_host, parse_args, public_addr_warning,
    startup, ui_turn, Args, Command,
};
use speer_chat::constants::{CHAT_TYPE_BYE, CHAT_TYPE_MSG};
use speer_chat::ffi::Identity;
use speer_chat::net::start_peer;
use speer_chat::tui::UiAction;

const ME: &str = "12D3KooWmmmmmmmmmmmmmmmmmmmm";

fn state() -> AppState {
    let identity = Identity {
        static_pub: [1; 32],
        static_priv: [2; 32],
        ed_pub: [3; 32],
        ed_seed: [4; 32],
        peer_id: ME.to_string(),
    };
    AppState::new(identity, "me".to_string(), "midnight", 0)
}

fn add_peer(app: &mut AppState, nick: &str, addr: &str) {
    let key = start_peer(app, true, addr.to_string(), 0).unwrap();
    let p = app.peers.iter_mut().find(|p| p.key == key).unwrap();
    p.info.handshake_done = true;
    p.info.remote_nick = nick.to_string();
    p.info.remote_pid_short = "short".to_string();
    p.info.msgs_rx = 1;
    p.info.msgs_tx = 2;
    p.info.bytes_rx = 10;
    p.info.bytes_tx = 20;
}

fn run(app: &mut AppState, line: &str) -> (Command, Vec<String>) {
    let before = app.history.len();
    let command = handle_command(app, line, "pub:1", 0, 0);
    let lines = app.history.iter().skip(before).map(|m| m.text.clone()).collect();
    (command, lines)
}

fn args(list: &[&str]) -> Args {
    parse_args(&list.iter().map(|s| s.to_string()).collect())
}

#[test]
fn no_arguments() {
    let a = args(&[]);
    assert_eq!((a.nick.as_str(), a.theme.as_str(), a.port), ("anon", "midnight", 0));
    assert_eq!(a.room, "default");
    assert!(a.connect.is_empty() && a.bootstrap.is_empty());
    assert!(a.rendezvous.is_none() && a.rendezvous_listen.is_none() && a.public_addr.is_none());
}

#[test]
fn options_in_both_forms() {
    let a = args(&[
        "--nick", "zoe", "--theme=modern", "--port", "4005", "--connect", "a:1", "--connect=b:2",
        "--bootstrap", "c:3", "--rendezvous=r:4", "--rendezvous-listen", "l:5", "--room=den",
        "--public-addr", "p:6",
    ]);
    assert_eq!((a.nick.as_str(), a.theme.as_str(), a.port), ("zoe", "modern", 4005));
    assert_eq!(a.connect, vec!["a:1".to_string(), "b:2".to_string()]);
    assert_eq!(a.bootstrap, vec!["c:3".to_string()]);
    assert_eq!(a.rendezvous.as_deref(), Some("r:4"));
    assert_eq!(a.rendezvous_listen.as_deref(), Some("l:5"));
    assert_eq!(a.room, "den");
    assert_eq!(a.public_addr.as_deref(), Some("p:6"));
    let b = args(&[
        "--nick=z", "--theme", "t", "--port=7", "--bootstrap=d", "--rendezvous", "r",
        "--rendezvous-listen=l", "--room", "x", "--public-addr=",
    ]);
    assert_eq!((b.nick.as_str(), b.theme.as_str(), b.port), ("z", "t", 7));
    assert_eq!(b.bootstrap, vec!["d".to_string()]);
    assert_eq!(b.rendezvous_listen.as_deref(), Some("l"));
    assert_eq!(b.public_addr.as_deref(), Some(""));
}

#[test]
fn odd_arguments() {
    assert_eq!(args(&["--port", "x"]).port, 0);
    assert_eq!(args(&["--port=70000"]).port, 0);
    assert_eq!(args(&["--nick"]).nick, "anon");
    assert_eq!(args(&["--unknown", "zoe"]).nick, "zoe");
    assert_eq!(args(&["--nick", "--port"]).nick, "--port");
    assert_eq!(args(&[""]).nick, "");
    assert_eq!(args(&[&"é".repeat(40)]).nick, "é".repeat(31));
    assert_eq!(args(&["--nick", &"y".repeat(40)]).nick.len(), 31);
}

#[test]
fn private_hosts() {
    for host in [
        "localhost", "127.0.0.1", "::1", "10.1.2.3", "127.9.9.9", "192.168.0.1", "172.16.0.1",
        "172.31.255.255", "10.x.1.2.3",
    ] {
        assert!(is_private_or_loopback_host(host), "{host}");
    }
    for host in ["8.8.8.8", "172.15.0.1", "172.32.0.1", "192.167.0.1", "example.com", "10.0.0", ""] {
        assert!(!is_private_or_loopback_host(host), "{host}");
    }
}

#[test]
fn public_addr_warnings() {
    assert_eq!(public_addr_warning("8.8.8.8:4001"), None);
    assert_eq!(
        public_addr_warning("nowhere").unwrap(),
        "public addr is not dialable: nowhere; use host:port or /ip4|/dns/<host>/tcp/<port>/p2p/<peer-id>"
    );
    assert_eq!(
        public_addr_warning("/ip4/192.168.1.4/tcp/1").unwrap(),
        "public addr uses private host 192.168.1.4; peers on another network probably need a public DNS/IP plus port forwarding"
    );
}

#[test]
fn quit_commands() {
    for line in ["/quit", "/exit"] {
        let mut app = state();
        let (command, lines) = run(&mut app, line);
        assert!(matches!(command, Command::Nothing));
        assert!(app.quit && lines.is_empty());
    }
}

#[test]
fn peers_commands() {
    let mut app = state();
    assert_eq!(run(&mut app, "/peers").1, vec!["0 peers connected"]);
    add_peer(&mut app, "zoe", "h:1");
    assert_eq!(
        run(&mut app, "/who").1,
        vec!["1 peer connected", "zoe  short  h:1  rx1 tx2"]
    );
    add_peer(&mut app, "", "h:2");
    assert_eq!(
        run(&mut app, "/peers").1,
        vec!["2 peers connected", "zoe  short  h:1  rx1 tx2", "?  short  h:2  rx1 tx2"]
    );
}

#[test]
fn status_command() {
    let mut app = state();
    app.listen_port = 4001;
    add_peer(&mut app, "zoe", "h:1");
    handle_command(&mut app, "/status", "", 0, 3_723_000_000_000);
    let lines: Vec<String> = app.history.iter().map(|m| m.text.clone()).collect();
    assert_eq!(
        lines,
        vec![
            "status: 127.0.0.1:4001  uptime 1h02m  peers 1  rx 1 msg  tx 2 msg",
            "stack: mDNS/connect/bootstrap/rendezvous -> TCP -> Noise XX -> Yamux -> /speer/chat/1.0.0",
        ]
    );
}

#[test]
fn id_commands() {
    for line in ["/id", "/me"] {
        let mut app = state();
        assert_eq!(
            run(&mut app, line).1,
            vec![
                "nick: me".to_string(),
                format!("peer id: {ME}"),
                format!("multiaddr: /ip4/127.0.0.1/tcp/0/p2p/{ME}"),
                "public addr: pub:1".to_string(),
            ]
        );
    }
}

#[test]
fn inspect_commands() {
    let mut app = state();
    assert_eq!(run(&mut app, "/inspect").1, vec!["inspect: no connected peers yet"]);
    add_peer(&mut app, "", "h:1");
    app.peers[0].info.initiator = false;
    assert_eq!(
        run(&mut app, "/diag").1,
        vec!["peer 1: ?  short", "  addr h:1  role listener  rx 1/10B  tx 2/20B"]
    );
    app.peers[0].info.initiator = true;
    app.peers[0].info.remote_pid_full = "full".to_string();
    assert_eq!(
        run(&mut app, "/inspect").1,
        vec!["peer 1: ?  full", "  addr h:1  role dialer  rx 1/10B  tx 2/20B"]
    );
}

#[test]
fn clearing_commands() {
    let mut app = state();
    app.emit_system("x", 0);
    handle_command(&mut app, "/clear", "", 0, 0);
    assert_eq!(app.history.len(), 1);
    assert_eq!(app.history[0].text, "timeline cleared");
    handle_command(&mut app, "/log clear", "", 0, 0);
    assert_eq!(app.netlog.len(), 1);
    assert_eq!(app.netlog[0].text, "network console cleared");
    assert_eq!(app.netlog[0].level, NetLevel::Okay);
}

#[test]
fn help_and_unknown_commands() {
    let mut app = state();
    let (_, lines) = run(&mut app, "/help");
    assert_eq!(lines.len(), 2);
    assert!(lines[0].starts_with("Commands: /connect <addr>"));
    assert!(lines[1].starts_with("Startup flags: --connect <addr>"));
    for line in ["/", "/nope", "/quit ", "/connect", "/send"] {
        assert_eq!(run(&mut app, line).1, vec!["Unknown command"]);
        assert_eq!(app.history.back().unwrap().kind, MsgKind::Error);
    }
}

#[test]
fn connect_command() {
    let mut app = state();
    let (command, lines) = run(&mut app, "/connect  ");
    assert!(matches!(command, Command::Nothing));
    assert_eq!(lines, vec!["usage: /connect <host:port|multiaddr>"]);
    match run(&mut app, "/connect  h:7 ").0 {
        Command::Dial { plan } => assert_eq!(plan.addr, "h:7"),
        _ => panic!(),
    }
    assert!(matches!(run(&mut app, "/connect nowhere").0, Command::Nothing));
    assert_eq!(app.netlog.back().unwrap().text, "manual bad addr nowhere");
}

#[test]
fn send_command() {
    let mut app = state();
    assert_eq!(run(&mut app, "/send f").1, vec!["no connected peers for file transfer"]);
    add_peer(&mut app, "zoe", "h:1");
    for line in ["/send \"a b\"", "send a b"] {
        match run(&mut app, line).0 {
            Command::Look { path } => assert_eq!(path, "a b"),
            _ => panic!(),
        }
    }
}

#[test]
fn accept_command() {
    let mut app = state();
    assert!(matches!(run(&mut app, "/accept").0, Command::Accept { wanted: None }));
    assert!(matches!(run(&mut app, "/accept  7 ").0, Command::Accept { wanted: Some(7) }));
    assert!(matches!(run(&mut app, "/accept x").0, Command::Accept { wanted: None }));
}

#[test]
fn theme_command() {
    let mut app = state();
    assert_eq!(run(&mut app, "/theme  original ").1, vec!["Theme changed"]);
    assert_eq!(app.theme.bg, theme("original").bg);
    run(&mut app, "/theme anything");
    assert_eq!(app.theme.accent, theme("modern").accent);
}

#[test]
fn messages_go_to_all_connected_peers() {
    let mut app = state();
    add_peer(&mut app, "zoe", "h:1");
    add_peer(&mut app, "dead", "h:2");
    add_peer(&mut app, "early", "h:3");
    app.peers[1].dead = true;
    app.peers[2].info.handshake_done = false;
    assert_eq!(run(&mut app, "hello /quit").1, vec!["hello /quit"]);
    let m = app.history.back().unwrap();
    assert_eq!((m.kind, m.nick.as_str()), (MsgKind::Chat, "me"));
    let out = app.peers[0].dequeue().unwrap();
    assert_eq!((out.kind, out.text.as_str()), (CHAT_TYPE_MSG, "hello /quit"));
    assert!(app.peers[1].out.is_empty() && app.peers[2].out.is_empty());
    farewell(&mut app);
    let out = app.peers[0].dequeue().unwrap();
    assert_eq!((out.kind, out.text.as_str()), (CHAT_TYPE_BYE, ""));
}

#[test]
fn turns_of_the_interface() {
    let mut app = state();
    let (_, draw) = ui_turn(&mut app, UiAction::Nothing, "", 0, 249_999_999, 0, 900_000_000);
    assert!(!draw);
    let (_, draw) = ui_turn(&mut app, UiAction::Nothing, "", 0, 250_000_000, 0, 250_000_000);
    assert!(draw);
    let (_, draw) = ui_turn(&mut app, UiAction::Redraw, "", 0, 0, 0, 0);
    assert!(draw);
    let accept = UiAction::Submit("/accept".to_string());
    let (command, draw) = ui_turn(&mut app, accept, "", 0, 0, 0, 0);
    assert!(draw);
    assert!(matches!(command, Command::Accept { wanted: None }));
    let (_, draw) = ui_turn(&mut app, UiAction::Quit, "", 5, 0, 0, 0);
    assert!(!draw && app.quit);
}

#[test]
fn starting_alone() {
    let mut app = state();
    let addr = startup(&mut app, &args(&[]), "10.0.0.9".to_string(), 4001, 3);
    assert_eq!(addr, format!("/ip4/10.0.0.9/tcp/4001/p2p/{ME}"));
    assert_eq!(app.history[0].text, "Welcome to speer-chat. Type /help for commands.");
    let log: Vec<String> = app.netlog.iter().map(|e| e.text.clone()).collect();
    assert_eq!(
        log[1..],
        [
            format!("identity ready {ME}"),
            "tcp listen 10.0.0.9:4001".to_string(),
            "mDNS service _speer-chat._tcp".to_string(),
        ]
    );
}

#[test]
fn starting_with_a_rendezvous() {
    let mut app = state();
    let a = args(&["--rendezvous=r:1", "--room=my room"]);
    startup(&mut app, &a, "10.0.0.9".to_string(), 4001, 3);
    let log: Vec<String> = app.netlog.iter().skip(4).map(|e| e.text.clone()).collect();
    assert_eq!(
        log,
        vec![
            "rendezvous server r:1 room myroom",
            "rendezvous room sanitized to myroom",
            "no --public-addr set; advertising local LAN address",
            "public addr uses private host 10.0.0.9; peers on another network probably need a public DNS/IP plus port forwarding",
        ]
    );
    let mut app = state();
    let a = args(&["--rendezvous=r:1", "--room= ", "--public-addr=8.8.8.8:1"]);
    assert_eq!(startup(&mut app, &a, "10.0.0.9".to_string(), 4001, 3), "8.8.8.8:1");
    assert_eq!(app.history.back().unwrap().text, "rendezvous room cannot be empty");
    assert_eq!(app.netlog.back().unwrap().level, NetLevel::Error);
}

#[test]
fn an_empty_line_is_sent_and_shown() {
    let mut app = state();
    add_peer(&mut app, "zoe", "h:1");
    let (_, lines) = run(&mut app, "");
    assert_eq!(lines, vec![String::new()]);
    let m = app.peers[0].dequeue().unwrap();
    assert_eq!((m.kind, m.text.as_str()), (CHAT_TYPE_MSG, ""));
}
