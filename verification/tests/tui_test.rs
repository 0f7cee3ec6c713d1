use speer_chat::app::{AppState, NetLevel};
use speer_chat::constants::{CHAT_TYPE_MSG, MAX_TEXT_LEN};
use speer_chat::ffi::Identity;
use speer_chat::net::start_peer;
use speer_chat::protocol::chat_frame_encode;
use speer_chat::tui::{
    collect_msg_stats, compose, draw_ui, poll_input, render_header, render_input, render_messages,
    render_netlog, render_sidebar, render_status, Area, Areas, InputEvent, InputState, Key, Span,
    UiAction,
};

const ME: &str = "12D3KooWmmmmmmmmmmmmmmmmmmmm";

fn state() -> AppState {
    let identity = Identity {
        static_pub: [1; 32],
        static_priv: [2; 32],
        ed_pub: [3; 32],
        ed_seed: [4; 32],
        peer_id: ME.to_string(),
    };
    AppState::new(identity, "me".to_string(), "midnight", 0)
}

fn press(input: &mut InputState, key: Key) -> UiAction {
    poll_input(input, InputEvent::Key { key, control: false, press: true })
}

fn control(input: &mut InputState, c: char) -> UiAction {
    poll_input(input, InputEvent::Key { key: Key::Char(c), control: true, press: true })
}

fn write(input: &mut InputState, s: &str) {
    for c in s.chars() {
        assert!(matches!(press(input, Key::Char(c)), UiAction::Redraw));
    }
}

fn flat(line: &[Span]) -> String {
    line.iter().map(|s| s.text.as_str()).collect()
}

fn add_peer(app: &mut AppState, nick: &str, rx: u64, tx: u64) {
    let key = start_peer(app, true, "h:1".to_string(), 0).unwrap();
    let p = app.peers.iter_mut().find(|p| p.key == key).unwrap();
    p.info.handshake_done = true;
    p.info.remote_nick = nick.to_string();
    p.info.remote_pid_short = "short".to_string();
    p.info.msgs_rx = rx;
    p.info.msgs_tx = tx;
}

#[test]
fn typing_and_erasing_keep_the_cursor_between_characters() {
    let mut input = InputState::new();
    write(&mut input, "aé漢");
    assert_eq!((input.buf.as_str(), input.cursor), ("aé漢", 6));
    press(&mut input, Key::Left);
    assert_eq!(input.cursor, 3);
    press(&mut input, Key::Backspace);
    assert_eq!((input.buf.as_str(), input.cursor), ("a漢", 1));
    press(&mut input, Key::Delete);
    assert_eq!((input.buf.as_str(), input.cursor), ("a", 1));
    press(&mut input, Key::Delete);
    press(&mut input, Key::Right);
    assert_eq!((input.buf.as_str(), input.cursor), ("a", 1));
    press(&mut input, Key::Home);
    press(&mut input, Key::Backspace);
    press(&mut input, Key::Left);
    assert_eq!((input.buf.as_str(), input.cursor), ("a", 0));
    write(&mut input, "ü");
    assert_eq!((input.buf.as_str(), input.cursor), ("üa", 2));
    press(&mut input, Key::Right);
    assert_eq!(input.cursor, 3);
    press(&mut input, Key::Home);
    press(&mut input, Key::End);
    assert_eq!(input.cursor, 3);
}

#[test]
fn moving_and_erasing_undo() {
    let mut input = InputState::new();
    write(&mut input, "xyz");
    press(&mut input, Key::Left);
    press(&mut input, Key::Right);
    write(&mut input, "é");
    press(&mut input, Key::Backspace);
    assert_eq!((input.buf.as_str(), input.cursor), ("xyz", 3));
}

#[test]
fn control_keys() {
    let mut input = InputState::new();
    write(&mut input, "abc");
    assert!(matches!(control(&mut input, 'c'), UiAction::Quit));
    assert!(matches!(control(&mut input, 'd'), UiAction::Quit));
    assert_eq!(input.buf, "abc");
    assert!(matches!(control(&mut input, 'u'), UiAction::Redraw));
    assert_eq!((input.buf.as_str(), input.cursor), ("", 0));
    assert!(matches!(control(&mut input, 'x'), UiAction::Redraw));
    assert_eq!(input.buf, "x");
    write(&mut input, "cdu");
    assert_eq!(input.buf, "xcdu");
}

#[test]
fn only_presses_count() {
    let mut input = InputState::new();
    let release = InputEvent::Key { key: Key::Char('a'), control: false, press: false };
    assert!(matches!(poll_input(&mut input, release), UiAction::Nothing));
    assert!(matches!(poll_input(&mut input, InputEvent::Quiet), UiAction::Nothing));
    assert!(matches!(poll_input(&mut input, InputEvent::Other), UiAction::Nothing));
    assert!(matches!(press(&mut input, Key::Other), UiAction::Nothing));
    assert_eq!(input.buf, "");
}

#[test]
fn enter_submits_what_is_there() {
    let mut input = InputState::new();
    assert!(matches!(press(&mut input, Key::Enter), UiAction::Nothing));
    write(&mut input, "hi");
    press(&mut input, Key::PageUp);
    press(&mut input, Key::PageUp);
    press(&mut input, Key::PageDown);
    assert_eq!(input.scroll, 1);
    match press(&mut input, Key::Enter) {
        UiAction::Submit(line) => assert_eq!(line, "hi"),
        _ => panic!(),
    }
    assert_eq!((input.buf.as_str(), input.cursor, input.scroll), ("", 0, 0));
    press(&mut input, Key::PageDown);
    assert_eq!(input.scroll, 0);
}

#[test]
fn a_full_line_fits_a_frame() {
    let mut input = InputState::new();
    for _ in 0..2000 {
        press(&mut input, Key::Char('a'));
    }
    assert_eq!(input.buf.len(), MAX_TEXT_LEN - 1);
    press(&mut input, Key::Backspace);
    press(&mut input, Key::Char('𝄞'));
    press(&mut input, Key::Char('𝄞'));
    assert_eq!(input.buf.len(), MAX_TEXT_LEN + 2);
    let nick: String = "漢".repeat(31);
    assert!(chat_frame_encode(CHAT_TYPE_MSG, &nick, &input.buf).is_ok());
}

#[test]
fn insert_backspace_delete_take() {
    let mut input = InputState::new();
    input.insert('a');
    input.insert('b');
    input.backspace();
    input.delete();
    assert_eq!(input.take(), "a");
    assert_eq!(input.buf, "");
}

#[test]
fn header_tells_the_counts() {
    let mut app = state();
    app.listen_port = 4001;
    let line = render_header(&app);
    assert_eq!(
        flat(&line),
        " speer-chat Noise / Yamux / mDNS+WAN   127.0.0.1:4001   rx 0 / tx 0   discovering"
    );
    assert!(line[0].bold);
    assert_eq!(line[0].fg, Some(app.theme.accent));
    assert_eq!(line[6].fg, None);
    add_peer(&mut app, "zoe", 2, 3);
    let line = render_header(&app);
    assert!(flat(&line).ends_with("rx 2 / tx 3   1 online"));
    assert_eq!(line[11].fg, Some(app.theme.peers[2]));
}

#[test]
fn counts_leave_out_unfinished_handshakes() {
    let mut app = state();
    add_peer(&mut app, "a", 2, 3);
    add_peer(&mut app, "b", 5, 7);
    add_peer(&mut app, "c", 11, 13);
    app.peers[1].info.handshake_done = false;
    app.peers[2].dead = true;
    assert_eq!(collect_msg_stats(&app), (13, 16));
}

#[test]
fn sidebar_lists_the_peers() {
    let mut app = state();
    assert!(render_sidebar(&app, 0, 0).is_none());
    let lines = render_sidebar(&app, 28, 61_000_000_000).unwrap();
    let shown: Vec<String> = lines.iter().map(|l| flat(l)).collect();
    assert_eq!(
        shown,
        vec![
            "local",
            "● me",
            "12D3Ko..mmmmmm",
            "",
            "uptime 1m01s",
            "",
            "peers",
            "waiting for peers",
            "/connect <addr>",
        ]
    );
    add_peer(&mut app, "zoe", 1, 2);
    add_peer(&mut app, "", 3, 4);
    let lines = render_sidebar(&app, 28, 0).unwrap();
    let shown: Vec<String> = lines.iter().skip(7).map(|l| flat(l)).collect();
    assert_eq!(shown, vec!["● zoe", "  rx1 tx2", "● short", "  rx3 tx4"]);
    assert_eq!(lines[9][0].fg, Some(app.theme.peers[1]));
}

#[test]
fn messages_welcome_and_scroll() {
    let mut app = state();
    let shown = render_messages(&app, 80, 10, 0);
    assert!(shown.welcome);
    assert_eq!(flat(&shown.lines[0]), "speer-chat midnight");
    for i in 0..20 {
        app.emit_chat("p", "zoe", &format!("m{i}"), 3661);
    }
    let shown = render_messages(&app, 80, 10, 0);
    assert!(!shown.welcome);
    assert_eq!(shown.lines.len(), 8);
    assert_eq!(flat(&shown.lines[0]), "[01:01:01] ▌ zoe         m12");
    assert_eq!(flat(&shown.lines[7]), "[01:01:01] ▌ zoe         m19");
    let shown = render_messages(&app, 80, 10, 5);
    assert!(flat(&shown.lines[7]).ends_with("m14"));
    let shown = render_messages(&app, 80, 10, 100);
    assert_eq!(shown.lines.len(), 8);
    assert!(flat(&shown.lines[0]).ends_with("m0"));
    assert!(render_messages(&app, 80, 2, 0).lines.is_empty());
}

#[test]
fn messages_of_each_kind() {
    let mut app = state();
    app.emit_chat("p", "", "long text", 0);
    app.emit_system("s", 0);
    app.emit_error("e", 0);
    app.emit_join("n", "p", 0);
    app.emit_leave("n", 0);
    let shown = render_messages(&app, 36, 20, 0);
    let lines: Vec<String> = shown.lines.iter().map(|l| flat(l)).collect();
    assert_eq!(
        lines,
        vec![
            "[00:00:00] ▌ unknown     long",
            "[00:00:00] · system      s",
            "[00:00:00] ! error       e",
            "[00:00:00] + join        n jo",
            "[00:00:00] - leave       n le",
        ]
    );
    assert_eq!(shown.lines[2][1].fg, Some(app.theme.peers[0]));
    assert_eq!(shown.lines[4][3].fg, Some(app.theme.peers[4]));
    assert!(shown.lines[1][1].bold);
    assert!(!shown.lines[1][4].bold);
}

#[test]
fn network_log_of_each_level() {
    let mut app = state();
    let events = Area { x: 0, y: 0, width: 42, height: 7 };
    assert!(render_netlog(&app, 0, events).is_none());
    app.netlog(NetLevel::Info, "dropped", 0);
    app.netlog(NetLevel::Info, "a", 0);
    app.netlog(NetLevel::Okay, "b", 0);
    app.netlog(NetLevel::Warn, "c", 0);
    app.netlog(NetLevel::Error, "d", 0);
    app.netlog(NetLevel::Traffic, &"e".repeat(40), 86_399);
    let shown = render_netlog(&app, 42, events).unwrap();
    let meta: Vec<String> = shown.meta.iter().map(|l| flat(l)).collect();
    assert_eq!(
        meta,
        vec!["mesh  discovering", "TCP   127.0.0.1:0", "path  Noise / Yamux / Chat"]
    );
    let lines: Vec<String> = shown.events.iter().map(|l| flat(l)).collect();
    assert_eq!(
        lines,
        vec![
            "00:00:00 net a".to_string(),
            "00:00:00 ok  b".to_string(),
            "00:00:00 wrn c".to_string(),
            "00:00:00 err d".to_string(),
            format!("23:59:59 io  {}", "e".repeat(25)),
        ]
    );
    assert_eq!(shown.events[4][2].fg, Some(app.theme.peers[3]));
}

#[test]
fn input_line_shows_the_nick() {
    let app = state();
    let mut input = InputState::new();
    write(&mut input, "höl");
    press(&mut input, Key::Left);
    let line = render_input(&app, &input);
    assert_eq!(flat(&line), "me : höl");
    assert_eq!(line[2].fg, Some(app.theme.fg));
}

#[test]
fn status_bar() {
    let mut app = state();
    let s = render_status(&app, 89);
    assert_eq!(s.label, " /connect /help     0 peers  0/0 msg ");
    assert!(!s.full);
    assert_eq!(s.color, app.theme.accent);
    add_peer(&mut app, "zoe", 1, 2);
    let s = render_status(&app, 90);
    assert_eq!(
        s.label,
        " /connect /status /inspect /id /peers /clear /send /accept /theme /quit     1 peers  1/2 msg "
    );
    assert!(s.full);
    assert_eq!(s.color, app.theme.peers[2]);
}

fn draw(width: u16, height: u16) -> Areas {
    let app = state();
    let input = InputState::new();
    draw_ui(&app, &input, Area { x: 0, y: 0, width, height }, 0).areas
}

#[test]
fn a_wide_screen_has_three_columns() {
    let a = draw(140, 40);
    assert_eq!(a.header, Area { x: 0, y: 0, width: 140, height: 3 });
    assert_eq!(a.body, Area { x: 0, y: 3, width: 140, height: 33 });
    assert_eq!(a.input, Area { x: 0, y: 36, width: 140, height: 3 });
    assert_eq!(a.status, Area { x: 0, y: 39, width: 140, height: 1 });
    assert_eq!(a.sidebar, Area { x: 0, y: 3, width: 28, height: 33 });
    assert_eq!(a.messages, Area { x: 28, y: 3, width: 70, height: 33 });
    assert_eq!(a.netlog, Area { x: 98, y: 3, width: 42, height: 33 });
    assert_eq!(a.meta, Area { x: 98, y: 3, width: 42, height: 6 });
    assert_eq!(a.events, Area { x: 98, y: 9, width: 42, height: 27 });
}

#[test]
fn narrower_screens_drop_columns() {
    assert_eq!(draw(138, 40).netlog.width, 34);
    assert_eq!(draw(116, 40).netlog.width, 0);
    assert_eq!(draw(97, 40).sidebar.width, 28);
    assert_eq!(draw(96, 40).sidebar.width, 23);
    let a = draw(68, 40);
    assert_eq!((a.sidebar.width, a.messages.width, a.netlog.width), (0, 68, 0));
    let app = state();
    let input = InputState::new();
    let s = draw_ui(&app, &input, Area { x: 0, y: 0, width: 68, height: 40 }, 0);
    assert!(s.sidebar.is_none());
    assert!(s.netlog.is_none());
}

#[test]
fn low_screens_keep_the_body() {
    for (height, rows) in [
        (0u16, [0u16, 0, 0, 0]),
        (1, [0, 1, 0, 0]),
        (4, [0, 4, 0, 0]),
        (7, [0, 7, 0, 0]),
        (8, [0, 8, 0, 0]),
        (9, [1, 8, 0, 0]),
        (10, [2, 8, 0, 0]),
        (11, [3, 8, 0, 0]),
        (12, [3, 8, 1, 0]),
        (13, [3, 8, 1, 1]),
        (14, [3, 8, 2, 1]),
        (15, [3, 8, 3, 1]),
    ] {
        for y in 0..100 {
            let app = state();
            let input = InputState::new();
            let area = Area { x: 1, y, width: 150, height };
            let a = draw_ui(&app, &input, area, 0).areas;
            let parts = [a.header, a.body, a.input, a.status];
            assert_eq!(parts.map(|p| p.height), rows);
            let mut next = y;
            for p in parts {
                assert_eq!((p.x, p.width, p.y), (1, 150, next));
                next += p.height;
            }
            let events = rows[1].min(4);
            assert_eq!((a.meta.y, a.meta.height), (a.body.y, rows[1] - events));
            assert_eq!((a.events.y, a.events.height), (a.body.y + rows[1] - events, events));
        }
    }
}

#[test]
fn the_notes_give_way_to_the_events() {
    for (height, meta, events) in [(15u16, 4u16, 4u16), (16, 5, 4), (17, 6, 4), (18, 6, 5)] {
        for y in 0..50 {
            let app = state();
            let input = InputState::new();
            let a = draw_ui(&app, &input, Area { x: 0, y, width: 150, height }, 0).areas;
            assert_eq!((a.meta.height, a.events.height), (meta, events));
            assert_eq!((a.meta.y, a.events.y), (y + 3, y + 3 + meta));
        }
    }
}

#[test]
fn narrow_screens_hold_the_chat_alone() {
    for width in 0..24 {
        for x in 0..50 {
            let app = state();
            let input = InputState::new();
            let a = draw_ui(&app, &input, Area { x, y: 0, width, height: 40 }, 0).areas;
            assert_eq!((a.sidebar.x, a.sidebar.width), (x, 0));
            assert_eq!((a.messages.x, a.messages.width), (x, width));
            assert_eq!((a.netlog.x, a.netlog.width), (x + width, 0));
        }
    }
}

#[test]
fn a_screen_beyond_the_last_coordinate_is_filled_in_a_row() {
    for x in 65_400u16..=65_535 {
        let app = state();
        let input = InputState::new();
        let a = draw_ui(&app, &input, Area { x, y: 65_500, width: 140, height: 40 }, 0).areas;
        assert_eq!(a.header.y, 65_500);
        assert_eq!(a.body.y, a.header.y + a.header.height);
        assert_eq!(a.input.y, a.body.y + a.body.height);
        assert_eq!(a.status.y, a.input.y + a.input.height);
        assert_eq!(a.status.y + a.status.height, 65_535);
        let room = (65_535 - x).min(140);
        assert_eq!(a.sidebar.x, x);
        assert_eq!(a.messages.x, x + a.sidebar.width);
        assert_eq!(a.netlog.x, a.messages.x + a.messages.width);
        assert_eq!(a.netlog.x + a.netlog.width, x + room);
        assert!(a.sidebar.width <= 28 && a.netlog.width <= 42);
        if room < 94 {
            assert_eq!(a.messages.width, room.min(24));
        }
    }
}

#[test]
fn the_body_and_the_chat_get_all_that_is_left() {
    for height in 15..=120 {
        let a = draw(140, height);
        assert_eq!((a.body.y, a.body.height), (3, height - 7));
        assert_eq!((a.input.y, a.status.y), (height - 4, height - 1));
    }
    for width in 139..=250 {
        let a = draw(width, 40);
        assert_eq!((a.messages.x, a.messages.width), (28, width - 70));
        assert_eq!((a.netlog.x, a.netlog.width), (width - 42, 42));
    }
    for width in 24..=68 {
        let a = draw(width, 40);
        assert_eq!((a.messages.x, a.messages.width), (0, width));
    }
}

#[test]
fn parts_stay_inside_and_have_their_room() {
    for height in [0u16, 1, 4, 7, 14, 15, 16, 24, 200] {
        for width in [0u16, 1, 10, 23, 24, 30, 69, 80, 97, 117, 139, 300] {
            for (x, y) in [(0u16, 0u16), (5, 9), (65_000, 65_100)] {
                let app = state();
                let input = InputState::new();
                let area = Area { x, y, width, height };
                let a = draw_ui(&app, &input, area, 0).areas;
                for p in [a.header, a.body, a.input, a.status] {
                    assert_eq!((p.x, p.width), (x, width));
                    assert!(p.y >= y && p.y as u32 + p.height as u32 <= y as u32 + height as u32);
                }
                for p in [a.sidebar, a.messages, a.netlog] {
                    assert_eq!((p.y, p.height), (a.body.y, a.body.height));
                    assert!(p.x >= x && p.x as u32 + p.width as u32 <= x as u32 + width as u32);
                }
                if height >= 15 {
                    assert_eq!((a.header.y, a.header.height), (y, 3));
                    assert_eq!((a.body.y, a.body.height), (y + 3, height - 7));
                    assert_eq!((a.input.y, a.input.height), (y + height - 4, 3));
                    assert_eq!((a.status.y, a.status.height), (y + height - 1, 1));
                }
                if width >= 24 {
                    let side = if width > 96 {
                        28
                    } else if width > 68 {
                        23
                    } else {
                        0
                    };
                    let log = if width > 138 {
                        42
                    } else if width > 116 {
                        34
                    } else {
                        0
                    };
                    assert_eq!((a.sidebar.x, a.sidebar.width), (x, side));
                    assert_eq!(
                        (a.messages.x, a.messages.width),
                        (x + side, width - side - log)
                    );
                    assert_eq!((a.netlog.x, a.netlog.width), (x + width - log, log));
                }
                if height >= 17 && width >= 24 {
                    assert_eq!((a.meta.y, a.meta.height), (y + 3, 6));
                    assert_eq!((a.events.y, a.events.height), (y + 9, height - 13));
                }
            }
        }
    }
}

#[test]
fn cursor_follows_the_text() {
    let app = state();
    let mut input = InputState::new();
    write(&mut input, "abc");
    let area = Area { x: 0, y: 0, width: 80, height: 24 };
    let s = draw_ui(&app, &input, area, 0);
    assert_eq!(s.cursor, (2 + 2 + 3 + 3, 21));
    write(&mut input, &"x".repeat(200));
    let s = draw_ui(&app, &input, area, 0);
    assert_eq!(s.cursor, (78, 21));
    let s = compose(&app, &input, s.areas, 0);
    assert_eq!(flat(&s.input), format!("me : abc{}", "x".repeat(200)));
}
