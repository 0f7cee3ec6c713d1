use speer_chat::app::{AppState, MsgKind, NetLevel, TxFile};
use speer_chat::constants::{
    CHAT_TYPE_FILE_ACCEPT, CHAT_TYPE_FILE_CHUNK, CHAT_TYPE_FILE_DONE, CHAT_TYPE_FILE_META,
    CHAT_TYPE_MSG, FILE_CHUNK_BYTES, MAX_RX_FILES,
};
use speer_chat::ffi::Identity;
use speer_chat::files::{
    accept_opened, base_name, chunk_written, cmd_accept_file, cmd_send_file, handle_file_frame,
    file_name, offer_file, offer_named_file, parse_offer, receive_file_chunk, receive_file_done, receive_file_meta,
    send_file_step, send_file_to_peer, send_file_unopened, FileAction,
};
use speer_chat::net::start_peer;
use speer_chat::protocol::chat_frame_encode;
use speer_chat::util::hex_decode;

const OTHER: &str = "12D3KooWzzzzzzzzzzzzzzzzzzzz";

/// A buffer that these bytes were read into.
fn filled(chunk: &[u8]) -> [u8; FILE_CHUNK_BYTES] {
    let mut buf = [0xeeu8; FILE_CHUNK_BYTES];
    buf[..chunk.len()].copy_from_slice(chunk);
    buf
}

fn state() -> AppState {
    let identity = Identity {
        static_pub: [1; 32],
        static_priv: [2; 32],
        ed_pub: [3; 32],
        ed_seed: [4; 32],
        peer_id: "12D3KooWmmmmmmmmmmmmmmmmmmmm".to_string(),
    };
    AppState::new(identity, "me".to_string(), "midnight", 0)
}

fn with_peer() -> (AppState, u64) {
    let mut app = state();
    let key = start_peer(&mut app, true, "h:1".to_string(), 0).unwrap();
    app.peers[0].info.handshake_done = true;
    app.peers[0].info.remote_pid_full = OTHER.to_string();
    app.peers[0].info.remote_pid_short = "12D3Ko..zzzzzz".to_string();
    app.peers[0].info.remote_nick = "../zoe".to_string();
    (app, key)
}

fn last_log(app: &AppState) -> (NetLevel, String) {
    let e = app.netlog.back().unwrap();
    (e.level, e.text.clone())
}

fn last_line(app: &AppState) -> (MsgKind, String) {
    let m = app.history.back().unwrap();
    (m.kind, m.text.clone())
}

#[test]
fn offers_are_read() {
    assert_eq!(parse_offer("7|10|a|b"), Some((7, 10, "a|b".to_string())));
    assert_eq!(parse_offer("7|10|"), Some((7, 10, String::new())));
    for bad in ["", "7", "7|10", "x|10|a", "7|x|a", "4294967296|1|a", "7|18446744073709551616|a"] {
        assert_eq!(parse_offer(bad), None, "{bad}");
    }
}

#[test]
fn an_offer_is_stored_inside_the_directory() {
    let (mut app, key) = with_peer();
    receive_file_meta(&mut app, key, "7|10|../../etc/pass wd", 5);
    let f = &app.files.rx[0];
    assert_eq!((f.id, f.expected, f.received), (7, 10, 0));
    assert_eq!(f.name, "....etcpass_wd");
    assert_eq!(f.path, "speer_received/..zoe_7_....etcpass_wd");
    assert_eq!(f.sender, OTHER);
    assert!(f.file.is_none());
    assert_eq!(
        last_line(&app),
        (
            MsgKind::System,
            "incoming file ....etcpass_wd (10 bytes). type /accept 7 to receive".to_string()
        )
    );
    assert_eq!(
        last_log(&app),
        (NetLevel::Warn, "file pending ....etcpass_wd id 7".to_string())
    );
}

#[test]
fn offers_are_limited() {
    let (mut app, key) = with_peer();
    receive_file_meta(&mut app, key, "bad", 0);
    assert_eq!(last_log(&app), (NetLevel::Warn, "bad file metadata".to_string()));
    for i in 0..MAX_RX_FILES {
        receive_file_meta(&mut app, key, &format!("{i}|1|f"), 0);
    }
    receive_file_meta(&mut app, key, "99|1|f", 0);
    assert_eq!(app.files.rx.len(), MAX_RX_FILES);
    assert_eq!(last_line(&app), (MsgKind::Error, "too many incoming files".to_string()));
}

#[test]
fn a_transfer_from_end_to_end() {
    let (mut sender, to) = with_peer();
    let data: Vec<u8> = (0..1000u32).map(|i| (i * 7) as u8).collect();
    let path = cmd_send_file(&mut sender, "  \"/tmp/my file.bin\" ", 0).unwrap();
    assert_eq!(path, "/tmp/my file.bin");
    offer_file(&mut sender, path, Some(1000), 6, 0);
    assert_eq!(sender.next_file_id, 2);
    assert_eq!(sender.files.tx[0].id, 1 ^ 6);
    assert_eq!(
        last_line(&sender).1,
        "offered file my_file.bin (1000 bytes), waiting for peer acceptance"
    );
    assert_eq!(last_log(&sender), (NetLevel::Okay, "file offered my_file.bin id 7".to_string()));
    let offer = sender.peers[0].dequeue().unwrap();
    assert_eq!((offer.kind, offer.text.as_str()), (CHAT_TYPE_FILE_META, "7|1000|my_file.bin"));

    let (mut receiver, from) = with_peer();
    handle_file_frame(&mut receiver, from, offer.kind, &offer.text, 0);
    let i = cmd_accept_file(&mut receiver, &None, None, 0).unwrap();
    let token = accept_opened(&mut receiver, i, true, 0).unwrap();
    assert_eq!(
        last_line(&receiver).1,
        "accepted file my_file.bin -> speer_received/..zoe_7_my_file.bin"
    );
    let accept = receiver.peers[0].dequeue().unwrap();
    assert_eq!((accept.kind, accept.text.as_str()), (CHAT_TYPE_FILE_ACCEPT, "7"));

    let file = match handle_file_frame(&mut sender, to, accept.kind, &accept.text, 0) {
        FileAction::Send { file } => file,
        _ => panic!(),
    };
    assert_eq!(file.path, "/tmp/my file.bin");
    let mut sent = 0;
    for chunk in data.chunks(FILE_CHUNK_BYTES) {
        let (buf, n) = (filled(chunk), Some(chunk.len()));
        sent = send_file_step(&mut sender, to, &file, sent, &buf, n, 0).unwrap();
    }
    assert_eq!(sent, 1000);
    assert_eq!(
        last_log(&sender),
        (NetLevel::Traffic, "file tx my_file.bin 1000/1000B".to_string())
    );
    assert_eq!(send_file_step(&mut sender, to, &file, sent, &filled(&[]), Some(0), 0), None);
    assert_eq!(last_log(&sender), (NetLevel::Okay, "file tx done my_file.bin".to_string()));

    let mut written = Vec::new();
    let mut closed = false;
    while let Some(m) = sender.peers[0].dequeue() {
        assert!(chat_frame_encode(m.kind, "me", &m.text).is_ok());
        match handle_file_frame(&mut receiver, from, m.kind, &m.text, 0) {
            FileAction::Write { token: t, data } => {
                assert_eq!(t, token);
                chunk_written(&mut receiver, t, data.len() as u64, 0);
                written.extend_from_slice(&data);
            }
            FileAction::Close { token: t } => {
                assert_eq!(t, token);
                closed = true;
            }
            _ => panic!(),
        }
    }
    assert!(closed);
    assert_eq!(written, data);
    assert!(receiver.files.rx.is_empty());
    assert_eq!(
        last_line(&receiver).1,
        "received file my_file.bin -> speer_received/..zoe_7_my_file.bin (1000/1000 bytes)"
    );
    assert_eq!(last_log(&receiver), (NetLevel::Okay, "file saved my_file.bin".to_string()));
}

#[test]
fn chunks_are_refused() {
    let (mut app, key) = with_peer();
    receive_file_meta(&mut app, key, "7|4|f", 0);
    for (payload, log) in [
        ("7", "bad file chunk"),
        ("x|00", "bad file chunk"),
        ("7|0", "bad file chunk hex"),
        ("7|0g", "bad file chunk hex"),
        ("8|00", "chunk for unknown file 8"),
        ("7|00", "ignored unaccepted chunk f"),
    ] {
        let action = receive_file_chunk(&mut app, key, payload, 0);
        assert!(matches!(action, FileAction::Nothing));
        assert_eq!(last_log(&app), (NetLevel::Warn, log.to_string()));
    }
}

#[test]
fn chunks_go_to_their_sender_alone() {
    let (mut app, key) = with_peer();
    receive_file_meta(&mut app, key, "7|4|f", 0);
    let other = start_peer(&mut app, true, "h:2".to_string(), 0).unwrap();
    app.peers[1].info.remote_pid_full = "someone else".to_string();
    let i = cmd_accept_file(&mut app, &None, Some(7), 0).unwrap();
    accept_opened(&mut app, i, true, 0);
    receive_file_chunk(&mut app, other, "7|00", 0);
    assert_eq!(last_log(&app), (NetLevel::Warn, "chunk for unknown file 7".to_string()));
    match receive_file_chunk(&mut app, key, "7|00fF", 0) {
        FileAction::Write { token: 0, data } => assert_eq!(data, vec![0, 255]),
        _ => panic!(),
    }
    chunk_written(&mut app, 0, 2, 0);
    assert_eq!(app.files.rx[0].received, 2);
    assert_eq!(last_log(&app), (NetLevel::Traffic, "file rx f 2/4B".to_string()));
}

#[test]
fn incomplete_files_are_told() {
    let (mut app, key) = with_peer();
    receive_file_meta(&mut app, key, "7|4|f", 0);
    assert!(matches!(receive_file_done(&mut app, key, "x", 0), FileAction::Nothing));
    assert!(matches!(receive_file_done(&mut app, key, "8", 0), FileAction::Nothing));
    assert_eq!(app.files.rx.len(), 1);
    assert!(matches!(receive_file_done(&mut app, key, "7", 0), FileAction::Nothing));
    assert!(app.files.rx.is_empty());
    assert_eq!(
        last_line(&app).1,
        "received file f -> speer_received/..zoe_7_f (0/4 bytes) incomplete"
    );
    assert_eq!(last_log(&app), (NetLevel::Warn, "file saved f".to_string()));
}

#[test]
fn requests_for_unknown_files() {
    let (mut app, key) = with_peer();
    let action = handle_file_frame(&mut app, key, CHAT_TYPE_FILE_ACCEPT, "9", 0);
    assert!(matches!(action, FileAction::Nothing));
    assert_eq!(last_log(&app), (NetLevel::Warn, "accept for unknown file 9".to_string()));
    let before = app.netlog.len();
    handle_file_frame(&mut app, key, CHAT_TYPE_FILE_ACCEPT, "nine", 0);
    handle_file_frame(&mut app, key, CHAT_TYPE_MSG, "9", 0);
    assert_eq!(app.netlog.len(), before);
    assert!(matches!(send_file_to_peer(&mut app, 1, 0), FileAction::Nothing));
}

#[test]
fn files_that_cannot_be_read() {
    let (mut app, key) = with_peer();
    let file = TxFile { id: 3, size: 1, name: "f".to_string(), path: "/f".to_string() };
    send_file_unopened(&mut app, &file, 0);
    assert_eq!(last_line(&app), (MsgKind::Error, "could not reopen f".to_string()));
    assert_eq!(send_file_step(&mut app, key, &file, 0, &filled(&[]), None, 0), None);
    let m = app.peers[0].dequeue().unwrap();
    assert_eq!((m.kind, m.text.as_str()), (CHAT_TYPE_FILE_DONE, "3"));
}

#[test]
fn one_chunk_makes_one_frame() {
    let (mut app, key) = with_peer();
    let file = TxFile { id: 3, size: 2, name: "f".to_string(), path: "/f".to_string() };
    let buf = filled(&[1, 0xab]);
    assert_eq!(send_file_step(&mut app, key, &file, 0, &buf, Some(2), 0), Some(2));
    let m = app.peers[0].dequeue().unwrap();
    assert_eq!((m.kind, m.text.as_str()), (CHAT_TYPE_FILE_CHUNK, "3|01ab"));
}

#[test]
fn the_send_command_needs_a_path_and_a_peer() {
    let mut app = state();
    assert_eq!(cmd_send_file(&mut app, " \"\" ", 0), None);
    assert_eq!(last_line(&app), (MsgKind::Error, "usage: /send <path>".to_string()));
    assert_eq!(cmd_send_file(&mut app, "x", 0), None);
    assert_eq!(
        last_line(&app),
        (MsgKind::Error, "no connected peers for file transfer".to_string())
    );
    offer_file(&mut app, "/gone".to_string(), None, 0, 0);
    assert_eq!(last_line(&app), (MsgKind::Error, "could not open file: /gone".to_string()));
    assert_eq!(app.next_file_id, 1);
}

#[test]
fn base_names() {
    assert_eq!(base_name("/a/b.txt"), Some("b.txt".to_string()));
    assert_eq!(base_name("b"), Some("b".to_string()));
    assert_eq!(base_name("a/b/./"), Some("b".to_string()));
    for none in ["", "/", ".", "..", "a/..", "./"] {
        assert_eq!(base_name(none), None, "{none}");
    }
}

#[test]
fn a_nameless_path_is_a_blob() {
    let (mut app, _) = with_peer();
    offer_file(&mut app, "/".to_string(), Some(1), 0, 0);
    assert_eq!(app.files.tx[0].name, "blob");
}

#[test]
fn the_accept_command() {
    let (mut app, key) = with_peer();
    let err = Some("denied".to_string());
    assert_eq!(cmd_accept_file(&mut app, &err, None, 0), None);
    assert_eq!(
        last_line(&app),
        (MsgKind::Error, "could not create speer_received directory: denied".to_string())
    );
    assert_eq!(cmd_accept_file(&mut app, &None, None, 0), None);
    assert_eq!(last_line(&app), (MsgKind::Error, "no pending file to accept".to_string()));
    receive_file_meta(&mut app, key, "1|4|a", 0);
    receive_file_meta(&mut app, key, "2|4|b", 0);
    assert_eq!(cmd_accept_file(&mut app, &None, None, 0), None);
    assert_eq!(
        last_line(&app),
        (MsgKind::Error, "multiple pending files; use /accept <id>".to_string())
    );
    assert_eq!(cmd_accept_file(&mut app, &None, Some(2), 0), Some(1));
    assert_eq!(accept_opened(&mut app, 1, false, 0), None);
    assert_eq!(last_line(&app), (MsgKind::Error, "could not open receive file".to_string()));
    assert_eq!(accept_opened(&mut app, 1, true, 0), Some(0));
    assert_eq!(last_log(&app), (NetLevel::Okay, "file accept b id 2".to_string()));
    assert_eq!(cmd_accept_file(&mut app, &None, Some(2), 0), None);
    assert_eq!(cmd_accept_file(&mut app, &None, None, 0), Some(0));
    assert_eq!(accept_opened(&mut app, 0, true, 0), Some(1));
    let accepts: Vec<String> = app.peers[0].out.iter().map(|m| m.text.clone()).collect();
    assert_eq!(accepts, vec!["2".to_string(), "1".to_string()]);
}

#[test]
fn the_largest_chunk_fits_a_frame() {
    let (mut app, key) = with_peer();
    let file = TxFile { id: u32::MAX, size: 384, name: "f".to_string(), path: "/f".to_string() };
    let buf = [0xffu8; FILE_CHUNK_BYTES];
    send_file_step(&mut app, key, &file, 0, &buf, Some(FILE_CHUNK_BYTES), 0);
    let m = app.peers[0].dequeue().unwrap();
    assert!(chat_frame_encode(m.kind, &"𝄞".repeat(31), &m.text).is_ok());
}

#[test]
fn a_file_is_sent_whole() {
    for size in [0usize, 1, 383, 384, 385, 1000] {
        let (mut app, key) = with_peer();
        let content: Vec<u8> = (0..size).map(|i| (i * 7) as u8).collect();
        let tx = TxFile { id: 9, size: size as u64, name: "f".to_string(), path: "/f".to_string() };
        app.files.tx.push(tx);
        let FileAction::Send { file } = send_file_to_peer(&mut app, 9, 0) else { panic!() };
        let mut sent = 0;
        for (i, chunk) in content.chunks(FILE_CHUNK_BYTES).enumerate() {
            let (buf, n) = (filled(chunk), Some(chunk.len()));
            sent = send_file_step(&mut app, key, &file, sent, &buf, n, i as u64).unwrap();
        }
        assert_eq!(sent, size as u64);
        assert_eq!(send_file_step(&mut app, key, &file, sent, &filled(&[]), Some(0), 99), None);
        let mut out = Vec::new();
        while let Some(m) = app.peers[0].dequeue() {
            out.push(m);
        }
        let done = out.pop().unwrap();
        assert_eq!((done.kind, done.text.as_str()), (CHAT_TYPE_FILE_DONE, "9"));
        assert_eq!(out.len(), size.div_ceil(FILE_CHUNK_BYTES));
        let mut got = Vec::new();
        for m in &out {
            assert_eq!(m.kind, CHAT_TYPE_FILE_CHUNK);
            let piece = hex_decode(m.text.strip_prefix("9|").unwrap()).unwrap();
            assert!(!piece.is_empty() && piece.len() <= FILE_CHUNK_BYTES);
            got.extend_from_slice(&piece);
        }
        assert_eq!(got, content);
        assert_eq!((app.files.tx.len(), app.files.rx.len()), (1, 0));
    }
}

#[test]
fn file_names_on_either_kind_of_system() {
    for separator in ['/', '\\'] {
        assert_eq!(file_name(separator, "/a/b.txt"), Some("b.txt".to_string()));
        assert_eq!(file_name(separator, "a/b/./"), Some("b".to_string()));
        for none in ["", "/", ".", "./.", "a/.."] {
            assert_eq!(file_name(separator, none), None, "{none}");
        }
    }
    assert_eq!(file_name('/', "C:\\d\\f.txt"), Some("C:\\d\\f.txt".to_string()));
    assert_eq!(file_name('/', "//a/b"), Some("b".to_string()));
}

#[test]
fn an_offer_goes_by_the_name_that_the_system_reads() {
    for (base, name) in [(Some("f.txt"), "f.txt"), (None, "blob")] {
        let (mut app, _) = with_peer();
        let path = "C:\\d\\f.txt".to_string();
        offer_named_file(&mut app, path, base.map(|b| b.to_string()), Some(3), 0, 0);
        assert_eq!(app.files.tx[0].name, name);
        assert_eq!(app.files.tx[0].path, "C:\\d\\f.txt");
        let m = app.peers[0].dequeue().unwrap();
        assert_eq!((m.kind, m.text), (CHAT_TYPE_FILE_META, format!("1|3|{name}")));
    }
    let (mut app, _) = with_peer();
    app.separator = '\\';
    offer_file(&mut app, "/d/f g.txt".to_string(), Some(3), 0, 0);
    assert_eq!(app.files.tx[0].name, "f_g.txt");
}

#[test]
fn files_are_stored_with_the_separator_of_the_system() {
    let (mut app, key) = with_peer();
    assert_eq!(app.separator, std::path::MAIN_SEPARATOR);
    app.separator = '\\';
    receive_file_meta(&mut app, key, "7|4|f", 0);
    assert_eq!(app.files.rx[0].path, "speer_received\\..zoe_7_f");
}
