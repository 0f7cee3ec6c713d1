use speer_chat::app::{rgb, theme, AppState, MsgKind, NetLevel, PeerHandle, PeerInfo, Rgb};
use speer_chat::constants::{
    CHAT_TYPE_BYE, CHAT_TYPE_FILE_ACCEPT, CHAT_TYPE_FILE_CHUNK, CHAT_TYPE_FILE_DONE,
    CHAT_TYPE_FILE_META, CHAT_TYPE_HELLO, CHAT_TYPE_MSG, MAX_FRAME_LEN, MAX_HISTORY, MAX_NETLOG,
    MAX_PEERS, MAX_RX_FILES,
};
use speer_chat::ffi::{
    c_char_array_to_string, cstring, discover_lan_ip, make_identity, random_bytes,
    random_instance_name, tcp_dial, tcp_listen, Identity, IdentityError, IdentityParts, ListenStep,
};
use speer_chat::protocol::{
    chat_frame_decode, chat_frame_encode, is_file_frame, recv_chat_frame, send_chat_frame,
    FrameError,
};
use speer_chat::text::{
    dec2_string, dec_string, find_str, is_control, is_whitespace, parse_number, split_all, trim,
};
use speer_chat::util::{
    can_truncate_pid, clip, color_idx, discover_public_ipv4_http, elapsed_secs, fmt_duration,
    fmt_time, hex_decode, hex_encode, ipv4_request, sanitize_file_name, truncate_pid,
    try_fetch_ipv4_via_http, unix_time_secs, IfEmpty, ProbeStep,
};
use speer_chat::wire::{decode_block, decode_varint, encode_varint, skip_field, varint_size};

fn state() -> AppState {
    let identity = Identity {
        static_pub: [1; 32],
        static_priv: [2; 32],
        ed_pub: [3; 32],
        ed_seed: [4; 32],
        peer_id: "me".to_string(),
    };
    AppState::new(identity, "nick".to_string(), "midnight", 5)
}

fn chars(s: &str) -> Vec<char> {
    s.chars().collect()
}

#[test]
fn white_space_and_control_are_those_of_unicode() {
    for c in (0..=0x10ffffu32).filter_map(char::from_u32) {
        assert_eq!(is_whitespace(c), c.is_whitespace(), "{c:?}");
        assert_eq!(is_control(c), c.is_control(), "{c:?}");
    }
}

#[test]
fn text_helpers() {
    assert_eq!(trim(&chars(" \u{2003}a b\n")), chars("a b").as_slice());
    assert_eq!(trim(&chars(" \t")), chars("").as_slice());
    assert_eq!(find_str(&chars("/ip4/x/tcp/1/tcp/2"), "/tcp/"), Some(6));
    assert_eq!(find_str(&chars("abc"), "d"), None);
    assert_eq!(find_str(&chars("abc"), ""), Some(0));
    assert_eq!(split_all(&chars("a..b"), '.'), vec![chars("a"), chars(""), chars("b")]);
    assert_eq!(split_all(&chars(""), '.'), vec![chars("")]);
    assert_eq!(dec_string(0), "0");
    assert_eq!(dec_string(u64::MAX), u64::MAX.to_string());
    assert_eq!(dec2_string(7), "07");
    assert_eq!(dec2_string(123), "123");
}

#[test]
fn numbers_read_as_std_reads_them() {
    for s in ["0", "+0", "00255", "256", "", "+", "-1", "1 ", "+1+", "٣", "18446744073709551615"] {
        assert_eq!(parse_number(&chars(s), 255), s.parse::<u8>().ok().map(u64::from), "{s}");
        assert_eq!(parse_number(&chars(s), u64::MAX), s.parse::<u64>().ok(), "{s}");
    }
    assert_eq!(parse_number(&chars("18446744073709551616"), u64::MAX), None);
    assert_eq!(parse_number(&chars("99999999999999999999999"), u64::MAX), None);
}

#[test]
fn numbers_round_trip() {
    for n in [0u64, 9, 10, 65535, 4294967295, u64::MAX] {
        assert_eq!(parse_number(&chars(&dec_string(n)), u64::MAX), Some(n));
    }
}

#[test]
fn colours_of_ids() {
    assert_eq!(color_idx(""), 1);
    assert_eq!(color_idx("alice"), 5);
    assert_eq!(color_idx("bob"), 2);
    assert_eq!(color_idx("é"), 3);
}

#[test]
fn short_ids() {
    assert_eq!(truncate_pid("12345678901234"), "12345678901234");
    assert_eq!(truncate_pid("123456789012345"), "123456..012345");
    assert!(can_truncate_pid("ééééééé"));
    assert!(can_truncate_pid("éééééééé"));
    assert!(!can_truncate_pid("aéééééééé"));
}

#[test]
fn file_names_are_sanitized() {
    assert_eq!(sanitize_file_name("../a b/ç.T-1_"), "..a_b.T-1_");
    assert_eq!(sanitize_file_name("///"), "blob");
    assert_eq!(sanitize_file_name(""), "blob");
    let once = sanitize_file_name(" x/y z ");
    assert_eq!(sanitize_file_name(&once), once);
}

#[test]
fn hexadecimal() {
    assert_eq!(hex_encode(&[0, 15, 16, 255]), "000f10ff");
    assert_eq!(hex_decode("000F10ff"), Ok(vec![0, 15, 16, 255]));
    assert_eq!(hex_decode(""), Ok(vec![]));
    assert_eq!(hex_decode("0"), Err(()));
    assert_eq!(hex_decode("0g"), Err(()));
    assert_eq!(hex_decode("é"), Err(()));
    let all: Vec<u8> = (0..=255).collect();
    assert_eq!(hex_decode(&hex_encode(&all)), Ok(all));
}

#[test]
fn clipping_and_times() {
    assert_eq!(clip("añb", 2), "añ");
    assert_eq!(clip("ab", 5), "ab");
    assert_eq!(clip("ab", 0), "");
    assert_eq!(fmt_time(86_399), "23:59:59");
    assert_eq!(fmt_time(90_061), "01:01:01");
    assert_eq!(fmt_duration(59), "59s");
    assert_eq!(fmt_duration(60), "1m00s");
    assert_eq!(fmt_duration(3_599), "59m59s");
    assert_eq!(fmt_duration(3_661), "1h01m");
    assert_eq!(fmt_duration(360_000), "100h00m");
    assert_eq!(elapsed_secs(5, 2_000_000_004), 1);
    assert_eq!(elapsed_secs(5, 4), 0);
    assert_eq!(unix_time_secs(Some(7)), 7);
    assert_eq!(unix_time_secs(None), 0);
}

#[test]
fn empty_strings_fall_back() {
    assert_eq!(String::new().if_empty("x"), "x");
    assert_eq!("y".to_string().if_empty("x"), "y");
}

#[test]
fn addresses_in_http_replies() {
    let reply = b"HTTP/1.1 200 OK\r\nServer: x\r\n\r\n 203.0.113.9 \n";
    assert_eq!(try_fetch_ipv4_via_http(reply), Some("203.0.113.9".to_string()));
    for bad in [
        b"203.0.113.9".as_slice(),
        b"a\r\n\r\n256.1.1.1",
        b"a\r\n\r\n1.2.3",
        b"a\r\n\r\n01.2.3.4",
        b"a\r\n\r\n::1",
        b"a\r\n\r\n",
        b"\xff\r\n\r\n1.2.3.4",
    ] {
        assert_eq!(try_fetch_ipv4_via_http(bad), None);
    }
    assert_eq!(
        ipv4_request("api.ipify.org", "/"),
        "GET / HTTP/1.1\r\nHost: api.ipify.org\r\nConnection: close\r\nUser-Agent: speer-chat\r\n\r\n"
    );
}

#[test]
fn two_services_are_asked() {
    match discover_public_ipv4_http(&vec![]) {
        ProbeStep::Fetch { addr, host } => {
            assert_eq!((addr.as_str(), host.as_str()), ("api.ipify.org:80", "api.ipify.org"));
        }
        _ => panic!(),
    }
    match discover_public_ipv4_http(&vec![None]) {
        ProbeStep::Fetch { addr, .. } => assert_eq!(addr, "icanhazip.com:80"),
        _ => panic!(),
    }
    assert!(matches!(discover_public_ipv4_http(&vec![None, None]), ProbeStep::NotFound));
    match discover_public_ipv4_http(&vec![Some(b"x\r\n\r\n1.2.3.4".to_vec())]) {
        ProbeStep::Found(ip) => assert_eq!(ip, "1.2.3.4"),
        _ => panic!(),
    }
}

#[test]
fn varints() {
    for v in [0u64, 1, 127, 128, 300, 16383, 16384, u32::MAX as u64, u64::MAX] {
        let mut out = Vec::new();
        encode_varint(&mut out, v);
        assert_eq!(out.len(), varint_size(v));
        let n = out.len();
        out.push(0x55);
        assert_eq!(decode_varint(&out), Some((v, n)));
    }
    let mut out = Vec::new();
    encode_varint(&mut out, 300);
    assert_eq!(out, vec![0xac, 0x02]);
    assert_eq!(decode_varint(&[]), None);
    assert_eq!(decode_varint(&[0x80]), None);
    assert_eq!(decode_varint(&[0xff; 10]), None);
    let mut long = vec![0xff; 9];
    long.push(2);
    assert_eq!(decode_varint(&long), None);
}

#[test]
fn blocks_and_skipping() {
    assert_eq!(decode_block(&[2, 7, 8, 9]), Some(([7u8, 8].as_slice(), [9u8].as_slice())));
    assert_eq!(decode_block(&[3, 7, 8]), None);
    assert_eq!(skip_field(&[0x80, 1, 9], 0), Some([9u8].as_slice()));
    assert_eq!(skip_field(&[0; 9], 1), Some([0u8].as_slice()));
    assert_eq!(skip_field(&[1, 5, 9], 2), Some([9u8].as_slice()));
    assert_eq!(skip_field(&[0; 5], 5), Some([0u8].as_slice()));
    assert_eq!(skip_field(&[0; 3], 5), None);
    assert_eq!(skip_field(&[0; 7], 1), None);
    assert_eq!(skip_field(&[0], 3), None);
}

#[test]
fn frames_have_exact_bytes() {
    assert_eq!(
        chat_frame_encode(CHAT_TYPE_MSG, "al", "hi"),
        Ok(vec![8, 2, 18, 2, b'a', b'l', 26, 2, b'h', b'i'])
    );
    assert_eq!(chat_frame_encode(CHAT_TYPE_BYE, "", ""), Ok(vec![8, 3]));
    assert_eq!(chat_frame_encode(300, "", "\0"), Ok(vec![8, 0xac, 2, 26, 0]));
}

#[test]
fn frames_round_trip() {
    let frame = chat_frame_encode(CHAT_TYPE_HELLO, "zoé", "a\0b").unwrap();
    assert_eq!(
        chat_frame_decode(&frame),
        Ok((CHAT_TYPE_HELLO, "zoé".to_string(), "ab".to_string()))
    );
}

#[test]
fn frames_that_do_not_fit() {
    assert_eq!(
        chat_frame_encode(2, &"n".repeat(MAX_FRAME_LEN), ""),
        Err(FrameError::NickWrite)
    );
    assert_eq!(
        chat_frame_encode(2, "n", &"t".repeat(MAX_FRAME_LEN)),
        Err(FrameError::TextWrite)
    );
    assert!(chat_frame_encode(2, "", &"t".repeat(MAX_FRAME_LEN - 5)).is_ok());
    assert_eq!(
        chat_frame_encode(2, "", &"t".repeat(MAX_FRAME_LEN - 4)),
        Err(FrameError::TextWrite)
    );
}

#[test]
fn broken_frames() {
    assert_eq!(chat_frame_decode(&[0x80]), Err(FrameError::TagRead));
    assert_eq!(chat_frame_decode(&[0]), Err(FrameError::TagRead));
    assert_eq!(chat_frame_decode(&[8]), Err(FrameError::VarintRead));
    assert_eq!(chat_frame_decode(&[18, 5, 1]), Err(FrameError::BytesRead));
    assert_eq!(chat_frame_decode(&[11]), Err(FrameError::Skip));
    assert_eq!(chat_frame_decode(&[]), Ok((0, String::new(), String::new())));
}

#[test]
fn unknown_fields_are_skipped_and_bytes_read_loosely() {
    let frame = [32, 1, 8, 2, 42, 1, 9, 18, 2, 0xff, b'x', 26, 1, b'y'];
    assert_eq!(
        chat_frame_decode(&frame),
        Ok((2, "\u{fffd}x".to_string(), "y".to_string()))
    );
}

#[test]
fn frame_errors_in_words() {
    for (e, words) in [
        (FrameError::NickWrite, "protobuf nick write failed"),
        (FrameError::TextWrite, "protobuf text write failed"),
        (FrameError::TagRead, "protobuf tag read failed"),
        (FrameError::VarintRead, "protobuf varint read failed"),
        (FrameError::BytesRead, "protobuf bytes read failed"),
        (FrameError::Skip, "protobuf skip failed"),
        (FrameError::Send, "send frame failed"),
        (FrameError::Receive, "recv frame failed"),
    ] {
        assert_eq!(e.message(), words);
    }
}

#[test]
fn frames_on_the_stream() {
    assert_eq!(send_chat_frame(127, 0), Ok(128));
    assert_eq!(send_chat_frame(128, 0), Ok(130));
    assert_eq!(send_chat_frame(1, -1), Err(FrameError::Send));
    let mut buf = vec![0; MAX_FRAME_LEN];
    buf[0] = 9;
    assert_eq!(recv_chat_frame(buf.clone(), 1, 0), Ok((vec![9], 2)));
    assert_eq!(recv_chat_frame(buf, 1, 3), Err(FrameError::Receive));
}

#[test]
fn file_frames() {
    for kind in [
        CHAT_TYPE_FILE_META,
        CHAT_TYPE_FILE_CHUNK,
        CHAT_TYPE_FILE_DONE,
        CHAT_TYPE_FILE_ACCEPT,
    ] {
        assert!(is_file_frame(kind));
    }
    for kind in [0, CHAT_TYPE_HELLO, CHAT_TYPE_MSG, CHAT_TYPE_BYE, 8] {
        assert!(!is_file_frame(kind));
    }
}

#[test]
fn c_strings() {
    assert_eq!(cstring("a\0b"), b"ab".to_vec());
    let mut buf = [0i8; 8];
    buf[0] = b'h' as i8;
    buf[1] = b'i' as i8;
    buf[3] = b'x' as i8;
    assert_eq!(c_char_array_to_string(&buf), "hi");
    assert_eq!(c_char_array_to_string(&[-1, 65]), "\u{fffd}A");
    assert_eq!(c_char_array_to_string(&[-61, -87]), "é");
}

fn parts() -> IdentityParts {
    IdentityParts {
        static_rc: 0,
        static_priv: [1; 32],
        static_pub: [2; 32],
        seed_rc: 0,
        ed_seed: [3; 32],
        ed_pub: [4; 32],
        proto_rc: 0,
        pid_rc: 0,
        b58_rc: 0,
        b58: vec![b'Q' as i8, b'm' as i8, 0, 0],
    }
}

#[test]
fn identities() {
    let id = make_identity(parts()).unwrap_or_else(|_| panic!());
    assert_eq!(id.peer_id, "Qm");
    assert_eq!((id.static_priv, id.static_pub), ([1; 32], [2; 32]));
    assert_eq!((id.ed_seed, id.ed_pub), ([3; 32], [4; 32]));
    let failures = [
        (IdentityParts { static_rc: 1, ..parts() }, "speer_random_bytes_or_fail failed"),
        (IdentityParts { seed_rc: 1, ..parts() }, "speer_random_bytes_or_fail failed"),
        (IdentityParts { proto_rc: 1, ..parts() }, "pubkey proto encode failed"),
        (IdentityParts { pid_rc: 1, ..parts() }, "peer id generation failed"),
        (IdentityParts { b58_rc: 1, ..parts() }, "peer id base58 failed"),
    ];
    for (p, words) in failures {
        match make_identity(p) {
            Err(e) => assert_eq!(e.message(), words),
            Ok(_) => panic!(),
        }
    }
    assert_eq!(random_bytes::<4>(0, [1, 2, 3, 4]), Ok([1, 2, 3, 4]));
    assert_eq!(random_bytes::<4>(1, [1, 2, 3, 4]), Err(IdentityError::Random));
}

#[test]
fn listening_and_dialling() {
    assert_eq!(tcp_listen(7, &vec![]), ListenStep::Try(7));
    assert_eq!(tcp_listen(7, &vec![(0, 3)]), ListenStep::Ready(3, 7));
    assert_eq!(tcp_listen(7, &vec![(1, 3)]), ListenStep::Failed);
    assert_eq!(tcp_listen(0, &vec![]), ListenStep::Try(4001));
    assert_eq!(tcp_listen(0, &vec![(1, -1), (0, -1)]), ListenStep::Try(4003));
    assert_eq!(tcp_listen(0, &vec![(1, -1), (0, 5)]), ListenStep::Ready(5, 4002));
    assert_eq!(tcp_listen(0, &vec![(1, -1); 99]), ListenStep::Failed);
    assert_eq!(ListenStep::Failed.message().as_deref(), Some("tcp listen failed"));
    assert_eq!(ListenStep::Try(7).message(), None);
    assert_eq!(ListenStep::Ready(3, 7).message(), None);
    assert_eq!(tcp_dial(0, 3), Some(3));
    assert_eq!(tcp_dial(0, -1), None);
    assert_eq!(tcp_dial(1, 3), None);
    assert_eq!(discover_lan_ip(None), "127.0.0.1");
    assert_eq!(discover_lan_ip(Some("10.0.0.1".to_string())), "10.0.0.1");
}

#[test]
fn instance_names() {
    let bytes: Vec<u8> = (0..32).collect();
    assert_eq!(random_instance_name(&bytes), "abcdefghijklmnopqrstuvwxyzABCDEF");
    assert_eq!(random_instance_name(&[62; 40]), "a".repeat(32));
}

#[test]
fn themes() {
    assert_eq!(rgb(0x35f7c8), Rgb { r: 0x35, g: 0xf7, b: 0xc8 });
    assert_eq!(theme("midnight").bg, rgb(0x050712));
    assert_eq!(theme("original").peers[5], rgb(0xffe588));
    assert_eq!(theme("").border, rgb(0x9d2cff));
    assert_eq!(theme("Midnight").bg, theme("modern").bg);
}

#[test]
fn a_new_state() {
    let app = state();
    assert_eq!(app.nick(), "nick");
    assert_eq!((app.lan_ip.as_str(), app.listen_port, app.started_at), ("127.0.0.1", 0, 5));
    assert_eq!((app.next_file_id, app.quit), (1, false));
    assert!(app.can_receive_file());
}

#[test]
fn logs_are_bounded() {
    let mut app = state();
    for i in 0..MAX_HISTORY + 3 {
        app.emit_chat("p", "n", &format!("{i}"), 1);
    }
    assert_eq!(app.history.len(), MAX_HISTORY);
    assert_eq!(app.history[0].text, "3");
    assert_eq!(app.netlog.len(), 0);
    for i in 0..MAX_NETLOG + 2 {
        app.netlog(NetLevel::Info, &format!("{i}"), 1);
    }
    assert_eq!(app.netlog.len(), MAX_NETLOG);
    assert_eq!(app.netlog[0].text, "2");
}

#[test]
fn notices() {
    let mut app = state();
    app.emit_system("s", 1);
    app.emit_error("e", 2);
    app.emit_join("n", "alice", 3);
    app.emit_leave("n", 4);
    app.add_history(MsgKind::Chat, "n", "bob", "t", 5);
    let h: Vec<_> = app.history.iter().map(|m| (m.kind, m.text.as_str(), m.color_idx)).collect();
    assert_eq!(
        h,
        vec![
            (MsgKind::System, "s", 1),
            (MsgKind::Error, "e", 1),
            (MsgKind::Join, "n joined (alice)", 5),
            (MsgKind::Leave, "n left", 1),
            (MsgKind::Chat, "t", 2),
        ]
    );
    let l: Vec<_> = app.netlog.iter().map(|e| (e.level, e.text.as_str(), e.timestamp)).collect();
    assert_eq!(
        l,
        vec![
            (NetLevel::Info, "s", 1),
            (NetLevel::Error, "e", 2),
            (NetLevel::Okay, "peer joined n", 3),
            (NetLevel::Warn, "peer left n", 4),
        ]
    );
}

#[test]
fn queues_are_first_in_first_out() {
    let mut p = PeerHandle::new(1, true, "a".to_string());
    assert!(p.info.active && p.info.initiator && !p.dead);
    assert!(p.dequeue().is_none());
    p.enqueue(2, "x".to_string());
    p.enqueue(3, "y".to_string());
    assert_eq!(p.dequeue().map(|m| (m.kind, m.text)), Some((2, "x".to_string())));
    assert_eq!(p.dequeue().map(|m| (m.kind, m.text)), Some((3, "y".to_string())));
    assert!(p.dequeue().is_none());
    let info = PeerInfo::default();
    assert!(!info.active && info.last_seen.is_none());
}

#[test]
fn peers_come_and_go() {
    let mut app = state();
    for i in 0..MAX_PEERS as u64 {
        assert!(app.add_peer(PeerHandle::new(i, false, String::new())));
    }
    assert!(!app.add_peer(PeerHandle::new(99, false, String::new())));
    app.peers[2].info.handshake_done = true;
    app.peers[5].info.handshake_done = true;
    app.peers[5].dead = true;
    app.broadcast(2, "hi");
    let keys: Vec<u64> = app.connected_peers().iter().map(|p| p.key).collect();
    assert_eq!(keys, vec![2]);
    assert_eq!(app.peers.iter().filter(|p| !p.out.is_empty()).count(), 1);
    app.remove_peer(2);
    assert_eq!(app.peers.len(), MAX_PEERS - 1);
    assert_eq!(app.peer_pos(3), Some(2));
    assert_eq!(app.peer_pos(2), None);
}

#[test]
fn file_slots_are_limited() {
    let mut app = state();
    app.peers.push(PeerHandle::new(0, true, String::new()));
    for i in 0..MAX_RX_FILES {
        assert!(app.can_receive_file());
        speer_chat::files::receive_file_meta(&mut app, 0, &format!("{i}|1|f"), 0);
    }
    assert!(!app.can_receive_file());
}
