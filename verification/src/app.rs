//! The state of the chat: identity, history, network log, peers and files.
use std::collections::VecDeque;

use vstd::prelude::*;
use vstd::string::*;

use crate::constants::{MAX_HISTORY, MAX_NETLOG, MAX_PEERS, MAX_RX_FILES};
use crate::ffi::Identity;
use crate::text;
use crate::util;

verus! {

/// A colour.
#[derive(Clone, Copy, PartialEq, Eq, Structural, Debug)]
pub struct Rgb {
    pub r: u8,
    pub g: u8,
    pub b: u8,
}

/// The colour that a number stands for: red, green and blue from its third, second and first byte.
pub open spec fn rgb_of(v: u32) -> Rgb {
    Rgb { r: ((v / 65536) % 256) as u8, g: ((v / 256) % 256) as u8, b: (v % 256) as u8 }
}

/// The colour that a number stands for.
pub fn rgb(v: u32) -> (r: Rgb)
    ensures
        r == rgb_of(v),
{
    Rgb { r: ((v / 65536) % 256) as u8, g: ((v / 256) % 256) as u8, b: (v % 256) as u8 }
}

/// The colours of the user interface.
#[derive(Clone, Copy)]
pub struct Theme {
    pub bg: Rgb,
    pub panel: Rgb,
    pub fg: Rgb,
    pub dim: Rgb,
    pub border: Rgb,
    pub accent: Rgb,
    pub timestamp: Rgb,
    pub peers: [Rgb; 6],
}

/// The colours of a theme, those for peers as a sequence.
#[verifier::ext_equal]
pub struct ThemeView {
    pub bg: Rgb,
    pub panel: Rgb,
    pub fg: Rgb,
    pub dim: Rgb,
    pub border: Rgb,
    pub accent: Rgb,
    pub timestamp: Rgb,
    pub peers: Seq<Rgb>,
}

impl View for Theme {
    type V = ThemeView;

    open spec fn view(&self) -> ThemeView {
        ThemeView {
            bg: self.bg,
            panel: self.panel,
            fg: self.fg,
            dim: self.dim,
            border: self.border,
            accent: self.accent,
            timestamp: self.timestamp,
            peers: self.peers@,
        }
    }
}

/// The theme of a name: `midnight`, `original`, or the modern one for any other name.
pub open spec fn theme_of(name: Seq<char>) -> ThemeView {
    if name == "midnight"@ {
        ThemeView {
            bg: rgb_of(0x050712),
            panel: rgb_of(0x0d1020),
            fg: rgb_of(0xf4f7ff),
            dim: rgb_of(0x7b8199),
            border: rgb_of(0x26314f),
            accent: rgb_of(0x35f7c8),
            timestamp: rgb_of(0x565d78),
            peers: seq![
                rgb_of(0xff4f87),
                rgb_of(0xb48cff),
                rgb_of(0x35f7c8),
                rgb_of(0x6ad7ff),
                rgb_of(0xffc857),
                rgb_of(0xff7ad9),
            ],
        }
    } else if name == "original"@ {
        ThemeView {
            bg: rgb_of(0x1a1a2e),
            panel: rgb_of(0x252542),
            fg: rgb_of(0xe6e6fa),
            dim: rgb_of(0x6b6b8a),
            border: rgb_of(0x4b4b6b),
            accent: rgb_of(0xff8ab5),
            timestamp: rgb_of(0x7878a0),
            peers: seq![
                rgb_of(0xff8ab5),
                rgb_of(0xc7a8ff),
                rgb_of(0x90e1a0),
                rgb_of(0x88ccff),
                rgb_of(0xffb088),
                rgb_of(0xffe588),
            ],
        }
    } else {
        ThemeView {
            bg: rgb_of(0x070711),
            panel: rgb_of(0x111026),
            fg: rgb_of(0xf2efff),
            dim: rgb_of(0x8a84a6),
            border: rgb_of(0x9d2cff),
            accent: rgb_of(0xff2bd6),
            timestamp: rgb_of(0x6d668f),
            peers: seq![
                rgb_of(0xff2bd6),
                rgb_of(0x9d2cff),
                rgb_of(0x35f7c8),
                rgb_of(0x61d6ff),
                rgb_of(0xffc857),
                rgb_of(0xff7ab6),
            ],
        }
    }
}

/// The theme of a name; any name but `midnight` and `original` gives the modern theme.
pub fn theme(name: &str) -> (r: Theme)
    ensures
        r@ == theme_of(name@),
{
    let t = if text::str_eq(name, "midnight") {
        Theme {
            bg: rgb(0x050712),
            panel: rgb(0x0d1020),
            fg: rgb(0xf4f7ff),
            dim: rgb(0x7b8199),
            border: rgb(0x26314f),
            accent: rgb(0x35f7c8),
            timestamp: rgb(0x565d78),
            peers: [
                rgb(0xff4f87),
                rgb(0xb48cff),
                rgb(0x35f7c8),
                rgb(0x6ad7ff),
                rgb(0xffc857),
                rgb(0xff7ad9),
            ],
        }
    } else if text::str_eq(name, "original") {
        Theme {
            bg: rgb(0x1a1a2e),
            panel: rgb(0x252542),
            fg: rgb(0xe6e6fa),
            dim: rgb(0x6b6b8a),
            border: rgb(0x4b4b6b),
            accent: rgb(0xff8ab5),
            timestamp: rgb(0x7878a0),
            peers: [
                rgb(0xff8ab5),
                rgb(0xc7a8ff),
                rgb(0x90e1a0),
                rgb(0x88ccff),
                rgb(0xffb088),
                rgb(0xffe588),
            ],
        }
    } else {
        Theme {
            bg: rgb(0x070711),
            panel: rgb(0x111026),
            fg: rgb(0xf2efff),
            dim: rgb(0x8a84a6),
            border: rgb(0x9d2cff),
            accent: rgb(0xff2bd6),
            timestamp: rgb(0x6d668f),
            peers: [
                rgb(0xff2bd6),
                rgb(0x9d2cff),
                rgb(0x35f7c8),
                rgb(0x61d6ff),
                rgb(0xffc857),
                rgb(0xff7ab6),
            ],
        }
    };
    proof {
        assert(t@ =~= theme_of(name@));
    }
    t
}

/// What a line of the chat is about.
#[derive(Clone, Copy, PartialEq, Eq, Structural, Debug)]
pub enum MsgKind {
    Chat,
    System,
    Join,
    Leave,
    Error,
}

/// A line of the chat. The time is in seconds since the Unix epoch.
pub struct Message {
    pub kind: MsgKind,
    pub timestamp: u64,
    pub nick: String,
    pub text: String,
    pub color_idx: usize,
}

/// A line of the chat, in plain values.
#[verifier::ext_equal]
pub struct MessageView {
    pub kind: MsgKind,
    pub timestamp: u64,
    pub nick: Seq<char>,
    pub text: Seq<char>,
    pub color_idx: int,
}

impl View for Message {
    type V = MessageView;

    open spec fn view(&self) -> MessageView {
        MessageView {
            kind: self.kind,
            timestamp: self.timestamp,
            nick: self.nick@,
            text: self.text@,
            color_idx: self.color_idx as int,
        }
    }
}

/// The weight of a line of the network log.
#[derive(Clone, Copy, PartialEq, Eq, Structural, Debug)]
pub enum NetLevel {
    Info,
    Okay,
    Warn,
    Error,
    Traffic,
}

/// A line of the network log. The time is in seconds since the Unix epoch.
pub struct NetEntry {
    pub timestamp: u64,
    pub level: NetLevel,
    pub text: String,
}

/// A line of the network log, in plain values.
#[verifier::ext_equal]
pub struct NetView {
    pub timestamp: u64,
    pub level: NetLevel,
    pub text: Seq<char>,
}

impl View for NetEntry {
    type V = NetView;

    open spec fn view(&self) -> NetView {
        NetView { timestamp: self.timestamp, level: self.level, text: self.text@ }
    }
}

/// A file that a peer offered. `file` is the token of the open file that it is written to, once it
/// is accepted.
pub struct RxFile {
    pub id: u32,
    pub expected: u64,
    pub received: u64,
    pub sender: String,
    pub name: String,
    pub path: String,
    pub file: Option<u64>,
}

/// An offered file, in plain values.
#[verifier::ext_equal]
pub struct RxView {
    pub id: u32,
    pub expected: u64,
    pub received: u64,
    pub sender: Seq<char>,
    pub name: Seq<char>,
    pub path: Seq<char>,
    pub file: Option<u64>,
}

impl View for RxFile {
    type V = RxView;

    open spec fn view(&self) -> RxView {
        RxView {
            id: self.id,
            expected: self.expected,
            received: self.received,
            sender: self.sender@,
            name: self.name@,
            path: self.path@,
            file: self.file,
        }
    }
}

/// A file that this peer offers.
pub struct TxFile {
    pub id: u32,
    pub size: u64,
    pub name: String,
    pub path: String,
}

/// An offer, in plain values.
#[verifier::ext_equal]
pub struct TxView {
    pub id: u32,
    pub size: u64,
    pub name: Seq<char>,
    pub path: Seq<char>,
}

impl View for TxFile {
    type V = TxView;

    open spec fn view(&self) -> TxView {
        TxView { id: self.id, size: self.size, name: self.name@, path: self.path@ }
    }
}

impl Clone for TxFile {
    fn clone(&self) -> (r: Self)
        ensures
            r@ == self@,
    {
        TxFile {
            id: self.id,
            size: self.size,
            name: self.name.clone(),
            path: self.path.clone(),
        }
    }
}

/// A frame that waits to be sent.
pub struct OutMsg {
    pub kind: u32,
    pub text: String,
}

/// A waiting frame, in plain values.
#[verifier::ext_equal]
pub struct OutView {
    pub kind: u32,
    pub text: Seq<char>,
}

impl View for OutMsg {
    type V = OutView;

    open spec fn view(&self) -> OutView {
        OutView { kind: self.kind, text: self.text@ }
    }
}

impl Clone for OutMsg {
    fn clone(&self) -> (r: Self)
        ensures
            r@ == self@,
    {
        OutMsg { kind: self.kind, text: self.text.clone() }
    }
}

/// What is known of a connection. Times are in nanoseconds of a clock that never goes back.
pub struct PeerInfo {
    pub initiator: bool,
    pub addr: String,
    pub remote_nick: String,
    pub remote_pid_short: String,
    pub remote_pid_full: String,
    pub connected_at: Option<u64>,
    pub last_seen: Option<u64>,
    pub msgs_rx: u64,
    pub msgs_tx: u64,
    pub bytes_rx: u64,
    pub bytes_tx: u64,
    pub handshake_done: bool,
    pub active: bool,
}

/// What is known of a connection, in plain values.
#[verifier::ext_equal]
pub struct InfoView {
    pub initiator: bool,
    pub addr: Seq<char>,
    pub remote_nick: Seq<char>,
    pub remote_pid_short: Seq<char>,
    pub remote_pid_full: Seq<char>,
    pub connected_at: Option<u64>,
    pub last_seen: Option<u64>,
    pub msgs_rx: u64,
    pub msgs_tx: u64,
    pub bytes_rx: u64,
    pub bytes_tx: u64,
    pub handshake_done: bool,
    pub active: bool,
}

impl View for PeerInfo {
    type V = InfoView;

    open spec fn view(&self) -> InfoView {
        InfoView {
            initiator: self.initiator,
            addr: self.addr@,
            remote_nick: self.remote_nick@,
            remote_pid_short: self.remote_pid_short@,
            remote_pid_full: self.remote_pid_full@,
            connected_at: self.connected_at,
            last_seen: self.last_seen,
            msgs_rx: self.msgs_rx,
            msgs_tx: self.msgs_tx,
            bytes_rx: self.bytes_rx,
            bytes_tx: self.bytes_tx,
            handshake_done: self.handshake_done,
            active: self.active,
        }
    }
}

impl InfoView {
    /// A connection of which nothing is known yet.
    pub open spec fn blank() -> InfoView {
        InfoView {
            initiator: false,
            addr: Seq::empty(),
            remote_nick: Seq::empty(),
            remote_pid_short: Seq::empty(),
            remote_pid_full: Seq::empty(),
            connected_at: None,
            last_seen: None,
            msgs_rx: 0,
            msgs_tx: 0,
            bytes_rx: 0,
            bytes_tx: 0,
            handshake_done: false,
            active: false,
        }
    }

    /// The name to show for the peer: its nick or, where it gave none, its short id.
    pub open spec fn display(self) -> Seq<char> {
        util::or_else(self.remote_nick, self.remote_pid_short)
    }
}

impl Default for PeerInfo {
    fn default() -> (r: Self)
        ensures
            r@ == InfoView::blank(),
    {
        PeerInfo {
            initiator: false,
            addr: String::new(),
            remote_nick: String::new(),
            remote_pid_short: String::new(),
            remote_pid_full: String::new(),
            connected_at: None,
            last_seen: None,
            msgs_rx: 0,
            msgs_tx: 0,
            bytes_rx: 0,
            bytes_tx: 0,
            handshake_done: false,
            active: false,
        }
    }
}

impl PeerInfo {
    /// The name to show for the peer.
    pub fn display(&self) -> (r: String)
        ensures
            r@ == self@.display(),
    {
        if self.remote_nick.as_str().is_empty() {
            self.remote_pid_short.clone()
        } else {
            self.remote_nick.clone()
        }
    }
}

/// A connection and the frames that wait for it. `key` tells it from every other connection.
pub struct PeerHandle {
    pub key: u64,
    pub info: PeerInfo,
    pub out: VecDeque<OutMsg>,
    pub dead: bool,
}

/// A connection, in plain values.
#[verifier::ext_equal]
pub struct PeerView {
    pub key: u64,
    pub info: InfoView,
    pub out: Seq<OutView>,
    pub dead: bool,
}

/// Waiting frames, in plain values.
pub open spec fn outs(s: Seq<OutMsg>) -> Seq<OutView> {
    s.map_values(|m: OutMsg| m@)
}

impl View for PeerHandle {
    type V = PeerView;

    open spec fn view(&self) -> PeerView {
        PeerView { key: self.key, info: self.info@, out: outs(self.out@), dead: self.dead }
    }
}

impl PeerView {
    /// Whether the peer takes frames: the handshake is done and the connection is not dead.
    pub open spec fn online(self) -> bool {
        self.info.handshake_done && !self.dead
    }

    /// The peer with one more frame at the end of its queue.
    pub open spec fn queued(self, kind: u32, text: Seq<char>) -> PeerView {
        PeerView { out: self.out.push(OutView { kind, text }), ..self }
    }
}

impl PeerHandle {
    /// A connection that has just been opened.
    pub fn new(key: u64, initiator: bool, addr: String) -> (r: Self)
        ensures
            r@ == (PeerView {
                key,
                info: InfoView { initiator, addr: addr@, active: true, ..InfoView::blank() },
                out: Seq::empty(),
                dead: false,
            }),
    {
        let mut info = PeerInfo::default();
        info.initiator = initiator;
        info.addr = addr;
        info.active = true;
        let peer = PeerHandle { key, info, out: VecDeque::new(), dead: false };
        proof {
            assert(outs(peer.out@) =~= Seq::<OutView>::empty());
        }
        peer
    }

    /// Puts a frame at the end of the queue.
    pub fn enqueue(&mut self, kind: u32, text: String)
        ensures
            final(self)@ == old(self)@.queued(kind, text@),
    {
        self.out.push_back(OutMsg { kind, text });
        proof {
            assert(outs(self.out@) =~= outs(old(self).out@).push(OutView { kind, text: text@ }));
        }
    }

    /// Takes the frame at the front of the queue.
    pub fn dequeue(&mut self) -> (r: Option<OutMsg>)
        ensures
            match r {
                Some(m) => old(self)@.out.len() > 0 && m@ == old(self)@.out[0] && final(self)@ == (
                PeerView { out: old(self)@.out.skip(1), ..old(self)@ }),
                None => old(self)@.out.len() == 0 && final(self)@ == old(self)@,
            },
    {
        let r = self.out.pop_front();
        proof {
            if r is Some {
                assert(outs(self.out@) =~= outs(old(self).out@).skip(1));
            }
        }
        r
    }
}

/// The files that are being received and offered.
pub struct FileState {
    pub rx: Vec<RxFile>,
    pub tx: Vec<TxFile>,
}

/// The whole state of the chat. `next_key` and `next_token` number the connections and the open
/// files; `started_at` is in nanoseconds of a clock that never goes back; `separator` stands between
/// the parts of a path on this system.
pub struct AppState {
    pub identity: Identity,
    pub nick: String,
    pub theme: Theme,
    pub history: VecDeque<Message>,
    pub netlog: VecDeque<NetEntry>,
    pub peers: Vec<PeerHandle>,
    pub files: FileState,
    pub attempted: Vec<String>,
    pub quit: bool,
    pub next_file_id: u32,
    pub started_at: u64,
    pub lan_ip: String,
    pub listen_port: u16,
    pub next_key: u64,
    pub next_token: u64,
    pub separator: char,
}

/// The keys and the id of this peer, in plain values.
#[verifier::ext_equal]
pub struct IdentityView {
    pub static_pub: Seq<u8>,
    pub static_priv: Seq<u8>,
    pub ed_pub: Seq<u8>,
    pub ed_seed: Seq<u8>,
    pub peer_id: Seq<char>,
}

impl View for Identity {
    type V = IdentityView;

    open spec fn view(&self) -> IdentityView {
        IdentityView {
            static_pub: self.static_pub@,
            static_priv: self.static_priv@,
            ed_pub: self.ed_pub@,
            ed_seed: self.ed_seed@,
            peer_id: self.peer_id@,
        }
    }
}

/// The whole state of the chat, in plain values.
#[verifier::ext_equal]
pub struct AppView {
    pub identity: IdentityView,
    pub nick: Seq<char>,
    pub theme: ThemeView,
    pub history: Seq<MessageView>,
    pub netlog: Seq<NetView>,
    pub peers: Seq<PeerView>,
    pub rx: Seq<RxView>,
    pub tx: Seq<TxView>,
    pub attempted: Set<Seq<char>>,
    pub quit: bool,
    pub next_file_id: u32,
    pub started_at: u64,
    pub lan_ip: Seq<char>,
    pub listen_port: u16,
    pub next_key: u64,
    pub next_token: u64,
    pub separator: char,
}

/// Lines of the chat, in plain values.
pub open spec fn messages(s: Seq<Message>) -> Seq<MessageView> {
    s.map_values(|m: Message| m@)
}

/// Lines of the network log, in plain values.
pub open spec fn entries(s: Seq<NetEntry>) -> Seq<NetView> {
    s.map_values(|e: NetEntry| e@)
}

/// Connections, in plain values.
pub open spec fn handles(s: Seq<PeerHandle>) -> Seq<PeerView> {
    s.map_values(|p: PeerHandle| p@)
}

/// Offered files, in plain values.
pub open spec fn rx_files(s: Seq<RxFile>) -> Seq<RxView> {
    s.map_values(|f: RxFile| f@)
}

/// Offers, in plain values.
pub open spec fn tx_files(s: Seq<TxFile>) -> Seq<TxView> {
    s.map_values(|f: TxFile| f@)
}

/// The texts that occur among strings.
pub open spec fn texts(s: Seq<String>) -> Set<Seq<char>> {
    Set::new(|t: Seq<char>| exists|i: int| 0 <= i < s.len() && (#[trigger] s[i])@ == t)
}

impl View for AppState {
    type V = AppView;

    open spec fn view(&self) -> AppView {
        AppView {
            identity: self.identity@,
            nick: self.nick@,
            theme: self.theme@,
            history: messages(self.history@),
            netlog: entries(self.netlog@),
            peers: handles(self.peers@),
            rx: rx_files(self.files.rx@),
            tx: tx_files(self.files.tx@),
            attempted: texts(self.attempted@),
            quit: self.quit,
            next_file_id: self.next_file_id,
            started_at: self.started_at,
            lan_ip: self.lan_ip@,
            listen_port: self.listen_port,
            next_key: self.next_key,
            next_token: self.next_token,
            separator: self.separator,
        }
    }
}

/// `s` with `x` at its end and, where it was full, without its first element.
pub open spec fn pushed<T>(s: Seq<T>, cap: nat, x: T) -> Seq<T> {
    if s.len() >= cap {
        s.skip(1).push(x)
    } else {
        s.push(x)
    }
}

/// The peers that take frames, in order.
pub open spec fn online(peers: Seq<PeerView>) -> Seq<PeerView>
    decreases peers.len(),
{
    if peers.len() == 0 {
        peers
    } else if peers.last().online() {
        online(peers.drop_last()).push(peers.last())
    } else {
        online(peers.drop_last())
    }
}

/// The peers without those of this key, in order.
pub open spec fn without_key(peers: Seq<PeerView>, key: u64) -> Seq<PeerView>
    decreases peers.len(),
{
    if peers.len() == 0 {
        peers
    } else if peers.last().key == key {
        without_key(peers.drop_last(), key)
    } else {
        without_key(peers.drop_last(), key).push(peers.last())
    }
}

impl AppView {
    /// The state after a line of the chat.
    pub open spec fn noted(
        self,
        kind: MsgKind,
        nick: Seq<char>,
        pid: Seq<char>,
        text: Seq<char>,
        now: u64,
    ) -> AppView {
        let m = MessageView { kind, timestamp: now, nick, text, color_idx: util::color_of(pid) };
        AppView { history: pushed(self.history, MAX_HISTORY as nat, m), ..self }
    }

    /// The state after a line of the network log.
    pub open spec fn logged(self, level: NetLevel, text: Seq<char>, now: u64) -> AppView {
        let e = NetView { timestamp: now, level, text };
        AppView { netlog: pushed(self.netlog, MAX_NETLOG as nat, e), ..self }
    }

    /// The state after a chat message.
    pub open spec fn chatted(
        self,
        pid: Seq<char>,
        nick: Seq<char>,
        text: Seq<char>,
        now: u64,
    ) -> AppView {
        self.noted(MsgKind::Chat, nick, pid, text, now)
    }

    /// The state after a notice to the user.
    pub open spec fn told(self, text: Seq<char>, now: u64) -> AppView {
        self.noted(MsgKind::System, ""@, ""@, text, now).logged(NetLevel::Info, text, now)
    }

    /// The state after an error shown to the user.
    pub open spec fn failed(self, text: Seq<char>, now: u64) -> AppView {
        self.noted(MsgKind::Error, ""@, ""@, text, now).logged(NetLevel::Error, text, now)
    }

    /// The state after a peer joined.
    pub open spec fn joined(self, nick: Seq<char>, pid: Seq<char>, now: u64) -> AppView {
        self.noted(MsgKind::Join, nick, pid, nick + " joined ("@ + pid + ")"@, now).logged(
            NetLevel::Okay,
            "peer joined "@ + nick,
            now,
        )
    }

    /// The state after a peer left.
    pub open spec fn left(self, nick: Seq<char>, now: u64) -> AppView {
        self.noted(MsgKind::Leave, nick, ""@, nick + " left"@, now).logged(
            NetLevel::Warn,
            "peer left "@ + nick,
            now,
        )
    }

    /// The state after a frame was queued for every peer that takes frames.
    pub open spec fn broadcasted(self, kind: u32, text: Seq<char>) -> AppView {
        AppView {
            peers: self.peers.map_values(
                |p: PeerView|
                    if p.online() {
                        p.queued(kind, text)
                    } else {
                        p
                    },
            ),
            ..self
        }
    }

    /// The state without the connection of this key.
    pub open spec fn dropped(self, key: u64) -> AppView {
        AppView { peers: without_key(self.peers, key), ..self }
    }

    /// `i` is the place of the first connection of this key.
    pub open spec fn peer_at(self, key: u64, i: int) -> bool {
        &&& 0 <= i < self.peers.len()
        &&& self.peers[i].key == key
        &&& forall|j: int| 0 <= j < i ==> (#[trigger] self.peers[j]).key != key
    }

    /// Whether there is a connection of this key.
    pub open spec fn has_peer(self, key: u64) -> bool {
        exists|i: int| self.peer_at(key, i)
    }

    /// The place of the first connection of this key.
    pub open spec fn place(self, key: u64) -> int {
        choose|i: int| self.peer_at(key, i)
    }

    /// The connection of this key.
    pub open spec fn peer(self, key: u64) -> PeerView {
        self.peers[self.place(key)]
    }

    /// The state with another value for the connection of this key.
    pub open spec fn with_peer(self, key: u64, p: PeerView) -> AppView {
        AppView { peers: self.peers.update(self.place(key), p), ..self }
    }

    /// The state with other facts about the connection of this key.
    pub open spec fn with_info(self, key: u64, info: InfoView) -> AppView {
        self.with_peer(key, PeerView { info, ..self.peer(key) })
    }

    /// What always holds: the logs, the peers and the offered files stay within their limits, every
    /// peer id can be shortened, and the numbers for connections and open files are not in use yet.
    pub open spec fn sound(self) -> bool {
        &&& self.history.len() <= MAX_HISTORY
        &&& self.netlog.len() <= MAX_NETLOG
        &&& self.peers.len() <= MAX_PEERS
        &&& self.rx.len() <= MAX_RX_FILES
        &&& util::can_shorten(self.identity.peer_id)
        &&& forall|i: int|
            0 <= i < self.peers.len() ==> util::can_shorten(
                (#[trigger] self.peers[i]).info.remote_pid_full,
            ) && self.peers[i].key < self.next_key
        &&& forall|i: int, j: int|
            0 <= i < j < self.peers.len() ==> (#[trigger] self.peers[i]).key != (
            #[trigger] self.peers[j]).key
        &&& forall|i: int|
            0 <= i < self.rx.len() ==> ((#[trigger] self.rx[i]).file matches Some(t) ==> t
                < self.next_token)
        &&& forall|i: int, j: int|
            0 <= i < j < self.rx.len() && (#[trigger] self.rx[i]).file is Some ==> self.rx[i].file
                != (#[trigger] self.rx[j]).file
        &&& forall|i: int|
            0 <= i < self.history.len() ==> 0 <= (#[trigger] self.history[i]).color_idx < 6
    }
}

/// The place of a connection is the only first one.
pub proof fn lemma_place(v: AppView, key: u64, i: int)
    requires
        v.peer_at(key, i),
    ensures
        v.has_peer(key),
        v.place(key) == i,
{
    let k = v.place(key);
    assert(v.peer_at(key, k));
    if k < i {
        assert(v.peers[k].key != key);
    } else if i < k {
        assert(v.peers[i].key != key);
    }
}

/// A line of the chat keeps the state sound.
pub proof fn law_note_keeps_sound(
    v: AppView,
    kind: MsgKind,
    nick: Seq<char>,
    pid: Seq<char>,
    text: Seq<char>,
    now: u64,
)
    requires
        v.sound(),
    ensures
        v.noted(kind, nick, pid, text, now).sound(),
{
    let a = v.noted(kind, nick, pid, text, now);
    assert forall|i: int| 0 <= i < a.history.len() implies 0 <= (#[trigger] a.history[i]).color_idx
        < 6 by {
        if i < a.history.len() - 1 {
            if v.history.len() >= MAX_HISTORY {
                assert(a.history[i] == v.history[i + 1]);
            } else {
                assert(a.history[i] == v.history[i]);
            }
        }
    }
}

/// A line of the network log keeps the state sound.
pub proof fn law_log_keeps_sound(v: AppView, level: NetLevel, text: Seq<char>, now: u64)
    requires
        v.sound(),
    ensures
        v.logged(level, text, now).sound(),
{
}

/// Notices, errors, arrivals and departures keep the state sound.
pub proof fn law_notices_keep_sound(v: AppView, a: Seq<char>, b: Seq<char>, now: u64)
    requires
        v.sound(),
    ensures
        v.told(a, now).sound(),
        v.failed(a, now).sound(),
        v.joined(a, b, now).sound(),
        v.left(a, now).sound(),
{
    let t = a + " joined ("@ + b + ")"@;
    let l = a + " left"@;
    let e = ""@;
    law_note_keeps_sound(v, MsgKind::System, e, e, a, now);
    law_log_keeps_sound(v.noted(MsgKind::System, e, e, a, now), NetLevel::Info, a, now);
    law_note_keeps_sound(v, MsgKind::Error, e, e, a, now);
    law_log_keeps_sound(v.noted(MsgKind::Error, e, e, a, now), NetLevel::Error, a, now);
    law_note_keeps_sound(v, MsgKind::Join, a, b, t, now);
    law_log_keeps_sound(
        v.noted(MsgKind::Join, a, b, t, now),
        NetLevel::Okay,
        "peer joined "@ + a,
        now,
    );
    law_note_keeps_sound(v, MsgKind::Leave, a, e, l, now);
    law_log_keeps_sound(
        v.noted(MsgKind::Leave, a, e, l, now),
        NetLevel::Warn,
        "peer left "@ + a,
        now,
    );
}

proof fn lemma_without_key(peers: Seq<PeerView>, key: u64)
    ensures
        without_key(peers, key).len() <= peers.len(),
        forall|i: int|
            0 <= i < without_key(peers, key).len() ==> (#[trigger] without_key(peers, key)[i]).key
                != key && peers.contains(without_key(peers, key)[i]),
        (forall|i: int| 0 <= i < peers.len() ==> (#[trigger] peers[i]).key != key) ==> without_key(
            peers,
            key,
        ) == peers,
        (forall|i: int, j: int|
            0 <= i < j < peers.len() ==> (#[trigger] peers[i]).key != (#[trigger] peers[j]).key)
            ==> (forall|i: int, j: int|
            0 <= i < j < without_key(peers, key).len() ==> (#[trigger] without_key(
                peers,
                key,
            )[i]).key != (#[trigger] without_key(peers, key)[j]).key),
        (forall|i: int, j: int|
            0 <= i < j < peers.len() ==> (#[trigger] peers[i]).key != (#[trigger] peers[j]).key)
            && (exists|i: int| 0 <= i < peers.len() && (#[trigger] peers[i]).key == key)
            ==> without_key(peers, key).len() == peers.len() - 1,
    decreases peers.len(),
{
    if peers.len() > 0 {
        let d = peers.drop_last();
        let head = without_key(d, key);
        let w = without_key(peers, key);
        lemma_without_key(d, key);
        assert(peers =~= d.push(peers.last()));
        assert forall|x: PeerView| d.contains(x) implies peers.contains(x) by {
            let k = choose|k: int| 0 <= k < d.len() && d[k] == x;
            assert(peers[k] == x);
        }
        assert(peers.contains(peers.last())) by {
            assert(peers[peers.len() - 1] == peers.last());
        }
        assert forall|i: int| 0 <= i < w.len() implies (#[trigger] w[i]).key != key
            && peers.contains(w[i]) by {
            if i < head.len() {
                assert(w[i] == head[i]);
            }
        }
        if forall|i: int| 0 <= i < peers.len() ==> (#[trigger] peers[i]).key != key {
            assert forall|i: int| 0 <= i < d.len() implies (#[trigger] d[i]).key != key by {
                assert(peers[i].key != key);
            }
            assert(peers[peers.len() - 1].key != key);
        }
        if forall|i: int, j: int|
            0 <= i < j < peers.len() ==> (#[trigger] peers[i]).key != (#[trigger] peers[j]).key {
            assert forall|i: int, j: int| 0 <= i < j < d.len() implies (#[trigger] d[i]).key != (
            #[trigger] d[j]).key by {
                assert(peers[i].key != peers[j].key);
            }
            assert forall|i: int, j: int| 0 <= i < j < w.len() implies (#[trigger] w[i]).key != (
            #[trigger] w[j]).key by {
                assert(w[i] == head[i]);
                if j < head.len() {
                    assert(w[j] == head[j]);
                } else {
                    let k = choose|k: int| 0 <= k < d.len() && d[k] == head[i];
                    assert(d.contains(head[i]));
                    assert(peers[k].key != peers[peers.len() - 1].key);
                }
            }
            if exists|i: int| 0 <= i < peers.len() && (#[trigger] peers[i]).key == key {
                let k = choose|k: int| 0 <= k < peers.len() && (#[trigger] peers[k]).key == key;
                if peers.last().key == key {
                    assert forall|i: int| 0 <= i < d.len() implies (#[trigger] d[i]).key != key by {
                        assert(peers[i].key != peers[peers.len() - 1].key);
                    }
                } else {
                    assert(d[k].key == key);
                }
            }
        }
    }
}

/// Queueing for all peers and dropping a peer keep the state sound; dropping a peer frees one slot.
pub proof fn law_peers_keep_sound(v: AppView, kind: u32, text: Seq<char>, key: u64)
    requires
        v.sound(),
    ensures
        v.broadcasted(kind, text).sound(),
        v.dropped(key).sound(),
        !v.dropped(key).has_peer(key),
        v.has_peer(key) ==> v.dropped(key).peers.len() == v.peers.len() - 1,
{
    let b = v.broadcasted(kind, text);
    assert forall|i: int| 0 <= i < b.peers.len() implies (#[trigger] b.peers[i]).key
        == v.peers[i].key && b.peers[i].info == v.peers[i].info by {}
    assert forall|i: int, j: int| 0 <= i < j < b.peers.len() implies (#[trigger] b.peers[i]).key
        != (#[trigger] b.peers[j]).key by {
        assert(v.peers[i].key != v.peers[j].key);
    }
    lemma_without_key(v.peers, key);
    if v.has_peer(key) {
        assert(v.peers[v.place(key)].key == key);
    }
    let d = v.dropped(key);
    assert forall|i: int| 0 <= i < d.peers.len() implies util::can_shorten(
        (#[trigger] d.peers[i]).info.remote_pid_full,
    ) && d.peers[i].key < d.next_key by {
        let k = choose|k: int| 0 <= k < v.peers.len() && v.peers[k] == d.peers[i];
        assert(v.peers.contains(d.peers[i]));
        assert(util::can_shorten(v.peers[k].info.remote_pid_full));
    }
}

/// A peer that is added and then removed leaves the others as they were.
pub proof fn law_add_then_remove(v: AppView, p: PeerView)
    requires
        !v.has_peer(p.key),
    ensures
        without_key(v.peers.push(p), p.key) == v.peers,
{
    assert forall|i: int| 0 <= i < v.peers.len() implies (#[trigger] v.peers[i]).key != p.key by {
        if v.peers[i].key == p.key {
            lemma_first_peer(v, p.key, i);
        }
    }
    lemma_without_key(v.peers, p.key);
    assert(v.peers.push(p).drop_last() =~= v.peers);
}

proof fn lemma_first_peer(v: AppView, key: u64, i: int)
    requires
        0 <= i < v.peers.len(),
        v.peers[i].key == key,
    ensures
        v.has_peer(key),
    decreases i,
{
    if exists|j: int| 0 <= j < i && (#[trigger] v.peers[j]).key == key {
        let j = choose|j: int| 0 <= j < i && (#[trigger] v.peers[j]).key == key;
        lemma_first_peer(v, key, j);
    } else {
        assert(v.peer_at(key, i));
    }
}

/// Changing a connection without changing its key, and with an id that can be shortened, keeps the
/// state sound and the connection in its place.
pub proof fn law_peer_change_keeps_sound(v: AppView, key: u64, p: PeerView)
    requires
        v.sound(),
        v.has_peer(key),
        p.key == key,
        util::can_shorten(p.info.remote_pid_full),
    ensures
        v.with_peer(key, p).sound(),
        v.with_peer(key, p).has_peer(key),
        v.with_peer(key, p).place(key) == v.place(key),
        v.with_peer(key, p).peer(key) == p,
{
    let i = v.place(key);
    assert(v.peer_at(key, i));
    let w = v.with_peer(key, p);
    assert forall|k: int| 0 <= k < w.peers.len() implies (#[trigger] w.peers[k]).key
        == v.peers[k].key && util::can_shorten(w.peers[k].info.remote_pid_full) by {
        assert(util::can_shorten(v.peers[k].info.remote_pid_full));
    }
    assert forall|a: int, b: int| 0 <= a < b < w.peers.len() implies (#[trigger] w.peers[a]).key
        != (#[trigger] w.peers[b]).key by {
        assert(v.peers[a].key != v.peers[b].key);
    }
    assert forall|j: int| 0 <= j < i implies (#[trigger] w.peers[j]).key != key by {
        assert(v.peers[j].key != key);
    }
    assert(w.peer_at(key, i));
    lemma_place(w, key, i);
}

impl AppState {
    /// The state at the start. `started_at` is the reading of the clock at that moment.
    pub fn new(identity: Identity, nick: String, theme_name: &str, started_at: u64) -> (r: Self)
        ensures
            r@ == (AppView {
                identity: identity@,
                nick: nick@,
                theme: theme_of(theme_name@),
                history: Seq::empty(),
                netlog: Seq::empty(),
                peers: Seq::empty(),
                rx: Seq::empty(),
                tx: Seq::empty(),
                attempted: Set::empty(),
                quit: false,
                next_file_id: 1,
                started_at,
                lan_ip: "127.0.0.1"@,
                listen_port: 0,
                next_key: 0,
                next_token: 0,
                separator: r@.separator,
            }),
            r@.separator == '/' || r@.separator == '\\',
            util::can_shorten(identity@.peer_id) ==> r@.sound(),
    {
        let r = AppState {
            identity,
            nick,
            theme: theme(theme_name),
            history: VecDeque::new(),
            netlog: VecDeque::new(),
            peers: Vec::new(),
            files: FileState { rx: Vec::new(), tx: Vec::new() },
            attempted: Vec::new(),
            quit: false,
            next_file_id: 1,
            started_at,
            lan_ip: "127.0.0.1".to_owned(),
            listen_port: 0,
            next_key: 0,
            next_token: 0,
            separator: util::main_separator(),
        };
        proof {
            assert(r@.history =~= Seq::empty());
            assert(r@.netlog =~= Seq::empty());
            assert(r@.peers =~= Seq::empty());
            assert(r@.rx =~= Seq::empty());
            assert(r@.tx =~= Seq::empty());
            assert(r@.attempted =~= Set::empty());
        }
        r
    }

    /// The nick of this peer.
    pub fn nick(&self) -> (r: String)
        ensures
            r@ == self@.nick,
    {
        self.nick.clone()
    }

    /// Adds a line to the chat, dropping the oldest one where the chat is full.
    pub fn add_history(&mut self, kind: MsgKind, nick: &str, pid: &str, text: &str, now: u64)
        ensures
            final(self)@ == old(self)@.noted(kind, nick@, pid@, text@, now),
            old(self)@.sound() ==> final(self)@.sound(),
    {
        proof {
            if self@.sound() {
                law_note_keeps_sound(self@, kind, nick@, pid@, text@, now);
            }
        }
        if self.history.len() >= MAX_HISTORY {
            let _ = self.history.pop_front();
            proof {
                assert(messages(self.history@) =~= messages(old(self).history@).skip(1));
            }
        }
        let ghost before = self.history@;
        let m = Message {
            kind,
            timestamp: now,
            nick: nick.to_owned(),
            text: text.to_owned(),
            color_idx: util::color_idx(pid),
        };
        self.history.push_back(m);
        proof {
            assert(messages(self.history@) =~= messages(before).push(m@));
        }
    }

    /// Adds a line to the network log, dropping the oldest one where the log is full.
    pub fn netlog(&mut self, level: NetLevel, text: &str, now: u64)
        ensures
            final(self)@ == old(self)@.logged(level, text@, now),
            old(self)@.sound() ==> final(self)@.sound(),
    {
        proof {
            if self@.sound() {
                law_log_keeps_sound(self@, level, text@, now);
            }
        }
        if self.netlog.len() >= MAX_NETLOG {
            let _ = self.netlog.pop_front();
            proof {
                assert(entries(self.netlog@) =~= entries(old(self).netlog@).skip(1));
            }
        }
        let ghost before = self.netlog@;
        let e = NetEntry { timestamp: now, level, text: text.to_owned() };
        self.netlog.push_back(e);
        proof {
            assert(entries(self.netlog@) =~= entries(before).push(e@));
        }
    }

    /// Shows a chat message.
    pub fn emit_chat(&mut self, pid: &str, nick: &str, text: &str, now: u64)
        ensures
            final(self)@ == old(self)@.chatted(pid@, nick@, text@, now),
            old(self)@.sound() ==> final(self)@.sound(),
    {
        proof {
            if self@.sound() {
                law_note_keeps_sound(self@, MsgKind::Chat, nick@, pid@, text@, now);
            }
        }
        self.add_history(MsgKind::Chat, nick, pid, text, now);
    }

    /// Shows a notice.
    pub fn emit_system(&mut self, text: &str, now: u64)
        ensures
            final(self)@ == old(self)@.told(text@, now),
            old(self)@.sound() ==> final(self)@.sound(),
    {
        proof {
            if self@.sound() {
                law_notices_keep_sound(self@, text@, ""@, now);
            }
        }
        self.add_history(MsgKind::System, "", "", text, now);
        self.netlog(NetLevel::Info, text, now);
    }

    /// Shows an error.
    pub fn emit_error(&mut self, text: &str, now: u64)
        ensures
            final(self)@ == old(self)@.failed(text@, now),
            old(self)@.sound() ==> final(self)@.sound(),
    {
        proof {
            if self@.sound() {
                law_notices_keep_sound(self@, text@, ""@, now);
            }
        }
        self.add_history(MsgKind::Error, "", "", text, now);
        self.netlog(NetLevel::Error, text, now);
    }

    /// Shows that a peer joined.
    pub fn emit_join(&mut self, nick: &str, pid: &str, now: u64)
        ensures
            final(self)@ == old(self)@.joined(nick@, pid@, now),
            old(self)@.sound() ==> final(self)@.sound(),
    {
        proof {
            if self@.sound() {
                law_notices_keep_sound(self@, nick@, pid@, now);
            }
        }
        let line = text::cat4(nick, " joined (", pid, ")");
        self.add_history(MsgKind::Join, nick, pid, line.as_str(), now);
        let entry = text::cat2("peer joined ", nick);
        self.netlog(NetLevel::Okay, entry.as_str(), now);
    }

    /// Shows that a peer left.
    pub fn emit_leave(&mut self, nick: &str, now: u64)
        ensures
            final(self)@ == old(self)@.left(nick@, now),
            old(self)@.sound() ==> final(self)@.sound(),
    {
        proof {
            if self@.sound() {
                law_notices_keep_sound(self@, nick@, ""@, now);
            }
        }
        let line = text::cat2(nick, " left");
        self.add_history(MsgKind::Leave, nick, "", line.as_str(), now);
        let entry = text::cat2("peer left ", nick);
        self.netlog(NetLevel::Warn, entry.as_str(), now);
    }

    /// Queues a frame for every peer that takes frames.
    pub fn broadcast(&mut self, kind: u32, text: &str)
        ensures
            final(self)@ == old(self)@.broadcasted(kind, text@),
            old(self)@.sound() ==> final(self)@.sound(),
    {
        proof {
            if self@.sound() {
                law_peers_keep_sound(self@, kind, text@, 0);
            }
        }
        let ghost target = old(self)@.broadcasted(kind, text@).peers;
        let n: usize = self.peers.len();
        let mut i: usize = 0;
        while i < n
            invariant
                i <= n,
                n == self.peers@.len(),
                n == target.len(),
                n == old(self).peers@.len(),
                target == old(self)@.broadcasted(kind, text@).peers,
                forall|j: int| 0 <= j < i ==> (#[trigger] self.peers@[j])@ == target[j],
                forall|j: int| i <= j < n ==> #[trigger] self.peers@[j] == old(self).peers@[j],
                self@ == (AppView { peers: handles(self.peers@), ..old(self)@ }),
            decreases n - i,
        {
            if self.peers[i].info.handshake_done && !self.peers[i].dead {
                self.peers[i].enqueue(kind, text.to_owned());
            }
            i += 1;
        }
        proof {
            assert(handles(self.peers@) =~= target);
        }
    }

    /// The peers that take frames.
    pub fn connected_peers(&self) -> (r: Vec<&PeerHandle>)
        ensures
            r@.len() == online(self@.peers).len(),
            forall|i: int| 0 <= i < r@.len() ==> (#[trigger] r@[i])@ == online(self@.peers)[i],
    {
        let mut out: Vec<&PeerHandle> = Vec::new();
        let n: usize = self.peers.len();
        let mut i: usize = 0;
        while i < n
            invariant
                i <= n,
                n == self.peers@.len(),
                out@.len() == online(self@.peers.take(i as int)).len(),
                forall|j: int|
                    0 <= j < out@.len() ==> (#[trigger] out@[j])@ == online(
                        self@.peers.take(i as int),
                    )[j],
            decreases n - i,
        {
            proof {
                assert(self@.peers.take(i + 1).drop_last() =~= self@.peers.take(i as int));
                assert(self@.peers[i as int] == self.peers@[i as int]@);
            }
            if self.peers[i].info.handshake_done && !self.peers[i].dead {
                out.push(&self.peers[i]);
            }
            i += 1;
        }
        proof {
            assert(self@.peers.take(n as int) =~= self@.peers);
        }
        out
    }

    /// Adds a peer, unless there are too many already.
    pub fn add_peer(&mut self, peer: PeerHandle) -> (r: bool)
        ensures
            r == (old(self)@.peers.len() < MAX_PEERS),
            final(self)@ == (if r {
                AppView { peers: old(self)@.peers.push(peer@), ..old(self)@ }
            } else {
                old(self)@
            }),
    {
        if self.peers.len() >= MAX_PEERS {
            false
        } else {
            self.peers.push(peer);
            proof {
                assert(handles(self.peers@) =~= handles(old(self).peers@).push(peer@));
            }
            true
        }
    }

    /// Releases a peer's slot when its worker ends.
    pub fn remove_peer(&mut self, key: u64)
        ensures
            final(self)@ == old(self)@.dropped(key),
            old(self)@.sound() ==> final(self)@.sound(),
    {
        proof {
            if self@.sound() {
                law_peers_keep_sound(self@, 0, ""@, key);
            }
        }
        let ghost all = self.peers@;
        let ghost mut done: int = 0;
        let mut i: usize = 0;
        while i < self.peers.len()
            invariant
                0 <= done <= all.len(),
                all == old(self).peers@,
                i <= self.peers@.len(),
                self.peers@.len() - i == all.len() - done,
                handles(self.peers@.take(i as int)) == without_key(handles(all).take(done), key),
                forall|j: int|
                    0 <= j < all.len() - done ==> self.peers@[i + j] == #[trigger] all[done + j],
                self@ == (AppView { peers: handles(self.peers@), ..old(self)@ }),
            decreases all.len() - done,
        {
            let ghost before = self.peers@;
            proof {
                assert(handles(all).take(done + 1).drop_last() =~= handles(all).take(done));
                assert(before[i + 0] == all[done + 0]);
            }
            if self.peers[i].key == key {
                let _ = self.peers.remove(i);
                proof {
                    assert(self.peers@.take(i as int) =~= before.take(i as int));
                    assert forall|j: int| 0 <= j < all.len() - (done + 1) implies self.peers@[i + j]
                        == #[trigger] all[done + 1 + j] by {
                        assert(before[i + (j + 1)] == all[done + (j + 1)]);
                    }
                }
            } else {
                i += 1;
                proof {
                    assert(handles(before.take(i as int)) =~= handles(before.take(i - 1)).push(
                        before[i - 1]@,
                    ));
                    assert forall|j: int| 0 <= j < all.len() - (done + 1) implies self.peers@[i + j]
                        == #[trigger] all[done + 1 + j] by {
                        assert(before[(i - 1) + (j + 1)] == all[done + (j + 1)]);
                    }
                }
            }
            proof {
                done = done + 1;
            }
        }
        proof {
            assert(self.peers@.take(i as int) =~= self.peers@);
            assert(handles(all).take(done) =~= handles(all));
        }
    }

    /// Whether there is room for another offered file.
    pub fn can_receive_file(&self) -> (r: bool)
        ensures
            r == (self@.rx.len() < MAX_RX_FILES),
    {
        self.files.rx.len() < MAX_RX_FILES
    }

    /// The place of the connection of this key.
    pub fn peer_pos(&self, key: u64) -> (r: Option<usize>)
        ensures
            r is Some <==> self@.has_peer(key),
            r matches Some(i) ==> self@.peer_at(key, i as int) && self@.place(key) == i && i
                < self.peers@.len(),
    {
        let n: usize = self.peers.len();
        let mut i: usize = 0;
        while i < n
            invariant
                i <= n,
                n == self.peers@.len(),
                forall|j: int| 0 <= j < i ==> (#[trigger] self@.peers[j]).key != key,
            decreases n - i,
        {
            proof {
                assert(self@.peers[i as int] == self.peers@[i as int]@);
            }
            if self.peers[i].key == key {
                proof {
                    lemma_place(self@, key, i as int);
                }
                return Some(i);
            }
            i += 1;
        }
        None
    }
}

}
