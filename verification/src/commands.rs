//! The start of the chat and its commands.
use std::collections::VecDeque;

use vstd::prelude::*;
use vstd::string::*;

use crate::app;
use crate::app::{AppState, AppView, InfoView, NetLevel, PeerInfo, PeerView};
use crate::constants::{CHAT_SERVICE_TYPE, CHAT_TYPE_BYE, CHAT_TYPE_MSG, MAX_NICK_LEN};
use crate::files;
use crate::net;
use crate::net::{DialPlan, DialView};
use crate::rendezvous;
use crate::text;
use crate::tui;
use crate::tui::{UiAction, UiActionView};
use crate::util;
use crate::util::IfEmpty;

verus! {

/// What was asked for on the command line.
pub struct Args {
    pub nick: String,
    pub theme: String,
    pub port: u16,
    pub connect: Vec<String>,
    pub bootstrap: Vec<String>,
    pub rendezvous: Option<String>,
    pub rendezvous_listen: Option<String>,
    pub room: String,
    pub public_addr: Option<String>,
}

/// What was asked for on the command line, in plain values.
#[verifier::ext_equal]
pub struct ArgsView {
    pub nick: Seq<char>,
    pub theme: Seq<char>,
    pub port: u16,
    pub connect: Seq<Seq<char>>,
    pub bootstrap: Seq<Seq<char>>,
    pub rendezvous: Option<Seq<char>>,
    pub rendezvous_listen: Option<Seq<char>>,
    pub room: Seq<char>,
    pub public_addr: Option<Seq<char>>,
}

/// Texts, in plain values.
pub open spec fn views(s: Seq<String>) -> Seq<Seq<char>> {
    s.map_values(|t: String| t@)
}

/// A text that may be missing, in plain values.
pub open spec fn maybe(s: Option<String>) -> Option<Seq<char>> {
    match s {
        Some(t) => Some(t@),
        None => None,
    }
}

impl View for Args {
    type V = ArgsView;

    open spec fn view(&self) -> ArgsView {
        ArgsView {
            nick: self.nick@,
            theme: self.theme@,
            port: self.port,
            connect: views(self.connect@),
            bootstrap: views(self.bootstrap@),
            rendezvous: maybe(self.rendezvous),
            rendezvous_listen: maybe(self.rendezvous_listen),
            room: self.room@,
            public_addr: maybe(self.public_addr),
        }
    }
}

/// The options of the command line.
#[derive(Clone, Copy, PartialEq, Eq, Structural, Debug)]
pub enum Opt {
    Nick,
    Theme,
    Port,
    Connect,
    Bootstrap,
    Rendezvous,
    RendezvousListen,
    Room,
    PublicAddr,
}

/// What holds where nothing is asked for.
pub open spec fn default_args() -> ArgsView {
    ArgsView {
        nick: "anon"@,
        theme: "midnight"@,
        port: 0,
        connect: Seq::empty(),
        bootstrap: Seq::empty(),
        rendezvous: None,
        rendezvous_listen: None,
        room: "default"@,
        public_addr: None,
    }
}

/// The option that a whole argument names; its value is the next argument.
pub open spec fn bare_option(arg: Seq<char>) -> Option<Opt> {
    if arg == "--nick"@ {
        Some(Opt::Nick)
    } else if arg == "--theme"@ {
        Some(Opt::Theme)
    } else if arg == "--port"@ {
        Some(Opt::Port)
    } else if arg == "--connect"@ {
        Some(Opt::Connect)
    } else if arg == "--bootstrap"@ {
        Some(Opt::Bootstrap)
    } else if arg == "--rendezvous"@ {
        Some(Opt::Rendezvous)
    } else if arg == "--rendezvous-listen"@ {
        Some(Opt::RendezvousListen)
    } else if arg == "--room"@ {
        Some(Opt::Room)
    } else if arg == "--public-addr"@ {
        Some(Opt::PublicAddr)
    } else {
        None
    }
}

/// The option before the equals sign of an argument, and the value behind it.
pub open spec fn joined_option(arg: Seq<char>) -> Option<(Opt, Seq<char>)> {
    if let Some(v) = text::after_prefix(arg, "--nick="@) {
        Some((Opt::Nick, v))
    } else if let Some(v) = text::after_prefix(arg, "--theme="@) {
        Some((Opt::Theme, v))
    } else if let Some(v) = text::after_prefix(arg, "--port="@) {
        Some((Opt::Port, v))
    } else if let Some(v) = text::after_prefix(arg, "--connect="@) {
        Some((Opt::Connect, v))
    } else if let Some(v) = text::after_prefix(arg, "--bootstrap="@) {
        Some((Opt::Bootstrap, v))
    } else if let Some(v) = text::after_prefix(arg, "--rendezvous="@) {
        Some((Opt::Rendezvous, v))
    } else if let Some(v) = text::after_prefix(arg, "--rendezvous-listen="@) {
        Some((Opt::RendezvousListen, v))
    } else if let Some(v) = text::after_prefix(arg, "--room="@) {
        Some((Opt::Room, v))
    } else if let Some(v) = text::after_prefix(arg, "--public-addr="@) {
        Some((Opt::PublicAddr, v))
    } else {
        None
    }
}

/// The nick that is made of a text: its first characters, as many as a nick may have.
pub open spec fn nick_of(s: Seq<char>) -> Seq<char> {
    util::clipped(s, (MAX_NICK_LEN - 1) as nat)
}

/// The arguments with a value for an option.
pub open spec fn with_option(a: ArgsView, opt: Opt, value: Seq<char>) -> ArgsView {
    match opt {
        Opt::Nick => ArgsView { nick: nick_of(value), ..a },
        Opt::Theme => ArgsView { theme: value, ..a },
        Opt::Port => ArgsView {
            port: match net::port_of(value) {
                Some(p) => p,
                None => 0,
            },
            ..a
        },
        Opt::Connect => ArgsView { connect: a.connect.push(value), ..a },
        Opt::Bootstrap => ArgsView { bootstrap: a.bootstrap.push(value), ..a },
        Opt::Rendezvous => ArgsView { rendezvous: Some(value), ..a },
        Opt::RendezvousListen => ArgsView { rendezvous_listen: Some(value), ..a },
        Opt::Room => ArgsView { room: value, ..a },
        Opt::PublicAddr => ArgsView { public_addr: Some(value), ..a },
    }
}

/// What is asked for by these arguments, on top of what was asked for before. An option at the very
/// end, without its value, asks for nothing; an argument that starts with no dash is the nick; other
/// arguments are passed over.
pub open spec fn args_from(a: ArgsView, rest: Seq<Seq<char>>) -> ArgsView
    decreases rest.len(),
{
    if rest.len() == 0 {
        a
    } else {
        let arg = rest[0];
        match bare_option(arg) {
            Some(opt) => if rest.len() == 1 {
                a
            } else {
                args_from(with_option(a, opt, rest[1]), rest.skip(2))
            },
            None => match joined_option(arg) {
                Some((opt, value)) => args_from(with_option(a, opt, value), rest.skip(1)),
                None => if arg.len() > 0 && arg[0] == '-' {
                    args_from(a, rest.skip(1))
                } else {
                    args_from(with_option(a, Opt::Nick, arg), rest.skip(1))
                },
            },
        }
    }
}

fn find_bare(arg: &str) -> (r: Option<Opt>)
    ensures
        r == bare_option(arg@),
{
    if text::str_eq(arg, "--nick") {
        Some(Opt::Nick)
    } else if text::str_eq(arg, "--theme") {
        Some(Opt::Theme)
    } else if text::str_eq(arg, "--port") {
        Some(Opt::Port)
    } else if text::str_eq(arg, "--connect") {
        Some(Opt::Connect)
    } else if text::str_eq(arg, "--bootstrap") {
        Some(Opt::Bootstrap)
    } else if text::str_eq(arg, "--rendezvous") {
        Some(Opt::Rendezvous)
    } else if text::str_eq(arg, "--rendezvous-listen") {
        Some(Opt::RendezvousListen)
    } else if text::str_eq(arg, "--room") {
        Some(Opt::Room)
    } else if text::str_eq(arg, "--public-addr") {
        Some(Opt::PublicAddr)
    } else {
        None
    }
}

fn find_joined(arg: &[char]) -> (r: Option<(Opt, String)>)
    ensures
        r is Some <==> joined_option(arg@) is Some,
        r matches Some(p) ==> joined_option(arg@) == Some((p.0, p.1@)),
{
    if let Some(v) = text::strip_prefix(arg, "--nick=") {
        Some((Opt::Nick, text::string_of(v)))
    } else if let Some(v) = text::strip_prefix(arg, "--theme=") {
        Some((Opt::Theme, text::string_of(v)))
    } else if let Some(v) = text::strip_prefix(arg, "--port=") {
        Some((Opt::Port, text::string_of(v)))
    } else if let Some(v) = text::strip_prefix(arg, "--connect=") {
        Some((Opt::Connect, text::string_of(v)))
    } else if let Some(v) = text::strip_prefix(arg, "--bootstrap=") {
        Some((Opt::Bootstrap, text::string_of(v)))
    } else if let Some(v) = text::strip_prefix(arg, "--rendezvous=") {
        Some((Opt::Rendezvous, text::string_of(v)))
    } else if let Some(v) = text::strip_prefix(arg, "--rendezvous-listen=") {
        Some((Opt::RendezvousListen, text::string_of(v)))
    } else if let Some(v) = text::strip_prefix(arg, "--room=") {
        Some((Opt::Room, text::string_of(v)))
    } else if let Some(v) = text::strip_prefix(arg, "--public-addr=") {
        Some((Opt::PublicAddr, text::string_of(v)))
    } else {
        None
    }
}

fn set_option(args: &mut Args, opt: Opt, value: &str)
    ensures
        final(args)@ == with_option(old(args)@, opt, value@),
{
    match opt {
        Opt::Nick => {
            args.nick = util::clip(value, MAX_NICK_LEN - 1);
        },
        Opt::Theme => {
            args.theme = value.to_owned();
        },
        Opt::Port => {
            let chars = text::chars_of(value);
            args.port =
            match net::parse_port(chars.as_slice()) {
                Some(p) => p,
                None => 0,
            };
        },
        Opt::Connect => {
            let v = value.to_owned();
            args.connect.push(v);
            proof {
                assert(args@.connect =~= old(args)@.connect.push(value@));
            }
        },
        Opt::Bootstrap => {
            let v = value.to_owned();
            args.bootstrap.push(v);
            proof {
                assert(args@.bootstrap =~= old(args)@.bootstrap.push(value@));
            }
        },
        Opt::Rendezvous => {
            args.rendezvous = Some(value.to_owned());
        },
        Opt::RendezvousListen => {
            args.rendezvous_listen = Some(value.to_owned());
        },
        Opt::Room => {
            args.room = value.to_owned();
        },
        Opt::PublicAddr => {
            args.public_addr = Some(value.to_owned());
        },
    }
}

/// Reads the command line, without the name of the program.
pub fn parse_args(list: &Vec<String>) -> (r: Args)
    ensures
        r@ == args_from(default_args(), views(list@)),
{
    let mut args = Args {
        nick: "anon".to_owned(),
        theme: "midnight".to_owned(),
        port: 0,
        connect: Vec::new(),
        bootstrap: Vec::new(),
        rendezvous: None,
        rendezvous_listen: None,
        room: "default".to_owned(),
        public_addr: None,
    };
    let ghost all = views(list@);
    let n: usize = list.len();
    let mut i: usize = 0;
    proof {
        assert(views(args.connect@) =~= Seq::empty());
        assert(views(args.bootstrap@) =~= Seq::empty());
        assert(args@ =~= default_args());
        assert(all.skip(0) =~= all);
    }
    while i < n
        invariant
            i <= n,
            n == list@.len(),
            all == views(list@),
            args_from(default_args(), all) == args_from(args@, all.skip(i as int)),
        decreases n - i,
    {
        let arg = list[i].as_str();
        let ghost rest = all.skip(i as int);
        proof {
            assert(rest[0] == arg@);
            assert(rest.skip(1) =~= all.skip(i + 1));
            if i + 1 < n {
                assert(rest[1] == list@[i + 1]@);
                assert(rest.skip(2) =~= all.skip(i + 2));
            }
        }
        if let Some(opt) = find_bare(arg) {
            if n - i > 1 {
                set_option(&mut args, opt, list[i + 1].as_str());
                i += 2;
            } else {
                proof {
                    assert(args_from(args@, all.skip(i as int)) == args@);
                    assert(all.skip(n as int) =~= Seq::empty());
                }
                i += 1;
            }
        } else {
            let chars = text::chars_of(arg);
            if let Some((opt, value)) = find_joined(chars.as_slice()) {
                set_option(&mut args, opt, value.as_str());
            } else if chars.len() == 0 || chars[0] != '-' {
                set_option(&mut args, Opt::Nick, arg);
            }
            i += 1;
        }
    }
    proof {
        assert(all.skip(n as int) =~= Seq::empty());
    }
    args
}

/// The numbers up to 255 among the parts of a host name between dots.
pub open spec fn octets(parts: Seq<Seq<char>>) -> Seq<u8>
    decreases parts.len(),
{
    if parts.len() == 0 {
        Seq::empty()
    } else {
        match text::number(parts.last(), 255) {
            Some(n) => octets(parts.drop_last()).push(n as u8),
            None => octets(parts.drop_last()),
        }
    }
}

/// Whether four numbers are an address that is not reachable from outside.
pub open spec fn private_octets(o: Seq<u8>) -> bool {
    o.len() == 4 && (o[0] == 10 || o[0] == 127 || (o[0] == 192 && o[1] == 168) || (o[0] == 172 && 16
        <= o[1] <= 31))
}

/// Whether a host is this machine or on a private network.
pub open spec fn is_local_host(host: Seq<char>) -> bool {
    ||| host == "localhost"@
    ||| host == "127.0.0.1"@
    ||| host == "::1"@
    ||| private_octets(octets(text::pieces(host, '.')))
}

/// Whether a host is this machine or on a private network.
pub fn is_private_or_loopback_host(host: &str) -> (r: bool)
    ensures
        r == is_local_host(host@),
{
    if text::str_eq(host, "localhost") || text::str_eq(host, "127.0.0.1") || text::str_eq(
        host,
        "::1",
    ) {
        return true;
    }
    let chars = text::chars_of(host);
    let parts = text::split_all(chars.as_slice(), '.');
    let ghost all = text::pieces(host@, '.');
    let mut found: Vec<u8> = Vec::new();
    let n: usize = parts.len();
    let mut i: usize = 0;
    while i < n
        invariant
            i <= n,
            n == parts@.len(),
            all == text::pieces(host@, '.'),
            n == all.len(),
            forall|j: int| 0 <= j < n ==> (#[trigger] parts@[j])@ == all[j],
            found@ == octets(all.take(i as int)),
        decreases n - i,
    {
        proof {
            assert(all.take(i + 1).drop_last() =~= all.take(i as int));
            assert(all.take(i + 1).last() == parts@[i as int]@);
        }
        if let Some(v) = text::parse_number(parts[i].as_slice(), 255) {
            found.push(v as u8);
        }
        i += 1;
    }
    proof {
        assert(all.take(n as int) =~= all);
    }
    if found.len() != 4 {
        return false;
    }
    found[0] == 10 || found[0] == 127 || (found[0] == 192 && found[1] == 168) || (found[0] == 172
        && 16 <= found[1] && found[1] <= 31)
}

/// What is wrong with an address that others are to dial, if anything.
pub open spec fn addr_warning(addr: Seq<char>) -> Option<Seq<char>> {
    match net::address_of(addr) {
        None => Some(
            "public addr is not dialable: "@ + addr
                + "; use host:port or /ip4|/dns/<host>/tcp/<port>/p2p/<peer-id>"@,
        ),
        Some((host, _)) => if is_local_host(host) {
            Some(
                "public addr uses private host "@ + host
                    + "; peers on another network probably need a public DNS/IP plus port forwarding"@,
            )
        } else {
            None
        },
    }
}

/// A warning where an address that others are to dial cannot be dialled, or only from here.
pub fn public_addr_warning(public_addr: &str) -> (r: Option<String>)
    ensures
        r is Some <==> addr_warning(public_addr@) is Some,
        r matches Some(w) ==> addr_warning(public_addr@) == Some(w@),
{
    let (host, _) = match net::parse_multiaddr(public_addr) {
        Some(a) => a,
        None => {
            return Some(
                text::cat3(
                    "public addr is not dialable: ",
                    public_addr,
                    "; use host:port or /ip4|/dns/<host>/tcp/<port>/p2p/<peer-id>",
                ),
            );
        },
    };
    if is_private_or_loopback_host(host.as_str()) {
        return Some(
            text::cat3(
                "public addr uses private host ",
                host.as_str(),
                "; peers on another network probably need a public DNS/IP plus port forwarding",
            ),
        );
    }
    None
}

/// However it is given, the nick stays within its limit.
pub proof fn law_nick_within_limit(a: ArgsView, rest: Seq<Seq<char>>)
    requires
        a.nick.len() < MAX_NICK_LEN,
    ensures
        args_from(a, rest).nick.len() < MAX_NICK_LEN,
    decreases rest.len(),
{
    if rest.len() > 0 {
        let arg = rest[0];
        match bare_option(arg) {
            Some(opt) => {
                if rest.len() > 1 {
                    law_nick_within_limit(with_option(a, opt, rest[1]), rest.skip(2));
                }
            },
            None => match joined_option(arg) {
                Some((opt, value)) => {
                    law_nick_within_limit(with_option(a, opt, value), rest.skip(1));
                },
                None => {
                    law_nick_within_limit(a, rest.skip(1));
                    law_nick_within_limit(with_option(a, Opt::Nick, arg), rest.skip(1));
                },
            },
        }
    }
}

/// What a command needs done outside.
pub enum Command {
    /// Nothing.
    Nothing,
    /// Dial a peer.
    Dial { plan: DialPlan },
    /// Look at a file that is to be offered.
    Look { path: String },
    /// Make the directory for received files, and accept a file.
    Accept { wanted: Option<u32> },
}

/// What a command needs done outside, in plain values.
#[verifier::ext_equal]
pub enum CommandView {
    Nothing,
    Dial { plan: DialView },
    Look { path: Seq<char> },
    Accept { wanted: Option<u32> },
}

impl View for Command {
    type V = CommandView;

    open spec fn view(&self) -> CommandView {
        match *self {
            Command::Nothing => CommandView::Nothing,
            Command::Dial { plan } => CommandView::Dial { plan: plan@ },
            Command::Look { path } => CommandView::Look { path: path@ },
            Command::Accept { wanted } => CommandView::Accept { wanted },
        }
    }
}

/// The state after some notices, one after the other.
pub open spec fn told_all(v: AppView, lines: Seq<Seq<char>>, now: u64) -> AppView
    decreases lines.len(),
{
    if lines.len() == 0 {
        v
    } else {
        told_all(v, lines.drop_last(), now).told(lines.last(), now)
    }
}

fn tell_all(app: &mut AppState, lines: &Vec<String>, now: u64)
    ensures
        final(app)@ == told_all(old(app)@, views(lines@), now),
{
    let ghost all = views(lines@);
    let n: usize = lines.len();
    let mut i: usize = 0;
    while i < n
        invariant
            i <= n,
            n == lines@.len(),
            all == views(lines@),
            app@ == told_all(old(app)@, all.take(i as int), now),
        decreases n - i,
    {
        proof {
            assert(all.take(i + 1).drop_last() =~= all.take(i as int));
            assert(all.take(i + 1).last() == lines@[i as int]@);
        }
        app.emit_system(lines[i].as_str(), now);
        i += 1;
    }
    proof {
        assert(all.take(n as int) =~= all);
    }
}

fn put_text(lines: &mut Vec<String>, line: String)
    ensures
        views(final(lines)@) == views(old(lines)@).push(line@),
{
    lines.push(line);
    proof {
        assert(views(lines@) =~= views(old(lines)@).push(line@));
    }
}

fn no_lines() -> (r: Vec<String>)
    ensures
        views(r@) == Seq::<Seq<char>>::empty(),
{
    let r: Vec<String> = Vec::new();
    proof {
        assert(views(r@) =~= Seq::<Seq<char>>::empty());
    }
    r
}

/// How many peers are connected, in words.
pub open spec fn count_line(n: nat) -> Seq<char> {
    text::dec(n) + " peer"@ + (if n == 1 {
        ""@
    } else {
        "s"@
    }) + " connected"@
}

/// A peer, in one line.
pub open spec fn peer_line(info: InfoView) -> Seq<char> {
    util::or_else(info.remote_nick, "?"@) + "  "@ + info.remote_pid_short + "  "@ + info.addr
        + "  rx"@ + text::dec(info.msgs_rx as nat) + " tx"@ + text::dec(info.msgs_tx as nat)
}

/// The answer to the command that lists the peers.
pub open spec fn peers_lines(peers: Seq<PeerView>) -> Seq<Seq<char>> {
    seq![count_line(peers.len())] + Seq::new(peers.len(), |i: int| peer_line(peers[i].info))
}

fn shown_peer(info: &PeerInfo) -> (r: String)
    ensures
        r@ == peer_line(info@),
{
    let nick = info.remote_nick.clone().if_empty("?");
    let rx = text::dec_string(info.msgs_rx);
    let tx = text::dec_string(info.msgs_tx);
    let mut line = text::cat6(
        nick.as_str(),
        "  ",
        info.remote_pid_short.as_str(),
        "  ",
        info.addr.as_str(),
        "  rx",
    );
    line.append(rx.as_str());
    line.append(" tx");
    line.append(tx.as_str());
    line
}

fn list_connected(app: &AppState) -> (r: Vec<String>)
    ensures
        views(r@) == peers_lines(app::online(app@.peers)),
{
    let ghost online = app::online(app@.peers);
    let ghost all = peers_lines(online);
    let peers = app.connected_peers();
    let n: usize = peers.len();
    let mut lines = no_lines();
    let count = text::dec_string(n as u64);
    let first = text::cat4(
        count.as_str(),
        " peer",
        if n == 1 {
            ""
        } else {
            "s"
        },
        " connected",
    );
    put_text(&mut lines, first);
    let mut i: usize = 0;
    proof {
        assert(views(lines@) =~= all.take(1));
    }
    while i < n
        invariant
            i <= n,
            n == peers@.len(),
            n == online.len(),
            all == peers_lines(online),
            forall|j: int| 0 <= j < n ==> (#[trigger] peers@[j])@ == online[j],
            views(lines@) == all.take(i + 1),
        decreases n - i,
    {
        proof {
            assert(peers@[i as int]@ == online[i as int]);
            assert(all[i + 1] == peer_line(online[i as int].info));
            assert(all.take(i + 2) =~= all.take(i + 1).push(all[i + 1]));
        }
        let line = shown_peer(&peers[i].info);
        put_text(&mut lines, line);
        i += 1;
    }
    proof {
        assert(all.take(n + 1) =~= all);
    }
    lines
}

/// The answer to the command that tells how things stand.
pub open spec fn status_lines(v: AppView, mono: u64) -> Seq<Seq<char>> {
    let (rx, tx) = tui::msg_stats(v.peers);
    seq![
        "status: "@ + v.lan_ip + ":"@ + text::dec(v.listen_port as nat) + "  uptime "@
            + util::duration_text(util::elapsed(v.started_at, mono)) + "  peers "@ + text::dec(
            app::online(v.peers).len(),
        ) + "  rx "@ + text::dec(rx as nat) + " msg  tx "@ + text::dec(tx as nat) + " msg"@,
        "stack: mDNS/connect/bootstrap/rendezvous -> TCP -> Noise XX -> Yamux -> /speer/chat/1.0.0"@,
    ]
}

fn list_status(app: &AppState, mono: u64) -> (r: Vec<String>)
    ensures
        views(r@) == status_lines(app@, mono),
{
    let (rx, tx) = tui::collect_msg_stats(app);
    let online: usize = app.connected_peers().len();
    let port = text::dec_string(app.listen_port as u64);
    let uptime = util::fmt_duration(util::elapsed_secs(app.started_at, mono));
    let online_text = text::dec_string(online as u64);
    let rx_text = text::dec_string(rx);
    let tx_text = text::dec_string(tx);
    let mut line = text::cat6(
        "status: ",
        app.lan_ip.as_str(),
        ":",
        port.as_str(),
        "  uptime ",
        uptime.as_str(),
    );
    line.append("  peers ");
    line.append(online_text.as_str());
    line.append("  rx ");
    line.append(rx_text.as_str());
    line.append(" msg  tx ");
    line.append(tx_text.as_str());
    line.append(" msg");
    let mut lines = no_lines();
    put_text(&mut lines, line);
    put_text(
        &mut lines,
        "stack: mDNS/connect/bootstrap/rendezvous -> TCP -> Noise XX -> Yamux -> /speer/chat/1.0.0".to_owned(),
    );
    proof {
        assert(views(lines@) =~= status_lines(app@, mono));
    }
    lines
}

/// The answer to the command that tells who this peer is.
pub open spec fn id_lines(v: AppView, public_addr: Seq<char>) -> Seq<Seq<char>> {
    seq![
        "nick: "@ + v.nick,
        "peer id: "@ + v.identity.peer_id,
        "multiaddr: "@ + net::multiaddr_of(v.lan_ip, v.listen_port, v.identity.peer_id),
        "public addr: "@ + public_addr,
    ]
}

fn list_id(app: &AppState, public_addr: &str) -> (r: Vec<String>)
    ensures
        views(r@) == id_lines(app@, public_addr@),
{
    let addr = net::local_multiaddr(app);
    let mut lines = no_lines();
    put_text(&mut lines, text::cat2("nick: ", app.nick.as_str()));
    put_text(&mut lines, text::cat2("peer id: ", app.identity.peer_id.as_str()));
    put_text(&mut lines, text::cat2("multiaddr: ", addr.as_str()));
    put_text(&mut lines, text::cat2("public addr: ", public_addr));
    proof {
        assert(views(lines@) =~= id_lines(app@, public_addr@));
    }
    lines
}

/// The first line on a peer.
pub open spec fn who_line(i: int, info: InfoView) -> Seq<char> {
    "peer "@ + text::dec((i + 1) as nat) + ": "@ + util::or_else(info.remote_nick, "?"@) + "  "@
        + util::or_else(info.remote_pid_full, info.remote_pid_short)
}

/// The second line on a peer.
pub open spec fn traffic_line(info: InfoView) -> Seq<char> {
    "  addr "@ + info.addr + "  role "@ + (if info.initiator {
        "dialer"@
    } else {
        "listener"@
    }) + "  rx "@ + text::dec(info.msgs_rx as nat) + "/"@ + text::dec(info.bytes_rx as nat)
        + "B  tx "@ + text::dec(info.msgs_tx as nat) + "/"@ + text::dec(info.bytes_tx as nat) + "B"@
}

/// The lines on these peers.
pub open spec fn peers_details(peers: Seq<PeerView>) -> Seq<Seq<char>>
    decreases peers.len(),
{
    if peers.len() == 0 {
        Seq::empty()
    } else {
        peers_details(peers.drop_last()).push(
            who_line(peers.len() - 1, peers.last().info),
        ).push(traffic_line(peers.last().info))
    }
}

/// The answer to the command that looks at the peers closely.
pub open spec fn inspect_lines(peers: Seq<PeerView>) -> Seq<Seq<char>> {
    if peers.len() == 0 {
        seq!["inspect: no connected peers yet"@]
    } else {
        peers_details(peers)
    }
}

fn shown_who(i: usize, info: &PeerInfo) -> (r: String)
    requires
        i < usize::MAX,
    ensures
        r@ == who_line(i as int, info@),
{
    let number = text::dec_string((i + 1) as u64);
    let nick = info.remote_nick.clone().if_empty("?");
    let id = info.remote_pid_full.clone().if_empty(info.remote_pid_short.as_str());
    text::cat6("peer ", number.as_str(), ": ", nick.as_str(), "  ", id.as_str())
}

fn shown_traffic(info: &PeerInfo) -> (r: String)
    ensures
        r@ == traffic_line(info@),
{
    let msgs_rx = text::dec_string(info.msgs_rx);
    let bytes_rx = text::dec_string(info.bytes_rx);
    let msgs_tx = text::dec_string(info.msgs_tx);
    let bytes_tx = text::dec_string(info.bytes_tx);
    let mut line = text::cat6(
        "  addr ",
        info.addr.as_str(),
        "  role ",
        if info.initiator {
            "dialer"
        } else {
            "listener"
        },
        "  rx ",
        msgs_rx.as_str(),
    );
    line.append("/");
    line.append(bytes_rx.as_str());
    line.append("B  tx ");
    line.append(msgs_tx.as_str());
    line.append("/");
    line.append(bytes_tx.as_str());
    line.append("B");
    line
}

fn list_details(app: &AppState) -> (r: Vec<String>)
    ensures
        views(r@) == inspect_lines(app::online(app@.peers)),
{
    let ghost online = app::online(app@.peers);
    let peers = app.connected_peers();
    let n: usize = peers.len();
    let mut lines = no_lines();
    if n == 0 {
        put_text(&mut lines, "inspect: no connected peers yet".to_owned());
        proof {
            assert(views(lines@) =~= inspect_lines(online));
        }
        return lines;
    }
    let mut i: usize = 0;
    while i < n
        invariant
            i <= n,
            n == peers@.len(),
            n == online.len(),
            forall|j: int| 0 <= j < n ==> (#[trigger] peers@[j])@ == online[j],
            views(lines@) == peers_details(online.take(i as int)),
        decreases n - i,
    {
        proof {
            assert(peers@[i as int]@ == online[i as int]);
            assert(online.take(i + 1).drop_last() =~= online.take(i as int));
        }
        let first = shown_who(i, &peers[i].info);
        let second = shown_traffic(&peers[i].info);
        put_text(&mut lines, first);
        put_text(&mut lines, second);
        i += 1;
    }
    proof {
        assert(online.take(n as int) =~= online);
    }
    lines
}

/// The answer to the command that lists the commands.
pub open spec fn help_lines() -> Seq<Seq<char>> {
    seq![
        "Commands: /connect <addr> /send <path> /accept [id] /status /inspect /id /peers /clear /log clear /theme modern|midnight|original /quit"@,
        "Startup flags: --connect <addr> --bootstrap <addr> --rendezvous <host:port> --room <name> --public-addr <addr>"@,
    ]
}

fn list_help() -> (r: Vec<String>)
    ensures
        views(r@) == help_lines(),
{
    let mut lines = no_lines();
    put_text(
        &mut lines,
        "Commands: /connect <addr> /send <path> /accept [id] /status /inspect /id /peers /clear /log clear /theme modern|midnight|original /quit".to_owned(),
    );
    put_text(
        &mut lines,
        "Startup flags: --connect <addr> --bootstrap <addr> --rendezvous <host:port> --room <name> --public-addr <addr>".to_owned(),
    );
    proof {
        assert(views(lines@) =~= help_lines());
    }
    lines
}

/// The path behind the command that sends a file, with or without its slash.
pub open spec fn send_arg(input: Seq<char>) -> Option<Seq<char>> {
    match text::after_prefix(input, "/send "@) {
        Some(arg) => Some(arg),
        None => text::after_prefix(input, "send "@),
    }
}

/// The state after the connect command, and what is needed for it.
pub open spec fn after_connect(v: AppView, arg: Seq<char>, now: u64) -> (AppView, CommandView) {
    let addr = text::trimmed(arg);
    if addr.len() == 0 {
        (v.failed("usage: /connect <host:port|multiaddr>"@, now), CommandView::Nothing)
    } else {
        let (w, plan) = net::after_request(v, "manual"@, None, addr, false, false, now);
        (
            w,
            match plan {
                Some(p) => CommandView::Dial { plan: p },
                None => CommandView::Nothing,
            },
        )
    }
}

/// The state after the send command, and what is needed for it.
pub open spec fn after_send(v: AppView, arg: Seq<char>, now: u64) -> (AppView, CommandView) {
    let (w, path) = files::after_send_command(v, arg, now);
    (
        w,
        match path {
            Some(p) => CommandView::Look { path: p },
            None => CommandView::Nothing,
        },
    )
}

/// The state after a line that the user submitted, and what is needed for it. What is no command is
/// sent to all peers and shown.
pub open spec fn after_command(
    v: AppView,
    input: Seq<char>,
    public_addr: Seq<char>,
    now: u64,
    mono: u64,
) -> (AppView, CommandView) {
    if input == "/quit"@ || input == "/exit"@ {
        (AppView { quit: true, ..v }, CommandView::Nothing)
    } else if input == "/peers"@ || input == "/who"@ {
        (told_all(v, peers_lines(app::online(v.peers)), now), CommandView::Nothing)
    } else if input == "/status"@ {
        (told_all(v, status_lines(v, mono), now), CommandView::Nothing)
    } else if input == "/id"@ || input == "/me"@ {
        (told_all(v, id_lines(v, public_addr), now), CommandView::Nothing)
    } else if input == "/inspect"@ || input == "/diag"@ {
        (told_all(v, inspect_lines(app::online(v.peers)), now), CommandView::Nothing)
    } else if input == "/clear"@ {
        (
            AppView { history: Seq::empty(), ..v }.told("timeline cleared"@, now),
            CommandView::Nothing,
        )
    } else if input == "/log clear"@ {
        (
            AppView { netlog: Seq::empty(), ..v }.logged(
                NetLevel::Okay,
                "network console cleared"@,
                now,
            ),
            CommandView::Nothing,
        )
    } else if input == "/help"@ {
        (told_all(v, help_lines(), now), CommandView::Nothing)
    } else if let Some(arg) = text::after_prefix(input, "/connect "@) {
        after_connect(v, arg, now)
    } else if let Some(arg) = send_arg(input) {
        after_send(v, arg, now)
    } else if input == "/accept"@ {
        (v, CommandView::Accept { wanted: None })
    } else if let Some(arg) = text::after_prefix(input, "/accept "@) {
        (v, CommandView::Accept { wanted: files::file_id(text::trimmed(arg)) })
    } else if let Some(arg) = text::after_prefix(input, "/theme "@) {
        (
            AppView { theme: app::theme_of(text::trimmed(arg)), ..v }.told("Theme changed"@, now),
            CommandView::Nothing,
        )
    } else if input.len() > 0 && input[0] == '/' {
        (v.failed("Unknown command"@, now), CommandView::Nothing)
    } else {
        (
            v.broadcasted(CHAT_TYPE_MSG, input).chatted(v.identity.peer_id, v.nick, input, now),
            CommandView::Nothing,
        )
    }
}

fn clear_history(app: &mut AppState)
    ensures
        final(app)@ == (AppView { history: Seq::empty(), ..old(app)@ }),
{
    app.history = VecDeque::new();
    proof {
        assert(app@.history =~= Seq::empty());
    }
}

fn clear_netlog(app: &mut AppState)
    ensures
        final(app)@ == (AppView { netlog: Seq::empty(), ..old(app)@ }),
{
    app.netlog = VecDeque::new();
    proof {
        assert(app@.netlog =~= Seq::empty());
    }
}

fn connect(app: &mut AppState, arg: &[char], now: u64) -> (r: Command)
    ensures
        (final(app)@, r@) == after_connect(old(app)@, arg@, now),
{
    let addr = text::trim(arg);
    if addr.len() == 0 {
        app.emit_error("usage: /connect <host:port|multiaddr>", now);
        return Command::Nothing;
    }
    let addr = text::string_of(addr);
    match net::dial_peer_addr(app, "manual", None, addr.as_str(), false, false, now) {
        Some(plan) => Command::Dial { plan },
        None => Command::Nothing,
    }
}

fn send(app: &mut AppState, arg: &[char], now: u64) -> (r: Command)
    ensures
        (final(app)@, r@) == after_send(old(app)@, arg@, now),
{
    let arg = text::string_of(arg);
    match files::cmd_send_file(app, arg.as_str(), now) {
        Some(path) => Command::Look { path },
        None => Command::Nothing,
    }
}

fn say(app: &mut AppState, input: &str, now: u64)
    ensures
        final(app)@ == old(app)@.broadcasted(CHAT_TYPE_MSG, input@).chatted(
            old(app)@.identity.peer_id,
            old(app)@.nick,
            input@,
            now,
        ),
{
    app.broadcast(CHAT_TYPE_MSG, input);
    let id = app.identity.peer_id.clone();
    let nick = app.nick();
    app.emit_chat(id.as_str(), nick.as_str(), input, now);
}

/// Runs a line that the user submitted: a command, or a message to all peers. `mono` is the reading
/// of a clock that never goes back.
pub fn handle_command(app: &mut AppState, input: &str, public_addr: &str, now: u64, mono: u64) -> (r:
    Command)
    ensures
        (final(app)@, r@) == after_command(old(app)@, input@, public_addr@, now, mono),
        old(app)@.sound() ==> final(app)@.sound(),
{
    proof {
        if app@.sound() {
            law_commands_keep_sound(app@, input@, public_addr@, now, mono);
        }
    }
    if text::str_eq(input, "/quit") || text::str_eq(input, "/exit") {
        app.quit = true;
        return Command::Nothing;
    }
    if text::str_eq(input, "/peers") || text::str_eq(input, "/who") {
        let lines = list_connected(app);
        tell_all(app, &lines, now);
        return Command::Nothing;
    }
    if text::str_eq(input, "/status") {
        let lines = list_status(app, mono);
        tell_all(app, &lines, now);
        return Command::Nothing;
    }
    if text::str_eq(input, "/id") || text::str_eq(input, "/me") {
        let lines = list_id(app, public_addr);
        tell_all(app, &lines, now);
        return Command::Nothing;
    }
    if text::str_eq(input, "/inspect") || text::str_eq(input, "/diag") {
        let lines = list_details(app);
        tell_all(app, &lines, now);
        return Command::Nothing;
    }
    if text::str_eq(input, "/clear") {
        clear_history(app);
        app.emit_system("timeline cleared", now);
        return Command::Nothing;
    }
    if text::str_eq(input, "/log clear") {
        clear_netlog(app);
        app.netlog(NetLevel::Okay, "network console cleared", now);
        return Command::Nothing;
    }
    if text::str_eq(input, "/help") {
        let lines = list_help();
        tell_all(app, &lines, now);
        return Command::Nothing;
    }
    let chars = text::chars_of(input);
    if let Some(arg) = text::strip_prefix(chars.as_slice(), "/connect ") {
        return connect(app, arg, now);
    }
    if let Some(arg) = text::strip_prefix(chars.as_slice(), "/send ") {
        return send(app, arg, now);
    }
    if let Some(arg) = text::strip_prefix(chars.as_slice(), "send ") {
        return send(app, arg, now);
    }
    if text::str_eq(input, "/accept") {
        return Command::Accept { wanted: None };
    }
    if let Some(arg) = text::strip_prefix(chars.as_slice(), "/accept ") {
        return Command::Accept { wanted: files::parse_file_id(text::trim(arg)) };
    }
    if let Some(arg) = text::strip_prefix(chars.as_slice(), "/theme ") {
        let name = text::string_of(text::trim(arg));
        app.theme = app::theme(name.as_str());
        app.emit_system("Theme changed", now);
        return Command::Nothing;
    }
    if chars.len() > 0 && chars[0] == '/' {
        app.emit_error("Unknown command", now);
    } else {
        say(app, input, now);
    }
    Command::Nothing
}

/// Whether a quarter of a second has gone by since the screen was drawn.
pub open spec fn redraw_due(last_render: u64, begun: u64) -> bool {
    begun - last_render >= 250_000_000
}

/// The state after one turn of the user interface, what is needed for it, and whether to draw. The
/// turn had `begun` before it waited for the user.
pub open spec fn after_turn(
    v: AppView,
    action: UiActionView,
    public_addr: Seq<char>,
    last_render: u64,
    begun: u64,
    now: u64,
    mono: u64,
) -> (AppView, CommandView, bool) {
    let due = redraw_due(last_render, begun);
    match action {
        UiActionView::Nothing => (v, CommandView::Nothing, due),
        UiActionView::Redraw => (v, CommandView::Nothing, true),
        UiActionView::Quit => (AppView { quit: true, ..v }, CommandView::Nothing, due),
        UiActionView::Submit(line) => {
            let (w, command) = after_command(v, line, public_addr, now, mono);
            (w, command, true)
        },
    }
}

/// Takes what the user did: hands back what is needed for it, and whether to draw. `last_render`,
/// `begun`, when the turn began, and `mono` are readings of a clock that never goes back.
pub fn ui_turn(
    app: &mut AppState,
    action: UiAction,
    public_addr: &str,
    last_render: u64,
    begun: u64,
    now: u64,
    mono: u64,
) -> (r: (Command, bool))
    ensures
        (final(app)@, r.0@, r.1) == after_turn(
            old(app)@,
            action@,
            public_addr@,
            last_render,
            begun,
            now,
            mono,
        ),
        old(app)@.sound() ==> final(app)@.sound(),
{
    let due = begun >= last_render && begun - last_render >= 250_000_000;
    match action {
        UiAction::Nothing => (Command::Nothing, due),
        UiAction::Redraw => (Command::Nothing, true),
        UiAction::Quit => {
            app.quit = true;
            (Command::Nothing, due)
        },
        UiAction::Submit(line) => {
            let command = handle_command(app, line.as_str(), public_addr, now, mono);
            (command, true)
        },
    }
}

/// Says goodbye to all peers.
pub fn farewell(app: &mut AppState)
    ensures
        final(app)@ == old(app)@.broadcasted(CHAT_TYPE_BYE, ""@),
        old(app)@.sound() ==> final(app)@.sound(),
{
    proof {
        if app@.sound() {
            app::law_peers_keep_sound(app@, CHAT_TYPE_BYE, ""@, 0);
        }
    }
    app.broadcast(CHAT_TYPE_BYE, "");
}

/// The address that this peer gives to others: the one that was asked for, or the one that it
/// listens on.
pub open spec fn given_addr(v: AppView, a: ArgsView) -> Seq<char> {
    match a.public_addr {
        Some(addr) => addr,
        None => net::multiaddr_of(v.lan_ip, v.listen_port, v.identity.peer_id),
    }
}

/// The state after the notices on the rendezvous server that was asked for.
pub open spec fn after_rendezvous_notices(v: AppView, a: ArgsView, now: u64) -> AppView {
    match a.rendezvous {
        None => v,
        Some(server) => {
            let room = rendezvous::token_of(a.room);
            let w = v.logged(
                NetLevel::Info,
                "rendezvous server "@ + server + " room "@ + room,
                now,
            );
            let x = if room.len() == 0 {
                w.failed("rendezvous room cannot be empty"@, now)
            } else if room != a.room {
                w.logged(NetLevel::Warn, "rendezvous room sanitized to "@ + room, now)
            } else {
                w
            };
            let y = if a.public_addr is None {
                x.logged(
                    NetLevel::Warn,
                    "no --public-addr set; advertising local LAN address"@,
                    now,
                )
            } else {
                x
            };
            match addr_warning(given_addr(v, a)) {
                Some(warning) => y.logged(NetLevel::Warn, warning, now),
                None => y,
            }
        },
    }
}

/// The state after the start: the address is known, the user is welcomed, and the log tells what
/// was set up.
pub open spec fn after_startup(
    v: AppView,
    a: ArgsView,
    lan_ip: Seq<char>,
    port: u16,
    now: u64,
) -> AppView {
    let w = AppView { lan_ip, listen_port: port, ..v }.told(
        "Welcome to speer-chat. Type /help for commands."@,
        now,
    ).logged(NetLevel::Okay, "identity ready "@ + v.identity.peer_id, now).logged(
        NetLevel::Okay,
        "tcp listen "@ + lan_ip + ":"@ + text::dec(port as nat),
        now,
    ).logged(NetLevel::Okay, "mDNS service "@ + CHAT_SERVICE_TYPE@, now);
    after_rendezvous_notices(w, a, now)
}

fn note_rendezvous(app: &mut AppState, args: &Args, public_addr: &str, now: u64)
    requires
        public_addr@ == given_addr(old(app)@, args@),
    ensures
        final(app)@ == after_rendezvous_notices(old(app)@, args@, now),
{
    if let Some(server) = &args.rendezvous {
        let room = rendezvous::token(args.room.as_str());
        let line = text::cat4("rendezvous server ", server.as_str(), " room ", room.as_str());
        app.netlog(NetLevel::Info, line.as_str(), now);
        if room.as_str().is_empty() {
            app.emit_error("rendezvous room cannot be empty", now);
        } else if !text::str_eq(room.as_str(), args.room.as_str()) {
            let line = text::cat2("rendezvous room sanitized to ", room.as_str());
            app.netlog(NetLevel::Warn, line.as_str(), now);
        }
        if args.public_addr.is_none() {
            app.netlog(
                NetLevel::Warn,
                "no --public-addr set; advertising local LAN address",
                now,
            );
        }
        if let Some(warning) = public_addr_warning(public_addr) {
            app.netlog(NetLevel::Warn, warning.as_str(), now);
        }
    }
}

/// Starts the chat once the address of this machine is known and a socket listens: hands back the
/// address to give to others.
pub fn startup(app: &mut AppState, args: &Args, lan_ip: String, port: u16, now: u64) -> (r: String)
    ensures
        final(app)@ == after_startup(old(app)@, args@, lan_ip@, port, now),
        r@ == given_addr(final(app)@, args@),
        old(app)@.sound() ==> final(app)@.sound(),
{
    proof {
        if app@.sound() {
            law_startup_keeps_sound(app@, args@, lan_ip@, port, now);
        }
    }
    let ghost v = app@;
    let port_text = text::dec_string(port as u64);
    let listen = text::cat4("tcp listen ", lan_ip.as_str(), ":", port_text.as_str());
    app.lan_ip = lan_ip;
    app.listen_port = port;
    proof {
        assert(app@ =~= AppView { lan_ip: lan_ip@, listen_port: port, ..v });
    }
    let public_addr = match &args.public_addr {
        Some(addr) => addr.clone(),
        None => net::local_multiaddr(app),
    };
    app.emit_system("Welcome to speer-chat. Type /help for commands.", now);
    let ready = text::cat2("identity ready ", app.identity.peer_id.as_str());
    app.netlog(NetLevel::Okay, ready.as_str(), now);
    app.netlog(NetLevel::Okay, listen.as_str(), now);
    let service = text::cat2("mDNS service ", CHAT_SERVICE_TYPE);
    app.netlog(NetLevel::Okay, service.as_str(), now);
    note_rendezvous(app, args, public_addr.as_str(), now);
    public_addr
}

proof fn lemma_told_all_sound(v: AppView, lines: Seq<Seq<char>>, now: u64)
    requires
        v.sound(),
    ensures
        told_all(v, lines, now).sound(),
        told_all(v, lines, now).peers == v.peers,
    decreases lines.len(),
{
    if lines.len() > 0 {
        lemma_told_all_sound(v, lines.drop_last(), now);
        app::law_notices_keep_sound(
            told_all(v, lines.drop_last(), now),
            lines.last(),
            ""@,
            now,
        );
    }
}

/// Whatever the user submits keeps the state sound.
pub proof fn law_commands_keep_sound(
    v: AppView,
    input: Seq<char>,
    public_addr: Seq<char>,
    now: u64,
    mono: u64,
)
    requires
        v.sound(),
    ensures
        after_command(v, input, public_addr, now, mono).0.sound(),
{
    let online = app::online(v.peers);
    lemma_told_all_sound(v, peers_lines(online), now);
    lemma_told_all_sound(v, status_lines(v, mono), now);
    lemma_told_all_sound(v, id_lines(v, public_addr), now);
    lemma_told_all_sound(v, inspect_lines(online), now);
    lemma_told_all_sound(v, help_lines(), now);
    let h = AppView { history: Seq::empty(), ..v };
    assert(h.sound());
    app::law_notices_keep_sound(h, "timeline cleared"@, ""@, now);
    let l = AppView { netlog: Seq::empty(), ..v };
    assert(l.sound());
    app::law_log_keeps_sound(l, NetLevel::Okay, "network console cleared"@, now);
    app::law_notices_keep_sound(v, "usage: /connect <host:port|multiaddr>"@, ""@, now);
    app::law_notices_keep_sound(v, "usage: /send <path>"@, ""@, now);
    app::law_notices_keep_sound(v, "no connected peers for file transfer"@, ""@, now);
    app::law_notices_keep_sound(v, "Unknown command"@, ""@, now);
    if let Some(arg) = text::after_prefix(input, "/connect "@) {
        net::law_request_keeps_sound(
            v,
            "manual"@,
            None,
            text::trimmed(arg),
            false,
            false,
            now,
        );
    }
    if let Some(arg) = text::after_prefix(input, "/theme "@) {
        let t = AppView { theme: app::theme_of(text::trimmed(arg)), ..v };
        assert(t.sound());
        app::law_notices_keep_sound(t, "Theme changed"@, ""@, now);
    }
    app::law_peers_keep_sound(v, CHAT_TYPE_MSG, input, 0);
    let b = v.broadcasted(CHAT_TYPE_MSG, input);
    app::law_note_keeps_sound(b, app::MsgKind::Chat, v.nick, v.identity.peer_id, input, now);
    assert(AppView { quit: true, ..v }.sound());
}

/// A line that is no command, the empty one too, reaches the queue of every peer that takes frames,
/// and no other peer's, and is shown to the user.
pub proof fn law_message_is_queued(
    v: AppView,
    input: Seq<char>,
    public_addr: Seq<char>,
    now: u64,
    mono: u64,
    i: int,
)
    requires
        input.len() > 0 ==> input[0] != '/',
        !text::begins_with(input, "send "@),
        0 <= i < v.peers.len(),
    ensures
        after_command(v, input, public_addr, now, mono).0.peers[i] == (if v.peers[i].online() {
            v.peers[i].queued(CHAT_TYPE_MSG, input)
        } else {
            v.peers[i]
        }),
        after_command(v, input, public_addr, now, mono).0.history.last().text == input,
{
    reveal_strlit("/quit");
    reveal_strlit("/exit");
    reveal_strlit("/peers");
    reveal_strlit("/who");
    reveal_strlit("/status");
    reveal_strlit("/id");
    reveal_strlit("/me");
    reveal_strlit("/inspect");
    reveal_strlit("/diag");
    reveal_strlit("/clear");
    reveal_strlit("/log clear");
    reveal_strlit("/help");
    reveal_strlit("/connect ");
    reveal_strlit("/send ");
    reveal_strlit("/accept");
    reveal_strlit("/accept ");
    reveal_strlit("/theme ");
    assert(forall|n: int| 0 < n <= input.len() ==> (#[trigger] input.take(n))[0] == input[0]);
}

/// The start keeps the state sound.
pub proof fn law_startup_keeps_sound(
    v: AppView,
    a: ArgsView,
    lan_ip: Seq<char>,
    port: u16,
    now: u64,
)
    requires
        v.sound(),
    ensures
        after_startup(v, a, lan_ip, port, now).sound(),
{
    let s = AppView { lan_ip, listen_port: port, ..v };
    assert(s.sound());
    app::law_notices_keep_sound(s, "Welcome to speer-chat. Type /help for commands."@, ""@, now);
    let w = s.told("Welcome to speer-chat. Type /help for commands."@, now);
    assert forall|u: AppView, level: NetLevel, line: Seq<char>| u.sound() implies (
    #[trigger] u.logged(level, line, now)).sound() by {
        app::law_log_keeps_sound(u, level, line, now);
    }
    assert forall|u: AppView, line: Seq<char>| u.sound() implies (#[trigger] u.failed(
        line,
        now,
    )).sound() by {
        app::law_notices_keep_sound(u, line, ""@, now);
    }
}

}
