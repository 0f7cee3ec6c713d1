//! Discovery: what mDNS finds, what is announced, and connections from outside.
use vstd::prelude::*;
use vstd::string::*;
use vstd::utf8::*;

use crate::app;
use crate::app::{AppState, AppView, NetLevel};
use crate::constants::CHAT_SERVICE_TYPE;
use crate::ffi;
use crate::net;
use crate::net::{DialPlan, DialView};
use crate::text;

verus! {

/// The bytes behind a pointer that may be null, in plain values.
pub open spec fn c_view(bytes: Option<&[u8]>) -> Option<Seq<u8>> {
    match bytes {
        Some(b) => Some(b@),
        None => None,
    }
}

/// The state after mDNS found a peer, and where to dial. Either text may be missing.
pub open spec fn after_discovery(
    v: AppView,
    peer_id: Option<Seq<u8>>,
    multiaddr: Option<Seq<u8>>,
    now: u64,
) -> (AppView, Option<DialView>) {
    match (peer_id, multiaddr) {
        (Some(id), Some(addr)) => net::after_request(
            v,
            "mDNS"@,
            Some(text::reading(id)),
            text::reading(addr),
            true,
            true,
            now,
        ),
        _ => (v, None),
    }
}

/// Takes a peer that mDNS found: tells where to dial. Each peer is dialled once, and of two peers
/// that find each other just one dials.
pub fn on_mdns_discover(
    app: &mut AppState,
    peer_id: Option<&[u8]>,
    multiaddr: Option<&[u8]>,
    now: u64,
) -> (r: Option<DialPlan>)
    ensures
        final(app)@ == after_discovery(old(app)@, c_view(peer_id), c_view(multiaddr), now).0,
        r is Some <==> after_discovery(
            old(app)@,
            c_view(peer_id),
            c_view(multiaddr),
            now,
        ).1 is Some,
        r matches Some(p) ==> after_discovery(
            old(app)@,
            c_view(peer_id),
            c_view(multiaddr),
            now,
        ).1 == Some(p@),
        old(app)@.sound() ==> final(app)@.sound(),
{
    let id = match peer_id {
        Some(b) => text::lossy_text(b),
        None => {
            return None;
        },
    };
    let addr = match multiaddr {
        Some(b) => text::lossy_text(b),
        None => {
            return None;
        },
    };
    net::dial_peer_addr(app, "mDNS", Some(id.as_str()), addr.as_str(), true, true, now)
}

/// What is done each second for the peers that were given at the start: whether to dial them, and
/// the count for the next second. They are dialled every thirty seconds.
pub fn bootstrap_turn(tick: u32) -> (r: (bool, u32))
    requires
        tick < u32::MAX,
    ensures
        r.0 == (tick == 0),
        r.1 == (tick + 1) % 30,
        r.1 < 30,
{
    (tick == 0, (tick + 1) % 30)
}

/// The TXT record that announces this peer: the length of its text, as far as a byte can hold it,
/// and the text.
pub open spec fn txt_record(v: AppView) -> Seq<u8> {
    let b = encode_utf8(
        "dnsaddr="@ + net::multiaddr_of(v.lan_ip, v.listen_port, v.identity.peer_id),
    );
    seq![(if b.len() < 255 {
        b.len() as u8
    } else {
        255u8
    })] + b
}

fn announcement(app: &AppState) -> (r: Vec<u8>)
    ensures
        r@ == txt_record(app@),
{
    let addr = net::local_multiaddr(app);
    let txt = text::cat2("dnsaddr=", addr.as_str());
    let bytes = txt.as_str().as_bytes();
    let mut out: Vec<u8> = Vec::new();
    if bytes.len() < 255 {
        out.push(bytes.len() as u8);
    } else {
        out.push(255u8);
    }
    out.extend_from_slice(bytes);
    proof {
        assert(out@ =~= txt_record(app@));
    }
    out
}

/// How far discovery has come.
#[derive(Clone, Copy, PartialEq, Eq, Structural, Debug)]
pub enum Discovery {
    /// mDNS is being set up.
    Starting,
    /// The service is being registered.
    Registering,
    /// The service was announced last at this reading of the clock.
    Running { announced_at: u64 },
    /// Discovery has ended.
    Over,
}

/// What happened to discovery.
pub enum DiscoveryEvent {
    /// mDNS was set up, with this return code.
    Ready { rc: i32 },
    /// The service was registered, with this return code.
    Registered { rc: i32 },
    /// It is time to look for a connection.
    Turn,
    /// The look for a connection gave this return code, this descriptor and this address.
    Accepted { rc: i32, fd: i32, addr: Vec<i8> },
}

/// What happened to discovery, in plain values.
#[verifier::ext_equal]
pub enum DiscoveryEventView {
    Ready { rc: i32 },
    Registered { rc: i32 },
    Turn,
    Accepted { rc: i32, fd: i32, addr: Seq<i8> },
}

impl View for DiscoveryEvent {
    type V = DiscoveryEventView;

    open spec fn view(&self) -> DiscoveryEventView {
        match *self {
            DiscoveryEvent::Ready { rc } => DiscoveryEventView::Ready { rc },
            DiscoveryEvent::Registered { rc } => DiscoveryEventView::Registered { rc },
            DiscoveryEvent::Turn => DiscoveryEventView::Turn,
            DiscoveryEvent::Accepted { rc, fd, addr } => DiscoveryEventView::Accepted {
                rc,
                fd,
                addr: addr@,
            },
        }
    }
}

/// What discovery has to do.
pub enum DiscoveryAction {
    /// Nothing.
    Nothing,
    /// Register the service on this TCP port with this TXT record.
    Register { port: u16, txt: Vec<u8> },
    /// Listen for what others announce, announce the service, and ask for this name.
    Announce { query: String },
    /// Look for a connection.
    Accept,
    /// Start to work on the connection of this key, or close it where there is none for it; then
    /// announce the service and ask again where that is due, and wait for answers.
    Poll { started: Option<u64>, close: bool, refresh: bool },
    /// Take the service back where it was registered, release mDNS where it was set up, and end.
    End { unregister: bool, release: bool },
}

/// What discovery has to do, in plain values.
#[verifier::ext_equal]
pub enum DiscoveryActionView {
    Nothing,
    Register { port: u16, txt: Seq<u8> },
    Announce { query: Seq<char> },
    Accept,
    Poll { started: Option<u64>, close: bool, refresh: bool },
    End { unregister: bool, release: bool },
}

impl View for DiscoveryAction {
    type V = DiscoveryActionView;

    open spec fn view(&self) -> DiscoveryActionView {
        match *self {
            DiscoveryAction::Nothing => DiscoveryActionView::Nothing,
            DiscoveryAction::Register { port, txt } => DiscoveryActionView::Register {
                port,
                txt: txt@,
            },
            DiscoveryAction::Announce { query } => DiscoveryActionView::Announce { query: query@ },
            DiscoveryAction::Accept => DiscoveryActionView::Accept,
            DiscoveryAction::Poll { started, close, refresh } => DiscoveryActionView::Poll {
                started,
                close,
                refresh,
            },
            DiscoveryAction::End { unregister, release } => DiscoveryActionView::End {
                unregister,
                release,
            },
        }
    }
}

/// Whether a second has gone by since the service was announced.
pub open spec fn refresh_due(announced_at: u64, mono: u64) -> bool {
    mono - announced_at >= 1_000_000_000
}

/// The state after a look for a connection, and what to do.
pub open spec fn after_accept(
    v: AppView,
    announced_at: u64,
    rc: i32,
    fd: i32,
    addr: Seq<i8>,
    now: u64,
    mono: u64,
) -> (AppView, Discovery, DiscoveryActionView) {
    let refresh = refresh_due(announced_at, mono);
    let next = Discovery::Running {
        announced_at: if refresh {
            mono
        } else {
            announced_at
        },
    };
    if ffi::opened((rc, fd)) {
        let from = text::reading(ffi::c_bytes(addr));
        let (w, started) = net::after_start(
            v.logged(NetLevel::Info, "tcp accept "@ + from, now),
            false,
            from,
            now,
        );
        (w, next, DiscoveryActionView::Poll { started, close: started is None, refresh })
    } else {
        (v, next, DiscoveryActionView::Poll { started: None, close: false, refresh })
    }
}

/// The step of discovery for an event; an event out of turn changes nothing.
pub open spec fn after_news(
    v: AppView,
    d: Discovery,
    event: DiscoveryEventView,
    now: u64,
    mono: u64,
) -> (AppView, Discovery, DiscoveryActionView) {
    match (d, event) {
        (Discovery::Starting, DiscoveryEventView::Ready { rc }) => if rc != 0 {
            (
                v.failed("mdns init failed"@, now),
                Discovery::Over,
                DiscoveryActionView::End { unregister: false, release: false },
            )
        } else {
            (
                v,
                Discovery::Registering,
                DiscoveryActionView::Register { port: v.listen_port, txt: txt_record(v) },
            )
        },
        (Discovery::Registering, DiscoveryEventView::Registered { rc }) => if rc != 0 {
            (
                v.failed("mdns register failed"@, now),
                Discovery::Over,
                DiscoveryActionView::End { unregister: false, release: true },
            )
        } else {
            (
                v,
                Discovery::Running { announced_at: mono },
                DiscoveryActionView::Announce { query: CHAT_SERVICE_TYPE@ + ".local"@ },
            )
        },
        (Discovery::Running { announced_at: _ }, DiscoveryEventView::Turn) => if v.quit {
            (
                v,
                Discovery::Over,
                DiscoveryActionView::End { unregister: true, release: true },
            )
        } else {
            (v, d, DiscoveryActionView::Accept)
        },
        (
            Discovery::Running { announced_at },
            DiscoveryEventView::Accepted { rc, fd, addr },
        ) => after_accept(v, announced_at, rc, fd, addr, now, mono),
        _ => (v, d, DiscoveryActionView::Nothing),
    }
}

fn accepted(
    app: &mut AppState,
    announced_at: u64,
    rc: i32,
    fd: i32,
    addr: &[i8],
    now: u64,
    mono: u64,
) -> (r: (Discovery, DiscoveryAction))
    requires
        old(app)@.next_key < u64::MAX,
    ensures
        (final(app)@, r.0, r.1@) == after_accept(
            old(app)@,
            announced_at,
            rc,
            fd,
            addr@,
            now,
            mono,
        ),
{
    let refresh = mono >= announced_at && mono - announced_at >= 1_000_000_000;
    let next = Discovery::Running { announced_at: if refresh { mono } else { announced_at } };
    match ffi::tcp_dial(rc, fd) {
        Some(_) => {
            let from = ffi::c_char_array_to_string(addr);
            let line = text::cat2("tcp accept ", from.as_str());
            app.netlog(NetLevel::Info, line.as_str(), now);
            let started = net::start_peer(app, false, from, now);
            let close = started.is_none();
            (next, DiscoveryAction::Poll { started, close, refresh })
        },
        None => (next, DiscoveryAction::Poll { started: None, close: false, refresh }),
    }
}

/// Takes what happened to discovery, and tells what to do next. `mono` is the reading of a clock that
/// never goes back.
pub fn discovery_step(
    app: &mut AppState,
    discovery: &mut Discovery,
    event: DiscoveryEvent,
    now: u64,
    mono: u64,
) -> (r: DiscoveryAction)
    requires
        old(app)@.next_key < u64::MAX,
    ensures
        (final(app)@, *final(discovery), r@) == after_news(
            old(app)@,
            *old(discovery),
            event@,
            now,
            mono,
        ),
        old(app)@.sound() ==> final(app)@.sound(),
{
    proof {
        if app@.sound() {
            law_discovery_keeps_sound(app@, *discovery, event@, now, mono);
        }
    }
    let (next, action) = match (*discovery, event) {
        (Discovery::Starting, DiscoveryEvent::Ready { rc }) => {
            if rc != 0 {
                app.emit_error("mdns init failed", now);
                (Discovery::Over, DiscoveryAction::End { unregister: false, release: false })
            } else {
                let txt = announcement(app);
                (Discovery::Registering, DiscoveryAction::Register { port: app.listen_port, txt })
            }
        },
        (Discovery::Registering, DiscoveryEvent::Registered { rc }) => {
            if rc != 0 {
                app.emit_error("mdns register failed", now);
                (Discovery::Over, DiscoveryAction::End { unregister: false, release: true })
            } else {
                let query = text::cat2(CHAT_SERVICE_TYPE, ".local");
                (Discovery::Running { announced_at: mono }, DiscoveryAction::Announce { query })
            }
        },
        (Discovery::Running { announced_at }, DiscoveryEvent::Turn) => {
            if app.quit {
                (Discovery::Over, DiscoveryAction::End { unregister: true, release: true })
            } else {
                (Discovery::Running { announced_at }, DiscoveryAction::Accept)
            }
        },
        (Discovery::Running { announced_at }, DiscoveryEvent::Accepted { rc, fd, addr }) => {
            accepted(app, announced_at, rc, fd, addr.as_slice(), now, mono)
        },
        (d, _) => (d, DiscoveryAction::Nothing),
    };
    *discovery = next;
    action
}

/// What happens to discovery keeps the state sound.
pub proof fn law_discovery_keeps_sound(
    v: AppView,
    d: Discovery,
    event: DiscoveryEventView,
    now: u64,
    mono: u64,
)
    requires
        v.sound(),
        v.next_key < u64::MAX,
    ensures
        after_news(v, d, event, now, mono).0.sound(),
{
    app::law_notices_keep_sound(v, "mdns init failed"@, ""@, now);
    app::law_notices_keep_sound(v, "mdns register failed"@, ""@, now);
    if let DiscoveryEventView::Accepted { rc, fd, addr } = event {
        let from = text::reading(ffi::c_bytes(addr));
        let line = "tcp accept "@ + from;
        app::law_log_keeps_sound(v, NetLevel::Info, line, now);
        let w = v.logged(NetLevel::Info, line, now);
        net::law_slot_is_released(w, false, from, None, now, now);
    }
}

/// A peer that hears what another one announces dials it at the address that it listens on, unless
/// it is connected to it, has tried before, or leaves the call to the other side.
pub proof fn law_announced_is_dialled(v: AppView, other: AppView, now: u64)
    requires
        other.lan_ip.len() > 0,
        !other.lan_ip.contains('/'),
        other.lan_ip != "tcp"@,
        net::may_dial(v, other.identity.peer_id, true),
        !v.attempted.contains("peer:"@ + other.identity.peer_id),
        !net::knows_addr(v, other.lan_ip + ":"@ + text::dec(other.listen_port as nat)),
    ensures
        after_discovery(
            v,
            Some(encode_utf8(other.identity.peer_id)),
            Some(
                encode_utf8(
                    net::multiaddr_of(other.lan_ip, other.listen_port, other.identity.peer_id),
                ),
            ),
            now,
        ).1 == Some(
            DialView {
                host: other.lan_ip,
                port: other.listen_port,
                addr: other.lan_ip + ":"@ + text::dec(other.listen_port as nat),
            },
        ),
{
    let id = other.identity.peer_id;
    text::law_reading(id);
    text::law_reading(net::multiaddr_of(other.lan_ip, other.listen_port, id));
    net::law_multiaddr_round_trip(other.lan_ip, other.listen_port, id);
    assert(net::remembering(v, "peer:"@ + id).peers == v.peers);
}

}
