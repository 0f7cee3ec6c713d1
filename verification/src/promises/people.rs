//! Who is dialled, who is told what, and who stays in the list.
use vstd::prelude::*;
use vstd::string::*;
use vstd::utf8::*;

use crate::app;
use crate::app::{AppView, MsgKind, NetLevel, NetView, OutView, PeerView};
use crate::discovery;
use crate::discovery::{Discovery, DiscoveryActionView, DiscoveryEventView};
use crate::ffi;
use crate::net;
use crate::net::{DialView, WorkerError};
use crate::promises::letters;
use crate::promises::links;
use crate::text;

verus! {

/// Whether one sequence of bytes comes before another in the order of a dictionary: at the first
/// place where they differ it holds the smaller byte, or it ends there.
pub open spec fn sorts_before(a: Seq<u8>, b: Seq<u8>) -> bool {
    exists|k: int|
        0 <= k <= a.len() && k < b.len() && #[trigger] a.take(k) == b.take(k) && (k == a.len()
            || a[k] < b[k])
}

proof fn lemma_order(a: Seq<u8>, b: Seq<u8>)
    ensures
        net::before(a, b) == sorts_before(a, b),
    decreases a.len(),
{
    if b.len() > 0 && a.len() == 0 {
        assert(a.take(0) == b.take(0));
    } else if b.len() > 0 && a[0] != b[0] {
        assert(a.take(0) == b.take(0));
        if sorts_before(a, b) {
            let k = choose|k: int|
                0 <= k <= a.len() && k < b.len() && #[trigger] a.take(k) == b.take(k) && (k
                    == a.len() || a[k] < b[k]);
            if k > 0 {
                assert(a.take(k)[0] == b.take(k)[0]);
            }
        }
    } else if b.len() > 0 {
        let x = a.skip(1);
        let y = b.skip(1);
        lemma_order(x, y);
        if sorts_before(x, y) {
            let k = choose|k: int|
                0 <= k <= x.len() && k < y.len() && #[trigger] x.take(k) == y.take(k) && (k
                    == x.len() || x[k] < y[k]);
            assert(a.take(k + 1) == b.take(k + 1)) by {
                assert forall|j: int| 0 <= j < k + 1 implies a[j] == b[j] by {
                    if j > 0 {
                        assert(x.take(k)[j - 1] == y.take(k)[j - 1]);
                    }
                }
            }
        }
        if sorts_before(a, b) {
            let k = choose|k: int|
                0 <= k <= a.len() && k < b.len() && #[trigger] a.take(k) == b.take(k) && (k
                    == a.len() || a[k] < b[k]);
            assert(k > 0);
            assert(x.take(k - 1) == y.take(k - 1)) by {
                assert forall|j: int| 0 <= j < k - 1 implies x[j] == y[j] by {
                    assert(a.take(k)[j + 1] == b.take(k)[j + 1]);
                }
            }
        }
    }
}

/// Ids are ordered as in a dictionary of their bytes.
pub proof fn law_ids_are_ordered(a: Seq<char>, b: Seq<char>)
    ensures
        net::text_before(a, b) == sorts_before(encode_utf8(a), encode_utf8(b)),
{
    lemma_order(encode_utf8(a), encode_utf8(b));
}

/// A peer that is named by its id is dialled at the address that is given for it unless there is a
/// reason against it: it is this peer, it is connected already, the address is, it was tried
/// before, or it is the other side's turn to dial. How many others are connected is no reason.
pub proof fn law_new_peer_is_dialled(
    v: AppView,
    source: Seq<char>,
    id: Seq<char>,
    addr: Seq<char>,
    host: Seq<char>,
    port: u16,
    tie_break: bool,
    remember: bool,
    now: u64,
)
    requires
        id.len() > 0,
        id != v.identity.peer_id,
        tie_break ==> !sorts_before(encode_utf8(id), encode_utf8(v.identity.peer_id)),
        remember ==> !v.attempted.contains("peer:"@ + id),
        net::address_of(addr) == Some((host, port)),
        forall|i: int|
            0 <= i < v.peers.len() && (#[trigger] v.peers[i]).info.handshake_done
                && !v.peers[i].dead ==> v.peers[i].info.remote_pid_full != id
                && v.peers[i].info.addr != host + ":"@ + text::dec(port as nat),
    ensures
        ({
            let (w, plan) = net::after_request(
                v,
                source,
                Some(id),
                addr,
                tie_break,
                remember,
                now,
            );
            &&& plan == Some(DialView { host, port, addr: host + ":"@ + text::dec(port as nat) })
            &&& w.peers == v.peers
            &&& w.history == v.history
            &&& w.attempted == if remember {
                v.attempted.insert("peer:"@ + id)
            } else {
                v.attempted
            }
        }),
{
    law_ids_are_ordered(id, v.identity.peer_id);
}

/// A peer of which no id is known is dialled at an address that no connection has, unless it was
/// tried before.
pub proof fn law_new_address_is_dialled(
    v: AppView,
    source: Seq<char>,
    addr: Seq<char>,
    host: Seq<char>,
    port: u16,
    tie_break: bool,
    remember: bool,
    now: u64,
)
    requires
        remember ==> !v.attempted.contains("addr:"@ + (host + ":"@ + text::dec(port as nat))),
        net::address_of(addr) == Some((host, port)),
        forall|i: int|
            0 <= i < v.peers.len() && (#[trigger] v.peers[i]).info.handshake_done
                && !v.peers[i].dead ==> v.peers[i].info.addr != host + ":"@ + text::dec(
                port as nat,
            ),
    ensures
        ({
            let (w, plan) = net::after_request(v, source, None, addr, tie_break, remember, now);
            &&& plan == Some(DialView { host, port, addr: host + ":"@ + text::dec(port as nat) })
            &&& w.peers == v.peers
            &&& w.history == v.history
            &&& w.attempted == if remember {
                v.attempted.insert("addr:"@ + (host + ":"@ + text::dec(port as nat)))
            } else {
                v.attempted
            }
        }),
{
}

/// Nobody is dialled twice at a time, and nobody dials itself: a request gives nothing to dial and
/// changes nothing where it names this peer, nobody, or one that is connected, or where it is the
/// other side's turn.
pub proof fn law_no_second_connection(
    v: AppView,
    source: Seq<char>,
    id: Seq<char>,
    addr: Seq<char>,
    tie_break: bool,
    remember: bool,
    now: u64,
)
    requires
        id.len() == 0 || id == v.identity.peer_id || (exists|i: int|
            0 <= i < v.peers.len() && (#[trigger] v.peers[i]).info.handshake_done
                && !v.peers[i].dead && v.peers[i].info.remote_pid_full == id) || (tie_break
            && sorts_before(encode_utf8(id), encode_utf8(v.identity.peer_id))),
    ensures
        net::after_request(v, source, Some(id), addr, tie_break, remember, now) == (
            v,
            None::<DialView>,
        ),
{
    law_ids_are_ordered(id, v.identity.peer_id);
    if exists|i: int|
        0 <= i < v.peers.len() && (#[trigger] v.peers[i]).info.handshake_done && !v.peers[i].dead
            && v.peers[i].info.remote_pid_full == id {
        let i = choose|i: int|
            0 <= i < v.peers.len() && (#[trigger] v.peers[i]).info.handshake_done
                && !v.peers[i].dead && v.peers[i].info.remote_pid_full == id;
        assert(v.peers[i].online());
    }
}

/// Where a connection to an address stands, it is not dialled again, whoever is asked for; and what
/// is no address is not dialled.
pub proof fn law_no_second_dial(
    v: AppView,
    source: Seq<char>,
    id: Option<Seq<char>>,
    addr: Seq<char>,
    tie_break: bool,
    remember: bool,
    now: u64,
)
    requires
        net::address_of(addr) matches Some((host, port)) ==> exists|i: int|
            0 <= i < v.peers.len() && (#[trigger] v.peers[i]).info.handshake_done
                && !v.peers[i].dead && v.peers[i].info.addr == host + ":"@ + text::dec(
                port as nat,
            ),
    ensures
        ({
            let (w, plan) = net::after_request(v, source, id, addr, tie_break, remember, now);
            plan is None && w.peers == v.peers && w.history == v.history
        }),
{
    if let Some((host, port)) = net::address_of(addr) {
        let to = host + ":"@ + text::dec(port as nat);
        let i = choose|i: int|
            0 <= i < v.peers.len() && (#[trigger] v.peers[i]).info.handshake_done
                && !v.peers[i].dead && v.peers[i].info.addr == to;
        assert(v.peers[i].online());
    }
}

/// What another peer announces on the network is a request to dial it under its id, with the tie
/// break, and only once; what lacks the id or the address is none.
pub proof fn law_announcement_is_a_request(
    v: AppView,
    id: Seq<char>,
    addr: Seq<char>,
    now: u64,
    junk: Option<Seq<u8>>,
)
    ensures
        discovery::after_discovery(v, Some(encode_utf8(id)), Some(encode_utf8(addr)), now)
            == net::after_request(v, "mDNS"@, Some(id), addr, true, true, now),
        discovery::after_discovery(v, None, junk, now) == (v, None::<DialView>),
        discovery::after_discovery(v, junk, None, now) == (v, None::<DialView>),
{
    text::law_reading(id);
    text::law_reading(addr);
}

/// A peer hears of another one that listens at `host` and dials it there, with however many others
/// it is connected, unless there is a reason against it.
pub proof fn law_announced_peer_is_dialled(
    v: AppView,
    id: Seq<char>,
    host: Seq<char>,
    port: u16,
    now: u64,
)
    requires
        id.len() > 0,
        id != v.identity.peer_id,
        !sorts_before(encode_utf8(id), encode_utf8(v.identity.peer_id)),
        !v.attempted.contains("peer:"@ + id),
        host.len() > 0,
        !host.contains('/'),
        host != "tcp"@,
        forall|i: int|
            0 <= i < v.peers.len() && (#[trigger] v.peers[i]).info.handshake_done
                && !v.peers[i].dead ==> v.peers[i].info.remote_pid_full != id
                && v.peers[i].info.addr != host + ":"@ + text::dec(port as nat),
    ensures
        discovery::after_discovery(
            v,
            Some(encode_utf8(id)),
            Some(
                encode_utf8(
                    "/ip4/"@ + host + "/tcp/"@ + text::dec(port as nat) + "/p2p/"@ + id,
                ),
            ),
            now,
        ).1 == Some(DialView { host, port, addr: host + ":"@ + text::dec(port as nat) }),
{
    let addr = "/ip4/"@ + host + "/tcp/"@ + text::dec(port as nat) + "/p2p/"@ + id;
    law_announcement_is_a_request(v, id, addr, now, None);
    net::law_multiaddr_round_trip(host, port, id);
    law_new_peer_is_dialled(v, "mDNS"@, id, addr, host, port, true, true, now);
}

/// A new connection stands at the end of the list with a key of its own, in the role and with the
/// address that it was started with, not yet greeted and with nothing to send; the others stay as
/// they were. With sixteen there is no place for another.
pub proof fn law_connection_starts(v: AppView, initiator: bool, addr: Seq<char>, now: u64)
    requires
        v.next_key < u64::MAX,
    ensures
        ({
            let (w, key) = net::after_start(v, initiator, addr, now);
            if v.peers.len() < 16 {
                &&& key == Some(v.next_key)
                &&& w.next_key == v.next_key + 1
                &&& w.peers.drop_last() == v.peers
                &&& w.peers.len() == v.peers.len() + 1
                &&& w.peers.last().key == v.next_key
                &&& w.peers.last().info.initiator == initiator
                &&& w.peers.last().info.addr == addr
                &&& w.peers.last().info.remote_pid_full.len() == 0
                &&& w.peers.last().info.remote_nick.len() == 0
                &&& !w.peers.last().info.handshake_done
                &&& !w.peers.last().dead
                &&& w.peers.last().out.len() == 0
                &&& w.history == v.history
                &&& w.netlog == v.netlog
            } else {
                &&& key is None
                &&& w.peers == v.peers
                &&& w.next_key == v.next_key
                &&& w.history.last().kind == MsgKind::Error
            }
        }),
{
    let w = net::after_start(v, initiator, addr, now).0;
    if v.peers.len() < 16 {
        assert(w.peers.drop_last() =~= v.peers);
    }
}

/// A dial that succeeded starts a connection on which this side is the one that dialled, to the
/// address of the plan; one that failed starts none.
pub proof fn law_dial_starts_a_connection(v: AppView, plan: DialView, opened: bool, now: u64)
    requires
        v.next_key < u64::MAX,
    ensures
        ({
            let (w, key) = net::after_dial(v, plan, opened, now);
            &&& opened && v.peers.len() < 16 ==> key == Some(v.next_key) && w.peers.drop_last()
                == v.peers && w.peers.last().key == v.next_key && w.peers.last().info.initiator
                && w.peers.last().info.addr == plan.addr
            &&& opened && v.peers.len() >= 16 ==> key is None && w.peers == v.peers
            &&& !opened ==> key is None && w.peers == v.peers && w.history == v.history
        }),
{
    law_connection_starts(v, true, plan.addr, now);
}

proof fn lemma_without_key(peers: Seq<PeerView>, key: u64)
    ensures
        app::without_key(peers, key) == peers.filter(|p: PeerView| p.key != key),
    decreases peers.len(),
{
    reveal(Seq::filter);
    if peers.len() > 0 {
        lemma_without_key(peers.drop_last(), key);
    }
}

/// When a connection ends, it alone leaves the list: the others stay, in their order.
pub proof fn law_only_the_ended_leaves(
    v: AppView,
    key: u64,
    fault: Option<WorkerError>,
    now: u64,
)
    ensures
        net::after_end(v, key, fault, now).peers == v.peers.filter(|p: PeerView| p.key != key),
        v.dropped(key).peers == v.peers.filter(|p: PeerView| p.key != key),
        v.dropped(key).history == v.history,
        fault is None ==> net::after_end(v, key, fault, now).history == v.history,
        net::after_end(v, key, fault, now).rx == v.rx,
        net::after_end(v, key, fault, now).tx == v.tx,
        net::after_end(v, key, fault, now).attempted == v.attempted,
{
    lemma_without_key(v.peers, key);
}

/// The connected peers are those with a finished handshake that are not dead, in their order.
pub proof fn law_connected_peers(peers: Seq<PeerView>)
    ensures
        app::online(peers) == peers.filter(|p: PeerView| p.info.handshake_done && !p.dead),
    decreases peers.len(),
{
    reveal(Seq::filter);
    if peers.len() > 0 {
        law_connected_peers(peers.drop_last());
    }
}

/// What is sent to all goes to the end of the queue of every connected peer, and to no other; and
/// nothing else changes.
pub proof fn law_all_are_told(v: AppView, kind: u32, text: Seq<char>, i: int)
    requires
        0 <= i < v.peers.len(),
    ensures
        ({
            let w = v.broadcasted(kind, text);
            &&& w.peers.len() == v.peers.len()
            &&& w.peers[i].key == v.peers[i].key
            &&& w.peers[i].info == v.peers[i].info
            &&& w.peers[i].dead == v.peers[i].dead
            &&& w.peers[i].out == if v.peers[i].info.handshake_done && !v.peers[i].dead {
                v.peers[i].out.push(OutView { kind, text })
            } else {
                v.peers[i].out
            }
            &&& w.history == v.history
            &&& w.netlog == v.netlog
            &&& w.rx == v.rx
            &&& w.tx == v.tx
            &&& w.quit == v.quit
        }),
{
}

/// A new line of the chat is the last one; the others stay, but for the oldest where there are a
/// thousand. Nothing else changes.
pub proof fn law_line_is_added(
    v: AppView,
    kind: MsgKind,
    nick: Seq<char>,
    pid: Seq<char>,
    text: Seq<char>,
    now: u64,
)
    ensures
        ({
            let w = v.noted(kind, nick, pid, text, now);
            &&& w.history.last().kind == kind
            &&& w.history.last().timestamp == now
            &&& w.history.last().nick == nick
            &&& w.history.last().text == text
            &&& v.history.len() < 1000 ==> w.history.drop_last() == v.history
            &&& v.history.len() >= 1000 ==> w.history.drop_last() == v.history.skip(1)
            &&& w == (AppView { history: w.history, ..v })
        }),
{
    let w = v.noted(kind, nick, pid, text, now);
    assert(v.history.len() < 1000 ==> w.history.drop_last() =~= v.history);
    assert(v.history.len() >= 1000 ==> w.history.drop_last() =~= v.history.skip(1));
}

/// A new entry of the network log is the last one; the others stay, but for the oldest where there
/// are two hundred and fifty-six. Nothing else changes.
pub proof fn law_entry_is_added(v: AppView, level: NetLevel, text: Seq<char>, now: u64)
    ensures
        ({
            let w = v.logged(level, text, now);
            &&& w.netlog.last() == (NetView { timestamp: now, level, text })
            &&& v.netlog.len() < 256 ==> w.netlog.drop_last() == v.netlog
            &&& v.netlog.len() >= 256 ==> w.netlog.drop_last() == v.netlog.skip(1)
            &&& w == (AppView { netlog: w.netlog, ..v })
        }),
{
    let w = v.logged(level, text, now);
    assert(v.netlog.len() < 256 ==> w.netlog.drop_last() =~= v.netlog);
    assert(v.netlog.len() >= 256 ==> w.netlog.drop_last() =~= v.netlog.skip(1));
}

/// The notices to the user show up both in the chat, under their kind, and in the network log.
pub proof fn law_notices_are_shown(v: AppView, a: Seq<char>, b: Seq<char>, now: u64)
    ensures
        v.told(a, now).history.last().kind == MsgKind::System,
        v.told(a, now).history.last().text == a,
        v.told(a, now).netlog.last() == (NetView { timestamp: now, level: NetLevel::Info, text: a }),
        v.failed(a, now).history.last().kind == MsgKind::Error,
        v.failed(a, now).history.last().text == a,
        v.failed(a, now).netlog.last().level == NetLevel::Error,
        v.failed(a, now).netlog.last().text == a,
        v.joined(a, b, now).history.last().kind == MsgKind::Join,
        v.joined(a, b, now).history.last().nick == a,
        v.joined(a, b, now).history.last().text == a + " joined ("@ + b + ")"@,
        v.joined(a, b, now).netlog.last().level == NetLevel::Okay,
        v.left(a, now).history.last().kind == MsgKind::Leave,
        v.left(a, now).history.last().nick == a,
        v.left(a, now).history.last().text == a + " left"@,
        v.left(a, now).netlog.last().level == NetLevel::Warn,
        v.chatted(b, a, b, now).history.last().kind == MsgKind::Chat,
        v.chatted(b, a, b, now).history.last().nick == a,
        v.chatted(b, a, b, now).history.last().text == b,
        v.told(a, now).peers == v.peers && v.failed(a, now).peers == v.peers && v.joined(
            a,
            b,
            now,
        ).peers == v.peers && v.left(a, now).peers == v.peers,
{
    law_line_is_added(v, MsgKind::System, ""@, ""@, a, now);
    law_line_is_added(v, MsgKind::Error, ""@, ""@, a, now);
}

/// A state that is sound holds no more than its limits and numbers its connections apart.
pub proof fn law_sound_state(v: AppView, i: int, j: int)
    requires
        v.sound(),
    ensures
        v.history.len() <= 1000,
        v.netlog.len() <= 256,
        v.peers.len() <= 16,
        v.rx.len() <= 8,
        0 <= i < v.peers.len() ==> v.peers[i].key < v.next_key,
        0 <= i < v.peers.len() && 0 <= j < v.peers.len() && i != j ==> v.peers[i].key
            != v.peers[j].key,
        0 <= i < v.rx.len() && 0 <= j < v.rx.len() && i != j && v.rx[i].file is Some
            ==> v.rx[i].file != v.rx[j].file,
{
    if i < j && 0 <= i && j < v.rx.len() {
        assert(v.rx[i].file is Some ==> v.rx[i].file != v.rx[j].file);
    } else if j < i && 0 <= j && i < v.rx.len() {
        assert(v.rx[j].file is Some ==> v.rx[j].file != v.rx[i].file);
    }
}

/// While peers are looked for, a connection that comes in is started as one on which the other side
/// dialled; where there is no place for it, it is closed; and once a second the announcement is due.
pub proof fn law_incoming_connection(
    v: AppView,
    announced_at: u64,
    rc: i32,
    fd: i32,
    addr: Seq<i8>,
    now: u64,
    mono: u64,
)
    requires
        v.next_key < u64::MAX,
    ensures
        ({
            let (w, d, action) = discovery::after_news(
                v,
                Discovery::Running { announced_at },
                DiscoveryEventView::Accepted { rc, fd, addr },
                now,
                mono,
            );
            let refresh = mono >= announced_at + 1_000_000_000;
            &&& d == (Discovery::Running { announced_at: if refresh { mono } else { announced_at } })
            &&& rc == 0 && fd >= 0 && v.peers.len() < 16 ==> action == (DiscoveryActionView::Poll {
                started: Some(v.next_key),
                close: false,
                refresh,
            }) && w.peers.drop_last() == v.peers && w.peers.last().key == v.next_key
                && !w.peers.last().info.initiator && w.peers.last().info.addr == text::reading(
                ffi::c_bytes(addr),
            )
            &&& rc == 0 && fd >= 0 && v.peers.len() >= 16 ==> action == (DiscoveryActionView::Poll {
                started: None,
                close: true,
                refresh,
            }) && w.peers == v.peers
            &&& rc != 0 || fd < 0 ==> w == v && action == (DiscoveryActionView::Poll {
                started: None,
                close: false,
                refresh,
            })
        }),
{
    let from = text::reading(ffi::c_bytes(addr));
    law_connection_starts(
        v.logged(NetLevel::Info, "tcp accept "@ + from, now),
        false,
        from,
        now,
    );
}

/// Looking for peers first announces this one: under the port on which it listens, with a record
/// that holds its length and the address under which others reach it. It goes on until the chat
/// quits, and it cleans up what it had set up by then.
pub proof fn law_discovery_goes_its_way(
    v: AppView,
    announced_at: u64,
    rc: i32,
    now: u64,
    mono: u64,
)
    ensures
        ({
            let (w, d, action) = discovery::after_news(
                v,
                Discovery::Starting,
                DiscoveryEventView::Ready { rc },
                now,
                mono,
            );
            let record = encode_utf8(
                "dnsaddr="@ + ("/ip4/"@ + v.lan_ip + "/tcp/"@ + text::dec(v.listen_port as nat)
                    + "/p2p/"@ + v.identity.peer_id),
            );
            &&& rc == 0 ==> w == v && d == Discovery::Registering && (action matches
                DiscoveryActionView::Register { port, txt } && port == v.listen_port && txt.skip(1)
                == record && (record.len() < 255 ==> txt[0] == record.len()))
            &&& rc != 0 ==> d == Discovery::Over && action == (DiscoveryActionView::End {
                unregister: false,
                release: false,
            }) && w.history.last().kind == MsgKind::Error
        }),
        ({
            let (w, d, action) = discovery::after_news(
                v,
                Discovery::Registering,
                DiscoveryEventView::Registered { rc },
                now,
                mono,
            );
            &&& rc == 0 ==> w == v && d == (Discovery::Running { announced_at: mono }) && action == (
            DiscoveryActionView::Announce { query: "_speer-chat._tcp"@ + ".local"@ })
            &&& rc != 0 ==> d == Discovery::Over && action == (DiscoveryActionView::End {
                unregister: false,
                release: true,
            }) && w.history.last().kind == MsgKind::Error
        }),
        discovery::after_news(
            v,
            Discovery::Running { announced_at },
            DiscoveryEventView::Turn,
            now,
            mono,
        ) == (if v.quit {
            (v, Discovery::Over, DiscoveryActionView::End { unregister: true, release: true })
        } else {
            (v, Discovery::Running { announced_at }, DiscoveryActionView::Accept)
        }),
{
    let record = encode_utf8(
        "dnsaddr="@ + ("/ip4/"@ + v.lan_ip + "/tcp/"@ + text::dec(v.listen_port as nat) + "/p2p/"@
            + v.identity.peer_id),
    );
    assert(discovery::txt_record(v).skip(1) =~= record);
    law_notices_are_shown(v, "mdns init failed"@, ""@, now);
    law_notices_are_shown(v, "mdns register failed"@, ""@, now);
}

proof fn lemma_marked_address(m: Seq<char>, host: Seq<char>, port: u16, tail: Seq<char>)
    requires
        2 < m.len() < 7,
        m[0] == '/' && m[1] != 't' && m.last() == '/',
        forall|j: int| 0 < j < m.len() - 1 ==> m[j] != '/',
        host.len() > 0,
        !host.contains('/'),
        host != "tcp"@,
        tail.len() > 0 ==> tail[0] == '/' && !text::is_space(tail.last()),
        net::host_of(m + host) == Some(host),
    ensures
        net::address_of(m + host + "/tcp/"@ + text::dec(port as nat) + tail) == Some((host, port)),
{
    reveal_strlit("/tcp/");
    reveal_strlit("tcp");
    let d = text::dec(port as nat);
    let v = m + host + "/tcp/"@ + d + tail;
    let none = Seq::<char>::empty();
    text::law_number_of_dec(port as nat, u16::MAX as nat);
    assert(text::is_dec_digit(d[d.len() - 1]));
    assert(v[0] == '/');
    assert(v.last() == if tail.len() > 0 {
        tail.last()
    } else {
        d[d.len() - 1]
    });
    assert(none + v + none =~= v);
    letters::law_trimmed(none, v, none);
    let k = (m.len() + host.len()) as int;
    let n = m.len() as int;
    assert(v.subrange(k, k + 5) =~= "/tcp/"@);
    assert forall|j: int| 0 <= j < k implies !text::stands_at(v, "/tcp/"@, j) by {
        if text::stands_at(v, "/tcp/"@, j) {
            let w = v.subrange(j, j + 5);
            assert(w[0] == '/' && w[1] == 't' && w[2] == 'c' && w[3] == 'p' && w[4] == '/');
            assert(w[0] == v[j] && w[1] == v[j + 1] && w[2] == v[j + 2] && w[3] == v[j + 3] && w[4]
                == v[j + 4]);
            if j >= n {
                assert(v[j] == host[j - n]);
                assert(host.contains(host[j - n]));
            } else if j == n - 1 {
                if host.len() > 3 {
                    assert(v[n + 3] == host[3]);
                    assert(host.contains(host[3]));
                } else if host.len() == 3 {
                    assert(v[n] == host[0] && v[n + 1] == host[1] && v[n + 2] == host[2]);
                    assert(host =~= "tcp"@);
                } else if host.len() == 2 {
                    assert(v[n + 2] == '/');
                } else {
                    assert(v[n + 1] == '/');
                }
            } else if j == 0 {
                assert(v[1] == m[1]);
            } else {
                assert(v[j] == m[j]);
            }
        }
    }
    text::lemma_first_match(v, "/tcp/"@, k);
    assert(v.take(k) =~= m + host);
    let rest = v.skip(k + 5);
    assert(rest =~= d + tail);
    assert forall|j: int| 0 <= j < d.len() implies d[j] != '/' by {
        assert(text::is_dec_digit(d[j]));
    }
    if tail.len() > 0 {
        assert(rest =~= d.push('/') + tail.skip(1));
        letters::law_cut_at_the_first(d, tail.skip(1), '/');
    } else {
        assert(rest =~= d);
        letters::law_cut_at_the_first(d, d, '/');
    }
}

proof fn lemma_ip4_form(host: Seq<char>, port: u16, tail: Seq<char>)
    requires
        host.len() > 0,
        !host.contains('/'),
        host != "tcp"@,
        tail.len() > 0 ==> tail[0] == '/' && !text::is_space(tail.last()),
    ensures
        net::address_of("/ip4/"@ + host + "/tcp/"@ + text::dec(port as nat) + tail) == Some(
            (host, port),
        ),
{
    let s = "/ip4/"@ + host;
    reveal_strlit("/ip4/");
    letters::law_behind_a_prefix("/ip4/"@, host);
    lemma_marked_address("/ip4/"@, host, port, tail);
}

proof fn lemma_ip6_form(host: Seq<char>, port: u16, tail: Seq<char>)
    requires
        host.len() > 0,
        !host.contains('/'),
        host != "tcp"@,
        tail.len() > 0 ==> tail[0] == '/' && !text::is_space(tail.last()),
    ensures
        net::address_of("/ip6/"@ + host + "/tcp/"@ + text::dec(port as nat) + tail) == Some(
            (host, port),
        ),
{
    let s = "/ip6/"@ + host;
    reveal_strlit("/ip6/");
    letters::law_behind_a_prefix("/ip6/"@, host);
    reveal_strlit("/ip4/");
    assert(s[3] == '6');
    lemma_other_marker(s, "/ip4/"@, 3);
    lemma_marked_address("/ip6/"@, host, port, tail);
}

proof fn lemma_dns_form(host: Seq<char>, port: u16, tail: Seq<char>)
    requires
        host.len() > 0,
        !host.contains('/'),
        host != "tcp"@,
        tail.len() > 0 ==> tail[0] == '/' && !text::is_space(tail.last()),
    ensures
        net::address_of("/dns/"@ + host + "/tcp/"@ + text::dec(port as nat) + tail) == Some(
            (host, port),
        ),
{
    let s = "/dns/"@ + host;
    reveal_strlit("/dns/");
    letters::law_behind_a_prefix("/dns/"@, host);
    reveal_strlit("/ip4/");
    assert(s[1] == 'd');
    lemma_other_marker(s, "/ip4/"@, 1);
    reveal_strlit("/ip6/");
    assert(s[1] == 'd');
    lemma_other_marker(s, "/ip6/"@, 1);
    lemma_marked_address("/dns/"@, host, port, tail);
}

proof fn lemma_dns4_form(host: Seq<char>, port: u16, tail: Seq<char>)
    requires
        host.len() > 0,
        !host.contains('/'),
        host != "tcp"@,
        tail.len() > 0 ==> tail[0] == '/' && !text::is_space(tail.last()),
    ensures
        net::address_of("/dns4/"@ + host + "/tcp/"@ + text::dec(port as nat) + tail) == Some(
            (host, port),
        ),
{
    let s = "/dns4/"@ + host;
    reveal_strlit("/dns4/");
    letters::law_behind_a_prefix("/dns4/"@, host);
    reveal_strlit("/ip4/");
    assert(s[1] == 'd');
    lemma_other_marker(s, "/ip4/"@, 1);
    reveal_strlit("/ip6/");
    assert(s[1] == 'd');
    lemma_other_marker(s, "/ip6/"@, 1);
    reveal_strlit("/dns/");
    assert(s[4] == '4');
    lemma_other_marker(s, "/dns/"@, 4);
    lemma_marked_address("/dns4/"@, host, port, tail);
}

proof fn lemma_dns6_form(host: Seq<char>, port: u16, tail: Seq<char>)
    requires
        host.len() > 0,
        !host.contains('/'),
        host != "tcp"@,
        tail.len() > 0 ==> tail[0] == '/' && !text::is_space(tail.last()),
    ensures
        net::address_of("/dns6/"@ + host + "/tcp/"@ + text::dec(port as nat) + tail) == Some(
            (host, port),
        ),
{
    let s = "/dns6/"@ + host;
    reveal_strlit("/dns6/");
    letters::law_behind_a_prefix("/dns6/"@, host);
    reveal_strlit("/ip4/");
    assert(s[1] == 'd');
    lemma_other_marker(s, "/ip4/"@, 1);
    reveal_strlit("/ip6/");
    assert(s[1] == 'd');
    lemma_other_marker(s, "/ip6/"@, 1);
    reveal_strlit("/dns/");
    assert(s[4] == '6');
    lemma_other_marker(s, "/dns/"@, 4);
    reveal_strlit("/dns4/");
    assert(s[4] == '6');
    lemma_other_marker(s, "/dns4/"@, 4);
    lemma_marked_address("/dns6/"@, host, port, tail);
}

/// An address may name its host as an IPv4 or IPv6 address or as a name of either kind or of none;
/// what stands behind the port does not matter.
pub proof fn law_address_forms(host: Seq<char>, port: u16, tail: Seq<char>)
    requires
        host.len() > 0,
        !host.contains('/'),
        host != "tcp"@,
        tail.len() > 0 ==> tail[0] == '/' && !text::is_space(tail.last()),
    ensures
        net::address_of("/ip4/"@ + host + "/tcp/"@ + text::dec(port as nat) + tail) == Some(
            (host, port),
        ),
        net::address_of("/ip6/"@ + host + "/tcp/"@ + text::dec(port as nat) + tail) == Some(
            (host, port),
        ),
        net::address_of("/dns/"@ + host + "/tcp/"@ + text::dec(port as nat) + tail) == Some(
            (host, port),
        ),
        net::address_of("/dns4/"@ + host + "/tcp/"@ + text::dec(port as nat) + tail) == Some(
            (host, port),
        ),
        net::address_of("/dns6/"@ + host + "/tcp/"@ + text::dec(port as nat) + tail) == Some(
            (host, port),
        ),
{
    lemma_ip4_form(host, port, tail);
    lemma_ip6_form(host, port, tail);
    lemma_dns_form(host, port, tail);
    lemma_dns4_form(host, port, tail);
    lemma_dns6_form(host, port, tail);
}

proof fn lemma_other_marker(s: Seq<char>, p: Seq<char>, k: int)
    requires
        0 <= k < p.len(),
        k < s.len(),
        s[k] != p[k],
    ensures
        net::behind(s, p) is None,
{
    if text::begins_with(s, p) {
        assert(s.take(p.len() as int)[k] == p[k]);
    }
}

/// What has no port, or one that is no number below 65536, is no address.
pub proof fn law_no_address(host: Seq<char>, port: Seq<char>)
    requires
        host.len() > 0,
        host[0] != '/',
        !text::is_space(host[0]),
        !text::is_space(host.last()),
        forall|i: int| 0 <= i < port.len() ==> port[i] != ':',
        port.len() > 0 ==> !text::is_space(port.last()),
    ensures
        text::number(port, 65_535) is None ==> net::address_of(host.push(':') + port) is None,
        (forall|i: int| 0 <= i < host.len() ==> host[i] != ':') ==> net::address_of(host) is None,
{
    let none = Seq::<char>::empty();
    let s = host.push(':') + port;
    assert(none + s + none =~= s);
    assert(s[0] == host[0]);
    assert(s.last() == if port.len() > 0 {
        port.last()
    } else {
        ':'
    });
    letters::law_trimmed(none, s, none);
    assert(none + host + none =~= host);
    letters::law_trimmed(none, host, none);
    letters::law_cut_at_the_last(host, port, ':');
    if forall|i: int| 0 <= i < host.len() ==> host[i] != ':' {
        letters::law_cut_at_the_last(host, host, ':');
    }
}

/// Why a connection ended is told the user where the two had been connected, and only noted in the
/// log where it had not come to that.
pub proof fn law_end_is_told(v: AppView, i: int, fault: WorkerError, now: u64)
    requires
        links::listed(v, i),
    ensures
        ({
            let w = net::after_end(v, v.peers[i].key, Some(fault), now);
            &&& v.peers[i].info.handshake_done ==> w.history.last().kind == MsgKind::Error
            &&& !v.peers[i].info.handshake_done ==> w.history == v.history && w.netlog.last().level
                == NetLevel::Warn
        }),
{
    links::lemma_listed(v, i);
}

/// What begins with a slash but names none of the kinds of hosts is no address.
pub proof fn law_unknown_form(s: Seq<char>)
    requires
        s.len() > 0,
        s[0] == '/',
        !text::is_space(s.last()),
        !text::begins_with(s, "/ip4/"@),
        !text::begins_with(s, "/ip6/"@),
        !text::begins_with(s, "/dns/"@),
        !text::begins_with(s, "/dns4/"@),
        !text::begins_with(s, "/dns6/"@),
    ensures
        net::address_of(s) is None,
{
    let none = Seq::<char>::empty();
    assert(none + s + none =~= s);
    letters::law_trimmed(none, s, none);
    if let Some(i) = text::first_match(s, "/tcp/"@) {
        letters::law_first_match(s, "/tcp/"@, 0);
        lemma_no_marker(s, i, "/ip4/"@);
        lemma_no_marker(s, i, "/ip6/"@);
        lemma_no_marker(s, i, "/dns/"@);
        lemma_no_marker(s, i, "/dns4/"@);
        lemma_no_marker(s, i, "/dns6/"@);
    }
}

proof fn lemma_no_marker(s: Seq<char>, i: int, p: Seq<char>)
    requires
        0 <= i <= s.len(),
        !text::begins_with(s, p),
    ensures
        net::behind(s.take(i), p) is None,
{
    if text::begins_with(s.take(i), p) {
        assert(s.take(i).take(p.len() as int) =~= s.take(p.len() as int));
    }
}

}
