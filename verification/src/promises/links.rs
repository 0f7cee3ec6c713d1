//! The life of a connection: who opens what, what is sent and what becomes of what comes in.
use vstd::prelude::*;
use vstd::string::*;
use vstd::utf8::*;

use crate::app;
use crate::app::{AppView, InfoView, MsgKind, NetLevel, PeerView};
use crate::ffi;
use crate::files;
use crate::files::FileActionView;
use crate::net::WorkerError;
use crate::protocol;
use crate::text;
use crate::wire;
use crate::worker;
use crate::worker::{
    ReaderActionView, ReaderEventView, Worker, WorkerActionView, WorkerEventView, WorkerPhase,
};

verus! {

/// Whether the connection at this place is in the list under a key of its own.
pub open spec fn listed(v: AppView, i: int) -> bool {
    0 <= i < v.peers.len() && forall|j: int|
        0 <= j < v.peers.len() && j != i ==> (#[trigger] v.peers[j]).key != v.peers[i].key
}

/// A connection is found at its place under its key.
pub proof fn lemma_listed(v: AppView, i: int)
    requires
        listed(v, i),
    ensures
        v.peer_at(v.peers[i].key, i),
        v.has_peer(v.peers[i].key),
        v.place(v.peers[i].key) == i,
        v.peer(v.peers[i].key) == v.peers[i],
{
    assert(v.peer_at(v.peers[i].key, i));
    app::lemma_place(v, v.peers[i].key, i);
}

/// Whether two states differ in nothing but what the log and the chat show and in the connection at
/// this place, which keeps its key, its role and its address.
pub open spec fn apart_from(v: AppView, w: AppView, i: int) -> bool {
    &&& w.peers.len() == v.peers.len()
    &&& forall|j: int| 0 <= j < v.peers.len() && j != i ==> #[trigger] w.peers[j] == v.peers[j]
    &&& w.peers[i].key == v.peers[i].key
    &&& w.peers[i].info.initiator == v.peers[i].info.initiator
    &&& w.peers[i].info.addr == v.peers[i].info.addr
    &&& w.identity == v.identity
    &&& w.nick == v.nick
    &&& w.theme == v.theme
    &&& w.tx == v.tx
    &&& w.attempted == v.attempted
    &&& w.quit == v.quit
    &&& w.next_file_id == v.next_file_id
    &&& w.started_at == v.started_at
    &&& w.lan_ip == v.lan_ip
    &&& w.listen_port == v.listen_port
    &&& w.next_key == v.next_key
    &&& w.next_token == v.next_token
    &&& w.separator == v.separator
}

proof fn lemma_changed(v: AppView, i: int, p: PeerView, w: AppView)
    requires
        listed(v, i),
        p.key == v.peers[i].key,
        w.peers == v.peers.update(i, p),
    ensures
        listed(w, i),
        w.peers[i] == p,
        w.place(p.key) == i,
        w.peer(p.key) == p,
{
    assert forall|j: int| 0 <= j < w.peers.len() && j != i implies (#[trigger] w.peers[j]).key
        != w.peers[i].key by {
        assert(w.peers[j] == v.peers[j]);
    }
    lemma_listed(w, i);
}

/// The work on a connection touches that connection alone, whatever happens on it.
pub proof fn law_work_stays_on_its_connection(
    v: AppView,
    i: int,
    phase: WorkerPhase,
    event: WorkerEventView,
    now: u64,
    mono: u64,
)
    requires
        listed(v, i),
    ensures
        ({
            let w = worker::after_event(
                v,
                Worker { key: v.peers[i].key, phase },
                event,
                now,
                mono,
            ).0;
            apart_from(v, w, i) && w.rx == v.rx
        }),
{
    let key = v.peers[i].key;
    lemma_listed(v, i);
    if let WorkerPhase::Sending { kind, len } = phase {
        if let WorkerEventView::Sent { rc } = event {
            let n = protocol::wire_len(len as nat);
            let info = v.peers[i].info;
            let more = InfoView {
                bytes_tx: info.bytes_tx.wrapping_add(n as u64),
                last_seen: Some(mono),
                msgs_tx: if kind == crate::constants::CHAT_TYPE_MSG {
                    info.msgs_tx.wrapping_add(1)
                } else {
                    info.msgs_tx
                },
                ..info
            };
            let p = PeerView { info: more, ..v.peers[i] };
            let x = v.with_info(key, more).logged(
                NetLevel::Traffic,
                "tx frame "@ + text::dec(n) + "B"@,
                now,
            );
            lemma_changed(v, i, p, x);
            let q = PeerView { out: p.out.skip(1), ..p };
            lemma_changed(x, i, q, x.with_peer(key, q));
        }
    }
    let q = PeerView { out: v.peers[i].out.skip(1), ..v.peers[i] };
    lemma_changed(v, i, q, v.with_peer(key, q));
}

/// The session is set up in the role of the connection: by the side that dialled as the dialler, by
/// the other one as the listener.
pub proof fn law_session_has_the_role(v: AppView, i: int, now: u64, mono: u64)
    requires
        listed(v, i),
    ensures
        ({
            let (w, phase, action) = worker::after_event(
                v,
                Worker { key: v.peers[i].key, phase: WorkerPhase::Fresh },
                WorkerEventView::Begin,
                now,
                mono,
            );
            &&& phase == WorkerPhase::Opening
            &&& action == (WorkerActionView::Init {
                dialer: v.peers[i].info.initiator,
                timeout_ms: 10_000,
            })
            &&& w.peers == v.peers
            &&& w.history == v.history
        }),
{
    lemma_listed(v, i);
}

/// Once the session with another peer stands, its id belongs to the connection, and the chat stream
/// is asked for in the same role: the side that dialled opens it, the other one accepts it.
pub proof fn law_stream_has_the_role(
    v: AppView,
    i: int,
    remote: Seq<char>,
    now: u64,
    mono: u64,
)
    requires
        listed(v, i),
        remote != v.identity.peer_id,
    ensures
        ({
            let (w, phase, action) = worker::after_event(
                v,
                Worker { key: v.peers[i].key, phase: WorkerPhase::Opening },
                WorkerEventView::Session { rc: 0, remote },
                now,
                mono,
            );
            &&& phase == WorkerPhase::Negotiating
            &&& action == (WorkerActionView::Negotiate { dialer: v.peers[i].info.initiator })
            &&& w.peers[i].info.remote_pid_full == remote
            &&& !v.peers[i].info.handshake_done ==> !w.peers[i].info.handshake_done
            &&& w.peers[i].out == v.peers[i].out
            &&& w.peers[i].dead == v.peers[i].dead
            &&& w.peers[i].info.remote_nick == v.peers[i].info.remote_nick
            &&& w.history == v.history
        }),
{
    lemma_listed(v, i);
}

/// Of the two ends of a connection just one opens the chat stream and the other one accepts it.
pub proof fn law_one_end_opens(
    v: AppView,
    i: int,
    their: Seq<char>,
    w: AppView,
    j: int,
    our: Seq<char>,
    now: u64,
    mono: u64,
)
    requires
        listed(v, i),
        listed(w, j),
        v.peers[i].info.initiator != w.peers[j].info.initiator,
        their != v.identity.peer_id,
        our != w.identity.peer_id,
    ensures
        ({
            let a = worker::after_event(
                v,
                Worker { key: v.peers[i].key, phase: WorkerPhase::Opening },
                WorkerEventView::Session { rc: 0, remote: their },
                now,
                mono,
            ).2;
            let b = worker::after_event(
                w,
                Worker { key: w.peers[j].key, phase: WorkerPhase::Opening },
                WorkerEventView::Session { rc: 0, remote: our },
                now,
                mono,
            ).2;
            a matches WorkerActionView::Negotiate { dialer: x }
                && b matches WorkerActionView::Negotiate { dialer: y } && x != y
        }),
{
    law_stream_has_the_role(v, i, their, now, mono);
    law_stream_has_the_role(w, j, our, now, mono);
}

/// A session that cannot be set up ends the work as a failure, and one with oneself ends it without
/// one; nothing is kept of either.
pub proof fn law_session_ends_early(
    v: AppView,
    i: int,
    rc: i32,
    remote: Seq<char>,
    now: u64,
    mono: u64,
)
    requires
        listed(v, i),
        rc != 0 || remote == v.identity.peer_id,
    ensures
        worker::after_event(
            v,
            Worker { key: v.peers[i].key, phase: WorkerPhase::Opening },
            WorkerEventView::Session { rc, remote },
            now,
            mono,
        ) == (
            v,
            WorkerPhase::Over,
            (if rc != 0 {
                WorkerActionView::End { close_session: false, fault: Some(WorkerError::Session) }
            } else {
                WorkerActionView::End { close_session: true, fault: None }
            }),
        ),
{
}

/// Once the chat stream stands, the peer is connected and shown as joined, and it is greeted with a
/// frame that carries this peer's nick. Without a stream the work ends as a failure.
pub proof fn law_connected_and_greeted(
    v: AppView,
    i: int,
    rc: i32,
    present: bool,
    now: u64,
    mono: u64,
)
    requires
        listed(v, i),
    ensures
        ({
            let (w, phase, action) = worker::after_event(
                v,
                Worker { key: v.peers[i].key, phase: WorkerPhase::Negotiating },
                WorkerEventView::Stream { rc, present },
                now,
                mono,
            );
            &&& rc == 0 && present ==> {
                &&& w.peers[i].info.handshake_done
                &&& w.peers[i].info.connected_at == Some(mono)
                &&& w.peers[i].info.last_seen == Some(mono)
                &&& w.peers[i].info.remote_pid_full == v.peers[i].info.remote_pid_full
                &&& w.peers[i].out == v.peers[i].out
                &&& w.peers[i].dead == v.peers[i].dead
                &&& w.history.last().kind == MsgKind::Join
                &&& v.nick.len() < 32 ==> (action matches WorkerActionView::Send { frame }
                    && protocol::frame_content(frame) == Ok::<
                    (u32, Seq<char>, Seq<char>),
                    protocol::FrameError,
                >((1u32, ffi::without_nul(v.nick), Seq::<char>::empty())) && phase
                    == (WorkerPhase::Greeting { len: frame.len() as usize }))
            }
            &&& rc != 0 || !present ==> w == v && phase == WorkerPhase::Over && action == (
            WorkerActionView::End { close_session: true, fault: Some(WorkerError::Negotiation) })
        }),
{
    lemma_listed(v, i);
    if v.nick.len() < 32 {
        reveal_strlit("");
        assert(encode_utf8(""@).len() == 0) by {
            text::lemma_utf8_len(""@);
        }
        protocol::law_frame_fits(1, v.nick, ""@);
        protocol::law_frame_round_trip(1, v.nick, ""@);
        assert(ffi::without_nul(""@) =~= Seq::<char>::empty());
    }
}

/// Whether or not the greeting went out, the connection is served and read from then on.
pub proof fn law_greeted_is_served(
    v: AppView,
    i: int,
    len: usize,
    rc: i32,
    now: u64,
    mono: u64,
)
    requires
        listed(v, i),
        len < 16384,
    ensures
        ({
            let (w, phase, action) = worker::after_event(
                v,
                Worker { key: v.peers[i].key, phase: WorkerPhase::Greeting { len } },
                WorkerEventView::Sent { rc },
                now,
                mono,
            );
            &&& phase == WorkerPhase::Serving
            &&& action == WorkerActionView::Serve
            &&& w.history == v.history
            &&& w.peers[i].out == v.peers[i].out
            &&& w.peers[i].dead == v.peers[i].dead
            &&& w.peers[i].info.bytes_tx == if rc == 0 {
                v.peers[i].info.bytes_tx.wrapping_add(on_wire(len))
            } else {
                v.peers[i].info.bytes_tx
            }
            &&& w.peers[i].info.msgs_tx == v.peers[i].info.msgs_tx
        }),
{
    lemma_listed(v, i);
    lemma_on_wire(len);
}

/// The bytes that a frame takes on the wire: its own and those of its length, one where that is
/// below a hundred and twenty-eight and two otherwise.
pub open spec fn on_wire(len: usize) -> u64 {
    (len + if len < 128 {
        1int
    } else {
        2
    }) as u64
}

proof fn lemma_on_wire(len: usize)
    requires
        len < 16384,
    ensures
        protocol::wire_len(len as nat) as u64 == on_wire(len),
{
    reveal_with_fuel(wire::varint, 3);
}

/// While a connection is served, what waits longest is sent next, as a frame that carries its kind
/// and text and this peer's nick, and it waits no longer. With nothing to send the work pauses.
/// When the chat quits or the connection is dead, it is closed and nothing more is sent.
pub proof fn law_longest_waiting_is_next(v: AppView, i: int, now: u64, mono: u64)
    requires
        listed(v, i),
    ensures
        ({
            let (w, phase, action) = worker::after_event(
                v,
                Worker { key: v.peers[i].key, phase: WorkerPhase::Serving },
                WorkerEventView::Turn,
                now,
                mono,
            );
            let q = v.peers[i].out;
            &&& v.quit || v.peers[i].dead ==> phase == WorkerPhase::Stopping && action
                == WorkerActionView::Close && w.peers[i].dead && w.peers[i].out == q
            &&& !v.quit && !v.peers[i].dead && q.len() == 0 ==> w == v && phase
                == WorkerPhase::Serving && action == WorkerActionView::Sleep
            &&& !v.quit && !v.peers[i].dead && q.len() > 0 ==> w.peers[i].out == q.skip(1)
            &&& !v.quit && !v.peers[i].dead && q.len() > 0 && protocol::frame_fault(
                q[0].kind,
                v.nick,
                q[0].text,
            ) is None ==> (action matches WorkerActionView::Send { frame }
                && protocol::frame_content(frame) == Ok::<
                (u32, Seq<char>, Seq<char>),
                protocol::FrameError,
            >((q[0].kind, ffi::without_nul(v.nick), ffi::without_nul(q[0].text))) && phase == (
            WorkerPhase::Sending { kind: q[0].kind, len: frame.len() as usize })) && w.peers[i].info
                == v.peers[i].info && !w.peers[i].dead
        }),
{
    lemma_listed(v, i);
    let key = v.peers[i].key;
    let q = v.peers[i].out;
    let p = PeerView { out: q.skip(1), ..v.peers[i] };
    lemma_changed(v, i, p, v.with_peer(key, p));
    if q.len() > 0 && protocol::frame_fault(q[0].kind, v.nick, q[0].text) is None {
        protocol::law_frame_round_trip(q[0].kind, v.nick, q[0].text);
    }
}

/// A frame that went out is counted: its bytes always, and as a message where it is one. Then the
/// next one that waits is taken, or the work pauses. A frame that did not go out makes the
/// connection dead.
pub proof fn law_sent_is_counted(
    v: AppView,
    i: int,
    kind: u32,
    len: usize,
    rc: i32,
    now: u64,
    mono: u64,
)
    requires
        listed(v, i),
        len < 16384,
    ensures
        ({
            let (w, phase, action) = worker::after_event(
                v,
                Worker { key: v.peers[i].key, phase: WorkerPhase::Sending { kind, len } },
                WorkerEventView::Sent { rc },
                now,
                mono,
            );
            let q = v.peers[i].out;
            &&& rc == 0 ==> {
                &&& w.peers[i].info.bytes_tx == v.peers[i].info.bytes_tx.wrapping_add(on_wire(len))
                &&& w.peers[i].info.msgs_tx == if kind == 2 {
                    v.peers[i].info.msgs_tx.wrapping_add(1)
                } else {
                    v.peers[i].info.msgs_tx
                }
                &&& w.peers[i].info.last_seen == Some(mono)
                &&& w.peers[i].info.msgs_rx == v.peers[i].info.msgs_rx
                &&& w.peers[i].info.remote_pid_full == v.peers[i].info.remote_pid_full
                &&& q.len() == 0 ==> action == WorkerActionView::Sleep && phase
                    == WorkerPhase::Serving && w.peers[i].out == q && w.peers[i].dead
                    == v.peers[i].dead
                &&& q.len() > 0 ==> w.peers[i].out == q.skip(1)
                &&& q.len() > 0 && protocol::frame_fault(q[0].kind, v.nick, q[0].text) is None ==> (
                action matches WorkerActionView::Send { frame } && protocol::frame_content(frame)
                    == Ok::<(u32, Seq<char>, Seq<char>), protocol::FrameError>(
                    (q[0].kind, ffi::without_nul(v.nick), ffi::without_nul(q[0].text)),
                ))
            }
            &&& rc != 0 ==> w.peers[i].dead && phase == WorkerPhase::Serving && action
                == WorkerActionView::Sleep && w.peers[i].out == q && w.peers[i].info
                == v.peers[i].info
            &&& w.history == v.history
        }),
{
    lemma_listed(v, i);
    lemma_on_wire(len);
    let key = v.peers[i].key;
    let q = v.peers[i].out;
    let n = protocol::wire_len(len as nat);
    let info = v.peers[i].info;
    let more = InfoView {
        bytes_tx: info.bytes_tx.wrapping_add(n as u64),
        last_seen: Some(mono),
        msgs_tx: if kind == crate::constants::CHAT_TYPE_MSG {
            info.msgs_tx.wrapping_add(1)
        } else {
            info.msgs_tx
        },
        ..info
    };
    let p = PeerView { info: more, ..v.peers[i] };
    let x = v.with_info(key, more).logged(
        NetLevel::Traffic,
        "tx frame "@ + text::dec(n) + "B"@,
        now,
    );
    lemma_changed(v, i, p, x);
    let r = PeerView { out: q.skip(1), ..p };
    lemma_changed(x, i, r, x.with_peer(key, r));
    if q.len() > 0 && protocol::frame_fault(q[0].kind, v.nick, q[0].text) is None {
        protocol::law_frame_round_trip(q[0].kind, v.nick, q[0].text);
    }
}

/// A connection that was closed is shown as left, under the nick of the peer or, without one, under
/// its short id, and the work on it ends without a failure.
pub proof fn law_closed_is_shown(v: AppView, i: int, now: u64, mono: u64)
    requires
        listed(v, i),
    ensures
        ({
            let (w, phase, action) = worker::after_event(
                v,
                Worker { key: v.peers[i].key, phase: WorkerPhase::Stopping },
                WorkerEventView::Closed,
                now,
                mono,
            );
            &&& phase == WorkerPhase::Over
            &&& action == (WorkerActionView::End { close_session: false, fault: None })
            &&& w.history.last().kind == MsgKind::Leave
            &&& w.history.last().nick == if v.peers[i].info.remote_nick.len() > 0 {
                v.peers[i].info.remote_nick
            } else {
                v.peers[i].info.remote_pid_short
            }
            &&& w.peers == v.peers
        }),
{
    lemma_listed(v, i);
}

/// A connection is read as long as the chat goes on and the connection is not dead; a failure to
/// read makes it dead; and what is no frame is passed over.
pub proof fn law_reading_goes_on(
    v: AppView,
    i: int,
    buf: Seq<u8>,
    len: nat,
    rc: i32,
    now: u64,
    mono: u64,
)
    requires
        listed(v, i),
    ensures
        ({
            let (w, action) = worker::after_reading(
                v,
                v.peers[i].key,
                ReaderEventView::Check,
                now,
                mono,
            );
            &&& v.quit || v.peers[i].dead ==> action == ReaderActionView::Stop && w.peers[i].dead
            &&& !v.quit && !v.peers[i].dead ==> action == ReaderActionView::Receive && w == v
        }),
        ({
            let (w, action) = worker::after_reading(
                v,
                v.peers[i].key,
                ReaderEventView::Received { buf, len, rc },
                now,
                mono,
            );
            &&& rc != 0 ==> action == ReaderActionView::Stop && w.peers[i].dead && w.peers[i].info
                == v.peers[i].info && w.history == v.history
            &&& rc == 0 && protocol::frame_content(buf.take(len as int)) is Err ==> w == v && action
                == (ReaderActionView::Act { file: FileActionView::Nothing })
        }),
{
    lemma_listed(v, i);
}

/// What a frame does to the one who receives it: its bytes are counted and its nick, where it has
/// one, is kept. A message is counted and shown, a greeting shows the peer as joined, a goodbye
/// makes the connection dead and ends the reading, and other frames show nothing by themselves.
pub proof fn law_frame_is_taken(
    v: AppView,
    i: int,
    kind: u32,
    nick: Seq<char>,
    body: Seq<char>,
    buf: Seq<u8>,
    now: u64,
    mono: u64,
)
    requires
        listed(v, i),
        v.sound(),
        protocol::frame_fault(kind, nick, body) is None,
        protocol::frame_bytes(kind, nick, body).len() <= buf.len(),
        buf.take(protocol::frame_bytes(kind, nick, body).len() as int) == protocol::frame_bytes(
            kind,
            nick,
            body,
        ),
    ensures
        ({
            let len = protocol::frame_bytes(kind, nick, body).len();
            let (w, action) = worker::after_reading(
                v,
                v.peers[i].key,
                ReaderEventView::Received { buf, len, rc: 0 },
                now,
                mono,
            );
            let said = ffi::without_nul(nick);
            let name = if said.len() > 0 {
                said
            } else {
                v.peers[i].info.remote_nick
            };
            let shown = if name.len() > 0 {
                name
            } else {
                v.peers[i].info.remote_pid_short
            };
            &&& apart_from(v, w, i)
            &&& w.peers[i].info.remote_nick == name
            &&& w.peers[i].info.bytes_rx == v.peers[i].info.bytes_rx.wrapping_add(
                on_wire(len as usize),
            )
            &&& w.peers[i].info.last_seen == Some(mono)
            &&& w.peers[i].info.remote_pid_full == v.peers[i].info.remote_pid_full
            &&& w.peers[i].info.handshake_done == v.peers[i].info.handshake_done
            &&& w.peers[i].info.msgs_tx == v.peers[i].info.msgs_tx
            &&& w.peers[i].out == v.peers[i].out
            &&& w.peers[i].info.msgs_rx == if kind == 2 {
                v.peers[i].info.msgs_rx.wrapping_add(1)
            } else {
                v.peers[i].info.msgs_rx
            }
            &&& w.peers[i].dead == (v.peers[i].dead || kind == 3)
            &&& (action == ReaderActionView::Stop) == (kind == 3)
            &&& kind == 2 ==> w.history.last().kind == MsgKind::Chat && w.history.last().nick
                == shown && w.history.last().text == ffi::without_nul(body)
                && w.history.last().timestamp == now
            &&& kind == 1 ==> w.history.last().kind == MsgKind::Join && w.history.last().nick
                == shown
            &&& kind != 1 && kind != 2 && !(4 <= kind <= 7) ==> w.history == v.history && w.rx
                == v.rx
            &&& !(4 <= kind <= 7) ==> w.rx == v.rx && (kind != 3 ==> action == (
            ReaderActionView::Act { file: FileActionView::Nothing }))
        }),
{
    lemma_listed(v, i);
    let key = v.peers[i].key;
    let len = protocol::frame_bytes(kind, nick, body).len();
    protocol::law_frame_round_trip(kind, nick, body);
    lemma_on_wire(len as usize);
    let n = protocol::wire_len(len);
    let said = ffi::without_nul(nick);
    let text = ffi::without_nul(body);
    let info = worker::heard(v.peers[i].info, said, n, mono);
    let p = PeerView { info, ..v.peers[i] };
    let w = v.with_info(key, info);
    lemma_changed(v, i, p, w);
    app::law_peer_change_keeps_sound(v, key, p);
    if 4 <= kind <= 7 {
        files::law_file_frames_keep_sound(w, key, kind, text, now);
    }
}

/// A frame of a file is handed on, under its kind and with its text, after its nick and bytes were
/// noted.
pub proof fn law_file_frame_is_handed_on(
    v: AppView,
    i: int,
    kind: u32,
    nick: Seq<char>,
    body: Seq<char>,
    buf: Seq<u8>,
    now: u64,
    mono: u64,
)
    requires
        listed(v, i),
        4 <= kind <= 7,
        protocol::frame_fault(kind, nick, body) is None,
        protocol::frame_bytes(kind, nick, body).len() <= buf.len(),
        buf.take(protocol::frame_bytes(kind, nick, body).len() as int) == protocol::frame_bytes(
            kind,
            nick,
            body,
        ),
    ensures
        ({
            let len = protocol::frame_bytes(kind, nick, body).len();
            let (w, action) = worker::after_reading(
                v,
                v.peers[i].key,
                ReaderEventView::Received { buf, len, rc: 0 },
                now,
                mono,
            );
            exists|x: AppView|
                {
                    &&& #[trigger] apart_from(v, x, i)
                    &&& x.rx == v.rx
                    &&& x.peers[i].info.remote_pid_full == v.peers[i].info.remote_pid_full
                    &&& (w, action) == ({
                        let (y, file) = files::after_file_frame(
                            x,
                            v.peers[i].key,
                            kind,
                            ffi::without_nul(body),
                            now,
                        );
                        (y, ReaderActionView::Act { file })
                    })
                }
        }),
{
    lemma_listed(v, i);
    let key = v.peers[i].key;
    let len = protocol::frame_bytes(kind, nick, body).len();
    protocol::law_frame_round_trip(kind, nick, body);
    let n = protocol::wire_len(len);
    let info = worker::heard(v.peers[i].info, ffi::without_nul(nick), n, mono);
    let p = PeerView { info, ..v.peers[i] };
    let x = v.with_info(key, info);
    lemma_changed(v, i, p, x);
    assert(apart_from(v, x, i));
}

/// The work goes step by step: what does not belong to the step that it has come to changes nothing
/// and asks for nothing.
pub proof fn law_steps_keep_their_order(
    v: AppView,
    w: Worker,
    event: WorkerEventView,
    now: u64,
    mono: u64,
)
    requires
        !(w.phase is Fresh && event is Begin),
        !(w.phase is Opening && event is Session),
        !(w.phase is Negotiating && event is Stream),
        !(w.phase is Greeting && event is Sent),
        !(w.phase is Serving && event is Turn),
        !(w.phase is Sending && event is Sent),
        !(w.phase is Stopping && event is Closed),
    ensures
        worker::after_event(v, w, event, now, mono) == (v, w.phase, WorkerActionView::Nothing),
{
}

}
