//! The work on a connection: the handshake, the queue of frames, and the reader.
use vstd::prelude::*;
use vstd::string::*;

use crate::app;
use crate::app::{AppState, AppView, InfoView, NetLevel, PeerView};
use crate::constants::{
    CHAT_TYPE_BYE, CHAT_TYPE_HELLO, CHAT_TYPE_MSG, HANDSHAKE_TIMEOUT_MS, MAX_FRAME_LEN,
};
use crate::ffi;
use crate::files;
use crate::files::{FileAction, FileActionView};
use crate::net::WorkerError;
use crate::protocol;
use crate::text;
use crate::util;

verus! {

/// How far the work on a connection has come.
#[derive(Clone, Copy, PartialEq, Eq, Structural, Debug)]
pub enum WorkerPhase {
    /// Nothing was done yet.
    Fresh,
    /// The session is being set up.
    Opening,
    /// The chat stream is being opened.
    Negotiating,
    /// The greeting, a frame of this length, is being sent.
    Greeting { len: usize },
    /// Between two looks at the queue.
    Serving,
    /// A frame of this kind and length is being sent.
    Sending { kind: u32, len: usize },
    /// The connection is being closed.
    Stopping,
    /// The work has ended.
    Over,
}

/// The work on one connection.
#[derive(Clone, Copy, PartialEq, Eq, Structural, Debug)]
pub struct Worker {
    pub key: u64,
    pub phase: WorkerPhase,
}

impl Worker {
    /// The lengths are those of frames.
    pub open spec fn wf(self) -> bool {
        match self.phase {
            WorkerPhase::Greeting { len } => len <= MAX_FRAME_LEN,
            WorkerPhase::Sending { kind: _, len } => len <= MAX_FRAME_LEN,
            _ => true,
        }
    }

    /// The work on the connection of this key, before it begins.
    pub fn new(key: u64) -> (r: Self)
        ensures
            r == (Worker { key, phase: WorkerPhase::Fresh }),
            r.wf(),
    {
        Worker { key, phase: WorkerPhase::Fresh }
    }
}

/// What happened to a connection.
pub enum WorkerEvent {
    /// It was opened.
    Begin,
    /// The session was set up, with this return code and the id of the other side.
    Session { rc: i32, remote: String },
    /// The chat stream was opened, with this return code; `present` tells whether there is one.
    Stream { rc: i32, present: bool },
    /// A frame was sent, with this return code.
    Sent { rc: i32 },
    /// It is time to look at the queue.
    Turn,
    /// The connection was closed, and its reader is gone.
    Closed,
}

/// What happened to a connection, in plain values.
#[verifier::ext_equal]
pub enum WorkerEventView {
    Begin,
    Session { rc: i32, remote: Seq<char> },
    Stream { rc: i32, present: bool },
    Sent { rc: i32 },
    Turn,
    Closed,
}

impl View for WorkerEvent {
    type V = WorkerEventView;

    open spec fn view(&self) -> WorkerEventView {
        match *self {
            WorkerEvent::Begin => WorkerEventView::Begin,
            WorkerEvent::Session { rc, remote } => WorkerEventView::Session { rc, remote: remote@ },
            WorkerEvent::Stream { rc, present } => WorkerEventView::Stream { rc, present },
            WorkerEvent::Sent { rc } => WorkerEventView::Sent { rc },
            WorkerEvent::Turn => WorkerEventView::Turn,
            WorkerEvent::Closed => WorkerEventView::Closed,
        }
    }
}

/// What has to be done with a connection.
pub enum WorkerAction {
    /// Nothing.
    Nothing,
    /// Bound every read and write by this time and set up the session, as the side that dialled or
    /// as the other one.
    Init { dialer: bool, timeout_ms: i32 },
    /// Open the chat stream, as the side that dialled or as the other one.
    Negotiate { dialer: bool },
    /// Send this frame.
    Send { frame: Vec<u8> },
    /// Lift the bound on reads and writes, start the reader, and look at the queue.
    Serve,
    /// Sleep, and look at the queue again.
    Sleep,
    /// Close the connection, wait for the reader, and close the session.
    Close,
    /// Close the session where it is still to be closed, and end the work.
    End { close_session: bool, fault: Option<WorkerError> },
}

/// What has to be done with a connection, in plain values.
#[verifier::ext_equal]
pub enum WorkerActionView {
    Nothing,
    Init { dialer: bool, timeout_ms: i32 },
    Negotiate { dialer: bool },
    Send { frame: Seq<u8> },
    Serve,
    Sleep,
    Close,
    End { close_session: bool, fault: Option<WorkerError> },
}

impl View for WorkerAction {
    type V = WorkerActionView;

    open spec fn view(&self) -> WorkerActionView {
        match *self {
            WorkerAction::Nothing => WorkerActionView::Nothing,
            WorkerAction::Init { dialer, timeout_ms } => WorkerActionView::Init {
                dialer,
                timeout_ms,
            },
            WorkerAction::Negotiate { dialer } => WorkerActionView::Negotiate { dialer },
            WorkerAction::Send { frame } => WorkerActionView::Send { frame: frame@ },
            WorkerAction::Serve => WorkerActionView::Serve,
            WorkerAction::Sleep => WorkerActionView::Sleep,
            WorkerAction::Close => WorkerActionView::Close,
            WorkerAction::End { close_session, fault } => WorkerActionView::End {
                close_session,
                fault,
            },
        }
    }
}

/// One step of the work on a connection: the state, how far the work has come, and what to do.
pub type WorkerStep = (AppView, WorkerPhase, WorkerActionView);

/// The work begins.
pub open spec fn step_begin(v: AppView, key: u64, now: u64) -> WorkerStep {
    let info = v.peer(key).info;
    let what = if info.initiator {
        "dial tcp "@
    } else {
        "accept tcp "@
    };
    (
        v.logged(NetLevel::Info, what + info.addr, now),
        WorkerPhase::Opening,
        WorkerActionView::Init { dialer: info.initiator, timeout_ms: HANDSHAKE_TIMEOUT_MS },
    )
}

/// The session was set up, or could not be. A session with this peer itself ends at once.
pub open spec fn step_session(
    v: AppView,
    key: u64,
    rc: i32,
    remote: Seq<char>,
    now: u64,
) -> WorkerStep {
    if rc != 0 {
        (
            v,
            WorkerPhase::Over,
            WorkerActionView::End { close_session: false, fault: Some(WorkerError::Session) },
        )
    } else if remote == v.identity.peer_id {
        (v, WorkerPhase::Over, WorkerActionView::End { close_session: true, fault: None })
    } else {
        let info = v.peer(key).info;
        (
            v.with_info(
                key,
                InfoView {
                    remote_pid_full: remote,
                    remote_pid_short: util::short_pid(remote),
                    ..info
                },
            ).logged(NetLevel::Okay, "peer id "@ + util::short_pid(remote), now),
            WorkerPhase::Negotiating,
            WorkerActionView::Negotiate { dialer: info.initiator },
        )
    }
}

/// The chat stream was opened, or could not be. An open one is greeted.
pub open spec fn step_stream(
    v: AppView,
    key: u64,
    rc: i32,
    present: bool,
    now: u64,
    mono: u64,
) -> WorkerStep {
    if rc != 0 || !present {
        (
            v,
            WorkerPhase::Over,
            WorkerActionView::End { close_session: true, fault: Some(WorkerError::Negotiation) },
        )
    } else {
        let info = v.peer(key).info;
        let w = v.with_info(
            key,
            InfoView {
                handshake_done: true,
                connected_at: Some(mono),
                last_seen: Some(mono),
                ..info
            },
        ).joined("(unknown)"@, util::short_pid(info.remote_pid_full), now).logged(
            NetLevel::Okay,
            "opened chat stream"@,
            now,
        );
        if protocol::frame_fault(CHAT_TYPE_HELLO, v.nick, ""@) is None {
            let frame = protocol::frame_bytes(CHAT_TYPE_HELLO, v.nick, ""@);
            (
                w,
                WorkerPhase::Greeting { len: frame.len() as usize },
                WorkerActionView::Send { frame },
            )
        } else {
            (w, WorkerPhase::Serving, WorkerActionView::Serve)
        }
    }
}

/// The greeting was sent, or could not be.
pub open spec fn step_greeted(v: AppView, key: u64, len: nat, rc: i32, now: u64) -> WorkerStep {
    let n = protocol::wire_len(len);
    let info = v.peer(key).info;
    (
        if rc != 0 {
            v
        } else {
            v.with_info(
                key,
                InfoView { bytes_tx: info.bytes_tx.wrapping_add(n as u64), ..info },
            ).logged(NetLevel::Traffic, "tx hello "@ + text::dec(n) + "B"@, now)
        },
        WorkerPhase::Serving,
        WorkerActionView::Serve,
    )
}

/// The state with the connection of this key dead.
pub open spec fn killed(v: AppView, key: u64) -> AppView {
    v.with_peer(key, PeerView { dead: true, ..v.peer(key) })
}

/// The next frame is taken off the queue. One that does not fit ends the connection.
pub open spec fn step_drain(v: AppView, key: u64) -> WorkerStep {
    let p = v.peer(key);
    if p.out.len() == 0 {
        (v, WorkerPhase::Serving, WorkerActionView::Sleep)
    } else {
        let m = p.out[0];
        let w = v.with_peer(key, PeerView { out: p.out.skip(1), ..p });
        if protocol::frame_fault(m.kind, v.nick, m.text) is None {
            let frame = protocol::frame_bytes(m.kind, v.nick, m.text);
            (
                w,
                WorkerPhase::Sending { kind: m.kind, len: frame.len() as usize },
                WorkerActionView::Send { frame },
            )
        } else {
            (killed(w, key), WorkerPhase::Serving, WorkerActionView::Sleep)
        }
    }
}

/// A look at the queue, unless the chat or the connection has ended.
pub open spec fn step_turn(v: AppView, key: u64) -> WorkerStep {
    if v.quit || v.peer(key).dead {
        (killed(v, key), WorkerPhase::Stopping, WorkerActionView::Close)
    } else {
        step_drain(v, key)
    }
}

/// A frame was sent, or could not be. After one that was, the next is taken off the queue.
pub open spec fn step_sent(
    v: AppView,
    key: u64,
    kind: u32,
    len: nat,
    rc: i32,
    now: u64,
    mono: u64,
) -> WorkerStep {
    if rc != 0 {
        (killed(v, key), WorkerPhase::Serving, WorkerActionView::Sleep)
    } else {
        let n = protocol::wire_len(len);
        let info = v.peer(key).info;
        step_drain(
            v.with_info(
                key,
                InfoView {
                    bytes_tx: info.bytes_tx.wrapping_add(n as u64),
                    last_seen: Some(mono),
                    msgs_tx: if kind == CHAT_TYPE_MSG {
                        info.msgs_tx.wrapping_add(1)
                    } else {
                        info.msgs_tx
                    },
                    ..info
                },
            ).logged(NetLevel::Traffic, "tx frame "@ + text::dec(n) + "B"@, now),
            key,
        )
    }
}

/// The connection was closed.
pub open spec fn step_closed(v: AppView, key: u64, now: u64) -> WorkerStep {
    (
        v.left(v.peer(key).info.display(), now),
        WorkerPhase::Over,
        WorkerActionView::End { close_session: false, fault: None },
    )
}

/// The step for an event; an event out of turn changes nothing.
pub open spec fn after_event(
    v: AppView,
    w: Worker,
    event: WorkerEventView,
    now: u64,
    mono: u64,
) -> WorkerStep {
    match (w.phase, event) {
        (WorkerPhase::Fresh, WorkerEventView::Begin) => step_begin(v, w.key, now),
        (WorkerPhase::Opening, WorkerEventView::Session { rc, remote }) => step_session(
            v,
            w.key,
            rc,
            remote,
            now,
        ),
        (WorkerPhase::Negotiating, WorkerEventView::Stream { rc, present }) => step_stream(
            v,
            w.key,
            rc,
            present,
            now,
            mono,
        ),
        (WorkerPhase::Greeting { len }, WorkerEventView::Sent { rc }) => step_greeted(
            v,
            w.key,
            len as nat,
            rc,
            now,
        ),
        (WorkerPhase::Serving, WorkerEventView::Turn) => step_turn(v, w.key),
        (WorkerPhase::Sending { kind, len }, WorkerEventView::Sent { rc }) => step_sent(
            v,
            w.key,
            kind,
            len as nat,
            rc,
            now,
            mono,
        ),
        (WorkerPhase::Stopping, WorkerEventView::Closed) => step_closed(v, w.key, now),
        _ => (v, w.phase, WorkerActionView::Nothing),
    }
}

/// Whether the id that the other side gave can be shown.
pub open spec fn showable(v: AppView, event: WorkerEventView) -> bool {
    event matches WorkerEventView::Session { rc, remote } ==> rc != 0 || remote
        == v.identity.peer_id || util::can_shorten(remote)
}

fn begin(app: &mut AppState, key: u64, now: u64) -> (r: (WorkerPhase, WorkerAction))
    requires
        old(app)@.has_peer(key),
    ensures
        (final(app)@, r.0, r.1@) == step_begin(old(app)@, key, now),
{
    let mut dialer = false;
    let mut line = String::new();
    if let Some(i) = app.peer_pos(key) {
        proof {
            assert(app.peers@[i as int]@ == app@.peer(key));
        }
        dialer = app.peers[i].info.initiator;
        line =
        if dialer {
            text::cat2("dial tcp ", app.peers[i].info.addr.as_str())
        } else {
            text::cat2("accept tcp ", app.peers[i].info.addr.as_str())
        };
    }
    app.netlog(NetLevel::Info, line.as_str(), now);
    (WorkerPhase::Opening, WorkerAction::Init { dialer, timeout_ms: HANDSHAKE_TIMEOUT_MS })
}

fn session_ready(app: &mut AppState, key: u64, rc: i32, remote: String, now: u64) -> (r: (
    WorkerPhase,
    WorkerAction,
))
    requires
        old(app)@.has_peer(key),
        showable(old(app)@, (WorkerEventView::Session { rc, remote: remote@ })),
    ensures
        (final(app)@, r.0, r.1@) == step_session(old(app)@, key, rc, remote@, now),
{
    if rc != 0 {
        let fault = Some(WorkerError::Session);
        return (WorkerPhase::Over, WorkerAction::End { close_session: false, fault });
    }
    if remote == app.identity.peer_id {
        return (WorkerPhase::Over, WorkerAction::End { close_session: true, fault: None });
    }
    let ghost v = app@;
    let ghost full = remote@;
    let short = util::truncate_pid(remote.as_str());
    let line = text::cat2("peer id ", short.as_str());
    let mut dialer = false;
    if let Some(i) = app.peer_pos(key) {
        proof {
            assert(app.peers@[i as int]@ == v.peer(key));
        }
        dialer = app.peers[i].info.initiator;
        app.peers[i].info.remote_pid_full = remote;
        app.peers[i].info.remote_pid_short = short;
        proof {
            let info = InfoView {
                remote_pid_full: full,
                remote_pid_short: util::short_pid(full),
                ..v.peer(key).info
            };
            let p = PeerView { info, ..v.peer(key) };
            assert(app.peers@[i as int]@ == p);
            assert(app@.peers =~= v.peers.update(i as int, p));
            assert(app@ =~= v.with_info(key, info));
        }
    }
    app.netlog(NetLevel::Okay, line.as_str(), now);
    (WorkerPhase::Negotiating, WorkerAction::Negotiate { dialer })
}

fn stream_ready(app: &mut AppState, key: u64, rc: i32, present: bool, now: u64, mono: u64) -> (r: (
    WorkerPhase,
    WorkerAction,
))
    requires
        old(app)@.sound(),
        old(app)@.has_peer(key),
    ensures
        (final(app)@, r.0, r.1@) == step_stream(old(app)@, key, rc, present, now, mono),
        r.0 matches WorkerPhase::Greeting { len } ==> len <= MAX_FRAME_LEN,
{
    if rc != 0 || !present {
        let fault = Some(WorkerError::Negotiation);
        return (WorkerPhase::Over, WorkerAction::End { close_session: true, fault });
    }
    let ghost v = app@;
    let mut short = String::new();
    if let Some(i) = app.peer_pos(key) {
        proof {
            assert(app.peers@[i as int]@ == v.peer(key));
            assert(util::can_shorten(v.peers[i as int].info.remote_pid_full));
        }
        short = util::truncate_pid(app.peers[i].info.remote_pid_full.as_str());
        app.peers[i].info.handshake_done = true;
        app.peers[i].info.connected_at = Some(mono);
        app.peers[i].info.last_seen = Some(mono);
        proof {
            let info = InfoView {
                handshake_done: true,
                connected_at: Some(mono),
                last_seen: Some(mono),
                ..v.peer(key).info
            };
            let p = PeerView { info, ..v.peer(key) };
            assert(app.peers@[i as int]@ == p);
            assert(app@.peers =~= v.peers.update(i as int, p));
            assert(app@ =~= v.with_info(key, info));
        }
    }
    app.emit_join("(unknown)", short.as_str(), now);
    app.netlog(NetLevel::Okay, "opened chat stream", now);
    match protocol::chat_frame_encode(CHAT_TYPE_HELLO, app.nick.as_str(), "") {
        Ok(frame) => (WorkerPhase::Greeting { len: frame.len() }, WorkerAction::Send { frame }),
        Err(_) => (WorkerPhase::Serving, WorkerAction::Serve),
    }
}

fn greeted(app: &mut AppState, key: u64, len: usize, rc: i32, now: u64) -> (r: (
    WorkerPhase,
    WorkerAction,
))
    requires
        old(app)@.has_peer(key),
        len <= MAX_FRAME_LEN,
    ensures
        (final(app)@, r.0, r.1@) == step_greeted(old(app)@, key, len as nat, rc, now),
{
    let ghost v = app@;
    if let Ok(n) = protocol::send_chat_frame(len, rc) {
        if let Some(i) = app.peer_pos(key) {
            proof {
                assert(app.peers@[i as int]@ == v.peer(key));
            }
            let bytes: u64 = app.peers[i].info.bytes_tx.wrapping_add(n as u64);
            app.peers[i].info.bytes_tx = bytes;
            proof {
                let info = InfoView { bytes_tx: bytes, ..v.peer(key).info };
                let p = PeerView { info, ..v.peer(key) };
                assert(app.peers@[i as int]@ == p);
                assert(app@.peers =~= v.peers.update(i as int, p));
                assert(app@ =~= v.with_info(key, info));
            }
        }
        let n_text = text::dec_string(n as u64);
        let line = text::cat3("tx hello ", n_text.as_str(), "B");
        app.netlog(NetLevel::Traffic, line.as_str(), now);
    }
    (WorkerPhase::Serving, WorkerAction::Serve)
}

fn kill(app: &mut AppState, key: u64)
    requires
        old(app)@.has_peer(key),
    ensures
        final(app)@ == killed(old(app)@, key),
{
    let ghost v = app@;
    if let Some(i) = app.peer_pos(key) {
        proof {
            assert(app.peers@[i as int]@ == v.peer(key));
        }
        app.peers[i].dead = true;
        proof {
            let p = PeerView { dead: true, ..v.peer(key) };
            assert(app.peers@[i as int]@ == p);
            assert(app@.peers =~= v.peers.update(i as int, p));
            assert(app@ =~= v.with_peer(key, p));
        }
    }
}

proof fn lemma_still_there(v: AppView, w: AppView, key: u64, p: PeerView)
    requires
        v.has_peer(key),
        p.key == key,
        w.peers == v.peers.update(v.place(key), p),
    ensures
        w.has_peer(key),
        w.place(key) == v.place(key),
        w.peer(key) == p,
{
    let i = v.place(key);
    assert(v.peer_at(key, i));
    assert forall|j: int| 0 <= j < i implies (#[trigger] w.peers[j]).key != key by {
        assert(v.peers[j].key != key);
    }
    assert(w.peer_at(key, i));
    app::lemma_place(w, key, i);
}

fn drain(app: &mut AppState, key: u64) -> (r: (WorkerPhase, WorkerAction))
    requires
        old(app)@.has_peer(key),
    ensures
        (final(app)@, r.0, r.1@) == step_drain(old(app)@, key),
        r.0 matches WorkerPhase::Sending { kind: _, len } ==> len <= MAX_FRAME_LEN,
{
    let ghost v = app@;
    let mut next = None;
    if let Some(i) = app.peer_pos(key) {
        proof {
            assert(app.peers@[i as int]@ == v.peer(key));
        }
        next = app.peers[i].dequeue();
        proof {
            assert(app@.peers =~= v.peers.update(i as int, app.peers@[i as int]@));
            if next is None {
                assert(app@.peers =~= v.peers);
                assert(app@ =~= v);
            } else {
                let p = PeerView { out: v.peer(key).out.skip(1), ..v.peer(key) };
                assert(app@ =~= v.with_peer(key, p));
                lemma_still_there(v, app@, key, p);
            }
        }
    }
    match next {
        None => (WorkerPhase::Serving, WorkerAction::Sleep),
        Some(m) => {
            match protocol::chat_frame_encode(m.kind, app.nick.as_str(), m.text.as_str()) {
                Ok(frame) => (
                    WorkerPhase::Sending { kind: m.kind, len: frame.len() },
                    WorkerAction::Send { frame },
                ),
                Err(_) => {
                    kill(app, key);
                    (WorkerPhase::Serving, WorkerAction::Sleep)
                },
            }
        },
    }
}

fn turn(app: &mut AppState, key: u64) -> (r: (WorkerPhase, WorkerAction))
    requires
        old(app)@.has_peer(key),
    ensures
        (final(app)@, r.0, r.1@) == step_turn(old(app)@, key),
        r.0 matches WorkerPhase::Sending { kind: _, len } ==> len <= MAX_FRAME_LEN,
{
    let dead = match app.peer_pos(key) {
        Some(i) => {
            proof {
                assert(app.peers@[i as int]@ == app@.peer(key));
            }
            app.peers[i].dead
        },
        None => true,
    };
    if app.quit || dead {
        kill(app, key);
        (WorkerPhase::Stopping, WorkerAction::Close)
    } else {
        drain(app, key)
    }
}

fn frame_sent(
    app: &mut AppState,
    key: u64,
    kind: u32,
    len: usize,
    rc: i32,
    now: u64,
    mono: u64,
) -> (r: (WorkerPhase, WorkerAction))
    requires
        old(app)@.has_peer(key),
        len <= MAX_FRAME_LEN,
    ensures
        (final(app)@, r.0, r.1@) == step_sent(old(app)@, key, kind, len as nat, rc, now, mono),
        r.0 matches WorkerPhase::Sending { kind: _, len } ==> len <= MAX_FRAME_LEN,
{
    let ghost v = app@;
    let n: usize = match protocol::send_chat_frame(len, rc) {
        Ok(n) => n,
        Err(_) => {
            kill(app, key);
            return (WorkerPhase::Serving, WorkerAction::Sleep);
        },
    };
    if let Some(i) = app.peer_pos(key) {
        proof {
            assert(app.peers@[i as int]@ == v.peer(key));
        }
        let bytes: u64 = app.peers[i].info.bytes_tx.wrapping_add(n as u64);
        let mut msgs: u64 = app.peers[i].info.msgs_tx;
        if kind == CHAT_TYPE_MSG {
            msgs = msgs.wrapping_add(1);
        }
        app.peers[i].info.bytes_tx = bytes;
        app.peers[i].info.last_seen = Some(mono);
        app.peers[i].info.msgs_tx = msgs;
        proof {
            let info = InfoView {
                bytes_tx: bytes,
                last_seen: Some(mono),
                msgs_tx: msgs,
                ..v.peer(key).info
            };
            let p = PeerView { info, ..v.peer(key) };
            assert(app.peers@[i as int]@ == p);
            assert(app@.peers =~= v.peers.update(i as int, p));
            assert(app@ =~= v.with_info(key, info));
            assert(v.peer_at(key, v.place(key)));
            lemma_still_there(v, app@, key, p);
        }
    }
    let ghost between = app@;
    let n_text = text::dec_string(n as u64);
    let line = text::cat3("tx frame ", n_text.as_str(), "B");
    app.netlog(NetLevel::Traffic, line.as_str(), now);
    proof {
        assert(app@.peers == between.peers);
        assert(app@.peer_at(key, between.place(key)));
    }
    drain(app, key)
}

fn closed(app: &mut AppState, key: u64, now: u64) -> (r: (WorkerPhase, WorkerAction))
    requires
        old(app)@.has_peer(key),
    ensures
        (final(app)@, r.0, r.1@) == step_closed(old(app)@, key, now),
{
    let mut name = String::new();
    if let Some(i) = app.peer_pos(key) {
        proof {
            assert(app.peers@[i as int]@ == app@.peer(key));
        }
        name = app.peers[i].info.display();
    }
    app.emit_leave(name.as_str(), now);
    (WorkerPhase::Over, WorkerAction::End { close_session: false, fault: None })
}

/// Takes what happened to a connection, and tells what to do next. `mono` is the reading of a clock
/// that never goes back.
pub fn peer_worker(
    app: &mut AppState,
    worker: &mut Worker,
    event: WorkerEvent,
    now: u64,
    mono: u64,
) -> (r: WorkerAction)
    requires
        old(app)@.sound(),
        old(app)@.has_peer(old(worker).key),
        old(worker).wf(),
        showable(old(app)@, event@),
    ensures
        (final(app)@, final(worker).phase, r@) == after_event(
            old(app)@,
            *old(worker),
            event@,
            now,
            mono,
        ),
        final(worker).key == old(worker).key,
        final(worker).wf(),
        final(app)@.sound(),
        final(app)@.has_peer(final(worker).key),
{
    proof {
        law_worker_keeps_sound(app@, *worker, event@, now, mono);
    }
    let key: u64 = worker.key;
    let (phase, action) = match (worker.phase, event) {
        (WorkerPhase::Fresh, WorkerEvent::Begin) => begin(app, key, now),
        (WorkerPhase::Opening, WorkerEvent::Session { rc, remote }) => session_ready(
            app,
            key,
            rc,
            remote,
            now,
        ),
        (WorkerPhase::Negotiating, WorkerEvent::Stream { rc, present }) => stream_ready(
            app,
            key,
            rc,
            present,
            now,
            mono,
        ),
        (WorkerPhase::Greeting { len }, WorkerEvent::Sent { rc }) => greeted(
            app,
            key,
            len,
            rc,
            now,
        ),
        (WorkerPhase::Serving, WorkerEvent::Turn) => turn(app, key),
        (WorkerPhase::Sending { kind, len }, WorkerEvent::Sent { rc }) => frame_sent(
            app,
            key,
            kind,
            len,
            rc,
            now,
            mono,
        ),
        (WorkerPhase::Stopping, WorkerEvent::Closed) => closed(app, key, now),
        (phase, _) => (phase, WorkerAction::Nothing),
    };
    worker.phase = phase;
    action
}

/// What happened to a reader.
pub enum ReaderEvent {
    /// It is about to wait for a frame.
    Check,
    /// A frame came: the buffer that was filled, how much of it, and the return code.
    Received { buf: Vec<u8>, len: usize, rc: i32 },
}

/// What happened to a reader, in plain values.
#[verifier::ext_equal]
pub enum ReaderEventView {
    Check,
    Received { buf: Seq<u8>, len: nat, rc: i32 },
}

impl View for ReaderEvent {
    type V = ReaderEventView;

    open spec fn view(&self) -> ReaderEventView {
        match *self {
            ReaderEvent::Check => ReaderEventView::Check,
            ReaderEvent::Received { buf, len, rc } => ReaderEventView::Received {
                buf: buf@,
                len: len as nat,
                rc,
            },
        }
    }
}

/// What a reader has to do.
pub enum ReaderAction {
    /// Wait for a frame.
    Receive,
    /// Do this with files on disk, and go on.
    Act { file: FileAction },
    /// End.
    Stop,
}

/// What a reader has to do, in plain values.
#[verifier::ext_equal]
pub enum ReaderActionView {
    Receive,
    Act { file: FileActionView },
    Stop,
}

impl View for ReaderAction {
    type V = ReaderActionView;

    open spec fn view(&self) -> ReaderActionView {
        match *self {
            ReaderAction::Receive => ReaderActionView::Receive,
            ReaderAction::Act { file } => ReaderActionView::Act { file: file@ },
            ReaderAction::Stop => ReaderActionView::Stop,
        }
    }
}

/// What is known of a connection after a frame of `n` bytes with this nick.
pub open spec fn heard(info: InfoView, nick: Seq<char>, n: nat, mono: u64) -> InfoView {
    InfoView {
        bytes_rx: info.bytes_rx.wrapping_add(n as u64),
        last_seen: Some(mono),
        remote_nick: if nick.len() > 0 {
            nick
        } else {
            info.remote_nick
        },
        ..info
    }
}

/// The state after a frame of this content, and what to do.
pub open spec fn after_content(
    v: AppView,
    key: u64,
    kind: u32,
    nick: Seq<char>,
    body: Seq<char>,
    n: nat,
    now: u64,
    mono: u64,
) -> (AppView, ReaderActionView) {
    let info = heard(v.peer(key).info, nick, n, mono);
    let w = v.with_info(key, info);
    if kind == CHAT_TYPE_MSG {
        (
            v.with_info(
                key,
                InfoView { msgs_rx: info.msgs_rx.wrapping_add(1), ..info },
            ).chatted(info.remote_pid_full, info.display(), body, now).logged(
                NetLevel::Traffic,
                "rx chat "@ + text::dec(n) + "B"@,
                now,
            ),
            ReaderActionView::Act { file: FileActionView::Nothing },
        )
    } else if kind == CHAT_TYPE_HELLO {
        (
            w.joined(info.display(), util::short_pid(info.remote_pid_full), now),
            ReaderActionView::Act { file: FileActionView::Nothing },
        )
    } else if kind == CHAT_TYPE_BYE {
        (killed(w, key), ReaderActionView::Stop)
    } else if protocol::carries_file(kind) {
        let (x, file) = files::after_file_frame(w, key, kind, body, now);
        (x, ReaderActionView::Act { file })
    } else {
        (w, ReaderActionView::Act { file: FileActionView::Nothing })
    }
}

/// The state after what happened to the reader of the connection of this key, and what to do.
pub open spec fn after_reading(
    v: AppView,
    key: u64,
    event: ReaderEventView,
    now: u64,
    mono: u64,
) -> (AppView, ReaderActionView) {
    match event {
        ReaderEventView::Check => if v.quit || v.peer(key).dead {
            (killed(v, key), ReaderActionView::Stop)
        } else {
            (v, ReaderActionView::Receive)
        },
        ReaderEventView::Received { buf, len, rc } => if rc != 0 {
            (killed(v, key), ReaderActionView::Stop)
        } else {
            match protocol::frame_content(buf.take(len as int)) {
                Ok((kind, nick, body)) => after_content(
                    v,
                    key,
                    kind,
                    nick,
                    body,
                    protocol::wire_len(len),
                    now,
                    mono,
                ),
                Err(_) => (v, ReaderActionView::Act { file: FileActionView::Nothing }),
            }
        },
    }
}

fn take_content(
    app: &mut AppState,
    key: u64,
    kind: u32,
    nick: String,
    body: String,
    n: usize,
    now: u64,
    mono: u64,
) -> (r: ReaderAction)
    requires
        old(app)@.sound(),
        old(app)@.has_peer(key),
    ensures
        (final(app)@, r@) == after_content(old(app)@, key, kind, nick@, body@, n as nat, now, mono),
{
    let ghost v = app@;
    let ghost info = heard(v.peer(key).info, nick@, n as nat, mono);
    let i: usize = match app.peer_pos(key) {
        Some(i) => i,
        None => {
            return ReaderAction::Stop;
        },
    };
    proof {
        assert(app.peers@[i as int]@ == v.peer(key));
        assert(util::can_shorten(v.peers[i as int].info.remote_pid_full));
    }
    let bytes: u64 = app.peers[i].info.bytes_rx.wrapping_add(n as u64);
    app.peers[i].info.bytes_rx = bytes;
    app.peers[i].info.last_seen = Some(mono);
    if !nick.as_str().is_empty() {
        app.peers[i].info.remote_nick = nick;
    }
    let ghost p = PeerView { info, ..v.peer(key) };
    proof {
        assert(app.peers@[i as int]@ == p);
        assert(app@.peers =~= v.peers.update(i as int, p));
        assert(app@ =~= v.with_info(key, info));
        lemma_still_there(v, app@, key, p);
    }
    if kind == CHAT_TYPE_MSG {
        let msgs: u64 = app.peers[i].info.msgs_rx.wrapping_add(1);
        app.peers[i].info.msgs_rx = msgs;
        proof {
            let more = InfoView { msgs_rx: msgs, ..info };
            let q = PeerView { info: more, ..v.peer(key) };
            assert(app.peers@[i as int]@ == q);
            assert(app@.peers =~= v.peers.update(i as int, q));
            assert(app@ =~= v.with_info(key, more));
        }
        let pid = app.peers[i].info.remote_pid_full.clone();
        let name = app.peers[i].info.display();
        app.emit_chat(pid.as_str(), name.as_str(), body.as_str(), now);
        let n_text = text::dec_string(n as u64);
        let line = text::cat3("rx chat ", n_text.as_str(), "B");
        app.netlog(NetLevel::Traffic, line.as_str(), now);
        ReaderAction::Act { file: FileAction::Nothing }
    } else if kind == CHAT_TYPE_HELLO {
        let name = app.peers[i].info.display();
        let short = util::truncate_pid(app.peers[i].info.remote_pid_full.as_str());
        app.emit_join(name.as_str(), short.as_str(), now);
        ReaderAction::Act { file: FileAction::Nothing }
    } else if kind == CHAT_TYPE_BYE {
        kill(app, key);
        ReaderAction::Stop
    } else if protocol::is_file_frame(kind) {
        let file = files::handle_file_frame(app, key, kind, body.as_str(), now);
        ReaderAction::Act { file }
    } else {
        ReaderAction::Act { file: FileAction::Nothing }
    }
}

/// Takes what happened to the reader of a connection, and tells what to do next. A frame that cannot
/// be decoded is passed over.
pub fn peer_reader(app: &mut AppState, key: u64, event: ReaderEvent, now: u64, mono: u64) -> (r:
    ReaderAction)
    requires
        old(app)@.sound(),
        old(app)@.has_peer(key),
        event@ matches ReaderEventView::Received { buf, len, rc: _ } ==> len <= buf.len()
            && buf.len() == MAX_FRAME_LEN,
    ensures
        (final(app)@, r@) == after_reading(old(app)@, key, event@, now, mono),
        final(app)@.sound(),
        final(app)@.has_peer(key),
{
    proof {
        law_reader_keeps_sound(app@, key, event@, now, mono);
    }
    match event {
        ReaderEvent::Check => {
            let dead = match app.peer_pos(key) {
                Some(i) => {
                    proof {
                        assert(app.peers@[i as int]@ == app@.peer(key));
                    }
                    app.peers[i].dead
                },
                None => true,
            };
            if app.quit || dead {
                kill(app, key);
                ReaderAction::Stop
            } else {
                ReaderAction::Receive
            }
        },
        ReaderEvent::Received { buf, len, rc } => {
            match protocol::recv_chat_frame(buf, len, rc) {
                Err(_) => {
                    kill(app, key);
                    ReaderAction::Stop
                },
                Ok((frame, n)) => {
                    match protocol::chat_frame_decode(frame.as_slice()) {
                        Err(_) => ReaderAction::Act { file: FileAction::Nothing },
                        Ok((kind, nick, body)) => take_content(
                            app,
                            key,
                            kind,
                            nick,
                            body,
                            n,
                            now,
                            mono,
                        ),
                    }
                },
            }
        },
    }
}

proof fn lemma_drain_sound(v: AppView, key: u64)
    requires
        v.sound(),
        v.has_peer(key),
    ensures
        step_drain(v, key).0.sound(),
        step_drain(v, key).0.has_peer(key),
        killed(v, key).sound(),
        killed(v, key).has_peer(key),
{
    let p = v.peer(key);
    assert(v.peer_at(key, v.place(key)));
    app::law_peer_change_keeps_sound(v, key, PeerView { dead: true, ..p });
    if p.out.len() > 0 {
        let q = PeerView { out: p.out.skip(1), ..p };
        let w = v.with_peer(key, q);
        app::law_peer_change_keeps_sound(v, key, q);
        app::law_peer_change_keeps_sound(w, key, PeerView { dead: true, ..q });
    }
}

/// Whatever happens to a connection, in whatever order, the state stays sound and the connection
/// stays in the list until the work on it has ended.
pub proof fn law_worker_keeps_sound(
    v: AppView,
    w: Worker,
    event: WorkerEventView,
    now: u64,
    mono: u64,
)
    requires
        v.sound(),
        v.has_peer(w.key),
        showable(v, event),
    ensures
        after_event(v, w, event, now, mono).0.sound(),
        after_event(v, w, event, now, mono).0.has_peer(w.key),
{
    let key = w.key;
    let p = v.peer(key);
    let info = p.info;
    let x = after_event(v, w, event, now, mono).0;
    assert(v.peer_at(key, v.place(key)));
    lemma_drain_sound(v, key);
    match (w.phase, event) {
        (WorkerPhase::Fresh, WorkerEventView::Begin) => {
            app::law_log_keeps_sound(
                v,
                NetLevel::Info,
                (if info.initiator {
                    "dial tcp "@
                } else {
                    "accept tcp "@
                }) + info.addr,
                now,
            );
            assert(x.peer_at(key, v.place(key)));
        },
        (WorkerPhase::Opening, WorkerEventView::Session { rc, remote }) => {
            if rc == 0 && remote != v.identity.peer_id {
                let more = InfoView {
                    remote_pid_full: remote,
                    remote_pid_short: util::short_pid(remote),
                    ..info
                };
                app::law_peer_change_keeps_sound(v, key, PeerView { info: more, ..p });
                let y = v.with_info(key, more);
                app::law_log_keeps_sound(y, NetLevel::Okay, "peer id "@ + util::short_pid(remote), now);
                assert(x.peer_at(key, y.place(key))) by {
                    assert(y.peer_at(key, y.place(key)));
                }
            }
        },
        (WorkerPhase::Negotiating, WorkerEventView::Stream { rc, present }) => {
            if rc == 0 && present {
                let more = InfoView {
                    handshake_done: true,
                    connected_at: Some(mono),
                    last_seen: Some(mono),
                    ..info
                };
                app::law_peer_change_keeps_sound(v, key, PeerView { info: more, ..p });
                let y = v.with_info(key, more);
                let short = util::short_pid(info.remote_pid_full);
                app::law_notices_keep_sound(y, "(unknown)"@, short, now);
                app::law_log_keeps_sound(
                    y.joined("(unknown)"@, short, now),
                    NetLevel::Okay,
                    "opened chat stream"@,
                    now,
                );
                assert(x.peer_at(key, y.place(key))) by {
                    assert(y.peer_at(key, y.place(key)));
                }
            }
        },
        (WorkerPhase::Greeting { len }, WorkerEventView::Sent { rc }) => {
            if rc == 0 {
                let n = protocol::wire_len(len as nat);
                let more = InfoView { bytes_tx: info.bytes_tx.wrapping_add(n as u64), ..info };
                app::law_peer_change_keeps_sound(v, key, PeerView { info: more, ..p });
                let y = v.with_info(key, more);
                app::law_log_keeps_sound(y, NetLevel::Traffic, "tx hello "@ + text::dec(n) + "B"@, now);
                assert(x.peer_at(key, y.place(key))) by {
                    assert(y.peer_at(key, y.place(key)));
                }
            }
        },
        (WorkerPhase::Sending { kind, len }, WorkerEventView::Sent { rc }) => {
            if rc == 0 {
                let n = protocol::wire_len(len as nat);
                let more = InfoView {
                    bytes_tx: info.bytes_tx.wrapping_add(n as u64),
                    last_seen: Some(mono),
                    msgs_tx: if kind == CHAT_TYPE_MSG {
                        info.msgs_tx.wrapping_add(1)
                    } else {
                        info.msgs_tx
                    },
                    ..info
                };
                app::law_peer_change_keeps_sound(v, key, PeerView { info: more, ..p });
                let y = v.with_info(key, more);
                let line = "tx frame "@ + text::dec(n) + "B"@;
                app::law_log_keeps_sound(y, NetLevel::Traffic, line, now);
                let z = y.logged(NetLevel::Traffic, line, now);
                assert(z.peer_at(key, y.place(key))) by {
                    assert(y.peer_at(key, y.place(key)));
                }
                lemma_drain_sound(z, key);
            }
        },
        (WorkerPhase::Stopping, WorkerEventView::Closed) => {
            app::law_notices_keep_sound(v, info.display(), ""@, now);
            assert(x.peer_at(key, v.place(key)));
        },
        _ => {},
    }
}

/// The step of the work after a look at the queue and `n` frames that were sent without a failure,
/// each at its own time, which is given by the wall and by the running clock.
pub open spec fn after_sends(v: AppView, key: u64, n: nat, times: Seq<(u64, u64)>) -> WorkerStep
    decreases n,
{
    if n == 0 {
        step_turn(v, key)
    } else {
        let (w, phase, action) = after_sends(v, key, (n - 1) as nat, times);
        let (now, mono) = times[n - 1];
        match phase {
            WorkerPhase::Sending { kind, len } => step_sent(w, key, kind, len as nat, 0, now, mono),
            _ => (w, phase, action),
        }
    }
}

/// What waits for a peer is sent frame by frame in the order in which it was queued, and nothing of
/// it is left out or sent twice; only when the queue is empty does the work pause.
pub proof fn law_sent_in_order(v: AppView, key: u64, n: nat, times: Seq<(u64, u64)>)
    requires
        v.sound(),
        v.has_peer(key),
        !v.quit,
        !v.peer(key).dead,
        forall|i: int|
            0 <= i < v.peer(key).out.len() ==> protocol::frame_fault(
                (#[trigger] v.peer(key).out[i]).kind,
                v.nick,
                v.peer(key).out[i].text,
            ) is None,
        n <= v.peer(key).out.len(),
    ensures
        ({
            let q = v.peer(key).out;
            let (w, phase, action) = after_sends(v, key, n, times);
            &&& w.sound() && w.has_peer(key) && w.nick == v.nick
            &&& n < q.len() ==> action == (WorkerActionView::Send {
                frame: protocol::frame_bytes(q[n as int].kind, v.nick, q[n as int].text),
            }) && phase is Sending && w.peer(key).out == q.skip(n as int + 1)
            &&& n == q.len() ==> action is Sleep && w.peer(key).out.len() == 0
        }),
    decreases n,
{
    let q = v.peer(key).out;
    assert(v.peer_at(key, v.place(key)));
    if n == 0 {
        lemma_drain_sound(v, key);
        if q.len() > 0 {
            let p = PeerView { out: q.skip(1), ..v.peer(key) };
            lemma_still_there(v, v.with_peer(key, p), key, p);
            assert(protocol::frame_fault(q[0].kind, v.nick, q[0].text) is None);
        }
    } else {
        law_sent_in_order(v, key, (n - 1) as nat, times);
        let (w, phase, action) = after_sends(v, key, (n - 1) as nat, times);
        let (now, mono) = times[n - 1];
        assert(w.peer_at(key, w.place(key)));
        let kind = phase->Sending_kind;
        let len = phase->Sending_len;
        let info = w.peer(key).info;
        let size = protocol::wire_len(len as nat);
        let more = InfoView {
            bytes_tx: info.bytes_tx.wrapping_add(size as u64),
            last_seen: Some(mono),
            msgs_tx: if kind == CHAT_TYPE_MSG {
                info.msgs_tx.wrapping_add(1)
            } else {
                info.msgs_tx
            },
            ..info
        };
        let p = PeerView { info: more, ..w.peer(key) };
        app::law_peer_change_keeps_sound(w, key, p);
        let x = w.with_info(key, more);
        let line = "tx frame "@ + text::dec(size) + "B"@;
        app::law_log_keeps_sound(x, NetLevel::Traffic, line, now);
        let y = x.logged(NetLevel::Traffic, line, now);
        assert(y.peer_at(key, x.place(key))) by {
            assert(x.peer_at(key, x.place(key)));
        }
        app::lemma_place(y, key, x.place(key));
        lemma_drain_sound(y, key);
        assert(y.peer(key).out == q.skip(n as int));
        if n < q.len() {
            assert(q.skip(n as int)[0] == q[n as int]);
            assert(protocol::frame_fault(q[n as int].kind, v.nick, q[n as int].text) is None);
            assert(q.skip(n as int).skip(1) =~= q.skip(n as int + 1));
            let r = PeerView { out: q.skip(n as int).skip(1), ..y.peer(key) };
            lemma_still_there(y, y.with_peer(key, r), key, r);
        }
    }
}

/// Whatever a peer sends, the state stays sound and the connection stays in the list.
pub proof fn law_reader_keeps_sound(
    v: AppView,
    key: u64,
    event: ReaderEventView,
    now: u64,
    mono: u64,
)
    requires
        v.sound(),
        v.has_peer(key),
    ensures
        after_reading(v, key, event, now, mono).0.sound(),
        after_reading(v, key, event, now, mono).0.has_peer(key),
{
    let p = v.peer(key);
    let x = after_reading(v, key, event, now, mono).0;
    assert(v.peer_at(key, v.place(key)));
    lemma_drain_sound(v, key);
    if let ReaderEventView::Received { buf, len, rc } = event {
        if let Ok((kind, nick, body)) = protocol::frame_content(buf.take(len as int)) {
            let n = protocol::wire_len(len);
            let info = heard(p.info, nick, n, mono);
            let w = v.with_info(key, info);
            app::law_peer_change_keeps_sound(v, key, PeerView { info, ..p });
            assert(w.peer_at(key, w.place(key)));
            let more = InfoView { msgs_rx: info.msgs_rx.wrapping_add(1), ..info };
            let m = v.with_info(key, more);
            app::law_peer_change_keeps_sound(v, key, PeerView { info: more, ..p });
            assert(m.peer_at(key, m.place(key)));
            let said = m.chatted(info.remote_pid_full, info.display(), body, now);
            app::law_note_keeps_sound(
                m,
                app::MsgKind::Chat,
                info.display(),
                info.remote_pid_full,
                body,
                now,
            );
            app::law_log_keeps_sound(said, NetLevel::Traffic, "rx chat "@ + text::dec(n) + "B"@, now);
            app::law_notices_keep_sound(
                w,
                info.display(),
                util::short_pid(info.remote_pid_full),
                now,
            );
            lemma_drain_sound(w, key);
            files::law_file_frames_keep_sound(w, key, kind, body, now);
            if rc == 0 && kind == CHAT_TYPE_MSG {
                assert(x.peer_at(key, m.place(key)));
            } else if rc == 0 && kind == CHAT_TYPE_HELLO {
                assert(x.peer_at(key, w.place(key)));
            }
        }
    }
}

/// A message that one side sends is shown on the other side under the sender's nick, or under the
/// name by which the sender is known where the nick is empty, and with the same text, but for the NUL
/// characters that a C string cannot hold.
pub proof fn law_message_arrives(
    v: AppView,
    key: u64,
    nick: Seq<char>,
    body: Seq<char>,
    buf: Seq<u8>,
    now: u64,
    mono: u64,
)
    requires
        v.has_peer(key),
        protocol::frame_fault(CHAT_TYPE_MSG, nick, body) is None,
        protocol::frame_bytes(CHAT_TYPE_MSG, nick, body).len() <= buf.len(),
        buf.take(protocol::frame_bytes(CHAT_TYPE_MSG, nick, body).len() as int)
            == protocol::frame_bytes(CHAT_TYPE_MSG, nick, body),
    ensures
        ({
            let len = protocol::frame_bytes(CHAT_TYPE_MSG, nick, body).len();
            let w = after_reading(
                v,
                key,
                ReaderEventView::Received { buf, len, rc: 0 },
                now,
                mono,
            ).0;
            &&& w.history.last().kind == app::MsgKind::Chat
            &&& w.history.last().nick == util::or_else(
                ffi::without_nul(nick),
                v.peer(key).info.display(),
            )
            &&& w.history.last().text == ffi::without_nul(body)
            &&& w.peer(key).info.msgs_rx == v.peer(key).info.msgs_rx.wrapping_add(1)
        }),
{
    let len = protocol::frame_bytes(CHAT_TYPE_MSG, nick, body).len();
    let w = after_reading(v, key, ReaderEventView::Received { buf, len, rc: 0 }, now, mono).0;
    protocol::law_frame_round_trip(CHAT_TYPE_MSG, nick, body);
    let n = protocol::wire_len(len);
    let info = heard(v.peer(key).info, ffi::without_nul(nick), n, mono);
    let more = InfoView { msgs_rx: info.msgs_rx.wrapping_add(1), ..info };
    assert(v.peer_at(key, v.place(key)));
    lemma_still_there(v, w, key, PeerView { info: more, ..v.peer(key) });
}

}
