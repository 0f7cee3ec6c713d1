//! Connections: addresses, dialling, and the list of peers.
use vstd::prelude::*;
use vstd::slice::slice_subrange;
use vstd::string::*;
use vstd::utf8::*;

use crate::app;
use crate::app::{AppState, AppView, InfoView, NetLevel, PeerHandle, PeerView};
use crate::constants::MAX_PEERS;
use crate::text;

verus! {

/// What follows `marker` in `prefix`, where it is not empty.
pub open spec fn behind(prefix: Seq<char>, marker: Seq<char>) -> Option<Seq<char>> {
    match text::after_prefix(prefix, marker) {
        Some(host) => if host.len() > 0 {
            Some(host)
        } else {
            None
        },
        None => None,
    }
}

/// The host in the part of a multiaddr before its TCP part.
pub open spec fn host_of(prefix: Seq<char>) -> Option<Seq<char>> {
    if behind(prefix, "/ip4/"@) is Some {
        behind(prefix, "/ip4/"@)
    } else if behind(prefix, "/ip6/"@) is Some {
        behind(prefix, "/ip6/"@)
    } else if behind(prefix, "/dns/"@) is Some {
        behind(prefix, "/dns/"@)
    } else if behind(prefix, "/dns4/"@) is Some {
        behind(prefix, "/dns4/"@)
    } else {
        behind(prefix, "/dns6/"@)
    }
}

fn host_behind(prefix: &[char], marker: &str) -> (r: Option<String>)
    ensures
        r is Some <==> behind(prefix@, marker@) is Some,
        r matches Some(host) ==> behind(prefix@, marker@) == Some(host@),
{
    match text::strip_prefix(prefix, marker) {
        Some(host) => {
            if host.len() > 0 {
                Some(text::string_of(host))
            } else {
                None
            }
        },
        None => None,
    }
}

/// The host in the part of a multiaddr before its TCP part: an IPv4 or IPv6 address or a DNS name.
pub fn parse_multiaddr_host(prefix: &[char]) -> (r: Option<String>)
    ensures
        r is Some <==> host_of(prefix@) is Some,
        r matches Some(host) ==> host_of(prefix@) == Some(host@),
{
    if let Some(host) = host_behind(prefix, "/ip4/") {
        return Some(host);
    }
    if let Some(host) = host_behind(prefix, "/ip6/") {
        return Some(host);
    }
    if let Some(host) = host_behind(prefix, "/dns/") {
        return Some(host);
    }
    if let Some(host) = host_behind(prefix, "/dns4/") {
        return Some(host);
    }
    host_behind(prefix, "/dns6/")
}

/// The part of `s` before its first slash.
pub open spec fn before_slash(s: Seq<char>) -> Seq<char> {
    match text::cut(s, '/') {
        Some((head, _)) => head,
        None => s,
    }
}

/// The TCP port that `s` stands for.
pub open spec fn port_of(s: Seq<char>) -> Option<u16> {
    match text::number(s, u16::MAX as nat) {
        Some(n) => Some(n as u16),
        None => None,
    }
}

pub(crate) fn parse_port(s: &[char]) -> (r: Option<u16>)
    ensures
        r == port_of(s@),
{
    match text::parse_number(s, u16::MAX as u64) {
        Some(n) => Some(n as u16),
        None => None,
    }
}

/// The host and the port of an address without white space around it.
pub open spec fn trimmed_address(value: Seq<char>) -> Option<(Seq<char>, u16)> {
    if value.len() > 0 && value[0] == '/' {
        match text::first_match(value, "/tcp/"@) {
            Some(i) => match (host_of(value.take(i)), port_of(before_slash(value.skip(i + 5)))) {
                (Some(host), Some(port)) => Some((host, port)),
                _ => None,
            },
            None => None,
        }
    } else {
        match text::cut_last(value, ':') {
            Some((host, port)) => match port_of(port) {
                Some(p) => if host.len() > 0 {
                    Some((text::stripped(host, '[', ']'), p))
                } else {
                    None
                },
                None => None,
            },
            None => None,
        }
    }
}

/// The host and the port of an address: a multiaddr with a TCP part, or a host and a port around a
/// colon.
pub open spec fn address_of(addr: Seq<char>) -> Option<(Seq<char>, u16)> {
    trimmed_address(text::trimmed(addr))
}

/// Reads the host and the port of an address.
pub fn parse_multiaddr(multiaddr: &str) -> (r: Option<(String, u16)>)
    ensures
        r is Some <==> address_of(multiaddr@) is Some,
        r matches Some(a) ==> address_of(multiaddr@) == Some((a.0@, a.1)),
{
    let chars = text::chars_of(multiaddr);
    let value = text::trim(chars.as_slice());
    if value.len() == 0 || value[0] != '/' {
        let (host, port) = match text::rsplit_once(value, ':') {
            Some(p) => p,
            None => {
                return None;
            },
        };
        if host.len() == 0 {
            return None;
        }
        return match parse_port(port) {
            Some(p) => Some((text::string_of(text::strip_both(host, '[', ']')), p)),
            None => None,
        };
    }
    proof {
        reveal_strlit("/tcp/");
    }
    let start: usize = match text::find_str(value, "/tcp/") {
        Some(i) => i,
        None => {
            return None;
        },
    };
    let n: usize = value.len();
    let head = slice_subrange(value, 0, start);
    let tail = slice_subrange(value, start + 5, n);
    proof {
        assert(head@ =~= value@.take(start as int));
        assert(tail@ =~= value@.skip(start + 5));
    }
    let host = match parse_multiaddr_host(head) {
        Some(host) => host,
        None => {
            return None;
        },
    };
    let port = match text::split_once(tail, '/') {
        Some((port, _)) => port,
        None => tail,
    };
    match parse_port(port) {
        Some(p) => Some((host, p)),
        None => None,
    }
}

/// A host and a port around a colon are read back as they were written, unless the host could be
/// taken for a multiaddr or has white space or brackets at its ends.
pub proof fn law_host_port_round_trip(host: Seq<char>, port: u16)
    requires
        host.len() > 0,
        host[0] != '/',
        !text::is_space(host[0]),
        host[0] != '[' && host[0] != ']',
        host.last() != '[' && host.last() != ']',
    ensures
        address_of(host + ":"@ + text::dec(port as nat)) == Some((host, port)),
{
    let d = text::dec(port as nat);
    let all = host + ":"@ + d;
    reveal_strlit(":");
    text::law_number_of_dec(port as nat, u16::MAX as nat);
    assert(text::is_dec_digit(d[d.len() - 1]));
    assert(all.last() == d[d.len() - 1]);
    assert(all[0] == host[0]);
    assert(text::trimmed(all) == all);
    assert forall|j: int| host.len() < j < all.len() implies all[j] != ':' by {
        assert(text::is_dec_digit(d[j - host.len() - 1]));
        assert(all[j] == d[j - host.len() - 1]);
    }
    text::lemma_last(all, ':', host.len() as int);
    assert(all.take(host.len() as int) =~= host);
    assert(all.skip(host.len() as int + 1) =~= d);
}

/// A host in brackets, as IPv6 addresses are written before a port, is read without them.
pub proof fn law_bracketed_host(host: Seq<char>, port: u16)
    requires
        host.len() > 0,
        host[0] != '[' && host[0] != ']',
        host.last() != '[' && host.last() != ']',
    ensures
        address_of("["@ + host + "]:"@ + text::dec(port as nat)) == Some((host, port)),
{
    let d = text::dec(port as nat);
    let inner = "["@ + host + "]"@;
    let all = "["@ + host + "]:"@ + d;
    reveal_strlit("[");
    reveal_strlit("]");
    reveal_strlit("]:");
    text::law_number_of_dec(port as nat, u16::MAX as nat);
    assert(text::is_dec_digit(d[d.len() - 1]));
    assert(all.last() == d[d.len() - 1]);
    assert(all[0] == '[');
    assert(text::trimmed(all) == all);
    let k = inner.len() as int;
    assert forall|j: int| k < j < all.len() implies all[j] != ':' by {
        assert(text::is_dec_digit(d[j - k - 1]));
        assert(all[j] == d[j - k - 1]);
    }
    assert(all[k] == ':');
    text::lemma_last(all, ':', k);
    assert(all.take(k) =~= inner);
    assert(all.skip(k + 1) =~= d);
    let one = inner.skip(1);
    assert(inner[0] == '[');
    assert(one =~= host.push(']'));
    assert(text::stripped_start(one, '[', ']') == one) by {
        assert(one[0] == host[0]);
    }
    assert(text::stripped_start(inner, '[', ']') == one);
    assert(one.drop_last() =~= host);
    assert(text::stripped_end(host, '[', ']') == host);
    assert(text::stripped_end(one, '[', ']') == host) by {
        assert(one.last() == ']');
    }
}

/// The multiaddr under which a peer with this id can be dialled.
pub open spec fn multiaddr_of(host: Seq<char>, port: u16, peer_id: Seq<char>) -> Seq<char> {
    "/ip4/"@ + host + "/tcp/"@ + text::dec(port as nat) + "/p2p/"@ + peer_id
}

/// The multiaddr that a peer announces can be dialled: it is read back as the host and the port of
/// which it was made, whatever the peer id is.
pub proof fn law_multiaddr_round_trip(host: Seq<char>, port: u16, peer_id: Seq<char>)
    requires
        host.len() > 0,
        !host.contains('/'),
        host != "tcp"@,
    ensures
        address_of(multiaddr_of(host, port, peer_id)) == Some((host, port)),
{
    reveal_strlit("/ip4/");
    reveal_strlit("/ip6/");
    reveal_strlit("/tcp/");
    reveal_strlit("/p2p/");
    reveal_strlit("tcp");
    let d = text::dec(port as nat);
    let a = "/ip4/"@ + host + "/tcp/"@ + d + "/p2p/"@;
    let t = text::trimmed_end(peer_id);
    let all = multiaddr_of(host, port, peer_id);
    text::law_number_of_dec(port as nat, u16::MAX as nat);
    assert(all =~= a + peer_id);
    assert(all[0] == '/');
    assert(a.last() == '/');
    text::lemma_trimmed_end_concat(a, peer_id);
    let v = a + t;
    assert(text::trimmed(all) == v);
    let k = 5 + host.len() as int;
    assert(v.subrange(k, k + 5) =~= "/tcp/"@);
    assert forall|j: int| 0 <= j < k implies !text::stands_at(v, "/tcp/"@, j) by {
        if text::stands_at(v, "/tcp/"@, j) {
            let w = v.subrange(j, j + 5);
            assert(w[0] == '/' && w[1] == 't' && w[2] == 'c' && w[3] == 'p' && w[4] == '/');
            assert(w[0] == v[j] && w[1] == v[j + 1] && w[2] == v[j + 2] && w[3] == v[j + 3] && w[4]
                == v[j + 4]);
            if j >= 5 {
                assert(v[j] == host[j - 5]);
                assert(host.contains(host[j - 5]));
            } else if j == 4 {
                assert(v[8] == '/');
                if host.len() > 3 {
                    assert(v[8] == host[3]);
                    assert(host.contains(host[3]));
                } else if host.len() == 3 {
                    assert(v[5] == host[0] && v[6] == host[1] && v[7] == host[2]);
                    assert(host =~= "tcp"@);
                } else if host.len() == 2 {
                    assert(v[7] == '/');
                } else {
                    assert(v[6] == '/');
                }
            }
        }
    }
    text::lemma_first_match(v, "/tcp/"@, k);
    assert(v.take(k) =~= "/ip4/"@ + host);
    assert(v.take(k).take(5) =~= "/ip4/"@);
    assert(v.take(k).skip(5) =~= host);
    let rest = v.skip(k + 5);
    assert(rest =~= d + "/p2p/"@ + t);
    assert forall|j: int| 0 <= j < d.len() implies rest[j] != '/' by {
        assert(text::is_dec_digit(d[j]));
        assert(rest[j] == d[j]);
    }
    assert(rest[d.len() as int] == '/');
    text::lemma_first(rest, '/', d.len() as int);
    assert(rest.take(d.len() as int) =~= d);
}

/// Whether `a` stands before `b` in the order of bytes.
pub open spec fn before(a: Seq<u8>, b: Seq<u8>) -> bool
    decreases a.len(),
{
    if b.len() == 0 {
        false
    } else if a.len() == 0 {
        true
    } else if a[0] != b[0] {
        a[0] < b[0]
    } else {
        before(a.skip(1), b.skip(1))
    }
}

/// Whether the text `a` stands before the text `b`.
pub open spec fn text_before(a: Seq<char>, b: Seq<char>) -> bool {
    before(encode_utf8(a), encode_utf8(b))
}

fn comes_before(a: &str, b: &str) -> (r: bool)
    ensures
        r == text_before(a@, b@),
{
    let x = a.as_bytes();
    let y = b.as_bytes();
    let n: usize = x.len();
    let m: usize = y.len();
    let mut i: usize = 0;
    proof {
        assert(x@.skip(0) =~= x@);
        assert(y@.skip(0) =~= y@);
    }
    while i < n && i < m
        invariant
            i <= n,
            i <= m,
            n == x@.len(),
            m == y@.len(),
            before(x@, y@) == before(x@.skip(i as int), y@.skip(i as int)),
            x@ == encode_utf8(a@),
            y@ == encode_utf8(b@),
        decreases n - i,
    {
        proof {
            assert(x@.skip(i as int)[0] == x@[i as int]);
            assert(y@.skip(i as int)[0] == y@[i as int]);
            assert(x@.skip(i as int).skip(1) =~= x@.skip(i + 1));
            assert(y@.skip(i as int).skip(1) =~= y@.skip(i + 1));
        }
        if x[i] != y[i] {
            return x[i] < y[i];
        }
        i += 1;
    }
    i < m
}

proof fn lemma_before_total(a: Seq<u8>, b: Seq<u8>)
    requires
        a != b,
    ensures
        before(a, b) != before(b, a),
    decreases a.len(),
{
    if a.len() > 0 && b.len() > 0 && a[0] == b[0] {
        if a.skip(1) == b.skip(1) {
            assert(a =~= seq![a[0]] + a.skip(1));
            assert(b =~= seq![b[0]] + b.skip(1));
        }
        lemma_before_total(a.skip(1), b.skip(1));
    } else if a.len() == 0 && b.len() == 0 {
        assert(a =~= b);
    }
}

/// The state after a connection was opened, and the key of the connection where there was room.
pub open spec fn after_start(v: AppView, initiator: bool, addr: Seq<char>, now: u64) -> (
    AppView,
    Option<u64>,
) {
    if v.peers.len() >= MAX_PEERS {
        (v.failed("too many peers"@, now), None)
    } else {
        let p = PeerView {
            key: v.next_key,
            info: InfoView { initiator, addr, active: true, ..InfoView::blank() },
            out: Seq::empty(),
            dead: false,
        };
        (
            AppView { peers: v.peers.push(p), next_key: (v.next_key + 1) as u64, ..v },
            Some(v.next_key),
        )
    }
}

/// Takes an open connection into the list under a key of its own. Where the list is full the user is
/// told, and the connection is to be closed.
pub fn start_peer(app: &mut AppState, initiator: bool, addr: String, now: u64) -> (r: Option<u64>)
    requires
        old(app)@.next_key < u64::MAX,
    ensures
        (final(app)@, r) == after_start(old(app)@, initiator, addr@, now),
        old(app)@.sound() ==> final(app)@.sound(),
        old(app)@.sound() ==> (r matches Some(key) ==> final(app)@.has_peer(key)),
{
    proof {
        if app@.sound() {
            law_slot_is_released(app@, initiator, addr@, None, now, now);
        }
    }
    let key: u64 = app.next_key;
    let peer = PeerHandle::new(key, initiator, addr);
    if !app.add_peer(peer) {
        app.emit_error("too many peers", now);
        return None;
    }
    app.next_key = key + 1;
    Some(key)
}

/// Why the work on a connection ended early.
#[derive(Clone, Copy, PartialEq, Eq, Structural, Debug)]
pub enum WorkerError {
    Session,
    Negotiation,
}

impl WorkerError {
    /// The error in words.
    pub open spec fn words(self) -> Seq<char> {
        match self {
            WorkerError::Session => "tcp/noise/yamux session init failed"@,
            WorkerError::Negotiation => "chat protocol negotiation failed"@,
        }
    }

    /// The error in words.
    pub fn message(self) -> (r: String)
        ensures
            r@ == self.words(),
    {
        match self {
            WorkerError::Session => "tcp/noise/yamux session init failed".to_owned(),
            WorkerError::Negotiation => "chat protocol negotiation failed".to_owned(),
        }
    }
}

/// The state after the work on the connection of this key ended.
pub open spec fn after_end(v: AppView, key: u64, fault: Option<WorkerError>, now: u64) -> AppView {
    let told = match fault {
        None => v,
        Some(e) => if v.peer(key).info.handshake_done {
            v.failed("peer error: "@ + e.words(), now)
        } else {
            v.logged(NetLevel::Warn, "incoming connection closed: "@ + e.words(), now)
        },
    };
    told.dropped(key)
}

/// Takes a connection off the list once the work on it ended.
pub fn end_peer(app: &mut AppState, key: u64, fault: Option<WorkerError>, now: u64)
    requires
        old(app)@.has_peer(key),
    ensures
        final(app)@ == after_end(old(app)@, key, fault, now),
        old(app)@.sound() ==> final(app)@.sound(),
{
    proof {
        if app@.sound() {
            law_end_keeps_sound(app@, key, fault, now);
        }
    }
    if let Some(e) = fault {
        let words = e.message();
        let done = match app.peer_pos(key) {
            Some(i) => {
                proof {
                    assert(app.peers@[i as int]@ == app@.peer(key));
                }
                app.peers[i].info.handshake_done
            },
            None => false,
        };
        if done {
            let line = text::cat2("peer error: ", words.as_str());
            app.emit_error(line.as_str(), now);
        } else {
            let line = text::cat2("incoming connection closed: ", words.as_str());
            app.netlog(NetLevel::Warn, line.as_str(), now);
        }
    }
    app.remove_peer(key);
}

/// Where to dial.
pub struct DialPlan {
    pub host: String,
    pub port: u16,
    pub addr: String,
}

/// Where to dial, in plain values.
#[verifier::ext_equal]
pub struct DialView {
    pub host: Seq<char>,
    pub port: u16,
    pub addr: Seq<char>,
}

impl View for DialPlan {
    type V = DialView;

    open spec fn view(&self) -> DialView {
        DialView { host: self.host@, port: self.port, addr: self.addr@ }
    }
}

/// Whether a peer that takes frames has this id.
pub open spec fn knows_id(v: AppView, id: Seq<char>) -> bool {
    exists|i: int|
        0 <= i < v.peers.len() && (#[trigger] v.peers[i]).online()
            && v.peers[i].info.remote_pid_full == id
}

/// Whether a peer that takes frames was reached under this address.
pub open spec fn knows_addr(v: AppView, addr: Seq<char>) -> bool {
    exists|i: int|
        0 <= i < v.peers.len() && (#[trigger] v.peers[i]).online() && v.peers[i].info.addr == addr
}

fn is_known_id(app: &AppState, id: &str) -> (r: bool)
    ensures
        r == knows_id(app@, id@),
{
    let n: usize = app.peers.len();
    let mut i: usize = 0;
    while i < n
        invariant
            i <= n,
            n == app.peers@.len(),
            forall|j: int|
                0 <= j < i ==> !((#[trigger] app@.peers[j]).online()
                    && app@.peers[j].info.remote_pid_full == id@),
        decreases n - i,
    {
        proof {
            assert(app@.peers[i as int] == app.peers@[i as int]@);
        }
        if app.peers[i].info.handshake_done && !app.peers[i].dead && text::str_eq(
            app.peers[i].info.remote_pid_full.as_str(),
            id,
        ) {
            return true;
        }
        i += 1;
    }
    false
}

fn is_known_addr(app: &AppState, addr: &str) -> (r: bool)
    ensures
        r == knows_addr(app@, addr@),
{
    let n: usize = app.peers.len();
    let mut i: usize = 0;
    while i < n
        invariant
            i <= n,
            n == app.peers@.len(),
            forall|j: int|
                0 <= j < i ==> !((#[trigger] app@.peers[j]).online() && app@.peers[j].info.addr
                    == addr@),
        decreases n - i,
    {
        proof {
            assert(app@.peers[i as int] == app.peers@[i as int]@);
        }
        if app.peers[i].info.handshake_done && !app.peers[i].dead && text::str_eq(
            app.peers[i].info.addr.as_str(),
            addr,
        ) {
            return true;
        }
        i += 1;
    }
    false
}

/// The state with one more attempt remembered.
pub open spec fn remembering(v: AppView, mark: Seq<char>) -> AppView {
    AppView { attempted: v.attempted.insert(mark), ..v }
}

fn remember(app: &mut AppState, mark: String) -> (fresh: bool)
    ensures
        fresh == !old(app)@.attempted.contains(mark@),
        final(app)@ == remembering(old(app)@, mark@),
{
    let ghost seen = app.attempted@;
    let n: usize = app.attempted.len();
    let mut i: usize = 0;
    while i < n
        invariant
            i <= n,
            n == app.attempted@.len(),
            seen == app.attempted@,
            app@ == old(app)@,
            forall|j: int| 0 <= j < i ==> (#[trigger] seen[j])@ != mark@,
        decreases n - i,
    {
        if app.attempted[i] == mark {
            proof {
                assert(seen[i as int]@ == mark@);
                assert(app@.attempted.insert(mark@) =~= app@.attempted);
            }
            return false;
        }
        i += 1;
    }
    app.attempted.push(mark);
    proof {
        assert(!app::texts(seen).contains(mark@));
        assert forall|t: Seq<char>| app::texts(seen.push(mark)).contains(t) == app::texts(
            seen,
        ).insert(mark@).contains(t) by {
            if app::texts(seen).contains(t) {
                let k = choose|k: int| 0 <= k < seen.len() && (#[trigger] seen[k])@ == t;
                assert(seen.push(mark)[k]@ == t);
            }
            if t == mark@ {
                assert(seen.push(mark)[seen.len() as int]@ == t);
            }
            if app::texts(seen.push(mark)).contains(t) {
                let k = choose|k: int|
                    0 <= k < seen.push(mark).len() && (#[trigger] seen.push(mark)[k])@ == t;
                if k < seen.len() {
                    assert(seen[k]@ == t);
                }
            }
        }
        assert(app::texts(seen.push(mark)) =~= app::texts(seen).insert(mark@));
        assert(app@ =~= remembering(old(app)@, mark@));
    }
    true
}

/// Whether a peer of this id is to be dialled: it is another peer, not connected yet, and, where
/// only one of two peers is to dial the other, it is this one's turn.
pub open spec fn may_dial(v: AppView, id: Seq<char>, tie_break: bool) -> bool {
    &&& id.len() > 0
    &&& id != v.identity.peer_id
    &&& !knows_id(v, id)
    &&& !(tie_break && text_before(id, v.identity.peer_id))
}

/// Of two peers with different ids that hear of each other and are not connected, just one dials.
pub proof fn law_one_side_dials(a: AppView, b: AppView)
    requires
        a.identity.peer_id.len() > 0,
        b.identity.peer_id.len() > 0,
        a.identity.peer_id != b.identity.peer_id,
        !knows_id(a, b.identity.peer_id),
        !knows_id(b, a.identity.peer_id),
    ensures
        may_dial(a, b.identity.peer_id, true) != may_dial(b, a.identity.peer_id, true),
{
    let x = a.identity.peer_id;
    let y = b.identity.peer_id;
    encode_utf8_decode_utf8(x);
    encode_utf8_decode_utf8(y);
    lemma_before_total(encode_utf8(x), encode_utf8(y));
}

/// The state after a request to dial an address that is known to be wanted, and where to dial.
pub open spec fn after_wanted(
    v: AppView,
    source: Seq<char>,
    addr: Seq<char>,
    remember_addr: bool,
    now: u64,
) -> (AppView, Option<DialView>) {
    match address_of(addr) {
        None => (v.logged(NetLevel::Warn, source + " bad addr "@ + addr, now), None),
        Some((host, port)) => {
            let to = host + ":"@ + text::dec(port as nat);
            let mark = "addr:"@ + to;
            if knows_addr(v, to) || (remember_addr && v.attempted.contains(mark)) {
                (v, None)
            } else {
                let w = if remember_addr {
                    remembering(v, mark)
                } else {
                    v
                };
                (
                    w.logged(NetLevel::Info, source + " dial "@ + addr, now),
                    Some(DialView { host, port, addr: to }),
                )
            }
        },
    }
}

/// The state after a request to dial a peer, and where to dial. With `remember_attempt` a peer, or
/// an address of which no peer is known, is dialled only once.
pub open spec fn after_request(
    v: AppView,
    source: Seq<char>,
    peer_id: Option<Seq<char>>,
    addr: Seq<char>,
    tie_break: bool,
    remember_attempt: bool,
    now: u64,
) -> (AppView, Option<DialView>) {
    match peer_id {
        None => after_wanted(v, source, addr, remember_attempt, now),
        Some(id) => {
            let mark = "peer:"@ + id;
            if !may_dial(v, id, tie_break) || (remember_attempt && v.attempted.contains(mark)) {
                (v, None)
            } else if remember_attempt {
                after_wanted(remembering(v, mark), source, addr, false, now)
            } else {
                after_wanted(v, source, addr, false, now)
            }
        },
    }
}

fn plan_dial(app: &mut AppState, source: &str, addr: &str, remember_addr: bool, now: u64) -> (r:
    Option<DialPlan>)
    ensures
        final(app)@ == after_wanted(old(app)@, source@, addr@, remember_addr, now).0,
        r is Some <==> after_wanted(old(app)@, source@, addr@, remember_addr, now).1 is Some,
        r matches Some(p) ==> after_wanted(old(app)@, source@, addr@, remember_addr, now).1
            == Some(p@),
{
    let (host, port) = match parse_multiaddr(addr) {
        Some(a) => a,
        None => {
            let line = text::cat3(source, " bad addr ", addr);
            app.netlog(NetLevel::Warn, line.as_str(), now);
            return None;
        },
    };
    let port_text = text::dec_string(port as u64);
    let to = text::cat3(host.as_str(), ":", port_text.as_str());
    if is_known_addr(app, to.as_str()) {
        return None;
    }
    if remember_addr {
        let mark = text::cat2("addr:", to.as_str());
        let ghost v = app@;
        if !remember(app, mark) {
            proof {
                assert(v.attempted.insert(mark@) =~= v.attempted);
                assert(app@ =~= v);
            }
            return None;
        }
    }
    let line = text::cat3(source, " dial ", addr);
    app.netlog(NetLevel::Info, line.as_str(), now);
    Some(DialPlan { host, port, addr: to })
}

/// A text that may be missing, in plain values.
pub open spec fn id_view(id: Option<&str>) -> Option<Seq<char>> {
    match id {
        Some(id) => Some(id@),
        None => None,
    }
}

/// Decides whether to dial a peer, and where.
pub fn dial_peer_addr(
    app: &mut AppState,
    source: &str,
    peer_id: Option<&str>,
    addr: &str,
    tie_break: bool,
    remember_attempt: bool,
    now: u64,
) -> (r: Option<DialPlan>)
    ensures
        final(app)@ == after_request(
            old(app)@,
            source@,
            id_view(peer_id),
            addr@,
            tie_break,
            remember_attempt,
            now,
        ).0,
        r is Some <==> after_request(
            old(app)@,
            source@,
            id_view(peer_id),
            addr@,
            tie_break,
            remember_attempt,
            now,
        ).1 is Some,
        r matches Some(p) ==> after_request(
            old(app)@,
            source@,
            id_view(peer_id),
            addr@,
            tie_break,
            remember_attempt,
            now,
        ).1 == Some(p@),
        old(app)@.sound() ==> final(app)@.sound(),
{
    proof {
        if app@.sound() {
            law_request_keeps_sound(
                app@,
                source@,
                id_view(peer_id),
                addr@,
                tie_break,
                remember_attempt,
                now,
            );
        }
    }
    let id = match peer_id {
        Some(id) => id,
        None => {
            return plan_dial(app, source, addr, remember_attempt, now);
        },
    };
    if id.is_empty() || text::str_eq(id, app.identity.peer_id.as_str()) {
        return None;
    }
    if is_known_id(app, id) {
        return None;
    }
    if tie_break && comes_before(id, app.identity.peer_id.as_str()) {
        return None;
    }
    if remember_attempt {
        let mark = text::cat2("peer:", id);
        let ghost v = app@;
        if !remember(app, mark) {
            proof {
                assert(v.attempted.insert(mark@) =~= v.attempted);
                assert(app@ =~= v);
            }
            return None;
        }
    }
    plan_dial(app, source, addr, false, now)
}

/// The state after an attempt to dial, and the key of the connection where one was opened and there
/// was room for it.
pub open spec fn after_dial(v: AppView, plan: DialView, opened: bool, now: u64) -> (
    AppView,
    Option<u64>,
) {
    if opened {
        after_start(v, true, plan.addr, now)
    } else {
        (
            v.logged(
                NetLevel::Warn,
                "dial failed "@ + plan.host + ":"@ + text::dec(plan.port as nat),
                now,
            ),
            None,
        )
    }
}

/// Takes the outcome of an attempt to dial.
pub fn dial_done(app: &mut AppState, plan: DialPlan, opened: bool, now: u64) -> (r: Option<u64>)
    requires
        old(app)@.next_key < u64::MAX,
    ensures
        (final(app)@, r) == after_dial(old(app)@, plan@, opened, now),
        old(app)@.sound() ==> final(app)@.sound(),
        old(app)@.sound() ==> (r matches Some(key) ==> final(app)@.has_peer(key)),
{
    proof {
        if app@.sound() {
            law_dial_keeps_sound(app@, plan@, opened, now);
        }
    }
    if opened {
        start_peer(app, true, plan.addr, now)
    } else {
        let port_text = text::dec_string(plan.port as u64);
        let line = text::cat4("dial failed ", plan.host.as_str(), ":", port_text.as_str());
        app.netlog(NetLevel::Warn, line.as_str(), now);
        None
    }
}

/// A new connection keeps the state sound and can be found under its key; when it ends, whatever
/// happened, its slot is free again and the others are as they were.
pub proof fn law_slot_is_released(
    v: AppView,
    initiator: bool,
    addr: Seq<char>,
    fault: Option<WorkerError>,
    now: u64,
    later: u64,
)
    requires
        v.sound(),
        v.next_key < u64::MAX,
    ensures
        after_start(v, initiator, addr, now).0.sound(),
        after_start(v, initiator, addr, now).1 matches Some(key) ==> after_start(
            v,
            initiator,
            addr,
            now,
        ).0.has_peer(key) && after_end(
            after_start(v, initiator, addr, now).0,
            key,
            fault,
            later,
        ).peers == v.peers,
{
    let w = after_start(v, initiator, addr, now).0;
    app::law_notices_keep_sound(v, "too many peers"@, ""@, now);
    if v.peers.len() < MAX_PEERS {
        let key = v.next_key;
        let k = v.peers.len() as int;
        assert forall|i: int, j: int| 0 <= i < j < w.peers.len() implies (#[trigger] w.peers[i]).key
            != (#[trigger] w.peers[j]).key by {
            assert(w.peers[i] == v.peers[i]);
            if j < k {
                assert(w.peers[j] == v.peers[j]);
            }
        }
        assert(w.peer_at(key, k)) by {
            assert forall|j: int| 0 <= j < k implies (#[trigger] w.peers[j]).key != key by {
                assert(w.peers[j] == v.peers[j]);
            }
        }
        assert(w.peers.last().info.remote_pid_full =~= Seq::<char>::empty());
        text::lemma_utf8_len(Seq::<char>::empty());
        assert(w.sound());
        assert(!v.has_peer(key)) by {
            if v.has_peer(key) {
                assert(v.peer_at(key, v.place(key)));
            }
        }
        app::law_add_then_remove(v, w.peers.last());
    }
}

/// A request to dial keeps the state sound and changes no connection.
pub proof fn law_request_keeps_sound(
    v: AppView,
    source: Seq<char>,
    peer_id: Option<Seq<char>>,
    addr: Seq<char>,
    tie_break: bool,
    remember_attempt: bool,
    now: u64,
)
    requires
        v.sound(),
    ensures
        after_request(v, source, peer_id, addr, tie_break, remember_attempt, now).0.sound(),
        after_request(v, source, peer_id, addr, tie_break, remember_attempt, now).0.peers
            == v.peers,
{
    assert forall|u: AppView, b: bool| u.sound() implies (#[trigger] after_wanted(
        u,
        source,
        addr,
        b,
        now,
    )).0.sound() by {
        app::law_log_keeps_sound(u, NetLevel::Warn, source + " bad addr "@ + addr, now);
        app::law_log_keeps_sound(u, NetLevel::Info, source + " dial "@ + addr, now);
        if let Some((host, port)) = address_of(addr) {
            let mark = "addr:"@ + (host + ":"@ + text::dec(port as nat));
            assert(remembering(u, mark).sound());
            app::law_log_keeps_sound(
                remembering(u, mark),
                NetLevel::Info,
                source + " dial "@ + addr,
                now,
            );
        }
    }
    if let Some(id) = peer_id {
        assert(remembering(v, "peer:"@ + id).sound());
    }
}

/// The outcome of dialling keeps the state sound.
pub proof fn law_dial_keeps_sound(v: AppView, plan: DialView, opened: bool, now: u64)
    requires
        v.sound(),
        v.next_key < u64::MAX,
    ensures
        after_dial(v, plan, opened, now).0.sound(),
{
    law_slot_is_released(v, true, plan.addr, None, now, now);
    app::law_log_keeps_sound(
        v,
        NetLevel::Warn,
        "dial failed "@ + plan.host + ":"@ + text::dec(plan.port as nat),
        now,
    );
}

/// However the work on a connection ends, the state stays sound, the connection is off the list, and
/// one slot is free again.
pub proof fn law_end_keeps_sound(v: AppView, key: u64, fault: Option<WorkerError>, now: u64)
    requires
        v.sound(),
    ensures
        after_end(v, key, fault, now).sound(),
        !after_end(v, key, fault, now).has_peer(key),
        v.has_peer(key) ==> after_end(v, key, fault, now).peers.len() == v.peers.len() - 1,
{
    app::law_peers_keep_sound(v, 0, ""@, key);
    if let Some(e) = fault {
        let a = "peer error: "@ + e.words();
        let b = "incoming connection closed: "@ + e.words();
        app::law_notices_keep_sound(v, a, ""@, now);
        app::law_log_keeps_sound(v, NetLevel::Warn, b, now);
        app::law_peers_keep_sound(v.failed(a, now), 0, ""@, key);
        app::law_peers_keep_sound(v.logged(NetLevel::Warn, b, now), 0, ""@, key);
    }
}

/// With `remember_attempt` no peer is dialled twice: once a request for an id was let through, be it
/// that something was dialled or not, a later one for the same id, at whatever time and whatever it
/// says otherwise, gives nothing to dial and leaves the state alone.
pub proof fn law_dialled_once(
    v: AppView,
    source: Seq<char>,
    id: Seq<char>,
    addr: Seq<char>,
    tie_break: bool,
    now: u64,
    later: AppView,
    later_source: Seq<char>,
    later_addr: Seq<char>,
    later_tie_break: bool,
    later_now: u64,
)
    requires
        may_dial(v, id, tie_break),
        after_request(v, source, Some(id), addr, tie_break, true, now).0.attempted.subset_of(
            later.attempted,
        ),
    ensures
        after_request(later, later_source, Some(id), later_addr, later_tie_break, true, later_now)
            == (later, None::<DialView>),
{
    let first = after_request(v, source, Some(id), addr, tie_break, true, now).0;
    assert(first.attempted.contains("peer:"@ + id));
}

/// With `remember_attempt` no address is dialled twice for a peer without an id: once a request for
/// an address that reads as a host and a port, and that no connection has, was made, be it that it
/// was dialled or not, a later one for the same host and port, at whatever time, gives nothing to
/// dial and leaves the state alone.
pub proof fn law_address_dialled_once(
    v: AppView,
    source: Seq<char>,
    addr: Seq<char>,
    tie_break: bool,
    now: u64,
    host: Seq<char>,
    port: u16,
    later: AppView,
    later_source: Seq<char>,
    later_addr: Seq<char>,
    later_tie_break: bool,
    later_now: u64,
)
    requires
        address_of(addr) == Some((host, port)),
        address_of(later_addr) == Some((host, port)),
        !knows_addr(v, host + ":"@ + text::dec(port as nat)),
        after_request(v, source, None, addr, tie_break, true, now).0.attempted.subset_of(
            later.attempted,
        ),
    ensures
        after_request(later, later_source, None, later_addr, later_tie_break, true, later_now) == (
            later,
            None::<DialView>,
        ),
{
    let first = after_request(v, source, None, addr, tie_break, true, now).0;
    assert(first.attempted.contains("addr:"@ + (host + ":"@ + text::dec(port as nat))));
}

pub(crate) fn local_multiaddr(app: &AppState) -> (r: String)
    ensures
        r@ == multiaddr_of(app@.lan_ip, app@.listen_port, app@.identity.peer_id),
{
    let port = text::dec_string(app.listen_port as u64);
    text::cat6(
        "/ip4/",
        app.lan_ip.as_str(),
        "/tcp/",
        port.as_str(),
        "/p2p/",
        app.identity.peer_id.as_str(),
    )
}

}
