//! Rendezvous: a small server on which peers of a room register and find each other, and its client.
use vstd::prelude::*;
use vstd::string::*;

use crate::app::{AppState, AppView, NetLevel};
use crate::text;

verus! {

/// How long an entry lives, in nanoseconds.
pub const ENTRY_TTL: u64 = 180_000_000_000;

/// A peer that registered. The time is a reading of a clock that never goes back.
pub struct Entry {
    pub peer_id: String,
    pub addr: String,
    pub seen_at: u64,
}

/// A peer that registered, in plain values.
#[verifier::ext_equal]
pub struct EntryView {
    pub peer_id: Seq<char>,
    pub addr: Seq<char>,
    pub seen_at: u64,
}

impl View for Entry {
    type V = EntryView;

    open spec fn view(&self) -> EntryView {
        EntryView { peer_id: self.peer_id@, addr: self.addr@, seen_at: self.seen_at }
    }
}

impl Clone for Entry {
    fn clone(&self) -> (r: Self)
        ensures
            r@ == self@,
    {
        Entry { peer_id: self.peer_id.clone(), addr: self.addr.clone(), seen_at: self.seen_at }
    }
}

/// Entries, in plain values.
pub open spec fn entries(s: Seq<Entry>) -> Seq<EntryView> {
    s.map_values(|e: Entry| e@)
}

/// A room and the peers that registered in it.
pub struct Room {
    pub name: String,
    pub peers: Vec<Entry>,
}

/// The rooms of a server.
pub struct Rooms {
    pub rooms: Vec<Room>,
}

/// `i` is the first room of this name.
pub open spec fn room_at(rooms: Seq<Room>, name: Seq<char>, i: int) -> bool {
    &&& 0 <= i < rooms.len()
    &&& rooms[i].name@ == name
    &&& forall|j: int| 0 <= j < i ==> (#[trigger] rooms[j]).name@ != name
}

/// The entries of the room of this name; a room that is not there is empty.
pub open spec fn entries_in(rooms: Seq<Room>, name: Seq<char>) -> Seq<EntryView> {
    if exists|i: int| room_at(rooms, name, i) {
        entries(rooms[choose|i: int| room_at(rooms, name, i)].peers@)
    } else {
        Seq::empty()
    }
}

impl View for Rooms {
    type V = Map<Seq<char>, Seq<EntryView>>;

    /// What every room holds.
    open spec fn view(&self) -> Map<Seq<char>, Seq<EntryView>> {
        Map::new(|name: Seq<char>| true, |name: Seq<char>| entries_in(self.rooms@, name))
    }
}

/// Whether an entry is still alive.
pub open spec fn alive(e: EntryView, mono: u64) -> bool {
    mono - e.seen_at < ENTRY_TTL
}

/// The entries that are still alive, without those of one peer where one is given.
pub open spec fn kept(s: Seq<EntryView>, mono: u64, leaving: Option<Seq<char>>) -> Seq<EntryView>
    decreases s.len(),
{
    if s.len() == 0 {
        s
    } else {
        let head = kept(s.drop_last(), mono, leaving);
        if alive(s.last(), mono) && leaving != Some(s.last().peer_id) {
            head.push(s.last())
        } else {
            head
        }
    }
}

proof fn lemma_room(rooms: Seq<Room>, name: Seq<char>, i: int)
    requires
        room_at(rooms, name, i),
    ensures
        entries_in(rooms, name) == entries(rooms[i].peers@),
{
    let k = choose|k: int| room_at(rooms, name, k);
    assert(room_at(rooms, name, k));
    if k < i {
        assert(rooms[k].name@ != name);
    } else if i < k {
        assert(rooms[i].name@ != name);
    }
}

proof fn lemma_other_room(a: Seq<Room>, b: Seq<Room>, i: int, name: Seq<char>)
    requires
        0 <= i < b.len(),
        b[i].name@ != name,
        b.len() == a.len() || (b.len() == a.len() + 1 && i == a.len()),
        i < a.len() ==> a[i].name@ == b[i].name@,
        forall|j: int| 0 <= j < a.len() && j != i ==> #[trigger] b[j] == a[j],
    ensures
        entries_in(a, name) == entries_in(b, name),
{
    if exists|k: int| room_at(a, name, k) {
        let k = choose|k: int| room_at(a, name, k);
        assert(room_at(b, name, k)) by {
            assert forall|j: int| 0 <= j < k implies (#[trigger] b[j]).name@ != name by {
                assert(a[j].name@ != name);
            }
        }
        lemma_room(a, name, k);
        lemma_room(b, name, k);
    } else if exists|k: int| room_at(b, name, k) {
        let k = choose|k: int| room_at(b, name, k);
        assert(room_at(a, name, k)) by {
            assert forall|j: int| 0 <= j < k implies (#[trigger] a[j]).name@ != name by {
                assert(b[j].name@ != name);
            }
        }
    }
}

fn keep(peers: &Vec<Entry>, mono: u64, leaving: Option<&str>) -> (r: Vec<Entry>)
    ensures
        entries(r@) == kept(
            entries(peers@),
            mono,
            match leaving {
                Some(id) => Some(id@),
                None => None,
            },
        ),
{
    let ghost gone = match leaving {
        Some(id) => Some(id@),
        None => None,
    };
    let ghost all = entries(peers@);
    let mut out: Vec<Entry> = Vec::new();
    let n: usize = peers.len();
    let mut i: usize = 0;
    proof {
        assert(entries(out@) =~= kept(all.take(0), mono, gone));
    }
    while i < n
        invariant
            i <= n,
            n == peers@.len(),
            all == entries(peers@),
            gone == (match leaving {
                Some(id) => Some(id@),
                None => None,
            }),
            entries(out@) == kept(all.take(i as int), mono, gone),
        decreases n - i,
    {
        let ghost before = out@;
        proof {
            assert(all.take(i + 1).drop_last() =~= all.take(i as int));
            assert(all.take(i + 1).last() == peers@[i as int]@);
        }
        let young = mono < peers[i].seen_at || mono - peers[i].seen_at < ENTRY_TTL;
        let stays = match leaving {
            Some(id) => !text::str_eq(peers[i].peer_id.as_str(), id),
            None => true,
        };
        if young && stays {
            let e = peers[i].clone();
            out.push(e);
            proof {
                assert(entries(out@) =~= entries(before).push(peers@[i as int]@));
            }
        }
        i += 1;
    }
    proof {
        assert(all.take(n as int) =~= all);
    }
    out
}

impl Rooms {
    /// A server without rooms.
    pub fn new() -> (r: Self)
        ensures
            forall|name: Seq<char>| #[trigger] r@[name] == Seq::<EntryView>::empty(),
    {
        Rooms { rooms: Vec::new() }
    }

    fn open_room(&mut self, name: &str) -> (r: usize)
        ensures
            room_at(final(self).rooms@, name@, r as int),
            final(self)@ == old(self)@,
    {
        let n: usize = self.rooms.len();
        let mut i: usize = 0;
        while i < n
            invariant
                i <= n,
                n == self.rooms@.len(),
                self.rooms@ == old(self).rooms@,
                forall|j: int| 0 <= j < i ==> (#[trigger] self.rooms@[j]).name@ != name@,
            decreases n - i,
        {
            if text::str_eq(self.rooms[i].name.as_str(), name) {
                return i;
            }
            i += 1;
        }
        let ghost before = self.rooms@;
        self.rooms.push(Room { name: name.to_owned(), peers: Vec::new() });
        proof {
            assert(room_at(self.rooms@, name@, n as int));
            lemma_room(self.rooms@, name@, n as int);
            assert(entries(self.rooms@[n as int].peers@) =~= Seq::<EntryView>::empty());
            assert forall|other: Seq<char>| entries_in(self.rooms@, other) == entries_in(
                before,
                other,
            ) by {
                if other == name@ {
                    assert(!exists|k: int| room_at(before, other, k)) by {
                        assert forall|k: int| !room_at(before, other, k) by {
                            if room_at(before, other, k) {
                                assert(self.rooms@[k].name@ != name@);
                            }
                        }
                    }
                } else {
                    lemma_other_room(before, self.rooms@, n as int, other);
                }
            }
            assert(self@ =~= old(self)@);
        }
        n
    }

    fn set_peers(&mut self, i: usize, peers: Vec<Entry>, Ghost(name): Ghost<Seq<char>>)
        requires
            room_at(old(self).rooms@, name, i as int),
        ensures
            final(self)@ == old(self)@.insert(name, entries(peers@)),
    {
        let ghost before = self.rooms@;
        let ghost put = entries(peers@);
        self.rooms[i].peers = peers;
        proof {
            assert(room_at(self.rooms@, name, i as int)) by {
                assert forall|j: int| 0 <= j < i implies (#[trigger] self.rooms@[j]).name@
                    != name by {
                    assert(before[j].name@ != name);
                }
            }
            lemma_room(self.rooms@, name, i as int);
            assert forall|other: Seq<char>| other != name implies entries_in(self.rooms@, other)
                == entries_in(before, other) by {
                lemma_other_room(before, self.rooms@, i as int, other);
            }
            assert(self@ =~= old(self)@.insert(name, put));
        }
    }
}

/// The rooms after a peer registered: its entry is the newest one of the room and the only one of
/// the peer, and entries that are no longer alive are gone.
pub open spec fn registered(
    rooms: Map<Seq<char>, Seq<EntryView>>,
    room: Seq<char>,
    peer_id: Seq<char>,
    addr: Seq<char>,
    mono: u64,
) -> Map<Seq<char>, Seq<EntryView>> {
    rooms.insert(
        room,
        kept(rooms[room], mono, Some(peer_id)).push(EntryView { peer_id, addr, seen_at: mono }),
    )
}

/// Registers a peer in a room.
pub fn register_peer(rooms: &mut Rooms, room: &str, peer_id: &str, addr: &str, mono: u64)
    ensures
        final(rooms)@ == registered(old(rooms)@, room@, peer_id@, addr@, mono),
{
    let i: usize = rooms.open_room(room);
    proof {
        lemma_room(rooms.rooms@, room@, i as int);
    }
    let mut peers = keep(&rooms.rooms[i].peers, mono, Some(peer_id));
    let e = Entry { peer_id: peer_id.to_owned(), addr: addr.to_owned(), seen_at: mono };
    let ghost head = peers@;
    peers.push(e);
    proof {
        assert(entries(peers@) =~= entries(head).push(e@));
        assert(rooms@[room@] == entries_in(rooms.rooms@, room@));
    }
    rooms.set_peers(i, peers, Ghost(room@));
}

/// Lists the peers of a room that are still alive, and forgets the others.
pub fn list_peers(rooms: &mut Rooms, room: &str, mono: u64) -> (r: Vec<Entry>)
    ensures
        entries(r@) == kept(old(rooms)@[room@], mono, None),
        final(rooms)@ == old(rooms)@.insert(room@, kept(old(rooms)@[room@], mono, None)),
{
    let i: usize = rooms.open_room(room);
    proof {
        lemma_room(rooms.rooms@, room@, i as int);
        assert(rooms@[room@] == entries_in(rooms.rooms@, room@));
    }
    let peers = keep(&rooms.rooms[i].peers, mono, None);
    let listed = peers.clone();
    proof {
        assert(entries(listed@) =~= entries(peers@));
    }
    rooms.set_peers(i, peers, Ghost(room@));
    listed
}

/// `s` without white space and control characters.
pub open spec fn token_of(s: Seq<char>) -> Seq<char>
    decreases s.len(),
{
    if s.len() == 0 {
        s
    } else if text::is_ctrl(s.last()) || text::is_space(s.last()) {
        token_of(s.drop_last())
    } else {
        token_of(s.drop_last()).push(s.last())
    }
}

/// The text without white space and control characters, so that it can stand between spaces.
pub fn token(value: &str) -> (r: String)
    ensures
        r@ == token_of(value@),
{
    let chars = text::chars_of(value);
    let mut out = String::new();
    let n: usize = chars.len();
    let mut i: usize = 0;
    while i < n
        invariant
            i <= n,
            n == chars@.len(),
            out@ == token_of(chars@.take(i as int)),
        decreases n - i,
    {
        proof {
            assert(chars@.take(i + 1).drop_last() =~= chars@.take(i as int));
        }
        if !text::is_control(chars[i]) && !text::is_whitespace(chars[i]) {
            out.push(chars[i]);
        }
        i += 1;
    }
    proof {
        assert(chars@.take(n as int) =~= chars@);
    }
    out
}

/// What a line asks of a server.
#[verifier::ext_equal]
pub enum RequestView {
    Register { room: Seq<char>, peer_id: Seq<char>, addr: Seq<char> },
    List { room: Seq<char> },
    Quit,
    Unknown,
}

/// What a line asks of a server: the rest of a line behind its first word holds a room, an id and an
/// address between spaces, or a room.
pub open spec fn request_of(line: Seq<char>) -> RequestView {
    let t = text::trimmed(line);
    if let Some(rest) = text::after_prefix(t, "REGISTER "@) {
        match text::cut(rest, ' ') {
            Some((room, more)) => match text::cut(more, ' ') {
                Some((peer_id, addr)) => RequestView::Register { room, peer_id, addr },
                None => RequestView::Unknown,
            },
            None => RequestView::Unknown,
        }
    } else if let Some(room) = text::after_prefix(t, "LIST "@) {
        RequestView::List { room }
    } else if t == "QUIT"@ {
        RequestView::Quit
    } else {
        RequestView::Unknown
    }
}

/// The line that names a peer.
pub open spec fn peer_line(e: EntryView) -> Seq<char> {
    "PEER "@ + e.peer_id + " "@ + e.addr
}

/// The answer to a list request.
pub open spec fn list_reply(s: Seq<EntryView>) -> Seq<Seq<char>> {
    Seq::new(s.len(), |i: int| peer_line(s[i])).push("END"@)
}

/// Lines, in plain values.
pub open spec fn texts(s: Seq<String>) -> Seq<Seq<char>> {
    s.map_values(|t: String| t@)
}

/// The rooms after a line from a client, and the lines of the answer.
pub open spec fn after_line(
    rooms: Map<Seq<char>, Seq<EntryView>>,
    line: Seq<char>,
    mono: u64,
) -> (Map<Seq<char>, Seq<EntryView>>, Seq<Seq<char>>) {
    match request_of(line) {
        RequestView::Register { room, peer_id, addr } => (
            registered(rooms, room, peer_id, addr, mono),
            seq!["OK"@],
        ),
        RequestView::List { room } => {
            let s = kept(rooms[room], mono, None);
            (rooms.insert(room, s), list_reply(s))
        },
        _ => (rooms, Seq::empty()),
    }
}

/// The answer of a server: the lines to send, and whether the client is done.
pub struct Reply {
    pub lines: Vec<String>,
    pub done: bool,
}

fn no_reply(done: bool) -> (r: Reply)
    ensures
        r.done == done,
        texts(r.lines@) == Seq::<Seq<char>>::empty(),
{
    let r = Reply { lines: Vec::new(), done };
    proof {
        assert(texts(r.lines@) =~= Seq::<Seq<char>>::empty());
    }
    r
}

fn list_lines(peers: &Vec<Entry>) -> (r: Vec<String>)
    ensures
        texts(r@) == list_reply(entries(peers@)),
{
    let ghost all = list_reply(entries(peers@));
    let mut out: Vec<String> = Vec::new();
    let n: usize = peers.len();
    let mut i: usize = 0;
    proof {
        assert(texts(out@) =~= all.take(0));
    }
    while i < n
        invariant
            i <= n,
            n == peers@.len(),
            all == list_reply(entries(peers@)),
            texts(out@) == all.take(i as int),
        decreases n - i,
    {
        let ghost before = out@;
        let line = text::cat4("PEER ", peers[i].peer_id.as_str(), " ", peers[i].addr.as_str());
        out.push(line);
        proof {
            assert(entries(peers@)[i as int] == peers@[i as int]@);
            assert(all[i as int] == line@);
            assert(texts(out@) =~= texts(before).push(line@));
            assert(all.take(i + 1) =~= all.take(i as int).push(all[i as int]));
        }
        i += 1;
    }
    let ghost before = out@;
    let end = "END".to_owned();
    out.push(end);
    proof {
        assert(texts(out@) =~= texts(before).push(end@));
        assert(texts(out@) =~= all);
    }
    out
}

/// Takes a line from a client of the server.
pub fn handle_rendezvous_client(rooms: &mut Rooms, line: &str, mono: u64) -> (r: Reply)
    ensures
        (final(rooms)@, texts(r.lines@)) == after_line(old(rooms)@, line@, mono),
        r.done == (request_of(line@) is Quit),
{
    let chars = text::chars_of(line);
    let t = text::trim(chars.as_slice());
    if let Some(rest) = text::strip_prefix(t, "REGISTER ") {
        let (room, more) = match text::split_once(rest, ' ') {
            Some(p) => p,
            None => {
                return no_reply(false);
            },
        };
        let (peer_id, addr) = match text::split_once(more, ' ') {
            Some(p) => p,
            None => {
                return no_reply(false);
            },
        };
        let room = text::string_of(room);
        let peer_id = text::string_of(peer_id);
        let addr = text::string_of(addr);
        register_peer(rooms, room.as_str(), peer_id.as_str(), addr.as_str(), mono);
        let okay = "OK".to_owned();
        let lines: Vec<String> = vec![okay];
        proof {
            assert(texts(lines@) =~= seq!["OK"@]);
        }
        return Reply { lines, done: false };
    }
    if let Some(room) = text::strip_prefix(t, "LIST ") {
        let room = text::string_of(room);
        let peers = list_peers(rooms, room.as_str(), mono);
        return Reply { lines: list_lines(&peers), done: false };
    }
    let quit = text::chars_of("QUIT");
    no_reply(text::chars_eq(t, quit.as_slice()))
}

/// The line that registers a peer.
pub open spec fn register_line(
    room: Seq<char>,
    peer_id: Seq<char>,
    addr: Seq<char>,
) -> Seq<char> {
    "REGISTER "@ + token_of(room) + " "@ + token_of(peer_id) + " "@ + token_of(addr)
}

/// The line that asks for the peers of a room.
pub open spec fn list_line(room: Seq<char>) -> Seq<char> {
    "LIST "@ + token_of(room)
}

/// What a client sends: it registers, asks for the peers of the room, and is done.
pub fn rendezvous_request(room: &str, peer_id: &str, public_addr: &str) -> (r: Vec<String>)
    ensures
        texts(r@) == seq![
            register_line(room@, peer_id@, public_addr@),
            list_line(room@),
            "QUIT"@,
        ],
{
    let room = token(room);
    let id = token(peer_id);
    let addr = token(public_addr);
    let first = text::cat6("REGISTER ", room.as_str(), " ", id.as_str(), " ", addr.as_str());
    let second = text::cat2("LIST ", room.as_str());
    let third = "QUIT".to_owned();
    let lines: Vec<String> = vec![first, second, third];
    proof {
        assert(texts(lines@) =~= seq![first@, second@, third@]);
    }
    lines
}

/// The peer that a line of an answer names.
pub open spec fn hint_of(line: Seq<char>) -> Option<(Seq<char>, Seq<char>)> {
    match text::after_prefix(text::trimmed(line), "PEER "@) {
        Some(rest) => text::cut(rest, ' '),
        None => None,
    }
}

/// Whether a line ends an answer.
pub open spec fn is_end(line: Seq<char>) -> bool {
    text::trimmed(line) == "END"@
}

/// The peers that an answer names before its end.
pub open spec fn hints(lines: Seq<Seq<char>>) -> Seq<(Seq<char>, Seq<char>)>
    decreases lines.len(),
{
    if lines.len() == 0 || is_end(lines[0]) {
        Seq::empty()
    } else {
        match hint_of(lines[0]) {
            Some(h) => seq![h] + hints(lines.skip(1)),
            None => hints(lines.skip(1)),
        }
    }
}

/// Peers, in plain values.
pub open spec fn pairs(s: Seq<(String, String)>) -> Seq<(Seq<char>, Seq<char>)> {
    s.map_values(|p: (String, String)| (p.0@, p.1@))
}

/// Whether a line ends an answer, so that no further one is to be read.
pub fn ends_reply(line: &str) -> (r: bool)
    ensures
        r == is_end(line@),
{
    let chars = text::chars_of(line);
    let end = text::chars_of("END");
    text::chars_eq(text::trim(chars.as_slice()), end.as_slice())
}

fn find_hint(line: &str) -> (r: Option<(String, String)>)
    ensures
        r is Some <==> hint_of(line@) is Some,
        r matches Some(h) ==> hint_of(line@) == Some((h.0@, h.1@)),
{
    let chars = text::chars_of(line);
    let t = text::trim(chars.as_slice());
    match text::strip_prefix(t, "PEER ") {
        Some(rest) => {
            match text::split_once(rest, ' ') {
                Some((id, addr)) => Some((text::string_of(id), text::string_of(addr))),
                None => None,
            }
        },
        None => None,
    }
}

/// The peers that an answer names, up to its end.
pub fn rendezvous_round(lines: &Vec<String>) -> (r: Vec<(String, String)>)
    ensures
        pairs(r@) == hints(texts(lines@)),
{
    let ghost all = texts(lines@);
    let mut out: Vec<(String, String)> = Vec::new();
    let n: usize = lines.len();
    let mut i: usize = 0;
    proof {
        assert(all.skip(0) =~= all);
        assert(pairs(out@) =~= Seq::empty());
        assert(pairs(out@) + hints(all.skip(0)) =~= hints(all));
    }
    while i < n
        invariant
            i <= n,
            n == lines@.len(),
            all == texts(lines@),
            pairs(out@) + hints(all.skip(i as int)) == hints(all),
        decreases n - i,
    {
        let line = lines[i].as_str();
        proof {
            assert(all.skip(i as int)[0] == line@);
            assert(all.skip(i as int).skip(1) =~= all.skip(i + 1));
        }
        if ends_reply(line) {
            proof {
                assert(pairs(out@) + Seq::empty() =~= pairs(out@));
            }
            return out;
        }
        if let Some(h) = find_hint(line) {
            let ghost before = out@;
            out.push(h);
            proof {
                assert(pairs(out@) =~= pairs(before).push((h.0@, h.1@)));
                assert(pairs(out@) + hints(all.skip(i + 1)) =~= pairs(before) + (seq![
                    (h.0@, h.1@),
                ] + hints(all.skip(i + 1))));
            }
        }
        i += 1;
    }
    proof {
        assert(all.skip(n as int) =~= Seq::empty());
        assert(pairs(out@) + Seq::empty() =~= pairs(out@));
    }
    out
}

/// What a client does each second: whether to ask the server, and the count for the next second. The
/// server is asked every twenty seconds.
pub fn rendezvous_turn(tick: u32) -> (r: (bool, u32))
    requires
        tick < u32::MAX,
    ensures
        r.0 == (tick == 0),
        r.1 == (tick + 1) % 20,
        r.1 < 20,
{
    (tick == 0, (tick + 1) % 20)
}

/// What came of asking a server: the peers that it named, or what went wrong.
pub enum Round {
    Hints(Vec<(String, String)>),
    Failed(String),
}

/// The state after a server was asked for the peers of a room.
pub open spec fn after_round(v: AppView, room: Seq<char>, round: Round, now: u64) -> AppView {
    match round {
        Round::Hints(found) => v.logged(
            NetLevel::Info,
            "rendezvous "@ + room + ": "@ + text::dec(found@.len()) + " peer hints"@,
            now,
        ),
        Round::Failed(err) => v.logged(NetLevel::Warn, "rendezvous failed "@ + err@, now),
    }
}

/// The peers to dial: those that were named, but for this one.
pub open spec fn others(
    own: Seq<char>,
    found: Seq<(Seq<char>, Seq<char>)>,
) -> Seq<(Seq<char>, Seq<char>)>
    decreases found.len(),
{
    if found.len() == 0 {
        found
    } else if found.last().0 == own {
        others(own, found.drop_last())
    } else {
        others(own, found.drop_last()).push(found.last())
    }
}

/// The peers that a round named.
pub open spec fn round_hints(round: Round) -> Seq<(Seq<char>, Seq<char>)> {
    match round {
        Round::Hints(found) => pairs(found@),
        Round::Failed(_) => Seq::empty(),
    }
}

/// Takes what came of asking a server: hands back the peers to dial.
pub fn round_done(app: &mut AppState, room: &str, round: Round, now: u64) -> (r: Vec<
    (String, String),
>)
    ensures
        final(app)@ == after_round(old(app)@, room@, round, now),
        pairs(r@) == others(old(app)@.identity.peer_id, round_hints(round)),
        old(app)@.sound() ==> final(app)@.sound(),
{
    let mut out: Vec<(String, String)> = Vec::new();
    proof {
        assert(pairs(out@) =~= Seq::empty());
    }
    match round {
        Round::Hints(found) => {
            let n: usize = found.len();
            let n_text = text::dec_string(n as u64);
            let line = text::cat5("rendezvous ", room, ": ", n_text.as_str(), " peer hints");
            app.netlog(NetLevel::Info, line.as_str(), now);
            let ghost all = pairs(found@);
            let ghost own = app@.identity.peer_id;
            let mut i: usize = 0;
            while i < n
                invariant
                    i <= n,
                    n == found@.len(),
                    all == pairs(found@),
                    own == app@.identity.peer_id,
                    pairs(out@) == others(own, all.take(i as int)),
                decreases n - i,
            {
                let ghost before = out@;
                proof {
                    assert(all.take(i + 1).drop_last() =~= all.take(i as int));
                    assert(all.take(i + 1).last() == (found@[i as int].0@, found@[i as int].1@));
                }
                if !text::str_eq(found[i].0.as_str(), app.identity.peer_id.as_str()) {
                    let h = (found[i].0.clone(), found[i].1.clone());
                    out.push(h);
                    proof {
                        assert(pairs(out@) =~= pairs(before).push((h.0@, h.1@)));
                    }
                }
                i += 1;
            }
            proof {
                assert(all.take(n as int) =~= all);
            }
        },
        Round::Failed(err) => {
            let line = text::cat2("rendezvous failed ", err.as_str());
            app.netlog(NetLevel::Warn, line.as_str(), now);
        },
    }
    out
}

/// The state after the server was to listen.
pub open spec fn after_bind(
    v: AppView,
    bind: Seq<char>,
    bound: bool,
    nonblocking: bool,
    now: u64,
) -> AppView {
    if !bound {
        v.failed("rendezvous listen failed "@ + bind, now)
    } else if !nonblocking {
        v.failed("rendezvous nonblocking failed"@, now)
    } else {
        v.logged(NetLevel::Okay, "rendezvous listen "@ + bind, now)
    }
}

/// Takes whether the server listens: tells whether it goes on.
pub fn server_bound(app: &mut AppState, bind: &str, bound: bool, nonblocking: bool, now: u64) -> (r:
    bool)
    ensures
        final(app)@ == after_bind(old(app)@, bind@, bound, nonblocking, now),
        r == (bound && nonblocking),
        old(app)@.sound() ==> final(app)@.sound(),
{
    if !bound {
        let line = text::cat2("rendezvous listen failed ", bind);
        app.emit_error(line.as_str(), now);
        return false;
    }
    if !nonblocking {
        app.emit_error("rendezvous nonblocking failed", now);
        return false;
    }
    let line = text::cat2("rendezvous listen ", bind);
    app.netlog(NetLevel::Okay, line.as_str(), now);
    true
}

/// What came of looking for a client.
pub enum Arrival {
    Client,
    Nobody,
    Failed(String),
}

/// The state after a look for a client.
pub open spec fn after_arrival(v: AppView, arrival: Arrival, now: u64) -> AppView {
    match arrival {
        Arrival::Failed(err) => v.logged(NetLevel::Warn, "rendezvous accept failed "@ + err@, now),
        _ => v,
    }
}

/// Takes what came of looking for a client: tells how many milliseconds to wait before the next
/// look.
pub fn server_arrival(app: &mut AppState, arrival: Arrival, now: u64) -> (r: u64)
    ensures
        final(app)@ == after_arrival(old(app)@, arrival, now),
        r == (match arrival {
            Arrival::Client => 0,
            Arrival::Nobody => 100,
            Arrival::Failed(_) => 1000u64,
        }),
        old(app)@.sound() ==> final(app)@.sound(),
{
    match arrival {
        Arrival::Client => 0,
        Arrival::Nobody => 100,
        Arrival::Failed(err) => {
            let line = text::cat2("rendezvous accept failed ", err.as_str());
            app.netlog(NetLevel::Warn, line.as_str(), now);
            1000
        },
    }
}

/// Whether a text holds neither white space nor control characters.
pub open spec fn is_token(s: Seq<char>) -> bool {
    forall|i: int|
        0 <= i < s.len() ==> !text::is_space(#[trigger] s[i]) && !text::is_ctrl(s[i])
}

/// A token holds neither white space nor control characters, and is not changed by making a token of
/// it again.
pub proof fn law_token(s: Seq<char>)
    ensures
        is_token(token_of(s)),
        is_token(s) ==> token_of(s) == s,
        token_of(token_of(s)) == token_of(s),
{
    lemma_token(s);
    lemma_token(token_of(s));
}

proof fn lemma_token(s: Seq<char>)
    ensures
        is_token(token_of(s)),
        is_token(s) ==> token_of(s) == s,
    decreases s.len(),
{
    if s.len() > 0 {
        let d = s.drop_last();
        lemma_token(d);
        assert(s =~= d.push(s.last()));
        assert forall|i: int| 0 <= i < token_of(s).len() implies !text::is_space(
            #[trigger] token_of(s)[i],
        ) && !text::is_ctrl(token_of(s)[i]) by {
            if i < token_of(d).len() {
                assert(token_of(s)[i] == token_of(d)[i]);
            }
        }
        if is_token(s) {
            assert forall|i: int| 0 <= i < d.len() implies !text::is_space(#[trigger] d[i])
                && !text::is_ctrl(d[i]) by {
                assert(!text::is_space(s[i]));
            }
            assert(!text::is_space(s[s.len() - 1]));
        }
    }
}

proof fn lemma_cut_token(a: Seq<char>, rest: Seq<char>)
    requires
        is_token(a),
    ensures
        text::cut(a + " "@ + rest, ' ') == Some((a, rest)),
{
    reveal_strlit(" ");
    let all = a + " "@ + rest;
    assert forall|j: int| 0 <= j < a.len() implies all[j] != ' ' by {
        assert(!text::is_space(a[j]));
        assert(all[j] == a[j]);
    }
    assert(all[a.len() as int] == ' ');
    text::lemma_first(all, ' ', a.len() as int);
    assert(all.take(a.len() as int) =~= a);
    assert(all.skip(a.len() as int + 1) =~= rest);
}

proof fn lemma_untrimmed(s: Seq<char>)
    requires
        s.len() > 0,
        !text::is_space(s[0]),
        !text::is_space(s.last()),
    ensures
        text::trimmed(s) == s,
{
}

/// A server takes the lines of a client as they were meant: it registers the peer in the room, and
/// lists the same room.
pub proof fn law_request_understood(room: Seq<char>, peer_id: Seq<char>, addr: Seq<char>)
    ensures
        token_of(addr).len() > 0 ==> request_of(register_line(room, peer_id, addr)) == (
        RequestView::Register {
            room: token_of(room),
            peer_id: token_of(peer_id),
            addr: token_of(addr),
        }),
        token_of(room).len() > 0 ==> request_of(list_line(room)) == (RequestView::List {
            room: token_of(room),
        }),
        request_of("QUIT"@) == RequestView::Quit,
{
    let r = token_of(room);
    let i = token_of(peer_id);
    let a = token_of(addr);
    lemma_token(room);
    lemma_token(peer_id);
    lemma_token(addr);
    reveal_strlit("REGISTER ");
    reveal_strlit("LIST ");
    reveal_strlit("QUIT");
    reveal_strlit(" ");
    if a.len() > 0 {
        let line = register_line(room, peer_id, addr);
        let rest = r + " "@ + (i + " "@ + a);
        assert(line =~= "REGISTER "@ + rest);
        assert(!text::is_space(a[a.len() - 1]));
        assert(line.last() == a[a.len() - 1]);
        assert(line[0] == 'R');
        lemma_untrimmed(line);
        assert(line.take(9) =~= "REGISTER "@);
        assert(line.skip(9) =~= rest);
        lemma_cut_token(r, i + " "@ + a);
        lemma_cut_token(i, a);
    }
    if r.len() > 0 {
        let line = list_line(room);
        assert(!text::is_space(r[r.len() - 1]));
        assert(line.last() == r[r.len() - 1]);
        assert(line[0] == 'L');
        lemma_untrimmed(line);
        if line.len() >= 9 {
            assert(line.take(9)[0] == 'L');
        }
        assert(line.take(5) =~= "LIST "@);
        assert(line.skip(5) =~= r);
    }
    let q = "QUIT"@;
    lemma_untrimmed(q);
}

/// Whether a client can read an entry back.
pub open spec fn readable(e: EntryView) -> bool {
    is_token(e.peer_id) && is_token(e.addr) && e.addr.len() > 0
}

/// A client reads from the answer to a list request just the peers that the server listed, in order.
pub proof fn law_list_is_read(s: Seq<EntryView>)
    requires
        forall|i: int| 0 <= i < s.len() ==> readable(#[trigger] s[i]),
    ensures
        hints(list_reply(s)) == Seq::new(s.len(), |i: int| (s[i].peer_id, s[i].addr)),
    decreases s.len(),
{
    let lines = list_reply(s);
    let all = Seq::new(s.len(), |i: int| (s[i].peer_id, s[i].addr));
    reveal_strlit("END");
    reveal_strlit("PEER ");
    reveal_strlit(" ");
    if s.len() == 0 {
        lemma_untrimmed("END"@);
        assert(lines[0] == "END"@);
        assert(hints(lines) =~= all);
    } else {
        let e = s[0];
        let tail = s.skip(1);
        assert forall|i: int| 0 <= i < tail.len() implies readable(#[trigger] tail[i]) by {
            assert(readable(s[i + 1]));
        }
        law_list_is_read(tail);
        assert(readable(s[0]));
        let line = peer_line(e);
        assert(lines[0] == line);
        assert(lines.skip(1) =~= list_reply(tail));
        assert(!text::is_space(e.addr[e.addr.len() - 1]));
        assert(line.last() == e.addr[e.addr.len() - 1]);
        assert(line[0] == 'P');
        lemma_untrimmed(line);
        assert(line.take(5) =~= "PEER "@);
        assert(line.skip(5) =~= e.peer_id + " "@ + e.addr);
        lemma_cut_token(e.peer_id, e.addr);
        assert(!is_end(line)) by {
            assert("END"@[0] == 'E');
        }
        assert(hints(lines) =~= all) by {
            assert(seq![all[0]] + Seq::new(
                tail.len(),
                |i: int| (tail[i].peer_id, tail[i].addr),
            ) =~= all);
        }
    }
}

proof fn lemma_kept(s: Seq<EntryView>, mono: u64, leaving: Option<Seq<char>>)
    ensures
        kept(s, mono, leaving).len() <= s.len(),
        forall|i: int|
            0 <= i < kept(s, mono, leaving).len() ==> alive(
                #[trigger] kept(s, mono, leaving)[i],
                mono,
            ) && leaving != Some(kept(s, mono, leaving)[i].peer_id) && s.contains(
                kept(s, mono, leaving)[i],
            ),
        forall|e: EntryView|
            s.contains(e) && alive(e, mono) && leaving != Some(e.peer_id) ==> #[trigger] kept(
                s,
                mono,
                leaving,
            ).contains(e),
        (forall|i: int, j: int|
            0 <= i < j < s.len() ==> (#[trigger] s[i]).peer_id != (#[trigger] s[j]).peer_id) ==> (
        forall|i: int, j: int|
            0 <= i < j < kept(s, mono, leaving).len() ==> (#[trigger] kept(
                s,
                mono,
                leaving,
            )[i]).peer_id != (#[trigger] kept(s, mono, leaving)[j]).peer_id),
    decreases s.len(),
{
    if s.len() > 0 {
        let d = s.drop_last();
        let head = kept(d, mono, leaving);
        let k = kept(s, mono, leaving);
        lemma_kept(d, mono, leaving);
        assert(s =~= d.push(s.last()));
        assert(s.contains(s.last())) by {
            assert(s[s.len() - 1] == s.last());
        }
        assert forall|e: EntryView| d.contains(e) implies s.contains(e) by {
            let i = choose|i: int| 0 <= i < d.len() && d[i] == e;
            assert(s[i] == e);
        }
        assert forall|i: int| 0 <= i < k.len() implies alive(#[trigger] k[i], mono) && leaving
            != Some(k[i].peer_id) && s.contains(k[i]) by {
            if i < head.len() {
                assert(k[i] == head[i]);
            }
        }
        assert forall|e: EntryView|
            s.contains(e) && alive(e, mono) && leaving != Some(e.peer_id) implies #[trigger] k.contains(
        e) by {
            let i = choose|i: int| 0 <= i < s.len() && s[i] == e;
            if i < d.len() {
                assert(d[i] == e);
                assert(head.contains(e));
                let j = choose|j: int| 0 <= j < head.len() && head[j] == e;
                assert(k[j] == e);
            } else {
                assert(k[k.len() - 1] == e);
            }
        }
        if forall|i: int, j: int|
            0 <= i < j < s.len() ==> (#[trigger] s[i]).peer_id != (#[trigger] s[j]).peer_id {
            assert forall|i: int, j: int| 0 <= i < j < d.len() implies (#[trigger] d[i]).peer_id
                != (#[trigger] d[j]).peer_id by {
                assert(s[i].peer_id != s[j].peer_id);
            }
            assert forall|i: int, j: int| 0 <= i < j < k.len() implies (#[trigger] k[i]).peer_id
                != (#[trigger] k[j]).peer_id by {
                assert(k[i] == head[i]);
                if j < head.len() {
                    assert(k[j] == head[j]);
                } else {
                    assert(d.contains(head[i]));
                    let x = choose|x: int| 0 <= x < d.len() && d[x] == head[i];
                    assert(s[x].peer_id != s[s.len() - 1].peer_id);
                }
            }
        }
    }
}

/// Whether no peer has two entries.
pub open spec fn one_each(s: Seq<EntryView>) -> bool {
    forall|i: int, j: int|
        0 <= i < j < s.len() ==> (#[trigger] s[i]).peer_id != (#[trigger] s[j]).peer_id
}

/// However often a peer registers, a room holds one entry of it, the newest; and what other rooms
/// hold does not change.
pub proof fn law_one_entry_each(
    rooms: Map<Seq<char>, Seq<EntryView>>,
    room: Seq<char>,
    other: Seq<char>,
    peer_id: Seq<char>,
    addr: Seq<char>,
    mono: u64,
)
    requires
        one_each(rooms[room]),
    ensures
        one_each(registered(rooms, room, peer_id, addr, mono)[room]),
        registered(rooms, room, peer_id, addr, mono)[room].last() == (EntryView {
            peer_id,
            addr,
            seen_at: mono,
        }),
        one_each(kept(rooms[room], mono, None)),
        other != room ==> registered(rooms, room, peer_id, addr, mono)[other] == rooms[other],
{
    lemma_kept(rooms[room], mono, Some(peer_id));
    lemma_kept(rooms[room], mono, None);
    let s = registered(rooms, room, peer_id, addr, mono)[room];
    let head = kept(rooms[room], mono, Some(peer_id));
    assert forall|i: int, j: int| 0 <= i < j < s.len() implies (#[trigger] s[i]).peer_id != (
    #[trigger] s[j]).peer_id by {
        assert(s[i] == head[i]);
        if j < head.len() {
            assert(s[j] == head[j]);
        }
    }
}

/// A peer that registered is listed to everyone who asks for its room within the life of an entry,
/// and is not listed after that.
pub proof fn law_registered_is_listed(
    rooms: Map<Seq<char>, Seq<EntryView>>,
    room: Seq<char>,
    peer_id: Seq<char>,
    addr: Seq<char>,
    mono: u64,
    later: u64,
)
    ensures
        later - mono < ENTRY_TTL ==> kept(
            registered(rooms, room, peer_id, addr, mono)[room],
            later,
            None,
        ).contains(EntryView { peer_id, addr, seen_at: mono }),
        later - mono >= ENTRY_TTL ==> forall|i: int|
            0 <= i < kept(
                registered(rooms, room, peer_id, addr, mono)[room],
                later,
                None,
            ).len() ==> (#[trigger] kept(
                registered(rooms, room, peer_id, addr, mono)[room],
                later,
                None,
            )[i]).peer_id != peer_id,
{
    let s = registered(rooms, room, peer_id, addr, mono)[room];
    let e = EntryView { peer_id, addr, seen_at: mono };
    let head = kept(rooms[room], mono, Some(peer_id));
    lemma_kept(s, later, None);
    lemma_kept(rooms[room], mono, Some(peer_id));
    assert(s[s.len() - 1] == e);
    assert(s.contains(e));
    let k = kept(s, later, None);
    if later - mono >= ENTRY_TTL {
        assert forall|i: int| 0 <= i < k.len() implies (#[trigger] k[i]).peer_id != peer_id by {
            assert(s.contains(k[i]));
            let x = choose|x: int| 0 <= x < s.len() && s[x] == k[i];
            if x < head.len() {
                assert(s[x] == head[x]);
            }
        }
    }
}

}
