//! The rendezvous server, its rooms and its clients.
use vstd::prelude::*;
use vstd::string::*;

use crate::app::{AppView, MsgKind, NetLevel};
use crate::promises::letters;
use crate::rendezvous;
use crate::rendezvous::{EntryView, Round};
use crate::text;

verus! {

/// Entries are kept for three minutes after they were last seen, but for those of a peer that
/// leaves; they keep their order.
pub proof fn law_entries_are_kept(s: Seq<EntryView>, mono: u64, leaving: Option<Seq<char>>)
    ensures
        rendezvous::kept(s, mono, leaving) == s.filter(
            |e: EntryView| mono - e.seen_at < 180_000_000_000 && leaving != Some(e.peer_id),
        ),
    decreases s.len(),
{
    reveal(Seq::filter);
    if s.len() > 0 {
        law_entries_are_kept(s.drop_last(), mono, leaving);
    }
}

/// A registration puts the peer at the end of its room, in place of what it had there. Every entry
/// of another peer that is still alive stays, in its order, and no other room changes.
pub proof fn law_registration_keeps_the_others(
    rooms: Map<Seq<char>, Seq<EntryView>>,
    room: Seq<char>,
    peer_id: Seq<char>,
    addr: Seq<char>,
    mono: u64,
    e: EntryView,
    other: Seq<char>,
)
    ensures
        ({
            let after = rendezvous::registered(rooms, room, peer_id, addr, mono);
            &&& after[room] == rooms[room].filter(
                |x: EntryView| mono - x.seen_at < 180_000_000_000 && x.peer_id != peer_id,
            ).push(EntryView { peer_id, addr, seen_at: mono })
            &&& rooms[room].contains(e) && e.peer_id != peer_id && mono - e.seen_at
                < 180_000_000_000 ==> after[room].contains(e)
            &&& after[room].contains(EntryView { peer_id, addr, seen_at: mono })
            &&& other != room ==> after[other] == rooms[other]
            &&& other != room && rooms.dom().contains(other) ==> after.dom().contains(other)
        }),
{
    let s = rooms[room];
    let after = rendezvous::registered(rooms, room, peer_id, addr, mono);
    law_entries_are_kept(s, mono, Some(peer_id));
    let p = |x: EntryView| mono - x.seen_at < 180_000_000_000 && x.peer_id != peer_id;
    let q = |x: EntryView|
        mono - x.seen_at < 180_000_000_000 && Some(peer_id) != Some(x.peer_id);
    lemma_same_filter(s, p, q);
    let t = s.filter(p);
    let new = EntryView { peer_id, addr, seen_at: mono };
    assert(after[room] == t.push(new));
    assert(after[room][t.len() as int] == new);
    if s.contains(e) && e.peer_id != peer_id && mono - e.seen_at < 180_000_000_000 {
        lemma_filter_keeps(s, p, e);
        let i = choose|i: int| 0 <= i < t.len() && t[i] == e;
        assert(t.push(new)[i] == e);
    }
}

proof fn lemma_same_filter(
    s: Seq<EntryView>,
    p: spec_fn(EntryView) -> bool,
    q: spec_fn(EntryView) -> bool,
)
    requires
        forall|x: EntryView| #[trigger] p(x) == q(x),
    ensures
        s.filter(p) == s.filter(q),
    decreases s.len(),
{
    reveal(Seq::filter);
    if s.len() > 0 {
        lemma_same_filter(s.drop_last(), p, q);
        assert(p(s.last()) == q(s.last()));
    }
}

proof fn lemma_filter_keeps(s: Seq<EntryView>, p: spec_fn(EntryView) -> bool, e: EntryView)
    requires
        s.contains(e),
        p(e),
    ensures
        s.filter(p).contains(e),
    decreases s.len(),
{
    reveal(Seq::filter);
    let i = choose|i: int| 0 <= i < s.len() && s[i] == e;
    let d = s.drop_last().filter(p);
    if i < s.len() - 1 {
        assert(s.drop_last()[i] == e);
        lemma_filter_keeps(s.drop_last(), p, e);
        let k = choose|k: int| 0 <= k < d.len() && d[k] == e;
        assert(s.filter(p)[k] == e);
    } else {
        assert(s.filter(p).last() == e);
        assert(s.filter(p)[s.filter(p).len() - 1] == e);
    }
}

/// The server answers a registration with its consent, and a question for a room with a line for
/// each of its peers that is still alive, in the order in which they came, and an end. Anything else
/// it passes over.
pub proof fn law_server_answers(
    rooms: Map<Seq<char>, Seq<EntryView>>,
    room: Seq<char>,
    peer_id: Seq<char>,
    addr: Seq<char>,
    mono: u64,
    i: int,
)
    requires
        rendezvous::is_token(room),
        rendezvous::is_token(peer_id),
        rendezvous::is_token(addr),
        room.len() > 0,
        addr.len() > 0,
    ensures
        rendezvous::after_line(
            rooms,
            "REGISTER "@ + room + " "@ + peer_id + " "@ + addr,
            mono,
        ) == (rendezvous::registered(rooms, room, peer_id, addr, mono), seq!["OK"@]),
        ({
            let (after, lines) = rendezvous::after_line(rooms, "LIST "@ + room, mono);
            let s = rooms[room].filter(|e: EntryView| mono - e.seen_at < 180_000_000_000);
            &&& after == rooms.insert(room, s)
            &&& lines.len() == s.len() + 1
            &&& lines.last() == "END"@
            &&& 0 <= i < s.len() ==> lines[i] == "PEER "@ + s[i].peer_id + " "@ + s[i].addr
        }),
        rendezvous::after_line(rooms, "QUIT"@, mono) == (rooms, Seq::<Seq<char>>::empty()),
{
    rendezvous::law_token(room);
    rendezvous::law_token(peer_id);
    rendezvous::law_token(addr);
    rendezvous::law_request_understood(room, peer_id, addr);
    law_entries_are_kept(rooms[room], mono, None);
    let p = |e: EntryView| mono - e.seen_at < 180_000_000_000;
    let q = |e: EntryView| mono - e.seen_at < 180_000_000_000 && None::<Seq<char>> != Some(e.peer_id);
    lemma_same_filter(rooms[room], p, q);
}

/// Peers that register one after the other in a room are all listed there, as long as none of them
/// is too old.
pub proof fn law_peers_gather(
    rooms: Map<Seq<char>, Seq<EntryView>>,
    room: Seq<char>,
    a: Seq<char>,
    a_addr: Seq<char>,
    a_mono: u64,
    b: Seq<char>,
    b_addr: Seq<char>,
    b_mono: u64,
    e: EntryView,
)
    requires
        a != b,
        b_mono - a_mono < 180_000_000_000,
        rooms[room].contains(e),
        e.peer_id != a,
        e.peer_id != b,
        a_mono - e.seen_at < 180_000_000_000,
        b_mono - e.seen_at < 180_000_000_000,
    ensures
        ({
            let first = rendezvous::registered(rooms, room, a, a_addr, a_mono);
            let both = rendezvous::registered(first, room, b, b_addr, b_mono);
            &&& both[room].contains(e)
            &&& both[room].contains(EntryView { peer_id: a, addr: a_addr, seen_at: a_mono })
            &&& both[room].contains(EntryView { peer_id: b, addr: b_addr, seen_at: b_mono })
        }),
{
    let first = rendezvous::registered(rooms, room, a, a_addr, a_mono);
    let x = EntryView { peer_id: a, addr: a_addr, seen_at: a_mono };
    law_registration_keeps_the_others(rooms, room, a, a_addr, a_mono, e, room);
    law_registration_keeps_the_others(first, room, b, b_addr, b_mono, e, room);
    law_registration_keeps_the_others(first, room, b, b_addr, b_mono, x, room);
}

/// Every peer that a round named is handed on for dialling, as often and in the order in which it
/// was named, but for this peer itself. The round is noted in the log and nowhere else.
pub proof fn law_all_others_are_dialled(
    v: AppView,
    room: Seq<char>,
    round: Round,
    found: Seq<(Seq<char>, Seq<char>)>,
    now: u64,
)
    ensures
        rendezvous::others(v.identity.peer_id, found) == found.filter(
            |p: (Seq<char>, Seq<char>)| p.0 != v.identity.peer_id,
        ),
        round matches Round::Hints(list) ==> rendezvous::round_hints(round).len() == list@.len()
            && forall|i: int|
            0 <= i < list@.len() ==> (#[trigger] rendezvous::round_hints(round)[i]) == (
                list@[i].0@,
                list@[i].1@,
            ),
        round matches Round::Failed(_) ==> rendezvous::round_hints(round).len() == 0,
        ({
            let w = rendezvous::after_round(v, room, round, now);
            &&& w.peers == v.peers && w.history == v.history && w.attempted == v.attempted
            &&& w.netlog.last().level == if round is Failed {
                NetLevel::Warn
            } else {
                NetLevel::Info
            }
        }),
{
    lemma_others(v.identity.peer_id, found);
}

proof fn lemma_others(own: Seq<char>, found: Seq<(Seq<char>, Seq<char>)>)
    ensures
        rendezvous::others(own, found) == found.filter(|p: (Seq<char>, Seq<char>)| p.0 != own),
    decreases found.len(),
{
    reveal(Seq::filter);
    if found.len() > 0 {
        lemma_others(own, found.drop_last());
    }
}

/// A token is a text without its white space and control characters.
pub proof fn law_token_is_bare(s: Seq<char>)
    ensures
        rendezvous::token_of(s) == s.filter(|c: char| !text::is_space(c) && !text::is_ctrl(c)),
    decreases s.len(),
{
    reveal(Seq::filter);
    if s.len() > 0 {
        law_token_is_bare(s.drop_last());
    }
}

/// What a client asks for: that it be registered in its room under its id and address, and who else
/// is there.
pub proof fn law_client_asks(room: Seq<char>, peer_id: Seq<char>, addr: Seq<char>)
    requires
        rendezvous::is_token(room),
        rendezvous::is_token(peer_id),
        rendezvous::is_token(addr),
    ensures
        rendezvous::register_line(room, peer_id, addr) == "REGISTER "@ + room + " "@ + peer_id
            + " "@ + addr,
        rendezvous::list_line(room) == "LIST "@ + room,
{
    rendezvous::law_token(room);
    rendezvous::law_token(peer_id);
    rendezvous::law_token(addr);
}

/// From the lines of an answer a client takes each peer with its address, up to the end, and passes
/// over what is neither.
pub proof fn law_answer_is_read(
    id: Seq<char>,
    addr: Seq<char>,
    line: Seq<char>,
    rest: Seq<Seq<char>>,
)
    requires
        forall|i: int| 0 <= i < id.len() ==> id[i] != ' ',
        addr.len() > 0,
        !text::is_space(addr.last()),
    ensures
        rendezvous::hints(seq!["PEER "@ + id + " "@ + addr] + rest) == seq![(id, addr)]
            + rendezvous::hints(rest),
        rendezvous::hints(seq!["END"@] + rest) == Seq::<(Seq<char>, Seq<char>)>::empty(),
        rendezvous::hints(Seq::empty()) == Seq::<(Seq<char>, Seq<char>)>::empty(),
        text::trimmed(line) != "END"@ && !text::begins_with(text::trimmed(line), "PEER "@)
            ==> rendezvous::hints(seq![line] + rest) == rendezvous::hints(rest),
        rendezvous::is_end(line) == (text::trimmed(line) == "END"@),
{
    let first = "PEER "@ + id + " "@ + addr;
    reveal_strlit("PEER ");
    reveal_strlit(" ");
    reveal_strlit("END");
    let none = Seq::<char>::empty();
    assert(none + first + none =~= first);
    assert(first[0] == 'P');
    assert(first.last() == addr.last());
    letters::law_trimmed(none, first, none);
    assert(none + "END"@ + none =~= "END"@);
    letters::law_trimmed(none, "END"@, none);
    assert(first[0] != "END"@[0]);
    let tail = id.push(' ') + addr;
    assert(first =~= "PEER "@ + tail);
    letters::law_behind_a_prefix("PEER "@, tail);
    letters::law_cut_at_the_first(id, addr, ' ');
    assert((seq![first] + rest).skip(1) =~= rest);
    assert((seq![line] + rest).skip(1) =~= rest);
    assert((seq![first] + rest)[0] == first);
    assert((seq![line] + rest)[0] == line);
    assert((seq!["END"@] + rest)[0] == "END"@);
}

/// A server that cannot listen tells the user so, and one that can notes it in the log.
pub proof fn law_server_start_is_told(
    v: AppView,
    bind: Seq<char>,
    bound: bool,
    nonblocking: bool,
    now: u64,
)
    ensures
        ({
            let w = rendezvous::after_bind(v, bind, bound, nonblocking, now);
            &&& w.peers == v.peers
            &&& bound && nonblocking ==> w.history == v.history && w.netlog.last().level
                == NetLevel::Okay
            &&& !bound || !nonblocking ==> w.history.last().kind == MsgKind::Error
        }),
{
}

/// A token is what holds no white space and no control character.
pub proof fn law_tokens(s: Seq<char>)
    ensures
        rendezvous::is_token(s) == (forall|i: int|
            0 <= i < s.len() ==> !text::is_space(#[trigger] s[i]) && !text::is_ctrl(s[i])),
        rendezvous::is_token(rendezvous::token_of(s)),
        rendezvous::is_token(s) ==> rendezvous::token_of(s) == s,
{
    rendezvous::law_token(s);
}

}
