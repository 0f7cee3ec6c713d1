//! Offered files and their way from one peer to another.
use vstd::prelude::*;
use vstd::string::*;
use vstd::utf8::*;

use crate::app::{AppView, MsgKind, NetLevel, OutView, PeerView, RxView, TxView};
use crate::files;
use crate::files::FileActionView;
use crate::promises::letters;
use crate::promises::links;
use crate::text;
use crate::util;

verus! {

/// An accepted file is asked for from the peer that offered it and from nobody else: where that peer
/// is connected, the request goes to the end of the queue of one connection to it, and every other
/// queue stays as it was. The offer then has an open file of its own, and the others stay.
pub proof fn law_sender_is_asked(v: AppView, i: int, now: u64)
    requires
        0 <= i < v.rx.len(),
        v.next_token < u64::MAX,
    ensures
        ({
            let f = v.rx[i];
            let w = files::after_open(v, i, true, now);
            let ask = OutView { kind: 7, text: text::dec(f.id as nat) };
            &&& w.peers.len() == v.peers.len()
            &&& forall|j: int|
                0 <= j < v.peers.len() ==> (#[trigger] w.peers[j]).key == v.peers[j].key
                    && w.peers[j].info == v.peers[j].info && w.peers[j].dead == v.peers[j].dead
            &&& forall|j: int|
                0 <= j < v.peers.len() && (v.peers[j].info.remote_pid_full != f.sender
                    || !v.peers[j].info.handshake_done || v.peers[j].dead) ==> #[trigger] w.peers[j]
                    == v.peers[j]
            &&& (exists|j: int|
                0 <= j < v.peers.len() && (#[trigger] v.peers[j]).info.handshake_done
                    && !v.peers[j].dead && v.peers[j].info.remote_pid_full == f.sender)
                ==> exists|j: int|
                {
                    &&& 0 <= j < v.peers.len()
                    &&& v.peers[j].info.handshake_done
                    &&& !v.peers[j].dead
                    &&& v.peers[j].info.remote_pid_full == f.sender
                    &&& #[trigger] w.peers[j].out == v.peers[j].out.push(ask)
                    &&& forall|k: int|
                        0 <= k < v.peers.len() && k != j ==> #[trigger] w.peers[k] == v.peers[k]
                }
            &&& w.rx == v.rx.update(i, RxView { file: Some(v.next_token), ..f })
            &&& w.next_token == v.next_token + 1
            &&& w.tx == v.tx
            &&& w.history.last().kind == MsgKind::System
        }),
        files::after_open(v, i, false, now).peers == v.peers,
        files::after_open(v, i, false, now).rx == v.rx,
        files::after_open(v, i, false, now).next_token == v.next_token,
        files::after_open(v, i, false, now).history.last().kind == MsgKind::Error,
{
    let f = v.rx[i];
    let w = files::after_open(v, i, true, now);
    if exists|j: int|
        0 <= j < v.peers.len() && (#[trigger] v.peers[j]).info.handshake_done && !v.peers[j].dead
            && v.peers[j].info.remote_pid_full == f.sender {
        let j = choose|j: int|
            0 <= j < v.peers.len() && (#[trigger] v.peers[j]).info.handshake_done
                && !v.peers[j].dead && v.peers[j].info.remote_pid_full == f.sender;
        lemma_first_online(v.peers, f.sender, j);
        let k = choose|k: int| files::online_at(v.peers, f.sender, k);
        assert(w.peers[k].out == v.peers[k].out.push(
            OutView { kind: 7, text: text::dec(f.id as nat) },
        ));
    }
}

proof fn lemma_first_online(peers: Seq<PeerView>, pid: Seq<char>, j: int)
    requires
        0 <= j < peers.len(),
        peers[j].info.handshake_done && !peers[j].dead && peers[j].info.remote_pid_full == pid,
    ensures
        exists|k: int| files::online_at(peers, pid, k),
    decreases j,
{
    if forall|k: int|
        0 <= k < j ==> !((#[trigger] peers[k]).online() && peers[k].info.remote_pid_full == pid) {
        assert(files::online_at(peers, pid, j));
    } else {
        let k = choose|k: int|
            0 <= k < j && (#[trigger] peers[k]).online() && peers[k].info.remote_pid_full == pid;
        lemma_first_online(peers, pid, k);
    }
}

proof fn lemma_pending_count(rx: Seq<RxView>, wanted: Option<u32>)
    ensures
        files::pending_count(rx, wanted) == rx.filter(
            |f: RxView| f.file is None && (wanted is None || wanted == Some(f.id)),
        ).len(),
    decreases rx.len(),
{
    reveal(Seq::filter);
    if rx.len() > 0 {
        lemma_pending_count(rx.drop_last(), wanted);
    }
}

/// Accepting takes an offer that was not accepted before: the one with the wanted number, the first
/// where there are several, or the only one there is. In any other case nothing is accepted and the
/// user is told.
pub proof fn law_offer_is_chosen(
    v: AppView,
    dir_error: Option<Seq<char>>,
    wanted: Option<u32>,
    now: u64,
    i: int,
)
    ensures
        ({
            let fit = v.rx.filter(
                |f: RxView| f.file is None && (wanted is None || wanted == Some(f.id)),
            ).len();
            let goes_on = dir_error is None && fit > 0 && (wanted is Some || fit == 1);
            let w = files::after_accept_command(v, dir_error, wanted, now);
            &&& files::accept_goes_on(v, dir_error, wanted) == goes_on
            &&& goes_on ==> w == v
            &&& !goes_on ==> w.rx == v.rx && w.peers == v.peers && w.history.last().kind
                == MsgKind::Error
        }),
        files::first_pending(v.rx, wanted, i) == (0 <= i < v.rx.len() && v.rx[i].file is None && (
        wanted is None || wanted == Some(v.rx[i].id)) && forall|j: int|
            0 <= j < i ==> !((#[trigger] v.rx[j]).file is None && (wanted is None || wanted == Some(
                v.rx[j].id,
            )))),
{
    lemma_pending_count(v.rx, wanted);
    if files::first_pending(v.rx, wanted, i) {
        assert forall|j: int| 0 <= j < i implies !((#[trigger] v.rx[j]).file is None && (wanted
            is None || wanted == Some(v.rx[j].id))) by {
            assert(!files::is_pending(v.rx[j], wanted));
        }
    }
}

/// An offer is listed at the end as one of the peer that sent it, under its number and size, with
/// nothing received and not accepted; its name is cleaned, and it is to be stored in the directory
/// for received files. With eight offers there is no place for another.
pub proof fn law_offer_is_listed(
    v: AppView,
    i: int,
    id: u32,
    size: u64,
    name: Seq<char>,
    now: u64,
)
    requires
        links::listed(v, i),
    ensures
        ({
            let (w, action) = files::after_file_frame(
                v,
                v.peers[i].key,
                4,
                text::dec(id as nat) + "|"@ + text::dec(size as nat) + "|"@ + name,
                now,
            );
            let from = if v.peers[i].info.remote_nick.len() > 0 {
                v.peers[i].info.remote_nick
            } else {
                v.peers[i].info.remote_pid_short
            };
            &&& action == FileActionView::Nothing
            &&& w.peers == v.peers
            &&& w.tx == v.tx
            &&& v.rx.len() < 8 ==> {
                &&& w.rx.len() == v.rx.len() + 1
                &&& w.rx.drop_last() == v.rx
                &&& w.rx.last().id == id
                &&& w.rx.last().expected == size
                &&& w.rx.last().received == 0
                &&& w.rx.last().sender == v.peers[i].info.remote_pid_full
                &&& w.rx.last().file is None
                &&& w.rx.last().name == util::safe_name(name)
                &&& w.rx.last().path == "speer_received"@.push(v.separator) + (util::safe_name(from)
                    + "_"@ + text::dec(id as nat) + "_"@ + util::safe_name(name))
                &&& w.history.last().kind == MsgKind::System
            }
            &&& v.rx.len() >= 8 ==> w.rx == v.rx && w.history.last().kind == MsgKind::Error
        }),
{
    links::lemma_listed(v, i);
    let payload = text::dec(id as nat) + "|"@ + text::dec(size as nat) + "|"@ + name;
    files::law_offer_round_trip(id, size, name);
    let w = files::after_file_frame(v, v.peers[i].key, 4, payload, now).0;
    if v.rx.len() < 8 {
        assert(w.rx.drop_last() =~= v.rx);
    }
}

/// What is no offer, no chunk or no number leaves the offers alone and touches no file.
pub proof fn law_bad_file_frames(v: AppView, key: u64, kind: u32, payload: Seq<char>, now: u64)
    requires
        kind == 4 ==> files::offer_of(payload) is None,
        kind == 5 ==> files::chunk_of(payload) is None,
        kind == 6 || kind == 7 ==> text::number(payload, 0xffff_ffff) is None,
    ensures
        ({
            let (w, action) = files::after_file_frame(v, key, kind, payload, now);
            action == FileActionView::Nothing && w.rx == v.rx && w.tx == v.tx && w.peers == v.peers
                && w.history == v.history
        }),
{
}

/// Whether this is the place of the first offer with this number from the peer of a connection.
pub open spec fn first_from(v: AppView, i: int, id: u32, k: int) -> bool {
    &&& 0 <= k < v.rx.len()
    &&& v.rx[k].id == id
    &&& v.rx[k].sender == v.peers[i].info.remote_pid_full
    &&& forall|j: int|
        0 <= j < k ==> !((#[trigger] v.rx[j]).id == id && v.rx[j].sender
            == v.peers[i].info.remote_pid_full)
}

/// Whether the peer of a connection has no offer with this number.
pub open spec fn none_from(v: AppView, i: int, id: u32) -> bool {
    forall|j: int|
        0 <= j < v.rx.len() ==> !((#[trigger] v.rx[j]).id == id && v.rx[j].sender
            == v.peers[i].info.remote_pid_full)
}

proof fn lemma_first_from(v: AppView, i: int, id: u32, k: int)
    ensures
        first_from(v, i, id, k) ==> files::rx_place(v, id, v.peers[i].info.remote_pid_full) == Some(
            k,
        ),
        none_from(v, i, id) ==> files::rx_place(v, id, v.peers[i].info.remote_pid_full) is None,
{
    let pid = v.peers[i].info.remote_pid_full;
    if first_from(v, i, id, k) {
        assert(files::rx_at(v, id, pid, k));
        let m = choose|m: int| files::rx_at(v, id, pid, m);
        assert(files::rx_at(v, id, pid, m));
        if m < k {
            assert(!(v.rx[m].id == id && v.rx[m].sender == pid));
        } else if k < m {
            assert(!(v.rx[k].id == id && v.rx[k].sender == pid));
        }
    }
    if none_from(v, i, id) && exists|m: int| files::rx_at(v, id, pid, m) {
        let m = choose|m: int| files::rx_at(v, id, pid, m);
        assert(v.rx[m].id == id);
    }
}

/// A chunk goes, byte for byte, into the file that was opened for the offer with its number from the
/// peer that sends it, and nowhere else: not where the offer was not accepted, and not where it is
/// another peer's.
pub proof fn law_chunk_goes_to_its_file(
    v: AppView,
    i: int,
    id: u32,
    data: Seq<u8>,
    k: int,
    now: u64,
)
    requires
        links::listed(v, i),
    ensures
        ({
            let (w, action) = files::after_file_frame(
                v,
                v.peers[i].key,
                5,
                text::dec(id as nat) + "|"@ + util::hex_text(data),
                now,
            );
            &&& first_from(v, i, id, k) && v.rx[k].file is Some ==> w == v && action == (
            FileActionView::Write { token: v.rx[k].file->0, data })
            &&& first_from(v, i, id, k) && v.rx[k].file is None ==> action
                == FileActionView::Nothing && w.rx == v.rx && w.history == v.history
            &&& none_from(v, i, id) ==> action == FileActionView::Nothing && w.rx == v.rx
                && w.history == v.history
            &&& w.peers == v.peers
        }),
{
    links::lemma_listed(v, i);
    lemma_first_from(v, i, id, k);
    files::law_chunk_round_trip(id, data);
}

/// What was written counts for the offer whose file it was written to, and for no other.
pub proof fn law_written_is_counted(v: AppView, token: u64, n: u64, k: int, now: u64)
    ensures
        ({
            let w = files::after_write(v, token, n, now);
            &&& 0 <= k < v.rx.len() && v.rx[k].file == Some(token) && (forall|j: int|
                0 <= j < k ==> (#[trigger] v.rx[j]).file != Some(token)) ==> w.rx == v.rx.update(
                k,
                RxView { received: v.rx[k].received.wrapping_add(n), ..v.rx[k] },
            )
            &&& (forall|j: int| 0 <= j < v.rx.len() ==> (#[trigger] v.rx[j]).file != Some(token))
                ==> w == v
            &&& w.peers == v.peers && w.history == v.history && w.tx == v.tx
        }),
{
    if 0 <= k < v.rx.len() && v.rx[k].file == Some(token) && (forall|j: int|
        0 <= j < k ==> (#[trigger] v.rx[j]).file != Some(token)) {
        assert(files::token_at(v, token, k));
        let m = choose|m: int| files::token_at(v, token, m);
        assert(files::token_at(v, token, m));
        if m < k {
            assert(v.rx[m].file != Some(token));
        } else if k < m {
            assert(v.rx[k].file != Some(token));
        }
    }
    if forall|j: int| 0 <= j < v.rx.len() ==> (#[trigger] v.rx[j]).file != Some(token) {
        if exists|m: int| files::token_at(v, token, m) {
            let m = choose|m: int| files::token_at(v, token, m);
            assert(v.rx[m].file == Some(token));
        }
    }
}

/// At its end a file leaves the list, its own entry and no other, and is closed where it was open.
/// The user is told, and that it is incomplete just where not all of it came.
pub proof fn law_file_is_done(v: AppView, i: int, id: u32, k: int, now: u64)
    requires
        links::listed(v, i),
    ensures
        ({
            let (w, action) = files::after_file_frame(
                v,
                v.peers[i].key,
                6,
                text::dec(id as nat),
                now,
            );
            &&& first_from(v, i, id, k) ==> {
                let f = v.rx[k];
                &&& w.rx == v.rx.remove(k)
                &&& action == match f.file {
                    Some(token) => FileActionView::Close { token },
                    None => FileActionView::Nothing,
                }
                &&& w.history.last().kind == MsgKind::System
                &&& (w.history.last().text.last() == ')') == (f.received == f.expected)
                &&& w.netlog.last().level == if f.received == f.expected {
                    NetLevel::Okay
                } else {
                    NetLevel::Warn
                }
            }
            &&& none_from(v, i, id) ==> w == v && action == FileActionView::Nothing
            &&& w.peers == v.peers
            &&& w.tx == v.tx
        }),
{
    links::lemma_listed(v, i);
    lemma_first_from(v, i, id, k);
    files::law_file_id_round_trip(id);
    reveal_strlit(" bytes)");
    reveal_strlit(" incomplete");
    reveal_strlit("");
}

/// A request is answered with the file that was offered under its number, the first where there are
/// several, and with none where nothing was.
pub proof fn law_requested_file_is_sent(v: AppView, key: u64, id: u32, k: int, now: u64)
    ensures
        ({
            let (w, action) = files::after_file_frame(v, key, 7, text::dec(id as nat), now);
            &&& 0 <= k < v.tx.len() && v.tx[k].id == id && (forall|j: int|
                0 <= j < k ==> (#[trigger] v.tx[j]).id != id) ==> action == (FileActionView::Send {
                file: v.tx[k],
            })
            &&& (forall|j: int| 0 <= j < v.tx.len() ==> (#[trigger] v.tx[j]).id != id) ==> action
                == FileActionView::Nothing
            &&& w.peers == v.peers && w.tx == v.tx && w.rx == v.rx && w.history == v.history
        }),
{
    files::law_file_id_round_trip(id);
    let x = v.logged(NetLevel::Okay, "file accepted by peer"@, now);
    if 0 <= k < v.tx.len() && v.tx[k].id == id && (forall|j: int|
        0 <= j < k ==> (#[trigger] v.tx[j]).id != id) {
        assert(files::tx_at(x, id, k));
        let m = choose|m: int| files::tx_at(x, id, m);
        assert(files::tx_at(x, id, m));
        if m < k {
            assert(v.tx[m].id != id);
        } else if k < m {
            assert(x.tx[k].id != id);
        }
    }
    if forall|j: int| 0 <= j < v.tx.len() ==> (#[trigger] v.tx[j]).id != id {
        if exists|m: int| files::tx_at(x, id, m) {
            let m = choose|m: int| files::tx_at(x, id, m);
            assert(v.tx[m].id == id);
        }
    }
}

/// Each part that is read of a file is queued for the peer that asked for it, with the number of the
/// file and its bytes in hexadecimal; when there is no more, the end of the file is. Nobody else is
/// sent anything.
pub proof fn law_part_is_queued(
    v: AppView,
    i: int,
    file: TxView,
    sent: u64,
    read: Option<Seq<u8>>,
    now: u64,
)
    requires
        links::listed(v, i),
        read matches Some(chunk) ==> sent + chunk.len() <= u64::MAX,
    ensures
        ({
            let (w, r) = files::after_read(v, v.peers[i].key, file, sent, read, now);
            let more = read is Some && (read->0).len() > 0;
            &&& w.peers.len() == v.peers.len()
            &&& forall|j: int|
                0 <= j < v.peers.len() && j != i ==> #[trigger] w.peers[j] == v.peers[j]
            &&& w.peers[i].info == v.peers[i].info && w.peers[i].key == v.peers[i].key
                && w.peers[i].dead == v.peers[i].dead
            &&& more ==> r == Some((sent + (read->0).len()) as u64) && w.peers[i].out
                == v.peers[i].out.push(
                OutView {
                    kind: 5,
                    text: text::dec(file.id as nat) + "|"@ + util::hex_text(read->0),
                },
            )
            &&& !more ==> r is None && w.peers[i].out == v.peers[i].out.push(
                OutView { kind: 6, text: text::dec(file.id as nat) },
            )
            &&& w.tx == v.tx && w.rx == v.rx && w.history == v.history
        }),
{
    links::lemma_listed(v, i);
}

/// A file is offered to every connected peer, under a number of its own, with its size and its
/// cleaned name, and it is kept under that number with the path at which it lies. A file that cannot
/// be looked at is not offered.
pub proof fn law_file_is_offered(
    v: AppView,
    path: Seq<char>,
    base: Option<Seq<char>>,
    size: Option<u64>,
    unix_secs: u64,
    now: u64,
    j: int,
)
    requires
        0 <= j < v.peers.len(),
    ensures
        ({
            let w = files::after_look(v, path, base, size, unix_secs, now);
            &&& size is None ==> w.tx == v.tx && w.peers == v.peers && w.next_file_id
                == v.next_file_id && w.history.last().kind == MsgKind::Error
            &&& size matches Some(n) ==> {
                let f = w.tx.last();
                &&& w.tx.drop_last() == v.tx
                &&& w.tx.len() == v.tx.len() + 1
                &&& f.size == n
                &&& f.path == path
                &&& base matches Some(b) ==> f.name == util::safe_name(b)
                &&& base is None ==> f.name == "blob"@
                &&& f.id == v.next_file_id ^ (unix_secs % 0x1_0000_0000) as u32
                &&& w.next_file_id == v.next_file_id.wrapping_add(1)
                &&& w.peers[j].info == v.peers[j].info
                &&& w.peers[j].out == if v.peers[j].info.handshake_done && !v.peers[j].dead {
                    v.peers[j].out.push(
                        OutView {
                            kind: 4,
                            text: text::dec(f.id as nat) + "|"@ + text::dec(n as nat) + "|"@
                                + f.name,
                        },
                    )
                } else {
                    v.peers[j].out
                }
                &&& w.rx == v.rx
                &&& w.history.last().kind == MsgKind::System
            }
        }),
{
    let w = files::after_look(v, path, base, size, unix_secs, now);
    if size is Some {
        assert(w.tx.drop_last() =~= v.tx);
        reveal_strlit("blob");
        letters::law_file_name_is_cleaned("blob"@, "blob"@, 'b');
    }
}

/// Two files that are offered one after the other within a second have different numbers.
pub proof fn law_numbers_differ(a: u32, secs: u64)
    ensures
        files::offer_id(a, secs) != files::offer_id(a.wrapping_add(1), secs),
{
    let b = a.wrapping_add(1);
    let t = (secs % 0x1_0000_0000) as u32;
    assert(a != b);
    assert(a != b ==> a ^ t != b ^ t) by (bit_vector);
}

/// A file is looked at only where a path is given and somebody is there to send it to.
pub proof fn law_sending_needs_a_path_and_a_peer(v: AppView, arg: Seq<char>, now: u64)
    ensures
        ({
            let (w, path) = files::after_send_command(v, arg, now);
            let given = text::stripped(text::trimmed(arg), '"', '"');
            let someone = exists|j: int|
                0 <= j < v.peers.len() && (#[trigger] v.peers[j]).info.handshake_done
                    && !v.peers[j].dead;
            &&& given.len() > 0 && someone ==> w == v && path == Some(given)
            &&& given.len() == 0 || !someone ==> path is None && w.peers == v.peers && w.tx == v.tx
                && w.history.last().kind == MsgKind::Error
        }),
{
    lemma_someone(v.peers);
}

/// Somebody is connected just where one of the connections is.
pub proof fn lemma_someone(peers: Seq<PeerView>)
    ensures
        (crate::app::online(peers).len() > 0) == (exists|j: int|
            0 <= j < peers.len() && (#[trigger] peers[j]).info.handshake_done && !peers[j].dead),
    decreases peers.len(),
{
    if peers.len() > 0 {
        let d = peers.drop_last();
        lemma_someone(d);
        if exists|j: int|
            0 <= j < peers.len() && (#[trigger] peers[j]).info.handshake_done && !peers[j].dead {
            let j = choose|j: int|
                0 <= j < peers.len() && (#[trigger] peers[j]).info.handshake_done && !peers[j].dead;
            if j < d.len() {
                assert(d[j].info.handshake_done && !d[j].dead);
            }
        }
        if exists|j: int| 0 <= j < d.len() && (#[trigger] d[j]).info.handshake_done && !d[j].dead {
            let j = choose|j: int|
                0 <= j < d.len() && (#[trigger] d[j]).info.handshake_done && !d[j].dead;
            assert(peers[j].info.handshake_done && !peers[j].dead);
        }
        assert(peers.last() == peers[peers.len() - 1]);
    }
}

/// The file name at the end of a path is what stands behind its last slash; slashes and dots at the
/// end do not count.
pub proof fn law_name_behind_the_last_slash(dir: Seq<char>, name: Seq<char>)
    requires
        name.len() > 0,
        forall|i: int| 0 <= i < name.len() ==> name[i] != '/',
    ensures
        name != "."@ && name != ".."@ ==> files::base_name_of(name) == Some(name)
            && files::base_name_of(dir.push('/') + name) == Some(name),
        files::base_name_of(dir.push('/') + ".."@) is None,
        files::base_name_of(dir.push('/')) == files::base_name_of(dir),
        files::base_name_of(dir.push('/') + "."@) == files::base_name_of(dir),
{
    reveal_strlit(".");
    reveal_strlit("..");
    letters::law_pieces(name, name, '/');
    letters::law_pieces(dir, name, '/');
    letters::law_pieces(dir, "."@, '/');
    letters::law_pieces(dir, ".."@, '/');
    letters::law_pieces(dir, Seq::empty(), '/');
    letters::law_pieces("."@, name, '/');
    letters::law_pieces(".."@, name, '/');
    letters::law_pieces(Seq::empty(), name, '/');
    let p = text::pieces(dir, '/');
    assert(dir.push('/') + Seq::<char>::empty() =~= dir.push('/'));
    assert((p + seq![name]).last() == name);
    assert((p + seq![".."@]).last() == ".."@);
    assert((p + seq!["."@]).drop_last() =~= p);
    assert((p + seq!["."@]).last() == "."@);
    assert((p + seq![Seq::<char>::empty()]).drop_last() =~= p);
    assert((p + seq![Seq::<char>::empty()]).last() == Seq::<char>::empty());
    assert(".."@ != "."@) by {
        assert(".."@.len() != "."@.len());
    }
}

/// A path may stand in quotes and among blanks, which do not belong to it.
pub proof fn law_path_in_quotes(a: Seq<char>, path: Seq<char>, b: Seq<char>)
    requires
        forall|i: int| 0 <= i < a.len() ==> text::is_space(#[trigger] a[i]),
        forall|i: int| 0 <= i < b.len() ==> text::is_space(#[trigger] b[i]),
        path.len() > 0,
        path[0] != '"' && path.last() != '"',
    ensures
        files::path_in(a + (seq!['"'] + path + seq!['"']) + b) == path,
        !text::is_space(path[0]) && !text::is_space(path.last()) ==> files::path_in(a + path + b)
            == path,
{
    let q = seq!['"'] + path + seq!['"'];
    assert(q[0] == '"' && q.last() == '"');
    letters::law_trimmed(a, q, b);
    letters::law_stripped(seq!['"'], path, seq!['"'], '"', '"');
    let none = Seq::<char>::empty();
    if !text::is_space(path[0]) && !text::is_space(path.last()) {
        letters::law_trimmed(a, path, b);
        assert(none + path + none =~= path);
        letters::law_stripped(none, path, none, '"', '"');
    }
}

/// An offer holds a number, a size and a name with bars between them, and a chunk holds a number and
/// what stands behind its bar; nothing else is read as one.
pub proof fn law_offers_and_chunks_are_read(payload: Seq<char>)
    ensures
        files::offer_of(payload) matches Some((id, size, name)) ==> exists|i: int, j: int|
            {
                &&& 0 <= i < j < payload.len()
                &&& payload[i] == '|' && payload[j] == '|'
                &&& text::number(#[trigger] payload.take(i), 0xffff_ffff) == Some(id as nat)
                &&& text::number(
                    #[trigger] payload.subrange(i + 1, j),
                    0xffff_ffff_ffff_ffff,
                ) == Some(size as nat)
                &&& name == payload.skip(j + 1)
            },
        files::chunk_of(payload) matches Some((id, hex)) ==> exists|i: int|
            {
                &&& 0 <= i < payload.len()
                &&& payload[i] == '|'
                &&& text::number(#[trigger] payload.take(i), 0xffff_ffff) == Some(id as nat)
                &&& hex == payload.skip(i + 1)
            },
{
    if let Some(i) = text::first_of(payload, '|') {
        assert(text::is_first(payload, '|', i));
        let a = payload.take(i);
        let rest = payload.skip(i + 1);
        letters::law_number_reads_digits(a, '0', 0, 0xffff_ffff);
        assert(text::number(a, 0xffff_ffff) matches Some(n) ==> n as u32 as nat == n);
        if let Some(k) = text::first_of(rest, '|') {
            assert(text::is_first(rest, '|', k));
            let j = i + 1 + k;
            assert(payload[j] == '|');
            assert(payload.subrange(i + 1, j) =~= rest.take(k));
            assert(payload.skip(j + 1) =~= rest.skip(k + 1));
            letters::law_number_reads_digits(rest.take(k), '0', 0, 0xffff_ffff_ffff_ffff);
            assert(text::number(rest.take(k), 0xffff_ffff_ffff_ffff) matches Some(n) ==> n as u64
                as nat == n);
        }
    }
}

/// A chunk whose digits cannot be read is passed over.
pub proof fn law_bad_digits(v: AppView, key: u64, id: u32, hex: Seq<char>, now: u64)
    requires
        !util::is_hex(encode_utf8(hex)),
    ensures
        ({
            let (w, action) = files::after_file_frame(
                v,
                key,
                5,
                text::dec(id as nat).push('|') + hex,
                now,
            );
            action == FileActionView::Nothing && w.rx == v.rx && w.history == v.history
        }),
{
    let d = text::dec(id as nat);
    text::law_number_of_dec(id as nat, u32::MAX as nat);
    assert forall|i: int| 0 <= i < d.len() implies d[i] != '|' by {
        assert(text::is_dec_digit(d[i]));
    }
    letters::law_cut_at_the_first(d, hex, '|');
}

}
