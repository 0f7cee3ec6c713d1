//! File transfer: offers, acceptance, chunks and their bookkeeping.
use vstd::array::array_as_slice;
use vstd::prelude::*;
use vstd::slice::slice_subrange;
use vstd::string::*;
use vstd::utf8::*;

use crate::app;
use crate::app::{AppState, AppView, InfoView, NetLevel, OutView, PeerView, RxFile, RxView, TxFile, TxView};
use crate::constants::{
    CHAT_TYPE_FILE_ACCEPT, CHAT_TYPE_FILE_CHUNK, CHAT_TYPE_FILE_DONE, CHAT_TYPE_FILE_META,
    FILE_CHUNK_BYTES, MAX_NICK_LEN, MAX_RX_FILES,
};
use crate::protocol;
use crate::text;
use crate::util;

verus! {

/// What has to be done with files on disk after a frame.
pub enum FileAction {
    /// Nothing.
    Nothing,
    /// Write these bytes to the open file of this token.
    Write { token: u64, data: Vec<u8> },
    /// Close the open file of this token.
    Close { token: u64 },
    /// Read this file and send it.
    Send { file: TxFile },
}

/// What has to be done with files on disk, in plain values.
#[verifier::ext_equal]
pub enum FileActionView {
    Nothing,
    Write { token: u64, data: Seq<u8> },
    Close { token: u64 },
    Send { file: TxView },
}

impl View for FileAction {
    type V = FileActionView;

    open spec fn view(&self) -> FileActionView {
        match *self {
            FileAction::Nothing => FileActionView::Nothing,
            FileAction::Write { token, data } => FileActionView::Write { token, data: data@ },
            FileAction::Close { token } => FileActionView::Close { token },
            FileAction::Send { file } => FileActionView::Send { file: file@ },
        }
    }
}

/// The number of a file that a whole payload stands for.
pub open spec fn file_id(s: Seq<char>) -> Option<u32> {
    match text::number(s, u32::MAX as nat) {
        Some(n) => Some(n as u32),
        None => None,
    }
}

pub(crate) fn parse_file_id(s: &[char]) -> (r: Option<u32>)
    ensures
        r == file_id(s@),
{
    match text::parse_number(s, u32::MAX as u64) {
        Some(n) => Some(n as u32),
        None => None,
    }
}

/// The id, the size and the name that an offer holds between bars.
pub open spec fn offer_of(payload: Seq<char>) -> Option<(u32, u64, Seq<char>)> {
    match text::cut(payload, '|') {
        Some((id, rest)) => match text::cut(rest, '|') {
            Some((size, name)) => match (file_id(id), text::number(size, u64::MAX as nat)) {
                (Some(i), Some(n)) => Some((i, n as u64, name)),
                _ => None,
            },
            None => None,
        },
        None => None,
    }
}

/// The payload of an offer.
pub open spec fn offer_text(id: u32, size: u64, name: Seq<char>) -> Seq<char> {
    text::dec(id as nat) + "|"@ + text::dec(size as nat) + "|"@ + name
}

/// Reads the id, the size and the name of an offer.
pub fn parse_offer(payload: &str) -> (r: Option<(u32, u64, String)>)
    ensures
        r is Some <==> offer_of(payload@) is Some,
        r matches Some(o) ==> offer_of(payload@) == Some((o.0, o.1, o.2@)),
{
    let chars = text::chars_of(payload);
    let (id, rest) = match text::split_once(chars.as_slice(), '|') {
        Some(p) => p,
        None => {
            return None;
        },
    };
    let (size, name) = match text::split_once(rest, '|') {
        Some(p) => p,
        None => {
            return None;
        },
    };
    let id: u32 = match parse_file_id(id) {
        Some(id) => id,
        None => {
            return None;
        },
    };
    let size: u64 = match text::parse_number(size, u64::MAX) {
        Some(size) => size,
        None => {
            return None;
        },
    };
    Some((id, size, text::string_of(name)))
}

/// Where a file from this peer is stored on a system with this separator.
pub open spec fn stored_path(separator: char, info: InfoView, id: u32, name: Seq<char>) -> Seq<
    char,
> {
    "speer_received"@.push(separator) + stored_leaf(info, id, name)
}

/// The file name under which a file from this peer is stored.
pub open spec fn stored_leaf(info: InfoView, id: u32, name: Seq<char>) -> Seq<char> {
    util::safe_name(info.display()) + "_"@ + text::dec(id as nat) + "_"@ + name
}

/// The state after an offer from the peer of this key.
pub open spec fn after_offer(v: AppView, key: u64, payload: Seq<char>, now: u64) -> AppView {
    match offer_of(payload) {
        None => v.logged(NetLevel::Warn, "bad file metadata"@, now),
        Some((id, size, name)) => if v.rx.len() >= MAX_RX_FILES {
            v.failed("too many incoming files"@, now)
        } else {
            let clean = util::safe_name(name);
            let info = v.peer(key).info;
            let f = RxView {
                id,
                expected: size,
                received: 0,
                sender: info.remote_pid_full,
                name: clean,
                path: stored_path(v.separator, info, id, clean),
                file: None,
            };
            AppView { rx: v.rx.push(f), ..v }.told(
                "incoming file "@ + clean + " ("@ + text::dec(size as nat)
                    + " bytes). type /accept "@ + text::dec(id as nat) + " to receive"@,
                now,
            ).logged(
                NetLevel::Warn,
                "file pending "@ + clean + " id "@ + text::dec(id as nat),
                now,
            )
        },
    }
}

/// Takes an offer from a peer.
pub fn receive_file_meta(app: &mut AppState, key: u64, payload: &str, now: u64)
    requires
        old(app)@.has_peer(key),
    ensures
        final(app)@ == after_offer(old(app)@, key, payload@, now),
        old(app)@.sound() ==> final(app)@.sound(),
{
    proof {
        if app@.sound() {
            law_file_frames_keep_sound(app@, key, CHAT_TYPE_FILE_META, payload@, now);
        }
    }
    let (id, size, name) = match parse_offer(payload) {
        Some(o) => o,
        None => {
            app.netlog(NetLevel::Warn, "bad file metadata", now);
            return;
        },
    };
    if !app.can_receive_file() {
        app.emit_error("too many incoming files", now);
        return;
    }
    let i: usize = match app.peer_pos(key) {
        Some(i) => i,
        None => {
            return;
        },
    };
    let clean = util::sanitize_file_name(name.as_str());
    let sender = app.peers[i].info.remote_pid_full.clone();
    let shown = app.peers[i].info.display();
    let shown = util::sanitize_file_name(shown.as_str());
    let id_text = text::dec_string(id as u64);
    let size_text = text::dec_string(size);
    let leaf = text::cat5(shown.as_str(), "_", id_text.as_str(), "_", clean.as_str());
    let mut path = "speer_received".to_owned();
    path.push(app.separator);
    path.append(leaf.as_str());
    let f = RxFile {
        id,
        expected: size,
        received: 0,
        sender,
        name: clean.clone(),
        path,
        file: None,
    };
    let ghost before = app@;
    proof {
        assert(app.peers@[i as int]@ == before.peer(key));
    }
    app.files.rx.push(f);
    proof {
        assert(app@.rx =~= before.rx.push(f@));
        assert(app@ =~= AppView { rx: before.rx.push(f@), ..before });
    }
    let mut line = text::cat6(
        "incoming file ",
        clean.as_str(),
        " (",
        size_text.as_str(),
        " bytes). type /accept ",
        id_text.as_str(),
    );
    line.append(" to receive");
    app.emit_system(line.as_str(), now);
    let entry = text::cat4("file pending ", clean.as_str(), " id ", id_text.as_str());
    app.netlog(NetLevel::Warn, entry.as_str(), now);
}

/// `i` is the place of the first offered file of this number and sender.
pub open spec fn rx_at(v: AppView, id: u32, sender: Seq<char>, i: int) -> bool {
    &&& 0 <= i < v.rx.len()
    &&& v.rx[i].id == id && v.rx[i].sender == sender
    &&& forall|j: int|
        0 <= j < i ==> !((#[trigger] v.rx[j]).id == id && v.rx[j].sender == sender)
}

/// The place of the first offered file of this number and sender.
pub open spec fn rx_place(v: AppView, id: u32, sender: Seq<char>) -> Option<int> {
    if exists|i: int| rx_at(v, id, sender, i) {
        Some(choose|i: int| rx_at(v, id, sender, i))
    } else {
        None
    }
}

proof fn lemma_rx_place(v: AppView, id: u32, sender: Seq<char>, i: int)
    requires
        rx_at(v, id, sender, i),
    ensures
        rx_place(v, id, sender) == Some(i),
{
    let k = choose|k: int| rx_at(v, id, sender, k);
    assert(rx_at(v, id, sender, k));
    if k < i {
        assert(!(v.rx[k].id == id && v.rx[k].sender == sender));
    } else if i < k {
        assert(!(v.rx[i].id == id && v.rx[i].sender == sender));
    }
}

fn find_rx(app: &AppState, id: u32, sender: &String) -> (r: Option<usize>)
    ensures
        r is Some <==> rx_place(app@, id, sender@) is Some,
        r matches Some(i) ==> rx_place(app@, id, sender@) == Some(i as int) && i
            < app.files.rx@.len(),
{
    let n: usize = app.files.rx.len();
    let mut i: usize = 0;
    while i < n
        invariant
            i <= n,
            n == app.files.rx@.len(),
            forall|j: int|
                0 <= j < i ==> !((#[trigger] app@.rx[j]).id == id && app@.rx[j].sender == sender@),
        decreases n - i,
    {
        proof {
            assert(app@.rx[i as int] == app.files.rx@[i as int]@);
        }
        if app.files.rx[i].id == id && app.files.rx[i].sender == *sender {
            proof {
                lemma_rx_place(app@, id, sender@, i as int);
            }
            return Some(i);
        }
        i += 1;
    }
    None
}

/// The number and the bytes that a chunk holds around a bar.
pub open spec fn chunk_of(payload: Seq<char>) -> Option<(u32, Seq<char>)> {
    match text::cut(payload, '|') {
        Some((id, hex)) => match file_id(id) {
            Some(i) => Some((i, hex)),
            None => None,
        },
        None => None,
    }
}

/// The payload of a chunk.
pub open spec fn chunk_text(id: u32, data: Seq<u8>) -> Seq<char> {
    text::dec(id as nat) + "|"@ + util::hex_text(data)
}

/// The state after a chunk from the peer of this key, and the bytes to write.
pub open spec fn after_chunk(v: AppView, key: u64, payload: Seq<char>, now: u64) -> (
    AppView,
    FileActionView,
) {
    match chunk_of(payload) {
        None => (v.logged(NetLevel::Warn, "bad file chunk"@, now), FileActionView::Nothing),
        Some((id, hex)) => if !util::is_hex(encode_utf8(hex)) {
            (v.logged(NetLevel::Warn, "bad file chunk hex"@, now), FileActionView::Nothing)
        } else {
            match rx_place(v, id, v.peer(key).info.remote_pid_full) {
                None => (
                    v.logged(
                        NetLevel::Warn,
                        "chunk for unknown file "@ + text::dec(id as nat),
                        now,
                    ),
                    FileActionView::Nothing,
                ),
                Some(i) => match v.rx[i].file {
                    None => (
                        v.logged(
                            NetLevel::Warn,
                            "ignored unaccepted chunk "@ + v.rx[i].name,
                            now,
                        ),
                        FileActionView::Nothing,
                    ),
                    Some(token) => (
                        v,
                        FileActionView::Write { token, data: util::hex_bytes(encode_utf8(hex)) },
                    ),
                },
            }
        },
    }
}

/// Takes a chunk from a peer: the bytes of it that belong into an open file are handed back.
pub fn receive_file_chunk(app: &mut AppState, key: u64, payload: &str, now: u64) -> (r: FileAction)
    requires
        old(app)@.has_peer(key),
    ensures
        (final(app)@, r@) == after_chunk(old(app)@, key, payload@, now),
        old(app)@.sound() ==> final(app)@.sound(),
{
    proof {
        if app@.sound() {
            law_file_frames_keep_sound(app@, key, CHAT_TYPE_FILE_CHUNK, payload@, now);
        }
    }
    let chars = text::chars_of(payload);
    let (id_part, hex_part) = match text::split_once(chars.as_slice(), '|') {
        Some(p) => p,
        None => {
            app.netlog(NetLevel::Warn, "bad file chunk", now);
            return FileAction::Nothing;
        },
    };
    let id: u32 = match parse_file_id(id_part) {
        Some(id) => id,
        None => {
            app.netlog(NetLevel::Warn, "bad file chunk", now);
            return FileAction::Nothing;
        },
    };
    let hex = text::string_of(hex_part);
    let data = match util::hex_decode(hex.as_str()) {
        Ok(data) => data,
        Err(_) => {
            app.netlog(NetLevel::Warn, "bad file chunk hex", now);
            return FileAction::Nothing;
        },
    };
    let at: usize = match app.peer_pos(key) {
        Some(at) => at,
        None => {
            return FileAction::Nothing;
        },
    };
    let sender = app.peers[at].info.remote_pid_full.clone();
    proof {
        assert(app.peers@[at as int]@ == app@.peer(key));
    }
    match find_rx(app, id, &sender) {
        None => {
            let id_text = text::dec_string(id as u64);
            let entry = text::cat2("chunk for unknown file ", id_text.as_str());
            app.netlog(NetLevel::Warn, entry.as_str(), now);
            FileAction::Nothing
        },
        Some(i) => {
            proof {
                assert(app@.rx[i as int] == app.files.rx@[i as int]@);
            }
            match app.files.rx[i].file {
                None => {
                    let entry = text::cat2(
                        "ignored unaccepted chunk ",
                        app.files.rx[i].name.as_str(),
                    );
                    app.netlog(NetLevel::Warn, entry.as_str(), now);
                    FileAction::Nothing
                },
                Some(token) => FileAction::Write { token, data },
            }
        },
    }
}

/// `i` is the place of the first offered file that is written under this token.
pub open spec fn token_at(v: AppView, token: u64, i: int) -> bool {
    &&& 0 <= i < v.rx.len()
    &&& v.rx[i].file == Some(token)
    &&& forall|j: int| 0 <= j < i ==> (#[trigger] v.rx[j]).file != Some(token)
}

/// The place of the offered file that is written under this token.
pub open spec fn token_place(v: AppView, token: u64) -> Option<int> {
    if exists|i: int| token_at(v, token, i) {
        Some(choose|i: int| token_at(v, token, i))
    } else {
        None
    }
}

proof fn lemma_token_place(v: AppView, token: u64, i: int)
    requires
        token_at(v, token, i),
    ensures
        token_place(v, token) == Some(i),
{
    let k = choose|k: int| token_at(v, token, k);
    assert(token_at(v, token, k));
    if k < i {
        assert(v.rx[k].file != Some(token));
    } else if i < k {
        assert(v.rx[i].file != Some(token));
    }
}

/// The state after `n` bytes were written under this token.
pub open spec fn after_write(v: AppView, token: u64, n: u64, now: u64) -> AppView {
    match token_place(v, token) {
        None => v,
        Some(i) => {
            let f = RxView { received: v.rx[i].received.wrapping_add(n), ..v.rx[i] };
            AppView { rx: v.rx.update(i, f), ..v }.logged(
                NetLevel::Traffic,
                "file rx "@ + f.name + " "@ + text::dec(f.received as nat) + "/"@ + text::dec(
                    f.expected as nat,
                ) + "B"@,
                now,
            )
        },
    }
}

/// Counts bytes that were written to the open file of this token.
pub fn chunk_written(app: &mut AppState, token: u64, n: u64, now: u64)
    ensures
        final(app)@ == after_write(old(app)@, token, n, now),
        old(app)@.sound() ==> final(app)@.sound(),
{
    proof {
        if app@.sound() {
            law_write_keeps_sound(app@, token, n, now);
        }
    }
    let len: usize = app.files.rx.len();
    let ghost before = app@;
    let mut i: usize = 0;
    while i < len
        invariant
            i <= len,
            len == app.files.rx@.len(),
            app@ == before,
            before == old(app)@,
            forall|j: int| 0 <= j < i ==> (#[trigger] before.rx[j]).file != Some(token),
        decreases len - i,
    {
        proof {
            assert(before.rx[i as int] == app.files.rx@[i as int]@);
        }
        let here = match app.files.rx[i].file {
            Some(t) => t == token,
            None => false,
        };
        if here {
            proof {
                lemma_token_place(before, token, i as int);
            }
            let received: u64 = app.files.rx[i].received.wrapping_add(n);
            app.files.rx[i].received = received;
            proof {
                let f = RxView { received, ..before.rx[i as int] };
                assert(app.files.rx@[i as int]@ == f);
                assert(app@.rx =~= before.rx.update(i as int, f));
                assert(app@ =~= AppView { rx: before.rx.update(i as int, f), ..before });
            }
            let received_text = text::dec_string(received);
            let expected_text = text::dec_string(app.files.rx[i].expected);
            let mut entry = text::cat6(
                "file rx ",
                app.files.rx[i].name.as_str(),
                " ",
                received_text.as_str(),
                "/",
                expected_text.as_str(),
            );
            entry.append("B");
            app.netlog(NetLevel::Traffic, entry.as_str(), now);
            return;
        }
        i += 1;
    }
}

/// The notice that a file has come to its end.
pub open spec fn done_text(f: RxView) -> Seq<char> {
    "received file "@ + f.name + " -> "@ + f.path + " ("@ + text::dec(f.received as nat) + "/"@
        + text::dec(f.expected as nat) + " bytes)"@ + (if f.received == f.expected {
        ""@
    } else {
        " incomplete"@
    })
}

/// The state after the end of a file from the peer of this key, and the file to close.
pub open spec fn after_done(v: AppView, key: u64, payload: Seq<char>, now: u64) -> (
    AppView,
    FileActionView,
) {
    match file_id(payload) {
        None => (v, FileActionView::Nothing),
        Some(id) => match rx_place(v, id, v.peer(key).info.remote_pid_full) {
            None => (v, FileActionView::Nothing),
            Some(i) => {
                let f = v.rx[i];
                (
                    AppView { rx: v.rx.remove(i), ..v }.told(done_text(f), now).logged(
                        if f.received == f.expected {
                            NetLevel::Okay
                        } else {
                            NetLevel::Warn
                        },
                        "file saved "@ + f.name,
                        now,
                    ),
                    match f.file {
                        Some(token) => FileActionView::Close { token },
                        None => FileActionView::Nothing,
                    },
                )
            },
        },
    }
}

/// Takes the end of a file: it leaves the list, and the user is told whether all of it came.
pub fn receive_file_done(app: &mut AppState, key: u64, payload: &str, now: u64) -> (r: FileAction)
    requires
        old(app)@.has_peer(key),
    ensures
        (final(app)@, r@) == after_done(old(app)@, key, payload@, now),
        old(app)@.sound() ==> final(app)@.sound(),
{
    proof {
        if app@.sound() {
            law_file_frames_keep_sound(app@, key, CHAT_TYPE_FILE_DONE, payload@, now);
        }
    }
    let chars = text::chars_of(payload);
    let id: u32 = match parse_file_id(chars.as_slice()) {
        Some(id) => id,
        None => {
            return FileAction::Nothing;
        },
    };
    let at: usize = match app.peer_pos(key) {
        Some(at) => at,
        None => {
            return FileAction::Nothing;
        },
    };
    let sender = app.peers[at].info.remote_pid_full.clone();
    let ghost before = app@;
    proof {
        assert(app.peers@[at as int]@ == app@.peer(key));
    }
    let i: usize = match find_rx(app, id, &sender) {
        Some(i) => i,
        None => {
            return FileAction::Nothing;
        },
    };
    let f = app.files.rx.remove(i);
    proof {
        assert(before.rx[i as int] == f@);
        assert(app@.rx =~= before.rx.remove(i as int));
        assert(app@ =~= AppView { rx: before.rx.remove(i as int), ..before });
    }
    let complete = f.received == f.expected;
    let received_text = text::dec_string(f.received);
    let expected_text = text::dec_string(f.expected);
    let mut line = text::cat6(
        "received file ",
        f.name.as_str(),
        " -> ",
        f.path.as_str(),
        " (",
        received_text.as_str(),
    );
    line.append("/");
    line.append(expected_text.as_str());
    line.append(" bytes)");
    line.append(
        if complete {
            ""
        } else {
            " incomplete"
        },
    );
    app.emit_system(line.as_str(), now);
    let entry = text::cat2("file saved ", f.name.as_str());
    app.netlog(
        if complete {
            NetLevel::Okay
        } else {
            NetLevel::Warn
        },
        entry.as_str(),
        now,
    );
    match f.file {
        Some(token) => FileAction::Close { token },
        None => FileAction::Nothing,
    }
}

/// `i` is the place of the first offer of this number.
pub open spec fn tx_at(v: AppView, id: u32, i: int) -> bool {
    &&& 0 <= i < v.tx.len()
    &&& v.tx[i].id == id
    &&& forall|j: int| 0 <= j < i ==> (#[trigger] v.tx[j]).id != id
}

/// The first offer of this number.
pub open spec fn offered(v: AppView, id: u32) -> Option<TxView> {
    if exists|i: int| tx_at(v, id, i) {
        Some(v.tx[choose|i: int| tx_at(v, id, i)])
    } else {
        None
    }
}

proof fn lemma_tx_place(v: AppView, id: u32, i: int)
    requires
        tx_at(v, id, i),
    ensures
        offered(v, id) == Some(v.tx[i]),
{
    let k = choose|k: int| tx_at(v, id, k);
    assert(tx_at(v, id, k));
    if k < i {
        assert(v.tx[k].id != id);
    } else if i < k {
        assert(v.tx[i].id != id);
    }
}

/// The state after a peer asked for a file, and the file to send.
pub open spec fn after_request(v: AppView, id: u32, now: u64) -> (AppView, FileActionView) {
    match offered(v, id) {
        Some(f) => (v, FileActionView::Send { file: f }),
        None => (
            v.logged(NetLevel::Warn, "accept for unknown file "@ + text::dec(id as nat), now),
            FileActionView::Nothing,
        ),
    }
}

/// Finds the file that a peer asked for.
pub fn send_file_to_peer(app: &mut AppState, file_id: u32, now: u64) -> (r: FileAction)
    ensures
        (final(app)@, r@) == after_request(old(app)@, file_id, now),
        old(app)@.sound() ==> final(app)@.sound(),
{
    proof {
        if app@.sound() {
            app::law_log_keeps_sound(
                app@,
                NetLevel::Warn,
                "accept for unknown file "@ + text::dec(file_id as nat),
                now,
            );
        }
    }
    let n: usize = app.files.tx.len();
    let mut i: usize = 0;
    while i < n
        invariant
            i <= n,
            n == app.files.tx@.len(),
            app@ == old(app)@,
            forall|j: int| 0 <= j < i ==> (#[trigger] app@.tx[j]).id != file_id,
        decreases n - i,
    {
        proof {
            assert(app@.tx[i as int] == app.files.tx@[i as int]@);
        }
        if app.files.tx[i].id == file_id {
            proof {
                lemma_tx_place(app@, file_id, i as int);
            }
            return FileAction::Send { file: app.files.tx[i].clone() };
        }
        i += 1;
    }
    let id_text = text::dec_string(file_id as u64);
    let entry = text::cat2("accept for unknown file ", id_text.as_str());
    app.netlog(NetLevel::Warn, entry.as_str(), now);
    FileAction::Nothing
}

/// Tells the user that a file to send could not be opened again.
pub fn send_file_unopened(app: &mut AppState, file: &TxFile, now: u64)
    ensures
        final(app)@ == old(app)@.failed("could not reopen "@ + file@.name, now),
        old(app)@.sound() ==> final(app)@.sound(),
{
    proof {
        if app@.sound() {
            app::law_notices_keep_sound(app@, "could not reopen "@ + file@.name, ""@, now);
        }
    }
    let line = text::cat2("could not reopen ", file.name.as_str());
    app.emit_error(line.as_str(), now);
}

/// The state after a chunk was queued for the peer of this key; `sent` counts the bytes so far,
/// those of the chunk with them.
pub open spec fn after_sending(
    v: AppView,
    key: u64,
    file: TxView,
    sent: u64,
    chunk: Seq<u8>,
    now: u64,
) -> AppView {
    v.with_peer(
        key,
        v.peer(key).queued(CHAT_TYPE_FILE_CHUNK, chunk_text(file.id, chunk)),
    ).logged(
        NetLevel::Traffic,
        "file tx "@ + file.name + " "@ + text::dec(sent as nat) + "/"@ + text::dec(file.size as nat)
            + "B"@,
        now,
    )
}

/// Queues a chunk of a file for a peer and returns how many bytes of the file were queued so far.
fn send_file_chunk(
    app: &mut AppState,
    key: u64,
    file: &TxFile,
    sent: u64,
    chunk: &[u8],
    now: u64,
) -> (r: u64)
    requires
        old(app)@.has_peer(key),
    ensures
        r == sent.wrapping_add(chunk@.len() as u64),
        final(app)@ == after_sending(old(app)@, key, file@, r, chunk@, now),
{
    let total: u64 = sent.wrapping_add(chunk.len() as u64);
    let id_text = text::dec_string(file.id as u64);
    let hex = util::hex_encode(chunk);
    let payload = text::cat3(id_text.as_str(), "|", hex.as_str());
    let ghost before = app@;
    if let Some(i) = app.peer_pos(key) {
        proof {
            assert(app.peers@[i as int]@ == before.peer(key));
        }
        app.peers[i].enqueue(CHAT_TYPE_FILE_CHUNK, payload);
        proof {
            let p = before.peer(key).queued(CHAT_TYPE_FILE_CHUNK, payload@);
            assert(app@.peers =~= before.peers.update(i as int, p));
            assert(app@ =~= before.with_peer(key, p));
        }
    }
    let total_text = text::dec_string(total);
    let size_text = text::dec_string(file.size);
    let mut entry = text::cat6(
        "file tx ",
        file.name.as_str(),
        " ",
        total_text.as_str(),
        "/",
        size_text.as_str(),
    );
    entry.append("B");
    app.netlog(NetLevel::Traffic, entry.as_str(), now);
    total
}

/// The state after the end of a file was queued for the peer of this key.
pub open spec fn after_sent(v: AppView, key: u64, file: TxView, now: u64) -> AppView {
    v.with_peer(
        key,
        v.peer(key).queued(CHAT_TYPE_FILE_DONE, text::dec(file.id as nat)),
    ).logged(NetLevel::Okay, "file tx done "@ + file.name, now)
}

/// Queues the end of a file for a peer.
fn send_file_done(app: &mut AppState, key: u64, file: &TxFile, now: u64)
    requires
        old(app)@.has_peer(key),
    ensures
        final(app)@ == after_sent(old(app)@, key, file@, now),
{
    let ghost before = app@;
    let id_text = text::dec_string(file.id as u64);
    if let Some(i) = app.peer_pos(key) {
        proof {
            assert(app.peers@[i as int]@ == before.peer(key));
        }
        app.peers[i].enqueue(CHAT_TYPE_FILE_DONE, id_text);
        proof {
            let p = before.peer(key).queued(CHAT_TYPE_FILE_DONE, text::dec(file.id as nat));
            assert(app@.peers =~= before.peers.update(i as int, p));
            assert(app@ =~= before.with_peer(key, p));
        }
    }
    let entry = text::cat2("file tx done ", file.name.as_str());
    app.netlog(NetLevel::Okay, entry.as_str(), now);
}

/// The state after one more read of the file for the peer of this key, and how many bytes were
/// queued so far. A read that failed or gave nothing is the end of the file.
pub open spec fn after_read(
    v: AppView,
    key: u64,
    file: TxView,
    sent: u64,
    read: Option<Seq<u8>>,
    now: u64,
) -> (AppView, Option<u64>) {
    match read {
        Some(chunk) => if chunk.len() > 0 {
            let total = sent.wrapping_add(chunk.len() as u64);
            (after_sending(v, key, file, total, chunk, now), Some(total))
        } else {
            (after_sent(v, key, file, now), None)
        },
        None => (after_sent(v, key, file, now), None),
    }
}

/// The bytes that a read gave: those that it put at the start of the buffer.
pub open spec fn got(buf: Seq<u8>, read: Option<usize>) -> Option<Seq<u8>> {
    match read {
        Some(n) => Some(buf.take(n as int)),
        None => None,
    }
}

/// Takes one more read of the file for a peer: queues the chunk and hands back how many bytes were
/// queued so far, or queues the end of the file. `read` is how many bytes were read into `buf`, none
/// where reading failed.
pub fn send_file_step(
    app: &mut AppState,
    key: u64,
    file: &TxFile,
    sent: u64,
    buf: &[u8; FILE_CHUNK_BYTES],
    read: Option<usize>,
    now: u64,
) -> (r: Option<u64>)
    requires
        old(app)@.has_peer(key),
        read matches Some(n) ==> n <= FILE_CHUNK_BYTES,
    ensures
        (final(app)@, r) == after_read(old(app)@, key, file@, sent, got(buf@, read), now),
        r is Some ==> 1 <= (got(buf@, read)->0).len() <= FILE_CHUNK_BYTES,
        old(app)@.sound() ==> final(app)@.sound(),
        old(app)@.sound() ==> final(app)@.has_peer(key),
{
    proof {
        if app@.sound() {
            law_read_keeps_sound(app@, key, file@, sent, got(buf@, read), now);
        }
    }
    if let Some(n) = read {
        if n > 0 {
            let chunk = slice_subrange(array_as_slice(buf), 0, n);
            proof {
                assert(chunk@ =~= buf@.take(n as int));
            }
            return Some(send_file_chunk(app, key, file, sent, chunk, now));
        }
    }
    send_file_done(app, key, file, now);
    None
}

/// The state after a file frame from the peer of this key, and what to do with files on disk.
pub open spec fn after_file_frame(
    v: AppView,
    key: u64,
    kind: u32,
    payload: Seq<char>,
    now: u64,
) -> (AppView, FileActionView) {
    if kind == CHAT_TYPE_FILE_META {
        (after_offer(v, key, payload, now), FileActionView::Nothing)
    } else if kind == CHAT_TYPE_FILE_CHUNK {
        after_chunk(v, key, payload, now)
    } else if kind == CHAT_TYPE_FILE_DONE {
        after_done(v, key, payload, now)
    } else if kind == CHAT_TYPE_FILE_ACCEPT {
        match file_id(payload) {
            Some(id) => after_request(
                v.logged(NetLevel::Okay, "file accepted by peer"@, now),
                id,
                now,
            ),
            None => (v, FileActionView::Nothing),
        }
    } else {
        (v, FileActionView::Nothing)
    }
}

/// Takes a frame that carries part of a file transfer.
pub fn handle_file_frame(app: &mut AppState, key: u64, kind: u32, payload: &str, now: u64) -> (r:
    FileAction)
    requires
        old(app)@.has_peer(key),
    ensures
        (final(app)@, r@) == after_file_frame(old(app)@, key, kind, payload@, now),
        old(app)@.sound() ==> final(app)@.sound(),
        old(app)@.sound() ==> final(app)@.has_peer(key),
{
    proof {
        if app@.sound() {
            law_file_frames_keep_sound(app@, key, kind, payload@, now);
        }
    }
    if kind == CHAT_TYPE_FILE_META {
        receive_file_meta(app, key, payload, now);
        FileAction::Nothing
    } else if kind == CHAT_TYPE_FILE_CHUNK {
        receive_file_chunk(app, key, payload, now)
    } else if kind == CHAT_TYPE_FILE_DONE {
        receive_file_done(app, key, payload, now)
    } else if kind == CHAT_TYPE_FILE_ACCEPT {
        let chars = text::chars_of(payload);
        match parse_file_id(chars.as_slice()) {
            Some(id) => {
                app.netlog(NetLevel::Okay, "file accepted by peer", now);
                send_file_to_peer(app, id, now)
            },
            None => FileAction::Nothing,
        }
    } else {
        FileAction::Nothing
    }
}

/// The path in the argument of the send command: without white space and then without quotes at
/// either end.
pub open spec fn path_in(arg: Seq<char>) -> Seq<char> {
    text::stripped(text::trimmed(arg), '"', '"')
}

/// The state after the send command, and the path to look at.
pub open spec fn after_send_command(v: AppView, arg: Seq<char>, now: u64) -> (
    AppView,
    Option<Seq<char>>,
) {
    let path = path_in(arg);
    if path.len() == 0 {
        (v.failed("usage: /send <path>"@, now), None)
    } else if app::online(v.peers).len() == 0 {
        (v.failed("no connected peers for file transfer"@, now), None)
    } else {
        (v, Some(path))
    }
}

/// Starts the send command: hands back the path of the file to look at.
pub fn cmd_send_file(app: &mut AppState, arg: &str, now: u64) -> (r: Option<String>)
    ensures
        final(app)@ == after_send_command(old(app)@, arg@, now).0,
        r is Some <==> after_send_command(old(app)@, arg@, now).1 is Some,
        r matches Some(path) ==> after_send_command(old(app)@, arg@, now).1 == Some(path@),
        old(app)@.sound() ==> final(app)@.sound(),
{
    proof {
        if app@.sound() {
            app::law_notices_keep_sound(app@, "usage: /send <path>"@, ""@, now);
            app::law_notices_keep_sound(
                app@,
                "no connected peers for file transfer"@,
                ""@,
                now,
            );
        }
    }
    let chars = text::chars_of(arg);
    let path = text::strip_both(text::trim(chars.as_slice()), '"', '"');
    if path.len() == 0 {
        app.emit_error("usage: /send <path>", now);
        return None;
    }
    let nobody = app.connected_peers().len() == 0;
    if nobody {
        app.emit_error("no connected peers for file transfer", now);
        return None;
    }
    Some(text::string_of(path))
}

/// The last part of a path between slashes that is neither empty nor a dot; none where it is two
/// dots or where there is no such part.
pub open spec fn last_part(parts: Seq<Seq<char>>) -> Option<Seq<char>>
    decreases parts.len(),
{
    if parts.len() == 0 {
        None
    } else if parts.last().len() == 0 || parts.last() == "."@ {
        last_part(parts.drop_last())
    } else if parts.last() == ".."@ {
        None
    } else {
        Some(parts.last())
    }
}

/// The file name at the end of a path with slashes.
pub open spec fn base_name_of(path: Seq<char>) -> Option<Seq<char>> {
    last_part(text::pieces(path, '/'))
}

/// The file name at the end of a path with slashes, where it has one.
pub fn base_name(path: &str) -> (r: Option<String>)
    ensures
        r is Some <==> base_name_of(path@) is Some,
        r matches Some(name) ==> base_name_of(path@) == Some(name@),
{
    let chars = text::chars_of(path);
    let parts = text::split_all(chars.as_slice(), '/');
    let ghost all = text::pieces(path@, '/');
    let dot = text::chars_of(".");
    let dots = text::chars_of("..");
    let mut n: usize = parts.len();
    proof {
        assert(all.take(n as int) =~= all);
    }
    while n > 0
        invariant
            n <= parts@.len(),
            all == text::pieces(path@, '/'),
            parts@.len() == all.len(),
            forall|i: int| 0 <= i < parts@.len() ==> (#[trigger] parts@[i])@ == all[i],
            dot@ == "."@,
            dots@ == ".."@,
            base_name_of(path@) == last_part(all.take(n as int)),
        decreases n,
    {
        let part = &parts[n - 1];
        proof {
            assert(all.take(n as int).last() == part@);
            assert(all.take(n as int).drop_last() =~= all.take(n - 1));
        }
        if part.len() == 0 || text::chars_eq(part.as_slice(), dot.as_slice()) {
            n -= 1;
        } else if text::chars_eq(part.as_slice(), dots.as_slice()) {
            return None;
        } else {
            return Some(text::string_of(part.as_slice()));
        }
    }
    None
}

/// Whether every system reads a path in the same way: it holds neither a backslash, which separates
/// parts on some, nor what could be the prefix of a drive or of a server.
pub open spec fn plain(path: Seq<char>) -> bool {
    &&& !path.contains('\\')
    &&& !path.contains(':')
    &&& !(path.len() >= 2 && path[0] == '/' && path[1] == '/')
}

/// Whether this can be the file name at the end of a path on some system: it is a part of the path,
/// and the one behind the last slash where every system reads the path in the same way.
pub open spec fn may_be_name(path: Seq<char>, name: Option<Seq<char>>) -> bool {
    &&& plain(path) ==> name == base_name_of(path)
    &&& name matches Some(n) ==> n.len() > 0 && exists|i: int|
        0 <= i && i + n.len() <= path.len() && #[trigger] path.subrange(i, i + n.len()) == n
}

/// A name that may be missing, in plain values.
pub open spec fn named(name: Option<String>) -> Option<Seq<char>> {
    match name {
        Some(n) => Some(n@),
        None => None,
    }
}

/// The file name at the end of a path as this system reads it: `std::path::Path::file_name`. The
/// claim is the one of [`may_be_name`]: a file name is the last part of the path, none where that is
/// a reference to a directory. What else separates parts, and what stands before them, depends on the
/// system.
#[verifier::external_body]
fn system_file_name(path: &str) -> (r: Option<String>)
    ensures
        may_be_name(path@, named(r)),
{
    let name = std::path::Path::new(path).file_name()?;
    Some(name.to_str()?.to_owned())
}

/// Whether this can be the file name at the end of a path on a system with this separator. Where it
/// is a slash, there is one way to read a path.
pub open spec fn is_name_on(separator: char, path: Seq<char>, name: Option<Seq<char>>) -> bool {
    if separator == '/' {
        name == base_name_of(path)
    } else {
        may_be_name(path, name)
    }
}

/// The file name at the end of a path on a system with this separator, where it has one.
pub fn file_name(separator: char, path: &str) -> (r: Option<String>)
    ensures
        is_name_on(separator, path@, named(r)),
{
    if separator == '/' {
        base_name(path)
    } else {
        system_file_name(path)
    }
}

/// The number of the next offer at this time: the running number with the lower bits of the clock
/// mixed in.
pub open spec fn offer_id(running: u32, unix_secs: u64) -> u32 {
    running ^ ((unix_secs % 0x1_0000_0000) as u32)
}

/// The state after the file at `path` was looked at: `base` is the file name at the end of the path,
/// where it has one, and `size` is the size of the file, none where there is no such file.
pub open spec fn after_look(
    v: AppView,
    path: Seq<char>,
    base: Option<Seq<char>>,
    size: Option<u64>,
    unix_secs: u64,
    now: u64,
) -> AppView {
    match size {
        None => v.failed("could not open file: "@ + path, now),
        Some(len) => {
            let id = offer_id(v.next_file_id, unix_secs);
            let name = util::safe_name(
                match base {
                    Some(n) => n,
                    None => "blob"@,
                },
            );
            AppView {
                next_file_id: v.next_file_id.wrapping_add(1),
                tx: v.tx.push(TxView { id, size: len, name, path }),
                ..v
            }.broadcasted(CHAT_TYPE_FILE_META, offer_text(id, len, name)).told(
                "offered file "@ + name + " ("@ + text::dec(len as nat)
                    + " bytes), waiting for peer acceptance"@,
                now,
            ).logged(NetLevel::Okay, "file offered "@ + name + " id "@ + text::dec(id as nat), now)
        },
    }
}

/// Offers the file at `path` to all peers, or tells the user that it cannot be opened.
pub fn offer_file(app: &mut AppState, path: String, size: Option<u64>, unix_secs: u64, now: u64)
    ensures
        old(app)@.separator == '/' || plain(path@) ==> final(app)@ == after_look(
            old(app)@,
            path@,
            base_name_of(path@),
            size,
            unix_secs,
            now,
        ),
        exists|base: Option<Seq<char>>| #[trigger]
            is_name_on(old(app)@.separator, path@, base) && final(app)@ == after_look(
                old(app)@,
                path@,
                base,
                size,
                unix_secs,
                now,
            ),
        old(app)@.sound() ==> final(app)@.sound(),
{
    let base = file_name(app.separator, path.as_str());
    proof {
        assert(is_name_on(app@.separator, path@, named(base)));
    }
    offer_named_file(app, path, base, size, unix_secs, now);
}

/// Offers the file at `path`, which has this name at its end, to all peers, or tells the user that it
/// cannot be opened.
pub fn offer_named_file(
    app: &mut AppState,
    path: String,
    base: Option<String>,
    size: Option<u64>,
    unix_secs: u64,
    now: u64,
)
    ensures
        final(app)@ == after_look(old(app)@, path@, named(base), size, unix_secs, now),
        old(app)@.sound() ==> final(app)@.sound(),
{
    proof {
        if app@.sound() {
            law_look_keeps_sound(app@, path@, named(base), size, unix_secs, now);
        }
    }
    let len: u64 = match size {
        Some(len) => len,
        None => {
            let line = text::cat2("could not open file: ", path.as_str());
            app.emit_error(line.as_str(), now);
            return;
        },
    };
    let ghost before = app@;
    let id: u32 = app.next_file_id ^ ((unix_secs % 0x1_0000_0000) as u32);
    app.next_file_id = app.next_file_id.wrapping_add(1);
    let base = match base {
        Some(n) => n,
        None => "blob".to_owned(),
    };
    let name = util::sanitize_file_name(base.as_str());
    let f = TxFile { id, size: len, name: name.clone(), path };
    app.files.tx.push(f);
    proof {
        assert(app@.tx =~= before.tx.push(f@));
        assert(app@ =~= AppView {
            next_file_id: before.next_file_id.wrapping_add(1),
            tx: before.tx.push(f@),
            ..before
        });
    }
    let id_text = text::dec_string(id as u64);
    let len_text = text::dec_string(len);
    let payload = text::cat5(id_text.as_str(), "|", len_text.as_str(), "|", name.as_str());
    app.broadcast(CHAT_TYPE_FILE_META, payload.as_str());
    let line = text::cat5(
        "offered file ",
        name.as_str(),
        " (",
        len_text.as_str(),
        " bytes), waiting for peer acceptance",
    );
    app.emit_system(line.as_str(), now);
    let entry = text::cat4("file offered ", name.as_str(), " id ", id_text.as_str());
    app.netlog(NetLevel::Okay, entry.as_str(), now);
}

/// Whether an offered file is still to be accepted and is one that is wanted.
pub open spec fn is_pending(f: RxView, wanted: Option<u32>) -> bool {
    f.file is None && (wanted matches Some(id) ==> f.id == id)
}

/// How many of the offered files are pending.
pub open spec fn pending_count(rx: Seq<RxView>, wanted: Option<u32>) -> nat
    decreases rx.len(),
{
    if rx.len() == 0 {
        0
    } else {
        pending_count(rx.drop_last(), wanted) + (if is_pending(rx.last(), wanted) {
            1nat
        } else {
            0nat
        })
    }
}

/// `i` is the place of the first pending file.
pub open spec fn first_pending(rx: Seq<RxView>, wanted: Option<u32>, i: int) -> bool {
    &&& 0 <= i < rx.len()
    &&& is_pending(rx[i], wanted)
    &&& forall|j: int| 0 <= j < i ==> !is_pending(#[trigger] rx[j], wanted)
}

/// The state after the accept command, before any file is opened: an error where the directory for
/// received files could not be made, where no file is pending or where, with no number given, more
/// than one is.
pub open spec fn after_accept_command(
    v: AppView,
    dir_error: Option<Seq<char>>,
    wanted: Option<u32>,
    now: u64,
) -> AppView {
    match dir_error {
        Some(err) => v.failed("could not create speer_received directory: "@ + err, now),
        None => if pending_count(v.rx, wanted) == 0 {
            v.failed("no pending file to accept"@, now)
        } else if wanted is None && pending_count(v.rx, wanted) > 1 {
            v.failed("multiple pending files; use /accept <id>"@, now)
        } else {
            v
        },
    }
}

/// Whether the accept command goes on to open a file.
pub open spec fn accept_goes_on(
    v: AppView,
    dir_error: Option<Seq<char>>,
    wanted: Option<u32>,
) -> bool {
    dir_error is None && pending_count(v.rx, wanted) > 0 && (wanted is Some || pending_count(v.rx, wanted) == 1)
}

/// What a failed call said, in plain values.
pub open spec fn said(err: Option<String>) -> Option<Seq<char>> {
    match err {
        Some(e) => Some(e@),
        None => None,
    }
}

/// Starts the accept command, once the directory for received files was made or could not be: hands
/// back the place of the file to accept.
pub fn cmd_accept_file(
    app: &mut AppState,
    dir_error: &Option<String>,
    wanted: Option<u32>,
    now: u64,
) -> (r: Option<usize>)
    ensures
        final(app)@ == after_accept_command(old(app)@, said(*dir_error), wanted, now),
        r is Some <==> accept_goes_on(old(app)@, said(*dir_error), wanted),
        r matches Some(i) ==> first_pending(old(app)@.rx, wanted, i as int) && i
            < final(app).files.rx@.len(),
        old(app)@.sound() ==> final(app)@.sound(),
{
    proof {
        if app@.sound() {
            if let Some(err) = said(*dir_error) {
                let line = "could not create speer_received directory: "@ + err;
                app::law_notices_keep_sound(app@, line, ""@, now);
            }
            app::law_notices_keep_sound(app@, "no pending file to accept"@, ""@, now);
            app::law_notices_keep_sound(
                app@,
                "multiple pending files; use /accept <id>"@,
                ""@,
                now,
            );
        }
    }
    if let Some(err) = dir_error {
        let line = text::cat2("could not create speer_received directory: ", err.as_str());
        app.emit_error(line.as_str(), now);
        return None;
    }
    let n: usize = app.files.rx.len();
    let mut count: usize = 0;
    let mut first: usize = 0;
    let mut i: usize = 0;
    while i < n
        invariant
            i <= n,
            n == app.files.rx@.len(),
            app@ == old(app)@,
            count <= i,
            count == pending_count(app@.rx.take(i as int), wanted),
            count == 0 ==> forall|j: int| 0 <= j < i ==> !is_pending(#[trigger] app@.rx[j], wanted),
            count > 0 ==> first_pending(app@.rx, wanted, first as int),
        decreases n - i,
    {
        proof {
            assert(app@.rx.take(i + 1).drop_last() =~= app@.rx.take(i as int));
            assert(app@.rx[i as int] == app.files.rx@[i as int]@);
        }
        let fits = match wanted {
            Some(id) => app.files.rx[i].id == id,
            None => true,
        };
        if app.files.rx[i].file.is_none() && fits {
            if count == 0 {
                first = i;
            }
            count += 1;
        }
        i += 1;
    }
    proof {
        assert(app@.rx.take(n as int) =~= app@.rx);
    }
    if count == 0 {
        app.emit_error("no pending file to accept", now);
        return None;
    }
    if wanted.is_none() && count > 1 {
        app.emit_error("multiple pending files; use /accept <id>", now);
        return None;
    }
    Some(first)
}

/// `i` is the place of the first peer that takes frames and has this id.
pub open spec fn online_at(peers: Seq<PeerView>, pid: Seq<char>, i: int) -> bool {
    &&& 0 <= i < peers.len()
    &&& peers[i].online() && peers[i].info.remote_pid_full == pid
    &&& forall|j: int|
        0 <= j < i ==> !((#[trigger] peers[j]).online() && peers[j].info.remote_pid_full == pid)
}

/// The peers after the first one that takes frames and has this id, if any, got one more frame.
pub open spec fn queued_for(
    peers: Seq<PeerView>,
    pid: Seq<char>,
    kind: u32,
    body: Seq<char>,
) -> Seq<PeerView> {
    if exists|i: int| online_at(peers, pid, i) {
        let i = choose|i: int| online_at(peers, pid, i);
        peers.update(i, peers[i].queued(kind, body))
    } else {
        peers
    }
}

fn queue_for(app: &mut AppState, pid: &String, kind: u32, body: String)
    ensures
        final(app)@ == (AppView {
            peers: queued_for(old(app)@.peers, pid@, kind, body@),
            ..old(app)@
        }),
{
    let ghost before = app@;
    let n: usize = app.peers.len();
    let mut i: usize = 0;
    while i < n
        invariant
            i <= n,
            n == app.peers@.len(),
            app@ == before,
            before == old(app)@,
            forall|j: int|
                0 <= j < i ==> !((#[trigger] before.peers[j]).online()
                    && before.peers[j].info.remote_pid_full == pid@),
        decreases n - i,
    {
        proof {
            assert(before.peers[i as int] == app.peers@[i as int]@);
        }
        if app.peers[i].info.handshake_done && !app.peers[i].dead
            && app.peers[i].info.remote_pid_full == *pid {
            proof {
                let k = choose|k: int| online_at(before.peers, pid@, k);
                assert(online_at(before.peers, pid@, i as int));
                assert(online_at(before.peers, pid@, k));
                if k < i {
                    assert(!(before.peers[k].online() && before.peers[k].info.remote_pid_full
                        == pid@));
                } else if i < k {
                    assert(!(before.peers[i as int].online()
                        && before.peers[i as int].info.remote_pid_full == pid@));
                }
            }
            app.peers[i].enqueue(kind, body);
            proof {
                let p = before.peers[i as int].queued(kind, body@);
                assert(app@.peers =~= before.peers.update(i as int, p));
                assert(app@ =~= AppView { peers: before.peers.update(i as int, p), ..before });
            }
            return;
        }
        i += 1;
    }
}

/// The state after the file to accept was opened, or could not be.
pub open spec fn after_open(v: AppView, i: int, opened: bool, now: u64) -> AppView {
    if !opened {
        v.failed("could not open receive file"@, now)
    } else {
        let f = RxView { file: Some(v.next_token), ..v.rx[i] };
        AppView {
            rx: v.rx.update(i, f),
            next_token: (v.next_token + 1) as u64,
            peers: queued_for(v.peers, f.sender, CHAT_TYPE_FILE_ACCEPT, text::dec(f.id as nat)),
            ..v
        }.told("accepted file "@ + f.name + " -> "@ + f.path, now).logged(
            NetLevel::Okay,
            "file accept "@ + f.name + " id "@ + text::dec(f.id as nat),
            now,
        )
    }
}

/// Goes on with the accept command once the file was opened, or could not be: the sender is told to
/// go ahead. The token of the open file is handed back.
pub fn accept_opened(app: &mut AppState, i: usize, opened: bool, now: u64) -> (r: Option<u64>)
    requires
        i < old(app)@.rx.len(),
        old(app)@.next_token < u64::MAX,
    ensures
        final(app)@ == after_open(old(app)@, i as int, opened, now),
        r == (if opened {
            Some(old(app)@.next_token)
        } else {
            None
        }),
        old(app)@.sound() ==> final(app)@.sound(),
{
    proof {
        if app@.sound() {
            law_open_keeps_sound(app@, i as int, opened, now);
        }
    }
    if !opened {
        app.emit_error("could not open receive file", now);
        return None;
    }
    let ghost before = app@;
    let token: u64 = app.next_token;
    app.next_token = token + 1;
    app.files.rx[i].file = Some(token);
    let ghost f = RxView { file: Some(token), ..before.rx[i as int] };
    proof {
        assert(app.files.rx@[i as int]@ == f);
        assert(app@.rx =~= before.rx.update(i as int, f));
        assert(app@ =~= AppView {
            rx: before.rx.update(i as int, f),
            next_token: (before.next_token + 1) as u64,
            ..before
        });
    }
    let sender = app.files.rx[i].sender.clone();
    let name = app.files.rx[i].name.clone();
    let path = app.files.rx[i].path.clone();
    let id_text = text::dec_string(app.files.rx[i].id as u64);
    queue_for(app, &sender, CHAT_TYPE_FILE_ACCEPT, id_text.clone());
    let line = text::cat4("accepted file ", name.as_str(), " -> ", path.as_str());
    app.emit_system(line.as_str(), now);
    let entry = text::cat4("file accept ", name.as_str(), " id ", id_text.as_str());
    app.netlog(NetLevel::Okay, entry.as_str(), now);
    Some(token)
}

proof fn lemma_cut_number(n: nat, rest: Seq<char>)
    ensures
        text::cut(text::dec(n) + "|"@ + rest, '|') == Some((text::dec(n), rest)),
{
    reveal_strlit("|");
    text::law_number_of_dec(n, n);
    let d = text::dec(n);
    let all = d + "|"@ + rest;
    assert forall|j: int| 0 <= j < d.len() implies all[j] != '|' by {
        assert(text::is_dec_digit(d[j]));
        assert(all[j] == d[j]);
    }
    assert(all[d.len() as int] == '|');
    text::lemma_first(all, '|', d.len() as int);
    assert(all.take(d.len() as int) =~= d);
    assert(all.skip(d.len() as int + 1) =~= rest);
}

/// What is written as an offer reads back as the same id, size and name, whatever the name holds.
pub proof fn law_offer_round_trip(id: u32, size: u64, name: Seq<char>)
    ensures
        offer_of(offer_text(id, size, name)) == Some((id, size, name)),
{
    let tail = text::dec(size as nat) + "|"@ + name;
    assert(offer_text(id, size, name) =~= text::dec(id as nat) + "|"@ + tail);
    lemma_cut_number(id as nat, tail);
    lemma_cut_number(size as nat, name);
    text::law_number_of_dec(id as nat, u32::MAX as nat);
    text::law_number_of_dec(size as nat, u64::MAX as nat);
}

/// What is written as a chunk reads back as the same number and bytes.
pub proof fn law_chunk_round_trip(id: u32, data: Seq<u8>)
    ensures
        chunk_of(chunk_text(id, data)) == Some((id, util::hex_text(data))),
        util::is_hex(encode_utf8(util::hex_text(data))),
        util::hex_bytes(encode_utf8(util::hex_text(data))) == data,
{
    lemma_cut_number(id as nat, util::hex_text(data));
    text::law_number_of_dec(id as nat, u32::MAX as nat);
    util::law_hex_round_trip(data);
}

/// A request or an end of a file names the file that it was written for.
pub proof fn law_file_id_round_trip(id: u32)
    ensures
        file_id(text::dec(id as nat)) == Some(id),
{
    text::law_number_of_dec(id as nat, u32::MAX as nat);
}

/// Whatever a peer calls itself and its file, the file is stored right in the directory for
/// received files: its name there holds neither a slash, a backslash nor any other character that
/// file names do not keep, and is no reference to a directory.
pub proof fn law_stored_inside(separator: char, info: InfoView, id: u32, name: Seq<char>)
    ensures
        stored_path(separator, info, id, util::safe_name(name)) == "speer_received"@.push(separator)
            + stored_leaf(info, id, util::safe_name(name)),
        forall|i: int|
            0 <= i < stored_leaf(info, id, util::safe_name(name)).len() ==> util::is_name_char(
                #[trigger] stored_leaf(info, id, util::safe_name(name))[i],
            ),
        !stored_leaf(info, id, util::safe_name(name)).contains('/'),
        !stored_leaf(info, id, util::safe_name(name)).contains('\\'),
        stored_leaf(info, id, util::safe_name(name)).len() > 2,
{
    let clean = util::safe_name(name);
    let who = util::safe_name(info.display());
    let leaf = stored_leaf(info, id, clean);
    util::law_safe_name(name);
    util::law_safe_name(info.display());
    text::law_number_of_dec(id as nat, id as nat);
    reveal_strlit("_");
    let d = text::dec(id as nat);
    assert forall|i: int| 0 <= i < leaf.len() implies util::is_name_char(#[trigger] leaf[i]) by {
        if i < who.len() {
            assert(leaf[i] == who[i]);
        } else if i == who.len() {
            assert(leaf[i] == '_');
        } else if i < who.len() + 1 + d.len() {
            assert(leaf[i] == d[i - who.len() - 1]);
            assert(text::is_dec_digit(d[i - who.len() - 1]));
        } else if i == who.len() + 1 + d.len() {
            assert(leaf[i] == '_');
        } else {
            assert(leaf[i] == clean[i - who.len() - 2 - d.len()]);
        }
    }
}

proof fn lemma_place_kept(v: AppView, w: AppView, key: u64)
    requires
        v.has_peer(key),
        v.peers == w.peers,
    ensures
        w.has_peer(key),
        w.place(key) == v.place(key),
        w.peer(key) == v.peer(key),
{
    let i = v.place(key);
    assert(v.peer_at(key, i));
    assert(w.peer_at(key, i));
    app::lemma_place(w, key, i);
}

proof fn lemma_rx_place_bounds(v: AppView, id: u32, sender: Seq<char>)
    ensures
        rx_place(v, id, sender) matches Some(i) ==> rx_at(v, id, sender, i),
{
}

/// A file frame, whatever it holds, keeps the state sound and the connection in the list.
pub proof fn law_file_frames_keep_sound(
    v: AppView,
    key: u64,
    kind: u32,
    payload: Seq<char>,
    now: u64,
)
    requires
        v.sound(),
        v.has_peer(key),
    ensures
        after_file_frame(v, key, kind, payload, now).0.sound(),
        after_file_frame(v, key, kind, payload, now).0.has_peer(key),
        after_file_frame(v, key, kind, payload, now).0.peers == v.peers,
{
    let w = after_file_frame(v, key, kind, payload, now).0;
    if kind == CHAT_TYPE_FILE_META {
        match offer_of(payload) {
            None => {
                app::law_log_keeps_sound(v, NetLevel::Warn, "bad file metadata"@, now);
            },
            Some((id, size, name)) => {
                app::law_notices_keep_sound(v, "too many incoming files"@, ""@, now);
                if v.rx.len() < MAX_RX_FILES {
                    let clean = util::safe_name(name);
                    let info = v.peer(key).info;
                    let f = RxView {
                        id,
                        expected: size,
                        received: 0,
                        sender: info.remote_pid_full,
                        name: clean,
                        path: stored_path(v.separator, info, id, clean),
                        file: None,
                    };
                    let a = AppView { rx: v.rx.push(f), ..v };
                    assert(a.sound());
                    let line = "incoming file "@ + clean + " ("@ + text::dec(size as nat)
                        + " bytes). type /accept "@ + text::dec(id as nat) + " to receive"@;
                    app::law_notices_keep_sound(a, line, ""@, now);
                    app::law_log_keeps_sound(
                        a.told(line, now),
                        NetLevel::Warn,
                        "file pending "@ + clean + " id "@ + text::dec(id as nat),
                        now,
                    );
                }
            },
        }
    } else if kind == CHAT_TYPE_FILE_CHUNK {
        assert forall|t: Seq<char>| (#[trigger] v.logged(NetLevel::Warn, t, now)).sound() by {
            app::law_log_keeps_sound(v, NetLevel::Warn, t, now);
        }
    } else if kind == CHAT_TYPE_FILE_DONE {
        if let Some(id) = file_id(payload) {
            let sender = v.peer(key).info.remote_pid_full;
            lemma_rx_place_bounds(v, id, sender);
            if let Some(i) = rx_place(v, id, sender) {
                let f = v.rx[i];
                let a = AppView { rx: v.rx.remove(i), ..v };
                assert forall|x: int| 0 <= x < a.rx.len() implies (#[trigger] a.rx[x])
                    == v.rx[if x < i { x } else { x + 1 }] by {}
                assert(a.sound());
                app::law_notices_keep_sound(a, done_text(f), ""@, now);
                app::law_log_keeps_sound(
                    a.told(done_text(f), now),
                    if f.received == f.expected {
                        NetLevel::Okay
                    } else {
                        NetLevel::Warn
                    },
                    "file saved "@ + f.name,
                    now,
                );
            }
        }
    } else if kind == CHAT_TYPE_FILE_ACCEPT {
        if let Some(id) = file_id(payload) {
            let a = v.logged(NetLevel::Okay, "file accepted by peer"@, now);
            app::law_log_keeps_sound(v, NetLevel::Okay, "file accepted by peer"@, now);
            app::law_log_keeps_sound(
                a,
                NetLevel::Warn,
                "accept for unknown file "@ + text::dec(id as nat),
                now,
            );
        }
    }
    lemma_place_kept(v, w, key);
}

/// Bytes that were written keep the state sound.
pub proof fn law_write_keeps_sound(v: AppView, token: u64, n: u64, now: u64)
    requires
        v.sound(),
    ensures
        after_write(v, token, n, now).sound(),
        after_write(v, token, n, now).peers == v.peers,
{
    if let Some(i) = token_place(v, token) {
        assert(token_at(v, token, i));
        let f = RxView { received: v.rx[i].received.wrapping_add(n), ..v.rx[i] };
        let a = AppView { rx: v.rx.update(i, f), ..v };
        assert forall|x: int| 0 <= x < a.rx.len() implies (#[trigger] a.rx[x]).file
            == v.rx[x].file by {}
        assert forall|x: int, y: int|
            0 <= x < y < a.rx.len() && (#[trigger] a.rx[x]).file is Some implies a.rx[x].file != (
        #[trigger] a.rx[y]).file by {
            assert(v.rx[x].file != v.rx[y].file);
        }
        assert(a.sound());
        app::law_log_keeps_sound(
            a,
            NetLevel::Traffic,
            "file rx "@ + f.name + " "@ + text::dec(f.received as nat) + "/"@ + text::dec(
                f.expected as nat,
            ) + "B"@,
            now,
        );
    }
}

/// Every read of a file that is being sent keeps the state sound and the connection in its place.
pub proof fn law_read_keeps_sound(
    v: AppView,
    key: u64,
    file: TxView,
    sent: u64,
    read: Option<Seq<u8>>,
    now: u64,
)
    requires
        v.sound(),
        v.has_peer(key),
    ensures
        after_read(v, key, file, sent, read, now).0.sound(),
        after_read(v, key, file, sent, read, now).0.has_peer(key),
{
    let p = v.peer(key);
    assert(v.peer_at(key, v.place(key)));
    if read is Some && read->0.len() > 0 {
        let chunk = read->0;
        let total = sent.wrapping_add(chunk.len() as u64);
        let q = p.queued(CHAT_TYPE_FILE_CHUNK, chunk_text(file.id, chunk));
        let line = "file tx "@ + file.name + " "@ + text::dec(total as nat) + "/"@ + text::dec(
            file.size as nat,
        ) + "B"@;
        app::law_peer_change_keeps_sound(v, key, q);
        let a = v.with_peer(key, q);
        app::law_log_keeps_sound(a, NetLevel::Traffic, line, now);
        lemma_place_kept(a, a.logged(NetLevel::Traffic, line, now), key);
    } else {
        let q = p.queued(CHAT_TYPE_FILE_DONE, text::dec(file.id as nat));
        let line = "file tx done "@ + file.name;
        app::law_peer_change_keeps_sound(v, key, q);
        let a = v.with_peer(key, q);
        app::law_log_keeps_sound(a, NetLevel::Okay, line, now);
        lemma_place_kept(a, a.logged(NetLevel::Okay, line, now), key);
    }
}

/// Offering a file keeps the state sound.
pub proof fn law_look_keeps_sound(
    v: AppView,
    path: Seq<char>,
    base: Option<Seq<char>>,
    size: Option<u64>,
    unix_secs: u64,
    now: u64,
)
    requires
        v.sound(),
    ensures
        after_look(v, path, base, size, unix_secs, now).sound(),
{
    match size {
        None => {
            app::law_notices_keep_sound(v, "could not open file: "@ + path, ""@, now);
        },
        Some(len) => {
            let id = offer_id(v.next_file_id, unix_secs);
            let name = util::safe_name(
                match base {
                    Some(n) => n,
                    None => "blob"@,
                },
            );
            let a = AppView {
                next_file_id: v.next_file_id.wrapping_add(1),
                tx: v.tx.push(TxView { id, size: len, name, path }),
                ..v
            };
            assert(a.sound());
            let body = offer_text(id, len, name);
            app::law_peers_keep_sound(a, CHAT_TYPE_FILE_META, body, 0);
            let b = a.broadcasted(CHAT_TYPE_FILE_META, body);
            let line = "offered file "@ + name + " ("@ + text::dec(len as nat)
                + " bytes), waiting for peer acceptance"@;
            app::law_notices_keep_sound(b, line, ""@, now);
            app::law_log_keeps_sound(
                b.told(line, now),
                NetLevel::Okay,
                "file offered "@ + name + " id "@ + text::dec(id as nat),
                now,
            );
        },
    }
}

/// Accepting a file keeps the state sound, and the file that was opened goes by a token of its own.
pub proof fn law_open_keeps_sound(v: AppView, i: int, opened: bool, now: u64)
    requires
        v.sound(),
        0 <= i < v.rx.len(),
        v.next_token < u64::MAX,
    ensures
        after_open(v, i, opened, now).sound(),
        opened ==> token_place(after_open(v, i, opened, now), v.next_token) == Some(i),
{
    if !opened {
        app::law_notices_keep_sound(v, "could not open receive file"@, ""@, now);
    } else {
        let f = RxView { file: Some(v.next_token), ..v.rx[i] };
        let body = text::dec(f.id as nat);
        let peers = queued_for(v.peers, f.sender, CHAT_TYPE_FILE_ACCEPT, body);
        let a = AppView {
            rx: v.rx.update(i, f),
            next_token: (v.next_token + 1) as u64,
            peers,
            ..v
        };
        assert forall|x: int| 0 <= x < peers.len() implies (#[trigger] peers[x]).key
            == v.peers[x].key && peers[x].info == v.peers[x].info by {}
        assert forall|x: int, y: int| 0 <= x < y < peers.len() implies (#[trigger] peers[x]).key
            != (#[trigger] peers[y]).key by {
            assert(v.peers[x].key != v.peers[y].key);
        }
        assert forall|x: int, y: int|
            0 <= x < y < a.rx.len() && (#[trigger] a.rx[x]).file is Some implies a.rx[x].file != (
        #[trigger] a.rx[y]).file by {
            if x != i && y != i {
                assert(v.rx[x].file != v.rx[y].file);
            } else if x != i {
                assert(v.rx[x].file matches Some(t) ==> t < v.next_token);
            } else {
                assert(v.rx[y].file matches Some(t) ==> t < v.next_token);
            }
        }
        assert(a.sound());
        let line = "accepted file "@ + f.name + " -> "@ + f.path;
        app::law_notices_keep_sound(a, line, ""@, now);
        app::law_log_keeps_sound(
            a.told(line, now),
            NetLevel::Okay,
            "file accept "@ + f.name + " id "@ + text::dec(f.id as nat),
            now,
        );
        let w = after_open(v, i, opened, now);
        assert(token_at(w, v.next_token, i)) by {
            assert forall|j: int| 0 <= j < i implies (#[trigger] w.rx[j]).file != Some(
                v.next_token,
            ) by {
                assert(v.rx[j].file matches Some(t) ==> t < v.next_token);
            }
        }
        lemma_token_place(w, v.next_token, i);
    }
}

proof fn lemma_id_len(id: u32)
    ensures
        text::dec(id as nat).len() <= 10,
{
    reveal_with_fuel(text::dec, 10);
}

/// A chunk of a file always fits a frame, whatever bytes it holds.
pub proof fn law_chunk_fits(nick: Seq<char>, id: u32, data: Seq<u8>)
    requires
        nick.len() < MAX_NICK_LEN,
        data.len() <= FILE_CHUNK_BYTES,
    ensures
        protocol::frame_fault(CHAT_TYPE_FILE_CHUNK, nick, chunk_text(id, data)) is None,
        protocol::frame_fault(CHAT_TYPE_FILE_DONE, nick, text::dec(id as nat)) is None,
        protocol::frame_fault(CHAT_TYPE_FILE_ACCEPT, nick, text::dec(id as nat)) is None,
{
    let d = text::dec(id as nat);
    let h = util::hex_text(data);
    reveal_strlit("|");
    lemma_id_len(id);
    util::lemma_hex_text(data);
    is_ascii_chars_encode_utf8(h);
    text::lemma_utf8_len(d);
    text::lemma_utf8_len("|"@);
    text::lemma_utf8_concat(d + "|"@, h);
    text::lemma_utf8_concat(d, "|"@);
    protocol::law_frame_fits(CHAT_TYPE_FILE_CHUNK, nick, chunk_text(id, data));
    protocol::law_frame_fits(CHAT_TYPE_FILE_DONE, nick, d);
    protocol::law_frame_fits(CHAT_TYPE_FILE_ACCEPT, nick, d);
}

/// How many bytes chunks hold together.
pub open spec fn total(chunks: Seq<Seq<u8>>) -> nat
    decreases chunks.len(),
{
    if chunks.len() == 0 {
        0
    } else {
        total(chunks.drop_last()) + chunks.last().len()
    }
}

/// The state of the sender after these reads of a file, each made at its own time.
pub open spec fn after_reads(
    v: AppView,
    key: u64,
    file: TxView,
    chunks: Seq<Seq<u8>>,
    times: Seq<u64>,
) -> AppView
    decreases chunks.len(),
{
    if chunks.len() == 0 {
        v
    } else {
        after_read(
            after_reads(v, key, file, chunks.drop_last(), times),
            key,
            file,
            total(chunks.drop_last()) as u64,
            Some(chunks.last()),
            times[chunks.len() - 1],
        ).0
    }
}

/// The frames that carry these chunks of a file.
pub open spec fn chunk_frames(id: u32, chunks: Seq<Seq<u8>>) -> Seq<OutView> {
    Seq::new(
        chunks.len(),
        |i: int| OutView { kind: CHAT_TYPE_FILE_CHUNK, text: chunk_text(id, chunks[i]) },
    )
}

/// Reading a file to its end queues one frame for each chunk, in order, behind what was queued
/// before, and then the end of the file.
pub proof fn law_reads_queue_chunks(
    v: AppView,
    key: u64,
    file: TxView,
    chunks: Seq<Seq<u8>>,
    times: Seq<u64>,
    now: u64,
)
    requires
        v.sound(),
        v.has_peer(key),
        total(chunks) <= u64::MAX,
        forall|i: int| 0 <= i < chunks.len() ==> (#[trigger] chunks[i]).len() > 0,
    ensures
        after_reads(v, key, file, chunks, times).sound(),
        after_reads(v, key, file, chunks, times).has_peer(key),
        after_reads(v, key, file, chunks, times).tx == v.tx,
        after_reads(v, key, file, chunks, times).rx == v.rx,
        after_reads(v, key, file, chunks, times).peer(key).out == v.peer(key).out + chunk_frames(
            file.id,
            chunks,
        ),
        after_read(
            after_reads(v, key, file, chunks, times),
            key,
            file,
            total(chunks) as u64,
            None,
            now,
        ).0.peer(key).out == (v.peer(key).out + chunk_frames(file.id, chunks)).push(
            OutView { kind: CHAT_TYPE_FILE_DONE, text: text::dec(file.id as nat) },
        ),
    decreases chunks.len(),
{
    let w = after_reads(v, key, file, chunks, times);
    if chunks.len() == 0 {
        assert(v.peer(key).out + chunk_frames(file.id, chunks) =~= v.peer(key).out);
    } else {
        let d = chunks.drop_last();
        assert forall|i: int| 0 <= i < d.len() implies (#[trigger] d[i]).len() > 0 by {
            assert(chunks[i].len() > 0);
        }
        assert(chunks[chunks.len() - 1].len() > 0);
        law_reads_queue_chunks(v, key, file, d, times, now);
        let before = after_reads(v, key, file, d, times);
        law_read_keeps_sound(
            before,
            key,
            file,
            total(d) as u64,
            Some(chunks.last()),
            times[chunks.len() - 1],
        );
        let q = before.peer(key).queued(
            CHAT_TYPE_FILE_CHUNK,
            chunk_text(file.id, chunks.last()),
        );
        assert(before.peer_at(key, before.place(key)));
        app::law_peer_change_keeps_sound(before, key, q);
        lemma_place_kept(before.with_peer(key, q), w, key);
        assert(chunk_frames(file.id, chunks) =~= chunk_frames(file.id, d).push(
            OutView { kind: CHAT_TYPE_FILE_CHUNK, text: chunk_text(file.id, chunks.last()) },
        ));
        assert(w.peer(key).out =~= v.peer(key).out + chunk_frames(file.id, chunks));
    }
    let e = w.peer(key).queued(CHAT_TYPE_FILE_DONE, text::dec(file.id as nat));
    assert(w.peer_at(key, w.place(key)));
    app::law_peer_change_keeps_sound(w, key, e);
    lemma_place_kept(w.with_peer(key, e), after_sent(w, key, file, now), key);
}

/// The bytes of chunks, one after the other.
pub open spec fn joined(chunks: Seq<Seq<u8>>) -> Seq<u8>
    decreases chunks.len(),
{
    if chunks.len() == 0 {
        Seq::empty()
    } else {
        joined(chunks.drop_last()) + chunks.last()
    }
}

proof fn lemma_joined_len(chunks: Seq<Seq<u8>>)
    requires
        forall|i: int| 0 <= i < chunks.len() ==> (#[trigger] chunks[i]).len() > 0,
    ensures
        joined(chunks).len() == total(chunks),
        total(chunks) == 0 <==> chunks.len() == 0,
    decreases chunks.len(),
{
    if chunks.len() > 0 {
        let d = chunks.drop_last();
        assert forall|i: int| 0 <= i < d.len() implies (#[trigger] d[i]).len() > 0 by {
            assert(chunks[i].len() > 0);
        }
        assert(chunks[chunks.len() - 1].len() > 0);
        lemma_joined_len(d);
    }
}

/// The bytes that a frame with a chunk of the file of this number holds, none for another frame.
pub open spec fn carried(frame: OutView, id: u32) -> Option<Seq<u8>> {
    match chunk_of(frame.text) {
        Some((i, hex)) => if frame.kind == CHAT_TYPE_FILE_CHUNK && i == id && util::is_hex(
            encode_utf8(hex),
        ) {
            Some(util::hex_bytes(encode_utf8(hex)))
        } else {
            None
        },
        None => None,
    }
}

/// A file that a peer asks for is sent whole: when it was read to its end, or as far as it could be
/// read, the frames behind those that were queued before hold just what was read, in order, in
/// pieces of one byte up to the most that a frame may hold, and none where nothing was read. One
/// frame with the end of the file follows. The lists of files stay as they are.
pub proof fn law_file_is_sent(
    v: AppView,
    key: u64,
    id: u32,
    chunks: Seq<Seq<u8>>,
    times: Seq<u64>,
    content: Seq<u8>,
    end: Option<Seq<u8>>,
    now: u64,
)
    requires
        v.sound(),
        v.has_peer(key),
        offered(v, id) is Some,
        forall|i: int|
            0 <= i < chunks.len() ==> 1 <= (#[trigger] chunks[i]).len() <= FILE_CHUNK_BYTES,
        joined(chunks) == content,
        content.len() <= u64::MAX,
        end matches Some(chunk) ==> chunk.len() == 0,
    ensures
        after_request(v, id, now) == (v, FileActionView::Send { file: offered(v, id)->0 }),
        ({
            let file = offered(v, id)->0;
            let last = after_reads(v, key, file, chunks, times);
            let w = after_read(last, key, file, content.len() as u64, end, now).0;
            let frames = chunk_frames(id, chunks);
            &&& w.peer(key).out == (v.peer(key).out + frames).push(
                OutView { kind: CHAT_TYPE_FILE_DONE, text: text::dec(id as nat) },
            )
            &&& frames.len() == chunks.len()
            &&& frames.len() == 0 <==> content.len() == 0
            &&& forall|i: int|
                0 <= i < frames.len() ==> carried(#[trigger] frames[i], id) == Some(chunks[i])
            &&& w.tx == v.tx
            &&& w.rx == v.rx
            &&& w.sound()
        }),
{
    let i = choose|i: int| tx_at(v, id, i);
    lemma_tx_place(v, id, i);
    let file = offered(v, id)->0;
    assert(file.id == id);
    lemma_joined_len(chunks);
    law_reads_queue_chunks(v, key, file, chunks, times, now);
    let last = after_reads(v, key, file, chunks, times);
    law_read_keeps_sound(last, key, file, content.len() as u64, end, now);
    let frames = chunk_frames(id, chunks);
    assert forall|j: int| 0 <= j < frames.len() implies carried(#[trigger] frames[j], id) == Some(
        chunks[j],
    ) by {
        law_chunk_round_trip(id, chunks[j]);
    }
}

/// The state of the receiver after these chunks of a file came and were written, each at its own
/// time.
pub open spec fn after_chunks(
    v: AppView,
    key: u64,
    id: u32,
    token: u64,
    chunks: Seq<Seq<u8>>,
    times: Seq<u64>,
) -> AppView
    decreases chunks.len(),
{
    if chunks.len() == 0 {
        v
    } else {
        let before = after_chunks(v, key, id, token, chunks.drop_last(), times);
        let now = times[chunks.len() - 1];
        after_write(
            after_chunk(before, key, chunk_text(id, chunks.last()), now).0,
            token,
            chunks.last().len() as u64,
            now,
        )
    }
}

/// The frames of a file that was accepted give back, one after the other, just the bytes that were
/// sent, for the file that was opened for it; and when they are written the count of received bytes
/// has grown by just as many.
pub proof fn law_chunks_arrive(
    v: AppView,
    key: u64,
    id: u32,
    i: int,
    token: u64,
    chunks: Seq<Seq<u8>>,
    times: Seq<u64>,
    now: u64,
)
    requires
        v.sound(),
        v.has_peer(key),
        rx_place(v, id, v.peer(key).info.remote_pid_full) == Some(i),
        v.rx[i].file == Some(token),
        v.rx[i].received + total(chunks) <= u64::MAX,
    ensures
        after_chunks(v, key, id, token, chunks, times).sound(),
        after_chunks(v, key, id, token, chunks, times).peers == v.peers,
        after_chunks(v, key, id, token, chunks, times).rx == v.rx.update(
            i,
            RxView { received: (v.rx[i].received + total(chunks)) as u64, ..v.rx[i] },
        ),
        chunks.len() > 0 ==> after_chunk(
            after_chunks(v, key, id, token, chunks.drop_last(), times),
            key,
            chunk_text(id, chunks.last()),
            now,
        ) == (
            after_chunks(v, key, id, token, chunks.drop_last(), times),
            FileActionView::Write { token, data: chunks.last() },
        ),
    decreases chunks.len(),
{
    let pid = v.peer(key).info.remote_pid_full;
    lemma_rx_place_bounds(v, id, pid);
    if chunks.len() == 0 {
        assert(v.rx =~= v.rx.update(i, RxView { received: v.rx[i].received, ..v.rx[i] }));
    } else {
        let d = chunks.drop_last();
        law_chunks_arrive(v, key, id, i, token, d, times, now);
        let b = after_chunks(v, key, id, token, d, times);
        lemma_place_kept(v, b, key);
        assert forall|j: int| 0 <= j < b.rx.len() implies (#[trigger] b.rx[j]).id == v.rx[j].id
            && b.rx[j].sender == v.rx[j].sender && b.rx[j].file == v.rx[j].file by {}
        assert(rx_at(b, id, pid, i)) by {
            assert forall|j: int| 0 <= j < i implies !((#[trigger] b.rx[j]).id == id
                && b.rx[j].sender == pid) by {
                assert(!(v.rx[j].id == id && v.rx[j].sender == pid));
            }
        }
        lemma_rx_place(b, id, pid, i);
        law_chunk_round_trip(id, chunks.last());
        assert(token_at(b, token, i)) by {
            assert forall|j: int| 0 <= j < i implies (#[trigger] b.rx[j]).file != Some(token) by {
                assert(v.rx[j].file is Some ==> v.rx[j].file != v.rx[i].file);
            }
        }
        lemma_token_place(b, token, i);
        law_write_keeps_sound(b, token, chunks.last().len() as u64, times[chunks.len() - 1]);
        assert(after_chunks(v, key, id, token, chunks, times).rx =~= v.rx.update(
            i,
            RxView { received: (v.rx[i].received + total(chunks)) as u64, ..v.rx[i] },
        ));
    }
}

/// A file whose frames all came leaves the list as complete, and its open file is to be closed.
pub proof fn law_transfer_completes(
    v: AppView,
    key: u64,
    id: u32,
    i: int,
    token: u64,
    chunks: Seq<Seq<u8>>,
    times: Seq<u64>,
    now: u64,
)
    requires
        v.sound(),
        v.has_peer(key),
        rx_place(v, id, v.peer(key).info.remote_pid_full) == Some(i),
        v.rx[i].file == Some(token),
        v.rx[i].received == 0,
        total(chunks) == v.rx[i].expected,
    ensures
        after_done(after_chunks(v, key, id, token, chunks, times), key, text::dec(id as nat), now).1
            == (FileActionView::Close { token }),
        after_done(
            after_chunks(v, key, id, token, chunks, times),
            key,
            text::dec(id as nat),
            now,
        ).0.rx == v.rx.remove(i),
        ({
            let w = after_done(
                after_chunks(v, key, id, token, chunks, times),
                key,
                text::dec(id as nat),
                now,
            ).0;
            w.netlog.last().level == NetLevel::Okay
        }),
{
    let pid = v.peer(key).info.remote_pid_full;
    lemma_rx_place_bounds(v, id, pid);
    law_chunks_arrive(v, key, id, i, token, chunks, times, now);
    law_file_id_round_trip(id);
    let b = after_chunks(v, key, id, token, chunks, times);
    lemma_place_kept(v, b, key);
    assert(rx_at(b, id, pid, i)) by {
        assert forall|j: int| 0 <= j < i implies !((#[trigger] b.rx[j]).id == id
            && b.rx[j].sender == pid) by {
            assert(!(v.rx[j].id == id && v.rx[j].sender == pid));
        }
    }
    lemma_rx_place(b, id, pid, i);
    assert(b.rx.remove(i) =~= v.rx.remove(i));
}

}
