//! The user interface: the input line, what the keys do, and what is shown.
use ratatui::layout::{Constraint, Direction, Layout, Rect};
use vstd::prelude::*;
use vstd::string::*;
use vstd::utf8::*;

use crate::app;
use crate::app::{
    AppState, AppView, InfoView, Message, MessageView, MsgKind, NetEntry, NetLevel, NetView,
    PeerInfo, PeerView, Rgb, Theme, ThemeView,
};
use crate::constants::{CHAT_TYPE_MSG, MAX_NICK_LEN, MAX_TEXT_LEN};
use crate::protocol;
use crate::text;
use crate::util;

verus! {

/// The line that is being typed. The cursor counts bytes; `scroll` counts the newest lines of the
/// chat that are not shown.
pub struct InputState {
    pub buf: String,
    pub cursor: usize,
    pub scroll: usize,
}

/// The line that is being typed, as what stands before and behind the cursor.
#[verifier::ext_equal]
pub struct InputView {
    pub before: Seq<char>,
    pub after: Seq<char>,
    pub scroll: nat,
}

impl InputView {
    /// The whole line.
    pub open spec fn text(self) -> Seq<char> {
        self.before + self.after
    }

    /// No line grows beyond its limit by more than the rest of one character.
    pub open spec fn bounded(self) -> bool {
        encode_utf8(self.text()).len() <= MAX_TEXT_LEN + 2
    }
}

impl View for InputState {
    type V = InputView;

    open spec fn view(&self) -> InputView {
        let b = encode_utf8(self.buf@);
        InputView {
            before: decode_utf8(b.take(self.cursor as int)),
            after: decode_utf8(b.skip(self.cursor as int)),
            scroll: self.scroll as nat,
        }
    }
}

/// The line after a character was typed, unless the line is full.
pub open spec fn typed(i: InputView, ch: char) -> InputView {
    if encode_utf8(i.text()).len() < MAX_TEXT_LEN - 1 {
        InputView { before: i.before.push(ch), ..i }
    } else {
        i
    }
}

/// The line without the character before the cursor.
pub open spec fn erased(i: InputView) -> InputView {
    if i.before.len() > 0 {
        InputView { before: i.before.drop_last(), ..i }
    } else {
        i
    }
}

/// The line without the character behind the cursor.
pub open spec fn deleted(i: InputView) -> InputView {
    if i.after.len() > 0 {
        InputView { after: i.after.skip(1), ..i }
    } else {
        i
    }
}

/// The line with the cursor one character further left.
pub open spec fn moved_left(i: InputView) -> InputView {
    if i.before.len() > 0 {
        InputView {
            before: i.before.drop_last(),
            after: seq![i.before.last()] + i.after,
            scroll: i.scroll,
        }
    } else {
        i
    }
}

/// The line with the cursor one character further right.
pub open spec fn moved_right(i: InputView) -> InputView {
    if i.after.len() > 0 {
        InputView { before: i.before.push(i.after[0]), after: i.after.skip(1), scroll: i.scroll }
    } else {
        i
    }
}

/// An empty line, with the chat scrolled as before.
pub open spec fn emptied(i: InputView) -> InputView {
    InputView { before: Seq::empty(), after: Seq::empty(), ..i }
}

impl InputState {
    /// The cursor stands between two characters or at an end.
    pub open spec fn wf(self) -> bool {
        self.cursor <= encode_utf8(self.buf@).len() && is_char_boundary(
            encode_utf8(self.buf@),
            self.cursor as int,
        )
    }

    /// An empty line.
    pub fn new() -> (r: Self)
        ensures
            r.wf(),
            r@ == (InputView { before: Seq::empty(), after: Seq::empty(), scroll: 0 }),
            r@.bounded(),
    {
        let r = InputState { buf: String::new(), cursor: 0, scroll: 0 };
        proof {
            assert(r.buf@ =~= Seq::<char>::empty());
            encode_utf8_valid_utf8(r.buf@);
            is_char_boundary_start_end_of_seq(encode_utf8(r.buf@));
            assert(encode_utf8(r.buf@).take(0) =~= Seq::<u8>::empty());
            assert(encode_utf8(r.buf@).skip(0) =~= Seq::<u8>::empty());
            assert(r@.text() =~= Seq::<char>::empty());
        }
        r
    }

    /// The view holds the line and the cursor.
    pub proof fn lemma_text(self)
        requires
            self.wf(),
        ensures
            self.buf@ == self@.text(),
            self.cursor == encode_utf8(self@.before).len(),
    {
        let b = encode_utf8(self.buf@);
        let k = self.cursor as int;
        encode_utf8_valid_utf8(self.buf@);
        valid_utf8_split(b, k);
        assert(b.subrange(0, k) =~= b.take(k));
        assert(b.subrange(k, b.len() as int) =~= b.skip(k));
        decode_utf8_split(b, k);
        encode_utf8_decode_utf8(self.buf@);
        decode_utf8_encode_utf8(b.take(k));
    }

    fn parts(&self) -> (r: (Vec<char>, Vec<char>))
        requires
            self.wf(),
        ensures
            r.0@ == self@.before,
            r.1@ == self@.after,
            self.buf@ == self@.text(),
            self.cursor == encode_utf8(self@.before).len(),
    {
        let ghost b = encode_utf8(self.buf@);
        proof {
            encode_utf8_valid_utf8(self.buf@);
        }
        let (head, tail) = self.buf.as_str().split_at(self.cursor);
        proof {
            assert(b.subrange(0, self.cursor as int) =~= b.take(self.cursor as int));
            assert(b.subrange(self.cursor as int, b.len() as int) =~= b.skip(self.cursor as int));
            encode_utf8_decode_utf8(head@);
            encode_utf8_decode_utf8(tail@);
            self.lemma_text();
        }
        (text::chars_of(head), text::chars_of(tail))
    }

    fn put(&mut self, before: &[char], after: &[char])
        ensures
            final(self).wf(),
            final(self)@ == (InputView {
                before: before@,
                after: after@,
                scroll: old(self)@.scroll,
            }),
    {
        let head = text::string_of(before);
        let tail = text::string_of(after);
        self.cursor = head.as_str().as_bytes().len();
        self.buf = text::cat2(head.as_str(), tail.as_str());
        proof {
            let b = encode_utf8(self.buf@);
            text::lemma_utf8_concat(before@, after@);
            text::lemma_boundary(before@, after@);
            assert(b.take(self.cursor as int) =~= encode_utf8(before@));
            assert(b.skip(self.cursor as int) =~= encode_utf8(after@));
            encode_utf8_decode_utf8(before@);
            encode_utf8_decode_utf8(after@);
        }
    }

    /// Types a character, unless the line is full.
    pub fn insert(&mut self, ch: char)
        requires
            old(self).wf(),
        ensures
            final(self).wf(),
            final(self)@ == typed(old(self)@, ch),
    {
        let (mut before, after) = self.parts();
        if self.buf.as_str().as_bytes().len() < MAX_TEXT_LEN - 1 {
            before.push(ch);
            self.put(before.as_slice(), after.as_slice());
        }
    }

    /// Erases the character before the cursor.
    pub fn backspace(&mut self)
        requires
            old(self).wf(),
        ensures
            final(self).wf(),
            final(self)@ == erased(old(self)@),
    {
        let (mut before, after) = self.parts();
        if before.len() > 0 {
            let _ = before.pop();
            proof {
                assert(before@ =~= old(self)@.before.drop_last());
            }
            self.put(before.as_slice(), after.as_slice());
        }
    }

    /// Erases the character behind the cursor.
    pub fn delete(&mut self)
        requires
            old(self).wf(),
        ensures
            final(self).wf(),
            final(self)@ == deleted(old(self)@),
    {
        let (before, mut after) = self.parts();
        if after.len() > 0 {
            let _ = after.remove(0);
            proof {
                assert(after@ =~= old(self)@.after.skip(1));
            }
            self.put(before.as_slice(), after.as_slice());
        }
    }

    fn left(&mut self)
        requires
            old(self).wf(),
        ensures
            final(self).wf(),
            final(self)@ == moved_left(old(self)@),
    {
        let (mut before, mut after) = self.parts();
        if let Some(ch) = before.pop() {
            after.insert(0, ch);
            proof {
                assert(before@ =~= old(self)@.before.drop_last());
                assert(after@ =~= seq![old(self)@.before.last()] + old(self)@.after);
            }
            self.put(before.as_slice(), after.as_slice());
        }
    }

    fn right(&mut self)
        requires
            old(self).wf(),
        ensures
            final(self).wf(),
            final(self)@ == moved_right(old(self)@),
    {
        let (mut before, mut after) = self.parts();
        if after.len() > 0 {
            let ch = after.remove(0);
            before.push(ch);
            proof {
                assert(after@ =~= old(self)@.after.skip(1));
            }
            self.put(before.as_slice(), after.as_slice());
        }
    }

    fn home(&mut self)
        requires
            old(self).wf(),
        ensures
            final(self).wf(),
            final(self)@ == (InputView {
                before: Seq::empty(),
                after: old(self)@.text(),
                scroll: old(self)@.scroll,
            }),
    {
        let (mut before, after) = self.parts();
        before.extend_from_slice(after.as_slice());
        let none: Vec<char> = Vec::new();
        self.put(none.as_slice(), before.as_slice());
    }

    fn end(&mut self)
        requires
            old(self).wf(),
        ensures
            final(self).wf(),
            final(self)@ == (InputView {
                before: old(self)@.text(),
                after: Seq::empty(),
                scroll: old(self)@.scroll,
            }),
    {
        let (mut before, after) = self.parts();
        before.extend_from_slice(after.as_slice());
        let none: Vec<char> = Vec::new();
        self.put(before.as_slice(), none.as_slice());
    }

    fn clear(&mut self)
        ensures
            final(self).wf(),
            final(self)@ == emptied(old(self)@),
    {
        let none: Vec<char> = Vec::new();
        self.put(none.as_slice(), none.as_slice());
    }

    /// Takes the whole line, and leaves an empty one with the chat at its end.
    pub fn take(&mut self) -> (r: String)
        requires
            old(self).wf(),
        ensures
            final(self).wf(),
            r@ == old(self)@.text(),
            final(self)@ == (InputView { before: Seq::empty(), after: Seq::empty(), scroll: 0 }),
    {
        proof {
            self.lemma_text();
        }
        let line = self.buf.clone();
        self.clear();
        self.scroll = 0;
        line
    }
}

/// The keys that the input line knows.
#[derive(Clone, Copy, PartialEq, Eq, Structural, Debug)]
pub enum Key {
    Char(char),
    Backspace,
    Delete,
    Left,
    Right,
    Home,
    End,
    PageUp,
    PageDown,
    Enter,
    Other,
}

/// What came from the terminal.
#[derive(Clone, Copy, PartialEq, Eq, Structural, Debug)]
pub enum InputEvent {
    /// Nothing, for a while.
    Quiet,
    /// Something that is no key.
    Other,
    /// A key. `press` tells a press from a repeat or a release; `control` tells whether the control
    /// key, and no other modifier, was held.
    Key { key: Key, control: bool, press: bool },
}

/// What the user interface has to do.
pub enum UiAction {
    /// Nothing.
    Nothing,
    /// Draw again.
    Redraw,
    /// Run this line.
    Submit(String),
    /// Leave.
    Quit,
}

/// What the user interface has to do, in plain values.
#[verifier::ext_equal]
pub enum UiActionView {
    Nothing,
    Redraw,
    Submit(Seq<char>),
    Quit,
}

impl View for UiAction {
    type V = UiActionView;

    open spec fn view(&self) -> UiActionView {
        match *self {
            UiAction::Nothing => UiActionView::Nothing,
            UiAction::Redraw => UiActionView::Redraw,
            UiAction::Submit(line) => UiActionView::Submit(line@),
            UiAction::Quit => UiActionView::Quit,
        }
    }
}

/// The line after a key was pressed, and what to do.
pub open spec fn after_key(i: InputView, key: Key, control: bool) -> (InputView, UiActionView) {
    match key {
        Key::Char(c) => if control && (c == 'c' || c == 'd') {
            (i, UiActionView::Quit)
        } else if control && c == 'u' {
            (emptied(i), UiActionView::Redraw)
        } else {
            (typed(i, c), UiActionView::Redraw)
        },
        Key::Backspace => (erased(i), UiActionView::Redraw),
        Key::Delete => (deleted(i), UiActionView::Redraw),
        Key::Left => (moved_left(i), UiActionView::Redraw),
        Key::Right => (moved_right(i), UiActionView::Redraw),
        Key::Home => (
            InputView { before: Seq::empty(), after: i.text(), scroll: i.scroll },
            UiActionView::Redraw,
        ),
        Key::End => (
            InputView { before: i.text(), after: Seq::empty(), scroll: i.scroll },
            UiActionView::Redraw,
        ),
        Key::PageUp => (
            InputView {
                scroll: if i.scroll < usize::MAX {
                    i.scroll + 1
                } else {
                    i.scroll
                },
                ..i
            },
            UiActionView::Redraw,
        ),
        Key::PageDown => (
            InputView {
                scroll: if i.scroll > 0 {
                    (i.scroll - 1) as nat
                } else {
                    0
                },
                ..i
            },
            UiActionView::Redraw,
        ),
        Key::Enter => (
            InputView { before: Seq::empty(), after: Seq::empty(), scroll: 0 },
            if i.text().len() == 0 {
                UiActionView::Nothing
            } else {
                UiActionView::Submit(i.text())
            },
        ),
        Key::Other => (i, UiActionView::Nothing),
    }
}

/// The line after what came from the terminal, and what to do.
pub open spec fn after_input(i: InputView, event: InputEvent) -> (InputView, UiActionView) {
    match event {
        InputEvent::Key { key, control, press } => if press {
            after_key(i, key, control)
        } else {
            (i, UiActionView::Nothing)
        },
        _ => (i, UiActionView::Nothing),
    }
}

/// Takes what came from the terminal.
pub fn poll_input(input: &mut InputState, event: InputEvent) -> (r: UiAction)
    requires
        old(input).wf(),
    ensures
        final(input).wf(),
        (final(input)@, r@) == after_input(old(input)@, event),
{
    let (key, control) = match event {
        InputEvent::Key { key, control, press } => {
            if !press {
                return UiAction::Nothing;
            }
            (key, control)
        },
        _ => {
            return UiAction::Nothing;
        },
    };
    match key {
        Key::Char(c) => {
            if control && (c == 'c' || c == 'd') {
                return UiAction::Quit;
            }
            if control && c == 'u' {
                input.clear();
            } else {
                input.insert(c);
            }
        },
        Key::Backspace => {
            input.backspace();
        },
        Key::Delete => {
            input.delete();
        },
        Key::Left => {
            input.left();
        },
        Key::Right => {
            input.right();
        },
        Key::Home => {
            input.home();
        },
        Key::End => {
            input.end();
        },
        Key::PageUp => {
            if input.scroll < usize::MAX {
                input.scroll = input.scroll + 1;
            }
        },
        Key::PageDown => {
            if input.scroll > 0 {
                input.scroll = input.scroll - 1;
            }
        },
        Key::Enter => {
            let line = input.take();
            return if line.as_str().is_empty() {
                UiAction::Nothing
            } else {
                UiAction::Submit(line)
            };
        },
        Key::Other => {
            return UiAction::Nothing;
        },
    }
    UiAction::Redraw
}

/// Whatever is typed, the line stays within its limit.
pub proof fn law_line_stays_bounded(i: InputView, event: InputEvent)
    requires
        i.bounded(),
    ensures
        after_input(i, event).0.bounded(),
{
    let w = after_input(i, event).0;
    let all = i.text();
    if let InputEvent::Key { key, control, press } = event {
        if press {
            match key {
                Key::Char(c) => {
                    if w == typed(i, c) && w != i {
                        let one = seq![c];
                        assert(w.text() =~= i.before + (one + i.after));
                        text::lemma_utf8_concat(i.before, one + i.after);
                        text::lemma_utf8_concat(one, i.after);
                        text::lemma_utf8_concat(i.before, i.after);
                        text::lemma_utf8_len(one);
                    } else {
                        assert(emptied(i).text() =~= Seq::<char>::empty());
                    }
                },
                Key::Backspace => {
                    if i.before.len() > 0 {
                        let rest = i.before.drop_last();
                        let one = seq![i.before.last()];
                        assert(i.before =~= rest + one);
                        text::lemma_utf8_concat(rest, one);
                        text::lemma_utf8_concat(i.before, i.after);
                        text::lemma_utf8_concat(rest, i.after);
                    }
                },
                Key::Delete => {
                    if i.after.len() > 0 {
                        let rest = i.after.skip(1);
                        let one = seq![i.after[0]];
                        assert(i.after =~= one + rest);
                        text::lemma_utf8_concat(one, rest);
                        text::lemma_utf8_concat(i.before, i.after);
                        text::lemma_utf8_concat(i.before, rest);
                    }
                },
                Key::Enter => {
                    assert(w.text() =~= Seq::<char>::empty());
                },
                _ => {
                    assert(w.text() =~= all);
                },
            }
        }
    }
}

/// A line that is submitted always fits a frame, and it is not empty.
pub proof fn law_submitted_line_fits(i: InputView, event: InputEvent, nick: Seq<char>)
    requires
        i.bounded(),
        nick.len() < MAX_NICK_LEN,
        after_input(i, event).1 is Submit,
    ensures
        after_input(i, event).1->Submit_0.len() > 0,
        protocol::frame_fault(CHAT_TYPE_MSG, nick, after_input(i, event).1->Submit_0) is None,
{
    protocol::law_frame_fits(CHAT_TYPE_MSG, nick, i.text());
}

/// Moving the cursor to the left and then to the right again, or erasing what was typed, leaves the
/// line as it was.
pub proof fn law_keys_undo(i: InputView, ch: char)
    ensures
        i.before.len() > 0 ==> moved_right(moved_left(i)) == i,
        i.after.len() > 0 ==> moved_left(moved_right(i)) == i,
        encode_utf8(i.text()).len() < MAX_TEXT_LEN - 1 ==> erased(typed(i, ch)) == i,
        moved_left(i).text() == i.text(),
        moved_right(i).text() == i.text(),
{
    if i.before.len() > 0 {
        let l = moved_left(i);
        assert(l.text() =~= i.text());
        assert(l.before.push(l.after[0]) =~= i.before);
        assert(l.after.skip(1) =~= i.after);
        assert(moved_right(l) =~= i);
    }
    if i.after.len() > 0 {
        let r = moved_right(i);
        assert(r.text() =~= i.text());
        assert(r.before.drop_last() =~= i.before);
        assert(seq![r.before.last()] + r.after =~= i.after);
        assert(moved_left(r) =~= i);
    }
    if encode_utf8(i.text()).len() < MAX_TEXT_LEN - 1 {
        assert(typed(i, ch).before.drop_last() =~= i.before);
        assert(erased(typed(i, ch)) =~= i);
    }
}

/// A piece of text in one colour; without a colour it has that of what it stands on.
pub struct Span {
    pub text: String,
    pub fg: Option<Rgb>,
    pub bold: bool,
}

/// A piece of text in one colour, in plain values.
#[verifier::ext_equal]
pub struct SpanView {
    pub text: Seq<char>,
    pub fg: Option<Rgb>,
    pub bold: bool,
}

impl View for Span {
    type V = SpanView;

    open spec fn view(&self) -> SpanView {
        SpanView { text: self.text@, fg: self.fg, bold: self.bold }
    }
}

/// A line, in plain values.
pub open spec fn spans(line: Seq<Span>) -> Seq<SpanView> {
    line.map_values(|s: Span| s@)
}

/// Lines, in plain values.
pub open spec fn rows(lines: Seq<Vec<Span>>) -> Seq<Seq<SpanView>> {
    lines.map_values(|l: Vec<Span>| spans(l@))
}

/// Text without a colour of its own.
pub open spec fn raw(t: Seq<char>) -> SpanView {
    SpanView { text: t, fg: None, bold: false }
}

/// Text in a colour.
pub open spec fn tinted(t: Seq<char>, c: Rgb) -> SpanView {
    SpanView { text: t, fg: Some(c), bold: false }
}

/// Bold text in a colour.
pub open spec fn strong(t: Seq<char>, c: Rgb) -> SpanView {
    SpanView { text: t, fg: Some(c), bold: true }
}

fn put_raw(line: &mut Vec<Span>, t: &str)
    ensures
        spans(final(line)@) == spans(old(line)@).push(raw(t@)),
{
    line.push(Span { text: t.to_owned(), fg: None, bold: false });
    proof {
        assert(spans(line@) =~= spans(old(line)@).push(raw(t@)));
    }
}

fn put_tinted(line: &mut Vec<Span>, t: &str, c: Rgb)
    ensures
        spans(final(line)@) == spans(old(line)@).push(tinted(t@, c)),
{
    line.push(Span { text: t.to_owned(), fg: Some(c), bold: false });
    proof {
        assert(spans(line@) =~= spans(old(line)@).push(tinted(t@, c)));
    }
}

fn put_strong(line: &mut Vec<Span>, t: &str, c: Rgb)
    ensures
        spans(final(line)@) == spans(old(line)@).push(strong(t@, c)),
{
    line.push(Span { text: t.to_owned(), fg: Some(c), bold: true });
    proof {
        assert(spans(line@) =~= spans(old(line)@).push(strong(t@, c)));
    }
}

fn new_line() -> (r: Vec<Span>)
    ensures
        spans(r@) == Seq::<SpanView>::empty(),
{
    let r: Vec<Span> = Vec::new();
    proof {
        assert(spans(r@) =~= Seq::<SpanView>::empty());
    }
    r
}

fn put_line(lines: &mut Vec<Vec<Span>>, line: Vec<Span>)
    ensures
        rows(final(lines)@) == rows(old(lines)@).push(spans(line@)),
{
    lines.push(line);
    proof {
        assert(rows(lines@) =~= rows(old(lines)@).push(spans(line@)));
    }
}

fn new_lines() -> (r: Vec<Vec<Span>>)
    ensures
        rows(r@) == Seq::<Seq<SpanView>>::empty(),
{
    let r: Vec<Vec<Span>> = Vec::new();
    proof {
        assert(rows(r@) =~= Seq::<Seq<SpanView>>::empty());
    }
    r
}

/// The messages received and sent over the connections whose handshake is done, as far as a count
/// holds them.
pub open spec fn msg_stats(peers: Seq<PeerView>) -> (u64, u64)
    decreases peers.len(),
{
    if peers.len() == 0 {
        (0, 0)
    } else {
        let (rx, tx) = msg_stats(peers.drop_last());
        let p = peers.last();
        if p.info.handshake_done {
            (rx.wrapping_add(p.info.msgs_rx), tx.wrapping_add(p.info.msgs_tx))
        } else {
            (rx, tx)
        }
    }
}

/// Counts the messages received and sent.
pub fn collect_msg_stats(app: &AppState) -> (r: (u64, u64))
    ensures
        r == msg_stats(app@.peers),
{
    let mut rx: u64 = 0;
    let mut tx: u64 = 0;
    let n: usize = app.peers.len();
    let mut i: usize = 0;
    while i < n
        invariant
            i <= n,
            n == app.peers@.len(),
            (rx, tx) == msg_stats(app@.peers.take(i as int)),
        decreases n - i,
    {
        proof {
            assert(app@.peers.take(i + 1).drop_last() =~= app@.peers.take(i as int));
            assert(app@.peers[i as int] == app.peers@[i as int]@);
        }
        if app.peers[i].info.handshake_done {
            rx = rx.wrapping_add(app.peers[i].info.msgs_rx);
            tx = tx.wrapping_add(app.peers[i].info.msgs_tx);
        }
        i += 1;
    }
    proof {
        assert(app@.peers.take(n as int) =~= app@.peers);
    }
    (rx, tx)
}

/// The address that this peer listens on.
pub open spec fn listen_text(v: AppView) -> Seq<char> {
    v.lan_ip + ":"@ + text::dec(v.listen_port as nat)
}

fn listen_string(app: &AppState) -> (r: String)
    ensures
        r@ == listen_text(app@),
{
    let port = text::dec_string(app.listen_port as u64);
    text::cat3(app.lan_ip.as_str(), ":", port.as_str())
}

/// The line at the top.
pub open spec fn header_line(v: AppView) -> Seq<SpanView> {
    let t = v.theme;
    let online = app::online(v.peers).len();
    let (rx, tx) = msg_stats(v.peers);
    seq![
        strong(" speer-chat "@, t.accent),
        tinted("Noise"@, t.peers[3]),
        tinted(" / "@, t.dim),
        tinted("Yamux"@, t.peers[1]),
        tinted(" / "@, t.dim),
        tinted("mDNS+WAN"@, t.peers[2]),
        raw("   "@),
        tinted(listen_text(v), t.fg),
        raw("   "@),
        tinted("rx "@ + text::dec(rx as nat) + " / tx "@ + text::dec(tx as nat), t.dim),
        raw("   "@),
        if online > 0 {
            tinted(text::dec(online) + " online"@, t.peers[2])
        } else {
            tinted("discovering"@, t.dim)
        },
    ]
}

/// The line at the top: the protocols, the address, the counts, and how many peers are online.
pub fn render_header(app: &AppState) -> (r: Vec<Span>)
    ensures
        spans(r@) == header_line(app@),
{
    let t = app.theme;
    let online: usize = app.connected_peers().len();
    let (rx, tx) = collect_msg_stats(app);
    let listen = listen_string(app);
    let rx_text = text::dec_string(rx);
    let tx_text = text::dec_string(tx);
    let counts = text::cat4("rx ", rx_text.as_str(), " / tx ", tx_text.as_str());
    let mut line = new_line();
    put_strong(&mut line, " speer-chat ", t.accent);
    put_tinted(&mut line, "Noise", t.peers[3]);
    put_tinted(&mut line, " / ", t.dim);
    put_tinted(&mut line, "Yamux", t.peers[1]);
    put_tinted(&mut line, " / ", t.dim);
    put_tinted(&mut line, "mDNS+WAN", t.peers[2]);
    put_raw(&mut line, "   ");
    put_tinted(&mut line, listen.as_str(), t.fg);
    put_raw(&mut line, "   ");
    put_tinted(&mut line, counts.as_str(), t.dim);
    put_raw(&mut line, "   ");
    if online > 0 {
        let n_text = text::dec_string(online as u64);
        let shown = text::cat2(n_text.as_str(), " online");
        put_tinted(&mut line, shown.as_str(), t.peers[2]);
    } else {
        put_tinted(&mut line, "discovering", t.dim);
    }
    proof {
        assert(spans(line@) =~= header_line(app@));
    }
    line
}

/// The two lines for one peer.
pub open spec fn peer_rows(info: InfoView, i: int, t: ThemeView) -> Seq<Seq<SpanView>> {
    seq![
        seq![tinted("● "@ + info.display(), t.peers[i % 6])],
        seq![
            tinted(
                "  rx"@ + text::dec(info.msgs_rx as nat) + " tx"@ + text::dec(info.msgs_tx as nat),
                t.dim,
            ),
        ],
    ]
}

/// The lines for these peers.
pub open spec fn peers_rows(peers: Seq<PeerView>, t: ThemeView) -> Seq<Seq<SpanView>>
    decreases peers.len(),
{
    if peers.len() == 0 {
        Seq::empty()
    } else {
        peers_rows(peers.drop_last(), t) + peer_rows(peers.last().info, peers.len() - 1, t)
    }
}

/// The lines on the left.
pub open spec fn sidebar_rows(v: AppView, mono: u64) -> Seq<Seq<SpanView>> {
    let t = v.theme;
    let peers = app::online(v.peers);
    seq![
        seq![strong("local"@, t.dim)],
        seq![tinted("● "@ + v.nick, t.peers[0])],
        seq![tinted(util::short_pid(v.identity.peer_id), t.dim)],
        Seq::empty(),
        seq![
            tinted("uptime "@, t.dim),
            tinted(util::duration_text(util::elapsed(v.started_at, mono)), t.fg),
        ],
        Seq::empty(),
        seq![strong("peers"@, t.dim)],
    ] + (if peers.len() == 0 {
        seq![
            seq![tinted("waiting for peers"@, t.dim)],
            seq![tinted("/connect <addr>"@, t.accent)],
        ]
    } else {
        peers_rows(peers, t)
    })
}

fn put_peer(lines: &mut Vec<Vec<Span>>, info: &PeerInfo, i: usize, t: &Theme)
    ensures
        rows(final(lines)@) == rows(old(lines)@) + peer_rows(info@, i as int, t@),
{
    let name = info.display();
    let shown = text::cat2("● ", name.as_str());
    let mut first = new_line();
    put_tinted(&mut first, shown.as_str(), t.peers[i % 6]);
    let rx_text = text::dec_string(info.msgs_rx);
    let tx_text = text::dec_string(info.msgs_tx);
    let counts = text::cat4("  rx", rx_text.as_str(), " tx", tx_text.as_str());
    let mut second = new_line();
    put_tinted(&mut second, counts.as_str(), t.dim);
    proof {
        assert(spans(first@) =~= peer_rows(info@, i as int, t@)[0]);
        assert(spans(second@) =~= peer_rows(info@, i as int, t@)[1]);
    }
    put_line(lines, first);
    put_line(lines, second);
    proof {
        assert(rows(lines@) =~= rows(old(lines)@) + peer_rows(info@, i as int, t@));
    }
}

fn put_one(lines: &mut Vec<Vec<Span>>, t: &str, c: Rgb, bold: bool)
    ensures
        rows(final(lines)@) == rows(old(lines)@).push(
            seq![
                if bold {
                    strong(t@, c)
                } else {
                    tinted(t@, c)
                },
            ],
        ),
{
    let mut line = new_line();
    if bold {
        put_strong(&mut line, t, c);
    } else {
        put_tinted(&mut line, t, c);
    }
    proof {
        assert(spans(line@) =~= seq![
            if bold {
                strong(t@, c)
            } else {
                tinted(t@, c)
            },
        ]);
    }
    put_line(lines, line);
}

/// The lines on the left: this peer, how long it has run, and the peers that are online; nothing
/// where there is no room. `mono` is the reading of a clock that never goes back.
pub fn render_sidebar(app: &AppState, width: u16, mono: u64) -> (r: Option<Vec<Vec<Span>>>)
    requires
        app@.sound(),
    ensures
        r is None <==> width == 0,
        r matches Some(lines) ==> rows(lines@) == sidebar_rows(app@, mono),
{
    if width == 0 {
        return None;
    }
    let t = app.theme;
    let mut lines = new_lines();
    let me = text::cat2("● ", app.nick.as_str());
    let short = util::truncate_pid(app.identity.peer_id.as_str());
    let uptime = util::fmt_duration(util::elapsed_secs(app.started_at, mono));
    put_one(&mut lines, "local", t.dim, true);
    put_one(&mut lines, me.as_str(), t.peers[0], false);
    put_one(&mut lines, short.as_str(), t.dim, false);
    put_line(&mut lines, new_line());
    let mut up = new_line();
    put_tinted(&mut up, "uptime ", t.dim);
    put_tinted(&mut up, uptime.as_str(), t.fg);
    proof {
        assert(spans(up@) =~= seq![
            tinted("uptime "@, app@.theme.dim),
            tinted(
                util::duration_text(util::elapsed(app@.started_at, mono)),
                app@.theme.fg,
            ),
        ]);
    }
    put_line(&mut lines, up);
    put_line(&mut lines, new_line());
    put_one(&mut lines, "peers", t.dim, true);
    let peers = app.connected_peers();
    let n: usize = peers.len();
    if n == 0 {
        put_one(&mut lines, "waiting for peers", t.dim, false);
        put_one(&mut lines, "/connect <addr>", t.accent, false);
        proof {
            assert(rows(lines@) =~= sidebar_rows(app@, mono));
        }
        return Some(lines);
    }
    let ghost head = rows(lines@);
    let ghost online = app::online(app@.peers);
    let mut i: usize = 0;
    proof {
        assert(rows(lines@) =~= head + peers_rows(online.take(0), t@));
    }
    while i < n
        invariant
            i <= n,
            n == peers@.len(),
            n == online.len(),
            online == app::online(app@.peers),
            forall|j: int| 0 <= j < n ==> (#[trigger] peers@[j])@ == online[j],
            rows(lines@) == head + peers_rows(online.take(i as int), t@),
        decreases n - i,
    {
        let ghost before = rows(lines@);
        proof {
            assert(online.take(i + 1).drop_last() =~= online.take(i as int));
            assert(peers@[i as int]@ == online[i as int]);
        }
        put_peer(&mut lines, &peers[i].info, i, &t);
        proof {
            assert(rows(lines@) =~= head + peers_rows(online.take(i + 1), t@));
        }
        i += 1;
    }
    proof {
        assert(online.take(n as int) =~= online);
        assert(rows(lines@) =~= sidebar_rows(app@, mono));
    }
    Some(lines)
}

/// `s` with spaces behind it up to a width.
pub open spec fn padded(s: Seq<char>, width: nat) -> Seq<char>
    decreases width - s.len(),
{
    if s.len() < width {
        padded(s.push(' '), width)
    } else {
        s
    }
}

fn pad(s: &str, width: usize) -> (r: String)
    ensures
        r@ == padded(s@, width as nat),
{
    let mut chars = text::chars_of(s);
    while chars.len() < width
        invariant
            padded(s@, width as nat) == padded(chars@, width as nat),
        decreases width - chars@.len(),
    {
        chars.push(' ');
    }
    text::string_of(chars.as_slice())
}

/// The mark, the name and the colour of a line of the chat.
pub open spec fn message_style(m: MessageView, t: ThemeView) -> (Seq<char>, Seq<char>, Rgb) {
    match m.kind {
        MsgKind::Chat => (
            "▌"@,
            padded(util::or_else(m.nick, "unknown"@), 12),
            t.peers[m.color_idx],
        ),
        MsgKind::Join => ("+"@, "join        "@, t.peers[m.color_idx]),
        MsgKind::Leave => ("-"@, "leave       "@, t.peers[4]),
        MsgKind::System => ("·"@, "system      "@, t.dim),
        MsgKind::Error => ("!"@, "error       "@, t.peers[0]),
    }
}

/// What is left of a width.
pub open spec fn less(width: u16, n: int) -> nat {
    if width > n {
        (width - n) as nat
    } else {
        0
    }
}

/// A line of the chat, as it is shown in this width.
pub open spec fn message_line(m: MessageView, t: ThemeView, width: u16) -> Seq<SpanView> {
    let (mark, name, color) = message_style(m, t);
    seq![
        tinted("["@ + util::clock_text(m.timestamp as nat) + "] "@, t.timestamp),
        strong(mark, color),
        raw(" "@),
        strong(name, color),
        tinted(util::clipped(m.text, less(width, 32)), t.fg),
    ]
}

fn shown_message(m: &Message, t: &Theme, width: u16) -> (r: Vec<Span>)
    requires
        m.color_idx < 6,
    ensures
        spans(r@) == message_line(m@, t@, width),
{
    let clock = util::fmt_time(m.timestamp);
    let stamp = text::cat3("[", clock.as_str(), "] ");
    let (mark, name, color) = match m.kind {
        MsgKind::Chat => {
            let nick = if m.nick.as_str().is_empty() { "unknown" } else { m.nick.as_str() };
            ("▌", pad(nick, 12), t.peers[m.color_idx])
        },
        MsgKind::Join => ("+", "join        ".to_owned(), t.peers[m.color_idx]),
        MsgKind::Leave => ("-", "leave       ".to_owned(), t.peers[4]),
        MsgKind::System => ("·", "system      ".to_owned(), t.dim),
        MsgKind::Error => ("!", "error       ".to_owned(), t.peers[0]),
    };
    let room: usize = if width > 32 { width as usize - 32 } else { 0 };
    let body = util::clip(m.text.as_str(), room);
    let mut line = new_line();
    put_tinted(&mut line, stamp.as_str(), t.timestamp);
    put_strong(&mut line, mark, color);
    put_raw(&mut line, " ");
    put_strong(&mut line, name.as_str(), color);
    put_tinted(&mut line, body.as_str(), t.fg);
    proof {
        assert(spans(line@) =~= message_line(m@, t@, width));
    }
    line
}

/// The lines that are shown while nothing was said yet.
pub open spec fn welcome_rows(t: ThemeView) -> Seq<Seq<SpanView>> {
    seq![
        seq![strong("speer-chat midnight"@, t.accent)],
        seq![
            tinted(
                "LAN peers appear automatically. Use /connect <addr> for wide-area peers."@,
                t.dim,
            ),
        ],
    ]
}

/// Which lines of the chat are shown in this height, with so many of the newest ones scrolled away:
/// the first one, and the one behind the last.
pub open spec fn shown_range(len: nat, height: u16, scroll: nat) -> (int, int) {
    let max = less(height, 2);
    let end = if len > scroll {
        len - scroll
    } else {
        0
    };
    let start = if end > max {
        end - max
    } else {
        0
    };
    (
        start,
        if start + max < len {
            start + max
        } else {
            len as int
        },
    )
}

/// The lines of the chat that are shown.
pub open spec fn chat_rows(
    history: Seq<MessageView>,
    t: ThemeView,
    width: u16,
    height: u16,
    scroll: nat,
) -> Seq<Seq<SpanView>> {
    let (start, stop) = shown_range(history.len(), height, scroll);
    Seq::new((stop - start) as nat, |i: int| message_line(history[start + i], t, width))
}

/// What is shown of the chat.
pub struct ChatLines {
    /// Whether nothing was said yet.
    pub welcome: bool,
    pub lines: Vec<Vec<Span>>,
}

/// The lines of the chat that fit, or a welcome while nothing was said yet.
pub fn render_messages(app: &AppState, width: u16, height: u16, scroll: usize) -> (r: ChatLines)
    requires
        app@.sound(),
    ensures
        r.welcome == (app@.history.len() == 0),
        rows(r.lines@) == (if app@.history.len() == 0 {
            welcome_rows(app@.theme)
        } else {
            chat_rows(app@.history, app@.theme, width, height, scroll as nat)
        }),
{
    let t = app.theme;
    let mut lines = new_lines();
    let len: usize = app.history.len();
    if len == 0 {
        put_one(&mut lines, "speer-chat midnight", t.accent, true);
        put_one(
            &mut lines,
            "LAN peers appear automatically. Use /connect <addr> for wide-area peers.",
            t.dim,
            false,
        );
        proof {
            assert(rows(lines@) =~= welcome_rows(app@.theme));
        }
        return ChatLines { welcome: true, lines };
    }
    let max: usize = if height > 2 { height as usize - 2 } else { 0 };
    let end: usize = if len > scroll { len - scroll } else { 0 };
    let start: usize = if end > max { end - max } else { 0 };
    let stop: usize = if max < len - start { start + max } else { len };
    let ghost all = chat_rows(app@.history, app@.theme, width, height, scroll as nat);
    let mut i: usize = start;
    proof {
        assert(rows(lines@) =~= all.take(0));
    }
    while i < stop
        invariant
            start <= i <= stop,
            stop <= len,
            len == app.history@.len(),
            app@.sound(),
            t == app.theme,
            shown_range(len as nat, height, scroll as nat) == (start as int, stop as int),
            all == chat_rows(app@.history, app@.theme, width, height, scroll as nat),
            rows(lines@) == all.take(i - start),
        decreases stop - i,
    {
        proof {
            assert(app@.history[i as int] == app.history@[i as int]@);
            assert(app@.history[i as int].color_idx < 6);
        }
        let line = shown_message(&app.history[i], &t, width);
        proof {
            assert(all[i - start] == spans(line@));
            assert(all.take(i - start + 1) =~= all.take(i - start).push(all[i - start]));
        }
        put_line(&mut lines, line);
        i += 1;
    }
    proof {
        assert(all.take(stop - start) =~= all);
    }
    ChatLines { welcome: false, lines }
}

/// The mark and the colour of a line of the network log.
pub open spec fn level_style(level: NetLevel, t: ThemeView) -> (Seq<char>, Rgb) {
    match level {
        NetLevel::Info => ("net"@, t.dim),
        NetLevel::Okay => ("ok "@, t.peers[2]),
        NetLevel::Warn => ("wrn"@, t.peers[4]),
        NetLevel::Error => ("err"@, t.peers[0]),
        NetLevel::Traffic => ("io "@, t.peers[3]),
    }
}

/// A line of the network log, as it is shown in this width.
pub open spec fn entry_line(e: NetView, t: ThemeView, width: u16) -> Seq<SpanView> {
    let (mark, color) = level_style(e.level, t);
    seq![
        tinted(util::clock_text(e.timestamp as nat), t.timestamp),
        raw(" "@),
        strong(mark, color),
        raw(" "@),
        tinted(util::clipped(e.text, less(width, 17)), color),
    ]
}

fn shown_entry(e: &NetEntry, t: &Theme, width: u16) -> (r: Vec<Span>)
    ensures
        spans(r@) == entry_line(e@, t@, width),
{
    let clock = util::fmt_time(e.timestamp);
    let (mark, color) = match e.level {
        NetLevel::Info => ("net", t.dim),
        NetLevel::Okay => ("ok ", t.peers[2]),
        NetLevel::Warn => ("wrn", t.peers[4]),
        NetLevel::Error => ("err", t.peers[0]),
        NetLevel::Traffic => ("io ", t.peers[3]),
    };
    let room: usize = if width > 17 { width as usize - 17 } else { 0 };
    let body = util::clip(e.text.as_str(), room);
    let mut line = new_line();
    put_tinted(&mut line, clock.as_str(), t.timestamp);
    put_raw(&mut line, " ");
    put_strong(&mut line, mark, color);
    put_raw(&mut line, " ");
    put_tinted(&mut line, body.as_str(), color);
    proof {
        assert(spans(line@) =~= entry_line(e@, t@, width));
    }
    line
}

/// The lines on the network itself.
pub open spec fn meta_rows(v: AppView) -> Seq<Seq<SpanView>> {
    let t = v.theme;
    seq![
        seq![strong("mesh  discovering"@, t.peers[2])],
        seq![tinted("TCP   "@, t.dim), tinted(listen_text(v), t.fg)],
        seq![tinted("path  "@, t.dim), tinted("Noise / Yamux / Chat"@, t.peers[3])],
    ]
}

/// The newest lines of the network log, as many as fit this height.
pub open spec fn event_rows(v: AppView, width: u16, height: u16) -> Seq<Seq<SpanView>> {
    let max = less(height, 2);
    let start = if v.netlog.len() > max {
        v.netlog.len() - max
    } else {
        0
    };
    Seq::new((v.netlog.len() - start) as nat, |i: int| entry_line(v.netlog[start + i], v.theme, width))
}

fn network_lines(app: &AppState) -> (r: Vec<Vec<Span>>)
    ensures
        rows(r@) == meta_rows(app@),
{
    let t = app.theme;
    let listen = listen_string(app);
    let mut lines = new_lines();
    put_one(&mut lines, "mesh  discovering", t.peers[2], true);
    let mut tcp = new_line();
    put_tinted(&mut tcp, "TCP   ", t.dim);
    put_tinted(&mut tcp, listen.as_str(), t.fg);
    proof {
        assert(spans(tcp@) =~= meta_rows(app@)[1]);
    }
    put_line(&mut lines, tcp);
    let mut path = new_line();
    put_tinted(&mut path, "path  ", t.dim);
    put_tinted(&mut path, "Noise / Yamux / Chat", t.peers[3]);
    proof {
        assert(spans(path@) =~= meta_rows(app@)[2]);
    }
    put_line(&mut lines, path);
    proof {
        assert(rows(lines@) =~= meta_rows(app@));
    }
    lines
}

fn event_lines(app: &AppState, width: u16, height: u16) -> (r: Vec<Vec<Span>>)
    ensures
        rows(r@) == event_rows(app@, width, height),
{
    let t = app.theme;
    let mut lines = new_lines();
    let len: usize = app.netlog.len();
    let max: usize = if height > 2 { height as usize - 2 } else { 0 };
    let start: usize = if len > max { len - max } else { 0 };
    let ghost all = event_rows(app@, width, height);
    let mut i: usize = start;
    proof {
        assert(rows(lines@) =~= all.take(0));
    }
    while i < len
        invariant
            start <= i <= len,
            len == app.netlog@.len(),
            t == app.theme,
            start == (if len > less(height, 2) {
                len - less(height, 2)
            } else {
                0
            }),
            all == event_rows(app@, width, height),
            rows(lines@) == all.take(i - start),
        decreases len - i,
    {
        proof {
            assert(app@.netlog[i as int] == app.netlog@[i as int]@);
        }
        let line = shown_entry(&app.netlog[i], &t, width);
        proof {
            assert(all[i - start] == spans(line@));
            assert(all.take(i - start + 1) =~= all.take(i - start).push(all[i - start]));
        }
        put_line(&mut lines, line);
        i += 1;
    }
    proof {
        assert(all.take(len - start) =~= all);
    }
    lines
}

/// What is shown on the network: a few lines on this peer, and the newest lines of the log.
pub struct NetLines {
    pub meta: Vec<Vec<Span>>,
    pub events: Vec<Vec<Span>>,
}

/// What is shown on the network, or nothing where there is no room. `events` is the place for the
/// lines of the log.
pub fn render_netlog(app: &AppState, width: u16, events: Area) -> (r: Option<NetLines>)
    ensures
        r is None <==> width == 0,
        r matches Some(n) ==> rows(n.meta@) == meta_rows(app@) && rows(n.events@) == event_rows(
            app@,
            events.width,
            events.height,
        ),
{
    if width == 0 {
        return None;
    }
    Some(
        NetLines {
            meta: network_lines(app),
            events: event_lines(app, events.width, events.height),
        },
    )
}

/// The line that is being typed, as it is shown.
pub open spec fn input_line(v: AppView, i: InputView) -> Seq<SpanView> {
    let t = v.theme;
    seq![
        strong(v.nick, t.peers[util::color_of(v.identity.peer_id)]),
        strong(" : "@, t.accent),
        tinted(i.text(), t.fg),
    ]
}

/// The line that is being typed, behind the nick.
pub fn render_input(app: &AppState, input: &InputState) -> (r: Vec<Span>)
    requires
        input.wf(),
    ensures
        spans(r@) == input_line(app@, input@),
{
    let t = app.theme;
    proof {
        input.lemma_text();
    }
    let color: usize = util::color_idx(app.identity.peer_id.as_str());
    let mut line = new_line();
    put_strong(&mut line, app.nick.as_str(), t.peers[color]);
    put_strong(&mut line, " : ", t.accent);
    put_tinted(&mut line, input.buf.as_str(), t.fg);
    proof {
        assert(spans(line@) =~= input_line(app@, input@));
    }
    line
}

/// The label at the bottom, in this width.
pub open spec fn status_label(v: AppView, width: u16) -> Seq<char> {
    let (rx, tx) = msg_stats(v.peers);
    (if width < 90 {
        " /connect /help     "@
    } else {
        " /connect /status /inspect /id /peers /clear /send /accept /theme /quit     "@
    }) + text::dec(app::online(v.peers).len()) + " peers  "@ + text::dec(rx as nat) + "/"@
        + text::dec(tx as nat) + " msg "@
}

/// The bar at the bottom. It is full where a peer is online.
pub struct Status {
    pub label: String,
    pub color: Rgb,
    pub full: bool,
}

/// The bar at the bottom: some commands and the counts.
pub fn render_status(app: &AppState, width: u16) -> (r: Status)
    ensures
        r.label@ == status_label(app@, width),
        r.full == (app::online(app@.peers).len() > 0),
        r.color == (if r.full {
            app@.theme.peers[2]
        } else {
            app@.theme.accent
        }),
{
    let peers: usize = app.connected_peers().len();
    let (rx, tx) = collect_msg_stats(app);
    let peers_text = text::dec_string(peers as u64);
    let rx_text = text::dec_string(rx);
    let tx_text = text::dec_string(tx);
    let commands = if width < 90 {
        " /connect /help     "
    } else {
        " /connect /status /inspect /id /peers /clear /send /accept /theme /quit     "
    };
    let mut label = text::cat6(
        commands,
        peers_text.as_str(),
        " peers  ",
        rx_text.as_str(),
        "/",
        tx_text.as_str(),
    );
    label.append(" msg ");
    let full = peers > 0;
    let color = if full { app.theme.peers[2] } else { app.theme.accent };
    Status { label, color, full }
}

/// A rectangle of cells.
#[derive(Clone, Copy, PartialEq, Eq, Structural, Debug)]
pub struct Area {
    pub x: u16,
    pub y: u16,
    pub width: u16,
    pub height: u16,
}

/// Which way an area is split.
#[derive(Clone, Copy, PartialEq, Eq, Structural, Debug)]
pub enum Axis {
    Vertical,
    Horizontal,
}

/// How much of an area a part is to have: just so many cells, or at least so many.
#[derive(Clone, Copy, PartialEq, Eq, Structural, Debug)]
pub enum Track {
    Length(u16),
    Min(u16),
}

impl Track {
    /// The cells that a part asks for.
    pub open spec fn asks(self) -> nat {
        match self {
            Track::Length(n) => n as nat,
            Track::Min(n) => n as nat,
        }
    }

    /// Whether a part of this size has what it asks for.
    pub open spec fn met(self, size: u16) -> bool {
        match self {
            Track::Length(n) => size == n,
            Track::Min(n) => size >= n,
        }
    }

    /// Whether a part of this size has its share of a room that is too small for all: a length is
    /// cut before a minimum.
    pub open spec fn cut(self, size: u16, room: int) -> bool {
        match self {
            Track::Length(n) => size <= n,
            Track::Min(n) => size == if n < room {
                n as int
            } else {
                room
            },
        }
    }
}

/// The cells that parts ask for together.
pub open spec fn asked(tracks: Seq<Track>) -> nat
    decreases tracks.len(),
{
    if tracks.len() == 0 {
        0
    } else {
        asked(tracks.drop_last()) + tracks.last().asks()
    }
}

impl Area {
    /// Where the area starts along an axis.
    pub open spec fn start(self, axis: Axis) -> u16 {
        match axis {
            Axis::Vertical => self.y,
            Axis::Horizontal => self.x,
        }
    }

    /// The size of the area along an axis.
    pub open spec fn size(self, axis: Axis) -> u16 {
        match axis {
            Axis::Vertical => self.height,
            Axis::Horizontal => self.width,
        }
    }

    /// Where the area ends along an axis, as far as a coordinate can say.
    pub open spec fn stop(self, axis: Axis) -> int {
        if self.start(axis) + self.size(axis) < u16::MAX {
            self.start(axis) + self.size(axis)
        } else {
            u16::MAX as int
        }
    }

    /// The start and the size of the area along the other axis.
    pub open spec fn across(self, axis: Axis) -> (u16, u16) {
        match axis {
            Axis::Vertical => (self.x, self.width),
            Axis::Horizontal => (self.y, self.height),
        }
    }
}

/// Whether `parts` stand one behind the other from the start of `area` to its end, with nothing
/// between them.
pub open spec fn in_a_row(area: Area, axis: Axis, parts: Seq<Area>) -> bool {
    &&& parts.len() > 0 ==> parts[0].start(axis) == area.start(axis)
    &&& forall|i: int, j: int|
        0 <= i && j == i + 1 && j < parts.len() ==> (#[trigger] parts[i]).start(axis)
            + parts[i].size(axis) == (#[trigger] parts[j]).start(axis)
    &&& parts.len() > 0 ==> parts.last().start(axis) + parts.last().size(axis) == area.stop(axis)
}

/// Whether the rows of a screen that is too low for all share what the body leaves: the header comes
/// first, and the input line and the bar have as many each, with an odd one for the input line.
pub open spec fn shared_out(room: int, parts: Seq<Area>) -> bool {
    room >= 8 ==> {
        &&& parts[0].height == if room < 11 {
            room - 8
        } else {
            3
        }
        &&& parts[2].height == (room - 8 - parts[0].height + 1) / 2
    }
}

/// Whether `parts` split `area` along an axis: there is one for each track, all lie inside the area
/// and span it across, and they stand in a row and fill it. Where there is room for all each has what
/// it asks for, and otherwise its share of what there is.
pub open spec fn is_split(area: Area, axis: Axis, tracks: Seq<Track>, parts: Seq<Area>) -> bool {
    let room = area.stop(axis) - area.start(axis);
    &&& parts.len() == tracks.len()
    &&& forall|i: int|
        0 <= i < parts.len() ==> (#[trigger] parts[i]).across(axis) == area.across(axis)
            && area.start(axis) <= parts[i].start(axis) && parts[i].start(axis) + parts[i].size(
            axis,
        ) <= area.stop(axis)
    &&& in_a_row(area, axis, parts)
    &&& asked(tracks) <= room ==> forall|i: int|
        0 <= i < parts.len() ==> (#[trigger] tracks[i]).met(parts[i].size(axis))
    &&& asked(tracks) > room ==> forall|i: int|
        0 <= i < parts.len() ==> (#[trigger] tracks[i]).cut(parts[i].size(axis), room)
    &&& asked(tracks) > room && tracks == screen_tracks() ==> shared_out(room, parts)
}

/// Splits an area with `ratatui::layout::Layout::split`, from `Layout::default()` with this
/// direction and these constraints, which are those of one of the three layouts of the screen. The
/// claim is the one of [`is_split`]. The solver behind the call takes it as required that all parts
/// lie inside the area. What it wishes for besides it weighs, and what stands earlier here outweighs
/// what follows: no space before the first part, none between two parts, the minimum, the lengths,
/// that the part with the minimum grows, that space is left behind the last part, that neighbours
/// have the same size. So the parts are in a row, a length gives way before a minimum and both before
/// anything else, and the part with the minimum takes what is left. On a low screen the last wish
/// decides: the header grows towards the body beside it, and the two parts below the body become as
/// alike as their lengths allow, which rounding turns into whole rows. How much each of two columns
/// loses on a screen that reaches beyond the last coordinate is left open but for their bounds: more
/// than one way can then be as good as another.
#[verifier::external_body]
fn split_area(area: Area, axis: Axis, tracks: &Vec<Track>) -> (r: Vec<Area>)
    requires
        axis is Vertical ==> tracks@ == screen_tracks() || tracks@ == netlog_tracks(),
        axis is Horizontal ==> tracks@ == body_tracks(area.width),
    ensures
        is_split(area, axis, tracks@, r@),
{
    let direction = match axis {
        Axis::Vertical => Direction::Vertical,
        Axis::Horizontal => Direction::Horizontal,
    };
    let constraints = tracks.iter().map(|t| match t {
        Track::Length(n) => Constraint::Length(*n),
        Track::Min(n) => Constraint::Min(*n),
    });
    let rect = Rect { x: area.x, y: area.y, width: area.width, height: area.height };
    let parts = Layout::default().direction(direction).constraints(constraints).split(rect);
    parts.iter().map(|p| Area { x: p.x, y: p.y, width: p.width, height: p.height }).collect()
}

/// The rows of the screen: the header, the body, the input line and the bar at the bottom.
pub open spec fn screen_tracks() -> Seq<Track> {
    seq![Track::Length(3), Track::Min(8), Track::Length(3), Track::Length(1)]
}

/// The width of the left part of the body on a screen of this width.
pub open spec fn sidebar_width(width: u16) -> u16 {
    if width > 96 {
        28
    } else if width > 68 {
        23
    } else {
        0
    }
}

/// The width of the right part of the body on a screen of this width.
pub open spec fn netlog_width(width: u16) -> u16 {
    if width > 138 {
        42
    } else if width > 116 {
        34
    } else {
        0
    }
}

/// The columns of the body: the peers, the chat and the network.
pub open spec fn body_tracks(width: u16) -> Seq<Track> {
    seq![
        Track::Length(sidebar_width(width)),
        Track::Min(24),
        Track::Length(netlog_width(width)),
    ]
}

/// The rows of the network part.
pub open spec fn netlog_tracks() -> Seq<Track> {
    seq![Track::Length(6), Track::Min(4)]
}

/// Where everything stands on the screen. `body` holds `sidebar`, `messages` and `netlog`; `netlog`
/// holds `meta` and `events`.
#[derive(Clone, Copy, PartialEq, Eq, Structural, Debug)]
pub struct Areas {
    pub header: Area,
    pub body: Area,
    pub input: Area,
    pub status: Area,
    pub sidebar: Area,
    pub messages: Area,
    pub netlog: Area,
    pub meta: Area,
    pub events: Area,
}

/// Whether the screen is split into the header, the body, the input line and the bar from top to
/// bottom, the body into its three columns from left to right, and the last of these into the notes
/// on the network and the events, each as [`is_split`] says.
pub open spec fn arranged(area: Area, a: Areas) -> bool {
    &&& is_split(
        area,
        Axis::Vertical,
        screen_tracks(),
        seq![a.header, a.body, a.input, a.status],
    )
    &&& is_split(
        a.body,
        Axis::Horizontal,
        body_tracks(area.width),
        seq![a.sidebar, a.messages, a.netlog],
    )
    &&& is_split(a.netlog, Axis::Vertical, netlog_tracks(), seq![a.meta, a.events])
}

/// Where everything stands on a screen of this area. The body has its eight rows before the others
/// have theirs, and what is left when they have; the chat has what the columns beside it leave; and
/// the events have their four rows before the notes on the network have theirs, and what is left when
/// they have.
pub open spec fn laid_out(area: Area) -> Areas {
    let h = area.height as int;
    let top = if h >= 11 {
        3
    } else if h >= 8 {
        h - 8
    } else {
        0
    };
    let middle = if h >= 15 {
        h - 7
    } else if h >= 8 {
        8
    } else {
        h
    };
    let line = if h >= 15 {
        3
    } else {
        (h - top - middle + 1) / 2
    };
    let bar = h - top - middle - line;
    let left = sidebar_width(area.width);
    let right = netlog_width(area.width);
    let low = if middle >= 10 {
        middle - 6
    } else if middle >= 4 {
        4
    } else {
        middle
    };
    let body = Area { y: (area.y + top) as u16, height: middle as u16, ..area };
    let netlog = Area { x: (area.x + area.width - right) as u16, width: right, ..body };
    Areas {
        header: Area { height: top as u16, ..area },
        body,
        input: Area { y: (area.y + top + middle) as u16, height: line as u16, ..area },
        status: Area { y: (area.y + h - bar) as u16, height: bar as u16, ..area },
        sidebar: Area { width: left, ..body },
        messages: Area {
            x: (area.x + left) as u16,
            width: (area.width - left - right) as u16,
            ..body
        },
        netlog,
        meta: Area { height: (middle - low) as u16, ..netlog },
        events: Area { y: (area.y + top + middle - low) as u16, height: low as u16, ..netlog },
    }
}

/// Whether coordinates reach to the end of an area.
pub open spec fn reachable(area: Area) -> bool {
    area.x + area.width <= u16::MAX && area.y + area.height <= u16::MAX
}

fn arrange(area: Area) -> (r: Areas)
    ensures
        arranged(area, r),
        reachable(area) ==> r == laid_out(area),
{
    let sidebar_w: u16 = if area.width > 96 {
        28
    } else if area.width > 68 {
        23
    } else {
        0
    };
    let netlog_w: u16 = if area.width > 138 {
        42
    } else if area.width > 116 {
        34
    } else {
        0
    };
    let screen: Vec<Track> = vec![
        Track::Length(3),
        Track::Min(8),
        Track::Length(3),
        Track::Length(1),
    ];
    let columns: Vec<Track> = vec![
        Track::Length(sidebar_w),
        Track::Min(24),
        Track::Length(netlog_w),
    ];
    let log: Vec<Track> = vec![Track::Length(6), Track::Min(4)];
    proof {
        assert(screen@ =~= screen_tracks());
        assert(columns@ =~= body_tracks(area.width));
        assert(log@ =~= netlog_tracks());
    }
    let outer = split_area(area, Axis::Vertical, &screen);
    proof {
        assert(outer@[1].across(Axis::Vertical) == area.across(Axis::Vertical));
    }
    let body = split_area(outer[1], Axis::Horizontal, &columns);
    let parts = split_area(body[2], Axis::Vertical, &log);
    let r = Areas {
        header: outer[0],
        body: outer[1],
        input: outer[2],
        status: outer[3],
        sidebar: body[0],
        messages: body[1],
        netlog: body[2],
        meta: parts[0],
        events: parts[1],
    };
    proof {
        assert(outer@ =~= seq![r.header, r.body, r.input, r.status]);
        assert(body@ =~= seq![r.sidebar, r.messages, r.netlog]);
        assert(parts@ =~= seq![r.meta, r.events]);
        if reachable(area) {
            law_layout_is_settled(area, r);
        }
    }
    r
}

/// On a screen of any size everything has just one place.
pub proof fn law_layout_is_settled(area: Area, a: Areas)
    requires
        arranged(area, a),
        reachable(area),
    ensures
        a == laid_out(area),
{
    let s = screen_tracks();
    let b = body_tracks(area.width);
    let n = netlog_tracks();
    let outer = seq![a.header, a.body, a.input, a.status];
    let body = seq![a.sidebar, a.messages, a.netlog];
    let log = seq![a.meta, a.events];
    reveal_with_fuel(asked, 5);
    assert(s.drop_last() =~= seq![Track::Length(3), Track::Min(8), Track::Length(3)]);
    assert(s.drop_last().drop_last() =~= seq![Track::Length(3), Track::Min(8)]);
    assert(s.drop_last().drop_last().drop_last() =~= seq![Track::Length(3)]);
    assert(s.drop_last().drop_last().drop_last().drop_last() =~= Seq::<Track>::empty());
    assert(asked(s) == 15);
    assert(b.drop_last() =~= seq![b[0], b[1]]);
    assert(b.drop_last().drop_last() =~= seq![b[0]]);
    assert(b.drop_last().drop_last().drop_last() =~= Seq::<Track>::empty());
    assert(asked(b) == sidebar_width(area.width) + 24 + netlog_width(area.width));
    assert(n.drop_last() =~= seq![n[0]]);
    assert(n.drop_last().drop_last() =~= Seq::<Track>::empty());
    assert(asked(n) == 10);
    let room = area.stop(Axis::Vertical) - area.start(Axis::Vertical);
    assert(outer[0].across(Axis::Vertical) == area.across(Axis::Vertical));
    assert(outer[1].across(Axis::Vertical) == area.across(Axis::Vertical));
    assert(outer[2].across(Axis::Vertical) == area.across(Axis::Vertical));
    assert(outer[3].across(Axis::Vertical) == area.across(Axis::Vertical));
    if area.height >= 15 {
        assert(s[0].met(outer[0].height) && s[1].met(outer[1].height) && s[2].met(outer[2].height)
            && s[3].met(outer[3].height));
    } else {
        assert(s[0].cut(outer[0].height, room) && s[1].cut(outer[1].height, room) && s[2].cut(
            outer[2].height,
            room,
        ) && s[3].cut(outer[3].height, room));
    }
    let wide = a.body.stop(Axis::Horizontal) - a.body.start(Axis::Horizontal);
    assert(body[0].across(Axis::Horizontal) == a.body.across(Axis::Horizontal));
    assert(body[1].across(Axis::Horizontal) == a.body.across(Axis::Horizontal));
    assert(body[2].across(Axis::Horizontal) == a.body.across(Axis::Horizontal));
    if area.width >= 24 {
        assert(b[0].met(body[0].width) && b[1].met(body[1].width) && b[2].met(body[2].width));
    } else {
        assert(b[0].cut(body[0].width, wide) && b[1].cut(body[1].width, wide) && b[2].cut(
            body[2].width,
            wide,
        ));
    }
    let high = a.netlog.stop(Axis::Vertical) - a.netlog.start(Axis::Vertical);
    assert(log[0].across(Axis::Vertical) == a.netlog.across(Axis::Vertical));
    assert(log[1].across(Axis::Vertical) == a.netlog.across(Axis::Vertical));
    if a.body.height >= 10 {
        assert(n[0].met(log[0].height) && n[1].met(log[1].height));
    } else {
        assert(n[0].cut(log[0].height, high) && n[1].cut(log[1].height, high));
    }
}

/// All that is shown on the screen, and where.
pub struct Screen {
    pub areas: Areas,
    pub header: Vec<Span>,
    pub sidebar: Option<Vec<Vec<Span>>>,
    pub messages: ChatLines,
    pub netlog: Option<NetLines>,
    pub input: Vec<Span>,
    pub status: Status,
    pub cursor: (u16, u16),
}

/// Where the cursor stands: behind the nick and what is typed before it, as far as the input line
/// reaches. Coordinates wrap around.
pub open spec fn cursor_place(v: AppView, i: InputView, input: Area) -> (u16, u16) {
    let nick = (encode_utf8(v.nick).len() % 65536) as u16;
    let typed = (encode_utf8(i.before).len() % 65536) as u16;
    let x = input.x.wrapping_add(2).wrapping_add(nick).wrapping_add(3).wrapping_add(typed);
    let right = input.stop(Axis::Horizontal);
    let limit = if right > 2 {
        (right - 2) as u16
    } else {
        0
    };
    (
        if x < limit {
            x
        } else {
            limit
        },
        input.y.wrapping_add(1),
    )
}

/// Whether the screen shows this state and this input line.
pub open spec fn shows(s: Screen, v: AppView, i: InputView, mono: u64) -> bool {
    let a = s.areas;
    &&& spans(s.header@) == header_line(v)
    &&& s.sidebar is None <==> a.sidebar.width == 0
    &&& s.sidebar matches Some(lines) ==> rows(lines@) == sidebar_rows(v, mono)
    &&& s.messages.welcome == (v.history.len() == 0)
    &&& rows(s.messages.lines@) == (if v.history.len() == 0 {
        welcome_rows(v.theme)
    } else {
        chat_rows(v.history, v.theme, a.messages.width, a.messages.height, i.scroll)
    })
    &&& s.netlog is None <==> a.netlog.width == 0
    &&& s.netlog matches Some(n) ==> rows(n.meta@) == meta_rows(v) && rows(n.events@)
        == event_rows(v, a.events.width, a.events.height)
    &&& spans(s.input@) == input_line(v, i)
    &&& s.status.label@ == status_label(v, a.status.width)
    &&& s.status.full == (app::online(v.peers).len() > 0)
    &&& s.status.color == (if s.status.full {
        v.theme.peers[2]
    } else {
        v.theme.accent
    })
    &&& s.cursor == cursor_place(v, i, a.input)
}

/// What is shown where everything stands in these areas.
pub fn compose(app: &AppState, input: &InputState, areas: Areas, mono: u64) -> (r: Screen)
    requires
        app@.sound(),
        input.wf(),
    ensures
        r.areas == areas,
        shows(r, app@, input@, mono),
{
    let nick: u16 = (app.nick.as_str().as_bytes().len() % 65536) as u16;
    let typed: u16 = (input.cursor % 65536) as u16;
    let at = areas.input;
    let x: u16 = at.x.wrapping_add(2).wrapping_add(nick).wrapping_add(3).wrapping_add(typed);
    let right: u16 = if at.width < u16::MAX - at.x { at.x + at.width } else { u16::MAX };
    let limit: u16 = if right > 2 { right - 2 } else { 0 };
    let cursor_x: u16 = if x < limit { x } else { limit };
    proof {
        input.lemma_text();
    }
    Screen {
        areas,
        header: render_header(app),
        sidebar: render_sidebar(app, areas.sidebar.width, mono),
        messages: render_messages(
            app,
            areas.messages.width,
            areas.messages.height,
            input.scroll,
        ),
        netlog: render_netlog(app, areas.netlog.width, areas.events),
        input: render_input(app, input),
        status: render_status(app, areas.status.width),
        cursor: (cursor_x, at.y.wrapping_add(1)),
    }
}

/// All that is shown on a screen of this area, and where. `mono` is the reading of a clock that
/// never goes back.
pub fn draw_ui(app: &AppState, input: &InputState, area: Area, mono: u64) -> (r: Screen)
    requires
        app@.sound(),
        input.wf(),
    ensures
        arranged(area, r.areas),
        reachable(area) ==> r.areas == laid_out(area),
        shows(r, app@, input@, mono),
{
    compose(app, input, arrange(area), mono)
}

}
