//! What is typed and what is shown.
use vstd::prelude::*;
use vstd::string::*;
use vstd::utf8::*;

use crate::app;
use crate::app::{AppView, MessageView, MsgKind, NetLevel, NetView, PeerView, ThemeView};
use crate::promises::letters;
use crate::promises::people;
use crate::promises::transfers;
use crate::text;
use crate::tui;
use crate::tui::{Area, InputEvent, InputView, Key, Screen, UiActionView};
use crate::util;

verus! {

/// A character that is typed stands before the cursor, as long as the line has room; the rest of the
/// line stays. With the control key some end the chat, one empties the line, and the others are
/// typed all the same.
pub proof fn law_typing(i: InputView, c: char, control: bool)
    ensures
        ({
            let (r, action) = tui::after_input(
                i,
                InputEvent::Key { key: Key::Char(c), control, press: true },
            );
            let special = control && (c == 'c' || c == 'd' || c == 'u');
            &&& control && (c == 'c' || c == 'd') ==> r == i && action == UiActionView::Quit
            &&& control && c == 'u' ==> r.before.len() == 0 && r.after.len() == 0 && r.scroll
                == i.scroll && action == UiActionView::Redraw
            &&& !special && encode_utf8(i.before + i.after).len() < 1023 ==> r.before
                == i.before.push(c) && r.after == i.after && r.scroll == i.scroll && action
                == UiActionView::Redraw
            &&& !special && encode_utf8(i.before + i.after).len() >= 1023 ==> r == i && action
                == UiActionView::Redraw
        }),
{
}

/// The line is left with the key to enter it, whole and only where it is not empty; the next one
/// starts empty, and the newest messages are shown again.
pub proof fn law_entering(i: InputView, control: bool)
    ensures
        ({
            let (r, action) = tui::after_input(
                i,
                InputEvent::Key { key: Key::Enter, control, press: true },
            );
            &&& r.before.len() == 0 && r.after.len() == 0 && r.scroll == 0
            &&& i.before.len() + i.after.len() > 0 ==> action == UiActionView::Submit(
                i.before + i.after,
            )
            &&& i.before.len() + i.after.len() == 0 ==> action == UiActionView::Nothing
        }),
{
}

/// Moving the cursor changes no letter of the line, by one place, to its start or to its end; the
/// two keys that delete take the letter before the cursor or the one behind it; and the keys that
/// turn pages move through the messages alone.
pub proof fn law_moving_and_deleting(i: InputView, control: bool)
    ensures
        ({
            let r = tui::after_input(
                i,
                InputEvent::Key { key: Key::Left, control, press: true },
            ).0;
            r.before + r.after == i.before + i.after && r.before.len() == (if i.before.len() > 0 {
                i.before.len() - 1
            } else {
                0
            }) && r.scroll == i.scroll
        }),
        ({
            let r = tui::after_input(
                i,
                InputEvent::Key { key: Key::Right, control, press: true },
            ).0;
            r.before + r.after == i.before + i.after && r.before.len() == (if i.after.len() > 0 {
                i.before.len() + 1
            } else {
                i.before.len()
            }) && r.scroll == i.scroll
        }),
        ({
            let r = tui::after_input(
                i,
                InputEvent::Key { key: Key::Home, control, press: true },
            ).0;
            r.before.len() == 0 && r.after == i.before + i.after && r.scroll == i.scroll
        }),
        ({
            let r = tui::after_input(i, InputEvent::Key { key: Key::End, control, press: true }).0;
            r.after.len() == 0 && r.before == i.before + i.after && r.scroll == i.scroll
        }),
        ({
            let r = tui::after_input(
                i,
                InputEvent::Key { key: Key::Backspace, control, press: true },
            ).0;
            r.after == i.after && r.scroll == i.scroll && r.before == if i.before.len() > 0 {
                i.before.take(i.before.len() - 1)
            } else {
                i.before
            }
        }),
        ({
            let r = tui::after_input(
                i,
                InputEvent::Key { key: Key::Delete, control, press: true },
            ).0;
            r.before == i.before && r.scroll == i.scroll && r.after == if i.after.len() > 0 {
                i.after.skip(1)
            } else {
                i.after
            }
        }),
        ({
            let r = tui::after_input(
                i,
                InputEvent::Key { key: Key::PageUp, control, press: true },
            ).0;
            r.before == i.before && r.after == i.after && (i.scroll < usize::MAX ==> r.scroll
                == i.scroll + 1)
        }),
        ({
            let r = tui::after_input(
                i,
                InputEvent::Key { key: Key::PageDown, control, press: true },
            ).0;
            r.before == i.before && r.after == i.after && r.scroll == if i.scroll > 0 {
                i.scroll - 1
            } else {
                0
            }
        }),
{
    let l = tui::moved_left(i);
    assert(l.before + l.after =~= i.before + i.after);
    let r = tui::moved_right(i);
    assert(r.before + r.after =~= i.before + i.after);
    if i.before.len() > 0 {
        assert(i.before.drop_last() =~= i.before.take(i.before.len() - 1));
    }
}

/// A key counts when it is pressed and not when it is let go.
pub proof fn law_only_presses_count(i: InputView, key: Key, control: bool)
    ensures
        tui::after_input(i, InputEvent::Key { key, control, press: false }) == (
            i,
            UiActionView::Nothing,
        ),
        tui::after_input(i, InputEvent::Quiet) == (i, UiActionView::Nothing),
        tui::after_input(i, InputEvent::Other) == (i, UiActionView::Nothing),
{
}

/// The messages that are shown are neighbours, in their order: as many of the newest as there is
/// room for between the borders, or, when the user went back, those that end as many before them.
pub proof fn law_newest_messages(
    history: Seq<MessageView>,
    t: ThemeView,
    width: u16,
    height: u16,
    scroll: nat,
    i: int,
)
    ensures
        ({
            let n = history.len() as int;
            let room = if height > 2 {
                height - 2
            } else {
                0
            };
            let r = tui::chat_rows(history, t, width, height, scroll);
            &&& r.len() == if n < room {
                n
            } else {
                room
            }
            &&& 0 <= i < r.len() ==> r[i] == tui::message_line(
                history[if n - scroll - room > 0 {
                    n - scroll - room + i
                } else {
                    i
                }],
                t,
                width,
            )
        }),
{
}

/// A message shows when it was written, by whom and what: a line of the chat under the nick of the
/// one who said it, in the colour of that peer, and its text as far as it fits.
pub proof fn law_message_is_shown(m: MessageView, t: ThemeView, width: u16)
    ensures
        ({
            let r = tui::message_line(m, t, width);
            let room = if width > 32 {
                width - 32
            } else {
                0
            };
            &&& r.len() == 5
            &&& r[0].text == "["@ + util::clock_text(m.timestamp as nat) + "] "@
            &&& r[0].fg == Some(t.timestamp)
            &&& r[4].text == m.text.take(if m.text.len() < room {
                m.text.len() as int
            } else {
                room
            })
            &&& m.kind == MsgKind::Chat ==> r[3].bold && r[3].fg == Some(t.peers[m.color_idx])
                && r[1].fg == Some(t.peers[m.color_idx]) && r[3].text.len() >= 12
            &&& m.kind == MsgKind::Chat && m.nick.len() > 0 ==> r[3].text.take(m.nick.len() as int)
                == m.nick && forall|k: int|
                m.nick.len() <= k < r[3].text.len() ==> #[trigger] r[3].text[k] == ' '
            &&& m.kind == MsgKind::Chat && m.nick.len() >= 12 ==> r[3].text == m.nick
            &&& m.kind == MsgKind::Error ==> r[1].text == "!"@ && r[3].text == "error       "@
                && r[3].fg == Some(t.peers[0])
            &&& m.kind == MsgKind::System ==> r[3].text == "system      "@ && r[3].fg == Some(t.dim)
            &&& m.kind == MsgKind::Join ==> r[1].text == "+"@ && r[3].text == "join        "@
            &&& m.kind == MsgKind::Leave ==> r[1].text == "-"@ && r[3].text == "leave       "@
        }),
{
    let room = if width > 32 {
        (width - 32) as nat
    } else {
        0
    };
    letters::law_clipped(m.text, room);
    reveal_strlit("unknown");
    lemma_padded(util::or_else(m.nick, "unknown"@), 12);
}

proof fn lemma_padded(s: Seq<char>, width: nat)
    ensures
        tui::padded(s, width).len() == if s.len() < width {
            width
        } else {
            s.len()
        },
        tui::padded(s, width).take(s.len() as int) == s,
        forall|k: int|
            s.len() <= k < tui::padded(s, width).len() ==> #[trigger] tui::padded(s, width)[k]
                == ' ',
        s.len() >= width ==> tui::padded(s, width) == s,
    decreases width - s.len(),
{
    if s.len() < width {
        let t = s.push(' ');
        lemma_padded(t, width);
        let p = tui::padded(s, width);
        assert(p.take(s.len() as int) =~= s) by {
            assert forall|k: int| 0 <= k < s.len() implies p[k] == s[k] by {
                assert(p.take(t.len() as int)[k] == t[k]);
            }
        }
        assert forall|k: int| s.len() <= k < p.len() implies #[trigger] p[k] == ' ' by {
            if k == s.len() {
                assert(p.take(t.len() as int)[k] == t[k]);
            }
        }
    } else {
        assert(s.take(s.len() as int) =~= s);
    }
}

/// The newest entries of the network log are shown, in their order, as many as there is room for,
/// each with its time, its level and its text as far as it fits.
pub proof fn law_newest_events(v: AppView, width: u16, height: u16, i: int)
    ensures
        ({
            let n = v.netlog.len() as int;
            let room = if height > 2 {
                height - 2
            } else {
                0
            };
            let r = tui::event_rows(v, width, height);
            let wide = if width > 17 {
                width - 17
            } else {
                0
            };
            &&& r.len() == if n < room {
                n
            } else {
                room
            }
            &&& 0 <= i < r.len() ==> {
                let e = v.netlog[n - r.len() + i];
                &&& r[i].len() == 5
                &&& r[i][0].text == util::clock_text(e.timestamp as nat)
                &&& r[i][4].text == e.text.take(if e.text.len() < wide {
                    e.text.len() as int
                } else {
                    wide
                })
                &&& r[i][2].text == match e.level {
                    NetLevel::Info => "net"@,
                    NetLevel::Okay => "ok "@,
                    NetLevel::Warn => "wrn"@,
                    NetLevel::Error => "err"@,
                    NetLevel::Traffic => "io "@,
                }
            }
        }),
{
    let n = v.netlog.len() as int;
    let r = tui::event_rows(v, width, height);
    let wide = if width > 17 {
        (width - 17) as nat
    } else {
        0
    };
    if 0 <= i < r.len() {
        letters::law_clipped(v.netlog[n - r.len() + i].text, wide);
    }
}

/// The sidebar shows this peer, how long it has been up, and every connected peer in its order: its
/// nick, or its short id without one, and how many messages came from it and went to it.
pub proof fn law_sidebar(v: AppView, mono: u64, i: int)
    ensures
        ({
            let s = v.peers.filter(|p: PeerView| p.info.handshake_done && !p.dead);
            let r = tui::sidebar_rows(v, mono);
            &&& r[1][0].text == "● "@ + v.nick
            &&& r[2][0].text == util::short_pid(v.identity.peer_id)
            &&& r[4][1].text == util::duration_text(util::elapsed(v.started_at, mono))
            &&& s.len() > 0 ==> r.len() == 7 + 2 * s.len()
            &&& 0 <= i < s.len() ==> {
                let info = s[i].info;
                &&& r[7 + 2 * i][0].text == "● "@ + (if info.remote_nick.len() > 0 {
                    info.remote_nick
                } else {
                    info.remote_pid_short
                })
                &&& r[7 + 2 * i][0].fg == Some(v.theme.peers[i % 6])
                &&& r[8 + 2 * i][0].text == "  rx"@ + text::dec(info.msgs_rx as nat) + " tx"@
                    + text::dec(info.msgs_tx as nat)
            }
            &&& s.len() == 0 ==> r.len() == 9 && r[7][0].text == "waiting for peers"@
        }),
{
    people::law_connected_peers(v.peers);
    lemma_peer_rows(app::online(v.peers), v.theme, i);
}

proof fn lemma_peer_rows(s: Seq<PeerView>, t: ThemeView, i: int)
    ensures
        tui::peers_rows(s, t).len() == 2 * s.len(),
        0 <= i < s.len() ==> tui::peers_rows(s, t)[2 * i] == tui::peer_rows(s[i].info, i, t)[0]
            && tui::peers_rows(s, t)[2 * i + 1] == tui::peer_rows(s[i].info, i, t)[1],
    decreases s.len(),
{
    if s.len() > 0 {
        lemma_peer_rows(s.drop_last(), t, i);
        if 0 <= i < s.len() - 1 {
            assert(s.drop_last()[i] == s[i]);
        }
    }
}

/// The messages are counted over all peers with a finished handshake, each with its own.
pub proof fn law_messages_are_counted(peers: Seq<PeerView>, p: PeerView)
    ensures
        tui::msg_stats(Seq::empty()) == (0u64, 0u64),
        ({
            let (rx, tx) = tui::msg_stats(peers);
            tui::msg_stats(peers.push(p)) == if p.info.handshake_done {
                (rx.wrapping_add(p.info.msgs_rx), tx.wrapping_add(p.info.msgs_tx))
            } else {
                (rx, tx)
            }
        }),
{
    assert(peers.push(p).drop_last() =~= peers);
}

/// The header and the bar at the bottom show how many peers are connected and how many messages went
/// and came; the header also shows where this peer listens.
pub proof fn law_counts_are_shown(v: AppView, width: u16)
    ensures
        ({
            let n = v.peers.filter(|p: PeerView| p.info.handshake_done && !p.dead).len();
            let (rx, tx) = tui::msg_stats(v.peers);
            let h = tui::header_line(v);
            &&& h[7].text == v.lan_ip + ":"@ + text::dec(v.listen_port as nat)
            &&& h[9].text == "rx "@ + text::dec(rx as nat) + " / tx "@ + text::dec(tx as nat)
            &&& h.last().text == if n > 0 {
                text::dec(n) + " online"@
            } else {
                "discovering"@
            }
            &&& tui::status_label(v, width) == (if width < 90 {
                " /connect /help     "@
            } else {
                " /connect /status /inspect /id /peers /clear /send /accept /theme /quit     "@
            }) + text::dec(n) + " peers  "@ + text::dec(rx as nat) + "/"@ + text::dec(tx as nat)
                + " msg "@
        }),
{
    people::law_connected_peers(v.peers);
}

/// The input line shows the nick and the whole text, and the cursor stands behind the part of it that
/// is before it, but never outside the field.
pub proof fn law_input_line(v: AppView, i: InputView, field: Area)
    ensures
        tui::input_line(v, i)[0].text == v.nick,
        tui::input_line(v, i)[2].text == i.before + i.after,
        ({
            let x = field.x + 2 + encode_utf8(v.nick).len() + 3 + encode_utf8(i.before).len();
            let (cx, cy) = tui::cursor_place(v, i, field);
            &&& field.y < u16::MAX ==> cy == field.y + 1
            &&& x <= u16::MAX && field.x + field.width <= u16::MAX && x < field.x + field.width - 2
                ==> cx == x
            &&& x <= u16::MAX && 2 <= field.x + field.width <= u16::MAX && x >= field.x
                + field.width - 2 ==> cx == field.x + field.width - 2
        }),
{
}

/// There are three looks: two have a name of their own and all other names mean the third. Each has
/// six colours for peers.
pub proof fn law_looks(name: Seq<char>)
    ensures
        app::theme_of(name).peers.len() == 6,
        name != "midnight"@ && name != "original"@ ==> app::theme_of(name) == app::theme_of(
            "modern"@,
        ),
        app::theme_of("midnight"@).bg == (app::Rgb { r: 0x05, g: 0x07, b: 0x12 }),
        app::theme_of("midnight"@).panel == (app::Rgb { r: 0x0d, g: 0x10, b: 0x20 }),
        app::theme_of("midnight"@).fg == (app::Rgb { r: 0xf4, g: 0xf7, b: 0xff }),
        app::theme_of("midnight"@).dim == (app::Rgb { r: 0x7b, g: 0x81, b: 0x99 }),
        app::theme_of("midnight"@).border == (app::Rgb { r: 0x26, g: 0x31, b: 0x4f }),
        app::theme_of("midnight"@).accent == (app::Rgb { r: 0x35, g: 0xf7, b: 0xc8 }),
        app::theme_of("midnight"@).timestamp == (app::Rgb { r: 0x56, g: 0x5d, b: 0x78 }),
        app::theme_of("midnight"@).peers[0] == (app::Rgb { r: 0xff, g: 0x4f, b: 0x87 }),
        app::theme_of("midnight"@).peers[1] == (app::Rgb { r: 0xb4, g: 0x8c, b: 0xff }),
        app::theme_of("midnight"@).peers[2] == (app::Rgb { r: 0x35, g: 0xf7, b: 0xc8 }),
        app::theme_of("midnight"@).peers[3] == (app::Rgb { r: 0x6a, g: 0xd7, b: 0xff }),
        app::theme_of("midnight"@).peers[4] == (app::Rgb { r: 0xff, g: 0xc8, b: 0x57 }),
        app::theme_of("midnight"@).peers[5] == (app::Rgb { r: 0xff, g: 0x7a, b: 0xd9 }),
        app::theme_of("original"@).bg == (app::Rgb { r: 0x1a, g: 0x1a, b: 0x2e }),
        app::theme_of("original"@).panel == (app::Rgb { r: 0x25, g: 0x25, b: 0x42 }),
        app::theme_of("original"@).fg == (app::Rgb { r: 0xe6, g: 0xe6, b: 0xfa }),
        app::theme_of("original"@).dim == (app::Rgb { r: 0x6b, g: 0x6b, b: 0x8a }),
        app::theme_of("original"@).border == (app::Rgb { r: 0x4b, g: 0x4b, b: 0x6b }),
        app::theme_of("original"@).accent == (app::Rgb { r: 0xff, g: 0x8a, b: 0xb5 }),
        app::theme_of("original"@).timestamp == (app::Rgb { r: 0x78, g: 0x78, b: 0xa0 }),
        app::theme_of("original"@).peers[0] == (app::Rgb { r: 0xff, g: 0x8a, b: 0xb5 }),
        app::theme_of("original"@).peers[1] == (app::Rgb { r: 0xc7, g: 0xa8, b: 0xff }),
        app::theme_of("original"@).peers[2] == (app::Rgb { r: 0x90, g: 0xe1, b: 0xa0 }),
        app::theme_of("original"@).peers[3] == (app::Rgb { r: 0x88, g: 0xcc, b: 0xff }),
        app::theme_of("original"@).peers[4] == (app::Rgb { r: 0xff, g: 0xb0, b: 0x88 }),
        app::theme_of("original"@).peers[5] == (app::Rgb { r: 0xff, g: 0xe5, b: 0x88 }),
        app::theme_of("modern"@).bg == (app::Rgb { r: 0x07, g: 0x07, b: 0x11 }),
        app::theme_of("modern"@).panel == (app::Rgb { r: 0x11, g: 0x10, b: 0x26 }),
        app::theme_of("modern"@).fg == (app::Rgb { r: 0xf2, g: 0xef, b: 0xff }),
        app::theme_of("modern"@).dim == (app::Rgb { r: 0x8a, g: 0x84, b: 0xa6 }),
        app::theme_of("modern"@).border == (app::Rgb { r: 0x9d, g: 0x2c, b: 0xff }),
        app::theme_of("modern"@).accent == (app::Rgb { r: 0xff, g: 0x2b, b: 0xd6 }),
        app::theme_of("modern"@).timestamp == (app::Rgb { r: 0x6d, g: 0x66, b: 0x8f }),
        app::theme_of("modern"@).peers[0] == (app::Rgb { r: 0xff, g: 0x2b, b: 0xd6 }),
        app::theme_of("modern"@).peers[1] == (app::Rgb { r: 0x9d, g: 0x2c, b: 0xff }),
        app::theme_of("modern"@).peers[2] == (app::Rgb { r: 0x35, g: 0xf7, b: 0xc8 }),
        app::theme_of("modern"@).peers[3] == (app::Rgb { r: 0x61, g: 0xd6, b: 0xff }),
        app::theme_of("modern"@).peers[4] == (app::Rgb { r: 0xff, g: 0xc8, b: 0x57 }),
        app::theme_of("modern"@).peers[5] == (app::Rgb { r: 0xff, g: 0x7a, b: 0xb6 }),
{
    reveal_strlit("midnight");
    reveal_strlit("original");
    reveal_strlit("modern");
    assert("modern"@.len() != "midnight"@.len());
    assert("modern"@.len() != "original"@.len());
    assert("original"@[0] != "midnight"@[0]);
}

/// On a screen with room for all, the header, the body, the input line and the bar stand one below
/// the other and fill it, the body with all that the others leave; in the body the peers, the chat
/// and the network stand side by side and fill it, the chat with all that the others leave. The
/// wider the screen, the more of them have a place.
pub proof fn law_everything_has_its_place(area: Area)
    requires
        area.x + area.width <= u16::MAX,
        area.y + area.height <= u16::MAX,
        area.height >= 17,
        area.width >= 24,
    ensures
        ({
            let a = tui::laid_out(area);
            let left = if area.width >= 97 {
                28int
            } else if area.width >= 69 {
                23
            } else {
                0
            };
            let right = if area.width >= 139 {
                42int
            } else if area.width >= 117 {
                34
            } else {
                0
            };
            &&& a.header == (Area { height: 3, ..area })
            &&& a.body.y == area.y + 3 && a.body.height == area.height - 7
            &&& a.input.y == a.body.y + a.body.height && a.input.height == 3
            &&& a.status.y == a.input.y + 3 && a.status.height == 1
            &&& a.status.y + 1 == area.y + area.height
            &&& a.body.x == area.x && a.body.width == area.width
            &&& a.input.x == area.x && a.input.width == area.width
            &&& a.status.x == area.x && a.status.width == area.width
            &&& a.sidebar.x == area.x && a.sidebar.width == left
            &&& a.messages.x == area.x + left && a.messages.width == area.width - left - right
            &&& a.netlog.x == a.messages.x + a.messages.width && a.netlog.width == right
            &&& a.sidebar.y == a.body.y && a.sidebar.height == a.body.height
            &&& a.messages.y == a.body.y && a.messages.height == a.body.height
            &&& a.netlog.y == a.body.y && a.netlog.height == a.body.height
            &&& a.meta == (Area { height: 6, ..a.netlog })
            &&& a.events.y == a.netlog.y + 6 && a.events.height == a.netlog.height - 6
            &&& a.events.x == a.netlog.x && a.events.width == a.netlog.width
        }),
{
}

/// What a screen shows: the peers and the network where they have a place, the chat or, before the
/// first message, a welcome, and always the header, the input line and the bar.
pub proof fn law_screen_shows_all(s: Screen, v: AppView, i: InputView, mono: u64)
    requires
        tui::shows(s, v, i, mono),
    ensures
        tui::spans(s.header@) == tui::header_line(v),
        s.sidebar is Some <==> s.areas.sidebar.width > 0,
        s.sidebar matches Some(lines) ==> tui::rows(lines@) == tui::sidebar_rows(v, mono),
        v.history.len() > 0 ==> !s.messages.welcome && tui::rows(s.messages.lines@)
            == tui::chat_rows(
            v.history,
            v.theme,
            s.areas.messages.width,
            s.areas.messages.height,
            i.scroll,
        ),
        v.history.len() == 0 ==> s.messages.welcome,
        s.netlog is Some <==> s.areas.netlog.width > 0,
        s.netlog matches Some(n) ==> tui::rows(n.events@) == tui::event_rows(
            v,
            s.areas.events.width,
            s.areas.events.height,
        ),
        tui::spans(s.input@) == tui::input_line(v, i),
        s.status.label@ == tui::status_label(v, s.areas.status.width),
        s.status.full == (exists|j: int|
            0 <= j < v.peers.len() && (#[trigger] v.peers[j]).info.handshake_done
                && !v.peers[j].dead),
        s.cursor == tui::cursor_place(v, i, s.areas.input),
{
    transfers::lemma_someone(v.peers);
}

/// Above the events the network part shows where this peer listens, and each event has the colour of
/// its level.
pub proof fn law_network_part(v: AppView, e: NetView, width: u16)
    ensures
        tui::meta_rows(v).len() == 3,
        tui::meta_rows(v)[1][1].text == v.lan_ip + ":"@ + text::dec(v.listen_port as nat),
        ({
            let r = tui::entry_line(e, v.theme, width);
            let colour = match e.level {
                NetLevel::Info => v.theme.dim,
                NetLevel::Okay => v.theme.peers[2],
                NetLevel::Warn => v.theme.peers[4],
                NetLevel::Error => v.theme.peers[0],
                NetLevel::Traffic => v.theme.peers[3],
            };
            r[2].fg == Some(colour) && r[2].bold && r[4].fg == Some(colour) && r[0].fg == Some(
                v.theme.timestamp,
            )
        }),
{
}

}
