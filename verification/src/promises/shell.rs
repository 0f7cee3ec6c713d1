//! The command line, the commands of the user and what they are told.
use vstd::prelude::*;
use vstd::string::*;

use crate::app;
use crate::app::{AppView, MsgKind, NetLevel, OutView, PeerView};
use crate::commands;
use crate::commands::{ArgsView, CommandView, Opt};
use crate::files;
use crate::net;
use crate::promises::letters;
use crate::promises::people;
use crate::rendezvous;
use crate::text;
use crate::tui::UiActionView;
use crate::util;

verus! {

proof fn lemma_not_behind(s: Seq<char>, p: Seq<char>, k: int)
    requires
        0 <= k < p.len(),
        k < s.len() ==> s[k] != p[k],
    ensures
        text::after_prefix(s, p) is None,
{
    if text::begins_with(s, p) {
        assert(s.take(p.len() as int)[k] == p[k]);
    }
}

/// Without arguments a peer is anonymous, looks as at midnight, takes any port and waits for others
/// in the default room.
pub proof fn law_defaults()
    ensures
        commands::args_from(commands::default_args(), Seq::empty()) == (ArgsView {
            nick: "anon"@,
            theme: "midnight"@,
            port: 0,
            connect: Seq::empty(),
            bootstrap: Seq::empty(),
            rendezvous: None,
            rendezvous_listen: None,
            room: "default"@,
            public_addr: None,
        }),
{
}

/// An option sets what it is named after to the argument behind it, and nothing else; the rest of
/// the arguments is read after it.
pub proof fn law_option_takes_the_next(a: ArgsView, value: Seq<char>, rest: Seq<Seq<char>>)
    ensures
        commands::args_from(a, seq!["--nick"@, value] + rest) == commands::args_from(
            ArgsView { nick: value.take(if value.len() < 31 {
            value.len() as int
        } else {
            31
        }), ..a },
            rest,
        ),
        commands::args_from(a, seq!["--theme"@, value] + rest) == commands::args_from(
            ArgsView { theme: value, ..a },
            rest,
        ),
        commands::args_from(a, seq!["--port"@, value] + rest) == commands::args_from(
            ArgsView { port: match text::number(value, 65_535) {
            Some(n) => n as u16,
            None => 0,
        }, ..a },
            rest,
        ),
        commands::args_from(a, seq!["--connect"@, value] + rest) == commands::args_from(
            ArgsView { connect: a.connect.push(value), ..a },
            rest,
        ),
        commands::args_from(a, seq!["--bootstrap"@, value] + rest) == commands::args_from(
            ArgsView { bootstrap: a.bootstrap.push(value), ..a },
            rest,
        ),
        commands::args_from(a, seq!["--rendezvous"@, value] + rest) == commands::args_from(
            ArgsView { rendezvous: Some(value), ..a },
            rest,
        ),
        commands::args_from(a, seq!["--rendezvous-listen"@, value] + rest) == commands::args_from(
            ArgsView { rendezvous_listen: Some(value), ..a },
            rest,
        ),
        commands::args_from(a, seq!["--room"@, value] + rest) == commands::args_from(
            ArgsView { room: value, ..a },
            rest,
        ),
        commands::args_from(a, seq!["--public-addr"@, value] + rest) == commands::args_from(
            ArgsView { public_addr: Some(value), ..a },
            rest,
        ),
{
    letters::law_clipped(value, 31);
    reveal_strlit("--nick");
    reveal_strlit("--theme");
    reveal_strlit("--port");
    reveal_strlit("--connect");
    reveal_strlit("--bootstrap");
    reveal_strlit("--rendezvous");
    reveal_strlit("--rendezvous-listen");
    reveal_strlit("--room");
    reveal_strlit("--public-addr");
    assert((seq!["--nick"@, value] + rest).skip(2) =~= rest);
    assert((seq!["--nick"@, value] + rest)[0] == "--nick"@);
    assert((seq!["--nick"@, value] + rest)[1] == value);
    assert((seq!["--theme"@, value] + rest).skip(2) =~= rest);
    assert((seq!["--theme"@, value] + rest)[0] == "--theme"@);
    assert((seq!["--theme"@, value] + rest)[1] == value);
    assert("--theme"@[2] != "--nick"@[2]);
    assert((seq!["--port"@, value] + rest).skip(2) =~= rest);
    assert((seq!["--port"@, value] + rest)[0] == "--port"@);
    assert((seq!["--port"@, value] + rest)[1] == value);
    assert("--port"@[2] != "--nick"@[2]);
    assert("--port"@[2] != "--theme"@[2]);
    assert((seq!["--connect"@, value] + rest).skip(2) =~= rest);
    assert((seq!["--connect"@, value] + rest)[0] == "--connect"@);
    assert((seq!["--connect"@, value] + rest)[1] == value);
    assert("--connect"@[2] != "--nick"@[2]);
    assert("--connect"@[2] != "--theme"@[2]);
    assert("--connect"@[2] != "--port"@[2]);
    assert((seq!["--bootstrap"@, value] + rest).skip(2) =~= rest);
    assert((seq!["--bootstrap"@, value] + rest)[0] == "--bootstrap"@);
    assert((seq!["--bootstrap"@, value] + rest)[1] == value);
    assert("--bootstrap"@[2] != "--nick"@[2]);
    assert("--bootstrap"@[2] != "--theme"@[2]);
    assert("--bootstrap"@[2] != "--port"@[2]);
    assert("--bootstrap"@[2] != "--connect"@[2]);
    assert((seq!["--rendezvous"@, value] + rest).skip(2) =~= rest);
    assert((seq!["--rendezvous"@, value] + rest)[0] == "--rendezvous"@);
    assert((seq!["--rendezvous"@, value] + rest)[1] == value);
    assert("--rendezvous"@[2] != "--nick"@[2]);
    assert("--rendezvous"@[2] != "--theme"@[2]);
    assert("--rendezvous"@[2] != "--port"@[2]);
    assert("--rendezvous"@[2] != "--connect"@[2]);
    assert("--rendezvous"@[2] != "--bootstrap"@[2]);
    assert((seq!["--rendezvous-listen"@, value] + rest).skip(2) =~= rest);
    assert((seq!["--rendezvous-listen"@, value] + rest)[0] == "--rendezvous-listen"@);
    assert((seq!["--rendezvous-listen"@, value] + rest)[1] == value);
    assert("--rendezvous-listen"@[2] != "--nick"@[2]);
    assert("--rendezvous-listen"@[2] != "--theme"@[2]);
    assert("--rendezvous-listen"@[2] != "--port"@[2]);
    assert("--rendezvous-listen"@[2] != "--connect"@[2]);
    assert("--rendezvous-listen"@[2] != "--bootstrap"@[2]);
    assert("--rendezvous-listen"@.len() != "--rendezvous"@.len());
    assert((seq!["--room"@, value] + rest).skip(2) =~= rest);
    assert((seq!["--room"@, value] + rest)[0] == "--room"@);
    assert((seq!["--room"@, value] + rest)[1] == value);
    assert("--room"@[2] != "--nick"@[2]);
    assert("--room"@[2] != "--theme"@[2]);
    assert("--room"@[2] != "--port"@[2]);
    assert("--room"@[2] != "--connect"@[2]);
    assert("--room"@[2] != "--bootstrap"@[2]);
    assert("--room"@[3] != "--rendezvous"@[3]);
    assert("--room"@[3] != "--rendezvous-listen"@[3]);
    assert((seq!["--public-addr"@, value] + rest).skip(2) =~= rest);
    assert((seq!["--public-addr"@, value] + rest)[0] == "--public-addr"@);
    assert((seq!["--public-addr"@, value] + rest)[1] == value);
    assert("--public-addr"@[2] != "--nick"@[2]);
    assert("--public-addr"@[2] != "--theme"@[2]);
    assert("--public-addr"@[3] != "--port"@[3]);
    assert("--public-addr"@[2] != "--connect"@[2]);
    assert("--public-addr"@[2] != "--bootstrap"@[2]);
    assert("--public-addr"@[2] != "--rendezvous"@[2]);
    assert("--public-addr"@[2] != "--rendezvous-listen"@[2]);
    assert("--public-addr"@[2] != "--room"@[2]);
}

proof fn lemma_nick_option(value: Seq<char>)
    ensures
        commands::bare_option("--nick="@ + value) is None,
        commands::joined_option("--nick="@ + value) == Some((Opt::Nick, value)),
{
    let x = "--nick="@ + value;
    reveal_strlit("--nick=");
    letters::law_behind_a_prefix("--nick="@, value);
    reveal_strlit("--nick");
    assert(x.len() > "--nick"@.len());
    reveal_strlit("--theme");
    assert(x[2] != "--theme"@[2]);
    reveal_strlit("--port");
    assert(x[2] != "--port"@[2]);
    reveal_strlit("--connect");
    assert(x[2] != "--connect"@[2]);
    reveal_strlit("--bootstrap");
    assert(x[2] != "--bootstrap"@[2]);
    reveal_strlit("--rendezvous");
    assert(x[2] != "--rendezvous"@[2]);
    reveal_strlit("--rendezvous-listen");
    assert(x[2] != "--rendezvous-listen"@[2]);
    reveal_strlit("--room");
    assert(x[2] != "--room"@[2]);
    reveal_strlit("--public-addr");
    assert(x[2] != "--public-addr"@[2]);
}

proof fn lemma_theme_option(value: Seq<char>)
    ensures
        commands::bare_option("--theme="@ + value) is None,
        commands::joined_option("--theme="@ + value) == Some((Opt::Theme, value)),
{
    let x = "--theme="@ + value;
    reveal_strlit("--theme=");
    letters::law_behind_a_prefix("--theme="@, value);
    reveal_strlit("--nick");
    assert(x[2] != "--nick"@[2]);
    reveal_strlit("--theme");
    assert(x.len() > "--theme"@.len());
    reveal_strlit("--port");
    assert(x[2] != "--port"@[2]);
    reveal_strlit("--connect");
    assert(x[2] != "--connect"@[2]);
    reveal_strlit("--bootstrap");
    assert(x[2] != "--bootstrap"@[2]);
    reveal_strlit("--rendezvous");
    assert(x[2] != "--rendezvous"@[2]);
    reveal_strlit("--rendezvous-listen");
    assert(x[2] != "--rendezvous-listen"@[2]);
    reveal_strlit("--room");
    assert(x[2] != "--room"@[2]);
    reveal_strlit("--public-addr");
    assert(x[2] != "--public-addr"@[2]);
    reveal_strlit("--nick=");
    lemma_not_behind(x, "--nick="@, 2);
}

proof fn lemma_port_option(value: Seq<char>)
    ensures
        commands::bare_option("--port="@ + value) is None,
        commands::joined_option("--port="@ + value) == Some((Opt::Port, value)),
{
    let x = "--port="@ + value;
    reveal_strlit("--port=");
    letters::law_behind_a_prefix("--port="@, value);
    reveal_strlit("--nick");
    assert(x[2] != "--nick"@[2]);
    reveal_strlit("--theme");
    assert(x[2] != "--theme"@[2]);
    reveal_strlit("--port");
    assert(x.len() > "--port"@.len());
    reveal_strlit("--connect");
    assert(x[2] != "--connect"@[2]);
    reveal_strlit("--bootstrap");
    assert(x[2] != "--bootstrap"@[2]);
    reveal_strlit("--rendezvous");
    assert(x[2] != "--rendezvous"@[2]);
    reveal_strlit("--rendezvous-listen");
    assert(x[2] != "--rendezvous-listen"@[2]);
    reveal_strlit("--room");
    assert(x[2] != "--room"@[2]);
    reveal_strlit("--public-addr");
    assert(x[3] != "--public-addr"@[3]);
    reveal_strlit("--nick=");
    lemma_not_behind(x, "--nick="@, 2);
    reveal_strlit("--theme=");
    lemma_not_behind(x, "--theme="@, 2);
}

proof fn lemma_connect_option(value: Seq<char>)
    ensures
        commands::bare_option("--connect="@ + value) is None,
        commands::joined_option("--connect="@ + value) == Some((Opt::Connect, value)),
{
    let x = "--connect="@ + value;
    reveal_strlit("--connect=");
    letters::law_behind_a_prefix("--connect="@, value);
    reveal_strlit("--nick");
    assert(x[2] != "--nick"@[2]);
    reveal_strlit("--theme");
    assert(x[2] != "--theme"@[2]);
    reveal_strlit("--port");
    assert(x[2] != "--port"@[2]);
    reveal_strlit("--connect");
    assert(x.len() > "--connect"@.len());
    reveal_strlit("--bootstrap");
    assert(x[2] != "--bootstrap"@[2]);
    reveal_strlit("--rendezvous");
    assert(x[2] != "--rendezvous"@[2]);
    reveal_strlit("--rendezvous-listen");
    assert(x[2] != "--rendezvous-listen"@[2]);
    reveal_strlit("--room");
    assert(x[2] != "--room"@[2]);
    reveal_strlit("--public-addr");
    assert(x[2] != "--public-addr"@[2]);
    reveal_strlit("--nick=");
    lemma_not_behind(x, "--nick="@, 2);
    reveal_strlit("--theme=");
    lemma_not_behind(x, "--theme="@, 2);
    reveal_strlit("--port=");
    lemma_not_behind(x, "--port="@, 2);
}

proof fn lemma_bootstrap_option(value: Seq<char>)
    ensures
        commands::bare_option("--bootstrap="@ + value) is None,
        commands::joined_option("--bootstrap="@ + value) == Some((Opt::Bootstrap, value)),
{
    let x = "--bootstrap="@ + value;
    reveal_strlit("--bootstrap=");
    letters::law_behind_a_prefix("--bootstrap="@, value);
    reveal_strlit("--nick");
    assert(x[2] != "--nick"@[2]);
    reveal_strlit("--theme");
    assert(x[2] != "--theme"@[2]);
    reveal_strlit("--port");
    assert(x[2] != "--port"@[2]);
    reveal_strlit("--connect");
    assert(x[2] != "--connect"@[2]);
    reveal_strlit("--bootstrap");
    assert(x.len() > "--bootstrap"@.len());
    reveal_strlit("--rendezvous");
    assert(x[2] != "--rendezvous"@[2]);
    reveal_strlit("--rendezvous-listen");
    assert(x[2] != "--rendezvous-listen"@[2]);
    reveal_strlit("--room");
    assert(x[2] != "--room"@[2]);
    reveal_strlit("--public-addr");
    assert(x[2] != "--public-addr"@[2]);
    reveal_strlit("--nick=");
    lemma_not_behind(x, "--nick="@, 2);
    reveal_strlit("--theme=");
    lemma_not_behind(x, "--theme="@, 2);
    reveal_strlit("--port=");
    lemma_not_behind(x, "--port="@, 2);
    reveal_strlit("--connect=");
    lemma_not_behind(x, "--connect="@, 2);
}

proof fn lemma_rendezvous_option(value: Seq<char>)
    ensures
        commands::bare_option("--rendezvous="@ + value) is None,
        commands::joined_option("--rendezvous="@ + value) == Some((Opt::Rendezvous, value)),
{
    let x = "--rendezvous="@ + value;
    reveal_strlit("--rendezvous=");
    letters::law_behind_a_prefix("--rendezvous="@, value);
    reveal_strlit("--nick");
    assert(x[2] != "--nick"@[2]);
    reveal_strlit("--theme");
    assert(x[2] != "--theme"@[2]);
    reveal_strlit("--port");
    assert(x[2] != "--port"@[2]);
    reveal_strlit("--connect");
    assert(x[2] != "--connect"@[2]);
    reveal_strlit("--bootstrap");
    assert(x[2] != "--bootstrap"@[2]);
    reveal_strlit("--rendezvous");
    assert(x.len() > "--rendezvous"@.len());
    reveal_strlit("--rendezvous-listen");
    assert(x[12] != "--rendezvous-listen"@[12]);
    reveal_strlit("--room");
    assert(x[3] != "--room"@[3]);
    reveal_strlit("--public-addr");
    assert(x[2] != "--public-addr"@[2]);
    reveal_strlit("--nick=");
    lemma_not_behind(x, "--nick="@, 2);
    reveal_strlit("--theme=");
    lemma_not_behind(x, "--theme="@, 2);
    reveal_strlit("--port=");
    lemma_not_behind(x, "--port="@, 2);
    reveal_strlit("--connect=");
    lemma_not_behind(x, "--connect="@, 2);
    reveal_strlit("--bootstrap=");
    lemma_not_behind(x, "--bootstrap="@, 2);
}

proof fn lemma_rendezvous_listen_option(value: Seq<char>)
    ensures
        commands::bare_option("--rendezvous-listen="@ + value) is None,
        commands::joined_option("--rendezvous-listen="@ + value) == Some((Opt::RendezvousListen, value)),
{
    let x = "--rendezvous-listen="@ + value;
    reveal_strlit("--rendezvous-listen=");
    letters::law_behind_a_prefix("--rendezvous-listen="@, value);
    reveal_strlit("--nick");
    assert(x[2] != "--nick"@[2]);
    reveal_strlit("--theme");
    assert(x[2] != "--theme"@[2]);
    reveal_strlit("--port");
    assert(x[2] != "--port"@[2]);
    reveal_strlit("--connect");
    assert(x[2] != "--connect"@[2]);
    reveal_strlit("--bootstrap");
    assert(x[2] != "--bootstrap"@[2]);
    reveal_strlit("--rendezvous");
    assert(x.len() > "--rendezvous"@.len());
    reveal_strlit("--rendezvous-listen");
    assert(x.len() > "--rendezvous-listen"@.len());
    reveal_strlit("--room");
    assert(x[3] != "--room"@[3]);
    reveal_strlit("--public-addr");
    assert(x[2] != "--public-addr"@[2]);
    reveal_strlit("--nick=");
    lemma_not_behind(x, "--nick="@, 2);
    reveal_strlit("--theme=");
    lemma_not_behind(x, "--theme="@, 2);
    reveal_strlit("--port=");
    lemma_not_behind(x, "--port="@, 2);
    reveal_strlit("--connect=");
    lemma_not_behind(x, "--connect="@, 2);
    reveal_strlit("--bootstrap=");
    lemma_not_behind(x, "--bootstrap="@, 2);
    reveal_strlit("--rendezvous=");
    lemma_not_behind(x, "--rendezvous="@, 12);
}

proof fn lemma_room_option(value: Seq<char>)
    ensures
        commands::bare_option("--room="@ + value) is None,
        commands::joined_option("--room="@ + value) == Some((Opt::Room, value)),
{
    let x = "--room="@ + value;
    reveal_strlit("--room=");
    letters::law_behind_a_prefix("--room="@, value);
    reveal_strlit("--nick");
    assert(x[2] != "--nick"@[2]);
    reveal_strlit("--theme");
    assert(x[2] != "--theme"@[2]);
    reveal_strlit("--port");
    assert(x[2] != "--port"@[2]);
    reveal_strlit("--connect");
    assert(x[2] != "--connect"@[2]);
    reveal_strlit("--bootstrap");
    assert(x[2] != "--bootstrap"@[2]);
    reveal_strlit("--rendezvous");
    assert(x[3] != "--rendezvous"@[3]);
    reveal_strlit("--rendezvous-listen");
    assert(x[3] != "--rendezvous-listen"@[3]);
    reveal_strlit("--room");
    assert(x.len() > "--room"@.len());
    reveal_strlit("--public-addr");
    assert(x[2] != "--public-addr"@[2]);
    reveal_strlit("--nick=");
    lemma_not_behind(x, "--nick="@, 2);
    reveal_strlit("--theme=");
    lemma_not_behind(x, "--theme="@, 2);
    reveal_strlit("--port=");
    lemma_not_behind(x, "--port="@, 2);
    reveal_strlit("--connect=");
    lemma_not_behind(x, "--connect="@, 2);
    reveal_strlit("--bootstrap=");
    lemma_not_behind(x, "--bootstrap="@, 2);
    reveal_strlit("--rendezvous=");
    lemma_not_behind(x, "--rendezvous="@, 3);
    reveal_strlit("--rendezvous-listen=");
    lemma_not_behind(x, "--rendezvous-listen="@, 3);
}

proof fn lemma_public_addr_option(value: Seq<char>)
    ensures
        commands::bare_option("--public-addr="@ + value) is None,
        commands::joined_option("--public-addr="@ + value) == Some((Opt::PublicAddr, value)),
{
    let x = "--public-addr="@ + value;
    reveal_strlit("--public-addr=");
    letters::law_behind_a_prefix("--public-addr="@, value);
    reveal_strlit("--nick");
    assert(x[2] != "--nick"@[2]);
    reveal_strlit("--theme");
    assert(x[2] != "--theme"@[2]);
    reveal_strlit("--port");
    assert(x[3] != "--port"@[3]);
    reveal_strlit("--connect");
    assert(x[2] != "--connect"@[2]);
    reveal_strlit("--bootstrap");
    assert(x[2] != "--bootstrap"@[2]);
    reveal_strlit("--rendezvous");
    assert(x[2] != "--rendezvous"@[2]);
    reveal_strlit("--rendezvous-listen");
    assert(x[2] != "--rendezvous-listen"@[2]);
    reveal_strlit("--room");
    assert(x[2] != "--room"@[2]);
    reveal_strlit("--public-addr");
    assert(x.len() > "--public-addr"@.len());
    reveal_strlit("--nick=");
    lemma_not_behind(x, "--nick="@, 2);
    reveal_strlit("--theme=");
    lemma_not_behind(x, "--theme="@, 2);
    reveal_strlit("--port=");
    lemma_not_behind(x, "--port="@, 3);
    reveal_strlit("--connect=");
    lemma_not_behind(x, "--connect="@, 2);
    reveal_strlit("--bootstrap=");
    lemma_not_behind(x, "--bootstrap="@, 2);
    reveal_strlit("--rendezvous=");
    lemma_not_behind(x, "--rendezvous="@, 2);
    reveal_strlit("--rendezvous-listen=");
    lemma_not_behind(x, "--rendezvous-listen="@, 2);
    reveal_strlit("--room=");
    lemma_not_behind(x, "--room="@, 2);
}

/// An option may hold its value itself, behind an equals sign.
pub proof fn law_option_holds_its_value(a: ArgsView, value: Seq<char>, rest: Seq<Seq<char>>)
    ensures
        commands::args_from(a, seq!["--nick="@ + value] + rest) == commands::args_from(
            ArgsView { nick: value.take(if value.len() < 31 {
            value.len() as int
        } else {
            31
        }), ..a },
            rest,
        ),
        commands::args_from(a, seq!["--theme="@ + value] + rest) == commands::args_from(
            ArgsView { theme: value, ..a },
            rest,
        ),
        commands::args_from(a, seq!["--port="@ + value] + rest) == commands::args_from(
            ArgsView { port: match text::number(value, 65_535) {
            Some(n) => n as u16,
            None => 0,
        }, ..a },
            rest,
        ),
        commands::args_from(a, seq!["--connect="@ + value] + rest) == commands::args_from(
            ArgsView { connect: a.connect.push(value), ..a },
            rest,
        ),
        commands::args_from(a, seq!["--bootstrap="@ + value] + rest) == commands::args_from(
            ArgsView { bootstrap: a.bootstrap.push(value), ..a },
            rest,
        ),
        commands::args_from(a, seq!["--rendezvous="@ + value] + rest) == commands::args_from(
            ArgsView { rendezvous: Some(value), ..a },
            rest,
        ),
        commands::args_from(a, seq!["--rendezvous-listen="@ + value] + rest) == commands::args_from(
            ArgsView { rendezvous_listen: Some(value), ..a },
            rest,
        ),
        commands::args_from(a, seq!["--room="@ + value] + rest) == commands::args_from(
            ArgsView { room: value, ..a },
            rest,
        ),
        commands::args_from(a, seq!["--public-addr="@ + value] + rest) == commands::args_from(
            ArgsView { public_addr: Some(value), ..a },
            rest,
        ),
{
    letters::law_clipped(value, 31);
    lemma_nick_option(value);
    assert((seq!["--nick="@ + value] + rest).skip(1) =~= rest);
    assert((seq!["--nick="@ + value] + rest)[0] == "--nick="@ + value);
    lemma_theme_option(value);
    assert((seq!["--theme="@ + value] + rest).skip(1) =~= rest);
    assert((seq!["--theme="@ + value] + rest)[0] == "--theme="@ + value);
    lemma_port_option(value);
    assert((seq!["--port="@ + value] + rest).skip(1) =~= rest);
    assert((seq!["--port="@ + value] + rest)[0] == "--port="@ + value);
    lemma_connect_option(value);
    assert((seq!["--connect="@ + value] + rest).skip(1) =~= rest);
    assert((seq!["--connect="@ + value] + rest)[0] == "--connect="@ + value);
    lemma_bootstrap_option(value);
    assert((seq!["--bootstrap="@ + value] + rest).skip(1) =~= rest);
    assert((seq!["--bootstrap="@ + value] + rest)[0] == "--bootstrap="@ + value);
    lemma_rendezvous_option(value);
    assert((seq!["--rendezvous="@ + value] + rest).skip(1) =~= rest);
    assert((seq!["--rendezvous="@ + value] + rest)[0] == "--rendezvous="@ + value);
    lemma_rendezvous_listen_option(value);
    assert((seq!["--rendezvous-listen="@ + value] + rest).skip(1) =~= rest);
    assert((seq!["--rendezvous-listen="@ + value] + rest)[0] == "--rendezvous-listen="@ + value);
    lemma_room_option(value);
    assert((seq!["--room="@ + value] + rest).skip(1) =~= rest);
    assert((seq!["--room="@ + value] + rest)[0] == "--room="@ + value);
    lemma_public_addr_option(value);
    assert((seq!["--public-addr="@ + value] + rest).skip(1) =~= rest);
    assert((seq!["--public-addr="@ + value] + rest)[0] == "--public-addr="@ + value);
}

/// An argument that is no option is the nick; one that looks like an option but is none is passed
/// over; and an option at the end, without a value, sets nothing.
pub proof fn law_other_arguments(a: ArgsView, arg: Seq<char>, rest: Seq<Seq<char>>)
    ensures
        arg.len() == 0 || arg[0] != '-' ==> commands::args_from(a, seq![arg] + rest)
            == commands::args_from(
            ArgsView {
                nick: arg.take(if arg.len() < 31 {
                    arg.len() as int
                } else {
                    31
                }),
                ..a
            },
            rest,
        ),
        arg.len() > 0 && arg[0] == '-' && commands::bare_option(arg) is None
            && commands::joined_option(arg) is None ==> commands::args_from(a, seq![arg] + rest)
            == commands::args_from(a, rest),
        commands::bare_option(arg) is Some ==> commands::args_from(a, seq![arg]) == a,
{
    letters::law_clipped(arg, 31);
    reveal_strlit("--nick");
    reveal_strlit("--theme");
    reveal_strlit("--port");
    reveal_strlit("--connect");
    reveal_strlit("--bootstrap");
    reveal_strlit("--rendezvous");
    reveal_strlit("--rendezvous-listen");
    reveal_strlit("--room");
    reveal_strlit("--public-addr");
    reveal_strlit("--nick=");
    reveal_strlit("--theme=");
    reveal_strlit("--port=");
    reveal_strlit("--connect=");
    reveal_strlit("--bootstrap=");
    reveal_strlit("--rendezvous=");
    reveal_strlit("--rendezvous-listen=");
    reveal_strlit("--room=");
    reveal_strlit("--public-addr=");
    assert((seq![arg] + rest).skip(1) =~= rest);
    assert((seq![arg] + rest)[0] == arg);
    if arg.len() == 0 || arg[0] != '-' {
        lemma_not_behind(arg, "--nick="@, 0);
        lemma_not_behind(arg, "--theme="@, 0);
        lemma_not_behind(arg, "--port="@, 0);
        lemma_not_behind(arg, "--connect="@, 0);
        lemma_not_behind(arg, "--bootstrap="@, 0);
        lemma_not_behind(arg, "--rendezvous="@, 0);
        lemma_not_behind(arg, "--rendezvous-listen="@, 0);
        lemma_not_behind(arg, "--room="@, 0);
        lemma_not_behind(arg, "--public-addr="@, 0);
    }
}

/// A line that begins with a slash is for this peer alone: nobody is sent anything on account of it,
/// and no list of files changes. Only the two commands to leave end the chat.
pub proof fn law_commands_stay_here(
    v: AppView,
    input: Seq<char>,
    public_addr: Seq<char>,
    now: u64,
    mono: u64,
)
    requires
        input.len() > 0,
        input[0] == '/',
    ensures
        ({
            let (w, command) = commands::after_command(v, input, public_addr, now, mono);
            &&& w.peers == v.peers
            &&& w.rx == v.rx
            &&& w.tx == v.tx
            &&& w.identity == v.identity
            &&& w.nick == v.nick
            &&& w.attempted == v.attempted
            &&& w.quit == (v.quit || input == "/quit"@ || input == "/exit"@)
            &&& input == "/quit"@ || input == "/exit"@ ==> w == (AppView { quit: true, ..v })
                && command == CommandView::Nothing
        }),
{
    lemma_told_all(v, commands::peers_lines(app::online(v.peers)), now);
    lemma_told_all(v, commands::status_lines(v, mono), now);
    lemma_told_all(v, commands::id_lines(v, public_addr), now);
    lemma_told_all(v, commands::inspect_lines(app::online(v.peers)), now);
    lemma_told_all(v, commands::help_lines(), now);
}

proof fn lemma_told_all(v: AppView, lines: Seq<Seq<char>>, now: u64)
    ensures
        ({
            let w = commands::told_all(v, lines, now);
            w == (AppView { history: w.history, netlog: w.netlog, ..v })
        }),
    decreases lines.len(),
{
    if lines.len() > 0 {
        lemma_told_all(v, lines.drop_last(), now);
    }
}

/// A line that is no command, nor asks to send a file, goes to every connected peer and to nobody
/// else, and is shown as said by this peer.
pub proof fn law_what_is_said_is_sent(
    v: AppView,
    input: Seq<char>,
    public_addr: Seq<char>,
    now: u64,
    mono: u64,
    j: int,
)
    requires
        input.len() > 0 ==> input[0] != '/',
        !(input.len() >= 5 && input.take(5) == "send "@),
        0 <= j < v.peers.len(),
    ensures
        ({
            let (w, command) = commands::after_command(v, input, public_addr, now, mono);
            &&& command == CommandView::Nothing
            &&& w.peers.len() == v.peers.len()
            &&& w.peers[j].info == v.peers[j].info && w.peers[j].key == v.peers[j].key
                && w.peers[j].dead == v.peers[j].dead
            &&& w.peers[j].out == if v.peers[j].info.handshake_done && !v.peers[j].dead {
                v.peers[j].out.push(OutView { kind: 2, text: input })
            } else {
                v.peers[j].out
            }
            &&& w.history.last().kind == MsgKind::Chat
            &&& w.history.last().nick == v.nick
            &&& w.history.last().text == input
            &&& w.quit == v.quit
        }),
{
    lemma_no_slash(input);
    reveal_strlit("send ");
}

proof fn lemma_no_slash(input: Seq<char>)
    requires
        input.len() > 0 ==> input[0] != '/',
    ensures
        input != "/quit"@ && input != "/exit"@ && input != "/peers"@ && input != "/who"@ && input
            != "/status"@ && input != "/id"@ && input != "/me"@ && input != "/inspect"@ && input
            != "/diag"@ && input != "/clear"@ && input != "/log clear"@ && input != "/help"@
            && input != "/accept"@,
        text::after_prefix(input, "/connect "@) is None,
        text::after_prefix(input, "/send "@) is None,
        text::after_prefix(input, "/accept "@) is None,
        text::after_prefix(input, "/theme "@) is None,
{
    reveal_strlit("/quit");
    reveal_strlit("/exit");
    reveal_strlit("/peers");
    reveal_strlit("/who");
    reveal_strlit("/status");
    reveal_strlit("/id");
    reveal_strlit("/me");
    reveal_strlit("/inspect");
    reveal_strlit("/diag");
    reveal_strlit("/clear");
    reveal_strlit("/log clear");
    reveal_strlit("/help");
    reveal_strlit("/connect ");
    reveal_strlit("/send ");
    reveal_strlit("/accept");
    reveal_strlit("/accept ");
    reveal_strlit("/theme ");
    lemma_not_behind(input, "/connect "@, 0);
    lemma_not_behind(input, "/send "@, 0);
    lemma_not_behind(input, "/accept "@, 0);
    lemma_not_behind(input, "/theme "@, 0);
}

proof fn lemma_connect_line(arg: Seq<char>)
    ensures
        ({
            let s = "/connect "@ + arg;
            &&& s != "/quit"@
            &&& s != "/exit"@
            &&& s != "/peers"@
            &&& s != "/who"@
            &&& s != "/status"@
            &&& s != "/id"@
            &&& s != "/me"@
            &&& s != "/inspect"@
            &&& s != "/diag"@
            &&& s != "/clear"@
            &&& s != "/log clear"@
            &&& s != "/help"@
        }),
{
    let s = "/connect "@ + arg;
    reveal_strlit("/connect ");
    reveal_strlit("/quit");
    assert(s[1] != "/quit"@[1]);
    reveal_strlit("/exit");
    assert(s[1] != "/exit"@[1]);
    reveal_strlit("/peers");
    assert(s[1] != "/peers"@[1]);
    reveal_strlit("/who");
    assert(s[1] != "/who"@[1]);
    reveal_strlit("/status");
    assert(s[1] != "/status"@[1]);
    reveal_strlit("/id");
    assert(s[1] != "/id"@[1]);
    reveal_strlit("/me");
    assert(s[1] != "/me"@[1]);
    reveal_strlit("/inspect");
    assert(s[1] != "/inspect"@[1]);
    reveal_strlit("/diag");
    assert(s[1] != "/diag"@[1]);
    reveal_strlit("/clear");
    assert(s[2] != "/clear"@[2]);
    reveal_strlit("/log clear");
    assert(s[1] != "/log clear"@[1]);
    reveal_strlit("/help");
    assert(s[1] != "/help"@[1]);
}

proof fn lemma_send_line(arg: Seq<char>)
    ensures
        ({
            let s = "/send "@ + arg;
            &&& s != "/quit"@
            &&& s != "/exit"@
            &&& s != "/peers"@
            &&& s != "/who"@
            &&& s != "/status"@
            &&& s != "/id"@
            &&& s != "/me"@
            &&& s != "/inspect"@
            &&& s != "/diag"@
            &&& s != "/clear"@
            &&& s != "/log clear"@
            &&& s != "/help"@
        }),
{
    let s = "/send "@ + arg;
    reveal_strlit("/send ");
    reveal_strlit("/quit");
    assert(s[1] != "/quit"@[1]);
    reveal_strlit("/exit");
    assert(s[1] != "/exit"@[1]);
    reveal_strlit("/peers");
    assert(s[1] != "/peers"@[1]);
    reveal_strlit("/who");
    assert(s[1] != "/who"@[1]);
    reveal_strlit("/status");
    assert(s[2] != "/status"@[2]);
    reveal_strlit("/id");
    assert(s[1] != "/id"@[1]);
    reveal_strlit("/me");
    assert(s[1] != "/me"@[1]);
    reveal_strlit("/inspect");
    assert(s[1] != "/inspect"@[1]);
    reveal_strlit("/diag");
    assert(s[1] != "/diag"@[1]);
    reveal_strlit("/clear");
    assert(s[1] != "/clear"@[1]);
    reveal_strlit("/log clear");
    assert(s[1] != "/log clear"@[1]);
    reveal_strlit("/help");
    assert(s[1] != "/help"@[1]);
}

proof fn lemma_accept_line(arg: Seq<char>)
    ensures
        ({
            let s = "/accept"@ + arg;
            &&& s != "/quit"@
            &&& s != "/exit"@
            &&& s != "/peers"@
            &&& s != "/who"@
            &&& s != "/status"@
            &&& s != "/id"@
            &&& s != "/me"@
            &&& s != "/inspect"@
            &&& s != "/diag"@
            &&& s != "/clear"@
            &&& s != "/log clear"@
            &&& s != "/help"@
        }),
{
    let s = "/accept"@ + arg;
    reveal_strlit("/accept");
    reveal_strlit("/quit");
    assert(s[1] != "/quit"@[1]);
    reveal_strlit("/exit");
    assert(s[1] != "/exit"@[1]);
    reveal_strlit("/peers");
    assert(s[1] != "/peers"@[1]);
    reveal_strlit("/who");
    assert(s[1] != "/who"@[1]);
    reveal_strlit("/status");
    assert(s[1] != "/status"@[1]);
    reveal_strlit("/id");
    assert(s[1] != "/id"@[1]);
    reveal_strlit("/me");
    assert(s[1] != "/me"@[1]);
    reveal_strlit("/inspect");
    assert(s[1] != "/inspect"@[1]);
    reveal_strlit("/diag");
    assert(s[1] != "/diag"@[1]);
    reveal_strlit("/clear");
    assert(s[1] != "/clear"@[1]);
    reveal_strlit("/log clear");
    assert(s[1] != "/log clear"@[1]);
    reveal_strlit("/help");
    assert(s[1] != "/help"@[1]);
}

proof fn lemma_theme_line(arg: Seq<char>)
    ensures
        ({
            let s = "/theme "@ + arg;
            &&& s != "/quit"@
            &&& s != "/exit"@
            &&& s != "/peers"@
            &&& s != "/who"@
            &&& s != "/status"@
            &&& s != "/id"@
            &&& s != "/me"@
            &&& s != "/inspect"@
            &&& s != "/diag"@
            &&& s != "/clear"@
            &&& s != "/log clear"@
            &&& s != "/help"@
        }),
{
    let s = "/theme "@ + arg;
    reveal_strlit("/theme ");
    reveal_strlit("/quit");
    assert(s[1] != "/quit"@[1]);
    reveal_strlit("/exit");
    assert(s[1] != "/exit"@[1]);
    reveal_strlit("/peers");
    assert(s[1] != "/peers"@[1]);
    reveal_strlit("/who");
    assert(s[1] != "/who"@[1]);
    reveal_strlit("/status");
    assert(s[1] != "/status"@[1]);
    reveal_strlit("/id");
    assert(s[1] != "/id"@[1]);
    reveal_strlit("/me");
    assert(s[1] != "/me"@[1]);
    reveal_strlit("/inspect");
    assert(s[1] != "/inspect"@[1]);
    reveal_strlit("/diag");
    assert(s[1] != "/diag"@[1]);
    reveal_strlit("/clear");
    assert(s[1] != "/clear"@[1]);
    reveal_strlit("/log clear");
    assert(s[1] != "/log clear"@[1]);
    reveal_strlit("/help");
    assert(s[1] != "/help"@[1]);
}

/// The command to connect dials the address behind it, where there is one.
pub proof fn law_connect_command(
    v: AppView,
    arg: Seq<char>,
    public_addr: Seq<char>,
    now: u64,
    mono: u64,
)
    ensures
        ({
            let (w, command) = commands::after_command(
                v,
                "/connect "@ + arg,
                public_addr,
                now,
                mono,
            );
            let addr = text::trimmed(arg);
            let (x, plan) = net::after_request(v, "manual"@, None, addr, false, false, now);
            &&& addr.len() > 0 ==> w == x && command == match plan {
                Some(p) => CommandView::Dial { plan: p },
                None => CommandView::Nothing,
            }
            &&& addr.len() == 0 ==> command == CommandView::Nothing && w.history.last().kind
                == MsgKind::Error
        }),
{
    lemma_connect_line(arg);
    letters::law_behind_a_prefix("/connect "@, arg);
}

/// The command to send offers the file at the path behind it, with or without its slash.
pub proof fn law_send_command(
    v: AppView,
    arg: Seq<char>,
    public_addr: Seq<char>,
    now: u64,
    mono: u64,
)
    ensures
        ({
            let (w, command) = commands::after_command(v, "/send "@ + arg, public_addr, now, mono);
            let (x, path) = files::after_send_command(v, arg, now);
            w == x && command == match path {
                Some(p) => CommandView::Look { path: p },
                None => CommandView::Nothing,
            }
        }),
        commands::after_command(v, "send "@ + arg, public_addr, now, mono)
            == commands::after_command(v, "/send "@ + arg, public_addr, now, mono),
{
    let s = "/send "@ + arg;
    let t = "send "@ + arg;
    lemma_send_line(arg);
    letters::law_behind_a_prefix("/send "@, arg);
    letters::law_behind_a_prefix("send "@, arg);
    reveal_strlit("/send ");
    reveal_strlit("send ");
    reveal_strlit("/connect ");
    assert(s[1] == 's');
    assert(t[0] == 's');
    lemma_not_behind(s, "/connect "@, 1);
    lemma_no_slash(t);
}

/// The command to accept wants the file whose number stands behind it, or the only one there is.
pub proof fn law_accept_command(
    v: AppView,
    arg: Seq<char>,
    public_addr: Seq<char>,
    now: u64,
    mono: u64,
)
    ensures
        commands::after_command(v, "/accept"@, public_addr, now, mono) == (
            v,
            CommandView::Accept { wanted: None },
        ),
        commands::after_command(v, "/accept "@ + arg, public_addr, now, mono) == (
            v,
            CommandView::Accept {
                wanted: match text::number(text::trimmed(arg), 0xffff_ffff) {
                    Some(n) => Some(n as u32),
                    None => None,
                },
            },
        ),
{
    let a = "/accept "@ + arg;
    reveal_strlit("/accept");
    reveal_strlit("/accept ");
    reveal_strlit("/connect ");
    reveal_strlit("/send ");
    reveal_strlit("send ");
    assert("/accept"@ + Seq::<char>::empty() =~= "/accept"@);
    lemma_accept_line(Seq::empty());
    assert(a =~= "/accept"@ + (seq![' '] + arg));
    lemma_accept_line(seq![' '] + arg);
    letters::law_behind_a_prefix("/accept "@, arg);
    assert(a[1] == 'a' && a[0] == '/');
    assert(a.len() > 7);
    lemma_not_behind("/accept"@, "/connect "@, 1);
    lemma_not_behind("/accept"@, "/send "@, 1);
    lemma_not_behind("/accept"@, "send "@, 0);
    lemma_not_behind(a, "/connect "@, 1);
    lemma_not_behind(a, "/send "@, 1);
    lemma_not_behind(a, "send "@, 0);
}

/// The command for the looks takes those that are named behind it.
pub proof fn law_theme_command(
    v: AppView,
    arg: Seq<char>,
    public_addr: Seq<char>,
    now: u64,
    mono: u64,
)
    ensures
        ({
            let (w, command) = commands::after_command(v, "/theme "@ + arg, public_addr, now, mono);
            &&& command == CommandView::Nothing
            &&& w.theme == app::theme_of(text::trimmed(arg))
            &&& w.history.last().kind == MsgKind::System
        }),
{
    let h = "/theme "@ + arg;
    lemma_theme_line(arg);
    reveal_strlit("/theme ");
    reveal_strlit("/accept");
    reveal_strlit("/accept ");
    reveal_strlit("/connect ");
    reveal_strlit("/send ");
    reveal_strlit("send ");
    letters::law_behind_a_prefix("/theme "@, arg);
    assert(h[1] == 't' && h[0] == '/');
    assert(h[1] != "/accept"@[1]);
    lemma_not_behind(h, "/connect "@, 1);
    lemma_not_behind(h, "/send "@, 1);
    lemma_not_behind(h, "send "@, 0);
    lemma_not_behind(h, "/accept "@, 1);
}

/// The lines that the user is told are the last ones of the chat, in their order.
pub proof fn law_lines_are_told(v: AppView, lines: Seq<Seq<char>>, now: u64, i: int)
    requires
        lines.len() <= 1000,
    ensures
        ({
            let w = commands::told_all(v, lines, now);
            &&& w.history.len() >= lines.len()
            &&& 0 <= i < lines.len() ==> w.history[w.history.len() - lines.len() + i].text
                == lines[i] && w.history[w.history.len() - lines.len() + i].kind == MsgKind::System
        }),
    decreases lines.len(),
{
    if lines.len() > 0 {
        law_lines_are_told(v, lines.drop_last(), now, i);
    }
}

/// The list of peers names every connected one, in its order, with its address and what was heard
/// from it and said to it, under a line that counts them.
pub proof fn law_peers_are_listed(
    v: AppView,
    public_addr: Seq<char>,
    now: u64,
    mono: u64,
    who: bool,
    i: int,
)
    requires
        v.peers.len() <= 16,
    ensures
        ({
            let s = v.peers.filter(|p: PeerView| p.info.handshake_done && !p.dead);
            let w = commands::after_command(
                v,
                if who {
                    "/who"@
                } else {
                    "/peers"@
                },
                public_addr,
                now,
                mono,
            ).0;
            let from = w.history.len() - s.len() - 1;
            &&& from >= 0
            &&& w.history[from].text == text::dec(s.len()) + " peer"@ + (if s.len() == 1 {
                ""@
            } else {
                "s"@
            }) + " connected"@
            &&& 0 <= i < s.len() ==> w.history[from + 1 + i].text == (if s[i].info.remote_nick.len()
                == 0 {
                "?"@
            } else {
                s[i].info.remote_nick
            }) + "  "@ + s[i].info.remote_pid_short + "  "@ + s[i].info.addr + "  rx"@ + text::dec(
                s[i].info.msgs_rx as nat,
            ) + " tx"@ + text::dec(s[i].info.msgs_tx as nat)
        }),
{
    lemma_plain_commands();
    people::law_connected_peers(v.peers);
    lemma_no_more(v.peers);
    let s = app::online(v.peers);
    law_lines_are_told(v, commands::peers_lines(s), now, 0);
    law_lines_are_told(v, commands::peers_lines(s), now, i + 1);
}

proof fn lemma_no_more(peers: Seq<PeerView>)
    ensures
        app::online(peers).len() <= peers.len(),
    decreases peers.len(),
{
    if peers.len() > 0 {
        lemma_no_more(peers.drop_last());
    }
}

proof fn lemma_plain_commands()
    ensures
        "/peers"@ != "/quit"@ && "/peers"@ != "/exit"@,
        "/who"@ != "/quit"@ && "/who"@ != "/exit"@ && "/who"@ != "/peers"@,
        "/inspect"@ != "/quit"@ && "/inspect"@ != "/exit"@ && "/inspect"@ != "/peers"@
            && "/inspect"@ != "/who"@ && "/inspect"@ != "/status"@ && "/inspect"@ != "/id"@
            && "/inspect"@ != "/me"@,
        "/diag"@ != "/quit"@ && "/diag"@ != "/exit"@ && "/diag"@ != "/peers"@ && "/diag"@ != "/who"@
            && "/diag"@ != "/status"@ && "/diag"@ != "/id"@ && "/diag"@ != "/me"@,
        "/id"@ != "/quit"@ && "/id"@ != "/exit"@ && "/id"@ != "/peers"@ && "/id"@ != "/who"@
            && "/id"@ != "/status"@,
        "/me"@ != "/quit"@ && "/me"@ != "/exit"@ && "/me"@ != "/peers"@ && "/me"@ != "/who"@
            && "/me"@ != "/status"@,
        "/status"@ != "/quit"@ && "/status"@ != "/exit"@ && "/status"@ != "/peers"@ && "/status"@
            != "/who"@,
        "/clear"@ != "/quit"@ && "/clear"@ != "/exit"@ && "/clear"@ != "/peers"@ && "/clear"@
            != "/who"@ && "/clear"@ != "/status"@ && "/clear"@ != "/id"@ && "/clear"@ != "/me"@
            && "/clear"@ != "/inspect"@ && "/clear"@ != "/diag"@,
        "/log clear"@ != "/quit"@ && "/log clear"@ != "/exit"@ && "/log clear"@ != "/peers"@
            && "/log clear"@ != "/who"@ && "/log clear"@ != "/status"@ && "/log clear"@ != "/id"@
            && "/log clear"@ != "/me"@ && "/log clear"@ != "/inspect"@ && "/log clear"@ != "/diag"@
            && "/log clear"@ != "/clear"@,
{
    reveal_strlit("/quit");
    reveal_strlit("/exit");
    reveal_strlit("/peers");
    reveal_strlit("/who");
    reveal_strlit("/status");
    reveal_strlit("/id");
    reveal_strlit("/me");
    reveal_strlit("/inspect");
    reveal_strlit("/diag");
    reveal_strlit("/clear");
    reveal_strlit("/log clear");
    assert("/peers"@[1] == 'p' && "/who"@[1] == 'w' && "/quit"@[1] == 'q' && "/exit"@[1] == 'e');
    assert("/inspect"@[1] == 'i' && "/inspect"@[2] == 'n' && "/id"@[1] == 'i' && "/id"@[2] == 'd');
    assert("/diag"@[1] == 'd' && "/me"@[1] == 'm' && "/status"@[1] == 's');
    assert("/clear"@[1] == 'c' && "/log clear"@[1] == 'l');
}

/// A closer look names every connected peer with its number and its full id, or its short one where
/// there is no other, and then its address, its role and its traffic.
pub proof fn law_peers_are_inspected(
    v: AppView,
    public_addr: Seq<char>,
    now: u64,
    mono: u64,
    diag: bool,
    i: int,
)
    requires
        v.peers.len() <= 16,
    ensures
        ({
            let s = v.peers.filter(|p: PeerView| p.info.handshake_done && !p.dead);
            let w = commands::after_command(
                v,
                if diag {
                    "/diag"@
                } else {
                    "/inspect"@
                },
                public_addr,
                now,
                mono,
            ).0;
            let from = w.history.len() - 2 * s.len();
            &&& s.len() > 0 ==> from >= 0
            &&& 0 <= i < s.len() ==> {
                let info = s[i].info;
                &&& w.history[from + 2 * i].text == "peer "@ + text::dec((i + 1) as nat) + ": "@ + (
                if info.remote_nick.len() == 0 {
                    "?"@
                } else {
                    info.remote_nick
                }) + "  "@ + (if info.remote_pid_full.len() == 0 {
                    info.remote_pid_short
                } else {
                    info.remote_pid_full
                })
                &&& w.history[from + 2 * i + 1].text == "  addr "@ + info.addr + "  role "@ + (
                if info.initiator {
                    "dialer"@
                } else {
                    "listener"@
                }) + "  rx "@ + text::dec(info.msgs_rx as nat) + "/"@ + text::dec(
                    info.bytes_rx as nat,
                ) + "B  tx "@ + text::dec(info.msgs_tx as nat) + "/"@ + text::dec(
                    info.bytes_tx as nat,
                ) + "B"@
            }
            &&& s.len() == 0 ==> w.history.last().text == "inspect: no connected peers yet"@
        }),
{
    lemma_plain_commands();
    people::law_connected_peers(v.peers);
    lemma_no_more(v.peers);
    let s = app::online(v.peers);
    lemma_details(s, i);
    law_lines_are_told(v, commands::inspect_lines(s), now, 2 * i);
    law_lines_are_told(v, commands::inspect_lines(s), now, 2 * i + 1);
    law_lines_are_told(v, commands::inspect_lines(s), now, 0);
}

proof fn lemma_details(s: Seq<PeerView>, i: int)
    ensures
        commands::peers_details(s).len() == 2 * s.len(),
        0 <= i < s.len() ==> commands::peers_details(s)[2 * i] == commands::who_line(i, s[i].info)
            && commands::peers_details(s)[2 * i + 1] == commands::traffic_line(s[i].info),
    decreases s.len(),
{
    if s.len() > 0 {
        lemma_details(s.drop_last(), i);
        if 0 <= i < s.len() - 1 {
            assert(s.drop_last()[i] == s[i]);
        }
    }
}

/// The user is told who this peer is: its nick, its id, where it listens and where it can be reached.
pub proof fn law_identity_is_told(
    v: AppView,
    public_addr: Seq<char>,
    now: u64,
    mono: u64,
    me: bool,
)
    ensures
        ({
            let w = commands::after_command(
                v,
                if me {
                    "/me"@
                } else {
                    "/id"@
                },
                public_addr,
                now,
                mono,
            ).0;
            let n = w.history.len();
            &&& n >= 4
            &&& w.history[n - 4].text == "nick: "@ + v.nick
            &&& w.history[n - 3].text == "peer id: "@ + v.identity.peer_id
            &&& w.history[n - 2].text == "multiaddr: "@ + ("/ip4/"@ + v.lan_ip + "/tcp/"@
                + text::dec(v.listen_port as nat) + "/p2p/"@ + v.identity.peer_id)
            &&& w.history[n - 1].text == "public addr: "@ + public_addr
        }),
{
    lemma_plain_commands();
    let lines = commands::id_lines(v, public_addr);
    law_lines_are_told(v, lines, now, 0);
    law_lines_are_told(v, lines, now, 1);
    law_lines_are_told(v, lines, now, 2);
    law_lines_are_told(v, lines, now, 3);
}

/// Clearing empties the chat, or the log, but for the note that says so, and leaves the other alone.
pub proof fn law_cleared(v: AppView, public_addr: Seq<char>, now: u64, mono: u64)
    ensures
        ({
            let w = commands::after_command(v, "/clear"@, public_addr, now, mono).0;
            &&& w.history.len() == 1
            &&& w.history[0].kind == MsgKind::System
            &&& w.netlog.last().level == NetLevel::Info
        }),
        ({
            let w = commands::after_command(v, "/log clear"@, public_addr, now, mono).0;
            &&& w.netlog.len() == 1
            &&& w.netlog[0].level == NetLevel::Okay
            &&& w.history == v.history
        }),
{
    lemma_plain_commands();
}

/// One turn of the user interface does what the user did, and draws when something changed or a
/// quarter of a second has gone by.
pub proof fn law_turn(
    v: AppView,
    line: Seq<char>,
    public_addr: Seq<char>,
    last_render: u64,
    begun: u64,
    now: u64,
    mono: u64,
)
    ensures
        commands::after_turn(
            v,
            UiActionView::Nothing,
            public_addr,
            last_render,
            begun,
            now,
            mono,
        ) == (v, CommandView::Nothing, begun >= last_render + 250_000_000),
        commands::after_turn(
            v,
            UiActionView::Redraw,
            public_addr,
            last_render,
            begun,
            now,
            mono,
        ) == (v, CommandView::Nothing, true),
        commands::after_turn(
            v,
            UiActionView::Quit,
            public_addr,
            last_render,
            begun,
            now,
            mono,
        ) == (
            AppView { quit: true, ..v },
            CommandView::Nothing,
            begun >= last_render + 250_000_000,
        ),
        ({
            let r = commands::after_turn(
                v,
                UiActionView::Submit(line),
                public_addr,
                last_render,
                begun,
                now,
                mono,
            );
            let c = commands::after_command(v, line, public_addr, now, mono);
            r.0 == c.0 && r.1 == c.1 && r.2
        }),
{
}

/// At the start a peer learns where it listens and nothing else of it changes but its logs; others
/// are told the given address, or the one at which it listens.
pub proof fn law_start(
    v: AppView,
    a: ArgsView,
    lan_ip: Seq<char>,
    port: u16,
    now: u64,
)
    ensures
        ({
            let w = commands::after_startup(v, a, lan_ip, port, now);
            &&& w == (AppView {
                lan_ip,
                listen_port: port,
                history: w.history,
                netlog: w.netlog,
                ..v
            })
            &&& a.rendezvous is None ==> w.history.last().kind == MsgKind::System
            &&& a.rendezvous is Some && rendezvous::token_of(a.room).len() == 0
                ==> w.history.last().kind == MsgKind::Error
            &&& a.public_addr matches Some(p) ==> commands::given_addr(w, a) == p
            &&& a.public_addr is None ==> commands::given_addr(w, a) == "/ip4/"@ + lan_ip + "/tcp/"@
                + text::dec(port as nat) + "/p2p/"@ + v.identity.peer_id
        }),
{
}

/// A dotted address is private where it begins with 10, 127, 192.168 or 172.16 to 172.31; the names
/// of this machine are too.
pub proof fn law_private_hosts(a: u8, b: u8, c: u8, d: u8)
    ensures
        commands::is_local_host(letters::dotted(a, b, c, d)) == (a == 10 || a == 127 || (a == 192
            && b == 168) || (a == 172 && 16 <= b <= 31)),
        commands::is_local_host("localhost"@),
        commands::is_local_host("::1"@),
{
    let s = letters::dotted(a, b, c, d);
    let p = text::pieces(s, '.');
    letters::law_dotted_numbers(a, b, c, d);
    text::law_number_of_dec(a as nat, 255);
    text::law_number_of_dec(b as nat, 255);
    text::law_number_of_dec(c as nat, 255);
    text::law_number_of_dec(d as nat, 255);
    reveal_with_fuel(commands::octets, 5);
    assert(p.drop_last() =~= seq![p[0], p[1], p[2]]);
    assert(p.drop_last().drop_last() =~= seq![p[0], p[1]]);
    assert(p.drop_last().drop_last().drop_last() =~= seq![p[0]]);
    assert(p.drop_last().drop_last().drop_last().drop_last() =~= Seq::<Seq<char>>::empty());
    assert(commands::octets(p) =~= seq![a, b, c, d]);
    reveal_strlit("localhost");
    reveal_strlit("127.0.0.1");
    reveal_strlit("::1");
    reveal_strlit(".");
    assert(text::is_dec_digit(text::dec(a as nat)[0]));
    assert(s[0] == text::dec(a as nat)[0]);
    if s == "127.0.0.1"@ {
        let h = "127"@;
        reveal_strlit("127");
        reveal_strlit("0.0.1");
        let z = "0.0.1"@;
        assert("127.0.0.1"@ =~= h.push('.') + z);
        letters::law_pieces(h, z, '.');
        assert(p[0] == h);
        assert(h =~= seq!['1', '2', '7']);
        letters::law_number_reads_digits(Seq::empty(), '1', 9, 9);
        letters::law_number_reads_digits(seq!['1'], '2', 99, 9);
        assert(seq!['1'].push('2') =~= seq!['1', '2']);
        letters::law_number_reads_digits(seq!['1', '2'], '7', 255, 99);
        assert(seq!['1', '2'].push('7') =~= h);
        assert(a == 127);
    }
}

/// An address to be reached at is warned of where it cannot be dialled or where its host is private,
/// and only there.
pub proof fn law_warned_of_addresses(addr: Seq<char>)
    ensures
        commands::addr_warning(addr) is None <==> (net::address_of(addr) matches Some((host, _))
            && !commands::is_local_host(host)),
{
}

/// The status tells where this peer listens, how long it has been up, how many peers are connected
/// and how many messages came and went.
pub proof fn law_status_is_told(v: AppView, public_addr: Seq<char>, now: u64, mono: u64)
    ensures
        ({
            let w = commands::after_command(v, "/status"@, public_addr, now, mono).0;
            let n = w.history.len();
            let (rx, tx) = crate::tui::msg_stats(v.peers);
            &&& n >= 2
            &&& w.history[n - 2].text == "status: "@ + v.lan_ip + ":"@ + text::dec(
                v.listen_port as nat,
            ) + "  uptime "@ + util::duration_text(util::elapsed(v.started_at, mono)) + "  peers "@
                + text::dec(
                v.peers.filter(|p: PeerView| p.info.handshake_done && !p.dead).len(),
            ) + "  rx "@ + text::dec(rx as nat) + " msg  tx "@ + text::dec(tx as nat) + " msg"@
        }),
{
    lemma_plain_commands();
    people::law_connected_peers(v.peers);
    law_lines_are_told(v, commands::status_lines(v, mono), now, 0);
}

/// A command that is not known is an error and asks for nothing.
pub proof fn law_unknown_command(
    v: AppView,
    name: Seq<char>,
    public_addr: Seq<char>,
    now: u64,
    mono: u64,
)
    requires
        name.len() > 0,
        name[0] == 'x',
    ensures
        ({
            let (w, command) = commands::after_command(
                v,
                "/"@ + name,
                public_addr,
                now,
                mono,
            );
            command == CommandView::Nothing && w.history.last().kind == MsgKind::Error && w.quit
                == v.quit
        }),
{
    let s = "/"@ + name;
    reveal_strlit("/");
    reveal_strlit("/quit");
    reveal_strlit("/exit");
    reveal_strlit("/peers");
    reveal_strlit("/who");
    reveal_strlit("/status");
    reveal_strlit("/id");
    reveal_strlit("/me");
    reveal_strlit("/inspect");
    reveal_strlit("/diag");
    reveal_strlit("/clear");
    reveal_strlit("/log clear");
    reveal_strlit("/help");
    reveal_strlit("/accept");
    reveal_strlit("/connect ");
    reveal_strlit("/send ");
    reveal_strlit("send ");
    reveal_strlit("/accept ");
    reveal_strlit("/theme ");
    assert(s[0] == '/' && s[1] == 'x');
    lemma_not_behind(s, "/connect "@, 1);
    lemma_not_behind(s, "/send "@, 1);
    lemma_not_behind(s, "send "@, 0);
    lemma_not_behind(s, "/accept "@, 1);
    lemma_not_behind(s, "/theme "@, 1);
}

/// A host without a dot is private only where it is one of the names of this machine.
pub proof fn law_names_are_not_private(host: Seq<char>)
    requires
        forall|i: int| 0 <= i < host.len() ==> host[i] != '.',
        host != "localhost"@,
        host != "::1"@,
    ensures
        !commands::is_local_host(host),
{
    letters::law_pieces(host, host, '.');
    reveal_strlit("127.0.0.1");
    assert("127.0.0.1"@[3] == '.');
    reveal_with_fuel(commands::octets, 2);
    assert(seq![host].drop_last() =~= Seq::<Seq<char>>::empty());
}

/// At the start the log says which server and room are used, and last of all what speaks against the
/// address that others are told.
pub proof fn law_server_is_noted(
    v: AppView,
    a: ArgsView,
    server: Seq<char>,
    lan_ip: Seq<char>,
    port: u16,
    now: u64,
)
    requires
        a.rendezvous == Some(server),
    ensures
        ({
            let w = commands::after_startup(v, a, lan_ip, port, now);
            let room = rendezvous::token_of(a.room);
            let warning = commands::addr_warning(commands::given_addr(w, a));
            &&& warning matches Some(t) ==> w.netlog.last().level == NetLevel::Warn
                && w.netlog.last().text == t
            &&& warning is None && a.public_addr is None ==> w.netlog.last().level == NetLevel::Warn
            &&& warning is None && a.public_addr is Some && room.len() > 0 && room == a.room
                ==> w.netlog.last().level == NetLevel::Info && w.netlog.last().text
                == "rendezvous server "@ + server + " room "@ + room
            &&& warning is None && a.public_addr is Some && room.len() > 0 && room != a.room
                ==> w.netlog.last().level == NetLevel::Warn && w.netlog.last().text
                == "rendezvous room sanitized to "@ + room
            &&& room.len() > 0 ==> w.history.last().kind == MsgKind::System
        }),
{
}

}
