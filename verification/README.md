# speer-chat

A peer-to-peer chat for the terminal. Peers find each other over mDNS, over a rendezvous server or by
address, speak Noise and Yamux over TCP, and exchange messages and files.

- `src/` is the library: every rule of the chat, verified with Verus. It does no input or output. A
  step takes the state and what happened, changes the state and says what has to be done outside.
- `app/` is the program around it: threads, sockets, files, clocks, the native `speer` library and the
  terminal.
- `tests/` runs the library on concrete values.

## Commands

`/connect <addr>`, `/send <path>`, `/accept [id]`, `/status`, `/inspect`, `/id`, `/peers`, `/clear`,
`/log clear`, `/theme modern|midnight|original`, `/help`, `/quit`. Anything else is a message to all
peers.

## Options

`--nick`, `--theme`, `--port`, `--connect`, `--bootstrap`, `--rendezvous`, `--rendezvous-listen`,
`--room`, `--public-addr`; each takes a value, behind a space or an equals sign. A word without a dash
is the nick.

## What is trusted

`std`'s conversions from UTF-8 and `String::push`, what it says of paths on this system, and `ratatui`'s
layout: that the parts of the screen stand in a row and fill it, and how much each has. Their contracts
stand where they are declared, in `src/text.rs`, `src/util.rs`, `src/files.rs` and `src/tui.rs`.
Everything else in `src/` is proved.
