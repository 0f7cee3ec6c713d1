//! Names, limits and frame kinds of the chat protocol.
use vstd::prelude::*;

verus! {

pub const CHAT_PROTO: &'static str = "/speer/chat/1.0.0";

pub const CHAT_SERVICE_TYPE: &'static str = "_speer-chat._tcp";

pub const MAX_PEERS: usize = 16;

pub const MAX_NICK_LEN: usize = 32;

pub const MAX_TEXT_LEN: usize = 1024;

pub const MAX_RX_FILES: usize = 8;

pub const FILE_CHUNK_BYTES: usize = 384;

pub const HANDSHAKE_TIMEOUT_MS: i32 = 10_000;

/// The room for one encoded frame.
pub const MAX_FRAME_LEN: usize = 1280;

/// How many chat lines are kept.
pub const MAX_HISTORY: usize = 1000;

/// How many network log lines are kept.
pub const MAX_NETLOG: usize = 256;

pub const CHAT_TYPE_HELLO: u32 = 1;

pub const CHAT_TYPE_MSG: u32 = 2;

pub const CHAT_TYPE_BYE: u32 = 3;

pub const CHAT_TYPE_FILE_META: u32 = 4;

pub const CHAT_TYPE_FILE_CHUNK: u32 = 5;

pub const CHAT_TYPE_FILE_DONE: u32 = 6;

pub const CHAT_TYPE_FILE_ACCEPT: u32 = 7;

}
