//! The decisions around the native library: strings, keys, and sockets.
use vstd::prelude::*;
use vstd::string::*;
use vstd::utf8::*;

use crate::constants::MAX_NICK_LEN;
use crate::text;

verus! {

/// The keys of this peer and the peer id that they give.
pub struct Identity {
    pub static_pub: [u8; 32],
    pub static_priv: [u8; 32],
    pub ed_pub: [u8; 32],
    pub ed_seed: [u8; 32],
    pub peer_id: String,
}

/// `s` without its NUL characters.
pub open spec fn without_nul(s: Seq<char>) -> Seq<char>
    decreases s.len(),
{
    if s.len() == 0 {
        s
    } else if s.last() == '\0' {
        without_nul(s.drop_last())
    } else {
        without_nul(s.drop_last()).push(s.last())
    }
}

/// The bytes of `s` as a C string holds them before its terminator: NUL characters are left out.
pub fn cstring(s: &str) -> (r: Vec<u8>)
    ensures
        r@ == encode_utf8(without_nul(s@)),
{
    let chars = text::chars_of(s);
    let mut out = String::new();
    let mut i: usize = 0;
    while i < chars.len()
        invariant
            i <= chars@.len(),
            out@ == without_nul(chars@.take(i as int)),
        decreases chars@.len() - i,
    {
        proof {
            assert(chars@.take(i + 1).drop_last() =~= chars@.take(i as int));
        }
        if chars[i] != '\0' {
            out.push(chars[i]);
        }
        i += 1;
    }
    proof {
        assert(chars@.take(chars@.len() as int) =~= chars@);
    }
    vstd::slice::slice_to_vec(out.as_str().as_bytes())
}

/// A C string holds no NUL character, and text without one is held unchanged.
pub proof fn law_without_nul(s: Seq<char>)
    ensures
        forall|i: int| 0 <= i < without_nul(s).len() ==> #[trigger] without_nul(s)[i] != '\0',
        (forall|i: int| 0 <= i < s.len() ==> #[trigger] s[i] != '\0') ==> without_nul(s) == s,
    decreases s.len(),
{
    if s.len() > 0 {
        let head = without_nul(s.drop_last());
        law_without_nul(s.drop_last());
        assert(s =~= s.drop_last().push(s.last()));
        assert forall|i: int| 0 <= i < without_nul(s).len() implies #[trigger] without_nul(s)[i]
            != '\0' by {
            if i < head.len() {
                assert(without_nul(s)[i] == head[i]);
            }
        }
        if forall|i: int| 0 <= i < s.len() ==> #[trigger] s[i] != '\0' {
            assert(s[s.len() - 1] != '\0');
            assert forall|i: int| 0 <= i < s.drop_last().len() implies #[trigger] s.drop_last()[i]
                != '\0' by {
                assert(s[i] != '\0');
            }
        }
    }
}

/// The unsigned byte with the bits of `c`.
pub open spec fn byte_of(c: i8) -> u8 {
    (if c < 0 {
        c + 256
    } else {
        c as int
    }) as u8
}

/// The bytes of `buf` before its first zero.
pub open spec fn c_bytes(buf: Seq<i8>) -> Seq<u8>
    decreases buf.len(),
{
    if buf.len() == 0 || buf[0] == 0 {
        Seq::empty()
    } else {
        seq![byte_of(buf[0])] + c_bytes(buf.skip(1))
    }
}

/// The bytes of a C character array before its first zero.
pub fn c_char_bytes(buf: &[i8]) -> (r: Vec<u8>)
    ensures
        r@ == c_bytes(buf@),
{
    let mut out: Vec<u8> = Vec::new();
    let mut i: usize = 0;
    proof {
        assert(buf@.skip(0) =~= buf@);
    }
    while i < buf.len() && buf[i] != 0
        invariant
            i <= buf@.len(),
            c_bytes(buf@) == out@ + c_bytes(buf@.skip(i as int)),
        decreases buf@.len() - i,
    {
        let c = buf[i];
        let b: u8 = if c < 0 { (c as i16 + 256) as u8 } else { c as u8 };
        proof {
            assert(buf@.skip(i as int).skip(1) =~= buf@.skip(i + 1));
            assert(out@ + c_bytes(buf@.skip(i as int)) =~= out@.push(byte_of(c)) + c_bytes(
                buf@.skip(i + 1),
            ));
        }
        out.push(b);
        i += 1;
    }
    proof {
        assert(c_bytes(buf@.skip(i as int)) =~= Seq::<u8>::empty());
        assert(out@ =~= c_bytes(buf@));
    }
    out
}

/// The text in a C character array, up to its first zero.
pub fn c_char_array_to_string(buf: &[i8]) -> (r: String)
    ensures
        r@ == text::reading(c_bytes(buf@)),
{
    let bytes = c_char_bytes(buf);
    text::lossy_text(bytes.as_slice())
}

/// Why an identity could not be made.
#[derive(Clone, Copy, PartialEq, Eq, Structural, Debug)]
pub enum IdentityError {
    Random,
    PubkeyProto,
    PeerId,
    Base58,
}

impl IdentityError {
    /// The error in words.
    pub open spec fn words(self) -> Seq<char> {
        match self {
            IdentityError::Random => "speer_random_bytes_or_fail failed"@,
            IdentityError::PubkeyProto => "pubkey proto encode failed"@,
            IdentityError::PeerId => "peer id generation failed"@,
            IdentityError::Base58 => "peer id base58 failed"@,
        }
    }

    /// The error in words.
    pub fn message(self) -> (r: String)
        ensures
            r@ == self.words(),
    {
        match self {
            IdentityError::Random => "speer_random_bytes_or_fail failed".to_owned(),
            IdentityError::PubkeyProto => "pubkey proto encode failed".to_owned(),
            IdentityError::PeerId => "peer id generation failed".to_owned(),
            IdentityError::Base58 => "peer id base58 failed".to_owned(),
        }
    }
}

/// The random bytes that a call returned, unless its return code says that it failed.
pub fn random_bytes<const N: usize>(rc: i32, bytes: [u8; N]) -> (r: Result<[u8; N], IdentityError>)
    ensures
        r == (if rc != 0 {
            Err(IdentityError::Random)
        } else {
            Ok(bytes)
        }),
{
    if rc != 0 {
        return Err(IdentityError::Random);
    }
    Ok(bytes)
}

/// What the native calls gave on the way to an identity, with the return code of each that can fail.
pub struct IdentityParts {
    pub static_rc: i32,
    pub static_priv: [u8; 32],
    pub static_pub: [u8; 32],
    pub seed_rc: i32,
    pub ed_seed: [u8; 32],
    pub ed_pub: [u8; 32],
    pub proto_rc: i32,
    pub pid_rc: i32,
    pub b58_rc: i32,
    pub b58: Vec<i8>,
}

impl IdentityParts {
    /// The first step that failed.
    pub open spec fn failure(self) -> Option<IdentityError> {
        if self.static_rc != 0 || self.seed_rc != 0 {
            Some(IdentityError::Random)
        } else if self.proto_rc != 0 {
            Some(IdentityError::PubkeyProto)
        } else if self.pid_rc != 0 {
            Some(IdentityError::PeerId)
        } else if self.b58_rc != 0 {
            Some(IdentityError::Base58)
        } else {
            None
        }
    }
}

/// The identity that the native calls gave, or the first failure among them.
pub fn make_identity(parts: IdentityParts) -> (r: Result<Identity, IdentityError>)
    ensures
        match parts.failure() {
            Some(e) => r == Err::<Identity, IdentityError>(e),
            None => r matches Ok(id) && id.static_pub == parts.static_pub && id.static_priv
                == parts.static_priv && id.ed_pub == parts.ed_pub && id.ed_seed == parts.ed_seed
                && id.peer_id@ == text::reading(c_bytes(parts.b58@)),
        },
{
    let static_priv = match random_bytes::<32>(parts.static_rc, parts.static_priv) {
        Ok(bytes) => bytes,
        Err(e) => {
            return Err(e);
        },
    };
    let ed_seed = match random_bytes::<32>(parts.seed_rc, parts.ed_seed) {
        Ok(bytes) => bytes,
        Err(e) => {
            return Err(e);
        },
    };
    if parts.proto_rc != 0 {
        return Err(IdentityError::PubkeyProto);
    }
    if parts.pid_rc != 0 {
        return Err(IdentityError::PeerId);
    }
    if parts.b58_rc != 0 {
        return Err(IdentityError::Base58);
    }
    let peer_id = c_char_array_to_string(parts.b58.as_slice());
    Ok(
        Identity {
            static_pub: parts.static_pub,
            static_priv,
            ed_pub: parts.ed_pub,
            ed_seed,
            peer_id,
        },
    )
}

/// The address of this host on its network: the local address of a probing socket, or the loopback
/// address where there is none.
pub fn discover_lan_ip(local: Option<String>) -> (r: String)
    ensures
        match local {
            Some(ip) => r@ == ip@,
            None => r@ == "127.0.0.1"@,
        },
{
    match local {
        Some(ip) => ip,
        None => "127.0.0.1".to_owned(),
    }
}

/// The sockets to try to listen on: the preferred one alone, or each from 4001 to 4099.
pub open spec fn candidates(preferred: u16) -> Seq<u16> {
    if preferred != 0 {
        seq![preferred]
    } else {
        Seq::new(99, |i: int| (4001 + i) as u16)
    }
}

/// Whether a call that was to open a socket did: its return code is zero and the descriptor is one.
pub open spec fn opened(outcome: (i32, i32)) -> bool {
    outcome.0 == 0 && outcome.1 >= 0
}

/// What to do next to listen.
#[derive(Clone, Copy, PartialEq, Eq, Structural, Debug)]
pub enum ListenStep {
    /// Try this one.
    Try(u16),
    /// This descriptor listens on this one.
    Ready(i32, u16),
    /// None is left to try.
    Failed,
}

impl ListenStep {
    /// The error in words, where there is one.
    pub open spec fn words(self) -> Option<Seq<char>> {
        match self {
            ListenStep::Failed => Some("tcp listen failed"@),
            _ => None,
        }
    }

    /// The error in words, where there is one.
    pub fn message(self) -> (r: Option<String>)
        ensures
            match self.words() {
                Some(words) => r matches Some(m) && m@ == words,
                None => r is None,
            },
    {
        match self {
            ListenStep::Failed => Some("tcp listen failed".to_owned()),
            _ => None,
        }
    }
}

/// Chooses where to listen. `outcomes` holds the return code and the descriptor of each attempt so
/// far, in the order of the candidates.
pub fn tcp_listen(preferred: u16, outcomes: &Vec<(i32, i32)>) -> (r: ListenStep)
    requires
        outcomes@.len() <= candidates(preferred).len(),
    ensures
        r matches ListenStep::Ready(fd, p) ==> exists|i: int|
            0 <= i < outcomes@.len() && opened(#[trigger] outcomes@[i]) && fd == outcomes@[i].1
                && p == candidates(preferred)[i] && forall|j: int|
                0 <= j < i ==> !opened(#[trigger] outcomes@[j]),
        (exists|i: int| 0 <= i < outcomes@.len() && opened(#[trigger] outcomes@[i])) ==> r is Ready,
        (forall|i: int| 0 <= i < outcomes@.len() ==> !opened(#[trigger] outcomes@[i])) ==> r == (
        if outcomes@.len() < candidates(preferred).len() {
            ListenStep::Try(candidates(preferred)[outcomes@.len() as int])
        } else {
            ListenStep::Failed
        }),
{
    let n: usize = outcomes.len();
    let mut i: usize = 0;
    while i < n
        invariant
            i <= n,
            n == outcomes@.len(),
            n <= candidates(preferred).len(),
            forall|j: int| 0 <= j < i ==> !opened(#[trigger] outcomes@[j]),
        decreases n - i,
    {
        let (rc, fd) = outcomes[i];
        if rc == 0 && fd >= 0 {
            proof {
                assert(opened(outcomes@[i as int]));
            }
            let p: u16 = if preferred != 0 { preferred } else { 4001 + i as u16 };
            return ListenStep::Ready(fd, p);
        }
        i += 1;
    }
    if preferred != 0 {
        if n < 1 {
            ListenStep::Try(preferred)
        } else {
            ListenStep::Failed
        }
    } else if n < 99 {
        ListenStep::Try(4001 + n as u16)
    } else {
        ListenStep::Failed
    }
}

/// The descriptor of a dialled connection, where the call that was to open it did.
pub fn tcp_dial(rc: i32, fd: i32) -> (r: Option<i32>)
    ensures
        r == (if opened((rc, fd)) {
            Some(fd)
        } else {
            None
        }),
{
    if rc == 0 && fd >= 0 {
        Some(fd)
    } else {
        None
    }
}

/// The characters of instance names.
pub open spec fn alphabet() -> Seq<char> {
    "abcdefghijklmnopqrstuvwxyzABCDEFGHIJKLMNOPQRSTUVWXYZ0123456789"@
}

/// The instance name that random bytes give: a letter or digit for each of the first 32.
pub open spec fn name_of_bytes(rb: Seq<u8>) -> Seq<char> {
    Seq::new(
        if rb.len() <= MAX_NICK_LEN {
            rb.len()
        } else {
            MAX_NICK_LEN as nat
        },
        |i: int| alphabet()[rb[i] as int % 62],
    )
}

/// A service instance name made of random bytes.
pub fn random_instance_name(rb: &[u8]) -> (r: String)
    ensures
        r@ == name_of_bytes(rb@),
{
    let alpha = text::chars_of("abcdefghijklmnopqrstuvwxyzABCDEFGHIJKLMNOPQRSTUVWXYZ0123456789");
    proof {
        reveal_strlit("abcdefghijklmnopqrstuvwxyzABCDEFGHIJKLMNOPQRSTUVWXYZ0123456789");
    }
    let mut out = String::new();
    let mut i: usize = 0;
    while i < rb.len() && i < MAX_NICK_LEN
        invariant
            i <= rb@.len(),
            i <= MAX_NICK_LEN,
            alpha@ == alphabet(),
            alpha@.len() == 62,
            out@ == name_of_bytes(rb@).take(i as int),
        decreases rb@.len() - i,
    {
        proof {
            assert(name_of_bytes(rb@).take(i + 1) =~= name_of_bytes(rb@).take(i as int).push(
                name_of_bytes(rb@)[i as int],
            ));
        }
        out.push(alpha[rb[i] as usize % 62]);
        i += 1;
    }
    proof {
        assert(name_of_bytes(rb@).take(i as int) =~= name_of_bytes(rb@));
    }
    out
}

}
