//! Small conversions: names, hex, clock readings, colours, and the public address probe.
use vstd::prelude::*;
use vstd::slice::slice_subrange;
use vstd::string::*;
use vstd::utf8::*;

use crate::text;

verus! {

/// Text that can stand in for another where it is empty.
pub trait IfEmpty: View<V = Seq<char>> + Sized {
    /// The text itself, or `fallback` where it is empty.
    fn if_empty(self, fallback: &str) -> (r: String)
        ensures
            r@ == or_else(self@, fallback@),
    ;
}

/// `s`, or `fallback` where `s` is empty.
pub open spec fn or_else(s: Seq<char>, fallback: Seq<char>) -> Seq<char> {
    if s.len() == 0 {
        fallback
    } else {
        s
    }
}

impl IfEmpty for String {
    fn if_empty(self, fallback: &str) -> (r: String) {
        if self.as_str().is_empty() {
            fallback.to_owned()
        } else {
            self
        }
    }
}

/// What stands between the parts of a path on this system: `std::path::MAIN_SEPARATOR`. The claim is
/// that it is a slash or, as on Windows, a backslash; which one depends on the system.
#[verifier::external_body]
pub(crate) fn main_separator() -> (r: char)
    ensures
        r == '/' || r == '\\',
{
    std::path::MAIN_SEPARATOR
}

/// The 32-bit FNV-1a hash of `bytes`.
pub open spec fn fnv1a(bytes: Seq<u8>) -> u32
    decreases bytes.len(),
{
    if bytes.len() == 0 {
        2166136261
    } else {
        (fnv1a(bytes.drop_last()) ^ (bytes.last() as u32)).wrapping_mul(16777619)
    }
}

/// The place in the peer palette that belongs to `s`.
pub open spec fn color_of(s: Seq<char>) -> int {
    fnv1a(encode_utf8(s)) as int % 6
}

/// The place in the peer palette that belongs to `s`: its FNV-1a hash modulo the palette's size.
pub fn color_idx(s: &str) -> (r: usize)
    ensures
        r == color_of(s@),
        r < 6,
{
    let bytes = s.as_bytes();
    let mut h: u32 = 2166136261;
    let mut i: usize = 0;
    while i < bytes.len()
        invariant
            i <= bytes@.len(),
            h == fnv1a(bytes@.take(i as int)),
        decreases bytes@.len() - i,
    {
        proof {
            assert(bytes@.take(i + 1).drop_last() =~= bytes@.take(i as int));
        }
        h = h ^ (bytes[i] as u32);
        h = h.wrapping_mul(16777619);
        i += 1;
    }
    proof {
        assert(bytes@.take(bytes@.len() as int) =~= bytes@);
    }
    (h as usize) % 6
}

/// Whether `pid` can be shortened: it is at most 14 bytes long, or no character straddles the end
/// of its first six or the start of its last six bytes.
pub open spec fn can_shorten(pid: Seq<char>) -> bool {
    let b = encode_utf8(pid);
    b.len() <= 14 || (is_char_boundary(b, 6) && is_char_boundary(b, b.len() - 6))
}

/// `pid` itself up to 14 bytes; else its first and last six bytes around two dots.
pub open spec fn short_pid(pid: Seq<char>) -> Seq<char> {
    let b = encode_utf8(pid);
    if b.len() <= 14 {
        pid
    } else {
        decode_utf8(b.take(6)) + ".."@ + decode_utf8(b.skip(b.len() - 6))
    }
}

/// Whether [`truncate_pid`] takes this peer id.
pub fn can_truncate_pid(pid: &str) -> (r: bool)
    ensures
        r == can_shorten(pid@),
{
    proof {
        encode_utf8_valid_utf8(pid@);
    }
    let n: usize = pid.as_bytes().len();
    n <= 14 || (pid.is_char_boundary(6) && pid.is_char_boundary(n - 6))
}

/// A peer id short enough to show.
pub fn truncate_pid(pid: &str) -> (r: String)
    requires
        can_shorten(pid@),
    ensures
        r@ == short_pid(pid@),
{
    let n: usize = pid.as_bytes().len();
    if n <= 14 {
        pid.to_owned()
    } else {
        let ghost b = encode_utf8(pid@);
        let (head, _) = pid.split_at(6);
        let (_, tail) = pid.split_at(n - 6);
        proof {
            encode_utf8_decode_utf8(head@);
            encode_utf8_decode_utf8(tail@);
            assert(b.subrange(0, 6) =~= b.take(6));
            assert(b.subrange(n - 6, n as int) =~= b.skip(n - 6));
        }
        text::cat3(head, "..", tail)
    }
}

/// The characters that a file name keeps as they are.
pub open spec fn is_name_char(c: char) -> bool {
    ||| '0' <= c <= '9'
    ||| 'A' <= c <= 'Z'
    ||| 'a' <= c <= 'z'
    ||| c == '.'
    ||| c == '_'
    ||| c == '-'
}

fn name_char(c: char) -> (r: bool)
    ensures
        r == is_name_char(c),
{
    ('0' <= c && c <= '9') || ('A' <= c && c <= 'Z') || ('a' <= c && c <= 'z') || c == '.' || c
        == '_' || c == '-'
}

/// `s` with an underscore for each space and without the other characters that a file name does
/// not keep.
pub open spec fn kept_name(s: Seq<char>) -> Seq<char>
    decreases s.len(),
{
    if s.len() == 0 {
        s
    } else if is_name_char(s.last()) {
        kept_name(s.drop_last()).push(s.last())
    } else if s.last() == ' ' {
        kept_name(s.drop_last()).push('_')
    } else {
        kept_name(s.drop_last())
    }
}

/// The file name that is made of `s`.
pub open spec fn safe_name(s: Seq<char>) -> Seq<char> {
    or_else(kept_name(s), "blob"@)
}

/// A name that is safe as a file name: letters, digits, `.`, `_` and `-` of `name`, with `_` for
/// each space; `blob` where nothing is left.
pub fn sanitize_file_name(name: &str) -> (r: String)
    ensures
        r@ == safe_name(name@),
{
    let chars = text::chars_of(name);
    let mut out = String::new();
    let mut i: usize = 0;
    while i < chars.len()
        invariant
            i <= chars@.len(),
            out@ == kept_name(chars@.take(i as int)),
        decreases chars@.len() - i,
    {
        let ch = chars[i];
        proof {
            assert(chars@.take(i + 1).drop_last() =~= chars@.take(i as int));
        }
        if name_char(ch) {
            out.push(ch);
        } else if ch == ' ' {
            out.push('_');
        }
        i += 1;
    }
    proof {
        assert(chars@.take(chars@.len() as int) =~= chars@);
    }
    out.if_empty("blob")
}

proof fn lemma_kept_name(s: Seq<char>)
    ensures
        forall|i: int| 0 <= i < kept_name(s).len() ==> is_name_char(#[trigger] kept_name(s)[i]),
        (forall|i: int| 0 <= i < s.len() ==> is_name_char(#[trigger] s[i])) ==> kept_name(s) == s,
    decreases s.len(),
{
    if s.len() > 0 {
        let head = kept_name(s.drop_last());
        lemma_kept_name(s.drop_last());
        assert(s =~= s.drop_last().push(s.last()));
        assert forall|i: int| 0 <= i < kept_name(s).len() implies is_name_char(
            #[trigger] kept_name(s)[i],
        ) by {
            if i < head.len() {
                assert(kept_name(s)[i] == head[i]);
            }
        }
        if forall|i: int| 0 <= i < s.len() ==> is_name_char(#[trigger] s[i]) {
            assert(is_name_char(s[s.len() - 1]));
            assert forall|i: int| 0 <= i < s.drop_last().len() implies is_name_char(
                #[trigger] s.drop_last()[i],
            ) by {
                assert(is_name_char(s[i]));
            }
        }
    }
}

/// A sanitized name is never empty, holds only characters that file names keep, and is not changed
/// by sanitizing it again.
pub proof fn law_safe_name(s: Seq<char>)
    ensures
        safe_name(s).len() > 0,
        forall|i: int| 0 <= i < safe_name(s).len() ==> is_name_char(#[trigger] safe_name(s)[i]),
        safe_name(safe_name(s)) == safe_name(s),
{
    reveal_strlit("blob");
    lemma_kept_name(s);
    lemma_kept_name(safe_name(s));
    if kept_name(s).len() == 0 {
        assert forall|i: int| 0 <= i < safe_name(s).len() implies is_name_char(
            #[trigger] safe_name(s)[i],
        ) by {}
    }
}

/// The lower-case hexadecimal digit for a number below sixteen.
pub open spec fn hex_digit(d: int) -> char {
    if d < 10 {
        (48 + d) as char
    } else {
        (87 + d) as char
    }
}

/// Two lower-case hexadecimal digits for each byte.
pub open spec fn hex_text(bytes: Seq<u8>) -> Seq<char>
    decreases bytes.len(),
{
    if bytes.len() == 0 {
        Seq::empty()
    } else {
        hex_text(bytes.drop_last()).push(hex_digit(bytes.last() as int / 16)).push(
            hex_digit(bytes.last() as int % 16),
        )
    }
}

fn hex_digit_char(d: u8) -> (r: char)
    requires
        d < 16,
    ensures
        r == hex_digit(d as int),
{
    if d < 10 {
        (48u8 + d) as char
    } else {
        (87u8 + d) as char
    }
}

/// The bytes in lower-case hexadecimal, two digits each.
pub fn hex_encode(bytes: &[u8]) -> (r: String)
    ensures
        r@ == hex_text(bytes@),
{
    let mut out = String::new();
    let mut i: usize = 0;
    while i < bytes.len()
        invariant
            i <= bytes@.len(),
            out@ == hex_text(bytes@.take(i as int)),
        decreases bytes@.len() - i,
    {
        proof {
            assert(bytes@.take(i + 1).drop_last() =~= bytes@.take(i as int));
        }
        let b = bytes[i];
        out.push(hex_digit_char(b / 16));
        out.push(hex_digit_char(b % 16));
        i += 1;
    }
    proof {
        assert(bytes@.take(bytes@.len() as int) =~= bytes@);
    }
    out
}

/// The value of a hexadecimal digit in either case.
pub open spec fn hex_value(b: u8) -> Option<int> {
    if 48 <= b <= 57 {
        Some(b - 48)
    } else if 97 <= b <= 102 {
        Some(b - 87)
    } else if 65 <= b <= 70 {
        Some(b - 55)
    } else {
        None
    }
}

fn hex_digit_value(b: u8) -> (r: Option<u8>)
    ensures
        r is Some <==> hex_value(b) is Some,
        r matches Some(v) ==> hex_value(b) == Some(v as int) && v < 16,
{
    if 48 <= b && b <= 57 {
        Some(b - 48)
    } else if 97 <= b && b <= 102 {
        Some(b - 87)
    } else if 65 <= b && b <= 70 {
        Some(b - 55)
    } else {
        None
    }
}

/// Whether `s` is an even number of hexadecimal digits.
pub open spec fn is_hex(s: Seq<u8>) -> bool {
    s.len() % 2 == 0 && forall|i: int| 0 <= i < s.len() ==> hex_value(#[trigger] s[i]) is Some
}

/// The bytes that pairs of hexadecimal digits stand for.
pub open spec fn hex_bytes(s: Seq<u8>) -> Seq<u8> {
    Seq::new(
        s.len() / 2,
        |i: int| (hex_value(s[2 * i])->0 * 16 + hex_value(s[2 * i + 1])->0) as u8,
    )
}

/// The bytes that the hexadecimal digits in `s` stand for; an error for an odd number of bytes and
/// for anything that is no digit.
pub fn hex_decode(s: &str) -> (r: Result<Vec<u8>, ()>)
    ensures
        r is Ok <==> is_hex(encode_utf8(s@)),
        r matches Ok(v) ==> v@ == hex_bytes(encode_utf8(s@)),
{
    let bytes = s.as_bytes();
    let n: usize = bytes.len();
    if n % 2 != 0 {
        return Err(());
    }
    let mut out: Vec<u8> = Vec::new();
    let mut i: usize = 0;
    while i < n
        invariant
            i <= n,
            i % 2 == 0,
            n % 2 == 0,
            n == bytes@.len(),
            bytes@ == encode_utf8(s@),
            out@.len() == i / 2,
            forall|j: int| 0 <= j < i ==> hex_value(#[trigger] bytes@[j]) is Some,
            forall|j: int| 0 <= j < out@.len() ==> out@[j] == hex_bytes(bytes@)[j],
        decreases n - i,
    {
        let hi = match hex_digit_value(bytes[i]) {
            Some(v) => v,
            None => {
                return Err(());
            },
        };
        let lo = match hex_digit_value(bytes[i + 1]) {
            Some(v) => v,
            None => {
                return Err(());
            },
        };
        out.push(hi * 16 + lo);
        i += 2;
    }
    proof {
        assert(out@ =~= hex_bytes(bytes@));
    }
    Ok(out)
}

/// Each byte takes two hexadecimal digits, which are ASCII.
pub proof fn lemma_hex_text(bytes: Seq<u8>)
    ensures
        hex_text(bytes).len() == 2 * bytes.len(),
        is_ascii_chars(hex_text(bytes)),
        forall|i: int|
            0 <= i < bytes.len() ==> hex_text(bytes)[2 * i] == hex_digit(
                (#[trigger] bytes[i]) as int / 16,
            ) && hex_text(bytes)[2 * i + 1] == hex_digit(bytes[i] as int % 16),
    decreases bytes.len(),
{
    if bytes.len() > 0 {
        lemma_hex_text(bytes.drop_last());
        assert forall|i: int| 0 <= i < bytes.len() implies hex_text(bytes)[2 * i] == hex_digit(
            (#[trigger] bytes[i]) as int / 16,
        ) && hex_text(bytes)[2 * i + 1] == hex_digit(bytes[i] as int % 16) by {
            if i < bytes.len() - 1 {
                assert(bytes.drop_last()[i] == bytes[i]);
            }
        }
    }
}

proof fn lemma_hex_digit(d: int)
    requires
        0 <= d < 16,
    ensures
        hex_value(hex_digit(d) as u8) == Some(d),
{
    assert((48 + d) as char as u8 == 48 + d);
    assert((87 + d) as char as u8 == 87 + d);
}

/// What is written in hexadecimal decodes to the same bytes.
pub proof fn law_hex_round_trip(bytes: Seq<u8>)
    ensures
        is_hex(encode_utf8(hex_text(bytes))),
        hex_bytes(encode_utf8(hex_text(bytes))) == bytes,
{
    let t = hex_text(bytes);
    lemma_hex_text(bytes);
    is_ascii_chars_encode_utf8(t);
    let b = encode_utf8(t);
    assert forall|i: int| 0 <= i < b.len() implies hex_value(#[trigger] b[i]) is Some by {
        let v = bytes[i / 2];
        lemma_hex_digit(v as int / 16);
        lemma_hex_digit(v as int % 16);
        assert(i == 2 * (i / 2) || i == 2 * (i / 2) + 1);
        assert(b[i] == t[i] as u8);
    }
    assert forall|k: int| 0 <= k < bytes.len() implies hex_bytes(b)[k] == #[trigger] bytes[k] by {
        lemma_hex_digit(bytes[k] as int / 16);
        lemma_hex_digit(bytes[k] as int % 16);
        assert(b[2 * k] == t[2 * k] as u8);
        assert(b[2 * k + 1] == t[2 * k + 1] as u8);
    }
    assert(hex_bytes(b) =~= bytes);
}

/// The first `max` characters of `s`, or all of them where there are no more.
pub open spec fn clipped(s: Seq<char>, max: nat) -> Seq<char> {
    if s.len() <= max {
        s
    } else {
        s.take(max as int)
    }
}

/// At most the first `max` characters.
pub fn clip(s: &str, max: usize) -> (r: String)
    ensures
        r@ == clipped(s@, max as nat),
{
    let chars = text::chars_of(s);
    if chars.len() <= max {
        s.to_owned()
    } else {
        let head = slice_subrange(chars.as_slice(), 0, max);
        proof {
            assert(head@ =~= s@.take(max as int));
        }
        text::string_of(head)
    }
}

/// The time of day of a number of seconds, as `hh:mm:ss`.
pub open spec fn clock_text(secs: nat) -> Seq<char> {
    let day = secs % 86_400;
    text::dec2(day / 3600) + ":"@ + text::dec2((day / 60) % 60) + ":"@ + text::dec2(day % 60)
}

/// The time of day in UTC, as `hh:mm:ss`, of a number of seconds since the Unix epoch.
pub fn fmt_time(secs: u64) -> (r: String)
    ensures
        r@ == clock_text(secs as nat),
{
    let day: u64 = secs % 86_400;
    let h = text::dec2_string(day / 3600);
    let m = text::dec2_string((day / 60) % 60);
    let s = text::dec2_string(day % 60);
    text::cat5(h.as_str(), ":", m.as_str(), ":", s.as_str())
}

/// A number of seconds in its two largest units.
pub open spec fn duration_text(secs: nat) -> Seq<char> {
    if secs >= 3600 {
        text::dec(secs / 3600) + "h"@ + text::dec2((secs / 60) % 60) + "m"@
    } else if secs >= 60 {
        text::dec(secs / 60) + "m"@ + text::dec2(secs % 60) + "s"@
    } else {
        text::dec(secs) + "s"@
    }
}

/// A number of seconds in hours and minutes, minutes and seconds, or seconds.
pub fn fmt_duration(secs: u64) -> (r: String)
    ensures
        r@ == duration_text(secs as nat),
{
    if secs >= 3600 {
        let h = text::dec_string(secs / 3600);
        let m = text::dec2_string((secs / 60) % 60);
        text::cat4(h.as_str(), "h", m.as_str(), "m")
    } else if secs >= 60 {
        let m = text::dec_string(secs / 60);
        let s = text::dec2_string(secs % 60);
        text::cat4(m.as_str(), "m", s.as_str(), "s")
    } else {
        let s = text::dec_string(secs);
        text::cat2(s.as_str(), "s")
    }
}

/// The whole seconds between two readings of a clock in nanoseconds.
pub open spec fn elapsed(start: u64, mono: u64) -> nat {
    if mono < start {
        0
    } else {
        ((mono - start) / 1_000_000_000) as nat
    }
}

/// The whole seconds between two readings of a clock in nanoseconds.
pub fn elapsed_secs(start: u64, mono: u64) -> (r: u64)
    ensures
        r == elapsed(start, mono),
{
    if mono < start {
        0
    } else {
        (mono - start) / 1_000_000_000
    }
}

/// The Unix time for a clock reading: the seconds since the epoch, or zero for a clock that stands
/// before it.
pub fn unix_time_secs(since_epoch: Option<u64>) -> (r: u64)
    ensures
        r == (match since_epoch {
            Some(secs) => secs,
            None => 0,
        }),
{
    match since_epoch {
        Some(secs) => secs,
        None => 0,
    }
}

/// One number of a dotted address: up to three decimal digits without a needless leading zero, at
/// most 255.
pub open spec fn is_octet(s: Seq<char>) -> bool {
    &&& 1 <= s.len() <= 3
    &&& text::all_digits(s)
    &&& text::digits_value(s) <= 255
    &&& s.len() > 1 ==> s[0] != '0'
}

/// Four octets with dots between them.
pub open spec fn is_ipv4(s: Seq<char>) -> bool {
    let parts = text::pieces(s, '.');
    parts.len() == 4 && forall|i: int| 0 <= i < 4 ==> is_octet(#[trigger] parts[i])
}

/// Whether the text is an IPv4 address in dotted decimal.
pub fn is_ipv4_text(s: &[char]) -> (r: bool)
    ensures
        r == is_ipv4(s@),
{
    let parts = text::split_all(s, '.');
    if parts.len() != 4 {
        return false;
    }
    let mut i: usize = 0;
    while i < 4
        invariant
            i <= 4,
            parts@.len() == 4,
            parts@.len() == text::pieces(s@, '.').len(),
            forall|k: int|
                0 <= k < 4 ==> (#[trigger] parts@[k])@ == text::pieces(s@, '.')[k],
            forall|k: int| 0 <= k < i ==> is_octet(#[trigger] text::pieces(s@, '.')[k]),
        decreases 4 - i,
    {
        let part = &parts[i];
        proof {
            assert(parts@[i as int]@ == text::pieces(s@, '.')[i as int]);
            if is_octet(part@) {
                assert(text::is_dec_digit(part@[0]));
                assert(text::unsigned_part(part@) == part@);
            }
        }
        if part.len() > 3 || (part.len() > 1 && part[0] == '0') || (part.len() > 0 && part[0]
            == '+') || text::parse_number(part.as_slice(), 255).is_none() {
            return false;
        }
        i += 1;
    }
    true
}

/// What stands between the first and the second `mark` in `s`, or after the first where there is
/// no second.
pub open spec fn second_part(s: Seq<char>, mark: Seq<char>) -> Option<Seq<char>> {
    match text::first_match(s, mark) {
        Some(i) => {
            let rest = s.skip(i + mark.len());
            match text::first_match(rest, mark) {
                Some(j) => Some(rest.take(j)),
                None => Some(rest),
            }
        },
        None => None,
    }
}

/// The first line of `s`.
pub open spec fn first_line(s: Seq<char>) -> Seq<char> {
    match text::cut(s, '\n') {
        Some((line, _)) => line,
        None => s,
    }
}

/// The IPv4 address on the first line of the body of an HTTP reply.
pub open spec fn reply_address(reply: Seq<char>) -> Option<Seq<char>> {
    match second_part(reply, "\r\n\r\n"@) {
        Some(part) => {
            let line = text::trimmed(first_line(text::trimmed(part)));
            if is_ipv4(line) {
                Some(line)
            } else {
                None
            }
        },
        None => None,
    }
}

/// The IPv4 address on the first line of the body of an HTTP reply, where there is one.
pub fn ipv4_in_reply(reply: &str) -> (r: Option<String>)
    ensures
        r is Some <==> reply_address(reply@) is Some,
        r matches Some(ip) ==> reply_address(reply@) == Some(ip@),
{
    let all = text::chars_of(reply);
    let n: usize = all.len();
    proof {
        reveal_strlit("\r\n\r\n");
    }
    let start: usize = match text::find_str(all.as_slice(), "\r\n\r\n") {
        Some(i) => i + 4,
        None => {
            return None;
        },
    };
    let rest = slice_subrange(all.as_slice(), start, n);
    proof {
        assert(rest@ =~= reply@.skip(start as int));
    }
    let part = match text::find_str(rest, "\r\n\r\n") {
        Some(j) => {
            let head = slice_subrange(rest, 0, j);
            proof {
                assert(head@ =~= rest@.take(j as int));
            }
            head
        },
        None => rest,
    };
    let body = text::trim(part);
    let line = match text::split_once(body, '\n') {
        Some((line, _)) => line,
        None => body,
    };
    let line = text::trim(line);
    if is_ipv4_text(line) {
        Some(text::string_of(line))
    } else {
        None
    }
}

/// The IPv4 address that a reply in raw bytes gives: none where it is not valid UTF-8.
pub open spec fn raw_reply_address(reply: Seq<u8>) -> Option<Seq<char>> {
    if valid_utf8(reply) {
        reply_address(decode_utf8(reply))
    } else {
        None
    }
}

/// The IPv4 address that an HTTP reply gives.
pub fn try_fetch_ipv4_via_http(reply: &[u8]) -> (r: Option<String>)
    ensures
        r is Some <==> raw_reply_address(reply@) is Some,
        r matches Some(ip) ==> raw_reply_address(reply@) == Some(ip@),
{
    match text::utf8_text(reply) {
        Some(s) => {
            proof {
                encode_utf8_decode_utf8(s@);
            }
            ipv4_in_reply(s)
        },
        None => None,
    }
}

/// The request that asks `host` for `path`.
pub fn ipv4_request(host: &str, path: &str) -> (r: String)
    ensures
        r@ == "GET "@ + path@ + " HTTP/1.1\r\nHost: "@ + host@
            + "\r\nConnection: close\r\nUser-Agent: speer-chat\r\n\r\n"@,
{
    text::cat5(
        "GET ",
        path,
        " HTTP/1.1\r\nHost: ",
        host,
        "\r\nConnection: close\r\nUser-Agent: speer-chat\r\n\r\n",
    )
}

/// What to do next to learn the public address.
pub enum ProbeStep {
    /// Ask this host, at this address, for `/`.
    Fetch { addr: String, host: String },
    /// The address is known.
    Found(String),
    /// No service is left to ask.
    NotFound,
}

/// The address that one service's outcome gives: none where it could not be reached.
pub open spec fn outcome_address(outcome: Option<Vec<u8>>) -> Option<Seq<char>> {
    match outcome {
        Some(reply) => raw_reply_address(reply@),
        None => None,
    }
}

/// The address that the first useful one of the outcomes gives.
pub open spec fn first_address(outcomes: Seq<Option<Vec<u8>>>) -> Option<Seq<char>>
    decreases outcomes.len(),
{
    if outcomes.len() == 0 {
        None
    } else {
        match first_address(outcomes.drop_last()) {
            Some(ip) => Some(ip),
            None => outcome_address(outcomes.last()),
        }
    }
}

/// Finds the public IPv4 address by asking two services in turn. `outcomes` holds what the services
/// asked so far replied, none for one that could not be reached.
pub fn discover_public_ipv4_http(outcomes: &Vec<Option<Vec<u8>>>) -> (r: ProbeStep)
    ensures
        match first_address(outcomes@) {
            Some(ip) => r matches ProbeStep::Found(found) && found@ == ip,
            None => if outcomes@.len() == 0 {
                r matches ProbeStep::Fetch { addr, host } && addr@ == "api.ipify.org:80"@ && host@
                    == "api.ipify.org"@
            } else if outcomes@.len() == 1 {
                r matches ProbeStep::Fetch { addr, host } && addr@ == "icanhazip.com:80"@ && host@
                    == "icanhazip.com"@
            } else {
                r is NotFound
            },
        },
{
    let n: usize = outcomes.len();
    let mut i: usize = 0;
    let mut found: Option<String> = None;
    while i < n
        invariant
            i <= n,
            n == outcomes@.len(),
            found is Some <==> first_address(outcomes@.take(i as int)) is Some,
            found matches Some(ip) ==> first_address(outcomes@.take(i as int)) == Some(ip@),
        decreases n - i,
    {
        proof {
            assert(outcomes@.take(i + 1).drop_last() =~= outcomes@.take(i as int));
        }
        if found.is_none() {
            if let Some(reply) = &outcomes[i] {
                found = try_fetch_ipv4_via_http(reply.as_slice());
            }
        }
        i += 1;
    }
    proof {
        assert(outcomes@.take(n as int) =~= outcomes@);
    }
    match found {
        Some(ip) => ProbeStep::Found(ip),
        None => if n == 0 {
            ProbeStep::Fetch { addr: "api.ipify.org:80".to_owned(), host: "api.ipify.org".to_owned() }
        } else if n == 1 {
            ProbeStep::Fetch { addr: "icanhazip.com:80".to_owned(), host: "icanhazip.com".to_owned() }
        } else {
            ProbeStep::NotFound
        },
    }
}

}
