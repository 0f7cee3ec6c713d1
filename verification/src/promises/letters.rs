//! Text, numbers and bytes.
use vstd::prelude::*;
use vstd::string::*;
use vstd::utf8::*;

use crate::ffi;
use crate::ffi::{IdentityError, IdentityParts};
use crate::protocol;
use crate::protocol::FieldsView;
use crate::text;
use crate::util;
use crate::wire;

verus! {

/// White space is what Unicode lists as such, and control characters are those below the space and
/// those from the one hundred and twenty-seventh to the one hundred and fifty-ninth.
pub proof fn law_blanks(c: char)
    ensures
        text::is_space(c) == ({
            let n = c as int;
            9 <= n <= 13 || n == 32 || n == 0x85 || n == 0xa0 || n == 0x1680 || 0x2000 <= n
                <= 0x200a || n == 0x2028 || n == 0x2029 || n == 0x202f || n == 0x205f || n == 0x3000
        }),
        text::is_ctrl(c) == (c as int <= 31 || 127 <= c as int <= 159),
{
}

/// A text is cut at the first place of a character: into what stands before it and what stands
/// behind it. Where the character does not occur, there is nothing to cut.
pub proof fn law_cut_at_the_first(a: Seq<char>, b: Seq<char>, c: char)
    requires
        forall|i: int| 0 <= i < a.len() ==> a[i] != c,
    ensures
        text::cut(a.push(c) + b, c) == Some((a, b)),
        text::cut(a, c) is None,
{
    let s = a.push(c) + b;
    assert(s[a.len() as int] == c);
    assert forall|j: int| 0 <= j < a.len() implies s[j] != c by {
        assert(s[j] == a[j]);
    }
    text::lemma_first(s, c, a.len() as int);
    assert(s.take(a.len() as int) =~= a);
    assert(s.skip(a.len() as int + 1) =~= b);
    text::lemma_no_first(a, c);
}

/// A text is cut at the last place of a character in the same way.
pub proof fn law_cut_at_the_last(a: Seq<char>, b: Seq<char>, c: char)
    requires
        forall|i: int| 0 <= i < b.len() ==> b[i] != c,
    ensures
        text::cut_last(a.push(c) + b, c) == Some((a, b)),
        text::cut_last(b, c) is None,
{
    let s = a.push(c) + b;
    assert(s[a.len() as int] == c);
    assert forall|j: int| a.len() < j < s.len() implies s[j] != c by {
        assert(s[j] == b[j - a.len() - 1]);
    }
    text::lemma_last(s, c, a.len() as int);
    assert(s.take(a.len() as int) =~= a);
    assert(s.skip(a.len() as int + 1) =~= b);
}

/// The pieces of a text around a character are those of what stands before any place of it and
/// those of what stands behind it; a text without it is its only piece.
pub proof fn law_pieces(a: Seq<char>, b: Seq<char>, c: char)
    ensures
        text::pieces(a.push(c) + b, c) == text::pieces(a, c) + text::pieces(b, c),
        (forall|i: int| 0 <= i < a.len() ==> a[i] != c) ==> text::pieces(a, c) == seq![a],
        text::pieces(a, c).len() > 0,
    decreases a.len(),
{
    let s = a.push(c) + b;
    if forall|i: int| 0 <= i < a.len() ==> a[i] != c {
        law_cut_at_the_first(a, b, c);
        assert(text::pieces(s, c) =~= seq![a] + text::pieces(b, c));
    } else {
        assert(exists|i: int| text::is_first(a, c, i)) by {
            lemma_has_first(a, c);
        }
        let i = choose|i: int| text::is_first(a, c, i);
        let head = a.take(i);
        let rest = a.skip(i + 1);
        assert(a =~= head.push(c) + rest);
        law_cut_at_the_first(head, rest, c);
        assert(s =~= head.push(c) + (rest.push(c) + b));
        law_cut_at_the_first(head, rest.push(c) + b, c);
        law_pieces(rest, b, c);
        assert(text::pieces(s, c) =~= text::pieces(a, c) + text::pieces(b, c));
    }
}

proof fn lemma_has_first(s: Seq<char>, c: char)
    requires
        exists|i: int| 0 <= i < s.len() && s[i] == c,
    ensures
        exists|i: int| text::is_first(s, c, i),
    decreases s.len(),
{
    let k = choose|i: int| 0 <= i < s.len() && s[i] == c;
    if forall|j: int| 0 <= j < k ==> s[j] != c {
        assert(text::is_first(s, c, k));
    } else {
        let j = choose|j: int| 0 <= j < k && s[j] == c;
        assert(s.take(k)[j] == c);
        lemma_has_first(s.take(k), c);
        let i = choose|i: int| text::is_first(s.take(k), c, i);
        assert(text::is_first(s, c, i)) by {
            assert forall|j: int| 0 <= j < i implies s[j] != c by {
                assert(s.take(k)[j] == s[j]);
            }
        }
    }
}

proof fn lemma_trim_start(a: Seq<char>, m: Seq<char>)
    requires
        forall|i: int| 0 <= i < a.len() ==> text::is_space(#[trigger] a[i]),
        m.len() > 0 ==> !text::is_space(m[0]),
    ensures
        text::trimmed_start(a + m) == m,
    decreases a.len(),
{
    if a.len() == 0 {
        assert(a + m =~= m);
    } else {
        assert((a + m)[0] == a[0]);
        assert((a + m).skip(1) =~= a.skip(1) + m);
        lemma_trim_start(a.skip(1), m);
    }
}

proof fn lemma_trim_end(m: Seq<char>, b: Seq<char>)
    requires
        forall|i: int| 0 <= i < b.len() ==> text::is_space(#[trigger] b[i]),
        m.len() > 0 ==> !text::is_space(m.last()),
    ensures
        text::trimmed_end(m + b) == m,
    decreases b.len(),
{
    if b.len() == 0 {
        assert(m + b =~= m);
    } else {
        assert((m + b).last() == b.last());
        assert((m + b).drop_last() =~= m + b.drop_last());
        lemma_trim_end(m, b.drop_last());
    }
}

/// Trimming takes the white space at both ends off a text and nothing else.
pub proof fn law_trimmed(a: Seq<char>, m: Seq<char>, b: Seq<char>)
    requires
        forall|i: int| 0 <= i < a.len() ==> text::is_space(#[trigger] a[i]),
        forall|i: int| 0 <= i < b.len() ==> text::is_space(#[trigger] b[i]),
        m.len() > 0 ==> !text::is_space(m[0]) && !text::is_space(m.last()),
    ensures
        text::trimmed(a + m + b) == m,
{
    if m.len() > 0 {
        assert(a + m + b =~= a + (m + b));
        assert((m + b)[0] == m[0]);
        lemma_trim_start(a, m + b);
        lemma_trim_end(m, b);
    } else {
        let s = a + m + b;
        assert forall|i: int| 0 <= i < s.len() implies text::is_space(#[trigger] s[i]) by {
            if i < a.len() {
                assert(s[i] == a[i]);
            } else {
                assert(s[i] == b[i - a.len()]);
            }
        }
        assert(s =~= s + m);
        lemma_trim_start(s, m);
        assert(text::trimmed_end(m) =~= m);
        assert(text::trimmed(s) =~= m);
    }
}

proof fn lemma_strip_start(a: Seq<char>, m: Seq<char>, x: char, y: char)
    requires
        forall|i: int| 0 <= i < a.len() ==> (#[trigger] a[i] == x || a[i] == y),
        m.len() > 0 ==> m[0] != x && m[0] != y,
    ensures
        text::stripped_start(a + m, x, y) == m,
    decreases a.len(),
{
    if a.len() == 0 {
        assert(a + m =~= m);
    } else {
        assert((a + m)[0] == a[0]);
        assert((a + m).skip(1) =~= a.skip(1) + m);
        lemma_strip_start(a.skip(1), m, x, y);
    }
}

proof fn lemma_strip_end(m: Seq<char>, b: Seq<char>, x: char, y: char)
    requires
        forall|i: int| 0 <= i < b.len() ==> (#[trigger] b[i] == x || b[i] == y),
        m.len() > 0 ==> m.last() != x && m.last() != y,
    ensures
        text::stripped_end(m + b, x, y) == m,
    decreases b.len(),
{
    if b.len() == 0 {
        assert(m + b =~= m);
    } else {
        assert((m + b).last() == b[b.len() - 1]);
        assert((m + b).drop_last() =~= m + b.drop_last());
        assert forall|i: int| 0 <= i < b.drop_last().len() implies (#[trigger] b.drop_last()[i] == x
            || b.drop_last()[i] == y) by {
            assert(b[i] == x || b[i] == y);
        }
        lemma_strip_end(m, b.drop_last(), x, y);
    }
}

/// Stripping takes two characters off both ends of a text and nothing else.
pub proof fn law_stripped(a: Seq<char>, m: Seq<char>, b: Seq<char>, x: char, y: char)
    requires
        forall|i: int| 0 <= i < a.len() ==> (#[trigger] a[i] == x || a[i] == y),
        forall|i: int| 0 <= i < b.len() ==> (#[trigger] b[i] == x || b[i] == y),
        m.len() > 0,
        m[0] != x && m[0] != y && m.last() != x && m.last() != y,
    ensures
        text::stripped(a + m + b, x, y) == m,
{
    assert(a + m + b =~= a + (m + b));
    assert((m + b)[0] == m[0]);
    lemma_strip_start(a, m + b, x, y);
    lemma_strip_end(m, b, x, y);
}

/// What stands behind a prefix is what was put behind it; a text that does not begin with it has
/// nothing behind it.
pub proof fn law_behind_a_prefix(p: Seq<char>, s: Seq<char>)
    ensures
        text::after_prefix(p + s, p) == Some(s),
        text::after_prefix(s, p) matches Some(r) ==> s == p + r,
        text::begins_with(s, p) == (exists|r: Seq<char>| s == #[trigger] (p + r)),
{
    assert((p + s).take(p.len() as int) =~= p);
    assert((p + s).skip(p.len() as int) =~= s);
    if text::begins_with(s, p) {
        assert(s =~= p + s.skip(p.len() as int));
    }
    if exists|r: Seq<char>| s == #[trigger] (p + r) {
        let r = choose|r: Seq<char>| s == #[trigger] (p + r);
        assert(s.take(p.len() as int) =~= p);
    }
}

/// A pattern is found at its first place and only where it occurs.
pub proof fn law_first_match(s: Seq<char>, pat: Seq<char>, j: int)
    ensures
        text::first_match(s, pat) matches Some(i) ==> 0 <= i && i + pat.len() <= s.len()
            && s.subrange(i, i + pat.len()) == pat && (0 <= j < i ==> s.subrange(j, j + pat.len())
            != pat),
        text::first_match(s, pat) is None && 0 <= j && j + pat.len() <= s.len() ==> s.subrange(
            j,
            j + pat.len(),
        ) != pat,
    decreases j,
{
    if let Some(i) = text::first_match(s, pat) {
        assert(text::stands_first(s, pat, i));
        if 0 <= j < i {
            assert(!text::stands_at(s, pat, j));
        }
    } else if 0 <= j && j + pat.len() <= s.len() && s.subrange(j, j + pat.len()) == pat {
        assert(text::stands_at(s, pat, j));
        lemma_some_match(s, pat, j);
    }
}

proof fn lemma_some_match(s: Seq<char>, pat: Seq<char>, j: int)
    requires
        text::stands_at(s, pat, j),
    ensures
        exists|i: int| text::stands_first(s, pat, i),
    decreases j,
{
    if forall|k: int| 0 <= k < j ==> !text::stands_at(s, pat, k) {
        assert(text::stands_first(s, pat, j));
    } else {
        let k = choose|k: int| 0 <= k < j && text::stands_at(s, pat, k);
        lemma_some_match(s, pat, k);
    }
}

/// A number is read digit by digit: one digit is its own value, and each further one counts ten
/// times less than those before it.
pub proof fn law_number_reads_digits(s: Seq<char>, c: char, max: nat, big: nat)
    requires
        '0' <= c <= '9',
    ensures
        c as int - 48 <= max ==> text::number(seq![c], max) == Some((c as int - 48) as nat),
        c as int - 48 > max ==> text::number(seq![c], max) is None,
        text::number(s, big) matches Some(n) ==> text::number(s.push(c), max) == (if 10 * n + (
        c as int - 48) <= max {
            Some((10 * n + (c as int - 48)) as nat)
        } else {
            None
        }),
        text::number(s, big) matches Some(n) ==> n <= big && text::number(s, max) == (if n <= max {
            Some(n)
        } else {
            None
        }),
{
    let one = seq![c];
    assert(one.drop_last() =~= Seq::<char>::empty());
    assert(text::digits_value(one.drop_last()) == 0);
    if text::number(s, big) is Some {
        let d = text::unsigned_part(s);
        lemma_not_negative(d);
        assert(text::unsigned_part(s.push(c)) =~= d.push(c));
        assert(d.push(c).drop_last() =~= d);
        assert forall|i: int| 0 <= i < d.push(c).len() implies text::is_dec_digit(
            #[trigger] d.push(c)[i],
        ) by {
            if i < d.len() {
                assert(text::is_dec_digit(d[i]));
            }
        }
    }
}

proof fn lemma_not_negative(d: Seq<char>)
    requires
        text::all_digits(d),
    ensures
        text::digits_value(d) >= 0,
    decreases d.len(),
{
    if d.len() > 0 {
        assert forall|i: int| 0 <= i < d.drop_last().len() implies text::is_dec_digit(
            #[trigger] d.drop_last()[i],
        ) by {
            assert(text::is_dec_digit(d[i]));
        }
        lemma_not_negative(d.drop_last());
        assert(text::is_dec_digit(d[d.len() - 1]));
    }
}

/// Only digits make a number, behind a plus sign or none, and there has to be one.
pub proof fn law_number_is_digits(s: Seq<char>, max: nat, i: int)
    ensures
        text::number(Seq::empty(), max) is None,
        text::number(s, max) is Some && 0 < i < s.len() ==> '0' <= s[i] <= '9',
        text::number(s, max) is Some && s.len() > 0 ==> '0' <= s[0] <= '9' || (s[0] == '+'
            && s.len() > 1),
        text::number(s, max) is Some && s.len() > 0 && '0' <= s[0] <= '9' ==> text::number(
            seq!['+'] + s,
            max,
        ) == text::number(s, max),
{
    let d = text::unsigned_part(s);
    if text::number(s, max) is Some && s.len() > 0 {
        if s[0] == '+' {
            if 0 < i < s.len() {
                assert(text::is_dec_digit(d[i - 1]));
            }
        } else {
            assert(text::is_dec_digit(d[0]));
            if 0 < i < s.len() {
                assert(text::is_dec_digit(d[i]));
            }
            assert((seq!['+'] + s).skip(1) =~= s);
        }
    }
}

/// A number is written with digits alone, without a zero in front, and reads back as itself.
pub proof fn law_number_is_written(n: nat, i: int)
    ensures
        text::number(text::dec(n), n) == Some(n),
        text::dec(n).len() > 0,
        0 <= i < text::dec(n).len() ==> '0' <= text::dec(n)[i] <= '9',
        text::dec(n).len() > 1 ==> text::dec(n)[0] != '0',
        n < 100 ==> text::dec2(n).len() == 2 && text::number(text::dec2(n), n) == Some(n),
{
    text::law_number_of_dec(n, n);
    if 0 <= i < text::dec(n).len() {
        assert(text::is_dec_digit(text::dec(n)[i]));
    }
    lemma_no_leading_zero(n);
    reveal_with_fuel(text::dec, 3);
    reveal_strlit("0");
    if n < 10 {
        let t = text::dec2(n);
        assert(t =~= seq!['0'].push(text::digit_char(n)));
        law_number_reads_digits(seq!['0'], text::digit_char(n), n, 9);
        law_number_reads_digits(Seq::empty(), '0', 9, 9);
    }
}

proof fn lemma_no_leading_zero(n: nat)
    ensures
        text::dec(n).len() > 0,
        n > 0 ==> text::dec(n)[0] != '0',
        n == 0 ==> text::dec(n).len() == 1,
    decreases n,
{
    if n >= 10 {
        lemma_no_leading_zero(n / 10);
        assert(text::dec(n)[0] == text::dec(n / 10)[0]);
    }
}

/// What is clipped is the beginning of a text: the whole of it where it fits, and otherwise as much
/// as fits.
pub proof fn law_clipped(s: Seq<char>, max: nat)
    ensures
        util::clipped(s, max).len() == if s.len() < max {
            s.len()
        } else {
            max
        },
        util::clipped(s, max) == s.take(util::clipped(s, max).len() as int),
{
    assert(s.take(s.len() as int) =~= s);
}

/// The time of day shows hours, minutes and seconds, two digits each, and starts again each day.
pub proof fn law_clock(day: nat, h: nat, m: nat, s: nat)
    requires
        h < 24,
        m < 60,
        s < 60,
    ensures
        util::clock_text(86_400 * day + 3600 * h + 60 * m + s) == text::dec2(h) + ":"@ + text::dec2(
            m,
        ) + ":"@ + text::dec2(s),
{
    let t = 86_400 * day + 3600 * h + 60 * m + s;
    assert(t % 86_400 == 3600 * h + 60 * m + s);
    let d = t % 86_400;
    assert(d / 3600 == h);
    assert(d / 60 == 60 * h + m);
    assert((d / 60) % 60 == m);
    assert(d % 60 == s);
}

/// A duration shows its two largest units of hours, minutes and seconds.
pub proof fn law_duration(h: nat, m: nat, s: nat, start: u64, nanos: u64)
    requires
        m < 60,
        s < 60,
    ensures
        h > 0 ==> util::duration_text(3600 * h + 60 * m + s) == text::dec(h) + "h"@ + text::dec2(m)
            + "m"@,
        m > 0 ==> util::duration_text(60 * m + s) == text::dec(m) + "m"@ + text::dec2(s) + "s"@,
        util::duration_text(s) == text::dec(s) + "s"@,
        start + 1_000_000_000 * s + nanos <= u64::MAX && nanos < 1_000_000_000 ==> util::elapsed(
            start,
            (start + 1_000_000_000 * s + nanos) as u64,
        ) == s,
        nanos < start ==> util::elapsed(start, nanos) == 0,
{
    let t = 3600 * h + 60 * m + s;
    assert(t / 3600 == h);
    assert(t / 60 == 60 * h + m);
    assert((t / 60) % 60 == m);
    let u = 60 * m + s;
    assert(u / 60 == m);
    assert(u % 60 == s);
}

/// Bytes are written as two hexadecimal digits each, small letters for the values from ten on.
pub proof fn law_hex_digits(bytes: Seq<u8>, i: int)
    requires
        0 <= i < bytes.len(),
    ensures
        ({
            let hi = bytes[i] as int / 16;
            let lo = bytes[i] as int % 16;
            &&& util::hex_text(bytes).len() == 2 * bytes.len()
            &&& util::hex_text(bytes)[2 * i] as int == if hi < 10 {
                48 + hi
            } else {
                97 + (hi - 10)
            }
            &&& util::hex_text(bytes)[2 * i + 1] as int == if lo < 10 {
                48 + lo
            } else {
                97 + (lo - 10)
            }
        }),
{
    util::lemma_hex_text(bytes);
}

/// Hexadecimal digits are read in pairs, in small or capital letters, and nothing else is.
pub proof fn law_hex_is_read(s: Seq<u8>, i: int)
    ensures
        util::is_hex(s) && 0 <= i < s.len() ==> s.len() % 2 == 0 && (48 <= s[i] <= 57 || 65 <= s[i]
            <= 70 || 97 <= s[i] <= 102),
        util::is_hex(s) ==> util::hex_bytes(s).len() * 2 == s.len(),
        util::is_hex(s) && 0 <= 2 * i && 2 * i + 1 < s.len() ==> util::hex_bytes(s)[i] == 16
            * nibble(s[2 * i]) + nibble(s[2 * i + 1]),
        s.len() % 2 == 0 && (forall|j: int|
            0 <= j < s.len() ==> 48 <= #[trigger] s[j] <= 57 || 65 <= s[j] <= 70 || 97 <= s[j]
                <= 102) ==> util::is_hex(s),
{
    if util::is_hex(s) && 0 <= i < s.len() {
        assert(util::hex_value(s[i]) is Some);
    }
    if util::is_hex(s) && 0 <= 2 * i && 2 * i + 1 < s.len() {
        assert(util::hex_value(s[2 * i]) is Some);
        assert(util::hex_value(s[2 * i + 1]) is Some);
    }
}

/// The value of a hexadecimal digit.
pub open spec fn nibble(b: u8) -> int {
    if b <= 57 {
        b - 48
    } else if b <= 70 {
        b - 65 + 10
    } else {
        b - 97 + 10
    }
}

/// A C string is the text without its NUL characters.
pub proof fn law_nul_is_left_out(s: Seq<char>)
    ensures
        ffi::without_nul(s) == s.filter(|c: char| c as int != 0),
    decreases s.len(),
{
    reveal(Seq::filter);
    if s.len() > 0 {
        law_nul_is_left_out(s.drop_last());
    }
}

/// A C string in a buffer ends before its first zero, and its bytes are those of the buffer without
/// their sign.
pub proof fn law_c_string(a: Seq<i8>, b: Seq<i8>)
    requires
        forall|i: int| 0 <= i < a.len() ==> #[trigger] a[i] != 0,
        b.len() > 0 ==> b[0] == 0,
    ensures
        ffi::c_bytes(a + b).len() == a.len(),
        forall|i: int|
            0 <= i < a.len() ==> (#[trigger] ffi::c_bytes(a + b)[i]) == (a[i] as int + 256) % 256,
    decreases a.len(),
{
    if a.len() == 0 {
        assert(a + b =~= b);
    } else {
        let t = a.skip(1);
        assert((a + b)[0] == a[0]);
        assert((a + b).skip(1) =~= t + b);
        assert forall|i: int| 0 <= i < t.len() implies #[trigger] t[i] != 0 by {
            assert(a[i + 1] != 0);
        }
        law_c_string(t, b);
        assert forall|i: int| 0 <= i < a.len() implies (#[trigger] ffi::c_bytes(a + b)[i]) == (
        a[i] as int + 256) % 256 by {
            if i > 0 {
                assert(ffi::c_bytes(a + b)[i] == ffi::c_bytes(t + b)[i - 1]);
            }
        }
    }
}

/// A long id is shortened to its first and its last six bytes, a short one is left alone.
pub proof fn law_short_id(a: Seq<char>, m: Seq<char>, z: Seq<char>)
    ensures
        encode_utf8(a + m + z).len() > 14 && encode_utf8(a).len() == 6 && encode_utf8(z).len() == 6
            ==> util::short_pid(a + m + z) == a + ".."@ + z && util::can_shorten(a + m + z),
        encode_utf8(a).len() <= 14 ==> util::short_pid(a) == a && util::can_shorten(a),
{
    let s = a + m + z;
    if encode_utf8(s).len() > 14 && encode_utf8(a).len() == 6 && encode_utf8(z).len() == 6 {
        text::lemma_utf8_concat(a, m + z);
        assert(s =~= a + (m + z));
        text::lemma_utf8_concat(a + m, z);
        let b = encode_utf8(s);
        assert(b.take(6) =~= encode_utf8(a));
        assert(b.skip(b.len() - 6) =~= encode_utf8(z));
        encode_utf8_decode_utf8(a);
        encode_utf8_decode_utf8(z);
        text::lemma_boundary(a, m + z);
        text::lemma_boundary(a + m, z);
    }
}

/// Whether file names keep a character: a letter or a digit of ASCII, a dot, a line or a dash.
pub open spec fn plain_letter(c: char) -> bool {
    let n = c as int;
    48 <= n <= 57 || 65 <= n <= 90 || 97 <= n <= 122 || n == 46 || n == 95 || n == 45
}

proof fn lemma_kept(a: Seq<char>, b: Seq<char>)
    ensures
        util::kept_name(a + b) == util::kept_name(a) + util::kept_name(b),
    decreases b.len(),
{
    if b.len() == 0 {
        assert(a + b =~= a);
        assert(util::kept_name(a) + util::kept_name(b) =~= util::kept_name(a));
    } else {
        assert((a + b).last() == b.last());
        assert((a + b).drop_last() =~= a + b.drop_last());
        lemma_kept(a, b.drop_last());
        assert(util::kept_name(a + b) =~= util::kept_name(a) + util::kept_name(b));
    }
}

proof fn lemma_kept_plain(s: Seq<char>)
    requires
        forall|i: int| 0 <= i < s.len() ==> plain_letter(#[trigger] s[i]),
    ensures
        util::kept_name(s) == s,
    decreases s.len(),
{
    if s.len() > 0 {
        assert forall|i: int| 0 <= i < s.drop_last().len() implies plain_letter(
            #[trigger] s.drop_last()[i],
        ) by {
            assert(plain_letter(s[i]));
        }
        lemma_kept_plain(s.drop_last());
        assert(plain_letter(s[s.len() - 1]));
        assert(s.drop_last().push(s.last()) =~= s);
    }
}

/// A file name keeps every letter that is plain, shows a space as a line and leaves out the rest;
/// where nothing is left it is a blob.
pub proof fn law_file_name_is_cleaned(a: Seq<char>, b: Seq<char>, c: char)
    ensures
        !plain_letter(c) && c != ' ' ==> util::safe_name(a.push(c) + b) == util::safe_name(a + b),
        util::safe_name(a.push(' ') + b) == util::safe_name(a.push('_') + b),
        a.len() > 0 && (forall|i: int| 0 <= i < a.len() ==> plain_letter(#[trigger] a[i]))
            ==> util::safe_name(a) == a,
        util::safe_name(Seq::empty()) == "blob"@,
{
    lemma_kept(a.push(c), b);
    lemma_kept(a.push(' '), b);
    lemma_kept(a.push('_'), b);
    lemma_kept(a, b);
    assert(a.push(c).drop_last() =~= a);
    assert(a.push(' ').drop_last() =~= a);
    assert(a.push('_').drop_last() =~= a);
    if a.len() > 0 && (forall|i: int| 0 <= i < a.len() ==> plain_letter(#[trigger] a[i])) {
        lemma_kept_plain(a);
    }
}

/// The colour of a peer is one of six and comes from its id, byte by byte.
pub proof fn law_colour(s: Seq<char>, bytes: Seq<u8>, b: u8)
    ensures
        0 <= util::color_of(s) < 6,
        util::color_of(s) == util::fnv1a(encode_utf8(s)) % 6,
        util::fnv1a(Seq::empty()) == 0x811c_9dc5,
        util::fnv1a(bytes.push(b)) == (util::fnv1a(bytes) ^ (b as u32)).wrapping_mul(0x0100_0193),
{
    assert(bytes.push(b).drop_last() =~= bytes);
}

/// Four numbers below two hundred and fifty-six with dots between them are an address, and an address
/// holds nothing but digits and dots.
pub proof fn law_dotted_numbers(a: u8, b: u8, c: u8, d: u8)
    ensures
        util::is_ipv4(dotted(a, b, c, d)),
        text::pieces(dotted(a, b, c, d), '.') == seq![
            text::dec(a as nat),
            text::dec(b as nat),
            text::dec(c as nat),
            text::dec(d as nat),
        ],
{
    let (x, y, z, w) = (
        text::dec(a as nat),
        text::dec(b as nat),
        text::dec(c as nat),
        text::dec(d as nat),
    );
    reveal_strlit(".");
    lemma_no_dot(a);
    lemma_no_dot(b);
    lemma_no_dot(c);
    lemma_no_dot(d);
    let s = dotted(a, b, c, d);
    assert(s =~= x.push('.') + (y.push('.') + (z.push('.') + w)));
    law_pieces(x, y.push('.') + (z.push('.') + w), '.');
    law_pieces(y, z.push('.') + w, '.');
    law_pieces(z, w, '.');
    law_pieces(w, w, '.');
    assert(text::pieces(s, '.') =~= seq![x, y, z, w]);
}

/// Four numbers with dots between them.
pub open spec fn dotted(a: u8, b: u8, c: u8, d: u8) -> Seq<char> {
    text::dec(a as nat) + "."@ + text::dec(b as nat) + "."@ + text::dec(c as nat) + "."@
        + text::dec(d as nat)
}

proof fn lemma_no_dot(a: u8)
    ensures
        forall|i: int| 0 <= i < text::dec(a as nat).len() ==> text::dec(a as nat)[i] != '.',
        util::is_octet(text::dec(a as nat)),
{
    text::law_number_of_dec(a as nat, 255);
    assert forall|i: int| 0 <= i < text::dec(a as nat).len() implies text::dec(a as nat)[i]
        != '.' by {
        assert(text::is_dec_digit(text::dec(a as nat)[i]));
    }
    reveal_with_fuel(text::dec, 4);
    lemma_no_leading_zero(a as nat);
    assert(text::is_dec_digit(text::dec(a as nat)[0]));
    assert(text::unsigned_part(text::dec(a as nat)) == text::dec(a as nat));
}

/// The first service that gives an address decides; without one there is none.
pub proof fn law_first_useful_reply(outcomes: Seq<Option<Vec<u8>>>, i: int)
    ensures
        util::first_address(outcomes) is None && 0 <= i < outcomes.len() ==> util::outcome_address(
            outcomes[i],
        ) is None,
        0 <= i < outcomes.len() && util::outcome_address(outcomes[i]) is Some && (forall|j: int|
            0 <= j < i ==> util::outcome_address(#[trigger] outcomes[j]) is None)
            ==> util::first_address(outcomes) == util::outcome_address(outcomes[i]),
    decreases outcomes.len(),
{
    if outcomes.len() > 0 {
        let d = outcomes.drop_last();
        law_first_useful_reply(d, i);
        if 0 <= i < outcomes.len() && util::outcome_address(outcomes[i]) is Some && (forall|j: int|
            0 <= j < i ==> util::outcome_address(#[trigger] outcomes[j]) is None) {
            if i < d.len() {
                assert forall|j: int| 0 <= j < i implies util::outcome_address(#[trigger] d[j])
                    is None by {
                    assert(outcomes[j] == d[j]);
                }
            } else {
                lemma_none_useful(d);
            }
        }
    }
}

proof fn lemma_none_useful(outcomes: Seq<Option<Vec<u8>>>)
    requires
        forall|j: int|
            0 <= j < outcomes.len() ==> util::outcome_address(#[trigger] outcomes[j]) is None,
    ensures
        util::first_address(outcomes) is None,
    decreases outcomes.len(),
{
    if outcomes.len() > 0 {
        let d = outcomes.drop_last();
        assert forall|j: int| 0 <= j < d.len() implies util::outcome_address(#[trigger] d[j])
            is None by {
            assert(outcomes[j] == d[j]);
        }
        lemma_none_useful(d);
        assert(util::outcome_address(outcomes[outcomes.len() - 1]) is None);
    }
}

/// A number goes over the wire seven bits at a time, the lowest first, with a mark on each byte that
/// another one follows.
pub proof fn law_varint_bytes(v: nat, i: int)
    ensures
        v < 128 ==> wire::varint(v) == seq![v as u8],
        v >= 128 ==> wire::varint(v)[0] == 128 + v % 128 && wire::varint(v).skip(1) == wire::varint(
            v / 128,
        ),
        wire::varint(v).len() > 0,
        wire::varint(v).last() < 128,
        0 <= i < wire::varint(v).len() - 1 ==> wire::varint(v)[i] >= 128,
    decreases v,
{
    if v >= 128 {
        law_varint_bytes(v / 128, i - 1);
        assert(wire::varint(v).skip(1) =~= wire::varint(v / 128));
        assert(wire::varint(v).last() == wire::varint(v / 128).last());
        if i > 0 && i < wire::varint(v).len() - 1 {
            assert(wire::varint(v)[i] == wire::varint(v / 128)[i - 1]);
        }
    }
}

/// A frame holds its kind as the first field, the nick as the second and the text as the third, the
/// last two with their lengths and only where they are not empty.
pub proof fn law_frame_layout(kind: u32, nick: Seq<char>, body: Seq<char>)
    ensures
        protocol::frame_bytes(kind, nick, body) == seq![8u8] + wire::varint(kind as nat) + block(
            18,
            nick,
        ) + block(26, body),
{
    law_nul_is_left_out(nick);
    law_nul_is_left_out(body);
    assert(wire::varint(8) =~= seq![8u8]);
    assert(wire::varint(18) =~= seq![18u8]);
    assert(wire::varint(26) =~= seq![26u8]);
    assert(protocol::frame_bytes(kind, nick, body) =~= seq![8u8] + wire::varint(kind as nat) + block(
        18,
        nick,
    ) + block(26, body));
}

/// A text as a field: its tag, its length and its bytes; nothing where it is empty.
pub open spec fn block(tag: u8, s: Seq<char>) -> Seq<u8> {
    let b = encode_utf8(s.filter(|c: char| c as int != 0));
    if s.len() == 0 {
        Seq::empty()
    } else {
        seq![tag] + wire::varint(b.len()) + b
    }
}

/// A field that is not known is passed over, and of a field that comes twice the later one counts.
pub proof fn law_fields_are_read(field: u64, x: u64, kind: u32, rest: Seq<u8>, acc: FieldsView)
    requires
        4 <= field < 16,
    ensures
        protocol::read_fields(
            wire::varint(8 * field as nat) + wire::varint(x as nat) + rest,
            acc,
        ) == protocol::read_fields(rest, acc),
        protocol::read_fields(seq![8u8] + wire::varint(kind as nat) + rest, acc)
            == protocol::read_fields(rest, FieldsView { kind, ..acc }),
        protocol::read_fields(Seq::empty(), acc) == Ok::<FieldsView, protocol::FrameError>(acc),
{
    let tag = (8 * field) as u64;
    let a = wire::varint(tag as nat) + wire::varint(x as nat) + rest;
    let t = wire::varint(x as nat) + rest;
    assert(a =~= wire::varint(tag as nat) + t);
    wire::law_varint_round_trip(tag, t);
    wire::law_varint_round_trip(x, rest);
    wire::lemma_varint_tail(a, 0);
    assert(a.skip(wire::varint(tag as nat).len() as int) =~= t);
    assert(t.skip(wire::varint(x as nat).len() as int) =~= rest);
    assert(tag as nat / 8 == field);
    assert(tag as nat % 8 == 0);
    let b = seq![8u8] + wire::varint(kind as nat) + rest;
    let u = wire::varint(kind as nat) + rest;
    assert(wire::varint(8) =~= seq![8u8]);
    assert(b =~= wire::varint(8) + u);
    wire::law_varint_round_trip(8, u);
    wire::law_varint_round_trip(kind as u64, rest);
    wire::lemma_varint_tail(b, 0);
    assert(b.skip(1) =~= u);
    assert(u.skip(wire::varint(kind as nat).len() as int) =~= rest);
}

/// Frames of files are those of the kinds four to seven.
pub proof fn law_file_kinds(kind: u32)
    ensures
        protocol::carries_file(kind) == (4 <= kind <= 7),
{
}

/// Without a wish the ports from 4001 to 4099 are tried in turn, otherwise only the wished one.
pub proof fn law_ports(preferred: u16, i: int)
    ensures
        preferred != 0 ==> ffi::candidates(preferred) == seq![preferred],
        ffi::candidates(0).len() == 99,
        0 <= i < 99 ==> ffi::candidates(0)[i] == 4001 + i,
        ffi::opened((0i32, i as i32)) == (i as i32 >= 0),
        ffi::opened((1i32, i as i32)) == false,
{
}

/// An identity needs every step on the way to it, and the first that failed is named.
pub proof fn law_identity_needs_all(p: IdentityParts)
    ensures
        p.failure() is None <==> p.static_rc == 0 && p.seed_rc == 0 && p.proto_rc == 0 && p.pid_rc
            == 0 && p.b58_rc == 0,
        p.static_rc != 0 || p.seed_rc != 0 ==> p.failure() == Some(IdentityError::Random),
        p.failure() == Some(IdentityError::PubkeyProto) ==> p.proto_rc != 0,
        p.failure() == Some(IdentityError::PeerId) ==> p.pid_rc != 0 && p.proto_rc == 0,
        p.failure() == Some(IdentityError::Base58) ==> p.b58_rc != 0 && p.pid_rc == 0,
{
}

/// The name under which this peer announces itself has a letter or a digit for each byte, up to
/// thirty-two.
pub proof fn law_instance_name(rb: Seq<u8>, i: int)
    ensures
        ffi::name_of_bytes(rb).len() == if rb.len() < 32 {
            rb.len()
        } else {
            32
        },
        0 <= i < ffi::name_of_bytes(rb).len() ==> ({
            let k = rb[i] as int % 62;
            ffi::name_of_bytes(rb)[i] as int == if k < 26 {
                97 + k
            } else if k < 52 {
                65 + (k - 26)
            } else {
                48 + (k - 52)
            }
        }),
{
    reveal_strlit("abcdefghijklmnopqrstuvwxyzABCDEFGHIJKLMNOPQRSTUVWXYZ0123456789");
}

/// A number on the wire has an end: bytes that all announce another one are none.
pub proof fn law_varint_has_an_end(s: Seq<u8>, read: nat)
    requires
        forall|i: int| 0 <= i < s.len() ==> #[trigger] s[i] >= 128,
    ensures
        wire::varint_tail(s, read) is None,
        wire::read_varint(s) is None,
    decreases s.len(),
{
    if s.len() > 0 {
        let t = s.skip(1);
        assert forall|i: int| 0 <= i < t.len() implies #[trigger] t[i] >= 128 by {
            assert(s[i + 1] >= 128);
        }
        law_varint_has_an_end(t, read + 1);
        law_varint_has_an_end(t, 1);
    }
}

/// A block on the wire is as long as it says, with what follows it left for later; one that says it
/// is longer than what is there is none.
pub proof fn law_blocks(b: Seq<u8>, rest: Seq<u8>, n: u64)
    requires
        b.len() <= u64::MAX,
    ensures
        wire::read_block(wire::varint(b.len()) + b + rest) == Some((b, rest)),
        b.len() < n ==> wire::read_block(wire::varint(n as nat) + b) is None,
        wire::after_field(wire::varint(b.len()) + b + rest, 2) == Some(rest),
        wire::after_field(wire::varint(n as nat) + rest, 0) == Some(rest),
        b.len() == 8 ==> wire::after_field(b + rest, 1) == Some(rest),
        b.len() == 4 ==> wire::after_field(b + rest, 5) == Some(rest),
        b.len() < 8 ==> wire::after_field(b, 1) is None,
        b.len() < 4 ==> wire::after_field(b, 5) is None,
{
    let s = wire::varint(b.len()) + b + rest;
    let m = wire::varint(b.len()).len();
    assert(s =~= wire::varint(b.len()) + (b + rest));
    wire::law_varint_round_trip(b.len() as u64, b + rest);
    assert(s.subrange(m as int, (m + b.len()) as int) =~= b);
    assert(s.skip((m + b.len()) as int) =~= rest);
    wire::law_varint_round_trip(n, b);
    wire::law_varint_round_trip(n, rest);
    let t = wire::varint(n as nat) + rest;
    assert(t.skip(wire::varint(n as nat).len() as int) =~= rest);
    assert((b + rest).skip(b.len() as int) =~= rest);
}

/// The address in a reply of a service is what stands behind its head, white space aside.
pub proof fn law_reply_holds_the_address(head: Seq<char>, a: u8, b: u8, c: u8, d: u8, end: Seq<char>)
    requires
        forall|j: int|
            0 <= j < head.len() ==> !text::stands_at(
                head + "\r\n\r\n"@ + dotted(a, b, c, d) + end,
                "\r\n\r\n"@,
                j,
            ),
        end.len() == 0 || end == "\n"@,
    ensures
        util::reply_address(head + "\r\n\r\n"@ + dotted(a, b, c, d) + end) == Some(
            dotted(a, b, c, d),
        ),
{
    let mark = "\r\n\r\n"@;
    let ip = dotted(a, b, c, d);
    let s = head + mark + ip + end;
    reveal_strlit("\r\n\r\n");
    reveal_strlit("\n");
    reveal_strlit(".");
    assert(mark.len() == 4);
    let k = head.len() as int;
    assert(s.subrange(k, k + 4) =~= mark);
    text::lemma_first_match(s, mark, k);
    let rest = s.skip(k + 4);
    assert(rest =~= ip + end);
    lemma_dotted_chars(a, b, c, d);
    assert forall|j: int| 0 <= j implies !text::stands_at(rest, mark, j) by {
        if text::stands_at(rest, mark, j) {
            assert(rest.subrange(j, j + 4)[0] == rest[j]);
            assert(mark[0] == '\r');
            if j < ip.len() {
                assert(rest[j] == ip[j]);
            } else {
                assert(rest[j] == end[j - ip.len()]);
            }
        }
    }
    assert(text::first_match(rest, mark) is None) by {
        if exists|i: int| text::stands_first(rest, mark, i) {
            let i = choose|i: int| text::stands_first(rest, mark, i);
            assert(text::stands_at(rest, mark, i));
        }
    }
    let none = Seq::<char>::empty();
    assert(!text::is_space(ip[0]) && !text::is_space(ip.last()));
    assert(none + ip + end =~= rest);
    law_trimmed(none, ip, end);
    assert forall|i: int| 0 <= i < ip.len() implies ip[i] != '\n' by {}
    law_cut_at_the_first(ip, ip, '\n');
    assert(none + ip + none =~= ip);
    law_trimmed(none, ip, none);
    law_dotted_numbers(a, b, c, d);
}

proof fn lemma_dotted_chars(a: u8, b: u8, c: u8, d: u8)
    ensures
        dotted(a, b, c, d).len() > 0,
        forall|i: int|
            0 <= i < dotted(a, b, c, d).len() ==> '0' <= #[trigger] dotted(a, b, c, d)[i] <= '9'
                || dotted(a, b, c, d)[i] == '.',
{
    reveal_strlit(".");
    let (x, y, z, w) = (
        text::dec(a as nat),
        text::dec(b as nat),
        text::dec(c as nat),
        text::dec(d as nat),
    );
    text::law_number_of_dec(a as nat, 255);
    text::law_number_of_dec(b as nat, 255);
    text::law_number_of_dec(c as nat, 255);
    text::law_number_of_dec(d as nat, 255);
    let s = dotted(a, b, c, d);
    let (p, q, r) = (
        x.len() as int,
        x.len() + 1 + y.len() as int,
        x.len() + 1 + y.len() + 1 + z.len() as int,
    );
    assert forall|i: int| 0 <= i < s.len() implies '0' <= #[trigger] s[i] <= '9' || s[i]
        == '.' by {
        if i < p {
            assert(s[i] == x[i]);
            assert(text::is_dec_digit(x[i]));
        } else if p < i < q {
            assert(s[i] == y[i - p - 1]);
            assert(text::is_dec_digit(y[i - p - 1]));
        } else if q < i < r {
            assert(s[i] == z[i - q - 1]);
            assert(text::is_dec_digit(z[i - q - 1]));
        } else if r < i {
            assert(s[i] == w[i - r - 1]);
            assert(text::is_dec_digit(w[i - r - 1]));
        }
    }
}

/// An address is made of four numbers below two hundred and fifty-six, none of which has more than
/// three digits or begins with a zero that is not all of it.
pub proof fn law_address_is_four_numbers(s: Seq<char>, i: int)
    requires
        util::is_ipv4(s),
    ensures
        text::pieces(s, '.').len() == 4,
        0 <= i < 4 ==> ({
            let p = text::pieces(s, '.')[i];
            &&& text::number(p, 255) is Some
            &&& 1 <= p.len() <= 3
            &&& p.len() > 1 ==> p[0] != '0'
            &&& '0' <= p[0] <= '9'
        }),
{
    if 0 <= i < 4 {
        let p = text::pieces(s, '.')[i];
        assert(util::is_octet(p));
        assert(text::is_dec_digit(p[0]));
        assert(text::unsigned_part(p) == p);
    }
}

/// What a service replies is an address or none, and it has to be text.
pub proof fn law_reply_is_an_address(reply: Seq<char>, bytes: Seq<u8>)
    ensures
        util::reply_address(reply) matches Some(ip) ==> util::is_ipv4(ip),
        util::raw_reply_address(encode_utf8(reply)) == util::reply_address(reply),
        !valid_utf8(bytes) ==> util::raw_reply_address(bytes) is None,
{
    encode_utf8_valid_utf8(reply);
    encode_utf8_decode_utf8(reply);
}

/// A frame fits where it takes no more than 1280 bytes; otherwise it is the nick that does not fit
/// where kind and nick alone are too long, and else the text.
pub proof fn law_frame_limit(kind: u32, nick: Seq<char>, body: Seq<char>)
    ensures
        ({
            let head = (seq![8u8] + wire::varint(kind as nat) + block(18, nick)).len();
            let all = head + block(26, body).len();
            protocol::frame_fault(kind, nick, body) == if head > 1280 {
                Some(protocol::FrameError::NickWrite)
            } else if all > 1280 {
                Some(protocol::FrameError::TextWrite)
            } else {
                None
            }
        }),
{
    law_frame_layout(kind, nick, body);
    law_frame_layout(kind, nick, Seq::empty());
    assert(protocol::frame_bytes(kind, nick, Seq::empty()) =~= protocol::frame_head(kind, nick));
    assert(block(26, Seq::empty()).len() == 0);
}

/// A frame says how many bytes it takes with its length in front.
pub proof fn law_length_in_front(len: nat)
    ensures
        len < 128 ==> protocol::wire_len(len) == len + 1,
        128 <= len < 16384 ==> protocol::wire_len(len) == len + 2,
{
    reveal_with_fuel(wire::varint, 3);
}

/// The first field of a frame with no number is an error, as are a number that has no end and a
/// block that is cut off.
pub proof fn law_bad_frames(rest: Seq<u8>, acc: FieldsView, s: Seq<u8>, n: u64)
    requires
        forall|i: int| 0 <= i < s.len() ==> #[trigger] s[i] >= 128,
        s.len() > 0,
        rest.len() < n,
    ensures
        protocol::read_fields(seq![0u8] + rest, acc) is Err,
        protocol::read_fields(s, acc) is Err,
        protocol::read_fields(seq![8u8] + s, acc) is Err,
        protocol::read_fields(seq![18u8] + (wire::varint(n as nat) + rest), acc) is Err,
        protocol::read_fields(seq![26u8] + (wire::varint(n as nat) + rest), acc) is Err,
{
    law_varint_has_an_end(s, 0);
    let z = seq![0u8] + rest;
    assert(wire::varint(0) =~= seq![0u8]);
    wire::law_varint_round_trip(0, rest);
    let k = seq![8u8] + s;
    assert(wire::varint(8) =~= seq![8u8]);
    wire::law_varint_round_trip(8, s);
    assert(k.skip(1) =~= s);
    let t = wire::varint(n as nat) + rest;
    let a = seq![18u8] + t;
    let b = seq![26u8] + t;
    assert(wire::varint(18) =~= seq![18u8]);
    assert(wire::varint(26) =~= seq![26u8]);
    wire::law_varint_round_trip(18, t);
    wire::law_varint_round_trip(26, t);
    wire::law_varint_round_trip(n, rest);
    assert(a.skip(1) =~= t);
    assert(b.skip(1) =~= t);
}

/// A number on the wire has at most sixty-four bits: one that needs more is none.
pub proof fn law_varint_is_bounded(s: Seq<u8>)
    requires
        s.len() >= 10,
        forall|i: int| 0 <= i < 9 ==> #[trigger] s[i] >= 128,
        s[9] > 1,
    ensures
        wire::read_varint(s) is None,
{
    lemma_too_long(s, 0);
}

proof fn lemma_too_long(s: Seq<u8>, read: nat)
    requires
        read <= 9,
        s.len() >= 10 - read,
        forall|i: int| 0 <= i < 9 - read ==> #[trigger] s[i] >= 128,
        s[9 - read] > 1,
    ensures
        wire::varint_tail(s, read) is None,
    decreases 9 - read,
{
    if read < 9 {
        let t = s.skip(1);
        assert forall|i: int| 0 <= i < 8 - read implies #[trigger] t[i] >= 128 by {
            assert(s[i + 1] >= 128);
        }
        lemma_too_long(t, read + 1);
    }
}

/// What stands between the first two marks is the second part of a text, and what stands behind the
/// only one where there is no other.
pub proof fn law_second_part(s: Seq<char>, mark: Seq<char>, i: int, j: int)
    requires
        mark.len() > 0,
        0 <= i && i + mark.len() <= s.len(),
        s.subrange(i, i + mark.len()) == mark,
        forall|k: int| 0 <= k < i ==> !text::stands_at(s, mark, k),
    ensures
        i + mark.len() <= j && j + mark.len() <= s.len() && s.subrange(j, j + mark.len()) == mark
            && (forall|k: int| i + mark.len() <= k < j ==> !text::stands_at(s, mark, k))
            ==> util::second_part(s, mark) == Some(s.subrange(i + mark.len(), j)),
        (forall|k: int| i + mark.len() <= k ==> !text::stands_at(s, mark, k)) ==> util::second_part(
            s,
            mark,
        ) == Some(s.skip(i + mark.len())),
{
    let from = i + mark.len();
    let rest = s.skip(from);
    text::lemma_first_match(s, mark, i);
    if from <= j && j + mark.len() <= s.len() && s.subrange(j, j + mark.len()) == mark && (forall|
        k: int,
    |
        from <= k < j ==> !text::stands_at(s, mark, k)) {
        let m = j - from;
        assert(rest.subrange(m, m + mark.len()) =~= mark);
        assert forall|k: int| 0 <= k < m implies !text::stands_at(rest, mark, k) by {
            assert(rest.subrange(k, k + mark.len()) =~= s.subrange(
                from + k,
                from + k + mark.len(),
            ));
            assert(!text::stands_at(s, mark, from + k));
        }
        text::lemma_first_match(rest, mark, m);
        assert(rest.take(m) =~= s.subrange(from, j));
    }
    if forall|k: int| from <= k ==> !text::stands_at(s, mark, k) {
        if exists|k: int| text::stands_first(rest, mark, k) {
            let k = choose|k: int| text::stands_first(rest, mark, k);
            assert(text::stands_at(rest, mark, k));
            assert(rest.subrange(k, k + mark.len()) =~= s.subrange(
                from + k,
                from + k + mark.len(),
            ));
            assert(text::stands_at(s, mark, from + k));
        }
    }
}

}
