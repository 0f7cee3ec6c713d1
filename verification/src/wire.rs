//! The protobuf wire format, as far as chat frames use it.
use vstd::prelude::*;
use vstd::slice::slice_subrange;

verus! {

/// Wire type of a variable-length integer.
pub const WIRE_VARINT: u64 = 0;

/// Wire type of eight fixed bytes.
pub const WIRE_64BIT: u64 = 1;

/// Wire type of a length and that many bytes.
pub const WIRE_LEN: u64 = 2;

/// Wire type of four fixed bytes.
pub const WIRE_32BIT: u64 = 5;

/// A number in base 128, least significant digit first, with the high bit set on every byte but
/// the last.
pub open spec fn varint(v: nat) -> Seq<u8>
    decreases v,
{
    if v < 128 {
        seq![v as u8]
    } else {
        seq![(128 + v % 128) as u8] + varint(v / 128)
    }
}

/// The number at the start of `s` and the bytes it takes, where `read` bytes of it went before.
/// A number has at most ten bytes, and the tenth is at most one.
pub open spec fn varint_tail(s: Seq<u8>, read: nat) -> Option<(nat, nat)>
    decreases s.len(),
{
    if s.len() == 0 || read >= 10 || (read == 9 && s[0] > 1) {
        None
    } else if s[0] < 128 {
        Some((s[0] as nat, 1))
    } else {
        match varint_tail(s.skip(1), read + 1) {
            Some((v, n)) => Some(((s[0] - 128 + 128 * v) as nat, n + 1)),
            None => None,
        }
    }
}

/// The number at the start of `s` and the bytes it takes.
pub open spec fn read_varint(s: Seq<u8>) -> Option<(nat, nat)> {
    varint_tail(s, 0)
}

/// One more than the largest number that can follow `read` bytes.
pub open spec fn tail_bound(read: nat) -> nat
    decreases 10 - read,
{
    if read >= 9 {
        2
    } else {
        128 * tail_bound(read + 1)
    }
}

proof fn lemma_tail_bounds()
    ensures
        tail_bound(0) == 0x1_0000_0000_0000_0000,
{
    reveal_with_fuel(tail_bound, 10);
}

proof fn lemma_tail_bound_shrinks(read: nat)
    ensures
        tail_bound(read) <= tail_bound(0),
    decreases read,
{
    if read > 0 {
        lemma_tail_bound_shrinks((read - 1) as nat);
    }
}

/// What a read gives lies within the bytes and within 64 bits.
pub proof fn lemma_varint_tail(s: Seq<u8>, read: nat)
    ensures
        varint_tail(s, read) matches Some((v, n)) ==> 1 <= n <= s.len() && v < tail_bound(read),
    decreases s.len(),
{
    if s.len() > 0 {
        lemma_varint_tail(s.skip(1), read + 1);
        reveal_with_fuel(tail_bound, 3);
        if read < 9 {
            lemma_tail_bound_at_least(read + 1);
        }
    }
}

proof fn lemma_tail_bound_at_least(read: nat)
    ensures
        tail_bound(read) >= 2,
    decreases 10 - read,
{
    if read < 9 {
        lemma_tail_bound_at_least(read + 1);
    }
}

fn decode_tail(s: &[u8], read: usize) -> (r: Option<(u64, usize)>)
    requires
        read <= 10,
    ensures
        r is Some <==> varint_tail(s@, read as nat) is Some,
        r matches Some(p) ==> varint_tail(s@, read as nat) == Some((p.0 as nat, p.1 as nat)),
    decreases s@.len(),
{
    let n: usize = s.len();
    if n == 0 || read >= 10 || (read == 9 && s[0] > 1) {
        return None;
    }
    let b = s[0];
    if b < 128 {
        return Some((b as u64, 1));
    }
    let rest = slice_subrange(s, 1, n);
    proof {
        assert(rest@ =~= s@.skip(1));
    }
    match decode_tail(rest, read + 1) {
        Some((v, len)) => {
            proof {
                lemma_varint_tail(s@, read as nat);
                lemma_varint_tail(rest@, (read + 1) as nat);
                lemma_tail_bound_shrinks(read as nat);
                lemma_tail_bounds();
            }
            Some(((b - 128) as u64 + 128 * v, len + 1))
        },
        None => None,
    }
}

/// The number at the start of the bytes and how many of them it takes.
pub fn decode_varint(s: &[u8]) -> (r: Option<(u64, usize)>)
    ensures
        r is Some <==> read_varint(s@) is Some,
        r matches Some(p) ==> read_varint(s@) == Some((p.0 as nat, p.1 as nat)) && 1 <= p.1
            <= s@.len(),
{
    proof {
        lemma_varint_tail(s@, 0);
    }
    decode_tail(s, 0)
}

/// Appends a number as a varint.
pub fn encode_varint(out: &mut Vec<u8>, v: u64)
    ensures
        final(out)@ == old(out)@ + varint(v as nat),
    decreases v,
{
    if v < 128 {
        out.push(v as u8);
        proof {
            assert(out@ =~= old(out)@ + varint(v as nat));
        }
    } else {
        out.push((128 + v % 128) as u8);
        encode_varint(out, v / 128);
        proof {
            assert(out@ =~= old(out)@ + varint(v as nat));
        }
    }
}

/// How many bytes a number takes as a varint.
pub fn varint_size(v: u64) -> (r: usize)
    ensures
        r == varint(v as nat).len(),
        1 <= r <= 10,
{
    proof {
        lemma_varint_len_of(v);
    }
    let mut rest: u64 = v;
    let mut n: usize = 1;
    while rest >= 128
        invariant
            1 <= n,
            n - 1 + varint(rest as nat).len() == varint(v as nat).len(),
            1 <= varint(v as nat).len() <= 10,
            forall|k: nat| #[trigger] varint(k).len() >= 1,
        decreases rest,
    {
        rest = rest / 128;
        n += 1;
    }
    n
}

proof fn lemma_varint_len(v: nat, read: nat)
    requires
        read <= 9,
        v < tail_bound(read),
    ensures
        1 <= varint(v).len() <= 10 - read,
        forall|k: nat| #[trigger] varint(k).len() >= 1,
    decreases 10 - read,
{
    reveal_with_fuel(tail_bound, 2);
    if v >= 128 {
        assert(read < 9);
        lemma_varint_len(v / 128, read + 1);
    }
}

/// A number takes at most ten bytes as a varint.
pub proof fn lemma_varint_len_of(v: u64)
    ensures
        1 <= varint(v as nat).len() <= 10,
        forall|k: nat| #[trigger] varint(k).len() >= 1,
{
    lemma_tail_bounds();
    lemma_varint_len(v as nat, 0);
}

proof fn lemma_read_back(v: nat, rest: Seq<u8>, read: nat)
    requires
        read <= 9,
        v < tail_bound(read),
    ensures
        varint_tail(varint(v) + rest, read) == Some((v, varint(v).len())),
    decreases 10 - read,
{
    let s = varint(v) + rest;
    reveal_with_fuel(tail_bound, 2);
    lemma_varint_len(v, read);
    if v < 128 {
        assert(s[0] == v as u8);
    } else {
        lemma_read_back(v / 128, rest, read + 1);
        assert(s[0] == (128 + v % 128) as u8);
        assert(s.skip(1) =~= varint(v / 128) + rest);
    }
}

/// A number written as a varint reads back, whatever follows it.
pub proof fn law_varint_round_trip(v: u64, rest: Seq<u8>)
    ensures
        read_varint(varint(v as nat) + rest) == Some((v as nat, varint(v as nat).len())),
{
    lemma_tail_bounds();
    lemma_read_back(v as nat, rest, 0);
}

/// The length-prefixed bytes at the start of `s`, and what follows them.
pub open spec fn read_block(s: Seq<u8>) -> Option<(Seq<u8>, Seq<u8>)> {
    match read_varint(s) {
        Some((len, n)) => if n + len <= s.len() {
            Some((s.subrange(n as int, (n + len) as int), s.skip((n + len) as int)))
        } else {
            None
        },
        None => None,
    }
}

/// The length-prefixed bytes at the start of the slice, and what follows them.
pub fn decode_block(s: &[u8]) -> (r: Option<(&[u8], &[u8])>)
    ensures
        r is Some <==> read_block(s@) is Some,
        r matches Some(p) ==> read_block(s@) == Some((p.0@, p.1@)),
{
    let total: usize = s.len();
    match decode_varint(s) {
        Some((len, n)) => {
            if len > (total - n) as u64 {
                return None;
            }
            let len: usize = len as usize;
            let block = slice_subrange(s, n, n + len);
            let rest = slice_subrange(s, n + len, total);
            proof {
                assert(rest@ =~= s@.skip(n + len));
            }
            Some((block, rest))
        },
        None => None,
    }
}

/// What follows a field of wire type `wire` at the start of `s`.
pub open spec fn after_field(s: Seq<u8>, wire: nat) -> Option<Seq<u8>> {
    if wire == WIRE_VARINT {
        match read_varint(s) {
            Some((_, n)) => Some(s.skip(n as int)),
            None => None,
        }
    } else if wire == WIRE_64BIT {
        if s.len() >= 8 {
            Some(s.skip(8))
        } else {
            None
        }
    } else if wire == WIRE_32BIT {
        if s.len() >= 4 {
            Some(s.skip(4))
        } else {
            None
        }
    } else if wire == WIRE_LEN {
        match read_block(s) {
            Some((_, rest)) => Some(rest),
            None => None,
        }
    } else {
        None
    }
}

/// Skips a field of the given wire type.
pub fn skip_field(s: &[u8], wire: u64) -> (r: Option<&[u8]>)
    ensures
        r is Some <==> after_field(s@, wire as nat) is Some,
        r matches Some(rest) ==> after_field(s@, wire as nat) == Some(rest@),
{
    let total: usize = s.len();
    let n: usize = if wire == WIRE_VARINT {
        match decode_varint(s) {
            Some((_, n)) => n,
            None => {
                return None;
            },
        }
    } else if wire == WIRE_64BIT {
        8
    } else if wire == WIRE_32BIT {
        4
    } else if wire == WIRE_LEN {
        match decode_block(s) {
            Some((_, rest)) => {
                return Some(rest);
            },
            None => {
                return None;
            },
        }
    } else {
        return None;
    };
    if n > total {
        return None;
    }
    let rest = slice_subrange(s, n, total);
    proof {
        assert(rest@ =~= s@.skip(n as int));
    }
    Some(rest)
}

}
