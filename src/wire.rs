use vstd::prelude::*;

verus! {

/// The byte order of every multi-byte number in one session.
#[derive(Clone, Copy, Debug, Hash, PartialEq, Eq, Structural)]
pub enum Endianness {
    Big,
    Little,
}

/// `256` raised to `n`.
pub open spec fn pow256(n: nat) -> nat
    decreases n,
{
    if n == 0 {
        1
    } else {
        256 * pow256((n - 1) as nat)
    }
}

/// The number that `s` spells with its most significant byte first.
pub open spec fn be_value(s: Seq<u8>) -> nat
    decreases s.len(),
{
    if s.len() == 0 {
        0
    } else {
        (be_value(s.drop_last()) * 256 + s.last()) as nat
    }
}

/// The number that `s` spells with its least significant byte first.
pub open spec fn le_value(s: Seq<u8>) -> nat
    decreases s.len(),
{
    if s.len() == 0 {
        0
    } else {
        (s[0] + 256 * le_value(s.drop_first())) as nat
    }
}

/// The unsigned number that `s` spells in byte order `order`.
pub open spec fn uint_value(s: Seq<u8>, order: Endianness) -> nat {
    match order {
        Endianness::Big => be_value(s),
        Endianness::Little => le_value(s),
    }
}

pub proof fn lemma_pow256_small(n: nat)
    requires
        n <= 8,
    ensures
        pow256(n) <= pow256(8),
        pow256(1) == 0x100,
        pow256(2) == 0x1_0000,
        pow256(4) == 0x1_0000_0000,
        pow256(8) == 0x1_0000_0000_0000_0000,
{
    reveal_with_fuel(pow256, 9);
}

pub proof fn lemma_be_bound(s: Seq<u8>)
    ensures
        be_value(s) < pow256(s.len()),
    decreases s.len(),
{
    if s.len() > 0 {
        lemma_be_bound(s.drop_last());
        let a = be_value(s.drop_last());
        let p = pow256((s.len() - 1) as nat);
        let b = s.last() as int;
        assert(a * 256 + b < 256 * p) by (nonlinear_arith)
            requires
                a < p,
                0 <= b < 256,
        ;
    }
}

pub proof fn lemma_le_bound(s: Seq<u8>)
    ensures
        le_value(s) < pow256(s.len()),
    decreases s.len(),
{
    if s.len() > 0 {
        lemma_le_bound(s.drop_first());
        let a = le_value(s.drop_first());
        let p = pow256((s.len() - 1) as nat);
        let b = s[0] as int;
        assert(b + 256 * a < 256 * p) by (nonlinear_arith)
            requires
                a < p,
                0 <= b < 256,
        ;
    }
}

pub proof fn lemma_uint_bound(s: Seq<u8>, order: Endianness)
    ensures
        uint_value(s, order) < pow256(s.len()),
{
    lemma_be_bound(s);
    lemma_le_bound(s);
}

/// Reads the unsigned number that `bytes` spell in byte order `order`.
pub fn uint_from_bytes(bytes: &[u8], order: Endianness) -> (r: u64)
    requires
        bytes@.len() <= 8,
    ensures
        r as nat == uint_value(bytes@, order),
{
    let n = bytes.len();
    let mut acc: u64 = 0;
    match order {
        Endianness::Big => {
            let mut i: usize = 0;
            while i < n
                invariant
                    n == bytes@.len(),
                    n <= 8,
                    i <= n,
                    acc as nat == be_value(bytes@.subrange(0, i as int)),
                    acc < pow256(i as nat),
                decreases n - i,
            {
                let ghost pre = bytes@.subrange(0, i as int);
                let ghost next = bytes@.subrange(0, i as int + 1);
                proof {
                    assert(next.drop_last() =~= pre);
                    lemma_pow256_small((i + 1) as nat);
                    lemma_be_bound(next);
                }
                acc = acc * 256 + bytes[i] as u64;
                i = i + 1;
            }
            assert(bytes@.subrange(0, n as int) =~= bytes@);
        },
        Endianness::Little => {
            let mut i: usize = n;
            while i > 0
                invariant
                    n == bytes@.len(),
                    n <= 8,
                    i <= n,
                    acc as nat == le_value(bytes@.subrange(i as int, n as int)),
                    acc < pow256((n - i) as nat),
                decreases i,
            {
                let ghost pre = bytes@.subrange(i as int, n as int);
                let ghost next = bytes@.subrange(i - 1, n as int);
                proof {
                    assert(next.drop_first() =~= pre);
                    lemma_pow256_small((n - i + 1) as nat);
                    lemma_le_bound(next);
                }
                acc = acc * 256 + bytes[i - 1] as u64;
                i = i - 1;
            }
            assert(bytes@.subrange(0, n as int) =~= bytes@);
        },
    }
    acc
}

/// The encoded width of the scalar that leading byte `b` starts: 1 to 4, or 0 where `b` is a
/// continuation byte or starts no valid encoding.
pub open spec fn char_width(b: u8) -> nat {
    if b < 0x80 {
        1
    } else if b < 0xC2 {
        0
    } else if b < 0xE0 {
        2
    } else if b < 0xF0 {
        3
    } else if b < 0xF5 {
        4
    } else {
        0
    }
}

/// Looks up the encoded width of the scalar that leading byte `b` starts.
pub fn utf8_char_width(b: u8) -> (r: usize)
    ensures
        r as nat == char_width(b),
{
    if b < 0x80 {
        1
    } else if b < 0xC2 {
        0
    } else if b < 0xE0 {
        2
    } else if b < 0xF0 {
        3
    } else if b < 0xF5 {
        4
    } else {
        0
    }
}

} // verus!
