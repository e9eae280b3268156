use vstd::prelude::*;

use crate::error::{DecodeError, Invalid};
use crate::limit::{charged_total, within_limit, SizeLimit};
use crate::model::DecodeState;
use crate::value::{Shape, Val};
use crate::wire::{char_width, lemma_pow256_small, pow256, uint_value, Endianness};

verus! {

/// The `k` bytes that spell `x` with its most significant byte first.
pub open spec fn be_bytes(x: nat, k: nat) -> Seq<u8>
    decreases k,
{
    if k == 0 {
        seq![]
    } else {
        be_bytes(x / 256, (k - 1) as nat).push((x % 256) as u8)
    }
}

/// The `k` bytes that spell `x` with its least significant byte first.
pub open spec fn le_bytes(x: nat, k: nat) -> Seq<u8>
    decreases k,
{
    if k == 0 {
        seq![]
    } else {
        seq![(x % 256) as u8] + le_bytes(x / 256, (k - 1) as nat)
    }
}

/// The `k` bytes that spell `x` in byte order `order`.
pub open spec fn uint_bytes(x: nat, k: nat, order: Endianness) -> Seq<u8> {
    match order {
        Endianness::Big => be_bytes(x, k),
        Endianness::Little => le_bytes(x, k),
    }
}

/// The wire form of a length or discriminant `n`.
pub open spec fn encode_length(n: nat, order: Endianness) -> Seq<u8> {
    if n < 0xFF {
        seq![n as u8]
    } else {
        seq![0xFFu8] + uint_bytes(n, 4, order)
    }
}

proof fn lemma_div_bound(x: nat, p: nat)
    requires
        x < 256 * p,
    ensures
        x / 256 < p,
        (x / 256) * 256 + x % 256 == x,
{
    assert(x / 256 < p) by (nonlinear_arith)
        requires
            x < 256 * p,
    ;
    assert((x / 256) * 256 + x % 256 == x) by (nonlinear_arith);
}

pub proof fn lemma_uint_bytes(x: nat, k: nat, order: Endianness)
    requires
        x < pow256(k),
    ensures
        uint_bytes(x, k, order).len() == k,
        uint_value(uint_bytes(x, k, order), order) == x,
    decreases k,
{
    if k > 0 {
        lemma_div_bound(x, pow256((k - 1) as nat));
        lemma_uint_bytes(x / 256, (k - 1) as nat, order);
        match order {
            Endianness::Big => {
                let s = be_bytes(x, k);
                assert(s.drop_last() =~= be_bytes(x / 256, (k - 1) as nat));
            },
            Endianness::Little => {
                let s = le_bytes(x, k);
                assert(s.drop_first() =~= le_bytes(x / 256, (k - 1) as nat));
            },
        }
    }
}

/// The total after charging `a` bytes and then `b` bytes is the total after charging both at once.
proof fn lemma_charged_twice(read: nat, a: nat, b: nat)
    ensures
        charged_total(charged_total(read, a), b) == charged_total(read, a + b),
{
}

/// The lengths below the escape byte take one byte, all others the escape byte and four more;
/// either form, read by a session whose limit admits it, gives the length back, leaves the
/// cursor just past it and charges exactly its size.
pub proof fn law_length_round_trip(st: DecodeState, n: nat)
    requires
        st.valid(),
        within_limit(st.limit, st.read + encode_length(n, st.order).len()),
        n <= u32::MAX,
        st.pos + encode_length(n, st.order).len() <= st.input.len(),
        st.input.subrange(st.pos as int, st.pos + encode_length(n, st.order).len() as int)
            == encode_length(n, st.order),
    ensures
        encode_length(n, st.order).len() == (if n < 0xFF { 1nat } else { 5nat }),
        st.read_length() matches Ok((m, s)) && m == n && s.pos == st.pos + encode_length(
            n,
            st.order,
        ).len() && s.same_source(st) && s.read == charged_total(
            st.read,
            encode_length(n, st.order).len(),
        ),
{
    lemma_pow256_small(4);
    let enc = encode_length(n, st.order);
    let first = st.input.subrange(st.pos as int, st.pos + 1int);
    assert(first[0] == enc[0]);
    if n >= 0xFF {
        lemma_uint_bytes(n, 4, st.order);
        let s1 = st.read_byte()->Ok_0.1;
        let tail = st.input.subrange(st.pos + 1int, st.pos + 5int);
        assert(tail =~= enc.subrange(1, 5));
        assert(enc.subrange(1, 5) =~= uint_bytes(n, 4, st.order));
        lemma_charged_twice(st.read, 1, 4);
    }
}

} // verus!

verus! {

/// The number that the four bytes at `pos` spell.
pub open spec fn u32_at(input: Seq<u8>, pos: int, order: Endianness) -> Val {
    Val::U32(uint_value(input.subrange(pos, pos + 4), order) as u32)
}

proof fn lemma_u32_run(st: DecodeState, m: nat)
    requires
        st.valid(),
        within_limit(st.limit, st.read + 4 * m),
    ensures
        st.pos + 4 * m <= st.input.len() ==> (st.decode_many(Shape::U32, m) matches Ok((vs, s))
            && vs.len() == m && s.pos == st.pos + 4 * m && s.same_source(st) && s.read
            == charged_total(st.read, 4 * m) && forall|i: int|
            0 <= i < m ==> #[trigger] vs[i] == u32_at(st.input, st.pos + 4 * i, st.order)),
        st.pos + 4 * m > st.input.len() ==> (st.decode_many(Shape::U32, m) matches Err((e, _))
            && e == DecodeError::IoFailure),
    decreases m,
{
    if m > 0 {
        if st.pos + 4 <= st.input.len() {
            let s1 = st.decode(Shape::U32)->Ok_0.1;
            assert(s1.pos == st.pos + 4);
            lemma_charged_twice(st.read, 4, (4 * m - 4) as nat);
            lemma_u32_run(s1, (m - 1) as nat);
            if st.pos + 4 * m <= st.input.len() {
                let vs = st.decode_many(Shape::U32, m)->Ok_0.0;
                let rest = s1.decode_many(Shape::U32, (m - 1) as nat)->Ok_0.0;
                assert forall|i: int| 0 <= i < m implies #[trigger] vs[i] == u32_at(
                    st.input,
                    st.pos + 4 * i,
                    st.order,
                ) by {
                    if i == 0 {
                        assert(st.pos + 4 * i == st.pos);
                    } else {
                        assert(vs[i] == rest[i - 1]);
                        assert(s1.pos + 4 * (i - 1) == st.pos + 4 * i);
                    }
                }
            }
        }
    }
}

/// A sequence of `n` four-byte numbers consumes exactly its length prefix and `4 * n` bytes:
/// where the source holds exactly that, it decodes to the `n` numbers those bytes spell, is used
/// up, and the whole size is charged; the same source one byte short fails with an I/O failure.
pub proof fn law_sequence_length_exact(st: DecodeState, n: nat)
    requires
        st.valid(),
        n <= u32::MAX,
        within_limit(st.limit, st.read + encode_length(n, st.order).len() + 4 * n),
        st.input.len() == st.pos + encode_length(n, st.order).len() + 4 * n,
        st.input.subrange(st.pos as int, st.pos + encode_length(n, st.order).len() as int)
            == encode_length(n, st.order),
    ensures
        st.decode(Shape::List(Box::new(Shape::U32))) matches Ok((Val::List(vs), s)) && vs.len()
            == n && s.pos == st.input.len() && s.read == charged_total(
            st.read,
            encode_length(n, st.order).len() + 4 * n,
        ) && forall|i: int|
            0 <= i < n ==> #[trigger] vs[i] == u32_at(
                st.input,
                st.pos + encode_length(n, st.order).len() + 4 * i,
                st.order,
            ),
        (DecodeState { input: st.input.drop_last(), ..st }).decode(
            Shape::List(Box::new(Shape::U32)),
        ) matches Err((e, _)) && e == DecodeError::IoFailure,
{
    let plen = encode_length(n, st.order).len();
    law_length_round_trip(st, n);
    let s1 = st.read_length()->Ok_0.1;
    lemma_u32_run(s1, n);
    lemma_charged_twice(st.read, plen, 4 * n);
    let short = DecodeState { input: st.input.drop_last(), ..st };
    if n == 0 {
        assert(short.input.len() == st.pos);
    } else {
        assert(plen <= 5);
        assert(short.input.subrange(st.pos as int, st.pos + plen as int) =~= st.input.subrange(
            st.pos as int,
            st.pos + plen as int,
        ));
        law_length_round_trip(short, n);
        let t1 = short.read_length()->Ok_0.1;
        lemma_u32_run(t1, n);
    }
}

} // verus!

verus! {

/// A boolean byte decodes to `false` for 0 and `true` for 1, and every other byte is an invalid
/// encoding that names the byte, after that byte has been charged and consumed.
pub proof fn law_bool_strict(st: DecodeState)
    requires
        st.valid(),
        st.pos < st.input.len(),
        within_limit(st.limit, st.read + 1),
    ensures
        st.input[st.pos as int] == 0 ==> (st.read_bool() matches Ok((b, _)) && !b),
        st.input[st.pos as int] == 1 ==> (st.read_bool() matches Ok((b, _)) && b),
        st.input[st.pos as int] > 1 ==> (st.read_bool() matches Err((e, s)) && e
            == DecodeError::InvalidEncoding(Invalid::Bool(st.input[st.pos as int])) && s.pos
            == st.pos + 1 && s.read == charged_total(st.read, 1)),
{
}

/// Once the running total would pass a bound, every charged read fails, however small: a
/// number of `k` bytes fails when `k` more bytes would exceed the bound, and no byte is pulled.
pub proof fn law_limit_trips(st: DecodeState, k: nat)
    requires
        st.limit matches SizeLimit::Bounded(x) && st.read + k > x,
    ensures
        st.read_uint(k) matches Err((e, s)) && e == DecodeError::SizeLimitExceeded && s.pos
            == st.pos && s.read == charged_total(st.read, k),
{
}

/// A continuation byte cannot start a scalar: reading a char there is an invalid encoding, and
/// only that byte is consumed.
pub proof fn law_char_rejects_continuation(st: DecodeState)
    requires
        st.valid(),
        within_limit(st.limit, st.read + 1),
        st.pos < st.input.len(),
        0x80 <= st.input[st.pos as int] <= 0xBF,
    ensures
        st.read_char() matches Err((e, s)) && e == DecodeError::InvalidEncoding(Invalid::Char)
            && s.pos == st.pos + 1,
{
}

/// A scalar whose leading byte announces more bytes than the source still holds is a short
/// read.
pub proof fn law_char_truncated(st: DecodeState)
    requires
        st.valid(),
        st.pos < st.input.len(),
        char_width(st.input[st.pos as int]) > 0,
        within_limit(st.limit, st.read + char_width(st.input[st.pos as int])),
        st.pos + char_width(st.input[st.pos as int]) > st.input.len(),
    ensures
        st.read_char() matches Err((e, _)) && e == DecodeError::IoFailure,
{
}

} // verus!

verus! {

/// A session stays tripped: after a charge that passed the bound, with the running total kept
/// as the charge left it, every further charge of at least one byte fails too.
pub proof fn law_limit_stays_tripped(st: DecodeState, count: nat, k: nat)
    requires
        st.limit matches SizeLimit::Bounded(x) && st.read <= u64::MAX && st.read + count > x,
        k >= 1,
    ensures
        (DecodeState { read: charged_total(st.read, count), ..st }).charge(k) is Err,
{
}

} // verus!
