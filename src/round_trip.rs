use vstd::prelude::*;
use vstd::utf8::{
    char_u32_cast, encode_scalar, encode_utf8, encode_utf8_decode_utf8, encode_utf8_first_scalar,
    encode_utf8_valid_utf8, has_width_1_encoding, has_width_2_encoding, has_width_3_encoding,
    has_width_4_encoding,
};

use crate::error::DecodeError;
use crate::laws::{encode_length, law_length_round_trip, lemma_uint_bytes, uint_bytes};
use crate::limit::{charged_total, within_limit, SizeLimit};
use crate::model::{fresh_session, DecodeState};
use crate::value::{Shape, Val};
use crate::wire::{char_width, lemma_pow256_small, pow256, Endianness};

verus! {

/// Whether `v` is a value of shape `shape` that the wire format can carry: every length fits the
/// four bytes after the escape byte.
pub open spec fn conforms(shape: Shape, v: Val) -> bool
    decreases shape, 2nat, 0nat,
{
    match shape {
        Shape::Unit => v is Unit,
        Shape::Bool => v is Bool,
        Shape::U8 => v is U8,
        Shape::U16 => v is U16,
        Shape::U32 => v is U32,
        Shape::U64 => v is U64,
        Shape::I8 => v is I8,
        Shape::I16 => v is I16,
        Shape::I32 => v is I32,
        Shape::I64 => v is I64,
        Shape::F32 => v is F32,
        Shape::F64 => v is F64,
        Shape::Char => v is Char,
        Shape::Str => match v {
            Val::Str(cs) => encode_utf8(cs).len() <= u32::MAX,
            _ => false,
        },
        Shape::Bytes => match v {
            Val::Bytes(b) => b.len() <= u32::MAX,
            _ => false,
        },
        Shape::Option(inner) => match v {
            Val::Absent => true,
            Val::Present(p) => conforms(*inner, *p),
            _ => false,
        },
        Shape::List(elem) => match v {
            Val::List(vs) => vs.len() <= u32::MAX && all_conform(*elem, vs),
            _ => false,
        },
        Shape::Array(n, elem) => match v {
            Val::List(vs) => vs.len() == n && all_conform(*elem, vs),
            _ => false,
        },
        Shape::Tuple(fields) => match v {
            Val::List(vs) => fields_conform(fields@, vs),
            _ => false,
        },
        Shape::Dict(_, _) => match v {
            Val::Dict(es) => es.len() <= u32::MAX && entries_conform(shape, es),
            _ => false,
        },
        Shape::Enum(variants) => match v {
            Val::Variant(i, p) => (i as int) < variants.len() && conforms(variants[i as int], *p),
            _ => false,
        },
        Shape::Newtype(inner) => match v {
            Val::Newtype(p) => conforms(*inner, *p),
            _ => false,
        },
        Shape::Any | Shape::FieldName => false,
    }
}

/// Every value of `vs` conforms to `elem`.
pub open spec fn all_conform(elem: Shape, vs: Seq<Val>) -> bool
    decreases elem, 3nat, vs.len(),
{
    vs.len() > 0 ==> conforms(elem, vs[0]) && all_conform(elem, vs.drop_first())
}

/// `vs` has one value for each shape of `fields`, each conforming to it.
pub open spec fn fields_conform(fields: Seq<Shape>, vs: Seq<Val>) -> bool
    decreases fields, 0nat, 0nat,
{
    fields.len() == vs.len() && (fields.len() > 0 ==> conforms(fields[0], vs[0])
        && fields_conform(fields.drop_first(), vs.drop_first()))
}

/// Every pair of `es` conforms to the key and value shapes that `dict` names.
pub open spec fn entries_conform(dict: Shape, es: Seq<(Val, Val)>) -> bool
    decreases dict, 1nat, es.len(),
{
    match dict {
        Shape::Dict(k, v) => es.len() > 0 ==> conforms(*k, es[0].0) && conforms(*v, es[0].1)
            && entries_conform(dict, es.drop_first()),
        _ => false,
    }
}

/// The wire form of value `v` of shape `shape`.
pub open spec fn encode(shape: Shape, v: Val, order: Endianness) -> Seq<u8>
    decreases shape, 2nat, 0nat,
{
    match shape {
        Shape::Option(inner) => match v {
            Val::Present(p) => seq![1u8] + encode(*inner, *p, order),
            _ => seq![0u8],
        },
        Shape::List(elem) => match v {
            Val::List(vs) => encode_length(vs.len(), order) + encode_all(*elem, vs, order),
            _ => seq![],
        },
        Shape::Array(_, elem) => match v {
            Val::List(vs) => encode_all(*elem, vs, order),
            _ => seq![],
        },
        Shape::Tuple(fields) => match v {
            Val::List(vs) => encode_fields(fields@, vs, order),
            _ => seq![],
        },
        Shape::Dict(_, _) => match v {
            Val::Dict(es) => encode_length(es.len(), order) + encode_entries(shape, es, order),
            _ => seq![],
        },
        Shape::Enum(variants) => match v {
            Val::Variant(i, p) => encode_length(i as nat, order) + if (i as int) < variants.len() {
                encode(variants[i as int], *p, order)
            } else {
                seq![]
            },
            _ => seq![],
        },
        Shape::Newtype(inner) => match v {
            Val::Newtype(p) => encode(*inner, *p, order),
            _ => seq![],
        },
        _ => encode_leaf(v, order),
    }
}

/// The wire form of a value with no nested values.
pub open spec fn encode_leaf(v: Val, order: Endianness) -> Seq<u8> {
    match v {
        Val::Bool(b) => seq![if b { 1u8 } else { 0u8 }],
        Val::U8(x) => uint_bytes(x as nat, 1, order),
        Val::I8(x) => uint_bytes(x as u8 as nat, 1, order),
        Val::U16(x) => uint_bytes(x as nat, 2, order),
        Val::I16(x) => uint_bytes(x as u16 as nat, 2, order),
        Val::U32(x) => uint_bytes(x as nat, 4, order),
        Val::I32(x) => uint_bytes(x as u32 as nat, 4, order),
        Val::F32(x) => uint_bytes(x as nat, 4, order),
        Val::U64(x) => uint_bytes(x as nat, 8, order),
        Val::I64(x) => uint_bytes(x as u64 as nat, 8, order),
        Val::F64(x) => uint_bytes(x as nat, 8, order),
        Val::Char(c) => encode_scalar(c as u32),
        Val::Str(cs) => encode_length(encode_utf8(cs).len(), order) + encode_utf8(cs),
        Val::Bytes(b) => encode_length(b.len(), order) + b,
        _ => seq![],
    }
}

/// The wire forms of `vs`, each of shape `elem`, one after another.
pub open spec fn encode_all(elem: Shape, vs: Seq<Val>, order: Endianness) -> Seq<u8>
    decreases elem, 3nat, vs.len(),
{
    if vs.len() == 0 {
        seq![]
    } else {
        encode(elem, vs[0], order) + encode_all(elem, vs.drop_first(), order)
    }
}

/// The wire forms of `vs`, each of the matching shape of `fields`, one after another.
pub open spec fn encode_fields(fields: Seq<Shape>, vs: Seq<Val>, order: Endianness) -> Seq<u8>
    decreases fields, 0nat, 0nat,
{
    if fields.len() == 0 || vs.len() == 0 {
        seq![]
    } else {
        encode(fields[0], vs[0], order) + encode_fields(fields.drop_first(), vs.drop_first(), order)
    }
}

/// The wire forms of the pairs `es`, of the shapes that `dict` names, one after another.
pub open spec fn encode_entries(dict: Shape, es: Seq<(Val, Val)>, order: Endianness) -> Seq<u8>
    decreases dict, 1nat, es.len(),
{
    match dict {
        Shape::Dict(k, v) => if es.len() == 0 {
            seq![]
        } else {
            encode(*k, es[0].0, order) + encode(*v, es[0].1, order) + encode_entries(
                dict,
                es.drop_first(),
                order,
            )
        },
        _ => seq![],
    }
}

/// The session's next bytes are `bytes`.
pub open spec fn at(st: DecodeState, bytes: Seq<u8>) -> bool {
    &&& st.pos + bytes.len() <= st.input.len()
    &&& st.input.subrange(st.pos as int, st.pos + bytes.len() as int) == bytes
}

proof fn lemma_at_split(st: DecodeState, a: Seq<u8>, b: Seq<u8>, s: DecodeState)
    requires
        at(st, a + b),
        s.input == st.input,
        s.pos == st.pos + a.len(),
    ensures
        at(st, a),
        at(s, b),
{
    assert(st.input.subrange(st.pos as int, st.pos + a.len() as int) =~= (a + b).subrange(0, a.len() as int));
    assert((a + b).subrange(0, a.len() as int) =~= a);
    assert(s.input.subrange(s.pos as int, s.pos + b.len() as int) =~= (a + b).subrange(
        a.len() as int,
        (a.len() + b.len()) as int,
    ));
    assert((a + b).subrange(a.len() as int, (a.len() + b.len()) as int) =~= b);
}

proof fn lemma_take_at(st: DecodeState, bytes: Seq<u8>)
    requires
        at(st, bytes),
    ensures
        st.take(bytes.len()) == Ok::<(Seq<u8>, DecodeState), (DecodeError, DecodeState)>(
            (bytes, DecodeState { pos: st.pos + bytes.len(), ..st }),
        ),
{
}

/// The session moved `n` bytes forward over the same source, charging exactly those bytes.
pub open spec fn moved(st: DecodeState, s: DecodeState, n: nat) -> bool {
    &&& s.same_source(st)
    &&& s.pos == st.pos + n
    &&& s.valid()
    &&& s.read == charged_total(st.read, n)
}

proof fn lemma_uint_at(st: DecodeState, x: nat, k: nat)
    requires
        st.valid(),
        within_limit(st.limit, st.read + uint_bytes(x, k, st.order).len()),
        x < pow256(k),
        at(st, uint_bytes(x, k, st.order)),
    ensures
        st.read_uint(k) matches Ok((y, s)) && y == x && moved(st, s, k),
        uint_bytes(x, k, st.order).len() == k,
{
    lemma_uint_bytes(x, k, st.order);
    let s0 = st.charge(k)->Ok_0;
    lemma_take_at(s0, uint_bytes(x, k, st.order));
}

proof fn lemma_byte_run_at(st: DecodeState, b: Seq<u8>)
    requires
        st.valid(),
        within_limit(st.limit, st.read + b.len()),
        at(st, b),
    ensures
        st.read_byte_run(b.len()) matches Ok((r, s)) && r == b && moved(st, s, b.len()),
    decreases b.len(),
{
    if b.len() > 0 {
        let s1 = st.read_byte()->Ok_0.1;
        assert(seq![b[0]] + b.drop_first() =~= b);
        lemma_at_split(st, seq![b[0]], b.drop_first(), s1);
        lemma_byte_run_at(s1, b.drop_first());
    }
}

proof fn lemma_char_width(v: u32)
    ensures
        has_width_1_encoding(v) ==> ((v & 0x7F) as u8) < 0x80,
        has_width_2_encoding(v) ==> 0xC2 <= (0xC0 | ((v >> 6) & 0x1F) as u8) <= 0xDF,
        has_width_3_encoding(v) ==> 0xE0 <= (0xE0 | ((v >> 12) & 0x0F) as u8) <= 0xEF,
        has_width_4_encoding(v) ==> 0xF0 <= (0xF0 | ((v >> 18) & 0x7) as u8) <= 0xF4,
{
    assert(0 <= v <= 0x7F ==> ((v & 0x7F) as u8) < 0x80) by (bit_vector);
    assert(0x80 <= v <= 0x7FF ==> 0xC2 <= (0xC0 | ((v >> 6) & 0x1F) as u8) <= 0xDF)
        by (bit_vector);
    assert(0x800 <= v <= 0xFFFF ==> 0xE0 <= (0xE0 | ((v >> 12) & 0x0F) as u8) <= 0xEF)
        by (bit_vector);
    assert(0x10000 <= v <= 0x10FFFF ==> 0xF0 <= (0xF0 | ((v >> 18) & 0x7) as u8) <= 0xF4)
        by (bit_vector);
}

proof fn lemma_char_at(st: DecodeState, c: char)
    requires
        st.valid(),
        within_limit(st.limit, st.read + encode_scalar(c as u32).len()),
        at(st, encode_scalar(c as u32)),
    ensures
        st.read_char() matches Ok((d, s)) && d == c && moved(
            st,
            s,
            encode_scalar(c as u32).len(),
        ),
{
    let enc = encode_scalar(c as u32);
    let cs = seq![c];
    assert(cs.drop_first() =~= Seq::<char>::empty());
    reveal_with_fuel(encode_utf8, 2);
    assert(encode_utf8(cs) =~= enc);
    encode_utf8_first_scalar(cs);
    lemma_char_width(c as u32);
    vstd::utf8::char_is_scalar(c);
    assert(char_width(enc[0]) == enc.len());
    let s0 = st.charge(1)->Ok_0;
    let s1 = DecodeState { pos: st.pos + 1, ..s0 };
    assert(seq![enc[0]] + enc.drop_first() =~= enc);
    lemma_at_split(st, seq![enc[0]], enc.drop_first(), s1);
    lemma_take_at(s0, seq![enc[0]]);
    let s2 = s1.charge((enc.len() - 1) as nat)->Ok_0;
    lemma_take_at(s2, enc.drop_first());
    char_u32_cast(c, c as u32);
}

proof fn lemma_leaf_at(st: DecodeState, shape: Shape, v: Val)
    requires
        st.valid(),
        within_limit(st.limit, st.read + encode(shape, v, st.order).len()),
        conforms(shape, v),
        shape is Unit || shape is Bool || shape is U8 || shape is U16 || shape is U32
            || shape is U64 || shape is I8 || shape is I16 || shape is I32 || shape is I64
            || shape is F32 || shape is F64 || shape is Char || shape is Str || shape is Bytes,
        at(st, encode(shape, v, st.order)),
    ensures
        st.decode(shape) matches Ok((w, s)) && w == v && moved(
            st,
            s,
            encode(shape, v, st.order).len(),
        ),
{
    let order = st.order;
    lemma_pow256_small(1);
    lemma_pow256_small(2);
    lemma_pow256_small(4);
    lemma_pow256_small(8);
    match shape {
        Shape::Bool => {
            let b = v->Bool_0;
            let enc = encode(shape, v, order);
            assert(enc == seq![if b { 1u8 } else { 0u8 }]);
            let s0 = st.charge(1)->Ok_0;
            lemma_take_at(s0, enc);
            assert(st.read_byte() is Ok);
            assert(st.read_byte()->Ok_0.0 == enc[0]);
            assert(st.read_bool()->Ok_0.0 == b);
            assert(v == Val::Bool(b));
            assert(enc.len() == 1);
            let sb = st.read_bool()->Ok_0.1;
            assert(moved(st, sb, 1));
            assert(st.decode(shape) == Ok::<(Val, DecodeState), (DecodeError, DecodeState)>((v, sb)));

        },
        Shape::U8 => lemma_uint_at(st, v->U8_0 as nat, 1),
        Shape::U16 => lemma_uint_at(st, v->U16_0 as nat, 2),
        Shape::U32 => lemma_uint_at(st, v->U32_0 as nat, 4),
        Shape::U64 => lemma_uint_at(st, v->U64_0 as nat, 8),
        Shape::F32 => lemma_uint_at(st, v->F32_0 as nat, 4),
        Shape::F64 => lemma_uint_at(st, v->F64_0 as nat, 8),
        Shape::I8 => {
            let x = v->I8_0;
            lemma_uint_at(st, x as u8 as nat, 1);
            assert(x as u8 as i8 == x) by (bit_vector);
        },
        Shape::I16 => {
            let x = v->I16_0;
            lemma_uint_at(st, x as u16 as nat, 2);
            assert(x as u16 as i16 == x) by (bit_vector);
        },
        Shape::I32 => {
            let x = v->I32_0;
            lemma_uint_at(st, x as u32 as nat, 4);
            assert(x as u32 as i32 == x) by (bit_vector);
        },
        Shape::I64 => {
            let x = v->I64_0;
            lemma_uint_at(st, x as u64 as nat, 8);
            assert(x as u64 as i64 == x) by (bit_vector);
        },
        Shape::Char => lemma_char_at(st, v->Char_0),
        Shape::Unit => {
            assert(encode(shape, v, order) =~= Seq::<u8>::empty());
        },
        Shape::Str => {
            let cs = v->Str_0;
            let bytes = encode_utf8(cs);
            let pre = encode_length(bytes.len(), order);
            let s1 = DecodeState { pos: st.pos + pre.len(), ..st };
            lemma_at_split(st, pre, bytes, s1);
            law_length_round_trip(st, bytes.len());
            let s1r = st.read_length()->Ok_0.1;
            assert(at(s1r, bytes));
            lemma_take_at(s1r.charge(bytes.len())->Ok_0, bytes);
            encode_utf8_valid_utf8(cs);
            encode_utf8_decode_utf8(cs);
            assert(encode(shape, v, order) == pre + bytes);
        },
        Shape::Bytes => {
            let b = v->Bytes_0;
            let pre = encode_length(b.len(), order);
            let s1 = DecodeState { pos: st.pos + pre.len(), ..st };
            lemma_at_split(st, pre, b, s1);
            law_length_round_trip(st, b.len());
            let s1r = st.read_length()->Ok_0.1;
            assert(at(s1r, b));
            lemma_byte_run_at(s1r, b);
            assert(encode(shape, v, order) == pre + b);
        },
        _ => {},
    }
}

} // verus!

verus! {

proof fn lemma_byte_at(st: DecodeState, b: u8)
    requires
        st.valid(),
        within_limit(st.limit, st.read + 1),
        at(st, seq![b]),
    ensures
        st.read_byte() matches Ok((c, s)) && c == b && moved(st, s, 1),
{
    lemma_take_at(st.charge(1)->Ok_0, seq![b]);
}

/// The state `n` bytes further on, with nothing else changed.
pub open spec fn skip(st: DecodeState, n: nat) -> DecodeState {
    DecodeState { pos: st.pos + n, ..st }
}

proof fn lemma_length_at(st: DecodeState, n: nat, body: Seq<u8>)
    requires
        st.valid(),
        within_limit(st.limit, st.read + encode_length(n, st.order).len() + body.len()),
        n <= u32::MAX,
        at(st, encode_length(n, st.order) + body),
    ensures
        st.read_length() matches Ok((m, s)) && m == n && moved(
            st,
            s,
            encode_length(n, st.order).len(),
        ) && at(s, body) && within_limit(s.limit, s.read + body.len()),
{
    let pre = encode_length(n, st.order);
    lemma_at_split(st, pre, body, skip(st, pre.len()));
    law_length_round_trip(st, n);
    let s1 = st.read_length()->Ok_0.1;
    lemma_at_split(st, pre, body, s1);
}

/// Decoding the wire form of a value that conforms to `shape`, at any point of a session whose
/// limit admits that many more bytes, yields the value, moves the cursor over exactly that wire
/// form and charges exactly its size.
pub proof fn law_round_trip_at(st: DecodeState, shape: Shape, v: Val)
    requires
        st.valid(),
        within_limit(st.limit, st.read + encode(shape, v, st.order).len()),
        conforms(shape, v),
        at(st, encode(shape, v, st.order)),
    ensures
        st.decode(shape) matches Ok((w, s)) && w == v && moved(
            st,
            s,
            encode(shape, v, st.order).len(),
        ),
    decreases shape, 2nat, 0nat,
{
    let order = st.order;
    match shape {
        Shape::Option(inner) => {
            if v is Present {
                let p = *v->Present_0;
                let rest = encode(*inner, p, order);
                lemma_at_split(st, seq![1u8], rest, skip(st, 1));
                lemma_byte_at(st, 1u8);
                let s1 = st.read_byte()->Ok_0.1;
                lemma_at_split(st, seq![1u8], rest, s1);
                law_round_trip_at(s1, *inner, p);
            } else {
                lemma_byte_at(st, 0u8);
            }
        },
        Shape::List(elem) => {
            let vs = v->List_0;
            let body = encode_all(*elem, vs, order);
            lemma_length_at(st, vs.len(), body);
            let s1 = st.read_length()->Ok_0.1;
            lemma_all_at(s1, *elem, vs);
        },
        Shape::Array(n, elem) => {
            lemma_all_at(st, *elem, v->List_0);
        },
        Shape::Tuple(fields) => {
            lemma_fields_at(st, fields@, v->List_0);
        },
        Shape::Dict(_, _) => {
            let es = v->Dict_0;
            let body = encode_entries(shape, es, order);
            lemma_length_at(st, es.len(), body);
            let s1 = st.read_length()->Ok_0.1;
            lemma_entries_at(s1, shape, es);
        },
        Shape::Enum(variants) => {
            let i = v->Variant_0;
            let p = *v->Variant_1;
            let body = encode(variants[i as int], p, order);
            lemma_length_at(st, i as nat, body);
            let s1 = st.read_length()->Ok_0.1;
            assert(decreases_to!(variants => variants[i as int]));
            law_round_trip_at(s1, variants[i as int], p);
        },
        Shape::Newtype(inner) => {
            law_round_trip_at(st, *inner, *v->Newtype_0);
        },
        _ => lemma_leaf_at(st, shape, v),
    }
}

proof fn lemma_all_at(st: DecodeState, elem: Shape, vs: Seq<Val>)
    requires
        st.valid(),
        within_limit(st.limit, st.read + encode_all(elem, vs, st.order).len()),
        all_conform(elem, vs),
        at(st, encode_all(elem, vs, st.order)),
    ensures
        st.decode_many(elem, vs.len()) matches Ok((ws, s)) && ws == vs && moved(
            st,
            s,
            encode_all(elem, vs, st.order).len(),
        ),
    decreases elem, 3nat, vs.len(),
{
    if vs.len() > 0 {
        let order = st.order;
        let a = encode(elem, vs[0], order);
        let b = encode_all(elem, vs.drop_first(), order);
        lemma_at_split(st, a, b, skip(st, a.len()));
        law_round_trip_at(st, elem, vs[0]);
        let s1 = st.decode(elem)->Ok_0.1;
        lemma_at_split(st, a, b, s1);
        lemma_all_at(s1, elem, vs.drop_first());
        assert(seq![vs[0]] + vs.drop_first() =~= vs);
    }
}

proof fn lemma_fields_at(st: DecodeState, fields: Seq<Shape>, vs: Seq<Val>)
    requires
        st.valid(),
        within_limit(st.limit, st.read + encode_fields(fields, vs, st.order).len()),
        fields_conform(fields, vs),
        at(st, encode_fields(fields, vs, st.order)),
    ensures
        st.decode_fields(fields) matches Ok((ws, s)) && ws == vs && moved(
            st,
            s,
            encode_fields(fields, vs, st.order).len(),
        ),
    decreases fields, 0nat, 0nat,
{
    if fields.len() > 0 {
        let order = st.order;
        let a = encode(fields[0], vs[0], order);
        let b = encode_fields(fields.drop_first(), vs.drop_first(), order);
        lemma_at_split(st, a, b, skip(st, a.len()));
        law_round_trip_at(st, fields[0], vs[0]);
        let s1 = st.decode(fields[0])->Ok_0.1;
        lemma_at_split(st, a, b, s1);
        lemma_fields_at(s1, fields.drop_first(), vs.drop_first());
        assert(seq![vs[0]] + vs.drop_first() =~= vs);
    } else {
        assert(vs =~= Seq::<Val>::empty());
    }
}

proof fn lemma_entries_at(st: DecodeState, dict: Shape, es: Seq<(Val, Val)>)
    requires
        st.valid(),
        within_limit(st.limit, st.read + encode_entries(dict, es, st.order).len()),
        entries_conform(dict, es),
        at(st, encode_entries(dict, es, st.order)),
    ensures
        st.decode_entries(dict, es.len()) matches Ok((ws, s)) && ws == es && moved(
            st,
            s,
            encode_entries(dict, es, st.order).len(),
        ),
    decreases dict, 1nat, es.len(),
{
    match dict {
        Shape::Dict(k, v) => {
            if es.len() > 0 {
                let order = st.order;
                let a = encode(*k, es[0].0, order);
                let b = encode(*v, es[0].1, order);
                let c = encode_entries(dict, es.drop_first(), order);
                lemma_at_split(st, a + b, c, skip(st, (a + b).len()));
                lemma_at_split(st, a, b, skip(st, a.len()));
                law_round_trip_at(st, *k, es[0].0);
                let s1 = st.decode(*k)->Ok_0.1;
                lemma_at_split(st, a, b, s1);
                law_round_trip_at(s1, *v, es[0].1);
                let s2 = s1.decode(*v)->Ok_0.1;
                lemma_at_split(st, a + b, c, s2);
                lemma_entries_at(s2, dict, es.drop_first());
                assert(seq![es[0]] + es.drop_first() =~= es);
            } else {
                assert(es =~= Seq::<(Val, Val)>::empty());
            }
        },
        _ => {},
    }
}

} // verus!

verus! {

/// Decoding the wire form of any value that conforms to its shape, in a fresh session whose
/// limit admits that many bytes, gives the value back and consumes exactly that wire form,
/// whatever bytes follow it.
pub proof fn law_round_trip(
    shape: Shape,
    v: Val,
    limit: SizeLimit,
    order: Endianness,
    rest: Seq<u8>,
)
    requires
        conforms(shape, v),
        within_limit(limit, encode(shape, v, order).len()),
    ensures
        fresh_session(encode(shape, v, order) + rest, limit, order).decode(shape) matches Ok(
            (w, s),
        ) && w == v && s.pos == encode(shape, v, order).len() && s.read == charged_total(
            0,
            encode(shape, v, order).len(),
        ),
{
    let enc = encode(shape, v, order);
    let st = fresh_session(enc + rest, limit, order);
    assert((enc + rest).subrange(0, enc.len() as int) =~= enc);
    law_round_trip_at(st, shape, v);
}

} // verus!
