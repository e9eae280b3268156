use vstd::prelude::*;

use crate::error::{DecodeError, Invalid};
use crate::limit::{charged_total, SizeLimit};
use crate::model::{
    as_list, fresh_session, lemma_prefixed_empty, lemma_prefixed_push, prefixed, yields,
    yields_number, yields_val, yields_view, DecodeState,
};
use crate::text::{scalar_of, utf8_string};
use crate::value::{entry_models, lemma_list_model, lemma_map_model, models, Shape, Value};
use crate::wire::{
    lemma_pow256_small, lemma_uint_bound, uint_from_bytes, utf8_char_width, Endianness,
};

verus! {

/// One forward-only decode session over an in-memory byte source.
pub struct Deserializer {
    input: Vec<u8>,
    pos: usize,
    size_limit: SizeLimit,
    read: u64,
    order: Endianness,
}

impl Deserializer {
    /// The model of this session.
    pub closed spec fn state(&self) -> DecodeState {
        DecodeState {
            input: self.input@,
            limit: self.size_limit,
            order: self.order,
            pos: self.pos as nat,
            read: self.read as nat,
        }
    }

    /// Opens a session at the start of `input`, with nothing charged yet.
    pub fn new(input: Vec<u8>, size_limit: SizeLimit, order: Endianness) -> (r: Deserializer)
        ensures
            r.state() == fresh_session(input@, size_limit, order),
    {
        Deserializer { input, pos: 0, size_limit, read: 0, order }
    }

    /// The number of bytes charged against the limit so far.
    pub fn bytes_read(&self) -> (r: u64)
        ensures
            r as nat == self.state().read,
    {
        self.read
    }

    /// The cursor's offset in the input.
    pub fn position(&self) -> (r: usize)
        ensures
            r as nat == self.state().pos,
    {
        self.pos
    }

    /// Charges `count` bytes against the limit, failing when the running total passes it.
    pub fn read_bytes(&mut self, count: u64) -> (r: Result<(), DecodeError>)
        requires
            old(self).state().valid(),
        ensures
            final(self).state().valid(),
            final(self).state().same_source(old(self).state()),
            match old(self).state().charge(count as nat) {
                Ok(s) => r is Ok && final(self).state() == s,
                Err((e, s)) => r == Err::<(), DecodeError>(e) && final(self).state() == s,
            },
            final(self).state() == (DecodeState {
                read: charged_total(old(self).state().read, count as nat),
                ..old(self).state()
            }),
    {
        let total = match self.read.checked_add(count) {
            Some(t) => t,
            None => u64::MAX,
        };
        let over = match self.size_limit {
            SizeLimit::Infinite => false,
            SizeLimit::Bounded(x) => self.read > x || count > x - self.read,
        };
        self.read = total;
        if over {
            Err(DecodeError::SizeLimitExceeded)
        } else {
            Ok(())
        }
    }

    /// Pulls the next `n` bytes, with no charge.
    fn take(&mut self, n: usize) -> (r: Result<Vec<u8>, DecodeError>)
        requires
            old(self).state().valid(),
        ensures
            final(self).state().valid(),
            final(self).state().same_source(old(self).state()),
            yields_view(r, old(self).state().take(n as nat), final(self).state()),
    {
        if n > self.input.len() - self.pos {
            return Err(DecodeError::IoFailure);
        }
        let mut out: Vec<u8> = Vec::new();
        let start = self.pos;
        let mut i: usize = 0;
        while i < n
            invariant
                start + n <= self.input@.len(),
                self.input@.len() <= usize::MAX,
                i <= n,
                out@ == self.input@.subrange(start as int, start + i),
            decreases n - i,
        {
            out.push(self.input[start + i]);
            i = i + 1;
            assert(out@ =~= self.input@.subrange(start as int, start + i));
        }
        self.pos = start + n;
        Ok(out)
    }

    /// Charges `n` bytes, then pulls them.
    fn read_raw(&mut self, n: usize) -> (r: Result<Vec<u8>, DecodeError>)
        requires
            old(self).state().valid(),
        ensures
            final(self).state().valid(),
            final(self).state().same_source(old(self).state()),
            yields_view(r, old(self).state().read_raw(n as nat), final(self).state()),
    {
        self.read_bytes(n as u64)?;
        self.take(n)
    }

    /// Reads an unsigned number of `n` bytes in the session's byte order.
    fn read_uint(&mut self, n: usize) -> (r: Result<u64, DecodeError>)
        requires
            old(self).state().valid(),
            n <= 8,
        ensures
            final(self).state().valid(),
            final(self).state().same_source(old(self).state()),
            match old(self).state().read_uint(n as nat) {
                Ok((v, s)) => r is Ok && r->Ok_0 as nat == v && final(self).state() == s,
                Err((e, s)) => r == Err::<u64, DecodeError>(e) && final(self).state() == s,
            },
    {
        let bytes = self.read_raw(n)?;
        Ok(uint_from_bytes(bytes.as_slice(), self.order))
    }

    /// Reads one byte.
    pub fn deserialize_u8(&mut self) -> (r: Result<u8, DecodeError>)
        requires
            old(self).state().valid(),
        ensures
            final(self).state().valid(),
            final(self).state().same_source(old(self).state()),
            yields(r, old(self).state().read_byte(), final(self).state()),
    {
        let bytes = self.read_raw(1)?;
        Ok(bytes[0])
    }

    /// Reads an `i8`: one byte, in two's complement.
    pub fn deserialize_i8(&mut self) -> (r: Result<i8, DecodeError>)
        requires
            old(self).state().valid(),
        ensures
            final(self).state().valid(),
            final(self).state().same_source(old(self).state()),
            yields_number(
                r,
                old(self).state().read_uint(1),
                |x: nat| x as u8 as i8,
                final(self).state(),
            ),
    {
        let x = self.read_uint(1)?;
        Ok(x as u8 as i8)
    }

    /// Reads a `u16`: 2 bytes in the session's byte order.
    pub fn deserialize_u16(&mut self) -> (r: Result<u16, DecodeError>)
        requires
            old(self).state().valid(),
        ensures
            final(self).state().valid(),
            final(self).state().same_source(old(self).state()),
            yields_number(
                r,
                old(self).state().read_uint(2),
                |x: nat| x as u16,
                final(self).state(),
            ),
    {
        let x = self.read_uint(2)?;
        Ok(x as u16)
    }

    /// Reads an `i16`: 2 bytes in the session's byte order, in two's complement.
    pub fn deserialize_i16(&mut self) -> (r: Result<i16, DecodeError>)
        requires
            old(self).state().valid(),
        ensures
            final(self).state().valid(),
            final(self).state().same_source(old(self).state()),
            yields_number(
                r,
                old(self).state().read_uint(2),
                |x: nat| x as u16 as i16,
                final(self).state(),
            ),
    {
        let x = self.read_uint(2)?;
        Ok(x as u16 as i16)
    }

    /// Reads a `u32`: 4 bytes in the session's byte order.
    pub fn deserialize_u32(&mut self) -> (r: Result<u32, DecodeError>)
        requires
            old(self).state().valid(),
        ensures
            final(self).state().valid(),
            final(self).state().same_source(old(self).state()),
            yields_number(
                r,
                old(self).state().read_uint(4),
                |x: nat| x as u32,
                final(self).state(),
            ),
    {
        let x = self.read_uint(4)?;
        Ok(x as u32)
    }

    /// Reads an `i32`: 4 bytes in the session's byte order, in two's complement.
    pub fn deserialize_i32(&mut self) -> (r: Result<i32, DecodeError>)
        requires
            old(self).state().valid(),
        ensures
            final(self).state().valid(),
            final(self).state().same_source(old(self).state()),
            yields_number(
                r,
                old(self).state().read_uint(4),
                |x: nat| x as u32 as i32,
                final(self).state(),
            ),
    {
        let x = self.read_uint(4)?;
        Ok(x as u32 as i32)
    }

    /// Reads a `u64`: 8 bytes in the session's byte order.
    pub fn deserialize_u64(&mut self) -> (r: Result<u64, DecodeError>)
        requires
            old(self).state().valid(),
        ensures
            final(self).state().valid(),
            final(self).state().same_source(old(self).state()),
            yields_number(
                r,
                old(self).state().read_uint(8),
                |x: nat| x as u64,
                final(self).state(),
            ),
    {
        let x = self.read_uint(8)?;
        Ok(x)
    }

    /// Reads an `i64`: 8 bytes in the session's byte order, in two's complement.
    pub fn deserialize_i64(&mut self) -> (r: Result<i64, DecodeError>)
        requires
            old(self).state().valid(),
        ensures
            final(self).state().valid(),
            final(self).state().same_source(old(self).state()),
            yields_number(
                r,
                old(self).state().read_uint(8),
                |x: nat| x as u64 as i64,
                final(self).state(),
            ),
    {
        let x = self.read_uint(8)?;
        Ok(x as i64)
    }

    /// Reads the bit pattern of a 4-byte float in the session's byte order.
    pub fn deserialize_f32(&mut self) -> (r: Result<u32, DecodeError>)
        requires
            old(self).state().valid(),
        ensures
            final(self).state().valid(),
            final(self).state().same_source(old(self).state()),
            yields_number(r, old(self).state().read_uint(4), |x: nat| x as u32, final(self).state()),
    {
        let x = self.read_uint(4)?;
        Ok(x as u32)
    }

    /// Reads the bit pattern of an 8-byte float in the session's byte order.
    pub fn deserialize_f64(&mut self) -> (r: Result<u64, DecodeError>)
        requires
            old(self).state().valid(),
        ensures
            final(self).state().valid(),
            final(self).state().same_source(old(self).state()),
            yields_number(r, old(self).state().read_uint(8), |x: nat| x as u64, final(self).state()),
    {
        self.read_uint(8)
    }

    /// Reads a length or discriminant: one byte below `0xFF` is the value itself; `0xFF` is
    /// followed by the value as a 4-byte number in the session's byte order.
    pub fn read_variant_uint(&mut self) -> (r: Result<usize, DecodeError>)
        requires
            old(self).state().valid(),
        ensures
            final(self).state().valid(),
            final(self).state().same_source(old(self).state()),
            match old(self).state().read_length() {
                Ok((v, s)) => r is Ok && r->Ok_0 as nat == v && final(self).state() == s,
                Err((e, s)) => r == Err::<usize, DecodeError>(e) && final(self).state() == s,
            },
            r is Ok ==> r->Ok_0 <= u32::MAX,
    {
        let b = self.deserialize_u8()?;
        if b < 0xFF {
            Ok(b as usize)
        } else {
            let ghost mid = self.state();
            let v = self.read_uint(4)?;
            proof {
                let bytes = mid.read_raw(4)->Ok_0.0;
                lemma_uint_bound(bytes, mid.order);
                lemma_pow256_small(4);
            }
            Ok(v as usize)
        }
    }

    /// Reads a boolean: one byte that must be 0 or 1.
    pub fn deserialize_bool(&mut self) -> (r: Result<bool, DecodeError>)
        requires
            old(self).state().valid(),
        ensures
            final(self).state().valid(),
            final(self).state().same_source(old(self).state()),
            yields(r, old(self).state().read_bool(), final(self).state()),
    {
        let b = self.deserialize_u8()?;
        if b == 0 {
            Ok(false)
        } else if b == 1 {
            Ok(true)
        } else {
            Err(DecodeError::InvalidEncoding(Invalid::Bool(b)))
        }
    }

    /// Reads one Unicode scalar in UTF-8: the leading byte gives the width, and the whole
    /// encoding must be well-formed. The leading byte, then the rest, is charged before it is
    /// pulled.
    pub fn deserialize_char(&mut self) -> (r: Result<char, DecodeError>)
        requires
            old(self).state().valid(),
        ensures
            final(self).state().valid(),
            final(self).state().same_source(old(self).state()),
            yields(r, old(self).state().read_char(), final(self).state()),
    {
        let first = self.read_raw(1)?;
        let width = utf8_char_width(first[0]);
        if width == 0 {
            return Err(DecodeError::InvalidEncoding(Invalid::Char));
        }
        let rest = self.read_raw(width - 1)?;
        let mut buf: Vec<u8> = Vec::new();
        buf.push(first[0]);
        let mut i: usize = 0;
        while i < rest.len()
            invariant
                i <= rest@.len(),
                rest@.len() == width - 1,
                buf@ == first@ + rest@.subrange(0, i as int),
            decreases rest@.len() - i,
        {
            buf.push(rest[i]);
            i = i + 1;
            assert(buf@ =~= first@ + rest@.subrange(0, i as int));
        }
        assert(rest@.subrange(0, rest@.len() as int) =~= rest@);
        match scalar_of(buf.as_slice()) {
            Some(c) => Ok(c),
            None => Err(DecodeError::InvalidEncoding(Invalid::Char)),
        }
    }

    /// Reads a string: a length, then that many bytes, charged at once, which must be UTF-8.
    pub fn read_str(&mut self) -> (r: Result<String, DecodeError>)
        requires
            old(self).state().valid(),
        ensures
            final(self).state().valid(),
            final(self).state().same_source(old(self).state()),
            yields_view(r, old(self).state().read_string(), final(self).state()),
    {
        let len = self.read_variant_uint()?;
        let bytes = self.read_raw(len)?;
        match utf8_string(bytes) {
            Some(s) => Ok(s),
            None => Err(DecodeError::InvalidEncoding(Invalid::Utf8)),
        }
    }

    /// Reads a byte buffer: a length, then that many single bytes, each charged as it is read.
    pub fn deserialize_byte_buf(&mut self) -> (r: Result<Vec<u8>, DecodeError>)
        requires
            old(self).state().valid(),
        ensures
            final(self).state().valid(),
            final(self).state().same_source(old(self).state()),
            yields_view(r, old(self).state().read_byte_buf(), final(self).state()),
    {
        let ghost start = self.state();
        let n = self.read_variant_uint()?;
        let ghost s0 = self.state();
        let mut out: Vec<u8> = Vec::new();
        let mut i: usize = 0;
        while i < n
            invariant
                i <= n,
                self.state().valid(),
                self.state().same_source(s0),
                s0.same_source(start),
                start == old(self).state(),
                start.read_length() == Ok::<(nat, DecodeState), (DecodeError, DecodeState)>((n as nat, s0)),
                s0.read_byte_run(n as nat) == (match self.state().read_byte_run((n - i) as nat) {
                    Ok((bs, s)) => Ok((out@ + bs, s)),
                    Err(e) => Err(e),
                }),
            decreases n - i,
        {
            let ghost cur = self.state();
            let b = match self.deserialize_u8() {
                Ok(b) => b,
                Err(e) => {
                    return Err(e);
                },
            };
            proof {
                let rest = self.state().read_byte_run((n - i - 1) as nat);
                if rest is Ok {
                    let bs = rest->Ok_0.0;
                    assert(out@ + (seq![b] + bs) =~= out@.push(b) + bs);
                }
            }
            out.push(b);
            i = i + 1;
        }
        assert(out@ + seq![] =~= out@);
        Ok(out)
    }
    /// Reads a fixed-width number of the shape `shape` names, in the session's byte order.
    fn deserialize_number(&mut self, shape: &Shape) -> (r: Result<Value, DecodeError>)
        requires
            old(self).state().valid(),
        ensures
            final(self).state().valid(),
            final(self).state().same_source(old(self).state()),
            yields_val(r, old(self).state().read_number(*shape), final(self).state()),
    {
        let n: usize = match shape {
            Shape::U8 | Shape::I8 => 1,
            Shape::U16 | Shape::I16 => 2,
            Shape::U32 | Shape::I32 | Shape::F32 => 4,
            _ => 8,
        };
        let x = self.read_uint(n)?;
        Ok(
            match shape {
                Shape::U8 => Value::U8(x as u8),
                Shape::I8 => Value::I8(x as u8 as i8),
                Shape::U16 => Value::U16(x as u16),
                Shape::I16 => Value::I16(x as u16 as i16),
                Shape::U32 => Value::U32(x as u32),
                Shape::I32 => Value::I32(x as u32 as i32),
                Shape::F32 => Value::F32(x as u32),
                Shape::U64 => Value::U64(x),
                Shape::I64 => Value::I64(x as i64),
                _ => Value::F64(x),
            },
        )
    }

    /// Reads exactly `len` values of shape `elem`, with no length prefix.
    pub fn deserialize_seq_fixed_size(&mut self, len: usize, elem: &Shape) -> (r: Result<
        Value,
        DecodeError,
    >)
        requires
            old(self).state().valid(),
        ensures
            final(self).state().valid(),
            final(self).state().same_source(old(self).state()),
            yields_val(
                r,
                as_list(old(self).state().decode_many(*elem, len as nat)),
                final(self).state(),
            ),
        decreases elem, 4nat, 0nat,
    {
        let ghost start = self.state();
        let mut out: Vec<Value> = Vec::new();
        let mut i: usize = 0;
        proof {
            lemma_prefixed_empty(start.decode_many(*elem, len as nat));
            assert(models(out@) =~= Seq::<crate::value::Val>::empty());
        }
        while i < len
            invariant
                i <= len,
                self.state().valid(),
                self.state().same_source(start),
                start == old(self).state(),
                start.decode_many(*elem, len as nat) == prefixed(
                    models(out@),
                    self.state().decode_many(*elem, (len - i) as nat),
                ),
            decreases len - i,
        {
            let v = match self.deserialize(elem) {
                Ok(v) => v,
                Err(e) => {
                    return Err(e);
                },
            };
            proof {
                lemma_prefixed_push(
                    models(out@),
                    v.model(),
                    self.state().decode_many(*elem, (len - i - 1) as nat),
                );
                assert(models(out@.push(v)) =~= models(out@).push(v.model()));
            }
            out.push(v);
            i = i + 1;
        }
        proof {
            lemma_list_model(out);
            assert(models(out@) + Seq::<crate::value::Val>::empty() =~= models(out@));
        }
        Ok(Value::List(out))
    }

    /// Reads a sequence: a length, then that many values of shape `elem`.
    pub fn deserialize_seq(&mut self, elem: &Shape) -> (r: Result<Value, DecodeError>)
        requires
            old(self).state().valid(),
        ensures
            final(self).state().valid(),
            final(self).state().same_source(old(self).state()),
            yields_val(r, old(self).state().decode(Shape::List(Box::new(*elem))), final(self).state()),
        decreases elem, 5nat, 0nat,
    {
        let n = self.read_variant_uint()?;
        self.deserialize_seq_fixed_size(n, elem)
    }

    /// Reads an option: a tag byte, then a value of shape `inner` when the tag is 1.
    pub fn deserialize_option(&mut self, inner: &Shape) -> (r: Result<Value, DecodeError>)
        requires
            old(self).state().valid(),
        ensures
            final(self).state().valid(),
            final(self).state().same_source(old(self).state()),
            yields_val(r, old(self).state().decode(Shape::Option(Box::new(*inner))), final(self).state()),
        decreases inner, 5nat, 0nat,
    {
        let t = self.deserialize_u8()?;
        if t == 0 {
            Ok(Value::Absent)
        } else if t == 1 {
            let v = self.deserialize(inner)?;
            Ok(Value::Present(Box::new(v)))
        } else {
            Err(DecodeError::InvalidEncoding(Invalid::OptionTag(t)))
        }
    }

    /// Reads a value of shape `inner` and wraps it.
    pub fn deserialize_newtype_struct(&mut self, inner: &Shape) -> (r: Result<Value, DecodeError>)
        requires
            old(self).state().valid(),
        ensures
            final(self).state().valid(),
            final(self).state().same_source(old(self).state()),
            yields_val(r, old(self).state().decode(Shape::Newtype(Box::new(*inner))), final(self).state()),
        decreases inner, 5nat, 0nat,
    {
        let v = self.deserialize(inner)?;
        Ok(Value::Newtype(Box::new(v)))
    }

    /// Reads one value for each shape of `fields`, in order, with nothing between them.
    pub fn deserialize_tuple(&mut self, fields: &Vec<Shape>) -> (r: Result<Value, DecodeError>)
        requires
            old(self).state().valid(),
        ensures
            final(self).state().valid(),
            final(self).state().same_source(old(self).state()),
            yields_val(r, as_list(old(self).state().decode_fields(fields@)), final(self).state()),
        decreases fields, 0nat, 0nat,
    {
        let ghost start = self.state();
        let mut out: Vec<Value> = Vec::new();
        let mut i: usize = 0;
        let n = fields.len();
        proof {
            lemma_prefixed_empty(start.decode_fields(fields@));
            assert(models(out@) =~= Seq::<crate::value::Val>::empty());
            assert(fields@.subrange(0, n as int) =~= fields@);
        }
        while i < n
            invariant
                i <= n,
                n == fields@.len(),
                self.state().valid(),
                self.state().same_source(start),
                start == old(self).state(),
                start.decode_fields(fields@) == prefixed(
                    models(out@),
                    self.state().decode_fields(fields@.subrange(i as int, n as int)),
                ),
            decreases n - i,
        {
            let ghost rest = fields@.subrange(i as int, n as int);
            proof {
                assert(rest[0] == fields@[i as int]);
                assert(rest.drop_first() =~= fields@.subrange(i + 1, n as int));
                assert(decreases_to!(fields => fields[i as int]));
            }
            let v = match self.deserialize(&fields[i]) {
                Ok(v) => v,
                Err(e) => {
                    return Err(e);
                },
            };
            proof {
                lemma_prefixed_push(
                    models(out@),
                    v.model(),
                    self.state().decode_fields(fields@.subrange(i + 1, n as int)),
                );
                assert(models(out@.push(v)) =~= models(out@).push(v.model()));
            }
            out.push(v);
            i = i + 1;
        }
        proof {
            lemma_list_model(out);
            assert(models(out@) + Seq::<crate::value::Val>::empty() =~= models(out@));
        }
        Ok(Value::List(out))
    }

    /// Reads a struct: its fields in declaration order, as a tuple. Field names are not on the
    /// wire.
    pub fn deserialize_struct(&mut self, fields: &Vec<Shape>) -> (r: Result<Value, DecodeError>)
        requires
            old(self).state().valid(),
        ensures
            final(self).state().valid(),
            final(self).state().same_source(old(self).state()),
            yields_val(r, old(self).state().decode(Shape::Tuple(*fields)), final(self).state()),
    {
        self.deserialize_tuple(fields)
    }

    /// Reads a map whose key and value shapes `dict` names: a length, then that many pairs.
    fn deserialize_map(&mut self, dict: &Shape) -> (r: Result<Value, DecodeError>)
        requires
            old(self).state().valid(),
            dict is Dict,
        ensures
            final(self).state().valid(),
            final(self).state().same_source(old(self).state()),
            yields_val(r, old(self).state().decode(*dict), final(self).state()),
        decreases dict, 1nat, 0nat,
    {
        match dict {
            Shape::Dict(k, v) => {
                let n = self.read_variant_uint()?;
                let ghost s1 = self.state();
                let mut out: Vec<(Value, Value)> = Vec::new();
                let mut i: usize = 0;
                proof {
                    lemma_prefixed_empty(s1.decode_entries(*dict, n as nat));
                    assert(entry_models(out@) =~= Seq::<(crate::value::Val, crate::value::Val)>::empty());
                }
                while i < n
                    invariant
                        i <= n,
                        self.state().valid(),
                        self.state().same_source(s1),
                        s1.same_source(old(self).state()),
                        old(self).state().read_length() == Ok::<(nat, DecodeState), (DecodeError, DecodeState)>(
                            (n as nat, s1),
                        ),
                        *dict == Shape::Dict(*k, *v),
                        s1.decode_entries(*dict, n as nat) == prefixed(
                            entry_models(out@),
                            self.state().decode_entries(*dict, (n - i) as nat),
                        ),
                    decreases n - i,
                {
                    let key = match self.deserialize(k) {
                        Ok(x) => x,
                        Err(e) => {
                            return Err(e);
                        },
                    };
                    let val = match self.deserialize(v) {
                        Ok(x) => x,
                        Err(e) => {
                            return Err(e);
                        },
                    };
                    let ghost pair = (key.model(), val.model());
                    proof {
                        lemma_prefixed_push(
                            entry_models(out@),
                            pair,
                            self.state().decode_entries(*dict, (n - i - 1) as nat),
                        );
                        assert(entry_models(out@.push((key, val))) =~= entry_models(out@).push(pair));
                    }
                    out.push((key, val));
                    i = i + 1;
                }
                proof {
                    lemma_map_model(out);
                    assert(entry_models(out@) + Seq::<(crate::value::Val, crate::value::Val)>::empty() =~= entry_models(out@));
                }
                Ok(Value::Dict(out))
            },
            _ => Err(DecodeError::UnsupportedOperation),
        }
    }

    /// Reads an enum: a length-coded variant index, then that variant's payload.
    pub fn deserialize_enum(&mut self, variants: &Vec<Shape>) -> (r: Result<Value, DecodeError>)
        requires
            old(self).state().valid(),
        ensures
            final(self).state().valid(),
            final(self).state().same_source(old(self).state()),
            yields_val(r, old(self).state().decode(Shape::Enum(*variants)), final(self).state()),
        decreases variants, 0nat, 0nat,
    {
        let idx = self.read_variant_uint()?;
        if idx >= variants.len() {
            return Err(DecodeError::InvalidEncoding(Invalid::VariantIndex(idx as u32)));
        }
        proof {
            assert(decreases_to!(variants => variants[idx as int]));
        }
        let v = self.deserialize(&variants[idx])?;
        Ok(Value::Variant(idx as u32, Box::new(v)))
    }

    /// Refuses to name a struct field: names are not on the wire.
    pub fn deserialize_struct_field(&mut self) -> (r: Result<Value, DecodeError>)
        ensures
            r == Err::<Value, DecodeError>(DecodeError::UnsupportedOperation),
            *final(self) == *old(self),
    {
        Err(DecodeError::UnsupportedOperation)
    }

    /// Refuses to skip a value of unknown shape: the format does not describe itself.
    pub fn deserialize_ignored_any(&mut self) -> (r: Result<Value, DecodeError>)
        ensures
            r == Err::<Value, DecodeError>(DecodeError::UnsupportedOperation),
            *final(self) == *old(self),
    {
        Err(DecodeError::UnsupportedOperation)
    }

    /// Reads a value of shape `shape`, pulling exactly the bytes that the shape implies.
    pub fn deserialize(&mut self, shape: &Shape) -> (r: Result<Value, DecodeError>)
        requires
            old(self).state().valid(),
        ensures
            final(self).state().valid(),
            final(self).state().same_source(old(self).state()),
            yields_val(r, old(self).state().decode(*shape), final(self).state()),
        decreases shape, 2nat, 0nat,
    {
        match shape {
            Shape::Unit => Ok(Value::Unit),
            Shape::Bool => {
                let b = self.deserialize_bool()?;
                Ok(Value::Bool(b))
            },
            Shape::Char => {
                let c = self.deserialize_char()?;
                Ok(Value::Char(c))
            },
            Shape::Str => {
                let s = self.read_str()?;
                Ok(Value::Str(s))
            },
            Shape::Bytes => {
                let b = self.deserialize_byte_buf()?;
                Ok(Value::Bytes(b))
            },
            Shape::Option(inner) => self.deserialize_option(inner),
            Shape::List(elem) => self.deserialize_seq(elem),
            Shape::Array(n, elem) => self.deserialize_seq_fixed_size(*n, elem),
            Shape::Tuple(fields) => self.deserialize_tuple(fields),
            Shape::Dict(_, _) => self.deserialize_map(shape),
            Shape::Enum(variants) => self.deserialize_enum(variants),
            Shape::Newtype(inner) => self.deserialize_newtype_struct(inner),
            Shape::Any => self.deserialize_ignored_any(),
            Shape::FieldName => self.deserialize_struct_field(),
            _ => self.deserialize_number(shape),
        }
    }
}

} // verus!
