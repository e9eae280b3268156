use vstd::prelude::*;
use vstd::utf8::{decode_first_scalar, decode_utf8, valid_first_scalar, valid_utf8};

use crate::error::{DecodeError, Invalid};
use crate::limit::{charged_total, within_limit, SizeLimit};
use crate::value::{Shape, Val, Value};
use crate::wire::{char_width, uint_value, Endianness};

verus! {

/// The model of one decode session: the whole input, the fixed settings, how far the cursor
/// has moved, and how many bytes have been charged against the limit.
pub struct DecodeState {
    pub input: Seq<u8>,
    pub limit: SizeLimit,
    pub order: Endianness,
    pub pos: nat,
    pub read: nat,
}

/// What a decode step yields: a value and the state after it, or the error that ends the session
/// together with the state the session is left in.
pub type Step<T> = Result<(T, DecodeState), (DecodeError, DecodeState)>;

/// A session at the start of `input`, with nothing charged yet.
pub open spec fn fresh_session(input: Seq<u8>, limit: SizeLimit, order: Endianness) -> DecodeState {
    DecodeState { input, limit, order, pos: 0, read: 0 }
}

impl DecodeState {
    /// The cursor lies within the input, and the running total fits a `u64`.
    pub open spec fn valid(self) -> bool {
        self.pos <= self.input.len() && self.read <= u64::MAX
    }

    /// The same input and settings as `other`, wherever the cursor stands.
    pub open spec fn same_source(self, other: DecodeState) -> bool {
        &&& self.input == other.input
        &&& self.limit == other.limit
        &&& self.order == other.order
    }

    /// Charges `count` more bytes: fails when the running total would pass the limit. The new
    /// total is kept either way, so a tripped session stays tripped.
    pub open spec fn charge(self, count: nat) -> Result<DecodeState, (DecodeError, DecodeState)> {
        let after = DecodeState { read: charged_total(self.read, count), ..self };
        if within_limit(self.limit, self.read + count) {
            Ok(after)
        } else {
            Err((DecodeError::SizeLimitExceeded, after))
        }
    }

    /// Pulls the next `n` bytes from the source, with no charge.
    pub open spec fn take(self, n: nat) -> Step<Seq<u8>> {
        if self.pos + n <= self.input.len() {
            Ok(
                (
                    self.input.subrange(self.pos as int, (self.pos + n) as int),
                    DecodeState { pos: self.pos + n, ..self },
                ),
            )
        } else {
            Err((DecodeError::IoFailure, self))
        }
    }

    /// Charges `n` bytes, then pulls them.
    pub open spec fn read_raw(self, n: nat) -> Step<Seq<u8>> {
        match self.charge(n) {
            Ok(s) => s.take(n),
            Err(e) => Err(e),
        }
    }

    /// An unsigned number of `n` bytes in the session's byte order.
    pub open spec fn read_uint(self, n: nat) -> Step<nat> {
        match self.read_raw(n) {
            Ok((b, s)) => Ok((uint_value(b, self.order), s)),
            Err(e) => Err(e),
        }
    }

    /// One byte.
    pub open spec fn read_byte(self) -> Step<u8> {
        match self.read_raw(1) {
            Ok((b, s)) => Ok((b[0], s)),
            Err(e) => Err(e),
        }
    }

    /// A length or discriminant: one byte below `0xFF` is the value itself; `0xFF` is followed by
    /// the value as a 4-byte number.
    pub open spec fn read_length(self) -> Step<nat> {
        match self.read_byte() {
            Ok((b, s)) => if b < 0xFF {
                Ok((b as nat, s))
            } else {
                s.read_uint(4)
            },
            Err(e) => Err(e),
        }
    }

    /// A boolean: one byte that must be 0 or 1.
    pub open spec fn read_bool(self) -> Step<bool> {
        match self.read_byte() {
            Ok((b, s)) => if b == 0 {
                Ok((false, s))
            } else if b == 1 {
                Ok((true, s))
            } else {
                Err((DecodeError::InvalidEncoding(Invalid::Bool(b)), s))
            },
            Err(e) => Err(e),
        }
    }

    /// One Unicode scalar: a leading byte, whose width comes from the leading-byte table, then
    /// the rest of its encoding, which must be well-formed. Each part is charged before it is
    /// pulled.
    pub open spec fn read_char(self) -> Step<char> {
        match self.read_raw(1) {
            Ok((first, s1)) => {
                let w = char_width(first[0]);
                if w == 0 {
                    Err((DecodeError::InvalidEncoding(Invalid::Char), s1))
                } else {
                    match s1.read_raw((w - 1) as nat) {
                        Ok((rest, s2)) => {
                            let buf = first + rest;
                            if valid_first_scalar(buf) {
                                Ok((decode_first_scalar(buf) as char, s2))
                            } else {
                                Err((DecodeError::InvalidEncoding(Invalid::Char), s2))
                            }
                        },
                        Err(e) => Err(e),
                    }
                }
            },
            Err(e) => Err(e),
        }
    }

    /// A string: a length, then that many bytes, charged at once, which must be UTF-8.
    pub open spec fn read_string(self) -> Step<Seq<char>> {
        match self.read_length() {
            Ok((n, s1)) => match s1.read_raw(n) {
                Ok((b, s2)) => if valid_utf8(b) {
                    Ok((decode_utf8(b), s2))
                } else {
                    Err((DecodeError::InvalidEncoding(Invalid::Utf8), s2))
                },
                Err(e) => Err(e),
            },
            Err(e) => Err(e),
        }
    }

    /// `n` single bytes, each charged as it is read.
    pub open spec fn read_byte_run(self, n: nat) -> Step<Seq<u8>>
        decreases n,
    {
        if n == 0 {
            Ok((seq![], self))
        } else {
            match self.read_byte() {
                Ok((b, s1)) => match s1.read_byte_run((n - 1) as nat) {
                    Ok((bs, s2)) => Ok((seq![b] + bs, s2)),
                    Err(e) => Err(e),
                },
                Err(e) => Err(e),
            }
        }
    }

    /// A byte buffer: a length, then that many single bytes.
    pub open spec fn read_byte_buf(self) -> Step<Seq<u8>> {
        match self.read_length() {
            Ok((n, s)) => s.read_byte_run(n),
            Err(e) => Err(e),
        }
    }

    /// A fixed-width number of the width that `shape` names, as one of the model's primitive values.
    pub open spec fn read_number(self, shape: Shape) -> Step<Val> {
        let n: nat = match shape {
            Shape::U8 | Shape::I8 => 1,
            Shape::U16 | Shape::I16 => 2,
            Shape::U32 | Shape::I32 | Shape::F32 => 4,
            _ => 8,
        };
        match self.read_uint(n) {
            Ok((x, s)) => Ok(
                (
                    match shape {
                        Shape::U8 => Val::U8(x as u8),
                        Shape::I8 => Val::I8(x as u8 as i8),
                        Shape::U16 => Val::U16(x as u16),
                        Shape::I16 => Val::I16(x as u16 as i16),
                        Shape::U32 => Val::U32(x as u32),
                        Shape::I32 => Val::I32(x as u32 as i32),
                        Shape::F32 => Val::F32(x as u32),
                        Shape::U64 => Val::U64(x as u64),
                        Shape::I64 => Val::I64(x as u64 as i64),
                        _ => Val::F64(x as u64),
                    },
                    s,
                ),
            ),
            Err(e) => Err(e),
        }
    }

    /// A value of shape `shape`.
    pub open spec fn decode(self, shape: Shape) -> Step<Val>
        decreases shape, 2nat, 0nat,
    {
        match shape {
            Shape::Unit => Ok((Val::Unit, self)),
            Shape::Bool => match self.read_bool() {
                Ok((b, s)) => Ok((Val::Bool(b), s)),
                Err(e) => Err(e),
            },
            Shape::Char => match self.read_char() {
                Ok((c, s)) => Ok((Val::Char(c), s)),
                Err(e) => Err(e),
            },
            Shape::Str => match self.read_string() {
                Ok((t, s)) => Ok((Val::Str(t), s)),
                Err(e) => Err(e),
            },
            Shape::Bytes => match self.read_byte_buf() {
                Ok((b, s)) => Ok((Val::Bytes(b), s)),
                Err(e) => Err(e),
            },
            Shape::Option(inner) => match self.read_byte() {
                Ok((t, s1)) => if t == 0 {
                    Ok((Val::Absent, s1))
                } else if t == 1 {
                    match s1.decode(*inner) {
                        Ok((v, s2)) => Ok((Val::Present(Box::new(v)), s2)),
                        Err(e) => Err(e),
                    }
                } else {
                    Err((DecodeError::InvalidEncoding(Invalid::OptionTag(t)), s1))
                },
                Err(e) => Err(e),
            },
            Shape::List(elem) => match self.read_length() {
                Ok((n, s1)) => match s1.decode_many(*elem, n) {
                    Ok((vs, s2)) => Ok((Val::List(vs), s2)),
                    Err(e) => Err(e),
                },
                Err(e) => Err(e),
            },
            Shape::Array(n, elem) => match self.decode_many(*elem, n as nat) {
                Ok((vs, s)) => Ok((Val::List(vs), s)),
                Err(e) => Err(e),
            },
            Shape::Tuple(fields) => match self.decode_fields(fields@) {
                Ok((vs, s)) => Ok((Val::List(vs), s)),
                Err(e) => Err(e),
            },
            Shape::Dict(_, _) => match self.read_length() {
                Ok((n, s1)) => match s1.decode_entries(shape, n) {
                    Ok((es, s2)) => Ok((Val::Dict(es), s2)),
                    Err(e) => Err(e),
                },
                Err(e) => Err(e),
            },
            Shape::Enum(variants) => match self.read_length() {
                Ok((i, s1)) => if i < variants.len() {
                    match s1.decode(variants[i as int]) {
                        Ok((v, s2)) => Ok((Val::Variant(i as u32, Box::new(v)), s2)),
                        Err(e) => Err(e),
                    }
                } else {
                    Err((DecodeError::InvalidEncoding(Invalid::VariantIndex(i as u32)), s1))
                },
                Err(e) => Err(e),
            },
            Shape::Newtype(inner) => match self.decode(*inner) {
                Ok((v, s)) => Ok((Val::Newtype(Box::new(v)), s)),
                Err(e) => Err(e),
            },
            Shape::Any | Shape::FieldName => Err((DecodeError::UnsupportedOperation, self)),
            _ => self.read_number(shape),
        }
    }

    /// `n` values of shape `elem`, one after another.
    pub open spec fn decode_many(self, elem: Shape, n: nat) -> Step<Seq<Val>>
        decreases elem, 3nat, n,
    {
        if n == 0 {
            Ok((seq![], self))
        } else {
            match self.decode(elem) {
                Ok((v, s1)) => match s1.decode_many(elem, (n - 1) as nat) {
                    Ok((vs, s2)) => Ok((seq![v] + vs, s2)),
                    Err(e) => Err(e),
                },
                Err(e) => Err(e),
            }
        }
    }

    /// One value for each shape of `fields`, in order.
    pub open spec fn decode_fields(self, fields: Seq<Shape>) -> Step<Seq<Val>>
        decreases fields, 0nat, 0nat,
    {
        if fields.len() == 0 {
            Ok((seq![], self))
        } else {
            match self.decode(fields[0]) {
                Ok((v, s1)) => match s1.decode_fields(fields.drop_first()) {
                    Ok((vs, s2)) => Ok((seq![v] + vs, s2)),
                    Err(e) => Err(e),
                },
                Err(e) => Err(e),
            }
        }
    }

    /// `n` key and value pairs of the shapes that `dict` names.
    pub open spec fn decode_entries(self, dict: Shape, n: nat) -> Step<Seq<(Val, Val)>>
        decreases dict, 1nat, n,
    {
        match dict {
            Shape::Dict(k, v) => if n == 0 {
                Ok((seq![], self))
            } else {
                match self.decode(*k) {
                    Ok((key, s1)) => match s1.decode(*v) {
                        Ok((val, s2)) => match s2.decode_entries(dict, (n - 1) as nat) {
                            Ok((es, s3)) => Ok((seq![(key, val)] + es, s3)),
                            Err(e) => Err(e),
                        },
                        Err(e) => Err(e),
                    },
                    Err(e) => Err(e),
                }
            },
            _ => Err((DecodeError::UnsupportedOperation, self)),
        }
    }
}

} // verus!

verus! {

/// `r` is what `step` yields, with `after` its final state, or the error it fails with.
pub open spec fn yields<T>(r: Result<T, DecodeError>, step: Step<T>, after: DecodeState) -> bool {
    match step {
        Ok((v, s)) => r == Ok::<T, DecodeError>(v) && after == s,
        Err((e, s)) => r == Err::<T, DecodeError>(e) && after == s,
    }
}

/// `r` holds, through its view, what `step` yields, with `after` its final state, or the error
/// it fails with.
pub open spec fn yields_view<T: View>(
    r: Result<T, DecodeError>,
    step: Step<T::V>,
    after: DecodeState,
) -> bool {
    match step {
        Ok((v, s)) => r is Ok && r->Ok_0@ == v && after == s,
        Err((e, s)) => r is Err && r->Err_0 == e && after == s,
    }
}

} // verus!

verus! {

/// `r` holds, through its model, what `step` yields, with `after` its final state, or the error
/// it fails with.
pub open spec fn yields_val(r: Result<Value, DecodeError>, step: Step<Val>, after: DecodeState) -> bool {
    match step {
        Ok((v, s)) => r is Ok && r->Ok_0.model() == v && after == s,
        Err((e, s)) => r is Err && r->Err_0 == e && after == s,
    }
}

/// `r` with `pre` put in front of the run it yields.
pub open spec fn prefixed<T>(pre: Seq<T>, r: Step<Seq<T>>) -> Step<Seq<T>> {
    match r {
        Ok((vs, s)) => Ok((pre + vs, s)),
        Err(e) => Err(e),
    }
}

/// A run of values, as one list value.
pub open spec fn as_list(r: Step<Seq<Val>>) -> Step<Val> {
    match r {
        Ok((vs, s)) => Ok((Val::List(vs), s)),
        Err(e) => Err(e),
    }
}

pub proof fn lemma_prefixed_empty<T>(r: Step<Seq<T>>)
    ensures
        prefixed(Seq::<T>::empty(), r) == r,
{
    if r is Ok {
        assert(Seq::<T>::empty() + r->Ok_0.0 =~= r->Ok_0.0);
    }
}

pub proof fn lemma_prefixed_push<T>(pre: Seq<T>, v: T, r: Step<Seq<T>>)
    ensures
        prefixed(pre, prefixed(seq![v], r)) == prefixed(pre.push(v), r),
{
    if r is Ok {
        assert(pre + (seq![v] + r->Ok_0.0) =~= pre.push(v) + r->Ok_0.0);
    }
}

} // verus!

verus! {

/// `r` is the number that `step` reads, converted by `f`, with `after` its final state, or the
/// error it fails with.
pub open spec fn yields_number<T>(
    r: Result<T, DecodeError>,
    step: Step<nat>,
    f: spec_fn(nat) -> T,
    after: DecodeState,
) -> bool {
    match step {
        Ok((x, s)) => r == Ok::<T, DecodeError>(f(x)) && after == s,
        Err((e, s)) => r == Err::<T, DecodeError>(e) && after == s,
    }
}

} // verus!
