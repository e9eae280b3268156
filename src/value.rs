use vstd::prelude::*;

verus! {

/// The shape a caller asks the decoder for. The wire carries no type tags, so the shape alone
/// says which bytes come next and how to read them.
#[derive(Debug)]
pub enum Shape {
    /// No bytes at all.
    Unit,
    Bool,
    U8,
    U16,
    U32,
    U64,
    I8,
    I16,
    I32,
    I64,
    /// A 4-byte float, kept as its bit pattern.
    F32,
    /// An 8-byte float, kept as its bit pattern.
    F64,
    /// One Unicode scalar in UTF-8, from 1 to 4 bytes.
    Char,
    /// A length-prefixed UTF-8 string.
    Str,
    /// A length-prefixed run of raw bytes.
    Bytes,
    /// A tag byte, then the payload when the tag is 1.
    Option(Box<Shape>),
    /// A length-prefixed sequence of elements of one shape.
    List(Box<Shape>),
    /// A sequence whose length the caller knows: no prefix on the wire.
    Array(usize, Box<Shape>),
    /// The fields of a tuple or a struct, in declaration order, with nothing between them.
    Tuple(Vec<Shape>),
    /// A length-prefixed run of key and value pairs.
    Dict(Box<Shape>, Box<Shape>),
    /// A length-coded variant index, then that variant's payload.
    Enum(Vec<Shape>),
    /// A wrapper around exactly one inner value.
    Newtype(Box<Shape>),
    /// A request to decode whatever comes next: this format does not describe itself.
    Any,
    /// A request for a struct field's name: names are not on the wire.
    FieldName,
}

/// A decoded value, as an ordinary Rust value.
#[derive(Debug)]
pub enum Value {
    Unit,
    Bool(bool),
    U8(u8),
    U16(u16),
    U32(u32),
    U64(u64),
    I8(i8),
    I16(i16),
    I32(i32),
    I64(i64),
    /// The bit pattern of a 4-byte float.
    F32(u32),
    /// The bit pattern of an 8-byte float.
    F64(u64),
    Char(char),
    Str(String),
    Bytes(Vec<u8>),
    Absent,
    Present(Box<Value>),
    /// The elements of a sequence, an array, a tuple or a struct.
    List(Vec<Value>),
    Dict(Vec<(Value, Value)>),
    /// The variant index and the variant's payload.
    Variant(u32, Box<Value>),
    Newtype(Box<Value>),
}

/// The mathematical model of a decoded value.
pub enum Val {
    Unit,
    Bool(bool),
    U8(u8),
    U16(u16),
    U32(u32),
    U64(u64),
    I8(i8),
    I16(i16),
    I32(i32),
    I64(i64),
    F32(u32),
    F64(u64),
    Char(char),
    Str(Seq<char>),
    Bytes(Seq<u8>),
    Absent,
    Present(Box<Val>),
    List(Seq<Val>),
    Dict(Seq<(Val, Val)>),
    Variant(u32, Box<Val>),
    Newtype(Box<Val>),
}

impl Value {
    /// The model of this value.
    pub open spec fn model(self) -> Val
        decreases self,
    {
        match self {
            Value::Unit => Val::Unit,
            Value::Bool(b) => Val::Bool(b),
            Value::U8(x) => Val::U8(x),
            Value::U16(x) => Val::U16(x),
            Value::U32(x) => Val::U32(x),
            Value::U64(x) => Val::U64(x),
            Value::I8(x) => Val::I8(x),
            Value::I16(x) => Val::I16(x),
            Value::I32(x) => Val::I32(x),
            Value::I64(x) => Val::I64(x),
            Value::F32(x) => Val::F32(x),
            Value::F64(x) => Val::F64(x),
            Value::Char(c) => Val::Char(c),
            Value::Str(s) => Val::Str(s@),
            Value::Bytes(b) => Val::Bytes(b@),
            Value::Absent => Val::Absent,
            Value::Present(v) => Val::Present(Box::new(v.model())),
            Value::List(vs) => Val::List(
                Seq::new(
                    vs.len() as nat,
                    |i: int|
                        if 0 <= i < vs.len() {
                            vs[i].model()
                        } else {
                            Val::Unit
                        },
                ),
            ),
            Value::Dict(es) => Val::Dict(
                Seq::new(
                    es.len() as nat,
                    |i: int|
                        if 0 <= i < es.len() {
                            (es[i].0.model(), es[i].1.model())
                        } else {
                            (Val::Unit, Val::Unit)
                        },
                ),
            ),
            Value::Variant(i, v) => Val::Variant(i, Box::new(v.model())),
            Value::Newtype(v) => Val::Newtype(Box::new(v.model())),
        }
    }
}

/// The models of a run of values.
pub open spec fn models(vs: Seq<Value>) -> Seq<Val> {
    vs.map_values(|v: Value| v.model())
}

/// The models of a run of key and value pairs.
pub open spec fn entry_models(es: Seq<(Value, Value)>) -> Seq<(Val, Val)> {
    es.map_values(|e: (Value, Value)| (e.0.model(), e.1.model()))
}

pub proof fn lemma_list_model(vs: Vec<Value>)
    ensures
        Value::List(vs).model() == Val::List(models(vs@)),
{
    assert(Value::List(vs).model()->List_0 =~= models(vs@));
}

pub proof fn lemma_map_model(es: Vec<(Value, Value)>)
    ensures
        Value::Dict(es).model() == Val::Dict(entry_models(es@)),
{
    assert(Value::Dict(es).model()->Dict_0 =~= entry_models(es@));
}

} // verus!
