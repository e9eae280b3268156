use vstd::prelude::*;

verus! {

/// What was wrong with well-sized but meaningless input, with the offending raw value where
/// there is one.
#[derive(Clone, Copy, Debug, PartialEq, Eq, Structural)]
pub enum Invalid {
    /// A boolean byte other than 0 or 1.
    Bool(u8),
    /// An option tag other than 0 or 1.
    OptionTag(u8),
    /// A leading byte that starts no scalar, or a malformed scalar encoding.
    Char,
    /// A string payload that is not well-formed UTF-8.
    Utf8,
    /// An enum discriminant at or past the number of variants.
    VariantIndex(u32),
}

/// Every way a decode can fail. Each failure ends the session it came from.
#[derive(Clone, Copy, Debug, PartialEq, Eq, Structural)]
pub enum DecodeError {
    /// The source ended before the bytes that the shape asks for.
    IoFailure,
    /// The running byte count went past the session's bound.
    SizeLimitExceeded,
    /// The bytes have the right count but no meaning in the requested shape.
    InvalidEncoding(Invalid),
    /// A decode mode that a schema-driven format cannot serve.
    UnsupportedOperation,
}

impl Invalid {
    /// A short human-readable description of the fault.
    pub fn description(&self) -> (r: &'static str)
        ensures
            r@ == match *self {
                Invalid::Bool(_) => "invalid u8 when decoding bool"@,
                Invalid::OptionTag(_) => "invalid tag when decoding Option"@,
                Invalid::Char => "invalid char encoding"@,
                Invalid::Utf8 => "error while decoding utf8 string"@,
                Invalid::VariantIndex(_) => "variant index out of range"@,
            },
    {
        match self {
            Invalid::Bool(_) => "invalid u8 when decoding bool",
            Invalid::OptionTag(_) => "invalid tag when decoding Option",
            Invalid::Char => "invalid char encoding",
            Invalid::Utf8 => "error while decoding utf8 string",
            Invalid::VariantIndex(_) => "variant index out of range",
        }
    }

    /// The offending raw value, where the fault has one.
    pub fn detail(&self) -> (r: Option<u64>)
        ensures
            r == match *self {
                Invalid::Bool(v) => Some(v as u64),
                Invalid::OptionTag(v) => Some(v as u64),
                Invalid::VariantIndex(v) => Some(v as u64),
                _ => None::<u64>,
            },
    {
        match self {
            Invalid::Bool(v) => Some(*v as u64),
            Invalid::OptionTag(v) => Some(*v as u64),
            Invalid::VariantIndex(v) => Some(*v as u64),
            _ => None,
        }
    }
}

} // verus!
