use vstd::prelude::*;

use crate::de::Deserializer;
use crate::error::DecodeError;
use crate::limit::SizeLimit;
use crate::model::fresh_session;
use crate::value::{Shape, Value};
use crate::wire::Endianness;

verus! {

/// The header that opens every mesh file: `VMSH `, then the format version 0.0.1.
pub const MAGIC: [u8; 8] = [0x56, 0x4D, 0x53, 0x48, 0x20, 0, 0, 1];

/// The header as a sequence.
pub open spec fn magic() -> Seq<u8> {
    seq![0x56u8, 0x4Du8, 0x53u8, 0x48u8, 0x20u8, 0u8, 0u8, 1u8]
}

/// Why a mesh file could not be loaded.
#[derive(Clone, Copy, Debug, PartialEq, Eq, Structural)]
pub enum LoadError {
    /// The file does not open with the mesh header.
    MagicMismatch,
    /// The payload after the header does not decode.
    Decode(DecodeError),
}

/// Loads mesh files: a fixed header, then the mesh parameters and the mesh data, one after the
/// other, little-endian and with no size limit.
pub struct MeshLoader {
    params: Shape,
    data: Shape,
}

impl MeshLoader {
    /// The shape of the mesh parameters.
    pub closed spec fn params_shape(&self) -> Shape {
        self.params
    }

    /// The shape of the mesh data.
    pub closed spec fn data_shape(&self) -> Shape {
        self.data
    }

    /// A loader for meshes whose parameters and data have the given shapes.
    pub fn new(params: Shape, data: Shape) -> (r: MeshLoader)
        ensures
            r.params_shape() == params,
            r.data_shape() == data,
    {
        MeshLoader { params, data }
    }

    /// Checks the header of `bytes`, then decodes the parameters and the data that follow it.
    pub fn load(&self, bytes: &[u8]) -> (r: Result<(Value, Value), LoadError>)
        ensures
            !(bytes@.len() >= 8 && bytes@.subrange(0, 8) == magic()) ==> r == Err::<
                (Value, Value),
                LoadError,
            >(LoadError::MagicMismatch),
            (bytes@.len() >= 8 && bytes@.subrange(0, 8) == magic()) ==> match fresh_session(
                bytes@.subrange(8, bytes@.len() as int),
                SizeLimit::Infinite,
                Endianness::Little,
            ).decode(self.params_shape()) {
                Err((e, _)) => r == Err::<(Value, Value), LoadError>(LoadError::Decode(e)),
                Ok((p, s)) => match s.decode(self.data_shape()) {
                    Err((e, _)) => r == Err::<(Value, Value), LoadError>(LoadError::Decode(e)),
                    Ok((d, _)) => r is Ok && r->Ok_0.0.model() == p && r->Ok_0.1.model() == d,
                },
            },
    {
        if bytes.len() < 8 {
            return Err(LoadError::MagicMismatch);
        }
        let mut i: usize = 0;
        while i < 8
            invariant
                i <= 8,
                bytes@.len() >= 8,
                forall|j: int| 0 <= j < i ==> bytes@[j] == magic()[j],
            decreases 8 - i,
        {
            if bytes[i] != MAGIC[i] {
                assert(bytes@.subrange(0, 8)[i as int] != magic()[i as int]);
                return Err(LoadError::MagicMismatch);
            }
            i = i + 1;
        }
        assert(bytes@.subrange(0, 8) =~= magic());
        let mut payload: Vec<u8> = Vec::new();
        let mut k: usize = 8;
        while k < bytes.len()
            invariant
                8 <= k <= bytes@.len(),
                payload@ == bytes@.subrange(8, k as int),
            decreases bytes@.len() - k,
        {
            payload.push(bytes[k]);
            k = k + 1;
            assert(payload@ =~= bytes@.subrange(8, k as int));
        }
        let mut file = Deserializer::new(payload, SizeLimit::Infinite, Endianness::Little);
        let params = match file.deserialize(&self.params) {
            Ok(v) => v,
            Err(e) => {
                return Err(LoadError::Decode(e));
            },
        };
        let data = match file.deserialize(&self.data) {
            Ok(v) => v,
            Err(e) => {
                return Err(LoadError::Decode(e));
            },
        };
        Ok((params, data))
    }
}

} // verus!
