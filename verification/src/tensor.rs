//! Element types of runtime tensors.
use vstd::prelude::*;

use crate::error::{Result, TinyError};
use crate::text::push_str;

verus! {

/// The element type of a runtime tensor.
#[derive(Debug, Clone, Copy, PartialEq, Eq, Structural)]
pub enum DType {
    F32,
    F16,
}

impl DType {
    /// Bytes taken by one element.
    pub open spec fn spec_size(self) -> nat {
        match self {
            DType::F32 => 4,
            DType::F16 => 2,
        }
    }

    /// The type's name, as `Debug` writes it.
    pub open spec fn spec_name(self) -> Seq<char> {
        match self {
            DType::F32 => "F32"@,
            DType::F16 => "F16"@,
        }
    }

    /// The type's name, as `Debug` writes it.
    pub fn name(self) -> (s: &'static str)
        ensures
            s@ == self.spec_name(),
    {
        match self {
            DType::F32 => "F32",
            DType::F16 => "F16",
        }
    }

    /// Bytes taken by one element of this type.
    pub fn size_in_bytes(self) -> (n: usize)
        ensures
            n == self.spec_size(),
    {
        match self {
            DType::F32 => 4,
            DType::F16 => 2,
        }
    }
}

} // verus!

verus! {

/// What the library reads of a runtime tensor: its dimensions and element type.
#[derive(Debug, Clone, PartialEq, Eq)]
pub struct TensorMeta {
    pub dims: Vec<usize>,
    pub dtype: DType,
}

impl TensorMeta {
    /// A tensor description.
    pub fn new(dims: &[usize], dtype: DType) -> (t: Self)
        ensures
            t.dims@ == dims@,
            t.dtype == dtype,
    {
        TensorMeta { dims: vstd::slice::slice_to_vec(dims), dtype }
    }

    /// Number of dimensions.
    pub fn rank(&self) -> (n: usize)
        ensures
            n == self.dims@.len(),
    {
        self.dims.len()
    }
}


/// Checks that a model computes in the element type that was asked for.
pub fn check_activation_dtype(model: DType, requested: DType) -> (r: Result<()>)
    ensures
        r is Ok <==> model == requested,
        r matches Err(e) ==> e matches TinyError::ModelFormat(m) && m@
            == "model activation dtype does not match --dtype "@ + requested.spec_name(),
{
    if model != requested {
        let mut message = "model activation dtype does not match --dtype ".to_string();
        push_str(&mut message, requested.name());
        return Err(TinyError::ModelFormat(message));
    }
    Ok(())
}

} // verus!
