//! Limits on the size of the input a read accepts.
use vstd::prelude::*;

use crate::error::{Error, owned};

verus! {

/// Limits applied while reading one document.
#[derive(Debug, Clone, Copy, PartialEq, Eq)]
pub struct ParseLimits {
    /// Largest input accepted, in bytes.
    pub max_input_bytes: usize,
}

/// Default largest input, in bytes (512 MiB).
pub const DEFAULT_MAX_INPUT_BYTES: usize = 536870912;

impl Default for ParseLimits {
    /// Default limits: inputs up to `DEFAULT_MAX_INPUT_BYTES`.
    fn default() -> (r: Self)
        ensures
            r.max_input_bytes == DEFAULT_MAX_INPUT_BYTES,
    {
        ParseLimits { max_input_bytes: DEFAULT_MAX_INPUT_BYTES }
    }
}

impl ParseLimits {
    pub fn decompression_budget(&self) -> (r: DecompressionBudget)
        ensures
            r.max_input_bytes() == self.max_input_bytes,
    {
        DecompressionBudget { max_input_bytes: self.max_input_bytes }
    }

    pub fn resource_budget(&self) -> (r: ResourceBudget)
        ensures
            r.max_input_bytes() == self.max_input_bytes,
    {
        ResourceBudget { decompression: self.decompression_budget() }
    }
}

/// Budget of one read of a DocumentText payload.
#[derive(Debug, Clone, PartialEq, Eq)]
pub struct DecompressionBudget {
    max_input_bytes: usize,
}

impl DecompressionBudget {
    pub closed spec fn max_input_bytes(&self) -> usize {
        self.max_input_bytes
    }

    /// `Ok` when `len` is within the input limit, `Error::ResourceLimit` otherwise.
    pub fn check_input_size(&self, len: usize) -> (r: Result<(), Error>)
        ensures
            r is Ok <==> len <= self.max_input_bytes(),
            r matches Err(e) ==> e matches Error::ResourceLimit { limit, actual, .. } && limit
                == self.max_input_bytes() && actual == len,
    {
        if len <= self.max_input_bytes {
            Ok(())
        } else {
            Err(
                Error::ResourceLimit {
                    resource: owned("input bytes"),
                    limit: self.max_input_bytes,
                    actual: len,
                },
            )
        }
    }
}

/// Budget of one whole-document parse.
#[derive(Debug, Clone, PartialEq, Eq)]
pub struct ResourceBudget {
    decompression: DecompressionBudget,
}

impl ResourceBudget {
    pub closed spec fn max_input_bytes(&self) -> usize {
        self.decompression.max_input_bytes()
    }

    /// `Ok` when `len` is within the input limit, `Error::ResourceLimit` otherwise.
    pub fn check_input_size(&self, len: usize) -> (r: Result<(), Error>)
        ensures
            r is Ok <==> len <= self.max_input_bytes(),
            r matches Err(e) ==> e matches Error::ResourceLimit { limit, actual, .. } && limit
                == self.max_input_bytes() && actual == len,
    {
        self.decompression.check_input_size(len)
    }

    pub fn decompression_budget_mut(&mut self) -> (r: &mut DecompressionBudget)
        ensures
            r.max_input_bytes() == old(self).max_input_bytes(),
            final(self).max_input_bytes() == final(r).max_input_bytes(),
    {
        &mut self.decompression
    }
}

} // verus!
