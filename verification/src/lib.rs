//! Adapter that converts a tracing SDK's attribute, resource and
//! instrumentation-scope data into a stable, camelCase, JSON-serializable
//! wire shape for a stdout exporter.
//!
//! Every conversion is total and deterministic; the contracts below pin the
//! wire shape down to the character, except that each double's decimal
//! rendering is left to the sink as an explicit slot carrying its bit pattern.

use vstd::prelude::*;

pub mod source;
pub mod values;
pub mod collection;
pub mod records;
pub mod wire;

verus! {

/// True exactly when the given count is zero; serialization omits
/// droppedAttributesCount fields on this condition.
pub fn is_zero(v: &u64) -> (r: bool)
    ensures
        r == (*v == 0),
{
    *v == 0
}

} // verus!
