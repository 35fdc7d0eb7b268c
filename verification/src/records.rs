//! Resource and instrumentation-scope records in the wire shape.
//!
//! Resource conversion keeps the source's native iteration order — it does
//! NOT sort, unlike the attribute collection — and fixes the dropped count at
//! zero, since the source exposes no real one. Scope conversion copies name
//! and version verbatim and emits the always-empty attribute list and zero
//! dropped count that the wire schema reserves for a future upstream
//! version.

use vstd::prelude::*;

use crate::source::SourceKeyValue;
use crate::values::{convert_key_value, KeyValue, KeyValueModel};

verus! {

/// Metadata describing the entity producing telemetry, as a list of pairs in
/// the source's own order plus a count of attributes dropped due to limits.
#[derive(Debug, PartialEq)]
pub struct Resource {
    pub attributes: Vec<KeyValue>,
    pub dropped_attributes_count: u64,
}

/// Metadata identifying the instrumentation library that produced a span.
#[derive(Debug, PartialEq)]
pub struct Scope {
    pub name: String,
    pub version: Option<String>,
    pub attributes: Vec<KeyValue>,
    pub dropped_attributes_count: u64,
}

impl Resource {
    /// Converts a source resource's pairs one for one, keeping the source's
    /// iteration order, and fixes the dropped count at zero: the source does
    /// not expose a real one.
    pub fn from_source(pairs: Vec<SourceKeyValue>) -> (r: Resource)
        ensures
            r.attributes.deep_view().len() == pairs.deep_view().len(),
            forall|i: int|
                0 <= i < pairs.deep_view().len() ==> r.attributes.deep_view()[i]
                    == convert_key_value(pairs.deep_view()[i]),
            r.dropped_attributes_count == 0,
    {
        let ghost orig = pairs.deep_view();
        let mut rest = pairs;
        let mut attributes: Vec<KeyValue> = Vec::new();
        while rest.len() > 0
            invariant
                rest.deep_view().len() <= orig.len(),
                rest.deep_view() == orig.skip(orig.len() - rest.deep_view().len()),
                attributes.deep_view().len() == orig.len() - rest.deep_view().len(),
                forall|i: int|
                    0 <= i < attributes.deep_view().len() ==> attributes.deep_view()[i]
                        == convert_key_value(orig[i]),
            decreases rest.len(),
        {
            let ghost done = orig.len() - rest.deep_view().len();
            let ghost before = rest@;
            let ghost before_deep = rest.deep_view();
            let kv_src = rest.remove(0);
            proof {
                before.remove_ensures(0);
                assert(forall|j: int| 0 <= j < before.len() ==> before_deep[j] == before[j]@);
                assert(forall|j: int| 0 <= j < rest@.len() ==> rest@[j] == before[j + 1]);
                assert(rest.deep_view() =~= orig.skip(done + 1)) by {
                    assert(forall|j: int|
                        0 <= j < rest@.len() ==> rest.deep_view()[j] == rest@[j]@ && rest@[j]@
                            == before_deep[j + 1] && before_deep[j + 1] == orig.skip(done)[j + 1]
                            && orig.skip(done)[j + 1] == orig[done + 1 + j]);
                }
                assert(kv_src@ == before_deep[0]);
                assert(before_deep[0] == orig.skip(done)[0]);
                assert(kv_src@ == orig[done]);
            }
            let kv = KeyValue::from_source(kv_src);
            let ghost prev_attrs = attributes.deep_view();
            attributes.push(kv);
            proof {
                assert(attributes.deep_view() =~= prev_attrs.push(convert_key_value(orig[done])));
            }
        }
        proof {
            assert(rest.deep_view() =~= orig.skip(orig.len() as int));
        }
        Resource { attributes, dropped_attributes_count: 0 }
    }
}

impl Scope {
    /// Converts a source scope: name and version are copied verbatim; the
    /// source type carries no attributes or drop count at all, so the record
    /// fixes an empty attribute list and a zero count.
    pub fn from_source(name: String, version: Option<String>) -> (r: Scope)
        ensures
            r.name@ == name@,
            r.version.deep_view() == version.deep_view(),
            r.attributes.deep_view().len() == 0,
            r.dropped_attributes_count == 0,
    {
        Scope { name, version, attributes: Vec::new(), dropped_attributes_count: 0 }
    }
}

} // verus!
