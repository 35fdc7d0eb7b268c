//! Plain-value mirror of the tracing SDK's attribute data as it arrives at
//! the adapter: keys are strings, values are one of four scalar kinds or a
//! homogeneous array of one scalar kind. Doubles are carried as their IEEE 754
//! bit patterns, which keeps the adapter inside the float-free verifiable
//! subset while preserving every value bit-exactly.

use vstd::prelude::*;

verus! {

/// A homogeneous array payload: all elements share one scalar kind.
#[derive(Debug, PartialEq)]
pub enum SourceArray {
    Bool(Vec<bool>),
    Int(Vec<i64>),
    Double(Vec<u64>),
    Str(Vec<String>),
}

/// One attribute value as handed over by the tracing SDK.
#[derive(Debug, PartialEq)]
pub enum SourceValue {
    Bool(bool),
    Int(i64),
    Double(u64),
    Str(String),
    Array(SourceArray),
}

/// One (key, value) pair in the SDK's insertion order; keys may repeat.
#[derive(Debug, PartialEq)]
pub struct SourceKeyValue {
    pub key: String,
    pub value: SourceValue,
}

/// Mathematical model of a homogeneous array payload.
pub enum SourceArrayModel {
    Bool(Seq<bool>),
    Int(Seq<i64>),
    Double(Seq<u64>),
    Str(Seq<Seq<char>>),
}

/// Mathematical model of a source attribute value.
pub enum SourceValueModel {
    Bool(bool),
    Int(i64),
    Double(u64),
    Str(Seq<char>),
    Array(SourceArrayModel),
}

/// Mathematical model of a source (key, value) pair.
pub struct SourceKeyValueModel {
    pub key: Seq<char>,
    pub value: SourceValueModel,
}

impl View for SourceArray {
    type V = SourceArrayModel;

    open spec fn view(&self) -> SourceArrayModel {
        match self {
            SourceArray::Bool(items) => SourceArrayModel::Bool(items@),
            SourceArray::Int(items) => SourceArrayModel::Int(items@),
            SourceArray::Double(items) => SourceArrayModel::Double(items@),
            SourceArray::Str(items) => SourceArrayModel::Str(items.deep_view()),
        }
    }
}

impl View for SourceValue {
    type V = SourceValueModel;

    open spec fn view(&self) -> SourceValueModel {
        match self {
            SourceValue::Bool(b) => SourceValueModel::Bool(*b),
            SourceValue::Int(i) => SourceValueModel::Int(*i),
            SourceValue::Double(bits) => SourceValueModel::Double(*bits),
            SourceValue::Str(s) => SourceValueModel::Str(s@),
            SourceValue::Array(a) => SourceValueModel::Array(a@),
        }
    }
}

impl View for SourceKeyValue {
    type V = SourceKeyValueModel;

    open spec fn view(&self) -> SourceKeyValueModel {
        SourceKeyValueModel { key: self.key@, value: self.value@ }
    }
}

impl DeepView for SourceKeyValue {
    type V = SourceKeyValueModel;

    open spec fn deep_view(&self) -> SourceKeyValueModel {
        self.view()
    }
}

} // verus!
