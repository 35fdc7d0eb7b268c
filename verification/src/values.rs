//! The serialization-ready side of the adapter: keys, tagged values and
//! (key, value) pairs with stable camelCase wire names, together with the
//! total conversion from the source representation.
//!
//! The conversion is exhaustive over the source kinds by construction: a new
//! source variant without a matching arm here is a build-time error, never a
//! silent runtime gap.

use vstd::prelude::*;

use crate::source::{
    SourceArray, SourceArrayModel, SourceKeyValue, SourceKeyValueModel, SourceValue,
    SourceValueModel,
};

verus! {

/// An attribute key: an owned copy of the source key's string content.
#[derive(Debug, PartialEq)]
pub struct Key(pub String);

/// An attribute value in the wire shape. Arrays are unified into one generic
/// sequence whose elements carry their own kind tags; doubles stay as IEEE 754
/// bit patterns until a sink renders them.
#[derive(Debug, PartialEq)]
pub enum Value {
    Bool(bool),
    Int(i64),
    Double(u64),
    Str(String),
    Array(Vec<Value>),
}

/// A (key, value) pair, serialized as an object with two named fields.
#[derive(Debug, PartialEq)]
pub struct KeyValue {
    pub key: Key,
    pub value: Value,
}

/// Mathematical model of a wire value.
pub enum ValueModel {
    Bool(bool),
    Int(i64),
    Double(u64),
    Str(Seq<char>),
    Array(Seq<ValueModel>),
}

/// Mathematical model of a (key, value) pair.
pub struct KeyValueModel {
    pub key: Seq<char>,
    pub value: ValueModel,
}

impl View for Key {
    type V = Seq<char>;

    open spec fn view(&self) -> Seq<char> {
        self.0@
    }
}

/// The model of a wire value, recursing into array elements.
pub open spec fn value_model(v: Value) -> ValueModel
    decreases v,
{
    match v {
        Value::Bool(b) => ValueModel::Bool(b),
        Value::Int(i) => ValueModel::Int(i),
        Value::Double(bits) => ValueModel::Double(bits),
        Value::Str(s) => ValueModel::Str(s@),
        Value::Array(items) => ValueModel::Array(value_models(items@)),
    }
}

/// The models of a sequence of wire values, element-wise.
pub open spec fn value_models(items: Seq<Value>) -> Seq<ValueModel>
    decreases items,
{
    if items.len() == 0 {
        Seq::empty()
    } else {
        value_models(items.drop_last()).push(value_model(items.last()))
    }
}

/// `value_models` is the element-wise image of `value_model`.
pub proof fn lemma_value_models_pointwise(items: Seq<Value>)
    ensures
        value_models(items).len() == items.len(),
        forall|i: int| 0 <= i < items.len() ==> value_models(items)[i] == value_model(items[i]),
    decreases items,
{
    if items.len() > 0 {
        lemma_value_models_pointwise(items.drop_last());
    }
}

impl View for Value {
    type V = ValueModel;

    open spec fn view(&self) -> ValueModel {
        value_model(*self)
    }
}

impl DeepView for Value {
    type V = ValueModel;

    open spec fn deep_view(&self) -> ValueModel {
        value_model(*self)
    }
}

impl View for KeyValue {
    type V = KeyValueModel;

    open spec fn view(&self) -> KeyValueModel {
        KeyValueModel { key: self.key@, value: self.value@ }
    }
}

impl DeepView for KeyValue {
    type V = KeyValueModel;

    open spec fn deep_view(&self) -> KeyValueModel {
        self.view()
    }
}

/// The element sequence that a homogeneous source array converts to:
/// element-wise, order-preserving, each element tagged with its kind.
pub open spec fn convert_array_elems(a: SourceArrayModel) -> Seq<ValueModel> {
    match a {
        SourceArrayModel::Bool(items) => items.map_values(|b: bool| ValueModel::Bool(b)),
        SourceArrayModel::Int(items) => items.map_values(|i: i64| ValueModel::Int(i)),
        SourceArrayModel::Double(items) => items.map_values(|bits: u64| ValueModel::Double(bits)),
        SourceArrayModel::Str(items) => items.map_values(|s: Seq<char>| ValueModel::Str(s)),
    }
}

/// The total mapping from a source value to its wire value.
pub open spec fn convert_value(v: SourceValueModel) -> ValueModel {
    match v {
        SourceValueModel::Bool(b) => ValueModel::Bool(b),
        SourceValueModel::Int(i) => ValueModel::Int(i),
        SourceValueModel::Double(bits) => ValueModel::Double(bits),
        SourceValueModel::Str(s) => ValueModel::Str(s),
        SourceValueModel::Array(a) => ValueModel::Array(convert_array_elems(a)),
    }
}

/// The total mapping from a source pair to its wire pair.
pub open spec fn convert_key_value(kv: SourceKeyValueModel) -> KeyValueModel {
    KeyValueModel { key: kv.key, value: convert_value(kv.value) }
}

/// How many elements a source array holds.
pub open spec fn source_array_len(a: SourceArrayModel) -> nat {
    match a {
        SourceArrayModel::Bool(items) => items.len(),
        SourceArrayModel::Int(items) => items.len(),
        SourceArrayModel::Double(items) => items.len(),
        SourceArrayModel::Str(items) => items.len(),
    }
}

/// The scalar at position `i` of a source array, as a source value.
pub open spec fn source_array_elem(a: SourceArrayModel, i: int) -> SourceValueModel {
    match a {
        SourceArrayModel::Bool(items) => SourceValueModel::Bool(items[i]),
        SourceArrayModel::Int(items) => SourceValueModel::Int(items[i]),
        SourceArrayModel::Double(items) => SourceValueModel::Double(items[i]),
        SourceArrayModel::Str(items) => SourceValueModel::Str(items[i]),
    }
}

/// Converting a scalar loses nothing: two scalar source values with the same
/// wire value are the same value, kind and payload alike — bit-exact for
/// doubles, since they are carried as bit patterns.
pub proof fn lemma_convert_scalar_lossless(a: SourceValueModel, b: SourceValueModel)
    requires
        !(a is Array),
        !(b is Array),
        convert_value(a) == convert_value(b),
    ensures
        a == b,
{
}

/// Converting an array (the empty array included) preserves its length and
/// the order of its elements: position `i` of the result is exactly the
/// conversion of the scalar at position `i` of the source.
pub proof fn lemma_convert_array_preserves(a: SourceArrayModel)
    ensures
        convert_array_elems(a).len() == source_array_len(a),
        forall|i: int|
            0 <= i < source_array_len(a) ==> convert_array_elems(a)[i] == convert_value(
                source_array_elem(a, i),
            ),
{
}

impl Key {
    /// Copies the string content of a source key; no validation, no limits.
    pub fn from_source(key: String) -> (r: Key)
        ensures
            r@ == key@,
    {
        Key(key)
    }
}

fn bools_to_values(items: &Vec<bool>) -> (r: Vec<Value>)
    ensures
        value_models(r@) == items@.map_values(|b: bool| ValueModel::Bool(b)),
{
    let mut out: Vec<Value> = Vec::new();
    let mut idx: usize = 0;
    while idx < items.len()
        invariant
            idx <= items.len(),
            out@.len() == idx,
            forall|j: int| 0 <= j < idx ==> out@[j] == Value::Bool(items@[j]),
        decreases items.len() - idx,
    {
        out.push(Value::Bool(items[idx]));
        idx = idx + 1;
    }
    proof {
        lemma_value_models_pointwise(out@);
        assert(value_models(out@) =~= items@.map_values(|b: bool| ValueModel::Bool(b)));
    }
    out
}

fn ints_to_values(items: &Vec<i64>) -> (r: Vec<Value>)
    ensures
        value_models(r@) == items@.map_values(|i: i64| ValueModel::Int(i)),
{
    let mut out: Vec<Value> = Vec::new();
    let mut idx: usize = 0;
    while idx < items.len()
        invariant
            idx <= items.len(),
            out@.len() == idx,
            forall|j: int| 0 <= j < idx ==> out@[j] == Value::Int(items@[j]),
        decreases items.len() - idx,
    {
        out.push(Value::Int(items[idx]));
        idx = idx + 1;
    }
    proof {
        lemma_value_models_pointwise(out@);
        assert(value_models(out@) =~= items@.map_values(|i: i64| ValueModel::Int(i)));
    }
    out
}

fn doubles_to_values(items: &Vec<u64>) -> (r: Vec<Value>)
    ensures
        value_models(r@) == items@.map_values(|bits: u64| ValueModel::Double(bits)),
{
    let mut out: Vec<Value> = Vec::new();
    let mut idx: usize = 0;
    while idx < items.len()
        invariant
            idx <= items.len(),
            out@.len() == idx,
            forall|j: int| 0 <= j < idx ==> out@[j] == Value::Double(items@[j]),
        decreases items.len() - idx,
    {
        out.push(Value::Double(items[idx]));
        idx = idx + 1;
    }
    proof {
        lemma_value_models_pointwise(out@);
        assert(value_models(out@) =~= items@.map_values(|bits: u64| ValueModel::Double(bits)));
    }
    out
}

fn strs_to_values(items: &Vec<String>) -> (r: Vec<Value>)
    ensures
        value_models(r@) == items.deep_view().map_values(|s: Seq<char>| ValueModel::Str(s)),
{
    let mut out: Vec<Value> = Vec::new();
    let mut idx: usize = 0;
    while idx < items.len()
        invariant
            idx <= items.len(),
            out@.len() == idx,
            forall|j: int| 0 <= j < idx ==> out@[j].deep_view() == ValueModel::Str(
                items@[j]@,
            ),
        decreases items.len() - idx,
    {
        out.push(Value::Str(items[idx].clone()));
        idx = idx + 1;
    }
    proof {
        lemma_value_models_pointwise(out@);
        assert(value_models(out@) =~= items.deep_view().map_values(
            |s: Seq<char>| ValueModel::Str(s),
        ));
    }
    out
}

impl Value {
    /// The total, exhaustive conversion from a source value: each of the five
    /// source variants maps to exactly one wire variant; arrays convert
    /// element-wise in order.
    pub fn from_source(v: SourceValue) -> (r: Value)
        ensures
            r@ == convert_value(v@),
    {
        match v {
            SourceValue::Bool(b) => Value::Bool(b),
            SourceValue::Int(i) => Value::Int(i),
            SourceValue::Double(bits) => Value::Double(bits),
            SourceValue::Str(s) => Value::Str(s),
            SourceValue::Array(a) => match a {
                SourceArray::Bool(items) => Value::Array(bools_to_values(&items)),
                SourceArray::Int(items) => Value::Array(ints_to_values(&items)),
                SourceArray::Double(items) => Value::Array(doubles_to_values(&items)),
                SourceArray::Str(items) => Value::Array(strs_to_values(&items)),
            },
        }
    }
}

impl KeyValue {
    /// Converts one source pair: the key is copied, the value converted.
    pub fn from_source(kv: SourceKeyValue) -> (r: KeyValue)
        ensures
            r@ == convert_key_value(kv@),
    {
        KeyValue { key: Key::from_source(kv.key), value: Value::from_source(kv.value) }
    }
}

} // verus!
