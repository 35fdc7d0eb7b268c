//! The serialized wire shape, pinned down to the character.
//!
//! Serialized output is a sequence of fragments: ordinary characters, plus
//! one slot per double carrying its IEEE 754 bit pattern. The adapter proves
//! every character around the slots; rendering a slot as decimal text is
//! floating-point work and stays with the (unverified) sink. Output with no
//! doubles collapses to a plain string.

use vstd::prelude::*;

use crate::records::{Resource, Scope};
use crate::values::{value_model, value_models, lemma_value_models_pointwise, KeyValue, KeyValueModel, Value, ValueModel};

verus! {

/// One fragment of serialized output: a character, or a double's slot.
#[derive(Debug, PartialEq)]
pub enum JsonFrag {
    Ch(char),
    Dbl(u64),
}

/// One produced piece of output: a run of text, or a double's slot.
#[derive(Debug, PartialEq)]
pub enum JsonPiece {
    Text(String),
    Double(u64),
}

/// Mathematical model of a produced piece.
pub enum PieceModel {
    Text(Seq<char>),
    Double(u64),
}

impl View for JsonPiece {
    type V = PieceModel;

    open spec fn view(&self) -> PieceModel {
        match self {
            JsonPiece::Text(s) => PieceModel::Text(s@),
            JsonPiece::Double(bits) => PieceModel::Double(*bits),
        }
    }
}

impl DeepView for JsonPiece {
    type V = PieceModel;

    open spec fn deep_view(&self) -> PieceModel {
        self.view()
    }
}

/// The fragment one ordinary character stands for.
pub open spec fn char_frag(c: char) -> JsonFrag {
    JsonFrag::Ch(c)
}

/// Plain text as fragments.
pub open spec fn lit(s: Seq<char>) -> Seq<JsonFrag> {
    s.map_values(|c: char| char_frag(c))
}

/// The fragments one piece stands for.
pub open spec fn frags_of_piece(p: PieceModel) -> Seq<JsonFrag> {
    match p {
        PieceModel::Text(s) => lit(s),
        PieceModel::Double(bits) => seq![JsonFrag::Dbl(bits)],
    }
}

/// The fragments a piece sequence stands for, in order.
pub open spec fn frags(ps: Seq<PieceModel>) -> Seq<JsonFrag>
    decreases ps.len(),
{
    if ps.len() == 0 {
        Seq::empty()
    } else {
        frags(ps.drop_last()) + frags_of_piece(ps.last())
    }
}

/// Every fragment is an ordinary character: no double slot remains.
pub open spec fn all_text(frs: Seq<JsonFrag>) -> bool {
    forall|i: int| 0 <= i < frs.len() ==> frs[i] is Ch
}

/// The character a fragment prints as; a double slot has none of its own and
/// stands as a blank, reached only when `all_text` fails.
pub open spec fn frag_char(f: JsonFrag) -> char {
    match f {
        JsonFrag::Ch(c) => c,
        JsonFrag::Dbl(_) => ' ',
    }
}

/// The text of a fragment sequence, character for character.
pub open spec fn text_of(frs: Seq<JsonFrag>) -> Seq<char> {
    frs.map_values(|f: JsonFrag| frag_char(f))
}

/// Appending a piece appends its fragments.
pub proof fn lemma_frags_push(ps: Seq<PieceModel>, p: PieceModel)
    ensures
        frags(ps.push(p)) == frags(ps) + frags_of_piece(p),
{
    assert(ps.push(p).drop_last() =~= ps);
    assert(ps.push(p).last() == p);
}

/// `lit` distributes over concatenation.
pub proof fn lemma_lit_add(a: Seq<char>, b: Seq<char>)
    ensures
        lit(a + b) == lit(a) + lit(b),
{
    assert forall|i: int| 0 <= i < (a + b).len() implies lit(a + b)[i] == (lit(a) + lit(b))[i] by {
        if i < a.len() {
            assert((a + b)[i] == a[i]);
            assert((lit(a) + lit(b))[i] == lit(a)[i]);
        } else {
            assert((a + b)[i] == b[i - a.len()]);
            assert((lit(a) + lit(b))[i] == lit(b)[i - a.len()]);
        }
    }
    assert(lit(a + b) =~= lit(a) + lit(b));
}

/// `text_of` distributes over concatenation.
pub proof fn lemma_text_of_add(a: Seq<JsonFrag>, b: Seq<JsonFrag>)
    ensures
        text_of(a + b) == text_of(a) + text_of(b),
{
    assert forall|i: int|
        0 <= i < (a + b).len() implies text_of(a + b)[i] == (text_of(a) + text_of(b))[i] by {
        if i < a.len() {
            assert((a + b)[i] == a[i]);
        } else {
            assert((a + b)[i] == b[i - a.len()]);
        }
    }
    assert(text_of(a + b) =~= text_of(a) + text_of(b));
}

/// Plain text prints as itself.
pub proof fn lemma_text_of_lit(s: Seq<char>)
    ensures
        text_of(lit(s)) == s,
{
    assert(text_of(lit(s)) =~= s);
}

/// The decimal digit character for `d`.
pub open spec fn dec_digit(d: int) -> char {
    ((d + 48) as u8) as char
}

/// The decimal text of a natural number, no sign, no leading zero.
pub open spec fn dec_str(n: nat) -> Seq<char>
    decreases n,
{
    if n < 10 {
        seq![dec_digit(n as int)]
    } else {
        dec_str(n / 10).push(dec_digit((n % 10) as int))
    }
}

/// The decimal text of an integer: a leading minus exactly when negative.
pub open spec fn int_str(i: int) -> Seq<char> {
    if i < 0 {
        seq!['-'] + dec_str((-i) as nat)
    } else {
        dec_str(i as nat)
    }
}

/// The lowercase hexadecimal digit character for `d`.
pub open spec fn hex_digit(d: int) -> char {
    if d < 10 {
        ((d + 48) as u8) as char
    } else {
        ((d + 87) as u8) as char
    }
}

/// How one character appears inside a JSON string: quote and backslash take
/// an escape, control characters take their short escape or the four-digit
/// `\u00..` form, and every other character stands as itself.
pub open spec fn escape_char(c: char) -> Seq<char> {
    if c == '"' {
        seq!['\\', '"']
    } else if c == '\\' {
        seq!['\\', '\\']
    } else if (c as u32) >= 0x20 {
        seq![c]
    } else if c == '\u{8}' {
        seq!['\\', 'b']
    } else if c == '\t' {
        seq!['\\', 't']
    } else if c == '\n' {
        seq!['\\', 'n']
    } else if c == '\u{c}' {
        seq!['\\', 'f']
    } else if c == '\r' {
        seq!['\\', 'r']
    } else {
        seq![
            '\\',
            'u',
            '0',
            '0',
            hex_digit((c as u32 / 16) as int),
            hex_digit((c as u32 % 16) as int),
        ]
    }
}

/// A whole string escaped, character by character, in order.
pub open spec fn escape(s: Seq<char>) -> Seq<char>
    decreases s.len(),
{
    if s.len() == 0 {
        Seq::empty()
    } else {
        escape(s.drop_last()) + escape_char(s.last())
    }
}

/// Relies on std's String::push: appends exactly the one character.
#[verifier::external_body]
fn push_char(s: &mut String, c: char)
    ensures
        final(s)@ == old(s)@.push(c),
{
    s.push(c);
}

/// Appends the decimal text of `n`.
fn push_dec_u64(out: &mut String, n: u64)
    ensures
        final(out)@ == old(out)@ + dec_str(n as nat),
    decreases n,
{
    if n < 10 {
        let d: u8 = (n as u8) + 48;
        push_char(out, d as char);
        proof {
            assert(out@ =~= old(out)@ + dec_str(n as nat));
        }
    } else {
        push_dec_u64(out, n / 10);
        let d: u8 = ((n % 10) as u8) + 48;
        push_char(out, d as char);
        proof {
            assert((n / 10) as nat == (n as nat) / 10);
            assert((n % 10) as nat == (n as nat) % 10);
            assert(out@ =~= old(out)@ + dec_str(n as nat));
        }
    }
}

/// Appends the decimal text of `i`, sign included.
fn push_dec_i64(out: &mut String, i: i64)
    ensures
        final(out)@ == old(out)@ + int_str(i as int),
{
    if i < 0 {
        push_char(out, '-');
        let mag: u64 = if i == i64::MIN {
            9223372036854775808u64
        } else {
            (-i) as u64
        };
        push_dec_u64(out, mag);
        proof {
            assert(mag as nat == (-(i as int)) as nat);
            assert(out@ =~= old(out)@ + int_str(i as int));
        }
    } else {
        push_dec_u64(out, i as u64);
    }
}

/// Appends `s` escaped for the inside of a JSON string.
fn push_escaped(out: &mut String, s: &str)
    ensures
        final(out)@ == old(out)@ + escape(s@),
{
    let n = s.unicode_len();
    let mut i: usize = 0;
    while i < n
        invariant
            n == s@.len(),
            i <= n,
            out@ == old(out)@ + escape(s@.take(i as int)),
        decreases n - i,
    {
        let c = s.get_char(i);
        let ghost prev = out@;
        if c == '"' {
            push_char(out, '\\');
            push_char(out, '"');
        } else if c == '\\' {
            push_char(out, '\\');
            push_char(out, '\\');
        } else if (c as u32) >= 0x20 {
            push_char(out, c);
        } else if c == '\u{8}' {
            push_char(out, '\\');
            push_char(out, 'b');
        } else if c == '\t' {
            push_char(out, '\\');
            push_char(out, 't');
        } else if c == '\n' {
            push_char(out, '\\');
            push_char(out, 'n');
        } else if c == '\u{c}' {
            push_char(out, '\\');
            push_char(out, 'f');
        } else if c == '\r' {
            push_char(out, '\\');
            push_char(out, 'r');
        } else {
            let code = c as u32;
            push_char(out, '\\');
            push_char(out, 'u');
            push_char(out, '0');
            push_char(out, '0');
            let hi = (code / 16) as u8;
            let lo = (code % 16) as u8;
            let hc: u8 = if hi < 10 {
                hi + 48
            } else {
                hi + 87
            };
            let lc: u8 = if lo < 10 {
                lo + 48
            } else {
                lo + 87
            };
            push_char(out, hc as char);
            push_char(out, lc as char);
        }
        proof {
            assert(out@ =~= prev + escape_char(s@[i as int]));
            assert(s@.take(i as int + 1).drop_last() =~= s@.take(i as int));
            assert(s@.take(i as int + 1).last() == s@[i as int]);
            assert(out@ =~= old(out)@ + escape(s@.take(i as int + 1)));
        }
        i = i + 1;
    }
    proof {
        assert(s@.take(n as int) =~= s@);
    }
}

/// Appends one literal text piece.
fn push_lit(pieces: &mut Vec<JsonPiece>, s: &str)
    ensures
        frags(final(pieces).deep_view()) == frags(old(pieces).deep_view()) + lit(s@),
{
    let ghost prev = pieces.deep_view();
    pieces.push(JsonPiece::Text(s.to_owned()));
    proof {
        assert(pieces.deep_view() =~= prev.push(PieceModel::Text(s@)));
        lemma_frags_push(prev, PieceModel::Text(s@));
    }
}

/// Appends one owned text piece.
fn push_text(pieces: &mut Vec<JsonPiece>, s: String)
    ensures
        frags(final(pieces).deep_view()) == frags(old(pieces).deep_view()) + lit(s@),
{
    let ghost prev = pieces.deep_view();
    let ghost chars = s@;
    pieces.push(JsonPiece::Text(s));
    proof {
        assert(pieces.deep_view() =~= prev.push(PieceModel::Text(chars)));
        lemma_frags_push(prev, PieceModel::Text(chars));
    }
}

/// Appends one double slot.
fn push_double(pieces: &mut Vec<JsonPiece>, bits: u64)
    ensures
        frags(final(pieces).deep_view()) == frags(old(pieces).deep_view()) + seq![
            JsonFrag::Dbl(bits),
        ],
{
    let ghost prev = pieces.deep_view();
    pieces.push(JsonPiece::Double(bits));
    proof {
        assert(pieces.deep_view() =~= prev.push(PieceModel::Double(bits)));
        lemma_frags_push(prev, PieceModel::Double(bits));
    }
}

/// The wire fragments of one value: an object with exactly one tagged field
/// naming the value's kind.
pub open spec fn value_wire(v: ValueModel) -> Seq<JsonFrag>
    decreases v,
{
    match v {
        ValueModel::Bool(b) => lit(
            if b {
                "{\"boolValue\":true}"@
            } else {
                "{\"boolValue\":false}"@
            },
        ),
        ValueModel::Int(i) => lit("{\"intValue\":"@ + int_str(i as int) + "}"@),
        ValueModel::Double(bits) => lit("{\"doubleValue\":"@) + seq![JsonFrag::Dbl(bits)] + lit(
            "}"@,
        ),
        ValueModel::Str(s) => lit("{\"stringValue\":\""@ + escape(s) + "\"}"@),
        ValueModel::Array(items) => lit("{\"arrayValue\":["@) + values_wire(items) + lit("]}"@),
    }
}

/// The wire fragments of a value sequence, comma-separated.
pub open spec fn values_wire(items: Seq<ValueModel>) -> Seq<JsonFrag>
    decreases items,
{
    if items.len() == 0 {
        Seq::empty()
    } else if items.len() == 1 {
        value_wire(items[0])
    } else {
        values_wire(items.drop_last()) + lit(","@) + value_wire(items.last())
    }
}

/// The wire fragments of one (key, value) pair: the escaped key, then the
/// tagged value.
pub open spec fn key_value_wire(kv: KeyValueModel) -> Seq<JsonFrag> {
    lit("{\"key\":\""@ + escape(kv.key) + "\",\"value\":"@) + value_wire(kv.value) + lit("}"@)
}

/// The wire fragments of a pair sequence, comma-separated.
pub open spec fn key_values_wire(s: Seq<KeyValueModel>) -> Seq<JsonFrag>
    decreases s.len(),
{
    if s.len() == 0 {
        Seq::empty()
    } else if s.len() == 1 {
        key_value_wire(s[0])
    } else {
        key_values_wire(s.drop_last()) + lit(","@) + key_value_wire(s.last())
    }
}

/// Appending a value to a non-empty list puts a comma before it.
pub proof fn lemma_values_wire_push(ms: Seq<ValueModel>, m: ValueModel)
    ensures
        values_wire(ms.push(m)) == if ms.len() == 0 {
            value_wire(m)
        } else {
            values_wire(ms) + lit(","@) + value_wire(m)
        },
{
    assert(ms.push(m).drop_last() =~= ms);
    assert(ms.push(m).last() == m);
}

/// Appending a pair to a non-empty list puts a comma before it.
pub proof fn lemma_key_values_wire_push(ms: Seq<KeyValueModel>, m: KeyValueModel)
    ensures
        key_values_wire(ms.push(m)) == if ms.len() == 0 {
            key_value_wire(m)
        } else {
            key_values_wire(ms) + lit(","@) + key_value_wire(m)
        },
{
    assert(ms.push(m).drop_last() =~= ms);
    assert(ms.push(m).last() == m);
}

/// Appends the wire form of one value.
#[verifier::loop_isolation(false)]
pub fn write_value(v: &Value, out: &mut Vec<JsonPiece>)
    ensures
        frags(final(out).deep_view()) == frags(old(out).deep_view()) + value_wire(v@),
    decreases *v,
{
    match v {
        Value::Bool(b) => {
            if *b {
                push_lit(out, "{\"boolValue\":true}");
            } else {
                push_lit(out, "{\"boolValue\":false}");
            }
        },
        Value::Int(i) => {
            push_lit(out, "{\"intValue\":");
            let mut numstr = String::new();
            push_dec_i64(&mut numstr, *i);
            push_text(out, numstr);
            push_lit(out, "}");
            proof {
                lemma_lit_add("{\"intValue\":"@ + int_str(*i as int), "}"@);
                lemma_lit_add("{\"intValue\":"@, int_str(*i as int));
                assert(frags(out.deep_view()) =~= frags(old(out).deep_view()) + value_wire(v@));
            }
        },
        Value::Double(bits) => {
            push_lit(out, "{\"doubleValue\":");
            push_double(out, *bits);
            push_lit(out, "}");
            proof {
                assert(frags(out.deep_view()) =~= frags(old(out).deep_view()) + value_wire(v@));
            }
        },
        Value::Str(s) => {
            push_lit(out, "{\"stringValue\":\"");
            let mut esc = String::new();
            push_escaped(&mut esc, s.as_str());
            push_text(out, esc);
            push_lit(out, "\"}");
            proof {
                lemma_lit_add("{\"stringValue\":\""@ + escape(s@), "\"}"@);
                lemma_lit_add("{\"stringValue\":\""@, escape(s@));
                assert(frags(out.deep_view()) =~= frags(old(out).deep_view()) + value_wire(v@));
            }
        },
        Value::Array(items) => {
            push_lit(out, "{\"arrayValue\":[");
            let ghost base = frags(out.deep_view());
            let n = items.len();
            let mut idx: usize = 0;
            while idx < n
                invariant
                    n == items@.len(),
                    idx <= n,
                    frags(out.deep_view()) == base + values_wire(
                        value_models(items@.take(idx as int)),
                    ),
                decreases n - idx,
            {
                proof {
                    lemma_value_models_pointwise(items@.take(idx as int));
                }
                if idx > 0 {
                    push_lit(out, ",");
                }
                proof {
                    assert(decreases_to!(*v => *items));
                    assert(decreases_to!(*items => items@));
                    assert(decreases_to!(items@ => items@[idx as int]));
                    assert(decreases_to!(*v => items@[idx as int]));
                }
                write_value(&items[idx], out);
                proof {
                    let taken = items@.take(idx as int);
                    let taken1 = items@.take(idx as int + 1);
                    assert(taken1.drop_last() =~= taken);
                    assert(taken1.last() == items@[idx as int]);
                    assert(value_models(taken1) == value_models(taken).push(
                        value_model(items@[idx as int]),
                    ));
                    lemma_values_wire_push(value_models(taken), value_model(items@[idx as int]));
                    lemma_value_models_pointwise(taken);
                    assert(frags(out.deep_view()) =~= base + values_wire(value_models(taken1)));
                }
                idx = idx + 1;
            }
            push_lit(out, "]}");
            proof {
                assert(items@.take(n as int) =~= items@);
                assert(frags(out.deep_view()) =~= frags(old(out).deep_view()) + value_wire(v@));
            }
        },
    }
}

/// Appends the wire form of one (key, value) pair.
pub fn write_key_value(kv: &KeyValue, out: &mut Vec<JsonPiece>)
    ensures
        frags(final(out).deep_view()) == frags(old(out).deep_view()) + key_value_wire(kv@),
{
    push_lit(out, "{\"key\":\"");
    let mut esc = String::new();
    push_escaped(&mut esc, kv.key.0.as_str());
    push_text(out, esc);
    push_lit(out, "\",\"value\":");
    write_value(&kv.value, out);
    push_lit(out, "}");
    proof {
        lemma_lit_add("{\"key\":\""@ + escape(kv.key.0@), "\",\"value\":"@);
        lemma_lit_add("{\"key\":\""@, escape(kv.key.0@));
        assert(frags(out.deep_view()) =~= frags(old(out).deep_view()) + key_value_wire(kv@));
    }
}

/// Appends the comma-separated wire forms of a pair list.
pub fn write_key_values(list: &Vec<KeyValue>, out: &mut Vec<JsonPiece>)
    ensures
        frags(final(out).deep_view()) == frags(old(out).deep_view()) + key_values_wire(
            list.deep_view(),
        ),
{
    let ghost base = frags(out.deep_view());
    let n = list.len();
    let mut idx: usize = 0;
    while idx < n
        invariant
            n == list@.len(),
            idx <= n,
            frags(out.deep_view()) == base + key_values_wire(list.deep_view().take(idx as int)),
        decreases n - idx,
    {
        if idx > 0 {
            push_lit(out, ",");
        }
        write_key_value(&list[idx], out);
        proof {
            let taken = list.deep_view().take(idx as int);
            let taken1 = list.deep_view().take(idx as int + 1);
            assert(taken1.drop_last() =~= taken);
            assert(taken1.last() == list.deep_view()[idx as int]);
            lemma_key_values_wire_push(taken, list.deep_view()[idx as int]);
            assert(frags(out.deep_view()) =~= base + key_values_wire(taken1));
        }
        idx = idx + 1;
    }
    proof {
        assert(list.deep_view().take(n as int) =~= list.deep_view());
    }
}

/// The wire fragments of a resource: always an attributes array (possibly
/// empty), and a droppedAttributesCount field only when the count is not
/// zero.
pub open spec fn resource_wire(attrs: Seq<KeyValueModel>, dropped: u64) -> Seq<JsonFrag> {
    lit("{\"attributes\":["@) + key_values_wire(attrs) + lit("]"@) + (if dropped == 0 {
        Seq::<JsonFrag>::empty()
    } else {
        lit(",\"droppedAttributesCount\":"@ + dec_str(dropped as nat))
    }) + lit("}"@)
}

/// Serializing a resource whose dropped count is zero omits the
/// droppedAttributesCount field, whatever its attributes are.
pub proof fn lemma_resource_wire_omits_zero_count(attrs: Seq<KeyValueModel>)
    ensures
        resource_wire(attrs, 0) == lit("{\"attributes\":["@) + key_values_wire(attrs) + lit(
            "]}"@,
        ),
{
    reveal_strlit("]");
    reveal_strlit("}");
    reveal_strlit("]}");
    assert("]"@ + "}"@ =~= "]}"@);
    lemma_lit_add("]"@, "}"@);
    assert(resource_wire(attrs, 0) =~= lit("{\"attributes\":["@) + key_values_wire(attrs) + lit(
        "]}"@,
    ));
}

/// Serializing a scope with an empty name, no version, no attributes and a
/// zero dropped count yields an object with no fields at all.
pub proof fn lemma_scope_wire_empty()
    ensures
        scope_wire(Seq::<char>::empty(), Option::None, Seq::<KeyValueModel>::empty(), 0) == lit(
            "{}"@,
        ),
{
    reveal_strlit("{");
    reveal_strlit("}");
    reveal_strlit("{}");
    assert("{"@ + "}"@ =~= "{}"@);
    lemma_lit_add("{"@, "}"@);
    assert(scope_wire(Seq::<char>::empty(), Option::None, Seq::<KeyValueModel>::empty(), 0) =~= lit(
        "{}"@,
    ));
}

/// Comma-joins the serialized fields that a record carries.
pub open spec fn join_fields(fields: Seq<Seq<JsonFrag>>) -> Seq<JsonFrag>
    decreases fields.len(),
{
    if fields.len() == 0 {
        Seq::empty()
    } else if fields.len() == 1 {
        fields[0]
    } else {
        join_fields(fields.drop_last()) + lit(","@) + fields.last()
    }
}

/// Appending a field to a non-empty list puts a comma before it.
pub proof fn lemma_join_fields_push(fields: Seq<Seq<JsonFrag>>, f: Seq<JsonFrag>)
    ensures
        join_fields(fields.push(f)) == if fields.len() == 0 {
            f
        } else {
            join_fields(fields) + lit(","@) + f
        },
{
    assert(fields.push(f).drop_last() =~= fields);
    assert(fields.push(f).last() == f);
}

/// The fields a scope serializes: name when non-empty, version when present,
/// attributes when non-empty, dropped count when non-zero — in that order.
pub open spec fn scope_fields(
    name: Seq<char>,
    version: Option<Seq<char>>,
    attrs: Seq<KeyValueModel>,
    dropped: u64,
) -> Seq<Seq<JsonFrag>> {
    let with_name = if name.len() > 0 {
        seq![lit("\"name\":\""@ + escape(name) + "\""@)]
    } else {
        Seq::empty()
    };
    let with_version = match version {
        Option::Some(vtext) => with_name.push(lit("\"version\":\""@ + escape(vtext) + "\""@)),
        Option::None => with_name,
    };
    let with_attrs = if attrs.len() > 0 {
        with_version.push(lit("\"attributes\":["@) + key_values_wire(attrs) + lit("]"@))
    } else {
        with_version
    };
    if dropped != 0 {
        with_attrs.push(lit("\"droppedAttributesCount\":"@ + dec_str(dropped as nat)))
    } else {
        with_attrs
    }
}

/// The wire fragments of a scope: an object holding exactly the fields of
/// `scope_fields`.
pub open spec fn scope_wire(
    name: Seq<char>,
    version: Option<Seq<char>>,
    attrs: Seq<KeyValueModel>,
    dropped: u64,
) -> Seq<JsonFrag> {
    lit("{"@) + join_fields(scope_fields(name, version, attrs, dropped)) + lit("}"@)
}

/// Serializes a resource into wire pieces.
pub fn resource_json_pieces(resource: &Resource) -> (r: Vec<JsonPiece>)
    ensures
        frags(r.deep_view()) == resource_wire(
            resource.attributes.deep_view(),
            resource.dropped_attributes_count,
        ),
{
    let mut out: Vec<JsonPiece> = Vec::new();
    proof {
        assert(out.deep_view() =~= Seq::<PieceModel>::empty());
    }
    push_lit(&mut out, "{\"attributes\":[");
    write_key_values(&resource.attributes, &mut out);
    push_lit(&mut out, "]");
    if !crate::is_zero(&resource.dropped_attributes_count) {
        push_lit(&mut out, ",\"droppedAttributesCount\":");
        let mut numstr = String::new();
        push_dec_u64(&mut numstr, resource.dropped_attributes_count);
        push_text(&mut out, numstr);
        proof {
            lemma_lit_add(
                ",\"droppedAttributesCount\":"@,
                dec_str(resource.dropped_attributes_count as nat),
            );
        }
    }
    push_lit(&mut out, "}");
    proof {
        assert(frags(out.deep_view()) =~= resource_wire(
            resource.attributes.deep_view(),
            resource.dropped_attributes_count,
        ));
    }
    out
}

/// Appends a scope's name field.
fn write_scope_name(out: &mut Vec<JsonPiece>, name: &String)
    ensures
        frags(final(out).deep_view()) == frags(old(out).deep_view()) + lit(
            "\"name\":\""@ + escape(name@) + "\""@,
        ),
{
    push_lit(out, "\"name\":\"");
    let mut esc = String::new();
    push_escaped(&mut esc, name.as_str());
    push_text(out, esc);
    push_lit(out, "\"");
    proof {
        lemma_lit_add("\"name\":\""@ + escape(name@), "\""@);
        lemma_lit_add("\"name\":\""@, escape(name@));
        assert(frags(out.deep_view()) =~= frags(old(out).deep_view()) + lit(
            "\"name\":\""@ + escape(name@) + "\""@,
        ));
    }
}

/// Appends a scope's version field.
fn write_scope_version(out: &mut Vec<JsonPiece>, version: &String)
    ensures
        frags(final(out).deep_view()) == frags(old(out).deep_view()) + lit(
            "\"version\":\""@ + escape(version@) + "\""@,
        ),
{
    push_lit(out, "\"version\":\"");
    let mut esc = String::new();
    push_escaped(&mut esc, version.as_str());
    push_text(out, esc);
    push_lit(out, "\"");
    proof {
        lemma_lit_add("\"version\":\""@ + escape(version@), "\""@);
        lemma_lit_add("\"version\":\""@, escape(version@));
        assert(frags(out.deep_view()) =~= frags(old(out).deep_view()) + lit(
            "\"version\":\""@ + escape(version@) + "\""@,
        ));
    }
}

/// Appends an attributes field.
fn write_attributes_field(out: &mut Vec<JsonPiece>, attrs: &Vec<KeyValue>)
    ensures
        frags(final(out).deep_view()) == frags(old(out).deep_view()) + (lit("\"attributes\":["@)
            + key_values_wire(attrs.deep_view()) + lit("]"@)),
{
    push_lit(out, "\"attributes\":[");
    write_key_values(attrs, out);
    push_lit(out, "]");
    proof {
        assert(frags(out.deep_view()) =~= frags(old(out).deep_view()) + (lit("\"attributes\":["@)
            + key_values_wire(attrs.deep_view()) + lit("]"@)));
    }
}

/// Appends a droppedAttributesCount field.
fn write_dropped_field(out: &mut Vec<JsonPiece>, dropped: u64)
    ensures
        frags(final(out).deep_view()) == frags(old(out).deep_view()) + lit(
            "\"droppedAttributesCount\":"@ + dec_str(dropped as nat),
        ),
{
    push_lit(out, "\"droppedAttributesCount\":");
    let mut numstr = String::new();
    push_dec_u64(&mut numstr, dropped);
    push_text(out, numstr);
    proof {
        lemma_lit_add("\"droppedAttributesCount\":"@, dec_str(dropped as nat));
        assert(frags(out.deep_view()) =~= frags(old(out).deep_view()) + lit(
            "\"droppedAttributesCount\":"@ + dec_str(dropped as nat),
        ));
    }
}

/// Serializes a scope into wire pieces.
#[verifier::rlimit(100)]
#[verifier::spinoff_prover]
pub fn scope_json_pieces(scope: &Scope) -> (r: Vec<JsonPiece>)
    ensures
        frags(r.deep_view()) == scope_wire(
            scope.name@,
            scope.version.deep_view(),
            scope.attributes.deep_view(),
            scope.dropped_attributes_count,
        ),
{
    let mut out: Vec<JsonPiece> = Vec::new();
    proof {
        assert(out.deep_view() =~= Seq::<PieceModel>::empty());
    }
    let ghost mut fields: Seq<Seq<JsonFrag>> = Seq::empty();
    push_lit(&mut out, "{");
    let mut first = true;
    proof {
        assert(frags(out.deep_view()) =~= lit("{"@) + join_fields(fields));
    }
    if !scope.name.as_str().is_empty() {
        write_scope_name(&mut out, &scope.name);
        first = false;
        proof {
            let f = lit("\"name\":\""@ + escape(scope.name@) + "\""@);
            lemma_join_fields_push(fields, f);
            fields = fields.push(f);
            assert(frags(out.deep_view()) =~= lit("{"@) + join_fields(fields));
        }
    }
    match &scope.version {
        Option::Some(ver) => {
            if !first {
                push_lit(&mut out, ",");
            }
            write_scope_version(&mut out, ver);
            first = false;
            proof {
                let f = lit("\"version\":\""@ + escape(ver@) + "\""@);
                lemma_join_fields_push(fields, f);
                fields = fields.push(f);
                assert(frags(out.deep_view()) =~= lit("{"@) + join_fields(fields));
            }
        },
        Option::None => {},
    }
    if scope.attributes.len() > 0 {
        if !first {
            push_lit(&mut out, ",");
        }
        write_attributes_field(&mut out, &scope.attributes);
        first = false;
        proof {
            let f = lit("\"attributes\":["@) + key_values_wire(scope.attributes.deep_view())
                + lit("]"@);
            lemma_join_fields_push(fields, f);
            fields = fields.push(f);
            assert(frags(out.deep_view()) =~= lit("{"@) + join_fields(fields));
        }
    }
    if !crate::is_zero(&scope.dropped_attributes_count) {
        if !first {
            push_lit(&mut out, ",");
        }
        write_dropped_field(&mut out, scope.dropped_attributes_count);
        proof {
            let f = lit(
                "\"droppedAttributesCount\":"@ + dec_str(scope.dropped_attributes_count as nat),
            );
            lemma_join_fields_push(fields, f);
            fields = fields.push(f);
            assert(frags(out.deep_view()) =~= lit("{"@) + join_fields(fields));
        }
    }
    push_lit(&mut out, "}");
    proof {
        assert(fields =~~= scope_fields(
            scope.name@,
            scope.version.deep_view(),
            scope.attributes.deep_view(),
            scope.dropped_attributes_count,
        ));
        assert(frags(out.deep_view()) =~= scope_wire(
            scope.name@,
            scope.version.deep_view(),
            scope.attributes.deep_view(),
            scope.dropped_attributes_count,
        ));
    }
    out
}

/// A piece holding a double slot keeps the output from being plain text.
proof fn lemma_frags_has_double(ps: Seq<PieceModel>, i: int)
    requires
        0 <= i < ps.len(),
        ps[i] is Double,
    ensures
        !all_text(frags(ps)),
    decreases ps.len(),
{
    let pre = frags(ps.drop_last());
    let fp = frags_of_piece(ps.last());
    if i == ps.len() - 1 {
        assert(fp.len() == 1 && fp[0] is Dbl);
        assert(frags(ps)[pre.len() as int] == fp[0]);
        assert(!(frags(ps)[pre.len() as int] is Ch));
    } else {
        lemma_frags_has_double(ps.drop_last(), i);
        let j = choose|j: int| 0 <= j < pre.len() && !(pre[j] is Ch);
        assert(frags(ps)[j] == pre[j]);
        assert(!(frags(ps)[j] is Ch));
    }
}

/// When every piece is text, every fragment is a character.
proof fn lemma_frags_all_text(ps: Seq<PieceModel>)
    requires
        forall|j: int| 0 <= j < ps.len() ==> ps[j] is Text,
    ensures
        all_text(frags(ps)),
    decreases ps.len(),
{
    if ps.len() > 0 {
        lemma_frags_all_text(ps.drop_last());
        let pre = frags(ps.drop_last());
        let fp = frags_of_piece(ps.last());
        assert(ps[ps.len() - 1] is Text);
        assert forall|i: int| 0 <= i < frags(ps).len() implies frags(ps)[i] is Ch by {
            if i < pre.len() {
                assert(frags(ps)[i] == pre[i]);
            } else {
                assert(frags(ps)[i] == fp[i - pre.len()]);
            }
        }
    }
}

/// Joins the pieces into one plain string: `Some` exactly when no double
/// slot remains, and then the text is the fragments character for character.
pub fn pieces_to_string(pieces: &Vec<JsonPiece>) -> (r: Option<String>)
    ensures
        r is Some <==> all_text(frags(pieces.deep_view())),
        r matches Some(s) ==> s@ == text_of(frags(pieces.deep_view())),
{
    let mut acc = String::new();
    let n = pieces.len();
    let mut idx: usize = 0;
    while idx < n
        invariant
            n == pieces@.len(),
            idx <= n,
            forall|j: int| 0 <= j < idx ==> pieces.deep_view()[j] is Text,
            acc@ == text_of(frags(pieces.deep_view().take(idx as int))),
        decreases n - idx,
    {
        let piece = &pieces[idx];
        match piece {
            JsonPiece::Text(s) => {
                acc.append(s.as_str());
                proof {
                    let taken = pieces.deep_view().take(idx as int);
                    let taken1 = pieces.deep_view().take(idx as int + 1);
                    assert(taken1.drop_last() =~= taken);
                    assert(taken1.last() == pieces.deep_view()[idx as int]);
                    assert(pieces.deep_view()[idx as int] == PieceModel::Text(s@));
                    lemma_text_of_add(frags(taken), lit(s@));
                    lemma_text_of_lit(s@);
                    assert(acc@ =~= text_of(frags(taken1)));
                }
            },
            JsonPiece::Double(_) => {
                proof {
                    lemma_frags_has_double(pieces.deep_view(), idx as int);
                }
                return None;
            },
        }
        idx = idx + 1;
    }
    proof {
        assert(pieces.deep_view().take(n as int) =~= pieces.deep_view());
        lemma_frags_all_text(pieces.deep_view());
    }
    Some(acc)
}

/// Serializes one value to text; `None` exactly when a double occurs in it.
pub fn value_json(v: &Value) -> (r: Option<String>)
    ensures
        r is Some <==> all_text(value_wire(v@)),
        r matches Some(s) ==> s@ == text_of(value_wire(v@)),
{
    let mut pieces: Vec<JsonPiece> = Vec::new();
    proof {
        assert(pieces.deep_view() =~= Seq::<PieceModel>::empty());
    }
    write_value(v, &mut pieces);
    proof {
        assert(frags(pieces.deep_view()) =~= value_wire(v@));
    }
    pieces_to_string(&pieces)
}

/// Serializes one (key, value) pair to text; `None` exactly when a double
/// occurs in its value.
pub fn key_value_json(kv: &KeyValue) -> (r: Option<String>)
    ensures
        r is Some <==> all_text(key_value_wire(kv@)),
        r matches Some(s) ==> s@ == text_of(key_value_wire(kv@)),
{
    let mut pieces: Vec<JsonPiece> = Vec::new();
    proof {
        assert(pieces.deep_view() =~= Seq::<PieceModel>::empty());
    }
    write_key_value(kv, &mut pieces);
    proof {
        assert(frags(pieces.deep_view()) =~= key_value_wire(kv@));
    }
    pieces_to_string(&pieces)
}

/// Serializes a resource to text; `None` exactly when a double occurs in its
/// attributes.
pub fn resource_json(resource: &Resource) -> (r: Option<String>)
    ensures
        r is Some <==> all_text(resource_wire(
            resource.attributes.deep_view(),
            resource.dropped_attributes_count,
        )),
        r matches Some(s) ==> s@ == text_of(resource_wire(
            resource.attributes.deep_view(),
            resource.dropped_attributes_count,
        )),
{
    let pieces = resource_json_pieces(resource);
    pieces_to_string(&pieces)
}

/// Serializes a scope to text; `None` exactly when a double occurs in its
/// attributes.
pub fn scope_json(scope: &Scope) -> (r: Option<String>)
    ensures
        r is Some <==> all_text(scope_wire(
            scope.name@,
            scope.version.deep_view(),
            scope.attributes.deep_view(),
            scope.dropped_attributes_count,
        )),
        r matches Some(s) ==> s@ == text_of(scope_wire(
            scope.name@,
            scope.version.deep_view(),
            scope.attributes.deep_view(),
            scope.dropped_attributes_count,
        )),
{
    let pieces = scope_json_pieces(scope);
    pieces_to_string(&pieces)
}

} // verus!
