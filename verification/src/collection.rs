//! The attribute collection: an ordered mapping from key to value, keys
//! unique and sorted lexicographically. Conversion collapses the source's
//! insertion-order pairs (duplicate keys allowed, last write wins) into this
//! canonical order for deterministic, diff-friendly output.

use vstd::prelude::*;

use crate::source::{SourceKeyValue, SourceKeyValueModel};
use crate::values::{convert_value, KeyValue, KeyValueModel, ValueModel};

verus! {

/// Strict lexicographic order on key strings, by Unicode scalar value; the
/// order Rust gives `str` and the order a key-sorted map iterates in.
pub open spec fn lex_lt(a: Seq<char>, b: Seq<char>) -> bool
    decreases a.len(),
{
    if b.len() == 0 {
        false
    } else if a.len() == 0 {
        true
    } else if a[0] < b[0] {
        true
    } else if a[0] == b[0] {
        lex_lt(a.drop_first(), b.drop_first())
    } else {
        false
    }
}

/// The order is irreflexive.
pub proof fn lemma_lex_irrefl(a: Seq<char>)
    ensures
        !lex_lt(a, a),
    decreases a.len(),
{
    if a.len() > 0 {
        lemma_lex_irrefl(a.drop_first());
    }
}

/// Any two keys are comparable: below, above, or the same string.
pub proof fn lemma_lex_connex(a: Seq<char>, b: Seq<char>)
    ensures
        lex_lt(a, b) || lex_lt(b, a) || a == b,
    decreases a.len(),
{
    if a.len() == 0 && b.len() == 0 {
        assert(a =~= b);
    } else if a.len() > 0 && b.len() > 0 {
        if a[0] == b[0] {
            lemma_lex_connex(a.drop_first(), b.drop_first());
            if !lex_lt(a, b) && !lex_lt(b, a) {
                assert(a.drop_first() == b.drop_first());
                assert(a =~= b) by {
                    assert(forall|i: int|
                        1 <= i < a.len() ==> a[i] == a.drop_first()[i - 1] && b[i]
                            == b.drop_first()[i - 1]);
                }
            }
        }
    }
}

/// The order is transitive.
pub proof fn lemma_lex_trans(a: Seq<char>, b: Seq<char>, c: Seq<char>)
    requires
        lex_lt(a, b),
        lex_lt(b, c),
    ensures
        lex_lt(a, c),
    decreases a.len(),
{
    if a.len() > 0 && b.len() > 0 && c.len() > 0 && a[0] == b[0] && b[0] == c[0] {
        lemma_lex_trans(a.drop_first(), b.drop_first(), c.drop_first());
    }
}

/// Comparing two strings that agree on their first `i` characters is
/// comparing what remains of each.
proof fn lemma_lex_skip(a: Seq<char>, b: Seq<char>, i: int)
    requires
        0 <= i <= a.len(),
        i <= b.len(),
        forall|j: int| 0 <= j < i ==> a[j] == b[j],
    ensures
        lex_lt(a, b) == lex_lt(a.skip(i), b.skip(i)),
    decreases i,
{
    if i > 0 {
        assert(a.drop_first() =~= a.skip(1));
        assert(b.drop_first() =~= b.skip(1));
        lemma_lex_skip(a.skip(1), b.skip(1), i - 1);
        assert(a.skip(1).skip(i - 1) =~= a.skip(i));
        assert(b.skip(1).skip(i - 1) =~= b.skip(i));
    } else {
        assert(a.skip(0) =~= a);
        assert(b.skip(0) =~= b);
    }
}

/// Decides `lex_lt` on two key strings.
pub fn key_lt(a: &String, b: &String) -> (r: bool)
    ensures
        r == lex_lt(a@, b@),
{
    let alen = a.as_str().unicode_len();
    let blen = b.as_str().unicode_len();
    let mut i: usize = 0;
    while i < alen && i < blen
        invariant
            alen == a@.len(),
            blen == b@.len(),
            i <= alen,
            i <= blen,
            forall|j: int| 0 <= j < i ==> a@[j] == b@[j],
        decreases alen - i,
    {
        let ca = a.as_str().get_char(i);
        let cb = b.as_str().get_char(i);
        if ca != cb {
            proof {
                lemma_lex_skip(a@, b@, i as int);
            }
            return ca < cb;
        }
        i = i + 1;
    }
    proof {
        lemma_lex_skip(a@, b@, i as int);
    }
    alen < blen
}

/// Keys strictly increase along the sequence: sorted, and all distinct.
pub open spec fn sorted_keys(s: Seq<KeyValueModel>) -> bool {
    forall|i: int, j: int| 0 <= i < j < s.len() ==> lex_lt(s[i].key, s[j].key)
}

/// No key occurs twice.
pub open spec fn unique_keys(s: Seq<KeyValueModel>) -> bool {
    forall|i: int, j: int| 0 <= i < j < s.len() ==> s[i].key != s[j].key
}

/// Strictly sorted keys are unique.
pub proof fn lemma_sorted_unique(s: Seq<KeyValueModel>)
    requires
        sorted_keys(s),
    ensures
        unique_keys(s),
{
    assert forall|i: int, j: int| 0 <= i < j < s.len() implies s[i].key != s[j].key by {
        lemma_lex_irrefl(s[i].key);
    }
}

/// The mapping a pair sequence stands for: each pair inserted in order, so a
/// later occurrence of a key overrides an earlier one.
pub open spec fn entries(s: Seq<KeyValueModel>) -> Map<Seq<char>, ValueModel>
    decreases s.len(),
{
    if s.len() == 0 {
        Map::empty()
    } else {
        entries(s.drop_last()).insert(s.last().key, s.last().value)
    }
}

/// The mapping that a source pair sequence collapses to after conversion:
/// standard map semantics, the last write to a key wins.
pub open spec fn collapse(pairs: Seq<SourceKeyValueModel>) -> Map<Seq<char>, ValueModel>
    decreases pairs.len(),
{
    if pairs.len() == 0 {
        Map::empty()
    } else {
        collapse(pairs.drop_last()).insert(
            pairs.last().key,
            convert_value(pairs.last().value),
        )
    }
}

/// Each key that occurs among the source pairs ends up in the collapsed
/// mapping, and no other key does.
pub proof fn lemma_collapse_dom(pairs: Seq<SourceKeyValueModel>, k: Seq<char>)
    ensures
        collapse(pairs).contains_key(k) <==> (exists|i: int|
            0 <= i < pairs.len() && pairs[i].key == k),
    decreases pairs.len(),
{
    if pairs.len() > 0 {
        let rest = pairs.drop_last();
        lemma_collapse_dom(rest, k);
        if k == pairs.last().key {
            assert(pairs[pairs.len() - 1].key == k);
        } else {
            if collapse(pairs).contains_key(k) {
                let i = choose|i: int| 0 <= i < rest.len() && rest[i].key == k;
                assert(pairs[i].key == k);
            }
            if exists|i: int| 0 <= i < pairs.len() && pairs[i].key == k {
                let i = choose|i: int| 0 <= i < pairs.len() && pairs[i].key == k;
                assert(rest[i].key == k);
            }
        }
    }
}

/// The last write to a key wins: the pair at `i`, when no later pair carries
/// the same key, decides that key's converted value in the collapsed mapping.
pub proof fn lemma_collapse_last_occurrence(pairs: Seq<SourceKeyValueModel>, i: int)
    requires
        0 <= i < pairs.len(),
        forall|j: int| i < j < pairs.len() ==> pairs[j].key != pairs[i].key,
    ensures
        collapse(pairs).contains_key(pairs[i].key),
        collapse(pairs)[pairs[i].key] == convert_value(pairs[i].value),
    decreases pairs.len(),
{
    if i < pairs.len() - 1 {
        let rest = pairs.drop_last();
        assert(forall|j: int| i < j < rest.len() ==> rest[j].key != rest[i].key);
        lemma_collapse_last_occurrence(rest, i);
        assert(pairs.last().key != pairs[i].key);
    }
}

/// With unique keys, `entries` reads off directly: its domain is the key set
/// and each key maps to the value beside it.
pub proof fn lemma_entries_unique(s: Seq<KeyValueModel>)
    requires
        unique_keys(s),
    ensures
        forall|k: Seq<char>| #[trigger]
            entries(s).contains_key(k) <==> (exists|i: int| 0 <= i < s.len() && s[i].key == k),
        forall|i: int| 0 <= i < s.len() ==> #[trigger] entries(s)[s[i].key] == s[i].value,
    decreases s.len(),
{
    if s.len() > 0 {
        lemma_entries_unique(s.drop_last());
        assert(forall|i: int| 0 <= i < s.len() - 1 ==> s.drop_last()[i] == s[i]);
        assert forall|i: int| 0 <= i < s.len() implies #[trigger] entries(s)[s[i].key]
            == s[i].value by {
            if i < s.len() - 1 {
                assert(s[i].key != s.last().key);
            }
        }
        assert forall|k: Seq<char>| #[trigger] entries(s).contains_key(k) implies (exists|i: int|
            0 <= i < s.len() && s[i].key == k) by {
            if k == s.last().key {
                assert(s[s.len() - 1].key == k);
            } else {
                let i = choose|i: int| 0 <= i < s.len() - 1 && s.drop_last()[i].key == k;
                assert(s[i].key == k);
            }
        }
    }
}

/// Keys below one another are different strings.
pub proof fn lemma_lex_ne(a: Seq<char>, b: Seq<char>)
    requires
        lex_lt(a, b),
    ensures
        a != b,
{
    lemma_lex_irrefl(a);
}

/// The first position whose key is not below `key`; every key before it is.
fn lower_bound(list: &Vec<KeyValue>, key: &String) -> (j: usize)
    ensures
        j <= list@.len(),
        forall|i: int| 0 <= i < j ==> lex_lt(list.deep_view()[i].key, key@),
        j < list@.len() ==> !lex_lt(list.deep_view()[j as int].key, key@),
{
    let mut j: usize = 0;
    while j < list.len()
        invariant
            j <= list@.len(),
            forall|i: int| 0 <= i < j ==> lex_lt(list.deep_view()[i].key, key@),
        ensures
            j <= list@.len(),
            forall|i: int| 0 <= i < j ==> lex_lt(list.deep_view()[i].key, key@),
            j < list@.len() ==> !lex_lt(list.deep_view()[j as int].key, key@),
        decreases list@.len() - j,
    {
        let below = key_lt(&list[j].key.0, key);
        if !below {
            break;
        }
        j = j + 1;
    }
    j
}

/// Inserts one converted pair into a key-sorted list: an entry with the same
/// key is replaced — the last write wins — and a new key enters at its sorted
/// position.
fn upsert(list: &mut Vec<KeyValue>, kv: KeyValue)
    requires
        sorted_keys(old(list).deep_view()),
    ensures
        sorted_keys(final(list).deep_view()),
        entries(final(list).deep_view()) == entries(old(list).deep_view()).insert(
            kv@.key,
            kv@.value,
        ),
        final(list)@.len() <= old(list)@.len() + 1,
{
    let ghost s_old = list.deep_view();
    let ghost k = kv@.key;
    let ghost v = kv@.value;
    let position = lower_bound(&*list, &kv.key.0);
    let mut replaced = false;
    if position < list.len() {
        let above = key_lt(&kv.key.0, &list[position].key.0);
        if !above {
            proof {
                lemma_lex_connex(k, s_old[position as int].key);
            }
            list.remove(position);
            replaced = true;
        }
    }
    let ghost s_mid = list.deep_view();
    list.insert(position, kv);
    proof {
        let p = position as int;
        let s_new = list.deep_view();
        lemma_sorted_unique(s_old);
        lemma_entries_unique(s_old);
        if replaced {
            assert(s_old[p].key == k);
            assert(s_mid =~= s_old.remove(p));
            assert(s_new =~= s_old.update(p, kv@)) by {
                s_old.remove_ensures(p);
                s_mid.insert_ensures(p, kv@);
            }
            assert forall|i: int, j: int| 0 <= i < j < s_new.len() implies lex_lt(
                s_new[i].key,
                s_new[j].key,
            ) by {
                assert(s_new[i].key == s_old[i].key);
                assert(s_new[j].key == s_old[j].key);
            }
            lemma_sorted_unique(s_new);
            lemma_entries_unique(s_new);
            assert forall|kk: Seq<char>|
                #![auto]
                entries(s_new).contains_key(kk) == entries(s_old).insert(k, v).contains_key(
                    kk,
                ) by {
                if entries(s_new).contains_key(kk) {
                    let i = choose|i: int| 0 <= i < s_new.len() && s_new[i].key == kk;
                    assert(s_old[i].key == kk);
                }
                if entries(s_old).contains_key(kk) {
                    let i = choose|i: int| 0 <= i < s_old.len() && s_old[i].key == kk;
                    assert(s_new[i].key == kk);
                }
                if kk == k {
                    assert(s_new[p].key == kk);
                }
            }
            assert forall|kk: Seq<char>| #[trigger]
                entries(s_new).contains_key(kk) implies entries(s_new)[kk] == entries(
                s_old,
            ).insert(k, v)[kk] by {
                let i = choose|i: int| 0 <= i < s_new.len() && s_new[i].key == kk;
                assert(entries(s_new)[s_new[i].key] == s_new[i].value);
                if i == p {
                    assert(entries(s_new)[kk] == v);
                } else {
                    assert(s_new[i] == s_old[i]);
                    assert(s_old[i].key != k) by {
                        assert(s_old[p].key == k);
                    }
                    assert(entries(s_old)[s_old[i].key] == s_old[i].value);
                }
            }
            assert(entries(s_new) =~= entries(s_old).insert(k, v));
        } else {
            assert(s_mid == s_old);
            assert(p < s_old.len() ==> lex_lt(k, s_old[p].key));
            assert(s_new =~= s_old.insert(p, kv@));
            s_old.insert_ensures(p, kv@);
            assert forall|i: int, j: int| 0 <= i < j < s_new.len() implies lex_lt(
                s_new[i].key,
                s_new[j].key,
            ) by {
                if i < p && j == p {
                    assert(lex_lt(s_old[i].key, k));
                } else if i == p && j > p {
                    if j - 1 > p {
                        lemma_lex_trans(k, s_old[p].key, s_old[j - 1].key);
                    }
                } else if i < p && j > p {
                    if j - 1 == i {
                        assert(false);
                    } else {
                        assert(lex_lt(s_old[i].key, s_old[j - 1].key));
                    }
                }
            }
            assert forall|i: int| 0 <= i < s_old.len() implies s_old[i].key != k by {
                if i < p {
                    lemma_lex_ne(s_old[i].key, k);
                } else {
                    if i > p {
                        lemma_lex_trans(k, s_old[p].key, s_old[i].key);
                    }
                    lemma_lex_ne(k, s_old[i].key);
                }
            }
            lemma_sorted_unique(s_new);
            lemma_entries_unique(s_new);
            assert forall|kk: Seq<char>|
                #![auto]
                entries(s_new).contains_key(kk) == entries(s_old).insert(k, v).contains_key(
                    kk,
                ) by {
                if entries(s_new).contains_key(kk) {
                    let i = choose|i: int| 0 <= i < s_new.len() && s_new[i].key == kk;
                    if i < p {
                        assert(s_old[i].key == kk);
                    } else if i > p {
                        assert(s_old[i - 1].key == kk);
                    }
                }
                if entries(s_old).contains_key(kk) {
                    let i = choose|i: int| 0 <= i < s_old.len() && s_old[i].key == kk;
                    if i < p {
                        assert(s_new[i].key == kk);
                    } else {
                        assert(s_new[i + 1].key == kk);
                    }
                }
                if kk == k {
                    assert(s_new[p].key == kk);
                }
            }
            assert forall|kk: Seq<char>| #[trigger]
                entries(s_new).contains_key(kk) implies entries(s_new)[kk] == entries(
                s_old,
            ).insert(k, v)[kk] by {
                let i = choose|i: int| 0 <= i < s_new.len() && s_new[i].key == kk;
                assert(entries(s_new)[s_new[i].key] == s_new[i].value);
                if i == p {
                    assert(entries(s_new)[kk] == v);
                } else if i < p {
                    assert(s_new[i] == s_old[i]);
                    assert(entries(s_old)[s_old[i].key] == s_old[i].value);
                } else {
                    assert(s_new[i] == s_old[i - 1]);
                    assert(entries(s_old)[s_old[i - 1].key] == s_old[i - 1].value);
                }
            }
            assert(entries(s_new) =~= entries(s_old).insert(k, v));
        }
    }
}

/// An ordered mapping from attribute key to value: keys unique and sorted,
/// so that output derived from it is deterministic and diff-friendly.
#[derive(Debug, PartialEq)]
pub struct AttributeSet(pub Vec<KeyValue>);

impl View for AttributeSet {
    type V = Seq<KeyValueModel>;

    open spec fn view(&self) -> Seq<KeyValueModel> {
        self.0.deep_view()
    }
}

impl AttributeSet {
    /// Keys strictly increase along the collection.
    pub open spec fn well_formed(&self) -> bool {
        sorted_keys(self@)
    }

    /// Collapses the source's insertion-order pairs — duplicate keys allowed —
    /// into the canonical key-sorted collection: at most one entry per key,
    /// and a key that occurs more than once keeps the value of its last
    /// occurrence, as a map written to in order would.
    pub fn from_source(pairs: Vec<SourceKeyValue>) -> (r: AttributeSet)
        ensures
            r.well_formed(),
            entries(r@) == collapse(pairs.deep_view()),
            r@.len() <= pairs.deep_view().len(),
    {
        let ghost orig = pairs.deep_view();
        let mut rest = pairs;
        let mut list: Vec<KeyValue> = Vec::new();
        proof {
            assert(rest.deep_view() =~= orig.skip(0));
            assert(orig.take(0) =~= Seq::<SourceKeyValueModel>::empty());
            assert(list.deep_view() =~= Seq::<KeyValueModel>::empty());
        }
        while rest.len() > 0
            invariant
                rest.deep_view().len() <= orig.len(),
                rest.deep_view() == orig.skip(orig.len() - rest.deep_view().len()),
                sorted_keys(list.deep_view()),
                entries(list.deep_view()) == collapse(
                    orig.take(orig.len() - rest.deep_view().len()),
                ),
                list.deep_view().len() <= orig.len() - rest.deep_view().len(),
            decreases rest.len(),
        {
            let ghost done = orig.len() - rest.deep_view().len();
            let ghost before = rest@;
            let ghost before_deep = rest.deep_view();
            let kv_src = rest.remove(0);
            proof {
                before.remove_ensures(0);
                assert(forall|j: int| 0 <= j < before.len() ==> before_deep[j] == before[j]@);
                assert(forall|j: int| 0 <= j < rest@.len() ==> rest@[j] == before[j + 1]);
                assert(rest.deep_view() =~= orig.skip(done + 1)) by {
                    assert(forall|j: int|
                        0 <= j < rest@.len() ==> rest.deep_view()[j] == rest@[j]@ && rest@[j]@
                            == before_deep[j + 1] && before_deep[j + 1] == orig.skip(done)[j + 1]
                            && orig.skip(done)[j + 1] == orig[done + 1 + j]);
                }
                assert(kv_src@ == before_deep[0]);
                assert(before_deep[0] == orig.skip(done)[0]);
                assert(kv_src@ == orig[done]);
            }
            let kv = KeyValue::from_source(kv_src);
            upsert(&mut list, kv);
            proof {
                assert(orig.take(done + 1).drop_last() =~= orig.take(done));
                assert(orig.take(done + 1).last() == orig[done]);
            }
        }
        proof {
            assert(orig.take(orig.len() as int) =~= orig);
        }
        AttributeSet(list)
    }
}

} // verus!
