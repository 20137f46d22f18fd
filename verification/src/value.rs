//! The value tree: the sole output type of the engine, a tagged union over
//! the six JSON variants, owning all of its descendants.

use vstd::prelude::*;

verus! {

/// A decoded JSON string: a sequence of Unicode scalar values, with every
/// escape already resolved.
#[derive(Debug, PartialEq, Eq, Clone)]
pub struct JsonString(pub Vec<char>);

impl View for JsonString {
    type V = Seq<char>;

    open spec fn view(&self) -> Seq<char> {
        self.0@
    }
}

/// A JSON number, kept as the exact decimal literal that was consumed from
/// the input. The literal always matches the JSON number grammar; turning it
/// into a machine float is left to the caller.
#[derive(Debug, PartialEq, Eq, Clone)]
pub struct JsonNumber(pub Vec<char>);

impl View for JsonNumber {
    type V = Seq<char>;

    open spec fn view(&self) -> Seq<char> {
        self.0@
    }
}

/// A JSON boolean.
#[derive(Debug, PartialEq, Eq, Clone)]
pub struct JsonBool(pub bool);

/// The JSON `null` literal: a unit value carrying no data.
#[derive(Debug, PartialEq, Eq, Clone)]
pub struct JsonNull;

/// An ordered sequence of values.
#[derive(Debug, PartialEq)]
pub struct JsonArray(pub Vec<JsonValue>);

/// A mapping from string keys to values. Keys are unique; on a duplicate
/// key the later value wins, in the position of the earlier one, so first
/// insertion order is preserved.
#[derive(Debug, PartialEq)]
pub struct JsonObject(pub Vec<(JsonString, JsonValue)>);

/// A JSON value: the tagged union over the six variants.
#[derive(Debug, PartialEq)]
pub enum JsonValue {
    Object(JsonObject),
    Array(JsonArray),
    Str(JsonString),
    Number(JsonNumber),
    Bool(JsonBool),
    Null(JsonNull),
}

/// No two entries share a key.
pub open spec fn keys_unique(entries: Seq<(JsonString, JsonValue)>) -> bool {
    forall|i: int, j: int| 0 <= i < j < entries.len() ==> entries[i].0@ != entries[j].0@
}

/// Every object in the tree has unique keys.
pub open spec fn value_wf(v: JsonValue) -> bool
    decreases v,
{
    match v {
        JsonValue::Object(o) => object_wf(o),
        JsonValue::Array(a) => array_wf(a),
        _ => true,
    }
}

/// Every element of the array is well formed.
pub open spec fn array_wf(a: JsonArray) -> bool
    decreases a,
{
    forall|i: int| 0 <= i < a.0@.len() ==> value_wf(#[trigger] a.0@[i])
}

/// The object's keys are unique and its values are well formed.
pub open spec fn object_wf(o: JsonObject) -> bool
    decreases o,
{
    &&& keys_unique(o.0@)
    &&& forall|i: int| 0 <= i < o.0@.len() ==> value_wf(#[trigger] o.0@[i].1)
}

/// What the object maps `key` to: the value of the entry carrying `key`,
/// if one exists.
pub open spec fn object_get(entries: Seq<(JsonString, JsonValue)>, key: Seq<char>) -> Option<
    JsonValue,
> {
    if exists|i: int| 0 <= i < entries.len() && entries[i].0@ == key {
        Some(entries[choose|i: int| 0 <= i < entries.len() && entries[i].0@ == key].1)
    } else {
        None
    }
}

impl JsonObject {
    /// An object with no entries.
    pub fn empty() -> (r: Self)
        ensures
            r.0@ =~= Seq::<(JsonString, JsonValue)>::empty(),
    {
        JsonObject(Vec::new())
    }

    /// The value stored under `key`, if any.
    pub fn get<'a>(&'a self, key: &JsonString) -> (r: Option<&'a JsonValue>)
        requires
            keys_unique(self.0@),
        ensures
            match object_get(self.0@, key@) {
                Some(v) => r matches Some(rv) && *rv == v,
                None => r is None,
            },
    {
        let n = self.0.len();
        let mut t: usize = 0;
        while t < n
            invariant
                n == self.0@.len(),
                t <= n,
                keys_unique(self.0@),
                forall|u: int| 0 <= u < t ==> self.0@[u].0@ != key@,
            decreases n - t,
        {
            if vec_char_eq(&self.0[t].0 .0, &key.0) {
                proof {
                    lemma_object_get_some(self.0@, t as int, key@);
                }
                return Some(&self.0[t].1);
            }
            t += 1;
        }
        proof {
            assert(!(exists|u: int| 0 <= u < self.0@.len() && self.0@[u].0@ == key@));
        }
        None
    }

    /// Inserts `key -> value`. An entry already carrying `key` is replaced
    /// in place (the last occurrence wins); otherwise the pair is appended.
    pub fn insert(&mut self, key: JsonString, value: JsonValue)
        requires
            keys_unique(old(self).0@),
        ensures
            keys_unique(final(self).0@),
            // the new entry is present
            object_get(final(self).0@, key@) == Some(value),
            // every other key maps exactly as before
            forall|k: Seq<char>|
                k != key@ ==> #[trigger] object_get(final(self).0@, k) == object_get(
                    old(self).0@,
                    k,
                ),
            // replacement happens in place; a fresh key is appended
            (exists|i: int|
                0 <= i < old(self).0@.len() && old(self).0@[i].0@ == key@ && final(self).0@
                    =~= old(self).0@.update(i, (key, value))) || (final(self).0@ =~= old(
                self,
            ).0@.push((key, value)) && forall|i: int|
                0 <= i < old(self).0@.len() ==> old(self).0@[i].0@ != key@),
            // every entry is the new pair or one carried over unchanged
            forall|t: int|
                0 <= t < final(self).0@.len() ==> final(self).0@[t].1 == value || (exists|u: int|
                    0 <= u < old(self).0@.len() && final(self).0@[t] == old(self).0@[u]),
            final(self).0@.len() >= old(self).0@.len(),
    {
        let n = self.0.len();
        let mut i: usize = 0;
        while i < n
            invariant
                n == self.0@.len(),
                i <= n,
                keys_unique(self.0@),
                self.0@ == old(self).0@,
                forall|j: int| 0 <= j < i ==> old(self).0@[j].0@ != key@,
            decreases n - i,
        {
            if vec_char_eq(&self.0[i].0 .0, &key.0) {
                proof {
                    assert(old(self).0@[i as int].0@ == key@);
                }
                self.0.set(i, (key, value));
                proof {
                    let e = final(self).0@;
                    let o = old(self).0@;
                    assert(e =~= o.update(i as int, (key, value)));
                    assert(keys_unique(e)) by {
                        assert(forall|p: int, q: int|
                            0 <= p < q < e.len() ==> e[p].0@ != e[q].0@) by {
                            assert forall|p: int, q: int| 0 <= p < q < e.len() implies e[p].0@
                                != e[q].0@ by {
                                if p == i as int {
                                    assert(e[q].0@ == o[q].0@);
                                    assert(o[i as int].0@ != o[q].0@);
                                } else if q == i as int {
                                    assert(e[p].0@ == o[p].0@);
                                    assert(o[p].0@ != o[i as int].0@);
                                } else {
                                    assert(e[p].0@ == o[p].0@ && e[q].0@ == o[q].0@);
                                }
                            }
                        }
                    }
                    assert(object_get(e, key@) == Some(value)) by {
                        assert(e[i as int].0@ == key@);
                        lemma_object_get_some(e, i as int, key@);
                    }
                    assert forall|k: Seq<char>| k != key@ implies #[trigger] object_get(e, k)
                        == object_get(o, k) by {
                        lemma_object_get_update(o, e, i as int, (key, value), k);
                    }
                    assert forall|t: int| 0 <= t < e.len() implies e[t].1 == value || (exists|u: int|
                        0 <= u < o.len() && e[t] == o[u]) by {
                        if t != i as int {
                            assert(e[t] == o[t]);
                        }
                    }
                }
                return ;
            }
            i += 1;
        }
        self.0.push((key, value));
        proof {
            let e = final(self).0@;
            let o = old(self).0@;
            assert(e =~= o.push((key, value)));
            assert(forall|j: int| 0 <= j < o.len() ==> o[j].0@ != key@);
            assert(keys_unique(e)) by {
                assert forall|p: int, q: int| 0 <= p < q < e.len() implies e[p].0@ != e[q].0@ by {
                    if q == o.len() as int {
                        assert(e[p].0@ == o[p].0@);
                    } else {
                        assert(e[p].0@ == o[p].0@ && e[q].0@ == o[q].0@);
                    }
                }
            }
            assert(object_get(e, key@) == Some(value)) by {
                assert(e[o.len() as int].0@ == key@);
                lemma_object_get_some(e, o.len() as int, key@);
            }
            assert forall|k: Seq<char>| k != key@ implies #[trigger] object_get(e, k)
                == object_get(o, k) by {
                lemma_object_get_push(o, e, (key, value), k);
            }
            assert forall|t: int| 0 <= t < e.len() implies e[t].1 == value || (exists|u: int|
                0 <= u < o.len() && e[t] == o[u]) by {
                if t < o.len() {
                    assert(e[t] == o[t]);
                }
            }
        }
    }
}

/// With unique keys, an entry carrying `k` at index `w` is what lookup of
/// `k` returns.
proof fn lemma_object_get_some(entries: Seq<(JsonString, JsonValue)>, w: int, k: Seq<char>)
    requires
        keys_unique(entries),
        0 <= w < entries.len(),
        entries[w].0@ == k,
    ensures
        object_get(entries, k) == Some(entries[w].1),
{
    assert(exists|i: int| 0 <= i < entries.len() && entries[i].0@ == k);
    let c = choose|i: int| 0 <= i < entries.len() && entries[i].0@ == k;
    assert(0 <= c < entries.len() && entries[c].0@ == k);
    if c < w {
        assert(entries[c].0@ != entries[w].0@);
    } else if w < c {
        assert(entries[w].0@ != entries[c].0@);
    }
}

/// After replacing entry `i` (whose key differs from `k`), lookups of `k`
/// are unchanged.
proof fn lemma_object_get_update(
    o: Seq<(JsonString, JsonValue)>,
    e: Seq<(JsonString, JsonValue)>,
    i: int,
    pair: (JsonString, JsonValue),
    k: Seq<char>,
)
    requires
        keys_unique(o),
        keys_unique(e),
        0 <= i < o.len(),
        e == o.update(i, pair),
        k != pair.0@,
        o[i].0@ != k,
    ensures
        object_get(e, k) == object_get(o, k),
{
    assert(e.len() == o.len());
    assert forall|t: int| 0 <= t < e.len() && t != i implies e[t] == o[t] by {}
    if exists|t: int| 0 <= t < o.len() && o[t].0@ == k {
        let w = choose|t: int| 0 <= t < o.len() && o[t].0@ == k;
        assert(w != i);
        assert(e[w].0@ == k);
        lemma_object_get_some(o, w, k);
        lemma_object_get_some(e, w, k);
    } else {
        assert forall|t: int| 0 <= t < e.len() implies e[t].0@ != k by {
            if t != i {
                assert(e[t] == o[t]);
                assert(o[t].0@ != k);
            }
        }
        assert(!(exists|t: int| 0 <= t < e.len() && e[t].0@ == k));
    }
}

/// After appending an entry whose key differs from `k`, lookups of `k` are
/// unchanged.
proof fn lemma_object_get_push(
    o: Seq<(JsonString, JsonValue)>,
    e: Seq<(JsonString, JsonValue)>,
    pair: (JsonString, JsonValue),
    k: Seq<char>,
)
    requires
        keys_unique(o),
        keys_unique(e),
        e == o.push(pair),
        k != pair.0@,
    ensures
        object_get(e, k) == object_get(o, k),
{
    assert(e.len() == o.len() + 1);
    assert forall|t: int| 0 <= t < o.len() implies e[t] == o[t] by {}
    assert(e[o.len() as int].0@ != k);
    if exists|t: int| 0 <= t < o.len() && o[t].0@ == k {
        let w = choose|t: int| 0 <= t < o.len() && o[t].0@ == k;
        assert(e[w].0@ == k);
        lemma_object_get_some(o, w, k);
        lemma_object_get_some(e, w, k);
    } else {
        assert forall|t: int| 0 <= t < e.len() implies e[t].0@ != k by {
            if t < o.len() {
                assert(e[t] == o[t]);
                assert(o[t].0@ != k);
            }
        }
        assert(!(exists|t: int| 0 <= t < e.len() && e[t].0@ == k));
    }
}

/// Character-by-character equality of two character vectors.
pub fn vec_char_eq(a: &Vec<char>, b: &Vec<char>) -> (r: bool)
    ensures
        r == (a@ == b@),
{
    if a.len() != b.len() {
        assert(a@ != b@) by {
            assert(a@.len() != b@.len());
        }
        return false;
    }
    let n = a.len();
    let mut i: usize = 0;
    while i < n
        invariant
            n == a@.len(),
            n == b@.len(),
            i <= n,
            forall|j: int| 0 <= j < i ==> a@[j] == b@[j],
        decreases n - i,
    {
        if a[i] != b[i] {
            return false;
        }
        i += 1;
    }
    proof {
        assert(a@ =~= b@);
    }
    true
}

} // verus!
