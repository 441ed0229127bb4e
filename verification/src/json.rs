//! JSON values as the library reads and builds them.
#[allow(unused_imports)]
use vstd::prelude::*;
#[allow(unused_imports)]
use vstd::string::*;

use crate::text;
use crate::text::{before, same};

verus! {

/// A JSON number. A number with a fraction or exponent is held by its canonical
/// text, and its value is read where a database or a codec needs it.
#[derive(Debug, PartialEq, Eq)]
pub enum JsonNumber {
    PosInt(u64),
    NegInt(i64),
    Float(String),
}

/// A JSON value. The entries of an object are in ascending key order.
#[derive(Debug, PartialEq, Eq)]
pub enum Json {
    Null,
    Bool(bool),
    Number(JsonNumber),
    String(String),
    Array(Vec<Json>),
    Object(Vec<(String, Json)>),
}

/// The mathematical form of a number.
pub enum NumberV {
    PosInt(u64),
    NegInt(i64),
    Float(Seq<char>),
}

/// The mathematical form of a JSON value.
pub enum JsonV {
    Null,
    Bool(bool),
    Number(NumberV),
    String(Seq<char>),
    Array(Seq<JsonV>),
    Object(Seq<(Seq<char>, JsonV)>),
}

impl View for JsonNumber {
    type V = NumberV;

    open spec fn view(&self) -> NumberV {
        match self {
            JsonNumber::PosInt(n) => NumberV::PosInt(*n),
            JsonNumber::NegInt(n) => NumberV::NegInt(*n),
            JsonNumber::Float(s) => NumberV::Float(s@),
        }
    }
}

/// The view of a value.
pub open spec fn json_view(j: Json) -> JsonV
    decreases j,
{
    match j {
        Json::Null => JsonV::Null,
        Json::Bool(b) => JsonV::Bool(b),
        Json::Number(n) => JsonV::Number(n@),
        Json::String(s) => JsonV::String(s@),
        Json::Array(v) => JsonV::Array(
            Seq::new(
                v@.len(),
                |i: int|
                    if 0 <= i < v@.len() {
                        json_view(v@[i])
                    } else {
                        JsonV::Null
                    },
            ),
        ),
        Json::Object(v) => JsonV::Object(
            Seq::new(
                v@.len(),
                |i: int|
                    if 0 <= i < v@.len() {
                        (v@[i].0@, json_view(v@[i].1))
                    } else {
                        (Seq::empty(), JsonV::Null)
                    },
            ),
        ),
    }
}

impl View for Json {
    type V = JsonV;

    open spec fn view(&self) -> JsonV {
        json_view(*self)
    }
}

/// The views of a sequence of values.
pub open spec fn json_views(v: Seq<Json>) -> Seq<JsonV> {
    Seq::new(v.len(), |i: int| v[i]@)
}

/// The views of a sequence of object entries.
pub open spec fn entry_views(v: Seq<(String, Json)>) -> Seq<(Seq<char>, JsonV)> {
    Seq::new(v.len(), |i: int| (v[i].0@, v[i].1@))
}

/// The view of an array or object in terms of the views of its parts.
pub broadcast proof fn lemma_json_view(j: Json)
    ensures
        (#[trigger] json_view(j)) == (match j {
            Json::Array(v) => JsonV::Array(json_views(v@)),
            Json::Object(v) => JsonV::Object(entry_views(v@)),
            _ => json_view(j),
        }),
{
    match j {
        Json::Array(v) => {
            assert(json_view(j)->Array_0 =~= json_views(v@));
        },
        Json::Object(v) => {
            assert(json_view(j)->Object_0 =~= entry_views(v@));
        },
        _ => {},
    }
}

impl JsonNumber {
    /// A copy of the number.
    pub fn copy(&self) -> (r: JsonNumber)
        ensures
            r@ == self@,
    {
        match self {
            JsonNumber::PosInt(n) => JsonNumber::PosInt(*n),
            JsonNumber::NegInt(n) => JsonNumber::NegInt(*n),
            JsonNumber::Float(s) => JsonNumber::Float(s.clone()),
        }
    }

    /// Whether two numbers are written the same way.
    pub fn same(&self, other: &JsonNumber) -> (r: bool)
        ensures
            r == (self@ == other@),
    {
        match (self, other) {
            (JsonNumber::PosInt(a), JsonNumber::PosInt(b)) => *a == *b,
            (JsonNumber::NegInt(a), JsonNumber::NegInt(b)) => *a == *b,
            (JsonNumber::Float(a), JsonNumber::Float(b)) => *a == *b,
            _ => false,
        }
    }
}

impl Json {
    /// A copy of the value.
    pub fn copy(&self) -> (r: Json)
        ensures
            r@ == self@,
        decreases self,
    {
        broadcast use lemma_json_view;

        match self {
            Json::Null => Json::Null,
            Json::Bool(b) => Json::Bool(*b),
            Json::Number(n) => Json::Number(n.copy()),
            Json::String(s) => Json::String(s.clone()),
            Json::Array(v) => {
                let mut out: Vec<Json> = Vec::new();
                let mut i: usize = 0;
                while i < v.len()
                    invariant
                        i <= v@.len(),
                        *self == Json::Array(*v),
                        out@.len() == i,
                        forall|k: int| 0 <= k < i ==> (#[trigger] out@[k])@ == v@[k]@,
                    decreases v@.len() - i,
                {
                    assert(decreases_to!(*v => v[i as int]));
                    assert(decreases_to!(*self => self->Array_0));
                    let item = v[i].copy();
                    out.push(item);
                    i = i + 1;
                }
                assert(json_views(out@) =~= json_views(v@));
                Json::Array(out)
            },
            Json::Object(v) => {
                let mut out: Vec<(String, Json)> = Vec::new();
                let mut i: usize = 0;
                while i < v.len()
                    invariant
                        i <= v@.len(),
                        *self == Json::Object(*v),
                        out@.len() == i,
                        forall|k: int|
                            0 <= k < i ==> (#[trigger] out@[k]).0@ == v@[k].0@ && out@[k].1@
                                == v@[k].1@,
                    decreases v@.len() - i,
                {
                    assert(decreases_to!(*v => v[i as int]));
                    assert(decreases_to!(v[i as int] => v[i as int].1));
                    assert(decreases_to!(*self => self->Object_0));
                    let item = v[i].1.copy();
                    out.push((v[i].0.clone(), item));
                    i = i + 1;
                }
                assert(entry_views(out@) =~= entry_views(v@));
                Json::Object(out)
            },
        }
    }
}

impl crate::strmap::Copied for Json {
    fn copied(&self) -> (r: Self) {
        self.copy()
    }
}

/// Copies of all the values.
pub fn copy_all(v: &Vec<Json>) -> (r: Vec<Json>)
    ensures
        json_views(r@) == json_views(v@),
{
    let mut out: Vec<Json> = Vec::new();
    let mut i: usize = 0;
    while i < v.len()
        invariant
            i <= v@.len(),
            out@.len() == i,
            forall|k: int| 0 <= k < i ==> (#[trigger] out@[k])@ == v@[k]@,
        decreases v@.len() - i,
    {
        let item = v[i].copy();
        out.push(item);
        i = i + 1;
    }
    assert(json_views(out@) =~= json_views(v@));
    out
}

/// The value of the first entry with the given key.
pub open spec fn entry_of(entries: Seq<(Seq<char>, JsonV)>, key: Seq<char>) -> Option<JsonV>
    decreases entries.len(),
{
    if entries.len() == 0 {
        None
    } else if entries[0].0 == key {
        Some(entries[0].1)
    } else {
        entry_of(entries.drop_first(), key)
    }
}

/// The field of an object; none for a value of another kind.
pub open spec fn field_of(j: JsonV, key: Seq<char>) -> Option<JsonV> {
    match j {
        JsonV::Object(entries) => entry_of(entries, key),
        _ => None,
    }
}

impl Json {
    /// The field of an object.
    pub fn get(&self, key: &str) -> (r: Option<&Json>)
        ensures
            r is Some <==> field_of(self@, key@) is Some,
            r matches Some(v) ==> field_of(self@, key@) == Some(v@),
    {
        broadcast use lemma_json_view;

        match self {
            Json::Object(entries) => {
                let ghost all = entry_views(entries@);
                let mut i: usize = 0;
                assert(all.skip(0) =~= all);
                while i < entries.len()
                    invariant
                        i <= entries@.len(),
                        all == entry_views(entries@),
                        self@ == JsonV::Object(all),
                        entry_of(all, key@) == entry_of(all.skip(i as int), key@),
                    decreases entries@.len() - i,
                {
                    assert(all.skip(i as int).drop_first() =~= all.skip(i as int + 1));
                    assert(all.skip(i as int)[0] == all[i as int]);
                    if same(entries[i].0.as_str(), key) {
                        return Some(&entries[i].1);
                    }
                    i = i + 1;
                }
                None
            },
            _ => None,
        }
    }

    /// Whether two values are equal.
    pub fn same(&self, other: &Json) -> (r: bool)
        ensures
            r == (self@ == other@),
        decreases self,
    {
        broadcast use lemma_json_view;

        match (self, other) {
            (Json::Null, Json::Null) => true,
            (Json::Bool(a), Json::Bool(b)) => *a == *b,
            (Json::Number(a), Json::Number(b)) => a.same(b),
            (Json::String(a), Json::String(b)) => same(a.as_str(), b.as_str()),
            (Json::Array(a), Json::Array(b)) => {
                let ghost x = json_views(a@);
                let ghost y = json_views(b@);
                if a.len() != b.len() {
                    assert(x.len() != y.len());
                    return false;
                }
                let mut i: usize = 0;
                while i < a.len()
                    invariant
                        i <= a@.len(),
                        a@.len() == b@.len(),
                        *self == Json::Array(*a),
                        self@ == JsonV::Array(x),
                        other@ == JsonV::Array(y),
                        x == json_views(a@),
                        y == json_views(b@),
                        forall|k: int| 0 <= k < i ==> x[k] == y[k],
                    decreases a@.len() - i,
                {
                    assert(decreases_to!(*a => a[i as int]));
                    assert(decreases_to!(*self => self->Array_0));
                    if !a[i].same(&b[i]) {
                        assert(x[i as int] != y[i as int]);
                        return false;
                    }
                    i = i + 1;
                }
                assert(x =~= y);
                true
            },
            (Json::Object(a), Json::Object(b)) => {
                let ghost x = entry_views(a@);
                let ghost y = entry_views(b@);
                if a.len() != b.len() {
                    assert(x.len() != y.len());
                    return false;
                }
                let mut i: usize = 0;
                while i < a.len()
                    invariant
                        i <= a@.len(),
                        a@.len() == b@.len(),
                        *self == Json::Object(*a),
                        self@ == JsonV::Object(x),
                        other@ == JsonV::Object(y),
                        x == entry_views(a@),
                        y == entry_views(b@),
                        forall|k: int| 0 <= k < i ==> x[k] == y[k],
                    decreases a@.len() - i,
                {
                    assert(decreases_to!(*a => a[i as int]));
                    assert(decreases_to!(a[i as int] => a[i as int].1));
                    assert(decreases_to!(*self => self->Object_0));
                    if !same(a[i].0.as_str(), b[i].0.as_str()) || !a[i].1.same(&b[i].1) {
                        assert(x[i as int] != y[i as int]);
                        return false;
                    }
                    i = i + 1;
                }
                assert(x =~= y);
                true
            },
            _ => false,
        }
    }
}

/// The entries with `key` set to `v`: replaced where the key is there, else
/// inserted before the first greater key.
pub open spec fn entry_put(entries: Seq<(Seq<char>, JsonV)>, key: Seq<char>, v: JsonV) -> Seq<
    (Seq<char>, JsonV),
>
    decreases entries.len(),
{
    if entries.len() == 0 {
        seq![(key, v)]
    } else if entries[0].0 == key {
        seq![(key, v)] + entries.drop_first()
    } else if text::chars_lt(key, entries[0].0) {
        seq![(key, v)] + entries
    } else {
        seq![entries[0]] + entry_put(entries.drop_first(), key, v)
    }
}

/// The entries without `key`.
pub open spec fn entry_drop(entries: Seq<(Seq<char>, JsonV)>, key: Seq<char>) -> Seq<
    (Seq<char>, JsonV),
>
    decreases entries.len(),
{
    if entries.len() == 0 {
        Seq::empty()
    } else if entries[0].0 == key {
        entry_drop(entries.drop_first(), key)
    } else {
        seq![entries[0]] + entry_drop(entries.drop_first(), key)
    }
}

/// What was set is read back, and nothing else changes.
pub proof fn law_put_then_get(
    entries: Seq<(Seq<char>, JsonV)>,
    key: Seq<char>,
    v: JsonV,
    other: Seq<char>,
)
    ensures
        entry_of(entry_put(entries, key, v), other) == (if other == key {
            Some(v)
        } else {
            entry_of(entries, other)
        }),
    decreases entries.len(),
{
    let out = entry_put(entries, key, v);
    if entries.len() == 0 {
        assert(out.drop_first() =~= Seq::<(Seq<char>, JsonV)>::empty());
        reveal_with_fuel(entry_of, 2);
    } else if entries[0].0 == key {
        assert(out.drop_first() =~= entries.drop_first());
    } else if text::chars_lt(key, entries[0].0) {
        assert(out.drop_first() =~= entries);
    } else {
        law_put_then_get(entries.drop_first(), key, v, other);
        assert(out.drop_first() =~= entry_put(entries.drop_first(), key, v));
    }
}

/// A key that was dropped is gone, and nothing else changes.
pub proof fn law_drop_then_get(
    entries: Seq<(Seq<char>, JsonV)>,
    key: Seq<char>,
    other: Seq<char>,
)
    ensures
        entry_of(entry_drop(entries, key), other) == (if other == key {
            None
        } else {
            entry_of(entries, other)
        }),
    decreases entries.len(),
{
    if entries.len() > 0 {
        law_drop_then_get(entries.drop_first(), key, other);
        if entries[0].0 != key {
            assert(entry_drop(entries, key).drop_first() =~= entry_drop(entries.drop_first(), key));
        }
    }
}

/// Dropping a key forgets what was set under it.
pub proof fn law_drop_forgets_put(entries: Seq<(Seq<char>, JsonV)>, key: Seq<char>, v: JsonV)
    ensures
        entry_drop(entry_put(entries, key, v), key) == entry_drop(entries, key),
    decreases entries.len(),
{
    let out = entry_put(entries, key, v);
    if entries.len() == 0 {
        assert(out.drop_first() =~= Seq::<(Seq<char>, JsonV)>::empty());
        reveal_with_fuel(entry_drop, 2);
    } else if entries[0].0 == key {
        assert(out.drop_first() =~= entries.drop_first());
    } else if text::chars_lt(key, entries[0].0) {
        assert(out.drop_first() =~= entries);
    } else {
        law_drop_forgets_put(entries.drop_first(), key, v);
        assert(out.drop_first() =~= entry_put(entries.drop_first(), key, v));
    }
}

/// The keys of the entries ascend.
pub open spec fn ordered(entries: Seq<(Seq<char>, JsonV)>) -> bool {
    forall|i: int, j: int|
        0 <= i < j < entries.len() ==> #[trigger] text::chars_lt(entries[i].0, entries[j].0)
}

/// Setting a key keeps the entries in ascending key order.
pub proof fn law_put_keeps_order(entries: Seq<(Seq<char>, JsonV)>, key: Seq<char>, v: JsonV)
    requires
        ordered(entries),
    ensures
        ordered(entry_put(entries, key, v)),
        forall|i: int|
            0 <= i < entry_put(entries, key, v).len() ==> {
                let k = (#[trigger] entry_put(entries, key, v)[i]).0;
                k == key || exists|j: int| 0 <= j < entries.len() && #[trigger] entries[j].0 == k
            },
    decreases entries.len(),
{
    let out = entry_put(entries, key, v);
    if entries.len() == 0 {
    } else if entries[0].0 == key {
        assert forall|i: int, j: int| 0 <= i < j < out.len() implies #[trigger] text::chars_lt(
            out[i].0,
            out[j].0,
        ) by {
            assert(out[i].0 == entries[i].0);
            assert(out[j].0 == entries[j].0);
            assert(text::chars_lt(entries[i].0, entries[j].0));
        }
        assert forall|i: int| 0 <= i < out.len() implies ({
            let k = (#[trigger] out[i]).0;
            k == key || exists|j: int| 0 <= j < entries.len() && #[trigger] entries[j].0 == k
        }) by {
            assert(out[i].0 == entries[i].0);
        }
    } else if text::chars_lt(key, entries[0].0) {
        assert forall|i: int, j: int| 0 <= i < j < out.len() implies #[trigger] text::chars_lt(
            out[i].0,
            out[j].0,
        ) by {
            assert(out[j] == entries[j - 1]);
            if i > 0 {
                assert(out[i] == entries[i - 1]);
                assert(text::chars_lt(entries[i - 1].0, entries[j - 1].0));
            } else if j > 1 {
                assert(text::chars_lt(entries[0].0, entries[j - 1].0));
                text::lemma_chars_lt_transitive(key, entries[0].0, entries[j - 1].0);
            }
        }
        assert forall|i: int| 0 <= i < out.len() implies ({
            let k = (#[trigger] out[i]).0;
            k == key || exists|j: int| 0 <= j < entries.len() && #[trigger] entries[j].0 == k
        }) by {
            if i > 0 {
                assert(out[i] == entries[i - 1]);
            }
        }
    } else {
        let rest = entries.drop_first();
        assert(ordered(rest)) by {
            assert forall|i: int, j: int| 0 <= i < j < rest.len() implies #[trigger] text::chars_lt(
                rest[i].0,
                rest[j].0,
            ) by {
                assert(text::chars_lt(entries[i + 1].0, entries[j + 1].0));
            }
        }
        law_put_keeps_order(rest, key, v);
        let tail = entry_put(rest, key, v);
        text::lemma_chars_lt_total(key, entries[0].0);
        assert forall|i: int, j: int| 0 <= i < j < out.len() implies #[trigger] text::chars_lt(
            out[i].0,
            out[j].0,
        ) by {
            assert(out[j] == tail[j - 1]);
            if i > 0 {
                assert(out[i] == tail[i - 1]);
                assert(text::chars_lt(tail[i - 1].0, tail[j - 1].0));
            } else if tail[j - 1].0 != key {
                let m = choose|m: int|
                    0 <= m < rest.len() && #[trigger] rest[m].0 == tail[j - 1].0;
                assert(text::chars_lt(entries[0].0, entries[m + 1].0));
            }
        }
        assert forall|i: int| 0 <= i < out.len() implies ({
            let k = (#[trigger] out[i]).0;
            k == key || exists|j: int| 0 <= j < entries.len() && #[trigger] entries[j].0 == k
        }) by {
            if i == 0 {
                assert(entries[0].0 == out[0].0);
            } else {
                assert(out[i] == tail[i - 1]);
                if tail[i - 1].0 != key {
                    let m = choose|m: int|
                        0 <= m < rest.len() && #[trigger] rest[m].0 == tail[i - 1].0;
                    assert(entries[m + 1].0 == out[i].0);
                }
            }
        }
    }
}

/// Sets `key` to `v`.
pub fn put_entry(entries: &mut Vec<(String, Json)>, key: String, v: Json)
    ensures
        entry_views(final(entries)@) == entry_put(entry_views(old(entries)@), key@, v@),
{
    let ghost all = entry_views(entries@);
    let ghost k = key@;
    let ghost vv = v@;
    let mut i: usize = 0;
    assert(all.take(0) + entry_put(all.skip(0), k, vv) =~= entry_put(all, k, vv)) by {
        assert(all.skip(0) =~= all);
    }
    let n: usize = entries.len();
    while i < n && !same(entries[i].0.as_str(), key.as_str()) && !before(
        key.as_str(),
        entries[i].0.as_str(),
    )
        invariant
            i <= n,
            n == entries@.len(),
            entries@ == old(entries)@,
            all == entry_views(entries@),
            k == key@,
            entry_put(all, k, vv) == all.take(i as int) + entry_put(all.skip(i as int), k, vv),
        decreases n - i,
    {
        let ghost rest = all.skip(i as int);
        assert(rest[0] == all[i as int]);
        assert(rest.drop_first() =~= all.skip(i as int + 1));
        assert(all.take(i as int + 1) =~= all.take(i as int).push(all[i as int]));
        assert(all.take(i as int) + (seq![rest[0]] + entry_put(rest.drop_first(), k, vv))
            =~= all.take(i as int + 1) + entry_put(all.skip(i as int + 1), k, vv));
        i = i + 1;
    }
    let ghost rest = all.skip(i as int);
    if i < n && same(entries[i].0.as_str(), key.as_str()) {
        assert(rest[0] == all[i as int]);
        entries.set(i, (key, v));
        assert(entry_views(entries@) =~= all.take(i as int) + (seq![(k, vv)] + rest.drop_first()));
    } else {
        if i < n {
            assert(rest[0] == all[i as int]);
        }
        entries.insert(i, (key, v));
        assert(entry_views(entries@) =~= all.take(i as int) + (seq![(k, vv)] + rest));
        if i == n {
            assert(rest =~= Seq::<(Seq<char>, JsonV)>::empty());
            assert(seq![(k, vv)] + rest =~= seq![(k, vv)]);
        }
    }
}

} // verus!
