//! JSON payloads carried through the middleware pipeline.
//!
//! `JsonValue` holds a JSON document as plain values; objects are kept as an
//! ordered list of entries whose keys are pairwise distinct. Each value has a
//! mathematical model (`JsonModel`) in which an object is a map from keys to
//! models, so contracts speak of what a document means rather than of the
//! order in which its entries happen to be stored. Numbers are carried as
//! `serde_json::Number`, which nothing here inspects.
use vstd::prelude::*;
use vstd::std_specs::cmp::PartialEqSpecImpl;

verus! {

/// `serde_json::Number`, carried through values unread.
#[verifier::external_type_specification]
#[verifier::external_body]
pub struct ExNumber(serde_json::Number);

/// Whether `serde_json` compares the two numbers equal.
pub uninterp spec fn numbers_equal(a: serde_json::Number, b: serde_json::Number) -> bool;

/// Compares two JSON numbers with `serde_json::Number`'s `==`.
///
/// That `==` compares integers by value and floats (always finite) with
/// `f64`'s `==`, so a number equals itself; `0.0` and `-0.0` are equal
/// without being the same number.
#[verifier::external_body]
fn number_eq(a: &serde_json::Number, b: &serde_json::Number) -> (r: bool)
    ensures
        r == numbers_equal(*a, *b),
        *a == *b ==> r,
{
    a == b
}

/// Copies a JSON number with `serde_json::Number::clone`.
///
/// `Number` derives `Clone` over a plain enum of `u64`, `i64` and `f64`, so the
/// copy is the same number.
#[verifier::external_body]
fn clone_number(n: &serde_json::Number) -> (r: serde_json::Number)
    ensures
        r == *n,
{
    n.clone()
}

/// The meaning of a JSON value: strings by their characters, arrays by the
/// sequence of their elements' meanings, objects by the map from each key to
/// the meaning of its value.
pub enum JsonModel {
    Null,
    Bool(bool),
    Number(serde_json::Number),
    String(Seq<char>),
    Array(Seq<JsonModel>),
    Object(Map<Seq<char>, JsonModel>),
}

/// A JSON value.
///
/// `==` compares objects as maps, whatever the order of their entries.
#[derive(Debug)]
pub enum JsonValue {
    /// `null`.
    Null,
    /// `true` or `false`.
    Bool(bool),
    /// A number.
    Number(serde_json::Number),
    /// A string.
    String(String),
    /// An array of values.
    Array(Vec<JsonValue>),
    /// An object: a set of named values.
    Object(JsonObject),
}

/// A JSON object: entries in insertion order, no key twice.
///
/// `==` compares objects as maps: the same keys, bound to values that are `==`,
/// in any order.
#[derive(Debug)]
pub struct JsonObject {
    entries: Vec<(String, JsonValue)>,
}

/// No two entries of `s` share a key.
pub open spec fn keys_distinct(s: Seq<(String, JsonValue)>) -> bool {
    forall|i: int, j: int| 0 <= i < j < s.len() ==> #[trigger] s[i].0@ != #[trigger] s[j].0@
}

/// Some entry of `s` has the key `k`.
pub open spec fn has_key(s: Seq<(String, JsonValue)>, k: Seq<char>) -> bool {
    exists|i: int| 0 <= i < s.len() && #[trigger] s[i].0@ == k
}

/// Whether `v` is an object that has the key `key`.
pub open spec fn has_field(v: JsonModel, key: Seq<char>) -> bool {
    match v {
        JsonModel::Object(m) => m.contains_key(key),
        _ => false,
    }
}

/// The meaning of a JSON value.
pub open spec fn model_of(v: JsonValue) -> JsonModel
    decreases v,
{
    match v {
        JsonValue::Null => JsonModel::Null,
        JsonValue::Bool(b) => JsonModel::Bool(b),
        JsonValue::Number(n) => JsonModel::Number(n),
        JsonValue::String(s) => JsonModel::String(s@),
        JsonValue::Array(items) => JsonModel::Array(models_of(items@)),
        JsonValue::Object(o) => JsonModel::Object(o.entry_map()),
    }
}

/// Whether `==` holds between `a` and `b`: the same kind of value, and
/// equal booleans, numbers that `serde_json` compares equal, strings of the
/// same characters, arrays of pairwise equal elements, or objects with the
/// same keys bound to equal values.
pub open spec fn json_eq(a: JsonValue, b: JsonValue) -> bool
    decreases a, 0nat,
{
    match a {
        JsonValue::Null => b is Null,
        JsonValue::Bool(x) => match b {
            JsonValue::Bool(y) => x == y,
            _ => false,
        },
        JsonValue::Number(x) => match b {
            JsonValue::Number(y) => numbers_equal(x, y),
            _ => false,
        },
        JsonValue::String(x) => match b {
            JsonValue::String(y) => x@ == y@,
            _ => false,
        },
        JsonValue::Array(x) => match b {
            JsonValue::Array(y) => seqs_eq(x@, y@),
            _ => false,
        },
        JsonValue::Object(x) => match b {
            JsonValue::Object(y) => x.same_entries(y),
            _ => false,
        },
    }
}

/// The two sequences have the same length and `==` elements, position by position.
pub open spec fn seqs_eq(x: Seq<JsonValue>, y: Seq<JsonValue>) -> bool
    decreases x, 0nat,
{
    if x.len() == 0 {
        y.len() == 0
    } else {
        y.len() > 0 && seqs_eq(x.drop_last(), y.drop_last()) && json_eq(x.last(), y.last())
    }
}

/// Some entry of `y` has the key of `e` and a value that `==` the value of `e`.
pub open spec fn found_in(e: (String, JsonValue), y: Seq<(String, JsonValue)>) -> bool
    decreases e, y.len(),
{
    if y.len() == 0 {
        false
    } else {
        (y.last().0@ == e.0@ && json_eq(e.1, y.last().1)) || found_in(e, y.drop_last())
    }
}

/// Every entry of `x` is found in `y`.
pub open spec fn all_found(x: Seq<(String, JsonValue)>, y: Seq<(String, JsonValue)>) -> bool
    decreases x, 0nat,
{
    if x.len() == 0 {
        true
    } else {
        all_found(x.drop_last(), y) && found_in(x.last(), y)
    }
}

/// The meanings of a sequence of values, in order.
pub open spec fn models_of(s: Seq<JsonValue>) -> Seq<JsonModel>
    decreases s,
{
    if s.len() == 0 {
        Seq::empty()
    } else {
        models_of(s.drop_last()).push(model_of(s.last()))
    }
}

/// The map that a list of entries describes; a later entry for a key
/// overrides an earlier one (with distinct keys there is none).
pub open spec fn entries_model(s: Seq<(String, JsonValue)>) -> Map<Seq<char>, JsonModel>
    decreases s,
{
    if s.len() == 0 {
        Map::empty()
    } else {
        entries_model(s.drop_last()).insert(s.last().0@, model_of(s.last().1))
    }
}

impl JsonObject {
    /// The entries, in order.
    pub closed spec fn entry_seq(self) -> Seq<(String, JsonValue)> {
        self.entries@
    }

    /// The map from keys to the meanings of their values.
    pub closed spec fn entry_map(self) -> Map<Seq<char>, JsonModel>
        decreases self,
    {
        entries_model(self.entries@)
    }

    /// The two objects have the same number of entries, and each key of
    /// `self` is in `other` bound to a value that `==` the one in `self`.
    /// With no key twice in either, that is: the same keys, equal values.
    pub closed spec fn same_entries(self, other: JsonObject) -> bool
        decreases self, 0nat,
    {
        self.entries@.len() == other.entries@.len() && all_found(self.entries@, other.entries@)
    }

    #[verifier::type_invariant]
    closed spec fn keys_are_distinct(self) -> bool {
        keys_distinct(self.entries@)
    }
}

impl View for JsonValue {
    type V = JsonModel;

    open spec fn view(&self) -> JsonModel {
        model_of(*self)
    }
}

impl View for JsonObject {
    type V = Map<Seq<char>, JsonModel>;

    open spec fn view(&self) -> Map<Seq<char>, JsonModel> {
        self.entry_map()
    }
}


/// `models_of` keeps the length and maps each element to its meaning.
pub proof fn lemma_models_of(s: Seq<JsonValue>)
    ensures
        models_of(s).len() == s.len(),
        forall|i: int| 0 <= i < s.len() ==> #[trigger] models_of(s)[i] == model_of(s[i]),
    decreases s.len(),
{
    if s.len() > 0 {
        lemma_models_of(s.drop_last());
    }
}

/// Two sequences whose elements mean the same thing, one by one, mean the same thing.
pub proof fn lemma_models_of_congruent(s1: Seq<JsonValue>, s2: Seq<JsonValue>)
    requires
        s1.len() == s2.len(),
        forall|i: int| 0 <= i < s1.len() ==> #[trigger] model_of(s1[i]) == model_of(s2[i]),
    ensures
        models_of(s1) == models_of(s2),
{
    lemma_models_of(s1);
    lemma_models_of(s2);
    assert(models_of(s1) =~= models_of(s2));
}

/// A key that no entry carries is not in the map that the entries describe.
pub proof fn lemma_entries_model_absent(s: Seq<(String, JsonValue)>, k: Seq<char>)
    requires
        !has_key(s, k),
    ensures
        !entries_model(s).contains_key(k),
    decreases s.len(),
{
    if s.len() > 0 {
        let t = s.drop_last();
        assert(!has_key(t, k)) by {
            if has_key(t, k) {
                let i = choose|i: int| 0 <= i < t.len() && #[trigger] t[i].0@ == k;
                assert(s[i].0@ == k);
            }
        }
        lemma_entries_model_absent(t, k);
        assert(s[s.len() - 1].0@ != k);
    }
}

/// Every key that an entry carries is in the map, bound to that entry's value,
/// when no key occurs twice.
pub proof fn lemma_entries_model_at(s: Seq<(String, JsonValue)>, i: int)
    requires
        keys_distinct(s),
        0 <= i < s.len(),
    ensures
        entries_model(s).contains_key(s[i].0@),
        entries_model(s)[s[i].0@] == model_of(s[i].1),
    decreases s.len(),
{
    if i < s.len() - 1 {
        let t = s.drop_last();
        assert(t[i] == s[i]);
        lemma_entries_model_at(t, i);
        assert(s[i].0@ != s[s.len() - 1].0@);
    }
}

/// The keys of the map are exactly the keys that the entries carry.
pub proof fn lemma_entries_model_dom(s: Seq<(String, JsonValue)>, k: Seq<char>)
    ensures
        entries_model(s).contains_key(k) <==> has_key(s, k),
    decreases s.len(),
{
    if has_key(s, k) {
        if s.len() > 0 && s[s.len() - 1].0@ != k {
            let t = s.drop_last();
            let i = choose|i: int| 0 <= i < s.len() && #[trigger] s[i].0@ == k;
            assert(t[i] == s[i]);
            assert(has_key(t, k));
            lemma_entries_model_dom(t, k);
        }
    } else {
        lemma_entries_model_absent(s, k);
    }
}

/// Replacing the entry for a key replaces that key's binding in the map.
pub proof fn lemma_entries_model_update(s: Seq<(String, JsonValue)>, i: int, e: (String, JsonValue))
    requires
        keys_distinct(s),
        0 <= i < s.len(),
        e.0@ == s[i].0@,
    ensures
        keys_distinct(s.update(i, e)),
        entries_model(s.update(i, e)) == entries_model(s).insert(e.0@, model_of(e.1)),
    decreases s.len(),
{
    let u = s.update(i, e);
    assert(keys_distinct(u)) by {
        assert forall|a: int, b: int| 0 <= a < b < u.len() implies #[trigger] u[a].0@ != #[trigger] u[b].0@ by {
            assert(s[a].0@ != s[b].0@);
        }
    }
    let t = s.drop_last();
    if i == s.len() - 1 {
        assert(u.drop_last() =~= t);
        assert(entries_model(u) =~= entries_model(s).insert(e.0@, model_of(e.1)));
    } else {
        assert(u.drop_last() =~= t.update(i, e));
        lemma_entries_model_update(t, i, e);
        assert(s[s.len() - 1].0@ != s[i].0@);
        assert(entries_model(u) =~= entries_model(s).insert(e.0@, model_of(e.1)));
    }
}

/// Two entry lists with the same keys and values of the same meaning, in the
/// same order, describe the same map.
pub proof fn lemma_entries_model_congruent(s1: Seq<(String, JsonValue)>, s2: Seq<(String, JsonValue)>)
    requires
        s1.len() == s2.len(),
        forall|i: int| 0 <= i < s1.len() ==> #[trigger] s1[i].0@ == s2[i].0@ && model_of(s1[i].1) == model_of(s2[i].1),
    ensures
        entries_model(s1) == entries_model(s2),
    decreases s1.len(),
{
    if s1.len() > 0 {
        let t1 = s1.drop_last();
        let t2 = s2.drop_last();
        assert forall|i: int| 0 <= i < t1.len() implies #[trigger] t1[i].0@ == t2[i].0@ && model_of(t1[i].1) == model_of(t2[i].1) by {
            assert(t1[i] == s1[i]);
            assert(t2[i] == s2[i]);
        }
        lemma_entries_model_congruent(t1, t2);
        assert(s1[s1.len() - 1].0@ == s2[s2.len() - 1].0@);
    }
}


impl JsonObject {
    /// An object with no entries.
    pub fn new() -> (o: Self)
        ensures
            o.entry_seq() == Seq::<(String, JsonValue)>::empty(),
            o@ == Map::<Seq<char>, JsonModel>::empty(),
    {
        let o = JsonObject { entries: Vec::new() };
        assert(o@ =~= Map::<Seq<char>, JsonModel>::empty());
        o
    }

    /// Number of entries.
    pub fn len(&self) -> (n: usize)
        ensures
            n == self.entry_seq().len(),
    {
        self.entries.len()
    }

    /// The entries, in insertion order.
    pub fn entries(&self) -> (r: &Vec<(String, JsonValue)>)
        ensures
            r@ == self.entry_seq(),
    {
        &self.entries
    }

    /// Position of the entry for `key`, if there is one.
    fn position(&self, key: &String) -> (r: Option<usize>)
        ensures
            match r {
                Some(i) => i < self.entry_seq().len() && self.entry_seq()[i as int].0@ == key@,
                None => !has_key(self.entry_seq(), key@),
            },
    {
        entry_position(&self.entries, key)
    }

    /// Whether some entry has the key `key`.
    pub fn contains_key(&self, key: &str) -> (b: bool)
        ensures
            b == self@.contains_key(key@),
    {
        let k = key.to_owned();
        let r = self.position(&k);
        proof {
            lemma_entries_model_dom(self.entries@, key@);
        }
        r.is_some()
    }

    /// The value stored under `key`, if any.
    pub fn get(&self, key: &str) -> (r: Option<&JsonValue>)
        ensures
            r is Some == self@.contains_key(key@),
            r matches Some(v) ==> v@ == self@[key@],
    {
        proof {
            use_type_invariant(self);
            lemma_entries_model_dom(self.entries@, key@);
        }
        let k = key.to_owned();
        match self.position(&k) {
            Some(i) => {
                proof {
                    lemma_entries_model_at(self.entries@, i as int);
                }
                Some(&self.entries[i].1)
            },
            None => None,
        }
    }

    /// Binds `key` to `value`: an existing entry for `key` keeps its place and
    /// takes the new value, otherwise the entry goes last. Returns the value
    /// that was bound to `key` before, if any.
    pub fn insert(&mut self, key: String, value: JsonValue) -> (previous: Option<JsonValue>)
        ensures
            final(self)@ == old(self)@.insert(key@, value@),
            previous is Some == old(self)@.contains_key(key@),
            previous matches Some(v) ==> v@ == old(self)@[key@],
            has_key(old(self).entry_seq(), key@) ==> exists|i: int|
                0 <= i < old(self).entry_seq().len() && #[trigger] old(self).entry_seq()[i].0@ == key@
                    && final(self).entry_seq() == old(self).entry_seq().update(i, (key, value)),
            !has_key(old(self).entry_seq(), key@) ==> final(self).entry_seq() == old(self).entry_seq().push((key, value)),
    {
        proof {
            use_type_invariant(&*self);
            lemma_entries_model_dom(self.entries@, key@);
        }
        let ghost s = self.entries@;
        let ghost e = (key, value);
        let mut entries: Vec<(String, JsonValue)> = Vec::new();
        std::mem::swap(&mut entries, &mut self.entries);
        assert(entries@ == s);
        match entry_position(&entries, &key) {
            Some(i) => {
                proof {
                    lemma_entries_model_at(s, i as int);
                    lemma_entries_model_update(s, i as int, e);
                }
                let (_, prev) = entries.remove(i);
                entries.insert(i, (key, value));
                assert(entries@ =~= s.update(i as int, e));
                self.entries = entries;
                Some(prev)
            },
            None => {
                entries.push((key, value));
                assert(entries@.drop_last() =~= s);
                assert(keys_distinct(entries@)) by {
                    assert forall|a: int, b: int| 0 <= a < b < entries@.len() implies #[trigger] entries@[a].0@ != #[trigger] entries@[b].0@ by {
                        if b == entries@.len() - 1 {
                            assert(entries@[a] == s[a]);
                        } else {
                            assert(entries@[a] == s[a]);
                            assert(entries@[b] == s[b]);
                        }
                    }
                }
                assert(entries_model(entries@) == entries_model(s).insert(key@, value@));
                self.entries = entries;
                None
            },
        }
    }
}

/// Position of the entry for `key` in `entries`, if there is one.
fn entry_position(entries: &Vec<(String, JsonValue)>, key: &String) -> (r: Option<usize>)
    ensures
        match r {
            Some(i) => i < entries@.len() && entries@[i as int].0@ == key@,
            None => !has_key(entries@, key@),
        },
{
    let n = entries.len();
    let mut i: usize = 0;
    while i < n
        invariant
            n == entries@.len(),
            i <= n,
            forall|j: int| 0 <= j < i ==> #[trigger] entries@[j].0@ != key@,
        decreases n - i,
    {
        if entries[i].0 == *key {
            return Some(i);
        }
        i = i + 1;
    }
    None
}


/// A copy of `v` with the same meaning.
fn clone_value(v: &JsonValue) -> (r: JsonValue)
    ensures
        r@ == v@,
    decreases v,
{
    match v {
        JsonValue::Null => JsonValue::Null,
        JsonValue::Bool(b) => JsonValue::Bool(*b),
        JsonValue::Number(n) => JsonValue::Number(clone_number(n)),
        JsonValue::String(s) => JsonValue::String(s.clone()),
        JsonValue::Array(items) => {
            let n = items.len();
            let mut out: Vec<JsonValue> = Vec::new();
            let mut i: usize = 0;
            while i < n
                invariant
                    *v == JsonValue::Array(*items),
                    n == items@.len(),
                    i <= n,
                    out@.len() == i,
                    forall|j: int| 0 <= j < i ==> #[trigger] model_of(out@[j]) == model_of(items@[j]),
                decreases n - i,
            {
                proof {
                    assert(decreases_to!(*v => (*v)->Array_0));
                    assert(decreases_to!(*items => items@));
                    assert(decreases_to!(items@ => items@[i as int]));
                }
                let c = clone_value(&items[i]);
                out.push(c);
                i = i + 1;
            }
            proof {
                lemma_models_of_congruent(out@, items@);
            }
            JsonValue::Array(out)
        },
        JsonValue::Object(o) => JsonValue::Object(clone_object(o)),
    }
}

/// A copy of `o` with the same keys, in the same order, bound to values of the same meaning.
fn clone_object(o: &JsonObject) -> (r: JsonObject)
    ensures
        r@ == o@,
        r.entry_seq().len() == o.entry_seq().len(),
        forall|j: int| 0 <= j < o.entry_seq().len() ==> #[trigger] r.entry_seq()[j].0@ == o.entry_seq()[j].0@,
    decreases o,
{
    proof {
        use_type_invariant(o);
    }
    let n = o.entries.len();
    let mut out: Vec<(String, JsonValue)> = Vec::new();
    let mut i: usize = 0;
    while i < n
        invariant
            n == o.entries@.len(),
            i <= n,
            out@.len() == i,
            forall|j: int| 0 <= j < i ==> #[trigger] out@[j].0@ == o.entries@[j].0@ && model_of(out@[j].1) == model_of(o.entries@[j].1),
        decreases n - i,
    {
        proof {
            assert(decreases_to!(*o => o.entries@[i as int].1));
        }
        let k = o.entries[i].0.clone();
        let c = clone_value(&o.entries[i].1);
        out.push((k, c));
        i = i + 1;
    }
    proof {
        lemma_entries_model_congruent(out@, o.entries@);
        assert(keys_distinct(out@)) by {
            assert forall|a: int, b: int| 0 <= a < b < out@.len() implies #[trigger] out@[a].0@ != #[trigger] out@[b].0@ by {
                assert(o.entries@[a].0@ != o.entries@[b].0@);
            }
        }
    }
    JsonObject { entries: out }
}

impl JsonValue {
    /// Whether this value is an object.
    pub fn is_object(&self) -> (b: bool)
        ensures
            b == (self is Object),
    {
        match self {
            JsonValue::Object(_) => true,
            _ => false,
        }
    }

    /// The object, when this value is one.
    pub fn as_object(&self) -> (r: Option<&JsonObject>)
        ensures
            r is Some == (self is Object),
            r matches Some(o) ==> *self == JsonValue::Object(*o),
    {
        match self {
            JsonValue::Object(o) => Some(o),
            _ => None,
        }
    }

    /// The value under `key`, when this value is an object that has it.
    pub fn get(&self, key: &str) -> (r: Option<&JsonValue>)
        ensures
            r is Some == has_field(self@, key@),
            r matches Some(v) ==> self@ matches JsonModel::Object(m) && v@ == m[key@],
    {
        match self {
            JsonValue::Object(o) => o.get(key),
            _ => None,
        }
    }
}

impl Clone for JsonValue {
    fn clone(&self) -> (r: Self)
        ensures
            r@ == self@,
    {
        clone_value(self)
    }
}

impl Clone for JsonObject {
    fn clone(&self) -> (r: Self)
        ensures
            r@ == self@,
    {
        clone_object(self)
    }
}

/// `seqs_eq` holds exactly when the lengths agree and the elements are `==`
/// position by position.
pub proof fn lemma_seqs_eq(x: Seq<JsonValue>, y: Seq<JsonValue>)
    ensures
        seqs_eq(x, y) <==> (x.len() == y.len() && forall|i: int| 0 <= i < x.len() ==> #[trigger] json_eq(x[i], y[i])),
    decreases x.len(),
{
    if x.len() > 0 && y.len() > 0 {
        let xd = x.drop_last();
        let yd = y.drop_last();
        lemma_seqs_eq(xd, yd);
        if x.len() == y.len() && forall|i: int| 0 <= i < x.len() ==> #[trigger] json_eq(x[i], y[i]) {
            assert forall|i: int| 0 <= i < xd.len() implies #[trigger] json_eq(xd[i], yd[i]) by {
                assert(xd[i] == x[i]);
                assert(yd[i] == y[i]);
                assert(json_eq(x[i], y[i]));
            }
            assert(json_eq(x[x.len() - 1], y[y.len() - 1]));
        }
        if seqs_eq(x, y) {
            assert forall|i: int| 0 <= i < x.len() implies #[trigger] json_eq(x[i], y[i]) by {
                if i < x.len() - 1 {
                    assert(xd[i] == x[i]);
                    assert(yd[i] == y[i]);
                    assert(json_eq(xd[i], yd[i]));
                }
            }
        }
    }
}

/// `found_in` holds exactly when some entry of `y` has the key of `e` and a
/// value that `==` the value of `e`.
pub proof fn lemma_found_in(e: (String, JsonValue), y: Seq<(String, JsonValue)>)
    ensures
        found_in(e, y) <==> exists|j: int| 0 <= j < y.len() && #[trigger] y[j].0@ == e.0@ && json_eq(e.1, y[j].1),
    decreases y.len(),
{
    if y.len() > 0 {
        let yd = y.drop_last();
        lemma_found_in(e, yd);
        if found_in(e, yd) {
            let j = choose|j: int| 0 <= j < yd.len() && #[trigger] yd[j].0@ == e.0@ && json_eq(e.1, yd[j].1);
            assert(y[j] == yd[j]);
        }
        if exists|j: int| 0 <= j < y.len() && #[trigger] y[j].0@ == e.0@ && json_eq(e.1, y[j].1) {
            let j = choose|j: int| 0 <= j < y.len() && #[trigger] y[j].0@ == e.0@ && json_eq(e.1, y[j].1);
            if j < y.len() - 1 {
                assert(yd[j] == y[j]);
            }
        }
    }
}

/// `all_found` holds exactly when each entry of `x` is found in `y`.
pub proof fn lemma_all_found(x: Seq<(String, JsonValue)>, y: Seq<(String, JsonValue)>)
    ensures
        all_found(x, y) <==> forall|i: int| 0 <= i < x.len() ==> #[trigger] found_in(x[i], y),
    decreases x.len(),
{
    if x.len() > 0 {
        let xd = x.drop_last();
        lemma_all_found(xd, y);
        if forall|i: int| 0 <= i < x.len() ==> #[trigger] found_in(x[i], y) {
            assert forall|i: int| 0 <= i < xd.len() implies #[trigger] found_in(xd[i], y) by {
                assert(xd[i] == x[i]);
                assert(found_in(x[i], y));
            }
            assert(found_in(x[x.len() - 1], y));
        }
        if all_found(x, y) {
            assert forall|i: int| 0 <= i < x.len() implies #[trigger] found_in(x[i], y) by {
                if i < x.len() - 1 {
                    assert(xd[i] == x[i]);
                    assert(found_in(xd[i], y));
                }
            }
        }
    }
}

/// With no key twice, the map that the entries describe has one key per entry.
pub proof fn lemma_entries_model_len(s: Seq<(String, JsonValue)>)
    requires
        keys_distinct(s),
    ensures
        entries_model(s).dom().finite(),
        entries_model(s).dom().len() == s.len(),
    decreases s.len(),
{
    if s.len() > 0 {
        let t = s.drop_last();
        assert(keys_distinct(t)) by {
            assert forall|a: int, b: int| 0 <= a < b < t.len() implies #[trigger] t[a].0@ != #[trigger] t[b].0@ by {
                assert(t[a] == s[a]);
                assert(t[b] == s[b]);
            }
        }
        lemma_entries_model_len(t);
        let k = s.last().0@;
        assert(!has_key(t, k)) by {
            if has_key(t, k) {
                let i = choose|i: int| 0 <= i < t.len() && #[trigger] t[i].0@ == k;
                assert(t[i] == s[i]);
                assert(s[i].0@ != s[s.len() - 1].0@);
            }
        }
        lemma_entries_model_absent(t, k);
    }
}

/// Objects that are `==` have the same keys, and each key is bound to
/// values that are `==`: the number of entries and the keys decide, not the
/// order, so an object with a key more than another is never `==` to it,
/// either way round.
pub proof fn law_equal_objects_have_equal_keys(x: JsonObject, y: JsonObject)
    requires
        keys_distinct(x.entry_seq()),
        keys_distinct(y.entry_seq()),
        json_eq(JsonValue::Object(x), JsonValue::Object(y)),
    ensures
        x@.dom() == y@.dom(),
        x.entry_seq().len() == y.entry_seq().len(),
        forall|i: int| 0 <= i < x.entry_seq().len() ==> exists|j: int|
            0 <= j < y.entry_seq().len() && #[trigger] y.entry_seq()[j].0@ == #[trigger] x.entry_seq()[i].0@
                && json_eq(x.entry_seq()[i].1, y.entry_seq()[j].1),
{
    let xs = x.entries@;
    let ys = y.entries@;
    lemma_all_found(xs, ys);
    assert forall|i: int| 0 <= i < xs.len() implies exists|j: int|
        0 <= j < ys.len() && #[trigger] ys[j].0@ == #[trigger] xs[i].0@ && json_eq(xs[i].1, ys[j].1) by {
        assert(found_in(xs[i], ys));
        lemma_found_in(xs[i], ys);
    }
    lemma_entries_model_len(xs);
    lemma_entries_model_len(ys);
    let dx = entries_model(xs).dom();
    let dy = entries_model(ys).dom();
    assert(dx.subset_of(dy)) by {
        assert forall|k: Seq<char>| dx.contains(k) implies dy.contains(k) by {
            lemma_entries_model_dom(xs, k);
            let i = choose|i: int| 0 <= i < xs.len() && #[trigger] xs[i].0@ == k;
            let j = choose|j: int| 0 <= j < ys.len() && #[trigger] ys[j].0@ == xs[i].0@ && json_eq(xs[i].1, ys[j].1);
            lemma_entries_model_dom(ys, k);
        }
    }
    vstd::set_lib::lemma_subset_equality(dx, dy);
}

/// Whether `a == b` (see `json_eq`).
fn values_eq(a: &JsonValue, b: &JsonValue) -> (r: bool)
    ensures
        r == json_eq(*a, *b),
    decreases a,
{
    match a {
        JsonValue::Null => match b {
            JsonValue::Null => true,
            _ => false,
        },
        JsonValue::Bool(x) => match b {
            JsonValue::Bool(y) => *x == *y,
            _ => false,
        },
        JsonValue::Number(x) => match b {
            JsonValue::Number(y) => number_eq(x, y),
            _ => false,
        },
        JsonValue::String(x) => match b {
            JsonValue::String(y) => *x == *y,
            _ => false,
        },
        JsonValue::Array(x) => match b {
            JsonValue::Array(y) => {
                proof {
                    lemma_seqs_eq(x@, y@);
                }
                let n = x.len();
                if n != y.len() {
                    return false;
                }
                let mut i: usize = 0;
                while i < n
                    invariant
                        *a == JsonValue::Array(*x),
                        *b == JsonValue::Array(*y),
                        n == x@.len(),
                        n == y@.len(),
                        i <= n,
                        forall|j: int| 0 <= j < i ==> #[trigger] json_eq(x@[j], y@[j]),
                    decreases n - i,
                {
                    proof {
                        assert(decreases_to!(*a => (*a)->Array_0));
                        assert(decreases_to!(*x => x@));
                        assert(decreases_to!(x@ => x@[i as int]));
                    }
                    if !values_eq(&x[i], &y[i]) {
                        proof {
                            lemma_seqs_eq(x@, y@);
                        }
                        assert(!json_eq(x@[i as int], y@[i as int]));
                        return false;
                    }
                    i = i + 1;
                }
                true
            },
            _ => false,
        },
        JsonValue::Object(x) => match b {
            JsonValue::Object(y) => objects_eq(x, y),
            _ => false,
        },
    }
}

/// Whether `x == y` (see `JsonObject::same_entries`).
fn objects_eq(x: &JsonObject, y: &JsonObject) -> (r: bool)
    ensures
        r == x.same_entries(*y),
    decreases x,
{
    proof {
        use_type_invariant(y);
        lemma_all_found(x.entries@, y.entries@);
    }
    let n = x.entries.len();
    if n != y.entries.len() {
        return false;
    }
    let mut i: usize = 0;
    while i < n
        invariant
            n == x.entries@.len(),
            n == y.entries@.len(),
            keys_distinct(y.entries@),
            i <= n,
            forall|k: int| 0 <= k < i ==> #[trigger] found_in(x.entries@[k], y.entries@),
        decreases n - i,
    {
        proof {
            assert(decreases_to!(*x => x.entries@[i as int].1));
            lemma_found_in(x.entries@[i as int], y.entries@);
        }
        match entry_position(&y.entries, &x.entries[i].0) {
            Some(j) => {
                if !values_eq(&x.entries[i].1, &y.entries[j].1) {
                    proof {
                        assert forall|j2: int| 0 <= j2 < y.entries@.len() && #[trigger] y.entries@[j2].0@ == x.entries@[i as int].0@
                            implies !json_eq(x.entries@[i as int].1, y.entries@[j2].1) by {
                            if j2 != j {
                                assert(y.entries@[j2].0@ != y.entries@[j as int].0@);
                            }
                        }
                        assert(!found_in(x.entries@[i as int], y.entries@));
                        lemma_all_found(x.entries@, y.entries@);
                    }
                    return false;
                }
                proof {
                    let ji = j as int;
                    assert(y.entries@[ji].0@ == x.entries@[i as int].0@);
                    assert(found_in(x.entries@[i as int], y.entries@));
                }
            },
            None => {
                proof {
                    assert forall|j2: int| 0 <= j2 < y.entries@.len() implies #[trigger] y.entries@[j2].0@ != x.entries@[i as int].0@ by {
                        if y.entries@[j2].0@ == x.entries@[i as int].0@ {
                            assert(has_key(y.entries@, x.entries@[i as int].0@));
                        }
                    }
                    assert(!found_in(x.entries@[i as int], y.entries@));
                    lemma_all_found(x.entries@, y.entries@);
                }
                return false;
            },
        }
        i = i + 1;
    }
    true
}

impl PartialEq for JsonValue {
    fn eq(&self, other: &Self) -> (r: bool) {
        values_eq(self, other)
    }
}

impl PartialEqSpecImpl for JsonValue {
    open spec fn obeys_eq_spec() -> bool {
        true
    }

    open spec fn eq_spec(&self, other: &Self) -> bool {
        json_eq(*self, *other)
    }
}

impl PartialEq for JsonObject {
    fn eq(&self, other: &Self) -> (r: bool) {
        objects_eq(self, other)
    }
}

impl PartialEqSpecImpl for JsonObject {
    open spec fn obeys_eq_spec() -> bool {
        true
    }

    open spec fn eq_spec(&self, other: &Self) -> bool {
        self.same_entries(*other)
    }
}

} // verus!
