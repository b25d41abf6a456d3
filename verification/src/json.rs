//! Configuration values: what JSON can hold.

use vstd::prelude::*;

use crate::text;

verus! {

/// A JSON value. Where an object names a key twice, the first one counts.
#[derive(Debug)]
pub enum Value {
    Null,
    Bool(bool),
    /// A number, as it is written.
    Number(String),
    Text(String),
    Array(Vec<Value>),
    Object(Vec<(String, Value)>),
}

/// What a [`Value`] stands for.
pub enum Model {
    Null,
    Bool(bool),
    Number(Seq<char>),
    Text(Seq<char>),
    Array(Seq<Model>),
    Object(Map<Seq<char>, Model>),
}

impl View for Value {
    type V = Model;

    open spec fn view(&self) -> Model
        decreases self,
    {
        match self {
            Value::Null => Model::Null,
            Value::Bool(b) => Model::Bool(*b),
            Value::Number(n) => Model::Number(n@),
            Value::Text(s) => Model::Text(s@),
            Value::Array(items) => Model::Array(
                Seq::new(
                    items@.len(),
                    |i: int|
                        if 0 <= i < items@.len() {
                            items@[i]@
                        } else {
                            Model::Null
                        },
                ),
            ),
            Value::Object(entries) => Model::Object(map_of(entries@)),
        }
    }
}

/// The map that the entries of an object make.
pub open spec fn map_of(entries: Seq<(String, Value)>) -> Map<Seq<char>, Model>
    decreases entries,
{
    if entries.len() == 0 {
        Map::empty()
    } else {
        map_of(entries.subrange(1, entries.len() as int)).insert(entries[0].0@, entries[0].1@)
    }
}

/// The value that a key has in an object.
pub open spec fn lookup(value: Model, key: Seq<char>) -> Option<Model> {
    match value {
        Model::Object(map) => if map.contains_key(key) {
            Some(map[key])
        } else {
            None
        },
        _ => None,
    }
}

/// `overlay` laid over `base`, key by key where both are objects.
pub open spec fn merged(base: Model, overlay: Model) -> Model
    decreases overlay,
{
    match (base, overlay) {
        (Model::Object(b), Model::Object(o)) => Model::Object(
            Map::new(
                |k: Seq<char>| b.contains_key(k) || o.contains_key(k),
                |k: Seq<char>|
                    if o.contains_key(k) {
                        merged(
                            if b.contains_key(k) {
                                b[k]
                            } else {
                                Model::Null
                            },
                            o[k],
                        )
                    } else {
                        b[k]
                    },
            ),
        ),
        _ => overlay,
    }
}

/// Whether an object's entry for `key` is at `at`.
pub open spec fn entry_at(entries: Seq<(String, Value)>, key: Seq<char>, at: int) -> bool {
    &&& 0 <= at < entries.len()
    &&& entries[at].0@ == key
    &&& forall|j: int| 0 <= j < at ==> (#[trigger] entries[j]).0@ != key
}

proof fn lemma_found(entries: Seq<(String, Value)>, key: Seq<char>, at: int)
    requires
        entry_at(entries, key, at),
    ensures
        map_of(entries).contains_key(key),
        map_of(entries)[key] == entries[at].1@,
    decreases entries.len(),
{
    reveal_with_fuel(map_of, 2);
    if at > 0 {
        assert(entries[0].0@ != key);
        let rest = entries.subrange(1, entries.len() as int);
        assert forall|j: int| 0 <= j < at - 1 implies (#[trigger] rest[j]).0@ != key by {
            assert(entries[j + 1].0@ != key);
        }
        lemma_found(rest, key, at - 1);
    }
}

proof fn lemma_absent(entries: Seq<(String, Value)>, key: Seq<char>)
    requires
        forall|j: int| 0 <= j < entries.len() ==> (#[trigger] entries[j]).0@ != key,
    ensures
        !map_of(entries).contains_key(key),
    decreases entries.len(),
{
    reveal_with_fuel(map_of, 2);
    if entries.len() > 0 {
        assert(entries[0].0@ != key);
        let rest = entries.subrange(1, entries.len() as int);
        assert forall|j: int| 0 <= j < rest.len() implies (#[trigger] rest[j]).0@ != key by {
            assert(entries[j + 1].0@ != key);
        }
        lemma_absent(rest, key);
    }
}

proof fn lemma_replaced(
    entries: Seq<(String, Value)>,
    entry: (String, Value),
    key: Seq<char>,
    at: int,
)
    requires
        entry_at(entries, key, at),
        entry.0@ == key,
    ensures
        map_of(entries.update(at, entry)) == map_of(entries).insert(key, entry.1@),
    decreases entries.len(),
{
    reveal_with_fuel(map_of, 2);
    let new = entries.update(at, entry);
    let rest = entries.subrange(1, entries.len() as int);
    let new_rest = new.subrange(1, entries.len() as int);
    if at == 0 {
        assert(new_rest =~= rest);
        assert(map_of(new) =~= map_of(entries).insert(key, entry.1@));
    } else {
        assert(entries[0].0@ != key);
        assert forall|j: int| 0 <= j < at - 1 implies (#[trigger] rest[j]).0@ != key by {
            assert(entries[j + 1].0@ != key);
        }
        lemma_replaced(rest, entry, key, at - 1);
        assert(new_rest =~= rest.update(at - 1, entry));
        assert(map_of(new) =~= map_of(entries).insert(key, entry.1@));
    }
}

proof fn lemma_added(entries: Seq<(String, Value)>, entry: (String, Value))
    ensures
        map_of(entries.push(entry)) == if map_of(entries).contains_key(entry.0@) {
            map_of(entries)
        } else {
            map_of(entries).insert(entry.0@, entry.1@)
        },
    decreases entries.len(),
{
    reveal_with_fuel(map_of, 2);
    let new = entries.push(entry);
    let new_rest = new.subrange(1, new.len() as int);
    if entries.len() == 0 {
        assert(new_rest =~= entries);
    } else {
        let rest = entries.subrange(1, entries.len() as int);
        lemma_added(rest, entry);
        assert(new_rest =~= rest.push(entry));
        let whole = if map_of(entries).contains_key(entry.0@) {
            map_of(entries)
        } else {
            map_of(entries).insert(entry.0@, entry.1@)
        };
        assert(map_of(new) =~= whole);
    }
}

/// Where the entry for `key` is.
pub fn find(entries: &Vec<(String, Value)>, key: &str) -> (r: Option<usize>)
    ensures
        match r {
            Some(i) => entry_at(entries@, key@, i as int),
            None => !map_of(entries@).contains_key(key@),
        },
        r is Some ==> map_of(entries@).contains_key(key@),
{
    let mut i: usize = 0;
    while i < entries.len()
        invariant
            i <= entries@.len(),
            forall|j: int| 0 <= j < i ==> (#[trigger] entries@[j]).0@ != key@,
        decreases entries@.len() - i,
    {
        if text::str_eq(entries[i].0.as_str(), key) {
            proof {
                lemma_found(entries@, key@, i as int);
            }
            return Some(i);
        }
        i += 1;
    }
    proof {
        lemma_absent(entries@, key@);
    }
    None
}

/// Gives `key` a value, in place of the one it had.
pub fn insert(entries: &mut Vec<(String, Value)>, key: String, value: Value)
    ensures
        map_of(final(entries)@) == map_of(old(entries)@).insert(key@, value@),
{
    match find(entries, key.as_str()) {
        Some(i) => {
            proof {
                lemma_replaced(entries@, (key, value), key@, i as int);
            }
            entries.set(i, (key, value));
        },
        None => {
            proof {
                lemma_added(entries@, (key, value));
            }
            entries.push((key, value));
        },
    }
}

/// A text.
pub fn text_value(s: String) -> (r: Value)
    ensures
        r@ == Model::Text(s@),
{
    Value::Text(s)
}

/// A truth value.
pub fn bool_value(b: bool) -> (r: Value)
    ensures
        r@ == Model::Bool(b),
{
    Value::Bool(b)
}

/// An object.
pub fn object_value(entries: Vec<(String, Value)>) -> (r: Value)
    ensures
        r@ == Model::Object(map_of(entries@)),
{
    Value::Object(entries)
}

/// No entries.
pub fn no_entries() -> (r: Vec<(String, Value)>)
    ensures
        map_of(r@) == Map::<Seq<char>, Model>::empty(),
{
    reveal_with_fuel(map_of, 2);
    Vec::new()
}

/// Gives `key` a text.
pub fn put(entries: &mut Vec<(String, Value)>, key: &str, s: &str)
    ensures
        map_of(final(entries)@) == map_of(old(entries)@).insert(key@, Model::Text(s@)),
{
    insert(entries, key.to_string(), text_value(s.to_string()));
}

impl Value {
    /// A value of its own with the same contents.
    pub fn copy(&self) -> (r: Value)
        ensures
            r@ == self@,
        decreases self,
    {
        match self {
            Value::Null => Value::Null,
            Value::Bool(b) => Value::Bool(*b),
            Value::Number(n) => Value::Number(n.clone()),
            Value::Text(s) => Value::Text(s.clone()),
            Value::Array(items) => {
                let mut copies: Vec<Value> = Vec::new();
                let mut i: usize = 0;
                while i < items.len()
                    invariant
                        i <= items@.len(),
                        copies@.len() == i,
                        decreases_to!(self => items),
                        forall|j: int| 0 <= j < i ==> (#[trigger] copies@[j])@ == items@[j]@,
                    decreases items@.len() - i,
                {
                    assert(decreases_to!(items => items@));
                    assert(decreases_to!(items@ => items@[i as int]));
                    copies.push(items[i].copy());
                    i += 1;
                }
                let r = Value::Array(copies);
                assert(r@->Array_0 =~= self@->Array_0);
                r
            },
            Value::Object(entries) => {
                let mut copies: Vec<(String, Value)> = Vec::new();
                let mut i: usize = 0;
                while i < entries.len()
                    invariant
                        i <= entries@.len(),
                        copies@.len() == i,
                        decreases_to!(self => entries),
                        forall|j: int|
                            0 <= j < i ==> (#[trigger] copies@[j]).0@ == entries@[j].0@
                                && copies@[j].1@ == entries@[j].1@,
                    decreases entries@.len() - i,
                {
                    assert(decreases_to!(entries => entries@));
                    assert(decreases_to!(entries@ => entries@[i as int]));
                    assert(decreases_to!(entries@[i as int] => entries@[i as int].1));
                    copies.push((entries[i].0.clone(), entries[i].1.copy()));
                    i += 1;
                }
                proof {
                    lemma_same_map(copies@, entries@);
                }
                Value::Object(copies)
            },
        }
    }

    /// The value that a key has in this object.
    pub fn get(&self, key: &str) -> (r: Option<&Value>)
        ensures
            r is Some <==> lookup(self@, key@) is Some,
            r is Some ==> r.unwrap()@ == lookup(self@, key@).unwrap(),
    {
        match self {
            Value::Object(entries) => match find(entries, key) {
                Some(i) => {
                    proof {
                        lemma_found(entries@, key@, i as int);
                    }
                    Some(&entries[i].1)
                },
                None => None,
            },
            _ => None,
        }
    }
}

proof fn lemma_same_map(a: Seq<(String, Value)>, b: Seq<(String, Value)>)
    requires
        a.len() == b.len(),
        forall|j: int|
            0 <= j < a.len() ==> (#[trigger] a[j]).0@ == b[j].0@ && a[j].1@ == b[j].1@,
    ensures
        map_of(a) == map_of(b),
    decreases a.len(),
{
    reveal_with_fuel(map_of, 2);
    if a.len() > 0 {
        let x = a.subrange(1, a.len() as int);
        let y = b.subrange(1, b.len() as int);
        assert forall|j: int| 0 <= j < x.len() implies (#[trigger] x[j]).0@ == y[j].0@ && x[j].1@
            == y[j].1@ by {
            assert(a[j + 1].0@ == b[j + 1].0@);
        }
        lemma_same_map(x, y);
        assert(a[0].0@ == b[0].0@);
    }
}

/// The objects `b` and `o` merged, with only the first `n` entries of `o` laid over `b`.
spec fn merged_so_far(b: Map<Seq<char>, Model>, o: Seq<(String, Value)>, n: int) -> Model {
    merged(Model::Object(b), Model::Object(map_of(o.take(n))))
}

proof fn lemma_merge_step(b: Map<Seq<char>, Model>, o: Seq<(String, Value)>, n: int)
    requires
        0 <= n < o.len(),
    ensures
        ({
            let key = o[n].0@;
            let so_far = merged_so_far(b, o, n)->Object_0;
            let was = if b.contains_key(key) {
                b[key]
            } else {
                Model::Null
            };
            if map_of(o.take(n)).contains_key(key) {
                merged_so_far(b, o, n + 1) == merged_so_far(b, o, n)
            } else {
                &&& so_far.contains_key(key) == b.contains_key(key)
                &&& b.contains_key(key) ==> so_far[key] == b[key]
                &&& merged_so_far(b, o, n + 1) == Model::Object(
                    so_far.insert(key, merged(was, o[n].1@)),
                )
            }
        }),
{
    reveal_with_fuel(merged, 2);
    let key = o[n].0@;
    assert(o.take(n + 1) =~= o.take(n).push(o[n]));
    lemma_added(o.take(n), o[n]);
    if !map_of(o.take(n)).contains_key(key) {
        let so_far = merged_so_far(b, o, n)->Object_0;
        let was = if b.contains_key(key) {
            b[key]
        } else {
            Model::Null
        };
        assert(merged_so_far(b, o, n + 1)->Object_0 =~= so_far.insert(key, merged(was, o[n].1@)));
    }
}

/// Whether an earlier entry of an object has the key of the one at `n`.
fn is_repeated(entries: &Vec<(String, Value)>, n: usize) -> (r: bool)
    requires
        n < entries@.len(),
    ensures
        r == map_of(entries@.take(n as int)).contains_key(entries@[n as int].0@),
{
    let mut i: usize = 0;
    while i < n
        invariant
            i <= n < entries@.len(),
            forall|j: int| 0 <= j < i ==> (#[trigger] entries@[j]).0@ != entries@[n as int].0@,
        decreases n - i,
    {
        if text::str_eq(entries[i].0.as_str(), entries[n].0.as_str()) {
            proof {
                lemma_found(entries@.take(n as int), entries@[n as int].0@, i as int);
            }
            return true;
        }
        i += 1;
    }
    proof {
        lemma_absent(entries@.take(n as int), entries@[n as int].0@);
    }
    false
}

/// Merges `overlay` into `base`, recursing into objects that both have.
pub fn merge(base: &mut Value, overlay: &Value)
    ensures
        final(base)@ == merged(old(base)@, overlay@),
    decreases overlay,
{
    reveal_with_fuel(merged, 2);
    match overlay {
        Value::Object(new) => {
            match base {
                Value::Object(entries) => {
                    let ghost was = map_of(entries@);
                    assert(map_of(new@.take(0)) =~= Map::empty()) by {
                        reveal_with_fuel(map_of, 2);
                    }
                    assert(merged_so_far(was, new@, 0)->Object_0 =~= was);
                    let mut i: usize = 0;
                    while i < new.len()
                        invariant
                            i <= new@.len(),
                            decreases_to!(overlay => new),
                            merged_so_far(was, new@, i as int) == Model::Object(map_of(entries@)),
                        decreases new@.len() - i,
                    {
                        proof {
                            lemma_merge_step(was, new@, i as int);
                            assert(decreases_to!(new => new@));
                            assert(decreases_to!(new@ => new@[i as int]));
                            assert(decreases_to!(new@[i as int] => new@[i as int].1));
                        }
                        if !is_repeated(new, i) {
                            let key = new[i].0.clone();
                            let mut value = match find(entries, key.as_str()) {
                                Some(at) => {
                                    proof {
                                        lemma_found(entries@, key@, at as int);
                                    }
                                    entries[at].1.copy()
                                },
                                None => Value::Null,
                            };
                            merge(&mut value, &new[i].1);
                            insert(entries, key, value);
                        }
                        i += 1;
                    }
                    assert(new@.take(new@.len() as int) =~= new@);
                    return ;
                },
                _ => {},
            }
        },
        _ => {},
    }
    *base = overlay.copy();
}

} // verus!
