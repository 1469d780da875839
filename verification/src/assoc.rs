//! Lists of values under names, in the order in which the names came.
use crate::text;
use vstd::prelude::*;

verus! {

/// The model of a list of named values.
pub open spec fn pairs<T: View>(v: Seq<(String, T)>) -> Seq<(Seq<char>, T::V)> {
    v.map_values(|e: (String, T)| (e.0@, e.1@))
}

/// Where a name first stands.
pub open spec fn place<V>(o: Seq<(Seq<char>, V)>, key: Seq<char>) -> Option<int>
    decreases o.len(),
{
    if o.len() == 0 {
        None
    } else if o[0].0 == key {
        Some(0)
    } else {
        match place(o.drop_first(), key) {
            Some(i) => Some(i + 1),
            None => None,
        }
    }
}

/// What a name first stands for.
pub open spec fn lookup<V>(o: Seq<(Seq<char>, V)>, key: Seq<char>) -> Option<V> {
    match place(o, key) {
        Some(i) => Some(o[i].1),
        None => None,
    }
}

/// The list with a value under a name: in its place where the name is there, else at the end.
pub open spec fn with<V>(o: Seq<(Seq<char>, V)>, key: Seq<char>, v: V) -> Seq<(Seq<char>, V)> {
    match place(o, key) {
        Some(i) => o.update(i, (key, v)),
        None => o.push((key, v)),
    }
}

/// The list without a name.
pub open spec fn without<V>(o: Seq<(Seq<char>, V)>, key: Seq<char>) -> Seq<(Seq<char>, V)> {
    match place(o, key) {
        Some(i) => o.remove(i),
        None => o,
    }
}

/// No name stands twice.
pub open spec fn distinct<V>(o: Seq<(Seq<char>, V)>) -> bool {
    forall|i: int, j: int| 0 <= i < j < o.len() ==> (#[trigger] o[i]).0 != (#[trigger] o[j]).0
}

pub proof fn lemma_place<V>(o: Seq<(Seq<char>, V)>, key: Seq<char>)
    ensures
        match place(o, key) {
            Some(i) => 0 <= i < o.len() && o[i].0 == key && forall|j: int|
                0 <= j < i ==> (#[trigger] o[j]).0 != key,
            None => forall|j: int| 0 <= j < o.len() ==> (#[trigger] o[j]).0 != key,
        },
    decreases o.len(),
{
    if o.len() > 0 && o[0].0 != key {
        let t = o.drop_first();
        lemma_place(t, key);
        assert forall|j: int| 0 < j < o.len() implies o[j] == t[j - 1] by {}
    }
}

pub proof fn lemma_place_is<V>(o: Seq<(Seq<char>, V)>, key: Seq<char>, i: int)
    requires
        0 <= i < o.len(),
        o[i].0 == key,
        forall|j: int| 0 <= j < i ==> (#[trigger] o[j]).0 != key,
    ensures
        place(o, key) == Some(i),
    decreases i,
{
    if i > 0 {
        lemma_place_is(o.drop_first(), key, i - 1);
    }
}

/// A name that is set is found with its value, the others as they were, and names stay distinct.
pub proof fn set_is_found<V>(o: Seq<(Seq<char>, V)>, key: Seq<char>, v: V, other: Seq<char>)
    ensures
        lookup(with(o, key, v), key) == Some(v),
        other != key ==> lookup(with(o, key, v), other) == lookup(o, other),
        distinct(o) ==> distinct(with(o, key, v)),
{
    let w = with(o, key, v);
    lemma_place(o, key);
    lemma_place(o, other);
    lemma_place(w, key);
    lemma_place(w, other);
    match place(o, key) {
        Some(i) => lemma_place_is(w, key, i),
        None => lemma_place_is(w, key, o.len() as int),
    }
    if other != key {
        if let Some(i) = place(o, other) {
            lemma_place_is(w, other, i);
        } else if let Some(i) = place(w, other) {
            assert(o[i].0 == w[i].0);
        }
    }
}

/// A name that is removed from a list of distinct names is gone, the others are as they were, and
/// names stay distinct.
pub proof fn removed_is_gone<V>(o: Seq<(Seq<char>, V)>, key: Seq<char>, other: Seq<char>)
    requires
        distinct(o),
    ensures
        lookup(without(o, key), key) is None,
        other != key ==> lookup(without(o, key), other) == lookup(o, other),
        distinct(without(o, key)),
{
    let w = without(o, key);
    lemma_place(o, key);
    lemma_place(w, key);
    lemma_place(o, other);
    lemma_place(w, other);
    if let Some(i) = place(o, key) {
        assert forall|j: int| 0 <= j < w.len() implies #[trigger] w[j] == o[if j < i {
            j
        } else {
            j + 1
        }] by {}
        if other != key {
            if let Some(k) = place(o, other) {
                lemma_place_is(w, other, if k < i { k } else { k - 1 });
            } else if let Some(k) = place(w, other) {
                assert(o[if k < i { k } else { k + 1 }].0 == other);
            }
        }
    }
}

/// Finds a name.
pub fn find<T: View>(v: &Vec<(String, T)>, key: &str) -> (r: Option<usize>)
    ensures
        r is Some <==> place(pairs(v@), key@) is Some,
        r is Some ==> place(pairs(v@), key@) == Some(r->0 as int) && r->0 < v@.len(),
{
    let ghost o = pairs(v@);
    let mut i: usize = 0;
    while i < v.len()
        invariant
            i <= v@.len(),
            o == pairs(v@),
            forall|j: int| 0 <= j < i ==> (#[trigger] o[j]).0 != key@,
        decreases v@.len() - i,
    {
        assert(o[i as int].0 == v@[i as int].0@);
        if text::eq(v[i].0.as_str(), key) {
            proof {
                lemma_place_is(o, key@, i as int);
            }
            return Some(i);
        }
        i += 1;
    }
    proof {
        lemma_place(o, key@);
    }
    None
}

/// Looks a name up.
pub fn get<'a, T: View>(v: &'a Vec<(String, T)>, key: &str) -> (r: Option<&'a T>)
    ensures
        match r {
            Some(j) => lookup(pairs(v@), key@) == Some(j@),
            None => lookup(pairs(v@), key@) is None,
        },
{
    match find(v, key) {
        Some(i) => Some(&v[i].1),
        None => None,
    }
}

/// Sets a value under a name.
pub fn put<T: View>(v: &mut Vec<(String, T)>, key: &str, value: T)
    ensures
        pairs(final(v)@) == with(pairs(old(v)@), key@, value@),
{
    let ghost before = pairs(v@);
    match find(v, key) {
        Some(i) => {
            v.set(i, (key.to_owned(), value));
            assert(pairs(v@) =~= before.update(i as int, (key@, value@)));
        },
        None => {
            v.push((key.to_owned(), value));
            assert(pairs(v@) =~= before.push((key@, value@)));
        },
    }
}

/// Removes a name and returns what it stood for.
pub fn take<T: View>(v: &mut Vec<(String, T)>, key: &str) -> (r: Option<T>)
    ensures
        pairs(final(v)@) == without(pairs(old(v)@), key@),
        match r {
            Some(t) => lookup(pairs(old(v)@), key@) == Some(t@),
            None => lookup(pairs(old(v)@), key@) is None,
        },
{
    let ghost before = pairs(v@);
    if let Some(i) = find(v, key) {
        let e = v.remove(i);
        assert(pairs(v@) =~= before.remove(i as int));
        Some(e.1)
    } else {
        None
    }
}

/// Removes a name.
pub fn drop_key<T: View>(v: &mut Vec<(String, T)>, key: &str)
    ensures
        pairs(final(v)@) == without(pairs(old(v)@), key@),
{
    let gone = take(v, key);
}

}
