//! Maps from sequence numbers, on top of the standard ordered map.
use std::collections::BTreeMap;
use vstd::prelude::*;

verus! {

/// The smallest number of a set.
pub open spec fn least(s: Set<u32>) -> u32 {
    choose|k: u32| s.contains(k) && forall|j: u32| s.contains(j) ==> k <= j
}

/// The largest number of a set.
pub open spec fn greatest(s: Set<u32>) -> u32 {
    choose|k: u32| s.contains(k) && forall|j: u32| s.contains(j) ==> j <= k
}

/// The keys of a map in ascending order.
pub fn ascending_keys<V>(m: &BTreeMap<u32, V>) -> (keys: Vec<u32>)
    ensures
        m@.dom().finite(),
        keys@.len() == m@.dom().len(),
        forall|i: int, j: int| 0 <= i < j < keys@.len() ==> keys@[i] < keys@[j],
        forall|k: u32| keys@.contains(k) <==> m@.contains_key(k),
{
    broadcast use vstd::laws_cmp::group_laws_cmp;
    broadcast use vstd::std_specs::btree::group_btree_axioms;
    assert(vstd::laws_cmp::obeys_cmp::<u32>());
    assert(vstd::laws_cmp::obeys_cmp::<&u32>());
    let mut keys: Vec<u32> = Vec::new();
    for k in it: m.keys()
        invariant
            keys@ == it.seq().unref().take(it.index()),
            keys@.len() == it.index(),
            it.seq().unref().to_set() == m@.dom(),
            it.seq().len() == m@.dom().len(),
            vstd::std_specs::btree::increasing_seq(it.seq()),
            forall|i: int, j: int| 0 <= i < j < keys@.len() ==> keys@[i] < keys@[j],
            vstd::laws_cmp::obeys_cmp::<&u32>(),
            it.seq().unref() == keys@ ==> keys@.to_set() == m@.dom(),
            keys@.len() == m@.dom().len() ==> it.seq().unref() == keys@,
    {
        let ghost before = keys@;
        keys.push(*k);
        proof {
            let s = it.seq();
            assert forall|i: int, j: int| 0 <= i < j < keys@.len() implies keys@[i] < keys@[j] by {
                if j == before.len() {
                    assert(vstd::std_specs::cmp::OrdSpec::cmp_spec(&s[i], &s[j]) is Less);
                }
            }
        }
    }
    proof {
        assert forall|k: u32| keys@.contains(k) <==> m@.contains_key(k) by {
            assert(keys@.to_set().contains(k) <==> m@.dom().contains(k));
        }
    }
    keys
}


/// How many keys a map has.
pub fn size<V>(m: &BTreeMap<u32, V>) -> (n: usize)
    ensures
        m@.dom().finite(),
        n == m@.dom().len(),
{
    broadcast use vstd::laws_cmp::group_laws_cmp;
    assert(vstd::laws_cmp::obeys_cmp::<u32>());
    m.len()
}

/// Whether a map has a key.
pub fn has<V>(m: &BTreeMap<u32, V>, k: u32) -> (r: bool)
    ensures
        r == m@.contains_key(k),
{
    broadcast use vstd::laws_cmp::group_laws_cmp;
    assert(vstd::laws_cmp::obeys_cmp::<u32>());
    m.contains_key(&k)
}

/// What a map holds under a key.
pub fn get<V>(m: &BTreeMap<u32, V>, k: u32) -> (r: Option<&V>)
    ensures
        r == (if m@.contains_key(k) { Some(&m@[k]) } else { None }),
{
    broadcast use vstd::laws_cmp::group_laws_cmp;
    assert(vstd::laws_cmp::obeys_cmp::<u32>());
    m.get(&k)
}

/// Takes a key and its value out of a map.
pub fn take_out<V>(m: &mut BTreeMap<u32, V>, k: u32) -> (r: Option<V>)
    ensures
        final(m)@ == old(m)@.remove(k),
        r == (if old(m)@.contains_key(k) { Some(old(m)@[k]) } else { None }),
{
    broadcast use vstd::laws_cmp::group_laws_cmp;
    assert(vstd::laws_cmp::obeys_cmp::<u32>());
    m.remove(&k)
}

/// Puts a value under a key.
pub fn put_in<V>(m: &mut BTreeMap<u32, V>, k: u32, v: V)
    ensures
        final(m)@ == old(m)@.insert(k, v),
{
    broadcast use vstd::laws_cmp::group_laws_cmp;
    assert(vstd::laws_cmp::obeys_cmp::<u32>());
    m.insert(k, v);
}

/// The smallest key of a map.
pub fn first_key<V>(m: &BTreeMap<u32, V>) -> (r: Option<u32>)
    ensures
        r is None <==> m@.dom().len() == 0,
        r is Some ==> m@.contains_key(r->0) && r->0 == least(m@.dom()),
{
    let keys = ascending_keys(m);
    if keys.len() == 0 {
        return None;
    }
    let k: u32 = keys[0];
    proof {
        assert(keys@.contains(k));
        assert forall|j: u32| m@.dom().contains(j) implies k <= j by {
            assert(keys@.contains(j));
        }
    }
    Some(k)
}

/// The largest key of a map.
pub fn last_key<V>(m: &BTreeMap<u32, V>) -> (r: Option<u32>)
    ensures
        r is None <==> m@.dom().len() == 0,
        r is Some ==> m@.contains_key(r->0) && r->0 == greatest(m@.dom()),
{
    let keys = ascending_keys(m);
    if keys.len() == 0 {
        return None;
    }
    let k: u32 = keys[keys.len() - 1];
    proof {
        assert(keys@.contains(k));
        assert forall|j: u32| m@.dom().contains(j) implies j <= k by {
            assert(keys@.contains(j));
        }
    }
    Some(k)
}

/// The numbers of a set, in ascending order.
pub open spec fn ascending(s: Set<u32>) -> Seq<u32>
    decreases s.len(),
{
    if s.finite() && s.contains(least(s)) {
        seq![least(s)] + ascending(s.remove(least(s)))
    } else {
        Seq::empty()
    }
}

proof fn lemma_least(s: Set<u32>, k: u32)
    requires
        s.contains(k),
        forall|j: u32| s.contains(j) ==> k <= j,
    ensures
        least(s) == k,
{
}

/// Without its first number, an ascending list is that of the set without it.
proof fn lemma_rest(v: Seq<u32>, s: Set<u32>)
    requires
        v.len() > 0,
        forall|i: int, j: int| 0 <= i < j < v.len() ==> v[i] < v[j],
        forall|k: u32| v.contains(k) <==> s.contains(k),
    ensures
        forall|k: u32| v.drop_first().contains(k) <==> s.remove(v[0]).contains(k),
        least(s) == v[0],
        s.contains(v[0]),
{
    let rest = v.drop_first();
    assert(v.contains(v[0]));
    assert forall|j: u32| rest.contains(j) <==> s.remove(v[0]).contains(j) by {
        if rest.contains(j) {
            let i = choose|i: int| 0 <= i < rest.len() && rest[i] == j;
            assert(v[i + 1] == j);
            assert(v.contains(j));
        }
        if s.remove(v[0]).contains(j) {
            assert(v.contains(j));
            let i = choose|i: int| 0 <= i < v.len() && v[i] == j;
            assert(rest[i - 1] == j);
        }
    }
    assert forall|j: u32| s.contains(j) implies v[0] <= j by {
        assert(v.contains(j));
    }
    lemma_least(s, v[0]);
}

/// An ascending list of the numbers of a set is the one in ascending order.
pub proof fn ascending_is_unique(v: Seq<u32>, s: Set<u32>)
    requires
        forall|i: int, j: int| 0 <= i < j < v.len() ==> v[i] < v[j],
        forall|k: u32| v.contains(k) <==> s.contains(k),
    ensures
        v == ascending(s),
        s.finite(),
    decreases v.len(),
{
    if v.len() == 0 {
        assert forall|k: u32| !s.contains(k) by {
            assert(!v.contains(k));
        }
        assert(s =~= Set::empty());
    } else {
        lemma_rest(v, s);
        ascending_is_unique(v.drop_first(), s.remove(v[0]));
        assert(s =~= s.remove(v[0]).insert(v[0]));
        assert(v =~= seq![v[0]] + v.drop_first());
    }
}

}
