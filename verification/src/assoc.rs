use vstd::prelude::*;
use core::cmp::Ordering;
use crate::song_data::{lex_cmp, lemma_lex_cmp_flip, lemma_lex_cmp_trans, str_cmp, str_eq};

verus! {

/// Comparing a sequence with itself, or with an equal one, yields `Equal`,
/// and nothing else does.
pub proof fn lemma_lex_cmp_eq(a: Seq<char>, b: Seq<char>)
    ensures
        lex_cmp(a, b) == Ordering::Equal <==> a == b,
    decreases a.len(),
{
    if a.len() == 0 && b.len() == 0 {
        assert(a =~= b);
    } else if a.len() > 0 && b.len() > 0 && a[0] == b[0] {
        lemma_lex_cmp_eq(a.drop_first(), b.drop_first());
        if a.drop_first() == b.drop_first() {
            assert forall|i: int| 0 <= i < a.len() implies a[i] == b[i] by {
                if i > 0 {
                    assert(a.drop_first()[i - 1] == b.drop_first()[i - 1]);
                }
            }
            assert(a =~= b);
        }
        if a == b {
            assert(a.drop_first() =~= b.drop_first());
        }
    } else {
        if a == b && a.len() > 0 {
            assert(a[0] == b[0]);
        }
    }
}

/// The position a key has, or would get, in an association list whose keys
/// are sorted: the index of the first entry whose key is not below `key`.
pub open spec fn first_geq<T>(s: Seq<(Seq<char>, T)>, key: Seq<char>) -> int
    decreases s.len(),
{
    if s.len() == 0 {
        0
    } else if lex_cmp(s[0].0, key) == Ordering::Less {
        1 + first_geq(s.drop_first(), key)
    } else {
        0
    }
}

/// `first_geq` is a position within the list, or one past its end.
pub proof fn lemma_first_geq_bounds<T>(s: Seq<(Seq<char>, T)>, key: Seq<char>)
    ensures
        0 <= first_geq(s, key) <= s.len(),
    decreases s.len(),
{
    if s.len() > 0 && lex_cmp(s[0].0, key) == Ordering::Less {
        lemma_first_geq_bounds(s.drop_first(), key);
    }
}

/// A scan that stopped at `j` after seeing only keys below `key` stopped at
/// `first_geq`.
pub proof fn lemma_first_geq_from_scan<T>(s: Seq<(Seq<char>, T)>, key: Seq<char>, j: int)
    requires
        0 <= j <= s.len(),
        forall|k: int| 0 <= k < j ==> lex_cmp(s[k].0, key) == Ordering::Less,
        j < s.len() ==> lex_cmp(s[j].0, key) != Ordering::Less,
    ensures
        first_geq(s, key) == j,
    decreases j,
{
    if j == 0 {
    } else {
        assert(lex_cmp(s[0].0, key) == Ordering::Less);
        let rest = s.drop_first();
        assert forall|k: int| 0 <= k < j - 1 implies lex_cmp(rest[k].0, key) == Ordering::Less by {
            assert(rest[k] == s[k + 1]);
        }
        if j - 1 < rest.len() {
            assert(rest[j - 1] == s[j]);
        }
        lemma_first_geq_from_scan(rest, key, j - 1);
    }
}

/// The value an association list holds at a key, if any.
pub open spec fn assoc_find<T>(s: Seq<(Seq<char>, T)>, key: Seq<char>) -> Option<T> {
    let i = first_geq(s, key);
    if i < s.len() && lex_cmp(s[i].0, key) == Ordering::Equal {
        Some(s[i].1)
    } else {
        None
    }
}

/// An association list after binding `key` to `value`: the binding replaces
/// an existing one for the key, or is inserted at the key's sorted position.
pub open spec fn assoc_insert<T>(s: Seq<(Seq<char>, T)>, key: Seq<char>, value: T) -> Seq<
    (Seq<char>, T),
> {
    let i = first_geq(s, key);
    if i < s.len() && lex_cmp(s[i].0, key) == Ordering::Equal {
        s.take(i) + seq![(key, value)] + s.skip(i + 1)
    } else {
        s.take(i) + seq![(key, value)] + s.skip(i)
    }
}

/// An association list with the binding for `key` dropped, if it had one.
pub open spec fn assoc_remove<T>(s: Seq<(Seq<char>, T)>, key: Seq<char>) -> Seq<(Seq<char>, T)> {
    let i = first_geq(s, key);
    if i < s.len() && lex_cmp(s[i].0, key) == Ordering::Equal {
        s.take(i) + s.skip(i + 1)
    } else {
        s
    }
}

/// Where `key` sits, or would sit, in the sorted association list.
#[verifier::loop_isolation(false)]
pub(crate) fn assoc_position<V: DeepView>(map: &Vec<(String, V)>, key: &str) -> (r: usize)
    ensures
        r as int == first_geq(map.deep_view(), key@),
        r <= map@.len(),
{
    let mut j: usize = 0;
    while j < map.len()
        invariant
            j <= map@.len(),
            forall|k: int|
                0 <= k < j ==> lex_cmp(map.deep_view()[k].0, key@) == Ordering::Less,
        decreases map@.len() - j,
    {
        let c = str_cmp(map[j].0.as_str(), key);
        proof {
            assert(map.deep_view()[j as int] == map@[j as int].deep_view());
        }
        match c {
            Ordering::Less => {
            },
            _ => {
                proof {
                    lemma_first_geq_from_scan(map.deep_view(), key@, j as int);
                }
                return j;
            },
        }
        j += 1;
    }
    proof {
        lemma_first_geq_from_scan(map.deep_view(), key@, map@.len() as int);
    }
    j
}

/// An association list holding sequences, after appending `value` to the
/// sequence at `key`; an absent key starts from the empty sequence.
pub open spec fn assoc_push<E>(s: Seq<(Seq<char>, Seq<E>)>, key: Seq<char>, value: E) -> Seq<
    (Seq<char>, Seq<E>),
> {
    let old_items = match assoc_find(s, key) {
        Some(items) => items,
        None => Seq::<E>::empty(),
    };
    assoc_insert(s, key, old_items.push(value))
}

/// Binds `key` to `value`, replacing an existing binding or inserting at the
/// key's sorted position.
#[verifier::loop_isolation(false)]
pub(crate) fn insert_into_assoc<V: DeepView>(map: &mut Vec<(String, V)>, key: String, value: V)
    ensures
        final(map).deep_view() == assoc_insert(old(map).deep_view(), key@, value.deep_view()),
{
    let ghost dv = map.deep_view();
    let ghost keyv = key@;
    proof {
        lemma_first_geq_bounds(dv, keyv);
    }
    let pos = assoc_position(map, key.as_str());
    let found = pos < map.len() && str_eq(map[pos].0.as_str(), key.as_str());
    proof {
        if pos < map@.len() {
            assert(dv[pos as int] == map@[pos as int].deep_view());
            lemma_lex_cmp_eq(dv[pos as int].0, keyv);
        }
    }
    if found {
        map.remove(pos);
        map.insert(pos, (key, value));
        proof {
            assert(map.deep_view() =~~= assoc_insert(dv, keyv, value.deep_view()));
        }
    } else {
        map.insert(pos, (key, value));
        proof {
            assert(map.deep_view() =~~= assoc_insert(dv, keyv, value.deep_view()));
        }
    }
}

/// Appends `value` to the entry of `key`, creating the entry at its sorted
/// position when absent.
#[verifier::loop_isolation(false)]
pub(crate) fn push_into_assoc<T: DeepView>(map: &mut Vec<(String, Vec<T>)>, key: String, value: T)
    ensures
        final(map).deep_view() == assoc_push(old(map).deep_view(), key@, value.deep_view()),
{
    let ghost dv = map.deep_view();
    let ghost keyv = key@;
    proof {
        lemma_first_geq_bounds(dv, keyv);
    }
    let pos = assoc_position(map, key.as_str());
    let found = pos < map.len() && str_eq(map[pos].0.as_str(), key.as_str());
    proof {
        if pos < map@.len() {
            assert(dv[pos as int] == map@[pos as int].deep_view());
            lemma_lex_cmp_eq(dv[pos as int].0, keyv);
        }
        assert(found == (first_geq(dv, keyv) < dv.len() && lex_cmp(
            dv[first_geq(dv, keyv)].0,
            keyv,
        ) == Ordering::Equal));
    }
    if found {
        let mut entry = map.remove(pos);
        entry.1.push(value);
        map.insert(pos, (key, entry.1));
        proof {
            assert(map.deep_view() =~~= assoc_push(dv, keyv, value.deep_view()));
        }
    } else {
        let mut items: Vec<T> = Vec::new();
        items.push(value);
        map.insert(pos, (key, items));
        proof {
            assert(Seq::<T::V>::empty().push(value.deep_view()) =~= items.deep_view());
            assert(map.deep_view() =~~= assoc_push(dv, keyv, value.deep_view()));
        }
    }
}

/// The keys of an association list stand in strictly increasing order.
pub open spec fn sorted_keys<T>(s: Seq<(Seq<char>, T)>) -> bool {
    forall|i: int, j: int|
        0 <= i && i + 1 == j && j < s.len() ==> lex_cmp(#[trigger] s[i].0, #[trigger] s[j].0)
            == Ordering::Less
}

/// Every key before `first_geq` is below the key looked for, and the key at
/// `first_geq`, if any, is not.
pub proof fn lemma_first_geq_props<T>(s: Seq<(Seq<char>, T)>, key: Seq<char>)
    ensures
        forall|k: int| 0 <= k < first_geq(s, key) ==> lex_cmp(#[trigger] s[k].0, key)
            == Ordering::Less,
        first_geq(s, key) < s.len() ==> lex_cmp(s[first_geq(s, key)].0, key) != Ordering::Less,
    decreases s.len(),
{
    lemma_first_geq_bounds(s, key);
    if s.len() > 0 && lex_cmp(s[0].0, key) == Ordering::Less {
        let rest = s.drop_first();
        lemma_first_geq_props(rest, key);
        assert forall|k: int|
            0 <= k < first_geq(s, key) implies lex_cmp(#[trigger] s[k].0, key)
            == Ordering::Less by {
            if k > 0 {
                assert(rest[k - 1] == s[k]);
            }
        }
        lemma_first_geq_bounds(rest, key);
        assert(first_geq(s, key) == 1 + first_geq(rest, key));
        if first_geq(s, key) < s.len() {
            assert(rest[first_geq(rest, key)] == s[first_geq(s, key)]);
        }
    }
}

/// Binding a key keeps the keys strictly sorted, so they stay unique too.
pub proof fn lemma_assoc_insert_sorted<T>(s: Seq<(Seq<char>, T)>, key: Seq<char>, value: T)
    requires
        sorted_keys(s),
    ensures
        sorted_keys(assoc_insert(s, key, value)),
{
    lemma_first_geq_bounds(s, key);
    lemma_first_geq_props(s, key);
    let i = first_geq(s, key);
    let r = assoc_insert(s, key, value);
    if i < s.len() && lex_cmp(s[i].0, key) == Ordering::Equal {
        lemma_lex_cmp_eq(s[i].0, key);
        assert(r.len() == s.len());
        assert forall|k: int, m: int|
            0 <= k && k + 1 == m && m < r.len() implies lex_cmp(#[trigger] r[k].0, #[trigger] r[m].0)
            == Ordering::Less by {
            assert(r[k].0 == s[k].0);
            assert(r[m].0 == s[m].0);
            assert(lex_cmp(s[k].0, s[m].0) == Ordering::Less);
        }
    } else {
        if i < s.len() {
            lemma_lex_cmp_flip(s[i].0, key);
            lemma_lex_cmp_eq(s[i].0, key);
        }
        assert(r.len() == s.len() + 1);
        assert forall|k: int, m: int|
            0 <= k && k + 1 == m && m < r.len() implies lex_cmp(#[trigger] r[k].0, #[trigger] r[m].0)
            == Ordering::Less by {
            if m < i {
                assert(r[k].0 == s[k].0);
                assert(r[m].0 == s[m].0);
                assert(lex_cmp(s[k].0, s[m].0) == Ordering::Less);
            } else if m == i {
                assert(r[k].0 == s[k].0);
                assert(r[m].0 == key);
                assert(lex_cmp(s[k].0, key) == Ordering::Less);
            } else if k == i {
                assert(r[k].0 == key);
                assert(r[m].0 == s[k].0);
                assert(lex_cmp(s[k].0, key) != Ordering::Less);
                assert(lex_cmp(s[k].0, key) != Ordering::Equal);
                assert(lex_cmp(key, s[k].0) == Ordering::Less);
            } else {
                assert(r[k].0 == s[k - 1].0);
                assert(r[m].0 == s[k].0);
                assert(lex_cmp(s[k - 1].0, s[k].0) == Ordering::Less);
            }
        }
    }
}

/// Dropping a binding keeps the keys strictly sorted.
pub proof fn lemma_assoc_remove_sorted<T>(s: Seq<(Seq<char>, T)>, key: Seq<char>)
    requires
        sorted_keys(s),
    ensures
        sorted_keys(assoc_remove(s, key)),
{
    lemma_first_geq_bounds(s, key);
    let i = first_geq(s, key);
    if i < s.len() && lex_cmp(s[i].0, key) == Ordering::Equal {
        let r = s.take(i) + s.skip(i + 1);
        assert forall|k: int, m: int|
            0 <= k && k + 1 == m && m < r.len() implies lex_cmp(#[trigger] r[k].0, #[trigger] r[m].0)
            == Ordering::Less by {
            if m < i {
                assert(r[k].0 == s[k].0);
                assert(r[m].0 == s[m].0);
                assert(lex_cmp(s[k].0, s[m].0) == Ordering::Less);
            } else if m == i {
                assert(r[k].0 == s[k].0);
                assert(r[m].0 == s[i + 1].0);
                assert(lex_cmp(s[k].0, s[i].0) == Ordering::Less);
                assert(lex_cmp(s[i].0, s[i + 1].0) == Ordering::Less);
                lemma_lex_cmp_trans(s[k].0, s[i].0, s[i + 1].0);
            } else {
                assert(r[k].0 == s[k + 1].0);
                assert(r[m].0 == s[m + 1].0);
                assert(lex_cmp(s[k + 1].0, s[m + 1].0) == Ordering::Less);
            }
        }
    }
}

/// Rebinding a key in a map of maps keeps every level's keys sorted.
pub proof fn lemma_assoc_insert_nested_sorted<E>(
    s: Seq<(Seq<char>, Seq<(Seq<char>, E)>)>,
    key: Seq<char>,
    value: Seq<(Seq<char>, E)>,
)
    requires
        sorted_keys(s),
        forall|m: int| 0 <= m < s.len() ==> sorted_keys(#[trigger] s[m].1),
        sorted_keys(value),
    ensures
        sorted_keys(assoc_insert(s, key, value)),
        forall|m: int|
            0 <= m < assoc_insert(s, key, value).len() ==> sorted_keys(
                #[trigger] assoc_insert(s, key, value)[m].1,
            ),
{
    lemma_assoc_insert_sorted(s, key, value);
    lemma_first_geq_bounds(s, key);
    let i = first_geq(s, key);
    let r = assoc_insert(s, key, value);
    assert forall|m: int| 0 <= m < r.len() implies sorted_keys(#[trigger] r[m].1) by {
        if i < s.len() && lex_cmp(s[i].0, key) == Ordering::Equal {
            if m < i {
                assert(r[m] == s[m]);
                assert(sorted_keys(s[m].1));
            } else if m == i {
                assert(r[m].1 == value);
            } else {
                assert(r[m] == s[m]);
                assert(sorted_keys(s[m].1));
            }
        } else {
            if m < i {
                assert(r[m] == s[m]);
                assert(sorted_keys(s[m].1));
            } else if m == i {
                assert(r[m].1 == value);
            } else {
                assert(r[m] == s[m - 1]);
                assert(sorted_keys(s[m - 1].1));
            }
        }
    }
}

/// In a strictly sorted list every earlier key is below every later one.
pub proof fn lemma_sorted_keys_order<T>(s: Seq<(Seq<char>, T)>, i: int, j: int)
    requires
        sorted_keys(s),
        0 <= i < j < s.len(),
    ensures
        lex_cmp(s[i].0, s[j].0) == Ordering::Less,
    decreases j - i,
{
    if j == i + 1 {
        assert(lex_cmp(s[i].0, s[j].0) == Ordering::Less);
    } else {
        lemma_sorted_keys_order(s, i, j - 1);
        assert(lex_cmp(s[j - 1].0, s[j].0) == Ordering::Less);
        lemma_lex_cmp_trans(s[i].0, s[j - 1].0, s[j].0);
    }
}

/// Strictly sorted keys are pairwise distinct.
pub proof fn lemma_sorted_keys_distinct<T>(s: Seq<(Seq<char>, T)>, i: int, j: int)
    requires
        sorted_keys(s),
        0 <= i < j < s.len(),
    ensures
        s[i].0 != s[j].0,
{
    lemma_sorted_keys_order(s, i, j);
    lemma_lex_cmp_eq(s[i].0, s[j].0);
}

} // verus!
