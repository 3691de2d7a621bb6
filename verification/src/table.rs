//! Id-keyed tables. Every table of the world is a `Vec` of rows that carry
//! their own id, kept in strictly increasing id order, so iterating a table is
//! iterating in id order and an id names at most one row.
use vstd::prelude::*;

verus! {

/// A row that carries its own id.
pub trait Keyed {
    /// The row's id.
    spec fn key_of(&self) -> u32;

    /// The row's id.
    fn key(&self) -> (k: u32)
        ensures
            k == self.key_of(),
    ;
}

/// Ids strictly increase along the table.
pub open spec fn ids_increasing<T: Keyed>(s: Seq<T>) -> bool {
    forall|i: int, j: int| 0 <= i < j < s.len() ==> s[i].key_of() < s[j].key_of()
}

/// The first position at or after `i` whose row has id `id`.
pub open spec fn find_from<T: Keyed>(s: Seq<T>, id: u32, i: int) -> Option<int>
    decreases s.len() - i,
{
    if i < 0 || i >= s.len() {
        None
    } else if s[i].key_of() == id {
        Some(i)
    } else {
        find_from(s, id, i + 1)
    }
}

/// The position of the row with id `id`, if any.
pub open spec fn find<T: Keyed>(s: Seq<T>, id: u32) -> Option<int> {
    find_from(s, id, 0)
}

/// The row with id `id`, if any.
pub open spec fn lookup<T: Keyed>(s: Seq<T>, id: u32) -> Option<T> {
    match find(s, id) {
        Some(i) => Some(s[i]),
        None => None,
    }
}

/// Whether some row has id `id`.
pub open spec fn has_key<T: Keyed>(s: Seq<T>, id: u32) -> bool {
    exists|i: int| 0 <= i < s.len() && s[i].key_of() == id
}

/// What `find_from` returns: the first matching position, or none at all.
pub proof fn lemma_find_from<T: Keyed>(s: Seq<T>, id: u32, i: int)
    requires
        0 <= i,
    ensures
        match find_from(s, id, i) {
            Some(j) => i <= j < s.len() && s[j].key_of() == id && forall|k: int|
                i <= k < j ==> s[k].key_of() != id,
            None => forall|k: int| i <= k < s.len() ==> s[k].key_of() != id,
        },
    decreases s.len() - i,
{
    if i < s.len() && s[i].key_of() != id {
        lemma_find_from(s, id, i + 1);
    }
}

/// What `find` returns.
pub proof fn lemma_find<T: Keyed>(s: Seq<T>, id: u32)
    ensures
        match find(s, id) {
            Some(j) => 0 <= j < s.len() && s[j].key_of() == id && forall|k: int|
                0 <= k < j ==> s[k].key_of() != id,
            None => forall|k: int| 0 <= k < s.len() ==> s[k].key_of() != id,
        },
        find(s, id) is Some <==> has_key(s, id),
{
    lemma_find_from(s, id, 0);
}

/// In a table with increasing ids, the row with id `s[j].key_of()` is at `j`.
pub proof fn lemma_find_unique<T: Keyed>(s: Seq<T>, j: int)
    requires
        ids_increasing(s),
        0 <= j < s.len(),
    ensures
        find(s, s[j].key_of()) == Some(j),
{
    lemma_find(s, s[j].key_of());
}

/// Tables whose rows carry the same ids in the same places find the same positions.
pub proof fn lemma_find_same_keys<T: Keyed>(s: Seq<T>, t: Seq<T>, id: u32)
    requires
        s.len() == t.len(),
        forall|k: int| 0 <= k < s.len() ==> s[k].key_of() == t[k].key_of(),
    ensures
        find(s, id) == find(t, id),
{
    lemma_find(s, id);
    lemma_find(t, id);
}

/// Replacing a row by one with the same id keeps ids increasing.
pub proof fn lemma_update_keeps_ids<T: Keyed>(s: Seq<T>, j: int, x: T)
    requires
        ids_increasing(s),
        0 <= j < s.len(),
        x.key_of() == s[j].key_of(),
    ensures
        ids_increasing(s.update(j, x)),
        forall|id: u32| find(s.update(j, x), id) == find(s, id),
{
    assert forall|id: u32| find(s.update(j, x), id) == find(s, id) by {
        lemma_find_same_keys(s.update(j, x), s, id);
    }
}

/// The position of the row with id `id`.
pub fn index_of<T: Keyed>(v: &Vec<T>, id: u32) -> (r: Option<usize>)
    ensures
        match r {
            Some(j) => j < v.len() && find(v@, id) == Some(j as int),
            None => find(v@, id) is None,
        },
{
    let mut i: usize = 0;
    while i < v.len()
        invariant
            i <= v.len(),
            find(v@, id) == find_from(v@, id, i as int),
        decreases v.len() - i,
    {
        if v[i].key() == id {
            return Some(i);
        }
        i = i + 1;
    }
    None
}

/// The row with id `id`.
pub fn get<'a, T: Keyed>(v: &'a Vec<T>, id: u32) -> (r: Option<&'a T>)
    ensures
        match r {
            Some(x) => lookup(v@, id) == Some(*x),
            None => lookup(v@, id) is None,
        },
{
    match index_of(v, id) {
        Some(j) => Some(&v[j]),
        None => None,
    }
}

/// Whether a row has id `id`.
pub fn contains_key<T: Keyed>(v: &Vec<T>, id: u32) -> (b: bool)
    ensures
        b == find(v@, id) is Some,
        b == has_key(v@, id),
{
    proof {
        lemma_find(v@, id);
    }
    index_of(v, id).is_some()
}

/// Put `x` in its place by id: replacing the row with the same id, else
/// inserting it before the first row with a larger id.
pub fn upsert<T: Keyed>(v: &mut Vec<T>, x: T)
    requires
        ids_increasing(old(v)@),
    ensures
        ids_increasing(final(v)@),
        lookup(final(v)@, x.key_of()) == Some(x),
        forall|id: u32| id != x.key_of() ==> #[trigger] lookup(final(v)@, id) == lookup(old(v)@, id),
        has_key(old(v)@, x.key_of()) ==> final(v)@.len() == old(v)@.len(),
        !has_key(old(v)@, x.key_of()) ==> final(v)@.len() == old(v)@.len() + 1,
        match find(old(v)@, x.key_of()) {
            Some(j) => final(v)@ == old(v)@.update(j, x),
            None => exists|j: int| 0 <= j <= old(v)@.len() && final(v)@ == old(v)@.insert(j, x),
        },
{
    let id = x.key();
    let mut i: usize = 0;
    while i < v.len() && v[i].key() < id
        invariant
            i <= v.len(),
            v@ == old(v)@,
            ids_increasing(v@),
            forall|k: int| 0 <= k < i ==> v@[k].key_of() < id,
        decreases v.len() - i,
    {
        i = i + 1;
    }
    let ghost s = v@;
    assert(i == s.len() || s[i as int].key_of() >= id);
    if i < v.len() && v[i].key() == id {
        v.set(i, x);
        proof {
            lemma_find_unique(s, i as int);
            lemma_update_keeps_ids(s, i as int, x);
            lemma_find_unique(v@, i as int);
            assert forall|id: u32| id != x.key_of() implies #[trigger] lookup(v@, id) == lookup(s, id) by {
                lemma_find(s, id);
            }
        }
    } else {
        v.insert(i, x);
        proof {
            assert(v@ == s.insert(i as int, x));
            assert(!has_key(s, id)) by {
                if has_key(s, id) {
                    let k = choose|k: int| 0 <= k < s.len() && s[k].key_of() == id;
                    if k > i {
                        assert(s[i as int].key_of() < s[k].key_of());
                    }
                }
            }
            assert forall|a: int, b: int| 0 <= a < b < v@.len() implies v@[a].key_of() < v@[b].key_of() by {
                if b < i {
                } else if a < i && b == i {
                } else if a < i {
                    assert(v@[b] == s[b - 1]);
                } else if a == i {
                    assert(v@[b] == s[b - 1]);
                    assert(s[i as int].key_of() >= id || i == s.len());
                    if b - 1 > i {
                        assert(s[i as int].key_of() < s[b - 1].key_of());
                    }
                } else {
                    assert(v@[a] == s[a - 1]);
                    assert(v@[b] == s[b - 1]);
                }
            }
            lemma_find_unique(v@, i as int);
            assert forall|id: u32| id != x.key_of() implies #[trigger] lookup(v@, id) == lookup(s, id) by {
                lemma_find(s, id);
                lemma_find(v@, id);
                match find(s, id) {
                    Some(j) => {
                        let jj = if j < i { j } else { j + 1 };
                        assert(v@[jj] == s[j]);
                        lemma_find_unique(v@, jj);
                        lemma_find_unique(s, j);
                    },
                    None => {
                        assert forall|k: int| 0 <= k < v@.len() implies v@[k].key_of() != id by {
                            if k < i {
                                assert(v@[k] == s[k]);
                            } else if k > i {
                                assert(v@[k] == s[k - 1]);
                            }
                        }
                    },
                }
            }
            lemma_find(s, id);
        }
    }
}

/// The first position at or after `i` whose row satisfies `p`.
pub open spec fn first_from<T>(s: Seq<T>, p: spec_fn(T) -> bool, i: int) -> Option<int>
    decreases s.len() - i,
{
    if i < 0 || i >= s.len() {
        None
    } else if p(s[i]) {
        Some(i)
    } else {
        first_from(s, p, i + 1)
    }
}

/// The first position whose row satisfies `p`.
pub open spec fn first<T>(s: Seq<T>, p: spec_fn(T) -> bool) -> Option<int> {
    first_from(s, p, 0)
}

/// What `first_from` returns: the first satisfying position, or none at all.
pub proof fn lemma_first_from<T>(s: Seq<T>, p: spec_fn(T) -> bool, i: int)
    requires
        0 <= i,
    ensures
        match first_from(s, p, i) {
            Some(j) => i <= j < s.len() && p(s[j]) && forall|k: int| i <= k < j ==> !p(#[trigger] s[k]),
            None => forall|k: int| i <= k < s.len() ==> !p(#[trigger] s[k]),
        },
    decreases s.len() - i,
{
    if i < s.len() && !p(s[i]) {
        lemma_first_from(s, p, i + 1);
    }
}

/// What `first` returns.
pub proof fn lemma_first<T>(s: Seq<T>, p: spec_fn(T) -> bool)
    ensures
        match first(s, p) {
            Some(j) => 0 <= j < s.len() && p(s[j]) && forall|k: int| 0 <= k < j ==> !p(#[trigger] s[k]),
            None => forall|k: int| 0 <= k < s.len() ==> !p(#[trigger] s[k]),
        },
{
    lemma_first_from(s, p, 0);
}

} // verus!
