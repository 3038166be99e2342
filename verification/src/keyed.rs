//! Sequences of records keyed by an id, read as maps from id to record.
//!
//! The store keeps each kind of record in a vector whose ids are pairwise
//! distinct; `lookup`, `upsert` and `without_key` give such a vector the
//! meaning of a map, as a `HashMap` keyed by id would have it.
use vstd::prelude::*;

verus! {

/// A record with an id.
pub trait Keyed {
    spec fn key(self) -> Seq<char>;
}

/// No two records of `s` share an id.
pub open spec fn unique_keys<T: Keyed>(s: Seq<T>) -> bool {
    forall|i: int, j: int|
        #![trigger s[i].key(), s[j].key()]
        0 <= i < s.len() && 0 <= j < s.len() && s[i].key() == s[j].key() ==> i == j
}

/// Some record of `s` has id `k`.
pub open spec fn has_key<T: Keyed>(s: Seq<T>, k: Seq<char>) -> bool {
    exists|i: int| 0 <= i < s.len() && #[trigger] s[i].key() == k
}

/// The position of the record with id `k`.
pub open spec fn key_index<T: Keyed>(s: Seq<T>, k: Seq<char>) -> int {
    choose|i: int| 0 <= i < s.len() && #[trigger] s[i].key() == k
}

/// The record with id `k` (meaningful where `has_key(s, k)`).
pub open spec fn lookup<T: Keyed>(s: Seq<T>, k: Seq<char>) -> T {
    s[key_index(s, k)]
}

/// `s` with `x` stored under its id: it replaces the record with that id,
/// or is added at the end when there is none.
pub open spec fn upsert<T: Keyed>(s: Seq<T>, x: T) -> Seq<T> {
    if has_key(s, x.key()) {
        s.update(key_index(s, x.key()), x)
    } else {
        s.push(x)
    }
}

/// Holds of the records whose id is not `k`.
pub open spec fn key_differs<T: Keyed>(k: Seq<char>) -> spec_fn(T) -> bool {
    |x: T| x.key() != k
}

/// `s` without the record with id `k`.
pub open spec fn without_key<T: Keyed>(s: Seq<T>, k: Seq<char>) -> Seq<T> {
    s.filter(key_differs(k))
}

pub proof fn lemma_key_index<T: Keyed>(s: Seq<T>, k: Seq<char>)
    requires
        has_key(s, k),
    ensures
        0 <= key_index(s, k) < s.len(),
        s[key_index(s, k)].key() == k,
        unique_keys(s) ==> forall|i: int|
            0 <= i < s.len() && #[trigger] s[i].key() == k ==> i == key_index(s, k),
{
}

pub proof fn lemma_index_is_key_index<T: Keyed>(s: Seq<T>, i: int)
    requires
        unique_keys(s),
        0 <= i < s.len(),
    ensures
        has_key(s, s[i].key()),
        key_index(s, s[i].key()) == i,
        lookup(s, s[i].key()) == s[i],
{
    lemma_key_index(s, s[i].key());
}

pub proof fn lemma_upsert<T: Keyed>(s: Seq<T>, x: T)
    requires
        unique_keys(s),
    ensures
        unique_keys(upsert(s, x)),
        has_key(upsert(s, x), x.key()),
        lookup(upsert(s, x), x.key()) == x,
        forall|k: Seq<char>|
            k != x.key() ==> (#[trigger] has_key(upsert(s, x), k) == has_key(s, k)),
        forall|k: Seq<char>|
            k != x.key() && has_key(s, k) ==> #[trigger] lookup(upsert(s, x), k) == lookup(s, k),
{
    let u = upsert(s, x);
    if has_key(s, x.key()) {
        lemma_key_index(s, x.key());
        let ix = key_index(s, x.key());
        assert(u[ix].key() == x.key());
        lemma_key_index(u, x.key());
        assert forall|k: Seq<char>| k != x.key() implies #[trigger] has_key(u, k) == has_key(s, k) by {
            if has_key(s, k) {
                let i = key_index(s, k);
                lemma_key_index(s, k);
                assert(u[i].key() == k);
            }
            if has_key(u, k) {
                let i = key_index(u, k);
                lemma_key_index(u, k);
                assert(s[i].key() == k);
            }
        }
        assert forall|k: Seq<char>| k != x.key() && has_key(s, k) implies #[trigger] lookup(u, k)
            == lookup(s, k) by {
            lemma_key_index(s, k);
            let i = key_index(s, k);
            assert(u[i].key() == k);
            lemma_key_index(u, k);
        }
    } else {
        let n = s.len() as int;
        assert(u[n].key() == x.key());
        lemma_key_index(u, x.key());
        assert forall|k: Seq<char>| k != x.key() implies #[trigger] has_key(u, k) == has_key(s, k) by {
            if has_key(s, k) {
                let i = key_index(s, k);
                lemma_key_index(s, k);
                assert(u[i].key() == k);
            }
            if has_key(u, k) {
                let i = key_index(u, k);
                lemma_key_index(u, k);
                assert(s[i].key() == k);
            }
        }
        assert forall|k: Seq<char>| k != x.key() && has_key(s, k) implies #[trigger] lookup(u, k)
            == lookup(s, k) by {
            lemma_key_index(s, k);
            let i = key_index(s, k);
            assert(u[i].key() == k);
            lemma_key_index(u, k);
        }
    }
}

/// Filtering keeps exactly the records that satisfy the predicate.
pub proof fn lemma_filter_contains<T>(s: Seq<T>, p: spec_fn(T) -> bool)
    ensures
        forall|x: T| #[trigger] s.filter(p).contains(x) <==> (s.contains(x) && p(x)),
    decreases s.len(),
{
    reveal(Seq::filter);
    if s.len() > 0 {
        lemma_filter_contains(s.drop_last(), p);
        let f = s.filter(p);
        let g = s.drop_last().filter(p);
        assert(f == if p(s.last()) { g.push(s.last()) } else { g });
        assert forall|x: T| #[trigger] f.contains(x) <==> (s.contains(x) && p(x)) by {
            if f.contains(x) {
                let i = choose|i: int| 0 <= i < f.len() && f[i] == x;
                if p(s.last()) && i == g.len() {
                    assert(s[s.len() - 1] == x);
                } else {
                    assert(g[i] == x);
                    assert(g.contains(x));
                    let j = choose|j: int| 0 <= j < s.drop_last().len() && s.drop_last()[j] == x;
                    assert(s[j] == x);
                }
            }
            if s.contains(x) && p(x) {
                let i = choose|i: int| 0 <= i < s.len() && s[i] == x;
                if i == s.len() - 1 {
                    assert(f[g.len() as int] == x);
                } else {
                    assert(s.drop_last()[i] == x);
                    assert(g.contains(x));
                    let j = choose|j: int| 0 <= j < g.len() && g[j] == x;
                    assert(f[j] == x);
                }
            }
        }
    }
}

pub proof fn lemma_filter_unique<T: Keyed>(s: Seq<T>, p: spec_fn(T) -> bool)
    requires
        unique_keys(s),
    ensures
        unique_keys(s.filter(p)),
    decreases s.len(),
{
    reveal(Seq::filter);
    if s.len() > 0 {
        let d = s.drop_last();
        assert(unique_keys(d)) by {
            assert forall|i: int, j: int|
                0 <= i < d.len() && 0 <= j < d.len() && #[trigger] d[i].key() == #[trigger] d[j].key()
                implies i == j by {
                assert(s[i].key() == s[j].key());
            }
        }
        lemma_filter_unique(d, p);
        lemma_filter_contains(d, p);
        let g = d.filter(p);
        if p(s.last()) {
            let f = g.push(s.last());
            assert forall|i: int, j: int|
                0 <= i < f.len() && 0 <= j < f.len() && #[trigger] f[i].key() == #[trigger] f[j].key()
                implies i == j by {
                if i < g.len() && j == g.len() {
                    assert(g.contains(g[i]));
                    let m = choose|m: int| 0 <= m < d.len() && d[m] == g[i];
                    assert(s[m].key() == s[s.len() - 1].key());
                } else if j < g.len() && i == g.len() {
                    assert(g.contains(g[j]));
                    let m = choose|m: int| 0 <= m < d.len() && d[m] == g[j];
                    assert(s[m].key() == s[s.len() - 1].key());
                } else if i < g.len() && j < g.len() {
                    assert(g[i].key() == g[j].key());
                }
            }
        }
    }
}

/// Lookups in a filtered sequence of records with distinct ids.
pub proof fn lemma_filter_lookup<T: Keyed>(s: Seq<T>, p: spec_fn(T) -> bool)
    requires
        unique_keys(s),
    ensures
        unique_keys(s.filter(p)),
        forall|k: Seq<char>|
            #[trigger] has_key(s.filter(p), k) == (has_key(s, k) && p(lookup(s, k))),
        forall|k: Seq<char>|
            has_key(s.filter(p), k) ==> #[trigger] lookup(s.filter(p), k) == lookup(s, k),
{
    lemma_filter_unique(s, p);
    lemma_filter_contains(s, p);
    let f = s.filter(p);
    assert forall|k: Seq<char>| #[trigger] has_key(f, k) == (has_key(s, k) && p(lookup(s, k))) by {
        if has_key(f, k) {
            lemma_key_index(f, k);
            let i = key_index(f, k);
            assert(f.contains(f[i]));
            let j = choose|j: int| 0 <= j < s.len() && s[j] == f[i];
            lemma_key_index(s, k);
        }
        if has_key(s, k) && p(lookup(s, k)) {
            lemma_key_index(s, k);
            let i = key_index(s, k);
            assert(s.contains(s[i]));
            assert(f.contains(s[i]));
            let j = choose|j: int| 0 <= j < f.len() && f[j] == s[i];
            assert(f[j].key() == k);
        }
    }
    assert forall|k: Seq<char>| has_key(f, k) implies #[trigger] lookup(f, k) == lookup(s, k) by {
        lemma_key_index(f, k);
        let i = key_index(f, k);
        assert(f.contains(f[i]));
        let j = choose|j: int| 0 <= j < s.len() && s[j] == f[i];
        lemma_key_index(s, k);
    }
}

/// Mapping every record by an id-preserving function.
pub proof fn lemma_map_lookup<T: Keyed>(s: Seq<T>, f: spec_fn(T) -> T)
    requires
        unique_keys(s),
        forall|x: T| #[trigger] f(x).key() == x.key(),
    ensures
        unique_keys(s.map_values(f)),
        forall|k: Seq<char>| #[trigger] has_key(s.map_values(f), k) == has_key(s, k),
        forall|k: Seq<char>|
            has_key(s, k) ==> #[trigger] lookup(s.map_values(f), k) == f(lookup(s, k)),
        forall|k: Seq<char>| has_key(s, k) ==> #[trigger] key_index(s.map_values(f), k) == key_index(s, k),
{
    let m = s.map_values(f);
    assert forall|i: int, j: int|
        0 <= i < m.len() && 0 <= j < m.len() && #[trigger] m[i].key() == #[trigger] m[j].key()
        implies i == j by {
        assert(f(s[i]).key() == s[i].key());
        assert(f(s[j]).key() == s[j].key());
    }
    assert forall|k: Seq<char>| #[trigger] has_key(m, k) == has_key(s, k) by {
        if has_key(m, k) {
            lemma_key_index(m, k);
            let i = key_index(m, k);
            assert(f(s[i]).key() == s[i].key());
        }
        if has_key(s, k) {
            lemma_key_index(s, k);
            let i = key_index(s, k);
            assert(f(s[i]).key() == s[i].key());
            assert(m[i].key() == k);
        }
    }
    assert forall|k: Seq<char>| has_key(s, k) implies #[trigger] key_index(m, k) == key_index(s, k) by {
        lemma_key_index(s, k);
        let i = key_index(s, k);
        assert(f(s[i]).key() == s[i].key());
        assert(m[i].key() == k);
        lemma_key_index(m, k);
    }
}


/// `without_key` filters with any predicate that keeps exactly the other ids.
pub proof fn lemma_without_key_filter<T: Keyed>(s: Seq<T>, k: Seq<char>, p: spec_fn(T) -> bool)
    requires
        forall|x: T| #[trigger] p(x) == (x.key() != k),
    ensures
        without_key(s, k) == s.filter(p),
{
    assert(key_differs::<T>(k) =~= p);
}

} // verus!
