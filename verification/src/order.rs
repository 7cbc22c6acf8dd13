//! Code-point order on strings (the order of `str::cmp`, since UTF-8 keeps
//! code-point order) and a stable insertion sort by a string key.
use vstd::prelude::*;

use crate::text::chars_of;

verus! {

/// Whether `a` comes strictly before `b` in code-point lexicographic order.
pub open spec fn seq_lt(a: Seq<char>, b: Seq<char>) -> bool
    decreases a.len(),
{
    if a.len() == 0 {
        b.len() > 0
    } else if b.len() == 0 {
        false
    } else if a[0] != b[0] {
        a[0] < b[0]
    } else {
        seq_lt(a.drop_first(), b.drop_first())
    }
}

pub proof fn lemma_lt_irreflexive(a: Seq<char>)
    ensures
        !seq_lt(a, a),
    decreases a.len(),
{
    if a.len() > 0 {
        lemma_lt_irreflexive(a.drop_first());
    }
}

pub proof fn lemma_lt_transitive(a: Seq<char>, b: Seq<char>, c: Seq<char>)
    requires
        seq_lt(a, b),
        seq_lt(b, c),
    ensures
        seq_lt(a, c),
    decreases a.len(),
{
    if a.len() > 0 && b.len() > 0 && c.len() > 0 {
        if a[0] == b[0] && b[0] == c[0] {
            lemma_lt_transitive(a.drop_first(), b.drop_first(), c.drop_first());
        }
    }
}

pub proof fn lemma_lt_total(a: Seq<char>, b: Seq<char>)
    ensures
        a == b || seq_lt(a, b) || seq_lt(b, a),
        !(seq_lt(a, b) && seq_lt(b, a)),
    decreases a.len(),
{
    if a.len() > 0 && b.len() > 0 {
        if a[0] == b[0] {
            lemma_lt_total(a.drop_first(), b.drop_first());
            if a.drop_first() == b.drop_first() {
                assert(a =~= seq![a[0]] + a.drop_first());
                assert(b =~= seq![b[0]] + b.drop_first());
            }
        }
    } else if a.len() == 0 && b.len() == 0 {
        assert(a =~= b);
    }
}

/// Whether `a` comes strictly before `b` in code-point order.
pub fn chars_lt(a: &Vec<char>, b: &Vec<char>) -> (r: bool)
    ensures
        r == seq_lt(a@, b@),
{
    let mut i: usize = 0;
    assert(a@.skip(0) =~= a@);
    assert(b@.skip(0) =~= b@);
    while i < a.len() && i < b.len()
        invariant
            i <= a.len(),
            i <= b.len(),
            seq_lt(a@, b@) == seq_lt(a@.skip(i as int), b@.skip(i as int)),
        decreases a.len() - i,
    {
        if a[i] != b[i] {
            return a[i] < b[i];
        }
        assert(a@.skip(i as int).drop_first() =~= a@.skip(i + 1));
        assert(b@.skip(i as int).drop_first() =~= b@.skip(i + 1));
        i += 1;
    }
    i == a.len() && i < b.len()
}

/// Whether the string `a` comes strictly before `b` in code-point order.
pub fn str_lt(a: &str, b: &str) -> (r: bool)
    ensures
        r == seq_lt(a@, b@),
{
    let va = chars_of(a);
    let vb = chars_of(b);
    chars_lt(&va, &vb)
}

/// Values with an order to sort them by: `key_lt` is a strict weak order
/// (irreflexive, transitive, and "not before" is transitive too), so that
/// elements that neither precede the other keep their order in a stable sort.
pub trait SortKey: Sized {
    /// Whether `a` sorts strictly before `b`.
    spec fn key_lt(a: Self, b: Self) -> bool;

    proof fn lemma_key_lt_irreflexive(a: Self)
        ensures
            !Self::key_lt(a, a),
    ;

    proof fn lemma_key_lt_transitive(a: Self, b: Self, c: Self)
        requires
            Self::key_lt(a, b),
            Self::key_lt(b, c),
        ensures
            Self::key_lt(a, c),
    ;

    proof fn lemma_key_le_transitive(a: Self, b: Self, c: Self)
        requires
            !Self::key_lt(b, a),
            !Self::key_lt(c, b),
        ensures
            !Self::key_lt(c, a),
    ;

    fn sorts_before(&self, other: &Self) -> (r: bool)
        ensures
            r == Self::key_lt(*self, *other),
    ;
}

/// Strings sort in code-point order (the order of `str::cmp`).
impl SortKey for String {
    open spec fn key_lt(a: Self, b: Self) -> bool {
        seq_lt(a@, b@)
    }

    proof fn lemma_key_lt_irreflexive(a: Self) {
        lemma_lt_irreflexive(a@);
    }

    proof fn lemma_key_lt_transitive(a: Self, b: Self, c: Self) {
        lemma_lt_transitive(a@, b@, c@);
    }

    proof fn lemma_key_le_transitive(a: Self, b: Self, c: Self) {
        lemma_le_transitive(a@, b@, c@);
    }

    fn sorts_before(&self, other: &Self) -> (r: bool) {
        str_lt(self.as_str(), other.as_str())
    }
}

/// `x` inserted into `sorted` after every element whose key is not greater
/// than its own.
pub open spec fn insert_stable<T: SortKey>(sorted: Seq<T>, x: T) -> Seq<T>
    decreases sorted.len(),
{
    if sorted.len() == 0 {
        seq![x]
    } else if T::key_lt(x, sorted.last()) {
        insert_stable(sorted.drop_last(), x).push(sorted.last())
    } else {
        sorted.push(x)
    }
}

/// The stable sort of `s` by key: elements with equal keys keep their order.
pub open spec fn stable_sorted<T: SortKey>(s: Seq<T>) -> Seq<T>
    decreases s.len(),
{
    if s.len() == 0 {
        Seq::<T>::empty()
    } else {
        insert_stable(stable_sorted(s.drop_last()), s.last())
    }
}

/// Whether the keys of `s` never decrease.
pub open spec fn sorted_by_key<T: SortKey>(s: Seq<T>) -> bool {
    forall|i: int, j: int| 0 <= i < j < s.len() ==> !T::key_lt(#[trigger] s[j], #[trigger] s[i])
}

proof fn lemma_insert_stable_split<T: SortKey>(sorted: Seq<T>, x: T, p: int)
    requires
        0 <= p <= sorted.len(),
        p == 0 || !T::key_lt(x, sorted[p - 1]),
        forall|k: int| p <= k < sorted.len() ==> T::key_lt(x, sorted[k]),
    ensures
        insert_stable(sorted, x) == sorted.take(p).push(x) + sorted.skip(p),
    decreases sorted.len(),
{
    if sorted.len() == p {
        if p == 0 {
            assert(sorted.take(0).push(x) + sorted.skip(0) =~= seq![x]);
        } else {
            assert(sorted.last() == sorted[p - 1]);
            assert(sorted.take(p).push(x) + sorted.skip(p) =~= sorted.push(x));
        }
    } else {
        let prefix = sorted.drop_last();
        assert(T::key_lt(x, sorted.last()));
        assert forall|k: int| p <= k < prefix.len() implies T::key_lt(x, prefix[k]) by {
            assert(prefix[k] == sorted[k]);
        }
        if p > 0 {
            assert(prefix[p - 1] == sorted[p - 1]);
        }
        lemma_insert_stable_split(prefix, x, p);
        assert(prefix.take(p) =~= sorted.take(p));
        assert(prefix.skip(p).push(sorted.last()) =~= sorted.skip(p));
        assert(insert_stable(sorted, x) =~= (prefix.take(p).push(x) + prefix.skip(p)).push(sorted.last()));
        assert((prefix.take(p).push(x) + prefix.skip(p)).push(sorted.last()) =~= sorted.take(p).push(x) + sorted.skip(p));
    }
}

/// `a <= b` and `b <= c` give `a <= c`.
pub proof fn lemma_le_transitive(a: Seq<char>, b: Seq<char>, c: Seq<char>)
    requires
        !seq_lt(b, a),
        !seq_lt(c, b),
    ensures
        !seq_lt(c, a),
{
    lemma_lt_total(a, b);
    if seq_lt(c, a) && seq_lt(a, b) {
        lemma_lt_transitive(c, a, b);
    }
}

proof fn lemma_insert_stable_bounded<T: SortKey>(s: Seq<T>, x: T, bound: T)
    requires
        forall|i: int| 0 <= i < s.len() ==> !T::key_lt(bound, s[i]),
        !T::key_lt(bound, x),
    ensures
        forall|i: int| 0 <= i < insert_stable(s, x).len() ==> !T::key_lt(bound, insert_stable(s, x)[i]),
    decreases s.len(),
{
    if s.len() > 0 && T::key_lt(x, s.last()) {
        let prefix = s.drop_last();
        assert forall|i: int| 0 <= i < prefix.len() implies !T::key_lt(bound, prefix[i]) by {
            assert(prefix[i] == s[i]);
        }
        lemma_insert_stable_bounded(prefix, x, bound);
        let r = insert_stable(s, x);
        assert forall|i: int| 0 <= i < r.len() implies !T::key_lt(bound, r[i]) by {
            if i < r.len() - 1 {
                assert(r[i] == insert_stable(prefix, x)[i]);
            } else {
                assert(r[i] == s[s.len() - 1]);
            }
        }
    } else if s.len() > 0 {
        let r = insert_stable(s, x);
        assert forall|i: int| 0 <= i < r.len() implies !T::key_lt(bound, r[i]) by {
            if i < s.len() {
                assert(r[i] == s[i]);
            }
        }
    } else {
        assert(insert_stable(s, x) =~= seq![x]);
    }
}

proof fn lemma_insert_stable_sorted<T: SortKey>(s: Seq<T>, x: T)
    requires
        sorted_by_key(s),
    ensures
        sorted_by_key(insert_stable(s, x)),
    decreases s.len(),
{
    if s.len() == 0 {
        assert(insert_stable(s, x) =~= seq![x]);
    } else if T::key_lt(x, s.last()) {
        let prefix = s.drop_last();
        let last = s.last();
        assert(sorted_by_key(prefix)) by {
            assert forall|i: int, j: int| 0 <= i < j < prefix.len() implies !T::key_lt(
                #[trigger] prefix[j],
                #[trigger] prefix[i],
            ) by {
                assert(prefix[i] == s[i] && prefix[j] == s[j]);
            }
        }
        lemma_insert_stable_sorted(prefix, x);
        assert forall|i: int| 0 <= i < prefix.len() implies !T::key_lt(last, prefix[i]) by {
            assert(prefix[i] == s[i]);
            assert(last == s[s.len() - 1]);
        }
        assert(!T::key_lt(last, x)) by {
            if T::key_lt(last, x) {
                T::lemma_key_lt_transitive(x, last, x);
                T::lemma_key_lt_irreflexive(x);
            }
        }
        lemma_insert_stable_bounded(prefix, x, last);
        let ip = insert_stable(prefix, x);
        let r = ip.push(last);
        assert forall|i: int, j: int| 0 <= i < j < r.len() implies !T::key_lt(#[trigger] r[j], #[trigger] r[i]) by {
            if j < r.len() - 1 {
                assert(r[i] == ip[i] && r[j] == ip[j]);
            } else {
                assert(r[j] == last);
                assert(r[i] == ip[i]);
            }
        }
    } else {
        let last = s.last();
        let r = s.push(x);
        assert forall|i: int, j: int| 0 <= i < j < r.len() implies !T::key_lt(#[trigger] r[j], #[trigger] r[i]) by {
            if j == s.len() {
                assert(r[j] == x);
                assert(r[i] == s[i]);
                if i < s.len() - 1 {
                    assert(last == s[s.len() - 1]);
                    T::lemma_key_le_transitive(s[i], last, x);
                }
            } else {
                assert(r[i] == s[i] && r[j] == s[j]);
            }
        }
    }
}

proof fn lemma_insert_stable_len<T: SortKey>(s: Seq<T>, x: T)
    ensures
        insert_stable(s, x).len() == s.len() + 1,
    decreases s.len(),
{
    if s.len() > 0 && T::key_lt(x, s.last()) {
        lemma_insert_stable_len(s.drop_last(), x);
    }
}

/// Inserting adds exactly `x` to the elements.
pub proof fn lemma_insert_stable_multiset<T: SortKey>(s: Seq<T>, x: T)
    ensures
        insert_stable(s, x).to_multiset() =~= s.to_multiset().insert(x),
    decreases s.len(),
{
    broadcast use vstd::seq_lib::group_to_multiset_ensures, vstd::multiset::group_multiset_axioms;

    if s.len() == 0 {
        assert(seq![x] =~= s.push(x));
    } else if T::key_lt(x, s.last()) {
        let prefix = s.drop_last();
        lemma_insert_stable_multiset(prefix, x);
        assert(s =~= prefix.push(s.last()));
    } else {
    }
}

/// The stable sort orders the elements by key.
pub proof fn lemma_stable_sorted_is_sorted<T: SortKey>(s: Seq<T>)
    ensures
        sorted_by_key(stable_sorted(s)),
    decreases s.len(),
{
    if s.len() > 0 {
        lemma_stable_sorted_is_sorted(s.drop_last());
        lemma_insert_stable_sorted(stable_sorted(s.drop_last()), s.last());
    }
}

/// The stable sort keeps every element, as often as it occurs.
pub proof fn lemma_stable_sorted_permutes<T: SortKey>(s: Seq<T>)
    ensures
        stable_sorted(s).to_multiset() =~= s.to_multiset(),
        stable_sorted(s).len() == s.len(),
    decreases s.len(),
{
    broadcast use vstd::seq_lib::group_to_multiset_ensures, vstd::multiset::group_multiset_axioms;

    if s.len() > 0 {
        lemma_stable_sorted_permutes(s.drop_last());
        lemma_insert_stable_multiset(stable_sorted(s.drop_last()), s.last());
        lemma_insert_stable_len(stable_sorted(s.drop_last()), s.last());
        assert(s =~= s.drop_last().push(s.last()));
    }
}

/// `v` sorted by key, stably.
pub fn sort_stable<T: SortKey>(v: Vec<T>) -> (r: Vec<T>)
    ensures
        r@ == stable_sorted(v@),
{
    let ghost original = v@;
    let mut pending = v;
    let mut reversed: Vec<T> = Vec::new();
    while pending.len() > 0
        invariant
            original == pending@ + reversed@.reverse(),
        decreases pending.len(),
    {
        let x = pending.pop().unwrap();
        proof {
            let old_rev = reversed@;
            assert(old_rev.push(x).reverse() =~= seq![x] + old_rev.reverse());
        }
        reversed.push(x);
        assert(original =~= pending@ + reversed@.reverse());
    }
    assert(original =~= reversed@.reverse());
    let mut r: Vec<T> = Vec::new();
    let ghost n = original.len();
    while reversed.len() > 0
        invariant
            n == original.len(),
            reversed@.len() <= n,
            reversed@.reverse() == original.skip(n - reversed@.len()),
            r@ == stable_sorted(original.take(n - reversed@.len())),
        decreases reversed.len(),
    {
        let ghost done = n - reversed@.len();
        let ghost before = r@;
        let ghost old_rev = reversed@;
        proof {
            assert(reversed@.reverse()[0] == reversed@.last());
            assert(original.skip(done)[0] == original[done]);
        }
        let x = reversed.pop().unwrap();
        proof {
            assert(x == original[done]);
            assert(reversed@ == old_rev.drop_last());
            assert(old_rev.drop_last().reverse() =~= old_rev.reverse().drop_first());
            assert(reversed@.reverse() =~= original.skip(done + 1));
            assert(original.take(done + 1).drop_last() =~= original.take(done));
            assert(original.take(done + 1).last() == original[done]);
        }
        let mut p: usize = r.len();
        let mut searching = true;
        while searching && p > 0
            invariant
                p <= r.len(),
                r@ == before,
                forall|k: int| p <= k < r@.len() ==> T::key_lt(x, r@[k]),
                !searching ==> p > 0 && !T::key_lt(x, r@[p - 1]),
            decreases p + if searching { 1int } else { 0int },
        {
            if x.sorts_before(&r[p - 1]) {
                p -= 1;
            } else {
                searching = false;
            }
        }
        proof {
            lemma_insert_stable_split(r@, x, p as int);
        }
        r.insert(p, x);
        proof {
            assert(r@ =~= before.take(p as int).push(x) + before.skip(p as int));
        }
    }
    assert(original.take(n as int) =~= original);
    r
}

} // verus!
