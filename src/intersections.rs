use vstd::prelude::*;
use vstd::seq_lib::lemma_multiset_commutative;

verus! {

broadcast use vstd::seq_lib::group_to_multiset_ensures;

/// Keys ascending from front to back.
pub open spec fn sorted_by_key<T>(s: Seq<(i64, T)>) -> bool {
    forall|i: int, j: int| 0 <= i < j < s.len() ==> s[i].0 <= s[j].0
}

/// Where a stable insertion puts an entry with key `k`: scanning from the
/// back, just after the last entry whose key is at most `k`.
pub open spec fn insert_pos<T>(s: Seq<(i64, T)>, k: i64) -> int
    decreases s.len(),
{
    if s.len() == 0 {
        0
    } else if s.last().0 <= k {
        s.len() as int
    } else {
        insert_pos(s.drop_last(), k)
    }
}

/// `s` with `e` inserted after every entry whose key is at most `e`'s.
pub open spec fn insert_sorted<T>(s: Seq<(i64, T)>, e: (i64, T)) -> Seq<(i64, T)> {
    s.insert(insert_pos(s, e.0), e)
}

/// The entries sorted by key; entries with equal keys keep their order.
pub open spec fn sort_stable<T>(s: Seq<(i64, T)>) -> Seq<(i64, T)>
    decreases s.len(),
{
    if s.len() == 0 {
        s
    } else {
        insert_sorted(sort_stable(s.drop_last()), s.last())
    }
}

/// Index of the first entry with a non-negative key, if there is one.
pub open spec fn first_non_negative<T>(s: Seq<(i64, T)>) -> Option<int>
    decreases s.len(),
{
    if s.len() == 0 {
        None
    } else {
        match first_non_negative(s.drop_last()) {
            Some(i) => Some(i),
            None => if s.last().0 >= 0 {
                Some(s.len() - 1)
            } else {
                None
            },
        }
    }
}

proof fn lemma_insert_pos<T>(s: Seq<(i64, T)>, k: i64)
    ensures
        0 <= insert_pos(s, k) <= s.len(),
        forall|j: int| insert_pos(s, k) <= j < s.len() ==> s[j].0 > k,
        sorted_by_key(s) ==> forall|j: int| 0 <= j < insert_pos(s, k) ==> s[j].0 <= k,
    decreases s.len(),
{
    if s.len() > 0 {
        let t = s.drop_last();
        if s.last().0 <= k {
            if sorted_by_key(s) {
                assert forall|j: int| 0 <= j < insert_pos(s, k) implies s[j].0 <= k by {
                    if j < s.len() - 1 {
                        assert(s[j].0 <= s[s.len() - 1].0);
                    }
                }
            }
        } else {
            lemma_insert_pos(t, k);
            assert forall|j: int| insert_pos(s, k) <= j < s.len() implies s[j].0 > k by {
                if j < s.len() - 1 {
                    assert(s[j] == t[j]);
                }
            }
            if sorted_by_key(s) {
                assert(sorted_by_key(t));
                assert forall|j: int| 0 <= j < insert_pos(s, k) implies s[j].0 <= k by {
                    assert(s[j] == t[j]);
                }
            }
        }
    }
}

proof fn lemma_insert_sorted<T>(s: Seq<(i64, T)>, e: (i64, T))
    requires
        sorted_by_key(s),
    ensures
        sorted_by_key(insert_sorted(s, e)),
        insert_sorted(s, e).to_multiset() == s.to_multiset().insert(e),
{
    let p = insert_pos(s, e.0);
    lemma_insert_pos(s, e.0);
    let r = insert_sorted(s, e);
    assert forall|i: int, j: int| 0 <= i < j < r.len() implies r[i].0 <= r[j].0 by {
        if j < p {
        } else if j == p {
        } else if i < p {
        } else if i == p {
        } else {
        }
    }
    assert(r =~= s.take(p) + seq![e] + s.skip(p));
    assert(s =~= s.take(p) + s.skip(p));
    lemma_multiset_commutative(s.take(p), s.skip(p));
    lemma_multiset_commutative(s.take(p) + seq![e], s.skip(p));
    lemma_multiset_commutative(s.take(p), seq![e]);
    assert(seq![e] =~= Seq::<(i64, T)>::empty().push(e));
}

/// Stable sorting yields a sorted sequence of the same entries.
pub proof fn lemma_sort_stable<T>(s: Seq<(i64, T)>)
    ensures
        sorted_by_key(sort_stable(s)),
        sort_stable(s).to_multiset() == s.to_multiset(),
    decreases s.len(),
{
    if s.len() > 0 {
        lemma_sort_stable(s.drop_last());
        lemma_insert_sorted(sort_stable(s.drop_last()), s.last());
        assert(s =~= s.drop_last().push(s.last()));
    }
}

/// The entries of `s` with key `k`, in their order in `s`.
pub open spec fn with_key<T>(s: Seq<(i64, T)>, k: i64) -> Seq<(i64, T)> {
    s.filter(has_key(k))
}

pub open spec fn has_key<T>(k: i64) -> spec_fn((i64, T)) -> bool {
    |e: (i64, T)| e.0 == k
}

proof fn lemma_with_key_single<T>(e: (i64, T), k: i64)
    ensures
        with_key(seq![e], k) == (if e.0 == k {
            seq![e]
        } else {
            Seq::<(i64, T)>::empty()
        }),
{
    let pred = has_key::<T>(k);
    Seq::<(i64, T)>::empty().lemma_filter_push(e, pred);
    assert(seq![e] =~= Seq::<(i64, T)>::empty().push(e));
    reveal(Seq::filter);
    assert(Seq::<(i64, T)>::empty().filter(pred) =~= Seq::<(i64, T)>::empty());
}

/// Stable sorting keeps entries with equal keys in their order.
pub proof fn lemma_sort_is_stable<T>(s: Seq<(i64, T)>, k: i64)
    ensures
        with_key(sort_stable(s), k) == with_key(s, k),
    decreases s.len(),
{
    if s.len() > 0 {
        let pred = has_key::<T>(k);
        let s0 = s.drop_last();
        let x = s.last();
        let t = sort_stable(s0);
        lemma_sort_is_stable(s0, k);
        lemma_sort_stable(s0);
        let p = insert_pos(t, x.0);
        lemma_insert_pos(t, x.0);
        let a = t.take(p);
        let b = t.skip(p);
        assert(sort_stable(s) =~= a + seq![x] + b);
        assert(t =~= a + b);
        Seq::filter_distributes_over_add(a + seq![x], b, pred);
        Seq::filter_distributes_over_add(a, seq![x], pred);
        Seq::filter_distributes_over_add(a, b, pred);
        lemma_with_key_single(x, k);
        s0.lemma_filter_push(x, pred);
        assert(s =~= s0.push(x));
        if x.0 == k {
            assert(b.all(|e: (i64, T)| !pred(e)));
            b.lemma_all_neg_filter_empty(pred);
            assert(b.filter(pred) =~= Seq::<(i64, T)>::empty());
            assert(with_key(sort_stable(s), k) =~= with_key(s, k));
        } else {
            assert(with_key(sort_stable(s), k) =~= with_key(s, k));
        }
    }
}

proof fn lemma_first_non_negative<T>(s: Seq<(i64, T)>)
    ensures
        first_non_negative(s) matches Some(i) ==> 0 <= i < s.len() && s[i].0 >= 0 && forall|j: int|
            0 <= j < i ==> s[j].0 < 0,
        first_non_negative(s) is None ==> forall|j: int| 0 <= j < s.len() ==> s[j].0 < 0,
    decreases s.len(),
{
    if s.len() > 0 {
        let t = s.drop_last();
        lemma_first_non_negative(t);
        assert forall|j: int| 0 <= j < t.len() implies t[j] == s[j] by {}
    }
}

proof fn lemma_first_non_negative_prefix<T>(s: Seq<(i64, T)>, n: int)
    requires
        0 <= n <= s.len(),
    ensures
        first_non_negative(s.take(n)) is Some ==> first_non_negative(s) == first_non_negative(
            s.take(n),
        ),
    decreases s.len(),
{
    if s.len() > n {
        lemma_first_non_negative_prefix(s.drop_last(), n);
        assert(s.drop_last().take(n) =~= s.take(n));
    } else {
        assert(s.take(n) =~= s);
    }
}

/// The hit rule: once any intersections are sorted by key, the first one
/// with a non-negative key is one of them and has the least non-negative key
/// of them all; of the intersections with that key it is the first in the
/// order given. There is none exactly when every key is negative.
pub proof fn lemma_hit_is_least_non_negative<T>(s: Seq<(i64, T)>)
    ensures
        first_non_negative(sort_stable(s)) matches Some(i) ==> {
            let h = sort_stable(s)[i];
            &&& s.contains(h)
            &&& h.0 >= 0
            &&& forall|j: int| 0 <= j < s.len() && s[j].0 >= 0 ==> h.0 <= #[trigger] s[j].0
            &&& h == with_key(s, h.0)[0]
        },
        first_non_negative(sort_stable(s)) is None <==> forall|j: int|
            0 <= j < s.len() ==> #[trigger] s[j].0 < 0,
{
    let t = sort_stable(s);
    lemma_sort_stable(s);
    lemma_first_non_negative(t);
    assert forall|j: int| 0 <= j < s.len() implies t.contains(#[trigger] s[j]) by {
        assert(s.to_multiset().count(s[j]) > 0);
    }
    match first_non_negative(t) {
        Some(i) => {
            assert(t.to_multiset().count(t[i]) > 0);
            assert forall|j: int| 0 <= j < s.len() && s[j].0 >= 0 implies t[i].0
                <= #[trigger] s[j].0 by {
                let m = choose|m: int| 0 <= m < t.len() && t[m] == s[j];
            }
            let k = t[i].0;
            let pred = has_key::<T>(k);
            let a = t.take(i);
            let b = t.skip(i + 1);
            assert(t =~= a + seq![t[i]] + b);
            assert(a.all(|e: (i64, T)| !pred(e)));
            a.lemma_all_neg_filter_empty(pred);
            Seq::filter_distributes_over_add(a + seq![t[i]], b, pred);
            Seq::filter_distributes_over_add(a, seq![t[i]], pred);
            lemma_with_key_single(t[i], k);
            assert(with_key(t, k)[0] == t[i]);
            lemma_sort_is_stable(s, k);
        },
        None => {
            assert forall|j: int| 0 <= j < s.len() implies #[trigger] s[j].0 < 0 by {
                let m = choose|m: int| 0 <= m < t.len() && t[m] == s[j];
            }
        },
    }
}

/// The intersections of one ray with a scene, each an order key with the
/// item it belongs to, kept sorted by key; items with equal keys stay in the
/// order they were added. A key is any integer that orders as the distances
/// along the ray do and is negative exactly for a point behind the ray's
/// origin.
pub struct Intersections<T> {
    items: Vec<(i64, T)>,
}

impl<T> View for Intersections<T> {
    type V = Seq<(i64, T)>;

    closed spec fn view(&self) -> Seq<(i64, T)> {
        self.items@
    }
}

impl<T: Copy> Intersections<T> {
    pub open spec fn wf(&self) -> bool {
        sorted_by_key(self@)
    }

    pub fn new() -> (r: Self)
        ensures
            r.wf(),
            r@ == Seq::<(i64, T)>::empty(),
    {
        Intersections { items: Vec::new() }
    }

    /// Adds an intersection after all those whose key is at most `key`.
    pub fn insert(&mut self, key: i64, item: T)
        requires
            old(self).wf(),
        ensures
            final(self).wf(),
            final(self)@ == insert_sorted(old(self)@, (key, item)),
            final(self)@.to_multiset() == old(self)@.to_multiset().insert((key, item)),
    {
        let ghost s = self@;
        let mut p: usize = self.items.len();
        assert(s.take(p as int) =~= s);
        while p > 0 && self.items[p - 1].0 > key
            invariant
                self@ == s,
                p <= s.len(),
                insert_pos(s, key) == insert_pos(s.take(p as int), key),
            decreases p,
        {
            assert(s.take(p as int).drop_last() =~= s.take(p - 1));
            p -= 1;
        }
        assert(insert_pos(s.take(p as int), key) == p) by {
            if p > 0 {
                assert(s.take(p as int).last() == s[p - 1]);
            }
        }
        self.items.insert(p, (key, item));
        proof {
            lemma_insert_sorted(s, (key, item));
        }
    }

    /// The entries sorted stably by key.
    pub fn combine(entries: &Vec<(i64, T)>) -> (r: Self)
        ensures
            r.wf(),
            r@ == sort_stable(entries@),
    {
        let mut r = Self::new();
        let mut k: usize = 0;
        while k < entries.len()
            invariant
                k <= entries@.len(),
                r.wf(),
                r@ == sort_stable(entries@.take(k as int)),
            decreases entries@.len() - k,
        {
            let ghost before = entries@.take(k as int);
            r.insert(entries[k].0, entries[k].1);
            assert(entries@.take(k + 1).drop_last() =~= before);
            k += 1;
        }
        assert(entries@.take(k as int) =~= entries@);
        r
    }

    /// Intersections at the keys `keys`, all with the same item, sorted.
    pub fn create_sorted(keys: &Vec<i64>, item: T) -> (r: Self)
        ensures
            r.wf(),
            r@ == sort_stable(keys@.map_values(|k: i64| (k, item))),
    {
        let mut entries: Vec<(i64, T)> = Vec::with_capacity(keys.len());
        let mut k: usize = 0;
        while k < keys.len()
            invariant
                k <= keys@.len(),
                entries@ == keys@.take(k as int).map_values(|k: i64| (k, item)),
            decreases keys@.len() - k,
        {
            entries.push((keys[k], item));
            k += 1;
            assert(entries@ =~= keys@.take(k as int).map_values(|k: i64| (k, item)));
        }
        assert(keys@.take(k as int) =~= keys@);
        Self::combine(&entries)
    }

    pub fn len(&self) -> (r: usize)
        ensures
            r == self@.len(),
    {
        self.items.len()
    }

    /// The intersections, by ascending key.
    pub fn entries(&self) -> (r: &Vec<(i64, T)>)
        ensures
            r@ == self@,
    {
        &self.items
    }

    /// The visible intersection: the first with a non-negative key.
    pub fn hit(&self) -> (r: Option<(i64, T)>)
        requires
            self.wf(),
        ensures
            r == (match first_non_negative(self@) {
                Some(i) => Some(self@[i]),
                None => None::<(i64, T)>,
            }),
    {
        let mut k: usize = 0;
        while k < self.items.len()
            invariant
                k <= self@.len(),
                first_non_negative(self@.take(k as int)) is None,
            decreases self@.len() - k,
        {
            assert(self@.take(k + 1).drop_last() =~= self@.take(k as int));
            if self.items[k].0 >= 0 {
                proof {
                    lemma_first_non_negative_prefix(self@, k + 1);
                }
                return Some(self.items[k]);
            }
            k += 1;
        }
        assert(self@.take(k as int) =~= self@);
        None
    }
}

} // verus!
