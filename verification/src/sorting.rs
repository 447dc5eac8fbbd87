//! Stable sorting by an integer key.
use vstd::prelude::*;

verus! {

broadcast use vstd::seq_lib::group_seq_properties;

/// The test that an element's key is `k`.
pub open spec fn key_is<T>(key: spec_fn(T) -> int, k: int) -> spec_fn(T) -> bool {
    |x: T| key(x) == k
}

/// The elements of `s` whose key is `k`, in their order in `s`.
pub open spec fn keyed<T>(s: Seq<T>, key: spec_fn(T) -> int, k: int) -> Seq<T> {
    s.filter(key_is(key, k))
}

/// The keys of `s` never decrease.
pub open spec fn sorted_by_key<T>(s: Seq<T>, key: spec_fn(T) -> int) -> bool {
    forall|i: int, j: int| 0 <= i < j < s.len() ==> key(#[trigger] s[i]) <= key(#[trigger] s[j])
}

/// `res` is `orig` stably sorted by `key`: its keys never decrease, and the
/// elements of each key come in the order they had in `orig`.
pub open spec fn stably_sorted<T>(res: Seq<T>, orig: Seq<T>, key: spec_fn(T) -> int) -> bool {
    &&& sorted_by_key(res, key)
    &&& forall|k: int| #[trigger] keyed(res, key, k) == keyed(orig, key, k)
}

/// Filtering keeps nothing of a sequence none of whose elements passes.
pub proof fn lemma_filter_none<T>(s: Seq<T>, pred: spec_fn(T) -> bool)
    requires
        forall|i: int| 0 <= i < s.len() ==> !pred(#[trigger] s[i]),
    ensures
        s.filter(pred) == Seq::<T>::empty(),
    decreases s.len(),
{
    reveal(Seq::filter);
    if s.len() > 0 {
        assert(!pred(s[s.len() - 1]));
        lemma_filter_none(s.drop_last(), pred);
    }
}

/// Filtering a single element keeps it exactly when it passes.
pub proof fn lemma_filter_single<T>(x: T, pred: spec_fn(T) -> bool)
    ensures
        seq![x].filter(pred) == (if pred(x) { seq![x] } else { Seq::<T>::empty() }),
{
    reveal_with_fuel(Seq::filter, 2);
    assert(seq![x].drop_last() =~= Seq::<T>::empty());
}

/// Taking the last element off takes it off the elements of its key and
/// leaves the elements of every other key as they were.
proof fn lemma_keyed_drop_last<T>(s: Seq<T>, key: spec_fn(T) -> int, k: int)
    requires
        s.len() > 0,
    ensures
        keyed(s, key, k) == (if k == key(s.last()) {
            keyed(s.drop_last(), key, k).push(s.last())
        } else {
            keyed(s.drop_last(), key, k)
        }),
{
    assert(s =~= s.drop_last().push(s.last()));
    s.drop_last().lemma_filter_push(s.last(), key_is(key, k));
}

/// An element of `s` is among the elements of its key, and an element among
/// the elements of a key is in `s`.
proof fn lemma_keyed_contains<T>(s: Seq<T>, key: spec_fn(T) -> int, i: int)
    requires
        0 <= i < s.len(),
    ensures
        keyed(s, key, key(s[i])).contains(s[i]),
{
    s.lemma_filter_contains(key_is(key, key(s[i])), i);
}

/// What a filter keeps is taken from the sequence it filters.
pub proof fn lemma_filter_within<T>(s: Seq<T>, pred: spec_fn(T) -> bool)
    ensures
        forall|j: int| 0 <= j < s.filter(pred).len() ==> s.contains(#[trigger] s.filter(pred)[j]),
    decreases s.len(),
{
    if s.len() > 0 {
        let init = s.drop_last();
        lemma_filter_within(init, pred);
        assert(s =~= init.push(s.last()));
        init.lemma_filter_push(s.last(), pred);
        assert forall|j: int| 0 <= j < s.filter(pred).len() implies s.contains(
            #[trigger] s.filter(pred)[j],
        ) by {
            let f = init.filter(pred);
            if j < f.len() {
                assert(s.filter(pred)[j] == f[j]);
                assert(init.contains(f[j]));
                let w = choose|w: int| 0 <= w < init.len() && init[w] == f[j];
                assert(s[w] == f[j]);
            } else {
                assert(s.filter(pred)[j] == s[s.len() - 1]);
            }
        }
    } else {
        reveal(Seq::filter);
    }
}

/// A stably sorted sequence holds exactly the elements of what it sorts.
pub proof fn lemma_stably_sorted_contains<T>(res: Seq<T>, orig: Seq<T>, key: spec_fn(T) -> int)
    requires
        stably_sorted(res, orig, key),
    ensures
        forall|x: T| res.contains(x) <==> orig.contains(x),
{
    assert forall|x: T| res.contains(x) <==> orig.contains(x) by {
        if orig.contains(x) {
            let i = choose|i: int| 0 <= i < orig.len() && orig[i] == x;
            lemma_keyed_contains(orig, key, i);
            let g = keyed(res, key, key(x));
            assert(g == keyed(orig, key, key(x)));
            lemma_filter_within(res, key_is(key, key(x)));
            let j = choose|j: int| 0 <= j < g.len() && g[j] == x;
            assert(res.contains(g[j]));
        }
        if res.contains(x) {
            let i = choose|i: int| 0 <= i < res.len() && res[i] == x;
            lemma_keyed_contains(res, key, i);
            let g = keyed(orig, key, key(x));
            assert(g == keyed(res, key, key(x)));
            lemma_filter_within(orig, key_is(key, key(x)));
            let j = choose|j: int| 0 <= j < g.len() && g[j] == x;
            assert(orig.contains(g[j]));
        }
    }
}

/// The stable order is unique: two sequences whose keys never decrease and
/// which hold the same elements of each key in the same order are equal. So
/// `stably_sorted` pins down the result of every sort that meets it.
pub proof fn law_stable_sort_unique<T>(a: Seq<T>, b: Seq<T>, key: spec_fn(T) -> int)
    requires
        sorted_by_key(a, key),
        sorted_by_key(b, key),
        forall|k: int| #[trigger] keyed(a, key, k) == keyed(b, key, k),
    ensures
        a == b,
    decreases a.len() + b.len(),
{
    if a.len() == 0 && b.len() == 0 {
        assert(a =~= b);
    } else if a.len() == 0 {
        lemma_keyed_contains(b, key, 0);
        assert(keyed(a, key, key(b[0])) =~= Seq::<T>::empty()) by {
            reveal(Seq::filter);
        }
        assert(keyed(a, key, key(b[0])) == keyed(b, key, key(b[0])));
    } else if b.len() == 0 {
        lemma_keyed_contains(a, key, 0);
        assert(keyed(b, key, key(a[0])) =~= Seq::<T>::empty()) by {
            reveal(Seq::filter);
        }
        assert(keyed(a, key, key(a[0])) == keyed(b, key, key(a[0])));
    } else {
        let ka = key(a.last());
        let kb = key(b.last());
        lemma_keyed_contains(a, key, a.len() - 1);
        lemma_keyed_contains(b, key, b.len() - 1);
        assert(keyed(a, key, ka) == keyed(b, key, ka));
        assert(keyed(a, key, kb) == keyed(b, key, kb));
        b.lemma_filter_contains_rev(key_is(key, ka), a.last());
        a.lemma_filter_contains_rev(key_is(key, kb), b.last());
        let j = choose|j: int| 0 <= j < b.len() && b[j] == a.last();
        let i = choose|i: int| 0 <= i < a.len() && a[i] == b.last();
        if j < b.len() - 1 {
            assert(key(b[j]) <= key(b[b.len() - 1]));
        }
        if i < a.len() - 1 {
            assert(key(a[i]) <= key(a[a.len() - 1]));
        }
        assert(ka == kb);
        let a2 = a.drop_last();
        let b2 = b.drop_last();
        lemma_keyed_drop_last(a, key, ka);
        lemma_keyed_drop_last(b, key, ka);
        assert(keyed(a2, key, ka).push(a.last()) == keyed(b2, key, ka).push(b.last()));
        assert(a.last() == keyed(a2, key, ka).push(a.last()).last());
        assert(b.last() == keyed(b2, key, ka).push(b.last()).last());
        assert(keyed(a2, key, ka) =~= keyed(a2, key, ka).push(a.last()).drop_last());
        assert(keyed(b2, key, ka) =~= keyed(b2, key, ka).push(b.last()).drop_last());
        assert forall|k: int| #[trigger] keyed(a2, key, k) == keyed(b2, key, k) by {
            lemma_keyed_drop_last(a, key, k);
            lemma_keyed_drop_last(b, key, k);
            assert(keyed(a, key, k) == keyed(b, key, k));
        }
        assert(sorted_by_key(a2, key)) by {
            assert forall|x: int, y: int| 0 <= x < y < a2.len() implies key(#[trigger] a2[x]) <= key(
                #[trigger] a2[y],
            ) by {
                assert(a2[x] == a[x] && a2[y] == a[y]);
            }
        }
        assert(sorted_by_key(b2, key)) by {
            assert forall|x: int, y: int| 0 <= x < y < b2.len() implies key(#[trigger] b2[x]) <= key(
                #[trigger] b2[y],
            ) by {
                assert(b2[x] == b[x] && b2[y] == b[y]);
            }
        }
        law_stable_sort_unique(a2, b2, key);
        assert(a =~= a2.push(a.last()));
        assert(b =~= b2.push(b.last()));
    }
}

/// Inserting `x` where every key before is at most its key and every key
/// after is greater keeps the keys sorted and adds `x` at the end of its key.
proof fn lemma_insert_sorted<T>(r: Seq<T>, p: int, x: T, key: spec_fn(T) -> int)
    requires
        0 <= p <= r.len(),
        sorted_by_key(r, key),
        forall|j: int| 0 <= j < p ==> key(#[trigger] r[j]) <= key(x),
        forall|j: int| p <= j < r.len() ==> key(#[trigger] r[j]) > key(x),
    ensures
        sorted_by_key(r.insert(p, x), key),
        forall|k: int|
            #[trigger] keyed(r.insert(p, x), key, k) == (if k == key(x) {
                keyed(r, key, k).push(x)
            } else {
                keyed(r, key, k)
            }),
{
    let a = r.subrange(0, p);
    let b = r.subrange(p, r.len() as int);
    let s = r.insert(p, x);
    assert(s =~= a + seq![x] + b);
    assert(r =~= a + b);
    assert forall|i: int, j: int| 0 <= i < j < s.len() implies key(#[trigger] s[i]) <= key(
        #[trigger] s[j],
    ) by {
        if i < p && j == p {
        } else if i < p && j > p {
            assert(s[j] == r[j - 1]);
        } else if i == p {
            assert(s[j] == r[j - 1]);
        } else if j < p {
        } else {
            assert(s[i] == r[i - 1]);
            assert(s[j] == r[j - 1]);
        }
    }
    assert forall|k: int|
        #[trigger] keyed(s, key, k) == (if k == key(x) {
            keyed(r, key, k).push(x)
        } else {
            keyed(r, key, k)
        }) by {
        let pred = key_is(key, k);
        Seq::filter_distributes_over_add(a + seq![x], b, pred);
        Seq::filter_distributes_over_add(a, seq![x], pred);
        Seq::filter_distributes_over_add(a, b, pred);
        lemma_filter_single(x, pred);
        if k == key(x) {
            assert forall|i: int| 0 <= i < b.len() implies !pred(#[trigger] b[i]) by {
                assert(b[i] == r[p + i]);
            }
            lemma_filter_none(b, pred);
            assert(keyed(s, key, k) =~= keyed(r, key, k).push(x));
        } else {
            assert(keyed(s, key, k) =~= keyed(r, key, k));
        }
    }
}

/// `items` stably sorted by their keys, `keys[i]` being the key of `items[i]`.
pub(crate) fn sort_by_keys<T>(items: Vec<T>, keys: Vec<i128>, Ghost(key): Ghost<spec_fn(T) -> int>) -> (res: Vec<T>)
    requires
        items@.len() == keys@.len(),
        forall|i: int| 0 <= i < keys@.len() ==> keys@[i] == key(#[trigger] items@[i]),
    ensures
        stably_sorted(res@, items@, key),
        res@.len() == items@.len(),
{
    let ghost orig = items@;
    let ghost n = orig.len();
    let mut items = items;
    let mut keys = keys;
    let mut res: Vec<T> = Vec::new();
    let mut res_keys: Vec<i128> = Vec::new();
    assert(orig.subrange(0, 0) =~= Seq::<T>::empty());
    assert(orig.subrange(0, n as int) =~= orig);
    while items.len() > 0
        invariant
            n == orig.len(),
            items@.len() == keys@.len(),
            items@.len() <= n,
            items@ == orig.subrange(n - items@.len(), n as int),
            forall|i: int| 0 <= i < keys@.len() ==> keys@[i] == key(#[trigger] items@[i]),
            res_keys@.len() == res@.len(),
            res@.len() + items@.len() == n,
            forall|i: int| 0 <= i < res_keys@.len() ==> res_keys@[i] == key(#[trigger] res@[i]),
            sorted_by_key(res@, key),
            forall|k: int|
                #[trigger] keyed(res@, key, k) == keyed(
                    orig.subrange(0, n - items@.len()),
                    key,
                    k,
                ),
        decreases items@.len(),
    {
        let ghost done = n - items@.len();
        let ghost before = res@;
        let x = items.remove(0);
        let kx = keys.remove(0);
        assert(key(x) == kx);
        let mut p: usize = 0;
        while p < res_keys.len() && res_keys[p] <= kx
            invariant
                p <= res_keys@.len() == res@.len(),
                res@ == before,
                forall|i: int| 0 <= i < res_keys@.len() ==> res_keys@[i] == key(#[trigger] res@[i]),
                forall|j: int| 0 <= j < p ==> key(#[trigger] res@[j]) <= kx,
            decreases res_keys@.len() - p,
        {
            assert(key(res@[p as int]) == res_keys@[p as int]);
            p = p + 1;
        }
        proof {
            assert forall|j: int| p <= j < before.len() implies key(#[trigger] before[j]) > kx by {
                assert(key(before[p as int]) == res_keys@[p as int]);
                if j > p {
                    assert(key(before[p as int]) <= key(before[j]));
                }
            }
            lemma_insert_sorted(before, p as int, x, key);
            assert(orig.subrange(0, done + 1) =~= orig.subrange(0, done).push(x)) by {
                assert(orig[done] == x);
            }
            assert forall|k: int| #[trigger]
                keyed(orig.subrange(0, done + 1), key, k) == (if k == key(x) {
                    keyed(orig.subrange(0, done), key, k).push(x)
                } else {
                    keyed(orig.subrange(0, done), key, k)
                }) by {
                orig.subrange(0, done).lemma_filter_push(x, key_is(key, k));
            }
            assert(items@ =~= orig.subrange(n - items@.len(), n as int));
        }
        res.insert(p, x);
        res_keys.insert(p, kx);
        proof {
            assert forall|i: int| 0 <= i < res_keys@.len() implies res_keys@[i] == key(
                #[trigger] res@[i],
            ) by {
                if i < p {
                } else if i > p {
                    assert(res@[i] == before[i - 1]);
                }
            }
        }
    }
    res
}

} // verus!
