//! Environment listings ordered by variable name: a stable sort of
//! `(name, value)` pairs by name, as `slice::sort_by_key` performs it.
use vstd::prelude::*;
use crate::text::{chars_of, lt_chars, seq_lt, lemma_seq_lt_asymmetric, lemma_seq_lt_irreflexive,
    lemma_seq_lt_total, lemma_seq_le_transitive};

verus! {

/// A `(name, value)` pair as texts.
pub type EntryView = (Seq<char>, Seq<char>);

/// The texts of a list of `(name, value)` pairs.
pub open spec fn entry_views(v: Seq<(String, String)>) -> Seq<EntryView> {
    v.map_values(|e: (String, String)| (e.0@, e.1@))
}

/// No entry's name comes before the name of an entry in front of it.
pub open spec fn key_sorted(s: Seq<EntryView>) -> bool {
    forall|i: int, j: int| 0 <= i < j < s.len() ==> !seq_lt(#[trigger] s[j].0, #[trigger] s[i].0)
}

/// An entry's name is `k`.
pub open spec fn has_name(k: Seq<char>) -> spec_fn(EntryView) -> bool {
    |e: EntryView| e.0 == k
}

/// The entries of `s` whose name is `k`, in their order in `s`.
pub open spec fn with_key(s: Seq<EntryView>, k: Seq<char>) -> Seq<EntryView> {
    s.filter(has_name(k))
}

/// `r` is `s` sorted stably by name: ordered by name, and for every name
/// the entries with that name are those of `s` in the order of `s`.
pub open spec fn stably_sorted(r: Seq<EntryView>, s: Seq<EntryView>) -> bool {
    &&& key_sorted(r)
    &&& forall|k: Seq<char>| #[trigger] with_key(r, k) == with_key(s, k)
}

proof fn lemma_filter_none(s: Seq<EntryView>, k: Seq<char>)
    requires
        forall|i: int| 0 <= i < s.len() ==> (#[trigger] s[i]).0 != k,
    ensures
        with_key(s, k) == Seq::<EntryView>::empty(),
    decreases s.len(),
{
    reveal(Seq::filter);
    if s.len() > 0 {
        lemma_filter_none(s.drop_last(), k);
        assert(s[s.len() - 1].0 != k);
    }
}

proof fn lemma_with_key_add(a: Seq<EntryView>, b: Seq<EntryView>, k: Seq<char>)
    ensures
        with_key(a + b, k) == with_key(a, k) + with_key(b, k),
{
    Seq::filter_distributes_over_add(a, b, has_name(k));
}

proof fn lemma_with_key_push(a: Seq<EntryView>, x: EntryView, k: Seq<char>)
    ensures
        with_key(a.push(x), k) == if x.0 == k {
            with_key(a, k).push(x)
        } else {
            with_key(a, k)
        },
{
    a.lemma_filter_push(x, has_name(k));
}

/// Inserting `x` after the entries whose names do not follow its name and
/// before those whose names follow it keeps a sorted list sorted, and adds
/// `x` at the end of the entries with its name.
proof fn lemma_insert_sorted(r: Seq<EntryView>, x: EntryView, p: int)
    requires
        0 <= p <= r.len(),
        key_sorted(r),
        p > 0 ==> !seq_lt(x.0, r[p - 1].0),
        forall|m: int| p <= m < r.len() ==> seq_lt(x.0, #[trigger] r[m].0),
    ensures
        key_sorted(r.insert(p, x)),
        forall|k: Seq<char>| #[trigger] with_key(r.insert(p, x), k) == with_key(r.push(x), k),
{
    let n = r.insert(p, x);
    r.insert_ensures(p, x);
    assert forall|i: int, j: int| 0 <= i < j < n.len() implies !seq_lt(
        #[trigger] n[j].0,
        #[trigger] n[i].0,
    ) by {
        if j < p {
            assert(n[i] == r[i] && n[j] == r[j]);
        } else if j == p {
            assert(n[i] == r[i] && n[j] == x);
            if i < p - 1 {
                assert(!seq_lt(r[p - 1].0, r[i].0));
                lemma_seq_le_transitive(r[i].0, r[p - 1].0, x.0);
            }
        } else if i == p {
            assert(n[i] == x && n[j] == r[j - 1]);
            lemma_seq_lt_asymmetric(x.0, r[j - 1].0);
        } else if i < p {
            assert(n[i] == r[i] && n[j] == r[j - 1]);
        } else {
            assert(n[i] == r[i - 1] && n[j] == r[j - 1]);
        }
    }
    let lo = r.subrange(0, p);
    let hi = r.subrange(p, r.len() as int);
    assert(n == lo.push(x) + hi);
    assert(r == lo + hi);
    assert forall|k: Seq<char>| #[trigger] with_key(n, k) == with_key(r.push(x), k) by {
        lemma_with_key_add(lo.push(x), hi, k);
        lemma_with_key_push(lo, x, k);
        lemma_with_key_add(lo, hi, k);
        lemma_with_key_push(r, x, k);
        if x.0 == k {
            assert forall|i: int| 0 <= i < hi.len() implies (#[trigger] hi[i]).0 != k by {
                assert(hi[i] == r[p + i]);
                lemma_seq_lt_irreflexive(x.0);
            }
            lemma_filter_none(hi, k);
            assert(with_key(n, k) == with_key(lo, k).push(x));
            assert(with_key(r, k) == with_key(lo, k));
        }
    }
}

/// An entry's name has entries in `with_key` for that name.
proof fn lemma_with_key_has(s: Seq<EntryView>, i: int)
    requires
        0 <= i < s.len(),
    ensures
        with_key(s, s[i].0).len() > 0,
{
    s.lemma_filter_contains(has_name(s[i].0), i);
}

/// A name with entries in `with_key` is the name of some entry.
proof fn lemma_with_key_from(s: Seq<EntryView>, k: Seq<char>) -> (i: int)
    requires
        with_key(s, k).len() > 0,
    ensures
        0 <= i < s.len(),
        s[i].0 == k,
{
    let f = with_key(s, k);
    s.lemma_filter_pred(has_name(k), 0);
    assert(f.contains(f[0]));
    s.lemma_filter_contains_rev(has_name(k), f[0]);
    choose|i: int| 0 <= i < s.len() && s[i] == f[0]
}

/// Two name-sorted lists with the same entries for every name are equal.
proof fn lemma_sorted_same_keys_equal(r1: Seq<EntryView>, r2: Seq<EntryView>)
    requires
        key_sorted(r1),
        key_sorted(r2),
        forall|k: Seq<char>| #[trigger] with_key(r1, k) == with_key(r2, k),
    ensures
        r1 == r2,
    decreases r1.len() + r2.len(),
{
    if r1.len() == 0 && r2.len() == 0 {
        assert(r1 == r2);
    } else if r1.len() == 0 {
        lemma_with_key_has(r2, 0);
        assert(with_key(r1, r2[0].0) == with_key(r2, r2[0].0));
        r1.lemma_filter_len(has_name(r2[0].0));
    } else if r2.len() == 0 {
        lemma_with_key_has(r1, 0);
        assert(with_key(r1, r1[0].0) == with_key(r2, r1[0].0));
        r2.lemma_filter_len(has_name(r1[0].0));
    } else {
        let n1 = r1.len() - 1;
        let n2 = r2.len() - 1;
        let k1 = r1[n1].0;
        let k2 = r2[n2].0;
        lemma_with_key_has(r1, n1);
        assert(with_key(r1, k1) == with_key(r2, k1));
        let j2 = lemma_with_key_from(r2, k1);
        if j2 < n2 {
            assert(!seq_lt(r2[n2].0, r2[j2].0));
        }
        lemma_with_key_has(r2, n2);
        assert(with_key(r1, k2) == with_key(r2, k2));
        let j1 = lemma_with_key_from(r1, k2);
        if j1 < n1 {
            assert(!seq_lt(r1[n1].0, r1[j1].0));
        }
        lemma_seq_lt_total(k1, k2);
        assert(k1 == k2);
        let d1 = r1.drop_last();
        let d2 = r2.drop_last();
        let x1 = r1.last();
        let x2 = r2.last();
        assert(r1 == d1.push(x1));
        assert(r2 == d2.push(x2));
        lemma_with_key_push(d1, x1, k1);
        lemma_with_key_push(d2, x2, k1);
        assert(with_key(r1, k1) == with_key(r2, k1));
        assert(with_key(r1, k1).last() == x1);
        assert(with_key(r2, k1).last() == x2);
        assert(x1 == x2);
        assert(with_key(d1, k1) == with_key(r1, k1).drop_last());
        assert(with_key(d2, k1) == with_key(r2, k1).drop_last());
        assert forall|k: Seq<char>| #[trigger] with_key(d1, k) == with_key(d2, k) by {
            lemma_with_key_push(d1, x1, k);
            lemma_with_key_push(d2, x2, k);
            assert(with_key(r1, k) == with_key(r2, k));
        }
        assert(key_sorted(d1)) by {
            assert forall|i: int, j: int| 0 <= i < j < d1.len() implies !seq_lt(
                #[trigger] d1[j].0,
                #[trigger] d1[i].0,
            ) by {
                assert(d1[j] == r1[j] && d1[i] == r1[i]);
            }
        }
        assert(key_sorted(d2)) by {
            assert forall|i: int, j: int| 0 <= i < j < d2.len() implies !seq_lt(
                #[trigger] d2[j].0,
                #[trigger] d2[i].0,
            ) by {
                assert(d2[j] == r2[j] && d2[i] == r2[i]);
            }
        }
        lemma_sorted_same_keys_equal(d1, d2);
    }
}

/// A stable sort by name has a single result: two lists that are both `s`
/// sorted stably by name are the same list.
pub proof fn lemma_stable_sort_unique(r1: Seq<EntryView>, r2: Seq<EntryView>, s: Seq<EntryView>)
    requires
        stably_sorted(r1, s),
        stably_sorted(r2, s),
    ensures
        r1 == r2,
{
    assert forall|k: Seq<char>| #[trigger] with_key(r1, k) == with_key(r2, k) by {
        assert(with_key(r1, k) == with_key(s, k));
        assert(with_key(r2, k) == with_key(s, k));
    }
    lemma_sorted_same_keys_equal(r1, r2);
}

/// Sorting keeps the entries: an entry is in the sorted list exactly when it
/// is in the unsorted one.
pub proof fn lemma_stable_sort_keeps_entries(r: Seq<EntryView>, s: Seq<EntryView>, e: EntryView)
    requires
        stably_sorted(r, s),
    ensures
        r.contains(e) <==> s.contains(e),
{
    let k = e.0;
    assert(with_key(r, k) == with_key(s, k));
    if r.contains(e) {
        let i = choose|i: int| 0 <= i < r.len() && r[i] == e;
        r.lemma_filter_contains(has_name(k), i);
        s.lemma_filter_contains_rev(has_name(k), e);
    }
    if s.contains(e) {
        let i = choose|i: int| 0 <= i < s.len() && s[i] == e;
        s.lemma_filter_contains(has_name(k), i);
        r.lemma_filter_contains_rev(has_name(k), e);
    }
}

/// The `(name, value)` pairs sorted by name, entries with the same name in
/// their given order (`sort_by_key` on the name, a stable sort).
pub fn sort_by_name(envs: &Vec<(String, String)>) -> (r: Vec<(String, String)>)
    ensures
        r.len() == envs.len(),
        stably_sorted(entry_views(r@), entry_views(envs@)),
{
    let ghost src = entry_views(envs@);
    let mut out: Vec<(String, String)> = Vec::new();
    let mut keys: Vec<Vec<char>> = Vec::new();
    let mut i: usize = 0;
    assert forall|k: Seq<char>| #[trigger] with_key(entry_views(out@), k) == with_key(
        src.take(0),
        k,
    ) by {
        reveal(Seq::filter);
        assert(entry_views(out@) == Seq::<EntryView>::empty());
        assert(src.take(0) == Seq::<EntryView>::empty());
    }
    while i < envs.len()
        invariant
            i <= envs.len(),
            src == entry_views(envs@),
            out.len() == i,
            keys.len() == out.len(),
            forall|m: int| 0 <= m < keys.len() ==> (#[trigger] keys@[m])@ == out@[m].0@,
            key_sorted(entry_views(out@)),
            forall|k: Seq<char>| #[trigger]
                with_key(entry_views(out@), k) == with_key(src.take(i as int), k),
        decreases envs.len() - i,
    {
        let name = envs[i].0.clone();
        let value = envs[i].1.clone();
        let key = chars_of(name.as_str());
        let mut j: usize = out.len();
        while j > 0 && lt_chars(&key, &keys[j - 1])
            invariant
                j <= out.len(),
                keys.len() == out.len(),
                forall|m: int| 0 <= m < keys.len() ==> (#[trigger] keys@[m])@ == out@[m].0@,
                forall|m: int| j <= m < out.len() ==> seq_lt(key@, #[trigger] out@[m].0@),
            decreases j,
        {
            j -= 1;
        }
        let ghost r = entry_views(out@);
        let ghost x: EntryView = (name@, value@);
        proof {
            assert(x == src[i as int]);
            if j > 0 {
                assert(keys@[j - 1]@ == r[j - 1].0);
            }
            assert forall|m: int| j <= m < r.len() implies seq_lt(x.0, #[trigger] r[m].0) by {
                assert(r[m].0 == out@[m].0@);
            }
            lemma_insert_sorted(r, x, j as int);
            assert(src.take(i + 1) == src.take(i as int).push(x));
        }
        let ghost old_keys = keys@;
        out.insert(j, (name, value));
        keys.insert(j, key);
        proof {
            let n = entry_views(out@);
            assert(n == r.insert(j as int, x));
            assert forall|k: Seq<char>| #[trigger] with_key(n, k) == with_key(
                src.take(i + 1),
                k,
            ) by {
                lemma_with_key_push(r, x, k);
                lemma_with_key_push(src.take(i as int), x, k);
                assert(with_key(r, k) == with_key(src.take(i as int), k));
            }
            assert forall|m: int| 0 <= m < keys.len() implies (#[trigger] keys@[m])@
                == out@[m].0@ by {
                if m < j {
                } else if m > j {
                    assert(keys@[m] == old_keys[m - 1]);
                }
            }
        }
        i += 1;
    }
    assert(src.take(envs.len() as int) == src);
    out
}

} // verus!
