//! Ordering records by a string key, as `sort_by` with `str::cmp` does.
use vstd::prelude::*;
use vstd::multiset::Multiset;
use crate::text::{lemma_lt_irreflexive, lemma_lt_total, lemma_lt_transitive, seq_le, seq_lt, str_lt};

verus! {

broadcast use vstd::seq_lib::group_to_multiset_ensures;

/// Records that are ordered by a string key.
pub trait Keyed: Sized {
    /// The key of a record.
    spec fn key_view(&self) -> Seq<char>;

    /// The key of a record, as a string slice.
    fn key(&self) -> (r: &str)
        ensures
            r@ == self.key_view(),
    ;
}

/// Every record's key is at most the keys of the records after it.
pub open spec fn sorted_by_key<T: Keyed>(s: Seq<T>) -> bool {
    forall|i: int, j: int| 0 <= i < j < s.len() ==> seq_le(#[trigger] s[i].key_view(), #[trigger] s[j].key_view())
}

/// The records of `s` whose key is `k`, in their order in `s`.
pub open spec fn with_key<T: Keyed>(s: Seq<T>, k: Seq<char>) -> Seq<T> {
    s.filter(|t: T| t.key_view() == k)
}

/// Filtering a concatenation filters each part.
proof fn lemma_with_key_add<T: Keyed>(a: Seq<T>, b: Seq<T>, k: Seq<char>)
    ensures
        with_key(a + b, k) == with_key(a, k) + with_key(b, k),
{
    Seq::filter_distributes_over_add(a, b, |t: T| t.key_view() == k);
}

/// No record of `s` has key `k`.
proof fn lemma_with_key_none<T: Keyed>(s: Seq<T>, k: Seq<char>)
    requires
        forall|i: int| 0 <= i < s.len() ==> #[trigger] s[i].key_view() != k,
    ensures
        with_key(s, k) == Seq::<T>::empty(),
    decreases s.len(),
{
    reveal(Seq::filter);
    if s.len() > 0 {
        lemma_with_key_none(s.drop_last(), k);
        assert(s.last() == s[s.len() - 1]);
    }
}

/// The records of a single record with key `k`.
proof fn lemma_with_key_single<T: Keyed>(x: T, k: Seq<char>)
    ensures
        with_key(seq![x], k) == (if x.key_view() == k {
            seq![x]
        } else {
            Seq::<T>::empty()
        }),
{
    reveal_with_fuel(Seq::filter, 2);
    assert(seq![x].drop_last() =~= Seq::<T>::empty());
}

/// Filtering then mapping is mapping then filtering by the corresponding test.
pub proof fn lemma_filter_map_values<A, B>(s: Seq<A>, f: spec_fn(A) -> B, p: spec_fn(A) -> bool, q: spec_fn(B) -> bool)
    requires
        forall|a: A| #[trigger] p(a) == q(f(a)),
    ensures
        s.filter(p).map_values(f) == s.map_values(f).filter(q),
    decreases s.len(),
{
    reveal(Seq::filter);
    if s.len() > 0 {
        lemma_filter_map_values(s.drop_last(), f, p, q);
        assert(s.map_values(f).drop_last() =~= s.drop_last().map_values(f));
        assert(p(s.last()) == q(f(s.last())));
        if p(s.last()) {
            assert(s.filter(p).map_values(f) =~= s.drop_last().filter(p).map_values(f).push(f(s.last())));
        }
    } else {
        assert(s.filter(p).map_values(f) =~= s.map_values(f).filter(q));
    }
}

/// `seq_le` is transitive.
pub proof fn lemma_le_transitive(a: Seq<char>, b: Seq<char>, c: Seq<char>)
    requires
        seq_le(a, b),
        seq_le(b, c),
    ensures
        seq_le(a, c),
{
    if seq_lt(a, b) && seq_lt(b, c) {
        lemma_lt_transitive(a, b, c);
    }
}

/// Sorts records by key (ascending), keeping records with equal keys in their
/// order (a stable sort); the result holds the same records.
pub fn sort_by_key<T: Keyed>(v: Vec<T>) -> (r: Vec<T>)
    ensures
        sorted_by_key(r@),
        forall|k: Seq<char>| #[trigger] with_key(r@, k) == with_key(v@, k),
        r@.to_multiset() == v@.to_multiset(),
        r@.len() == v@.len(),
{
    let ghost orig = v@;
    let mut rest = v;
    let mut out: Vec<T> = Vec::new();
    proof {
        assert forall|k: Seq<char>| #[trigger] with_key(out@, k) == with_key(orig.skip(rest@.len() as int), k) by {
            lemma_with_key_none(out@, k);
            lemma_with_key_none(orig.skip(rest@.len() as int), k);
        }
    }
    while rest.len() > 0
        invariant
            sorted_by_key(out@),
            out@.to_multiset().add(rest@.to_multiset()) == orig.to_multiset(),
            rest@.len() <= orig.len(),
            rest@ == orig.take(rest@.len() as int),
            forall|k: Seq<char>| #[trigger] with_key(out@, k) == with_key(orig.skip(rest@.len() as int), k),
        decreases rest.len(),
    {
        let ghost rest_before = rest@;
        let x = rest.pop().unwrap();
        assert(rest_before =~= rest@.push(x));
        assert(rest@ =~= orig.take(rest@.len() as int));
        assert(orig.skip(rest@.len() as int) =~= seq![x] + orig.skip(rest_before.len() as int));
        let mut pos: usize = 0;
        while pos < out.len() && str_lt(out[pos].key(), x.key())
            invariant
                pos <= out.len(),
                forall|i: int| 0 <= i < pos ==> seq_lt(#[trigger] out@[i].key_view(), x.key_view()),
            decreases out.len() - pos,
        {
            pos = pos + 1;
        }
        let ghost before = out@;
        proof {
            if pos < out.len() {
                lemma_lt_total(out@[pos as int].key_view(), x.key_view());
                assert(seq_le(x.key_view(), out@[pos as int].key_view()));
            }
        }
        out.insert(pos, x);
        assert(out@ == before.insert(pos as int, x));
        assert forall|i: int, j: int| 0 <= i < j < out@.len() implies seq_le(
            #[trigger] out@[i].key_view(),
            #[trigger] out@[j].key_view(),
        ) by {
            if j < pos {
                assert(out@[i] == before[i] && out@[j] == before[j]);
            } else if j == pos {
                assert(out@[i] == before[i]);
            } else if i < pos {
                assert(out@[i] == before[i] && out@[j] == before[j - 1]);
                lemma_le_transitive(out@[i].key_view(), before[pos as int].key_view(), out@[j].key_view());
                if pos < j - 1 {
                    assert(seq_le(before[pos as int].key_view(), before[j - 1].key_view()));
                }
            } else if i == pos {
                assert(out@[j] == before[j - 1]);
                if pos < j - 1 {
                    lemma_le_transitive(x.key_view(), before[pos as int].key_view(), before[j - 1].key_view());
                }
            } else {
                assert(out@[i] == before[i - 1] && out@[j] == before[j - 1]);
            }
        }
        assert(out@.remove(pos as int) =~= before);
        assert(out@.to_multiset() =~= before.to_multiset().insert(x));
        assert(out@.to_multiset().add(rest@.to_multiset()) =~= orig.to_multiset());
        assert forall|k: Seq<char>| #[trigger] with_key(out@, k) == with_key(orig.skip(rest@.len() as int), k) by {
            let head = before.take(pos as int);
            let tail = before.skip(pos as int);
            assert(before =~= head + tail);
            assert(out@ =~= head + seq![x] + tail);
            lemma_with_key_add(head + seq![x], tail, k);
            lemma_with_key_add(head, seq![x], k);
            lemma_with_key_add(head, tail, k);
            lemma_with_key_single(x, k);
            lemma_with_key_add(seq![x], orig.skip(rest_before.len() as int), k);
            if x.key_view() == k {
                assert forall|i: int| 0 <= i < head.len() implies #[trigger] head[i].key_view() != k by {
                    assert(head[i] == before[i]);
                    lemma_lt_irreflexive(k);
                }
                lemma_with_key_none(head, k);
                assert(with_key(out@, k) =~= seq![x] + with_key(before, k));
            } else {
                assert(with_key(out@, k) =~= with_key(before, k));
            }
        }
    }
    assert(orig.skip(0) =~= orig);
    assert(rest@.to_multiset() =~= Multiset::<T>::empty());
    assert(out@.to_multiset() =~= orig.to_multiset());
    proof {
        out@.to_multiset_ensures();
        orig.to_multiset_ensures();
    }
    out
}

/// Two sequences holding the same elements still do after mapping both.
pub proof fn lemma_map_preserves_multiset<A, B>(a: Seq<A>, b: Seq<A>, f: spec_fn(A) -> B)
    requires
        a.to_multiset() == b.to_multiset(),
    ensures
        a.map_values(f).to_multiset() == b.map_values(f).to_multiset(),
    decreases a.len(),
{
    a.to_multiset_ensures();
    b.to_multiset_ensures();
    if a.len() == 0 {
        assert(b.len() == 0);
        assert(a.map_values(f) =~= Seq::<B>::empty());
        assert(b.map_values(f) =~= Seq::<B>::empty());
    } else {
        let x = a.last();
        let a1 = a.drop_last();
        assert(a =~= a1.push(x));
        assert(a.to_multiset().count(x) > 0);
        assert(b.contains(x));
        let j = choose|j: int| 0 <= j < b.len() && b[j] == x;
        let b1 = b.remove(j);
        a1.to_multiset_ensures();
        b1.to_multiset_ensures();
        assert(a1.to_multiset() =~= a.to_multiset().remove(x));
        assert(b1.to_multiset() =~= b.to_multiset().remove(x));
        lemma_map_preserves_multiset(a1, b1, f);
        let am = a.map_values(f);
        let bm = b.map_values(f);
        assert(am =~= a1.map_values(f).push(f(x)));
        a1.map_values(f).to_multiset_ensures();
        bm.to_multiset_ensures();
        assert(bm.remove(j) =~= b1.map_values(f));
        assert(bm[j] == f(x));
        assert(bm.to_multiset().count(f(x)) > 0);
        assert(bm.to_multiset() =~= bm.remove(j).to_multiset().insert(f(x)));
    }
}

} // verus!
