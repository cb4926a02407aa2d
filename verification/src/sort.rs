use vstd::prelude::*;
use vstd::multiset::Multiset;

verus! {

/// An integer ordering key, computable at run time and spoken of in
/// contracts.
pub trait SortKey: Sized {
    spec fn key(&self) -> int;

    fn key_exec(&self) -> (k: i32)
        ensures
            k as int == self.key(),
    ;
}

/// `x` placed after every element of `s` whose key does not exceed `x`'s.
pub open spec fn insert_sorted<T: SortKey>(x: T, s: Seq<T>) -> Seq<T>
    decreases s.len(),
{
    if s.len() == 0 {
        seq![x]
    } else if s.last().key() <= x.key() {
        s.push(x)
    } else {
        insert_sorted(x, s.drop_last()).push(s.last())
    }
}

/// Insertion sort: each element inserted, in turn, into the sorted prefix.
pub open spec fn sort_by_key<T: SortKey>(s: Seq<T>) -> Seq<T>
    decreases s.len(),
{
    if s.len() == 0 {
        Seq::empty()
    } else {
        insert_sorted(s.last(), sort_by_key(s.drop_last()))
    }
}

pub open spec fn sorted_by_key<T: SortKey>(s: Seq<T>) -> bool {
    forall|i: int, j: int| 0 <= i < j < s.len() ==> s[i].key() <= s[j].key()
}

/// Inserting at a position that every later element's key exceeds, and whose
/// left neighbour's key does not, is what `insert_sorted` describes.
proof fn lemma_insert_at<T: SortKey>(x: T, s: Seq<T>, p: int)
    requires
        0 <= p <= s.len(),
        forall|i: int| p <= i < s.len() ==> s[i].key() > x.key(),
        p > 0 ==> s[p - 1].key() <= x.key(),
    ensures
        insert_sorted(x, s) == s.take(p) + seq![x] + s.skip(p),
    decreases s.len(),
{
    if s.len() == 0 {
        assert(insert_sorted(x, s) =~= s.take(p) + seq![x] + s.skip(p));
    } else if s.last().key() <= x.key() {
        assert(p == s.len());
        assert(s.push(x) =~= s.take(p) + seq![x] + s.skip(p));
    } else {
        let t = s.drop_last();
        assert(p < s.len());
        lemma_insert_at(x, t, p);
        assert((t.take(p) + seq![x] + t.skip(p)).push(s.last()) =~= s.take(p) + seq![x] + s.skip(
            p,
        ));
    }
}

proof fn lemma_insert_sorted_props<T: SortKey>(x: T, s: Seq<T>)
    requires
        sorted_by_key(s),
    ensures
        sorted_by_key(insert_sorted(x, s)),
        insert_sorted(x, s).to_multiset() == s.to_multiset().insert(x),
        insert_sorted(x, s).len() == s.len() + 1,
    decreases s.len(),
{
    broadcast use vstd::seq_lib::group_to_multiset_ensures;

    if s.len() == 0 {
        assert(seq![x] =~= Seq::empty().push(x));
        assert(Seq::<T>::empty().to_multiset() =~= Multiset::empty());
    } else if s.last().key() <= x.key() {
        assert forall|i: int, j: int|
            0 <= i < j < s.push(x).len() implies s.push(x)[i].key() <= s.push(x)[j].key() by {
            if j < s.len() {
            } else {
                if i < s.len() - 1 {
                    assert(s[i].key() <= s[s.len() - 1].key());
                }
            }
        }
    } else {
        let t = s.drop_last();
        assert(sorted_by_key(t));
        lemma_insert_sorted_props(x, t);
        let r = insert_sorted(x, t);
        let out = r.push(s.last());
        assert(s =~= t.push(s.last()));
        assert(out.to_multiset() =~= s.to_multiset().insert(x)) by {
            assert(out.to_multiset() == r.to_multiset().insert(s.last()));
            assert(r.to_multiset() == t.to_multiset().insert(x));
            assert(s.to_multiset() == t.to_multiset().insert(s.last()));
            assert(t.to_multiset().insert(x).insert(s.last()) =~= t.to_multiset().insert(
                s.last(),
            ).insert(x));
        }
        assert forall|i: int, j: int| 0 <= i < j < out.len() implies out[i].key()
            <= out[j].key() by {
            if j < r.len() {
            } else {
                // out[j] is s.last(), whose key exceeds x's; every element of r
                // is x or one of t's, and t's elements stay under s.last().
                assert(out[j] == s.last());
                assert(r.to_multiset().count(out[i]) > 0);
                if out[i] == x {
                } else {
                    assert(t.to_multiset().insert(x).count(out[i]) > 0);
                    assert(t.to_multiset().count(out[i]) > 0);
                    assert(t.contains(out[i]));
                    let w = choose|w: int| 0 <= w < t.len() && t[w] == out[i];
                    assert(s[w].key() <= s.last().key());
                }
            }
        }
    }
}

/// The sorted sequence: ordered by key, one element for one element.
pub proof fn lemma_sort_by_key_props<T: SortKey>(s: Seq<T>)
    ensures
        sorted_by_key(sort_by_key(s)),
        sort_by_key(s).to_multiset() == s.to_multiset(),
        sort_by_key(s).len() == s.len(),
    decreases s.len(),
{
    broadcast use vstd::seq_lib::group_to_multiset_ensures;

    if s.len() == 0 {
    } else {
        let t = s.drop_last();
        lemma_sort_by_key_props(t);
        lemma_insert_sorted_props(s.last(), sort_by_key(t));
        assert(s =~= t.push(s.last()));
        assert(s.to_multiset() == t.to_multiset().insert(s.last()));
    }
}

/// Sorts in place, ascending by key.
pub fn sort_vec_by_key<T: SortKey>(v: &mut Vec<T>)
    ensures
        final(v)@ == sort_by_key(old(v)@),
{
    let ghost orig = v@;
    let mut j: usize = 0;
    while j < v.len()
        invariant
            j <= v@.len(),
            v@.len() == orig.len(),
            v@ == sort_by_key(orig.take(j as int)) + orig.skip(j as int),
        decreases v@.len() - j,
    {
        let ghost sorted = sort_by_key(orig.take(j as int));
        assert(sorted.len() == j as int) by {
            lemma_sort_by_key_props(orig.take(j as int));
        }
        assert(v@[j as int] == orig[j as int]);
        let xk = v[j].key_exec();
        let mut pos: usize = j;
        while pos > 0 && v[pos - 1].key_exec() > xk
            invariant
                pos <= j < v@.len(),
                v@ == sorted + orig.skip(j as int),
                sorted.len() == j as int,
                xk as int == orig[j as int].key(),
                forall|i: int| pos <= i < j ==> v@[i].key() > xk as int,
            decreases pos,
        {
            pos -= 1;
        }
        proof {
            let jj = j as int;
            assert forall|i: int| pos as int <= i < sorted.len() implies sorted[i].key()
                > orig[jj].key() by {
                assert(v@[i] == sorted[i]);
            }
            if pos > 0 {
                assert(v@[pos - 1] == sorted[pos - 1]);
            }
        }
        let x = v.remove(j);
        assert(x == orig[j as int]);
        v.insert(pos, x);
        proof {
            lemma_insert_at(x, sorted, pos as int);
            let pre = orig.take(j as int);
            let post = orig.take(j + 1 as int);
            assert(post.drop_last() =~= pre);
            assert(post.last() == orig[j as int]);
            assert(sort_by_key(post) == insert_sorted(x, sorted));
            assert((sorted + orig.skip(j as int)).remove(j as int).insert(pos as int, x) =~= (
            sorted.take(pos as int) + seq![x] + sorted.skip(pos as int)) + orig.skip(j + 1 as int));
        }
        j += 1;
    }
    proof {
        assert(orig.take(orig.len() as int) =~= orig);
        assert(orig.skip(orig.len() as int) =~= Seq::empty());
        assert(sort_by_key(orig) + Seq::empty() =~= sort_by_key(orig));
    }
}

} // verus!
