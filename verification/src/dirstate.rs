//! The directory model: a snapshot of the data directory is a sequence of
//! entries, and the directory it denotes is the map from each path to the
//! last entry written under it.

use vstd::prelude::*;

use crate::archive::TarEntryView;

verus! {

/// The directory that a write sequence produces: each path maps to the last
/// entry carrying it.
pub open spec fn dir_map(s: Seq<TarEntryView>) -> Map<Seq<u8>, TarEntryView>
    decreases s.len(),
{
    if s.len() == 0 {
        Map::empty()
    } else {
        dir_map(s.drop_last()).insert(s.last().path, s.last())
    }
}

/// A directory key always comes from some entry of the write sequence.
pub proof fn lemma_dir_map_dom(s: Seq<TarEntryView>, k: Seq<u8>)
    requires
        dir_map(s).dom().contains(k),
    ensures
        exists|i: int| 0 <= i < s.len() && #[trigger] s[i].path == k,
    decreases s.len(),
{
    if s.len() > 0 {
        if s.last().path == k {
            assert(s[s.len() - 1].path == k);
        } else {
            lemma_dir_map_dom(s.drop_last(), k);
            let i = choose|i: int|
                0 <= i < s.drop_last().len() && #[trigger] s.drop_last()[i].path == k;
            assert(s[i].path == k);
        }
    }
}

/// The directory of a concatenated write sequence is the right-biased union
/// of the two directories.
pub proof fn lemma_dir_map_concat(a: Seq<TarEntryView>, b: Seq<TarEntryView>)
    ensures
        dir_map(a + b) == dir_map(a).union_prefer_right(dir_map(b)),
    decreases b.len(),
{
    if b.len() == 0 {
        assert(a + b =~= a);
        assert(dir_map(a).union_prefer_right(dir_map(b)) =~= dir_map(a));
    } else {
        lemma_dir_map_concat(a, b.drop_last());
        assert((a + b).drop_last() =~= a + b.drop_last());
        assert((a + b).last() == b.last());
        assert(dir_map(a).union_prefer_right(dir_map(b.drop_last())).insert(
            b.last().path,
            b.last(),
        ) =~= dir_map(a).union_prefer_right(dir_map(b.drop_last()).insert(
            b.last().path,
            b.last(),
        )));
    }
}

/// Filtering keeps a sequence unchanged when every element satisfies the
/// predicate.
pub proof fn lemma_filter_all(s: Seq<TarEntryView>, pred: spec_fn(TarEntryView) -> bool)
    requires
        forall|i: int| 0 <= i < s.len() ==> pred(#[trigger] s[i]),
    ensures
        s.filter(pred) == s,
    decreases s.len(),
{
    reveal(Seq::filter);
    if s.len() > 0 {
        lemma_filter_all(s.drop_last(), pred);
        assert(pred(s.last()));
        assert(s.drop_last().push(s.last()) =~= s);
    }
}

/// A filtered write sequence is absorbed by the unfiltered one: writing the
/// filtered entries first and then all entries produces the same directory
/// as writing all entries alone.
pub proof fn lemma_dir_map_filter_absorb(s: Seq<TarEntryView>, pred: spec_fn(TarEntryView) -> bool)
    ensures
        dir_map(s.filter(pred)).union_prefer_right(dir_map(s)) == dir_map(s),
    decreases s.len(),
{
    reveal(Seq::filter);
    if s.len() == 0 {
        assert(dir_map(s.filter(pred)).union_prefer_right(dir_map(s)) =~= dir_map(s));
    } else {
        lemma_dir_map_filter_absorb(s.drop_last(), pred);
        let a = dir_map(s.drop_last().filter(pred));
        let b = dir_map(s.drop_last());
        let k = s.last().path;
        let v = s.last();
        if pred(s.last()) {
            let f = s.drop_last().filter(pred);
            assert(s.filter(pred) == f.push(s.last()));
            assert(f.push(s.last()).drop_last() =~= f);
            assert(f.push(s.last()).last() == s.last());
            assert(dir_map(s.filter(pred)) == a.insert(k, v));
            assert(a.insert(k, v).union_prefer_right(b.insert(k, v)) =~= b.insert(k, v)) by {
                assert(a.union_prefer_right(b) == b);
            }
        } else {
            assert(dir_map(s.filter(pred)) == a);
            assert(a.union_prefer_right(b.insert(k, v)) =~= b.insert(k, v)) by {
                assert(a.union_prefer_right(b) == b);
            }
        }
    }
}

/// Filtering a sequence extended by one element keeps the element exactly
/// when it satisfies the predicate.
pub proof fn lemma_filter_push(s: Seq<TarEntryView>, pred: spec_fn(TarEntryView) -> bool, x: TarEntryView)
    ensures
        s.push(x).filter(pred) == if pred(x) {
            s.filter(pred).push(x)
        } else {
            s.filter(pred)
        },
{
    reveal(Seq::filter);
    assert(s.push(x).drop_last() =~= s);
    assert(s.push(x).last() == x);
}

/// Every element of a filtered sequence comes from the original.
pub proof fn lemma_filter_subset(s: Seq<TarEntryView>, pred: spec_fn(TarEntryView) -> bool)
    ensures
        forall|i: int|
            0 <= i < s.filter(pred).len() ==> s.contains(#[trigger] s.filter(pred)[i]),
    decreases s.len(),
{
    reveal(Seq::filter);
    if s.len() > 0 {
        lemma_filter_subset(s.drop_last(), pred);
        assert forall|i: int| 0 <= i < s.filter(pred).len() implies s.contains(
            #[trigger] s.filter(pred)[i],
        ) by {
            let f = s.drop_last().filter(pred);
            if i < f.len() {
                assert(s.drop_last().contains(f[i]));
                let j = choose|j: int| 0 <= j < s.drop_last().len() && s.drop_last()[j] == f[i];
                assert(s[j] == f[i]);
            } else {
                assert(s.filter(pred)[i] == s.last());
                assert(s[s.len() - 1] == s.last());
            }
        }
    }
}

/// Copies a byte vector.
pub fn clone_bytes(v: &Vec<u8>) -> (r: Vec<u8>)
    ensures
        r@ == v@,
{
    let n: usize = v.len();
    let mut r: Vec<u8> = Vec::new();
    let mut i: usize = 0;
    while i < n
        invariant
            i <= n,
            n == v@.len(),
            r@ =~= v@.subrange(0, i as int),
        decreases n - i,
    {
        r.push(v[i]);
        i = i + 1;
    }
    proof {
        assert(r@ =~= v@);
    }
    r
}

/// Copies an entry.
pub fn clone_entry(e: &crate::archive::TarEntry) -> (r: crate::archive::TarEntry)
    ensures
        r@ == e@,
{
    crate::archive::TarEntry {
        path: clone_bytes(&e.path),
        is_dir: e.is_dir,
        data: clone_bytes(&e.data),
    }
}

} // verus!
