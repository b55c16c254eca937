//! Orders on names and paths, and a stable insertion sort.

use vstd::prelude::*;

use super::album::Album;
use super::band::Band;
use super::track::Track;
use crate::paths::{path_less, path_lt};
use crate::text::chars_of;

verus! {

/// Lexicographic order on characters by code point: the order of `String`
/// (UTF-8 bytes order as code points do).
pub open spec fn text_less(a: Seq<char>, b: Seq<char>) -> bool
    decreases a.len(),
{
    if a.len() == 0 {
        b.len() > 0
    } else if b.len() == 0 {
        false
    } else if a[0] != b[0] {
        (a[0] as u32) < (b[0] as u32)
    } else {
        text_less(a.drop_first(), b.drop_first())
    }
}

/// The text order is asymmetric.
pub proof fn lemma_text_less_asymmetric(a: Seq<char>, b: Seq<char>)
    ensures
        text_less(a, b) ==> !text_less(b, a),
    decreases a.len(),
{
    if a.len() > 0 && b.len() > 0 && a[0] == b[0] {
        lemma_text_less_asymmetric(a.drop_first(), b.drop_first());
    }
}

/// The text order is irreflexive.
pub proof fn lemma_text_less_irreflexive(a: Seq<char>)
    ensures
        !text_less(a, a),
    decreases a.len(),
{
    if a.len() > 0 {
        lemma_text_less_irreflexive(a.drop_first());
    }
}

/// Whether `a` comes before `b` in the text order.
pub fn chars_less(a: &Vec<char>, b: &Vec<char>) -> (r: bool)
    ensures
        r == text_less(a@, b@),
{
    let mut i: usize = 0;
    proof {
        assert(a@.skip(0) =~= a@);
        assert(b@.skip(0) =~= b@);
    }
    while i < a.len() && i < b.len() && a[i] == b[i]
        invariant
            i <= a.len(),
            i <= b.len(),
            text_less(a@, b@) == text_less(a@.skip(i as int), b@.skip(i as int)),
        decreases a.len() - i,
    {
        assert(a@.skip(i as int).drop_first() =~= a@.skip(i + 1));
        assert(b@.skip(i as int).drop_first() =~= b@.skip(i + 1));
        i = i + 1;
    }
    if i == a.len() {
        i < b.len()
    } else if i == b.len() {
        false
    } else {
        assert(a@.skip(i as int)[0] == a@[i as int]);
        assert(b@.skip(i as int)[0] == b@[i as int]);
        (a[i] as u32) < (b[i] as u32)
    }
}

/// Whether string `a` comes before string `b`.
pub fn str_less(a: &str, b: &str) -> (r: bool)
    ensures
        r == text_less(a@, b@),
{
    let ca = chars_of(a);
    let cb = chars_of(b);
    chars_less(&ca, &cb)
}

/// Items with a strict order that a sort arranges them by.
pub trait Ordered: Sized {
    /// `a` comes strictly before `b`.
    spec fn before(a: Self, b: Self) -> bool;

    /// Whether `self` comes strictly before `other`.
    fn less(&self, other: &Self) -> (r: bool)
        ensures
            r == Self::before(*self, *other),
            r ==> !Self::before(*other, *self),
    ;
}

impl Ordered for Album {
    open spec fn before(a: Self, b: Self) -> bool {
        text_less(a.text@, b.text@)
    }

    fn less(&self, other: &Self) -> (r: bool) {
        let r = str_less(self.text.as_str(), other.text.as_str());
        proof {
            lemma_text_less_asymmetric(self.text@, other.text@);
        }
        r
    }
}

impl Ordered for Band {
    open spec fn before(a: Self, b: Self) -> bool {
        text_less(a.text@, b.text@)
    }

    fn less(&self, other: &Self) -> (r: bool) {
        let r = str_less(self.text.as_str(), other.text.as_str());
        proof {
            lemma_text_less_asymmetric(self.text@, other.text@);
        }
        r
    }
}

impl Ordered for Track {
    open spec fn before(a: Self, b: Self) -> bool {
        path_less(a.path@, b.path@)
    }

    fn less(&self, other: &Self) -> (r: bool) {
        path_lt(self.path.as_str(), other.path.as_str())
    }
}

/// No item comes before the one preceding it.
pub open spec fn sorted<T: Ordered>(s: Seq<T>) -> bool {
    forall|i: int| 0 < i < s.len() ==> !T::before(#[trigger] s[i], s[i - 1])
}

/// `r` holds the items of `v` at the distinct positions `idx`, and two items
/// that `r` holds in the reverse of their order in `v` are strictly ordered:
/// items that compare equal keep their order.
pub open spec fn stable_arrangement<T: Ordered>(v: Seq<T>, r: Seq<T>, idx: Seq<int>) -> bool {
    &&& idx.len() == r.len()
    &&& forall|k: int| 0 <= k < r.len() ==> 0 <= #[trigger] idx[k] < v.len() && r[k] == v[idx[k]]
    &&& forall|k: int, l: int| 0 <= k < l < r.len() ==> #[trigger] idx[k] != #[trigger] idx[l]
    &&& forall|k: int, l: int| 0 <= k < l < r.len() && #[trigger] idx[k] > #[trigger] idx[l] ==> T::before(r[k], r[l])
}

/// `r` is `v` rearranged so that items that compare equal keep their order.
pub open spec fn stably_sorted<T: Ordered>(v: Seq<T>, r: Seq<T>) -> bool {
    exists|idx: Seq<int>| stable_arrangement(v, r, idx)
}

/// Sorts by the order, keeping items that compare equal in their order.
pub fn sort_items<T: Ordered>(v: Vec<T>) -> (r: Vec<T>)
    ensures
        r@.to_multiset() == v@.to_multiset(),
        sorted(r@),
        stably_sorted(v@, r@),
{
    broadcast use vstd::seq_lib::group_to_multiset_ensures;

    let ghost all = v@;
    let ghost mut idx: Seq<int> = Seq::empty();
    let mut out: Vec<T> = Vec::new();
    for x in it: v.into_iter()
        invariant
            all == it.seq(),
            out@.to_multiset() == all.take(it.index() as int).to_multiset(),
            sorted(out@),
            stable_arrangement(all, out@, idx),
            forall|k: int| 0 <= k < idx.len() ==> #[trigger] idx[k] < it.index(),
    {
        let ghost i = it.index() as int;
        assert(x == all[i]);
        let mut j: usize = out.len();
        let mut go = true;
        while go
            invariant
                j <= out.len(),
                sorted(out@),
                j < out.len() ==> !T::before(out@[j as int], x),
                !go ==> (j == 0 || !T::before(x, out@[j - 1])),
                forall|m: int| j <= m < out@.len() ==> T::before(x, #[trigger] out@[m]),
            decreases j + if go { 1int } else { 0int },
        {
            if j == 0 {
                go = false;
            } else if x.less(&out[j - 1]) {
                j = j - 1;
            } else {
                go = false;
            }
        }
        let ghost before_insert = out@;
        let ghost old_idx = idx;
        out.insert(j, x);
        proof {
            idx = old_idx.insert(j as int, i);
            assert forall|k: int| 0 <= k < out@.len() implies 0 <= #[trigger] idx[k] < all.len() && out@[k] == all[idx[k]] by {
                if k < j {
                    assert(idx[k] == old_idx[k]);
                    assert(out@[k] == before_insert[k]);
                } else if k > j {
                    assert(idx[k] == old_idx[k - 1]);
                    assert(out@[k] == before_insert[k - 1]);
                }
            }
            assert forall|k: int, l: int| 0 <= k < l < out@.len() implies #[trigger] idx[k] != #[trigger] idx[l] by {
                if k < j {
                    assert(idx[k] == old_idx[k]);
                } else if k > j {
                    assert(idx[k] == old_idx[k - 1]);
                }
                if l < j {
                    assert(idx[l] == old_idx[l]);
                } else if l > j {
                    assert(idx[l] == old_idx[l - 1]);
                }
            }
            assert forall|k: int, l: int| 0 <= k < l < out@.len() && #[trigger] idx[k] > #[trigger] idx[l] implies T::before(
                out@[k],
                out@[l],
            ) by {
                if k < j {
                    assert(idx[k] == old_idx[k]);
                    assert(out@[k] == before_insert[k]);
                } else if k > j {
                    assert(idx[k] == old_idx[k - 1]);
                    assert(out@[k] == before_insert[k - 1]);
                }
                if l < j {
                    assert(idx[l] == old_idx[l]);
                    assert(out@[l] == before_insert[l]);
                } else if l > j {
                    assert(idx[l] == old_idx[l - 1]);
                    assert(out@[l] == before_insert[l - 1]);
                }
            }
            assert forall|k: int| 0 <= k < idx.len() implies #[trigger] idx[k] < i + 1 by {
                if k < j {
                    assert(idx[k] == old_idx[k]);
                } else if k > j {
                    assert(idx[k] == old_idx[k - 1]);
                }
            }
        }
        assert(all.take(i + 1) =~= all.take(i).push(x));
        assert(out@ =~= before_insert.insert(j as int, x));
        proof {
            vstd::seq_lib::to_multiset_insert(before_insert, j as int, x);
            vstd::seq_lib::to_multiset_build(all.take(i), x);
        }
        assert(out@ =~= before_insert.insert(j as int, x));
        assert forall|k: int| 0 < k < out@.len() implies !T::before(#[trigger] out@[k], out@[k - 1]) by {
            if k < j {
                assert(out@[k] == before_insert[k]);
                assert(out@[k - 1] == before_insert[k - 1]);
            } else if k == j {
                assert(out@[k] == x);
                assert(out@[k - 1] == before_insert[k - 1]);
            } else if k == j + 1 {
                assert(out@[k - 1] == x);
                assert(out@[k] == before_insert[k - 1]);
            } else {
                assert(out@[k] == before_insert[k - 1]);
                assert(out@[k - 1] == before_insert[k - 2]);
            }
        }
    }
    assert(all.take(all.len() as int) =~= all);
    out
}

} // verus!
