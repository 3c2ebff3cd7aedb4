//! How many indices have a property, and what stands at them.

use vstd::prelude::*;
use vstd::set_lib::*;

verus! {

/// The indices below `n` that have the property.
pub open spec fn those(n: int, p: spec_fn(int) -> bool) -> Set<int> {
    Set::new(|k: int| 0 <= k < n && p(k))
}

/// The indices below `n` that have the property, in order.
pub open spec fn in_order(n: int, p: spec_fn(int) -> bool) -> Seq<int> {
    Seq::new(n as nat, |k: int| k).filter(p)
}

/// One index more counts exactly where it has the property.
pub proof fn lemma_those(n: int, p: spec_fn(int) -> bool)
    requires
        n >= 0,
    ensures
        those(n, p).finite(),
        those(n, p).len() <= n,
        n > 0 ==> those(n, p).len() == those(n - 1, p).len() + if p(n - 1) {
            1int
        } else {
            0
        },
        n == 0 ==> those(n, p).len() == 0,
        n == 0 ==> in_order(n, p) == Seq::<int>::empty(),
        n > 0 ==> in_order(n, p) == if p(n - 1) {
            in_order(n - 1, p).push(n - 1)
        } else {
            in_order(n - 1, p)
        },
        in_order(n, p).len() == those(n, p).len(),
    decreases n,
{
    reveal(Seq::filter);
    let all = Seq::new(n as nat, |k: int| k);
    if n == 0 {
        assert(those(n, p) =~= Set::<int>::empty());
        assert(all =~= Seq::<int>::empty());
    } else {
        lemma_those(n - 1, p);
        assert(all.drop_last() =~= Seq::new((n - 1) as nat, |k: int| k));
        if p(n - 1) {
            assert(those(n, p) =~= those(n - 1, p).insert(n - 1));
        } else {
            assert(those(n, p) =~= those(n - 1, p));
        }
    }
}

/// A stretch of indices that all have the property counts in full.
pub proof fn lemma_stretch(n: int, p: spec_fn(int) -> bool, low: int, high: int)
    requires
        0 <= low <= high <= n,
        forall|k: int| low <= k < high ==> #[trigger] p(k),
    ensures
        those(n, p).len() >= high - low,
    decreases n,
{
    lemma_those(n, p);
    if high < n {
        lemma_stretch(n - 1, p, low, high);
    } else if low < high {
        lemma_stretch(n - 1, p, low, high - 1);
    }
}

/// Properties that agree below `n` are had by the same indices.
pub proof fn lemma_agree(n: int, p: spec_fn(int) -> bool, q: spec_fn(int) -> bool)
    requires
        n >= 0,
        forall|k: int| 0 <= k < n ==> #[trigger] p(k) == q(k),
    ensures
        those(n, p) == those(n, q),
        in_order(n, p) == in_order(n, q),
    decreases n,
{
    assert(those(n, p) =~= those(n, q));
    lemma_those(n, p);
    lemma_those(n, q);
    if n > 0 {
        assert(p(n - 1) == q(n - 1));
        lemma_agree(n - 1, p, q);
    }
}

} // verus!
