//! Finding the first place in a list at which something holds, and lists
//! of peers without repetition.

use vstd::prelude::*;
use crate::packet::PeerId;

verus! {

/// The least index below `n` at which `pred` holds, or `n` if there is none.
pub open spec fn first_index(n: nat, pred: spec_fn(int) -> bool) -> int
    decreases n,
{
    if n == 0 {
        0
    } else {
        let r = first_index((n - 1) as nat, pred);
        if r < n - 1 {
            r
        } else if pred(n - 1) {
            n - 1
        } else {
            n as int
        }
    }
}

/// `first_index` is in range, `pred` holds at it and nowhere before it.
pub proof fn lemma_first_index(n: nat, pred: spec_fn(int) -> bool)
    ensures
        0 <= first_index(n, pred) <= n,
        first_index(n, pred) < n ==> pred(first_index(n, pred)),
        forall|j: int| 0 <= j < first_index(n, pred) ==> !#[trigger] pred(j),
    decreases n,
{
    if n > 0 {
        lemma_first_index((n - 1) as nat, pred);
    }
}

/// An index at which `pred` holds, with none before it, is `first_index`.
pub proof fn lemma_first_index_is(n: nat, pred: spec_fn(int) -> bool, i: int)
    requires
        0 <= i < n,
        pred(i),
        forall|j: int| 0 <= j < i ==> !#[trigger] pred(j),
    ensures
        first_index(n, pred) == i,
{
    lemma_first_index(n, pred);
    let r = first_index(n, pred);
    if r < i {
        assert(pred(r));
    } else if r > i {
        assert(!pred(i));
    }
}

/// Where `pred` holds nowhere below `n`, `first_index` is `n`.
pub proof fn lemma_first_index_none(n: nat, pred: spec_fn(int) -> bool)
    requires
        forall|j: int| 0 <= j < n ==> !#[trigger] pred(j),
    ensures
        first_index(n, pred) == n,
{
    lemma_first_index(n, pred);
}

/// `first_index` looks at `pred` below `n` only.
pub proof fn lemma_first_index_ext(n: nat, left: spec_fn(int) -> bool, right: spec_fn(int) -> bool)
    requires
        forall|j: int| 0 <= j < n ==> #[trigger] left(j) == #[trigger] right(j),
    ensures
        first_index(n, left) == first_index(n, right),
    decreases n,
{
    if n > 0 {
        lemma_first_index_ext((n - 1) as nat, left, right);
        assert(left(n - 1) == right(n - 1));
    }
}

/// What a list holds after one more item was put at its end.
pub proof fn lemma_push_contains(s: Seq<PeerId>, x: PeerId, d: PeerId)
    ensures
        s.push(x).contains(d) <==> s.contains(d) || d == x,
{
    let t = s.push(x);
    if t.contains(d) {
        let i = choose|i: int| 0 <= i < t.len() && t[i] == d;
        if i < s.len() {
            assert(s[i] == d);
        }
    }
    if s.contains(d) {
        let i = choose|i: int| 0 <= i < s.len() && s[i] == d;
        assert(t[i] == d);
    }
    if d == x {
        assert(t[s.len() as int] == d);
    }
}

/// A list without repetition stays so when an item that it does not hold
/// is put at its end.
pub proof fn lemma_push_no_duplicates(s: Seq<PeerId>, x: PeerId)
    requires
        s.no_duplicates(),
        !s.contains(x),
    ensures
        s.push(x).no_duplicates(),
{
    let t = s.push(x);
    assert forall|i: int, j: int| 0 <= i < t.len() && 0 <= j < t.len() && i != j implies t[i]
        != t[j] by {
        if i < s.len() && j < s.len() {
            assert(s[i] != s[j]);
        } else if i < s.len() {
            assert(s.contains(s[i]));
        } else {
            assert(s.contains(s[j]));
        }
    }
}

/// Whether `x` occurs in `v`.
pub fn vec_contains(v: &Vec<PeerId>, x: PeerId) -> (r: bool)
    ensures
        r == v@.contains(x),
{
    let mut i: usize = 0;
    while i < v.len()
        invariant
            i <= v@.len(),
            forall|j: int| 0 <= j < i ==> v@[j] != x,
        decreases v@.len() - i,
    {
        if v[i] == x {
            return true;
        }
        i += 1;
    }
    false
}

} // verus!
