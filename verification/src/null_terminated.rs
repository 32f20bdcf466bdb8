//! Arrays that end in a sentinel element, for any element type that can be
//! compared, with the sentinel chosen by the caller.

use vstd::laws_eq::obeys_concrete_eq;
use vstd::prelude::*;

verus! {

/// How many elements stand before the first `sentinel` of `s`; the length of
/// `s` where it holds none.
pub open spec fn spec_count<T>(s: Seq<T>, sentinel: T) -> int
    decreases s.len(),
{
    if s.len() == 0 || s[0] == sentinel {
        0
    } else {
        1 + spec_count(s.skip(1), sentinel)
    }
}

/// Where the first `n` elements differ from the sentinel and the sentinel or
/// the end follows, the count is `n`.
pub proof fn lemma_count_is<T>(s: Seq<T>, sentinel: T, n: int)
    requires
        0 <= n <= s.len(),
        forall|i: int| 0 <= i < n ==> s[i] != sentinel,
        n < s.len() ==> s[n] == sentinel,
    ensures
        spec_count(s, sentinel) == n,
    decreases s.len(),
{
    if s.len() == 0 || s[0] == sentinel {
        if n > 0 {
            assert(s[0] != sentinel);
        }
    } else {
        assert forall|i: int| 0 <= i < n - 1 implies s.skip(1)[i] != sentinel by {
            assert(s.skip(1)[i] == s[i + 1]);
        }
        lemma_count_is(s.skip(1), sentinel, n - 1);
    }
}

/// Makes the array of the elements of `v` with `sentinel` behind them.
pub fn from_vec<T: Copy + PartialEq>(v: Vec<T>, sentinel: T) -> (arr: Vec<T>)
    ensures
        arr@ == v@.push(sentinel),
{
    let mut arr: Vec<T> = v;
    arr.push(sentinel);
    arr
}

/// Takes back the elements of a sentinel-terminated array: those before the
/// first `sentinel`. The array must hold the sentinel, as the walk would
/// otherwise leave it.
pub fn into_vec<T: Copy + PartialEq>(arr: Vec<T>, sentinel: T) -> (v: Vec<T>)
    requires
        obeys_concrete_eq::<T>(),
        arr@.contains(sentinel),
    ensures
        v@ == arr@.take(spec_count(arr@, sentinel)),
{
    let mut len: usize = 0;
    loop
        invariant_except_break
            len < arr@.len(),
            forall|i: int| 0 <= i < len ==> arr@[i] != sentinel,
        invariant
            arr@.contains(sentinel),
            obeys_concrete_eq::<T>(),
        ensures
            len < arr@.len(),
            forall|i: int| 0 <= i < len ==> arr@[i] != sentinel,
            arr@[len as int] == sentinel,
        decreases arr@.len() - len,
    {
        proof {
            reveal(obeys_concrete_eq);
        }
        if arr[len] == sentinel {
            break ;
        }
        proof {
            let w = choose|i: int| 0 <= i < arr@.len() && arr@[i] == sentinel;
            assert(w > len);
            assert(len + 1 < arr.len());
        }
        len += 1;
    }
    proof {
        lemma_count_is(arr@, sentinel, len as int);
    }
    let mut v: Vec<T> = arr;
    v.truncate(len);
    assert(v@ =~= arr@.take(len as int));
    v
}

/// An array built from `n` elements that all differ from the sentinel has `n`
/// elements before the sentinel, and taking them back gives the elements it
/// was built from.
pub proof fn lemma_from_vec_into_vec<T>(v: Seq<T>, sentinel: T)
    requires
        !v.contains(sentinel),
    ensures
        v.push(sentinel).contains(sentinel),
        spec_count(v.push(sentinel), sentinel) == v.len(),
        v.push(sentinel).take(spec_count(v.push(sentinel), sentinel)) == v,
{
    let arr = v.push(sentinel);
    assert(arr[v.len() as int] == sentinel);
    assert forall|i: int| 0 <= i < v.len() implies arr[i] != sentinel by {
        assert(v[i] == arr[i]);
        assert(v.contains(v[i]));
    }
    lemma_count_is(arr, sentinel, v.len() as int);
    assert(arr.take(v.len() as int) =~= v);
}

} // verus!
