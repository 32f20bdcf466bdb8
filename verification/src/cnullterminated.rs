//! Arrays that end in a null element, for element types that have one.
//!
//! Such an array stands for what a C caller sees behind a pointer: the
//! elements, then the null that ends them. It is held as a `Vec` whose last
//! element of interest is the null.

use vstd::prelude::*;

verus! {

/// A type with a distinguished null value, such as a pointer.
pub trait Nullable: Sized {
    /// Whether the value is the null. An implementation states here which
    /// value that is.
    open spec fn spec_is_null(&self) -> bool {
        arbitrary()
    }

    /// The null.
    fn null() -> (r: Self)
        ensures
            r.spec_is_null(),
    ;

    /// Tests for the null.
    fn is_null(&self) -> (r: bool)
        ensures
            r == self.spec_is_null(),
    ;
}

impl<T> Nullable for Option<T> {
    open spec fn spec_is_null(&self) -> bool {
        self.is_none()
    }

    fn null() -> (r: Self) {
        None
    }

    fn is_null(&self) -> (r: bool) {
        self.is_none()
    }
}

impl Nullable for usize {
    open spec fn spec_is_null(&self) -> bool {
        *self == 0
    }

    fn null() -> (r: Self) {
        0
    }

    fn is_null(&self) -> (r: bool) {
        *self == 0
    }
}

/// How many elements stand before the first null of `s`; the length of `s`
/// where it holds none.
pub open spec fn spec_count<T: Nullable>(s: Seq<T>) -> int
    decreases s.len(),
{
    if s.len() == 0 || s[0].spec_is_null() {
        0
    } else {
        1 + spec_count(s.skip(1))
    }
}

/// Whether `s` holds a null.
pub open spec fn spec_terminated<T: Nullable>(s: Seq<T>) -> bool {
    exists|i: int| 0 <= i < s.len() && (#[trigger] s[i]).spec_is_null()
}

/// Whether `s` is some elements, none of them null, and then one null.
pub open spec fn spec_null_terminated<T: Nullable>(s: Seq<T>) -> bool {
    &&& s.len() >= 1
    &&& s.last().spec_is_null()
    &&& forall|i: int| 0 <= i < s.len() - 1 ==> !(#[trigger] s[i]).spec_is_null()
}

/// Where the first `n` elements are not null and a null or the end follows,
/// the count is `n`.
pub proof fn lemma_count_is<T: Nullable>(s: Seq<T>, n: int)
    requires
        0 <= n <= s.len(),
        forall|i: int| 0 <= i < n ==> !(#[trigger] s[i]).spec_is_null(),
        n < s.len() ==> s[n].spec_is_null(),
    ensures
        spec_count(s) == n,
    decreases s.len(),
{
    if s.len() == 0 || s[0].spec_is_null() {
        if n > 0 {
            assert(!s[0].spec_is_null());
        }
    } else {
        assert forall|i: int| 0 <= i < n - 1 implies !(#[trigger] s.skip(1)[i]).spec_is_null() by {
            assert(s.skip(1)[i] == s[i + 1]);
        }
        lemma_count_is(s.skip(1), n - 1);
    }
}

/// Makes the null-terminated array of the elements of `v`.
pub fn from_vec<T: Nullable>(v: Vec<T>) -> (arr: Vec<T>)
    ensures
        arr@.len() == v@.len() + 1,
        arr@.take(v@.len() as int) == v@,
        arr@.last().spec_is_null(),
{
    let mut arr: Vec<T> = v;
    arr.push(T::null());
    assert(arr@.take(v@.len() as int) =~= v@);
    arr
}

/// Walks a null-terminated array to its null and counts the elements before
/// it.
pub fn count<T: Nullable>(arr: &Vec<T>) -> (n: usize)
    requires
        spec_terminated(arr@),
    ensures
        n == spec_count(arr@),
        n < arr@.len(),
        arr@[n as int].spec_is_null(),
{
    let mut len: usize = 0;
    loop
        invariant_except_break
            len < arr@.len(),
            forall|i: int| 0 <= i < len ==> !(#[trigger] arr@[i]).spec_is_null(),
        invariant
            spec_terminated(arr@),
        ensures
            len < arr@.len(),
            forall|i: int| 0 <= i < len ==> !(#[trigger] arr@[i]).spec_is_null(),
            arr@[len as int].spec_is_null(),
        decreases arr@.len() - len,
    {
        if arr[len].is_null() {
            break ;
        }
        proof {
            let w = choose|i: int| 0 <= i < arr@.len() && (#[trigger] arr@[i]).spec_is_null();
            assert(w > len);
            assert(len + 1 < arr.len());
        }
        len += 1;
    }
    proof {
        lemma_count_is(arr@, len as int);
    }
    len
}

/// Takes back the elements of a null-terminated array: those before its first
/// null.
pub fn into_vec<T: Nullable>(arr: Vec<T>) -> (v: Vec<T>)
    requires
        spec_terminated(arr@),
    ensures
        v@ == arr@.take(spec_count(arr@)),
{
    let n: usize = count(&arr);
    let mut v: Vec<T> = arr;
    v.truncate(n);
    assert(v@ =~= arr@.take(n as int));
    v
}

/// An array built from `n` elements, none of them null, has `n` elements
/// before its null, and taking them back gives the elements it was built from.
pub proof fn lemma_from_vec_into_vec<T: Nullable>(v: Seq<T>, arr: Seq<T>)
    requires
        forall|i: int| 0 <= i < v.len() ==> !(#[trigger] v[i]).spec_is_null(),
        arr.len() == v.len() + 1,
        arr.take(v.len() as int) == v,
        arr.last().spec_is_null(),
    ensures
        spec_terminated(arr),
        spec_null_terminated(arr),
        spec_count(arr) == v.len(),
        arr.take(spec_count(arr)) == v,
{
    assert(arr[arr.len() - 1].spec_is_null());
    assert forall|i: int| 0 <= i < v.len() implies !(#[trigger] arr[i]).spec_is_null() by {
        assert(arr.take(v.len() as int)[i] == arr[i]);
    }
    lemma_count_is(arr, v.len() as int);
}

} // verus!
