//! Singly-linked lists in the shape of C records: each node owns its
//! successor through its `next` field.

use vstd::prelude::*;

verus! {

/// A record that can be a node of a singly-linked list.
pub trait CLinkedList: Sized {
    /// The successor of the node. An implementation states here which field
    /// holds it.
    open spec fn spec_next(&self) -> Option<Box<Self>> {
        arbitrary()
    }

    /// The node with its successor replaced and every other field as it is.
    /// An implementation states here what that node is.
    open spec fn spec_set_next(self, next: Option<Box<Self>>) -> Self {
        arbitrary()
    }

    /// Gives access to the `next` field of the node.
    fn next(&mut self) -> (r: &mut Option<Box<Self>>)
        ensures
            *r == old(self).spec_next(),
            *final(self) == old(self).spec_set_next(*final(r)),
    ;
}

/// The head of the list that chaining `elts` gives: the last element as it
/// is, and each one before it with the chain of those behind it as its
/// successor.
pub open spec fn spec_chain<T: CLinkedList>(elts: Seq<T>) -> T
    recommends
        elts.len() > 0,
    decreases elts.len(),
{
    if elts.len() <= 1 {
        elts[0]
    } else {
        elts[0].spec_set_next(Some(Box::new(spec_chain(elts.skip(1)))))
    }
}

/// Chains the nodes in their order into one list and gives its head.
pub fn chain_nodes<T: CLinkedList>(elts: Vec<T>) -> (head: T)
    requires
        elts@.len() > 0,
    ensures
        head == spec_chain(elts@),
{
    let mut elts = elts;
    let ghost all = elts@;
    let mut tail: T = elts.pop().unwrap();
    assert(all.skip(all.len() - 1) =~= seq![tail]);
    while elts.len() > 0
        invariant
            elts@.len() < all.len(),
            elts@ =~= all.take(elts@.len() as int),
            tail == spec_chain(all.skip(elts@.len() as int)),
        decreases elts@.len(),
    {
        let ghost k = elts@.len() as int;
        let mut x: T = elts.pop().unwrap();
        *x.next() = Some(Box::new(tail));
        tail = x;
        proof {
            let s = all.skip(k - 1);
            assert(s[0] == all[k - 1]);
            assert(s.skip(1) =~= all.skip(k));
        }
    }
    assert(all.skip(0) =~= all);
    tail
}

} // verus!
