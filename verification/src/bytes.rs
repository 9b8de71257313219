//! Byte strings and duplicate-free lists of byte strings.

use vstd::prelude::*;

verus! {

/// Whether two byte strings hold the same bytes.
pub fn bytes_eq(a: &Vec<u8>, b: &Vec<u8>) -> (r: bool)
    ensures
        r == (a@ == b@),
{
    if a.len() != b.len() {
        return false;
    }
    let mut i: usize = 0;
    while i < a.len()
        invariant
            i <= a.len(),
            a.len() == b.len(),
            forall|j: int| 0 <= j < i ==> a@[j] == b@[j],
        decreases a.len() - i,
    {
        if a[i] != b[i] {
            return false;
        }
        i += 1;
    }
    assert(a@ =~= b@);
    true
}

/// A fresh copy of a byte string.
pub fn bytes_copy(a: &Vec<u8>) -> (r: Vec<u8>)
    ensures
        r@ == a@,
{
    let mut r: Vec<u8> = Vec::new();
    let mut i: usize = 0;
    while i < a.len()
        invariant
            i <= a.len(),
            r@ == a@.take(i as int),
        decreases a.len() - i,
    {
        r.push(a[i]);
        i += 1;
    }
    r
}

/// The byte strings that a list holds, as a set.
pub open spec fn listed(list: Seq<Vec<u8>>) -> Set<Seq<u8>> {
    Set::new(|p: Seq<u8>| exists|i: int| 0 <= i < list.len() && (#[trigger] list[i])@ == p)
}

/// No byte string occurs twice in the list.
pub open spec fn distinct(list: Seq<Vec<u8>>) -> bool {
    forall|i: int, j: int| 0 <= i < j < list.len() ==> (#[trigger] list[i])@ != (#[trigger] list[j])@
}

/// The byte strings of a list, in their order.
pub open spec fn items(list: Seq<Vec<u8>>) -> Seq<Seq<u8>> {
    Seq::new(list.len(), |i: int| list[i]@)
}

/// The list with the byte string at its end, unless the list holds it already.
pub open spec fn with_item(list: Seq<Seq<u8>>, p: Seq<u8>) -> Seq<Seq<u8>> {
    if list.contains(p) {
        list
    } else {
        list.push(p)
    }
}

/// A list holds what its items are.
pub proof fn lemma_listed_items(list: Seq<Vec<u8>>, p: Seq<u8>)
    ensures
        listed(list).contains(p) == items(list).contains(p),
{
    if listed(list).contains(p) {
        let i = choose|i: int| 0 <= i < list.len() && (#[trigger] list[i])@ == p;
        assert(items(list)[i] == p);
    }
}

/// Whether the list holds the byte string.
pub fn holds(list: &Vec<Vec<u8>>, x: &Vec<u8>) -> (r: bool)
    ensures
        r == listed(list@).contains(x@),
{
    let mut i: usize = 0;
    while i < list.len()
        invariant
            i <= list.len(),
            forall|j: int| 0 <= j < i ==> (#[trigger] list@[j])@ != x@,
        decreases list.len() - i,
    {
        if bytes_eq(&list[i], x) {
            return true;
        }
        i += 1;
    }
    false
}

/// Adds a copy of the byte string unless the list holds it already.
pub fn add_unique(list: &mut Vec<Vec<u8>>, x: &Vec<u8>)
    ensures
        distinct(old(list)@) ==> distinct(final(list)@),
        listed(final(list)@) == listed(old(list)@).insert(x@),
        items(final(list)@) == with_item(items(old(list)@), x@),
{
    proof {
        lemma_listed_items(list@, x@);
    }
    if !holds(list, x) {
        let ghost before = list@;
        list.push(bytes_copy(x));
        assert forall|p: Seq<u8>| listed(list@).contains(p) == listed(before).insert(x@).contains(
            p,
        ) by {
            if listed(before).contains(p) {
                let i = choose|i: int| 0 <= i < before.len() && (#[trigger] before[i])@ == p;
                assert(list@[i]@ == p);
            }
            if p == x@ {
                assert(list@[before.len() as int]@ == p);
            }
        }
    }
}

/// Whether every byte string of `a` is also in `b`.
pub fn is_subset(a: &Vec<Vec<u8>>, b: &Vec<Vec<u8>>) -> (r: bool)
    ensures
        r == listed(a@).subset_of(listed(b@)),
{
    let mut i: usize = 0;
    while i < a.len()
        invariant
            i <= a.len(),
            forall|j: int| 0 <= j < i ==> listed(b@).contains((#[trigger] a@[j])@),
        decreases a.len() - i,
    {
        if !holds(b, &a[i]) {
            return false;
        }
        i += 1;
    }
    true
}

/// Whether two lists hold the same byte strings.
pub fn same_set(a: &Vec<Vec<u8>>, b: &Vec<Vec<u8>>) -> (r: bool)
    ensures
        r == (listed(a@) == listed(b@)),
{
    let r = is_subset(a, b) && is_subset(b, a);
    proof {
        if r {
            assert(listed(a@) =~= listed(b@));
        }
    }
    r
}

} // verus!
