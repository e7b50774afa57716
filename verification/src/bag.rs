//! Trusted declarations around `hashbag::HashBag`, the counting multiset
//! that feedback classification draws letters from.  Each item's contract
//! states what the crate's source shows of the call, over the abstract
//! contents `bag_contents`.

use vstd::prelude::*;
use vstd::multiset::Multiset;

verus! {

#[verifier::external_type_specification]
#[verifier::external_body]
#[verifier::reject_recursive_types(T)]
#[verifier::reject_recursive_types(S)]
pub struct ExHashBag<T, S>(hashbag::HashBag<T, S>);

/// What a letter bag holds, as a multiset of its characters.
pub uninterp spec fn bag_contents(b: hashbag::HashBag<char>) -> Multiset<char>;

/// The multiset with one occurrence of `c` taken out if any is present;
/// unchanged if `c` is absent.
pub open spec fn remove_one(m: Multiset<char>, c: char) -> Multiset<char> {
    if m.count(c) > 0 {
        m.remove(c)
    } else {
        m
    }
}

/// Relies on `hashbag::HashBag::new`: a new bag is empty.
#[verifier::external_body]
pub(crate) fn bag_new() -> (b: hashbag::HashBag<char>)
    ensures
        bag_contents(b) == Multiset::<char>::empty(),
{
    hashbag::HashBag::new()
}

/// Relies on `hashbag::HashBag::insert`: one more occurrence of the
/// character is in the bag afterwards.  The bag counts occurrences in a
/// `usize`, so a bag already holding `usize::MAX` occurrences is left
/// out.
#[verifier::external_body]
pub(crate) fn bag_insert(b: &mut hashbag::HashBag<char>, c: char)
    requires
        bag_contents(*old(b)).len() < usize::MAX,
    ensures
        bag_contents(*final(b)) == bag_contents(*old(b)).insert(c),
{
    b.insert(c);
}

/// Relies on `hashbag::HashBag::contains`: returns how many occurrences
/// of the character the bag holds.
#[verifier::external_body]
pub(crate) fn bag_count(b: &hashbag::HashBag<char>, c: char) -> (n: usize)
    ensures
        n == bag_contents(*b).count(c),
{
    b.contains(&c)
}

/// Relies on `hashbag::HashBag::remove`: one occurrence of the character
/// leaves the bag if any is present; an absent character leaves the bag
/// unchanged.
#[verifier::external_body]
pub(crate) fn bag_remove(b: &mut hashbag::HashBag<char>, c: char)
    ensures
        bag_contents(*final(b)) == remove_one(bag_contents(*old(b)), c),
{
    b.remove(&c);
}

} // verus!
