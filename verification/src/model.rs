//! The mathematical model of the store: maps from keys to what lies under them.

use vstd::prelude::*;

verus! {

/// What an item holds: a value under each entry key.
pub type Entries = Map<Seq<char>, Seq<char>>;

/// What a category holds: the entries of each item under the item's name.
pub type Items = Map<Seq<char>, Map<Seq<char>, Seq<char>>>;

/// What a wallet holds: the items of each category under the category's name.
pub type Categories = Map<Seq<char>, Map<Seq<char>, Map<Seq<char>, Seq<char>>>>;

/// A store as a JSON text describes it: categories, in each its items, in
/// each item its entries, all in the order in which the text gives them.
pub type Document = Seq<(Seq<char>, Seq<(Seq<char>, Seq<(Seq<char>, Seq<char>)>)>)>;

/// The entries of one item of a document.
pub type DocumentEntries = Seq<(Seq<char>, Seq<char>)>;

/// The items of one category of a document.
pub type DocumentItems = Seq<(Seq<char>, Seq<(Seq<char>, Seq<char>)>)>;

/// Every item of `items` has finitely many entries, and there are finitely
/// many items.
pub open spec fn finite_items(items: Items) -> bool {
    &&& items.dom().finite()
    &&& forall|i: Seq<char>| #[trigger] items.contains_key(i) ==> items[i].dom().finite()
}

/// The store is finite at every level.
pub open spec fn finite_store(w: Categories) -> bool {
    &&& w.dom().finite()
    &&& forall|c: Seq<char>| #[trigger] w.contains_key(c) ==> finite_items(w[c])
}

/// Taking a key out of a finite map leaves one key less.
pub proof fn lemma_remove_shrinks<T>(m: Map<Seq<char>, T>, k: Seq<char>)
    requires
        m.dom().finite(),
        m.contains_key(k),
    ensures
        m.remove(k).dom().finite(),
        m.remove(k).dom().len() == m.dom().len() - 1,
        !m.remove(k).contains_key(k),
{
    assert(m.remove(k).dom() =~= m.dom().remove(k));
}

/// Putting a value under a key that is there leaves the number of keys as it was.
pub proof fn lemma_overwrite_keeps_size<T>(m: Map<Seq<char>, T>, k: Seq<char>, v: T)
    requires
        m.contains_key(k),
    ensures
        m.insert(k, v).dom() == m.dom(),
{
    assert(m.insert(k, v).dom() =~= m.dom());
}

} // verus!
