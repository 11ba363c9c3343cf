//! An item: a named record of entries, each a value under a key.

use vstd::prelude::*;
use crate::error::WalletError;
use crate::table::Table;

verus! {

/// A named record that holds entries in ascending key order.
#[derive(Debug)]
pub struct Item {
    identifier: String,
    entries: Table<String>,
}

impl View for Item {
    type V = Map<Seq<char>, Seq<char>>;

    /// The entries: each key with its value.
    closed spec fn view(&self) -> Map<Seq<char>, Seq<char>> {
        self.entries.map().map_values(|s: String| s@)
    }
}

impl Item {
    /// The name of the item.
    pub closed spec fn ident(&self) -> Seq<char> {
        self.identifier@
    }

    /// The entries are kept in ascending key order.
    pub closed spec fn wf(&self) -> bool {
        self.entries.wf()
    }

    /// The entries in the order in which they are kept.
    pub closed spec fn listed(&self) -> Seq<(Seq<char>, Seq<char>)> {
        crate::assoc::with_values(self.entries.entries(), |s: String| s@)
    }

    /// What is kept is the listing of the view.
    pub proof fn lemma_listed(&self)
        requires
            self.wf(),
        ensures
            self.listed() == crate::assoc::listing(self@),
            crate::assoc::ascending(self.listed()),
            crate::assoc::as_map(self.listed()) == self@,
            self@.dom().finite(),
            self@.dom().len() == self.listed().len(),
    {
        crate::assoc::lemma_with_values(self.entries.entries(), |s: String| s@);
        crate::assoc::lemma_len(self.listed());
    }

    /// An item of the given name without entries.
    pub fn new(identifier: String) -> (item: Item)
        ensures
            item.wf(),
            item.ident() == identifier@,
            item@ == Map::<Seq<char>, Seq<char>>::empty(),
    {
        let item = Item { identifier, entries: Table::new() };
        proof {
            assert(item@ =~= Map::<Seq<char>, Seq<char>>::empty());
        }
        item
    }

    /// The number of entries.
    pub fn size(&self) -> (n: usize)
        requires
            self.wf(),
        ensures
            n == self@.dom().len(),
            self@.dom().finite(),
    {
        proof {
            assert(self@.dom() =~= self.entries.map().dom());
        }
        self.entries.len()
    }

    /// Whether the item has no entry.
    pub fn empty(&self) -> (b: bool)
        requires
            self.wf(),
        ensures
            b == (self@.dom().len() == 0),
            b == (self@ == Map::<Seq<char>, Seq<char>>::empty()),
    {
        proof {
            assert(self@.dom() =~= self.entries.map().dom());
            if self.entries.map() == Map::<Seq<char>, String>::empty() {
                assert(self@ =~= Map::<Seq<char>, Seq<char>>::empty());
            }
        }
        self.entries.is_empty()
    }

    /// The name of the item.
    pub fn get_ident(&self) -> (r: &String)
        ensures
            r@ == self.ident(),
    {
        &self.identifier
    }

    /// Gives the item another name; the entries stay.
    pub fn set_ident(&mut self, identifier: &String)
        ensures
            final(self).ident() == identifier@,
            final(self)@ == old(self)@,
            final(self).wf() == old(self).wf(),
    {
        self.identifier = identifier.clone();
    }

    /// Puts `value` under `key`, in place of any value that was there. Returns
    /// whether the key is new.
    pub fn add_entry(&mut self, key: &String, value: &String) -> (r: Result<bool, WalletError>)
        requires
            old(self).wf(),
        ensures
            final(self).wf(),
            final(self).ident() == old(self).ident(),
            final(self)@ == old(self)@.insert(key@, value@),
            r == Ok::<bool, WalletError>(!old(self)@.contains_key(key@)),
            old(self)@.contains_key(key@) ==> final(self)@.dom() == old(self)@.dom(),
    {
        let was = self.entries.insert(key.clone(), value.clone());
        proof {
            assert(self@ =~= old(self)@.insert(key@, value@));
            if old(self)@.contains_key(key@) {
                crate::model::lemma_overwrite_keeps_size(old(self)@, key@, value@);
            }
        }
        Ok(was.is_none())
    }

    /// The value under `key`.
    pub fn get_entry(&self, key: &String) -> (r: Result<&String, WalletError>)
        requires
            self.wf(),
        ensures
            match r {
                Ok(v) => self@.contains_key(key@) && v@ == self@[key@],
                Err(e) => !self@.contains_key(key@) && e == WalletError::RetrievalError,
            },
    {
        match self.entries.get(key.as_str()) {
            Some(v) => Ok(v),
            None => Err(WalletError::RetrievalError),
        }
    }

    /// Whether there is an entry under `key`.
    pub fn has_entry(&self, key: &String) -> (b: bool)
        requires
            self.wf(),
        ensures
            b == self@.contains_key(key@),
    {
        self.entries.contains_key(key.as_str())
    }

    /// Takes the entry under `key` out. Without such an entry nothing changes
    /// and the deletion is reported as failed.
    pub fn delete_entry(&mut self, key: &String) -> (r: Result<bool, WalletError>)
        requires
            old(self).wf(),
        ensures
            final(self).wf(),
            final(self).ident() == old(self).ident(),
            old(self)@.contains_key(key@) ==> r == Ok::<bool, WalletError>(true) && final(self)@
                == old(self)@.remove(key@) && final(self)@.dom().len() == old(self)@.dom().len()
                - 1,
            !old(self)@.contains_key(key@) ==> r == Err::<bool, WalletError>(
                WalletError::DeletionError,
            ) && final(self)@ == old(self)@,
    {
        proof {
            self.lemma_listed();
        }
        let was = self.entries.remove(key.as_str());
        proof {
            assert(self@ =~= old(self)@.remove(key@));
            if old(self)@.contains_key(key@) {
                crate::model::lemma_remove_shrinks(old(self)@, key@);
            }
        }
        if was.is_some() {
            Ok(true)
        } else {
            Err(WalletError::DeletionError)
        }
    }

    /// The number of entries, as `size`, for walking them by place.
    pub fn entry_count(&self) -> (n: usize)
        ensures
            n == self.listed().len(),
    {
        self.entries.len()
    }

    /// The key of the entry at place `i` in ascending key order.
    pub fn entry_key_at(&self, i: usize) -> (k: &String)
        requires
            i < self.listed().len(),
        ensures
            k@ == self.listed()[i as int].0,
    {
        self.entries.key_at(i)
    }

    /// The value of the entry at place `i` in ascending key order.
    pub fn entry_value_at(&self, i: usize) -> (v: &String)
        requires
            i < self.listed().len(),
        ensures
            v@ == self.listed()[i as int].1,
    {
        self.entries.value_at(i)
    }

    /// Puts every entry of `other` into this item, in place of any value that
    /// was under the same key.
    pub fn merge_entries(&mut self, other: &Item) -> (r: Result<(), WalletError>)
        requires
            old(self).wf(),
            other.wf(),
        ensures
            final(self).wf(),
            final(self).ident() == old(self).ident(),
            final(self)@ == old(self)@.union_prefer_right(other@),
            r == Ok::<(), WalletError>(()),
    {
        let n = other.entry_count();
        let mut i: usize = 0;
        proof {
            other.lemma_listed();
            crate::assoc::lemma_empty::<Seq<char>>();
            assert(other.listed().take(0) =~= Seq::<(Seq<char>, Seq<char>)>::empty());
            assert(self@ =~= old(self)@.union_prefer_right(
                crate::assoc::as_map(other.listed().take(0)),
            ));
        }
        while i < n
            invariant
                0 <= i <= n,
                n == other.listed().len(),
                other.wf(),
                crate::assoc::ascending(other.listed()),
                self.wf(),
                self.ident() == old(self).ident(),
                self@ == old(self)@.union_prefer_right(
                    crate::assoc::as_map(other.listed().take(i as int)),
                ),
            decreases n - i,
        {
            let ghost before = self@;
            let _ = self.add_entry(other.entry_key_at(i), other.entry_value_at(i));
            proof {
                crate::assoc::lemma_take_next(other.listed(), i as int);
                assert(self@ =~= old(self)@.union_prefer_right(
                    crate::assoc::as_map(other.listed().take(i as int + 1)),
                ));
            }
            i = i + 1;
        }
        proof {
            assert(other.listed().take(n as int) =~= other.listed());
        }
        Ok(())
    }
}

impl Clone for Item {
    /// An item of the same name with the same entries.
    fn clone(&self) -> (r: Self)
        ensures
            r@ == self@,
            r.ident() == self.ident(),
            self.wf() ==> r.wf(),
    {
        let r = Item { identifier: self.identifier.clone(), entries: self.entries.clone() };
        proof {
            assert(r.entries.entries() =~= self.entries.entries());
        }
        r
    }
}

impl PartialEq for Item {
    /// Two items are equal when they hold the same entries, whatever their names.
    fn eq(&self, other: &Self) -> (r: bool) {
        let n = self.entry_count();
        if other.entry_count() != n {
            return false;
        }
        let mut i: usize = 0;
        while i < n
            invariant
                0 <= i <= n,
                n == self.listed().len(),
                n == other.listed().len(),
                forall|j: int| 0 <= j < i ==> self.listed()[j] == other.listed()[j],
            decreases n - i,
        {
            if *self.entry_key_at(i) != *other.entry_key_at(i) || *self.entry_value_at(i)
                != *other.entry_value_at(i) {
                return false;
            }
            i = i + 1;
        }
        proof {
            assert(self.listed() =~= other.listed());
        }
        true
    }
}

impl vstd::std_specs::cmp::PartialEqSpecImpl for Item {
    open spec fn obeys_eq_spec() -> bool {
        true
    }

    open spec fn eq_spec(&self, other: &Self) -> bool {
        self.listed() == other.listed()
    }
}

} // verus!
