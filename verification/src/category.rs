//! A category: a named group of items.

use vstd::prelude::*;
use crate::item::Item;
use crate::model::DocumentItems;
use crate::table::Table;

verus! {

/// A named group that holds items in ascending order of their names.
#[derive(Debug)]
pub struct Category {
    identifier: String,
    items: Table<Item>,
}

impl View for Category {
    type V = Map<Seq<char>, Map<Seq<char>, Seq<char>>>;

    /// The items: each name with the entries of its item.
    closed spec fn view(&self) -> Map<Seq<char>, Map<Seq<char>, Seq<char>>> {
        views(self.items.map())
    }
}

/// The items of `a` and of `b` together: under a name that both have, the
/// entries of both, those of `b` winning under a common key.
pub open spec fn merged_items(
    a: Map<Seq<char>, Map<Seq<char>, Seq<char>>>,
    b: Map<Seq<char>, Map<Seq<char>, Seq<char>>>,
) -> Map<Seq<char>, Map<Seq<char>, Seq<char>>> {
    Map::new(
        |k: Seq<char>| a.contains_key(k) || b.contains_key(k),
        |k: Seq<char>|
            if a.contains_key(k) && b.contains_key(k) {
                a[k].union_prefer_right(b[k])
            } else if b.contains_key(k) {
                b[k]
            } else {
                a[k]
            },
    )
}

/// The items as a document: in ascending order of their names, each with its
/// entries in ascending key order.
pub open spec fn items_document(items: Map<Seq<char>, Map<Seq<char>, Seq<char>>>) -> DocumentItems {
    crate::assoc::listing(items).map_values(
        |p: (Seq<char>, Map<Seq<char>, Seq<char>>)| (p.0, crate::assoc::listing(p.1)),
    )
}

/// Each item of `m` as its entries.
pub open spec fn views(m: Map<Seq<char>, Item>) -> Map<Seq<char>, Map<Seq<char>, Seq<char>>> {
    m.map_values(|item: Item| item@)
}

impl Category {
    /// The name of the category.
    pub closed spec fn ident(&self) -> Seq<char> {
        self.identifier@
    }

    /// The items are kept in ascending order of their names, each is valid and
    /// each is kept under its own name.
    pub closed spec fn wf(&self) -> bool {
        &&& self.items.wf()
        &&& forall|k: Seq<char>| #[trigger]
            self.items.map().contains_key(k) ==> self.items.map()[k].wf()
                && self.items.map()[k].ident() == k
    }

    /// A category of the given name without items.
    pub fn new(identifier: String) -> (category: Category)
        ensures
            category.wf(),
            category.ident() == identifier@,
            category@ == Map::<Seq<char>, Map<Seq<char>, Seq<char>>>::empty(),
    {
        let category = Category { identifier, items: Table::new() };
        proof {
            assert(category@ =~= Map::<Seq<char>, Map<Seq<char>, Seq<char>>>::empty());
        }
        category
    }

    /// The number of items.
    pub fn size(&self) -> (n: usize)
        requires
            self.wf(),
        ensures
            n == self@.dom().len(),
            self@.dom().finite(),
    {
        proof {
            assert(self@.dom() =~= self.items.map().dom());
        }
        self.items.len()
    }

    /// Whether the category has no item.
    pub fn empty(&self) -> (b: bool)
        requires
            self.wf(),
        ensures
            b == (self@.dom().len() == 0),
            b == (self@ == Map::<Seq<char>, Map<Seq<char>, Seq<char>>>::empty()),
    {
        proof {
            assert(self@.dom() =~= self.items.map().dom());
            if self.items.map() == Map::<Seq<char>, Item>::empty() {
                assert(self@ =~= Map::<Seq<char>, Map<Seq<char>, Seq<char>>>::empty());
            }
        }
        self.items.is_empty()
    }

    /// The name of the category.
    pub fn get_ident(&self) -> (r: &String)
        ensures
            r@ == self.ident(),
    {
        &self.identifier
    }

    /// Gives the category another name; the items stay.
    pub fn set_ident(&mut self, identifier: &String)
        ensures
            final(self).ident() == identifier@,
            final(self)@ == old(self)@,
            final(self).wf() == old(self).wf(),
    {
        self.identifier = identifier.clone();
    }

    /// The item of the given name, made empty first if there is none. The
    /// category ends with whatever the caller leaves in that item.
    pub fn new_item(&mut self, item_identifier: &String) -> (r: &mut Item)
        requires
            old(self).wf(),
        ensures
            r.wf(),
            r.ident() == item_identifier@,
            r@ == (if old(self)@.contains_key(item_identifier@) {
                old(self)@[item_identifier@]
            } else {
                Map::<Seq<char>, Seq<char>>::empty()
            }),
            final(self).ident() == old(self).ident(),
            final(self)@ == old(self)@.insert(item_identifier@, final(r)@),
            final(r).wf() && final(r).ident() == item_identifier@ ==> final(self).wf(),
    {
        let (found, p) = self.items.find(item_identifier.as_str());
        if !found {
            self.items.insert_at(p, item_identifier.clone(), Item::new(item_identifier.clone()));
        }
        proof {
            let m = self.items.map();
            assert forall|x: Item| #[trigger]
                views(m.insert(item_identifier@, x)) == views(m).insert(item_identifier@, x@) by {
                assert(views(m.insert(item_identifier@, x)) =~= views(m).insert(
                    item_identifier@,
                    x@,
                ));
            }
            assert(views(m) =~= old(self)@.insert(item_identifier@, m[item_identifier@]@));
        }
        self.items.value_at_mut(p)
    }

    /// Adds a copy of `item` under its own name, unless an item of that name
    /// is there already: then nothing changes. Returns whether it was added.
    pub fn add_item(&mut self, item: &Item) -> (added: bool)
        requires
            old(self).wf(),
            item.wf(),
        ensures
            final(self).wf(),
            final(self).ident() == old(self).ident(),
            added == !old(self)@.contains_key(item.ident()),
            added ==> final(self)@ == old(self)@.insert(item.ident(), item@),
            !added ==> final(self)@ == old(self)@,
    {
        if self.has_item(item.get_ident()) {
            false
        } else {
            self.insert_item(item.clone())
        }
    }

    /// Takes `item` in under its own name, unless an item of that name is
    /// there already: then nothing changes. Returns whether it was taken in.
    pub fn insert_item(&mut self, item: Item) -> (added: bool)
        requires
            old(self).wf(),
            item.wf(),
        ensures
            final(self).wf(),
            final(self).ident() == old(self).ident(),
            added == !old(self)@.contains_key(item.ident()),
            added ==> final(self)@ == old(self)@.insert(item.ident(), item@),
            !added ==> final(self)@ == old(self)@,
    {
        let (found, p) = self.items.find(item.get_ident().as_str());
        if found {
            false
        } else {
            let key = item.get_ident().clone();
            self.items.insert_at(p, key, item);
            proof {
                assert(self@ =~= old(self)@.insert(item.ident(), item@));
            }
            true
        }
    }

    /// Whether there is an item of the given name.
    pub fn has_item(&self, item_identifier: &String) -> (b: bool)
        requires
            self.wf(),
        ensures
            b == self@.contains_key(item_identifier@),
    {
        self.items.contains_key(item_identifier.as_str())
    }

    /// The item of the given name, if there is one. The category ends with
    /// whatever the caller leaves in that item.
    pub fn get_item(&mut self, item_identifier: &String) -> (r: Option<&mut Item>)
        requires
            old(self).wf(),
        ensures
            r is Some == old(self)@.contains_key(item_identifier@),
            r is None ==> *final(self) == *old(self),
            r is Some ==> r.unwrap().wf() && r.unwrap().ident() == item_identifier@
                && r.unwrap()@ == old(self)@[item_identifier@],
            r is Some ==> final(self).ident() == old(self).ident() && final(self)@
                == old(self)@.insert(item_identifier@, final(r.unwrap())@),
            r is Some && final(r.unwrap()).wf() && final(r.unwrap()).ident() == item_identifier@
                ==> final(self).wf(),
    {
        let (found, p) = self.items.find(item_identifier.as_str());
        if found {
            proof {
                let m = self.items.map();
                assert forall|x: Item| #[trigger]
                    views(m.insert(item_identifier@, x)) == views(m).insert(
                        item_identifier@,
                        x@,
                    ) by {
                    assert(views(m.insert(item_identifier@, x)) =~= views(m).insert(
                        item_identifier@,
                        x@,
                    ));
                }
            }
            Some(self.items.value_at_mut(p))
        } else {
            None
        }
    }

    /// Takes the item of the given name out and returns it, if there is one.
    pub fn remove_item(&mut self, item_identifier: &String) -> (r: Option<Item>)
        requires
            old(self).wf(),
        ensures
            final(self).wf(),
            final(self).ident() == old(self).ident(),
            final(self)@ == old(self)@.remove(item_identifier@),
            r is Some == old(self)@.contains_key(item_identifier@),
            r is Some ==> r.unwrap().wf() && r.unwrap().ident() == item_identifier@
                && r.unwrap()@ == old(self)@[item_identifier@],
    {
        let r = self.items.remove(item_identifier.as_str());
        proof {
            assert(self@ =~= old(self)@.remove(item_identifier@));
        }
        r
    }

    /// Takes the item of the given name out, with its entries. Returns whether
    /// there was one; without one nothing changes.
    pub fn delete_item(&mut self, item_identifier: &String) -> (deleted: bool)
        requires
            old(self).wf(),
        ensures
            final(self).wf(),
            final(self).ident() == old(self).ident(),
            deleted == old(self)@.contains_key(item_identifier@),
            final(self)@ == old(self)@.remove(item_identifier@),
            deleted ==> final(self)@.dom().len() == old(self)@.dom().len() - 1,
            !deleted ==> final(self)@ == old(self)@,
    {
        proof {
            self.lemma_listed();
        }
        let r = self.remove_item(item_identifier);
        proof {
            if r is None {
                assert(self@ =~= old(self)@);
            } else {
                crate::model::lemma_remove_shrinks(old(self)@, item_identifier@);
            }
        }
        r.is_some()
    }

    /// Puts every item of `other` into this category: an item whose name is
    /// here already takes the other's entries in with its own, the other's
    /// value winning under a common key; any other item is copied.
    pub fn merge_items(&mut self, other: &Category)
        requires
            old(self).wf(),
            other.wf(),
        ensures
            final(self).wf(),
            final(self).ident() == old(self).ident(),
            final(self)@ == merged_items(old(self)@, other@),
    {
        let n = other.item_count();
        let mut i: usize = 0;
        proof {
            other.lemma_listed();
            crate::assoc::lemma_empty::<Map<Seq<char>, Seq<char>>>();
            assert(other.listed().take(0) =~= Seq::<
                (Seq<char>, Map<Seq<char>, Seq<char>>),
            >::empty());
            assert(self@ =~= merged_items(
                old(self)@,
                crate::assoc::as_map(other.listed().take(0)),
            ));
        }
        while i < n
            invariant
                0 <= i <= n,
                n == other.listed().len(),
                other.wf(),
                crate::assoc::ascending(other.listed()),
                self.wf(),
                self.ident() == old(self).ident(),
                self@ == merged_items(
                    old(self)@,
                    crate::assoc::as_map(other.listed().take(i as int)),
                ),
            decreases n - i,
        {
            let ghost before = self@;
            let key = other.item_key_at(i);
            let theirs = other.item_at(i);
            proof {
                crate::assoc::lemma_take_next(other.listed(), i as int);
            }
            match self.get_item(key) {
                Some(mine) => {
                    let _ = mine.merge_entries(theirs);
                },
                None => {
                    let _ = self.add_item(theirs);
                },
            }
            proof {
                assert(self@ =~= merged_items(
                    old(self)@,
                    crate::assoc::as_map(other.listed().take(i as int + 1)),
                ));
            }
            i = i + 1;
        }
        proof {
            assert(other.listed().take(n as int) =~= other.listed());
        }
    }

    /// The items in the order in which they are kept, each as its entries.
    pub closed spec fn listed(&self) -> Seq<(Seq<char>, Map<Seq<char>, Seq<char>>)> {
        crate::assoc::with_values(self.items.entries(), |item: Item| item@)
    }

    /// What is kept is the listing of the view.
    pub proof fn lemma_listed(&self)
        requires
            self.wf(),
        ensures
            self.listed() == crate::assoc::listing(self@),
            crate::assoc::ascending(self.listed()),
            crate::assoc::as_map(self.listed()) == self@,
            self@.dom().finite(),
            self@.dom().len() == self.listed().len(),
    {
        crate::assoc::lemma_with_values(self.items.entries(), |item: Item| item@);
        crate::assoc::lemma_len(self.listed());
    }

    /// A valid category is finite at every level.
    pub proof fn lemma_finite(&self)
        requires
            self.wf(),
        ensures
            crate::model::finite_items(self@),
    {
        self.lemma_listed();
        assert forall|i: Seq<char>| #[trigger] self@.contains_key(i) implies self@[i].dom().finite() by {
            assert(self.items.map().contains_key(i));
            self.items.map()[i].lemma_listed();
        }
    }

    /// The category as a document: the items in the order in which they are
    /// kept, each with its entries in the order in which they are kept.
    pub closed spec fn document(&self) -> DocumentItems {
        self.items.entries().map_values(|p: (Seq<char>, Item)| (p.0, p.1.listed()))
    }

    /// The document of a valid category is that of its view.
    pub proof fn lemma_document(&self)
        requires
            self.wf(),
        ensures
            self.document() == items_document(self@),
    {
        self.lemma_listed();
        let e = self.items.entries();
        assert forall|i: int| 0 <= i < e.len() implies #[trigger] self.document()[i]
            == items_document(self@)[i] by {
            crate::assoc::lemma_place(e, i);
            assert(self.items.map().contains_key(e[i].0));
            e[i].1.lemma_listed();
            assert(self.listed()[i] == (e[i].0, e[i].1@));
        }
        assert(self.document() =~= items_document(self@));
    }

    /// The number of items, as `size`, for walking them by place.
    pub fn item_count(&self) -> (n: usize)
        ensures
            n == self.listed().len(),
    {
        self.items.len()
    }

    /// The name of the item at place `i` in ascending order of names.
    pub fn item_key_at(&self, i: usize) -> (k: &String)
        requires
            i < self.listed().len(),
        ensures
            k@ == self.listed()[i as int].0,
    {
        self.items.key_at(i)
    }

    /// The item at place `i` in ascending order of names.
    pub fn item_at(&self, i: usize) -> (item: &Item)
        requires
            self.wf(),
            i < self.listed().len(),
        ensures
            item@ == self.listed()[i as int].1,
            item.ident() == self.listed()[i as int].0,
            item.wf(),
    {
        proof {
            let e = self.items.entries();
            crate::assoc::lemma_place(e, i as int);
            assert(self.items.map().contains_key(e[i as int].0));
            assert(self.listed()[i as int].0 == e[i as int].0);
        }
        self.items.value_at(i)
    }
}

impl Clone for Category {
    /// A category of the same name with the same items.
    fn clone(&self) -> (r: Self)
        ensures
            r.ident() == self.ident(),
            self.wf() ==> r.wf() && r@ == self@,
    {
        let r = Category { identifier: self.identifier.clone(), items: self.items.clone() };
        proof {
            let a = self.items.entries();
            let b = r.items.entries();
            assert forall|i: int| 0 <= i < a.len() implies (#[trigger] b[i]).0 == a[i].0 && b[i].1@
                == a[i].1@ && b[i].1.ident() == a[i].1.ident() && (a[i].1.wf() ==> b[i].1.wf()) by {
                assert(cloned(a[i].1, b[i].1));
            }
            if self.wf() {
                assert forall|k: Seq<char>| #[trigger]
                    r.items.map().contains_key(k) implies self.items.map().contains_key(k)
                    && r.items.map()[k].wf() && r.items.map()[k].ident() == k
                    && r.items.map()[k]@ == self.items.map()[k]@ by {
                    let i = crate::assoc::place_of(b, k);
                    crate::assoc::lemma_place(b, i);
                    crate::assoc::lemma_place(a, i);
                    assert(a[i].0 == k);
                }
                assert forall|k: Seq<char>| #[trigger]
                    self.items.map().contains_key(k) implies r.items.map().contains_key(k) by {
                    let i = crate::assoc::place_of(a, k);
                    crate::assoc::lemma_place(a, i);
                    crate::assoc::lemma_place(b, i);
                    assert(b[i].0 == k);
                }
                assert(r@ =~= self@);
            }
        }
        r
    }
}

impl PartialEq for Category {
    /// Two categories are equal when they hold the same items, whatever their names.
    fn eq(&self, other: &Self) -> (r: bool) {
        let n = self.items.len();
        if other.items.len() != n {
            return false;
        }
        let mut i: usize = 0;
        while i < n
            invariant
                0 <= i <= n,
                n == self.items.entries().len(),
                n == other.items.entries().len(),
                forall|j: int| 0 <= j < i ==> self.document()[j] == other.document()[j],
            decreases n - i,
        {
            if *self.items.key_at(i) != *other.items.key_at(i) || *self.items.value_at(i)
                != *other.items.value_at(i) {
                assert(self.document()[i as int] != other.document()[i as int]);
                return false;
            }
            i = i + 1;
        }
        proof {
            assert(self.document() =~= other.document());
        }
        true
    }
}

impl vstd::std_specs::cmp::PartialEqSpecImpl for Category {
    open spec fn obeys_eq_spec() -> bool {
        true
    }

    open spec fn eq_spec(&self, other: &Self) -> bool {
        self.document() == other.document()
    }
}

} // verus!
