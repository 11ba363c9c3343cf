//! The wallet: the root of the store, a group of categories.

use vstd::prelude::*;
use crate::category::Category;
use crate::error::WalletError;
use crate::category::items_document;
use crate::model::{Categories, Document, Items};
use crate::table::Table;

verus! {

/// The root of the store: categories in ascending order of their names.
#[derive(Debug)]
pub struct Wallet {
    categories: Table<Category>,
}

/// The categories as a document: in ascending order of their names, each with
/// its items and their entries in ascending order.
pub open spec fn document_of(categories: Categories) -> Document {
    crate::assoc::listing(categories).map_values(|p: (Seq<char>, Items)| (p.0, items_document(p.1)))
}

/// Each category of `m` as its items.
pub open spec fn views(m: Map<Seq<char>, Category>) -> Categories {
    m.map_values(|category: Category| category@)
}

impl View for Wallet {
    type V = Categories;

    /// The categories: each name with the items of its category.
    closed spec fn view(&self) -> Categories {
        views(self.categories.map())
    }
}

impl Wallet {
    /// The categories are kept in ascending order of their names, each is
    /// valid and each is kept under its own name.
    pub closed spec fn wf(&self) -> bool {
        &&& self.categories.wf()
        &&& forall|k: Seq<char>| #[trigger]
            self.categories.map().contains_key(k) ==> self.categories.map()[k].wf()
                && self.categories.map()[k].ident() == k
    }

    /// A wallet without categories.
    pub fn new() -> (wallet: Wallet)
        ensures
            wallet.wf(),
            wallet@ == Categories::empty(),
    {
        let wallet = Wallet { categories: Table::new() };
        proof {
            assert(wallet@ =~= Categories::empty());
        }
        wallet
    }

    /// The number of categories.
    pub fn size(&self) -> (n: usize)
        requires
            self.wf(),
        ensures
            n == self@.dom().len(),
            self@.dom().finite(),
    {
        proof {
            assert(self@.dom() =~= self.categories.map().dom());
        }
        self.categories.len()
    }

    /// Whether the wallet has no category.
    pub fn empty(&self) -> (b: bool)
        requires
            self.wf(),
        ensures
            b == (self@.dom().len() == 0),
            b == (self@ == Categories::empty()),
    {
        proof {
            assert(self@.dom() =~= self.categories.map().dom());
            if self.categories.map() == Map::<Seq<char>, Category>::empty() {
                assert(self@ =~= Categories::empty());
            }
        }
        self.categories.is_empty()
    }

    /// The category of the given name, made empty first if there is none. The
    /// wallet ends with whatever the caller leaves in that category.
    pub fn new_category(&mut self, category_identifier: &String) -> (r: &mut Category)
        requires
            old(self).wf(),
        ensures
            r.wf(),
            r.ident() == category_identifier@,
            r@ == (if old(self)@.contains_key(category_identifier@) {
                old(self)@[category_identifier@]
            } else {
                Items::empty()
            }),
            final(self)@ == old(self)@.insert(category_identifier@, final(r)@),
            final(r).wf() && final(r).ident() == category_identifier@ ==> final(self).wf(),
    {
        let (found, p) = self.categories.find(category_identifier.as_str());
        if !found {
            self.categories.insert_at(
                p,
                category_identifier.clone(),
                Category::new(category_identifier.clone()),
            );
        }
        proof {
            let m = self.categories.map();
            assert forall|x: Category| #[trigger]
                views(m.insert(category_identifier@, x)) == views(m).insert(
                    category_identifier@,
                    x@,
                ) by {
                assert(views(m.insert(category_identifier@, x)) =~= views(m).insert(
                    category_identifier@,
                    x@,
                ));
            }
            assert(views(m) =~= old(self)@.insert(
                category_identifier@,
                m[category_identifier@]@,
            ));
        }
        self.categories.value_at_mut(p)
    }

    /// Adds `category` under its own name, unless a category of that name is
    /// there already: then nothing changes and the insertion is reported as failed.
    pub fn add_category(&mut self, category: Category) -> (r: Result<bool, WalletError>)
        requires
            old(self).wf(),
            category.wf(),
        ensures
            final(self).wf(),
            !old(self)@.contains_key(category.ident()) ==> r == Ok::<bool, WalletError>(true)
                && final(self)@ == old(self)@.insert(category.ident(), category@),
            old(self)@.contains_key(category.ident()) ==> r == Err::<bool, WalletError>(
                WalletError::InsertionError,
            ) && final(self)@ == old(self)@,
    {
        let (found, p) = self.categories.find(category.get_ident().as_str());
        if found {
            Err(WalletError::InsertionError)
        } else {
            let key = category.get_ident().clone();
            self.categories.insert_at(p, key, category);
            proof {
                assert(self@ =~= old(self)@.insert(category.ident(), category@));
            }
            Ok(true)
        }
    }

    /// Whether there is a category of the given name.
    pub fn has_category(&self, category_identifier: &String) -> (b: bool)
        requires
            self.wf(),
        ensures
            b == self@.contains_key(category_identifier@),
    {
        self.categories.contains_key(category_identifier.as_str())
    }

    /// The category of the given name. The wallet ends with whatever the
    /// caller leaves in that category.
    pub fn get_category(&mut self, category_identifier: &String) -> (r: Result<
        &mut Category,
        WalletError,
    >)
        requires
            old(self).wf(),
        ensures
            r is Ok == old(self)@.contains_key(category_identifier@),
            r is Err ==> r == Err::<&mut Category, WalletError>(WalletError::RetrievalError)
                && *final(self) == *old(self),
            r is Ok ==> r.unwrap().wf() && r.unwrap().ident() == category_identifier@
                && r.unwrap()@ == old(self)@[category_identifier@],
            r is Ok ==> final(self)@ == old(self)@.insert(
                category_identifier@,
                final(r.unwrap())@,
            ),
            r is Ok && final(r.unwrap()).wf() && final(r.unwrap()).ident()
                == category_identifier@ ==> final(self).wf(),
    {
        let (found, p) = self.categories.find(category_identifier.as_str());
        if found {
            proof {
                let m = self.categories.map();
                assert forall|x: Category| #[trigger]
                    views(m.insert(category_identifier@, x)) == views(m).insert(
                        category_identifier@,
                        x@,
                    ) by {
                    assert(views(m.insert(category_identifier@, x)) =~= views(m).insert(
                        category_identifier@,
                        x@,
                    ));
                }
            }
            Ok(self.categories.value_at_mut(p))
        } else {
            Err(WalletError::RetrievalError)
        }
    }

    /// Takes the category of the given name out and returns it, if there is one.
    pub fn remove_category(&mut self, category_identifier: &String) -> (r: Option<Category>)
        requires
            old(self).wf(),
        ensures
            final(self).wf(),
            final(self)@ == old(self)@.remove(category_identifier@),
            r is Some == old(self)@.contains_key(category_identifier@),
            r is Some ==> r.unwrap().wf() && r.unwrap().ident() == category_identifier@
                && r.unwrap()@ == old(self)@[category_identifier@],
    {
        let r = self.categories.remove(category_identifier.as_str());
        proof {
            assert(self@ =~= old(self)@.remove(category_identifier@));
        }
        r
    }

    /// Takes the category of the given name out, with all that it holds.
    /// Without such a category nothing changes and the deletion is reported
    /// as failed.
    pub fn delete_category(&mut self, category_identifier: &String) -> (r: Result<
        bool,
        WalletError,
    >)
        requires
            old(self).wf(),
        ensures
            final(self).wf(),
            old(self)@.contains_key(category_identifier@) ==> r == Ok::<bool, WalletError>(true)
                && final(self)@ == old(self)@.remove(category_identifier@)
                && final(self)@.dom().len() == old(self)@.dom().len() - 1,
            !old(self)@.contains_key(category_identifier@) ==> r == Err::<bool, WalletError>(
                WalletError::DeletionError,
            ) && final(self)@ == old(self)@,
    {
        proof {
            self.lemma_listed();
        }
        let r = self.remove_category(category_identifier);
        if r.is_some() {
            proof {
                crate::model::lemma_remove_shrinks(old(self)@, category_identifier@);
            }
            Ok(true)
        } else {
            proof {
                assert(self@ =~= old(self)@);
            }
            Err(WalletError::DeletionError)
        }
    }

    /// The categories in the order in which they are kept, each as its items.
    pub closed spec fn listed(&self) -> Seq<(Seq<char>, Items)> {
        crate::assoc::with_values(self.categories.entries(), |category: Category| category@)
    }

    /// What is kept is the listing of the view.
    pub proof fn lemma_listed(&self)
        requires
            self.wf(),
        ensures
            self.listed() == crate::assoc::listing(self@),
            crate::assoc::ascending(self.listed()),
            crate::assoc::as_map(self.listed()) == self@,
            self@.dom().finite(),
            self@.dom().len() == self.listed().len(),
    {
        crate::assoc::lemma_with_values(
            self.categories.entries(),
            |category: Category| category@,
        );
        crate::assoc::lemma_len(self.listed());
    }

    /// A valid wallet is finite at every level.
    pub proof fn lemma_finite(&self)
        requires
            self.wf(),
        ensures
            crate::model::finite_store(self@),
    {
        self.lemma_listed();
        assert forall|c: Seq<char>| #[trigger] self@.contains_key(c) implies crate::model::finite_items(
            self@[c],
        ) by {
            assert(self.categories.map().contains_key(c));
            self.categories.map()[c].lemma_finite();
        }
    }

    /// The wallet as a document: the categories in the order in which they
    /// are kept, each with its items and their entries in that order.
    pub closed spec fn document(&self) -> Document {
        self.categories.entries().map_values(|p: (Seq<char>, Category)| (p.0, p.1.document()))
    }

    /// The document of a valid wallet is that of its view.
    pub proof fn lemma_document(&self)
        requires
            self.wf(),
        ensures
            self.document() == document_of(self@),
    {
        self.lemma_listed();
        let e = self.categories.entries();
        assert forall|i: int| 0 <= i < e.len() implies #[trigger] self.document()[i]
            == document_of(self@)[i] by {
            crate::assoc::lemma_place(e, i);
            assert(self.categories.map().contains_key(e[i].0));
            e[i].1.lemma_document();
            assert(self.listed()[i] == (e[i].0, e[i].1@));
        }
        assert(self.document() =~= document_of(self@));
    }

    /// The number of categories, as `size`, for walking them by place.
    pub fn category_count(&self) -> (n: usize)
        ensures
            n == self.listed().len(),
    {
        self.categories.len()
    }

    /// The name of the category at place `i` in ascending order of names.
    pub fn category_key_at(&self, i: usize) -> (k: &String)
        requires
            i < self.listed().len(),
        ensures
            k@ == self.listed()[i as int].0,
    {
        self.categories.key_at(i)
    }

    /// The category at place `i` in ascending order of names.
    pub fn category_at(&self, i: usize) -> (category: &Category)
        requires
            self.wf(),
            i < self.listed().len(),
        ensures
            category@ == self.listed()[i as int].1,
            category.ident() == self.listed()[i as int].0,
            category.wf(),
    {
        proof {
            let e = self.categories.entries();
            crate::assoc::lemma_place(e, i as int);
            assert(self.categories.map().contains_key(e[i as int].0));
            assert(self.listed()[i as int].0 == e[i as int].0);
        }
        self.categories.value_at(i)
    }
}

impl Clone for Wallet {
    /// A wallet with the same categories.
    fn clone(&self) -> (r: Self)
        ensures
            self.wf() ==> r.wf() && r@ == self@,
    {
        let r = Wallet { categories: self.categories.clone() };
        proof {
            let a = self.categories.entries();
            let b = r.categories.entries();
            if self.wf() {
                assert forall|i: int| 0 <= i < a.len() implies (#[trigger] b[i]).0 == a[i].0
                    && b[i].1@ == a[i].1@ && b[i].1.ident() == a[i].1.ident() && b[i].1.wf() by {
                    crate::assoc::lemma_place(a, i);
                    assert(self.categories.map().contains_key(a[i].0));
                    assert(cloned(a[i].1, b[i].1));
                }
                assert forall|k: Seq<char>| #[trigger]
                    r.categories.map().contains_key(k) implies self.categories.map().contains_key(
                    k,
                ) && r.categories.map()[k].wf() && r.categories.map()[k].ident() == k
                    && r.categories.map()[k]@ == self.categories.map()[k]@ by {
                    let i = crate::assoc::place_of(b, k);
                    crate::assoc::lemma_place(b, i);
                    crate::assoc::lemma_place(a, i);
                    assert(a[i].0 == k);
                }
                assert forall|k: Seq<char>| #[trigger]
                    self.categories.map().contains_key(k) implies r.categories.map().contains_key(
                    k,
                ) by {
                    let i = crate::assoc::place_of(a, k);
                    crate::assoc::lemma_place(a, i);
                    crate::assoc::lemma_place(b, i);
                    assert(b[i].0 == k);
                }
                assert(r@ =~= self@);
            }
        }
        r
    }
}

impl PartialEq for Wallet {
    /// Two wallets are equal when they hold the same categories.
    fn eq(&self, other: &Self) -> (r: bool) {
        let n = self.categories.len();
        if other.categories.len() != n {
            return false;
        }
        let mut i: usize = 0;
        while i < n
            invariant
                0 <= i <= n,
                n == self.categories.entries().len(),
                n == other.categories.entries().len(),
                forall|j: int| 0 <= j < i ==> self.document()[j] == other.document()[j],
            decreases n - i,
        {
            if *self.categories.key_at(i) != *other.categories.key_at(i)
                || *self.categories.value_at(i) != *other.categories.value_at(i) {
                assert(self.document()[i as int] != other.document()[i as int]);
                return false;
            }
            i = i + 1;
        }
        proof {
            assert(self.document() =~= other.document());
        }
        true
    }
}

impl vstd::std_specs::cmp::PartialEqSpecImpl for Wallet {
    open spec fn obeys_eq_spec() -> bool {
        true
    }

    open spec fn eq_spec(&self, other: &Self) -> bool {
        self.document() == other.document()
    }
}

} // verus!
