//! Reading a store from JSON text: `serde_json` parses the text into a
//! document, `unescape` resolves the backslash sequences of each value, and
//! the document is put into the wallet entry by entry.

use std::collections::BTreeMap;
use vstd::prelude::*;
use crate::category::Category;
use crate::error::WalletError;
use crate::item::Item;
use crate::model::{Categories, Document, DocumentEntries, DocumentItems, Entries, Items};
use crate::wallet::Wallet;

verus! {

/// The document that `serde_json` reads from `text` as an object of objects of
/// objects of strings, if it reads one.
pub uninterp spec fn json_document(text: Seq<char>) -> Option<Document>;

/// The string that `unescape` makes of `s` by resolving its backslash
/// sequences, if it makes one.
pub uninterp spec fn unescaped(s: Seq<char>) -> Option<Seq<char>>;

/// Parses JSON text into a document.
///
/// Calls `serde_json::from_str` for a map of maps of maps of strings and hands
/// the maps out as vectors, in the order in which the maps are walked. Not
/// proved: that what comes back, a document or a failure, depends on the
/// characters of `text` alone, which is all that the name `json_document`
/// stands for.
#[verifier::external_body]
fn parse(text: &str) -> (r: Option<Vec<(String, Vec<(String, Vec<(String, String)>)>)>>)
    ensures
        match r {
            Some(d) => json_document(text@) == Some(d.deep_view()),
            None => json_document(text@) is None,
        },
{
    let parsed: Option<BTreeMap<String, BTreeMap<String, BTreeMap<String, String>>>> =
        serde_json::from_str(text).ok();
    parsed.map(
        |cs|
            cs.into_iter().map(
                |(c, items)| (c, items.into_iter().map(|(i, es)| (i, es.into_iter().collect())).collect()),
            ).collect(),
    )
}

/// Resolves the backslash sequences of `s`.
///
/// Calls `unescape::unescape`. Not proved: that what comes back, a string or a
/// failure, depends on the characters of `s` alone, which is all that the name
/// `unescaped` stands for.
#[verifier::external_body]
fn unescape_text(s: &str) -> (r: Option<String>)
    ensures
        match r {
            Some(t) => unescaped(s@) == Some(t@),
            None => unescaped(s@) is None,
        },
{
    unescape::unescape(s)
}

/// The entries with each value unescaped; nothing if some value cannot be.
pub open spec fn unescaped_entries(es: DocumentEntries) -> Option<DocumentEntries> {
    if forall|i: int| 0 <= i < es.len() ==> unescaped(#[trigger] es[i].1) is Some {
        Some(es.map_values(|e: (Seq<char>, Seq<char>)| (e.0, unescaped(e.1).unwrap())))
    } else {
        None
    }
}

/// The items with each value unescaped; nothing if some value cannot be.
pub open spec fn unescaped_items(its: DocumentItems) -> Option<DocumentItems> {
    if forall|i: int| 0 <= i < its.len() ==> unescaped_entries(#[trigger] its[i].1) is Some {
        Some(
            its.map_values(
                |it: (Seq<char>, DocumentEntries)| (it.0, unescaped_entries(it.1).unwrap()),
            ),
        )
    } else {
        None
    }
}

/// The document with each value unescaped; nothing if some value cannot be.
pub open spec fn unescaped_document(doc: Document) -> Option<Document> {
    if forall|i: int| 0 <= i < doc.len() ==> unescaped_items(#[trigger] doc[i].1) is Some {
        Some(doc.map_values(|c: (Seq<char>, DocumentItems)| (c.0, unescaped_items(c.1).unwrap())))
    } else {
        None
    }
}

/// Unescapes the value of each entry.
pub fn unescape_entries(es: &Vec<(String, String)>) -> (r: Option<Vec<(String, String)>>)
    ensures
        match r {
            Some(v) => unescaped_entries(es.deep_view()) == Some(v.deep_view()),
            None => unescaped_entries(es.deep_view()) is None,
        },
{
    let ghost d = es.deep_view();
    let mut out: Vec<(String, String)> = Vec::new();
    let mut i: usize = 0;
    while i < es.len()
        invariant
            0 <= i <= es@.len(),
            d == es.deep_view(),
            out@.len() == i,
            forall|j: int|
                0 <= j < i ==> unescaped(#[trigger] d[j].1) == Some(out@[j].1@) && out@[j].0@
                    == d[j].0,
        decreases es@.len() - i,
    {
        match unescape_text(es[i].1.as_str()) {
            Some(v) => {
                out.push((es[i].0.clone(), v));
            },
            None => {
                proof {
                    assert(unescaped(d[i as int].1) is None);
                }
                return None;
            },
        }
        i = i + 1;
    }
    proof {
        assert(unescaped_entries(d) is Some);
        assert(out.deep_view() =~= unescaped_entries(d).unwrap());
    }
    Some(out)
}

/// Unescapes the value of each entry of each item.
pub fn unescape_items(its: &Vec<(String, Vec<(String, String)>)>) -> (r: Option<
    Vec<(String, Vec<(String, String)>)>,
>)
    ensures
        match r {
            Some(v) => unescaped_items(its.deep_view()) == Some(v.deep_view()),
            None => unescaped_items(its.deep_view()) is None,
        },
{
    let ghost d = its.deep_view();
    let mut out: Vec<(String, Vec<(String, String)>)> = Vec::new();
    let mut i: usize = 0;
    while i < its.len()
        invariant
            0 <= i <= its@.len(),
            d == its.deep_view(),
            out@.len() == i,
            forall|j: int|
                0 <= j < i ==> unescaped_entries(#[trigger] d[j].1) == Some(out@[j].1.deep_view())
                    && out@[j].0@ == d[j].0,
        decreases its@.len() - i,
    {
        match unescape_entries(&its[i].1) {
            Some(v) => {
                out.push((its[i].0.clone(), v));
            },
            None => {
                proof {
                    assert(unescaped_entries(d[i as int].1) is None);
                }
                return None;
            },
        }
        i = i + 1;
    }
    proof {
        assert(unescaped_items(d) is Some);
        assert(out.deep_view() =~= unescaped_items(d).unwrap());
    }
    Some(out)
}

/// Unescapes every value of a document.
pub fn unescape_document(doc: &Vec<(String, Vec<(String, Vec<(String, String)>)>)>) -> (r: Option<
    Vec<(String, Vec<(String, Vec<(String, String)>)>)>,
>)
    ensures
        match r {
            Some(v) => unescaped_document(doc.deep_view()) == Some(v.deep_view()),
            None => unescaped_document(doc.deep_view()) is None,
        },
{
    let ghost d = doc.deep_view();
    let mut out: Vec<(String, Vec<(String, Vec<(String, String)>)>)> = Vec::new();
    let mut i: usize = 0;
    while i < doc.len()
        invariant
            0 <= i <= doc@.len(),
            d == doc.deep_view(),
            out@.len() == i,
            forall|j: int|
                0 <= j < i ==> unescaped_items(#[trigger] d[j].1) == Some(out@[j].1.deep_view())
                    && out@[j].0@ == d[j].0,
        decreases doc@.len() - i,
    {
        match unescape_items(&doc[i].1) {
            Some(v) => {
                out.push((doc[i].0.clone(), v));
            },
            None => {
                proof {
                    assert(unescaped_items(d[i as int].1) is None);
                }
                return None;
            },
        }
        i = i + 1;
    }
    proof {
        assert(unescaped_document(d) is Some);
        assert(out.deep_view() =~= unescaped_document(d).unwrap());
    }
    Some(out)
}

/// The entries `m` after each pair of `es` was put in, one after the other, a
/// later value replacing an earlier one under the same key.
pub open spec fn with_entries(m: Entries, es: DocumentEntries) -> Entries
    decreases es.len(),
{
    if es.len() == 0 {
        m
    } else {
        with_entries(m, es.drop_last()).insert(es.last().0, es.last().1)
    }
}

/// The items `m` after each item of `its` was put in, one after the other: an
/// item that is there takes the new entries in, one that is not starts empty.
pub open spec fn with_items(m: Items, its: DocumentItems) -> Items
    decreases its.len(),
{
    if its.len() == 0 {
        m
    } else {
        let before = with_items(m, its.drop_last());
        let name = its.last().0;
        let held = if before.contains_key(name) {
            before[name]
        } else {
            Entries::empty()
        };
        before.insert(name, with_entries(held, its.last().1))
    }
}

/// The categories `m` after each category of `doc` was put in, one after the
/// other: a category that is there takes the new items in, one that is not
/// starts empty.
pub open spec fn with_document(m: Categories, doc: Document) -> Categories
    decreases doc.len(),
{
    if doc.len() == 0 {
        m
    } else {
        let before = with_document(m, doc.drop_last());
        let name = doc.last().0;
        let held = if before.contains_key(name) {
            before[name]
        } else {
            Items::empty()
        };
        before.insert(name, with_items(held, doc.last().1))
    }
}

/// What reading `text` into the categories `m` gives: the document of the
/// text, unescaped, put into `m`; nothing if the text is no document or a
/// value cannot be unescaped.
pub open spec fn loaded(m: Categories, text: Seq<char>) -> Option<Categories> {
    match json_document(text) {
        Some(raw) => match unescaped_document(raw) {
            Some(doc) => Some(with_document(m, doc)),
            None => None,
        },
        None => None,
    }
}

impl Item {
    /// Puts each of the given entries into the item, in their order.
    pub fn put_entries(&mut self, es: &Vec<(String, String)>)
        requires
            old(self).wf(),
        ensures
            final(self).wf(),
            final(self).ident() == old(self).ident(),
            final(self)@ == with_entries(old(self)@, es.deep_view()),
    {
        let ghost d = es.deep_view();
        let mut i: usize = 0;
        proof {
            assert(d.take(0) =~= DocumentEntries::empty());
        }
        while i < es.len()
            invariant
                0 <= i <= es@.len(),
                d == es.deep_view(),
                self.wf(),
                self.ident() == old(self).ident(),
                self@ == with_entries(old(self)@, d.take(i as int)),
            decreases es@.len() - i,
        {
            let _ = self.add_entry(&es[i].0, &es[i].1);
            proof {
                let t = d.take(i as int + 1);
                assert(t.drop_last() =~= d.take(i as int));
                assert(t.last() == d[i as int]);
            }
            i = i + 1;
        }
        proof {
            assert(d.take(i as int) =~= d);
        }
    }
}

impl Category {
    /// Puts each of the given items into the category, in their order.
    pub fn put_items(&mut self, its: &Vec<(String, Vec<(String, String)>)>)
        requires
            old(self).wf(),
        ensures
            final(self).wf(),
            final(self).ident() == old(self).ident(),
            final(self)@ == with_items(old(self)@, its.deep_view()),
    {
        let ghost d = its.deep_view();
        let mut i: usize = 0;
        proof {
            assert(d.take(0) =~= DocumentItems::empty());
        }
        while i < its.len()
            invariant
                0 <= i <= its@.len(),
                d == its.deep_view(),
                self.wf(),
                self.ident() == old(self).ident(),
                self@ == with_items(old(self)@, d.take(i as int)),
            decreases its@.len() - i,
        {
            let item = self.new_item(&its[i].0);
            item.put_entries(&its[i].1);
            proof {
                let t = d.take(i as int + 1);
                assert(t.drop_last() =~= d.take(i as int));
                assert(t.last() == d[i as int]);
            }
            i = i + 1;
        }
        proof {
            assert(d.take(i as int) =~= d);
        }
    }
}

impl Wallet {
    /// Puts each category of the given document into the wallet, in their order.
    pub fn put_document(&mut self, doc: &Vec<(String, Vec<(String, Vec<(String, String)>)>)>)
        requires
            old(self).wf(),
        ensures
            final(self).wf(),
            final(self)@ == with_document(old(self)@, doc.deep_view()),
    {
        let ghost d = doc.deep_view();
        let mut i: usize = 0;
        proof {
            assert(d.take(0) =~= Document::empty());
        }
        while i < doc.len()
            invariant
                0 <= i <= doc@.len(),
                d == doc.deep_view(),
                self.wf(),
                self@ == with_document(old(self)@, d.take(i as int)),
            decreases doc@.len() - i,
        {
            let category = self.new_category(&doc[i].0);
            category.put_items(&doc[i].1);
            proof {
                let t = d.take(i as int + 1);
                assert(t.drop_last() =~= d.take(i as int));
                assert(t.last() == d[i as int]);
            }
            i = i + 1;
        }
        proof {
            assert(d.take(i as int) =~= d);
        }
    }

    /// Reads the JSON text of a store into the wallet, beside what it holds.
    /// A text that is no object of objects of objects of strings, or a value
    /// that cannot be unescaped, fails the load and leaves the wallet as it was.
    pub fn load(&mut self, contents: &str) -> (r: Result<bool, WalletError>)
        requires
            old(self).wf(),
        ensures
            final(self).wf(),
            match loaded(old(self)@, contents@) {
                Some(m) => r == Ok::<bool, WalletError>(true) && final(self)@ == m,
                None => r == Err::<bool, WalletError>(WalletError::LoadError) && final(self)@
                    == old(self)@,
            },
    {
        match parse(contents) {
            Some(raw) => match unescape_document(&raw) {
                Some(doc) => {
                    self.put_document(&doc);
                    Ok(true)
                },
                None => Err(WalletError::LoadError),
            },
            None => Err(WalletError::LoadError),
        }
    }
}

} // verus!
