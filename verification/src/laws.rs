//! Laws of the store, each proved from the contracts of the functions that it
//! speaks of.

use vstd::prelude::*;
use crate::assoc::{
    as_map, ascending, lemma_empty, lemma_finite_listable, lemma_place, lemma_take_next, listing,
};
use crate::category::{items_document, Category};
use crate::command::deleted;
use crate::document::{
    json_document, loaded, unescaped_document, with_document, with_entries, with_items,
};
use crate::error::{CommandError, WalletError};
use crate::item::Item;
use crate::json::wallet_text;
use crate::model::{
    finite_items, finite_store, lemma_remove_shrinks, Categories, DocumentEntries, Entries, Items,
};
use crate::text::{cut, has_char, lemma_first_of};
use crate::update::updated;
use crate::wallet::{document_of, Wallet};

verus! {

/// Putting the pairs of an ascending sequence into an empty item gives the
/// map that the sequence stands for.
pub proof fn lemma_entries_rebuilt(s: DocumentEntries)
    requires
        ascending(s),
    ensures
        with_entries(Entries::empty(), s) == as_map(s),
    decreases s.len(),
{
    if s.len() == 0 {
        lemma_empty::<Seq<char>>();
        assert(s =~= DocumentEntries::empty());
    } else {
        let n = s.len() - 1;
        lemma_take_next(s, n);
        assert(s.take(n) =~= s.drop_last());
        assert(s.take(n + 1) =~= s);
        lemma_entries_rebuilt(s.drop_last());
    }
}

/// Putting the first `n` items of the document of `items` into an empty
/// category gives the first `n` items.
proof fn lemma_items_prefix_rebuilt(items: Items, n: int)
    requires
        finite_items(items),
        0 <= n <= listing(items).len(),
    ensures
        with_items(Items::empty(), items_document(items).take(n)) == as_map(
            listing(items).take(n),
        ),
    decreases n,
{
    let s = listing(items);
    let d = items_document(items);
    lemma_finite_listable(items);
    if n == 0 {
        lemma_empty::<Entries>();
        assert(s.take(0) =~= Seq::<(Seq<char>, Entries)>::empty());
        assert(d.take(0) =~= Seq::<(Seq<char>, DocumentEntries)>::empty());
    } else {
        lemma_items_prefix_rebuilt(items, n - 1);
        lemma_take_next(s, n - 1);
        lemma_place(s, n - 1);
        let t = d.take(n);
        assert(t.drop_last() =~= d.take(n - 1));
        assert(t.last() == d[n - 1]);
        assert(d[n - 1] == (s[n - 1].0, listing(s[n - 1].1)));
        assert(items.contains_key(s[n - 1].0));
        lemma_finite_listable(s[n - 1].1);
        lemma_entries_rebuilt(listing(s[n - 1].1));
    }
}

/// Putting the document of a finite category into an empty category gives the
/// category back.
pub proof fn lemma_items_rebuilt(items: Items)
    requires
        finite_items(items),
    ensures
        with_items(Items::empty(), items_document(items)) == items,
{
    lemma_finite_listable(items);
    let n = listing(items).len() as int;
    lemma_items_prefix_rebuilt(items, n);
    assert(listing(items).take(n) =~= listing(items));
    assert(items_document(items).take(n) =~= items_document(items));
}

/// Putting the first `n` categories of the document of `w` into an empty
/// wallet gives the first `n` categories.
proof fn lemma_document_prefix_rebuilt(w: Categories, n: int)
    requires
        finite_store(w),
        0 <= n <= listing(w).len(),
    ensures
        with_document(Categories::empty(), document_of(w).take(n)) == as_map(listing(w).take(n)),
    decreases n,
{
    let s = listing(w);
    let d = document_of(w);
    lemma_finite_listable(w);
    if n == 0 {
        lemma_empty::<Items>();
        assert(s.take(0) =~= Seq::<(Seq<char>, Items)>::empty());
        assert(d.take(0) =~= crate::model::Document::empty());
    } else {
        lemma_document_prefix_rebuilt(w, n - 1);
        lemma_take_next(s, n - 1);
        lemma_place(s, n - 1);
        let t = d.take(n);
        assert(t.drop_last() =~= d.take(n - 1));
        assert(t.last() == d[n - 1]);
        assert(d[n - 1] == (s[n - 1].0, items_document(s[n - 1].1)));
        assert(w.contains_key(s[n - 1].0));
        lemma_items_rebuilt(s[n - 1].1);
    }
}

/// Putting the document of a finite store into an empty wallet gives the
/// store back.
pub proof fn lemma_document_rebuilt(w: Categories)
    requires
        finite_store(w),
    ensures
        with_document(Categories::empty(), document_of(w)) == w,
{
    lemma_finite_listable(w);
    let n = listing(w).len() as int;
    lemma_document_prefix_rebuilt(w, n);
    assert(listing(w).take(n) =~= listing(w));
    assert(document_of(w).take(n) =~= document_of(w));
}

/// Saving, loading and saving again gives the text of the first save. This
/// holds of every finite store whose saved text `serde_json` reads back as the
/// document that was written, and in which unescaping leaves every value as
/// it is: loading such a text into an empty wallet gives the store back.
pub proof fn lemma_save_load_save(w: Categories, text: Seq<char>)
    requires
        finite_store(w),
    ensures
        wallet_text(w) == Some(text) && json_document(text) == Some(document_of(w))
            && unescaped_document(document_of(w)) == Some(document_of(w)) ==> loaded(
            Categories::empty(),
            text,
        ) == Some(w) && wallet_text(loaded(Categories::empty(), text).unwrap()) == Some(text),
{
    lemma_document_rebuilt(w);
}

/// The round trip of every valid wallet: where `serde_json` reads the saved
/// text back as the document that was written, and unescaping leaves every
/// value as it is, loading the saved text into an empty wallet gives the
/// wallet back, and saving that gives the same text.
pub proof fn lemma_wallet_save_load_save(w: &Wallet, text: Seq<char>)
    requires
        w.wf(),
    ensures
        wallet_text(w@) == Some(text) && json_document(text) == Some(w.document())
            && unescaped_document(w.document()) == Some(w.document()) ==> loaded(
            Categories::empty(),
            text,
        ) == Some(w@) && wallet_text(loaded(Categories::empty(), text).unwrap()) == Some(text),
{
    w.lemma_finite();
    w.lemma_document();
    lemma_save_load_save(w@, text);
}

/// Two valid items are equal, as `==` has it, exactly when they hold the same
/// entries.
pub proof fn lemma_items_equal(a: &Item, b: &Item)
    requires
        a.wf(),
        b.wf(),
    ensures
        (a.listed() == b.listed()) == (a@ == b@),
{
    a.lemma_listed();
    b.lemma_listed();
}

/// Two valid categories are equal, as `==` has it, exactly when they hold the
/// same items with the same entries.
pub proof fn lemma_categories_equal(a: &Category, b: &Category)
    requires
        a.wf(),
        b.wf(),
    ensures
        (a.document() == b.document()) == (a@ == b@),
{
    a.lemma_document();
    b.lemma_document();
    a.lemma_finite();
    b.lemma_finite();
    lemma_items_rebuilt(a@);
    lemma_items_rebuilt(b@);
}

/// Two valid wallets are equal, as `==` has it, exactly when they hold the
/// same categories with the same items and entries.
pub proof fn lemma_wallets_equal(a: &Wallet, b: &Wallet)
    requires
        a.wf(),
        b.wf(),
    ensures
        (a.document() == b.document()) == (a@ == b@),
{
    a.lemma_document();
    b.lemma_document();
    a.lemma_finite();
    b.lemma_finite();
    lemma_document_rebuilt(a@);
    lemma_document_rebuilt(b@);
}

/// Deleting a category takes it out with all its items and their entries: no
/// item or entry of it can be reached any more, the store has one category
/// less, and every other category is as it was.
pub proof fn lemma_delete_category_cascades(w: Categories, c: Seq<char>)
    requires
        w.dom().finite(),
        w.contains_key(c),
    ensures
        deleted(w, Some(c), None, None) == (Ok::<(), CommandError>(()), w.remove(c)),
        !deleted(w, Some(c), None, None).1.contains_key(c),
        deleted(w, Some(c), None, None).1.dom().len() == w.dom().len() - 1,
        forall|k: Seq<char>|
            k != c && w.contains_key(k) ==> #[trigger] deleted(w, Some(c), None, None).1.contains_key(k)
                && deleted(w, Some(c), None, None).1[k] == w[k],
{
    lemma_remove_shrinks(w, c);
}

/// Deleting an item takes it out with all its entries: its category has one
/// item less, and nothing else changes.
pub proof fn lemma_delete_item_cascades(w: Categories, c: Seq<char>, i: Seq<char>)
    requires
        w.contains_key(c),
        w[c].dom().finite(),
        w[c].contains_key(i),
    ensures
        deleted(w, Some(c), Some(i), None) == (
            Ok::<(), CommandError>(()),
            w.insert(c, w[c].remove(i)),
        ),
        !deleted(w, Some(c), Some(i), None).1[c].contains_key(i),
        deleted(w, Some(c), Some(i), None).1[c].dom().len() == w[c].dom().len() - 1,
        deleted(w, Some(c), Some(i), None).1.dom() == w.dom(),
{
    lemma_remove_shrinks(w[c], i);
    assert(w.insert(c, w[c].remove(i)).dom() =~= w.dom());
}

/// Deleting an entry leaves its item with one entry less, and nothing else changes.
pub proof fn lemma_delete_entry_shrinks(w: Categories, c: Seq<char>, i: Seq<char>, e: Seq<char>)
    requires
        w.contains_key(c),
        w[c].contains_key(i),
        w[c][i].dom().finite(),
        w[c][i].contains_key(e),
    ensures
        deleted(w, Some(c), Some(i), Some(e)) == (
            Ok::<(), CommandError>(()),
            w.insert(c, w[c].insert(i, w[c][i].remove(e))),
        ),
        deleted(w, Some(c), Some(i), Some(e)).1[c][i].dom().len() == w[c][i].dom().len() - 1,
        deleted(w, Some(c), Some(i), Some(e)).1[c].dom() == w[c].dom(),
        deleted(w, Some(c), Some(i), Some(e)).1.dom() == w.dom(),
{
    lemma_remove_shrinks(w[c][i], e);
    assert(w[c].insert(i, w[c][i].remove(e)).dom() =~= w[c].dom());
    assert(w.insert(c, w[c].insert(i, w[c][i].remove(e))).dom() =~= w.dom());
}

/// A delete command that names a node which is not there fails as not found
/// and leaves the store, and so its size at every level, as it was; so does
/// every other delete command that fails.
pub proof fn lemma_delete_miss_changes_nothing(
    w: Categories,
    category: Option<Seq<char>>,
    item: Option<Seq<char>>,
    entry: Option<Seq<char>>,
)
    ensures
        deleted(w, category, item, entry).0 is Err ==> deleted(w, category, item, entry).1 == w,
        category is Some && item is None && entry is None && !w.contains_key(category.unwrap())
            ==> deleted(w, category, item, entry).0 == Err::<(), CommandError>(
            CommandError::Wallet(WalletError::DeletionError),
        ),
        category is Some && item is Some && entry is None && w.contains_key(category.unwrap())
            && !w[category.unwrap()].contains_key(item.unwrap()) ==> deleted(
            w,
            category,
            item,
            entry,
        ).0 == Err::<(), CommandError>(CommandError::Wallet(WalletError::DeletionError)),
        category is Some && item is Some && entry is Some && w.contains_key(category.unwrap())
            && w[category.unwrap()].contains_key(item.unwrap())
            && !w[category.unwrap()][item.unwrap()].contains_key(entry.unwrap()) ==> deleted(
            w,
            category,
            item,
            entry,
        ).0 == Err::<(), CommandError>(CommandError::Wallet(WalletError::DeletionError)),
        category is Some && item is Some && !w.contains_key(category.unwrap()) ==> deleted(
            w,
            category,
            item,
            entry,
        ).0 == Err::<(), CommandError>(CommandError::Wallet(WalletError::RetrievalError)),
{
}

/// A name without a colon, a colon and another name are cut into the two names.
pub proof fn lemma_cut_rename(old_name: Seq<char>, new_name: Seq<char>)
    requires
        !has_char(old_name, ':'),
    ensures
        cut(old_name + seq![':'] + new_name, ':', ':') == Some((old_name, new_name)),
{
    let arg = old_name + seq![':'] + new_name;
    let n = old_name.len() as int;
    lemma_first_of(old_name, ':', ':', n);
    assert forall|j: int| 0 <= j < n implies arg[j] != ':' by {
        assert(arg[j] == old_name[j]);
    }
    assert(arg[n] == ':');
    lemma_first_of(arg, ':', ':', n);
    assert(arg.take(n) =~= old_name);
    assert(arg.skip(n + 1) =~= new_name);
}

/// Renaming a category keeps what it holds: after the update command with the
/// category argument `old:new` the category `new` is there with the items that
/// `old` had, however many, `old` is gone and every other category is as it
/// was. This holds where `old` is there and has no colon in its name, and
/// `new` is not empty, not `old` and not there already.
pub proof fn lemma_rename_category_keeps_items(
    w: Categories,
    old_name: Seq<char>,
    new_name: Seq<char>,
)
    requires
        w.contains_key(old_name),
        !has_char(old_name, ':'),
        new_name.len() > 0,
        new_name != old_name,
        !w.contains_key(new_name),
    ensures
        ({
            let after = updated(w, Some(old_name + seq![':'] + new_name), None, None);
            &&& after.0 == Ok::<(), CommandError>(())
            &&& after.1 == w.remove(old_name).insert(new_name, w[old_name])
            &&& after.1.contains_key(new_name)
            &&& after.1[new_name] == w[old_name]
            &&& !after.1.contains_key(old_name)
            &&& forall|k: Seq<char>|
                k != old_name && k != new_name && w.contains_key(k) ==> #[trigger] after.1.contains_key(
                    k,
                ) && after.1[k] == w[k]
        }),
{
    lemma_cut_rename(old_name, new_name);
    assert(w.insert(old_name, w[old_name]) =~= w);
}

} // verus!
