//! The update command: each argument may name a node as it is, or as it is
//! and, after a colon, as it shall be called; the entry argument may also
//! give, after a comma, a new value. The entry is changed first, then the
//! item is renamed, then the category.

use vstd::pervasive::unreached;
use vstd::prelude::*;
use crate::args::Args;
use crate::category::Category;
use crate::error::{ArgsError, CommandError, WalletError};
use crate::model::{Categories, Entries, Items};
use crate::text::{contains_char, cut, cut_at_first, first_of, has_char, lemma_first_of};
use crate::wallet::Wallet;

verus! {

/// The name that an argument looks up: what stands before its first colon, or
/// all of it where it has none.
pub open spec fn current_name(arg: Seq<char>) -> Seq<char> {
    match cut(arg, ':', ':') {
        Some(p) => p.0,
        None => arg,
    }
}

/// What a rename argument makes of a level of the store. An argument without
/// a colon changes nothing. Otherwise the node under the name before the colon
/// goes under the name after it, unless it is not there, the new name is empty
/// or another node has the new name.
pub open spec fn renamed<T>(m: Map<Seq<char>, T>, arg: Seq<char>, empty_name: ArgsError) -> Result<
    Map<Seq<char>, T>,
    CommandError,
> {
    match cut(arg, ':', ':') {
        None => Ok(m),
        Some(p) => if !m.contains_key(p.0) {
            Err(CommandError::Wallet(WalletError::RetrievalError))
        } else if p.1.len() == 0 {
            Err(CommandError::Args(empty_name))
        } else if p.1 != p.0 && m.contains_key(p.1) {
            Err(CommandError::Wallet(WalletError::InsertionError))
        } else {
            Ok(m.remove(p.0).insert(p.1, m[p.0]))
        },
    }
}

/// What an entry argument makes of the entries of an item:
/// `old:new,value` takes `old` out and puts `value` under `new`;
/// `old:new` puts the value of `old` under `new` and takes `old` out;
/// `old,value` puts `value` under `old`; a bare key changes nothing.
pub open spec fn entry_updated(m: Entries, arg: Seq<char>) -> Result<Entries, CommandError> {
    if has_char(arg, ':') && has_char(arg, ',') {
        let first = cut(arg, ':', ',').unwrap();
        let second = cut(first.1, ':', ',').unwrap();
        Ok(m.remove(first.0).insert(second.0, second.1))
    } else if has_char(arg, ':') {
        let p = cut(arg, ':', ':').unwrap();
        if p.1.len() == 0 {
            Err(CommandError::Args(ArgsError::InvalidEntry))
        } else if !m.contains_key(p.0) {
            Err(CommandError::Wallet(WalletError::RetrievalError))
        } else {
            Ok(m.insert(p.1, m[p.0]).remove(p.0))
        }
    } else if has_char(arg, ',') {
        let p = cut(arg, ',', ',').unwrap();
        Ok(m.remove(p.0).insert(p.0, p.1))
    } else {
        Ok(m)
    }
}

/// The entry stage: the entry argument, if there is one, applied to the item
/// under `item_name`.
pub open spec fn entry_stage(items: Items, item_name: Seq<char>, entry: Option<Seq<char>>) -> (
    Result<(), CommandError>,
    Items,
) {
    match entry {
        None => (Ok(()), items),
        Some(arg) => if !items.contains_key(item_name) {
            (Err(CommandError::Wallet(WalletError::RetrievalError)), items)
        } else {
            match entry_updated(items[item_name], arg) {
                Ok(m) => (Ok(()), items.insert(item_name, m)),
                Err(e) => (Err(e), items),
            }
        },
    }
}

/// The entry and item stages on the items of one category. What the entry
/// stage did stays when the item stage fails.
pub open spec fn item_stage(items: Items, item: Option<Seq<char>>, entry: Option<Seq<char>>) -> (
    Result<(), CommandError>,
    Items,
) {
    match item {
        None => (Ok(()), items),
        Some(arg) => {
            let first = entry_stage(items, current_name(arg), entry);
            if first.0 is Err {
                first
            } else {
                match renamed(first.1, arg, ArgsError::InvalidItem) {
                    Ok(m) => (Ok(()), m),
                    Err(e) => (Err(e), first.1),
                }
            }
        },
    }
}

/// What the update command makes of the store, and whether it succeeds. What
/// an earlier stage did stays when a later one fails.
pub open spec fn updated(
    w: Categories,
    category: Option<Seq<char>>,
    item: Option<Seq<char>>,
    entry: Option<Seq<char>>,
) -> (Result<(), CommandError>, Categories) {
    match category {
        None => if item is None && entry is None {
            (Err(CommandError::Args(ArgsError::NoObjectsSpecified)), w)
        } else {
            (Err(CommandError::Args(ArgsError::MissingParentObject)), w)
        },
        Some(arg) => if item is None && entry is Some {
            (Err(CommandError::Args(ArgsError::MissingParentObject)), w)
        } else if !w.contains_key(current_name(arg)) {
            (Err(CommandError::Wallet(WalletError::RetrievalError)), w)
        } else {
            let name = current_name(arg);
            let inner = item_stage(w[name], item, entry);
            let w1 = w.insert(name, inner.1);
            if inner.0 is Err {
                (inner.0, w1)
            } else {
                match renamed(w1, arg, ArgsError::InvalidCategory) {
                    Ok(m) => (Ok(()), m),
                    Err(e) => (Err(e), w1),
                }
            }
        },
    }
}

/// A string with a colon and a comma has a second delimiter after its first.
pub proof fn lemma_two_delimiters(s: Seq<char>)
    requires
        has_char(s, ':'),
        has_char(s, ','),
    ensures
        cut(s, ':', ',') is Some,
        cut(cut(s, ':', ',').unwrap().1, ':', ',') is Some,
{
    let i = first_of(s, ':', ',');
    let a = first_of(s, ':', ':');
    let b = first_of(s, ',', ',');
    lemma_first_of(s, ':', ',', i);
    lemma_first_of(s, ':', ':', a);
    lemma_first_of(s, ',', ',', b);
    assert(i <= a && i <= b);
    let j = if s[i] == ':' { b } else { a };
    assert(i < j < s.len());
    let rest = s.skip(i + 1);
    let f = first_of(rest, ':', ',');
    lemma_first_of(rest, ':', ',', f);
    assert(rest[j - i - 1] == s[j]);
    assert(f <= j - i - 1);
}

/// The name that an argument looks up.
pub fn current_of(arg: &String) -> (r: String)
    ensures
        r@ == current_name(arg@),
{
    match cut_at_first(arg.as_str(), ':', ':') {
        Some(p) => p.0,
        None => arg.clone(),
    }
}

/// Applies the entry argument, if there is one, to the item of the given name.
pub fn process_entry_update(args: &Args, cur_cat: &mut Category, cur_item_ident: &String) -> (r:
    Result<(), CommandError>)
    requires
        old(cur_cat).wf(),
    ensures
        final(cur_cat).wf(),
        final(cur_cat).ident() == old(cur_cat).ident(),
        (r, final(cur_cat)@) == entry_stage(old(cur_cat)@, cur_item_ident@, args@.entry),
{
    let entry_input = match &args.entry {
        None => {
            return Ok(());
        },
        Some(e) => e,
    };
    let cur_item = match cur_cat.get_item(cur_item_ident) {
        None => {
            return Err(CommandError::Wallet(WalletError::RetrievalError));
        },
        Some(item) => item,
    };
    let ghost m = cur_item@;
    let colon = contains_char(entry_input.as_str(), ':');
    let comma = contains_char(entry_input.as_str(), ',');
    if colon && comma {
        proof {
            lemma_two_delimiters(entry_input@);
        }
        let first = match cut_at_first(entry_input.as_str(), ':', ',') {
            Some(p) => p,
            None => unreached(),
        };
        let second = match cut_at_first(first.1.as_str(), ':', ',') {
            Some(p) => p,
            None => unreached(),
        };
        let _ = cur_item.delete_entry(&first.0);
        let _ = cur_item.add_entry(&second.0, &second.1);
        proof {
            assert(cur_item@ =~= m.remove(first.0@).insert(second.0@, second.1@));
        }
        Ok(())
    } else if colon {
        let p = match cut_at_first(entry_input.as_str(), ':', ':') {
            Some(p) => p,
            None => unreached(),
        };
        if p.1.as_str().is_empty() {
            proof {
                assert(final(cur_item)@ == m);
                assert(old(cur_cat)@.insert(cur_item_ident@, m) =~= old(cur_cat)@);
            }
            return Err(CommandError::Args(ArgsError::InvalidEntry));
        }
        let value = match cur_item.get_entry(&p.0) {
            Ok(v) => v.clone(),
            Err(_) => {
                proof {
                    assert(old(cur_cat)@.insert(cur_item_ident@, m) =~= old(cur_cat)@);
                }
                return Err(CommandError::Wallet(WalletError::RetrievalError));
            },
        };
        let _ = cur_item.add_entry(&p.1, &value);
        let _ = cur_item.delete_entry(&p.0);
        proof {
            assert(cur_item@ =~= m.insert(p.1@, m[p.0@]).remove(p.0@));
        }
        Ok(())
    } else if comma {
        let p = match cut_at_first(entry_input.as_str(), ',', ',') {
            Some(p) => p,
            None => unreached(),
        };
        let _ = cur_item.delete_entry(&p.0);
        let _ = cur_item.add_entry(&p.0, &p.1);
        proof {
            assert(cur_item@ =~= m.remove(p.0@).insert(p.0@, p.1@));
        }
        Ok(())
    } else {
        proof {
            assert(old(cur_cat)@.insert(cur_item_ident@, m) =~= old(cur_cat)@);
        }
        Ok(())
    }
}

/// Renames an item as the item argument says.
pub fn process_item_update(cur_cat: &mut Category, item_input: &String) -> (r: Result<
    (),
    CommandError,
>)
    requires
        old(cur_cat).wf(),
    ensures
        final(cur_cat).wf(),
        final(cur_cat).ident() == old(cur_cat).ident(),
        match renamed(old(cur_cat)@, item_input@, ArgsError::InvalidItem) {
            Ok(m) => r == Ok::<(), CommandError>(()) && final(cur_cat)@ == m,
            Err(e) => r == Err::<(), CommandError>(e) && final(cur_cat)@ == old(cur_cat)@,
        },
{
    let p = match cut_at_first(item_input.as_str(), ':', ':') {
        None => {
            return Ok(());
        },
        Some(p) => p,
    };
    if !cur_cat.has_item(&p.0) {
        return Err(CommandError::Wallet(WalletError::RetrievalError));
    }
    if p.1.as_str().is_empty() {
        return Err(CommandError::Args(ArgsError::InvalidItem));
    }
    if p.1 != p.0 && cur_cat.has_item(&p.1) {
        return Err(CommandError::Wallet(WalletError::InsertionError));
    }
    let mut item = match cur_cat.remove_item(&p.0) {
        Some(item) => item,
        None => unreached(),
    };
    item.set_ident(&p.1);
    let _ = cur_cat.insert_item(item);
    Ok(())
}

/// Renames a category as the category argument says.
pub fn process_category_update(w_obj: &mut Wallet, cat_input: &String) -> (r: Result<
    (),
    CommandError,
>)
    requires
        old(w_obj).wf(),
    ensures
        final(w_obj).wf(),
        match renamed(old(w_obj)@, cat_input@, ArgsError::InvalidCategory) {
            Ok(m) => r == Ok::<(), CommandError>(()) && final(w_obj)@ == m,
            Err(e) => r == Err::<(), CommandError>(e) && final(w_obj)@ == old(w_obj)@,
        },
{
    let p = match cut_at_first(cat_input.as_str(), ':', ':') {
        None => {
            return Ok(());
        },
        Some(p) => p,
    };
    if !w_obj.has_category(&p.0) {
        return Err(CommandError::Wallet(WalletError::RetrievalError));
    }
    if p.1.as_str().is_empty() {
        return Err(CommandError::Args(ArgsError::InvalidCategory));
    }
    if p.1 != p.0 && w_obj.has_category(&p.1) {
        return Err(CommandError::Wallet(WalletError::InsertionError));
    }
    let mut category = match w_obj.remove_category(&p.0) {
        Some(category) => category,
        None => unreached(),
    };
    category.set_ident(&p.1);
    let _ = w_obj.add_category(category);
    Ok(())
}

/// Carries out the entry and item stages on one category.
pub fn process_item_stage(args: &Args, cur_cat: &mut Category) -> (r: Result<(), CommandError>)
    requires
        old(cur_cat).wf(),
    ensures
        final(cur_cat).wf(),
        final(cur_cat).ident() == old(cur_cat).ident(),
        (r, final(cur_cat)@) == item_stage(old(cur_cat)@, args@.item, args@.entry),
{
    let item_input = match &args.item {
        None => {
            return Ok(());
        },
        Some(i) => i,
    };
    let cur_item_ident = current_of(item_input);
    match process_entry_update(args, cur_cat, &cur_item_ident) {
        Err(e) => Err(e),
        Ok(_) => process_item_update(cur_cat, item_input),
    }
}

/// Carries out an update command on the wallet.
pub fn execute_update_action(args: &Args, w_obj: &mut Wallet) -> (r: Result<(), CommandError>)
    requires
        old(w_obj).wf(),
    ensures
        final(w_obj).wf(),
        (r, final(w_obj)@) == updated(old(w_obj)@, args@.category, args@.item, args@.entry),
{
    let cat_input = match &args.category {
        None => {
            if args.item.is_none() && args.entry.is_none() {
                return Err(CommandError::Args(ArgsError::NoObjectsSpecified));
            } else {
                return Err(CommandError::Args(ArgsError::MissingParentObject));
            }
        },
        Some(c) => c,
    };
    if args.item.is_none() && args.entry.is_some() {
        return Err(CommandError::Args(ArgsError::MissingParentObject));
    }
    let cur_cat_ident = current_of(cat_input);
    let cur_cat = match w_obj.get_category(&cur_cat_ident) {
        Err(_) => {
            return Err(CommandError::Wallet(WalletError::RetrievalError));
        },
        Ok(c) => c,
    };
    match process_item_stage(args, cur_cat) {
        Err(e) => Err(e),
        Ok(_) => process_category_update(w_obj, cat_input),
    }
}

} // verus!
