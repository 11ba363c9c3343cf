//! Carrying out a command: the store is read from the text of its file, the
//! action is applied to it, and what is to be written back or shown is handed
//! out.

use vstd::prelude::*;
use crate::args::{action_of, check_parents, parents_present, parse_action_argument, Action, Args};
use crate::document::loaded;
use crate::error::{ArgsError, CommandError, WalletError};
use crate::json::{entries_text, items_text, json_string, string_to_json, wallet_text};
use crate::model::{Categories, Entries, Items};
use crate::text::{cut, cut_at_first};
use crate::update::{execute_update_action, updated};
use crate::wallet::Wallet;

verus! {

/// What remains to be done once a command has succeeded.
#[derive(Clone, Debug)]
pub enum Outcome {
    /// The text to show.
    Output(String),
    /// The text to write to the file of the store.
    Stored(String),
}

/// An outcome, its text as characters.
pub enum OutcomeView {
    Output(Seq<char>),
    Stored(Seq<char>),
}

impl View for Outcome {
    type V = OutcomeView;

    open spec fn view(&self) -> OutcomeView {
        match self {
            Outcome::Output(t) => OutcomeView::Output(t@),
            Outcome::Stored(t) => OutcomeView::Stored(t@),
        }
    }
}

/// The category under `name`, or an empty one where there is none.
pub open spec fn items_at(w: Categories, name: Seq<char>) -> Items {
    if w.contains_key(name) {
        w[name]
    } else {
        Items::empty()
    }
}

/// The item under `name`, or an empty one where there is none.
pub open spec fn entries_at(items: Items, name: Seq<char>) -> Entries {
    if items.contains_key(name) {
        items[name]
    } else {
        Entries::empty()
    }
}

/// The key and the value that an entry argument of the create command gives:
/// what stands before and after its first comma, or the whole argument and an
/// empty value where it has none.
pub open spec fn new_entry(arg: Seq<char>) -> (Seq<char>, Seq<char>) {
    match cut(arg, ',', ',') {
        Some(p) => p,
        None => (arg, Seq::empty()),
    }
}

/// What the create command makes of the store, and whether it succeeds: the
/// category, the item and the entry that are named are there afterwards, and
/// nothing else has changed.
pub open spec fn created(
    w: Categories,
    category: Option<Seq<char>>,
    item: Option<Seq<char>>,
    entry: Option<Seq<char>>,
) -> (Result<(), CommandError>, Categories) {
    if category is None && item is None && entry is None {
        (Err(CommandError::Args(ArgsError::NoObjectsSpecified)), w)
    } else if !parents_present(category, item, entry) {
        (Err(CommandError::Args(ArgsError::MissingParentObject)), w)
    } else {
        let c = category.unwrap();
        let items = items_at(w, c);
        match item {
            None => (Ok(()), w.insert(c, items)),
            Some(i) => {
                let entries = entries_at(items, i);
                match entry {
                    None => (Ok(()), w.insert(c, items.insert(i, entries))),
                    Some(e) => {
                        let kv = new_entry(e);
                        (Ok(()), w.insert(c, items.insert(i, entries.insert(kv.0, kv.1))))
                    },
                }
            },
        }
    }
}

/// What the delete command makes of the store, and whether it succeeds: the
/// deepest node that is named goes, with all that it holds; a node that is
/// not there fails the command and leaves the store as it was.
pub open spec fn deleted(
    w: Categories,
    category: Option<Seq<char>>,
    item: Option<Seq<char>>,
    entry: Option<Seq<char>>,
) -> (Result<(), CommandError>, Categories) {
    if category is None && item is None && entry is None {
        (Err(CommandError::Args(ArgsError::MissingCategory)), w)
    } else if !parents_present(category, item, entry) {
        (Err(CommandError::Args(ArgsError::MissingParentObject)), w)
    } else {
        let c = category.unwrap();
        match item {
            None => if w.contains_key(c) {
                (Ok(()), w.remove(c))
            } else {
                (Err(CommandError::Wallet(WalletError::DeletionError)), w)
            },
            Some(i) => if !w.contains_key(c) {
                (Err(CommandError::Wallet(WalletError::RetrievalError)), w)
            } else {
                match entry {
                    None => if w[c].contains_key(i) {
                        (Ok(()), w.insert(c, w[c].remove(i)))
                    } else {
                        (Err(CommandError::Wallet(WalletError::DeletionError)), w)
                    },
                    Some(e) => if !w[c].contains_key(i) {
                        (Err(CommandError::Wallet(WalletError::RetrievalError)), w)
                    } else if w[c][i].contains_key(e) {
                        (Ok(()), w.insert(c, w[c].insert(i, w[c][i].remove(e))))
                    } else {
                        (Err(CommandError::Wallet(WalletError::DeletionError)), w)
                    },
                }
            },
        }
    }
}

/// A text that was written, or the failure to write it.
pub open spec fn written(text: Option<Seq<char>>) -> Result<Seq<char>, CommandError> {
    match text {
        Some(t) => Ok(t),
        None => Err(CommandError::Wallet(WalletError::SaveError)),
    }
}

/// What the read command shows: the JSON text of the deepest node that is
/// named, of the whole store where none is.
pub open spec fn read_text(
    w: Categories,
    category: Option<Seq<char>>,
    item: Option<Seq<char>>,
    entry: Option<Seq<char>>,
) -> Result<Seq<char>, CommandError> {
    if !parents_present(category, item, entry) {
        Err(CommandError::Args(ArgsError::MissingParentObject))
    } else {
        match category {
            None => written(wallet_text(w)),
            Some(c) => if !w.contains_key(c) {
                Err(CommandError::Wallet(WalletError::RetrievalError))
            } else {
                match item {
                    None => written(items_text(w[c])),
                    Some(i) => if !w[c].contains_key(i) {
                        Err(CommandError::Wallet(WalletError::RetrievalError))
                    } else {
                        match entry {
                            None => written(entries_text(w[c][i])),
                            Some(e) => if !w[c][i].contains_key(e) {
                                Err(CommandError::Wallet(WalletError::RetrievalError))
                            } else {
                                written(json_string(w[c][i][e]))
                            },
                        }
                    },
                }
            },
        }
    }
}

/// What an action makes of the store, and whether it succeeds. Reading
/// changes nothing.
pub open spec fn applied(
    action: Action,
    w: Categories,
    category: Option<Seq<char>>,
    item: Option<Seq<char>>,
    entry: Option<Seq<char>>,
) -> (Result<(), CommandError>, Categories) {
    match action {
        Action::Create => created(w, category, item, entry),
        Action::Read => (Ok(()), w),
        Action::Update => updated(w, category, item, entry),
        Action::Delete => deleted(w, category, item, entry),
    }
}

/// What a command comes to, given the text of the file of the store. The
/// action is read first, then the store; a reading command shows a text, any
/// other has the text of the changed store written back.
pub open spec fn ran(
    action: Option<Seq<char>>,
    category: Option<Seq<char>>,
    item: Option<Seq<char>>,
    entry: Option<Seq<char>>,
    contents: Seq<char>,
) -> Result<OutcomeView, CommandError> {
    match action_of(action) {
        Err(e) => Err(CommandError::Args(e)),
        Ok(action) => match loaded(Categories::empty(), contents) {
            None => Err(CommandError::Wallet(WalletError::LoadError)),
            Some(w) => match action {
                Action::Read => match read_text(w, category, item, entry) {
                    Ok(t) => Ok(OutcomeView::Output(t)),
                    Err(e) => Err(e),
                },
                _ => {
                    let after = applied(action, w, category, item, entry);
                    match after.0 {
                        Err(e) => Err(e),
                        Ok(_) => match written(wallet_text(after.1)) {
                            Ok(t) => Ok(OutcomeView::Stored(t)),
                            Err(e) => Err(e),
                        },
                    }
                },
            },
        },
    }
}

/// Carries out a create command on the wallet.
pub fn execute_create_action(args: &Args, w_obj: &mut Wallet) -> (r: Result<(), CommandError>)
    requires
        old(w_obj).wf(),
    ensures
        final(w_obj).wf(),
        (r, final(w_obj)@) == created(old(w_obj)@, args@.category, args@.item, args@.entry),
{
    if args.category.is_none() && args.item.is_none() && args.entry.is_none() {
        return Err(CommandError::Args(ArgsError::NoObjectsSpecified));
    }
    if !check_parents(args) {
        return Err(CommandError::Args(ArgsError::MissingParentObject));
    }
    let category = match &args.category {
        None => {
            return Err(CommandError::Args(ArgsError::MissingParentObject));
        },
        Some(c) => c,
    };
    let new_category = w_obj.new_category(category);
    let item = match &args.item {
        None => {
            return Ok(());
        },
        Some(i) => i,
    };
    let new_item = new_category.new_item(item);
    let entry_input = match &args.entry {
        None => {
            return Ok(());
        },
        Some(e) => e,
    };
    match cut_at_first(entry_input.as_str(), ',', ',') {
        Some(kv) => {
            let _ = new_item.add_entry(&kv.0, &kv.1);
        },
        None => {
            let _ = new_item.add_entry(entry_input, &String::new());
        },
    }
    Ok(())
}

/// The text that a read command shows.
pub fn generate_wallet_string(args: &Args, w_obj: &mut Wallet) -> (r: Result<String, CommandError>)
    requires
        old(w_obj).wf(),
    ensures
        final(w_obj).wf(),
        final(w_obj)@ == old(w_obj)@,
        match r {
            Ok(t) => read_text(old(w_obj)@, args@.category, args@.item, args@.entry) == Ok::<
                Seq<char>,
                CommandError,
            >(t@),
            Err(e) => read_text(old(w_obj)@, args@.category, args@.item, args@.entry) == Err::<
                Seq<char>,
                CommandError,
            >(e),
        },
{
    if !check_parents(args) {
        return Err(CommandError::Args(ArgsError::MissingParentObject));
    }
    let category = match &args.category {
        None => {
            return as_command_result(w_obj.to_json());
        },
        Some(c) => c,
    };
    let ghost w = w_obj@;
    let cur_cat = match w_obj.get_category(category) {
        Err(_) => {
            return Err(CommandError::Wallet(WalletError::RetrievalError));
        },
        Ok(c) => c,
    };
    proof {
        assert(w.insert(category@, cur_cat@) =~= w);
    }
    let item = match &args.item {
        None => {
            return as_command_result(cur_cat.to_json());
        },
        Some(i) => i,
    };
    let ghost items = cur_cat@;
    let cur_item = match cur_cat.get_item(item) {
        None => {
            return Err(CommandError::Wallet(WalletError::RetrievalError));
        },
        Some(i) => i,
    };
    proof {
        assert(items.insert(item@, cur_item@) =~= items);
    }
    let entry = match &args.entry {
        None => {
            return as_command_result(cur_item.to_json());
        },
        Some(e) => e,
    };
    match cur_item.get_entry(entry) {
        Err(_) => Err(CommandError::Wallet(WalletError::RetrievalError)),
        Ok(value) => as_command_result(string_to_json(value)),
    }
}

/// A store failure as the failure of a command.
pub fn as_command_result(r: Result<String, WalletError>) -> (c: Result<String, CommandError>)
    ensures
        match r {
            Ok(t) => c == Ok::<String, CommandError>(t),
            Err(e) => c == Err::<String, CommandError>(CommandError::Wallet(e)),
        },
{
    match r {
        Ok(t) => Ok(t),
        Err(e) => Err(CommandError::Wallet(e)),
    }
}

/// Carries out a read command: hands out the text to show.
pub fn execute_read_action(args: &Args, w_obj: &mut Wallet) -> (r: Result<String, CommandError>)
    requires
        old(w_obj).wf(),
    ensures
        final(w_obj).wf(),
        final(w_obj)@ == old(w_obj)@,
        match r {
            Ok(t) => read_text(old(w_obj)@, args@.category, args@.item, args@.entry) == Ok::<
                Seq<char>,
                CommandError,
            >(t@),
            Err(e) => read_text(old(w_obj)@, args@.category, args@.item, args@.entry) == Err::<
                Seq<char>,
                CommandError,
            >(e),
        },
{
    generate_wallet_string(args, w_obj)
}

/// Carries out a delete command on the wallet.
pub fn execute_delete_action(args: &Args, w_obj: &mut Wallet) -> (r: Result<(), CommandError>)
    requires
        old(w_obj).wf(),
    ensures
        final(w_obj).wf(),
        (r, final(w_obj)@) == deleted(old(w_obj)@, args@.category, args@.item, args@.entry),
{
    if args.category.is_none() && args.item.is_none() && args.entry.is_none() {
        return Err(CommandError::Args(ArgsError::MissingCategory));
    }
    if !check_parents(args) {
        return Err(CommandError::Args(ArgsError::MissingParentObject));
    }
    let cat_str = match &args.category {
        None => {
            return Err(CommandError::Args(ArgsError::MissingParentObject));
        },
        Some(c) => c,
    };
    let item_str = match &args.item {
        None => {
            return match w_obj.delete_category(cat_str) {
                Ok(_) => Ok(()),
                Err(e) => Err(CommandError::Wallet(e)),
            };
        },
        Some(i) => i,
    };
    let ghost w = w_obj@;
    let cur_cat = match w_obj.get_category(cat_str) {
        Err(_) => {
            return Err(CommandError::Wallet(WalletError::RetrievalError));
        },
        Ok(c) => c,
    };
    proof {
        assert(w.insert(cat_str@, cur_cat@) =~= w);
    }
    let entry_str = match &args.entry {
        None => {
            return if cur_cat.delete_item(item_str) {
                Ok(())
            } else {
                Err(CommandError::Wallet(WalletError::DeletionError))
            };
        },
        Some(e) => e,
    };
    let ghost items = cur_cat@;
    let cur_item = match cur_cat.get_item(item_str) {
        None => {
            return Err(CommandError::Wallet(WalletError::RetrievalError));
        },
        Some(i) => i,
    };
    proof {
        assert(items.insert(item_str@, cur_item@) =~= items);
    }
    match cur_item.delete_entry(entry_str) {
        Ok(_) => Ok(()),
        Err(e) => Err(CommandError::Wallet(e)),
    }
}

/// Carries out the command that `args` describes on the store whose file
/// holds `contents`.
pub fn run(args: &Args, contents: &str) -> (r: Result<Outcome, CommandError>)
    ensures
        match r {
            Ok(o) => ran(args@.action, args@.category, args@.item, args@.entry, contents@) == Ok::<
                OutcomeView,
                CommandError,
            >(o@),
            Err(e) => ran(args@.action, args@.category, args@.item, args@.entry, contents@)
                == Err::<OutcomeView, CommandError>(e),
        },
{
    let action = match parse_action_argument(args) {
        Err(e) => {
            return Err(CommandError::Args(e));
        },
        Ok(a) => a,
    };
    let mut w_obj = Wallet::new();
    match w_obj.load(contents) {
        Err(e) => {
            return Err(CommandError::Wallet(e));
        },
        Ok(_) => {},
    }
    let done = match action {
        Action::Read => {
            return match execute_read_action(args, &mut w_obj) {
                Ok(t) => Ok(Outcome::Output(t)),
                Err(e) => Err(e),
            };
        },
        Action::Create => execute_create_action(args, &mut w_obj),
        Action::Update => execute_update_action(args, &mut w_obj),
        Action::Delete => execute_delete_action(args, &mut w_obj),
    };
    match done {
        Err(e) => Err(e),
        Ok(_) => match w_obj.save() {
            Ok(t) => Ok(Outcome::Stored(t)),
            Err(e) => Err(CommandError::Wallet(e)),
        },
    }
}

} // verus!
