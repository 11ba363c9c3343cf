//! The arguments of a command and the action that they name.

use vstd::prelude::*;
use crate::error::ArgsError;
use crate::text::{eq_ignoring_case, same_ignoring_case};

verus! {

/// What a command does to the store.
#[derive(Clone, Copy, Debug, PartialEq, Eq, Structural)]
pub enum Action {
    Create,
    Read,
    Update,
    Delete,
}

/// The arguments of one command.
#[derive(Clone, Debug, Default)]
pub struct Args {
    /// Path of the database file
    pub database: String,
    /// Action to be performed
    pub action: Option<String>,
    /// Name of the category if present
    pub category: Option<String>,
    /// Name of the item if present
    pub item: Option<String>,
    /// Name of the entry if present
    pub entry: Option<String>,
}

/// An optional argument as its characters.
pub open spec fn text_of(arg: Option<String>) -> Option<Seq<char>> {
    match arg {
        Some(s) => Some(s@),
        None => None,
    }
}

/// The arguments of one command, each string as its characters.
pub struct ArgsView {
    pub database: Seq<char>,
    pub action: Option<Seq<char>>,
    pub category: Option<Seq<char>>,
    pub item: Option<Seq<char>>,
    pub entry: Option<Seq<char>>,
}

impl View for Args {
    type V = ArgsView;

    open spec fn view(&self) -> ArgsView {
        ArgsView {
            database: self.database@,
            action: text_of(self.action),
            category: text_of(self.category),
            item: text_of(self.item),
            entry: text_of(self.entry),
        }
    }
}

/// The action that an action argument names, whatever the case of its letters.
pub open spec fn action_of(action: Option<Seq<char>>) -> Result<Action, ArgsError> {
    match action {
        None => Err(ArgsError::MissingAction),
        Some(word) => if same_ignoring_case(word, "CREATE"@) {
            Ok(Action::Create)
        } else if same_ignoring_case(word, "READ"@) {
            Ok(Action::Read)
        } else if same_ignoring_case(word, "UPDATE"@) {
            Ok(Action::Update)
        } else if same_ignoring_case(word, "DELETE"@) {
            Ok(Action::Delete)
        } else {
            Err(ArgsError::InvalidAction)
        },
    }
}

/// No argument stands without the one above it: no item or entry without a
/// category, no entry without an item.
pub open spec fn parents_present(
    category: Option<Seq<char>>,
    item: Option<Seq<char>>,
    entry: Option<Seq<char>>,
) -> bool {
    &&& category is None ==> item is None && entry is None
    &&& item is None ==> entry is None
}

/// Reads the action argument.
pub fn parse_action_argument(args: &Args) -> (r: Result<Action, ArgsError>)
    ensures
        r == action_of(args@.action),
{
    match &args.action {
        None => Err(ArgsError::MissingAction),
        Some(word) => {
            if eq_ignoring_case(word.as_str(), "CREATE") {
                Ok(Action::Create)
            } else if eq_ignoring_case(word.as_str(), "READ") {
                Ok(Action::Read)
            } else if eq_ignoring_case(word.as_str(), "UPDATE") {
                Ok(Action::Update)
            } else if eq_ignoring_case(word.as_str(), "DELETE") {
                Ok(Action::Delete)
            } else {
                Err(ArgsError::InvalidAction)
            }
        },
    }
}

/// Whether no argument stands without the one above it.
pub fn check_parents(args: &Args) -> (ok: bool)
    ensures
        ok == parents_present(args@.category, args@.item, args@.entry),
{
    if args.category.is_none() && (args.item.is_some() || args.entry.is_some()) {
        false
    } else if args.item.is_none() && args.entry.is_some() {
        false
    } else {
        true
    }
}

} // verus!
