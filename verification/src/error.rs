//! What can go wrong: in the store, in the arguments of a command, or in either.

use vstd::prelude::*;

verus! {

/// A failure of the store itself.
#[derive(Clone, Copy, Debug, PartialEq, Eq, Structural)]
pub enum WalletError {
    CreationError,
    DeletionError,
    InsertionError,
    LoadError,
    MergeError,
    RetrievalError,
    SaveError,
}

/// A command line that cannot be carried out as it stands.
#[derive(Clone, Copy, Debug, PartialEq, Eq, Structural)]
pub enum ArgsError {
    InvalidAction,
    InvalidCategory,
    InvalidItem,
    InvalidEntry,
    MissingAction,
    MissingCategory,
    MissingItem,
    MissingEntry,
    MissingParentObject,
    NoObjectsSpecified,
}

/// Why a command failed.
#[derive(Clone, Copy, Debug, PartialEq, Eq, Structural)]
pub enum CommandError {
    Args(ArgsError),
    Wallet(WalletError),
}

impl WalletError {
    /// The words shown to the user for this failure.
    pub open spec fn text(self) -> Seq<char> {
        match self {
            WalletError::CreationError => "Unable to create new collection."@,
            WalletError::DeletionError => "Unable to delete entry."@,
            WalletError::InsertionError => "Failure adding to collection."@,
            WalletError::LoadError => "Error loading wallet from file."@,
            WalletError::MergeError => "Failure merging collections."@,
            WalletError::RetrievalError => "Failed to get data from collection."@,
            WalletError::SaveError => "Failure saving wallet."@,
        }
    }

    /// The words shown to the user for this failure.
    pub fn message(&self) -> (r: String)
        ensures
            r@ == self.text(),
    {
        match self {
            WalletError::CreationError => "Unable to create new collection.".to_owned(),
            WalletError::DeletionError => "Unable to delete entry.".to_owned(),
            WalletError::InsertionError => "Failure adding to collection.".to_owned(),
            WalletError::LoadError => "Error loading wallet from file.".to_owned(),
            WalletError::MergeError => "Failure merging collections.".to_owned(),
            WalletError::RetrievalError => "Failed to get data from collection.".to_owned(),
            WalletError::SaveError => "Failure saving wallet.".to_owned(),
        }
    }
}

impl ArgsError {
    /// The words shown to the user for this failure.
    pub open spec fn text(self) -> Seq<char> {
        match self {
            ArgsError::InvalidAction => "Invalid action argument."@,
            ArgsError::InvalidCategory => "Error: new category identifier cannot be empty."@,
            ArgsError::InvalidItem => "Error: new item identifier cannot be empty."@,
            ArgsError::InvalidEntry => "No replacement entry argument provided"@,
            ArgsError::MissingAction => "No action argument provided."@,
            ArgsError::MissingCategory => "No category argument provided."@,
            ArgsError::MissingItem => "No item argument provided."@,
            ArgsError::MissingEntry => "Missing entry argument."@,
            ArgsError::MissingParentObject => "Missing parent object argument for children present."@,
            ArgsError::NoObjectsSpecified => "No category, item or entry argument provided."@,
        }
    }

    /// The words shown to the user for this failure.
    pub fn message(&self) -> (r: String)
        ensures
            r@ == self.text(),
    {
        match self {
            ArgsError::InvalidAction => "Invalid action argument.".to_owned(),
            ArgsError::InvalidCategory => "Error: new category identifier cannot be empty.".to_owned(),
            ArgsError::InvalidItem => "Error: new item identifier cannot be empty.".to_owned(),
            ArgsError::InvalidEntry => "No replacement entry argument provided".to_owned(),
            ArgsError::MissingAction => "No action argument provided.".to_owned(),
            ArgsError::MissingCategory => "No category argument provided.".to_owned(),
            ArgsError::MissingItem => "No item argument provided.".to_owned(),
            ArgsError::MissingEntry => "Missing entry argument.".to_owned(),
            ArgsError::MissingParentObject => "Missing parent object argument for children present.".to_owned(),
            ArgsError::NoObjectsSpecified => "No category, item or entry argument provided.".to_owned(),
        }
    }
}

impl CommandError {
    /// The words shown to the user for this failure.
    pub open spec fn text(self) -> Seq<char> {
        match self {
            CommandError::Args(e) => e.text(),
            CommandError::Wallet(e) => e.text(),
        }
    }

    /// The words shown to the user for this failure.
    pub fn message(&self) -> (r: String)
        ensures
            r@ == self.text(),
    {
        match self {
            CommandError::Args(e) => e.message(),
            CommandError::Wallet(e) => e.message(),
        }
    }
}

} // verus!
