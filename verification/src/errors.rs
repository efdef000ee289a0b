use vstd::prelude::*;

verus! {

/// Failures that the journal's operations report.
#[derive(Debug, Clone, PartialEq, Eq)]
pub enum DomainError {
    Locked,
    NotInitialized,
    AlreadyInitialized,
    InvalidPassword,
    NotFound,
    Validation(String),
    Crypto(String),
    Storage(String),
    Sync(String),
}

/// The abstract value of an error: its kind and, where it has one, its
/// message as text.
pub enum ErrorView {
    Locked,
    NotInitialized,
    AlreadyInitialized,
    InvalidPassword,
    NotFound,
    Validation(Seq<char>),
    Crypto(Seq<char>),
    Storage(Seq<char>),
    Sync(Seq<char>),
}

impl View for DomainError {
    type V = ErrorView;

    open spec fn view(&self) -> ErrorView {
        match self {
            DomainError::Locked => ErrorView::Locked,
            DomainError::NotInitialized => ErrorView::NotInitialized,
            DomainError::AlreadyInitialized => ErrorView::AlreadyInitialized,
            DomainError::InvalidPassword => ErrorView::InvalidPassword,
            DomainError::NotFound => ErrorView::NotFound,
            DomainError::Validation(m) => ErrorView::Validation(m@),
            DomainError::Crypto(m) => ErrorView::Crypto(m@),
            DomainError::Storage(m) => ErrorView::Storage(m@),
            DomainError::Sync(m) => ErrorView::Sync(m@),
        }
    }
}

/// Result of a journal operation.
pub type DomainResult<T> = Result<T, DomainError>;

/// The text that the user is shown for an error.
pub open spec fn user_message(e: DomainError) -> Seq<char> {
    match e {
        DomainError::Locked => "Please unlock the application first."@,
        DomainError::NotInitialized => "Set up a master password to continue."@,
        DomainError::AlreadyInitialized => "Master password is already configured."@,
        DomainError::InvalidPassword => "Incorrect password."@,
        DomainError::NotFound => "Note not found."@,
        DomainError::Validation(msg) => msg@,
        DomainError::Crypto(_) => "Could not process encrypted data."@,
        DomainError::Storage(_) => "Could not access local storage."@,
        DomainError::Sync(msg) => msg@,
    }
}

impl DomainError {
    /// The message shown to the user: details of crypto and storage
    /// failures are hidden, validation and sync messages are shown as they are.
    pub fn to_user_message(&self) -> (msg: String)
        ensures
            msg@ == user_message(*self),
    {
        match self {
            DomainError::Locked => "Please unlock the application first.".to_string(),
            DomainError::NotInitialized => "Set up a master password to continue.".to_string(),
            DomainError::AlreadyInitialized => "Master password is already configured.".to_string(),
            DomainError::InvalidPassword => "Incorrect password.".to_string(),
            DomainError::NotFound => "Note not found.".to_string(),
            DomainError::Validation(msg) => msg.clone(),
            DomainError::Crypto(_) => "Could not process encrypted data.".to_string(),
            DomainError::Storage(_) => "Could not access local storage.".to_string(),
            DomainError::Sync(msg) => msg.clone(),
        }
    }
}

/// The error a command hands to the user interface.
pub struct CommandError {
    pub message: String,
}

impl CommandError {
    /// Wraps an error as the message the user is shown.
    pub fn from(err: DomainError) -> (r: CommandError)
        ensures
            r.message@ == user_message(err),
    {
        CommandError { message: err.to_user_message() }
    }
}

} // verus!
