//! The library's error type.
use vstd::prelude::*;

verus! {

/// What went wrong, with a message.
#[derive(Debug, Clone)]
pub enum NetWatchError {
    Config(String),
    Database(String),
    Collection(String),
}

/// The error with its message taken by view.
pub enum ErrorView {
    Config(Seq<char>),
    Database(Seq<char>),
    Collection(Seq<char>),
}

impl View for NetWatchError {
    type V = ErrorView;

    open spec fn view(&self) -> ErrorView {
        match self {
            NetWatchError::Config(m) => ErrorView::Config(m@),
            NetWatchError::Database(m) => ErrorView::Database(m@),
            NetWatchError::Collection(m) => ErrorView::Collection(m@),
        }
    }
}

} // verus!
