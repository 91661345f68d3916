//! The record model: an item's identifier, description and status.

use vstd::prelude::*;

verus! {

/// Completion state of a record. New records always start `Incomplete`;
/// nothing in the store ever transitions one to `Complete` (a declared
/// extension point).
#[derive(Clone, Copy, PartialEq, Eq, Structural, Debug)]
pub enum Status {
    Complete,
    Incomplete,
}

/// A record identifier. Two policies are supported: monotonically
/// increasing integers assigned by the store instance, and random string
/// tokens assigned independently of prior state.
#[derive(Debug, PartialEq)]
pub enum Id {
    Num(u64),
    Token(String),
}

/// Mathematical view of an identifier: the integer, or the token's
/// character sequence.
pub enum IdView {
    Num(u64),
    Token(Seq<char>),
}

impl View for Id {
    type V = IdView;

    open spec fn view(&self) -> IdView {
        match self {
            Id::Num(n) => IdView::Num(*n),
            Id::Token(t) => IdView::Token(t@),
        }
    }
}

/// The error a read can surface: some line of the backing file's
/// contents is not a valid encoded record.
#[derive(Clone, Copy, Debug, PartialEq, Eq, Structural)]
pub enum StoreError {
    Malformed,
}

/// One persisted task entry.
#[derive(Debug, PartialEq)]
pub struct Item {
    pub id: Id,
    pub description: String,
    pub status: Status,
}

/// Mathematical view of a record.
pub struct ItemView {
    pub id: IdView,
    pub description: Seq<char>,
    pub status: Status,
}

impl View for Item {
    type V = ItemView;

    open spec fn view(&self) -> ItemView {
        ItemView { id: self.id@, description: self.description@, status: self.status }
    }
}

} // verus!
