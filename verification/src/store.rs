//! The record store: identifier assignment and the storage contract.
//!
//! A `FileStore` owns the path of one append-only backing file and an
//! identifier policy. `create` builds the next record; the embedding
//! program appends `encode_line(&item)` to the file. `list` turns the
//! file's current contents into the ordered records. The store holds no
//! durable cache: the backing file is the sole source of truth, and the
//! sequential counter starts at zero for every new instance — it is not
//! reloaded from existing file contents, so a restarted process can
//! repeat identifiers (a documented limit of the design).

use vstd::prelude::*;

use crate::decode::{decode_file, items_view, parse_file};
use crate::record::{Id, IdView, Item, Status, StoreError};

verus! {

/// How a store assigns identifiers: a monotonically increasing integer
/// per instance, or a fresh random string token per call.
#[derive(Clone, Copy, PartialEq, Eq, Structural, Debug)]
pub enum IdPolicy {
    Sequential,
    Random,
}

/// Whether `c` can occur in a random token: a lowercase hexadecimal
/// digit or a hyphen.
pub open spec fn is_token_char(c: char) -> bool {
    c == '-' || 48 <= c as u32 <= 57 || 97 <= c as u32 <= 102
}

/// The textual shape of a random token: 36 characters, hyphens at the
/// four fixed positions, lowercase hexadecimal digits elsewhere.
pub open spec fn is_token_text(t: Seq<char>) -> bool {
    &&& t.len() == 36
    &&& forall|k: int| 0 <= k < 36 ==> is_token_char(#[trigger] t[k])
    &&& t[8] == '-' && t[13] == '-' && t[18] == '-' && t[23] == '-'
}

/// Relies on `uuid::Uuid::new_v4` and its `Display` implementation: a
/// fresh version-4 identifier rendered in hyphenated lowercase
/// hexadecimal, 36 characters long. The value is random, so nothing
/// beyond its shape is promised: two calls may in principle coincide.
#[verifier::external_body]
fn fresh_token() -> (r: String)
    ensures
        is_token_text(r@),
{
    uuid::Uuid::new_v4().to_string()
}

/// A store for one backing file: its path, its identifier policy, and
/// the sequential counter (meaningful under the sequential policy).
pub struct FileStore {
    path: String,
    policy: IdPolicy,
    next_id: u64,
}

/// Mathematical view of a store.
pub struct FileStoreView {
    pub path: Seq<char>,
    pub policy: IdPolicy,
    pub next_id: u64,
}

impl View for FileStore {
    type V = FileStoreView;

    closed spec fn view(&self) -> FileStoreView {
        FileStoreView { path: self.path@, policy: self.policy, next_id: self.next_id }
    }
}

/// The capability a record store offers: create one record, and list
/// the records a backing file's contents hold. Alternate backends can
/// implement it; the file-backed store below is the one provided.
pub trait Store {
    /// Whether the backend can accept one more `create` call.
    spec fn can_create(&self) -> bool;

    /// Creates one record with a fresh identifier; the record always
    /// starts incomplete and carries the caller's description.
    fn create(&mut self, description: String) -> (item: Item)
        requires
            old(self).can_create(),
        ensures
            item@.status == Status::Incomplete,
            item@.description == description@,
    ;

    /// The records the given backing contents hold, oldest first.
    fn list(&self, contents: &str) -> (r: Result<Vec<Item>, StoreError>);
}

impl FileStore {
    /// A store over the given backing file path, with the random-token
    /// policy (each record gets a fresh string identifier).
    pub fn new(path: String) -> (s: Self)
        ensures
            s@.path == path@,
            s@.policy == IdPolicy::Random,
            s@.next_id == 0,
    {
        FileStore { path, policy: IdPolicy::Random, next_id: 0 }
    }

    /// A store over the given backing file path with an explicit
    /// identifier policy; the sequential counter starts at zero.
    pub fn new_with_policy(path: String, policy: IdPolicy) -> (s: Self)
        ensures
            s@.path == path@,
            s@.policy == policy,
            s@.next_id == 0,
    {
        FileStore { path, policy, next_id: 0 }
    }

    /// The path of the backing file, for the embedder's I/O.
    pub fn path(&self) -> (r: &String)
        ensures
            r@ == self@.path,
    {
        &self.path
    }

    /// Whether the sequential counter has run out: `create` must not be
    /// called once every integer identifier has been assigned. Callers
    /// outside verified code test this before creating.
    pub fn at_capacity(&self) -> (r: bool)
        ensures
            r == (self@.policy == IdPolicy::Sequential && self@.next_id == u64::MAX),
    {
        match self.policy {
            IdPolicy::Sequential => self.next_id == u64::MAX,
            IdPolicy::Random => false,
        }
    }

    /// Builds the next record: a fresh identifier per the active
    /// policy, the caller's description, and incomplete status. Under
    /// the sequential policy the n-th call on a fresh store assigns
    /// identifier n. The embedder appends `encode_line` of the result
    /// to the backing file.
    pub fn create(&mut self, description: String) -> (item: Item)
        requires
            old(self)@.policy == IdPolicy::Sequential ==> old(self)@.next_id < u64::MAX,
        ensures
            final(self)@.path == old(self)@.path,
            final(self)@.policy == old(self)@.policy,
            item@.description == description@,
            item@.status == Status::Incomplete,
            old(self)@.policy == IdPolicy::Sequential ==> final(self)@.next_id == old(
                self,
            )@.next_id + 1 && item@.id == IdView::Num((old(self)@.next_id + 1) as u64),
            old(self)@.policy == IdPolicy::Random ==> final(self)@.next_id == old(self)@.next_id
                && (item@.id matches IdView::Token(t) && is_token_text(t)),
    {
        let id = match self.policy {
            IdPolicy::Sequential => {
                self.next_id = self.next_id + 1;
                Id::Num(self.next_id)
            },
            IdPolicy::Random => Id::Token(fresh_token()),
        };
        Item { id, description, status: Status::Incomplete }
    }

    /// The records the given backing-file contents hold, in file order
    /// (oldest first). Fails, with no partial result, exactly when some
    /// non-blank line is not a valid encoded record.
    pub fn list(&self, contents: &str) -> (r: Result<Vec<Item>, StoreError>)
        ensures
            match r {
                Ok(items) => parse_file(contents@) == Some(items_view(items@)),
                Err(e) => parse_file(contents@) is None && e == StoreError::Malformed,
            },
    {
        decode_file(contents)
    }
}

impl Store for FileStore {
    open spec fn can_create(&self) -> bool {
        self@.policy == IdPolicy::Sequential ==> self@.next_id < u64::MAX
    }

    fn create(&mut self, description: String) -> (item: Item) {
        FileStore::create(self, description)
    }

    fn list(&self, contents: &str) -> (r: Result<Vec<Item>, StoreError>) {
        FileStore::list(self, contents)
    }
}

/// The sequential counter after a number of `create` calls on a fresh
/// store: each call raises it by one from zero.
pub open spec fn counter_after(n: nat) -> nat
    decreases n,
{
    if n == 0 {
        0
    } else {
        counter_after((n - 1) as nat) + 1
    }
}

/// The identifier the n-th `create` call assigns (n counted from one):
/// one more than the counter the previous calls left behind, as
/// `create`'s contract states.
pub open spec fn nth_sequential_id(n: nat) -> nat
    recommends
        n >= 1,
{
    counter_after((n - 1) as nat) + 1
}

/// Law: under the sequential policy, the n-th `create` call on a fresh
/// store assigns identifier n, and identifiers strictly increase over
/// the calls of one instance's lifetime.
pub proof fn lemma_sequential_nth_id(n: nat)
    requires
        n >= 1,
    ensures
        nth_sequential_id(n) == n,
        forall|m: nat| 1 <= m < n ==> nth_sequential_id(m) < nth_sequential_id(n),
    decreases n,
{
    if n > 1 {
        lemma_sequential_nth_id((n - 1) as nat);
        assert forall|m: nat| 1 <= m < n implies nth_sequential_id(m) < nth_sequential_id(n) by {
            if m < n - 1 {
            }
        }
    }
}

} // verus!
