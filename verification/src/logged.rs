//! A record of the calls made on a connection or on the local side, with
//! what each call answered. The operations of the library take their
//! connection and local side wrapped in `Logged`, so that their contracts
//! can say which calls they made and how each answer shaped the result.

use vstd::prelude::*;
use crate::ftpops::ops::LocalFiles;
use crate::hash::HashPassIo;
use crate::remote::{FtpConnection, FtpConnectionError, RawRemoteEntry};

verus! {

/// One call and its answer (errors by their text).
pub enum Call {
    /// `list_dir(path)`.
    List(Seq<char>, Result<Seq<RawRemoteEntry>, Seq<char>>),
    /// `try_hash(path)`.
    TryHash(Seq<char>, Option<Seq<char>>),
    /// `retr_to_buffer(path)`.
    Retrieve(Seq<char>, Result<Seq<u8>, Seq<char>>),
    /// `store_from_buffer(path, data)`.
    Store(Seq<char>, Seq<u8>, Result<(), Seq<char>>),
    /// `delete(path)`.
    Delete(Seq<char>, Result<(), Seq<char>>),
    /// `create_dir(path)`.
    CreateDir(Seq<char>, Result<(), Seq<char>>),
    /// `file_exists(relative_path)`.
    FileExists(Seq<char>, bool),
    /// `read_file(relative_path)` or `read_local_file(relative_path)`.
    ReadFile(Seq<char>, Result<Seq<u8>, Seq<char>>),
    /// `write_file(relative_path, data)`.
    WriteFile(Seq<char>, Seq<u8>, Result<(), Seq<char>>),
    /// `remove_file(relative_path)`.
    RemoveFile(Seq<char>, Result<(), Seq<char>>),
    /// `progress(message)`.
    Progress(Seq<char>),
}

/// `inner`, with the calls made through this wrapper recorded in order.
pub struct Logged<T> {
    pub inner: T,
    pub calls: Ghost<Seq<Call>>,
}

/// An answer without a value, errors by their text.
pub open spec fn done_answer(r: Result<(), FtpConnectionError>) -> Result<(), Seq<char>> {
    match r {
        Ok(()) => Ok(()),
        Err(e) => Err(e.0@),
    }
}

/// An answer with bytes, errors by their text.
pub open spec fn bytes_answer(r: Result<Vec<u8>, FtpConnectionError>) -> Result<Seq<u8>, Seq<char>> {
    match r {
        Ok(b) => Ok(b@),
        Err(e) => Err(e.0@),
    }
}

/// A listing answer, errors by their text.
pub open spec fn listing_answer(r: Result<Vec<RawRemoteEntry>, FtpConnectionError>) -> Result<
    Seq<RawRemoteEntry>,
    Seq<char>,
> {
    match r {
        Ok(v) => Ok(v@),
        Err(e) => Err(e.0@),
    }
}

/// A local answer without a value.
pub open spec fn local_done_answer(r: Result<(), String>) -> Result<(), Seq<char>> {
    match r {
        Ok(()) => Ok(()),
        Err(e) => Err(e@),
    }
}

/// A local answer with bytes.
pub open spec fn local_bytes_answer(r: Result<Vec<u8>, String>) -> Result<Seq<u8>, Seq<char>> {
    match r {
        Ok(b) => Ok(b@),
        Err(e) => Err(e@),
    }
}

/// An optional hash by its characters.
pub open spec fn hash_answer(r: Option<String>) -> Option<Seq<char>> {
    match r {
        Some(h) => Some(h@),
        None => None,
    }
}

/// Whether `later` begins with all of `earlier`: calls are only added.
pub open spec fn extends(later: Seq<Call>, earlier: Seq<Call>) -> bool {
    &&& earlier.len() <= later.len()
    &&& later.take(earlier.len() as int) == earlier
}

/// Whether `c` is among the calls of `cs` from position `from` on.
pub open spec fn logged_since(cs: Seq<Call>, from: int, c: Call) -> bool {
    exists|j: int| from <= j < cs.len() && #[trigger] cs[j] == c
}

/// A call recorded stays recorded as calls are added.
pub proof fn lemma_logged_grows(earlier: Seq<Call>, later: Seq<Call>, from: int, c: Call)
    requires
        0 <= from,
        extends(later, earlier),
        logged_since(earlier, from, c),
    ensures
        logged_since(later, from, c),
{
    let j = choose|j: int| from <= j < earlier.len() && #[trigger] earlier[j] == c;
    assert(later.take(earlier.len() as int)[j] == later[j]);
}

/// The last call added is recorded.
pub proof fn lemma_logged_last(earlier: Seq<Call>, c: Call, from: int)
    requires
        from <= earlier.len(),
    ensures
        logged_since(earlier.push(c), from, c),
        extends(earlier.push(c), earlier),
{
    let later = earlier.push(c);
    assert(later[earlier.len() as int] == c);
    assert(later.take(earlier.len() as int) =~= earlier);
}

/// Calls extend themselves.
pub proof fn lemma_extends_refl(cs: Seq<Call>)
    ensures
        extends(cs, cs),
{
    assert(cs.take(cs.len() as int) =~= cs);
}

/// A call recorded from one position on is recorded from any earlier one.
pub proof fn lemma_logged_from(cs: Seq<Call>, from: int, earlier_from: int, c: Call)
    requires
        earlier_from <= from,
        logged_since(cs, from, c),
    ensures
        logged_since(cs, earlier_from, c),
{
    let j = choose|j: int| from <= j < cs.len() && #[trigger] cs[j] == c;
    assert(cs[j] == c);
}

/// Extension is transitive.
pub proof fn lemma_extends_trans(a: Seq<Call>, b: Seq<Call>, c: Seq<Call>)
    requires
        extends(b, a),
        extends(c, b),
    ensures
        extends(c, a),
{
    assert forall|j: int| 0 <= j < a.len() implies c.take(a.len() as int)[j] == a[j] by {
        assert(c.take(b.len() as int)[j] == b[j]);
        assert(b.take(a.len() as int)[j] == a[j]);
    }
    assert(c.take(a.len() as int) =~= a);
}

impl<T> Logged<T> {
    /// Wraps `inner` with no call recorded yet.
    pub fn new(inner: T) -> (r: Logged<T>)
        ensures
            r.inner == inner,
            r.calls@ == Seq::<Call>::empty(),
    {
        Logged { inner, calls: Ghost(Seq::empty()) }
    }
}

impl<T: FtpConnection> Logged<T> {
    /// `list_dir`, recorded.
    pub fn list_dir(&mut self, path: &str) -> (r: Result<Vec<RawRemoteEntry>, FtpConnectionError>)
        ensures
            final(self).calls@ == old(self).calls@.push(Call::List(path@, listing_answer(r))),
    {
        let r = self.inner.list_dir(path);
        self.calls = Ghost(self.calls@.push(Call::List(path@, listing_answer(r))));
        r
    }

    /// `try_hash`, recorded.
    pub fn try_hash(&mut self, path: &str) -> (r: Option<String>)
        ensures
            final(self).calls@ == old(self).calls@.push(Call::TryHash(path@, hash_answer(r))),
    {
        let r = self.inner.try_hash(path);
        self.calls = Ghost(self.calls@.push(Call::TryHash(path@, hash_answer(r))));
        r
    }

    /// `retr_to_buffer`, recorded.
    pub fn retr_to_buffer(&mut self, path: &str) -> (r: Result<Vec<u8>, FtpConnectionError>)
        ensures
            final(self).calls@ == old(self).calls@.push(Call::Retrieve(path@, bytes_answer(r))),
    {
        let r = self.inner.retr_to_buffer(path);
        self.calls = Ghost(self.calls@.push(Call::Retrieve(path@, bytes_answer(r))));
        r
    }

    /// `store_from_buffer`, recorded.
    pub fn store_from_buffer(&mut self, path: &str, data: &[u8]) -> (r: Result<
        (),
        FtpConnectionError,
    >)
        ensures
            final(self).calls@ == old(self).calls@.push(
                Call::Store(path@, data@, done_answer(r)),
            ),
    {
        let r = self.inner.store_from_buffer(path, data);
        self.calls = Ghost(self.calls@.push(Call::Store(path@, data@, done_answer(r))));
        r
    }

    /// `delete`, recorded.
    pub fn delete(&mut self, path: &str) -> (r: Result<(), FtpConnectionError>)
        ensures
            final(self).calls@ == old(self).calls@.push(Call::Delete(path@, done_answer(r))),
    {
        let r = self.inner.delete(path);
        self.calls = Ghost(self.calls@.push(Call::Delete(path@, done_answer(r))));
        r
    }

    /// `create_dir`, recorded.
    pub fn create_dir(&mut self, path: &str) -> (r: Result<(), FtpConnectionError>)
        ensures
            final(self).calls@ == old(self).calls@.push(Call::CreateDir(path@, done_answer(r))),
    {
        let r = self.inner.create_dir(path);
        self.calls = Ghost(self.calls@.push(Call::CreateDir(path@, done_answer(r))));
        r
    }
}

impl<T: LocalFiles> Logged<T> {
    /// `file_exists`, recorded.
    pub fn file_exists(&mut self, relative_path: &str) -> (r: bool)
        ensures
            final(self).calls@ == old(self).calls@.push(Call::FileExists(relative_path@, r)),
    {
        let r = self.inner.file_exists(relative_path);
        self.calls = Ghost(self.calls@.push(Call::FileExists(relative_path@, r)));
        r
    }

    /// `read_file`, recorded.
    pub fn read_file(&mut self, relative_path: &str) -> (r: Result<Vec<u8>, String>)
        ensures
            final(self).calls@ == old(self).calls@.push(
                Call::ReadFile(relative_path@, local_bytes_answer(r)),
            ),
    {
        let r = self.inner.read_file(relative_path);
        self.calls = Ghost(self.calls@.push(Call::ReadFile(relative_path@, local_bytes_answer(r))));
        r
    }

    /// `write_file`, recorded.
    pub fn write_file(&mut self, relative_path: &str, data: &[u8]) -> (r: Result<(), String>)
        ensures
            final(self).calls@ == old(self).calls@.push(
                Call::WriteFile(relative_path@, data@, local_done_answer(r)),
            ),
    {
        let r = self.inner.write_file(relative_path, data);
        self.calls = Ghost(
            self.calls@.push(Call::WriteFile(relative_path@, data@, local_done_answer(r))),
        );
        r
    }

    /// `remove_file`, recorded.
    pub fn remove_file(&mut self, relative_path: &str) -> (r: Result<(), String>)
        ensures
            final(self).calls@ == old(self).calls@.push(
                Call::RemoveFile(relative_path@, local_done_answer(r)),
            ),
    {
        let r = self.inner.remove_file(relative_path);
        self.calls = Ghost(
            self.calls@.push(Call::RemoveFile(relative_path@, local_done_answer(r))),
        );
        r
    }
}

impl<T: HashPassIo> Logged<T> {
    /// `read_local_file`, recorded.
    pub fn read_local_file(&mut self, relative_path: &str) -> (r: Result<Vec<u8>, String>)
        ensures
            final(self).calls@ == old(self).calls@.push(
                Call::ReadFile(relative_path@, local_bytes_answer(r)),
            ),
    {
        let r = self.inner.read_local_file(relative_path);
        self.calls = Ghost(self.calls@.push(Call::ReadFile(relative_path@, local_bytes_answer(r))));
        r
    }

    /// `progress`, recorded.
    pub fn progress(&mut self, message: &str)
        ensures
            final(self).calls@ == old(self).calls@.push(Call::Progress(message@)),
    {
        self.inner.progress(message);
        self.calls = Ghost(self.calls@.push(Call::Progress(message@)));
    }
}

} // verus!
