//! The hash pass, which upgrades `Match` diff entries to a
//! hash-verified `Match` or `HashMismatch` by comparing MD5 hashes. For each
//! side, an already-known hash (e.g. recycled from a `--local-csv` /
//! `--remote-csv` source) is preferred over live access; if a side has
//! neither, the entry keeps its size-only `Match` result.

use vstd::prelude::*;
use crate::diff::{DiffEntry, DiffStatus};
use crate::known::KnownMd5;
use crate::number::{hex_encode, hex_lower};
use crate::logged::{
    bytes_answer, extends, lemma_extends_refl, lemma_extends_trans, lemma_logged_from,
    lemma_logged_grows, lemma_logged_last, local_bytes_answer, logged_since, Call, Logged,
};
use crate::remote::{FtpConnection, FtpConnectionError};
use crate::text::{owned, push_str, str_equal};

verus! {

/// The MD5 digest of `data`, as `md5::compute` returns it.
pub uninterp spec fn md5_digest(data: Seq<u8>) -> Seq<u8>;

/// Calls `md5::compute(data)` and returns the 16 bytes of the `Digest`
/// (its public field). The digest itself is only named.
#[verifier::external_body]
fn md5_bytes(data: &[u8]) -> (r: Vec<u8>)
    ensures
        r@ == md5_digest(data@),
        r@.len() == 16,
{
    md5::compute(data).0.to_vec()
}

/// The MD5 of `data` in lower-case hexadecimal, as `format!("{:x}", ..)`
/// writes an `md5::Digest` (two digits per byte).
pub fn md5_hex(data: &[u8]) -> (r: String)
    ensures
        r@ == hex_lower(md5_digest(data@)),
{
    let digest = md5_bytes(data);
    hex_encode(digest.as_slice())
}

/// Where one side's hash for an entry comes from.
#[derive(Debug)]
pub enum HashSource {
    /// An already-known hash.
    Known(String),
    /// Fetched or computed from the side's live source.
    Live,
    /// Neither is available: the side's hash stays unresolved.
    Unresolved,
}

/// Picks the source of one side's hash for `relative_path`: the known hash
/// if there is one, else the live source if the side has one, else none.
pub fn hash_source(known: &KnownMd5, live_available: bool, relative_path: &str) -> (r: HashSource)
    ensures
        known@.contains_key(relative_path@) ==> (r matches HashSource::Known(h) && h@
            == known@[relative_path@]),
        !known@.contains_key(relative_path@) && live_available ==> r is Live,
        !known@.contains_key(relative_path@) && !live_available ==> r is Unresolved,
{
    match known.get(relative_path) {
        Some(h) => HashSource::Known(h.clone()),
        None => if live_available {
            HashSource::Live
        } else {
            HashSource::Unresolved
        },
    }
}

/// Whether the hash pass looks at `entry`: only `Match` entries are hashed.
pub fn hash_applies(entry: &DiffEntry) -> (r: bool)
    ensures
        r == (entry.status == DiffStatus::Match),
{
    entry.status == DiffStatus::Match
}

/// The progress message for an entry whose hashes are being resolved.
pub fn hash_progress_message(relative_path: &str) -> (r: String)
    ensures
        r@ == "hash: "@ + relative_path@,
{
    let mut m = owned("hash: ");
    push_str(&mut m, relative_path);
    m
}

/// The server path of `relative_path` under `remote_root`.
pub fn remote_file_path(remote_root: &str, relative_path: &str) -> (r: String)
    ensures
        r@ == remote_root@ + "/"@ + relative_path@,
{
    let mut p = owned(remote_root);
    push_str(&mut p, "/");
    push_str(&mut p, relative_path);
    p
}

/// The hash that a server's answers give: its own hash if it offered
/// one, else the MD5 of the downloaded contents, or the download's error.
pub open spec fn remote_hash_result(server: Option<Seq<char>>, download: Result<Seq<u8>, Seq<char>>) -> Result<
    Seq<char>,
    Seq<char>,
> {
    match server {
        Some(h) => Ok(h),
        None => match download {
            Ok(b) => Ok(hex_lower(md5_digest(b))),
            Err(m) => Err(m),
        },
    }
}

/// A fetched hash or its error, by their text.
pub open spec fn fetched_view(r: Result<String, FtpConnectionError>) -> Result<Seq<char>, Seq<char>> {
    match r {
        Ok(h) => Ok(h@),
        Err(e) => Err(e.0@),
    }
}

/// The remote hash from the server's answers: `server`, the hash it
/// offered; `download`, the download made when it offered none.
pub fn remote_md5_from(
    server: Option<String>,
    download: Option<Result<Vec<u8>, FtpConnectionError>>,
) -> (r: Result<String, FtpConnectionError>)
    requires
        server is Some || download is Some,
    ensures
        server is Some ==> fetched_view(r) == Ok::<Seq<char>, Seq<char>>(server->0@),
        server is None ==> fetched_view(r) == remote_hash_result(None, bytes_answer(download->0)),
{
    match server {
        Some(h) => Ok(h),
        None => match download {
            Some(Ok(bytes)) => Ok(md5_hex(bytes.as_slice())),
            Some(Err(e)) => Err(e),
            None => Err(FtpConnectionError(String::new())),
        },
    }
}

/// Whether `cs` are the calls of a fetch of the hash of `path` that gave
/// `r`: the server offered a hash, and it is the result; or it offered
/// none, the file was downloaded, and the result is as
/// `remote_hash_result` states.
pub open spec fn hash_fetch_calls(cs: Seq<Call>, path: Seq<char>, r: Result<Seq<char>, Seq<char>>) -> bool {
    if cs.len() == 1 {
        match cs[0] {
            Call::TryHash(q, Some(h)) => q == path && r == Ok::<Seq<char>, Seq<char>>(h),
            _ => false,
        }
    } else if cs.len() == 2 {
        &&& cs[0] == Call::TryHash(path, None)
        &&& match cs[1] {
            Call::Retrieve(q, a) => q == path && r == remote_hash_result(None, a),
            _ => false,
        }
    } else {
        false
    }
}

/// The remote hash of `remote_root/relative_path`: the server's own hash
/// if it offers one, else the MD5 of the downloaded contents. A failed
/// download is passed on. The calls made and the result are as
/// `hash_fetch_calls` states.
pub fn fetch_remote_md5<C: FtpConnection>(
    conn: &mut Logged<C>,
    remote_root: &str,
    relative_path: &str,
) -> (r: Result<String, FtpConnectionError>)
    ensures
        extends(final(conn).calls@, old(conn).calls@),
        hash_fetch_calls(
            final(conn).calls@.skip(old(conn).calls@.len() as int),
            remote_root@ + "/"@ + relative_path@,
            fetched_view(r),
        ),
{
    let ghost c0 = conn.calls@;
    let remote_path = remote_file_path(remote_root, relative_path);
    let server = conn.try_hash(remote_path.as_str());
    let ghost c1 = conn.calls@;
    proof {
        lemma_logged_last(c0, c1.last(), 0);
        assert(c1 == c0.push(c1.last()));
    }
    match server {
        Some(hash) => {
            assert(conn.calls@.skip(c0.len() as int) =~= seq![Call::TryHash(remote_path@, Some(hash@))]);
            remote_md5_from(Some(hash), None)
        },
        None => {
            let download = conn.retr_to_buffer(remote_path.as_str());
            proof {
                lemma_logged_last(c1, conn.calls@.last(), 0);
                lemma_extends_trans(c0, c1, conn.calls@);
                assert(conn.calls@.skip(c0.len() as int) =~= seq![
                    Call::TryHash(remote_path@, None),
                    Call::Retrieve(remote_path@, bytes_answer(download)),
                ]);
            }
            remote_md5_from(None, Some(download))
        },
    }
}

/// The characters of an optional hash.
pub open spec fn hash_view(h: Option<String>) -> Option<Seq<char>> {
    match h {
        Some(s) => Some(s@),
        None => None,
    }
}

/// Records the resolved hashes of a `Match` entry: when both sides are
/// resolved, the status becomes `Match` if they are equal and
/// `HashMismatch` if not; otherwise it is unchanged. The hashes are stored
/// as resolved (or left empty); nothing else changes.
pub fn finish_hash_entry(entry: &mut DiffEntry, local_md5: Option<String>, remote_md5: Option<String>)
    ensures
        final(entry).relative_path == old(entry).relative_path,
        final(entry).local_size == old(entry).local_size,
        final(entry).remote_size == old(entry).remote_size,
        hash_view(final(entry).local_md5) == hash_view(local_md5),
        hash_view(final(entry).remote_md5) == hash_view(remote_md5),
        final(entry).status == match (local_md5, remote_md5) {
            (Some(l), Some(r)) => if l@ == r@ {
                DiffStatus::Match
            } else {
                DiffStatus::HashMismatch
            },
            _ => old(entry).status,
        },
{
    match (&local_md5, &remote_md5) {
        (Some(l), Some(r)) => {
            entry.status = if str_equal(l.as_str(), r.as_str()) {
                DiffStatus::Match
            } else {
                DiffStatus::HashMismatch
            };
        },
        _ => {},
    }
    entry.local_md5 = local_md5;
    entry.remote_md5 = remote_md5;
}


/// The local side of the hash pass, as its caller provides it: the
/// contents of files below the local root, and a receiver for progress
/// messages.
pub trait HashPassIo {
    /// The contents of `relative_path` below the local root, or the text
    /// of the read error.
    fn read_local_file(&mut self, relative_path: &str) -> Result<Vec<u8>, String>;

    /// Receives a progress message.
    fn progress(&mut self, message: &str);
}

/// Whether `h` is the lower-case hexadecimal MD5 of some contents.
pub open spec fn is_md5_hex(h: Seq<char>) -> bool {
    exists|b: Seq<u8>| h == hex_lower(#[trigger] md5_digest(b))
}

/// What one side's hash of `path` is after the pass: the known hash if
/// there is one; else, with a live source, some resolved hash; else none.
pub open spec fn side_hash(known: Map<Seq<char>, Seq<char>>, live: bool, path: Seq<char>, h: Option<
    Seq<char>,
>) -> bool {
    if known.contains_key(path) {
        h == Some(known[path])
    } else if live {
        h is Some
    } else {
        h is None
    }
}

/// The status of a `Match` entry once its hashes are resolved: `Match`
/// when both are resolved and equal, `HashMismatch` when both are resolved
/// and differ, and still `Match` when either is missing.
pub open spec fn hashed_status(local: Option<Seq<char>>, remote: Option<Seq<char>>) -> DiffStatus {
    match (local, remote) {
        (Some(l), Some(r)) => if l == r {
            DiffStatus::Match
        } else {
            DiffStatus::HashMismatch
        },
        _ => DiffStatus::Match,
    }
}

/// How the hash pass leaves one entry: anything but `Match` untouched; a
/// `Match` entry with each side's hash resolved as `side_hash` states (a
/// live local hash being an MD5 digest in hex; which calls it came from is
/// what `hashes_traced` states), and its status set from the two hashes.
pub open spec fn hashed_entry(
    before: DiffEntry,
    after: DiffEntry,
    local_known: Map<Seq<char>, Seq<char>>,
    remote_known: Map<Seq<char>, Seq<char>>,
    local_live: bool,
    remote_live: bool,
) -> bool {
    if before.status != DiffStatus::Match {
        after == before
    } else {
        let path = before.relative_path@;
        &&& after.relative_path@ == path
        &&& after.local_size == before.local_size
        &&& after.remote_size == before.remote_size
        &&& side_hash(local_known, local_live, path, hash_view(after.local_md5))
        &&& (!local_known.contains_key(path) && local_live) ==> is_md5_hex(after.local_md5->0@)
        &&& side_hash(remote_known, remote_live, path, hash_view(after.remote_md5))
        &&& after.status == hashed_status(hash_view(after.local_md5), hash_view(after.remote_md5))
    }
}

/// Whether the pass can resolve every hash of `entries` without live
/// access, so that nothing can fail.
pub open spec fn resolvable_offline(
    entries: Seq<DiffEntry>,
    local_known: Map<Seq<char>, Seq<char>>,
    remote_known: Map<Seq<char>, Seq<char>>,
    local_live: bool,
    remote_live: bool,
) -> bool {
    forall|i: int|
        0 <= i < entries.len() && (#[trigger] entries[i]).status == DiffStatus::Match ==> {
            &&& (local_known.contains_key(entries[i].relative_path@) || !local_live)
            &&& (remote_known.contains_key(entries[i].relative_path@) || !remote_live)
        }
}

/// Whether `h` traces to the server's answers for `path` among the calls
/// of `cc` from `c0` on: the hash the server offered, or the MD5 of what a
/// download of `path` gave.
pub open spec fn remote_hash_traced(h: Seq<char>, path: Seq<char>, cc: Seq<Call>, c0: int) -> bool {
    ||| logged_since(cc, c0, Call::TryHash(path, Some(h)))
    ||| exists|b: Seq<u8>|
        #[trigger] logged_since(cc, c0, Call::Retrieve(path, Ok(b))) && h == hex_lower(md5_digest(b))
}

/// Whether `h` is the MD5 of what a read of the local file `rel` gave,
/// among the calls of `ic` from `i0` on.
pub open spec fn local_hash_traced(h: Seq<char>, rel: Seq<char>, ic: Seq<Call>, i0: int) -> bool {
    exists|b: Seq<u8>|
        #[trigger] logged_since(ic, i0, Call::ReadFile(rel, Ok(b))) && h == hex_lower(md5_digest(b))
}

/// The progress messages among the calls `cs`, in order.
pub open spec fn progress_messages(cs: Seq<Call>) -> Seq<Seq<char>>
    decreases cs.len(),
{
    if cs.len() == 0 {
        Seq::empty()
    } else {
        let prev = progress_messages(cs.drop_last());
        match cs.last() {
            Call::Progress(m) => prev.push(m),
            _ => prev,
        }
    }
}

/// The progress message that the pass gives for one entry: `hash: <path>`
/// for a `Match` entry, none for any other.
pub open spec fn entry_messages(e: DiffEntry) -> Seq<Seq<char>> {
    if e.status == DiffStatus::Match {
        seq!["hash: "@ + e.relative_path@]
    } else {
        Seq::empty()
    }
}

/// The progress messages of a pass over `es`: one per `Match` entry, in
/// order.
pub open spec fn hash_pass_messages(es: Seq<DiffEntry>) -> Seq<Seq<char>>
    decreases es.len(),
{
    if es.len() == 0 {
        Seq::empty()
    } else {
        hash_pass_messages(es.drop_last()) + entry_messages(es.last())
    }
}

/// Whether no call of `cs` from position `from` on is a progress message.
pub open spec fn no_progress_since(cs: Seq<Call>, from: int) -> bool {
    forall|j: int| from <= j < cs.len() ==> !(#[trigger] cs[j] is Progress)
}

proof fn lemma_progress_messages_append(a: Seq<Call>, b: Seq<Call>)
    ensures
        progress_messages(a + b) == progress_messages(a) + progress_messages(b),
    decreases b.len(),
{
    if b.len() == 0 {
        assert(a + b =~= a);
        assert(progress_messages(a) + progress_messages(b) =~= progress_messages(a));
    } else {
        lemma_progress_messages_append(a, b.drop_last());
        assert((a + b).drop_last() =~= a + b.drop_last());
        assert((a + b).last() == b.last());
        match b.last() {
            Call::Progress(m) => {
                assert(progress_messages(a) + progress_messages(b.drop_last()).push(m)
                    =~= (progress_messages(a) + progress_messages(b.drop_last())).push(m));
            },
            _ => {},
        }
    }
}

proof fn lemma_no_progress_messages(cs: Seq<Call>)
    requires
        no_progress_since(cs, 0),
    ensures
        progress_messages(cs) == Seq::<Seq<char>>::empty(),
    decreases cs.len(),
{
    if cs.len() > 0 {
        assert(!(cs[cs.len() - 1] is Progress));
        lemma_no_progress_messages(cs.drop_last());
    }
}

/// The calls added after `before`, a single progress message `m` and then
/// no other, give exactly `m`.
proof fn lemma_one_progress(before: Seq<Call>, cs: Seq<Call>, m: Seq<char>)
    requires
        extends(cs, before.push(Call::Progress(m))),
        no_progress_since(cs, before.len() + 1int),
    ensures
        progress_messages(cs.skip(before.len() as int)) == seq![m],
{
    let rest = cs.skip(before.len() + 1int);
    assert(cs[before.len() as int] == Call::Progress(m)) by {
        assert(cs.take(before.len() + 1int)[before.len() as int] == Call::Progress(m));
    }
    assert(cs.skip(before.len() as int) =~= seq![Call::Progress(m)] + rest);
    assert(no_progress_since(rest, 0)) by {
        assert forall|j: int| 0 <= j < rest.len() implies !(#[trigger] rest[j] is Progress) by {
            assert(rest[j] == cs[before.len() + 1 + j]);
        }
    }
    lemma_no_progress_messages(rest);
    lemma_progress_messages_append(seq![Call::Progress(m)], rest);
    let one = seq![Call::Progress(m)];
    assert(one.drop_last() =~= Seq::<Call>::empty());
    assert(progress_messages(one.drop_last()) == Seq::<Seq<char>>::empty());
    assert(one.last() == Call::Progress(m));
    assert(progress_messages(one) =~= seq![m]);
}

proof fn lemma_skip_split(earlier: Seq<Call>, later: Seq<Call>, from: int)
    requires
        extends(later, earlier),
        0 <= from <= earlier.len(),
    ensures
        later.skip(from) == earlier.skip(from) + later.skip(earlier.len() as int),
{
    assert forall|k: int| 0 <= k < later.skip(from).len() implies #[trigger] later.skip(from)[k] == (
    earlier.skip(from) + later.skip(earlier.len() as int))[k] by {
        if from + k < earlier.len() {
            assert(later.take(earlier.len() as int)[from + k] == later[from + k]);
        }
    }
    assert(later.skip(from) =~= earlier.skip(from) + later.skip(earlier.len() as int));
}

/// Whether `cc` and `ic` are exactly the server and local calls that the
/// pass made for the entry `before`, which it turned into `after`: none for
/// an entry that is not `Match`; for a `Match` entry, on the server the
/// fetch of its hash (`hash_fetch_calls`) when the hash is not known and
/// the server is live, else none; locally its progress message, then one
/// read of its file when its hash is not known and the local side is live,
/// the hash being the MD5 of what the read gave.
pub open spec fn entry_calls(
    before: DiffEntry,
    after: DiffEntry,
    cc: Seq<Call>,
    ic: Seq<Call>,
    local_known: Map<Seq<char>, Seq<char>>,
    remote_known: Map<Seq<char>, Seq<char>>,
    local_live: bool,
    remote_live: bool,
    root: Seq<char>,
) -> bool {
    let path = before.relative_path@;
    if before.status != DiffStatus::Match {
        cc.len() == 0 && ic.len() == 0
    } else {
        &&& (remote_known.contains_key(path) || !remote_live) ==> cc.len() == 0
        &&& (!remote_known.contains_key(path) && remote_live) ==> (hash_view(after.remote_md5)
            matches Some(h) && hash_fetch_calls(cc, root + "/"@ + path, Ok(h)))
        &&& ic.len() >= 1
        &&& ic[0] == Call::Progress("hash: "@ + path)
        &&& (local_known.contains_key(path) || !local_live) ==> ic.len() == 1
        &&& (!local_known.contains_key(path) && local_live) ==> {
            &&& ic.len() == 2
            &&& ic[1] is ReadFile
            &&& ic[1]->ReadFile_0 == path
            &&& ic[1]->ReadFile_1 is Ok
            &&& hash_view(after.local_md5) == Some(hex_lower(md5_digest(ic[1]->ReadFile_1->Ok_0)))
        }
    }
}

/// Whether `cc` and `ic` are exactly the server and local calls that the
/// pass over `befores`, which it turned into `afters`, made: each entry's
/// calls as `entry_calls` states, in entry order, and no others.
pub open spec fn hash_pass_calls(
    cc: Seq<Call>,
    ic: Seq<Call>,
    befores: Seq<DiffEntry>,
    afters: Seq<DiffEntry>,
    local_known: Map<Seq<char>, Seq<char>>,
    remote_known: Map<Seq<char>, Seq<char>>,
    local_live: bool,
    remote_live: bool,
    root: Seq<char>,
) -> bool
    decreases befores.len(),
{
    if befores.len() == 0 {
        cc.len() == 0 && ic.len() == 0
    } else {
        exists|n: int, m: int|
            #![trigger cc.take(n), ic.take(m)]
            0 <= n <= cc.len() && 0 <= m <= ic.len() && entry_calls(
                befores.last(),
                afters.last(),
                cc.skip(n),
                ic.skip(m),
                local_known,
                remote_known,
                local_live,
                remote_live,
                root,
            ) && hash_pass_calls(
                cc.take(n),
                ic.take(m),
                befores.drop_last(),
                afters.drop_last(),
                local_known,
                remote_known,
                local_live,
                remote_live,
                root,
            )
    }
}

/// Whether the pass over `before` ended in the error `m` at the entry with
/// the path `path`: its download from `root/path` failed with `m`, the last
/// server call; or the read of its local file failed with `m`, the last
/// local call.
pub open spec fn failed_at(cc: Seq<Call>, ic: Seq<Call>, root: Seq<char>, path: Seq<char>, m: Seq<char>) -> bool {
    ||| (cc.len() > 0 && cc.last() == Call::Retrieve(root + "/"@ + path, Err(m)))
    ||| (ic.len() > 0 && ic.last() == Call::ReadFile(path, Err(m)))
}

/// The server root of the hash pass, or nothing.
pub open spec fn root_view(remote_root: Option<&str>) -> Seq<char> {
    match remote_root {
        Some(r) => r@,
        None => Seq::empty(),
    }
}

/// The calls recorded on an optional connection.
pub open spec fn opt_calls<C>(conn: Option<Logged<C>>) -> Seq<Call> {
    match conn {
        Some(c) => c.calls@,
        None => Seq::empty(),
    }
}

/// Where the hashes of a `Match` entry came from, over the connection calls
/// `cc` from `c0` on and the local calls `ic` from `i0` on: a progress
/// message `hash: <path>` was given; a live remote hash traces to the
/// server's answers for `root/<path>`; a live local hash is the MD5 of
/// what a read of `<path>` gave.
pub open spec fn hashes_traced(
    before: DiffEntry,
    after: DiffEntry,
    local_known: Map<Seq<char>, Seq<char>>,
    remote_known: Map<Seq<char>, Seq<char>>,
    local_live: bool,
    remote_live: bool,
    root: Seq<char>,
    cc: Seq<Call>,
    c0: int,
    ic: Seq<Call>,
    i0: int,
) -> bool {
    before.status == DiffStatus::Match ==> {
        let path = before.relative_path@;
        &&& logged_since(ic, i0, Call::Progress("hash: "@ + path))
        &&& (!remote_known.contains_key(path) && remote_live) ==> remote_hash_traced(
            after.remote_md5->0@,
            root + "/"@ + path,
            cc,
            c0,
        )
        &&& (!local_known.contains_key(path) && local_live) ==> local_hash_traced(
            after.local_md5->0@,
            path,
            ic,
            i0,
        )
    }
}

proof fn lemma_remote_traced_grows(h: Seq<char>, path: Seq<char>, cc: Seq<Call>, c0: int, cc2: Seq<Call>, c02: int)
    requires
        remote_hash_traced(h, path, cc, c0),
        extends(cc2, cc),
        0 <= c02 <= c0,
    ensures
        remote_hash_traced(h, path, cc2, c02),
{
    if logged_since(cc, c0, Call::TryHash(path, Some(h))) {
        lemma_logged_grows(cc, cc2, c0, Call::TryHash(path, Some(h)));
        lemma_logged_from(cc2, c0, c02, Call::TryHash(path, Some(h)));
    } else {
        let b = choose|b: Seq<u8>|
            #[trigger] logged_since(cc, c0, Call::Retrieve(path, Ok(b))) && h == hex_lower(
                md5_digest(b),
            );
        lemma_logged_grows(cc, cc2, c0, Call::Retrieve(path, Ok(b)));
        lemma_logged_from(cc2, c0, c02, Call::Retrieve(path, Ok(b)));
    }
}

proof fn lemma_local_traced_grows(h: Seq<char>, rel: Seq<char>, ic: Seq<Call>, i0: int, ic2: Seq<Call>, i02: int)
    requires
        local_hash_traced(h, rel, ic, i0),
        extends(ic2, ic),
        0 <= i02 <= i0,
    ensures
        local_hash_traced(h, rel, ic2, i02),
{
    let b = choose|b: Seq<u8>|
        #[trigger] logged_since(ic, i0, Call::ReadFile(rel, Ok(b))) && h == hex_lower(md5_digest(b));
    lemma_logged_grows(ic, ic2, i0, Call::ReadFile(rel, Ok(b)));
    lemma_logged_from(ic2, i0, i02, Call::ReadFile(rel, Ok(b)));
}

proof fn lemma_hashes_traced_grows(
    before: DiffEntry,
    after: DiffEntry,
    lk: Map<Seq<char>, Seq<char>>,
    rk: Map<Seq<char>, Seq<char>>,
    local_live: bool,
    remote_live: bool,
    root: Seq<char>,
    cc: Seq<Call>,
    c0: int,
    ic: Seq<Call>,
    i0: int,
    cc2: Seq<Call>,
    c02: int,
    ic2: Seq<Call>,
    i02: int,
)
    requires
        hashes_traced(before, after, lk, rk, local_live, remote_live, root, cc, c0, ic, i0),
        extends(cc2, cc),
        extends(ic2, ic),
        0 <= c02 <= c0,
        0 <= i02 <= i0,
    ensures
        hashes_traced(before, after, lk, rk, local_live, remote_live, root, cc2, c02, ic2, i02),
{
    if before.status == DiffStatus::Match {
        let path = before.relative_path@;
        lemma_logged_grows(ic, ic2, i0, Call::Progress("hash: "@ + path));
        lemma_logged_from(ic2, i0, i02, Call::Progress("hash: "@ + path));
        if !rk.contains_key(path) && remote_live {
            lemma_remote_traced_grows(after.remote_md5->0@, root + "/"@ + path, cc, c0, cc2, c02);
        }
        if !lk.contains_key(path) && local_live {
            lemma_local_traced_grows(after.local_md5->0@, path, ic, i0, ic2, i02);
        }
    }
}

proof fn lemma_fetch_traced(before: Seq<Call>, after: Seq<Call>, path: Seq<char>, h: Seq<char>, c0: int)
    requires
        extends(after, before),
        0 <= c0 <= before.len(),
        hash_fetch_calls(after.skip(before.len() as int), path, Ok::<Seq<char>, Seq<char>>(h)),
    ensures
        remote_hash_traced(h, path, after, c0),
{
    let cs = after.skip(before.len() as int);
    let n = before.len() as int;
    if cs.len() == 1 {
        assert(after[n] == cs[0]);
        assert(logged_since(after, c0, Call::TryHash(path, Some(h))));
    } else {
        assert(after[n + 1] == cs[1]);
        let a = cs[1]->Retrieve_1;
        let b = a->Ok_0;
        assert(cs[1] == Call::Retrieve(path, Ok::<Seq<u8>, Seq<char>>(b)));
        assert(logged_since(after, c0, Call::Retrieve(path, Ok(b))));
    }
}

fn local_hash<H: HashPassIo>(io: &mut Logged<H>, known: &KnownMd5, local_live: bool, path: &str) -> (r:
    Result<Option<String>, String>)
    ensures
        extends(final(io).calls@, old(io).calls@),
        !known@.contains_key(path@) && local_live ==> (r matches Ok(h) ==> (h matches Some(x)
            && is_md5_hex(x@) && local_hash_traced(
            x@,
            path@,
            final(io).calls@,
            old(io).calls@.len() as int,
        ))),
        r matches Ok(h) ==> side_hash(known@, local_live, path@, hash_view(h)),
        known@.contains_key(path@) || !local_live ==> r is Ok,
        no_progress_since(final(io).calls@, old(io).calls@.len() as int),
        known@.contains_key(path@) || !local_live ==> final(io).calls@ == old(io).calls@,
        !known@.contains_key(path@) && local_live ==> {
            &&& final(io).calls@.drop_last() == old(io).calls@
            &&& final(io).calls@.len() == old(io).calls@.len() + 1
            &&& final(io).calls@.last() is ReadFile
            &&& final(io).calls@.last()->ReadFile_0 == path@
            &&& (r matches Err(m) ==> final(io).calls@.last()->ReadFile_1 == Err::<Seq<u8>, Seq<char>>(
                m@,
            ))
            &&& (r is Ok ==> final(io).calls@.last()->ReadFile_1 is Ok && hash_view(r->Ok_0) == Some(
                hex_lower(md5_digest(final(io).calls@.last()->ReadFile_1->Ok_0)),
            ))
        },
{
    let ghost i0 = io.calls@;
    proof {
        lemma_extends_refl(i0);
    }
    match hash_source(known, local_live, path) {
        HashSource::Known(h) => Ok(Some(h)),
        HashSource::Live => {
            let read = io.read_local_file(path);
            proof {
                lemma_logged_last(i0, Call::ReadFile(path@, local_bytes_answer(read)), i0.len() as int);
            }
            let bytes = match read {
                Ok(b) => b,
                Err(e) => {
                    return Err(e);
                },
            };
            let h = md5_hex(bytes.as_slice());
            assert(h@ == hex_lower(md5_digest(bytes@)));
            assert(logged_since(io.calls@, i0.len() as int, Call::ReadFile(path@, Ok(bytes@))));
            Ok(Some(h))
        },
        HashSource::Unresolved => Ok(None),
    }
}

/// Hashes one entry as the pass does (see `apply_hash_comparison`); a
/// failed download or read leaves the entry untouched.
fn hash_entry<C: FtpConnection, H: HashPassIo>(
    conn: &mut Option<Logged<C>>,
    remote_root: Option<&str>,
    local_live: bool,
    io: &mut Logged<H>,
    local_known_md5: &KnownMd5,
    remote_known_md5: &KnownMd5,
    entry: &mut DiffEntry,
) -> (r: Result<(), String>)
    ensures
        (*final(conn) is Some) == (*old(conn) is Some),
        extends(opt_calls(*final(conn)), opt_calls(*old(conn))),
        extends(final(io).calls@, old(io).calls@),
        r is Ok ==> hashed_entry(
            *old(entry),
            *final(entry),
            local_known_md5@,
            remote_known_md5@,
            local_live,
            *old(conn) is Some && remote_root is Some,
        ),
        r is Ok ==> hashes_traced(
            *old(entry),
            *final(entry),
            local_known_md5@,
            remote_known_md5@,
            local_live,
            *old(conn) is Some && remote_root is Some,
            root_view(remote_root),
            opt_calls(*final(conn)),
            opt_calls(*old(conn)).len() as int,
            final(io).calls@,
            old(io).calls@.len() as int,
        ),
        r is Err ==> *final(entry) == *old(entry) && old(entry).status == DiffStatus::Match,
        progress_messages(final(io).calls@.skip(old(io).calls@.len() as int)) == entry_messages(
            *old(entry),
        ),
        old(entry).status != DiffStatus::Match ==> opt_calls(*final(conn)) == opt_calls(*old(conn))
            && final(io).calls@ == old(io).calls@,
        r is Ok ==> entry_calls(
            *old(entry),
            *final(entry),
            opt_calls(*final(conn)).skip(opt_calls(*old(conn)).len() as int),
            final(io).calls@.skip(old(io).calls@.len() as int),
            local_known_md5@,
            remote_known_md5@,
            local_live,
            *old(conn) is Some && remote_root is Some,
            root_view(remote_root),
        ),
        r matches Err(m) ==> failed_at(
            opt_calls(*final(conn)),
            final(io).calls@,
            root_view(remote_root),
            old(entry).relative_path@,
            m@,
        ),
        (old(entry).status == DiffStatus::Match ==> {
            &&& (local_known_md5@.contains_key(old(entry).relative_path@) || !local_live)
            &&& (remote_known_md5@.contains_key(old(entry).relative_path@) || !(*old(conn) is Some
                && remote_root is Some))
        }) ==> r is Ok,
{
    let ghost cc0 = opt_calls(*conn);
    let ghost ic0 = io.calls@;
    proof {
        lemma_extends_refl(cc0);
        lemma_extends_refl(ic0);
    }
    if !hash_applies(entry) {
        assert(io.calls@.skip(ic0.len() as int) =~= Seq::<Call>::empty());
        assert(cc0.skip(cc0.len() as int) =~= Seq::<Call>::empty());
        return Ok(());
    }
    let path = entry.relative_path.clone();
    let message = hash_progress_message(path.as_str());
    io.progress(message.as_str());
    let ghost ic1 = io.calls@;
    proof {
        lemma_logged_last(ic0, Call::Progress(message@), ic0.len() as int);
    }
    let mut slot: Option<Logged<C>> = None;
    std::mem::swap(&mut slot, conn);
    let remote_live = slot.is_some() && remote_root.is_some();
    let remote_md5 = match hash_source(remote_known_md5, remote_live, path.as_str()) {
        HashSource::Known(h) => Some(h),
        HashSource::Live => match (&mut slot, remote_root) {
            (Some(c), Some(root)) => {
                let fetched = fetch_remote_md5(c, root, path.as_str());
                match fetched {
                    Ok(h) => {
                        proof {
                            lemma_fetch_traced(cc0, c.calls@, root@ + "/"@ + path@, h@, cc0.len() as int);
                        }
                        Some(h)
                    },
                    Err(e) => {
                        std::mem::swap(&mut slot, conn);
                        proof {
                            lemma_extends_refl(io.calls@);
                            lemma_one_progress(ic0, io.calls@, message@);
                        }
                        return Err(e.0);
                    },
                }
            },
            _ => None,
        },
        HashSource::Unresolved => None,
    };
    std::mem::swap(&mut slot, conn);
    let local_read = local_hash(io, local_known_md5, local_live, path.as_str());
    proof {
        lemma_extends_trans(ic0, ic1, io.calls@);
    }
    proof {
        lemma_one_progress(ic0, io.calls@, message@);
    }
    let local_md5 = match local_read {
        Ok(h) => h,
        Err(e) => {
            return Err(e);
        },
    };
    proof {
        let added = io.calls@.skip(ic0.len() as int);
        if local_known_md5@.contains_key(path@) || !local_live {
            assert(added =~= seq![Call::Progress(message@)]);
        } else {
            assert(added =~= seq![Call::Progress(message@), io.calls@.last()]);
        }
        lemma_extends_refl(io.calls@);
        lemma_logged_grows(ic1, io.calls@, ic0.len() as int, Call::Progress(message@));
        if local_known_md5@.contains_key(path@) || !local_live {
        } else {
            let x = local_md5->0@;
            lemma_local_traced_grows(x, path@, io.calls@, ic1.len() as int, io.calls@, ic0.len() as int);
        }
    }
    finish_hash_entry(entry, local_md5, remote_md5);
    Ok(())
}

/// For every entry currently marked `Match`, resolves and compares each
/// side's MD5 hash, updating `status` to `Match` or `HashMismatch` (only
/// when both sides' hashes could be resolved) and filling in whichever of
/// `local_md5`/`remote_md5` were resolved. Entries with any other status
/// are untouched.
///
/// Each side's hash is resolved in this order: the known hash first (e.g.
/// recycled from a CSV source); then, if that side has a live source
/// (`conn` and `remote_root` for remote, `local_live` for local, read
/// through `io`), fetched live: the server's own hash for
/// `remote_root/<path>` or the MD5 of its download, and the MD5 of the
/// local file read. If neither is available for a side, that side's hash
/// stays unresolved and the entry's status is left unchanged. `io`
/// receives the progress message `hash: <path>` for every `Match` entry,
/// in order, and no other; with no `Match` entry nothing is called at all.
///
/// A failed download or read ends the pass with its error text (`failed_at`:
/// that failed call is the last one of its side); the entries before it
/// have been hashed, the others are untouched. On success the calls made
/// are exactly, entry after entry, those that `entry_calls` states: a known
/// hash needs no call, the server is asked for its hash before a download,
/// and an entry that is not `Match` gets no call.
pub fn apply_hash_comparison<C: FtpConnection, H: HashPassIo>(
    conn: &mut Option<Logged<C>>,
    remote_root: Option<&str>,
    local_live: bool,
    io: &mut Logged<H>,
    local_known_md5: &KnownMd5,
    remote_known_md5: &KnownMd5,
    entries: &mut [DiffEntry],
) -> (r: Result<(), String>)
    ensures
        final(entries)@.len() == old(entries)@.len(),
        (*final(conn) is Some) == (*old(conn) is Some),
        extends(opt_calls(*final(conn)), opt_calls(*old(conn))),
        extends(final(io).calls@, old(io).calls@),
        r is Ok ==> forall|i: int|
            0 <= i < old(entries)@.len() ==> hashed_entry(
                #[trigger] old(entries)@[i],
                final(entries)@[i],
                local_known_md5@,
                remote_known_md5@,
                local_live,
                *old(conn) is Some && remote_root is Some,
            ),
        r is Ok ==> forall|i: int|
            0 <= i < old(entries)@.len() ==> hashes_traced(
                #[trigger] old(entries)@[i],
                final(entries)@[i],
                local_known_md5@,
                remote_known_md5@,
                local_live,
                *old(conn) is Some && remote_root is Some,
                root_view(remote_root),
                opt_calls(*final(conn)),
                opt_calls(*old(conn)).len() as int,
                final(io).calls@,
                old(io).calls@.len() as int,
            ),
        r is Ok ==> hash_pass_calls(
            opt_calls(*final(conn)).skip(opt_calls(*old(conn)).len() as int),
            final(io).calls@.skip(old(io).calls@.len() as int),
            old(entries)@,
            final(entries)@,
            local_known_md5@,
            remote_known_md5@,
            local_live,
            *old(conn) is Some && remote_root is Some,
            root_view(remote_root),
        ),
        r matches Err(m) ==> exists|k: int|
            0 <= k < old(entries)@.len() && (#[trigger] old(entries)@[k]).status == DiffStatus::Match
                && failed_at(
                opt_calls(*final(conn)),
                final(io).calls@,
                root_view(remote_root),
                old(entries)@[k].relative_path@,
                m@,
            )
                && (forall|i: int|
                0 <= i < k ==> hashed_entry(
                    #[trigger] old(entries)@[i],
                    final(entries)@[i],
                    local_known_md5@,
                    remote_known_md5@,
                    local_live,
                    *old(conn) is Some && remote_root is Some,
                )) && (forall|i: int|
                k <= i < old(entries)@.len() ==> #[trigger] final(entries)@[i] == old(entries)@[i]),
        resolvable_offline(
            old(entries)@,
            local_known_md5@,
            remote_known_md5@,
            local_live,
            *old(conn) is Some && remote_root is Some,
        ) ==> r is Ok,
        r is Ok ==> progress_messages(final(io).calls@.skip(old(io).calls@.len() as int))
            == hash_pass_messages(old(entries)@),
        (forall|i: int|
            0 <= i < old(entries)@.len() ==> (#[trigger] old(entries)@[i]).status
                != DiffStatus::Match) ==> opt_calls(*final(conn)) == opt_calls(*old(conn))
            && final(io).calls@ == old(io).calls@,
{
    let ghost remote_live = *conn is Some && remote_root is Some;
    let ghost start = entries@;
    let ghost cc0 = opt_calls(*conn);
    let ghost ic0 = io.calls@;
    proof {
        lemma_extends_refl(cc0);
        lemma_extends_refl(ic0);
    }
    let n = entries.len();
    let mut i: usize = 0;
    let mut result: Result<(), String> = Ok(());
    proof {
        assert(ic0.skip(ic0.len() as int) =~= Seq::<Call>::empty());
        assert(start.take(0) =~= Seq::<DiffEntry>::empty());
        assert(entries@.take(0) =~= Seq::<DiffEntry>::empty());
        assert(cc0.skip(cc0.len() as int) =~= Seq::<Call>::empty());
    }
    while i < n && result.is_ok()
        invariant
            start == old(entries)@,
            n == start.len(),
            entries@.len() == n,
            i <= n,
            cc0 == opt_calls(*old(conn)),
            ic0 == old(io).calls@,
            remote_live == (*old(conn) is Some && remote_root is Some),
            (*conn is Some) == (*old(conn) is Some),
            extends(opt_calls(*conn), cc0),
            extends(io.calls@, ic0),
            forall|j: int|
                0 <= j < i ==> hashed_entry(
                    #[trigger] start[j],
                    entries@[j],
                    local_known_md5@,
                    remote_known_md5@,
                    local_live,
                    remote_live,
                ),
            forall|j: int|
                0 <= j < i ==> hashes_traced(
                    #[trigger] start[j],
                    entries@[j],
                    local_known_md5@,
                    remote_known_md5@,
                    local_live,
                    remote_live,
                    root_view(remote_root),
                    opt_calls(*conn),
                    cc0.len() as int,
                    io.calls@,
                    ic0.len() as int,
                ),
            forall|j: int| i <= j < n ==> #[trigger] entries@[j] == start[j],
            result is Ok ==> progress_messages(io.calls@.skip(ic0.len() as int))
                == hash_pass_messages(start.take(i as int)),
            result is Ok && (forall|j: int|
                0 <= j < i ==> (#[trigger] start[j]).status != DiffStatus::Match) ==> opt_calls(
                *conn,
            ) == cc0 && io.calls@ == ic0,
            result is Ok ==> hash_pass_calls(
                opt_calls(*conn).skip(cc0.len() as int),
                io.calls@.skip(ic0.len() as int),
                start.take(i as int),
                entries@.take(i as int),
                local_known_md5@,
                remote_known_md5@,
                local_live,
                remote_live,
                root_view(remote_root),
            ),
            result matches Err(m) ==> failed_at(
                opt_calls(*conn),
                io.calls@,
                root_view(remote_root),
                start[i as int].relative_path@,
                m@,
            ),
            result is Err ==> {
                &&& i < n
                &&& start[i as int].status == DiffStatus::Match
                &&& !resolvable_offline(
                    start,
                    local_known_md5@,
                    remote_known_md5@,
                    local_live,
                    remote_live,
                )
            },
        decreases 2 * (n - i) + if result is Ok { 1int } else { 0int },
    {
        let ghost before = entries@;
        let ghost cb = opt_calls(*conn);
        let ghost ib = io.calls@;
        let step = hash_entry(
            conn,
            remote_root,
            local_live,
            io,
            local_known_md5,
            remote_known_md5,
            &mut entries[i],
        );
        assert(entries@ =~= before.update(i as int, entries@[i as int]));
        proof {
            lemma_extends_trans(cc0, cb, opt_calls(*conn));
            lemma_extends_trans(ic0, ib, io.calls@);
            assert forall|j: int| 0 <= j < i implies hashes_traced(
                #[trigger] start[j],
                entries@[j],
                local_known_md5@,
                remote_known_md5@,
                local_live,
                remote_live,
                root_view(remote_root),
                opt_calls(*conn),
                cc0.len() as int,
                io.calls@,
                ic0.len() as int,
            ) by {
                assert(entries@[j] == before[j]);
                lemma_hashes_traced_grows(
                    start[j],
                    before[j],
                    local_known_md5@,
                    remote_known_md5@,
                    local_live,
                    remote_live,
                    root_view(remote_root),
                    cb,
                    cc0.len() as int,
                    ib,
                    ic0.len() as int,
                    opt_calls(*conn),
                    cc0.len() as int,
                    io.calls@,
                    ic0.len() as int,
                );
            }
        }
        if step.is_err() {
            proof {
                let k = i as int;
                assert(entries@ =~= before);
                if resolvable_offline(
                    start,
                    local_known_md5@,
                    remote_known_md5@,
                    local_live,
                    remote_live,
                ) {
                    assert(start[k].status == DiffStatus::Match);
                }
            }
            result = step;
        } else {
            proof {
                let ca = opt_calls(*conn).skip(cc0.len() as int);
                let ia = io.calls@.skip(ic0.len() as int);
                let nn = cb.len() - cc0.len();
                let mm = ib.len() - ic0.len();
                lemma_skip_split(cb, opt_calls(*conn), cc0.len() as int);
                lemma_skip_split(ib, io.calls@, ic0.len() as int);
                assert(ca.take(nn) =~= cb.skip(cc0.len() as int));
                assert(ia.take(mm) =~= ib.skip(ic0.len() as int));
                assert(ca.skip(nn) =~= opt_calls(*conn).skip(cb.len() as int));
                assert(ia.skip(mm) =~= io.calls@.skip(ib.len() as int));
                assert(start.take(i + 1).last() == start[i as int]);
                assert(start.take(i + 1).drop_last() =~= start.take(i as int));
                assert(entries@.take(i + 1).drop_last() =~= before.take(i as int));
                assert(before[i as int] == start[i as int]);
                assert(entry_calls(
                    start[i as int],
                    entries@[i as int],
                    ca.skip(nn),
                    ia.skip(mm),
                    local_known_md5@,
                    remote_known_md5@,
                    local_live,
                    remote_live,
                    root_view(remote_root),
                ));
                assert(hash_pass_calls(
                    ca.take(nn),
                    ia.take(mm),
                    start.take(i as int),
                    before.take(i as int),
                    local_known_md5@,
                    remote_known_md5@,
                    local_live,
                    remote_live,
                    root_view(remote_root),
                ));
                assert(entries@.take(i + 1).last() == entries@[i as int]);
                assert(hash_pass_calls(
                    ca,
                    ia,
                    start.take(i + 1),
                    entries@.take(i + 1),
                    local_known_md5@,
                    remote_known_md5@,
                    local_live,
                    remote_live,
                    root_view(remote_root),
                ));
                lemma_progress_messages_append(ib.skip(ic0.len() as int), io.calls@.skip(ib.len() as int));
                assert(start.take(i + 1).drop_last() =~= start.take(i as int));
                assert(before[i as int] == start[i as int]);
                if forall|j: int| 0 <= j < i + 1 ==> (#[trigger] start[j]).status != DiffStatus::Match {
                    assert(start[i as int].status != DiffStatus::Match);
                }
                lemma_extends_refl(opt_calls(*conn));
                lemma_extends_refl(io.calls@);
                lemma_hashes_traced_grows(
                    start[i as int],
                    entries@[i as int],
                    local_known_md5@,
                    remote_known_md5@,
                    local_live,
                    remote_live,
                    root_view(remote_root),
                    opt_calls(*conn),
                    cb.len() as int,
                    io.calls@,
                    ib.len() as int,
                    opt_calls(*conn),
                    cc0.len() as int,
                    io.calls@,
                    ic0.len() as int,
                );
            }
            i = i + 1;
        }
    }
    proof {
        if result is Ok {
            assert(start.take(n as int) =~= start);
            assert(entries@.take(n as int) =~= entries@);
        }
    }
    result
}

/// Whether `after` is `before` with only its local hash changed.
pub open spec fn same_but_local_hash(before: DiffEntry, after: DiffEntry) -> bool {
    &&& after.relative_path@ == before.relative_path@
    &&& after.status == before.status
    &&& after.local_size == before.local_size
    &&& after.remote_size == before.remote_size
    &&& hash_view(after.remote_md5) == hash_view(before.remote_md5)
}

/// Whether `after` is `before` with only its remote hash changed.
pub open spec fn same_but_remote_hash(before: DiffEntry, after: DiffEntry) -> bool {
    &&& after.relative_path@ == before.relative_path@
    &&& after.status == before.status
    &&& after.local_size == before.local_size
    &&& after.remote_size == before.remote_size
    &&& hash_view(after.local_md5) == hash_view(before.local_md5)
}

/// Whether a local hash pass over `before` stopped at entry `k`: the
/// entries before it have an MD5, it and the later ones are untouched.
pub open spec fn local_hashes_stop_at(before: Seq<DiffEntry>, after: Seq<DiffEntry>, k: int) -> bool {
    &&& 0 <= k < before.len()
    &&& forall|i: int|
        0 <= i < k ==> ((#[trigger] after[i]).local_md5 matches Some(h) && is_md5_hex(h@))
    &&& forall|i: int| k <= i < before.len() ==> #[trigger] after[i] == before[i]
}

/// Whether a remote hash pass over `before` stopped at entry `k`: the
/// entries before it have a hash, it and the later ones are untouched.
pub open spec fn remote_hashes_stop_at(before: Seq<DiffEntry>, after: Seq<DiffEntry>, k: int) -> bool {
    &&& 0 <= k < before.len()
    &&& forall|i: int| 0 <= i < k ==> (#[trigger] after[i]).remote_md5 is Some
    &&& forall|i: int| k <= i < before.len() ==> #[trigger] after[i] == before[i]
}

/// Records the MD5 of each scanned local file (`--build --hash`), read
/// through `io`, in order. A failed read ends the call with its error
/// text: the entries before it have their hashes, the others are
/// untouched. Nothing but the local hashes changes; after success every
/// entry has the MD5 of what a read of its file gave. With no entries
/// nothing is read and the call succeeds.
pub fn record_local_hashes<H: HashPassIo>(io: &mut Logged<H>, entries: &mut [DiffEntry]) -> (r: Result<
    (),
    String,
>)
    ensures
        final(entries)@.len() == old(entries)@.len(),
        extends(final(io).calls@, old(io).calls@),
        forall|i: int|
            0 <= i < old(entries)@.len() ==> same_but_local_hash(
                #[trigger] old(entries)@[i],
                final(entries)@[i],
            ),
        r is Ok ==> forall|i: int|
            0 <= i < old(entries)@.len() ==> ((#[trigger] final(entries)@[i]).local_md5 matches Some(
                h,
            ) && is_md5_hex(h@) && local_hash_traced(
                h@,
                old(entries)@[i].relative_path@,
                final(io).calls@,
                old(io).calls@.len() as int,
            )),
        r is Err ==> exists|k: int| #[trigger] local_hashes_stop_at(old(entries)@, final(entries)@, k),
        old(entries)@.len() == 0 ==> r is Ok,
{
    let ghost start = entries@;
    let ghost i0 = io.calls@;
    proof {
        lemma_extends_refl(i0);
    }
    let n = entries.len();
    let mut i: usize = 0;
    while i < n
        invariant
            start == old(entries)@,
            i0 == old(io).calls@,
            extends(io.calls@, i0),
            n == start.len(),
            entries@.len() == n,
            i <= n,
            forall|j: int| 0 <= j < n ==> same_but_local_hash(#[trigger] start[j], entries@[j]),
            forall|j: int|
                0 <= j < i ==> ((#[trigger] entries@[j]).local_md5 matches Some(h) && is_md5_hex(h@)
                    && local_hash_traced(h@, start[j].relative_path@, io.calls@, i0.len() as int)),
            forall|j: int| i <= j < n ==> #[trigger] entries@[j] == start[j],
        decreases n - i,
    {
        let ghost ib = io.calls@;
        let read = io.read_local_file(entries[i].relative_path.as_str());
        proof {
            lemma_logged_last(ib, io.calls@.last(), i0.len() as int);
            lemma_extends_trans(i0, ib, io.calls@);
            assert forall|j: int| 0 <= j < i implies ((#[trigger] entries@[j]).local_md5 matches Some(h)
                && is_md5_hex(h@) && local_hash_traced(h@, start[j].relative_path@, io.calls@, i0.len() as int)) by {
                let h = entries@[j].local_md5->0@;
                lemma_local_traced_grows(h, start[j].relative_path@, ib, i0.len() as int, io.calls@, i0.len() as int);
            }
        }
        let bytes = match read {
            Ok(b) => b,
            Err(e) => {
                assert(local_hashes_stop_at(start, entries@, i as int));
                return Err(e);
            },
        };
        let h = md5_hex(bytes.as_slice());
        assert(h@ == hex_lower(md5_digest(bytes@)));
        assert(logged_since(io.calls@, i0.len() as int, Call::ReadFile(start[i as int].relative_path@, Ok(bytes@))));
        let ghost before = entries@;
        entries[i].local_md5 = Some(h);
        assert(forall|j: int| 0 <= j < n && j != i ==> entries@[j] == before[j]);
        i = i + 1;
    }
    Ok(())
}

/// Records the hash of each scanned remote file `remote_root/path`
/// (`--build --hash`), fetched as `fetch_remote_md5` does, in order. A
/// failed download ends the call with its error: the entries before it
/// have their hashes, the others are untouched. Nothing but the remote
/// hashes changes; after success every entry has the hash that the
/// server's answers for its path give. With no entries nothing is fetched
/// and the call succeeds.
pub fn record_remote_hashes<C: FtpConnection>(
    conn: &mut Logged<C>,
    remote_root: &str,
    entries: &mut [DiffEntry],
) -> (r: Result<(), FtpConnectionError>)
    ensures
        final(entries)@.len() == old(entries)@.len(),
        extends(final(conn).calls@, old(conn).calls@),
        forall|i: int|
            0 <= i < old(entries)@.len() ==> same_but_remote_hash(
                #[trigger] old(entries)@[i],
                final(entries)@[i],
            ),
        r is Ok ==> forall|i: int|
            0 <= i < old(entries)@.len() ==> ((#[trigger] final(entries)@[i]).remote_md5 is Some
                && remote_hash_traced(
                final(entries)@[i].remote_md5->0@,
                remote_root@ + "/"@ + old(entries)@[i].relative_path@,
                final(conn).calls@,
                old(conn).calls@.len() as int,
            )),
        r is Err ==> exists|k: int| #[trigger] remote_hashes_stop_at(old(entries)@, final(entries)@, k),
        old(entries)@.len() == 0 ==> r is Ok,
{
    let ghost start = entries@;
    let ghost c0 = conn.calls@;
    proof {
        lemma_extends_refl(c0);
    }
    let n = entries.len();
    let mut i: usize = 0;
    while i < n
        invariant
            start == old(entries)@,
            c0 == old(conn).calls@,
            extends(conn.calls@, c0),
            n == start.len(),
            entries@.len() == n,
            i <= n,
            forall|j: int| 0 <= j < n ==> same_but_remote_hash(#[trigger] start[j], entries@[j]),
            forall|j: int|
                0 <= j < i ==> ((#[trigger] entries@[j]).remote_md5 is Some && remote_hash_traced(
                    entries@[j].remote_md5->0@,
                    remote_root@ + "/"@ + start[j].relative_path@,
                    conn.calls@,
                    c0.len() as int,
                )),
            forall|j: int| i <= j < n ==> #[trigger] entries@[j] == start[j],
        decreases n - i,
    {
        let ghost cb = conn.calls@;
        let fetched = fetch_remote_md5(conn, remote_root, entries[i].relative_path.as_str());
        proof {
            lemma_extends_trans(c0, cb, conn.calls@);
            assert forall|j: int| 0 <= j < i implies ((#[trigger] entries@[j]).remote_md5 is Some
                && remote_hash_traced(
                entries@[j].remote_md5->0@,
                remote_root@ + "/"@ + start[j].relative_path@,
                conn.calls@,
                c0.len() as int,
            )) by {
                lemma_remote_traced_grows(
                    entries@[j].remote_md5->0@,
                    remote_root@ + "/"@ + start[j].relative_path@,
                    cb,
                    c0.len() as int,
                    conn.calls@,
                    c0.len() as int,
                );
            }
        }
        let h = match fetched {
            Ok(h) => h,
            Err(e) => {
                assert(remote_hashes_stop_at(start, entries@, i as int));
                return Err(e);
            },
        };
        proof {
            lemma_fetch_traced(cb, conn.calls@, remote_root@ + "/"@ + start[i as int].relative_path@, h@, c0.len() as int);
        }
        let ghost before = entries@;
        entries[i].remote_md5 = Some(h);
        assert(forall|j: int| 0 <= j < n && j != i ==> entries@[j] == before[j]);
        i = i + 1;
    }
    Ok(())
}

} // verus!
