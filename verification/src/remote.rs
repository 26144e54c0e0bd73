//! Remote directory walking over an abstract `FtpConnection`, so the
//! comparison logic never depends directly on a concrete FTP library.

use vstd::prelude::*;
use crate::exclude::{excluded_by, is_excluded, patterns_view};
use crate::logged::{extends, Call, Logged};
use crate::text::{owned, push_str};

verus! {

/// One entry as reported by a single remote directory listing (before
/// recursion resolves it into a full relative path).
#[derive(Debug, Clone)]
pub struct RawRemoteEntry {
    pub name: String,
    pub is_dir: bool,
    pub size: u64,
}

/// A file found while recursively walking the remote directory tree.
#[derive(Debug, Clone, PartialEq)]
pub struct RemoteEntry {
    pub relative_path: String,
    pub size: u64,
}

/// Error from any FTP operation, wrapping the underlying client's error text.
#[derive(Debug)]
pub struct FtpConnectionError(pub String);

impl FtpConnectionError {
    /// The error text, as the error displays it.
    pub fn message(&self) -> (r: &str)
        ensures
            r@ == self.0@,
    {
        self.0.as_str()
    }
}

/// Abstraction over an FTP/FTPS connection, so directory walking, hashing
/// and copy/delete operations can be exercised without a real network
/// connection. Nothing is assumed of what an implementation returns.
pub trait FtpConnection {
    /// Lists the direct children of `path` (files and directories).
    fn list_dir(&mut self, path: &str) -> Result<Vec<RawRemoteEntry>, FtpConnectionError>;

    /// Attempts to get a server-computed hash for `path` without
    /// downloading it. Returns `None` if the server doesn't support it.
    fn try_hash(&mut self, path: &str) -> Option<String>;

    /// Downloads the full contents of `path` into memory.
    fn retr_to_buffer(&mut self, path: &str) -> Result<Vec<u8>, FtpConnectionError>;

    /// Uploads `data` to `path`, replacing any existing file.
    fn store_from_buffer(&mut self, path: &str, data: &[u8]) -> Result<(), FtpConnectionError>;

    /// Deletes the file at `path`.
    fn delete(&mut self, path: &str) -> Result<(), FtpConnectionError>;

    /// Creates the directory `path` (its parent must exist).
    fn create_dir(&mut self, path: &str) -> Result<(), FtpConnectionError>;
}


/// The plain values of remote entries: path and size.
pub open spec fn remote_view(es: Seq<RemoteEntry>) -> Seq<(Seq<char>, u64)> {
    es.map_values(|e: RemoteEntry| (e.relative_path@, e.size))
}

/// The path of `name` inside the directory `dir`, both relative to the walk
/// root (`""` is the root itself).
pub open spec fn child_path(dir: Seq<char>, name: Seq<char>) -> Seq<char> {
    if dir.len() == 0 {
        name
    } else {
        dir + "/"@ + name
    }
}

/// The relative paths of the directories in a listing of `dir`, in order.
pub open spec fn listing_dirs(dir: Seq<char>, items: Seq<RawRemoteEntry>) -> Seq<Seq<char>>
    decreases items.len(),
{
    if items.len() == 0 {
        Seq::empty()
    } else {
        let prev = listing_dirs(dir, items.drop_last());
        if items.last().is_dir {
            prev.push(child_path(dir, items.last().name@))
        } else {
            prev
        }
    }
}

/// The files in a listing of `dir` that no pattern excludes, as relative
/// path and size, in order.
pub open spec fn listing_files(
    dir: Seq<char>,
    items: Seq<RawRemoteEntry>,
    excludes: Seq<Seq<char>>,
) -> Seq<(Seq<char>, u64)>
    decreases items.len(),
{
    if items.len() == 0 {
        Seq::empty()
    } else {
        let prev = listing_files(dir, items.drop_last(), excludes);
        let it = items.last();
        if !it.is_dir && !excluded_by(child_path(dir, it.name@), excludes) {
            prev.push((child_path(dir, it.name@), it.size))
        } else {
            prev
        }
    }
}

/// The path of `name` inside `dir`, both relative to the walk root.
pub fn child_path_of(dir: &str, name: &str) -> (r: String)
    ensures
        r@ == child_path(dir@, name@),
{
    if dir.is_empty() {
        owned(name)
    } else {
        let mut p = owned(dir);
        push_str(&mut p, "/");
        push_str(&mut p, name);
        p
    }
}

/// The server path of `relative_dir` under `root`: `root` itself for the
/// root, else `root/relative_dir`.
pub open spec fn server_dir_path(root: Seq<char>, relative_dir: Seq<char>) -> Seq<char> {
    if relative_dir.len() == 0 {
        root
    } else {
        root + "/"@ + relative_dir
    }
}

/// The server path to list for `relative_dir` under `root`.
pub fn server_dir_path_of(root: &str, relative_dir: &str) -> (r: String)
    ensures
        r@ == server_dir_path(root@, relative_dir@),
{
    if relative_dir.is_empty() {
        owned(root)
    } else {
        let mut p = owned(root);
        push_str(&mut p, "/");
        push_str(&mut p, relative_dir);
        p
    }
}

/// Processes one directory listing of `relative_dir`: the subdirectories to
/// visit next, and the files that no pattern of `excludes` excludes, both
/// with paths relative to the walk root, in listing order.
pub fn expand_listing(relative_dir: &str, items: &[RawRemoteEntry], excludes: &[String]) -> (r: (
    Vec<String>,
    Vec<RemoteEntry>,
))
    ensures
        r.0@.map_values(|s: String| s@) == listing_dirs(relative_dir@, items@),
        remote_view(r.1@) == listing_files(relative_dir@, items@, patterns_view(excludes@)),
{
    let mut dirs: Vec<String> = Vec::new();
    let mut files: Vec<RemoteEntry> = Vec::new();
    let mut i: usize = 0;
    while i < items.len()
        invariant
            i <= items@.len(),
            dirs@.map_values(|s: String| s@) == listing_dirs(relative_dir@, items@.take(i as int)),
            remote_view(files@) == listing_files(
                relative_dir@,
                items@.take(i as int),
                patterns_view(excludes@),
            ),
        decreases items@.len() - i,
    {
        assert(items@.take(i + 1).drop_last() =~= items@.take(i as int));
        assert(items@.take(i + 1).last() == items@[i as int]);
        let item = &items[i];
        let path = child_path_of(relative_dir, item.name.as_str());
        if item.is_dir {
            let ghost before = dirs@.map_values(|s: String| s@);
            dirs.push(path);
            assert(dirs@.map_values(|s: String| s@) =~= before.push(path@));
        } else if !is_excluded(path.as_str(), excludes) {
            let ghost before = remote_view(files@);
            let e = RemoteEntry { relative_path: path, size: item.size };
            files.push(e);
            assert(remote_view(files@) =~= before.push((e.relative_path@, e.size)));
        }
        i = i + 1;
    }
    assert(items@.take(items@.len() as int) =~= items@);
    (dirs, files)
}

/// One listing made during a walk: the directory listed (relative to the
/// walk root) and the items the listing gave.
pub type Listing = (Seq<char>, Seq<RawRemoteEntry>);

/// The relative directories still to be listed after the listings of
/// `trace`, the next one last: at first only the root (`""`); each listing
/// takes its directory off and adds the subdirectories it shows.
pub open spec fn pending_after(trace: Seq<Listing>) -> Seq<Seq<char>>
    decreases trace.len(),
{
    if trace.len() == 0 {
        seq![Seq::<char>::empty()]
    } else {
        let before = pending_after(trace.drop_last());
        before.drop_last() + listing_dirs(trace.last().0, trace.last().1)
    }
}

/// Whether `trace` is the start of a walk: each listing is of the
/// directory that was next.
pub open spec fn is_walk_prefix(trace: Seq<Listing>) -> bool {
    forall|k: int|
        0 <= k < trace.len() ==> {
            &&& (#[trigger] pending_after(trace.take(k))).len() > 0
            &&& trace[k].0 == pending_after(trace.take(k)).last()
        }
}

/// Whether `trace` is a complete walk: each listing is of the directory
/// that was next, and no directory is left to list.
pub open spec fn is_complete_walk(trace: Seq<Listing>) -> bool {
    &&& is_walk_prefix(trace)
    &&& pending_after(trace).len() == 0
}

/// How a walk under `root` that made the successful listings of `trace`
/// ended in the error `e`, the calls since its start being `added`: either
/// it had made `usize::MAX` listings with a directory still to list, and
/// stopped with the limit message; or the listing of the next directory
/// failed with `e`, and nothing followed.
pub open spec fn walk_failed(root: Seq<char>, trace: Seq<Listing>, added: Seq<Call>, e: Seq<char>) -> bool {
    &&& is_walk_prefix(trace)
    &&& pending_after(trace).len() > 0
    &&& {
        ||| (trace.len() == usize::MAX && e == walk_limit_message() && added == listing_calls(
            root,
            trace,
        ))
        ||| (trace.len() < usize::MAX && added == listing_calls(root, trace).push(
            Call::List(server_dir_path(root, pending_after(trace).last()), Err(e)),
        ))
    }
}

/// The files that the listings of `trace` give, listing by listing, each
/// as `listing_files` states.
pub open spec fn walk_files(trace: Seq<Listing>, excludes: Seq<Seq<char>>) -> Seq<(Seq<char>, u64)>
    decreases trace.len(),
{
    if trace.len() == 0 {
        Seq::empty()
    } else {
        walk_files(trace.drop_last(), excludes) + listing_files(
            trace.last().0,
            trace.last().1,
            excludes,
        )
    }
}

/// The listing calls that the listings of `trace` are, made under `root`:
/// the root as `root`, another directory `d` as `root/d`, each answered by
/// its items.
pub open spec fn listing_calls(root: Seq<char>, trace: Seq<Listing>) -> Seq<Call> {
    trace.map_values(|l: Listing| Call::List(server_dir_path(root, l.0), Ok(l.1)))
}

/// The message of a walk that reached its listing limit.
pub open spec fn walk_limit_message() -> Seq<char> {
    "remote directory walk exceeded the listing limit"@
}

/// The characters of each string.
pub open spec fn texts(v: Seq<String>) -> Seq<Seq<char>> {
    v.map_values(|s: String| s@)
}

proof fn lemma_take_push(trace: Seq<Listing>, x: Listing)
    ensures
        forall|k: int| 0 <= k <= trace.len() ==> #[trigger] trace.push(x).take(k) == trace.take(k),
        trace.push(x).drop_last() == trace,
{
    assert forall|k: int| 0 <= k <= trace.len() implies #[trigger] trace.push(x).take(k)
        == trace.take(k) by {
        assert(trace.push(x).take(k) =~= trace.take(k));
    }
    assert(trace.push(x).drop_last() =~= trace);
}

/// Recursively walks `root` on the remote server, returning one entry per
/// file, skipping any file whose relative path matches one of `excludes`.
///
/// Directories are listed depth-first, the most recently found first (the
/// root as `root`, another directory `d` as `root/d`). A successful walk
/// made exactly the listings of a complete walk, each answered with the
/// items it records, and its entries are the files of those listings,
/// listing by listing, each as `expand_listing` states. The first listing
/// error ends the walk with that error, the answer of its last call. A walk
/// that would need more than `usize::MAX` listings stops with an error
/// instead. Only listings are made.
pub fn walk_remote<C: FtpConnection>(conn: &mut Logged<C>, root: &str, excludes: &[String]) -> (r:
    Result<Vec<RemoteEntry>, FtpConnectionError>)
    ensures
        extends(final(conn).calls@, old(conn).calls@),
        forall|j: int|
            old(conn).calls@.len() <= j < final(conn).calls@.len()
                ==> #[trigger] final(conn).calls@[j] is List,
        r matches Ok(entries) ==> exists|trace: Seq<Listing>|
            is_complete_walk(trace) && final(conn).calls@ == old(conn).calls@ + listing_calls(
                root@,
                trace,
            ) && remote_view(entries@) == #[trigger] walk_files(trace, patterns_view(excludes@)),
        r matches Err(e) ==> exists|trace: Seq<Listing>|
            #![trigger pending_after(trace)]
            walk_failed(root@, trace, final(conn).calls@.skip(old(conn).calls@.len() as int), e.0@),
        r matches Ok(entries) ==> forall|i: int|
            0 <= i < entries@.len() ==> !excluded_by(
                #[trigger] entries@[i].relative_path@,
                patterns_view(excludes@),
            ),
{
    let ghost pv = patterns_view(excludes@);
    let mut entries: Vec<RemoteEntry> = Vec::new();
    let mut dirs_to_visit: Vec<String> = Vec::new();
    dirs_to_visit.push(String::new());
    let ghost mut trace: Seq<Listing> = Seq::empty();
    let ghost start = conn.calls@;
    proof {
        assert(texts(dirs_to_visit@) =~= pending_after(trace));
        assert(remote_view(entries@) =~= walk_files(trace, pv));
        assert(start + listing_calls(root@, trace) =~= start);
    }
    let mut listed: usize = 0;
    while dirs_to_visit.len() > 0
        invariant
            pv == patterns_view(excludes@),
            start == old(conn).calls@,
            conn.calls@ == start + listing_calls(root@, trace),
            trace.len() == listed,
            texts(dirs_to_visit@) == pending_after(trace),
            remote_view(entries@) == walk_files(trace, pv),
            forall|k: int|
                0 <= k < trace.len() ==> {
                    &&& (#[trigger] pending_after(trace.take(k))).len() > 0
                    &&& trace[k].0 == pending_after(trace.take(k)).last()
                },
            forall|i: int|
                0 <= i < entries@.len() ==> !excluded_by(
                    #[trigger] entries@[i].relative_path@,
                    pv,
                ),
        decreases usize::MAX - listed,
    {
        if listed == usize::MAX {
            proof {
                assert(conn.calls@.take(start.len() as int) =~= start);
                assert forall|j: int| start.len() <= j < conn.calls@.len() implies #[trigger] conn.calls@[j] is List by {
                    assert(conn.calls@[j] == listing_calls(root@, trace)[j - start.len()]);
                }
                assert(conn.calls@.skip(start.len() as int) =~= listing_calls(root@, trace));
                reveal_strlit("remote directory walk exceeded the listing limit");
            }
            let err = FtpConnectionError(owned("remote directory walk exceeded the listing limit"));
            proof {
                assert(err.0@ == walk_limit_message());
                assert(walk_failed(root@, trace, conn.calls@.skip(old(conn).calls@.len() as int), err.0@));
            }
            return Err(err);
        }
        listed = listed + 1;
        let ghost pending = texts(dirs_to_visit@);
        let relative_dir = match dirs_to_visit.pop() {
            Some(d) => d,
            None => String::new(),
        };
        proof {
            assert(relative_dir@ == pending.last());
            assert(texts(dirs_to_visit@) =~= pending.drop_last());
        }
        let full_path = server_dir_path_of(root, relative_dir.as_str());
        let ghost before = conn.calls@;
        let answer = conn.list_dir(full_path.as_str());
        let items = match answer {
            Ok(items) => items,
            Err(e) => {
                proof {
                    assert(conn.calls@ == before.push(Call::List(full_path@, Err(e.0@))));
                    assert forall|j: int| start.len() <= j < conn.calls@.len() implies #[trigger] conn.calls@[j] is List by {
                        if j < before.len() {
                            assert(conn.calls@[j] == before[j]);
                            assert(before[j] == listing_calls(root@, trace)[j - start.len()]);
                        }
                    }
                    assert(extends(conn.calls@, start)) by {
                        assert(conn.calls@.take(start.len() as int) =~= start);
                    }
                    assert(conn.calls@.skip(start.len() as int) =~= listing_calls(root@, trace).push(
                        Call::List(server_dir_path(root@, pending.last()), Err(e.0@)),
                    ));
                    assert(walk_failed(root@, trace, conn.calls@.skip(old(conn).calls@.len() as int), e.0@));
                }
                return Err(e);
            },
        };
        let (dirs, files) = expand_listing(relative_dir.as_str(), items.as_slice(), excludes);
        let ghost base = texts(dirs_to_visit@);
        let mut d: usize = 0;
        while d < dirs.len()
            invariant
                d <= dirs@.len(),
                texts(dirs_to_visit@) == base + texts(dirs@.take(d as int)),
            decreases dirs@.len() - d,
        {
            let ghost prev = dirs_to_visit@;
            let next = dirs[d].clone();
            dirs_to_visit.push(next);
            assert(texts(dirs_to_visit@) =~= texts(prev).push(next@));
            assert(texts(dirs@.take(d + 1)) =~= texts(dirs@.take(d as int)).push(dirs@[d as int]@));
            assert(texts(dirs_to_visit@) =~= base + texts(dirs@.take(d + 1)));
            d = d + 1;
        }
        proof {
            lemma_listing_files_not_excluded(relative_dir@, items@, pv);
            assert(dirs@.take(dirs@.len() as int) =~= dirs@);
        }
        let ghost before = entries@;
        let mut f: usize = 0;
        while f < files.len()
            invariant
                f <= files@.len(),
                remote_view(files@) == listing_files(relative_dir@, items@, pv),
                remote_view(entries@) == remote_view(before) + remote_view(files@.take(f as int)),
                forall|k: int|
                    0 <= k < remote_view(files@).len() ==> !excluded_by(
                        #[trigger] remote_view(files@)[k].0,
                        pv,
                    ),
                forall|i: int|
                    0 <= i < entries@.len() ==> !excluded_by(
                        #[trigger] entries@[i].relative_path@,
                        pv,
                    ),
            decreases files@.len() - f,
        {
            let e = RemoteEntry { relative_path: files[f].relative_path.clone(), size: files[f].size };
            assert(remote_view(files@)[f as int].0 == files@[f as int].relative_path@);
            let ghost prev = entries@;
            entries.push(e);
            assert(remote_view(files@.take(f + 1)) =~= remote_view(files@.take(f as int)).push(
                (e.relative_path@, e.size),
            ));
            assert(remote_view(entries@) =~= remote_view(prev).push((e.relative_path@, e.size)));
            f = f + 1;
        }
        proof {
            assert(files@.take(files@.len() as int) =~= files@);
            let x: Listing = (relative_dir@, items@);
            let old_trace = trace;
            lemma_take_push(old_trace, x);
            trace = old_trace.push(x);
            assert(listing_calls(root@, trace) =~= listing_calls(root@, old_trace).push(
                Call::List(server_dir_path(root@, relative_dir@), Ok(items@)),
            ));
            assert(conn.calls@ =~= start + listing_calls(root@, trace));
            assert(trace.last() == x);
            assert(texts(dirs_to_visit@) == pending_after(trace));
            assert(remote_view(entries@) == walk_files(trace, pv));
            assert forall|k: int| 0 <= k < trace.len() implies {
                &&& (#[trigger] pending_after(trace.take(k))).len() > 0
                &&& trace[k].0 == pending_after(trace.take(k)).last()
            } by {
                if k < old_trace.len() {
                    assert(trace.take(k) == old_trace.take(k));
                    assert(trace[k] == old_trace[k]);
                } else {
                    assert(trace.take(k) == old_trace.take(old_trace.len() as int));
                    assert(old_trace.take(old_trace.len() as int) =~= old_trace);
                }
            }
        }
    }
    proof {
        assert(is_complete_walk(trace));
        assert(conn.calls@.take(start.len() as int) =~= start);
        assert forall|j: int| start.len() <= j < conn.calls@.len() implies #[trigger] conn.calls@[j] is List by {
            assert(conn.calls@[j] == listing_calls(root@, trace)[j - start.len()]);
        }
    }
    Ok(entries)
}

proof fn lemma_listing_files_not_excluded(
    dir: Seq<char>,
    items: Seq<RawRemoteEntry>,
    excludes: Seq<Seq<char>>,
)
    ensures
        forall|k: int|
            0 <= k < listing_files(dir, items, excludes).len() ==> !excluded_by(
                #[trigger] listing_files(dir, items, excludes)[k].0,
                excludes,
            ),
    decreases items.len(),
{
    if items.len() > 0 {
        lemma_listing_files_not_excluded(dir, items.drop_last(), excludes);
        let prev = listing_files(dir, items.drop_last(), excludes);
        let cur = listing_files(dir, items, excludes);
        assert forall|k: int| 0 <= k < cur.len() implies !excluded_by(#[trigger] cur[k].0, excludes) by {
            if k < prev.len() {
                assert(cur[k] == prev[k]);
            }
        }
    }
}

/// A listing of `dir` queues every directory it shows and keeps every file
/// it shows that no pattern excludes, in listing order: the directories
/// are exactly the directory items, each as its path below the walk root,
/// and the files exactly the other items whose path no pattern of
/// `excludes` excludes, each with its size.
pub proof fn lemma_listing_splits(dir: Seq<char>, items: Seq<RawRemoteEntry>, excludes: Seq<Seq<char>>)
    ensures
        listing_dirs(dir, items) == items.filter(|it: RawRemoteEntry| it.is_dir).map_values(
            |it: RawRemoteEntry| child_path(dir, it.name@),
        ),
        listing_files(dir, items, excludes) == items.filter(
            |it: RawRemoteEntry| !it.is_dir && !excluded_by(child_path(dir, it.name@), excludes),
        ).map_values(|it: RawRemoteEntry| (child_path(dir, it.name@), it.size)),
    decreases items.len(),
{
    reveal(Seq::filter);
    let pd = |it: RawRemoteEntry| it.is_dir;
    let md = |it: RawRemoteEntry| child_path(dir, it.name@);
    let pf = |it: RawRemoteEntry| !it.is_dir && !excluded_by(child_path(dir, it.name@), excludes);
    let mf = |it: RawRemoteEntry| (child_path(dir, it.name@), it.size);
    if items.len() == 0 {
        assert(items.filter(pd).map_values(md) =~= Seq::<Seq<char>>::empty());
        assert(items.filter(pf).map_values(mf) =~= Seq::<(Seq<char>, u64)>::empty());
    } else {
        let prev = items.drop_last();
        lemma_listing_splits(dir, prev, excludes);
        assert(items.filter(pd) == if pd(items.last()) {
            prev.filter(pd).push(items.last())
        } else {
            prev.filter(pd)
        });
        assert(items.filter(pf) == if pf(items.last()) {
            prev.filter(pf).push(items.last())
        } else {
            prev.filter(pf)
        });
        if pd(items.last()) {
            assert(items.filter(pd).map_values(md) =~= prev.filter(pd).map_values(md).push(
                md(items.last()),
            ));
        }
        if pf(items.last()) {
            assert(items.filter(pf).map_values(mf) =~= prev.filter(pf).map_values(mf).push(
                mf(items.last()),
            ));
        }
    }
}

} // verus!
