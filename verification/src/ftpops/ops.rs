//! Copy and delete operations, executed against CSV rows already filtered
//! by status, over an `FtpConnection` for the server and `LocalFiles` for
//! the local directory: per-file outcomes, remote path handling, existence
//! checks and the creation of missing remote directories.

use vstd::prelude::*;
use crate::ftpops::csv_input::CsvRow;
use crate::logged::{
    bytes_answer, extends, lemma_extends_refl, lemma_extends_trans, lemma_logged_from, lemma_logged_grows,
    lemma_logged_last, listing_answer, local_bytes_answer, local_done_answer, logged_since, done_answer,
    Call, Logged,
};
use crate::remote::{FtpConnection, FtpConnectionError, RawRemoteEntry};
use crate::text::{chars_of, owned, push_str, str_equal, string_of};

verus! {

/// What happened to one file.
#[derive(Debug, Clone, PartialEq)]
pub enum OpOutcome {
    Copied,
    Deleted,
    Skipped,
    Failed(String),
}

/// The outcome for one CSV row.
#[derive(Debug, Clone, PartialEq)]
pub struct OpResult {
    pub relative_path: String,
    pub outcome: OpOutcome,
}

/// The server path of `relative_path` under `remote_dir`:
/// `remote_dir/relative_path`.
pub fn remote_path_of(remote_dir: &str, relative_path: &str) -> (r: String)
    ensures
        r@ == remote_dir@ + "/"@ + relative_path@,
{
    let mut p = owned(remote_dir);
    push_str(&mut p, "/");
    push_str(&mut p, relative_path);
    p
}

/// The outcome of a deletion: `Deleted`, or `Failed` with the error text.
pub fn delete_outcome(result: Result<(), FtpConnectionError>) -> (r: OpOutcome)
    ensures
        match result {
            Ok(()) => r == OpOutcome::Deleted,
            Err(e) => r matches OpOutcome::Failed(m) && m@ == e.0@,
        },
{
    match result {
        Ok(()) => OpOutcome::Deleted,
        Err(e) => OpOutcome::Failed(e.0),
    }
}

/// The outcome of a copy: `Copied`, or `Failed` with the error text.
pub fn copy_outcome(result: Result<(), String>) -> (r: OpOutcome)
    ensures
        match result {
            Ok(()) => r == OpOutcome::Copied,
            Err(e) => r matches OpOutcome::Failed(m) && m@ == e@,
        },
{
    match result {
        Ok(()) => OpOutcome::Copied,
        Err(e) => OpOutcome::Failed(e),
    }
}

/// The server path of `relative_path` under `remote_dir`.
pub open spec fn remote_path(remote_dir: Seq<char>, relative_path: Seq<char>) -> Seq<char> {
    remote_dir + "/"@ + relative_path
}

/// Whether `o` is the outcome of a deletion that answered `a`: `Deleted`,
/// or `Failed` with the error text.
pub open spec fn deleted_as(o: OpOutcome, a: Result<(), Seq<char>>) -> bool {
    match a {
        Ok(()) => o == OpOutcome::Deleted,
        Err(m) => o matches OpOutcome::Failed(t) && t@ == m,
    }
}

/// Whether `c` is the deletion of `path` on the server with outcome `o`.
pub open spec fn remote_deletion(c: Call, path: Seq<char>, o: OpOutcome) -> bool {
    match c {
        Call::Delete(p, a) => p == path && deleted_as(o, a),
        _ => false,
    }
}

/// Whether `c` is the removal of the local file `path` with outcome `o`.
pub open spec fn local_removal(c: Call, path: Seq<char>, o: OpOutcome) -> bool {
    match c {
        Call::RemoveFile(p, a) => p == path && deleted_as(o, a),
        _ => false,
    }
}

/// Deletes each row's remote file `remote_dir/relative_path`, in order; one
/// failure does not stop the rest. Exactly one call is made per row, the
/// deletion of that path, and each result names its row and is `Deleted`
/// or `Failed` with the error text, as the deletion answered.
pub fn delete_remote<C: FtpConnection>(
    conn: &mut Logged<C>,
    remote_dir: &str,
    rows: &[&CsvRow],
) -> (r: Vec<OpResult>)
    ensures
        r@.len() == rows@.len(),
        final(conn).calls@.len() == old(conn).calls@.len() + rows@.len(),
        final(conn).calls@.take(old(conn).calls@.len() as int) == old(conn).calls@,
        forall|i: int|
            0 <= i < rows@.len() ==> {
                &&& (#[trigger] r@[i]).relative_path@ == rows@[i].relative_path@
                &&& remote_deletion(
                    final(conn).calls@[old(conn).calls@.len() + i],
                    remote_path(remote_dir@, rows@[i].relative_path@),
                    r@[i].outcome,
                )
            },
{
    let ghost start = conn.calls@;
    let mut results: Vec<OpResult> = Vec::new();
    let mut i: usize = 0;
    while i < rows.len()
        invariant
            i <= rows@.len(),
            results@.len() == i,
            conn.calls@.len() == start.len() + i,
            conn.calls@.take(start.len() as int) == start,
            forall|k: int|
                0 <= k < i ==> {
                    &&& (#[trigger] results@[k]).relative_path@ == rows@[k].relative_path@
                    &&& remote_deletion(
                        conn.calls@[start.len() + k],
                        remote_path(remote_dir@, rows@[k].relative_path@),
                        results@[k].outcome,
                    )
                },
        decreases rows@.len() - i,
    {
        let row = rows[i];
        let remote_path = remote_path_of(remote_dir, row.relative_path.as_str());
        let ghost before = conn.calls@;
        let answer = conn.delete(remote_path.as_str());
        let outcome = delete_outcome(answer);
        results.push(OpResult { relative_path: row.relative_path.clone(), outcome });
        assert(conn.calls@.take(start.len() as int) =~= before.take(start.len() as int));
        assert(forall|j: int| 0 <= j < before.len() ==> #[trigger] conn.calls@[j] == before[j]);
        i = i + 1;
    }
    results
}

/// The position of the last `/` among the first `n` characters of `s`.
pub open spec fn last_slash_before(s: Seq<char>, n: int) -> Option<int>
    decreases n,
{
    if n <= 0 || n > s.len() {
        None
    } else if s[n - 1] == '/' {
        Some(n - 1)
    } else {
        last_slash_before(s, n - 1)
    }
}

/// The parent directory and the file name of a server path, split at its
/// last `/` (an empty parent is the server root `/`; a path without `/`
/// has the root as parent and is all name).
pub open spec fn parent_and_name(path: Seq<char>) -> (Seq<char>, Seq<char>) {
    match last_slash_before(path, path.len() as int) {
        Some(i) => (
            if i == 0 {
                "/"@
            } else {
                path.take(i)
            },
            path.skip(i + 1),
        ),
        None => ("/"@, path),
    }
}

/// Splits a server path into its parent directory and file name.
pub fn split_parent(path: &str) -> (r: (String, String))
    ensures
        r.0@ == parent_and_name(path@).0,
        r.1@ == parent_and_name(path@).1,
{
    let cs = chars_of(path);
    let mut n = cs.len();
    while n > 0 && cs[n - 1] != '/'
        invariant
            n <= cs@.len(),
            cs@ == path@,
            last_slash_before(cs@, cs@.len() as int) == last_slash_before(cs@, n as int),
        decreases n,
    {
        n = n - 1;
    }
    if n == 0 {
        return (owned("/"), owned(path));
    }
    let i = n - 1;
    let parent = if i == 0 {
        owned("/")
    } else {
        string_of(&cs.as_slice()[0..i])
    };
    let mut name: Vec<char> = Vec::new();
    let mut k = n;
    while k < cs.len()
        invariant
            n <= k <= cs@.len(),
            name@ == cs@.subrange(n as int, k as int),
        decreases cs@.len() - k,
    {
        name.push(cs[k]);
        k = k + 1;
        assert(name@ =~= cs@.subrange(n as int, k as int));
    }
    assert(cs@.subrange(n as int, cs@.len() as int) =~= cs@.skip(n as int));
    (parent, string_of(name.as_slice()))
}

/// Whether a listing holds a file (not a directory) named `name`.
pub open spec fn listing_has_file(entries: Seq<RawRemoteEntry>, name: Seq<char>) -> bool {
    exists|i: int| 0 <= i < entries.len() && !entries[i].is_dir && #[trigger] entries[i].name@ == name
}

/// Whether a listing holds a directory named `name`.
pub open spec fn listing_has_dir(entries: Seq<RawRemoteEntry>, name: Seq<char>) -> bool {
    exists|i: int| 0 <= i < entries.len() && entries[i].is_dir && #[trigger] entries[i].name@ == name
}

/// Looks for an entry named `name` of the given kind in a listing.
pub fn listing_contains(entries: &[RawRemoteEntry], name: &str, want_dir: bool) -> (r: bool)
    ensures
        want_dir ==> r == listing_has_dir(entries@, name@),
        !want_dir ==> r == listing_has_file(entries@, name@),
{
    let mut i: usize = 0;
    while i < entries.len()
        invariant
            i <= entries@.len(),
            forall|k: int|
                0 <= k < i ==> !(entries@[k].is_dir == want_dir && #[trigger] entries@[k].name@
                    == name@),
        decreases entries@.len() - i,
    {
        if entries[i].is_dir == want_dir && str_equal(entries[i].name.as_str(), name) {
            return true;
        }
        i = i + 1;
    }
    false
}

/// Whether a listing answer shows an entry named `name` of the given kind
/// (a failed listing shows nothing).
pub open spec fn answer_shows(a: Result<Seq<RawRemoteEntry>, Seq<char>>, name: Seq<char>, want_dir: bool) -> bool {
    match a {
        Ok(items) => if want_dir {
            listing_has_dir(items, name)
        } else {
            listing_has_file(items, name)
        },
        Err(_) => false,
    }
}

/// Whether `c` is a listing of `dir` whose answer shows an entry named
/// `name` of the given kind exactly when `shown` holds.
pub open spec fn listing_of(c: Call, dir: Seq<char>, name: Seq<char>, want_dir: bool, shown: bool) -> bool {
    match c {
        Call::List(p, a) => p == dir && shown == answer_shows(a, name, want_dir),
        _ => false,
    }
}

/// Whether a listing answer shows a file named `name`.
pub fn file_listed(listing: &Result<Vec<RawRemoteEntry>, FtpConnectionError>, name: &str) -> (r: bool)
    ensures
        r == answer_shows(listing_answer(*listing), name@, false),
{
    match listing {
        Ok(entries) => listing_contains(entries.as_slice(), name, false),
        Err(_) => false,
    }
}

/// Whether the server lists a file at `remote_path`, judged from one
/// listing of its parent directory; a listing that fails counts as "no".
pub fn remote_file_exists<C: FtpConnection>(conn: &mut Logged<C>, remote_path: &str) -> (r: bool)
    ensures
        final(conn).calls@.len() == old(conn).calls@.len() + 1,
        final(conn).calls@.drop_last() == old(conn).calls@,
        listing_of(
            final(conn).calls@.last(),
            parent_and_name(remote_path@).0,
            parent_and_name(remote_path@).1,
            false,
            r,
        ),
{
    let (parent, name) = split_parent(remote_path);
    let ghost before = conn.calls@;
    let listing = conn.list_dir(parent.as_str());
    assert(conn.calls@.drop_last() =~= before);
    file_listed(&listing, name.as_str())
}

/// The directory part of a file's server path: the text before its last
/// `/`, or nothing when there is no `/` or only a leading one.
pub open spec fn file_parent(path: Seq<char>) -> Seq<char> {
    match last_slash_before(path, path.len() as int) {
        Some(i) => if i > 0 {
            path.take(i)
        } else {
            Seq::empty()
        },
        None => Seq::empty(),
    }
}

/// The nonempty `/`-separated components of `p` from position `i` on,
/// after `acc` and the component `cur` begun so far.
pub open spec fn components_from(p: Seq<char>, i: int, cur: Seq<char>, acc: Seq<Seq<char>>) -> Seq<
    Seq<char>,
>
    decreases p.len() - i,
{
    if i < 0 || i >= p.len() {
        if cur.len() > 0 {
            acc.push(cur)
        } else {
            acc
        }
    } else if p[i] == '/' {
        components_from(
            p,
            i + 1,
            Seq::empty(),
            if cur.len() > 0 {
                acc.push(cur)
            } else {
                acc
            },
        )
    } else {
        components_from(p, i + 1, cur.push(p[i]), acc)
    }
}

/// The nonempty `/`-separated components of `p`, in order.
pub open spec fn components(p: Seq<char>) -> Seq<Seq<char>> {
    components_from(p, 0, Seq::empty(), Seq::empty())
}

/// One directory to make sure of: the directory to list, the name to look
/// for there, and the directory itself.
pub type DirStep = (Seq<char>, Seq<char>, Seq<char>);

/// The directories below `cur` named by `comps`, outermost first: each is
/// looked for in the listing of the one before (the server root `/` for
/// the first), and is that one, `/`, and its component.
pub open spec fn dir_steps(comps: Seq<Seq<char>>, cur: Seq<char>) -> Seq<DirStep>
    decreases comps.len(),
{
    if comps.len() == 0 {
        Seq::empty()
    } else {
        let listed = if cur.len() == 0 {
            "/"@
        } else {
            cur
        };
        let dir = cur + "/"@ + comps[0];
        seq![(listed, comps[0], dir)] + dir_steps(comps.drop_first(), dir)
    }
}

proof fn lemma_dir_steps_len(comps: Seq<Seq<char>>, cur: Seq<char>)
    ensures
        dir_steps(comps, cur).len() == comps.len(),
    decreases comps.len(),
{
    if comps.len() > 0 {
        lemma_dir_steps_len(comps.drop_first(), cur + "/"@ + comps[0]);
    }
}

/// The directories that a file at `path` needs, outermost first.
pub open spec fn needed_dirs(path: Seq<char>) -> Seq<DirStep> {
    dir_steps(components(file_parent(path)), Seq::empty())
}

/// The characters of `path` before its last `/`, when that `/` is not the
/// first character; else nothing.
fn file_parent_of(path: &str) -> (r: Vec<char>)
    ensures
        r@ == file_parent(path@),
{
    let cs = chars_of(path);
    let mut n = cs.len();
    while n > 0 && cs[n - 1] != '/'
        invariant
            n <= cs@.len(),
            cs@ == path@,
            last_slash_before(cs@, cs@.len() as int) == last_slash_before(cs@, n as int),
        decreases n,
    {
        n = n - 1;
    }
    if n <= 1 {
        return Vec::new();
    }
    let mut out: Vec<char> = Vec::new();
    let mut k: usize = 0;
    while k < n - 1
        invariant
            k <= n - 1,
            n <= cs@.len(),
            out@ == cs@.take(k as int),
        decreases n - 1 - k,
    {
        out.push(cs[k]);
        k = k + 1;
        assert(out@ =~= cs@.take(k as int));
    }
    out
}

/// The nonempty `/`-separated components of `p`.
fn components_of(p: &Vec<char>) -> (r: Vec<Vec<char>>)
    ensures
        r@.map_values(|c: Vec<char>| c@) == components(p@),
{
    let mut acc: Vec<Vec<char>> = Vec::new();
    let mut cur: Vec<char> = Vec::new();
    let mut i: usize = 0;
    proof {
        assert(acc@.map_values(|c: Vec<char>| c@) =~= Seq::<Seq<char>>::empty());
        assert(cur@ =~= Seq::<char>::empty());
    }
    while i < p.len()
        invariant
            i <= p@.len(),
            components(p@) == components_from(
                p@,
                i as int,
                cur@,
                acc@.map_values(|c: Vec<char>| c@),
            ),
        decreases p@.len() - i,
    {
        let ghost acc0 = acc@.map_values(|c: Vec<char>| c@);
        let ghost cur0 = cur@;
        proof {
            assert(components_from(p@, i as int, cur0, acc0) == if p@[i as int] == '/' {
                components_from(
                    p@,
                    i + 1,
                    Seq::empty(),
                    if cur0.len() > 0 {
                        acc0.push(cur0)
                    } else {
                        acc0
                    },
                )
            } else {
                components_from(p@, i + 1, cur0.push(p@[i as int]), acc0)
            });
        }
        if p[i] == '/' {
            if cur.len() > 0 {
                let done = cur;
                acc.push(done);
                assert(acc@.map_values(|c: Vec<char>| c@) =~= acc0.push(done@));
                cur = Vec::new();
            }
            assert(cur@ =~= Seq::<char>::empty());
        } else {
            cur.push(p[i]);
            assert(cur@ =~= cur0.push(p@[i as int]));
        }
        i = i + 1;
    }
    proof {
        let av = acc@.map_values(|c: Vec<char>| c@);
        assert(components_from(p@, i as int, cur@, av) == if cur@.len() > 0 {
            av.push(cur@)
        } else {
            av
        });
    }
    if cur.len() > 0 {
        let ghost before = acc@.map_values(|c: Vec<char>| c@);
        let done = cur;
        acc.push(done);
        assert(acc@.map_values(|c: Vec<char>| c@) =~= before.push(done@));
    }
    acc
}

/// Whether `c` is the creation of the directory `dir` that answered `Ok`.
pub open spec fn created(c: Call, dir: Seq<char>) -> bool {
    c == Call::CreateDir(dir, Ok(()))
}

/// Whether the calls of `cs` from position `from` on include, for the
/// directory of `step`, a listing of the directory before it that shows
/// it, or its successful creation.
pub open spec fn dir_ensured(cs: Seq<Call>, from: int, step: DirStep) -> bool {
    exists|j: int|
        from <= j < cs.len() && (listing_of(#[trigger] cs[j], step.0, step.1, true, true) || created(
            cs[j],
            step.2,
        ))
}

/// Whether every call of `cs` from position `from` on is a listing or a
/// directory creation.
pub open spec fn only_lists_and_creates(cs: Seq<Call>, from: int) -> bool {
    forall|j: int| from <= j < cs.len() ==> (#[trigger] cs[j] is List || cs[j] is CreateDir)
}

/// An ensured directory stays ensured as calls are added.
pub proof fn lemma_dir_ensured_grows(earlier: Seq<Call>, later: Seq<Call>, from: int, step: DirStep)
    requires
        0 <= from,
        extends(later, earlier),
        dir_ensured(earlier, from, step),
    ensures
        dir_ensured(later, from, step),
{
    let j = choose|j: int|
        from <= j < earlier.len() && (listing_of(#[trigger] earlier[j], step.0, step.1, true, true)
            || created(earlier[j], step.2));
    assert(later.take(earlier.len() as int)[j] == later[j]);
}

/// Whether `c` is a successful listing of the directory before `step`
/// that shows (`shown`), or does not show, the directory of `step`.
pub open spec fn step_listed(c: Call, step: DirStep, shown: bool) -> bool {
    match c {
        Call::List(d, a) => d == step.0 && a is Ok && listing_has_dir(a->Ok_0, step.1) == shown,
        _ => false,
    }
}

/// Whether `cs` are exactly the calls of a successful pass over `steps`:
/// for each step in order, a listing of the directory before it that shows
/// it, or one that does not, followed by its successful creation.
pub open spec fn dir_calls_ok(cs: Seq<Call>, steps: Seq<DirStep>) -> bool
    decreases steps.len(),
{
    if steps.len() == 0 {
        cs.len() == 0
    } else {
        let s = steps.last();
        ||| (cs.len() >= 1 && step_listed(cs.last(), s, true) && dir_calls_ok(
            cs.drop_last(),
            steps.drop_last(),
        ))
        ||| (cs.len() >= 2 && step_listed(cs[cs.len() - 2], s, false) && cs.last()
            == Call::CreateDir(s.2, Ok(())) && dir_calls_ok(cs.take(cs.len() - 2), steps.drop_last()))
    }
}

/// Whether `cs` are the calls of a step that failed with `e`: a listing of
/// the directory before it that failed, or one that did not show it
/// followed by a creation that failed.
pub open spec fn dir_step_failed(cs: Seq<Call>, step: DirStep, e: Seq<char>) -> bool {
    ||| cs == seq![Call::List(step.0, Err(e))]
    ||| (cs.len() == 2 && step_listed(cs[0], step, false) && cs[1] == Call::CreateDir(step.2, Err(e)))
}

/// Whether `cs` are exactly the calls of a pass over `steps` that ended in
/// `r`: all of them done, or the first ones done and the next one failed.
pub open spec fn dir_calls(cs: Seq<Call>, steps: Seq<DirStep>, r: Result<(), Seq<char>>) -> bool {
    match r {
        Ok(()) => dir_calls_ok(cs, steps),
        Err(e) => exists|k: int, n: int|
            #![trigger cs.skip(n), steps[k]]
            0 <= k < steps.len() && 0 <= n <= cs.len() && dir_calls_ok(cs.take(n), steps.take(k))
                && dir_step_failed(cs.skip(n), steps[k], e),
    }
}

/// Makes sure that every directory that a file at `remote_path` needs
/// exists, creating those that are missing, outermost first, so that the
/// file can be stored there: the text before the last `/` (unless that is
/// the first character) is split into its nonempty components, each
/// directory is looked for in a listing of the one before (the server
/// root `/` for the first), and created when the listing does not show
/// it. Only listings and creations are made. The first failed listing or
/// creation ends the call with its error, the answer of its last call. On
/// success every needed directory was shown by its listing or created with
/// an `Ok` answer. A file that needs no directory needs no call. The calls
/// made are exactly those that `dir_calls` states for the outcome.
pub fn ensure_remote_dir<C: FtpConnection>(conn: &mut Logged<C>, remote_path: &str) -> (r: Result<
    (),
    FtpConnectionError,
>)
    ensures
        needed_dirs(remote_path@).len() == 0 ==> r is Ok,
        extends(final(conn).calls@, old(conn).calls@),
        only_lists_and_creates(final(conn).calls@, old(conn).calls@.len() as int),
        r is Ok ==> forall|k: int|
            0 <= k < needed_dirs(remote_path@).len() ==> dir_ensured(
                final(conn).calls@,
                old(conn).calls@.len() as int,
                #[trigger] needed_dirs(remote_path@)[k],
            ),
        r is Err ==> final(conn).calls@.len() > old(conn).calls@.len(),
        r matches Err(e) ==> (final(conn).calls@.last() matches Call::CreateDir(_, a) && a == Err::<
            (),
            Seq<char>,
        >(e.0@)) || (final(conn).calls@.last() matches Call::List(_, a) && a == Err::<
            Seq<RawRemoteEntry>,
            Seq<char>,
        >(e.0@)),
        dir_calls(
            final(conn).calls@.skip(old(conn).calls@.len() as int),
            needed_dirs(remote_path@),
            done_answer(r),
        ),
{
    let ghost start = conn.calls@;
    let ghost n0 = start.len() as int;
    let parent = file_parent_of(remote_path);
    let comps = components_of(&parent);
    let ghost cv = comps@.map_values(|c: Vec<char>| c@);
    let ghost steps = needed_dirs(remote_path@);
    let mut current: Vec<char> = Vec::new();
    proof {
        lemma_extends_refl(start);
        assert(cv.skip(0) =~= cv);
        assert(steps.take(0) =~= Seq::<DirStep>::empty());
        lemma_dir_steps_len(cv, Seq::empty());
        assert(start.skip(n0) =~= Seq::<Call>::empty());
    }
    let mut k: usize = 0;
    while k < comps.len()
        invariant
            cv == comps@.map_values(|c: Vec<char>| c@),
            steps == needed_dirs(remote_path@),
            steps == dir_steps(cv, Seq::empty()),
            steps.len() == cv.len(),
            cv.len() == comps@.len(),
            k <= comps@.len(),
            steps == steps.take(k as int) + dir_steps(cv.skip(k as int), current@),
            n0 == start.len(),
            start == old(conn).calls@,
            extends(conn.calls@, start),
            only_lists_and_creates(conn.calls@, n0),
            forall|j: int| 0 <= j < k ==> dir_ensured(conn.calls@, n0, #[trigger] steps[j]),
            dir_calls_ok(conn.calls@.skip(n0), steps.take(k as int)),
        decreases comps@.len() - k,
    {
        let ghost rest = cv.skip(k as int);
        let ghost cur_before = current@;
        let ghost step = (
            if current@.len() == 0 {
                "/"@
            } else {
                current@
            },
            cv[k as int],
            current@ + "/"@ + cv[k as int],
        );
        proof {
            reveal_strlit("/");
            assert(rest.len() > 0);
            assert(rest[0] == cv[k as int]);
            assert(rest.drop_first() =~= cv.skip(k + 1));
            assert(dir_steps(rest, current@) == seq![step] + dir_steps(cv.skip(k + 1), step.2));
            assert(steps[k as int] == step) by {
                assert(steps.take(k as int).len() == k);
                assert(dir_steps(rest, current@)[0] == step);
                assert((steps.take(k as int) + dir_steps(rest, current@))[k as int] == step);
            }
        }
        let listed = if current.len() == 0 {
            owned("/")
        } else {
            string_of(current.as_slice())
        };
        current.push('/');
        let mut c: usize = 0;
        let ghost base = current@;
        while c < comps[k].len()
            invariant
                c <= comps@[k as int]@.len(),
                k < comps@.len(),
                current@ == base + comps@[k as int]@.take(c as int),
            decreases comps@[k as int]@.len() - c,
        {
            current.push(comps[k][c]);
            c = c + 1;
            assert(current@ =~= base + comps@[k as int]@.take(c as int));
        }
        proof {
            reveal_strlit("/");
            assert(base =~= cur_before + "/"@);
            assert(comps@[k as int]@.take(comps@[k as int]@.len() as int) =~= comps@[k as int]@);
            assert(cv[k as int] == comps@[k as int]@);
            assert(current@ =~= step.2);
        }
        let name = string_of(comps[k].as_slice());
        let dir = string_of(current.as_slice());
        let ghost before = conn.calls@;
        let listing = conn.list_dir(listed.as_str());
        let ghost lcall = conn.calls@.last();
        proof {
            assert(conn.calls@.skip(n0) =~= before.skip(n0).push(lcall));
            assert(steps.take(k + 1).drop_last() =~= steps.take(k as int));
            assert(steps.take(k + 1).last() == step);
        }
        proof {
            assert(conn.calls@ == before.push(conn.calls@.last()));
            lemma_logged_last(before, conn.calls@.last(), n0);
            lemma_extends_trans(start, before, conn.calls@);
            assert forall|j: int| n0 <= j < conn.calls@.len() implies (#[trigger] conn.calls@[j] is List
                || conn.calls@[j] is CreateDir) by {
                if j < before.len() {
                    assert(conn.calls@[j] == before[j]);
                }
            }
            assert forall|j: int| 0 <= j < k implies dir_ensured(conn.calls@, n0, #[trigger] steps[j]) by {
                lemma_dir_ensured_grows(before, conn.calls@, n0, steps[j]);
            }
        }
        let present = match &listing {
            Ok(entries) => listing_contains(entries.as_slice(), name.as_str(), true),
            Err(e) => {
                let err = FtpConnectionError(e.0.clone());
                proof {
                    let added = conn.calls@.skip(n0);
                    let nb = before.skip(n0).len() as int;
                    assert(added.take(nb) =~= before.skip(n0));
                    assert(added.skip(nb) =~= seq![Call::List(step.0, Err(err.0@))]);
                    assert(dir_step_failed(added.skip(nb), steps[k as int], err.0@));
                    assert(dir_calls_ok(added.take(nb), steps.take(k as int)));
                    assert(dir_calls(added, steps, Err(err.0@)));
                }
                return Err(err);
            },
        };
        if present {
            proof {
                let j = conn.calls@.len() - 1;
                assert(listing_of(conn.calls@[j], step.0, step.1, true, true));
                assert(dir_ensured(conn.calls@, n0, steps[k as int]));
                assert(step_listed(lcall, step, true));
                assert(conn.calls@.skip(n0).drop_last() =~= before.skip(n0));
            }
        } else {
            proof {
                assert(step_listed(lcall, step, false));
            }
            let ghost before2 = conn.calls@;
            let made = conn.create_dir(dir.as_str());
            proof {
                assert(conn.calls@ == before2.push(conn.calls@.last()));
                lemma_logged_last(before2, conn.calls@.last(), n0);
                lemma_extends_trans(start, before2, conn.calls@);
                assert forall|j: int| n0 <= j < conn.calls@.len() implies (
                #[trigger] conn.calls@[j] is List || conn.calls@[j] is CreateDir) by {
                    if j < before2.len() {
                        assert(conn.calls@[j] == before2[j]);
                    }
                }
                assert forall|j: int| 0 <= j < k implies dir_ensured(conn.calls@, n0, #[trigger] steps[j]) by {
                    lemma_dir_ensured_grows(before2, conn.calls@, n0, steps[j]);
                }
                if made is Ok {
                    let j = conn.calls@.len() - 1;
                    assert(created(conn.calls@[j], step.2));
                    assert(dir_ensured(conn.calls@, n0, steps[k as int]));
                }
            }
            proof {
                let added = conn.calls@.skip(n0);
                assert(added =~= before.skip(n0).push(lcall).push(conn.calls@.last()));
                let nb = before.skip(n0).len() as int;
                assert(added.take(nb) =~= before.skip(n0));
                assert(added.take(added.len() - 2) =~= before.skip(n0));
                assert(added[added.len() - 2] == lcall);
                if made is Err {
                    assert(added.skip(nb) =~= seq![lcall, conn.calls@.last()]);
                    assert(dir_step_failed(added.skip(nb), steps[k as int], made->Err_0.0@));
                    assert(dir_calls_ok(added.take(nb), steps.take(k as int)));
                    assert(dir_calls(added, steps, Err(made->Err_0.0@)));
                }
            }
            match made {
                Ok(()) => {},
                Err(e) => {
                    return Err(e);
                },
            }
        }
        proof {
            assert(steps.take(k + 1) =~= steps.take(k as int).push(step));
            assert(steps == steps.take(k + 1) + dir_steps(cv.skip(k + 1), current@)) by {
                assert(steps.take(k as int) + (seq![step] + dir_steps(cv.skip(k + 1), step.2))
                    =~= steps.take(k as int).push(step) + dir_steps(cv.skip(k + 1), step.2));
            }
        }
        k = k + 1;
    }
    Ok(())
}

/// The local directory that copy and delete operations work on, as the
/// caller provides it; paths are relative to that directory.
pub trait LocalFiles {
    /// Whether something exists at `relative_path`.
    fn file_exists(&mut self, relative_path: &str) -> bool;

    /// The contents of the file at `relative_path`, or the text of the
    /// read error.
    fn read_file(&mut self, relative_path: &str) -> Result<Vec<u8>, String>;

    /// Writes `data` to `relative_path`, creating missing parent
    /// directories, or gives the text of the error.
    fn write_file(&mut self, relative_path: &str, data: &[u8]) -> Result<(), String>;

    /// Removes the file at `relative_path`, or gives the text of the error.
    fn remove_file(&mut self, relative_path: &str) -> Result<(), String>;
}

/// How the copy of the file `rel` to the local side, from the server path
/// `rp`, came to outcome `o`, over the connection calls `cc` from `c0` on
/// and the local calls `lc` from `l0` on: `Skipped` only with `skip` and
/// after the local side said the file exists; with `skip`, any other
/// outcome only after it said it does not; `Copied` only after the download
/// of `rp` and the write of those bytes to `rel` both answered `Ok`;
/// `Failed` with the text of a failed download or write.
pub open spec fn local_copy_outcome(
    o: OpOutcome,
    rel: Seq<char>,
    rp: Seq<char>,
    skip: bool,
    cc: Seq<Call>,
    c0: int,
    lc: Seq<Call>,
    l0: int,
) -> bool {
    &&& (o is Skipped || o is Copied || o is Failed)
    &&& (o is Skipped ==> skip && logged_since(lc, l0, Call::FileExists(rel, true)))
    &&& (skip && !(o is Skipped) ==> logged_since(lc, l0, Call::FileExists(rel, false)))
    &&& (o is Copied ==> exists|b: Seq<u8>|
        #[trigger] logged_since(cc, c0, Call::Retrieve(rp, Ok(b))) && logged_since(
            lc,
            l0,
            Call::WriteFile(rel, b, Ok(())),
        ))
    &&& (o matches OpOutcome::Failed(m) ==> (logged_since(cc, c0, Call::Retrieve(rp, Err(m@)))
        || exists|b: Seq<u8>| #[trigger] logged_since(lc, l0, Call::WriteFile(rel, b, Err(m@)))))
}

/// A local copy's account stays true as calls are added.
pub proof fn lemma_local_copy_grows(
    o: OpOutcome,
    rel: Seq<char>,
    rp: Seq<char>,
    skip: bool,
    cc: Seq<Call>,
    c0: int,
    lc: Seq<Call>,
    l0: int,
    cc2: Seq<Call>,
    lc2: Seq<Call>,
)
    requires
        local_copy_outcome(o, rel, rp, skip, cc, c0, lc, l0),
        extends(cc2, cc),
        extends(lc2, lc),
        0 <= c0,
        0 <= l0,
    ensures
        local_copy_outcome(o, rel, rp, skip, cc2, c0, lc2, l0),
{
    if o is Skipped {
        lemma_logged_grows(lc, lc2, l0, Call::FileExists(rel, true));
    }
    if skip && !(o is Skipped) {
        lemma_logged_grows(lc, lc2, l0, Call::FileExists(rel, false));
    }
    if o is Copied {
        let b = choose|b: Seq<u8>|
            #[trigger] logged_since(cc, c0, Call::Retrieve(rp, Ok(b))) && logged_since(
                lc,
                l0,
                Call::WriteFile(rel, b, Ok(())),
            );
        lemma_logged_grows(cc, cc2, c0, Call::Retrieve(rp, Ok(b)));
        lemma_logged_grows(lc, lc2, l0, Call::WriteFile(rel, b, Ok(())));
    }
    if o is Failed {
        let m = o->Failed_0@;
        if logged_since(cc, c0, Call::Retrieve(rp, Err(m))) {
            lemma_logged_grows(cc, cc2, c0, Call::Retrieve(rp, Err(m)));
        } else {
            let b = choose|b: Seq<u8>| #[trigger] logged_since(lc, l0, Call::WriteFile(rel, b, Err(m)));
            lemma_logged_grows(lc, lc2, l0, Call::WriteFile(rel, b, Err(m)));
        }
    }
}

/// Whether some row of `paths` that has a result in `outs`, and was not
/// `Skipped`, has the path `p`.
pub open spec fn kept_row(paths: Seq<Seq<char>>, outs: Seq<OpOutcome>, p: Seq<char>) -> bool {
    exists|i: int|
        0 <= i < outs.len() && i < paths.len() && #[trigger] paths[i] == p && !(outs[i] is Skipped)
}

proof fn lemma_kept_row_push(paths: Seq<Seq<char>>, outs: Seq<OpOutcome>, o: OpOutcome, p: Seq<char>)
    requires
        kept_row(paths, outs, p),
    ensures
        kept_row(paths, outs.push(o), p),
{
    let i = choose|i: int|
        0 <= i < outs.len() && i < paths.len() && #[trigger] paths[i] == p && !(outs[i] is Skipped);
    assert(outs.push(o)[i] == outs[i]);
}

/// Whether `cc` and `lc` are exactly the server and local calls that copying
/// the server file `rp` to the local file `rel` made, with outcome `o`:
/// with `skip`, first a check whether `rel` exists; for a skipped row
/// nothing more; else one download of `rp`, and when it gave bytes, one
/// write of those bytes to `rel`.
pub open spec fn local_row_calls(
    cc: Seq<Call>,
    lc: Seq<Call>,
    rel: Seq<char>,
    rp: Seq<char>,
    skip: bool,
    o: OpOutcome,
) -> bool {
    let rest = if skip {
        lc.drop_first()
    } else {
        lc
    };
    &&& (skip ==> lc.len() >= 1 && lc[0] is FileExists && lc[0]->FileExists_0 == rel)
    &&& (o is Skipped ==> skip && cc.len() == 0 && rest.len() == 0)
    &&& (!(o is Skipped) ==> cc.len() == 1 && cc[0] is Retrieve && cc[0]->Retrieve_0 == rp)
    &&& (!(o is Skipped) && cc[0]->Retrieve_1 is Err ==> rest.len() == 0)
    &&& (!(o is Skipped) && cc[0]->Retrieve_1 is Ok ==> rest.len() == 1 && rest[0] is WriteFile
        && rest[0]->WriteFile_0 == rel && rest[0]->WriteFile_1 == cc[0]->Retrieve_1->Ok_0)
}

/// Whether `cc` and `lc` are exactly the server and local calls that
/// copying the rows with local paths `rels` and server paths `rps` from the
/// server made, row after row, with outcomes `outs`: each row's calls as
/// `local_row_calls` states, in row order, and no others.
pub open spec fn local_rows_calls(
    cc: Seq<Call>,
    lc: Seq<Call>,
    rels: Seq<Seq<char>>,
    rps: Seq<Seq<char>>,
    skip: bool,
    outs: Seq<OpOutcome>,
) -> bool
    decreases outs.len(),
{
    if outs.len() == 0 {
        cc.len() == 0 && lc.len() == 0
    } else {
        exists|n: int, m: int|
            #![trigger cc.take(n), lc.take(m)]
            0 <= n <= cc.len() && 0 <= m <= lc.len() && local_row_calls(
                cc.skip(n),
                lc.skip(m),
                rels[outs.len() - 1],
                rps[outs.len() - 1],
                skip,
                outs.last(),
            ) && local_rows_calls(cc.take(n), lc.take(m), rels, rps, skip, outs.drop_last())
    }
}

/// Whether the calls of a local copy touched only rows that were not
/// skipped: every download is of such a row's remote file (`rps`) and
/// every write of such a row's local file (`rels`).
pub open spec fn local_copy_touches(
    cc: Seq<Call>,
    c0: int,
    lc: Seq<Call>,
    l0: int,
    rps: Seq<Seq<char>>,
    rels: Seq<Seq<char>>,
    outs: Seq<OpOutcome>,
) -> bool {
    &&& forall|j: int|
        c0 <= j < cc.len() ==> (#[trigger] cc[j] matches Call::Retrieve(p, _) ==> kept_row(
            rps,
            outs,
            p,
        ))
    &&& forall|j: int|
        l0 <= j < lc.len() ==> (#[trigger] lc[j] matches Call::WriteFile(p, _, _) ==> kept_row(
            rels,
            outs,
            p,
        ))
}

/// Whether `cs` are exactly the calls of making sure of the directories of
/// `rp` that ended in some error.
pub open spec fn dirs_failed(cs: Seq<Call>, rp: Seq<char>) -> bool {
    exists|e: Seq<char>| #[trigger] dir_calls(cs, needed_dirs(rp), Err(e))
}

/// Whether `cc` and `lc` are exactly the server and local calls that copying
/// the local file `rel` to the server path `rp` made, with outcome `o`:
/// with `skip`, first a listing of `rp`'s parent; for a skipped row nothing
/// more; else a read of `rel`, and when it gave bytes, the calls that made
/// sure of `rp`'s directories (`dir_calls`), then, when that succeeded, a
/// store of those bytes to `rp`.
pub open spec fn remote_row_calls(
    cc: Seq<Call>,
    lc: Seq<Call>,
    rel: Seq<char>,
    rp: Seq<char>,
    skip: bool,
    o: OpOutcome,
) -> bool {
    let rest = if skip {
        cc.drop_first()
    } else {
        cc
    };
    &&& (skip ==> cc.len() >= 1 && cc[0] is List && cc[0]->List_0 == parent_and_name(rp).0)
    &&& (o is Skipped ==> skip && rest.len() == 0 && lc.len() == 0)
    &&& (!(o is Skipped) ==> lc.len() == 1 && lc[0] is ReadFile && lc[0]->ReadFile_0 == rel)
    &&& (!(o is Skipped) && lc[0]->ReadFile_1 is Err ==> rest.len() == 0)
    &&& (!(o is Skipped) && lc[0]->ReadFile_1 is Ok ==> {
        ||| dirs_failed(rest, rp)
        ||| (rest.len() >= 1 && rest.last() is Store && rest.last()->Store_0 == rp
            && rest.last()->Store_1 == lc[0]->ReadFile_1->Ok_0 && dir_calls_ok(
            rest.drop_last(),
            needed_dirs(rp),
        ))
    })
}

/// Whether `cc` and `lc` are exactly the server and local calls that
/// copying the rows with local paths `rels` and server paths `rps` to the
/// server made, row after row, with outcomes `outs`: each row's calls as
/// `remote_row_calls` states, in row order, and no others.
pub open spec fn remote_rows_calls(
    cc: Seq<Call>,
    lc: Seq<Call>,
    rels: Seq<Seq<char>>,
    rps: Seq<Seq<char>>,
    skip: bool,
    outs: Seq<OpOutcome>,
) -> bool
    decreases outs.len(),
{
    if outs.len() == 0 {
        cc.len() == 0 && lc.len() == 0
    } else {
        exists|n: int, m: int|
            #![trigger cc.take(n), lc.take(m)]
            0 <= n <= cc.len() && 0 <= m <= lc.len() && remote_row_calls(
                cc.skip(n),
                lc.skip(m),
                rels[outs.len() - 1],
                rps[outs.len() - 1],
                skip,
                outs.last(),
            ) && remote_rows_calls(cc.take(n), lc.take(m), rels, rps, skip, outs.drop_last())
    }
}

/// Whether the calls of a remote copy touched only rows that were not
/// skipped: every store is of such a row's remote file (`rps`) and every
/// read of such a row's local file (`rels`).
pub open spec fn remote_copy_touches(
    cc: Seq<Call>,
    c0: int,
    lc: Seq<Call>,
    l0: int,
    rps: Seq<Seq<char>>,
    rels: Seq<Seq<char>>,
    outs: Seq<OpOutcome>,
) -> bool {
    &&& forall|j: int|
        c0 <= j < cc.len() ==> (#[trigger] cc[j] matches Call::Store(p, _, _) ==> kept_row(
            rps,
            outs,
            p,
        ))
    &&& forall|j: int|
        l0 <= j < lc.len() ==> (#[trigger] lc[j] matches Call::ReadFile(p, _) ==> kept_row(
            rels,
            outs,
            p,
        ))
}

fn copy_row_to_local<C: FtpConnection, L: LocalFiles>(
    conn: &mut Logged<C>,
    remote_dir: &str,
    local: &mut Logged<L>,
    rel: &str,
    skip_existing: bool,
) -> (o: OpOutcome)
    ensures
        extends(final(conn).calls@, old(conn).calls@),
        extends(final(local).calls@, old(local).calls@),
        local_copy_outcome(
            o,
            rel@,
            remote_path(remote_dir@, rel@),
            skip_existing,
            final(conn).calls@,
            old(conn).calls@.len() as int,
            final(local).calls@,
            old(local).calls@.len() as int,
        ),
        forall|j: int|
            old(conn).calls@.len() <= j < final(conn).calls@.len() ==> (
            #[trigger] final(conn).calls@[j] matches Call::Retrieve(p, _) && p == remote_path(
                remote_dir@,
                rel@,
            ) && !(o is Skipped)),
        forall|j: int|
            old(local).calls@.len() <= j < final(local).calls@.len() ==> ((
            #[trigger] final(local).calls@[j] matches Call::FileExists(p, _) && p == rel@) || (
            final(local).calls@[j] matches Call::WriteFile(p, _, _) && p == rel@ && !(o is Skipped))),
        local_row_calls(
            final(conn).calls@.skip(old(conn).calls@.len() as int),
            final(local).calls@.skip(old(local).calls@.len() as int),
            rel@,
            remote_path(remote_dir@, rel@),
            skip_existing,
            o,
        ),
{
    let ghost c0 = conn.calls@;
    let ghost l0 = local.calls@;
    proof {
        lemma_extends_refl(c0);
        lemma_extends_refl(l0);
    }
    let skipped = if skip_existing {
        let found = local.file_exists(rel);
        proof {
            lemma_logged_last(l0, Call::FileExists(rel@, found), l0.len() as int);
        }
        found
    } else {
        false
    };
    let ghost l1 = local.calls@;
    proof {
        let added = l1.skip(l0.len() as int);
        if skip_existing {
            assert(added =~= seq![l1.last()]);
            assert(added.drop_first() =~= l1.skip(l1.len() as int));
        } else {
            assert(added =~= l1.skip(l1.len() as int));
        }
        assert(l1.skip(l1.len() as int) =~= Seq::<Call>::empty());
        assert(conn.calls@.skip(c0.len() as int) =~= Seq::<Call>::empty());
    }
    if skipped {
        return OpOutcome::Skipped;
    }
    let remote_path = remote_path_of(remote_dir, rel);
    let download = conn.retr_to_buffer(remote_path.as_str());
    proof {
        lemma_logged_last(c0, Call::Retrieve(remote_path@, bytes_answer(download)), c0.len() as int);
    }
    proof {
        assert(conn.calls@.skip(c0.len() as int) =~= seq![
            Call::Retrieve(remote_path@, bytes_answer(download)),
        ]);
    }
    match download {
        Ok(data) => {
            let written = local.write_file(rel, data.as_slice());
            proof {
                let rest = if skip_existing {
                    local.calls@.skip(l0.len() as int).drop_first()
                } else {
                    local.calls@.skip(l0.len() as int)
                };
                assert(rest =~= seq![Call::WriteFile(rel@, data@, local_done_answer(written))]);
                lemma_logged_last(
                    l1,
                    Call::WriteFile(rel@, data@, local_done_answer(written)),
                    l0.len() as int,
                );
                lemma_extends_trans(l0, l1, local.calls@);
                if skip_existing {
                    lemma_logged_grows(l1, local.calls@, l0.len() as int, Call::FileExists(rel@, false));
                }
                assert(logged_since(conn.calls@, c0.len() as int, Call::Retrieve(remote_path@, Ok(data@))));
            }
            match written {
                Ok(()) => OpOutcome::Copied,
                Err(e) => OpOutcome::Failed(e),
            }
        },
        Err(e) => OpOutcome::Failed(e.0),
    }
}

/// Downloads each row's remote file `remote_dir/relative_path` into the
/// local directory (whose writes create missing parent directories), in
/// order; one failure does not stop the rest. With `skip_existing`, a row
/// whose local destination already exists is `Skipped` and not
/// overwritten. Each result names its row and came about as
/// `local_copy_outcome` states; only rows that were not skipped are
/// downloaded or written, and the calls made are exactly, row after row,
/// those that `local_row_calls` states.
pub fn copy_to_local<C: FtpConnection, L: LocalFiles>(
    conn: &mut Logged<C>,
    remote_dir: &str,
    local: &mut Logged<L>,
    rows: &[&CsvRow],
    skip_existing: bool,
) -> (r: Vec<OpResult>)
    ensures
        r@.len() == rows@.len(),
        extends(final(conn).calls@, old(conn).calls@),
        extends(final(local).calls@, old(local).calls@),
        forall|i: int|
            0 <= i < rows@.len() ==> {
                &&& (#[trigger] r@[i]).relative_path@ == rows@[i].relative_path@
                &&& local_copy_outcome(
                    r@[i].outcome,
                    rows@[i].relative_path@,
                    remote_path(remote_dir@, rows@[i].relative_path@),
                    skip_existing,
                    final(conn).calls@,
                    old(conn).calls@.len() as int,
                    final(local).calls@,
                    old(local).calls@.len() as int,
                )
            },
        local_copy_touches(
            final(conn).calls@,
            old(conn).calls@.len() as int,
            final(local).calls@,
            old(local).calls@.len() as int,
            rows@.map_values(|x: &CsvRow| remote_path(remote_dir@, x.relative_path@)),
            rows@.map_values(|x: &CsvRow| x.relative_path@),
            r@.map_values(|x: OpResult| x.outcome),
        ),
        local_rows_calls(
            final(conn).calls@.skip(old(conn).calls@.len() as int),
            final(local).calls@.skip(old(local).calls@.len() as int),
            rows@.map_values(|x: &CsvRow| x.relative_path@),
            rows@.map_values(|x: &CsvRow| remote_path(remote_dir@, x.relative_path@)),
            skip_existing,
            r@.map_values(|x: OpResult| x.outcome),
        ),
{
    let ghost rps = rows@.map_values(|x: &CsvRow| remote_path(remote_dir@, x.relative_path@));
    let ghost rels = rows@.map_values(|x: &CsvRow| x.relative_path@);
    let ghost cs0 = conn.calls@;
    let ghost ls0 = local.calls@;
    proof {
        lemma_extends_refl(cs0);
        lemma_extends_refl(ls0);
    }
    let mut results: Vec<OpResult> = Vec::new();
    proof {
        assert(cs0.skip(cs0.len() as int) =~= Seq::<Call>::empty());
        assert(ls0.skip(ls0.len() as int) =~= Seq::<Call>::empty());
        assert(results@.map_values(|x: OpResult| x.outcome) =~= Seq::<OpOutcome>::empty());
    }
    let mut i: usize = 0;
    while i < rows.len()
        invariant
            i <= rows@.len(),
            results@.len() == i,
            cs0 == old(conn).calls@,
            ls0 == old(local).calls@,
            extends(conn.calls@, cs0),
            extends(local.calls@, ls0),
            forall|k: int|
                0 <= k < i ==> {
                    &&& (#[trigger] results@[k]).relative_path@ == rows@[k].relative_path@
                    &&& local_copy_outcome(
                        results@[k].outcome,
                        rows@[k].relative_path@,
                        remote_path(remote_dir@, rows@[k].relative_path@),
                        skip_existing,
                        conn.calls@,
                        cs0.len() as int,
                        local.calls@,
                        ls0.len() as int,
                    )
                },
            rps == rows@.map_values(|x: &CsvRow| remote_path(remote_dir@, x.relative_path@)),
            rels == rows@.map_values(|x: &CsvRow| x.relative_path@),
            local_copy_touches(
                conn.calls@,
                cs0.len() as int,
                local.calls@,
                ls0.len() as int,
                rps,
                rels,
                results@.map_values(|x: OpResult| x.outcome),
            ),
            local_rows_calls(
                conn.calls@.skip(cs0.len() as int),
                local.calls@.skip(ls0.len() as int),
                rels,
                rps,
                skip_existing,
                results@.map_values(|x: OpResult| x.outcome),
            ),
        decreases rows@.len() - i,
    {
        let row = rows[i];
        let ghost cb = conn.calls@;
        let ghost lb = local.calls@;
        let outcome = copy_row_to_local(conn, remote_dir, local, row.relative_path.as_str(), skip_existing);
        proof {
            lemma_extends_trans(cs0, cb, conn.calls@);
            lemma_extends_trans(ls0, lb, local.calls@);
            lemma_local_copy_widen(
                outcome,
                row.relative_path@,
                remote_path(remote_dir@, row.relative_path@),
                skip_existing,
                conn.calls@,
                cb.len() as int,
                cs0.len() as int,
                local.calls@,
                lb.len() as int,
                ls0.len() as int,
            );
            assert forall|k: int| 0 <= k < i implies local_copy_outcome(
                results@[k].outcome,
                rows@[k].relative_path@,
                remote_path(remote_dir@, rows@[k].relative_path@),
                skip_existing,
                conn.calls@,
                cs0.len() as int,
                local.calls@,
                ls0.len() as int,
            ) by {
                lemma_local_copy_grows(
                    results@[k].outcome,
                    rows@[k].relative_path@,
                    remote_path(remote_dir@, rows@[k].relative_path@),
                    skip_existing,
                    cb,
                    cs0.len() as int,
                    lb,
                    ls0.len() as int,
                    conn.calls@,
                    local.calls@,
                );
            }
        }
        let ghost outs = results@.map_values(|x: OpResult| x.outcome);
        let ghost o = outcome;
        results.push(OpResult { relative_path: row.relative_path.clone(), outcome });
        proof {
            let outs2 = results@.map_values(|x: OpResult| x.outcome);
            assert(outs2 =~= outs.push(o));
            let cc = conn.calls@.skip(cs0.len() as int);
            let lc = local.calls@.skip(ls0.len() as int);
            let n = cb.len() - cs0.len();
            let m = lb.len() - ls0.len();
            assert(cc.take(n) =~= cb.skip(cs0.len() as int)) by {
                assert forall|q: int| 0 <= q < n implies cc.take(n)[q] == cb.skip(cs0.len() as int)[q] by {
                    assert(conn.calls@.take(cb.len() as int)[cs0.len() + q] == conn.calls@[cs0.len() + q]);
                }
            }
            assert(lc.take(m) =~= lb.skip(ls0.len() as int)) by {
                assert forall|q: int| 0 <= q < m implies lc.take(m)[q] == lb.skip(ls0.len() as int)[q] by {
                    assert(local.calls@.take(lb.len() as int)[ls0.len() + q] == local.calls@[ls0.len() + q]);
                }
            }
            assert(cc.skip(n) =~= conn.calls@.skip(cb.len() as int));
            assert(lc.skip(m) =~= local.calls@.skip(lb.len() as int));
            assert(outs2.drop_last() =~= outs);
            assert(local_rows_calls(cc, lc, rels, rps, skip_existing, outs2));
            assert(rps[i as int] == remote_path(remote_dir@, row.relative_path@));
            assert(rels[i as int] == row.relative_path@);
            assert forall|j: int|
                cs0.len() <= j < conn.calls@.len() implies (#[trigger] conn.calls@[j] matches Call::Retrieve(
                p,
                _,
            ) ==> kept_row(rps, outs2, p)) by {
                match conn.calls@[j] {
                    Call::Retrieve(p, _) => {
                        if j < cb.len() {
                            assert(conn.calls@[j] == cb[j]) by {
                                assert(conn.calls@.take(cb.len() as int)[j] == conn.calls@[j]);
                            }
                            lemma_kept_row_push(rps, outs, o, p);
                        } else {
                            assert(outs2[i as int] == o);
                            assert(rps[i as int] == p);
                        }
                    },
                    _ => {},
                }
            }
            assert forall|j: int|
                ls0.len() <= j < local.calls@.len() implies (#[trigger] local.calls@[j] matches Call::WriteFile(
                p,
                _,
                _,
            ) ==> kept_row(rels, outs2, p)) by {
                match local.calls@[j] {
                    Call::WriteFile(p, _, _) => {
                        if j < lb.len() {
                            assert(local.calls@[j] == lb[j]) by {
                                assert(local.calls@.take(lb.len() as int)[j] == local.calls@[j]);
                            }
                            lemma_kept_row_push(rels, outs, o, p);
                        } else {
                            assert(outs2[i as int] == o);
                            assert(rels[i as int] == p);
                        }
                    },
                    _ => {},
                }
            }
        }
        i = i + 1;
    }
    results
}

/// A local copy's account from later positions holds from earlier ones.
proof fn lemma_local_copy_widen(
    o: OpOutcome,
    rel: Seq<char>,
    rp: Seq<char>,
    skip: bool,
    cc: Seq<Call>,
    c0: int,
    c00: int,
    lc: Seq<Call>,
    l0: int,
    l00: int,
)
    requires
        local_copy_outcome(o, rel, rp, skip, cc, c0, lc, l0),
        c00 <= c0,
        l00 <= l0,
    ensures
        local_copy_outcome(o, rel, rp, skip, cc, c00, lc, l00),
{
    if o is Skipped {
        lemma_logged_from(lc, l0, l00, Call::FileExists(rel, true));
    }
    if skip && !(o is Skipped) {
        lemma_logged_from(lc, l0, l00, Call::FileExists(rel, false));
    }
    if o is Copied {
        let b = choose|b: Seq<u8>|
            #[trigger] logged_since(cc, c0, Call::Retrieve(rp, Ok(b))) && logged_since(
                lc,
                l0,
                Call::WriteFile(rel, b, Ok(())),
            );
        lemma_logged_from(cc, c0, c00, Call::Retrieve(rp, Ok(b)));
        lemma_logged_from(lc, l0, l00, Call::WriteFile(rel, b, Ok(())));
    }
    if o is Failed {
        let m = o->Failed_0@;
        if logged_since(cc, c0, Call::Retrieve(rp, Err(m))) {
            lemma_logged_from(cc, c0, c00, Call::Retrieve(rp, Err(m)));
        } else {
            let b = choose|b: Seq<u8>| #[trigger] logged_since(lc, l0, Call::WriteFile(rel, b, Err(m)));
            lemma_logged_from(lc, l0, l00, Call::WriteFile(rel, b, Err(m)));
        }
    }
}

/// Whether the calls of `cs` from `from` on include a listing of `dir`
/// that shows an entry named `name` of the given kind exactly when `shown`.
pub open spec fn listed_since(
    cs: Seq<Call>,
    from: int,
    dir: Seq<char>,
    name: Seq<char>,
    want_dir: bool,
    shown: bool,
) -> bool {
    exists|j: int| from <= j < cs.len() && listing_of(#[trigger] cs[j], dir, name, want_dir, shown)
}

/// Whether every directory containing `rp` was ensured by the calls of
/// `cs` from `from` on.
pub open spec fn dirs_ensured(cs: Seq<Call>, from: int, rp: Seq<char>) -> bool {
    forall|k: int|
        0 <= k < needed_dirs(rp).len() ==> dir_ensured(cs, from, #[trigger] needed_dirs(rp)[k])
}

/// How the upload of the local file `rel` to the server path `rp` came to
/// outcome `o`, over the connection calls `cc` from `c0` on and the local
/// calls `lc` from `l0` on: `Skipped` only with `skip` and after a listing
/// of the parent of `rp` showed the file; with `skip`, any other outcome
/// only after such a listing did not; `Copied` only after the read of
/// `rel` answered some bytes, every directory containing `rp` was ensured,
/// and the store of those bytes at `rp` answered `Ok`; `Failed` with the
/// text of a failed read, directory creation, directory listing or store.
pub open spec fn remote_copy_outcome(
    o: OpOutcome,
    rel: Seq<char>,
    rp: Seq<char>,
    skip: bool,
    cc: Seq<Call>,
    c0: int,
    lc: Seq<Call>,
    l0: int,
) -> bool {
    &&& (o is Skipped || o is Copied || o is Failed)
    &&& (o is Skipped ==> skip && listed_since(
        cc,
        c0,
        parent_and_name(rp).0,
        parent_and_name(rp).1,
        false,
        true,
    ))
    &&& (skip && !(o is Skipped) ==> listed_since(
        cc,
        c0,
        parent_and_name(rp).0,
        parent_and_name(rp).1,
        false,
        false,
    ))
    &&& (o is Copied ==> dirs_ensured(cc, c0, rp) && exists|b: Seq<u8>|
        #[trigger] logged_since(lc, l0, Call::ReadFile(rel, Ok(b))) && logged_since(
            cc,
            c0,
            Call::Store(rp, b, Ok(())),
        ))
    &&& (o matches OpOutcome::Failed(m) ==> (logged_since(lc, l0, Call::ReadFile(rel, Err(m@)))
        || (exists|d: Seq<char>| #[trigger] logged_since(cc, c0, Call::CreateDir(d, Err(m@))))
        || (exists|d: Seq<char>| #[trigger] logged_since(cc, c0, Call::List(d, Err(m@))))
        || (exists|b: Seq<u8>| #[trigger] logged_since(cc, c0, Call::Store(rp, b, Err(m@))))))
}

proof fn lemma_listed_grows(
    cs: Seq<Call>,
    cs2: Seq<Call>,
    from: int,
    from2: int,
    dir: Seq<char>,
    name: Seq<char>,
    want_dir: bool,
    shown: bool,
)
    requires
        listed_since(cs, from, dir, name, want_dir, shown),
        extends(cs2, cs),
        0 <= from2 <= from,
    ensures
        listed_since(cs2, from2, dir, name, want_dir, shown),
{
    let j = choose|j: int|
        from <= j < cs.len() && listing_of(#[trigger] cs[j], dir, name, want_dir, shown);
    assert(cs2.take(cs.len() as int)[j] == cs2[j]);
}

proof fn lemma_dirs_ensured_grows(cs: Seq<Call>, cs2: Seq<Call>, from: int, from2: int, rp: Seq<char>)
    requires
        dirs_ensured(cs, from, rp),
        extends(cs2, cs),
        0 <= from2 <= from,
    ensures
        dirs_ensured(cs2, from2, rp),
{
    let ad = needed_dirs(rp);
    assert forall|k: int| 0 <= k < ad.len() implies dir_ensured(cs2, from2, #[trigger] ad[k]) by {
        let d = ad[k];
        let j = choose|j: int|
            from <= j < cs.len() && (listing_of(#[trigger] cs[j], d.0, d.1, true, true) || created(
                cs[j],
                d.2,
            ));
        assert(cs2.take(cs.len() as int)[j] == cs2[j]);
    }
}

/// An upload's account stays true as calls are added, and holds from
/// earlier positions.
pub proof fn lemma_remote_copy_grows(
    o: OpOutcome,
    rel: Seq<char>,
    rp: Seq<char>,
    skip: bool,
    cc: Seq<Call>,
    c0: int,
    lc: Seq<Call>,
    l0: int,
    cc2: Seq<Call>,
    c02: int,
    lc2: Seq<Call>,
    l02: int,
)
    requires
        remote_copy_outcome(o, rel, rp, skip, cc, c0, lc, l0),
        extends(cc2, cc),
        extends(lc2, lc),
        0 <= c02 <= c0,
        0 <= l02 <= l0,
    ensures
        remote_copy_outcome(o, rel, rp, skip, cc2, c02, lc2, l02),
{
    let pn = parent_and_name(rp);
    if o is Skipped {
        lemma_listed_grows(cc, cc2, c0, c02, pn.0, pn.1, false, true);
    }
    if skip && !(o is Skipped) {
        lemma_listed_grows(cc, cc2, c0, c02, pn.0, pn.1, false, false);
    }
    if o is Copied {
        lemma_dirs_ensured_grows(cc, cc2, c0, c02, rp);
        let b = choose|b: Seq<u8>|
            #[trigger] logged_since(lc, l0, Call::ReadFile(rel, Ok(b))) && logged_since(
                cc,
                c0,
                Call::Store(rp, b, Ok(())),
            );
        lemma_logged_grows(lc, lc2, l0, Call::ReadFile(rel, Ok(b)));
        lemma_logged_from(lc2, l0, l02, Call::ReadFile(rel, Ok(b)));
        lemma_logged_grows(cc, cc2, c0, Call::Store(rp, b, Ok(())));
        lemma_logged_from(cc2, c0, c02, Call::Store(rp, b, Ok(())));
    }
    if o is Failed {
        let m = o->Failed_0@;
        if logged_since(lc, l0, Call::ReadFile(rel, Err(m))) {
            lemma_logged_grows(lc, lc2, l0, Call::ReadFile(rel, Err(m)));
            lemma_logged_from(lc2, l0, l02, Call::ReadFile(rel, Err(m)));
        } else if exists|d: Seq<char>| #[trigger] logged_since(cc, c0, Call::CreateDir(d, Err(m))) {
            let d = choose|d: Seq<char>| #[trigger] logged_since(cc, c0, Call::CreateDir(d, Err(m)));
            lemma_logged_grows(cc, cc2, c0, Call::CreateDir(d, Err(m)));
            lemma_logged_from(cc2, c0, c02, Call::CreateDir(d, Err(m)));
        } else if exists|d: Seq<char>| #[trigger] logged_since(cc, c0, Call::List(d, Err(m))) {
            let d = choose|d: Seq<char>| #[trigger] logged_since(cc, c0, Call::List(d, Err(m)));
            lemma_logged_grows(cc, cc2, c0, Call::List(d, Err(m)));
            lemma_logged_from(cc2, c0, c02, Call::List(d, Err(m)));
        } else {
            let b = choose|b: Seq<u8>| #[trigger] logged_since(cc, c0, Call::Store(rp, b, Err(m)));
            lemma_logged_grows(cc, cc2, c0, Call::Store(rp, b, Err(m)));
            lemma_logged_from(cc2, c0, c02, Call::Store(rp, b, Err(m)));
        }
    }
}

fn copy_row_to_remote<C: FtpConnection, L: LocalFiles>(
    conn: &mut Logged<C>,
    remote_dir: &str,
    local: &mut Logged<L>,
    rel: &str,
    skip_existing: bool,
) -> (o: OpOutcome)
    ensures
        extends(final(conn).calls@, old(conn).calls@),
        extends(final(local).calls@, old(local).calls@),
        remote_copy_outcome(
            o,
            rel@,
            remote_path(remote_dir@, rel@),
            skip_existing,
            final(conn).calls@,
            old(conn).calls@.len() as int,
            final(local).calls@,
            old(local).calls@.len() as int,
        ),
        forall|j: int|
            old(conn).calls@.len() <= j < final(conn).calls@.len() ==> (
            #[trigger] final(conn).calls@[j] is List || final(conn).calls@[j] is CreateDir || (
            final(conn).calls@[j] matches Call::Store(p, _, _) && p == remote_path(remote_dir@, rel@)
                && !(o is Skipped))),
        forall|j: int|
            old(local).calls@.len() <= j < final(local).calls@.len() ==> (
            #[trigger] final(local).calls@[j] matches Call::ReadFile(p, _) && p == rel@ && !(o is Skipped)),
        remote_row_calls(
            final(conn).calls@.skip(old(conn).calls@.len() as int),
            final(local).calls@.skip(old(local).calls@.len() as int),
            rel@,
            remote_path(remote_dir@, rel@),
            skip_existing,
            o,
        ),
{
    let ghost c0 = conn.calls@;
    let ghost l0 = local.calls@;
    proof {
        lemma_extends_refl(c0);
        lemma_extends_refl(l0);
    }
    let remote_path = remote_path_of(remote_dir, rel);
    let ghost pn = parent_and_name(remote_path@);
    let skipped = if skip_existing {
        let found = remote_file_exists(conn, remote_path.as_str());
        proof {
            assert(conn.calls@ =~= c0.push(conn.calls@.last()));
            lemma_logged_last(c0, conn.calls@.last(), c0.len() as int);
            let j = c0.len() as int;
            assert(listing_of(conn.calls@[j], pn.0, pn.1, false, found));
        }
        found
    } else {
        false
    };
    let ghost c1 = conn.calls@;
    proof {
        let added = c1.skip(c0.len() as int);
        if skip_existing {
            assert(added =~= seq![c1.last()]);
            assert(added.drop_first() =~= c1.skip(c1.len() as int));
        } else {
            assert(added =~= c1.skip(c1.len() as int));
        }
        assert(c1.skip(c1.len() as int) =~= Seq::<Call>::empty());
        assert(local.calls@.skip(l0.len() as int) =~= Seq::<Call>::empty());
    }
    if skipped {
        return OpOutcome::Skipped;
    }
    let read = local.read_file(rel);
    proof {
        lemma_logged_last(l0, Call::ReadFile(rel@, local_bytes_answer(read)), l0.len() as int);
    }
    proof {
        assert(local.calls@.skip(l0.len() as int) =~= seq![
            Call::ReadFile(rel@, local_bytes_answer(read)),
        ]);
    }
    let data = match read {
        Ok(d) => d,
        Err(e) => {
            return OpOutcome::Failed(e);
        },
    };
    let made = ensure_remote_dir(conn, remote_path.as_str());
    let ghost c2 = conn.calls@;
    proof {
        lemma_extends_trans(c0, c1, c2);
        if skip_existing {
            lemma_listed_grows(c1, c2, c0.len() as int, c0.len() as int, pn.0, pn.1, false, false);
        }
    }
    proof {
        let rest = if skip_existing {
            c2.skip(c0.len() as int).drop_first()
        } else {
            c2.skip(c0.len() as int)
        };
        assert(rest =~= c2.skip(c1.len() as int));
    }
    match made {
        Err(e) => {
            proof {
                assert(dir_calls(c2.skip(c1.len() as int), needed_dirs(remote_path@), Err(e.0@)));
                assert(dirs_failed(c2.skip(c1.len() as int), remote_path@));
                let j = c2.len() - 1;
                assert(c1.len() <= j);
                if c2.last() is CreateDir {
                    assert(c2[j] == Call::CreateDir(c2.last()->CreateDir_0, Err(e.0@)));
                    assert(logged_since(c2, c0.len() as int, Call::CreateDir(c2.last()->CreateDir_0, Err(e.0@))));
                } else {
                    assert(c2[j] == Call::List(c2.last()->List_0, Err(e.0@)));
                    assert(logged_since(c2, c0.len() as int, Call::List(c2.last()->List_0, Err(e.0@))));
                }
            }
            return OpOutcome::Failed(e.0);
        },
        Ok(()) => {},
    }
    let stored = conn.store_from_buffer(remote_path.as_str(), data.as_slice());
    proof {
        lemma_logged_last(c2, Call::Store(remote_path@, data@, done_answer(stored)), c0.len() as int);
        lemma_extends_trans(c0, c2, conn.calls@);
        lemma_dirs_ensured_grows(c2, conn.calls@, c1.len() as int, c0.len() as int, remote_path@);
        if skip_existing {
            lemma_listed_grows(c2, conn.calls@, c0.len() as int, c0.len() as int, pn.0, pn.1, false, false);
        }
        assert(logged_since(local.calls@, l0.len() as int, Call::ReadFile(rel@, Ok(data@))));
    }
    proof {
        let rest = if skip_existing {
            conn.calls@.skip(c0.len() as int).drop_first()
        } else {
            conn.calls@.skip(c0.len() as int)
        };
        assert(rest =~= c2.skip(c1.len() as int).push(conn.calls@.last()));
        assert(rest.drop_last() =~= c2.skip(c1.len() as int));
    }
    match stored {
        Ok(()) => OpOutcome::Copied,
        Err(e) => OpOutcome::Failed(e.0),
    }
}

/// Uploads each row's local file to `remote_dir/relative_path`, creating
/// missing remote parent directories first, in order; one failure does not
/// stop the rest. With `skip_existing`, a row whose remote destination is
/// already listed is `Skipped` and not overwritten. Each result names its
/// row and came about as `remote_copy_outcome` states; only rows that were
/// not skipped are read or stored, and the calls made are exactly, row
/// after row, those that `remote_row_calls` states.
pub fn copy_to_remote<C: FtpConnection, L: LocalFiles>(
    conn: &mut Logged<C>,
    remote_dir: &str,
    local: &mut Logged<L>,
    rows: &[&CsvRow],
    skip_existing: bool,
) -> (r: Vec<OpResult>)
    ensures
        r@.len() == rows@.len(),
        extends(final(conn).calls@, old(conn).calls@),
        extends(final(local).calls@, old(local).calls@),
        forall|i: int|
            0 <= i < rows@.len() ==> {
                &&& (#[trigger] r@[i]).relative_path@ == rows@[i].relative_path@
                &&& remote_copy_outcome(
                    r@[i].outcome,
                    rows@[i].relative_path@,
                    remote_path(remote_dir@, rows@[i].relative_path@),
                    skip_existing,
                    final(conn).calls@,
                    old(conn).calls@.len() as int,
                    final(local).calls@,
                    old(local).calls@.len() as int,
                )
            },
        remote_copy_touches(
            final(conn).calls@,
            old(conn).calls@.len() as int,
            final(local).calls@,
            old(local).calls@.len() as int,
            rows@.map_values(|x: &CsvRow| remote_path(remote_dir@, x.relative_path@)),
            rows@.map_values(|x: &CsvRow| x.relative_path@),
            r@.map_values(|x: OpResult| x.outcome),
        ),
        remote_rows_calls(
            final(conn).calls@.skip(old(conn).calls@.len() as int),
            final(local).calls@.skip(old(local).calls@.len() as int),
            rows@.map_values(|x: &CsvRow| x.relative_path@),
            rows@.map_values(|x: &CsvRow| remote_path(remote_dir@, x.relative_path@)),
            skip_existing,
            r@.map_values(|x: OpResult| x.outcome),
        ),
{
    let ghost rps = rows@.map_values(|x: &CsvRow| remote_path(remote_dir@, x.relative_path@));
    let ghost rels = rows@.map_values(|x: &CsvRow| x.relative_path@);
    let ghost cs0 = conn.calls@;
    let ghost ls0 = local.calls@;
    proof {
        lemma_extends_refl(cs0);
        lemma_extends_refl(ls0);
    }
    let mut results: Vec<OpResult> = Vec::new();
    proof {
        assert(cs0.skip(cs0.len() as int) =~= Seq::<Call>::empty());
        assert(ls0.skip(ls0.len() as int) =~= Seq::<Call>::empty());
        assert(results@.map_values(|x: OpResult| x.outcome) =~= Seq::<OpOutcome>::empty());
    }
    let mut i: usize = 0;
    while i < rows.len()
        invariant
            i <= rows@.len(),
            results@.len() == i,
            cs0 == old(conn).calls@,
            ls0 == old(local).calls@,
            extends(conn.calls@, cs0),
            extends(local.calls@, ls0),
            forall|k: int|
                0 <= k < i ==> {
                    &&& (#[trigger] results@[k]).relative_path@ == rows@[k].relative_path@
                    &&& remote_copy_outcome(
                        results@[k].outcome,
                        rows@[k].relative_path@,
                        remote_path(remote_dir@, rows@[k].relative_path@),
                        skip_existing,
                        conn.calls@,
                        cs0.len() as int,
                        local.calls@,
                        ls0.len() as int,
                    )
                },
            rps == rows@.map_values(|x: &CsvRow| remote_path(remote_dir@, x.relative_path@)),
            rels == rows@.map_values(|x: &CsvRow| x.relative_path@),
            remote_copy_touches(
                conn.calls@,
                cs0.len() as int,
                local.calls@,
                ls0.len() as int,
                rps,
                rels,
                results@.map_values(|x: OpResult| x.outcome),
            ),
            remote_rows_calls(
                conn.calls@.skip(cs0.len() as int),
                local.calls@.skip(ls0.len() as int),
                rels,
                rps,
                skip_existing,
                results@.map_values(|x: OpResult| x.outcome),
            ),
        decreases rows@.len() - i,
    {
        let row = rows[i];
        let ghost cb = conn.calls@;
        let ghost lb = local.calls@;
        let outcome = copy_row_to_remote(conn, remote_dir, local, row.relative_path.as_str(), skip_existing);
        proof {
            lemma_extends_trans(cs0, cb, conn.calls@);
            lemma_extends_trans(ls0, lb, local.calls@);
            lemma_extends_refl(conn.calls@);
            lemma_extends_refl(local.calls@);
            lemma_remote_copy_grows(
                outcome,
                row.relative_path@,
                remote_path(remote_dir@, row.relative_path@),
                skip_existing,
                conn.calls@,
                cb.len() as int,
                local.calls@,
                lb.len() as int,
                conn.calls@,
                cs0.len() as int,
                local.calls@,
                ls0.len() as int,
            );
            assert forall|k: int| 0 <= k < i implies remote_copy_outcome(
                results@[k].outcome,
                rows@[k].relative_path@,
                remote_path(remote_dir@, rows@[k].relative_path@),
                skip_existing,
                conn.calls@,
                cs0.len() as int,
                local.calls@,
                ls0.len() as int,
            ) by {
                lemma_remote_copy_grows(
                    results@[k].outcome,
                    rows@[k].relative_path@,
                    remote_path(remote_dir@, rows@[k].relative_path@),
                    skip_existing,
                    cb,
                    cs0.len() as int,
                    lb,
                    ls0.len() as int,
                    conn.calls@,
                    cs0.len() as int,
                    local.calls@,
                    ls0.len() as int,
                );
            }
        }
        let ghost outs = results@.map_values(|x: OpResult| x.outcome);
        let ghost o = outcome;
        results.push(OpResult { relative_path: row.relative_path.clone(), outcome });
        proof {
            let outs2 = results@.map_values(|x: OpResult| x.outcome);
            assert(outs2 =~= outs.push(o));
            let cc = conn.calls@.skip(cs0.len() as int);
            let lc = local.calls@.skip(ls0.len() as int);
            let n = cb.len() - cs0.len();
            let m = lb.len() - ls0.len();
            assert(cc.take(n) =~= cb.skip(cs0.len() as int)) by {
                assert forall|q: int| 0 <= q < n implies cc.take(n)[q] == cb.skip(cs0.len() as int)[q] by {
                    assert(conn.calls@.take(cb.len() as int)[cs0.len() + q] == conn.calls@[cs0.len() + q]);
                }
            }
            assert(lc.take(m) =~= lb.skip(ls0.len() as int)) by {
                assert forall|q: int| 0 <= q < m implies lc.take(m)[q] == lb.skip(ls0.len() as int)[q] by {
                    assert(local.calls@.take(lb.len() as int)[ls0.len() + q] == local.calls@[ls0.len() + q]);
                }
            }
            assert(cc.skip(n) =~= conn.calls@.skip(cb.len() as int));
            assert(lc.skip(m) =~= local.calls@.skip(lb.len() as int));
            assert(outs2.drop_last() =~= outs);
            assert(remote_rows_calls(cc, lc, rels, rps, skip_existing, outs2));
            assert(rps[i as int] == remote_path(remote_dir@, row.relative_path@));
            assert(rels[i as int] == row.relative_path@);
            assert forall|j: int|
                cs0.len() <= j < conn.calls@.len() implies (#[trigger] conn.calls@[j] matches Call::Store(
                p,
                _,
                _,
            ) ==> kept_row(rps, outs2, p)) by {
                match conn.calls@[j] {
                    Call::Store(p, _, _) => {
                        if j < cb.len() {
                            assert(conn.calls@[j] == cb[j]) by {
                                assert(conn.calls@.take(cb.len() as int)[j] == conn.calls@[j]);
                            }
                            lemma_kept_row_push(rps, outs, o, p);
                        } else {
                            assert(outs2[i as int] == o);
                            assert(rps[i as int] == p);
                        }
                    },
                    _ => {},
                }
            }
            assert forall|j: int|
                ls0.len() <= j < local.calls@.len() implies (#[trigger] local.calls@[j] matches Call::ReadFile(
                p,
                _,
            ) ==> kept_row(rels, outs2, p)) by {
                match local.calls@[j] {
                    Call::ReadFile(p, _) => {
                        if j < lb.len() {
                            assert(local.calls@[j] == lb[j]) by {
                                assert(local.calls@.take(lb.len() as int)[j] == local.calls@[j]);
                            }
                            lemma_kept_row_push(rels, outs, o, p);
                        } else {
                            assert(outs2[i as int] == o);
                            assert(rels[i as int] == p);
                        }
                    },
                    _ => {},
                }
            }
        }
        i = i + 1;
    }
    results
}

/// Deletes each row's local file, in order; one failure does not stop the
/// rest. Exactly one call is made per row, the removal of its relative
/// path, and each result names its row and is `Deleted` or `Failed` with
/// the error text, as the removal answered.
pub fn delete_local<L: LocalFiles>(local: &mut Logged<L>, rows: &[&CsvRow]) -> (r: Vec<OpResult>)
    ensures
        r@.len() == rows@.len(),
        final(local).calls@.len() == old(local).calls@.len() + rows@.len(),
        final(local).calls@.take(old(local).calls@.len() as int) == old(local).calls@,
        forall|i: int|
            0 <= i < rows@.len() ==> {
                &&& (#[trigger] r@[i]).relative_path@ == rows@[i].relative_path@
                &&& local_removal(
                    final(local).calls@[old(local).calls@.len() + i],
                    rows@[i].relative_path@,
                    r@[i].outcome,
                )
            },
{
    let ghost start = local.calls@;
    let mut results: Vec<OpResult> = Vec::new();
    let mut i: usize = 0;
    while i < rows.len()
        invariant
            i <= rows@.len(),
            results@.len() == i,
            local.calls@.len() == start.len() + i,
            local.calls@.take(start.len() as int) == start,
            forall|k: int|
                0 <= k < i ==> {
                    &&& (#[trigger] results@[k]).relative_path@ == rows@[k].relative_path@
                    &&& local_removal(
                        local.calls@[start.len() + k],
                        rows@[k].relative_path@,
                        results@[k].outcome,
                    )
                },
        decreases rows@.len() - i,
    {
        let row = rows[i];
        let ghost before = local.calls@;
        let outcome = match local.remove_file(row.relative_path.as_str()) {
            Ok(()) => OpOutcome::Deleted,
            Err(e) => OpOutcome::Failed(e),
        };
        results.push(OpResult { relative_path: row.relative_path.clone(), outcome });
        assert(local.calls@.take(start.len() as int) =~= before.take(start.len() as int));
        assert(forall|j: int| 0 <= j < before.len() ==> #[trigger] local.calls@[j] == before[j]);
        i = i + 1;
    }
    results
}

} // verus!
