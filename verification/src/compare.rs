//! Combines local and remote entry lists into size-based diff results.

use vstd::prelude::*;
use crate::diff::{DiffEntry, DiffStatus};
use crate::local::LocalEntry;
use crate::remote::RemoteEntry;
use crate::text::{
    chars_less, chars_lt, chars_of, lemma_chars_lt_irreflexive, lemma_chars_lt_total,
    lemma_chars_lt_transitive, string_of,
};

verus! {

/// The value paired with the last occurrence of `p` in `paths`, if any
/// (a later entry for the same path replaces an earlier one).
pub open spec fn last_value(paths: Seq<Seq<char>>, values: Seq<u64>, p: Seq<char>) -> Option<u64>
    decreases paths.len(),
{
    if paths.len() == 0 {
        None
    } else if paths.last() == p {
        Some(values[paths.len() - 1])
    } else {
        last_value(paths.drop_last(), values.take(paths.len() - 1), p)
    }
}

/// The relative paths of `local`, in order.
pub open spec fn local_paths(local: Seq<LocalEntry>) -> Seq<Seq<char>> {
    local.map_values(|e: LocalEntry| e.relative_path@)
}

/// The relative paths of `remote`, in order.
pub open spec fn remote_paths(remote: Seq<RemoteEntry>) -> Seq<Seq<char>> {
    remote.map_values(|e: RemoteEntry| e.relative_path@)
}

/// The size that `local` records for `p`: that of its last entry for `p`.
pub open spec fn local_size_of(local: Seq<LocalEntry>, p: Seq<char>) -> Option<u64> {
    last_value(local_paths(local), local.map_values(|e: LocalEntry| e.size), p)
}

/// The size that `remote` records for `p`: that of its last entry for `p`.
pub open spec fn remote_size_of(remote: Seq<RemoteEntry>, p: Seq<char>) -> Option<u64> {
    last_value(remote_paths(remote), remote.map_values(|e: RemoteEntry| e.size), p)
}

/// The status of a path from its local and remote sizes.
pub open spec fn status_for(l: Option<u64>, r: Option<u64>) -> DiffStatus {
    match (l, r) {
        (Some(_), None) => DiffStatus::LocalOnly,
        (None, Some(_)) => DiffStatus::RemoteOnly,
        (Some(a), Some(b)) => if a == b {
            DiffStatus::Match
        } else {
            DiffStatus::SizeMismatch
        },
        (None, None) => DiffStatus::Match,
    }
}

/// `e` is the size-only comparison result for path `p` with local size `l`
/// and remote size `r`; no hash is filled in yet.
pub open spec fn is_compared_entry(e: DiffEntry, p: Seq<char>, l: Option<u64>, r: Option<u64>) -> bool {
    &&& e.relative_path@ == p
    &&& e.status == status_for(l, r)
    &&& e.local_size == l
    &&& e.remote_size == r
    &&& e.local_md5 is None
    &&& e.remote_md5 is None
}

/// The views of a sequence of character vectors.
pub open spec fn key_views(ks: Seq<Vec<char>>) -> Seq<Seq<char>> {
    ks.map_values(|k: Vec<char>| k@)
}

/// Strictly increasing in `chars_lt`, hence free of duplicates.
pub open spec fn strictly_sorted(ks: Seq<Seq<char>>) -> bool {
    forall|i: int, j: int| 0 <= i < j < ks.len() ==> chars_lt(ks[i], ks[j])
}

proof fn lemma_last_value_some(paths: Seq<Seq<char>>, values: Seq<u64>, p: Seq<char>)
    requires
        values.len() == paths.len(),
    ensures
        last_value(paths, values, p) is Some <==> paths.contains(p),
    decreases paths.len(),
{
    if paths.len() > 0 {
        lemma_last_value_some(paths.drop_last(), values.take(paths.len() - 1), p);
        if paths.drop_last().contains(p) {
            let k = choose|k: int| 0 <= k < paths.drop_last().len() && paths.drop_last()[k] == p;
            assert(paths[k] == p);
        }
        if paths.contains(p) && paths.last() != p {
            let k = choose|k: int| 0 <= k < paths.len() && paths[k] == p;
            assert(paths.drop_last()[k] == p);
        }
    }
}

/// Looks up the value of the last occurrence of `key` in `paths`.
fn lookup_last(paths: &Vec<Vec<char>>, values: &Vec<u64>, key: &Vec<char>) -> (r: Option<u64>)
    requires
        values@.len() == paths@.len(),
    ensures
        r == last_value(key_views(paths@), values@, key@),
{
    let mut i = paths.len();
    assert(key_views(paths@).take(i as int) =~= key_views(paths@));
    assert(values@.take(i as int) =~= values@);
    while i > 0
        invariant
            i <= paths@.len(),
            values@.len() == paths@.len(),
            last_value(key_views(paths@), values@, key@) == last_value(
                key_views(paths@).take(i as int),
                values@.take(i as int),
                key@,
            ),
        decreases i,
    {
        let ghost kv = key_views(paths@).take(i as int);
        let ghost vv = values@.take(i as int);
        assert(kv.drop_last() =~= key_views(paths@).take(i - 1));
        assert(vv.take(kv.len() - 1) =~= values@.take(i - 1));
        if !chars_less(paths[i - 1].as_slice(), key.as_slice()) && !chars_less(
            key.as_slice(),
            paths[i - 1].as_slice(),
        ) {
            proof {
                lemma_chars_lt_total(paths@[i - 1]@, key@);
            }
            assert(kv.last() == key@);
            return Some(values[i - 1]);
        }
        proof {
            lemma_chars_lt_irreflexive(key@);
        }
        i = i - 1;
    }
    assert(key_views(paths@).take(0) =~= Seq::<Seq<char>>::empty());
    None
}

/// Inserts `x` into the strictly sorted `keys`, unless it is already there.
fn insert_key(keys: &mut Vec<Vec<char>>, x: Vec<char>)
    requires
        strictly_sorted(key_views(old(keys)@)),
    ensures
        strictly_sorted(key_views(final(keys)@)),
        forall|y: Seq<char>|
            key_views(final(keys)@).contains(y) <==> (key_views(old(keys)@).contains(y) || y
                == x@),
{
    let ghost old_keys = key_views(keys@);
    let mut i: usize = 0;
    while i < keys.len() && chars_less(keys[i].as_slice(), x.as_slice())
        invariant
            i <= keys@.len(),
            key_views(keys@) == old_keys,
            forall|k: int| 0 <= k < i ==> chars_lt(old_keys[k], x@),
        decreases keys@.len() - i,
    {
        i = i + 1;
    }
    if i < keys.len() && !chars_less(x.as_slice(), keys[i].as_slice()) {
        proof {
            lemma_chars_lt_total(keys@[i as int]@, x@);
            assert(old_keys[i as int] == x@);
        }
        return;
    }
    proof {
        if i < keys@.len() {
            lemma_chars_lt_total(keys@[i as int]@, x@);
        }
    }
    let ghost xv = x@;
    keys.insert(i, x);
    let ghost nk = key_views(keys@);
    assert(nk =~= old_keys.insert(i as int, xv));
    assert forall|a: int, b: int| 0 <= a < b < nk.len() implies chars_lt(nk[a], nk[b]) by {
        if b < i {
        } else if b == i {
        } else if a < i {
        } else if a == i {
            if b - 1 > i {
                lemma_chars_lt_transitive(xv, old_keys[i as int], old_keys[b - 1]);
            }
        } else {
        }
    }
    assert forall|y: Seq<char>| nk.contains(y) <==> (old_keys.contains(y) || y == xv) by {
        if nk.contains(y) {
            let k = choose|k: int| 0 <= k < nk.len() && nk[k] == y;
            if k < i {
                assert(old_keys[k] == y);
            } else if k > i {
                assert(old_keys[k - 1] == y);
            }
        }
        if old_keys.contains(y) {
            let k = choose|k: int| 0 <= k < old_keys.len() && old_keys[k] == y;
            if k < i {
                assert(nk[k] == y);
            } else {
                assert(nk[k + 1] == y);
            }
        }
        if y == xv {
            assert(nk[i as int] == y);
        }
    }
}

/// Whether `out` is the comparison of `local` with `remote`: sorted by
/// path without duplicates, one entry for each path that either side
/// records, each with both sides' sizes and the status they give.
pub open spec fn is_comparison(local: Seq<LocalEntry>, remote: Seq<RemoteEntry>, out: Seq<DiffEntry>) -> bool {
    &&& strictly_sorted(out.map_values(|e: DiffEntry| e.relative_path@))
    &&& forall|i: int|
        #![trigger out[i]]
        0 <= i < out.len() ==> {
            let p = out[i].relative_path@;
            &&& (local_size_of(local, p) is Some || remote_size_of(remote, p) is Some)
            &&& is_compared_entry(out[i], p, local_size_of(local, p), remote_size_of(remote, p))
        }
    &&& forall|p: Seq<char>|
        (local_size_of(local, p) is Some || remote_size_of(remote, p) is Some) ==> exists|i: int|
            0 <= i < out.len() && #[trigger] out[i].relative_path@ == p
}

/// Compares `local` and `remote` entries by relative path and size,
/// producing one `DiffEntry` per distinct relative path seen on either
/// side, in increasing path order. When one side lists a path more than
/// once, its last entry for the path counts. Does not consider hashes;
/// see `hash::apply_hash_comparison` for the optional hash-based upgrade.
pub fn compare_entries(local: &[LocalEntry], remote: &[RemoteEntry]) -> (out: Vec<DiffEntry>)
    ensures
        is_comparison(local@, remote@, out@),
{
    let mut lpaths: Vec<Vec<char>> = Vec::new();
    let mut lsizes: Vec<u64> = Vec::new();
    let mut k: usize = 0;
    while k < local.len()
        invariant
            k <= local@.len(),
            lpaths@.len() == k,
            lsizes@.len() == k,
            forall|j: int| 0 <= j < k ==> lpaths@[j]@ == local@[j].relative_path@,
            forall|j: int| 0 <= j < k ==> lsizes@[j] == local@[j].size,
        decreases local@.len() - k,
    {
        lpaths.push(chars_of(local[k].relative_path.as_str()));
        lsizes.push(local[k].size);
        k = k + 1;
    }
    assert(key_views(lpaths@) =~= local_paths(local@));
    assert(lsizes@ =~= local@.map_values(|e: LocalEntry| e.size));
    let mut rpaths: Vec<Vec<char>> = Vec::new();
    let mut rsizes: Vec<u64> = Vec::new();
    k = 0;
    while k < remote.len()
        invariant
            k <= remote@.len(),
            rpaths@.len() == k,
            rsizes@.len() == k,
            forall|j: int| 0 <= j < k ==> rpaths@[j]@ == remote@[j].relative_path@,
            forall|j: int| 0 <= j < k ==> rsizes@[j] == remote@[j].size,
        decreases remote@.len() - k,
    {
        rpaths.push(chars_of(remote[k].relative_path.as_str()));
        rsizes.push(remote[k].size);
        k = k + 1;
    }
    assert(key_views(rpaths@) =~= remote_paths(remote@));
    assert(rsizes@ =~= remote@.map_values(|e: RemoteEntry| e.size));
    let ghost lv = key_views(lpaths@);
    let ghost rv = key_views(rpaths@);
    let mut keys: Vec<Vec<char>> = Vec::new();
    k = 0;
    while k < lpaths.len()
        invariant
            k <= lpaths@.len(),
            lpaths@.len() == local@.len(),
            lv == key_views(lpaths@),
            lv == local_paths(local@),
            strictly_sorted(key_views(keys@)),
            forall|y: Seq<char>|
                #![trigger key_views(keys@).contains(y)]
                key_views(keys@).contains(y) <==> exists|j: int| 0 <= j < k && #[trigger] lv[j] == y,
        decreases lpaths@.len() - k,
    {
        insert_key(&mut keys, chars_of(local[k].relative_path.as_str()));
        assert(lv[k as int] == local@[k as int].relative_path@);
        k = k + 1;
    }
    assert forall|y: Seq<char>| key_views(keys@).contains(y) <==> lv.contains(y) by {
        if lv.contains(y) {
            let j = choose|j: int| 0 <= j < lv.len() && lv[j] == y;
            assert(lv[j] == y);
        }
    }
    k = 0;
    while k < rpaths.len()
        invariant
            k <= rpaths@.len(),
            rpaths@.len() == remote@.len(),
            lv == key_views(lpaths@),
            rv == key_views(rpaths@),
            rv == remote_paths(remote@),
            strictly_sorted(key_views(keys@)),
            forall|y: Seq<char>|
                #![trigger key_views(keys@).contains(y)]
                key_views(keys@).contains(y) <==> (lv.contains(y) || exists|j: int|
                    0 <= j < k && #[trigger] rv[j] == y),
        decreases rpaths@.len() - k,
    {
        let ghost before = key_views(keys@);
        insert_key(&mut keys, chars_of(remote[k].relative_path.as_str()));
        assert(rv[k as int] == remote@[k as int].relative_path@);
        assert forall|y: Seq<char>|
            key_views(keys@).contains(y) <==> (lv.contains(y) || exists|j: int|
                0 <= j < k + 1 && #[trigger] rv[j] == y) by {
            if exists|j: int| 0 <= j < k + 1 && #[trigger] rv[j] == y {
                let j = choose|j: int| 0 <= j < k + 1 && #[trigger] rv[j] == y;
                if j < k {
                    assert(exists|j2: int| 0 <= j2 < k && #[trigger] rv[j2] == y);
                    assert(before.contains(y));
                }
            }
            if before.contains(y) && !lv.contains(y) {
                let j = choose|j: int| 0 <= j < k && #[trigger] rv[j] == y;
                assert(0 <= j < k + 1 && rv[j] == y);
            }
        }
        k = k + 1;
    }
    assert forall|y: Seq<char>|
        key_views(keys@).contains(y) <==> (lv.contains(y) || rv.contains(y)) by {
        if rv.contains(y) {
            let j = choose|j: int| 0 <= j < rv.len() && rv[j] == y;
            assert(rv[j] == y);
        }
        if key_views(keys@).contains(y) && !lv.contains(y) {
            let j = choose|j: int| 0 <= j < rpaths@.len() && #[trigger] rv[j] == y;
            assert(0 <= j < rv.len() && rv[j] == y);
            assert(rv.contains(y));
        }
        if rv.contains(y) {
            let j = choose|j: int| 0 <= j < rv.len() && rv[j] == y;
            assert(0 <= j < rpaths@.len() && rv[j] == y);
        }
    }
    let ghost kv = key_views(keys@);
    let mut out: Vec<DiffEntry> = Vec::new();
    let mut i: usize = 0;
    while i < keys.len()
        invariant
            i <= keys@.len(),
            kv == key_views(keys@),
            lv == key_views(lpaths@),
            rv == key_views(rpaths@),
            lv == local_paths(local@),
            rv == remote_paths(remote@),
            lsizes@ == local@.map_values(|e: LocalEntry| e.size),
            rsizes@ == remote@.map_values(|e: RemoteEntry| e.size),
            lsizes@.len() == lpaths@.len(),
            rsizes@.len() == rpaths@.len(),
            out@.len() == i,
            forall|m: int|
                #![trigger out@[m]]
                0 <= m < i ==> is_compared_entry(
                    out@[m],
                    kv[m],
                    local_size_of(local@, kv[m]),
                    remote_size_of(remote@, kv[m]),
                ),
        decreases keys@.len() - i,
    {
        let key = &keys[i];
        let l = lookup_last(&lpaths, &lsizes, key);
        let r = lookup_last(&rpaths, &rsizes, key);
        let status = match (l, r) {
            (Some(_), None) => DiffStatus::LocalOnly,
            (None, Some(_)) => DiffStatus::RemoteOnly,
            (Some(a), Some(b)) => if a == b {
                DiffStatus::Match
            } else {
                DiffStatus::SizeMismatch
            },
            (None, None) => DiffStatus::Match,
        };
        let entry = DiffEntry {
            relative_path: string_of(key.as_slice()),
            status,
            local_size: l,
            remote_size: r,
            local_md5: None,
            remote_md5: None,
        };
        out.push(entry);
        i = i + 1;
    }
    proof {
        let ov = out@.map_values(|e: DiffEntry| e.relative_path@);
        assert(ov =~= kv);
        assert forall|m: int|
            #![trigger out@[m]]
            0 <= m < out@.len() implies (local_size_of(local@, out@[m].relative_path@) is Some
                || remote_size_of(remote@, out@[m].relative_path@) is Some) by {
            let p = kv[m];
            assert(kv.contains(p));
            lemma_last_value_some(lv, lsizes@, p);
            lemma_last_value_some(rv, rsizes@, p);
        }
        assert forall|p: Seq<char>|
            (local_size_of(local@, p) is Some || remote_size_of(remote@, p) is Some) implies exists|
                i: int,
            |
                0 <= i < out@.len() && #[trigger] out@[i].relative_path@ == p by {
            lemma_last_value_some(lv, lsizes@, p);
            lemma_last_value_some(rv, rsizes@, p);
            assert(kv.contains(p));
            let m = choose|m: int| 0 <= m < kv.len() && kv[m] == p;
            assert(out@[m].relative_path@ == p);
        }
    }
    out
}

} // verus!
