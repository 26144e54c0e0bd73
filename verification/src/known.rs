//! Already-known MD5 hashes by relative path, such as those recycled from an
//! earlier CSV report.

use vstd::prelude::*;
use crate::text::str_equal;

verus! {

/// The map that a sequence of (path, hash) insertions builds: a later
/// insertion for a path replaces an earlier one.
pub open spec fn pairs_map(s: Seq<(String, String)>) -> Map<Seq<char>, Seq<char>>
    decreases s.len(),
{
    if s.len() == 0 {
        Map::empty()
    } else {
        pairs_map(s.drop_last()).insert(s.last().0@, s.last().1@)
    }
}

/// Known MD5 hashes keyed by relative path.
#[derive(Debug, Clone)]
pub struct KnownMd5 {
    pairs: Vec<(String, String)>,
}

impl View for KnownMd5 {
    type V = Map<Seq<char>, Seq<char>>;

    closed spec fn view(&self) -> Map<Seq<char>, Seq<char>> {
        pairs_map(self.pairs@)
    }
}

proof fn lemma_pairs_map_empty(s: Seq<(String, String)>)
    ensures
        pairs_map(s).dom().len() == 0 <==> s.len() == 0,
        pairs_map(s).dom().finite(),
    decreases s.len(),
{
    if s.len() > 0 {
        lemma_pairs_map_empty(s.drop_last());
        let m = pairs_map(s);
        assert(m.dom().contains(s.last().0@));
        vstd::set_lib::lemma_set_empty_equivalency_len(m.dom());
    }
}

impl KnownMd5 {
    /// An empty map.
    pub fn new() -> (r: KnownMd5)
        ensures
            r@ == Map::<Seq<char>, Seq<char>>::empty(),
    {
        KnownMd5 { pairs: Vec::new() }
    }

    /// Records `md5` as the hash of `path`, replacing any earlier one.
    pub fn insert(&mut self, path: String, md5: String)
        ensures
            final(self)@ == old(self)@.insert(path@, md5@),
    {
        let ghost before = self.pairs@;
        self.pairs.push((path, md5));
        assert(self.pairs@.drop_last() =~= before);
    }

    /// The hash recorded for `path`, if any.
    pub fn get(&self, path: &str) -> (r: Option<&String>)
        ensures
            r is None <==> !self@.contains_key(path@),
            r matches Some(v) ==> v@ == self@[path@],
    {
        let mut i = self.pairs.len();
        assert(self.pairs@.take(i as int) =~= self.pairs@);
        while i > 0
            invariant
                i <= self.pairs@.len(),
                pairs_map(self.pairs@).contains_key(path@) == pairs_map(
                    self.pairs@.take(i as int),
                ).contains_key(path@),
                pairs_map(self.pairs@.take(i as int)).contains_key(path@) ==> pairs_map(
                    self.pairs@,
                )[path@] == pairs_map(self.pairs@.take(i as int))[path@],
            decreases i,
        {
            let ghost t = self.pairs@.take(i as int);
            assert(t.drop_last() =~= self.pairs@.take(i - 1));
            assert(t.last() == self.pairs@[i - 1]);
            if str_equal(self.pairs[i - 1].0.as_str(), path) {
                return Some(&self.pairs[i - 1].1);
            }
            i = i - 1;
        }
        assert(self.pairs@.take(0) =~= Seq::<(String, String)>::empty());
        None
    }

    /// Whether no hash is recorded.
    pub fn is_empty(&self) -> (r: bool)
        ensures
            r == (self@.dom().len() == 0),
    {
        proof {
            lemma_pairs_map_empty(self.pairs@);
        }
        self.pairs.len() == 0
    }
}

/// Looking up a path right after recording a hash for it gives that hash.
pub proof fn lemma_get_after_insert(m: Map<Seq<char>, Seq<char>>, p: Seq<char>, h: Seq<char>)
    ensures
        m.insert(p, h).contains_key(p),
        m.insert(p, h)[p] == h,
{
}

} // verus!
