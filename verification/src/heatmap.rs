//! The usage-frequency store: a mapping from entry name to launch count,
//! kept as a vector of pairs with pairwise-distinct keys and modelled as a
//! `Map<Seq<char>, u32>`.  The text serialization lives in
//! `heatmap_text`; reading and writing the backing file is the embedding
//! program's job.

use vstd::prelude::*;
use vstd::string::*;
use crate::text::str_eq;

verus! {

/// The keys of a pair sequence are pairwise distinct.
pub open spec fn unique_keys(ps: Seq<(Seq<char>, u32)>) -> bool {
    forall|i: int, j: int| 0 <= i < j < ps.len() ==> ps[i].0 != ps[j].0
}

/// The mapping a pair sequence denotes; on a duplicate key the later pair
/// would win.
pub open spec fn map_of_pairs(ps: Seq<(Seq<char>, u32)>) -> Map<Seq<char>, u32>
    decreases ps.len(),
{
    if ps.len() == 0 {
        Map::empty()
    } else {
        map_of_pairs(ps.drop_last()).insert(ps.last().0, ps.last().1)
    }
}

pub proof fn lemma_map_of_pairs_present(ps: Seq<(Seq<char>, u32)>, i: int)
    requires
        unique_keys(ps),
        0 <= i < ps.len(),
    ensures
        map_of_pairs(ps).contains_key(ps[i].0),
        map_of_pairs(ps)[ps[i].0] == ps[i].1,
    decreases ps.len(),
{
    if i == ps.len() - 1 {
    } else {
        assert(unique_keys(ps.drop_last()));
        assert(ps.drop_last()[i] == ps[i]);
        lemma_map_of_pairs_present(ps.drop_last(), i);
        assert(ps.last().0 != ps[i].0);
    }
}

pub proof fn lemma_map_of_pairs_absent(ps: Seq<(Seq<char>, u32)>, k: Seq<char>)
    requires
        forall|i: int| 0 <= i < ps.len() ==> ps[i].0 != k,
    ensures
        !map_of_pairs(ps).contains_key(k),
    decreases ps.len(),
{
    if ps.len() > 0 {
        assert(forall|i: int| 0 <= i < ps.drop_last().len() ==> ps.drop_last()[i].0 != k);
        lemma_map_of_pairs_absent(ps.drop_last(), k);
        assert(ps.last().0 != k);
    }
}

pub proof fn lemma_map_of_pairs_update(ps: Seq<(Seq<char>, u32)>, i: int, c: u32)
    requires
        unique_keys(ps),
        0 <= i < ps.len(),
    ensures
        map_of_pairs(ps.update(i, (ps[i].0, c))) == map_of_pairs(ps).insert(ps[i].0, c),
    decreases ps.len(),
{
    let q = ps.update(i, (ps[i].0, c));
    if i == ps.len() - 1 {
        assert(q.drop_last() =~= ps.drop_last());
        assert(q.last() == (ps[i].0, c));
        assert(map_of_pairs(ps.drop_last()).insert(ps[i].0, ps[i].1).insert(ps[i].0, c)
            =~= map_of_pairs(ps.drop_last()).insert(ps[i].0, c));
    } else {
        assert(unique_keys(ps.drop_last()));
        assert(ps.drop_last()[i] == ps[i]);
        lemma_map_of_pairs_update(ps.drop_last(), i, c);
        assert(q.drop_last() =~= ps.drop_last().update(i, (ps[i].0, c)));
        assert(q.last() == ps.last());
        assert(ps.last().0 != ps[i].0);
        assert(map_of_pairs(ps.drop_last()).insert(ps[i].0, c).insert(ps.last().0, ps.last().1)
            =~= map_of_pairs(ps.drop_last()).insert(ps.last().0, ps.last().1).insert(
            ps[i].0,
            c,
        ));
    }
}

/// The persisted usage store: entry name to cumulative launch count.
pub struct Heatmap {
    pub pairs: Vec<(String, u32)>,
}

/// The pair sequence a stored vector denotes.
pub open spec fn pair_views(ps: Seq<(String, u32)>) -> Seq<(Seq<char>, u32)> {
    ps.map_values(|p: (String, u32)| (p.0@, p.1))
}

impl View for Heatmap {
    type V = Map<Seq<char>, u32>;

    open spec fn view(&self) -> Map<Seq<char>, u32> {
        map_of_pairs(self.pairs_model())
    }
}

impl Heatmap {
    /// The stored pairs, in file order.
    pub open spec fn pairs_model(&self) -> Seq<(Seq<char>, u32)> {
        pair_views(self.pairs@)
    }

    /// Keys are pairwise distinct.
    pub open spec fn wf(&self) -> bool {
        unique_keys(self.pairs_model())
    }

    /// The empty store.
    pub fn new() -> (r: Heatmap)
        ensures
            r.wf(),
            r@ == Map::<Seq<char>, u32>::empty(),
            r.pairs_model() == Seq::<(Seq<char>, u32)>::empty(),
    {
        let r = Heatmap { pairs: Vec::new() };
        proof {
            assert(r.pairs_model() =~= Seq::<(Seq<char>, u32)>::empty());
        }
        r
    }

    /// Index of the pair holding `name`, if any.
    fn find(&self, name: &str) -> (r: Option<usize>)
        requires
            self.wf(),
        ensures
            match r {
                Some(i) => {
                    &&& i < self.pairs@.len()
                    &&& self.pairs_model()[i as int].0 == name@
                    &&& self@.contains_key(name@)
                    &&& self@[name@] == self.pairs_model()[i as int].1
                },
                None => !self@.contains_key(name@),
            },
    {
        let n = self.pairs.len();
        let mut i: usize = 0;
        while i < n
            invariant
                self.wf(),
                n == self.pairs@.len(),
                i <= n,
                forall|j: int| 0 <= j < i ==> self.pairs_model()[j].0 != name@,
            decreases n - i,
        {
            if str_eq(self.pairs[i].0.as_str(), name) {
                proof {
                    lemma_map_of_pairs_present(self.pairs_model(), i as int);
                }
                return Some(i);
            }
            i = i + 1;
        }
        proof {
            lemma_map_of_pairs_absent(self.pairs_model(), name@);
        }
        None
    }

    /// The recorded launch count of `name`; zero when the name was never
    /// recorded.
    pub fn get(&self, name: &str) -> (r: u32)
        requires
            self.wf(),
        ensures
            r == if self@.contains_key(name@) {
                self@[name@]
            } else {
                0u32
            },
    {
        match self.find(name) {
            Some(i) => self.pairs[i].1,
            None => 0,
        }
    }

    /// Record `count` for `name`, inserting the pair or overwriting the
    /// recorded count.
    pub fn set(&mut self, name: &str, count: u32)
        requires
            old(self).wf(),
        ensures
            final(self).wf(),
            final(self)@ == old(self)@.insert(name@, count),
    {
        match self.find(name) {
            Some(i) => {
                let ghost old_pairs = self.pairs_model();
                let key = self.pairs[i].0.clone();
                self.pairs[i] = (key, count);
                proof {
                    assert(self.pairs_model() =~= old_pairs.update(
                        i as int,
                        (old_pairs[i as int].0, count),
                    ));
                    lemma_map_of_pairs_update(old_pairs, i as int, count);
                    assert(old_pairs[i as int].0 == name@);
                }
            },
            None => {
                let ghost old_pairs = self.pairs_model();
                self.pairs.push((String::from_str(name), count));
                proof {
                    assert(self.pairs_model() =~= old_pairs.push((name@, count)));
                    assert(self.pairs_model().drop_last() =~= old_pairs);
                    assert(forall|i: int|
                        0 <= i < old_pairs.len() ==> old_pairs[i].0 != name@) by {
                        if exists|i: int| 0 <= i < old_pairs.len() && old_pairs[i].0 == name@ {
                            let i = choose|i: int|
                                0 <= i < old_pairs.len() && old_pairs[i].0 == name@;
                            lemma_map_of_pairs_present(old_pairs, i);
                        }
                    }
                }
            },
        }
    }

    /// How many names are recorded.
    pub fn len(&self) -> (r: usize)
        ensures
            r == self.pairs_model().len(),
    {
        self.pairs.len()
    }
}

} // verus!
