//! The application cache: the name-keyed mapping from entry name to
//! resolved entry that the scanners merge into and that launch-count
//! increments mutate.  It is modelled as a `Map<Seq<char>, EntryModel>`;
//! sharing it between tasks (a reader/writer lock) is the embedding
//! program's job, so every operation here is on the plain value.

use vstd::prelude::*;
use crate::entry::{AppEntry, EntryModel, clone_entry};
use crate::text::str_eq;

verus! {

/// The models of a vector of entries.
pub open spec fn entry_views(es: Seq<AppEntry>) -> Seq<EntryModel> {
    es.map_values(|e: AppEntry| e@)
}

/// The names of a model sequence are pairwise distinct.
pub open spec fn unique_names(es: Seq<EntryModel>) -> bool {
    forall|i: int, j: int| 0 <= i < j < es.len() ==> es[i].name != es[j].name
}

/// The mapping an entry sequence denotes; on a duplicate name the later
/// entry would win.
pub open spec fn map_of_entries(es: Seq<EntryModel>) -> Map<Seq<char>, EntryModel>
    decreases es.len(),
{
    if es.len() == 0 {
        Map::empty()
    } else {
        map_of_entries(es.drop_last()).insert(es.last().name, es.last())
    }
}

pub proof fn lemma_map_of_entries_present(es: Seq<EntryModel>, i: int)
    requires
        unique_names(es),
        0 <= i < es.len(),
    ensures
        map_of_entries(es).contains_key(es[i].name),
        map_of_entries(es)[es[i].name] == es[i],
    decreases es.len(),
{
    if i == es.len() - 1 {
    } else {
        assert(unique_names(es.drop_last()));
        assert(es.drop_last()[i] == es[i]);
        lemma_map_of_entries_present(es.drop_last(), i);
        assert(es.last().name != es[i].name);
    }
}

pub proof fn lemma_map_of_entries_absent(es: Seq<EntryModel>, n: Seq<char>)
    requires
        forall|i: int| 0 <= i < es.len() ==> es[i].name != n,
    ensures
        !map_of_entries(es).contains_key(n),
    decreases es.len(),
{
    if es.len() > 0 {
        assert(forall|i: int| 0 <= i < es.drop_last().len() ==> es.drop_last()[i].name != n);
        lemma_map_of_entries_absent(es.drop_last(), n);
        assert(es.last().name != n);
    }
}

pub proof fn lemma_map_of_entries_update(es: Seq<EntryModel>, i: int, e: EntryModel)
    requires
        unique_names(es),
        0 <= i < es.len(),
        e.name == es[i].name,
    ensures
        map_of_entries(es.update(i, e)) == map_of_entries(es).insert(e.name, e),
    decreases es.len(),
{
    let q = es.update(i, e);
    if i == es.len() - 1 {
        assert(q.drop_last() =~= es.drop_last());
        assert(q.last() == e);
        assert(map_of_entries(es.drop_last()).insert(es[i].name, es[i]).insert(e.name, e)
            =~= map_of_entries(es.drop_last()).insert(e.name, e));
    } else {
        assert(unique_names(es.drop_last()));
        assert(es.drop_last()[i] == es[i]);
        lemma_map_of_entries_update(es.drop_last(), i, e);
        assert(q.drop_last() =~= es.drop_last().update(i, e));
        assert(q.last() == es.last());
        assert(es.last().name != e.name);
        assert(map_of_entries(es.drop_last()).insert(e.name, e).insert(es.last().name, es.last())
            =~= map_of_entries(es.drop_last()).insert(es.last().name, es.last()).insert(
            e.name,
            e,
        ));
    }
}

/// The process-wide index of launchable entries, keyed by name.
pub struct AppCache {
    pub entries: Vec<AppEntry>,
}

impl View for AppCache {
    type V = Map<Seq<char>, EntryModel>;

    open spec fn view(&self) -> Map<Seq<char>, EntryModel> {
        map_of_entries(self.entries_model())
    }
}

/// One increment of the launch count of `name`, when the name is present;
/// otherwise the cache is left exactly as it was.
pub open spec fn spec_bump(m: Map<Seq<char>, EntryModel>, name: Seq<char>) -> Map<
    Seq<char>,
    EntryModel,
> {
    if m.contains_key(name) {
        m.insert(name, m[name].with_count(((m[name].launch_count + 1) as u32)))
    } else {
        m
    }
}

/// `n` increments of the launch count of `name`, one after the other.
pub open spec fn spec_bump_n(m: Map<Seq<char>, EntryModel>, name: Seq<char>, n: nat) -> Map<
    Seq<char>,
    EntryModel,
>
    decreases n,
{
    if n == 0 {
        m
    } else {
        spec_bump(spec_bump_n(m, name, (n - 1) as nat), name)
    }
}

/// Law: increments for one name serialize; `n` of them raise the in-memory
/// count by exactly `n`, and no other entry changes.
pub proof fn lemma_serialized_increments(
    m: Map<Seq<char>, EntryModel>,
    name: Seq<char>,
    n: nat,
)
    requires
        m.contains_key(name),
        m[name].launch_count + n <= u32::MAX,
    ensures
        spec_bump_n(m, name, n) == m.insert(
            name,
            m[name].with_count(((m[name].launch_count + n) as u32)),
        ),
    decreases n,
{
    if n == 0 {
        assert(m.insert(name, m[name].with_count(m[name].launch_count)) =~= m);
        assert(m[name].with_count(m[name].launch_count) == m[name]);
    } else {
        lemma_serialized_increments(m, name, (n - 1) as nat);
        let prev = spec_bump_n(m, name, (n - 1) as nat);
        assert(prev[name].launch_count == m[name].launch_count + n - 1);
        assert(spec_bump(prev, name) =~= m.insert(
            name,
            m[name].with_count(((m[name].launch_count + n) as u32)),
        ));
    }
}

impl AppCache {
    /// The held entries, in insertion order.
    pub open spec fn entries_model(&self) -> Seq<EntryModel> {
        entry_views(self.entries@)
    }

    /// Names are pairwise distinct.
    pub open spec fn wf(&self) -> bool {
        unique_names(self.entries_model())
    }

    /// The empty cache.
    pub fn new() -> (r: AppCache)
        ensures
            r.wf(),
            r@ == Map::<Seq<char>, EntryModel>::empty(),
            r.entries_model() == Seq::<EntryModel>::empty(),
    {
        let r = AppCache { entries: Vec::new() };
        proof {
            assert(r.entries_model() =~= Seq::<EntryModel>::empty());
        }
        r
    }

    /// Index of the entry named `name`, if any.
    fn find(&self, name: &str) -> (r: Option<usize>)
        requires
            self.wf(),
        ensures
            match r {
                Some(i) => {
                    &&& i < self.entries@.len()
                    &&& self.entries_model()[i as int].name == name@
                    &&& self@.contains_key(name@)
                    &&& self@[name@] == self.entries_model()[i as int]
                },
                None => !self@.contains_key(name@),
            },
    {
        let n = self.entries.len();
        let mut i: usize = 0;
        while i < n
            invariant
                self.wf(),
                n == self.entries@.len(),
                i <= n,
                forall|j: int| 0 <= j < i ==> self.entries_model()[j].name != name@,
            decreases n - i,
        {
            if str_eq(self.entries[i].name.as_str(), name) {
                proof {
                    lemma_map_of_entries_present(self.entries_model(), i as int);
                }
                return Some(i);
            }
            i = i + 1;
        }
        proof {
            lemma_map_of_entries_absent(self.entries_model(), name@);
        }
        None
    }

    /// Look an entry up by name.
    pub fn get(&self, name: &str) -> (r: Option<&AppEntry>)
        requires
            self.wf(),
        ensures
            match r {
                Some(e) => self@.contains_key(name@) && e@ == self@[name@],
                None => !self@.contains_key(name@),
            },
    {
        match self.find(name) {
            Some(i) => Some(&self.entries[i]),
            None => None,
        }
    }

    /// How many entries the cache holds.
    pub fn len(&self) -> (r: usize)
        ensures
            r == self.entries_model().len(),
    {
        self.entries.len()
    }

    /// The entry at a position, for enumeration by the search layer.
    pub fn entry_at(&self, i: usize) -> (r: &AppEntry)
        requires
            i < self.entries_model().len(),
        ensures
            r@ == self.entries_model()[i as int],
    {
        &self.entries[i]
    }

    /// Merge one entry in, keyed by its name: the later write wins.
    pub fn insert(&mut self, e: AppEntry)
        requires
            old(self).wf(),
        ensures
            final(self).wf(),
            final(self)@ == old(self)@.insert(e.name@, e@),
    {
        let ghost old_entries = self.entries_model();
        match self.find(e.name.as_str()) {
            Some(i) => {
                let ghost em = e@;
                self.entries[i] = e;
                proof {
                    assert(self.entries_model() =~= old_entries.update(i as int, em));
                    lemma_map_of_entries_update(old_entries, i as int, em);
                }
            },
            None => {
                let ghost em = e@;
                self.entries.push(e);
                proof {
                    assert(self.entries_model() =~= old_entries.push(em));
                    assert(self.entries_model().drop_last() =~= old_entries);
                    assert(forall|j: int|
                        0 <= j < old_entries.len() ==> old_entries[j].name != em.name) by {
                        if exists|j: int|
                            0 <= j < old_entries.len() && old_entries[j].name == em.name {
                            let j = choose|j: int|
                                0 <= j < old_entries.len() && old_entries[j].name == em.name;
                            lemma_map_of_entries_present(old_entries, j);
                        }
                    }
                }
            },
        }
    }

    /// Raise the launch count of `name` by exactly one and report the new
    /// count; an unknown name leaves the cache untouched and reports
    /// nothing.
    pub fn increment_launch(&mut self, name: &str) -> (r: Option<u32>)
        requires
            old(self).wf(),
            old(self)@.contains_key(name@) ==> old(self)@[name@].launch_count < u32::MAX,
        ensures
            final(self).wf(),
            final(self)@ == spec_bump(old(self)@, name@),
            r == if old(self)@.contains_key(name@) {
                Some(((old(self)@[name@].launch_count + 1) as u32))
            } else {
                None::<u32>
            },
    {
        let ghost old_entries = self.entries_model();
        match self.find(name) {
            Some(i) => {
                let mut e = clone_entry(&self.entries[i]);
                e.launch_count = e.launch_count + 1;
                let count = e.launch_count;
                let ghost em = e@;
                self.entries[i] = e;
                proof {
                    assert(self.entries_model() =~= old_entries.update(i as int, em));
                    lemma_map_of_entries_update(old_entries, i as int, em);
                    assert(em == old(self)@[name@].with_count(count));
                }
                Some(count)
            },
            None => None,
        }
    }
}

} // verus!
