//! Building the cache from the two entry sources: descriptor files from
//! the fixed directory list, then executables discovered on the search
//! path.  The embedding program reads directories and file contents and
//! hands them in; the merge itself is sequential, descriptor entries
//! first, so a search-path executable overwrites a descriptor entry of
//! the same name.

use vstd::prelude::*;
use vstd::string::*;
use crate::cache::AppCache;
use crate::desktop::{
    DesktopFile, desktop_entry_from_file, has_desktop_extension, spec_count, spec_desktop_attr,
    spec_desktop_entry_model,
};
use crate::entry::{AppEntry, EntryModel, EntryType};
use crate::heatmap::Heatmap;
use crate::text::spec_ends_with;

verus! {

/// The models of a vector of descriptor files.
pub open spec fn df_views(fs: Seq<DesktopFile>) -> Seq<(Seq<char>, Seq<char>, Seq<char>)> {
    fs.map_values(|f: DesktopFile| f@)
}

/// What one directory entry contributes: a descriptor file with a
/// display name is merged in, anything else is skipped.
pub open spec fn spec_desktop_step(
    m: Map<Seq<char>, EntryModel>,
    f: (Seq<char>, Seq<char>, Seq<char>),
    heat: Map<Seq<char>, u32>,
) -> Map<Seq<char>, EntryModel> {
    if spec_ends_with(f.0, ".desktop"@) {
        match spec_desktop_attr(f.2, "Desktop Entry"@, "Name"@) {
            Some(n) => m.insert(n, spec_desktop_entry_model(n, f.1, f.2, heat)),
            None => m,
        }
    } else {
        m
    }
}

/// The cache after merging every descriptor file, in order.
pub open spec fn spec_desktop_merge(
    m: Map<Seq<char>, EntryModel>,
    fs: Seq<(Seq<char>, Seq<char>, Seq<char>)>,
    heat: Map<Seq<char>, u32>,
) -> Map<Seq<char>, EntryModel>
    decreases fs.len(),
{
    if fs.len() == 0 {
        m
    } else {
        spec_desktop_merge(spec_desktop_step(m, fs[0], heat), fs.skip(1), heat)
    }
}

/// Merge every given directory entry into the cache, in the given order:
/// descriptor files that parse to a display name become application
/// entries, later files overwrite earlier ones of the same name.
pub fn scan_desktop_sources(cache: &mut AppCache, files: &Vec<DesktopFile>, heat: &Heatmap)
    requires
        old(cache).wf(),
        heat.wf(),
    ensures
        final(cache).wf(),
        final(cache)@ == spec_desktop_merge(old(cache)@, df_views(files@), heat@),
{
    let ghost m0 = cache@;
    let ghost fv = df_views(files@);
    let n = files.len();
    let mut i: usize = 0;
    proof {
        assert(fv.skip(0) =~= fv);
    }
    while i < n
        invariant
            n == files@.len(),
            fv == df_views(files@),
            i <= n,
            cache.wf(),
            heat.wf(),
            spec_desktop_merge(m0, fv, heat@) == spec_desktop_merge(
                cache@,
                fv.skip(i as int),
                heat@,
            ),
        decreases n - i,
    {
        let ghost before = cache@;
        proof {
            assert(fv.skip(i as int)[0] == fv[i as int]);
            assert(fv.skip(i as int).skip(1) =~= fv.skip(i + 1 as int));
        }
        let f = &files[i];
        if has_desktop_extension(f.file_name.as_str()) {
            match desktop_entry_from_file(f.path.as_str(), f.content.as_str(), heat) {
                Some(e) => {
                    proof {
                        let ghost fi = fv[i as int];
                        assert(e@ == spec_desktop_entry_model(e.name@, fi.1, fi.2, heat@));
                    }
                    cache.insert(e);
                },
                None => {},
            }
        }
        proof {
            assert(cache@ == spec_desktop_step(before, fv[i as int], heat@));
        }
        i = i + 1;
    }
    proof {
        assert(fv.skip(n as int).len() == 0);
    }
}

/// One executable discovered on the search path: its file name, its
/// absolute path, and the text of each descriptor file probed for an
/// icon, in probe order (`None` where no such file could be read).
pub struct PathHit {
    pub name: String,
    pub path: String,
    pub icon_sources: Vec<Option<String>>,
}

/// The views of optional descriptor texts.
pub open spec fn opt_views(cs: Seq<Option<String>>) -> Seq<Option<Seq<char>>> {
    cs.map_values(
        |c: Option<String>|
            match c {
                Some(s) => Some(s@),
                None => None,
            },
    )
}

impl View for PathHit {
    type V = (Seq<char>, Seq<char>, Seq<Option<Seq<char>>>);

    open spec fn view(&self) -> (Seq<char>, Seq<char>, Seq<Option<Seq<char>>>) {
        (self.name@, self.path@, opt_views(self.icon_sources@))
    }
}

/// The models of a vector of search-path hits.
pub open spec fn ph_views(hs: Seq<PathHit>) -> Seq<(Seq<char>, Seq<char>, Seq<Option<Seq<char>>>)> {
    hs.map_values(|h: PathHit| h@)
}

/// The icon named by the first probed descriptor that names one.
pub open spec fn spec_icon_from_sources(cs: Seq<Option<Seq<char>>>) -> Option<Seq<char>>
    decreases cs.len(),
{
    if cs.len() == 0 {
        None
    } else {
        match cs[0] {
            Some(content) => match spec_desktop_attr(content, "Desktop Entry"@, "Icon"@) {
                Some(icon) => Some(icon),
                None => spec_icon_from_sources(cs.skip(1)),
            },
            None => spec_icon_from_sources(cs.skip(1)),
        }
    }
}

/// Probe the given descriptor texts, in order, for an icon name.
pub fn icon_from_sources(sources: &Vec<Option<String>>) -> (r: Option<String>)
    ensures
        match r {
            Some(icon) => spec_icon_from_sources(opt_views(sources@)) == Some(icon@),
            None => spec_icon_from_sources(opt_views(sources@)) is None,
        },
{
    let ghost cv = opt_views(sources@);
    let n = sources.len();
    let mut i: usize = 0;
    proof {
        assert(cv.skip(0) =~= cv);
    }
    while i < n
        invariant
            n == sources@.len(),
            cv == opt_views(sources@),
            i <= n,
            spec_icon_from_sources(cv) == spec_icon_from_sources(cv.skip(i as int)),
        decreases n - i,
    {
        proof {
            assert(cv.skip(i as int)[0] == cv[i as int]);
            assert(cv.skip(i as int).skip(1) =~= cv.skip(i + 1 as int));
        }
        match &sources[i] {
            Some(content) => {
                match crate::desktop::desktop_attr(content.as_str(), "Desktop Entry", "Icon") {
                    Some(icon) => {
                        return Some(icon);
                    },
                    None => {},
                }
            },
            None => {},
        }
        i = i + 1;
    }
    proof {
        assert(cv.skip(n as int).len() == 0);
    }
    None
}

/// The entry a search-path hit yields: named by its file name, invoked
/// by its absolute path, icon taken from a same-named descriptor file
/// where one names an icon.
pub open spec fn spec_path_entry_model(
    h: (Seq<char>, Seq<char>, Seq<Option<Seq<char>>>),
    heat: Map<Seq<char>, u32>,
) -> EntryModel {
    EntryModel {
        name: h.0,
        exec_cmd: h.1,
        icon_name: match spec_icon_from_sources(h.2) {
            Some(icon) => icon,
            None => "application-x-executable"@,
        },
        path: h.1,
        launch_count: spec_count(heat, h.0),
        entry_type: EntryType::Application,
    }
}

/// The cache after merging every search-path hit, in order.
pub open spec fn spec_path_merge(
    m: Map<Seq<char>, EntryModel>,
    hs: Seq<(Seq<char>, Seq<char>, Seq<Option<Seq<char>>>)>,
    heat: Map<Seq<char>, u32>,
) -> Map<Seq<char>, EntryModel>
    decreases hs.len(),
{
    if hs.len() == 0 {
        m
    } else {
        spec_path_merge(m.insert(hs[0].0, spec_path_entry_model(hs[0], heat)), hs.skip(1), heat)
    }
}

/// Merge every search-path hit into the cache, in the given order; a hit
/// overwrites any present entry of the same name, descriptor entries
/// included.
pub fn merge_path_results(cache: &mut AppCache, hits: &Vec<PathHit>, heat: &Heatmap)
    requires
        old(cache).wf(),
        heat.wf(),
    ensures
        final(cache).wf(),
        final(cache)@ == spec_path_merge(old(cache)@, ph_views(hits@), heat@),
{
    let ghost m0 = cache@;
    let ghost hv = ph_views(hits@);
    let n = hits.len();
    let mut i: usize = 0;
    proof {
        assert(hv.skip(0) =~= hv);
    }
    while i < n
        invariant
            n == hits@.len(),
            hv == ph_views(hits@),
            i <= n,
            cache.wf(),
            heat.wf(),
            spec_path_merge(m0, hv, heat@) == spec_path_merge(cache@, hv.skip(i as int), heat@),
        decreases n - i,
    {
        let ghost before = cache@;
        proof {
            assert(hv.skip(i as int)[0] == hv[i as int]);
            assert(hv.skip(i as int).skip(1) =~= hv.skip(i + 1 as int));
        }
        let h = &hits[i];
        let icon_name = match icon_from_sources(&h.icon_sources) {
            Some(icon) => icon,
            None => String::from_str("application-x-executable"),
        };
        let launch_count = heat.get(h.name.as_str());
        let e = AppEntry {
            name: h.name.clone(),
            exec_cmd: h.path.clone(),
            icon_name,
            path: h.path.clone(),
            launch_count,
            entry_type: EntryType::Application,
        };
        proof {
            assert(e@ == spec_path_entry_model(hv[i as int], heat@));
        }
        cache.insert(e);
        i = i + 1;
    }
    proof {
        assert(hv.skip(n as int).len() == 0);
    }
}

/// Build the whole index: an empty cache, the descriptor scan merged
/// first, the search-path scan merged after it.
pub fn build_cache(files: &Vec<DesktopFile>, hits: &Vec<PathHit>, heat: &Heatmap) -> (cache:
    AppCache)
    requires
        heat.wf(),
    ensures
        cache.wf(),
        cache@ == spec_path_merge(
            spec_desktop_merge(Map::empty(), df_views(files@), heat@),
            ph_views(hits@),
            heat@,
        ),
{
    let mut cache = AppCache::new();
    scan_desktop_sources(&mut cache, files, heat);
    merge_path_results(&mut cache, hits, heat);
    cache
}

pub proof fn lemma_path_merge_preserves(
    m: Map<Seq<char>, EntryModel>,
    hs: Seq<(Seq<char>, Seq<char>, Seq<Option<Seq<char>>>)>,
    heat: Map<Seq<char>, u32>,
    name: Seq<char>,
)
    requires
        forall|j: int| 0 <= j < hs.len() ==> (#[trigger] hs[j]).0 != name,
    ensures
        spec_path_merge(m, hs, heat).contains_key(name) == m.contains_key(name),
        m.contains_key(name) ==> spec_path_merge(m, hs, heat)[name] == m[name],
    decreases hs.len(),
{
    if hs.len() > 0 {
        let m1 = m.insert(hs[0].0, spec_path_entry_model(hs[0], heat));
        assert(forall|j: int| 0 <= j < hs.skip(1).len() ==> hs.skip(1)[j] == hs[j + 1]);
        lemma_path_merge_preserves(m1, hs.skip(1), heat, name);
        assert(hs[0].0 != name);
    }
}

/// Law: the search-path merge wins every name collision.  For a hit
/// whose name does not recur later in the scan, the final cache entry
/// under that name is exactly the search-path entry, whatever the cache
/// held before — in particular when it held a descriptor entry of the
/// same name.
pub proof fn lemma_path_overwrites(
    m: Map<Seq<char>, EntryModel>,
    hs: Seq<(Seq<char>, Seq<char>, Seq<Option<Seq<char>>>)>,
    heat: Map<Seq<char>, u32>,
    i: int,
)
    requires
        0 <= i < hs.len(),
        forall|j: int| i < j < hs.len() ==> (#[trigger] hs[j]).0 != hs[i].0,
    ensures
        spec_path_merge(m, hs, heat).contains_key(hs[i].0),
        spec_path_merge(m, hs, heat)[hs[i].0] == spec_path_entry_model(hs[i], heat),
    decreases hs.len(),
{
    let m1 = m.insert(hs[0].0, spec_path_entry_model(hs[0], heat));
    assert(forall|j: int| 0 <= j < hs.skip(1).len() ==> hs.skip(1)[j] == hs[j + 1]);
    if i == 0 {
        lemma_path_merge_preserves(m1, hs.skip(1), heat, hs[0].0);
    } else {
        lemma_path_overwrites(m1, hs.skip(1), heat, i - 1);
        assert(hs.skip(1)[i - 1] == hs[i]);
    }
}

} // verus!
