//! The launchable unit tracked by the cache: an installed application, a
//! PATH executable, or an ad-hoc filesystem entry.

use vstd::prelude::*;
use vstd::string::*;

verus! {

/// Which kind of launchable unit an entry describes.
#[derive(Clone, Copy, PartialEq, Eq, Structural, Debug)]
pub enum EntryType {
    Application,
    File,
}

/// A launchable unit.  `name` is the cache key: two entries with the same
/// name are the same logical entity, and the later write wins.
#[derive(Clone, Debug)]
pub struct AppEntry {
    pub name: String,
    pub exec_cmd: String,
    pub icon_name: String,
    pub path: String,
    pub launch_count: u32,
    pub entry_type: EntryType,
}

/// The mathematical value of an entry: the views of its strings together
/// with its plain fields.
pub ghost struct EntryModel {
    pub name: Seq<char>,
    pub exec_cmd: Seq<char>,
    pub icon_name: Seq<char>,
    pub path: Seq<char>,
    pub launch_count: u32,
    pub entry_type: EntryType,
}

impl View for AppEntry {
    type V = EntryModel;

    open spec fn view(&self) -> EntryModel {
        EntryModel {
            name: self.name@,
            exec_cmd: self.exec_cmd@,
            icon_name: self.icon_name@,
            path: self.path@,
            launch_count: self.launch_count,
            entry_type: self.entry_type,
        }
    }
}

impl EntryModel {
    /// The same entry with a different launch count.
    pub open spec fn with_count(self, launch_count: u32) -> EntryModel {
        EntryModel { launch_count, ..self }
    }
}

/// A field-for-field copy of an entry.
pub fn clone_entry(e: &AppEntry) -> (r: AppEntry)
    ensures
        r@ == e@,
{
    AppEntry {
        name: e.name.clone(),
        exec_cmd: e.exec_cmd.clone(),
        icon_name: e.icon_name.clone(),
        path: e.path.clone(),
        launch_count: e.launch_count,
        entry_type: e.entry_type,
    }
}

} // verus!
