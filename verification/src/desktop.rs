//! Parsing of application-descriptor files: line-oriented text with
//! `[Section]` headers and `Key=Value` lines.  The scanner extracts the
//! display name, the invocation string and the icon of the primary
//! section, and turns a descriptor file into a candidate cache entry.

use vstd::prelude::*;
use vstd::string::*;
use crate::entry::{AppEntry, EntryModel, EntryType};
use crate::heatmap::Heatmap;
use crate::text::{spec_split, spec_ends_with, split_string, str_eq, ends_with, views_of};

verus! {

/// A line of the form `[ ... ]`.
pub open spec fn is_section_header(line: Seq<char>) -> bool {
    line.len() >= 2 && line[0] == '[' && line[line.len() - 1] == ']'
}

pub open spec fn section_name_of(line: Seq<char>) -> Seq<char> {
    line.subrange(1, line.len() - 1)
}

/// The line assigns `key`: `key=` followed by the value.
pub open spec fn has_key(line: Seq<char>, key: Seq<char>) -> bool {
    line.len() > key.len() && line.subrange(0, key.len() as int) == key && line[key.len() as int]
        == '='
}

pub open spec fn value_of(line: Seq<char>, key: Seq<char>) -> Seq<char> {
    line.skip(key.len() + 1 as int)
}

/// The value of the first `key=` line before the next section header.
pub open spec fn spec_attr_in(lines: Seq<Seq<char>>, key: Seq<char>) -> Option<Seq<char>>
    decreases lines.len(),
{
    if lines.len() == 0 {
        None
    } else if is_section_header(lines[0]) {
        None
    } else if has_key(lines[0], key) {
        Some(value_of(lines[0], key))
    } else {
        spec_attr_in(lines.skip(1), key)
    }
}

/// The value of `key` within the first section named `section`.
pub open spec fn spec_section_attr(
    lines: Seq<Seq<char>>,
    section: Seq<char>,
    key: Seq<char>,
) -> Option<Seq<char>>
    decreases lines.len(),
{
    if lines.len() == 0 {
        None
    } else if is_section_header(lines[0]) && section_name_of(lines[0]) == section {
        spec_attr_in(lines.skip(1), key)
    } else {
        spec_section_attr(lines.skip(1), section, key)
    }
}

/// The value of `key` in section `section` of a descriptor file.
pub open spec fn spec_desktop_attr(
    content: Seq<char>,
    section: Seq<char>,
    key: Seq<char>,
) -> Option<Seq<char>> {
    spec_section_attr(spec_split(content, '\n'), section, key)
}

/// `line` starts with `key=`.
fn line_has_key(line: &str, key: &str) -> (r: bool)
    ensures
        r == has_key(line@, key@),
{
    let n = line.unicode_len();
    let m = key.unicode_len();
    if n <= m {
        return false;
    }
    let mut j: usize = 0;
    while j < m
        invariant
            n == line@.len(),
            m == key@.len(),
            m < n,
            j <= m,
            forall|q: int| 0 <= q < j ==> line@[q] == key@[q],
        decreases m - j,
    {
        if line.get_char(j) != key.get_char(j) {
            assert(line@.subrange(0, m as int)[j as int] != key@[j as int]);
            return false;
        }
        j = j + 1;
    }
    assert(line@.subrange(0, m as int) =~= key@);
    line.get_char(m) == '='
}

/// Whether `line` is a `[ ... ]` header, decided on its characters.
fn line_is_header(line: &str) -> (r: bool)
    ensures
        r == is_section_header(line@),
{
    let n = line.unicode_len();
    if n < 2 {
        return false;
    }
    line.get_char(0) == '[' && line.get_char(n - 1) == ']'
}

/// Look `key` up in the section named `section` of a descriptor file.
pub fn desktop_attr(content: &str, section: &str, key: &str) -> (r: Option<String>)
    ensures
        match r {
            Some(v) => spec_desktop_attr(content@, section@, key@) == Some(v@),
            None => spec_desktop_attr(content@, section@, key@) is None,
        },
{
    let lines = split_string(content, '\n');
    let ghost lv = views_of(lines@);
    let n = lines.len();
    let mut i: usize = 0;
    proof {
        assert(lv.skip(0) =~= lv);
    }
    // find the section header
    while i < n
        invariant
            n == lines@.len(),
            lv == views_of(lines@),
            lv == spec_split(content@, '\n'),
            i <= n,
            spec_section_attr(lv, section@, key@) == spec_section_attr(
                lv.skip(i as int),
                section@,
                key@,
            ),
        decreases n - i,
    {
        let ghost suffix = lv.skip(i as int);
        proof {
            assert(suffix[0] == lv[i as int]);
            assert(suffix.skip(1) =~= lv.skip(i + 1 as int));
        }
        let line = &lines[i];
        if line_is_header(line.as_str()) {
            let ln = line.as_str().unicode_len();
            let inner = line.as_str().substring_char(1, ln - 1);
            if str_eq(inner, section) {
                // scan this section's lines for the key
                let mut j: usize = i + 1;
                proof {
                    assert(lv.skip(i as int).skip(1) =~= lv.skip(i + 1 as int));
                }
                while j < n
                    invariant
                        n == lines@.len(),
                        lv == views_of(lines@),
                        lv == spec_split(content@, '\n'),
                        i < j <= n,
                        spec_section_attr(lv, section@, key@) == spec_attr_in(
                            lv.skip(j as int),
                            key@,
                        ),
                    decreases n - j,
                {
                    let ghost sfx = lv.skip(j as int);
                    proof {
                        assert(sfx[0] == lv[j as int]);
                        assert(sfx.skip(1) =~= lv.skip(j + 1 as int));
                    }
                    let cur = &lines[j];
                    if line_is_header(cur.as_str()) {
                        return None;
                    }
                    if line_has_key(cur.as_str(), key) {
                        let cn = cur.as_str().unicode_len();
                        let kn = key.unicode_len();
                        let val = cur.as_str().substring_char(kn + 1, cn);
                        let v = String::from_str(val);
                        proof {
                            assert(v@ =~= value_of(lv[j as int], key@));
                        }
                        return Some(v);
                    }
                    j = j + 1;
                }
                proof {
                    assert(lv.skip(n as int).len() == 0);
                }
                return None;
            }
        }
        i = i + 1;
    }
    proof {
        assert(lv.skip(n as int).len() == 0);
    }
    None
}

/// The file name carries the descriptor extension.
pub fn has_desktop_extension(file_name: &str) -> (r: bool)
    ensures
        r == spec_ends_with(file_name@, ".desktop"@),
{
    ends_with(file_name, ".desktop")
}

/// A descriptor file read from disk: its file name, its full path and its
/// text.
pub struct DesktopFile {
    pub file_name: String,
    pub path: String,
    pub content: String,
}

impl View for DesktopFile {
    type V = (Seq<char>, Seq<char>, Seq<char>);

    open spec fn view(&self) -> (Seq<char>, Seq<char>, Seq<char>) {
        (self.file_name@, self.path@, self.content@)
    }
}

/// The invocation string of a descriptor: the `Exec` value, or empty.
pub open spec fn spec_exec_attr(content: Seq<char>) -> Seq<char> {
    match spec_desktop_attr(content, "Desktop Entry"@, "Exec"@) {
        Some(v) => v,
        None => Seq::<char>::empty(),
    }
}

/// The icon of a descriptor: the `Icon` value, or the generic executable
/// icon.
pub open spec fn spec_icon_attr(content: Seq<char>) -> Seq<char> {
    match spec_desktop_attr(content, "Desktop Entry"@, "Icon"@) {
        Some(v) => v,
        None => "application-x-executable"@,
    }
}

/// The recorded launch count of `name`, or zero.
pub open spec fn spec_count(heat: Map<Seq<char>, u32>, name: Seq<char>) -> u32 {
    if heat.contains_key(name) {
        heat[name]
    } else {
        0u32
    }
}

/// The candidate entry a descriptor file with display name `name` yields.
pub open spec fn spec_desktop_entry_model(
    name: Seq<char>,
    path: Seq<char>,
    content: Seq<char>,
    heat: Map<Seq<char>, u32>,
) -> EntryModel {
    EntryModel {
        name: name,
        exec_cmd: spec_exec_attr(content),
        icon_name: spec_icon_attr(content),
        path: path,
        launch_count: spec_count(heat, name),
        entry_type: EntryType::Application,
    }
}

/// Parse one descriptor file into a candidate entry: the display name,
/// invocation string and icon are exactly the parsed attributes, the
/// entry is tagged as an application, and its launch count comes from the
/// usage store.  A file without a display name yields nothing.
pub fn desktop_entry_from_file(file_path: &str, content: &str, heat: &Heatmap) -> (r: Option<
    AppEntry,
>)
    requires
        heat.wf(),
    ensures
        match r {
            Some(e) => spec_desktop_attr(content@, "Desktop Entry"@, "Name"@) == Some(e.name@)
                && e@ == spec_desktop_entry_model(e.name@, file_path@, content@, heat@),
            None => spec_desktop_attr(content@, "Desktop Entry"@, "Name"@) is None,
        },
{
    let name = match desktop_attr(content, "Desktop Entry", "Name") {
        None => {
            return None;
        },
        Some(n) => n,
    };
    let exec_cmd = match desktop_attr(content, "Desktop Entry", "Exec") {
        None => String::new(),
        Some(v) => v,
    };
    let icon_name = match desktop_attr(content, "Desktop Entry", "Icon") {
        None => String::from_str("application-x-executable"),
        Some(v) => v,
    };
    let launch_count = heat.get(name.as_str());
    Some(
        AppEntry {
            name,
            exec_cmd,
            icon_name,
            path: String::from_str(file_path),
            launch_count,
            entry_type: EntryType::Application,
        },
    )
}

} // verus!
