//! Resolving an arbitrary filesystem path into a launchable entry.  The
//! embedding program expands the path, reads its metadata and, for a
//! plain file, asks the external content-type detector; the
//! classification itself — name, icon and invocation command — is
//! decided here on those plain values.

use vstd::prelude::*;
use vstd::string::*;
use crate::entry::{AppEntry, EntryModel, EntryType};
use crate::text::{
    char_to_string, lemma_split_nonempty, spec_split, split_string, str_eq, views_of,
};

verus! {

/// What the filesystem reports of a path: the kind bits and the
/// permission mode.
#[derive(Clone, Copy, PartialEq, Eq, Structural, Debug)]
pub struct FileStat {
    pub is_dir: bool,
    pub is_file: bool,
    pub mode: u32,
}

/// The last non-empty piece of a `/`-split path.
pub open spec fn last_nonempty(pieces: Seq<Seq<char>>) -> Option<Seq<char>>
    decreases pieces.len(),
{
    if pieces.len() == 0 {
        None
    } else if pieces.last().len() > 0 {
        Some(pieces.last())
    } else {
        last_nonempty(pieces.drop_last())
    }
}

/// The file name component of a path: the last non-empty piece between
/// slashes; nothing for an empty path, a bare root, or a path ending in
/// the current- or parent-directory component.
pub open spec fn spec_base_name(p: Seq<char>) -> Option<Seq<char>> {
    match last_nonempty(spec_split(p, '/')) {
        None => None,
        Some(b) => if b == "."@ || b == ".."@ {
            None
        } else {
            Some(b)
        },
    }
}

/// The file name component of `path`.
pub fn base_name(path: &str) -> (r: Option<String>)
    ensures
        match r {
            Some(b) => spec_base_name(path@) == Some(b@),
            None => spec_base_name(path@) is None,
        },
{
    let pieces = split_string(path, '/');
    let ghost pv = views_of(pieces@);
    let n = pieces.len();
    let mut i: usize = n;
    proof {
        assert(pv.subrange(0, n as int) =~= pv);
    }
    while i > 0
        invariant
            n == pieces@.len(),
            pv == views_of(pieces@),
            pv == spec_split(path@, '/'),
            i <= n,
            last_nonempty(pv) == last_nonempty(pv.subrange(0, i as int)),
        decreases i,
    {
        let ghost prefix = pv.subrange(0, i as int);
        proof {
            assert(prefix.last() == pv[i - 1]);
            assert(prefix.drop_last() =~= pv.subrange(0, i - 1));
        }
        let piece = &pieces[i - 1];
        if piece.as_str().unicode_len() > 0 {
            if str_eq(piece.as_str(), ".") || str_eq(piece.as_str(), "..") {
                return None;
            }
            return Some(piece.clone());
        }
        i = i - 1;
    }
    proof {
        assert(pv.subrange(0, 0) =~= Seq::<Seq<char>>::empty());
    }
    None
}

/// The extension of a file name: what follows the last dot, unless the
/// name has no dot or is nothing but a leading dot and one piece.
pub open spec fn spec_ext_of_name(b: Seq<char>) -> Option<Seq<char>> {
    let ps = spec_split(b, '.');
    if ps.len() >= 2 && !(ps.len() == 2 && ps[0].len() == 0) {
        Some(ps.last())
    } else {
        None
    }
}

/// The extension of the file name component of a path.
pub open spec fn spec_extension(p: Seq<char>) -> Option<Seq<char>> {
    match spec_base_name(p) {
        None => None,
        Some(b) => spec_ext_of_name(b),
    }
}

/// The extension of the file name component of `path`.
pub fn extension(path: &str) -> (r: Option<String>)
    ensures
        match r {
            Some(e) => spec_extension(path@) == Some(e@),
            None => spec_extension(path@) is None,
        },
{
    let b = match base_name(path) {
        None => {
            return None;
        },
        Some(b) => b,
    };
    let pieces = split_string(b.as_str(), '.');
    let ghost pv = views_of(pieces@);
    proof {
        lemma_split_nonempty(b@, '.');
        assert(pv.last() == pv[pv.len() - 1]);
    }
    let n = pieces.len();
    if n < 2 {
        return None;
    }
    if n == 2 && pieces[0].as_str().unicode_len() == 0 {
        return None;
    }
    Some(pieces[n - 1].clone())
}

/// The path wrapped in double quotes, as handed to a shell.
pub open spec fn spec_quoted(p: Seq<char>) -> Seq<char> {
    seq!['"'] + p + seq!['"']
}

/// Quote a path for the shell.
pub fn quote_path(path: &str) -> (r: String)
    ensures
        r@ == spec_quoted(path@),
{
    let mut r = char_to_string('"');
    r.append(path);
    let q = char_to_string('"');
    r.append(q.as_str());
    proof {
        assert(r@ =~= spec_quoted(path@));
    }
    r
}

/// The opener command for a plain file: ask the desktop default-handler
/// registry for the content type's handler and fall back to the generic
/// opener.
pub open spec fn spec_open_command(mime: Seq<char>, p: Seq<char>) -> Seq<char> {
    "xdg-mime query default "@ + mime + " | xargs -I {} sh -c 'which {} >/dev/null && {} \""@ + p
        + "\" || xdg-open \""@ + p + "\"'"@
}

/// Build the opener command for a plain file.
pub fn open_command(mime: &str, path: &str) -> (r: String)
    ensures
        r@ == spec_open_command(mime@, path@),
{
    let mut r = String::from_str("xdg-mime query default ");
    r.append(mime);
    r.append(" | xargs -I {} sh -c 'which {} >/dev/null && {} \"");
    r.append(path);
    r.append("\" || xdg-open \"");
    r.append(path);
    r.append("\"'");
    proof {
        assert(r@ =~= spec_open_command(mime@, path@));
    }
    r
}

/// The icon for a content type: by its top-level type, with a special
/// case for PDF files.
pub open spec fn spec_icon_for_mime(mime: Seq<char>, p: Seq<char>) -> Seq<char> {
    let top = spec_split(mime, '/')[0];
    if top == "text"@ {
        "text-x-generic"@
    } else if top == "image"@ {
        "image-x-generic"@
    } else if top == "audio"@ {
        "audio-x-generic"@
    } else if top == "video"@ {
        "video-x-generic"@
    } else if top == "application"@ {
        if spec_extension(p) == Some("pdf"@) {
            "application-pdf"@
        } else {
            "application-x-generic"@
        }
    } else {
        "text-x-generic"@
    }
}

/// Choose the icon for a content type.
pub fn icon_for_mime(mime: &str, path: &str) -> (r: String)
    ensures
        r@ == spec_icon_for_mime(mime@, path@),
{
    let pieces = split_string(mime, '/');
    proof {
        lemma_split_nonempty(mime@, '/');
        assert(views_of(pieces@)[0] == pieces@[0]@);
    }
    let top = &pieces[0];
    if str_eq(top.as_str(), "text") {
        String::from_str("text-x-generic")
    } else if str_eq(top.as_str(), "image") {
        String::from_str("image-x-generic")
    } else if str_eq(top.as_str(), "audio") {
        String::from_str("audio-x-generic")
    } else if str_eq(top.as_str(), "video") {
        String::from_str("video-x-generic")
    } else if str_eq(top.as_str(), "application") {
        let is_pdf = match extension(path) {
            Some(e) => str_eq(e.as_str(), "pdf"),
            None => false,
        };
        if is_pdf {
            String::from_str("application-pdf")
        } else {
            String::from_str("application-x-generic")
        }
    } else {
        String::from_str("text-x-generic")
    }
}

/// The stat describes something that exists and is a file or directory.
pub open spec fn spec_stat_usable(stat: Option<FileStat>) -> bool {
    match stat {
        None => false,
        Some(st) => st.is_file || st.is_dir,
    }
}

/// The resolution will need the external content-type probe: a plain,
/// non-executable file.
pub open spec fn spec_needs_mime(stat: Option<FileStat>) -> bool {
    match stat {
        None => false,
        Some(st) => st.is_file && !st.is_dir && st.mode & 0o111 == 0,
    }
}

/// Whether resolving this metadata needs the content-type detector.
pub fn needs_mime_probe(stat: &Option<FileStat>) -> (r: bool)
    ensures
        r == spec_needs_mime(*stat),
{
    match stat {
        None => false,
        Some(st) => st.is_file && !st.is_dir && st.mode & 0o111 == 0,
    }
}

/// The entry a path resolves to, on the facts the filesystem reported.
pub open spec fn spec_file_entry(
    p: Seq<char>,
    stat: Option<FileStat>,
    mime: Option<Seq<char>>,
) -> Option<EntryModel> {
    if !spec_stat_usable(stat) {
        None
    } else {
        let st = stat.unwrap();
        match spec_base_name(p) {
            None => None,
            Some(name) => {
                if st.is_dir {
                    Some(
                        EntryModel {
                            name,
                            exec_cmd: Seq::<char>::empty(),
                            icon_name: "folder"@,
                            path: p,
                            launch_count: 0u32,
                            entry_type: EntryType::File,
                        },
                    )
                } else if st.mode & 0o111 != 0 {
                    Some(
                        EntryModel {
                            name,
                            exec_cmd: spec_quoted(p),
                            icon_name: "application-x-executable"@,
                            path: p,
                            launch_count: 0u32,
                            entry_type: EntryType::File,
                        },
                    )
                } else {
                    let m = match mime {
                        Some(v) => v,
                        None => "application/octet-stream"@,
                    };
                    Some(
                        EntryModel {
                            name,
                            exec_cmd: spec_open_command(m, p),
                            icon_name: spec_icon_for_mime(m, p),
                            path: p,
                            launch_count: 0u32,
                            entry_type: EntryType::File,
                        },
                    )
                }
            },
        }
    }
}

/// The view of an optional content-type string.
pub open spec fn mime_view(mime: Option<String>) -> Option<Seq<char>> {
    match mime {
        Some(s) => Some(s@),
        None => None,
    }
}

/// Resolve a path into an ad-hoc entry on the reported metadata: a
/// missing path, or one that is neither a file nor a directory, yields
/// nothing; a directory gets the folder icon and an empty command; an
/// executable file gets the executable icon and its quoted path as the
/// command; a plain file is classified by the detected content type
/// (defaulted when the detector failed) and opened through the desktop
/// handler registry.  File entries carry no launch count.
pub fn create_file_entry_from_stat(
    path: &str,
    stat: Option<FileStat>,
    mime: &Option<String>,
) -> (r: Option<AppEntry>)
    ensures
        match r {
            Some(e) => spec_file_entry(path@, stat, mime_view(*mime)) == Some(e@),
            None => spec_file_entry(path@, stat, mime_view(*mime)) is None,
        },
{
    let st = match stat {
        None => {
            return None;
        },
        Some(st) => st,
    };
    if !st.is_file && !st.is_dir {
        return None;
    }
    let name = match base_name(path) {
        None => {
            return None;
        },
        Some(n) => n,
    };
    let (icon_name, exec_cmd): (String, String) = if st.is_dir {
        (String::from_str("folder"), String::new())
    } else if st.mode & 0o111 != 0 {
        (String::from_str("application-x-executable"), quote_path(path))
    } else {
        let m: &str = match mime {
            Some(s) => s.as_str(),
            None => "application/octet-stream",
        };
        (icon_for_mime(m, path), open_command(m, path))
    };
    Some(
        AppEntry {
            name,
            exec_cmd,
            icon_name,
            path: String::from_str(path),
            launch_count: 0,
            entry_type: EntryType::File,
        },
    )
}

} // verus!
