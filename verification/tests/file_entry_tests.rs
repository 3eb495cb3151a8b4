use hyprlauncher::entry::EntryType;
use hyprlauncher::file_entry::{
    base_name, create_file_entry_from_stat, extension, needs_mime_probe, FileStat,
};

fn dir_stat() -> FileStat {
    FileStat { is_dir: true, is_file: false, mode: 0o755 }
}

fn file_stat(mode: u32) -> FileStat {
    FileStat { is_dir: false, is_file: true, mode }
}

#[test]
fn directory_entry() {
    let e = create_file_entry_from_stat("/home/user/Documents", Some(dir_stat()), &None)
        .expect("a directory resolves");
    assert_eq!(e.entry_type, EntryType::File);
    assert_eq!(e.icon_name, "folder");
    assert_eq!(e.exec_cmd, "");
    assert_eq!(e.name, "Documents");
    assert_eq!(e.path, "/home/user/Documents");
    assert_eq!(e.launch_count, 0);
}

#[test]
fn missing_path_yields_nothing() {
    assert!(create_file_entry_from_stat("/no/such/path", None, &None).is_none());
}

#[test]
fn special_file_yields_nothing() {
    let stat = FileStat { is_dir: false, is_file: false, mode: 0o644 };
    assert!(create_file_entry_from_stat("/dev/null", Some(stat), &None).is_none());
}

#[test]
fn executable_file_entry() {
    let e = create_file_entry_from_stat("/usr/bin/vim", Some(file_stat(0o755)), &None).unwrap();
    assert_eq!(e.icon_name, "application-x-executable");
    assert_eq!(e.exec_cmd, "\"/usr/bin/vim\"");
    assert_eq!(e.name, "vim");
    assert_eq!(e.entry_type, EntryType::File);
    assert_eq!(e.launch_count, 0);
}

#[test]
fn any_executable_bit_counts() {
    let e = create_file_entry_from_stat("/tmp/t", Some(file_stat(0o100)), &None).unwrap();
    assert_eq!(e.icon_name, "application-x-executable");
}

#[test]
fn plain_text_file_entry() {
    let mime = Some("text/plain".to_string());
    let e = create_file_entry_from_stat("/tmp/notes.txt", Some(file_stat(0o644)), &mime).unwrap();
    assert_eq!(e.icon_name, "text-x-generic");
    assert_eq!(
        e.exec_cmd,
        "xdg-mime query default text/plain | xargs -I {} sh -c 'which {} >/dev/null && {} \"/tmp/notes.txt\" || xdg-open \"/tmp/notes.txt\"'"
    );
}

#[test]
fn media_mime_icons() {
    let stat = Some(file_stat(0o644));
    let img = create_file_entry_from_stat("/tmp/a.png", stat, &Some("image/png".to_string()));
    assert_eq!(img.unwrap().icon_name, "image-x-generic");
    let aud = create_file_entry_from_stat("/tmp/a.ogg", stat, &Some("audio/ogg".to_string()));
    assert_eq!(aud.unwrap().icon_name, "audio-x-generic");
    let vid = create_file_entry_from_stat("/tmp/a.mkv", stat, &Some("video/x-matroska".to_string()));
    assert_eq!(vid.unwrap().icon_name, "video-x-generic");
    let odd = create_file_entry_from_stat("/tmp/a.x", stat, &Some("chemical/x-pdb".to_string()));
    assert_eq!(odd.unwrap().icon_name, "text-x-generic");
}

#[test]
fn pdf_gets_its_own_icon() {
    let stat = Some(file_stat(0o644));
    let mime = Some("application/pdf".to_string());
    let pdf = create_file_entry_from_stat("/tmp/doc.pdf", stat, &mime).unwrap();
    assert_eq!(pdf.icon_name, "application-pdf");
    let other = create_file_entry_from_stat("/tmp/doc.bin", stat, &Some("application/zip".to_string()));
    assert_eq!(other.unwrap().icon_name, "application-x-generic");
}

#[test]
fn detector_failure_defaults_the_mime_type() {
    let e = create_file_entry_from_stat("/tmp/blob", Some(file_stat(0o644)), &None).unwrap();
    assert_eq!(e.icon_name, "application-x-generic");
    assert!(e.exec_cmd.starts_with("xdg-mime query default application/octet-stream "));
}

#[test]
fn mime_probe_is_needed_only_for_plain_files() {
    assert!(needs_mime_probe(&Some(file_stat(0o644))));
    assert!(!needs_mime_probe(&Some(file_stat(0o755))));
    assert!(!needs_mime_probe(&Some(dir_stat())));
    assert!(!needs_mime_probe(&None));
}

#[test]
fn base_name_cases() {
    assert_eq!(base_name("/usr/bin/vim"), Some("vim".to_string()));
    assert_eq!(base_name("vim"), Some("vim".to_string()));
    assert_eq!(base_name("/home/user/dir/"), Some("dir".to_string()));
    assert_eq!(base_name("/"), None);
    assert_eq!(base_name(""), None);
    assert_eq!(base_name("/tmp/.."), None);
    assert_eq!(base_name("/tmp/."), None);
}

#[test]
fn extension_cases() {
    assert_eq!(extension("/tmp/doc.pdf"), Some("pdf".to_string()));
    assert_eq!(extension("/tmp/a.tar.gz"), Some("gz".to_string()));
    assert_eq!(extension("/tmp/noext"), None);
    assert_eq!(extension("/tmp/.bashrc"), None);
}
