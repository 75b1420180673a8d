use libtrash::{
    DeletionDate, Device, EntryStat, FsAction, PathStatus, TrashDirectory, TrashError, TrashFile, TrashInfo,
    TrashInfoError, TrashRootType,
};

fn home_root() -> TrashDirectory {
    TrashDirectory::from(
        "/home/u/.local/share/Trash".to_string(),
        Device::for_path(0x803),
        TrashRootType::Home,
    )
}

fn free_place() -> PathStatus {
    PathStatus {
        exists: false,
        is_dir: false,
        is_file: false,
        is_symlink: false,
        accessible: false,
        deletable: false,
        sticky: false,
    }
}

fn parent_dir() -> PathStatus {
    PathStatus { exists: true, is_dir: true, accessible: true, deletable: true, ..free_place() }
}

fn date() -> DeletionDate {
    DeletionDate { year: 2024, month: 3, day: 7, hour: 9, minute: 5, second: 2 }
}

fn names(v: &[&str]) -> Vec<String> {
    v.iter().map(|s| s.to_string()).collect()
}

#[test]
fn trashable_names_insert_index_before_first_dot() {
    let n = |s: &str, i: u32| TrashDirectory::get_trashable_file_name(s.to_string(), i);
    assert_eq!(n("notes.txt", 1), "notes.txt");
    assert_eq!(n("notes.txt", 0), "notes.txt");
    assert_eq!(n("notes.txt", 2), "notes.2.txt");
    assert_eq!(n("archive.tar.gz", 2), "archive.2.tar.gz");
    assert_eq!(n("archive.tar.gz", 13), "archive.13.tar.gz");
    assert_eq!(n("notes", 2), "notes.2");
    assert_eq!(n("notes", 3), "notes.3");
    assert_eq!(n(".bashrc", 2), ".2.bashrc");
}

#[test]
fn home_scenario_trash_twice_and_restore_first() {
    let root = home_root();
    let mut first = TrashFile::new("/home/u/notes.txt".to_string(), &root).unwrap();
    root.generate_trash_entry_names(&mut first, &date(), &vec![], &vec![]).unwrap();
    assert_eq!(first.files_entry.as_deref(), Some("/home/u/.local/share/Trash/files/notes.txt"));
    let info = first.trashinfo.clone().unwrap();
    assert_eq!(info.path, "/home/u/.local/share/Trash/info/notes.txt.trashinfo");
    let content = first.create_trashinfo().unwrap();
    assert_eq!(
        content,
        "[Trash Info]\nPath=/home/u/notes.txt\nDeletionDate=2024-03-07T09:05:02\n"
    );

    let mut second = TrashFile::new("/home/u/notes.txt".to_string(), &root).unwrap();
    root.generate_trash_entry_names(
        &mut second,
        &date(),
        &names(&["notes.txt"]),
        &names(&["notes.txt.trashinfo"]),
    )
    .unwrap();
    assert_eq!(second.files_entry.as_deref(), Some("/home/u/.local/share/Trash/files/notes.2.txt"));
    assert_eq!(
        second.trashinfo.as_ref().unwrap().path,
        "/home/u/.local/share/Trash/info/notes.2.txt.trashinfo"
    );

    let found = TrashFile::from(
        "/home/u/.local/share/Trash/files/notes.txt".to_string(),
        &root,
        Some(content.as_str()),
    )
    .unwrap();
    assert_eq!(found.original_file, "/home/u/notes.txt");
    assert_eq!(
        found.entry_paths().unwrap(),
        (
            "/home/u/.local/share/Trash/files/notes.txt".to_string(),
            "/home/u/.local/share/Trash/info/notes.txt.trashinfo".to_string()
        )
    );
    assert_eq!(
        found.restore(false, &free_place(), &parent_dir()).unwrap(),
        vec![
            FsAction::Rename {
                from: "/home/u/.local/share/Trash/files/notes.txt".to_string(),
                to: "/home/u/notes.txt".to_string()
            },
            FsAction::RemoveFile("/home/u/.local/share/Trash/info/notes.txt.trashinfo".to_string())
        ]
    );
    assert_eq!(found.trashinfo.unwrap(), info);
}

#[test]
fn naming_skips_names_taken_in_either_directory() {
    let root = home_root();
    let mut f = TrashFile::new("/home/u/notes.txt".to_string(), &root).unwrap();
    root.generate_trash_entry_names(
        &mut f,
        &date(),
        &names(&["notes.txt", "other"]),
        &names(&["notes.2.txt.trashinfo"]),
    )
    .unwrap();
    assert_eq!(f.files_entry.as_deref(), Some("/home/u/.local/share/Trash/files/notes.3.txt"));

    let mut g = TrashFile::new("/home/u/notes".to_string(), &root).unwrap();
    root.generate_trash_entry_names(&mut g, &date(), &names(&["notes", "notes.2"]), &vec![])
        .unwrap();
    assert_eq!(g.files_entry.as_deref(), Some("/home/u/.local/share/Trash/files/notes.3"));
}

#[test]
fn naming_in_topdir_records_relative_path() {
    let mut dev = Device::for_path(0x811);
    dev.resolve_mount("30 1 8:17 / /mnt/usb rw - vfat /dev/sdb1 rw\n").unwrap();
    let root = TrashDirectory::from("/mnt/usb/.Trash-1000".to_string(), dev, TrashRootType::TopDirUser);
    let mut f = TrashFile::new("/mnt/usb/docs/my file.txt".to_string(), &root).unwrap();
    root.generate_trash_entry_names(&mut f, &date(), &vec![], &vec![]).unwrap();
    let info = f.trashinfo.as_ref().unwrap();
    assert_eq!(info.original_path, "docs/my%20file.txt");
    assert_eq!(f.files_entry.as_deref(), Some("/mnt/usb/.Trash-1000/files/my file.txt"));

    let mut outside = TrashFile::new("/home/u/x".to_string(), &root).unwrap();
    assert_eq!(
        root.generate_trash_entry_names(&mut outside, &date(), &vec![], &vec![]),
        Err(TrashError::NotUnderMount)
    );
    let unresolved = TrashDirectory::from("/mnt/usb/.Trash-1000".to_string(), Device::for_path(0x811), TrashRootType::TopDirUser);
    assert_eq!(
        unresolved.generate_trash_entry_names(&mut outside, &date(), &vec![], &vec![]),
        Err(TrashError::MountUnknown)
    );
}

#[test]
fn naming_needs_a_file_name() {
    let root = home_root();
    let mut f = TrashFile::new("/".to_string(), &root).unwrap();
    assert_eq!(
        root.generate_trash_entry_names(&mut f, &date(), &vec![], &vec![]),
        Err(TrashError::NoFileName)
    );
    assert!(f.files_entry.is_none());
}

#[test]
fn new_requires_absolute_path() {
    let root = home_root();
    assert_eq!(TrashFile::new("notes.txt".to_string(), &root).err(), Some(TrashError::NotAbsolute));
    assert_eq!(TrashFile::new(String::new(), &root).err(), Some(TrashError::NotAbsolute));
}

#[test]
fn uninitialised_entries_are_refused() {
    let root = home_root();
    let f = TrashFile::new("/home/u/a".to_string(), &root).unwrap();
    assert_eq!(f.create_trashinfo(), Err(TrashError::Uninitialised));
    assert_eq!(f.entry_paths(), Err(TrashError::Uninitialised));
    let st = EntryStat { is_symlink: false, is_dir: false, len: 5, tree_size: 0 };
    assert_eq!(f.get_size(&st), Err(TrashError::Uninitialised));
}

#[test]
fn size_depends_on_kind() {
    let root = home_root();
    let mut f = TrashFile::new("/home/u/a".to_string(), &root).unwrap();
    root.generate_trash_entry_names(&mut f, &date(), &vec![], &vec![]).unwrap();
    let link = EntryStat { is_symlink: true, is_dir: true, len: 11, tree_size: 4096 };
    let dir = EntryStat { is_symlink: false, is_dir: true, len: 11, tree_size: 8192 };
    let file = EntryStat { is_symlink: false, is_dir: false, len: 1234, tree_size: 0 };
    assert_eq!(f.get_size(&link), Ok(11));
    assert_eq!(f.get_size(&dir), Ok(8192));
    assert_eq!(f.get_size(&file), Ok(1234));
}

#[test]
fn broken_symlink_is_trashable() {
    let link = PathStatus {
        exists: false,
        is_dir: false,
        is_file: false,
        is_symlink: true,
        accessible: false,
        deletable: true,
        sticky: false,
    };
    assert_eq!(TrashFile::check_source(&link), Ok(()));
    let nothing = PathStatus { is_symlink: false, ..link };
    assert_eq!(TrashFile::check_source(&nothing), Err(TrashError::NotFound));
    let file = PathStatus { exists: true, is_file: true, is_symlink: false, ..link };
    assert_eq!(TrashFile::check_source(&file), Ok(()));
}

#[test]
fn from_existing_entry_errors() {
    let root = home_root();
    let p = "/home/u/.local/share/Trash/files/a".to_string();
    assert_eq!(TrashFile::from(p.clone(), &root, None).err(), Some(TrashError::MissingTrashInfo));
    assert_eq!(
        TrashFile::from(p.clone(), &root, Some("[Trash Info]\nPath=/a\n")).err(),
        Some(TrashError::InvalidTrashInfo)
    );
    assert_eq!(
        TrashFile::from(p.clone(), &root, Some("[Trash Info]\nPath=%FF\nDeletionDate=x\n")).err(),
        Some(TrashError::InvalidEncoding)
    );
    assert_eq!(
        TrashFile::from("/".to_string(), &root, Some("")).err(),
        Some(TrashError::NoFileName)
    );
    assert_eq!(
        root.trashinfo_path_for("/home/u/.local/share/Trash/files/a.2.txt"),
        Some("/home/u/.local/share/Trash/info/a.2.txt.trashinfo".to_string())
    );
}

#[test]
fn trashinfo_encodes_and_decodes_path() {
    let i = TrashInfo::new("/t/info/x.trashinfo".to_string(), "/home/u/my notes/ü&x.txt", &date());
    assert_eq!(i.original_path, "/home/u/my%20notes/%C3%BC%26x.txt");
    assert_eq!(i.deletion_date, "2024-03-07T09:05:02");
    assert_eq!(i.get_original_path().as_deref(), Some("/home/u/my notes/ü&x.txt"));
    let parsed = TrashInfo::from("/t/info/x.trashinfo".to_string(), &i.file_content()).unwrap();
    assert_eq!(parsed, i);
}

#[test]
fn trashinfo_parsing() {
    let ok = TrashInfo::from(
        "/p".to_string(),
        "  [Trash Info] \nPath=%2Fa%2Fb\nDeletionDate=2020-01-02T03:04:05+01:00\nextra\n",
    )
    .unwrap();
    assert_eq!(ok.original_path, "%2Fa%2Fb");
    assert_eq!(ok.get_original_path().as_deref(), Some("/a/b"));
    assert_eq!(
        ok.get_deletion_date(),
        Some(DeletionDate { year: 2020, month: 1, day: 2, hour: 3, minute: 4, second: 5 })
    );
    for bad in [
        "",
        "[Trash Info]",
        "[Trash]\nPath=a\nDeletionDate=b\n",
        "[Trash Info]\nDeletionDate=b\nPath=a\n",
        "[Trash Info]\npath=a\nDeletionDate=b\n",
    ] {
        assert_eq!(TrashInfo::from("/p".to_string(), bad), Err(TrashInfoError::InvalidFormat));
    }
}

#[test]
fn deletion_dates() {
    let d = DeletionDate { year: 987, month: 12, day: 31, hour: 23, minute: 59, second: 59 };
    assert_eq!(d.to_trashinfo_string(), "0987-12-31T23:59:59");
    assert_eq!(DeletionDate::parse("0987-12-31T23:59:59"), Some(d));
    assert_eq!(DeletionDate::parse("0987-12-31T23:59:59Z"), Some(d));
    assert_eq!(DeletionDate::parse("0987-12-31T23:59:59z"), Some(d));
    assert_eq!(DeletionDate::parse("2024-13-01T00:00:00"), None);
    assert_eq!(DeletionDate::parse("2024-01-01 00:00:00"), None);
    assert_eq!(DeletionDate::parse("2024-01-01T00:00"), None);
    assert_eq!(DeletionDate::parse("2024-01-01T24:00:00"), None);
}

#[test]
fn lifecycle_plans() {
    let root = home_root();
    let mut f = TrashFile::new("/home/u/dir".to_string(), &root).unwrap();
    assert_eq!(f.trash(true), Err(TrashError::Uninitialised));
    root.generate_trash_entry_names(&mut f, &date(), &vec![], &vec![]).unwrap();
    let entry = "/home/u/.local/share/Trash/files/dir".to_string();
    let info = "/home/u/.local/share/Trash/info/dir.trashinfo".to_string();
    assert_eq!(
        f.trash(true).unwrap(),
        vec![FsAction::Rename { from: "/home/u/dir".to_string(), to: entry.clone() }, FsAction::AddDirSizesEntry]
    );
    assert_eq!(
        f.trash(false).unwrap(),
        vec![FsAction::Rename { from: "/home/u/dir".to_string(), to: entry.clone() }]
    );
    assert_eq!(
        f.restore(false, &free_place(), &parent_dir()).unwrap(),
        vec![
            FsAction::Rename { from: entry.clone(), to: "/home/u/dir".to_string() },
            FsAction::RemoveFile(info.clone())
        ]
    );
    assert_eq!(
        f.restore(true, &free_place(), &parent_dir()).unwrap().last(),
        Some(&FsAction::CleanupDirSizes { required: false })
    );
    assert_eq!(
        f.delete_forever(true).unwrap(),
        vec![
            FsAction::RemoveDirAll(entry.clone()),
            FsAction::RemoveFile(info.clone()),
            FsAction::CleanupDirSizes { required: true }
        ]
    );
    assert_eq!(
        f.delete_forever(false).unwrap(),
        vec![FsAction::RemoveFile(entry), FsAction::RemoveFile(info)]
    );
}

#[test]
fn restore_refuses_taken_place_or_missing_parent() {
    let root = home_root();
    let mut f = TrashFile::new("/home/u/a.txt".to_string(), &root).unwrap();
    assert_eq!(f.restore(false, &free_place(), &parent_dir()), Err(TrashError::Uninitialised));
    root.generate_trash_entry_names(&mut f, &date(), &vec![], &vec![]).unwrap();
    let taken = PathStatus { exists: true, is_file: true, ..free_place() };
    assert_eq!(f.restore(false, &taken, &parent_dir()), Err(TrashError::DestinationExists));
    let dangling = PathStatus { is_symlink: true, ..free_place() };
    assert_eq!(f.restore(false, &dangling, &parent_dir()), Err(TrashError::DestinationExists));
    assert_eq!(f.restore(false, &free_place(), &free_place()), Err(TrashError::ParentMissing));
    let file_parent = PathStatus { exists: true, is_file: true, ..free_place() };
    assert_eq!(f.restore(false, &free_place(), &file_parent), Err(TrashError::ParentMissing));
    assert!(f.restore(false, &free_place(), &parent_dir()).is_ok());
}

#[test]
fn stored_path_keeps_safe_characters() {
    let i = TrashInfo::new("/t/x".to_string(), "/home/u/notes-1_2.~txt", &date());
    assert_eq!(i.original_path, "/home/u/notes-1_2.~txt");
    let j = TrashInfo::new("/t/x".to_string(), "/a b/%/\n", &date());
    assert_eq!(j.original_path, "/a%20b/%25/%0A");
}

#[test]
fn impossible_dates_are_refused() {
    assert_eq!(DeletionDate::parse("2023-02-29T00:00:00"), None);
    assert_eq!(DeletionDate::parse("2024-04-31T00:00:00"), None);
    assert_eq!(DeletionDate::parse("1900-02-29T00:00:00"), None);
    assert!(DeletionDate::parse("2024-02-29T00:00:00").is_some());
    assert!(DeletionDate::parse("2000-02-29T00:00:00").is_some());
}

#[test]
fn repeated_trashing_names_in_sequence() {
    let root = home_root();
    for (base, expected) in [
        ("notes.txt", ["notes.txt", "notes.2.txt", "notes.3.txt", "notes.4.txt"]),
        ("notes", ["notes", "notes.2", "notes.3", "notes.4"]),
    ] {
        let mut files: Vec<String> = vec![];
        let mut infos: Vec<String> = vec![];
        for want in expected {
            let mut f = TrashFile::new(format!("/home/u/{base}"), &root).unwrap();
            root.generate_trash_entry_names(&mut f, &date(), &files, &infos).unwrap();
            assert_eq!(f.files_entry.clone().unwrap(), format!("/home/u/.local/share/Trash/files/{want}"));
            files.push(want.to_string());
            infos.push(format!("{want}.trashinfo"));
        }
    }
}
