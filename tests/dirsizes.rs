use libtrash::{
    dirsizes_entries, DeletionDate, Device, DirSizesError, PathStatus, TrashDirectory, TrashError,
    TrashFile, TrashRootType,
};

fn root(kind: TrashRootType) -> TrashDirectory {
    TrashDirectory::from("/mnt/usb/.Trash-1000".to_string(), Device::for_path(0x811), kind)
}

fn status(exists: bool, is_file: bool, is_symlink: bool, deletable: bool) -> PathStatus {
    PathStatus {
        exists,
        is_dir: exists && !is_file,
        is_file,
        is_symlink,
        accessible: true,
        deletable,
        sticky: false,
    }
}

const CACHE: &str = "4096 1700000000 keep\n\
                     8192 1700000001 gone%20dir\n\
                     garbage line\n\
                     12288 1700000002 also%20kept\n";

#[test]
fn entries_decode_names() {
    let e = dirsizes_entries(CACHE);
    assert_eq!(
        e,
        vec![
            Some("keep".to_string()),
            Some("gone dir".to_string()),
            None,
            Some("also kept".to_string())
        ]
    );
    assert_eq!(dirsizes_entries("1 2 %FF\n"), vec![None]);
}

#[test]
fn cleanup_drops_entries_of_gone_directories() {
    let r = root(TrashRootType::TopDirUser);
    let out = r.cleanup_dirsizes(CACHE, &vec![true, false, true, true]);
    assert_eq!(out, "4096 1700000000 keep\n12288 1700000002 also%20kept\n");
    let all = r.cleanup_dirsizes(CACHE, &vec![true, true, true, true]);
    assert_eq!(all, "4096 1700000000 keep\n8192 1700000001 gone%20dir\n12288 1700000002 also%20kept\n");
    assert_eq!(r.cleanup_dirsizes("", &vec![]), "");
}

#[test]
fn add_entry_replaces_same_name_and_appends() {
    let r = root(TrashRootType::TopDirUser);
    let mut f = TrashFile::new("/mnt/usb/gone dir".to_string(), &r).unwrap();
    assert_eq!(r.add_dirsizes_entry(&f, true, CACHE, &vec![true; 4], 1, 2), Err(TrashError::Uninitialised));
    let mut dev = Device::for_path(0x811);
    dev.resolve_mount("1 1 8:17 / /mnt/usb rw - vfat /dev/sdb1 rw\n").unwrap();
    let r2 = TrashDirectory::from("/mnt/usb/.Trash-1000".to_string(), dev, TrashRootType::TopDirUser);
    let d = DeletionDate { year: 2024, month: 1, day: 1, hour: 0, minute: 0, second: 0 };
    r2.generate_trash_entry_names(&mut f, &d, &vec![], &vec![]).unwrap();
    let out = r2.add_dirsizes_entry(&f, true, CACHE, &vec![true, true, true, false], 16384, 1700000009).unwrap();
    assert_eq!(out.as_deref(), Some("4096 1700000000 keep\n16384 1700000009 gone%20dir\n"));
    assert_eq!(r2.add_dirsizes_entry(&f, false, CACHE, &vec![true; 4], 16384, 1700000009), Ok(None));
}

#[test]
fn dirsizes_path_checks() {
    let r = root(TrashRootType::TopDirUser);
    assert_eq!(
        r.get_dirsizes_path(&status(true, true, false, true)),
        Ok("/mnt/usb/.Trash-1000/directorysizes".to_string())
    );
    assert_eq!(
        r.get_dirsizes_path(&status(false, false, false, false)),
        Ok("/mnt/usb/.Trash-1000/directorysizes".to_string())
    );
    assert_eq!(r.get_dirsizes_path(&status(true, false, false, true)), Err(DirSizesError::NotAFile));
    assert_eq!(r.get_dirsizes_path(&status(true, true, false, false)), Err(DirSizesError::NoPermission));
    assert_eq!(r.get_dirsizes_path(&status(false, false, true, true)), Err(DirSizesError::BrokenLink));
}

#[test]
fn temp_path_is_on_the_same_filesystem() {
    let r = root(TrashRootType::TopDirUser);
    let (dir, file) = r.dirsizes_temp_path("/tmp");
    assert_eq!(dir, "/mnt/usb/.Trash-1000/trash-rs");
    let n: u32 = file
        .strip_prefix("/mnt/usb/.Trash-1000/trash-rs/directorysizes-")
        .unwrap()
        .parse()
        .unwrap();
    assert!((100000000..999999999).contains(&n));

    let h = root(TrashRootType::Home);
    let (dir, file) = h.dirsizes_temp_path("/tmp");
    assert_eq!(dir, "/tmp/trash-rs");
    assert!(file.starts_with("/tmp/trash-rs/directorysizes-"));
    assert_eq!(file.len(), "/tmp/trash-rs/directorysizes-".len() + 9);
}
