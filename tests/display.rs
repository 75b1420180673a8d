use libtrash::{
    size_display, DeletionDate, Device, FsAction, PathStatus, TrashDirectory, TrashFile, TrashRootType,
};

fn free_place() -> PathStatus {
    PathStatus {
        exists: false,
        is_dir: false,
        is_file: false,
        is_symlink: false,
        accessible: false,
        deletable: false,
        sticky: false,
    }
}

fn dir_status() -> PathStatus {
    PathStatus { exists: true, is_dir: true, ..free_place() }
}

#[test]
fn sizes_for_people() {
    assert_eq!(size_display(0), "0B");
    assert_eq!(size_display(1000), "1000B");
    assert_eq!(size_display(1001), "1KB");
    assert_eq!(size_display(1000000), "1000KB");
    assert_eq!(size_display(2500000), "2MB");
    assert_eq!(size_display(1000000000), "1000MB");
    assert_eq!(size_display(7300000000), "7GB");
    assert_eq!(size_display(u64::MAX), "18446744073GB");
}

fn named(root: &TrashDirectory, path: &str) -> TrashFile {
    let mut f = TrashFile::new(path.to_string(), root).unwrap();
    let d = DeletionDate { year: 2024, month: 5, day: 6, hour: 7, minute: 8, second: 9 };
    root.generate_trash_entry_names(&mut f, &d, &vec![], &vec![]).unwrap();
    f
}

#[test]
fn origin_in_home_uses_tilde() {
    let root = TrashDirectory::from("/home/u/.local/share/Trash".to_string(), Device::for_path(1), TrashRootType::Home);
    let f = named(&root, "/home/u/docs/a.txt");
    assert_eq!(f.original_path_display(Some("/home/u")), "~/docs/a.txt");
    assert_eq!(f.original_path_display(Some("/home/u/")), "~/docs/a.txt");
    assert_eq!(f.original_path_display(Some("/home/user")), "/home/u/docs/a.txt");
    assert_eq!(f.original_path_display(None), "/home/u/docs/a.txt");
    let g = named(&root, "/home/u");
    assert_eq!(g.original_path_display(Some("/home/u")), "~");
}

#[test]
fn origin_on_mount_is_below_top_directory() {
    let mut dev = Device::for_path(0x811);
    dev.resolve_mount("1 1 8:17 / /mnt/usb rw - vfat /dev/sdb1 rw\n").unwrap();
    let user = TrashDirectory::from("/mnt/usb/.Trash-1000".to_string(), dev.clone(), TrashRootType::TopDirUser);
    let f = named(&user, "/mnt/usb/docs/a.txt");
    assert_eq!(f.original_file, "/mnt/usb/docs/a.txt");
    let found = TrashFile::from(
        "/mnt/usb/.Trash-1000/files/a.txt".to_string(),
        &user,
        Some(f.create_trashinfo().unwrap().as_str()),
    )
    .unwrap();
    assert_eq!(found.original_file, "docs/a.txt");
    assert_eq!(found.original_path_display(Some("/home/u")), "/mnt/usb/docs/a.txt");
    assert_eq!(found.restore_path(), "/mnt/usb/docs/a.txt");
    assert_eq!(
        found.restore(false, &free_place(), &dir_status()).unwrap()[0],
        FsAction::Rename {
            from: "/mnt/usb/.Trash-1000/files/a.txt".to_string(),
            to: "/mnt/usb/docs/a.txt".to_string()
        }
    );

    let admin = TrashDirectory::from("/mnt/usb/.Trash/1000".to_string(), dev, TrashRootType::TopDirAdmin);
    let found = TrashFile::from(
        "/mnt/usb/.Trash/1000/files/a.txt".to_string(),
        &admin,
        Some("[Trash Info]\nPath=docs/a.txt\nDeletionDate=2024-05-06T07:08:09\n"),
    )
    .unwrap();
    assert_eq!(found.original_path_display(None), "/mnt/usb/docs/a.txt");
}
