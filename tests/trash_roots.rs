use libtrash::{Device, DeviceNumber, PathStatus, RootError, TrashDirectory, TrashRootType};

fn missing() -> PathStatus {
    PathStatus {
        exists: false,
        is_dir: false,
        is_file: false,
        is_symlink: false,
        accessible: false,
        deletable: false,
        sticky: false,
    }
}

fn dir(sticky: bool) -> PathStatus {
    PathStatus {
        exists: true,
        is_dir: true,
        is_file: false,
        is_symlink: false,
        accessible: true,
        deletable: true,
        sticky,
    }
}

fn mounted(dev: u64, mount_point: &str) -> Device {
    let mut d = Device::for_path(dev);
    let info = format!(
        "36 35 {}:{} / {} rw,noatime shared:1 - ext4 /dev/sdb1 rw\n",
        d.dev_num.major, d.dev_num.minor, mount_point
    );
    d.resolve_mount(&info).unwrap();
    d
}

#[test]
fn device_number_splits_major_and_minor() {
    let n = DeviceNumber::for_path(0x803);
    assert_eq!(n.dev_id, 0x803);
    assert_eq!(n.major, 8);
    assert_eq!(n.minor, 3);
    let big = DeviceNumber::for_path((0x123u64 << 8) | (0x45u64 << 12 << 8) | 0x67);
    assert_eq!(big.major, 0x123);
    assert_eq!(big.minor, (0x45 << 8) | 0x67);
}

#[test]
fn resolve_mount_reads_mountinfo() {
    let mut d = Device::for_path(0x811);
    let info = "22 1 0:21 / /proc rw - proc proc rw\n\
                30 1 8:17 / /mnt/usb rw,relatime shared:5 - vfat /dev/sdb1 rw\n\
                31 1 8:17 /sub /other rw - vfat /dev/sdb1 rw\n";
    assert!(d.resolve_mount(info).is_ok());
    assert_eq!(d.mount_point.as_deref(), Some("/mnt/usb"));
    assert_eq!(d.mount_root.as_deref(), Some("/"));
    assert_eq!(d.dev_name.as_deref(), Some("/dev/sdb1"));

    let mut e = Device::for_path(0x812);
    assert_eq!(e.resolve_mount(info), Err(libtrash::MountError::NotFound));
    assert!(e.mount_point.is_none());
}

#[test]
fn trash_mount_points_filters_devices() {
    let mounts = "proc /proc proc rw 0 0\n\
                  /dev/sda2 / ext4 rw 0 0\n\
                  /dev/sda1 /boot/efi vfat rw 0 0\n\
                  /dev/loop3 /snap/core squashfs ro 0 0\n\
                  /dev/sdb1 /mnt/usb vfat rw 0 0\n";
    let r = libtrash::trash_mount_points(mounts);
    assert_eq!(r, vec!["/".to_string(), "/mnt/usb".to_string()]);
}

#[test]
fn same_device_resolves_to_home_trash() {
    let file_dev = Device::for_path(0x803);
    let xdg_dev = Device::for_path(0x803);
    let t = TrashDirectory::resolve_for_file(
        &file_dev,
        "/home/u/.local/share",
        &xdg_dev,
        1000,
        &missing(),
        &missing(),
        &missing(),
    )
    .unwrap();
    assert_eq!(t.root_type, TrashRootType::Home);
    assert_eq!(t.home, "/home/u/.local/share/Trash");
    assert_eq!(t.files, "/home/u/.local/share/Trash/files");
    assert_eq!(t.info, "/home/u/.local/share/Trash/info");
}

#[test]
fn other_device_never_resolves_to_home_trash() {
    let file_dev = mounted(0x811, "/home/u/.local/share");
    let xdg_dev = Device::for_path(0x803);
    let t = TrashDirectory::resolve_for_file(
        &file_dev,
        "/home/u/.local/share",
        &xdg_dev,
        1000,
        &missing(),
        &missing(),
        &missing(),
    )
    .unwrap();
    assert_eq!(t.root_type, TrashRootType::TopDirUser);
    assert_eq!(t.home, "/home/u/.local/share/.Trash-1000");
}

#[test]
fn admin_trash_with_sticky_bit_is_used() {
    let file_dev = mounted(0x811, "/mnt/usb");
    let xdg_dev = Device::for_path(0x803);
    let t = TrashDirectory::resolve_for_file(
        &file_dev, "/home/u/.local/share", &xdg_dev, 1000, &dir(true), &missing(), &missing(),
    )
    .unwrap();
    assert_eq!(t.root_type, TrashRootType::TopDirAdmin);
    assert_eq!(t.home, "/mnt/usb/.Trash/1000");
    assert_eq!(t.files, "/mnt/usb/.Trash/1000/files");
}

#[test]
fn admin_trash_without_sticky_bit_falls_back() {
    let file_dev = mounted(0x811, "/mnt/usb");
    let xdg_dev = Device::for_path(0x803);
    let t = TrashDirectory::resolve_for_file(
        &file_dev, "/home/u/.local/share", &xdg_dev, 1000, &dir(false), &dir(false), &missing(),
    )
    .unwrap();
    assert_eq!(t.root_type, TrashRootType::TopDirUser);
    assert_eq!(t.home, "/mnt/usb/.Trash-1000");
    assert!(!t.home.starts_with("/mnt/usb/.Trash/"));

    let mut link = dir(true);
    link.is_symlink = true;
    let t = TrashDirectory::resolve_for_file(
        &file_dev, "/home/u/.local/share", &xdg_dev, 1000, &link, &dir(false), &dir(false),
    )
    .unwrap();
    assert_eq!(t.root_type, TrashRootType::TopDirUser);
}

#[test]
fn user_trash_that_is_a_file_fails() {
    let file_dev = mounted(0x811, "/mnt/usb");
    let xdg_dev = Device::for_path(0x803);
    let mut file = dir(false);
    file.is_dir = false;
    file.is_file = true;
    let r = TrashDirectory::resolve_for_file(
        &file_dev, "/home/u/.local/share", &xdg_dev, 1000, &missing(), &missing(), &file,
    );
    assert_eq!(r.err(), Some(RootError::NotDirectory));
    let mut locked = dir(false);
    locked.accessible = false;
    let r = TrashDirectory::resolve_for_file(
        &file_dev, "/home/u/.local/share", &xdg_dev, 1000, &missing(), &missing(), &locked,
    );
    assert_eq!(r.err(), Some(RootError::NotWritable));
}

#[test]
fn unknown_mount_point_fails() {
    let file_dev = Device::for_path(0x811);
    let xdg_dev = Device::for_path(0x803);
    let r = TrashDirectory::resolve_for_file(
        &file_dev, "/home/u/.local/share", &xdg_dev, 1000, &dir(true), &missing(), &missing(),
    );
    assert_eq!(r.err(), Some(RootError::MountUnknown));
}

#[test]
fn resolving_twice_gives_same_directories() {
    let file_dev = mounted(0x811, "/mnt/usb");
    let xdg_dev = Device::for_path(0x803);
    let first = TrashDirectory::resolve_for_file(
        &file_dev, "/home/u/.local/share", &xdg_dev, 1000, &dir(false), &missing(), &missing(),
    )
    .unwrap();
    // the caller has now created .Trash-1000
    let second = TrashDirectory::resolve_for_file(
        &file_dev, "/home/u/.local/share", &xdg_dev, 1000, &dir(false), &missing(), &dir(false),
    )
    .unwrap();
    assert_eq!(first.files, second.files);
    assert_eq!(first.info, second.info);
    assert_eq!(first.root_type, second.root_type);
}

#[test]
fn topdir_probes_without_creation() {
    assert_eq!(
        TrashDirectory::topdir_admin_trash_exists_for("/mnt/usb", 0, &dir(true), &missing()),
        Err(RootError::Missing)
    );
    assert_eq!(
        TrashDirectory::topdir_admin_trash_exists_for("/mnt/usb", 0, &dir(true), &dir(false)),
        Ok("/mnt/usb/.Trash/0".to_string())
    );
    assert_eq!(
        TrashDirectory::topdir_admin_trash_exists_for("/mnt/usb", 0, &dir(false), &dir(false)),
        Err(RootError::NotSticky)
    );
    let mut locked = dir(true);
    locked.accessible = false;
    assert_eq!(
        TrashDirectory::try_topdir_admin_trash_for("/mnt/usb", 0, true, &locked, &missing()),
        Err(RootError::NotWritable)
    );
    assert_eq!(
        TrashDirectory::topdir_user_trash_exists_for("/mnt/usb", 42, &missing()),
        Err(RootError::Missing)
    );
    assert_eq!(
        TrashDirectory::try_topdir_user_trash_for("/mnt/usb/", 42, true, &missing()),
        Ok("/mnt/usb/.Trash-42".to_string())
    );
}

#[test]
fn trash_directory_from_root() {
    let t = TrashDirectory::from("/mnt/usb/.Trash-1000".to_string(), Device::for_path(1), TrashRootType::TopDirUser);
    assert_eq!(t.files, "/mnt/usb/.Trash-1000/files");
    assert_eq!(t.info, "/mnt/usb/.Trash-1000/info");
    assert!(t.contains_path("/mnt/usb/.Trash-1000/files/a"));
    assert!(t.contains_path("/mnt/usb/.Trash-1000"));
    assert!(!t.contains_path("/mnt/usb/.Trash-10000/a"));
    assert!(!t.contains_path("/mnt/usb"));
}

#[test]
fn existing_roots_prefer_the_administrators() {
    assert_eq!(
        TrashDirectory::existing_topdir_trash("/mnt/usb", 7, &dir(true), &dir(false), &dir(false)),
        Ok(("/mnt/usb/.Trash/7".to_string(), TrashRootType::TopDirAdmin))
    );
    assert_eq!(
        TrashDirectory::existing_topdir_trash("/mnt/usb", 7, &dir(true), &missing(), &dir(false)),
        Ok(("/mnt/usb/.Trash-7".to_string(), TrashRootType::TopDirUser))
    );
    assert_eq!(
        TrashDirectory::existing_topdir_trash("/mnt/usb", 7, &missing(), &missing(), &missing()),
        Err(RootError::Missing)
    );
}

#[test]
fn refused_admin_trash_falls_back_to_user_trash() {
    let file_dev = mounted(0x811, "/mnt/usb");
    let xdg_dev = Device::for_path(0x803);
    let admin = dir(true).refused();
    assert!(!admin.accessible && admin.sticky);
    let t = TrashDirectory::resolve_for_file(
        &file_dev, "/home/u/.local/share", &xdg_dev, 1000, &admin, &missing(), &missing(),
    )
    .unwrap();
    assert_eq!(t.root_type, TrashRootType::TopDirUser);
}
