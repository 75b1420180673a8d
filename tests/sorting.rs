use libtrash::{sort_file_list, DeletionDate, Device, SortKey, SortType, TrashDirectory, TrashFile, TrashRootType};
use std::cmp::Ordering;

fn key(date: &str, is_dir: bool, dev_id: u64, size: u64, name: &str) -> SortKey {
    SortKey { deletion_date: date.to_string(), is_dir, dev_id, size, name: name.to_string() }
}

fn keys() -> Vec<SortKey> {
    vec![
        key("2024-01-01T00:00:00", false, 1, 10, "b"),
        key("2024-02-01T00:00:00", false, 2, 30, "a"),
        key("2024-01-01T00:00:00", true, 1, 30, "c"),
        key("2023-12-31T23:59:59", false, 3, 5, "ab"),
    ]
}

#[test]
fn sort_by_deletion_date_newest_first_dirs_first() {
    assert_eq!(sort_file_list(&keys(), SortType::DeletionDate), vec![1, 2, 0, 3]);
}

#[test]
fn sort_by_root_size_and_name() {
    assert_eq!(sort_file_list(&keys(), SortType::TrashRoot), vec![3, 1, 0, 2]);
    assert_eq!(sort_file_list(&keys(), SortType::Size), vec![1, 2, 0, 3]);
    assert_eq!(sort_file_list(&keys(), SortType::FileName), vec![1, 3, 0, 2]);
    assert_eq!(sort_file_list(&vec![], SortType::Size), Vec::<usize>::new());
}

#[test]
fn compare_keys() {
    let k = keys();
    assert_eq!(k[0].compare(&k[1], SortType::DeletionDate), Ordering::Greater);
    assert_eq!(k[2].compare(&k[0], SortType::DeletionDate), Ordering::Less);
    assert_eq!(k[0].compare(&k[0], SortType::DeletionDate), Ordering::Equal);
}

#[test]
fn sort_key_lowercases_name() {
    let root = TrashDirectory::from("/t".to_string(), Device::for_path(7), TrashRootType::Home);
    let mut f = TrashFile::new("/home/u/ReadMe.TXT".to_string(), &root).unwrap();
    let d = DeletionDate { year: 2024, month: 1, day: 1, hour: 0, minute: 0, second: 0 };
    root.generate_trash_entry_names(&mut f, &d, &vec![], &vec![]).unwrap();
    let k = SortKey::for_file(&f, false, 3).unwrap();
    assert_eq!(k.name, "readme.txt");
    assert_eq!(k.dev_id, 7);
    assert_eq!(k.deletion_date, "2024-01-01T00:00:00");
}

#[test]
fn ties_keep_their_order() {
    let k = vec![
        key("2024-01-01T00:00:00", false, 1, 10, "x"),
        key("2024-01-01T00:00:00", false, 1, 10, "y"),
        key("2025-01-01T00:00:00", false, 1, 10, "z"),
        key("2024-01-01T00:00:00", false, 1, 10, "w"),
    ];
    assert_eq!(sort_file_list(&k, SortType::DeletionDate), vec![2, 0, 1, 3]);
    assert_eq!(sort_file_list(&k, SortType::Size), vec![2, 0, 1, 3]);
}
