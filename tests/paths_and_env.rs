use libtrash::{get_file_name, get_path_relative_to, get_xdg_data_home, join_path, to_abs_path, EnvError, PathError};

#[test]
fn relative_paths() {
    assert_eq!(get_path_relative_to("/mnt/usb/dir/file", "/mnt/usb"), Ok("dir/file".to_string()));
    assert_eq!(get_path_relative_to("/mnt/usb/dir/file", "/mnt/usb/"), Ok("dir/file".to_string()));
    assert_eq!(get_path_relative_to("/mnt/usb", "/mnt/usb"), Ok(String::new()));
    assert_eq!(get_path_relative_to("/a/b", "/"), Ok("a/b".to_string()));
    assert_eq!(get_path_relative_to("/mnt/usbx/a", "/mnt/usb"), Err(PathError::NotUnder));
    assert_eq!(get_path_relative_to("mnt/a", "/mnt"), Err(PathError::NotAbsolute));
    assert_eq!(get_path_relative_to("/mnt/a", "mnt"), Err(PathError::NotAbsolute));
}

#[test]
fn joins_and_names() {
    assert_eq!(join_path("/a", "b"), "/a/b");
    assert_eq!(join_path("/a/", "b"), "/a/b");
    assert_eq!(join_path("/a", "/b"), "/b");
    assert_eq!(join_path("", "b"), "b");
    assert_eq!(get_file_name("/a/b.txt").as_deref(), Some("b.txt"));
    assert_eq!(get_file_name("/a/b/").as_deref(), Some("b"));
    assert_eq!(get_file_name("/a/b/."), Some("b".to_string()));
    assert_eq!(get_file_name("/a/.."), None);
    assert_eq!(get_file_name("/"), None);
}

#[test]
fn absolute_paths() {
    assert_eq!(to_abs_path("/x/y", "/home/u"), "/x/y");
    assert_eq!(to_abs_path("./notes.txt", "/home/u"), "/home/u/notes.txt");
    assert_eq!(to_abs_path("notes.txt", "/home/u"), "/home/u/notes.txt");
    assert_eq!(to_abs_path("-foo", "/"), "/-foo");
}

#[test]
fn xdg_data_home_fallback() {
    assert_eq!(get_xdg_data_home(Some("/data"), Some("/home/u")), Ok("/data".to_string()));
    assert_eq!(get_xdg_data_home(None, Some("/home/u")), Ok("/home/u/.local/share".to_string()));
    assert_eq!(get_xdg_data_home(None, None), Err(EnvError::NoHome));
}
