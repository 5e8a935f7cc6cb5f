use fire::registry::{directories_to_load, install_directory, load_installed_directories, InstallResult};

fn strings(v: &[&str]) -> Vec<String> {
    v.iter().map(|s| s.to_string()).collect()
}

#[test]
fn only_absolute_paths_are_loaded() {
    let listed = strings(&["/a", "relative", "", "/b/c"]);
    assert_eq!(load_installed_directories(listed), strings(&["/a", "/b/c"]));
}

#[test]
fn installing_adds_in_path_order() {
    let (result, dirs) = install_directory(&strings(&["/z", "/a"]), "/m");
    assert_eq!(result, InstallResult::Added);
    assert_eq!(dirs, strings(&["/a", "/m", "/z"]));
}

#[test]
fn installing_twice_changes_nothing() {
    let (first, dirs) = install_directory(&strings(&["/a"]), "/b");
    assert_eq!(first, InstallResult::Added);
    let (second, again) = install_directory(&dirs, "/b");
    assert_eq!(second, InstallResult::AlreadyInstalled);
    assert_eq!(again, dirs);
}

#[test]
fn same_path_with_trailing_slash_is_already_installed() {
    let (result, dirs) = install_directory(&strings(&["/a/b"]), "/a/b/");
    assert_eq!(result, InstallResult::AlreadyInstalled);
    assert_eq!(dirs, strings(&["/a/b"]));
}

#[test]
fn project_directory_is_not_loaded_twice() {
    let installed = strings(&["/work/app/", "/work/lib", "/other"]);
    assert_eq!(directories_to_load(&installed, "/work/app"), strings(&["/work/lib", "/other"]));
}
