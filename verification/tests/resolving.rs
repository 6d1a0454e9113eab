use media_browser::drives::{drive_candidates, listdrives};
use media_browser::path::{join_path, Platform};
use media_browser::resolve::{
    check_tilde, default_path, expand_tilde, pictures_path, request_path, resolve_or_default,
    ResolvedPath,
};

#[test]
fn tilde_leads_to_the_home_directory() {
    assert_eq!(expand_tilde("~/Notes", Some("/home/me")), "/home/me/Notes");
    assert_eq!(expand_tilde("~/a/b", Some("/home/me/")), "/home/me/a/b");
    assert_eq!(expand_tilde("~\\Notes", Some("C:\\Users\\me")), "C:\\Users\\me/Notes");
    assert_eq!(expand_tilde("~/", Some("/home/me")), "/home/me/");
}

#[test]
fn paths_without_a_leading_tilde_are_unchanged() {
    assert_eq!(expand_tilde("/abs/Notes", Some("/home/me")), "/abs/Notes");
    assert_eq!(expand_tilde("~", Some("/home/me")), "~");
    assert_eq!(expand_tilde("~me/x", Some("/home/me")), "~me/x");
    assert_eq!(expand_tilde("a/~/b", Some("/home/me")), "a/~/b");
    assert_eq!(expand_tilde("C:\\x\\y", Some("/home/me")), "C:\\x\\y");
    assert_eq!(expand_tilde("", Some("/home/me")), "");
}

#[test]
fn without_a_home_directory_nothing_is_expanded() {
    assert_eq!(expand_tilde("~/Notes", None), "~/Notes");
}

#[test]
fn check_tilde_uses_the_home_directory_of_the_host() {
    let expected = match home::home_dir() {
        Some(dir) => join_path(&dir.to_string_lossy(), "Notes"),
        None => "~/Notes".to_string(),
    };
    assert_eq!(check_tilde("~/Notes"), expected);
    assert_eq!(check_tilde("/abs/Notes"), "/abs/Notes");
}

#[test]
fn default_path_prefers_pictures() {
    assert_eq!(default_path("/home/me", true), "/home/me/Pictures");
    assert_eq!(default_path("/home/me", false), "/home/me");
    assert_eq!(pictures_path("/home/me/"), "/home/me/Pictures");
}

#[test]
fn an_empty_request_is_about_the_default_path() {
    assert_eq!(request_path("", &default_path("/home/me", true)), "/home/me/Pictures");
    assert_eq!(request_path("", &default_path("/home/me", false)), "/home/me");
    assert_eq!(request_path("/srv/media", "/home/me"), "/srv/media");
}

#[test]
fn resolving_falls_back_to_the_default() {
    assert_eq!(resolve_or_default("", Some("/x".to_string()), "/home/me"), "/home/me");
    assert_eq!(resolve_or_default("/a/../b", Some("/b".to_string()), "/home/me"), "/b");
    assert_eq!(resolve_or_default("/definitely/missing", None, "/home/me"), "/home/me");
}

#[test]
fn a_resolved_path_keeps_what_was_given() {
    let found = ResolvedPath::new("C:\\a\\..\\b", Some("\\\\?\\C:\\b".to_string()));
    assert_eq!(found.raw_input, "C:\\a\\..\\b");
    assert_eq!(found.normalized, "C:/a/../b");
    assert_eq!(found.canonical, "\\\\?\\C:\\b");
    assert!(found.exists);
    let missing = ResolvedPath::new("/definitely/missing", None);
    assert_eq!(missing.canonical, "/definitely/missing");
    assert_eq!(missing.normalized, "/definitely/missing");
    assert!(!missing.exists);
}

#[test]
fn drive_roots_exist_only_where_drives_are_lettered() {
    assert!(drive_candidates(Platform::Posix).is_empty());
    assert!(listdrives(Platform::Posix, &vec![true; 26]).is_empty());
    let all = drive_candidates(Platform::Windows);
    assert_eq!(all.len(), 26);
    assert_eq!(all[0], "A:\\");
    assert_eq!(all[2], "C:\\");
    assert_eq!(all[25], "Z:\\");
}

#[test]
fn listdrives_keeps_the_drives_that_are_present() {
    let mut present = vec![false; 26];
    present[2] = true;
    present[3] = true;
    assert_eq!(listdrives(Platform::Windows, &present), vec!["C:\\".to_string(), "D:\\".to_string()]);
    assert_eq!(listdrives(Platform::Windows, &vec![false, true]), vec!["B:\\".to_string()]);
    assert!(listdrives(Platform::Windows, &Vec::new()).is_empty());
}
