use media_browser::path::{
    file_name, join_path, normalize_path, parent_path, slash_forward, Platform,
};
use std::path::Path;

fn std_parent(p: &str) -> Option<String> {
    Path::new(p).parent().map(|q| q.to_str().unwrap().to_string())
}

fn std_file_name(p: &str) -> Option<String> {
    Path::new(p).file_name().map(|q| q.to_str().unwrap().to_string())
}

fn all_strings(alphabet: &[char], max_len: usize) -> Vec<String> {
    let mut out = vec![String::new()];
    let mut last = vec![String::new()];
    for _ in 0..max_len {
        let mut next = Vec::new();
        for s in &last {
            for c in alphabet {
                let mut t = s.clone();
                t.push(*c);
                next.push(t);
            }
        }
        out.extend(next.iter().cloned());
        last = next;
    }
    out
}

#[test]
fn parent_agrees_with_the_host_on_every_short_path() {
    for p in all_strings(&['/', '.', 'a', '~'], 7) {
        assert_eq!(parent_path(&p, Platform::Posix), std_parent(&p), "parent of {:?}", p);
    }
    for p in all_strings(&['/', '.', 'a', '\\', ':'], 6) {
        assert_eq!(parent_path(&p, Platform::Posix), std_parent(&p), "parent of {:?}", p);
    }
}

#[test]
fn file_name_agrees_with_the_host_on_every_short_path() {
    for p in all_strings(&['/', '.', 'a', '~'], 7) {
        assert_eq!(file_name(&p, Platform::Posix), std_file_name(&p), "file name of {:?}", p);
    }
    for p in all_strings(&['/', '.', 'a', '\\', ':'], 6) {
        assert_eq!(file_name(&p, Platform::Posix), std_file_name(&p), "file name of {:?}", p);
    }
}

#[test]
fn join_agrees_with_the_host_for_relative_tails() {
    for base in all_strings(&['/', '.', 'a'], 4) {
        for rest in ["", "x", "x/y", ".", "Pictures"] {
            let expected = Path::new(&base).join(rest).to_str().unwrap().to_string();
            assert_eq!(join_path(&base, rest), expected, "{:?} + {:?}", base, rest);
        }
    }
}

#[test]
fn normalize_turns_backslashes() {
    assert_eq!(normalize_path("C:\\Users\\me"), "C:/Users/me");
    assert_eq!(normalize_path("a\\b/c"), "a/b/c");
    assert_eq!(normalize_path(""), "");
    assert_eq!(normalize_path("MiXed\\Case"), "MiXed/Case");
    assert_eq!(slash_forward("\\\\?\\C:\\x"), "//?/C:/x");
}

#[test]
fn normalize_strips_the_extended_prefix() {
    assert_eq!(normalize_path("\\\\?\\C:\\Users"), "C:/Users");
    assert_eq!(normalize_path("//?/C:/x"), "C:/x");
    assert_eq!(normalize_path("//?/x"), "x");
    assert_eq!(normalize_path("//?/"), "");
    assert_eq!(normalize_path("//?"), "//?");
    assert_eq!(normalize_path("a//?/x"), "a//?/x");
}

#[test]
fn parent_and_file_name_of_common_paths() {
    assert_eq!(parent_path("/home/me/Pictures", Platform::Posix), Some("/home/me".to_string()));
    assert_eq!(parent_path("/home", Platform::Posix), Some("/".to_string()));
    assert_eq!(parent_path("/", Platform::Posix), None);
    assert_eq!(parent_path("", Platform::Posix), None);
    assert_eq!(parent_path("a", Platform::Posix), Some("".to_string()));
    assert_eq!(parent_path("a/b/", Platform::Posix), Some("a".to_string()));
    assert_eq!(file_name("/home/me/Pictures", Platform::Posix), Some("Pictures".to_string()));
    assert_eq!(file_name("/home/me/Pictures/", Platform::Posix), Some("Pictures".to_string()));
    assert_eq!(file_name("/", Platform::Posix), None);
    assert_eq!(file_name("", Platform::Posix), None);
    assert_eq!(file_name("a/..", Platform::Posix), None);
    assert_eq!(file_name("a/.", Platform::Posix), Some("a".to_string()));
}

#[test]
fn drives_anchor_paths_on_windows() {
    assert_eq!(parent_path("C:/Users/me", Platform::Windows), Some("C:/Users".to_string()));
    assert_eq!(parent_path("C:/Users", Platform::Windows), Some("C:/".to_string()));
    assert_eq!(parent_path("C:/", Platform::Windows), None);
    assert_eq!(parent_path("C:", Platform::Windows), None);
    assert_eq!(parent_path("C:Users", Platform::Windows), Some("C:".to_string()));
    assert_eq!(file_name("C:/", Platform::Windows), None);
    assert_eq!(file_name("C:/Users", Platform::Windows), Some("Users".to_string()));
    // Without drive letters the same text is one relative segment below another.
    assert_eq!(parent_path("C:/Users", Platform::Posix), Some("C:".to_string()));
    assert_eq!(file_name("C:", Platform::Posix), Some("C:".to_string()));
}

#[test]
fn shares_anchor_paths_on_windows() {
    assert_eq!(parent_path("//s/h/", Platform::Windows), None);
    assert_eq!(parent_path("//s/h", Platform::Windows), None);
    assert_eq!(parent_path("//s", Platform::Windows), None);
    assert_eq!(parent_path("//s/h/x", Platform::Windows), Some("//s/h/".to_string()));
    assert_eq!(parent_path("//s/h/x/y", Platform::Windows), Some("//s/h/x".to_string()));
    assert_eq!(file_name("//s/h/", Platform::Windows), None);
    assert_eq!(file_name("//s/h/x", Platform::Windows), Some("x".to_string()));
    // Elsewhere two slashes are a root like one.
    assert_eq!(parent_path("//s/h", Platform::Posix), Some("//s".to_string()));
    assert_eq!(parent_path("//s", Platform::Posix), Some("/".to_string()));
}

#[test]
fn a_backslash_is_part_of_a_name_on_posix() {
    assert_eq!(parent_path("a\\b", Platform::Posix), Some("".to_string()));
    assert_eq!(file_name("a\\b", Platform::Posix), Some("a\\b".to_string()));
    assert_eq!(parent_path("/srv/x\\y", Platform::Posix), Some("/srv".to_string()));
}
