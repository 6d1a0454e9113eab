use media_browser::listing::{
    child_location, has_media_extension, list_entries, parent_folder, ChildProbe, EntryMeta,
    ModifiedTime,
};
use media_browser::path::Platform;

fn meta(symlink: bool, secs: u64) -> Option<EntryMeta> {
    Some(EntryMeta { symlink, modified: Some(ModifiedTime { secs, nanos: 500_000_000 }) })
}

fn dir(name: &str) -> ChildProbe {
    ChildProbe { name: name.to_string(), target_is_dir: Some(true), meta: meta(false, 1) }
}

fn file(name: &str) -> ChildProbe {
    ChildProbe { name: name.to_string(), target_is_dir: Some(false), meta: meta(false, 2) }
}

#[test]
fn every_listing_opens_with_the_way_up() {
    for path in ["/srv/media", "/", "", "relative", "C:/", "a/b/"] {
        for platform in [Platform::Posix, Platform::Windows] {
            let (folders, files) = list_entries(path, platform, Vec::new());
            assert_eq!(folders.len(), 1);
            assert_eq!(folders[0].name, "..");
            assert!(!folders[0].symlink);
            assert!(files.is_empty());
        }
    }
}

#[test]
fn the_way_up_leads_to_the_parent_or_stays() {
    assert_eq!(parent_folder("/srv/media", Platform::Posix).path, "/srv");
    assert_eq!(parent_folder("/srv", Platform::Posix).path, "/");
    assert_eq!(parent_folder("/", Platform::Posix).path, "/");
    assert_eq!(parent_folder("media", Platform::Posix).path, "");
    assert_eq!(parent_folder("C:\\Users\\me", Platform::Windows).path, "C:/Users");
    assert_eq!(parent_folder("C:\\", Platform::Windows).path, "C:/");
    assert_eq!(parent_folder("\\\\?\\C:\\Users", Platform::Windows).path, "C:/");
}

#[test]
fn extension_filter_keeps_media_names() {
    let children = vec![file("a.JPG"), file("b.jpeg"), file("c.txt"), file("d.mp4"), file("e.jpgx")];
    let (folders, files) = list_entries("/srv/media", Platform::Posix, children);
    let names: Vec<&str> = files.iter().map(|f| f.name.as_str()).collect();
    assert_eq!(names, vec!["a.JPG", "b.jpeg", "d.mp4"]);
    assert_eq!(folders.len(), 1);
}

#[test]
fn extension_filter_does_not_touch_folders() {
    let children = vec![dir("c.txt"), dir("photos.jpg"), dir("plain")];
    let (folders, files) = list_entries("/srv", Platform::Posix, children);
    let names: Vec<&str> = folders.iter().map(|f| f.name.as_str()).collect();
    assert_eq!(names, vec!["..", "c.txt", "photos.jpg", "plain"]);
    assert!(files.is_empty());
}

#[test]
fn media_names_end_in_a_media_ending() {
    for name in ["x.jpg", "x.jpeg", "x.png", "x.svg", "x.gif", "x.webp", "x.webm", "x.mp4"] {
        assert!(has_media_extension(name), "{}", name);
        assert!(has_media_extension(&name.to_uppercase()), "{}", name);
    }
    assert!(has_media_extension("weird.jpg"));
    assert!(has_media_extension(".jpg"));
    assert!(has_media_extension("a.b.PnG"));
    assert!(has_media_extension("xjpg.mp4"));
    for name in ["foo.jpgx", "foo.txt", "jpg", "foo.jp", "", "foo.jpg ", "foo.mkv", "foo.JPEG.bak"] {
        assert!(!has_media_extension(name), "{}", name);
    }
}

#[test]
fn entries_carry_path_link_and_time() {
    let children = vec![
        ChildProbe { name: "X".to_string(), target_is_dir: Some(true), meta: meta(true, 7) },
        ChildProbe { name: "img.png".to_string(), target_is_dir: Some(false), meta: meta(true, 1700000000) },
        ChildProbe {
            name: "old.gif".to_string(),
            target_is_dir: Some(false),
            meta: Some(EntryMeta { symlink: false, modified: None }),
        },
    ];
    let (folders, files) = list_entries("/srv/media/", Platform::Posix, children);
    assert_eq!(folders[1].name, "X");
    assert_eq!(folders[1].path, "/srv/media/X");
    assert!(folders[1].symlink);
    assert_eq!(files[0].name, "img.png");
    assert_eq!(files[0].path, "/srv/media/img.png");
    assert!(files[0].symlink);
    assert_eq!(files[0].mtime, Some(ModifiedTime { secs: 1700000000, nanos: 500_000_000 }));
    assert_eq!(files[1].name, "old.gif");
    assert_eq!(files[1].mtime, None);
    assert!(!files[1].symlink);
}

#[test]
fn children_without_an_answer_are_left_out() {
    let children = vec![
        ChildProbe { name: "gone.png".to_string(), target_is_dir: None, meta: meta(true, 1) },
        ChildProbe { name: "dark.png".to_string(), target_is_dir: Some(false), meta: None },
        ChildProbe { name: "lost".to_string(), target_is_dir: Some(true), meta: None },
        file("seen.png"),
    ];
    let (folders, files) = list_entries("/srv", Platform::Posix, children);
    assert_eq!(folders.len(), 1);
    assert_eq!(files.len(), 1);
    assert_eq!(files[0].name, "seen.png");
}

#[test]
fn child_paths_are_in_normal_form() {
    assert_eq!(child_location("C:\\Users\\me", "a.png", Platform::Windows), "C:/Users/me/a.png");
    assert_eq!(child_location("C:\\Users\\me\\", "a.png", Platform::Windows), "C:/Users/me/a.png");
    assert_eq!(child_location("\\\\?\\C:\\x", "y", Platform::Windows), "C:/x/y");
    assert_eq!(child_location("/srv", "odd\\name.png", Platform::Posix), "/srv/odd/name.png");
    assert_eq!(child_location("", "a", Platform::Posix), "a");
    assert_eq!(child_location("/", "a", Platform::Posix), "/a");
    // On a host where the backslash is no separator the name is joined with a slash.
    assert_eq!(child_location("dir\\", "a", Platform::Posix), "dir//a");
}

#[test]
fn the_way_up_is_taken_from_the_path_as_the_platform_reads_it() {
    // One segment on a host where the backslash is a character like any other.
    assert_eq!(parent_folder("a\\b", Platform::Posix).path, "");
    assert_eq!(parent_folder("/srv/x\\y", Platform::Posix).path, "/srv");
    assert_eq!(parent_folder("/srv/x\\y/z", Platform::Posix).path, "/srv/x/y");
    // Two segments where it separates.
    assert_eq!(parent_folder("a\\b", Platform::Windows).path, "a");
    // A share root has no parent.
    assert_eq!(parent_folder("\\\\s\\h\\", Platform::Windows).path, "//s/h/");
    assert_eq!(parent_folder("\\\\s\\h\\x", Platform::Windows).path, "//s/h/");
    assert_eq!(parent_folder("\\\\?\\C:\\", Platform::Windows).path, "C:/");
}

#[test]
fn the_way_up_agrees_with_the_host_on_short_paths() {
    let alphabet = ['/', '.', 'a', '\\'];
    let mut paths = vec![String::new()];
    let mut last = vec![String::new()];
    for _ in 0..6 {
        let mut next = Vec::new();
        for s in &last {
            for c in alphabet {
                let mut t = s.clone();
                t.push(c);
                next.push(t);
            }
        }
        paths.extend(next.iter().cloned());
        last = next;
    }
    for p in paths {
        let given = std::path::Path::new(&p);
        let up = match given.parent() {
            Some(parent) => parent.to_str().unwrap().to_string(),
            None => p.clone(),
        };
        let expected = media_browser::path::normalize_path(&up);
        assert_eq!(parent_folder(&p, Platform::Posix).path, expected, "way up from {:?}", p);
    }
}
