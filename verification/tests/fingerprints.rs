use media_browser::fingerprint::{bytes_at_most, calculate_folder_hash, to_hex};
use sha2::{Digest, Sha256};

fn names(list: &[&str]) -> Vec<Option<String>> {
    list.iter().map(|n| Some(n.to_string())).collect()
}

#[test]
fn empty_directory_hashes_the_empty_string() {
    assert_eq!(
        calculate_folder_hash(&Vec::new()),
        "e3b0c44298fc1c149afbf4c8996fb92427ae41e4649b934ca495991b7852b855"
    );
}

#[test]
fn single_name_hashes_its_bytes() {
    assert_eq!(
        calculate_folder_hash(&names(&["abc"])),
        "ba7816bf8f01cfea414140de5dae2223b00361a396177a9cb410ff61f20015ad"
    );
}

#[test]
fn names_are_sorted_before_hashing() {
    // "hello " sorts before "world", so the hashed text is "hello world".
    let expected = "b94d27b9934d3e08a52e52d7da7dabfac484efe37a5380ee9088f7ace2efcde9";
    assert_eq!(calculate_folder_hash(&names(&["world", "hello "])), expected);
    assert_eq!(calculate_folder_hash(&names(&["hello ", "world"])), expected);
}

#[test]
fn fingerprint_does_not_depend_on_read_order() {
    let a = names(&["X", "Y", "img.png", "doc.txt", "ä.jpg", "a"]);
    let b = names(&["a", "ä.jpg", "doc.txt", "img.png", "Y", "X"]);
    let c = names(&["img.png", "a", "Y", "ä.jpg", "X", "doc.txt"]);
    let h = calculate_folder_hash(&a);
    assert_eq!(calculate_folder_hash(&b), h);
    assert_eq!(calculate_folder_hash(&c), h);
}

#[test]
fn fingerprint_agrees_with_sorting_strings_and_streaming() {
    let list = ["b", "a", "ab", "B", "", "é", "z.mp4", "a.JPG"];
    let mut sorted: Vec<String> = list.iter().map(|n| n.to_string()).collect();
    sorted.sort();
    let mut hasher = Sha256::new();
    for n in &sorted {
        hasher.update(n.as_bytes());
    }
    let digest = hasher.finalize().to_vec();
    let expected: Vec<String> = digest.iter().map(|v| format!("{:02x}", v)).collect();
    assert_eq!(calculate_folder_hash(&names(&list)), expected.join(""));
}

#[test]
fn fingerprint_is_64_lowercase_hex_digits() {
    let h = calculate_folder_hash(&names(&["X", "Y", "img.png", "doc.txt"]));
    assert_eq!(h.len(), 64);
    assert!(h.chars().all(|c| c.is_ascii_digit() || ('a'..='f').contains(&c)));
}

#[test]
fn fingerprint_changes_when_a_child_is_added_removed_or_renamed() {
    let base = calculate_folder_hash(&names(&["X", "Y", "img.png"]));
    assert_ne!(calculate_folder_hash(&names(&["X", "Y", "img.png", "new"])), base);
    assert_ne!(calculate_folder_hash(&names(&["X", "img.png"])), base);
    assert_ne!(calculate_folder_hash(&names(&["X", "Z", "img.png"])), base);
}

#[test]
fn names_that_are_not_text_are_left_out() {
    let with_gap = vec![Some("a".to_string()), None, Some("b".to_string())];
    assert_eq!(calculate_folder_hash(&with_gap), calculate_folder_hash(&names(&["a", "b"])));
}

#[test]
fn hex_writes_two_lowercase_digits_per_byte() {
    assert_eq!(to_hex(&vec![0x00, 0x0f, 0xa0, 0xff, 0x9b]), "000fa0ff9b");
    assert_eq!(to_hex(&Vec::new()), "");
}

#[test]
fn byte_order_is_lexicographic() {
    assert!(bytes_at_most(&b"".to_vec(), &b"a".to_vec()));
    assert!(bytes_at_most(&b"a".to_vec(), &b"a".to_vec()));
    assert!(bytes_at_most(&b"a".to_vec(), &b"ab".to_vec()));
    assert!(!bytes_at_most(&b"ab".to_vec(), &b"a".to_vec()));
    assert!(bytes_at_most(&b"B".to_vec(), &b"a".to_vec()));
    assert!(!bytes_at_most(&b"b".to_vec(), &b"a".to_vec()));
    assert!(bytes_at_most(&vec![0x7f], &vec![0x80]));
}

#[test]
fn names_are_hashed_without_a_separator() {
    // Both directories hash the bytes "ababa".
    assert_eq!(
        calculate_folder_hash(&names(&["ab", "aba"])),
        calculate_folder_hash(&names(&["aba", "ba"]))
    );
}
