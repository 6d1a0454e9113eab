//! Directory snapshots: what a listing shows of the children of a directory.

use vstd::prelude::*;
use crate::path::{
    forward_slashes, join_path, joined, normalize_path, normalized, parent_of, parent_path,
    slash_forward, Platform,
};
use crate::text::to_chars;

verus! {

/// The ASCII lowercase form of a character.
pub open spec fn lower(c: char) -> char {
    if 'A' <= c && c <= 'Z' {
        ((c as u8) + 32) as char
    } else {
        c
    }
}

/// `name` with its ASCII letters in lowercase.
pub open spec fn lowercased(name: Seq<char>) -> Seq<char> {
    Seq::new(name.len(), |i: int| lower(name[i]))
}

/// The endings that mark a file as media.
pub open spec fn media_extensions() -> Seq<Seq<char>> {
    seq![".jpg"@, ".jpeg"@, ".png"@, ".svg"@, ".gif"@, ".webp"@, ".webm"@, ".mp4"@]
}

/// Whether a file of this name is media: its name, lowercased, ends in one of
/// the media endings. The ending need not be a true extension.
pub open spec fn is_media_name(name: Seq<char>) -> bool {
    exists|i: int|
        0 <= i < media_extensions().len() && (#[trigger] media_extensions()[i]).is_suffix_of(
            lowercased(name),
        )
}

fn lower_char(c: char) -> (r: char)
    ensures
        r == lower(c),
{
    if 'A' <= c && c <= 'Z' {
        ((c as u8) + 32) as char
    } else {
        c
    }
}

/// Whether `text` ends with `ending`.
fn ends_with(text: &Vec<char>, ending: &Vec<char>) -> (r: bool)
    ensures
        r == ending@.is_suffix_of(text@),
{
    if ending.len() > text.len() {
        return false;
    }
    let from: usize = text.len() - ending.len();
    let mut i: usize = 0;
    while i < ending.len()
        invariant
            i <= ending.len() <= text.len(),
            from == text.len() - ending.len(),
            forall|k: int| 0 <= k < i ==> ending@[k] == text@[from + k],
        decreases ending.len() - i,
    {
        if ending[i] != text[from + i] {
            assert(text@.subrange(from as int, text@.len() as int)[i as int] == text@[from + i]);
            return false;
        }
        i += 1;
    }
    assert(ending@ =~= text@.subrange(from as int, text@.len() as int));
    true
}

/// Decides whether a file of this name is media.
pub fn has_media_extension(name: &str) -> (r: bool)
    ensures
        r == is_media_name(name@),
{
    let mut low: Vec<char> = Vec::new();
    for c in it: name.chars()
        invariant
            it.seq() == name@,
            low@ == lowercased(name@.take(it.index() as int)),
    {
        low.push(lower_char(c));
        assert(low@ =~= lowercased(name@.take(it.index() + 1)));
    }
    assert(name@.take(name@.len() as int) =~= name@);
    let endings: Vec<&str> = vec![".jpg", ".jpeg", ".png", ".svg", ".gif", ".webp", ".webm", ".mp4"];
    assert(Seq::new(endings@.len(), |i: int| endings@[i]@) =~= media_extensions());
    let mut i: usize = 0;
    while i < endings.len()
        invariant
            i <= endings.len(),
            low@ == lowercased(name@),
            Seq::new(endings@.len(), |i: int| endings@[i]@) == media_extensions(),
            forall|k: int| 0 <= k < i ==> !(#[trigger] media_extensions()[k]).is_suffix_of(low@),
        decreases endings.len() - i,
    {
        let ending = to_chars(endings[i]);
        assert(ending@ == Seq::new(endings@.len(), |i: int| endings@[i]@)[i as int]);
        if ends_with(&low, &ending) {
            return true;
        }
        i += 1;
    }
    false
}


/// A point in time: seconds and nanoseconds since the UNIX epoch.
#[derive(Clone, Copy, Debug, PartialEq, Eq, Structural)]
pub struct ModifiedTime {
    pub secs: u64,
    pub nanos: u32,
}

/// What the entry of a child says of itself, without following a link.
#[derive(Clone, Copy, Debug, PartialEq, Eq, Structural)]
pub struct EntryMeta {
    /// Whether the entry is a symbolic link.
    pub symlink: bool,
    /// When it was last modified; `None` where the host cannot tell, or
    /// tells a time before the epoch.
    pub modified: Option<ModifiedTime>,
}

/// One child of a directory, as the filesystem answered for it.
#[derive(Debug)]
pub struct ChildProbe {
    /// The name of the child.
    pub name: String,
    /// Whether the child, links followed, is a directory. `None` where the
    /// target could not be resolved or read.
    pub target_is_dir: Option<bool>,
    /// The entry's own metadata; `None` where it could not be read.
    pub meta: Option<EntryMeta>,
}

/// A child as plain values.
pub struct ChildProbeView {
    pub name: Seq<char>,
    pub target_is_dir: Option<bool>,
    pub meta: Option<EntryMeta>,
}

impl View for ChildProbe {
    type V = ChildProbeView;

    open spec fn view(&self) -> ChildProbeView {
        ChildProbeView { name: self.name@, target_is_dir: self.target_is_dir, meta: self.meta }
    }
}

/// A folder in a listing.
#[derive(Debug)]
pub struct FolderEntry {
    pub name: String,
    /// Where the folder is, in normal form.
    pub path: String,
    pub symlink: bool,
}

/// A folder entry as plain values.
pub struct FolderEntryView {
    pub name: Seq<char>,
    pub path: Seq<char>,
    pub symlink: bool,
}

impl View for FolderEntry {
    type V = FolderEntryView;

    open spec fn view(&self) -> FolderEntryView {
        FolderEntryView { name: self.name@, path: self.path@, symlink: self.symlink }
    }
}

/// A media file in a listing.
#[derive(Debug)]
pub struct FileEntry {
    pub name: String,
    /// Where the file is, in normal form.
    pub path: String,
    /// When the file was last modified, where that is known.
    pub mtime: Option<ModifiedTime>,
    pub symlink: bool,
}

/// A file entry as plain values.
pub struct FileEntryView {
    pub name: Seq<char>,
    pub path: Seq<char>,
    pub mtime: Option<ModifiedTime>,
    pub symlink: bool,
}

impl View for FileEntry {
    type V = FileEntryView;

    open spec fn view(&self) -> FileEntryView {
        FileEntryView {
            name: self.name@,
            path: self.path@,
            mtime: self.mtime,
            symlink: self.symlink,
        }
    }
}

/// The views of a sequence of children.
pub open spec fn child_views(children: Seq<ChildProbe>) -> Seq<ChildProbeView> {
    Seq::new(children.len(), |i: int| children[i]@)
}

/// The views of a sequence of folder entries.
pub open spec fn folder_views(folders: Seq<FolderEntry>) -> Seq<FolderEntryView> {
    Seq::new(folders.len(), |i: int| folders[i]@)
}

/// The views of a sequence of file entries.
pub open spec fn file_views(files: Seq<FileEntry>) -> Seq<FileEntryView> {
    Seq::new(files.len(), |i: int| files[i]@)
}

/// The name under which every listing offers the way up.
pub open spec fn parent_name() -> Seq<char> {
    ".."@
}

/// A path as the platform reads it. Where the backslash separates segments
/// it counts as a slash; elsewhere it is a character like any other.
pub open spec fn as_read(path: Seq<char>, platform: Platform) -> Seq<char> {
    match platform {
        Platform::Windows => forward_slashes(path),
        Platform::Posix => path,
    }
}

/// Where the way up from `dir` leads: the parent of `dir` as the platform
/// reads it, or `dir` itself where there is no parent; in normal form.
pub open spec fn parent_or_self(dir: Seq<char>, platform: Platform) -> Seq<char> {
    let read = as_read(dir, platform);
    match parent_of(read, platform) {
        Some(parent) => normalized(parent),
        None => normalized(read),
    }
}

/// The entry that leads up from `dir`. It opens every listing.
pub open spec fn parent_entry(dir: Seq<char>, platform: Platform) -> FolderEntryView {
    FolderEntryView { name: parent_name(), path: parent_or_self(dir, platform), symlink: false }
}

/// Where the child `name` of `dir` is: the name joined to `dir` as the
/// platform reads it, in normal form.
pub open spec fn child_path(dir: Seq<char>, name: Seq<char>, platform: Platform) -> Seq<char> {
    normalized(joined(as_read(dir, platform), name))
}

/// A child can be listed once the filesystem has answered both for its
/// target and for the entry itself.
pub open spec fn is_listable(child: ChildProbeView) -> bool {
    child.target_is_dir is Some && child.meta is Some
}

/// Whether a child is listed as a folder: its target is a directory.
pub open spec fn is_folder(child: ChildProbeView) -> bool {
    is_listable(child) && child.target_is_dir == Some(true)
}

/// Whether a child is listed as a file: its target is no directory and its
/// name is that of a media file.
pub open spec fn is_file(child: ChildProbeView) -> bool {
    is_listable(child) && child.target_is_dir == Some(false) && is_media_name(child.name)
}

/// The folder entry of a child of `dir`.
pub open spec fn folder_entry(
    dir: Seq<char>,
    child: ChildProbeView,
    platform: Platform,
) -> FolderEntryView {
    FolderEntryView {
        name: child.name,
        path: child_path(dir, child.name, platform),
        symlink: child.meta->0.symlink,
    }
}

/// The file entry of a child of `dir`.
pub open spec fn file_entry(
    dir: Seq<char>,
    child: ChildProbeView,
    platform: Platform,
) -> FileEntryView {
    FileEntryView {
        name: child.name,
        path: child_path(dir, child.name, platform),
        mtime: child.meta->0.modified,
        symlink: child.meta->0.symlink,
    }
}

/// The folders among the children, in the order read.
pub open spec fn child_folders(
    dir: Seq<char>,
    children: Seq<ChildProbeView>,
    platform: Platform,
) -> Seq<FolderEntryView>
    decreases children.len(),
{
    if children.len() == 0 {
        Seq::empty()
    } else {
        let front = child_folders(dir, children.drop_last(), platform);
        if is_folder(children.last()) {
            front.push(folder_entry(dir, children.last(), platform))
        } else {
            front
        }
    }
}

/// The folders of a listing: the way up, then the folders among the children.
pub open spec fn folders_of(
    dir: Seq<char>,
    children: Seq<ChildProbeView>,
    platform: Platform,
) -> Seq<FolderEntryView> {
    seq![parent_entry(dir, platform)] + child_folders(dir, children, platform)
}

/// The files of a listing: the media files among the children, in the order
/// read.
pub open spec fn files_of(
    dir: Seq<char>,
    children: Seq<ChildProbeView>,
    platform: Platform,
) -> Seq<FileEntryView>
    decreases children.len(),
{
    if children.len() == 0 {
        Seq::empty()
    } else {
        let front = files_of(dir, children.drop_last(), platform);
        if is_file(children.last()) {
            front.push(file_entry(dir, children.last(), platform))
        } else {
            front
        }
    }
}

/// Reads a path as the platform does.
fn read_as(path: &str, platform: Platform) -> (r: String)
    ensures
        r@ == as_read(path@, platform),
{
    match platform {
        Platform::Windows => slash_forward(path),
        Platform::Posix => path.to_owned(),
    }
}

/// The entry that leads up from `dir`.
pub fn parent_folder(dir: &str, platform: Platform) -> (r: FolderEntry)
    ensures
        r@ == parent_entry(dir@, platform),
        !r.path@.contains('\\'),
{
    let read = read_as(dir, platform);
    let up = match parent_path(read.as_str(), platform) {
        Some(parent) => parent,
        None => read,
    };
    let path = normalize_path(up.as_str());
    let mut name = String::new();
    name.append("..");
    assert(name@ =~= parent_name());
    FolderEntry { name, path, symlink: false }
}

/// Where the child `name` of `dir` is, in normal form.
pub fn child_location(dir: &str, name: &str, platform: Platform) -> (r: String)
    ensures
        r@ == child_path(dir@, name@, platform),
        !r@.contains('\\'),
{
    let read = read_as(dir, platform);
    let whole = join_path(read.as_str(), name);
    normalize_path(whole.as_str())
}

/// Lists a directory from what was read of its children.
///
/// The folders open with the way up; then come the children whose target is
/// a directory. The files are the other children with the name of a media
/// file. A child for which the filesystem gave no answer is left out. Both
/// keep the order in which the children were read.
pub fn list_entries(dir: &str, platform: Platform, children: Vec<ChildProbe>) -> (r: (
    Vec<FolderEntry>,
    Vec<FileEntry>,
))
    ensures
        folder_views(r.0@) == folders_of(dir@, child_views(children@), platform),
        file_views(r.1@) == files_of(dir@, child_views(children@), platform),
        r.0@.len() >= 1,
        r.0@[0]@.name == parent_name(),
        forall|i: int| 0 <= i < r.1@.len() ==> is_media_name(#[trigger] r.1@[i]@.name),
        forall|i: int| 0 <= i < r.0@.len() ==> !(#[trigger] r.0@[i]).path@.contains('\\'),
        forall|i: int| 0 <= i < r.1@.len() ==> !(#[trigger] r.1@[i]).path@.contains('\\'),
{
    let ghost all = child_views(children@);
    assert(all.len() == children.len());
    let mut folders: Vec<FolderEntry> = Vec::new();
    let mut files: Vec<FileEntry> = Vec::new();
    folders.push(parent_folder(dir, platform));
    let mut at: usize = 0;
    assert(all.take(0) =~= Seq::<ChildProbeView>::empty());
    assert(folder_views(folders@) =~= folders_of(dir@, all.take(0), platform));
    assert(file_views(files@) =~= files_of(dir@, all.take(0), platform));
    for child in it: children
        invariant
            child_views(it.seq()) == all,
            all.len() <= usize::MAX,
            at == it.index(),
            folder_views(folders@) == folders_of(dir@, all.take(at as int), platform),
            file_views(files@) == files_of(dir@, all.take(at as int), platform),
            forall|i: int| 0 <= i < files@.len() ==> is_media_name(#[trigger] files@[i]@.name),
            forall|i: int| 0 <= i < folders@.len() ==> !(#[trigger] folders@[i]).path@.contains('\\'),
            forall|i: int| 0 <= i < files@.len() ==> !(#[trigger] files@[i]).path@.contains('\\'),
    {
        let ghost seen_folders = folder_views(folders@);
        let ghost seen_files = file_views(files@);
        assert(all.take(at + 1).drop_last() =~= all.take(at as int));
        assert(child@ == all[at as int]);
        match (child.target_is_dir, child.meta) {
            (Some(is_dir), Some(meta)) => {
                if is_dir {
                    let path = child_location(dir, child.name.as_str(), platform);
                    folders.push(FolderEntry { name: child.name, path, symlink: meta.symlink });
                    assert(folder_views(folders@) =~= seen_folders.push(
                        folder_entry(dir@, all[at as int], platform),
                    ));
                } else if has_media_extension(child.name.as_str()) {
                    let path = child_location(dir, child.name.as_str(), platform);
                    files.push(
                        FileEntry {
                            name: child.name,
                            path,
                            mtime: meta.modified,
                            symlink: meta.symlink,
                        },
                    );
                    assert(file_views(files@) =~= seen_files.push(
                        file_entry(dir@, all[at as int], platform),
                    ));
                }
            },
            _ => {},
        }
        at += 1;
    }
    assert(all.take(all.len() as int) =~= all);
    assert(folder_views(folders@)[0] == parent_entry(dir@, platform));
    (folders, files)
}

} // verus!
