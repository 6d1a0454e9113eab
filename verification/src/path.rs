//! Path strings: normal form, segments, parents and joining.
//!
//! Everything here is arithmetic on characters. A path is read as an optional
//! anchor (a root slash, a drive or a share), followed by segments separated
//! by `/`. Empty segments and `.` segments carry no meaning and are skipped.

use vstd::prelude::*;
use crate::text::{from_chars, matches_at, opt_text, to_chars};

verus! {

/// The family of path conventions the host filesystem follows.
#[derive(Clone, Copy, Debug, PartialEq, Eq, Structural)]
pub enum Platform {
    /// Drives and shares; the backslash separates segments as the slash does.
    Windows,
    /// A single root; the slash alone separates segments.
    Posix,
}

/// A backslash becomes a forward slash; every other character stays.
pub open spec fn slashed(c: char) -> char {
    if c == '\\' {
        '/'
    } else {
        c
    }
}

/// `path` with every backslash turned into a forward slash.
pub open spec fn forward_slashes(path: Seq<char>) -> Seq<char> {
    Seq::new(path.len(), |i: int| slashed(path[i]))
}

/// The extended-length prefix `\\?\`, as it reads once its slashes are turned.
pub open spec fn extended_prefix() -> Seq<char> {
    seq!['/', '/', '?', '/']
}

/// The normal form of a path string: forward slashes only, and without an
/// extended-length prefix in front. Case is untouched.
pub open spec fn normalized(path: Seq<char>) -> Seq<char> {
    let plain = forward_slashes(path);
    if extended_prefix().is_prefix_of(plain) {
        plain.skip(4)
    } else {
        plain
    }
}

/// Turning slashes leaves no backslash.
pub proof fn lemma_forward_slashes_has_no_backslash(path: Seq<char>)
    ensures
        !forward_slashes(path).contains('\\'),
{
    let plain = forward_slashes(path);
    assert(forall|i: int| 0 <= i < plain.len() ==> plain[i] != '\\');
}

/// A normal form holds no backslash.
pub proof fn lemma_normalized_has_no_backslash(path: Seq<char>)
    ensures
        !normalized(path).contains('\\'),
{
    let plain = forward_slashes(path);
    assert(forall|i: int| 0 <= i < plain.len() ==> plain[i] != '\\');
}

/// The characters of `path`, each backslash turned into a forward slash.
fn slashed_chars(path: &str) -> (plain: Vec<char>)
    ensures
        plain@ == forward_slashes(path@),
{
    let mut plain: Vec<char> = Vec::new();
    for c in it: path.chars()
        invariant
            it.seq() == path@,
            plain@ == forward_slashes(path@.take(it.index() as int)),
    {
        plain.push(if c == '\\' { '/' } else { c });
        assert(plain@ =~= forward_slashes(path@.take(it.index() + 1)));
    }
    assert(path@.take(path@.len() as int) =~= path@);
    plain
}

/// Turns every backslash of a string into a forward slash.
pub fn slash_forward(path: &str) -> (r: String)
    ensures
        r@ == forward_slashes(path@),
        !r@.contains('\\'),
{
    let plain = slashed_chars(path);
    proof {
        lemma_forward_slashes_has_no_backslash(path@);
    }
    let r = from_chars(&plain, 0, plain.len());
    assert(plain@.subrange(0, plain@.len() as int) =~= plain@);
    r
}

/// Brings a path string into normal form.
pub fn normalize_path(path: &str) -> (r: String)
    ensures
        r@ == normalized(path@),
        !r@.contains('\\'),
{
    let plain = slashed_chars(path);
    let prefix: Vec<char> = vec!['/', '/', '?', '/'];
    assert(prefix@ =~= extended_prefix());
    assert(plain@.skip(0) =~= plain@);
    proof {
        lemma_normalized_has_no_backslash(path@);
    }
    if matches_at(&plain, 0, &prefix) {
        let r = from_chars(&plain, 4, plain.len());
        assert(plain@.subrange(4, plain@.len() as int) =~= plain@.skip(4));
        r
    } else {
        let r = from_chars(&plain, 0, plain.len());
        assert(plain@.subrange(0, plain@.len() as int) =~= plain@);
        r
    }
}

/// Whether `c` can name a drive.
pub open spec fn is_drive_letter(c: char) -> bool {
    ('a' <= c && c <= 'z') || ('A' <= c && c <= 'Z')
}

/// Whether `path` begins with a drive: a letter and a colon.
pub open spec fn has_drive(path: Seq<char>, platform: Platform) -> bool {
    platform == Platform::Windows && path.len() >= 2 && is_drive_letter(path[0]) && path[1] == ':'
}

/// The index of the first slash of `path` at or behind `from`, or the length
/// of `path` where no slash follows.
pub open spec fn next_slash(path: Seq<char>, from: nat) -> nat
    decreases path.len() - from,
{
    if from >= path.len() {
        path.len()
    } else if path[from as int] == '/' {
        from
    } else {
        next_slash(path, from + 1)
    }
}

/// Whether `path` begins with a share: two slashes in front of a server name.
pub open spec fn has_share(path: Seq<char>, platform: Platform) -> bool {
    platform == Platform::Windows && path.len() >= 2 && path[0] == '/' && path[1] == '/'
}

/// Length of the share a path begins with: `//server/share` and the slash
/// after it, as far as the path holds them.
pub open spec fn share_len(path: Seq<char>) -> nat {
    let server_end = next_slash(path, 2);
    if server_end >= path.len() {
        path.len()
    } else {
        let share_end = next_slash(path, server_end + 1);
        if share_end >= path.len() {
            path.len()
        } else {
            share_end + 1
        }
    }
}

/// Length of the anchor at the front of `path`: a drive with the slash after it
/// (`C:/`), a bare drive (`C:`), a share (`//server/share/`), a root slash, or
/// nothing. Drives and shares exist on one platform only.
pub open spec fn anchor_len(path: Seq<char>, platform: Platform) -> nat {
    if has_drive(path, platform) {
        if path.len() >= 3 && path[2] == '/' {
            3
        } else {
            2
        }
    } else if has_share(path, platform) {
        share_len(path)
    } else if path.len() >= 1 && path[0] == '/' {
        1
    } else {
        0
    }
}

/// Where the segments of `path` begin. An unanchored path that opens with a
/// `.` segment keeps that dot in front of its body.
pub open spec fn body_start(path: Seq<char>, platform: Platform) -> nat {
    let anchor = anchor_len(path, platform);
    if anchor == 0 && path.len() >= 1 && path[0] == '.' && (path.len() == 1 || path[1] == '/') {
        1
    } else {
        anchor
    }
}

/// `path` without the slashes and `.` segments it ends in, never shorter than
/// `floor` characters.
pub open spec fn trimmed(path: Seq<char>, floor: nat) -> Seq<char>
    decreases path.len(),
{
    if path.len() <= floor {
        path
    } else if path.last() == '/' {
        trimmed(path.drop_last(), floor)
    } else if path.last() == '.' && (path.len() == floor + 1 || path[path.len() - 2] == '/') {
        trimmed(path.drop_last(), floor)
    } else {
        path
    }
}

/// The index at which the last segment of `path` begins: just behind its last
/// slash, and not before `floor`.
pub open spec fn segment_start(path: Seq<char>, floor: nat) -> nat
    decreases path.len(),
{
    if path.len() <= floor {
        floor
    } else if path.last() == '/' {
        path.len()
    } else {
        segment_start(path.drop_last(), floor)
    }
}

/// The final segment of a path, if it names something: not for an anchor
/// alone, an empty path or `.`, and not where the path ends in `..`.
pub open spec fn file_name_of(path: Seq<char>, platform: Platform) -> Option<Seq<char>> {
    let floor = body_start(path, platform);
    let body = trimmed(path, floor);
    let name = body.skip(segment_start(body, floor) as int);
    if body.len() <= floor || name == seq!['.', '.'] {
        None
    } else {
        Some(name)
    }
}

/// The path without its final segment. An anchor alone and the empty path
/// have no parent; the parent of a single relative segment is the empty path.
pub open spec fn parent_of(path: Seq<char>, platform: Platform) -> Option<Seq<char>> {
    let floor = body_start(path, platform);
    let body = trimmed(path, floor);
    if body.len() > floor {
        let start = segment_start(body, floor);
        let cut = if start > floor {
            start - 1
        } else {
            floor as int
        };
        Some(trimmed(body.take(cut), floor))
    } else if floor > anchor_len(path, platform) {
        Some(Seq::empty())
    } else {
        None
    }
}

/// `rest` appended to `base` as further segments, with one slash between the
/// two unless `base` is empty or already ends in one.
pub open spec fn joined(base: Seq<char>, rest: Seq<char>) -> Seq<char> {
    if base.len() == 0 || base.last() == '/' {
        base + rest
    } else {
        base + seq!['/'] + rest
    }
}

fn next_slash_index(path: &Vec<char>, from: usize) -> (n: usize)
    ensures
        n == next_slash(path@, from as nat),
        n <= path.len(),
        from <= path.len() ==> from <= n,
{
    let mut n: usize = from;
    while n < path.len() && path[n] != '/'
        invariant
            from <= n,
            next_slash(path@, from as nat) == next_slash(path@, n as nat),
        decreases path.len() - n,
    {
        n += 1;
    }
    if n > path.len() {
        path.len()
    } else {
        n
    }
}

fn share_length(path: &Vec<char>) -> (n: usize)
    ensures
        n == share_len(path@),
        n <= path.len(),
{
    let server_end: usize = next_slash_index(path, 2);
    if server_end >= path.len() {
        path.len()
    } else {
        let share_end: usize = next_slash_index(path, server_end + 1);
        if share_end >= path.len() {
            path.len()
        } else {
            share_end + 1
        }
    }
}

fn anchor_length(path: &Vec<char>, platform: Platform) -> (n: usize)
    ensures
        n == anchor_len(path@, platform),
        n <= path.len(),
{
    let lettered = match platform {
        Platform::Windows => true,
        Platform::Posix => false,
    };
    if lettered && path.len() >= 2 && (('a' <= path[0] && path[0] <= 'z') || ('A' <= path[0]
        && path[0] <= 'Z')) && path[1] == ':' {
        if path.len() >= 3 && path[2] == '/' {
            3
        } else {
            2
        }
    } else if lettered && path.len() >= 2 && path[0] == '/' && path[1] == '/' {
        share_length(path)
    } else if path.len() >= 1 && path[0] == '/' {
        1
    } else {
        0
    }
}

fn body_offset(path: &Vec<char>, platform: Platform) -> (n: usize)
    ensures
        n == body_start(path@, platform),
        anchor_len(path@, platform) <= n <= path.len(),
{
    let anchor: usize = anchor_length(path, platform);
    if anchor == 0 && path.len() >= 1 && path[0] == '.' && (path.len() == 1 || path[1] == '/') {
        1
    } else {
        anchor
    }
}

/// Length of `path[..len]` once trimmed.
fn trimmed_length(path: &Vec<char>, len: usize, floor: usize) -> (n: usize)
    requires
        len <= path.len(),
    ensures
        n <= len,
        floor <= len ==> floor <= n,
        path@.take(n as int) == trimmed(path@.take(len as int), floor as nat),
{
    let mut n: usize = len;
    loop
        invariant
            n <= len <= path.len(),
            floor <= len ==> floor <= n,
            trimmed(path@.take(n as int), floor as nat) == trimmed(
                path@.take(len as int),
                floor as nat,
            ),
        ensures
            n <= len,
            floor <= len ==> floor <= n,
            path@.take(n as int) == trimmed(path@.take(len as int), floor as nat),
        decreases n,
    {
        if n <= floor {
            break ;
        }
        let c = path[n - 1];
        if c == '/' || (c == '.' && (n == floor + 1 || path[n - 2] == '/')) {
            assert(path@.take(n as int).drop_last() =~= path@.take(n - 1));
            n -= 1;
        } else {
            break ;
        }
    }
    n
}

/// Start of the last segment of `path[..len]`.
fn last_segment_start(path: &Vec<char>, len: usize, floor: usize) -> (n: usize)
    requires
        floor <= len <= path.len(),
    ensures
        floor <= n <= len,
        n == segment_start(path@.take(len as int), floor as nat),
{
    let mut n: usize = len;
    loop
        invariant
            floor <= n <= len <= path.len(),
            segment_start(path@.take(len as int), floor as nat) == segment_start(
                path@.take(n as int),
                floor as nat,
            ),
        ensures
            floor <= n <= len,
            n == segment_start(path@.take(len as int), floor as nat),
        decreases n,
    {
        if n <= floor || path[n - 1] == '/' {
            break ;
        }
        assert(path@.take(n as int).drop_last() =~= path@.take(n - 1));
        n -= 1;
    }
    n
}

/// The final segment of a path whose separators are forward slashes.
pub fn file_name(path: &str, platform: Platform) -> (r: Option<String>)
    ensures
        opt_text(r) == file_name_of(path@, platform),
{
    let chars = to_chars(path);
    let floor: usize = body_offset(&chars, platform);
    let end: usize = trimmed_length(&chars, chars.len(), floor);
    assert(chars@.take(chars@.len() as int) =~= chars@);
    if end <= floor {
        return None;
    }
    let start: usize = last_segment_start(&chars, end, floor);
    let ghost body = chars@.take(end as int);
    assert(body.skip(start as int) =~= chars@.subrange(start as int, end as int));
    if end - start == 2 && chars[start] == '.' && chars[start + 1] == '.' {
        assert(body.skip(start as int) =~= seq!['.', '.']);
        return None;
    }
    assert(body.skip(start as int) != seq!['.', '.']) by {
        let name = body.skip(start as int);
        if name == seq!['.', '.'] {
            assert(name.len() == 2);
            assert(name[0] == '.' && name[1] == '.');
        }
    }
    Some(from_chars(&chars, start, end))
}

/// The parent of a path whose separators are forward slashes.
pub fn parent_path(path: &str, platform: Platform) -> (r: Option<String>)
    ensures
        opt_text(r) == parent_of(path@, platform),
{
    let chars = to_chars(path);
    let anchor: usize = anchor_length(&chars, platform);
    let floor: usize = body_offset(&chars, platform);
    let end: usize = trimmed_length(&chars, chars.len(), floor);
    assert(chars@.take(chars@.len() as int) =~= chars@);
    if end > floor {
        let start: usize = last_segment_start(&chars, end, floor);
        let cut: usize = if start > floor {
            start - 1
        } else {
            floor
        };
        let ghost body = chars@.take(end as int);
        assert(body.take(cut as int) =~= chars@.take(cut as int));
        let keep: usize = trimmed_length(&chars, cut, floor);
        let r = from_chars(&chars, 0, keep);
        assert(chars@.subrange(0, keep as int) =~= chars@.take(keep as int));
        Some(r)
    } else if floor > anchor {
        let r = String::new();
        assert(r@ =~= Seq::<char>::empty());
        Some(r)
    } else {
        None
    }
}

/// Appends `rest` to `base` as further segments.
pub fn join_path(base: &str, rest: &str) -> (r: String)
    ensures
        r@ == joined(base@, rest@),
{
    let chars = to_chars(base);
    let mut r = base.to_owned();
    if chars.len() > 0 && chars[chars.len() - 1] != '/' {
        r.append("/");
        proof {
            reveal_strlit("/");
            assert("/"@ =~= seq!['/']);
        }
    }
    r.append(rest);
    r
}


proof fn lemma_trimmed(path: Seq<char>, floor: nat)
    ensures
        trimmed(path, floor).is_prefix_of(path),
        floor <= path.len() ==> floor <= trimmed(path, floor).len(),
        trimmed(path, floor) == trimmed(trimmed(path, floor), floor),
    decreases path.len(),
{
    if path.len() > floor {
        lemma_trimmed(path.drop_last(), floor);
    }
}

proof fn lemma_segment_start(path: Seq<char>, floor: nat)
    requires
        floor <= path.len(),
    ensures
        floor <= segment_start(path, floor) <= path.len(),
        segment_start(path, floor) > floor ==> path[segment_start(path, floor) - 1] == '/',
        forall|i: int| segment_start(path, floor) <= i < path.len() ==> path[i] != '/',
    decreases path.len(),
{
    if path.len() > floor && path.last() != '/' {
        let shorter = path.drop_last();
        lemma_segment_start(shorter, floor);
        assert forall|i: int| segment_start(path, floor) <= i < path.len() implies path[i]
            != '/' by {
            if i < shorter.len() {
                assert(shorter[i] == path[i]);
            }
        }
    }
}

/// A parent is the front part of the path it is the parent of.
pub proof fn lemma_parent_is_prefix(path: Seq<char>, platform: Platform)
    requires
        parent_of(path, platform) is Some,
    ensures
        parent_of(path, platform)->0.is_prefix_of(path),
{
    let floor = body_start(path, platform);
    let body = trimmed(path, floor);
    lemma_trimmed(path, floor);
    if body.len() > floor {
        lemma_segment_start(body, floor);
        let start = segment_start(body, floor);
        let cut = if start > floor {
            start - 1
        } else {
            floor as int
        };
        lemma_trimmed(body.take(cut), floor);
    }
}

/// A final segment names something: it is not empty, holds no slash, and is
/// neither `.` nor `..`.
pub proof fn lemma_file_name_is_a_name(path: Seq<char>, platform: Platform)
    requires
        file_name_of(path, platform) is Some,
    ensures
        file_name_of(path, platform)->0.len() > 0,
        !file_name_of(path, platform)->0.contains('/'),
        file_name_of(path, platform)->0 != seq!['.'],
        file_name_of(path, platform)->0 != seq!['.', '.'],
{
    let floor = body_start(path, platform);
    let body = trimmed(path, floor);
    lemma_trimmed(path, floor);
    lemma_segment_start(body, floor);
    let start = segment_start(body, floor);
    let name = body.skip(start as int);
    // The body is its own trimmed form, so it ends neither in a slash nor in
    // a `.` segment.
    lemma_trimmed(body.drop_last(), floor);
    assert(body.last() != '/');
    assert(start < body.len());
    assert forall|i: int| 0 <= i < name.len() implies name[i] != '/' by {
        assert(name[i] == body[start + i]);
    }
    if name == seq!['.'] {
        assert(name.len() == 1);
        assert(body.last() == name[0]);
        assert(start == body.len() - 1);
    }
}

} // verus!
