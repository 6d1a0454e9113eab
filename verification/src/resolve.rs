//! Resolving what a request or a configuration names: `~` expansion, the
//! default location, and the record of what the host made of a path.

use vstd::prelude::*;
use crate::path::{
    extended_prefix, forward_slashes, join_path, joined, normalize_path, normalized,
};
use crate::text::{from_chars, matches_at, opt_str, opt_text, to_chars};

verus! {

/// The marker that opens a path given relative to the home directory.
pub open spec fn tilde_prefix() -> Seq<char> {
    seq!['~', '/']
}

/// Whether the normal form of `path` opens with `~/`.
pub open spec fn is_home_relative(path: Seq<char>) -> bool {
    tilde_prefix().is_prefix_of(normalized(path))
}

/// A path with a leading `~/` replaced by the home directory. A path that does
/// not open with `~/` stays exactly as it is, and so does every path while no
/// home directory is known.
pub open spec fn tilde_expanded(path: Seq<char>, home: Option<Seq<char>>) -> Seq<char> {
    match home {
        Some(h) if is_home_relative(path) => joined(
            h,
            normalized(path).skip(2),
        ),
        _ => path,
    }
}

/// Replaces a leading `~/` by the given home directory.
pub fn expand_tilde(path: &str, home: Option<&str>) -> (r: String)
    ensures
        r@ == tilde_expanded(path@, opt_str(home)),
        !is_home_relative(path@) ==> r@ == path@,
{
    match home {
        Some(h) => {
            let normal = normalize_path(path);
            let chars = to_chars(normal.as_str());
            let marker: Vec<char> = vec!['~', '/'];
            assert(marker@ =~= tilde_prefix());
            assert(chars@.skip(0) =~= chars@);
            if matches_at(&chars, 0, &marker) {
                let rest = from_chars(&chars, 2, chars.len());
                assert(chars@.subrange(2, chars@.len() as int) =~= chars@.skip(2));
                join_path(h, rest.as_str())
            } else {
                path.to_owned()
            }
        },
        None => path.to_owned(),
    }
}

/// The home directory of the current user, where the host can tell it.
///
/// Calls `home::home_dir`. What it returns depends on the environment of the
/// process, so nothing is claimed of the result.
#[verifier::external_body]
pub(crate) fn home_directory() -> (home: Option<String>) {
    match home::home_dir() {
        Some(dir) => Some(dir.to_string_lossy().into_owned()),
        None => None,
    }
}

/// Replaces a leading `~/` by the home directory of the current user.
///
/// The result is `expand_tilde` applied to whatever home directory the host
/// reports, or to none.
pub fn check_tilde(path: &str) -> (r: String)
    ensures
        exists|home: Option<Seq<char>>| r@ == tilde_expanded(path@, home),
        !is_home_relative(path@) ==> r@ == path@,
{
    let home = home_directory();
    let r = match &home {
        Some(h) => expand_tilde(path, Some(h.as_str())),
        None => expand_tilde(path, None),
    };
    assert(r@ == tilde_expanded(path@, opt_text(home)));
    r
}

/// The name of the directory preferred as a starting point, below home.
pub open spec fn pictures_name() -> Seq<char> {
    "Pictures"@
}

/// The place where pictures are expected: `Pictures` below the home directory.
pub open spec fn pictures_of(home: Seq<char>) -> Seq<char> {
    joined(home, pictures_name())
}

/// The location served when a request names none: the pictures directory
/// where it is present, else the home directory.
pub open spec fn default_location(home: Seq<char>, pictures_present: bool) -> Seq<char> {
    if pictures_present {
        pictures_of(home)
    } else {
        home
    }
}

/// The pictures directory below `home`.
pub fn pictures_path(home: &str) -> (r: String)
    ensures
        r@ == pictures_of(home@),
{
    join_path(home, "Pictures")
}

/// The default location, given the home directory and whether the pictures
/// directory below it is present.
pub fn default_path(home: &str, pictures_present: bool) -> (r: String)
    ensures
        r@ == default_location(home@, pictures_present),
{
    if pictures_present {
        pictures_path(home)
    } else {
        home.to_owned()
    }
}

/// The path a request is about: the one it names, or the default for an
/// empty name.
pub open spec fn requested(raw: Seq<char>, default: Seq<char>) -> Seq<char> {
    if raw.len() == 0 {
        default
    } else {
        raw
    }
}

/// Chooses the path a request is about.
pub fn request_path(raw: &str, default: &str) -> (r: String)
    ensures
        r@ == requested(raw@, default@),
{
    if raw.is_empty() {
        default.to_owned()
    } else {
        raw.to_owned()
    }
}

/// A path as a request gave it, together with what the host made of it.
#[derive(Debug)]
pub struct ResolvedPath {
    /// The path as given.
    pub raw_input: String,
    /// Its normal form, for display.
    pub normalized: String,
    /// The host's canonical form where the path exists, else the path as
    /// given.
    pub canonical: String,
    /// Whether the host could resolve the path.
    pub exists: bool,
}

impl ResolvedPath {
    /// The normal form belongs to the input and holds no backslash; a path
    /// that does not exist stands for itself.
    pub open spec fn well_formed(&self) -> bool {
        &&& self.normalized@ == normalized(self.raw_input@)
        &&& !self.normalized@.contains('\\')
        &&& !self.exists ==> self.canonical@ == self.raw_input@
    }

    /// Records what the host answered when asked to canonicalize `raw`:
    /// the canonical form, or `None` where the path could not be resolved.
    pub fn new(raw: &str, canonical: Option<String>) -> (r: ResolvedPath)
        ensures
            r.well_formed(),
            r.raw_input@ == raw@,
            r.exists == canonical is Some,
            r.canonical@ == (match canonical {
                Some(found) => found@,
                None => raw@,
            }),
    {
        let normal = normalize_path(raw);
        match canonical {
            Some(found) => ResolvedPath {
                raw_input: raw.to_owned(),
                normalized: normal,
                canonical: found,
                exists: true,
            },
            None => ResolvedPath {
                raw_input: raw.to_owned(),
                normalized: normal,
                canonical: raw.to_owned(),
                exists: false,
            },
        }
    }
}

/// Where a request leads under the policy that prefers an answer to an
/// error: an empty path and a path that cannot be resolved both lead to the
/// default location, every other path to its canonical form.
pub open spec fn resolved_or_default(
    raw: Seq<char>,
    canonical: Option<Seq<char>>,
    default: Seq<char>,
) -> Seq<char> {
    if raw.len() == 0 {
        default
    } else {
        match canonical {
            Some(found) => found,
            None => default,
        }
    }
}

/// Resolves a request path, falling back to the default location.
pub fn resolve_or_default(raw: &str, canonical: Option<String>, default: &str) -> (r: String)
    ensures
        r@ == resolved_or_default(raw@, opt_text(canonical), default@),
{
    if raw.is_empty() {
        default.to_owned()
    } else {
        match canonical {
            Some(found) => found,
            None => default.to_owned(),
        }
    }
}

/// A path written as `~/` and a tail leads to that tail below the home
/// directory, with the slashes of the tail turned forward.
pub proof fn lemma_tilde_leads_home(tail: Seq<char>, home: Seq<char>)
    ensures
        tilde_expanded(tilde_prefix() + tail, Some(home)) == joined(
            home,
            forward_slashes(tail),
        ),
{
    let path = tilde_prefix() + tail;
    let plain = forward_slashes(path);
    assert(plain[0] == '~');
    assert(!extended_prefix().is_prefix_of(plain)) by {
        if extended_prefix().is_prefix_of(plain) {
            assert(plain.subrange(0, 4)[0] == '/');
        }
    }
    assert(normalized(path) == plain);
    assert(tilde_prefix() =~= plain.subrange(0, 2));
    assert(plain.skip(2) =~= forward_slashes(tail));
}

/// A path whose normal form does not open with `~/` is left as it is,
/// whatever the home directory.
pub proof fn lemma_other_paths_unchanged(path: Seq<char>, home: Option<Seq<char>>)
    requires
        !is_home_relative(path),
    ensures
        tilde_expanded(path, home) == path,
{
}

/// A request that names no path is about the pictures directory below home
/// where that is present, and about the home directory itself where not.
pub proof fn lemma_empty_request_leads_to_default(home: Seq<char>, pictures_present: bool)
    ensures
        requested(Seq::empty(), default_location(home, pictures_present)) == (if pictures_present {
            joined(home, pictures_name())
        } else {
            home
        }),
        resolved_or_default(Seq::empty(), None, default_location(home, pictures_present))
            == default_location(home, pictures_present),
{
}

} // verus!
