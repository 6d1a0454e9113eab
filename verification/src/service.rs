//! The decisions behind each request: which path it is about, when it fails
//! and how, and what it answers.
//!
//! Nothing here touches the filesystem. The caller probes it and hands the
//! answers in; each function says what follows from them.

use vstd::prelude::*;
use crate::favorites::{favorite_views, index_page, render_index, Favorite};
use crate::fingerprint::{calculate_folder_hash, fingerprint_of, is_lower_hex, text_names};
use crate::listing::{
    child_views, file_views, files_of, folder_views, folders_of, is_media_name, list_entries,
    parent_name, ChildProbe, FileEntry, FolderEntry,
};
use crate::path::{normalize_path, normalized, Platform};

verus! {

/// The ways a request can fail.
#[derive(Clone, Copy, Debug, PartialEq, Eq, Structural)]
pub enum HttpError {
    /// The host failed at something that should have worked.
    InternalServerError,
    /// The path does not lead to anything the request could be about.
    NotFound,
    /// The path leads to the wrong kind of thing.
    BadRequest,
}

/// The HTTP status of an error.
pub open spec fn status_of(error: HttpError) -> u16 {
    match error {
        HttpError::InternalServerError => 500,
        HttpError::NotFound => 404,
        HttpError::BadRequest => 400,
    }
}

/// The text of an error, as a client reads it.
pub open spec fn message_of(error: HttpError) -> Seq<char> {
    match error {
        HttpError::InternalServerError => "Internal Server Error"@,
        HttpError::NotFound => "Not Found"@,
        HttpError::BadRequest => "Bad Request"@,
    }
}

/// The body of a failure response.
#[derive(Debug)]
pub struct ErrorResponse {
    pub error: String,
}

impl HttpError {
    /// The HTTP status to answer with.
    pub fn status_code(&self) -> (code: u16)
        ensures
            code == status_of(*self),
            400 <= code < 600,
    {
        match self {
            HttpError::InternalServerError => 500,
            HttpError::NotFound => 404,
            HttpError::BadRequest => 400,
        }
    }

    /// The text to answer with. It names the class of the failure and holds
    /// nothing of the path or of what the filesystem said.
    pub fn message(&self) -> (text: String)
        ensures
            text@ == message_of(*self),
    {
        let literal = match self {
            HttpError::InternalServerError => "Internal Server Error",
            HttpError::NotFound => "Not Found",
            HttpError::BadRequest => "Bad Request",
        };
        literal.to_owned()
    }

    /// The body to answer with.
    pub fn error_response(&self) -> (body: ErrorResponse)
        ensures
            body.error@ == message_of(*self),
    {
        ErrorResponse { error: self.message() }
    }
}

/// What the filesystem says of the path a request is about.
#[derive(Clone, Copy, Debug, PartialEq, Eq, Structural)]
pub enum PathProbe {
    /// Nothing is there.
    Missing,
    /// Something is there, but its metadata cannot be read.
    Unreadable,
    /// A directory.
    Directory,
    /// A regular file.
    File,
    /// Something else.
    Other,
}

/// Whether a listing can go ahead: only on a directory. Everything else
/// counts as not found.
pub open spec fn listing_check(target: PathProbe) -> Result<(), HttpError> {
    match target {
        PathProbe::Directory => Ok(()),
        _ => Err(HttpError::NotFound),
    }
}

/// Whether a fingerprint can be taken: only of a directory. What is missing
/// or unreadable is not found; what is there and no directory is a bad
/// request.
pub open spec fn hash_check(target: PathProbe) -> Result<(), HttpError> {
    match target {
        PathProbe::Directory => Ok(()),
        PathProbe::Missing | PathProbe::Unreadable => Err(HttpError::NotFound),
        PathProbe::File | PathProbe::Other => Err(HttpError::BadRequest),
    }
}

/// Whether a file can be served: only a regular file. What is missing or
/// unreadable is not found; what is there and no regular file is a bad
/// request.
pub open spec fn file_check(target: PathProbe) -> Result<(), HttpError> {
    match target {
        PathProbe::File => Ok(()),
        PathProbe::Missing | PathProbe::Unreadable => Err(HttpError::NotFound),
        PathProbe::Directory | PathProbe::Other => Err(HttpError::BadRequest),
    }
}

/// Decides whether the target of a listing request can be listed.
pub fn check_list_target(target: PathProbe) -> (r: Result<(), HttpError>)
    ensures
        r == listing_check(target),
{
    match target {
        PathProbe::Directory => Ok(()),
        _ => Err(HttpError::NotFound),
    }
}

/// Decides whether the target of a fingerprint request can be hashed.
pub fn check_hash_target(target: PathProbe) -> (r: Result<(), HttpError>)
    ensures
        r == hash_check(target),
{
    match target {
        PathProbe::Directory => Ok(()),
        PathProbe::Missing => Err(HttpError::NotFound),
        PathProbe::Unreadable => Err(HttpError::NotFound),
        PathProbe::File => Err(HttpError::BadRequest),
        PathProbe::Other => Err(HttpError::BadRequest),
    }
}

/// Decides whether the target of a file request can be served.
pub fn check_file_target(target: PathProbe) -> (r: Result<(), HttpError>)
    ensures
        r == file_check(target),
{
    match target {
        PathProbe::File => Ok(()),
        PathProbe::Missing => Err(HttpError::NotFound),
        PathProbe::Unreadable => Err(HttpError::NotFound),
        PathProbe::Directory => Err(HttpError::BadRequest),
        PathProbe::Other => Err(HttpError::BadRequest),
    }
}

/// The fingerprint of a directory, as a response carries it.
#[derive(Debug)]
pub struct FolderHash {
    pub hash: String,
}

/// The answer to a listing request.
#[derive(Debug)]
pub struct FolderList {
    /// The path that was listed, in normal form.
    pub canonical_path: String,
    pub folders: Vec<FolderEntry>,
    pub files: Vec<FileEntry>,
    pub hash: FolderHash,
}

/// A well-formed fingerprint: 64 lowercase hex digits.
pub open spec fn is_fingerprint(hash: Seq<char>) -> bool {
    hash.len() == 64 && forall|i: int| 0 <= i < hash.len() ==> is_lower_hex(#[trigger] hash[i])
}

impl FolderList {
    /// What holds of every listing: no path in it holds a backslash, the
    /// folders open with the way up, every file is a media file, and the
    /// fingerprint is well formed.
    pub open spec fn well_formed(&self) -> bool {
        &&& !self.canonical_path@.contains('\\')
        &&& forall|i: int|
            0 <= i < self.folders@.len() ==> !(#[trigger] self.folders@[i]).path@.contains('\\')
        &&& forall|i: int|
            0 <= i < self.files@.len() ==> !(#[trigger] self.files@[i]).path@.contains('\\')
        &&& self.folders@.len() >= 1
        &&& self.folders@[0]@.name == parent_name()
        &&& forall|i: int|
            0 <= i < self.files@.len() ==> is_media_name(#[trigger] self.files@[i]@.name)
        &&& is_fingerprint(self.hash.hash@)
    }
}

/// Answers a fingerprint request whose target is a directory. `names` holds
/// the names of its children as read, or `None` where the directory could not
/// be read, which is a failure of the host.
pub fn folder_hash(names: Option<Vec<Option<String>>>) -> (r: Result<FolderHash, HttpError>)
    ensures
        (match (names, r) {
            (Some(read), Ok(answer)) => {
                &&& answer.hash@ == fingerprint_of(text_names(read@))
                &&& is_fingerprint(answer.hash@)
            },
            (None, Err(error)) => error == HttpError::InternalServerError,
            _ => false,
        }),
{
    match names {
        Some(read) => Ok(FolderHash { hash: calculate_folder_hash(&read) }),
        None => Err(HttpError::InternalServerError),
    }
}

/// Answers a listing request whose target is a directory.
///
/// `children` is what was read of the children for the listing and `names`
/// what was read of their names for the fingerprint; each is `None` where
/// that read failed. A failed listing read means the directory is not there
/// to be listed; a failed fingerprint read is a failure of the host.
pub fn folder_list(
    dir: &str,
    platform: Platform,
    children: Option<Vec<ChildProbe>>,
    names: Option<Vec<Option<String>>>,
) -> (r: Result<FolderList, HttpError>)
    ensures
        (match (children, names, r) {
            (Some(read), Some(named), Ok(list)) => {
                &&& list.canonical_path@ == normalized(dir@)
                &&& folder_views(list.folders@) == folders_of(dir@, child_views(read@), platform)
                &&& file_views(list.files@) == files_of(dir@, child_views(read@), platform)
                &&& list.hash.hash@ == fingerprint_of(text_names(named@))
                &&& list.well_formed()
            },
            (None, _, Err(error)) => error == HttpError::NotFound,
            (Some(_), None, Err(error)) => error == HttpError::InternalServerError,
            _ => false,
        }),
{
    let read = match children {
        Some(read) => read,
        None => {
            return Err(HttpError::NotFound);
        },
    };
    let named = match names {
        Some(named) => named,
        None => {
            return Err(HttpError::InternalServerError);
        },
    };
    let canonical_path = normalize_path(dir);
    let (folders, files) = list_entries(dir, platform, read);
    let hash = FolderHash { hash: calculate_folder_hash(&named) };
    Ok(FolderList { canonical_path, folders, files, hash })
}

/// Answers a file request whose target is a regular file: the opened file,
/// or a failure of the host where it could not be opened.
pub fn served_file<F>(opened: Option<F>) -> (r: Result<F, HttpError>)
    ensures
        r == (match opened {
            Some(file) => Ok::<F, HttpError>(file),
            None => Err::<F, HttpError>(HttpError::InternalServerError),
        }),
{
    match opened {
        Some(file) => Ok(file),
        None => Err(HttpError::InternalServerError),
    }
}

/// Answers a request for the landing page: the template filled with the
/// favorites, or a failure of the host where the template could not be read.
pub fn index_response(template: Option<&str>, favorites: &Vec<Favorite>) -> (r:
    Result<String, HttpError>)
    ensures
        (match (template, r) {
            (Some(text), Ok(page)) => page@ == index_page(text@, favorite_views(favorites@)),
            (None, Err(error)) => error == HttpError::InternalServerError,
            _ => false,
        }),
{
    match template {
        Some(text) => Ok(render_index(text, favorites)),
        None => Err(HttpError::InternalServerError),
    }
}

} // verus!
