//! The staging resolver: given a document identifier, it verifies that the
//! source archive exists and claims a fresh destination directory, failing
//! fast when either precondition is violated.

use vstd::prelude::*;
use vstd::string::StringExecFns;
use crate::disk::{
    DiskModel, DiskView, create_folder, dir_is_empty, file_exists, folder_exists, lies_under,
    tree_closed,
};
use crate::errors::MyError;

verus! {

/// Root directory that receives one subdirectory per staged document.
pub const PROCESSED_FOLDER_DIRECTORY: &'static str = "src\\processed_files";

/// Root directory that holds one source archive per document.
pub const UNPROCESSED_FOLDER_DIRECTORY: &'static str = "src\\example_files";

/// The path of the source archive for the document `title`.
pub open spec fn source_path(title: Seq<char>) -> Seq<char> {
    UNPROCESSED_FOLDER_DIRECTORY@ + "\\"@ + title + ".epub"@
}

/// The path of the destination directory for the document `title`.
pub open spec fn destination_path(title: Seq<char>) -> Seq<char> {
    PROCESSED_FOLDER_DIRECTORY@ + "\\"@ + title
}

/// Composes the source archive location for `title`.
pub fn source_location(title: &String) -> (r: String)
    ensures
        r@ == source_path(title@),
{
    let mut r: String = UNPROCESSED_FOLDER_DIRECTORY.to_owned();
    r.append("\\");
    r.append(title.as_str());
    r.append(".epub");
    r
}

/// Composes the destination directory location for `title`.
pub fn destination_location(title: &String) -> (r: String)
    ensures
        r@ == destination_path(title@),
{
    let mut r: String = PROCESSED_FOLDER_DIRECTORY.to_owned();
    r.append("\\");
    r.append(title.as_str());
    r
}

/// What staging the document `title` returns on the state `v`: the
/// destination directory path on success, and the distinguishing error kind
/// on each failed precondition.
pub open spec fn stage_result(v: DiskView, title: Seq<char>) -> Result<Seq<char>, MyError> {
    if !v.files.dom().contains(source_path(title)) {
        Err(MyError::FileNotFound)
    } else if v.dirs.contains(destination_path(title)) {
        Err(MyError::FolderAlreadyExists)
    } else if v.files.dom().contains(destination_path(title)) {
        Err(MyError::FailedToCreateFolder)
    } else {
        Ok(destination_path(title))
    }
}

/// The state staging leaves behind: the destination directory is created on
/// success, and nothing changes on failure.
pub open spec fn stage_next(v: DiskView, title: Seq<char>) -> DiskView {
    if stage_result(v, title) is Ok {
        DiskView { dirs: v.dirs.insert(destination_path(title)), files: v.files }
    } else {
        v
    }
}

/// Stages the document `title`: verifies that its source archive exists,
/// that its destination directory does not, and creates that directory,
/// returning its path.  Each violated precondition yields its own error and
/// leaves the state untouched.
pub fn read_epub(fs: &mut DiskModel, title: &String) -> (r: Result<String, MyError>)
    ensures
        final(fs)@ == stage_next(old(fs)@, title@),
        (match r {
            Ok(d) => stage_result(old(fs)@, title@) == Ok::<Seq<char>, MyError>(d@),
            Err(e) => stage_result(old(fs)@, title@) == Err::<Seq<char>, MyError>(e),
        }),
{
    let file_location = source_location(title);
    if !file_exists(fs, &file_location) {
        return Err(MyError::FileNotFound);
    }
    let file_dir = destination_location(title);
    if folder_exists(fs, &file_dir) {
        return Err(MyError::FolderAlreadyExists);
    }
    match create_folder(fs, &file_dir) {
        Ok(_) => Ok(file_dir),
        Err(e) => Err(e),
    }
}

/// Staging an identifier whose source archive is absent fails with
/// `FileNotFound` and leaves the filesystem state untouched.
pub proof fn lemma_missing_source_rejected(v: DiskView, title: Seq<char>)
    requires
        !v.files.dom().contains(source_path(title)),
    ensures
        stage_result(v, title) == Err::<Seq<char>, MyError>(MyError::FileNotFound),
        stage_next(v, title) == v,
{
}

/// Staging an identifier whose destination directory already exists fails
/// with `FolderAlreadyExists` and leaves the filesystem state — the existing
/// directory included — untouched.
pub proof fn lemma_existing_destination_rejected(v: DiskView, title: Seq<char>)
    requires
        v.files.dom().contains(source_path(title)),
        v.dirs.contains(destination_path(title)),
    ensures
        stage_result(v, title) == Err::<Seq<char>, MyError>(MyError::FolderAlreadyExists),
        stage_next(v, title) == v,
{
}

/// Staging a document whose source archive is present and whose destination
/// path is not yet taken succeeds with the destination directory path, and
/// that directory exists and is empty immediately afterwards.
pub proof fn lemma_staging_creates_empty_destination(v: DiskView, title: Seq<char>)
    requires
        tree_closed(v),
        v.files.dom().contains(source_path(title)),
        !v.dirs.contains(destination_path(title)),
        !v.files.dom().contains(destination_path(title)),
    ensures
        stage_result(v, title) == Ok::<Seq<char>, MyError>(destination_path(title)),
        stage_next(v, title).dirs.contains(destination_path(title)),
        dir_is_empty(stage_next(v, title), destination_path(title)),
{
    let d = destination_path(title);
    let w = stage_next(v, title);
    assert forall|q: Seq<char>| #[trigger]
        lies_under(q, d) implies !w.files.dom().contains(q) && !w.dirs.contains(q) by {
        if w.files.dom().contains(q) {
            assert(v.files.dom().contains(q));
            assert(v.dirs.contains(d));
        }
        if w.dirs.contains(q) {
            if q == d {
                assert(q.len() > d.len());
                assert(false);
            } else {
                assert(v.dirs.contains(q));
                assert(v.dirs.contains(d));
            }
        }
    }
}

/// Staging the same identifier twice in succession: the second attempt fails
/// with `FolderAlreadyExists` and leaves the state exactly as the first
/// attempt left it, the created directory and every file intact.
pub proof fn lemma_second_staging_rejected(v: DiskView, title: Seq<char>)
    requires
        stage_result(v, title) is Ok,
    ensures
        stage_result(stage_next(v, title), title) == Err::<Seq<char>, MyError>(
            MyError::FolderAlreadyExists,
        ),
        stage_next(stage_next(v, title), title) == stage_next(v, title),
{
}

} // verus!
