//! An explicit model of the filesystem slice that the pipeline touches.
//!
//! [`DiskModel`] records, as an append-only log, the directories and files
//! that exist.  Its view, [`DiskView`], collapses the log into a set of
//! directory paths and a map from file path to file content, with a later
//! record for the same path superseding an earlier one — the semantics of
//! creating a file that truncates what was there before.
//!
//! The staging resolver and the archive unpacker are verified against this
//! model; an unverified shell mirrors the model's transitions onto the real
//! disk.

use vstd::prelude::*;
use vstd::string::StringExecFns;
use crate::errors::MyError;

verus! {

/// One existing file: its path and its content.
pub struct FileEntry {
    pub path: String,
    pub data: Vec<u8>,
}

/// The modelled filesystem state: logs of the directories and files that
/// exist.  The logs are read through [`DiskModel::view`].
pub struct DiskModel {
    pub dirs: Vec<String>,
    pub files: Vec<FileEntry>,
}

/// The abstract filesystem state: which directory paths exist, and what each
/// file path holds.
pub struct DiskView {
    pub dirs: Set<Seq<char>>,
    pub files: Map<Seq<char>, Seq<u8>>,
}

/// The set of directory paths recorded by a log of directory creations.
pub open spec fn dirs_view(s: Seq<String>) -> Set<Seq<char>>
    decreases s.len(),
{
    if s.len() == 0 {
        Set::empty()
    } else {
        dirs_view(s.drop_last()).insert(s.last()@)
    }
}

/// The file contents recorded by a log of file writes; a later write to the
/// same path supersedes an earlier one.
pub open spec fn files_view(s: Seq<FileEntry>) -> Map<Seq<char>, Seq<u8>>
    decreases s.len(),
{
    if s.len() == 0 {
        Map::empty()
    } else {
        files_view(s.drop_last()).insert(s.last().path@, s.last().data@)
    }
}

impl View for DiskModel {
    type V = DiskView;

    open spec fn view(&self) -> DiskView {
        DiskView { dirs: dirs_view(self.dirs@), files: files_view(self.files@) }
    }
}

/// A filesystem state with nothing in it.
pub fn empty_disk() -> (r: DiskModel)
    ensures
        r@.dirs == Set::<Seq<char>>::empty(),
        r@.files == Map::<Seq<char>, Seq<u8>>::empty(),
{
    DiskModel { dirs: Vec::new(), files: Vec::new() }
}

/// Whether a directory exists at `path` in the modelled state.
pub fn folder_exists(fs: &DiskModel, path: &String) -> (r: bool)
    ensures
        r == fs@.dirs.contains(path@),
{
    let mut i: usize = fs.dirs.len();
    proof {
        assert(fs.dirs@.take(i as int) =~= fs.dirs@);
    }
    while i > 0
        invariant
            i <= fs.dirs@.len(),
            fs@.dirs.contains(path@) == dirs_view(fs.dirs@.take(i as int)).contains(path@),
        decreases i,
    {
        i = i - 1;
        proof {
            assert(fs.dirs@.take(i as int + 1).drop_last() =~= fs.dirs@.take(i as int));
            assert(fs.dirs@.take(i as int + 1).last() == fs.dirs@[i as int]);
        }
        if fs.dirs[i] == *path {
            return true;
        }
    }
    proof {
        assert(fs.dirs@.take(0) =~= Seq::<String>::empty());
    }
    false
}

/// The content of the file at `path` in the modelled state, if one exists.
pub fn file_content<'a>(fs: &'a DiskModel, path: &String) -> (r: Option<&'a Vec<u8>>)
    ensures
        match r {
            Some(d) => fs@.files.dom().contains(path@) && d@ == fs@.files[path@],
            None => !fs@.files.dom().contains(path@),
        },
{
    let mut i: usize = fs.files.len();
    proof {
        assert(fs.files@.take(i as int) =~= fs.files@);
    }
    while i > 0
        invariant
            i <= fs.files@.len(),
            fs@.files.dom().contains(path@) == files_view(fs.files@.take(i as int)).dom().contains(
                path@,
            ),
            fs@.files.dom().contains(path@) ==> fs@.files[path@] == files_view(
                fs.files@.take(i as int),
            )[path@],
        decreases i,
    {
        i = i - 1;
        proof {
            assert(fs.files@.take(i as int + 1).drop_last() =~= fs.files@.take(i as int));
            assert(fs.files@.take(i as int + 1).last() == fs.files@[i as int]);
        }
        if fs.files[i].path == *path {
            return Some(&fs.files[i].data);
        }
    }
    proof {
        assert(fs.files@.take(0) =~= Seq::<FileEntry>::empty());
    }
    None
}

/// Whether a file exists at `path` in the modelled state.
pub fn file_exists(fs: &DiskModel, path: &String) -> (r: bool)
    ensures
        r == fs@.files.dom().contains(path@),
{
    match file_content(fs, path) {
        Some(_) => true,
        None => false,
    }
}

/// Creates the directory at `path`, failing distinctly when the path is
/// already taken by a directory or by a file — idempotent-guarded creation.
pub fn create_folder(fs: &mut DiskModel, path: &String) -> (r: Result<(), MyError>)
    ensures
        (old(fs)@.dirs.contains(path@) || old(fs)@.files.dom().contains(path@)) ==> (r == Err::<
            (),
            MyError,
        >(MyError::FailedToCreateFolder) && *final(fs) == *old(fs)),
        !(old(fs)@.dirs.contains(path@) || old(fs)@.files.dom().contains(path@)) ==> (r == Ok::<
            (),
            MyError,
        >(()) && final(fs)@ == (DiskView {
            dirs: old(fs)@.dirs.insert(path@),
            files: old(fs)@.files,
        })),
{
    if folder_exists(fs, path) || file_exists(fs, path) {
        return Err(MyError::FailedToCreateFolder);
    }
    make_dir(fs, path.clone());
    Ok(())
}

/// Ensures the directory at `path` exists, creating it if absent.
pub fn make_dir(fs: &mut DiskModel, path: String)
    ensures
        final(fs)@ == (DiskView { dirs: old(fs)@.dirs.insert(path@), files: old(fs)@.files }),
{
    let ghost s = fs.dirs@;
    fs.dirs.push(path);
    proof {
        assert(fs.dirs@.drop_last() =~= s);
    }
}

/// Writes `data` to the file at `path`, superseding any previous content.
pub fn write_file(fs: &mut DiskModel, path: String, data: Vec<u8>)
    ensures
        final(fs)@ == (DiskView { dirs: old(fs)@.dirs, files: old(fs)@.files.insert(path@, data@) }),
{
    let ghost s = fs.files@;
    fs.files.push(FileEntry { path, data });
    proof {
        assert(fs.files@.drop_last() =~= s);
    }
}

/// The path of `name` placed inside the directory `dir`.
pub open spec fn join_path(dir: Seq<char>, name: Seq<char>) -> Seq<char> {
    dir + "\\"@ + name
}

/// Joins a directory path and an entry name with the path separator.
pub fn join_path_exec(dir: &String, name: &String) -> (r: String)
    ensures
        r@ == join_path(dir@, name@),
{
    let mut r: String = dir.clone();
    r.append("\\");
    r.append(name.as_str());
    r
}

/// Whether the path `q` lies strictly inside the directory path `d`: `d`
/// followed by a separator is a prefix of `q`.
pub open spec fn lies_under(q: Seq<char>, d: Seq<char>) -> bool {
    &&& q.len() > d.len()
    &&& q.subrange(0, d.len() as int) == d
    &&& (q[d.len() as int] == '\\' || q[d.len() as int] == '/')
}

/// A tree-shaped state: every path with something in it lies only inside
/// directories that exist.
pub open spec fn tree_closed(v: DiskView) -> bool {
    forall|q: Seq<char>, d: Seq<char>|
        (#[trigger] lies_under(q, d) && (v.files.dom().contains(q) || v.dirs.contains(q)))
            ==> v.dirs.contains(d)
}

/// Nothing — no file and no directory — lies inside the directory path `d`.
pub open spec fn dir_is_empty(v: DiskView, d: Seq<char>) -> bool {
    forall|q: Seq<char>|
        #[trigger] lies_under(q, d) ==> !v.files.dom().contains(q) && !v.dirs.contains(q)
}

} // verus!
