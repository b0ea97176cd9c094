//! The archive unpacker: reads every entry of a staged archive and applies
//! it, in archive order, under the destination directory of the modelled
//! filesystem state.

use vstd::prelude::*;
use vstd::string::StrSliceExecFns;
use crate::disk::{
    DiskModel, DiskView, file_content, join_path, join_path_exec, lies_under, make_dir, write_file,
};
use crate::errors::UnpackError;
use crate::zipio::{
    ArchiveEntry, archive_bytes, archive_contents, entries_of, entry_reads, entry_views,
    zip_entry, zip_len, zip_open, zip_parses,
};

verus! {

/// The ancestor directories that an entry named `name` needs under the
/// destination `dst`, read off the part of the name before position `upto`:
/// the join of every proper prefix of the name that ends just before a
/// separator.
pub open spec fn entry_ancestors_upto(dst: Seq<char>, name: Seq<char>, upto: int) -> Set<Seq<char>>
    decreases upto,
{
    if upto <= 1 {
        Set::empty()
    } else {
        let k = upto - 1;
        if k < name.len() && (name[k] == '/' || name[k] == '\\') {
            entry_ancestors_upto(dst, name, k).insert(join_path(dst, name.take(k)))
        } else {
            entry_ancestors_upto(dst, name, k)
        }
    }
}

/// The ancestor directories that extracting an entry named `name` must
/// ensure under the destination `dst`.
pub open spec fn entry_ancestors(dst: Seq<char>, name: Seq<char>) -> Set<Seq<char>> {
    entry_ancestors_upto(dst, name, name.len() as int)
}

/// One entry applied to the filesystem state under the destination `dst`:
/// its missing ancestor directories under the destination are ensured, then
/// a directory entry ensures its own directory and a file entry writes its
/// decompressed content verbatim.
pub open spec fn apply_entry(v: DiskView, dst: Seq<char>, e: (Seq<char>, bool, Seq<u8>, Seq<u8>)) -> DiskView {
    if e.1 {
        DiskView {
            dirs: v.dirs.union(entry_ancestors(dst, e.0)).insert(join_path(dst, e.0)),
            files: v.files,
        }
    } else {
        DiskView {
            dirs: v.dirs.union(entry_ancestors(dst, e.0)),
            files: v.files.insert(join_path(dst, e.0), e.2),
        }
    }
}

/// The filesystem state after every entry has been applied, in order, under
/// the destination directory `dst`.
pub open spec fn apply_entries(
    v: DiskView,
    dst: Seq<char>,
    entries: Seq<(Seq<char>, bool, Seq<u8>, Seq<u8>)>,
) -> DiskView
    decreases entries.len(),
{
    if entries.len() == 0 {
        v
    } else {
        apply_entry(apply_entries(v, dst, entries.drop_last()), dst, entries.last())
    }
}

/// A well-formed archive: its container parses and every entry of its
/// table reads back in full.
pub open spec fn archive_well_formed(bytes: Seq<u8>) -> bool {
    &&& zip_parses(bytes)
    &&& (forall|i: int| 0 <= i < entries_of(bytes).len() ==> #[trigger] entry_reads(bytes, i))
}

/// Reads every entry of the zip container held in `bytes`, with its
/// decompressed content, in hand-out order.  It succeeds exactly on a
/// well-formed archive; a container that does not parse is reported as
/// `ArchiveOpenFailed`, an entry that does not read back as
/// `EntryReadFailed`.
pub fn read_archive(bytes: &Vec<u8>) -> (r: Result<Vec<ArchiveEntry>, UnpackError>)
    ensures
        r is Ok <==> archive_well_formed(bytes@),
        r matches Ok(es) ==> entry_views(es@) == entries_of(bytes@),
        !zip_parses(bytes@) ==> r == Err::<Vec<ArchiveEntry>, UnpackError>(
            UnpackError::ArchiveOpenFailed,
        ),
        zip_parses(bytes@) && !archive_well_formed(bytes@) ==> r == Err::<
            Vec<ArchiveEntry>,
            UnpackError,
        >(UnpackError::EntryReadFailed),
        r is Ok ==> (forall|i: int, j: int|
            0 <= i < j < entries_of(bytes@).len() ==> (#[trigger] entries_of(bytes@)[i]).3 != (
            #[trigger] entries_of(bytes@)[j]).3),
{
    let mut archive = match zip_open(bytes) {
        Ok(a) => a,
        Err(_) => { return Err(UnpackError::ArchiveOpenFailed) },
    };
    let n = zip_len(&archive);
    let mut entries: Vec<ArchiveEntry> = Vec::new();
    let mut i: usize = 0;
    while i < n
        invariant
            i <= n,
            n == archive_contents(archive).len(),
            archive_contents(archive) == entries_of(bytes@),
            archive_bytes(archive) == bytes@,
            zip_parses(bytes@),
            forall|i2: int, j2: int|
                0 <= i2 < j2 < entries_of(bytes@).len() ==> (#[trigger] entries_of(
                    bytes@,
                )[i2]).3 != (#[trigger] entries_of(bytes@)[j2]).3,
            entries@.len() == i,
            forall|k: int| 0 <= k < i ==> (#[trigger] entries@[k])@ == entries_of(bytes@)[k],
            forall|k: int| 0 <= k < i ==> #[trigger] entry_reads(bytes@, k),
        decreases n - i,
    {
        match zip_entry(&mut archive, i) {
            Ok(e) => entries.push(e),
            Err(_) => {
                proof {
                    assert(!entry_reads(bytes@, i as int));
                }
                return Err(UnpackError::EntryReadFailed);
            },
        }
        i = i + 1;
    }
    proof {
        assert(entry_views(entries@) =~= entries_of(bytes@));
    }
    Ok(entries)
}

/// Whether the decoded names of the entries are pairwise distinct.  The
/// archive's stored name bytes always are, but two distinct stored names
/// can decode to the same string; this check establishes the premise under
/// which unpacking keeps one file per non-directory entry
/// (`lemma_unpack_tree_matches_entries`).
pub fn names_distinct(entries: &Vec<ArchiveEntry>) -> (r: bool)
    ensures
        r == (forall|a: int, b: int|
            0 <= a < b < entries@.len() ==> (#[trigger] entries@[a])@.0 != (
            #[trigger] entries@[b])@.0),
{
    let n: usize = entries.len();
    let mut i: usize = 0;
    while i < n
        invariant
            i <= n,
            n == entries@.len(),
            forall|a: int, b: int|
                0 <= a < b < entries@.len() && a < i as int ==> (#[trigger] entries@[a])@.0 != (
                #[trigger] entries@[b])@.0,
        decreases n - i,
    {
        let mut j: usize = i + 1;
        while j < n
            invariant
                i < j <= n,
                i < n,
                n == entries@.len(),
                forall|a: int, b: int|
                    0 <= a < b < entries@.len() && a < i as int ==> (#[trigger] entries@[a])@.0
                        != (#[trigger] entries@[b])@.0,
                forall|b: int|
                    (i as int) < b && b < (j as int) ==> entries@[i as int]@.0 != (
                    #[trigger] entries@[b])@.0,
            decreases n - j,
        {
            if entries[i].name == entries[j].name {
                return false;
            }
            j = j + 1;
        }
        i = i + 1;
    }
    true
}

/// Unpacks the archive stored at `epub_path` into the directory
/// `new_directory`: every entry of the archive is applied, in archive order,
/// under that directory.  It succeeds exactly when the archive file is on
/// record and well-formed.  On any failure the state is left exactly as it
/// was, so no partial extraction is ever recorded.
pub fn unzip_epub(fs: &mut DiskModel, epub_path: &String, new_directory: &String) -> (r: Result<
    (),
    UnpackError,
>)
    ensures
        r is Err ==> *final(fs) == *old(fs),
        r is Err ==> (r == Err::<(), UnpackError>(UnpackError::ArchiveOpenFailed) || r == Err::<
            (),
            UnpackError,
        >(UnpackError::EntryReadFailed)),
        !old(fs)@.files.dom().contains(epub_path@) ==> r == Err::<(), UnpackError>(
            UnpackError::ArchiveOpenFailed,
        ),
        r is Ok <==> (old(fs)@.files.dom().contains(epub_path@) && archive_well_formed(
            old(fs)@.files[epub_path@],
        )),
        old(fs)@.files.dom().contains(epub_path@) && !zip_parses(old(fs)@.files[epub_path@])
            ==> r == Err::<(), UnpackError>(UnpackError::ArchiveOpenFailed),
        old(fs)@.files.dom().contains(epub_path@) && zip_parses(old(fs)@.files[epub_path@])
            && !archive_well_formed(old(fs)@.files[epub_path@]) ==> r == Err::<(), UnpackError>(
            UnpackError::EntryReadFailed,
        ),
        r is Ok ==> final(fs)@ == apply_entries(
            old(fs)@,
            new_directory@,
            entries_of(old(fs)@.files[epub_path@]),
        ),
        r is Ok ==> (forall|i: int, j: int|
            0 <= i < j < entries_of(old(fs)@.files[epub_path@]).len() ==> (#[trigger] entries_of(
                old(fs)@.files[epub_path@],
            )[i]).3 != (#[trigger] entries_of(old(fs)@.files[epub_path@])[j]).3),
{
    let entries: Vec<ArchiveEntry>;
    match file_content(fs, epub_path) {
        Some(bytes) => {
            match read_archive(bytes) {
                Ok(es) => { entries = es },
                Err(e) => { return Err(e) },
            }
        },
        None => { return Err(UnpackError::ArchiveOpenFailed) },
    }
    apply_archive_entries(fs, new_directory, &entries);
    Ok(())
}

/// Applies already-read archive entries to the filesystem state, in order,
/// under the directory `new_directory`: each directory entry's directory is
/// ensured, each file entry's decompressed content is written verbatim.
pub fn apply_archive_entries(
    fs: &mut DiskModel,
    new_directory: &String,
    entries: &Vec<ArchiveEntry>,
)
    ensures
        final(fs)@ == apply_entries(old(fs)@, new_directory@, entry_views(entries@)),
{
    let ghost pre = fs@;
    let ghost contents = entry_views(entries@);
    proof {
        assert(contents.take(0) =~= Seq::<(Seq<char>, bool, Seq<u8>, Seq<u8>)>::empty());
    }
    let mut j: usize = 0;
    while j < entries.len()
        invariant
            j <= entries@.len(),
            contents == entry_views(entries@),
            fs@ == apply_entries(pre, new_directory@, contents.take(j as int)),
        decreases entries@.len() - j,
    {
        proof {
            assert(contents.take(j as int + 1).drop_last() =~= contents.take(j as int));
            assert(contents.take(j as int + 1).last() == contents[j as int]);
            assert(contents[j as int] == (#[trigger] entries@[j as int])@);
        }
        make_ancestors(fs, new_directory, &entries[j].name);
        let target = join_path_exec(new_directory, &entries[j].name);
        if entries[j].is_dir {
            make_dir(fs, target);
        } else {
            let data = clone_bytes(&entries[j].data);
            write_file(fs, target, data);
        }
        j = j + 1;
    }
    proof {
        assert(contents.take(entries@.len() as int) =~= contents);
    }
}

/// Ensures every ancestor directory of the entry named `name` under the
/// directory `dir` exists — the create-if-absent walk that extraction
/// performs before placing an entry.
fn make_ancestors(fs: &mut DiskModel, dir: &String, name: &String)
    ensures
        final(fs)@ == (DiskView {
            dirs: old(fs)@.dirs.union(entry_ancestors(dir@, name@)),
            files: old(fs)@.files,
        }),
{
    let n: usize = name.as_str().unicode_len();
    let mut k: usize = 0;
    proof {
        assert(old(fs)@.dirs.union(entry_ancestors_upto(dir@, name@, 0)) =~= old(fs)@.dirs);
    }
    while k < n
        invariant
            k <= n,
            n == name@.len(),
            fs@.dirs == old(fs)@.dirs.union(entry_ancestors_upto(dir@, name@, k as int)),
            fs@.files == old(fs)@.files,
        decreases n - k,
    {
        let c = name.as_str().get_char(k);
        if (c == '/' || c == '\\') && k > 0 {
            let prefix: String = name.as_str().substring_char(0, k).to_owned();
            let target = join_path_exec(dir, &prefix);
            make_dir(fs, target);
            proof {
                assert(fs@.dirs =~= old(fs)@.dirs.union(
                    entry_ancestors_upto(dir@, name@, k as int + 1),
                ));
            }
        } else {
            proof {
                assert(entry_ancestors_upto(dir@, name@, k as int + 1) == entry_ancestors_upto(
                    dir@,
                    name@,
                    k as int,
                ));
            }
        }
        k = k + 1;
    }
}

/// Copies a byte buffer.
fn clone_bytes(v: &Vec<u8>) -> (r: Vec<u8>)
    ensures
        r@ == v@,
{
    let mut r: Vec<u8> = Vec::new();
    let mut i: usize = 0;
    while i < v.len()
        invariant
            i <= v@.len(),
            r@ == v@.take(i as int),
        decreases v@.len() - i,
    {
        r.push(v[i]);
        proof {
            assert(v@.take(i as int + 1).drop_last() =~= v@.take(i as int));
        }
        i = i + 1;
    }
    proof {
        assert(v@.take(v@.len() as int) =~= v@);
    }
    r
}

/// Joining two distinct names under one directory yields two distinct paths.
pub proof fn lemma_join_path_injective(d: Seq<char>, a: Seq<char>, b: Seq<char>)
    requires
        join_path(d, a) == join_path(d, b),
    ensures
        a == b,
{
    reveal_strlit("\\");
    let ja = join_path(d, a);
    let jb = join_path(d, b);
    assert(ja.len() == d.len() + 1 + a.len());
    assert(jb.len() == d.len() + 1 + b.len());
    assert forall|i: int| 0 <= i < a.len() implies a[i] == b[i] by {
        assert(ja[d.len() + 1 + i] == a[i]);
        assert(jb[d.len() + 1 + i] == b[i]);
    }
    assert(a =~= b);
}

/// Unpacking produces exactly the archive's files: afterwards a file path is
/// on record if and only if it was there before or it is a non-directory
/// entry's name joined under the destination, and each such file holds
/// exactly that entry's decompressed content.  The decoded entry names are
/// assumed pairwise distinct: the table's stored names always are, but two
/// distinct stored names can decode to the same string, and such an archive
/// is left out here — a later entry then supersedes an earlier one's file.
pub proof fn lemma_unpack_tree_matches_entries(
    v: DiskView,
    dst: Seq<char>,
    entries: Seq<(Seq<char>, bool, Seq<u8>, Seq<u8>)>,
)
    requires
        forall|i: int, j: int| 0 <= i < j < entries.len() ==> (#[trigger] entries[i]).0 != (
        #[trigger] entries[j]).0,
    ensures
        forall|q: Seq<char>|
            #[trigger] apply_entries(v, dst, entries).files.dom().contains(q) <==> (
            v.files.dom().contains(q) || (exists|j: int|
                0 <= j < entries.len() && !(#[trigger] entries[j]).1 && q == join_path(
                    dst,
                    entries[j].0,
                ))),
        forall|j: int|
            0 <= j < entries.len() && !(#[trigger] entries[j]).1 ==> apply_entries(
                v,
                dst,
                entries,
            ).files[join_path(dst, entries[j].0)] == entries[j].2,
    decreases entries.len(),
{
    if entries.len() == 0 {
    } else {
        let es0 = entries.drop_last();
        let e = entries.last();
        let n = entries.len() as int;
        lemma_unpack_tree_matches_entries(v, dst, es0);
        let w0 = apply_entries(v, dst, es0);
        let w = apply_entries(v, dst, entries);
        assert(w == apply_entry(w0, dst, e));
        assert forall|q: Seq<char>| #[trigger]
            w.files.dom().contains(q) implies (v.files.dom().contains(q) || (exists|j: int|
            0 <= j < entries.len() && !(#[trigger] entries[j]).1 && q == join_path(
                dst,
                entries[j].0,
            ))) by {
            if !e.1 && q == join_path(dst, e.0) {
                assert(!(#[trigger] entries[n - 1]).1 && q == join_path(dst, entries[n - 1].0));
            } else {
                assert(w0.files.dom().contains(q));
                if !v.files.dom().contains(q) {
                    let j = choose|j: int|
                        0 <= j < es0.len() && !(#[trigger] es0[j]).1 && q == join_path(
                            dst,
                            es0[j].0,
                        );
                    assert(!(#[trigger] entries[j]).1 && q == join_path(dst, entries[j].0));
                }
            }
        }
        assert forall|q: Seq<char>|
            (v.files.dom().contains(q) || (exists|j: int|
                0 <= j < entries.len() && !(#[trigger] entries[j]).1 && q == join_path(
                    dst,
                    entries[j].0,
                ))) implies #[trigger] w.files.dom().contains(q) by {
            if v.files.dom().contains(q) {
                assert(w0.files.dom().contains(q));
            } else {
                let j = choose|j: int|
                    0 <= j < entries.len() && !(#[trigger] entries[j]).1 && q == join_path(
                        dst,
                        entries[j].0,
                    );
                if j < n - 1 {
                    assert(!(#[trigger] es0[j]).1 && q == join_path(dst, es0[j].0));
                    assert(w0.files.dom().contains(q));
                }
            }
        }
        assert forall|j: int|
            0 <= j < entries.len() && !(#[trigger] entries[j]).1 implies w.files[join_path(
            dst,
            entries[j].0,
        )] == entries[j].2 by {
            if j < n - 1 {
                assert(!(#[trigger] es0[j]).1);
                assert(w0.files[join_path(dst, es0[j].0)] == es0[j].2);
                if !e.1 {
                    if join_path(dst, entries[j].0) == join_path(dst, e.0) {
                        lemma_join_path_injective(dst, entries[j].0, e.0);
                        assert(entries[j].0 == entries[n - 1].0);
                        assert(false);
                    }
                }
            }
        }
    }
}

/// Every path that `name` joined under `dst` yields — the joined path
/// itself and each of its ancestor directories — lies under `dst`.
proof fn lemma_joined_paths_lie_under(dst: Seq<char>, name: Seq<char>, upto: int)
    ensures
        lies_under(join_path(dst, name), dst),
        forall|q: Seq<char>|
            #[trigger] entry_ancestors_upto(dst, name, upto).contains(q) ==> lies_under(q, dst),
    decreases upto,
{
    reveal_strlit("\\");
    assert(join_path(dst, name).subrange(0, dst.len() as int) =~= dst);
    if upto > 1 {
        let k = upto - 1;
        lemma_joined_paths_lie_under(dst, name, k);
        if k < name.len() && (name[k] == '/' || name[k] == '\\') {
            assert(join_path(dst, name.take(k)).subrange(0, dst.len() as int) =~= dst);
            assert(lies_under(join_path(dst, name.take(k)), dst));
        }
    }
    assert forall|q: Seq<char>| #[trigger]
        entry_ancestors_upto(dst, name, upto).contains(q) implies lies_under(q, dst) by {
        if upto > 1 {
            let k = upto - 1;
            if k < name.len() && (name[k] == '/' || name[k] == '\\') {
                if q != join_path(dst, name.take(k)) {
                    assert(entry_ancestors_upto(dst, name, k).contains(q));
                }
            } else {
                assert(entry_ancestors_upto(dst, name, k).contains(q));
            }
        }
    }
}

/// Extraction writes only inside the destination: every directory or file
/// record that applying the entries adds lies under the destination path.
/// The containment is over the literal path strings the model records;
/// entry names are joined as they stand, without normalization.
pub proof fn lemma_unpack_stays_inside_destination(
    v: DiskView,
    dst: Seq<char>,
    entries: Seq<(Seq<char>, bool, Seq<u8>, Seq<u8>)>,
)
    ensures
        forall|q: Seq<char>|
            #[trigger] apply_entries(v, dst, entries).files.dom().contains(q)
                && !v.files.dom().contains(q) ==> lies_under(q, dst),
        forall|q: Seq<char>|
            #[trigger] apply_entries(v, dst, entries).dirs.contains(q) && !v.dirs.contains(q)
                ==> lies_under(q, dst),
    decreases entries.len(),
{
    if entries.len() > 0 {
        let es0 = entries.drop_last();
        let e = entries.last();
        lemma_unpack_stays_inside_destination(v, dst, es0);
        lemma_joined_paths_lie_under(dst, e.0, e.0.len() as int);
        let w0 = apply_entries(v, dst, es0);
        let w = apply_entries(v, dst, entries);
        assert forall|q: Seq<char>| #[trigger]
            w.dirs.contains(q) && !v.dirs.contains(q) implies lies_under(q, dst) by {
            if !w0.dirs.contains(q) {
                if q != join_path(dst, e.0) {
                    assert(entry_ancestors(dst, e.0).contains(q));
                }
            }
        }
    }
}

} // verus!

