use epub_staging::disk::{empty_disk, file_content, folder_exists, write_file, DiskModel};
use epub_staging::errors::UnpackError;
use epub_staging::staging::read_epub;
use epub_staging::unpack::{names_distinct, read_archive, unzip_epub};
use epub_staging::zipio::ArchiveEntry;

fn build_zip(entries: &[(&str, bool, &[u8])]) -> Vec<u8> {
    let mut w = zip::ZipWriter::new(std::io::Cursor::new(Vec::new()));
    let opts = zip::write::SimpleFileOptions::default();
    for (name, is_dir, data) in entries {
        if *is_dir {
            w.add_directory(*name, opts).unwrap();
        } else {
            w.start_file(*name, opts).unwrap();
            std::io::Write::write_all(&mut w, data).unwrap();
        }
    }
    w.finish().unwrap().into_inner()
}

fn content_of<'a>(fs: &'a DiskModel, path: &str) -> Option<&'a Vec<u8>> {
    file_content(fs, &path.to_string())
}

#[test]
fn zip_file_created() {
    let mut fs = empty_disk();
    let archive = build_zip(&[
        ("container.xml", false, b"<container/>"),
        ("content.opf", false, b"<package/>"),
        ("chapter1.xhtml", false, b"<html/>"),
    ]);
    let folder_name = "src\\example_files\\kate-chopin_short-fiction.epub".to_string();
    let zip_location = "src\\processed_files\\kate-chopin_short-fiction".to_string();
    write_file(&mut fs, folder_name.clone(), archive);
    let files_before = fs.files.len();
    let some_err = unzip_epub(&mut fs, &folder_name, &zip_location);
    assert!(some_err.is_ok());
    let file_count = fs.files.len() - files_before;
    assert_eq!(file_count, 3, "The number of extracted files is not 3");
}

#[test]
fn three_entries_extracted_byte_identical() {
    let mut fs = empty_disk();
    let archive = build_zip(&[
        ("META-INF/container.xml", false, b"<?xml version=\"1.0\"?><container/>"),
        ("content.opf", false, b"<package version=\"3.0\"/>"),
        ("chapter1.xhtml", false, b"<html><body>It was a dark...</body></html>"),
    ]);
    let src = "src\\example_files\\doc.epub".to_string();
    let dst = "src\\processed_files\\doc".to_string();
    write_file(&mut fs, src.clone(), archive);
    assert_eq!(unzip_epub(&mut fs, &src, &dst), Ok(()));
    assert_eq!(
        content_of(&fs, "src\\processed_files\\doc\\META-INF/container.xml")
            .expect("container.xml missing")
            .as_slice(),
        b"<?xml version=\"1.0\"?><container/>"
    );
    assert_eq!(
        content_of(&fs, "src\\processed_files\\doc\\content.opf")
            .expect("content.opf missing")
            .as_slice(),
        b"<package version=\"3.0\"/>"
    );
    assert_eq!(
        content_of(&fs, "src\\processed_files\\doc\\chapter1.xhtml")
            .expect("chapter1.xhtml missing")
            .as_slice(),
        b"<html><body>It was a dark...</body></html>"
    );
    assert!(content_of(&fs, "src\\processed_files\\doc\\mimetype").is_none());
}

#[test]
fn directory_entries_are_created() {
    let mut fs = empty_disk();
    let archive = build_zip(&[
        ("META-INF", true, b""),
        ("META-INF/container.xml", false, b"<container/>"),
    ]);
    let src = "src\\example_files\\doc.epub".to_string();
    let dst = "src\\processed_files\\doc".to_string();
    write_file(&mut fs, src.clone(), archive);
    assert_eq!(unzip_epub(&mut fs, &src, &dst), Ok(()));
    assert!(folder_exists(
        &fs,
        &"src\\processed_files\\doc\\META-INF/".to_string()
    ));
    // The nested file's parent directory is ensured as well.
    assert!(folder_exists(
        &fs,
        &"src\\processed_files\\doc\\META-INF".to_string()
    ));
    assert!(
        content_of(&fs, "src\\processed_files\\doc\\META-INF/container.xml").is_some()
    );
}

#[test]
fn missing_ancestors_are_created_for_nested_files() {
    let mut fs = empty_disk();
    let archive = build_zip(&[("a/b/c.txt", false, b"deep")]);
    let src = "src\\example_files\\doc.epub".to_string();
    let dst = "src\\processed_files\\doc".to_string();
    write_file(&mut fs, src.clone(), archive);
    assert_eq!(unzip_epub(&mut fs, &src, &dst), Ok(()));
    assert!(folder_exists(&fs, &"src\\processed_files\\doc\\a".to_string()));
    assert!(folder_exists(&fs, &"src\\processed_files\\doc\\a/b".to_string()));
    assert_eq!(
        content_of(&fs, "src\\processed_files\\doc\\a/b/c.txt")
            .expect("c.txt missing")
            .as_slice(),
        b"deep"
    );
}

#[test]
fn corrupted_archive_fails_without_output() {
    let mut fs = empty_disk();
    let mut archive = build_zip(&[("content.opf", false, b"<package/>")]);
    archive.truncate(archive.len() / 2);
    let src = "src\\example_files\\doc.epub".to_string();
    let dst = "src\\processed_files\\doc".to_string();
    write_file(&mut fs, src.clone(), archive);
    let dirs_before = fs.dirs.len();
    let files_before = fs.files.len();
    let r = unzip_epub(&mut fs, &src, &dst);
    assert!(
        r == Err(UnpackError::ArchiveOpenFailed) || r == Err(UnpackError::EntryReadFailed)
    );
    assert_eq!(fs.dirs.len(), dirs_before);
    assert_eq!(fs.files.len(), files_before);
    assert!(content_of(&fs, "src\\processed_files\\doc\\content.opf").is_none());
}

#[test]
fn missing_archive_fails_open() {
    let mut fs = empty_disk();
    let src = "src\\example_files\\absent.epub".to_string();
    let dst = "src\\processed_files\\absent".to_string();
    let r = unzip_epub(&mut fs, &src, &dst);
    assert_eq!(r, Err(UnpackError::ArchiveOpenFailed));
}

#[test]
fn empty_archive_extracts_nothing() {
    let mut fs = empty_disk();
    let archive = build_zip(&[]);
    let src = "src\\example_files\\empty.epub".to_string();
    let dst = "src\\processed_files\\empty".to_string();
    write_file(&mut fs, src.clone(), archive);
    let files_before = fs.files.len();
    assert_eq!(unzip_epub(&mut fs, &src, &dst), Ok(()));
    assert_eq!(fs.files.len(), files_before);
    assert_eq!(fs.dirs.len(), 0);
}

#[test]
fn staged_then_unpacked_round_trip() {
    let mut fs = empty_disk();
    let title = "kate-chopin_short-fiction".to_string();
    let archive = build_zip(&[("content.opf", false, b"<package/>")]);
    write_file(
        &mut fs,
        "src\\example_files\\kate-chopin_short-fiction.epub".to_string(),
        archive,
    );
    let dst = read_epub(&mut fs, &title).expect("staging failed");
    assert_eq!(dst, "src\\processed_files\\kate-chopin_short-fiction");
    let src = "src\\example_files\\kate-chopin_short-fiction.epub".to_string();
    assert_eq!(unzip_epub(&mut fs, &src, &dst), Ok(()));
    assert_eq!(
        content_of(
            &fs,
            "src\\processed_files\\kate-chopin_short-fiction\\content.opf"
        )
        .expect("content.opf missing")
        .as_slice(),
        b"<package/>"
    );
}

#[test]
fn corrupted_entry_data_fails_read() {
    let mut fs = empty_disk();
    let mut archive = build_zip(&[(
        "content.opf",
        false,
        b"The quick brown fox jumps over the lazy dog, 0123456789 times.",
    )]);
    // The local header is 30 bytes plus the 11-byte name; flipping a byte
    // just past it corrupts the entry's compressed data while the central
    // directory at the end of the buffer stays intact.
    archive[45] ^= 0xFF;
    let src = "src\\example_files\\doc.epub".to_string();
    let dst = "src\\processed_files\\doc".to_string();
    write_file(&mut fs, src.clone(), archive);
    let files_before = fs.files.len();
    let r = unzip_epub(&mut fs, &src, &dst);
    assert_eq!(r, Err(UnpackError::EntryReadFailed));
    assert_eq!(fs.files.len(), files_before);
    assert!(content_of(&fs, "src\\processed_files\\doc\\content.opf").is_none());
}

#[test]
fn read_archive_hands_out_distinct_names() {
    let archive = build_zip(&[
        ("content.opf", false, b"<package/>"),
        ("chapter1.xhtml", false, b"<html/>"),
    ]);
    let entries = read_archive(&archive).expect("read failed");
    assert_eq!(entries.len(), 2);
    assert!(names_distinct(&entries));
    assert_eq!(entries[0].name, "content.opf");
    assert_eq!(entries[0].raw_name, b"content.opf".to_vec());
    assert_eq!(entries[1].name, "chapter1.xhtml");
}

#[test]
fn colliding_decoded_names_are_detected() {
    // Two distinct stored names can decode to the same string; the check
    // reports the collision so the one-file-per-entry reasoning is not
    // applied to such a table.
    let entries = vec![
        ArchiveEntry {
            name: "a.txt".to_string(),
            is_dir: false,
            data: vec![1],
            raw_name: vec![0x80],
        },
        ArchiveEntry {
            name: "a.txt".to_string(),
            is_dir: false,
            data: vec![2],
            raw_name: vec![0xC3, 0x87],
        },
    ];
    assert!(!names_distinct(&entries));
}
