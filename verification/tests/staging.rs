use epub_staging::disk::{empty_disk, folder_exists, write_file};
use epub_staging::errors::MyError;
use epub_staging::staging::{destination_location, read_epub, source_location};

#[test]
fn test_file_not_found() {
    let mut fs = empty_disk();
    let title = "kate-chopin_short.epub".to_string();
    let error = read_epub(&mut fs, &title);
    assert_eq!(error, Err(MyError::FileNotFound));
}

#[test]
fn test_epub_folder_created() {
    let mut fs = empty_disk();
    let title = "kate-chopin_short-fiction".to_string();
    write_file(&mut fs, source_location(&title), b"archive bytes".to_vec());
    read_epub(&mut fs, &title).unwrap();
    assert!(folder_exists(
        &fs,
        &"src\\processed_files\\kate-chopin_short-fiction".to_string()
    ));
}

#[test]
fn test_epub_folder_already_exist() {
    let mut fs = empty_disk();
    let folder_name = "kate-chopin_short-fiction".to_string();
    write_file(&mut fs, source_location(&folder_name), b"archive bytes".to_vec());
    let first = read_epub(&mut fs, &folder_name);
    assert_eq!(
        first,
        Ok("src\\processed_files\\kate-chopin_short-fiction".to_string())
    );
    let error = read_epub(&mut fs, &folder_name);
    assert_eq!(error, Err(MyError::FolderAlreadyExists));
}

#[test]
fn second_staging_leaves_first_intact() {
    let mut fs = empty_disk();
    let title = "doc".to_string();
    write_file(&mut fs, source_location(&title), b"zip".to_vec());
    let first = read_epub(&mut fs, &title);
    assert_eq!(first, Ok("src\\processed_files\\doc".to_string()));
    let dirs_after_first = fs.dirs.len();
    let files_after_first = fs.files.len();
    let second = read_epub(&mut fs, &title);
    assert_eq!(second, Err(MyError::FolderAlreadyExists));
    assert_eq!(fs.dirs.len(), dirs_after_first);
    assert_eq!(fs.files.len(), files_after_first);
    assert!(folder_exists(&fs, &"src\\processed_files\\doc".to_string()));
}

#[test]
fn destination_taken_by_file_fails_creation() {
    let mut fs = empty_disk();
    let title = "doc".to_string();
    write_file(&mut fs, source_location(&title), b"zip".to_vec());
    write_file(&mut fs, destination_location(&title), b"in the way".to_vec());
    let error = read_epub(&mut fs, &title);
    assert_eq!(error, Err(MyError::FailedToCreateFolder));
    assert!(!folder_exists(&fs, &destination_location(&title)));
}

#[test]
fn composed_locations() {
    let title = "doc".to_string();
    assert_eq!(source_location(&title), "src\\example_files\\doc.epub");
    assert_eq!(destination_location(&title), "src\\processed_files\\doc");
}
