use allein::error::Error;
use allein::root::{
    create_demo_file, default_docs_dir, get_docs_dir, reset_docs_folder, set_docs_folder,
    DEMO_CONTENT, DEMO_FILE_NAME, ROOT_KEY,
};

#[test]
fn a_custom_root_that_is_there_is_taken_as_it_is() {
    let plan = get_docs_dir(Some("/data/notes".to_string()), true, Some("/home/u".to_string()), false)
        .unwrap();
    assert_eq!(plan.root, "/data/notes");
    assert!(!plan.create_dir);
    assert!(!plan.persist);
    assert!(!plan.seed_demo);
    // the home directory is not needed then
    let plan = get_docs_dir(Some("/data/notes".to_string()), true, None, true).unwrap();
    assert_eq!(plan.root, "/data/notes");
}

#[test]
fn the_first_resolution_creates_seeds_and_persists() {
    let plan = get_docs_dir(None, false, Some("/home/u".to_string()), false).unwrap();
    assert_eq!(plan.root, "/home/u/allein/docs");
    assert!(plan.create_dir);
    assert!(plan.persist);
    assert!(plan.seed_demo);
}

#[test]
fn a_second_resolution_does_not_seed_again() {
    // the root was persisted and is there
    let plan =
        get_docs_dir(Some("/home/u/allein/docs".to_string()), true, Some("/home/u".to_string()), true)
            .unwrap();
    assert_eq!(plan.root, "/home/u/allein/docs");
    assert!(!plan.seed_demo);
    assert!(!plan.persist);
    // the configuration was lost, the folder is there, be it empty
    let plan = get_docs_dir(None, false, Some("/home/u".to_string()), true).unwrap();
    assert_eq!(plan.root, "/home/u/allein/docs");
    assert!(plan.persist);
    assert!(!plan.seed_demo);
}

#[test]
fn a_stale_custom_root_falls_back_to_the_default() {
    let plan =
        get_docs_dir(Some("/gone".to_string()), false, Some("/home/u".to_string()), true).unwrap();
    assert_eq!(plan.root, "/home/u/allein/docs");
    assert!(plan.create_dir);
    assert!(plan.persist);
    assert!(!plan.seed_demo);
}

#[test]
fn without_a_home_directory_there_is_no_default() {
    assert_eq!(get_docs_dir(None, false, None, false).map(|p| p.root), Err(Error::DirectoryUnavailable));
    assert_eq!(
        get_docs_dir(Some("/gone".to_string()), false, None, false).map(|p| p.root),
        Err(Error::DirectoryUnavailable)
    );
    assert_eq!(reset_docs_folder(None, true).map(|p| p.root), Err(Error::DirectoryUnavailable));
}

#[test]
fn a_reset_takes_the_default() {
    let plan = reset_docs_folder(Some("/home/u".to_string()), true).unwrap();
    assert_eq!(plan.root, "/home/u/allein/docs");
    assert!(plan.persist);
    assert!(!plan.seed_demo);
    let plan = reset_docs_folder(Some("/home/u".to_string()), false).unwrap();
    assert!(plan.seed_demo);
}

#[test]
fn the_default_root_lies_below_the_home_directory() {
    assert_eq!(default_docs_dir("/home/u"), "/home/u/allein/docs");
    assert_eq!(default_docs_dir("/"), "/allein/docs");
}

#[test]
fn the_demo_document_has_its_name_and_text() {
    let file = create_demo_file("/home/u/allein/docs");
    assert_eq!(file.path, "/home/u/allein/docs/Getting Started.md");
    assert_eq!(DEMO_FILE_NAME, "Getting Started.md");
    assert_eq!(file.content, DEMO_CONTENT);
    assert!(file.content.starts_with("# Welcome to Allein\n"));
    assert!(file.content.ends_with("Happy writing! ✨\n"));
    assert_eq!(file.content.lines().count(), 55);
    assert_eq!(ROOT_KEY, "current_docs_folder");
}

#[test]
fn a_folder_must_be_there_and_writable_to_become_the_root() {
    assert_eq!(set_docs_folder(true, true, true), Ok(()));
    assert_eq!(set_docs_folder(false, false, false), Err(Error::NotFound));
    assert_eq!(set_docs_folder(false, true, true), Err(Error::NotFound));
    assert_eq!(set_docs_folder(true, false, true), Err(Error::NotFound));
    assert_eq!(set_docs_folder(true, true, false), Err(Error::IoFailure));
}
