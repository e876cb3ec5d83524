use textpod::status::Status;
use textpod::upload::{begin_upload, Upload, UploadAction, UploadField, UploadStart};

fn search(file_name: &str) -> Upload {
    Upload::receive(UploadField::File(Some(file_name.to_string()))).unwrap()
}

fn next(upload: &mut Upload) -> String {
    match upload.step(true) {
        UploadAction::Try(name) => name,
        UploadAction::Write => panic!("a taken name is used"),
    }
}

fn names(file_name: &str) -> (String, String) {
    let mut upload = search(file_name);
    (next(&mut upload), next(&mut upload))
}

/// Uploads a file into a directory that holds the given names.
fn upload_into(taken: &mut Vec<String>, file_name: &str) -> String {
    let mut upload = search(file_name);
    while let UploadAction::Try(name) = upload.step(taken.contains(&upload.name)) {
        assert_eq!(name, upload.name);
    }
    taken.push(upload.name.clone());
    upload.name
}

#[test]
fn a_free_name_is_used_as_it_is() {
    let mut upload = search("a.b");
    assert!(matches!(upload.step(false), UploadAction::Write));
    assert_eq!((upload.name.as_str(), upload.counter), ("a.b", 1));
}

#[test]
fn the_first_free_name_is_used() {
    let mut taken = vec!["a.b".to_string(), "a-1.b".to_string(), "a-3.b".to_string()];
    assert_eq!(upload_into(&mut taken, "a.b"), "a-2.b");
    assert_eq!(upload_into(&mut taken, "a.b"), "a-4.b");
}

#[test]
fn two_uploads_of_one_name_get_two_names() {
    let mut taken = vec![];
    assert_eq!(upload_into(&mut taken, "a.b"), "a.b");
    assert_eq!(upload_into(&mut taken, "a.b"), "a-1.b");
    assert_eq!(upload_into(&mut taken, "a-1.b"), "a-1-1.b");
}

#[test]
fn the_number_stands_before_the_extension() {
    assert_eq!(names("file.txt"), ("file-1.txt".to_string(), "file-2.txt".to_string()));
    assert_eq!(names("a.tar.gz"), ("a.tar-1.gz".to_string(), "a.tar-2.gz".to_string()));
}

#[test]
fn a_name_without_an_extension_ends_with_the_number() {
    assert_eq!(names("file").0, "file-1");
    assert_eq!(names(".profile").0, ".profile-1");
    assert_eq!(names("file.").0, "file-1");
}

#[test]
fn no_file_name_gives_the_number_alone() {
    assert_eq!(next(&mut Upload::receive(UploadField::File(None)).unwrap()), "-1");
}

#[test]
fn no_name_comes_twice() {
    let mut upload = search("a.b");
    let mut seen = vec!["a.b".to_string()];
    for _ in 0..120 {
        let name = next(&mut upload);
        assert!(!seen.contains(&name));
        seen.push(name);
    }
    assert_eq!(seen[120], "a-120.b");
}

#[test]
fn nothing_is_read_in_read_only_mode() {
    assert_eq!(begin_upload(true), UploadStart::Refuse(Status::MethodNotAllowed));
    assert_eq!(begin_upload(false), UploadStart::ReadField);
}

#[test]
fn a_request_without_a_file_is_bad() {
    assert_eq!(Upload::receive(UploadField::Absent).unwrap_err(), Status::BadRequest);
}

#[test]
fn the_answer_names_the_file_that_was_written() {
    let mut upload = search("a.b");
    next(&mut upload);
    assert_eq!(upload.finish(true), Ok("/attachments/a-1.b".to_string()));
    assert_eq!(search("a.b").finish(true), Ok("/attachments/a.b".to_string()));
    assert_eq!(search("a.b").finish(false), Err(Status::InternalServerError));
}
