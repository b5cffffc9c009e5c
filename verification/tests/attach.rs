//! What is dropped on the window.
use rootmode_desktop::attach::{
    attachment, cannot_open, cannot_read, check_document, check_picture, handling, is_picture,
    malformed_pdf, not_text, picture_path, picture_places, read_all, reader_for, stash_picture,
    Attachment, DropOutcome, DropPoint, Dropped, DroppedFile, Handling, Reader, MAX_BYTES,
    MAX_CHARS, MAX_PICTURE_BYTES,
};
use rootmode_desktop::error::AppError;

fn extension(name: &str) -> Option<String> {
    name.rsplit_once('.').map(|(_, e)| e.to_string())
}

/// Reads a document with these contents.
fn read(name: &str, contents: &[u8]) -> Result<Attachment, AppError> {
    check_document(name, false, contents.len() as u64)?;
    let reader = reader_for(&extension(name));
    let text = String::from_utf8(contents.to_vec()).map_err(|_| not_text(name))?;
    attachment(name, &text, reader)
}

fn drop_files(files: &[(&str, &[u8])]) -> DropOutcome {
    let all = files
        .iter()
        .map(|(name, contents)| {
            let extension = extension(name);
            let came = match handling(&extension, false) {
                Handling::Read => Dropped::Document(read(name, contents)),
                Handling::Keep => panic!("there is nowhere to keep {name}"),
                Handling::Refuse => Dropped::Homeless,
            };
            DroppedFile { extension, came }
        })
        .collect();
    read_all(all, false, None)
}

#[test]
fn any_utf8_file_is_readable_whatever_it_is_called() {
    for name in ["notes.md", "Dockerfile", "main.rs", "data.csv"] {
        let a = read(name, b"hello there").unwrap();
        assert_eq!(a.text, "hello there");
        assert_eq!(a.kind, "text");
        assert_eq!(a.name, name);
    }
}

#[test]
fn a_binary_file_is_refused_in_words_a_person_can_act_on() {
    let err = read("photo.png", &[0x89, 0x50, 0x4e, 0x47, 0x00, 0xff, 0xfe])
        .unwrap_err()
        .message();
    assert!(err.contains("not text"), "{err}");
    assert!(err.contains("images"), "{err}");
}

#[test]
fn a_dropped_picture_is_kept_under_its_hash_and_read_back_by_id() {
    let png = vec![0x89, 0x50, 0x4e, 0x47, 0x0d, 0x0a, 0x1a, 0x0a, 1, 2, 3];
    let mime = check_picture("cat.PNG", &Some("PNG".into()), png.len() as u64).unwrap();
    let (p, file) = stash_picture("cat.PNG", mime, &png).unwrap();
    let extension = Some("PNG".to_string());
    assert_eq!(handling(&extension, true), Handling::Keep);
    let came = Dropped::Picture(Ok(p));
    let at = DropPoint {
        x: 10.0f64.to_bits(),
        y: 20.0f64.to_bits(),
    };
    let outcome = read_all(vec![DroppedFile { extension, came }], true, Some(at));
    assert!(outcome.rejected.is_empty(), "{:?}", outcome.rejected);
    assert!(outcome.attached.is_empty(), "a picture is not a document");
    let p = &outcome.pictures[0];
    assert_eq!(p.name, "cat.PNG");
    assert_eq!(p.mime, "image/png");
    assert_eq!(p.bytes, png.len() as u64);
    assert_eq!(p.id.len(), 64);
    assert_eq!(f64::from_bits(outcome.at.unwrap().x), 10.0);

    let there = vec!["other.png".to_string(), file.clone()];
    assert_eq!(picture_path(&p.id, &there).unwrap(), (file.clone(), "image/png"));

    let (again, same_file) = stash_picture("cat.PNG", mime, &png).unwrap();
    assert_eq!(again.id, p.id);
    assert_eq!(same_file, file);
}

#[test]
fn a_picture_id_is_a_hash_and_nothing_else() {
    for bad in ["../identity.key", "abc", &"z".repeat(64), "/etc/passwd"] {
        let err = picture_path(bad, &Vec::new()).unwrap_err().message();
        assert!(err.contains("not a picture id"), "{bad}: {err}");
    }
    let missing = "0".repeat(64);
    assert_eq!(picture_places(&missing).unwrap().len(), 5);
    let err = picture_path(&missing, &Vec::new()).unwrap_err().message();
    assert!(err.contains("not found"), "{err}");
}

#[test]
fn a_document_dropped_with_no_pictures_dir_still_reads() {
    let outcome = drop_files(&[("notes.txt", b"hello")]);
    assert_eq!(outcome.attached[0].text, "hello");
    assert!(outcome.pictures.is_empty());
}

#[test]
fn an_empty_document_says_so_rather_than_attaching_nothing() {
    assert!(read("blank.txt", b"   \n\t  ")
        .unwrap_err()
        .message()
        .contains("no text"));
}

#[test]
fn a_long_document_is_cut_and_admits_it() {
    let long = "x".repeat(MAX_CHARS + 500);
    let a = read("long.txt", long.as_bytes()).unwrap();

    assert!(a.truncated);
    assert_eq!(a.chars, MAX_CHARS);
}

#[test]
fn a_folder_is_refused_with_advice() {
    assert!(check_document("photos", true, 0)
        .unwrap_err()
        .message()
        .contains("folder"));
}

#[test]
fn one_bad_file_does_not_lose_the_good_ones() {
    let outcome = drop_files(&[("good.txt", b"keep me"), ("bad.bin", &[0xff, 0xfe, 0x00])]);

    assert_eq!(outcome.attached.len(), 1);
    assert_eq!(outcome.attached[0].text, "keep me");
    assert_eq!(outcome.rejected.len(), 1);
}

#[test]
fn a_file_that_is_too_large_is_refused() {
    assert!(check_document("a", false, MAX_BYTES).is_ok());
    assert!(check_document("a", false, MAX_BYTES + 1).is_err());
    let png = Some("png".to_string());
    assert!(check_picture("a.png", &png, MAX_PICTURE_BYTES).is_ok());
    assert!(check_picture("a.png", &png, MAX_PICTURE_BYTES + 1).is_err());
}

#[test]
fn the_end_of_a_name_says_how_to_read_it() {
    assert_eq!(reader_for(&Some("PDF".into())), Reader::Pdf);
    assert_eq!(reader_for(&Some("txt".into())), Reader::Text);
    assert_eq!(reader_for(&None), Reader::Text);
    assert!(is_picture(&Some("JPEG".into())));
    assert!(!is_picture(&Some("svg".into())));
}

#[test]
fn a_picture_is_never_read_as_a_document() {
    for ext in ["png", "JPG", "jpeg", "WebP", "gif"] {
        let extension = Some(ext.to_string());
        assert_eq!(handling(&extension, true), Handling::Keep, "{ext}");
        assert_eq!(handling(&extension, false), Handling::Refuse, "{ext}");
    }
    assert_eq!(handling(&Some("txt".into()), false), Handling::Read);
    assert_eq!(handling(&None, true), Handling::Read);
    let outcome = drop_files(&[("cat.png", b"text all the same"), ("a.txt", b"hello")]);
    assert_eq!(outcome.rejected, ["pictures cannot be kept before the app has started"]);
    assert_eq!(outcome.attached.len(), 1);
    assert!(outcome.pictures.is_empty());
}

#[test]
fn a_drop_says_where_it_was() {
    let at = Some(DropPoint {
        x: 1.5f64.to_bits(),
        y: 2.0f64.to_bits(),
    });
    assert_eq!(read_all(Vec::new(), true, at).at, at);
}

#[test]
fn files_that_cannot_be_had_are_told_apart() {
    assert_eq!(cannot_open("a", "gone").message(), "cannot open a: gone");
    assert_eq!(cannot_read("a", "gone").message(), "cannot read a: gone");
    assert!(malformed_pdf("a.pdf").message().contains("the PDF is malformed"));
}
