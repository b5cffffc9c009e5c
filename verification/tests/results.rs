//! What a result has to show before it is kept.
use base64::Engine;
use rootmode_desktop::codec::sha256_hex;
use rootmode_desktop::error::AppError;
use rootmode_desktop::json::Json;
use rootmode_desktop::protocol::{JobKind, JobResult};
use rootmode_desktop::results::{
    check_image, check_local_file, decode_image_payload, detect_ext, image_record, image_source,
    looks_like_path, materialize_text, unreadable_file, verify, ImageSource, ResultRecord,
    MAX_LOCAL_READ,
};

fn image_result(bytes: &[u8], claimed: Option<&str>) -> JobResult {
    JobResult {
        job_id: 7,
        kind: JobKind::Image,
        tool_calls: Vec::new(),
        sha256: claimed
            .map(str::to_string)
            .unwrap_or_else(|| sha256_hex(bytes)),
        text: None,
        image_path_or_b64: Some(base64::engine::general_purpose::STANDARD.encode(bytes)),
        thinking: None,
        meta: Json::record(),
    }
}

/// Keeps a picture that came as bytes: its name in the folder, and the record.
fn materialize(r: &JobResult, local: bool) -> Result<(String, Vec<u8>, ResultRecord), AppError> {
    let bytes = match image_source(r, local)? {
        ImageSource::Bytes(b) => b,
        ImageSource::File(p) => panic!("a file: {p}"),
    };
    let keep = check_image(r, &bytes, local)?;
    let path = format!("/downloads/{}", keep.name);
    let record = image_record(r, keep.sha256, path, 5);
    Ok((keep.name, bytes, record))
}

#[test]
fn writes_png_named_by_hash() {
    let bytes = b"\x89PNG\r\n\x1a\nnot-really-a-png-but-close-enough";
    let (name, kept, rec) = materialize(&image_result(bytes, None), true).unwrap();
    assert!(name.ends_with(".png"));
    assert!(name.contains(&rec.sha256[..16]));
    assert_eq!(kept, bytes);
    assert_eq!(rec.image_path, Some(format!("/downloads/{name}")));
}

#[test]
fn rejects_hash_mismatch() {
    let err = materialize(
        &image_result(b"\x89PNG\r\n\x1a\nx", Some(&"a".repeat(64))),
        true,
    )
    .unwrap_err();
    assert!(err.message().contains("hash mismatch"));
}

#[test]
fn a_remote_worker_cannot_name_a_local_path() {
    let mut r = image_result(b"unused", Some(&"b".repeat(64)));
    r.image_path_or_b64 = Some("/etc/passwd".into());
    let err = materialize(&r, false).unwrap_err().message();
    assert!(err.contains("not valid base64"), "{err}");
}

#[test]
fn a_remote_result_must_carry_a_hash() {
    assert!(verify("abc", "", true).is_ok());
    assert!(verify("abc", "", false).is_err());
}

#[test]
fn path_payloads_are_read_only_when_absolute_and_present() {
    assert!(decode_image_payload("etc/passwd", true).is_err());
    assert_eq!(
        decode_image_payload("/definitely/not/here.png", true),
        Ok(ImageSource::File("/definitely/not/here.png".into()))
    );
    let err = unreadable_file("/definitely/not/here.png", "No such file or directory");
    assert!(err.message().contains("cannot read image"));
}

#[test]
fn writes_mp4_named_by_hash() {
    let mut bytes = vec![0, 0, 0, 24];
    bytes.extend_from_slice(b"ftypisom");
    bytes.extend_from_slice(&[0u8; 12]);
    let (name, _, rec) = materialize(
        &JobResult {
            job_id: 7,
            kind: JobKind::Video,
            tool_calls: Vec::new(),
            sha256: sha256_hex(&bytes),
            text: None,
            image_path_or_b64: Some(base64::engine::general_purpose::STANDARD.encode(&bytes)),
            thinking: None,
            meta: Json::record(),
        },
        true,
    )
    .unwrap();
    assert!(name.ends_with(".mp4"));
    assert_eq!(rec.kind, JobKind::Video);
}

#[test]
fn a_claimed_hash_may_be_in_either_case() {
    assert!(verify("abcdef", "ABCDEF", false).is_ok());
    assert_eq!(
        verify("abcdef", "abcdee", false).unwrap_err().message(),
        "hash mismatch: peer claimed abcdee, bytes hash to abcdef"
    );
}

#[test]
fn only_an_absolute_path_looks_like_one() {
    assert!(looks_like_path("/tmp/a.png"));
    assert!(!looks_like_path("tmp/a.png"));
    assert!(!looks_like_path("iVBORw0KGgo="));
}

#[test]
fn a_local_file_is_absolute_and_not_too_large() {
    assert!(check_local_file(true, Some(MAX_LOCAL_READ)).is_ok());
    assert!(check_local_file(true, Some(MAX_LOCAL_READ + 1)).is_err());
    assert_eq!(
        check_local_file(false, None).unwrap_err(),
        AppError::Invalid("image path must be absolute".into())
    );
}

#[test]
fn files_are_told_by_their_first_bytes() {
    assert_eq!(detect_ext(&vec![0xff, 0xd8, 0xff, 0xe0]), "jpg");
    assert_eq!(detect_ext(&b"GIF89a".to_vec()), "gif");
    assert_eq!(detect_ext(&b"RIFF....WEBPVP8 ".to_vec()), "webp");
    assert_eq!(detect_ext(&vec![0x89, 0x50, 0x4e, 0x47, 0x0d, 0x0a, 0x1a, 0x0a]), "png");
}

#[test]
fn a_text_result_is_held_to_its_hash() {
    let mut r = image_result(b"", None);
    r.kind = JobKind::Llm;
    r.image_path_or_b64 = None;
    assert_eq!(
        materialize_text(&r, false, 1).unwrap_err().message(),
        "llm result has no text"
    );
    r.text = Some("pong".into());
    assert!(materialize_text(&r, false, 1).is_err(), "the hash is that of nothing");
    r.sha256 = sha256_hex(b"pong");
    let rec = materialize_text(&r, false, 1).unwrap();
    assert_eq!(rec.text.as_deref(), Some("pong"));
    assert_eq!(rec.created_at, 1);
}

#[test]
fn a_picture_without_a_picture_is_refused() {
    let mut r = image_result(b"x", None);
    r.image_path_or_b64 = None;
    assert!(image_source(&r, true).is_err());
}
