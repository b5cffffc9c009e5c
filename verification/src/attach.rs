//! Documents and pictures dropped on the window.
use vstd::prelude::*;
use vstd::string::StringSliceAdditionalSpecFns;
use vstd::utf8::{encode_utf8, is_ascii_chars, is_ascii_chars_encode_utf8};

use crate::codec::{hexed, sha256_digest, sha256_hex, sha256_text};
use crate::error::{AppError, Trouble};
use crate::protocol::opt;
use crate::text::{
    all_digits, blank, chars_of, concat, concat3, decimal, decimal_of, digit, digit_of, first_chars,
    lemma_texts_push, lowercased, same, take_chars, texts, to_lowercase, trim, trimmed,
};

verus! {

broadcast use vstd::string::group_string_axioms;

/// How many characters of a document are carried.
pub const MAX_CHARS: usize = 100_000;

/// The largest document that is read.
pub const MAX_BYTES: u64 = 67_108_864;

/// Where pictures are kept among the app's data.
pub const PICTURES_DIR: &'static str = "pictures";

/// The largest picture that is kept.
pub const MAX_PICTURE_BYTES: u64 = 26_214_400;

/// A document ready to be put in front of a model.
#[derive(Debug, PartialEq)]
pub struct Attachment {
    /// The file's name; where it lies is nobody's business.
    pub name: String,
    pub text: String,
    pub chars: usize,
    /// The document was longer and was cut.
    pub truncated: bool,
    /// `text` or `pdf`.
    pub kind: &'static str,
}

/// A picture that was kept.
#[derive(Debug, PartialEq)]
pub struct Picture {
    /// The hash of its bytes, and the only handle on it.
    pub id: String,
    pub name: String,
    pub mime: String,
    pub bytes: u64,
}

// ---------------------------------------------------------------- documents

/// How a document is read.
#[derive(Debug, Clone, Copy, PartialEq, Eq, Structural)]
pub enum Reader {
    Text,
    Pdf,
}

/// Refuses a folder and a file that is too large, before anything is read.
pub fn check_document(name: &str, is_dir: bool, size: u64) -> (r: Result<(), AppError>)
    ensures
        match r {
            Ok(_) => !is_dir && size <= MAX_BYTES,
            Err(e) => if is_dir {
                e@ == Trouble::Invalid(
                    name@ + " is a folder — drop the files inside it instead"@,
                )
            } else {
                size > MAX_BYTES && e@ == Trouble::Invalid(
                    name@ + " is "@ + decimal((size / 1_048_576) as nat)
                        + " MB, too big to read"@,
                )
            },
        },
{
    if is_dir {
        return Err(
            AppError::Invalid(
                concat(name, " is a folder — drop the files inside it instead"),
            ),
        );
    }
    if size > MAX_BYTES {
        let mut text = concat3(name, " is ", decimal_of(size / 1_048_576).as_str());
        text.append(" MB, too big to read");
        return Err(AppError::Invalid(text));
    }
    Ok(())
}

/// How a document is read, by the end of its name: any text whatever it is
/// called, unless it is a PDF.
pub fn reader_for(extension: &Option<String>) -> (r: Reader)
    ensures
        r == (match opt(*extension) {
            Some(e) if lowercased(e) == "pdf"@ => Reader::Pdf,
            _ => Reader::Text,
        }),
{
    match extension {
        Some(e) => if same(to_lowercase(e.as_str()).as_str(), "pdf") {
            Reader::Pdf
        } else {
            Reader::Text
        },
        None => Reader::Text,
    }
}

/// How a file that is no text is refused.
pub fn not_text(name: &str) -> (r: AppError)
    ensures
        r@ == Trouble::Invalid(
            name@
                + " is not text. Text and PDF can be read; images, audio and office documents cannot"@,
        ),
{
    AppError::Invalid(
        concat(
            name,
            " is not text. Text and PDF can be read; images, audio and office documents cannot",
        ),
    )
}

/// How a file that cannot be opened is refused.
pub fn cannot_open(name: &str, why: &str) -> (r: AppError)
    ensures
        r@ == Trouble::Invalid("cannot open "@ + name@ + ": "@ + why@),
{
    let mut text = concat3("cannot open ", name, ": ");
    text.append(why);
    AppError::Invalid(text)
}

/// How a file that cannot be read is refused.
pub fn cannot_read(name: &str, why: &str) -> (r: AppError)
    ensures
        r@ == Trouble::Invalid("cannot read "@ + name@ + ": "@ + why@),
{
    let mut text = concat3("cannot read ", name, ": ");
    text.append(why);
    AppError::Invalid(text)
}

/// How a PDF that makes no sense is refused.
pub fn malformed_pdf(name: &str) -> (r: AppError)
    ensures
        r@ == Trouble::Invalid(name@ + " could not be read — the PDF is malformed"@),
{
    AppError::Invalid(concat(name, " could not be read — the PDF is malformed"))
}

/// What is carried of a document that was read.
pub fn attachment(name: &str, raw: &str, reader: Reader) -> (r: Result<Attachment, AppError>)
    ensures
        match r {
            Ok(a) => {
                &&& !blank(raw@)
                &&& a.name@ == name@
                &&& a.text@ == first_chars(trimmed(raw@), MAX_CHARS as nat)
                &&& a.chars == a.text@.len()
                &&& a.truncated == (trimmed(raw@).len() > MAX_CHARS)
                &&& a.kind@ == (if reader == Reader::Pdf {
                    "pdf"@
                } else {
                    "text"@
                })
            },
            Err(e) => blank(raw@) && e@ == Trouble::Invalid(
                name@
                    + " has no text in it — a scanned page or an image-only PDF has nothing to read without OCR"@,
            ),
        },
{
    let cleaned = trim(raw);
    if cleaned.as_str().is_empty() {
        return Err(
            AppError::Invalid(
                concat(
                    name,
                    " has no text in it — a scanned page or an image-only PDF has nothing to read without OCR",
                ),
            ),
        );
    }
    let count: usize = chars_of(cleaned.as_str()).len();
    let truncated = count > MAX_CHARS;
    let text = take_chars(cleaned.as_str(), MAX_CHARS);
    let chars: usize = if truncated {
        MAX_CHARS
    } else {
        count
    };
    let kind = if reader == Reader::Pdf {
        "pdf"
    } else {
        "text"
    };
    Ok(Attachment { name: name.to_string(), text, chars, truncated, kind })
}

/// A document that was cut says so, and one that was not is whole.
pub proof fn law_a_cut_document_says_so(raw: Seq<char>)
    ensures
        first_chars(trimmed(raw), MAX_CHARS as nat) != trimmed(raw) <==> trimmed(raw).len()
            > MAX_CHARS,
{
}

// ----------------------------------------------------------------- pictures

/// The pictures that are known: the end of the name, and the type.
pub open spec fn picture_types() -> Seq<(Seq<char>, Seq<char>)> {
    seq![
        ("png"@, "image/png"@),
        ("jpg"@, "image/jpeg"@),
        ("jpeg"@, "image/jpeg"@),
        ("webp"@, "image/webp"@),
        ("gif"@, "image/gif"@),
    ]
}

/// The type of a picture, by the end of its name.
pub open spec fn mime_of(extension: Option<Seq<char>>) -> Option<Seq<char>> {
    match extension {
        None => None,
        Some(e) => {
            let x = lowercased(e);
            if x == "png"@ {
                Some("image/png"@)
            } else if x == "jpg"@ || x == "jpeg"@ {
                Some("image/jpeg"@)
            } else if x == "webp"@ {
                Some("image/webp"@)
            } else if x == "gif"@ {
                Some("image/gif"@)
            } else {
                None
            }
        },
    }
}

/// The type of a picture, by the end of its name; none where it is no
/// picture.
pub fn picture_mime(extension: &Option<String>) -> (r: Option<&'static str>)
    ensures
        (match r {
            Some(m) => Some(m@),
            None => None,
        }) == mime_of(opt(*extension)),
{
    match extension {
        None => None,
        Some(e) => {
            let x = to_lowercase(e.as_str());
            if same(x.as_str(), "png") {
                Some("image/png")
            } else if same(x.as_str(), "jpg") || same(x.as_str(), "jpeg") {
                Some("image/jpeg")
            } else if same(x.as_str(), "webp") {
                Some("image/webp")
            } else if same(x.as_str(), "gif") {
                Some("image/gif")
            } else {
                None
            }
        },
    }
}

pub fn is_picture(extension: &Option<String>) -> (r: bool)
    ensures
        r == (mime_of(opt(*extension)) is Some),
{
    picture_mime(extension).is_some()
}

/// The end of the name a picture of a type is kept under.
pub open spec fn kept_ext(mime: Seq<char>) -> Seq<char> {
    if mime == "image/png"@ {
        "png"@
    } else if mime == "image/jpeg"@ {
        "jpg"@
    } else if mime == "image/webp"@ {
        "webp"@
    } else if mime == "image/gif"@ {
        "gif"@
    } else {
        "png"@
    }
}

fn ext_for(mime: &str) -> (r: &'static str)
    ensures
        r@ == kept_ext(mime@),
{
    if same(mime, "image/png") {
        "png"
    } else if same(mime, "image/jpeg") {
        "jpg"
    } else if same(mime, "image/webp") {
        "webp"
    } else if same(mime, "image/gif") {
        "gif"
    } else {
        "png"
    }
}

/// Refuses what is no picture, or too large for one, before it is read.
pub fn check_picture(name: &str, extension: &Option<String>, size: u64) -> (r: Result<
    &'static str,
    AppError,
>)
    ensures
        match r {
            Ok(m) => mime_of(opt(*extension)) == Some(m@) && size <= MAX_PICTURE_BYTES,
            Err(e) => if mime_of(opt(*extension)) is None {
                e@ == Trouble::Invalid(name@ + " is not a picture format this app knows"@)
            } else {
                size > MAX_PICTURE_BYTES && e@ == Trouble::Invalid(
                    name@ + " is "@ + decimal((size / 1_048_576) as nat)
                        + " MB, too big for a picture"@,
                )
            },
        },
{
    let mime = match picture_mime(extension) {
        Some(m) => m,
        None => {
            return Err(
                AppError::Invalid(concat(name, " is not a picture format this app knows")),
            );
        },
    };
    if size > MAX_PICTURE_BYTES {
        let mut text = concat3(name, " is ", decimal_of(size / 1_048_576).as_str());
        text.append(" MB, too big for a picture");
        return Err(AppError::Invalid(text));
    }
    Ok(mime)
}

/// Files with this end of the name and this type are looked for.
pub open spec fn is_looked_for(ext: Seq<char>, mime: Seq<char>) -> bool {
    exists|i: int|
        0 <= i < picture_types().len() && (#[trigger] picture_types()[i]).0 == ext
            && picture_types()[i].1 == mime
}

/// What is kept of a picture that was read, and the name of the file it is
/// kept in. The picture's id is one that it is found by.
pub fn stash_picture(name: &str, mime: &str, bytes: &Vec<u8>) -> (r: Result<
    (Picture, String),
    AppError,
>)
    ensures
        match r {
            Ok((p, file)) => {
                &&& bytes@.len() > 0
                &&& p.id@ == sha256_text(bytes@) && is_picture_id(p.id@)
                &&& p.name@ == name@
                &&& p.mime@ == mime@
                &&& p.bytes == bytes@.len()
                &&& file@ == kept_name(p.id@, kept_ext(mime@))
            },
            Err(e) => bytes@.len() == 0 && e@ == Trouble::Invalid(name@ + " is empty"@),
        },
{
    if bytes.len() == 0 {
        return Err(AppError::Invalid(concat(name, " is empty")));
    }
    let id = sha256_hex(bytes.as_slice());
    proof {
        lemma_hash_is_id(sha256_digest(bytes@));
    }
    let file = concat3(id.as_str(), ".", ext_for(mime));
    let picture = Picture {
        id,
        name: name.to_string(),
        mime: mime.to_string(),
        bytes: bytes.len() as u64,
    };
    Ok((picture, file))
}

/// A picture's id: a hash and nothing else.
pub open spec fn is_picture_id(id: Seq<char>) -> bool {
    encode_utf8(id).len() == 64 && all_digits(id, 16)
}

proof fn lemma_hash_is_id(digest: Seq<u8>)
    requires
        hexed(digest).len() == 64,
    ensures
        is_picture_id(hexed(digest)),
{
    let s = hexed(digest);
    assert forall|i: int| 0 <= i < s.len() implies digit(#[trigger] s[i]) < 16 && s[i] as u32
        <= 127 by {}
    assert(is_ascii_chars(s));
    is_ascii_chars_encode_utf8(s);
}

fn is_id(id: &str) -> (r: bool)
    ensures
        r == is_picture_id(id@),
{
    if id.as_bytes().len() != 64 {
        return false;
    }
    let v = chars_of(id);
    let mut i: usize = 0;
    while i < v.len()
        invariant
            i <= v@.len(),
            v@ == id@,
            forall|k: int| 0 <= k < i ==> digit(#[trigger] v@[k]) < 16,
        decreases v@.len() - i,
    {
        if digit_of(v[i]) >= 16 {
            assert(digit(id@[i as int]) >= 16);
            return false;
        }
        i = i + 1;
    }
    true
}

/// The name of the file a picture of a known type is kept in.
pub open spec fn kept_name(id: Seq<char>, ext: Seq<char>) -> Seq<char> {
    id + "."@ + ext
}

/// The files a picture may be kept in, in the order they are looked for, with
/// the type of each. An id that is no hash names no file at all.
pub fn picture_places(id: &str) -> (r: Result<Vec<(String, &'static str)>, AppError>)
    ensures
        match r {
            Ok(v) => {
                &&& is_picture_id(id@)
                &&& v@.len() == picture_types().len()
                &&& forall|i: int|
                    0 <= i < v@.len() ==> (#[trigger] v@[i]).0@ == kept_name(
                        id@,
                        picture_types()[i].0,
                    ) && v@[i].1@ == picture_types()[i].1
            },
            Err(e) => !is_picture_id(id@) && e@ == Trouble::Invalid("not a picture id"@),
        },
{
    if !is_id(id) {
        return Err(AppError::Invalid("not a picture id".to_string()));
    }
    let mut v: Vec<(String, &'static str)> = Vec::new();
    v.push((concat3(id, ".", "png"), "image/png"));
    v.push((concat3(id, ".", "jpg"), "image/jpeg"));
    v.push((concat3(id, ".", "jpeg"), "image/jpeg"));
    v.push((concat3(id, ".", "webp"), "image/webp"));
    v.push((concat3(id, ".", "gif"), "image/gif"));
    Ok(v)
}

/// The file a picture is kept in and its type: the first that is there, from
/// the `i`-th place that is looked in.
pub open spec fn found_at(id: Seq<char>, there: Seq<Seq<char>>, i: int) -> Option<
    (Seq<char>, Seq<char>),
>
    decreases picture_types().len() - i,
{
    if i < 0 || i >= picture_types().len() {
        None
    } else if there.contains(kept_name(id, picture_types()[i].0)) {
        Some((kept_name(id, picture_types()[i].0), picture_types()[i].1))
    } else {
        found_at(id, there, i + 1)
    }
}

fn is_there(name: &str, there: &Vec<String>) -> (r: bool)
    ensures
        r == texts(there@).contains(name@),
{
    let mut i: usize = 0;
    while i < there.len()
        invariant
            i <= there@.len(),
            forall|k: int| 0 <= k < i ==> texts(there@)[k] != name@,
        decreases there@.len() - i,
    {
        if same(there[i].as_str(), name) {
            assert(texts(there@)[i as int] == name@);
            return true;
        }
        i = i + 1;
    }
    false
}

/// The file a picture is kept in, and its type, given the names of the files
/// that are there.
pub fn picture_path(id: &str, there: &Vec<String>) -> (r: Result<
    (String, &'static str),
    AppError,
>)
    ensures
        match r {
            Ok((file, mime)) => is_picture_id(id@) && found_at(id@, texts(there@), 0) == Some(
                (file@, mime@),
            ),
            Err(e) => if is_picture_id(id@) {
                found_at(id@, texts(there@), 0) is None && e@ == Trouble::NotFound(
                    "picture "@ + id@,
                )
            } else {
                e@ == Trouble::Invalid("not a picture id"@)
            },
        },
{
    let places = match picture_places(id) {
        Ok(v) => v,
        Err(e) => {
            return Err(e);
        },
    };
    let mut i: usize = 0;
    while i < places.len()
        invariant
            i <= places@.len(),
            places@.len() == picture_types().len(),
            is_picture_id(id@),
            forall|k: int|
                0 <= k < places@.len() ==> (#[trigger] places@[k]).0@ == kept_name(
                    id@,
                    picture_types()[k].0,
                ) && places@[k].1@ == picture_types()[k].1,
            found_at(id@, texts(there@), 0) == found_at(id@, texts(there@), i as int),
        decreases places@.len() - i,
    {
        let place = &places[i];
        if is_there(place.0.as_str(), there) {
            return Ok((place.0.clone(), place.1));
        }
        i = i + 1;
    }
    Err(AppError::NotFound(concat("picture ", id)))
}

// -------------------------------------------------------------------- drops

/// What is done with a dropped file.
#[derive(Debug, Clone, Copy, PartialEq, Eq, Structural)]
pub enum Handling {
    /// It is read as a document.
    Read,
    /// It is kept as a picture.
    Keep,
    /// It is a picture, with nowhere to keep it yet.
    Refuse,
}

/// What is done with a file that has this extension.
pub open spec fn handled(extension: Option<Seq<char>>, has_dir: bool) -> Handling {
    if mime_of(extension) is None {
        Handling::Read
    } else if has_dir {
        Handling::Keep
    } else {
        Handling::Refuse
    }
}

/// What is done with a dropped file: what has a picture's extension is never
/// read as a document. `has_dir` is whether there is a place for pictures.
pub fn handling(extension: &Option<String>, has_dir: bool) -> (r: Handling)
    ensures
        r == handled(opt(*extension), has_dir),
{
    if !is_picture(extension) {
        Handling::Read
    } else if has_dir {
        Handling::Keep
    } else {
        Handling::Refuse
    }
}

/// What came of a dropped file.
#[derive(Debug, PartialEq)]
pub enum Dropped {
    Document(Result<Attachment, AppError>),
    Picture(Result<Picture, AppError>),
    /// A picture, with nowhere to keep it yet.
    Homeless,
}

/// A dropped file: its extension, and what came of it.
#[derive(Debug, PartialEq)]
pub struct DroppedFile {
    pub extension: Option<String>,
    pub came: Dropped,
}

impl DroppedFile {
    /// It was dealt with as its extension asks.
    pub open spec fn is_sorted(self, has_dir: bool) -> bool {
        match handled(opt(self.extension), has_dir) {
            Handling::Read => self.came is Document,
            Handling::Keep => self.came is Picture,
            Handling::Refuse => self.came is Homeless,
        }
    }
}

/// Where on the window files were dropped, as the bit patterns of two
/// double-precision numbers.
#[derive(Debug, Clone, Copy, PartialEq, Eq, Structural)]
pub struct DropPoint {
    pub x: u64,
    pub y: u64,
}

/// What a drop comes to: what was read, what was kept, a line for each file
/// that was neither, and where it was.
#[derive(Debug, PartialEq)]
pub struct DropOutcome {
    pub attached: Vec<Attachment>,
    pub pictures: Vec<Picture>,
    pub rejected: Vec<String>,
    pub at: Option<DropPoint>,
}

pub open spec fn documents_in(all: Seq<DroppedFile>) -> Seq<Attachment>
    decreases all.len(),
{
    if all.len() == 0 {
        seq![]
    } else {
        match all.last().came {
            Dropped::Document(Ok(a)) => documents_in(all.drop_last()).push(a),
            _ => documents_in(all.drop_last()),
        }
    }
}

pub open spec fn pictures_in(all: Seq<DroppedFile>) -> Seq<Picture>
    decreases all.len(),
{
    if all.len() == 0 {
        seq![]
    } else {
        match all.last().came {
            Dropped::Picture(Ok(p)) => pictures_in(all.drop_last()).push(p),
            _ => pictures_in(all.drop_last()),
        }
    }
}

pub open spec fn refusals_in(all: Seq<DroppedFile>) -> Seq<Seq<char>>
    decreases all.len(),
{
    if all.len() == 0 {
        seq![]
    } else {
        let rest = refusals_in(all.drop_last());
        match all.last().came {
            Dropped::Document(Err(e)) => rest.push(e@.words()),
            Dropped::Picture(Err(e)) => rest.push(e@.words()),
            Dropped::Homeless => rest.push(
                "pictures cannot be kept before the app has started"@,
            ),
            _ => rest,
        }
    }
}

/// Every file was dealt with as its extension asks.
pub open spec fn all_sorted(all: Seq<DroppedFile>, has_dir: bool) -> bool {
    forall|i: int| 0 <= i < all.len() ==> (#[trigger] all[i]).is_sorted(has_dir)
}

/// Keeps what worked of a drop and explains what did not: one bad file never
/// loses the good ones. Without a place for pictures none is kept.
pub fn read_all(all: Vec<DroppedFile>, has_dir: bool, at: Option<DropPoint>) -> (r: DropOutcome)
    requires
        all_sorted(all@, has_dir),
    ensures
        r.attached@ == documents_in(all@),
        r.pictures@ == pictures_in(all@),
        texts(r.rejected@) == refusals_in(all@),
        r.at == at,
        !has_dir ==> r.pictures@.len() == 0,
{
    let ghost whole = all@;
    let total: usize = all.len();
    let mut rest = all;
    let mut attached: Vec<Attachment> = Vec::new();
    let mut pictures: Vec<Picture> = Vec::new();
    let mut rejected: Vec<String> = Vec::new();
    let mut n: usize = 0;
    assert(texts(rejected@) =~= refusals_in(whole.take(0)));
    while rest.len() > 0
        invariant
            whole == all@,
            n + rest@.len() == total,
            total == whole.len(),
            rest@ == whole.skip(n as int),
            attached@ == documents_in(whole.take(n as int)),
            pictures@ == pictures_in(whole.take(n as int)),
            texts(rejected@) == refusals_in(whole.take(n as int)),
        decreases rest@.len(),
    {
        let ghost now = whole.take(n as int + 1);
        assert(now.drop_last() =~= whole.take(n as int));
        let d = rest.remove(0);
        assert(d == whole[n as int]);
        assert(now.last() == d);
        assert(rest@ =~= whole.skip(n as int + 1));
        match d.came {
            Dropped::Document(Ok(a)) => {
                attached.push(a);
            },
            Dropped::Picture(Ok(p)) => {
                pictures.push(p);
            },
            Dropped::Document(Err(e)) => {
                let line = e.message();
                proof {
                    lemma_texts_push(rejected@, line);
                }
                rejected.push(line);
            },
            Dropped::Picture(Err(e)) => {
                let line = e.message();
                proof {
                    lemma_texts_push(rejected@, line);
                }
                rejected.push(line);
            },
            Dropped::Homeless => {
                let line = "pictures cannot be kept before the app has started".to_string();
                proof {
                    lemma_texts_push(rejected@, line);
                }
                rejected.push(line);
            },
        }
        n = n + 1;
    }
    assert(whole.take(n as int) =~= whole);
    proof {
        if !has_dir {
            law_no_place_no_pictures(whole);
        }
    }
    DropOutcome { attached, pictures, rejected, at }
}

/// Every dropped file is read, kept or refused: none is lost.
pub proof fn law_no_drop_is_lost(all: Seq<DroppedFile>)
    ensures
        documents_in(all).len() + pictures_in(all).len() + refusals_in(all).len() == all.len(),
    decreases all.len(),
{
    if all.len() > 0 {
        law_no_drop_is_lost(all.drop_last());
    }
}

/// Before there is a place for pictures, none is kept.
pub proof fn law_no_place_no_pictures(all: Seq<DroppedFile>)
    requires
        all_sorted(all, false),
    ensures
        pictures_in(all).len() == 0,
    decreases all.len(),
{
    if all.len() > 0 {
        assert(all.last() == all[all.len() - 1]);
        assert(all.last().is_sorted(false));
        let front = all.drop_last();
        assert forall|i: int| 0 <= i < front.len() implies (#[trigger] front[i]).is_sorted(false) by {
            assert(front[i] == all[i]);
        }
        law_no_place_no_pictures(front);
    }
}

/// The files without a picture's extension.
pub open spec fn not_pictures(all: Seq<DroppedFile>) -> Seq<DroppedFile>
    decreases all.len(),
{
    if all.len() == 0 {
        seq![]
    } else {
        let rest = not_pictures(all.drop_last());
        if mime_of(opt(all.last().extension)) is None {
            rest.push(all.last())
        } else {
            rest
        }
    }
}

/// What has a picture's extension is never read as a document: all documents
/// come from the other files.
pub proof fn law_pictures_are_not_documents(all: Seq<DroppedFile>, has_dir: bool)
    requires
        all_sorted(all, has_dir),
    ensures
        documents_in(all) == documents_in(not_pictures(all)),
    decreases all.len(),
{
    if all.len() > 0 {
        assert(all.last() == all[all.len() - 1]);
        assert(all.last().is_sorted(has_dir));
        let front = all.drop_last();
        assert forall|i: int| 0 <= i < front.len() implies (#[trigger] front[i]).is_sorted(has_dir) by {
            assert(front[i] == all[i]);
        }
        law_pictures_are_not_documents(front, has_dir);
        let rest = not_pictures(front);
        assert(rest.push(all.last()).drop_last() =~= rest);
    }
}

/// A kind of picture that is kept is looked for: the end of its file's name
/// and its type are among those that are.
pub proof fn law_a_kept_picture_is_looked_for(extension: Option<Seq<char>>)
    requires
        mime_of(extension) is Some,
    ensures
        is_looked_for(kept_ext(mime_of(extension)->0), mime_of(extension)->0),
{
    reveal_strlit("image/png");
    reveal_strlit("image/jpeg");
    reveal_strlit("image/webp");
    reveal_strlit("image/gif");
    let t = picture_types();
    assert(t[0].0 == "png"@ && t[1].0 == "jpg"@ && t[3].0 == "webp"@ && t[4].0 == "gif"@);
    let m = mime_of(extension)->0;
    assert("image/png"@ != "image/jpeg"@ && "image/png"@ != "image/webp"@ && "image/png"@
        != "image/gif"@) by {
        assert("image/png"@.len() != "image/jpeg"@.len());
        assert("image/png"@.len() != "image/webp"@.len());
        assert("image/png"@[6] != "image/gif"@[6]);
    }
    assert("image/jpeg"@ != "image/webp"@) by {
        assert("image/jpeg"@[6] != "image/webp"@[6]);
    }
    assert("image/gif"@.len() != "image/jpeg"@.len());
    assert("image/gif"@.len() != "image/webp"@.len());
    if m == t[0].1 {
        assert(kept_ext(m) == t[0].0);
    } else if m == t[1].1 {
        assert(kept_ext(m) == t[1].0);
    } else if m == t[3].1 {
        assert(kept_ext(m) == t[3].0);
    } else {
        assert(kept_ext(m) == t[4].0);
    }
}

/// A folder after a picture is kept in it: its file is written unless it is
/// there.
pub open spec fn folder_with(
    folder: Map<Seq<char>, Seq<u8>>,
    file: Seq<char>,
    bytes: Seq<u8>,
) -> Map<Seq<char>, Seq<u8>> {
    if folder.contains_key(file) {
        folder
    } else {
        folder.insert(file, bytes)
    }
}

/// A picture that was kept is read back by its id: the file that is found is
/// the one it was kept in, with its bytes and its type. The folder held no
/// picture of that id, or this one already; keeping it again leaves one file.
pub proof fn law_a_kept_picture_is_found(
    folder: Map<Seq<char>, Seq<u8>>,
    there: Seq<Seq<char>>,
    id: Seq<char>,
    extension: Option<Seq<char>>,
    bytes: Seq<u8>,
)
    requires
        mime_of(extension) is Some,
        ({
            let file = kept_name(id, kept_ext(mime_of(extension)->0));
            let after = folder_with(folder, file, bytes);
            &&& forall|i: int|
                0 <= i < picture_types().len() && folder.contains_key(
                    kept_name(id, (#[trigger] picture_types()[i]).0),
                ) ==> kept_name(id, picture_types()[i].0) == file && folder[file] == bytes
            &&& forall|n: Seq<char>| #[trigger] there.contains(n) <==> after.contains_key(n)
        }),
    ensures
        ({
            let mime = mime_of(extension)->0;
            let file = kept_name(id, kept_ext(mime));
            let after = folder_with(folder, file, bytes);
            &&& found_at(id, there, 0) == Some((file, mime))
            &&& after[file] == bytes
            &&& folder_with(after, file, bytes) == after
            &&& after.dom() == folder.dom().insert(file)
        }),
{
    let mime = mime_of(extension)->0;
    let ext = kept_ext(mime);
    let file = kept_name(id, ext);
    let after = folder_with(folder, file, bytes);
    let t = picture_types();
    law_a_kept_picture_is_looked_for(extension);
    lemma_one_place();
    let k = choose|k: int| 0 <= k < t.len() && (#[trigger] t[k]).0 == ext && t[k].1 == mime;
    assert forall|i: int| 0 <= i < t.len() && i != k implies !there.contains(
        kept_name(id, (#[trigger] t[i]).0),
    ) by {
        let other = kept_name(id, t[i].0);
        assert(t[i].0 != ext);
        if other == file {
            let n = (id + "."@).len() as int;
            assert(other.skip(n) =~= t[i].0);
            assert(file.skip(n) =~= ext);
        }
        if there.contains(other) {
            assert(after.contains_key(other));
            assert(folder.contains_key(other));
        }
    }
    assert(there.contains(file)) by {
        assert(after.contains_key(file));
    }
    if folder.contains_key(file) {
        assert(kept_name(id, t[k].0) == file);
        assert(folder.dom().insert(file) =~= folder.dom());
    }
    assert(after.dom() =~= folder.dom().insert(file));
    lemma_found(id, there, file, mime, k, 0);
}

proof fn lemma_found(
    id: Seq<char>,
    there: Seq<Seq<char>>,
    file: Seq<char>,
    mime: Seq<char>,
    k: int,
    i: int,
)
    requires
        0 <= i <= k < picture_types().len(),
        kept_name(id, picture_types()[k].0) == file,
        picture_types()[k].1 == mime,
        there.contains(file),
        forall|j: int|
            0 <= j < k ==> !there.contains(kept_name(id, (#[trigger] picture_types()[j]).0)),
    ensures
        found_at(id, there, i) == Some((file, mime)),
    decreases k - i,
{
    if i < k {
        assert(!there.contains(kept_name(id, picture_types()[i].0)));
        lemma_found(id, there, file, mime, k, i + 1);
    }
}

/// No two places that are looked in end alike.
proof fn lemma_one_place()
    ensures
        forall|i: int, j: int|
            0 <= i < picture_types().len() && 0 <= j < picture_types().len() && i != j ==> (
            #[trigger] picture_types()[i]).0 != (#[trigger] picture_types()[j]).0,
{
    reveal_strlit("png");
    reveal_strlit("jpg");
    reveal_strlit("jpeg");
    reveal_strlit("webp");
    reveal_strlit("gif");
    let (a, b, c, d, e) = ("png"@, "jpg"@, "jpeg"@, "webp"@, "gif"@);
    assert(a.len() == 3 && b.len() == 3 && c.len() == 4 && d.len() == 4 && e.len() == 3);
    assert(a[0] == 'p' && b[0] == 'j' && e[0] == 'g' && c[0] == 'j' && d[0] == 'w');
}

} // verus!
