//! Files: what is read, kept and refused; and what is set, and what is newer.
use vstd::prelude::*;

use crate::attach::{
    documents_in, folder_with, found_at, handled, is_picture_id, kept_ext, kept_name, mime_of,
    picture_types, pictures_in, refusals_in, Dropped, DroppedFile, Handling, MAX_BYTES, MAX_CHARS,
    MAX_PICTURE_BYTES,
};
use crate::commands::shown_mime;
use crate::diag::{pretty_name, unquoted_end, unquoted_start};
use crate::erase::{pieces, CHUNK};
use crate::gateway::access::{
    SETTING_GATEWAY, SETTING_GATEWAY_MODEL, SETTING_GATEWAY_PORT, SETTING_GATEWAY_SUBSTITUTE,
};
use crate::protocol::JobKind;
use crate::results::{ext_of, file_name, hash_fault, path_shaped, payload_word, MAX_LOCAL_READ};
use crate::state::{
    entries, good_port, known_settings, setting_fault, shown_port, SETTING_BOOTSTRAP,
    SETTING_DEFAULT_IMAGE, SETTING_DEFAULT_LLM, SETTING_DEFAULT_PEER, SETTING_DISCOVERY,
    SETTING_DOWNLOAD_DIR, SETTING_MOCK_WORKER, SETTING_SIGN_JOBS, SETTING_THEME,
};
use crate::text::{blank, decimal, lower, lowercased, starts_with, trimmed};
use crate::update::{bare, is_newer, named_version, version_of, VersionBody};

verus! {

broadcast use vstd::string::group_string_axioms;

// ------------------------------------------------------------------ results

/// A result stands where its bytes hash to what was claimed, capitals or not;
/// where nothing was claimed, only a worker on this machine is believed.
pub proof fn law_when_a_result_stands(actual: Seq<char>, claimed: Seq<char>, local: bool)
    ensures
        claimed.len() > 0 ==> (hash_fault(actual, claimed, local) is None <==> lower(actual)
            == lower(claimed)),
        hash_fault(actual, seq![], true) is None,
        hash_fault(actual, seq![], false) is Some,
        actual.len() > 0 ==> hash_fault(actual, actual, local) is None,
        claimed.len() > 0 && claimed.len() != actual.len() ==> hash_fault(actual, claimed, local)
            is Some,
{
    if lower(actual) == lower(claimed) {
        assert(lower(actual).len() == actual.len());
        assert(lower(claimed).len() == claimed.len());
    }
}

/// What begins with a slash has the shape of a path.
pub proof fn law_a_slash_makes_a_path(rest: Seq<char>)
    ensures
        path_shaped("/"@ + rest),
{
    assert(("/"@ + rest).take("/"@.len() as int) =~= "/"@);
}

/// A file's first bytes tell its kind, whatever follows.
pub proof fn law_the_first_bytes_tell_the_kind(rest: Seq<u8>, size: Seq<u8>)
    requires
        size.len() == 4,
        size != seq![0x89u8, 0x50, 0x4e, 0x47],
        size[0] != 0xff && size[0] != 0x52 && size[0] != 0x47,
    ensures
        ext_of(seq![0x89u8, 0x50, 0x4e, 0x47, 0x0d, 0x0a, 0x1a, 0x0a] + rest) == "png"@,
        ext_of(seq![0xffu8, 0xd8, 0xff] + rest) == "jpg"@,
        ext_of(seq![0x52u8, 0x49, 0x46, 0x46] + size + seq![0x57u8, 0x45, 0x42, 0x50] + rest)
            == "webp"@,
        ext_of(seq![0x47u8, 0x49, 0x46, 0x38, 0x37, 0x61] + rest) == "gif"@,
        ext_of(seq![0x47u8, 0x49, 0x46, 0x38, 0x39, 0x61] + rest) == "gif"@,
        ext_of(size + seq![0x66u8, 0x74, 0x79, 0x70] + rest) == "mp4"@,
        ext_of(seq![0x1au8, 0x45, 0xdf, 0xa3]) == "webm"@,
        ext_of(seq![]) == "bin"@,
{
    let png = seq![0x89u8, 0x50, 0x4e, 0x47, 0x0d, 0x0a, 0x1a, 0x0a];
    assert((png + rest).subrange(0, 8) =~= png);
    let jpg = seq![0xffu8, 0xd8, 0xff];
    lemma_other_start(jpg + rest, 8, png);
    assert((jpg + rest).subrange(0, 3) =~= jpg);
    let riff = seq![0x52u8, 0x49, 0x46, 0x46];
    let webp = seq![0x57u8, 0x45, 0x42, 0x50];
    let w = riff + size + webp + rest;
    lemma_other_start(w, 8, png);
    lemma_other_start(w, 3, jpg);
    assert(w.subrange(0, 4) =~= riff);
    assert(w.subrange(8, 12) =~= webp);
    let g7 = seq![0x47u8, 0x49, 0x46, 0x38, 0x37, 0x61];
    let g9 = seq![0x47u8, 0x49, 0x46, 0x38, 0x39, 0x61];
    lemma_other_start(g7 + rest, 8, png);
    lemma_other_start(g7 + rest, 3, jpg);
    lemma_other_start(g7 + rest, 4, riff);
    assert((g7 + rest).subrange(0, 6) =~= g7);
    lemma_other_start(g9 + rest, 8, png);
    lemma_other_start(g9 + rest, 3, jpg);
    lemma_other_start(g9 + rest, 4, riff);
    assert((g9 + rest).subrange(0, 6) =~= g9);
    let box_mark = seq![0x66u8, 0x74, 0x79, 0x70];
    let m = size + box_mark + rest;
    if m.subrange(0, 8) == png {
        assert(m.subrange(0, 8)[4] == 0x66);
    }
    lemma_other_start(m, 3, jpg);
    lemma_other_start(m, 4, riff);
    lemma_other_start(m, 6, g7);
    lemma_other_start(m, 6, g9);
    assert(m.subrange(4, 8) =~= box_mark);
    let e = seq![0x1au8, 0x45, 0xdf, 0xa3];
    lemma_other_start(e, 3, jpg);
    lemma_other_start(e, 4, riff);
    assert(e.subrange(0, 4) =~= e);
}

proof fn lemma_other_start(b: Seq<u8>, n: int, mark: Seq<u8>)
    requires
        b.len() > 0,
        n == mark.len() > 0,
        b[0] != mark[0],
    ensures
        n <= b.len() ==> b.subrange(0, n) != mark,
{
    if n <= b.len() && b.subrange(0, n) == mark {
        assert(b.subrange(0, n)[0] == b[0]);
    }
}

/// A film is told as one, and anything else as a picture.
pub proof fn law_a_film_is_called_one(kind: JobKind)
    ensures
        kind == JobKind::Video ==> payload_word(kind) == "video"@,
        kind != JobKind::Video ==> payload_word(kind) == "image"@,
{
}

/// The file a result is kept in ends in the name of its kind, so that the
/// same kind is told again when it is shown.
pub proof fn law_a_kept_file_shows_its_kind(bytes: Seq<u8>)
    ensures
        crate::text::ends_with(file_name(bytes), "."@ + ext_of(bytes)),
        crate::text::starts_with(file_name(bytes), "rootmode-"@),
        shown_mime(Some("jpg"@)) == "image/jpeg"@,
        shown_mime(Some("jpeg"@)) == "image/jpeg"@,
        shown_mime(Some("png"@)) == "image/png"@,
        shown_mime(Some("webp"@)) == "image/webp"@,
        shown_mime(Some("gif"@)) == "image/gif"@,
        shown_mime(Some("mp4"@)) == "video/mp4"@,
        shown_mime(Some("webm"@)) == "video/webm"@,
        shown_mime(Some("mov"@)) == "video/quicktime"@,
        shown_mime(None) == "image/png"@,
{
    let f = file_name(bytes);
    let end = "."@ + ext_of(bytes);
    assert(f.skip(f.len() - end.len()) =~= end);
    assert(f.take("rootmode-"@.len() as int) =~= "rootmode-"@);
    lemma_ends();
}

proof fn lemma_ends()
    ensures
        "png"@ != "jpg"@ && "png"@ != "jpeg"@ && "png"@ != "webp"@ && "png"@ != "gif"@ && "png"@
            != "mp4"@ && "png"@ != "webm"@ && "png"@ != "mov"@,
        "webp"@ != "jpg"@ && "webp"@ != "jpeg"@ && "webp"@ != "gif"@,
        "gif"@ != "jpg"@ && "gif"@ != "jpeg"@ && "gif"@ != "webp"@,
        "mp4"@ != "jpg"@ && "mp4"@ != "jpeg"@ && "mp4"@ != "webp"@ && "mp4"@ != "gif"@,
        "webm"@ != "jpg"@ && "webm"@ != "jpeg"@ && "webm"@ != "webp"@ && "webm"@ != "gif"@
            && "webm"@ != "mp4"@,
        "mov"@ != "jpg"@ && "mov"@ != "jpeg"@ && "mov"@ != "webp"@ && "mov"@ != "gif"@ && "mov"@
            != "mp4"@ && "mov"@ != "webm"@,
{
    reveal_strlit("png");
    reveal_strlit("jpg");
    reveal_strlit("jpeg");
    reveal_strlit("webp");
    reveal_strlit("gif");
    reveal_strlit("mp4");
    reveal_strlit("webm");
    reveal_strlit("mov");
    assert("png"@.len() == 3 && "jpg"@.len() == 3 && "jpeg"@.len() == 4 && "webp"@.len() == 4);
    assert("gif"@.len() == 3 && "mp4"@.len() == 3 && "webm"@.len() == 4 && "mov"@.len() == 3);
    assert("png"@[0] == 'p' && "jpg"@[0] == 'j' && "gif"@[0] == 'g' && "mp4"@[0] == 'm');
    assert("jpeg"@[0] == 'j' && "webp"@[0] == 'w' && "webm"@[0] == 'w' && "mov"@[0] == 'm');
    assert("mp4"@[1] == 'p' && "mov"@[1] == 'o' && "webp"@[3] == 'p' && "webm"@[3] == 'm');
}

/// Sixty-four megabytes of a document are read and twenty-five of a picture,
/// and a hundred thousand characters are carried.
pub proof fn law_how_much_is_read()
    ensures
        MAX_BYTES == 64 * 1024 * 1024 && MAX_LOCAL_READ == 64 * 1024 * 1024,
        MAX_PICTURE_BYTES == 25 * 1024 * 1024,
        MAX_CHARS == 100_000,
{
}

// ----------------------------------------------------------------- pictures

/// A picture is told by the end of its name, in capitals or not.
pub proof fn law_a_picture_is_told_by_its_name(e: Seq<char>)
    ensures
        mime_of(None) is None,
        lowercased(e) == "png"@ ==> mime_of(Some(e)) == Some("image/png"@),
        lowercased(e) == "jpg"@ || lowercased(e) == "jpeg"@ ==> mime_of(Some(e)) == Some(
            "image/jpeg"@,
        ),
        lowercased(e) == "webp"@ ==> mime_of(Some(e)) == Some("image/webp"@),
        lowercased(e) == "gif"@ ==> mime_of(Some(e)) == Some("image/gif"@),
        mime_of(Some(e)) is Some ==> lowercased(e) == "png"@ || lowercased(e) == "jpg"@
            || lowercased(e) == "jpeg"@ || lowercased(e) == "webp"@ || lowercased(e) == "gif"@,
{
    lemma_ends();
}

/// A picture is kept where it is looked for, under the type that it came with.
pub proof fn law_a_kept_picture_is_found(
    id: Seq<char>,
    extension: Option<Seq<char>>,
    there: Seq<Seq<char>>,
)
    requires
        mime_of(extension) is Some,
        is_picture_id(id),
        there.contains(kept_name(id, kept_ext(mime_of(extension).unwrap()))),
        forall|i: int|
            0 <= i < 5 && picture_types()[i].0 != kept_ext(mime_of(extension).unwrap())
                ==> !there.contains(#[trigger] kept_name(id, picture_types()[i].0)),
    ensures
        found_at(id, there, 0) == Some(
            (
                kept_name(id, kept_ext(mime_of(extension).unwrap())),
                mime_of(extension).unwrap(),
            ),
        ),
{
    lemma_ends();
    reveal_strlit("image/png");
    reveal_strlit("image/jpeg");
    reveal_strlit("image/webp");
    reveal_strlit("image/gif");
    assert("image/png"@.len() == 9 && "image/jpeg"@.len() == 10 && "image/webp"@.len() == 10
        && "image/gif"@.len() == 9);
    assert("image/png"@[6] == 'p' && "image/jpeg"@[6] == 'j' && "image/webp"@[6] == 'w'
        && "image/gif"@[6] == 'g');
    let ext = kept_ext(mime_of(extension).unwrap());
    assert(ext == "png"@ || ext == "jpg"@ || ext == "webp"@ || ext == "gif"@);
    assert("gif"@ != "png"@ && "webp"@ != "png"@ && "jpg"@ != "png"@) by {
        lemma_ends();
    }
    assert(picture_types()[0].0 == "png"@ && picture_types()[1].0 == "jpg"@
        && picture_types()[2].0 == "jpeg"@ && picture_types()[3].0 == "webp"@
        && picture_types()[4].0 == "gif"@);
    assert(picture_types().len() == 5);
    reveal_with_fuel(found_at, 6);
    let a = kept_name(id, picture_types()[0].0);
    let b = kept_name(id, picture_types()[1].0);
    let c = kept_name(id, picture_types()[2].0);
    let d = kept_name(id, picture_types()[3].0);
    let e = kept_name(id, picture_types()[4].0);
}

/// What has a picture's end of the name is kept where there is a place, and
/// refused where there is none; anything else is read.
pub proof fn law_how_a_drop_is_handled(extension: Option<Seq<char>>, has_dir: bool)
    ensures
        handled(extension, has_dir) == Handling::Read <==> mime_of(extension) is None,
        mime_of(extension) is Some ==> handled(extension, true) == Handling::Keep && handled(
            extension,
            false,
        ) == Handling::Refuse,
{
}

/// Each dropped file adds what came of it, behind what came before, and takes
/// nothing away.
pub proof fn law_each_drop_adds_what_came_of_it(all: Seq<DroppedFile>, f: DroppedFile)
    ensures
        f.came matches Dropped::Document(Ok(a)) ==> documents_in(all.push(f)) == documents_in(
            all,
        ).push(a) && pictures_in(all.push(f)) == pictures_in(all) && refusals_in(all.push(f))
            == refusals_in(all),
        f.came matches Dropped::Picture(Ok(p)) ==> pictures_in(all.push(f)) == pictures_in(
            all,
        ).push(p) && documents_in(all.push(f)) == documents_in(all) && refusals_in(all.push(f))
            == refusals_in(all),
        f.came matches Dropped::Document(Err(e)) ==> refusals_in(all.push(f)) == refusals_in(
            all,
        ).push(e@.words()) && documents_in(all.push(f)) == documents_in(all) && pictures_in(
            all.push(f),
        ) == pictures_in(all),
        f.came matches Dropped::Picture(Err(e)) ==> refusals_in(all.push(f)) == refusals_in(
            all,
        ).push(e@.words()) && documents_in(all.push(f)) == documents_in(all) && pictures_in(
            all.push(f),
        ) == pictures_in(all),
        f.came is Homeless ==> refusals_in(all.push(f)).len() == refusals_in(all).len() + 1
            && documents_in(all.push(f)) == documents_in(all) && pictures_in(all.push(f))
            == pictures_in(all),
{
    assert(all.push(f).drop_last() =~= all);
}

/// A folder holds a picture that was kept in it, and all that it held before
/// as it was.
pub proof fn law_a_folder_holds_what_is_kept(
    folder: Map<Seq<char>, Seq<u8>>,
    file: Seq<char>,
    bytes: Seq<u8>,
    other: Seq<char>,
)
    ensures
        folder_with(folder, file, bytes).contains_key(file),
        !folder.contains_key(file) ==> folder_with(folder, file, bytes)[file] == bytes,
        folder.contains_key(other) ==> folder_with(folder, file, bytes).contains_key(other)
            && folder_with(folder, file, bytes)[other] == folder[other],
        folder_with(folder, file, bytes).contains_key(other) ==> folder.contains_key(other)
            || other == file,
{
}

// ----------------------------------------------------------------- versions

/// A release is newer where the first number that differs is larger.
pub proof fn law_the_first_number_that_differs_decides(
    current: Seq<char>,
    latest: Seq<char>,
    c: (u64, u64, u64),
    l: (u64, u64, u64),
)
    requires
        version_of(current) == Some(c),
        version_of(latest) == Some(l),
    ensures
        l.0 > c.0 ==> is_newer(current, latest),
        l.0 < c.0 ==> !is_newer(current, latest),
        l.0 == c.0 && l.1 > c.1 ==> is_newer(current, latest),
        l.0 == c.0 && l.1 < c.1 ==> !is_newer(current, latest),
        l.0 == c.0 && l.1 == c.1 ==> (is_newer(current, latest) <==> l.2 > c.2),
{
}

/// What is no version is never newer, nor is anything newer than it.
pub proof fn law_only_versions_are_newer(a: Seq<char>, b: Seq<char>)
    ensures
        version_of(a) is None ==> !is_newer(a, b) && !is_newer(b, a),
{
}

/// A version is its three numbers with a point between each two; the third may
/// be left out.
pub proof fn law_a_version_is_its_numbers(a: u64, b: u64, c: u64, s: Seq<char>)
    ensures
        bare(s) == decimal(a as nat) + seq!['.'] + decimal(b as nat) + seq!['.'] + decimal(c as nat)
            ==> version_of(s) == Some((a, b, c)),
        bare(s) == decimal(a as nat) + seq!['.'] + decimal(b as nat) ==> version_of(s) == Some(
            (a, b, 0u64),
        ),
{
    let x = decimal(a as nat);
    let y = decimal(b as nat);
    let z = decimal(c as nat);
    crate::laws::texts::law_a_number_is_read_back(a);
    crate::laws::texts::law_a_number_is_read_back(b);
    crate::laws::texts::law_a_number_is_read_back(c);
    crate::laws::texts::lemma_no_point(a as nat);
    crate::laws::texts::lemma_no_point(b as nat);
    crate::laws::texts::lemma_no_point(c as nat);
    crate::laws::texts::lemma_split_front(x, y + seq!['.'] + z, '.');
    crate::laws::texts::lemma_split_front(y, z, '.');
    crate::laws::texts::lemma_split_front(x, y, '.');
    crate::laws::texts::lemma_split_none(z, '.');
    crate::laws::texts::lemma_split_none(y, '.');
    assert(x + seq!['.'] + (y + seq!['.'] + z) =~= x + seq!['.'] + y + seq!['.'] + z);
}

/// The version that an answer names is its `version`, or its tag where it has
/// none, without a `v` in front.
pub proof fn law_an_answer_names_its_version(body: VersionBody)
    ensures
        body.version@.len() > 0 && bare(body.version@).len() > 0 ==> named_version(body) == Some(
            bare(body.version@),
        ),
        body.version@.len() == 0 && body.tag@.len() > 0 && bare(body.tag@).len() > 0
            ==> named_version(body) == Some(bare(body.tag@)),
        body.version@.len() == 0 && body.tag@.len() == 0 && bare(body.tag_name@).len() > 0
            ==> named_version(body) == Some(bare(body.tag_name@)),
        named_version(body) matches Some(v) ==> v.len() > 0,
{
}

// ----------------------------------------------------------------- settings

/// A setting is refused only where nobody knows it, where an entry point is
/// none, where a port is none, or where a folder is not told from the root.
pub proof fn law_what_can_be_set(
    key: Seq<char>,
    value: Seq<char>,
    entries_fault: Option<Seq<char>>,
    absolute: bool,
)
    ensures
        !known_settings().contains(key) ==> setting_fault(key, value, entries_fault, absolute)
            is Some,
        key == SETTING_THEME@ || key == SETTING_SIGN_JOBS@ || key == SETTING_DISCOVERY@ || key
            == SETTING_MOCK_WORKER@ || key == SETTING_GATEWAY@ || key
            == SETTING_GATEWAY_SUBSTITUTE@ || key == SETTING_GATEWAY_MODEL@ || key
            == SETTING_DEFAULT_PEER@ || key == SETTING_DEFAULT_LLM@ || key
            == SETTING_DEFAULT_IMAGE@ ==> setting_fault(key, value, entries_fault, absolute)
            is None,
        key == SETTING_BOOTSTRAP@ ==> setting_fault(key, value, entries_fault, absolute)
            == entries_fault,
        key == SETTING_GATEWAY_PORT@ ==> (setting_fault(key, value, entries_fault, absolute) is None
            <==> blank(value) || good_port(value)),
        key == SETTING_DOWNLOAD_DIR@ ==> (setting_fault(key, value, entries_fault, absolute) is None
            <==> blank(value) || absolute),
{
    reveal_strlit("download_dir");
    reveal_strlit("default_peer");
    reveal_strlit("default_llm_model");
    reveal_strlit("default_image_model");
    reveal_strlit("theme");
    reveal_strlit("sign_jobs");
    reveal_strlit("bootstrap");
    reveal_strlit("discovery");
    reveal_strlit("mock_worker");
    reveal_strlit("gateway");
    reveal_strlit("gateway_port");
    reveal_strlit("gateway_substitute");
    reveal_strlit("gateway_model");
    assert("download_dir"@.len() == 12);
    assert("default_peer"@.len() == 12);
    assert("default_llm_model"@.len() == 17);
    assert("default_image_model"@.len() == 19);
    assert("theme"@.len() == 5);
    assert("sign_jobs"@.len() == 9);
    assert("bootstrap"@.len() == 9);
    assert("discovery"@.len() == 9);
    assert("mock_worker"@.len() == 11);
    assert("gateway"@.len() == 7);
    assert("gateway_port"@.len() == 12);
    assert("gateway_substitute"@.len() == 18);
    assert("gateway_model"@.len() == 13);
    assert("download_dir"@[1] == 'o');
    assert("default_peer"@[1] == 'e');
    assert("download_dir"@[0] == 'd');
    assert("gateway_port"@[0] == 'g');
    assert("default_peer"@[0] == 'd');
    assert("sign_jobs"@[0] == 's');
    assert("bootstrap"@[0] == 'b');
    assert("discovery"@[0] == 'd');
    let k = known_settings();
    assert(k.len() == 13);
    assert(k[0] == SETTING_DOWNLOAD_DIR@ && k[1] == SETTING_DEFAULT_PEER@ && k[2]
        == SETTING_DEFAULT_LLM@ && k[3] == SETTING_DEFAULT_IMAGE@ && k[4] == SETTING_THEME@ && k[5]
        == SETTING_SIGN_JOBS@ && k[6] == SETTING_BOOTSTRAP@ && k[7] == SETTING_DISCOVERY@ && k[8]
        == SETTING_MOCK_WORKER@ && k[9] == SETTING_GATEWAY@ && k[10] == SETTING_GATEWAY_PORT@
        && k[11] == SETTING_GATEWAY_SUBSTITUTE@ && k[12] == SETTING_GATEWAY_MODEL@);
}

/// A port from 1024 up that fits is good, and shown as it is set; without one
/// the port is 11435.
pub proof fn law_a_good_port_is_shown(n: u64, s: Seq<char>)
    requires
        trimmed(s) == decimal(n as nat),
    ensures
        good_port(s) <==> 1024 <= n <= 65535,
        n <= 65535 ==> shown_port(Some(s)) == n,
        n > 65535 ==> shown_port(Some(s)) == 11435,
        shown_port(None) == 11435,
{
    crate::laws::texts::law_a_number_is_read_back(n);
}

/// Each line that is neither blank nor a comment is an entry point.
pub proof fn law_each_line_is_an_entry(ls: Seq<Seq<char>>, l: Seq<char>)
    ensures
        entries(seq![]) == Seq::<Seq<char>>::empty(),
        trimmed(l).len() > 0 && trimmed(l)[0] != '#' ==> entries(ls.push(l)) == entries(ls).push(
            trimmed(l),
        ),
        trimmed(l).len() == 0 ==> entries(ls.push(l)) == entries(ls),
        trimmed(l).len() > 0 && trimmed(l)[0] == '#' ==> entries(ls.push(l)) == entries(ls),
{
    reveal_strlit("#");
    let t = trimmed(l);
    assert("#"@.len() == 1 && "#"@[0] == '#');
    assert(ls.push(l).drop_last() =~= ls);
    if t.len() > 0 {
        assert(t.take(1)[0] == t[0]);
        if t[0] == '#' {
            assert(t.take(1) =~= "#"@);
        }
    }
}

// ---------------------------------------------------------------- leftovers

/// No piece that is overwritten is empty or larger than 64 KB, and all but the
/// last are of that size.
pub proof fn law_pieces_are_full_but_the_last(len: nat)
    requires
        len <= u64::MAX,
    ensures
        forall|i: int|
            0 <= i < pieces(len).len() ==> 0 < #[trigger] pieces(len)[i] <= 65536 && (i
                < pieces(len).len() - 1 ==> pieces(len)[i] == 65536),
    decreases len,
{
    if len > CHUNK {
        let rest = (len - CHUNK) as nat;
        law_pieces_are_full_but_the_last(rest);
        assert forall|i: int| 0 <= i < pieces(len).len() implies 0 < #[trigger] pieces(len)[i]
            <= 65536 && (i < pieces(len).len() - 1 ==> pieces(len)[i] == 65536) by {
            if i > 0 {
                assert(pieces(len)[i] == pieces(rest)[i - 1]);
            }
        }
    }
}

/// The name of a system is what its first line of that name says, without the
/// quotes around it.
pub proof fn law_a_system_goes_by_its_pretty_name(
    l: Seq<char>,
    name: Seq<char>,
    rest: Seq<Seq<char>>,
)
    requires
        name.len() > 0 && name[0] != '"' && name.last() != '"',
    ensures
        pretty_name(seq!["PRETTY_NAME="@ + name] + rest) == Some(name),
        pretty_name(seq!["PRETTY_NAME="@ + (seq!['"'] + name + seq!['"'])] + rest) == Some(name),
        !starts_with(l, "PRETTY_NAME="@) ==> pretty_name(seq![l] + rest) == pretty_name(rest),
        pretty_name(seq![]) is None,
{
    let p = "PRETTY_NAME="@;
    let q = seq!['"'] + name + seq!['"'];
    lemma_unquoted(name);
    lemma_first_line_names(p + name, name, rest);
    lemma_first_line_names(p + q, q, rest);
    assert((seq![l] + rest).drop_first() =~= rest);
}

proof fn lemma_first_line_names(l: Seq<char>, v: Seq<char>, rest: Seq<Seq<char>>)
    requires
        l == "PRETTY_NAME="@ + v,
    ensures
        pretty_name(seq![l] + rest) == Some(unquoted_end(unquoted_start(v))),
{
    crate::laws::texts::law_the_rest_follows_the_prefix("PRETTY_NAME="@, v);
    assert((seq![l] + rest)[0] == l);
}

proof fn lemma_unquoted(name: Seq<char>)
    requires
        name.len() > 0 && name[0] != '"' && name.last() != '"',
    ensures
        unquoted_end(unquoted_start(name)) == name,
        unquoted_end(unquoted_start(seq!['"'] + name + seq!['"'])) == name,
{
    let q = seq!['"'] + name + seq!['"'];
    let h = name + seq!['"'];
    assert(q.drop_first() =~= h);
    assert(q[0] == '"');
    assert(h[0] == name[0]);
    assert(h.drop_last() =~= name);
    assert(h.last() == '"');
    reveal_with_fuel(unquoted_start, 2);
    reveal_with_fuel(unquoted_end, 2);
}

} // verus!
