//! A worker that runs in this process, for trying everything without a GPU.
//!
//! The same job gives the same bytes and the same hash every time.
use vstd::prelude::*;
use vstd::string::StringSliceAdditionalSpecFns;
use vstd::utf8::{
    decode_utf8_split, encode_utf8, encode_utf8_decode_utf8, encode_utf8_valid_utf8,
    is_char_boundary, is_char_boundary_start_end_of_seq,
};

use crate::codec::{
    base64_encode, base64_read, base64_written, sha256_hex, sha256_of_text, sha256_text,
};
use crate::json::{Json, Tree};
use crate::net::WorkerMessage;
use crate::protocol::{
    opt, ChatMessage, ImageParams, JobDelta, JobKind, JobResult, JobStatus, JobStatusUpdate,
    LlmParams, ModelDescriptor, PeerAnnounce, Price, VideoParams,
};
use crate::store::MOCK_PEER_ID;
use crate::text::{
    chars_of, concat, concat3, decimal, decimal_of, first_chars, parse_number, parsed, same,
    take_chars, texts, trim, trimmed,
};

verus! {

broadcast use vstd::string::group_string_axioms;

/// How many steps a picture takes.
pub const STEPS: u32 = 6;

/// The size of the mock's pictures.
pub const MOCK_WIDTH: u32 = 768;

pub const MOCK_HEIGHT: u32 = 768;

/// The height of the mock's films; they are as wide as its pictures.
pub const MOCK_VIDEO_HEIGHT: u32 = 432;

/// The worker in this process.
pub struct MockTransport;

fn model(id: &str, kind: JobKind, price: Option<u64>) -> (r: ModelDescriptor)
    ensures
        r.id@ == id@,
        opt(r.sha256) == Some(sha256_text(encode_utf8(id@))),
        r.kind == kind,
        match price {
            Some(n) => r.price matches Some(p) && p.micros == n && p.currency@ == "USD"@,
            None => r.price is None,
        },
        r.video is None,
{
    let asked = match price {
        Some(n) => Some(Price::new(n)),
        None => None,
    };
    ModelDescriptor {
        id: id.to_string(),
        sha256: Some(sha256_of_text(id)),
        kind,
        price: asked,
        video: None,
    }
}

impl MockTransport {
    /// What the worker says of itself. It claims no country, and nothing is
    /// paid to it: it runs here.
    pub fn announce() -> (r: PeerAnnounce)
        ensures
            r.peer_id@ == MOCK_PEER_ID@,
            opt(r.label) == Some("This computer"@),
            r.country is None && r.payout is None,
            texts(r.caps@) == seq!["llm"@, "image"@, "video"@],
            r.models@.len() == 3,
            r.models@[0].id@ == "mock-llm-v0"@ && r.models@[0].kind == JobKind::Llm
                && r.models@[0].listed() == 2_000,
            r.models@[1].id@ == "mock-diffusion-v0"@ && r.models@[1].kind == JobKind::Image
                && r.models@[1].listed() == 2,
            r.models@[2].id@ == "mock-video-v0"@ && r.models@[2].kind == JobKind::Video
                && r.models@[2].unpriced(),
            forall|i: int|
                0 <= i < 3 ==> opt((#[trigger] r.models@[i]).sha256) == Some(
                    sha256_text(encode_utf8(r.models@[i].id@)),
                ),
            r.models@[0].price matches Some(p) && p.micros == 20_000_000 && p.currency@ == "USD"@,
            r.models@[1].price matches Some(p) && p.micros == 20_000 && p.currency@ == "USD"@,
            forall|i: int| 0 <= i < 3 ==> (#[trigger] r.models@[i]).video is None,
            r.max_concurrent == 2,
    {
        let mut caps: Vec<String> = Vec::new();
        caps.push("llm".to_string());
        caps.push("image".to_string());
        caps.push("video".to_string());
        assert(texts(caps@) =~= seq!["llm"@, "image"@, "video"@]);
        let mut models: Vec<ModelDescriptor> = Vec::new();
        models.push(model("mock-llm-v0", JobKind::Llm, Some(20_000_000)));
        models.push(model("mock-diffusion-v0", JobKind::Image, Some(20_000)));
        models.push(model("mock-video-v0", JobKind::Video, None));
        PeerAnnounce {
            peer_id: MOCK_PEER_ID.to_string(),
            label: Some("This computer".to_string()),
            country: None,
            payout: None,
            caps,
            models,
            max_concurrent: 2,
        }
    }
}

// ------------------------------------------------------------------- pieces

/// Two texts that make up a whole, the first no shorter than half of it in
/// bytes and as short as can be.
pub open spec fn halved(s: Seq<char>, a: Seq<char>, b: Seq<char>) -> bool {
    &&& a + b == s
    &&& encode_utf8(a).len() >= encode_utf8(s).len() / 2
    &&& exists|at: int|
        #[trigger] is_char_boundary(encode_utf8(s), at) && encode_utf8(s).len() / 2 <= at
            && encode_utf8(a) == encode_utf8(s).subrange(0, at) && forall|k: int|
            encode_utf8(s).len() / 2 <= k < at ==> !is_char_boundary(encode_utf8(s), k)
}

fn halve(s: &str) -> (r: (String, String))
    ensures
        halved(s@, r.0@, r.1@),
{
    let ghost bytes = encode_utf8(s@);
    proof {
        encode_utf8_valid_utf8(s@);
        is_char_boundary_start_end_of_seq(bytes);
    }
    let n: usize = s.as_bytes().len();
    let mid: usize = n / 2;
    let mut at: usize = mid;
    while !s.is_char_boundary(at)
        invariant
            bytes == encode_utf8(s@),
            n == bytes.len(),
            mid == n / 2,
            mid <= at <= n,
            is_char_boundary(bytes, n as int),
            forall|k: int| mid <= k < at ==> !is_char_boundary(bytes, k),
        decreases n - at,
    {
        at = at + 1;
    }
    let (a, b) = s.split_at(at);
    proof {
        decode_utf8_split(bytes, at as int);
        encode_utf8_decode_utf8(s@);
        encode_utf8_decode_utf8(a@);
        encode_utf8_decode_utf8(b@);
        assert(a@ + b@ =~= s@);
        assert(is_char_boundary(encode_utf8(s@), at as int));
    }
    (a.to_string(), b.to_string())
}

/// The texts that are not empty.
pub open spec fn not_empty(v: Seq<Seq<char>>) -> Seq<Seq<char>>
    decreases v.len(),
{
    if v.len() == 0 {
        seq![]
    } else if v.last().len() > 0 {
        not_empty(v.drop_last()).push(v.last())
    } else {
        not_empty(v.drop_last())
    }
}

proof fn lemma_not_empty_of_two(a: Seq<char>, b: Seq<char>)
    ensures
        not_empty(seq![a, b]) == (if a.len() > 0 {
            seq![a]
        } else {
            seq![]
        }) + (if b.len() > 0 {
            seq![b]
        } else {
            seq![]
        }),
{
    let two = seq![a, b];
    let one = seq![a];
    assert(two.drop_last() =~= one);
    assert(one.drop_last() =~= seq![]);
    assert(not_empty(one.drop_last()) =~= seq![]);
    assert(not_empty(one) =~= (if a.len() > 0 {
        seq![a]
    } else {
        seq![]
    }));
    assert(not_empty(two) =~= (if a.len() > 0 {
        seq![a]
    } else {
        seq![]
    }) + (if b.len() > 0 {
        seq![b]
    } else {
        seq![]
    }));
}

/// What the mock thinks: its two halves, as far as there is anything in them.
pub fn thinking_pieces(thinking: &str) -> (r: Vec<String>)
    ensures
        exists|a: Seq<char>, b: Seq<char>|
            #[trigger] halved(thinking@, a, b) && texts(r@) == not_empty(seq![a, b]),
{
    let mut out: Vec<String> = Vec::new();
    let (a, b) = halve(thinking);
    let ghost (x, y) = (a@, b@);
    proof {
        lemma_not_empty_of_two(x, y);
    }
    if !a.as_str().is_empty() {
        out.push(a);
    }
    if !b.as_str().is_empty() {
        out.push(b);
    }
    assert(texts(out@) =~= not_empty(seq![x, y]));
    out
}

/// What the mock answers: in one piece when it is short, otherwise in two.
pub fn text_pieces(text: &str) -> (r: Vec<String>)
    ensures
        encode_utf8(text@).len() < 40 ==> r@.len() == 1 && r@[0]@ == text@,
        encode_utf8(text@).len() >= 40 ==> r@.len() == 2 && halved(text@, r@[0]@, r@[1]@),
{
    let mut out: Vec<String> = Vec::new();
    if text.as_bytes().len() < 40 {
        out.push(text.to_string());
        return out;
    }
    let (a, b) = halve(text);
    out.push(a);
    out.push(b);
    out
}

// ------------------------------------------------------------------- answers

/// At most so many characters, with a mark where more were cut.
pub open spec fn cut(s: Seq<char>, max: nat) -> Seq<char> {
    if s.len() <= max {
        s
    } else {
        s.take(max as int) + "…"@
    }
}

pub fn truncate(s: &str, max: usize) -> (r: String)
    ensures
        r@ == cut(s@, max as nat),
{
    let n: usize = chars_of(s).len();
    if n <= max {
        s.to_string()
    } else {
        concat(take_chars(s, max).as_str(), "…")
    }
}

/// The last thing the user said, without white space around it.
pub open spec fn last_prompt(ms: Seq<ChatMessage>) -> Seq<char>
    decreases ms.len(),
{
    if ms.len() == 0 {
        trimmed(""@)
    } else if ms.last().role@ == "user"@ {
        trimmed(ms.last().content@)
    } else {
        last_prompt(ms.drop_last())
    }
}

fn prompt_of(ms: &Vec<ChatMessage>) -> (r: String)
    ensures
        r@ == last_prompt(ms@),
{
    let mut n: usize = ms.len();
    assert(ms@.take(n as int) =~= ms@);
    while n > 0
        invariant
            n <= ms@.len(),
            last_prompt(ms@) == last_prompt(ms@.take(n as int)),
        decreases n,
    {
        let m = &ms[n - 1];
        assert(ms@.take(n as int).last() == *m);
        if same(m.role.as_str(), "user") {
            return trim(m.content.as_str());
        }
        assert(ms@.take(n as int).drop_last() =~= ms@.take(n as int - 1));
        n = n - 1;
    }
    trim("")
}

pub open spec fn model_or(id: Option<Seq<char>>, other: Seq<char>) -> Seq<char> {
    match id {
        Some(m) => m,
        None => other,
    }
}

/// What the mock answers. `temperature` is the number in words.
pub open spec fn mock_text(
    prompt: Seq<char>,
    model: Seq<char>,
    max_tokens: u32,
    temperature: Seq<char>,
) -> Seq<char> {
    "[mock worker] no weights were loaded; this response is generated locally.\n\nprompt ("@
        + decimal(prompt.len()) + " chars): "@ + cut(prompt, 240) + "\nmodel: "@ + model
        + "\nmax_tokens: "@ + decimal(max_tokens as nat) + "  temperature: "@ + temperature
        + "\n\nPoint rootmode at a real peer to get real inference. The message shape, the job id and the sha256 below are identical to what a real worker returns."@
}

pub open spec fn mock_thinking(prompt: Seq<char>) -> Seq<char> {
    "The user asked: "@ + cut(prompt, 80) + ". I'll answer as the mock worker."@
}

/// The mock's answer to a chat. `temperature` is the number in words.
pub fn llm_result(job_id: u128, p: &LlmParams, temperature: &str) -> (r: (String, JobResult))
    ensures
        ({
            let prompt = last_prompt(p.messages@);
            let model = model_or(opt(p.model_id), "mock-llm-v0"@);
            let text = mock_text(prompt, model, p.max_tokens, temperature@);
            &&& r.0@ == mock_thinking(prompt)
            &&& r.1.job_id == job_id
            &&& r.1.kind == JobKind::Llm
            &&& r.1.sha256@ == sha256_text(encode_utf8(text))
            &&& opt(r.1.text) == Some(text)
            &&& r.1.image_path_or_b64 is None
            &&& r.1.tool_calls@.len() == 0
            &&& opt(r.1.thinking) == Some(mock_thinking(prompt))
            &&& r.1.meta@ == Tree::record().with("model"@, Tree::Text(model)).with(
                "mock"@,
                Tree::Bool(true),
            ).with("total_tokens"@, Tree::Number(1000))
        }),
{
    let prompt = prompt_of(&p.messages);
    let model = match &p.model_id {
        Some(m) => m.clone(),
        None => "mock-llm-v0".to_string(),
    };
    let count: usize = chars_of(prompt.as_str()).len();
    let mut text = concat3(
        "[mock worker] no weights were loaded; this response is generated locally.\n\nprompt (",
        decimal_of(count as u64).as_str(),
        " chars): ",
    );
    text.append(truncate(prompt.as_str(), 240).as_str());
    text.append("\nmodel: ");
    text.append(model.as_str());
    text.append("\nmax_tokens: ");
    text.append(decimal_of(p.max_tokens as u64).as_str());
    text.append("  temperature: ");
    text.append(temperature);
    text.append(
        "\n\nPoint rootmode at a real peer to get real inference. The message shape, the job id and the sha256 below are identical to what a real worker returns.",
    );
    let thinking = concat3(
        "The user asked: ",
        truncate(prompt.as_str(), 80).as_str(),
        ". I'll answer as the mock worker.",
    );
    let result = JobResult {
        job_id,
        kind: JobKind::Llm,
        sha256: sha256_of_text(text.as_str()),
        text: Some(text),
        image_path_or_b64: None,
        tool_calls: Vec::new(),
        thinking: Some(thinking.clone()),
        meta: Json::record().with("model", Json::text(model.as_str())).with(
            "mock",
            Json::Bool(true),
        ).with("total_tokens", Json::Number(1000)),
    };
    (thinking, result)
}

// ------------------------------------------------------------------ pictures

/// The number a text is drawn from: the first digits of its hash.
pub open spec fn seed_of(s: Seq<char>) -> u64 {
    match parsed(first_chars(sha256_text(encode_utf8(s)), 16), 16) {
        Some(n) => n,
        None => 0,
    }
}

pub fn seed_from(prompt: &str) -> (r: u64)
    ensures
        r == seed_of(prompt@),
{
    let digest = sha256_of_text(prompt);
    match parse_number(take_chars(digest.as_str(), 16).as_str(), 16) {
        Some(n) => n,
        None => 0,
    }
}

/// The seed of a picture: its words, and the picture it starts from.
pub open spec fn picture_seed(prompt: Seq<char>, from: Option<Seq<char>>) -> u64 {
    match from {
        None => seed_of(prompt),
        Some(f) => seed_of(prompt) ^ seed_of(f),
    }
}

pub fn seed_for(prompt: &str, from: &Option<String>) -> (r: u64)
    ensures
        r == picture_seed(prompt@, opt(*from)),
{
    match from {
        None => seed_from(prompt),
        Some(f) => seed_from(prompt) ^ seed_from(f.as_str()),
    }
}

/// One step of the generator that the grain is drawn with.
pub open spec fn stirred(s: u64) -> u64 {
    let a = s ^ (s >> 12);
    let b = a ^ (a << 25);
    b ^ (b >> 27)
}

/// The state after so many steps.
pub open spec fn stirred_times(seed: u64, n: nat) -> u64
    decreases n,
{
    if n == 0 {
        seed | 1
    } else {
        stirred(stirred_times(seed, (n - 1) as nat))
    }
}

/// What is drawn from a state: its product with a constant, wrapped around,
/// and of that the highest byte.
pub open spec fn drawn(s: u64) -> u8 {
    ((s * 0x2545_F491_4F6C_DD1D % 0x1_0000_0000_0000_0000) / 0x100_0000_0000_0000) as u8
}

/// The sixty-four numbers a picture's grain is made of.
pub fn grain(seed: u64) -> (r: Vec<u8>)
    ensures
        r@.len() == 64,
        forall|i: int|
            0 <= i < 64 ==> #[trigger] r@[i] == drawn(stirred_times(seed, (i + 1) as nat)),
{
    let mut out: Vec<u8> = Vec::new();
    let mut state: u64 = seed | 1;
    while out.len() < 64
        invariant
            out@.len() <= 64,
            state == stirred_times(seed, out@.len()),
            forall|i: int|
                0 <= i < out@.len() ==> #[trigger] out@[i] == drawn(
                    stirred_times(seed, (i + 1) as nat),
                ),
        decreases 64 - out@.len(),
    {
        let a: u64 = state ^ (state >> 12);
        let b: u64 = a ^ (a << 25);
        state = b ^ (b >> 27);
        assert(state as u128 * 0x2545_F491_4F6C_DD1D <= u64::MAX as u128 * 0x2545_F491_4F6C_DD1D)
            by (nonlinear_arith)
            requires
                state <= u64::MAX,
        ;
        let wide: u128 = state as u128 * 0x2545_F491_4F6C_DD1Du128;
        let low: u64 = (wide % 0x1_0000_0000_0000_0000u128) as u64;
        out.push((low / 0x100_0000_0000_0000) as u8);
    }
    out
}

/// The bytes `png` writes for an eight-bit RGB picture.
pub uninterp spec fn png_bytes(width: u32, height: u32, rgb: Seq<u8>) -> Seq<u8>;

/// The eight bytes every PNG begins with.
pub open spec fn png_mark() -> Seq<u8> {
    seq![0x89u8, 0x50, 0x4e, 0x47, 0x0d, 0x0a, 0x1a, 0x0a]
}

/// `png::Encoder` writes an eight-bit RGB picture, which begins with the
/// signature of the format.
#[verifier::external_body]
fn png_encode(width: u32, height: u32, rgb: &Vec<u8>) -> (r: Vec<u8>)
    requires
        0 < width <= 4096,
        0 < height <= 4096,
        rgb@.len() == width * height * 3,
    ensures
        r@ == png_bytes(width, height, rgb@),
        r@.len() >= 8,
        r@.take(8) == png_mark(),
{
    let mut out = Vec::new();
    let mut encoder = png::Encoder::new(&mut out, width, height);
    encoder.set_color(png::ColorType::Rgb);
    encoder.set_depth(png::BitDepth::Eight);
    let mut writer = encoder.write_header().expect("png header");
    writer.write_image_data(rgb).expect("png data");
    drop(writer);
    out
}

/// What is told of a picture.
pub open spec fn picture_meta(model: Seq<char>, seed: u64, width: u32, height: u32) -> Tree {
    Tree::record().with("model"@, Tree::Text(model)).with("seed"@, Tree::Number(seed)).with(
        "width"@,
        Tree::Number(width as u64),
    ).with("height"@, Tree::Number(height as u64)).with("mock"@, Tree::Bool(true))
}

/// A result is this picture: its bytes as base64, and their hash.
pub open spec fn shows_picture(r: JobResult, png: Seq<u8>) -> bool {
    &&& r.sha256@ == sha256_text(png)
    &&& opt(r.image_path_or_b64) == Some(base64_written(png))
    &&& base64_read(base64_written(png)) == Some(png)
    &&& r.text is None
    &&& r.thinking is None
    &&& r.tool_calls@.len() == 0
}

fn picture_result(
    job_id: u128,
    kind: JobKind,
    png: &Vec<u8>,
    model: &str,
    seed: u64,
    width: u32,
    height: u32,
) -> (r: JobResult)
    ensures
        r.job_id == job_id,
        r.kind == kind,
        shows_picture(r, png@),
        r.meta@ == picture_meta(model@, seed, width, height),
{
    let text = base64_encode(png.as_slice());
    JobResult {
        job_id,
        kind,
        sha256: sha256_hex(png.as_slice()),
        text: None,
        image_path_or_b64: Some(text),
        tool_calls: Vec::new(),
        thinking: None,
        meta: Json::record().with("model", Json::text(model)).with("seed", Json::Number(seed)).with(
            "width",
            Json::Number(width as u64),
        ).with("height", Json::Number(height as u64)).with("mock", Json::Bool(true)),
    }
}

/// The mock's picture, from the colours of its pixels.
pub fn image_result(job_id: u128, p: &ImageParams, rgb: &Vec<u8>) -> (r: JobResult)
    requires
        rgb@.len() == MOCK_WIDTH * MOCK_HEIGHT * 3,
    ensures
        r.job_id == job_id,
        r.kind == JobKind::Image,
        shows_picture(r, png_bytes(MOCK_WIDTH, MOCK_HEIGHT, rgb@)),
        r.meta@ == picture_meta(
            model_or(opt(p.checkpoint_id), "mock-diffusion-v0"@),
            picture_seed(p.prompt@, opt(p.from_image)),
            MOCK_WIDTH,
            MOCK_HEIGHT,
        ),
{
    let seed: u64 = seed_for(p.prompt.as_str(), &p.from_image);
    let png = png_encode(MOCK_WIDTH, MOCK_HEIGHT, rgb);
    let model = match &p.checkpoint_id {
        Some(m) => m.clone(),
        None => "mock-diffusion-v0".to_string(),
    };
    picture_result(
        job_id,
        JobKind::Image,
        &png,
        model.as_str(),
        seed,
        MOCK_WIDTH,
        MOCK_HEIGHT,
    )
}

/// The mock's film, which is one picture.
pub fn video_result(job_id: u128, p: &VideoParams, rgb: &Vec<u8>) -> (r: JobResult)
    requires
        rgb@.len() == MOCK_WIDTH * MOCK_VIDEO_HEIGHT * 3,
    ensures
        r.job_id == job_id,
        r.kind == JobKind::Video,
        shows_picture(r, png_bytes(MOCK_WIDTH, MOCK_VIDEO_HEIGHT, rgb@)),
        r.meta@ == picture_meta(
            model_or(opt(p.checkpoint_id), "mock-video-v0"@),
            picture_seed(p.prompt@, opt(p.from_image)),
            MOCK_WIDTH,
            MOCK_VIDEO_HEIGHT,
        ),
{
    let seed: u64 = seed_for(p.prompt.as_str(), &p.from_image);
    let png = png_encode(MOCK_WIDTH, MOCK_VIDEO_HEIGHT, rgb);
    let model = match &p.checkpoint_id {
        Some(m) => m.clone(),
        None => "mock-video-v0".to_string(),
    };
    picture_result(
        job_id,
        JobKind::Video,
        &png,
        model.as_str(),
        seed,
        MOCK_WIDTH,
        MOCK_VIDEO_HEIGHT,
    )
}


// ------------------------------------------------------------------- a run

/// A message and how many milliseconds pass after it, in which the job can be
/// told to stop.
#[derive(Debug, PartialEq)]
pub struct Step {
    pub message: WorkerMessage,
    pub wait_ms: u64,
}

/// How long a step of a picture takes, in milliseconds.
pub const STEP_DELAY: u64 = 180;

/// How long a piece of text takes, in milliseconds.
pub const PIECE_DELAY: u64 = 40;

/// Nothing, one twentieth and all of it, as bit patterns of single-precision
/// numbers.
pub const PROGRESS_NONE: u32 = 0;

pub const PROGRESS_BEGUN: u32 = 0x3d4c_cccd;

pub const PROGRESS_DONE: u32 = 0x3f80_0000;

/// The sixths that the steps of a picture count up in, as bit patterns.
pub open spec fn sixth(step: int) -> u32 {
    if step == 1 {
        0x3e2a_aaab
    } else if step == 2 {
        0x3eaa_aaab
    } else if step == 3 {
        0x3f00_0000
    } else if step == 4 {
        0x3f2a_aaab
    } else if step == 5 {
        0x3f55_5555
    } else {
        0x3f80_0000
    }
}

fn sixth_of(step: u32) -> (r: u32)
    ensures
        r == sixth(step as int),
{
    if step == 1 {
        0x3e2a_aaab
    } else if step == 2 {
        0x3eaa_aaab
    } else if step == 3 {
        0x3f00_0000
    } else if step == 4 {
        0x3f2a_aaab
    } else if step == 5 {
        0x3f55_5555
    } else {
        0x3f80_0000
    }
}

/// A status without an error.
pub open spec fn is_status(m: WorkerMessage, job_id: u128, status: JobStatus, progress: u32) -> bool {
    m matches WorkerMessage::JobStatus(s) && s.job_id == job_id && s.status == status && s.progress
        == progress && s.error is None
}

/// A piece of text or of thinking.
pub open spec fn is_piece(m: WorkerMessage, job_id: u128, text: Seq<char>, thinking: Seq<char>) -> bool {
    m matches WorkerMessage::JobDelta(d) && d.job_id == job_id && d.text@ == text && d.thinking@
        == thinking
}

fn status_step(job_id: u128, status: JobStatus, progress: u32, wait_ms: u64) -> (r: Step)
    ensures
        is_status(r.message, job_id, status, progress),
        r.wait_ms == wait_ms,
{
    Step {
        message: WorkerMessage::JobStatus(
            JobStatusUpdate { job_id, status, progress, error: None },
        ),
        wait_ms,
    }
}

/// What a run that was stopped ends with: it failed, in the words for that.
pub fn stopped(job_id: u128, words: &str) -> (r: WorkerMessage)
    ensures
        r matches WorkerMessage::JobStatus(s) && s.job_id == job_id && s.status
            == JobStatus::Failed && s.progress == PROGRESS_NONE && opt(s.error) == Some(words@),
{
    WorkerMessage::JobStatus(
        JobStatusUpdate {
            job_id,
            status: JobStatus::Failed,
            progress: PROGRESS_NONE,
            error: Some(words.to_string()),
        },
    )
}

/// What a step of a run says.
pub enum Said {
    Status(JobStatus, u32),
    Thought(Seq<char>),
    Words(Seq<char>),
    Answer,
}

/// A step says this, and then waits.
pub open spec fn is_said(s: Step, x: (Said, u64), result: JobResult) -> bool {
    s.wait_ms == x.1 && match x.0 {
        Said::Status(status, progress) => is_status(s.message, result.job_id, status, progress),
        Said::Thought(t) => is_piece(s.message, result.job_id, seq![], t),
        Said::Words(t) => is_piece(s.message, result.job_id, t, seq![]),
        Said::Answer => s.message == WorkerMessage::JobResult(result),
    }
}

/// The steps say what the script has, in its order.
pub open spec fn plays(steps: Seq<Step>, script: Seq<(Said, u64)>, result: JobResult) -> bool {
    &&& steps.len() == script.len()
    &&& forall|i: int| 0 <= i < steps.len() ==> is_said(#[trigger] steps[i], script[i], result)
}

/// How every run begins: in the queue, then running.
pub open spec fn opening() -> Seq<(Said, u64)> {
    seq![
        (Said::Status(JobStatus::Queued, PROGRESS_NONE), STEP_DELAY),
        (Said::Status(JobStatus::Running, PROGRESS_BEGUN), 0u64),
    ]
}

/// How every run ends: the result, then done.
pub open spec fn closing() -> Seq<(Said, u64)> {
    seq![(Said::Answer, 0u64), (Said::Status(JobStatus::Done, PROGRESS_DONE), 0u64)]
}

/// Pieces that are said one after the other; an empty one is not said.
pub open spec fn in_pieces(v: Seq<Seq<char>>, thought: bool) -> Seq<(Said, u64)>
    decreases v.len(),
{
    if v.len() == 0 {
        seq![]
    } else {
        let before = in_pieces(v.drop_last(), thought);
        if v.last().len() == 0 {
            before
        } else if thought {
            before.push((Said::Thought(v.last()), PIECE_DELAY))
        } else {
            before.push((Said::Words(v.last()), PIECE_DELAY))
        }
    }
}

/// A picture comes along in steps.
pub open spec fn picture_steps(n: nat) -> Seq<(Said, u64)> {
    Seq::new(n, |k: int| (Said::Status(JobStatus::Running, sixth(k + 1)), STEP_DELAY))
}

fn begin_run(result: &JobResult) -> (r: Vec<Step>)
    ensures
        plays(r@, opening(), *result),
{
    let mut steps: Vec<Step> = Vec::new();
    steps.push(status_step(result.job_id, JobStatus::Queued, PROGRESS_NONE, STEP_DELAY));
    steps.push(status_step(result.job_id, JobStatus::Running, PROGRESS_BEGUN, 0));
    steps
}

fn end_run(steps: Vec<Step>, result: JobResult, Ghost(script): Ghost<Seq<(Said, u64)>>) -> (r: Vec<
    Step,
>)
    requires
        plays(steps@, script, result),
    ensures
        plays(r@, script + closing(), result),
{
    let job_id: u128 = result.job_id;
    let mut steps = steps;
    steps.push(Step { message: WorkerMessage::JobResult(result), wait_ms: 0 });
    steps.push(status_step(job_id, JobStatus::Done, PROGRESS_DONE, 0));
    steps
}

/// The run of a picture or a film.
pub fn picture_run(result: JobResult) -> (r: Vec<Step>)
    ensures
        plays(r@, opening() + picture_steps(STEPS as nat) + closing(), result),
{
    let mut steps = begin_run(&result);
    let mut k: u32 = 0;
    assert(opening() + picture_steps(0) =~= opening());
    while k < STEPS
        invariant
            k <= STEPS,
            plays(steps@, opening() + picture_steps(k as nat), result),
        decreases STEPS - k,
    {
        steps.push(
            status_step(result.job_id, JobStatus::Running, sixth_of(k + 1), STEP_DELAY),
        );
        k = k + 1;
        assert(opening() + picture_steps(k as nat) =~= (opening() + picture_steps(
            (k - 1) as nat,
        )).push((Said::Status(JobStatus::Running, sixth(k as int)), STEP_DELAY)));
    }
    end_run(steps, result, Ghost(opening() + picture_steps(STEPS as nat)))
}

fn say_pieces(
    steps: &mut Vec<Step>,
    pieces: &Vec<String>,
    thought: bool,
    result: &JobResult,
    Ghost(script): Ghost<Seq<(Said, u64)>>,
)
    requires
        plays(old(steps)@, script, *result),
    ensures
        plays(final(steps)@, script + in_pieces(texts(pieces@), thought), *result),
{
    let ghost all = texts(pieces@);
    let mut i: usize = 0;
    assert(all.take(0) =~= seq![]);
    assert(script + in_pieces(all.take(0), thought) =~= script);
    while i < pieces.len()
        invariant
            i <= pieces@.len(),
            all == texts(pieces@),
            plays(steps@, script + in_pieces(all.take(i as int), thought), *result),
        decreases pieces@.len() - i,
    {
        let ghost now = all.take(i as int + 1);
        let ghost before = script + in_pieces(all.take(i as int), thought);
        assert(now.drop_last() =~= all.take(i as int));
        assert(now.last() == pieces@[i as int]@);
        if !pieces[i].as_str().is_empty() {
            let d = if thought {
                JobDelta {
                    job_id: result.job_id,
                    text: String::new(),
                    thinking: pieces[i].clone(),
                }
            } else {
                JobDelta {
                    job_id: result.job_id,
                    text: pieces[i].clone(),
                    thinking: String::new(),
                }
            };
            let ghost said = if thought {
                (Said::Thought(now.last()), PIECE_DELAY)
            } else {
                (Said::Words(now.last()), PIECE_DELAY)
            };
            steps.push(Step { message: WorkerMessage::JobDelta(d), wait_ms: PIECE_DELAY });
            assert(is_said(steps@.last(), said, *result));
            assert(script + in_pieces(now, thought) =~= before.push(said));
        } else {
            assert(script + in_pieces(now, thought) =~= before);
        }
        i = i + 1;
    }
    assert(all.take(i as int) =~= all);
}

/// The run of a text: what is thought, then what is said.
pub fn chat_run(thinking: &Vec<String>, text: &Vec<String>, result: JobResult) -> (r: Vec<Step>)
    ensures
        plays(
            r@,
            opening() + in_pieces(texts(thinking@), true) + in_pieces(texts(text@), false)
                + closing(),
            result,
        ),
{
    let mut steps = begin_run(&result);
    say_pieces(&mut steps, thinking, true, &result, Ghost(opening()));
    let ghost half = opening() + in_pieces(texts(thinking@), true);
    say_pieces(&mut steps, text, false, &result, Ghost(half));
    end_run(steps, result, Ghost(half + in_pieces(texts(text@), false)))
}

} // verus!
