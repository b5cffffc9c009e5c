//! The worker that runs inside this process.
use base64::Engine;
use rootmode_desktop::codec::sha256_hex;
use rootmode_desktop::mock::{
    chat_run, grain, image_result, llm_result, picture_run, seed_for, seed_from, text_pieces,
    thinking_pieces, truncate, video_result, MockTransport, MOCK_HEIGHT, MOCK_VIDEO_HEIGHT,
    MOCK_WIDTH,
};
use rootmode_desktop::net::WorkerMessage;
use rootmode_desktop::protocol::{ChatMessage, ImageParams, JobStatus, LlmParams, VideoParams};

fn img(prompt: &str) -> ImageParams {
    ImageParams {
        model_hash: None,
        checkpoint_id: None,
        prompt: prompt.into(),
        from_image: None,
        change: None,
        mask: None,
    }
}

/// Pixels that follow from the prompt.
fn pixels(prompt: &str, height: u32) -> Vec<u8> {
    let speckle = grain(seed_from(prompt));
    (0..(MOCK_WIDTH * height * 3) as usize)
        .map(|i| speckle[i % speckle.len()])
        .collect()
}

fn paint(prompt: &str) -> rootmode_desktop::protocol::JobResult {
    image_result(0, &img(prompt), &pixels(prompt, MOCK_HEIGHT))
}

#[test]
fn image_output_is_deterministic_and_is_a_png() {
    let a = paint("a node you own");
    let b = paint("a node you own");
    assert_eq!(a.sha256, b.sha256);

    let different = paint("something else");
    assert_ne!(a.sha256, different.sha256);

    let bytes = base64::engine::general_purpose::STANDARD
        .decode(a.image_path_or_b64.unwrap())
        .unwrap();
    assert_eq!(&bytes[..8], b"\x89PNG\r\n\x1a\n");
    assert_eq!(
        a.sha256,
        sha256_hex(&bytes),
        "sha256 covers the image bytes"
    );
}

fn ping() -> LlmParams {
    LlmParams {
        model_hash: None,
        model_id: None,
        messages: vec![ChatMessage::new("user", "ping".into())],
        tools: Vec::new(),
        max_tokens: 16,
        temperature: 0.1f32.to_bits(),
    }
}

#[test]
fn llm_hash_covers_the_text() {
    let (_thinking, r) = llm_result(0, &ping(), "0.1");
    assert_eq!(r.sha256, sha256_hex(r.text.as_ref().unwrap().as_bytes()));
}

#[test]
fn a_run_streams_status_then_result_then_done() {
    let steps = picture_run(paint("stream test"));
    let mut saw_running = false;
    let mut saw_result = false;
    let mut final_status = None;
    for s in steps {
        match s.message {
            WorkerMessage::JobStatus(s) => {
                saw_running |= s.status == JobStatus::Running;
                final_status = Some(s.status);
            }
            WorkerMessage::JobResult(_) => saw_result = true,
            _ => {}
        }
    }
    assert!(saw_running);
    assert!(saw_result);
    assert_eq!(final_status, Some(JobStatus::Done));
}

#[test]
fn a_chat_run_says_all_of_its_text() {
    let (thinking, r) = llm_result(3, &ping(), "0.1");
    let text = r.text.clone().unwrap();
    let steps = chat_run(&thinking_pieces(&thinking), &text_pieces(&text), r);
    let mut said = String::new();
    let mut thought = String::new();
    for s in &steps {
        if let WorkerMessage::JobDelta(d) = &s.message {
            said.push_str(&d.text);
            thought.push_str(&d.thinking);
        }
    }
    assert_eq!(said, text);
    assert_eq!(thought, thinking);
}

#[test]
fn a_picture_to_start_from_changes_the_seed() {
    assert_eq!(seed_for("a", &None), seed_from("a"));
    assert_ne!(seed_for("a", &Some("b".into())), seed_from("a"));
    assert_eq!(seed_from(""), 0xe3b0c44298fc1c14, "the hash of nothing");
}

#[test]
fn a_film_is_shown_by_its_first_picture() {
    let p = VideoParams {
        checkpoint_id: None,
        prompt: "waves".into(),
        from_image: None,
    };
    let r = video_result(1, &p, &pixels("waves", MOCK_VIDEO_HEIGHT));
    assert!(r.image_path_or_b64.is_some());
    assert_eq!(r.sha256.len(), 64);
}

#[test]
fn a_long_text_is_cut_with_a_mark() {
    assert_eq!(truncate("short", 10), "short");
    assert!(truncate(&"x".repeat(20), 10).chars().count() <= 11);
}

#[test]
fn the_worker_says_what_it_can_do() {
    let a = MockTransport::announce();
    assert_eq!(a.caps, vec!["llm", "image", "video"]);
    assert_eq!(a.models.len(), 3);
    assert_eq!(a.models[0].sha256, Some(sha256_hex(b"mock-llm-v0")));
}
