//! The local endpoint: who may use it, who answers, and how a reply is sent.
use rootmode_desktop::codec::sha256_hex;
use rootmode_desktop::error::AppError;
use rootmode_desktop::gateway::access::{
    authorized, base_url, bind_error, chosen_model, configured_port, enabled, reconcile,
    rotate_token, status, substitutes, token, token_from, Listening, DEFAULT_PORT,
    SETTING_GATEWAY_TOKEN,
};
use rootmode_desktop::gateway::answer::{Answer, Usage};
use rootmode_desktop::gateway::inbound::{
    fold_late_system_messages, AnthropicMessage, AnthropicRequest, ChatRequest, Shape,
};
use rootmode_desktop::gateway::live::{live_event, Frame, FrameData, LiveEvent, LiveState};
use rootmode_desktop::gateway::serve::{
    build_answer, choose_provider, classify, conclude, failure_reason, let_in, list_models,
    refusal, respond, submit, Request, RunEnd, Waiting,
};
use rootmode_desktop::gateway::thinking::peel_thinking;
use rootmode_desktop::json::Json;
use rootmode_desktop::net::WorkerMessage;
use rootmode_desktop::protocol::{
    ChatMessage, JobDelta, JobKind, JobPayload, JobResult, JobStatus, JobStatusUpdate, LlmParams,
    ModelDescriptor, Price, TokenUsage, ToolCall,
};
use rootmode_desktop::routing::model_options;
use rootmode_desktop::store::{Db, Peer};

#[test]
fn the_default_port_is_not_one_something_else_owns() {
    assert_ne!(DEFAULT_PORT, 11434);
}

fn on(s: &str) -> Option<String> {
    Some(s.to_string())
}

#[test]
fn the_endpoint_is_off_until_it_is_switched_on() {
    assert!(!enabled(&None));
    assert!(enabled(&on("true")));
    assert!(!enabled(&on("yes")));
    assert!(substitutes(&None));
    assert!(!substitutes(&on("false")));
    assert_eq!(chosen_model(&on("")), None);
    assert_eq!(chosen_model(&on("m")), on("m"));
}

#[test]
fn a_port_that_cannot_be_used_is_not_used() {
    assert_eq!(configured_port(&None), DEFAULT_PORT);
    assert_eq!(configured_port(&on("20000")), 20000);
    assert_eq!(configured_port(&on("70000")), DEFAULT_PORT);
    assert_eq!(configured_port(&on("port")), DEFAULT_PORT);
    assert_eq!(base_url(20000), "http://127.0.0.1:20000");
}

#[test]
fn a_token_is_made_once_and_then_kept() {
    let (made, fresh) = token(&None);
    assert!(fresh);
    assert!(made.len() > 40);
    let (kept, fresh) = token(&Some(made.clone()));
    assert!(!fresh);
    assert_eq!(kept, made);
    assert_ne!(token(&None).0, made, "drawn anew");
    assert_eq!(token_from(&vec![0x01, 0xff]), "rm-01ff");
    let mut db = Db::new();
    let first = rotate_token(&mut db).unwrap();
    let second = rotate_token(&mut db).unwrap();
    assert_ne!(first, second);
    assert_eq!(db.get_setting(SETTING_GATEWAY_TOKEN), Some(second));
}

#[test]
fn a_request_is_let_in_only_with_the_token() {
    assert!(authorized("rm-1", &on("rm-1"), &None));
    assert!(authorized("rm-1", &None, &on("Bearer rm-1")));
    assert!(!authorized("rm-1", &None, &on("rm-1")));
    assert!(!authorized("rm-1", &on("rm-2"), &on("Bearer rm-1")), "the key goes first");
    assert!(!authorized("rm-1", &None, &None));
    assert!(!authorized("rm-1", &on("rm-11"), &None));
}

#[test]
fn the_door_follows_the_settings() {
    assert_eq!(reconcile(&None, &None, Some(5000)), Listening::Close);
    assert_eq!(reconcile(&on("true"), &on("5000"), Some(5000)), Listening::Keep);
    assert_eq!(reconcile(&on("true"), &on("5001"), Some(5000)), Listening::Open(5001));
    assert_eq!(reconcile(&on("true"), &None, None), Listening::Open(DEFAULT_PORT));
    assert!(bind_error(5000, true, "in use").contains("5000"));
    let s = status(&on("true"), &None, &None, &on("m"), "t".into(), Some(DEFAULT_PORT), None, 3);
    assert!(s.enabled && s.running && s.substitute);
    assert_eq!(s.model, on("m"));
    assert_eq!(s.requests, 3);
}

fn chat(model: &str, text: &str, stream: bool) -> AnthropicRequest {
    AnthropicRequest {
        model: model.into(),
        max_tokens: None,
        system: None,
        messages: vec![AnthropicMessage {
            role: "user".into(),
            content: Json::text(text),
        }],
        tools: vec![],
        stream,
        temperature: None,
    }
}

#[test]
fn a_refusal_comes_in_the_shape_the_client_speaks() {
    let f = let_in(Shape::OpenAi, false, Err("bad".into())).unwrap_err();
    assert_eq!(f.status, 401);
    assert_eq!(
        f.body().get("error").unwrap().text_at("type").unwrap(),
        "authentication_error"
    );
    let f = let_in(Shape::Anthropic, true, Err("line 1".into())).unwrap_err();
    assert_eq!(f.status, 400);
    assert_eq!(f.message, "line 1");
    assert_eq!(f.body().text_at("type").unwrap(), "error");
    let ok = let_in(
        Shape::Anthropic,
        true,
        Ok(Request::Anthropic(chat("m", "hi", true))),
    )
    .unwrap();
    assert!(ok.stream);
    let mut nothing = chat("m", "hi", false);
    nothing.messages.clear();
    let f = let_in(Shape::Anthropic, true, Ok(Request::Anthropic(nothing))).unwrap_err();
    assert_eq!(f.message, "request has no user or assistant turns");
}

#[test]
fn a_failure_is_told_under_the_right_status() {
    assert_eq!(classify(&AppError::NotFound("x".into())), (404, "not_found_error"));
    assert_eq!(classify(&AppError::Invalid("x".into())), (400, "invalid_request_error"));
    assert_eq!(classify(&AppError::Net("x".into())), (502, "api_error"));
    assert_eq!(refusal(Shape::OpenAi, &AppError::Net("x".into())).message, "network: x");
    assert_eq!(failure_reason(on("why")), "why");
}

fn peer(label: &str, models: Vec<(&str, u64)>) -> Peer {
    Peer {
        id: format!("id-{label}"),
        label: label.into(),
        country: None,
        payout: None,
        endpoint: format!("p2p://{label}"),
        public_key: None,
        peer_id: None,
        status: "online".into(),
        latency_ms: None,
        caps: vec!["llm".into()],
        models: models
            .into_iter()
            .map(|(id, micros)| ModelDescriptor {
                id: id.into(),
                sha256: None,
                kind: JobKind::Llm,
                price: Some(Price::new(micros)),
                video: None,
            })
            .collect(),
        max_concurrent: 1,
        last_seen: None,
        last_error: None,
        source: "discovered".into(),
        added_at: 0,
    }
}

#[test]
fn the_model_list_is_what_is_on_offer() {
    let peers = vec![peer("a", vec![("m2", 20_000), ("m1", 10_000)])];
    let listed = list_models(&model_options(&peers, JobKind::Llm), 7);
    let data = listed.get("data").unwrap().as_list().unwrap();
    assert_eq!(data.len(), 2);
    assert_eq!(data[0].text_at("id").unwrap(), "m1");
    assert_eq!(data[0].number_at("created"), Some(7));
}

#[test]
fn an_unknown_name_is_answered_by_another_unless_that_is_off() {
    let peers = vec![
        peer("a", vec![("dear", 900_000)]),
        peer("b", vec![("cheap", 100_000)]),
    ];
    assert_eq!(choose_provider(&peers, "dear", true, &None).unwrap().peer_label, "a");
    assert_eq!(choose_provider(&peers, "other", true, &None).unwrap().model, "cheap");
    assert_eq!(choose_provider(&peers, "other", true, &on("dear")).unwrap().model, "dear");
    assert_eq!(choose_provider(&peers, "other", true, &on("gone")).unwrap().model, "cheap");
    assert_eq!(
        choose_provider(&peers, "other", false, &None).unwrap_err().message(),
        "not found: no provider serves 'other'. Currently on offer: cheap, dear"
    );
    assert!(choose_provider(&vec![], "other", true, &None)
        .unwrap_err()
        .message()
        .contains("no provider is online right now"));
}

fn asking(model: &str, max_tokens: u32) -> ChatRequest {
    ChatRequest {
        model: model.into(),
        params: LlmParams {
            model_hash: None,
            model_id: Some(model.into()),
            messages: vec![ChatMessage::new("user", "hi".into())],
            tools: vec![],
            max_tokens,
            temperature: 0,
        },
        stream: false,
    }
}

#[test]
fn a_request_goes_out_for_the_model_that_serves_it() {
    let mut db = Db::new();
    db.peers.push(peer("b", vec![("cheap", 100_000)]));
    let t = submit(&db, asking("small-background-model", 64), true, &None).unwrap();
    assert_eq!(t.served, "cheap");
    assert_eq!(t.peer_id, "id-b");
    assert_eq!(t.price, Some(100_000));
    match t.payload {
        JobPayload::Llm(p) => {
            assert_eq!(p.model_id.as_deref(), Some("cheap"));
            assert_eq!(p.max_tokens, 8192, "a tiny ceiling is raised");
        }
        other => panic!("{other:?}"),
    }
    assert!(submit(&Db::new(), asking("m", 64), true, &None).is_err());
}

fn answer_result(text: &str, calls: Vec<ToolCall>) -> JobResult {
    JobResult {
        job_id: 1,
        kind: JobKind::Llm,
        sha256: sha256_hex(text.as_bytes()),
        text: Some(text.into()),
        image_path_or_b64: None,
        tool_calls: calls,
        thinking: None,
        meta: Json::from_text(r#"{"finish_reason":"stop"}"#).unwrap(),
    }
}

fn counted(prompt: u64, completion: u64) -> TokenUsage {
    TokenUsage {
        prompt,
        completion,
        cached: 0,
        reasoning: 0,
    }
}

#[test]
fn a_result_nobody_can_verify_is_refused() {
    let a = build_answer(&answer_result("<think>x</think>hello", vec![]), counted(3, 2), false).unwrap();
    assert_eq!(a.text, "hello");
    assert_eq!(a.usage.input, 3);
    assert_eq!(a.finish.as_deref(), Some("stop"));
    let mut wrong = answer_result("hello", vec![]);
    wrong.sha256 = "0".repeat(64);
    assert!(build_answer(&wrong, counted(0, 0), false)
        .unwrap_err()
        .message()
        .contains("hash mismatch"));
    assert_eq!(
        build_answer(&answer_result("", vec![]), counted(0, 0), false).unwrap_err().message(),
        "provider returned no answer"
    );
    assert_eq!(
        build_answer(&answer_result("<think>x</think>", vec![]), counted(0, 0), false)
            .unwrap_err()
            .message(),
        "provider returned only reasoning, no answer"
    );
    let mut bare = answer_result("hello", vec![]);
    bare.sha256 = String::new();
    assert_eq!(
        build_answer(&bare, counted(0, 0), false).unwrap_err().message(),
        "result has no content hash; a remote peer must commit to one"
    );
    assert_eq!(build_answer(&bare, counted(0, 0), true).unwrap().text, "hello");
}

#[test]
fn a_run_ends_with_the_answer_or_the_reason() {
    let a = build_answer(&answer_result("hi", vec![]), counted(1, 1), false).unwrap();
    assert!(conclude(Some(a), None, RunEnd::Finished).is_ok());
    let told = conclude(None, on("out of memory"), RunEnd::Finished).unwrap_err();
    assert!(told.message().contains("out of memory"));
    let gave = conclude(None, None, RunEnd::Gave(AppError::Net("gone".into()))).unwrap_err();
    assert!(gave.message().contains("gone"));
    assert!(conclude(None, None, RunEnd::Crashed("boom".into())).is_err());
}

fn answering(text: &str) -> Answer {
    Answer {
        text: text.into(),
        tool_calls: vec![],
        usage: Usage::default(),
        finish: None,
    }
}

#[test]
fn a_reply_names_the_model_that_answered() {
    for shape in [Shape::Anthropic, Shape::OpenAi, Shape::Responses] {
        let body = respond(shape, "id", "served", &answering("x"), 9);
        assert_eq!(body.text_at("model").unwrap(), "served");
    }
}

fn names(frames: &[Frame]) -> Vec<String> {
    frames.iter().map(|f| f.name.clone().unwrap_or_default()).collect()
}

fn sequence(frames: &[Frame]) -> Vec<u64> {
    frames
        .iter()
        .filter_map(|f| match &f.data {
            FrameData::Json(j) => j.number_at("sequence_number"),
            FrameData::Raw(_) => None,
        })
        .collect()
}

#[test]
fn a_live_reply_opens_before_it_speaks_and_closes_once() {
    let mut live = LiveState::new(Shape::Anthropic, "m".into(), "id".into(), 0);
    assert_eq!(names(&live.start()), ["message_start"]);
    let first = live.hear(LiveEvent::Delta("hel".into()));
    assert_eq!(names(&first), ["content_block_start", "content_block_delta"]);
    assert_eq!(names(&live.hear(LiveEvent::Delta("lo".into()))), ["content_block_delta"]);
    let end = live.hear(LiveEvent::Result(Ok(answering("hello"))));
    assert_eq!(names(&end).last().unwrap(), "message_stop");
    assert!(live.hear(LiveEvent::Delta("late".into())).is_empty(), "it is over");
}

#[test]
fn thinking_is_not_sent_while_it_streams() {
    let mut live = LiveState::new(Shape::OpenAi, "m".into(), "id".into(), 0);
    live.start();
    assert!(live.hear(LiveEvent::Delta("<think>hidden".into())).is_empty());
    let shown = live.hear(LiveEvent::Delta("</think>seen".into()));
    assert_eq!(shown.len(), 1);
    match &shown[0].data {
        FrameData::Json(j) => assert!(j.to_text().contains("seen") && !j.to_text().contains("hidden")),
        other => panic!("{other:?}"),
    }
}

#[test]
fn live_events_are_numbered_in_a_row() {
    let mut live = LiveState::new(Shape::Responses, "m".into(), "id".into(), 0);
    let mut all = sequence(&live.start());
    all.extend(sequence(&live.hear(LiveEvent::Delta("hi".into()))));
    all.extend(sequence(&live.hear(LiveEvent::Result(Ok(answering("hi"))))));
    assert!(!all.is_empty());
    for pair in all.windows(2) {
        assert_eq!(pair[0] + 1, pair[1]);
    }
}

#[test]
fn a_failure_mid_stream_reaches_the_client() {
    let mut live = LiveState::new(Shape::Anthropic, "m".into(), "id".into(), 0);
    live.start();
    let end = live.hear(LiveEvent::Failed(on("CUDA out of memory")));
    match &end[0].data {
        FrameData::Json(j) => assert!(j.to_text().contains("CUDA out of memory")),
        other => panic!("{other:?}"),
    }
    let mut live = LiveState::new(Shape::OpenAi, "m".into(), "id".into(), 0);
    live.start();
    assert!(!live.hear(LiveEvent::Closed(RunEnd::Finished)).is_empty());
}

#[test]
fn no_system_message_is_late_and_no_word_is_lost() {
    let folded = fold_late_system_messages(vec![
        ChatMessage::new("system", "a".into()),
        ChatMessage::new("user", "b".into()),
        ChatMessage::new("system", "c".into()),
        ChatMessage::new("assistant", "d".into()),
    ]);
    let roles: Vec<&str> = folded.iter().map(|m| m.role.as_str()).collect();
    assert_eq!(roles, ["system", "user", "assistant"]);
    assert!(folded[1].content.contains('b') && folded[1].content.contains('c'));
}

#[test]
fn peeling_spares_plain_text() {
    assert_eq!(peel_thinking("a < b and b > c"), "a < b and b > c");
    let peeled = peel_thinking("x<thinking>y</thinking><think>z</think>w");
    assert!(!peeled.contains("think"));
}

#[test]
fn waiting_for_a_whole_answer_prefers_the_providers_reason() {
    let mut w = Waiting::new();
    let failed = WorkerMessage::JobStatus(JobStatusUpdate {
        job_id: 1,
        status: JobStatus::Failed,
        progress: 0,
        error: None,
    });
    w.hear(&failed, counted(0, 0), false).unwrap();
    let e = w.end(RunEnd::Gave(AppError::Net("stream ended".into()))).unwrap_err();
    assert_eq!(e, AppError::Net("provider failed the job".into()));
    let mut w = Waiting::new();
    let r = WorkerMessage::JobResult(answer_result("hi", vec![]));
    w.hear(&r, counted(1, 1), false).unwrap();
    assert_eq!(w.end(RunEnd::Finished).unwrap().text, "hi");
    let hollow = WorkerMessage::JobResult(answer_result("", vec![]));
    assert!(Waiting::new().hear(&hollow, counted(0, 0), false).is_err());
}

#[test]
fn a_stream_hears_text_results_and_failures_only() {
    let status = |status: JobStatus| {
        WorkerMessage::JobStatus(JobStatusUpdate {
            job_id: 1,
            status,
            progress: 0,
            error: on("out of memory"),
        })
    };
    let delta = WorkerMessage::JobDelta(JobDelta {
        job_id: 1,
        text: "hel".into(),
        thinking: "hm".into(),
    });
    assert_eq!(live_event(&delta, counted(0, 0), false), Some(LiveEvent::Delta("hel".into())));
    assert_eq!(
        live_event(&status(JobStatus::Failed), counted(0, 0), false),
        Some(LiveEvent::Failed(on("out of memory")))
    );
    assert_eq!(live_event(&status(JobStatus::Running), counted(0, 0), false), None);
    assert_eq!(live_event(&WorkerMessage::Unknown, counted(0, 0), false), None);
    let whole = WorkerMessage::JobResult(answer_result("hi", vec![]));
    match live_event(&whole, counted(2, 3), false) {
        Some(LiveEvent::Result(Ok(a))) => assert_eq!(a.text, "hi"),
        other => panic!("{other:?}"),
    }
    let hollow = WorkerMessage::JobResult(answer_result("", vec![]));
    assert!(matches!(live_event(&hollow, counted(0, 0), false), Some(LiveEvent::Result(Err(_)))));
}

fn streamed(shape: Shape, pieces: &[&str], whole: &str) -> String {
    let mut live = LiveState::new(shape, "m".into(), "id".into(), 1);
    live.start();
    let mut frames = Vec::new();
    for p in pieces {
        frames.extend(live.hear(LiveEvent::Delta(p.to_string())));
    }
    frames.extend(live.hear(LiveEvent::Result(Ok(answering(whole)))));
    let mut said = String::new();
    for f in &frames {
        if let FrameData::Json(j) = &f.data {
            if let Some(d) = j.get("delta") {
                if let Some(t) = d.text_at("text") {
                    said.push_str(t);
                }
                if f.name.as_deref() == Some("response.output_text.delta") {
                    said.push_str(d.as_text().unwrap());
                }
            }
            if let Some(c) = j.get("choices").and_then(|c| c.as_list()) {
                for choice in c {
                    if let Some(t) = choice.get("delta").and_then(|d| d.text_at("content")) {
                        said.push_str(t);
                    }
                }
            }
        }
    }
    said
}

#[test]
fn a_tag_split_between_two_pieces_is_still_taken_out() {
    for shape in [Shape::Anthropic, Shape::OpenAi, Shape::Responses] {
        assert_eq!(streamed(shape, &["<thi", "nk>x</think>hi"], "hi"), "hi");
        assert_eq!(streamed(shape, &["a <", "b"], "a <b"), "a <b");
        assert_eq!(streamed(shape, &["a <th"], "a <th"), "a <th", "held back to the end");
        assert_eq!(streamed(shape, &["a<<thi", "nk>q</think>think>r"], "a"), "a");
        assert_eq!(streamed(shape, &["one \n", "\ntwo"], "one\ntwo"), "one\ntwo");
    }
}
