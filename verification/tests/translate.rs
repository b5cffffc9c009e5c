//! Between the shapes clients speak and the request workers take.
use rootmode_desktop::gateway::inbound::push_anthropic_turn;
use rootmode_desktop::gateway::translate::{
    anthropic_live_end, anthropic_message, anthropic_stream, openai_completion, openai_live_end,
    openai_response, openai_response_stream, openai_stream, peel_thinking, responses_live_end, AnthropicMessage,
    AnthropicRequest, Answer, ChatRequest, OpenAiMessage, OpenAiRequest, ResponsesRequest, Usage,
    DEFAULT_MAX_TOKENS,
};
use rootmode_desktop::json::Json;
use rootmode_desktop::protocol::{TokenUsage, ToolCall};

fn json(text: &str) -> Json {
    Json::from_text(text).unwrap()
}

fn field(v: &Json, key: &str) -> Option<Json> {
    v.get(key).filter(|x| !x.is_null()).map(|x| x.copy())
}

fn items(v: &Json, key: &str) -> Vec<Json> {
    match field(v, key) {
        Some(Json::List(l)) => l,
        _ => Vec::new(),
    }
}

fn words(v: &Json, key: &str) -> Option<String> {
    v.text_at(key).cloned()
}

fn number(v: &Json, key: &str) -> Option<u32> {
    v.number_at(key).map(|n| n as u32)
}

fn flag(v: &Json, key: &str) -> bool {
    matches!(v.get(key), Some(Json::Bool(true)))
}

fn anthropic_request(body: &str) -> AnthropicRequest {
    let v = json(body);
    AnthropicRequest {
        model: words(&v, "model").unwrap(),
        max_tokens: number(&v, "max_tokens"),
        system: field(&v, "system"),
        messages: items(&v, "messages")
            .iter()
            .map(|m| AnthropicMessage {
                role: words(m, "role").unwrap(),
                content: m.get("content").unwrap().copy(),
            })
            .collect(),
        tools: items(&v, "tools"),
        stream: flag(&v, "stream"),
        temperature: None,
    }
}

fn openai_request(body: &str) -> OpenAiRequest {
    let v = json(body);
    OpenAiRequest {
        model: words(&v, "model").unwrap(),
        messages: items(&v, "messages")
            .iter()
            .map(|m| OpenAiMessage {
                role: words(m, "role").unwrap(),
                content: m.get("content").map(|c| c.copy()).unwrap_or(Json::Null),
                tool_calls: items(m, "tool_calls"),
                tool_call_id: words(m, "tool_call_id"),
            })
            .collect(),
        tools: items(&v, "tools"),
        max_tokens: number(&v, "max_tokens"),
        max_completion_tokens: number(&v, "max_completion_tokens"),
        stream: flag(&v, "stream"),
        temperature: None,
    }
}

fn responses(body: &str) -> ChatRequest {
    let v = json(body);
    ResponsesRequest {
        model: words(&v, "model").unwrap(),
        input: v.get("input").unwrap().copy(),
        instructions: words(&v, "instructions"),
        tools: items(&v, "tools"),
        max_output_tokens: number(&v, "max_output_tokens"),
        stream: flag(&v, "stream"),
        temperature: None,
    }
    .into_chat()
    .unwrap()
}

fn anthropic(body: &str) -> ChatRequest {
    anthropic_request(body).into_chat().unwrap()
}

fn openai(body: &str) -> ChatRequest {
    openai_request(body).into_chat().unwrap()
}

fn answering(text: &str, calls: Vec<ToolCall>) -> Answer {
    Answer {
        text: text.into(),
        tool_calls: calls,
        usage: Usage::default(),
        finish: None,
    }
}

fn call(name: &str, args: &str) -> ToolCall {
    ToolCall {
        id: "toolu_1".into(),
        name: name.into(),
        arguments: args.into(),
    }
}

/// The value at a path; a number picks an item of a list.
fn at(v: &Json, path: &[&str]) -> Json {
    let mut here = v.copy();
    for step in path {
        here = match step.parse::<usize>() {
            Ok(i) => match here {
                Json::List(l) => l.get(i).map(|x| x.copy()).unwrap_or(Json::Null),
                _ => Json::Null,
            },
            Err(_) => here.get(step).map(|x| x.copy()).unwrap_or(Json::Null),
        };
    }
    here
}

fn text_at(v: &Json, path: &[&str]) -> String {
    match at(v, path) {
        Json::Text(s) => s,
        other => panic!("no text at {path:?}: {other:?}"),
    }
}

fn event_names(events: &[(String, Json)]) -> Vec<&str> {
    events.iter().map(|(n, _)| n.as_str()).collect()
}

#[test]
fn a_system_prompt_becomes_the_first_message() {
    let req = anthropic(
        r#"{
            "model": "deepseek",
            "max_tokens": 20000,
            "system": "You are terse.",
            "messages": [{ "role": "user", "content": "hi" }]
        }"#,
    );

    assert_eq!(req.params.messages.len(), 2);
    assert_eq!(req.params.messages[0].role, "system");
    assert_eq!(req.params.messages[0].content, "You are terse.");
    assert_eq!(req.params.messages[1].content, "hi");
    assert_eq!(req.params.max_tokens, 20_000);
}

#[test]
fn a_block_array_system_prompt_works_too() {
    let req = anthropic(
        r#"{
            "model": "m",
            "system": [
                { "type": "text", "text": "part one" },
                { "type": "text", "text": "part two", "cache_control": { "type": "ephemeral" } }
            ],
            "messages": [{ "role": "user", "content": "hi" }]
        }"#,
    );
    assert_eq!(req.params.messages[0].content, "part one\n\npart two");
}

#[test]
fn tools_reach_the_worker() {
    let req = anthropic(
        r#"{
            "model": "m",
            "messages": [{ "role": "user", "content": "read a.txt" }],
            "tools": [{
                "name": "Read",
                "description": "Read a file",
                "input_schema": { "type": "object", "properties": { "path": { "type": "string" } } }
            }]
        }"#,
    );

    assert_eq!(req.params.tools.len(), 1);
    assert_eq!(req.params.tools[0].name, "Read");
    assert_eq!(text_at(&req.params.tools[0].input_schema, &["type"]), "object");
}

#[test]
fn server_side_tools_that_a_worker_cannot_run_are_left_out() {
    let req = anthropic(
        r#"{
            "model": "m",
            "messages": [{ "role": "user", "content": "hi" }],
            "tools": [
                { "type": "web_search_20260209", "name": "web_search" },
                { "name": "Read", "input_schema": { "type": "object" } }
            ]
        }"#,
    );
    assert_eq!(
        req.params
            .tools
            .iter()
            .map(|t| t.name.as_str())
            .collect::<Vec<_>>(),
        vec!["Read"]
    );
}

#[test]
fn a_tool_exchange_is_resplit_into_the_roles_openai_expects() {
    let req = anthropic(
        r#"{
            "model": "m",
            "messages": [
                { "role": "user", "content": "read a.txt" },
                { "role": "assistant", "content": [
                    { "type": "tool_use", "id": "t1", "name": "Read", "input": { "path": "a.txt" } }
                ]},
                { "role": "user", "content": [
                    { "type": "tool_result", "tool_use_id": "t1", "content": "hello world" }
                ]}
            ]
        }"#,
    );

    let m = &req.params.messages;
    assert_eq!(m.len(), 3);
    assert_eq!(m[0].role, "user");

    assert_eq!(m[1].role, "assistant");
    assert_eq!(m[1].tool_calls.len(), 1);
    assert_eq!(m[1].tool_calls[0].name, "Read");
    assert_eq!(m[1].tool_calls[0].arguments, r#"{"path":"a.txt"}"#);

    assert_eq!(m[2].role, "tool");
    assert_eq!(m[2].tool_call_id.as_deref(), Some("t1"));
    assert_eq!(m[2].content, "hello world");
}

#[test]
fn a_tool_call_comes_back_as_a_tool_use_block() {
    let answer = answering("", vec![call("Read", r#"{"path":"a.txt"}"#)]);
    let body = anthropic_message("msg_1", "m", &answer);

    assert_eq!(text_at(&body, &["stop_reason"]), "tool_use");
    assert_eq!(text_at(&body, &["content", "0", "type"]), "tool_use");
    assert_eq!(text_at(&body, &["content", "0", "name"]), "Read");
    assert_eq!(text_at(&body, &["content", "0", "input", "path"]), "a.txt");
}

#[test]
fn text_and_a_tool_call_can_arrive_together() {
    let answer = answering("Let me look.", vec![call("Read", "{}")]);
    let body = anthropic_message("msg_1", "m", &answer);
    assert_eq!(text_at(&body, &["content", "0", "type"]), "text");
    assert_eq!(text_at(&body, &["content", "1", "type"]), "tool_use");
}

#[test]
fn arguments_that_are_not_valid_json_still_reach_the_client() {
    let answer = answering("", vec![call("Read", "not json")]);
    let body = anthropic_message("msg_1", "m", &answer);
    assert_eq!(text_at(&body, &["content", "0", "input", "_raw"]), "not json");
}

#[test]
fn the_streamed_tool_call_carries_the_blocks_clients_accumulate() {
    let answer = answering("", vec![call("Read", r#"{"path":"a.txt"}"#)]);
    let events = anthropic_stream("msg_1", "m", &answer);

    assert_eq!(
        event_names(&events),
        [
            "message_start",
            "content_block_start",
            "content_block_delta",
            "content_block_stop",
            "message_delta",
            "message_stop"
        ]
    );
    assert_eq!(text_at(&events[1].1, &["content_block", "type"]), "tool_use");
    assert_eq!(text_at(&events[2].1, &["delta", "type"]), "input_json_delta");
    assert_eq!(
        text_at(&events[2].1, &["delta", "partial_json"]),
        r#"{"path":"a.txt"}"#
    );
    assert_eq!(text_at(&events[4].1, &["delta", "stop_reason"]), "tool_use");
}

#[test]
fn a_plain_answer_still_streams_as_text() {
    let events = anthropic_stream("msg_1", "m", &answering("hello", vec![]));
    assert_eq!(text_at(&events[1].1, &["content_block", "type"]), "text");
    assert_eq!(text_at(&events[2].1, &["delta", "text"]), "hello");
    assert_eq!(text_at(&events[4].1, &["delta", "stop_reason"]), "end_turn");
}

#[test]
fn image_only_turns_do_not_become_blank_messages() {
    let req = anthropic(
        r#"{
            "model": "m",
            "messages": [
                { "role": "user", "content": [{ "type": "image", "source": {} }] },
                { "role": "user", "content": "what is this" }
            ]
        }"#,
    );
    assert_eq!(req.params.messages.len(), 1);
    assert_eq!(req.params.messages[0].content, "what is this");
}

#[test]
fn a_request_with_nothing_to_answer_is_refused() {
    let body = r#"{ "model": "m", "system": "hi", "messages": [] }"#;
    assert!(anthropic_request(body).into_chat().is_err());
}

#[test]
fn a_client_that_names_no_temperature_gets_zero() {
    let body = r#"{ "model": "m", "messages": [{ "role": "user", "content": "hi" }] }"#;
    assert_eq!(f32::from_bits(anthropic(body).params.temperature), 0.0);
    assert_eq!(f32::from_bits(openai(body).params.temperature), 0.0);
}

#[test]
fn thinking_tags_are_not_the_answer() {
    assert_eq!(
        peel_thinking("<think>let me parse this carefully</think>\n\nuse the Read tool"),
        "use the Read tool"
    );
    assert_eq!(peel_thinking("<THINK>looping</THINK>\nhello"), "hello");
    assert_eq!(
        peel_thinking("ok\n<thinking>no</thinking>\nreal answer"),
        "ok\nreal answer"
    );
    assert_eq!(peel_thinking("<think>never closed"), "");
    assert_eq!(peel_thinking("just text"), "just text");
}

#[test]
fn missing_max_tokens_gets_a_workable_default() {
    let req = anthropic(r#"{ "model": "m", "messages": [{ "role": "user", "content": "hi" }] }"#);
    assert_eq!(req.params.max_tokens, DEFAULT_MAX_TOKENS);
}

#[test]
fn openai_requests_map_the_same_way() {
    let req = openai(
        r#"{
            "model": "deepseek",
            "messages": [
                { "role": "system", "content": "be brief" },
                { "role": "user", "content": "hi" }
            ],
            "tools": [{
                "type": "function",
                "function": {
                    "name": "get_weather",
                    "description": "weather",
                    "parameters": { "type": "object" }
                }
            }],
            "max_completion_tokens": 20000,
            "stream": true
        }"#,
    );

    assert!(req.stream);
    assert_eq!(req.params.max_tokens, 20_000);
    assert_eq!(req.params.messages.len(), 2);
    assert_eq!(req.params.tools[0].name, "get_weather");
}

#[test]
fn an_openai_tool_exchange_round_trips() {
    let req = openai(
        r#"{
            "model": "m",
            "messages": [
                { "role": "user", "content": "weather?" },
                { "role": "assistant", "content": null, "tool_calls": [{
                    "id": "c1", "type": "function",
                    "function": { "name": "get_weather", "arguments": "{\"city\":\"Paris\"}" }
                }]},
                { "role": "tool", "tool_call_id": "c1", "content": "18C" }
            ]
        }"#,
    );

    let m = &req.params.messages;
    assert_eq!(m[1].tool_calls[0].name, "get_weather");
    assert_eq!(m[2].role, "tool");
    assert_eq!(m[2].tool_call_id.as_deref(), Some("c1"));
}

#[test]
fn openai_replies_use_tool_calls_and_the_matching_finish_reason() {
    let answer = answering("", vec![call("Read", "{}")]);
    let body = openai_completion("id", "m", &answer, 0);

    assert_eq!(text_at(&body, &["choices", "0", "finish_reason"]), "tool_calls");
    assert_eq!(
        text_at(&body, &["choices", "0", "message", "tool_calls", "0", "function", "name"]),
        "Read"
    );
    assert!(at(&body, &["choices", "0", "message", "content"]).is_null());

    let chunks = openai_stream("id", "m", &answer, 0);
    let finish = chunks
        .iter()
        .find(|c| at(c, &["choices", "0", "finish_reason"]).as_text().is_some())
        .expect("a finish_reason chunk");
    assert_eq!(text_at(finish, &["choices", "0", "finish_reason"]), "tool_calls");
    assert_eq!(
        at(&chunks[1], &["choices", "0", "delta", "tool_calls", "0", "index"]),
        Json::Number(0)
    );
    let usage = chunks.last().unwrap();
    assert_eq!(at(usage, &["usage", "completion_tokens"]), Json::Number(0));
    assert_eq!(at(usage, &["choices"]), Json::List(vec![]));
}

#[test]
fn a_system_message_after_the_conversation_starts_is_folded_into_a_user_turn() {
    let req = anthropic(
        r##"{
            "model": "m",
            "system": "top level",
            "messages": [
                { "role": "user", "content": "what is this" },
                { "role": "system", "content": "Reminder: be terse." },
                { "role": "assistant", "content": [
                    { "type": "tool_use", "id": "t1", "name": "Read", "input": {} }
                ]},
                { "role": "user", "content": [
                    { "type": "tool_result", "tool_use_id": "t1", "content": "# rootmode" }
                ]},
                { "role": "system", "content": [{ "type": "text", "text": "Answer now." }] }
            ]
        }"##,
    );

    let roles: Vec<&str> = req
        .params
        .messages
        .iter()
        .map(|m| m.role.as_str())
        .collect();
    assert_eq!(
        roles,
        ["system", "user", "assistant", "tool", "user"],
        "only the opening system message keeps that role"
    );
    assert!(req.params.messages[1]
        .content
        .contains("Reminder: be terse."));
    assert!(req.params.messages[1].content.contains("<system-reminder>"));
    assert!(req.params.messages[4].content.contains("Answer now."));
}

#[test]
fn a_leading_run_of_system_messages_is_left_alone() {
    let req = anthropic(
        r#"{
            "model": "m",
            "system": "first",
            "messages": [
                { "role": "system", "content": "also up front" },
                { "role": "user", "content": "hi" }
            ]
        }"#,
    );
    let roles: Vec<&str> = req
        .params
        .messages
        .iter()
        .map(|m| m.role.as_str())
        .collect();
    assert_eq!(roles, ["system", "system", "user"]);
}

#[test]
fn a_client_that_names_no_ceiling_gets_room_to_think_first() {
    let body = r#"{ "model": "m", "messages": [{ "role": "user", "content": "hi" }] }"#;
    for req in [openai(body), anthropic(body)] {
        assert!(
            req.params.max_tokens >= 8192,
            "a ceiling of {} yields no answer at all on a reasoning model",
            req.params.max_tokens
        );
    }
}

#[test]
fn an_answer_cut_short_says_so_rather_than_looking_finished() {
    let mut answer = answering("half a sen", vec![]);
    answer.finish = Some("length".into());

    assert_eq!(
        text_at(&anthropic_message("id", "m", &answer), &["stop_reason"]),
        "max_tokens"
    );
    assert_eq!(
        text_at(&anthropic_stream("id", "m", &answer)[4].1, &["delta", "stop_reason"]),
        "max_tokens"
    );
    assert_eq!(
        text_at(
            &openai_completion("id", "m", &answer, 0),
            &["choices", "0", "finish_reason"]
        ),
        "length"
    );

    let mut done = answering("all of it", vec![]);
    done.finish = Some("stop".into());
    assert_eq!(
        text_at(&anthropic_message("id", "m", &done), &["stop_reason"]),
        "end_turn"
    );
}

#[test]
fn usage_that_the_worker_did_not_report_stays_zero_until_we_count_it() {
    assert_eq!(Usage::from_meta(&json("{}")), Usage::default());
    assert_eq!(
        Usage::from_meta(&json(
            r#"{ "prompt_tokens": 12, "completion_tokens": 30, "cached_tokens": 4, "reasoning_tokens": 8 }"#
        )),
        Usage {
            input: 12,
            output: 30,
            cached: 4,
            reasoning: 8,
        }
    );
}

#[test]
fn the_whole_message_and_its_stream_agree() {
    for text in ["", "hello"] {
        let a = answering(text, vec![call("read", "{}"), call("write", "{\"a\":1}")]);
        let m = anthropic_message("id", "m", &a);
        let e = anthropic_stream("id", "m", &a);
        let begun: Vec<Json> = e
            .iter()
            .filter(|(name, _)| name == "content_block_start")
            .map(|(_, d)| d.get("content_block").unwrap().copy())
            .collect();
        let content = items(&m, "content");
        assert_eq!(begun.len(), content.len());
        for (b, c) in begun.iter().zip(&content) {
            for key in ["type", "id", "name"] {
                assert_eq!(words(b, key), words(c, key), "{key}");
            }
        }
        let told: String = e
            .iter()
            .filter_map(|(_, d)| words(d.get("delta")?, "text"))
            .collect();
        assert_eq!(told, text);
        let why: Vec<String> = e
            .iter()
            .filter_map(|(_, d)| words(d.get("delta")?, "stop_reason"))
            .collect();
        assert_eq!(why, [words(&m, "stop_reason").unwrap()]);
    }
}

#[test]
fn a_live_stream_ends_as_the_whole_one() {
    for text in ["", "hello"] {
        let a = answering(text, vec![call("read", "{}")]);
        let (skip, index) = if text.is_empty() { (1, None) } else { (3, Some(0)) };
        let whole = anthropic_stream("id", "m", &a);
        assert_eq!(anthropic_live_end(&a, index), whole[skip..]);
        let chunks = openai_stream("id", "m", &a, 7);
        let skip = if text.is_empty() { 1 } else { 2 };
        assert_eq!(openai_live_end("id", "m", 7, &a), chunks[skip..]);
        let last = chunks.last().unwrap();
        assert!(items(last, "choices").is_empty() && last.get("usage").is_some());
        let finished = |c: &Json| items(c, "choices").iter().any(|x| words(x, "finish_reason").is_some());
        let at: Vec<usize> = (0..chunks.len()).filter(|i| finished(&chunks[*i])).collect();
        assert_eq!(at, [chunks.len() - 2]);
    }
}

#[test]
fn cache_hits_are_a_part_of_the_prompt() {
    let ours = TokenUsage {
        prompt: 9,
        completion: 3,
        cached: 0,
        reasoning: 0,
    };
    let sound = ours.reconcile(TokenUsage::from_meta(&json(
        r#"{"prompt_tokens":12,"completion_tokens":1,"cached_tokens":4}"#,
    )));
    assert_eq!((sound.prompt, sound.completion, sound.cached), (12, 3, 4));
    let inflated = ours.reconcile(TokenUsage::from_meta(&json(
        r#"{"prompt_tokens":2,"completion_tokens":1,"cached_tokens":400}"#,
    )));
    assert_eq!((inflated.prompt, inflated.cached), (9, 9));
}

#[test]
fn billed_usage_takes_the_tokenizer_when_the_worker_under_reports() {
    let low = json(r#"{ "prompt_tokens": 1, "completion_tokens": 1 }"#);
    let counted = TokenUsage {
        prompt: 9,
        completion: 2,
        cached: 0,
        reasoning: 0,
    };
    let billed = Usage::billed(counted, &low);
    assert!(
        billed.input > 1,
        "what was counted here must beat a worker that reported 1, got {}",
        billed.input
    );
    assert!(
        billed.output >= 2,
        "2 tokens were counted here, worker said 1, got {}",
        billed.output
    );
}

#[test]
fn a_picture_in_an_anthropic_turn_reaches_the_worker() {
    let chat = anthropic(
        r#"{
            "model": "qwen2.5-vl",
            "max_tokens": 100,
            "messages": [{
                "role": "user",
                "content": [
                    { "type": "image", "source": {
                        "type": "base64", "media_type": "image/jpeg", "data": "/9j/4AAQ" } },
                    { "type": "text", "text": "what is in this picture?" }
                ]
            }]
        }"#,
    );
    let user = chat.params.messages.last().unwrap();
    assert_eq!(user.content, "what is in this picture?");
    assert_eq!(user.images, vec!["data:image/jpeg;base64,/9j/4AAQ"]);
}

#[test]
fn a_picture_in_an_openai_turn_reaches_the_worker() {
    let chat = openai(
        r#"{
            "model": "qwen2.5-vl",
            "messages": [{
                "role": "user",
                "content": [
                    { "type": "text", "text": "read this" },
                    { "type": "image_url",
                      "image_url": { "url": "data:image/png;base64,iVBORw0KGgo" } }
                ]
            }]
        }"#,
    );
    let user = chat.params.messages.last().unwrap();
    assert_eq!(user.content, "read this");
    assert_eq!(user.images, vec!["data:image/png;base64,iVBORw0KGgo"]);
}

#[test]
fn a_picture_that_is_a_link_is_dropped_rather_than_fetched() {
    let chat = openai(
        r#"{
            "model": "m",
            "messages": [{
                "role": "user",
                "content": [
                    { "type": "text", "text": "look" },
                    { "type": "image_url", "image_url": { "url": "http://169.254.169.254/latest/meta-data/" } }
                ]
            }]
        }"#,
    );
    assert!(chat.params.messages.last().unwrap().images.is_empty());
}

#[test]
fn a_turn_that_is_only_a_picture_still_becomes_a_message() {
    let mut out = Vec::new();
    push_anthropic_turn(
        &mut out,
        "user",
        &json(
            r#"[{ "type": "image", "source": {
                "type": "base64", "media_type": "image/png", "data": "iVBORw0KGgo" } }]"#,
        ),
    );
    assert_eq!(out.len(), 1);
    assert!(out[0].content.is_empty());
    assert_eq!(out[0].images.len(), 1);
}

#[test]
fn a_plain_string_input_becomes_a_user_turn() {
    let req = responses(r#"{ "model": "m", "input": "hi there" }"#);
    assert_eq!(req.params.messages.len(), 1);
    assert_eq!(req.params.messages[0].role, "user");
    assert_eq!(req.params.messages[0].content, "hi there");
}

#[test]
fn instructions_become_the_first_message() {
    let req = responses(
        r#"{
            "model": "m",
            "instructions": "Be terse.",
            "input": [{ "type": "message", "role": "user", "content": [
                { "type": "input_text", "text": "hi" }
            ]}]
        }"#,
    );
    assert_eq!(req.params.messages.len(), 2);
    assert_eq!(req.params.messages[0].role, "system");
    assert_eq!(req.params.messages[0].content, "Be terse.");
    assert_eq!(req.params.messages[1].content, "hi");
}

#[test]
fn developer_role_is_treated_as_system() {
    let req = responses(
        r#"{
            "model": "m",
            "input": [
                { "type": "message", "role": "developer", "content": [
                    { "type": "input_text", "text": "follow the rules" }
                ]},
                { "type": "message", "role": "user", "content": [
                    { "type": "input_text", "text": "hi" }
                ]}
            ]
        }"#,
    );
    assert_eq!(req.params.messages[0].role, "system");
}

#[test]
fn a_function_call_and_its_output_round_trip() {
    let req = responses(
        r#"{
            "model": "m",
            "input": [
                { "type": "message", "role": "user", "content": [
                    { "type": "input_text", "text": "weather?" }
                ]},
                { "type": "function_call", "call_id": "c1", "name": "get_weather", "arguments": "{\"city\":\"Paris\"}" },
                { "type": "function_call_output", "call_id": "c1", "output": "18C" }
            ]
        }"#,
    );

    let m = &req.params.messages;
    assert_eq!(m.len(), 3);
    assert_eq!(m[1].role, "assistant");
    assert_eq!(m[1].tool_calls[0].name, "get_weather");
    assert_eq!(m[2].role, "tool");
    assert_eq!(m[2].tool_call_id.as_deref(), Some("c1"));
    assert_eq!(m[2].content, "18C");
}

#[test]
fn responses_tools_have_no_nested_function_object() {
    let req = responses(
        r#"{
            "model": "m",
            "input": "hi",
            "tools": [{
                "type": "function", "name": "get_weather", "description": "…",
                "parameters": { "type": "object" }
            }]
        }"#,
    );
    assert_eq!(req.params.tools[0].name, "get_weather");
}

#[test]
fn a_responses_reply_carries_output_text_and_usage() {
    let answer = answering("Hi!", vec![]);
    let body = openai_response("id1", "m", &answer, 0);
    assert_eq!(text_at(&body, &["output_text"]), "Hi!");
    assert_eq!(text_at(&body, &["output", "0", "type"]), "message");
    assert_eq!(text_at(&body, &["output", "0", "content", "0", "text"]), "Hi!");
    assert_eq!(text_at(&body, &["status"]), "completed");
}

#[test]
fn a_responses_tool_call_becomes_a_function_call_output_item() {
    let answer = answering("", vec![call("Read", "{\"path\":\"a\"}")]);
    let body = openai_response("id1", "m", &answer, 0);
    assert_eq!(text_at(&body, &["output", "0", "type"]), "function_call");
    assert_eq!(text_at(&body, &["output", "0", "name"]), "Read");
    assert_eq!(text_at(&body, &["output", "0", "call_id"]), "toolu_1");
}

#[test]
fn a_streamed_response_ends_with_a_completed_event_carrying_the_full_answer() {
    let answer = answering("hello", vec![]);
    let events = openai_response_stream("id1", "m", &answer, 0);
    let (name, data) = events.last().unwrap();
    assert_eq!(name, "response.completed");
    assert_eq!(text_at(data, &["response", "output_text"]), "hello");
}

#[test]
fn a_streamed_response_opens_the_output_item_before_any_text_delta() {
    let answer = answering("hello", vec![]);
    let events = openai_response_stream("id1", "m", &answer, 0);
    let names = event_names(&events);
    let added = names.iter().position(|n| *n == "response.output_item.added").unwrap();
    let part = names.iter().position(|n| *n == "response.content_part.added").unwrap();
    let delta = names.iter().position(|n| *n == "response.output_text.delta").unwrap();
    assert!(added < part, "{names:?}");
    assert!(part < delta, "{names:?}");
    assert!(names.contains(&"response.output_text.done"));
    assert!(names.contains(&"response.content_part.done"));
    assert!(names.contains(&"response.output_item.done"));
    assert!(names.contains(&"response.in_progress"));
}

#[test]
fn a_tool_only_stream_does_not_reserve_output_index_zero_for_missing_text() {
    let answer = answering("", vec![call("Read", "{\"path\":\"a\"}")]);
    let events = openai_response_stream("id1", "m", &answer, 0);
    let added = events
        .iter()
        .find(|(n, _)| n == "response.output_item.added")
        .map(|(_, v)| v)
        .unwrap();
    assert_eq!(at(added, &["output_index"]), Json::Number(0));
    assert_eq!(text_at(added, &["item", "type"]), "function_call");
    assert!(
        event_names(&events)
            .iter()
            .filter(|n| **n == "response.output_item.done")
            .count()
            == 1,
        "the function_call item must close before response.completed"
    );
}

#[test]
fn live_end_without_a_prior_text_item_still_opens_one() {
    let answer = answering("hi", vec![]);
    let events = responses_live_end("id1", "m", &answer, 0, false);
    assert_eq!(
        event_names(&events),
        vec![
            "response.output_item.added",
            "response.content_part.added",
            "response.output_text.delta",
            "response.output_text.done",
            "response.content_part.done",
            "response.output_item.done",
            "response.completed",
        ]
    );
}

#[test]
fn no_opening_tag_is_left_however_tags_are_nested() {
    assert_eq!(peel_thinking("<thi<thinking>x</thinking>nk>y"), "");
    assert_eq!(peel_thinking("a<thi<thinking>x</thinking>nk>y</think>b"), "ab");
    assert_eq!(peel_thinking("<<think>a</think>think>b</think>c"), "c");
    for s in ["a\n\n  b \n", "<think>x</think> y", "plain", "  <thinking>z"] {
        let once = peel_thinking(s);
        assert_eq!(peel_thinking(&once), once, "peeling again changes nothing");
    }
}
