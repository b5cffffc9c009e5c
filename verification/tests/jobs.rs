//! The life of a job.
use rootmode_desktop::error::AppError;
use rootmode_desktop::jobs::{
    after_attempt, apply_message, asked_price, check_caps, for_model, lock_failed,
    lock_for, route_for, with_workable_ceiling, Apply, Attempt, Lock, Next, Outcome, Route,
    MIN_ANSWER_TOKENS,
};
use rootmode_desktop::json::Json;
use rootmode_desktop::net::WorkerMessage;
use rootmode_desktop::pipeline::{enqueue, fail, hand_on, is_local, keep_result, submit};
use rootmode_desktop::pot::ledger::{ChannelSnap, Ledger};
use rootmode_desktop::pot::payment::abandon_job;
use rootmode_desktop::protocol::{
    ChatMessage, ImageParams, JobDelta, JobKind, JobPayload, JobResult, JobStatus,
    JobStatusUpdate, LlmParams, ModelDescriptor, Price,
};
use rootmode_desktop::results::ResultRecord;
use rootmode_desktop::routing::Fallback;
use rootmode_desktop::store::{Db, Settlement, MOCK_PEER_ID};

const NOW: i64 = 1_700_000_000;

fn llm(max_tokens: u32) -> JobPayload {
    JobPayload::Llm(LlmParams {
        model_hash: None,
        model_id: Some("m".into()),
        messages: vec![ChatMessage::new("user", "hi".into())],
        tools: Vec::new(),
        max_tokens,
        temperature: 0,
    })
}

fn image() -> JobPayload {
    JobPayload::Image(ImageParams {
        model_hash: None,
        checkpoint_id: None,
        prompt: "a node".into(),
        from_image: None,
        change: None,
        mask: None,
    })
}

#[test]
fn every_caller_gets_a_ceiling_a_reasoning_model_can_work_under() {
    let asked = |n: u32| {
        let JobPayload::Llm(p) = with_workable_ceiling(llm(n)) else {
            unreachable!("an llm payload stays an llm payload")
        };
        p.max_tokens
    };

    assert_eq!(asked(2048), MIN_ANSWER_TOKENS);
    assert_eq!(asked(64), MIN_ANSWER_TOKENS);
    assert_eq!(asked(32_000), 32_000);

    assert_eq!(with_workable_ceiling(image()), image());
}

#[test]
fn a_request_is_put_to_another_model_by_name() {
    match for_model(llm(1), "other") {
        JobPayload::Llm(p) => assert_eq!(p.model_id.as_deref(), Some("other")),
        x => panic!("{x:?}"),
    }
    assert_eq!(for_model(llm(1), "m"), llm(1));
    assert_eq!(for_model(image(), "other"), image());
}

fn db() -> Db {
    let mut db = Db::new();
    db.enable_mock_peer(NOW).unwrap();
    db
}

#[test]
fn a_job_of_a_kind_the_peer_lacks_is_refused_before_the_wire() {
    let mut db = db();
    let id = db.add_peer("painter", "ws://1.2.3.4:1", &None, NOW).unwrap();
    db.update_peer_status(
        &id,
        "online",
        None,
        None,
        Some(vec!["image".into(), "video".into()]),
        None,
        None,
        None,
        None,
        None,
        NOW,
    );
    let err = submit(&mut db, &id, llm(1), &None, None, "hi", "m", NOW).unwrap_err();
    assert_eq!(
        err.message(),
        "peer 'painter' advertises [image, video] and cannot run llm jobs"
    );
    assert!(db.jobs.is_empty());
    assert!(check_caps(db.get_peer(MOCK_PEER_ID).unwrap(), JobKind::Llm).is_ok());
}

#[test]
fn a_job_is_queued_for_its_peer() {
    let mut db = db();
    let id = submit(&mut db, MOCK_PEER_ID, llm(1), &None, None, "hi", "m", NOW).unwrap();
    let l = db.get_job(id).unwrap();
    assert_eq!(l.job.status, JobStatus::Queued);
    assert_eq!(l.peer_label, "mock worker (local)");
    assert_eq!(l.job.payload, with_workable_ceiling(llm(1)));
    assert!(is_local(&db, id));
    assert!(!is_local(&db, id ^ 1));
    assert_eq!(
        submit(&mut db, "nobody", llm(1), &None, None, "hi", "m", NOW),
        Err(AppError::NotFound("peer nobody".into()))
    );
    assert_eq!(
        submit(&mut db, MOCK_PEER_ID, llm(1), &Some("empty".into()), None, "", "m", NOW),
        Err(AppError::Core("empty".into()))
    );
    fail(&mut Ledger::new(), &mut db, id, "it broke", NOW + 1);
    assert!(db.spends.is_empty(), "nothing was locked for it");
    let l = db.get_job(id).unwrap();
    assert_eq!(l.job.status, JobStatus::Failed);
    assert_eq!(l.job.error.as_deref(), Some("it broke"));
}

#[test]
fn what_was_locked_for_a_failed_job_is_not_forgotten() {
    let mut db = Db::new();
    let mut ledger = Ledger::new();
    let snap = ChannelSnap {
        reserved: 10_000,
        paid: 0,
        earned: 1_000,
        max_per_job: 0,
    };
    let plan = ledger.plan_ticket("0xAB", 500, 0, 10_000, snap);
    assert_eq!((plan.lock, plan.cumulative), (500, 1_500));
    ledger.issue_ticket(7, JobKind::Llm, plan, "m", "gpu box", "0xAB");
    fail(&mut ledger, &mut db, 7, "it broke", NOW);
    assert!(ledger.get(7).is_none());
    let row = &db.spends[0];
    assert!(row.abandoned && row.cost_micros == 0);
    assert_eq!((row.bond_cumulative, row.chunk_micros), (Some(1_500), Some(500)));
    assert_eq!(row.payout.as_deref(), Some("0xab"));
    assert_eq!(row.peer.as_deref(), Some("gpu box"));
    assert!(db.spend_history(10).is_empty(), "nothing was deducted yet");
    db.record_settlement(Settlement {
        tx_hash: "0x1".into(),
        payout: "0xab".into(),
        cumulative: 1_500,
        block: 3,
        paid_to_worker: 450,
        fee: 50,
    })
    .unwrap();
    assert_eq!(db.resolve_abandoned(), 1);
    let shown = db.spend_history(10);
    assert_eq!((shown.len(), shown[0].cost_micros), (1, 500));
    assert_eq!(shown[0].settle_tx.as_deref(), Some("0x1"));
    abandon_job(&mut ledger, &mut db, 7, NOW + 1);
    assert_eq!(db.spends[0].cost_micros, 500, "nothing is left to give up");
}

fn text_record(job_id: u128, meta: &str) -> ResultRecord {
    ResultRecord {
        job_id,
        kind: JobKind::Llm,
        sha256: "abc".into(),
        text: Some("pong".into()),
        image_path: None,
        meta: Json::from_text(meta).unwrap(),
        created_at: NOW,
    }
}

#[test]
fn a_reply_is_filed_into_the_chat_that_asked() {
    let mut db = db();
    let chat = db.create_conversation("talk", "llm", NOW).unwrap();
    let asked = Some(chat.id.clone());
    enqueue(&mut db, 5, MOCK_PEER_ID, llm(1), &None, asked, "hi", "m", NOW).unwrap();
    let record = text_record(5, r#"{"total_tokens":9,"model":"served"}"#);
    let m = keep_result(&mut db, record, &Some("hm".into()), Some(77), NOW + 1)
        .unwrap()
        .unwrap();
    assert_eq!(m.content, "pong");
    assert_eq!(m.role, "assistant");
    assert_eq!(m.model.as_deref(), Some("served"));
    assert_eq!(m.peer.as_deref(), Some("mock worker (local)"));
    assert_eq!(m.tokens, Some(9));
    assert_eq!(m.cost_micros, Some(77));
    assert_eq!(m.thinking.as_deref(), Some("hm"));
    assert_eq!(m.job_id.as_deref(), Some("00000000-0000-0000-0000-000000000005"));
    let l = db.get_job(5).unwrap();
    assert_eq!(l.job.status, JobStatus::Done);
    assert_eq!(f32::from_bits(l.job.progress), 1.0);
    assert_eq!(db.conversation_messages(&chat.id).len(), 1);
}

#[test]
fn a_job_of_no_chat_files_nothing() {
    let mut db = db();
    enqueue(&mut db, 6, MOCK_PEER_ID, llm(1), &None, None, "hi", "m", NOW).unwrap();
    assert_eq!(keep_result(&mut db, text_record(6, "{}"), &None, None, NOW), Ok(None));
    assert!(db.messages.is_empty());
    assert_eq!(db.get_result(6).unwrap().text.as_deref(), Some("pong"));
}

fn status(job_id: u128, status: JobStatus, error: Option<&str>) -> WorkerMessage {
    WorkerMessage::JobStatus(JobStatusUpdate {
        job_id,
        status,
        progress: 0,
        error: error.map(str::to_string),
    })
}

fn delta(job_id: u128, text: &str) -> WorkerMessage {
    WorkerMessage::JobDelta(JobDelta {
        job_id,
        text: text.into(),
        thinking: String::new(),
    })
}

fn result(job_id: u128, text: &str, sha256: &str) -> WorkerMessage {
    WorkerMessage::JobResult(JobResult {
        job_id,
        kind: JobKind::Llm,
        sha256: sha256.into(),
        text: Some(text.into()),
        image_path_or_b64: None,
        tool_calls: vec![],
        thinking: None,
        meta: Json::record(),
    })
}

#[test]
fn a_provider_that_said_nothing_can_be_replaced() {
    let mut a = Attempt::new(1);
    assert_eq!(
        a.hear(&status(1, JobStatus::Failed, None)).as_deref(),
        Some("the provider failed without saying why")
    );
    let mut a = Attempt::new(1);
    assert_eq!(
        a.hear(&result(1, "  ", "")).as_deref(),
        Some("the provider returned no answer")
    );
    let mut a = Attempt::new(1);
    assert_eq!(a.hear(&delta(2, "other job")), None);
    assert!(!a.spoke);
    assert_eq!(
        a.conclude(Some("gone".into()), true),
        (Outcome::Nothing("gone".into()), None)
    );
}

#[test]
fn a_job_that_is_done_is_not_handed_on() {
    let mut a = Attempt::new(1);
    assert_eq!(a.hear(&result(1, "hello", "")), None);
    a.terminal = true;
    assert_eq!(a.hear(&status(1, JobStatus::Failed, Some("late"))), None);
    assert_eq!(a.hear(&result(1, "", "")), None);
    assert_eq!(a.conclude(Some("gone".into()), true), (Outcome::Settled, None));
}

#[test]
fn a_provider_that_spoke_keeps_the_job() {
    let mut a = Attempt::new(1);
    assert_eq!(a.hear(&delta(1, "hel")), None);
    assert!(a.spoke);
    assert_eq!(a.hear(&status(1, JobStatus::Failed, Some("oops"))), None);
    assert_eq!(
        a.conclude(None, true),
        (
            Outcome::Settled,
            Some("peer ended the stream without a final status".into())
        )
    );
    assert_eq!(a.conclude(None, false), (Outcome::Settled, None));
}

#[test]
fn a_job_goes_to_the_first_fallback_that_is_known() {
    assert_eq!(after_attempt(Outcome::Settled, false, &vec![true]), Next::Over);
    let why = || Outcome::Nothing("why".into());
    assert_eq!(after_attempt(why(), true, &vec![true]), Next::Fail("why".into()));
    assert_eq!(after_attempt(why(), false, &vec![false, true, true]), Next::Retry(1));

    let db = db();
    let to = |id: &str| Fallback {
        peer_id: id.into(),
        peer_label: id.into(),
        model: "m".into(),
    };
    let list = vec![to("gone"), to(MOCK_PEER_ID), to(MOCK_PEER_ID)];
    assert_eq!(hand_on(&db, why(), false, &list, 0), Next::Retry(1));
    assert_eq!(hand_on(&db, why(), false, &list, 2), Next::Retry(2));
    assert_eq!(hand_on(&db, why(), false, &list, 3), Next::Fail("why".into()));
}

#[test]
fn a_message_is_applied_to_its_own_job_only() {
    assert_eq!(apply_message(1, &status(2, JobStatus::Done, None), &None), Ok(Apply::Ignore));
    assert_eq!(apply_message(1, &delta(1, ""), &None), Ok(Apply::Ignore));
    assert_eq!(apply_message(1, &delta(1, "x"), &None), Ok(Apply::Delta));
    let done = apply_message(1, &status(1, JobStatus::Done, None), &None).unwrap();
    assert!(done.is_terminal());
    assert_eq!(apply_message(1, &result(1, "x", "AB"), &Some("ab".into())), Ok(Apply::Result));
    assert_eq!(
        apply_message(1, &result(1, "x", "cd"), &Some("ab".into())),
        Err(AppError::Invalid(
            "result hash does not match the invoice this job paid".into()
        ))
    );
}

#[test]
fn a_job_handed_on_is_asked_of_the_other_peer() {
    let mut db = db();
    enqueue(&mut db, 8, MOCK_PEER_ID, llm(9000), &None, None, "hi", "m", NOW).unwrap();
    db.reassign_job(8, "other", for_model(llm(9000), "n"), NOW + 2);
    let l = db.get_job(8).unwrap();
    assert_eq!(l.job.peer_id, "other");
    assert_eq!(l.peer_label, "other");
    match &l.job.payload {
        JobPayload::Llm(p) => assert_eq!(p.model_id.as_deref(), Some("n")),
        x => panic!("{x:?}"),
    }
}

#[test]
fn a_peer_is_reached_by_its_endpoint() {
    let mut db = db();
    for (endpoint, route) in [
        ("ws://1.2.3.4:1", Route::Socket),
        ("p2p://ab", Route::Network),
        ("/ip4/1.2.3.4/tcp/1/p2p/x", Route::Address),
    ] {
        let id = db.add_peer("x", endpoint, &None, NOW).unwrap();
        assert_eq!(route_for(db.get_peer(&id).unwrap()), route);
    }
    assert_eq!(route_for(db.get_peer(MOCK_PEER_ID).unwrap()), Route::InProcess);
}

#[test]
fn a_free_model_asks_nothing() {
    let mut db = db();
    let id = db.add_peer("x", "ws://1.2.3.4:1", &None, NOW).unwrap();
    let model = |id: &str, micros: u64| ModelDescriptor {
        id: id.into(),
        sha256: None,
        kind: JobKind::Llm,
        price: Some(Price::new(micros)),
        video: None,
    };
    db.update_peer_status(
        &id,
        "online",
        None,
        None,
        None,
        Some(vec![model("free", 0), model("llama", 250)]),
        None,
        None,
        None,
        None,
        NOW,
    );
    let p = db.get_peer(&id).unwrap();
    assert_eq!(asked_price(p, "free"), None);
    assert_eq!(asked_price(p, "llama"), Some(250));
    assert_eq!(asked_price(p, "llama-70b"), Some(250), "a longer name of the same model");
    assert_eq!(asked_price(p, "other"), None);
}

#[test]
fn only_a_priced_job_with_a_pot_locks_funds() {
    let client = Some("0xc1".to_string());
    let payout = Some(" 0xabc ".to_string());
    assert_eq!(lock_for(None, &payout, &client, true), Lock::Nothing);
    assert_eq!(lock_for(Some(5), &payout, &None, true), Lock::Nothing);
    assert_eq!(lock_for(Some(5), &payout, &client, false), Lock::Nothing);
    assert_eq!(
        lock_for(Some(5), &payout, &client, true),
        Lock::Funds { price: 5, client: "0xc1".into(), payout: "0xabc".into() }
    );
}

#[test]
fn a_worker_that_names_no_address_cannot_be_locked_for() {
    let client = Some("0xc1".to_string());
    let words = "could not lock funds for this job: this provider did not name a payout address";
    assert_eq!(lock_for(Some(5), &None, &client, true), Lock::Refuse(words.into()));
    let zero = Some("0x0000000000000000000000000000000000000000".to_string());
    assert_eq!(lock_for(Some(5), &zero, &client, true), Lock::Refuse(words.into()));
    assert_eq!(
        lock_failed(&AppError::Net("down".into())),
        "could not lock funds for this job: network: down"
    );
}
