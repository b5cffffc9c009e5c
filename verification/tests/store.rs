//! What is kept on this machine.
use rootmode_desktop::error::AppError;
use rootmode_desktop::json::Json;
use rootmode_desktop::protocol::{
    ChatMessage, JobKind, JobPayload, JobStatus, LlmParams, ModelDescriptor, Price,
};
use rootmode_desktop::results::ResultRecord;
use rootmode_desktop::store::{
    Db, JobRecord, Settlement, SpendEntry, StoredDeposit, MOCK_PEER_ID,
};

const NOW: i64 = 1_700_000_000;

fn db() -> Db {
    Db::open(Db::new(), false, NOW).unwrap()
}

fn payload() -> JobPayload {
    JobPayload::Llm(LlmParams {
        model_hash: None,
        model_id: Some("mock-llm".into()),
        messages: vec![ChatMessage::new("user", "ping".into())],
        tools: Vec::new(),
        max_tokens: 32,
        temperature: 0,
    })
}

fn job(job_id: u128, conversation: Option<&str>, status: JobStatus, at: i64) -> JobRecord {
    let p = payload();
    JobRecord {
        job_id,
        conversation_id: conversation.map(str::to_string),
        peer_id: MOCK_PEER_ID.into(),
        peer_label: String::new(),
        kind: p.kind(),
        summary: "ping".into(),
        model: "mock-llm".into(),
        payload: p,
        status,
        progress: 0.5f32.to_bits(),
        error: None,
        created_at: at,
        updated_at: at,
    }
}

fn say(db: &mut Db, chat: &str, role: &str, content: &str) {
    db.add_message(
        chat, role, content, &None, &None, &None, &None, None, None, &None, NOW,
    )
    .unwrap();
}

fn answer(db: &mut Db, chat: &str, text: &str, model: &str, tokens: Option<u64>, cost: Option<u64>) {
    db.add_message(
        chat,
        "assistant",
        text,
        &None,
        &None,
        &Some(model.to_string()),
        &None,
        tokens,
        cost,
        &None,
        NOW,
    )
    .unwrap();
}

fn mark(db: &mut Db, id: &str, status: &str) {
    db.update_peer_status(
        id, status, None, None, None, None, None, None, None, None, NOW,
    );
}

fn spend(job: &str, model: &str, tokens: Option<u64>, cost: u64, at: i64) -> SpendEntry {
    SpendEntry {
        job_id: job.into(),
        model: model.into(),
        peer: Some("gpu box".into()),
        tokens,
        cost_micros: cost,
        at,
        cumulative_micros: None,
        payout: None,
        abandoned: false,
        bond_cumulative: None,
        chunk_micros: None,
        settle_tx: None,
        settle_block: None,
        settle_url: None,
    }
}

fn settlement(tx: &str, cumulative: u64, block: u64, paid: u64, fee: u64) -> Settlement {
    Settlement {
        tx_hash: tx.into(),
        payout: "0xabc".into(),
        cumulative,
        block,
        paid_to_worker: paid,
        fee,
    }
}

#[test]
fn the_fake_worker_is_off_unless_asked_for() {
    let mut db = db();
    assert!(
        db.list_peers().is_empty(),
        "a fresh install lists no providers at all, real or pretend"
    );

    db.enable_mock_peer(NOW).unwrap();
    let peers = db.list_peers();
    assert_eq!(peers.len(), 1);
    assert!(peers[0].is_mock());

    db.remove_peer(MOCK_PEER_ID);
    assert_eq!(
        db.list_peers().len(),
        1,
        "while enabled it is not removable by hand"
    );
}

#[test]
fn dead_discovered_peers_are_forgotten() {
    let mut db = db();
    let alive = db.upsert_discovered_peer("alive", "p2p://aa", NOW).unwrap();
    let dead = db.upsert_discovered_peer("dead", "p2p://bb", NOW).unwrap();
    let typed = db
        .add_peer("typed by hand", "ws://10.0.0.9:9944", &None, NOW)
        .unwrap();

    mark(&mut db, &alive, "online");
    mark(&mut db, &dead, "offline");
    mark(&mut db, &typed, "offline");

    assert_eq!(db.prune_dead_discovered(0, NOW), 1);

    let left: Vec<String> = db
        .list_peers()
        .into_iter()
        .map(|p| p.label.clone())
        .collect();
    assert!(left.contains(&"alive".to_string()));
    assert!(
        left.contains(&"typed by hand".to_string()),
        "a peer you added yourself is never forgotten for you"
    );
    assert!(!left.contains(&"dead".to_string()));
}

#[test]
fn job_roundtrip_and_orphan_sweep() {
    let mut db = db();
    db.enable_mock_peer(NOW).unwrap();
    db.insert_job(job(1, None, JobStatus::Running, NOW)).unwrap();

    let listed = db.list_jobs(10);
    assert_eq!(listed.len(), 1);
    assert_eq!(listed[0].job.summary, "ping");
    assert_eq!(listed[0].peer_label, "mock worker (local)");

    assert_eq!(db.fail_orphaned_jobs(NOW), 1);
    let after = db.get_job(1).unwrap();
    assert_eq!(after.job.status, JobStatus::Failed);
    assert!(after.job.error.as_ref().unwrap().contains("interrupted"));
}

#[test]
fn deleting_a_chat_takes_its_messages_with_it() {
    let mut db = db();
    let keep = db.create_conversation("keep me", "llm", NOW).unwrap();
    let bin = db.create_conversation("delete me", "llm", NOW).unwrap();

    say(&mut db, &keep.id, "user", "still here");
    say(&mut db, &bin.id, "user", "question");
    say(&mut db, &bin.id, "assistant", "answer");

    db.delete_conversation(&bin.id);

    let left = db.list_conversations(&None, 10);
    assert_eq!(left.len(), 1);
    assert_eq!(left[0].title, "keep me");
    assert!(
        db.conversation_messages(&bin.id).is_empty(),
        "messages do not outlive the chat they belonged to"
    );
    assert_eq!(db.conversation_messages(&keep.id).len(), 1);
}

#[test]
fn token_usage_groups_by_model_and_skips_unmeasured() {
    let mut db = db();
    let chat = db.create_conversation("talk", "llm", NOW).unwrap();
    say(&mut db, &chat.id, "user", "hi");
    answer(&mut db, &chat.id, "a", "flash", Some(120), Some(2400));
    db.record_spend(spend("flash-a", "flash", Some(120), 2400, 100))
        .unwrap();
    answer(&mut db, &chat.id, "b", "flash", Some(80), Some(1600));
    db.record_spend(spend("flash-b", "flash", Some(80), 1600, 101))
        .unwrap();
    answer(&mut db, &chat.id, "c", "opus", Some(50), None);
    answer(&mut db, &chat.id, "no count", "opus", None, None);

    let usage = db.token_usage().unwrap();
    assert_eq!(usage.len(), 2);
    assert_eq!(usage[0].model, "flash");
    assert_eq!(usage[0].tokens, 200);
    assert_eq!(usage[0].replies, 2, "a billed chat reply is not counted twice");
    assert_eq!(usage[0].cost_micros, 4000);
    assert_eq!(usage[1].model, "opus");
    assert_eq!(usage[1].tokens, 50);
    assert_eq!(usage[1].replies, 1);
    assert_eq!(usage[1].cost_micros, 0, "an unrecorded bill sums as nothing, not a guess");

    db.record_spend(spend("gw-1", "gateway-only", Some(500), 990, 102))
        .unwrap();
    let usage = db.token_usage().unwrap();
    let gw = usage.iter().find(|u| u.model == "gateway-only").unwrap();
    assert_eq!(gw.tokens, 500);
    assert_eq!(gw.replies, 1);
    assert_eq!(gw.cost_micros, 990);
}

#[test]
fn the_spend_ledger_lists_bills_newest_first_and_never_doubles_a_job() {
    let mut db = db();
    let model = "deepseek-v4-flash-0731";
    db.record_spend(spend("job-1", model, Some(1367), 2734, 100))
        .unwrap();
    db.record_spend(spend("job-2", model, None, 0, 200)).unwrap();

    let ledger = db.spend_history(10);
    assert_eq!(ledger.len(), 2);
    assert_eq!(ledger[0].job_id, "job-2");
    assert_eq!(
        ledger[0].cost_micros, 0,
        "a priced job that billed nothing still shows"
    );
    assert_eq!(ledger[1].job_id, "job-1");
    assert_eq!(ledger[1].peer.as_deref(), Some("gpu box"));
    assert_eq!(ledger[1].tokens, Some(1367));
    assert_eq!(ledger[1].cost_micros, 2734);

    db.record_spend(spend("job-2", model, Some(90), 180, 201))
        .unwrap();
    let ledger = db.spend_history(10);
    assert_eq!(ledger.len(), 2);
    assert_eq!(ledger[0].cost_micros, 180);
}

#[test]
fn a_reply_points_at_the_settle_that_first_covered_its_ticket() {
    let mut db = db();
    for (job, cumulative) in [("j1", 1_000), ("j2", 1_400), ("j3", 1_800)] {
        let mut s = spend(job, "glm-5.2", Some(1000), 400, 100);
        s.peer = Some("perch".into());
        s.cumulative_micros = Some(cumulative);
        s.payout = Some("0xAbC".into());
        db.record_spend(s).unwrap();
    }
    db.record_settlement(settlement("0xTX1", 1_400, 7, 1_260, 140)).unwrap();

    let tx = |rows: &Vec<SpendEntry>, id: &str| {
        rows.iter().find(|r| r.job_id == id).unwrap().settle_tx.clone()
    };
    let rows = db.spend_history(10);
    assert_eq!(tx(&rows, "j1").as_deref(), Some("0xtx1"));
    assert_eq!(tx(&rows, "j2").as_deref(), Some("0xtx1"), "shares the batch");
    assert_eq!(tx(&rows, "j3"), None, "charged, not yet collected");

    db.record_settlement(settlement("0xTX2", 2_000, 9, 540, 60)).unwrap();
    let rows = db.spend_history(10);
    assert_eq!(tx(&rows, "j3").as_deref(), Some("0xtx2"));
    assert_eq!(
        tx(&rows, "j1").as_deref(),
        Some("0xtx1"),
        "the first covering tx, not the newest"
    );
}

#[test]
fn a_stopped_reply_costs_its_chunk_only_once_the_chain_says_so() {
    let mut db = db();
    let mut s = spend("stopped", "kimi-k3", None, 0, 100);
    s.peer = Some("anvil".into());
    s.payout = Some("0xabc".into());
    s.abandoned = true;
    s.bond_cumulative = Some(2_111_626);
    s.chunk_micros = Some(500_000);
    db.record_spend(s).unwrap();
    assert!(
        db.spend_history(10).is_empty(),
        "nothing deducted yet, so nothing to list"
    );
    db.record_settlement(settlement("0xother", 2_111_700, 5, 0, 0)).unwrap();
    assert_eq!(db.resolve_abandoned(), 0);
    db.record_settlement(settlement("0xchunk", 2_111_626, 4, 450_000, 50_000)).unwrap();
    assert_eq!(db.resolve_abandoned(), 1);
    let rows = db.spend_history(10);
    assert_eq!(rows.len(), 1);
    assert!(rows[0].abandoned);
    assert_eq!(rows[0].cost_micros, 500_000);
    assert_eq!(rows[0].settle_tx.as_deref(), Some("0xchunk"));
}

#[test]
fn a_bill_recorded_after_the_reply_lands_on_that_reply() {
    let mut db = db();
    let chat = db.create_conversation("talk", "llm", NOW).unwrap();
    db.add_message(
        &chat.id,
        "assistant",
        "answer",
        &Some("job-1".into()),
        &None,
        &Some("flash".into()),
        &None,
        Some(10),
        None,
        &None,
        NOW,
    )
    .unwrap();
    db.set_job_cost("job-1", 55).unwrap();
    assert_eq!(db.conversation_messages(&chat.id)[0].cost_micros, Some(55));
}

fn deposit(tx: &str, amount: u64, block: u64, at: i64) -> StoredDeposit {
    StoredDeposit {
        tx_hash: tx.into(),
        amount_micros: amount,
        max_per_job_micros: 500_000,
        max_per_day_micros: 2_000_000,
        block,
        at,
        chain_id: 8453,
        client: "0xabc".into(),
    }
}

#[test]
fn a_deposit_is_listed_newest_first_and_not_duplicated() {
    let mut db = db();
    db.record_deposit(deposit("0xaaa", 5_000_000, 10, 100)).unwrap();
    db.record_deposit(deposit("0xbbb", 1_000_000, 11, 200)).unwrap();
    db.record_deposit(deposit("0xbbb", 1_000_000, 11, 200)).unwrap();

    let list = db.list_deposits();
    assert_eq!(list.len(), 2);
    assert_eq!(list[0].tx_hash, "0xbbb");
    assert_eq!(list[1].amount_micros, 5_000_000);
    assert_eq!(db.last_deposit_client(8453).as_deref(), Some("0xabc"));
}

fn picture(job_id: u128, path: Option<&str>, at: i64) -> ResultRecord {
    ResultRecord {
        job_id,
        kind: JobKind::Image,
        sha256: "abc".into(),
        text: None,
        image_path: path.map(str::to_string),
        meta: Json::record(),
        created_at: at,
    }
}

#[test]
fn deleting_everything_leaves_nothing_behind() {
    let mut db = db();
    db.enable_mock_peer(NOW).unwrap();

    let chat = db.create_conversation("talk", "llm", NOW).unwrap();
    say(&mut db, &chat.id, "user", "hello");
    db.insert_job(job(9, Some(&chat.id), JobStatus::Done, NOW)).unwrap();
    db.insert_result(picture(9, Some("/tmp/rootmode-test-picture.png"), NOW))
        .unwrap();

    assert_eq!(
        db.all_result_paths(),
        vec!["/tmp/rootmode-test-picture.png".to_string()]
    );

    db.clear_history();

    assert!(db.list_conversations(&None, 10).is_empty());
    assert!(db.conversation_messages(&chat.id).is_empty());
    assert!(db.list_jobs(10).is_empty());
    assert!(db.get_result(9).is_none());
    assert!(
        !db.list_peers().is_empty(),
        "providers are not history and outlive a wipe"
    );
}

#[test]
fn a_chat_is_listed_by_when_it_last_had_activity() {
    let mut db = db();
    let first = db.create_conversation("older", "llm", NOW).unwrap();
    let second = db.create_conversation("newer", "llm", NOW).unwrap();

    say(&mut db, &first.id, "user", "hello again");

    let listed: Vec<String> = db
        .list_conversations(&None, 10)
        .into_iter()
        .map(|c| c.title)
        .collect();
    assert_eq!(listed.first().map(String::as_str), Some("older"));
    assert!(listed.contains(&second.title));
}

#[test]
fn settings_upsert() {
    let mut db = db();
    assert!(db.get_setting("theme").is_none());
    db.set_setting("theme", "dark").unwrap();
    db.set_setting("theme", "dark-amber").unwrap();
    assert_eq!(db.get_setting("theme").as_deref(), Some("dark-amber"));
}

#[test]
fn an_endpoint_is_listed_once() {
    let mut db = db();
    let first = db.add_peer("a", "ws://1.2.3.4:1", &None, NOW).unwrap();
    let err = db.add_peer("b", "ws://1.2.3.4:1", &None, NOW).unwrap_err();
    assert_eq!(
        err,
        AppError::Db("UNIQUE constraint failed: peers.endpoint".into())
    );
    let found = db.upsert_discovered_peer("c", "ws://1.2.3.4:1", NOW).unwrap();
    assert_eq!(found, first, "a peer you added stays the one you added");
    assert_eq!(db.get_peer(&first).unwrap().source, "manual");
}

#[test]
fn what_a_peer_does_not_say_again_stays_known() {
    let mut db = db();
    let id = db.add_peer("a", "ws://1.2.3.4:1", &None, NOW).unwrap();
    db.update_peer_status(
        &id,
        "online",
        Some(12),
        Some("key".into()),
        Some(vec!["llm".into()]),
        Some(vec![ModelDescriptor {
            id: "m".into(),
            sha256: None,
            kind: JobKind::Llm,
            price: Some(Price::new(1)),
            video: None,
        }]),
        Some(3),
        Some("NL".into()),
        None,
        Some("0x1".into()),
        NOW,
    );
    db.update_peer_status(
        &id,
        "offline",
        None,
        None,
        None,
        None,
        None,
        None,
        Some("gone".into()),
        None,
        NOW + 5,
    );
    let p = db.get_peer(&id).unwrap();
    assert_eq!(p.status, "offline");
    assert_eq!(p.latency_ms, None);
    assert_eq!(p.peer_id.as_deref(), Some("key"));
    assert_eq!(p.caps, vec!["llm"]);
    assert_eq!(p.models.len(), 1);
    assert_eq!(p.max_concurrent, 3);
    assert_eq!(p.country.as_deref(), Some("NL"));
    assert_eq!(p.payout.as_deref(), Some("0x1"));
    assert_eq!(p.last_seen, Some(NOW), "seen when it was last online");
    assert_eq!(p.last_error.as_deref(), Some("gone"));
}

#[test]
fn a_peer_label_is_cut_to_forty_characters() {
    let mut db = db();
    let id = db.add_peer("a", "ws://1.2.3.4:1", &None, NOW).unwrap();
    db.rename_peer(&id, &"n".repeat(50));
    assert_eq!(db.get_peer(&id).unwrap().label, "n".repeat(40));
    db.remove_peer(&id);
    assert!(db.get_peer(&id).is_none());
}

#[test]
fn the_worker_in_this_process_is_listed_first() {
    let mut db = db();
    db.add_peer("older", "ws://1.2.3.4:1", &None, NOW - 100).unwrap();
    db.add_peer("newer", "ws://1.2.3.4:2", &None, NOW).unwrap();
    db.enable_mock_peer(NOW).unwrap();
    let labels: Vec<&str> = db.list_peers().iter().map(|p| p.label.as_str()).collect();
    assert_eq!(labels, ["mock worker (local)", "older", "newer"]);
    assert_eq!(db.counts(), (2, 0, 0));
    db.remove_mock_peer();
    assert_eq!(db.list_peers().len(), 2);
}

#[test]
fn a_message_number_is_never_given_twice() {
    let mut db = db();
    let a = db.create_conversation("a", "llm", NOW).unwrap();
    say(&mut db, &a.id, "user", "one");
    say(&mut db, &a.id, "user", "two");
    let last = db.conversation_messages(&a.id)[1].id;
    db.delete_conversation(&a.id);
    let b = db.create_conversation("b", "llm", NOW).unwrap();
    say(&mut db, &b.id, "user", "three");
    assert!(db.conversation_messages(&b.id)[0].id > last);
}

#[test]
fn a_message_needs_a_chat() {
    let mut db = db();
    let err = db
        .add_message(
            "nowhere", "user", "hi", &None, &None, &None, &None, None, None, &None, NOW,
        )
        .unwrap_err();
    assert_eq!(err, AppError::Db("FOREIGN KEY constraint failed".into()));
}

#[test]
fn a_number_too_large_for_a_row_is_refused() {
    let mut db = db();
    let c = db.create_conversation("a", "llm", NOW).unwrap();
    let too_much = Some(u64::MAX);
    assert!(db
        .add_message(&c.id, "user", "x", &None, &None, &None, &None, too_much, None, &None, NOW)
        .is_err());
    assert!(db.set_job_cost("j", u64::MAX).is_err());
    assert!(db.record_spend(spend("j", "m", too_much, 1, 1)).is_err());
}

#[test]
fn usage_that_cannot_be_summed_is_an_error() {
    let mut db = db();
    db.record_spend(spend("a", "m", None, u64::MAX, 1)).unwrap();
    assert_eq!(
        db.token_usage().unwrap_err(),
        AppError::Db("integer overflow".into())
    );
}

#[test]
fn a_reply_that_names_no_model_is_counted_as_unknown() {
    let mut db = db();
    let c = db.create_conversation("a", "llm", NOW).unwrap();
    answer(&mut db, &c.id, "x", "", Some(3), None);
    let usage = db.token_usage().unwrap();
    assert_eq!(usage[0].model, "unknown");
    assert_eq!(usage[0].tokens, 3);
}

#[test]
fn a_chat_shows_the_first_line_of_what_was_said_last() {
    let mut db = db();
    let c = db.create_conversation("a", "image", NOW).unwrap();
    say(&mut db, &c.id, "user", "first");
    say(&mut db, &c.id, "assistant", &format!("{}\nmore", "y".repeat(100)));
    let shown = db.list_conversations(&Some("image".into()), 10);
    assert_eq!(shown[0].preview, "y".repeat(80));
    assert_eq!(shown[0].message_count, 2);
    assert!(db.list_conversations(&Some("llm".into()), 10).is_empty());
    db.rename_conversation(&c.id, "renamed", NOW + 1);
    assert_eq!(db.list_conversations(&None, 10)[0].title, "renamed");
}

#[test]
fn a_job_is_kept_once_and_listed_newest_first() {
    let mut db = db();
    db.insert_job(job(1, None, JobStatus::Done, 10)).unwrap();
    db.insert_job(job(2, Some("c"), JobStatus::Done, 20)).unwrap();
    assert!(db.insert_job(job(2, None, JobStatus::Done, 30)).is_err());
    let ids: Vec<u128> = db.list_jobs(10).iter().map(|l| l.job.job_id).collect();
    assert_eq!(ids, [2, 1]);
    assert_eq!(db.list_jobs(1).len(), 1);
    assert_eq!(db.list_jobs(10)[0].peer_label, "mock", "an unknown peer goes by its id");
    assert_eq!(db.conversation_job_ids("c"), vec![2]);
    db.update_job_status(1, JobStatus::Failed, 0, Some("why".into()), 40);
    db.update_job_status(1, JobStatus::Failed, 0, None, 50);
    let j = db.get_job(1).unwrap();
    assert_eq!(j.job.error.as_deref(), Some("why"), "a reason stays");
    assert_eq!(j.job.updated_at, 50);
}

#[test]
fn a_result_replaces_the_one_before() {
    let mut db = db();
    db.insert_result(picture(1, Some("/a"), 10)).unwrap();
    db.insert_result(picture(2, None, 20)).unwrap();
    db.insert_result(picture(1, Some("/b"), 5)).unwrap();
    assert_eq!(db.get_result(1).unwrap().image_path.as_deref(), Some("/b"));
    let ids: Vec<u128> = db
        .list_results(Some(JobKind::Image), 10)
        .iter()
        .map(|r| r.job_id)
        .collect();
    assert_eq!(ids, [2, 1]);
    assert!(db.list_results(Some(JobKind::Llm), 10).is_empty());
    assert_eq!(db.all_result_paths(), vec!["/b"]);
}

#[test]
fn deleting_a_result_takes_its_message_and_its_job() {
    let mut db = db();
    let id: u128 = 0x550e8400_e29b_41d4_a716_446655440000;
    let c = db.create_conversation("a", "image", NOW).unwrap();
    db.insert_job(job(id, Some(&c.id), JobStatus::Done, NOW)).unwrap();
    db.insert_result(picture(id, Some("/a"), NOW)).unwrap();
    let text = Some("550e8400-e29b-41d4-a716-446655440000".to_string());
    db.add_message(&c.id, "assistant", "", &text, &None, &None, &None, None, None, &None, NOW)
        .unwrap();
    say(&mut db, &c.id, "user", "stays");
    db.delete_result(id);
    assert!(db.get_result(id).is_none());
    assert!(db.get_job(id).is_none());
    let left = db.conversation_messages(&c.id);
    assert_eq!(left.len(), 1);
    assert_eq!(left[0].content, "stays");
}

#[test]
fn a_scan_starts_where_the_last_one_stopped() {
    let mut db = db();
    assert_eq!(db.settlement_scan_from(8453, 100), 100);
    db.record_deposit(deposit("0xa", 1, 500, 1)).unwrap();
    db.record_deposit(deposit("0xb", 1, 400, 2)).unwrap();
    assert_eq!(db.settlement_scan_from(8453, 100), 400);
    assert_eq!(db.settlement_scan_from(1, 100), 100, "a block of another chain means nothing");
    db.set_setting("settle_scan_block", "900").unwrap();
    assert_eq!(db.settlement_scan_from(8453, 100), 900);
    assert_eq!(db.settlement_scan_from(8453, 1_000), 1_000);
    db.set_setting("settle_scan_block", "not a number").unwrap();
    assert_eq!(db.settlement_scan_from(8453, 100), 400);
}

#[test]
fn rows_that_contradict_each_other_are_not_taken_up() {
    let mut read = Db::new();
    read.settings.push(("a".into(), "1".into()));
    read.settings.push(("a".into(), "2".into()));
    assert_eq!(
        Db::open(read, false, NOW).unwrap_err(),
        AppError::Db("database disk image is malformed".into())
    );
}

#[test]
fn the_worker_in_this_process_is_there_only_when_asked_for() {
    assert_eq!(Db::open(Db::new(), true, NOW).unwrap().peers.len(), 1);
    let mut asked = Db::new();
    asked.set_setting("mock_worker", "true").unwrap();
    let mut db = Db::open(asked, false, NOW).unwrap();
    assert_eq!(db.peers.len(), 1);
    db.set_setting("mock_worker", "false").unwrap();
    assert_eq!(Db::open(db, false, NOW).unwrap().peers.len(), 0);
}
