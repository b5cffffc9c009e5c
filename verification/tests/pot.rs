//! Locks, tickets, bills and what the chain says of them.
use rootmode_desktop::error::AppError;
use rootmode_desktop::json::Json;
use rootmode_desktop::pot::chain::{
    account, block_text, channel, encode_settle, explorer_tx, head_block, locked,
    parse_deposit_log, parse_settled_log, read_u64, rpc_body, rpc_candidates, rpc_result,
    slice_end, word_address, word_u256, SPAN,
};
use rootmode_desktop::pot::fund::{fund_reply, FundBody, FundRequest};
use rootmode_desktop::pot::ledger::{
    billable_usage, job_lock, reserve_ticket, reserve_to_sign, spend_ticket, text_lock_micros, worker_key,
    worst_case_micros, ChannelSnap, JobInvoice, LatestTicket, Ledger, SpendTicket,
    DEFAULT_MAX_JOB,
};
use rootmode_desktop::pot::payment::{
    channel_unreadable, flush_due, flush_time, receipt, record_job_cost, retry_wait_ms, settle_draw,
    settle_job, settled, signature_text, spend_entry, wait_ok, within, Payment, Receipt, Unbilled,
};
use rootmode_desktop::pot::scan::{deposited_logs, deposits_query, Scan};
use rootmode_desktop::pot::wallet;
use rootmode_desktop::pot::wallet::{
    boot, check, deposits, find_client, first_usable, fund_url, is_zero_addr, key_from_hex,
    lock_addresses, named_payout, remembered_client, save_deposit, sum_locked,
    unconfigured, urlencoding_lite, usable, use_local_chain, worth_keeping, ChainConfig, DepositBody, DiskTicket, FundAuth,
    PotStatus,
};
use rootmode_desktop::protocol::JobKind;
use rootmode_desktop::store::{Db, StoredDeposit};

const NOW: i64 = 1_700_000_000;

fn json(text: &str) -> Json {
    Json::from_text(text).unwrap()
}

fn snap(reserved: u64, paid: u64, earned: u64, max_per_job: u64) -> ChannelSnap {
    ChannelSnap {
        reserved,
        paid,
        earned,
        max_per_job,
    }
}

#[test]
fn whole_slices_are_locked_for_a_text_job() {
    assert_eq!(text_lock_micros(0, 8192, 250_000), 250_000);
    assert_eq!(text_lock_micros(999_000, 8192, 250_000), 500_000);
    assert_eq!(text_lock_micros(0, 0, 0), 1);
}

#[test]
fn a_lock_stays_within_every_limit() {
    assert_eq!(job_lock(400_000, 0, snap(0, 0, 0, 0)), 400_000);
    assert_eq!(job_lock(900_000, 0, snap(0, 0, 0, 0)), DEFAULT_MAX_JOB);
    assert_eq!(job_lock(900_000, 700_000, snap(0, 0, 0, 600_000)), 600_000);
}

#[test]
fn a_reserve_holds_a_few_jobs() {
    assert_eq!(reserve_to_sign(snap(0, 0, 0, 0), 100, 10_000), Some(400));
    assert_eq!(reserve_to_sign(snap(0, 0, 0, 0), 100, 150), Some(150));
    assert_eq!(reserve_to_sign(snap(500, 0, 100, 0), 100, 10_000), Some(500));
    assert_eq!(reserve_to_sign(snap(0, 0, 0, 0), 100, 0), None);
    let t = reserve_ticket("0xc", "0xw", 400, 10);
    assert_eq!((t.max_amount, t.deadline), (400, 3610));
}

#[test]
fn the_worst_case_is_the_price_of_the_shortest_ceiling() {
    assert_eq!(worst_case_micros(1_000_000, JobKind::Llm, 8192), 8192);
    assert_eq!(worst_case_micros(20_000, JobKind::Image, 8192), 20_000);
    assert_eq!(worst_case_micros(0, JobKind::Video, 8192), 1);
}

fn ledger_with(job: u128, need: u64) -> Ledger {
    let mut l = Ledger::new();
    let plan = l.plan_ticket("0xAA", need, 0, 10_000_000, snap(0, 0, 0, 0));
    l.issue_ticket(job, JobKind::Llm, plan, "model", "gpu box", "0xAA");
    l
}

fn invoice(job_id: u128, amount: u64, top_up: bool) -> JobInvoice {
    JobInvoice {
        job_id,
        amount,
        top_up,
        prompt_tokens: 10,
        completion_tokens: 20,
        cached_tokens: 0,
        sha256: "hash".into(),
    }
}

fn refusal(l: &Ledger, inv: JobInvoice, chunk: u64, fair: u64) -> String {
    Payment::begin(l, 1, inv, chunk, fair, "0.50").unwrap_err().message()
}

#[test]
fn a_ticket_builds_on_what_was_promised() {
    let mut l = Ledger::new();
    let plan = l.plan_ticket("0xAA", 300, 0, 0, snap(1_000, 50, 80, 0));
    assert_eq!(plan.lock, 300);
    assert_eq!(plan.cumulative, 380);
    l.keep_ticket(
        "0xaa",
        LatestTicket {
            ticket: spend_ticket("0xc", "0xaa", 900, 5),
            sig: vec![],
            on_chain_paid: 80,
        },
    );
    let plan = l.plan_ticket("0xAA", 300, 0, 0, snap(1_000, 50, 80, 0));
    assert_eq!(plan.cumulative, 1_200, "addresses are the same in either case");
    assert_eq!(worker_key("0xAA"), "aa");
}

#[test]
fn an_invoice_is_refused_for_each_reason() {
    let l = ledger_with(1, 300_000);
    assert_eq!(refusal(&l, invoice(2, 5, false), 1, 1), "invoice is for a different job");
    assert_eq!(refusal(&l, invoice(1, 0, false), 1, 1), "invoice has no amount");
    assert_eq!(
        refusal(&Ledger::new(), invoice(1, 5, false), 1, 1),
        "no lock on file for this job"
    );
    assert_eq!(
        refusal(&l, invoice(1, 101, false), 1, 100),
        "worker billed 101 µUSDC; advertised price only covers 100"
    );
    assert_eq!(
        refusal(&l, invoice(1, 300_001, false), 1, 1_000_000),
        "invoice exceeds the prepaid slices for this job"
    );
    assert_eq!(
        refusal(&l, invoice(1, 5, true), 10, 1),
        "this reply reached your $0.50 limit for a single job"
    );
}

#[test]
fn a_paid_invoice_pays_the_job_once() {
    let mut l = ledger_with(1, 300_000);
    let p = Payment::begin(&l, 1, invoice(1, 150, false), 1, 150, "0.50").unwrap();
    assert_eq!(
        p.draw(&None, 0, "0.50").unwrap_err().message(),
        "no funded pot"
    );
    assert!(p
        .draw(&Some("0xc".into()), 100, "0.00")
        .unwrap_err()
        .message()
        .contains("per-job cap"));
    let d = p.draw(&Some("0xc".into()), 0, "0.50").unwrap();
    assert_eq!(d.worker, "0xAA");
    assert!(!d.flush_first(&l, snap(0, 0, 0, 0)));
    let (cumulative, on_chain) = d.total(&l, snap(0, 40, 0, 0));
    assert_eq!((cumulative, on_chain), (190, 40));
    let ticket = spend_ticket("0xc", "0xAA", cumulative, 5);
    assert_eq!(ticket.deadline, 3605);
    let charge = p.finish(&mut l, ticket, vec![1, 2], on_chain).unwrap();
    assert_eq!(charge.cost_micros, 150);
    assert_eq!(charge.tokens, Some(30));
    assert_eq!(charge.peer.as_deref(), Some("gpu box"));
    assert_eq!(l.job_cost_micros(1), Some(150));
    assert_eq!(l.expected_sha256(1).as_deref(), Some("hash"));
    assert_eq!(l.cached_cumulative("0xaa"), 190);
    assert!(l.has_pending());
    assert_eq!(refusal(&l, invoice(1, 5, false), 1, 100), "this job is already paid");
    let shown = l.pending_public();
    assert_eq!(shown[0].sig, "0x0102");
    assert_eq!(settle_job(&mut l, 1, &None, 99), Unbilled::Nothing);
}

#[test]
fn what_is_owed_is_settled_before_it_outgrows_the_limit() {
    let mut l = ledger_with(1, 300_000);
    l.keep_ticket(
        "0xAA",
        LatestTicket {
            ticket: spend_ticket("0xc", "0xAA", 400_000, 5),
            sig: vec![],
            on_chain_paid: 0,
        },
    );
    let p = Payment::begin(&l, 1, invoice(1, 200_000, false), 1, 200_000, "0.50").unwrap();
    let d = p.draw(&Some("0xc".into()), 0, "0.50").unwrap();
    assert!(d.flush_first(&l, snap(0, 0, 0, 0)));
    assert!(!d.flush_first(&l, snap(0, 400_000, 0, 0)));
}

#[test]
fn a_job_without_an_invoice_is_billed_at_the_end() {
    let mut l = ledger_with(1, 300_000);
    assert_eq!(settle_job(&mut l, 9, &None, 50), Unbilled::Nothing);
    let meta = Some(json(r#"{"prompt_tokens":3,"completion_tokens":4}"#));
    let (job, cost) = match settle_job(&mut l, 1, &meta, 50) {
        Unbilled::Owes(j, c) => (j, c),
        other => panic!("{other:?}"),
    };
    assert_eq!(cost, 50);
    assert!(l.get(1).is_none());
    assert!(settle_draw(&job, cost, &None, 0).is_err());
    let d = settle_draw(&job, cost, &Some("0xc".into()), 20).unwrap();
    assert_eq!(d.extra, 20, "as far as the limit goes");
    let ticket = spend_ticket("0xc", "0xAA", 20, 0);
    let charge = settled(&mut l, &job, &meta, d.extra, ticket, vec![], 0);
    assert_eq!(charge.tokens, Some(7));
    assert_eq!(charge.cumulative_micros, Some(20));

    let mut l = ledger_with(2, 300_000);
    match settle_job(&mut l, 2, &Some(json("{}")), 50) {
        Unbilled::Free(c) => assert_eq!(c.cost_micros, 0),
        other => panic!("{other:?}"),
    }
    assert_eq!(billable_usage(&Some(json(r#"{"total_tokens":8}"#))).completion, 8);
}

#[test]
fn a_late_bill_lands_on_the_reply_and_among_the_bills() {
    let mut db = Db::new();
    let chat = db.create_conversation("a", "llm", NOW).unwrap();
    let id = Some("00000000-0000-0000-0000-000000000001".to_string());
    db.add_message(&chat.id, "assistant", "x", &id, &None, &None, &None, None, None, &None, NOW)
        .unwrap();
    let mut l = ledger_with(1, 300_000);
    let charge = match settle_job(&mut l, 1, &Some(json("{}")), 50) {
        Unbilled::Free(c) => c,
        other => panic!("{other:?}"),
    };
    record_job_cost(&mut db, 1, charge, NOW);
    assert_eq!(db.conversation_messages(&chat.id)[0].cost_micros, Some(0));
    assert_eq!(db.spend_history(5)[0].cost_micros, 0);
    let mut l = ledger_with(2, 300_000);
    let p = Payment::begin(&l, 2, invoice(2, 9, false), 1, 9, "").unwrap();
    let c = p.finish(&mut l, spend_ticket("c", "0xAA", 9, 0), vec![], 0).unwrap();
    assert_eq!(spend_entry(2, c, NOW).cumulative_micros, Some(9));
}

#[test]
fn the_channel_is_read_three_times_at_most() {
    assert_eq!(
        [retry_wait_ms(0), retry_wait_ms(1), retry_wait_ms(2), retry_wait_ms(3)],
        [Some(0), Some(300), Some(600), None]
    );
    assert!(channel_unreadable("timeout").message().contains("(timeout)"));
    assert!(within(1_000, 3_999, 3_000));
    assert!(!within(1_000, 4_000, 3_000));
    assert!(within(5, 1, 1), "a clock that ran backwards");
    assert!(!flush_due(None, 5));
    assert!(flush_due(Some(5), 5));
    assert_eq!(flush_time(100), 2_100);
    assert_eq!(signature_text(&vec![0xab]), "0xab");
}

#[test]
fn a_receipt_says_what_became_of_it() {
    assert_eq!(receipt(&Json::Null), Receipt::Waiting);
    assert_eq!(receipt(&json(r#"{"status":"0x1"}"#)), Receipt::Done);
    assert_eq!(receipt(&json(r#"{"status":"0x0"}"#)), Receipt::Reverted);
    assert_eq!(receipt(&json("{}")), Receipt::Reverted);
}

#[test]
fn a_settlement_is_waited_for_until_it_is_mined() {
    let done = json(r#"{"status":"0x1"}"#);
    let reverted = json(r#"{"status":"0x0"}"#);
    assert!(wait_ok(1, &Json::Null).is_none());
    assert!(wait_ok(19, &Json::Null).is_none());
    let late = wait_ok(20, &Json::Null).unwrap().unwrap_err();
    assert_eq!(late.message(), "network: settle not mined");
    assert!(wait_ok(20, &done).unwrap().is_ok());
    assert!(wait_ok(1, &done).unwrap().is_ok());
    let lost = wait_ok(1, &reverted).unwrap().unwrap_err();
    assert_eq!(lost.message(), "network: settle reverted");
}

fn words(values: &[u64]) -> Json {
    let mut s = String::from("0x");
    for v in values {
        s.push_str(&format!("{v:064x}"));
    }
    Json::text(&s)
}

#[test]
fn the_chain_answers_in_words() {
    assert_eq!(read_u64(&format!("{:064x}", 77)), 77);
    assert_eq!(read_u64(&"f".repeat(64)), 0, "too large to be an amount");
    let a = account(&words(&[5, 6, 7, 8]));
    assert_eq!((a.balance, a.max_per_job, a.max_per_day, a.spent_today), (5, 6, 7, 8));
    assert_eq!(account(&Json::text("0x")).balance, 0);
    assert_eq!(channel(&words(&[1, 2, 3, 4, 5, 6, 7])), snap(1, 2, 6, 7));
    assert_eq!(channel(&words(&[1, 2, 3, 4, 5, 6])).max_per_job, 0);
    assert_eq!(locked(&words(&[9])), 9);
    assert_eq!(head_block(&Json::text("0x10")), 16);
    assert_eq!(head_block(&Json::Null), 0);
}

#[test]
fn calls_are_made_of_words() {
    let addr = format!("0x{}", "11".repeat(20));
    assert_eq!(word_address(&addr).unwrap()[..12], [0; 12]);
    assert!(word_address("0x11").is_err());
    assert_eq!(word_u256(258)[30..], [1, 2]);
    let t = SpendTicket {
        client: addr.clone(),
        worker_payout: addr,
        cumulative: 1,
        deadline: 2,
    };
    let call = encode_settle(&vec![1, 2, 3, 4], &t, &vec![7; 65]).unwrap();
    assert_eq!((call.len() - 4) % 32, 0);
    assert_eq!(&call[..4], &[1, 2, 3, 4]);
}

fn settled_log(tx: &str, block: &str) -> String {
    format!(
        r#"{{"topics":["0x0","0x1","0x{}"],"data":"0x{:064x}{:064x}{:064x}","blockNumber":"{block}","transactionHash":"{tx}"}}"#,
        format!("{}{}", "0".repeat(24), "CD".repeat(20)),
        1_400,
        1_260,
        140
    )
}

#[test]
fn events_are_read_from_their_logs() {
    let t = parse_settled_log(&json(&settled_log("0xT", "0x1f"))).unwrap();
    assert_eq!((t.cumulative, t.block, t.paid_to_worker, t.fee), (1_400, 31, 1_260, 140));
    assert_eq!(t.payout, format!("0x{}", "CD".repeat(20)));
    assert!(parse_settled_log(&json("{}")).is_none());
    let d = format!(
        r#"[{{"topics":["0x0","0x{}"],"data":"0x{}{}"}},{{"bad":1}}]"#,
        format!("{}{}", "0".repeat(24), "ab".repeat(20)),
        "0".repeat(64 * 3 + 24),
        "EF".repeat(20)
    );
    let logs = deposited_logs(&json(&d));
    assert_eq!(logs.len(), 1);
    assert_eq!(logs[0].client, format!("0x{}", "ab".repeat(20)));
    assert_eq!(
        find_client(&logs, &format!("0x{}", "ef".repeat(20))),
        Some(format!("0x{}", "ab".repeat(20)))
    );
    assert_eq!(find_client(&logs, "0x01"), None);
    assert!(parse_deposit_log(&json("[]")).is_none());
    assert_eq!(
        deposits_query("0xpot", &vec![1]).as_list().unwrap()[0].text_at("toBlock").unwrap(),
        "latest"
    );
}

#[test]
fn a_scan_walks_in_slices_and_remembers_where_it_was() {
    let mut db = Db::new();
    assert!(Scan::begin(&db, 8453, 100, 0).is_none());
    assert!(Scan::begin(&db, 8453, 100, 99).is_none());
    let mut scan = Scan::begin(&db, 8453, 100, 100 + SPAN).unwrap();
    let client = format!("0x{}", "11".repeat(20));
    let q = scan.query("0xpot", &vec![2], &client).unwrap();
    let q = &q.as_list().unwrap()[0];
    assert_eq!(q.text_at("fromBlock").unwrap(), "0x64");
    assert_eq!(q.text_at("toBlock").unwrap(), &format!("0x{:x}", 99 + SPAN));
    assert!(scan.query("0xpot", &vec![2], "0x1").is_err());
    let logs = format!("[{},{}]", settled_log("0xT", "0x65"), settled_log("0xt", "0x66"));
    assert_eq!(scan.take(&mut db, &json(&logs)), Ok(2));
    assert_eq!(db.settlements.len(), 1, "one transaction is recorded once");
    assert_eq!(db.settlements[0].block, 0x66);
    assert_eq!(db.get_setting("settle_scan_block"), Some((100 + SPAN).to_string()));
    assert!(!scan.is_over());
    assert_eq!(scan.take(&mut db, &Json::Null), Ok(0));
    assert!(scan.is_over());
    assert_eq!(slice_end(5, 6), 6);
    assert_eq!(block_text(255), "0xff");
}

#[test]
fn a_node_answers_with_a_result_or_an_error() {
    let body = rpc_body("eth_blockNumber", Json::empty());
    assert_eq!(body.text_at("method").unwrap(), "eth_blockNumber");
    assert_eq!(rpc_result(&json(r#"{"result":"0x1"}"#)), Ok(Json::text("0x1")));
    assert_eq!(
        rpc_result(&json(r#"{"error":{"code":3}}"#)),
        Err(AppError::Net(r#"{"code":3}"#.into()))
    );
    assert_eq!(rpc_candidates("http://127.0.0.1:8545").len(), 1);
    assert_eq!(rpc_candidates("https://mainnet.base.org").len(), 4);
    assert_eq!(
        explorer_tx(8453, "ab").as_deref(),
        Some("https://basescan.org/tx/0xab")
    );
    assert_eq!(explorer_tx(31337, "ab"), None);
}

fn config(chain_id: u64, pot: &str) -> ChainConfig {
    ChainConfig {
        rpc: "http://127.0.0.1:8545".into(),
        chain_id,
        usdc: "0xusdc".into(),
        pot: pot.into(),
        fee_vault: "0x0".into(),
        worker: "0xWW".into(),
        client: String::new(),
        deploy_block: 1,
    }
}

#[test]
fn the_local_chain_is_used_only_where_it_is_meant() {
    assert!(usable(config(31337, "0xp"), false).is_none());
    assert!(usable(config(31337, "0xp"), true).is_some());
    assert!(usable(config(8453, " "), true).is_none());
    let found = vec![config(31337, "0xp"), config(8453, "0xq")];
    assert_eq!(first_usable(found, false).unwrap().pot, "0xq");
}

#[test]
fn a_payout_has_to_be_named() {
    assert!(is_zero_addr("0x0000"));
    assert!(is_zero_addr(""));
    assert!(!is_zero_addr("0x01"));
    assert_eq!(named_payout(&Some(" 0x01 ".into())), Ok("0x01".into()));
    assert!(named_payout(&None).is_err());
    assert_eq!(key_from_hex(&"0a".repeat(32)), Ok(vec![10; 32]));
    assert!(key_from_hex("0a").is_err());
}

fn status(client: Option<&str>, balance: u64) -> PotStatus {
    let mut s = unconfigured("0xkey".into());
    s.configured = true;
    s.reachable = true;
    s.client = client.map(str::to_string);
    s.balance_micros = balance;
    s
}

#[test]
fn only_a_whole_reading_is_kept() {
    let client = Some("0xc".to_string());
    let read = Some(account(&words(&[5, 6, 7, 8])));
    assert!(worth_keeping(true, &client, &read, &Some(1)));
    assert!(!worth_keeping(true, &client, &None, &Some(1)));
    assert!(!worth_keeping(true, &client, &read, &None));
    assert!(!worth_keeping(false, &client, &read, &Some(1)));
    assert!(worth_keeping(true, &None, &None, &None));
}

#[test]
fn a_local_chain_is_asked_for_in_three_ways() {
    for set in ["1", "true", "TRUE"] {
        assert!(use_local_chain(&Some(set.into())), "{set}");
    }
    assert!(!use_local_chain(&Some("yes".into())));
    assert!(!use_local_chain(&None));
}

#[test]
fn answers_are_measured_in_bytes() {
    let data = "0".repeat(256);
    let log = |topic: &str| json(&format!(r#"{{"data":"0x{data}","topics":["0x0","{topic}"]}}"#));
    let twenty = "\u{e9}".repeat(20);
    let d = parse_deposit_log(&log(&twenty)).unwrap();
    assert_eq!(d.client, format!("0x{twenty}"));
    assert_eq!(d.app_key, format!("0x{}", "0".repeat(40)));
    let uneven = format!("a{}{}", "\u{e9}".repeat(20), "b");
    assert!(parse_deposit_log(&log(&uneven)).is_none(), "a cut inside a character");
    let odd = format!("{}{}", "\u{e9}".repeat(32), "0".repeat(63) + "9");
    assert_eq!(locked(&Json::text(&odd)), 0, "the first word is no number");
}

#[test]
fn a_failed_read_keeps_the_last_numbers() {
    let last = Some(status(Some("0xc"), 5_000));
    let s = wallet::status(
        config(8453, "0xp"),
        "0xkey".into(),
        true,
        Some("0xc".into()),
        None,
        None,
        &last,
    );
    assert_eq!(s.balance_micros, 5_000);
    let other = wallet::status(
        config(8453, "0xp"),
        "0xkey".into(),
        true,
        Some("0xd".into()),
        None,
        Some(3),
        &last,
    );
    assert_eq!(other.balance_micros, 0);
    assert_eq!(other.reserved_micros, 3);
    assert_eq!(remembered_client(&None, &last).as_deref(), Some("0xc"));
    assert_eq!(sum_locked(&vec![Some(1), Some(2)]), Some(3));
    assert_eq!(sum_locked(&vec![Some(1), None]), None);
}

#[test]
fn a_priced_job_needs_a_pot_that_covers_it() {
    let say = |s: &PotStatus, price: u64| check(s, price, false, JobKind::Image, 8192, "0.50", "0.01", "0.02");
    assert!(check(&status(None, 0), 5, true, JobKind::Llm, 1, "", "", "").ready);
    assert_eq!(say(&unconfigured("k".into()), 5).kind, "chain");
    assert_eq!(say(&status(None, 0), 5).kind, "empty");
    assert_eq!(say(&status(Some("c"), 10), 600_000).kind, "cap");
    assert!(say(&status(Some("c"), 10), 20).reason.contains("$0.02"));
    assert!(say(&status(Some("c"), 10), 10).ready);
}

fn body(tx: &str) -> DepositBody {
    DepositBody {
        tx_hash: tx.into(),
        amount_micros: 5,
        max_per_job_micros: 1,
        max_per_day_micros: 2,
        block: 3,
        chain_id: 8453,
        client: "0xc".into(),
    }
}

#[test]
fn a_deposit_is_kept_and_listed_for_its_chain() {
    assert!(save_deposit(body("  "), NOW).is_err());
    let d = save_deposit(body(" 0xab "), NOW).unwrap();
    assert_eq!(d.tx_hash, "0xab");
    let other = StoredDeposit {
        tx_hash: "0xother".into(),
        amount_micros: 1,
        max_per_job_micros: 1,
        max_per_day_micros: 1,
        block: 1,
        at: 1,
        chain_id: 1,
        client: String::new(),
    };
    let listed = deposits(&vec![&d, &other], 8453);
    assert_eq!(listed.len(), 1);
    assert_eq!(listed[0].url.as_deref(), Some("https://basescan.org/tx/0xab"));
}

#[test]
fn the_wallet_page_is_answered_only_with_the_token() {
    let mut db = Db::new();
    let l = Ledger::new();
    let ask = |db: &mut Db, t: &str, r: FundRequest| {
        fund_reply(r, &FundAuth { t: t.into() }, "rm-1", &l, db, NOW)
    };
    assert_eq!(ask(&mut db, "", FundRequest::Page).code, 403);
    assert_eq!(ask(&mut db, "rm-2", FundRequest::Deposit(body("0xa"))).code, 403);
    assert!(db.deposits.is_empty());
    assert_eq!(ask(&mut db, "rm-1", FundRequest::Page).body, FundBody::Page);
    assert_eq!(ask(&mut db, "rm-1", FundRequest::Pending).body, FundBody::Tickets(vec![]));
    assert_eq!(ask(&mut db, "rm-1", FundRequest::Flush).body, FundBody::Text("0".into()));
    assert_eq!(ask(&mut db, "rm-1", FundRequest::Deposit(body("0xa"))).code, 204);
    assert_eq!(db.deposits.len(), 1);
    let bad = ask(&mut db, "rm-1", FundRequest::Deposit(body("")));
    assert_eq!(bad.code, 500);
    assert_eq!(bad.body, FundBody::Text("missing tx hash".into()));
}

#[test]
fn the_wallet_page_carries_what_it_needs() {
    assert_eq!(urlencoding_lite("http://a:1/b"), "http%3A%2F%2Fa%3A1%2Fb");
    let url = fund_url(&Some(config(8453, "0xp")), "rm-1", "0xk").unwrap();
    assert!(url.starts_with("http://127.0.0.1:17331/?t=rm-1&rpc=http%3A%2F%2F127"));
    assert!(url.ends_with("&appKey=0xk&chainId=8453&worker=0xWW"));
    assert!(fund_url(&None, "t", "k").is_err());
}

fn disk(worker: &str, cumulative: u64, sig: &str) -> DiskTicket {
    DiskTicket {
        ticket: SpendTicket {
            client: "0xc".into(),
            worker_payout: worker.into(),
            cumulative,
            deadline: 1,
        },
        sig: sig.into(),
        on_chain_paid: 3,
    }
}

#[test]
fn tickets_are_taken_up_from_disk() {
    let sig = format!("0x{}", "01".repeat(65));
    let (l, owed) = boot(vec![disk("0xAA", 2, &sig), disk("0xBB", 9, "0x01"), disk("0xaa", 5, &sig)]);
    assert!(owed);
    assert_eq!(l.cached_cumulative("0xAA"), 5);
    assert_eq!(l.cached_cumulative("0xBB"), 0, "its signature does not read");
    let (_, owed) = boot(vec![disk("0xAA", 3, &sig)]);
    assert!(!owed);
    let places = lock_addresses(&config(8453, "0xp"), &vec![], &l);
    assert_eq!(places.len(), 2);
    assert!(places.contains(&"0xww".to_string()) && places.contains(&"0xaa".to_string()));
}
