//! Settings, commands and the small things around them.
use rootmode_desktop::codec::{sha256_hex, sha256_of_text};
use rootmode_desktop::commands::{
    add_peer, dashboard_stats, failed_status, is_worker, job_id, limit, meet, network_status,
    new_conversation, read_result_bytes, read_result_image, record_discovered, record_probe,
    rename_conversation, result_file, unreadable, Meeting, Probe,
};
use rootmode_desktop::diag::{knob, log_path, macos_release, os_release, uptime_ms};
use rootmode_desktop::erase::{next_piece, CHUNK};
use rootmode_desktop::error::AppError;
use rootmode_desktop::identity_store::key_path;
use rootmode_desktop::json::Json;
use rootmode_desktop::order::{comes_before, ordered, Key};
use rootmode_desktop::protocol::{JobKind, ModelDescriptor, PeerAnnounce};
use rootmode_desktop::results::ResultRecord;
use rootmode_desktop::state::{
    after_setting, bootstrap_addrs, download_dir, entry_points, set_setting, settings,
    AfterSetting, Kept, Places, SideEffect, SETTING_BOOTSTRAP, SETTING_DOWNLOAD_DIR,
    SETTING_MOCK_WORKER, SETTING_THEME,
};
use rootmode_desktop::store::Db;
use rootmode_desktop::text::{decimal_of, hex_number_of, parse_number, to_lower};

const NOW: i64 = 1_700_000_000;

fn some(s: &str) -> Option<String> {
    Some(s.to_string())
}

#[test]
fn a_peer_is_added_under_its_label_or_its_endpoint() {
    let p = add_peer("  ", "1.2.3.4:99", &None, &None).unwrap();
    assert_eq!(p.label, "ws://1.2.3.4:99");
    assert_eq!(p.endpoint, "ws://1.2.3.4:99");
    let key = "AB".repeat(32);
    let p = add_peer(" box ", "ws://h", &some(&key), &None).unwrap();
    assert_eq!(p.label, "box");
    assert_eq!(p.public_key, Some(key.to_lowercase()));
    assert_eq!(
        add_peer("", "ws://h", &some("abc"), &None).unwrap_err().message(),
        "peer public key must be 64 hex characters (32-byte ed25519)"
    );
    assert_eq!(add_peer("", "ws://h", &some("  "), &None).unwrap().public_key, None);
    assert!(add_peer("", " ", &None, &None).is_err());
}

fn announce(label: Option<&str>) -> PeerAnnounce {
    PeerAnnounce {
        peer_id: "k".into(),
        label: label.map(str::to_string),
        country: some("NL"),
        payout: some("0x1"),
        caps: vec!["llm".into()],
        models: vec![ModelDescriptor {
            id: "m".into(),
            sha256: None,
            kind: JobKind::Llm,
            price: None,
            video: None,
        }],
        max_concurrent: 2,
    }
}

#[test]
fn asking_a_peer_is_written_down() {
    let mut db = Db::new();
    let named = db.add_peer("mine", "ws://a", &None, NOW).unwrap();
    let plain = db.add_peer("ws://b", "ws://b", &None, NOW).unwrap();
    for id in [&named, &plain] {
        let probe = Probe {
            latency_ms: 9,
            announce: Some(announce(Some(" their name "))),
        };
        record_probe(&mut db, id, Ok(probe), NOW).unwrap();
    }
    assert_eq!(db.get_peer(&named).unwrap().label, "mine", "a label you typed stays");
    assert_eq!(db.get_peer(&plain).unwrap().label, "their name");
    assert_eq!(db.get_peer(&plain).unwrap().payout, some("0x1"));
    record_probe(&mut db, &plain, Err("peer key mismatch: x".into()), NOW).unwrap();
    let p = db.get_peer(&plain).unwrap();
    assert_eq!(p.status, "mismatch");
    assert_eq!(p.caps, ["llm"]);
    assert_eq!(failed_status("timed out"), "offline");
    assert_eq!(
        record_probe(&mut db, "nobody", Err("x".into()), NOW),
        Err(AppError::NotFound("peer nobody".into()))
    );
}

#[test]
fn a_worker_met_on_the_network_is_written_down_once() {
    let mut db = Db::new();
    let hex = "ab".repeat(32);
    assert_eq!(meet(&db, &hex, &hex), Meeting::Own);
    assert_eq!(meet(&db, "me", &hex), Meeting::New);
    let id = record_discovered(&mut db, &hex, announce(None), NOW).unwrap();
    assert_eq!(db.get_peer(&id).unwrap().label, "abababab…abab");
    assert_eq!(meet(&db, "me", &hex), Meeting::Known(id));
    assert!(is_worker(&Some(announce(None))));
    assert!(!is_worker(&None));
    let s = network_status(&db.peers, true);
    assert_eq!((s.online, s.llm_peers, s.image_peers), (1, 1, 0));
    assert_eq!(s.models, ["m"]);
    let d = dashboard_stats(&db.peers, db.counts(), "me".into(), 3, true);
    assert_eq!((d.peers, d.peers_online), (1, 1));
}

#[test]
fn ids_and_limits() {
    assert_eq!(
        job_id("550e8400-e29b-41d4-a716-446655440000"),
        Ok(0x550e8400_e29b_41d4_a716_446655440000)
    );
    assert_eq!(job_id("nonsense"), Err(AppError::Invalid("not a job id".into())));
    assert_eq!(limit(None, 200), 200);
    assert_eq!(limit(Some(5), 200), 5);
    assert_eq!(limit(Some(5_000), 200), 1_000);
}

fn record(path: Option<&str>) -> ResultRecord {
    ResultRecord {
        job_id: 1,
        kind: JobKind::Image,
        sha256: String::new(),
        text: None,
        image_path: path.map(str::to_string),
        meta: Json::Null,
        created_at: 0,
    }
}

#[test]
fn a_picture_is_shown_as_a_url() {
    assert_eq!(
        read_result_image(&some("jpg"), &vec![1, 2, 3]),
        "data:image/jpeg;base64,AQID"
    );
    assert_eq!(read_result_image(&None, &vec![]), "data:image/png;base64,");
    assert_eq!(read_result_bytes(&vec![255]), "/w==");
    assert_eq!(result_file(1, &Some(record(Some("/a")))), Ok("/a".into()));
    assert_eq!(
        result_file(1, &Some(record(None))),
        Err(AppError::Invalid("this result is not an image".into()))
    );
    assert_eq!(
        result_file(1, &None),
        Err(AppError::NotFound(
            "result for job 00000000-0000-0000-0000-000000000001".into()
        ))
    );
    assert_eq!(unreadable("/a", "gone").message(), "cannot read /a: gone");
}

#[test]
fn a_chat_is_named() {
    assert_eq!(new_conversation("  ", "image"), ("New chat".into(), "image"));
    assert_eq!(new_conversation(&"t".repeat(70), "x").0, "t".repeat(60));
    assert_eq!(rename_conversation(" a "), Ok("a".into()));
    assert_eq!(
        rename_conversation(" "),
        Err(AppError::Invalid("a chat needs a name".into()))
    );
}

#[test]
fn settings_are_checked_before_they_are_kept() {
    assert_eq!(set_setting(SETTING_THEME, "dark", &None, false), Ok(SideEffect::Nothing));
    assert!(set_setting("surprise", "x", &None, false).is_err());
    assert!(set_setting(SETTING_DOWNLOAD_DIR, "rel", &None, false).is_err());
    assert_eq!(
        set_setting(SETTING_DOWNLOAD_DIR, "/abs", &None, true),
        Ok(SideEffect::MakeDirectory)
    );
    assert!(set_setting(SETTING_BOOTSTRAP, "/bad", &some("no"), false).is_err());
    assert_eq!(
        set_setting(SETTING_MOCK_WORKER, "true", &None, false),
        Ok(SideEffect::Mock(true))
    );
    assert_eq!(after_setting(SETTING_THEME), AfterSetting::Nothing);
    assert_eq!(after_setting(SETTING_BOOTSTRAP), AfterSetting::RebuildNode);
    assert_eq!(download_dir(&None, "/d"), "/d");
    assert_eq!(entry_points(" /a \n\n/b").len(), 2);
    assert_eq!(bootstrap_addrs(&None, &vec!["/x".into()]), ["/x"]);
    assert_eq!(bootstrap_addrs(&some("/y"), &vec!["/x".into()]), ["/y"]);
}

#[test]
fn settings_have_their_usual_values() {
    let kept = Kept {
        download_dir: None,
        default_peer: None,
        default_llm_model: None,
        default_image_model: None,
        theme: None,
        sign_jobs: None,
        bootstrap: None,
        discovery: None,
        mock_worker: None,
        gateway: None,
        gateway_port: None,
    };
    let places = Places {
        default_download_dir: "/d".into(),
        app_data_dir: "/a".into(),
        db_path: "/a/db".into(),
        key_path: "/a/key".into(),
    };
    let s = settings(&kept, &places, false, 4);
    assert!(s.sign_jobs && s.discovery);
    assert!(!s.gateway && !s.mock_worker);
    assert_eq!(s.download_dir, "/d");
    assert_eq!(s.entry_points, 4);
}

#[test]
fn the_machine_is_described_in_a_line() {
    let file = some("NAME=x\nPRETTY_NAME=\"Debian 13\"\n");
    assert_eq!(os_release(&file, "6.1"), "Debian 13, kernel 6.1");
    assert_eq!(macos_release("26.1", "25B78"), "macOS 26.1 (25B78)");
    assert_eq!(macos_release("", ""), "macOS (version unknown)");
    assert_eq!(uptime_ms(Some(5), 12), 7);
    assert_eq!(uptime_ms(None, 12), 0);
    assert_eq!(log_path(&some("/l")), some("/l"));
    assert_eq!(knob("A", &some("1")), "A=1");
    assert_eq!(key_path("/a"), ["/a", "identity.key"]);
}

#[test]
fn a_file_is_overwritten_to_its_end() {
    let len = 2 * CHUNK + 5;
    let mut written = 0;
    let mut pieces = vec![];
    while written < len {
        let n = next_piece(len, written);
        pieces.push(n);
        written += n;
    }
    assert_eq!(pieces, [CHUNK, CHUNK, 5]);
}

#[test]
fn hashes_and_numbers_are_written_as_usual() {
    let abc = "ba7816bf8f01cfea414140de5dae2223b00361a396177a9cb410ff61f20015ad";
    assert_eq!(sha256_hex(b"abc"), abc);
    assert_eq!(sha256_of_text("abc"), abc);
    assert_eq!(decimal_of(u64::MAX), u64::MAX.to_string());
    assert_eq!(hex_number_of(255), "ff");
    assert_eq!(parse_number("18446744073709551616", 10), None);
    assert_eq!(parse_number("ff", 16), Some(255));
    assert_eq!(to_lower("ÄbC"), "Äbc");
}

#[test]
fn json_is_read_and_written_back() {
    let j = Json::from_text(r#"{"a":[1,-2,3.5,null,true,"x"]}"#).unwrap();
    assert_eq!(j.to_text(), r#"{"a":[1,-2,3.5,null,true,"x"]}"#);
    assert_eq!(j.copy().to_text(), j.to_text());
    assert!(Json::from_text("{").is_none());
    let changed = j.put("b", Json::Number(2)).without("a");
    assert_eq!(changed.to_text(), r#"{"b":2}"#);
}

#[test]
fn offers_are_put_in_order() {
    assert!(comes_before("a", "b") && !comes_before("b", "a") && comes_before("a", "aa"));
    let key = |price, model: &str| Key {
        price,
        model: model.into(),
        label: String::new(),
        draw: 0,
    };
    assert_eq!(ordered(&vec![key(2, "a"), key(1, "b"), key(1, "a")]), [2, 1, 0]);
}

#[test]
fn errors_say_what_they_are() {
    for (e, words) in [
        (AppError::Core("x".into()), "x"),
        (AppError::Db("x".into()), "storage: x"),
        (AppError::Io("x".into()), "io: x"),
        (AppError::Json("x".into()), "json: x"),
        (AppError::Net("x".into()), "network: x"),
        (AppError::Invalid("x".into()), "x"),
        (AppError::NotFound("x".into()), "not found: x"),
    ] {
        assert_eq!(e.message(), words);
    }
}
