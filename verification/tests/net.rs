//! Endpoints, keys and the messages between.
use rootmode_desktop::error::AppError;
use rootmode_desktop::json::Json;
use rootmode_desktop::net::{
    check_announce, is_peer_key, job_id_of, normalize_endpoint, timeout_for, validate_endpoint,
    Connection, Relay, WorkerMessage, JOB_TIMEOUT, VIDEO_JOB_TIMEOUT,
};
use rootmode_desktop::p2p::{
    check_keys, p2p_endpoint, peer_id_of_endpoint, worth_asking, PeerName,
};
use rootmode_desktop::protocol::{
    JobDelta, JobKind, JobResult, JobStatus, JobStatusUpdate, PeerAnnounce,
};

#[test]
fn endpoint_shorthand() {
    assert_eq!(
        normalize_endpoint("127.0.0.1:9944", &None).unwrap(),
        "ws://127.0.0.1:9944"
    );
    assert_eq!(
        normalize_endpoint(" wss://peer.example/rm ", &None).unwrap(),
        "wss://peer.example/rm"
    );
}

#[test]
fn endpoint_rejects_other_schemes() {
    for bad in ["http://peer.example", "file:///etc/passwd", "ws://", ""] {
        assert!(normalize_endpoint(bad, &None).is_err(), "{bad} should be rejected");
    }
}

#[test]
fn the_address_a_worker_prints_can_be_pasted_in() {
    let addr =
        "/ip4/192.168.1.50/tcp/4101/p2p/12D3KooWA9hDLBd58GgxdcRTAsuMcbBqmQoK4PBFsnQrSseHNHSK";
    assert_eq!(normalize_endpoint(addr, &None).unwrap(), addr, "kept whole");
    assert!(validate_endpoint(addr, &None).is_ok());

    let fault = Some("no peer id in the address".to_string());
    assert!(validate_endpoint("/ip4/192.168.1.50/tcp/4101", &fault).is_err());
}

#[test]
fn a_bare_peer_id_is_a_network_endpoint() {
    let peer = "ab".repeat(32);
    assert_eq!(normalize_endpoint(&peer, &None).unwrap(), format!("p2p://{peer}"));
    assert!(validate_endpoint(&format!("p2p://{peer}"), &None).is_ok());
    assert!(validate_endpoint("p2p://short", &None).is_err());
}

#[test]
fn endpoints_round_trip_to_peer_ids() {
    let id = "0f".repeat(32);
    let endpoint = p2p_endpoint(&id);
    assert!(endpoint.starts_with("p2p://"));
    assert_eq!(peer_id_of_endpoint(&endpoint).unwrap(), PeerName::Key(id.clone()));
    assert_eq!(peer_id_of_endpoint(&id).unwrap(), PeerName::Key(id.clone()), "a bare key");
    let addr = format!("/ip4/10.0.0.1/tcp/1/p2p/{id}");
    assert_eq!(peer_id_of_endpoint(&addr).unwrap(), PeerName::Address(addr.clone()));
}

#[test]
fn rejects_endpoints_that_are_not_peers() {
    assert!(peer_id_of_endpoint("ws://10.0.0.1:9944").is_err());
    assert!(peer_id_of_endpoint("p2p://not-hex").is_err());
}

#[test]
fn a_key_is_thirty_two_bytes_in_hex() {
    assert!(is_peer_key(&"0a".repeat(32)));
    assert!(!is_peer_key(&"0a".repeat(31)));
    assert!(!is_peer_key(&"zz".repeat(32)));
}

#[test]
fn a_film_may_take_longer() {
    assert_eq!(timeout_for(JobKind::Video), VIDEO_JOB_TIMEOUT);
    assert_eq!(timeout_for(JobKind::Llm), JOB_TIMEOUT);
    assert_eq!(timeout_for(JobKind::Image), JOB_TIMEOUT);
}

#[test]
fn a_pinned_key_is_held_to() {
    assert!(check_announce(&None, "any").is_ok());
    assert!(check_announce(&Some("ab".into()), "ab").is_ok());
    assert!(matches!(check_announce(&Some("ab".into()), "cd"), Err(AppError::Net(_))));
}

#[test]
fn over_the_network_the_key_that_was_dialled_counts_too() {
    let pinned = Some("AB".to_string());
    assert!(check_keys(&None, &Some("ab".into()), "cd").is_ok());
    assert!(check_keys(&pinned, &Some("ab".into()), "ab").is_ok());
    assert!(check_keys(&pinned, &None, "ab").is_ok());
    assert_eq!(
        check_keys(&pinned, &Some("cd".into()), "ab").unwrap_err().message(),
        "network: peer key mismatch: pinned AB, connection says cd"
    );
    assert_eq!(
        check_keys(&pinned, &Some("ab".into()), "cd").unwrap_err().message(),
        "network: peer key mismatch: pinned AB, announce says cd"
    );
}

#[test]
fn each_stranger_is_asked_once() {
    let near = vec!["a".to_string(), "me".to_string()];
    let far = vec!["b".to_string(), "a".to_string(), "me".to_string(), "b".to_string()];
    assert_eq!(worth_asking(&near, &far, "me"), vec!["a", "b"]);
}

fn status(job_id: u128, status: JobStatus, error: Option<&str>) -> WorkerMessage {
    WorkerMessage::JobStatus(JobStatusUpdate {
        job_id,
        status,
        progress: 0,
        error: error.map(str::to_string),
    })
}

fn result(job_id: u128) -> WorkerMessage {
    WorkerMessage::JobResult(JobResult {
        job_id,
        kind: JobKind::Llm,
        sha256: String::new(),
        text: Some("hi".into()),
        image_path_or_b64: None,
        tool_calls: vec![],
        thinking: None,
        meta: Json::record(),
    })
}

#[test]
fn messages_know_their_job() {
    assert_eq!(job_id_of(&status(3, JobStatus::Running, None)), Some(3));
    assert_eq!(job_id_of(&result(4)), Some(4));
    let delta = JobDelta {
        job_id: 5,
        text: "a".into(),
        thinking: String::new(),
    };
    assert_eq!(job_id_of(&WorkerMessage::JobDelta(delta)), Some(5));
}

#[test]
fn a_peer_that_hangs_up_without_a_word_is_an_error() {
    let c = Connection::new(1);
    assert!(matches!(c.close("socket"), Err(AppError::Net(_))));

    let mut c = Connection::new(1);
    c.hear(&result(1), Ok(()));
    assert!(c.close("socket").is_ok());

    let mut c = Connection::new(1);
    c.hear(&result(2), Ok(()));
    assert!(c.close("socket").is_err(), "the result of another job does not count");
}

#[test]
fn a_key_mismatch_ends_the_connection() {
    let mut c = Connection::new(1);
    let hello = WorkerMessage::PeerAnnounce(PeerAnnounce {
        peer_id: "cd".into(),
        label: None,
        country: None,
        payout: None,
        caps: vec![],
        models: vec![],
        max_concurrent: 1,
    });
    let verdict = check_announce(&Some("ab".into()), "cd");
    assert!(matches!(c.hear(&hello, verdict), Relay::Refuse(AppError::Net(_))));
    assert_eq!(c.hear(&hello, Ok(())), Relay::Forward);
}

#[test]
fn a_stop_is_sent_once() {
    let mut c = Connection::new(1);
    assert!(c.ask_to_stop());
    assert!(!c.ask_to_stop());
}
