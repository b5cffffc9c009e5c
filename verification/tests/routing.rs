//! Who is chosen, what is listed, and who comes next.
use rootmode_desktop::protocol::{JobKind, ModelDescriptor, Price};
use rootmode_desktop::routing::{
    fallbacks, model_options, provider_for, provider_options, takes_over, Fallback,
};
use rootmode_desktop::store::Peer;

fn peer(label: &str, latency: Option<u32>, models: Vec<ModelDescriptor>) -> Peer {
    Peer {
        id: format!("id-{label}"),
        label: label.into(),
        country: None,
        endpoint: format!("p2p://{label}"),
        public_key: None,
        peer_id: None,
        status: "online".into(),
        latency_ms: latency,
        caps: vec!["llm".into()],
        models,
        max_concurrent: 1,
        last_seen: None,
        last_error: None,
        source: "discovered".into(),
        added_at: 0,
        payout: None,
    }
}

/// A model at a price in dollars.
fn model(id: &str, price: Option<f64>) -> ModelDescriptor {
    ModelDescriptor {
        id: id.into(),
        sha256: None,
        kind: JobKind::Llm,
        price: price.map(|p| Price::new((p * 1_000_000.0).round() as u64)),
        video: None,
    }
}

/// A listed price in dollars.
fn dollars(cents: u64) -> f64 {
    cents as f64 / 100.0
}

#[test]
fn the_cheapest_provider_for_a_model_wins() {
    let peers = vec![
        peer("pricey", Some(10), vec![model("llama", Some(0.90))]),
        peer("cheap", Some(80), vec![model("llama", Some(0.10))]),
    ];

    let chosen = provider_for(&peers, JobKind::Llm, "llama").unwrap();
    assert_eq!(chosen.peer_label, "cheap");
    assert_eq!(chosen.providers, 2, "both are counted as serving it");
    assert_eq!(dollars(chosen.price), 0.10);
}

#[test]
fn equal_prices_share_the_load() {
    let peers = vec![
        peer("far", Some(200), vec![model("llama", Some(0.10))]),
        peer("near", Some(12), vec![model("llama", Some(0.10))]),
        peer("untimed", None, vec![model("llama", Some(0.10))]),
    ];
    let mut seen = std::collections::HashMap::new();
    for _ in 0..600 {
        let chosen = provider_for(&peers, JobKind::Llm, "llama").unwrap();
        assert_eq!(chosen.providers, 3);
        *seen.entry(chosen.peer_label).or_insert(0u32) += 1;
    }
    assert_eq!(seen.len(), 3, "every tied provider is chosen sometimes: {seen:?}");
    assert!(seen.values().all(|n| *n > 100), "roughly evenly: {seen:?}");
}

#[test]
fn a_cheaper_provider_always_wins_the_tie_break_is_only_among_equals() {
    let peers = vec![
        peer("dear", Some(1), vec![model("llama", Some(0.20))]),
        peer("cheap-a", Some(500), vec![model("llama", Some(0.10))]),
        peer("cheap-b", None, vec![model("llama", Some(0.10))]),
    ];
    for _ in 0..50 {
        let chosen = provider_for(&peers, JobKind::Llm, "llama").unwrap();
        assert!(chosen.peer_label.starts_with("cheap-"), "{}", chosen.peer_label);
        assert_eq!(dollars(chosen.price), 0.10);
    }
}

#[test]
fn a_provider_that_names_no_price_counts_as_free() {
    let peers = vec![
        peer("charges", Some(10), vec![model("llama", Some(0.10))]),
        peer("free", Some(90), vec![model("llama", None)]),
    ];

    let chosen = provider_for(&peers, JobKind::Llm, "llama").unwrap();
    assert_eq!(chosen.peer_label, "free");
    assert_eq!(dollars(chosen.price), 0.0);
    assert!(chosen.unpriced);
}

#[test]
fn offline_providers_are_not_offered() {
    let mut offline = peer("gone", Some(5), vec![model("llama", Some(0.01))]);
    offline.status = "offline".into();
    let peers = vec![offline, peer("here", Some(50), vec![model("llama", None)])];

    let chosen = provider_for(&peers, JobKind::Llm, "llama").unwrap();
    assert_eq!(chosen.peer_label, "here");
    assert_eq!(chosen.providers, 1);
}

#[test]
fn models_are_listed_cheapest_first_and_only_of_the_kind_asked_for() {
    let image = ModelDescriptor {
        id: "sdxl".into(),
        sha256: None,
        kind: JobKind::Image,
        price: Some(Price::new(20_000)),
        video: None,
    };
    let peers = vec![peer(
        "mixed",
        Some(10),
        vec![
            model("expensive", Some(2.0)),
            model("budget", Some(0.2)),
            image,
        ],
    )];

    let text: Vec<String> = model_options(&peers, JobKind::Llm)
        .into_iter()
        .map(|o| o.model)
        .collect();
    assert_eq!(text, vec!["budget", "expensive"]);

    let images: Vec<String> = model_options(&peers, JobKind::Image)
        .into_iter()
        .map(|o| o.model)
        .collect();
    assert_eq!(images, vec!["sdxl"]);
}

#[test]
fn listed_prices_round_up_to_cents() {
    let peers = vec![peer("or", Some(10), vec![model("llama", Some(0.141))])];
    let rows = provider_options(&peers, JobKind::Llm);
    assert_eq!(dollars(rows[0].price), 0.15);
}

#[test]
fn every_provider_is_listed_not_just_the_best_one() {
    let peers = vec![
        peer("pricey", Some(10), vec![model("llama", Some(0.90))]),
        peer("cheap", Some(80), vec![model("llama", Some(0.10))]),
        peer("free", Some(50), vec![model("llama", None)]),
    ];

    let rows = provider_options(&peers, JobKind::Llm);
    assert_eq!(rows.len(), 3, "one row per provider, not per model");
    assert_eq!(
        rows.iter()
            .map(|r| r.peer_label.as_str())
            .collect::<Vec<_>>(),
        vec!["free", "cheap", "pricey"],
        "cheapest first, and unpriced counts as free"
    );
}

#[test]
fn equal_prices_are_listed_by_name() {
    let peers = vec![
        peer("far", Some(300), vec![model("llama", Some(0.5))]),
        peer("near", Some(9), vec![model("llama", Some(0.5))]),
        peer("untimed", None, vec![model("llama", Some(0.5))]),
    ];
    assert_eq!(
        provider_options(&peers, JobKind::Llm)
            .iter()
            .map(|r| r.peer_label.as_str())
            .collect::<Vec<_>>(),
        vec!["far", "near", "untimed"],
        "the picker holds still; latency is shown, not sorted on"
    );
}

#[test]
fn offline_providers_are_not_in_the_picker() {
    let mut gone = peer("gone", Some(5), vec![model("llama", Some(0.01))]);
    gone.status = "offline".into();
    let peers = vec![gone, peer("here", Some(50), vec![model("llama", None)])];

    let rows = provider_options(&peers, JobKind::Llm);
    assert_eq!(rows.len(), 1);
    assert_eq!(rows[0].peer_label, "here");
}

#[test]
fn nothing_online_means_nothing_on_offer() {
    assert!(model_options(&vec![], JobKind::Llm).is_empty());
    assert!(provider_for(&vec![], JobKind::Llm, "llama").is_none());
}

fn labels(f: Vec<Fallback>) -> Vec<String> {
    f.into_iter().map(|f| f.peer_label).collect()
}

#[test]
fn a_retry_never_costs_more_than_the_first_choice() {
    let peers = vec![
        peer("first", None, vec![model("llama", Some(1.0))]),
        peer("dearer", None, vec![model("llama", Some(2.0))]),
        peer("same", None, vec![model("llama", Some(1.0))]),
        peer("cheaper", None, vec![model("llama", Some(0.5))]),
        peer("other", None, vec![model("mistral", Some(0.1))]),
    ];
    assert_eq!(
        labels(fallbacks(&peers, JobKind::Llm, "llama", "id-first")),
        vec!["cheaper", "same"],
        "same model, no dearer, cheapest first; a paid choice never changes model"
    );
}

#[test]
fn a_free_choice_moves_to_another_free_model_but_never_to_a_paid_one() {
    let peers = vec![
        peer("first", None, vec![model("gemma", Some(0.0))]),
        peer("paid-gemma", None, vec![model("gemma", Some(0.3))]),
        peer("free-inkling", None, vec![model("inkling", None)]),
        peer("paid-glm", None, vec![model("glm", Some(0.1))]),
    ];
    assert_eq!(
        labels(fallbacks(&peers, JobKind::Llm, "gemma", "id-first")),
        vec!["free-inkling"]
    );
}

#[test]
fn a_free_twin_of_the_same_model_comes_before_other_free_models() {
    let peers = vec![
        peer("first", None, vec![model("gemma", None)]),
        peer("free-inkling", None, vec![model("inkling", None)]),
        peer("free-gemma", None, vec![model("gemma", None)]),
    ];
    assert_eq!(
        labels(fallbacks(&peers, JobKind::Llm, "gemma", "id-first")),
        vec!["free-gemma", "free-inkling"]
    );
}

#[test]
fn offline_peers_and_the_first_choice_itself_are_not_fallbacks() {
    let mut down = peer("down", None, vec![model("llama", Some(0.1))]);
    down.status = "offline".into();
    let peers = vec![peer("first", None, vec![model("llama", Some(1.0))]), down];
    assert!(fallbacks(&peers, JobKind::Llm, "llama", "id-first").is_empty());
}

#[test]
fn a_tie_is_broken_by_the_draw_alone() {
    assert!(takes_over(5, 6, 3));
    assert!(takes_over(5, 5, 0));
    assert!(!takes_over(5, 5, 1));
    assert!(!takes_over(6, 5, 0));
}
