use water_news::error::Error;
use water_news::news_post::NewsPost;
use water_news::pipeline::{Action, Pipeline, Stage};

fn post(title: &str, content: &str) -> NewsPost {
    NewsPost::new(title.to_string(), "https://example.com/p".to_string(), content.to_string(), None)
}

fn long_body(parts: usize) -> String {
    let mut s = String::new();
    for i in 0..parts {
        if i > 0 {
            s.push('\n');
        }
        s.push_str(&"x".repeat(3000));
    }
    s
}

#[test]
fn no_sources_means_finished() {
    let p = Pipeline::new(0);
    assert!(matches!(p.next_action(), Action::Finish));
}

#[test]
fn known_post_is_skipped() {
    let mut p = Pipeline::new(1);
    assert!(matches!(p.next_action(), Action::Fetch { source: 0 }));
    let known = post("New title", "same body");
    let id = known.id().to_string();
    p.on_fetched(Ok(vec![known, post("b", "other")]));
    match p.next_action() {
        Action::CheckLedger { id: asked } => assert_eq!(asked, id),
        _ => panic!("expected a ledger query"),
    }
    p.on_checked(Ok(true));
    assert_eq!(p.stage(), Stage::Checking);
    match p.next_action() {
        Action::CheckLedger { id: asked } => assert_eq!(asked, post("", "other").id()),
        _ => panic!("expected a ledger query"),
    }
}

#[test]
fn new_post_is_sent_in_order_then_recorded() {
    let mut p = Pipeline::new(2);
    p.on_fetched(Ok(vec![post("a", &long_body(3))]));
    p.on_checked(Ok(false));
    let mut waits = vec![];
    let mut texts = vec![];
    while p.stage() == Stage::Sending {
        match p.next_action() {
            Action::Transmit { text, wait_first } => {
                texts.push(text);
                waits.push(wait_first);
            }
            _ => panic!("expected a transmission"),
        }
        p.on_sent(Ok(()));
    }
    assert_eq!(waits, vec![false, true, true]);
    assert_eq!(texts.len(), 3);
    assert!(texts[0].starts_with("[a](https://example.com/p)"));
    assert!(texts[0].ends_with(" […]"));
    assert_eq!(texts[2], "x".repeat(3000));
    assert!(matches!(p.next_action(), Action::Record { .. }));
    p.on_recorded(Ok(()));
    assert!(matches!(p.next_action(), Action::Fetch { source: 1 }));
    p.on_fetched(Ok(vec![]));
    assert!(matches!(p.next_action(), Action::Finish));
}

#[test]
fn extraction_error_stops_the_run() {
    let mut p = Pipeline::new(3);
    p.on_fetched(Ok(vec![post("a", "body")]));
    p.on_checked(Ok(false));
    p.on_sent(Ok(()));
    assert!(matches!(p.next_action(), Action::Record { .. }));
    p.on_recorded(Ok(()));
    assert!(matches!(p.next_action(), Action::Fetch { source: 1 }));
    p.on_fetched(Err(Error::ElementNotFound(".card-title".to_string())));
    assert_eq!(p.stage(), Stage::Failed);
    match p.next_action() {
        Action::NotifyOwner { banner, detail } => {
            assert_eq!(banner, "*Error running bot:* _Comunicados Aguas do Rio_");
            assert_eq!(detail, "Element \".card-title\" not found while parsing website\n");
        }
        _ => panic!("expected the owner notification"),
    }
}

#[test]
fn transport_failure_leaves_post_unrecorded() {
    let mut p = Pipeline::new(1);
    p.on_fetched(Ok(vec![post("a", &long_body(3)), post("b", "next")]));
    p.on_checked(Ok(false));
    p.on_sent(Ok(()));
    assert_eq!(p.stage(), Stage::Sending);
    p.on_sent(Err(Error::TelegramApiError("rejected".to_string())));
    assert_eq!(p.stage(), Stage::Failed);
    match p.next_action() {
        Action::NotifyOwner { detail, .. } => {
            assert_eq!(detail, "Telegram API Connection Error: rejected\n")
        }
        _ => panic!("expected the owner notification"),
    }
}

#[test]
fn ledger_failure_stops_the_run() {
    let mut p = Pipeline::new(1);
    p.on_fetched(Ok(vec![post("a", "body")]));
    p.on_checked(Err(Error::DatabaseConnectionError("locked".to_string())));
    assert_eq!(p.stage(), Stage::Failed);
    let mut q = Pipeline::new(1);
    q.on_fetched(Ok(vec![post("a", "body")]));
    q.on_checked(Ok(false));
    q.on_sent(Ok(()));
    q.on_recorded(Err(Error::DatabaseConnectionError("full".to_string())));
    assert_eq!(q.stage(), Stage::Failed);
}

#[test]
fn republished_post_with_new_metadata_is_skipped() {
    let delivered = NewsPost::new(
        "Old title".to_string(),
        "https://example.com/old".to_string(),
        "Falta d'água no bairro".to_string(),
        water_news::date::Date::new(2023, 3, 1),
    );
    let recorded_id = delivered.id().to_string();
    let republished = NewsPost::new(
        "New title".to_string(),
        "https://example.com/new".to_string(),
        "Falta d'água no bairro".to_string(),
        None,
    );
    let mut p = Pipeline::new(1);
    p.on_fetched(Ok(vec![republished]));
    match p.next_action() {
        Action::CheckLedger { id } => assert_eq!(id, recorded_id),
        _ => panic!("expected a ledger query"),
    }
    p.on_checked(Ok(true));
    assert!(matches!(p.next_action(), Action::Finish));
}
