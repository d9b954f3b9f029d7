use news_peer::codec::decode_add_news;
use news_peer::command::{handle_app_event, parse_command, AppAction, Command};
use news_peer::news::{EventType, News, NewsMode, NewsResponse};

#[test]
fn parse_all() {
    assert!(matches!(
        parse_command("all"),
        Command::Query(NewsMode::ALL)
    ));
    assert!(matches!(parse_command("allx"), Command::Unknown));
}

#[test]
fn parse_by_title() {
    match parse_command("by-title Rust Weekly") {
        Command::Query(NewsMode::ByTitle(t)) => assert_eq!(t, "Rust Weekly"),
        other => panic!("unexpected: {:?}", other),
    }
}

#[test]
fn parse_by_id_and_author() {
    match parse_command("by-id abc-123") {
        Command::Query(NewsMode::ById(i)) => assert_eq!(i, "abc-123"),
        other => panic!("unexpected: {:?}", other),
    }
    match parse_command("by-author Jane Doe") {
        Command::Query(NewsMode::ByAuthor(a)) => assert_eq!(a, "Jane Doe"),
        other => panic!("unexpected: {:?}", other),
    }
}

#[test]
fn parse_publish() {
    match parse_command("publish Title|Author|Some words|1000") {
        Command::Publish { title, author, description, date } => {
            assert_eq!(title, "Title");
            assert_eq!(author, "Author");
            assert_eq!(description, "Some words");
            assert_eq!(date, 1000);
        },
        other => panic!("unexpected: {:?}", other),
    }
}

#[test]
fn parse_publish_negative_date() {
    match parse_command("publish t|a|d|-42") {
        Command::Publish { date, .. } => assert_eq!(date, -42),
        other => panic!("unexpected: {:?}", other),
    }
}

#[test]
fn parse_publish_rejects_bad_arguments() {
    assert!(matches!(parse_command("publish t|a|d|"), Command::Unknown));
    assert!(matches!(parse_command("publish t|a|d|12x"), Command::Unknown));
    assert!(matches!(parse_command("publish t|a|1000"), Command::Unknown));
    assert!(matches!(parse_command("publish "), Command::Unknown));
    assert!(matches!(parse_command("garbage"), Command::Unknown));
    assert!(matches!(parse_command(""), Command::Unknown));
}

#[test]
fn input_publish_becomes_gossip_payload() {
    let local = String::from("local-peer");
    let ev = EventType::Input(String::from("publish X|Y|Z|1000"));
    match handle_app_event(&local, ev) {
        AppAction::PublishGossip { topic, payload } => {
            assert_eq!(topic, "news");
            let req = decode_add_news(&payload).expect("payload is a publish request");
            assert_eq!(req.requester_peer_id, "local-peer");
            assert_eq!(req.news.id, "", "the storing peer assigns the id");
            assert_eq!(req.news.title, "X");
            assert_eq!(req.news.author, "Y");
            assert_eq!(req.news.description, "Z");
            assert_eq!(req.news.date, 1000);
        },
        other => panic!("unexpected: {:?}", other),
    }
}

#[test]
fn input_query_runs_query() {
    let local = String::from("local-peer");
    let ev = EventType::Input(String::from("by-title X"));
    match handle_app_event(&local, ev) {
        AppAction::RunQuery { mode: NewsMode::ByTitle(t) } => assert_eq!(t, "X"),
        other => panic!("unexpected: {:?}", other),
    }
}

#[test]
fn input_noise_does_nothing() {
    let local = String::from("local-peer");
    let ev = EventType::Input(String::from("what is this"));
    assert!(matches!(handle_app_event(&local, ev), AppAction::Nothing));
}

#[test]
fn response_event_is_shown() {
    let local = String::from("local-peer");
    let resp = NewsResponse {
        mode: NewsMode::ALL,
        responser_peer_id: String::from("rp"),
        requester_peer_id: String::from("local-peer"),
        data: vec![News {
            id: String::from("i"),
            title: String::from("t"),
            author: String::from("a"),
            description: String::from("d"),
            date: 5,
        }],
    };
    match handle_app_event(&local, EventType::Response(resp)) {
        AppAction::ShowResponse { response } => {
            assert_eq!(response.responser_peer_id, "rp");
            assert_eq!(response.data.len(), 1);
            assert_eq!(response.data[0].title, "t");
        },
        other => panic!("unexpected: {:?}", other),
    }
}
