use news_peer::codec::{
    decode_add_news, decode_news, encode_add_news, encode_news, encode_response,
};
use news_peer::news::{AddNews, News, NewsMode, NewsResponse};

fn sample_news() -> News {
    News {
        id: String::from("id-1"),
        title: String::from("X"),
        author: String::from("Y"),
        description: String::from("Z"),
        date: 1000,
    }
}

#[test]
fn encode_news_exact_text() {
    let n = sample_news();
    assert_eq!(
        encode_news(&n),
        "{\"id\":\"id-1\",\"title\":\"X\",\"author\":\"Y\",\"description\":\"Z\",\"date\":1000}"
    );
}

#[test]
fn encode_news_escapes_quotes_and_backslashes() {
    let n = News {
        id: String::from("a\"b"),
        title: String::from("c\\d"),
        author: String::from(""),
        description: String::from("plain"),
        date: -7,
    };
    assert_eq!(
        encode_news(&n),
        "{\"id\":\"a\\\"b\",\"title\":\"c\\\\d\",\"author\":\"\",\"description\":\"plain\",\"date\":-7}"
    );
}

#[test]
fn news_round_trip() {
    let n = sample_news();
    let s = encode_news(&n);
    let back = decode_news(&s).expect("must decode");
    assert_eq!(back.id, n.id);
    assert_eq!(back.title, n.title);
    assert_eq!(back.author, n.author);
    assert_eq!(back.description, n.description);
    assert_eq!(back.date, n.date);
}

#[test]
fn news_round_trip_with_escapes_and_negative_date() {
    let n = News {
        id: String::from("k\"\\k"),
        title: String::from("tit|le"),
        author: String::from("a\\\"a"),
        description: String::from(""),
        date: i64::MIN,
    };
    let s = encode_news(&n);
    let back = decode_news(&s).expect("must decode");
    assert_eq!(back.id, n.id);
    assert_eq!(back.title, n.title);
    assert_eq!(back.author, n.author);
    assert_eq!(back.description, n.description);
    assert_eq!(back.date, n.date);
}

#[test]
fn news_round_trip_max_date() {
    let n = News {
        id: String::from("k"),
        title: String::from("t"),
        author: String::from("a"),
        description: String::from("d"),
        date: i64::MAX,
    };
    let back = decode_news(&encode_news(&n)).expect("must decode");
    assert_eq!(back.date, i64::MAX);
}

#[test]
fn decode_rejects_other_shapes() {
    assert!(decode_news("").is_none());
    assert!(decode_news("{}").is_none());
    assert!(decode_news("{\"hello\":1}").is_none());
    assert!(decode_news("not even structured").is_none());
    // trailing garbage after a well-formed article is refused
    let mut s = encode_news(&sample_news());
    s.push('x');
    assert!(decode_news(&s).is_none());
    // a leading zero in the date is not something the encoder produces
    assert!(decode_news(
        "{\"id\":\"a\",\"title\":\"b\",\"author\":\"c\",\"description\":\"d\",\"date\":007}"
    )
    .is_none());
}

#[test]
fn add_news_round_trip() {
    let req = AddNews {
        news: sample_news(),
        requester_peer_id: String::from("12D3KooWExample"),
    };
    let s = encode_add_news(&req);
    let back = decode_add_news(&s).expect("must decode");
    assert_eq!(back.requester_peer_id, req.requester_peer_id);
    assert_eq!(back.news.title, req.news.title);
    assert_eq!(back.news.date, req.news.date);
}

#[test]
fn add_news_exact_text() {
    let req = AddNews {
        news: sample_news(),
        requester_peer_id: String::from("p"),
    };
    assert_eq!(
        encode_add_news(&req),
        "{\"news\":{\"id\":\"id-1\",\"title\":\"X\",\"author\":\"Y\",\"description\":\"Z\",\"date\":1000},\"requester_peer_id\":\"p\"}"
    );
}

#[test]
fn encode_response_exact_text() {
    let r = NewsResponse {
        mode: NewsMode::ALL,
        responser_peer_id: String::from("rp"),
        requester_peer_id: String::from("rq"),
        data: vec![],
    };
    assert_eq!(
        encode_response(&r),
        "{\"mode\":\"ALL\",\"responser_peer_id\":\"rp\",\"requester_peer_id\":\"rq\",\"data\":[]}"
    );
}

#[test]
fn encode_response_with_articles() {
    let r = NewsResponse {
        mode: NewsMode::ByTitle(String::from("X")),
        responser_peer_id: String::from("rp"),
        requester_peer_id: String::from("rq"),
        data: vec![sample_news(), sample_news()],
    };
    let s = encode_response(&r);
    assert!(s.starts_with("{\"mode\":{\"ByTitle\":\"X\"},"));
    let one = "{\"id\":\"id-1\",\"title\":\"X\",\"author\":\"Y\",\"description\":\"Z\",\"date\":1000}";
    assert!(s.ends_with(&format!("\"data\":[{},{}]}}", one, one)));
}
