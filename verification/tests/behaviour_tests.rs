use news_peer::behaviour::{
    Action, ComposedEvent, DhtEvent, GetError, GossipEvent, NewsNetworkBehaviour, PublishError,
    PutError, Quorum,
};
use news_peer::codec::encode_add_news;
use news_peer::news::{AddNews, News, NewsMode};
use news_peer::store::Record;

fn valid_peer_id() -> String {
    libp2p::identity::Keypair::generate_ed25519()
        .public()
        .to_peer_id()
        .to_string()
}

fn peer(name: &str) -> NewsNetworkBehaviour {
    NewsNetworkBehaviour::new(String::from(name))
}

fn article(title: &str, author: &str, description: &str, date: i64) -> News {
    News {
        id: String::new(),
        title: String::from(title),
        author: String::from(author),
        description: String::from(description),
        date,
    }
}

fn publish_payload(title: &str, author: &str, description: &str, date: i64) -> String {
    encode_add_news(&AddNews {
        news: article(title, author, description, date),
        requester_peer_id: valid_peer_id(),
    })
}

fn message(id: &str, data: String, signature_ok: bool) -> ComposedEvent {
    ComposedEvent::Gossip(GossipEvent::Message {
        propagation_source: String::from("someone"),
        message_id: String::from(id),
        data,
        signature_ok,
    })
}

fn confirm_new_peer(b: &mut NewsNetworkBehaviour, name: &str) {
    let out = b.inject_event(ComposedEvent::Dht(DhtEvent::RoutingUpdated {
        peer: String::from(name),
        is_new_peer: true,
    }));
    assert_eq!(out.len(), 1);
    match &out[0] {
        Action::AddExplicitPeer { peer } => assert_eq!(peer, name),
        other => panic!("unexpected action: {:?}", other),
    }
}

fn replicate_key(out: &[Action]) -> (String, usize) {
    assert_eq!(out.len(), 1);
    match &out[0] {
        Action::Replicate { key, required } => (key.clone(), *required),
        other => panic!("expected a replication request, got {:?}", other),
    }
}

#[test]
fn new_peer_confirmation_enters_explicit_set() {
    let mut b = peer("local");
    confirm_new_peer(&mut b, "remote-1");
    // a refresh of the same peer is not a new confirmation
    let out = b.inject_event(ComposedEvent::Dht(DhtEvent::RoutingUpdated {
        peer: String::from("remote-1"),
        is_new_peer: false,
    }));
    assert!(out.is_empty());
}

#[test]
fn bad_signature_never_reaches_the_store_path() {
    let mut b = peer("local");
    confirm_new_peer(&mut b, "remote-1");
    let data = publish_payload("X", "Y", "Z", 1000);
    let out = b.inject_event(message("m1", data.clone(), false));
    assert!(out.is_empty());
    assert!(b.get_record(&String::from("anything")).is_err());
    // the dropped message was not marked seen: a later valid delivery
    // under the same id is processed
    let out2 = b.inject_event(message("m1", data, true));
    assert_eq!(out2.len(), 1);
    assert!(matches!(out2[0], Action::Replicate { .. }));
}

#[test]
fn duplicate_message_creates_at_most_one_record() {
    let mut b = peer("local");
    confirm_new_peer(&mut b, "remote-1");
    let data = publish_payload("X", "Y", "Z", 1000);
    let out1 = b.inject_event(message("m1", data.clone(), true));
    let (key, required) = replicate_key(&out1);
    // the same message id again: dropped silently, no second write
    let out2 = b.inject_event(message("m1", data, true));
    assert!(out2.is_empty());
    // complete the one write; exactly one record appears
    let out3 = b.inject_event(ComposedEvent::Dht(DhtEvent::PutResult {
        key: key.clone(),
        acked: required,
    }));
    assert!(out3.is_empty());
    assert!(b.get_record(&key).is_ok());
    let resp = b.handle_query(&NewsMode::ALL, &String::from("asker"));
    assert_eq!(resp.data.len(), 1);
}

#[test]
fn undecodable_payload_is_tolerated() {
    let mut b = peer("local");
    confirm_new_peer(&mut b, "remote-1");
    let out = b.inject_event(message("m1", String::from("some other protocol"), true));
    assert!(out.is_empty());
}

#[test]
fn invalid_requester_peer_id_is_dropped() {
    let mut b = peer("local");
    confirm_new_peer(&mut b, "remote-1");
    let data = encode_add_news(&AddNews {
        news: article("X", "Y", "Z", 1000),
        requester_peer_id: String::from("not a peer id"),
    });
    let out = b.inject_event(message("m1", data, true));
    assert!(out.is_empty());
}

#[test]
fn stored_article_is_retrieved_by_title_query() {
    // peer A publishes; peer B receives, stores with majority quorum,
    // and answers a later by-title query from peer C
    let mut b = peer("peer-b");
    confirm_new_peer(&mut b, "peer-a");
    confirm_new_peer(&mut b, "peer-c");
    confirm_new_peer(&mut b, "peer-d");
    let data = publish_payload("X", "Y", "Z", 1000);
    let out = b.inject_event(message("m1", data, true));
    let (key, required) = replicate_key(&out);
    assert_eq!(required, 2); // majority of three known peers
    let out2 = b.inject_event(ComposedEvent::Dht(DhtEvent::PutResult {
        key: key.clone(),
        acked: 2,
    }));
    assert!(out2.is_empty());
    let resp = b.handle_query(&NewsMode::ByTitle(String::from("X")), &String::from("peer-c"));
    assert_eq!(resp.responser_peer_id, "peer-b");
    assert_eq!(resp.requester_peer_id, "peer-c");
    assert_eq!(resp.data.len(), 1);
    assert_eq!(resp.data[0].title, "X");
    assert_eq!(resp.data[0].author, "Y");
    assert_eq!(resp.data[0].description, "Z");
    assert_eq!(resp.data[0].date, 1000);
    assert_eq!(resp.data[0].id, key);
    // the stored value is the serialized article
    let rec = b.get_record(&key).expect("stored");
    assert_eq!(
        rec.value,
        format!(
            "{{\"id\":\"{}\",\"title\":\"X\",\"author\":\"Y\",\"description\":\"Z\",\"date\":1000}}",
            key
        )
    );
    // by-id and by-author find it too; a different title does not
    let by_id = b.handle_query(&NewsMode::ById(key.clone()), &String::from("peer-c"));
    assert_eq!(by_id.data.len(), 1);
    let by_author = b.handle_query(&NewsMode::ByAuthor(String::from("Y")), &String::from("peer-c"));
    assert_eq!(by_author.data.len(), 1);
    let other = b.handle_query(&NewsMode::ByTitle(String::from("x")), &String::from("peer-c"));
    assert!(other.data.is_empty(), "matching is case sensitive");
}

#[test]
fn query_for_missing_id_answers_with_empty_data() {
    let b = peer("peer-d");
    let resp = b.handle_query(&NewsMode::ById(String::from("nonexistent")), &String::from("x"));
    assert!(resp.data.is_empty());
    assert!(matches!(
        b.get_record(&String::from("nonexistent")),
        Err(GetError::NotFound)
    ));
}

#[test]
fn quorum_failure_leaves_no_record() {
    let mut b = peer("local");
    confirm_new_peer(&mut b, "remote-1");
    confirm_new_peer(&mut b, "remote-2");
    confirm_new_peer(&mut b, "remote-3");
    let data = publish_payload("X", "Y", "Z", 1000);
    let out = b.inject_event(message("m1", data, true));
    let (key, required) = replicate_key(&out);
    assert_eq!(required, 2);
    // only one replica acknowledged: fewer than the quorum
    let out2 = b.inject_event(ComposedEvent::Dht(DhtEvent::PutResult {
        key: key.clone(),
        acked: 1,
    }));
    assert_eq!(out2.len(), 1);
    assert!(matches!(
        out2[0],
        Action::PutFailed { err: PutError::QuorumNotMet, .. }
    ));
    assert!(b.get_record(&key).is_err());
    let resp = b.handle_query(&NewsMode::ALL, &String::from("asker"));
    assert!(resp.data.is_empty());
}

#[test]
fn no_known_peers_means_no_route() {
    let mut b = peer("local");
    let data = publish_payload("X", "Y", "Z", 1000);
    let out = b.inject_event(message("m1", data, true));
    assert_eq!(out.len(), 1);
    assert!(matches!(
        out[0],
        Action::PutFailed { err: PutError::NoRoute, .. }
    ));
}

#[test]
fn put_record_demands_enough_known_peers() {
    let mut b = peer("local");
    confirm_new_peer(&mut b, "remote-1");
    confirm_new_peer(&mut b, "remote-2");
    confirm_new_peer(&mut b, "remote-3");
    let rec = Record {
        key: String::from("k"),
        value: String::from("v"),
        publisher: None,
        expires: None,
    };
    assert_eq!(b.put_record(rec, Quorum::N(5)), Err(PutError::NoRoute));
}

#[test]
fn publish_demands_subscription_and_frame_fit() {
    let mut b = peer("local");
    let topic = String::from("news");
    let payload = String::from("hello");
    assert_eq!(
        b.publish(&topic, &payload),
        Err(PublishError::NotSubscribed)
    );
    b.subscribe(topic.clone());
    b.subscribe(topic.clone()); // idempotent
    assert_eq!(b.publish(&topic, &payload), Ok(()));
    let huge = "x".repeat(70000);
    assert_eq!(
        b.publish(&topic, &huge),
        Err(PublishError::EncodingError)
    );
}

#[test]
fn subscribed_and_unsubscribed_events_are_quiet() {
    let mut b = peer("local");
    let out = b.inject_event(ComposedEvent::Gossip(GossipEvent::Subscribed {
        peer_id: String::from("p"),
        topic: String::from("news"),
    }));
    assert!(out.is_empty());
    let out = b.inject_event(ComposedEvent::Gossip(GossipEvent::Unsubscribed {
        peer_id: String::from("p"),
        topic: String::from("news"),
    }));
    assert!(out.is_empty());
}

#[test]
fn unknown_put_completion_is_ignored() {
    let mut b = peer("local");
    let out = b.inject_event(ComposedEvent::Dht(DhtEvent::PutResult {
        key: String::from("never-started"),
        acked: 3,
    }));
    assert!(out.is_empty());
}

#[test]
fn store_overwrites_one_record_per_key() {
    let mut b = peer("local");
    confirm_new_peer(&mut b, "r1");
    let rec1 = Record {
        key: String::from("k"),
        value: String::from("v1"),
        publisher: Some(String::from("p")),
        expires: None,
    };
    let req1 = b.put_record(rec1, Quorum::One).expect("started");
    assert_eq!(req1, 1);
    let out = b.inject_event(ComposedEvent::Dht(DhtEvent::PutResult {
        key: String::from("k"),
        acked: 1,
    }));
    assert!(out.is_empty());
    let rec2 = Record {
        key: String::from("k"),
        value: String::from("v2"),
        publisher: None,
        expires: None,
    };
    b.put_record(rec2, Quorum::One).expect("started");
    let out = b.inject_event(ComposedEvent::Dht(DhtEvent::PutResult {
        key: String::from("k"),
        acked: 1,
    }));
    assert!(out.is_empty());
    let rec = b.get_record(&String::from("k")).expect("present");
    assert_eq!(rec.value, "v2");
    assert_eq!(b.store.records.len(), 1);
}

#[test]
fn deduplication_is_by_message_id_not_content() {
    let mut b = peer("local");
    confirm_new_peer(&mut b, "remote-1");
    let data = publish_payload("X", "Y", "Z", 1000);
    let out1 = b.inject_event(message("m1", data.clone(), true));
    let (key1, req1) = replicate_key(&out1);
    // the same payload under a fresh message id is a fresh publish
    let out2 = b.inject_event(message("m2", data, true));
    let (key2, req2) = replicate_key(&out2);
    assert_ne!(key1, key2, "each stored copy gets its own record key");
    b.inject_event(ComposedEvent::Dht(DhtEvent::PutResult { key: key1, acked: req1 }));
    b.inject_event(ComposedEvent::Dht(DhtEvent::PutResult { key: key2, acked: req2 }));
    let resp = b.handle_query(&NewsMode::ALL, &String::from("asker"));
    assert_eq!(resp.data.len(), 2);
}

#[test]
fn all_query_answers_in_store_order() {
    let mut b = peer("local");
    confirm_new_peer(&mut b, "remote-1");
    for (i, title) in ["first", "second", "third"].iter().enumerate() {
        let data = publish_payload(title, "A", "D", i as i64);
        let out = b.inject_event(message(&format!("m{}", i), data, true));
        let (key, req) = replicate_key(&out);
        b.inject_event(ComposedEvent::Dht(DhtEvent::PutResult { key, acked: req }));
    }
    let resp = b.handle_query(&NewsMode::ALL, &String::from("asker"));
    assert_eq!(resp.data.len(), 3);
    assert_eq!(resp.data[0].title, "first");
    assert_eq!(resp.data[1].title, "second");
    assert_eq!(resp.data[2].title, "third");
}
