use danse::cache::NANOS_PER_SEC;
use danse::message::get_key;
use danse::message::Question;
use danse::processor::Action;
use danse::processor::Processor;

use trust_dns_proto::op::Message;
use trust_dns_proto::op::MessageType;
use trust_dns_proto::op::Query;
use trust_dns_proto::rr::rdata::TXT;
use trust_dns_proto::rr::Name;
use trust_dns_proto::rr::RData;
use trust_dns_proto::rr::Record;
use trust_dns_proto::rr::RecordType;
use trust_dns_proto::serialize::binary::BinEncodable;

fn query_packet(id: u16, name: &str) -> Vec<u8> {
    let mut msg = Message::new();
    msg.set_id(id);
    msg.add_query(Query::query(Name::from_ascii(name).unwrap(), RecordType::TXT));
    msg.to_bytes().unwrap()
}

fn response_packet(id: u16, name: &str, ttl: u32) -> Vec<u8> {
    let mut msg = Message::new();
    msg.set_id(id);
    msg.set_message_type(MessageType::Response);
    let n = Name::from_ascii(name).unwrap();
    msg.add_query(Query::query(n.clone(), RecordType::TXT));
    msg.add_answer(Record::from_rdata(
        n,
        ttl,
        RData::TXT(TXT::new(vec!["v".to_string()])),
    ));
    msg.to_bytes().unwrap()
}

fn question(name: &str, qtype: u16, qclass: u16) -> Question {
    Question { name: name.to_string(), qtype, qclass }
}

#[test]
fn cache_key_is_deterministic() {
    let a = vec![question("example.com.", 16, 1), question("other.org.", 1, 1)];
    let b = vec![question("example.com.", 16, 1), question("other.org.", 1, 1)];
    assert_eq!(get_key(&a), get_key(&b));
}

#[test]
fn cache_key_separates_question_sets() {
    let a = vec![question("example.com.", 16, 1)];
    let b = vec![question("example.com.", 1, 1)];
    let c = vec![question("example.org.", 16, 1)];
    let d = vec![question("example.com.", 16, 1), question("example.com.", 16, 1)];
    assert_ne!(get_key(&a), get_key(&b));
    assert_ne!(get_key(&a), get_key(&c));
    assert_ne!(get_key(&a), get_key(&d));
}

#[test]
fn cache_key_respects_question_order() {
    let a = vec![question("a.example.", 16, 1), question("b.example.", 16, 1)];
    let b = vec![question("b.example.", 16, 1), question("a.example.", 16, 1)];
    assert_ne!(get_key(&a), get_key(&b));
}

#[test]
fn malformed_datagram_is_ignored() {
    let mut p = Processor::new(
        vec!["https://a.example/dns-query".to_string()],
        true,
        100,
        false,
    );
    let h = p.handle_query(&[0x01, 0x02, 0x03], 0);
    assert!(matches!(h.action, Action::Ignore));
    assert!(h.log_lines.is_empty());
    assert_eq!(p.cache_len(), 0);
}

#[test]
fn cache_bypass_always_forwards_and_never_stores() {
    let mut p = Processor::new(
        vec!["https://a.example/dns-query".to_string()],
        false,
        100,
        false,
    );
    let q = query_packet(7, "example.com.");
    let h1 = p.handle_query(&q, 0);
    let key1 = match h1.action {
        Action::Forward { key, .. } => key,
        _ => panic!("expected a forward with caching disabled"),
    };
    p.handle_response(key1, response_packet(7, "example.com.", 60), 0);
    assert_eq!(p.cache_len(), 0);
    let h2 = p.handle_query(&q, NANOS_PER_SEC);
    assert!(matches!(h2.action, Action::Forward { .. }));
    assert_eq!(p.cache_len(), 0);
}

#[test]
fn forwards_rotate_through_the_pool() {
    let mut p = Processor::new(
        vec![
            "https://a.example/dns-query".to_string(),
            "https://b.example/dns-query".to_string(),
        ],
        false,
        100,
        false,
    );
    let q = query_packet(7, "example.com.");
    let mut urls: Vec<String> = Vec::new();
    for _ in 0..4 {
        match p.handle_query(&q, 0).action {
            Action::Forward { url, .. } => urls.push(url),
            _ => panic!("expected a forward"),
        }
    }
    assert_eq!(
        urls,
        vec![
            "https://a.example/dns-query",
            "https://b.example/dns-query",
            "https://a.example/dns-query",
            "https://b.example/dns-query",
        ]
    );
}

#[test]
fn query_logging_emits_one_line_per_question() {
    let mut p = Processor::new(
        vec!["https://a.example/dns-query".to_string()],
        true,
        100,
        true,
    );
    let q = query_packet(7, "example.com.");
    let h = p.handle_query(&q, 0);
    assert_eq!(h.log_lines.len(), 1);
    assert!(h.log_lines[0].contains("example.com."));

    let mut silent = Processor::new(
        vec!["https://a.example/dns-query".to_string()],
        true,
        100,
        false,
    );
    let h2 = silent.handle_query(&q, 0);
    assert!(h2.log_lines.is_empty());
}

#[test]
fn end_to_end_cache_flow() {
    let mut p = Processor::new(
        vec!["https://a.example/dns-query".to_string()],
        true,
        100,
        false,
    );

    // Empty cache: the first query forwards upstream.
    let q1 = query_packet(0x1234, "example.com.");
    let h1 = p.handle_query(&q1, 0);
    let key = match h1.action {
        Action::Forward { key, .. } => key,
        _ => panic!("expected a forward on an empty cache"),
    };

    // The upstream answers with one TTL-60 record; the entry is stored.
    let resp = response_packet(0x1234, "example.com.", 60);
    p.handle_response(key, resp, 0);
    assert_eq!(p.cache_len(), 1);

    // Replaying 10 s later with a new transaction id serves the cached
    // reply: the new id is echoed back and the TTL counted down to 50.
    let q2 = query_packet(0xBEEF, "example.com.");
    let h2 = p.handle_query(&q2, 10 * NANOS_PER_SEC);
    match h2.action {
        Action::Reply(bytes) => {
            assert_eq!(&bytes[0..2], &[0xBEu8, 0xEF]);
            let served = Message::from_vec(&bytes).unwrap();
            assert_eq!(served.id(), 0xBEEF);
            assert_eq!(served.answers().len(), 1);
            assert_eq!(served.answers()[0].ttl(), 50);
        }
        _ => panic!("expected the cached reply"),
    }
    assert_eq!(p.cache_len(), 1);

    // 61 s after the store the entry has expired: it is evicted and
    // the query forwards upstream again.
    let q3 = query_packet(0x0042, "example.com.");
    let h3 = p.handle_query(&q3, 61 * NANOS_PER_SEC);
    assert!(matches!(h3.action, Action::Forward { .. }));
    assert_eq!(p.cache_len(), 0);
}
