use nsproxy::dns_server::{DnsServer, Reply, ANSWER_TTL, BASE_IPV4_ADDR, FIRST_IPV4_ADDR};
use trust_dns_proto::op::{Edns, Message, Query};
use trust_dns_proto::rr::{DNSClass, Name, RData, Record, RecordType};

fn datagram(questions: &[(&str, RecordType)]) -> Vec<u8> {
    let mut message = Message::new();
    message.set_id(4711);
    for (domain, record_type) in questions {
        let name = Name::from_ascii(domain).unwrap();
        message.add_query(Query::query(name, *record_type));
    }
    message.to_vec().unwrap()
}

fn exchange(server: &mut DnsServer, questions: &[(&str, RecordType)]) -> Message {
    match server.handle_query(&datagram(questions)) {
        Reply::Send(bytes) => Message::from_vec(&bytes).unwrap(),
        other => panic!("no reply: {:?}", other),
    }
}

fn query(server: &mut DnsServer, domain: &str) -> Vec<u32> {
    let reply = exchange(server, &[(domain, RecordType::A)]);
    reply
        .answers()
        .iter()
        .map(|answer| match answer.rdata() {
            RData::A(addr) => u32::from(*addr),
            other => panic!("not an address: {:?}", other),
        })
        .collect()
}

#[test]
fn sanity() {
    let mut server = DnsServer::new();
    let addrs = query(&mut server, "www.example.com.");
    assert_eq!(addrs, [FIRST_IPV4_ADDR]);
}

#[test]
fn domain_stay_in_cache() {
    let mut server = DnsServer::new();
    let addrs1 = query(&mut server, "www.example.com.");
    let addrs2 = query(&mut server, "www.example.com.");
    assert_eq!(addrs1, [FIRST_IPV4_ADDR]);
    assert_eq!(addrs2, [FIRST_IPV4_ADDR]);
}

#[test]
fn different_addrs_for_different_domains() {
    let mut server = DnsServer::new();
    let addrs1 = query(&mut server, "www.example.com.");
    let addrs2 = query(&mut server, "www.example2.com.");
    assert_eq!(addrs1, [FIRST_IPV4_ADDR]);
    assert_eq!(addrs2, [FIRST_IPV4_ADDR + 1]);
}

#[test]
fn ipv4_addrs_dont_end_with_0_or_255() {
    let mut server = DnsServer::new();
    for i in 0..256 {
        let addrs = query(&mut server, format!("www.example{}.com.", i).as_str());
        let mod256 = addrs[0] % 256;
        assert_ne!(mod256, 0);
        assert_ne!(mod256, 255);
    }
}

#[test]
fn response_match_ipv4_mapping() {
    let mut server = DnsServer::new();
    let addrs = query(&mut server, "www.example.com.");
    let expected_ipv4_addr = FIRST_IPV4_ADDR;
    let expected_name = String::from("www.example.com.");
    assert_eq!(addrs, [expected_ipv4_addr]);
    let ipv4_mapping = server.ipv4_mapping();
    assert_eq!(ipv4_mapping.get_name(expected_ipv4_addr), Some(&expected_name));
    assert_eq!(ipv4_mapping.get_addr(&expected_name), Some(expected_ipv4_addr));
}

#[test]
fn first_address_is_base_plus_one() {
    assert_eq!(BASE_IPV4_ADDR, 0x0D00_0000);
    assert_eq!(FIRST_IPV4_ADDR, 0x0D00_0001);
    let mut server = DnsServer::new();
    assert_eq!(server.create_ipv4_addr_for_domain("a.example."), Some(0x0D00_0001));
    assert_eq!(server.create_ipv4_addr_for_domain("b.example."), Some(0x0D00_0002));
    assert_eq!(server.create_ipv4_addr_for_domain("a.example."), Some(0x0D00_0001));
    assert_eq!(server.ipv4_mapping().len(), 2);
}

#[test]
fn boundary_is_skipped_once_in_256_domains() {
    let mut server = DnsServer::new();
    let mut addrs = Vec::new();
    for i in 0..256 {
        let name = format!("host{}.example.", i);
        addrs.push(server.create_ipv4_addr_for_domain(&name).unwrap());
    }
    // 254 addresses fit below the boundary: 13.0.0.1 to 13.0.0.254.
    assert_eq!(addrs[0], 0x0D00_0001);
    assert_eq!(addrs[253], 0x0D00_00FE);
    // 13.0.0.255 and 13.0.1.0 are left out.
    assert_eq!(addrs[254], 0x0D00_0101);
    assert_eq!(addrs[255], 0x0D00_0102);
    for pair in addrs.windows(2) {
        assert!(pair[0] < pair[1]);
    }
}

#[test]
fn second_boundary_is_skipped_too() {
    let mut server = DnsServer::new();
    let mut last = 0;
    for i in 0..509 {
        let name = format!("host{}.example.", i);
        last = server.create_ipv4_addr_for_domain(&name).unwrap();
    }
    // The 509th domain is the first of the third run of 254.
    assert_eq!(last, 0x0D00_0201);
}

#[test]
fn reverse_lookup_inverts_every_resolution() {
    let mut server = DnsServer::new();
    let names: Vec<String> = (0..300).map(|i| format!("n{}.example.", i)).collect();
    let addrs: Vec<u32> =
        names.iter().map(|n| server.create_ipv4_addr_for_domain(n).unwrap()).collect();
    let mapping = server.ipv4_mapping();
    for (name, addr) in names.iter().zip(addrs.iter()) {
        assert_eq!(mapping.get_name(*addr), Some(name));
        assert_eq!(mapping.get_addr(name), Some(*addr));
    }
    assert_eq!(mapping.get_name(BASE_IPV4_ADDR), None);
    assert_eq!(mapping.get_name(BASE_IPV4_ADDR + 255), None);
    assert_eq!(mapping.get_addr("unknown.example."), None);
}

#[test]
fn rdata_only_for_address_questions() {
    let mut server = DnsServer::new();
    assert_eq!(server.create_rdata_for_domain("a.example.", 28), None);
    assert_eq!(server.create_rdata_for_domain("a.example.", 16), None);
    assert_eq!(server.ipv4_mapping().len(), 0);
    assert_eq!(server.create_rdata_for_domain("a.example.", 1), Some(FIRST_IPV4_ADDR));
    assert_eq!(server.ipv4_mapping().len(), 1);
}

#[test]
fn answer_has_name_type_class_and_ttl_of_one_hour() {
    let mut server = DnsServer::new();
    let reply = exchange(&mut server, &[("www.example.com.", RecordType::A)]);
    assert_eq!(reply.id(), 4711);
    assert_eq!(reply.queries().len(), 1);
    assert_eq!(reply.answers().len(), 1);
    let answer = &reply.answers()[0];
    assert_eq!(answer.name(), &Name::from_ascii("www.example.com.").unwrap());
    assert_eq!(answer.record_type(), RecordType::A);
    assert_eq!(answer.dns_class(), DNSClass::IN);
    assert_eq!(answer.ttl(), 3600);
    assert_eq!(ANSWER_TTL, 3600);
}

#[test]
fn other_record_types_get_no_answer() {
    let mut server = DnsServer::new();
    let reply = exchange(&mut server, &[("www.example.com.", RecordType::AAAA)]);
    assert_eq!(reply.queries().len(), 1);
    assert_eq!(reply.answers().len(), 0);
    assert_eq!(server.ipv4_mapping().len(), 0);
    let reply = exchange(&mut server, &[("www.example.com.", RecordType::TXT)]);
    assert_eq!(reply.answers().len(), 0);
}

#[test]
fn every_address_question_of_a_message_is_answered_in_order() {
    let mut server = DnsServer::new();
    let reply = exchange(
        &mut server,
        &[
            ("one.example.", RecordType::A),
            ("two.example.", RecordType::MX),
            ("three.example.", RecordType::A),
            ("one.example.", RecordType::A),
        ],
    );
    let answers: Vec<(String, u32)> = reply
        .answers()
        .iter()
        .map(|answer| match answer.rdata() {
            RData::A(addr) => (answer.name().to_ascii(), u32::from(*addr)),
            other => panic!("not an address: {:?}", other),
        })
        .collect();
    assert_eq!(
        answers,
        [
            (String::from("one.example."), FIRST_IPV4_ADDR),
            (String::from("three.example."), FIRST_IPV4_ADDR + 1),
            (String::from("one.example."), FIRST_IPV4_ADDR),
        ]
    );
    assert_eq!(server.ipv4_mapping().len(), 2);
}

#[test]
fn names_are_told_apart_without_regard_to_case() {
    let mut server = DnsServer::new();
    let first = query(&mut server, "WWW.Example.COM.");
    let second = query(&mut server, "www.example.com.");
    assert_eq!(first, [FIRST_IPV4_ADDR]);
    assert_eq!(second, [FIRST_IPV4_ADDR]);
    let mapping = server.ipv4_mapping();
    assert_eq!(mapping.len(), 1);
    assert_eq!(mapping.get_name(FIRST_IPV4_ADDR), Some(&String::from("www.example.com.")));
}

#[test]
fn malformed_datagram_is_ignored() {
    let mut server = DnsServer::new();
    assert!(matches!(server.handle_query(&[]), Reply::Ignore));
    assert!(matches!(server.handle_query(&[1, 2, 3]), Reply::Ignore));
    // A header that announces a question which is not there.
    let truncated = [0x12, 0x34, 0x01, 0x00, 0x00, 0x01, 0, 0, 0, 0, 0, 0];
    assert!(matches!(server.handle_query(&truncated), Reply::Ignore));
    assert_eq!(server.ipv4_mapping().len(), 0);
}

#[test]
fn trailing_bytes_after_the_message_do_not_matter() {
    let mut server = DnsServer::new();
    let mut bytes = datagram(&[("www.example.com.", RecordType::A)]);
    bytes.resize(65536, 0);
    match server.handle_query(&bytes) {
        Reply::Send(reply) => {
            let reply = Message::from_vec(&reply).unwrap();
            assert_eq!(reply.answers().len(), 1);
        }
        other => panic!("no reply: {:?}", other),
    }
}

#[test]
fn answers_that_came_with_the_query_stay_in_front() {
    let mut server = DnsServer::new();
    let mut message = Message::new();
    let name = Name::from_ascii("www.example.com.").unwrap();
    message.add_query(Query::query(name.clone(), RecordType::A));
    let mut record = Record::new();
    record.set_name(name);
    record.set_record_type(RecordType::A);
    record.set_ttl(5);
    record.set_rdata(RData::A(0x0A00_0001u32.into()));
    message.add_answer(record);
    let reply = match server.handle_query(&message.to_vec().unwrap()) {
        Reply::Send(bytes) => Message::from_vec(&bytes).unwrap(),
        other => panic!("no reply: {:?}", other),
    };
    assert_eq!(reply.answers().len(), 2);
    assert_eq!(reply.answers()[0].ttl(), 5);
    assert_eq!(reply.answers()[1].ttl(), 3600);
    assert_eq!(reply.answers()[1].rdata(), &RData::A(FIRST_IPV4_ADDR.into()));
}

#[test]
fn reply_that_does_not_fit_is_not_sent() {
    // 950 questions with names of one label each, 63 bytes long and all
    // different: nothing in them can be shortened, and together with the
    // header they take more than a message can hold.
    let count: u16 = 950;
    let mut bytes = vec![0x12, 0x34, 0x01, 0x00];
    bytes.extend_from_slice(&count.to_be_bytes());
    bytes.extend_from_slice(&[0, 0, 0, 0, 0, 0]);
    for i in 0..count {
        bytes.push(63);
        bytes.extend_from_slice(format!("{:063}", i).as_bytes());
        bytes.push(0);
        bytes.extend_from_slice(&[0, 1, 0, 1]);
    }
    assert!(bytes.len() > 65535);
    let mut server = DnsServer::new();
    assert!(matches!(server.handle_query(&bytes), Reply::EncodeFailed));
    // The questions were resolved all the same.
    let mapping = server.ipv4_mapping();
    assert_eq!(mapping.len(), 950);
    assert_eq!(mapping.get_addr(&format!("{:063}.", 0)), Some(FIRST_IPV4_ADDR));
    assert_eq!(mapping.get_addr(&format!("{:063}.", 254)), Some(BASE_IPV4_ADDR + 257));
}

#[test]
fn answer_message_appends_to_the_message_it_is_given() {
    let mut server = DnsServer::new();
    let mut message = Message::new();
    message.add_query(Query::query(Name::from_ascii("a.example.").unwrap(), RecordType::A));
    message.add_query(Query::query(Name::from_ascii("b.example.").unwrap(), RecordType::NS));
    message.add_query(Query::query(Name::from_ascii("c.example.").unwrap(), RecordType::A));
    server.answer_message(&mut message);
    assert_eq!(message.queries().len(), 3);
    assert_eq!(message.answers().len(), 2);
    assert_eq!(message.answers()[0].name().to_ascii(), "a.example.");
    assert_eq!(message.answers()[0].rdata(), &RData::A(FIRST_IPV4_ADDR.into()));
    assert_eq!(message.answers()[1].name().to_ascii(), "c.example.");
    assert_eq!(message.answers()[1].rdata(), &RData::A((FIRST_IPV4_ADDR + 1).into()));
    assert_eq!(message.name_servers().len(), 0);
    assert_eq!(message.additionals().len(), 0);
}

fn address(name: &str, addr: u32) -> Record {
    let mut record = Record::new();
    record.set_name(Name::from_ascii(name).unwrap());
    record.set_record_type(RecordType::A);
    record.set_ttl(60);
    record.set_rdata(RData::A(addr.into()));
    record
}

/// A datagram with `questions` questions for one name, all but the first
/// of them pointing at the name of the first, and an EDNS record if asked.
fn repeated_question(questions: u16, edns: bool) -> Vec<u8> {
    let mut bytes = vec![0x12, 0x34, 0x01, 0x00];
    bytes.extend_from_slice(&questions.to_be_bytes());
    bytes.extend_from_slice(&[0, 0, 0, 0]);
    bytes.extend_from_slice(&(edns as u16).to_be_bytes());
    bytes.extend_from_slice(b"\x03www\x07example\x03com\x00\x00\x01\x00\x01");
    for _ in 1..questions {
        bytes.extend_from_slice(&[0xC0, 12, 0, 1, 0, 1]);
    }
    if edns {
        bytes.extend_from_slice(&[0, 0, 41, 0x04, 0xD0, 0, 0, 0, 0, 0, 0]);
    }
    bytes
}

#[test]
fn query_with_edns_record_is_answered() {
    let mut server = DnsServer::new();
    let mut message = Message::new();
    message.set_id(7);
    message.add_query(Query::query(Name::from_ascii("www.example.com.").unwrap(), RecordType::A));
    let mut edns = Edns::new();
    edns.set_max_payload(1232);
    message.set_edns(edns);
    let reply = match server.handle_query(&message.to_vec().unwrap()) {
        Reply::Send(bytes) => {
            assert!(bytes.len() >= 12 && bytes.len() <= 65535);
            Message::from_vec(&bytes).unwrap()
        }
        other => panic!("no reply: {:?}", other),
    };
    assert_eq!(reply.id(), 7);
    assert_eq!(reply.answers().len(), 1);
    assert_eq!(reply.answers()[0].rdata(), &RData::A(FIRST_IPV4_ADDR.into()));
    assert_eq!(reply.edns().map(|edns| edns.max_payload()), Some(1232));
}

#[test]
fn several_questions_with_edns_record_are_answered() {
    let mut server = DnsServer::new();
    let reply = match server.handle_query(&repeated_question(100, true)) {
        Reply::Send(bytes) => Message::from_vec(&bytes).unwrap(),
        other => panic!("no reply: {:?}", other),
    };
    assert_eq!(reply.queries().len(), 100);
    assert_eq!(reply.answers().len(), 100);
    assert!(reply.edns().is_some());
    assert!(!reply.truncated());
}

#[test]
fn message_with_edns_record_that_may_not_fit_gets_no_reply() {
    // With three thousand questions the answers take more room than a
    // message has, and the EDNS record would have to be written behind them.
    let mut server = DnsServer::new();
    assert!(matches!(server.handle_query(&repeated_question(3000, true)), Reply::EncodeFailed));
    assert!(matches!(server.handle_query(&repeated_question(2984, true)), Reply::EncodeFailed));
    assert_eq!(server.ipv4_mapping().len(), 1);
    assert_eq!(server.ipv4_mapping().get_addr("www.example.com."), Some(FIRST_IPV4_ADDR));
}

#[test]
fn size_test_with_edns_record_is_exact() {
    // Header 12, each question 2 * 16 + 22 = 54, and the datagram itself:
    // 12 + 21 + 6 * (n - 1) + 11 bytes. For 1091 questions that makes
    // 12 + 58914 + 6584 = 65510, for 1092 questions 65570.
    let mut server = DnsServer::new();
    match server.handle_query(&repeated_question(1091, true)) {
        Reply::Send(bytes) => {
            let reply = Message::from_vec(&bytes).unwrap();
            assert_eq!(reply.answers().len(), 1091);
            assert!(reply.edns().is_some());
        }
        other => panic!("no reply: {:?}", other),
    }
    assert!(matches!(server.handle_query(&repeated_question(1092, true)), Reply::EncodeFailed));
}

#[test]
fn answers_that_do_not_fit_are_left_out_where_nothing_follows() {
    let mut server = DnsServer::new();
    match server.handle_query(&repeated_question(5000, false)) {
        Reply::Send(bytes) => {
            assert!(bytes.len() <= 65535);
            assert_eq!(&bytes[4..6], &5000u16.to_be_bytes());
            let answers = u16::from_be_bytes([bytes[6], bytes[7]]);
            assert!(answers > 2000 && answers < 5000);
            // The reply says that it was cut short.
            assert_eq!(bytes[2] & 0x02, 0x02);
        }
        other => panic!("no reply: {:?}", other),
    }
    assert_eq!(server.ipv4_mapping().len(), 1);
}

#[test]
fn message_with_records_behind_the_answers_gets_no_reply() {
    let mut server = DnsServer::new();
    let question = Query::query(Name::from_ascii("www.example.com.").unwrap(), RecordType::A);

    let mut message = Message::new();
    message.add_query(question.clone());
    message.add_additional(address("extra.example.", 1));
    assert!(matches!(server.handle_query(&message.to_vec().unwrap()), Reply::EncodeFailed));

    let mut message = Message::new();
    message.add_query(question.clone());
    message.add_name_server(address("ns.example.", 2));
    assert!(matches!(server.handle_query(&message.to_vec().unwrap()), Reply::EncodeFailed));

    // The question was resolved all the same.
    assert_eq!(server.ipv4_mapping().get_addr("www.example.com."), Some(FIRST_IPV4_ADDR));
}

#[test]
fn message_with_edns_record_and_answers_of_its_own_gets_no_reply() {
    let mut server = DnsServer::new();
    let mut message = Message::new();
    message.add_query(Query::query(Name::from_ascii("www.example.com.").unwrap(), RecordType::A));
    message.add_answer(address("www.example.com.", 3));
    message.set_edns(Edns::new());
    assert!(matches!(server.handle_query(&message.to_vec().unwrap()), Reply::EncodeFailed));
}
