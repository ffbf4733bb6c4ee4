use dns_question::{DomainName, QClass, QType, Question, QuestionError};

fn example_com_wire() -> Vec<u8> {
    let mut v = vec![7u8];
    v.extend_from_slice(b"example");
    v.push(3);
    v.extend_from_slice(b"com");
    v.push(0);
    v
}

#[test]
fn encode_example_com() {
    let q = Question::new("example.com");
    let mut expected = example_com_wire();
    expected.extend_from_slice(&[0, 1, 0, 1]);
    assert_eq!(q.encode(), expected);
}

#[test]
fn parse_example_com() {
    let mut msg = example_com_wire();
    msg.extend_from_slice(&[0, 1, 0, 1]);
    let (q, n) = Question::parse(&msg, 0).unwrap();
    assert_eq!(q.name().labels(), &vec![b"example".to_vec(), b"com".to_vec()]);
    assert_eq!(q.q_type(), 1);
    assert_eq!(q.q_class(), 1);
    assert_eq!(n as usize, example_com_wire().len() + 4);
}

#[test]
fn default_codes() {
    for name in ["", "a", "mail.example.org", "x.y.z."] {
        let q = Question::new(name);
        assert_eq!(q.q_type(), QType::A.get_value());
        assert_eq!(q.q_class(), QClass::In.get_value());
        assert_eq!(q.q_type(), 1);
        assert_eq!(q.q_class(), 1);
    }
}

#[test]
fn round_trip_names() {
    for name in ["", "a", "example.com", "www.sub.example.co.uk", "a-b.c_d.e1"] {
        let q = Question::new(name);
        let wire = q.encode();
        let (back, n) = Question::parse(&wire, 0).unwrap();
        assert_eq!(back.name().labels(), q.name().labels());
        assert_eq!(back.q_type(), q.q_type());
        assert_eq!(back.q_class(), q.q_class());
        assert_eq!(n as usize, wire.len());
    }
}

#[test]
fn root_name_encodes_to_one_zero_byte() {
    let q = Question::new("");
    assert_eq!(q.encode(), vec![0, 0, 1, 0, 1]);
    assert!(q.name().labels().is_empty());
}

fn long_name(len: usize) -> String {
    let mut s = String::new();
    while s.len() < len {
        if !s.is_empty() && s.len() % 64 == 63 {
            s.push('.');
        } else {
            s.push('a');
        }
    }
    s
}

#[test]
fn name_of_255_bytes_accepted() {
    let name = long_name(255);
    assert_eq!(name.len(), 255);
    let q = Question::try_new(&name).unwrap();
    let wire = q.encode();
    assert_eq!(wire.len(), 255 + 2 + 4);
    let (back, n) = Question::parse(&wire, 0).unwrap();
    assert_eq!(back.name().labels(), q.name().labels());
    assert_eq!(n as usize, wire.len());
}

#[test]
fn name_of_256_bytes_rejected() {
    let name = long_name(256);
    assert_eq!(name.len(), 256);
    assert!(matches!(Question::try_new(&name), Err(QuestionError::NameTooLong)));
}

#[test]
fn truncated_buffer_rejected() {
    assert!(matches!(Question::parse(&[0, 0, 1, 0], 0), Err(QuestionError::TruncatedMessage)));
    assert!(matches!(Question::parse(&[], 0), Err(QuestionError::TruncatedMessage)));
    // bytes that would be a bad name are not looked at when fewer than five remain
    assert!(matches!(
        Question::parse(&[0, 0, 0, 0x40, 0, 0, 1], 3),
        Err(QuestionError::TruncatedMessage)
    ));
    assert!(matches!(Question::parse(&[0, 0, 1, 0, 1], 9), Err(QuestionError::TruncatedMessage)));
}

#[test]
fn truncated_after_name_rejected() {
    let mut msg = example_com_wire();
    msg.extend_from_slice(&[0, 1, 0]);
    assert!(matches!(Question::parse(&msg, 0), Err(QuestionError::TruncatedMessage)));
}

#[test]
fn unrecognized_codes_kept() {
    let mut msg = example_com_wire();
    msg.extend_from_slice(&[0x00, 0x10, 0x00, 0x03]);
    let (q, n) = Question::parse(&msg, 0).unwrap();
    assert_eq!(q.q_type(), 16);
    assert_eq!(q.q_class(), 3);
    assert_eq!(n as usize, msg.len());
    let mut msg = vec![0u8];
    msg.extend_from_slice(&[0xab, 0xcd, 0xff, 0xfe]);
    let (q, _) = Question::parse(&msg, 0).unwrap();
    assert_eq!(q.q_type(), 0xabcd);
    assert_eq!(q.q_class(), 0xfffe);
}

#[test]
fn parse_at_offset() {
    let mut msg = vec![9u8, 9, 9];
    msg.extend_from_slice(&example_com_wire());
    msg.extend_from_slice(&[0, 28, 0, 1, 0xee]);
    let (q, n) = Question::parse(&msg, 3).unwrap();
    assert_eq!(q.name().labels(), &vec![b"example".to_vec(), b"com".to_vec()]);
    assert_eq!(q.q_type(), 28);
    assert_eq!(n as usize, example_com_wire().len() + 4);
}

#[test]
fn compression_pointer_counts_two_bytes() {
    // "example.com" at 0, then at 13 the label "www" and a pointer to 0
    let mut msg = example_com_wire();
    msg.extend_from_slice(&[0, 1, 0, 1]);
    let start = msg.len();
    msg.extend_from_slice(&[3, b'w', b'w', b'w', 0xc0, 0x00, 0, 1, 0, 1]);
    let (q, n) = Question::parse(&msg, start).unwrap();
    assert_eq!(
        q.name().labels(),
        &vec![b"www".to_vec(), b"example".to_vec(), b"com".to_vec()]
    );
    assert_eq!(n, 4 + 2 + 4);
    // a bare pointer
    let mut msg2 = example_com_wire();
    let start2 = msg2.len();
    msg2.extend_from_slice(&[0xc0, 0x00, 0, 5, 0, 1]);
    let (q2, n2) = Question::parse(&msg2, start2).unwrap();
    assert_eq!(q2.name().labels().len(), 2);
    assert_eq!(q2.q_type(), 5);
    assert_eq!(n2, 6);
}

#[test]
fn forward_or_looping_pointer_rejected() {
    // a pointer to itself
    let msg = [0xc0u8, 0x00, 0, 1, 0, 1];
    assert!(matches!(Question::parse(&msg, 0), Err(QuestionError::BadName)));
    // a pointer forward
    let msg = [0xc0u8, 0x02, 0, 0, 1, 0, 1];
    assert!(matches!(Question::parse(&msg, 0), Err(QuestionError::BadName)));
    // two pointers pointing at each other
    let msg = [0xc0u8, 0x02, 0xc0, 0x00, 0, 1, 0, 1];
    assert!(matches!(Question::parse(&msg, 2), Err(QuestionError::BadName)));
}

#[test]
fn bad_names_rejected() {
    // reserved length forms
    assert!(matches!(Question::parse(&[0x40, 0, 0, 1, 0, 1], 0), Err(QuestionError::BadName)));
    assert!(matches!(Question::parse(&[0x80, 0, 0, 1, 0, 1], 0), Err(QuestionError::BadName)));
    // a label running past the end
    assert!(matches!(Question::parse(&[10, b'a', b'b', 0, 1], 0), Err(QuestionError::BadName)));
    // no terminating zero
    assert!(matches!(Question::parse(&[1, b'a', 1, b'b', 1], 0), Err(QuestionError::BadName)));
}

#[test]
fn length_overflow_rejected() {
    // 1041 labels of 63 bytes: the name alone takes 66,625 bytes
    let mut msg = Vec::new();
    for _ in 0..1041 {
        msg.push(63u8);
        msg.extend_from_slice(&[b'x'; 63]);
    }
    msg.push(0);
    msg.extend_from_slice(&[0, 1, 0, 1]);
    assert!(matches!(Question::parse(&msg, 0), Err(QuestionError::LengthOverflow)));
    // 1023 labels: 65,478 bytes with the type and class, within the limit
    let mut ok = Vec::new();
    for _ in 0..1023 {
        ok.push(63u8);
        ok.extend_from_slice(&[b'x'; 63]);
    }
    ok.push(0);
    ok.extend_from_slice(&[0, 1, 0, 1]);
    let (_, n) = Question::parse(&ok, 0).unwrap();
    assert_eq!(n as usize, 1023 * 64 + 1 + 4);
}

#[test]
fn domain_name_text_splitting() {
    let d = DomainName::new("a.bc.def");
    assert_eq!(d.labels(), &vec![b"a".to_vec(), b"bc".to_vec(), b"def".to_vec()]);
    assert_eq!(d.encode(), vec![1, b'a', 2, b'b', b'c', 3, b'd', b'e', b'f', 0]);
    let trailing = DomainName::new("a.");
    assert_eq!(trailing.labels(), &vec![b"a".to_vec(), Vec::new()]);
    assert!(DomainName::new("").labels().is_empty());
}

#[test]
fn domain_name_parse_counts_bytes_in_place() {
    let msg = [1u8, b'q', 0, 2, b'r', b's', 0xc0, 0x00];
    let (d, n) = DomainName::parse(&msg, 3).unwrap();
    assert_eq!(d.labels(), &vec![b"rs".to_vec(), b"q".to_vec()]);
    assert_eq!(n, 5);
    assert!(DomainName::parse(&msg, 8).is_none());
}

#[test]
fn type_and_class_wire_values() {
    assert_eq!(QType::A.get_value(), 1);
    assert_eq!(QType::AAAA.get_value(), 28);
    assert_eq!(QType::MX.get_value(), 15);
    assert_eq!(QClass::In.get_value(), 1);
    assert_eq!(QClass::Ch.get_value(), 3);
    assert_eq!(dns_question::dns_types::encode_type_and_class(0x1234, 0xfe01), vec![0x12, 0x34, 0xfe, 0x01]);
    assert_eq!(
        dns_question::dns_types::parse_type_and_class(&[7, 0x12, 0x34, 0xfe, 0x01], 1),
        Some((0x1234, 0xfe01, 4))
    );
    assert_eq!(dns_question::dns_types::parse_type_and_class(&[0x12, 0x34, 0xfe], 0), None);
}
