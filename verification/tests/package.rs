use bencode::util::ByteString;
use bencode::Bencode;
use bencode::DictMap;
use dht::base::Ipv4Address;
use dht::base::Ipv6Address;
use dht::base::Node;
use dht::base::SocketAddress;
use dht::bt::payload_dict::PayloadDict;
use dht::bt::protocol::Package;
use dht::bt::protocol::Payload;
use dht::error::ProtocolError;
use num::BigUint;

fn sender() -> Node {
    Node { id: BigUint::from(42u8), address: SocketAddress::V4(Ipv4Address(127, 0, 0, 1), 8008) }
}

fn fields(pairs: &[(&str, &[u8])]) -> PayloadDict {
    let mut d = PayloadDict::new();
    for (k, v) in pairs {
        d.insert(k.to_string(), v.to_vec());
    }
    d
}

fn sorted_fields(d: &PayloadDict) -> Vec<(String, Vec<u8>)> {
    let mut entries = d.entries().clone();
    entries.sort();
    entries
}

fn key(k: &str) -> ByteString {
    ByteString::from_str(k)
}

fn bytes(b: &[u8]) -> Bencode {
    Bencode::ByteString(b.to_vec())
}

fn dict_of(entries: Vec<(&str, Bencode)>) -> Bencode {
    let mut d = DictMap::new();
    for (k, v) in entries {
        d.insert(key(k), v);
    }
    Bencode::Dict(d)
}

fn packed_sender() -> Bencode {
    sender().to_bencode().unwrap()
}

fn query(tid: &[u8], d: PayloadDict) -> Package {
    Package { transaction_id: tid.to_vec(), payload: Payload::Query(d), sender: Some(sender()) }
}

fn response(tid: &[u8], d: PayloadDict) -> Package {
    Package { transaction_id: tid.to_vec(), payload: Payload::Response(d), sender: Some(sender()) }
}

fn error(tid: &[u8], code: i64, message: &str) -> Package {
    Package {
        transaction_id: tid.to_vec(),
        payload: Payload::Error(code, message.to_string()),
        sender: None,
    }
}

fn decode_error(b: &Bencode) -> ProtocolError {
    match Package::from_bencode(b) {
        Ok(p) => panic!("unexpected {:?}", p),
        Err(e) => e,
    }
}

#[test]
fn query_is_encoded_as_dictionary() {
    let p = query(b"aa", fields(&[("target", b"xyz"), ("b", &[0, 255])]));
    let expected = dict_of(vec![
        ("t", bytes(b"aa")),
        ("y", bytes(b"q")),
        (
            "q",
            dict_of(vec![
                ("b", bytes(&[0, 255])),
                ("id", packed_sender()),
                ("target", bytes(b"xyz")),
            ]),
        ),
    ]);
    assert_eq!(p.to_bencode(), Ok(expected));
}

#[test]
fn response_is_encoded_as_dictionary() {
    let p = response(&[1, 2, 254, 255], fields(&[("nodes", b"")]));
    let expected = dict_of(vec![
        ("t", bytes(&[1, 2, 254, 255])),
        ("y", bytes(b"r")),
        ("r", dict_of(vec![("id", packed_sender()), ("nodes", bytes(b""))])),
    ]);
    assert_eq!(p.to_bencode(), Ok(expected));
}

#[test]
fn error_is_encoded_as_list() {
    let p = error(b"aa", 10, "error");
    let expected = dict_of(vec![
        ("t", bytes(b"aa")),
        ("y", bytes(b"e")),
        ("e", Bencode::List(vec![Bencode::Number(10), bytes(b"error")])),
    ]);
    assert_eq!(p.to_bencode(), Ok(expected));
}

#[test]
fn error_ignores_its_sender() {
    let mut p = error(b"aa", -3, "");
    let without = p.to_bencode();
    p.sender = Some(sender());
    assert_eq!(p.to_bencode(), without);
    p.sender = Some(Node {
        id: BigUint::from(1u8) << 170usize,
        address: SocketAddress::V6(Ipv6Address([0; 8]), 1),
    });
    assert_eq!(p.try_to_bencode(), without);
}

#[test]
fn query_without_fields_still_holds_its_sender() {
    let p = query(b"aa", PayloadDict::new());
    let enc = p.to_bencode().unwrap();
    let expected = dict_of(vec![
        ("t", bytes(b"aa")),
        ("y", bytes(b"q")),
        ("q", dict_of(vec![("id", packed_sender())])),
    ]);
    assert_eq!(enc, expected);
    match enc {
        Bencode::Dict(ref d) => match d[&key("q")] {
            Bencode::Dict(ref q) => assert_eq!(q[&key("id")], packed_sender()),
            ref other => panic!("unexpected {}", other),
        },
        ref other => panic!("unexpected {}", other),
    }
}

#[test]
fn sender_replaces_a_field_under_the_reserved_key() {
    let p = query(b"aa", fields(&[("id", b"mine"), ("x", b"1")]));
    let expected = dict_of(vec![
        ("t", bytes(b"aa")),
        ("y", bytes(b"q")),
        ("q", dict_of(vec![("id", packed_sender()), ("x", bytes(b"1"))])),
    ]);
    assert_eq!(p.to_bencode(), Ok(expected));
}

#[test]
fn encoded_bytes_have_sorted_keys() {
    let p = error(b"aa", 201, "A Generic Error Ocurred");
    let wire = p.to_bencode().unwrap().to_bytes().unwrap();
    assert_eq!(wire, b"d1:eli201e23:A Generic Error Ocurrede1:t2:aa1:y1:ee".to_vec());
    let p = response(b"aa", fields(&[("z", b"1"), ("a", b"2")]));
    let wire = p.to_bencode().unwrap().to_bytes().unwrap();
    let mut expected = b"d1:rd1:a1:22:id26:".to_vec();
    expected.extend_from_slice(&[0u8; 19]);
    expected.extend_from_slice(&[42, 127, 0, 0, 1, 0x1F, 0x48]);
    expected.extend_from_slice(b"1:z1:1e1:t2:aa1:y1:re");
    assert_eq!(wire, expected);
}

#[test]
fn sender_of_other_family_is_refused() {
    let mut p = query(b"aa", PayloadDict::new());
    p.sender = Some(Node {
        id: BigUint::from(42u8),
        address: SocketAddress::V6(Ipv6Address([0, 0, 0, 0, 0, 0, 0, 1]), 8008),
    });
    assert_eq!(p.to_bencode(), Err(ProtocolError::UnsupportedAddressFamily));
    assert_eq!(p.try_to_bencode(), Err(ProtocolError::UnsupportedAddressFamily));
    p.payload = Payload::Response(PayloadDict::new());
    assert_eq!(p.to_bencode(), Err(ProtocolError::UnsupportedAddressFamily));
}

#[test]
fn package_that_cannot_be_sent_is_a_contract_violation() {
    let mut p = query(b"aa", PayloadDict::new());
    p.sender = None;
    assert_eq!(p.try_to_bencode(), Err(ProtocolError::ContractViolation));
    p.sender = Some(Node {
        id: BigUint::from(1u8) << 160usize,
        address: SocketAddress::V4(Ipv4Address(127, 0, 0, 1), 8008),
    });
    assert_eq!(p.try_to_bencode(), Err(ProtocolError::ContractViolation));
    p.sender = Some(sender());
    assert_eq!(p.try_to_bencode(), p.to_bencode());
    assert!(p.try_to_bencode().is_ok());
}

#[test]
fn query_round_trips() {
    let p = query(&[0, 1, 2, 255], fields(&[("target", b"xyz"), ("", b""), ("\u{e9}t\u{e9}", &[128, 129])]));
    let back = Package::from_bencode(&p.to_bencode().unwrap()).unwrap();
    assert_eq!(back.transaction_id, vec![0, 1, 2, 255]);
    assert_eq!(back.sender, Some(sender()));
    match back.payload {
        Payload::Query(ref d) => assert_eq!(sorted_fields(d), sorted_fields(match p.payload {
            Payload::Query(ref d) => d,
            _ => unreachable!(),
        })),
        ref other => panic!("unexpected {:?}", other),
    }
}

#[test]
fn response_round_trips() {
    let p = response(b"", fields(&[("nodes", &[1, 2, 3]), ("token", b"t")]));
    let back = Package::from_bencode(&p.to_bencode().unwrap()).unwrap();
    assert_eq!(back.transaction_id, Vec::<u8>::new());
    assert_eq!(back.sender, Some(sender()));
    match back.payload {
        Payload::Response(ref d) => {
            assert_eq!(d.len(), 2);
            assert_eq!(d.get("nodes"), Some(&vec![1, 2, 3]));
            assert_eq!(d.get("token"), Some(&b"t".to_vec()));
        }
        ref other => panic!("unexpected {:?}", other),
    }
}

#[test]
fn error_round_trips() {
    let p = error(b"aa", i64::MIN, "G\u{e9}n\u{e9}rique");
    let back = Package::from_bencode(&p.to_bencode().unwrap()).unwrap();
    assert_eq!(back.transaction_id, b"aa".to_vec());
    assert_eq!(back.sender, None);
    match back.payload {
        Payload::Error(code, ref message) => {
            assert_eq!(code, i64::MIN);
            assert_eq!(message, "G\u{e9}n\u{e9}rique");
        }
        ref other => panic!("unexpected {:?}", other),
    }
}

#[test]
fn field_under_the_reserved_key_does_not_come_back() {
    let p = query(b"aa", fields(&[("id", b"mine"), ("x", b"1")]));
    let back = Package::from_bencode(&p.to_bencode().unwrap()).unwrap();
    match back.payload {
        Payload::Query(ref d) => {
            assert_eq!(sorted_fields(d), vec![("x".to_string(), b"1".to_vec())]);
        }
        ref other => panic!("unexpected {:?}", other),
    }
    assert_eq!(back.sender, Some(sender()));
}

#[test]
fn package_is_decoded_from_wire_bytes() {
    let mut wire = b"d1:qd2:id26:".to_vec();
    wire.extend_from_slice(&[0u8; 19]);
    wire.extend_from_slice(&[42, 127, 0, 0, 1, 0x1F, 0x48]);
    wire.extend_from_slice(b"6:target3:xyze1:t2:aa1:y1:qe");
    let value = bencode::from_buffer(&wire).unwrap();
    let p = Package::from_bencode(&value).unwrap();
    assert_eq!(p.transaction_id, b"aa".to_vec());
    assert_eq!(p.sender, Some(sender()));
    match p.payload {
        Payload::Query(ref d) => {
            assert_eq!(sorted_fields(d), vec![("target".to_string(), b"xyz".to_vec())]);
        }
        ref other => panic!("unexpected {:?}", other),
    }
    let value = bencode::from_buffer(b"d1:eli201e5:oopsee1:t1:x1:y1:ee").unwrap();
    let p = Package::from_bencode(&value).unwrap();
    assert_eq!(p.transaction_id, b"x".to_vec());
    assert_eq!(p.sender, None);
    match p.payload {
        Payload::Error(201, ref message) => assert_eq!(message, "oopse"),
        ref other => panic!("unexpected {:?}", other),
    }
}

#[test]
fn value_that_is_no_dictionary_is_malformed() {
    assert_eq!(decode_error(&Bencode::Empty), ProtocolError::MalformedMessage);
    assert_eq!(decode_error(&Bencode::Number(1)), ProtocolError::MalformedMessage);
    assert_eq!(decode_error(&bytes(b"d1:t2:aae")), ProtocolError::MalformedMessage);
    assert_eq!(decode_error(&Bencode::List(vec![])), ProtocolError::MalformedMessage);
}

#[test]
fn missing_or_mistyped_transaction_id_is_malformed() {
    let payload = dict_of(vec![("id", packed_sender())]);
    let b = dict_of(vec![("y", bytes(b"q")), ("q", payload.clone())]);
    assert_eq!(decode_error(&b), ProtocolError::MalformedMessage);
    let b = dict_of(vec![("t", Bencode::Number(1)), ("y", bytes(b"q")), ("q", payload.clone())]);
    assert_eq!(decode_error(&b), ProtocolError::MalformedMessage);
    let b = dict_of(vec![("tt", bytes(b"aa")), ("y", bytes(b"q")), ("q", payload.clone())]);
    assert_eq!(decode_error(&b), ProtocolError::MalformedMessage);
    let b = dict_of(vec![("y", bytes(b"x"))]);
    assert_eq!(decode_error(&b), ProtocolError::MalformedMessage);
    let b = dict_of(vec![("t", bytes(b"aa")), ("y", bytes(b"q")), ("q", payload)]);
    assert!(Package::from_bencode(&b).is_ok());
}

#[test]
fn missing_or_mistyped_type_is_malformed() {
    let payload = dict_of(vec![("id", packed_sender())]);
    let b = dict_of(vec![("t", bytes(b"aa")), ("q", payload.clone())]);
    assert_eq!(decode_error(&b), ProtocolError::MalformedMessage);
    let b = dict_of(vec![("t", bytes(b"aa")), ("y", Bencode::Number(113)), ("q", payload.clone())]);
    assert_eq!(decode_error(&b), ProtocolError::MalformedMessage);
    let b = dict_of(vec![("t", bytes(b"aa")), ("y", Bencode::List(vec![bytes(b"q")])), ("q", payload)]);
    assert_eq!(decode_error(&b), ProtocolError::MalformedMessage);
}

#[test]
fn other_type_is_unknown() {
    let payload = dict_of(vec![("id", packed_sender())]);
    for tag in [&b"x"[..], b"", b"qq", b"Q", b"qr", b"er"] {
        let b = dict_of(vec![
            ("t", bytes(b"aa")),
            ("y", bytes(tag)),
            ("q", payload.clone()),
            ("r", payload.clone()),
            ("e", Bencode::List(vec![Bencode::Number(1), bytes(b"m")])),
        ]);
        assert_eq!(decode_error(&b), ProtocolError::UnknownMessageType);
    }
}

#[test]
fn payload_is_read_under_the_key_that_the_type_names() {
    let payload = dict_of(vec![("id", packed_sender())]);
    let b = dict_of(vec![("t", bytes(b"aa")), ("y", bytes(b"r")), ("q", payload.clone())]);
    assert_eq!(decode_error(&b), ProtocolError::MalformedMessage);
    let b = dict_of(vec![("t", bytes(b"aa")), ("y", bytes(b"q")), ("r", payload.clone())]);
    assert_eq!(decode_error(&b), ProtocolError::MalformedMessage);
    let b = dict_of(vec![("t", bytes(b"aa")), ("y", bytes(b"e")), ("q", payload.clone())]);
    assert_eq!(decode_error(&b), ProtocolError::MalformedMessage);
    let b = dict_of(vec![("t", bytes(b"aa")), ("y", bytes(b"r")), ("r", payload)]);
    match Package::from_bencode(&b).unwrap().payload {
        Payload::Response(ref d) => assert!(d.is_empty()),
        ref other => panic!("unexpected {:?}", other),
    }
}

#[test]
fn payload_of_wrong_shape_is_malformed() {
    let message = |payload: Bencode| {
        dict_of(vec![("t", bytes(b"aa")), ("y", bytes(b"q")), ("q", payload)])
    };
    assert_eq!(decode_error(&message(bytes(b"ping"))), ProtocolError::MalformedMessage);
    assert_eq!(decode_error(&message(Bencode::Number(1))), ProtocolError::MalformedMessage);
    assert_eq!(decode_error(&message(Bencode::List(vec![]))), ProtocolError::MalformedMessage);
    assert_eq!(decode_error(&message(dict_of(vec![]))), ProtocolError::MalformedMessage);
    assert_eq!(
        decode_error(&message(dict_of(vec![("x", bytes(b"1"))]))),
        ProtocolError::MalformedMessage
    );
    assert_eq!(
        decode_error(&message(dict_of(vec![("id", bytes(&[0u8; 20]))]))),
        ProtocolError::MalformedMessage
    );
    assert_eq!(
        decode_error(&message(dict_of(vec![("id", bytes(&[0u8; 27]))]))),
        ProtocolError::MalformedMessage
    );
    assert_eq!(
        decode_error(&message(dict_of(vec![("id", Bencode::Number(26))]))),
        ProtocolError::MalformedMessage
    );
    assert_eq!(
        decode_error(&message(dict_of(vec![("id", packed_sender()), ("x", Bencode::Number(1))]))),
        ProtocolError::MalformedMessage
    );
    assert_eq!(
        decode_error(&message(dict_of(vec![("id", packed_sender()), ("x", dict_of(vec![]))]))),
        ProtocolError::MalformedMessage
    );
}

#[test]
fn field_key_that_is_no_text_is_malformed() {
    let mut inner = DictMap::new();
    inner.insert(key("id"), packed_sender());
    inner.insert(ByteString::from_vec(vec![0xFF, 0xFE]), bytes(b"1"));
    let b = dict_of(vec![("t", bytes(b"aa")), ("y", bytes(b"r")), ("r", Bencode::Dict(inner))]);
    assert_eq!(decode_error(&b), ProtocolError::MalformedMessage);
}

#[test]
fn error_of_wrong_shape_is_malformed() {
    let message = |payload: Bencode| {
        dict_of(vec![("t", bytes(b"aa")), ("y", bytes(b"e")), ("e", payload)])
    };
    let ok = message(Bencode::List(vec![Bencode::Number(1), bytes(b"m")]));
    assert!(Package::from_bencode(&ok).is_ok());
    assert_eq!(decode_error(&message(Bencode::List(vec![]))), ProtocolError::MalformedMessage);
    assert_eq!(
        decode_error(&message(Bencode::List(vec![Bencode::Number(1)]))),
        ProtocolError::MalformedMessage
    );
    assert_eq!(
        decode_error(&message(Bencode::List(vec![
            Bencode::Number(1),
            bytes(b"m"),
            bytes(b"more")
        ]))),
        ProtocolError::MalformedMessage
    );
    assert_eq!(
        decode_error(&message(Bencode::List(vec![bytes(b"m"), Bencode::Number(1)]))),
        ProtocolError::MalformedMessage
    );
    assert_eq!(
        decode_error(&message(Bencode::List(vec![Bencode::Number(1), Bencode::Number(2)]))),
        ProtocolError::MalformedMessage
    );
    assert_eq!(
        decode_error(&message(Bencode::List(vec![Bencode::Number(1), bytes(&[0xC3, 0x28])]))),
        ProtocolError::MalformedMessage
    );
    assert_eq!(
        decode_error(&message(dict_of(vec![("id", packed_sender())]))),
        ProtocolError::MalformedMessage
    );
    assert_eq!(decode_error(&message(bytes(b"m"))), ProtocolError::MalformedMessage);
}

#[test]
fn method_call_of_the_public_network_is_malformed() {
    let wire = b"d1:ad2:id20:abcdefghij0123456789e1:q4:ping1:t2:aa1:y1:qe";
    let value = bencode::from_buffer(wire).unwrap();
    assert_eq!(decode_error(&value), ProtocolError::MalformedMessage);
}

#[test]
fn decoded_package_equals_the_encoded_one() {
    let packages = [
        query(b"aa", PayloadDict::new()),
        query(&[0, 255], fields(&[("target", b"xyz"), ("a", b""), ("\u{4e2d}", &[1])])),
        response(b"", fields(&[("nodes", &[9; 26]), ("token", b"t")])),
        error(b"aa", 203, "Protocol Error"),
        error(&[], 0, ""),
    ];
    for p in packages {
        let back = Package::from_bencode(&p.to_bencode().unwrap()).unwrap();
        assert_eq!(back, p);
        assert_eq!(back.clone(), p);
    }
}

#[test]
fn decoded_fields_do_not_depend_on_their_order() {
    let a = query(b"aa", fields(&[("x", b"1"), ("y", b"2"), ("z", b"3")]));
    let b = query(b"aa", fields(&[("z", b"3"), ("x", b"1"), ("y", b"2")]));
    assert_eq!(a.to_bencode(), b.to_bencode());
    assert_eq!(Package::from_bencode(&a.to_bencode().unwrap()).unwrap(), b);
}
