use bencode::util::ByteString;
use bencode::Bencode;
use bencode::DictMap;
use bencode::ListVec;
use dht::base::Ipv4Address;
use dht::base::Node;
use dht::base::SocketAddress;
use dht::bt::payload_dict::PayloadDict;
use dht::bt::protocol::id_from_netbytes;
use dht::bt::protocol::id_to_netbytes;
use dht::bt::protocol::Package;
use dht::bt::protocol::Payload;
use num::BigUint;
use num::FromPrimitive;

fn new_node_with_port(id: usize, port: u16) -> Node {
    Node {
        id: FromPrimitive::from_usize(id).unwrap(),
        address: SocketAddress::V4(Ipv4Address(127, 0, 0, 1), port),
    }
}

fn new_node(id: usize) -> Node {
    new_node_with_port(id, 8008)
}

fn usize_to_id(id: usize) -> BigUint {
    FromPrimitive::from_usize(id).unwrap()
}

fn new_package(payload: Payload) -> Package {
    Package {
        transaction_id: vec![1, 2, 254, 255],
        sender: Some(new_node(42)),
        payload: payload,
    }
}

fn common<'a>(b: &'a Bencode, typ: &str) -> &'a DictMap {
    match *b {
        Bencode::Dict(ref d) => {
            let t_val = &d[&ByteString::from_str("t")];
            match *t_val {
                Bencode::ByteString(ref v) => {
                    assert_eq!(vec![1, 2, 254, 255], *v);
                }
                _ => panic!("unexpected {}", t_val),
            };

            let y_val = &d[&ByteString::from_str("y")];
            match *y_val {
                Bencode::ByteString(ref v) => {
                    assert_eq!(typ.as_bytes(), v.as_slice());
                }
                _ => panic!("unexpected {}", y_val),
            };

            d
        }
        _ => panic!("unexpected {}", b),
    }
}

fn dict<'a>(b: &'a Bencode, typ: &str) -> &'a DictMap {
    let d = common(b, typ);

    let typ_val = &d[&ByteString::from_str(typ)];
    match *typ_val {
        Bencode::Dict(ref m) => m,
        _ => panic!("unexpected {}", typ_val),
    }
}

fn list<'a>(b: &'a Bencode, typ: &str) -> &'a ListVec {
    let d = common(b, typ);

    let typ_val = &d[&ByteString::from_str(typ)];
    match *typ_val {
        Bencode::List(ref l) => l,
        _ => panic!("unexpected {}", typ_val),
    }
}

#[test]
fn test_error_to_bencode() {
    let p = new_package(Payload::Error(10, "error".to_string()));
    let enc = p.to_bencode().unwrap();
    let l = list(&enc, "e");
    assert_eq!(
        vec![
            Bencode::Number(10),
            Bencode::ByteString("error".to_string().into_bytes())
        ],
        *l
    );
}

#[test]
fn test_query_to_bencode() {
    let payload = PayloadDict::new();
    let p = new_package(Payload::Query(payload));
    let enc = p.to_bencode().unwrap();
    dict(&enc, "q");
}

#[test]
fn test_response_to_bencode() {
    let payload = PayloadDict::new();
    let p = new_package(Payload::Response(payload));
    let enc = p.to_bencode().unwrap();
    dict(&enc, "r");
}

#[test]
fn test_id_to_netbytes() {
    let id = usize_to_id(0x0A0B0C0D);
    let b = id_to_netbytes(&id);
    let mut expected = vec![0u8; 16];
    expected.extend_from_slice(&[0x0A, 0x0b, 0x0C, 0x0D]);
    assert_eq!(expected, b);
}

#[test]
fn test_id_from_netbytes() {
    let mut bytes = vec![0u8; 16];
    bytes.extend_from_slice(&[0x0A, 0x0b, 0x0C, 0x0D]);
    let expected = usize_to_id(0x0A0B0C0D);
    let id = id_from_netbytes(&bytes);
    assert_eq!(expected, id);
}

#[test]
fn test_node_to_bencode() {
    let n = new_node(42);
    let enc = n.to_bencode().unwrap();
    let mut expected = vec![0u8; 19];
    expected.extend_from_slice(&[42, 127, 0, 0, 1, 31, 72]);
    assert_eq!(Bencode::ByteString(expected), enc);
}

#[test]
fn test_node_from_bencode() {
    let mut b = vec![0u8; 19];
    b.extend_from_slice(&[42, 127, 0, 0, 1, 0, 80]);
    let n: Node = Node::from_bencode(&Bencode::ByteString(b)).unwrap();
    assert_eq!(n.id, usize_to_id(42));
    assert_eq!(n.address.to_string().as_str(), "127.0.0.1:80");
}

#[test]
fn test_node_from_bencode_none() {
    let n: Option<Node> = Node::from_bencode(&Bencode::Number(42));
    assert!(n.is_none());
}

#[test]
fn test_node_to_from_bencode() {
    let n = new_node(42);
    let enc = n.to_bencode().unwrap();
    let n2: Node = Node::from_bencode(&enc).unwrap();
    assert_eq!(n.id, n2.id);
    assert_eq!(n.address, n2.address);
}
