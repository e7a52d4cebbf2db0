use crawler::url::WebUrl;
use crawler::wire::{
    decode_request, decode_response, encode_request, encode_response, url_of_bytes, ProtocolError, Request, Response,
};

fn url(s: &str) -> WebUrl {
    WebUrl::parse(s).expect("test address parses")
}

#[test]
fn fetch_round_trip() {
    let u = url("https://a.test/x?y=1");
    let bytes = encode_request(&Request::Fetch(u.clone())).unwrap();
    assert_eq!(bytes, b"F00000020https://a.test/x?y=1".to_vec());
    let (m, n) = decode_request(&bytes).unwrap();
    assert_eq!(m, Request::Fetch(u));
    assert_eq!(n, bytes.len());
}

#[test]
fn empty_discovery_round_trip() {
    let bytes = encode_response(&Response::Discovered(Vec::new())).unwrap();
    assert_eq!(bytes, b"P00000000".to_vec());
    let (m, n) = decode_response(&bytes).unwrap();
    assert_eq!(m, Response::Discovered(Vec::new()));
    assert_eq!(n, 9);
}

#[test]
fn discovery_round_trip() {
    let us = vec![url("https://a.test/1"), url("https://b.test/2")];
    let bytes = encode_response(&Response::Discovered(us.clone())).unwrap();
    assert_eq!(bytes, b"P00000034https://a.test/1\nhttps://b.test/2\n".to_vec());
    let (m, _) = decode_response(&bytes).unwrap();
    assert_eq!(m, Response::Discovered(us));
}

#[test]
fn code_only_messages() {
    assert_eq!(encode_request(&Request::Idle).unwrap(), b"D".to_vec());
    assert_eq!(encode_request(&Request::Exit).unwrap(), b"E".to_vec());
    assert_eq!(encode_response(&Response::Started).unwrap(), b"S".to_vec());
    assert_eq!(encode_response(&Response::Done).unwrap(), b"I".to_vec());
    assert_eq!(encode_response(&Response::Failed).unwrap(), b"I".to_vec());
    assert_eq!(decode_request(&b"E".to_vec()).unwrap(), (Request::Exit, 1));
    assert_eq!(decode_request(&b"D".to_vec()).unwrap(), (Request::Idle, 1));
    assert_eq!(decode_response(&b"S".to_vec()).unwrap(), (Response::Started, 1));
    assert_eq!(decode_response(&b"I".to_vec()).unwrap(), (Response::Done, 1));
}

#[test]
fn decode_takes_one_message() {
    let mut bytes = encode_request(&Request::Fetch(url("http://u.test/"))).unwrap();
    bytes.extend_from_slice(b"E");
    assert_eq!(decode_request(&bytes).unwrap(), (Request::Fetch(url("http://u.test/")), 23));
}

#[test]
fn protocol_errors() {
    assert_eq!(decode_request(&Vec::new()), Err(ProtocolError::Truncated));
    assert_eq!(decode_request(&b"X".to_vec()), Err(ProtocolError::UnknownCode(b'X')));
    assert_eq!(decode_response(&b"F".to_vec()), Err(ProtocolError::UnknownCode(b'F')));
    assert_eq!(decode_request(&b"F0000".to_vec()), Err(ProtocolError::Truncated));
    assert_eq!(decode_request(&b"F0000000a".to_vec()), Err(ProtocolError::BadLength));
    assert_eq!(decode_request(&b"F00000005abc".to_vec()), Err(ProtocolError::Truncated));
    assert_eq!(decode_response(&b"P+0000001\n".to_vec()), Err(ProtocolError::BadLength));
}

#[test]
fn fetch_payload_must_be_an_address() {
    assert_eq!(decode_request(&b"F00000001\xFF".to_vec()), Err(ProtocolError::BadPayload));
    assert_eq!(decode_request(&b"F00000005hello".to_vec()), Err(ProtocolError::BadPayload));
}

#[test]
fn discovery_payload_must_be_addresses() {
    assert_eq!(decode_response(&b"P00000002x\n".to_vec()), Err(ProtocolError::BadPayload));
    assert_eq!(decode_response(&b"P00000003\xFF\xFE\n".to_vec()), Err(ProtocolError::BadPayload));
}

#[test]
fn last_address_needs_its_newline() {
    let bytes = b"P00000032https://a.test/1\nhttps://b.test/".to_vec();
    assert_eq!(decode_response(&bytes), Err(ProtocolError::BadPayload));
}

#[test]
fn address_from_bytes() {
    assert_eq!(url_of_bytes(b"https://a.test/p".to_vec()), Some(url("https://a.test/p")));
    assert_eq!(url_of_bytes(vec![0xC3, 0x28]), None);
    assert_eq!(url_of_bytes(b"p.html".to_vec()), None);
}

#[test]
fn payload_too_long() {
    let big = WebUrl {
        href: format!("https://a.test/{}", "a".repeat(100_000_000)),
        scheme: "https".to_string(),
        host: Some("a.test".to_string()),
        path: "/".to_string(),
        query: None,
    };
    assert_eq!(encode_request(&Request::Fetch(big)), Err(ProtocolError::PayloadTooLong));
}
