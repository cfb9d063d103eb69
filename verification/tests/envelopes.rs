//! Round trips and exact wire bytes of the request envelopes.

use space_lib::common::{
    Method, RequestData, SendBytesData, SendFormData, SendJsonData, SendStringData,
};

fn sample_request() -> RequestData {
    RequestData {
        url: "https://x".to_string(),
        headers: vec!["A".to_string(), "1".to_string()],
        queries: Vec::new(),
        method: Method::GET,
    }
}

#[test]
fn request_encodes_to_the_named_field_map() {
    let bytes = sample_request().encode().expect("representable");
    let mut expected: Vec<u8> = Vec::new();
    expected.push(0x84);
    expected.extend([0xa3, b'u', b'r', b'l']);
    expected.extend([0xa9]);
    expected.extend(b"https://x");
    expected.extend([0xa7]);
    expected.extend(b"headers");
    expected.extend([0x92, 0xa1, b'A', 0xa1, b'1']);
    expected.extend([0xa7]);
    expected.extend(b"queries");
    expected.extend([0x90]);
    expected.extend([0xa6]);
    expected.extend(b"method");
    expected.extend([0xa3, b'G', b'E', b'T']);
    assert_eq!(bytes, expected);
}

#[test]
fn request_round_trip_field_for_field() {
    let bytes = sample_request().encode().expect("representable");
    let back = RequestData::decode(&bytes).expect("own encoding decodes");
    assert_eq!(back.url, "https://x");
    assert_eq!(back.headers, vec!["A".to_string(), "1".to_string()]);
    assert!(back.queries.is_empty());
    assert!(back.method == Method::GET);
}

#[test]
fn every_method_token_round_trips() {
    for method in [
        Method::GET,
        Method::POST,
        Method::DELETE,
        Method::HEAD,
        Method::PATCH,
        Method::PUT,
    ] {
        let data = RequestData {
            url: "u".to_string(),
            headers: Vec::new(),
            queries: Vec::new(),
            method,
        };
        let bytes = data.encode().expect("representable");
        let back = RequestData::decode(&bytes).expect("decodes");
        assert!(back.method == method);
    }
}

#[test]
fn request_decode_rejects_malformed_input() {
    let good = sample_request().encode().expect("representable");
    // Truncated input.
    assert!(RequestData::decode(&good[..good.len() - 1]).is_err());
    // Trailing bytes.
    let mut padded = good.clone();
    padded.push(0);
    assert!(RequestData::decode(&padded).is_err());
    // A wrong field name.
    let mut renamed = good.clone();
    renamed[2] = b'x';
    assert!(RequestData::decode(&renamed).is_err());
    // An unknown method token.
    let mut wrong = good.clone();
    let n = wrong.len();
    wrong[n - 1] = b'X';
    assert!(RequestData::decode(&wrong).is_err());
    // Empty input.
    assert!(RequestData::decode(&[]).is_err());
}

#[test]
fn send_bytes_round_trip() {
    let env = SendBytesData { request_data: sample_request(), data: vec![0, 1, 2, 255] };
    let bytes = env.encode().expect("representable");
    let back = SendBytesData::decode(&bytes).expect("decodes");
    assert_eq!(back.data, vec![0, 1, 2, 255]);
    assert_eq!(back.request_data.url, "https://x");
    assert_eq!(back.request_data.headers, vec!["A".to_string(), "1".to_string()]);
}

#[test]
fn send_string_round_trip() {
    let env = SendStringData {
        request_data: sample_request(),
        data: "hello, wörld".to_string(),
    };
    let bytes = env.encode().expect("representable");
    let back = SendStringData::decode(&bytes).expect("decodes");
    assert_eq!(back.data, "hello, wörld");
    assert!(back.request_data.method == Method::GET);
}

#[test]
fn send_form_round_trip() {
    let env = SendFormData {
        request_data: sample_request(),
        data: vec![
            ("name".to_string(), "deep space".to_string()),
            ("kind".to_string(), "probe".to_string()),
        ],
    };
    let bytes = env.encode().expect("representable");
    let back = SendFormData::decode(&bytes).expect("decodes");
    assert_eq!(back.data.len(), 2);
    assert_eq!(back.data[0], ("name".to_string(), "deep space".to_string()));
    assert_eq!(back.data[1], ("kind".to_string(), "probe".to_string()));
}

#[test]
fn send_json_round_trip() {
    let env = SendJsonData {
        request_data: sample_request(),
        data: "{\"value\":3}".to_string(),
    };
    let bytes = env.encode().expect("representable");
    let back = SendJsonData::decode(&bytes).expect("decodes");
    assert_eq!(back.data, "{\"value\":3}");
}

#[test]
fn envelope_field_names_appear_on_the_wire() {
    let env = SendBytesData { request_data: sample_request(), data: vec![1] };
    let bytes = env.encode().expect("representable");
    assert_eq!(bytes[0], 0x82);
    assert_eq!(bytes[1], 0xa0 + 12);
    assert_eq!(&bytes[2..14], b"request_data");
}

#[test]
fn decode_rejects_non_minimal_wire_forms() {
    let good = sample_request().encode().expect("representable");
    // The same map announced through the wide header form is refused.
    let mut wide = vec![0xde, 0x00, 0x04];
    wide.extend(&good[1..]);
    assert!(RequestData::decode(&wide).is_err());
}
