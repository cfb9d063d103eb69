//! The two-phase host call: preparing an envelope, simulating the host, and
//! finishing from the status word.

use space_lib::arena::Arena;
use space_lib::common::{extract, Method, RequestData, SendBytesData, SendStringData};
use space_lib::error::HostError;
use space_lib::http::{begin_call, finish_call, HostSlot, Request};

#[test]
fn call_envelope_matches_the_descriptor_encoding() {
    let prepared = Request::get("https://www.spaceoperator.com")
        .set("A", "1")
        .query("q", "2")
        .call()
        .expect("representable");
    assert!(prepared.slot == HostSlot::CallRequest);
    let expected = RequestData {
        url: "https://www.spaceoperator.com".to_string(),
        headers: vec!["A".to_string(), "1".to_string()],
        queries: vec!["q".to_string(), "2".to_string()],
        method: Method::GET,
    }
    .encode()
    .expect("representable");
    assert_eq!(prepared.envelope, expected);
}

#[test]
fn builders_pick_their_methods() {
    for (prepared, token) in [
        (Request::get("u").call().unwrap(), Method::GET),
        (Request::post("u").call().unwrap(), Method::POST),
        (Request::delete("u").call().unwrap(), Method::DELETE),
        (Request::head("u").call().unwrap(), Method::HEAD),
        (Request::patch("u").call().unwrap(), Method::PATCH),
        (Request::put("u").call().unwrap(), Method::PUT),
    ] {
        let back = RequestData::decode(&prepared.envelope).expect("decodes");
        assert!(back.method == token);
    }
}

#[test]
fn send_bytes_envelope_carries_the_body() {
    let prepared = Request::post("https://x")
        .send_bytes(vec![1, 2, 3])
        .expect("representable");
    assert!(prepared.slot == HostSlot::SendBytes);
    let back = SendBytesData::decode(&prepared.envelope).expect("decodes");
    assert_eq!(back.data, vec![1, 2, 3]);
    assert_eq!(back.request_data.url, "https://x");
}

#[test]
fn send_string_envelope_carries_the_body() {
    let prepared = Request::put("https://x")
        .send_string("payload".to_string())
        .expect("representable");
    assert!(prepared.slot == HostSlot::SendString);
    let back = SendStringData::decode(&prepared.envelope).expect("decodes");
    assert_eq!(back.data, "payload");
    assert!(back.request_data.method == Method::PUT);
}

/// Plays the host for one successful call: reads the envelope the guest
/// placed, writes a response span and its triple, and returns the status
/// word pointing at the triple.
fn simulated_host(arena: &mut Arena, addr: usize, len: usize, response: &[u8]) -> u64 {
    let envelope = arena.read_bytes(addr, len);
    // The host must see a well-formed envelope.
    assert!(RequestData::decode(&envelope).is_ok());
    let ptr = arena.append_bytes(response);
    let cap = response.len() as u32;
    let off = arena.append_triple(ptr as u32, cap, cap);
    off as u64
}

#[test]
fn full_call_round_trip_through_a_simulated_host() {
    let mut arena = Arena::new();
    let prepared = Request::get("https://x").call().expect("representable");
    let (addr, len) = begin_call(&mut arena, &prepared);
    let status = simulated_host(&mut arena, addr, len, b"pong");
    let response = finish_call(&arena, status).expect("successful call");
    assert_eq!(response.into_string().expect("utf-8 body"), "pong");
}

#[test]
fn failed_calls_surface_their_kind_without_touching_memory() {
    let arena = Arena::new();
    match finish_call(&arena, 6 << 32) {
        Err(e) => assert_eq!(e, HostError::SendHttpRequest),
        Ok(_) => panic!("failure status accepted"),
    }
    match finish_call(&arena, (3 << 32) | 16) {
        Err(e) => assert_eq!(e, HostError::CallHttpRequest),
        Ok(_) => panic!("failure status accepted"),
    }
}

#[test]
fn success_with_a_corrupt_offset_is_a_memory_error() {
    let arena = Arena::new();
    // Category 0 but no triple at the reported offset.
    match finish_call(&arena, 500) {
        Err(e) => assert_eq!(e, HostError::MemoryAccess),
        Ok(_) => panic!("corrupt offset accepted"),
    }
}

#[test]
fn response_body_must_be_utf8_for_text() {
    let mut arena = Arena::new();
    let ptr = arena.append_bytes(&[0xff, 0xfe]);
    let off = arena.append_triple(ptr as u32, 2, 2);
    let response = finish_call(&arena, off as u64).expect("sound triple");
    assert!(response.into_string().is_err());
}

#[test]
fn response_into_vec_hands_the_bytes_back() {
    let mut arena = Arena::new();
    let ptr = arena.append_bytes(&[1, 2, 3]);
    let off = arena.append_triple(ptr as u32, 3, 3);
    let response = finish_call(&arena, off as u64).expect("sound triple");
    assert_eq!(response.into_vec(), vec![1, 2, 3]);
}

#[test]
fn extract_and_finish_agree_on_success() {
    let mut arena = Arena::new();
    let ptr = arena.append_bytes(b"ok");
    let off = arena.append_triple(ptr as u32, 2, 2);
    assert_eq!(extract(off as u64), Ok(off as u32));
    assert!(finish_call(&arena, off as u64).is_ok());
}
