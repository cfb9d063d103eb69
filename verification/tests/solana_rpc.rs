//! The exact call documents the node client posts.

use space_lib::common::{Method, SendJsonData};
use space_lib::http::HostSlot;
use space_lib::solana::Solana;

fn body_of(prepared: space_lib::http::PreparedCall) -> String {
    assert!(prepared.slot == HostSlot::SendJson);
    let envelope = SendJsonData::decode(&prepared.envelope).expect("envelope decodes");
    assert!(envelope.request_data.method == Method::POST);
    assert_eq!(envelope.request_data.url, "https://node.example");
    assert!(envelope.request_data.headers.is_empty());
    assert!(envelope.request_data.queries.is_empty());
    envelope.data
}

#[test]
fn get_balance_document() {
    let client = Solana::new("https://node.example");
    let prepared = client.get_balance("83astBRguLMdt2h5U1Tpdq5tjFoJ6noeGwaY3mDLVcri").unwrap();
    assert_eq!(
        body_of(prepared),
        "{\"jsonrpc\":\"2.0\",\"id\":1,\"method\":\"getBalance\",\"params\":[\"83astBRguLMdt2h5U1Tpdq5tjFoJ6noeGwaY3mDLVcri\"]}"
    );
}

#[test]
fn no_parameter_document() {
    let client = Solana::new("https://node.example");
    let prepared = client.get_health().unwrap();
    assert_eq!(body_of(prepared), "{\"jsonrpc\":\"2.0\",\"id\":1,\"method\":\"getHealth\"}");
}

#[test]
fn numeric_parameter_document() {
    let client = Solana::new("https://node.example");
    let prepared = client.get_block(430).unwrap();
    assert_eq!(
        body_of(prepared),
        "{\"jsonrpc\":\"2.0\",\"id\":1,\"method\":\"getBlock\",\"params\":[430]}"
    );
}

#[test]
fn two_numeric_parameters_document() {
    let client = Solana::new("https://node.example");
    let prepared = client.get_blocks_with_limit(5, 3).unwrap();
    assert_eq!(
        body_of(prepared),
        "{\"jsonrpc\":\"2.0\",\"id\":1,\"method\":\"getBlocksWithLimit\",\"params\":[5,3]}"
    );
}

#[test]
fn optional_end_slot_renders_as_null_or_number() {
    let client = Solana::new("https://node.example");
    let open_ended = client.get_blocks(5, None).unwrap();
    assert_eq!(
        body_of(open_ended),
        "{\"jsonrpc\":\"2.0\",\"id\":1,\"method\":\"getBlocks\",\"params\":[5,null]}"
    );
    let bounded = client.get_blocks(5, Some(10)).unwrap();
    assert_eq!(
        body_of(bounded),
        "{\"jsonrpc\":\"2.0\",\"id\":1,\"method\":\"getBlocks\",\"params\":[5,10]}"
    );
}

#[test]
fn account_list_document() {
    let client = Solana::new("https://node.example");
    let prepared = client
        .get_multiple_accounts(&vec!["one".to_string(), "two".to_string()])
        .unwrap();
    assert_eq!(
        body_of(prepared),
        "{\"jsonrpc\":\"2.0\",\"id\":1,\"method\":\"getMultipleAccounts\",\"params\":[[\"one\",\"two\"]]}"
    );
    let empty = client.get_signature_statuses(&Vec::new()).unwrap();
    assert_eq!(
        body_of(empty),
        "{\"jsonrpc\":\"2.0\",\"id\":1,\"method\":\"getSignatureStatuses\",\"params\":[[]]}"
    );
}

#[test]
fn airdrop_document() {
    let client = Solana::new("https://node.example");
    let prepared = client.request_airdrop("acct", 1_000_000_000).unwrap();
    assert_eq!(
        body_of(prepared),
        "{\"jsonrpc\":\"2.0\",\"id\":1,\"method\":\"requestAirdrop\",\"params\":[\"acct\",1000000000]}"
    );
}

#[test]
fn token_account_filter_documents() {
    let client = Solana::new("https://node.example");
    let by_mint = client.get_token_accounts_by_owner_mint("owner", "tok").unwrap();
    assert_eq!(
        body_of(by_mint),
        "{\"jsonrpc\":\"2.0\",\"id\":1,\"method\":\"getTokenAccountsByOwner\",\"params\":[\"owner\",{\"mint\":\"tok\"}]}"
    );
    let by_program = client.get_token_accounts_by_delegate_program("del", "prog").unwrap();
    assert_eq!(
        body_of(by_program),
        "{\"jsonrpc\":\"2.0\",\"id\":1,\"method\":\"getTokenAccountsByDelegate\",\"params\":[\"del\",{\"programId\":\"prog\"}]}"
    );
}

#[test]
fn string_parameters_are_escaped() {
    let client = Solana::new("https://node.example");
    let prepared = client.send_transaction("a\"b\\c\nd").unwrap();
    assert_eq!(
        body_of(prepared),
        "{\"jsonrpc\":\"2.0\",\"id\":1,\"method\":\"sendTransaction\",\"params\":[\"a\\\"b\\\\c\\nd\"]}"
    );
}

#[test]
fn control_characters_get_unicode_escapes() {
    let client = Solana::new("https://node.example");
    let prepared = client.send_transaction("x\u{1}\u{1f}y").unwrap();
    assert_eq!(
        body_of(prepared),
        "{\"jsonrpc\":\"2.0\",\"id\":1,\"method\":\"sendTransaction\",\"params\":[\"x\\u0001\\u001fy\"]}"
    );
}
