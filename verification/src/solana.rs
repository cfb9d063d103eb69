//! JSON-RPC convenience client for a Solana node: every method posts a
//! fixed-shape document to the node's URL through the document-payload
//! adapter, and its contract pins the exact document text.

use vstd::prelude::*;
use vstd::string::StringExecFns;

use crate::common::{enc_send_json, send_json_encodable, Method, RequestDataV, SendJsonDataV};
use crate::error::HostError;
use crate::http::{HostSlot, PreparedCall, Request};
use crate::json::{dec_digits, jstr, push_decimal, push_json_str};

verus! {

/// The opening of every call document, up to the method name.
pub open spec fn rpc_open(method: Seq<char>) -> Seq<char> {
    "{\"jsonrpc\":\"2.0\",\"id\":1,\"method\":\""@ + method
}

/// A call document without parameters.
pub open spec fn rpc_body(method: Seq<char>) -> Seq<char> {
    rpc_open(method) + "\"}"@
}

/// A call document with rendered parameters.
pub open spec fn rpc_body_params(method: Seq<char>, params: Seq<char>) -> Seq<char> {
    rpc_open(method) + "\",\"params\":["@ + params + "]}"@
}

/// An optional number renders as its digits or as `null`.
pub open spec fn opt_num(v: Option<u64>) -> Seq<char> {
    match v {
        Option::Some(n) => dec_digits(n as nat),
        Option::None => "null"@,
    }
}

/// A one-field JSON object whose value is a string.
pub open spec fn jobj1(key: Seq<char>, v: Seq<char>) -> Seq<char> {
    "{\""@ + key + "\":"@ + jstr(v) + "}"@
}

/// A JSON array of strings: the strings after the first are each preceded
/// by a comma.
pub open spec fn jstr_list_tail(ss: Seq<Seq<char>>) -> Seq<char>
    decreases ss.len(),
{
    if ss.len() == 0 {
        Seq::empty()
    } else {
        ","@ + jstr(ss[0]) + jstr_list_tail(ss.drop_first())
    }
}

/// The comma-separated JSON strings of a list.
pub open spec fn jstr_list(ss: Seq<Seq<char>>) -> Seq<char> {
    if ss.len() == 0 {
        Seq::empty()
    } else {
        jstr(ss[0]) + jstr_list_tail(ss.drop_first())
    }
}

/// A JSON array of strings.
pub open spec fn jarr(ss: Seq<Seq<char>>) -> Seq<char> {
    "["@ + jstr_list(ss) + "]"@
}

/// The envelope a call posts: the document as the body of a POST to the
/// node's URL, with no headers and no query parameters.
pub open spec fn rpc_envelope(url: Seq<char>, body: Seq<char>) -> SendJsonDataV {
    SendJsonDataV {
        request_data: RequestDataV {
            url,
            headers: Seq::empty(),
            queries: Seq::empty(),
            method: Method::POST,
        },
        data: body,
    }
}

/// What posting a call document returns: a prepared document-payload call
/// holding exactly the envelope's encoding, or the serialize-data failure
/// exactly when the envelope is not representable.
pub open spec fn rpc_post_ensures(
    url: Seq<char>,
    body: Seq<char>,
    r: Result<PreparedCall, HostError>,
) -> bool {
    &&& r is Ok <==> send_json_encodable(rpc_envelope(url, body))
    &&& r is Ok ==> r->Ok_0.slot == HostSlot::SendJson && r->Ok_0.envelope@ == enc_send_json(
        rpc_envelope(url, body),
    )
    &&& r is Err ==> r == Result::<PreparedCall, HostError>::Err(HostError::SerializeData)
}

/// Appending one more list element appends a comma and its JSON string.
proof fn lemma_jstr_list_tail_snoc(ss: Seq<Seq<char>>, i: int)
    requires
        0 <= i < ss.len(),
    ensures
        jstr_list_tail(ss.take(i + 1)) == jstr_list_tail(ss.take(i)) + (","@ + jstr(ss[i])),
    decreases i,
{
    if i == 0 {
        assert(ss.take(1).drop_first() =~= Seq::<Seq<char>>::empty());
        assert(jstr_list_tail(Seq::<Seq<char>>::empty()) == Seq::<char>::empty());
        assert(ss.take(1)[0] == ss[0]);
        assert(jstr_list_tail(ss.take(1)) == ","@ + jstr(ss[0]) + Seq::<char>::empty());
        assert(ss.take(0) =~= Seq::<Seq<char>>::empty());
        assert(jstr_list_tail(ss.take(1)) =~= jstr_list_tail(ss.take(0)) + (","@ + jstr(
            ss[0],
        )));
    } else {
        let t = ss.drop_first();
        lemma_jstr_list_tail_snoc(t, i - 1);
        assert(ss.take(i + 1).drop_first() =~= t.take(i));
        assert(ss.take(i).drop_first() =~= t.take(i - 1));
        assert(ss.take(i + 1)[0] == ss[0] && ss.take(i)[0] == ss[0]);
        assert(jstr_list_tail(ss.take(i + 1)) == ","@ + jstr(ss[0]) + jstr_list_tail(t.take(i)));
        assert(jstr_list_tail(ss.take(i)) == ","@ + jstr(ss[0]) + jstr_list_tail(t.take(i - 1)));
        assert((","@ + jstr(ss[0]) + jstr_list_tail(t.take(i - 1))) + (","@ + jstr(t[i - 1]))
            =~= ","@ + jstr(ss[0]) + (jstr_list_tail(t.take(i - 1)) + (","@ + jstr(ss[i]))));
    }
}

/// Appends the JSON array holding the strings of `v`.
fn push_jarr(out: &mut String, v: &Vec<String>)
    ensures
        final(out)@ == old(out)@ + jarr(v.deep_view()),
{
    let ghost dv = v.deep_view();
    out.append("[");
    if v.len() > 0 {
        assert(dv[0] == v@[0]@);
        push_json_str(out, v[0].as_str());
        let ghost base = out@;
        let ghost tail = dv.drop_first();
        assert(out@ == base + jstr_list_tail(tail.take(0)));
        for i in 1..v.len()
            invariant
                dv == v.deep_view(),
                dv.len() == v.len(),
                tail == dv.drop_first(),
                out@ == base + jstr_list_tail(tail.take(i - 1)),
        {
            assert(dv[i as int] == v@[i as int]@ && tail[i - 1] == dv[i as int]);
            out.append(",");
            push_json_str(out, v[i].as_str());
            proof {
                lemma_jstr_list_tail_snoc(tail, i - 1);
                assert(out@ =~= base + jstr_list_tail(tail.take(i as int)));
            }
        }
        proof {
            assert(tail.take(tail.len() as int) =~= tail);
        }
    }
    out.append("]");
    proof {
        assert(out@ =~= old(out)@ + jarr(dv));
    }
}

/// Starts a call document, through the method name and the opening of its
/// parameter list.
fn body_open_params(method: &str) -> (r: String)
    ensures
        r@ == rpc_open(method@) + "\",\"params\":["@,
{
    let mut out = String::from_str("{\"jsonrpc\":\"2.0\",\"id\":1,\"method\":\"");
    out.append(method);
    out.append("\",\"params\":[");
    proof {
        assert(out@ =~= rpc_open(method@) + "\",\"params\":["@);
    }
    out
}

/// A call document without parameters.
fn body0(method: &str) -> (r: String)
    ensures
        r@ == rpc_body(method@),
{
    let mut out = String::from_str("{\"jsonrpc\":\"2.0\",\"id\":1,\"method\":\"");
    out.append(method);
    out.append("\"}");
    proof {
        assert(out@ =~= rpc_body(method@));
    }
    out
}

/// A call document with one string parameter.
fn body_str1(method: &str, a: &str) -> (r: String)
    ensures
        r@ == rpc_body_params(method@, jstr(a@)),
{
    let mut out = body_open_params(method);
    push_json_str(&mut out, a);
    out.append("]}");
    proof {
        assert(out@ =~= rpc_body_params(method@, jstr(a@)));
    }
    out
}

/// A call document with one numeric parameter.
fn body_u641(method: &str, a: u64) -> (r: String)
    ensures
        r@ == rpc_body_params(method@, dec_digits(a as nat)),
{
    let mut out = body_open_params(method);
    push_decimal(&mut out, a);
    out.append("]}");
    proof {
        assert(out@ =~= rpc_body_params(method@, dec_digits(a as nat)));
    }
    out
}

/// A call document with two numeric parameters.
fn body_u642(method: &str, a: u64, b: u64) -> (r: String)
    ensures
        r@ == rpc_body_params(method@, dec_digits(a as nat) + ","@ + dec_digits(b as nat)),
{
    let mut out = body_open_params(method);
    push_decimal(&mut out, a);
    out.append(",");
    push_decimal(&mut out, b);
    out.append("]}");
    proof {
        assert(out@ =~= rpc_body_params(
            method@,
            dec_digits(a as nat) + ","@ + dec_digits(b as nat),
        ));
    }
    out
}

/// A call document with a numeric parameter and an optional numeric one.
fn body_u64_opt(method: &str, a: u64, b: Option<u64>) -> (r: String)
    ensures
        r@ == rpc_body_params(method@, dec_digits(a as nat) + ","@ + opt_num(b)),
{
    let mut out = body_open_params(method);
    push_decimal(&mut out, a);
    out.append(",");
    match b {
        Some(n) => push_decimal(&mut out, n),
        None => out.append("null"),
    }
    out.append("]}");
    proof {
        assert(out@ =~= rpc_body_params(method@, dec_digits(a as nat) + ","@ + opt_num(b)));
    }
    out
}

/// A call document with a string parameter and a numeric one.
fn body_str_u64(method: &str, a: &str, b: u64) -> (r: String)
    ensures
        r@ == rpc_body_params(method@, jstr(a@) + ","@ + dec_digits(b as nat)),
{
    let mut out = body_open_params(method);
    push_json_str(&mut out, a);
    out.append(",");
    push_decimal(&mut out, b);
    out.append("]}");
    proof {
        assert(out@ =~= rpc_body_params(method@, jstr(a@) + ","@ + dec_digits(b as nat)));
    }
    out
}

/// A call document whose single parameter is an array of strings.
fn body_str_arr(method: &str, v: &Vec<String>) -> (r: String)
    ensures
        r@ == rpc_body_params(method@, jarr(v.deep_view())),
{
    let mut out = body_open_params(method);
    push_jarr(&mut out, v);
    out.append("]}");
    proof {
        assert(out@ =~= rpc_body_params(method@, jarr(v.deep_view())));
    }
    out
}

/// A call document with a string parameter and a one-field object.
fn body_str_obj(method: &str, a: &str, key: &str, v: &str) -> (r: String)
    ensures
        r@ == rpc_body_params(method@, jstr(a@) + ","@ + jobj1(key@, v@)),
{
    let mut out = body_open_params(method);
    push_json_str(&mut out, a);
    out.append(",");
    out.append("{\"");
    out.append(key);
    out.append("\":");
    push_json_str(&mut out, v);
    out.append("}");
    out.append("]}");
    proof {
        assert(out@ =~= rpc_body_params(method@, jstr(a@) + ","@ + jobj1(key@, v@)));
    }
    out
}

/// A JSON-RPC client for a node at a fixed URL.
pub struct Solana {
    url: String,
}

impl View for Solana {
    type V = Seq<char>;

    closed spec fn view(&self) -> Seq<char> {
        self.url@
    }
}

impl Solana {
    /// A client for the node at `url`.
    pub fn new(url: &str) -> (r: Self)
        ensures
            r@ == url@,
    {
        Solana { url: url.to_owned() }
    }

    /// Posts a call document to the node.
    fn rpc(&self, body: String) -> (r: Result<PreparedCall, HostError>)
        ensures
            rpc_post_ensures(self@, body@, r),
    {
        let ghost b = body@;
        let r = Request::post(self.url.as_str()).send_json(body);
        proof {
            let env = rpc_envelope(self@, b);
            if r is Ok {
                assert(r->Ok_0.envelope@ == enc_send_json(env));
            }
        }
        r
    }

    /// Requests the `getBlockHeight` call.
    pub fn get_block_height(&self) -> (r: Result<PreparedCall, HostError>)
        ensures
            rpc_post_ensures(self@, rpc_body("getBlockHeight"@), r),
    {
        self.rpc(body0("getBlockHeight"))
    }

    /// Requests the `getBlockProduction` call.
    pub fn get_block_production(&self) -> (r: Result<PreparedCall, HostError>)
        ensures
            rpc_post_ensures(self@, rpc_body("getBlockProduction"@), r),
    {
        self.rpc(body0("getBlockProduction"))
    }

    /// Requests the `getClusterNodes` call.
    pub fn get_cluster_nodes(&self) -> (r: Result<PreparedCall, HostError>)
        ensures
            rpc_post_ensures(self@, rpc_body("getClusterNodes"@), r),
    {
        self.rpc(body0("getClusterNodes"))
    }

    /// Requests the `getEpochInfo` call.
    pub fn get_epoch_info(&self) -> (r: Result<PreparedCall, HostError>)
        ensures
            rpc_post_ensures(self@, rpc_body("getEpochInfo"@), r),
    {
        self.rpc(body0("getEpochInfo"))
    }

    /// Requests the `getEpochSchedule` call.
    pub fn get_epoch_schedule(&self) -> (r: Result<PreparedCall, HostError>)
        ensures
            rpc_post_ensures(self@, rpc_body("getEpochSchedule"@), r),
    {
        self.rpc(body0("getEpochSchedule"))
    }

    /// Requests the `getFirstAvailableBlock` call.
    pub fn get_first_available_block(&self) -> (r: Result<PreparedCall, HostError>)
        ensures
            rpc_post_ensures(self@, rpc_body("getFirstAvailableBlock"@), r),
    {
        self.rpc(body0("getFirstAvailableBlock"))
    }

    /// Requests the `getGenesisHash` call.
    pub fn get_genesis_hash(&self) -> (r: Result<PreparedCall, HostError>)
        ensures
            rpc_post_ensures(self@, rpc_body("getGenesisHash"@), r),
    {
        self.rpc(body0("getGenesisHash"))
    }

    /// Requests the `getHealth` call.
    pub fn get_health(&self) -> (r: Result<PreparedCall, HostError>)
        ensures
            rpc_post_ensures(self@, rpc_body("getHealth"@), r),
    {
        self.rpc(body0("getHealth"))
    }

    /// Requests the `getHighestSnapshotSlot` call.
    pub fn get_highest_snapshot_slot(&self) -> (r: Result<PreparedCall, HostError>)
        ensures
            rpc_post_ensures(self@, rpc_body("getHighestSnapshotSlot"@), r),
    {
        self.rpc(body0("getHighestSnapshotSlot"))
    }

    /// Requests the `getIdentity` call.
    pub fn get_identity(&self) -> (r: Result<PreparedCall, HostError>)
        ensures
            rpc_post_ensures(self@, rpc_body("getIdentity"@), r),
    {
        self.rpc(body0("getIdentity"))
    }

    /// Requests the `getInflationGovernor` call.
    pub fn get_inflation_governor(&self) -> (r: Result<PreparedCall, HostError>)
        ensures
            rpc_post_ensures(self@, rpc_body("getInflationGovernor"@), r),
    {
        self.rpc(body0("getInflationGovernor"))
    }

    /// Requests the `getInflationRate` call.
    pub fn get_inflation_rate(&self) -> (r: Result<PreparedCall, HostError>)
        ensures
            rpc_post_ensures(self@, rpc_body("getInflationRate"@), r),
    {
        self.rpc(body0("getInflationRate"))
    }

    /// Requests the `getLargestAccounts` call.
    pub fn get_largest_accounts(&self) -> (r: Result<PreparedCall, HostError>)
        ensures
            rpc_post_ensures(self@, rpc_body("getLargestAccounts"@), r),
    {
        self.rpc(body0("getLargestAccounts"))
    }

    /// Requests the `getLatestBlockhash` call.
    pub fn get_latest_blockhash(&self) -> (r: Result<PreparedCall, HostError>)
        ensures
            rpc_post_ensures(self@, rpc_body("getLatestBlockhash"@), r),
    {
        self.rpc(body0("getLatestBlockhash"))
    }

    /// Requests the `getLeaderSchedule` call.
    pub fn get_leader_schedule(&self) -> (r: Result<PreparedCall, HostError>)
        ensures
            rpc_post_ensures(self@, rpc_body("getLeaderSchedule"@), r),
    {
        self.rpc(body0("getLeaderSchedule"))
    }

    /// Requests the `getMaxRetransmitSlot` call.
    pub fn get_max_retransmit_slot(&self) -> (r: Result<PreparedCall, HostError>)
        ensures
            rpc_post_ensures(self@, rpc_body("getMaxRetransmitSlot"@), r),
    {
        self.rpc(body0("getMaxRetransmitSlot"))
    }

    /// Requests the `getMaxShredInsertSlot` call.
    pub fn get_max_shred_insert_slot(&self) -> (r: Result<PreparedCall, HostError>)
        ensures
            rpc_post_ensures(self@, rpc_body("getMaxShredInsertSlot"@), r),
    {
        self.rpc(body0("getMaxShredInsertSlot"))
    }

    /// Requests the `getMinimumBalanceForRentExemption` call.
    pub fn get_minimum_balance_for_rent_exemption(&self) -> (r: Result<PreparedCall, HostError>)
        ensures
            rpc_post_ensures(self@, rpc_body("getMinimumBalanceForRentExemption"@), r),
    {
        self.rpc(body0("getMinimumBalanceForRentExemption"))
    }

    /// Requests the `getRecentPerformanceSamples` call.
    pub fn get_recent_performance_samples(&self) -> (r: Result<PreparedCall, HostError>)
        ensures
            rpc_post_ensures(self@, rpc_body("getRecentPerformanceSamples"@), r),
    {
        self.rpc(body0("getRecentPerformanceSamples"))
    }

    /// Requests the `getSlot` call.
    pub fn get_slot(&self) -> (r: Result<PreparedCall, HostError>)
        ensures
            rpc_post_ensures(self@, rpc_body("getSlot"@), r),
    {
        self.rpc(body0("getSlot"))
    }

    /// Requests the `getSlotLeader` call.
    pub fn get_slot_leader(&self) -> (r: Result<PreparedCall, HostError>)
        ensures
            rpc_post_ensures(self@, rpc_body("getSlotLeader"@), r),
    {
        self.rpc(body0("getSlotLeader"))
    }

    /// Requests the `getStakeMinimumDelegation` call.
    pub fn get_stake_minimum_delegation(&self) -> (r: Result<PreparedCall, HostError>)
        ensures
            rpc_post_ensures(self@, rpc_body("getStakeMinimumDelegation"@), r),
    {
        self.rpc(body0("getStakeMinimumDelegation"))
    }

    /// Requests the `getSupply` call.
    pub fn get_supply(&self) -> (r: Result<PreparedCall, HostError>)
        ensures
            rpc_post_ensures(self@, rpc_body("getSupply"@), r),
    {
        self.rpc(body0("getSupply"))
    }

    /// Requests the `getTransactionCount` call.
    pub fn get_transaction_count(&self) -> (r: Result<PreparedCall, HostError>)
        ensures
            rpc_post_ensures(self@, rpc_body("getTransactionCount"@), r),
    {
        self.rpc(body0("getTransactionCount"))
    }

    /// Requests the `getVoteAccounts` call.
    pub fn get_vote_accounts(&self) -> (r: Result<PreparedCall, HostError>)
        ensures
            rpc_post_ensures(self@, rpc_body("getVoteAccounts"@), r),
    {
        self.rpc(body0("getVoteAccounts"))
    }

    /// Requests the `minimumLedgerSlot` call.
    pub fn minimum_ledger_slot(&self) -> (r: Result<PreparedCall, HostError>)
        ensures
            rpc_post_ensures(self@, rpc_body("minimumLedgerSlot"@), r),
    {
        self.rpc(body0("minimumLedgerSlot"))
    }

    /// Requests the `getAccountInfo` call.
    pub fn get_account_info(&self, pubkey: &str) -> (r: Result<PreparedCall, HostError>)
        ensures
            rpc_post_ensures(self@, rpc_body_params("getAccountInfo"@, jstr(pubkey@)), r),
    {
        self.rpc(body_str1("getAccountInfo", pubkey))
    }

    /// Requests the `getBalance` call.
    pub fn get_balance(&self, pubkey: &str) -> (r: Result<PreparedCall, HostError>)
        ensures
            rpc_post_ensures(self@, rpc_body_params("getBalance"@, jstr(pubkey@)), r),
    {
        self.rpc(body_str1("getBalance", pubkey))
    }

    /// Requests the `getFeeForMessage` call.
    pub fn get_fee_for_message(&self, message: &str) -> (r: Result<PreparedCall, HostError>)
        ensures
            rpc_post_ensures(self@, rpc_body_params("getFeeForMessage"@, jstr(message@)), r),
    {
        self.rpc(body_str1("getFeeForMessage", message))
    }

    /// Requests the `getProgramAccounts` call.
    pub fn get_program_accounts(&self, pubkey: &str) -> (r: Result<PreparedCall, HostError>)
        ensures
            rpc_post_ensures(self@, rpc_body_params("getProgramAccounts"@, jstr(pubkey@)), r),
    {
        self.rpc(body_str1("getProgramAccounts", pubkey))
    }

    /// Requests the `getSignaturesForAddress` call.
    pub fn get_signatures_for_address(&self, pubkey: &str) -> (r: Result<PreparedCall, HostError>)
        ensures
            rpc_post_ensures(self@, rpc_body_params("getSignaturesForAddress"@, jstr(pubkey@)), r),
    {
        self.rpc(body_str1("getSignaturesForAddress", pubkey))
    }

    /// Requests the `getStakeActivation` call.
    pub fn get_stake_activation(&self, pubkey: &str) -> (r: Result<PreparedCall, HostError>)
        ensures
            rpc_post_ensures(self@, rpc_body_params("getStakeActivation"@, jstr(pubkey@)), r),
    {
        self.rpc(body_str1("getStakeActivation", pubkey))
    }

    /// Requests the `getTokenAccountBalance` call.
    pub fn get_token_account_balance(&self, pubkey: &str) -> (r: Result<PreparedCall, HostError>)
        ensures
            rpc_post_ensures(self@, rpc_body_params("getTokenAccountBalance"@, jstr(pubkey@)), r),
    {
        self.rpc(body_str1("getTokenAccountBalance", pubkey))
    }

    /// Requests the `getTokenLargestAccounts` call.
    pub fn get_token_largest_accounts(&self, pubkey: &str) -> (r: Result<PreparedCall, HostError>)
        ensures
            rpc_post_ensures(self@, rpc_body_params("getTokenLargestAccounts"@, jstr(pubkey@)), r),
    {
        self.rpc(body_str1("getTokenLargestAccounts", pubkey))
    }

    /// Requests the `getTokenSupply` call.
    pub fn get_token_supply(&self, pubkey: &str) -> (r: Result<PreparedCall, HostError>)
        ensures
            rpc_post_ensures(self@, rpc_body_params("getTokenSupply"@, jstr(pubkey@)), r),
    {
        self.rpc(body_str1("getTokenSupply", pubkey))
    }

    /// Requests the `getTransaction` call.
    pub fn get_transaction(&self, signature: &str) -> (r: Result<PreparedCall, HostError>)
        ensures
            rpc_post_ensures(self@, rpc_body_params("getTransaction"@, jstr(signature@)), r),
    {
        self.rpc(body_str1("getTransaction", signature))
    }

    /// Requests the `isBlockhashValid` call.
    pub fn is_blockhash_valid(&self, blockhash: &str) -> (r: Result<PreparedCall, HostError>)
        ensures
            rpc_post_ensures(self@, rpc_body_params("isBlockhashValid"@, jstr(blockhash@)), r),
    {
        self.rpc(body_str1("isBlockhashValid", blockhash))
    }

    /// Requests the `sendTransaction` call.
    pub fn send_transaction(&self, transaction: &str) -> (r: Result<PreparedCall, HostError>)
        ensures
            rpc_post_ensures(self@, rpc_body_params("sendTransaction"@, jstr(transaction@)), r),
    {
        self.rpc(body_str1("sendTransaction", transaction))
    }

    /// Requests the `simulateTransaction` call.
    pub fn simulate_transaction(&self, transaction: &str) -> (r: Result<PreparedCall, HostError>)
        ensures
            rpc_post_ensures(self@, rpc_body_params("simulateTransaction"@, jstr(transaction@)), r),
    {
        self.rpc(body_str1("simulateTransaction", transaction))
    }

    /// Requests the `getBlock` call.
    pub fn get_block(&self, slot: u64) -> (r: Result<PreparedCall, HostError>)
        ensures
            rpc_post_ensures(self@, rpc_body_params("getBlock"@, dec_digits(slot as nat)), r),
    {
        self.rpc(body_u641("getBlock", slot))
    }

    /// Requests the `getBlockCommitment` call.
    pub fn get_block_commitment(&self, slot: u64) -> (r: Result<PreparedCall, HostError>)
        ensures
            rpc_post_ensures(self@, rpc_body_params("getBlockCommitment"@, dec_digits(slot as nat)), r),
    {
        self.rpc(body_u641("getBlockCommitment", slot))
    }

    /// Requests the `getBlockTime` call.
    pub fn get_block_time(&self, slot: u64) -> (r: Result<PreparedCall, HostError>)
        ensures
            rpc_post_ensures(self@, rpc_body_params("getBlockTime"@, dec_digits(slot as nat)), r),
    {
        self.rpc(body_u641("getBlockTime", slot))
    }

    /// Requests the `getBlocksWithLimit` call.
    pub fn get_blocks_with_limit(&self, start_slot: u64, limit: u64) -> (r: Result<PreparedCall, HostError>)
        ensures
            rpc_post_ensures(
                self@,
                rpc_body_params("getBlocksWithLimit"@, dec_digits(start_slot as nat) + ","@ + dec_digits(limit as nat)),
                r,
            ),
    {
        self.rpc(body_u642("getBlocksWithLimit", start_slot, limit))
    }

    /// Requests the `getSlotLeaders` call.
    pub fn get_slot_leaders(&self, start_slot: u64, limit: u64) -> (r: Result<PreparedCall, HostError>)
        ensures
            rpc_post_ensures(
                self@,
                rpc_body_params("getSlotLeaders"@, dec_digits(start_slot as nat) + ","@ + dec_digits(limit as nat)),
                r,
            ),
    {
        self.rpc(body_u642("getSlotLeaders", start_slot, limit))
    }

    /// Requests the `getBlocks` call: from a slot to an optional end slot.
    pub fn get_blocks(&self, start_slot: u64, end_slot: Option<u64>) -> (r: Result<
        PreparedCall,
        HostError,
    >)
        ensures
            rpc_post_ensures(
                self@,
                rpc_body_params("getBlocks"@, dec_digits(start_slot as nat) + ","@ + opt_num(end_slot)),
                r,
            ),
    {
        self.rpc(body_u64_opt("getBlocks", start_slot, end_slot))
    }

    /// Requests the `requestAirdrop` call for an account and an amount.
    pub fn request_airdrop(&self, pubkey: &str, lamports: u64) -> (r: Result<
        PreparedCall,
        HostError,
    >)
        ensures
            rpc_post_ensures(
                self@,
                rpc_body_params("requestAirdrop"@, jstr(pubkey@) + ","@ + dec_digits(lamports as nat)),
                r,
            ),
    {
        self.rpc(body_str_u64("requestAirdrop", pubkey, lamports))
    }

    /// Requests the `getInflationReward` call for a list of accounts.
    pub fn get_inflation_reward(&self, pubkeys: &Vec<String>) -> (r: Result<PreparedCall, HostError>)
        ensures
            rpc_post_ensures(self@, rpc_body_params("getInflationReward"@, jarr(pubkeys.deep_view())), r),
    {
        self.rpc(body_str_arr("getInflationReward", pubkeys))
    }

    /// Requests the `getMultipleAccounts` call for a list of accounts.
    pub fn get_multiple_accounts(&self, pubkeys: &Vec<String>) -> (r: Result<PreparedCall, HostError>)
        ensures
            rpc_post_ensures(self@, rpc_body_params("getMultipleAccounts"@, jarr(pubkeys.deep_view())), r),
    {
        self.rpc(body_str_arr("getMultipleAccounts", pubkeys))
    }

    /// Requests the `getSignatureStatuses` call for a list of accounts.
    pub fn get_signature_statuses(&self, signatures: &Vec<String>) -> (r: Result<PreparedCall, HostError>)
        ensures
            rpc_post_ensures(self@, rpc_body_params("getSignatureStatuses"@, jarr(signatures.deep_view())), r),
    {
        self.rpc(body_str_arr("getSignatureStatuses", signatures))
    }

    /// Requests the `getTokenAccountsByDelegate` call, filtered by `mint`.
    pub fn get_token_accounts_by_delegate_mint(&self, pubkey: &str, mint: &str) -> (r: Result<PreparedCall, HostError>)
        ensures
            rpc_post_ensures(
                self@,
                rpc_body_params("getTokenAccountsByDelegate"@, jstr(pubkey@) + ","@ + jobj1("mint"@, mint@)),
                r,
            ),
    {
        self.rpc(body_str_obj("getTokenAccountsByDelegate", pubkey, "mint", mint))
    }

    /// Requests the `getTokenAccountsByDelegate` call, filtered by `programId`.
    pub fn get_token_accounts_by_delegate_program(&self, pubkey: &str, program: &str) -> (r: Result<PreparedCall, HostError>)
        ensures
            rpc_post_ensures(
                self@,
                rpc_body_params("getTokenAccountsByDelegate"@, jstr(pubkey@) + ","@ + jobj1("programId"@, program@)),
                r,
            ),
    {
        self.rpc(body_str_obj("getTokenAccountsByDelegate", pubkey, "programId", program))
    }

    /// Requests the `getTokenAccountsByOwner` call, filtered by `mint`.
    pub fn get_token_accounts_by_owner_mint(&self, pubkey: &str, mint: &str) -> (r: Result<PreparedCall, HostError>)
        ensures
            rpc_post_ensures(
                self@,
                rpc_body_params("getTokenAccountsByOwner"@, jstr(pubkey@) + ","@ + jobj1("mint"@, mint@)),
                r,
            ),
    {
        self.rpc(body_str_obj("getTokenAccountsByOwner", pubkey, "mint", mint))
    }

    /// Requests the `getTokenAccountsByOwner` call, filtered by `programId`.
    pub fn get_token_accounts_by_owner_program(&self, pubkey: &str, program: &str) -> (r: Result<PreparedCall, HostError>)
        ensures
            rpc_post_ensures(
                self@,
                rpc_body_params("getTokenAccountsByOwner"@, jstr(pubkey@) + ","@ + jobj1("programId"@, program@)),
                r,
            ),
    {
        self.rpc(body_str_obj("getTokenAccountsByOwner", pubkey, "programId", program))
    }
}

} // verus!
