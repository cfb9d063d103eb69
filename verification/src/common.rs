//! The status-word protocol and the request envelope types shared by all
//! host-call adapters, with their canonical wire encodings.
//!
//! Every envelope is written as a named-field map — field names appear on
//! the wire — so host and guest built at different times stay compatible as
//! long as the field names match, independent of declaration order in code.

use vstd::prelude::*;
use vstd::utf8::{encode_utf8, is_ascii_chars};

use crate::codec::{
    bin_encodable, dec_array_header, dec_bin, dec_map_header, dec_str, enc_array_header, enc_bin,
    enc_map_header, enc_str, read_array_header, read_bin, read_map_header, read_str,
    str_encodable, write_array_header, write_bin, write_map_header, write_str,
};
use crate::error::{Error, HostError};

verus! {

broadcast use vstd::utf8::is_ascii_chars_encode_utf8;

/// Category of a status word: the high 32 bits.
pub open spec fn status_category(status: u64) -> u64 {
    status / 0x1_0000_0000
}

/// Payload of a status word: the low 32 bits, meaningful only on success.
pub open spec fn status_payload(status: u64) -> u64 {
    status % 0x1_0000_0000
}

/// The failure kind that a known failure category maps to.
pub open spec fn category_kind(category: u64) -> HostError {
    if category == 1 {
        HostError::ReadRawBytes
    } else if category == 2 {
        HostError::DeserializeBytes
    } else if category == 3 {
        HostError::CallHttpRequest
    } else if category == 4 {
        HostError::ReadResponse
    } else if category == 5 {
        HostError::MemoryAccess
    } else if category == 6 {
        HostError::SendHttpRequest
    } else if category == 7 {
        HostError::SerializeData
    } else if category == 8 {
        HostError::GrowingMemory
    } else {
        HostError::WritingMemory
    }
}

/// Decodes the single integer every host call returns. Category 0 is
/// success and yields the 32-bit payload (a length or a memory offset,
/// depending on which adapter issued the call). Categories 1 through 9 map
/// to their failure kinds; any other category is reported as the generic
/// call failure, never as success.
pub fn extract(status: u64) -> (r: Result<u32, HostError>)
    ensures
        status_category(status) == 0 <==> r is Ok,
        r is Ok ==> r->Ok_0 == status_payload(status),
        1 <= status_category(status) <= 9 ==> r == Result::<u32, HostError>::Err(
            category_kind(status_category(status)),
        ),
        status_category(status) > 9 ==> r == Result::<u32, HostError>::Err(
            HostError::CallHttpRequest,
        ),
{
    let category = status / 0x1_0000_0000;
    match category {
        0 => Ok((status % 0x1_0000_0000) as u32),
        1 => Err(HostError::ReadRawBytes),
        2 => Err(HostError::DeserializeBytes),
        3 => Err(HostError::CallHttpRequest),
        4 => Err(HostError::ReadResponse),
        5 => Err(HostError::MemoryAccess),
        6 => Err(HostError::SendHttpRequest),
        7 => Err(HostError::SerializeData),
        8 => Err(HostError::GrowingMemory),
        9 => Err(HostError::WritingMemory),
        _ => Err(HostError::CallHttpRequest),
    }
}

/// The HTTP method of a request, written on the wire as its literal token.
#[derive(Clone, Copy, PartialEq, Eq, Structural, Debug)]
pub enum Method {
    GET,
    POST,
    DELETE,
    HEAD,
    PATCH,
    PUT,
}

/// The literal token of a method.
pub open spec fn method_str(m: Method) -> Seq<char> {
    match m {
        Method::GET => "GET"@,
        Method::POST => "POST"@,
        Method::DELETE => "DELETE"@,
        Method::HEAD => "HEAD"@,
        Method::PATCH => "PATCH"@,
        Method::PUT => "PUT"@,
    }
}

/// The method a literal token names, if any.
pub open spec fn method_of_str(s: Seq<char>) -> Option<Method> {
    if s == "GET"@ {
        Some(Method::GET)
    } else if s == "POST"@ {
        Some(Method::POST)
    } else if s == "DELETE"@ {
        Some(Method::DELETE)
    } else if s == "HEAD"@ {
        Some(Method::HEAD)
    } else if s == "PATCH"@ {
        Some(Method::PATCH)
    } else if s == "PUT"@ {
        Some(Method::PUT)
    } else {
        None
    }
}

/// A method's token always names that method back.
pub proof fn lemma_method_str_of(m: Method)
    ensures
        method_of_str(method_str(m)) == Some(m),
{
    reveal_strlit("GET");
    reveal_strlit("POST");
    reveal_strlit("DELETE");
    reveal_strlit("HEAD");
    reveal_strlit("PATCH");
    reveal_strlit("PUT");
    assert("GET"@.len() == 3 && "POST"@.len() == 4 && "DELETE"@.len() == 6 && "HEAD"@.len() == 4
        && "PATCH"@.len() == 5 && "PUT"@.len() == 3);
    assert("GET"@[0] == 'G' && "POST"@[0] == 'P' && "PUT"@[0] == 'P' && "POST"@[1] == 'O'
        && "PUT"@[1] == 'U' && "HEAD"@[0] == 'H' && "PATCH"@[0] == 'P');
}

/// A method token is short ASCII text, so it is always representable.
#[verifier::spinoff_prover]
pub proof fn lemma_method_str_wf(m: Method)
    ensures
        is_ascii_chars(method_str(m)),
        method_str(m).len() <= 6,
        str_encodable(method_str(m)),
{
    reveal_strlit("GET");
    reveal_strlit("POST");
    reveal_strlit("DELETE");
    reveal_strlit("HEAD");
    reveal_strlit("PATCH");
    reveal_strlit("PUT");
    assert(is_ascii_chars(method_str(m)));
    assert(method_str(m).len() <= 6);
    lemma_ascii_encodable(method_str(m));
}

impl Method {
    /// The method's literal token.
    pub fn name(&self) -> (r: &'static str)
        ensures
            r@ == method_str(*self),
    {
        match self {
            Method::GET => "GET",
            Method::POST => "POST",
            Method::DELETE => "DELETE",
            Method::HEAD => "HEAD",
            Method::PATCH => "PATCH",
            Method::PUT => "PUT",
        }
    }

    /// The method a token names, if any.
    pub fn from_name(s: &String) -> (r: Option<Method>)
        ensures
            r == method_of_str(s@),
    {
        if *s == "GET".to_owned() {
            Some(Method::GET)
        } else if *s == "POST".to_owned() {
            Some(Method::POST)
        } else if *s == "DELETE".to_owned() {
            Some(Method::DELETE)
        } else if *s == "HEAD".to_owned() {
            Some(Method::HEAD)
        } else if *s == "PATCH".to_owned() {
            Some(Method::PATCH)
        } else if *s == "PUT".to_owned() {
            Some(Method::PUT)
        } else {
            None
        }
    }
}

/// Mathematical image of a request descriptor.
#[verifier::ext_equal]
pub ghost struct RequestDataV {
    pub url: Seq<char>,
    pub headers: Seq<Seq<char>>,
    pub queries: Seq<Seq<char>>,
    pub method: Method,
}

/// What every host call carries: the target URL, flattened header and query
/// key/value pairs (order preserved), and the HTTP method.
pub struct RequestData {
    pub url: String,
    pub headers: Vec<String>,
    pub queries: Vec<String>,
    pub method: Method,
}

impl View for RequestData {
    type V = RequestDataV;

    open spec fn view(&self) -> RequestDataV {
        RequestDataV {
            url: self.url@,
            headers: self.headers.deep_view(),
            queries: self.queries.deep_view(),
            method: self.method,
        }
    }
}

/// Encoding of a sequence of text values, one after the other.
pub open spec fn enc_str_seq(ss: Seq<Seq<char>>) -> Seq<u8>
    decreases ss.len(),
{
    if ss.len() == 0 {
        Seq::empty()
    } else {
        enc_str(ss[0]) + enc_str_seq(ss.drop_first())
    }
}

/// All texts of a sequence are representable, and so is its count.
pub open spec fn str_seq_encodable(ss: Seq<Seq<char>>) -> bool {
    ss.len() < 0x1_0000_0000 && forall|i| 0 <= i < ss.len() ==> str_encodable(#[trigger] ss[i])
}

/// Encoding of an array of text values: header, then each text in order.
pub open spec fn enc_str_array(ss: Seq<Seq<char>>) -> Seq<u8> {
    enc_array_header(ss.len()) + enc_str_seq(ss)
}

/// Extending a text sequence by one value appends that value's encoding.
pub proof fn lemma_enc_str_seq_snoc(ss: Seq<Seq<char>>, i: int)
    requires
        0 <= i < ss.len(),
    ensures
        enc_str_seq(ss.take(i + 1)) == enc_str_seq(ss.take(i)) + enc_str(ss[i]),
    decreases i,
{
    if i == 0 {
        assert(ss.take(1).drop_first() =~= Seq::<Seq<char>>::empty());
        assert(enc_str_seq(Seq::<Seq<char>>::empty()) == Seq::<u8>::empty());
        assert(ss.take(1)[0] == ss[0]);
        assert(enc_str_seq(ss.take(1)) == enc_str(ss[0]) + Seq::<u8>::empty());
        assert(ss.take(0) =~= Seq::<Seq<char>>::empty());
        assert(enc_str_seq(ss.take(1)) =~= enc_str_seq(ss.take(0)) + enc_str(ss[0]));
    } else {
        let t = ss.drop_first();
        lemma_enc_str_seq_snoc(t, i - 1);
        assert(ss.take(i + 1).drop_first() =~= t.take(i));
        assert(ss.take(i).drop_first() =~= t.take(i - 1));
        assert(ss.take(i + 1)[0] == ss[0] && ss.take(i)[0] == ss[0]);
        assert(enc_str_seq(ss.take(i + 1)) == enc_str(ss[0]) + enc_str_seq(t.take(i)));
        assert(enc_str_seq(ss.take(i)) == enc_str(ss[0]) + enc_str_seq(t.take(i - 1)));
        assert(enc_str(ss[0]) + (enc_str_seq(t.take(i - 1)) + enc_str(t[i - 1])) =~= (enc_str(
            ss[0],
        ) + enc_str_seq(t.take(i - 1))) + enc_str(ss[i]));
    }
}

/// An ASCII text of bounded length is always representable, and its UTF-8
/// form is the text itself, byte for byte.
pub proof fn lemma_ascii_encodable(s: Seq<char>)
    requires
        is_ascii_chars(s),
        s.len() < 0x1_0000_0000,
    ensures
        encode_utf8(s).len() == s.len(),
        str_encodable(s),
{
}

/// Appends the encoding of a short ASCII field name.
fn write_key(out: &mut Vec<u8>, key: &str)
    requires
        is_ascii_chars(key@),
        key@.len() < 0x1_0000_0000,
    ensures
        final(out)@ == old(out)@ + enc_str(key@),
{
    proof {
        lemma_ascii_encodable(key@);
    }
    write_str(out, key);
}

/// True exactly when every text of `v` is representable.
fn check_str_vec(v: &Vec<String>) -> (r: bool)
    ensures
        r <==> str_seq_encodable(v.deep_view()),
{
    let ghost dv = v.deep_view();
    if v.len() as u64 >= 0x1_0000_0000 {
        return false;
    }
    for i in 0..v.len()
        invariant
            dv == v.deep_view(),
            dv.len() == v.len() < 0x1_0000_0000,
            forall|j| 0 <= j < i ==> str_encodable(#[trigger] dv[j]),
    {
        assert(dv[i as int] == v@[i as int]@);
        if v[i].as_str().as_bytes().len() as u64 >= 0x1_0000_0000 {
            assert(!str_encodable(dv[i as int]));
            return false;
        }
        assert(str_encodable(dv[i as int]));
    }
    true
}

/// Appends the encoding of an array of text values.
fn write_str_vec(out: &mut Vec<u8>, v: &Vec<String>)
    requires
        str_seq_encodable(v.deep_view()),
    ensures
        final(out)@ == old(out)@ + enc_str_array(v.deep_view()),
{
    let ghost dv = v.deep_view();
    let ghost base = out@ + enc_array_header(dv.len());
    write_array_header(out, v.len());
    assert(out@ == base + enc_str_seq(dv.take(0)));
    for i in 0..v.len()
        invariant
            dv == v.deep_view(),
            dv.len() == v.len(),
            str_seq_encodable(dv),
            out@ == base + enc_str_seq(dv.take(i as int)),
    {
        assert(dv[i as int] == v[i as int]@);
        write_str(out, v[i].as_str());
        proof {
            lemma_enc_str_seq_snoc(dv, i as int);
            assert(out@ =~= base + enc_str_seq(dv.take(i + 1)));
        }
    }
    assert(dv.take(dv.len() as int) =~= dv);
}

/// A request descriptor is representable when its url and every header and
/// query text are.
pub open spec fn request_encodable(r: RequestDataV) -> bool {
    str_encodable(r.url) && str_seq_encodable(r.headers) && str_seq_encodable(r.queries)
}

/// Canonical encoding of a request descriptor: a named-field map holding
/// the url, the header pairs, the query pairs, and the method token.
pub open spec fn enc_request(r: RequestDataV) -> Seq<u8> {
    enc_map_header(4) + enc_str("url"@) + enc_str(r.url) + enc_str("headers"@) + enc_str_array(
        r.headers,
    ) + enc_str("queries"@) + enc_str_array(r.queries) + enc_str("method"@) + enc_str(
        method_str(r.method),
    )
}

/// The field names of a request descriptor are plain ASCII.
proof fn lemma_request_keys_ascii()
    ensures
        is_ascii_chars("url"@) && "url"@.len() == 3,
        is_ascii_chars("headers"@) && "headers"@.len() == 7,
        is_ascii_chars("queries"@) && "queries"@.len() == 7,
        is_ascii_chars("method"@) && "method"@.len() == 6,
{
    reveal_strlit("url");
    reveal_strlit("headers");
    reveal_strlit("queries");
    reveal_strlit("method");
}

impl RequestData {
    /// Appends the canonical encoding of this descriptor to `out`, or
    /// reports that a field is too large for the wire form.
    pub(crate) fn encode_into(&self, out: &mut Vec<u8>) -> (r: Result<(), Error>)
        ensures
            r is Ok ==> request_encodable(self@) && final(out)@ == old(out)@ + enc_request(
                self@,
            ),
            r is Err <==> !request_encodable(self@),
            r is Err ==> *final(out) == *old(out),
    {
        if self.url.as_str().as_bytes().len() as u64 >= 0x1_0000_0000 {
            return Err(Error::new("request field too large for the wire form"));
        }
        if !check_str_vec(&self.headers) || !check_str_vec(&self.queries) {
            return Err(Error::new("request field too large for the wire form"));
        }
        proof {
            lemma_request_keys_ascii();
            lemma_method_str_wf(self.method);
        }
        write_map_header(out, 4);
        write_key(out, "url");
        write_str(out, self.url.as_str());
        write_key(out, "headers");
        write_str_vec(out, &self.headers);
        write_key(out, "queries");
        write_str_vec(out, &self.queries);
        write_key(out, "method");
        write_str(out, self.method.name());
        proof {
            assert(out@ =~= old(out)@ + enc_request(self@));
        }
        Ok(())
    }

    /// The canonical encoding of this descriptor, or an error when a field
    /// is too large for the wire form.
    pub fn encode(&self) -> (r: Result<Vec<u8>, Error>)
        ensures
            r is Ok ==> request_encodable(self@) && r->Ok_0@ == enc_request(self@),
            r is Err <==> !request_encodable(self@),
    {
        let mut out: Vec<u8> = Vec::new();
        match self.encode_into(&mut out) {
            Ok(()) => {
                proof {
                    assert(out@ =~= enc_request(self@));
                }
                Ok(out)
            },
            Err(e) => Err(e),
        }
    }
}

/// The unique parse of `n` consecutive text values.
pub open spec fn dec_str_seq(s: Seq<u8>, n: nat) -> Option<(Seq<Seq<char>>, int)>
    decreases n,
{
    if n == 0 {
        Some((Seq::empty(), 0))
    } else {
        match dec_str(s) {
            Option::None => None,
            Option::Some((c, k)) => match dec_str_seq(s.skip(k), (n - 1) as nat) {
                Option::None => None,
                Option::Some((cs, m)) => Some((seq![c] + cs, k + m)),
            },
        }
    }
}

/// The unique parse of an array of text values.
pub open spec fn dec_str_array(s: Seq<u8>) -> Option<(Seq<Seq<char>>, int)> {
    match dec_array_header(s) {
        Option::None => None,
        Option::Some((n, h)) => match dec_str_seq(s.skip(h), n) {
            Option::None => None,
            Option::Some((cs, m)) => Some((cs, h + m)),
        },
    }
}

/// The parse of one expected field name: the bytes consumed, or nothing if
/// the text at the head of `s` is not `key`.
#[verifier::opaque]
pub open spec fn dec_key(s: Seq<u8>, key: Seq<char>) -> Option<int> {
    match dec_str(s) {
        Option::None => None,
        Option::Some((c, k)) => if c == key {
            Some(k)
        } else {
            None
        },
    }
}

/// The parse of one named text field: field name, then its value.
#[verifier::opaque]
pub open spec fn dec_field_str(s: Seq<u8>, key: Seq<char>) -> Option<(Seq<char>, int)> {
    match dec_key(s, key) {
        Option::None => None,
        Option::Some(k) => match dec_str(s.skip(k)) {
            Option::None => None,
            Option::Some((v, m)) => Some((v, k + m)),
        },
    }
}

/// The parse of one named array-of-text field.
#[verifier::opaque]
pub open spec fn dec_field_str_array(s: Seq<u8>, key: Seq<char>) -> Option<(
    Seq<Seq<char>>,
    int,
)> {
    match dec_key(s, key) {
        Option::None => None,
        Option::Some(k) => match dec_str_array(s.skip(k)) {
            Option::None => None,
            Option::Some((v, m)) => Some((v, k + m)),
        },
    }
}

/// The parse of the method field: its name, then a known method token.
#[verifier::opaque]
pub open spec fn dec_field_method(s: Seq<u8>) -> Option<(Method, int)> {
    match dec_field_str(s, "method"@) {
        Option::None => None,
        Option::Some((tok, m)) => match method_of_str(tok) {
            Option::None => None,
            Option::Some(method) => Some((method, m)),
        },
    }
}

/// The unique parse of a request descriptor: a 4-field named map with its
/// fields in canonical order.
#[verifier::opaque]
pub open spec fn dec_request(s: Seq<u8>) -> Option<(RequestDataV, int)> {
    match dec_map_header(s) {
        Option::None => None,
        Option::Some((n, p0)) => if n != 4 {
            None
        } else {
            match dec_field_str(s.skip(p0), "url"@) {
                Option::None => None,
                Option::Some((url, k1)) => match dec_field_str_array(
                    s.skip(p0 + k1),
                    "headers"@,
                ) {
                    Option::None => None,
                    Option::Some((headers, k2)) => match dec_field_str_array(
                        s.skip(p0 + k1 + k2),
                        "queries"@,
                    ) {
                        Option::None => None,
                        Option::Some((queries, k3)) => match dec_field_method(
                            s.skip(p0 + k1 + k2 + k3),
                        ) {
                            Option::None => None,
                            Option::Some((method, k4)) => Some((
                                RequestDataV { url, headers, queries, method },
                                p0 + k1 + k2 + k3 + k4,
                            )),
                        },
                    },
                },
            }
        },
    }
}

/// Parses one expected field name at position `pos`.
fn read_key(bytes: &[u8], pos: usize, key: &str) -> (r: Result<usize, ()>)
    requires
        pos <= bytes@.len(),
    ensures
        match r {
            Ok(end) => {
                &&& pos < end <= bytes@.len()
                &&& dec_key(bytes@.skip(pos as int), key@) == Some(end - pos)
            },
            Err(()) => dec_key(bytes@.skip(pos as int), key@) is None,
        },
{
    proof {
        reveal(dec_key);
    }
    match read_str(bytes, pos) {
        Ok((k, end)) => if k == key.to_owned() {
            Ok(end)
        } else {
            Err(())
        },
        Err(()) => Err(()),
    }
}

/// Parses an array of text values at position `pos`, exactly as
/// [`dec_str_array`] reads the remainder of the input.
fn read_str_vec(bytes: &[u8], pos: usize) -> (r: Result<(Vec<String>, usize), ()>)
    requires
        pos <= bytes@.len(),
    ensures
        match r {
            Ok((v, end)) => {
                &&& pos < end <= bytes@.len()
                &&& dec_str_array(bytes@.skip(pos as int)) == Some((v.deep_view(), end - pos))
            },
            Err(()) => dec_str_array(bytes@.skip(pos as int)) is None,
        },
{
    let (count, body) = match read_array_header(bytes, pos) {
        Ok(x) => x,
        Err(()) => {
            return Err(());
        },
    };
    let ghost s0 = bytes@.skip(body as int);
    let mut acc: Vec<String> = Vec::new();
    let mut p = body;
    let mut i: usize = 0;
    while i < count
        invariant
            pos < body <= p <= bytes@.len(),
            i <= count,
            s0 == bytes@.skip(body as int),
            dec_array_header(bytes@.skip(pos as int)) == Some((count as nat, body - pos)),
            match dec_str_seq(bytes@.skip(p as int), (count - i) as nat) {
                Option::None => dec_str_seq(s0, count as nat) is None,
                Option::Some((cs, m)) => dec_str_seq(s0, count as nat) == Some((
                    acc.deep_view() + cs,
                    (p - body) + m,
                )),
            },
        decreases count - i,
    {
        let ghost tail = bytes@.skip(p as int);
        let ghost remaining = (count - i) as nat;
        match read_str(bytes, p) {
            Ok((text, end)) => {
                proof {
                    let (c, k) = dec_str(tail)->Some_0;
                    assert(tail.skip(k) =~= bytes@.skip(end as int));
                }
                let ghost old_acc = acc.deep_view();
                acc.push(text);
                proof {
                    assert(acc.deep_view() =~= old_acc + seq![text@]);
                    let (c, k) = dec_str(tail)->Some_0;
                    match dec_str_seq(bytes@.skip(end as int), (count - i - 1) as nat) {
                        Option::None => {},
                        Option::Some((cs2, m2)) => {
                            assert((old_acc + seq![c]) + cs2 =~= old_acc + (seq![c] + cs2));
                        },
                    }
                }
                p = end;
            },
            Err(()) => {
                proof {
                    assert(dec_str_seq(tail, remaining) is None);
                    assert(bytes@.skip(pos as int).skip(body - pos) =~= s0);
                }
                return Err(());
            },
        }
        i = i + 1;
    }
    proof {
        assert(dec_str_seq(bytes@.skip(p as int), 0) == Some((
            Seq::<Seq<char>>::empty(),
            0int,
        )));
        assert(acc.deep_view() + Seq::<Seq<char>>::empty() =~= acc.deep_view());
        assert(bytes@.skip(pos as int).skip(body - pos) =~= s0);
    }
    Ok((acc, p))
}

/// Parses one named text field at position `pos`.
fn read_field_str(bytes: &[u8], pos: usize, key: &str) -> (r: Result<(String, usize), ()>)
    requires
        pos <= bytes@.len(),
    ensures
        match r {
            Ok((v, end)) => {
                &&& pos < end <= bytes@.len()
                &&& dec_field_str(bytes@.skip(pos as int), key@) == Some((v@, end - pos))
            },
            Err(()) => dec_field_str(bytes@.skip(pos as int), key@) is None,
        },
{
    proof {
        reveal(dec_field_str);
    }
    match read_key(bytes, pos, key) {
        Ok(p1) => {
            proof {
                assert(bytes@.skip(pos as int).skip(p1 - pos) =~= bytes@.skip(p1 as int));
            }
            match read_str(bytes, p1) {
                Ok((v, end)) => Ok((v, end)),
                Err(()) => Err(()),
            }
        },
        Err(()) => Err(()),
    }
}

/// Parses one named array-of-text field at position `pos`.
fn read_field_str_vec(bytes: &[u8], pos: usize, key: &str) -> (r: Result<(Vec<String>, usize), ()>)
    requires
        pos <= bytes@.len(),
    ensures
        match r {
            Ok((v, end)) => {
                &&& pos < end <= bytes@.len()
                &&& dec_field_str_array(bytes@.skip(pos as int), key@) == Some((
                    v.deep_view(),
                    end - pos,
                ))
            },
            Err(()) => dec_field_str_array(bytes@.skip(pos as int), key@) is None,
        },
{
    proof {
        reveal(dec_field_str_array);
    }
    match read_key(bytes, pos, key) {
        Ok(p1) => {
            proof {
                assert(bytes@.skip(pos as int).skip(p1 - pos) =~= bytes@.skip(p1 as int));
            }
            match read_str_vec(bytes, p1) {
                Ok((v, end)) => Ok((v, end)),
                Err(()) => Err(()),
            }
        },
        Err(()) => Err(()),
    }
}

/// Parses the method field at position `pos`.
fn read_field_method(bytes: &[u8], pos: usize) -> (r: Result<(Method, usize), ()>)
    requires
        pos <= bytes@.len(),
    ensures
        match r {
            Ok((m, end)) => {
                &&& pos < end <= bytes@.len()
                &&& dec_field_method(bytes@.skip(pos as int)) == Some((m, end - pos))
            },
            Err(()) => dec_field_method(bytes@.skip(pos as int)) is None,
        },
{
    proof {
        reveal(dec_field_method);
    }
    match read_field_str(bytes, pos, "method") {
        Ok((tok, end)) => match Method::from_name(&tok) {
            Some(m) => Ok((m, end)),
            None => Err(()),
        },
        Err(()) => Err(()),
    }
}

impl RequestData {
    /// Parses a request descriptor at position `pos`, exactly as
    /// [`dec_request`] reads the remainder of the input.
    pub(crate) fn decode_at(bytes: &[u8], pos: usize) -> (r: Result<(RequestData, usize), ()>)
        requires
            pos <= bytes@.len(),
        ensures
            match r {
                Ok((v, end)) => {
                    &&& pos < end <= bytes@.len()
                    &&& dec_request(bytes@.skip(pos as int)) == Some((v@, end - pos))
                },
                Err(()) => dec_request(bytes@.skip(pos as int)) is None,
            },
    {
        proof {
            reveal(dec_request);
        }
        let ghost s = bytes@.skip(pos as int);
        let (count, p0) = match read_map_header(bytes, pos) {
            Ok(x) => x,
            Err(()) => {
                return Err(());
            },
        };
        if count != 4 {
            return Err(());
        }
        proof {
            assert(s.skip(p0 - pos) =~= bytes@.skip(p0 as int));
        }
        let (url, p1) = match read_field_str(bytes, p0, "url") {
            Ok(x) => x,
            Err(()) => {
                return Err(());
            },
        };
        proof {
            assert(s.skip(p1 - pos) =~= bytes@.skip(p1 as int));
        }
        let (headers, p2) = match read_field_str_vec(bytes, p1, "headers") {
            Ok(x) => x,
            Err(()) => {
                return Err(());
            },
        };
        proof {
            assert(s.skip(p2 - pos) =~= bytes@.skip(p2 as int));
        }
        let (queries, p3) = match read_field_str_vec(bytes, p2, "queries") {
            Ok(x) => x,
            Err(()) => {
                return Err(());
            },
        };
        proof {
            assert(s.skip(p3 - pos) =~= bytes@.skip(p3 as int));
        }
        let (method, p4) = match read_field_method(bytes, p3) {
            Ok(x) => x,
            Err(()) => {
                return Err(());
            },
        };
        let out = RequestData { url, headers, queries, method };
        proof {
            assert(dec_request(s) == Some((out@, p4 - pos)));
        }
        Ok((out, p4))
    }

    /// Parses a whole input as a request descriptor, rejecting malformed
    /// bytes and trailing bytes.
    pub fn decode(bytes: &[u8]) -> (r: Result<RequestData, Error>)
        ensures
            r is Ok ==> dec_request(bytes@) == Some((r->Ok_0@, bytes@.len() as int)),
            r is Ok ==> bytes@ == enc_request(r->Ok_0@) && request_encodable(r->Ok_0@),
            r is Err <==> !match dec_request(bytes@) {
                Option::Some((v, end)) => end == bytes@.len(),
                Option::None => false,
            },
    {
        proof {
            assert(bytes@.skip(0) =~= bytes@);
        }
        match Self::decode_at(bytes, 0) {
            Ok((v, end)) => if end == bytes.len() {
                proof {
                    lemma_dec_request_canonical(bytes@);
                    assert(bytes@.take(bytes@.len() as int) =~= bytes@);
                }
                Ok(v)
            } else {
                Err(Error::new("trailing bytes after request descriptor"))
            },
            Err(()) => Err(Error::new("malformed request descriptor")),
        }
    }
}

/// Parsing an encoded run of texts consumes exactly that encoding and
/// yields the texts back, whatever follows them.
pub proof fn lemma_dec_str_seq_enc(ss: Seq<Seq<char>>, rest: Seq<u8>)
    requires
        forall|i| 0 <= i < ss.len() ==> str_encodable(#[trigger] ss[i]),
    ensures
        dec_str_seq(enc_str_seq(ss) + rest, ss.len()) == Some((
            ss,
            enc_str_seq(ss).len() as int,
        )),
    decreases ss.len(),
{
    if ss.len() == 0 {
        assert(enc_str_seq(ss) + rest =~= rest);
        assert(Seq::<Seq<char>>::empty() =~= ss);
    } else {
        let t = ss.drop_first();
        let full = enc_str_seq(ss) + rest;
        assert(full =~= enc_str(ss[0]) + (enc_str_seq(t) + rest));
        crate::codec::lemma_dec_str_enc(ss[0], enc_str_seq(t) + rest);
        assert(full.skip(enc_str(ss[0]).len() as int) =~= enc_str_seq(t) + rest);
        lemma_dec_str_seq_enc(t, rest);
        assert(seq![ss[0]] + t =~= ss);
    }
}

/// Parsing an encoded array of texts consumes exactly that encoding and
/// yields the texts back, whatever follows them.
pub proof fn lemma_dec_str_array_enc(ss: Seq<Seq<char>>, rest: Seq<u8>)
    requires
        str_seq_encodable(ss),
    ensures
        dec_str_array(enc_str_array(ss) + rest) == Some((ss, enc_str_array(ss).len() as int)),
{
    let full = enc_str_array(ss) + rest;
    assert(full =~= enc_array_header(ss.len()) + (enc_str_seq(ss) + rest));
    crate::codec::lemma_dec_array_header_enc(ss.len(), enc_str_seq(ss) + rest);
    assert(full.skip(enc_array_header(ss.len()).len() as int) =~= enc_str_seq(ss) + rest);
    lemma_dec_str_seq_enc(ss, rest);
}

/// Parsing an encoded field name consumes exactly its encoding.
pub proof fn lemma_dec_key_enc(key: Seq<char>, rest: Seq<u8>)
    requires
        str_encodable(key),
    ensures
        dec_key(enc_str(key) + rest, key) == Some(enc_str(key).len() as int),
{
    reveal(dec_key);
    crate::codec::lemma_dec_str_enc(key, rest);
}

/// Parsing an encoded named text field consumes exactly its encoding and
/// yields the text back.
pub proof fn lemma_dec_field_str_enc(key: Seq<char>, v: Seq<char>, rest: Seq<u8>)
    requires
        str_encodable(key),
        str_encodable(v),
    ensures
        dec_field_str(enc_str(key) + enc_str(v) + rest, key) == Some((
            v,
            enc_str(key).len() + enc_str(v).len() as int,
        )),
{
    reveal(dec_field_str);
    let full = enc_str(key) + enc_str(v) + rest;
    assert(full =~= enc_str(key) + (enc_str(v) + rest));
    lemma_dec_key_enc(key, enc_str(v) + rest);
    assert(full.skip(enc_str(key).len() as int) =~= enc_str(v) + rest);
    crate::codec::lemma_dec_str_enc(v, rest);
}

/// Parsing an encoded named array-of-text field consumes exactly its
/// encoding and yields the texts back.
pub proof fn lemma_dec_field_str_array_enc(key: Seq<char>, ss: Seq<Seq<char>>, rest: Seq<u8>)
    requires
        str_encodable(key),
        str_seq_encodable(ss),
    ensures
        dec_field_str_array(enc_str(key) + enc_str_array(ss) + rest, key) == Some((
            ss,
            enc_str(key).len() + enc_str_array(ss).len() as int,
        )),
{
    reveal(dec_field_str_array);
    let full = enc_str(key) + enc_str_array(ss) + rest;
    assert(full =~= enc_str(key) + (enc_str_array(ss) + rest));
    lemma_dec_key_enc(key, enc_str_array(ss) + rest);
    assert(full.skip(enc_str(key).len() as int) =~= enc_str_array(ss) + rest);
    lemma_dec_str_array_enc(ss, rest);
}

/// Parsing an encoded method field consumes exactly its encoding and
/// yields the method back.
pub proof fn lemma_dec_field_method_enc(m: Method, rest: Seq<u8>)
    ensures
        dec_field_method(enc_str("method"@) + enc_str(method_str(m)) + rest) == Some((
            m,
            enc_str("method"@).len() + enc_str(method_str(m)).len() as int,
        )),
{
    reveal(dec_field_method);
    lemma_request_keys_ascii();
    lemma_ascii_encodable("method"@);
    lemma_method_str_wf(m);
    lemma_method_str_of(m);
    lemma_dec_field_str_enc("method"@, method_str(m), rest);
}

/// Parsing the four encoded fields of a request descriptor, laid out one
/// after the other, yields each field back at its position.
#[verifier::rlimit(100)]
#[verifier::spinoff_prover]
proof fn lemma_dec_request_fields_enc(v: RequestDataV, rest: Seq<u8>)
    requires
        request_encodable(v),
    ensures
        ({
            let f1 = enc_str("url"@) + enc_str(v.url);
            let f2 = enc_str("headers"@) + enc_str_array(v.headers);
            let f3 = enc_str("queries"@) + enc_str_array(v.queries);
            let f4 = enc_str("method"@) + enc_str(method_str(v.method));
            let t = f1 + (f2 + (f3 + (f4 + rest)));
            &&& dec_field_str(t, "url"@) == Some((v.url, f1.len() as int))
            &&& dec_field_str_array(t.skip(f1.len() as int), "headers"@) == Some((
                v.headers,
                f2.len() as int,
            ))
            &&& dec_field_str_array(t.skip((f1.len() + f2.len()) as int), "queries"@) == Some((
                v.queries,
                f3.len() as int,
            ))
            &&& dec_field_method(t.skip((f1.len() + f2.len() + f3.len()) as int)) == Some((
                v.method,
                f4.len() as int,
            ))
        }),
{
    lemma_request_keys_ascii();
    lemma_ascii_encodable("url"@);
    lemma_ascii_encodable("headers"@);
    lemma_ascii_encodable("queries"@);
    lemma_ascii_encodable("method"@);
    lemma_method_str_wf(v.method);
    let f1 = enc_str("url"@) + enc_str(v.url);
    let f2 = enc_str("headers"@) + enc_str_array(v.headers);
    let f3 = enc_str("queries"@) + enc_str_array(v.queries);
    let f4 = enc_str("method"@) + enc_str(method_str(v.method));
    let t = f1 + (f2 + (f3 + (f4 + rest)));
    lemma_dec_field_str_enc("url"@, v.url, f2 + (f3 + (f4 + rest)));
    assert(t =~= enc_str("url"@) + enc_str(v.url) + (f2 + (f3 + (f4 + rest))));
    assert(t.skip(f1.len() as int) =~= f2 + (f3 + (f4 + rest)));
    lemma_dec_field_str_array_enc("headers"@, v.headers, f3 + (f4 + rest));
    assert(f2 + (f3 + (f4 + rest)) =~= enc_str("headers"@) + enc_str_array(v.headers) + (f3 + (
    f4 + rest)));
    assert(t.skip((f1.len() + f2.len()) as int) =~= f3 + (f4 + rest));
    lemma_dec_field_str_array_enc("queries"@, v.queries, f4 + rest);
    assert(f3 + (f4 + rest) =~= enc_str("queries"@) + enc_str_array(v.queries) + (f4 + rest));
    assert(t.skip((f1.len() + f2.len() + f3.len()) as int) =~= f4 + rest);
    lemma_dec_field_method_enc(v.method, rest);
    assert(f4 + rest =~= enc_str("method"@) + enc_str(method_str(v.method)) + rest);
}

/// Parsing an encoded request descriptor consumes exactly that encoding
/// and yields the descriptor back, whatever follows it.
#[verifier::rlimit(100)]
#[verifier::spinoff_prover]
pub proof fn lemma_dec_request_enc(v: RequestDataV, rest: Seq<u8>)
    requires
        request_encodable(v),
    ensures
        dec_request(enc_request(v) + rest) == Some((v, enc_request(v).len() as int)),
{
    reveal(dec_request);
    lemma_dec_request_fields_enc(v, rest);
    let a1 = enc_map_header(4);
    let f1 = enc_str("url"@) + enc_str(v.url);
    let f2 = enc_str("headers"@) + enc_str_array(v.headers);
    let f3 = enc_str("queries"@) + enc_str_array(v.queries);
    let f4 = enc_str("method"@) + enc_str(method_str(v.method));
    let t = f1 + (f2 + (f3 + (f4 + rest)));
    let full = enc_request(v) + rest;
    assert(full =~= a1 + t);
    crate::codec::lemma_dec_map_header_enc(4, t);
    assert(full.skip(a1.len() as int) =~= t);
    assert(full.skip((a1.len() + f1.len()) as int) =~= t.skip(f1.len() as int));
    assert(full.skip((a1.len() + f1.len() + f2.len()) as int) =~= t.skip((f1.len()
        + f2.len()) as int));
    assert(full.skip((a1.len() + f1.len() + f2.len() + f3.len()) as int) =~= t.skip((f1.len()
        + f2.len() + f3.len()) as int));
    let parsed = dec_request(full)->Some_0;
    assert(parsed.0 =~= v);
    assert(full.len() - rest.len() == enc_request(v).len());
}

/// The field names of a payload envelope are plain ASCII.
proof fn lemma_envelope_keys_ascii()
    ensures
        is_ascii_chars("request_data"@) && "request_data"@.len() == 12,
        is_ascii_chars("data"@) && "data"@.len() == 4,
{
    reveal_strlit("request_data");
    reveal_strlit("data");
}

/// The parse of the named request-descriptor field of an envelope.
#[verifier::opaque]
pub open spec fn dec_field_request(s: Seq<u8>) -> Option<(RequestDataV, int)> {
    match dec_key(s, "request_data"@) {
        Option::None => None,
        Option::Some(k) => match dec_request(s.skip(k)) {
            Option::None => None,
            Option::Some((r, m)) => Some((r, k + m)),
        },
    }
}

/// The parse of a named byte-run field.
#[verifier::opaque]
pub open spec fn dec_field_bin(s: Seq<u8>, key: Seq<char>) -> Option<(Seq<u8>, int)> {
    match dec_key(s, key) {
        Option::None => None,
        Option::Some(k) => match dec_bin(s.skip(k)) {
            Option::None => None,
            Option::Some((v, m)) => Some((v, k + m)),
        },
    }
}

/// Parses the request-descriptor field of an envelope at position `pos`.
fn read_field_request(bytes: &[u8], pos: usize) -> (r: Result<(RequestData, usize), ()>)
    requires
        pos <= bytes@.len(),
    ensures
        match r {
            Ok((v, end)) => {
                &&& pos < end <= bytes@.len()
                &&& dec_field_request(bytes@.skip(pos as int)) == Some((v@, end - pos))
            },
            Err(()) => dec_field_request(bytes@.skip(pos as int)) is None,
        },
{
    proof {
        reveal(dec_field_request);
    }
    match read_key(bytes, pos, "request_data") {
        Ok(p1) => {
            proof {
                assert(bytes@.skip(pos as int).skip(p1 - pos) =~= bytes@.skip(p1 as int));
            }
            match RequestData::decode_at(bytes, p1) {
                Ok((v, end)) => Ok((v, end)),
                Err(()) => Err(()),
            }
        },
        Err(()) => Err(()),
    }
}

/// Parses a named byte-run field at position `pos`.
fn read_field_bin(bytes: &[u8], pos: usize, key: &str) -> (r: Result<(Vec<u8>, usize), ()>)
    requires
        pos <= bytes@.len(),
    ensures
        match r {
            Ok((v, end)) => {
                &&& pos < end <= bytes@.len()
                &&& dec_field_bin(bytes@.skip(pos as int), key@) == Some((v@, end - pos))
            },
            Err(()) => dec_field_bin(bytes@.skip(pos as int), key@) is None,
        },
{
    proof {
        reveal(dec_field_bin);
    }
    match read_key(bytes, pos, key) {
        Ok(p1) => {
            proof {
                assert(bytes@.skip(pos as int).skip(p1 - pos) =~= bytes@.skip(p1 as int));
            }
            match read_bin(bytes, p1) {
                Ok((v, end)) => Ok((v, end)),
                Err(()) => Err(()),
            }
        },
        Err(()) => Err(()),
    }
}

/// Parsing an encoded request-descriptor field consumes exactly its
/// encoding and yields the descriptor back.
pub proof fn lemma_dec_field_request_enc(v: RequestDataV, rest: Seq<u8>)
    requires
        request_encodable(v),
    ensures
        dec_field_request(enc_str("request_data"@) + enc_request(v) + rest) == Some((
            v,
            enc_str("request_data"@).len() + enc_request(v).len() as int,
        )),
{
    reveal(dec_field_request);
    lemma_envelope_keys_ascii();
    lemma_ascii_encodable("request_data"@);
    let full = enc_str("request_data"@) + enc_request(v) + rest;
    assert(full =~= enc_str("request_data"@) + (enc_request(v) + rest));
    lemma_dec_key_enc("request_data"@, enc_request(v) + rest);
    assert(full.skip(enc_str("request_data"@).len() as int) =~= enc_request(v) + rest);
    lemma_dec_request_enc(v, rest);
}

/// Parsing an encoded named byte-run field consumes exactly its encoding
/// and yields the bytes back.
pub proof fn lemma_dec_field_bin_enc(key: Seq<char>, v: Seq<u8>, rest: Seq<u8>)
    requires
        str_encodable(key),
        bin_encodable(v),
    ensures
        dec_field_bin(enc_str(key) + enc_bin(v) + rest, key) == Some((
            v,
            enc_str(key).len() + enc_bin(v).len() as int,
        )),
{
    reveal(dec_field_bin);
    let full = enc_str(key) + enc_bin(v) + rest;
    assert(full =~= enc_str(key) + (enc_bin(v) + rest));
    lemma_dec_key_enc(key, enc_bin(v) + rest);
    assert(full.skip(enc_str(key).len() as int) =~= enc_bin(v) + rest);
    crate::codec::lemma_dec_bin_enc(v, rest);
}

/// Mathematical image of a raw-bytes payload envelope.
#[verifier::ext_equal]
pub ghost struct SendBytesDataV {
    pub request_data: RequestDataV,
    pub data: Seq<u8>,
}

/// A request together with a raw byte body.
pub struct SendBytesData {
    pub request_data: RequestData,
    pub data: Vec<u8>,
}

impl View for SendBytesData {
    type V = SendBytesDataV;

    open spec fn view(&self) -> SendBytesDataV {
        SendBytesDataV { request_data: self.request_data@, data: self.data@ }
    }
}

/// A raw-bytes envelope is representable when its parts are.
pub open spec fn send_bytes_encodable(v: SendBytesDataV) -> bool {
    request_encodable(v.request_data) && bin_encodable(v.data)
}

/// Canonical encoding of a raw-bytes envelope.
pub open spec fn enc_send_bytes(v: SendBytesDataV) -> Seq<u8> {
    enc_map_header(2) + enc_str("request_data"@) + enc_request(v.request_data) + enc_str("data"@)
        + enc_bin(v.data)
}

/// The unique parse of a raw-bytes envelope.
#[verifier::opaque]
pub open spec fn dec_send_bytes(s: Seq<u8>) -> Option<(SendBytesDataV, int)> {
    match dec_map_header(s) {
        Option::None => None,
        Option::Some((n, p0)) => if n != 2 {
            None
        } else {
            match dec_field_request(s.skip(p0)) {
                Option::None => None,
                Option::Some((r, k1)) => match dec_field_bin(s.skip(p0 + k1), "data"@) {
                    Option::None => None,
                    Option::Some((d, k2)) => Some((
                        SendBytesDataV { request_data: r, data: d },
                        p0 + k1 + k2,
                    )),
                },
            }
        },
    }
}

impl SendBytesData {
    /// The canonical encoding of this envelope, or an error when a part is
    /// too large for the wire form.
    pub fn encode(&self) -> (r: Result<Vec<u8>, Error>)
        ensures
            r is Ok ==> send_bytes_encodable(self@) && r->Ok_0@ == enc_send_bytes(self@),
            r is Err <==> !send_bytes_encodable(self@),
    {
        if self.data.len() as u64 >= 0x1_0000_0000 {
            return Err(Error::new("payload too large for the wire form"));
        }
        proof {
            lemma_envelope_keys_ascii();
        }
        let mut out: Vec<u8> = Vec::new();
        write_map_header(&mut out, 2);
        write_key(&mut out, "request_data");
        match self.request_data.encode_into(&mut out) {
            Ok(()) => {},
            Err(e) => {
                return Err(e);
            },
        }
        write_key(&mut out, "data");
        write_bin(&mut out, self.data.as_slice());
        proof {
            assert(out@ =~= enc_send_bytes(self@));
        }
        Ok(out)
    }

    /// Parses a whole input as a raw-bytes envelope, rejecting malformed
    /// bytes and trailing bytes.
    pub fn decode(bytes: &[u8]) -> (r: Result<SendBytesData, Error>)
        ensures
            r is Ok ==> dec_send_bytes(bytes@) == Some((r->Ok_0@, bytes@.len() as int)),
            r is Ok ==> bytes@ == enc_send_bytes(r->Ok_0@) && send_bytes_encodable(r->Ok_0@),
            r is Err <==> !match dec_send_bytes(bytes@) {
                Option::Some((v, end)) => end == bytes@.len(),
                Option::None => false,
            },
    {
        proof {
            reveal(dec_send_bytes);
            assert(bytes@.skip(0) =~= bytes@);
        }
        let (count, p0) = match read_map_header(bytes, 0) {
            Ok(x) => x,
            Err(()) => {
                return Err(Error::new("malformed envelope"));
            },
        };
        if count != 2 {
            return Err(Error::new("malformed envelope"));
        }
        let (request_data, p1) = match read_field_request(bytes, p0) {
            Ok(x) => x,
            Err(()) => {
                return Err(Error::new("malformed envelope"));
            },
        };
        proof {
            assert(bytes@.skip(p1 as int) =~= bytes@.skip(0).skip(p1 as int));
        }
        let (data, p2) = match read_field_bin(bytes, p1, "data") {
            Ok(x) => x,
            Err(()) => {
                return Err(Error::new("malformed envelope"));
            },
        };
        if p2 != bytes.len() {
            return Err(Error::new("trailing bytes after envelope"));
        }
        proof {
            lemma_dec_send_bytes_canonical(bytes@);
            assert(bytes@.take(bytes@.len() as int) =~= bytes@);
        }
        Ok(SendBytesData { request_data, data })
    }
}

/// Parsing an encoded raw-bytes envelope consumes exactly that encoding
/// and yields the envelope back, whatever follows it.
pub proof fn lemma_dec_send_bytes_enc(v: SendBytesDataV, rest: Seq<u8>)
    requires
        send_bytes_encodable(v),
    ensures
        dec_send_bytes(enc_send_bytes(v) + rest) == Some((v, enc_send_bytes(v).len() as int)),
{
    reveal(dec_send_bytes);
    lemma_envelope_keys_ascii();
    lemma_ascii_encodable("data"@);
    let a1 = enc_map_header(2);
    let f1 = enc_str("request_data"@) + enc_request(v.request_data);
    let f2 = enc_str("data"@) + enc_bin(v.data);
    let full = enc_send_bytes(v) + rest;
    let t1 = f1 + (f2 + rest);
    assert(full =~= a1 + t1);
    crate::codec::lemma_dec_map_header_enc(2, t1);
    assert(full.skip(a1.len() as int) =~= t1);
    lemma_dec_field_request_enc(v.request_data, f2 + rest);
    assert(t1 =~= enc_str("request_data"@) + enc_request(v.request_data) + (f2 + rest));
    lemma_dec_field_bin_enc("data"@, v.data, rest);
    assert(f2 + rest =~= enc_str("data"@) + enc_bin(v.data) + rest);
    assert(full.skip((a1.len() + f1.len()) as int) =~= f2 + rest);
    let parsed = dec_send_bytes(full)->Some_0;
    assert(parsed.0 =~= v);
    assert(full.len() - rest.len() == enc_send_bytes(v).len());
}

/// Mathematical image of a text payload envelope.
#[verifier::ext_equal]
pub ghost struct SendStringDataV {
    pub request_data: RequestDataV,
    pub data: Seq<char>,
}

/// A request together with a text body.
pub struct SendStringData {
    pub request_data: RequestData,
    pub data: String,
}

impl View for SendStringData {
    type V = SendStringDataV;

    open spec fn view(&self) -> SendStringDataV {
        SendStringDataV { request_data: self.request_data@, data: self.data@ }
    }
}

/// A text envelope is representable when its parts are.
pub open spec fn send_string_encodable(v: SendStringDataV) -> bool {
    request_encodable(v.request_data) && str_encodable(v.data)
}

/// Canonical encoding of a text envelope.
pub open spec fn enc_send_string(v: SendStringDataV) -> Seq<u8> {
    enc_map_header(2) + enc_str("request_data"@) + enc_request(v.request_data) + enc_str("data"@)
        + enc_str(v.data)
}

/// The unique parse of a text envelope.
#[verifier::opaque]
pub open spec fn dec_send_string(s: Seq<u8>) -> Option<(SendStringDataV, int)> {
    match dec_map_header(s) {
        Option::None => None,
        Option::Some((n, p0)) => if n != 2 {
            None
        } else {
            match dec_field_request(s.skip(p0)) {
                Option::None => None,
                Option::Some((r, k1)) => match dec_field_str(s.skip(p0 + k1), "data"@) {
                    Option::None => None,
                    Option::Some((d, k2)) => Some((
                        SendStringDataV { request_data: r, data: d },
                        p0 + k1 + k2,
                    )),
                },
            }
        },
    }
}

impl SendStringData {
    /// The canonical encoding of this envelope, or an error when a part is
    /// too large for the wire form.
    pub fn encode(&self) -> (r: Result<Vec<u8>, Error>)
        ensures
            r is Ok ==> send_string_encodable(self@) && r->Ok_0@ == enc_send_string(self@),
            r is Err <==> !send_string_encodable(self@),
    {
        if self.data.as_str().as_bytes().len() as u64 >= 0x1_0000_0000 {
            return Err(Error::new("payload too large for the wire form"));
        }
        proof {
            lemma_envelope_keys_ascii();
        }
        let mut out: Vec<u8> = Vec::new();
        write_map_header(&mut out, 2);
        write_key(&mut out, "request_data");
        match self.request_data.encode_into(&mut out) {
            Ok(()) => {},
            Err(e) => {
                return Err(e);
            },
        }
        write_key(&mut out, "data");
        write_str(&mut out, self.data.as_str());
        proof {
            assert(out@ =~= enc_send_string(self@));
        }
        Ok(out)
    }

    /// Parses a whole input as a text envelope, rejecting malformed bytes
    /// and trailing bytes.
    pub fn decode(bytes: &[u8]) -> (r: Result<SendStringData, Error>)
        ensures
            r is Ok ==> dec_send_string(bytes@) == Some((r->Ok_0@, bytes@.len() as int)),
            r is Ok ==> bytes@ == enc_send_string(r->Ok_0@) && send_string_encodable(r->Ok_0@),
            r is Err <==> !match dec_send_string(bytes@) {
                Option::Some((v, end)) => end == bytes@.len(),
                Option::None => false,
            },
    {
        proof {
            reveal(dec_send_string);
            assert(bytes@.skip(0) =~= bytes@);
        }
        let (count, p0) = match read_map_header(bytes, 0) {
            Ok(x) => x,
            Err(()) => {
                return Err(Error::new("malformed envelope"));
            },
        };
        if count != 2 {
            return Err(Error::new("malformed envelope"));
        }
        let (request_data, p1) = match read_field_request(bytes, p0) {
            Ok(x) => x,
            Err(()) => {
                return Err(Error::new("malformed envelope"));
            },
        };
        let (data, p2) = match read_field_str(bytes, p1, "data") {
            Ok(x) => x,
            Err(()) => {
                return Err(Error::new("malformed envelope"));
            },
        };
        if p2 != bytes.len() {
            return Err(Error::new("trailing bytes after envelope"));
        }
        proof {
            lemma_dec_send_string_canonical(bytes@);
            assert(bytes@.take(bytes@.len() as int) =~= bytes@);
        }
        Ok(SendStringData { request_data, data })
    }
}

/// Parsing an encoded text envelope consumes exactly that encoding and
/// yields the envelope back, whatever follows it.
pub proof fn lemma_dec_send_string_enc(v: SendStringDataV, rest: Seq<u8>)
    requires
        send_string_encodable(v),
    ensures
        dec_send_string(enc_send_string(v) + rest) == Some((
            v,
            enc_send_string(v).len() as int,
        )),
{
    reveal(dec_send_string);
    lemma_envelope_keys_ascii();
    lemma_ascii_encodable("data"@);
    let a1 = enc_map_header(2);
    let f1 = enc_str("request_data"@) + enc_request(v.request_data);
    let f2 = enc_str("data"@) + enc_str(v.data);
    let full = enc_send_string(v) + rest;
    let t1 = f1 + (f2 + rest);
    assert(full =~= a1 + t1);
    crate::codec::lemma_dec_map_header_enc(2, t1);
    assert(full.skip(a1.len() as int) =~= t1);
    lemma_dec_field_request_enc(v.request_data, f2 + rest);
    assert(t1 =~= enc_str("request_data"@) + enc_request(v.request_data) + (f2 + rest));
    lemma_dec_field_str_enc("data"@, v.data, rest);
    assert(f2 + rest =~= enc_str("data"@) + enc_str(v.data) + rest);
    assert(full.skip((a1.len() + f1.len()) as int) =~= f2 + rest);
    let parsed = dec_send_string(full)->Some_0;
    assert(parsed.0 =~= v);
    assert(full.len() - rest.len() == enc_send_string(v).len());
}

/// Mathematical image of a structured-document payload envelope: the body
/// is text holding a pre-serialized document.
#[verifier::ext_equal]
pub ghost struct SendJsonDataV {
    pub request_data: RequestDataV,
    pub data: Seq<char>,
}

/// A request together with a pre-serialized structured document as body.
pub struct SendJsonData {
    pub request_data: RequestData,
    pub data: String,
}

impl View for SendJsonData {
    type V = SendJsonDataV;

    open spec fn view(&self) -> SendJsonDataV {
        SendJsonDataV { request_data: self.request_data@, data: self.data@ }
    }
}

/// A document envelope is representable when its parts are.
pub open spec fn send_json_encodable(v: SendJsonDataV) -> bool {
    request_encodable(v.request_data) && str_encodable(v.data)
}

/// Canonical encoding of a document envelope.
pub open spec fn enc_send_json(v: SendJsonDataV) -> Seq<u8> {
    enc_map_header(2) + enc_str("request_data"@) + enc_request(v.request_data) + enc_str("data"@)
        + enc_str(v.data)
}

/// The unique parse of a document envelope.
#[verifier::opaque]
pub open spec fn dec_send_json(s: Seq<u8>) -> Option<(SendJsonDataV, int)> {
    match dec_map_header(s) {
        Option::None => None,
        Option::Some((n, p0)) => if n != 2 {
            None
        } else {
            match dec_field_request(s.skip(p0)) {
                Option::None => None,
                Option::Some((r, k1)) => match dec_field_str(s.skip(p0 + k1), "data"@) {
                    Option::None => None,
                    Option::Some((d, k2)) => Some((
                        SendJsonDataV { request_data: r, data: d },
                        p0 + k1 + k2,
                    )),
                },
            }
        },
    }
}

impl SendJsonData {
    /// The canonical encoding of this envelope, or an error when a part is
    /// too large for the wire form.
    pub fn encode(&self) -> (r: Result<Vec<u8>, Error>)
        ensures
            r is Ok ==> send_json_encodable(self@) && r->Ok_0@ == enc_send_json(self@),
            r is Err <==> !send_json_encodable(self@),
    {
        if self.data.as_str().as_bytes().len() as u64 >= 0x1_0000_0000 {
            return Err(Error::new("payload too large for the wire form"));
        }
        proof {
            lemma_envelope_keys_ascii();
        }
        let mut out: Vec<u8> = Vec::new();
        write_map_header(&mut out, 2);
        write_key(&mut out, "request_data");
        match self.request_data.encode_into(&mut out) {
            Ok(()) => {},
            Err(e) => {
                return Err(e);
            },
        }
        write_key(&mut out, "data");
        write_str(&mut out, self.data.as_str());
        proof {
            assert(out@ =~= enc_send_json(self@));
        }
        Ok(out)
    }

    /// Parses a whole input as a document envelope, rejecting malformed
    /// bytes and trailing bytes.
    pub fn decode(bytes: &[u8]) -> (r: Result<SendJsonData, Error>)
        ensures
            r is Ok ==> dec_send_json(bytes@) == Some((r->Ok_0@, bytes@.len() as int)),
            r is Ok ==> bytes@ == enc_send_json(r->Ok_0@) && send_json_encodable(r->Ok_0@),
            r is Err <==> !match dec_send_json(bytes@) {
                Option::Some((v, end)) => end == bytes@.len(),
                Option::None => false,
            },
    {
        proof {
            reveal(dec_send_json);
            assert(bytes@.skip(0) =~= bytes@);
        }
        let (count, p0) = match read_map_header(bytes, 0) {
            Ok(x) => x,
            Err(()) => {
                return Err(Error::new("malformed envelope"));
            },
        };
        if count != 2 {
            return Err(Error::new("malformed envelope"));
        }
        let (request_data, p1) = match read_field_request(bytes, p0) {
            Ok(x) => x,
            Err(()) => {
                return Err(Error::new("malformed envelope"));
            },
        };
        let (data, p2) = match read_field_str(bytes, p1, "data") {
            Ok(x) => x,
            Err(()) => {
                return Err(Error::new("malformed envelope"));
            },
        };
        if p2 != bytes.len() {
            return Err(Error::new("trailing bytes after envelope"));
        }
        proof {
            lemma_dec_send_json_canonical(bytes@);
            assert(bytes@.take(bytes@.len() as int) =~= bytes@);
        }
        Ok(SendJsonData { request_data, data })
    }
}

/// Parsing an encoded document envelope consumes exactly that encoding and
/// yields the envelope back, whatever follows it.
pub proof fn lemma_dec_send_json_enc(v: SendJsonDataV, rest: Seq<u8>)
    requires
        send_json_encodable(v),
    ensures
        dec_send_json(enc_send_json(v) + rest) == Some((v, enc_send_json(v).len() as int)),
{
    reveal(dec_send_json);
    lemma_envelope_keys_ascii();
    lemma_ascii_encodable("data"@);
    let a1 = enc_map_header(2);
    let f1 = enc_str("request_data"@) + enc_request(v.request_data);
    let f2 = enc_str("data"@) + enc_str(v.data);
    let full = enc_send_json(v) + rest;
    let t1 = f1 + (f2 + rest);
    assert(full =~= a1 + t1);
    crate::codec::lemma_dec_map_header_enc(2, t1);
    assert(full.skip(a1.len() as int) =~= t1);
    lemma_dec_field_request_enc(v.request_data, f2 + rest);
    assert(t1 =~= enc_str("request_data"@) + enc_request(v.request_data) + (f2 + rest));
    lemma_dec_field_str_enc("data"@, v.data, rest);
    assert(f2 + rest =~= enc_str("data"@) + enc_str(v.data) + rest);
    assert(full.skip((a1.len() + f1.len()) as int) =~= f2 + rest);
    let parsed = dec_send_json(full)->Some_0;
    assert(parsed.0 =~= v);
    assert(full.len() - rest.len() == enc_send_json(v).len());
}

/// Encoding of one key/value pair of form data: a two-element array.
pub open spec fn enc_pair(p: (Seq<char>, Seq<char>)) -> Seq<u8> {
    enc_array_header(2) + enc_str(p.0) + enc_str(p.1)
}

/// Encoding of a run of key/value pairs, one after the other.
pub open spec fn enc_pair_seq(ps: Seq<(Seq<char>, Seq<char>)>) -> Seq<u8>
    decreases ps.len(),
{
    if ps.len() == 0 {
        Seq::empty()
    } else {
        enc_pair(ps[0]) + enc_pair_seq(ps.drop_first())
    }
}

/// All pairs of a sequence are representable, and so is its count.
pub open spec fn pair_seq_encodable(ps: Seq<(Seq<char>, Seq<char>)>) -> bool {
    ps.len() < 0x1_0000_0000 && forall|i|
        0 <= i < ps.len() ==> str_encodable((#[trigger] ps[i]).0) && str_encodable(ps[i].1)
}

/// Encoding of an array of key/value pairs.
pub open spec fn enc_pair_array(ps: Seq<(Seq<char>, Seq<char>)>) -> Seq<u8> {
    enc_array_header(ps.len()) + enc_pair_seq(ps)
}

/// The unique parse of one key/value pair.
#[verifier::opaque]
pub open spec fn dec_pair(s: Seq<u8>) -> Option<((Seq<char>, Seq<char>), int)> {
    match dec_array_header(s) {
        Option::None => None,
        Option::Some((n, h)) => if n != 2 {
            None
        } else {
            match dec_str(s.skip(h)) {
                Option::None => None,
                Option::Some((a, k1)) => match dec_str(s.skip(h + k1)) {
                    Option::None => None,
                    Option::Some((b, k2)) => Some(((a, b), h + k1 + k2)),
                },
            }
        },
    }
}

/// The unique parse of `n` consecutive key/value pairs.
pub open spec fn dec_pair_seq(s: Seq<u8>, n: nat) -> Option<(Seq<(Seq<char>, Seq<char>)>, int)>
    decreases n,
{
    if n == 0 {
        Some((Seq::empty(), 0))
    } else {
        match dec_pair(s) {
            Option::None => None,
            Option::Some((p, k)) => match dec_pair_seq(s.skip(k), (n - 1) as nat) {
                Option::None => None,
                Option::Some((ps, m)) => Some((seq![p] + ps, k + m)),
            },
        }
    }
}

/// The unique parse of an array of key/value pairs.
pub open spec fn dec_pair_array(s: Seq<u8>) -> Option<(Seq<(Seq<char>, Seq<char>)>, int)> {
    match dec_array_header(s) {
        Option::None => None,
        Option::Some((n, h)) => match dec_pair_seq(s.skip(h), n) {
            Option::None => None,
            Option::Some((ps, m)) => Some((ps, h + m)),
        },
    }
}

/// Extending a pair sequence by one pair appends that pair's encoding.
pub proof fn lemma_enc_pair_seq_snoc(ps: Seq<(Seq<char>, Seq<char>)>, i: int)
    requires
        0 <= i < ps.len(),
    ensures
        enc_pair_seq(ps.take(i + 1)) == enc_pair_seq(ps.take(i)) + enc_pair(ps[i]),
    decreases i,
{
    if i == 0 {
        assert(ps.take(1).drop_first() =~= Seq::<(Seq<char>, Seq<char>)>::empty());
        assert(enc_pair_seq(Seq::<(Seq<char>, Seq<char>)>::empty()) == Seq::<u8>::empty());
        assert(ps.take(1)[0] == ps[0]);
        assert(enc_pair_seq(ps.take(1)) == enc_pair(ps[0]) + Seq::<u8>::empty());
        assert(ps.take(0) =~= Seq::<(Seq<char>, Seq<char>)>::empty());
        assert(enc_pair_seq(ps.take(1)) =~= enc_pair_seq(ps.take(0)) + enc_pair(ps[0]));
    } else {
        let t = ps.drop_first();
        lemma_enc_pair_seq_snoc(t, i - 1);
        assert(ps.take(i + 1).drop_first() =~= t.take(i));
        assert(ps.take(i).drop_first() =~= t.take(i - 1));
        assert(ps.take(i + 1)[0] == ps[0] && ps.take(i)[0] == ps[0]);
        assert(enc_pair_seq(ps.take(i + 1)) == enc_pair(ps[0]) + enc_pair_seq(t.take(i)));
        assert(enc_pair_seq(ps.take(i)) == enc_pair(ps[0]) + enc_pair_seq(t.take(i - 1)));
        assert(enc_pair(ps[0]) + (enc_pair_seq(t.take(i - 1)) + enc_pair(t[i - 1])) =~= (enc_pair(
            ps[0],
        ) + enc_pair_seq(t.take(i - 1))) + enc_pair(ps[i]));
    }
}

/// True exactly when every pair of `v` is representable.
fn check_pair_vec(v: &Vec<(String, String)>) -> (r: bool)
    ensures
        r <==> pair_seq_encodable(v.deep_view()),
{
    let ghost dv = v.deep_view();
    if v.len() as u64 >= 0x1_0000_0000 {
        return false;
    }
    for i in 0..v.len()
        invariant
            dv == v.deep_view(),
            dv.len() == v.len() < 0x1_0000_0000,
            forall|j|
                0 <= j < i ==> str_encodable((#[trigger] dv[j]).0) && str_encodable(dv[j].1),
    {
        assert(dv[i as int] == (v@[i as int].0@, v@[i as int].1@));
        if v[i].0.as_str().as_bytes().len() as u64 >= 0x1_0000_0000 {
            assert(!str_encodable(dv[i as int].0));
            return false;
        }
        if v[i].1.as_str().as_bytes().len() as u64 >= 0x1_0000_0000 {
            assert(!str_encodable(dv[i as int].1));
            return false;
        }
        assert(str_encodable(dv[i as int].0) && str_encodable(dv[i as int].1));
    }
    true
}

/// Appends the encoding of one key/value pair.
fn write_pair(out: &mut Vec<u8>, a: &str, b: &str)
    requires
        str_encodable(a@),
        str_encodable(b@),
    ensures
        final(out)@ == old(out)@ + enc_pair((a@, b@)),
{
    write_array_header(out, 2);
    write_str(out, a);
    write_str(out, b);
    proof {
        assert(out@ =~= old(out)@ + enc_pair((a@, b@)));
    }
}

/// Appends the encoding of an array of key/value pairs.
fn write_pair_vec(out: &mut Vec<u8>, v: &Vec<(String, String)>)
    requires
        pair_seq_encodable(v.deep_view()),
    ensures
        final(out)@ == old(out)@ + enc_pair_array(v.deep_view()),
{
    let ghost dv = v.deep_view();
    let ghost base = out@ + enc_array_header(dv.len());
    write_array_header(out, v.len());
    assert(out@ == base + enc_pair_seq(dv.take(0)));
    for i in 0..v.len()
        invariant
            dv == v.deep_view(),
            dv.len() == v.len(),
            pair_seq_encodable(dv),
            out@ == base + enc_pair_seq(dv.take(i as int)),
    {
        assert(dv[i as int] == (v@[i as int].0@, v@[i as int].1@));
        write_pair(out, v[i].0.as_str(), v[i].1.as_str());
        proof {
            lemma_enc_pair_seq_snoc(dv, i as int);
            assert(out@ =~= base + enc_pair_seq(dv.take(i + 1)));
        }
    }
    assert(dv.take(dv.len() as int) =~= dv);
}

/// Parses one key/value pair at position `pos`, exactly as [`dec_pair`]
/// reads the remainder of the input.
fn read_pair(bytes: &[u8], pos: usize) -> (r: Result<((String, String), usize), ()>)
    requires
        pos <= bytes@.len(),
    ensures
        match r {
            Ok((p, end)) => {
                &&& pos < end <= bytes@.len()
                &&& dec_pair(bytes@.skip(pos as int)) == Some(((p.0@, p.1@), end - pos))
            },
            Err(()) => dec_pair(bytes@.skip(pos as int)) is None,
        },
{
    proof {
        reveal(dec_pair);
    }
    let ghost s = bytes@.skip(pos as int);
    let (count, p0) = match read_array_header(bytes, pos) {
        Ok(x) => x,
        Err(()) => {
            return Err(());
        },
    };
    if count != 2 {
        return Err(());
    }
    proof {
        assert(s.skip(p0 - pos) =~= bytes@.skip(p0 as int));
    }
    let (a, p1) = match read_str(bytes, p0) {
        Ok(x) => x,
        Err(()) => {
            return Err(());
        },
    };
    proof {
        assert(s.skip(p1 - pos) =~= bytes@.skip(p1 as int));
    }
    let (b, p2) = match read_str(bytes, p1) {
        Ok(x) => x,
        Err(()) => {
            return Err(());
        },
    };
    Ok(((a, b), p2))
}

/// Parses an array of key/value pairs at position `pos`, exactly as
/// [`dec_pair_array`] reads the remainder of the input.
#[verifier::rlimit(100)]
#[verifier::spinoff_prover]
fn read_pair_vec(bytes: &[u8], pos: usize) -> (r: Result<(Vec<(String, String)>, usize), ()>)
    requires
        pos <= bytes@.len(),
    ensures
        match r {
            Ok((v, end)) => {
                &&& pos < end <= bytes@.len()
                &&& dec_pair_array(bytes@.skip(pos as int)) == Some((
                    v.deep_view(),
                    end - pos,
                ))
            },
            Err(()) => dec_pair_array(bytes@.skip(pos as int)) is None,
        },
{
    let (count, body) = match read_array_header(bytes, pos) {
        Ok(x) => x,
        Err(()) => {
            return Err(());
        },
    };
    let ghost s0 = bytes@.skip(body as int);
    let mut acc: Vec<(String, String)> = Vec::new();
    let mut p = body;
    let mut i: usize = 0;
    while i < count
        invariant
            pos < body <= p <= bytes@.len(),
            i <= count,
            s0 == bytes@.skip(body as int),
            dec_array_header(bytes@.skip(pos as int)) == Some((count as nat, body - pos)),
            match dec_pair_seq(bytes@.skip(p as int), (count - i) as nat) {
                Option::None => dec_pair_seq(s0, count as nat) is None,
                Option::Some((ps, m)) => dec_pair_seq(s0, count as nat) == Some((
                    acc.deep_view() + ps,
                    (p - body) + m,
                )),
            },
        decreases count - i,
    {
        let ghost tail = bytes@.skip(p as int);
        let ghost remaining = (count - i) as nat;
        match read_pair(bytes, p) {
            Ok((pair, end)) => {
                proof {
                    let (c, k) = dec_pair(tail)->Some_0;
                    assert(tail.skip(k) =~= bytes@.skip(end as int));
                }
                let ghost old_acc = acc.deep_view();
                let ghost pv = (pair.0@, pair.1@);
                acc.push(pair);
                proof {
                    assert(acc.deep_view() =~= old_acc + seq![pv]);
                    match dec_pair_seq(bytes@.skip(end as int), (count - i - 1) as nat) {
                        Option::None => {},
                        Option::Some((ps2, m2)) => {
                            assert((old_acc + seq![pv]) + ps2 =~= old_acc + (seq![pv] + ps2));
                        },
                    }
                }
                p = end;
            },
            Err(()) => {
                proof {
                    assert(dec_pair_seq(tail, remaining) is None);
                    assert(bytes@.skip(pos as int).skip(body - pos) =~= s0);
                }
                return Err(());
            },
        }
        i = i + 1;
    }
    proof {
        assert(dec_pair_seq(bytes@.skip(p as int), 0) == Some((
            Seq::<(Seq<char>, Seq<char>)>::empty(),
            0int,
        )));
        assert(acc.deep_view() + Seq::<(Seq<char>, Seq<char>)>::empty() =~= acc.deep_view());
        assert(bytes@.skip(pos as int).skip(body - pos) =~= s0);
    }
    Ok((acc, p))
}

/// Parsing an encoded pair consumes exactly that encoding and yields the
/// pair back, whatever follows it.
pub proof fn lemma_dec_pair_enc(p: (Seq<char>, Seq<char>), rest: Seq<u8>)
    requires
        str_encodable(p.0),
        str_encodable(p.1),
    ensures
        dec_pair(enc_pair(p) + rest) == Some((p, enc_pair(p).len() as int)),
{
    reveal(dec_pair);
    let a1 = enc_array_header(2);
    let a2 = enc_str(p.0);
    let a3 = enc_str(p.1);
    let full = enc_pair(p) + rest;
    assert(full =~= a1 + (a2 + (a3 + rest)));
    crate::codec::lemma_dec_array_header_enc(2, a2 + (a3 + rest));
    assert(full.skip(a1.len() as int) =~= a2 + (a3 + rest));
    crate::codec::lemma_dec_str_enc(p.0, a3 + rest);
    assert(full.skip((a1.len() + a2.len()) as int) =~= a3 + rest);
    crate::codec::lemma_dec_str_enc(p.1, rest);
    assert(dec_pair(full)->Some_0.0 == p);
}

/// Parsing an encoded run of pairs consumes exactly that encoding and
/// yields the pairs back, whatever follows them.
pub proof fn lemma_dec_pair_seq_enc(ps: Seq<(Seq<char>, Seq<char>)>, rest: Seq<u8>)
    requires
        forall|i|
            0 <= i < ps.len() ==> str_encodable((#[trigger] ps[i]).0) && str_encodable(ps[i].1),
    ensures
        dec_pair_seq(enc_pair_seq(ps) + rest, ps.len()) == Some((
            ps,
            enc_pair_seq(ps).len() as int,
        )),
    decreases ps.len(),
{
    if ps.len() == 0 {
        assert(enc_pair_seq(ps) + rest =~= rest);
        assert(Seq::<(Seq<char>, Seq<char>)>::empty() =~= ps);
    } else {
        let t = ps.drop_first();
        let full = enc_pair_seq(ps) + rest;
        assert(full =~= enc_pair(ps[0]) + (enc_pair_seq(t) + rest));
        lemma_dec_pair_enc(ps[0], enc_pair_seq(t) + rest);
        assert(full.skip(enc_pair(ps[0]).len() as int) =~= enc_pair_seq(t) + rest);
        lemma_dec_pair_seq_enc(t, rest);
        assert(seq![ps[0]] + t =~= ps);
    }
}

/// Parsing an encoded array of pairs consumes exactly that encoding and
/// yields the pairs back, whatever follows them.
pub proof fn lemma_dec_pair_array_enc(ps: Seq<(Seq<char>, Seq<char>)>, rest: Seq<u8>)
    requires
        pair_seq_encodable(ps),
    ensures
        dec_pair_array(enc_pair_array(ps) + rest) == Some((
            ps,
            enc_pair_array(ps).len() as int,
        )),
{
    let full = enc_pair_array(ps) + rest;
    assert(full =~= enc_array_header(ps.len()) + (enc_pair_seq(ps) + rest));
    crate::codec::lemma_dec_array_header_enc(ps.len(), enc_pair_seq(ps) + rest);
    assert(full.skip(enc_array_header(ps.len()).len() as int) =~= enc_pair_seq(ps) + rest);
    lemma_dec_pair_seq_enc(ps, rest);
}

/// Mathematical image of a form payload envelope.
#[verifier::ext_equal]
pub ghost struct SendFormDataV {
    pub request_data: RequestDataV,
    pub data: Seq<(Seq<char>, Seq<char>)>,
}

/// A request together with form data: ordered key/value text pairs.
pub struct SendFormData {
    pub request_data: RequestData,
    pub data: Vec<(String, String)>,
}

impl View for SendFormData {
    type V = SendFormDataV;

    open spec fn view(&self) -> SendFormDataV {
        SendFormDataV { request_data: self.request_data@, data: self.data.deep_view() }
    }
}

/// A form envelope is representable when its parts are.
pub open spec fn send_form_encodable(v: SendFormDataV) -> bool {
    request_encodable(v.request_data) && pair_seq_encodable(v.data)
}

/// Canonical encoding of a form envelope.
pub open spec fn enc_send_form(v: SendFormDataV) -> Seq<u8> {
    enc_map_header(2) + enc_str("request_data"@) + enc_request(v.request_data) + enc_str("data"@)
        + enc_pair_array(v.data)
}

/// The parse of a named array-of-pairs field.
#[verifier::opaque]
pub open spec fn dec_field_pairs(s: Seq<u8>, key: Seq<char>) -> Option<(
    Seq<(Seq<char>, Seq<char>)>,
    int,
)> {
    match dec_key(s, key) {
        Option::None => None,
        Option::Some(k) => match dec_pair_array(s.skip(k)) {
            Option::None => None,
            Option::Some((v, m)) => Some((v, k + m)),
        },
    }
}

/// Parses a named array-of-pairs field at position `pos`.
fn read_field_pairs(bytes: &[u8], pos: usize, key: &str) -> (r: Result<
    (Vec<(String, String)>, usize),
    (),
>)
    requires
        pos <= bytes@.len(),
    ensures
        match r {
            Ok((v, end)) => {
                &&& pos < end <= bytes@.len()
                &&& dec_field_pairs(bytes@.skip(pos as int), key@) == Some((
                    v.deep_view(),
                    end - pos,
                ))
            },
            Err(()) => dec_field_pairs(bytes@.skip(pos as int), key@) is None,
        },
{
    proof {
        reveal(dec_field_pairs);
    }
    match read_key(bytes, pos, key) {
        Ok(p1) => {
            proof {
                assert(bytes@.skip(pos as int).skip(p1 - pos) =~= bytes@.skip(p1 as int));
            }
            match read_pair_vec(bytes, p1) {
                Ok((v, end)) => Ok((v, end)),
                Err(()) => Err(()),
            }
        },
        Err(()) => Err(()),
    }
}

/// Parsing an encoded named array-of-pairs field consumes exactly its
/// encoding and yields the pairs back.
pub proof fn lemma_dec_field_pairs_enc(
    key: Seq<char>,
    ps: Seq<(Seq<char>, Seq<char>)>,
    rest: Seq<u8>,
)
    requires
        str_encodable(key),
        pair_seq_encodable(ps),
    ensures
        dec_field_pairs(enc_str(key) + enc_pair_array(ps) + rest, key) == Some((
            ps,
            enc_str(key).len() + enc_pair_array(ps).len() as int,
        )),
{
    reveal(dec_field_pairs);
    let full = enc_str(key) + enc_pair_array(ps) + rest;
    assert(full =~= enc_str(key) + (enc_pair_array(ps) + rest));
    lemma_dec_key_enc(key, enc_pair_array(ps) + rest);
    assert(full.skip(enc_str(key).len() as int) =~= enc_pair_array(ps) + rest);
    lemma_dec_pair_array_enc(ps, rest);
}

/// The unique parse of a form envelope.
#[verifier::opaque]
pub open spec fn dec_send_form(s: Seq<u8>) -> Option<(SendFormDataV, int)> {
    match dec_map_header(s) {
        Option::None => None,
        Option::Some((n, p0)) => if n != 2 {
            None
        } else {
            match dec_field_request(s.skip(p0)) {
                Option::None => None,
                Option::Some((r, k1)) => match dec_field_pairs(s.skip(p0 + k1), "data"@) {
                    Option::None => None,
                    Option::Some((d, k2)) => Some((
                        SendFormDataV { request_data: r, data: d },
                        p0 + k1 + k2,
                    )),
                },
            }
        },
    }
}

impl SendFormData {
    /// The canonical encoding of this envelope, or an error when a part is
    /// too large for the wire form.
    pub fn encode(&self) -> (r: Result<Vec<u8>, Error>)
        ensures
            r is Ok ==> send_form_encodable(self@) && r->Ok_0@ == enc_send_form(self@),
            r is Err <==> !send_form_encodable(self@),
    {
        if !check_pair_vec(&self.data) {
            return Err(Error::new("payload too large for the wire form"));
        }
        proof {
            lemma_envelope_keys_ascii();
        }
        let mut out: Vec<u8> = Vec::new();
        write_map_header(&mut out, 2);
        write_key(&mut out, "request_data");
        match self.request_data.encode_into(&mut out) {
            Ok(()) => {},
            Err(e) => {
                return Err(e);
            },
        }
        write_key(&mut out, "data");
        write_pair_vec(&mut out, &self.data);
        proof {
            assert(out@ =~= enc_send_form(self@));
        }
        Ok(out)
    }

    /// Parses a whole input as a form envelope, rejecting malformed bytes
    /// and trailing bytes.
    pub fn decode(bytes: &[u8]) -> (r: Result<SendFormData, Error>)
        ensures
            r is Ok ==> dec_send_form(bytes@) == Some((r->Ok_0@, bytes@.len() as int)),
            r is Ok ==> bytes@ == enc_send_form(r->Ok_0@) && send_form_encodable(r->Ok_0@),
            r is Err <==> !match dec_send_form(bytes@) {
                Option::Some((v, end)) => end == bytes@.len(),
                Option::None => false,
            },
    {
        proof {
            reveal(dec_send_form);
            assert(bytes@.skip(0) =~= bytes@);
        }
        let (count, p0) = match read_map_header(bytes, 0) {
            Ok(x) => x,
            Err(()) => {
                return Err(Error::new("malformed envelope"));
            },
        };
        if count != 2 {
            return Err(Error::new("malformed envelope"));
        }
        let (request_data, p1) = match read_field_request(bytes, p0) {
            Ok(x) => x,
            Err(()) => {
                return Err(Error::new("malformed envelope"));
            },
        };
        let (data, p2) = match read_field_pairs(bytes, p1, "data") {
            Ok(x) => x,
            Err(()) => {
                return Err(Error::new("malformed envelope"));
            },
        };
        if p2 != bytes.len() {
            return Err(Error::new("trailing bytes after envelope"));
        }
        proof {
            lemma_dec_send_form_canonical(bytes@);
            assert(bytes@.take(bytes@.len() as int) =~= bytes@);
        }
        Ok(SendFormData { request_data, data })
    }
}

/// Parsing an encoded form envelope consumes exactly that encoding and
/// yields the envelope back, whatever follows it.
pub proof fn lemma_dec_send_form_enc(v: SendFormDataV, rest: Seq<u8>)
    requires
        send_form_encodable(v),
    ensures
        dec_send_form(enc_send_form(v) + rest) == Some((v, enc_send_form(v).len() as int)),
{
    reveal(dec_send_form);
    lemma_envelope_keys_ascii();
    lemma_ascii_encodable("data"@);
    let a1 = enc_map_header(2);
    let f1 = enc_str("request_data"@) + enc_request(v.request_data);
    let f2 = enc_str("data"@) + enc_pair_array(v.data);
    let full = enc_send_form(v) + rest;
    let t1 = f1 + (f2 + rest);
    assert(full =~= a1 + t1);
    crate::codec::lemma_dec_map_header_enc(2, t1);
    assert(full.skip(a1.len() as int) =~= t1);
    lemma_dec_field_request_enc(v.request_data, f2 + rest);
    assert(t1 =~= enc_str("request_data"@) + enc_request(v.request_data) + (f2 + rest));
    lemma_dec_field_pairs_enc("data"@, v.data, rest);
    assert(f2 + rest =~= enc_str("data"@) + enc_pair_array(v.data) + rest);
    assert(full.skip((a1.len() + f1.len()) as int) =~= f2 + rest);
    let parsed = dec_send_form(full)->Some_0;
    assert(parsed.0 =~= v);
    assert(full.len() - rest.len() == enc_send_form(v).len());
}

/// Round trip: decoding the encoding of any representable request
/// descriptor yields that descriptor, with nothing left over.
pub proof fn lemma_request_round_trip(v: RequestDataV)
    requires
        request_encodable(v),
    ensures
        dec_request(enc_request(v)) == Some((v, enc_request(v).len() as int)),
{
    lemma_dec_request_enc(v, Seq::empty());
    assert(enc_request(v) + Seq::<u8>::empty() =~= enc_request(v));
}

/// Round trip for the raw-bytes envelope.
pub proof fn lemma_send_bytes_round_trip(v: SendBytesDataV)
    requires
        send_bytes_encodable(v),
    ensures
        dec_send_bytes(enc_send_bytes(v)) == Some((v, enc_send_bytes(v).len() as int)),
{
    lemma_dec_send_bytes_enc(v, Seq::empty());
    assert(enc_send_bytes(v) + Seq::<u8>::empty() =~= enc_send_bytes(v));
}

/// Round trip for the text envelope.
pub proof fn lemma_send_string_round_trip(v: SendStringDataV)
    requires
        send_string_encodable(v),
    ensures
        dec_send_string(enc_send_string(v)) == Some((v, enc_send_string(v).len() as int)),
{
    lemma_dec_send_string_enc(v, Seq::empty());
    assert(enc_send_string(v) + Seq::<u8>::empty() =~= enc_send_string(v));
}

/// Round trip for the structured-document envelope.
pub proof fn lemma_send_json_round_trip(v: SendJsonDataV)
    requires
        send_json_encodable(v),
    ensures
        dec_send_json(enc_send_json(v)) == Some((v, enc_send_json(v).len() as int)),
{
    lemma_dec_send_json_enc(v, Seq::empty());
    assert(enc_send_json(v) + Seq::<u8>::empty() =~= enc_send_json(v));
}

/// Round trip for the form envelope.
pub proof fn lemma_send_form_round_trip(v: SendFormDataV)
    requires
        send_form_encodable(v),
    ensures
        dec_send_form(enc_send_form(v)) == Some((v, enc_send_form(v).len() as int)),
{
    lemma_dec_send_form_enc(v, Seq::empty());
    assert(enc_send_form(v) + Seq::<u8>::empty() =~= enc_send_form(v));
}

/// A parsed run of texts re-encodes to exactly the bytes it was parsed
/// from, and every text of it is representable.
pub proof fn lemma_dec_str_seq_canonical(s: Seq<u8>, n: nat)
    requires
        dec_str_seq(s, n) is Some,
    ensures
        ({
            let (cs, k) = dec_str_seq(s, n)->Some_0;
            &&& 0 <= k <= s.len()
            &&& s.take(k) =~= enc_str_seq(cs)
            &&& cs.len() == n
            &&& forall|i| 0 <= i < cs.len() ==> str_encodable(#[trigger] cs[i])
        }),
    decreases n,
{
    if n == 0 {
    } else {
        let (cs, k) = dec_str_seq(s, n)->Some_0;
        let (c, k1) = dec_str(s)->Some_0;
        crate::codec::lemma_dec_str_canonical(s);
        lemma_dec_str_seq_canonical(s.skip(k1), (n - 1) as nat);
        let (cs2, m) = dec_str_seq(s.skip(k1), (n - 1) as nat)->Some_0;
        assert(s.take(k) =~= s.take(k1) + s.skip(k1).take(m));
        assert(cs == seq![c] + cs2);
        assert(cs.drop_first() =~= cs2);
        assert(cs[0] == c);
        assert(enc_str_seq(cs) == enc_str(c) + enc_str_seq(cs2));
        assert(forall|i| 0 <= i < cs.len() ==> str_encodable(#[trigger] cs[i])) by {
            assert(forall|i| 1 <= i < cs.len() ==> cs[i] == cs2[i - 1]);
        }
    }
}

/// A parsed array of texts re-encodes to exactly the bytes it was parsed
/// from, and is representable.
pub proof fn lemma_dec_str_array_canonical(s: Seq<u8>)
    requires
        dec_str_array(s) is Some,
    ensures
        ({
            let (cs, k) = dec_str_array(s)->Some_0;
            &&& 0 < k <= s.len()
            &&& s.take(k) =~= enc_str_array(cs)
            &&& str_seq_encodable(cs)
        }),
{
    let (n, h) = dec_array_header(s)->Some_0;
    crate::codec::lemma_dec_array_header_canonical(s);
    lemma_dec_str_seq_canonical(s.skip(h), n);
    let (cs, m) = dec_str_seq(s.skip(h), n)->Some_0;
    assert(s.take(h + m) =~= s.take(h) + s.skip(h).take(m));
}

/// A parsed field name re-encodes to exactly the bytes it was parsed from.
pub proof fn lemma_dec_key_canonical(s: Seq<u8>, key: Seq<char>)
    requires
        dec_key(s, key) is Some,
    ensures
        ({
            let k = dec_key(s, key)->Some_0;
            &&& 0 < k <= s.len()
            &&& s.take(k) =~= enc_str(key)
            &&& str_encodable(key)
        }),
{
    reveal(dec_key);
    crate::codec::lemma_dec_str_canonical(s);
}

/// A parsed named text field re-encodes to exactly the bytes it was parsed
/// from.
pub proof fn lemma_dec_field_str_canonical(s: Seq<u8>, key: Seq<char>)
    requires
        dec_field_str(s, key) is Some,
    ensures
        ({
            let (v, k) = dec_field_str(s, key)->Some_0;
            &&& 0 < k <= s.len()
            &&& s.take(k) =~= enc_str(key) + enc_str(v)
            &&& str_encodable(v)
        }),
{
    reveal(dec_field_str);
    let k1 = dec_key(s, key)->Some_0;
    lemma_dec_key_canonical(s, key);
    crate::codec::lemma_dec_str_canonical(s.skip(k1));
    let (v, m) = dec_str(s.skip(k1))->Some_0;
    assert(s.take(k1 + m) =~= s.take(k1) + s.skip(k1).take(m));
}

/// A parsed named array-of-text field re-encodes to exactly the bytes it
/// was parsed from.
pub proof fn lemma_dec_field_str_array_canonical(s: Seq<u8>, key: Seq<char>)
    requires
        dec_field_str_array(s, key) is Some,
    ensures
        ({
            let (v, k) = dec_field_str_array(s, key)->Some_0;
            &&& 0 < k <= s.len()
            &&& s.take(k) =~= enc_str(key) + enc_str_array(v)
            &&& str_seq_encodable(v)
        }),
{
    reveal(dec_field_str_array);
    let k1 = dec_key(s, key)->Some_0;
    lemma_dec_key_canonical(s, key);
    lemma_dec_str_array_canonical(s.skip(k1));
    let (v, m) = dec_str_array(s.skip(k1))->Some_0;
    assert(s.take(k1 + m) =~= s.take(k1) + s.skip(k1).take(m));
}

/// A parsed method field re-encodes to exactly the bytes it was parsed
/// from.
pub proof fn lemma_dec_field_method_canonical(s: Seq<u8>)
    requires
        dec_field_method(s) is Some,
    ensures
        ({
            let (m, k) = dec_field_method(s)->Some_0;
            &&& 0 < k <= s.len()
            &&& s.take(k) =~= enc_str("method"@) + enc_str(method_str(m))
        }),
{
    reveal(dec_field_method);
    lemma_dec_field_str_canonical(s, "method"@);
    let (tok, k) = dec_field_str(s, "method"@)->Some_0;
    let (m, _) = dec_field_method(s)->Some_0;
    assert(method_str(m) == tok);
}

/// A parsed request descriptor re-encodes to exactly the bytes it was
/// parsed from, and is representable: the wire form is canonical.
#[verifier::rlimit(100)]
#[verifier::spinoff_prover]
pub proof fn lemma_dec_request_canonical(s: Seq<u8>)
    requires
        dec_request(s) is Some,
    ensures
        ({
            let (v, k) = dec_request(s)->Some_0;
            &&& 0 < k <= s.len()
            &&& s.take(k) =~= enc_request(v)
            &&& request_encodable(v)
        }),
{
    reveal(dec_request);
    let (v, k) = dec_request(s)->Some_0;
    let (n, p0) = dec_map_header(s)->Some_0;
    crate::codec::lemma_dec_map_header_canonical(s);
    let t1 = s.skip(p0);
    let (url, k1) = dec_field_str(t1, "url"@)->Some_0;
    lemma_dec_field_str_canonical(t1, "url"@);
    let t2 = s.skip(p0 + k1);
    assert(t2 =~= t1.skip(k1));
    let (headers, k2) = dec_field_str_array(t2, "headers"@)->Some_0;
    lemma_dec_field_str_array_canonical(t2, "headers"@);
    let t3 = s.skip(p0 + k1 + k2);
    assert(t3 =~= t2.skip(k2));
    let (queries, k3) = dec_field_str_array(t3, "queries"@)->Some_0;
    lemma_dec_field_str_array_canonical(t3, "queries"@);
    let t4 = s.skip(p0 + k1 + k2 + k3);
    assert(t4 =~= t3.skip(k3));
    let (method, k4) = dec_field_method(t4)->Some_0;
    lemma_dec_field_method_canonical(t4);
    assert(s.take(k) =~= s.take(p0) + (t1.take(k1) + (t2.take(k2) + (t3.take(k3) + t4.take(
        k4,
    )))));
}

/// A parsed request-descriptor field re-encodes to exactly the bytes it
/// was parsed from.
pub proof fn lemma_dec_field_request_canonical(s: Seq<u8>)
    requires
        dec_field_request(s) is Some,
    ensures
        ({
            let (v, k) = dec_field_request(s)->Some_0;
            &&& 0 < k <= s.len()
            &&& s.take(k) =~= enc_str("request_data"@) + enc_request(v)
            &&& request_encodable(v)
        }),
{
    reveal(dec_field_request);
    let k1 = dec_key(s, "request_data"@)->Some_0;
    lemma_dec_key_canonical(s, "request_data"@);
    lemma_dec_request_canonical(s.skip(k1));
    let (v, m) = dec_request(s.skip(k1))->Some_0;
    assert(s.take(k1 + m) =~= s.take(k1) + s.skip(k1).take(m));
}

/// A parsed named byte-run field re-encodes to exactly the bytes it was
/// parsed from.
pub proof fn lemma_dec_field_bin_canonical(s: Seq<u8>, key: Seq<char>)
    requires
        dec_field_bin(s, key) is Some,
    ensures
        ({
            let (v, k) = dec_field_bin(s, key)->Some_0;
            &&& 0 < k <= s.len()
            &&& s.take(k) =~= enc_str(key) + enc_bin(v)
            &&& bin_encodable(v)
        }),
{
    reveal(dec_field_bin);
    let k1 = dec_key(s, key)->Some_0;
    lemma_dec_key_canonical(s, key);
    crate::codec::lemma_dec_bin_canonical(s.skip(k1));
    let (v, m) = dec_bin(s.skip(k1))->Some_0;
    assert(s.take(k1 + m) =~= s.take(k1) + s.skip(k1).take(m));
}

/// A parsed raw-bytes envelope re-encodes to exactly the bytes it was
/// parsed from, and is representable: the wire form is canonical.
pub proof fn lemma_dec_send_bytes_canonical(s: Seq<u8>)
    requires
        dec_send_bytes(s) is Some,
    ensures
        ({
            let (v, k) = dec_send_bytes(s)->Some_0;
            &&& 0 < k <= s.len()
            &&& s.take(k) =~= enc_send_bytes(v)
            &&& send_bytes_encodable(v)
        }),
{
    reveal(dec_send_bytes);
    let (n, p0) = dec_map_header(s)->Some_0;
    crate::codec::lemma_dec_map_header_canonical(s);
    let t1 = s.skip(p0);
    let (r, k1) = dec_field_request(t1)->Some_0;
    lemma_dec_field_request_canonical(t1);
    let t2 = s.skip(p0 + k1);
    assert(t2 =~= t1.skip(k1));
    let (d, k2) = dec_field_bin(t2, "data"@)->Some_0;
    lemma_dec_field_bin_canonical(t2, "data"@);
    let (v, k) = dec_send_bytes(s)->Some_0;
    assert(s.take(k) =~= s.take(p0) + (t1.take(k1) + t2.take(k2)));
}

/// A parsed text envelope re-encodes to exactly the bytes it was parsed
/// from, and is representable.
pub proof fn lemma_dec_send_string_canonical(s: Seq<u8>)
    requires
        dec_send_string(s) is Some,
    ensures
        ({
            let (v, k) = dec_send_string(s)->Some_0;
            &&& 0 < k <= s.len()
            &&& s.take(k) =~= enc_send_string(v)
            &&& send_string_encodable(v)
        }),
{
    reveal(dec_send_string);
    let (n, p0) = dec_map_header(s)->Some_0;
    crate::codec::lemma_dec_map_header_canonical(s);
    let t1 = s.skip(p0);
    let (r, k1) = dec_field_request(t1)->Some_0;
    lemma_dec_field_request_canonical(t1);
    let t2 = s.skip(p0 + k1);
    assert(t2 =~= t1.skip(k1));
    let (d, k2) = dec_field_str(t2, "data"@)->Some_0;
    lemma_dec_field_str_canonical(t2, "data"@);
    let (v, k) = dec_send_string(s)->Some_0;
    assert(s.take(k) =~= s.take(p0) + (t1.take(k1) + t2.take(k2)));
}

/// A parsed document envelope re-encodes to exactly the bytes it was
/// parsed from, and is representable.
pub proof fn lemma_dec_send_json_canonical(s: Seq<u8>)
    requires
        dec_send_json(s) is Some,
    ensures
        ({
            let (v, k) = dec_send_json(s)->Some_0;
            &&& 0 < k <= s.len()
            &&& s.take(k) =~= enc_send_json(v)
            &&& send_json_encodable(v)
        }),
{
    reveal(dec_send_json);
    let (n, p0) = dec_map_header(s)->Some_0;
    crate::codec::lemma_dec_map_header_canonical(s);
    let t1 = s.skip(p0);
    let (r, k1) = dec_field_request(t1)->Some_0;
    lemma_dec_field_request_canonical(t1);
    let t2 = s.skip(p0 + k1);
    assert(t2 =~= t1.skip(k1));
    let (d, k2) = dec_field_str(t2, "data"@)->Some_0;
    lemma_dec_field_str_canonical(t2, "data"@);
    let (v, k) = dec_send_json(s)->Some_0;
    assert(s.take(k) =~= s.take(p0) + (t1.take(k1) + t2.take(k2)));
}

/// A parsed pair re-encodes to exactly the bytes it was parsed from.
pub proof fn lemma_dec_pair_canonical(s: Seq<u8>)
    requires
        dec_pair(s) is Some,
    ensures
        ({
            let (p, k) = dec_pair(s)->Some_0;
            &&& 0 < k <= s.len()
            &&& s.take(k) =~= enc_pair(p)
            &&& str_encodable(p.0)
            &&& str_encodable(p.1)
        }),
{
    reveal(dec_pair);
    let (n, h) = dec_array_header(s)->Some_0;
    crate::codec::lemma_dec_array_header_canonical(s);
    let t1 = s.skip(h);
    let (a, k1) = dec_str(t1)->Some_0;
    crate::codec::lemma_dec_str_canonical(t1);
    let t2 = s.skip(h + k1);
    assert(t2 =~= t1.skip(k1));
    let (b, k2) = dec_str(t2)->Some_0;
    crate::codec::lemma_dec_str_canonical(t2);
    let (p, k) = dec_pair(s)->Some_0;
    assert(s.take(k) =~= s.take(h) + (t1.take(k1) + t2.take(k2)));
}

/// A parsed run of pairs re-encodes to exactly the bytes it was parsed
/// from, and every pair of it is representable.
pub proof fn lemma_dec_pair_seq_canonical(s: Seq<u8>, n: nat)
    requires
        dec_pair_seq(s, n) is Some,
    ensures
        ({
            let (ps, k) = dec_pair_seq(s, n)->Some_0;
            &&& 0 <= k <= s.len()
            &&& s.take(k) =~= enc_pair_seq(ps)
            &&& ps.len() == n
            &&& forall|i|
                0 <= i < ps.len() ==> str_encodable((#[trigger] ps[i]).0) && str_encodable(
                    ps[i].1,
                )
        }),
    decreases n,
{
    if n == 0 {
    } else {
        let (ps, k) = dec_pair_seq(s, n)->Some_0;
        let (p, k1) = dec_pair(s)->Some_0;
        lemma_dec_pair_canonical(s);
        lemma_dec_pair_seq_canonical(s.skip(k1), (n - 1) as nat);
        let (ps2, m) = dec_pair_seq(s.skip(k1), (n - 1) as nat)->Some_0;
        assert(s.take(k) =~= s.take(k1) + s.skip(k1).take(m));
        assert(ps == seq![p] + ps2);
        assert(ps.drop_first() =~= ps2);
        assert(ps[0] == p);
        assert(enc_pair_seq(ps) == enc_pair(p) + enc_pair_seq(ps2));
        assert(forall|i|
            0 <= i < ps.len() ==> str_encodable((#[trigger] ps[i]).0) && str_encodable(
                ps[i].1,
            )) by {
            assert(forall|i| 1 <= i < ps.len() ==> ps[i] == ps2[i - 1]);
        }
    }
}

/// A parsed array of pairs re-encodes to exactly the bytes it was parsed
/// from, and is representable.
pub proof fn lemma_dec_pair_array_canonical(s: Seq<u8>)
    requires
        dec_pair_array(s) is Some,
    ensures
        ({
            let (ps, k) = dec_pair_array(s)->Some_0;
            &&& 0 < k <= s.len()
            &&& s.take(k) =~= enc_pair_array(ps)
            &&& pair_seq_encodable(ps)
        }),
{
    let (n, h) = dec_array_header(s)->Some_0;
    crate::codec::lemma_dec_array_header_canonical(s);
    lemma_dec_pair_seq_canonical(s.skip(h), n);
    let (ps, m) = dec_pair_seq(s.skip(h), n)->Some_0;
    assert(s.take(h + m) =~= s.take(h) + s.skip(h).take(m));
}

/// A parsed named array-of-pairs field re-encodes to exactly the bytes it
/// was parsed from.
pub proof fn lemma_dec_field_pairs_canonical(s: Seq<u8>, key: Seq<char>)
    requires
        dec_field_pairs(s, key) is Some,
    ensures
        ({
            let (ps, k) = dec_field_pairs(s, key)->Some_0;
            &&& 0 < k <= s.len()
            &&& s.take(k) =~= enc_str(key) + enc_pair_array(ps)
            &&& pair_seq_encodable(ps)
        }),
{
    reveal(dec_field_pairs);
    let k1 = dec_key(s, key)->Some_0;
    lemma_dec_key_canonical(s, key);
    lemma_dec_pair_array_canonical(s.skip(k1));
    let (ps, m) = dec_pair_array(s.skip(k1))->Some_0;
    assert(s.take(k1 + m) =~= s.take(k1) + s.skip(k1).take(m));
}

/// A parsed form envelope re-encodes to exactly the bytes it was parsed
/// from, and is representable.
#[verifier::rlimit(100)]
#[verifier::spinoff_prover]
pub proof fn lemma_dec_send_form_canonical(s: Seq<u8>)
    requires
        dec_send_form(s) is Some,
    ensures
        ({
            let (v, k) = dec_send_form(s)->Some_0;
            &&& 0 < k <= s.len()
            &&& s.take(k) =~= enc_send_form(v)
            &&& send_form_encodable(v)
        }),
{
    reveal(dec_send_form);
    let (n, p0) = dec_map_header(s)->Some_0;
    crate::codec::lemma_dec_map_header_canonical(s);
    let t1 = s.skip(p0);
    let (r, k1) = dec_field_request(t1)->Some_0;
    lemma_dec_field_request_canonical(t1);
    let t2 = s.skip(p0 + k1);
    assert(t2 =~= t1.skip(k1));
    let (d, k2) = dec_field_pairs(t2, "data"@)->Some_0;
    lemma_dec_field_pairs_canonical(t2, "data"@);
    let (v, k) = dec_send_form(s)->Some_0;
    assert(s.take(k) =~= s.take(p0) + (t1.take(k1) + t2.take(k2)));
}

} // verus!
