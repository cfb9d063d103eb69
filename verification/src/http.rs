//! HTTP client surface and the host-call adapters.
//!
//! The host performs the actual network work; the guest's part of a call is
//! split in two verified phases. A [`Request`] assembles a descriptor and a
//! payload and encodes them into a [`PreparedCall`]: the envelope bytes and
//! the slot of the host function to invoke. The embedder places the
//! envelope in guest memory ([`begin_call`]), invokes the host function,
//! and hands the returned status word to [`finish_call`], which decodes it
//! and reclaims the response bytes from guest memory.
//!
//! The one call convention this library speaks: the host answers with a
//! single 64-bit status word whose success payload is the offset of a raw
//! buffer triple in guest memory.

use vstd::prelude::*;
use vstd::utf8::{decode_utf8, valid_utf8};

use crate::arena::{triple_at, triple_ok, Arena};
use crate::codec::utf8_to_string;
use crate::common::{
    category_kind, enc_request, enc_send_bytes, enc_send_form, enc_send_json, enc_send_string,
    extract, request_encodable, send_bytes_encodable, send_form_encodable, send_json_encodable,
    send_string_encodable, status_category, status_payload, Method, RequestData, RequestDataV,
    SendBytesData, SendBytesDataV, SendFormData, SendFormDataV, SendJsonData, SendJsonDataV,
    SendStringData, SendStringDataV,
};
use crate::error::{Error, HostError};

verus! {

/// The fixed numeric slots of the host functions, one per capability.
#[derive(Clone, Copy, PartialEq, Eq, Structural, Debug)]
pub enum HostSlot {
    /// The generic request capability: no body.
    CallRequest,
    /// Send a raw byte body.
    SendBytes,
    /// Send a text body.
    SendString,
    /// Send form data.
    SendForm,
    /// Send a pre-serialized structured document.
    SendJson,
}

/// A call ready to cross the boundary: which host function to invoke, and
/// the encoded envelope to pass it.
pub struct PreparedCall {
    pub slot: HostSlot,
    pub envelope: Vec<u8>,
}

/// Places a prepared call's envelope into guest memory for the host to
/// read, returning the (address, byte length) pair the host function takes.
pub fn begin_call(arena: &mut Arena, call: &PreparedCall) -> (r: (usize, usize))
    requires
        old(arena).wf(),
    ensures
        final(arena).wf(),
        r.0 == old(arena)@.len(),
        r.1 == call.envelope@.len(),
        final(arena)@ == old(arena)@ + call.envelope@,
{
    let addr = arena.append_bytes(call.envelope.as_slice());
    (addr, call.envelope.len())
}

/// The response bytes of a completed host call.
pub struct Response {
    bytes: Vec<u8>,
}

impl View for Response {
    type V = Seq<u8>;

    closed spec fn view(&self) -> Seq<u8> {
        self.bytes@
    }
}

impl Response {
    /// Wraps reclaimed response bytes.
    pub(crate) fn new(bytes: Vec<u8>) -> (r: Response)
        ensures
            r@ == bytes@,
    {
        Response { bytes }
    }

    /// The raw response body.
    pub fn into_vec(self) -> (r: Vec<u8>)
        ensures
            r@ == self@,
    {
        self.bytes
    }

    /// The response body as text: succeeds exactly when the bytes are
    /// valid UTF-8, and then returns the text they spell.
    pub fn into_string(self) -> (r: Result<String, Error>)
        ensures
            r is Ok <==> valid_utf8(self@),
            r is Ok ==> r->Ok_0@ == decode_utf8(self@),
    {
        match utf8_to_string(self.bytes) {
            Some(text) => Ok(text),
            None => Err(Error::new("response body is not valid UTF-8")),
        }
    }
}

/// Completes a host call from the status word it returned: decodes the
/// word, and on success reclaims the response buffer whose raw triple the
/// host wrote at the reported offset. On failure the reported payload is
/// not meaningful and guest memory is not touched.
pub fn finish_call(arena: &Arena, status: u64) -> (r: Result<Response, HostError>)
    ensures
        r is Ok <==> status_category(status) == 0 && triple_ok(
            arena@,
            status_payload(status) as int,
        ),
        r is Ok ==> {
            let (ptr, cap, len) = triple_at(arena@, status_payload(status) as int);
            r->Ok_0@ == arena@.subrange(ptr as int, (ptr + len) as int)
        },
        1 <= status_category(status) <= 9 ==> r == Result::<Response, HostError>::Err(
            category_kind(status_category(status)),
        ),
        status_category(status) > 9 ==> r == Result::<Response, HostError>::Err(
            HostError::CallHttpRequest,
        ),
        status_category(status) == 0 && !triple_ok(arena@, status_payload(status) as int)
            ==> r == Result::<Response, HostError>::Err(HostError::MemoryAccess),
{
    let offset = match extract(status) {
        Ok(offset) => offset,
        Err(e) => {
            return Err(e);
        },
    };
    match arena.materialize_buffer(offset) {
        Ok(buffer) => Ok(Response::new(buffer.into_vec())),
        Err(e) => Err(e),
    }
}

/// A fluent builder for one outbound request.
pub struct Request {
    url: String,
    method: Method,
    headers: Vec<String>,
    queries: Vec<String>,
}

impl View for Request {
    type V = RequestDataV;

    closed spec fn view(&self) -> RequestDataV {
        RequestDataV {
            url: self.url@,
            headers: self.headers.deep_view(),
            queries: self.queries.deep_view(),
            method: self.method,
        }
    }
}

impl Request {
    /// Headers and queries always hold whole key/value pairs: their
    /// flattened sequences have even length.
    pub open spec fn wf(&self) -> bool {
        self@.headers.len() % 2 == 0 && self@.queries.len() % 2 == 0
    }

    /// Create a new request with method.
    pub fn new(url: &str, method: Method) -> (r: Self)
        ensures
            r@ == (RequestDataV {
                url: url@,
                headers: Seq::empty(),
                queries: Seq::empty(),
                method,
            }),
            r.wf(),
    {
        let r = Request { url: url.to_owned(), method, headers: Vec::new(), queries: Vec::new() };
        proof {
            assert(r.headers.deep_view() =~= Seq::<Seq<char>>::empty());
            assert(r.queries.deep_view() =~= Seq::<Seq<char>>::empty());
        }
        r
    }

    /// Make a GET request.
    pub fn get(url: &str) -> (r: Self)
        ensures
            r@ == (RequestDataV {
                url: url@,
                headers: Seq::empty(),
                queries: Seq::empty(),
                method: Method::GET,
            }),
            r.wf(),
    {
        Self::new(url, Method::GET)
    }

    /// Make a POST request.
    pub fn post(url: &str) -> (r: Self)
        ensures
            r@ == (RequestDataV {
                url: url@,
                headers: Seq::empty(),
                queries: Seq::empty(),
                method: Method::POST,
            }),
            r.wf(),
    {
        Self::new(url, Method::POST)
    }

    /// Make a DELETE request.
    pub fn delete(url: &str) -> (r: Self)
        ensures
            r@ == (RequestDataV {
                url: url@,
                headers: Seq::empty(),
                queries: Seq::empty(),
                method: Method::DELETE,
            }),
            r.wf(),
    {
        Self::new(url, Method::DELETE)
    }

    /// Make a HEAD request.
    pub fn head(url: &str) -> (r: Self)
        ensures
            r@ == (RequestDataV {
                url: url@,
                headers: Seq::empty(),
                queries: Seq::empty(),
                method: Method::HEAD,
            }),
            r.wf(),
    {
        Self::new(url, Method::HEAD)
    }

    /// Make a PATCH request.
    pub fn patch(url: &str) -> (r: Self)
        ensures
            r@ == (RequestDataV {
                url: url@,
                headers: Seq::empty(),
                queries: Seq::empty(),
                method: Method::PATCH,
            }),
            r.wf(),
    {
        Self::new(url, Method::PATCH)
    }

    /// Make a PUT request.
    pub fn put(url: &str) -> (r: Self)
        ensures
            r@ == (RequestDataV {
                url: url@,
                headers: Seq::empty(),
                queries: Seq::empty(),
                method: Method::PUT,
            }),
            r.wf(),
    {
        Self::new(url, Method::PUT)
    }

    /// Set a header field: appends the name and the value to the flattened
    /// header pairs, keeping their order.
    pub fn set(self, header: &str, value: &str) -> (r: Self)
        ensures
            r@ == (RequestDataV {
                headers: self@.headers + seq![header@, value@],
                ..self@
            }),
            self.wf() ==> r.wf(),
    {
        let ghost before = self@;
        let mut r = self;
        r.headers.push(header.to_owned());
        r.headers.push(value.to_owned());
        proof {
            assert(r.headers.deep_view() =~= before.headers + seq![header@, value@]);
        }
        r
    }

    /// Set a query parameter: appends the name and the value to the
    /// flattened query pairs, keeping their order.
    pub fn query(self, param: &str, value: &str) -> (r: Self)
        ensures
            r@ == (RequestDataV {
                queries: self@.queries + seq![param@, value@],
                ..self@
            }),
            self.wf() ==> r.wf(),
    {
        let ghost before = self@;
        let mut r = self;
        r.queries.push(param.to_owned());
        r.queries.push(value.to_owned());
        proof {
            assert(r.queries.deep_view() =~= before.queries + seq![param@, value@]);
        }
        r
    }

    /// The request descriptor this builder has assembled.
    fn into_data(self) -> (r: RequestData)
        ensures
            r@ == self@,
    {
        RequestData {
            url: self.url,
            headers: self.headers,
            queries: self.queries,
            method: self.method,
        }
    }

    /// Prepare the request for the generic call capability, with no body.
    /// Fails with the serialize-data kind exactly when a field is too large
    /// for the wire form.
    pub fn call(self) -> (r: Result<PreparedCall, HostError>)
        ensures
            r is Ok <==> request_encodable(self@),
            r is Ok ==> r->Ok_0.slot == HostSlot::CallRequest && r->Ok_0.envelope@ == enc_request(
                self@,
            ),
            r is Err ==> r == Result::<PreparedCall, HostError>::Err(HostError::SerializeData),
    {
        let data = self.into_data();
        match data.encode() {
            Ok(envelope) => Ok(PreparedCall { slot: HostSlot::CallRequest, envelope }),
            Err(_) => Err(HostError::SerializeData),
        }
    }

    /// Prepare the request with a raw byte body.
    pub fn send_bytes(self, data: Vec<u8>) -> (r: Result<PreparedCall, HostError>)
        ensures
            r is Ok <==> send_bytes_encodable(
                SendBytesDataV { request_data: self@, data: data@ },
            ),
            r is Ok ==> r->Ok_0.slot == HostSlot::SendBytes && r->Ok_0.envelope@
                == enc_send_bytes(SendBytesDataV { request_data: self@, data: data@ }),
            r is Err ==> r == Result::<PreparedCall, HostError>::Err(HostError::SerializeData),
    {
        let envelope = SendBytesData { request_data: self.into_data(), data };
        match envelope.encode() {
            Ok(bytes) => Ok(PreparedCall { slot: HostSlot::SendBytes, envelope: bytes }),
            Err(_) => Err(HostError::SerializeData),
        }
    }

    /// Prepare the request with a text body.
    pub fn send_string(self, data: String) -> (r: Result<PreparedCall, HostError>)
        ensures
            r is Ok <==> send_string_encodable(
                SendStringDataV { request_data: self@, data: data@ },
            ),
            r is Ok ==> r->Ok_0.slot == HostSlot::SendString && r->Ok_0.envelope@
                == enc_send_string(SendStringDataV { request_data: self@, data: data@ }),
            r is Err ==> r == Result::<PreparedCall, HostError>::Err(HostError::SerializeData),
    {
        let envelope = SendStringData { request_data: self.into_data(), data };
        match envelope.encode() {
            Ok(bytes) => Ok(PreparedCall { slot: HostSlot::SendString, envelope: bytes }),
            Err(_) => Err(HostError::SerializeData),
        }
    }

    /// Prepare the request with form data: ordered key/value text pairs.
    pub fn send_form(self, data: Vec<(String, String)>) -> (r: Result<PreparedCall, HostError>)
        ensures
            r is Ok <==> send_form_encodable(
                SendFormDataV { request_data: self@, data: data.deep_view() },
            ),
            r is Ok ==> r->Ok_0.slot == HostSlot::SendForm && r->Ok_0.envelope@ == enc_send_form(
                SendFormDataV { request_data: self@, data: data.deep_view() },
            ),
            r is Err ==> r == Result::<PreparedCall, HostError>::Err(HostError::SerializeData),
    {
        let envelope = SendFormData { request_data: self.into_data(), data };
        match envelope.encode() {
            Ok(bytes) => Ok(PreparedCall { slot: HostSlot::SendForm, envelope: bytes }),
            Err(_) => Err(HostError::SerializeData),
        }
    }

    /// Prepare the request with a pre-serialized structured document as
    /// body.
    pub fn send_json(self, data: String) -> (r: Result<PreparedCall, HostError>)
        ensures
            r is Ok <==> send_json_encodable(
                SendJsonDataV { request_data: self@, data: data@ },
            ),
            r is Ok ==> r->Ok_0.slot == HostSlot::SendJson && r->Ok_0.envelope@ == enc_send_json(
                SendJsonDataV { request_data: self@, data: data@ },
            ),
            r is Err ==> r == Result::<PreparedCall, HostError>::Err(HostError::SerializeData),
    {
        let envelope = SendJsonData { request_data: self.into_data(), data };
        match envelope.encode() {
            Ok(bytes) => Ok(PreparedCall { slot: HostSlot::SendJson, envelope: bytes }),
            Err(_) => Err(HostError::SerializeData),
        }
    }
}

} // verus!
