//! Calls over the bus: how requests are addressed and answered, and how a
//! stream of messages is cut out of a stream of bytes.

use vstd::prelude::*;

use crate::digest::{append_bytes, decimal, decimal_of};
use crate::text::{cat3, keep, keep_all, pieces, same, split};

verus! {

/// Why a call failed.
pub enum BusRpcError {
    NotImplemented,
    ServiceNameDidNotMatch,
    FailedToBindPort,
    InternalError(String),
    ConnectionError(String),
}

/// The service and the method that a path names.
pub open spec fn call_target(path: Seq<char>) -> Option<(Seq<char>, Seq<char>)> {
    let parts = pieces(path, '/');
    if parts.len() == 3 && parts[0] == ""@ {
        Some((parts[1], parts[2]))
    } else {
        None
    }
}

/// The service and the method that `/service/method` names; any other path
/// names none, and is not found.
pub fn parse_call(path: &str) -> (r: Option<(String, String)>)
    ensures
        r.deep_view() == call_target(path@),
{
    let parts = split(path, '/');
    if parts.len() == 3 && same(parts[0].as_str(), "") {
        Some((parts[1].clone(), parts[2].clone()))
    } else {
        None
    }
}

/// The status that tells how a call ended.
pub open spec fn call_status(result: Result<Vec<u8>, BusRpcError>) -> u16 {
    match result {
        Ok(_) => 200,
        Err(BusRpcError::NotImplemented) => 501,
        Err(BusRpcError::ServiceNameDidNotMatch) => 404,
        Err(_) => 500,
    }
}

/// The status and the body that a call is answered with.
pub fn call_reply(result: Result<Vec<u8>, BusRpcError>) -> (r: (u16, Vec<u8>))
    ensures
        r.0 == call_status(result),
        r.1@ == (match result {
            Ok(data) => data@,
            Err(_) => Seq::empty(),
        }),
{
    match result {
        Ok(data) => (200, data),
        Err(BusRpcError::NotImplemented) => (501, Vec::new()),
        Err(BusRpcError::ServiceNameDidNotMatch) => (404, Vec::new()),
        Err(_) => (500, Vec::new()),
    }
}

/// The part of a stream of bytes that was received and not handed out yet: the
/// length of the next message, once it is known, and the bytes behind it.
pub struct BusStream {
    pub size: Option<usize>,
    pub buffer: Vec<u8>,
}

/// The number that four bytes are, the least significant first.
pub open spec fn le_number(bytes: Seq<u8>) -> int {
    bytes[0] + bytes[1] * 0x100 + bytes[2] * 0x10000 + bytes[3] * 0x1000000
}

/// The four bytes of `n`, the least significant first.
pub open spec fn le_bytes(n: int) -> Seq<u8> {
    seq![
        (n % 0x100) as u8,
        (n / 0x100 % 0x100) as u8,
        (n / 0x10000 % 0x100) as u8,
        (n / 0x1000000 % 0x100) as u8,
    ]
}

/// What a `BusStream` is.
#[verifier::ext_equal]
pub struct Received {
    pub size: Option<int>,
    pub buffer: Seq<u8>,
}

impl DeepView for BusStream {
    type V = Received;

    open spec fn deep_view(&self) -> Received {
        Received {
            size: match self.size {
                Some(n) => Some(n as int),
                None => None,
            },
            buffer: self.buffer@,
        }
    }
}

/// The stream once the length of its next message was read, if it is there.
pub open spec fn with_size(s: Received) -> Received {
    if s.size is None && s.buffer.len() >= 4 {
        Received { size: Some(le_number(s.buffer.take(4))), buffer: s.buffer.skip(4) }
    } else {
        s
    }
}

/// The stream once its next message was taken out, if it is there, and the
/// message.
pub open spec fn taken(s: Received) -> (Received, Option<Seq<u8>>) {
    let t = with_size(s);
    match t.size {
        Some(n) => if t.buffer.len() >= n {
            (Received { size: None, buffer: t.buffer.skip(n) }, Some(t.buffer.take(n)))
        } else {
            (t, None)
        },
        None => (t, None),
    }
}

/// How a message stands in a stream of bytes: its length, then the message.
pub open spec fn framed(message: Seq<u8>) -> Seq<u8> {
    le_bytes(message.len() as int) + message
}

/// The bytes that were received for what was not handed out yet.
pub open spec fn held(s: Received) -> Seq<u8> {
    match s.size {
        Some(n) => le_bytes(n) + s.buffer,
        None => s.buffer,
    }
}

proof fn lemma_le_number(b: Seq<u8>)
    requires
        b.len() == 4,
    ensures
        0 <= le_number(b) < 0x100000000,
        le_bytes(le_number(b)) == b,
{
    let n = le_number(b);
    let b0 = b[0] as int;
    let b1 = b[1] as int;
    let b2 = b[2] as int;
    let b3 = b[3] as int;
    assert(n % 0x100 == b0);
    assert(n / 0x100 == b1 + b2 * 0x100 + b3 * 0x10000);
    assert(n / 0x100 % 0x100 == b1);
    assert(n / 0x10000 == b2 + b3 * 0x100);
    assert(n / 0x10000 % 0x100 == b2);
    assert(n / 0x1000000 == b3);
    assert(le_bytes(n) =~= b);
}

proof fn lemma_le_bytes(n: int)
    requires
        0 <= n < 0x100000000,
    ensures
        le_number(le_bytes(n)) == n,
{
    let q1 = n / 0x100;
    let q2 = n / 0x10000;
    let q3 = n / 0x1000000;
    assert(q2 == q1 / 0x100);
    assert(q3 == q2 / 0x100);
    assert(q3 < 0x100);
}

/// Taking a message out of a stream takes just the bytes of that message; where
/// there is none to take, no byte is lost. So the messages that are taken are
/// those whose bytes were received, in however many pieces these came.
pub proof fn law_nothing_lost(s: Received)
    requires
        s.size matches Some(n) ==> 0 <= n < 0x100000000,
    ensures
        match taken(s).1 {
            Some(message) => held(s) == framed(message) + held(taken(s).0),
            None => held(s) == held(taken(s).0),
        },
{
    let t = with_size(s);
    if s.size is None && s.buffer.len() >= 4 {
        lemma_le_number(s.buffer.take(4));
        assert(s.buffer =~= s.buffer.take(4) + s.buffer.skip(4));
    }
    if let Some(message) = taken(s).1 {
        let n = t.size->0;
        assert(t.buffer =~= t.buffer.take(n) + t.buffer.skip(n));
        assert(held(s) =~= framed(message) + held(taken(s).0));
    }
}

/// A message whose bytes have all been received is taken out as it was sent.
pub proof fn law_message_arrives(message: Seq<u8>, rest: Seq<u8>)
    requires
        message.len() < 0x100000000,
    ensures
        taken(Received { size: None, buffer: framed(message) + rest }) == (
            Received { size: None, buffer: rest },
            Some(message),
        ),
{
    let s = Received { size: None, buffer: framed(message) + rest };
    let n = message.len() as int;
    lemma_le_bytes(n);
    assert(s.buffer.take(4) =~= le_bytes(n));
    assert(s.buffer.skip(4) =~= message + rest);
    assert((message + rest).take(n) =~= message);
    assert((message + rest).skip(n) =~= rest);
}

/// What the end of a stream means: an error where bytes are left that are no
/// message.
pub open spec fn ending(s: Received) -> Option<Seq<char>> {
    if s.buffer.len() == 0 {
        None
    } else {
        Some("truncated bus stream response"@)
    }
}

/// The part of `bytes` between two positions.
fn part(bytes: &Vec<u8>, from: usize, to: usize) -> (r: Vec<u8>)
    requires
        from <= to <= bytes@.len(),
    ensures
        r@ == bytes@.subrange(from as int, to as int),
{
    let mut out: Vec<u8> = Vec::new();
    let mut i: usize = from;
    while i < to
        invariant
            from <= i <= to <= bytes@.len(),
            out@ == bytes@.subrange(from as int, i as int),
        decreases to - i,
    {
        out.push(bytes[i]);
        i = i + 1;
        assert(out@ =~= bytes@.subrange(from as int, i as int));
    }
    out
}

impl BusStream {
    pub fn new() -> (r: Self)
        ensures
            r.deep_view() == (Received { size: None, buffer: Seq::empty() }),
    {
        BusStream { size: None, buffer: Vec::new() }
    }

    /// Takes in bytes that were received.
    pub fn receive(&mut self, data: &Vec<u8>)
        ensures
            final(self).deep_view() == (Received {
                buffer: old(self).deep_view().buffer + data@,
                ..old(self).deep_view()
            }),
    {
        append_bytes(&mut self.buffer, data.as_slice());
    }

    /// Takes the next message out, if all of it is there.
    pub fn next_message(&mut self) -> (r: Option<Vec<u8>>)
        requires
            old(self).size matches Some(n) ==> n < 0x100000000,
        ensures
            final(self).deep_view() == taken(old(self).deep_view()).0,
            r is Some <==> taken(old(self).deep_view()).1 is Some,
            r matches Some(message) ==> Some(message@) == taken(old(self).deep_view()).1,
            final(self).size matches Some(n) ==> n < 0x100000000,
    {
        let ghost s = self.deep_view();
        if self.size.is_none() && self.buffer.len() >= 4 {
            let n: u32 = self.buffer[0] as u32 + self.buffer[1] as u32 * 0x100 + self.buffer[2] as u32 * 0x10000
                + self.buffer[3] as u32 * 0x1000000;
            proof {
                lemma_le_number(s.buffer.take(4));
            }
            let rest = part(&self.buffer, 4, self.buffer.len());
            assert(rest@ =~= s.buffer.skip(4));
            self.buffer = rest;
            self.size = Some(n as usize);
            assert(self.deep_view() =~= with_size(s));
        }
        if let Some(n) = self.size {
            if self.buffer.len() >= n {
                let message = part(&self.buffer, 0, n);
                let rest = part(&self.buffer, n, self.buffer.len());
                assert(message@ =~= self.buffer@.take(n as int));
                assert(rest@ =~= self.buffer@.skip(n as int));
                self.buffer = rest;
                self.size = None;
                return Some(message);
            }
        }
        None
    }

    /// What it means that no more bytes come.
    pub fn finish(&self) -> (r: Option<String>)
        ensures
            r.deep_view() == ending(self.deep_view()),
    {
        if self.buffer.len() == 0 {
            None
        } else {
            Some("truncated bus stream response".to_owned())
        }
    }
}

/// The address of a call, or what is wrong with it.
pub uninterp spec fn call_uri(scheme: Seq<char>, authority: Seq<char>, path: Seq<char>) -> Result<Seq<char>, Seq<char>>;

/// What an address, or the message in its place, says.
pub open spec fn uri_told(r: Result<String, String>) -> Result<Seq<char>, Seq<char>> {
    match r {
        Ok(uri) => Ok(uri@),
        Err(message) => Err(message@),
    }
}

/// `hyper::Uri::builder` with a scheme, an authority and a path: the address in
/// its `Display` format, or the error in its `Debug` format; a function of the
/// texts alone.
#[verifier::external_body]
pub(crate) fn build_uri(scheme: &str, authority: &str, path: &str) -> (r: Result<String, String>)
    ensures
        uri_told(r) == call_uri(scheme@, authority@, path@),
{
    match hyper::Uri::builder().scheme(scheme).authority(authority).path_and_query(path).build() {
        Ok(uri) => Ok(uri.to_string()),
        Err(e) => Err(format!("{:?}", e)),
    }
}

/// A client of the bus: where it calls, over what, and with which headers.
pub struct HyperClientInner<T> {
    pub host: String,
    pub port: u16,
    pub client: T,
    pub use_tls: bool,
    pub headers: Vec<(String, String)>,
}

pub struct HyperClient<T> {
    pub inner: HyperClientInner<T>,
}

/// A client that waits for its answers, with what runs its calls.
pub struct HyperSyncClient<T, E> {
    pub inner: HyperClient<T>,
    pub executor: E,
}

/// A call to make: its address, its headers, and its body.
pub struct CallRequest {
    pub uri: String,
    pub headers: Vec<(String, String)>,
    pub body: Vec<u8>,
}

/// The headers of a call: a call for a stream says so first.
pub open spec fn call_headers(headers: Seq<(Seq<char>, Seq<char>)>, stream: bool) -> Seq<(Seq<char>, Seq<char>)> {
    if stream {
        seq![("bus-stream"@, "1"@)] + headers
    } else {
        headers
    }
}

/// The scheme that a client calls over.
pub open spec fn call_scheme(use_tls: bool) -> Seq<char> {
    if use_tls {
        "https"@
    } else {
        "http"@
    }
}

/// The authority that a client calls.
pub open spec fn call_authority(host: Seq<char>, port: u16) -> Seq<char> {
    host + ":"@ + decimal(port as int)
}

/// Whether `r` is the call to the address `built`, or the error for it.
pub open spec fn is_call(
    built: Result<Seq<char>, Seq<char>>,
    headers: Seq<(Seq<char>, Seq<char>)>,
    data: Seq<u8>,
    r: Result<CallRequest, BusRpcError>,
) -> bool {
    match (built, r) {
        (Ok(uri), Ok(call)) => call.uri@ == uri && call.headers.deep_view() == headers && call.body@ == data,
        (Err(message), Err(BusRpcError::InternalError(found))) => found@ == message,
        _ => false,
    }
}

/// The call to the address `built`.
pub fn call_to(built: Result<String, String>, headers: Vec<(String, String)>, data: Vec<u8>) -> (r: Result<
    CallRequest,
    BusRpcError,
>)
    ensures
        is_call(uri_told(built), headers.deep_view(), data@, r),
{
    match built {
        Ok(uri) => Ok(CallRequest { uri, headers, body: data }),
        Err(message) => Err(BusRpcError::InternalError(message)),
    }
}

impl<T> HyperClient<T> {
    /// A client without TLS.
    pub fn new(host: String, port: u16, client: T) -> (r: Self)
        ensures
            r.inner.host == host,
            r.inner.port == port,
            r.inner.client == client,
            !r.inner.use_tls,
            r.inner.headers@ == Seq::<(String, String)>::empty(),
    {
        HyperClient { inner: HyperClientInner { host, port, client, use_tls: false, headers: Vec::new() } }
    }

    /// A client with TLS.
    pub fn new_tls(host: String, port: u16, client: T) -> (r: Self)
        ensures
            r.inner.host == host,
            r.inner.port == port,
            r.inner.client == client,
            r.inner.use_tls,
            r.inner.headers@ == Seq::<(String, String)>::empty(),
    {
        HyperClient { inner: HyperClientInner { host, port, client, use_tls: true, headers: Vec::new() } }
    }

    /// Adds a header to every call.
    pub fn add_header(&mut self, header: String, value: String)
        ensures
            final(self).inner == (HyperClientInner { headers: final(self).inner.headers, ..old(self).inner }),
            final(self).inner.headers@ == old(self).inner.headers@.push((header, value)),
    {
        self.inner.headers.push((header, value));
    }

    /// The call that posts `data` to `path`, for one answer or for a stream.
    pub fn call(&self, path: &str, data: Vec<u8>, stream: bool) -> (r: Result<CallRequest, BusRpcError>)
        ensures
            is_call(
                call_uri(
                    call_scheme(self.inner.use_tls),
                    call_authority(self.inner.host@, self.inner.port),
                    path@,
                ),
                call_headers(self.inner.headers.deep_view(), stream),
                data@,
                r,
            ),
    {
        let scheme = if self.inner.use_tls {
            "https"
        } else {
            "http"
        };
        let authority = cat3(self.inner.host.as_str(), ":", decimal_of(self.inner.port as u64).as_str());
        let mut headers: Vec<(String, String)> = Vec::new();
        if stream {
            keep(&mut headers, ("bus-stream".to_owned(), "1".to_owned()));
        }
        keep_all(&mut headers, &self.inner.headers);
        assert(headers.deep_view() =~= call_headers(self.inner.headers.deep_view(), stream));
        call_to(build_uri(scheme, authority.as_str(), path), headers, data)
    }
}

impl<T, E> HyperSyncClient<T, E> {
    /// A client without TLS whose calls `executor` runs.
    pub fn new(host: String, port: u16, client: T, executor: E) -> (r: Self)
        ensures
            r.executor == executor,
            r.inner.inner.host == host,
            r.inner.inner.port == port,
            r.inner.inner.client == client,
            !r.inner.inner.use_tls,
            r.inner.inner.headers@ == Seq::<(String, String)>::empty(),
    {
        HyperSyncClient { inner: HyperClient::new(host, port, client), executor }
    }

    /// A client with TLS whose calls `executor` runs.
    pub fn new_tls(host: String, port: u16, client: T, executor: E) -> (r: Self)
        ensures
            r.executor == executor,
            r.inner.inner.host == host,
            r.inner.inner.port == port,
            r.inner.inner.client == client,
            r.inner.inner.use_tls,
            r.inner.inner.headers@ == Seq::<(String, String)>::empty(),
    {
        HyperSyncClient { inner: HyperClient::new_tls(host, port, client), executor }
    }

    /// Adds a header to every call.
    pub fn add_header(&mut self, header: String, value: String)
        ensures
            final(self).executor == old(self).executor,
            final(self).inner.inner == (HyperClientInner {
                headers: final(self).inner.inner.headers,
                ..old(self).inner.inner
            }),
            final(self).inner.inner.headers@ == old(self).inner.inner.headers@.push((header, value)),
    {
        self.inner.add_header(header, value);
    }
}

} // verus!
