use vstd::prelude::*;
use vstd::string::StringSliceAdditionalSpecFns;
use crate::codec::{find_header, headers_view, parse_usize, content_length_name, header_lookup, usize_of};

verus! {

/// The body of a response, kept as opaque bytes.
#[derive(Debug, Clone)]
pub enum ResponseBody {
    Bytes(Vec<u8>),
}

/// A response on its way back to the client.
#[derive(Debug, Clone)]
pub struct Response {
    pub status: u16,
    pub reason: Vec<u8>,
    pub headers: Vec<(Vec<u8>, Vec<u8>)>,
    pub body: Option<ResponseBody>,
}

/// Why a backend's reply could not be relayed.
#[derive(Debug, Clone, PartialEq, Eq)]
pub enum SendRequestError {
    /// The exchange with the backend failed; the text says how.
    Transport { message: String },
    /// The status code lies outside 100 to 999.
    InvalidStatus,
    /// The backend's `Content-Length` is not a number.
    InvalidContentLength,
}

/// The mathematical value of a response.
pub struct ResponseModel {
    pub status: u16,
    pub reason: Seq<u8>,
    pub headers: Seq<(Seq<u8>, Seq<u8>)>,
    pub body: Option<Seq<u8>>,
}

impl View for Response {
    type V = ResponseModel;

    open spec fn view(&self) -> ResponseModel {
        ResponseModel {
            status: self.status,
            reason: self.reason@,
            headers: headers_view(self.headers@),
            body: match self.body {
                Some(ResponseBody::Bytes(b)) => Some(b@),
                None => None,
            },
        }
    }
}

/// The reason phrase that `http::StatusCode::canonical_reason` gives for a
/// code, if it knows one.
pub uninterp spec fn reason_of(code: u16) -> Option<Seq<u8>>;

/// Relies on `http::StatusCode::from_u16` and `canonical_reason`: the
/// registered phrase of a code in 100 to 999.
#[verifier::external_body]
fn reason_phrase(code: u16) -> (r: Option<Vec<u8>>)
    requires
        100 <= code <= 999,
    ensures
        match r {
            Some(p) => reason_of(code) == Some(p@),
            None => reason_of(code) is None,
        },
{
    http::StatusCode::from_u16(code).ok().and_then(|s| s.canonical_reason()).map(|p| p.as_bytes().to_vec())
}

/// `<unknown status code>`: the reason written for a code that has no
/// registered phrase.
pub open spec fn unknown_reason() -> Seq<u8> {
    seq![60u8, 117, 110, 107, 110, 111, 119, 110, 32, 115, 116, 97, 116, 117, 115, 32, 99, 111, 100, 101, 62]
}

pub open spec fn crlf() -> Seq<u8> {
    seq![13u8, 10]
}

/// `HTTP/1.1 `
pub open spec fn status_prefix() -> Seq<u8> {
    seq![72u8, 84, 84, 80, 47, 49, 46, 49, 32]
}

/// The three decimal digits of a status code.
pub open spec fn status_digits(code: u16) -> Seq<u8> {
    seq![(48 + code / 100) as u8, (48 + (code / 10) % 10) as u8, (48 + code % 10) as u8]
}

/// Each header as `Name:Value` followed by a line terminator, in order.
pub open spec fn header_lines(hs: Seq<(Seq<u8>, Seq<u8>)>) -> Seq<u8>
    decreases hs.len(),
{
    if hs.len() == 0 {
        seq![]
    } else {
        header_lines(hs.drop_last()) + hs.last().0 + seq![58u8] + hs.last().1 + crlf()
    }
}

/// The wire form of a response: status line, header lines, a blank line,
/// then the body verbatim if there is one.
pub open spec fn wire_of(r: ResponseModel) -> Seq<u8> {
    status_prefix() + status_digits(r.status) + seq![32u8] + r.reason + crlf() + header_lines(r.headers)
        + crlf() + match r.body {
        Some(b) => b,
        None => seq![],
    }
}

fn append(out: &mut Vec<u8>, s: &[u8])
    ensures
        final(out)@ == old(out)@ + s@,
{
    let mut i: usize = 0;
    let ghost start = out@;
    while i < s.len()
        invariant
            i <= s@.len(),
            out@ == start + s@.subrange(0, i as int),
        decreases s.len() - i,
    {
        out.push(s[i]);
        assert(out@ =~= start + s@.subrange(0, i + 1));
        i = i + 1;
    }
    assert(s@.subrange(0, s@.len() as int) =~= s@);
}

/// Serialises a response to its wire form.
pub fn to_bytes(response: Response) -> (r: Vec<u8>)
    requires
        100 <= response.status <= 999,
    ensures
        r@ == wire_of(response@),
{
    let mut out: Vec<u8> = vec![72u8, 84, 84, 80, 47, 49, 46, 49, 32];
    let code = response.status;
    let digits: Vec<u8> = vec![(48 + code / 100) as u8, (48 + (code / 10) % 10) as u8, (48 + code % 10) as u8, 32u8];
    append(&mut out, digits.as_slice());
    append(&mut out, response.reason.as_slice());
    let line_end: Vec<u8> = vec![13u8, 10];
    append(&mut out, line_end.as_slice());
    let ghost head = out@;
    assert(head =~= status_prefix() + status_digits(code) + seq![32u8] + response.reason@ + crlf());
    let hs = &response.headers;
    let mut i: usize = 0;
    while i < hs.len()
        invariant
            i <= hs@.len(),
            line_end@ == crlf(),
            out@ == head + header_lines(headers_view(hs@).subrange(0, i as int)),
        decreases hs.len() - i,
    {
        append(&mut out, hs[i].0.as_slice());
        out.push(58u8);
        append(&mut out, hs[i].1.as_slice());
        append(&mut out, line_end.as_slice());
        let ghost sub = headers_view(hs@).subrange(0, i + 1);
        assert(sub.drop_last() =~= headers_view(hs@).subrange(0, i as int));
        assert(sub.last() == (hs@[i as int].0@, hs@[i as int].1@));
        assert(out@ =~= head + header_lines(sub));
        i = i + 1;
    }
    assert(headers_view(hs@).subrange(0, hs@.len() as int) =~= headers_view(hs@));
    append(&mut out, line_end.as_slice());
    match &response.body {
        Some(ResponseBody::Bytes(b)) => {
            append(&mut out, b.as_slice());
        },
        None => {
            assert(out@ + seq![] =~= out@);
        },
    }
    assert(out@ =~= wire_of(response@));
    out
}

/// The length that the first `content-length` header declares: zero where
/// there is none.
pub open spec fn declared_length_of(hs: Seq<(Seq<u8>, Seq<u8>)>) -> Option<nat> {
    match header_lookup(hs, content_length_name()) {
        None => Some(0),
        Some(v) => usize_of(v),
    }
}

/// The body length that a backend's headers declare, zero where none is
/// declared; `InvalidContentLength` where the declared value is no number.
pub fn declared_length(headers: &Vec<(Vec<u8>, Vec<u8>)>) -> (r: Result<usize, SendRequestError>)
    ensures
        match r {
            Ok(n) => declared_length_of(headers_view(headers@)) == Some(n as nat),
            Err(e) => declared_length_of(headers_view(headers@)) is None && e
                == SendRequestError::InvalidContentLength,
        },
{
    let name: Vec<u8> = vec![99u8, 111, 110, 116, 101, 110, 116, 45, 108, 101, 110, 103, 116, 104];
    assert(name@ =~= content_length_name());
    match find_header(headers, name.as_slice()) {
        None => Ok(0),
        Some(v) => match parse_usize(v.as_slice()) {
            Some(n) => Ok(n),
            None => Err(SendRequestError::InvalidContentLength),
        },
    }
}

/// Builds the response relayed to the client from what a backend sent: its
/// status, its headers, and the body bytes that were read. The body is kept
/// only where the headers declare a positive length.
pub fn response_from_upstream(status: u16, headers: Vec<(Vec<u8>, Vec<u8>)>, body: Vec<u8>) -> (r: Result<Response, SendRequestError>)
    ensures
        !(100 <= status <= 999) ==> r == Err::<Response, SendRequestError>(SendRequestError::InvalidStatus),
        100 <= status <= 999 && declared_length_of(headers_view(headers@)) is None ==> r == Err::<Response, SendRequestError>(SendRequestError::InvalidContentLength),
        r is Ok ==> {
            let resp = r->Ok_0@;
            &&& 100 <= status <= 999
            &&& resp.status == status
            &&& resp.headers == headers_view(headers@)
            &&& resp.reason == match reason_of(status) {
                Some(p) => p,
                None => unknown_reason(),
            }
            &&& declared_length_of(headers_view(headers@)) is Some
            &&& resp.body == if declared_length_of(headers_view(headers@)) == Some(0nat) {
                None::<Seq<u8>>
            } else {
                Some(body@)
            }
        },
        100 <= status <= 999 && declared_length_of(headers_view(headers@)) is Some ==> r is Ok,
{
    if status < 100 || status > 999 {
        return Err(SendRequestError::InvalidStatus);
    }
    let n = match declared_length(&headers) {
        Ok(n) => n,
        Err(e) => {
            return Err(e);
        },
    };
    let reason = match reason_phrase(status) {
        Some(p) => p,
        None => vec![60u8, 117, 110, 107, 110, 111, 119, 110, 32, 115, 116, 97, 116, 117, 115, 32, 99, 111, 100, 101, 62],
    };
    let body = if n == 0 {
        None
    } else {
        Some(ResponseBody::Bytes(body))
    };
    Ok(Response { status, reason, headers, body })
}

/// `http://`
pub open spec fn http_scheme() -> Seq<u8> {
    seq![104u8, 116, 116, 112, 58, 47, 47]
}

/// The URL under which a request is forwarded: the backend's authority
/// followed by the full request target, path and query.
pub fn forward_url(backend: &str, target: &[u8]) -> (r: Vec<u8>)
    ensures
        r@ == http_scheme() + backend.spec_bytes() + target@,
{
    let mut out: Vec<u8> = vec![104u8, 116, 116, 112, 58, 47, 47];
    append(&mut out, backend.as_bytes());
    append(&mut out, target);
    out
}

/// A response without a body serialises to its status line, its header
/// lines and the blank line, and nothing after them.
pub proof fn law_no_body_no_trailing_bytes(r: ResponseModel)
    requires
        r.body is None,
    ensures
        wire_of(r) == status_prefix() + status_digits(r.status) + seq![32u8] + r.reason + crlf()
            + header_lines(r.headers) + crlf(),
        wire_of(r).subrange(wire_of(r).len() - 2, wire_of(r).len() as int) == crlf(),
{
    let w = status_prefix() + status_digits(r.status) + seq![32u8] + r.reason + crlf() + header_lines(r.headers) + crlf();
    assert(wire_of(r) =~= w);
    assert(w.subrange(w.len() - 2, w.len() as int) =~= crlf());
}

} // verus!
