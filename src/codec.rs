use vstd::prelude::*;
use vstd::utf8::valid_utf8;

verus! {

/// Why a byte buffer is not an acceptable HTTP/1.1 request.
#[derive(Debug, Clone, Copy, PartialEq, Eq, Structural)]
pub enum RequestParseError {
    /// The request line names a version other than `HTTP/1.1`.
    NotHttp1,
    /// The buffer is not well-formed UTF-8.
    InvalidEncoding,
    /// The buffer holds no line at all.
    NoRequestLine,
    /// The request line is not `METHOD TARGET VERSION` with a valid method
    /// and target.
    InvalidRequestLine,
    /// A header line is malformed, or `Content-Length` is not a number.
    InvalidHeaders,
    /// `Content-Length` is positive but no bytes follow the header block.
    NoBodyFound,
}

/// The body of a request, kept as opaque bytes.
#[derive(Debug, Clone)]
pub enum RequestBody {
    Bytes(Vec<u8>),
}

/// A decoded request. Header names are in the normalised (lower-case) form;
/// repeated names are kept, in the order in which they came.
#[derive(Debug, Clone)]
pub struct Request {
    pub method: Vec<u8>,
    pub target: Vec<u8>,
    pub version: Vec<u8>,
    pub headers: Vec<(Vec<u8>, Vec<u8>)>,
    pub body: Option<RequestBody>,
}

/// The mathematical value of a request.
pub struct RequestModel {
    pub method: Seq<u8>,
    pub target: Seq<u8>,
    pub version: Seq<u8>,
    pub headers: Seq<(Seq<u8>, Seq<u8>)>,
    pub body: Option<Seq<u8>>,
}

pub open spec fn headers_view(h: Seq<(Vec<u8>, Vec<u8>)>) -> Seq<(Seq<u8>, Seq<u8>)> {
    h.map_values(|p: (Vec<u8>, Vec<u8>)| (p.0@, p.1@))
}

impl View for Request {
    type V = RequestModel;

    open spec fn view(&self) -> RequestModel {
        RequestModel {
            method: self.method@,
            target: self.target@,
            version: self.version@,
            headers: headers_view(self.headers@),
            body: match self.body {
                Some(RequestBody::Bytes(b)) => Some(b@),
                None => None,
            },
        }
    }
}

// ---------------------------------------------------------------------------
// Names for what the `http` crate and std decide.



/// Whether `http::Uri` accepts the bytes as a request target.
pub uninterp spec fn uri_ok(b: Seq<u8>) -> bool;

/// A byte that may stand in a header name: a letter, a digit, or one of
/// ``!#$%&'*+-.^_`|~``.
pub open spec fn token_byte(b: u8) -> bool {
    b == 33 || (35 <= b && b <= 39) || b == 42 || b == 43 || b == 45 || b == 46 || (48 <= b && b
        <= 57) || (65 <= b && b <= 90) || (94 <= b && b <= 122) || b == 124 || b == 126
}

/// An ASCII upper-case letter turned lower-case; any other byte unchanged.
pub open spec fn lower_byte(b: u8) -> u8 {
    if 65 <= b && b <= 90 {
        (b + 32) as u8
    } else {
        b
    }
}

/// A method token: one or more name bytes.
pub open spec fn method_ok(b: Seq<u8>) -> bool {
    b.len() >= 1 && forall|k: int| 0 <= k < b.len() ==> token_byte(#[trigger] b[k])
}

/// The normalised header name made of the bytes: present when they are
/// 1 to 65535 name bytes, and then lower-cased.
pub open spec fn header_name_of(b: Seq<u8>) -> Option<Seq<u8>> {
    if 1 <= b.len() <= 65535 && forall|k: int| 0 <= k < b.len() ==> token_byte(#[trigger] b[k]) {
        Some(b.map_values(|c: u8| lower_byte(c)))
    } else {
        None
    }
}

/// Relies on `std::str::from_utf8`: it accepts exactly the well-formed UTF-8
/// sequences.
#[verifier::external_body]
fn is_utf8(b: &[u8]) -> (r: bool)
    ensures
        r == valid_utf8(b@),
{
    std::str::from_utf8(b).is_ok()
}

/// Relies on `http::Method::from_bytes`: it accepts a non-empty sequence
/// whose every byte its `METHOD_CHARS` table maps to a non-zero byte.
#[verifier::external_body]
fn is_method(b: &[u8]) -> (r: bool)
    ensures
        r == method_ok(b@),
{
    http::Method::from_bytes(b).is_ok()
}

/// Relies on `http::Uri::try_from(&[u8])`: whether it yields a URI.
#[verifier::external_body]
fn is_uri(b: &[u8]) -> (r: bool)
    ensures
        r == uri_ok(b@),
{
    http::Uri::try_from(b).is_ok()
}

/// Relies on `http::HeaderName::from_bytes`: it accepts 1 to 65535 bytes
/// that its `HEADER_CHARS` table maps to a non-zero byte, and yields the
/// mapped (lower-cased) bytes as the name's string form.
#[verifier::external_body]
fn header_name(b: &[u8]) -> (r: Option<Vec<u8>>)
    ensures
        match r {
            Some(n) => header_name_of(b@) == Some(n@),
            None => header_name_of(b@) is None,
        },
{
    http::HeaderName::from_bytes(b).ok().map(|n| n.as_str().as_bytes().to_vec())
}

/// A byte that `http::HeaderValue` admits in a value.
pub open spec fn header_value_byte(b: u8) -> bool {
    (b >= 32 && b != 127) || b == 9
}

/// Relies on `http::HeaderValue::from_bytes`: it accepts exactly the
/// sequences whose every byte is visible ASCII, obs-text or a tab.
#[verifier::external_body]
fn is_header_value(b: &[u8]) -> (r: bool)
    ensures
        r == forall|k: int| 0 <= k < b@.len() ==> header_value_byte(#[trigger] b@[k]),
{
    http::HeaderValue::from_bytes(b).is_ok()
}

// ---------------------------------------------------------------------------
// The model of the wire format.

/// A byte that is White_Space on its own: tab, line feed, vertical tab,
/// form feed, carriage return or space.
pub open spec fn is_ascii_ws(b: u8) -> bool {
    b == 32 || (9 <= b && b <= 13)
}

/// The length of the UTF-8 encoding of a White_Space character that starts
/// at `i`, or zero if none does. Besides the ASCII ones these are U+0085,
/// U+00A0, U+1680, U+2000 to U+200A, U+2028, U+2029, U+202F, U+205F and
/// U+3000.
pub open spec fn ws_len(s: Seq<u8>, i: int) -> nat {
    if i < 0 || i >= s.len() {
        0
    } else if is_ascii_ws(s[i]) {
        1
    } else if i + 1 < s.len() && s[i] == 0xC2 && (s[i + 1] == 0x85 || s[i + 1] == 0xA0) {
        2
    } else if i + 2 < s.len() && ((s[i] == 0xE1 && s[i + 1] == 0x9A && s[i + 2] == 0x80) || (s[i]
        == 0xE2 && s[i + 1] == 0x80 && ((0x80 <= s[i + 2] && s[i + 2] <= 0x8A) || s[i + 2] == 0xA8
        || s[i + 2] == 0xA9 || s[i + 2] == 0xAF)) || (s[i] == 0xE2 && s[i + 1] == 0x81 && s[i + 2]
        == 0x9F) || (s[i] == 0xE3 && s[i + 1] == 0x80 && s[i + 2] == 0x80)) {
        3
    } else {
        0
    }
}

/// The length of the encoding of a White_Space character that ends just
/// before `j`, or zero if none does.
pub open spec fn ws_back_len(s: Seq<u8>, j: int) -> nat {
    if j < 1 || j > s.len() {
        0
    } else if is_ascii_ws(s[j - 1]) {
        1
    } else if j >= 2 && ws_len(s, j - 2) == 2 {
        2
    } else if j >= 3 && ws_len(s, j - 3) == 3 {
        3
    } else {
        0
    }
}

/// Number of bytes from `i` up to the first `\n` or the end.
pub open spec fn line_len(b: Seq<u8>, i: int) -> nat
    decreases b.len() - i,
{
    if i < 0 || i >= b.len() || b[i] == 10 {
        0
    } else {
        1 + line_len(b, i + 1)
    }
}

/// Index of the first `\n` at or after `i`, or the length if none.
pub open spec fn nl_from(b: Seq<u8>, i: int) -> int {
    i + line_len(b, i)
}

/// Index of the first `:` at or after `i`, or the length if none.
pub open spec fn colon_from(b: Seq<u8>, i: int) -> int
    decreases b.len() - i,
{
    if i >= b.len() {
        b.len() as int
    } else if b[i] == 58 {
        i
    } else {
        colon_from(b, i + 1)
    }
}

/// A line without its terminating `\r`, if it has one.
pub open spec fn strip_cr(l: Seq<u8>) -> Seq<u8> {
    if l.len() > 0 && l.last() == 13 {
        l.drop_last()
    } else {
        l
    }
}

/// The line that starts at `i`.
pub open spec fn line_at(b: Seq<u8>, i: int) -> Seq<u8> {
    strip_cr(b.subrange(i, nl_from(b, i)))
}

/// A finished token, if the one being built holds any byte.
pub open spec fn flush(cur: Seq<u8>) -> Seq<Seq<u8>> {
    if cur.len() > 0 {
        seq![cur]
    } else {
        seq![]
    }
}

/// The tokens from `i` on, `cur` being the token under way. Each step
/// consumes at least one byte, so `fuel` at least `s.len() - i` reaches
/// the end.
pub open spec fn tokens_from(s: Seq<u8>, i: int, cur: Seq<u8>, fuel: nat) -> Seq<Seq<u8>>
    decreases fuel,
{
    if fuel == 0 || i < 0 || i >= s.len() {
        flush(cur)
    } else if ws_len(s, i) > 0 {
        flush(cur) + tokens_from(s, i + ws_len(s, i), seq![], (fuel - 1) as nat)
    } else {
        tokens_from(s, i + 1, cur.push(s[i]), (fuel - 1) as nat)
    }
}

/// The maximal runs of bytes between White_Space characters, in order.
pub open spec fn tokens(s: Seq<u8>) -> Seq<Seq<u8>> {
    tokens_from(s, 0, seq![], s.len())
}

/// Where the White_Space characters that start at `i` end.
pub open spec fn skip_ws(s: Seq<u8>, i: int, fuel: nat) -> int
    decreases fuel,
{
    if fuel == 0 || ws_len(s, i) == 0 {
        i
    } else {
        skip_ws(s, i + ws_len(s, i), (fuel - 1) as nat)
    }
}

/// Where the White_Space characters that end at `j`, and start no earlier
/// than `lo`, begin.
pub open spec fn back_ws(s: Seq<u8>, j: int, lo: int, fuel: nat) -> int
    decreases fuel,
{
    if fuel == 0 || j <= lo || ws_back_len(s, j) == 0 || j - ws_back_len(s, j) < lo {
        j
    } else {
        back_ws(s, j - ws_back_len(s, j), lo, (fuel - 1) as nat)
    }
}

/// `s` without leading and trailing White_Space characters.
pub open spec fn trim(s: Seq<u8>) -> Seq<u8> {
    let lo = skip_ws(s, 0, s.len());
    s.subrange(lo, back_ws(s, s.len() as int, lo, s.len()))
}

/// A header line as (normalised name, trimmed value), split at its first
/// colon.
pub open spec fn header_of(line: Seq<u8>) -> Option<(Seq<u8>, Seq<u8>)> {
    let c = colon_from(line, 0);
    if c >= line.len() {
        None
    } else {
        let value = trim(line.subrange(c + 1, line.len() as int));
        match header_name_of(line.subrange(0, c)) {
            Some(name) => if forall|k: int| 0 <= k < value.len() ==> header_value_byte(#[trigger] value[k]) {
                Some((name, value))
            } else {
                None
            },
            None => None,
        }
    }
}

/// The headers in the lines from `i` up to the first empty line, and where
/// the bytes after that empty line start (the length if there is none).
/// Each line holds at least one byte, so `fuel` at least `b.len() - i` lets
/// the scan reach the end.
pub open spec fn headers_from(b: Seq<u8>, i: int, fuel: nat) -> Result<(Seq<(Seq<u8>, Seq<u8>)>, int), RequestParseError>
    decreases fuel,
{
    if i < 0 || i >= b.len() || fuel == 0 {
        Ok((seq![], b.len() as int))
    } else {
        let e = nl_from(b, i);
        let line = strip_cr(b.subrange(i, e));
        if line.len() == 0 {
            Ok((seq![], if e + 1 <= b.len() { e + 1 } else { b.len() as int }))
        } else {
            match header_of(line) {
                None => Err(RequestParseError::InvalidHeaders),
                Some(h) => match headers_from(b, e + 1, (fuel - 1) as nat) {
                    Ok((hs, k)) => Ok((seq![h] + hs, k)),
                    Err(x) => Err(x),
                },
            }
        }
    }
}

/// The value of the first header called `name`.
pub open spec fn header_lookup(hs: Seq<(Seq<u8>, Seq<u8>)>, name: Seq<u8>) -> Option<Seq<u8>>
    decreases hs.len(),
{
    if hs.len() == 0 {
        None
    } else if hs[0].0 == name {
        Some(hs[0].1)
    } else {
        header_lookup(hs.drop_first(), name)
    }
}

pub open spec fn is_digit(b: u8) -> bool {
    48 <= b && b <= 57
}

/// The number that a run of decimal digits writes.
pub open spec fn dec_value(s: Seq<u8>) -> nat
    decreases s.len(),
{
    if s.len() == 0 {
        0
    } else {
        dec_value(s.drop_last()) * 10 + (s.last() - 48) as nat
    }
}

/// The text without one leading `+`, if it has one.
pub open spec fn unsigned_part(s: Seq<u8>) -> Seq<u8> {
    if s.len() > 0 && s[0] == 43 {
        s.drop_first()
    } else {
        s
    }
}

pub open spec fn all_digits(d: Seq<u8>) -> bool {
    forall|k: int| 0 <= k < d.len() ==> is_digit(#[trigger] d[k])
}

/// What parsing a `usize` from the text gives: an optional `+`, then one or
/// more digits, whose value fits.
pub open spec fn usize_of(s: Seq<u8>) -> Option<nat> {
    let d = unsigned_part(s);
    if d.len() > 0 && all_digits(d) && dec_value(d) <= usize::MAX {
        Some(dec_value(d))
    } else {
        None
    }
}

pub open spec fn content_length_name() -> Seq<u8> {
    seq![99u8, 111, 110, 116, 101, 110, 116, 45, 108, 101, 110, 103, 116, 104]
}

pub open spec fn http11() -> Seq<u8> {
    seq![72u8, 84, 84, 80, 47, 49, 46, 49]
}

/// What the request line gives: method, target and version.
pub open spec fn request_line_of(line: Seq<u8>) -> Result<(Seq<u8>, Seq<u8>, Seq<u8>), RequestParseError> {
    let t = tokens(line);
    if t.len() != 3 {
        Err(RequestParseError::InvalidRequestLine)
    } else if t[2] != http11() {
        Err(RequestParseError::NotHttp1)
    } else if !method_ok(t[0]) || !uri_ok(t[1]) {
        Err(RequestParseError::InvalidRequestLine)
    } else {
        Ok((t[0], t[1], t[2]))
    }
}

/// What decoding a buffer gives.
pub open spec fn parse_spec(b: Seq<u8>) -> Result<RequestModel, RequestParseError> {
    if !valid_utf8(b) {
        Err(RequestParseError::InvalidEncoding)
    } else if b.len() == 0 {
        Err(RequestParseError::NoRequestLine)
    } else {
        match request_line_of(line_at(b, 0)) {
            Err(x) => Err(x),
            Ok((method, target, version)) => match headers_from(b, nl_from(b, 0) + 1, b.len()) {
                Err(x) => Err(x),
                Ok((hs, k)) => {
                    let req = RequestModel { method, target, version, headers: hs, body: None };
                    match header_lookup(hs, content_length_name()) {
                        None => Ok(req),
                        Some(v) => match usize_of(v) {
                            None => Err(RequestParseError::InvalidHeaders),
                            Some(n) => if n == 0 {
                                Ok(req)
                            } else if k >= b.len() {
                                Err(RequestParseError::NoBodyFound)
                            } else {
                                Ok(RequestModel { body: Some(b.subrange(k, b.len() as int)), ..req })
                            },
                        },
                    }
                },
            },
        }
    }
}

// ---------------------------------------------------------------------------
// Scanning.

pub(crate) fn bytes_eq(a: &[u8], b: &[u8]) -> (r: bool)
    ensures
        r == (a@ == b@),
{
    if a.len() != b.len() {
        return false;
    }
    let mut i: usize = 0;
    while i < a.len()
        invariant
            a@.len() == b@.len(),
            i <= a@.len(),
            forall|k: int| 0 <= k < i ==> a@[k] == b@[k],
        decreases a.len() - i,
    {
        if a[i] != b[i] {
            return false;
        }
        i = i + 1;
    }
    assert(a@ =~= b@);
    true
}

pub(crate) fn copy_range(b: &[u8], lo: usize, hi: usize) -> (r: Vec<u8>)
    requires
        lo <= hi <= b@.len(),
    ensures
        r@ == b@.subrange(lo as int, hi as int),
{
    let mut r: Vec<u8> = Vec::new();
    let mut i: usize = lo;
    while i < hi
        invariant
            lo <= i <= hi <= b@.len(),
            r@ == b@.subrange(lo as int, i as int),
        decreases hi - i,
    {
        r.push(b[i]);
        assert(r@ =~= b@.subrange(lo as int, i + 1));
        i = i + 1;
    }
    r
}

fn find_nl(b: &[u8], i: usize) -> (e: usize)
    requires
        i <= b@.len(),
    ensures
        e == nl_from(b@, i as int),
        i <= e <= b@.len(),
{
    let mut j: usize = i;
    while j < b.len() && b[j] != 10
        invariant
            i <= j <= b@.len(),
            nl_from(b@, i as int) == nl_from(b@, j as int),
        decreases b.len() - j,
    {
        j = j + 1;
    }
    j
}

fn find_colon(b: &[u8]) -> (c: usize)
    ensures
        c == colon_from(b@, 0),
        c <= b@.len(),
{
    let mut j: usize = 0;
    while j < b.len() && b[j] != 58
        invariant
            j <= b@.len(),
            colon_from(b@, 0) == colon_from(b@, j as int),
        decreases b.len() - j,
    {
        j = j + 1;
    }
    j
}

fn line_from(b: &[u8], i: usize, e: usize) -> (r: Vec<u8>)
    requires
        i <= e <= b@.len(),
    ensures
        r@ == strip_cr(b@.subrange(i as int, e as int)),
{
    let mut r = copy_range(b, i, e);
    if r.len() > 0 && r[r.len() - 1] == 13 {
        r.pop();
        assert(r@ =~= b@.subrange(i as int, e as int).drop_last());
    }
    r
}

fn ws_len_at(s: &[u8], i: usize) -> (w: usize)
    requires
        i <= s@.len(),
    ensures
        w == ws_len(s@, i as int),
        i + w <= s@.len(),
{
    if i >= s.len() {
        return 0;
    }
    let c = s[i];
    if c == 32 || (9 <= c && c <= 13) {
        return 1;
    }
    if i + 1 < s.len() && c == 0xC2 && (s[i + 1] == 0x85 || s[i + 1] == 0xA0) {
        return 2;
    }
    if s.len() - i > 2 {
        let d = s[i + 1];
        let e = s[i + 2];
        if (c == 0xE1 && d == 0x9A && e == 0x80) || (c == 0xE2 && d == 0x80 && ((0x80 <= e && e
            <= 0x8A) || e == 0xA8 || e == 0xA9 || e == 0xAF)) || (c == 0xE2 && d == 0x81 && e
            == 0x9F) || (c == 0xE3 && d == 0x80 && e == 0x80) {
            return 3;
        }
    }
    0
}

fn ws_back_len_at(s: &[u8], j: usize) -> (w: usize)
    requires
        j <= s@.len(),
    ensures
        w == ws_back_len(s@, j as int),
        w <= j,
{
    if j < 1 {
        return 0;
    }
    let c = s[j - 1];
    if c == 32 || (9 <= c && c <= 13) {
        return 1;
    }
    if j >= 2 && ws_len_at(s, j - 2) == 2 {
        return 2;
    }
    if j >= 3 && ws_len_at(s, j - 3) == 3 {
        return 3;
    }
    0
}

pub open spec fn tokens_view(ts: Seq<Vec<u8>>) -> Seq<Seq<u8>> {
    ts.map_values(|t: Vec<u8>| t@)
}

fn split_tokens(s: &[u8]) -> (r: Vec<Vec<u8>>)
    ensures
        tokens_view(r@) == tokens(s@),
{
    let mut ts: Vec<Vec<u8>> = Vec::new();
    let mut cur: Vec<u8> = Vec::new();
    let mut i: usize = 0;
    let ghost mut fuel: nat = s@.len();
    assert(tokens_view(ts@) + tokens(s@) =~= tokens(s@));
    while i < s.len()
        invariant
            i <= s@.len(),
            fuel >= s@.len() - i,
            tokens(s@) == tokens_view(ts@) + tokens_from(s@, i as int, cur@, fuel),
        decreases s.len() - i,
    {
        let w = ws_len_at(s, i);
        if w > 0 {
            let ghost old_ts = tokens_view(ts@);
            let ghost rest = tokens_from(s@, i + w, seq![], (fuel - 1) as nat);
            if cur.len() > 0 {
                ts.push(cur);
                assert(tokens_view(ts@) =~= old_ts + flush(cur@));
            } else {
                assert(tokens_view(ts@) =~= old_ts + flush(cur@));
            }
            assert(old_ts + (flush(cur@) + rest) =~= (old_ts + flush(cur@)) + rest);
            cur = Vec::new();
            i = i + w;
        } else {
            cur.push(s[i]);
            i = i + 1;
        }
        proof {
            fuel = (fuel - 1) as nat;
        }
    }
    let ghost old_ts = tokens_view(ts@);
    if cur.len() > 0 {
        ts.push(cur);
    }
    assert(tokens_view(ts@) =~= old_ts + flush(cur@));
    ts
}

fn trim_bytes(s: &[u8]) -> (r: Vec<u8>)
    ensures
        r@ == trim(s@),
{
    let mut lo: usize = 0;
    let ghost mut fuel: nat = s@.len();
    loop
        invariant
            lo <= s@.len(),
            fuel >= s@.len() - lo,
            skip_ws(s@, 0, s@.len()) == skip_ws(s@, lo as int, fuel),
        ensures
            lo <= s@.len(),
            lo == skip_ws(s@, 0, s@.len()),
        decreases s.len() - lo,
    {
        let w = ws_len_at(s, lo);
        if w == 0 {
            assert(skip_ws(s@, lo as int, fuel) == lo);
            break;
        }
        lo = lo + w;
        proof {
            fuel = (fuel - 1) as nat;
        }
    }
    let mut hi: usize = s.len();
    let ghost mut fuel2: nat = s@.len();
    loop
        invariant
            lo <= hi <= s@.len(),
            fuel2 >= hi - lo,
            lo == skip_ws(s@, 0, s@.len()),
            back_ws(s@, s@.len() as int, lo as int, s@.len()) == back_ws(s@, hi as int, lo as int, fuel2),
        ensures
            lo <= hi <= s@.len(),
            lo == skip_ws(s@, 0, s@.len()),
            hi == back_ws(s@, s@.len() as int, lo as int, s@.len()),
        decreases hi - lo,
    {
        if hi <= lo {
            assert(back_ws(s@, hi as int, lo as int, fuel2) == hi);
            break;
        }
        let w = ws_back_len_at(s, hi);
        if w == 0 || hi - w < lo {
            assert(back_ws(s@, hi as int, lo as int, fuel2) == hi);
            break;
        }
        hi = hi - w;
        proof {
            fuel2 = (fuel2 - 1) as nat;
        }
    }
    copy_range(s, lo, hi)
}

fn parse_header(line: &[u8]) -> (r: Option<(Vec<u8>, Vec<u8>)>)
    ensures
        match r {
            Some(h) => header_of(line@) == Some((h.0@, h.1@)),
            None => header_of(line@) is None,
        },
{
    let c = find_colon(line);
    if c >= line.len() {
        return None;
    }
    let raw_name = copy_range(line, 0, c);
    let raw_value = copy_range(line, c + 1, line.len());
    let value = trim_bytes(raw_value.as_slice());
    match header_name(raw_name.as_slice()) {
        Some(name) => {
            if is_header_value(value.as_slice()) {
                Some((name, value))
            } else {
                None
            }
        },
        None => None,
    }
}

/// `acc` followed by what a scan from a later line gives.
pub open spec fn after(
    acc: Seq<(Seq<u8>, Seq<u8>)>,
    rest: Result<(Seq<(Seq<u8>, Seq<u8>)>, int), RequestParseError>,
) -> Result<(Seq<(Seq<u8>, Seq<u8>)>, int), RequestParseError> {
    match rest {
        Ok((hs, k)) => Ok((acc + hs, k)),
        Err(x) => Err(x),
    }
}

fn parse_headers(b: &[u8], start: usize) -> (r: Result<(Vec<(Vec<u8>, Vec<u8>)>, usize), RequestParseError>)
    ensures
        match r {
            Ok((hs, k)) => headers_from(b@, start as int, b@.len()) == Ok::<_, RequestParseError>((headers_view(hs@), k as int)),
            Err(x) => headers_from(b@, start as int, b@.len()) == Err::<(Seq<(Seq<u8>, Seq<u8>)>, int), _>(x),
        },
{
    let mut acc: Vec<(Vec<u8>, Vec<u8>)> = Vec::new();
    let mut i: usize = start;
    let ghost mut fuel: nat = b@.len();
    assert(headers_view(acc@) + seq![] =~= seq![]);
    assert forall|x: Result<(Seq<(Seq<u8>, Seq<u8>)>, int), RequestParseError>| after(headers_view(acc@), x) == x by {
        match x {
            Ok((hs, k)) => { assert(headers_view(acc@) + hs =~= hs); },
            Err(_) => {},
        }
    }
    while i < b.len()
        invariant
            start <= i,
            fuel >= b@.len() - i,
            headers_from(b@, start as int, b@.len()) == after(headers_view(acc@), headers_from(b@, i as int, fuel)),
        decreases b.len() - i,
    {
        let e = find_nl(b, i);
        let line = line_from(b, i, e);
        if line.len() == 0 {
            let k = if e < b.len() { e + 1 } else { b.len() };
            assert(headers_view(acc@) + seq![] =~= headers_view(acc@));
            return Ok((acc, k));
        }
        match parse_header(line.as_slice()) {
            None => {
                return Err(RequestParseError::InvalidHeaders);
            },
            Some(h) => {
                let ghost old_acc = headers_view(acc@);
                let ghost hv = (h.0@, h.1@);
                let ghost rest = headers_from(b@, e + 1, (fuel - 1) as nat);
                acc.push(h);
                assert(headers_view(acc@) =~= old_acc.push(hv));
                proof {
                    match rest {
                        Ok((hs, k)) => {
                            assert(old_acc + (seq![hv] + hs) =~= old_acc.push(hv) + hs);
                        },
                        Err(_) => {},
                    }
                }
                if e < b.len() {
                    i = e + 1;
                } else {
                    i = b.len();
                }
                proof {
                    fuel = (fuel - 1) as nat;
                }
            },
        }
    }
    assert(headers_view(acc@) + seq![] =~= headers_view(acc@));
    Ok((acc, b.len()))
}

pub(crate) fn parse_usize(s: &[u8]) -> (r: Option<usize>)
    ensures
        match r {
            Some(n) => usize_of(s@) == Some(n as nat),
            None => usize_of(s@) is None,
        },
{
    let ghost d = unsigned_part(s@);
    let lo: usize = if s.len() > 0 && s[0] == 43 { 1 } else { 0 };
    assert(d =~= s@.subrange(lo as int, s@.len() as int));
    if lo >= s.len() {
        return None;
    }
    let mut acc: usize = 0;
    let mut i: usize = lo;
    while i < s.len()
        invariant
            lo <= i <= s@.len(),
            d == unsigned_part(s@),
            d == s@.subrange(lo as int, s@.len() as int),
            forall|k: int| 0 <= k < i - lo ==> is_digit(#[trigger] d[k]),
            acc as nat == dec_value(d.subrange(0, i - lo)),
        decreases s.len() - i,
    {
        let c = s[i];
        if !(48 <= c && c <= 57) {
            assert(!is_digit(d[i - lo]));
            assert(!all_digits(d));
            return None;
        }
        let digit: usize = (c - 48) as usize;
        assert(d.subrange(0, i + 1 - lo).drop_last() =~= d.subrange(0, i - lo));
        if acc > (usize::MAX - digit) / 10 {
            proof {
                assert(acc * 10 + digit > usize::MAX) by (nonlinear_arith)
                    requires acc > (usize::MAX - digit) / 10, digit <= 9;
                assert(d.subrange(0, i + 1 - lo).last() == c);
                assert(dec_value(d.subrange(0, i + 1 - lo)) == acc * 10 + digit);
                lemma_dec_value_prefix(d, i + 1 - lo);
            }
            return None;
        }
        proof {
            assert(acc * 10 + digit <= usize::MAX) by (nonlinear_arith)
                requires acc <= (usize::MAX - digit) / 10, digit <= 9;
        }
        assert(d.subrange(0, i + 1 - lo).last() == c);
        acc = acc * 10 + digit;
        i = i + 1;
    }
    assert(d.subrange(0, d.len() as int) =~= d);
    Some(acc)
}

/// A longer run of digits never writes a smaller number.
proof fn lemma_dec_value_prefix(d: Seq<u8>, n: int)
    requires
        0 <= n <= d.len(),
    ensures
        dec_value(d.subrange(0, n)) <= dec_value(d),
    decreases d.len(),
{
    if n < d.len() {
        assert(d.drop_last() =~= d.subrange(0, d.len() - 1));
        assert(d.drop_last().subrange(0, n) =~= d.subrange(0, n));
        lemma_dec_value_prefix(d.drop_last(), n);
    } else {
        assert(d.subrange(0, n) =~= d);
    }
}

pub(crate) fn find_header<'a>(hs: &'a Vec<(Vec<u8>, Vec<u8>)>, name: &[u8]) -> (r: Option<&'a Vec<u8>>)
    ensures
        match r {
            Some(v) => header_lookup(headers_view(hs@), name@) == Some(v@),
            None => header_lookup(headers_view(hs@), name@) is None,
        },
{
    let mut i: usize = 0;
    assert(headers_view(hs@).subrange(0, hs@.len() as int) =~= headers_view(hs@));
    while i < hs.len()
        invariant
            i <= hs@.len(),
            header_lookup(headers_view(hs@), name@) == header_lookup(
                headers_view(hs@).subrange(i as int, hs@.len() as int),
                name@,
            ),
        decreases hs.len() - i,
    {
        let ghost rest = headers_view(hs@).subrange(i as int, hs@.len() as int);
        assert(rest[0] == (hs@[i as int].0@, hs@[i as int].1@));
        if bytes_eq(hs[i].0.as_slice(), name) {
            return Some(&hs[i].1);
        }
        assert(rest.drop_first() =~= headers_view(hs@).subrange(i + 1, hs@.len() as int));
        i = i + 1;
    }
    None
}

/// Splits a request line into method, target and version, and checks each.
fn parse_request_line(line: &[u8]) -> (r: Result<(Vec<u8>, Vec<u8>, Vec<u8>), RequestParseError>)
    ensures
        match r {
            Ok((m, t, v)) => request_line_of(line@) == Ok::<_, RequestParseError>((m@, t@, v@)),
            Err(x) => request_line_of(line@) == Err::<(Seq<u8>, Seq<u8>, Seq<u8>), _>(x),
        },
{
    let mut t = split_tokens(line);
    if t.len() != 3 {
        return Err(RequestParseError::InvalidRequestLine);
    }
    let version_text: Vec<u8> = vec![72u8, 84, 84, 80, 47, 49, 46, 49];
    assert(version_text@ =~= http11());
    assert(t@[2]@ == tokens_view(t@)[2]);
    if !bytes_eq(t[2].as_slice(), version_text.as_slice()) {
        return Err(RequestParseError::NotHttp1);
    }
    if !is_method(t[0].as_slice()) || !is_uri(t[1].as_slice()) {
        return Err(RequestParseError::InvalidRequestLine);
    }
    let ghost tv = tokens_view(t@);
    let version = t.pop().unwrap();
    let target = t.pop().unwrap();
    let method = t.pop().unwrap();
    assert(method@ == tv[0] && target@ == tv[1] && version@ == tv[2]);
    Ok((method, target, version))
}

/// Decodes one complete HTTP/1.1 request from `raw_bytes`.
///
/// The buffer must be valid UTF-8. Its first line must hold exactly three
/// whitespace-separated tokens, the last of them `HTTP/1.1`. The lines that
/// follow, up to the first empty one, are `Name: Value` headers. A positive
/// `Content-Length` (the first such header) makes every byte after the empty
/// line the body.
pub fn parse(raw_bytes: &[u8]) -> (r: Result<Request, RequestParseError>)
    ensures
        match r {
            Ok(req) => parse_spec(raw_bytes@) == Ok::<RequestModel, RequestParseError>(req@),
            Err(e) => parse_spec(raw_bytes@) == Err::<RequestModel, RequestParseError>(e),
        },
{
    let b = raw_bytes;
    if !is_utf8(b) {
        return Err(RequestParseError::InvalidEncoding);
    }
    if b.len() == 0 {
        return Err(RequestParseError::NoRequestLine);
    }
    let e0 = find_nl(b, 0);
    let first = line_from(b, 0, e0);
    let (method, target, version) = match parse_request_line(first.as_slice()) {
        Ok(parts) => parts,
        Err(x) => {
            return Err(x);
        },
    };
    let start: usize = if e0 < b.len() { e0 + 1 } else { b.len() };
    proof {
        if e0 >= b@.len() {
            assert(headers_from(b@, start as int, b@.len()) == headers_from(b@, e0 + 1, b@.len()));
        }
    }
    let (headers, k) = match parse_headers(b, start) {
        Ok(p) => p,
        Err(x) => {
            return Err(x);
        },
    };
    let name: Vec<u8> = vec![99u8, 111, 110, 116, 101, 110, 116, 45, 108, 101, 110, 103, 116, 104];
    assert(name@ =~= content_length_name());
    let n = match find_header(&headers, name.as_slice()) {
        None => 0,
        Some(v) => match parse_usize(v.as_slice()) {
            None => {
                return Err(RequestParseError::InvalidHeaders);
            },
            Some(n) => n,
        },
    };
    let body = if n == 0 {
        None
    } else if k >= b.len() {
        return Err(RequestParseError::NoBodyFound);
    } else {
        Some(RequestBody::Bytes(copy_range(b, k, b.len())))
    };
    let req = Request { method, target, version, headers, body };
    Ok(req)
}

/// A request line of three tokens whose version is not `HTTP/1.1` is
/// refused as an unsupported version, whatever the headers that follow.
pub proof fn law_other_version_is_refused(b: Seq<u8>)
    requires
        valid_utf8(b),
        b.len() > 0,
        tokens(line_at(b, 0)).len() == 3,
        tokens(line_at(b, 0))[2] != http11(),
    ensures
        parse_spec(b) == Err::<RequestModel, RequestParseError>(RequestParseError::NotHttp1),
{
}

/// A request line of any token count other than three, two among them, is
/// refused as an invalid request line.
pub proof fn law_wrong_token_count_is_refused(b: Seq<u8>)
    requires
        valid_utf8(b),
        b.len() > 0,
        tokens(line_at(b, 0)).len() != 3,
    ensures
        parse_spec(b) == Err::<RequestModel, RequestParseError>(RequestParseError::InvalidRequestLine),
{
}

/// Header names are matched without regard to ASCII case: two spellings that
/// differ only in case are accepted alike and name the same header.
pub proof fn law_header_names_ignore_case(a: Seq<u8>, b: Seq<u8>)
    requires
        a.len() == b.len(),
        forall|k: int| 0 <= k < a.len() ==> lower_byte(#[trigger] a[k]) == lower_byte(b[k]),
    ensures
        header_name_of(a) == header_name_of(b),
{
    assert forall|k: int| 0 <= k < a.len() implies token_byte(#[trigger] a[k]) == token_byte(b[k]) by {
        assert(lower_byte(a[k]) == lower_byte(b[k]));
    }
    if header_name_of(a) is Some {
        assert(forall|k: int| 0 <= k < b.len() ==> token_byte(#[trigger] b[k]) == token_byte(a[k]));
        assert(a.map_values(|c: u8| lower_byte(c)) =~= b.map_values(|c: u8| lower_byte(c)));
    } else if header_name_of(b) is Some {
        assert(forall|k: int| 0 <= k < b.len() ==> token_byte(#[trigger] b[k]) == token_byte(a[k]));
    }
}

} // verus!
