//! The request parser: splits a received buffer into start line, header
//! block and body, and assembles a `Request` whose text fields all borrow
//! from that buffer.
use vstd::prelude::*;
use vstd::string::StringSliceAdditionalSpecFns;
use vstd::utf8::valid_utf8;
use crate::header::{add_lines, parse_headers, Header};
use crate::method::{lemma_method_of_name, method_name, method_of, Method};
use crate::multimap::{upsert, Entries};
use crate::query_string::{add_pair, add_pieces, parse_query, QueryString};
use crate::text::{
    after, blank_line, crlf, cut, decode_utf8_text, find, find_byte, find_byte_in, find_in,
    first_at, lemma_find, lemma_find_at, lemma_find_byte_at, lemma_find_byte_none,
    lemma_find_none, lemma_first_unique, occurs_at, same_bytes, trimmed, AMP, COLON, CR, EQUALS,
    LF, NUL, QUESTION, SP,
};

verus! {

/// Why a buffer is not a request.
#[derive(Debug, Clone, Copy, PartialEq, Eq, Structural)]
pub enum ParseError {
    /// No line terminator, or fewer than three tokens on the start line.
    InvalidRequest,
    /// The bytes are not valid UTF-8.
    InvalidEncoding,
    /// The protocol version is not `HTTP/1.1`.
    InvalidProtocol,
    /// The verb names no method.
    InvalidMethod,
}

impl ParseError {
    /// A short description of the error.
    pub fn message(&self) -> (r: &'static str)
        ensures
            *self == ParseError::InvalidRequest ==> r@ == "Invalid Request"@,
            *self == ParseError::InvalidEncoding ==> r@ == "Invalid Encoding"@,
            *self == ParseError::InvalidProtocol ==> r@ == "Invalid Protocol"@,
            *self == ParseError::InvalidMethod ==> r@ == "Invalid Method"@,
    {
        match self {
            ParseError::InvalidRequest => "Invalid Request",
            ParseError::InvalidEncoding => "Invalid Encoding",
            ParseError::InvalidProtocol => "Invalid Protocol",
            ParseError::InvalidMethod => "Invalid Method",
        }
    }
}

/// The model of a parsed request: each text field as the bytes it spans.
pub struct RequestModel {
    pub method: Method,
    pub path: Seq<u8>,
    pub query: Option<Entries>,
    pub headers: Entries,
    pub body: Seq<u8>,
}

/// The only protocol version accepted, `HTTP/1.1`.
pub open spec fn http_version() -> Seq<u8> {
    seq![72u8, 84, 84, 80, 47, 49, 46, 49]
}

/// The first three tokens of a start line split at single spaces: method,
/// target and protocol. Tokens after the third are ignored.
pub open spec fn start_tokens(line: Seq<u8>) -> Option<(Seq<u8>, Seq<u8>, Seq<u8>)> {
    let a = find_byte(line, SP);
    if 0 <= a < line.len() {
        let r1 = line.subrange(a + 1, line.len() as int);
        let b = find_byte(r1, SP);
        if 0 <= b < r1.len() {
            let r2 = r1.subrange(b + 1, r1.len() as int);
            let c = find_byte(r2, SP);
            let protocol = if 0 <= c < r2.len() {
                r2.subrange(0, c)
            } else {
                r2
            };
            Some((line.subrange(0, a), r1.subrange(0, b), protocol))
        } else {
            None
        }
    } else {
        None
    }
}

/// The path of a request target: all of it before the first `?`.
pub open spec fn target_path(t: Seq<u8>) -> Seq<u8> {
    let q = find_byte(t, QUESTION);
    if 0 <= q < t.len() {
        t.subrange(0, q)
    } else {
        t
    }
}

/// The query of a request target: the map of what follows the first `?`,
/// absent when there is no `?`.
pub open spec fn target_query(t: Seq<u8>) -> Option<Entries> {
    let q = find_byte(t, QUESTION);
    if 0 <= q < t.len() {
        Some(parse_query(t.subrange(q + 1, t.len() as int)))
    } else {
        None
    }
}

/// The bytes before the first NUL byte, or all of them.
pub open spec fn until_nul(b: Seq<u8>) -> Seq<u8> {
    let k = find_byte(b, NUL);
    if 0 <= k < b.len() {
        b.subrange(0, k)
    } else {
        b
    }
}

/// The header block of what follows the start line (`tail` starts at the
/// start line's `\r\n`): the lines up to the blank line, each with its own
/// `\r\n`; empty when there is no blank line.
pub open spec fn head_block(tail: Seq<u8>) -> Seq<u8> {
    let j = find(tail, blank_line());
    if 0 <= j && j + 4 <= tail.len() {
        tail.subrange(2, j + 2)
    } else {
        Seq::empty()
    }
}

/// The body of what follows the start line: all after the blank line, cut at
/// the first NUL byte; empty when there is no blank line.
pub open spec fn body_of(tail: Seq<u8>) -> Seq<u8> {
    let j = find(tail, blank_line());
    if 0 <= j && j + 4 <= tail.len() {
        until_nul(tail.subrange(j + 4, tail.len() as int))
    } else {
        Seq::empty()
    }
}

/// What a text parses to.
pub open spec fn parse_request(t: Seq<u8>) -> Result<RequestModel, ParseError> {
    let i = find(t, crlf());
    if !(0 <= i && i + 2 <= t.len()) {
        Err(ParseError::InvalidRequest)
    } else {
        match start_tokens(t.subrange(0, i)) {
            None => Err(ParseError::InvalidRequest),
            Some((m, target, protocol)) => {
                if protocol != http_version() {
                    Err(ParseError::InvalidProtocol)
                } else {
                    match method_of(m) {
                        None => Err(ParseError::InvalidMethod),
                        Some(method) => {
                            let tail = t.subrange(i, t.len() as int);
                            Ok(
                                RequestModel {
                                    method,
                                    path: target_path(target),
                                    query: target_query(target),
                                    headers: parse_headers(head_block(tail)),
                                    body: body_of(tail),
                                },
                            )
                        },
                    }
                }
            },
        }
    }
}

/// What a received buffer parses to: its text's request when it is valid
/// UTF-8.
pub open spec fn parse_buffer(b: Seq<u8>) -> Result<RequestModel, ParseError> {
    if valid_utf8(b) {
        parse_request(b)
    } else {
        Err(ParseError::InvalidEncoding)
    }
}

/// No byte of `s` is `c`.
pub open spec fn avoids(s: Seq<u8>, c: u8) -> bool {
    forall|i: int| 0 <= i < s.len() ==> s[i] != c
}

/// A request of the form `METHOD /path?k=v HTTP/1.1\r\nName:value\r\n\r\nBODY`.
pub open spec fn simple_request(
    m: Method,
    path: Seq<u8>,
    k: Seq<u8>,
    v: Seq<u8>,
    name: Seq<u8>,
    value: Seq<u8>,
    body: Seq<u8>,
) -> Seq<u8> {
    method_name(m) + seq![SP] + path + seq![QUESTION] + k + seq![EQUALS] + v + seq![SP]
        + http_version() + crlf() + name + seq![COLON] + value + blank_line() + body
}

/// Parsing is a function of the buffer's bytes: two parses of one buffer give
/// equal requests.
pub proof fn lemma_parse_deterministic(b1: Seq<u8>, b2: Seq<u8>)
    requires
        b1 == b2,
    ensures
        parse_buffer(b1) == parse_buffer(b2),
{
}

/// Every method's spelling is upper-case ASCII letters.
proof fn lemma_method_name_letters(m: Method)
    ensures
        forall|i: int| 0 <= i < method_name(m).len() ==> 65 <= #[trigger] method_name(m)[i] <= 90,
{
}

/// The start line `METHOD target HTTP/1.1` holds no `\r` and splits into its
/// three tokens.
proof fn lemma_start_line(m: Method, target: Seq<u8>)
    requires
        avoids(target, SP) && avoids(target, CR),
    ensures
        avoids(method_name(m) + seq![SP] + target + seq![SP] + http_version(), CR),
        start_tokens(method_name(m) + seq![SP] + target + seq![SP] + http_version()) == Some(
            (method_name(m), target, http_version()),
        ),
{
    let mn = method_name(m);
    let line = mn + seq![SP] + target + seq![SP] + http_version();
    lemma_method_name_letters(m);
    let a = mn.len() as int;
    let tl = target.len() as int;
    assert forall|j: int| 0 <= j < line.len() implies line[j] != CR by {
        if j < a {
            assert(line[j] == mn[j]);
        } else if a < j < a + 1 + tl {
            assert(line[j] == target[j - a - 1]);
        } else if j > a + 1 + tl {
            assert(line[j] == http_version()[j - a - 2 - tl]);
        }
    }
    assert forall|j: int| 0 <= j < a implies line[j] != SP by {
        assert(line[j] == mn[j]);
    }
    lemma_find_byte_at(line, SP, a);
    let r1 = line.subrange(a + 1, line.len() as int);
    assert(r1 =~= target + seq![SP] + http_version());
    assert forall|j: int| 0 <= j < tl implies r1[j] != SP by {
        assert(r1[j] == target[j]);
    }
    lemma_find_byte_at(r1, SP, tl);
    let r2 = r1.subrange(tl + 1, r1.len() as int);
    assert(r2 =~= http_version());
    lemma_find_byte_none(r2, SP);
    assert(line.subrange(0, a) =~= mn);
    assert(r1.subrange(0, tl) =~= target);
}

/// The target `/path?k=v` has that path and a query of that one pair.
proof fn lemma_simple_target(path: Seq<u8>, k: Seq<u8>, v: Seq<u8>)
    requires
        avoids(path, QUESTION),
        avoids(k, AMP) && avoids(k, EQUALS),
        avoids(v, AMP),
    ensures
        target_path(path + seq![QUESTION] + (k + seq![EQUALS] + v)) == path,
        target_query(path + seq![QUESTION] + (k + seq![EQUALS] + v)) == Some(seq![(k, seq![v])]),
{
    let kv = k + seq![EQUALS] + v;
    let target = path + seq![QUESTION] + kv;
    assert forall|j: int| 0 <= j < path.len() implies target[j] != QUESTION by {
        assert(target[j] == path[j]);
    }
    lemma_find_byte_at(target, QUESTION, path.len() as int);
    assert(target.subrange(0, path.len() as int) =~= path);
    assert(target.subrange(path.len() as int + 1, target.len() as int) =~= kv);
    assert forall|j: int| 0 <= j < kv.len() implies kv[j] != AMP by {
        if j < k.len() {
            assert(kv[j] == k[j]);
        } else if j > k.len() {
            assert(kv[j] == v[j - k.len() - 1]);
        }
    }
    lemma_find_byte_none(kv, AMP);
    assert(add_pieces(Seq::empty(), kv) == add_pair(Seq::empty(), kv));
    assert forall|j: int| 0 <= j < k.len() implies kv[j] != EQUALS by {
        assert(kv[j] == k[j]);
    }
    lemma_find_byte_at(kv, EQUALS, k.len() as int);
    assert(kv.subrange(0, k.len() as int) =~= k);
    assert(kv.subrange(k.len() as int + 1, kv.len() as int) =~= v);
    let empty = Seq::<(Seq<u8>, Seq<Seq<u8>>)>::empty();
    assert(upsert(empty, k, v) =~= seq![(k, seq![v])]);
}

/// After the start line, `\r\nName:value\r\n\r\nBODY` has the header block
/// `Name:value\r\n` and the body `BODY`.
proof fn lemma_simple_tail(hv: Seq<u8>, body: Seq<u8>)
    requires
        hv.len() >= 1,
        avoids(hv, CR),
        avoids(body, NUL),
    ensures
        head_block(crlf() + hv + blank_line() + body) == hv + crlf(),
        body_of(crlf() + hv + blank_line() + body) == body,
{
    let tail = crlf() + hv + blank_line() + body;
    let j0 = 2 + hv.len() as int;
    assert(tail.subrange(j0, j0 + 4) =~= blank_line());
    assert forall|j: int| 0 <= j < j0 implies !occurs_at(tail, blank_line(), j) by {
        if occurs_at(tail, blank_line(), j) {
            assert(tail.subrange(j, j + 4)[0] == CR);
            assert(tail.subrange(j, j + 4)[2] == CR);
            if j >= 2 {
                assert(tail[j] == hv[j - 2]);
            } else if j == 1 {
                assert(tail[1] == LF);
            } else {
                assert(tail[2] == hv[0]);
            }
        }
    }
    assert(first_at(tail, blank_line(), j0));
    lemma_find(tail, blank_line());
    lemma_first_unique(tail, blank_line(), j0, find(tail, blank_line()));
    assert(tail.subrange(2, j0 + 2) =~= hv + crlf());
    assert(tail.subrange(j0 + 4, tail.len() as int) =~= body);
    lemma_find_byte_none(body, NUL);
}

/// The block `Name:value\r\n` holds one header, name and value trimmed.
proof fn lemma_one_header(name: Seq<u8>, value: Seq<u8>)
    requires
        avoids(name, COLON) && avoids(name, CR),
        avoids(value, CR),
    ensures
        avoids(name + seq![COLON] + value, CR),
        parse_headers(name + seq![COLON] + value + crlf()) == seq![
            (trimmed(name), seq![trimmed(value)]),
        ],
{
    let hv = name + seq![COLON] + value;
    let block = hv + crlf();
    let hl = hv.len() as int;
    assert forall|j: int| 0 <= j < hl implies hv[j] != CR by {
        if j < name.len() {
            assert(hv[j] == name[j]);
        } else if j > name.len() {
            assert(hv[j] == value[j - 1 - name.len()]);
        }
    }
    assert(block.subrange(hl, hl + 2) =~= crlf());
    assert forall|j: int| 0 <= j < hl implies block[j] != crlf()[0] by {
        assert(block[j] == hv[j]);
    }
    lemma_find_at(block, crlf(), hl);
    assert(block.subrange(0, hl) =~= hv);
    assert forall|j: int| 0 <= j < name.len() implies hv[j] != COLON by {
        assert(hv[j] == name[j]);
    }
    lemma_find_byte_at(hv, COLON, name.len() as int);
    assert(hv.subrange(0, name.len() as int) =~= name);
    assert(hv.subrange(name.len() as int + 1, hv.len() as int) =~= value);
    let empty = Seq::<(Seq<u8>, Seq<Seq<u8>>)>::empty();
    let acc = upsert(empty, trimmed(name), trimmed(value));
    assert(acc =~= seq![(trimmed(name), seq![trimmed(value)])]);
    let rest = block.subrange(hl + 2, block.len() as int);
    assert(rest =~= Seq::<u8>::empty());
    lemma_find_none(rest, crlf());
    assert(add_lines(acc, rest) == acc);
    assert(add_lines(empty, block) == add_lines(acc, rest));
}

/// A start line free of `\r` followed by a tail that starts with `\r\n`
/// ends at that `\r\n`.
proof fn lemma_line_then_tail(line: Seq<u8>, tail: Seq<u8>)
    requires
        avoids(line, CR),
        tail.len() >= 2,
        tail[0] == CR,
        tail[1] == LF,
    ensures
        find(line + tail, crlf()) == line.len(),
        (line + tail).subrange(0, line.len() as int) == line,
        (line + tail).subrange(line.len() as int, (line + tail).len() as int) == tail,
{
    let t = line + tail;
    let ll = line.len() as int;
    assert(t.subrange(ll, ll + 2) =~= crlf());
    assert forall|j: int| 0 <= j < ll implies t[j] != crlf()[0] by {
        assert(t[j] == line[j]);
    }
    lemma_find_at(t, crlf(), ll);
    assert(t.subrange(0, ll) =~= line);
    assert(t.subrange(ll, t.len() as int) =~= tail);
}

/// The target `/path?k=v` holds no space and no `\r`.
proof fn lemma_target_clean(path: Seq<u8>, k: Seq<u8>, v: Seq<u8>)
    requires
        avoids(path, SP) && avoids(path, CR),
        avoids(k, SP) && avoids(k, CR),
        avoids(v, SP) && avoids(v, CR),
    ensures
        avoids(path + seq![QUESTION] + (k + seq![EQUALS] + v), SP),
        avoids(path + seq![QUESTION] + (k + seq![EQUALS] + v), CR),
{
    let kv = k + seq![EQUALS] + v;
    let target = path + seq![QUESTION] + kv;
    assert forall|j: int| 0 <= j < kv.len() implies kv[j] != SP && kv[j] != CR by {
        if j < k.len() {
            assert(kv[j] == k[j]);
        } else if j > k.len() {
            assert(kv[j] == v[j - k.len() - 1]);
        }
    }
    assert forall|j: int| 0 <= j < target.len() implies target[j] != SP && target[j] != CR by {
        if j < path.len() {
            assert(target[j] == path[j]);
        } else if j > path.len() {
            assert(target[j] == kv[j - path.len() - 1]);
        }
    }
}

/// A request of the form `METHOD /path?k=v HTTP/1.1\r\nName:value\r\n\r\nBODY`
/// parses to that method, path, single query pair, single header (name and
/// value trimmed) and body, when each part is free of the bytes that delimit
/// it.
#[verifier::spinoff_prover]
#[verifier::rlimit(100)]
pub proof fn lemma_simple_request(
    m: Method,
    path: Seq<u8>,
    k: Seq<u8>,
    v: Seq<u8>,
    name: Seq<u8>,
    value: Seq<u8>,
    body: Seq<u8>,
)
    requires
        avoids(path, SP) && avoids(path, QUESTION) && avoids(path, CR),
        avoids(k, SP) && avoids(k, AMP) && avoids(k, EQUALS) && avoids(k, CR),
        avoids(v, SP) && avoids(v, AMP) && avoids(v, CR),
        avoids(name, COLON) && avoids(name, CR),
        avoids(value, CR),
        avoids(body, NUL),
        valid_utf8(simple_request(m, path, k, v, name, value, body)),
    ensures
        parse_buffer(simple_request(m, path, k, v, name, value, body)) == Ok::<
            RequestModel,
            ParseError,
        >(
            RequestModel {
                method: m,
                path,
                query: Some(seq![(k, seq![v])]),
                headers: seq![(trimmed(name), seq![trimmed(value)])],
                body,
            },
        ),
{
    let t = simple_request(m, path, k, v, name, value, body);
    let kv = k + seq![EQUALS] + v;
    let target = path + seq![QUESTION] + kv;
    let line = method_name(m) + seq![SP] + target + seq![SP] + http_version();
    let hv = name + seq![COLON] + value;
    let tail = crlf() + hv + blank_line() + body;
    assert(t =~= line + tail);
    lemma_target_clean(path, k, v);
    lemma_start_line(m, target);
    lemma_simple_target(path, k, v);
    lemma_one_header(name, value);
    lemma_simple_tail(hv, body);
    lemma_method_of_name(m);
    lemma_line_then_tail(line, tail);
    assert(hv.len() >= 1);
    assert(parse_headers(head_block(tail)) == seq![(trimmed(name), seq![trimmed(value)])]);
}

/// A parsed request. Every text field is a part of the received buffer.
#[derive(Debug)]
pub struct Request<'buf> {
    path: &'buf str,
    query_string: Option<QueryString<'buf>>,
    header: Header<'buf>,
    method: Method,
    body: &'buf str,
}

impl<'buf> View for Request<'buf> {
    type V = RequestModel;

    closed spec fn view(&self) -> RequestModel {
        RequestModel {
            method: self.method,
            path: self.path.spec_bytes(),
            query: match self.query_string {
                Some(q) => Some(q@),
                None => None,
            },
            headers: self.header@,
            body: self.body.spec_bytes(),
        }
    }
}

/// Splits a start line into its first three space-separated tokens.
fn split_start_line<'a>(line: &'a str) -> (r: Option<(&'a str, &'a str, &'a str)>)
    ensures
        match r {
            Some((m, t, p)) => start_tokens(line.spec_bytes()) == Some(
                (m.spec_bytes(), t.spec_bytes(), p.spec_bytes()),
            ),
            None => start_tokens(line.spec_bytes()) is None,
        },
{
    let a = match find_byte_in(line.as_bytes(), SP) {
        Some(a) => a,
        None => return None,
    };
    let method = cut(line, 0, a);
    let r1 = after(line, a);
    let b = match find_byte_in(r1.as_bytes(), SP) {
        Some(b) => b,
        None => return None,
    };
    let target = cut(r1, 0, b);
    let r2 = after(r1, b);
    let protocol = match find_byte_in(r2.as_bytes(), SP) {
        Some(c) => cut(r2, 0, c),
        None => r2,
    };
    Some((method, target, protocol))
}

/// Splits a request target at its first `?` into path and query.
fn split_target<'a>(target: &'a str) -> (r: (&'a str, Option<QueryString<'a>>))
    ensures
        r.0.spec_bytes() == target_path(target.spec_bytes()),
        match r.1 {
            Some(q) => target_query(target.spec_bytes()) == Some(q@) && q.wf(),
            None => target_query(target.spec_bytes()) is None,
        },
{
    match find_byte_in(target.as_bytes(), QUESTION) {
        Some(q) => {
            let path = cut(target, 0, q);
            let query = QueryString::from_text(after(target, q));
            (path, Some(query))
        },
        None => (target, None),
    }
}

/// Cuts a text at its first NUL byte.
fn cut_at_nul<'a>(s: &'a str) -> (r: &'a str)
    ensures
        r.spec_bytes() == until_nul(s.spec_bytes()),
{
    match find_byte_in(s.as_bytes(), NUL) {
        Some(k) => cut(s, 0, k),
        None => s,
    }
}

/// Splits what follows the start line (from its `\r\n` on) into header block
/// and body.
fn split_head_body<'a>(tail: &'a str) -> (r: (&'a str, &'a str))
    requires
        tail.spec_bytes().len() >= 2,
        tail.spec_bytes()[0] == CR,
        tail.spec_bytes()[1] == LF,
    ensures
        r.0.spec_bytes() == head_block(tail.spec_bytes()),
        r.1.spec_bytes() == body_of(tail.spec_bytes()),
{
    let pat = [CR, LF, CR, LF];
    assert(pat@ =~= blank_line());
    let tb = tail.as_bytes();
    match find_in(tb, pat.as_slice()) {
        Some(j) => {
            assert(j + 4 <= tb.len());
            let lines = after(tail, 1);
            assert(lines.spec_bytes()[j as int] == tail.spec_bytes()[j + 2]);
            let block = cut(lines, 0, j);
            assert(block.spec_bytes() =~= tail.spec_bytes().subrange(2, j + 2));
            let body = cut_at_nul(after(tail, j + 3));
            (block, body)
        },
        None => {
            let empty = cut(tail, 0, 0);
            assert(empty.spec_bytes() =~= Seq::<u8>::empty());
            (empty, empty)
        },
    }
}

impl<'buf> Request<'buf> {
    /// The header and query maps are well formed.
    pub closed spec fn wf(&self) -> bool {
        &&& self.header.wf()
        &&& match self.query_string {
            Some(q) => q.wf(),
            None => true,
        }
    }

    /// Parses a received buffer.
    pub fn parse(buf: &'buf [u8]) -> (r: Result<Request<'buf>, ParseError>)
        ensures
            r matches Ok(req) ==> req.wf() && parse_buffer(buf@) == Ok::<RequestModel, ParseError>(
                req@,
            ),
            r matches Err(e) ==> parse_buffer(buf@) == Err::<RequestModel, ParseError>(e),
    {
        match decode_utf8_text(buf) {
            Some(text) => Request::from_text(text),
            None => Err(ParseError::InvalidEncoding),
        }
    }

    /// Parses a request already decoded as text.
    pub fn from_text(text: &'buf str) -> (r: Result<Request<'buf>, ParseError>)
        ensures
            r matches Ok(req) ==> req.wf() && parse_request(text.spec_bytes()) == Ok::<
                RequestModel,
                ParseError,
            >(req@),
            r matches Err(e) ==> parse_request(text.spec_bytes()) == Err::<RequestModel, ParseError>(
                e,
            ),
    {
        let pat = [CR, LF];
        assert(pat@ =~= crlf());
        let tb = text.as_bytes();
        let i = match find_in(tb, pat.as_slice()) {
            Some(i) => i,
            None => return Err(ParseError::InvalidRequest),
        };
        assert(i + 2 <= tb.len());
        let start_line = cut(text, 0, i);
        let (m, target, protocol) = match split_start_line(start_line) {
            Some(tokens) => tokens,
            None => return Err(ParseError::InvalidRequest),
        };
        if !same_bytes(protocol.as_bytes(), &[72u8, 84, 84, 80, 47, 49, 46, 49]) {
            return Err(ParseError::InvalidProtocol);
        }
        let method = match Method::from_token(m) {
            Ok(method) => method,
            Err(_) => return Err(ParseError::InvalidMethod),
        };
        let (path, query_string) = split_target(target);
        let tail = cut(text, i, tb.len());
        let (block, body) = split_head_body(tail);
        let header = Header::from_block(block);
        let req = Request { path, query_string, header, method, body };
        assert(req@.query == target_query(target.spec_bytes()));
        Ok(req)
    }

    /// The path of the request target, without its query.
    pub fn path(&self) -> (r: &str)
        ensures
            r.spec_bytes() == self@.path,
    {
        self.path
    }

    /// The query parameters, absent when the target has no `?`.
    pub fn query_string(&self) -> (r: Option<&QueryString<'buf>>)
        requires
            self.wf(),
        ensures
            match r {
                Some(q) => self@.query == Some(q@) && q.wf(),
                None => self@.query is None,
            },
    {
        match &self.query_string {
            Some(q) => Some(q),
            None => None,
        }
    }

    /// The headers.
    pub fn header(&self) -> (r: &Header<'buf>)
        requires
            self.wf(),
        ensures
            r@ == self@.headers,
            r.wf(),
    {
        &self.header
    }

    /// The body, up to the first NUL byte.
    pub fn body(&self) -> (r: &str)
        ensures
            r.spec_bytes() == self@.body,
    {
        self.body
    }

    /// The request method.
    pub fn method(&self) -> (r: &Method)
        ensures
            *r == self@.method,
    {
        &self.method
    }
}

} // verus!
