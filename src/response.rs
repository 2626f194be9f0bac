//! The response serializer: a status and an optional body written as an
//! HTTP/1.1 response.
use vstd::prelude::*;
use vstd::string::StringSliceAdditionalSpecFns;
use vstd::utf8::encode_utf8;
use crate::status_code::{reason_bytes, status_number, StatusCode};
use crate::text::{find_byte, lemma_find_byte_at, CR, SP};

verus! {

/// `HTTP/1.1 `, the start of every status line.
pub open spec fn status_prefix() -> Seq<u8> {
    seq![72u8, 84, 84, 80, 47, 49, 46, 49, 32]
}

/// `\r\nContent-Length: `, which ends the status line and starts the
/// length line.
pub open spec fn length_prefix() -> Seq<u8> {
    seq![13u8, 10, 67, 111, 110, 116, 101, 110, 116, 45, 76, 101, 110, 103, 116, 104, 58, 32]
}

/// The decimal digits of `n`, in ASCII.
pub open spec fn decimal(n: nat) -> Seq<u8>
    decreases n,
{
    if n < 10 {
        seq![(48 + n) as u8]
    } else {
        decimal(n / 10).push((48 + n % 10) as u8)
    }
}

/// The bytes of a response with status `s` and body bytes `body`.
pub open spec fn response_bytes(s: StatusCode, body: Option<Seq<u8>>) -> Seq<u8> {
    let b = match body {
        Some(b) => b,
        None => Seq::empty(),
    };
    status_prefix() + decimal(status_number(s) as nat) + seq![SP] + reason_bytes(s)
        + length_prefix() + decimal(b.len()) + seq![13u8, 10, 13, 10] + b
}

/// The number that a run of ASCII digits stands for.
pub open spec fn digits_value(s: Seq<u8>) -> nat
    decreases s.len(),
{
    if s.len() == 0 {
        0
    } else {
        digits_value(s.drop_last()) * 10 + (s.last() - 48) as nat
    }
}

/// Every byte is an ASCII digit.
pub open spec fn all_digits(s: Seq<u8>) -> bool {
    forall|i: int| 0 <= i < s.len() ==> 48 <= #[trigger] s[i] <= 57
}

/// The status with number `n`, if any.
pub open spec fn status_with_number(n: nat) -> Option<StatusCode> {
    if exists|s: StatusCode| status_number(s) == n {
        Some(choose|s: StatusCode| status_number(s) == n)
    } else {
        None
    }
}

/// The status number written in a response: the digits after `HTTP/1.1 `, up
/// to the next space.
pub open spec fn written_status(r: Seq<u8>) -> nat {
    let rest = r.subrange(9, r.len() as int);
    digits_value(rest.subrange(0, find_byte(rest, SP)))
}

/// The length written in a response: the digits after the status line's
/// `\r\nContent-Length: `, up to the next `\r`.
pub open spec fn written_length(r: Seq<u8>) -> nat {
    let rest = r.subrange(find_byte(r, CR) + 18, r.len() as int);
    digits_value(rest.subrange(0, find_byte(rest, CR)))
}

/// The bytes of an optional body.
pub open spec fn body_bytes(body: Option<Seq<u8>>) -> Seq<u8> {
    match body {
        Some(b) => b,
        None => Seq::empty(),
    }
}

/// Decimal digits are digits, at least one, and read back as the number.
pub proof fn lemma_decimal(n: nat)
    ensures
        decimal(n).len() >= 1,
        all_digits(decimal(n)),
        digits_value(decimal(n)) == n,
        100 <= n < 1000 ==> decimal(n).len() == 3,
    decreases n,
{
    if n >= 10 {
        lemma_decimal(n / 10);
        let d = decimal(n);
        assert(d.drop_last() =~= decimal(n / 10));
        assert(d.last() == (48 + n % 10) as u8);
        assert((d.last() - 48) as nat == n % 10);
        assert(digits_value(d) == (n / 10) * 10 + n % 10);
        assert(n == (n / 10) * 10 + n % 10) by (nonlinear_arith);
        if 100 <= n < 1000 {
            lemma_decimal(n / 100);
            assert(n / 10 >= 10);
        }
    } else {
        let d = decimal(n);
        assert(d.drop_last() =~= Seq::<u8>::empty());
        assert(d.last() == (48 + n) as u8);
        assert(digits_value(Seq::<u8>::empty()) == 0);
        assert(digits_value(d) == n);
    }
}

/// Each reason phrase is printable ASCII.
proof fn lemma_reason_printable(s: StatusCode)
    ensures
        forall|i: int| 0 <= i < reason_bytes(s).len() ==> #[trigger] reason_bytes(s)[i] >= 32,
{
}

/// Different statuses have different numbers.
proof fn lemma_status_with_number(s: StatusCode)
    ensures
        status_with_number(status_number(s) as nat) == Some(s),
{
    let c = choose|c: StatusCode| status_number(c) == status_number(s);
    assert(status_number(c) == status_number(s));
}

/// Reading back a serialized response gives its status and the length of its
/// body.
pub proof fn lemma_response_round_trip(s: StatusCode, body: Option<Seq<u8>>)
    ensures
        status_with_number(written_status(response_bytes(s, body))) == Some(s),
        written_length(response_bytes(s, body)) == body_bytes(body).len(),
{
    let r = response_bytes(s, body);
    let b = body_bytes(body);
    let code = decimal(status_number(s) as nat);
    let len = decimal(b.len());
    let reason = reason_bytes(s);
    lemma_decimal(status_number(s) as nat);
    lemma_decimal(b.len());
    lemma_reason_printable(s);
    lemma_status_with_number(s);
    let tail = length_prefix() + len + seq![13u8, 10, 13, 10] + b;
    assert(r =~= status_prefix() + code + seq![SP] + reason + tail);
    let rest = r.subrange(9, r.len() as int);
    assert(rest =~= code + seq![SP] + reason + tail);
    assert(rest[3] == SP);
    assert forall|j: int| 0 <= j < 3 implies rest[j] != SP by {
        assert(rest[j] == code[j]);
    }
    lemma_find_byte_at(rest, SP, 3);
    assert(rest.subrange(0, 3) =~= code);
    let cr: int = 13 + reason.len() as int;
    assert(r[cr] == CR);
    assert forall|j: int| 0 <= j < cr implies r[j] != CR by {
        if j < 9 {
            assert(r[j] == status_prefix()[j]);
        } else if j < 12 {
            assert(r[j] == code[j - 9]);
        } else if j == 12 {
            assert(r[j] == SP);
        } else {
            assert(r[j] == reason[j - 13]);
        }
    }
    lemma_find_byte_at(r, CR, cr);
    let rest2 = r.subrange(cr + 18, r.len() as int);
    assert(rest2 =~= len + seq![13u8, 10, 13, 10] + b);
    assert(rest2[len.len() as int] == CR);
    assert forall|j: int| 0 <= j < len.len() implies rest2[j] != CR by {
        assert(rest2[j] == len[j]);
    }
    lemma_find_byte_at(rest2, CR, len.len() as int);
    assert(rest2.subrange(0, len.len() as int) =~= len);
}

/// A response: a status and an optional body.
#[derive(Debug)]
pub struct Response {
    status_code: StatusCode,
    body: Option<String>,
}

/// The model of a response: its status and the bytes of its body.
pub struct ResponseModel {
    pub status: StatusCode,
    pub body: Option<Seq<u8>>,
}

impl View for Response {
    type V = ResponseModel;

    closed spec fn view(&self) -> ResponseModel {
        ResponseModel {
            status: self.status_code,
            body: match self.body {
                Some(s) => Some(encode_utf8(s@)),
                None => None,
            },
        }
    }
}

/// Appends `b` to `out`.
fn push_all(out: &mut Vec<u8>, b: &[u8])
    ensures
        final(out)@ == old(out)@ + b@,
{
    let ghost start = out@;
    let mut i: usize = 0;
    while i < b.len()
        invariant
            0 <= i <= b@.len(),
            out@ == start + b@.subrange(0, i as int),
        decreases b@.len() - i,
    {
        out.push(b[i]);
        i = i + 1;
        assert(out@ =~= start + b@.subrange(0, i as int));
    }
    assert(b@.subrange(0, b@.len() as int) =~= b@);
}

/// Appends the decimal digits of `n` to `out`.
fn push_decimal(out: &mut Vec<u8>, n: usize)
    ensures
        final(out)@ == old(out)@ + decimal(n as nat),
    decreases n,
{
    let ghost start = out@;
    if n >= 10 {
        push_decimal(out, n / 10);
    }
    out.push((48 + n % 10) as u8);
    assert(out@ =~= start + decimal(n as nat));
}

impl Response {
    /// A response with the given status and body.
    pub fn new(status_code: StatusCode, body: Option<String>) -> (r: Response)
        ensures
            r@.status == status_code,
            r@.body == match body {
                Some(s) => Some(encode_utf8(s@)),
                None => None::<Seq<u8>>,
            },
    {
        Response { status_code, body }
    }

    /// The status.
    pub fn status_code(&self) -> (r: StatusCode)
        ensures
            r == self@.status,
    {
        self.status_code
    }

    /// The body, if any.
    pub fn body(&self) -> (r: Option<&str>)
        ensures
            match r {
                Some(s) => self@.body == Some(s.spec_bytes()),
                None => self@.body is None,
            },
    {
        match &self.body {
            Some(s) => Some(s.as_str()),
            None => None,
        }
    }

    /// The response as bytes: `HTTP/1.1 <code> <reason>`, a `Content-Length`
    /// line with the body's length in bytes, a blank line, then the body.
    pub fn to_bytes(&self) -> (r: Vec<u8>)
        ensures
            r@ == response_bytes(self@.status, self@.body),
    {
        let body: &[u8] = match &self.body {
            Some(s) => s.as_str().as_bytes(),
            None => &[],
        };
        let mut out: Vec<u8> = Vec::new();
        push_all(&mut out, &[72u8, 84, 84, 80, 47, 49, 46, 49, 32]);
        push_decimal(&mut out, self.status_code.code() as usize);
        out.push(SP);
        push_all(&mut out, self.status_code.reason_phrase());
        push_all(&mut out, &[13u8, 10, 67, 111, 110, 116, 101, 110, 116, 45, 76, 101, 110, 103, 116, 104, 58, 32]);
        push_decimal(&mut out, body.len());
        push_all(&mut out, &[13u8, 10, 13, 10]);
        push_all(&mut out, body);
        proof {
            let b = match self@.body {
                Some(b) => b,
                None => Seq::empty(),
            };
            assert(body@ == b);
            assert(out@ =~= response_bytes(self@.status, self@.body));
        }
        out
    }
}

} // verus!
