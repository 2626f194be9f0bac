//! The request method: one of a fixed set of verbs, spelled exactly.
use vstd::prelude::*;
use vstd::string::StringSliceAdditionalSpecFns;
use crate::text::same_bytes;

verus! {

/// A request method.
#[derive(Debug, Clone, Copy, PartialEq, Eq, Structural)]
pub enum Method {
    GET,
    DELETE,
    POST,
    PUT,
    HEAD,
    CONNECT,
    OPTIONS,
    TRACE,
    PATCH,
}

/// A verb that names no method.
#[derive(Debug, Clone, Copy, PartialEq, Eq, Structural)]
pub struct MethodError;

/// The ASCII spelling of each method.
pub open spec fn method_name(m: Method) -> Seq<u8> {
    match m {
        Method::GET => seq![71u8, 69, 84],
        Method::DELETE => seq![68u8, 69, 76, 69, 84, 69],
        Method::POST => seq![80u8, 79, 83, 84],
        Method::PUT => seq![80u8, 85, 84],
        Method::HEAD => seq![72u8, 69, 65, 68],
        Method::CONNECT => seq![67u8, 79, 78, 78, 69, 67, 84],
        Method::OPTIONS => seq![79u8, 80, 84, 73, 79, 78, 83],
        Method::TRACE => seq![84u8, 82, 65, 67, 69],
        Method::PATCH => seq![80u8, 65, 84, 67, 72],
    }
}

/// The method that a verb spells, if any.
pub open spec fn method_of(token: Seq<u8>) -> Option<Method> {
    if exists|m: Method| method_name(m) == token {
        Some(choose|m: Method| method_name(m) == token)
    } else {
        None
    }
}

/// No two methods share a spelling.
pub proof fn lemma_names_distinct(a: Method, b: Method)
    requires
        method_name(a) == method_name(b),
    ensures
        a == b,
{
    let (x, y) = (method_name(a), method_name(b));
    assert(x.len() == y.len());
    assert(x[0] == y[0]);
    if x.len() > 1 {
        assert(x[1] == y[1]);
    }
}

/// A method's spelling decodes to that method.
pub proof fn lemma_method_of_name(m: Method)
    ensures
        method_of(method_name(m)) == Some(m),
{
    let c = choose|c: Method| method_name(c) == method_name(m);
    lemma_names_distinct(c, m);
}

impl Method {
    /// The spelling of this method.
    pub fn name(&self) -> (r: &'static [u8])
        ensures
            r@ == method_name(*self),
    {
        match self {
            Method::GET => &[71u8, 69, 84],
            Method::DELETE => &[68u8, 69, 76, 69, 84, 69],
            Method::POST => &[80u8, 79, 83, 84],
            Method::PUT => &[80u8, 85, 84],
            Method::HEAD => &[72u8, 69, 65, 68],
            Method::CONNECT => &[67u8, 79, 78, 78, 69, 67, 84],
            Method::OPTIONS => &[79u8, 80, 84, 73, 79, 78, 83],
            Method::TRACE => &[84u8, 82, 65, 67, 69],
            Method::PATCH => &[80u8, 65, 84, 67, 72],
        }
    }

    /// Decodes a verb, case-sensitively; any other token is refused.
    pub fn from_token(token: &str) -> (r: Result<Method, MethodError>)
        ensures
            r matches Ok(m) ==> method_of(token.spec_bytes()) == Some(m),
            r is Err <==> method_of(token.spec_bytes()) is None,
    {
        let t = token.as_bytes();
        let all = [
            Method::GET,
            Method::DELETE,
            Method::POST,
            Method::PUT,
            Method::HEAD,
            Method::CONNECT,
            Method::OPTIONS,
            Method::TRACE,
            Method::PATCH,
        ];
        let mut i: usize = 0;
        while i < all.len()
            invariant
                all@ == seq![
                    Method::GET,
                    Method::DELETE,
                    Method::POST,
                    Method::PUT,
                    Method::HEAD,
                    Method::CONNECT,
                    Method::OPTIONS,
                    Method::TRACE,
                    Method::PATCH,
                ],
                t@ == token.spec_bytes(),
                0 <= i <= all@.len(),
                forall|j: int| 0 <= j < i ==> method_name(all@[j]) != t@,
            decreases all@.len() - i,
        {
            let m = all[i];
            if same_bytes(m.name(), t) {
                proof {
                    lemma_method_of_name(m);
                }
                return Ok(m);
            }
            i = i + 1;
        }
        proof {
            assert forall|m: Method| method_name(m) != t@ by {
                let k: int = match m {
                    Method::GET => 0,
                    Method::DELETE => 1,
                    Method::POST => 2,
                    Method::PUT => 3,
                    Method::HEAD => 4,
                    Method::CONNECT => 5,
                    Method::OPTIONS => 6,
                    Method::TRACE => 7,
                    Method::PATCH => 8,
                };
                assert(all@[k] == m);
            }
        }
        Err(MethodError)
    }
}

} // verus!
