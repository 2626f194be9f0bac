//! Byte-level helpers shared by the parsers: searching a buffer for a byte
//! or a short pattern, comparing, and cutting a `str` at ASCII positions.
use vstd::prelude::*;
use vstd::string::StringSliceAdditionalSpecFns;
use vstd::utf8::{is_char_boundary, valid_utf8};

verus! {

pub const NUL: u8 = 0;
pub const LF: u8 = 10;
pub const CR: u8 = 13;
pub const SP: u8 = 32;
pub const AMP: u8 = 38;
pub const COLON: u8 = 58;
pub const EQUALS: u8 = 61;
pub const QUESTION: u8 = 63;

/// The line terminator `\r\n`.
pub open spec fn crlf() -> Seq<u8> {
    seq![CR, LF]
}

/// The blank-line terminator `\r\n\r\n` that ends a header block.
pub open spec fn blank_line() -> Seq<u8> {
    seq![CR, LF, CR, LF]
}

/// `p` stands in `s` starting at index `i`.
pub open spec fn occurs_at(s: Seq<u8>, p: Seq<u8>, i: int) -> bool {
    0 <= i && i + p.len() <= s.len() && s.subrange(i, i + p.len()) == p
}

/// `i` is where the first occurrence of `p` in `s` starts.
pub open spec fn first_at(s: Seq<u8>, p: Seq<u8>, i: int) -> bool {
    occurs_at(s, p, i) && forall|j: int| 0 <= j < i ==> !occurs_at(s, p, j)
}

/// Start of the first occurrence of `p` in `s`, or -1 when there is none.
pub open spec fn find(s: Seq<u8>, p: Seq<u8>) -> int {
    if exists|i: int| first_at(s, p, i) {
        choose|i: int| first_at(s, p, i)
    } else {
        -1
    }
}

/// Index of the first byte `c` in `s`, or -1 when there is none.
pub open spec fn find_byte(s: Seq<u8>, c: u8) -> int {
    find(s, seq![c])
}

/// Two first occurrences are the same one.
pub proof fn lemma_first_unique(s: Seq<u8>, p: Seq<u8>, i: int, j: int)
    requires
        first_at(s, p, i),
        first_at(s, p, j),
    ensures
        i == j,
{
}

/// What `find` gives, told apart by whether it found anything.
pub proof fn lemma_find(s: Seq<u8>, p: Seq<u8>)
    ensures
        find(s, p) >= 0 ==> first_at(s, p, find(s, p)),
        find(s, p) < 0 ==> find(s, p) == -1 && forall|j: int| !#[trigger] occurs_at(s, p, j),
{
    if find(s, p) < 0 {
        assert forall|j: int| !#[trigger] occurs_at(s, p, j) by {
            if occurs_at(s, p, j) {
                lemma_some_first(s, p, j);
            }
        }
    }
}

/// An occurrence of `p` at `j` means there is a first one, at or before `j`.
pub proof fn lemma_some_first(s: Seq<u8>, p: Seq<u8>, j: int)
    requires
        occurs_at(s, p, j),
    ensures
        exists|i: int| first_at(s, p, i) && i <= j,
    decreases j,
{
    if !first_at(s, p, j) {
        let k = choose|k: int| 0 <= k < j && occurs_at(s, p, k);
        lemma_some_first(s, p, k);
    }
}

/// A pattern that occurs at `i`, whose first byte stands nowhere before `i`,
/// is first found at `i`.
pub proof fn lemma_find_at(s: Seq<u8>, p: Seq<u8>, i: int)
    requires
        p.len() > 0,
        occurs_at(s, p, i),
        forall|j: int| 0 <= j < i ==> s[j] != p[0],
    ensures
        find(s, p) == i,
{
    assert forall|j: int| 0 <= j < i implies !occurs_at(s, p, j) by {
        if occurs_at(s, p, j) {
            assert(s.subrange(j, j + p.len())[0] == p[0]);
        }
    }
    assert(first_at(s, p, i));
    lemma_find(s, p);
    lemma_first_unique(s, p, i, find(s, p));
}

/// A pattern whose first byte stands nowhere in `s` is not found.
pub proof fn lemma_find_none(s: Seq<u8>, p: Seq<u8>)
    requires
        p.len() > 0,
        forall|j: int| 0 <= j < s.len() ==> s[j] != p[0],
    ensures
        find(s, p) == -1,
{
    lemma_find(s, p);
    if find(s, p) >= 0 {
        let f = find(s, p);
        assert(s.subrange(f, f + p.len())[0] == p[0]);
    }
}

/// The first byte `c` of `s` stands at `i`.
pub proof fn lemma_find_byte_at(s: Seq<u8>, c: u8, i: int)
    requires
        0 <= i < s.len(),
        s[i] == c,
        forall|j: int| 0 <= j < i ==> s[j] != c,
    ensures
        find_byte(s, c) == i,
{
    assert(s.subrange(i, i + 1) =~= seq![c]);
    lemma_find_at(s, seq![c], i);
}

/// A byte that stands nowhere in `s` is not found.
pub proof fn lemma_find_byte_none(s: Seq<u8>, c: u8)
    requires
        forall|j: int| 0 <= j < s.len() ==> s[j] != c,
    ensures
        find_byte(s, c) == -1,
{
    lemma_find_none(s, seq![c]);
}

/// Whether `p` stands in `b` at index `i`.
fn occurs_at_exec(b: &[u8], p: &[u8], i: usize) -> (r: bool)
    requires
        i <= b@.len(),
    ensures
        r == occurs_at(b@, p@, i as int),
{
    if p.len() > b.len() - i {
        return false;
    }
    let mut k: usize = 0;
    while k < p.len()
        invariant
            i <= b@.len(),
            i + p@.len() <= b@.len(),
            b@.len() <= usize::MAX,
            0 <= k <= p@.len(),
            forall|m: int| 0 <= m < k ==> b@[i + m] == p@[m],
        decreases p@.len() - k,
    {
        if b[i + k] != p[k] {
            assert(b@.subrange(i as int, i + p@.len())[k as int] != p@[k as int]);
            return false;
        }
        k = k + 1;
    }
    assert(b@.subrange(i as int, i + p@.len()) =~= p@);
    true
}

/// Finds the first occurrence of `p` in `b`.
pub fn find_in(b: &[u8], p: &[u8]) -> (r: Option<usize>)
    requires
        p@.len() > 0,
    ensures
        match r {
            Some(i) => {
                &&& i as int == find(b@, p@)
                &&& i + p@.len() <= b@.len()
                &&& forall|k: int| 0 <= k < p@.len() ==> b@[i + k] == p@[k]
            },
            None => find(b@, p@) == -1,
        },
{
    let mut i: usize = 0;
    while i < b.len()
        invariant
            0 <= i <= b@.len(),
            forall|j: int| 0 <= j < i ==> !occurs_at(b@, p@, j),
        decreases b@.len() - i,
    {
        if occurs_at_exec(b, p, i) {
            proof {
                lemma_find(b@, p@);
                if find(b@, p@) >= 0 {
                    lemma_first_unique(b@, p@, i as int, find(b@, p@));
                }
                assert forall|k: int| 0 <= k < p@.len() implies b@[i + k] == p@[k] by {
                    assert(b@.subrange(i as int, i + p@.len())[k] == p@[k]);
                }
            }
            return Some(i);
        }
        i = i + 1;
    }
    proof {
        lemma_find(b@, p@);
        if find(b@, p@) >= 0 {
            let f = find(b@, p@);
            assert(occurs_at(b@, p@, f));
        }
    }
    None
}

/// Whether two byte strings are equal.
pub fn same_bytes(a: &[u8], b: &[u8]) -> (r: bool)
    ensures
        r == (a@ == b@),
{
    if a.len() != b.len() {
        return false;
    }
    let mut i: usize = 0;
    while i < a.len()
        invariant
            a@.len() == b@.len(),
            0 <= i <= a@.len(),
            forall|j: int| 0 <= j < i ==> a@[j] == b@[j],
        decreases a@.len() - i,
    {
        if a[i] != b[i] {
            return false;
        }
        i = i + 1;
    }
    assert(a@ =~= b@);
    true
}

/// A position of `s` whose byte is ASCII, or its end, is a character boundary.
pub proof fn lemma_ascii_boundary(s: &str, i: int)
    requires
        0 <= i <= s.spec_bytes().len(),
        0 < i < s.spec_bytes().len() ==> s.spec_bytes()[i] < 128,
    ensures
        is_char_boundary(s.spec_bytes(), i),
{
    vstd::utf8::encode_utf8_valid_utf8(s@);
    if i == 0 || i == s.spec_bytes().len() {
        vstd::utf8::is_char_boundary_start_end_of_seq(s.spec_bytes());
    } else {
        vstd::utf8::is_char_boundary_iff_is_leading_byte(s.spec_bytes(), i);
    }
}

/// The part of `s` from byte `from` up to byte `to`, each an ASCII position,
/// the start or the end.
pub fn cut<'a>(s: &'a str, from: usize, to: usize) -> (r: &'a str)
    requires
        from <= to <= s.spec_bytes().len(),
        0 < from < s.spec_bytes().len() ==> s.spec_bytes()[from as int] < 128,
        0 < to < s.spec_bytes().len() ==> s.spec_bytes()[to as int] < 128,
    ensures
        r.spec_bytes() == s.spec_bytes().subrange(from as int, to as int),
{
    proof {
        lemma_ascii_boundary(s, to as int);
    }
    let (head, _) = s.split_at(to);
    proof {
        assert(head.spec_bytes().len() == to);
        if from < to {
            assert(head.spec_bytes()[from as int] == s.spec_bytes()[from as int]);
        }
        lemma_ascii_boundary(head, from as int);
    }
    let (_, part) = head.split_at(from);
    assert(part.spec_bytes() =~= s.spec_bytes().subrange(from as int, to as int));
    part
}

/// In a text whose first byte is ASCII, index 1 is a character boundary.
pub proof fn lemma_boundary_after_first(s: &str)
    requires
        s.spec_bytes().len() >= 1,
        s.spec_bytes()[0] < 128,
    ensures
        is_char_boundary(s.spec_bytes(), 1),
{
    vstd::utf8::encode_utf8_valid_utf8(s@);
    reveal_with_fuel(is_char_boundary, 2);
}

/// The part of `s` after byte `i`, an ASCII byte.
pub fn after<'a>(s: &'a str, i: usize) -> (r: &'a str)
    requires
        i < s.spec_bytes().len(),
        s.spec_bytes()[i as int] < 128,
    ensures
        r.spec_bytes() == s.spec_bytes().subrange(i + 1, s.spec_bytes().len() as int),
{
    let from_i = cut(s, i, s.as_bytes().len());
    proof {
        assert(from_i.spec_bytes()[0] == s.spec_bytes()[i as int]);
        lemma_boundary_after_first(from_i);
    }
    let (_, r) = from_i.split_at(1);
    assert(r.spec_bytes() =~= s.spec_bytes().subrange(i + 1, s.spec_bytes().len() as int));
    r
}

/// Finds the first byte `c` in `b`.
pub fn find_byte_in(b: &[u8], c: u8) -> (r: Option<usize>)
    ensures
        match r {
            Some(i) => i as int == find_byte(b@, c) && i < b@.len() && b@[i as int] == c,
            None => find_byte(b@, c) == -1 && forall|j: int| 0 <= j < b@.len() ==> b@[j] != c,
        },
{
    let pat = [c];
    let r = find_in(b, pat.as_slice());
    proof {
        assert(pat@ =~= seq![c]);
        lemma_find(b@, seq![c]);
        match r {
            Some(i) => {
                assert(b@.subrange(i as int, i + 1)[0] == c);
            },
            None => {
                assert forall|j: int| 0 <= j < b@.len() implies b@[j] != c by {
                    if b@[j] == c {
                        assert(b@.subrange(j, j + 1) =~= seq![c]);
                        assert(occurs_at(b@, seq![c], j));
                    }
                }
            },
        }
    }
    r
}

/// Relies on `std::str::from_utf8`: it accepts exactly the byte sequences that
/// are valid UTF-8, and then returns a `str` over those same bytes.
#[verifier::external_body]
pub(crate) fn decode_utf8_text<'a>(b: &'a [u8]) -> (r: Option<&'a str>)
    ensures
        r is Some <==> valid_utf8(b@),
        r matches Some(s) ==> s.spec_bytes() == b@,
{
    std::str::from_utf8(b).ok()
}

/// The bytes of a text with leading and trailing Unicode whitespace removed,
/// as `str::trim` computes them.
pub uninterp spec fn trimmed(b: Seq<u8>) -> Seq<u8>;

/// `part` is a contiguous run of `whole`.
pub open spec fn is_part_of(part: Seq<u8>, whole: Seq<u8>) -> bool {
    exists|a: int, b: int| 0 <= a <= b <= whole.len() && part == whole.subrange(a, b)
}

/// Relies on `str::trim`: the result depends on the text alone, and is a
/// part of it with only leading and trailing characters removed.
#[verifier::external_body]
pub(crate) fn trim<'a>(s: &'a str) -> (r: &'a str)
    ensures
        r.spec_bytes() == trimmed(s.spec_bytes()),
        is_part_of(r.spec_bytes(), s.spec_bytes()),
{
    s.trim()
}

} // verus!
