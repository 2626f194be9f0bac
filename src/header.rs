//! Header blocks: `Name: Value` lines joined by `\r\n`, folded into a
//! multi-value map.
use vstd::prelude::*;
use vstd::string::StringSliceAdditionalSpecFns;
use crate::multimap::{upsert, Entries, MultiMap, Value, keys_unique, none_empty};
use crate::text::{after, crlf, cut, find, find_byte, find_byte_in, find_in, trim, trimmed, COLON, CR, LF};

verus! {

/// What one header line adds to `acc`: the trimmed name before its first `:`
/// with the trimmed value after it; `None` when the line has no `:`.
pub open spec fn add_line(acc: Entries, line: Seq<u8>) -> Option<Entries> {
    let j = find_byte(line, COLON);
    if 0 <= j < line.len() {
        Some(
            upsert(
                acc,
                trimmed(line.subrange(0, j)),
                trimmed(line.subrange(j + 1, line.len() as int)),
            ),
        )
    } else {
        None
    }
}

/// Adds the `\r\n`-separated lines of `rest`, in order, to `acc`. The last
/// line needs no `\r\n` after it. Parsing stops at the first line without a
/// `:`.
pub open spec fn add_lines(acc: Entries, rest: Seq<u8>) -> Entries
    decreases rest.len(),
{
    let i = find(rest, crlf());
    if 0 <= i && i + 2 <= rest.len() {
        match add_line(acc, rest.subrange(0, i)) {
            Some(next) => add_lines(next, rest.subrange(i + 2, rest.len() as int)),
            None => acc,
        }
    } else if rest.len() > 0 {
        match add_line(acc, rest) {
            Some(next) => next,
            None => acc,
        }
    } else {
        acc
    }
}

/// The map that a header block stands for.
pub open spec fn parse_headers(block: Seq<u8>) -> Entries {
    add_lines(Seq::empty(), block)
}

/// The headers of a request, by exact (case-sensitive) name.
#[derive(Debug)]
pub struct Header<'buf> {
    data: MultiMap<'buf>,
}

/// A malformed header.
#[derive(Debug, Clone, Copy, PartialEq, Eq, Structural)]
pub struct HeaderError;

impl<'buf> View for Header<'buf> {
    type V = Entries;

    closed spec fn view(&self) -> Entries {
        self.data@
    }
}

/// Adds one header line to `data`; false, with `data` unchanged, when the
/// line has no `:`.
fn insert_line<'buf>(data: &mut MultiMap<'buf>, line: &'buf str) -> (r: bool)
    requires
        old(data).wf(),
    ensures
        final(data).wf(),
        match add_line(old(data)@, line.spec_bytes()) {
            Some(next) => r && final(data)@ == next,
            None => !r && final(data)@ == old(data)@,
        },
{
    match find_byte_in(line.as_bytes(), COLON) {
        Some(j) => {
            let key = trim(cut(line, 0, j));
            let val = trim(after(line, j));
            data.insert(key, val);
            true
        },
        None => false,
    }
}

impl<'buf> Header<'buf> {
    /// Names are unique and each holds at least one value.
    pub closed spec fn wf(&self) -> bool {
        self.data.wf()
    }

    /// A well-formed header map has unique names, each with at least one value.
    pub proof fn lemma_wf(&self)
        requires
            self.wf(),
        ensures
            keys_unique(self@),
            none_empty(self@),
    {
        self.data.lemma_wf();
    }

    /// Parses a header block: the lines between the request line and the
    /// blank line, joined by `\r\n` (a `\r\n` after the last line is allowed).
    pub fn from_block(block: &'buf str) -> (r: Header<'buf>)
        ensures
            r.wf(),
            r@ == parse_headers(block.spec_bytes()),
    {
        let mut data = MultiMap::new();
        let mut rest = block;
        let pat = [CR, LF];
        assert(pat@ =~= crlf());
        loop
            invariant
                data.wf(),
                pat@ == crlf(),
                add_lines(data@, rest.spec_bytes()) == add_lines(Seq::empty(), block.spec_bytes()),
            decreases rest.spec_bytes().len(),
        {
            let rb = rest.as_bytes();
            match find_in(rb, pat.as_slice()) {
                Some(i) => {
                    assert(i + 2 <= rb.len());
                    assert(rest.spec_bytes()[i as int] == CR);
                    assert(rest.spec_bytes()[i + 1] == LF);
                    let line = cut(rest, 0, i);
                    if !insert_line(&mut data, line) {
                        return Header { data };
                    }
                    rest = after(rest, i + 1);
                },
                None => {
                    if rb.len() > 0 {
                        insert_line(&mut data, rest);
                    }
                    return Header { data };
                },
            }
        }
    }

    /// Number of distinct header names.
    pub fn len(&self) -> (r: usize)
        ensures
            r == self@.len(),
    {
        self.data.len()
    }

    /// The value stored under exactly `key`, if any.
    pub fn get(&self, key: &str) -> (r: Option<&Value<'buf>>)
        requires
            self.wf(),
        ensures
            r is None <==> crate::multimap::lookup(self@, key.spec_bytes()) is None,
            r matches Some(v) ==> crate::multimap::lookup(self@, key.spec_bytes()) == Some(
                v.values(),
            ) && v.wf(),
    {
        self.data.get(key)
    }
}

} // verus!
