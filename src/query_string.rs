//! Query strings: `key=val&key=val` pairs folded into a multi-value map.
use vstd::prelude::*;
use vstd::string::StringSliceAdditionalSpecFns;
use crate::multimap::{upsert, Entries, MultiMap, Value, keys_unique, none_empty};
use crate::text::{after, cut, find_byte, find_byte_in, AMP, EQUALS};

verus! {

/// What one `&`-separated piece adds: split at its first `=`, or the whole
/// piece as a key with an empty value when it has none.
pub open spec fn add_pair(acc: Entries, piece: Seq<u8>) -> Entries {
    let j = find_byte(piece, EQUALS);
    if 0 <= j < piece.len() {
        upsert(acc, piece.subrange(0, j), piece.subrange(j + 1, piece.len() as int))
    } else {
        upsert(acc, piece, Seq::empty())
    }
}

/// Adds the pieces of `rest`, in order, to `acc`.
pub open spec fn add_pieces(acc: Entries, rest: Seq<u8>) -> Entries
    decreases rest.len(),
{
    let i = find_byte(rest, AMP);
    if 0 <= i < rest.len() {
        add_pieces(add_pair(acc, rest.subrange(0, i)), rest.subrange(i + 1, rest.len() as int))
    } else {
        add_pair(acc, rest)
    }
}

/// The map that a query string stands for; an empty string gives no entries.
pub open spec fn parse_query(s: Seq<u8>) -> Entries {
    if s.len() == 0 {
        Seq::empty()
    } else {
        add_pieces(Seq::empty(), s)
    }
}

/// The parameters of a request target, after its `?`.
#[derive(Debug)]
pub struct QueryString<'buf> {
    data: MultiMap<'buf>,
}

impl<'buf> View for QueryString<'buf> {
    type V = Entries;

    closed spec fn view(&self) -> Entries {
        self.data@
    }
}

/// Adds one piece of a query string to `data`.
fn insert_pair<'buf>(data: &mut MultiMap<'buf>, piece: &'buf str)
    requires
        old(data).wf(),
    ensures
        final(data).wf(),
        final(data)@ == add_pair(old(data)@, piece.spec_bytes()),
{
    match find_byte_in(piece.as_bytes(), EQUALS) {
        Some(j) => {
            let key = cut(piece, 0, j);
            let val = after(piece, j);
            data.insert(key, val);
        },
        None => {
            let val = cut(piece, 0, 0);
            assert(val.spec_bytes() =~= Seq::<u8>::empty());
            data.insert(piece, val);
        },
    }
}

impl<'buf> QueryString<'buf> {
    /// Keys are unique and each holds at least one value.
    pub closed spec fn wf(&self) -> bool {
        self.data.wf()
    }

    /// A well-formed query map has unique keys, each with at least one value.
    pub proof fn lemma_wf(&self)
        requires
            self.wf(),
        ensures
            keys_unique(self@),
            none_empty(self@),
    {
        self.data.lemma_wf();
    }

    /// Parses the text after the `?` of a request target.
    pub fn from_text(s: &'buf str) -> (r: QueryString<'buf>)
        ensures
            r.wf(),
            r@ == parse_query(s.spec_bytes()),
    {
        let mut data = MultiMap::new();
        if s.as_bytes().len() == 0 {
            return QueryString { data };
        }
        let mut rest = s;
        loop
            invariant
                data.wf(),
                s.spec_bytes().len() > 0,
                add_pieces(data@, rest.spec_bytes()) == add_pieces(Seq::empty(), s.spec_bytes()),
            decreases rest.spec_bytes().len(),
        {
            match find_byte_in(rest.as_bytes(), AMP) {
                Some(i) => {
                    let piece = cut(rest, 0, i);
                    insert_pair(&mut data, piece);
                    rest = after(rest, i);
                },
                None => {
                    assert(add_pieces(data@, rest.spec_bytes()) == add_pair(data@, rest.spec_bytes()));
                    insert_pair(&mut data, rest);
                    return QueryString { data };
                },
            }
        }
    }

    /// Number of distinct keys.
    pub fn len(&self) -> (r: usize)
        ensures
            r == self@.len(),
    {
        self.data.len()
    }

    /// The value stored under exactly `key`, if any.
    pub fn get(&self, key: &str) -> (r: Option<&Value<'buf>>)
        requires
            self.wf(),
        ensures
            r is None <==> crate::multimap::lookup(self@, key.spec_bytes()) is None,
            r matches Some(v) ==> crate::multimap::lookup(self@, key.spec_bytes()) == Some(
                v.values(),
            ) && v.wf(),
    {
        self.data.get(key)
    }
}

} // verus!
