//! The folding map shared by headers and query strings: each key holds one
//! value, or the ordered list of all its values once it has been seen again.
use vstd::prelude::*;
use vstd::string::StringSliceAdditionalSpecFns;
use crate::text::same_bytes;

verus! {

/// What a key holds: one value, or every value in the order met.
#[derive(Debug)]
pub enum Value<'buf> {
    Single(&'buf str),
    Multiple(Vec<&'buf str>),
}

/// The model of a map: its keys in order of first appearance, each with its
/// values in order of appearance.
pub type Entries = Seq<(Seq<u8>, Seq<Seq<u8>>)>;

/// `k` is one of the keys.
pub open spec fn has_key(es: Entries, k: Seq<u8>) -> bool {
    exists|i: int| 0 <= i < es.len() && es[i].0 == k
}

/// The position of key `k` (meaningful when `has_key(es, k)`).
pub open spec fn key_at(es: Entries, k: Seq<u8>) -> int {
    choose|i: int| 0 <= i < es.len() && es[i].0 == k
}

/// The values held under `k`, if any.
pub open spec fn lookup(es: Entries, k: Seq<u8>) -> Option<Seq<Seq<u8>>> {
    if has_key(es, k) {
        Some(es[key_at(es, k)].1)
    } else {
        None
    }
}

/// Adds value `v` under key `k`: appended to the key's values when the key is
/// present, a new entry at the end otherwise.
pub open spec fn upsert(es: Entries, k: Seq<u8>, v: Seq<u8>) -> Entries {
    if has_key(es, k) {
        let i = key_at(es, k);
        es.update(i, (k, es[i].1.push(v)))
    } else {
        es.push((k, seq![v]))
    }
}

/// No key stands twice.
pub open spec fn keys_unique(es: Entries) -> bool {
    forall|i: int, j: int| 0 <= i < j < es.len() ==> es[i].0 != es[j].0
}

/// Every key holds at least one value.
pub open spec fn none_empty(es: Entries) -> bool {
    forall|i: int| 0 <= i < es.len() ==> #[trigger] es[i].1.len() >= 1
}

/// With unique keys, the position of a key is the one where it stands.
pub proof fn lemma_key_at(es: Entries, k: Seq<u8>, i: int)
    requires
        keys_unique(es),
        0 <= i < es.len(),
        es[i].0 == k,
    ensures
        has_key(es, k),
        key_at(es, k) == i,
{
}

/// Adding a value keeps the keys unique and every key's values non-empty.
pub proof fn lemma_upsert_wf(es: Entries, k: Seq<u8>, v: Seq<u8>)
    requires
        keys_unique(es),
        none_empty(es),
    ensures
        keys_unique(upsert(es, k, v)),
        none_empty(upsert(es, k, v)),
        has_key(upsert(es, k, v), k),
{
    let r = upsert(es, k, v);
    if has_key(es, k) {
        assert(r[key_at(es, k)].0 == k);
    } else {
        assert(r[es.len() as int].0 == k);
    }
}

impl<'buf> Value<'buf> {
    /// The values held, in order.
    pub open spec fn values(&self) -> Seq<Seq<u8>> {
        match self {
            Value::Single(s) => seq![s.spec_bytes()],
            Value::Multiple(v) => v@.map_values(|s: &'buf str| s.spec_bytes()),
        }
    }

    /// A list of values only ever holds two or more.
    pub open spec fn wf(&self) -> bool {
        match self {
            Value::Single(_) => true,
            Value::Multiple(v) => v@.len() >= 2,
        }
    }
}

/// A map from keys to their values, in order of first appearance.
#[derive(Debug)]
pub struct MultiMap<'buf> {
    entries: Vec<(&'buf str, Value<'buf>)>,
}

impl<'buf> View for MultiMap<'buf> {
    type V = Entries;

    closed spec fn view(&self) -> Entries {
        self.entries@.map_values(|e: (&'buf str, Value<'buf>)| (e.0.spec_bytes(), e.1.values()))
    }
}

impl<'buf> MultiMap<'buf> {
    /// Keys are unique and each holds a well-formed value.
    pub closed spec fn wf(&self) -> bool {
        &&& keys_unique(self@)
        &&& forall|i: int| 0 <= i < self.entries@.len() ==> #[trigger] self.entries@[i].1.wf()
    }

    /// A well-formed map has unique keys, each holding at least one value.
    pub proof fn lemma_wf(&self)
        requires
            self.wf(),
        ensures
            keys_unique(self@),
            none_empty(self@),
    {
        assert forall|i: int| 0 <= i < self@.len() implies #[trigger] self@[i].1.len() >= 1 by {
            assert(self.entries@[i].1.wf());
        }
    }

    /// The empty map.
    pub fn new() -> (r: MultiMap<'buf>)
        ensures
            r.wf(),
            r@ == Seq::<(Seq<u8>, Seq<Seq<u8>>)>::empty(),
    {
        let r = MultiMap { entries: Vec::new() };
        assert(r@ =~= Seq::<(Seq<u8>, Seq<Seq<u8>>)>::empty());
        r
    }

    /// Number of distinct keys.
    pub fn len(&self) -> (r: usize)
        ensures
            r == self@.len(),
    {
        self.entries.len()
    }

    /// The value stored under exactly `key`, if any.
    pub fn get(&self, key: &str) -> (r: Option<&Value<'buf>>)
        requires
            self.wf(),
        ensures
            r is None <==> lookup(self@, key.spec_bytes()) is None,
            r matches Some(v) ==> lookup(self@, key.spec_bytes()) == Some(v.values()) && v.wf(),
    {
        let mut i: usize = 0;
        while i < self.entries.len()
            invariant
                self.wf(),
                0 <= i <= self.entries@.len(),
                forall|j: int| 0 <= j < i ==> self@[j].0 != key.spec_bytes(),
            decreases self.entries@.len() - i,
        {
            if same_bytes(self.entries[i].0.as_bytes(), key.as_bytes()) {
                proof {
                    lemma_key_at(self@, key.spec_bytes(), i as int);
                }
                return Some(&self.entries[i].1);
            }
            i = i + 1;
        }
        None
    }

    /// Adds `val` under `key`, folding a repeated key into a list of values.
    pub fn insert(&mut self, key: &'buf str, val: &'buf str)
        requires
            old(self).wf(),
        ensures
            final(self).wf(),
            final(self)@ == upsert(old(self)@, key.spec_bytes(), val.spec_bytes()),
    {
        let ghost es = self@;
        proof {
            self.lemma_wf();
            lemma_upsert_wf(es, key.spec_bytes(), val.spec_bytes());
        }
        let mut i: usize = 0;
        while i < self.entries.len()
            invariant
                self@ == es,
                es == old(self)@,
                self.wf(),
                0 <= i <= self.entries@.len(),
                forall|j: int| 0 <= j < i ==> self@[j].0 != key.spec_bytes(),
            decreases self.entries@.len() - i,
        {
            if same_bytes(self.entries[i].0.as_bytes(), key.as_bytes()) {
                proof {
                    lemma_key_at(es, key.spec_bytes(), i as int);
                }
                let ghost old_entries = self.entries@;
                assert(old_entries[i as int].1.wf());
                let (k, v) = self.entries.remove(i);
                let nv = match v {
                    Value::Single(p) => Value::Multiple(vec![p, val]),
                    Value::Multiple(mut vs) => {
                        let ghost before = vs@;
                        vs.push(val);
                        proof {
                            assert(vs@.map_values(|s: &'buf str| s.spec_bytes()) =~= before.map_values(
                                |s: &'buf str| s.spec_bytes(),
                            ).push(val.spec_bytes()));
                        }
                        Value::Multiple(vs)
                    },
                };
                proof {
                    assert(nv.values() =~= es[i as int].1.push(val.spec_bytes()));
                }
                self.entries.insert(i, (k, nv));
                proof {
                    assert(self.entries@ =~= old_entries.update(i as int, (k, nv)));
                    assert(self@ =~= upsert(es, key.spec_bytes(), val.spec_bytes()));
                    assert(nv.wf());
                    assert forall|j: int| 0 <= j < self.entries@.len() implies #[trigger] self.entries@[j].1.wf() by {
                        if j != i {
                            assert(self.entries@[j] == old_entries[j]);
                        }
                    }
                }
                return;
            }
            i = i + 1;
        }
        let ghost old_entries = self.entries@;
        self.entries.push((key, Value::Single(val)));
        assert(self@ =~= upsert(es, key.spec_bytes(), val.spec_bytes()));
        assert forall|j: int| 0 <= j < self.entries@.len() implies #[trigger] self.entries@[j].1.wf() by {
            if j < old_entries.len() {
                assert(self.entries@[j] == old_entries[j]);
            }
        }
    }
}

} // verus!
