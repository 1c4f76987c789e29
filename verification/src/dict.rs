//! The string dictionary: an append-only map from small integer keys to
//! interned strings, built incrementally as keys are first seen during
//! decode. Its model is the sequence of assignments in the order they were
//! made; lookup finds the first (and, as keys are never reassigned, only)
//! entry for a key.

use vstd::prelude::*;

use crate::FtrError;

verus! {

/// Model of a dictionary: the assignments in order.
pub type DictV = Seq<(nat, Seq<char>)>;

/// First entry for `k` at or after index `i`.
pub open spec fn dictv_lookup_from(d: DictV, i: int, k: nat) -> Option<Seq<char>>
    decreases d.len() - i,
{
    if i < 0 || i >= d.len() {
        None
    } else if d[i].0 == k {
        Some(d[i].1)
    } else {
        dictv_lookup_from(d, i + 1, k)
    }
}

/// The string assigned to `k`, if any.
pub open spec fn dictv_lookup(d: DictV, k: nat) -> Option<Seq<char>> {
    dictv_lookup_from(d, 0, k)
}

/// The dictionary is append-only: once a key resolves, later assignments
/// never change what it resolves to.
pub proof fn lemma_dict_append_preserves(d: DictV, e: (nat, Seq<char>), k: nat)
    requires
        dictv_lookup(d, k) is Some,
    ensures
        dictv_lookup(d.push(e), k) == dictv_lookup(d, k),
{
    lemma_dict_append_preserves_from(d, e, 0, k);
}

proof fn lemma_dict_append_preserves_from(d: DictV, e: (nat, Seq<char>), i: int, k: nat)
    requires
        dictv_lookup_from(d, i, k) is Some,
    ensures
        dictv_lookup_from(d.push(e), i, k) == dictv_lookup_from(d, i, k),
    decreases d.len() - i,
{
    if 0 <= i < d.len() && d[i].0 != k {
        lemma_dict_append_preserves_from(d, e, i + 1, k);
    }
}

/// A fresh assignment resolves to its own string.
pub proof fn lemma_dict_append_fresh(d: DictV, e: (nat, Seq<char>))
    requires
        dictv_lookup(d, e.0) is None,
    ensures
        dictv_lookup(d.push(e), e.0) == Some(e.1),
{
    lemma_dict_append_fresh_from(d, e, 0);
}

proof fn lemma_dict_append_fresh_from(d: DictV, e: (nat, Seq<char>), i: int)
    requires
        dictv_lookup_from(d, i, e.0) is None,
        0 <= i <= d.len(),
    ensures
        dictv_lookup_from(d.push(e), i, e.0) == Some(e.1),
    decreases d.len() - i,
{
    if i < d.len() {
        lemma_dict_append_fresh_from(d, e, i + 1);
    }
}

/// Integer-keyed table of interned strings, scoped to one store.
#[derive(Debug)]
pub struct StrDict {
    entries: Vec<(usize, String)>,
}

impl View for StrDict {
    type V = DictV;

    closed spec fn view(&self) -> DictV {
        Seq::new(self.entries@.len(), |i: int| (self.entries@[i].0 as nat, self.entries@[i].1@))
    }
}

impl StrDict {
    /// An empty dictionary.
    pub fn new() -> (d: StrDict)
        ensures
            d@ == Seq::<(nat, Seq<char>)>::empty(),
    {
        let d = StrDict { entries: Vec::new() };
        proof {
            assert(d@ =~= Seq::<(nat, Seq<char>)>::empty());
        }
        d
    }

    fn lookup_from(&self, i: usize, key: usize) -> (r: Option<&String>)
        requires
            i <= self.entries@.len(),
        ensures
            match dictv_lookup_from(self@, i as int, key as nat) {
                None => r is None,
                Some(v) => r matches Some(s) && s@ == v,
            },
        decreases self.entries@.len() - i,
    {
        if i >= self.entries.len() {
            None
        } else if self.entries[i].0 == key {
            Some(&self.entries[i].1)
        } else {
            self.lookup_from(i + 1, key)
        }
    }

    /// The string assigned to `key`, or absence when it was never assigned.
    pub fn lookup(&self, key: usize) -> (r: Option<&String>)
        ensures
            match dictv_lookup(self@, key as nat) {
                None => r is None,
                Some(v) => r matches Some(s) && s@ == v,
            },
    {
        self.lookup_from(0, key)
    }

    /// Assigns `key -> val`. Assigning a key twice is a format error and
    /// leaves the dictionary unchanged.
    pub fn insert(&mut self, key: usize, val: String) -> (r: Result<(), FtrError>)
        ensures
            match r {
                Ok(()) => dictv_lookup(old(self)@, key as nat) is None && final(self)@
                    == old(self)@.push((key as nat, val@)),
                Err(e) => e == FtrError::DuplicateDictionaryKey && dictv_lookup(
                    old(self)@,
                    key as nat,
                ) is Some && final(self)@ == old(self)@,
            },
    {
        if self.lookup(key).is_some() {
            return Err(FtrError::DuplicateDictionaryKey);
        }
        self.entries.push((key, val));
        proof {
            assert(self@ =~= old(self)@.push((key as nat, val@)));
        }
        Ok(())
    }
}

} // verus!
