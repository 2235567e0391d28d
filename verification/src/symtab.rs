//! Symbol table for semantic analysis: the symbols of one scope, as a
//! map from identifier to symbol with unique keys.

use vstd::prelude::*;

verus! {

/// One symbol: a mutable integer, a constant integer with its value,
/// or an integer array; the token is its mangled name.
#[derive(Debug)]
pub enum Symbol {
    Int { token: String },
    ConstInt { token: String, value: i32 },
    IntArray { token: String },
}

/// The first symbol keyed `k` in an entry list.
pub open spec fn lookup(entries: Seq<(String, Symbol)>, k: Seq<char>) -> Option<Symbol>
    decreases entries.len(),
{
    if entries.len() == 0 {
        None
    } else if entries[0].0@ == k {
        Some(entries[0].1)
    } else {
        lookup(entries.drop_first(), k)
    }
}

/// Changing the entry at position `i` only changes its own key's
/// lookup, provided keys are unique.
proof fn lemma_lookup_update(entries: Seq<(String, Symbol)>, i: int, e: (String, Symbol), k: Seq<
    char,
>)
    requires
        0 <= i < entries.len(),
        entries[i].0@ == e.0@,
        forall|p: int, q: int|
            0 <= p < q < entries.len() ==> (#[trigger] entries[p]).0@ != (
            #[trigger] entries[q]).0@,
    ensures
        lookup(entries.update(i, e), k) == (if k == e.0@ {
            Some(e.1)
        } else {
            lookup(entries, k)
        }),
    decreases i,
{
    let upd = entries.update(i, e);
    if i == 0 {
        assert(upd.drop_first() =~= entries.drop_first());
        if k != e.0@ {
        } else {
            assert(upd[0].0@ == k);
        }
    } else {
        assert(entries[0].0@ != entries[i].0@);
        assert(upd[0] == entries[0]);
        assert(upd.drop_first() =~= entries.drop_first().update(i - 1, e));
        assert forall|p: int, q: int|
            0 <= p < q < entries.drop_first().len() implies (
        #[trigger] entries.drop_first()[p]).0@ != (#[trigger] entries.drop_first()[q]).0@ by {
            assert(entries.drop_first()[p] == entries[p + 1]);
            assert(entries.drop_first()[q] == entries[q + 1]);
        }
        assert(entries.drop_first()[i - 1].0@ == e.0@);
        lemma_lookup_update(entries.drop_first(), i - 1, e, k);
    }
}

/// Appending a fresh key only adds its own lookup.
proof fn lemma_lookup_push(entries: Seq<(String, Symbol)>, e: (String, Symbol), k: Seq<char>)
    ensures
        lookup(entries, k) is Some ==> lookup(entries.push(e), k) == lookup(entries, k),
        lookup(entries, k) is None && k == e.0@ ==> lookup(entries.push(e), k) == Some(e.1),
        lookup(entries, k) is None && k != e.0@ ==> lookup(entries.push(e), k) is None,
    decreases entries.len(),
{
    if entries.len() == 0 {
        assert(entries.push(e)[0] == e);
        assert(entries.push(e).drop_first() =~= Seq::<(String, Symbol)>::empty());
        if k == e.0@ {
            assert(lookup(entries.push(e), k) == Some(e.1));
        } else {
            assert(lookup(entries.push(e), k) == lookup(entries.push(e).drop_first(), k));
        }
    } else {
        assert(entries.push(e)[0] == entries[0]);
        assert(entries.push(e).drop_first() =~= entries.drop_first().push(e));
        lemma_lookup_push(entries.drop_first(), e, k);
        if entries[0].0@ == k {
            assert(lookup(entries.push(e), k) == Some(entries[0].1));
            assert(lookup(entries, k) == Some(entries[0].1));
        } else {
            assert(lookup(entries.push(e), k) == lookup(entries.drop_first().push(e), k));
            assert(lookup(entries, k) == lookup(entries.drop_first(), k));
        }
    }
}

/// A symbol table: identifier-to-symbol entries with unique keys.
pub struct SymTab {
    pub entries: Vec<(String, Symbol)>,
}

impl SymTab {
    /// The symbol an identifier maps to, if any.
    pub open spec fn spec_get(self, k: Seq<char>) -> Option<Symbol> {
        lookup(self.entries@, k)
    }

    /// The keys are pairwise distinct.
    pub open spec fn wf(self) -> bool {
        forall|p: int, q: int|
            0 <= p < q < self.entries@.len() ==> (#[trigger] self.entries@[p]).0@ != (
            #[trigger] self.entries@[q]).0@
    }

    /// Creates an empty table.
    pub fn new() -> (t: Self)
        ensures
            t.wf(),
            forall|k: Seq<char>| t.spec_get(k) is None,
    {
        SymTab { entries: Vec::new() }
    }

    /// The symbol of the given identifier, if it is in the table.
    pub fn get(&self, ident: &String) -> (res: Option<&Symbol>)
        ensures
            match res {
                Some(s) => self.spec_get(ident@) == Some(*s),
                None => self.spec_get(ident@) is None,
            },
    {
        proof {
            assert(self.entries@.subrange(0, self.entries@.len() as int) =~= self.entries@);
        }
        let mut i: usize = 0;
        while i < self.entries.len()
            invariant
                i <= self.entries@.len(),
                lookup(self.entries@, ident@) == lookup(
                    self.entries@.subrange(i as int, self.entries@.len() as int),
                    ident@,
                ),
            decreases self.entries@.len() - i,
        {
            let ghost rest = self.entries@.subrange(i as int, self.entries@.len() as int);
            if self.entries[i].0.eq(ident) {
                proof {
                    assert(rest[0] == self.entries@[i as int]);
                }
                return Some(&self.entries[i].1);
            }
            proof {
                assert(rest[0] == self.entries@[i as int]);
                assert(rest.drop_first() =~= self.entries@.subrange(
                    i + 1,
                    self.entries@.len() as int,
                ));
            }
            i += 1;
        }
        proof {
            assert(self.entries@.subrange(
                self.entries@.len() as int,
                self.entries@.len() as int,
            ).len() == 0);
        }
        None
    }

    /// Binds an identifier to a symbol, replacing any earlier binding.
    pub fn insert(&mut self, ident: String, symbol: Symbol)
        requires
            old(self).wf(),
        ensures
            final(self).wf(),
            final(self).spec_get(ident@) == Some(symbol),
            forall|k: Seq<char>|
                k != ident@ ==> #[trigger] final(self).spec_get(k) == old(self).spec_get(k),
    {
        let ghost olde = self.entries@;
        let mut i: usize = 0;
        while i < self.entries.len()
            invariant
                old(self).wf(),
                self == old(self),
                i <= olde.len(),
                olde == self.entries@,
                forall|j: int| 0 <= j < i ==> (#[trigger] olde[j]).0@ != ident@,
            decreases olde.len() - i,
        {
            if self.entries[i].0.eq(&ident) {
                proof {
                    lemma_lookup_update(olde, i as int, (ident, symbol), ident@);
                    assert forall|k: Seq<char>| k != ident@ implies lookup(
                        olde.update(i as int, (ident, symbol)),
                        k,
                    ) == lookup(olde, k) by {
                        lemma_lookup_update(olde, i as int, (ident, symbol), k);
                    }
                }
                self.entries.set(i, (ident, symbol));
                proof {
                    assert forall|p: int, q: int|
                        0 <= p < q < self.entries@.len() implies (
                    #[trigger] self.entries@[p]).0@ != (#[trigger] self.entries@[q]).0@ by {
                        assert(olde[p].0@ != olde[q].0@);
                    }
                }
                return ;
            }
            i += 1;
        }
        proof {
            lemma_lookup_push(olde, (ident, symbol), ident@);
            assert(lookup(olde, ident@) is None) by {
                lemma_lookup_absent(olde, ident@);
            }
            assert forall|k: Seq<char>| k != ident@ implies lookup(olde.push((ident, symbol)), k)
                == lookup(olde, k) by {
                lemma_lookup_push(olde, (ident, symbol), k);
                if lookup(olde, k) is None {
                }
            }
        }
        self.entries.push((ident, symbol));
        proof {
            assert forall|p: int, q: int|
                0 <= p < q < self.entries@.len() implies (#[trigger] self.entries@[p]).0@ != (
            #[trigger] self.entries@[q]).0@ by {
                if q < olde.len() {
                    assert(olde[p].0@ != olde[q].0@);
                } else {
                    assert(self.entries@[q].0@ == ident@);
                    assert(self.entries@[p] == olde[p]);
                }
            }
        }
    }
}

/// A key matching no entry looks up to nothing.
proof fn lemma_lookup_absent(entries: Seq<(String, Symbol)>, k: Seq<char>)
    requires
        forall|j: int| 0 <= j < entries.len() ==> (#[trigger] entries[j]).0@ != k,
    ensures
        lookup(entries, k) is None,
    decreases entries.len(),
{
    if entries.len() > 0 {
        assert forall|j: int| 0 <= j < entries.drop_first().len() implies (
        #[trigger] entries.drop_first()[j]).0@ != k by {
            assert(entries.drop_first()[j] == entries[j + 1]);
        }
        lemma_lookup_absent(entries.drop_first(), k);
    }
}

} // verus!
