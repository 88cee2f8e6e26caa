//! A map keyed by source spans.
use vstd::prelude::*;
use crate::diagnostics::Span;

verus! {

/// A map from spans to values, kept as a list of entries with distinct keys.
#[derive(Debug)]
pub struct SpanMap<T> {
    entries: Vec<(Span, T)>,
}

/// The value of the last of the first `n` entries for `span`.
pub open spec fn entry_at<T>(e: Seq<(Span, T)>, span: Span, n: int) -> Option<int>
    decreases n,
{
    if n <= 0 {
        None
    } else if e[n - 1].0 == span {
        Some(n - 1)
    } else {
        entry_at(e, span, n - 1)
    }
}

proof fn lemma_entry_at<T>(e: Seq<(Span, T)>, span: Span, n: int)
    requires
        0 <= n <= e.len(),
    ensures
        match entry_at(e, span, n) {
            Some(i) => 0 <= i < n && e[i].0 == span,
            None => forall|k: int| 0 <= k < n ==> (#[trigger] e[k]).0 != span,
        },
    decreases n,
{
    if n > 0 {
        lemma_entry_at(e, span, n - 1);
    }
}

proof fn lemma_entry_at_prefix<T>(e: Seq<(Span, T)>, f: Seq<(Span, T)>, span: Span, n: int)
    requires
        0 <= n <= e.len(),
        n <= f.len(),
        forall|k: int| 0 <= k < n ==> (#[trigger] e[k]).0 == f[k].0,
    ensures
        entry_at(e, span, n) == entry_at(f, span, n),
    decreases n,
{
    if n > 0 {
        lemma_entry_at_prefix(e, f, span, n - 1);
    }
}

/// Whether no key occurs twice.
spec fn distinct_keys<T>(e: Seq<(Span, T)>) -> bool {
    forall|i: int, j: int|
        #![trigger e[i], e[j]]
        0 <= i < j < e.len() ==> e[i].0 != e[j].0
}

impl<T> SpanMap<T> {
    #[verifier::type_invariant]
    spec fn wf(self) -> bool {
        distinct_keys(self.entries@)
    }

    /// The keys, in the order in which they were first set.
    pub closed spec fn keys(&self) -> Seq<Span> {
        Seq::new(self.entries@.len(), |i: int| self.entries@[i].0)
    }
}

impl<T: View> View for SpanMap<T> {
    type V = Map<Span, T::V>;

    closed spec fn view(&self) -> Map<Span, T::V> {
        Map::new(
            |s: Span| entry_at(self.entries@, s, self.entries@.len() as int) is Some,
            |s: Span| self.entries@[entry_at(self.entries@, s, self.entries@.len() as int)->0].1@,
        )
    }
}

impl<T: View> SpanMap<T> {
    pub fn new() -> (r: Self)
        ensures
            r@ == Map::<Span, T::V>::empty(),
            r.keys() == Seq::<Span>::empty(),
    {
        let r = SpanMap { entries: Vec::new() };
        assert(r.keys() =~= Seq::<Span>::empty());
        assert(r@ =~= Map::<Span, T::V>::empty());
        r
    }

    /// The value at `span`.
    pub fn get(&self, span: Span) -> (r: Option<&T>)
        ensures
            match r {
                Some(v) => self@.dom().contains(span) && v@ == self@[span],
                None => !self@.dom().contains(span),
            },
    {
        let mut n: usize = self.entries.len();
        while n > 0
            invariant
                n <= self.entries@.len(),
                entry_at(self.entries@, span, n as int) == entry_at(
                    self.entries@,
                    span,
                    self.entries@.len() as int,
                ),
            decreases n,
        {
            if self.entries[n - 1].0 == span {
                return Some(&self.entries[n - 1].1);
            }
            n -= 1;
        }
        None
    }

    /// Set the value at `span`, replacing an earlier one.
    pub fn insert(&mut self, span: Span, value: T)
        ensures
            final(self)@ == old(self)@.insert(span, value@),
            final(self).keys() == if old(self)@.dom().contains(span) {
                old(self).keys()
            } else {
                old(self).keys().push(span)
            },
    {
        proof {
            use_type_invariant(&*self);
        }
        let mut entries: Vec<(Span, T)> = Vec::new();
        std::mem::swap(&mut entries, &mut self.entries);
        let ghost e0 = entries@;
        let mut n: usize = entries.len();
        while n > 0 && entries[n - 1].0 != span
            invariant
                n <= entries@.len(),
                entries@ == e0,
                entry_at(e0, span, n as int) == entry_at(e0, span, e0.len() as int),
            decreases n,
        {
            n -= 1;
        }
        let ghost v = value@;
        if n > 0 {
            entries.set(n - 1, (span, value));
            let ghost e1 = entries@;
            proof {
                assert forall|i: int, j: int|
                    #![trigger e1[i], e1[j]]
                    0 <= i < j < e1.len() implies e1[i].0 != e1[j].0 by {
                    assert(e0[i].0 != e0[j].0);
                }
                assert forall|s: Span| entry_at(e1, s, e1.len() as int) == entry_at(
                    e0,
                    s,
                    e0.len() as int,
                ) by {
                    lemma_entry_at_prefix(e0, e1, s, e0.len() as int);
                }
            }
            self.entries = entries;
            assert(self.keys() =~= old(self).keys());
        } else {
            proof {
                lemma_entry_at(e0, span, e0.len() as int);
            }
            entries.push((span, value));
            let ghost e1 = entries@;
            proof {
                assert forall|s: Span| entry_at(e1, s, e1.len() as int) == if s == span {
                    Some(e0.len() as int)
                } else {
                    entry_at(e0, s, e0.len() as int)
                } by {
                    lemma_entry_at_prefix(e0, e1, s, e0.len() as int);
                }
            }
            self.entries = entries;
            assert(self.keys() =~= old(self).keys().push(span));
        }
        proof {
            assert forall|s: Span| #[trigger] old(self)@.insert(span, v).dom().contains(s)
                implies self@[s] == old(self)@.insert(span, v)[s] by {
                lemma_entry_at(e0, s, e0.len() as int);
            }
            assert(self@ =~= old(self)@.insert(span, v));
        }
    }

    /// Number of keys. The keys are the domain of the map, each of them once.
    pub fn len(&self) -> (r: usize)
        ensures
            r == self.keys().len(),
            forall|s: Span| #[trigger] self@.dom().contains(s) <==> self.keys().contains(s),
            forall|i: int, j: int|
                #![trigger self.keys()[i], self.keys()[j]]
                0 <= i < j < self.keys().len() ==> self.keys()[i] != self.keys()[j],
    {
        proof {
            use_type_invariant(self);
            let e = self.entries@;
            assert forall|s: Span| #[trigger] self@.dom().contains(s) <==> self.keys().contains(s) by {
                lemma_entry_at(e, s, e.len() as int);
                if self@.dom().contains(s) {
                    let i = entry_at(e, s, e.len() as int)->0;
                    assert(self.keys()[i] == s);
                }
                if self.keys().contains(s) {
                    let i = choose|i: int| 0 <= i < self.keys().len() && self.keys()[i] == s;
                    assert(e[i].0 == s);
                }
            }
        }
        self.entries.len()
    }

    /// The `i`-th entry, in the order in which the keys were first set.
    pub fn entry(&self, i: usize) -> (r: Option<(Span, &T)>)
        ensures
            match r {
                Some((s, v)) => i < self.keys().len() && s == self.keys()[i as int]
                    && self@.dom().contains(s) && v@ == self@[s],
                None => i >= self.keys().len(),
            },
    {
        proof {
            use_type_invariant(self);
        }
        if i < self.entries.len() {
            proof {
                let e = self.entries@;
                lemma_entry_at(e, e[i as int].0, e.len() as int);
            }
            Some((self.entries[i].0, &self.entries[i].1))
        } else {
            None
        }
    }
}

} // verus!
