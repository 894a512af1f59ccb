//! A map from texts to texts that keeps its pairs sorted by key, and the
//! code-point order of texts it is sorted by.
use vstd::prelude::*;

use crate::text::owned;

verus! {

/// Strict lexicographic order of texts by code point. On UTF-8 strings this
/// is the byte order, the order a `BTreeMap` keyed by `&str` keeps.
pub open spec fn key_before(a: Seq<char>, b: Seq<char>) -> bool
    decreases a.len(),
{
    if a.len() == 0 {
        b.len() > 0
    } else if b.len() == 0 {
        false
    } else if a[0] != b[0] {
        a[0] < b[0]
    } else {
        key_before(a.drop_first(), b.drop_first())
    }
}

pub proof fn lemma_key_before_irreflexive(a: Seq<char>)
    ensures
        !key_before(a, a),
    decreases a.len(),
{
    if a.len() > 0 {
        lemma_key_before_irreflexive(a.drop_first());
    }
}

pub proof fn lemma_key_before_asymmetric(a: Seq<char>, b: Seq<char>)
    requires
        key_before(a, b),
    ensures
        !key_before(b, a),
        a != b,
    decreases a.len(),
{
    if a.len() > 0 && b.len() > 0 && a[0] == b[0] {
        lemma_key_before_asymmetric(a.drop_first(), b.drop_first());
    }
    if a == b {
        lemma_key_before_irreflexive(a);
    }
}

pub proof fn lemma_key_before_transitive(a: Seq<char>, b: Seq<char>, c: Seq<char>)
    requires
        key_before(a, b),
        key_before(b, c),
    ensures
        key_before(a, c),
    decreases a.len(),
{
    if a.len() > 0 && b.len() > 0 && c.len() > 0 && a[0] == b[0] && b[0] == c[0] {
        lemma_key_before_transitive(a.drop_first(), b.drop_first(), c.drop_first());
    }
}

pub proof fn lemma_key_before_total(a: Seq<char>, b: Seq<char>)
    requires
        a != b,
    ensures
        key_before(a, b) || key_before(b, a),
    decreases a.len(),
{
    if a.len() == 0 && b.len() == 0 {
        assert(a =~= b);
    } else if a.len() > 0 && b.len() > 0 && a[0] == b[0] {
        if a.drop_first() =~= b.drop_first() {
            assert(a =~= seq![a[0]] + a.drop_first());
            assert(b =~= seq![b[0]] + b.drop_first());
            assert(a =~= b);
        }
        lemma_key_before_total(a.drop_first(), b.drop_first());
    }
}

/// Whether text `a` comes strictly before `b`.
pub fn key_precedes(a: &[char], b: &[char]) -> (r: bool)
    ensures
        r == key_before(a@, b@),
{
    let mut i: usize = 0;
    assert(a@.subrange(0, a.len() as int) == a@);
    assert(b@.subrange(0, b.len() as int) == b@);
    while i < a.len() && i < b.len()
        invariant
            i <= a.len(),
            i <= b.len(),
            key_before(a@, b@) == key_before(a@.subrange(i as int, a.len() as int), b@.subrange(i as int, b.len() as int)),
        decreases a.len() - i,
    {
        let ghost sa = a@.subrange(i as int, a.len() as int);
        let ghost sb = b@.subrange(i as int, b.len() as int);
        assert(sa[0] == a@[i as int]);
        assert(sb[0] == b@[i as int]);
        if a[i] != b[i] {
            return a[i] < b[i];
        }
        assert(sa.drop_first() =~= a@.subrange(i + 1, a.len() as int));
        assert(sb.drop_first() =~= b@.subrange(i + 1, b.len() as int));
        i += 1;
    }
    i < b.len()
}

/// A map from texts to texts kept as pairs sorted by key, each key once
/// (the iteration order of a `BTreeMap<String, String>`).
#[derive(Debug)]
pub struct StrMap {
    entries: Vec<(String, String)>,
}

pub open spec fn keys_sorted(s: Seq<(Seq<char>, Seq<char>)>) -> bool {
    forall|i: int, j: int| 0 <= i < j < s.len() ==> key_before(#[trigger] s[i].0, #[trigger] s[j].0)
}

impl View for StrMap {
    type V = Seq<(Seq<char>, Seq<char>)>;

    closed spec fn view(&self) -> Seq<(Seq<char>, Seq<char>)> {
        self.entries@.map_values(|e: (String, String)| (e.0@, e.1@))
    }
}

impl StrMap {
    pub open spec fn wf(&self) -> bool {
        keys_sorted(self@)
    }

    pub fn new() -> (q: Self)
        ensures
            q@ == Seq::<(Seq<char>, Seq<char>)>::empty(),
            q.wf(),
    {
        let q = StrMap { entries: Vec::new() };
        assert(q@ =~= Seq::<(Seq<char>, Seq<char>)>::empty());
        q
    }

    pub fn len(&self) -> (n: usize)
        ensures
            n == self@.len(),
    {
        self.entries.len()
    }

    /// Sets `key` to `value`: replaces the value of an equal name, or inserts
    /// the pair at its place in name order. Returns that position.
    pub fn insert(&mut self, key: &str, value: &str) -> (p: usize)
        requires
            old(self).wf(),
        ensures
            final(self).wf(),
            p <= old(self)@.len(),
            forall|i: int| 0 <= i < p ==> key_before(#[trigger] old(self)@[i].0, key@),
            if p < old(self)@.len() && old(self)@[p as int].0 == key@ {
                final(self)@ == old(self)@.update(p as int, (key@, value@))
            } else {
                &&& (p < old(self)@.len() ==> key_before(key@, old(self)@[p as int].0))
                &&& final(self)@ == old(self)@.insert(p as int, (key@, value@))
            },
    {
        let ghost old_view = self@;
        let kc = crate::text::chars_of(key);
        let mut p: usize = 0;
        while p < self.entries.len()
            invariant
                p <= self.entries.len(),
                self@ == old_view,
                kc@ == key@,
                keys_sorted(old_view),
                forall|i: int| 0 <= i < p ==> key_before(#[trigger] old_view[i].0, key@),
            ensures
                p <= self.entries.len(),
                self@ == old_view,
                forall|i: int| 0 <= i < p ==> key_before(#[trigger] old_view[i].0, key@),
                p < self.entries.len() ==> !key_before(old_view[p as int].0, key@),
            decreases self.entries.len() - p,
        {
            let ec = crate::text::chars_of(self.entries[p].0.as_str());
            assert(ec@ == old_view[p as int].0);
            if !key_precedes(ec.as_slice(), kc.as_slice()) {
                break;
            }
            p += 1;
        }
        let found = if p < self.entries.len() {
            let ec = crate::text::chars_of(self.entries[p].0.as_str());
            crate::text::chars_eq(ec.as_slice(), kc.as_slice())
        } else {
            false
        };
        if found {
            self.entries.set(p, (owned(key), owned(value)));
            proof {
                assert(self@ =~= old_view.update(p as int, (key@, value@)));
                assert forall|i: int, j: int| 0 <= i < j < self@.len() implies key_before(
                    #[trigger] self@[i].0,
                    #[trigger] self@[j].0,
                ) by {
                    assert(old_view[i].0 == self@[i].0 || i == p);
                    assert(old_view[j].0 == self@[j].0 || j == p);
                    assert(key_before(old_view[i].0, old_view[j].0));
                }
            }
        } else {
            proof {
                if p < old_view.len() {
                    lemma_key_before_total(old_view[p as int].0, key@);
                }
            }
            self.entries.insert(p, (owned(key), owned(value)));
            proof {
                let nv = old_view.insert(p as int, (key@, value@));
                assert(self@ =~= nv);
                assert forall|i: int, j: int| 0 <= i < j < nv.len() implies key_before(
                    #[trigger] nv[i].0,
                    #[trigger] nv[j].0,
                ) by {
                    if j < p {
                        assert(key_before(old_view[i].0, old_view[j].0));
                    } else if j == p {
                        assert(nv[i] == old_view[i]);
                    } else if i < p {
                        assert(nv[j] == old_view[j - 1]);
                        if j - 1 > p {
                            assert(key_before(old_view[p as int].0, old_view[j - 1].0));
                            lemma_key_before_transitive(key@, old_view[p as int].0, old_view[j - 1].0);
                        }
                        lemma_key_before_transitive(old_view[i].0, key@, old_view[j - 1].0);
                    } else if i == p {
                        assert(nv[j] == old_view[j - 1]);
                        if j - 1 > p {
                            assert(key_before(old_view[p as int].0, old_view[j - 1].0));
                            lemma_key_before_transitive(key@, old_view[p as int].0, old_view[j - 1].0);
                        }
                    } else {
                        assert(nv[i] == old_view[i - 1]);
                        assert(nv[j] == old_view[j - 1]);
                        assert(key_before(old_view[i - 1].0, old_view[j - 1].0));
                    }
                }
            }
        }
        p
    }
}

impl StrMap {
    /// Adds a pair whose name comes after every name present.
    pub fn push_last(&mut self, key: &str, value: &str)
        requires
            old(self).wf(),
            old(self)@.len() > 0 ==> key_before(old(self)@.last().0, key@),
        ensures
            final(self).wf(),
            final(self)@ == old(self)@.push((key@, value@)),
    {
        let ghost o = self@;
        proof {
            assert forall|i: int| 0 <= i < o.len() implies key_before(#[trigger] o[i].0, key@) by {
                if i < o.len() - 1 {
                    assert(key_before(o[i].0, o[o.len() - 1].0));
                    lemma_key_before_transitive(o[i].0, o.last().0, key@);
                }
            }
        }
        let p = self.insert(key, value);
        proof {
            if p < o.len() {
                lemma_key_before_asymmetric(o[p as int].0, key@);
            }
            assert(p == o.len());
            assert(o.insert(p as int, (key@, value@)) =~= o.push((key@, value@)));
        }
    }
}

impl StrMap {
    /// The key and value of entry `i`.
    pub fn entry(&self, i: usize) -> (r: (&str, &str))
        requires
            i < self@.len(),
        ensures
            r.0@ == self@[i as int].0,
            r.1@ == self@[i as int].1,
    {
        (self.entries[i].0.as_str(), self.entries[i].1.as_str())
    }
}

} // verus!
