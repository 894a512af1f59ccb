//! A pool of loaded recognition engines, reused across listening sessions:
//! engines are borrowed by key (engine, model directory, options) and given
//! back after a reset, at most four per key for streaming engines and one
//! for the others.
use vstd::prelude::*;

use crate::asr::{engine_display_spec, EngineKind};
use crate::notes::join;
use crate::text::{chars_of, non_empty_pieces, owned, push_str, str_eq, trim, trim_chars};

verus! {

/// Engines kept per key for streaming engines (segment engines keep one).
pub const POOL_MAX_PER_KEY: usize = 4;

/// The options part of a pool key: the hot-word bias strength as the caller
/// formats it (three decimals), the hot words joined by U+001F, and the
/// execution provider (`cpu` when none is set).
pub open spec fn options_signature_spec(score_text: Seq<char>, hotwords: Seq<Seq<char>>, provider: Seq<char>) -> Seq<char> {
    score_text + "|"@ + join(hotwords, seq!['\u{1f}']) + "|"@ + (if provider.len() == 0 {
        "cpu"@
    } else {
        provider
    })
}

/// The options part of a pool key.
pub fn options_signature(score_text: &str, hotwords: &Vec<String>, provider: &str) -> (r: String)
    ensures
        r@ == options_signature_spec(score_text@, hotwords@.map_values(|s: String| s@), provider@),
{
    let ghost hv = hotwords@.map_values(|s: String| s@);
    let mut out = owned(score_text);
    push_str(&mut out, "|");
    let ghost head = out@;
    let mut i: usize = 0;
    while i < hotwords.len()
        invariant
            i <= hotwords@.len(),
            hv == hotwords@.map_values(|s: String| s@),
            out@ == head + join(hv.take(i as int), seq!['\u{1f}']),
        decreases hotwords@.len() - i,
    {
        let ghost before = out@;
        if i > 0 {
            push_str(&mut out, "\u{1f}");
        }
        push_str(&mut out, hotwords[i].as_str());
        proof {
            let t = hv.take(i + 1);
            assert(t.drop_last() =~= hv.take(i as int));
            assert(t.last() == hv[i as int]);
            if i == 0 {
                assert(join(t, seq!['\u{1f}']) == t[0]);
                assert(out@ =~= head + join(t, seq!['\u{1f}']));
            } else {
                assert("\u{1f}"@ =~= seq!['\u{1f}']) by {
                    reveal_strlit("\u{1f}");
                }
                assert(out@ =~= head + join(t, seq!['\u{1f}']));
            }
        }
        i += 1;
    }
    assert(hv.take(hotwords@.len() as int) =~= hv);
    push_str(&mut out, "|");
    if provider.is_empty() {
        push_str(&mut out, "cpu");
    } else {
        push_str(&mut out, provider);
    }
    assert(out@ =~= options_signature_spec(score_text@, hv, provider@));
    out
}

/// A hot word as one line of a hot-words file: line breaks turned into
/// spaces, then trimmed.
pub open spec fn hotword_line(term: Seq<char>) -> Seq<char> {
    trim(term.map_values(|c: char| if c == '\r' || c == '\n' { ' ' } else { c }))
}

pub open spec fn hotword_lines(terms: Seq<Seq<char>>) -> Seq<Seq<char>> {
    terms.map_values(|t: Seq<char>| hotword_line(t))
}

/// The hot-words file a streaming recogniser reads: one hot word per line,
/// blank ones left out, ending with a line break.
pub open spec fn hotwords_body_spec(terms: Seq<Seq<char>>) -> Seq<char> {
    join(non_empty_pieces(hotword_lines(terms)), seq!['\n']) + seq!['\n']
}

fn hotword_line_of(term: &str) -> (r: Vec<char>)
    ensures
        r@ == hotword_line(term@),
{
    let cs = chars_of(term);
    let mut flat: Vec<char> = Vec::new();
    let mut i: usize = 0;
    while i < cs.len()
        invariant
            i <= cs.len(),
            cs@ == term@,
            flat@ == cs@.take(i as int).map_values(|c: char| if c == '\r' || c == '\n' { ' ' } else { c }),
        decreases cs.len() - i,
    {
        let c = cs[i];
        flat.push(if c == '\r' || c == '\n' { ' ' } else { c });
        assert(cs@.take(i + 1).map_values(|c: char| if c == '\r' || c == '\n' { ' ' } else { c }) =~= cs@.take(
            i as int,
        ).map_values(|c: char| if c == '\r' || c == '\n' { ' ' } else { c }).push(if c == '\r' || c == '\n' {
            ' '
        } else {
            c
        }));
        i += 1;
    }
    assert(cs@.take(cs.len() as int) =~= cs@);
    trim_chars(flat.as_slice())
}

/// The content of the hot-words file for `hotwords` (see
/// [`hotwords_body_spec`]).
pub fn hotwords_body(hotwords: &Vec<String>) -> (r: String)
    ensures
        r@ == hotwords_body_spec(hotwords@.map_values(|s: String| s@)),
{
    let ghost hv = hotwords@.map_values(|s: String| s@);
    let ghost lines = hotword_lines(hv);
    let mut out = String::new();
    let mut any = false;
    let mut i: usize = 0;
    while i < hotwords.len()
        invariant
            i <= hotwords@.len(),
            hv == hotwords@.map_values(|s: String| s@),
            lines == hotword_lines(hv),
            out@ == join(non_empty_pieces(lines.take(i as int)), seq!['\n']),
            any == (non_empty_pieces(lines.take(i as int)).len() > 0),
        decreases hotwords@.len() - i,
    {
        let line = hotword_line_of(hotwords[i].as_str());
        proof {
            let t = lines.take(i + 1);
            assert(t.drop_last() =~= lines.take(i as int));
            assert(t.last() == lines[i as int]);
            assert(lines[i as int] == hotword_line(hv[i as int]));
        }
        if line.len() > 0 {
            let ghost before = out@;
            let ghost had = any;
            if any {
                crate::text::push_char(&mut out, '\n');
            }
            crate::text::push_chars(&mut out, line.as_slice());
            any = true;
            proof {
                let p = non_empty_pieces(lines.take(i + 1));
                assert(p == non_empty_pieces(lines.take(i as int)).push(line@));
                assert(p.drop_last() =~= non_empty_pieces(lines.take(i as int)));
                if !had {
                    assert(p.len() == 1);
                    assert(out@ =~= p[0]);
                } else {
                    assert(out@ =~= before + seq!['\n'] + line@);
                }
            }
        }
        i += 1;
    }
    assert(lines.take(hotwords@.len() as int) =~= lines);
    crate::text::push_char(&mut out, '\n');
    out
}

/// The key engines are pooled under: the engine's name, the model
/// directory and the options signature.
pub open spec fn pool_key_spec(kind: EngineKind, model_dir: Seq<char>, signature: Seq<char>) -> Seq<char> {
    engine_display_spec(kind) + "|"@ + model_dir + "|"@ + signature
}

pub fn pool_key(kind: EngineKind, model_dir: &str, signature: &str) -> (r: String)
    ensures
        r@ == pool_key_spec(kind, model_dir@, signature@),
{
    let mut out = owned(kind.display_name());
    push_str(&mut out, "|");
    push_str(&mut out, model_dir);
    push_str(&mut out, "|");
    push_str(&mut out, signature);
    out
}

// ---------------------------------------------------------------- the pool

/// The index of the first slot under `key`, or -1.
pub open spec fn first_slot<E>(v: Seq<(Seq<char>, Seq<E>)>, key: Seq<char>) -> int
    decreases v.len(),
{
    if v.len() == 0 {
        -1
    } else {
        let r = first_slot(v.drop_last(), key);
        if r >= 0 {
            r
        } else if v.last().0 == key {
            v.len() - 1
        } else {
            -1
        }
    }
}

/// The engines kept under `key`, the most recently returned last.
pub open spec fn stack_of<E>(v: Seq<(Seq<char>, Seq<E>)>, key: Seq<char>) -> Seq<E> {
    let i = first_slot(v, key);
    if 0 <= i < v.len() {
        v[i].1
    } else {
        Seq::empty()
    }
}

/// The number of engines kept.
pub open spec fn total<E>(v: Seq<(Seq<char>, Seq<E>)>) -> nat
    decreases v.len(),
{
    if v.len() == 0 {
        0
    } else {
        total(v.drop_last()) + v.last().1.len()
    }
}

/// The capacity of a key: four engines for streaming engines, one for
/// segment engines.
pub open spec fn capacity_spec(streaming: bool) -> nat {
    if streaming {
        4
    } else {
        1
    }
}

proof fn lemma_first_slot_range<E>(v: Seq<(Seq<char>, Seq<E>)>, key: Seq<char>)
    ensures
        -1 <= first_slot(v, key) < v.len(),
        first_slot(v, key) >= 0 ==> v[first_slot(v, key)].0 == key,
        first_slot(v, key) == -1 ==> forall|j: int| 0 <= j < v.len() ==> (#[trigger] v[j]).0 != key,
        first_slot(v, key) >= 0 ==> forall|j: int| 0 <= j < first_slot(v, key) ==> (#[trigger] v[j]).0 != key,
    decreases v.len(),
{
    if v.len() > 0 {
        let d = v.drop_last();
        lemma_first_slot_range(d, key);
        assert forall|j: int| 0 <= j < d.len() implies d[j] == v[j] by {}
    }
}

proof fn lemma_first_slot_is<E>(v: Seq<(Seq<char>, Seq<E>)>, key: Seq<char>, i: int)
    requires
        0 <= i < v.len(),
        v[i].0 == key,
        forall|j: int| 0 <= j < i ==> (#[trigger] v[j]).0 != key,
    ensures
        first_slot(v, key) == i,
{
    lemma_first_slot_range(v, key);
    let f = first_slot(v, key);
    if f == -1 {
        assert(v[i].0 != key);
    } else if f < i {
        assert(v[f].0 != key);
    } else if f > i {
        assert(v[i].0 != key);
    }
}

proof fn lemma_first_slot_absent<E>(v: Seq<(Seq<char>, Seq<E>)>, key: Seq<char>)
    requires
        forall|j: int| 0 <= j < v.len() ==> (#[trigger] v[j]).0 != key,
    ensures
        first_slot(v, key) == -1,
{
    lemma_first_slot_range(v, key);
    if first_slot(v, key) >= 0 {
        assert(v[first_slot(v, key)].0 != key);
    }
}

/// Replacing the engines of the slot at `i` changes the stack of its key and
/// no other.
proof fn lemma_update_slot<E>(v: Seq<(Seq<char>, Seq<E>)>, i: int, s: Seq<E>)
    requires
        0 <= i < v.len(),
    ensures
        forall|k: Seq<char>| first_slot(#[trigger] v.update(i, (v[i].0, s)), k) == first_slot(v, k),
        total(v.update(i, (v[i].0, s))) == total(v) - v[i].1.len() + s.len(),
    decreases v.len(),
{
    let w = v.update(i, (v[i].0, s));
    assert forall|k: Seq<char>| first_slot(#[trigger] v.update(i, (v[i].0, s)), k) == first_slot(v, k) by {
        lemma_first_slot_range(v, k);
        lemma_first_slot_range(w, k);
        assert forall|j: int| 0 <= j < v.len() implies (#[trigger] w[j]).0 == v[j].0 by {}
        let f = first_slot(v, k);
        if f >= 0 {
            lemma_first_slot_is(w, k, f);
        } else {
            lemma_first_slot_absent(w, k);
        }
    }
    if i == v.len() - 1 {
        assert(w.drop_last() =~= v.drop_last());
    } else {
        lemma_update_slot(v.drop_last(), i, s);
        assert(w.drop_last() =~= v.drop_last().update(i, (v[i].0, s)));
    }
}

/// Adding a slot for a key that has none.
proof fn lemma_push_slot<E>(v: Seq<(Seq<char>, Seq<E>)>, key: Seq<char>, s: Seq<E>)
    requires
        first_slot(v, key) == -1,
    ensures
        first_slot(v.push((key, s)), key) == v.len(),
        forall|k: Seq<char>| k != key ==> first_slot(#[trigger] v.push((key, s)), k) == first_slot(v, k),
        total(v.push((key, s))) == total(v) + s.len(),
{
    assert(v.push((key, s)).drop_last() =~= v);
}

proof fn lemma_total_empty_stacks<E>(v: Seq<(Seq<char>, Seq<E>)>)
    requires
        forall|j: int| 0 <= j < v.len() ==> (#[trigger] v[j]).1.len() == 0,
    ensures
        total(v) == 0,
    decreases v.len(),
{
    if v.len() > 0 {
        let d = v.drop_last();
        assert forall|j: int| 0 <= j < d.len() implies (#[trigger] d[j]).1.len() == 0 by {
            assert(d[j] == v[j]);
        }
        lemma_total_empty_stacks(d);
    }
}

/// What borrowing under `key` does: when the key keeps engines, the most
/// recently returned one is handed out and removed, every other key kept as
/// it was; otherwise nothing is handed out and the pool is unchanged.
pub open spec fn acquired<E>(before: EnginePool<E>, after: EnginePool<E>, key: Seq<char>, r: Option<E>) -> bool {
    if before.stack(key).len() > 0 {
        &&& r == Some(before.stack(key).last())
        &&& after.stack(key) == before.stack(key).drop_last()
        &&& forall|k: Seq<char>| k != key ==> #[trigger] after.stack(k) == before.stack(k)
        &&& after.size() + 1 == before.size()
    } else {
        &&& r is None
        &&& forall|k: Seq<char>| #[trigger] after.stack(k) == before.stack(k)
        &&& after.size() == before.size()
    }
}

/// What giving `engine` back under `key` does: it is kept, on top of the
/// key's engines, exactly when the key holds fewer than its capacity;
/// every other key is kept as it was.
pub open spec fn released<E>(
    before: EnginePool<E>,
    after: EnginePool<E>,
    key: Seq<char>,
    streaming: bool,
    engine: E,
    kept: bool,
) -> bool {
    &&& kept == (before.stack(key).len() < capacity_spec(streaming))
    &&& after.stack(key) == if kept {
        before.stack(key).push(engine)
    } else {
        before.stack(key)
    }
    &&& forall|k: Seq<char>| k != key ==> #[trigger] after.stack(k) == before.stack(k)
    &&& after.size() == before.size() + if kept {
        1nat
    } else {
        0nat
    }
}

/// Loaded engines, kept by key.
pub struct EnginePool<E> {
    slots: Vec<(String, Vec<E>)>,
}

impl<E> EnginePool<E> {
    pub closed spec fn slots_view(&self) -> Seq<(Seq<char>, Seq<E>)> {
        self.slots@.map_values(|s: (String, Vec<E>)| (s.0@, s.1@))
    }

    /// The engines kept under `key`, the most recently returned last.
    pub open spec fn stack(&self, key: Seq<char>) -> Seq<E> {
        stack_of(self.slots_view(), key)
    }

    /// The number of engines kept.
    pub open spec fn size(&self) -> nat {
        total(self.slots_view())
    }

    /// An empty pool.
    pub fn new() -> (p: Self)
        ensures
            forall|k: Seq<char>| (#[trigger] p.stack(k)).len() == 0,
            p.size() == 0,
    {
        let p = EnginePool { slots: Vec::new() };
        assert(p.slots_view() =~= Seq::<(Seq<char>, Seq<E>)>::empty());
        p
    }

    fn find(&self, key: &str) -> (r: Option<usize>)
        ensures
            match r {
                Some(i) => i < self.slots@.len() && first_slot(self.slots_view(), key@) == i,
                None => first_slot(self.slots_view(), key@) == -1,
            },
    {
        let ghost v = self.slots_view();
        let mut i: usize = 0;
        while i < self.slots.len()
            invariant
                i <= self.slots@.len(),
                v == self.slots_view(),
                v.len() == self.slots@.len(),
                forall|j: int| 0 <= j < i ==> (#[trigger] v[j]).0 != key@,
            decreases self.slots@.len() - i,
        {
            assert(v[i as int].0 == self.slots@[i as int].0@);
            if str_eq(self.slots[i].0.as_str(), key) {
                proof {
                    lemma_first_slot_is(v, key@, i as int);
                }
                return Some(i);
            }
            i += 1;
        }
        proof {
            lemma_first_slot_absent(v, key@);
        }
        None
    }

    /// Borrows an engine kept under `key`: the most recently returned one,
    /// or none when the pool keeps none (the caller then loads a new one).
    pub fn acquire(&mut self, key: &str) -> (r: Option<E>)
        ensures
            acquired(*old(self), *final(self), key@, r),
    {
        let ghost v = self.slots_view();
        match self.find(key) {
            None => {
                proof {
                    lemma_first_slot_range(v, key@);
                }
                None
            },
            Some(i) => {
                if self.slots[i].1.len() == 0 {
                    return None;
                }
                let (name, mut engines) = self.slots.remove(i);
                let e = engines.pop();
                let ghost s = engines@;
                self.slots.insert(i, (name, engines));
                proof {
                    assert(self.slots_view() =~= v.update(i as int, (v[i as int].0, s)));
                    lemma_update_slot(v, i as int, s);
                    lemma_first_slot_range(v, key@);
                    assert forall|k: Seq<char>| k != key@ implies #[trigger] stack_of(self.slots_view(), k) == stack_of(v, k) by {
                        lemma_first_slot_range(v, k);
                        assert(first_slot(self.slots_view(), k) == first_slot(v, k));
                        if first_slot(v, k) == i {
                            assert(v[i as int].0 == k);
                        }
                    }
                    assert(first_slot(self.slots_view(), key@) == i);
                }
                e
            },
        }
    }

    /// Gives an engine back (already reset) under `key`; it is kept when the
    /// key holds fewer than its capacity (four for a streaming engine, one
    /// otherwise) and dropped, freeing its memory, when not.
    pub fn release(&mut self, key: &str, streaming: bool, engine: E) -> (kept: bool)
        ensures
            released(*old(self), *final(self), key@, streaming, engine, kept),
    {
        let ghost v = self.slots_view();
        let capacity: usize = if streaming {
            POOL_MAX_PER_KEY
        } else {
            1
        };
        match self.find(key) {
            Some(i) => {
                if self.slots[i].1.len() >= capacity {
                    return false;
                }
                let (name, mut engines) = self.slots.remove(i);
                engines.push(engine);
                let ghost s = engines@;
                self.slots.insert(i, (name, engines));
                proof {
                    assert(self.slots_view() =~= v.update(i as int, (v[i as int].0, s)));
                    lemma_update_slot(v, i as int, s);
                    lemma_first_slot_range(v, key@);
                    assert forall|k: Seq<char>| k != key@ implies #[trigger] stack_of(self.slots_view(), k) == stack_of(v, k) by {
                        lemma_first_slot_range(v, k);
                        if first_slot(v, k) == i {
                            assert(v[i as int].0 == k);
                        }
                    }
                }
                true
            },
            None => {
                let mut engines: Vec<E> = Vec::new();
                engines.push(engine);
                let ghost s = engines@;
                self.slots.push((owned(key), engines));
                proof {
                    assert(self.slots_view() =~= v.push((key@, s)));
                    lemma_push_slot(v, key@, s);
                    assert forall|k: Seq<char>| k != key@ implies #[trigger] stack_of(self.slots_view(), k) == stack_of(v, k) by {
                        lemma_first_slot_range(v, k);
                        if first_slot(v, k) >= 0 {
                            assert(self.slots_view()[first_slot(v, k)] == v[first_slot(v, k)]);
                        }
                    }
                    assert(s =~= Seq::<E>::empty().push(engine));
                }
                true
            },
        }
    }

    /// The number of engines kept (saturating at `usize::MAX`).
    pub fn len(&self) -> (n: usize)
        ensures
            n == (if self.size() > usize::MAX {
                usize::MAX as nat
            } else {
                self.size()
            }),
    {
        let ghost v = self.slots_view();
        let mut n: usize = 0;
        let mut i: usize = 0;
        while i < self.slots.len()
            invariant
                i <= self.slots@.len(),
                v == self.slots_view(),
                n == (if total(v.take(i as int)) > usize::MAX {
                    usize::MAX as nat
                } else {
                    total(v.take(i as int))
                }),
            decreases self.slots@.len() - i,
        {
            proof {
                assert(v.take(i + 1).drop_last() =~= v.take(i as int));
                assert(v.take(i + 1).last() == v[i as int]);
            }
            n = n.saturating_add(self.slots[i].1.len());
            i += 1;
        }
        assert(v.take(self.slots@.len() as int) =~= v);
        n
    }

    /// Drops every kept engine.
    pub fn clear(&mut self)
        ensures
            forall|k: Seq<char>| (#[trigger] final(self).stack(k)).len() == 0,
            final(self).size() == 0,
    {
        self.slots = Vec::new();
        assert(self.slots_view() =~= Seq::<(Seq<char>, Seq<E>)>::empty());
    }
}

/// A released engine is what the next borrow under its key hands out:
/// after a release that keeps the engine, borrowing under the same key
/// yields that engine and leaves the pool holding what it held before the
/// release.
pub proof fn lemma_release_then_acquire<E>(
    p0: EnginePool<E>,
    p1: EnginePool<E>,
    p2: EnginePool<E>,
    key: Seq<char>,
    streaming: bool,
    engine: E,
    r: Option<E>,
)
    requires
        released(p0, p1, key, streaming, engine, true),
        acquired(p1, p2, key, r),
    ensures
        r == Some(engine),
        forall|k: Seq<char>| #[trigger] p2.stack(k) == p0.stack(k),
        p2.size() == p0.size(),
{
    assert(p0.stack(key).push(engine).drop_last() =~= p0.stack(key));
}

/// A pool never keeps more engines under a key than its capacity: borrowing
/// only removes engines, and giving one back keeps it only below capacity.
pub proof fn lemma_capacity_respected<E>(
    p0: EnginePool<E>,
    p1: EnginePool<E>,
    key: Seq<char>,
    streaming: bool,
    engine: E,
    kept: bool,
)
    requires
        p0.stack(key).len() <= capacity_spec(streaming),
        released(p0, p1, key, streaming, engine, kept),
    ensures
        p1.stack(key).len() <= capacity_spec(streaming),
{
}

} // verus!
