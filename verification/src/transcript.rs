//! Committed text and hypothesis tails: each speaker has at most one
//! replaceable partial hypothesis; a final segment removes it and is
//! appended to the committed transcript (the only part later stages read).
use vstd::prelude::*;

use crate::quality::StatusStage;

verus! {

/// A speaker's current partial hypothesis.
#[derive(Debug, Clone)]
pub struct HypothesisSpan {
    pub speaker_id: u32,
    pub speaker_label: String,
    pub text: String,
    pub ts_ms: u64,
    pub start_sample: u64,
    pub end_sample: u64,
}

/// (speaker, label, text, timestamp, start sample, end sample)
pub type HypView = (u32, Seq<char>, Seq<char>, u64, u64, u64);

impl View for HypothesisSpan {
    type V = HypView;

    open spec fn view(&self) -> HypView {
        (self.speaker_id, self.speaker_label@, self.text@, self.ts_ms, self.start_sample, self.end_sample)
    }
}

/// A final transcript segment; its mean energy is kept as the bits of the
/// `f32` it was measured as.
#[derive(Debug, Clone)]
pub struct CommittedSegment {
    pub speaker_id: u32,
    pub speaker_label: String,
    pub text: String,
    pub ts_ms: u64,
    pub duration_ms: u64,
    pub rms_bits: u32,
}

/// (speaker, label, text, timestamp, duration, energy bits)
pub type SegView = (u32, Seq<char>, Seq<char>, u64, u64, u32);

impl View for CommittedSegment {
    type V = SegView;

    open spec fn view(&self) -> SegView {
        (self.speaker_id, self.speaker_label@, self.text@, self.ts_ms, self.duration_ms, self.rms_bits)
    }
}

/// A transcript segment event (partial or final).
#[derive(Debug, Clone)]
pub struct SegmentEvent {
    pub speaker_id: u32,
    pub speaker_label: String,
    pub text: String,
    pub is_partial: bool,
    pub ts_ms: u64,
    pub duration_ms: u64,
    pub rms_bits: u32,
    pub start_sample: u64,
    pub end_sample: u64,
}

pub open spec fn event_span(ev: SegmentEvent) -> HypView {
    (ev.speaker_id, ev.speaker_label@, ev.text@, ev.ts_ms, ev.start_sample, ev.end_sample)
}

pub open spec fn event_segment(ev: SegmentEvent) -> SegView {
    (ev.speaker_id, ev.speaker_label@, ev.text@, ev.ts_ms, ev.duration_ms, ev.rms_bits)
}

pub open spec fn speakers_sorted(s: Seq<HypView>) -> bool {
    forall|i: int, j: int| 0 <= i < j < s.len() ==> (#[trigger] s[i]).0 < (#[trigger] s[j]).0
}

pub open spec fn has_speaker(s: Seq<HypView>, k: u32) -> bool {
    exists|i: int| 0 <= i < s.len() && (#[trigger] s[i]).0 == k
}

/// The hypotheses by speaker.
pub open spec fn hyp_map(s: Seq<HypView>) -> Map<u32, HypView> {
    Map::new(
        |k: u32| has_speaker(s, k),
        |k: u32| s[choose|i: int| 0 <= i < s.len() && (#[trigger] s[i]).0 == k],
    )
}

/// The session's transcript state.
#[derive(Debug, Clone)]
pub struct TranscriptState {
    revision: u64,
    committed: Vec<CommittedSegment>,
    hypothesis: Vec<HypothesisSpan>,
    processed_until_sample: u64,
    committed_until_sample: u64,
}

/// The state a subscriber first receives: the committed segments and every
/// speaker's hypothesis, in speaker order.
#[derive(Debug, Clone)]
pub struct SessionSnapshot {
    pub revision: u64,
    pub committed: Vec<CommittedSegment>,
    pub hypothesis: Vec<HypothesisSpan>,
    pub processed_until_sample: u64,
    pub committed_until_sample: u64,
    pub stage: StatusStage,
}

pub open spec fn seg_views(v: Seq<CommittedSegment>) -> Seq<SegView> {
    v.map_values(|c: CommittedSegment| c@)
}

pub open spec fn hyp_views(v: Seq<HypothesisSpan>) -> Seq<HypView> {
    v.map_values(|h: HypothesisSpan| h@)
}

proof fn lemma_sorted_lookup(s: Seq<HypView>, i: int)
    requires
        speakers_sorted(s),
        0 <= i < s.len(),
    ensures
        hyp_map(s).contains_key(s[i].0),
        hyp_map(s)[s[i].0] == s[i],
{
    let k = s[i].0;
    assert(has_speaker(s, k));
    let j = choose|j: int| 0 <= j < s.len() && (#[trigger] s[j]).0 == k;
    if j != i {
        if j < i {
            assert(s[j].0 < s[i].0);
        } else {
            assert(s[i].0 < s[j].0);
        }
    }
}

proof fn lemma_upsert(hv: Seq<HypView>, p: int, h: HypView, found: bool)
    requires
        speakers_sorted(hv),
        0 <= p <= hv.len(),
        forall|j: int| 0 <= j < p ==> (#[trigger] hv[j]).0 < h.0,
        p < hv.len() ==> hv[p].0 >= h.0,
        found == (p < hv.len() && hv[p].0 == h.0),
    ensures
        speakers_sorted(if found { hv.update(p, h) } else { hv.insert(p, h) }),
        hyp_map(if found { hv.update(p, h) } else { hv.insert(p, h) }) == hyp_map(hv).insert(h.0, h),
{
    let nv = if found { hv.update(p, h) } else { hv.insert(p, h) };
    assert(speakers_sorted(nv)) by {
        assert forall|i: int, j: int| 0 <= i < j < nv.len() implies (#[trigger] nv[i]).0 < (#[trigger] nv[j]).0 by {
            if found {
                if i != p && j != p {
                    assert(hv[i].0 < hv[j].0);
                } else if i == p {
                    assert(hv[i].0 < hv[j].0);
                } else {
                    assert(hv[j].0 > hv[i].0);
                }
            } else {
                if j < p {
                    assert(hv[i].0 < hv[j].0);
                } else if j == p {
                    assert(hv[i].0 < h.0);
                } else if i < p {
                    assert(hv[i].0 < h.0);
                    assert(nv[j] == hv[j - 1]);
                    if j - 1 > p {
                        assert(hv[p].0 < hv[j - 1].0);
                    }
                } else if i == p {
                    assert(nv[j] == hv[j - 1]);
                    if j - 1 > p {
                        assert(hv[p].0 < hv[j - 1].0);
                    }
                } else {
                    assert(hv[i - 1].0 < hv[j - 1].0);
                }
            }
        }
    }
    assert(hyp_map(nv) =~= hyp_map(hv).insert(h.0, h)) by {
        assert forall|k: u32| #[trigger] hyp_map(nv).contains_key(k) <==> hyp_map(hv).insert(h.0, h).contains_key(k) by {
            if has_speaker(nv, k) && k != h.0 {
                let j = choose|j: int| 0 <= j < nv.len() && (#[trigger] nv[j]).0 == k;
                if found {
                    assert(hv[j].0 == k);
                } else if j < p {
                    assert(hv[j].0 == k);
                } else {
                    assert(j != p);
                    assert(hv[j - 1].0 == k);
                }
            }
            if has_speaker(hv, k) {
                let j = choose|j: int| 0 <= j < hv.len() && (#[trigger] hv[j]).0 == k;
                if found {
                    if j != p {
                        assert(nv[j].0 == k);
                    }
                } else if j < p {
                    assert(nv[j].0 == k);
                } else {
                    assert(nv[j + 1].0 == k);
                }
            }
            if k == h.0 {
                assert(nv[p].0 == k);
            }
        }
        assert forall|k: u32| #[trigger] hyp_map(nv).contains_key(k) implies hyp_map(nv)[k] == hyp_map(hv).insert(h.0, h)[k] by {
            let j = choose|j: int| 0 <= j < nv.len() && (#[trigger] nv[j]).0 == k;
            lemma_sorted_lookup(nv, j);
            if k == h.0 {
                lemma_sorted_lookup(nv, p);
            } else {
                if found || j < p {
                    lemma_sorted_lookup(hv, j);
                } else {
                    lemma_sorted_lookup(hv, j - 1);
                }
            }
        }
    }
}

proof fn lemma_remove(hv: Seq<HypView>, p: int, key: u32, found: bool)
    requires
        speakers_sorted(hv),
        0 <= p <= hv.len(),
        forall|j: int| 0 <= j < p ==> (#[trigger] hv[j]).0 < key,
        p < hv.len() ==> hv[p].0 >= key,
        found == (p < hv.len() && hv[p].0 == key),
    ensures
        speakers_sorted(if found { hv.remove(p) } else { hv }),
        hyp_map(if found { hv.remove(p) } else { hv }) == hyp_map(hv).remove(key),
{
    let nv = if found { hv.remove(p) } else { hv };
    assert(speakers_sorted(nv)) by {
        assert forall|i: int, j: int| 0 <= i < j < nv.len() implies (#[trigger] nv[i]).0 < (#[trigger] nv[j]).0 by {
            if found {
                if j < p {
                    assert(hv[i].0 < hv[j].0);
                } else if i < p {
                    assert(nv[j] == hv[j + 1]);
                    assert(hv[i].0 < hv[j + 1].0);
                } else {
                    assert(hv[i + 1].0 < hv[j + 1].0);
                }
            }
        }
    }
    assert(hyp_map(nv) =~= hyp_map(hv).remove(key)) by {
        assert forall|k: u32| #[trigger] hyp_map(nv).contains_key(k) <==> hyp_map(hv).remove(key).contains_key(k) by {
            if has_speaker(nv, k) {
                let j = choose|j: int| 0 <= j < nv.len() && (#[trigger] nv[j]).0 == k;
                if found {
                    if j < p {
                        assert(hv[j].0 == k);
                        assert(hv[j].0 < key);
                    } else {
                        assert(hv[j + 1].0 == k);
                        assert(hv[p].0 < hv[j + 1].0);
                    }
                } else {
                    assert(hv[j].0 == k);
                    if j > p {
                        assert(hv[p].0 < hv[j].0);
                    }
                }
            }
            if has_speaker(hv, k) && k != key {
                let j = choose|j: int| 0 <= j < hv.len() && (#[trigger] hv[j]).0 == k;
                if found {
                    if j < p {
                        assert(nv[j].0 == k);
                    } else {
                        assert(j != p);
                        assert(nv[j - 1].0 == k);
                    }
                } else {
                    assert(nv[j].0 == k);
                }
            }
        }
        assert forall|k: u32| #[trigger] hyp_map(nv).contains_key(k) implies hyp_map(nv)[k] == hyp_map(hv).remove(key)[k] by {
            let j = choose|j: int| 0 <= j < nv.len() && (#[trigger] nv[j]).0 == k;
            lemma_sorted_lookup(nv, j);
            if found && j >= p {
                lemma_sorted_lookup(hv, j + 1);
            } else {
                lemma_sorted_lookup(hv, j);
            }
        }
    }
}

impl TranscriptState {
    /// Counts applied events (saturating).
    pub closed spec fn rev(&self) -> u64 {
        self.revision
    }

    /// The furthest sample any event reached.
    pub closed spec fn processed_until(&self) -> u64 {
        self.processed_until_sample
    }

    /// The furthest sample a final segment reached.
    pub closed spec fn committed_until(&self) -> u64 {
        self.committed_until_sample
    }

    pub fn revision(&self) -> (r: u64)
        ensures
            r == self.rev(),
    {
        self.revision
    }

    pub fn processed_until_sample(&self) -> (r: u64)
        ensures
            r == self.processed_until(),
    {
        self.processed_until_sample
    }

    pub fn committed_until_sample(&self) -> (r: u64)
        ensures
            r == self.committed_until(),
    {
        self.committed_until_sample
    }

    pub closed spec fn wf(&self) -> bool {
        speakers_sorted(hyp_views(self.hypothesis@))
    }

    /// Committed segments, oldest first.
    pub closed spec fn committed_view(&self) -> Seq<SegView> {
        seg_views(self.committed@)
    }

    /// Hypotheses in speaker order.
    pub closed spec fn hypothesis_view(&self) -> Seq<HypView> {
        hyp_views(self.hypothesis@)
    }

    pub open spec fn hypotheses(&self) -> Map<u32, HypView> {
        hyp_map(self.hypothesis_view())
    }

    pub fn new() -> (s: Self)
        ensures
            s.wf(),
            s.rev() == 0,
            s.committed_view() == Seq::<SegView>::empty(),
            s.hypothesis_view() == Seq::<HypView>::empty(),
            s.processed_until() == 0,
            s.committed_until() == 0,
    {
        let s = TranscriptState {
            revision: 0,
            committed: Vec::new(),
            hypothesis: Vec::new(),
            processed_until_sample: 0,
            committed_until_sample: 0,
        };
        assert(s.committed_view() =~= Seq::<SegView>::empty());
        assert(s.hypothesis_view() =~= Seq::<HypView>::empty());
        s
    }

    pub fn committed(&self) -> (r: &Vec<CommittedSegment>)
        ensures
            seg_views(r@) == self.committed_view(),
    {
        &self.committed
    }

    /// The current hypothesis of a speaker.
    pub fn hypothesis_of(&self, speaker_id: u32) -> (r: Option<&HypothesisSpan>)
        requires
            self.wf(),
        ensures
            match r {
                Some(h) => self.hypotheses().contains_key(speaker_id) && self.hypotheses()[speaker_id] == h@,
                None => !self.hypotheses().contains_key(speaker_id),
            },
    {
        let ghost hv = self.hypothesis_view();
        let mut k: usize = 0;
        while k < self.hypothesis.len()
            invariant
                k <= self.hypothesis.len(),
                hv == self.hypothesis_view(),
                speakers_sorted(hv),
                forall|j: int| 0 <= j < k ==> (#[trigger] hv[j]).0 != speaker_id,
            decreases self.hypothesis.len() - k,
        {
            if self.hypothesis[k].speaker_id == speaker_id {
                proof {
                    lemma_sorted_lookup(hv, k as int);
                }
                return Some(&self.hypothesis[k]);
            }
            assert(hv[k as int].0 != speaker_id);
            k += 1;
        }
        proof {
            if has_speaker(hv, speaker_id) {
                let j = choose|j: int| 0 <= j < hv.len() && (#[trigger] hv[j]).0 == speaker_id;
                assert(hv[j].0 != speaker_id);
            }
        }
        None
    }

    /// Number of speakers with a hypothesis.
    pub fn hypothesis_count(&self) -> (n: usize)
        ensures
            n == self.hypothesis_view().len(),
    {
        self.hypothesis.len()
    }

    /// Applies a segment event: a partial one replaces its speaker's
    /// hypothesis; a final one drops it, is appended to the committed
    /// transcript and advances the committed position. Every event bumps the
    /// revision (saturating) and the processed position.
    pub fn apply(&mut self, ev: &SegmentEvent)
        requires
            old(self).wf(),
        ensures
            final(self).wf(),
            final(self).rev() == if old(self).rev() == u64::MAX {
                u64::MAX
            } else {
                (old(self).rev() + 1) as u64
            },
            final(self).processed_until() == if ev.end_sample > old(self).processed_until() {
                ev.end_sample
            } else {
                old(self).processed_until()
            },
            ev.is_partial ==> {
                &&& final(self).hypotheses() == old(self).hypotheses().insert(ev.speaker_id, event_span(*ev))
                &&& final(self).committed_view() == old(self).committed_view()
                &&& final(self).committed_until() == old(self).committed_until()
            },
            !ev.is_partial ==> {
                &&& final(self).hypotheses() == old(self).hypotheses().remove(ev.speaker_id)
                &&& final(self).committed_view() == old(self).committed_view().push(event_segment(*ev))
                &&& final(self).committed_until() == if ev.end_sample > old(self).committed_until() {
                    ev.end_sample
                } else {
                    old(self).committed_until()
                }
            },
    {
        self.revision = self.revision.saturating_add(1);
        if ev.end_sample > self.processed_until_sample {
            self.processed_until_sample = ev.end_sample;
        }
        let ghost hv = hyp_views(self.hypothesis@);
        // Position of the speaker in speaker order.
        let mut p: usize = 0;
        while p < self.hypothesis.len() && self.hypothesis[p].speaker_id < ev.speaker_id
            invariant
                p <= self.hypothesis.len(),
                hv == hyp_views(self.hypothesis@),
                speakers_sorted(hv),
                forall|j: int| 0 <= j < p ==> (#[trigger] hv[j]).0 < ev.speaker_id,
            decreases self.hypothesis.len() - p,
        {
            p += 1;
        }
        let found = p < self.hypothesis.len() && self.hypothesis[p].speaker_id == ev.speaker_id;
        if ev.is_partial {
            let span = HypothesisSpan {
                speaker_id: ev.speaker_id,
                speaker_label: crate::text::owned(ev.speaker_label.as_str()),
                text: crate::text::owned(ev.text.as_str()),
                ts_ms: ev.ts_ms,
                start_sample: ev.start_sample,
                end_sample: ev.end_sample,
            };
            if found {
                self.hypothesis.set(p, span);
            } else {
                self.hypothesis.insert(p, span);
            }
            proof {
                let nv = hyp_views(self.hypothesis@);
                let h = event_span(*ev);
                if found {
                    assert(nv =~= hv.update(p as int, h));
                } else {
                    assert(nv =~= hv.insert(p as int, h));
                }
                lemma_upsert(hv, p as int, h, found);
            }
        } else {
            if found {
                self.hypothesis.remove(p);
            }
            proof {
                let nv = hyp_views(self.hypothesis@);
                if found {
                    assert(nv =~= hv.remove(p as int));
                } else {
                    assert(nv =~= hv);
                }
                lemma_remove(hv, p as int, ev.speaker_id, found);
            }
            if ev.end_sample > self.committed_until_sample {
                self.committed_until_sample = ev.end_sample;
            }
            let seg = CommittedSegment {
                speaker_id: ev.speaker_id,
                speaker_label: crate::text::owned(ev.speaker_label.as_str()),
                text: crate::text::owned(ev.text.as_str()),
                ts_ms: ev.ts_ms,
                duration_ms: ev.duration_ms,
                rms_bits: ev.rms_bits,
            };
            let ghost before = seg_views(self.committed@);
            self.committed.push(seg);
            assert(seg_views(self.committed@) =~= before.push(event_segment(*ev)));
        }
    }

    /// The state as a subscriber first receives it.
    pub fn snapshot(&self, stage: StatusStage) -> (s: SessionSnapshot)
        ensures
            s.revision == self.rev(),
            seg_views(s.committed@) == self.committed_view(),
            hyp_views(s.hypothesis@) == self.hypothesis_view(),
            s.processed_until_sample == self.processed_until(),
            s.committed_until_sample == self.committed_until(),
            s.stage == stage,
    {
        let mut committed: Vec<CommittedSegment> = Vec::new();
        let mut k: usize = 0;
        while k < self.committed.len()
            invariant
                k <= self.committed.len(),
                seg_views(committed@) == seg_views(self.committed@).subrange(0, k as int),
            decreases self.committed.len() - k,
        {
            let c = copy_segment(&self.committed[k]);
            let ghost before = seg_views(committed@);
            committed.push(c);
            assert(seg_views(committed@) =~= before.push(self.committed@[k as int]@));
            assert(seg_views(committed@) =~= seg_views(self.committed@).subrange(0, k + 1));
            k += 1;
        }
        assert(seg_views(self.committed@).subrange(0, k as int) =~= seg_views(self.committed@));
        let mut hypothesis: Vec<HypothesisSpan> = Vec::new();
        let mut j: usize = 0;
        while j < self.hypothesis.len()
            invariant
                j <= self.hypothesis.len(),
                hyp_views(hypothesis@) == hyp_views(self.hypothesis@).subrange(0, j as int),
            decreases self.hypothesis.len() - j,
        {
            let h = copy_span(&self.hypothesis[j]);
            let ghost before = hyp_views(hypothesis@);
            hypothesis.push(h);
            assert(hyp_views(hypothesis@) =~= before.push(self.hypothesis@[j as int]@));
            assert(hyp_views(hypothesis@) =~= hyp_views(self.hypothesis@).subrange(0, j + 1));
            j += 1;
        }
        assert(hyp_views(self.hypothesis@).subrange(0, j as int) =~= hyp_views(self.hypothesis@));
        SessionSnapshot {
            revision: self.revision,
            committed,
            hypothesis,
            processed_until_sample: self.processed_until_sample,
            committed_until_sample: self.committed_until_sample,
            stage,
        }
    }
}

fn copy_segment(c: &CommittedSegment) -> (r: CommittedSegment)
    ensures
        r@ == c@,
{
    CommittedSegment {
        speaker_id: c.speaker_id,
        speaker_label: crate::text::owned(c.speaker_label.as_str()),
        text: crate::text::owned(c.text.as_str()),
        ts_ms: c.ts_ms,
        duration_ms: c.duration_ms,
        rms_bits: c.rms_bits,
    }
}

fn copy_span(h: &HypothesisSpan) -> (r: HypothesisSpan)
    ensures
        r@ == h@,
{
    HypothesisSpan {
        speaker_id: h.speaker_id,
        speaker_label: crate::text::owned(h.speaker_label.as_str()),
        text: crate::text::owned(h.text.as_str()),
        ts_ms: h.ts_ms,
        start_sample: h.start_sample,
        end_sample: h.end_sample,
    }
}

} // verus!
