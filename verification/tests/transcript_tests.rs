use talksage::quality::StatusStage;
use talksage::transcript::{SegmentEvent, TranscriptState};

fn partial(speaker: u32, text: &str, end: u64) -> SegmentEvent {
    SegmentEvent {
        speaker_id: speaker,
        speaker_label: "我".into(),
        text: text.into(),
        is_partial: true,
        ts_ms: 1_000 + end / 16,
        duration_ms: 0,
        rms_bits: 0,
        start_sample: 0,
        end_sample: end,
    }
}

fn committed(speaker: u32, text: &str, start: u64, end: u64) -> SegmentEvent {
    SegmentEvent {
        speaker_id: speaker,
        speaker_label: "我".into(),
        text: text.into(),
        is_partial: false,
        ts_ms: 1_000 + end / 16,
        duration_ms: (end - start) * 1000 / 16_000,
        rms_bits: 0.1f32.to_bits(),
        start_sample: start,
        end_sample: end,
    }
}

#[test]
fn hypothesis_replaced_then_committed() {
    let mut st = TranscriptState::new();
    st.apply(&partial(0, "昨", 1600));
    st.apply(&partial(0, "昨天是", 3200));
    assert_eq!(st.hypothesis_of(0).unwrap().text, "昨天是");
    assert_eq!(st.committed().len(), 0);
    st.apply(&committed(0, "昨天是星期一。", 0, 4800));
    assert_eq!(st.hypothesis_count(), 0);
    assert_eq!(st.committed().len(), 1);
    assert_eq!(st.committed()[0].text, "昨天是星期一。");
    assert_eq!(st.committed_until_sample(), 4800);
    assert!(st.revision() >= 3);
}

#[test]
fn dual_speaker_hypothesis_independent() {
    let mut st = TranscriptState::new();
    st.apply(&SegmentEvent {
        speaker_id: 0,
        speaker_label: "我".into(),
        text: "我们".into(),
        is_partial: true,
        ts_ms: 10,
        duration_ms: 0,
        rms_bits: 0,
        start_sample: 0,
        end_sample: 100,
    });
    st.apply(&SegmentEvent {
        speaker_id: 1,
        speaker_label: "客户".into(),
        text: "We need".into(),
        is_partial: true,
        ts_ms: 12,
        duration_ms: 0,
        rms_bits: 0,
        start_sample: 0,
        end_sample: 120,
    });
    assert_eq!(st.hypothesis_count(), 2);
    let snap = st.snapshot(StatusStage::Recording);
    assert_eq!(snap.hypothesis.len(), 2);
}

#[test]
fn snapshot_lists_hypotheses_in_speaker_order() {
    let mut st = TranscriptState::new();
    st.apply(&partial(7, "c", 10));
    st.apply(&partial(2, "b", 20));
    st.apply(&partial(5, "a", 5));
    st.apply(&committed(2, "done", 0, 30));
    let snap = st.snapshot(StatusStage::Idle);
    let ids: Vec<u32> = snap.hypothesis.iter().map(|h| h.speaker_id).collect();
    assert_eq!(ids, vec![5, 7]);
    assert_eq!(snap.processed_until_sample, 30);
    assert_eq!(snap.committed_until_sample, 30);
    assert_eq!(snap.revision, 4);
    assert_eq!(snap.committed[0].rms_bits, 0.1f32.to_bits());
    assert!(st.hypothesis_of(2).is_none());
}
