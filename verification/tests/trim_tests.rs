use talksage::trim::{block_samples, speech_ranges, CHUNK_MS, PAD_MS};

fn flags(speech: &[usize], n: usize) -> Vec<bool> {
    (0..n).map(|i| speech.contains(&i)).collect()
}

#[test]
fn speech_blocks_keep_a_margin_and_separate_runs() {
    let pad = (PAD_MS / CHUNK_MS) as usize;
    assert_eq!(pad, 3);
    let f = flags(&[5, 14, 15], 22);
    assert_eq!(speech_ranges(&f, pad), vec![(2, 9), (11, 19)]);
}

#[test]
fn touching_margins_merge_and_ends_are_clipped() {
    let f = flags(&[5, 12], 20);
    assert_eq!(speech_ranges(&f, 3), vec![(2, 16)]);
    let f = flags(&[1, 19], 20);
    assert_eq!(speech_ranges(&f, 3), vec![(0, 5), (16, 20)]);
    assert_eq!(speech_ranges(&flags(&[], 10), 3), vec![]);
    assert_eq!(speech_ranges(&[], 3), vec![]);
    assert_eq!(speech_ranges(&flags(&[0, 1, 2], 3), 0), vec![(0, 3)]);
}

#[test]
fn block_ranges_map_to_samples_clipped_to_the_recording() {
    assert_eq!(block_samples((2, 9), 1600, 40_000), (3200, 14_400));
    assert_eq!(block_samples((20, 26), 1600, 40_000), (32_000, 40_000));
}
