use audiovis::reduction::bar_reduction;

fn ramp(len: u32) -> Vec<u32> {
    (1..=len).map(|x| x * 1000).collect()
}

#[test]
fn factor_zero_is_identity() {
    let mut frame = ramp(10);
    bar_reduction(&mut frame, 0);
    assert_eq!(frame, ramp(10));
    let mut empty: Vec<u32> = Vec::new();
    bar_reduction(&mut empty, 0);
    assert!(empty.is_empty());
}

#[test]
fn ten_samples_by_two() {
    // groups 1,2 / 4,5 / 7,8 leave with their means; 3, 6, 9 follow them;
    // 9 and 10 are the dropped tail
    let mut frame = ramp(10);
    bar_reduction(&mut frame, 2);
    assert_eq!(frame, vec![3000, 6000]);
}

#[test]
fn scan_moves_on_by_one_place() {
    let mut frame = vec![10, 20, 30, 40, 50, 60, 70, 80, 90, 100, 110, 120, 130];
    bar_reduction(&mut frame, 3);
    // 13 / 4 = 3 groups; 13 - 9 = 4 left; 4 > 3, so 3 are dropped
    assert_eq!(frame, vec![40]);
}

#[test]
fn factor_one_keeps_every_second_sample() {
    let mut frame = vec![7, 8, 9, 10, 11];
    bar_reduction(&mut frame, 1);
    // after the scan: 8, 10, 11; one trailing sample is dropped
    assert_eq!(frame, vec![8, 10]);
}

#[test]
fn short_frame_is_dropped_whole() {
    let mut frame = vec![4, 5, 6];
    bar_reduction(&mut frame, 3);
    assert!(frame.is_empty());
    let mut shorter = vec![4, 5];
    bar_reduction(&mut shorter, 3);
    assert!(shorter.is_empty());
    let mut single = vec![9];
    bar_reduction(&mut single, 1);
    assert!(single.is_empty());
    let mut empty: Vec<u32> = Vec::new();
    bar_reduction(&mut empty, 4);
    assert!(empty.is_empty());
}

#[test]
fn nothing_stays_where_no_more_than_the_factor_is_left() {
    // 20 / 6 = 3 groups; 20 - 15 = 5 left after the scan, and 5 are dropped
    let mut frame: Vec<u32> = (0..20).collect();
    bar_reduction(&mut frame, 5);
    assert!(frame.is_empty());
    // 21 - 15 = 6 left after the scan: one stays
    let mut longer: Vec<u32> = (0..21).collect();
    bar_reduction(&mut longer, 5);
    assert_eq!(longer, vec![5]);
}

#[test]
fn one_sample_more_than_the_factor() {
    // the scan leaves the last sample alone, and the drop takes it
    let mut frame = vec![1, 2, 3, 4];
    bar_reduction(&mut frame, 3);
    assert!(frame.is_empty());
    let mut pair = vec![1, 2];
    bar_reduction(&mut pair, 1);
    assert!(pair.is_empty());
    let mut triple = vec![1, 2, 3];
    bar_reduction(&mut triple, 1);
    assert_eq!(triple, vec![2]);
}

#[test]
fn default_sized_frame() {
    let mut frame: Vec<u32> = (0..3000).collect();
    bar_reduction(&mut frame, 5);
    // 500 groups, 500 left, 5 dropped
    assert_eq!(frame.len(), 495);
    for (j, sample) in frame.iter().enumerate() {
        assert_eq!(*sample as usize, (j + 1) * 6 - 1);
    }
}

#[test]
fn frames_come_out_shorter() {
    for factor in 1u32..8 {
        for len in 1u32..40 {
            let mut frame: Vec<u32> = (0..len).collect();
            bar_reduction(&mut frame, factor);
            assert!(frame.len() < len as usize);
        }
    }
}

#[test]
fn huge_factor() {
    let mut frame = vec![1, 2, 3];
    bar_reduction(&mut frame, u32::MAX);
    assert!(frame.is_empty());
}

fn scan_by_hand(frame: &[u32], factor: usize) -> Vec<u32> {
    let mut buffer = frame.to_vec();
    if factor == 0 {
        return buffer;
    }
    let mut position = 0;
    while position + factor < buffer.len() {
        buffer.drain(position..position + factor);
        position += 1;
    }
    buffer.truncate(buffer.len().saturating_sub(factor));
    buffer
}

#[test]
fn agrees_with_the_scan_run_by_hand() {
    for factor in 0u32..7 {
        for len in 0u32..50 {
            let frame: Vec<u32> = (0..len).map(|x| x * 3 + 1).collect();
            let mut reduced = frame.clone();
            bar_reduction(&mut reduced, factor);
            assert_eq!(reduced, scan_by_hand(&frame, factor as usize));
        }
    }
}
