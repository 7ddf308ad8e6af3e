use navcore::matcher::{CandidateList, Ranked, SlotWindow, MAX_CANDIDATES, MAX_WINDOW};

fn key(m: f64) -> u64 {
    let b = (m + 0.0).to_bits();
    if b >> 63 == 1 {
        !b
    } else {
        b | (1 << 63)
    }
}

#[test]
fn candidate_truncation_keeps_closest() {
    let mut slot: CandidateList<f64> =
        CandidateList::new(Ranked { distance_key: 0, segment_index: 0, item: 0.0 });
    for i in 0..(MAX_CANDIDATES + 5) {
        let d = ((i * 7) % 13) as f64;
        slot.insert_by_distance(Ranked { distance_key: key(d), segment_index: i, item: d });
    }
    assert_eq!(slot.len(), MAX_CANDIDATES);
    for i in 1..slot.len() {
        assert!(slot.get(i - 1).item <= slot.get(i).item);
    }
    // The 5 largest distances (of 0..13 pattern) must be gone.
    assert!(slot.get(MAX_CANDIDATES - 1).item <= 8.0);
}

#[test]
fn ties_keep_segment_order() {
    let mut list: CandidateList<()> =
        CandidateList::new(Ranked { distance_key: 0, segment_index: 0, item: () });
    for seg in [5usize, 2, 9, 2] {
        list.insert_by_distance(Ranked { distance_key: key(4.0), segment_index: seg, item: () });
    }
    list.insert_by_distance(Ranked { distance_key: key(1.0), segment_index: 7, item: () });
    let segs: Vec<usize> = (0..list.len()).map(|i| list.get(i).segment_index).collect();
    assert_eq!(segs, vec![7, 2, 2, 5, 9]);
    list.clear();
    assert_eq!(list.len(), 0);
}

#[test]
fn window_is_bounded_and_reset_clears() {
    let mut m: SlotWindow<u64> = SlotWindow::new(4, 0);
    for k in 0..20u64 {
        m.push(k * 1000);
        assert!(m.window_len() <= 4);
    }
    assert_eq!(m.window_len(), 4);
    m.reset();
    assert_eq!(m.window_len(), 0);
}

#[test]
fn window_size_is_clamped() {
    let m: SlotWindow<u8> = SlotWindow::new(999, 0);
    assert_eq!(m.window_size(), MAX_WINDOW);
    let m: SlotWindow<u8> = SlotWindow::new(0, 0);
    assert_eq!(m.window_size(), 1);
}

#[test]
fn window_keeps_newest_in_order_across_the_ring() {
    let mut m: SlotWindow<u32> = SlotWindow::new(10, 0);
    for k in 0..37u32 {
        m.push(k);
    }
    let held: Vec<u32> = (0..m.window_len()).map(|k| *m.get(k)).collect();
    assert_eq!(held, (27..37).collect::<Vec<u32>>());
    assert_eq!(*m.newest(), 36);
    m.reset();
    m.push(99);
    assert_eq!(*m.get(0), 99);
    assert_eq!(*m.newest(), 99);
}
