use navcore::geo::{keys_in_order, partition_point_at_most, segment_at_distance};

/// Order-preserving key of a distance (as the host derives it).
fn key(m: f64) -> u64 {
    let b = (m + 0.0).to_bits();
    if b >> 63 == 1 {
        !b
    } else {
        b | (1 << 63)
    }
}

#[test]
fn keys_order_like_distances() {
    let xs = [-5.0, -0.0, 0.0, 1e-300, 0.5, 1.0, 300.0, 1e12];
    for w in xs.windows(2) {
        assert!(key(w[0]) <= key(w[1]));
    }
    assert_eq!(key(-0.0), key(0.0));
}

#[test]
fn partition_point_counts_keys_at_most() {
    let keys: Vec<u64> = [0.0, 10.0, 10.0, 20.0].iter().map(|&m| key(m)).collect();
    assert_eq!(partition_point_at_most(&keys, key(-1.0)), 0);
    assert_eq!(partition_point_at_most(&keys, key(0.0)), 1);
    assert_eq!(partition_point_at_most(&keys, key(10.0)), 3);
    assert_eq!(partition_point_at_most(&keys, key(15.0)), 3);
    assert_eq!(partition_point_at_most(&keys, key(25.0)), 4);
}

#[test]
fn segment_at_distance_clamps_and_interpolates() {
    // Vertices at 0, 100, 100 (zero-length segment), 250 metres.
    let cumulative: Vec<u64> = [0.0, 100.0, 100.0, 250.0].iter().map(|&m| key(m)).collect();
    assert_eq!(segment_at_distance(&cumulative, key(-5.0)), 0);
    assert_eq!(segment_at_distance(&cumulative, key(0.0)), 0);
    assert_eq!(segment_at_distance(&cumulative, key(50.0)), 0);
    // Exactly at the shared vertex: the last vertex not beyond it starts segment 2.
    assert_eq!(segment_at_distance(&cumulative, key(100.0)), 2);
    assert_eq!(segment_at_distance(&cumulative, key(200.0)), 2);
    // At and beyond the end: the last segment.
    assert_eq!(segment_at_distance(&cumulative, key(250.0)), 2);
    assert_eq!(segment_at_distance(&cumulative, key(1e9)), 2);
}

#[test]
fn keys_in_order_detects_any_descent() {
    assert!(keys_in_order(&vec![]));
    assert!(keys_in_order(&vec![7]));
    assert!(keys_in_order(&vec![1, 1, 2, 9]));
    assert!(!keys_in_order(&vec![1, 3, 2, 9]));
    assert!(!keys_in_order(&vec![5, 4]));
}
