use entroptui::bins::bin_ranges;
use entroptui::bitplane::{bit_name, BitPlaneEntropyAnalyzer};
use entroptui::entropy::{BucketSize, EntropyAnalyzer, SymbolCounts};
use entroptui::hilbert::{best_pow2_side, d2xy, hilbert_targets};

#[test]
fn bucket_sizes() {
    assert_eq!(BucketSize::B1.bytes(), 1);
    assert_eq!(BucketSize::B2.bytes(), 2);
    assert_eq!(BucketSize::B4.bytes(), 4);
    assert_eq!(BucketSize::default(), BucketSize::B1);
    assert_eq!(EntropyAnalyzer::default().bucket, BucketSize::B1);
}

#[test]
fn analyzer_labels() {
    assert_eq!(EntropyAnalyzer { bucket: BucketSize::B1 }.metric_label(), "entropy-1 (0..1)");
    assert_eq!(EntropyAnalyzer { bucket: BucketSize::B2 }.metric_label(), "entropy-2 (0..1)");
    assert_eq!(EntropyAnalyzer { bucket: BucketSize::B4 }.metric_label(), "entropy-4 (0..1)");
    assert_eq!(EntropyAnalyzer::default().name(), "Shannon Entropy");
    assert_eq!(BitPlaneEntropyAnalyzer.name(), "Bit-plane entropy");
    assert_eq!(BitPlaneEntropyAnalyzer.metric_label(), "bit entropy (0..1)");
}

fn sorted_pairs(c: &SymbolCounts) -> Vec<(u32, usize)> {
    match c {
        SymbolCounts::Dense(t) => t
            .iter()
            .enumerate()
            .filter(|(_, &n)| n > 0)
            .map(|(v, &n)| (v as u32, n))
            .collect(),
        SymbolCounts::Sparse(p) => {
            let mut p = p.clone();
            p.sort();
            p
        }
    }
}

#[test]
fn symbol_counts_by_width() {
    let data = [1u8, 0, 1, 0, 2, 0, 0xFF, 0xFF, 9];
    let a1 = EntropyAnalyzer { bucket: BucketSize::B1 };
    let (c1, n1) = a1.symbol_counts(&data).unwrap();
    assert_eq!(n1, 9);
    assert!(matches!(c1, SymbolCounts::Dense(ref t) if t.len() == 256));
    assert_eq!(sorted_pairs(&c1), vec![(0, 3), (1, 2), (2, 1), (9, 1), (255, 2)]);

    let a2 = EntropyAnalyzer { bucket: BucketSize::B2 };
    let (c2, n2) = a2.symbol_counts(&data).unwrap();
    assert_eq!(n2, 4);
    assert!(matches!(c2, SymbolCounts::Dense(ref t) if t.len() == 65536));
    assert_eq!(sorted_pairs(&c2), vec![(1, 2), (2, 1), (0xFFFF, 1)]);

    let a4 = EntropyAnalyzer { bucket: BucketSize::B4 };
    let (c4, n4) = a4.symbol_counts(&data).unwrap();
    assert_eq!(n4, 2);
    assert!(matches!(c4, SymbolCounts::Sparse(_)));
    assert_eq!(sorted_pairs(&c4), vec![(0x0001_0001, 1), (0xFFFF_0002, 1)]);

    assert!(a4.symbol_counts(&data[..3]).is_none());
    assert!(a1.symbol_counts(&[]).is_none());
}

#[test]
fn dense_and_sparse_counts_agree() {
    let data: Vec<u8> = [1u8, 2, 3, 4, 5, 6, 7, 8].iter().cycle().take(2048).cloned().collect();
    for bucket in [BucketSize::B1, BucketSize::B2, BucketSize::B4] {
        let a = EntropyAnalyzer { bucket };
        let (dense, n) = a.symbol_counts(&data).unwrap();
        let (sparse, m) = a.symbol_counts_sparse(&data).unwrap();
        assert_eq!(n, m);
        assert_eq!(sorted_pairs(&dense), sorted_pairs(&sparse));
        let total: usize = sorted_pairs(&sparse).iter().map(|p| p.1).sum();
        assert_eq!(total, n);
    }
    let a2 = EntropyAnalyzer { bucket: BucketSize::B2 };
    assert!(matches!(a2.symbol_counts_sparse(&data).unwrap().0, SymbolCounts::Sparse(_)));
}

#[test]
fn bit_planes() {
    let ones = BitPlaneEntropyAnalyzer::bit_plane_ones(&[0x01, 0x03, 0x80, 0xFF]);
    assert_eq!(ones, vec![3, 2, 1, 1, 1, 1, 1, 2]);
    assert_eq!(BitPlaneEntropyAnalyzer::bit_plane_ones(&[]), vec![0; 8]);
}

#[test]
fn bit_names() {
    assert_eq!(bit_name(0), "bit 0 (LSB)");
    assert_eq!(bit_name(3), "bit 3");
    assert_eq!(bit_name(7), "bit 7 (MSB)");
    assert_eq!(bit_name(8), "bit ?");
}

#[test]
fn bins_cover_window() {
    let r = bin_ranges(10, 3);
    assert_eq!(r, vec![Some((0, 3)), Some((3, 6)), Some((6, 10))]);
    let r = bin_ranges(3, 5);
    assert_eq!(r, vec![Some((0, 1)), Some((1, 2)), Some((2, 3)), None, None]);
    assert_eq!(bin_ranges(0, 4), vec![None, None, None, None]);
    assert_eq!(bin_ranges(7, 0), vec![Some((0, 7))]);
    for len in 0..50usize {
        for bins in 1..12usize {
            let r = bin_ranges(len, bins);
            let mut next = 0;
            for b in r.iter().flatten() {
                assert_eq!(b.0, next);
                assert!(b.0 < b.1);
                next = b.1;
            }
            assert_eq!(next, len);
        }
    }
}

#[test]
fn pow2_side() {
    assert_eq!(best_pow2_side(0), 0);
    assert_eq!(best_pow2_side(1), 1);
    assert_eq!(best_pow2_side(2), 2);
    assert_eq!(best_pow2_side(17), 16);
    assert_eq!(best_pow2_side(64), 64);
    assert_eq!(best_pow2_side(65534), 32768);
    assert_eq!(best_pow2_side(65535), 32768);
}

#[test]
fn hilbert_small_grid() {
    let cells: Vec<(u16, u16)> = (0..4).map(|d| d2xy(2, d)).collect();
    assert_eq!(cells, vec![(0, 0), (0, 1), (1, 1), (1, 0)]);
    let cells: Vec<(u16, u16)> = (0..16).map(|d| d2xy(4, d)).collect();
    assert_eq!(
        cells,
        vec![
            (0, 0), (1, 0), (1, 1), (0, 1), (0, 2), (0, 3), (1, 3), (1, 2),
            (2, 2), (2, 3), (3, 3), (3, 2), (3, 1), (2, 1), (2, 0), (3, 0)
        ]
    );
}

#[test]
fn hilbert_targets_are_a_permutation() {
    for side in [2u16, 4, 8, 16, 32] {
        let t = hilbert_targets(side);
        let n = side as usize;
        assert_eq!(t.len(), n * n);
        let mut seen = vec![false; n * n];
        for x in &t {
            let i = x.unwrap();
            assert!(!seen[i]);
            seen[i] = true;
        }
    }
    let t = hilbert_targets(3);
    assert_eq!(t.len(), 9);
    assert!(t.iter().any(|x| x.is_none()));
    assert_eq!(hilbert_targets(0).len(), 4);
}

#[test]
fn hilbert_walk_is_a_path_from_corner_to_corner() {
    for side in [2u16, 4, 8, 16, 32] {
        let cells = side as u32 * side as u32;
        assert_eq!(d2xy(side, 0), (0, 0));
        assert_eq!(d2xy(side, cells - 1), (side - 1, 0));
        for d in 0..cells - 1 {
            let (x0, y0) = d2xy(side, d);
            let (x1, y1) = d2xy(side, d + 1);
            let dx = (x0 as i32 - x1 as i32).abs();
            let dy = (y0 as i32 - y1 as i32).abs();
            assert_eq!(dx + dy, 1);
        }
    }
}
