use phasedm::binning::{assign_bins, bin_counts, clamp_bin};

#[test]
fn in_range_bins_are_kept() {
    assert_eq!(clamp_bin(0, 10), 0);
    assert_eq!(clamp_bin(9, 10), 9);
}

#[test]
fn phase_of_one_folds_into_last_bin() {
    assert_eq!(clamp_bin(10, 10), 9);
    assert_eq!(clamp_bin(u64::MAX, 4), 3);
    assert_eq!(clamp_bin(7, 1), 0);
}

#[test]
fn bins_assigned_per_sample() {
    assert_eq!(assign_bins(&vec![0, 3, 4, 9], 4), vec![0, 3, 3, 3]);
    assert_eq!(assign_bins(&vec![], 4), Vec::<u64>::new());
}

#[test]
fn counts_per_bin() {
    assert_eq!(bin_counts(&vec![0, 2, 2, 1, 2], 4), vec![1, 1, 3, 0]);
    assert_eq!(bin_counts(&vec![], 3), vec![0, 0, 0]);
}

#[test]
fn every_sample_is_counted_once() {
    let raw = vec![0, 7, 3, 3, 12, 1, 5, 4];
    let bins = assign_bins(&raw, 5);
    let counts = bin_counts(&bins, 5);
    assert_eq!(counts, vec![1, 1, 0, 2, 4]);
    assert_eq!(counts.iter().sum::<u64>(), raw.len() as u64);
}
