use covariance::count::{PairedCount, SampleCount};

#[test]
fn sample_count_starts_empty() {
    let c = SampleCount::new();
    assert_eq!(c.len(), 0);
    assert!(c.is_empty());
}

#[test]
fn sample_count_counts_each_increment() {
    let mut c = SampleCount::new();
    c.increment();
    assert_eq!(c.len(), 1);
    assert!(!c.is_empty());
    c.increment();
    c.increment();
    assert_eq!(c.len(), 3);
}

#[test]
fn paired_count_starts_empty() {
    let c = PairedCount::new();
    assert_eq!(c.len(), 0);
    assert!(c.is_empty());
    assert_eq!(c.degrees_of_freedom(), None);
}

#[test]
fn paired_count_single_sample_has_no_divisor() {
    let mut c = PairedCount::new();
    c.increment();
    assert_eq!(c.len(), 1);
    assert!(!c.is_empty());
    assert_eq!(c.degrees_of_freedom(), None);
}

#[test]
fn paired_count_two_samples_divide_by_one() {
    let mut c = PairedCount::new();
    c.increment();
    c.increment();
    assert_eq!(c.len(), 2);
    assert_eq!(c.degrees_of_freedom(), Some(1));
}

#[test]
fn paired_count_divisor_is_one_less_than_len() {
    let mut c = PairedCount::new();
    let mut i: u64 = 0;
    while i < 1000 {
        c.increment();
        i += 1;
        assert_eq!(c.len(), i);
        if i >= 2 {
            assert_eq!(c.degrees_of_freedom(), Some(i - 1));
        }
    }
    assert_eq!(c.degrees_of_freedom(), Some(999));
}

#[test]
fn paired_count_len_never_decreases() {
    let mut c = PairedCount::new();
    let mut before = c.len();
    for _ in 0..50 {
        c.increment();
        let after = c.len();
        assert!(after >= before);
        assert_eq!(after, before + 1);
        before = after;
    }
}
