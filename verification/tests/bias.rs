use selectme::{unbiased, Bias, Indices, Random, Snapshot};

#[test]
fn test_random_bias() {
    let set = Snapshot::new(2u32 + 64 + 128 + 1024);
    let random = Random::new(3);
    let mut it = random.apply(set);

    assert_eq!(it.next(), Some(6));
    assert_eq!(it.next(), Some(7));
    assert_eq!(it.next(), Some(10));
    assert_eq!(it.next(), Some(1));
    assert_eq!(it.next(), None);

    let set = Snapshot::new(2u32 + 64 + 128 + 1024);
    let mut it = set.iter();

    assert_eq!(it.next(), Some(1));
    assert_eq!(it.next(), Some(6));
    assert_eq!(it.next(), Some(7));
    assert_eq!(it.next(), Some(10));
    assert_eq!(it.next(), None);
}

#[test]
fn unbiased_visits_in_ascending_order() {
    let set = Snapshot::new(2u32 + 64 + 128 + 1024);
    let mut it = unbiased().apply(set);
    assert_eq!(it.next(), Some(1));
    assert_eq!(it.next(), Some(6));
    assert_eq!(it.next(), Some(7));
    assert_eq!(it.next(), Some(10));
    assert_eq!(it.next(), None);
    assert_eq!(it.next(), None);
}

fn drain<I: Indices>(mut it: I) -> Vec<u32> {
    let mut out = Vec::new();
    while let Some(index) = it.next() {
        out.push(index);
    }
    out
}

#[test]
fn random_wraps_around_the_width() {
    let set = Snapshot::new(0b1000_0001u8);
    assert_eq!(drain(Random::new(1).apply(set)), vec![7, 0]);
    assert_eq!(drain(Random::new(0).apply(set)), vec![0, 7]);
    assert_eq!(drain(Random::new(7).apply(set)), vec![7, 0]);
    assert_eq!(drain(Random::new(8).apply(set)), vec![0, 7]);
    assert_eq!(drain(Random::new(9).apply(set)), vec![7, 0]);
}

#[test]
fn random_offset_beyond_the_width_is_reduced() {
    let set = Snapshot::new(2u32 + 64 + 128 + 1024);
    assert_eq!(drain(Random::new(3 + 32).apply(set)), vec![6, 7, 10, 1]);
    assert_eq!(drain(Random::new(3 + 64).apply(set)), vec![6, 7, 10, 1]);
}

#[test]
fn every_bias_visits_each_member_once() {
    let bits: u16 = 0b1010_0110_0001_1001;
    for offset in 0..40u32 {
        let mut seen = drain(Random::new(offset).apply(Snapshot::new(bits)));
        assert_eq!(seen.len(), 7);
        seen.sort();
        assert_eq!(seen, vec![0, 3, 4, 9, 10, 13, 15]);
    }
}

#[test]
fn random_on_the_widest_mask() {
    let bits: u128 = 1 | (1 << 64) | (1 << 127);
    assert_eq!(drain(Random::new(64).apply(Snapshot::new(bits))), vec![64, 127, 0]);
    assert_eq!(drain(Random::new(65).apply(Snapshot::new(bits))), vec![127, 0, 64]);
    assert_eq!(drain(unbiased().apply(Snapshot::new(bits))), vec![0, 64, 127]);
}

#[test]
fn an_empty_set_yields_nothing() {
    assert_eq!(drain(Random::new(5).apply(Snapshot::new(0u64))), Vec::<u32>::new());
    assert_eq!(drain(unbiased().apply(Snapshot::new(0u8))), Vec::<u32>::new());
}
