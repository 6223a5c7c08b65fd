use pipad::sampler::Sampler;

#[test]
fn sampler_averages_at_least_one_conversion() {
    assert!(Sampler::new(true, 0).is_none());
    assert!(Sampler::new(false, 0).is_none());
    assert!(Sampler::new(false, 1).is_some());
    assert!(Sampler::new(true, 255).is_some());
}

#[test]
fn conversions_per_reading_count_the_warmup() {
    assert_eq!(Sampler::single().conversions(), 1);
    assert_eq!(Sampler::new(true, 1).unwrap().conversions(), 2);
    assert_eq!(Sampler::new(true, 8).unwrap().conversions(), 9);
    assert_eq!(Sampler::new(false, 8).unwrap().conversions(), 8);
    assert_eq!(Sampler::new(true, 255).unwrap().conversions(), 256);
}

#[test]
fn single_sampler_hands_each_conversion_on() {
    let mut sampler = Sampler::single();
    assert!(sampler.is_idle());
    for raw in [0i16, 1, 4095, -7, i16::MAX, i16::MIN] {
        assert_eq!(sampler.feed(raw), Some(raw));
        assert!(sampler.is_idle());
    }
}

#[test]
fn warmup_conversion_is_thrown_away() {
    let mut sampler = Sampler::new(true, 1).unwrap();
    assert!(sampler.is_idle());
    assert_eq!(sampler.feed(100), None);
    assert!(!sampler.is_idle());
    assert_eq!(sampler.feed(200), Some(200));
    assert!(sampler.is_idle());
    assert_eq!(sampler.feed(5), None);
    assert_eq!(sampler.feed(7), Some(7));
}

#[test]
fn averaged_reading_is_the_truncating_mean() {
    let mut sampler = Sampler::new(true, 8).unwrap();
    assert_eq!(sampler.feed(4095), None);
    let raws: [i16; 8] = [1, 2, 3, 4, 5, 6, 7, 9];
    for raw in &raws[..7] {
        assert_eq!(sampler.feed(*raw), None);
        assert!(!sampler.is_idle());
    }
    assert_eq!(sampler.feed(raws[7]), Some(4));
    assert!(sampler.is_idle());
}

#[test]
fn full_scale_conversions_average_to_full_scale() {
    let mut sampler = Sampler::new(true, 8).unwrap();
    assert_eq!(sampler.feed(0), None);
    for _ in 0..7 {
        assert_eq!(sampler.feed(4095), None);
    }
    assert_eq!(sampler.feed(4095), Some(4095));
}

#[test]
fn mean_is_rounded_toward_zero() {
    let mut sampler = Sampler::new(false, 2).unwrap();
    assert_eq!(sampler.feed(3), None);
    assert_eq!(sampler.feed(4), Some(3));
    assert_eq!(sampler.feed(-3), None);
    assert_eq!(sampler.feed(-4), Some(-3));
    assert_eq!(sampler.feed(-1), None);
    assert_eq!(sampler.feed(0), Some(0));
}

#[test]
fn mean_of_extremes_stays_in_range() {
    let mut sampler = Sampler::new(false, 255).unwrap();
    for _ in 0..254 {
        assert_eq!(sampler.feed(i16::MAX), None);
    }
    assert_eq!(sampler.feed(i16::MAX), Some(i16::MAX));
    for _ in 0..254 {
        assert_eq!(sampler.feed(i16::MIN), None);
    }
    assert_eq!(sampler.feed(i16::MIN), Some(i16::MIN));
}

#[test]
fn readings_do_not_leak_into_each_other() {
    let mut sampler = Sampler::new(false, 3).unwrap();
    assert_eq!(sampler.feed(30), None);
    assert_eq!(sampler.feed(30), None);
    assert_eq!(sampler.feed(30), Some(30));
    assert_eq!(sampler.feed(0), None);
    assert_eq!(sampler.feed(0), None);
    assert_eq!(sampler.feed(3), Some(1));
}
