use entropy_scan::entropy::{
    Entropy, Histogram, ReadRequest, SampleError, SamplePlan, Sampler, SAMPLE_WINDOW,
};

/// The estimate that a caller computes from a histogram, in bits per byte.
fn shannon(histogram: &Histogram) -> f32 {
    let total = histogram.total();
    let mut entropy = 0.0f32;
    for value in 0..=255u8 {
        let count = histogram.count(value);
        if count == 0 {
            continue;
        }
        let p: f32 = (count as f32) / (total as f32);
        entropy -= p * p.log(2.0);
    }
    entropy
}

/// A fixed stream of bytes that passes for random.
fn noise(len: usize, seed: u64) -> Vec<u8> {
    let mut state = seed;
    let mut bytes = Vec::with_capacity(len);
    while bytes.len() < len {
        state = state.wrapping_add(0x9E37_79B9_7F4A_7C15);
        let mut z = state;
        z = (z ^ (z >> 30)).wrapping_mul(0xBF58_476D_1CE4_E5B9);
        z = (z ^ (z >> 27)).wrapping_mul(0x94D0_49BB_1331_11EB);
        z ^= z >> 31;
        for byte in z.to_le_bytes() {
            if bytes.len() < len {
                bytes.push(byte);
            }
        }
    }
    bytes
}

fn sample_of(data: Vec<u8>) -> Histogram {
    let length = data.len() as u64;
    match Entropy::new_from_vec(data, length).shannon() {
        Ok(histogram) => histogram,
        Err(error) => panic!("the source holds every sampled byte: {:?}", error),
    }
}

#[test]
fn it_calculates_entropy_correctly() {
    let vec = vec![0; 200];
    let len = vec.len();
    let entropy = Entropy::new_from_vec(vec, len as u64);

    assert_eq!(shannon(&entropy.shannon().unwrap()), 0.0);
}

#[test]
fn it_calculates_entropy_for_high_entropy_sources() {
    let vec: Vec<u8> = noise(2000000, 1).into_iter().map(|byte| byte % 255).collect();
    let len = vec.len();
    let entropy = Entropy::new_from_vec(vec, len as u64);

    assert!(shannon(&entropy.shannon().unwrap()) > 7.8);
}

#[test]
fn default_window_is_171072_bytes() {
    assert_eq!(SAMPLE_WINDOW, 171072);
    let source = Entropy::new_from_vec(vec![1, 2, 3], 3);
    assert_eq!(source.window, 171072);
    assert_eq!(source.length, 3);
    assert_eq!(source.data, vec![1, 2, 3]);
}

#[test]
fn plan_for_source_shorter_than_window_reads_it_whole() {
    let plan = SamplePlan::new(100, 171072);
    assert_eq!(plan.window, 100);
    assert_eq!(plan.tail_offset, None);
    assert_eq!(plan.sample_size(), 100);
}

#[test]
fn plan_for_empty_source_reads_nothing() {
    let plan = SamplePlan::new(0, 171072);
    assert_eq!(plan.window, 0);
    assert_eq!(plan.tail_offset, None);
    assert_eq!(plan.sample_size(), 0);
}

#[test]
fn plan_for_source_of_exactly_one_window_has_no_tail() {
    let plan = SamplePlan::new(171072, 171072);
    assert_eq!(plan.window, 171072);
    assert_eq!(plan.tail_offset, None);
    assert_eq!(plan.sample_size(), 171072);
}

#[test]
fn plan_for_source_between_one_and_two_windows_has_no_tail() {
    let plan = SamplePlan::new(171073, 171072);
    assert_eq!(plan.window, 171072);
    assert_eq!(plan.tail_offset, None);
    assert_eq!(plan.sample_size(), 171072);

    let plan = SamplePlan::new(300000, 171072);
    assert_eq!(plan.tail_offset, None);
    assert_eq!(plan.sample_size(), 171072);
}

#[test]
fn plan_for_source_of_exactly_two_windows_has_no_tail() {
    let plan = SamplePlan::new(342144, 171072);
    assert_eq!(plan.window, 171072);
    assert_eq!(plan.tail_offset, None);
    assert_eq!(plan.sample_size(), 171072);
}

#[test]
fn plan_for_source_longer_than_two_windows_reads_head_and_tail() {
    let plan = SamplePlan::new(342145, 171072);
    assert_eq!(plan.window, 171072);
    assert_eq!(plan.tail_offset, Some(171073));
    assert_eq!(plan.sample_size(), 342144);

    let plan = SamplePlan::new(2000000, 171072);
    assert_eq!(plan.window, 171072);
    assert_eq!(plan.tail_offset, Some(1828928));
    assert_eq!(plan.sample_size(), 342144);
}

#[test]
fn plan_for_largest_source_does_not_overflow() {
    let plan = SamplePlan::new(u64::MAX, u64::MAX);
    assert_eq!(plan.window, u64::MAX);
    assert_eq!(plan.tail_offset, None);

    let plan = SamplePlan::new(u64::MAX, 1 << 63);
    assert_eq!(plan.window, 1 << 63);
    assert_eq!(plan.tail_offset, None);

    let plan = SamplePlan::new(u64::MAX, (1 << 63) - 1);
    assert_eq!(plan.tail_offset, Some(1 << 63));
    assert_eq!(plan.sample_size(), u64::MAX - 1);
}

#[test]
fn plan_with_zero_window_reads_nothing() {
    let plan = SamplePlan::new(10, 0);
    assert_eq!(plan.window, 0);
    assert_eq!(plan.tail_offset, Some(10));
    assert_eq!(plan.sample_size(), 0);
}

#[test]
fn empty_histogram_counts_nothing() {
    let histogram = Histogram::new();
    assert_eq!(histogram.total(), 0);
    for value in 0..=255u8 {
        assert_eq!(histogram.count(value), 0);
    }
    assert_eq!(shannon(&histogram), 0.0);
}

#[test]
fn record_counts_each_byte_value() {
    let mut histogram = Histogram::new();
    histogram.record(&[7, 7, 9, 0, 255, 7]);
    assert_eq!(histogram.total(), 6);
    assert_eq!(histogram.count(7), 3);
    assert_eq!(histogram.count(9), 1);
    assert_eq!(histogram.count(0), 1);
    assert_eq!(histogram.count(255), 1);
    assert_eq!(histogram.count(8), 0);
}

#[test]
fn record_adds_to_what_was_recorded_before() {
    let mut histogram = Histogram::new();
    histogram.record(&[1, 2, 2]);
    histogram.record(&[]);
    histogram.record(&[2, 3]);
    assert_eq!(histogram.total(), 5);
    assert_eq!(histogram.count(1), 1);
    assert_eq!(histogram.count(2), 3);
    assert_eq!(histogram.count(3), 1);
}

#[test]
fn short_source_is_counted_whole() {
    let histogram = sample_of(vec![5, 6, 5, 5]);
    assert_eq!(histogram.total(), 4);
    assert_eq!(histogram.count(5), 3);
    assert_eq!(histogram.count(6), 1);
}

#[test]
fn medium_source_is_counted_from_its_head_only() {
    // Window 4, length 8: the head is sampled, the rest is not read.
    let data = vec![1, 1, 1, 1, 2, 2, 2, 2];
    let source = Entropy::new_from_vec(data, 8).with_window(4);
    let histogram = match source.shannon() {
        Ok(histogram) => histogram,
        Err(error) => panic!("{:?}", error),
    };
    assert_eq!(histogram.total(), 4);
    assert_eq!(histogram.count(1), 4);
    assert_eq!(histogram.count(2), 0);
}

#[test]
fn long_source_is_counted_from_head_and_tail() {
    // Window 3, length 10: bytes 0..3 and 7..10 are sampled, the middle is not.
    let data = vec![1, 1, 1, 9, 9, 9, 9, 2, 2, 3];
    let source = Entropy::new_from_vec(data, 10).with_window(3);
    let histogram = match source.shannon() {
        Ok(histogram) => histogram,
        Err(error) => panic!("{:?}", error),
    };
    assert_eq!(histogram.total(), 6);
    assert_eq!(histogram.count(1), 3);
    assert_eq!(histogram.count(2), 2);
    assert_eq!(histogram.count(3), 1);
    assert_eq!(histogram.count(9), 0);
}

#[test]
fn tail_is_taken_from_the_end_of_the_declared_length() {
    // The source holds more than it is declared to: the tail read ends at
    // the declared length, not at the end of the data.
    let data = vec![1, 1, 0, 0, 0, 4, 4, 8, 8, 8];
    let source = Entropy::new_from_vec(data, 7).with_window(2);
    let histogram = match source.shannon() {
        Ok(histogram) => histogram,
        Err(error) => panic!("{:?}", error),
    };
    assert_eq!(histogram.total(), 4);
    assert_eq!(histogram.count(1), 2);
    assert_eq!(histogram.count(4), 2);
    assert_eq!(histogram.count(8), 0);
}

#[test]
fn head_read_past_the_end_is_an_error() {
    let source = Entropy::new_from_vec(vec![1, 2, 3], 5).with_window(4);
    match source.shannon() {
        Err(error) => assert_eq!(error, SampleError::ShortHead),
        Ok(_) => panic!("the head read cannot be served"),
    }
}

#[test]
fn tail_read_past_the_end_is_an_error() {
    let source = Entropy::new_from_vec(vec![1, 2, 3, 4, 5, 6], 10).with_window(3);
    match source.shannon() {
        Err(error) => assert_eq!(error, SampleError::ShortTail),
        Ok(_) => panic!("the tail read cannot be served"),
    }
}

#[test]
fn constant_input_has_zero_entropy_at_any_length() {
    for (value, len) in [(0u8, 1usize), (0, 200), (0xAB, 4096), (0xFF, 171072), (1, 400000)] {
        let histogram = sample_of(vec![value; len]);
        assert_eq!(histogram.count(value), histogram.total());
        assert_eq!(shannon(&histogram), 0.0);
    }
}

#[test]
fn constant_input_fills_one_bucket() {
    let histogram = sample_of(vec![0x5A; 1000]);
    assert_eq!(histogram.total(), 1000);
    for value in 0..=255u8 {
        let expected = if value == 0x5A { 1000 } else { 0 };
        assert_eq!(histogram.count(value), expected);
    }
}

#[test]
fn random_input_of_two_windows_or_more_scores_above_7_8() {
    for seed in [1u64, 2, 3, 0xDEAD_BEEF] {
        let histogram = sample_of(noise(2 * 171072 + 1, seed));
        assert_eq!(histogram.total(), 2 * 171072);
        assert!(shannon(&histogram) > 7.8);
    }
}

#[test]
fn every_value_equally_often_scores_eight_bits() {
    let data: Vec<u8> = (0..1024u32).map(|i| (i % 256) as u8).collect();
    let histogram = sample_of(data);
    let entropy = shannon(&histogram);
    assert!((entropy - 8.0).abs() < 1e-4);
}

#[test]
fn two_values_equally_often_score_one_bit() {
    let histogram = sample_of(vec![3, 200, 3, 200]);
    assert_eq!(shannon(&histogram), 1.0);
}

#[test]
fn order_of_sampled_bytes_does_not_matter() {
    let data = noise(5000, 7);
    let mut reversed = data.clone();
    reversed.reverse();
    let mut sorted = data.clone();
    sorted.sort();

    let first = sample_of(data);
    let second = sample_of(reversed);
    let third = sample_of(sorted);
    for value in 0..=255u8 {
        assert_eq!(first.count(value), second.count(value));
        assert_eq!(first.count(value), third.count(value));
    }
    assert_eq!(first.total(), second.total());
    assert_eq!(shannon(&first).to_bits(), shannon(&second).to_bits());
    assert_eq!(shannon(&first).to_bits(), shannon(&third).to_bits());
}

#[test]
fn bytes_outside_the_windows_do_not_matter() {
    let mut data = vec![0u8; 20];
    let source = Entropy::new_from_vec(data.clone(), 20).with_window(5);
    let plain = match source.shannon() {
        Ok(histogram) => histogram,
        Err(error) => panic!("{:?}", error),
    };
    for i in 5..15 {
        data[i] = 0xEE;
    }
    let source = Entropy::new_from_vec(data, 20).with_window(5);
    let changed = match source.shannon() {
        Ok(histogram) => histogram,
        Err(error) => panic!("{:?}", error),
    };
    assert_eq!(plain.total(), 10);
    assert_eq!(changed.total(), 10);
    assert_eq!(changed.count(0), 10);
    assert_eq!(changed.count(0xEE), 0);
}

#[test]
fn zero_window_reads_nothing_wherever_the_source_ends() {
    let source = Entropy::new_from_vec(vec![1, 2, 3], 10).with_window(0);
    match source.shannon() {
        Ok(histogram) => assert_eq!(histogram.total(), 0),
        Err(error) => panic!("{:?}", error),
    }
}

#[test]
fn sampler_asks_for_the_head_then_for_the_tail() {
    let mut sampler = Sampler::new(10, 3);
    assert_eq!(sampler.next_read(), Some(ReadRequest { offset: 0, len: 3 }));
    assert_eq!(sampler.feed(&[1, 1, 2]), Ok(()));
    assert_eq!(sampler.next_read(), Some(ReadRequest { offset: 7, len: 3 }));
    assert_eq!(sampler.feed(&[2, 2, 5]), Ok(()));
    assert_eq!(sampler.next_read(), None);
    match sampler.finish() {
        Some(histogram) => {
            assert_eq!(histogram.total(), 6);
            assert_eq!(histogram.count(1), 2);
            assert_eq!(histogram.count(2), 3);
            assert_eq!(histogram.count(5), 1);
        },
        None => panic!("the sample is complete"),
    }
}

#[test]
fn sampler_asks_for_one_read_of_a_short_source() {
    let mut sampler = Sampler::new(4, 171072);
    assert_eq!(sampler.next_read(), Some(ReadRequest { offset: 0, len: 4 }));
    assert_eq!(sampler.feed(&[9, 9, 9, 9]), Ok(()));
    assert_eq!(sampler.next_read(), None);
    match sampler.finish() {
        Some(histogram) => assert_eq!(histogram.count(9), 4),
        None => panic!("the sample is complete"),
    }
}

#[test]
fn sampler_asks_for_one_empty_read_of_an_empty_source() {
    let mut sampler = Sampler::new(0, 171072);
    assert_eq!(sampler.next_read(), Some(ReadRequest { offset: 0, len: 0 }));
    assert_eq!(sampler.feed(&[]), Ok(()));
    assert_eq!(sampler.next_read(), None);
    match sampler.finish() {
        Some(histogram) => assert_eq!(histogram.total(), 0),
        None => panic!("the sample is complete"),
    }
}

#[test]
fn sampler_takes_a_short_read_for_an_error_and_stays_as_it_was() {
    let mut sampler = Sampler::new(10, 3);
    assert_eq!(sampler.feed(&[1, 1]), Err(SampleError::ShortHead));
    assert_eq!(sampler.feed(&[]), Err(SampleError::ShortHead));
    assert_eq!(sampler.next_read(), Some(ReadRequest { offset: 0, len: 3 }));
    assert_eq!(sampler.feed(&[1, 1, 1]), Ok(()));
    assert_eq!(sampler.feed(&[4, 4]), Err(SampleError::ShortTail));
    assert_eq!(sampler.next_read(), Some(ReadRequest { offset: 7, len: 3 }));
    assert_eq!(sampler.feed(&[4, 4, 4]), Ok(()));
    match sampler.finish() {
        Some(histogram) => {
            assert_eq!(histogram.total(), 6);
            assert_eq!(histogram.count(1), 3);
            assert_eq!(histogram.count(4), 3);
        },
        None => panic!("the sample is complete"),
    }
}

#[test]
fn sampler_refuses_bytes_that_were_not_asked_for() {
    let mut sampler = Sampler::new(10, 3);
    assert_eq!(sampler.feed(&[1, 1, 1, 1]), Err(SampleError::Surplus));
    assert_eq!(sampler.feed(&[1, 1, 1]), Ok(()));
    assert_eq!(sampler.feed(&[2, 2, 2]), Ok(()));
    assert_eq!(sampler.feed(&[3, 3, 3]), Err(SampleError::Surplus));
    assert_eq!(sampler.feed(&[]), Err(SampleError::Surplus));
    match sampler.finish() {
        Some(histogram) => assert_eq!(histogram.total(), 6),
        None => panic!("the sample is complete"),
    }
}

#[test]
fn sampler_has_no_histogram_while_a_read_is_due() {
    assert!(Sampler::new(10, 3).finish().is_none());
    let mut sampler = Sampler::new(10, 3);
    assert_eq!(sampler.feed(&[1, 1, 1]), Ok(()));
    assert!(sampler.finish().is_none());
}
