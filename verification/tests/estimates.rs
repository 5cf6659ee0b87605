use frequency_sketch::sketch::FrequencyCountSketch;

#[test]
fn three_increments_give_frequency_three() {
    let mut sketch = FrequencyCountSketch::new(20);
    sketch.increment(1);
    sketch.increment(1);
    sketch.increment(1);
    assert_eq!(sketch.frequency(1), 3);
    assert_eq!(sketch.frequency(2), 0);
}

#[test]
fn zero_size_gives_the_smallest_sketch() {
    let sketch = FrequencyCountSketch::new(0);
    assert_eq!(sketch.get_table_len(), 8);
    assert_eq!(sketch.get_max_size(), 0);
}

#[test]
fn table_len_is_the_next_power_of_two_from_8_on() {
    let sizes: [usize; 12] = [0, 1, 7, 8, 9, 20, 64, 100, 1000, 1024, 1025, 100_000];
    let lens: [usize; 12] = [8, 8, 8, 8, 16, 32, 64, 128, 1024, 1024, 2048, 131_072];
    for i in 0..12 {
        let sketch = FrequencyCountSketch::new(sizes[i]);
        assert_eq!(sketch.get_table_len(), lens[i]);
        assert_eq!(sketch.get_max_size(), sizes[i]);
        assert!(sketch.get_table_len().is_power_of_two());
        assert!(sketch.get_table_len() >= 8);
    }
}

#[test]
fn fresh_sketch_estimates_zero() {
    let sketch = FrequencyCountSketch::new(20);
    for h in 0..100u64 {
        assert_eq!(sketch.frequency_of_hash_code(h), 0);
        assert_eq!(sketch.frequency(h), 0);
    }
}

#[test]
fn increments_below_saturation_are_counted_exactly() {
    for hash_code in [0u64, 1, 2, 32, 0xdead_beef, u64::MAX] {
        let mut sketch = FrequencyCountSketch::new(20);
        for n in 0..15u8 {
            assert_eq!(sketch.frequency_of_hash_code(hash_code), n);
            sketch.increment_hash_code(hash_code);
        }
        assert_eq!(sketch.frequency_of_hash_code(hash_code), 15);
    }
}

#[test]
fn items_below_saturation_are_counted_exactly() {
    let mut sketch = FrequencyCountSketch::new(20);
    for n in 0..15u8 {
        assert_eq!(sketch.frequency("key"), n);
        sketch.increment("key");
    }
    assert_eq!(sketch.frequency("key"), 15);
}

#[test]
fn frequency_saturates_at_15() {
    let mut sketch = FrequencyCountSketch::new(100);
    for _ in 0..40 {
        sketch.increment_hash_code(99);
        assert!(sketch.frequency_of_hash_code(99) <= 15);
    }
    assert_eq!(sketch.frequency_of_hash_code(99), 15);
    for _ in 0..40 {
        sketch.increment(7u32);
        assert!(sketch.frequency(7u32) <= 15);
    }
    assert_eq!(sketch.frequency(7u32), 15);
}

#[test]
fn saturated_increments_are_not_counted_towards_aging() {
    // The threshold of this sketch is 20: were the increments of a saturated
    // item counted, the twentieth would age the counters.
    let mut sketch = FrequencyCountSketch::new(2);
    for _ in 0..30 {
        sketch.increment_hash_code(99);
    }
    assert_eq!(sketch.frequency_of_hash_code(99), 15);
}

#[test]
fn frequency_does_not_fall_without_aging() {
    let mut sketch = FrequencyCountSketch::new(1000);
    let mut last = [0u8; 16];
    for round in 0..60u64 {
        sketch.increment_hash_code(round % 16);
        sketch.increment_hash_code(3);
        for h in 0..16u64 {
            let now = sketch.frequency_of_hash_code(h);
            assert!(now >= last[h as usize]);
            last[h as usize] = now;
        }
    }
}

#[test]
fn a_shared_counter_can_only_raise_an_estimate() {
    // In the smallest table the hash codes 1 and 3 share their first counter.
    let mut sketch = FrequencyCountSketch::new(0);
    sketch.increment_hash_code(1);
    sketch.increment_hash_code(1);
    sketch.increment_hash_code(1);
    sketch.increment_hash_code(3);
    sketch.increment_hash_code(3);
    assert_eq!(sketch.frequency_of_hash_code(1), 3);
    assert_eq!(sketch.frequency_of_hash_code(3), 2);
}

#[test]
fn reset_halves_every_estimate() {
    let mut sketch = FrequencyCountSketch::new(20);
    for _ in 0..5 {
        sketch.increment_hash_code(1);
    }
    for _ in 0..8 {
        sketch.increment_hash_code(2);
    }
    for _ in 0..15 {
        sketch.increment_hash_code(5);
    }
    sketch.reset();
    assert_eq!(sketch.frequency_of_hash_code(1), 2);
    assert_eq!(sketch.frequency_of_hash_code(2), 4);
    assert_eq!(sketch.frequency_of_hash_code(5), 7);
    sketch.reset();
    assert_eq!(sketch.frequency_of_hash_code(1), 1);
    assert_eq!(sketch.frequency_of_hash_code(2), 2);
    assert_eq!(sketch.frequency_of_hash_code(5), 3);
}

#[test]
fn reset_of_items_halves_within_the_rounded_up_half() {
    let mut sketch = FrequencyCountSketch::new(64);
    for item in 0..20u32 {
        for _ in 0..(item % 7) {
            sketch.increment(item);
        }
    }
    let mut before = [0u8; 20];
    for item in 0..20u32 {
        before[item as usize] = sketch.frequency(item);
    }
    sketch.reset();
    for item in 0..20u32 {
        let old = before[item as usize];
        assert_eq!(sketch.frequency(item), old / 2);
        assert!(sketch.frequency(item) <= (old + 1) / 2);
    }
}

#[test]
fn reset_on_a_fresh_sketch_changes_nothing() {
    let mut sketch = FrequencyCountSketch::new(20);
    sketch.reset();
    sketch.reset();
    assert_eq!(sketch.frequency_of_hash_code(1), 0);
    assert_eq!(sketch.get_table_len(), 32);
    sketch.increment_hash_code(1);
    assert_eq!(sketch.frequency_of_hash_code(1), 1);
}

#[test]
fn counters_age_when_the_threshold_is_reached() {
    // The threshold of the smallest sketch is 10.
    let mut sketch = FrequencyCountSketch::new(0);
    for _ in 0..9 {
        sketch.increment_hash_code(7);
    }
    assert_eq!(sketch.frequency_of_hash_code(7), 9);
    sketch.increment_hash_code(7);
    assert_eq!(sketch.frequency_of_hash_code(7), 5);
    // Aging left five counted increments; five more reach the threshold again.
    for n in 6..10u8 {
        sketch.increment_hash_code(7);
        assert_eq!(sketch.frequency_of_hash_code(7), n);
    }
    sketch.increment_hash_code(7);
    assert_eq!(sketch.frequency_of_hash_code(7), 5);
}

#[test]
fn threshold_is_ten_times_the_size() {
    let mut sketch = FrequencyCountSketch::new(3);
    // 29 counted increments: three items, none saturated.
    for _ in 0..10 {
        sketch.increment_hash_code(1);
    }
    for _ in 0..10 {
        sketch.increment_hash_code(2);
    }
    for _ in 0..9 {
        sketch.increment_hash_code(5);
    }
    assert_eq!(sketch.frequency_of_hash_code(1), 10);
    assert_eq!(sketch.frequency_of_hash_code(2), 10);
    assert_eq!(sketch.frequency_of_hash_code(5), 9);
    sketch.increment_hash_code(5);
    assert_eq!(sketch.frequency_of_hash_code(1), 5);
    assert_eq!(sketch.frequency_of_hash_code(2), 5);
    assert_eq!(sketch.frequency_of_hash_code(5), 5);
}

#[test]
fn aging_takes_a_quarter_of_the_odd_counters_off_the_size() {
    // Two items with eight different counters, all at 1: the aging pass takes
    // 8 / 4 off the two counted increments and leaves none.
    let mut sketch = FrequencyCountSketch::new(0);
    sketch.increment_hash_code(1);
    sketch.increment_hash_code(2);
    sketch.reset();
    assert_eq!(sketch.frequency_of_hash_code(1), 0);
    assert_eq!(sketch.frequency_of_hash_code(2), 0);
    // So nine more increments stay below the threshold of 10.
    for _ in 0..9 {
        sketch.increment_hash_code(5);
    }
    assert_eq!(sketch.frequency_of_hash_code(5), 9);
}

#[test]
fn aging_counts_the_odd_counters_of_a_word_modulo_8() {
    // Eight items whose first counters are eight different counters of word 0,
    // all 32 counters different: the tally is 24, not 32, because word 0
    // contributes 8 modulo 8. The aging pass leaves (8 - 24 / 4) / 2 = 1.
    let mut sketch = FrequencyCountSketch::new(1);
    for hash_code in [1u64, 2, 4, 5, 18, 24, 36, 40] {
        sketch.increment_hash_code(hash_code);
    }
    sketch.reset();
    // With one counted increment left, the ninth increment reaches the threshold.
    for _ in 0..8 {
        sketch.increment_hash_code(7);
    }
    assert_eq!(sketch.frequency_of_hash_code(7), 8);
    sketch.increment_hash_code(7);
    assert_eq!(sketch.frequency_of_hash_code(7), 4);
}

#[test]
fn frequency_of_an_item_is_that_of_its_hash_code() {
    let mut sketch = FrequencyCountSketch::new(50);
    for item in 0..30u64 {
        for _ in 0..(item % 5) {
            sketch.increment(item);
        }
    }
    for item in 0..30u64 {
        let hash_code = frequency_sketch::hashing::default_hash_code(item);
        assert_eq!(sketch.frequency(item), sketch.frequency_of_hash_code(hash_code));
    }
}

#[test]
fn estimates_never_fall_short_and_seldom_overshoot() {
    // 1000 items, each seen one to three times, in a sketch of width 4 * 512:
    // fewer increments than the aging threshold of 5120.
    let mut sketch = FrequencyCountSketch::new(512);
    assert_eq!(sketch.get_table_len(), 512);
    let mut item: u64 = 0x9e37_79b9_7f4a_7c15;
    let mut items: Vec<(u64, u8)> = Vec::new();
    let mut total: u32 = 0;
    for i in 0..1000u32 {
        item = item.wrapping_mul(6364136223846793005).wrapping_add(1442695040888963407);
        let times = 1 + (i % 3) as u8;
        items.push((item, times));
        for _ in 0..times {
            sketch.increment(item);
            total += 1;
        }
    }
    let width = 4.0 * sketch.get_table_len() as f64;
    let bound = std::f64::consts::E / width * total as f64;
    let mut beyond = 0u32;
    for (item, times) in items.iter() {
        let estimate = sketch.frequency(*item);
        assert!(estimate >= *times);
        if estimate as f64 > *times as f64 + bound {
            beyond += 1;
        }
    }
    assert!((beyond as f64) / 1000.0 < 0.0625);
}
