use mnist_trainer::config::parse_decimal;
use mnist_trainer::config::parse_u64;
use mnist_trainer::config::resolve_config;
use mnist_trainer::dataset::assemble;
use mnist_trainer::dataset::assemble_with_order;
use mnist_trainer::encode::argmax;
use mnist_trainer::encode::argmax_bytes;
use mnist_trainer::encode::normalize_pixel;
use mnist_trainer::encode::one_hot;
use mnist_trainer::evaluate::evaluate;
use mnist_trainer::frac::Frac;
use mnist_trainer::model::restore;
use mnist_trainer::model::ModelState;
use mnist_trainer::schedule::batch_range;
use mnist_trainer::schedule::checkpoint_step;
use mnist_trainer::schedule::epoch_batches;
use mnist_trainer::schedule::is_checkpoint;
use mnist_trainer::schedule::num_batches;
use mnist_trainer::shuffle::random_permutation;
use mnist_trainer::CoreError;

// --- sample encoding -------------------------------------------------

#[test]
fn normalize_maps_extremes_exactly() {
    let zero = normalize_pixel(0);
    assert_eq!(zero.num, 0);
    assert_eq!(zero.den, 255);
    let one = normalize_pixel(255);
    assert_eq!(one.num, 255);
    assert_eq!(one.den, 255);
    let mid = normalize_pixel(128);
    assert_eq!(mid.num, 128);
    assert_eq!(mid.den, 255);
    for b in 0..=255u16 {
        let f = normalize_pixel(b as u8);
        assert!(f.num <= f.den);
        assert_eq!(f.num, b as u64);
    }
}

#[test]
fn one_hot_marks_exactly_the_label() {
    let v = one_hot(3, 10).unwrap();
    assert_eq!(v.len(), 10);
    for (i, &e) in v.iter().enumerate() {
        assert_eq!(e, if i == 3 { 1 } else { 0 });
    }
}

#[test]
fn one_hot_rejects_out_of_range_label() {
    assert_eq!(one_hot(10, 10), Err(CoreError::LabelOutOfRange));
    assert_eq!(one_hot(0, 0), Err(CoreError::LabelOutOfRange));
}

#[test]
fn argmax_of_one_hot_recovers_label() {
    for label in 0..10u8 {
        let v = one_hot(label, 10).unwrap();
        assert_eq!(argmax_bytes(&v), label as usize);
    }
}

#[test]
fn argmax_takes_lowest_index_on_tie() {
    let v: Vec<i64> = vec![3, 7, 2, 7, 1];
    assert_eq!(argmax(&v), 1);
    let w: Vec<i64> = vec![-5, -5, -5];
    assert_eq!(argmax(&w), 0);
}

#[test]
fn argmax_finds_strict_maximum() {
    let v: Vec<i64> = vec![1, 9, 4];
    assert_eq!(argmax(&v), 1);
    let single: Vec<i64> = vec![42];
    assert_eq!(argmax(&single), 0);
}

// --- learning-rate policy --------------------------------------------

#[test]
fn rate_decays_by_99_over_100_when_worse() {
    let r = Frac::new(1, 2);
    let worse = r.adjusted(true);
    assert_eq!(worse.num, 99);
    assert_eq!(worse.den, 200);
}

#[test]
fn rate_grows_by_101_over_100_when_better() {
    let r = Frac::new(1, 2);
    let better = r.adjusted(false);
    assert_eq!(better.num, 101);
    assert_eq!(better.den, 200);
}

#[test]
fn checked_rate_reports_overflow() {
    let r = Frac { num: u64::MAX, den: 1 };
    assert_eq!(r.checked_adjusted(true), Err(CoreError::RateOverflow));
    let ok = Frac { num: 5, den: 10 };
    assert_eq!(ok.checked_adjusted(false), Ok(Frac { num: 505, den: 1000 }));
}

// --- scheduling -------------------------------------------------------

#[test]
fn twenty_samples_batch_ten_gives_two_batches() {
    assert_eq!(num_batches(20, 10), 2);
    assert_eq!(batch_range(20, 10, 0), (0, 10));
    assert_eq!(batch_range(20, 10, 1), (10, 20));
}

#[test]
fn partial_final_batch_is_kept() {
    assert_eq!(num_batches(25, 10), 3);
    assert_eq!(batch_range(25, 10, 2), (20, 25));
    assert_eq!(num_batches(0, 10), 0);
    assert_eq!(num_batches(9, 10), 1);
    assert_eq!(batch_range(9, 10, 0), (0, 9));
}

#[test]
fn epoch_plan_covers_every_sample_once() {
    let plan = epoch_batches(23, 5);
    assert_eq!(plan.len(), 5);
    let mut covered = vec![0usize; 23];
    for &(start, end) in plan.iter() {
        assert!(start < end && end <= 23);
        for j in start..end {
            covered[j] += 1;
        }
    }
    assert!(covered.iter().all(|&c| c == 1));
}

#[test]
fn checkpoints_fall_every_fifth_epoch() {
    assert!(is_checkpoint(0, 5));
    assert!(!is_checkpoint(1, 5));
    assert!(!is_checkpoint(4, 5));
    assert!(is_checkpoint(5, 5));
    assert!(is_checkpoint(10, 5));
}

#[test]
fn checkpoint_adjusts_rate_only_when_adaptive() {
    let rate = Frac::new(1, 2);
    let d = checkpoint_step(&rate, true, true, false).unwrap();
    assert_eq!(d.new_rate, Frac { num: 99, den: 200 });
    assert!(d.delta_defined);
    let d2 = checkpoint_step(&rate, true, false, false).unwrap();
    assert_eq!(d2.new_rate, Frac { num: 101, den: 200 });
    let d3 = checkpoint_step(&rate, false, true, false).unwrap();
    assert_eq!(d3.new_rate, rate);
}

#[test]
fn zero_last_error_leaves_delta_undefined() {
    let rate = Frac::new(1, 2);
    let d = checkpoint_step(&rate, true, false, true).unwrap();
    assert!(!d.delta_defined);
    assert_eq!(d.new_rate, Frac { num: 101, den: 200 });
}

// --- persistence ------------------------------------------------------

#[test]
fn model_round_trips_through_bytes() {
    let m = ModelState {
        layer_sizes: vec![784, 30, 10],
        params: vec![0, 1, u64::MAX, 0x3fe0000000000000, 17],
    };
    let bytes = m.encode();
    let back = ModelState::decode(&bytes).unwrap();
    assert_eq!(back, m);
}

#[test]
fn empty_model_round_trips() {
    let m = ModelState { layer_sizes: vec![], params: vec![] };
    let back = ModelState::decode(&m.encode()).unwrap();
    assert_eq!(back, m);
}

#[test]
fn corrupt_bytes_are_rejected() {
    assert_eq!(ModelState::decode(&vec![]), Err(CoreError::CorruptModel));
    assert_eq!(ModelState::decode(&vec![0u8; 19]), Err(CoreError::CorruptModel));
    let m = ModelState { layer_sizes: vec![2, 2], params: vec![9, 9, 9, 9, 9, 9] };
    let mut bytes = m.encode();
    bytes[0] ^= 0xff; // break the tag
    assert_eq!(ModelState::decode(&bytes), Err(CoreError::CorruptModel));
    let mut truncated = m.encode();
    truncated.pop();
    assert_eq!(ModelState::decode(&truncated), Err(CoreError::CorruptModel));
}

#[test]
fn absent_file_asks_for_fresh_model() {
    // no stored bytes: no error, and the caller initializes the
    // requested topology itself
    assert_eq!(restore(None), Ok(None));
    let requested = vec![784u64, 30, 10];
    let fresh = ModelState { layer_sizes: requested.clone(), params: vec![0; 10] };
    assert_eq!(fresh.layer_sizes, requested);
}

#[test]
fn present_file_must_decode() {
    let m = ModelState { layer_sizes: vec![4, 2], params: vec![1, 2, 3] };
    let bytes = m.encode();
    assert_eq!(restore(Some(&bytes)), Ok(Some(m)));
    let garbage = vec![1u8, 2, 3, 4, 5, 6, 7, 8, 9, 10, 11, 12, 13, 14, 15, 16, 17, 18, 19, 20];
    assert_eq!(restore(Some(&garbage)), Err(CoreError::CorruptModel));
}

// --- dataset assembly --------------------------------------------------

#[test]
fn assemble_pairs_chunks_with_labels_in_order() {
    let images = vec![10u8, 20, 30, 40, 50, 60];
    let labels = vec![2u8, 0, 1];
    let ds = assemble(&images, &labels, 2, 3).unwrap();
    assert_eq!(ds.len(), 3);
    assert_eq!(ds[0].pixels, vec![10, 20]);
    assert_eq!(ds[1].pixels, vec![30, 40]);
    assert_eq!(ds[2].pixels, vec![50, 60]);
    assert_eq!(ds[0].target, vec![0, 0, 1]);
    assert_eq!(ds[1].target, vec![1, 0, 0]);
    assert_eq!(ds[2].target, vec![0, 1, 0]);
}

#[test]
fn assemble_rejects_chunk_label_mismatch() {
    let images = vec![10u8, 20, 30, 40, 50];
    let labels = vec![0u8, 1, 2];
    assert_eq!(assemble(&images, &labels, 2, 3), Err(CoreError::SizeMismatch));
}

#[test]
fn assemble_rejects_bad_label() {
    let images = vec![10u8, 20, 30, 40];
    let labels = vec![0u8, 3];
    assert_eq!(assemble(&images, &labels, 2, 3), Err(CoreError::LabelOutOfRange));
}

#[test]
fn assemble_with_order_reads_permuted() {
    let images = vec![10u8, 20, 30, 40, 50, 60];
    let labels = vec![0u8, 1, 2];
    let order = vec![2usize, 0, 1];
    let ds = assemble_with_order(&images, &labels, 2, 3, &order).unwrap();
    assert_eq!(ds[0].pixels, vec![50, 60]);
    assert_eq!(ds[1].pixels, vec![10, 20]);
    assert_eq!(ds[2].pixels, vec![30, 40]);
    assert_eq!(ds[0].target, vec![0, 0, 1]);
}

#[test]
fn shuffled_assembly_loses_no_sample() {
    let images: Vec<u8> = (0..20).collect();
    let labels: Vec<u8> = vec![0, 1, 2, 3, 4, 5, 6, 7, 8, 9];
    let order = random_permutation(10);
    let ds = assemble_with_order(&images, &labels, 2, 10, &order).unwrap();
    assert_eq!(ds.len(), 10);
    let mut firsts: Vec<u8> = ds.iter().map(|s| s.pixels[0]).collect();
    firsts.sort();
    let expected: Vec<u8> = (0..10).map(|i| 2 * i).collect();
    assert_eq!(firsts, expected);
}

#[test]
fn random_permutation_rearranges_all_indices() {
    let p = random_permutation(50);
    assert_eq!(p.len(), 50);
    let mut sorted = p.clone();
    sorted.sort();
    let identity: Vec<usize> = (0..50).collect();
    assert_eq!(sorted, identity);
}

// --- evaluation ---------------------------------------------------------

fn eval_fixture() -> (Vec<mnist_trainer::dataset::Sample>, Vec<u8>) {
    let images = vec![0u8; 10];
    let labels = vec![0u8, 1, 2, 0, 1];
    let samples = assemble(&images, &labels, 2, 3).unwrap();
    (samples, labels)
}

#[test]
fn five_samples_three_correct_is_sixty_percent() {
    let (samples, labels) = eval_fixture();
    // correct, correct, wrong (guessed 0), correct, wrong (guessed 2)
    let outputs: Vec<Vec<i64>> = vec![
        vec![9, 1, 1],
        vec![0, 9, 1],
        vec![9, 1, 1],
        vec![9, 0, 0],
        vec![1, 1, 9],
    ];
    let rep = evaluate(&samples, &outputs, &labels, 3).unwrap();
    assert_eq!(rep.total, 5);
    assert_eq!(rep.correct, 3);
    let pct = rep.accuracy_percent();
    assert_eq!(pct.num, 300);
    assert_eq!(pct.den, 5);
    assert_eq!(pct.num / pct.den, 60);
    assert_eq!(rep.incorrect_by_true.iter().sum::<usize>(), 2);
    assert_eq!(rep.incorrect_by_guess.iter().sum::<usize>(), 2);
    assert_eq!(rep.incorrect_by_true, vec![0, 1, 1]);
    assert_eq!(rep.incorrect_by_guess, vec![1, 0, 1]);
}

#[test]
fn evaluation_tie_breaks_to_lower_class() {
    let (samples, labels) = eval_fixture();
    // sample 0 has true class 0; a tie between classes 0 and 2 must
    // predict 0, so it counts as correct
    let outputs: Vec<Vec<i64>> = vec![
        vec![9, 1, 9],
        vec![0, 9, 1],
        vec![0, 0, 9],
        vec![9, 0, 0],
        vec![0, 9, 0],
    ];
    let rep = evaluate(&samples, &outputs, &labels, 3).unwrap();
    assert_eq!(rep.correct, 5);
}

#[test]
fn evaluation_checks_parallel_lengths() {
    let (samples, labels) = eval_fixture();
    let outputs: Vec<Vec<i64>> = vec![vec![1, 2, 3]; 4];
    assert_eq!(evaluate(&samples, &outputs, &labels, 3), Err(CoreError::SizeMismatch));
    let bad_width: Vec<Vec<i64>> = vec![vec![1, 2]; 5];
    assert_eq!(evaluate(&samples, &bad_width, &labels, 3), Err(CoreError::SizeMismatch));
}

#[test]
fn evaluation_rejects_out_of_range_label() {
    let (samples, mut labels) = eval_fixture();
    labels[1] = 7;
    let outputs: Vec<Vec<i64>> = vec![vec![1, 2, 3]; 5];
    assert_eq!(evaluate(&samples, &outputs, &labels, 3), Err(CoreError::LabelOutOfRange));
}

#[test]
fn evaluation_surfaces_target_label_disagreement() {
    let (samples, mut labels) = eval_fixture();
    labels[2] = 1; // target still one-hot at 2
    let outputs: Vec<Vec<i64>> = vec![vec![1, 2, 3]; 5];
    assert_eq!(evaluate(&samples, &outputs, &labels, 3), Err(CoreError::DataIntegrity));
}

// --- configuration -------------------------------------------------------

#[test]
fn parse_u64_reads_digit_runs() {
    assert_eq!(parse_u64(&b"123".to_vec()), Some(123));
    assert_eq!(parse_u64(&b"0".to_vec()), Some(0));
    assert_eq!(parse_u64(&b"18446744073709551615".to_vec()), Some(u64::MAX));
    assert_eq!(parse_u64(&b"".to_vec()), None);
    assert_eq!(parse_u64(&b"12a".to_vec()), None);
    assert_eq!(parse_u64(&b"-3".to_vec()), None);
    assert_eq!(parse_u64(&b"18446744073709551616".to_vec()), None);
}

#[test]
fn parse_decimal_keeps_exact_fractions() {
    assert_eq!(parse_decimal(&b"0.5".to_vec()), Some(Frac { num: 5, den: 10 }));
    assert_eq!(parse_decimal(&b"1.25".to_vec()), Some(Frac { num: 125, den: 100 }));
    assert_eq!(parse_decimal(&b"50".to_vec()), Some(Frac { num: 50, den: 1 }));
    assert_eq!(parse_decimal(&b"".to_vec()), None);
    assert_eq!(parse_decimal(&b".".to_vec()), None);
    assert_eq!(parse_decimal(&b".5".to_vec()), None);
    assert_eq!(parse_decimal(&b"1.".to_vec()), None);
    assert_eq!(parse_decimal(&b"1.2.3".to_vec()), None);
    assert_eq!(parse_decimal(&b"a.5".to_vec()), None);
}

#[test]
fn config_defaults_match_documentation() {
    let cfg = resolve_config(true, false, true, None, None, None, 100).unwrap();
    assert!(cfg.verbose);
    assert!(!cfg.save);
    assert!(cfg.adaptive);
    assert_eq!(cfg.epochs, 50);
    assert_eq!(cfg.batch_size, 10);
    assert_eq!(cfg.rate, Frac { num: 1, den: 2 });
}

#[test]
fn config_rejects_invalid_numbers() {
    let bad = b"abc".to_vec();
    assert_eq!(
        resolve_config(false, false, false, Some(&bad), None, None, 100),
        Err(CoreError::InvalidNumber)
    );
    let zero = b"0".to_vec();
    assert_eq!(
        resolve_config(false, false, false, Some(&zero), None, None, 100),
        Err(CoreError::InvalidNumber)
    );
    let zero_rate = b"0.0".to_vec();
    assert_eq!(
        resolve_config(false, false, false, None, None, Some(&zero_rate), 100),
        Err(CoreError::InvalidNumber)
    );
}

#[test]
fn config_rejects_batch_exceeding_training_set() {
    let batch = b"200".to_vec();
    assert_eq!(
        resolve_config(false, false, false, None, Some(&batch), None, 100),
        Err(CoreError::SizeMismatch)
    );
}

#[test]
fn config_accepts_explicit_flags() {
    let epochs = b"7".to_vec();
    let batch = b"25".to_vec();
    let rate = b"0.5".to_vec();
    let cfg =
        resolve_config(false, true, false, Some(&epochs), Some(&batch), Some(&rate), 100).unwrap();
    assert_eq!(cfg.epochs, 7);
    assert_eq!(cfg.batch_size, 25);
    assert_eq!(cfg.rate, Frac { num: 5, den: 10 });
    assert!(cfg.save);
}
