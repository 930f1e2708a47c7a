use signal_pipeline::arith::div_floor;
use signal_pipeline::config::{Command, NoiseConfig, parse_command};
use signal_pipeline::entropy::{scale_draw, uniform_micro};
use signal_pipeline::filter::{Filter, FilterStage};
use signal_pipeline::generator::{SineGenerator, SquareGenerator, noise_value};
use signal_pipeline::queue::BoundedQueue;
use signal_pipeline::sample::{PublishedSample, RawSample};

#[test]
fn div_floor_rounds_toward_negative_infinity() {
    assert_eq!(div_floor(7, 10), 0);
    assert_eq!(div_floor(-7, 10), -1);
    assert_eq!(div_floor(-10, 10), -1);
    assert_eq!(div_floor(-11, 10), -2);
    assert_eq!(div_floor(0, 7), 0);
    assert_eq!(div_floor(-16499901, 100), -165000);
}

#[test]
fn parse_command_maps_bytes() {
    assert_eq!(parse_command(b'p'), Command::IncreaseNoise);
    assert_eq!(parse_command(b'l'), Command::DecreaseNoise);
    assert_eq!(parse_command(b'x'), Command::Unrecognized(b'x'));
    assert_eq!(parse_command(0), Command::Unrecognized(0));
}

#[test]
fn noise_level_stays_in_range_for_any_command_mix() {
    // Hammer the knob with interleaved increments and decrements and
    // check the invariant at every observation point.
    let mut cfg = NoiseConfig::new();
    assert_eq!(cfg.get(), 20);
    let script: Vec<u8> = (0..1000u32)
        .map(|i| match i % 7 {
            0 | 1 | 2 => b'l',
            3 | 4 => b'p',
            5 => b'x',
            _ => b'p',
        })
        .collect();
    for b in script {
        cfg.apply_command(parse_command(b));
        assert!((1..=100).contains(&cfg.get()));
    }
}

#[test]
fn noise_level_floors_at_one() {
    let mut cfg = NoiseConfig::new();
    for _ in 0..500 {
        cfg.apply_command(Command::DecreaseNoise);
    }
    assert_eq!(cfg.get(), 1);
    cfg.apply_command(Command::DecreaseNoise);
    assert_eq!(cfg.get(), 1);
}

#[test]
fn noise_level_clamps_at_hundred() {
    let mut cfg = NoiseConfig::new();
    for _ in 0..500 {
        cfg.apply_command(Command::IncreaseNoise);
    }
    assert_eq!(cfg.get(), 100);
    cfg.apply_command(Command::IncreaseNoise);
    assert_eq!(cfg.get(), 100);
}

#[test]
fn unrecognized_byte_changes_nothing() {
    let mut cfg = NoiseConfig::new();
    cfg.apply_command(Command::Unrecognized(b'?'));
    assert_eq!(cfg.get(), 20);
}

#[test]
fn filter_constant_one_matches_expected_sequence() {
    // Feeding 1.0 four times from rest: 0.3, 0.51, 0.657, 0.7599.
    let mut f = Filter::new();
    let outputs: Vec<i64> = (0..4).map(|_| f.filter(1_000_000)).collect();
    assert_eq!(outputs, vec![300_000, 510_000, 657_000, 759_900]);
    let expected = [0.3f64, 0.51, 0.657, 0.7599];
    for (y, e) in outputs.iter().zip(expected.iter()) {
        assert!((*y as f64 / 1_000_000.0 - e).abs() < 1e-9);
    }
}

#[test]
fn filter_converges_monotonically_to_constant_input() {
    let x: i64 = 250_000_000;
    let mut f = Filter::new();
    let mut prev: i64 = 0;
    for _ in 0..200 {
        let y = f.filter(x);
        assert!(y >= prev);
        assert!(y <= x);
        prev = y;
    }
    // After many steps the residual has shrunk to (almost) nothing.
    assert!(x - prev <= 3);
}

#[test]
fn filter_handles_negative_values() {
    let mut f = Filter::new();
    let y = f.filter(-1_000_000);
    assert_eq!(y, -300_000);
}

#[test]
fn filter_stage_keeps_waveforms_independent() {
    let mut stage = FilterStage::new();
    let p1 = stage.process(RawSample::Sine(1_000_000));
    assert_eq!(p1, PublishedSample::Sine(1_000_000, 300_000));
    // The square filter was not touched by the sine sample.
    let p2 = stage.process(RawSample::Square(1_000_000));
    assert_eq!(p2, PublishedSample::Square(1_000_000, 300_000));
    let p3 = stage.process(RawSample::Sine(1_000_000));
    assert_eq!(p3, PublishedSample::Sine(1_000_000, 510_000));
}

#[test]
fn square_wave_has_hundred_tick_period() {
    // Ticks 0..200: high exactly when (tick / 50) % 2 == 0.
    let mut g = SquareGenerator::new();
    for tick in 0u32..200 {
        let expected: i64 = if (tick / 50) % 2 == 0 { 1_000_000 } else { 0 };
        assert_eq!(g.base_value(), expected);
        g.advance();
    }
}

#[test]
fn square_wave_period_survives_counter_wraparound() {
    // The counter wraps after a whole number of hundred-tick periods,
    // so two walks one period apart see identical levels even while one
    // of them crosses the wrap back to zero.
    let modulus: u32 = 4_294_967_200;
    let mut ahead = SquareGenerator { counter: modulus - 150 };
    let mut behind = SquareGenerator { counter: modulus - 250 };
    for _ in 0..300 {
        assert_eq!(ahead.base_value(), behind.base_value());
        ahead.advance();
        behind.advance();
    }
    // Both walks crossed the wrap and are now past zero.
    assert_eq!(ahead.counter, 150);
    assert_eq!(behind.counter, 50);
}

#[test]
fn scale_draw_matches_formula() {
    // u = draw * 1_000_000 / 2^32, rounded down.
    assert_eq!(scale_draw(0), 0);
    assert_eq!(scale_draw(1), 0);
    assert_eq!(scale_draw(2_147_483_648), 500_000);
    assert_eq!(scale_draw(u32::MAX), 999_999);
}

#[test]
fn square_sample_carries_base_plus_noise() {
    let g = SquareGenerator::new();
    assert_eq!(g.sample(-250_000), RawSample::Square(750_000));
}

#[test]
fn sine_generator_tracks_phase() {
    let mut g = SineGenerator::new();
    for _ in 0..42 {
        g.advance();
    }
    // 42 ticks of 0.01 rad: phase index 42.
    assert_eq!(g.phase_hundredths(), 42);
    assert_eq!(g.sample(500_000, -100_000), RawSample::Sine(400_000));
}

#[test]
fn generator_sequences_are_reproducible() {
    // The noise-free component is a function of the tick alone: two
    // fresh runs produce bit-identical sequences.
    let run = || -> Vec<i64> {
        let mut g = SquareGenerator::new();
        let mut out = Vec::new();
        for _ in 0..300 {
            out.push(g.base_value());
            g.advance();
        }
        out
    };
    assert_eq!(run(), run());

    // And the seeded noise stream of the real generator repeats too:
    // the same seed gives the same draws, hence the same noise values.
    let noise_run = |seed: u64| -> Vec<i64> {
        let mut rng = fastrand::Rng::with_seed(seed);
        let mut out = Vec::new();
        for _ in 0..300 {
            out.push(noise_value(uniform_micro(&mut rng), 20));
        }
        out
    };
    assert_eq!(noise_run(7), noise_run(7));
}

#[test]
fn uniform_draw_stays_in_range_and_moves_the_stream() {
    let mut rng = fastrand::Rng::with_seed(12345);
    let mut distinct = false;
    let mut prev: i64 = -1;
    for _ in 0..1000 {
        let u = uniform_micro(&mut rng);
        assert!((0..1_000_000).contains(&u));
        if prev >= 0 && u != prev {
            distinct = true;
        }
        prev = u;
    }
    // A constant stream would mean the draw never advanced the state.
    assert!(distinct);
}

#[test]
fn noise_value_matches_formula() {
    // noise = (u - 0.5) * level / 100, rounded down, in micro-units.
    assert_eq!(noise_value(0, 100), -500_000);
    assert_eq!(noise_value(999_999, 100), 499_999);
    assert_eq!(noise_value(500_000, 100), 0);
    assert_eq!(noise_value(250_000, 50), -125_000);
    // Floor rounding, not truncation toward zero.
    assert_eq!(noise_value(3, 33), -165_000);
}

#[test]
fn queue_refuses_fifth_item_and_keeps_order() {
    let mut q: BoundedQueue<i64> = BoundedQueue::new();
    assert_eq!(q.len(), 0);
    for i in 0..4 {
        assert_eq!(q.push(i), Ok(()));
    }
    // Backpressure: a full queue hands the item back unchanged.
    assert_eq!(q.push(99), Err(99));
    assert_eq!(q.len(), 4);
    // Draining one element makes room; order is strictly first-in
    // first-out, the refused item was not lost by its producer.
    assert_eq!(q.pop(), Some(0));
    assert_eq!(q.push(99), Ok(()));
    assert_eq!(q.pop(), Some(1));
    assert_eq!(q.pop(), Some(2));
    assert_eq!(q.pop(), Some(3));
    assert_eq!(q.pop(), Some(99));
    assert_eq!(q.pop(), None);
}
