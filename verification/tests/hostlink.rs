use signal_pipeline::config::NoiseConfig;
use signal_pipeline::filter::FilterStage;
use signal_pipeline::generator::{SquareGenerator, noise_value};
use signal_pipeline::hostlink::{HostAction, HostEvent, format_line, handle_event};
use signal_pipeline::queue::BoundedQueue;
use signal_pipeline::sample::{PublishedSample, RawSample};

#[test]
fn sine_line_format() {
    let line = format_line(&PublishedSample::Sine(1_000_000, 300_000));
    assert_eq!(line, b"SINE,1,0.3\r\n".to_vec());
}

#[test]
fn square_line_format() {
    let line = format_line(&PublishedSample::Square(0, -123_456));
    assert_eq!(line, b"SQUARE,0,-0.123456\r\n".to_vec());
}

#[test]
fn line_format_trims_trailing_zeros() {
    let line = format_line(&PublishedSample::Sine(1_500_000, 759_900));
    assert_eq!(line, b"SINE,1.5,0.7599\r\n".to_vec());
}

#[test]
fn line_format_negative_integer_part() {
    let line = format_line(&PublishedSample::Sine(-2_000_000, -2_500_000));
    assert_eq!(line, b"SINE,-2,-2.5\r\n".to_vec());
}

#[test]
fn line_format_small_fraction_keeps_leading_zeros() {
    let line = format_line(&PublishedSample::Square(1_000_001, 12));
    assert_eq!(line, b"SQUARE,1.000001,0.000012\r\n".to_vec());
}

#[test]
fn published_event_yields_one_line_and_leaves_knob_alone() {
    let mut cfg = NoiseConfig::new();
    let ev = HostEvent::Published(PublishedSample::Square(1_000_000, 510_000));
    match handle_event(&mut cfg, ev) {
        HostAction::WriteLine(line) => {
            assert_eq!(line, b"SQUARE,1,0.51\r\n".to_vec());
        }
        HostAction::NoOutput => panic!("a published sample is owed a line"),
    }
    assert_eq!(cfg.get(), 20);
}

#[test]
fn byte_event_moves_knob_and_writes_nothing() {
    let mut cfg = NoiseConfig::new();
    match handle_event(&mut cfg, HostEvent::ByteReceived(b'p')) {
        HostAction::NoOutput => {}
        HostAction::WriteLine(_) => panic!("a command byte yields no output"),
    }
    assert_eq!(cfg.get(), 21);
    match handle_event(&mut cfg, HostEvent::ByteReceived(b'l')) {
        HostAction::NoOutput => {}
        HostAction::WriteLine(_) => panic!("a command byte yields no output"),
    }
    assert_eq!(cfg.get(), 20);
    match handle_event(&mut cfg, HostEvent::ByteReceived(b'?')) {
        HostAction::NoOutput => {}
        HostAction::WriteLine(_) => panic!("a command byte yields no output"),
    }
    assert_eq!(cfg.get(), 20);
}

#[test]
fn command_applies_before_next_publish() {
    // A byte served between two publishes moves the knob at once, so
    // the sample generated after it already uses the new level.
    let mut cfg = NoiseConfig::new();
    let first = HostEvent::Published(PublishedSample::Sine(0, 0));
    assert!(matches!(handle_event(&mut cfg, first), HostAction::WriteLine(_)));
    let before = cfg.get();
    handle_event(&mut cfg, HostEvent::ByteReceived(b'p'));
    assert_eq!(cfg.get(), before + 1);
    // The next sample's noise is scaled by the updated level...
    assert_eq!(noise_value(0, cfg.get()), -(before as i64 + 1) * 5_000);
    // ...while the next publish event still leaves the knob alone.
    let second = HostEvent::Published(PublishedSample::Sine(0, 0));
    assert!(matches!(handle_event(&mut cfg, second), HostAction::WriteLine(_)));
    assert_eq!(cfg.get(), before + 1);
}

#[test]
fn pipeline_end_to_end_orders_and_loses_nothing() {
    // Generators fill the sample queue past its capacity; the refused
    // item is retried after the filter stage drains, so every sample
    // reaches the host link, in order, exactly once.
    let mut square = SquareGenerator::new();
    let mut sample_queue: BoundedQueue<RawSample> = BoundedQueue::new();
    let mut publish_queue: BoundedQueue<PublishedSample> = BoundedQueue::new();
    let mut stage = FilterStage::new();
    let mut cfg = NoiseConfig::new();
    let mut produced: Vec<RawSample> = Vec::new();
    let mut lines: Vec<Vec<u8>> = Vec::new();

    let mut pending: Option<RawSample> = None;
    let mut ticks = 0u32;
    while ticks < 10 || pending.is_some() {
        // Producer task: retry a refused sample before making new ones.
        let s = match pending.take() {
            Some(s) => s,
            None if ticks < 10 => {
                let s = square.sample(noise_value(ticks as i64 * 99_999, cfg.get()));
                square.advance();
                ticks += 1;
                produced.push(s);
                s
            }
            None => break,
        };
        if let Err(back) = sample_queue.push(s) {
            pending = Some(back);
            // Consumer task runs only when the producer suspends, the
            // worst interleaving for backpressure.
            while let Some(raw) = sample_queue.pop() {
                let published = stage.process(raw);
                if let Err(_p) = publish_queue.push(published) {
                    // Host link drains one item, as one loop iteration does.
                    if let Some(item) = publish_queue.pop() {
                        if let HostAction::WriteLine(line) =
                            handle_event(&mut cfg, HostEvent::Published(item))
                        {
                            lines.push(line);
                        }
                    }
                    assert_eq!(publish_queue.push(published), Ok(()));
                }
            }
        }
    }
    // Drain whatever is still queued.
    while let Some(raw) = sample_queue.pop() {
        let published = stage.process(raw);
        if let Err(_back) = publish_queue.push(published) {
            if let Some(item) = publish_queue.pop() {
                if let HostAction::WriteLine(line) =
                    handle_event(&mut cfg, HostEvent::Published(item))
                {
                    lines.push(line);
                }
            }
            assert_eq!(publish_queue.push(published), Ok(()));
        }
    }
    while let Some(item) = publish_queue.pop() {
        if let HostAction::WriteLine(line) = handle_event(&mut cfg, HostEvent::Published(item)) {
            lines.push(line);
        }
    }

    // Exactly one line per produced sample, in production order.
    assert_eq!(lines.len(), produced.len());
    let mut replay = FilterStage::new();
    for (line, raw) in lines.iter().zip(produced.iter()) {
        let expected = format_line(&replay.process(*raw));
        assert_eq!(line, &expected);
    }
}
