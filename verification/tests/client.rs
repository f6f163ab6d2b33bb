use sharded_server::client::{
    draw_input, preview, ClientAction, ClientConnection, ClientEvent, ClientStep, MAX_INPUT,
    MIN_INPUT, RESPONSE_BUFFER_SIZE,
};
use sharded_server::interval::{Interval, MAX_NANOS};
use sharded_server::request::parse_request;
use sharded_server::shard::Shard;
use sharded_server::stats::{BenchmarkStats, ProgressMeter};
use sharded_server::text::{append_decimal, append_signed_decimal, parse_text, trim};
use std::time::{Duration, Instant};

fn failed() -> ClientEvent {
    ClientEvent::Failed("out of luck".to_string())
}

fn quiet(step: &ClientStep) -> bool {
    step.complaint.is_none() && step.notice.is_none() && step.record.is_none()
}

/// A connection with the given number that has just been set up.
fn ready(connection_id: usize) -> ClientConnection {
    let (mut connection, action) = ClientConnection::start(connection_id, Interval::from_secs(30));
    assert!(matches!(action, ClientAction::Connect));
    let step = connection.advance(ClientEvent::Done);
    assert!(quiet(&step) && matches!(step.action, ClientAction::SetReadTimeout));
    let step = connection.advance(ClientEvent::Done);
    assert!(quiet(&step) && matches!(step.action, ClientAction::SetWriteTimeout));
    let step = connection.advance(ClientEvent::Done);
    assert!(quiet(&step) && matches!(step.action, ClientAction::SetNoDelay));
    let step = connection.advance(ClientEvent::Done);
    assert!(matches!(step.action, ClientAction::CheckClock));
    assert!(step.complaint.is_none());
    assert_eq!(
        step.notice,
        Some(format!("Connection {}: Connected, starting requests", connection_id))
    );
    connection
}

/// Sends a request for `input` and waits for the answer.
fn send(connection: &mut ClientConnection, input: u64) {
    let step = connection.advance(ClientEvent::Clock(Interval::zero()));
    assert!(quiet(&step) && matches!(step.action, ClientAction::DrawInput));
    let step = connection.advance(ClientEvent::Drawn(input));
    assert!(quiet(&step));
    match step.action {
        ClientAction::Send(line) => assert_eq!(parse_request(line.as_bytes()), Some(input)),
        _ => panic!("nothing to send"),
    }
    let step = connection.advance(ClientEvent::Done);
    assert!(quiet(&step) && matches!(step.action, ClientAction::Receive));
}

fn answer(text: &str, millis: u128) -> ClientEvent {
    ClientEvent::Received {
        response: text.as_bytes().to_vec(),
        took: Interval::from_nanos(millis * 1_000_000),
    }
}

#[test]
fn inputs_are_drawn_from_the_whole_range() {
    let mut seen = [false; 1001];
    for _ in 0..100_000 {
        let input = draw_input();
        assert!(MIN_INPUT <= input && input <= MAX_INPUT);
        seen[input as usize] = true;
    }
    assert_eq!((MIN_INPUT, MAX_INPUT), (1, 1000));
    assert!(seen[1] && seen[1000]);
    assert!(seen.iter().filter(|drawn| **drawn).count() > 900);
}

#[test]
fn only_numbers_in_range_are_asked_for() {
    let mut connection = ready(0);
    connection.advance(ClientEvent::Clock(Interval::zero()));
    for input in [0, 1001, u64::MAX] {
        assert!(!connection.awaits(&ClientEvent::Drawn(input)));
    }
    for input in [1, 1000] {
        assert!(connection.awaits(&ClientEvent::Drawn(input)));
    }
    match connection.advance(ClientEvent::Drawn(1000)).action {
        ClientAction::Send(line) => assert_eq!(line, "1000\n"),
        _ => panic!("nothing to send"),
    }
}

#[test]
fn setup_failures_end_the_connection() {
    let lines = [
        "Connection 5: Failed to connect: out of luck",
        "Connection 5: Failed to set read timeout: out of luck",
        "Connection 5: Failed to set write timeout: out of luck",
    ];
    for (successes, line) in lines.iter().enumerate() {
        let (mut connection, _) = ClientConnection::start(5, Interval::from_secs(30));
        for _ in 0..successes {
            connection.advance(ClientEvent::Done);
        }
        let step = connection.advance(failed());
        assert!(matches!(step.action, ClientAction::Abort));
        assert_eq!(step.complaint.as_deref(), Some(*line));
        assert!(step.notice.is_none() && step.record.is_none());
        assert!(!connection.awaits(&ClientEvent::Done));
        assert!(!connection.awaits(&failed()));
    }
}

#[test]
fn delayed_packets_are_no_reason_to_stop() {
    let (mut connection, _) = ClientConnection::start(7, Interval::from_secs(30));
    for _ in 0..3 {
        connection.advance(ClientEvent::Done);
    }
    let step = connection.advance(failed());
    assert!(matches!(step.action, ClientAction::CheckClock));
    assert_eq!(step.complaint.as_deref(), Some("Connection 7: Failed to set nodelay: out of luck"));
    assert_eq!(step.notice.as_deref(), Some("Connection 7: Connected, starting requests"));
}

#[test]
fn time_limit_ends_the_connection() {
    let mut connection = ready(0);
    let almost = Interval::from_nanos(29_999_999_999);
    let step = connection.advance(ClientEvent::Clock(almost));
    assert!(matches!(step.action, ClientAction::DrawInput));

    let mut connection = ready(0);
    let step = connection.advance(ClientEvent::Clock(Interval::from_secs(30)));
    assert!(quiet(&step) && matches!(step.action, ClientAction::Finish));
    assert_eq!(connection.request_count(), 0);
    assert!(!connection.awaits(&ClientEvent::Clock(Interval::zero())));
}

#[test]
fn answers_are_counted_and_recorded() {
    let mut connection = ready(3);
    for n in 1..=5 {
        send(&mut connection, n);
        let step = connection.advance(answer("Reply\n", 10 * n as u128));
        assert!(matches!(step.action, ClientAction::CheckClock));
        assert!(step.complaint.is_none() && step.notice.is_none());
        assert_eq!(step.record.map(|took| took.as_millis()), Some(10 * n as u128));
        assert_eq!(connection.request_count(), n);
    }
}

#[test]
fn every_thousandth_answer_is_shown() {
    let mut connection = ready(3);
    let mut shard = Shard::new(0, 1, 10);
    for n in 1..=2000u64 {
        send(&mut connection, 12);
        let step = connection.advance(answer(&shard.answer(12), 1));
        if n % 1000 == 0 {
            assert_eq!(
                step.notice,
                Some(format!(
                    "Connection 3: Request {}, Input: 12, Response preview: \
                     Reply from shard 0: received value 12 and cached fibonacci 144",
                    n
                ))
            );
        } else {
            assert!(step.notice.is_none());
        }
    }
}

#[test]
fn closed_stream_ends_the_connection() {
    let mut connection = ready(4);
    send(&mut connection, 1);
    connection.advance(answer("Reply\n", 1));
    send(&mut connection, 2);
    let step = connection.advance(answer("", 1));
    assert!(matches!(step.action, ClientAction::Finish));
    assert_eq!(
        step.notice.as_deref(),
        Some("Connection 4: Server closed connection after 1 requests")
    );
    assert!(step.complaint.is_none() && step.record.is_none());
    assert_eq!(connection.request_count(), 1);
}

#[test]
fn failed_write_ends_the_connection() {
    let mut connection = ready(9);
    connection.advance(ClientEvent::Clock(Interval::zero()));
    connection.advance(ClientEvent::Drawn(1));
    let step = connection.advance(failed());
    assert!(matches!(step.action, ClientAction::Finish));
    assert_eq!(
        step.complaint.as_deref(),
        Some("Connection 9: Failed to send request: out of luck")
    );
}

#[test]
fn failed_read_ends_the_connection() {
    let mut connection = ready(9);
    send(&mut connection, 1);
    let step = connection.advance(failed());
    assert!(matches!(step.action, ClientAction::Finish));
    assert_eq!(
        step.complaint.as_deref(),
        Some("Connection 9: Failed to read response: out of luck")
    );
    assert!(step.record.is_none());
}

#[test]
fn preview_is_cut_and_trimmed() {
    assert_eq!(preview(b" \tReply\r\n"), "Reply");
    assert_eq!(preview(b""), "");
    let long = vec![b'x'; 150];
    assert_eq!(preview(&long), "x".repeat(100));
    let mut cut = vec![b'x'; 99];
    cut.extend("\u{e9}\u{e9}".as_bytes());
    assert_eq!(preview(&cut), format!("{}\u{fffd}", "x".repeat(99)));
    assert_eq!(preview(b"\xff\xfeok"), "\u{fffd}\u{fffd}ok");
}

#[test]
fn replies_fit_the_buffer() {
    let mut shard = Shard::new(usize::MAX - 1, usize::MAX, 10);
    assert!(shard.answer(1_000_000).len() <= RESPONSE_BUFFER_SIZE);
    assert!(shard.answer(1_000_000).len() <= RESPONSE_BUFFER_SIZE);
}

#[test]
fn statistics_start_empty() {
    let stats = BenchmarkStats::new();
    assert_eq!(stats.total_requests, 0);
    assert_eq!(stats.total_duration.as_nanos(), 0);
    assert!(stats.average_response_time_ms().is_none());
    assert!(stats.requests_over(Interval::zero()).is_none());
}

#[test]
fn statistics_add_up_in_any_order() {
    let lengths: [u128; 4] = [1_500_000, 700_000, 2_000_000_000, 1];
    let mut forwards = BenchmarkStats::new();
    let mut backwards = BenchmarkStats::new();
    for nanos in lengths {
        forwards.add_request(Interval::from_nanos(nanos));
    }
    for nanos in lengths.iter().rev() {
        backwards.add_request(Interval::from_nanos(*nanos));
    }
    for stats in [&forwards, &backwards] {
        assert_eq!(stats.total_requests, 4);
        assert_eq!(stats.total_duration.as_nanos(), 2_002_200_001);
        assert_eq!(stats.average_response_time_ms(), Some((2002, 4)));
        let (requests, elapsed) = stats.requests_over(Interval::from_secs(2)).unwrap();
        assert_eq!((requests, elapsed.as_nanos()), (4, 2_000_000_000));
    }
}

#[test]
fn statistics_know_their_limits() {
    let mut stats = BenchmarkStats::new();
    let longest = Interval::from_nanos(MAX_NANOS);
    assert_eq!(Duration::MAX.as_nanos(), MAX_NANOS);
    assert!(stats.can_add(&longest));
    stats.add_request(longest);
    assert!(stats.can_add(&Interval::zero()));
    assert!(!stats.can_add(&Interval::from_nanos(1)));
    stats.total_requests = u64::MAX;
    assert!(!stats.can_add(&Interval::zero()));
}

#[test]
fn time_passes() {
    let start = Instant::now();
    let stats = BenchmarkStats::starting_at(start);
    std::hint::black_box((0..100_000u64).map(|n| n.wrapping_mul(n)).fold(0u64, u64::wrapping_add));
    let before = start.elapsed().as_nanos();
    let elapsed = stats.elapsed();
    let after = start.elapsed().as_nanos();
    assert!(before <= elapsed.as_nanos() && elapsed.as_nanos() <= after);
    if let Some((requests, elapsed)) = stats.requests_per_second() {
        assert_eq!(requests, 0);
        assert!(elapsed.as_nanos() >= after);
    }
}

#[test]
fn periods_add_up_to_the_total() {
    let mut meter = ProgressMeter::new();
    assert_eq!(meter.requests_in_period(10), 10);
    assert_eq!(meter.requests_in_period(10), 0);
    assert_eq!(meter.requests_in_period(25), 15);
    assert_eq!(meter.last_requests, 25);
}

#[test]
fn intervals_count_and_compare() {
    assert_eq!(Interval::from_secs(2).as_nanos(), 2_000_000_000);
    assert_eq!(Interval::from_secs(u64::MAX).as_millis(), Duration::from_secs(u64::MAX).as_millis());
    assert_eq!(Interval::from_nanos(1_999_999).as_millis(), 1);
    assert!(Interval::from_secs(1).at_least(&Interval::from_nanos(1_000_000_000)));
    assert!(!Interval::from_nanos(999_999_999).at_least(&Interval::from_secs(1)));
    assert_eq!(Interval::from_secs(1).plus(&Interval::from_nanos(5)).as_nanos(), 1_000_000_005);
    assert_eq!(Interval::zero().as_nanos(), 0);
}

#[test]
fn numerals_are_decimal() {
    for n in [0u64, 9, 10, 99, 100, 1337, 18446744073709551615] {
        let mut out = String::from("n=");
        append_decimal(&mut out, n);
        assert_eq!(out, format!("n={}", n));
        assert_eq!(parse_text(&out[2..]), Some(n));
    }
    for n in [0i32, 5, -5, i32::MAX, i32::MIN] {
        let mut out = String::new();
        append_signed_decimal(&mut out, n);
        assert_eq!(out, n.to_string());
    }
}

#[test]
fn white_space_is_that_of_unicode() {
    for code in 0..=0x10ffffu32 {
        if let Some(c) = char::from_u32(code) {
            let text = c.to_string();
            assert_eq!(trim(&text), text.trim(), "{:x}", code);
            let number = format!("1{}", c);
            assert_eq!(parse_text(&number), number.trim_end().parse::<u64>().ok(), "{:x}", code);
        }
    }
}
