use sharded_server::cache::FibCache;
use sharded_server::connection::{
    accept, adopt, advance, awaits, ConnectionAction, ConnectionEvent, ConnectionState,
};
use sharded_server::fibonacci::compute_fibonacci;
use sharded_server::request::{
    parse_request, received_text, rejection, request_line, READ_BUFFER_SIZE,
};
use sharded_server::shard::{process_synchronously_on_shard, route, Msg, Shard, LRU_CACHE_SIZE};

fn received(text: &str) -> ConnectionEvent {
    ConnectionEvent::Received(text.as_bytes().to_vec())
}

fn reply_of(next: (ConnectionState, ConnectionAction)) -> (ConnectionState, String) {
    match next {
        (state, ConnectionAction::Reply(response)) => (state, response),
        _ => panic!("no reply"),
    }
}

#[test]
fn fibonacci_of_small_numbers() {
    let expected: [u64; 13] = [0, 1, 1, 2, 3, 5, 8, 13, 21, 34, 55, 89, 144];
    for (n, number) in expected.iter().enumerate() {
        assert_eq!(compute_fibonacci(n as u64), *number);
    }
    assert_eq!(compute_fibonacci(42), 267914296);
    assert_eq!(compute_fibonacci(55), 139583862445);
}

#[test]
fn fibonacci_wraps_from_the_ninety_fourth_on() {
    assert_eq!(compute_fibonacci(93), 12200160415121876738);
    assert_eq!(compute_fibonacci(94), 1293530146158671551);
}

#[test]
fn fibonacci_follows_the_recurrence_past_the_filler_work() {
    for n in 2..3005 {
        assert_eq!(
            compute_fibonacci(n),
            compute_fibonacci(n - 1).wrapping_add(compute_fibonacci(n - 2))
        );
    }
}

#[test]
fn requests_are_read() {
    assert_eq!(parse_request(b"42\n"), Some(42));
    assert_eq!(parse_request(b"1337\r\n"), Some(1337));
    assert_eq!(parse_request(b"55"), Some(55));
    assert_eq!(parse_request(b"+7 \t\n"), Some(7));
    assert_eq!(parse_request(b"0"), Some(0));
    assert_eq!(parse_request(b"18446744073709551615\n"), Some(u64::MAX));
    assert_eq!(parse_request("8\u{2003}\u{3000}".as_bytes()), Some(8));
}

#[test]
fn other_bytes_are_no_request() {
    assert_eq!(parse_request(b""), None);
    assert_eq!(parse_request(b" \r\n"), None);
    assert_eq!(parse_request(b" 42\n"), None);
    assert_eq!(parse_request(b"-1\n"), None);
    assert_eq!(parse_request(b"+\n"), None);
    assert_eq!(parse_request(b"4 2\n"), None);
    assert_eq!(parse_request(b"4_2\n"), None);
    assert_eq!(parse_request(b"42\n1337\n"), None);
    assert_eq!(parse_request(b"18446744073709551616\n"), None);
    assert_eq!(parse_request(b"hello\n"), None);
    assert_eq!(parse_request(b"\xff\n"), None);
    assert_eq!(parse_request(b"42\xf0\x9f"), None);
}

#[test]
fn requests_are_read_as_std_would_read_them() {
    let samples: [&[u8]; 14] = [
        b"00000000000000000000000000012\n",
        b"++1",
        b"+0",
        b"1e3",
        b"99999999999999999999",
        b"18446744073709551614",
        b"18446744073709551620",
        b"184467440737095516150",
        b"7\x0b\x0c",
        b"7\xc2\xa0",
        b"7\xe2\x80\x8b",
        b"\xd9\xa7",
        b"7\x00",
        b"\xed\xa0\x80",
    ];
    for bytes in samples {
        let text = String::from_utf8_lossy(bytes);
        assert_eq!(parse_request(bytes), text.trim_end().parse::<u64>().ok(), "{:?}", bytes);
    }
}

#[test]
fn request_line_round_trip() {
    let mut numbers: Vec<u64> = (0..=1100).collect();
    numbers.extend([9999, 10000, 1 << 32, u64::MAX - 1, u64::MAX]);
    for n in numbers {
        let line = request_line(n);
        assert_eq!(line, format!("{}\n", n));
        assert!(line.len() <= READ_BUFFER_SIZE);
        assert_eq!(parse_request(line.as_bytes()), Some(n));
    }
}

#[test]
fn message_in_words() {
    let msg = Msg { fd: 17, value: 42 };
    assert_eq!(msg.to_string(), "Msg(fd: 17, value: 42)");
    let msg = Msg { fd: i32::MIN, value: u64::MAX };
    assert_eq!(msg.to_string(), "Msg(fd: -2147483648, value: 18446744073709551615)");
    let msg = Msg { fd: -1, value: 0 };
    assert_eq!(msg.to_string(), "Msg(fd: -1, value: 0)");
}

#[test]
fn second_answer_comes_from_the_cache() {
    let mut cache = FibCache::new(3);
    assert_eq!(
        process_synchronously_on_shard(3, 42, &mut cache),
        "Reply from shard 3: received value 42 and fibonacci 267914296\n"
    );
    for _ in 0..2 {
        assert_eq!(
            process_synchronously_on_shard(3, 42, &mut cache),
            "Reply from shard 3: received value 42 and cached fibonacci 267914296\n"
        );
    }
}

#[test]
fn least_recently_used_number_leaves_a_full_cache() {
    let mut cache = FibCache::new(2);
    for value in [1, 2] {
        assert!(!process_synchronously_on_shard(0, value, &mut cache).contains("cached"));
    }
    // The hit makes 2 the least recently used number.
    assert!(process_synchronously_on_shard(0, 1, &mut cache).contains("cached"));
    assert_eq!(
        process_synchronously_on_shard(0, 3, &mut cache),
        "Reply from shard 0: received value 3 and fibonacci 2\n"
    );
    assert_eq!(cache.get(2), None);
    assert_eq!(cache.get(1), Some(1));
    assert_eq!(cache.get(3), Some(2));
}

#[test]
fn cache_holds_the_most_recently_used_numbers() {
    let values: [u64; 12] = [5, 3, 5, 8, 1, 3, 9, 9, 5, 2, 8, 3];
    for capacity in 1..=7 {
        let mut cache = FibCache::new(capacity);
        for (served, value) in values.iter().enumerate() {
            let mut used: Vec<u64> = Vec::new();
            for earlier in values[..served].iter().rev() {
                if !used.contains(earlier) {
                    used.push(*earlier);
                }
            }
            used.truncate(capacity);
            let cached = process_synchronously_on_shard(0, *value, &mut cache).contains("cached");
            assert_eq!(cached, used.contains(value));
        }
    }
}

#[test]
fn hit_reports_the_stored_number() {
    let mut cache = FibCache::new(3);
    cache.put(5, 99);
    assert_eq!(
        process_synchronously_on_shard(1, 5, &mut cache),
        "Reply from shard 1: received value 5 and cached fibonacci 99\n"
    );
    assert_eq!(cache.get(5), Some(99));
    cache.put(5, 5);
    assert_eq!(cache.get(5), Some(5));
    assert_eq!(cache.get(6), None);
}

#[test]
fn cached_number_survives_fewer_misses_than_the_capacity() {
    let capacity = 50;
    let mut shard = Shard::new(0, 1, capacity);
    shard.answer(7);
    for value in 0..(capacity as u64 - 1) {
        shard.answer(1000 + value);
    }
    assert!(shard.answer(7).contains("cached"));
    for value in 0..capacity as u64 {
        shard.answer(2000 + value);
    }
    assert!(!shard.answer(7).contains("cached"));
}

#[test]
fn rejections_name_the_text() {
    assert_eq!(
        rejection(3, b"hello \r\n").as_deref(),
        Some("Shard 3 failed to parse 'hello' as u64")
    );
    assert_eq!(
        rejection(0, b" 42\n").as_deref(),
        Some("Shard 0 failed to parse ' 42' as u64")
    );
    assert_eq!(
        rejection(1, b"1\n2\n").as_deref(),
        Some("Shard 1 failed to parse '1\n2' as u64")
    );
    assert_eq!(
        rejection(1, b"\xff").as_deref(),
        Some("Shard 1 failed to parse '\u{fffd}' as u64")
    );
    assert_eq!(rejection(1, b"42\n"), None);
    assert_eq!(rejection(1, b" \n"), None);
    assert_eq!(rejection(1, b""), None);
    assert_eq!(received_text(b" a \n"), " a");
    assert_eq!(received_text(b"\xf0\x9f!\n"), "\u{fffd}!");
}

#[test]
fn numbers_are_spread_by_remainder() {
    assert_eq!(route(42, 4), 2);
    assert_eq!(route(1337, 4), 1);
    assert_eq!(route(55, 4), 3);
    assert_eq!(route(u64::MAX, 1), 0);
    assert_eq!(route(8, 8), 0);
}

#[test]
fn every_shard_sends_a_number_to_the_same_shard() {
    let count = 4;
    for value in [0u64, 3, 42, 1337, 1000003] {
        let home = route(value, count);
        for id in 0..count {
            let mut shard = Shard::new(id, count, 10);
            let (state, _) = accept();
            let line = request_line(value);
            let (_, action) = advance(&mut shard, state, received(&line));
            match action {
                ConnectionAction::Reply(response) => {
                    assert_eq!(id, home);
                    assert!(response.starts_with(&format!("Reply from shard {}: ", id)));
                }
                ConnectionAction::HandOver { target, value: asked } => {
                    assert_ne!(id, home);
                    assert_eq!(target, home);
                    assert_eq!(asked, value);
                }
                _ => panic!("neither answered nor handed over"),
            }
        }
    }
}

#[test]
fn connection_serves_request_after_request() {
    let mut shard = Shard::new(2, 4, LRU_CACHE_SIZE);
    let (mut state, action) = accept();
    assert!(matches!(action, ConnectionAction::Receive));
    for (value, expected) in [
        ("42\n", "Reply from shard 2: received value 42 and fibonacci 267914296\n"),
        ("10\n", "Reply from shard 2: received value 10 and fibonacci 55\n"),
        ("42\n", "Reply from shard 2: received value 42 and cached fibonacci 267914296\n"),
    ] {
        let (replying, response) = reply_of(advance(&mut shard, state, received(value)));
        assert_eq!(response, expected);
        let (next, action) = advance(&mut shard, replying, ConnectionEvent::WriteFinished);
        assert!(matches!(next, ConnectionState::AwaitingRequest));
        assert!(matches!(action, ConnectionAction::Receive));
        state = next;
    }
}

#[test]
fn connection_moves_to_the_shard_of_the_request() {
    let mut first = Shard::new(0, 4, 10);
    let (state, _) = accept();
    let (state, action) = advance(&mut first, state, received("1337\n"));
    let (target, value) = match action {
        ConnectionAction::HandOver { target, value } => (target, value),
        _ => panic!("not handed over"),
    };
    assert_eq!((target, value), (1, 1337));
    let (state, action) = advance(&mut first, state, ConnectionEvent::HandoverAccepted);
    assert!(matches!(state, ConnectionState::HandedOver));
    assert!(matches!(action, ConnectionAction::Release));

    let mut second = Shard::new(target, 4, 10);
    let (state, response) = reply_of(adopt(&mut second, value));
    assert_eq!(
        response,
        format!(
            "Reply from shard 1: received value 1337 and fibonacci {}\n",
            compute_fibonacci(1337)
        )
    );
    let (state, action) = advance(&mut second, state, ConnectionEvent::WriteFinished);
    assert!(matches!(state, ConnectionState::AwaitingRequest));
    assert!(matches!(action, ConnectionAction::Receive));
    // The first shard has cached nothing of it, the second one has.
    assert!(!first.answer(1337).contains("cached"));
    assert!(second.answer(1337).contains("cached"));
}

#[test]
fn rejected_handover_is_told_and_closes() {
    let mut shard = Shard::new(0, 2, 10);
    let (state, _) = accept();
    let (state, _) = advance(&mut shard, state, received("3\n"));
    let (state, action) = advance(&mut shard, state, ConnectionEvent::HandoverRejected);
    match action {
        ConnectionAction::Refuse(refusal) => {
            assert_eq!(refusal, "Server is overwhelmed. Please try again later.\n")
        }
        _ => panic!("not refused"),
    }
    let (state, action) = advance(&mut shard, state, ConnectionEvent::WriteFinished);
    assert!(matches!(state, ConnectionState::Closed));
    assert!(matches!(action, ConnectionAction::Close));
}

#[test]
fn connection_closes_without_a_request() {
    for event in [
        ConnectionEvent::Received(Vec::new()),
        received("no number\n"),
        received("1\n2\n"),
        ConnectionEvent::ReadFailed,
    ] {
        let mut shard = Shard::new(0, 1, 10);
        let (state, _) = accept();
        let (state, action) = advance(&mut shard, state, event);
        assert!(matches!(state, ConnectionState::Closed));
        assert!(matches!(action, ConnectionAction::Close));
    }
}

#[test]
fn finished_connections_await_nothing() {
    for event in [
        ConnectionEvent::Received(Vec::new()),
        ConnectionEvent::ReadFailed,
        ConnectionEvent::HandoverAccepted,
        ConnectionEvent::HandoverRejected,
        ConnectionEvent::WriteFinished,
    ] {
        assert!(!awaits(&ConnectionState::Closed, &event));
        assert!(!awaits(&ConnectionState::HandedOver, &event));
    }
    assert!(awaits(&ConnectionState::AwaitingRequest, &ConnectionEvent::ReadFailed));
    assert!(awaits(&ConnectionState::AwaitingReply, &ConnectionEvent::WriteFinished));
    assert!(!awaits(&ConnectionState::AwaitingReply, &ConnectionEvent::ReadFailed));
}

#[test]
fn shards_do_not_interfere() {
    let values: [u64; 9] = [1, 2, 3, 4, 1, 5, 7, 2, 1];
    let mut together: Vec<Shard> = (0..3).map(|id| Shard::new(id, 3, 2)).collect();
    let mut alone: Vec<Shard> = (0..3).map(|id| Shard::new(id, 3, 2)).collect();
    let mut replies: Vec<Vec<String>> = vec![Vec::new(), Vec::new(), Vec::new()];
    for value in values {
        let home = route(value, 3);
        replies[home].push(together[home].answer(value));
    }
    for id in 0..3 {
        let own: Vec<String> = values
            .iter()
            .filter(|value| route(**value, 3) == id)
            .map(|value| alone[id].answer(*value))
            .collect();
        assert_eq!(own, replies[id]);
    }
}
